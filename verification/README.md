# cairo_defs

Definitions-level logic of a Cairo compiler front end, verified with Verus:

- `consteval_int!`: constant evaluation of integer expressions with integers of any
  size (`num_bigint` does the arithmetic), and the macro's expansion into the value's
  decimal text or its diagnostics (`src/consteval_int.rs`, `src/bigint.rs`).
- The definitions database (`src/db.rs`, `src/module_data.rs`): the main file, files and
  directory of each module, the modules of a crate and of a file, and the data of a
  module: the items of its files after the macro plugins ran on each of them, the files
  the plugins generated, and the plugins' diagnostics.
- Use paths and their leaves (`src/use_path.rs`).

The database is a trait (`DefsGroup`) whose services (files, parsing, interning) are
supplied by its implementor; the queries are verified functions over it. Module data
keeps its items in `cairo_lang_utils`'s insertion-ordered maps (`src/ordered_map.rs`).

`app/` connects the library to the Cairo parser: it converts `cairo_lang_syntax` trees
into the library's items and expressions and implements the database over
`cairo_lang_parser`'s database. `tests/` exercises the library on concrete inputs.
