//! Definitions-level logic of a Cairo compiler front end: constant evaluation of
//! integer expressions in the `consteval_int!` inline macro, and the module-level
//! item collection of the definitions database.

pub mod bigint;
pub mod plugin;
pub mod consteval_int;
pub mod use_path;
pub mod ids;
pub mod ordered_map;
pub mod ast;
pub mod db;
pub mod module_data;


/// The mathematical sequences in which the database traits state what their methods
/// answer; an implementor of the traits names them in its signatures.
pub use vstd::prelude::Seq;
