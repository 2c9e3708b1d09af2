//! The definitions database: which files make up each module, which items each module
//! holds, and which modules each file belongs to.
//!
//! Each query is a function of the database it is given. The database answers the
//! queries again for other arguments: its answer to a query is the value that the query's
//! function computes, kept once computed, so that it is the same each time it is asked.

use vstd::prelude::*;
use std::sync::Arc;
use cairo_lang_utils::ordered_hash_map::OrderedHashMap;
use crate::ast::{ItemAst, ItemModuleAst, NamedItemAst};
use crate::ids::{
    CrateId, FileId, SubmoduleId, ConstantId, UseId, FreeFunctionId, StructId, EnumId,
    TypeAliasId, ImplAliasId, TraitId, ImplDefId, ExternTypeId, ExternFunctionId, ModuleId,
    FileIndex, ModuleFileId, ItemKind, ModuleItemId,
};
use crate::ordered_map::{
    entries_get, entries_keys, named_item_entries, module_item_entries, use_leaf_entries,
    file_modules_entries, named_items_keys, module_items_keys, use_leaves_keys, module_items_get,
    named_items_get, use_leaves_get, file_modules_get, file_modules_new, file_modules_insert,
    option_deref, entries_insert, entries_map, lemma_entries_insert_map, lemma_entries_get_map, lemma_entries_get_insert,
};
use crate::plugin::{
    SyntaxStablePtrId, PluginDiagnostic, GeneratedFileInfo, HasMacroPlugins,
};
use crate::use_path::UsePathLeaf;

verus! {

/// The error of a query whose diagnostics were already reported.
#[derive(PartialEq, Eq, Structural, Clone, Copy, Debug)]
pub struct DiagnosticAdded;

/// The result of a query that fails where a diagnostic was reported.
pub type Maybe<T> = Result<T, DiagnosticAdded>;

/// A directory of source files.
pub struct Directory {
    pub path: String,
}

/// What a file holds.
#[derive(PartialEq, Eq, Structural, Clone, Copy, Debug)]
pub enum FileKind {
    Module,
    Expr,
}

/// A file that exists only in memory, such as one that a plugin generated.
pub struct VirtualFile {
    pub parent: Option<FileId>,
    pub name: String,
    pub content: String,
    pub kind: FileKind,
}

/// What a file identifier stands for.
pub enum FileLongId {
    OnDisk(String),
    Virtual(VirtualFile),
}

/// What the definitions database knows of a module.
pub struct ModuleData {
    /// The items of the module, in their order.
    pub items: Arc<Vec<ModuleItemId>>,
    pub constants: OrderedHashMap<ConstantId, NamedItemAst>,
    pub submodules: OrderedHashMap<SubmoduleId, ItemModuleAst>,
    pub uses: OrderedHashMap<UseId, UsePathLeaf>,
    pub free_functions: OrderedHashMap<FreeFunctionId, NamedItemAst>,
    pub structs: OrderedHashMap<StructId, NamedItemAst>,
    pub enums: OrderedHashMap<EnumId, NamedItemAst>,
    pub type_aliases: OrderedHashMap<TypeAliasId, NamedItemAst>,
    pub impl_aliases: OrderedHashMap<ImplAliasId, NamedItemAst>,
    pub traits: OrderedHashMap<TraitId, NamedItemAst>,
    pub impls: OrderedHashMap<ImplDefId, NamedItemAst>,
    pub extern_types: OrderedHashMap<ExternTypeId, NamedItemAst>,
    pub extern_functions: OrderedHashMap<ExternFunctionId, NamedItemAst>,
    /// The files of the module: its main file, then the files that plugins generated.
    pub files: Vec<FileId>,
    /// Generation info for each file. Virtual files have Some. Other files have None.
    pub generated_file_infos: Vec<Option<GeneratedFileInfo>>,
    pub plugin_diagnostics: Vec<(ModuleFileId, PluginDiagnostic)>,
}

/// The definitions database: its inputs, the services of the file system and the parser,
/// and its queries. Each answer is a function of the arguments (the `spec_` functions).
pub trait DefsGroup: HasMacroPlugins {
    spec fn spec_crates(&self) -> Seq<CrateId>;

    /// The crates of the compilation.
    fn crates(&self) -> (r: Vec<CrateId>)
        ensures
            r@ == self.spec_crates(),
    ;

    spec fn spec_crate_root_dir(&self, crate_id: CrateId) -> Option<Directory>;

    /// The directory of a crate's root module, where it has one.
    fn crate_root_dir(&self, crate_id: CrateId) -> (r: Option<Directory>)
        ensures
            r == self.spec_crate_root_dir(crate_id),
    ;

    spec fn spec_directory_file(&self, dir: Directory, name: Seq<char>) -> FileId;

    /// The file of a given name in a directory.
    fn directory_file(&self, dir: &Directory, name: &str) -> (r: FileId)
        ensures
            r == self.spec_directory_file(*dir, name@),
    ;

    spec fn spec_subdir(&self, dir: Directory, name: Seq<char>) -> Directory;

    /// The subdirectory of a given name of a directory.
    fn subdir(&self, dir: &Directory, name: &str) -> (r: Directory)
        ensures
            r == self.spec_subdir(*dir, name@),
    ;

    spec fn spec_intern_file(&self, file: FileLongId) -> FileId;

    /// The identifier of a file.
    fn intern_file(&self, file: FileLongId) -> (r: FileId)
        ensures
            r == self.spec_intern_file(file),
    ;

    spec fn spec_file_module_syntax(&self, file: FileId) -> Maybe<Vec<ItemAst>>;

    /// The items of a file, as the parser reads them.
    fn file_module_syntax(&self, file: FileId) -> (r: Maybe<Vec<ItemAst>>)
        ensures
            r == self.spec_file_module_syntax(file),
    ;

    spec fn spec_intern_item(&self, kind: ItemKind, module_file_id: ModuleFileId, stable_ptr: SyntaxStablePtrId) -> u64;

    /// The identifier of the item of a kind that stands at a place of a module file.
    fn intern_item(&self, kind: ItemKind, module_file_id: ModuleFileId, stable_ptr: SyntaxStablePtrId) -> (r: u64)
        ensures
            r == self.spec_intern_item(kind, module_file_id, stable_ptr),
    ;

    spec fn spec_submodule_module_file(&self, id: SubmoduleId) -> ModuleFileId;

    /// The module file in which a submodule is declared.
    fn submodule_module_file(&self, id: SubmoduleId) -> (r: ModuleFileId)
        ensures
            r == self.spec_submodule_module_file(id),
    ;

    spec fn spec_submodule_name(&self, id: SubmoduleId) -> Seq<char>;

    /// The name of a submodule.
    fn submodule_name(&self, id: SubmoduleId) -> (r: String)
        ensures
            r@ == self.spec_submodule_name(id),
    ;

    spec fn spec_module_main_file(&self, module_id: ModuleId) -> Maybe<FileId>;

    /// The query `module_main_file`.
    fn module_main_file(&self, module_id: ModuleId) -> (r: Maybe<FileId>)
        ensures
            r == self.spec_module_main_file(module_id),
    ;

    spec fn spec_module_files(&self, module_id: ModuleId) -> Maybe<Vec<FileId>>;

    /// The query `module_files`.
    fn module_files(&self, module_id: ModuleId) -> (r: Maybe<Vec<FileId>>)
        ensures
            r == self.spec_module_files(module_id),
    ;

    spec fn spec_module_file(&self, module_file_id: ModuleFileId) -> Maybe<FileId>;

    /// The query `module_file`.
    fn module_file(&self, module_file_id: ModuleFileId) -> (r: Maybe<FileId>)
        ensures
            r == self.spec_module_file(module_file_id),
    ;

    spec fn spec_module_dir(&self, module_id: ModuleId) -> Maybe<Directory>;

    /// The query `module_dir`.
    fn module_dir(&self, module_id: ModuleId) -> (r: Maybe<Directory>)
        ensures
            r == self.spec_module_dir(module_id),
    ;

    spec fn spec_module_submodules_ids(&self, module_id: ModuleId) -> Maybe<Vec<SubmoduleId>>;

    /// The query `module_submodules_ids`.
    fn module_submodules_ids(&self, module_id: ModuleId) -> (r: Maybe<Vec<SubmoduleId>>)
        ensures
            r == self.spec_module_submodules_ids(module_id),
    ;

    spec fn spec_crate_modules(&self, crate_id: CrateId) -> Arc<Vec<ModuleId>>;

    /// The query `crate_modules`.
    fn crate_modules(&self, crate_id: CrateId) -> (r: Arc<Vec<ModuleId>>)
        ensures
            r == self.spec_crate_modules(crate_id),
    ;

    spec fn spec_priv_file_to_module_mapping(&self) -> OrderedHashMap<FileId, Vec<ModuleId>>;

    /// The query `priv_file_to_module_mapping`.
    fn priv_file_to_module_mapping(&self) -> (r: OrderedHashMap<FileId, Vec<ModuleId>>)
        ensures
            r == self.spec_priv_file_to_module_mapping(),
    ;

    spec fn spec_priv_module_data(&self, module_id: ModuleId) -> Maybe<ModuleData>;

    /// The query `priv_module_data`.
    fn priv_module_data(&self, module_id: ModuleId) -> (r: Maybe<ModuleData>)
        ensures
            r == self.spec_priv_module_data(module_id),
    ;
}

/// The module in which a submodule is declared.
pub open spec fn parent_module<D: DefsGroup>(db: D, id: SubmoduleId) -> ModuleId {
    db.spec_submodule_module_file(id).0
}

/// The declaration of a submodule in its parent's data, if the parent has data and
/// declares it.
pub open spec fn submodule_declaration<D: DefsGroup>(db: D, id: SubmoduleId) -> Option<ItemModuleAst> {
    match db.spec_priv_module_data(parent_module(db, id)) {
        Ok(data) => entries_get(module_item_entries(data.submodules), id),
        Err(_) => None,
    }
}

/// Whether a submodule's parent, where it has data, declares it.
pub open spec fn declared_by_parent<D: DefsGroup>(db: D, module_id: ModuleId) -> bool {
    match module_id {
        ModuleId::CrateRoot(_) => true,
        ModuleId::Submodule(id) => db.spec_priv_module_data(parent_module(db, id)) is Ok ==> submodule_declaration(db, id) is Some,
    }
}

/// The main file of a module: `lib.cairo` in a crate's root directory; for an inline
/// submodule, the file of its parent in which it stands; for another submodule, the file
/// named after it in its parent's directory.
pub open spec fn main_file_of<D: DefsGroup>(db: D, module_id: ModuleId) -> Maybe<FileId> {
    match module_id {
        ModuleId::CrateRoot(crate_id) => match db.spec_crate_root_dir(crate_id) {
            Some(dir) => Ok(db.spec_directory_file(dir, "lib.cairo"@)),
            None => Err(DiagnosticAdded),
        },
        ModuleId::Submodule(id) => match db.spec_priv_module_data(parent_module(db, id)) {
            Err(e) => Err(e),
            Ok(_) => match submodule_declaration(db, id) {
                None => Err(DiagnosticAdded),
                Some(item) => if item.body is Some {
                    db.spec_module_file(db.spec_submodule_module_file(id))
                } else {
                    match db.spec_module_dir(parent_module(db, id)) {
                        Err(e) => Err(e),
                        Ok(dir) => Ok(db.spec_directory_file(dir, db.spec_submodule_name(id) + ".cairo"@)),
                    }
                },
            },
        },
    }
}

/// Gets the main file of the module.
/// A module might have more virtual files generated by plugins.
pub fn module_main_file<D: DefsGroup>(db: &D, module_id: ModuleId) -> (r: Maybe<FileId>)
    requires
        declared_by_parent(*db, module_id),
    ensures
        r == main_file_of(*db, module_id),
{
    match module_id {
        ModuleId::CrateRoot(crate_id) => match db.crate_root_dir(crate_id) {
            Some(dir) => Ok(db.directory_file(&dir, "lib.cairo")),
            None => Err(DiagnosticAdded),
        },
        ModuleId::Submodule(submodule_id) => {
            let parent = db.submodule_module_file(submodule_id).0;
            let data = db.priv_module_data(parent)?;
            let item_module_ast = match module_items_get(&data.submodules, submodule_id) {
                Some(item) => item,
                None => return Err(DiagnosticAdded),
            };
            match &item_module_ast.body {
                Some(_) => {
                    // An inline module: its file is the one of its parent (or a virtual file
                    // generated by a plugin) where it is defined.
                    db.module_file(db.submodule_module_file(submodule_id))
                },
                None => {
                    let name = db.submodule_name(submodule_id);
                    let dir = db.module_dir(parent)?;
                    let file_name = name.concat(".cairo");
                    Ok(db.directory_file(&dir, file_name.as_str()))
                },
            }
        },
    }
}

/// The main file of an inline submodule (declared with a body) is the file of its parent in
/// which it stands: `module_file` of the submodule's own module file, that is, where the
/// database answers `module_file` as it is computed, the parent's file at the submodule's
/// file index (the parent's main file only where that index is 0).
pub proof fn lemma_inline_submodule_main_file<D: DefsGroup>(db: D, id: SubmoduleId)
    requires
        submodule_declaration(db, id) matches Some(ast) && ast.body is Some,
    ensures
        main_file_of(db, ModuleId::Submodule(id)) == db.spec_module_file(db.spec_submodule_module_file(id)),
        db.spec_module_file(db.spec_submodule_module_file(id)) == match db.spec_module_files(parent_module(db, id)) {
            Ok(files) => Ok(files@[db.spec_submodule_module_file(id).1.0 as int]),
            Err(e) => Err(e),
        } ==> main_file_of(db, ModuleId::Submodule(id)) == match db.spec_module_files(parent_module(db, id)) {
            Ok(files) => Ok(files@[db.spec_submodule_module_file(id).1.0 as int]),
            Err(e) => Err::<FileId, DiagnosticAdded>(e),
        },
{
}

/// The main file of a crate's root module is `lib.cairo` in the crate's root directory, and
/// that of a submodule declared without a body (`mod name;`) is `name.cairo` in its
/// parent's directory; without such a directory there is none.
pub proof fn lemma_file_module_main_file<D: DefsGroup>(db: D, module_id: ModuleId)
    ensures
        module_id matches ModuleId::CrateRoot(c) ==> main_file_of(db, module_id) == match db.spec_crate_root_dir(c) {
            Some(dir) => Ok(db.spec_directory_file(dir, "lib.cairo"@)),
            None => Err::<FileId, DiagnosticAdded>(DiagnosticAdded),
        },
        module_id matches ModuleId::Submodule(id) ==> (submodule_declaration(db, id) matches Some(ast) && ast.body is None
            ==> main_file_of(db, module_id) == match db.spec_module_dir(parent_module(db, id)) {
                Ok(dir) => Ok(db.spec_directory_file(dir, db.spec_submodule_name(id) + ".cairo"@)),
                Err(e) => Err::<FileId, DiagnosticAdded>(e),
            }),
{
}

/// Gets all the files of a module - main files and generated virtual files.
pub fn module_files<D: DefsGroup>(db: &D, module_id: ModuleId) -> (r: Maybe<Vec<FileId>>)
    ensures
        r == match db.spec_priv_module_data(module_id) {
            Ok(data) => Ok(data.files),
            Err(e) => Err(e),
        },
{
    Ok(db.priv_module_data(module_id)?.files)
}

/// Whether a module file's index is one of its module's files, where the module has files.
pub open spec fn file_index_in_range<D: DefsGroup>(db: D, module_file_id: ModuleFileId) -> bool {
    db.spec_module_files(module_file_id.0) matches Ok(files) ==> module_file_id.1.0 < files.len()
}

/// Gets a file from a module and a FileIndex (i.e. ModuleFileId).
pub fn module_file<D: DefsGroup>(db: &D, module_file_id: ModuleFileId) -> (r: Maybe<FileId>)
    requires
        file_index_in_range(*db, module_file_id),
    ensures
        r == match db.spec_module_files(module_file_id.0) {
            Ok(files) => Ok(files@[module_file_id.1.0 as int]),
            Err(e) => Err(e),
        },
{
    let files = db.module_files(module_file_id.0)?;
    Ok(files[module_file_id.1.0])
}

/// The directory of a module: a crate's root directory, or the subdirectory named after
/// a submodule in its parent's directory.
pub open spec fn dir_of<D: DefsGroup>(db: D, module_id: ModuleId) -> Maybe<Directory> {
    match module_id {
        ModuleId::CrateRoot(crate_id) => match db.spec_crate_root_dir(crate_id) {
            Some(dir) => Ok(dir),
            None => Err(DiagnosticAdded),
        },
        ModuleId::Submodule(id) => match db.spec_module_dir(parent_module(db, id)) {
            Ok(dir) => Ok(db.spec_subdir(dir, db.spec_submodule_name(id))),
            Err(e) => Err(e),
        },
    }
}

/// Gets the directory of a module.
pub fn module_dir<D: DefsGroup>(db: &D, module_id: ModuleId) -> (r: Maybe<Directory>)
    ensures
        r == dir_of(*db, module_id),
{
    match module_id {
        ModuleId::CrateRoot(crate_id) => match db.crate_root_dir(crate_id) {
            Some(dir) => Ok(dir),
            None => Err(DiagnosticAdded),
        },
        ModuleId::Submodule(submodule_id) => {
            let parent = db.submodule_module_file(submodule_id).0;
            let name = db.submodule_name(submodule_id);
            let dir = db.module_dir(parent)?;
            Ok(db.subdir(&dir, name.as_str()))
        },
    }
}

/// Whether the database answers `module_dir` as `module_dir` computes it, for every module.
pub open spec fn dirs_as_computed<D: DefsGroup>(db: D) -> bool {
    forall|m: ModuleId| #[trigger] db.spec_module_dir(m) == dir_of(db, m)
}

/// The crate at the end of a module's chain of parents, where the chain ends within `depth`
/// steps.
pub open spec fn crate_of<D: DefsGroup>(db: D, module_id: ModuleId, depth: nat) -> Option<CrateId>
    decreases depth,
{
    match module_id {
        ModuleId::CrateRoot(crate_id) => Some(crate_id),
        ModuleId::Submodule(id) => if depth == 0 {
            None
        } else {
            crate_of(db, parent_module(db, id), (depth - 1) as nat)
        },
    }
}

/// Where the database answers `module_dir` as it is computed, a module has a directory
/// exactly where the crate at the end of its chain of parents has a root directory.
pub proof fn lemma_module_dir_needs_crate_root<D: DefsGroup>(db: D, module_id: ModuleId, depth: nat, crate_id: CrateId)
    requires
        dirs_as_computed(db),
        crate_of(db, module_id, depth) == Some(crate_id),
    ensures
        db.spec_module_dir(module_id) is Err <==> db.spec_crate_root_dir(crate_id) is None,
    decreases depth,
{
    assert(db.spec_module_dir(module_id) == dir_of(db, module_id));
    match module_id {
        ModuleId::CrateRoot(c) => {},
        ModuleId::Submodule(id) => {
            lemma_module_dir_needs_crate_root(db, parent_module(db, id), (depth - 1) as nat, crate_id);
        },
    }
}

/// The direct submodules of a module; none where the module has no data.
pub open spec fn submodules_of<D: DefsGroup>(db: D, module_id: ModuleId) -> Seq<SubmoduleId> {
    match db.spec_module_submodules_ids(module_id) {
        Ok(ids) => ids@,
        Err(_) => seq![],
    }
}

/// Whether the tree of modules under a module is at most `height` deep.
pub open spec fn module_tree_within<D: DefsGroup>(db: D, module_id: ModuleId, height: nat) -> bool
    decreases height,
{
    &&& height > 0
    &&& forall|i: int|
        0 <= i < submodules_of(db, module_id).len() ==> module_tree_within(
            db,
            ModuleId::Submodule(#[trigger] submodules_of(db, module_id)[i]),
            (height - 1) as nat,
        )
}

/// Whether the tree of modules under a module is finite.
pub open spec fn module_tree_finite<D: DefsGroup>(db: D, module_id: ModuleId) -> bool {
    exists|height: nat| module_tree_within(db, module_id, height)
}

/// The modules under a module, in depth-first order: the module, then the modules under
/// each of its submodules, in their order (looking at most `height` levels deep).
pub open spec fn modules_under<D: DefsGroup>(db: D, module_id: ModuleId, height: nat) -> Seq<ModuleId>
    decreases height, 0nat,
{
    if height == 0 {
        seq![]
    } else {
        seq![module_id] + modules_under_each(db, submodules_of(db, module_id), (height - 1) as nat)
    }
}

/// The modules under each of a list of submodules, in their order.
pub open spec fn modules_under_each<D: DefsGroup>(db: D, ids: Seq<SubmoduleId>, height: nat) -> Seq<ModuleId>
    decreases height, ids.len() + 1,
{
    if ids.len() == 0 {
        seq![]
    } else {
        modules_under_each(db, ids.drop_last(), height) + modules_under(db, ModuleId::Submodule(ids.last()), height)
    }
}

/// Appends all the modules under the given module, including nested modules.
fn collect_modules_under<D: DefsGroup>(db: &D, modules: &mut Vec<ModuleId>, module_id: ModuleId, Ghost(height): Ghost<nat>)
    requires
        module_tree_within(*db, module_id, height),
    ensures
        final(modules)@ == old(modules)@ + modules_under(*db, module_id, height),
    decreases height,
{
    let ghost start = modules@;
    modules.push(module_id);
    let ids = match db.module_submodules_ids(module_id) {
        Ok(ids) => ids,
        Err(_) => Vec::new(),
    };
    assert(ids@ == submodules_of(*db, module_id));
    assert(forall|j: int| 0 <= j < ids@.len() ==> #[trigger] module_tree_within(*db, ModuleId::Submodule(ids@[j]), (height - 1) as nat));
    let mut i: usize = 0;
    assert(ids@.take(0) =~= Seq::<SubmoduleId>::empty());
    while i < ids.len()
        invariant
            i <= ids.len(),
            ids@ == submodules_of(*db, module_id),
            forall|j: int| 0 <= j < ids@.len() ==> #[trigger] module_tree_within(*db, ModuleId::Submodule(ids@[j]), (height - 1) as nat),
            height > 0,
            modules@ == start + seq![module_id] + modules_under_each(*db, ids@.take(i as int), (height - 1) as nat),
        decreases ids.len() - i,
    {
        collect_modules_under(db, modules, ModuleId::Submodule(ids[i]), Ghost((height - 1) as nat));
        assert(ids@.take(i + 1).drop_last() =~= ids@.take(i as int));
        i = i + 1;
    }
    assert(ids@.take(i as int) =~= ids@);
}

/// A module under one of a list of submodules is under the list.
proof fn lemma_under_each_contains<D: DefsGroup>(db: D, ids: Seq<SubmoduleId>, height: nat, j: int, m: ModuleId)
    requires
        0 <= j < ids.len(),
        modules_under(db, ModuleId::Submodule(ids[j]), height).contains(m),
    ensures
        modules_under_each(db, ids, height).contains(m),
    decreases ids.len(),
{
    let before = modules_under_each(db, ids.drop_last(), height);
    let last = modules_under(db, ModuleId::Submodule(ids.last()), height);
    if j < ids.len() - 1 {
        lemma_under_each_contains(db, ids.drop_last(), height, j, m);
        let k = choose|k: int| 0 <= k < before.len() && before[k] == m;
        assert((before + last)[k] == m);
    } else {
        let k = choose|k: int| 0 <= k < last.len() && last[k] == m;
        assert((before + last)[before.len() + k] == m);
    }
}

/// A module under a list of submodules is under one of them.
proof fn lemma_under_each_member<D: DefsGroup>(db: D, ids: Seq<SubmoduleId>, height: nat, m: ModuleId) -> (j: int)
    requires
        modules_under_each(db, ids, height).contains(m),
    ensures
        0 <= j < ids.len(),
        modules_under(db, ModuleId::Submodule(ids[j]), height).contains(m),
    decreases ids.len(),
{
    let before = modules_under_each(db, ids.drop_last(), height);
    let last = modules_under(db, ModuleId::Submodule(ids.last()), height);
    let k = choose|k: int| 0 <= k < (before + last).len() && (before + last)[k] == m;
    if k < before.len() {
        assert(before[k] == m);
        lemma_under_each_member(db, ids.drop_last(), height, m)
    } else {
        assert(last[k - before.len()] == m);
        ids.len() - 1
    }
}

/// The modules under a module start with it, and hold each direct submodule of every
/// module they hold: they are the module with all the modules nested in it.
pub proof fn lemma_modules_under_closed<D: DefsGroup>(db: D, module_id: ModuleId, height: nat, m: ModuleId, i: int)
    requires
        module_tree_within(db, module_id, height),
        modules_under(db, module_id, height).contains(m),
        0 <= i < submodules_of(db, m).len(),
    ensures
        modules_under(db, module_id, height)[0] == module_id,
        modules_under(db, module_id, height).contains(ModuleId::Submodule(submodules_of(db, m)[i])),
    decreases height,
{
    let ids = submodules_of(db, module_id);
    let rest = modules_under_each(db, ids, (height - 1) as nat);
    let all = modules_under(db, module_id, height);
    assert(all == seq![module_id] + rest);
    let k = choose|k: int| 0 <= k < all.len() && all[k] == m;
    if k == 0 {
        let child = ModuleId::Submodule(ids[i]);
        assert(module_tree_within(db, child, (height - 1) as nat));
        let under_child = modules_under(db, child, (height - 1) as nat);
        assert(under_child[0] == child);
        lemma_under_each_contains(db, ids, (height - 1) as nat, i, child);
        let r = choose|r: int| 0 <= r < rest.len() && rest[r] == child;
        assert(all[r + 1] == child);
    } else {
        assert(rest[k - 1] == m);
        let j = lemma_under_each_member(db, ids, (height - 1) as nat, m);
        let child = ModuleId::Submodule(ids[j]);
        assert(module_tree_within(db, child, (height - 1) as nat));
        lemma_modules_under_closed(db, child, (height - 1) as nat, m, i);
        let target = ModuleId::Submodule(submodules_of(db, m)[i]);
        lemma_under_each_contains(db, ids, (height - 1) as nat, j, target);
        let r = choose|r: int| 0 <= r < rest.len() && rest[r] == target;
        assert(all[r + 1] == target);
    }
}

/// A position among the modules under a list of submodules lies in the block of one of
/// them: the block of submodule `j` starts at `offset` and holds the modules under it.
proof fn lemma_under_each_block<D: DefsGroup>(db: D, ids: Seq<SubmoduleId>, height: nat, k: int) -> (r: (int, int))
    requires
        0 <= k < modules_under_each(db, ids, height).len(),
    ensures
        0 <= r.0 < ids.len(),
        0 <= r.1 <= k,
        k - r.1 < modules_under(db, ModuleId::Submodule(ids[r.0]), height).len(),
        r.1 + modules_under(db, ModuleId::Submodule(ids[r.0]), height).len() <= modules_under_each(db, ids, height).len(),
        forall|x: int| 0 <= x < modules_under(db, ModuleId::Submodule(ids[r.0]), height).len() ==>
            #[trigger] modules_under(db, ModuleId::Submodule(ids[r.0]), height)[x] == modules_under_each(db, ids, height)[r.1 + x],
    decreases ids.len(),
{
    let before = modules_under_each(db, ids.drop_last(), height);
    let last = modules_under(db, ModuleId::Submodule(ids.last()), height);
    assert(modules_under_each(db, ids, height) == before + last);
    if k < before.len() {
        let r = lemma_under_each_block(db, ids.drop_last(), height, k);
        assert(ids.drop_last()[r.0] == ids[r.0]);
        r
    } else {
        (ids.len() - 1, before.len() as int)
    }
}

/// In the modules under a module, each module comes before each of its direct submodules:
/// a parent is listed before its children.
pub proof fn lemma_modules_under_parent_first<D: DefsGroup>(db: D, module_id: ModuleId, height: nat, p: int, i: int)
    requires
        module_tree_within(db, module_id, height),
        0 <= p < modules_under(db, module_id, height).len(),
        0 <= i < submodules_of(db, modules_under(db, module_id, height)[p]).len(),
    ensures
        exists|q: int| p < q < modules_under(db, module_id, height).len()
            && #[trigger] modules_under(db, module_id, height)[q]
            == ModuleId::Submodule(submodules_of(db, modules_under(db, module_id, height)[p])[i]),
    decreases height,
{
    let ids = submodules_of(db, module_id);
    let rest = modules_under_each(db, ids, (height - 1) as nat);
    let all = modules_under(db, module_id, height);
    assert(all == seq![module_id] + rest);
    let m = all[p];
    let target = ModuleId::Submodule(submodules_of(db, m)[i]);
    if p == 0 {
        let child = ModuleId::Submodule(ids[i]);
        assert(module_tree_within(db, child, (height - 1) as nat));
        assert(modules_under(db, child, (height - 1) as nat)[0] == child);
        lemma_under_each_contains(db, ids, (height - 1) as nat, i, child);
        let r = choose|r: int| 0 <= r < rest.len() && rest[r] == child;
        assert(all[r + 1] == target);
    } else {
        let (j, offset) = lemma_under_each_block(db, ids, (height - 1) as nat, p - 1);
        let child = ModuleId::Submodule(ids[j]);
        let under_child = modules_under(db, child, (height - 1) as nat);
        assert(module_tree_within(db, child, (height - 1) as nat));
        assert(under_child[p - 1 - offset] == rest[p - 1]);
        lemma_modules_under_parent_first(db, child, (height - 1) as nat, p - 1 - offset, i);
        let q = choose|q: int| p - 1 - offset < q < under_child.len() && #[trigger] under_child[q] == target;
        assert(rest[offset + q] == under_child[q]);
        assert(all[offset + q + 1] == target);
    }
}

/// The module `n` steps up a module's chain of parents; none past a crate's root.
pub open spec fn ancestor<D: DefsGroup>(db: D, module_id: ModuleId, n: nat) -> Option<ModuleId>
    decreases n,
{
    if n == 0 {
        Some(module_id)
    } else {
        match module_id {
            ModuleId::CrateRoot(_) => None,
            ModuleId::Submodule(id) => ancestor(db, parent_module(db, id), (n - 1) as nat),
        }
    }
}

/// Whether every submodule that a module lists has that module as its parent.
pub open spec fn submodules_know_their_parent<D: DefsGroup>(db: D) -> bool {
    forall|m: ModuleId, i: int| 0 <= i < submodules_of(db, m).len() ==> parent_module(db, #[trigger] submodules_of(db, m)[i]) == m
}

/// Whether a module is not its own ancestor.
pub open spec fn not_own_ancestor<D: DefsGroup>(db: D, module_id: ModuleId) -> bool {
    forall|e: nat| e >= 1 ==> #[trigger] ancestor(db, module_id, e) != Some(module_id)
}

/// Going up `a + b` steps is going up `a` steps, then `b`.
proof fn lemma_ancestor_shift<D: DefsGroup>(db: D, x: ModuleId, a: nat, b: nat)
    ensures
        ancestor(db, x, a + b) == match ancestor(db, x, a) {
            Some(y) => ancestor(db, y, b),
            None => None,
        },
    decreases a,
{
    if a > 0 {
        match x {
            ModuleId::CrateRoot(_) => {},
            ModuleId::Submodule(id) => {
                lemma_ancestor_shift(db, parent_module(db, id), (a - 1) as nat, b);
                assert((a + b - 1) as nat == ((a - 1) as nat + b) as nat);
            },
        }
    }
}

/// One step up from a submodule is its parent.
proof fn lemma_ancestor_one<D: DefsGroup>(db: D, id: SubmoduleId)
    ensures
        ancestor(db, ModuleId::Submodule(id), 1) == Some(parent_module(db, id)),
{
    assert(ancestor(db, parent_module(db, id), 0) == Some(parent_module(db, id)));
}

/// A module under another is some number of steps below it, where the submodules know
/// their parent.
proof fn lemma_under_has_ancestor<D: DefsGroup>(db: D, z: ModuleId, height: nat, x: ModuleId) -> (d: nat)
    requires
        submodules_know_their_parent(db),
        modules_under(db, z, height).contains(x),
    ensures
        ancestor(db, x, d) == Some(z),
    decreases height,
{
    let ids = submodules_of(db, z);
    let all = modules_under(db, z, height);
    let rest = modules_under_each(db, ids, (height - 1) as nat);
    assert(all == seq![z] + rest);
    let k = choose|k: int| 0 <= k < all.len() && all[k] == x;
    if k == 0 {
        assert(all[0] == z);
        0
    } else {
        assert(rest[k - 1] == x);
        let j = lemma_under_each_member(db, ids, (height - 1) as nat, x);
        let child = ModuleId::Submodule(ids[j]);
        let d = lemma_under_has_ancestor(db, child, (height - 1) as nat, x);
        assert(parent_module(db, ids[j]) == z);
        lemma_ancestor_one(db, ids[j]);
        lemma_ancestor_shift(db, x, d, 1);
        (d + 1) as nat
    }
}

/// A module below a crate's root is not its own ancestor: its chain of parents ends at
/// the root.
proof fn lemma_below_root_not_own_ancestor<D: DefsGroup>(db: D, x: ModuleId, d: nat, root: ModuleId)
    requires
        root is CrateRoot,
        ancestor(db, x, d) == Some(root),
    ensures
        not_own_ancestor(db, x),
{
    assert forall|e: nat| e >= 1 implies #[trigger] ancestor(db, x, e) != Some(x) by {
        if ancestor(db, x, e) == Some(x) {
            lemma_cycle_never_ends(db, x, e, d + 1);
            lemma_ancestor_shift(db, x, d, 1);
        }
    }
}

/// A module that is its own ancestor has ancestors at every distance.
proof fn lemma_cycle_never_ends<D: DefsGroup>(db: D, x: ModuleId, e: nat, n: nat)
    requires
        e >= 1,
        ancestor(db, x, e) == Some(x),
    ensures
        ancestor(db, x, n) is Some,
    decreases n,
{
    if n >= e {
        lemma_cycle_never_ends(db, x, e, (n - e) as nat);
        lemma_ancestor_shift(db, x, e, (n - e) as nat);
    } else {
        lemma_ancestor_shift(db, x, n, (e - n) as nat);
    }
}

/// Where submodules know their parent, each module lists its submodules once, and no
/// module under a list of submodules of a module is its own ancestor, the modules under
/// the list have no duplicates.
proof fn lemma_under_each_distinct<D: DefsGroup>(db: D, z: ModuleId, ids: Seq<SubmoduleId>, height: nat)
    requires
        submodules_know_their_parent(db),
        forall|m: ModuleId| #[trigger] submodules_of(db, m).no_duplicates(),
        ids.no_duplicates(),
        forall|j: int| 0 <= j < ids.len() ==> parent_module(db, #[trigger] ids[j]) == z,
        not_own_ancestor(db, z),
        forall|x: ModuleId| modules_under_each(db, ids, height).contains(x) ==> #[trigger] not_own_ancestor(db, x),
    ensures
        modules_under_each(db, ids, height).no_duplicates(),
    decreases height, ids.len() + 1,
{
    if ids.len() > 0 {
        let init = ids.drop_last();
        let last = ids.last();
        let before = modules_under_each(db, init, height);
        let block = modules_under(db, ModuleId::Submodule(last), height);
        let all = before + block;
        assert(modules_under_each(db, ids, height) == all);
        assert forall|x: ModuleId| before.contains(x) implies #[trigger] not_own_ancestor(db, x) by {
            let i = choose|i: int| 0 <= i < before.len() && before[i] == x;
            assert(all[i] == x);
        }
        assert forall|x: ModuleId| block.contains(x) implies #[trigger] not_own_ancestor(db, x) by {
            let i = choose|i: int| 0 <= i < block.len() && block[i] == x;
            assert(all[before.len() + i] == x);
        }
        assert(init.no_duplicates()) by {
            assert forall|a: int, b: int| 0 <= a < init.len() && 0 <= b < init.len() && a != b implies init[a] != init[b] by {
                assert(init[a] == ids[a] && init[b] == ids[b]);
            }
        }
        assert forall|j: int| 0 <= j < init.len() implies parent_module(db, #[trigger] init[j]) == z by {
            assert(init[j] == ids[j]);
        }
        lemma_under_each_distinct(db, z, init, height);
        lemma_under_distinct(db, ModuleId::Submodule(last), height);
        assert forall|a: int, b: int| 0 <= a < all.len() && 0 <= b < all.len() && a != b implies all[a] != all[b] by {
            if a < before.len() && b >= before.len() {
                lemma_blocks_disjoint(db, z, ids, height, before[a], block[b - before.len()]);
            } else if b < before.len() && a >= before.len() {
                lemma_blocks_disjoint(db, z, ids, height, before[b], block[a - before.len()]);
            } else if a < before.len() {
                assert(all[a] == before[a] && all[b] == before[b]);
            } else {
                assert(all[a] == block[a - before.len()] && all[b] == block[b - before.len()]);
            }
        }
    }
}

/// A module under an earlier submodule of a list is not under its last one.
proof fn lemma_blocks_disjoint<D: DefsGroup>(db: D, z: ModuleId, ids: Seq<SubmoduleId>, height: nat, x: ModuleId, y: ModuleId)
    requires
        submodules_know_their_parent(db),
        ids.len() > 0,
        ids.no_duplicates(),
        forall|j: int| 0 <= j < ids.len() ==> parent_module(db, #[trigger] ids[j]) == z,
        not_own_ancestor(db, z),
        modules_under_each(db, ids.drop_last(), height).contains(x),
        modules_under(db, ModuleId::Submodule(ids.last()), height).contains(y),
    ensures
        x != y,
{
    if x == y {
        let init = ids.drop_last();
        let j = lemma_under_each_member(db, init, height, x);
        assert(init[j] == ids[j]);
        let sj = ModuleId::Submodule(ids[j]);
        let sl = ModuleId::Submodule(ids.last());
        let d1 = lemma_under_has_ancestor(db, sj, height, x);
        let d2 = lemma_under_has_ancestor(db, sl, height, x);
        assert(parent_module(db, ids[j]) == z);
        assert(parent_module(db, ids[ids.len() - 1]) == z);
        lemma_ancestor_one(db, ids[j]);
        lemma_ancestor_one(db, ids.last());
        assert(ancestor(db, sj, 1) == Some(z));
        assert(ancestor(db, sl, 1) == Some(z));
        if d1 == d2 {
            assert(ids[j] == ids[ids.len() - 1]);
        } else if d1 < d2 {
            let e = (d2 - d1) as nat;
            lemma_ancestor_shift(db, x, d1, e);
            assert(ancestor(db, sj, e) == Some(sl));
            lemma_ancestor_shift(db, sj, 1, (e - 1) as nat);
            assert(ancestor(db, z, (e - 1) as nat) == Some(sl));
            lemma_ancestor_shift(db, z, (e - 1) as nat, 1);
            assert(ancestor(db, z, e) == Some(z));
        } else {
            let e = (d1 - d2) as nat;
            lemma_ancestor_shift(db, x, d2, e);
            assert(ancestor(db, sl, e) == Some(sj));
            lemma_ancestor_shift(db, sl, 1, (e - 1) as nat);
            assert(ancestor(db, z, (e - 1) as nat) == Some(sj));
            lemma_ancestor_shift(db, z, (e - 1) as nat, 1);
            assert(ancestor(db, z, e) == Some(z));
        }
    }
}

/// Where submodules know their parent, each module lists its submodules once, and no
/// module under a module is its own ancestor, the modules under it have no duplicates.
proof fn lemma_under_distinct<D: DefsGroup>(db: D, z: ModuleId, height: nat)
    requires
        submodules_know_their_parent(db),
        forall|m: ModuleId| #[trigger] submodules_of(db, m).no_duplicates(),
        forall|x: ModuleId| modules_under(db, z, height).contains(x) ==> #[trigger] not_own_ancestor(db, x),
    ensures
        modules_under(db, z, height).no_duplicates(),
    decreases height, 0nat,
{
    if height > 0 {
        let ids = submodules_of(db, z);
        let rest = modules_under_each(db, ids, (height - 1) as nat);
        let all = modules_under(db, z, height);
        assert(all == seq![z] + rest);
        assert(all[0] == z);
        assert(not_own_ancestor(db, z));
        assert forall|x: ModuleId| rest.contains(x) implies #[trigger] not_own_ancestor(db, x) by {
            let i = choose|i: int| 0 <= i < rest.len() && rest[i] == x;
            assert(all[i + 1] == x);
        }
        assert forall|j: int| 0 <= j < ids.len() implies parent_module(db, #[trigger] ids[j]) == z by {
            assert(parent_module(db, submodules_of(db, z)[j]) == z);
        }
        lemma_under_each_distinct(db, z, ids, (height - 1) as nat);
        if rest.contains(z) {
            let j = lemma_under_each_member(db, ids, (height - 1) as nat, z);
            let d = lemma_under_has_ancestor(db, ModuleId::Submodule(ids[j]), (height - 1) as nat, z);
            lemma_ancestor_shift(db, z, d, 1);
            lemma_ancestor_one(db, ids[j]);
            assert(ancestor(db, ModuleId::Submodule(ids[j]), 1) == Some(z));
            assert(ancestor(db, z, d + 1) == Some(z));
        }
        assert forall|a: int, b: int| 0 <= a < all.len() && 0 <= b < all.len() && a != b implies all[a] != all[b] by {
            if a == 0 {
                assert(rest[b - 1] == all[b]);
            } else if b == 0 {
                assert(rest[a - 1] == all[a]);
            } else {
                assert(rest[a - 1] == all[a] && rest[b - 1] == all[b]);
            }
        }
    }
}

/// Where every submodule that a module lists has that module as its parent (as the
/// database's interning gives, see `lemma_submodules_look_up_to_their_module`) and each
/// module lists its submodules once, the modules of a crate have no duplicates.
pub proof fn lemma_crate_modules_distinct<D: DefsGroup>(db: D, crate_id: CrateId, height: nat)
    requires
        submodules_know_their_parent(db),
        forall|m: ModuleId| #[trigger] submodules_of(db, m).no_duplicates(),
    ensures
        modules_under(db, ModuleId::CrateRoot(crate_id), height).no_duplicates(),
{
    let root = ModuleId::CrateRoot(crate_id);
    assert forall|x: ModuleId| modules_under(db, root, height).contains(x) implies #[trigger] not_own_ancestor(db, x) by {
        let d = lemma_under_has_ancestor(db, root, height, x);
        lemma_below_root_not_own_ancestor(db, x, d, root);
    }
    lemma_under_distinct(db, root, height);
}

/// How deep the tree of modules under a crate's root is (where it is finite).
pub open spec fn crate_tree_height<D: DefsGroup>(db: D, crate_id: CrateId) -> nat {
    choose|height: nat| module_tree_within(db, ModuleId::CrateRoot(crate_id), height)
}

/// Returns all the modules in the crate, including recursively.
pub fn crate_modules<D: DefsGroup>(db: &D, crate_id: CrateId) -> (r: Arc<Vec<ModuleId>>)
    requires
        module_tree_finite(*db, ModuleId::CrateRoot(crate_id)),
    ensures
        r@ == modules_under(*db, ModuleId::CrateRoot(crate_id), crate_tree_height(*db, crate_id)),
{
    let mut modules: Vec<ModuleId> = Vec::new();
    collect_modules_under(db, &mut modules, ModuleId::CrateRoot(crate_id), Ghost(crate_tree_height(*db, crate_id)));
    assert(modules@ =~= modules_under(*db, ModuleId::CrateRoot(crate_id), crate_tree_height(*db, crate_id)));
    Arc::new(modules)
}

/// The files of a module paired with it; none where the module has no files.
pub open spec fn module_file_pairs<D: DefsGroup>(db: D, module_id: ModuleId) -> Seq<(FileId, ModuleId)> {
    match db.spec_module_files(module_id) {
        Ok(files) => files@.map_values(|f: FileId| (f, module_id)),
        Err(_) => seq![],
    }
}

/// The files of each of a list of modules, paired with it, in their order.
pub open spec fn modules_file_pairs<D: DefsGroup>(db: D, modules: Seq<ModuleId>) -> Seq<(FileId, ModuleId)>
    decreases modules.len(),
{
    if modules.len() == 0 {
        seq![]
    } else {
        modules_file_pairs(db, modules.drop_last()) + module_file_pairs(db, modules.last())
    }
}

/// The files of the modules of each of a list of crates, paired with their module.
pub open spec fn crates_file_pairs<D: DefsGroup>(db: D, crates: Seq<CrateId>) -> Seq<(FileId, ModuleId)>
    decreases crates.len(),
{
    if crates.len() == 0 {
        seq![]
    } else {
        crates_file_pairs(db, crates.drop_last()) + modules_file_pairs(db, db.spec_crate_modules(crates.last())@)
    }
}

/// Adds a module to the modules of a file, creating the file's entry where it is new.
pub open spec fn add_file_module(
    mapping: Seq<(FileId, Seq<ModuleId>)>,
    file: FileId,
    module_id: ModuleId,
) -> Seq<(FileId, Seq<ModuleId>)> {
    match entries_get(mapping, file) {
        Some(modules) => entries_insert(mapping, file, modules.push(module_id)),
        None => entries_insert(mapping, file, seq![module_id]),
    }
}

/// The modules of each file, for a list of (file, module) pairs: the files in the order
/// they first appear, each with its modules in their order.
pub open spec fn file_module_mapping(pairs: Seq<(FileId, ModuleId)>) -> Seq<(FileId, Seq<ModuleId>)>
    decreases pairs.len(),
{
    if pairs.len() == 0 {
        seq![]
    } else {
        add_file_module(file_module_mapping(pairs.drop_last()), pairs.last().0, pairs.last().1)
    }
}

/// The modules paired with a file, in their order.
pub open spec fn modules_of_file(pairs: Seq<(FileId, ModuleId)>, file: FileId) -> Seq<ModuleId>
    decreases pairs.len(),
{
    if pairs.len() == 0 {
        seq![]
    } else {
        let before = modules_of_file(pairs.drop_last(), file);
        if pairs.last().0 == file {
            before.push(pairs.last().1)
        } else {
            before
        }
    }
}

/// The modules of each file are exactly the modules it is a file of, in their order: a
/// file has an entry if and only if it is a file of some module, and then the entry holds
/// each module it is a file of, as often and in the order that the pairs list it.
pub proof fn lemma_file_module_mapping_inverse(pairs: Seq<(FileId, ModuleId)>, file: FileId)
    ensures
        entries_get(file_module_mapping(pairs), file) == if modules_of_file(pairs, file).len() > 0 {
            Some(modules_of_file(pairs, file))
        } else {
            None::<Seq<ModuleId>>
        },
    decreases pairs.len(),
{
    if pairs.len() > 0 {
        let before = file_module_mapping(pairs.drop_last());
        let (f, m) = pairs.last();
        lemma_file_module_mapping_inverse(pairs.drop_last(), file);
        lemma_file_module_mapping_inverse(pairs.drop_last(), f);
        match entries_get(before, f) {
            Some(ms) => lemma_entries_get_insert(before, f, ms.push(m), file),
            None => lemma_entries_get_insert(before, f, seq![m], file),
        }
        if f == file {
            if modules_of_file(pairs.drop_last(), file).len() == 0 {
                assert(seq![m] =~= Seq::<ModuleId>::empty().push(m));
            }
        }
    }
}

/// Where the database answers `priv_file_to_module_mapping` as it is computed, `file_modules`
/// of a file answers the modules it is a file of, in their order, and fails where there are
/// none.
pub proof fn lemma_file_modules_are_its_modules<D: DefsGroup>(db: D, file: FileId)
    requires
        file_modules_view(db.spec_priv_file_to_module_mapping()) == file_module_mapping(crates_file_pairs(db, db.spec_crates())),
    ensures
        entries_get(file_modules_view(db.spec_priv_file_to_module_mapping()), file) == if modules_of_file(
            crates_file_pairs(db, db.spec_crates()),
            file,
        ).len() > 0 {
            Some(modules_of_file(crates_file_pairs(db, db.spec_crates()), file))
        } else {
            None::<Seq<ModuleId>>
        },
{
    lemma_file_module_mapping_inverse(crates_file_pairs(db, db.spec_crates()), file);
}

/// Whether a file is one of a module's files.
pub open spec fn module_has_file<D: DefsGroup>(db: D, module_id: ModuleId, file: FileId) -> bool {
    db.spec_module_files(module_id) matches Ok(files) && files@.contains(file)
}

/// Whether a module is one of the modules of one of the crates.
pub open spec fn in_some_crate<D: DefsGroup>(db: D, module_id: ModuleId) -> bool {
    exists|c: CrateId| db.spec_crates().contains(c) && #[trigger] db.spec_crate_modules(c)@.contains(module_id)
}

proof fn lemma_module_file_pairs_contains<D: DefsGroup>(db: D, m: ModuleId, f: FileId, x: ModuleId)
    ensures
        module_file_pairs(db, m).contains((f, x)) <==> (x == m && module_has_file(db, m, f)),
{
    match db.spec_module_files(m) {
        Ok(files) => {
            let pairs = files@.map_values(|g: FileId| (g, m));
            if pairs.contains((f, x)) {
                let i = choose|i: int| 0 <= i < pairs.len() && pairs[i] == (f, x);
                assert(files@[i] == f);
            }
            if x == m && files@.contains(f) {
                let i = choose|i: int| 0 <= i < files@.len() && files@[i] == f;
                assert(pairs[i] == (f, x));
            }
        },
        Err(_) => {},
    }
}

proof fn lemma_modules_file_pairs_contains<D: DefsGroup>(db: D, modules: Seq<ModuleId>, f: FileId, m: ModuleId)
    ensures
        modules_file_pairs(db, modules).contains((f, m)) <==> (modules.contains(m) && module_has_file(db, m, f)),
    decreases modules.len(),
{
    if modules.len() > 0 {
        let init = modules.drop_last();
        let last = modules.last();
        lemma_modules_file_pairs_contains(db, init, f, m);
        lemma_module_file_pairs_contains(db, last, f, m);
        let a = modules_file_pairs(db, init);
        let b = module_file_pairs(db, last);
        if (a + b).contains((f, m)) {
            let i = choose|i: int| 0 <= i < (a + b).len() && (a + b)[i] == (f, m);
            if i < a.len() {
                assert(a[i] == (f, m));
                let j = choose|j: int| 0 <= j < init.len() && init[j] == m;
                assert(modules[j] == m);
            } else {
                assert(b[i - a.len()] == (f, m));
                assert(modules[modules.len() - 1] == m);
            }
        }
        if modules.contains(m) && module_has_file(db, m, f) {
            let j = choose|j: int| 0 <= j < modules.len() && modules[j] == m;
            if j < modules.len() - 1 {
                assert(init[j] == m);
                let i = choose|i: int| 0 <= i < a.len() && a[i] == (f, m);
                assert((a + b)[i] == (f, m));
            } else {
                let i = choose|i: int| 0 <= i < b.len() && b[i] == (f, m);
                assert((a + b)[a.len() + i] == (f, m));
            }
        }
    }
}

proof fn lemma_crates_file_pairs_contains<D: DefsGroup>(db: D, crates: Seq<CrateId>, f: FileId, m: ModuleId)
    ensures
        crates_file_pairs(db, crates).contains((f, m)) <==> (
            (exists|c: CrateId| crates.contains(c) && #[trigger] db.spec_crate_modules(c)@.contains(m))
            && module_has_file(db, m, f)),
    decreases crates.len(),
{
    if crates.len() > 0 {
        let init = crates.drop_last();
        let last = crates.last();
        lemma_crates_file_pairs_contains(db, init, f, m);
        lemma_modules_file_pairs_contains(db, db.spec_crate_modules(last)@, f, m);
        let a = crates_file_pairs(db, init);
        let b = modules_file_pairs(db, db.spec_crate_modules(last)@);
        if (a + b).contains((f, m)) {
            let i = choose|i: int| 0 <= i < (a + b).len() && (a + b)[i] == (f, m);
            if i < a.len() {
                assert(a[i] == (f, m));
                let c = choose|c: CrateId| init.contains(c) && #[trigger] db.spec_crate_modules(c)@.contains(m);
                let j = choose|j: int| 0 <= j < init.len() && init[j] == c;
                assert(crates[j] == c);
            } else {
                assert(b[i - a.len()] == (f, m));
                assert(crates[crates.len() - 1] == last);
                assert(crates.contains(last));
            }
        }
        if (exists|c: CrateId| crates.contains(c) && #[trigger] db.spec_crate_modules(c)@.contains(m))
            && module_has_file(db, m, f) {
            let c = choose|c: CrateId| crates.contains(c) && #[trigger] db.spec_crate_modules(c)@.contains(m);
            let j = choose|j: int| 0 <= j < crates.len() && crates[j] == c;
            if j < crates.len() - 1 {
                assert(init[j] == c);
                assert(init.contains(c));
                let i = choose|i: int| 0 <= i < a.len() && a[i] == (f, m);
                assert((a + b)[i] == (f, m));
            } else {
                let i = choose|i: int| 0 <= i < b.len() && b[i] == (f, m);
                assert((a + b)[a.len() + i] == (f, m));
            }
        }
    }
}

proof fn lemma_modules_of_file_contains(pairs: Seq<(FileId, ModuleId)>, f: FileId, m: ModuleId)
    ensures
        modules_of_file(pairs, f).contains(m) <==> pairs.contains((f, m)),
    decreases pairs.len(),
{
    if pairs.len() > 0 {
        let init = pairs.drop_last();
        lemma_modules_of_file_contains(init, f, m);
        let before = modules_of_file(init, f);
        if pairs.contains((f, m)) {
            let i = choose|i: int| 0 <= i < pairs.len() && pairs[i] == (f, m);
            if i < pairs.len() - 1 {
                assert(init[i] == (f, m));
                if pairs.last().0 == f {
                    let j = choose|j: int| 0 <= j < before.len() && before[j] == m;
                    assert(before.push(pairs.last().1)[j] == m);
                }
            } else {
                assert(before.push(pairs.last().1)[before.len() as int] == m);
            }
        }
        if modules_of_file(pairs, f).contains(m) {
            if pairs.last().0 == f {
                let j = choose|j: int| 0 <= j < before.len() + 1 && before.push(pairs.last().1)[j] == m;
                if j < before.len() {
                    assert(before[j] == m);
                    let i = choose|i: int| 0 <= i < init.len() && init[i] == (f, m);
                    assert(pairs[i] == (f, m));
                } else {
                    assert(pairs[pairs.len() - 1] == (f, m));
                }
            } else {
                let i = choose|i: int| 0 <= i < init.len() && init[i] == (f, m);
                assert(pairs[i] == (f, m));
            }
        }
    }
}

/// The modules that the mapping of files to modules gives a file are exactly the modules
/// of the crates that have that file among their files: a file has an entry holding a
/// module exactly where the module belongs to one of the crates and the file is one of
/// its files.
pub proof fn lemma_file_modules_are_crate_modules_of_file<D: DefsGroup>(db: D, file: FileId, module_id: ModuleId)
    ensures
        (entries_get(file_module_mapping(crates_file_pairs(db, db.spec_crates())), file) matches Some(modules)
            && modules.contains(module_id)) <==> (in_some_crate(db, module_id) && module_has_file(db, module_id, file)),
{
    let pairs = crates_file_pairs(db, db.spec_crates());
    lemma_file_module_mapping_inverse(pairs, file);
    lemma_modules_of_file_contains(pairs, file, module_id);
    lemma_crates_file_pairs_contains(db, db.spec_crates(), file, module_id);
}

proof fn lemma_modules_of_file_distinct(pairs: Seq<(FileId, ModuleId)>, f: FileId)
    requires
        pairs.no_duplicates(),
    ensures
        modules_of_file(pairs, f).no_duplicates(),
    decreases pairs.len(),
{
    if pairs.len() > 0 {
        let init = pairs.drop_last();
        assert(init.no_duplicates()) by {
            assert forall|a: int, b: int| 0 <= a < init.len() && 0 <= b < init.len() && a != b implies init[a] != init[b] by {
                assert(init[a] == pairs[a] && init[b] == pairs[b]);
            }
        }
        lemma_modules_of_file_distinct(init, f);
        let before = modules_of_file(init, f);
        let (g, m) = pairs.last();
        if g == f {
            lemma_modules_of_file_contains(init, f, m);
            if init.contains((f, m)) {
                let i = choose|i: int| 0 <= i < init.len() && init[i] == (f, m);
                assert(pairs[i] == pairs[pairs.len() - 1]);
            }
            let after = before.push(m);
            assert forall|a: int, b: int| 0 <= a < after.len() && 0 <= b < after.len() && a != b implies after[a] != after[b] by {
                if a == before.len() {
                    assert(!before.contains(m));
                    assert(before[b] == after[b]);
                } else if b == before.len() {
                    assert(!before.contains(m));
                    assert(before[a] == after[a]);
                } else {
                    assert(before[a] == after[a] && before[b] == after[b]);
                }
            }
        }
    }
}

proof fn lemma_concat_distinct<A>(a: Seq<A>, b: Seq<A>)
    requires
        a.no_duplicates(),
        b.no_duplicates(),
        forall|x: A| a.contains(x) ==> !b.contains(x),
    ensures
        (a + b).no_duplicates(),
{
    assert forall|i: int, j: int| 0 <= i < (a + b).len() && 0 <= j < (a + b).len() && i != j implies (a + b)[i] != (a + b)[j] by {
        if i < a.len() && j < a.len() {
            assert((a + b)[i] == a[i] && (a + b)[j] == a[j]);
        } else if i >= a.len() && j >= a.len() {
            assert((a + b)[i] == b[i - a.len()] && (a + b)[j] == b[j - a.len()]);
        } else if i < a.len() {
            assert((a + b)[i] == a[i] && (a + b)[j] == b[j - a.len()]);
            assert(a.contains(a[i]));
        } else {
            assert((a + b)[j] == a[j] && (a + b)[i] == b[i - a.len()]);
            assert(a.contains(a[j]));
        }
    }
}

proof fn lemma_modules_file_pairs_distinct<D: DefsGroup>(db: D, modules: Seq<ModuleId>)
    requires
        modules.no_duplicates(),
        forall|m: ModuleId| #[trigger] db.spec_module_files(m) matches Ok(files) ==> files@.no_duplicates(),
    ensures
        modules_file_pairs(db, modules).no_duplicates(),
    decreases modules.len(),
{
    if modules.len() > 0 {
        let init = modules.drop_last();
        let last = modules.last();
        assert(init.no_duplicates()) by {
            assert forall|a: int, b: int| 0 <= a < init.len() && 0 <= b < init.len() && a != b implies init[a] != init[b] by {
                assert(init[a] == modules[a] && init[b] == modules[b]);
            }
        }
        lemma_modules_file_pairs_distinct(db, init);
        let a = modules_file_pairs(db, init);
        let b = module_file_pairs(db, last);
        match db.spec_module_files(last) {
            Ok(files) => {
                assert(files@.no_duplicates());
                assert forall|i: int, j: int| 0 <= i < b.len() && 0 <= j < b.len() && i != j implies b[i] != b[j] by {
                    assert(b[i] == (files@[i], last) && b[j] == (files@[j], last));
                }
            },
            Err(_) => {},
        }
        assert forall|x: (FileId, ModuleId)| a.contains(x) implies !b.contains(x) by {
            lemma_modules_file_pairs_contains(db, init, x.0, x.1);
            lemma_module_file_pairs_contains(db, last, x.0, x.1);
            if b.contains(x) {
                let j = choose|j: int| 0 <= j < init.len() && init[j] == last;
                assert(modules[j] == modules[modules.len() - 1]);
            }
        }
        lemma_concat_distinct(a, b);
    }
}

proof fn lemma_crates_file_pairs_distinct<D: DefsGroup>(db: D, crates: Seq<CrateId>)
    requires
        crates.no_duplicates(),
        forall|c: CrateId| #[trigger] db.spec_crate_modules(c)@.no_duplicates(),
        forall|c: CrateId, d: CrateId, m: ModuleId| c != d && #[trigger] db.spec_crate_modules(c)@.contains(m)
            ==> !#[trigger] db.spec_crate_modules(d)@.contains(m),
        forall|m: ModuleId| #[trigger] db.spec_module_files(m) matches Ok(files) ==> files@.no_duplicates(),
    ensures
        crates_file_pairs(db, crates).no_duplicates(),
    decreases crates.len(),
{
    if crates.len() > 0 {
        let init = crates.drop_last();
        let last = crates.last();
        assert(init.no_duplicates()) by {
            assert forall|a: int, b: int| 0 <= a < init.len() && 0 <= b < init.len() && a != b implies init[a] != init[b] by {
                assert(init[a] == crates[a] && init[b] == crates[b]);
            }
        }
        lemma_crates_file_pairs_distinct(db, init);
        lemma_modules_file_pairs_distinct(db, db.spec_crate_modules(last)@);
        let a = crates_file_pairs(db, init);
        let b = modules_file_pairs(db, db.spec_crate_modules(last)@);
        assert forall|x: (FileId, ModuleId)| a.contains(x) implies !b.contains(x) by {
            lemma_crates_file_pairs_contains(db, init, x.0, x.1);
            lemma_modules_file_pairs_contains(db, db.spec_crate_modules(last)@, x.0, x.1);
            if b.contains(x) {
                let c = choose|c: CrateId| init.contains(c) && #[trigger] db.spec_crate_modules(c)@.contains(x.1);
                let j = choose|j: int| 0 <= j < init.len() && init[j] == c;
                assert(crates[j] == c);
                assert(c != last);
            }
        }
        lemma_concat_distinct(a, b);
    }
}

/// Where each crate is listed once, each lists its modules once, no module belongs to two
/// crates and each module lists its files once, the modules that the mapping of files to
/// modules gives a file are listed once each.
pub proof fn lemma_file_modules_listed_once<D: DefsGroup>(db: D, file: FileId)
    requires
        db.spec_crates().no_duplicates(),
        forall|c: CrateId| #[trigger] db.spec_crate_modules(c)@.no_duplicates(),
        forall|c: CrateId, d: CrateId, m: ModuleId| c != d && #[trigger] db.spec_crate_modules(c)@.contains(m)
            ==> !#[trigger] db.spec_crate_modules(d)@.contains(m),
        forall|m: ModuleId| #[trigger] db.spec_module_files(m) matches Ok(files) ==> files@.no_duplicates(),
    ensures
        entries_get(file_module_mapping(crates_file_pairs(db, db.spec_crates())), file) matches Some(modules)
            ==> modules.no_duplicates(),
{
    let pairs = crates_file_pairs(db, db.spec_crates());
    lemma_file_module_mapping_inverse(pairs, file);
    lemma_crates_file_pairs_distinct(db, db.spec_crates());
    lemma_modules_of_file_distinct(pairs, file);
}

/// The view of a list of modules.
pub open spec fn modules_view() -> spec_fn(Vec<ModuleId>) -> Seq<ModuleId> {
    |v: Vec<ModuleId>| v@
}

/// The view of a map of modules by file.
pub open spec fn file_modules_view(m: OrderedHashMap<FileId, Vec<ModuleId>>) -> Seq<(FileId, Seq<ModuleId>)> {
    entries_map(file_modules_entries(m), modules_view())
}

/// Adds a module to the modules of a file in a map of modules by file.
fn add_module_of_file(mapping: &mut OrderedHashMap<FileId, Vec<ModuleId>>, file_id: FileId, module_id: ModuleId)
    ensures
        file_modules_view(*final(mapping)) == add_file_module(file_modules_view(*old(mapping)), file_id, module_id),
{
    let ghost f = modules_view();
    proof {
        lemma_entries_get_map(file_modules_entries(*mapping), file_id, f);
    }
    match file_modules_get(mapping, file_id) {
        Some(file_modules) => {
            let mut modules = file_modules.clone();
            assert(modules@ == file_modules@);
            modules.push(module_id);
            proof {
                lemma_entries_insert_map(file_modules_entries(*mapping), file_id, modules, f);
            }
            file_modules_insert(mapping, file_id, modules);
        },
        None => {
            let mut modules: Vec<ModuleId> = Vec::new();
            modules.push(module_id);
            proof {
                lemma_entries_insert_map(file_modules_entries(*mapping), file_id, modules, f);
                assert(modules@ =~= seq![module_id]);
            }
            file_modules_insert(mapping, file_id, modules);
        },
    }
}

/// The modules of each file: every file of every module of every crate, in the order they
/// first appear, each with the modules it belongs to in their order.
pub fn priv_file_to_module_mapping<D: DefsGroup>(db: &D) -> (r: OrderedHashMap<FileId, Vec<ModuleId>>)
    ensures
        file_modules_view(r) == file_module_mapping(crates_file_pairs(*db, db.spec_crates())),
{
    let mut mapping = file_modules_new();
    let crates = db.crates();
    let mut ci: usize = 0;
    assert(file_modules_view(mapping) =~= file_module_mapping(crates_file_pairs(*db, crates@.take(0))));
    while ci < crates.len()
        invariant
            ci <= crates.len(),
            crates@ == db.spec_crates(),
            file_modules_view(mapping) == file_module_mapping(crates_file_pairs(*db, crates@.take(ci as int))),
        decreases crates.len() - ci,
    {
        let crate_id = crates[ci];
        let modules = db.crate_modules(crate_id);
        let ghost before = crates_file_pairs(*db, crates@.take(ci as int));
        let mut mi: usize = 0;
        assert(modules_file_pairs(*db, modules@.take(0)) =~= Seq::<(FileId, ModuleId)>::empty());
        assert(before + modules_file_pairs(*db, modules@.take(0)) =~= before);
        while mi < modules.len()
            invariant
                mi <= modules.len(),
                modules == db.spec_crate_modules(crate_id),
                file_modules_view(mapping) == file_module_mapping(before + modules_file_pairs(*db, modules@.take(mi as int))),
            decreases modules.len() - mi,
        {
            let module_id = modules[mi];
            let ghost prefix = before + modules_file_pairs(*db, modules@.take(mi as int));
            match db.module_files(module_id) {
                Ok(files) => {
                    let mut fi: usize = 0;
                    assert(prefix + files@.take(0).map_values(|f: FileId| (f, module_id)) =~= prefix);
                    while fi < files.len()
                        invariant
                            fi <= files.len(),
                            file_modules_view(mapping) == file_module_mapping(
                                prefix + files@.take(fi as int).map_values(|f: FileId| (f, module_id)),
                            ),
                        decreases files.len() - fi,
                    {
                        let file_id = files[fi];
                        add_module_of_file(&mut mapping, file_id, module_id);
                        let ghost next = prefix + files@.take(fi + 1).map_values(|f: FileId| (f, module_id));
                        assert(next.drop_last() =~= prefix + files@.take(fi as int).map_values(|f: FileId| (f, module_id)));
                        assert(next.last() == (file_id, module_id));
                        fi = fi + 1;
                    }
                    assert(files@.take(fi as int) =~= files@);
                    assert(module_file_pairs(*db, module_id) == files@.map_values(|f: FileId| (f, module_id)));
                },
                Err(_) => {
                    assert(module_file_pairs(*db, module_id) =~= Seq::<(FileId, ModuleId)>::empty());
                    assert(prefix + module_file_pairs(*db, module_id) =~= prefix);
                },
            }
            assert(modules@.take(mi + 1).drop_last() =~= modules@.take(mi as int));
            assert(before + modules_file_pairs(*db, modules@.take(mi + 1)) =~= prefix + module_file_pairs(*db, module_id));
            mi = mi + 1;
        }
        assert(modules@.take(mi as int) =~= modules@);
        assert(crates@.take(ci + 1).drop_last() =~= crates@.take(ci as int));
        ci = ci + 1;
    }
    assert(crates@.take(ci as int) =~= crates@);
    mapping
}

/// Gets the modules a file belongs to, if it belongs to any.
pub fn file_modules<D: DefsGroup>(db: &D, file_id: FileId) -> (r: Maybe<Vec<ModuleId>>)
    ensures
        match r {
            Ok(modules) => entries_get(file_modules_view(db.spec_priv_file_to_module_mapping()), file_id) == Some(modules@),
            Err(_) => entries_get(file_modules_view(db.spec_priv_file_to_module_mapping()), file_id) is None,
        },
{
    let mapping = db.priv_file_to_module_mapping();
    proof {
        lemma_entries_get_map(file_modules_entries(mapping), file_id, modules_view());
    }
    match file_modules_get(&mapping, file_id) {
        Some(modules) => {
            let r = modules.clone();
            assert(r@ == modules@);
            Ok(r)
        },
        None => Err(DiagnosticAdded),
    }
}

/// Returns all the *direct* submodules (including those generated by macro plugins) of the given module.
pub fn module_submodules<D: DefsGroup>(db: &D, module_id: ModuleId) -> (r: Maybe<OrderedHashMap<SubmoduleId, ItemModuleAst>>)
    ensures
        r == match db.spec_priv_module_data(module_id) {
            Ok(data) => Ok(data.submodules),
            Err(e) => Err(e),
        },
{
    Ok(db.priv_module_data(module_id)?.submodules)
}

/// Returns the identifiers of all the *direct* submodules (including those generated by macro plugins) of the given module, in their order.
pub fn module_submodules_ids<D: DefsGroup>(db: &D, module_id: ModuleId) -> (r: Maybe<Vec<SubmoduleId>>)
    ensures
        match r {
            Ok(ids) => db.spec_priv_module_data(module_id) matches Ok(data) && ids@ == entries_keys(module_item_entries(data.submodules)),
            Err(_) => db.spec_priv_module_data(module_id) is Err,
        },
{
    let items = module_submodules(db, module_id)?;
    Ok(module_items_keys(&items))
}

/// Returns all the constant definitions of the given module.
pub fn module_constants<D: DefsGroup>(db: &D, module_id: ModuleId) -> (r: Maybe<OrderedHashMap<ConstantId, NamedItemAst>>)
    ensures
        r == match db.spec_priv_module_data(module_id) {
            Ok(data) => Ok(data.constants),
            Err(e) => Err(e),
        },
{
    Ok(db.priv_module_data(module_id)?.constants)
}

/// Returns the identifiers of all the constant definitions of the given module, in their order.
pub fn module_constants_ids<D: DefsGroup>(db: &D, module_id: ModuleId) -> (r: Maybe<Vec<ConstantId>>)
    ensures
        match r {
            Ok(ids) => db.spec_priv_module_data(module_id) matches Ok(data) && ids@ == entries_keys(named_item_entries(data.constants)),
            Err(_) => db.spec_priv_module_data(module_id) is Err,
        },
{
    let items = module_constants(db, module_id)?;
    Ok(named_items_keys(&items))
}

/// Returns all the uses of the given module.
pub fn module_uses<D: DefsGroup>(db: &D, module_id: ModuleId) -> (r: Maybe<OrderedHashMap<UseId, UsePathLeaf>>)
    ensures
        r == match db.spec_priv_module_data(module_id) {
            Ok(data) => Ok(data.uses),
            Err(e) => Err(e),
        },
{
    Ok(db.priv_module_data(module_id)?.uses)
}

/// Returns the identifiers of all the uses of the given module, in their order.
pub fn module_uses_ids<D: DefsGroup>(db: &D, module_id: ModuleId) -> (r: Maybe<Vec<UseId>>)
    ensures
        match r {
            Ok(ids) => db.spec_priv_module_data(module_id) matches Ok(data) && ids@ == entries_keys(use_leaf_entries(data.uses)),
            Err(_) => db.spec_priv_module_data(module_id) is Err,
        },
{
    let items = module_uses(db, module_id)?;
    Ok(use_leaves_keys(&items))
}

/// Returns all the free functions of the given module.
pub fn module_free_functions<D: DefsGroup>(db: &D, module_id: ModuleId) -> (r: Maybe<OrderedHashMap<FreeFunctionId, NamedItemAst>>)
    ensures
        r == match db.spec_priv_module_data(module_id) {
            Ok(data) => Ok(data.free_functions),
            Err(e) => Err(e),
        },
{
    Ok(db.priv_module_data(module_id)?.free_functions)
}

/// Returns the identifiers of all the free functions of the given module, in their order.
pub fn module_free_functions_ids<D: DefsGroup>(db: &D, module_id: ModuleId) -> (r: Maybe<Vec<FreeFunctionId>>)
    ensures
        match r {
            Ok(ids) => db.spec_priv_module_data(module_id) matches Ok(data) && ids@ == entries_keys(named_item_entries(data.free_functions)),
            Err(_) => db.spec_priv_module_data(module_id) is Err,
        },
{
    let items = module_free_functions(db, module_id)?;
    Ok(named_items_keys(&items))
}

/// Returns all the structs of the given module.
pub fn module_structs<D: DefsGroup>(db: &D, module_id: ModuleId) -> (r: Maybe<OrderedHashMap<StructId, NamedItemAst>>)
    ensures
        r == match db.spec_priv_module_data(module_id) {
            Ok(data) => Ok(data.structs),
            Err(e) => Err(e),
        },
{
    Ok(db.priv_module_data(module_id)?.structs)
}

/// Returns the identifiers of all the structs of the given module, in their order.
pub fn module_structs_ids<D: DefsGroup>(db: &D, module_id: ModuleId) -> (r: Maybe<Vec<StructId>>)
    ensures
        match r {
            Ok(ids) => db.spec_priv_module_data(module_id) matches Ok(data) && ids@ == entries_keys(named_item_entries(data.structs)),
            Err(_) => db.spec_priv_module_data(module_id) is Err,
        },
{
    let items = module_structs(db, module_id)?;
    Ok(named_items_keys(&items))
}

/// Returns all the enums of the given module.
pub fn module_enums<D: DefsGroup>(db: &D, module_id: ModuleId) -> (r: Maybe<OrderedHashMap<EnumId, NamedItemAst>>)
    ensures
        r == match db.spec_priv_module_data(module_id) {
            Ok(data) => Ok(data.enums),
            Err(e) => Err(e),
        },
{
    Ok(db.priv_module_data(module_id)?.enums)
}

/// Returns the identifiers of all the enums of the given module, in their order.
pub fn module_enums_ids<D: DefsGroup>(db: &D, module_id: ModuleId) -> (r: Maybe<Vec<EnumId>>)
    ensures
        match r {
            Ok(ids) => db.spec_priv_module_data(module_id) matches Ok(data) && ids@ == entries_keys(named_item_entries(data.enums)),
            Err(_) => db.spec_priv_module_data(module_id) is Err,
        },
{
    let items = module_enums(db, module_id)?;
    Ok(named_items_keys(&items))
}

/// Returns all the type aliases of the given module.
pub fn module_type_aliases<D: DefsGroup>(db: &D, module_id: ModuleId) -> (r: Maybe<OrderedHashMap<TypeAliasId, NamedItemAst>>)
    ensures
        r == match db.spec_priv_module_data(module_id) {
            Ok(data) => Ok(data.type_aliases),
            Err(e) => Err(e),
        },
{
    Ok(db.priv_module_data(module_id)?.type_aliases)
}

/// Returns the identifiers of all the type aliases of the given module, in their order.
pub fn module_type_aliases_ids<D: DefsGroup>(db: &D, module_id: ModuleId) -> (r: Maybe<Vec<TypeAliasId>>)
    ensures
        match r {
            Ok(ids) => db.spec_priv_module_data(module_id) matches Ok(data) && ids@ == entries_keys(named_item_entries(data.type_aliases)),
            Err(_) => db.spec_priv_module_data(module_id) is Err,
        },
{
    let items = module_type_aliases(db, module_id)?;
    Ok(named_items_keys(&items))
}

/// Returns all the impl aliases of the given module.
pub fn module_impl_aliases<D: DefsGroup>(db: &D, module_id: ModuleId) -> (r: Maybe<OrderedHashMap<ImplAliasId, NamedItemAst>>)
    ensures
        r == match db.spec_priv_module_data(module_id) {
            Ok(data) => Ok(data.impl_aliases),
            Err(e) => Err(e),
        },
{
    Ok(db.priv_module_data(module_id)?.impl_aliases)
}

/// Returns the identifiers of all the impl aliases of the given module, in their order.
pub fn module_impl_aliases_ids<D: DefsGroup>(db: &D, module_id: ModuleId) -> (r: Maybe<Vec<ImplAliasId>>)
    ensures
        match r {
            Ok(ids) => db.spec_priv_module_data(module_id) matches Ok(data) && ids@ == entries_keys(named_item_entries(data.impl_aliases)),
            Err(_) => db.spec_priv_module_data(module_id) is Err,
        },
{
    let items = module_impl_aliases(db, module_id)?;
    Ok(named_items_keys(&items))
}

/// Returns all the traits of the given module.
pub fn module_traits<D: DefsGroup>(db: &D, module_id: ModuleId) -> (r: Maybe<OrderedHashMap<TraitId, NamedItemAst>>)
    ensures
        r == match db.spec_priv_module_data(module_id) {
            Ok(data) => Ok(data.traits),
            Err(e) => Err(e),
        },
{
    Ok(db.priv_module_data(module_id)?.traits)
}

/// Returns the identifiers of all the traits of the given module, in their order.
pub fn module_traits_ids<D: DefsGroup>(db: &D, module_id: ModuleId) -> (r: Maybe<Vec<TraitId>>)
    ensures
        match r {
            Ok(ids) => db.spec_priv_module_data(module_id) matches Ok(data) && ids@ == entries_keys(named_item_entries(data.traits)),
            Err(_) => db.spec_priv_module_data(module_id) is Err,
        },
{
    let items = module_traits(db, module_id)?;
    Ok(named_items_keys(&items))
}

/// Returns all the impls of the given module.
pub fn module_impls<D: DefsGroup>(db: &D, module_id: ModuleId) -> (r: Maybe<OrderedHashMap<ImplDefId, NamedItemAst>>)
    ensures
        r == match db.spec_priv_module_data(module_id) {
            Ok(data) => Ok(data.impls),
            Err(e) => Err(e),
        },
{
    Ok(db.priv_module_data(module_id)?.impls)
}

/// Returns the identifiers of all the impls of the given module, in their order.
pub fn module_impls_ids<D: DefsGroup>(db: &D, module_id: ModuleId) -> (r: Maybe<Vec<ImplDefId>>)
    ensures
        match r {
            Ok(ids) => db.spec_priv_module_data(module_id) matches Ok(data) && ids@ == entries_keys(named_item_entries(data.impls)),
            Err(_) => db.spec_priv_module_data(module_id) is Err,
        },
{
    let items = module_impls(db, module_id)?;
    Ok(named_items_keys(&items))
}

/// Returns all the extern_types of the given module.
pub fn module_extern_types<D: DefsGroup>(db: &D, module_id: ModuleId) -> (r: Maybe<OrderedHashMap<ExternTypeId, NamedItemAst>>)
    ensures
        r == match db.spec_priv_module_data(module_id) {
            Ok(data) => Ok(data.extern_types),
            Err(e) => Err(e),
        },
{
    Ok(db.priv_module_data(module_id)?.extern_types)
}

/// Returns the identifiers of all the extern_types of the given module, in their order.
pub fn module_extern_types_ids<D: DefsGroup>(db: &D, module_id: ModuleId) -> (r: Maybe<Vec<ExternTypeId>>)
    ensures
        match r {
            Ok(ids) => db.spec_priv_module_data(module_id) matches Ok(data) && ids@ == entries_keys(named_item_entries(data.extern_types)),
            Err(_) => db.spec_priv_module_data(module_id) is Err,
        },
{
    let items = module_extern_types(db, module_id)?;
    Ok(named_items_keys(&items))
}

/// Returns all the extern_functions of the given module.
pub fn module_extern_functions<D: DefsGroup>(db: &D, module_id: ModuleId) -> (r: Maybe<OrderedHashMap<ExternFunctionId, NamedItemAst>>)
    ensures
        r == match db.spec_priv_module_data(module_id) {
            Ok(data) => Ok(data.extern_functions),
            Err(e) => Err(e),
        },
{
    Ok(db.priv_module_data(module_id)?.extern_functions)
}

/// Returns the identifiers of all the extern_functions of the given module, in their order.
pub fn module_extern_functions_ids<D: DefsGroup>(db: &D, module_id: ModuleId) -> (r: Maybe<Vec<ExternFunctionId>>)
    ensures
        match r {
            Ok(ids) => db.spec_priv_module_data(module_id) matches Ok(data) && ids@ == entries_keys(named_item_entries(data.extern_functions)),
            Err(_) => db.spec_priv_module_data(module_id) is Err,
        },
{
    let items = module_extern_functions(db, module_id)?;
    Ok(named_items_keys(&items))
}

/// Returns the generated_file_infos of the given module.
pub fn module_generated_file_infos<D: DefsGroup>(db: &D, module_id: ModuleId) -> (r: Maybe<Vec<Option<GeneratedFileInfo>>>)
    ensures
        r == match db.spec_priv_module_data(module_id) {
            Ok(data) => Ok(data.generated_file_infos),
            Err(e) => Err(e),
        },
{
    Ok(db.priv_module_data(module_id)?.generated_file_infos)
}

/// Returns all the plugin diagnostics of the given module.
pub fn module_plugin_diagnostics<D: DefsGroup>(db: &D, module_id: ModuleId) -> (r: Maybe<Vec<(ModuleFileId, PluginDiagnostic)>>)
    ensures
        r == match db.spec_priv_module_data(module_id) {
            Ok(data) => Ok(data.plugin_diagnostics),
            Err(e) => Err(e),
        },
{
    Ok(db.priv_module_data(module_id)?.plugin_diagnostics)
}

/// Returns all the items of the given module, in their order.
pub fn module_items<D: DefsGroup>(db: &D, module_id: ModuleId) -> (r: Maybe<Arc<Vec<ModuleItemId>>>)
    ensures
        r == match db.spec_priv_module_data(module_id) {
            Ok(data) => Ok(data.items),
            Err(e) => Err(e),
        },
{
    Ok(db.priv_module_data(module_id)?.items)
}

/// Where the name of an item of a module stands: the identifier that names it, or for a
/// use leaf its alias where it has one; none where the module does not hold the item.
pub open spec fn item_name_ptr(data: ModuleData, item_id: ModuleItemId) -> Option<SyntaxStablePtrId> {
    match item_id {
        ModuleItemId::Constant(id) => match entries_get(named_item_entries(data.constants), id) {
            Some(item) => Some(item.name_ptr),
            None => None,
        },
        ModuleItemId::Submodule(id) => match entries_get(module_item_entries(data.submodules), id) {
            Some(item) => Some(item.name_ptr),
            None => None,
        },
        ModuleItemId::Use(id) => match entries_get(use_leaf_entries(data.uses), id) {
            Some(leaf) => match leaf.alias_ptr {
                Some(alias) => Some(alias),
                None => Some(leaf.ident_ptr),
            },
            None => None,
        },
        ModuleItemId::FreeFunction(id) => match entries_get(named_item_entries(data.free_functions), id) {
            Some(item) => Some(item.name_ptr),
            None => None,
        },
        ModuleItemId::Struct(id) => match entries_get(named_item_entries(data.structs), id) {
            Some(item) => Some(item.name_ptr),
            None => None,
        },
        ModuleItemId::Enum(id) => match entries_get(named_item_entries(data.enums), id) {
            Some(item) => Some(item.name_ptr),
            None => None,
        },
        ModuleItemId::TypeAlias(id) => match entries_get(named_item_entries(data.type_aliases), id) {
            Some(item) => Some(item.name_ptr),
            None => None,
        },
        ModuleItemId::ImplAlias(id) => match entries_get(named_item_entries(data.impl_aliases), id) {
            Some(item) => Some(item.name_ptr),
            None => None,
        },
        ModuleItemId::Trait(id) => match entries_get(named_item_entries(data.traits), id) {
            Some(item) => Some(item.name_ptr),
            None => None,
        },
        ModuleItemId::Impl(id) => match entries_get(named_item_entries(data.impls), id) {
            Some(item) => Some(item.name_ptr),
            None => None,
        },
        ModuleItemId::ExternType(id) => match entries_get(named_item_entries(data.extern_types), id) {
            Some(item) => Some(item.name_ptr),
            None => None,
        },
        ModuleItemId::ExternFunction(id) => match entries_get(named_item_entries(data.extern_functions), id) {
            Some(item) => Some(item.name_ptr),
            None => None,
        },
    }
}

/// Where the name of an item stands in a module's data: the identifier that names it, or
/// for a use leaf its alias where it has one; none where the data does not hold the item.
pub fn item_name_stable_ptr(data: &ModuleData, item_id: ModuleItemId) -> (r: Option<SyntaxStablePtrId>)
    ensures
        r == item_name_ptr(*data, item_id),
{
    match item_id {
        ModuleItemId::Constant(id) => match named_items_get(&data.constants, id) {
            Some(item) => Some(item.name_ptr),
            None => None,
        },
        ModuleItemId::Submodule(id) => match module_items_get(&data.submodules, id) {
            Some(item) => Some(item.name_ptr),
            None => None,
        },
        ModuleItemId::Use(id) => match use_leaves_get(&data.uses, id) {
            Some(use_leaf) => match use_leaf.alias_ptr {
                Some(alias) => Some(alias),
                None => Some(use_leaf.ident_ptr),
            },
            None => None,
        },
        ModuleItemId::FreeFunction(id) => match named_items_get(&data.free_functions, id) {
            Some(item) => Some(item.name_ptr),
            None => None,
        },
        ModuleItemId::Struct(id) => match named_items_get(&data.structs, id) {
            Some(item) => Some(item.name_ptr),
            None => None,
        },
        ModuleItemId::Enum(id) => match named_items_get(&data.enums, id) {
            Some(item) => Some(item.name_ptr),
            None => None,
        },
        ModuleItemId::TypeAlias(id) => match named_items_get(&data.type_aliases, id) {
            Some(item) => Some(item.name_ptr),
            None => None,
        },
        ModuleItemId::ImplAlias(id) => match named_items_get(&data.impl_aliases, id) {
            Some(item) => Some(item.name_ptr),
            None => None,
        },
        ModuleItemId::Trait(id) => match named_items_get(&data.traits, id) {
            Some(item) => Some(item.name_ptr),
            None => None,
        },
        ModuleItemId::Impl(id) => match named_items_get(&data.impls, id) {
            Some(item) => Some(item.name_ptr),
            None => None,
        },
        ModuleItemId::ExternType(id) => match named_items_get(&data.extern_types, id) {
            Some(item) => Some(item.name_ptr),
            None => None,
        },
        ModuleItemId::ExternFunction(id) => match named_items_get(&data.extern_functions, id) {
            Some(item) => Some(item.name_ptr),
            None => None,
        },
    }
}

/// Returns the stable ptr of the name of a module item.
pub fn module_item_name_stable_ptr<D: DefsGroup>(db: &D, module_id: ModuleId, item_id: ModuleItemId) -> (r: Maybe<SyntaxStablePtrId>)
    requires
        db.spec_priv_module_data(module_id) matches Ok(data) ==> item_name_ptr(data, item_id) is Some,
    ensures
        r == match db.spec_priv_module_data(module_id) {
            Ok(data) => Ok(item_name_ptr(data, item_id).unwrap()),
            Err(e) => Err(e),
        },
{
    let data = db.priv_module_data(module_id)?;
    match item_name_stable_ptr(&data, item_id) {
        Some(ptr) => Ok(ptr),
        None => Err(DiagnosticAdded),
    }
}

/// The stable ptr of the name of a module item, where the module's data holds the item:
/// `None` where the module has data that does not hold it; otherwise what
/// `module_item_name_stable_ptr` answers.
pub fn find_module_item_name_stable_ptr<D: DefsGroup>(db: &D, module_id: ModuleId, item_id: ModuleItemId) -> (r: Option<Maybe<SyntaxStablePtrId>>)
    ensures
        r == match db.spec_priv_module_data(module_id) {
            Ok(data) => match item_name_ptr(data, item_id) {
                Some(ptr) => Some(Ok::<SyntaxStablePtrId, DiagnosticAdded>(ptr)),
                None => None,
            },
            Err(e) => Some(Err(e)),
        },
{
    match db.priv_module_data(module_id) {
        Err(e) => Some(Err(e)),
        Ok(data) => match item_name_stable_ptr(&data, item_id) {
            Some(_) => Some(module_item_name_stable_ptr(db, module_id, item_id)),
            None => None,
        },
    }
}

} // verus!
