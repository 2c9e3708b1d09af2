use std::cell::RefCell;
use std::collections::HashMap;
use std::sync::Arc;

use cairo_defs::ast::{ItemAst, ItemModuleAst, ItemUseAst, NamedItemAst};
use cairo_defs::db::{
    crate_modules, file_modules, module_constants_ids, module_dir, module_enums_ids, module_file,
    module_files, module_free_functions_ids, module_generated_file_infos, module_impls_ids,
    find_module_item_name_stable_ptr, module_item_name_stable_ptr, module_items, module_main_file, module_plugin_diagnostics,
    module_structs_ids, module_submodules_ids, module_traits_ids, module_uses, module_uses_ids,
    priv_file_to_module_mapping, DefsGroup, DiagnosticAdded, Directory, FileLongId, Maybe,
    ModuleData,
};
use cairo_defs::ids::{
    CrateId, FileId, FileIndex, ItemKind, ModuleFileId, ModuleId, ModuleItemId, SubmoduleId,
};
use cairo_defs::module_data::priv_module_data;
use cairo_defs::plugin::{
    GeneratedFileInfo, HasMacroPlugins, MacroPlugin, PluginDiagnostic, PluginGeneratedFile,
    PluginResult,
};
use cairo_defs::use_path::{UsePath, UsePathLeaf};
use cairo_lang_utils::ordered_hash_map::OrderedHashMap;
use vstd::prelude::Seq;

/// What the test plugins do.
enum TestPlugin {
    /// Generates a file `gen` for the free function at a place, with a diagnostic.
    GenerateFor(u64),
    /// Removes every impl.
    RemoveImpls,
    /// Removes every free function.
    RemoveFunctions,
}

impl MacroPlugin for TestPlugin {
    fn spec_generate_code(&self, _item: ItemAst) -> PluginResult {
        unreachable!("a specification, not run")
    }

    fn generate_code(&self, item: &ItemAst) -> PluginResult {
        match (self, item) {
            (TestPlugin::GenerateFor(p), ItemAst::FreeFunction(f)) if f.stable_ptr == *p => PluginResult {
                code: Some(PluginGeneratedFile {
                    name: "gen".to_string(),
                    content: "trait".to_string(),
                    aux_data: 99,
                }),
                diagnostics: vec![PluginDiagnostic { stable_ptr: f.stable_ptr, message: "seen".to_string() }],
                remove_original_item: false,
            },
            (TestPlugin::RemoveImpls, ItemAst::Impl(_))
            | (TestPlugin::RemoveFunctions, ItemAst::FreeFunction(_)) => PluginResult {
                code: None,
                diagnostics: vec![],
                remove_original_item: true,
            },
            _ => PluginResult { code: None, diagnostics: vec![], remove_original_item: false },
        }
    }
}

/// A database over files held in memory.
struct TestDb {
    roots: HashMap<CrateId, String>,
    /// Items of the files on disk, by path.
    disk: HashMap<String, fn() -> Vec<ItemAst>>,
    /// Items of generated files, by name.
    generated: HashMap<String, fn() -> Vec<ItemAst>>,
    /// Names of submodule items, by where they stand.
    names: HashMap<u64, String>,
    files: RefCell<Vec<String>>,
    items: RefCell<Vec<(ItemKind, ModuleFileId, u64)>>,
    plugins: Vec<Arc<dyn MacroPlugin>>,
}

impl TestDb {
    fn file_key(&self, id: FileId) -> String {
        self.files.borrow()[id as usize].clone()
    }
    fn intern_key(&self, key: String) -> FileId {
        let mut files = self.files.borrow_mut();
        match files.iter().position(|k| *k == key) {
            Some(i) => i as FileId,
            None => {
                files.push(key);
                (files.len() - 1) as FileId
            }
        }
    }
}

impl HasMacroPlugins for TestDb {
    fn spec_macro_plugins(&self) -> Seq<Arc<dyn MacroPlugin>> {
        unreachable!("a specification, not run")
    }
    fn macro_plugins(&self) -> Vec<Arc<dyn MacroPlugin>> {
        self.plugins.clone()
    }
}

impl DefsGroup for TestDb {
    fn spec_crates(&self) -> Seq<u64> {
        unreachable!("a specification, not run")
    }
    fn spec_crate_root_dir(&self, _: u64) -> Option<Directory> {
        unreachable!("a specification, not run")
    }
    fn spec_directory_file(&self, _: Directory, _: Seq<char>) -> u64 {
        unreachable!("a specification, not run")
    }
    fn spec_subdir(&self, _: Directory, _: Seq<char>) -> Directory {
        unreachable!("a specification, not run")
    }
    fn spec_intern_file(&self, _: FileLongId) -> u64 {
        unreachable!("a specification, not run")
    }
    fn spec_file_module_syntax(&self, _: u64) -> Result<Vec<ItemAst>, DiagnosticAdded> {
        unreachable!("a specification, not run")
    }
    fn spec_intern_item(&self, _: ItemKind, _: ModuleFileId, _: u64) -> u64 {
        unreachable!("a specification, not run")
    }
    fn spec_submodule_module_file(&self, _: u64) -> ModuleFileId {
        unreachable!("a specification, not run")
    }
    fn spec_submodule_name(&self, _: u64) -> Seq<char> {
        unreachable!("a specification, not run")
    }
    fn spec_module_main_file(&self, _: ModuleId) -> Result<u64, DiagnosticAdded> {
        unreachable!("a specification, not run")
    }
    fn spec_module_files(&self, _: ModuleId) -> Result<Vec<u64>, DiagnosticAdded> {
        unreachable!("a specification, not run")
    }
    fn spec_module_file(&self, _: ModuleFileId) -> Result<u64, DiagnosticAdded> {
        unreachable!("a specification, not run")
    }
    fn spec_module_dir(&self, _: ModuleId) -> Result<Directory, DiagnosticAdded> {
        unreachable!("a specification, not run")
    }
    fn spec_module_submodules_ids(&self, _: ModuleId) -> Result<Vec<u64>, DiagnosticAdded> {
        unreachable!("a specification, not run")
    }
    fn spec_crate_modules(&self, _: u64) -> Arc<Vec<ModuleId>> {
        unreachable!("a specification, not run")
    }
    fn spec_priv_file_to_module_mapping(&self) -> OrderedHashMap<u64, Vec<ModuleId>> {
        unreachable!("a specification, not run")
    }
    fn spec_priv_module_data(&self, _: ModuleId) -> Result<ModuleData, DiagnosticAdded> {
        unreachable!("a specification, not run")
    }
    fn crates(&self) -> Vec<CrateId> {
        let mut c: Vec<CrateId> = self.roots.keys().copied().collect();
        c.sort();
        c
    }
    fn crate_root_dir(&self, crate_id: CrateId) -> Option<Directory> {
        self.roots.get(&crate_id).map(|p| Directory { path: p.clone() })
    }
    fn directory_file(&self, dir: &Directory, name: &str) -> FileId {
        self.intern_key(format!("disk:{}/{}", dir.path, name))
    }
    fn subdir(&self, dir: &Directory, name: &str) -> Directory {
        Directory { path: format!("{}/{}", dir.path, name) }
    }
    fn intern_file(&self, file: FileLongId) -> FileId {
        match file {
            FileLongId::OnDisk(path) => self.intern_key(format!("disk:{}", path)),
            FileLongId::Virtual(v) => self.intern_key(format!("virtual:{}", v.name)),
        }
    }
    fn file_module_syntax(&self, file: FileId) -> Maybe<Vec<ItemAst>> {
        let key = self.file_key(file);
        if let Some(path) = key.strip_prefix("disk:") {
            self.disk.get(path).map(|f| f()).ok_or(DiagnosticAdded)
        } else {
            let name = key.strip_prefix("virtual:").unwrap();
            self.generated.get(name).map(|f| f()).ok_or(DiagnosticAdded)
        }
    }
    fn intern_item(&self, kind: ItemKind, module_file_id: ModuleFileId, stable_ptr: u64) -> u64 {
        let mut items = self.items.borrow_mut();
        let key = (kind, module_file_id, stable_ptr);
        match items.iter().position(|k| *k == key) {
            Some(i) => i as u64,
            None => {
                items.push(key);
                (items.len() - 1) as u64
            }
        }
    }
    fn submodule_module_file(&self, id: SubmoduleId) -> ModuleFileId {
        self.items.borrow()[id as usize].1
    }
    fn submodule_name(&self, id: SubmoduleId) -> String {
        let ptr = self.items.borrow()[id as usize].2;
        self.names[&ptr].clone()
    }
    fn module_main_file(&self, module_id: ModuleId) -> Maybe<FileId> {
        module_main_file(self, module_id)
    }
    fn module_files(&self, module_id: ModuleId) -> Maybe<Vec<FileId>> {
        module_files(self, module_id)
    }
    fn module_file(&self, module_file_id: ModuleFileId) -> Maybe<FileId> {
        module_file(self, module_file_id)
    }
    fn module_dir(&self, module_id: ModuleId) -> Maybe<Directory> {
        module_dir(self, module_id)
    }
    fn module_submodules_ids(&self, module_id: ModuleId) -> Maybe<Vec<SubmoduleId>> {
        module_submodules_ids(self, module_id)
    }
    fn crate_modules(&self, crate_id: CrateId) -> Arc<Vec<ModuleId>> {
        crate_modules(self, crate_id)
    }
    fn priv_file_to_module_mapping(&self) -> OrderedHashMap<FileId, Vec<ModuleId>> {
        priv_file_to_module_mapping(self)
    }
    fn priv_module_data(&self, module_id: ModuleId) -> Maybe<ModuleData> {
        priv_module_data(self, module_id)
    }
}

fn named(p: u64) -> NamedItemAst {
    NamedItemAst { stable_ptr: p, name_ptr: p + 1 }
}

fn leaf(p: u64, alias: Option<u64>) -> UsePath {
    UsePath::Leaf(UsePathLeaf { stable_ptr: p, ident_ptr: p + 1, alias_ptr: alias })
}

/// `src/lib.cairo`: a constant, `mod a;`, `use x::{b, c as d};`, an inline
/// `mod inner { struct }`, a free function (which a plugin expands) and an impl (which a
/// plugin removes).
fn lib_items() -> Vec<ItemAst> {
    vec![
        ItemAst::Constant(named(1)),
        ItemAst::Module(ItemModuleAst { stable_ptr: 3, name_ptr: 4, body: None }),
        ItemAst::Use(ItemUseAst {
            stable_ptr: 5,
            use_path: UsePath::Single(Box::new(UsePath::Multi(vec![leaf(6, None), leaf(8, Some(10))]))),
        }),
        ItemAst::Module(ItemModuleAst {
            stable_ptr: 12,
            name_ptr: 13,
            body: Some(vec![ItemAst::Struct(named(14))]),
        }),
        ItemAst::FreeFunction(named(20)),
        ItemAst::Impl(named(22)),
        ItemAst::Missing,
    ]
}

fn a_items() -> Vec<ItemAst> {
    vec![ItemAst::Enum(named(30))]
}

fn gen_items() -> Vec<ItemAst> {
    vec![ItemAst::Trait(named(40))]
}

fn test_db() -> TestDb {
    let mut disk: HashMap<String, fn() -> Vec<ItemAst>> = HashMap::new();
    disk.insert("src/lib.cairo".to_string(), lib_items);
    disk.insert("src/a.cairo".to_string(), a_items);
    let mut generated: HashMap<String, fn() -> Vec<ItemAst>> = HashMap::new();
    generated.insert("gen".to_string(), gen_items);
    let mut names = HashMap::new();
    names.insert(3, "a".to_string());
    names.insert(12, "inner".to_string());
    let mut roots = HashMap::new();
    roots.insert(0, "src".to_string());
    TestDb {
        roots,
        disk,
        generated,
        names,
        files: RefCell::new(vec![]),
        items: RefCell::new(vec![]),
        plugins: vec![Arc::new(TestPlugin::GenerateFor(20)), Arc::new(TestPlugin::RemoveImpls)],
    }
}

const ROOT: ModuleId = ModuleId::CrateRoot(0);

fn submodule(db: &TestDb, name: &str) -> ModuleId {
    let ids = module_submodules_ids(db, ROOT).unwrap();
    let id = ids.into_iter().find(|id| db.submodule_name(*id) == name).unwrap();
    ModuleId::Submodule(id)
}

#[test]
fn crate_root_main_file_is_lib_cairo() {
    let db = test_db();
    let file = module_main_file(&db, ROOT).unwrap();
    assert_eq!(db.file_key(file), "disk:src/lib.cairo");
    assert_eq!(module_dir(&db, ROOT).unwrap().path, "src");
}

#[test]
fn crate_without_root_has_no_main_file() {
    let db = test_db();
    assert_eq!(module_main_file(&db, ModuleId::CrateRoot(5)), Err(DiagnosticAdded));
    assert!(module_dir(&db, ModuleId::CrateRoot(5)).is_err());
}

#[test]
fn file_submodule_lives_in_its_own_file() {
    let db = test_db();
    let a = submodule(&db, "a");
    let file = module_main_file(&db, a).unwrap();
    assert_eq!(db.file_key(file), "disk:src/a.cairo");
    assert_eq!(module_dir(&db, a).unwrap().path, "src/a");
    assert_eq!(module_enums_ids(&db, a).unwrap().len(), 1);
}

#[test]
fn inline_submodule_lives_in_its_parents_file() {
    let db = test_db();
    let inner = submodule(&db, "inner");
    assert_eq!(module_main_file(&db, inner), module_main_file(&db, ROOT));
    assert_eq!(module_structs_ids(&db, inner).unwrap().len(), 1);
    assert_eq!(module_generated_file_infos(&db, inner).unwrap(), vec![None]);
}

#[test]
fn plugins_generate_files_and_diagnostics() {
    let db = test_db();
    let files = module_files(&db, ROOT).unwrap();
    assert_eq!(files.len(), 2);
    assert_eq!(db.file_key(files[0]), "disk:src/lib.cairo");
    assert_eq!(db.file_key(files[1]), "virtual:gen");
    let origin = ModuleFileId(ROOT, FileIndex(0));
    assert_eq!(
        module_generated_file_infos(&db, ROOT).unwrap(),
        vec![None, Some(GeneratedFileInfo { aux_data: 99, origin })]
    );
    let diagnostics = module_plugin_diagnostics(&db, ROOT).unwrap();
    assert_eq!(diagnostics.len(), 1);
    assert_eq!(diagnostics[0].0, origin);
    assert_eq!(diagnostics[0].1.message, "seen");
    assert_eq!(module_file(&db, ModuleFileId(ROOT, FileIndex(1))).unwrap(), files[1]);
    // The trait of the generated file belongs to the module.
    assert_eq!(module_traits_ids(&db, ROOT).unwrap().len(), 1);
}

#[test]
fn removed_items_are_left_out() {
    let db = test_db();
    assert!(module_impls_ids(&db, ROOT).unwrap().is_empty());
    assert_eq!(module_free_functions_ids(&db, ROOT).unwrap().len(), 1);
}

#[test]
fn items_in_order() {
    let db = test_db();
    let items = module_items(&db, ROOT).unwrap();
    let kinds: Vec<&str> = items
        .iter()
        .map(|i| match i {
            ModuleItemId::Constant(_) => "const",
            ModuleItemId::Submodule(_) => "mod",
            ModuleItemId::Use(_) => "use",
            ModuleItemId::FreeFunction(_) => "fn",
            ModuleItemId::Trait(_) => "trait",
            _ => "other",
        })
        .collect();
    assert_eq!(kinds, vec!["const", "mod", "use", "use", "mod", "fn", "trait"]);
    assert_eq!(module_constants_ids(&db, ROOT).unwrap().len(), 1);
    assert_eq!(module_uses_ids(&db, ROOT).unwrap().len(), 2);
    assert_eq!(module_uses(&db, ROOT).unwrap().len(), 2);
}

#[test]
fn item_names() {
    let db = test_db();
    let items = module_items(&db, ROOT).unwrap();
    let ptrs: Vec<u64> =
        items.iter().map(|i| module_item_name_stable_ptr(&db, ROOT, *i).unwrap()).collect();
    // Names: constant 2, `a` 4, `b` 7, the alias `d` 10, `inner` 13, the function 21,
    // the trait 41.
    assert_eq!(ptrs, vec![2, 4, 7, 10, 13, 21, 41]);
}

#[test]
fn crate_modules_in_depth_first_order() {
    let db = test_db();
    let modules = crate_modules(&db, 0);
    assert_eq!(modules.len(), 3);
    assert_eq!(modules[0], ROOT);
    assert_eq!(modules[1], submodule(&db, "a"));
    assert_eq!(modules[2], submodule(&db, "inner"));
}

#[test]
fn files_know_their_modules() {
    let db = test_db();
    let lib = module_main_file(&db, ROOT).unwrap();
    let a = submodule(&db, "a");
    let a_file = module_main_file(&db, a).unwrap();
    let gen = module_files(&db, ROOT).unwrap()[1];
    assert_eq!(file_modules(&db, lib).unwrap(), vec![ROOT, submodule(&db, "inner")]);
    assert_eq!(file_modules(&db, a_file).unwrap(), vec![a]);
    assert_eq!(file_modules(&db, gen).unwrap(), vec![ROOT]);
    assert!(file_modules(&db, 1000).is_err());
}

#[test]
fn unparsable_generated_file_fails_the_module() {
    let mut db = test_db();
    db.generated.clear();
    assert!(priv_module_data(&db, ROOT).is_err());
    assert!(module_files(&db, ROOT).is_err());
}

#[test]
fn first_changing_plugin_ends_the_loop() {
    let mut db = test_db();
    db.plugins = vec![Arc::new(TestPlugin::GenerateFor(20)), Arc::new(TestPlugin::RemoveFunctions)];
    // The first plugin generates code for the function, so the second never sees it.
    assert_eq!(module_free_functions_ids(&db, ROOT).unwrap().len(), 1);
    assert_eq!(module_files(&db, ROOT).unwrap().len(), 2);
    // Without the first plugin, the second removes it.
    let mut db = test_db();
    db.plugins = vec![Arc::new(TestPlugin::RemoveFunctions)];
    assert!(module_free_functions_ids(&db, ROOT).unwrap().is_empty());
}

#[test]
fn item_name_lookup_checks_the_item() {
    let db = test_db();
    let items = module_items(&db, ROOT).unwrap();
    assert_eq!(find_module_item_name_stable_ptr(&db, ROOT, items[0]), Some(Ok(2)));
    assert_eq!(find_module_item_name_stable_ptr(&db, ROOT, ModuleItemId::Enum(9999)), None);
    assert_eq!(
        find_module_item_name_stable_ptr(&db, ModuleId::CrateRoot(5), items[0]),
        Some(Err(DiagnosticAdded))
    );
}

#[test]
fn items_are_listed_once_each() {
    let db = test_db();
    let items = module_items(&db, ROOT).unwrap();
    for (i, a) in items.iter().enumerate() {
        for b in items.iter().skip(i + 1) {
            assert_ne!(a, b);
        }
    }
    let in_maps = module_constants_ids(&db, ROOT).unwrap().len()
        + module_submodules_ids(&db, ROOT).unwrap().len()
        + module_uses_ids(&db, ROOT).unwrap().len()
        + module_free_functions_ids(&db, ROOT).unwrap().len()
        + module_structs_ids(&db, ROOT).unwrap().len()
        + module_enums_ids(&db, ROOT).unwrap().len()
        + module_traits_ids(&db, ROOT).unwrap().len()
        + module_impls_ids(&db, ROOT).unwrap().len();
    assert_eq!(items.len(), in_maps);
    let modules = crate_modules(&db, 0);
    assert_ne!(modules[1], modules[2]);
}

#[test]
fn generated_file_is_a_virtual_child_of_its_origin() {
    let db = test_db();
    let files = module_files(&db, ROOT).unwrap();
    let infos = module_generated_file_infos(&db, ROOT).unwrap();
    let origin = infos[1].unwrap().origin;
    assert_eq!(origin, ModuleFileId(ROOT, FileIndex(0)));
    assert_eq!(db.file_key(files[1]), "virtual:gen");
    assert_eq!(db.file_key(files[origin.1 .0]), "disk:src/lib.cairo");
}
