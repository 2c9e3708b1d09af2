//! The query `priv_module_data`: the files and the items of a module, after the macro
//! plugins ran on each item.
//!
//! The module's files are its main file, then the files the plugins generate, in the order
//! they are generated: the items of each file are processed in order, the plugins run on
//! each item in their order until one generates code or removes it (later plugins act on
//! the generated code instead), and every file a plugin generates is
//! parsed and queued to be processed after the files before it.

use vstd::prelude::*;
use std::collections::VecDeque;
use std::sync::Arc;
use crate::ast::{ItemAst, ItemModuleAst, NamedItemAst};
use crate::db::{
    item_name_ptr, DefsGroup, DiagnosticAdded, FileKind, FileLongId, Maybe, ModuleData, VirtualFile,
    parent_module,
};
use crate::ids::{FileId, FileIndex, ItemKind, ModuleFileId, ModuleId, ModuleItemId, SubmoduleId, module_item_id};
use crate::ordered_map::{
    entries_get, entries_insert, module_item_entries, named_item_entries, use_leaf_entries,
    named_items_insert, module_items_insert, use_leaves_insert, named_items_new, module_items_new,
    use_leaves_new, module_items_remove, entries_keys, lemma_entries_insert_keys, lemma_key_index,
};
use crate::plugin::{SyntaxStablePtrId, GeneratedFileInfo, MacroPlugin, PluginDiagnostic, PluginResult, HasMacroPlugins};
use crate::use_path::{UsePathLeaf, path_leaves, get_all_path_leafs};

verus! {

/// A file of a module, waiting to be processed: its items, and how it was generated.
pub struct QueuedFile {
    pub file: FileId,
    pub items: Vec<ItemAst>,
    pub info: Option<GeneratedFileInfo>,
}

/// A file that a plugin generated.
pub struct ChildFile {
    pub file: FileId,
    pub info: GeneratedFileInfo,
}

/// An item that a module holds, with its identifier.
pub enum ItemEntry {
    Named { kind: ItemKind, id: u64, ast: NamedItemAst },
    Submodule { id: u64, ast: ItemModuleAst },
    Use { id: u64, leaf: UsePathLeaf },
}

/// What processing (part of) a module file gives: diagnostics, generated files, items.
pub struct FileOutcome {
    pub diagnostics: Seq<(ModuleFileId, PluginDiagnostic)>,
    pub children: Seq<ChildFile>,
    pub entries: Seq<ItemEntry>,
}

pub open spec fn empty_outcome() -> FileOutcome {
    FileOutcome { diagnostics: seq![], children: seq![], entries: seq![] }
}

pub open spec fn concat_outcomes(a: FileOutcome, b: FileOutcome) -> FileOutcome {
    FileOutcome {
        diagnostics: a.diagnostics + b.diagnostics,
        children: a.children + b.children,
        entries: a.entries + b.entries,
    }
}

/// The results of the first `count` plugins on an item, stopping after the first one that
/// changes something: one that generates code, removes the item, or both. Later plugins
/// do not see the item; they act on the generated code instead.
pub open spec fn plugins_prefix_results(plugins: Seq<Arc<dyn MacroPlugin>>, item: ItemAst, count: nat) -> Seq<PluginResult>
    decreases count,
{
    if count == 0 {
        seq![]
    } else {
        let before = plugins_prefix_results(plugins, item, (count - 1) as nat);
        if stops_plugins(before) {
            before
        } else {
            before.push(plugins[count - 1].spec_generate_code(item))
        }
    }
}

/// The results of the plugins that run on an item: all of them in order, up to and
/// including the first that generates code or removes it.
pub open spec fn plugins_results(plugins: Seq<Arc<dyn MacroPlugin>>, item: ItemAst) -> Seq<PluginResult> {
    plugins_prefix_results(plugins, item, plugins.len())
}

/// Whether the last of a list of plugin results changes something (generates code or
/// removes the item), so that no further plugin runs on the item.
pub open spec fn stops_plugins(results: Seq<PluginResult>) -> bool {
    results.len() > 0 && (results.last().remove_original_item || results.last().code is Some)
}

/// Whether a plugin removes the item.
pub open spec fn removes_item(results: Seq<PluginResult>) -> bool {
    results.len() > 0 && results.last().remove_original_item
}

/// The file that a plugin generates in a module file, if it generates one.
pub open spec fn generated_child<D: DefsGroup>(
    db: D,
    module_file_id: ModuleFileId,
    file: FileId,
    result: PluginResult,
) -> Seq<ChildFile> {
    match result.code {
        Some(generated) => seq![
            ChildFile {
                file: db.spec_intern_file(
                    FileLongId::Virtual(
                        VirtualFile {
                            parent: Some(file),
                            name: generated.name,
                            content: generated.content,
                            kind: FileKind::Module,
                        },
                    ),
                ),
                info: GeneratedFileInfo { aux_data: generated.aux_data, origin: module_file_id },
            },
        ],
        None => seq![],
    }
}

/// The diagnostics of a plugin's result, at a module file.
pub open spec fn result_diagnostics(module_file_id: ModuleFileId, result: PluginResult) -> Seq<(ModuleFileId, PluginDiagnostic)> {
    result.diagnostics@.map_values(|d: PluginDiagnostic| (module_file_id, d))
}

/// The diagnostics and generated files of a list of plugin results.
pub open spec fn results_outcome<D: DefsGroup>(
    db: D,
    module_file_id: ModuleFileId,
    file: FileId,
    results: Seq<PluginResult>,
) -> FileOutcome
    decreases results.len(),
{
    if results.len() == 0 {
        empty_outcome()
    } else {
        concat_outcomes(
            results_outcome(db, module_file_id, file, results.drop_last()),
            FileOutcome {
                diagnostics: result_diagnostics(module_file_id, results.last()),
                children: generated_child(db, module_file_id, file, results.last()),
                entries: seq![],
            },
        )
    }
}

/// The entry of a use leaf of a module file.
pub open spec fn use_entry<D: DefsGroup>(db: D, module_file_id: ModuleFileId, leaf: UsePathLeaf) -> ItemEntry {
    ItemEntry::Use { id: db.spec_intern_item(ItemKind::Use, module_file_id, leaf.stable_ptr), leaf }
}

/// The entry of a named item of a module file.
pub open spec fn named_entry<D: DefsGroup>(
    db: D,
    module_file_id: ModuleFileId,
    kind: ItemKind,
    ast: NamedItemAst,
) -> Seq<ItemEntry> {
    seq![ItemEntry::Named { kind, id: db.spec_intern_item(kind, module_file_id, ast.stable_ptr), ast }]
}

/// The entries that an item of a module file gives: one, or one per leaf of a use item,
/// or none for a missing item.
pub open spec fn item_entries<D: DefsGroup>(db: D, module_file_id: ModuleFileId, item: ItemAst) -> Seq<ItemEntry> {
    match item {
        ItemAst::Constant(ast) => named_entry(db, module_file_id, ItemKind::Constant, ast),
        ItemAst::Module(ast) => seq![
            ItemEntry::Submodule {
                id: db.spec_intern_item(ItemKind::Submodule, module_file_id, ast.stable_ptr),
                ast,
            },
        ],
        ItemAst::Use(ast) => path_leaves(ast.use_path).map_values(
            |leaf: UsePathLeaf| use_entry(db, module_file_id, leaf),
        ),
        ItemAst::FreeFunction(ast) => named_entry(db, module_file_id, ItemKind::FreeFunction, ast),
        ItemAst::ExternFunction(ast) => named_entry(db, module_file_id, ItemKind::ExternFunction, ast),
        ItemAst::ExternType(ast) => named_entry(db, module_file_id, ItemKind::ExternType, ast),
        ItemAst::Trait(ast) => named_entry(db, module_file_id, ItemKind::Trait, ast),
        ItemAst::Impl(ast) => named_entry(db, module_file_id, ItemKind::Impl, ast),
        ItemAst::ImplAlias(ast) => named_entry(db, module_file_id, ItemKind::ImplAlias, ast),
        ItemAst::Struct(ast) => named_entry(db, module_file_id, ItemKind::Struct, ast),
        ItemAst::Enum(ast) => named_entry(db, module_file_id, ItemKind::Enum, ast),
        ItemAst::TypeAlias(ast) => named_entry(db, module_file_id, ItemKind::TypeAlias, ast),
        ItemAst::Missing => seq![],
    }
}

/// What the plugins give for an item: their diagnostics and generated files.
pub open spec fn item_plugins_outcome<D: DefsGroup>(
    db: D,
    module_file_id: ModuleFileId,
    file: FileId,
    item: ItemAst,
) -> FileOutcome {
    results_outcome(db, module_file_id, file, plugins_results(db.spec_macro_plugins(), item))
}

/// What processing an item of a module file gives: the plugins' diagnostics and generated
/// files, and the item's entries unless a plugin removes it.
pub open spec fn item_outcome<D: DefsGroup>(
    db: D,
    module_file_id: ModuleFileId,
    file: FileId,
    item: ItemAst,
) -> FileOutcome {
    let plugins = item_plugins_outcome(db, module_file_id, file, item);
    FileOutcome {
        diagnostics: plugins.diagnostics,
        children: plugins.children,
        entries: if removes_item(plugins_results(db.spec_macro_plugins(), item)) {
            seq![]
        } else {
            item_entries(db, module_file_id, item)
        },
    }
}

/// What processing the items of a module file gives, in their order.
pub open spec fn file_outcome<D: DefsGroup>(
    db: D,
    module_file_id: ModuleFileId,
    file: FileId,
    items: Seq<ItemAst>,
) -> FileOutcome
    decreases items.len(),
{
    if items.len() == 0 {
        empty_outcome()
    } else {
        concat_outcomes(
            file_outcome(db, module_file_id, file, items.drop_last()),
            item_outcome(db, module_file_id, file, items.last()),
        )
    }
}

/// A generated file, parsed and queued; none where it does not parse.
pub open spec fn child_queued<D: DefsGroup>(db: D, child: ChildFile) -> Option<QueuedFile> {
    match db.spec_file_module_syntax(child.file) {
        Ok(items) => Some(QueuedFile { file: child.file, items, info: Some(child.info) }),
        Err(_) => None,
    }
}

/// Generated files, parsed and queued in their order; none where one does not parse.
pub open spec fn children_queued<D: DefsGroup>(db: D, children: Seq<ChildFile>) -> Option<Seq<QueuedFile>>
    decreases children.len(),
{
    if children.len() == 0 {
        Some(seq![])
    } else {
        match children_queued(db, children.drop_last()) {
            None => None,
            Some(queued) => match child_queued(db, children.last()) {
                None => None,
                Some(q) => Some(queued.push(q)),
            },
        }
    }
}

/// The module file with a given index.
pub open spec fn module_file_at(module_id: ModuleId, index: int) -> ModuleFileId {
    ModuleFileId(module_id, FileIndex(index as usize))
}

/// The files of a module discovered after processing `count` of them, starting from its
/// main file; none where a generated file does not parse.
pub open spec fn discovered_files<D: DefsGroup>(
    db: D,
    module_id: ModuleId,
    start: QueuedFile,
    count: nat,
) -> Option<Seq<QueuedFile>>
    decreases count,
{
    if count == 0 {
        Some(seq![start])
    } else {
        match discovered_files(db, module_id, start, (count - 1) as nat) {
            None => None,
            Some(files) => if count - 1 < files.len() {
                let f = files[count - 1];
                let children = file_outcome(db, module_file_at(module_id, count - 1), f.file, f.items@).children;
                match children_queued(db, children) {
                    None => None,
                    Some(queued) => Some(files + queued),
                }
            } else {
                Some(files)
            },
        }
    }
}

/// Whether the expansion of a module is over after processing `count` files: a generated
/// file did not parse, or every discovered file was processed.
pub open spec fn expansion_over<D: DefsGroup>(db: D, module_id: ModuleId, start: QueuedFile, count: nat) -> bool {
    match discovered_files(db, module_id, start, count) {
        None => true,
        Some(files) => files.len() <= count,
    }
}

/// Whether the plugins stop generating files for a module.
pub open spec fn expansion_ends<D: DefsGroup>(db: D, module_id: ModuleId, start: QueuedFile) -> bool {
    exists|count: nat| expansion_over(db, module_id, start, count)
}

/// A number of files after which the expansion of a module is over (where it ends).
pub open spec fn expansion_bound<D: DefsGroup>(db: D, module_id: ModuleId, start: QueuedFile) -> nat {
    choose|count: nat| expansion_over(db, module_id, start, count)
}

/// What processing the first `count` files of a module gives, in their order.
pub open spec fn files_outcome<D: DefsGroup>(
    db: D,
    module_id: ModuleId,
    files: Seq<QueuedFile>,
    count: nat,
) -> FileOutcome
    decreases count,
{
    if count == 0 {
        empty_outcome()
    } else {
        concat_outcomes(
            files_outcome(db, module_id, files, (count - 1) as nat),
            file_outcome(db, module_file_at(module_id, count - 1), files[count - 1].file, files[count - 1].items@),
        )
    }
}

/// The view of queued files' generation infos.
pub open spec fn queued_infos(files: Seq<QueuedFile>) -> Seq<Option<GeneratedFileInfo>> {
    files.map_values(|q: QueuedFile| q.info)
}

/// Once a plugin changed something, no further plugin runs.
proof fn lemma_prefix_results_stop(plugins: Seq<Arc<dyn MacroPlugin>>, item: ItemAst, count: nat, more: nat)
    requires
        stops_plugins(plugins_prefix_results(plugins, item, count)),
        count <= more,
    ensures
        plugins_prefix_results(plugins, item, more) == plugins_prefix_results(plugins, item, count),
    decreases more - count,
{
    if count < more {
        lemma_prefix_results_stop(plugins, item, count, (more - 1) as nat);
    }
}

/// The first `count` plugins run on an item in their order, each on the original item,
/// and the run stops right after the first that changes something.
proof fn lemma_prefix_results_shape(plugins: Seq<Arc<dyn MacroPlugin>>, item: ItemAst, count: nat)
    requires
        count <= plugins.len(),
    ensures
        plugins_prefix_results(plugins, item, count).len() <= count,
        forall|i: int| 0 <= i < plugins_prefix_results(plugins, item, count).len() ==>
            #[trigger] plugins_prefix_results(plugins, item, count)[i] == plugins[i].spec_generate_code(item),
        forall|i: int| 0 <= i < plugins_prefix_results(plugins, item, count).len() - 1 ==>
            !(#[trigger] plugins_prefix_results(plugins, item, count)[i]).remove_original_item
            && plugins_prefix_results(plugins, item, count)[i].code is None,
        plugins_prefix_results(plugins, item, count).len() < count ==> stops_plugins(plugins_prefix_results(plugins, item, count)),
    decreases count,
{
    if count > 0 {
        lemma_prefix_results_shape(plugins, item, (count - 1) as nat);
    }
}

/// The plugins run on an item in their order, each on the original item, until the first
/// that changes something (generates code or removes the item); no later plugin runs on it.
pub proof fn lemma_plugins_stop_at_first_change(plugins: Seq<Arc<dyn MacroPlugin>>, item: ItemAst)
    ensures
        plugins_results(plugins, item).len() <= plugins.len(),
        forall|i: int| 0 <= i < plugins_results(plugins, item).len() ==>
            #[trigger] plugins_results(plugins, item)[i] == plugins[i].spec_generate_code(item),
        forall|i: int| 0 <= i < plugins_results(plugins, item).len() - 1 ==>
            !(#[trigger] plugins_results(plugins, item)[i]).remove_original_item
            && plugins_results(plugins, item)[i].code is None,
        plugins_results(plugins, item).len() < plugins.len() ==> stops_plugins(plugins_results(plugins, item)),
{
    lemma_prefix_results_shape(plugins, item, plugins.len());
}

/// The outcome of two lists of plugin results is that of each in turn.
proof fn lemma_results_outcome_concat<D: DefsGroup>(
    db: D,
    module_file_id: ModuleFileId,
    file: FileId,
    a: Seq<PluginResult>,
    b: Seq<PluginResult>,
)
    ensures
        results_outcome(db, module_file_id, file, a + b) == concat_outcomes(
            results_outcome(db, module_file_id, file, a),
            results_outcome(db, module_file_id, file, b),
        ),
    decreases b.len(),
{
    if b.len() == 0 {
        assert(a + b =~= a);
        let o = results_outcome(db, module_file_id, file, a);
        assert(o.diagnostics + seq![] =~= o.diagnostics);
        assert(o.children + seq![] =~= o.children);
        assert(o.entries + seq![] =~= o.entries);
    } else {
        lemma_results_outcome_concat(db, module_file_id, file, a, b.drop_last());
        assert((a + b).drop_last() =~= a + b.drop_last());
        let oa = results_outcome(db, module_file_id, file, a);
        let ob = results_outcome(db, module_file_id, file, b.drop_last());
        let d = result_diagnostics(module_file_id, b.last());
        let c = generated_child(db, module_file_id, file, b.last());
        assert(oa.diagnostics + ob.diagnostics + d =~= oa.diagnostics + (ob.diagnostics + d));
        assert(oa.children + ob.children + c =~= oa.children + (ob.children + c));
        assert(oa.entries + ob.entries + seq![] =~= oa.entries + (ob.entries + seq![]));
    }
}

/// The results of fewer plugins are a prefix of the results of more.
proof fn lemma_prefix_results_prefix(plugins: Seq<Arc<dyn MacroPlugin>>, item: ItemAst, count: nat, more: nat)
    requires
        count <= more,
    ensures
        plugins_prefix_results(plugins, item, count) =~= plugins_prefix_results(plugins, item, more).subrange(
            0,
            plugins_prefix_results(plugins, item, count).len() as int,
        ),
        plugins_prefix_results(plugins, item, count).len() <= plugins_prefix_results(plugins, item, more).len(),
    decreases more - count,
{
    if count < more {
        lemma_prefix_results_prefix(plugins, item, count, (more - 1) as nat);
    }
}

/// Generated files of two lists, parsed and queued, are those of each in turn.
proof fn lemma_children_queued_concat<D: DefsGroup>(db: D, a: Seq<ChildFile>, b: Seq<ChildFile>)
    ensures
        children_queued(db, a + b) == match children_queued(db, a) {
            None => None,
            Some(qa) => match children_queued(db, b) {
                None => None,
                Some(qb) => Some(qa + qb),
            },
        },
    decreases b.len(),
{
    if b.len() == 0 {
        assert(a + b =~= a);
        if let Some(qa) = children_queued(db, a) {
            assert(qa + seq![] =~= qa);
        }
    } else {
        lemma_children_queued_concat(db, a, b.drop_last());
        assert((a + b).drop_last() =~= a + b.drop_last());
        assert((a + b).last() == b.last());
        if let Some(qa) = children_queued(db, a) {
            if let Some(qb) = children_queued(db, b.drop_last()) {
                if let Some(q) = child_queued(db, b.last()) {
                    assert((qa + qb).push(q) =~= qa + qb.push(q));
                }
            }
        }
    }
}

/// Appends diagnostics to a list, at a module file.
fn push_diagnostics_at(
    diagnostics: &mut Vec<(ModuleFileId, PluginDiagnostic)>,
    module_file_id: ModuleFileId,
    new_diagnostics: Vec<PluginDiagnostic>,
)
    ensures
        final(diagnostics)@ == old(diagnostics)@ + new_diagnostics@.map_values(
            |d: PluginDiagnostic| (module_file_id, d),
        ),
{
    let ghost start = diagnostics@;
    let ghost all = new_diagnostics@;
    assert(all.len() == new_diagnostics.len());
    let mut rest = new_diagnostics;
    let mut n: usize = 0;
    while rest.len() > 0
        invariant
            n <= all.len(),
            all.len() <= usize::MAX,
            n + rest@.len() == all.len(),
            rest@ == all.skip(n as int),
            diagnostics@ == start + all.take(n as int).map_values(|d: PluginDiagnostic| (module_file_id, d)),
        decreases rest.len(),
    {
        let d = rest.remove(0);
        diagnostics.push((module_file_id, d));
        assert(all.take(n + 1) =~= all.take(n as int).push(d));
        assert(all.take(n + 1).map_values(|d: PluginDiagnostic| (module_file_id, d)) =~= all.take(n as int).map_values(
            |d: PluginDiagnostic| (module_file_id, d),
        ).push((module_file_id, d)));
        n = n + 1;
        assert(rest@ =~= all.skip(n as int));
    }
    assert(all.take(n as int) =~= all);
}

/// Runs the plugins on an item of a module file, in their order, until one generates code
/// or removes the item:
/// reports their diagnostics, and parses and queues the files they generate. Tells
/// whether a plugin removed the item; fails where a generated file does not parse.
fn run_item_plugins<D: DefsGroup>(
    db: &D,
    item: &ItemAst,
    module_file_id: ModuleFileId,
    file: FileId,
    diagnostics: &mut Vec<(ModuleFileId, PluginDiagnostic)>,
    infos: &mut Vec<Option<GeneratedFileInfo>>,
    queue: &mut VecDeque<QueuedFile>,
) -> (r: Maybe<bool>)
    ensures
        match r {
            Ok(removed) => {
                let out = item_plugins_outcome(*db, module_file_id, file, *item);
                &&& removed == removes_item(plugins_results(db.spec_macro_plugins(), *item))
                &&& final(diagnostics)@ == old(diagnostics)@ + out.diagnostics
                &&& children_queued(*db, out.children) matches Some(queued)
                &&& final(queue)@ == old(queue)@ + queued
                &&& final(infos)@ == old(infos)@ + queued_infos(queued)
            },
            Err(_) => children_queued(*db, item_plugins_outcome(*db, module_file_id, file, *item).children) is None,
        },
{
    let plugins = db.macro_plugins();
    let ghost start_diagnostics = diagnostics@;
    let ghost start_infos = infos@;
    let ghost start_queue = queue@;
    let mut removed = false;
    let mut stopped = false;
    let mut j: usize = 0;
    let ghost mut results: Seq<PluginResult> = seq![];
    assert(queued_infos(seq![]) =~= Seq::<Option<GeneratedFileInfo>>::empty());
    while j < plugins.len()
        invariant_except_break
            !stopped,
        invariant
            j <= plugins.len(),
            plugins@ == db.spec_macro_plugins(),
            results == plugins_prefix_results(plugins@, *item, j as nat),
            removed == removes_item(results),
            stopped == stops_plugins(results),
            diagnostics@ == start_diagnostics + results_outcome(*db, module_file_id, file, results).diagnostics,
            children_queued(*db, results_outcome(*db, module_file_id, file, results).children) matches Some(queued)
                && queue@ == start_queue + queued && infos@ == start_infos + queued_infos(queued),
        ensures
            stopped ==> j <= plugins.len(),
            !stopped ==> j == plugins.len(),
            results == plugins_prefix_results(plugins@, *item, j as nat),
            removed == removes_item(results),
            stopped == stops_plugins(results),
            diagnostics@ == start_diagnostics + results_outcome(*db, module_file_id, file, results).diagnostics,
            children_queued(*db, results_outcome(*db, module_file_id, file, results).children) matches Some(queued)
                && queue@ == start_queue + queued && infos@ == start_infos + queued_infos(queued),
        decreases plugins.len() - j,
    {
        let result = plugins[j].generate_code(item);
        let ghost before = results;
        let ghost before_out = results_outcome(*db, module_file_id, file, before);
        let ghost queued_before = children_queued(*db, before_out.children).unwrap();
        proof {
            results = results.push(result);
            assert(results.drop_last() =~= before);
        }
        proof {
            assert(results_outcome(*db, module_file_id, file, results) == concat_outcomes(
                before_out,
                FileOutcome {
                    diagnostics: result_diagnostics(module_file_id, result),
                    children: generated_child(*db, module_file_id, file, result),
                    entries: seq![],
                },
            ));
        }
        let PluginResult { code, diagnostics: result_diagnostics, remove_original_item } = result;
        push_diagnostics_at(diagnostics, module_file_id, result_diagnostics);
        if remove_original_item {
            removed = true;
        }
        if remove_original_item || code.is_some() {
            stopped = true;
        }
        match code {
            Some(generated) => {
                let new_file = db.intern_file(
                    FileLongId::Virtual(
                        VirtualFile {
                            parent: Some(file),
                            name: generated.name,
                            content: generated.content,
                            kind: FileKind::Module,
                        },
                    ),
                );
                let info = GeneratedFileInfo { aux_data: generated.aux_data, origin: module_file_id };
                infos.push(Some(info));
                proof {
                    let child = ChildFile { file: new_file, info };
                    assert(generated_child(*db, module_file_id, file, result) == seq![child]);
                    lemma_children_queued_concat(*db, before_out.children, seq![child]);
                    assert(seq![child].drop_last() =~= Seq::<ChildFile>::empty());
                }
                let syntax = match db.file_module_syntax(new_file) {
                    Ok(syntax) => syntax,
                    Err(e) => {
                        proof {
                            let all = plugins_results(plugins@, *item);
                            lemma_prefix_results_prefix(plugins@, *item, (j + 1) as nat, plugins@.len());
                            let rest = all.subrange(results.len() as int, all.len() as int);
                            assert(all =~= results + rest);
                            lemma_results_outcome_concat(*db, module_file_id, file, results, rest);
                            lemma_children_queued_concat(
                                *db,
                                results_outcome(*db, module_file_id, file, results).children,
                                results_outcome(*db, module_file_id, file, rest).children,
                            );
                        }
                        return Err(e);
                    },
                };
                let queued_file = QueuedFile { file: new_file, items: syntax, info: Some(info) };
                queue.push_back(queued_file);
                proof {
                    let child = ChildFile { file: new_file, info };
                    assert(child_queued(*db, child) == Some(queued_file));
                    assert(children_queued(*db, seq![child]) == Some(seq![queued_file])) by {
                        assert(seq![child].drop_last() =~= Seq::<ChildFile>::empty());
                        assert(children_queued(*db, Seq::<ChildFile>::empty()) == Some(Seq::<QueuedFile>::empty()));
                        assert(seq![queued_file] =~= Seq::<QueuedFile>::empty().push(queued_file));
                    }
                    assert(children_queued(*db, before_out.children + seq![child]) == Some(queued_before + seq![queued_file]));
                    assert(queued_before + seq![queued_file] =~= queued_before.push(queued_file));
                    assert(queued_infos(queued_before.push(queued_file)) =~= queued_infos(queued_before).push(Some(info)));
                    assert(start_queue + queued_before.push(queued_file) =~= (start_queue + queued_before).push(queued_file));
                    assert(start_infos + queued_infos(queued_before).push(Some(info)) =~= (start_infos + queued_infos(queued_before)).push(Some(info)));
                }
            },
            None => {
                proof {
                    assert(generated_child(*db, module_file_id, file, result) =~= Seq::<ChildFile>::empty());
                    assert(before_out.children + seq![] =~= before_out.children);
                    assert(children_queued(*db, results_outcome(*db, module_file_id, file, results).children) == Some(queued_before));
                }
            },
        }
        j = j + 1;
        if stopped {
            break;
        }
    }
    proof {
        if stopped {
            lemma_prefix_results_stop(plugins@, *item, j as nat, plugins@.len());
        }
    }
    Ok(removed)
}

/// The identifier of an item, as the module's list of items holds it.
pub open spec fn entry_item_id(entry: ItemEntry) -> ModuleItemId {
    match entry {
        ItemEntry::Named { kind, id, ast } => module_item_id(kind, id),
        ItemEntry::Submodule { id, ast } => ModuleItemId::Submodule(id),
        ItemEntry::Use { id, leaf } => ModuleItemId::Use(id),
    }
}

/// The map of named items of a kind that a list of entries makes, inserted in order.
pub open spec fn named_kind_map(entries: Seq<ItemEntry>, kind: ItemKind) -> Seq<(u64, NamedItemAst)>
    decreases entries.len(),
{
    if entries.len() == 0 {
        seq![]
    } else {
        let before = named_kind_map(entries.drop_last(), kind);
        match entries.last() {
            ItemEntry::Named { kind: k, id, ast } => if k == kind {
                entries_insert(before, id, ast)
            } else {
                before
            },
            _ => before,
        }
    }
}

/// The map of submodules that a list of entries makes, inserted in order.
pub open spec fn submodule_map(entries: Seq<ItemEntry>) -> Seq<(u64, ItemModuleAst)>
    decreases entries.len(),
{
    if entries.len() == 0 {
        seq![]
    } else {
        let before = submodule_map(entries.drop_last());
        match entries.last() {
            ItemEntry::Submodule { id, ast } => entries_insert(before, id, ast),
            _ => before,
        }
    }
}

/// The map of use leaves that a list of entries makes, inserted in order.
pub open spec fn use_map(entries: Seq<ItemEntry>) -> Seq<(u64, UsePathLeaf)>
    decreases entries.len(),
{
    if entries.len() == 0 {
        seq![]
    } else {
        let before = use_map(entries.drop_last());
        match entries.last() {
            ItemEntry::Use { id, leaf } => entries_insert(before, id, leaf),
            _ => before,
        }
    }
}

/// Whether items of a kind are held in a map of named items.
pub open spec fn is_named_kind(kind: ItemKind) -> bool {
    kind != ItemKind::Submodule && kind != ItemKind::Use
}

/// The map of a module's data that holds the named items of a kind.
pub open spec fn named_map_of(data: ModuleData, kind: ItemKind) -> Seq<(u64, NamedItemAst)> {
    match kind {
        ItemKind::Constant => named_item_entries(data.constants),
        ItemKind::FreeFunction => named_item_entries(data.free_functions),
        ItemKind::Struct => named_item_entries(data.structs),
        ItemKind::Enum => named_item_entries(data.enums),
        ItemKind::TypeAlias => named_item_entries(data.type_aliases),
        ItemKind::ImplAlias => named_item_entries(data.impl_aliases),
        ItemKind::Trait => named_item_entries(data.traits),
        ItemKind::Impl => named_item_entries(data.impls),
        ItemKind::ExternType => named_item_entries(data.extern_types),
        ItemKind::ExternFunction => named_item_entries(data.extern_functions),
        _ => seq![],
    }
}

/// Whether the maps of a module's data are the ones a list of entries makes.
pub open spec fn maps_match(data: ModuleData, entries: Seq<ItemEntry>) -> bool {
    &&& forall|kind: ItemKind| is_named_kind(kind) ==> #[trigger] named_map_of(data, kind) == named_kind_map(entries, kind)
    &&& module_item_entries(data.submodules) == submodule_map(entries)
    &&& use_leaf_entries(data.uses) == use_map(entries)
}

/// The identifier of the item of a kind.
fn make_item_id(kind: ItemKind, id: u64) -> (r: ModuleItemId)
    ensures
        r == module_item_id(kind, id),
{
    match kind {
        ItemKind::Constant => ModuleItemId::Constant(id),
        ItemKind::Submodule => ModuleItemId::Submodule(id),
        ItemKind::Use => ModuleItemId::Use(id),
        ItemKind::FreeFunction => ModuleItemId::FreeFunction(id),
        ItemKind::Struct => ModuleItemId::Struct(id),
        ItemKind::Enum => ModuleItemId::Enum(id),
        ItemKind::TypeAlias => ModuleItemId::TypeAlias(id),
        ItemKind::ImplAlias => ModuleItemId::ImplAlias(id),
        ItemKind::Trait => ModuleItemId::Trait(id),
        ItemKind::Impl => ModuleItemId::Impl(id),
        ItemKind::ExternType => ModuleItemId::ExternType(id),
        ItemKind::ExternFunction => ModuleItemId::ExternFunction(id),
    }
}

/// Adds a named item of a module file to the module's data.
fn register_named<D: DefsGroup>(
    db: &D,
    kind: ItemKind,
    ast: NamedItemAst,
    module_file_id: ModuleFileId,
    data: &mut ModuleData,
    items: &mut Vec<ModuleItemId>,
    Ghost(entries): Ghost<Seq<ItemEntry>>,
)
    requires
        is_named_kind(kind),
        maps_match(*old(data), entries),
    ensures
        maps_match(*final(data), entries + named_entry(*db, module_file_id, kind, ast)),
        final(items)@ == old(items)@ + named_entry(*db, module_file_id, kind, ast).map_values(|e: ItemEntry| entry_item_id(e)),
        final(data).files == old(data).files,
        final(data).generated_file_infos == old(data).generated_file_infos,
        final(data).plugin_diagnostics == old(data).plugin_diagnostics,
        final(data).items == old(data).items,
{
    let id = db.intern_item(kind, module_file_id, ast.stable_ptr);
    let ghost new_entries = entries + named_entry(*db, module_file_id, kind, ast);
    match kind {
        ItemKind::Constant => named_items_insert(&mut data.constants, id, ast),
        ItemKind::FreeFunction => named_items_insert(&mut data.free_functions, id, ast),
        ItemKind::Struct => named_items_insert(&mut data.structs, id, ast),
        ItemKind::Enum => named_items_insert(&mut data.enums, id, ast),
        ItemKind::TypeAlias => named_items_insert(&mut data.type_aliases, id, ast),
        ItemKind::ImplAlias => named_items_insert(&mut data.impl_aliases, id, ast),
        ItemKind::Trait => named_items_insert(&mut data.traits, id, ast),
        ItemKind::Impl => named_items_insert(&mut data.impls, id, ast),
        ItemKind::ExternType => named_items_insert(&mut data.extern_types, id, ast),
        ItemKind::ExternFunction => named_items_insert(&mut data.extern_functions, id, ast),
        _ => {},
    }
    let item_id = make_item_id(kind, id);
    items.push(item_id);
    proof {
        assert(new_entries.drop_last() =~= entries);
        assert forall|k: ItemKind| is_named_kind(k) implies #[trigger] named_map_of(*data, k) == named_kind_map(new_entries, k) by {
            assert(named_map_of(*old(data), k) == named_kind_map(entries, k));
        }
        assert(named_entry(*db, module_file_id, kind, ast).map_values(|e: ItemEntry| entry_item_id(e)) =~= seq![item_id]);
    }
}

/// Adds the entries of an item of a module file to the module's data: the item with its
/// identifier, or each leaf of a use item.
fn register_item<D: DefsGroup>(
    db: &D,
    item: ItemAst,
    module_file_id: ModuleFileId,
    data: &mut ModuleData,
    items: &mut Vec<ModuleItemId>,
    Ghost(entries): Ghost<Seq<ItemEntry>>,
)
    requires
        maps_match(*old(data), entries),
    ensures
        maps_match(*final(data), entries + item_entries(*db, module_file_id, item)),
        final(items)@ == old(items)@ + item_entries(*db, module_file_id, item).map_values(|e: ItemEntry| entry_item_id(e)),
        final(data).files == old(data).files,
        final(data).generated_file_infos == old(data).generated_file_infos,
        final(data).plugin_diagnostics == old(data).plugin_diagnostics,
        final(data).items == old(data).items,
{
    let ghost the_item = item;
    match item {
        ItemAst::Constant(ast) => {
            register_named(db, ItemKind::Constant, ast, module_file_id, data, items, Ghost(entries));
        },
        ItemAst::FreeFunction(ast) => {
            register_named(db, ItemKind::FreeFunction, ast, module_file_id, data, items, Ghost(entries));
        },
        ItemAst::ExternFunction(ast) => {
            register_named(db, ItemKind::ExternFunction, ast, module_file_id, data, items, Ghost(entries));
        },
        ItemAst::ExternType(ast) => {
            register_named(db, ItemKind::ExternType, ast, module_file_id, data, items, Ghost(entries));
        },
        ItemAst::Trait(ast) => {
            register_named(db, ItemKind::Trait, ast, module_file_id, data, items, Ghost(entries));
        },
        ItemAst::Impl(ast) => {
            register_named(db, ItemKind::Impl, ast, module_file_id, data, items, Ghost(entries));
        },
        ItemAst::ImplAlias(ast) => {
            register_named(db, ItemKind::ImplAlias, ast, module_file_id, data, items, Ghost(entries));
        },
        ItemAst::Struct(ast) => {
            register_named(db, ItemKind::Struct, ast, module_file_id, data, items, Ghost(entries));
        },
        ItemAst::Enum(ast) => {
            register_named(db, ItemKind::Enum, ast, module_file_id, data, items, Ghost(entries));
        },
        ItemAst::TypeAlias(ast) => {
            register_named(db, ItemKind::TypeAlias, ast, module_file_id, data, items, Ghost(entries));
        },
        ItemAst::Module(ast) => {
            let id = db.intern_item(ItemKind::Submodule, module_file_id, ast.stable_ptr);
            let ghost new_entries = entries + item_entries(*db, module_file_id, the_item);
            module_items_insert(&mut data.submodules, id, ast);
            items.push(ModuleItemId::Submodule(id));
            proof {
                assert(new_entries.drop_last() =~= entries);
                assert forall|k: ItemKind| is_named_kind(k) implies #[trigger] named_map_of(*data, k) == named_kind_map(new_entries, k) by {
                    assert(named_map_of(*old(data), k) == named_kind_map(entries, k));
                }
                assert(item_entries(*db, module_file_id, the_item).map_values(|e: ItemEntry| entry_item_id(e)) =~= seq![ModuleItemId::Submodule(id)]);
            }
        },
        ItemAst::Use(use_item) => {
            let leaves = get_all_path_leafs(&use_item.use_path);
            let ghost start_items = items@;
            let ghost leaf_entries = leaves@.map_values(|leaf: UsePathLeaf| use_entry(*db, module_file_id, leaf));
            let mut i: usize = 0;
            assert(entries + leaf_entries.take(0) =~= entries);
            assert(leaf_entries.take(0).map_values(|e: ItemEntry| entry_item_id(e)) =~= Seq::<ModuleItemId>::empty());
            while i < leaves.len()
                invariant
                    i <= leaves.len(),
                    leaf_entries == leaves@.map_values(|leaf: UsePathLeaf| use_entry(*db, module_file_id, leaf)),
                    maps_match(*data, entries + leaf_entries.take(i as int)),
                    items@ == start_items + leaf_entries.take(i as int).map_values(|e: ItemEntry| entry_item_id(e)),
                    data.files == old(data).files,
                    data.generated_file_infos == old(data).generated_file_infos,
                    data.plugin_diagnostics == old(data).plugin_diagnostics,
                    data.items == old(data).items,
                decreases leaves.len() - i,
            {
                let leaf = leaves[i];
                let id = db.intern_item(ItemKind::Use, module_file_id, leaf.stable_ptr);
                let ghost before = *data;
                use_leaves_insert(&mut data.uses, id, leaf);
                items.push(ModuleItemId::Use(id));
                proof {
                    let prev = entries + leaf_entries.take(i as int);
                    let next = entries + leaf_entries.take(i + 1);
                    assert(leaf_entries[i as int] == ItemEntry::Use { id, leaf });
                    assert(next.drop_last() =~= prev);
                    assert(next.last() == ItemEntry::Use { id, leaf });
                    assert forall|k: ItemKind| is_named_kind(k) implies #[trigger] named_map_of(*data, k) == named_kind_map(next, k) by {
                        assert(named_map_of(before, k) == named_kind_map(prev, k));
                    }
                    assert(leaf_entries.take(i + 1).map_values(|e: ItemEntry| entry_item_id(e)) =~= leaf_entries.take(i as int).map_values(
                        |e: ItemEntry| entry_item_id(e),
                    ).push(ModuleItemId::Use(id)));
                }
                i = i + 1;
            }
            assert(leaf_entries.take(i as int) =~= leaf_entries);
        },
        ItemAst::Missing => {
            assert(entries + seq![] =~= entries);
            assert(Seq::<ItemEntry>::empty().map_values(|e: ItemEntry| entry_item_id(e)) =~= Seq::<ModuleItemId>::empty());
            assert(items@ + seq![] =~= items@);
        },
    }
}

/// Whether two module data hold the same maps are the maps match the same entries.
proof fn lemma_maps_match_frame(a: ModuleData, b: ModuleData, entries: Seq<ItemEntry>)
    requires
        maps_match(a, entries),
        a.constants == b.constants,
        a.submodules == b.submodules,
        a.uses == b.uses,
        a.free_functions == b.free_functions,
        a.structs == b.structs,
        a.enums == b.enums,
        a.type_aliases == b.type_aliases,
        a.impl_aliases == b.impl_aliases,
        a.traits == b.traits,
        a.impls == b.impls,
        a.extern_types == b.extern_types,
        a.extern_functions == b.extern_functions,
    ensures
        maps_match(b, entries),
{
    assert forall|kind: ItemKind| is_named_kind(kind) implies #[trigger] named_map_of(b, kind) == named_kind_map(entries, kind) by {
        assert(named_map_of(a, kind) == named_kind_map(entries, kind));
    }
}

/// Once a generated file does not parse, the expansion stays failed.
proof fn lemma_discovered_failed<D: DefsGroup>(db: D, module_id: ModuleId, start: QueuedFile, count: nat, more: nat)
    requires
        discovered_files(db, module_id, start, count) is None,
        count <= more,
    ensures
        discovered_files(db, module_id, start, more) is None,
    decreases more - count,
{
    if count < more {
        lemma_discovered_failed(db, module_id, start, count, (more - 1) as nat);
    }
}

/// Once every discovered file is processed, no more files are discovered.
proof fn lemma_discovered_settled<D: DefsGroup>(db: D, module_id: ModuleId, start: QueuedFile, count: nat, more: nat)
    requires
        discovered_files(db, module_id, start, count) matches Some(files) && files.len() <= count,
        count <= more,
    ensures
        discovered_files(db, module_id, start, more) == discovered_files(db, module_id, start, count),
    decreases more - count,
{
    if count < more {
        lemma_discovered_settled(db, module_id, start, count, (more - 1) as nat);
    }
}

/// What processing the first files gives depends only on those files.
proof fn lemma_files_outcome_prefix<D: DefsGroup>(
    db: D,
    module_id: ModuleId,
    a: Seq<QueuedFile>,
    b: Seq<QueuedFile>,
    count: nat,
)
    requires
        count <= a.len(),
        count <= b.len(),
        forall|i: int| 0 <= i < count ==> a[i] == b[i],
    ensures
        files_outcome(db, module_id, a, count) == files_outcome(db, module_id, b, count),
    decreases count,
{
    if count > 0 {
        lemma_files_outcome_prefix(db, module_id, a, b, (count - 1) as nat);
        assert(a[count - 1] == b[count - 1]);
    }
}

/// What processing a list of items gives is what processing each part gives, in turn.
proof fn lemma_file_outcome_concat<D: DefsGroup>(
    db: D,
    module_file_id: ModuleFileId,
    file: FileId,
    a: Seq<ItemAst>,
    b: Seq<ItemAst>,
)
    ensures
        file_outcome(db, module_file_id, file, a + b) == concat_outcomes(
            file_outcome(db, module_file_id, file, a),
            file_outcome(db, module_file_id, file, b),
        ),
    decreases b.len(),
{
    if b.len() == 0 {
        assert(a + b =~= a);
        let o = file_outcome(db, module_file_id, file, a);
        assert(o.diagnostics + seq![] =~= o.diagnostics);
        assert(o.children + seq![] =~= o.children);
        assert(o.entries + seq![] =~= o.entries);
    } else {
        lemma_file_outcome_concat(db, module_file_id, file, a, b.drop_last());
        assert((a + b).drop_last() =~= a + b.drop_last());
        let oa = file_outcome(db, module_file_id, file, a);
        let ob = file_outcome(db, module_file_id, file, b.drop_last());
        let oi = item_outcome(db, module_file_id, file, b.last());
        assert(oa.diagnostics + ob.diagnostics + oi.diagnostics =~= oa.diagnostics + (ob.diagnostics + oi.diagnostics));
        assert(oa.children + ob.children + oi.children =~= oa.children + (ob.children + oi.children));
        assert(oa.entries + ob.entries + oi.entries =~= oa.entries + (ob.entries + oi.entries));
    }
}

/// The first file a module is expanded from: its main file, with the items of its body
/// for an inline submodule (and the generation info of the file it stands in), else the
/// items of the main file.
pub open spec fn module_start<D: DefsGroup>(db: D, module_id: ModuleId) -> Maybe<QueuedFile> {
    match db.spec_module_main_file(module_id) {
        Err(e) => Err(e),
        Ok(main_file) => match db.spec_file_module_syntax(main_file) {
            Err(e) => Err(e),
            Ok(syntax) => match module_id {
                ModuleId::CrateRoot(_) => Ok(QueuedFile { file: main_file, items: syntax, info: None }),
                ModuleId::Submodule(id) => match db.spec_priv_module_data(parent_module(db, id)) {
                    Err(e) => Err(e),
                    Ok(parent) => match entries_get(module_item_entries(parent.submodules), id) {
                        None => Err(DiagnosticAdded),
                        Some(ast) => match ast.body {
                            Some(body) => Ok(
                                QueuedFile {
                                    file: main_file,
                                    items: body,
                                    info: parent.generated_file_infos@[db.spec_submodule_module_file(id).1.0 as int],
                                },
                            ),
                            None => Ok(QueuedFile { file: main_file, items: syntax, info: None }),
                        },
                    },
                },
            },
        },
    }
}

/// Whether a submodule's parent, where it has data, declares it, and an inline submodule
/// stands in one of its parent's files.
pub open spec fn module_start_defined<D: DefsGroup>(db: D, module_id: ModuleId) -> bool {
    match module_id {
        ModuleId::CrateRoot(_) => true,
        ModuleId::Submodule(id) => match db.spec_priv_module_data(parent_module(db, id)) {
            Err(_) => true,
            Ok(parent) => match entries_get(module_item_entries(parent.submodules), id) {
                None => false,
                Some(ast) => ast.body is Some ==> db.spec_submodule_module_file(id).1.0 < parent.generated_file_infos@.len(),
            },
        },
    }
}

/// Whether a module's data is what expanding it gives, for the files it was expanded into.
pub open spec fn module_data_matches<D: DefsGroup>(db: D, module_id: ModuleId, data: ModuleData, files: Seq<QueuedFile>) -> bool {
    let out = files_outcome(db, module_id, files, files.len());
    &&& data.files@ == files.map_values(|q: QueuedFile| q.file)
    &&& data.generated_file_infos@ == queued_infos(files)
    &&& data.plugin_diagnostics@ == out.diagnostics
    &&& data.items@ == out.entries.map_values(|e: ItemEntry| entry_item_id(e))
    &&& maps_match(data, out.entries)
}

/// The data of a module: expanded from its first file, where that and every generated
/// file parse.
pub open spec fn module_data_of<D: DefsGroup>(db: D, module_id: ModuleId) -> Option<Seq<QueuedFile>> {
    match module_start(db, module_id) {
        Err(_) => None,
        Ok(start) => discovered_files(db, module_id, start, expansion_bound(db, module_id, start)),
    }
}

/// Computes the data of a module: its files and the items it holds, after the macro
/// plugins ran on each item.
pub fn priv_module_data<D: DefsGroup>(db: &D, module_id: ModuleId) -> (r: Maybe<ModuleData>)
    requires
        module_start_defined(*db, module_id),
        module_start(*db, module_id) matches Ok(start) ==> expansion_ends(*db, module_id, start),
    ensures
        match module_data_of(*db, module_id) {
            None => r is Err,
            Some(files) => r matches Ok(data) && module_data_matches(*db, module_id, data, files),
        },
{
    let module_file = db.module_main_file(module_id)?;
    let file_syntax = db.file_module_syntax(module_file)?;
    let mut main_file_info: Option<GeneratedFileInfo> = None;
    let item_asts = match module_id {
        ModuleId::CrateRoot(_) => file_syntax,
        ModuleId::Submodule(submodule_id) => {
            let mut parent_module_data = db.priv_module_data(db.submodule_module_file(submodule_id).0)?;
            let item_module_ast = match module_items_remove(&mut parent_module_data.submodules, submodule_id) {
                Some(item) => item,
                None => return Err(DiagnosticAdded),
            };
            match item_module_ast.body {
                Some(body) => {
                    // An inline module: it takes the generation info of the file of its
                    // parent in which it is defined.
                    let file_index = db.submodule_module_file(submodule_id).1;
                    main_file_info = parent_module_data.generated_file_infos[file_index.0];
                    body
                },
                None => file_syntax,
            }
        },
    };
    let ghost start = QueuedFile { file: module_file, items: item_asts, info: main_file_info };
    assert(module_start(*db, module_id) == Ok::<QueuedFile, DiagnosticAdded>(start));
    let ghost bound = expansion_bound(*db, module_id, start);

    let mut module_queue: VecDeque<QueuedFile> = VecDeque::new();
    module_queue.push_back(QueuedFile { file: module_file, items: item_asts, info: main_file_info });
    let mut res = ModuleData {
        items: Arc::new(Vec::new()),
        constants: named_items_new(),
        submodules: module_items_new(),
        uses: use_leaves_new(),
        free_functions: named_items_new(),
        structs: named_items_new(),
        enums: named_items_new(),
        type_aliases: named_items_new(),
        impl_aliases: named_items_new(),
        traits: named_items_new(),
        impls: named_items_new(),
        extern_types: named_items_new(),
        extern_functions: named_items_new(),
        files: Vec::new(),
        generated_file_infos: Vec::new(),
        plugin_diagnostics: Vec::new(),
    };
    let mut items: Vec<ModuleItemId> = Vec::new();
    res.generated_file_infos.push(main_file_info);
    let ghost mut all: Seq<QueuedFile> = seq![start];
    proof {
        assert(module_queue@ =~= all.skip(0));
        assert(res.files@ =~= all.take(0).map_values(|q: QueuedFile| q.file));
        assert(res.generated_file_infos@ =~= queued_infos(all));
        assert(forall|kind: ItemKind| is_named_kind(kind) ==> #[trigger] named_map_of(res, kind) == named_kind_map(seq![], kind));
        assert(items@ =~= Seq::<ItemEntry>::empty().map_values(|e: ItemEntry| entry_item_id(e)));
        assert(res.plugin_diagnostics@ =~= Seq::<(ModuleFileId, PluginDiagnostic)>::empty());
        assert(expansion_over(*db, module_id, start, bound));
        if bound == 0 {
            assert(discovered_files(*db, module_id, start, 0) == Some(seq![start]));
        }
    }
    while module_queue.len() > 0
        invariant
            module_start(*db, module_id) == Ok::<QueuedFile, DiagnosticAdded>(start),
            bound == expansion_bound(*db, module_id, start),
            res.files@.len() <= bound,
            res.files@.len() <= all.len(),
            expansion_over(*db, module_id, start, bound),
            discovered_files(*db, module_id, start, res.files@.len() as nat) == Some(all),
            module_queue@ == all.skip(res.files@.len() as int),
            res.files@ == all.take(res.files@.len() as int).map_values(|q: QueuedFile| q.file),
            res.generated_file_infos@ == queued_infos(all),
            res.plugin_diagnostics@ == files_outcome(*db, module_id, all, res.files@.len() as nat).diagnostics,
            items@ == files_outcome(*db, module_id, all, res.files@.len() as nat).entries.map_values(|e: ItemEntry| entry_item_id(e)),
            maps_match(res, files_outcome(*db, module_id, all, res.files@.len() as nat).entries),
        decreases bound - res.files@.len(),
    {
        let ghost k = res.files@.len();
        proof {
            assert(k < all.len());
            if k == bound {
                assert(!expansion_over(*db, module_id, start, bound));
            }
        }
        let queued = module_queue.pop_front().unwrap();
        let QueuedFile { file, items: file_items, info: _ } = queued;
        let file_index = FileIndex(res.files.len());
        let module_file_id = ModuleFileId(module_id, file_index);
        let ghost res_before = res;
        res.files.push(file);
        assert(module_file_id == module_file_at(module_id, k as int));
        proof {
            lemma_maps_match_frame(res_before, res, files_outcome(*db, module_id, all, k as nat).entries);
            assert(all.take(k + 1int).map_values(|q: QueuedFile| q.file) =~= all.take(k as int).map_values(|q: QueuedFile| q.file).push(file));
        }

        let ghost fitems = file_items@;
        assert(fitems.len() == file_items.len());
        let ghost out = files_outcome(*db, module_id, all, k as nat);
        let mut rest = file_items;
        let mut i: usize = 0;
        let ghost mut queued_children: Seq<QueuedFile> = seq![];
        proof {
            assert(fitems.take(0) =~= Seq::<ItemAst>::empty());
            assert(file_outcome(*db, module_file_id, file, fitems.take(0)) == empty_outcome());
            assert(out.diagnostics + seq![] =~= out.diagnostics);
            assert(out.entries + seq![] =~= out.entries);
            assert(all + seq![] =~= all);
            assert(module_queue@ =~= all.skip(k + 1int) + seq![]);
        }
        while rest.len() > 0
            invariant
                i <= fitems.len(),
                fitems.len() <= usize::MAX,
                rest@ == fitems.skip(i as int),
                res.files@.len() == k + 1,
                k < all.len(),
                k + 1 <= bound,
                module_start(*db, module_id) == Ok::<QueuedFile, DiagnosticAdded>(start),
                bound == expansion_bound(*db, module_id, start),
                all[k as int].file == file,
                all[k as int].items@ == fitems,
                discovered_files(*db, module_id, start, k as nat) == Some(all),
                module_file_id == module_file_at(module_id, k as int),
                out == files_outcome(*db, module_id, all, k as nat),
                res.files@ == all.take(k + 1int).map_values(|q: QueuedFile| q.file),
                children_queued(*db, file_outcome(*db, module_file_id, file, fitems.take(i as int)).children) == Some(queued_children),
                module_queue@ == all.skip(k + 1int) + queued_children,
                res.generated_file_infos@ == queued_infos(all + queued_children),
                res.plugin_diagnostics@ == out.diagnostics + file_outcome(*db, module_file_id, file, fitems.take(i as int)).diagnostics,
                items@ == (out.entries + file_outcome(*db, module_file_id, file, fitems.take(i as int)).entries).map_values(|e: ItemEntry| entry_item_id(e)),
                maps_match(res, out.entries + file_outcome(*db, module_file_id, file, fitems.take(i as int)).entries),
            decreases rest.len(),
        {
            let item_ast = rest.remove(0);
            assert(item_ast == fitems[i as int]);
            let ghost before_items = fitems.take(i as int);
            let ghost fo = file_outcome(*db, module_file_id, file, before_items);
            let ghost io = item_outcome(*db, module_file_id, file, item_ast);
            proof {
                assert(fitems.take(i + 1).drop_last() =~= before_items);
                assert(file_outcome(*db, module_file_id, file, fitems.take(i + 1)) == concat_outcomes(fo, io));
                lemma_children_queued_concat(*db, fo.children, io.children);
            }
            let ghost queue_before = module_queue@;
            let ghost res_mid = res;
            let ghost infos_before = res.generated_file_infos@;
            let removed = match run_item_plugins(
                db,
                &item_ast,
                module_file_id,
                file,
                &mut res.plugin_diagnostics,
                &mut res.generated_file_infos,
                &mut module_queue,
            ) {
                Ok(removed) => removed,
                Err(e) => {
                    proof {
                        let after = fitems.skip(i + 1);
                        assert(fitems =~= fitems.take(i + 1) + after);
                        lemma_file_outcome_concat(*db, module_file_id, file, fitems.take(i + 1), after);
                        lemma_children_queued_concat(
                            *db,
                            file_outcome(*db, module_file_id, file, fitems.take(i + 1)).children,
                            file_outcome(*db, module_file_id, file, after).children,
                        );
                        assert(discovered_files(*db, module_id, start, (k + 1) as nat) is None);
                        lemma_discovered_failed(*db, module_id, start, (k + 1) as nat, bound);
                    }
                    return Err(e);
                },
            };
            let ghost q_item = children_queued(*db, io.children).unwrap();
            proof {
                lemma_maps_match_frame(res_mid, res, out.entries + fo.entries);
                queued_children = queued_children + q_item;
                assert(module_queue@ =~= all.skip(k + 1int) + queued_children);
                assert(queued_infos(all + queued_children) =~= infos_before + queued_infos(q_item));
            }
            if !removed {
                register_item(
                    db,
                    item_ast,
                    module_file_id,
                    &mut res,
                    &mut items,
                    Ghost(out.entries + fo.entries),
                );
            }
            proof {
                assert(out.diagnostics + (fo.diagnostics + io.diagnostics) =~= out.diagnostics + fo.diagnostics + io.diagnostics);
                assert(out.entries + (fo.entries + io.entries) =~= out.entries + fo.entries + io.entries);
                if removed {
                    assert(io.entries =~= Seq::<ItemEntry>::empty());
                    assert(out.entries + fo.entries + io.entries =~= out.entries + fo.entries);
                }
                assert((out.entries + fo.entries + io.entries).map_values(|e: ItemEntry| entry_item_id(e)) =~= (out.entries + fo.entries).map_values(
                    |e: ItemEntry| entry_item_id(e),
                ) + io.entries.map_values(|e: ItemEntry| entry_item_id(e)));
                assert(rest@ =~= fitems.skip(i + 1));
            }
            i = i + 1;
        }
        proof {
            assert(fitems.take(i as int) =~= fitems);
            assert(all[k as int].items@ == fitems);
            assert(all[k as int].file == file);
            let next = all + queued_children;
            assert(discovered_files(*db, module_id, start, (k + 1) as nat) == Some(next));
            lemma_files_outcome_prefix(*db, module_id, all, next, k as nat);
            assert(next[k as int] == all[k as int]);
            assert(files_outcome(*db, module_id, next, (k + 1) as nat) == concat_outcomes(out, file_outcome(*db, module_file_id, file, fitems)));
            assert(res.files@ =~= next.take(k + 1int).map_values(|q: QueuedFile| q.file));
            assert(module_queue@ =~= next.skip(k + 1int));
            all = next;
        }
    }
    proof {
        let k = res.files@.len();
        assert(all.len() <= k) by {
            assert(module_queue@.len() == 0);
        }
        lemma_discovered_settled(*db, module_id, start, k as nat, bound);
        assert(all.take(k as int) =~= all);
    }
    let ghost res_before = res;
    res.items = Arc::new(items);
    proof {
        lemma_maps_match_frame(res_before, res, files_outcome(*db, module_id, all, all.len()).entries);
    }
    Ok(res)
}

/// Whether the diagnostics and generated files of an outcome all stand at a module file.
pub open spec fn outcome_at(out: FileOutcome, module_file_id: ModuleFileId) -> bool {
    &&& forall|j: int| 0 <= j < out.diagnostics.len() ==> (#[trigger] out.diagnostics[j]).0 == module_file_id
    &&& forall|j: int| 0 <= j < out.children.len() ==> (#[trigger] out.children[j]).info.origin == module_file_id
}

proof fn lemma_results_outcome_at<D: DefsGroup>(
    db: D,
    module_file_id: ModuleFileId,
    file: FileId,
    results: Seq<PluginResult>,
)
    ensures
        outcome_at(results_outcome(db, module_file_id, file, results), module_file_id),
    decreases results.len(),
{
    if results.len() > 0 {
        lemma_results_outcome_at(db, module_file_id, file, results.drop_last());
        let before = results_outcome(db, module_file_id, file, results.drop_last());
        let d = result_diagnostics(module_file_id, results.last());
        let c = generated_child(db, module_file_id, file, results.last());
        assert forall|j: int| 0 <= j < (before.diagnostics + d).len() implies (#[trigger] (before.diagnostics + d)[j]).0 == module_file_id by {
            if j >= before.diagnostics.len() {
                assert((before.diagnostics + d)[j] == d[j - before.diagnostics.len()]);
            }
        }
        assert forall|j: int| 0 <= j < (before.children + c).len() implies (#[trigger] (before.children + c)[j]).info.origin == module_file_id by {
            if j >= before.children.len() {
                assert((before.children + c)[j] == c[j - before.children.len()]);
            }
        }
    }
}

proof fn lemma_file_outcome_at<D: DefsGroup>(
    db: D,
    module_file_id: ModuleFileId,
    file: FileId,
    items: Seq<ItemAst>,
)
    ensures
        outcome_at(file_outcome(db, module_file_id, file, items), module_file_id),
    decreases items.len(),
{
    if items.len() > 0 {
        lemma_file_outcome_at(db, module_file_id, file, items.drop_last());
        lemma_results_outcome_at(db, module_file_id, file, plugins_results(db.spec_macro_plugins(), items.last()));
        let a = file_outcome(db, module_file_id, file, items.drop_last());
        let b = item_outcome(db, module_file_id, file, items.last());
        assert forall|j: int| 0 <= j < (a.diagnostics + b.diagnostics).len() implies (#[trigger] (a.diagnostics + b.diagnostics)[j]).0 == module_file_id by {
            if j >= a.diagnostics.len() {
                assert((a.diagnostics + b.diagnostics)[j] == b.diagnostics[j - a.diagnostics.len()]);
            }
        }
        assert forall|j: int| 0 <= j < (a.children + b.children).len() implies (#[trigger] (a.children + b.children)[j]).info.origin == module_file_id by {
            if j >= a.children.len() {
                assert((a.children + b.children)[j] == b.children[j - a.children.len()]);
            }
        }
    }
}

/// Queued generated files are the generated files, with their generation infos.
proof fn lemma_children_queued_infos<D: DefsGroup>(db: D, children: Seq<ChildFile>)
    requires
        children_queued(db, children) is Some,
    ensures
        children_queued(db, children).unwrap().len() == children.len(),
        forall|j: int| 0 <= j < children.len() ==> (#[trigger] children_queued(db, children).unwrap()[j]).info == Some(children[j].info),
        forall|j: int| 0 <= j < children.len() ==> (#[trigger] children_queued(db, children).unwrap()[j]).file == children[j].file,
    decreases children.len(),
{
    if children.len() > 0 {
        lemma_children_queued_infos(db, children.drop_last());
    }
}

/// Whether a file is the interning of a virtual module file generated in a parent file.
pub open spec fn virtual_child_of<D: DefsGroup>(db: D, file: FileId, parent: FileId) -> bool {
    exists|vf: VirtualFile| file == #[trigger] db.spec_intern_file(FileLongId::Virtual(vf))
        && vf.parent == Some(parent) && vf.kind == FileKind::Module
}

/// The files that plugins generate in a file are virtual module files with that parent.
proof fn lemma_results_children_virtual<D: DefsGroup>(
    db: D,
    module_file_id: ModuleFileId,
    file: FileId,
    results: Seq<PluginResult>,
)
    ensures
        forall|j: int| 0 <= j < results_outcome(db, module_file_id, file, results).children.len() ==>
            virtual_child_of(db, (#[trigger] results_outcome(db, module_file_id, file, results).children[j]).file, file),
    decreases results.len(),
{
    if results.len() > 0 {
        lemma_results_children_virtual(db, module_file_id, file, results.drop_last());
        let before = results_outcome(db, module_file_id, file, results.drop_last()).children;
        let c = generated_child(db, module_file_id, file, results.last());
        assert forall|j: int| 0 <= j < (before + c).len() implies virtual_child_of(db, (#[trigger] (before + c)[j]).file, file) by {
            if j < before.len() {
                assert((before + c)[j] == before[j]);
            } else {
                assert((before + c)[j] == c[j - before.len()]);
                let generated = results.last().code.unwrap();
                let vf = VirtualFile {
                    parent: Some(file),
                    name: generated.name,
                    content: generated.content,
                    kind: FileKind::Module,
                };
                assert(c[j - before.len()].file == db.spec_intern_file(FileLongId::Virtual(vf)));
            }
        }
    }
}

/// The files that plugins generate while processing a file's items are virtual module
/// files with that parent.
proof fn lemma_file_children_virtual<D: DefsGroup>(
    db: D,
    module_file_id: ModuleFileId,
    file: FileId,
    items: Seq<ItemAst>,
)
    ensures
        forall|j: int| 0 <= j < file_outcome(db, module_file_id, file, items).children.len() ==>
            virtual_child_of(db, (#[trigger] file_outcome(db, module_file_id, file, items).children[j]).file, file),
    decreases items.len(),
{
    if items.len() > 0 {
        lemma_file_children_virtual(db, module_file_id, file, items.drop_last());
        lemma_results_children_virtual(db, module_file_id, file, plugins_results(db.spec_macro_plugins(), items.last()));
        let a = file_outcome(db, module_file_id, file, items.drop_last()).children;
        let b = item_outcome(db, module_file_id, file, items.last()).children;
        assert forall|j: int| 0 <= j < (a + b).len() implies virtual_child_of(db, (#[trigger] (a + b)[j]).file, file) by {
            if j < a.len() {
                assert((a + b)[j] == a[j]);
            } else {
                assert((a + b)[j] == b[j - a.len()]);
            }
        }
    }
}

/// Whether a queued file after the first was generated in an earlier file of the module,
/// as a virtual module file whose parent is that earlier file.
pub open spec fn generated_from<D: DefsGroup>(db: D, module_id: ModuleId, files: Seq<QueuedFile>, i: int) -> bool {
    files[i].info matches Some(info) && (exists|j: int| 0 <= j < i && info.origin == module_file_at(module_id, j)
        && #[trigger] virtual_child_of(db, files[i].file, files[j].file))
}

/// The discovered files after the first were each generated in an earlier one, as virtual
/// module files whose parent is that earlier file.
proof fn lemma_discovered_generated<D: DefsGroup>(db: D, module_id: ModuleId, start: QueuedFile, count: nat)
    requires
        discovered_files(db, module_id, start, count) is Some,
    ensures
        forall|i: int| 1 <= i < discovered_files(db, module_id, start, count).unwrap().len()
            ==> generated_from(db, module_id, discovered_files(db, module_id, start, count).unwrap(), i),
    decreases count,
{
    if count > 0 {
        lemma_discovered_generated(db, module_id, start, (count - 1) as nat);
        let files = discovered_files(db, module_id, start, (count - 1) as nat).unwrap();
        if count - 1 < files.len() {
            let f = files[count - 1];
            let mfid = module_file_at(module_id, count - 1);
            let children = file_outcome(db, mfid, f.file, f.items@).children;
            lemma_file_outcome_at(db, mfid, f.file, f.items@);
            lemma_file_children_virtual(db, mfid, f.file, f.items@);
            lemma_children_queued_infos(db, children);
            let queued = children_queued(db, children).unwrap();
            let next = files + queued;
            assert forall|i: int| 1 <= i < next.len() implies generated_from(db, module_id, next, i) by {
                if i < files.len() {
                    assert(generated_from(db, module_id, files, i));
                    assert(next[i] == files[i]);
                    let info = files[i].info.unwrap();
                    let j = choose|j: int| 0 <= j < i && info.origin == module_file_at(module_id, j)
                        && #[trigger] virtual_child_of(db, files[i].file, files[j].file);
                    assert(next[j] == files[j]);
                } else {
                    let c = i - files.len();
                    assert(next[i] == queued[c]);
                    assert(queued[c].info == Some(children[c].info));
                    assert(queued[c].file == children[c].file);
                    assert(children[c].info.origin == mfid);
                    assert(virtual_child_of(db, children[c].file, f.file));
                    assert(next[count - 1] == f);
                }
            }
        }
    }
}

/// Whether a queued file after the first was generated in an earlier file of the module.
pub open spec fn generated_earlier(module_id: ModuleId, files: Seq<QueuedFile>, i: int) -> bool {
    files[i].info matches Some(info) && (exists|j: int| 0 <= j < i && info.origin == module_file_at(module_id, j))
}

/// The discovered files start with the first file, and each one after it was generated in
/// an earlier file of the module.
proof fn lemma_discovered_origins<D: DefsGroup>(db: D, module_id: ModuleId, start: QueuedFile, count: nat)
    requires
        discovered_files(db, module_id, start, count) is Some,
    ensures
        discovered_files(db, module_id, start, count).unwrap().len() >= 1,
        discovered_files(db, module_id, start, count).unwrap()[0] == start,
        forall|i: int| 1 <= i < discovered_files(db, module_id, start, count).unwrap().len()
            ==> generated_earlier(module_id, discovered_files(db, module_id, start, count).unwrap(), i),
    decreases count,
{
    if count > 0 {
        lemma_discovered_origins(db, module_id, start, (count - 1) as nat);
        let files = discovered_files(db, module_id, start, (count - 1) as nat).unwrap();
        if count - 1 < files.len() {
            let f = files[count - 1];
            let mfid = module_file_at(module_id, count - 1);
            let children = file_outcome(db, mfid, f.file, f.items@).children;
            lemma_file_outcome_at(db, mfid, f.file, f.items@);
            lemma_children_queued_infos(db, children);
            let queued = children_queued(db, children).unwrap();
            let next = files + queued;
            assert forall|i: int| 1 <= i < next.len() implies generated_earlier(module_id, next, i) by {
                if i < files.len() {
                    assert(generated_earlier(module_id, files, i));
                    assert(next[i] == files[i]);
                } else {
                    let c = i - files.len();
                    assert(next[i] == queued[c]);
                    assert(queued[c].info == Some(children[c].info));
                    assert(children[c].info.origin == mfid);
                }
            }
        }
    }
}

/// What processing files gives stands at those files.
proof fn lemma_files_outcome_at<D: DefsGroup>(db: D, module_id: ModuleId, files: Seq<QueuedFile>, count: nat)
    requires
        count <= files.len(),
    ensures
        forall|j: int| 0 <= j < files_outcome(db, module_id, files, count).diagnostics.len()
            ==> exists|i: int| 0 <= i < count && (#[trigger] files_outcome(db, module_id, files, count).diagnostics[j]).0 == module_file_at(module_id, i),
    decreases count,
{
    if count > 0 {
        lemma_files_outcome_at(db, module_id, files, (count - 1) as nat);
        let mfid = module_file_at(module_id, count - 1);
        lemma_file_outcome_at(db, mfid, files[count - 1].file, files[count - 1].items@);
        let a = files_outcome(db, module_id, files, (count - 1) as nat).diagnostics;
        let b = file_outcome(db, mfid, files[count - 1].file, files[count - 1].items@).diagnostics;
        assert forall|j: int| 0 <= j < (a + b).len() implies exists|i: int| 0 <= i < count && (#[trigger] (a + b)[j]).0 == module_file_at(module_id, i) by {
            if j < a.len() {
                assert((a + b)[j] == a[j]);
                let i = choose|i: int| 0 <= i < count - 1 && a[j].0 == module_file_at(module_id, i);
            } else {
                assert((a + b)[j] == b[j - a.len()]);
            }
        }
    }
}

/// A module's files and their generation infos go together; its first file is its main
/// file, whose info is none for a crate root or a module in a file of its own, and the
/// info of the parent's file in which it stands for an inline module; the other files
/// were generated by plugins in earlier files of the module (so they have generation
/// infos), as virtual module files whose parent is the file they were generated in; every
/// plugin diagnostic stands at a file of the module.
pub proof fn lemma_module_data_files<D: DefsGroup>(db: D, module_id: ModuleId, data: ModuleData, files: Seq<QueuedFile>)
    requires
        module_data_of(db, module_id) == Some(files),
        module_data_matches(db, module_id, data, files),
    ensures
        data.files@.len() == data.generated_file_infos@.len(),
        data.files@.len() >= 1,
        db.spec_module_main_file(module_id) == Ok::<FileId, DiagnosticAdded>(data.files@[0]),
        module_id is CrateRoot ==> data.generated_file_infos@[0] is None,
        module_id matches ModuleId::Submodule(id) ==> {
            &&& db.spec_priv_module_data(parent_module(db, id)) matches Ok(parent)
            &&& entries_get(module_item_entries(parent.submodules), id) matches Some(ast)
            &&& data.generated_file_infos@[0] == if ast.body is Some {
                parent.generated_file_infos@[db.spec_submodule_module_file(id).1.0 as int]
            } else {
                None
            }
        },
        forall|i: int| 1 <= i < data.files@.len() ==> ((#[trigger] data.generated_file_infos@[i]) matches Some(info)
            && info.origin.0 == module_id && (info.origin.1.0 as int) < i
            && virtual_child_of(db, data.files@[i], data.files@[info.origin.1.0 as int])),
        forall|j: int| 0 <= j < data.plugin_diagnostics@.len() ==> (#[trigger] data.plugin_diagnostics@[j]).0.0 == module_id
            && (data.plugin_diagnostics@[j].0.1.0 as int) < data.files@.len(),
{
    let start = module_start(db, module_id)->Ok_0;
    let bound = expansion_bound(db, module_id, start);
    lemma_discovered_origins(db, module_id, start, bound);
    lemma_files_outcome_at(db, module_id, files, files.len());
    assert(data.files@.len() == files.len());
    assert(data.generated_file_infos@.len() == files.len());
    assert(data.files@[0] == files[0].file);
    assert(data.generated_file_infos@[0] == files[0].info);
    lemma_discovered_generated(db, module_id, start, bound);
    assert(data.files@.len() == data.files.len());
    assert forall|i: int| 1 <= i < data.files@.len() implies ((#[trigger] data.generated_file_infos@[i]) matches Some(info)
        && info.origin.0 == module_id && (info.origin.1.0 as int) < i
        && virtual_child_of(db, data.files@[i], data.files@[info.origin.1.0 as int])) by {
        assert(generated_from(db, module_id, files, i));
        assert(data.generated_file_infos@[i] == files[i].info);
        let info = files[i].info.unwrap();
        let j = choose|j: int| 0 <= j < i && info.origin == module_file_at(module_id, j)
            && #[trigger] virtual_child_of(db, files[i].file, files[j].file);
        assert(info.origin.1.0 as int == j);
        assert(data.files@[i] == files[i].file);
        assert(data.files@[j] == files[j].file);
    }
    assert forall|j: int| 0 <= j < data.plugin_diagnostics@.len() implies (#[trigger] data.plugin_diagnostics@[j]).0.0 == module_id
        && (data.plugin_diagnostics@[j].0.1.0 as int) < data.files@.len() by {
        let out = files_outcome(db, module_id, files, files.len());
        assert(data.plugin_diagnostics@[j] == out.diagnostics[j]);
    }
}

/// The kind of an entry.
pub open spec fn entry_kind(entry: ItemEntry) -> ItemKind {
    match entry {
        ItemEntry::Named { kind, id, ast } => kind,
        ItemEntry::Submodule { id, ast } => ItemKind::Submodule,
        ItemEntry::Use { id, leaf } => ItemKind::Use,
    }
}

/// The identifier of an entry.
pub open spec fn entry_id(entry: ItemEntry) -> u64 {
    match entry {
        ItemEntry::Named { kind, id, ast } => id,
        ItemEntry::Submodule { id, ast } => id,
        ItemEntry::Use { id, leaf } => id,
    }
}

/// Whether every named entry is of a kind held in a map of named items.
pub open spec fn well_kinded(entries: Seq<ItemEntry>) -> bool {
    forall|i: int| 0 <= i < entries.len() ==> (#[trigger] entries[i] is Named ==> is_named_kind(entry_kind(entries[i])))
}

/// The keys of the map of a module's data that holds the items of a kind.
pub open spec fn map_keys_of(data: ModuleData, kind: ItemKind) -> Seq<u64> {
    match kind {
        ItemKind::Submodule => entries_keys(module_item_entries(data.submodules)),
        ItemKind::Use => entries_keys(use_leaf_entries(data.uses)),
        _ => entries_keys(named_map_of(data, kind)),
    }
}

/// The keys of the map of a kind that entries make.
pub open spec fn entries_map_keys(entries: Seq<ItemEntry>, kind: ItemKind) -> Seq<u64> {
    match kind {
        ItemKind::Submodule => entries_keys(submodule_map(entries)),
        ItemKind::Use => entries_keys(use_map(entries)),
        _ => entries_keys(named_kind_map(entries, kind)),
    }
}

/// Whether some entry has a kind and an identifier.
pub open spec fn has_entry(entries: Seq<ItemEntry>, kind: ItemKind, id: u64) -> bool {
    exists|i: int| 0 <= i < entries.len() && entry_kind(#[trigger] entries[i]) == kind && entry_id(entries[i]) == id
}

/// The map of a kind that well-kinded entries make holds exactly the identifiers of the
/// entries of that kind.
proof fn lemma_entries_map_keys(entries: Seq<ItemEntry>, kind: ItemKind, id: u64)
    requires
        well_kinded(entries),
    ensures
        entries_map_keys(entries, kind).contains(id) <==> has_entry(entries, kind, id),
    decreases entries.len(),
{
    if entries.len() == 0 {
        assert(!entries_map_keys(entries, kind).contains(id));
    } else {
        let before = entries.drop_last();
        let last = entries.last();
        assert(well_kinded(before)) by {
            assert forall|i: int| 0 <= i < before.len() implies (#[trigger] before[i] is Named ==> is_named_kind(entry_kind(before[i]))) by {
                assert(before[i] == entries[i]);
            }
        }
        assert(entries[entries.len() - 1] == last);
        lemma_entries_map_keys(before, kind, id);
        match last {
            ItemEntry::Named { kind: k, id: x, ast } => {
                if k == kind {
                    lemma_entries_insert_keys(named_kind_map(before, kind), x, ast, id);
                }
            },
            ItemEntry::Submodule { id: x, ast } => {
                lemma_entries_insert_keys(submodule_map(before), x, ast, id);
            },
            ItemEntry::Use { id: x, leaf } => {
                lemma_entries_insert_keys(use_map(before), x, leaf, id);
            },
        }
        if has_entry(before, kind, id) {
            let i = choose|i: int| 0 <= i < before.len() && entry_kind(#[trigger] before[i]) == kind && entry_id(before[i]) == id;
            assert(entries[i] == before[i]);
        }
        if has_entry(entries, kind, id) && !(entry_kind(last) == kind && entry_id(last) == id) {
            let i = choose|i: int| 0 <= i < entries.len() && entry_kind(#[trigger] entries[i]) == kind && entry_id(entries[i]) == id;
            assert(before[i] == entries[i]);
        }
    }
}

/// The item identifiers of entries hold an item of a kind exactly where an entry has that
/// kind and identifier.
proof fn lemma_entries_item_ids(entries: Seq<ItemEntry>, kind: ItemKind, id: u64)
    ensures
        entries.map_values(|e: ItemEntry| entry_item_id(e)).contains(module_item_id(kind, id)) <==> has_entry(entries, kind, id),
{
    let ids = entries.map_values(|e: ItemEntry| entry_item_id(e));
    if ids.contains(module_item_id(kind, id)) {
        let i = choose|i: int| 0 <= i < ids.len() && ids[i] == module_item_id(kind, id);
        assert(entry_item_id(entries[i]) == module_item_id(kind, id));
        assert(entry_kind(entries[i]) == kind && entry_id(entries[i]) == id);
    }
    if has_entry(entries, kind, id) {
        let i = choose|i: int| 0 <= i < entries.len() && entry_kind(#[trigger] entries[i]) == kind && entry_id(entries[i]) == id;
        assert(ids[i] == module_item_id(kind, id));
    }
}

proof fn lemma_well_kinded_concat(a: Seq<ItemEntry>, b: Seq<ItemEntry>)
    requires
        well_kinded(a),
        well_kinded(b),
    ensures
        well_kinded(a + b),
{
    assert forall|i: int| 0 <= i < (a + b).len() implies (#[trigger] (a + b)[i] is Named ==> is_named_kind(entry_kind((a + b)[i]))) by {
        if i < a.len() {
            assert((a + b)[i] == a[i]);
        } else {
            assert((a + b)[i] == b[i - a.len()]);
        }
    }
}

proof fn lemma_file_outcome_well_kinded<D: DefsGroup>(db: D, module_file_id: ModuleFileId, file: FileId, items: Seq<ItemAst>)
    ensures
        well_kinded(file_outcome(db, module_file_id, file, items).entries),
    decreases items.len(),
{
    if items.len() > 0 {
        lemma_file_outcome_well_kinded(db, module_file_id, file, items.drop_last());
        let e = item_outcome(db, module_file_id, file, items.last()).entries;
        assert(well_kinded(e)) by {
            assert forall|i: int| 0 <= i < e.len() implies (#[trigger] e[i] is Named ==> is_named_kind(entry_kind(e[i]))) by {
                if let ItemAst::Use(u) = items.last() {
                    if !removes_item(plugins_results(db.spec_macro_plugins(), items.last())) {
                        let leaves = path_leaves(u.use_path);
                        assert(e[i] == use_entry(db, module_file_id, leaves[i]));
                    }
                }
            }
        }
        lemma_well_kinded_concat(file_outcome(db, module_file_id, file, items.drop_last()).entries, e);
    }
}

proof fn lemma_files_outcome_well_kinded<D: DefsGroup>(db: D, module_id: ModuleId, files: Seq<QueuedFile>, count: nat)
    ensures
        well_kinded(files_outcome(db, module_id, files, count).entries),
    decreases count,
{
    if count > 0 {
        lemma_files_outcome_well_kinded(db, module_id, files, (count - 1) as nat);
        let mfid = module_file_at(module_id, count - 1);
        lemma_file_outcome_well_kinded(db, mfid, files[count - 1].file, files[count - 1].items@);
        lemma_well_kinded_concat(
            files_outcome(db, module_id, files, (count - 1) as nat).entries,
            file_outcome(db, mfid, files[count - 1].file, files[count - 1].items@).entries,
        );
    }
}

/// A module's list of items and its maps of items by kind agree: the list holds an item of
/// a kind exactly where the map of that kind holds its identifier.
pub proof fn lemma_module_data_items<D: DefsGroup>(
    db: D,
    module_id: ModuleId,
    data: ModuleData,
    files: Seq<QueuedFile>,
    kind: ItemKind,
    id: u64,
)
    requires
        module_data_matches(db, module_id, data, files),
    ensures
        data.items@.contains(module_item_id(kind, id)) <==> map_keys_of(data, kind).contains(id),
{
    let entries = files_outcome(db, module_id, files, files.len()).entries;
    lemma_files_outcome_well_kinded(db, module_id, files, files.len());
    lemma_entries_map_keys(entries, kind, id);
    lemma_entries_item_ids(entries, kind, id);
    if is_named_kind(kind) {
        assert(named_map_of(data, kind) == named_kind_map(entries, kind));
    }
    assert(map_keys_of(data, kind) == entries_map_keys(entries, kind));
}

/// The entries of fewer files come first among the entries of more.
proof fn lemma_files_outcome_entries_prefix<D: DefsGroup>(
    db: D,
    module_id: ModuleId,
    files: Seq<QueuedFile>,
    count: nat,
    more: nat,
)
    requires
        count <= more <= files.len(),
    ensures
        files_outcome(db, module_id, files, count).entries.len() <= files_outcome(db, module_id, files, more).entries.len(),
        files_outcome(db, module_id, files, more).entries.subrange(
            0,
            files_outcome(db, module_id, files, count).entries.len() as int,
        ) == files_outcome(db, module_id, files, count).entries,
    decreases more - count,
{
    if count < more {
        lemma_files_outcome_entries_prefix(db, module_id, files, count, (more - 1) as nat);
        let a = files_outcome(db, module_id, files, (more - 1) as nat).entries;
        let b = file_outcome(
            db,
            module_file_at(module_id, more - 1),
            files[more - 1].file,
            files[more - 1].items@,
        ).entries;
        let c = files_outcome(db, module_id, files, count).entries;
        assert((a + b).subrange(0, c.len() as int) =~= a.subrange(0, c.len() as int));
    } else {
        let c = files_outcome(db, module_id, files, count).entries;
        assert(c.subrange(0, c.len() as int) =~= c);
    }
}

/// The identifier of the use item of each leaf of a use path, in a module file.
pub open spec fn use_leaf_item_ids<D: DefsGroup>(db: D, module_file_id: ModuleFileId, leaves: Seq<UsePathLeaf>) -> Seq<ModuleItemId> {
    leaves.map_values(
        |leaf: UsePathLeaf| ModuleItemId::Use(db.spec_intern_item(ItemKind::Use, module_file_id, leaf.stable_ptr)),
    )
}

/// Whether a list holds another, one element after another, from a position on.
pub open spec fn stands_at<A>(s: Seq<A>, offset: int, run: Seq<A>) -> bool {
    &&& 0 <= offset
    &&& offset + run.len() <= s.len()
    &&& s.subrange(offset, offset + run.len() as int) == run
}

/// A use item of a module file that no plugin removes gives one item per leaf of its
/// path, one after another in the module's list of items and in the order of the leaves.
pub proof fn lemma_use_item_leaves<D: DefsGroup>(
    db: D,
    module_id: ModuleId,
    data: ModuleData,
    files: Seq<QueuedFile>,
    i: int,
    k: int,
)
    requires
        module_data_matches(db, module_id, data, files),
        0 <= i < files.len(),
        0 <= k < files[i].items@.len(),
        files[i].items@[k] is Use,
        !removes_item(plugins_results(db.spec_macro_plugins(), files[i].items@[k])),
    ensures
        exists|offset: int| #[trigger] stands_at(
            data.items@,
            offset,
            use_leaf_item_ids(db, module_file_at(module_id, i), path_leaves(files[i].items@[k]->Use_0.use_path)),
        ),
{
    let mfid = module_file_at(module_id, i);
    let items = files[i].items@;
    let file = files[i].file;
    let item = items[k];
    let leaves = path_leaves(item->Use_0.use_path);
    let ids = use_leaf_item_ids(db, mfid, leaves);
    let all = files_outcome(db, module_id, files, files.len()).entries;
    let before = files_outcome(db, module_id, files, i as nat).entries;
    // The entries of file `i`: those of the items before `k`, of item `k`, and after.
    let head = items.take(k);
    let tail = items.skip(k + 1);
    assert(items =~= head + (seq![item] + tail));
    lemma_file_outcome_concat(db, mfid, file, head, seq![item] + tail);
    lemma_file_outcome_concat(db, mfid, file, seq![item], tail);
    assert(seq![item].drop_last() =~= Seq::<ItemAst>::empty());
    let item_part = file_outcome(db, mfid, file, seq![item]).entries;
    assert(seq![item].last() == item);
    assert(file_outcome(db, mfid, file, seq![item].drop_last()).entries == Seq::<ItemEntry>::empty());
    assert(Seq::<ItemEntry>::empty() + item_outcome(db, mfid, file, item).entries =~= item_outcome(db, mfid, file, item).entries);
    assert(item_part =~= item_outcome(db, mfid, file, item).entries);
    let leaf_entries = item_entries(db, mfid, item);
    assert(item_part == leaf_entries);
    let head_part = file_outcome(db, mfid, file, head).entries;
    let this_file = file_outcome(db, mfid, file, items).entries;
    assert(this_file == head_part + (leaf_entries + file_outcome(db, mfid, file, tail).entries));
    // The files before `i` and file `i` come first among the module's entries.
    lemma_files_outcome_entries_prefix(db, module_id, files, (i + 1) as nat, files.len());
    let upto = files_outcome(db, module_id, files, (i + 1) as nat).entries;
    assert(upto == before + this_file);
    let offset: int = before.len() + head_part.len() as int;
    assert(leaf_entries.len() == leaves.len());
    assert forall|j: int| 0 <= j < ids.len() implies #[trigger] data.items@.subrange(offset, offset + ids.len() as int)[j] == ids[j] by {
        assert(upto[offset + j] == leaf_entries[j]);
        assert(all[offset + j] == upto[offset + j]);
        assert(data.items@[offset + j] == entry_item_id(all[offset + j]));
    }
    assert(data.items@.subrange(offset, offset + ids.len() as int) =~= ids);
    assert(stands_at(data.items@, offset, ids));
}

/// Whether the database answers `priv_module_data` of a module as `priv_module_data`
/// computes it.
pub open spec fn module_data_as_computed<D: DefsGroup>(db: D, module_id: ModuleId) -> bool {
    match module_data_of(db, module_id) {
        None => db.spec_priv_module_data(module_id) is Err,
        Some(files) => db.spec_priv_module_data(module_id) matches Ok(data)
            && module_data_matches(db, module_id, data, files),
    }
}

/// Where the database answers a module's data as it is computed, that data has the shape of
/// `lemma_module_data_files`: files and generation infos go together, the main file comes
/// first, the other files are virtual module files generated in earlier files of the
/// module (their parents), and every plugin diagnostic stands at one of its files.
pub proof fn lemma_queried_module_data_files<D: DefsGroup>(db: D, module_id: ModuleId)
    requires
        module_data_as_computed(db, module_id),
        db.spec_priv_module_data(module_id) is Ok,
    ensures
        ({
            let data = db.spec_priv_module_data(module_id)->Ok_0;
            &&& data.files@.len() == data.generated_file_infos@.len()
            &&& data.files@.len() >= 1
            &&& db.spec_module_main_file(module_id) == Ok::<FileId, DiagnosticAdded>(data.files@[0])
            &&& forall|i: int| 1 <= i < data.files@.len() ==> ((#[trigger] data.generated_file_infos@[i]) matches Some(info)
                && info.origin.0 == module_id && (info.origin.1.0 as int) < i
                && virtual_child_of(db, data.files@[i], data.files@[info.origin.1.0 as int]))
            &&& forall|j: int| 0 <= j < data.plugin_diagnostics@.len() ==> (#[trigger] data.plugin_diagnostics@[j]).0.0 == module_id
                && (data.plugin_diagnostics@[j].0.1.0 as int) < data.files@.len()
        }),
{
    let files = module_data_of(db, module_id).unwrap();
    lemma_module_data_files(db, module_id, db.spec_priv_module_data(module_id)->Ok_0, files);
}

/// The stable pointer of the syntax an entry stands for: the item's, or the use leaf's.
pub open spec fn entry_ptr(entry: ItemEntry) -> SyntaxStablePtrId {
    match entry {
        ItemEntry::Named { kind, id, ast } => ast.stable_ptr,
        ItemEntry::Submodule { id, ast } => ast.stable_ptr,
        ItemEntry::Use { id, leaf } => leaf.stable_ptr,
    }
}

/// Whether an entry's identifier is the interning of its kind, a module file and its
/// stable pointer.
pub open spec fn entry_interned_at<D: DefsGroup>(db: D, module_file_id: ModuleFileId, entry: ItemEntry) -> bool {
    entry_id(entry) == db.spec_intern_item(entry_kind(entry), module_file_id, entry_ptr(entry))
}

/// The entries of a module file are interned at that module file.
proof fn lemma_file_entries_interned<D: DefsGroup>(
    db: D,
    module_file_id: ModuleFileId,
    file: FileId,
    items: Seq<ItemAst>,
)
    ensures
        forall|j: int| 0 <= j < file_outcome(db, module_file_id, file, items).entries.len() ==>
            entry_interned_at(db, module_file_id, #[trigger] file_outcome(db, module_file_id, file, items).entries[j]),
    decreases items.len(),
{
    if items.len() > 0 {
        lemma_file_entries_interned(db, module_file_id, file, items.drop_last());
        let a = file_outcome(db, module_file_id, file, items.drop_last()).entries;
        let b = item_outcome(db, module_file_id, file, items.last()).entries;
        assert forall|j: int| 0 <= j < (a + b).len() implies entry_interned_at(db, module_file_id, #[trigger] (a + b)[j]) by {
            if j < a.len() {
                assert((a + b)[j] == a[j]);
            } else {
                assert((a + b)[j] == b[j - a.len()]);
            }
        }
    }
}

/// The entries of a module's first `count` files are each interned at one of them.
proof fn lemma_files_entries_interned<D: DefsGroup>(db: D, module_id: ModuleId, files: Seq<QueuedFile>, count: nat)
    requires
        count <= files.len(),
    ensures
        forall|j: int| 0 <= j < files_outcome(db, module_id, files, count).entries.len() ==> exists|i: int|
            0 <= i < count && entry_interned_at(
                db,
                module_file_at(module_id, i),
                #[trigger] files_outcome(db, module_id, files, count).entries[j],
            ),
    decreases count,
{
    if count > 0 {
        lemma_files_entries_interned(db, module_id, files, (count - 1) as nat);
        let mfid = module_file_at(module_id, count - 1);
        lemma_file_entries_interned(db, mfid, files[count - 1].file, files[count - 1].items@);
        let a = files_outcome(db, module_id, files, (count - 1) as nat).entries;
        let b = file_outcome(db, mfid, files[count - 1].file, files[count - 1].items@).entries;
        assert forall|j: int| 0 <= j < (a + b).len() implies exists|i: int|
            0 <= i < count && entry_interned_at(db, module_file_at(module_id, i), #[trigger] (a + b)[j]) by {
            if j < a.len() {
                assert((a + b)[j] == a[j]);
                let i = choose|i: int| 0 <= i < count - 1 && entry_interned_at(db, module_file_at(module_id, i), a[j]);
            } else {
                assert((a + b)[j] == b[j - a.len()]);
                assert(entry_interned_at(db, mfid, b[j - a.len()]));
            }
        }
    }
}

/// Each identifier in a module's map of items of a kind is the interning of that kind at
/// one of the module's files and some stable pointer: the item stands in a file of the
/// module.
pub proof fn lemma_item_ids_interned_at_module_files<D: DefsGroup>(
    db: D,
    module_id: ModuleId,
    data: ModuleData,
    files: Seq<QueuedFile>,
    kind: ItemKind,
    id: u64,
)
    requires
        module_data_matches(db, module_id, data, files),
        map_keys_of(data, kind).contains(id),
    ensures
        exists|i: int, ptr: SyntaxStablePtrId|
            0 <= i < data.files@.len() && id == #[trigger] db.spec_intern_item(kind, module_file_at(module_id, i), ptr),
{
    let entries = files_outcome(db, module_id, files, files.len()).entries;
    lemma_module_data_items(db, module_id, data, files, kind, id);
    lemma_entries_item_ids(entries, kind, id);
    let j = choose|j: int| 0 <= j < entries.len() && entry_kind(#[trigger] entries[j]) == kind && entry_id(entries[j]) == id;
    lemma_files_entries_interned(db, module_id, files, files.len());
    let i = choose|i: int| 0 <= i < files.len() && entry_interned_at(db, module_file_at(module_id, i), entries[j]);
    assert(data.files@.len() == files.len());
    assert(id == db.spec_intern_item(kind, module_file_at(module_id, i), entry_ptr(entries[j])));
}

/// Whether looking a submodule up gives back the module file at which it was interned, as
/// interning in the database does.
pub open spec fn submodule_lookup_inverts_interning<D: DefsGroup>(db: D) -> bool {
    forall|module_file_id: ModuleFileId, ptr: SyntaxStablePtrId|
        #[trigger] db.spec_submodule_module_file(db.spec_intern_item(ItemKind::Submodule, module_file_id, ptr))
            == module_file_id
}

/// Where looking a submodule up inverts interning, each submodule of a module's data looks
/// up to a file of that module.
pub proof fn lemma_submodules_look_up_to_their_module<D: DefsGroup>(
    db: D,
    module_id: ModuleId,
    data: ModuleData,
    files: Seq<QueuedFile>,
    id: SubmoduleId,
)
    requires
        module_data_matches(db, module_id, data, files),
        submodule_lookup_inverts_interning(db),
        entries_keys(module_item_entries(data.submodules)).contains(id),
    ensures
        db.spec_submodule_module_file(id).0 == module_id,
        (db.spec_submodule_module_file(id).1.0 as int) < data.files@.len(),
{
    assert(map_keys_of(data, ItemKind::Submodule).contains(id));
    lemma_item_ids_interned_at_module_files(db, module_id, data, files, ItemKind::Submodule, id);
    let (i, ptr) = choose|i: int, ptr: SyntaxStablePtrId|
        0 <= i < data.files@.len() && id == #[trigger] db.spec_intern_item(ItemKind::Submodule, module_file_at(module_id, i), ptr);
    assert(db.spec_submodule_module_file(db.spec_intern_item(ItemKind::Submodule, module_file_at(module_id, i), ptr))
        == module_file_at(module_id, i));
}

/// Whether interning items is injective for each kind: one identifier of a kind stands
/// for one module file and stable pointer, as in the database's interning tables.
pub open spec fn interning_injective<D: DefsGroup>(db: D) -> bool {
    forall|kind: ItemKind, a: ModuleFileId, p: SyntaxStablePtrId, b: ModuleFileId, q: SyntaxStablePtrId|
        #[trigger] db.spec_intern_item(kind, a, p) == #[trigger] db.spec_intern_item(kind, b, q) ==> a == b && p == q
}

/// The kind and stable pointer of the items that an item of a file gives: one, or one per
/// leaf of a use item, or none for a missing item.
pub open spec fn item_keys(item: ItemAst) -> Seq<(ItemKind, SyntaxStablePtrId)> {
    match item {
        ItemAst::Constant(ast) => seq![(ItemKind::Constant, ast.stable_ptr)],
        ItemAst::Module(ast) => seq![(ItemKind::Submodule, ast.stable_ptr)],
        ItemAst::Use(ast) => path_leaves(ast.use_path).map_values(|leaf: UsePathLeaf| (ItemKind::Use, leaf.stable_ptr)),
        ItemAst::FreeFunction(ast) => seq![(ItemKind::FreeFunction, ast.stable_ptr)],
        ItemAst::ExternFunction(ast) => seq![(ItemKind::ExternFunction, ast.stable_ptr)],
        ItemAst::ExternType(ast) => seq![(ItemKind::ExternType, ast.stable_ptr)],
        ItemAst::Trait(ast) => seq![(ItemKind::Trait, ast.stable_ptr)],
        ItemAst::Impl(ast) => seq![(ItemKind::Impl, ast.stable_ptr)],
        ItemAst::ImplAlias(ast) => seq![(ItemKind::ImplAlias, ast.stable_ptr)],
        ItemAst::Struct(ast) => seq![(ItemKind::Struct, ast.stable_ptr)],
        ItemAst::Enum(ast) => seq![(ItemKind::Enum, ast.stable_ptr)],
        ItemAst::TypeAlias(ast) => seq![(ItemKind::TypeAlias, ast.stable_ptr)],
        ItemAst::Missing => seq![],
    }
}

/// The kinds and stable pointers of the items that the items of a file give, in order.
pub open spec fn items_keys(items: Seq<ItemAst>) -> Seq<(ItemKind, SyntaxStablePtrId)>
    decreases items.len(),
{
    if items.len() == 0 {
        seq![]
    } else {
        items_keys(items.drop_last()) + item_keys(items.last())
    }
}

/// The kind and stable pointer of an entry.
pub open spec fn entry_key(entry: ItemEntry) -> (ItemKind, SyntaxStablePtrId) {
    (entry_kind(entry), entry_ptr(entry))
}

/// The entries an item gives have the item's keys.
proof fn lemma_item_entries_keys<D: DefsGroup>(db: D, module_file_id: ModuleFileId, item: ItemAst)
    ensures
        item_entries(db, module_file_id, item).len() == item_keys(item).len(),
        forall|j: int| 0 <= j < item_keys(item).len() ==>
            entry_key(#[trigger] item_entries(db, module_file_id, item)[j]) == item_keys(item)[j],
{
}

/// Where the keys of a file's items are distinct, so are the keys of the entries that
/// processing the file gives, and each is a key of the file's items.
proof fn lemma_file_entry_keys_distinct<D: DefsGroup>(
    db: D,
    module_file_id: ModuleFileId,
    file: FileId,
    items: Seq<ItemAst>,
)
    requires
        items_keys(items).no_duplicates(),
    ensures
        forall|a: int, b: int| 0 <= a < b < file_outcome(db, module_file_id, file, items).entries.len() ==>
            entry_key(#[trigger] file_outcome(db, module_file_id, file, items).entries[a])
                != entry_key(#[trigger] file_outcome(db, module_file_id, file, items).entries[b]),
        forall|a: int| 0 <= a < file_outcome(db, module_file_id, file, items).entries.len() ==>
            items_keys(items).contains(entry_key(#[trigger] file_outcome(db, module_file_id, file, items).entries[a])),
    decreases items.len(),
{
    if items.len() > 0 {
        let k1 = items_keys(items.drop_last());
        let k2 = item_keys(items.last());
        let keys = items_keys(items);
        assert(keys == k1 + k2);
        assert(k1.no_duplicates()) by {
            assert forall|i: int, j: int| 0 <= i < k1.len() && 0 <= j < k1.len() && i != j implies k1[i] != k1[j] by {
                assert(keys[i] == k1[i] && keys[j] == k1[j]);
            }
        }
        lemma_file_entry_keys_distinct(db, module_file_id, file, items.drop_last());
        lemma_item_entries_keys(db, module_file_id, items.last());
        let p = file_outcome(db, module_file_id, file, items.drop_last()).entries;
        let bl = item_outcome(db, module_file_id, file, items.last()).entries;
        let f = p + bl;
        assert(f == file_outcome(db, module_file_id, file, items).entries);
        assert forall|a: int| 0 <= a < f.len() implies keys.contains(entry_key(#[trigger] f[a])) by {
            if a < p.len() {
                assert(f[a] == p[a]);
                let i = choose|i: int| 0 <= i < k1.len() && k1[i] == entry_key(p[a]);
                assert(keys[i] == k1[i]);
            } else {
                assert(f[a] == bl[a - p.len()]);
                assert(keys[k1.len() + a - p.len()] == k2[a - p.len()]);
            }
        }
        assert forall|a: int, b: int| 0 <= a < b < f.len() implies entry_key(#[trigger] f[a]) != entry_key(#[trigger] f[b]) by {
            if b < p.len() {
                assert(f[a] == p[a] && f[b] == p[b]);
            } else if a >= p.len() {
                assert(f[a] == bl[a - p.len()] && f[b] == bl[b - p.len()]);
                assert(keys[k1.len() + a - p.len()] == k2[a - p.len()]);
                assert(keys[k1.len() + b - p.len()] == k2[b - p.len()]);
            } else {
                assert(f[a] == p[a] && f[b] == bl[b - p.len()]);
                let i = choose|i: int| 0 <= i < k1.len() && k1[i] == entry_key(p[a]);
                assert(keys[i] == k1[i]);
                assert(keys[k1.len() + b - p.len()] == k2[b - p.len()]);
            }
        }
    }
}

/// An entry's place in the module's list of items is its kind and identifier.
proof fn lemma_entry_item_id_kind_id(e: ItemEntry, f: ItemEntry)
    requires
        entry_item_id(e) == entry_item_id(f),
    ensures
        entry_kind(e) == entry_kind(f),
        entry_id(e) == entry_id(f),
{
}

/// Where interning is injective and each file's items have distinct keys, the entries of
/// a module's first `count` files have distinct places in its list of items.
proof fn lemma_files_item_ids_distinct<D: DefsGroup>(db: D, module_id: ModuleId, files: Seq<QueuedFile>, count: nat)
    requires
        interning_injective(db),
        count <= files.len(),
        files.len() <= usize::MAX,
        forall|i: int| 0 <= i < files.len() ==> (#[trigger] items_keys(files[i].items@)).no_duplicates(),
    ensures
        forall|a: int, b: int| 0 <= a < b < files_outcome(db, module_id, files, count).entries.len() ==>
            entry_item_id(#[trigger] files_outcome(db, module_id, files, count).entries[a])
                != entry_item_id(#[trigger] files_outcome(db, module_id, files, count).entries[b]),
    decreases count,
{
    if count > 0 {
        let last = count - 1;
        let mfid = module_file_at(module_id, last);
        lemma_files_item_ids_distinct(db, module_id, files, last as nat);
        lemma_files_entries_interned(db, module_id, files, last as nat);
        assert(items_keys(files[last].items@).no_duplicates());
        lemma_file_entry_keys_distinct(db, mfid, files[last].file, files[last].items@);
        lemma_file_entries_interned(db, mfid, files[last].file, files[last].items@);
        let e = files_outcome(db, module_id, files, last as nat).entries;
        let f = file_outcome(db, mfid, files[last].file, files[last].items@).entries;
        let all = e + f;
        assert(all == files_outcome(db, module_id, files, count).entries);
        assert forall|a: int, b: int| 0 <= a < b < all.len() implies
            entry_item_id(#[trigger] all[a]) != entry_item_id(#[trigger] all[b]) by {
            if b < e.len() {
                assert(all[a] == e[a] && all[b] == e[b]);
            } else if a >= e.len() {
                let x = f[a - e.len()];
                let y = f[b - e.len()];
                assert(all[a] == x && all[b] == y);
                if entry_item_id(x) == entry_item_id(y) {
                    lemma_entry_item_id_kind_id(x, y);
                    assert(entry_interned_at(db, mfid, x));
                    assert(entry_interned_at(db, mfid, y));
                    assert(entry_ptr(x) == entry_ptr(y));
                    assert(entry_key(x) == entry_key(y));
                }
            } else {
                let x = e[a];
                let y = f[b - e.len()];
                assert(all[a] == x && all[b] == y);
                if entry_item_id(x) == entry_item_id(y) {
                    lemma_entry_item_id_kind_id(x, y);
                    let i = choose|i: int| 0 <= i < last && entry_interned_at(db, module_file_at(module_id, i), x);
                    assert(entry_interned_at(db, mfid, y));
                    assert(module_file_at(module_id, i) == mfid);
                    assert((i as usize) == (last as usize));
                }
            }
        }
    }
}

/// Where interning is injective and the items of each of a module's files give distinct
/// kinds and stable pointers (distinct syntax), the module's list of items has no
/// duplicates.
pub proof fn lemma_module_items_distinct<D: DefsGroup>(
    db: D,
    module_id: ModuleId,
    data: ModuleData,
    files: Seq<QueuedFile>,
)
    requires
        module_data_matches(db, module_id, data, files),
        interning_injective(db),
        forall|i: int| 0 <= i < files.len() ==> (#[trigger] items_keys(files[i].items@)).no_duplicates(),
    ensures
        data.items@.no_duplicates(),
{
    assert(data.files@.len() == data.files.len());
    assert(files.len() == data.files@.len());
    let entries = files_outcome(db, module_id, files, files.len()).entries;
    lemma_files_item_ids_distinct(db, module_id, files, files.len());
    assert(data.items@ == entries.map_values(|e: ItemEntry| entry_item_id(e)));
    assert forall|a: int, b: int| 0 <= a < data.items@.len() && 0 <= b < data.items@.len() && a != b implies
        data.items@[a] != data.items@[b] by {
        if a < b {
            assert(entry_item_id(entries[a]) != entry_item_id(entries[b]));
        } else {
            assert(entry_item_id(entries[b]) != entry_item_id(entries[a]));
        }
    }
}

/// The number of entries of a kind.
pub open spec fn kind_count(entries: Seq<ItemEntry>, kind: ItemKind) -> nat
    decreases entries.len(),
{
    if entries.len() == 0 {
        0
    } else {
        kind_count(entries.drop_last(), kind) + if entry_kind(entries.last()) == kind {
            1nat
        } else {
            0nat
        }
    }
}

/// The number of items that a module's maps hold, over the maps of all kinds.
pub open spec fn map_items_count(data: ModuleData) -> nat {
    map_keys_of(data, ItemKind::Constant).len()
        + map_keys_of(data, ItemKind::Submodule).len()
        + map_keys_of(data, ItemKind::Use).len()
        + map_keys_of(data, ItemKind::FreeFunction).len()
        + map_keys_of(data, ItemKind::Struct).len()
        + map_keys_of(data, ItemKind::Enum).len()
        + map_keys_of(data, ItemKind::TypeAlias).len()
        + map_keys_of(data, ItemKind::ImplAlias).len()
        + map_keys_of(data, ItemKind::Trait).len()
        + map_keys_of(data, ItemKind::Impl).len()
        + map_keys_of(data, ItemKind::ExternType).len()
        + map_keys_of(data, ItemKind::ExternFunction).len()
}

/// The entries of all kinds together are all the entries.
proof fn lemma_kind_counts_total(entries: Seq<ItemEntry>)
    ensures
        kind_count(entries, ItemKind::Constant) + kind_count(entries, ItemKind::Submodule) + kind_count(entries, ItemKind::Use) + kind_count(entries, ItemKind::FreeFunction) + kind_count(entries, ItemKind::Struct) + kind_count(entries, ItemKind::Enum) + kind_count(entries, ItemKind::TypeAlias) + kind_count(entries, ItemKind::ImplAlias) + kind_count(entries, ItemKind::Trait) + kind_count(entries, ItemKind::Impl) + kind_count(entries, ItemKind::ExternType) + kind_count(entries, ItemKind::ExternFunction) == entries.len(),
    decreases entries.len(),
{
    if entries.len() > 0 {
        lemma_kind_counts_total(entries.drop_last());
    }
}

/// Where entries have distinct places in the list of items, the map of a kind that they
/// make holds one key per entry of that kind.
proof fn lemma_map_keys_count(entries: Seq<ItemEntry>, kind: ItemKind)
    requires
        well_kinded(entries),
        forall|a: int, b: int| 0 <= a < b < entries.len() ==>
            entry_item_id(#[trigger] entries[a]) != entry_item_id(#[trigger] entries[b]),
    ensures
        entries_map_keys(entries, kind).len() == kind_count(entries, kind),
    decreases entries.len(),
{
    if entries.len() > 0 {
        let before = entries.drop_last();
        let last = entries.last();
        assert(well_kinded(before)) by {
            assert forall|i: int| 0 <= i < before.len() implies (#[trigger] before[i] is Named ==> is_named_kind(entry_kind(before[i]))) by {
                assert(before[i] == entries[i]);
            }
        }
        assert forall|a: int, b: int| 0 <= a < b < before.len() implies
            entry_item_id(#[trigger] before[a]) != entry_item_id(#[trigger] before[b]) by {
            assert(before[a] == entries[a] && before[b] == entries[b]);
        }
        lemma_map_keys_count(before, kind);
        assert(entries[entries.len() - 1] == last);
        if entry_kind(last) == kind {
            let id = entry_id(last);
            lemma_entries_map_keys(before, kind, id);
            if has_entry(before, kind, id) {
                let i = choose|i: int| 0 <= i < before.len() && entry_kind(#[trigger] before[i]) == kind && entry_id(before[i]) == id;
                assert(entries[i] == before[i]);
                assert(entry_item_id(entries[i]) == entry_item_id(entries[entries.len() - 1]));
            }
            assert(!entries_map_keys(before, kind).contains(id));
        }
        match last {
            ItemEntry::Named { kind: k, id, ast } => {
                if k == kind {
                    let m = named_kind_map(before, kind);
                    lemma_key_index(entries_keys(m), id);
                    assert(entries_keys(entries_insert(m, id, ast)) =~= entries_keys(m).push(id));
                }
            },
            ItemEntry::Submodule { id, ast } => {
                if kind == ItemKind::Submodule {
                    let m = submodule_map(before);
                    lemma_key_index(entries_keys(m), id);
                    assert(entries_keys(entries_insert(m, id, ast)) =~= entries_keys(m).push(id));
                }
            },
            ItemEntry::Use { id, leaf } => {
                if kind == ItemKind::Use {
                    let m = use_map(before);
                    lemma_key_index(entries_keys(m), id);
                    assert(entries_keys(entries_insert(m, id, leaf)) =~= entries_keys(m).push(id));
                }
            },
        }
    }
}

/// Where interning is injective and the items of each of a module's files give distinct
/// kinds and stable pointers, the module's list of items is as long as its maps of items
/// of all kinds hold items together.
pub proof fn lemma_module_items_count<D: DefsGroup>(
    db: D,
    module_id: ModuleId,
    data: ModuleData,
    files: Seq<QueuedFile>,
)
    requires
        module_data_matches(db, module_id, data, files),
        interning_injective(db),
        forall|i: int| 0 <= i < files.len() ==> (#[trigger] items_keys(files[i].items@)).no_duplicates(),
    ensures
        data.items@.len() == map_items_count(data),
{
    assert(data.files@.len() == data.files.len());
    assert(files.len() == data.files@.len());
    let entries = files_outcome(db, module_id, files, files.len()).entries;
    lemma_files_item_ids_distinct(db, module_id, files, files.len());
    lemma_files_outcome_well_kinded(db, module_id, files, files.len());
    lemma_kind_counts_total(entries);
    assert forall|kind: ItemKind| #[trigger] map_keys_of(data, kind).len() == kind_count(entries, kind) by {
        lemma_map_keys_count(entries, kind);
        if is_named_kind(kind) {
            assert(named_map_of(data, kind) == named_kind_map(entries, kind));
        }
        assert(map_keys_of(data, kind) == entries_map_keys(entries, kind));
    }
    assert(data.items@.len() == entries.len());
}

/// An item gives no entries in its module's data exactly where the last plugin that ran on
/// it asked to remove it, whatever code that plugin generated; otherwise it gives its own
/// entries.
pub proof fn lemma_item_kept_unless_last_plugin_removes<D: DefsGroup>(
    db: D,
    module_file_id: ModuleFileId,
    file: FileId,
    item: ItemAst,
)
    ensures
        item_outcome(db, module_file_id, file, item).entries == if plugins_results(db.spec_macro_plugins(), item).len() > 0
            && plugins_results(db.spec_macro_plugins(), item).last().remove_original_item {
            Seq::<ItemEntry>::empty()
        } else {
            item_entries(db, module_file_id, item)
        },
{
}

/// A plugin that both generates code for an item and asks to remove it (a rewrite) is the
/// last to run on it: the item gives no entries, and the file it generated is the last one
/// generated for the item, made of that code and generated in the item's module file.
pub proof fn lemma_rewriting_plugin_replaces_item<D: DefsGroup>(
    db: D,
    module_file_id: ModuleFileId,
    file: FileId,
    item: ItemAst,
)
    requires
        plugins_results(db.spec_macro_plugins(), item).len() > 0,
        plugins_results(db.spec_macro_plugins(), item).last().code is Some,
        plugins_results(db.spec_macro_plugins(), item).last().remove_original_item,
    ensures
        item_outcome(db, module_file_id, file, item).entries.len() == 0,
        item_outcome(db, module_file_id, file, item).children.len() > 0,
        item_outcome(db, module_file_id, file, item).children.last().info == (GeneratedFileInfo {
            aux_data: plugins_results(db.spec_macro_plugins(), item).last().code.unwrap().aux_data,
            origin: module_file_id,
        }),
{
    let results = plugins_results(db.spec_macro_plugins(), item);
    let before = results_outcome(db, module_file_id, file, results.drop_last()).children;
    let c = generated_child(db, module_file_id, file, results.last());
    assert((before + c).last() == c[0]);
}

/// Processing one more item of a file adds that item's entries after those of the items
/// before it, unless the last plugin that ran on it asked to remove it (whatever code that
/// plugin generated), in which case it adds none.
pub proof fn lemma_file_entries_keep_unremoved_items<D: DefsGroup>(
    db: D,
    module_file_id: ModuleFileId,
    file: FileId,
    items: Seq<ItemAst>,
    item: ItemAst,
)
    ensures
        file_outcome(db, module_file_id, file, items.push(item)).entries == file_outcome(db, module_file_id, file, items).entries
            + if plugins_results(db.spec_macro_plugins(), item).len() > 0
            && plugins_results(db.spec_macro_plugins(), item).last().remove_original_item {
            Seq::<ItemEntry>::empty()
        } else {
            item_entries(db, module_file_id, item)
        },
{
    assert(items.push(item).drop_last() =~= items);
    assert(items.push(item).last() == item);
}

/// The name of a module item is where the identifier naming it stands: the `name_ptr` of a
/// named item's or a submodule's syntax, and for a use leaf its alias where it has one, else
/// its identifier; none where the module does not hold the item.
pub proof fn lemma_item_name_is_its_identifier(data: ModuleData, kind: ItemKind, id: u64)
    ensures
        is_named_kind(kind) ==> item_name_ptr(data, module_item_id(kind, id)) == match entries_get(named_map_of(data, kind), id) {
            Some(ast) => Some(ast.name_ptr),
            None => None::<SyntaxStablePtrId>,
        },
        kind == ItemKind::Submodule ==> item_name_ptr(data, module_item_id(kind, id)) == match entries_get(
            module_item_entries(data.submodules),
            id,
        ) {
            Some(ast) => Some(ast.name_ptr),
            None => None::<SyntaxStablePtrId>,
        },
        kind == ItemKind::Use ==> item_name_ptr(data, module_item_id(kind, id)) == match entries_get(use_leaf_entries(data.uses), id) {
            Some(leaf) => if leaf.alias_ptr is Some {
                leaf.alias_ptr
            } else {
                Some(leaf.ident_ptr)
            },
            None => None::<SyntaxStablePtrId>,
        },
{
}

} // verus!
