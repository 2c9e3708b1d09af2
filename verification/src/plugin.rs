//! What a macro plugin reports: diagnostics at syntax nodes, and generated code.

use vstd::prelude::*;
use std::sync::Arc;
use crate::ast::ItemAst;
use crate::ids::ModuleFileId;

verus! {

/// Identifies a syntax node of a parsed file, stably across revisions.
pub type SyntaxStablePtrId = u64;

/// A diagnostic that a plugin reports at a syntax node.
pub struct PluginDiagnostic {
    pub stable_ptr: SyntaxStablePtrId,
    pub message: String,
}

impl View for PluginDiagnostic {
    type V = (SyntaxStablePtrId, Seq<char>);

    open spec fn view(&self) -> (SyntaxStablePtrId, Seq<char>) {
        (self.stable_ptr, self.message@)
    }
}

/// The views of a list of diagnostics.
pub open spec fn diagnostics_view(diagnostics: Seq<PluginDiagnostic>) -> Seq<(SyntaxStablePtrId, Seq<char>)> {
    diagnostics.map_values(|d: PluginDiagnostic| d@)
}

/// What an inline macro expands to: the code that replaces it, if any, and diagnostics.
pub struct InlinePluginResult {
    pub code: Option<String>,
    pub diagnostics: Vec<PluginDiagnostic>,
}

/// A handle to what a plugin keeps about a file it generated.
pub type DynGeneratedFileAuxData = u64;

/// A file of code that a plugin generated.
pub struct PluginGeneratedFile {
    pub name: String,
    pub content: String,
    pub aux_data: DynGeneratedFileAuxData,
}

/// What a macro plugin makes of an item.
pub struct PluginResult {
    /// Code to add to the module, in a file of its own.
    pub code: Option<PluginGeneratedFile>,
    pub diagnostics: Vec<PluginDiagnostic>,
    /// Whether the item itself is to be left out of the module.
    pub remove_original_item: bool,
}

/// A plugin that sees each item of each module and may generate code for it or remove it.
pub trait MacroPlugin {
    /// What the plugin makes of an item; it depends on the item alone.
    spec fn spec_generate_code(&self, item: ItemAst) -> PluginResult;

    fn generate_code(&self, item: &ItemAst) -> (r: PluginResult)
        ensures
            r == self.spec_generate_code(*item),
    ;
}

/// A database with macro plugins, which run in their order.
pub trait HasMacroPlugins {
    /// The plugins of the database; they are the same each time they are asked for.
    spec fn spec_macro_plugins(&self) -> Seq<Arc<dyn MacroPlugin>>;

    fn macro_plugins(&self) -> (r: Vec<Arc<dyn MacroPlugin>>)
        ensures
            r@ == self.spec_macro_plugins(),
    ;
}

/// Information about the generation of a virtual file.
#[derive(PartialEq, Eq, Structural, Clone, Copy, Debug)]
pub struct GeneratedFileInfo {
    pub aux_data: DynGeneratedFileAuxData,
    /// The module and file index from which the current file was generated.
    pub origin: ModuleFileId,
}

/// Appends a diagnostic to a list of diagnostics.
pub(crate) fn push_diagnostic(diagnostics: &mut Vec<PluginDiagnostic>, stable_ptr: SyntaxStablePtrId, message: &str)
    ensures
        diagnostics_view(final(diagnostics)@) == diagnostics_view(old(diagnostics)@).push((stable_ptr, message@)),
{
    let ghost before = diagnostics@;
    diagnostics.push(PluginDiagnostic { stable_ptr, message: message.to_owned() });
    assert(diagnostics_view(diagnostics@) =~= diagnostics_view(before).push((stable_ptr, message@)));
}

} // verus!
