//! Module items, as far as the definitions database reads them.

use vstd::prelude::*;
use crate::plugin::SyntaxStablePtrId;
use crate::use_path::UsePath;

verus! {

/// An item of which the definitions database reads only where it stands and where its
/// name stands: a constant, a function, a type, a trait or an impl.
#[derive(PartialEq, Eq, Structural, Clone, Copy, Debug)]
pub struct NamedItemAst {
    pub stable_ptr: SyntaxStablePtrId,
    /// The identifier that names the item.
    pub name_ptr: SyntaxStablePtrId,
}

/// A submodule item: `mod name;`, whose body is in its own file, or `mod name { .. }`.
pub struct ItemModuleAst {
    pub stable_ptr: SyntaxStablePtrId,
    pub name_ptr: SyntaxStablePtrId,
    /// The items of an inline module's body; none for `mod name;`.
    pub body: Option<Vec<ItemAst>>,
}

/// A use item `use path;`.
pub struct ItemUseAst {
    pub stable_ptr: SyntaxStablePtrId,
    pub use_path: UsePath,
}

/// An item of a module file.
pub enum ItemAst {
    Constant(NamedItemAst),
    Module(ItemModuleAst),
    Use(ItemUseAst),
    FreeFunction(NamedItemAst),
    ExternFunction(NamedItemAst),
    ExternType(NamedItemAst),
    Trait(NamedItemAst),
    Impl(NamedItemAst),
    ImplAlias(NamedItemAst),
    Struct(NamedItemAst),
    Enum(NamedItemAst),
    TypeAlias(NamedItemAst),
    /// An item that did not parse.
    Missing,
}

} // verus!
