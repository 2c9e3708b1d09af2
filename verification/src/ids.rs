//! Identifiers of crates, files, modules and module items.

use vstd::prelude::*;

verus! {

/// A crate of the compilation.
pub type CrateId = u64;

/// A file, on disk or generated by a plugin.
pub type FileId = u64;

/// A submodule item `mod name;` or `mod name { .. }`.
pub type SubmoduleId = u64;

pub type ConstantId = u64;

pub type UseId = u64;

pub type FreeFunctionId = u64;

pub type StructId = u64;

pub type EnumId = u64;

pub type TypeAliasId = u64;

pub type ImplAliasId = u64;

pub type TraitId = u64;

pub type ImplDefId = u64;

pub type ExternTypeId = u64;

pub type ExternFunctionId = u64;

/// A module: the root of a crate, or a submodule.
#[derive(PartialEq, Eq, Structural, Clone, Copy, Debug, Hash)]
pub enum ModuleId {
    CrateRoot(CrateId),
    Submodule(SubmoduleId),
}

/// The index of a file among the files of a module: 0 for its main file, then the files
/// that plugins generated, in the order they were generated.
#[derive(PartialEq, Eq, Structural, Clone, Copy, Debug, Hash)]
pub struct FileIndex(pub usize);

/// A file of a module.
#[derive(PartialEq, Eq, Structural, Clone, Copy, Debug, Hash)]
pub struct ModuleFileId(pub ModuleId, pub FileIndex);

/// The kinds of items a module holds.
#[derive(PartialEq, Eq, Structural, Clone, Copy, Debug, Hash)]
pub enum ItemKind {
    Constant,
    Submodule,
    Use,
    FreeFunction,
    Struct,
    Enum,
    TypeAlias,
    ImplAlias,
    Trait,
    Impl,
    ExternType,
    ExternFunction,
}

/// An item of a module.
#[derive(PartialEq, Eq, Structural, Clone, Copy, Debug, Hash)]
pub enum ModuleItemId {
    Constant(ConstantId),
    Submodule(SubmoduleId),
    Use(UseId),
    FreeFunction(FreeFunctionId),
    Struct(StructId),
    Enum(EnumId),
    TypeAlias(TypeAliasId),
    ImplAlias(ImplAliasId),
    Trait(TraitId),
    Impl(ImplDefId),
    ExternType(ExternTypeId),
    ExternFunction(ExternFunctionId),
}

/// The item of a given kind with a given identifier.
pub open spec fn module_item_id(kind: ItemKind, id: u64) -> ModuleItemId {
    match kind {
        ItemKind::Constant => ModuleItemId::Constant(id),
        ItemKind::Submodule => ModuleItemId::Submodule(id),
        ItemKind::Use => ModuleItemId::Use(id),
        ItemKind::FreeFunction => ModuleItemId::FreeFunction(id),
        ItemKind::Struct => ModuleItemId::Struct(id),
        ItemKind::Enum => ModuleItemId::Enum(id),
        ItemKind::TypeAlias => ModuleItemId::TypeAlias(id),
        ItemKind::ImplAlias => ModuleItemId::ImplAlias(id),
        ItemKind::Trait => ModuleItemId::Trait(id),
        ItemKind::Impl => ModuleItemId::Impl(id),
        ItemKind::ExternType => ModuleItemId::ExternType(id),
        ItemKind::ExternFunction => ModuleItemId::ExternFunction(id),
    }
}

} // verus!
