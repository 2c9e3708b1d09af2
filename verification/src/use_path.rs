//! Use paths: `use a::b;`, `use a::{b, c::d};`, and the leaves that they import.

use vstd::prelude::*;
use crate::plugin::SyntaxStablePtrId;

verus! {

/// The last segment of a use path: the item it imports, maybe under an alias.
#[derive(PartialEq, Eq, Structural, Clone, Copy, Debug)]
pub struct UsePathLeaf {
    pub stable_ptr: SyntaxStablePtrId,
    /// The identifier of the imported item.
    pub ident_ptr: SyntaxStablePtrId,
    /// The identifier in `as alias`, where there is one.
    pub alias_ptr: Option<SyntaxStablePtrId>,
}

/// A use path.
pub enum UsePath {
    /// `item` or `item as alias`.
    Leaf(UsePathLeaf),
    /// `segment::rest`.
    Single(Box<UsePath>),
    /// `{path, path, ..}`.
    Multi(Vec<UsePath>),
}

/// The leaves of a use path, from left to right.
pub open spec fn path_leaves(path: UsePath) -> Seq<UsePathLeaf>
    decreases path,
{
    match path {
        UsePath::Leaf(leaf) => seq![leaf],
        UsePath::Single(rest) => path_leaves(*rest),
        UsePath::Multi(paths) => paths_leaves(paths@),
    }
}

/// The leaves of a list of use paths, from left to right.
pub open spec fn paths_leaves(paths: Seq<UsePath>) -> Seq<UsePathLeaf>
    decreases paths,
{
    if paths.len() == 0 {
        seq![]
    } else {
        paths_leaves(paths.drop_last()) + path_leaves(paths.last())
    }
}

/// Returns all the path leaves under a given use path.
pub fn get_all_path_leafs(use_path: &UsePath) -> (r: Vec<UsePathLeaf>)
    ensures
        r@ == path_leaves(*use_path),
{
    let mut res: Vec<UsePathLeaf> = Vec::new();
    get_all_path_leafs_inner(use_path, &mut res);
    assert(res@ =~= path_leaves(*use_path));
    res
}

/// Finds all the path leaves under a given use path and adds them to the given vector.
fn get_all_path_leafs_inner(use_path: &UsePath, res: &mut Vec<UsePathLeaf>)
    ensures
        final(res)@ == old(res)@ + path_leaves(*use_path),
    decreases use_path,
{
    match use_path {
        UsePath::Leaf(leaf) => {
            res.push(*leaf);
        },
        UsePath::Single(rest) => {
            get_all_path_leafs_inner(rest, res);
        },
        UsePath::Multi(use_paths) => {
            let ghost start = res@;
            let mut i: usize = 0;
            assert(use_paths@.take(0) =~= Seq::<UsePath>::empty());
            while i < use_paths.len()
                invariant
                    i <= use_paths.len(),
                    *use_path == UsePath::Multi(*use_paths),
                    res@ == start + paths_leaves(use_paths@.take(i as int)),
                decreases use_paths.len() - i,
            {
                assert(decreases_to!(*use_path => (*use_path)->Multi_0));
                assert(decreases_to!(*use_paths => use_paths@));
                assert(decreases_to!(use_paths@ => use_paths@[i as int]));
                get_all_path_leafs_inner(&use_paths[i], res);
                assert(use_paths@.take(i + 1).drop_last() =~= use_paths@.take(i as int));
                i = i + 1;
            }
            assert(use_paths@.take(i as int) =~= use_paths@);
        },
    }
}

} // verus!
