use cairo_defs::use_path::{get_all_path_leafs, UsePath, UsePathLeaf};

fn leaf(p: u64) -> UsePath {
    UsePath::Leaf(UsePathLeaf { stable_ptr: p, ident_ptr: p + 100, alias_ptr: None })
}

#[test]
fn leaves_in_order() {
    // a::{b, c::{d, e}, f}
    let path = UsePath::Single(Box::new(UsePath::Multi(vec![
        leaf(1),
        UsePath::Single(Box::new(UsePath::Multi(vec![leaf(2), leaf(3)]))),
        leaf(4),
    ])));
    let leaves = get_all_path_leafs(&path);
    assert_eq!(leaves.iter().map(|l| l.stable_ptr).collect::<Vec<_>>(), vec![1, 2, 3, 4]);
}

#[test]
fn single_leaf() {
    let leaves = get_all_path_leafs(&leaf(7));
    assert_eq!(leaves, vec![UsePathLeaf { stable_ptr: 7, ident_ptr: 107, alias_ptr: None }]);
}

#[test]
fn empty_multi() {
    assert!(get_all_path_leafs(&UsePath::Multi(vec![])).is_empty());
}
