//! Insertion-ordered hash maps of `cairo_lang_utils`, as the module data holds them.
//!
//! The contents of a map are its entries in their order. Inserting a key that is present
//! replaces its value in place; inserting a new key appends it.

use vstd::prelude::*;
use std::hash::Hash;
use cairo_lang_utils::ordered_hash_map::OrderedHashMap;
use crate::ast::{ItemModuleAst, NamedItemAst};
use crate::ids::ModuleId;
use crate::use_path::UsePathLeaf;

verus! {

#[verifier::external_type_specification]
#[verifier::external_body]
#[verifier::reject_recursive_types(Key)]
#[verifier::reject_recursive_types(Value)]
pub struct ExOrderedHashMap<Key: Hash + Eq, Value>(OrderedHashMap<Key, Value>);

/// The keys of a list of entries, in their order.
pub open spec fn entries_keys<V>(entries: Seq<(u64, V)>) -> Seq<u64> {
    entries.map_values(|e: (u64, V)| e.0)
}

/// Where a key stands first among keys, or -1 where it is absent.
pub open spec fn key_index(keys: Seq<u64>, key: u64) -> int
    decreases keys.len(),
{
    if keys.len() == 0 {
        -1
    } else if keys[0] == key {
        0
    } else {
        let r = key_index(keys.drop_first(), key);
        if r < 0 {
            -1
        } else {
            r + 1
        }
    }
}

/// `key_index` finds the first occurrence of the key, and -1 means there is none.
pub proof fn lemma_key_index(keys: Seq<u64>, key: u64)
    ensures
        -1 <= key_index(keys, key) < keys.len(),
        key_index(keys, key) == -1 <==> !keys.contains(key),
        key_index(keys, key) >= 0 ==> keys[key_index(keys, key)] == key,
        forall|j: int| 0 <= j < key_index(keys, key) ==> keys[j] != key,
    decreases keys.len(),
{
    if keys.len() > 0 {
        lemma_key_index(keys.drop_first(), key);
        if keys[0] != key {
            if keys.contains(key) {
                let j = choose|j: int| 0 <= j < keys.len() && keys[j] == key;
                assert(keys.drop_first()[j - 1] == key);
            }
            assert forall|j: int| 0 <= j < key_index(keys, key) implies keys[j] != key by {
                if j > 0 {
                    assert(keys[j] == keys.drop_first()[j - 1]);
                }
            }
        }
    }
}

/// The value of the entry with a key, if there is one.
pub open spec fn entries_get<V>(entries: Seq<(u64, V)>, key: u64) -> Option<V> {
    let i = key_index(entries_keys(entries), key);
    if i >= 0 {
        Some(entries[i].1)
    } else {
        None
    }
}

/// The value an optional reference refers to.
pub open spec fn option_deref<V>(r: Option<&V>) -> Option<V> {
    match r {
        Some(v) => Some(*v),
        None => None,
    }
}

/// The entries after inserting a key: its value replaced in place where the key is
/// present, else the entry appended.
pub open spec fn entries_insert<V>(entries: Seq<(u64, V)>, key: u64, value: V) -> Seq<(u64, V)> {
    let i = key_index(entries_keys(entries), key);
    if i >= 0 {
        entries.update(i, (key, value))
    } else {
        entries.push((key, value))
    }
}

/// The entries after removing a key's entry, keeping the order of the others.
pub open spec fn entries_remove<V>(entries: Seq<(u64, V)>, key: u64) -> Seq<(u64, V)> {
    let i = key_index(entries_keys(entries), key);
    if i >= 0 {
        entries.remove(i)
    } else {
        entries
    }
}

/// After inserting a key, looking it up gives the inserted value, and looking up another
/// key gives what it gave before.
pub proof fn lemma_entries_get_insert<V>(entries: Seq<(u64, V)>, key: u64, value: V, other: u64)
    ensures
        entries_get(entries_insert(entries, key, value), key) == Some(value),
        other != key ==> entries_get(entries_insert(entries, key, value), other) == entries_get(entries, other),
{
    let keys = entries_keys(entries);
    let inserted = entries_insert(entries, key, value);
    lemma_key_index(keys, key);
    lemma_key_index(keys, other);
    let i = key_index(keys, key);
    if i >= 0 {
        assert(entries_keys(inserted) =~= keys);
    } else {
        assert(entries_keys(inserted) =~= keys.push(key));
        lemma_key_index_push(keys, key, key);
        lemma_key_index_push(keys, key, other);
    }
    lemma_key_index(entries_keys(inserted), key);
    lemma_key_index(entries_keys(inserted), other);
}

/// The keys after inserting a key are the keys before and that key.
pub proof fn lemma_entries_insert_keys<V>(entries: Seq<(u64, V)>, key: u64, value: V, other: u64)
    ensures
        entries_keys(entries_insert(entries, key, value)).contains(other) <==> (entries_keys(entries).contains(other) || other == key),
{
    let keys = entries_keys(entries);
    lemma_key_index(keys, key);
    if key_index(keys, key) >= 0 {
        assert(entries_keys(entries_insert(entries, key, value)) =~= keys);
    } else {
        assert(entries_keys(entries_insert(entries, key, value)) =~= keys.push(key));
        if keys.contains(other) {
            let j = choose|j: int| 0 <= j < keys.len() && keys[j] == other;
            assert(keys.push(key)[j] == other);
        }
        if keys.push(key).contains(other) && other != key {
            let j = choose|j: int| 0 <= j < keys.push(key).len() && keys.push(key)[j] == other;
            assert(keys[j] == other);
        }
        assert(keys.push(key)[keys.len() as int] == key);
    }
}

/// Where a key stands among keys with another key appended.
pub proof fn lemma_key_index_push(keys: Seq<u64>, pushed: u64, key: u64)
    ensures
        key_index(keys.push(pushed), key) == if key_index(keys, key) >= 0 {
            key_index(keys, key)
        } else if key == pushed {
            keys.len() as int
        } else {
            -1
        },
    decreases keys.len(),
{
    if keys.len() > 0 {
        assert(keys.push(pushed).drop_first() =~= keys.drop_first().push(pushed));
        lemma_key_index_push(keys.drop_first(), pushed, key);
    } else {
        assert(keys.push(pushed).drop_first() =~= Seq::<u64>::empty());
        assert(key_index(Seq::<u64>::empty(), key) == -1);
    }
}

/// The entries with their values transformed.
pub open spec fn entries_map<V, W>(entries: Seq<(u64, V)>, f: spec_fn(V) -> W) -> Seq<(u64, W)> {
    entries.map_values(|e: (u64, V)| (e.0, f(e.1)))
}

/// A lookup in transformed entries is the transformed lookup.
pub proof fn lemma_entries_get_map<V, W>(entries: Seq<(u64, V)>, key: u64, f: spec_fn(V) -> W)
    ensures
        entries_get(entries_map(entries, f), key) == match entries_get(entries, key) {
            Some(v) => Some(f(v)),
            None => None,
        },
{
    assert(entries_keys(entries_map(entries, f)) =~= entries_keys(entries));
    lemma_key_index(entries_keys(entries), key);
}

/// Inserting commutes with transforming the values.
pub proof fn lemma_entries_insert_map<V, W>(entries: Seq<(u64, V)>, key: u64, value: V, f: spec_fn(V) -> W)
    ensures
        entries_map(entries_insert(entries, key, value), f) == entries_insert(entries_map(entries, f), key, f(value)),
{
    let mapped = entries_map(entries, f);
    assert(entries_keys(mapped) =~= entries_keys(entries));
    lemma_key_index(entries_keys(entries), key);
    assert(entries_map(entries_insert(entries, key, value), f) =~= entries_insert(mapped, key, f(value)));
}

/// The entries of a map of named items by identifier, in their order.
pub uninterp spec fn named_item_entries(m: OrderedHashMap<u64, NamedItemAst>) -> Seq<(u64, NamedItemAst)>;

/// The entries of a map of submodule items by identifier, in their order.
pub uninterp spec fn module_item_entries(m: OrderedHashMap<u64, ItemModuleAst>) -> Seq<(u64, ItemModuleAst)>;

/// The entries of a map of use leaves by identifier, in their order.
pub uninterp spec fn use_leaf_entries(m: OrderedHashMap<u64, UsePathLeaf>) -> Seq<(u64, UsePathLeaf)>;

/// The entries of a map of modules by file, in their order.
pub uninterp spec fn file_modules_entries(m: OrderedHashMap<u64, Vec<ModuleId>>) -> Seq<(u64, Vec<ModuleId>)>;

/// `OrderedHashMap::default` for named items: an empty map.
#[verifier::external_body]
pub(crate) fn named_items_new() -> (r: OrderedHashMap<u64, NamedItemAst>)
    ensures
        named_item_entries(r) == Seq::<(u64, NamedItemAst)>::empty(),
{
    OrderedHashMap::default()
}

/// `OrderedHashMap::insert` for named items.
#[verifier::external_body]
pub(crate) fn named_items_insert(m: &mut OrderedHashMap<u64, NamedItemAst>, key: u64, value: NamedItemAst)
    ensures
        named_item_entries(*final(m)) == entries_insert(named_item_entries(*old(m)), key, value),
{
    m.insert(key, value);
}

/// `OrderedHashMap::get` for named items.
#[verifier::external_body]
pub(crate) fn named_items_get(m: &OrderedHashMap<u64, NamedItemAst>, key: u64) -> (r: Option<&NamedItemAst>)
    ensures
        option_deref(r) == entries_get(named_item_entries(*m), key),
{
    m.get(&key)
}

/// `OrderedHashMap::keys` for named items, collected.
#[verifier::external_body]
pub(crate) fn named_items_keys(m: &OrderedHashMap<u64, NamedItemAst>) -> (r: Vec<u64>)
    ensures
        r@ == entries_keys(named_item_entries(*m)),
{
    m.keys().copied().collect()
}

/// `OrderedHashMap::default` for submodule items: an empty map.
#[verifier::external_body]
pub(crate) fn module_items_new() -> (r: OrderedHashMap<u64, ItemModuleAst>)
    ensures
        module_item_entries(r) == Seq::<(u64, ItemModuleAst)>::empty(),
{
    OrderedHashMap::default()
}

/// `OrderedHashMap::insert` for submodule items.
#[verifier::external_body]
pub(crate) fn module_items_insert(m: &mut OrderedHashMap<u64, ItemModuleAst>, key: u64, value: ItemModuleAst)
    ensures
        module_item_entries(*final(m)) == entries_insert(module_item_entries(*old(m)), key, value),
{
    m.insert(key, value);
}

/// `OrderedHashMap::get` for submodule items.
#[verifier::external_body]
pub(crate) fn module_items_get(m: &OrderedHashMap<u64, ItemModuleAst>, key: u64) -> (r: Option<&ItemModuleAst>)
    ensures
        option_deref(r) == entries_get(module_item_entries(*m), key),
{
    m.get(&key)
}

/// `OrderedHashMap::keys` for submodule items, collected.
#[verifier::external_body]
pub(crate) fn module_items_keys(m: &OrderedHashMap<u64, ItemModuleAst>) -> (r: Vec<u64>)
    ensures
        r@ == entries_keys(module_item_entries(*m)),
{
    m.keys().copied().collect()
}

/// `OrderedHashMap::shift_remove` for submodule items: takes a key's value out of the map,
/// keeping the order of the other entries.
#[verifier::external_body]
pub(crate) fn module_items_remove(m: &mut OrderedHashMap<u64, ItemModuleAst>, key: u64) -> (r: Option<ItemModuleAst>)
    ensures
        r == entries_get(module_item_entries(*old(m)), key),
        module_item_entries(*final(m)) == entries_remove(module_item_entries(*old(m)), key),
{
    m.shift_remove(&key)
}

/// `OrderedHashMap::default` for use leaves: an empty map.
#[verifier::external_body]
pub(crate) fn use_leaves_new() -> (r: OrderedHashMap<u64, UsePathLeaf>)
    ensures
        use_leaf_entries(r) == Seq::<(u64, UsePathLeaf)>::empty(),
{
    OrderedHashMap::default()
}

/// `OrderedHashMap::insert` for use leaves.
#[verifier::external_body]
pub(crate) fn use_leaves_insert(m: &mut OrderedHashMap<u64, UsePathLeaf>, key: u64, value: UsePathLeaf)
    ensures
        use_leaf_entries(*final(m)) == entries_insert(use_leaf_entries(*old(m)), key, value),
{
    m.insert(key, value);
}

/// `OrderedHashMap::get` for use leaves.
#[verifier::external_body]
pub(crate) fn use_leaves_get(m: &OrderedHashMap<u64, UsePathLeaf>, key: u64) -> (r: Option<&UsePathLeaf>)
    ensures
        option_deref(r) == entries_get(use_leaf_entries(*m), key),
{
    m.get(&key)
}

/// `OrderedHashMap::keys` for use leaves, collected.
#[verifier::external_body]
pub(crate) fn use_leaves_keys(m: &OrderedHashMap<u64, UsePathLeaf>) -> (r: Vec<u64>)
    ensures
        r@ == entries_keys(use_leaf_entries(*m)),
{
    m.keys().copied().collect()
}

/// `OrderedHashMap::default` for modules by file: an empty map.
#[verifier::external_body]
pub(crate) fn file_modules_new() -> (r: OrderedHashMap<u64, Vec<ModuleId>>)
    ensures
        file_modules_entries(r) == Seq::<(u64, Vec<ModuleId>)>::empty(),
{
    OrderedHashMap::default()
}

/// `OrderedHashMap::insert` for modules by file.
#[verifier::external_body]
pub(crate) fn file_modules_insert(m: &mut OrderedHashMap<u64, Vec<ModuleId>>, key: u64, value: Vec<ModuleId>)
    ensures
        file_modules_entries(*final(m)) == entries_insert(file_modules_entries(*old(m)), key, value),
{
    m.insert(key, value);
}

/// `OrderedHashMap::get` for modules by file.
#[verifier::external_body]
pub(crate) fn file_modules_get(m: &OrderedHashMap<u64, Vec<ModuleId>>, key: u64) -> (r: Option<&Vec<ModuleId>>)
    ensures
        option_deref(r) == entries_get(file_modules_entries(*m), key),
{
    m.get(&key)
}

} // verus!
