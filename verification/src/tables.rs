//! Hash tables keyed by identifiers and handles.
//!
//! The tables are `rustc_hash`'s `FxHashMap` and `FxHashSet`: the standard
//! hash map and hash set with the deterministic `FxHasher`. Their contents are
//! the views that `vstd` gives to the standard collections. What each
//! operation does to those contents is assumed here, not proved, for keys
//! that hash and compare by their value.

use rustc_hash::{FxHashMap, FxHashSet, FxHasher};
use std::hash::{BuildHasherDefault, Hash};
use vstd::prelude::*;
use vstd::std_specs::hash::obeys_key_model;

verus! {

/// `rustc_hash::FxHasher`, carried as an opaque value.
#[verifier::external_type_specification]
#[verifier::external_body]
pub struct ExFxHasher(FxHasher);

/// `std::hash::BuildHasherDefault`, carried as an opaque value.
#[verifier::external_type_specification]
#[verifier::external_body]
#[verifier::reject_recursive_types(H)]
pub struct ExBuildHasherDefault<H>(BuildHasherDefault<H>);

/// `FxHashSet::default`: assumed to give a set without elements.
#[verifier::external_body]
pub(crate) fn id_set_new<K>() -> (s: FxHashSet<K>)
    ensures
        s@ == Set::<K>::empty(),
{
    FxHashSet::default()
}

/// `HashSet::insert` on an `FxHashSet`: assumed to add `id` to the set and
/// to return whether it was absent before.
#[verifier::external_body]
pub(crate) fn id_set_insert<K: Hash + Eq>(s: &mut FxHashSet<K>, id: K) -> (fresh: bool)
    requires
        obeys_key_model::<K>(),
    ensures
        final(s)@ == old(s)@.insert(id),
        fresh == !old(s)@.contains(id),
{
    s.insert(id)
}

/// `FxHashMap::default`: assumed to give a map without entries.
#[verifier::external_body]
pub(crate) fn id_map_new<K, V>() -> (m: FxHashMap<K, V>)
    ensures
        m@.dom() == Set::<K>::empty(),
{
    FxHashMap::default()
}

/// `HashMap::insert` on an `FxHashMap`: assumed to bind `id` to `value` and
/// to return the value that `id` was bound to before, if any.
#[verifier::external_body]
pub(crate) fn id_map_insert<K: Hash + Eq, V>(m: &mut FxHashMap<K, V>, id: K, value: V) -> (prev:
    Option<V>)
    requires
        obeys_key_model::<K>(),
    ensures
        final(m)@ == old(m)@.insert(id, value),
        prev == (if old(m)@.contains_key(id) { Some(old(m)@[id]) } else { None::<V> }),
{
    m.insert(id, value)
}

/// `HashMap::get` on an `FxHashMap`: assumed to return the value that `id`
/// is bound to, if any.
#[verifier::external_body]
pub(crate) fn id_map_get<'a, K: Hash + Eq, V>(m: &'a FxHashMap<K, V>, id: K) -> (found: Option<
    &'a V,
>)
    requires
        obeys_key_model::<K>(),
    ensures
        found == (if m@.contains_key(id) { Some(&m@[id]) } else { None::<&V> }),
{
    m.get(&id)
}

/// `HashMap::remove` on an `FxHashMap`: assumed to unbind `id` and to return
/// the value that it was bound to, if any.
#[verifier::external_body]
pub(crate) fn id_map_remove<K: Hash + Eq, V>(m: &mut FxHashMap<K, V>, id: K) -> (prev: Option<V>)
    requires
        obeys_key_model::<K>(),
    ensures
        final(m)@ == old(m)@.remove(id),
        prev == (if old(m)@.contains_key(id) { Some(old(m)@[id]) } else { None::<V> }),
{
    m.remove(&id)
}

/// `HashMap::len` on an `FxHashMap`: assumed to give the number of keys
/// bound.
#[verifier::external_body]
pub(crate) fn id_map_len<K, V>(m: &FxHashMap<K, V>) -> (n: usize)
    ensures
        n == m@.dom().len(),
{
    m.len()
}

/// `HashMap::keys` on an `FxHashMap`, collected into a vector: assumed to
/// give every bound key once, in an order that is not specified.
#[verifier::external_body]
pub(crate) fn id_map_keys<K: Copy, V>(m: &FxHashMap<K, V>) -> (ids: Vec<K>)
    ensures
        ids@.to_set() == m@.dom(),
        ids@.no_duplicates(),
{
    m.keys().copied().collect()
}

} // verus!
