//! Hash maps and hash sets keyed by an integer, as `rustc_hash` provides
//! them. Verus does not read the hasher, so what each operation does to the
//! contents is stated here and taken on trust; the contents themselves are
//! the view that vstd gives to `HashMap` and `HashSet`.

use core::hash::BuildHasherDefault;
use rustc_hash::{FxHashMap, FxHashSet, FxHasher};
use vstd::prelude::*;

verus! {

/// `rustc_hash::FxHasher`, carried through as an opaque value.
#[verifier::external_type_specification]
#[verifier::external_body]
pub struct ExFxHasher(FxHasher);

/// `core::hash::BuildHasherDefault`, the hasher factory of `FxHashMap` and
/// `FxHashSet`, carried through as an opaque value.
#[verifier::external_type_specification]
#[verifier::external_body]
#[verifier::reject_recursive_types(H)]
pub struct ExBuildHasherDefault<H>(BuildHasherDefault<H>);

/// `FxHashMap::default`: a map without entries.
#[verifier::external_body]
pub(crate) fn map_new<V>() -> (m: FxHashMap<usize, V>)
    ensures
        m@.dom() == Set::<usize>::empty(),
{
    FxHashMap::default()
}

/// `HashMap::contains_key` on an `FxHashMap`: whether `k` is a key.
#[verifier::external_body]
pub(crate) fn map_contains<V>(m: &FxHashMap<usize, V>, k: usize) -> (r: bool)
    ensures
        r == m@.contains_key(k),
{
    m.contains_key(&k)
}

/// `HashMap::get` on an `FxHashMap`: the value under `k`, if `k` is a key.
#[verifier::external_body]
pub(crate) fn map_get<V>(m: &FxHashMap<usize, V>, k: usize) -> (r: Option<&V>)
    ensures
        r == (if m@.contains_key(k) {
            Some(&m@[k])
        } else {
            None
        }),
{
    m.get(&k)
}

/// `HashMap::get_mut` on an `FxHashMap`, for a key of the map: mutable
/// access to the value under `k`. What is written through it is the value
/// under `k` afterwards, and the other keys keep their values.
#[verifier::external_body]
pub(crate) fn map_get_mut<V>(m: &mut FxHashMap<usize, V>, k: usize) -> (r: &mut V)
    requires
        old(m)@.contains_key(k),
    ensures
        *r == old(m)@[k],
        final(m)@ == old(m)@.insert(k, *final(r)),
{
    m.get_mut(&k).unwrap()
}

/// `HashMap::insert` on an `FxHashMap`: `k` maps to `v` afterwards, the other
/// keys keep their values, and the value that `k` had before is returned.
#[verifier::external_body]
pub(crate) fn map_insert<V>(m: &mut FxHashMap<usize, V>, k: usize, v: V) -> (r: Option<V>)
    ensures
        final(m)@ == old(m)@.insert(k, v),
        r == (if old(m)@.contains_key(k) {
            Some(old(m)@[k])
        } else {
            None
        }),
{
    m.insert(k, v)
}

/// `HashMap::remove` on an `FxHashMap`: `k` is no key afterwards, the other
/// keys keep their values, and the value that `k` had is returned.
#[verifier::external_body]
pub(crate) fn map_remove<V>(m: &mut FxHashMap<usize, V>, k: usize) -> (r: Option<V>)
    ensures
        final(m)@ == old(m)@.remove(k),
        r == (if old(m)@.contains_key(k) {
            Some(old(m)@[k])
        } else {
            None
        }),
{
    m.remove(&k)
}

/// `HashMap::keys` on an `FxHashMap`, collected: every key once, in an order
/// that is not stated.
#[verifier::external_body]
pub(crate) fn map_keys<V>(m: &FxHashMap<usize, V>) -> (r: Vec<usize>)
    ensures
        r@.no_duplicates(),
        r@.to_set() == m@.dom(),
{
    m.keys().copied().collect()
}

/// `FxHashSet::default`: a set without elements.
#[verifier::external_body]
pub(crate) fn set_new() -> (s: FxHashSet<usize>)
    ensures
        s@ == Set::<usize>::empty(),
{
    FxHashSet::default()
}

/// `HashSet::contains` on an `FxHashSet`: whether `k` is an element.
#[verifier::external_body]
pub(crate) fn set_contains(s: &FxHashSet<usize>, k: usize) -> (r: bool)
    ensures
        r == s@.contains(k),
{
    s.contains(&k)
}

/// `HashSet::insert` on an `FxHashSet`: `k` is an element afterwards, and
/// the result says whether it was new.
#[verifier::external_body]
pub(crate) fn set_insert(s: &mut FxHashSet<usize>, k: usize) -> (r: bool)
    ensures
        final(s)@ == old(s)@.insert(k),
        r == !old(s)@.contains(k),
{
    s.insert(k)
}

/// `HashSet::remove` on an `FxHashSet`: `k` is no element afterwards, and
/// the result says whether it was one.
#[verifier::external_body]
pub(crate) fn set_remove(s: &mut FxHashSet<usize>, k: usize) -> (r: bool)
    ensures
        final(s)@ == old(s)@.remove(k),
        r == old(s)@.contains(k),
{
    s.remove(&k)
}

/// `HashSet::iter` on an `FxHashSet`, collected: every element once, in an
/// order that is not stated.
#[verifier::external_body]
pub(crate) fn set_elements(s: &FxHashSet<usize>) -> (r: Vec<usize>)
    ensures
        r@.no_duplicates(),
        r@.to_set() == s@,
{
    s.iter().copied().collect()
}

} // verus!
