//! Trusted interface to `rustc_hash`'s hash map and set.
//!
//! `FxHashMap` and `FxHashSet` are std's `HashMap`/`HashSet` with the
//! crate's `FxBuildHasher`, a unit struct whose `build_hasher` returns
//! `FxHasher::default()` — a fixed, deterministic hasher. The search
//! frontiers and dedup sets of this crate use them with plain integer
//! keys, whose `Eq` and `Hash` are the primitive ones, so the maps
//! behave exactly as vstd's hash-map model (`@` as `Map`, `@` as
//! `Set`) describes; each wrapper below states the one method fact its
//! callers rely on.

use vstd::prelude::*;
use rustc_hash::{FxHashMap, FxHashSet, FxBuildHasher};

verus! {

#[verifier::external_type_specification]
#[verifier::external_body]
pub struct ExFxBuildHasher(FxBuildHasher);

/// Relies on `FxHashMap::default`: a new map is empty.
#[verifier::external_body]
pub fn fx_map_new<V>() -> (m: FxHashMap<u64, V>)
    ensures
        m@ =~= Map::empty(),
{
    FxHashMap::default()
}

/// Relies on `HashMap::insert` with the deterministic Fx hasher and
/// `u64` keys: the map gains exactly the given binding.
#[verifier::external_body]
pub fn fx_map_insert<V>(m: &mut FxHashMap<u64, V>, k: u64, v: V)
    ensures
        final(m)@ == old(m)@.insert(k, v),
{
    m.insert(k, v);
}

/// Relies on `HashMap::get` with the deterministic Fx hasher and
/// `u64` keys: the result reports exactly the map's binding for `k`.
#[verifier::external_body]
pub fn fx_map_get<'a, V>(m: &'a FxHashMap<u64, V>, k: u64) -> (r: Option<&'a V>)
    ensures
        match r {
            Some(v) => m@.contains_key(k) && *v == m@[k],
            None => !m@.contains_key(k),
        },
{
    m.get(&k)
}

/// Relies on `HashMap::contains_key` with the deterministic Fx hasher
/// and `u64` keys.
#[verifier::external_body]
pub fn fx_map_contains<V>(m: &FxHashMap<u64, V>, k: u64) -> (r: bool)
    ensures
        r == m@.contains_key(k),
{
    m.contains_key(&k)
}

/// Relies on `FxHashSet::default`: a new set is empty.
#[verifier::external_body]
pub fn fx_set_new() -> (s: FxHashSet<u64>)
    ensures
        s@ =~= Set::empty(),
{
    FxHashSet::default()
}

/// Relies on `HashSet::with_capacity_and_hasher`: capacity does not
/// change the (empty) contents.
#[verifier::external_body]
pub fn fx_set_with_capacity(cap: usize) -> (s: FxHashSet<u64>)
    ensures
        s@ =~= Set::empty(),
{
    FxHashSet::with_capacity_and_hasher(cap, FxBuildHasher)
}

/// Relies on `HashSet::insert` with the deterministic Fx hasher and
/// `u64` keys: the set gains the key, and the result says whether it
/// was new.
#[verifier::external_body]
pub fn fx_set_insert(s: &mut FxHashSet<u64>, k: u64) -> (r: bool)
    ensures
        final(s)@ == old(s)@.insert(k),
        r == !old(s)@.contains(k),
{
    s.insert(k)
}

/// Relies on `HashSet::contains` with the deterministic Fx hasher and
/// `u64` keys.
#[verifier::external_body]
pub fn fx_set_contains(s: &FxHashSet<u64>, k: u64) -> (r: bool)
    ensures
        r == s@.contains(k),
{
    s.contains(&k)
}

/// Relies on `HashSet::len` with the deterministic Fx hasher and
/// `u64` keys; vstd's set model makes the length the set cardinality.
#[verifier::external_body]
pub fn fx_set_len(s: &FxHashSet<u64>) -> (n: usize)
    ensures
        n == s@.len(),
{
    s.len()
}

/// Relies on `FxHashMap::default`: a new color map is empty.
#[verifier::external_body]
pub fn fx_color_map_new() -> (m: FxHashMap<u8, u8>)
    ensures
        m@ =~= Map::empty(),
{
    FxHashMap::default()
}

/// Relies on `HashMap::insert` with the deterministic Fx hasher and
/// `u8` keys.
#[verifier::external_body]
pub fn fx_color_map_insert(m: &mut FxHashMap<u8, u8>, k: u8, v: u8)
    ensures
        final(m)@ == old(m)@.insert(k, v),
{
    m.insert(k, v);
}

/// Relies on `HashMap::get` with the deterministic Fx hasher and
/// `u8` keys.
#[verifier::external_body]
pub fn fx_color_map_get(m: &FxHashMap<u8, u8>, k: u8) -> (r: Option<u8>)
    ensures
        match r {
            Some(v) => m@.contains_key(k) && v == m@[k],
            None => !m@.contains_key(k),
        },
{
    m.get(&k).copied()
}

} // verus!
