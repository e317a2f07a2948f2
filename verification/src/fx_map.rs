//! Hash maps of the `rustc_hash` crate: one keyed by cell index, one keyed by
//! the workchain and tagged prefix of a shard.

use rustc_hash::FxHashMap;
use vstd::prelude::*;

verus! {

/// The hasher of the `rustc_hash` crate. Nothing is stated of it.
#[verifier::external_type_specification]
#[verifier::external_body]
pub struct ExFxHasher(rustc_hash::FxHasher);

/// The builder that makes a hasher by `Default`. Nothing is stated of it.
#[verifier::external_type_specification]
#[verifier::external_body]
#[verifier::reject_recursive_types(H)]
pub struct ExBuildHasherDefault<H>(core::hash::BuildHasherDefault<H>);

/// `FxHashMap::default`: a new map.
///
/// Trusted: the new map holds nothing.
#[verifier::external_body]
pub(crate) fn fx_new() -> (out: FxHashMap<u32, Vec<u8>>)
    ensures
        out@.dom() == Set::<u32>::empty(),
{
    FxHashMap::default()
}

/// `HashMap::insert` on a map that hashes with `FxHasher`.
///
/// Trusted: afterwards the map holds `value` under `key`, and under every
/// other key what it held before.
#[verifier::external_body]
pub(crate) fn fx_insert(map: &mut FxHashMap<u32, Vec<u8>>, key: u32, value: Vec<u8>)
    ensures
        final(map)@ == old(map)@.insert(key, value),
{
    map.insert(key, value);
}

/// `HashMap::get` on a map that hashes with `FxHasher`.
///
/// Trusted: the result is what the map holds under `key`, and `None` if it
/// holds nothing under it.
#[verifier::external_body]
pub(crate) fn fx_get<'a>(map: &'a FxHashMap<u32, Vec<u8>>, key: u32) -> (value: Option<&'a Vec<u8>>)
    ensures
        match value {
            Some(v) => map@.contains_key(key) && *v == map@[key],
            None => !map@.contains_key(key),
        },
{
    map.get(&key)
}

/// `FxHashMap::default`: a new map.
///
/// Trusted: the new map holds nothing.
#[verifier::external_body]
pub(crate) fn fx_heights_new() -> (out: FxHashMap<(i32, u64), u32>)
    ensures
        out@.dom() == Set::<(i32, u64)>::empty(),
{
    FxHashMap::default()
}

/// `HashMap::insert` on a map that hashes with `FxHasher`.
///
/// Trusted: afterwards the map holds `value` under `key`, and under every
/// other key what it held before.
#[verifier::external_body]
pub(crate) fn fx_heights_insert(map: &mut FxHashMap<(i32, u64), u32>, key: (i32, u64), value: u32)
    ensures
        final(map)@ == old(map)@.insert(key, value),
{
    map.insert(key, value);
}

/// `HashMap::get` on a map that hashes with `FxHasher`.
///
/// Trusted: the result is what the map holds under `key`, and `None` if it
/// holds nothing under it.
#[verifier::external_body]
pub(crate) fn fx_heights_get(map: &FxHashMap<(i32, u64), u32>, key: (i32, u64)) -> (value: Option<
    u32,
>)
    ensures
        match value {
            Some(v) => map@.contains_key(key) && v == map@[key],
            None => !map@.contains_key(key),
        },
{
    map.get(&key).copied()
}

/// `HashMap::iter` on a map that hashes with `FxHasher`, collected into a
/// vector.
///
/// Trusted: the result lists every key of the map once, each with what the
/// map holds under it. Nothing is said of the order.
#[verifier::external_body]
pub(crate) fn fx_heights_entries(map: &FxHashMap<(i32, u64), u32>) -> (out: Vec<((i32, u64), u32)>)
    ensures
        lists_map(out@, map@),
{
    map.iter().map(|(key, value)| (*key, *value)).collect()
}

/// Whether `entries` lists every key of `map` once, each with what the map
/// holds under it.
pub open spec fn lists_map(entries: Seq<((i32, u64), u32)>, map: Map<(i32, u64), u32>) -> bool {
    &&& forall|i: int|
        0 <= i < entries.len() ==> map.contains_key(#[trigger] entries[i].0) && map[entries[i].0]
            == entries[i].1
    &&& forall|i: int, j: int|
        0 <= i < j < entries.len() ==> #[trigger] entries[i].0 != #[trigger] entries[j].0
    &&& forall|key: (i32, u64)|
        map.contains_key(key) ==> exists|i: int|
            0 <= i < entries.len() && #[trigger] entries[i].0 == key
}

} // verus!
