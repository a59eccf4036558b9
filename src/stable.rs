//! Durable storage primitives of `ic_stable_structures`, declared for Verus.
//!
//! The crate's types are bounded by its own `Memory` and `Storable` traits,
//! which Verus cannot take as bounds of a declared type, so each structure is
//! held in a field that Verus does not read. Opening durable memory is left
//! to the caller, who builds these holders from the opened structures. What
//! the map and the cell hold is named by `map_contents` and `cell_value`, and
//! every wrapper below states its effect over those names.
use ic_stable_structures::memory_manager::VirtualMemory;
use ic_stable_structures::{Cell, DefaultMemoryImpl, StableBTreeMap};
use vstd::prelude::*;

verus! {

/// A durable ordered map from identifiers to encoded records. It must have
/// its memory region to itself.
#[verifier::external_body]
pub struct ByteMap {
    pub map: StableBTreeMap<u64, Vec<u8>, VirtualMemory<DefaultMemoryImpl>>,
}

/// A durable cell holding one counter. It must have its memory region to
/// itself.
#[verifier::external_body]
pub struct CounterCell {
    pub cell: Cell<u64, VirtualMemory<DefaultMemoryImpl>>,
}

/// The entries of a durable map.
pub uninterp spec fn map_contents(m: ByteMap) -> Map<u64, Seq<u8>>;

/// The value held by a durable cell.
pub uninterp spec fn cell_value(c: CounterCell) -> u64;

/// Relies on `StableBTreeMap::insert`: sets the entry at `key`, leaving the
/// others, and hands back the value it replaced.
#[verifier::external_body]
pub(crate) fn map_insert(m: &mut ByteMap, key: u64, value: Vec<u8>) -> (r: Option<Vec<u8>>)
    ensures
        map_contents(*final(m)) == map_contents(*old(m)).insert(key, value@),
        r is Some <==> map_contents(*old(m)).contains_key(key),
        r is Some ==> r->0@ == map_contents(*old(m))[key],
{
    m.map.insert(key, value)
}

/// Relies on `StableBTreeMap::get`: the value at `key`, if any.
#[verifier::external_body]
pub(crate) fn map_get(m: &ByteMap, key: u64) -> (r: Option<Vec<u8>>)
    ensures
        r is Some <==> map_contents(*m).contains_key(key),
        r is Some ==> r->0@ == map_contents(*m)[key],
{
    m.map.get(&key)
}

/// Relies on `StableBTreeMap::iter`: every entry, once, in ascending key
/// order.
#[verifier::external_body]
pub(crate) fn map_entries(m: &ByteMap) -> (r: Vec<(u64, Vec<u8>)>)
    ensures
        forall|i: int, j: int| 0 <= i < j < r@.len() ==> r@[i].0 < r@[j].0,
        forall|i: int|
            0 <= i < r@.len() ==> #[trigger] map_contents(*m).contains_key(r@[i].0)
                && map_contents(*m)[r@[i].0] == r@[i].1@,
        forall|k: u64|
            #[trigger] map_contents(*m).contains_key(k) ==> exists|i: int|
                0 <= i < r@.len() && r@[i].0 == k,
{
    m.map.iter().collect()
}

/// Relies on `Cell::get`: the value held.
#[verifier::external_body]
pub(crate) fn cell_get(c: &CounterCell) -> (r: u64)
    ensures
        r == cell_value(*c),
{
    *c.cell.get()
}

/// Relies on `Cell::set`: the cell then holds `value`. `set` fails only when
/// the encoded value does not fit and the memory cannot grow; a `u64` encodes
/// to 8 bytes, and every cell has written its value when it was made, so its
/// memory already holds a page, which 8 bytes and the header fit in.
#[verifier::external_body]
pub(crate) fn cell_set(c: &mut CounterCell, value: u64)
    ensures
        cell_value(*final(c)) == value,
{
    let _ = c.cell.set(value);
}

} // verus!
