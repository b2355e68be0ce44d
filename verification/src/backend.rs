//! The durable storage backing: a persisted counter cell and a persisted
//! ordered map from identifier to encoded record, kept in stable structures
//! of the `ic_stable_structures` crate, laid out in two disjoint virtual
//! memories of one backing memory.
//!
//! The two structures are held behind opaque wrapper types, because their own
//! generic bounds name traits of the outside crate that the verifier cannot
//! read. Two uninterpreted names — `counter_value` and `map_contents` — stand
//! for what they hold, and each operation the store needs is a trusted
//! wrapper whose contract states, over those names, what the crate's source
//! shows the call does.

use vstd::prelude::*;
use ic_stable_structures::{Cell, DefaultMemoryImpl, StableBTreeMap};
use ic_stable_structures::memory_manager::{MemoryId, MemoryManager, VirtualMemory};
use crate::codec::{spec_decode, MAX_RECORD_BYTES};

verus! {

/// A durable counter: a persisted 64-bit cell.
#[verifier::external_body]
pub struct DurableCounter {
    cell: Cell<u64, VirtualMemory<DefaultMemoryImpl>>,
}

/// The value the durable counter holds.
pub uninterp spec fn counter_value(c: DurableCounter) -> u64;

/// A durable ordered map from 64-bit identifier to encoded record bytes.
#[verifier::external_body]
pub struct DurableMap {
    map: StableBTreeMap<u64, Vec<u8>, VirtualMemory<DefaultMemoryImpl>>,
}

/// The entries the durable map holds.
pub uninterp spec fn map_contents(m: DurableMap) -> Map<u64, Seq<u8>>;

/// The contents of a map that holds nothing.
pub open spec fn empty_contents() -> Map<u64, Seq<u8>> {
    Map::empty()
}

/// Relies on MemoryManager::init with Cell::new and BTreeMap::new: the
/// counter and the map are created fresh — the counter holding zero, the map
/// empty, whatever the backing memory held before — in two disjoint virtual
/// memories of one backing memory.
#[verifier::external_body]
pub(crate) fn backend_new() -> (r: (DurableCounter, DurableMap))
    ensures
        counter_value(r.0) == 0,
        map_contents(r.1) == empty_contents(),
{
    let manager = MemoryManager::init(DefaultMemoryImpl::default());
    let counter = DurableCounter { cell: Cell::new(manager.get(MemoryId::new(0)), 0) };
    let map = DurableMap { map: StableBTreeMap::new(manager.get(MemoryId::new(1))) };
    (counter, map)
}

/// Relies on MemoryManager::init with Cell::init and BTreeMap::init: the
/// counter and the map live in two disjoint virtual memories of one backing
/// memory, and are loaded from what it already holds, or created fresh — the
/// counter zero, the map empty — where it holds nothing. A loaded state is
/// trusted to be what these same structures persisted in an earlier run:
/// canonical record encodings within the size bound, each stored under its
/// record's own identifier, every identifier positive and at most the
/// counter.
#[verifier::external_body]
pub(crate) fn backend_open() -> (r: (DurableCounter, DurableMap))
    ensures
        map_contents(r.1).dom().finite(),
        forall|k: u64|
            #[trigger] map_contents(r.1).dom().contains(k) ==> {
                &&& spec_decode(map_contents(r.1)[k]) is Some
                &&& spec_decode(map_contents(r.1)[k])->0.id == k
                &&& map_contents(r.1)[k].len() <= MAX_RECORD_BYTES
                &&& 1 <= k && k <= counter_value(r.0)
            },
{
    let manager = MemoryManager::init(DefaultMemoryImpl::default());
    let counter = DurableCounter { cell: Cell::init(manager.get(MemoryId::new(0)), 0) };
    let map = DurableMap { map: StableBTreeMap::init(manager.get(MemoryId::new(1))) };
    (counter, map)
}

/// Relies on ic_stable_structures::Cell::get: it returns the current value.
#[verifier::external_body]
pub(crate) fn counter_get(c: &DurableCounter) -> (v: u64)
    ensures
        v == counter_value(*c),
{
    *c.cell.get()
}

/// Relies on ic_stable_structures::Cell::set: it persists the new value and
/// stores it in the cell, replacing the previous one.
#[verifier::external_body]
pub(crate) fn counter_set(c: &mut DurableCounter, v: u64)
    ensures
        counter_value(*final(c)) == v,
{
    c.cell.set(v);
}

/// Relies on ic_stable_structures::BTreeMap::insert: it persists the value
/// under the key, replacing and returning the previous value if one was there.
#[verifier::external_body]
pub(crate) fn map_insert(m: &mut DurableMap, key: u64, value: Vec<u8>) -> (prev: Option<Vec<u8>>)
    ensures
        map_contents(*final(m)) == map_contents(*old(m)).insert(key, value@),
        match prev {
            Option::Some(p) => map_contents(*old(m)).dom().contains(key) && p@ == map_contents(
                *old(m),
            )[key],
            Option::None => !map_contents(*old(m)).dom().contains(key),
        },
{
    m.map.insert(key, value)
}

/// Relies on ic_stable_structures::BTreeMap::get: it returns a copy of the
/// value stored under the key, if one is there, and changes nothing.
#[verifier::external_body]
pub(crate) fn map_get(m: &DurableMap, key: u64) -> (r: Option<Vec<u8>>)
    ensures
        match r {
            Option::Some(v) => map_contents(*m).dom().contains(key) && v@ == map_contents(
                *m,
            )[key],
            Option::None => !map_contents(*m).dom().contains(key),
        },
{
    m.map.get(&key)
}

/// Relies on ic_stable_structures::BTreeMap::remove: it removes the entry
/// under the key and returns its value, if one was there.
#[verifier::external_body]
pub(crate) fn map_remove(m: &mut DurableMap, key: u64) -> (r: Option<Vec<u8>>)
    ensures
        map_contents(*final(m)) == map_contents(*old(m)).remove(key),
        match r {
            Option::Some(v) => map_contents(*old(m)).dom().contains(key) && v@ == map_contents(
                *old(m),
            )[key],
            Option::None => !map_contents(*old(m)).dom().contains(key),
        },
{
    m.map.remove(&key)
}

} // verus!
