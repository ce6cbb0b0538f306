//! The durable substrate: a counter cell and an ordered map of record
//! bytes, both from `ic_stable_structures`. A state made by
//! `durable_new` lives in fresh process-lifetime memories; one made by
//! `durable_open` lives in the target's default memory — on the
//! Internet Computer the canister's stable memory, so it survives
//! upgrades. Everything the rest of the library knows about either is
//! said here, over `durable_counter` and `durable_entries`.
use vstd::prelude::*;

use ic_stable_structures::btreemap::BTreeMap;
use ic_stable_structures::cell::Cell;
use ic_stable_structures::memory_manager::MemoryId;
use ic_stable_structures::memory_manager::MemoryManager;
use ic_stable_structures::memory_manager::VirtualMemory;
use ic_stable_structures::DefaultMemoryImpl;
use ic_stable_structures::VectorMemory;

use crate::codec::spec_decode;

verus! {

/// The most bytes one stored record may take; the store refuses a
/// larger record rather than truncate it.
pub const MAX_PROPOSAL_BYTES: usize = 5000;

/// The two regions in fresh in-process memories.
#[verifier::external_body]
pub struct FreshRegions {
    counter: Cell<u64, VectorMemory>,
    entries: BTreeMap<u64, Vec<u8>, VectorMemory>,
}

/// The two regions carved out of the target's default memory under
/// their own memory ids.
#[verifier::external_body]
pub struct StableRegions {
    counter: Cell<u64, VirtualMemory<DefaultMemoryImpl>>,
    entries: BTreeMap<u64, Vec<u8>, VirtualMemory<DefaultMemoryImpl>>,
}

/// The durable regions the service works against: the identifier
/// counter and the record store, in either backing.
pub enum DurableState {
    Fresh(FreshRegions),
    Stable(StableRegions),
}

/// The value the counter cell holds.
pub uninterp spec fn durable_counter(s: DurableState) -> u64;

/// The records the store holds, each as its stored bytes.
pub uninterp spec fn durable_entries(s: DurableState) -> Map<u64, Seq<u8>>;

/// Relies on `Cell::init` and `BTreeMap::init` of `ic_stable_structures`
/// on fresh in-process memories: the cell then holds the given initial
/// value and the map starts empty. This state does not outlive the
/// process; for the target's persisted regions see `durable_open`.
#[verifier::external_body]
pub fn durable_new(initial: u64) -> (st: DurableState)
    ensures
        durable_counter(st) == initial,
        durable_entries(st).dom() == Set::<u64>::empty(),
{
    let counter = Cell::init(VectorMemory::default(), initial);
    let entries = BTreeMap::init(VectorMemory::default());
    (DurableState::Fresh(FreshRegions { counter, entries }))
}

/// Relies on `MemoryManager::init`, `Cell::init` and `BTreeMap::init`
/// of `ic_stable_structures` over the target's default memory — the
/// canister's stable memory on the Internet Computer — carving the
/// counter and the store out of it under their own memory ids.
/// A fresh target starts with the given initial value and an empty
/// store; otherwise both structures reload what was last written.
/// The clauses state what is thereby assumed of the reopened memory:
/// it holds either nothing or state written through this module, and
/// every state written through this module satisfies them. On a memory
/// holding anything else they do not hold and the reload may fail.
#[verifier::external_body]
pub fn durable_open(initial: u64) -> (st: DurableState)
    ensures
        forall|k: u64| #[trigger] durable_entries(st).dom().contains(k) ==> {
            let e = durable_entries(st)[k];
            &&& spec_decode(e) is Some
            &&& spec_decode(e).unwrap().id == k
            &&& spec_decode(e).unwrap().inv()
            &&& e.len() <= MAX_PROPOSAL_BYTES
            &&& 1 <= k <= durable_counter(st)
        },
{
    let manager = MemoryManager::init(DefaultMemoryImpl::default());
    let counter = Cell::init(manager.get(MemoryId::new(0)), initial);
    let entries = BTreeMap::init(manager.get(MemoryId::new(1)));
    (DurableState::Stable(StableRegions { counter, entries }))
}

/// Relies on `Cell::get` of `ic_stable_structures`: returns the held value.
#[verifier::external_body]
pub fn counter_get(s: &DurableState) -> (r: u64)
    ensures
        r == durable_counter(*s),
{
    match s {
        DurableState::Fresh(r) => *r.counter.get(),
        DurableState::Stable(r) => *r.counter.get(),
    }
}

/// Relies on `Cell::set` of `ic_stable_structures`: writes the value
/// through to the memory and holds it; an 8-byte value always fits.
#[verifier::external_body]
pub fn counter_set(s: &mut DurableState, v: u64)
    ensures
        durable_counter(*final(s)) == v,
        durable_entries(*final(s)) == durable_entries(*old(s)),
{
    match s {
        DurableState::Fresh(r) => {
            r.counter.set(v);
        },
        DurableState::Stable(r) => {
            r.counter.set(v);
        },
    }
}

/// Relies on `BTreeMap::get` of `ic_stable_structures`: returns the
/// bytes stored under the key, if any.
#[verifier::external_body]
pub fn entries_get(s: &DurableState, id: u64) -> (r: Option<Vec<u8>>)
    ensures
        match r {
            Some(v) => durable_entries(*s).dom().contains(id) && v@ == durable_entries(*s)[id],
            None => !durable_entries(*s).dom().contains(id),
        },
{
    match s {
        DurableState::Fresh(r) => r.entries.get(&id),
        DurableState::Stable(r) => r.entries.get(&id),
    }
}

/// Relies on `BTreeMap::insert` of `ic_stable_structures`: stores the
/// bytes under the key and returns what was there before.
#[verifier::external_body]
pub fn entries_insert(s: &mut DurableState, id: u64, bytes: Vec<u8>) -> (r: Option<Vec<u8>>)
    ensures
        durable_entries(*final(s)) == durable_entries(*old(s)).insert(id, bytes@),
        durable_counter(*final(s)) == durable_counter(*old(s)),
        match r {
            Some(v) => durable_entries(*old(s)).dom().contains(id) && v@ == durable_entries(
                *old(s),
            )[id],
            None => !durable_entries(*old(s)).dom().contains(id),
        },
{
    match s {
        DurableState::Fresh(r) => r.entries.insert(id, bytes),
        DurableState::Stable(r) => r.entries.insert(id, bytes),
    }
}

} // verus!
