//! The slot arena that holds the store's nodes, with stable generation-tagged handles.
//!
//! A handle is the 64-bit form of a slot key: generation in the high half, slot
//! index in the low half.
use vstd::prelude::*;
use crate::model::StoreElement;
use slotmap::{DefaultKey, Key, KeyData, SlotMap};

verus! {

/// One entity together with the handles of the nodes it is linked to.
#[derive(Debug)]
pub struct Node {
    pub element: StoreElement,
    pub links: Vec<u64>,
}

/// The arena of nodes: a slot map whose keys carry a generation tag, so that a
/// handle taken before a removal never names a later entry of the same slot.
#[verifier::external_body]
pub struct Arena {
    slots: SlotMap<DefaultKey, Node>,
}

/// The live entries of an arena, by handle.
pub uninterp spec fn arena_items(m: Arena) -> Map<u64, Node>;

/// The order in which an arena visits its live entries.
pub uninterp spec fn arena_order(m: Arena) -> Seq<u64>;

/// The most entries an arena may hold here; the arena itself stops short of `u32::MAX`.
pub const ARENA_CAPACITY: usize = 4_000_000_000;

/// Relies on SlotMap::new: a new arena holds nothing.
#[verifier::external_body]
pub(crate) fn arena_new() -> (r: Arena)
    ensures
        arena_items(r).dom() == Set::<u64>::empty(),
{
    Arena { slots: SlotMap::new() }
}

/// Relies on SlotMap::len: the number of live entries.
#[verifier::external_body]
pub(crate) fn arena_len(m: &Arena) -> (r: usize)
    ensures
        r == arena_items(*m).len(),
{
    m.slots.len()
}

/// Relies on SlotMap::insert: the value is stored under a key that no live entry
/// holds, and nothing else changes.  The arena panics only once it holds
/// `u32::MAX - 1` entries.
#[verifier::external_body]
pub(crate) fn arena_insert(m: &mut Arena, v: Node) -> (k: u64)
    requires
        arena_items(*old(m)).dom().finite(),
        arena_items(*old(m)).len() < ARENA_CAPACITY,
    ensures
        !arena_items(*old(m)).contains_key(k),
        arena_items(*final(m)) == arena_items(*old(m)).insert(k, v),
{
    m.slots.insert(v).data().as_ffi()
}

/// Relies on indexing a SlotMap with a live key: the value stored under it.
#[verifier::external_body]
pub(crate) fn arena_get(m: &Arena, k: u64) -> (r: &Node)
    requires
        arena_items(*m).contains_key(k),
    ensures
        *r == arena_items(*m)[k],
{
    &m.slots[DefaultKey::from(KeyData::from_ffi(k))]
}

/// Relies on mutable indexing of a SlotMap with a live key: what is written
/// through the reference becomes the value under that key.
#[verifier::external_body]
pub(crate) fn arena_get_mut(m: &mut Arena, k: u64) -> (r: &mut Node)
    requires
        arena_items(*old(m)).contains_key(k),
    ensures
        *r == arena_items(*old(m))[k],
        arena_items(*final(m)) == arena_items(*old(m)).insert(k, *final(r)),
{
    &mut m.slots[DefaultKey::from(KeyData::from_ffi(k))]
}

/// Relies on SlotMap::remove with a live key: the value comes back and the key
/// stops being live.
#[verifier::external_body]
pub(crate) fn arena_remove(m: &mut Arena, k: u64) -> (r: Option<Node>)
    requires
        arena_items(*old(m)).contains_key(k),
    ensures
        r == Some(arena_items(*old(m))[k]),
        arena_items(*final(m)) == arena_items(*old(m)).remove(k),
{
    m.slots.remove(DefaultKey::from(KeyData::from_ffi(k)))
}

/// Relies on SlotMap::keys: every live key once, in the arena's visiting order.
#[verifier::external_body]
pub(crate) fn arena_keys(m: &Arena) -> (r: Vec<u64>)
    ensures
        r@ == arena_order(*m),
        r@.no_duplicates(),
        r@.to_set() == arena_items(*m).dom(),
{
    m.slots.keys().map(|k| k.data().as_ffi()).collect()
}

} // verus!
