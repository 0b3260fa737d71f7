//! The node arena: append-only storage of nodes, addressed by handles.

use vstd::prelude::*;
use slotmap::Key;
use crate::handle::{is_key_bits, NodeHandle};
use crate::node::Node;

verus! {

/// The slot map that stores the nodes: a `slotmap::HopSlotMap` keyed by
/// `slotmap::DefaultKey`. Its contents are known only through [`slot_nodes`].
#[verifier::external_body]
#[derive(Debug)]
pub struct NodeSlots {
    inner: slotmap::HopSlotMap<slotmap::DefaultKey, Node>,
}

/// The nodes that a slot map holds, each under its key's 64-bit form (the
/// version in the high half, the slot index in the low half).
pub uninterp spec fn slot_nodes(m: NodeSlots) -> Map<u64, Node>;

/// No nodes at all.
pub open spec fn empty_nodes() -> Map<u64, Node> {
    Map::empty()
}

/// The most nodes that one arena can hold.
pub const MAX_NODES: u64 = 4294967294;

/// `slotmap::HopSlotMap::new`: an empty slot map.
#[verifier::external_body]
fn slot_new() -> (m: NodeSlots)
    ensures
        slot_nodes(m) == empty_nodes(),
{
    NodeSlots { inner: slotmap::HopSlotMap::new() }
}

/// `slotmap::HopSlotMap::len`: the number of stored values.
#[verifier::external_body]
fn slot_len(m: &NodeSlots) -> (n: usize)
    ensures
        n == slot_nodes(*m).len(),
{
    m.inner.len()
}

/// `slotmap::HopSlotMap::insert`: stores the value under a key that the map
/// does not hold, and returns that key. No other entry changes. The map
/// panics when it already holds 2^32 - 2 values, which `requires` leaves out.
#[verifier::external_body]
fn slot_insert(m: &mut NodeSlots, node: Node) -> (id: u64)
    requires
        slot_nodes(*old(m)).len() < MAX_NODES,
    ensures
        is_key_bits(id),
        !slot_nodes(*old(m)).contains_key(id),
        slot_nodes(*final(m)) == slot_nodes(*old(m)).insert(id, node),
{
    m.inner.insert(node).data().as_ffi()
}

/// `slotmap::HopSlotMap::get`: the value stored under the key, if the map
/// holds that key. The key is rebuilt with `KeyData::from_ffi`, which gives
/// back the key that `as_ffi` came from when the version half is odd.
#[verifier::external_body]
fn slot_get(m: &NodeSlots, id: u64) -> (r: Option<&Node>)
    requires
        is_key_bits(id),
    ensures
        match r {
            Some(n) => slot_nodes(*m).contains_key(id) && *n == slot_nodes(*m)[id],
            None => !slot_nodes(*m).contains_key(id),
        },
{
    m.inner.get(slotmap::DefaultKey::from(slotmap::KeyData::from_ffi(id)))
}

/// `slotmap::HopSlotMap::get_mut`: a mutable reference to the value stored
/// under the key, if the map holds that key. What is written through it is
/// what the map then holds under that key; no other entry changes.
#[verifier::external_body]
fn slot_get_mut(m: &mut NodeSlots, id: u64) -> (r: Option<&mut Node>)
    requires
        is_key_bits(id),
    ensures
        match r {
            Some(n) => slot_nodes(*old(m)).contains_key(id) && *n == slot_nodes(*old(m))[id]
                && slot_nodes(*final(m)) == slot_nodes(*old(m)).insert(id, *final(n)),
            None => !slot_nodes(*old(m)).contains_key(id) && slot_nodes(*final(m)) == slot_nodes(
                *old(m),
            ),
        },
{
    m.inner.get_mut(slotmap::DefaultKey::from(slotmap::KeyData::from_ffi(id)))
}

/// Owns all nodes of one tree. Nodes are only ever added, so a handle, once
/// issued, resolves to its node for as long as the arena lives.
#[derive(Debug)]
pub struct Arena {
    slots: NodeSlots,
}

impl View for Arena {
    type V = Map<u64, Node>;

    closed spec fn view(&self) -> Map<u64, Node> {
        slot_nodes(self.slots)
    }
}

impl Arena {
    /// The arena holds finitely many nodes, each under a key of the issued
    /// shape.
    pub open spec fn wf(&self) -> bool {
        &&& self@.dom().finite()
        &&& forall|id: u64| #[trigger] self@.contains_key(id) ==> is_key_bits(id)
    }

    /// An arena without nodes.
    pub fn new() -> (a: Arena)
        ensures
            a.wf(),
            a@ == Map::<u64, Node>::empty(),
    {
        Arena { slots: slot_new() }
    }

    /// The number of nodes.
    pub fn len(&self) -> (n: usize)
        ensures
            n == self@.len(),
    {
        slot_len(&self.slots)
    }

    /// Whether one more node fits.
    pub fn has_room(&self) -> (b: bool)
        ensures
            b == (self@.len() < MAX_NODES),
    {
        (slot_len(&self.slots) as u64) < MAX_NODES
    }

    /// Stores a node and returns a handle that this arena has not issued
    /// before. Every earlier handle resolves as it did.
    pub fn insert(&mut self, node: Node) -> (h: NodeHandle)
        requires
            old(self).wf(),
            old(self)@.len() < MAX_NODES,
        ensures
            final(self).wf(),
            !old(self)@.contains_key(h@),
            final(self)@ == old(self)@.insert(h@, node),
            final(self)@.len() == old(self)@.len() + 1,
    {
        let id: u64 = slot_insert(&mut self.slots, node);
        NodeHandle { id }
    }

    /// Whether this arena issued the handle.
    pub fn contains(&self, h: NodeHandle) -> (b: bool)
        requires
            self.wf(),
        ensures
            b == self@.contains_key(h@),
    {
        self.get(h).is_some()
    }

    /// The node that the handle resolves to, if this arena issued it.
    pub fn get(&self, h: NodeHandle) -> (r: Option<&Node>)
        requires
            self.wf(),
        ensures
            match r {
                Some(n) => self@.contains_key(h@) && *n == self@[h@],
                None => !self@.contains_key(h@),
            },
    {
        if h.is_well_formed() {
            slot_get(&self.slots, h.id)
        } else {
            None
        }
    }

    /// Mutable access to the node that the handle resolves to, if this arena
    /// issued it. The arena then holds what the caller leaves in the node;
    /// every other handle resolves as it did.
    pub fn get_mut(&mut self, h: NodeHandle) -> (r: Option<&mut Node>)
        requires
            old(self).wf(),
        ensures
            match r {
                Some(n) => old(self)@.contains_key(h@) && *n == old(self)@[h@]
                    && final(self)@ == old(self)@.insert(h@, *final(n)),
                None => !old(self)@.contains_key(h@) && final(self)@ == old(self)@,
            },
            final(self).wf(),
    {
        if h.is_well_formed() {
            slot_get_mut(&mut self.slots, h.id)
        } else {
            None
        }
    }
}

} // verus!
