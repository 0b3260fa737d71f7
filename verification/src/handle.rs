//! Handles: stable tokens that address one node of an arena.

use vstd::prelude::*;

verus! {

/// Identifies the slot of one node in an [`crate::arena::Arena`].
///
/// The number packs the slot's index (low 32 bits) and the slot's version
/// (high 32 bits). Two handles name the same node exactly when they are equal.
#[derive(Clone, Copy, Debug, PartialEq, Eq, Hash, Structural)]
pub struct NodeHandle {
    pub id: u64,
}

/// Whether `id` has the shape of a key that an arena can have issued: the
/// version half of an issued key is always odd.
pub open spec fn is_key_bits(id: u64) -> bool {
    (id >> 32) & 1 == 1
}

impl View for NodeHandle {
    type V = u64;

    open spec fn view(&self) -> u64 {
        self.id
    }
}

impl NodeHandle {
    /// Whether the handle has the shape of an issued key.
    pub open spec fn well_formed(&self) -> bool {
        is_key_bits(self.id)
    }

    /// Tests, without looking at any arena, whether this handle can have been
    /// issued at all.
    pub fn is_well_formed(&self) -> (b: bool)
        ensures
            b == self.well_formed(),
    {
        (self.id >> 32) & 1 == 1
    }
}

} // verus!
