//! Guest physical addresses.

use vstd::prelude::*;

verus! {

/// An offset in the guest's physical address space.
#[derive(Clone, Copy, Debug, PartialEq, Eq, Structural)]
pub struct GuestAddress(pub usize);

impl GuestAddress {
    /// The address `offset` bytes further, or nothing on overflow.
    pub fn checked_add(self, offset: usize) -> (r: Option<GuestAddress>)
        ensures
            match r {
                Some(a) => self.0 + offset <= usize::MAX && a.0 == self.0 + offset,
                None => self.0 + offset > usize::MAX,
            },
    {
        match self.0.checked_add(offset) {
            Some(v) => Some(GuestAddress(v)),
            None => None,
        }
    }

    /// The address `offset` bytes further; the caller rules out overflow.
    pub fn unchecked_add(self, offset: usize) -> (r: GuestAddress)
        requires
            self.0 + offset <= usize::MAX,
        ensures
            r.0 == self.0 + offset,
    {
        GuestAddress(self.0 + offset)
    }

    /// How far this address lies past `base`.
    pub fn offset_from(self, base: GuestAddress) -> (r: usize)
        requires
            base.0 <= self.0,
        ensures
            r == self.0 - base.0,
    {
        self.0 - base.0
    }
}

} // verus!
