//! Management of shared pages.

use super::ppn::{PPNBox, PPN};
use vstd::prelude::*;

verus! {

/// Representation of a physical page that can be safely shared.
#[derive(Debug, PartialEq, Eq)]
pub struct SharedPPN(u32);

/// Structure returned if the reference count would overflow.
#[derive(Clone, Copy, Debug, PartialEq, Eq)]
pub struct ReferenceCountOverflow;

/// A range of shared pages.
pub struct SharedPPNRange {
    _m: (),
}

impl SharedPPN {
    /// The raw page number.
    pub closed spec fn view(self) -> u32 {
        self.0
    }

    /// Return the PPN of this page. This does not decrement the reference count.
    pub fn into_raw(self) -> (r: PPN)
        ensures
            r@ == self@,
    {
        PPN::from_raw(self.0)
    }

    /// Create a `SharedPPN` from a PPN that originally came from a `SharedPPN`.
    pub fn from_raw(ppn: PPN) -> (r: Self)
        ensures
            r@ == ppn@,
    {
        SharedPPN(ppn.into_raw())
    }

    /// The raw page number of this shared page.
    pub fn raw(&self) -> (r: PPNBox)
        ensures
            r == self@,
    {
        self.0
    }

    /// Attempt to increase the reference count of this page, given the current count. It fails
    /// if the counter would overflow; otherwise the new count and the new reference are returned.
    pub fn try_clone(&self, counter: u32) -> (r: Result<(u32, Self), ReferenceCountOverflow>)
        ensures
            counter == u32::MAX <==> r is Err,
            r matches Ok((c, s)) ==> c == counter + 1 && s@ == self@,
    {
        match counter.checked_add(1) {
            Some(new) => Ok((new, SharedPPN(self.0))),
            None => Err(ReferenceCountOverflow),
        }
    }
}

} // verus!
