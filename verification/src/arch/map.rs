//! # Mapped pages
//!
//! To differentiate between pages with certain accessibilities, a mapped page can be private,
//! shared, shared & locked or direct.
//!
//! * A private map is tracked by the physical memory manager. There may be only one
//!   reference to such a page at any time.
//!
//! * A shared map is also tracked by the physical memory manager, but there may be
//!   multiple references to it at any time, as it is reference counted. It may also
//!   have a "locked" hint, which indicates whether certain attributes should be able
//!   to change (e.g. RWX flags).
//!
//! * A direct map is not tracked by the physical memory manager. Instead, the process
//!   mapped it directly into its address space. This is normally only used for special
//!   addresses such as MMIO.

use crate::memory::ppn::{PPNBox, PPNDirect, PPNDirectRange, PPNRange, PPN};
use crate::memory::shared::{SharedPPN, SharedPPNRange};
use vstd::prelude::*;

verus! {

/// A PPN of a certain type.
pub enum MappedPage {
    Private(PPN),
    Direct(PPNDirect),
    Shared(SharedPPN),
    SharedLocked(SharedPPN),
}

/// A range of PPNs of a certain type.
pub enum MapRange {
    Private(PPNRange),
    Direct(PPNDirectRange),
    Shared(SharedPPNRange),
    SharedLocked(SharedPPNRange),
}

impl MapRange {
    /// Whether this is a range of private or direct pages.
    pub open spec fn is_unshared(self) -> bool {
        self is Private || self is Direct
    }

    /// The first page number of the range.
    pub open spec fn start_spec(self) -> u32 {
        match self {
            MapRange::Private(p) => p.start_spec(),
            MapRange::Direct(d) => d.start_spec(),
            _ => 0,
        }
    }

    /// The amount of pages in the range.
    pub open spec fn len_spec(self) -> u32 {
        match self {
            MapRange::Private(p) => p.count_spec(),
            MapRange::Direct(d) => d.count_spec(),
            _ => 0,
        }
    }

    /// Return the amount of pages this range spans.
    pub fn len(&self) -> (r: usize)
        requires
            self.is_unshared(),
        ensures
            r == self.len_spec(),
    {
        match self {
            MapRange::Private(p) => p.len(),
            MapRange::Direct(d) => d.len(),
            MapRange::Shared(_) | MapRange::SharedLocked(_) => 0,
        }
    }

    /// Return the first page number of this range.
    pub fn start(&self) -> (r: PPNBox)
        requires
            self.is_unshared(),
        ensures
            r == self.start_spec(),
    {
        match self {
            MapRange::Private(p) => p.start(),
            MapRange::Direct(d) => d.start(),
            MapRange::Shared(_) | MapRange::SharedLocked(_) => 0,
        }
    }

    /// Return the bottom page of the range, of the same kind, and shrink the range by one.
    pub fn pop_base(&mut self) -> (r: Option<MappedPage>)
        requires
            old(self).is_unshared(),
        ensures
            final(self).is_unshared(),
            (*final(self) is Private) <==> (*old(self) is Private),
            old(self).len_spec() == 0 <==> r is None,
            old(self).len_spec() == 0 ==> *final(self) == *old(self),
            old(self).len_spec() > 0 ==> final(self).len_spec() == old(self).len_spec() - 1,
            old(self).len_spec() > 0 ==> final(self).start_spec() == (old(self).start_spec() + 1) % 0x1_0000_0000,
            r matches Some(MappedPage::Private(p)) ==> *old(self) is Private && p@ == old(
                self,
            ).start_spec(),
            r matches Some(MappedPage::Direct(p)) ==> *old(self) is Direct && p@ == old(
                self,
            ).start_spec(),
            r is Some ==> r matches Some(MappedPage::Private(_)) || r matches Some(
                MappedPage::Direct(_),
            ),
    {
        match self {
            MapRange::Private(p) => match p.pop_base() {
                Some(x) => Some(MappedPage::Private(x)),
                None => None,
            },
            MapRange::Direct(d) => match d.pop_base() {
                Some(x) => Some(MappedPage::Direct(x)),
                None => None,
            },
            MapRange::Shared(_) | MapRange::SharedLocked(_) => None,
        }
    }

    /// Forget about the first `count` pages and return the amount that actually got removed.
    pub fn forget_base(&mut self, count: usize) -> (r: usize)
        requires
            old(self).is_unshared(),
        ensures
            final(self).is_unshared(),
            r == if count <= old(self).len_spec() {
                count as int
            } else {
                old(self).len_spec() as int
            },
            final(self).len_spec() == old(self).len_spec() - r,
    {
        match self {
            MapRange::Private(p) => p.forget_base(count),
            MapRange::Direct(d) => d.forget_base(count),
            MapRange::Shared(_) | MapRange::SharedLocked(_) => 0,
        }
    }
}

} // verus!
