//! Physical page numbers (PPNs) and ranges of them.
//!
//! A PPN **cannot** be directly used as a physical address: it doesn't store the lower bits that
//! are zero due to page alignment, which allows using 32-bit PPNs on 64-bit architectures.

use vstd::prelude::*;

verus! {

/// The raw representation of a PPN.
pub type PPNBox = u32;

/// A physical page tracked by the physical memory manager.
#[derive(Debug, PartialEq, Eq)]
pub struct PPN(PPNBox);

/// A range of physical pages tracked by the physical memory manager.
#[derive(Debug, PartialEq, Eq)]
pub struct PPNRange {
    start: PPNBox,
    count: u32,
}

/// A page that was allocated directly and hence is not tracked by the PMM.
#[derive(Debug, PartialEq, Eq)]
pub struct PPNDirect(PPNBox);

/// A range of pages that were allocated directly and hence aren't tracked by the PMM.
#[derive(Debug, PartialEq, Eq)]
pub struct PPNDirectRange {
    start: PPNBox,
    count: u32,
}

/// Errors when converting an address or count to a direct PPN (range).
#[derive(Clone, Copy, Debug, PartialEq, Eq)]
pub enum Error {
    BadAlignment,
    OutOfRange,
}

impl PPN {
    /// The raw page number.
    pub closed spec fn view(self) -> u32 {
        self.0
    }

    /// Creates a new PPN from an aligned physical address below `1 << 44`.
    pub fn from_ptr(ptr: usize) -> (r: Self)
        requires
            ptr % 4096 == 0,
            ptr / 4096 <= u32::MAX,
        ensures
            r@ == ptr / 4096,
    {
        proof {
            assert(ptr >> 12 == ptr / 4096) by (bit_vector);
        }
        PPN((ptr >> 12) as u32)
    }

    /// Returns the raw page number.
    pub fn into_raw(self) -> (r: u32)
        ensures
            r == self@,
    {
        self.0
    }

    /// Creates a PPN from a raw page number.
    pub fn from_raw(ppn: u32) -> (r: Self)
        ensures
            r@ == ppn,
    {
        PPN(ppn)
    }

    /// Returns the physical address of this page.
    pub fn as_usize(&self) -> (r: usize)
        requires
            self@ * 4096 <= usize::MAX,
        ensures
            r == self@ * 4096,
    {
        (self.0 as usize) * 4096
    }
}

impl PPNRange {
    #[verifier::type_invariant]
    spec fn inv(self) -> bool {
        self.start + self.count <= u32::MAX
    }

    /// The first page number of the range.
    pub closed spec fn start_spec(self) -> u32 {
        self.start
    }

    /// The amount of pages in the range.
    pub closed spec fn count_spec(self) -> u32 {
        self.count
    }

    /// The page numbers in this range, lowest first.
    pub open spec fn view(self) -> Seq<int> {
        Seq::new(self.count_spec() as nat, |i: int| self.start_spec() + i)
    }

    /// The range never extends beyond the largest page number.
    pub fn lemma_bounded(&self)
        ensures
            self.start_spec() + self.count_spec() <= u32::MAX,
    {
        proof {
            use_type_invariant(self);
        }
    }

    /// Creates a new range from an aligned physical address below `1 << 44` and a count.
    pub fn from_ptr(start: usize, count: u32) -> (r: Self)
        requires
            start % 4096 == 0,
            start / 4096 + count <= u32::MAX,
        ensures
            r.start_spec() == start / 4096,
            r.count_spec() == count,
    {
        proof {
            assert(start >> 12 == start / 4096) by (bit_vector);
        }
        PPNRange { start: (start >> 12) as u32, count }
    }

    /// Return the top PPN and decrement the count.
    pub fn pop(&mut self) -> (r: Option<PPN>)
        ensures
            old(self).count_spec() == 0 ==> r is None && *final(self) == *old(self),
            old(self).count_spec() > 0 ==> {
                &&& r matches Some(p) && p@ == old(self).start_spec() + old(self).count_spec() - 1
                &&& final(self).start_spec() == old(self).start_spec()
                &&& final(self).count_spec() == old(self).count_spec() - 1
            },
    {
        proof {
            use_type_invariant(&*self);
        }
        match self.count.checked_sub(1) {
            Some(c) => {
                self.count = c;
                Some(PPN(self.start + c))
            },
            None => None,
        }
    }

    /// Return the bottom PPN and decrement the count.
    pub fn pop_base(&mut self) -> (r: Option<PPN>)
        ensures
            old(self).count_spec() == 0 ==> r is None && *final(self) == *old(self),
            old(self).count_spec() > 0 ==> {
                &&& r matches Some(p) && p@ == old(self).start_spec()
                &&& final(self).start_spec() == old(self).start_spec() + 1
                &&& final(self).count_spec() == old(self).count_spec() - 1
            },
    {
        proof {
            use_type_invariant(&*self);
        }
        match self.count.checked_sub(1) {
            Some(c) => {
                let ppn = PPN(self.start);
                self.count = c;
                self.start = self.start + 1;
                Some(ppn)
            },
            None => None,
        }
    }

    /// Return the start address of this range.
    pub fn as_usize(&self) -> (r: usize)
        requires
            self.start_spec() * 4096 <= usize::MAX,
        ensures
            r == self.start_spec() * 4096,
    {
        (self.start as usize) * 4096
    }

    /// Forget about the first `count` PPNs and return the amount of PPNs that actually got
    /// removed.
    pub fn forget_base(&mut self, count: usize) -> (r: usize)
        ensures
            count <= old(self).count_spec() ==> {
                &&& r == count
                &&& final(self).start_spec() == old(self).start_spec() + count
                &&& final(self).count_spec() == old(self).count_spec() - count
            },
            count > old(self).count_spec() ==> {
                &&& r == old(self).count_spec()
                &&& final(self).start_spec() == old(self).start_spec()
                &&& final(self).count_spec() == 0
            },
    {
        proof {
            use_type_invariant(&*self);
        }
        if count <= self.count as usize {
            let count = count as u32;
            self.count = self.count - count;
            self.start = self.start + count;
            count as usize
        } else {
            let c = self.count;
            self.count = 0;
            c as usize
        }
    }

    /// Return the amount of pages this range spans.
    pub fn len(&self) -> (r: usize)
        ensures
            r == self.count_spec(),
    {
        self.count as usize
    }

    /// Return the first page number of this range.
    pub fn start(&self) -> (r: PPNBox)
        ensures
            r == self.start_spec(),
    {
        self.start
    }
}

impl PPNDirect {
    /// The raw page number.
    pub closed spec fn view(self) -> u32 {
        self.0
    }

    /// Creates a direct PPN from a physical address.
    pub fn from_usize(ptr: usize) -> (r: Result<Self, Error>)
        ensures
            ptr % 4096 != 0 ==> r == Err::<PPNDirect, Error>(Error::BadAlignment),
            ptr % 4096 == 0 && ptr / 4096 > u32::MAX ==> r == Err::<PPNDirect, Error>(
                Error::OutOfRange,
            ),
            ptr % 4096 == 0 && ptr / 4096 <= u32::MAX ==> (r matches Ok(p) && p@ == ptr / 4096),
    {
        proof {
            assert(ptr & 4095 == ptr % 4096) by (bit_vector);
            assert(ptr >> 12 == ptr / 4096) by (bit_vector);
        }
        if ptr & 4095 > 0 {
            Err(Error::BadAlignment)
        } else if (ptr >> 12) <= u32::MAX as usize {
            Ok(PPNDirect((ptr >> 12) as u32))
        } else {
            Err(Error::OutOfRange)
        }
    }

    /// Creates a direct PPN from a raw page number.
    pub fn from_raw(ppn: PPNBox) -> (r: Self)
        ensures
            r@ == ppn,
    {
        PPNDirect(ppn)
    }

    /// Returns the raw page number.
    pub fn into_raw(self) -> (r: PPNBox)
        ensures
            r == self@,
    {
        self.0
    }
}

impl PPNDirectRange {
    /// The first page number of the range.
    pub closed spec fn start_spec(self) -> u32 {
        self.start
    }

    /// The amount of pages in the range.
    pub closed spec fn count_spec(self) -> u32 {
        self.count
    }

    /// Create a new direct PPN range.
    pub fn new(start: PPNBox, count: usize) -> (r: Result<Self, Error>)
        ensures
            count > u32::MAX ==> r == Err::<PPNDirectRange, Error>(Error::OutOfRange),
            count <= u32::MAX ==> (r matches Ok(d) && d.start_spec() == start && d.count_spec()
                == count),
    {
        if count <= u32::MAX as usize {
            Ok(PPNDirectRange { start, count: count as u32 })
        } else {
            Err(Error::OutOfRange)
        }
    }

    /// Return the bottom PPN and decrement the count.
    ///
    /// The start wraps around if it would exceed the largest page number.
    pub fn pop_base(&mut self) -> (r: Option<PPNDirect>)
        ensures
            old(self).count_spec() == 0 ==> r is None && *final(self) == *old(self),
            old(self).count_spec() > 0 ==> {
                &&& r matches Some(p) && p@ == old(self).start_spec()
                &&& final(self).start_spec() == vstd::wrapping::u32_specs::wrapping_add(
                    old(self).start_spec(),
                    1,
                )
                &&& final(self).count_spec() == old(self).count_spec() - 1
            },
    {
        match self.count.checked_sub(1) {
            Some(c) => {
                let ppn = PPNDirect(self.start);
                self.count = c;
                self.start = self.start.wrapping_add(1);
                Some(ppn)
            },
            None => None,
        }
    }

    /// Return the amount of pages this range spans.
    pub fn len(&self) -> (r: usize)
        ensures
            r == self.count_spec(),
    {
        self.count as usize
    }

    /// Return the first page number of this range.
    pub fn start(&self) -> (r: PPNBox)
        ensures
            r == self.start_spec(),
    {
        self.start
    }

    /// Forget about the first `count` PPNs and return the amount of PPNs that actually got
    /// removed.
    pub fn forget_base(&mut self, count: usize) -> (r: usize)
        ensures
            count <= old(self).count_spec() ==> {
                &&& r == count
                &&& final(self).start_spec() == vstd::wrapping::u32_specs::wrapping_add(
                    old(self).start_spec(),
                    count as u32,
                )
                &&& final(self).count_spec() == old(self).count_spec() - count
            },
            count > old(self).count_spec() ==> {
                &&& r == old(self).count_spec()
                &&& final(self).start_spec() == old(self).start_spec()
                &&& final(self).count_spec() == 0
            },
    {
        if count <= self.count as usize {
            let count = count as u32;
            self.count = self.count - count;
            self.start = self.start.wrapping_add(count);
            count as usize
        } else {
            let c = self.count;
            self.count = 0;
            c as usize
        }
    }
}

} // verus!
