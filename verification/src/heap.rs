//! Containers over a kernel allocator: a growable vector and a box.
//!
//! The allocator itself is outside this module: where a container asks it for memory, the
//! answer (how many bytes were granted, or none) is passed in, and the container decides the
//! rest.

use vstd::prelude::*;

verus! {

/// The largest size of an allocation in bytes: that of the largest array a layout can describe.
pub const MAX_ALLOCATION: usize = isize::MAX as usize;

/// Error returned if an allocation failed.
#[derive(Clone, Copy, Debug, PartialEq, Eq)]
pub struct AllocError;

/// Error returned if a vector could not grow.
#[derive(Clone, Copy, Debug, PartialEq, Eq)]
pub enum ReserveError {
    CapacityOverflow,
    AllocError,
}

impl From<AllocError> for ReserveError {
    fn from(_e: AllocError) -> (r: Self) {
        ReserveError::AllocError
    }
}

impl vstd::std_specs::convert::FromSpecImpl<AllocError> for ReserveError {
    open spec fn obeys_from_spec() -> bool {
        true
    }

    open spec fn from_spec(e: AllocError) -> ReserveError {
        ReserveError::AllocError
    }
}

/// The capacity bookkeeping of a vector whose elements are `elem_size` bytes large.
pub struct RawVec {
    capacity: usize,
    elem_size: usize,
}

impl RawVec {
    pub closed spec fn capacity_spec(&self) -> nat {
        if self.elem_size == 0 { usize::MAX as nat } else { self.capacity as nat }
    }

    pub closed spec fn elem_size_spec(&self) -> nat {
        self.elem_size as nat
    }

    /// A vector with no room yet (or unbounded room for zero-sized elements).
    pub fn new_in(elem_size: usize) -> (r: Self)
        ensures
            r.elem_size_spec() == elem_size,
            r.capacity_spec() == (if elem_size == 0 { usize::MAX as nat } else { 0 }),
    {
        RawVec { capacity: if elem_size == 0 { usize::MAX } else { 0 }, elem_size }
    }

    /// The number of elements there is room for.
    pub fn capacity(&self) -> (r: usize)
        ensures
            r == self.capacity_spec(),
    {
        if self.elem_size == 0 {
            usize::MAX
        } else {
            self.capacity
        }
    }

    /// Make room for `additional` more elements. `granted` is the allocator's answer to the
    /// request for the larger array: the bytes it granted, or none.
    pub fn try_reserve(&mut self, additional: usize, granted: Option<usize>) -> (r: Result<(), ReserveError>)
        requires
            old(self).elem_size_spec() > 0 || additional > 0,
            granted matches Some(bytes) ==> bytes >= (old(self).capacity_spec() + additional) * old(self).elem_size_spec(),
        ensures
            final(self).elem_size_spec() == old(self).elem_size_spec(),
            old(self).capacity_spec() + additional > usize::MAX ==> r == Err::<(), ReserveError>(
                ReserveError::CapacityOverflow,
            ) && *final(self) == *old(self),
            old(self).capacity_spec() + additional <= usize::MAX && (old(self).capacity_spec() + additional)
                * old(self).elem_size_spec() > MAX_ALLOCATION ==> r == Err::<(), ReserveError>(
                ReserveError::CapacityOverflow,
            ) && *final(self) == *old(self),
            old(self).capacity_spec() + additional <= usize::MAX && (old(self).capacity_spec() + additional)
                * old(self).elem_size_spec() <= MAX_ALLOCATION ==> {
                &&& granted is None ==> r == Err::<(), ReserveError>(ReserveError::AllocError) && *final(self) == *old(self)
                &&& granted is Some ==> r is Ok && final(self).capacity_spec() == (granted->0 as nat) / old(
                    self,
                ).elem_size_spec()
            },
            r is Ok ==> final(self).capacity_spec() >= old(self).capacity_spec() + additional,
            r is Err ==> final(self).capacity_spec() == old(self).capacity_spec(),
    {
        let cap = self.capacity();
        let new_cap = match cap.checked_add(additional) {
            Some(c) => c,
            None => return Err(ReserveError::CapacityOverflow),
        };
        if self.elem_size != 0 && new_cap > MAX_ALLOCATION / self.elem_size {
            proof {
                vstd::arithmetic::div_mod::lemma_fundamental_div_mod(MAX_ALLOCATION as int, self.elem_size as int);
                assert(new_cap * self.elem_size > MAX_ALLOCATION) by (nonlinear_arith)
                    requires
                        new_cap > MAX_ALLOCATION / self.elem_size,
                        self.elem_size > 0,
                        MAX_ALLOCATION == self.elem_size * (MAX_ALLOCATION / self.elem_size) + MAX_ALLOCATION % self.elem_size,
                        MAX_ALLOCATION % self.elem_size < self.elem_size;
            }
            return Err(ReserveError::CapacityOverflow);
        }
        proof {
            if self.elem_size != 0 {
                vstd::arithmetic::div_mod::lemma_fundamental_div_mod(MAX_ALLOCATION as int, self.elem_size as int);
                assert(new_cap * self.elem_size <= MAX_ALLOCATION) by (nonlinear_arith)
                    requires
                        new_cap <= MAX_ALLOCATION / self.elem_size,
                        self.elem_size > 0,
                        MAX_ALLOCATION == self.elem_size * (MAX_ALLOCATION / self.elem_size) + MAX_ALLOCATION % self.elem_size,
                        MAX_ALLOCATION % self.elem_size >= 0;
            }
        }
        match granted {
            None => Err(ReserveError::from(AllocError)),
            Some(bytes) => {
                // Zero-sized elements never get here: their capacity is unbounded, so any
                // request to grow overflows.
                proof {
                    assert(bytes / self.elem_size >= new_cap) by (nonlinear_arith)
                        requires
                            bytes >= new_cap * self.elem_size,
                            self.elem_size > 0;
                }
                self.capacity = bytes / self.elem_size;
                Ok(())
            },
        }
    }
}

/// A vector of elements of `elem_size` bytes, grown by half its capacity (plus one) at a time.
pub struct Vec<T> {
    raw_vec: RawVec,
    items: std::vec::Vec<T>,
}

impl<T> Vec<T> {
    /// The elements.
    pub closed spec fn view(&self) -> Seq<T> {
        self.items@
    }

    pub closed spec fn capacity_spec(&self) -> nat {
        self.raw_vec.capacity_spec()
    }

    pub closed spec fn elem_size_spec(&self) -> nat {
        self.raw_vec.elem_size_spec()
    }

    /// The elements fit in the capacity. `new_in` gives such a vector and `try_push` keeps it
    /// so, whatever its outcome.
    pub open spec fn wf(&self) -> bool {
        self@.len() <= self.capacity_spec()
    }

    /// An empty vector.
    pub fn new_in(elem_size: usize) -> (r: Self)
        ensures
            r@ == Seq::<T>::empty(),
            r.wf(),
            r.elem_size_spec() == elem_size,
            r.capacity_spec() == (if elem_size == 0 { usize::MAX as nat } else { 0 }),
    {
        Vec { raw_vec: RawVec::new_in(elem_size), items: std::vec::Vec::new() }
    }

    /// The number of elements there is room for.
    pub fn capacity(&self) -> (r: usize)
        ensures
            r == self.capacity_spec(),
    {
        self.raw_vec.capacity()
    }

    /// The number of elements.
    pub fn len(&self) -> (r: usize)
        ensures
            r == self@.len(),
    {
        self.items.len()
    }

    /// The element at `index`, if any.
    pub fn get(&self, index: usize) -> (r: Option<&T>)
        ensures
            index < self@.len() ==> r == Some(&self@[index as int]),
            index >= self@.len() ==> r is None,
    {
        if index < self.items.len() {
            Some(&self.items[index])
        } else {
            None
        }
    }

    /// The capacity this vector grows to when it is full: half again, plus one.
    pub open spec fn grown(cap: nat) -> nat {
        cap * 3 / 2 + 1
    }

    /// Append an element, growing the vector first if it is full. `granted` is the allocator's
    /// answer to the request for more room, if one is made.
    pub fn try_push(&mut self, element: T, granted: Option<usize>) -> (r: Result<(), ReserveError>)
        requires
            old(self)@.len() >= old(self).capacity_spec() ==> old(self).capacity_spec() * 3 <= usize::MAX,
            old(self)@.len() >= old(self).capacity_spec() && granted is Some ==> granted->0 >= Self::grown(
                old(self).capacity_spec(),
            ) * old(self).elem_size_spec(),
            old(self)@.len() >= old(self).capacity_spec() && granted is Some ==> (granted->0 as nat) / old(self).elem_size_spec()
                > old(self)@.len(),
        ensures
            final(self).elem_size_spec() == old(self).elem_size_spec(),
            old(self).wf() ==> final(self).wf(),
            old(self)@.len() < old(self).capacity_spec() ==> r is Ok && final(self)@ == old(self)@.push(element)
                && final(self).capacity_spec() == old(self).capacity_spec(),
            old(self)@.len() >= old(self).capacity_spec() ==> {
                let want = Self::grown(old(self).capacity_spec()) * old(self).elem_size_spec();
                &&& want > MAX_ALLOCATION ==> r == Err::<(), ReserveError>(ReserveError::CapacityOverflow)
                    && final(self)@ == old(self)@ && final(self).capacity_spec() == old(self).capacity_spec()
                &&& want <= MAX_ALLOCATION && granted is None ==> r == Err::<(), ReserveError>(ReserveError::AllocError)
                    && final(self)@ == old(self)@ && final(self).capacity_spec() == old(self).capacity_spec()
                &&& want <= MAX_ALLOCATION && granted is Some ==> r is Ok && final(self)@ == old(
                    self,
                )@.push(element) && final(self).capacity_spec() == (granted->0 as nat) / old(self).elem_size_spec()
            },
    {
        if self.items.len() >= self.raw_vec.capacity() {
            let cap = self.raw_vec.capacity();
            self.raw_vec.try_reserve((cap * 3 / 2 + 1) - cap, granted)?;
        }
        self.items.push(element);
        Ok(())
    }
}

/// A value stored in memory from the allocator.
pub struct Box<T> {
    value: T,
}

impl<T> Box<T> {
    /// The value.
    pub closed spec fn view(&self) -> T {
        self.value
    }

    /// Store `value`; `granted` is whether the allocator gave the memory for it.
    pub fn try_new_in(value: T, granted: bool) -> (r: Result<Self, AllocError>)
        ensures
            granted ==> (r matches Ok(b) && b@ == value),
            !granted ==> r is Err,
    {
        if granted {
            Ok(Box { value })
        } else {
            Err(AllocError)
        }
    }

    /// A reference to the value.
    pub fn as_ref(&self) -> (r: &T)
        ensures
            *r == self@,
    {
        &self.value
    }

    /// Take the value out.
    pub fn into_inner(self) -> (r: T)
        ensures
            r == self@,
    {
        self.value
    }
}

} // verus!
