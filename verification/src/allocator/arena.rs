//! An arena allocator: objects are stored in numbered slots, up to a fixed maximum. Slots are
//! handed out in order and are not reused.

use vstd::prelude::*;

verus! {

/// An arena of at most `max` slots.
pub struct Arena<T> {
    /// The slots handed out so far; a removed object leaves its slot empty.
    slots: Vec<Option<T>>,
    /// The maximum amount of slots.
    max: usize,
}

/// Error returned if an object could not be inserted.
#[derive(Clone, Copy, Debug, PartialEq, Eq)]
pub enum InsertError {
    /// There are no free slots.
    NoFreeSlots,
    /// There is no free memory.
    NoMemory,
}

impl<T> Arena<T> {
    /// The slots handed out so far.
    pub closed spec fn view(&self) -> Seq<Option<T>> {
        self.slots@
    }

    /// The maximum amount of slots.
    pub closed spec fn max(&self) -> nat {
        self.max as nat
    }

    /// Create a new arena that can hold `max` objects.
    pub fn new(max: usize) -> (r: Self)
        ensures
            r@ == Seq::<Option<T>>::empty(),
            r.max() == max,
    {
        Arena { slots: Vec::new(), max }
    }

    /// Create a new arena for objects of `size` bytes in a region of `bytes` bytes.
    pub fn with_region(bytes: usize, size: usize) -> (r: Self)
        requires
            size > 0,
        ensures
            r@ == Seq::<Option<T>>::empty(),
            r.max() == bytes / size,
    {
        Arena { slots: Vec::new(), max: bytes / size }
    }

    /// The index of the next slot to be handed out.
    pub fn next_index(&self) -> (r: usize)
        ensures
            r == self@.len(),
    {
        self.slots.len()
    }

    /// The maximum amount of slots.
    pub fn max_slots(&self) -> (r: usize)
        ensures
            r == self.max(),
    {
        self.max
    }

    /// Store `value` in the next slot and return its index.
    pub fn insert(&mut self, value: T) -> (r: Result<usize, InsertError>)
        ensures
            final(self).max() == old(self).max(),
            old(self)@.len() >= old(self).max() ==> r == Err::<usize, InsertError>(InsertError::NoFreeSlots)
                && final(self)@ == old(self)@,
            old(self)@.len() < old(self).max() ==> r == Ok::<usize, InsertError>(old(self)@.len() as usize)
                && final(self)@ == old(self)@.push(Some(value)),
    {
        if self.slots.len() >= self.max {
            return Err(InsertError::NoFreeSlots);
        }
        let index = self.slots.len();
        self.slots.push(Some(value));
        Ok(index)
    }

    /// Store the object that `f` makes from the index of the next slot in that slot, and return
    /// the index. `f` is not called if there is no free slot.
    pub fn insert_with<F: FnOnce(usize) -> T>(&mut self, f: F) -> (r: Result<usize, InsertError>)
        requires
            old(self)@.len() < old(self).max() ==> f.requires((old(self)@.len() as usize,)),
        ensures
            final(self).max() == old(self).max(),
            old(self)@.len() >= old(self).max() ==> r == Err::<usize, InsertError>(InsertError::NoFreeSlots)
                && final(self)@ == old(self)@,
            old(self)@.len() < old(self).max() ==> {
                &&& r == Ok::<usize, InsertError>(old(self)@.len() as usize)
                &&& final(self)@.len() == old(self)@.len() + 1
                &&& final(self)@.take(old(self)@.len() as int) == old(self)@
                &&& (final(self)@.last() matches Some(v) && f.ensures((old(self)@.len() as usize,), v))
            },
    {
        if self.slots.len() >= self.max {
            return Err(InsertError::NoFreeSlots);
        }
        let index = self.slots.len();
        let value = f(index);
        self.slots.push(Some(value));
        assert(self.slots@.take(index as int) =~= old(self)@);
        Ok(index)
    }

    /// Return the object at an index, if any.
    pub fn get(&self, index: usize) -> (r: Option<&T>)
        ensures
            index < self@.len() && self@[index as int] is Some ==> r == Some(&self@[index as int]->0),
            !(index < self@.len() && self@[index as int] is Some) ==> r is None,
    {
        if index < self.slots.len() {
            match &self.slots[index] {
                Some(v) => Some(v),
                None => None,
            }
        } else {
            None
        }
    }

    /// Return a mutable reference to the object at an index, if any.
    pub fn get_mut(&mut self, index: usize) -> (r: Option<&mut T>)
        ensures
            final(self).max() == old(self).max(),
            !(index < old(self)@.len() && old(self)@[index as int] is Some) ==> r is None
                && final(self)@ == old(self)@,
            index < old(self)@.len() && old(self)@[index as int] is Some ==> r is Some
                && *r->0 == old(self)@[index as int]->0
                && final(self)@ == old(self)@.update(index as int, Some(*final(r->0))),
    {
        if index < self.slots.len() && self.slots[index].is_some() {
            let slot = &mut self.slots[index];
            slot.as_mut()
        } else {
            None
        }
    }

    /// Remove the object at an index, leaving its slot empty.
    pub fn remove(&mut self, index: usize) -> (r: Option<T>)
        ensures
            final(self).max() == old(self).max(),
            index < old(self)@.len() ==> r == old(self)@[index as int]
                && final(self)@ == old(self)@.update(index as int, None),
            index >= old(self)@.len() ==> r is None && final(self)@ == old(self)@,
    {
        if index < self.slots.len() {
            let mut taken: Option<T> = None;
            std::mem::swap(&mut taken, &mut self.slots[index]);
            taken
        } else {
            None
        }
    }
}


/// The object inserted in the next slot is what `get` finds at the index `insert` returned.
pub proof fn lemma_get_after_insert<T>(slots: Seq<Option<T>>, value: T)
    ensures
        slots.push(Some(value))[slots.len() as int] == Some(value),
        slots.len() < slots.push(Some(value)).len(),
{
}

} // verus!
