//! A slab allocator: objects of one size in a large address range, whose pages are mapped in
//! as needed.
//!
//! An allocation takes the most recently freed object, if any; otherwise it bumps a counter
//! through the mapped part of the range, mapping one more page when that part is used up.

use crate::arch::page::Page;
use crate::arch::riscv::vms::sv39::{leaf_entry, same_page, Sv39};
use crate::arch::vms::{AddError, RWX};
use crate::memory::Allocator;
use vstd::prelude::*;

verus! {

/// A slab allocator.
pub struct Slab {
    /// The start of the address range.
    start: u64,
    /// The size of an object in bytes.
    elem_size: u64,
    /// The maximum amount of objects.
    max: u64,
    /// The amount of objects the mapped pages hold.
    capacity: u64,
    /// The bump counter, used for allocating fresh memory.
    bump_counter: u64,
    /// The freed objects, the most recent last.
    free_list: Vec<u64>,
}

/// Error returned if no object could be allocated.
#[derive(Debug)]
pub enum AllocateError {
    OutOfAddressSpace,
    AddError(AddError),
}

/// `n` rounded up to a whole number of pages.
pub open spec fn round_up_page(n: int) -> int {
    (n + 4095) / 4096 * 4096
}

/// The abstract state of a slab allocator.
pub ghost struct SlabView {
    pub start: int,
    pub elem_size: int,
    pub max: int,
    pub capacity: int,
    pub bump_counter: int,
    pub free_list: Seq<u64>,
}

impl Slab {
    #[verifier::type_invariant]
    spec fn inv(self) -> bool {
        &&& 0 < self.elem_size <= 4096
        &&& self.start != 0
        &&& self.start % 4096 == 0
        &&& self.bump_counter <= self.capacity
        &&& self.capacity <= self.max + 8192
        &&& self.start + (self.max + 8192) * self.elem_size + 4096 <= u64::MAX
    }

    pub closed spec fn view(&self) -> SlabView {
        SlabView {
            start: self.start as int,
            elem_size: self.elem_size as int,
            max: self.max as int,
            capacity: self.capacity as int,
            bump_counter: self.bump_counter as int,
            free_list: self.free_list@,
        }
    }

    /// A slab allocator for objects of `elem_size` bytes in the `size` bytes from `start`.
    pub fn new(start: Page, size: u64, elem_size: u64) -> (r: Self)
        requires
            0 < elem_size <= 4096,
            start@ + size + 8192 * 4096 + 4096 <= u64::MAX,
        ensures
            r@.start == start@,
            r@.elem_size == elem_size,
            r@.max == size / elem_size,
            r@.capacity == 0,
            r@.bump_counter == 0,
            r@.free_list == Seq::<u64>::empty(),
    {
        start.lemma_valid();
        proof {
            vstd::arithmetic::div_mod::lemma_fundamental_div_mod(size as int, elem_size as int);
            assert((size / elem_size + 8192) * elem_size <= size + 8192 * 4096) by (nonlinear_arith)
                requires
                    size == elem_size * (size / elem_size) + size % elem_size,
                    size % elem_size >= 0,
                    0 < elem_size <= 4096;
        }
        Slab { start: start.as_ptr(), elem_size, max: size / elem_size, capacity: 0, bump_counter: 0, free_list: Vec::new() }
    }

    /// Allocate an object: the most recently freed one, else the next fresh one, mapping one
    /// more kernel page (read-write, global) taken from `frames` if the mapped pages are used
    /// up.
    pub fn allocate(&mut self, vms: &mut Sv39, frames: &mut Allocator) -> (r: Result<u64, AllocateError>)
        requires
            old(vms).wf(),
            old(frames).wf(),
            old(frames)@.len() > 0,
        ensures
            final(vms).wf(),
            final(frames).wf(),
            final(self)@.start == old(self)@.start,
            final(self)@.elem_size == old(self)@.elem_size,
            final(self)@.max == old(self)@.max,
            old(self)@.free_list.len() > 0 ==> r == Ok::<u64, AllocateError>(old(self)@.free_list.last())
                && final(self)@.free_list == old(self)@.free_list.drop_last() && final(self)@.bump_counter
                == old(self)@.bump_counter && *final(vms) == *old(vms) && final(frames)@ == old(frames)@,
            old(self)@.free_list.len() == 0 && old(self)@.bump_counter < old(self)@.capacity ==> r == Ok::<
                u64,
                AllocateError,
            >((old(self)@.start + old(self)@.bump_counter * old(self)@.elem_size) as u64) && final(self)@.bump_counter
                == old(self)@.bump_counter + 1 && *final(vms) == *old(vms) && final(frames)@ == old(frames)@,
            old(self)@.free_list.len() == 0 && old(self)@.bump_counter == old(self)@.capacity && old(self)@.capacity
                >= old(self)@.max ==> r == Err::<u64, AllocateError>(AllocateError::OutOfAddressSpace)
                && *final(vms) == *old(vms) && final(frames)@ == old(frames)@,
            old(self)@.free_list.len() == 0 && old(self)@.bump_counter == old(self)@.capacity && old(self)@.capacity
                < old(self)@.max ==> {
                let page = (old(self)@.start + round_up_page(old(self)@.elem_size * old(self)@.capacity)) as u64;
                &&& final(frames)@ == old(frames)@.drop_last()
                &&& forall|a: u64| !same_page(a, page) ==> #[trigger] final(vms).mapping(a) == old(vms).mapping(a)
                &&& (r is Ok <==> !old(vms).blocked(page) && old(vms).mapping(page) is None && old(vms).has_room(page))
                &&& r is Ok ==> final(vms).mapping(page) == Some(leaf_entry(old(frames)@.last(), RWX::RW, false, true, false))
                    && r == Ok::<u64, AllocateError>((old(self)@.start + old(self)@.bump_counter * old(self)@.elem_size) as u64)
                    && final(self)@.bump_counter == old(self)@.bump_counter + 1
                    && final(self)@.capacity == (round_up_page(old(self)@.elem_size * old(self)@.capacity) + 4096)
                    / old(self)@.elem_size
            },
    {
        proof {
            use_type_invariant(&*self);
        }
        if self.free_list.len() > 0 {
            let mut list = self.free_list.clone();
            assert(list@ =~= self.free_list@);
            let object = list.pop().unwrap();
            *self = Slab {
                start: self.start,
                elem_size: self.elem_size,
                max: self.max,
                capacity: self.capacity,
                bump_counter: self.bump_counter,
                free_list: list,
            };
            return Ok(object);
        }
        if self.bump_counter < self.capacity {
            let object = self.bump();
            return Ok(object);
        }
        if self.capacity >= self.max {
            return Err(AllocateError::OutOfAddressSpace);
        }
        proof {
            assert(self.elem_size * self.capacity <= (self.max + 8192) * self.elem_size) by (nonlinear_arith)
                requires
                    self.capacity <= self.max + 8192;
        }
        let cur_size = (self.elem_size * self.capacity + 4095) / 4096 * 4096;
        let ptr = self.start + cur_size;
        proof {
            assert(ptr % 4096 == 0) by {
                vstd::arithmetic::div_mod::lemma_mod_multiples_basic(((self.elem_size * self.capacity + 4095) / 4096) as int, 4096);
                vstd::arithmetic::div_mod::lemma_add_mod_noop(self.start as int, cur_size as int, 4096);
            }
        }
        let page = Page::new(ptr).unwrap();
        let ppn = frames.allocate().unwrap();
        match vms.add(page, ppn, RWX::RW, false, true) {
            Ok(()) => {},
            Err(e) => return Err(AllocateError::AddError(e)),
        }
        let new_capacity = (cur_size + 4096) / self.elem_size;
        proof {
            let x = self.elem_size * self.capacity + 4095;
            vstd::arithmetic::div_mod::lemma_fundamental_div_mod(x as int, 4096);
            assert(cur_size <= self.elem_size * self.capacity + 4095);
            assert(new_capacity <= self.max + 8192) by (nonlinear_arith)
                requires
                    cur_size <= self.elem_size * self.capacity + 4095,
                    new_capacity == (cur_size + 4096) as int / self.elem_size as int,
                    self.capacity < self.max,
                    0 < self.elem_size;
            assert(new_capacity > self.capacity) by (nonlinear_arith)
                requires
                    cur_size >= self.elem_size * self.capacity,
                    new_capacity == (cur_size + 4096) as int / self.elem_size as int,
                    0 < self.elem_size <= 4096;
        }
        self.set_capacity(new_capacity);
        let object = self.bump();
        Ok(object)
    }

    /// Hand out the next fresh object.
    fn bump(&mut self) -> (r: u64)
        requires
            old(self)@.bump_counter < old(self)@.capacity,
        ensures
            r == old(self)@.start + old(self)@.bump_counter * old(self)@.elem_size,
            final(self)@ == (SlabView { bump_counter: old(self)@.bump_counter + 1, ..old(self)@ }),
    {
        proof {
            use_type_invariant(&*self);
            assert(self.bump_counter * self.elem_size <= (self.max + 8192) * self.elem_size) by (nonlinear_arith)
                requires
                    self.bump_counter <= self.max + 8192;
        }
        let object = self.start + self.bump_counter * self.elem_size;
        let list = self.free_list.clone();
        assert(list@ =~= self.free_list@);
        *self = Slab {
            start: self.start,
            elem_size: self.elem_size,
            max: self.max,
            capacity: self.capacity,
            bump_counter: self.bump_counter + 1,
            free_list: list,
        };
        object
    }

    /// Set the number of objects the mapped pages hold.
    fn set_capacity(&mut self, capacity: u64)
        requires
            old(self)@.bump_counter <= capacity <= old(self)@.max + 8192,
        ensures
            final(self)@ == (SlabView { capacity: capacity as int, ..old(self)@ }),
    {
        proof {
            use_type_invariant(&*self);
        }
        let list = self.free_list.clone();
        assert(list@ =~= self.free_list@);
        *self = Slab {
            start: self.start,
            elem_size: self.elem_size,
            max: self.max,
            capacity,
            bump_counter: self.bump_counter,
            free_list: list,
        };
    }

    /// Deallocate an object: it is the next to be handed out.
    pub fn deallocate(&mut self, memory: u64)
        ensures
            final(self)@ == (SlabView { free_list: old(self)@.free_list.push(memory), ..old(self)@ }),
    {
        proof {
            use_type_invariant(&*self);
        }
        let mut list = self.free_list.clone();
        assert(list@ =~= self.free_list@);
        list.push(memory);
        *self = Slab {
            start: self.start,
            elem_size: self.elem_size,
            max: self.max,
            capacity: self.capacity,
            bump_counter: self.bump_counter,
            free_list: list,
        };
    }
}


/// The object deallocated last is the next one allocated, and allocating it leaves the free
/// list as it was before.
pub proof fn lemma_allocate_after_deallocate(free_list: Seq<u64>, memory: u64)
    ensures
        free_list.push(memory).len() > 0,
        free_list.push(memory).last() == memory,
        free_list.push(memory).drop_last() == free_list,
{
    assert(free_list.push(memory).drop_last() =~= free_list);
}

} // verus!
