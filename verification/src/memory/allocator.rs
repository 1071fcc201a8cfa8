//! # Page-based memory allocator.
//!
//! The allocator keeps free physical pages (as PPNs) on stacks. Popping and pushing onto a stack
//! is very fast. Each stack is a ring buffer of `STACK_SIZE` entries with 16-bit top and base
//! counters, so pages can also be taken from the bottom (the oldest ones).

use super::ppn::{PPNBox, PPNRange, PPN};
use vstd::prelude::*;

verus! {

/// The amount of PPNs per stack. Must be a power of `2`.
pub const STACK_SIZE: u16 = 1024;

/// Stacks of PPNs for fast allocation.
pub struct Stacks {
    /// The stacks, each with `STACK_SIZE` slots.
    stacks: Vec<Vec<PPNBox>>,
    /// The top and base counter of each stack.
    top_base: Vec<(u16, u16)>,
}

/// An allocator of single physical pages.
pub struct Allocator {
    stacks: Stacks,
    /// The pages that hold the stacks themselves.
    storage: Vec<PPNBox>,
}

/// The amount of pages the stacks take: 1024 page numbers of four bytes and the two counters,
/// rounded up to whole pages.
pub const STORAGE_PAGES: usize = 2;

/// The amount of entries on a stack with the given top and base counters.
pub open spec fn stack_len(top: u16, base: u16) -> nat {
    vstd::wrapping::u16_specs::wrapping_sub(top, base) as nat
}

/// The entries of a stack, from the bottom to the top.
pub open spec fn stack_view(slots: Seq<PPNBox>, top: u16, base: u16) -> Seq<PPNBox> {
    Seq::new(stack_len(top, base), |k: int| slots[slot_of(base, k)])
}

/// `x & 1023 == x % 1024` for the stack counters.
proof fn lemma_mask(x: u16)
    ensures
        x & 1023 == x % 1024,
{
    assert(x & 1023 == x % 1024) by (bit_vector);
}

/// The slot holding entry `k` of a stack whose bottom counter is `base`.
pub open spec fn slot_of(base: u16, k: int) -> int {
    (base + k) % 1024
}

impl Stacks {
    /// The amount of stacks.
    pub closed spec fn count(&self) -> nat {
        self.stacks@.len()
    }

    /// The entries of the given stack, from the bottom to the top.
    pub closed spec fn view_of(&self, stack_index: int) -> Seq<PPNBox> {
        let (top, base) = self.top_base@[stack_index];
        stack_view(self.stacks@[stack_index]@, top, base)
    }

    /// Well-formedness: every stack has `STACK_SIZE` slots and holds at most that many entries.
    pub closed spec fn wf(&self) -> bool {
        &&& self.stacks@.len() == self.top_base@.len()
        &&& forall|i: int|
            #![trigger self.stacks@[i]]
            #![trigger self.top_base@[i]]
            0 <= i < self.stacks@.len() ==> {
                &&& self.stacks@[i]@.len() == 1024
                &&& stack_len(self.top_base@[i].0, self.top_base@[i].1) <= 1024
            }
    }

    /// Creates the given amount of empty stacks.
    pub fn new(count: usize) -> (r: Self)
        ensures
            r.wf(),
            r.count() == count,
            forall|i: int| 0 <= i < count ==> #[trigger] r.view_of(i).len() == 0,
    {
        let mut stacks: Vec<Vec<PPNBox>> = Vec::new();
        let mut top_base: Vec<(u16, u16)> = Vec::new();
        let mut i: usize = 0;
        while i < count
            invariant
                i <= count,
                stacks@.len() == i,
                top_base@.len() == i,
                forall|j: int| 0 <= j < i ==> #[trigger] stacks@[j]@.len() == 1024,
                forall|j: int| 0 <= j < i ==> #[trigger] top_base@[j] == (0u16, 0u16),
            decreases count - i,
        {
            let mut s: Vec<PPNBox> = Vec::new();
            while s.len() < 1024
                invariant
                    s@.len() <= 1024,
                decreases 1024 - s@.len(),
            {
                s.push(0);
            }
            stacks.push(s);
            top_base.push((0, 0));
            i = i + 1;
        }
        let r = Stacks { stacks, top_base };
        assert forall|j: int| 0 <= j < count implies #[trigger] r.view_of(j).len() == 0 by {
            assert(top_base@[j] == (0u16, 0u16));
        }
        r
    }

    /// The amount of entries on the given stack.
    pub fn len_of(&self, stack_index: usize) -> (r: usize)
        requires
            self.wf(),
            stack_index < self.count(),
        ensures
            r == self.view_of(stack_index as int).len(),
    {
        let (top, base) = self.top_base[stack_index];
        top.wrapping_sub(base) as usize
    }

    /// Pushes a PPN on the given stack. Returns `true` if successful, `false` if the stack is
    /// full.
    pub fn push(&mut self, stack_index: usize, ppn: PPN) -> (r: bool)
        requires
            old(self).wf(),
            stack_index < old(self).count(),
        ensures
            final(self).wf(),
            final(self).count() == old(self).count(),
            r <==> old(self).view_of(stack_index as int).len() < 1024,
            r ==> final(self).view_of(stack_index as int) == old(self).view_of(
                stack_index as int,
            ).push(ppn@),
            !r ==> final(self).view_of(stack_index as int) == old(self).view_of(stack_index as int),
            forall|i: int|
                0 <= i < old(self).count() && i != stack_index ==> #[trigger] final(self).view_of(i)
                    == old(self).view_of(i),
    {
        let (top, base) = self.top_base[stack_index];
        if top == base.wrapping_add(STACK_SIZE) {
            return false;
        }
        let index = top & (STACK_SIZE - 1);
        let ghost slots = self.stacks@[stack_index as int]@;
        let ghost len = stack_len(top, base);
        proof {
            lemma_mask(top);
            assert(stack_len(top, base) <= 1024);
            assert(top != vstd::wrapping::u16_specs::wrapping_add(base, 1024));
            assert(len < 1024) by {
                if len == 1024 {
                    if top >= base {
                        assert(top - base == 1024);
                        assert(base + 1024 <= u16::MAX);
                    } else {
                        assert(top - base + 0x1_0000 == 1024);
                        assert(base + 1024 > u16::MAX);
                    }
                    assert(top == vstd::wrapping::u16_specs::wrapping_add(base, 1024));
                }
            }
            assert(top % 1024 == (base + len) % 1024) by {
                vstd::arithmetic::div_mod::lemma_mod_mod(base + len, 1024, 64);
                if base + len > u16::MAX {
                    vstd::arithmetic::div_mod::lemma_mod_multiples_vanish(-64, base + len, 1024);
                }
            }
        }
        self.stacks[stack_index].set(index as usize, ppn.into_raw());
        self.top_base.set(stack_index, (top.wrapping_add(1), base));
        proof {
            let new_slots = slots.update(index as int, ppn@);
            assert forall|k: int| 0 <= k < len implies #[trigger] slot_of(base, k) != index as int by {
                if (base + k) % 1024 == (base + len) % 1024 {
                    vstd::arithmetic::div_mod::lemma_mod_equivalence(base + k, base + len, 1024);
                    vstd::arithmetic::div_mod::lemma_mod_is_zero((len - k) as nat, 1024);
                }
            }
            assert(stack_len(top.wrapping_add(1), base) == len + 1);
            assert(self.view_of(stack_index as int) =~= stack_view(slots, top, base).push(ppn@));
        }
        true
    }

    /// Pops the top PPN from the stack. Returns `None` if there are no entries left.
    pub fn pop(&mut self, stack_index: usize) -> (r: Option<PPN>)
        requires
            old(self).wf(),
            stack_index < old(self).count(),
        ensures
            final(self).wf(),
            final(self).count() == old(self).count(),
            old(self).view_of(stack_index as int).len() == 0 <==> r is None,
            r is None ==> final(self).view_of(stack_index as int) == old(self).view_of(
                stack_index as int,
            ),
            r matches Some(p) ==> p@ == old(self).view_of(stack_index as int).last()
                && final(self).view_of(stack_index as int) == old(self).view_of(
                stack_index as int,
            ).drop_last(),
            forall|i: int|
                0 <= i < old(self).count() && i != stack_index ==> #[trigger] final(self).view_of(i)
                    == old(self).view_of(i),
    {
        let (top, base) = self.top_base[stack_index];
        if top == base {
            return None;
        }
        let ghost len = stack_len(top, base);
        let top = top.wrapping_sub(1);
        let index = top & (STACK_SIZE - 1);
        proof {
            lemma_mask(top);
            assert(len > 0);
            assert(top % 1024 == (base + len - 1) % 1024) by {
                vstd::arithmetic::div_mod::lemma_mod_mod(base + len - 1, 1024, 64);
                if base + len - 1 > u16::MAX {
                    vstd::arithmetic::div_mod::lemma_mod_multiples_vanish(-64, base + len - 1, 1024);
                }
            }
        }
        let ppn = self.stacks[stack_index][index as usize];
        self.top_base.set(stack_index, (top, base));
        proof {
            assert(stack_len(top, base) == len - 1);
        }
        assert(self.view_of(stack_index as int) =~= old(self).view_of(stack_index as int).drop_last());
        Some(PPN::from_raw(ppn))
    }

    /// Pops the bottom PPN from the stack. Returns `None` if there are no entries left.
    ///
    /// PPNs at the bottom are older than higher PPNs and are less likely to be in cache.
    pub fn pop_base(&mut self, stack_index: usize) -> (r: Option<PPN>)
        requires
            old(self).wf(),
            stack_index < old(self).count(),
        ensures
            final(self).wf(),
            final(self).count() == old(self).count(),
            old(self).view_of(stack_index as int).len() == 0 <==> r is None,
            r is None ==> final(self).view_of(stack_index as int) == old(self).view_of(
                stack_index as int,
            ),
            r matches Some(p) ==> p@ == old(self).view_of(stack_index as int).first()
                && final(self).view_of(stack_index as int) == old(self).view_of(
                stack_index as int,
            ).drop_first(),
            forall|i: int|
                0 <= i < old(self).count() && i != stack_index ==> #[trigger] final(self).view_of(i)
                    == old(self).view_of(i),
    {
        let (top, base) = self.top_base[stack_index];
        if top == base {
            return None;
        }
        let ghost len = stack_len(top, base);
        let index = base & (STACK_SIZE - 1);
        proof {
            lemma_mask(base);
        }
        let ppn = self.stacks[stack_index][index as usize];
        let new_base = base.wrapping_add(1);
        self.top_base.set(stack_index, (top, new_base));
        proof {
            assert(stack_len(top, new_base) == len - 1);
            assert forall|k: int| 0 <= k < len - 1 implies #[trigger] slot_of(new_base, k) == slot_of(base, 1 + k) by {
                vstd::arithmetic::div_mod::lemma_mod_mod(base + 1 + k, 1024, 64);
                if base + 1 > u16::MAX {
                    vstd::arithmetic::div_mod::lemma_mod_multiples_vanish(-64, base + 1 + k, 1024);
                }
            }
        }
        assert(self.view_of(stack_index as int) =~= old(self).view_of(stack_index as int).drop_first());
        Some(PPN::from_raw(ppn))
    }
}

} // verus!

verus! {

/// The pages of a range in the order `PPNRange::pop` hands them out (highest first).
pub open spec fn popped(r: PPNRange) -> Seq<PPNBox> {
    Seq::new(r.count_spec() as nat, |k: int| (r.start_spec() + r.count_spec() - 1 - k) as u32)
}

/// The pages of the first `n` ranges, each range in the order `PPNRange::pop` hands them out.
pub open spec fn popped_all(ranges: Seq<PPNRange>, n: nat) -> Seq<PPNBox>
    decreases n,
{
    if n == 0 {
        Seq::empty()
    } else {
        popped_all(ranges, (n - 1) as nat) + popped(ranges[n - 1])
    }
}

/// The total amount of pages in the first `n` ranges.
pub open spec fn total_count(ranges: Seq<PPNRange>, n: nat) -> nat
    decreases n,
{
    if n == 0 {
        0
    } else {
        total_count(ranges, (n - 1) as nat) + ranges[n - 1].count_spec() as nat
    }
}

proof fn lemma_popped_all_len(ranges: Seq<PPNRange>, n: nat)
    requires
        n <= ranges.len(),
    ensures
        popped_all(ranges, n).len() == total_count(ranges, n),
    decreases n,
{
    if n > 0 {
        lemma_popped_all_len(ranges, (n - 1) as nat);
    }
}

proof fn lemma_total_count_mono(ranges: Seq<PPNRange>, a: nat, b: nat)
    requires
        a <= b <= ranges.len(),
    ensures
        total_count(ranges, a) <= total_count(ranges, b),
    decreases b - a,
{
    if a < b {
        lemma_total_count_mono(ranges, a, (b - 1) as nat);
    }
}

impl Allocator {
    /// The free pages, from the bottom of the stack to the top (the next to be handed out).
    pub closed spec fn view(&self) -> Seq<PPNBox> {
        self.stacks.view_of(0)
    }

    /// The pages that hold the stacks, taken from the ranges given to `new`.
    pub closed spec fn storage_pages(&self) -> Seq<PPNBox> {
        self.storage@
    }

    /// Well-formedness: a single well-formed stack.
    pub closed spec fn wf(&self) -> bool {
        self.stacks.wf() && self.stacks.count() == 1
    }

    /// Creates a new `Allocator` from the pages of the given ranges, which are emptied: the
    /// first pages taken (each range from the highest page down) hold the stacks, and every
    /// other page is inserted.
    pub fn new(pages: &mut Vec<PPNRange>) -> (r: Result<Self, ()>)
        requires
            STORAGE_PAGES <= total_count(old(pages)@, old(pages)@.len()) <= 1024 + STORAGE_PAGES,
        ensures
            r matches Ok(a) && a.wf() && a@ == popped_all(old(pages)@, old(pages)@.len()).skip(STORAGE_PAGES as int)
                && a.storage_pages() == popped_all(old(pages)@, old(pages)@.len()).take(STORAGE_PAGES as int),
            final(pages)@.len() == old(pages)@.len(),
            forall|i: int| 0 <= i < final(pages)@.len() ==> #[trigger] final(pages)@[i].count_spec() == 0,
    {
        let mut s = Allocator { stacks: Stacks::new(1), storage: Vec::new() };
        let ghost orig = pages@;
        let mut i: usize = 0;
        while i < pages.len()
            invariant
                s.wf(),
                i <= pages@.len(),
                pages@.len() == orig.len(),
                total_count(orig, orig.len()) <= 1024 + STORAGE_PAGES,
                s.storage@ + s@ == popped_all(orig, i as nat),
                s.storage@.len() <= STORAGE_PAGES,
                s@.len() > 0 ==> s.storage@.len() == STORAGE_PAGES,
                forall|j: int| 0 <= j < i ==> #[trigger] pages@[j].count_spec() == 0,
                forall|j: int| i <= j < pages@.len() ==> #[trigger] pages@[j] == orig[j],
            decreases orig.len() - i,
        {
            proof {
                lemma_popped_all_len(orig, i as nat);
                lemma_total_count_mono(orig, (i + 1) as nat, orig.len());
            }
            let ghost r0 = orig[i as int];
            loop
                invariant
                    s.wf(),
                    i < pages@.len(),
                    pages@.len() == orig.len(),
                    pages@[i as int].start_spec() == r0.start_spec(),
                    pages@[i as int].count_spec() <= r0.count_spec(),
                    popped_all(orig, i as nat).len() + r0.count_spec() <= 1024 + STORAGE_PAGES,
                    s.storage@ + s@ == popped_all(orig, i as nat) + popped(r0).take(
                        r0.count_spec() - pages@[i as int].count_spec(),
                    ),
                    s.storage@.len() <= STORAGE_PAGES,
                    s@.len() > 0 ==> s.storage@.len() == STORAGE_PAGES,
                    forall|j: int| 0 <= j < i ==> #[trigger] pages@[j].count_spec() == 0,
                    forall|j: int| i < j < pages@.len() ==> #[trigger] pages@[j] == orig[j],
                ensures
                    s.wf(),
                    pages@.len() == orig.len(),
                    pages@[i as int].count_spec() == 0,
                    s.storage@ + s@ == popped_all(orig, i as nat) + popped(r0),
                    s.storage@.len() <= STORAGE_PAGES,
                    s@.len() > 0 ==> s.storage@.len() == STORAGE_PAGES,
                    forall|j: int| 0 <= j < i ==> #[trigger] pages@[j].count_spec() == 0,
                    forall|j: int| i < j < pages@.len() ==> #[trigger] pages@[j] == orig[j],
                decreases pages@[i as int].count_spec(),
            {
                let ghost before = pages@[i as int];
                match pages[i].pop() {
                    Some(p) => {
                        let ghost before_all = s.storage@ + s@;
                        if s.storage.len() < STORAGE_PAGES {
                            let ghost sv = s@;
                            assert(sv.len() == 0);
                            s.storage.push(p.into_raw());
                            assert(s@ == sv);
                            assert(before_all =~= s.storage@.drop_last());
                        } else {
                            s.insert(p);
                        }
                        assert(s.storage@ + s@ =~= before_all.push(p@));
                        assert(popped(r0).take(r0.count_spec() - pages@[i as int].count_spec())
                            =~= popped(r0).take(r0.count_spec() - before.count_spec()).push(
                            (before.start_spec() + before.count_spec() - 1) as u32,
                        ));
                    },
                    None => {
                        assert(popped(r0).take(r0.count_spec() as int) =~= popped(r0));
                        break;
                    },
                }
            }
            i = i + 1;
            proof {
                assert(s.storage@ + s@ == popped_all(orig, i as nat));
            }
        }
        proof {
            lemma_popped_all_len(orig, orig.len());
            let all = popped_all(orig, orig.len());
            assert(s.storage@ =~= all.take(STORAGE_PAGES as int));
            assert(s@ =~= all.skip(STORAGE_PAGES as int));
        }
        Ok(s)
    }

    /// The amount of free pages.
    pub fn len(&self) -> (r: usize)
        requires
            self.wf(),
        ensures
            r == self@.len(),
    {
        self.stacks.len_of(0)
    }

    /// Allocate a page: the one on top of the stack. Fails if there is none left.
    pub fn allocate(&mut self) -> (r: Result<PPN, ()>)
        requires
            old(self).wf(),
        ensures
            final(self).wf(),
            old(self)@.len() == 0 ==> r is Err && final(self)@ == old(self)@,
            old(self)@.len() > 0 ==> (r matches Ok(p) && p@ == old(self)@.last() && final(self)@ == old(
                self,
            )@.drop_last()),
    {
        match self.stacks.pop(0) {
            Some(p) => Ok(p),
            None => Err(()),
        }
    }

    /// Free a page: put it on top of the stack.
    pub fn free(&mut self, page: PPN)
        requires
            old(self).wf(),
            old(self)@.len() < 1024,
        ensures
            final(self).wf(),
            final(self)@ == old(self)@.push(page@),
            final(self).storage_pages() == old(self).storage_pages(),
    {
        let _ = self.stacks.push(0, page);
    }

    /// Inserts an untracked page.
    pub fn insert(&mut self, page: PPN)
        requires
            old(self).wf(),
            old(self)@.len() < 1024,
        ensures
            final(self).wf(),
            final(self)@ == old(self)@.push(page@),
            final(self).storage_pages() == old(self).storage_pages(),
    {
        self.free(page)
    }
}


/// A page that was freed is the next one allocated, and allocating it leaves the free pages as
/// they were before it was freed.
pub proof fn lemma_allocate_after_free(free: Seq<PPNBox>, page: PPNBox)
    ensures
        free.push(page).len() > 0,
        free.push(page).last() == page,
        free.push(page).drop_last() == free,
{
    assert(free.push(page).drop_last() =~= free);
}

} // verus!
