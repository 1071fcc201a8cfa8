//! Physical memory management: page numbers, areas, the buddy allocator and the page stacks.

pub mod allocator;
pub mod area;
pub mod buddy;
pub mod ppn;
pub mod reserved;
pub mod shared;

pub use allocator::Allocator;
pub use area::{Area, BadAlignment};
pub use ppn::{PPNBox, PPNDirect, PPNDirectRange, PPNRange, PPN};
pub use shared::{SharedPPN, SharedPPNRange};

use vstd::prelude::*;

verus! {

/// Error returned when no memory could be allocated.
#[derive(Clone, Copy, Debug, PartialEq, Eq)]
pub struct AllocateError;

/// The pages of `count` pages from page number `start`, in the order the page allocator holds
/// them (the lowest page on top, i.e. handed out first).
pub open spec fn range_pages(start: int, count: nat) -> Seq<PPNBox> {
    Seq::new(count, |k: int| (start + count - 1 - k) as u32)
}

/// Add a memory range for management: the `count` pages from the address `start`. Only one
/// range is supported, so `manager` holds none yet.
pub fn mem_add_range(manager: &mut Option<Allocator>, start: usize, count: u32)
    requires
        *old(manager) is None,
        start % 4096 == 0,
        allocator::STORAGE_PAGES <= count <= 1024 + allocator::STORAGE_PAGES,
        start / 4096 + count <= u32::MAX,
    ensures
        *final(manager) matches Some(a) && a.wf() && a@ == range_pages(
            (start / 4096) as int,
            (count - allocator::STORAGE_PAGES) as nat,
        ) && a.storage_pages() == range_pages((start / 4096) as int, count as nat).take(
            allocator::STORAGE_PAGES as int,
        ),
{
    let mut ranges: Vec<PPNRange> = Vec::new();
    let range = PPNRange::from_ptr(start, count);
    let ghost r0 = range;
    ranges.push(range);
    proof {
        assert(allocator::total_count(ranges@, 1) == count) by {
            reveal_with_fuel(allocator::total_count, 2);
        }
        assert(allocator::popped_all(ranges@, 1) =~= range_pages((start / 4096) as int, count as nat)) by {
            reveal_with_fuel(allocator::popped_all, 2);
            assert(Seq::<PPNBox>::empty() + allocator::popped(r0) =~= allocator::popped(r0));
        }
        assert(range_pages((start / 4096) as int, count as nat).skip(allocator::STORAGE_PAGES as int)
            =~= range_pages((start / 4096) as int, (count - allocator::STORAGE_PAGES) as nat));
    }
    match Allocator::new(&mut ranges) {
        Ok(a) => {
            *manager = Some(a);
        },
        Err(()) => {},
    }
}

/// Allocate an area of a single page: the page on top of the page stack. The requested order
/// is not used; every area handed out is a single page.
pub fn mem_allocate(manager: &mut Allocator, order: u8) -> (r: Result<Area, AllocateError>)
    requires
        old(manager).wf(),
        old(manager)@.len() > 0 ==> old(manager)@.last() != 0,
    ensures
        final(manager).wf(),
        old(manager)@.len() == 0 ==> r == Err::<Area, AllocateError>(AllocateError) && final(manager)@ == old(manager)@,
        old(manager)@.len() > 0 ==> (r matches Ok(a) && a.start_spec() == old(manager)@.last() * 4096
            && a.order_spec() == 0) && final(manager)@ == old(manager)@.drop_last(),
{
    match manager.allocate() {
        Ok(p) => {
            let address = p.into_raw() as u64 * 4096;
            proof {
                vstd::arithmetic::div_mod::lemma_mod_multiples_basic(address as int / 4096, 4096);
                assert(area::area_bytes(0) == 4096) by {
                    vstd::arithmetic::power2::lemma2_to64();
                }
            }
            Ok(Area::new_unchecked(address, 0))
        },
        Err(()) => Err(AllocateError),
    }
}

/// Allocate `count` pages, the top of the page stack first, appending them to `pages`. Fails
/// if the pages run out; the pages taken until then stay in `pages`.
pub fn mem_allocate_range(manager: &mut Allocator, count: usize, pages: &mut Vec<PPN>) -> (r: Result<(), ()>)
    requires
        old(manager).wf(),
    ensures
        final(manager).wf(),
        ({
            let avail = old(manager)@;
            let n = if count <= avail.len() { count as int } else { avail.len() as int };
            &&& r is Ok <==> count <= avail.len()
            &&& final(manager)@ == avail.take(avail.len() - n)
            &&& final(pages)@.len() == old(pages)@.len() + n
            &&& forall|i: int| 0 <= i < old(pages)@.len() ==> #[trigger] final(pages)@[i] == old(pages)@[i]
            &&& forall|k: int| 0 <= k < n ==> (#[trigger] final(pages)@[old(pages)@.len() + k])@ == avail[avail.len() - 1 - k]
        }),
{
    let ghost avail = manager@;
    let ghost start = pages@.len();
    let mut i: usize = 0;
    while i < count
        invariant
            manager.wf(),
            avail == old(manager)@,
            start == old(pages)@.len(),
            i <= count,
            i <= avail.len(),
            manager@ == avail.take(avail.len() - i),
            pages@.len() == start + i,
            forall|j: int| 0 <= j < start ==> #[trigger] pages@[j] == old(pages)@[j],
            forall|k: int| 0 <= k < i ==> (#[trigger] pages@[start + k])@ == avail[avail.len() - 1 - k],
        decreases count - i,
    {
        match manager.allocate() {
            Ok(p) => {
                pages.push(p);
                assert(avail.take(avail.len() - i).drop_last() =~= avail.take(avail.len() - (i + 1)));
            },
            Err(()) => {
                assert(i == avail.len());
                return Err(());
            },
        }
        i = i + 1;
    }
    Ok(())
}

/// Free an area: its first page goes back on top of the page stack.
pub fn mem_deallocate(manager: &mut Allocator, area: Area)
    requires
        old(manager).wf(),
        old(manager)@.len() < 1024,
        area.start_spec() / 4096 <= u32::MAX,
    ensures
        final(manager).wf(),
        final(manager)@ == old(manager)@.push((area.start_spec() / 4096) as u32),
{
    let page = area.start() / 4096;
    manager.free(PPN::from_raw(page as u32));
}

} // verus!
