use kernel::arch::page::{FromPointerError, Page};
use kernel::memory::allocator::{Allocator, Stacks};
use kernel::memory::area::Area;
use kernel::memory::ppn::{Error, PPNDirect, PPNDirectRange, PPNRange, PPN};
use kernel::memory::shared::{ReferenceCountOverflow, SharedPPN};
use kernel::memory::{mem_add_range, mem_allocate, mem_allocate_range, mem_deallocate, AllocateError};

#[test]
fn page_from_pointer() {
    assert_eq!(Page::from_pointer(0), Err(FromPointerError::Null));
    assert_eq!(Page::from_pointer(0x1001), Err(FromPointerError::BadAlignment));
    let p = Page::from_pointer(0x2000).unwrap();
    assert_eq!(p.as_ptr(), 0x2000);
    assert_eq!(p.next().unwrap().as_ptr(), 0x3000);
    assert_eq!(p.skip(3).unwrap().as_ptr(), 0x5000);
    let top = Page::new(0xffff_ffff_ffff_f000).unwrap();
    assert!(top.next().is_none());
}

#[test]
fn page_count_for_bytes() {
    assert_eq!(Page::min_pages_for_byte_count(0), 0);
    assert_eq!(Page::min_pages_for_byte_count(1), 1);
    assert_eq!(Page::min_pages_for_byte_count(4096), 1);
    assert_eq!(Page::min_pages_for_byte_count(4097), 2);
}

#[test]
fn area_alignment_and_split() {
    assert!(Area::new(0x3000, 1).is_err());
    let a = Area::new(0x4000, 2).unwrap();
    let (l, r) = a.split().unwrap();
    assert_eq!((l.start(), l.order()), (0x4000, 1));
    assert_eq!((r.start(), r.order()), (0x6000, 1));
    assert!(Area::new(0x1000, 0).unwrap().split().is_none());
}

#[test]
fn ppn_range_pops_from_both_ends() {
    let mut r = PPNRange::from_ptr(0x10_000, 3);
    assert_eq!(r.start(), 0x10);
    assert_eq!(r.len(), 3);
    assert_eq!(r.pop().unwrap().into_raw(), 0x12);
    assert_eq!(r.pop_base().unwrap().into_raw(), 0x10);
    assert_eq!(r.len(), 1);
    assert_eq!(r.pop().unwrap().into_raw(), 0x11);
    assert!(r.pop().is_none());
    assert!(r.pop_base().is_none());
}

#[test]
fn ppn_range_forget_base() {
    let mut r = PPNRange::from_ptr(0x1000, 5);
    assert_eq!(r.forget_base(2), 2);
    assert_eq!(r.start(), 3);
    assert_eq!(r.forget_base(10), 3);
    assert_eq!(r.len(), 0);
}

#[test]
fn ppn_from_pointer() {
    assert_eq!(PPN::from_ptr(0x5000).into_raw(), 5);
    assert_eq!(PPN::from_raw(7).as_usize(), 0x7000);
    assert_eq!(PPNDirect::from_usize(0x1234), Err(Error::BadAlignment));
    assert_eq!(PPNDirect::from_usize(0x3000).unwrap().into_raw(), 3);
}

#[test]
fn direct_range_wraps() {
    let mut r = PPNDirectRange::new(u32::MAX, 2).unwrap();
    assert_eq!(r.pop_base().unwrap().into_raw(), u32::MAX);
    assert_eq!(r.start(), 0);
    assert_eq!(r.len(), 1);
}

#[test]
fn shared_ppn_reference_count() {
    let s = SharedPPN::from_raw(PPN::from_raw(9));
    let (count, t) = s.try_clone(4).unwrap();
    assert_eq!(count, 5);
    assert_eq!(t.raw(), 9);
    assert_eq!(s.try_clone(u32::MAX).unwrap_err(), ReferenceCountOverflow);
    assert_eq!(s.into_raw().into_raw(), 9);
}

#[test]
fn stacks_are_last_in_first_out() {
    let mut s = Stacks::new(2);
    assert!(s.push(0, PPN::from_raw(1)));
    assert!(s.push(0, PPN::from_raw(2)));
    assert!(s.push(1, PPN::from_raw(3)));
    assert_eq!(s.pop(0).unwrap().into_raw(), 2);
    assert_eq!(s.pop_base(0).unwrap().into_raw(), 1);
    assert!(s.pop(0).is_none());
    assert_eq!(s.pop(1).unwrap().into_raw(), 3);
}

#[test]
fn stack_is_bounded() {
    let mut s = Stacks::new(1);
    for i in 0..1024 {
        assert!(s.push(0, PPN::from_raw(i)));
    }
    assert!(!s.push(0, PPN::from_raw(5000)));
    assert_eq!(s.len_of(0), 1024);
}

#[test]
fn allocator_hands_out_ranges() {
    let mut ranges = vec![PPNRange::from_ptr(0x1000, 4), PPNRange::from_ptr(0x10_000, 1)];
    let mut a = Allocator::new(&mut ranges).unwrap();
    assert_eq!(a.len(), 3);
    assert!(ranges.iter().all(|r| r.len() == 0));
    // The two highest pages of the first range hold the stacks. Each range is inserted from
    // its highest page down, so the last one inserted is the lowest page of the last range.
    assert_eq!(a.allocate().unwrap().into_raw(), 0x10);
    assert_eq!(a.allocate().unwrap().into_raw(), 0x1);
    a.free(PPN::from_raw(0x99));
    assert_eq!(a.allocate().unwrap().into_raw(), 0x99);
    assert_eq!(a.allocate().unwrap().into_raw(), 0x2);
    assert_eq!(a.len(), 0);
}

#[test]
fn memory_manager_functions() {
    let mut manager = None;
    mem_add_range(&mut manager, 0x8000_0000, 6);
    let mut m = manager.unwrap();
    assert_eq!(m.len(), 4);
    // The lowest page is handed out first.
    let a = mem_allocate(&mut m, 0).unwrap();
    assert_eq!(a.start(), 0x8000_0000);
    assert_eq!(a.order(), 0);
    let mut pages: Vec<PPN> = vec![];
    assert_eq!(mem_allocate_range(&mut m, 2, &mut pages), Ok(()));
    assert_eq!(pages.iter().map(|p| p.as_usize()).collect::<Vec<_>>(), vec![0x8000_1000, 0x8000_2000]);
    // Only one page is left: the range fails, keeping the page it got.
    assert_eq!(mem_allocate_range(&mut m, 2, &mut pages), Err(()));
    assert_eq!(pages.len(), 3);
    assert_eq!(m.len(), 0);
    assert_eq!(mem_allocate(&mut m, 0).err(), Some(AllocateError));
    mem_deallocate(&mut m, a);
    assert_eq!(mem_allocate(&mut m, 0).unwrap().start(), 0x8000_0000);
}
