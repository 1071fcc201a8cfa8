use kernel::arch::page::Page;
use kernel::arch::riscv::vms::sv39::Sv39;
use kernel::memory::allocator::Allocator;
use kernel::memory::ppn::PPNRange;
use kernel::slab::{AllocateError, Slab};

fn frames(count: u32) -> Allocator {
    let mut ranges = vec![PPNRange::from_ptr(0x8000_0000, count + 2)];
    Allocator::new(&mut ranges).unwrap()
}

#[test]
fn objects_are_handed_out_in_order_and_pages_mapped_on_demand() {
    let start = 0x4000_0000u64;
    let mut slab = Slab::new(Page::new(start).unwrap(), 0x10000, 1024);
    let mut vms = Sv39::new(0x100, 0x200, 4);
    let mut f = frames(8);
    assert_eq!(slab.allocate(&mut vms, &mut f).unwrap(), start);
    assert_eq!(f.len(), 7);
    assert!(vms.get(start).is_some());
    for k in 1..4 {
        assert_eq!(slab.allocate(&mut vms, &mut f).unwrap(), start + k * 1024);
    }
    // The first page is full: the next object needs a second page.
    assert_eq!(f.len(), 7);
    assert!(vms.get(start + 4096).is_none());
    assert_eq!(slab.allocate(&mut vms, &mut f).unwrap(), start + 4096);
    assert_eq!(f.len(), 6);
    assert!(vms.get(start + 4096).is_some());
}

#[test]
fn freed_object_is_reused_first() {
    let start = 0x4000_0000u64;
    let mut slab = Slab::new(Page::new(start).unwrap(), 0x10000, 512);
    let mut vms = Sv39::new(0x100, 0x200, 4);
    let mut f = frames(8);
    let a = slab.allocate(&mut vms, &mut f).unwrap();
    let b = slab.allocate(&mut vms, &mut f).unwrap();
    slab.deallocate(a);
    slab.deallocate(b);
    assert_eq!(slab.allocate(&mut vms, &mut f).unwrap(), b);
    assert_eq!(slab.allocate(&mut vms, &mut f).unwrap(), a);
    assert_eq!(slab.allocate(&mut vms, &mut f).unwrap(), start + 1024);
}

#[test]
fn slab_runs_out_of_address_space() {
    let start = 0x4000_0000u64;
    let mut slab = Slab::new(Page::new(start).unwrap(), 2048, 1024);
    let mut vms = Sv39::new(0x100, 0x200, 4);
    let mut f = frames(8);
    // One page is mapped; it holds four objects.
    for k in 0..4 {
        assert_eq!(slab.allocate(&mut vms, &mut f).unwrap(), start + k * 1024);
    }
    assert!(matches!(slab.allocate(&mut vms, &mut f), Err(AllocateError::OutOfAddressSpace)));
}

#[test]
fn slab_without_table_room_reports_the_mapping_error() {
    let start = 0x4000_0000u64;
    let mut slab = Slab::new(Page::new(start).unwrap(), 0x10000, 1024);
    let mut vms = Sv39::new(0x100, 0x200, 0);
    let mut f = frames(8);
    assert!(matches!(slab.allocate(&mut vms, &mut f), Err(AllocateError::AddError(_))));
    // The page taken for the mapping stays taken.
    assert_eq!(f.len(), 7);
}
