use kernel::arch::page::Page;
use kernel::arch::riscv::vms::sv39::Sv39;
use kernel::arch::riscv::vms::{from_rwx, to_rwx};
use kernel::arch::vms::{AddError, PrivateOrShared, ShareError, RWX};
use kernel::memory::allocator::Allocator;
use kernel::memory::ppn::{PPNRange, PPN};
use kernel::memory::shared::SharedPPN;

fn page(a: u64) -> Page {
    Page::new(a).unwrap()
}

fn frames(start: usize, count: u32) -> Allocator {
    let mut ranges = vec![PPNRange::from_ptr(start, count + 2)];
    Allocator::new(&mut ranges).unwrap()
}

#[test]
fn rwx_encoding_round_trips() {
    for rwx in [RWX::R, RWX::RW, RWX::X, RWX::RX, RWX::RWX] {
        assert_eq!(to_rwx(from_rwx(rwx) as u64), Some(rwx));
    }
    assert_eq!(from_rwx(RWX::RW), 0b0110);
    assert_eq!(to_rwx(0), None);
}

#[test]
fn get_after_add() {
    let mut vms = Sv39::new(0x100, 0x200, 4);
    assert!(vms.get(0x4000_0000).is_none());
    vms.add(page(0x4000_0000), PPN::from_raw(0x77), RWX::RX, true, false).unwrap();
    let (ppn, rwx) = vms.get(0x4000_0000).unwrap();
    assert_eq!((ppn.into_raw(), rwx), (0x77, RWX::RX));
    // The same page, another offset.
    assert_eq!(vms.get(0x4000_0123).unwrap().0.into_raw(), 0x77);
    // Neighbours are untouched.
    assert!(vms.get(0x4000_1000).is_none());
}

#[test]
fn add_overlapping_fails() {
    let mut vms = Sv39::new(0x100, 0x200, 4);
    vms.add(page(0x1000), PPN::from_raw(1), RWX::R, false, false).unwrap();
    assert_eq!(vms.add(page(0x1000), PPN::from_raw(2), RWX::R, false, false), Err(AddError::Overlaps));
    assert_eq!(vms.get(0x1000).unwrap().0.into_raw(), 1);
}

#[test]
fn add_without_table_room_fails() {
    let mut vms = Sv39::new(0x100, 0x200, 1);
    vms.add(page(0x1000), PPN::from_raw(1), RWX::R, false, false).unwrap();
    // Another gigapage needs another level 1 table.
    match vms.add(page(0x4000_0000), PPN::from_raw(2), RWX::R, false, false) {
        Err(AddError::AllocateError(_)) => {},
        other => panic!("unexpected {:?}", other),
    }
}

#[test]
fn remove_after_add() {
    let mut vms = Sv39::new(0x100, 0x200, 4);
    vms.add(page(0x2000), PPN::from_raw(0x55), RWX::RW, true, false).unwrap();
    match vms.remove(page(0x2000)).unwrap() {
        PrivateOrShared::Private(p) => assert_eq!(p.into_raw(), 0x55),
        PrivateOrShared::Shared(_) => panic!("expected a private page"),
    }
    assert!(vms.get(0x2000).is_none());
    assert!(vms.remove(page(0x2000)).is_err());
}

#[test]
fn alias_shares_the_page() {
    let mut vms = Sv39::new(0x100, 0x200, 4);
    vms.add(page(0x3000), PPN::from_raw(0x33), RWX::RW, true, false).unwrap();
    vms.alias_address(page(0x3000), page(0x9000), RWX::R, true, false).unwrap();
    assert_eq!(vms.get(0x9000).unwrap(), (PPN::from_raw(0x33), RWX::R));
    // Aliasing onto a mapped page, or from an unmapped one, fails.
    assert!(vms.alias_address(page(0x3000), page(0x9000), RWX::R, true, false).is_err());
    assert!(vms.alias_address(page(0x5000), page(0xa000), RWX::R, true, false).is_err());
}

#[test]
fn add_shared_page() {
    let mut vms = Sv39::new(0x100, 0x200, 4);
    let s = SharedPPN::from_raw(PPN::from_raw(0x44));
    vms.add_shared(page(0x6000), s, RWX::RWX, true, false).unwrap();
    assert_eq!(vms.get(0x6000).unwrap(), (PPN::from_raw(0x44), RWX::RWX));
}

#[test]
fn allocate_consecutive_pages() {
    let mut vms = Sv39::new(0x100, 0x200, 4);
    let mut f = frames(0x50_000, 3);
    vms.allocate(&mut f, page(0x10_000), 3, RWX::RW).unwrap();
    assert_eq!(f.len(), 0);
    // Pages come off the top of the stack: the lowest page of the range first.
    assert_eq!(vms.get(0x10_000).unwrap().0.into_raw(), 0x50);
    assert_eq!(vms.get(0x11_000).unwrap().0.into_raw(), 0x51);
    assert_eq!(vms.get(0x12_000).unwrap().0.into_raw(), 0x52);
    assert!(vms.get(0x13_000).is_none());
}

#[test]
fn allocate_shared_stops_on_overlap() {
    let mut vms = Sv39::new(0x100, 0x200, 4);
    vms.add(page(0x21_000), PPN::from_raw(9), RWX::R, true, false).unwrap();
    let mut f = frames(0x60_000, 3);
    assert_eq!(vms.allocate_shared(&mut f, page(0x20_000), 3, RWX::RW), Err(()));
    assert_eq!(vms.get(0x20_000).unwrap().0.into_raw(), 0x60);
    assert_eq!(vms.get(0x21_000).unwrap().0.into_raw(), 9);
    assert_eq!(f.len(), 1);
}

#[test]
fn allocate_kernel_pages() {
    let mut vms = Sv39::new(0x100, 0x200, 4);
    let mut f = frames(0x70_000, 2);
    vms.allocate_pages(&mut f, page(0x30_000), 2).unwrap();
    assert_eq!(vms.get(0x31_000).unwrap(), (PPN::from_raw(0x71), RWX::RW));
}

#[test]
fn clear_identity_maps_keeps_upper_half() {
    let mut vms = Sv39::new(0x100, 0x200, 4);
    vms.add(page(0x1000), PPN::from_raw(1), RWX::R, false, true).unwrap();
    vms.add(page(0xffff_ffc0_0000_0000), PPN::from_raw(2), RWX::R, false, true).unwrap();
    vms.clear_identity_maps();
    assert!(vms.get(0x1000).is_none());
    assert_eq!(vms.get(0xffff_ffc0_0000_0000).unwrap().0.into_raw(), 2);
}

#[test]
fn share_errors_from_add_errors() {
    assert_eq!(ShareError::from(AddError::Overlaps), ShareError::Overlaps);
    assert_eq!(ShareError::from(AddError::OutOfRange), ShareError::OutOfRange);
    match ShareError::from(AddError::AllocateError(kernel::memory::AllocateError)) {
        ShareError::AllocateError(_) => {},
        other => panic!("unexpected {:?}", other),
    }
}

#[test]
fn timer_deadlines() {
    assert_eq!(kernel::arch::schedule_timer(1_000, 250), 1_250);
    assert_eq!(kernel::arch::disable_timer(), u64::MAX);
}

#[test]
fn regular() {
    let mut vms = Sv39::new(0x100, 0x200, 4);
    vms.add(page(0x2000), PPN::from_raw(0x1), RWX::R, true, false).unwrap();
    assert_eq!(vms.get(0x2000).unwrap(), (PPN::from_raw(0x1), RWX::R));
    assert_eq!(vms.get(0x2234).unwrap(), (PPN::from_raw(0x1), RWX::R));
    assert!(vms.get(0x1000).is_none());
    assert!(vms.get(0x20_0000).is_none());
    assert_eq!(vms.add(page(0x2000), PPN::from_raw(0x1), RWX::RX, true, false), Err(AddError::Overlaps));
    assert_eq!(vms.get(0x2000).unwrap(), (PPN::from_raw(0x1), RWX::R));
    vms.add(page(0x1000), PPN::from_raw(0x1), RWX::RX, true, false).unwrap();
    vms.add(page(0x20_0000), PPN::from_raw(0x111), RWX::X, true, false).unwrap();
    assert_eq!(vms.get(0x2000).unwrap(), (PPN::from_raw(0x1), RWX::R));
    assert_eq!(vms.get(0x1000).unwrap(), (PPN::from_raw(0x1), RWX::RX));
    assert_eq!(vms.get(0x20_0000).unwrap(), (PPN::from_raw(0x111), RWX::X));
}

#[test]
fn shared() {
    let mut vms = Sv39::new(0x100, 0x200, 4);
    let mut f = frames(0x60_000, 3);
    vms.allocate_shared(&mut f, page(0x1_4000_0000), 3, RWX::R).unwrap();
    assert_eq!(vms.get(0x1_4000_0000).unwrap().1, RWX::R);
    match vms.remove(page(0x1_4000_0000)).unwrap() {
        PrivateOrShared::Shared(_) => {},
        PrivateOrShared::Private(_) => panic!("expected a shared page"),
    }
}

#[test]
fn allocate_refuses_a_used_range() {
    let mut vms = Sv39::new(0x100, 0x200, 4);
    vms.add(page(0x11_000), PPN::from_raw(9), RWX::R, true, false).unwrap();
    let mut f = frames(0x50_000, 3);
    assert_eq!(vms.allocate(&mut f, page(0x10_000), 3, RWX::RW), Err(AddError::Overlaps));
    assert_eq!(f.len(), 3);
    assert!(vms.get(0x10_000).is_none());
    assert_eq!(vms.get(0x11_000).unwrap().0.into_raw(), 9);
}

#[test]
fn direct_range_kernel_global() {
    let mut vms = Sv39::new(0x100, 0x200, 4);
    let at = Page::new(0xffff_ffff_f000_0000).unwrap();
    assert!(vms.add_direct_range(at, 0x8_2200, 3, RWX::R, false, true).is_ok());
    for k in 0..3u64 {
        let (p, rwx) = vms.get(0xffff_ffff_f000_0000 + k * 4096).unwrap();
        assert_eq!(p.into_raw(), 0x8_2200 + k as u32);
        assert_eq!(rwx, RWX::R);
    }
    assert!(vms.get(0xffff_ffff_f000_3000).is_none());
    // A range that overlaps is refused as a whole.
    let before = Page::new(0xffff_ffff_efff_f000).unwrap();
    assert!(vms.add_direct_range(before, 0x9_0000, 2, RWX::RW, false, true).is_err());
    assert!(vms.get(0xffff_ffff_efff_f000).is_none());
}
