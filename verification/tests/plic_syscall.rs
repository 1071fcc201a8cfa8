use kernel::allocator::arena::Arena;
use kernel::arch::page::Page;
use kernel::arch::riscv::plic::{
    reserve, InvalidContext, InvalidContextOrSource, InvalidSource, Reservations, ReserveError, PLIC,
};
use kernel::arch::riscv::vms::sv39::Sv39;
use kernel::arch::vms::RWX;
use kernel::memory::allocator::Allocator;
use kernel::memory::ppn::PPNRange;
use kernel::syscall::{
    decode_rwx_flags, dev_dma_alloc, io_set_notify_handler, io_set_queues, io_wait, io_wait_time, mem_alloc, mem_dealloc,
    mem_physical_addresses, placeholder, sys_direct_alloc, sys_platform_info, sys_registry_add, sys_registry_get,
    sys_reserve_interrupt, sys_set_interrupt_controller, task_spawn, InvalidPageFlags, Mapping, Return, Status,
};
use kernel::task::address::{Address, GroupID, TaskID as LocalID};
use kernel::task::registry::Registry;
use kernel::task::{StateFlags, Task, TaskID};

fn task() -> Arena<Task> {
    let mut arena = Arena::new(1);
    Task::new(&mut arena, Sv39::new(0x100, 0x200, 4), 0, 0, Page::new(0x3000).unwrap()).unwrap();
    arena
}

fn frames(start: usize, count: u32) -> Allocator {
    let mut ranges = vec![PPNRange::from_ptr(start, count + 2)];
    Allocator::new(&mut ranges).unwrap()
}

#[test]
fn plic_registers() {
    let mut plic = PLIC::new();
    assert_eq!(plic.read(5), 0);
    assert_eq!(plic.set_priority(5, 3), Ok(()));
    assert_eq!(plic.read(5), 3);
    assert_eq!(plic.set_priority(1024, 3), Err(InvalidSource));
    assert_eq!(plic.check_pending(40), Ok(false));
    assert_eq!(plic.check_pending(2000), Err(InvalidSource));
    assert_eq!(plic.enable(1, 33, true), Ok(()));
    // Context 1's enable bits start at 0x2080 bytes; source 33 is bit 1 of the second word.
    assert_eq!(plic.read(0x2080 / 4 + 1), 0b10);
    assert_eq!(plic.enable(1, 34, true), Ok(()));
    assert_eq!(plic.enable(1, 33, false), Ok(()));
    assert_eq!(plic.read(0x2080 / 4 + 1), 0b100);
    assert_eq!(plic.enable(0x3e00, 1, true), Err(InvalidContextOrSource::InvalidContext));
    assert_eq!(plic.enable(0, 1024, true), Err(InvalidContextOrSource::InvalidSource));
    assert_eq!(plic.set_priority_threshold(1, 7), Ok(()));
    assert_eq!(plic.read(0x20_1000 / 4), 7);
    assert_eq!(plic.set_priority_threshold(0x3e00, 7), Err(InvalidContext));
}

#[test]
fn plic_claim_complete() {
    let mut plic = PLIC::new();
    assert_eq!(plic.claim(1), Ok(None));
    assert_eq!(plic.complete(1, 10), Ok(()));
    assert_eq!(plic.claim(1), Ok(Some(10)));
    assert_eq!(plic.claim(0), Ok(None));
    assert_eq!(plic.claim(0x3e00), Err(InvalidContext));
    assert_eq!(plic.complete(0x3e00, 10), Err(InvalidContextOrSource::InvalidContext));
    assert_eq!(plic.complete(1, 1024), Err(InvalidContextOrSource::InvalidSource));
}

#[test]
fn reserve_twice() {
    let mut plic = PLIC::new();
    let mut res = Reservations::new();
    let a = Address::new(LocalID(2), GroupID(0));
    // No controller yet: no sources.
    assert_eq!(reserve(&mut res, &mut plic, 1, a), Err(ReserveError::NonExistent));
    res.set_controller(8);
    assert_eq!(reserve(&mut res, &mut plic, 0, a), Err(ReserveError::NonExistent));
    assert_eq!(reserve(&mut res, &mut plic, 9, a), Err(ReserveError::NonExistent));
    assert_eq!(reserve(&mut res, &mut plic, 3, a), Ok(()));
    assert_eq!(plic.read(3), 1);
    assert_eq!(plic.read(0x2080 / 4), 0b1000);
    assert_eq!(reserve(&mut res, &mut plic, 3, a), Err(ReserveError::Occupied));
    assert_eq!(sys_reserve_interrupt(&mut res, &mut plic, 3, a), Return(Status::Occupied, 0));
    assert_eq!(sys_reserve_interrupt(&mut res, &mut plic, 4, a), Return(Status::Success, 0));
    assert_eq!(sys_reserve_interrupt(&mut res, &mut plic, 0x1_0004, a), Return(Status::Occupied, 0));
    assert_eq!(sys_reserve_interrupt(&mut res, &mut plic, 100, a), Return(Status::Unavailable, 0));
}

#[test]
fn status_codes() {
    assert_eq!(u8::from(Status::Success), 0);
    assert_eq!(u8::from(Status::MemoryInvalidProtectionFlags), 7);
    assert_eq!(u8::from(Status::Unavailable), 12);
    assert_eq!(placeholder(), Return(Status::InvalidCall, 0));
}

#[test]
fn protection_flags() {
    assert_eq!(decode_rwx_flags(1), Ok(RWX::R));
    assert_eq!(decode_rwx_flags(3), Ok(RWX::RW));
    assert_eq!(decode_rwx_flags(4), Ok(RWX::X));
    assert_eq!(decode_rwx_flags(5), Ok(RWX::RX));
    assert_eq!(decode_rwx_flags(7), Ok(RWX::RWX));
    assert_eq!(decode_rwx_flags(0x10 | 1), Ok(RWX::R));
    for bad in [0, 2, 6] {
        assert_eq!(decode_rwx_flags(bad), Err(InvalidPageFlags));
    }
}

#[test]
fn registry_syscalls() {
    let mut reg = Registry::new();
    let me = TaskID::from(6u32);
    assert_eq!(sys_registry_add(&mut reg, b"net", 4, me), Return(Status::Success, 0));
    assert_eq!(sys_registry_add(&mut reg, b"self", u32::MAX as usize, me), Return(Status::Success, 0));
    assert_eq!(sys_registry_get(&reg, b"net"), Return(Status::Success, 4));
    assert_eq!(sys_registry_get(&reg, b"self"), Return(Status::Success, 6));
    assert_eq!(sys_registry_get(&reg, b"gpu"), Return(Status::NotFound, 0));
    assert_eq!(sys_registry_add(&mut reg, &[b'n'; 40], 1, me), Return(Status::TooLong, 0));
    for i in 0..14u8 {
        assert_eq!(sys_registry_add(&mut reg, &[i], 1, me), Return(Status::Success, 0));
    }
    assert_eq!(sys_registry_add(&mut reg, b"full", 1, me), Return(Status::MemoryUnavailable, 0));
}

#[test]
fn queue_and_handler_syscalls() {
    let mut arena = task();
    let t = arena.get_mut(0).unwrap();
    assert_eq!(io_set_queues(t, 0x5000, 2), Return(Status::Success, 0));
    assert_eq!(t.ipc.base, Some(0x5000));
    assert_eq!(t.ipc.ring_mask, 3);
    assert_eq!(io_set_queues(t, 0, 11), Return(Status::TooLong, 0));
    assert_eq!(t.ipc.base, Some(0x5000));
    // Only the low byte counts.
    assert_eq!(io_set_queues(t, 0, 0x101), Return(Status::Success, 0));
    assert_eq!(t.ipc.base, None);
    assert_eq!(t.ipc.ring_mask, 1);
    assert_eq!(io_set_notify_handler(t, 0x7000), Return(Status::Success, 0));
    assert_eq!(io_set_notify_handler(t, 0), Return(Status::Success, 0x7000));
    assert!(t.notification_handler.is_none());
}

#[test]
fn wait_syscalls() {
    assert_eq!(io_wait_time(5, 0), 5);
    let mut arena = task();
    let t = arena.get_mut(0).unwrap();
    assert!(!io_wait(t, 100, 20));
    assert_eq!(t.wait_time, 120);
    t.flags.set(StateFlags::NOTIFIED);
    assert!(io_wait(t, 200, 20));
    assert_eq!(t.wait_time, 120);
    assert!(!t.flags.is_set(StateFlags::NOTIFIED));
}

#[test]
fn memory_syscalls() {
    let mut arena = task();
    let t = arena.get_mut(0).unwrap();
    let mut f = frames(0x8000_0000, 8);
    assert_eq!(mem_alloc(t, &mut f, 0, 1, 3), Return(Status::NullArgument, 0));
    assert_eq!(mem_alloc(t, &mut f, 0x1001, 1, 3), Return(Status::BadAlignment, 0));
    assert_eq!(mem_alloc(t, &mut f, 0x1000, 1, 2), Return(Status::MemoryInvalidProtectionFlags, 0));
    assert_eq!(f.len(), 8);
    assert_eq!(mem_alloc(t, &mut f, 0x10_0000, 2, 3), Return(Status::Success, 0x10_0000));
    assert_eq!(f.len(), 6);
    let mut store = vec![0u64; 2];
    assert_eq!(mem_physical_addresses(t, 0x10_0000, &mut store), Return(Status::Success, 0));
    assert!(store.iter().all(|&a| (0x8000_0000..0x8000_8000).contains(&a) && a % 4096 == 0));
    assert_ne!(store[0], store[1]);
    let mut store = vec![0u64; 3];
    assert_eq!(mem_physical_addresses(t, 0x10_0000, &mut store), Return(Status::MemoryNotAllocated, 0));
    assert_eq!(mem_physical_addresses(t, 0x10_0010, &mut store), Return(Status::BadAlignment, 0));
    assert_eq!(mem_dealloc(t, 0x10_0000, 2), Return(Status::Success, 0));
    assert!(t.translate_virtual_address(Page::new(0x10_0000).unwrap()).is_none());
    assert_eq!(mem_dealloc(t, 0, 1), Return(Status::NullArgument, 0));
    assert_eq!(mem_dealloc(t, 0x10, 1), Return(Status::BadAlignment, 0));
}

#[test]
fn direct_alloc_syscall() {
    let mut arena = task();
    let t = arena.get_mut(0).unwrap();
    assert_eq!(sys_direct_alloc(t, 0, 0x1_0000, 1), Return(Status::NullArgument, 0));
    assert_eq!(sys_direct_alloc(t, 0x20_0010, 0x1_0000, 1), Return(Status::NullArgument, 0));
    assert_eq!(sys_direct_alloc(t, 0x20_0000, 0x1_0000_0000, 1), Return(Status::MemoryUnavailable, 0));
    assert!(t.virtual_memory.get(0x20_0000).is_none());
    assert_eq!(sys_direct_alloc(t, 0x20_0000, 0x1_0000, 2), Return(Status::Success, 0));
    let (p, rwx) = t.virtual_memory.get(0x20_1000).unwrap();
    assert_eq!(p.into_raw(), 0x1_0001);
    assert_eq!(rwx, RWX::RW);
    // A range that overlaps a mapped page is refused as a whole.
    assert_eq!(sys_direct_alloc(t, 0x1f_f000, 0x2_0000, 2), Return(Status::MemoryOverlap, 0));
    assert!(t.virtual_memory.get(0x1f_f000).is_none());
    assert_eq!(t.virtual_memory.get(0x20_0000).unwrap().0.into_raw(), 0x1_0000);
}

#[test]
fn platform_info_syscall() {
    let mut arena = task();
    let t = arena.get_mut(0).unwrap();
    assert_eq!(sys_platform_info(t, 0, 0x8220_0000, 2), Return(Status::NullArgument, 0));
    assert_eq!(sys_platform_info(t, 0x30_0008, 0x8220_0000, 2), Return(Status::BadAlignment, 0));
    assert_eq!(sys_platform_info(t, 0x30_0000, 0x8220_0000, 2), Return(Status::Success, 2));
    let (p, rwx) = t.virtual_memory.get(0x30_1000).unwrap();
    assert_eq!(p.into_raw(), 0x8_2201);
    assert_eq!(rwx, RWX::R);
    assert!(t.virtual_memory.get(0x30_2000).is_none());
}

#[test]
fn interrupt_controller_syscall() {
    let mut plic = PLIC::new();
    let mut res = Reservations::new();
    let a = Address::new(LocalID(2), GroupID(0));
    let (r, range) = sys_set_interrupt_controller(&mut res, 0xc_0000, 0x400, 0x1_0035, 0x400);
    assert_eq!(r, Return(Status::Success, 0));
    assert_eq!(range.start(), 0xc_0000);
    assert_eq!(range.len(), 0x400);
    // Only the low 16 bits of the device count are taken.
    assert_eq!(sys_reserve_interrupt(&mut res, &mut plic, 0x35, a), Return(Status::Success, 0));
    assert_eq!(sys_reserve_interrupt(&mut res, &mut plic, 0x36, a), Return(Status::Unavailable, 0));
    // Setting the controller again frees every reservation.
    sys_set_interrupt_controller(&mut res, 0xc_0000, 0x400, 0x35, 0x400);
    assert_eq!(sys_reserve_interrupt(&mut res, &mut plic, 0x35, a), Return(Status::Success, 0));
}

#[test]
fn dma_alloc_syscall() {
    let mut arena = task();
    let t = arena.get_mut(0).unwrap();
    let mut f = frames(0x8000_0000, 8);
    // 5000 bytes take two pages.
    assert_eq!(dev_dma_alloc(t, &mut f, 0x40_0000, 5000), Return(Status::Success, 0x40_0000));
    assert_eq!(f.len(), 6);
    let (a, rwx) = t.virtual_memory.get(0x40_0000).unwrap();
    let (b, _) = t.virtual_memory.get(0x40_1000).unwrap();
    assert_eq!(rwx, RWX::RW);
    assert_ne!(a.into_raw(), b.into_raw());
    assert!(t.virtual_memory.get(0x40_2000).is_none());
}

#[test]
fn spawn_syscall() {
    let mut arena = Arena::new(4);
    Task::new(&mut arena, Sv39::new(0x100, 0x200, 4), 0, 0, Page::new(0x3000).unwrap()).unwrap();
    let mut f = frames(0x8000_0000, 8);
    assert_eq!(mem_alloc(arena.get_mut(0).unwrap(), &mut f, 0x10_0000, 2, 3), Return(Status::Success, 0x10_0000));
    let (shared, _) = arena.get(0).unwrap().virtual_memory.get(0x10_1000).unwrap();
    let maps = [Mapping { task_address: 0x50_0000, typ: 0, flags: 1, self_address: 0x10_1000 }];
    let r = task_spawn(&mut arena, 0, &maps, Sv39::new(0x300, 0x400, 4), 0x1234, 0x5678, Page::new(0x4000).unwrap());
    assert_eq!(r, Return(Status::Success, 1));
    let t = arena.get(1).unwrap();
    assert_eq!(t.id(), 1);
    let (p, rwx) = t.virtual_memory.get(0x50_0000).unwrap();
    assert_eq!(p.into_raw(), shared.into_raw());
    assert_eq!(rwx, RWX::R);
    assert!(t.virtual_memory.get(0x50_1000).is_none());
}
