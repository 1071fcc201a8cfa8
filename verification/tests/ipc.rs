use kernel::allocator::arena::Arena;
use kernel::arch::page::Page;
use kernel::arch::riscv::vms::sv39::Sv39;
use kernel::task::ipc::{Flags, FreePage, Packet, IPC};
use kernel::task::{Task, TaskID};

fn packet(to: u32, id: u16) -> Packet {
    Packet {
        data: None,
        name: None,
        data_offset: 0,
        data_length: 0,
        address: TaskID::from(to),
        flags_user: 0,
        flags_kernel: Flags(0),
        name_length: 0,
        id,
    }
}

/// Two tasks with IPC areas of four slots; task 0 has queued a packet for `to` in slot 1, and
/// task 1 offers its packet slot 2 as free.
fn setup(to: u32) -> Arena<Task> {
    let mut arena = Arena::new(4);
    for base in [0x10_0000u64, 0x20_0000] {
        Task::new(&mut arena, Sv39::new(0x100, 0x200, 4), 0, 0, Page::new(0x3000).unwrap()).unwrap();
        let id = arena.next_index() - 1;
        arena.get_mut(id).unwrap().set_queues(Some(base), 2).unwrap();
    }
    let s = arena.get_mut(0).unwrap();
    s.ipc.queues.packets[1] = packet(to, 7);
    s.ipc.queues.transmit[0] = 1;
    s.ipc.queues.transmit_queue_index = 1;
    let r = arena.get_mut(1).unwrap();
    r.ipc.queues.free[0] = 2;
    r.ipc.queues.free_packets_queue_index = 1;
    r.wait_time = 1000;
    arena
}

#[test]
fn packet_is_delivered() {
    let mut arena = setup(1);
    Task::process_io(&mut arena, 0, TaskID::from(0u32));
    let s = arena.get(0).unwrap();
    assert_eq!(s.ipc.last_transmit_index, 1);
    assert_eq!(s.ipc.queues.received_queue_index, 0);
    let r = arena.get(1).unwrap();
    assert_eq!(r.ipc.queues.received_queue_index, 1);
    assert_eq!(r.ipc.queues.received[0], 2);
    assert_eq!(r.ipc.last_free_index, 1);
    assert_eq!(r.wait_time, 0);
    let p = r.ipc.queues.packets[2];
    assert_eq!(p.id, 7);
    assert_eq!(u32::from(p.address), 0);
}

#[test]
fn undeliverable_packet_comes_back() {
    let mut arena = setup(3);
    Task::process_io(&mut arena, 0, TaskID::from(0u32));
    let s = arena.get(0).unwrap();
    assert_eq!(s.ipc.last_transmit_index, 1);
    assert_eq!(s.ipc.queues.received_queue_index, 1);
    assert_eq!(s.ipc.queues.received[0], 1);
    let r = arena.get(1).unwrap();
    assert_eq!(r.ipc.queues.received_queue_index, 0);
    assert_eq!(r.wait_time, 1000);
}

#[test]
fn receiver_without_free_slots() {
    let mut arena = setup(1);
    arena.get_mut(1).unwrap().ipc.queues.free_packets_queue_index = 0;
    Task::process_io(&mut arena, 0, TaskID::from(0u32));
    let s = arena.get(0).unwrap();
    assert_eq!(s.ipc.queues.received_queue_index, 1);
    assert_eq!(arena.get(1).unwrap().ipc.queues.received_queue_index, 0);
}

#[test]
fn bad_slot_stops_processing() {
    let mut arena = setup(1);
    arena.get_mut(0).unwrap().ipc.queues.transmit[0] = 9;
    Task::process_io(&mut arena, 0, TaskID::from(0u32));
    let s = arena.get(0).unwrap();
    assert_eq!(s.ipc.last_transmit_index, 0);
    assert_eq!(arena.get(1).unwrap().ipc.queues.received_queue_index, 0);
}

#[test]
fn no_area_no_work() {
    let mut arena = setup(1);
    arena.get_mut(0).unwrap().ipc.base = None;
    Task::process_io(&mut arena, 0, TaskID::from(0u32));
    assert_eq!(arena.get(0).unwrap().ipc.last_transmit_index, 0);
}

#[test]
fn free_ranges_are_taken_from_the_end() {
    let mut arena = setup(1);
    let t = arena.get_mut(1).unwrap();
    t.ipc.queues.free_ranges[0] = FreePage { address: 0x40_0000, count: 1 };
    t.ipc.queues.free_ranges[1] = FreePage { address: 0x50_0000, count: 4 };
    t.ipc.queues.free_ranges_list_size = 2;
    // The first range is too small; three pages come off the end of the second.
    let p = IPC::take_free_range(&mut t.ipc.queues, 3).unwrap();
    assert_eq!(p.as_ptr(), 0x50_1000);
    assert_eq!(t.ipc.queues.free_ranges[1].count, 1);
    assert!(IPC::take_free_range(&mut t.ipc.queues, 5).is_none());
    assert_eq!(IPC::packets_table_offset(3), 0);
}

#[test]
fn data_range_is_taken_from_the_receiver() {
    let mut arena = setup(1);
    {
        let s = arena.get_mut(0).unwrap();
        s.ipc.queues.packets[1].data = Some(0x7000);
        s.ipc.queues.packets[1].data_length = 5000;
    }
    arena.get_mut(1).unwrap().ipc.queues.free_ranges[0] = FreePage { address: 0x40_0000, count: 4 };
    Task::process_io(&mut arena, 0, TaskID::from(0u32));
    let r = arena.get(1).unwrap();
    assert_eq!(r.ipc.queues.received_queue_index, 1);
    let p = r.ipc.queues.packets[2];
    assert_eq!(p.data, Some(0x40_2000));
    assert_eq!(p.data_length, 5000);
    assert_eq!(p.name, None);
    assert_eq!(r.ipc.queues.free_ranges[0].count, 2);
}

#[test]
fn misaligned_data_fails_after_taking_the_slot() {
    let mut arena = setup(1);
    arena.get_mut(0).unwrap().ipc.queues.packets[1].data = Some(0x7001);
    Task::process_io(&mut arena, 0, TaskID::from(0u32));
    let s = arena.get(0).unwrap();
    assert_eq!(s.ipc.queues.received_queue_index, 1);
    assert_eq!(s.ipc.queues.received[0], 1);
    let r = arena.get(1).unwrap();
    assert_eq!(r.ipc.queues.received_queue_index, 0);
    assert_eq!(r.ipc.last_free_index, 1);
    assert_eq!(r.wait_time, 1000);
}

#[test]
fn free_index_wraps_around_the_ring() {
    let mut arena = setup(1);
    {
        // The receiver has taken all four free slots once; the next free entry is entry 0 again.
        let r = arena.get_mut(1).unwrap();
        r.ipc.last_free_index = 4;
        r.ipc.queues.free[0] = 3;
        r.ipc.queues.free_packets_queue_index = 5;
    }
    Task::process_io(&mut arena, 0, TaskID::from(0u32));
    let r = arena.get(1).unwrap();
    assert_eq!(r.ipc.queues.received_queue_index, 1);
    assert_eq!(r.ipc.queues.received[0], 3);
    assert_eq!(r.ipc.last_free_index, 5);
    assert_eq!(r.ipc.queues.packets[3].id, 7);
}
