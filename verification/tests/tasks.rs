use kernel::allocator::arena::{Arena, InsertError};
use kernel::arch::page::Page;
use kernel::arch::riscv::vms::sv39::Sv39;
use kernel::task::executor::{Executor, Next};
use kernel::task::group::{Full, Group, GroupData, NoTask as NoGroupTask, GROUP_SLOTS};
use kernel::task::ipc::SetQueuesError;
use kernel::task::notification::{Handler, NewHandlerError, SendError};
use kernel::task::{Claimed, RingIndex, StateFlags, Task, TaskID};

fn vms() -> Sv39 {
    Sv39::new(0x100, 0x200, 4)
}

fn page(a: u64) -> Page {
    Page::new(a).unwrap()
}

fn tasks(n: usize) -> Arena<Task> {
    let mut arena = Arena::new(16);
    for i in 0..n {
        let id = Task::new(&mut arena, vms(), 0x1000 + i, 0x2000, page(0x3000)).unwrap();
        assert_eq!(id.as_usize(), i);
    }
    arena
}

#[test]
fn new_task_state() {
    let mut arena: Arena<Task> = Arena::new(1);
    let id = Task::new(&mut arena, vms(), 0x1234, 0x8000, page(0x3000)).unwrap();
    assert_eq!(u32::from(id), 0);
    let t = arena.get(0).unwrap();
    assert_eq!(t.register_state.pc, 0x1234);
    assert_eq!(t.register_state.x[1], 0x8000);
    assert_eq!(t.executor_id, u16::MAX);
    assert_eq!(t.wait_time, 0);
    assert_eq!(t.id(), 0);
    assert!(!t.was_notified());
    assert!(matches!(
        Task::new(&mut arena, vms(), 0, 0, page(0x3000)),
        Err(InsertError::NoFreeSlots)
    ));
}

#[test]
fn task_ids() {
    assert_eq!(TaskID::try_from_usize(5).map(u32::from), Some(5));
    assert!(TaskID::try_from_usize(1usize << 32).is_none());
    assert_eq!(TaskID::from(8u32).as_usize(), 8);
}

#[test]
fn state_flags() {
    let mut f = StateFlags(0);
    f.lock(StateFlags::IPC_LOCK_TRANSMIT);
    assert!(f.is_set(StateFlags::IPC_LOCK_TRANSMIT));
    assert!(!f.is_set(StateFlags::IPC_LOCK_RECEIVED));
    f.set(StateFlags::NOTIFIED | StateFlags::DEAD);
    assert_eq!(f.0, 0x8012);
    f.unlock(StateFlags::IPC_LOCK_TRANSMIT);
    f.clear(StateFlags::DEAD);
    assert_eq!(f.0, StateFlags::NOTIFIED);
}

#[test]
fn ring_index_wraps() {
    let mut r = RingIndex::default();
    assert_eq!((r.mask, r.get()), (0, 0));
    r.set_mask(2);
    assert_eq!(r.mask, 3);
    for expected in [1, 2, 3, 0, 1] {
        r.increment();
        assert_eq!(r.get(), expected);
    }
    r.index = 3;
    r.set_mask(1);
    assert_eq!(r.get(), 1);
}

#[test]
fn notification_handler() {
    assert_eq!(Handler::new(0).err(), Some(NewHandlerError::Null));
    let h = Handler::new(0x4000).unwrap();
    assert_eq!(h.as_ptr(), 0x4000);
    let mut arena = tasks(1);
    let t = arena.get_mut(0).unwrap();
    assert_eq!(t.send_notification().err(), Some(SendError::NoHandler));
    assert!(t.set_notification_handler(Some(h)).is_none());
    assert_eq!(t.send_notification().unwrap().as_ptr(), 0x4000);
    assert_eq!(t.set_notification_handler(None).unwrap().as_ptr(), 0x4000);
}

#[test]
fn wait_duration_saturates() {
    let mut arena = tasks(1);
    let t = arena.get_mut(0).unwrap();
    t.wait_duration(100, 50);
    assert_eq!(t.wait_time, 150);
    t.wait_duration(u64::MAX - 1, 50);
    assert_eq!(t.wait_time, u64::MAX);
}

#[test]
fn set_queues() {
    let mut arena = tasks(1);
    let t = arena.get_mut(0).unwrap();
    assert_eq!(t.set_queues(Some(0x10_0000), 11), Err(SetQueuesError::TooLarge));
    assert_eq!(t.set_queues(Some(0x10_0000), 3), Ok(()));
    assert_eq!(t.ipc.ring_mask, 7);
    assert_eq!(t.ipc.base, Some(0x10_0000));
    assert_eq!(t.set_queues(None, 0), Ok(()));
    assert_eq!(t.ipc.ring_mask, 0);
}

#[test]
fn groups_fill_and_empty() {
    let mut groups: Arena<GroupData> = Arena::new(2);
    let id = Group::new(&mut groups, TaskID::from(1u32)).unwrap();
    assert_eq!(id, 0);
    let g = Group::get(&groups, id).unwrap();
    assert_eq!(g.id(), 0);
    assert_eq!(g.task(&groups, 0).map(u32::from), Ok(1));
    assert_eq!(g.task(&groups, 1).map(u32::from), Err(NoGroupTask));
    assert_eq!(g.task(&groups, GROUP_SLOTS).map(u32::from), Err(NoGroupTask));
    for slot in 1..GROUP_SLOTS {
        assert_eq!(g.insert(&mut groups, TaskID::from(10 + slot as u32)), Ok(slot));
    }
    assert_eq!(g.insert(&mut groups, TaskID::from(99u32)), Err(Full));
    // Removing a task frees its slot, which the next insert takes.
    let g = g.remove_task(&mut groups, 3).unwrap().unwrap();
    assert_eq!(g.task(&groups, 3).map(u32::from), Err(NoGroupTask));
    assert_eq!(g.insert(&mut groups, TaskID::from(77u32)), Ok(3));
    assert!(Group::get(&groups, 1).is_none());
}

#[test]
fn group_freed_with_its_last_task() {
    let mut groups: Arena<GroupData> = Arena::new(1);
    Group::new(&mut groups, TaskID::from(1u32)).unwrap();
    assert!(matches!(Group::new(&mut groups, TaskID::from(2u32)), Err(InsertError::NoFreeSlots)));
    let g = Group::get(&groups, 0).unwrap();
    assert!(matches!(g.remove_task(&mut groups, 0), Ok(None)));
    assert!(Group::get(&groups, 0).is_none());
}

#[test]
fn executor_picks_in_steps_of_seven() {
    let mut arena = tasks(16);
    // After task 0 the order is 7, 14, 5, 12, ...
    assert_eq!(Executor::next(&mut arena, None, 0, 10, 1), Next::Run(7));
    assert_eq!(arena.get(7).unwrap().executor_id, 1);
    // Task 7 is claimed now; the next executor takes 14.
    assert_eq!(Executor::next(&mut arena, None, 0, 10, 2), Next::Run(14));
    // The first executor gives up task 7 and continues after it.
    assert_eq!(Executor::next(&mut arena, Some(7), 7, 10, 1), Next::Run(5));
    assert_eq!(arena.get(7).unwrap().executor_id, u16::MAX);
}

#[test]
fn executor_skips_waiting_tasks_and_idles() {
    let mut arena = tasks(3);
    arena.get_mut(1).unwrap().wait_time = 500;
    arena.get_mut(2).unwrap().wait_time = 300;
    arena.get_mut(0).unwrap().wait_time = 400;
    // Nothing can run at time 100: idle until the earliest wait time.
    assert_eq!(Executor::next(&mut arena, None, 0, 100, 0), Next::Idle(300));
    // At 350, task 2 can run.
    assert_eq!(Executor::next(&mut arena, None, 0, 350, 0), Next::Run(2));
    assert_eq!(Executor::id(arena.get(2).unwrap()), 0);
    // Task 2 is claimed and the rest still wait; the wait times of all live tasks count.
    assert_eq!(Executor::next(&mut arena, None, 0, 350, 1), Next::Idle(300));
}

#[test]
fn a_task_is_claimed_once() {
    let mut arena = tasks(1);
    let t = arena.get_mut(0).unwrap();
    assert_eq!(t.execute(3), Ok(()));
    assert_eq!(t.executor_id, 3);
    assert_eq!(t.execute(4), Err(Claimed(3)));
    assert_eq!(t.executor_id, 3);
}
