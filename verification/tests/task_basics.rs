use kernel::allocator::arena::{Arena, InsertError};
use kernel::task::address::{Address, GroupID, TaskID};
use kernel::task::registry::{AddError, Registry, MAX_ENTRIES};
use kernel::task::TaskID as TaskNumber;

#[test]
fn arena_hands_out_slots_in_order() {
    let mut arena: Arena<u32> = Arena::new(2);
    assert_eq!(arena.max_slots(), 2);
    assert_eq!(arena.next_index(), 0);
    assert_eq!(arena.insert(10), Ok(0));
    assert_eq!(arena.insert(20), Ok(1));
    assert_eq!(arena.insert(30), Err(InsertError::NoFreeSlots));
    assert_eq!(arena.get(0), Some(&10));
    assert_eq!(arena.get(1), Some(&20));
    assert_eq!(arena.get(2), None);
}

#[test]
fn arena_remove_leaves_a_hole() {
    let mut arena: Arena<u32> = Arena::new(4);
    arena.insert(1).unwrap();
    arena.insert(2).unwrap();
    assert_eq!(arena.remove(0), Some(1));
    assert_eq!(arena.remove(0), None);
    assert_eq!(arena.remove(9), None);
    assert_eq!(arena.get(0), None);
    assert_eq!(arena.get(1), Some(&2));
    // Slots are not reused.
    assert_eq!(arena.insert(3), Ok(2));
    *arena.get_mut(1).unwrap() = 5;
    assert_eq!(arena.get(1), Some(&5));
    assert!(arena.get_mut(0).is_none());
}

#[test]
fn arena_with_region() {
    let arena: Arena<u64> = Arena::with_region(4096, 24);
    assert_eq!(arena.max_slots(), 170);
}

#[test]
fn address_packs_group_and_task() {
    let a = Address::new(TaskID(7), GroupID(3));
    assert_eq!(a.0, 0x3_0000_0007);
    assert_eq!(a.task(), TaskID(7));
    assert_eq!(a.group(), GroupID(3));
    let b = Address::new(TaskID(u32::MAX), GroupID(u32::MAX));
    assert_eq!(b.0, u64::MAX);
    assert_eq!(b.task(), TaskID(u32::MAX));
    assert_eq!(b.group(), GroupID(u32::MAX));
    assert_eq!(TaskID(9).as_usize(), 9);
    assert_eq!(GroupID(4).as_usize(), 4);
}

#[test]
fn registry_get_after_add() {
    let mut r = Registry::new();
    assert_eq!(r.get(b"uart"), None);
    assert!(r.add(b"uart", TaskNumber::from(3u32)).is_ok());
    assert!(r.add(b"net", TaskNumber::from(4u32)).is_ok());
    assert_eq!(r.get(b"uart").map(u32::from), Some(3));
    assert_eq!(r.get(b"net").map(u32::from), Some(4));
    assert_eq!(r.get(b"uar"), None);
    // A second entry with the same name does not hide the first.
    assert!(r.add(b"uart", TaskNumber::from(5u32)).is_ok());
    assert_eq!(r.get(b"uart").map(u32::from), Some(3));
}

#[test]
fn registry_errors() {
    let mut r = Registry::new();
    assert!(matches!(r.add(&[b'x'; 32], TaskNumber::from(1u32)), Err(AddError::NameTooLong)));
    assert!(r.add(&[b'x'; 31], TaskNumber::from(1u32)).is_ok());
    for i in 1..MAX_ENTRIES {
        assert!(r.add(&[i as u8], TaskNumber::from(i as u32)).is_ok());
    }
    assert!(matches!(r.add(b"late", TaskNumber::from(99u32)), Err(AddError::RegistryFull)));
    assert_eq!(r.get(b"late"), None);
    assert_eq!(r.get(&[3]).map(u32::from), Some(3));
}

#[test]
fn arena_insert_with_sees_the_index() {
    let mut arena: Arena<usize> = Arena::new(2);
    assert_eq!(arena.insert_with(|i| i * 10 + 1), Ok(0));
    assert_eq!(arena.insert_with(|i| i * 10 + 1), Ok(1));
    assert_eq!(arena.get(1), Some(&11));
    let mut called = false;
    assert_eq!(arena.insert_with(|i| { called = true; i }), Err(InsertError::NoFreeSlots));
    assert!(!called);
}
