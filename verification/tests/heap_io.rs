use kernel::heap::{AllocError, Box, RawVec, ReserveError, Vec as KVec, MAX_ALLOCATION};
use kernel::io::uart::{ReadError, WriteError, UART};

#[test]
fn raw_vec_reserve() {
    let mut rv = RawVec::new_in(8);
    assert_eq!(rv.capacity(), 0);
    assert_eq!(rv.try_reserve(4, None), Err(ReserveError::AllocError));
    assert_eq!(rv.capacity(), 0);
    assert_eq!(rv.try_reserve(4, Some(40)), Ok(()));
    // The allocator may grant more than was asked for.
    assert_eq!(rv.capacity(), 5);
    assert_eq!(rv.try_reserve(usize::MAX, None), Err(ReserveError::CapacityOverflow));
    assert_eq!(rv.try_reserve(MAX_ALLOCATION / 8, None), Err(ReserveError::CapacityOverflow));
    assert_eq!(rv.capacity(), 5);
}

#[test]
fn zero_sized_elements_have_unbounded_room() {
    let rv = RawVec::new_in(0);
    assert_eq!(rv.capacity(), usize::MAX);
    let v: KVec<()> = KVec::new_in(0);
    assert_eq!(v.capacity(), usize::MAX);
}

#[test]
fn vec_push_grows_by_half() {
    let mut v: KVec<u32> = KVec::new_in(4);
    assert_eq!(v.capacity(), 0);
    assert_eq!(v.try_push(1, None), Err(ReserveError::AllocError));
    assert_eq!(v.len(), 0);
    // Growing from 0 asks for one element.
    assert_eq!(v.try_push(1, Some(4)), Ok(()));
    assert_eq!(v.capacity(), 1);
    // Growing from 1 asks for 1 * 3 / 2 + 1 = 2 elements.
    assert_eq!(v.try_push(2, Some(8)), Ok(()));
    assert_eq!(v.capacity(), 2);
    // From 2: 4 elements.
    assert_eq!(v.try_push(3, Some(16)), Ok(()));
    assert_eq!(v.capacity(), 4);
    // There is room: no allocation is made.
    assert_eq!(v.try_push(4, None), Ok(()));
    assert_eq!(v.len(), 4);
    assert_eq!(v.get(0), Some(&1));
    assert_eq!(v.get(3), Some(&4));
    assert_eq!(v.get(4), None);
}

#[test]
fn box_needs_memory() {
    let b = Box::try_new_in(42u8, true).unwrap();
    assert_eq!(*b.as_ref(), 42);
    assert_eq!(b.into_inner(), 42);
    assert!(matches!(Box::try_new_in(1u8, false), Err(AllocError)));
    assert_eq!(ReserveError::from(AllocError), ReserveError::AllocError);
}

#[test]
fn uart_write_takes_what_fits() {
    let mut uart = UART::new(0x1000_0000, 3, vec![]);
    assert_eq!(uart.write(b""), Err(WriteError::DataIsZeroSized));
    assert_eq!(uart.write(b"ab"), Ok(2));
    assert_eq!(uart.write(b"cde"), Ok(1));
    assert_eq!(uart.write(b"f"), Err(WriteError::Full));
}

#[test]
fn uart_read_gives_what_was_received() {
    let mut uart = UART::new(0x1000_0000, 0, b"hello".to_vec());
    let mut empty = vec![];
    assert_eq!(uart.read(&mut empty), Err(ReadError::BufferIsZeroSized));
    let mut buf = vec![0u8; 3];
    assert_eq!(uart.read(&mut buf), Ok(3));
    assert_eq!(buf, b"hel");
    let mut buf = vec![9u8; 4];
    assert_eq!(uart.read(&mut buf), Ok(2));
    assert_eq!(buf, [b'l', b'o', 9, 9]);
    assert_eq!(uart.read(&mut buf), Err(ReadError::Empty));
}

#[test]
fn length_stays_within_capacity() {
    let mut v: KVec<u32> = KVec::new_in(4);
    let answers = [None, Some(4), None, Some(8), Some(16), None, None, Some(32)];
    for (i, &g) in answers.iter().enumerate() {
        let _ = v.try_push(i as u32, g);
        assert!(v.len() <= v.capacity());
        assert!(v.get(v.len()).is_none());
        if v.len() > 0 {
            assert!(v.get(v.len() - 1).is_some());
        }
    }
}
