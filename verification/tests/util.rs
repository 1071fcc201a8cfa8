use kernel::util::{
    cstr_end_exec, cstr_to_str, read_be_u32, read_be_u64, read_le_u16, read_le_u32, read_le_u64, BigEndianU32,
    BigEndianU64, OnceCell,
};

#[test]
fn big_endian_reads() {
    let bytes = [0xd0, 0x0d, 0xfe, 0xed, 0x00, 0x00, 0x01, 0x02, 0x03];
    assert_eq!(read_be_u32(&bytes, 0), 0xd00d_feed);
    assert_eq!(read_be_u32(&bytes, 4), 0x0000_0102);
    assert_eq!(read_be_u64(&bytes, 0), 0xd00d_feed_0000_0102);
    assert_eq!(read_be_u64(&bytes, 1), 0x0dfe_ed00_0001_0203);
}

#[test]
fn little_endian_reads() {
    let bytes = [0x01, 0x02, 0x03, 0x04, 0x05, 0x06, 0x07, 0x08];
    assert_eq!(read_le_u16(&bytes, 0), 0x0201);
    assert_eq!(read_le_u16(&bytes, 6), 0x0807);
    assert_eq!(read_le_u32(&bytes, 0), 0x0403_0201);
    assert_eq!(read_le_u32(&bytes, 4), 0x0807_0605);
    assert_eq!(read_le_u64(&bytes, 0), 0x0807_0605_0403_0201);
}

#[test]
fn big_endian_wrappers() {
    assert_eq!(BigEndianU32::from_bytes([0, 0, 0x12, 0x34]).get(), 0x1234);
    assert_eq!(BigEndianU64::from_bytes([1, 0, 0, 0, 0, 0, 0, 2]).get(), 0x0100_0000_0000_0002);
    let bytes = [9, 0, 0, 0, 0, 0, 0, 0, 0x2a, 7];
    assert_eq!(BigEndianU64::read(&bytes, 1).get(), 0x2a);
    assert_eq!(BigEndianU64::read(&bytes, 2).get(), 0x2a07);
}

#[test]
fn string_ends() {
    let bytes = b"abc\0de\0\0f";
    assert_eq!(cstr_end_exec(bytes, 0), 3);
    assert_eq!(cstr_end_exec(bytes, 3), 3);
    assert_eq!(cstr_end_exec(bytes, 4), 6);
    assert_eq!(cstr_end_exec(bytes, 7), 7);
    // A string that runs to the end of the data ends there.
    assert_eq!(cstr_end_exec(bytes, 8), 9);
    assert_eq!(cstr_end_exec(bytes, 9), 9);
}

#[test]
fn once_cell_keeps_the_last_value() {
    let mut cell = OnceCell::new(5u32);
    assert_eq!(*cell.get(), 5);
    cell.set(7);
    assert_eq!(*cell.get(), 7);
}

#[test]
fn strings_up_to_the_terminator() {
    let bytes = b"model\0compatible\0tail";
    assert_eq!(cstr_to_str(bytes, 0), b"model");
    assert_eq!(cstr_to_str(bytes, 6), b"compatible");
    assert_eq!(cstr_to_str(bytes, 8), b"mpatible");
    assert_eq!(cstr_to_str(bytes, 5), b"");
    assert_eq!(cstr_to_str(bytes, 17), b"tail");
    assert_eq!(cstr_to_str(bytes, 21), b"");
}
