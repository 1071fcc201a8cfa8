use kernel::arch::vms::RWX;
use kernel::elf::{parse, ParseError, Segment};

const BASE: usize = 0x8020_0000;

fn put16(v: &mut Vec<u8>, at: usize, x: u16) {
    v[at..at + 2].copy_from_slice(&x.to_le_bytes());
}

fn put32(v: &mut Vec<u8>, at: usize, x: u32) {
    v[at..at + 4].copy_from_slice(&x.to_le_bytes());
}

fn put64(v: &mut Vec<u8>, at: usize, x: u64) {
    v[at..at + 8].copy_from_slice(&x.to_le_bytes());
}

/// An executable with the given program headers (type, flags, offset, vaddr, memsz), placed
/// right after the file header, and `extra` bytes of padding after them.
fn elf(headers: &[(u32, u32, u64, u64, u64)], extra: usize) -> Vec<u8> {
    let mut v = vec![0u8; 64 + headers.len() * 56 + extra];
    v[0..4].copy_from_slice(&[0x7f, b'E', b'L', b'F']);
    v[4] = 2;
    v[5] = 1;
    v[6] = 1;
    put16(&mut v, 16, 2);
    put16(&mut v, 18, 0xf3);
    put64(&mut v, 24, 0x1_0000);
    put64(&mut v, 32, 64);
    put32(&mut v, 48, 0x5);
    put16(&mut v, 54, 56);
    put16(&mut v, 56, headers.len() as u16);
    for (i, &(typ, flags, offset, vaddr, memsz)) in headers.iter().enumerate() {
        let p = 64 + i * 56;
        put32(&mut v, p, typ);
        put32(&mut v, p + 4, flags);
        put64(&mut v, p + 8, offset);
        put64(&mut v, p + 16, vaddr);
        put64(&mut v, p + 40, memsz);
    }
    v
}

fn run(data: &[u8], slots: usize) -> (Result<(), ParseError>, Vec<Option<Segment>>, u64) {
    let mut segments: Vec<Option<Segment>> = (0..slots).map(|_| None).collect();
    let mut entry = 0xdead;
    let r = parse(data, BASE, &mut segments, &mut entry);
    (r, segments, entry)
}

fn err(data: &[u8]) -> ParseError {
    let (r, segments, entry) = run(data, 4);
    assert!(segments.iter().all(|s| s.is_none()));
    assert_eq!(entry, 0xdead);
    r.unwrap_err()
}

#[test]
fn parses_loadable_segments() {
    let data = elf(
        &[
            (1, 5, 0x0, 0x1_0000, 0x2000),
            (4, 4, 0x0, 0x0, 0x10),
            (1, 6, 0x1008, 0x2_1008, 0x10),
        ],
        0x2000,
    );
    let (r, segments, entry) = run(&data, 3);
    assert_eq!(r, Ok(()));
    assert_eq!(entry, 0x1_0000);
    let s0 = segments[0].as_ref().unwrap();
    assert_eq!(s0.address.as_ptr(), 0x1_0000);
    assert_eq!(s0.ppn.start(), (BASE / 4096) as u32);
    assert_eq!(s0.ppn.len(), 2);
    assert_eq!(s0.flags, RWX::RX);
    let s1 = segments[1].as_ref().unwrap();
    assert_eq!(s1.address.as_ptr(), 0x2_1000);
    assert_eq!(s1.ppn.start(), (BASE / 4096 + 1) as u32);
    // 0x10 bytes starting 8 bytes into a page take one page.
    assert_eq!(s1.ppn.len(), 1);
    assert_eq!(s1.flags, RWX::RW);
    assert!(segments[2].is_none());
}

#[test]
fn header_errors() {
    let good = elf(&[], 0);
    assert_eq!(err(&good[..8]), ParseError::TooShort);
    let mut d = good.clone();
    d[1] = b'X';
    assert_eq!(err(&d), ParseError::BadMagic);
    let mut d = good.clone();
    d[4] = 1;
    assert_eq!(err(&d), ParseError::UnsupportedClass);
    let mut d = good.clone();
    d[5] = 2;
    assert_eq!(err(&d), ParseError::UnsupportedEndianness);
    let mut d = good.clone();
    d[6] = 0;
    assert_eq!(err(&d), ParseError::UnsupportedVersion);
    assert_eq!(err(&good[..40]), ParseError::HeaderTooSmall);
    let mut d = good.clone();
    put16(&mut d, 16, 3);
    assert_eq!(err(&d), ParseError::UnsupportedType);
    let mut d = good.clone();
    put16(&mut d, 18, 0x3e);
    assert_eq!(err(&d), ParseError::UnsupportedMachine);
    let mut d = good.clone();
    put32(&mut d, 48, 0x8);
    assert_eq!(err(&d), ParseError::UnsupportedFlags);
    let mut d = good.clone();
    put16(&mut d, 54, 32);
    assert_eq!(err(&d), ParseError::BadProgramHeaderSize);
    let mut d = good.clone();
    put16(&mut d, 56, 1);
    assert_eq!(err(&d), ParseError::ProgramHeadersExceedFile);
}

#[test]
fn misaligned_data_is_refused() {
    let data = elf(&[], 0);
    let mut segments: Vec<Option<Segment>> = vec![None];
    let mut entry = 0;
    assert_eq!(parse(&data, BASE + 4, &mut segments, &mut entry), Err(ParseError::BadAlignment));
}

#[test]
fn segment_errors() {
    assert_eq!(err(&elf(&[(1, 3, 0, 0x1000, 1)], 0)), ParseError::WriteExecute);
    assert_eq!(err(&elf(&[(1, 2, 0, 0x1000, 1)], 0)), ParseError::WriteOnly);
    assert_eq!(err(&elf(&[(1, 0, 0, 0x1000, 1)], 0)), ParseError::Flagless);
    assert_eq!(err(&elf(&[(1, 4, 0x10, 0x1000, 1)], 0)), ParseError::OffsetNotAligned);
    assert_eq!(err(&elf(&[(1, 4, 0x10, 0x10, 1)], 0)), ParseError::AddressZero);
    assert_eq!(err(&elf(&[(1, 4, 0, 0x1000, u64::MAX)], 0)), ParseError::SegmentTooLarge);
    assert_eq!(err(&elf(&[(1, 4, 0x10_0000, 0x1000, 1)], 0)), ParseError::OffsetOutOfBounds);
}

#[test]
fn too_many_segments() {
    let data = elf(&[(1, 4, 0, 0x1000, 1), (1, 4, 0, 0x2000, 1)], 0);
    let (r, segments, entry) = run(&data, 1);
    assert_eq!(r, Err(ParseError::TooManySegments));
    assert!(segments[0].is_none());
    assert_eq!(entry, 0xdead);
}

#[test]
fn segment_beyond_page_numbers() {
    let data = elf(&[(1, 4, 0, 0x1000, 0xffff_f000u64 << 12)], 0);
    let mut segments: Vec<Option<Segment>> = vec![None];
    let mut entry = 0;
    assert_eq!(parse(&data, BASE, &mut segments, &mut entry), Err(ParseError::PpnTooLarge));
}

#[test]
fn full_slots_then_a_note_header() {
    // One slot, one loadable segment, then a PT_NOTE (4) header: the note needs no slot.
    let data = elf(&[(1, 4, 0, 0x1000, 1), (4, 4, 0, 0x2000, 1)], 0);
    let (r, segments, _) = run(&data, 1);
    assert_eq!(r, Ok(()));
    assert!(segments[0].is_some());
}
