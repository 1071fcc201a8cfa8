//! Parsing of ELF64 executables, as needed to start `/init`.
//!
//! Only little-endian ELF64 executables for this architecture are accepted. The loadable
//! segments are described by the pages of the file that hold them (the file stays where it is in
//! memory; its pages are mapped directly).

use crate::arch::page::Page;
use crate::arch::vms::RWX;
use crate::memory::ppn::PPNRange;
use crate::util::{le_u16, le_u32, le_u64, read_le_u16, read_le_u32, read_le_u64};
use vstd::prelude::*;

verus! {

/// The ELF object type of executables.
pub const TYPE_EXEC: u16 = 2;

/// The program header type of loadable segments.
pub const TYPE_LOAD: u32 = 1;

pub const FLAG_EXEC: u32 = 0x1;

pub const FLAG_WRITE: u32 = 0x2;

pub const FLAG_READ: u32 = 0x4;

/// The size of the ELF64 file header.
pub const FILE_HEADER_SIZE: usize = 64;

/// The size of an ELF64 program header entry.
pub const PROGRAM_HEADER_SIZE: usize = 56;

/// A loadable segment.
pub struct Segment {
    /// The address to map the segment to.
    pub address: Page,
    /// The PPNs of this segment.
    pub ppn: PPNRange,
    /// The RWX flags.
    pub flags: RWX,
}

/// The reasons an ELF file is refused.
#[derive(Clone, Copy, Debug, PartialEq, Eq)]
pub enum ParseError {
    /// Data too short to include the magic.
    TooShort,
    /// The magic is not `\x7fELF`.
    BadMagic,
    /// The data is not aligned to 8 bytes.
    BadAlignment,
    /// Not a 64-bit file.
    UnsupportedClass,
    /// Not little-endian.
    UnsupportedEndianness,
    /// Not ELF version 1.
    UnsupportedVersion,
    /// The file header does not fit in the data.
    HeaderTooSmall,
    /// Not an executable.
    UnsupportedType,
    /// Not for this architecture.
    UnsupportedMachine,
    /// Flags this architecture does not support.
    UnsupportedFlags,
    /// The program header entries do not have the ELF64 size.
    BadProgramHeaderSize,
    /// The program headers exceed the size of the file.
    ProgramHeadersExceedFile,
    /// More loadable segments than there are slots.
    TooManySegments,
    /// A writeable and executable segment.
    WriteExecute,
    /// A writeable segment that cannot be read.
    WriteOnly,
    /// A segment without any access.
    Flagless,
    /// The file offset and the address of a segment differ within a page.
    OffsetNotAligned,
    /// A segment at address zero.
    AddressZero,
    /// A segment of more than `u32::MAX` pages.
    SegmentTooLarge,
    /// A segment that starts beyond the end of the file.
    OffsetOutOfBounds,
    /// The pages of a segment are beyond the range of page numbers.
    PpnTooLarge,
}

/// The abstract value of a segment: (address, first PPN, number of pages, flags).
pub open spec fn segment_view(s: Segment) -> (u64, int, int, RWX) {
    (s.address@, s.ppn.start_spec() as int, s.ppn.count_spec() as int, s.flags)
}

/// The access of a loadable segment with the given flags.
pub open spec fn segment_rwx(flags: u32) -> Result<RWX, ParseError> {
    let f = flags & 7;
    if f == 7 {
        Ok(RWX::RWX)
    } else if f == 5 {
        Ok(RWX::RX)
    } else if f == 3 {
        Err(ParseError::WriteExecute)
    } else if f == 1 {
        Ok(RWX::X)
    } else if f == 6 {
        Ok(RWX::RW)
    } else if f == 2 {
        Err(ParseError::WriteOnly)
    } else if f == 4 {
        Ok(RWX::R)
    } else {
        Err(ParseError::Flagless)
    }
}

/// The segment described by the program header at `p` of the file `s` held at address `base`:
/// `None` if it is not loadable.
pub open spec fn segment_at(s: Seq<u8>, base: int, p: int) -> Result<Option<(u64, int, int, RWX)>, ParseError> {
    let typ = le_u32(s, p);
    let offset = le_u64(s, p + 8) as int;
    let vaddr = le_u64(s, p + 16) as int;
    let memsz = le_u64(s, p + 40) as int;
    let in_page = offset % 4096;
    let pages = (memsz + in_page + 4095) / 4096;
    let start = offset - in_page;
    if typ != TYPE_LOAD {
        Ok(None)
    } else if segment_rwx(le_u32(s, p + 4)) is Err {
        Err(segment_rwx(le_u32(s, p + 4))->Err_0)
    } else if in_page != vaddr % 4096 {
        Err(ParseError::OffsetNotAligned)
    } else if vaddr - vaddr % 4096 == 0 {
        Err(ParseError::AddressZero)
    } else if pages > u32::MAX {
        Err(ParseError::SegmentTooLarge)
    } else if start > s.len() {
        Err(ParseError::OffsetOutOfBounds)
    } else if (base + start) / 4096 + pages > u32::MAX {
        Err(ParseError::PpnTooLarge)
    } else {
        Ok(Some(((vaddr - vaddr % 4096) as u64, (base + start) / 4096, pages, segment_rwx(le_u32(s, p + 4))->Ok_0)))
    }
}

/// A loadable segment's pages hold every byte of it, and no page more: they start at the page of
/// its virtual address, the byte `b` of the segment (at `vaddr + b`, for every `b` below its
/// memory size) lies in one of them, and the last page holds a byte of the segment.
pub proof fn lemma_segment_covers(s: Seq<u8>, base: int, p: int)
    ensures
        segment_at(s, base, p) matches Ok(Some(v)) ==> {
            let vaddr = le_u64(s, p + 16) as int;
            let memsz = le_u64(s, p + 40) as int;
            let address = v.0 as int;
            let pages = v.2;
            &&& address % 4096 == 0
            &&& address <= vaddr < address + 4096
            &&& vaddr + memsz <= address + pages * 4096
            &&& pages == 0 || address + (pages - 1) * 4096 < vaddr + memsz
        },
{
    if segment_at(s, base, p) is Ok && segment_at(s, base, p)->Ok_0 is Some {
        let offset = le_u64(s, p + 8) as int;
        let vaddr = le_u64(s, p + 16) as int;
        let memsz = le_u64(s, p + 40) as int;
        let in_page = offset % 4096;
        let x = memsz + in_page;
        let pages = (x + 4095) / 4096;
        vstd::arithmetic::div_mod::lemma_fundamental_div_mod(vaddr, 4096);
        vstd::arithmetic::div_mod::lemma_fundamental_div_mod(x + 4095, 4096);
        vstd::arithmetic::div_mod::lemma_mod_multiples_basic(vaddr / 4096, 4096);
        vstd::arithmetic::mul::lemma_mul_is_commutative(vaddr / 4096, 4096);
        assert(pages * 4096 >= x && (pages == 0 || (pages - 1) * 4096 < x)) by (nonlinear_arith)
            requires
                x + 4095 == 4096 * pages + (x + 4095) % 4096,
                0 <= (x + 4095) % 4096 < 4096,
                x >= 0,
        ;
    }
}

/// The segments of the program headers `k..count` (at `phoff`), filling slots from `i` of `n`.
pub open spec fn segments_from(s: Seq<u8>, base: int, phoff: int, k: int, count: int, i: int, n: int) -> Result<Seq<(u64, int, int, RWX)>, ParseError>
    decreases count - k,
{
    if k >= count {
        Ok(Seq::empty())
    } else {
        match segment_at(s, base, phoff + k * 56) {
            Err(e) => Err(e),
            Ok(None) => segments_from(s, base, phoff, k + 1, count, i, n),
            Ok(Some(v)) => if i >= n {
                Err(ParseError::TooManySegments)
            } else {
                match segments_from(s, base, phoff, k + 1, count, i + 1, n) {
                    Ok(rest) => Ok(seq![v] + rest),
                    Err(e) => Err(e),
                }
            },
        }
    }
}

/// The first check of the file header that `s` (held at `base`) fails, if any.
pub open spec fn header_error(s: Seq<u8>, base: int) -> Option<ParseError> {
    if s.len() < 16 {
        Some(ParseError::TooShort)
    } else if !(s[0] == 0x7f && s[1] == 0x45 && s[2] == 0x4c && s[3] == 0x46) {
        Some(ParseError::BadMagic)
    } else if base % 8 != 0 {
        Some(ParseError::BadAlignment)
    } else if s[4] != 2 {
        Some(ParseError::UnsupportedClass)
    } else if s[5] != 1 {
        Some(ParseError::UnsupportedEndianness)
    } else if s[6] != 1 {
        Some(ParseError::UnsupportedVersion)
    } else if s.len() < 64 {
        Some(ParseError::HeaderTooSmall)
    } else if le_u16(s, 16) != TYPE_EXEC {
        Some(ParseError::UnsupportedType)
    } else if le_u16(s, 18) != crate::arch::ELF_MACHINE {
        Some(ParseError::UnsupportedMachine)
    } else if le_u32(s, 48) & !crate::arch::ELF_FLAGS != 0 {
        Some(ParseError::UnsupportedFlags)
    } else if le_u16(s, 54) != 56 {
        Some(ParseError::BadProgramHeaderSize)
    } else if s.len() < le_u16(s, 56) * 56 + le_u64(s, 32) {
        Some(ParseError::ProgramHeadersExceedFile)
    } else {
        None
    }
}

/// What parsing the file `s`, held at `base`, with `n` segment slots gives: the loadable
/// segments, or the first check that fails.
pub open spec fn parse_spec(s: Seq<u8>, base: int, n: int) -> Result<Seq<(u64, int, int, RWX)>, ParseError> {
    match header_error(s, base) {
        Some(e) => Err(e),
        None => segments_from(s, base, le_u64(s, 32) as int, 0, le_u16(s, 56) as int, 0, n),
    }
}

pub proof fn lemma_segments_fit(s: Seq<u8>, base: int, phoff: int, k: int, count: int, i: int, n: int)
    requires
        i <= n,
    ensures
        segments_from(s, base, phoff, k, count, i, n) matches Ok(rest) ==> i + rest.len() <= n,
    decreases count - k,
{
    if k < count {
        lemma_segments_fit(s, base, phoff, k + 1, count, i, n);
        if i < n {
            lemma_segments_fit(s, base, phoff, k + 1, count, i + 1, n);
        }
    }
}

pub open spec fn prepend(acc: Seq<(u64, int, int, RWX)>, r: Result<Seq<(u64, int, int, RWX)>, ParseError>) -> Result<Seq<(u64, int, int, RWX)>, ParseError> {
    match r {
        Ok(rest) => Ok(acc + rest),
        Err(e) => Err(e),
    }
}

/// The access of a loadable segment with the given flags.
fn rwx_of(flags: u32) -> (r: Result<RWX, ParseError>)
    ensures
        r == segment_rwx(flags),
{
    // Combinations of FLAG_READ (4), FLAG_WRITE (2) and FLAG_EXEC (1).
    let f = flags & 7;
    if f == 7 {
        Ok(RWX::RWX)
    } else if f == 5 {
        Ok(RWX::RX)
    } else if f == 3 {
        Err(ParseError::WriteExecute)
    } else if f == 1 {
        Ok(RWX::X)
    } else if f == 6 {
        Ok(RWX::RW)
    } else if f == 2 {
        Err(ParseError::WriteOnly)
    } else if f == 4 {
        Ok(RWX::R)
    } else {
        Err(ParseError::Flagless)
    }
}

/// The number of pages that `memsz` bytes starting `in_page` bytes into a page touch, if it
/// fits in 32 bits.
fn page_count(memsz: u64, in_page: u64) -> (r: Option<u32>)
    requires
        in_page < 4096,
    ensures
        (memsz + in_page + 4095) / 4096 > u32::MAX <==> r is None,
        r matches Some(c) ==> c == (memsz + in_page + 4095) / 4096,
{
    if memsz > 0xffff_ffff_0000_0000 {
        assert((memsz + in_page + 4095) / 4096 > u32::MAX) by (nonlinear_arith)
            requires memsz > 0xffff_ffff_0000_0000;
        return None;
    }
    let pages = (memsz + in_page + 4095) / 4096;
    if pages > u32::MAX as u64 {
        None
    } else {
        Some(pages as u32)
    }
}

/// The page-aligned part of `ptr`, as a page range of `pages` pages.
fn page_range(ptr: usize, pages: u32) -> (r: PPNRange)
    requires
        ptr / 4096 + pages <= u32::MAX,
    ensures
        r.start_spec() == ptr / 4096,
        r.count_spec() == pages,
{
    let aligned = ptr - ptr % 4096;
    proof {
        vstd::arithmetic::div_mod::lemma_fundamental_div_mod(ptr as int, 4096);
        assert(aligned == 4096 * (ptr as int / 4096));
        vstd::arithmetic::div_mod::lemma_div_multiples_vanish(ptr as int / 4096, 4096);
        vstd::arithmetic::div_mod::lemma_mod_multiples_basic(ptr as int / 4096, 4096);
        vstd::arithmetic::mul::lemma_mul_is_commutative(ptr as int / 4096, 4096);
    }
    PPNRange::from_ptr(aligned, pages)
}

/// The segment of the program header at `p`.
fn segment(data: &[u8], base: usize, p: usize) -> (r: Result<Option<Segment>, ParseError>)
    requires
        p + 56 <= data@.len(),
        base + data@.len() <= usize::MAX,
    ensures
        match segment_at(data@, base as int, p as int) {
            Err(e) => r == Err::<Option<Segment>, ParseError>(e),
            Ok(None) => r matches Ok(None),
            Ok(Some(v)) => r matches Ok(Some(sg)) && segment_view(sg) == v,
        },
        r matches Ok(Some(sg)) ==> sg.address@ <= le_u64(data@, p + 16) && le_u64(data@, p + 16) + le_u64(
            data@,
            p + 40,
        ) <= sg.address@ + sg.ppn.count_spec() * 4096,
{
    proof {
        lemma_segment_covers(data@, base as int, p as int);
    }
    let typ = read_le_u32(data, p);
    if typ != TYPE_LOAD {
        return Ok(None);
    }
    let flags = rwx_of(read_le_u32(data, p + 4))?;
    let offset = read_le_u64(data, p + 8);
    let vaddr = read_le_u64(data, p + 16);
    let memsz = read_le_u64(data, p + 40);
    let in_page = offset % 4096;
    if in_page != vaddr % 4096 {
        return Err(ParseError::OffsetNotAligned);
    }
    let aligned = vaddr - vaddr % 4096;
    if aligned == 0 {
        return Err(ParseError::AddressZero);
    }
    proof {
        vstd::arithmetic::div_mod::lemma_fundamental_div_mod(vaddr as int, 4096);
        vstd::arithmetic::div_mod::lemma_mod_multiples_basic(vaddr as int / 4096, 4096);
        vstd::arithmetic::mul::lemma_mul_is_commutative(vaddr as int / 4096, 4096);
    }
    let address = Page::new(aligned).unwrap();
    let pages = match page_count(memsz, in_page) {
        Some(c) => c,
        None => return Err(ParseError::SegmentTooLarge),
    };
    let start = offset - in_page;
    if start > data.len() as u64 {
        return Err(ParseError::OffsetOutOfBounds);
    }
    let ptr = base + start as usize;
    if ptr / 4096 > u32::MAX as usize || pages > u32::MAX - (ptr / 4096) as u32 {
        return Err(ParseError::PpnTooLarge);
    }
    let ppn = page_range(ptr, pages);
    Ok(Some(Segment { address, ppn, flags }))
}

/// Parse the ELF file `data`, held in memory at address `data_address`: fill the slots of
/// `segments` from the first one with the loadable segments, in the order of the program
/// headers, and set `entry` to the entry point. If the file is refused, neither is changed.
pub fn parse(data: &[u8], data_address: usize, segments: &mut Vec<Option<Segment>>, entry: &mut u64) -> (r: Result<(), ParseError>)
    requires
        data_address + data@.len() <= usize::MAX,
    ensures
        final(segments)@.len() == old(segments)@.len(),
        match parse_spec(data@, data_address as int, old(segments)@.len() as int) {
            Err(e) => r == Err::<(), ParseError>(e) && final(segments)@ == old(segments)@ && *final(entry) == *old(entry),
            Ok(list) => {
                &&& r is Ok
                &&& *final(entry) == le_u64(data@, 24)
                &&& forall|j: int| 0 <= j < list.len() ==> ((#[trigger] final(segments)@[j]) matches Some(sg) && segment_view(sg) == list[j])
                &&& forall|j: int| list.len() <= j < final(segments)@.len() ==> #[trigger] final(segments)@[j] == old(segments)@[j]
            },
        },
{
    let ghost s = data@;
    let ghost base = data_address as int;
    if data.len() < 16 {
        return Err(ParseError::TooShort);
    }
    if !(data[0] == 0x7f && data[1] == 0x45 && data[2] == 0x4c && data[3] == 0x46) {
        return Err(ParseError::BadMagic);
    }
    if data_address % 8 != 0 {
        return Err(ParseError::BadAlignment);
    }
    if data[4] != 2 {
        return Err(ParseError::UnsupportedClass);
    }
    if data[5] != 1 {
        return Err(ParseError::UnsupportedEndianness);
    }
    if data[6] != 1 {
        return Err(ParseError::UnsupportedVersion);
    }
    if data.len() < FILE_HEADER_SIZE {
        return Err(ParseError::HeaderTooSmall);
    }
    if read_le_u16(data, 16) != TYPE_EXEC {
        return Err(ParseError::UnsupportedType);
    }
    if read_le_u16(data, 18) != crate::arch::ELF_MACHINE {
        return Err(ParseError::UnsupportedMachine);
    }
    if read_le_u32(data, 48) & !crate::arch::ELF_FLAGS != 0 {
        return Err(ParseError::UnsupportedFlags);
    }
    let count = read_le_u16(data, 56) as usize;
    let size = read_le_u16(data, 54) as usize;
    if size != PROGRAM_HEADER_SIZE {
        return Err(ParseError::BadProgramHeaderSize);
    }
    let phoff = read_le_u64(data, 32);
    if (data.len() as u128) < (count as u128) * 56 + phoff as u128 {
        return Err(ParseError::ProgramHeadersExceedFile);
    }
    let phoff = phoff as usize;
    let ghost full = parse_spec(s, base, segments@.len() as int);
    assert(full == segments_from(s, base, phoff as int, 0, count as int, 0, segments@.len() as int));
    let n = segments.len();
    let mut found: Vec<Segment> = Vec::new();
    let mut k: usize = 0;
    while k < count
        invariant
            s == data@,
            base == data_address,
            base + s.len() <= usize::MAX,
            n == segments@.len(),
            segments@ == old(segments)@,
            *entry == *old(entry),
            k <= count,
            phoff + count * 56 <= s.len(),
            full == parse_spec(s, base, n as int),
            full == prepend(
                found@.map_values(|sg: Segment| segment_view(sg)),
                segments_from(s, base, phoff as int, k as int, count as int, found@.len() as int, n as int),
            ),
        decreases count - k,
    {
        let p = phoff + k * 56;
        let ghost acc = found@.map_values(|sg: Segment| segment_view(sg));
        match segment(data, data_address, p) {
            Err(e) => {
                return Err(e);
            },
            Ok(None) => {},
            Ok(Some(sg)) => {
                if found.len() >= n {
                    return Err(ParseError::TooManySegments);
                }
                let ghost v = segment_view(sg);
                found.push(sg);
                proof {
                    assert(found@.map_values(|sg: Segment| segment_view(sg)) =~= acc.push(v));
                    match segments_from(s, base, phoff as int, k + 1, count as int, found@.len() as int, n as int) {
                        Ok(rest) => {
                            assert(acc + (seq![v] + rest) =~= acc.push(v) + rest);
                        },
                        Err(e) => {},
                    }
                }
            },
        }
        k = k + 1;
    }
    let ghost list = found@.map_values(|sg: Segment| segment_view(sg));
    assert(full == Ok::<Seq<(u64, int, int, RWX)>, ParseError>(list)) by {
        assert(list + Seq::<(u64, int, int, RWX)>::empty() =~= list);
    }
    proof {
        lemma_segments_fit(s, base, phoff as int, 0, count as int, 0, n as int);
    }
    let ghost old_slots = segments@;
    let len = found.len();
    let mut rest = found;
    while rest.len() > 0
        invariant
            len == list.len(),
            len <= n,
            n == segments@.len(),
            rest@.len() <= len,
            forall|j: int| 0 <= j < rest@.len() ==> segment_view(#[trigger] rest@[j]) == list[len - rest@.len() + j],
            forall|j: int| 0 <= j < len - rest@.len() ==> ((#[trigger] segments@[j]) matches Some(sg) && segment_view(sg) == list[j]),
            forall|j: int| len - rest@.len() <= j < n ==> #[trigger] segments@[j] == old_slots[j],
        decreases rest@.len(),
    {
        let sg = rest.remove(0);
        let at = len - rest.len() - 1;
        segments.set(at, Some(sg));
    }
    *entry = read_le_u64(data, 24);
    Ok(())
}

} // verus!
