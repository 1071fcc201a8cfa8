//! Small helpers: big-endian integers, C strings and a write-once cell.

use vstd::prelude::*;

verus! {

/// The big-endian 32-bit number stored in `s` at byte offset `off`.
pub open spec fn be_u32(s: Seq<u8>, off: int) -> u32 {
    (s[off] * 0x100_0000 + s[off + 1] * 0x1_0000 + s[off + 2] * 0x100 + s[off + 3]) as u32
}

/// The big-endian 64-bit number stored in `s` at byte offset `off`.
pub open spec fn be_u64(s: Seq<u8>, off: int) -> u64 {
    (be_u32(s, off) * 0x1_0000_0000 + be_u32(s, off + 4)) as u64
}

/// The index of the first null byte at or after `start`, or `s.len()` if there is none.
pub open spec fn cstr_end(s: Seq<u8>, start: int) -> int
    decreases s.len() - start,
{
    if start < 0 || start >= s.len() || s[start] == 0 {
        if start < 0 { 0 } else if start > s.len() { s.len() as int } else { start }
    } else {
        cstr_end(s, start + 1)
    }
}

/// The bytes of the null-terminated string that starts at `start` (without the terminator).
pub open spec fn cstr_at(s: Seq<u8>, start: int) -> Seq<u8> {
    if 0 <= start <= s.len() {
        s.subrange(start, cstr_end(s, start))
    } else {
        Seq::empty()
    }
}

pub proof fn lemma_cstr_end_bounds(s: Seq<u8>, start: int)
    requires
        0 <= start <= s.len(),
    ensures
        start <= cstr_end(s, start) <= s.len(),
        cstr_end(s, start) < s.len() ==> s[cstr_end(s, start)] == 0,
        forall|j: int| start <= j < cstr_end(s, start) ==> s[j] != 0,
    decreases s.len() - start,
{
    if start < s.len() && s[start] != 0 {
        lemma_cstr_end_bounds(s, start + 1);
    }
}

/// Read the big-endian 32-bit number at `off`.
pub fn read_be_u32(s: &[u8], off: usize) -> (r: u32)
    requires
        off + 4 <= s@.len(),
    ensures
        r == be_u32(s@, off as int),
{
    let b0 = s[off] as u32;
    let b1 = s[off + 1] as u32;
    let b2 = s[off + 2] as u32;
    let b3 = s[off + 3] as u32;
    b0 * 0x100_0000 + b1 * 0x1_0000 + b2 * 0x100 + b3
}

/// Read the big-endian 64-bit number at `off`.
pub fn read_be_u64(s: &[u8], off: usize) -> (r: u64)
    requires
        off + 8 <= s@.len(),
    ensures
        r == be_u64(s@, off as int),
{
    let _n = s.len();
    let hi = read_be_u32(s, off) as u64;
    let lo = read_be_u32(s, off + 4) as u64;
    hi * 0x1_0000_0000 + lo
}

/// Return the end of the null-terminated string starting at `start`.
pub fn cstr_end_exec(s: &[u8], start: usize) -> (r: usize)
    requires
        start <= s@.len(),
    ensures
        r == cstr_end(s@, start as int),
{
    let mut i = start;
    while i < s.len() && s[i] != 0
        invariant
            start <= i <= s@.len(),
            cstr_end(s@, i as int) == cstr_end(s@, start as int),
        decreases s@.len() - i,
    {
        i = i + 1;
    }
    i
}

/// A 32-bit number stored in big-endian byte order.
/// The null-terminated string starting at `start` in `s`, without the terminator (up to the
/// end of `s` if there is none).
pub fn cstr_to_str<'a>(s: &'a [u8], start: usize) -> (r: &'a [u8])
    requires
        start <= s@.len(),
    ensures
        r@ == cstr_at(s@, start as int),
{
    let end = cstr_end_exec(s, start);
    proof {
        lemma_cstr_end_bounds(s@, start as int);
    }
    &s[start..end]
}

#[derive(Clone, Copy, Debug, PartialEq, Eq)]
pub struct BigEndianU32 {
    bytes: [u8; 4],
}

impl BigEndianU32 {
    /// The stored bytes, most significant first.
    pub closed spec fn view(self) -> Seq<u8> {
        self.bytes@
    }

    /// Wrap four bytes, most significant first.
    pub fn from_bytes(bytes: [u8; 4]) -> (r: Self)
        ensures
            r@ == bytes@,
    {
        BigEndianU32 { bytes }
    }

    /// Gets the stored value as a native-endian `u32`.
    pub fn get(self) -> (r: u32)
        ensures
            r == be_u32(self@, 0),
    {
        let b = self.bytes;
        (b[0] as u32) * 0x100_0000 + (b[1] as u32) * 0x1_0000 + (b[2] as u32) * 0x100 + (b[3] as u32)
    }
}

/// A 64-bit number stored in big-endian byte order.
#[derive(Clone, Copy, Debug, PartialEq, Eq)]
pub struct BigEndianU64 {
    bytes: [u8; 8],
}

impl BigEndianU64 {
    /// The stored bytes, most significant first.
    pub closed spec fn view(self) -> Seq<u8> {
        self.bytes@
    }

    /// Wrap eight bytes, most significant first.
    pub fn from_bytes(bytes: [u8; 8]) -> (r: Self)
        ensures
            r@ == bytes@,
    {
        BigEndianU64 { bytes }
    }

    /// Read eight bytes at `off` from `s`.
    pub fn read(s: &[u8], off: usize) -> (r: Self)
        requires
            off + 8 <= s@.len(),
        ensures
            r@ == s@.subrange(off as int, off + 8),
    {
        let r = BigEndianU64 {
            bytes: [s[off], s[off + 1], s[off + 2], s[off + 3], s[off + 4], s[off + 5], s[off + 6], s[off + 7]],
        };
        assert(r@ =~= s@.subrange(off as int, off + 8));
        r
    }

    /// Gets the stored value as a native-endian `u64`.
    pub fn get(self) -> (r: u64)
        ensures
            r == be_u64(self@, 0),
    {
        let b = self.bytes;
        let hi = (b[0] as u32) * 0x100_0000 + (b[1] as u32) * 0x1_0000 + (b[2] as u32) * 0x100 + (b[3] as u32);
        let lo = (b[4] as u32) * 0x100_0000 + (b[5] as u32) * 0x1_0000 + (b[6] as u32) * 0x100 + (b[7] as u32);
        (hi as u64) * 0x1_0000_0000 + (lo as u64)
    }
}

/// Error returned if there is not enough space in a buffer.
#[derive(Clone, Copy, Debug, PartialEq, Eq)]
pub struct BufferTooSmall;

/// A cell that is meant to be set only once.
pub struct OnceCell<T> {
    value: T,
}

impl<T> OnceCell<T> {
    /// The value held in the cell.
    pub closed spec fn view(&self) -> T {
        self.value
    }

    /// Create a new `OnceCell` with a default value.
    pub fn new(value: T) -> (r: Self)
        ensures
            r@ == value,
    {
        OnceCell { value }
    }

    /// Set the value in this cell.
    pub fn set(&mut self, value: T)
        ensures
            final(self)@ == value,
    {
        self.value = value;
    }

    /// A reference to the value in this cell.
    pub fn get(&self) -> (r: &T)
        ensures
            *r == self@,
    {
        &self.value
    }
}

} // verus!

verus! {

/// The little-endian 16-bit number stored in `s` at byte offset `off`.
pub open spec fn le_u16(s: Seq<u8>, off: int) -> u16 {
    (s[off] + s[off + 1] * 0x100) as u16
}

/// The little-endian 32-bit number stored in `s` at byte offset `off`.
pub open spec fn le_u32(s: Seq<u8>, off: int) -> u32 {
    (s[off] + s[off + 1] * 0x100 + s[off + 2] * 0x1_0000 + s[off + 3] * 0x100_0000) as u32
}

/// The little-endian 64-bit number stored in `s` at byte offset `off`.
pub open spec fn le_u64(s: Seq<u8>, off: int) -> u64 {
    (le_u32(s, off) + le_u32(s, off + 4) * 0x1_0000_0000) as u64
}

/// Read the little-endian 16-bit number at `off`.
pub fn read_le_u16(s: &[u8], off: usize) -> (r: u16)
    requires
        off + 2 <= s@.len(),
    ensures
        r == le_u16(s@, off as int),
{
    (s[off] as u16) + (s[off + 1] as u16) * 0x100
}

/// Read the little-endian 32-bit number at `off`.
pub fn read_le_u32(s: &[u8], off: usize) -> (r: u32)
    requires
        off + 4 <= s@.len(),
    ensures
        r == le_u32(s@, off as int),
{
    (s[off] as u32) + (s[off + 1] as u32) * 0x100 + (s[off + 2] as u32) * 0x1_0000 + (s[off + 3] as u32)
        * 0x100_0000
}

/// Read the little-endian 64-bit number at `off`.
pub fn read_le_u64(s: &[u8], off: usize) -> (r: u64)
    requires
        off + 8 <= s@.len(),
    ensures
        r == le_u64(s@, off as int),
{
    let _n = s.len();
    let lo = read_le_u32(s, off) as u64;
    let hi = read_le_u32(s, off + 4) as u64;
    lo + hi * 0x1_0000_0000
}


} // verus!
