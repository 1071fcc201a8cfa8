//! Virtual-Memory Systems implementations (RISC-V privileged architecture, chapter 4.3-4.5).

pub mod sv39;

use crate::arch::vms::RWX;
use vstd::prelude::*;


verus! {

/// Whether the flags allow reading.
pub open spec fn allows_read(rwx: RWX) -> bool {
    rwx == RWX::R || rwx == RWX::RW || rwx == RWX::RX || rwx == RWX::RWX
}

/// Whether the flags allow writing.
pub open spec fn allows_write(rwx: RWX) -> bool {
    rwx == RWX::RW || rwx == RWX::RWX
}

/// Whether the flags allow executing.
pub open spec fn allows_execute(rwx: RWX) -> bool {
    rwx == RWX::X || rwx == RWX::RX || rwx == RWX::RWX
}

/// The encoding of RWX flags in a leaf entry (bits 1 to 3).
pub open spec fn rwx_bits(rwx: RWX) -> u32 {
    match rwx {
        RWX::R => 0b0010,
        RWX::RW => 0b0110,
        RWX::X => 0b1000,
        RWX::RX => 0b1010,
        RWX::RWX => 0b1110,
    }
}

/// The flags encoded by bits 1 to 3 of an entry, if they form a valid combination.
pub open spec fn decode_rwx(flags: u64) -> Option<RWX> {
    let f = flags & 0xe;
    if f == 0b0010 {
        Some(RWX::R)
    } else if f == 0b0110 {
        Some(RWX::RW)
    } else if f == 0b1000 {
        Some(RWX::X)
    } else if f == 0b1010 {
        Some(RWX::RX)
    } else if f == 0b1110 {
        Some(RWX::RWX)
    } else {
        None
    }
}

/// Convert RWX flags to a format suitable for Leaf entries
pub fn from_rwx(rwx: RWX) -> (r: u32)
    ensures
        r == rwx_bits(rwx),
        (r & 0b0010 != 0) == allows_read(rwx),
        (r & 0b0100 != 0) == allows_write(rwx),
        (r & 0b1000 != 0) == allows_execute(rwx),
        r & !0b1110u32 == 0,
{
    proof {
        lemma_rwx_bits_layout(rwx);
    }
    match rwx {
        RWX::R => 0b0010,
        RWX::RW => 0b0110,
        RWX::X => 0b1000,
        RWX::RX => 0b1010,
        RWX::RWX => 0b1110,
    }
}

/// Convert encoded flags to RWX
pub fn to_rwx(flags: u64) -> (r: Option<RWX>)
    ensures
        r == decode_rwx(flags),
        r matches Some(rwx) ==> allows_read(rwx) == (flags & 0b0010 != 0) && allows_write(rwx) == (flags
            & 0b0100 != 0) && allows_execute(rwx) == (flags & 0b1000 != 0),
        r is None <==> (flags & 0b1110 == 0 || (flags & 0b0100 != 0 && flags & 0b0010 == 0)),
{
    proof {
        lemma_decode_rwx_layout(flags);
    }
    let f = flags & 0xe;
    if f == 0b0010 {
        Some(RWX::R)
    } else if f == 0b0110 {
        Some(RWX::RW)
    } else if f == 0b1000 {
        Some(RWX::X)
    } else if f == 0b1010 {
        Some(RWX::RX)
    } else if f == 0b1110 {
        Some(RWX::RWX)
    } else {
        None
    }
}

/// Decoding the encoding of some flags gives the flags back.
pub proof fn lemma_rwx_roundtrip(rwx: RWX)
    ensures
        decode_rwx(rwx_bits(rwx) as u64) == Some(rwx),
{
    let b = rwx_bits(rwx) as u64;
    assert(0b0010u64 & 0xe == 0b0010 && 0b0110u64 & 0xe == 0b0110 && 0b1000u64 & 0xe == 0b1000
        && 0b1010u64 & 0xe == 0b1010 && 0b1110u64 & 0xe == 0b1110) by (bit_vector);
}

/// The encoding follows the Sv39 entry layout: bit 1 is set exactly when the flags allow
/// reading, bit 2 when they allow writing, bit 3 when they allow executing, and no other bit
/// is set.
pub proof fn lemma_rwx_bits_layout(rwx: RWX)
    ensures
        (rwx_bits(rwx) & 0b0010 != 0) == allows_read(rwx),
        (rwx_bits(rwx) & 0b0100 != 0) == allows_write(rwx),
        (rwx_bits(rwx) & 0b1000 != 0) == allows_execute(rwx),
        rwx_bits(rwx) & !0b1110u32 == 0,
{
    let b = rwx_bits(rwx);
    assert({
        &&& b == 0b0010 ==> (b & 0b0010 != 0 && b & 0b0100 == 0 && b & 0b1000 == 0 && b & !0b1110u32 == 0)
        &&& b == 0b0110 ==> (b & 0b0010 != 0 && b & 0b0100 != 0 && b & 0b1000 == 0 && b & !0b1110u32 == 0)
        &&& b == 0b1000 ==> (b & 0b0010 == 0 && b & 0b0100 == 0 && b & 0b1000 != 0 && b & !0b1110u32 == 0)
        &&& b == 0b1010 ==> (b & 0b0010 != 0 && b & 0b0100 == 0 && b & 0b1000 != 0 && b & !0b1110u32 == 0)
        &&& b == 0b1110 ==> (b & 0b0010 != 0 && b & 0b0100 != 0 && b & 0b1000 != 0 && b & !0b1110u32 == 0)
    }) by (bit_vector);
}

/// Decoding reads the same layout: bits 1, 2 and 3 of an entry give the read, write and
/// execute permissions; only the combinations without any permission, or with writing but not
/// reading, are invalid.
pub proof fn lemma_decode_rwx_layout(flags: u64)
    ensures
        decode_rwx(flags) matches Some(rwx) ==> allows_read(rwx) == (flags & 0b0010 != 0) && allows_write(rwx)
            == (flags & 0b0100 != 0) && allows_execute(rwx) == (flags & 0b1000 != 0),
        decode_rwx(flags) is None <==> (flags & 0b1110 == 0 || (flags & 0b0100 != 0 && flags & 0b0010 == 0)),
{
    assert({
        let f = flags & 0xe;
        &&& f == 0b0010 ==> (flags & 0b0010 != 0 && flags & 0b0100 == 0 && flags & 0b1000 == 0)
        &&& f == 0b0110 ==> (flags & 0b0010 != 0 && flags & 0b0100 != 0 && flags & 0b1000 == 0)
        &&& f == 0b1000 ==> (flags & 0b0010 == 0 && flags & 0b0100 == 0 && flags & 0b1000 != 0)
        &&& f == 0b1010 ==> (flags & 0b0010 != 0 && flags & 0b0100 == 0 && flags & 0b1000 != 0)
        &&& f == 0b1110 ==> (flags & 0b0010 != 0 && flags & 0b0100 != 0 && flags & 0b1000 != 0)
        &&& (f != 0b0010 && f != 0b0110 && f != 0b1000 && f != 0b1010 && f != 0b1110) <==> (flags & 0b1110 == 0
            || (flags & 0b0100 != 0 && flags & 0b0010 == 0))
    }) by (bit_vector);
}

} // verus!
