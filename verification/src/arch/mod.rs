//! Architecture-specific definitions (RISC-V, Sv39).

pub mod map;
pub mod page;
pub mod riscv;
pub mod vms;

pub use map::{MappedPage, MapRange};
pub use page::{BadAlignment, FromPointerError, Page, PageData};

use vstd::prelude::*;

verus! {

/// The size of a single page in bytes.
pub const PAGE_SIZE: usize = 4096;

/// A bitmask that covers the lower zeroed bits of an aligned page.
pub const PAGE_MASK: usize = 4095;

/// The amount of bits that are zero due to page alignment.
pub const PAGE_BITS: usize = 12;

/// The ELF machine type of this architecture.
pub const ELF_MACHINE: u16 = riscv::elf::MACHINE;

/// All supported ELF flags.
pub const ELF_FLAGS: u32 = riscv::elf::RVC | riscv::elf::FLOAT_ABI_DOUBLE;

/// The timer deadline that makes the timer fire `delta` ticks after the time `now` (which the
/// caller reads from the `time` CSR).
pub fn schedule_timer(now: u64, delta: u64) -> (r: u64)
    requires
        now + delta <= u64::MAX,
    ensures
        r == now + delta,
{
    now + delta
}

/// The timer deadline that disables the timer: the largest time, which is never reached.
pub fn disable_timer() -> (r: u64)
    ensures
        r == u64::MAX,
{
    u64::MAX
}

/// Returns `true` if an accurate backtrace can be returned, otherwise `false`.
pub fn is_backtrace_accurate() -> (r: bool)
    ensures
        !r,
{
    false
}

} // verus!
