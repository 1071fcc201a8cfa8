//! Core logic of a small RISC-V kernel: physical memory management (buddy allocator, page
//! stacks, page numbers), Sv39 page tables, device tree and ELF parsing, task bookkeeping and IPC.
//!
//! Everything that touches real hardware (CSRs, MMIO, raw physical memory) is modelled with plain
//! values: page tables live in a table store indexed by page number, free lists are vectors of
//! page addresses, and so on.

pub mod allocator;
pub mod arch;
pub mod driver;
pub mod elf;
pub mod heap;
pub mod io;
pub mod memory;
pub mod slab;
pub mod syscall;
pub mod task;
pub mod util;
pub mod vfs;
