//! Flags pertaining to ELF files.

use vstd::prelude::*;

verus! {

/// The value of the machine byte for this architecture.
pub const MACHINE: u16 = 0xf3;

/// Flag indicating whether ELF binaries target the C ABI (i.e. support C extension).
pub const RVC: u32 = 0x0001;

/// Flag indicating no support for the floating point ABI.
pub const FLOAT_ABI_SOFT: u32 = 0x0000;

/// Flag indicating support for the single precision floating point ABI.
pub const FLOAT_ABI_SINGLE: u32 = 0x0002;

/// Flag indicating support for the double precision floating point ABI.
pub const FLOAT_ABI_DOUBLE: u32 = 0x0004;

/// Flag indicating support for the quad precision floating point ABI.
pub const FLOAT_ABI_QUAD: u32 = 0x0006;

/// Flag indicating whether the E ABI is targeted (i.e. RV32E ISA).
pub const RVE: u32 = 0x0008;

/// Flag indicating whether the binary requires RVTSO.
pub const TSO: u32 = 0x0008;

} // verus!
