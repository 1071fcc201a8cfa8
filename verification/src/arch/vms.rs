//! # Virtual Memory System
//!
//! Types shared by every virtual memory system.

use crate::memory::{AllocateError, SharedPPN, PPN};
use vstd::prelude::*;

verus! {

/// The accessibility of the mapping to be added.
#[derive(Clone, Copy, Debug, PartialEq, Eq)]
pub enum Accessibility {
    /// The mapping is accessible by userland.
    UserLocal,
    /// The mapping is kernel-only and VMS-local.
    KernelLocal,
    /// The mapping is kernel-only and global.
    KernelGlobal,
}

/// Valid RWX flag combinations
#[derive(Clone, Copy, Debug, PartialEq, Eq)]
pub enum RWX {
    R,
    RW,
    X,
    RX,
    RWX,
}

/// A page that is either private or shared.
#[derive(Debug, PartialEq, Eq)]
pub enum PrivateOrShared {
    Private(PPN),
    Shared(SharedPPN),
}

/// Possible errors when adding a mapping
#[derive(Debug, PartialEq, Eq)]
pub enum AddError {
    /// The mapping overlaps with an existing mapping
    Overlaps,
    OutOfRange,
    AllocateError(AllocateError),
}

/// Possible errors when sharing a mapping
#[derive(Debug, PartialEq, Eq)]
pub enum ShareError {
    /// The mapping overlaps with an existing mapping
    Overlaps,
    OutOfRange,
    AllocateError(AllocateError),
    NoEntry,
}

impl RWX {
    /// The R, W and X bits of these flags (bit 0 is R, bit 1 is W, bit 2 is X).
    pub open spec fn bits(self) -> u8 {
        match self {
            RWX::R => 0b001,
            RWX::RW => 0b011,
            RWX::X => 0b100,
            RWX::RX => 0b101,
            RWX::RWX => 0b111,
        }
    }

    /// Whether the pages may be read.
    pub fn r(&self) -> (r: bool)
        ensures
            r <==> *self != RWX::X,
    {
        match self {
            RWX::R | RWX::RW | RWX::RX | RWX::RWX => true,
            RWX::X => false,
        }
    }
}

impl From<AddError> for ShareError {
    /// The sharing error corresponding to an error from adding a mapping.
    fn from(error: AddError) -> (r: Self) {
        match error {
            AddError::Overlaps => ShareError::Overlaps,
            AddError::OutOfRange => ShareError::OutOfRange,
            AddError::AllocateError(e) => ShareError::AllocateError(e),
        }
    }
}

impl vstd::std_specs::convert::FromSpecImpl<AddError> for ShareError {
    open spec fn obeys_from_spec() -> bool {
        true
    }

    open spec fn from_spec(error: AddError) -> ShareError {
        match error {
            AddError::Overlaps => ShareError::Overlaps,
            AddError::OutOfRange => ShareError::OutOfRange,
            AddError::AllocateError(e) => ShareError::AllocateError(e),
        }
    }
}

} // verus!
