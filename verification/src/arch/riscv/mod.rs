//! Helper methods and structures for RISC-V specific information and control.

pub mod plic;
pub mod vms;

use vstd::prelude::*;

verus! {

/// Structure used to save register state
pub struct RegisterState {
    /// The program counter state.
    pub pc: usize,
    /// All integer registers except `x0`
    pub x: [usize; 31],
}

impl Default for RegisterState {
    /// A register state with every register and the program counter set to zero.
    fn default() -> (r: Self)
        ensures
            r.pc == 0,
            forall|i: int| 0 <= i < 31 ==> r.x[i] == 0,
    {
        RegisterState { pc: 0, x: [0; 31] }
    }
}

impl RegisterState {
    /// Sets the program counter to the given address.
    pub fn set_pc(&mut self, address: usize)
        ensures
            final(self).pc == address,
            final(self).x == old(self).x,
    {
        self.pc = address;
    }

    /// Sets the stack pointer (`x2`) to the given address.
    pub fn set_stack_pointer(&mut self, address: usize)
        ensures
            final(self).pc == old(self).pc,
            final(self).x@ == old(self).x@.update(1, address),
    {
        self.x[1] = address;
    }
}

} // verus!

/// Flags pertaining to ELF files (RISC-V ELF psABI).
pub mod elf;
