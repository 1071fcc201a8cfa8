//! Task addresses: a task group ID and a group-local task ID packed in one word.

use vstd::prelude::*;

verus! {

/// A task ID, which is unique per task group.
#[derive(Clone, Copy, Debug, PartialEq, Eq)]
pub struct TaskID(pub u32);

/// A task group ID, which is unique per system (i.e. it is unique globally in the kernel).
#[derive(Clone, Copy, Debug, PartialEq, Eq)]
pub struct GroupID(pub u32);

/// An address, which is composed of a task group ID (upper half) and a group-local task ID
/// (lower half).
#[derive(Clone, Copy, Debug, PartialEq, Eq)]
pub struct Address(pub u64);

/// The address word of a task in a group.
pub open spec fn address_word(task: u32, group: u32) -> u64 {
    (task as u64 | ((group as u64) << 32u64)) as u64
}

impl Address {
    /// The address of `task` in `group`.
    pub fn new(task: TaskID, group: GroupID) -> (r: Self)
        ensures
            r.0 == address_word(task.0, group.0),
            r.0 == task.0 + group.0 * 0x1_0000_0000,
    {
        let t = task.0 as u64;
        let g = group.0 as u64;
        proof {
            assert(t < 0x1_0000_0000 && g < 0x1_0000_0000 ==> (t | (g << 32u64)) == t + g * 0x1_0000_0000)
                by (bit_vector);
        }
        Address(t | (g << 32u64))
    }

    /// The group-local task ID.
    pub fn task(&self) -> (r: TaskID)
        ensures
            r.0 == self.0 % 0x1_0000_0000,
    {
        let v = self.0;
        proof {
            assert(v & 0xffff_ffff == v % 0x1_0000_0000) by (bit_vector);
        }
        TaskID((v & 0xffff_ffff) as u32)
    }

    /// The task group ID.
    pub fn group(&self) -> (r: GroupID)
        ensures
            r.0 == self.0 / 0x1_0000_0000,
    {
        let v = self.0;
        proof {
            assert(v >> 32u64 == v / 0x1_0000_0000) by (bit_vector);
        }
        GroupID((v >> 32u64) as u32)
    }
}

/// The task and the group of an address are those it was made of.
pub proof fn lemma_address_roundtrip(task: u32, group: u32)
    ensures
        (task + group * 0x1_0000_0000) % 0x1_0000_0000 == task,
        (task + group * 0x1_0000_0000) / 0x1_0000_0000 == group,
{
    vstd::arithmetic::div_mod::lemma_fundamental_div_mod_converse(
        task + group * 0x1_0000_0000,
        0x1_0000_0000,
        group as int,
        task as int,
    );
}

impl TaskID {
    /// The ID as a word.
    pub fn as_usize(self) -> (r: usize)
        ensures
            r == self.0,
    {
        self.0 as usize
    }
}

impl GroupID {
    /// The ID as a word.
    pub fn as_usize(self) -> (r: usize)
        ensures
            r == self.0,
    {
        self.0 as usize
    }
}

} // verus!
