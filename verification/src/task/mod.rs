//! Task bookkeeping: task IDs, addresses, groups, the registry and per-task state.

pub mod address;
pub mod executor;
pub mod group;
pub mod ipc;
pub mod notification;
pub mod registry;

pub use address::{Address, GroupID};
pub use executor::Executor;

use vstd::prelude::*;

verus! {

/// A task ID, which is unique per task.
#[derive(Clone, Copy, Debug, PartialEq, Eq)]
pub struct TaskID(pub u32);

impl From<TaskID> for u32 {
    fn from(id: TaskID) -> (r: u32) {
        id.0
    }
}

impl vstd::std_specs::convert::FromSpecImpl<TaskID> for u32 {
    open spec fn obeys_from_spec() -> bool {
        true
    }

    open spec fn from_spec(id: TaskID) -> u32 {
        id.0
    }
}

impl From<u32> for TaskID {
    fn from(n: u32) -> (r: TaskID) {
        TaskID(n)
    }
}

impl vstd::std_specs::convert::FromSpecImpl<u32> for TaskID {
    open spec fn obeys_from_spec() -> bool {
        true
    }

    open spec fn from_spec(n: u32) -> TaskID {
        TaskID(n)
    }
}

impl TaskID {
    /// The ID as a word.
    pub fn as_usize(self) -> (r: usize)
        ensures
            r == self.0,
    {
        self.0 as usize
    }

    /// The ID of a word, if it fits in 32 bits.
    pub fn try_from_usize(n: usize) -> (r: Option<TaskID>)
        ensures
            r is Some <==> n <= u32::MAX,
            r matches Some(id) ==> id.0 == n,
    {
        if n <= u32::MAX as usize {
            Some(TaskID(n as u32))
        } else {
            None
        }
    }
}

} // verus!

use crate::allocator::arena::{Arena, InsertError};
use crate::arch::page::Page;
use crate::arch::riscv::vms::sv39::{leaf_entry, page_at, same_page, translation, Sv39};
use crate::arch::riscv::RegisterState;
use crate::arch::vms::{AddError, RWX};
use crate::memory::ppn::PPN;
use crate::memory::{AllocateError, Allocator};
use ipc::{SetQueuesError, IPC, IpcQueues};
use notification::{Handler, SendError};

verus! {

/// Flags describing a task's state.
#[derive(Clone, Copy, Debug, PartialEq, Eq)]
pub struct StateFlags(pub u32);

impl StateFlags {
    pub const NOTIFYING: u32 = 0x1;

    pub const NOTIFIED: u32 = 0x2;

    pub const IPC_LOCK_TRANSMIT: u32 = 0x10;

    pub const IPC_LOCK_RECEIVED: u32 = 0x20;

    pub const DEAD: u32 = 0x8000;

    /// Whether any of the given bits is set.
    pub fn is_set(&self, bits: u32) -> (r: bool)
        ensures
            r == (self.0 & bits != 0),
    {
        self.0 & bits != 0
    }

    /// Set the given bits.
    pub fn set(&mut self, bits: u32)
        ensures
            final(self).0 == old(self).0 | bits,
    {
        self.0 = self.0 | bits;
    }

    /// Clear the given bits.
    pub fn clear(&mut self, bits: u32)
        ensures
            final(self).0 == old(self).0 & !bits,
    {
        self.0 = self.0 & !bits;
    }

    /// Take the lock formed by the given bits: none of them may be held.
    pub fn lock(&mut self, bits: u32)
        requires
            old(self).0 & bits == 0,
        ensures
            final(self).0 == old(self).0 | bits,
    {
        self.set(bits);
    }

    /// Release the lock formed by the given bits.
    pub fn unlock(&mut self, bits: u32)
        ensures
            final(self).0 == old(self).0 & !bits,
    {
        self.clear(bits);
    }
}

/// An index and mask in a ring buffer.
#[derive(Clone, Copy, Debug, PartialEq, Eq)]
pub struct RingIndex {
    pub mask: u16,
    pub index: u16,
}

impl Default for RingIndex {
    /// An index of zero in a buffer of one entry.
    fn default() -> (r: Self)
        ensures
            r.mask == 0,
            r.index == 0,
    {
        RingIndex { mask: 0, index: 0 }
    }
}

impl RingIndex {
    /// Set the size of the buffer to `1 << bits` entries, keeping the index within it.
    pub fn set_mask(&mut self, bits: u8)
        requires
            bits < 16,
        ensures
            final(self).mask == vstd::arithmetic::power2::pow2(bits as nat) - 1,
            final(self).index == old(self).index & final(self).mask,
            final(self).index <= final(self).mask,
    {
        proof {
            vstd::bits::lemma_u16_pow2_no_overflow(bits as nat);
            vstd::bits::lemma_u16_shl_is_mul(1, bits as u16);
        }
        let mask: u16 = (1u16 << bits as u16) - 1;
        proof {
            let x = self.index;
            assert(x & mask <= mask) by (bit_vector);
        }
        self.index = self.index & mask;
        self.mask = mask;
    }

    /// Move to the next entry, wrapping around at the end of the buffer.
    pub fn increment(&mut self)
        requires
            old(self).index < u16::MAX,
        ensures
            final(self).mask == old(self).mask,
            final(self).index == (old(self).index + 1) as u16 & old(self).mask,
    {
        self.index = self.index + 1;
        self.index = self.index & self.mask;
    }

    /// The current entry.
    pub fn get(&self) -> (r: usize)
        ensures
            r == self.index,
    {
        self.index as usize
    }
}

/// The client and server I/O buffers of a task: where they are and which entry is next.
pub struct TaskData {
    /// The virtual address of the client request buffer.
    pub client_request_queue: Option<Page>,
    /// The virtual address of the client completion buffer.
    pub client_completion_queue: Option<Page>,
    /// The virtual address of the server request buffer.
    pub server_request_queue: Option<Page>,
    /// The virtual address of the server completion buffer.
    pub server_completion_queue: Option<Page>,
    pub client_request_index: RingIndex,
    pub client_completion_index: RingIndex,
    pub server_request_index: RingIndex,
    pub server_completion_index: RingIndex,
}

/// A single task.
pub struct Task {
    /// The register state of the task. Needed for context switches.
    pub register_state: RegisterState,
    /// A page of stack space for use with syscalls.
    pub stack: Page,
    /// Mapping of virtual memory.
    pub virtual_memory: Sv39,
    /// The notification handler, if any.
    pub notification_handler: Option<Handler>,
    /// The IRQ the task is currently handling, if any. Only relevant for drivers.
    pub current_irq: u32,
    /// Flags pertaining to the task.
    pub flags: StateFlags,
    /// The executor (hart) that is executing the task; `u16::MAX` if none claimed it.
    pub executor_id: u16,
    /// The time until which the task waits for an event before it is rescheduled.
    pub wait_time: u64,
    /// IPC state to communicate with other tasks.
    pub ipc: IPC,
    /// The I/O buffers.
    pub data: TaskData,
    /// The ID of the task.
    pub id: u32,
}

/// Error returned if a task could not be created.
pub type NewTaskError = InsertError;

/// Error returned if a task is claimed by another executor, whose ID it holds.
#[derive(Clone, Copy, Debug, PartialEq, Eq)]
pub struct Claimed(pub u16);

/// Every task in the table has a well-formed address space and its slot as its ID.
pub open spec fn tasks_wf(tasks: Seq<Option<Task>>) -> bool {
    forall|i: int|
        0 <= i < tasks.len() && #[trigger] tasks[i] is Some ==> tasks[i]->0.virtual_memory.wf() && tasks[i]->0.id
            == i
}

/// A task as [`Task::new`] makes it: with the given address space, program counter, stack
/// pointer, stack and ID, not claimed by any executor, not waiting, without flags, notification
/// handler, IPC area or I/O buffers.
pub open spec fn is_new_task(
    t: Task,
    vms: Sv39,
    program_counter: usize,
    stack_pointer: usize,
    stack: Page,
    id: int,
) -> bool {
    &&& t.register_state.pc == program_counter
    &&& t.register_state.x[1] == stack_pointer
    &&& t.stack == stack
    &&& t.executor_id == u16::MAX
    &&& t.flags.0 == 0
    &&& t.wait_time == 0
    &&& t.notification_handler is None
    &&& t.id == id
    &&& t.virtual_memory == vms
    &&& t.current_irq == 0
    &&& t.ipc.base is None
    &&& t.ipc.ring_mask == 0
    &&& t.ipc.last_transmit_index == 0
    &&& t.ipc.last_free_index == 0
    &&& t.data.client_request_queue is None
    &&& t.data.client_completion_queue is None
    &&& t.data.server_request_queue is None
    &&& t.data.server_completion_queue is None
}

/// Every task's ID is its slot in the table, so no two tasks share an ID; in particular two
/// tasks made one after the other by [`Task::new`] get different IDs.
pub proof fn lemma_task_ids_unique(tasks: Seq<Option<Task>>, i: int, j: int)
    requires
        tasks_wf(tasks),
        0 <= i < tasks.len(),
        0 <= j < tasks.len(),
        tasks[i] is Some,
        tasks[j] is Some,
        i != j,
    ensures
        tasks[i]->0.id != tasks[j]->0.id,
{
}

impl Task {
    /// Create a new task with the given address space, program counter and stack pointer, and
    /// store it in the next slot of `tasks`. Its ID is the slot.
    pub fn new(
        tasks: &mut Arena<Task>,
        vms: Sv39,
        program_counter: usize,
        stack_pointer: usize,
        stack: Page,
    ) -> (r: Result<TaskID, NewTaskError>)
        requires
            old(tasks).max() <= u32::MAX,
            vms.wf(),
            tasks_wf(old(tasks)@),
        ensures
            tasks_wf(final(tasks)@),
            final(tasks).max() == old(tasks).max(),
            old(tasks)@.len() >= old(tasks).max() ==> r == Err::<TaskID, NewTaskError>(InsertError::NoFreeSlots)
                && final(tasks)@ == old(tasks)@,
            old(tasks)@.len() < old(tasks).max() ==> {
                &&& r == Ok::<TaskID, NewTaskError>(TaskID(old(tasks)@.len() as u32))
                &&& final(tasks)@.len() == old(tasks)@.len() + 1
                &&& final(tasks)@.take(old(tasks)@.len() as int) == old(tasks)@
                &&& (final(tasks)@.last() matches Some(t) && is_new_task(
                    t,
                    vms,
                    program_counter,
                    stack_pointer,
                    stack,
                    old(tasks)@.len() as int,
                ))
            },
    {
        let ghost before = tasks@;
        let make = move |index: usize| -> (t: Task)
            requires
                index <= u32::MAX,
            ensures
                t.register_state.pc == program_counter,
                t.register_state.x[1] == stack_pointer,
                t.stack == stack,
                t.executor_id == u16::MAX,
                t.flags.0 == 0,
                t.wait_time == 0,
                t.notification_handler is None,
                t.id == index,
                t.virtual_memory == vms,
                t.current_irq == 0,
                t.ipc.base is None,
                t.ipc.ring_mask == 0,
                t.ipc.last_transmit_index == 0,
                t.ipc.last_free_index == 0,
                t.data.client_request_queue is None,
                t.data.client_completion_queue is None,
                t.data.server_request_queue is None,
                t.data.server_completion_queue is None,
            {
                let mut register_state = RegisterState::default();
                register_state.set_pc(program_counter);
                register_state.set_stack_pointer(stack_pointer);
                Task {
                    register_state,
                    stack,
                    virtual_memory: vms,
                    notification_handler: None,
                    current_irq: 0,
                    flags: StateFlags(0),
                    executor_id: u16::MAX,
                    wait_time: 0,
                    ipc: IPC::default(),
                    data: TaskData {
                        client_request_queue: None,
                        client_completion_queue: None,
                        server_request_queue: None,
                        server_completion_queue: None,
                        client_request_index: RingIndex::default(),
                        client_completion_index: RingIndex::default(),
                        server_request_index: RingIndex::default(),
                        server_completion_index: RingIndex::default(),
                    },
                    id: index as u32,
                }
            };
        let index = tasks.insert_with(make)?;
        proof {
            assert(tasks@.take(before.len() as int) =~= before);
            assert forall|i: int| 0 <= i < tasks@.len() && #[trigger] tasks@[i] is Some implies tasks@[i]->0.virtual_memory.wf()
                && tasks@[i]->0.id == i by {
                if i < before.len() {
                    assert(tasks@[i] == before[i]);
                }
            }
        }
        Ok(TaskID(index as u32))
    }

    /// Add a user mapping of a page to the task.
    pub fn add_mapping(&mut self, address: Page, page: PPN, rwx: RWX) -> (r: Result<(), AddError>)
        requires
            old(self).virtual_memory.wf(),
        ensures
            final(self).virtual_memory.wf(),
            !old(self).virtual_memory.blocked(address@) && old(self).virtual_memory.mapping(address@) is None
                && old(self).virtual_memory.has_room(address@) <==> r is Ok,
            old(self).virtual_memory.occupied(address@) ==> r == Err::<(), AddError>(AddError::Overlaps),
            !old(self).virtual_memory.occupied(address@) && !old(self).virtual_memory.has_room(address@) ==> r
                == Err::<(), AddError>(AddError::AllocateError(AllocateError)),
            r is Ok ==> final(self).virtual_memory.mapping(address@) == Some(leaf_entry(page@, rwx, true, false, false)),
            forall|a: u64| !same_page(a, address@) ==> #[trigger] final(self).virtual_memory.mapping(a)
                == old(self).virtual_memory.mapping(a),
            r is Err ==> final(self).virtual_memory.mapping(address@) == old(self).virtual_memory.mapping(address@),
    {
        self.virtual_memory.add(address, page, rwx, true, false)
    }

    /// Set the program counter of the task to the given address.
    pub fn set_pc(&mut self, address: usize)
        ensures
            final(self).register_state.pc == address,
            final(self).register_state.x == old(self).register_state.x,
    {
        self.register_state.set_pc(address);
    }

    /// Return the page and the access the given virtual address maps to.
    pub fn translate_virtual_address(&self, address: Page) -> (r: Option<(PPN, RWX)>)
        requires
            self.virtual_memory.wf(),
        ensures
            r is Some <==> translation(self.virtual_memory.mapping(address@)) is Some,
            r matches Some((p, rwx)) ==> translation(self.virtual_memory.mapping(address@)) == Some((p@, rwx)),
    {
        self.virtual_memory.get(address.as_ptr())
    }

    /// Allocate private memory at the given virtual address (see [`Sv39::allocate`]).
    pub fn allocate_memory(&mut self, frames: &mut Allocator, address: Page, count: usize, rwx: RWX) -> (r: Result<(), AddError>)
        requires
            old(self).virtual_memory.wf(),
            old(frames).wf(),
            old(frames)@.len() >= count,
            count < 0x800_0000,
            address@ + count * 4096 <= u64::MAX,
        ensures
            final(self).virtual_memory.wf(),
            final(self).virtual_memory.max_tables_spec() == old(self).virtual_memory.max_tables_spec(),
            final(self).virtual_memory.l1_view().len() <= old(self).virtual_memory.l1_view().len() + count,
            final(self).virtual_memory.l0_view().len() <= old(self).virtual_memory.l0_view().len() + count,
            final(frames).wf(),
            (exists|k: int| 0 <= k < count && #[trigger] old(self).virtual_memory.occupied(page_at(address@, k)))
                ==> r == Err::<(), AddError>(AddError::Overlaps) && final(self).virtual_memory == old(
                self,
            ).virtual_memory && final(frames)@ == old(frames)@,
            (forall|k: int| 0 <= k < count ==> !#[trigger] old(self).virtual_memory.occupied(page_at(address@, k)))
                ==> {
                let vms = final(self).virtual_memory;
                &&& r is Ok
                &&& final(frames)@ == old(frames)@.take(old(frames)@.len() - count)
                &&& forall|k: int|
                    0 <= k < count ==> #[trigger] vms.mapping(page_at(address@, k)) is None || vms.mapping(
                        page_at(address@, k),
                    ) == Some(leaf_entry(old(frames)@[old(frames)@.len() - 1 - k], rwx, true, false, false))
                &&& forall|k: int|
                    0 <= k < count && #[trigger] vms.mapping(page_at(address@, k)) is None ==> !vms.has_room(
                        page_at(address@, k),
                    )
                &&& forall|a: u64|
                    (forall|k: int| 0 <= k < count ==> !same_page(a, #[trigger] page_at(address@, k)))
                        ==> #[trigger] vms.mapping(a) == old(self).virtual_memory.mapping(a)
            },
    {
        self.virtual_memory.allocate(frames, address, count, rwx)
    }

    /// Allocate shareable memory at the given virtual address (see [`Sv39::allocate_shared`]).
    pub fn allocate_shared_memory(&mut self, frames: &mut Allocator, address: Page, count: usize, rwx: RWX) -> (r: Result<(), ()>)
        requires
            old(self).virtual_memory.wf(),
            old(frames).wf(),
            old(frames)@.len() >= count,
            count < 0x800_0000,
            address@ + count * 4096 <= u64::MAX,
        ensures
            final(self).virtual_memory.wf(),
            final(self).virtual_memory.max_tables_spec() == old(self).virtual_memory.max_tables_spec(),
            final(self).virtual_memory.l1_view().len() <= old(self).virtual_memory.l1_view().len() + count,
            final(self).virtual_memory.l0_view().len() <= old(self).virtual_memory.l0_view().len() + count,
            final(frames).wf(),
            old(frames)@.len() - count <= final(frames)@.len() <= old(frames)@.len(),
            final(frames)@ == old(frames)@.take(final(frames)@.len() as int),
            r is Ok ==> final(frames)@.len() == old(frames)@.len() - count,
            r is Ok ==> forall|k: int|
                0 <= k < count ==> #[trigger] old(self).virtual_memory.mapping(page_at(address@, k)) is None,
            r is Ok ==> forall|k: int|
                0 <= k < count ==> #[trigger] final(self).virtual_memory.mapping(page_at(address@, k)) == Some(
                    leaf_entry(old(frames)@[old(frames)@.len() - 1 - k], rwx, true, false, true),
                ),
            r is Err ==> {
                let k = old(frames)@.len() - final(frames)@.len() - 1;
                let vms = final(self).virtual_memory;
                &&& 0 <= k < count
                &&& forall|j: int|
                    0 <= j < k ==> #[trigger] vms.mapping(page_at(address@, j)) == Some(
                        leaf_entry(old(frames)@[old(frames)@.len() - 1 - j], rwx, true, false, true),
                    )
                &&& old(self).virtual_memory.occupied(page_at(address@, k)) || !vms.has_room(page_at(address@, k))
            },
            forall|a: u64|
                (forall|k: int| 0 <= k < count ==> !same_page(a, #[trigger] page_at(address@, k)))
                    ==> #[trigger] final(self).virtual_memory.mapping(a) == old(self).virtual_memory.mapping(a),
    {
        self.virtual_memory.allocate_shared(frames, address, count, rwx)
    }

    /// Remove the mappings of `count` pages from `address`. It stops with an error at the first
    /// page that is not mapped.
    pub fn deallocate_memory(&mut self, address: Page, count: usize) -> (r: Result<(), ()>)
        requires
            old(self).virtual_memory.wf(),
            count < 0x800_0000,
            address@ + count * 4096 <= u64::MAX,
        ensures
            final(self).virtual_memory.wf(),
            r is Ok <==> forall|k: int| 0 <= k < count ==> #[trigger] old(self).virtual_memory.mapping(page_at(address@, k)) is Some,
            r is Ok ==> forall|k: int| 0 <= k < count ==> #[trigger] final(self).virtual_memory.mapping(page_at(address@, k)) is None,
            forall|a: u64|
                (forall|k: int| 0 <= k < count ==> !same_page(a, #[trigger] page_at(address@, k)))
                    ==> #[trigger] final(self).virtual_memory.mapping(a) == old(self).virtual_memory.mapping(a),
    {
        let mut va = address;
        let mut i: usize = 0;
        let ghost s0 = self.virtual_memory;
        while i < count
            invariant
                self.virtual_memory.wf(),
                s0 == old(self).virtual_memory,
                i <= count < 0x800_0000,
                address@ + count * 4096 <= u64::MAX,
                i < count ==> va@ == page_at(address@, i as int),
                forall|k: int| 0 <= k < i ==> #[trigger] s0.mapping(page_at(address@, k)) is Some,
                forall|k: int| 0 <= k < i ==> #[trigger] self.virtual_memory.mapping(page_at(address@, k)) is None,
                forall|a: u64|
                    (forall|k: int| 0 <= k < i ==> !same_page(a, #[trigger] page_at(address@, k)))
                        ==> #[trigger] self.virtual_memory.mapping(a) == s0.mapping(a),
            decreases count - i,
        {
            let ghost before = self.virtual_memory;
            let ghost vi = va@;
            proof {
                assert(before.mapping(vi) == s0.mapping(vi)) by {
                    assert forall|k: int| 0 <= k < i implies !same_page(vi, #[trigger] page_at(address@, k)) by {
                        crate::arch::riscv::vms::sv39::lemma_distinct_pages(address@, k, i as int);
                    }
                }
            }
            if self.virtual_memory.remove(va).is_err() {
                proof {
                    assert(!(s0.mapping(page_at(address@, i as int)) is Some));
                }
                return Err(());
            }
            proof {
                assert forall|k: int| 0 <= k < i implies #[trigger] self.virtual_memory.mapping(page_at(address@, k)) is None by {
                    crate::arch::riscv::vms::sv39::lemma_distinct_pages(address@, k, i as int);
                }
                assert forall|a: u64|
                    (forall|k: int| 0 <= k < i + 1 ==> !same_page(a, #[trigger] page_at(address@, k)))
                        implies #[trigger] self.virtual_memory.mapping(a) == s0.mapping(a) by {
                    assert(!same_page(a, page_at(address@, i as int)));
                }
            }
            i = i + 1;
            if i < count {
                va = va.skip(1).unwrap();
            }
        }
        Ok(())
    }

    /// Claim the task for the executor `executor_id`, so that it can begin executing it. Fails
    /// if an executor has already claimed it.
    pub fn execute(&mut self, executor_id: u16) -> (r: Result<(), Claimed>)
        ensures
            old(self).executor_id == u16::MAX ==> r is Ok && *final(self) == (Task { executor_id, ..*old(self) }),
            old(self).executor_id != u16::MAX ==> r == Err::<(), Claimed>(Claimed(old(self).executor_id))
                && *final(self) == *old(self),
    {
        if self.executor_id == u16::MAX {
            self.executor_id = executor_id;
            Ok(())
        } else {
            Err(Claimed(self.executor_id))
        }
    }

    /// Return the ID of the task.
    pub fn id(&self) -> (r: u32)
        ensures
            r == self.id,
    {
        self.id
    }

    /// Set the client request and completion buffers and their sizes (as powers of two), or
    /// remove them.
    pub fn set_client_buffers(&mut self, buffers: Option<((Page, u8), (Page, u8))>)
        requires
            buffers matches Some(((rb, rbs), (cb, cbs))) ==> rbs < 16 && cbs < 16,
        ensures
            buffers matches Some(((rb, rbs), (cb, cbs))) ==> {
                &&& final(self).data.client_request_queue == Some(rb)
                &&& final(self).data.client_completion_queue == Some(cb)
                &&& final(self).data.client_request_index.mask == vstd::arithmetic::power2::pow2(rbs as nat) - 1
                &&& final(self).data.client_completion_index.mask == vstd::arithmetic::power2::pow2(cbs as nat) - 1
                &&& final(self).data.client_request_index.index == old(self).data.client_request_index.index
                    & final(self).data.client_request_index.mask
                &&& final(self).data.client_completion_index.index == old(self).data.client_completion_index.index
                    & final(self).data.client_completion_index.mask
                &&& final(self).data.client_request_index.index <= final(self).data.client_request_index.mask
                &&& final(self).data.client_completion_index.index <= final(self).data.client_completion_index.mask
            },
            buffers is None ==> final(self).data.client_request_queue is None
                && final(self).data.client_completion_queue is None
                && final(self).data.client_request_index == old(self).data.client_request_index
                && final(self).data.client_completion_index == old(self).data.client_completion_index,
            final(self).data.server_request_queue == old(self).data.server_request_queue,
            final(self).data.server_completion_queue == old(self).data.server_completion_queue,
            final(self).data.server_request_index == old(self).data.server_request_index,
            final(self).data.server_completion_index == old(self).data.server_completion_index,
            *final(self) == (Task { data: final(self).data, ..*old(self) }),
    {
        match buffers {
            Some(((rb, rbs), (cb, cbs))) => {
                self.data.client_request_index.set_mask(rbs);
                self.data.client_completion_index.set_mask(cbs);
                self.data.client_request_queue = Some(rb);
                self.data.client_completion_queue = Some(cb);
            },
            None => {
                self.data.client_request_queue = None;
                self.data.client_completion_queue = None;
            },
        }
    }

    /// Check if the task recently ran its notification handler.
    pub fn was_notified(&self) -> (r: bool)
        ensures
            r == (self.flags.0 & StateFlags::NOTIFIED != 0),
    {
        self.flags.is_set(StateFlags::NOTIFIED)
    }

    /// Clear the notified flag.
    pub fn clear_notified(&mut self)
        ensures
            final(self).flags.0 == old(self).flags.0 & !StateFlags::NOTIFIED,
            final(self).virtual_memory == old(self).virtual_memory,
            final(self).wait_time == old(self).wait_time,
            final(self).ipc == old(self).ipc,
    {
        self.flags.clear(StateFlags::NOTIFIED)
    }

    /// Get the current IRQ being processed.
    pub fn current_irq(&self) -> (r: u32)
        ensures
            r == self.current_irq,
    {
        self.current_irq
    }

    /// Send a notification to the task: its handler is what is to be called.
    pub fn send_notification(&self) -> (r: Result<Handler, SendError>)
        ensures
            self.notification_handler matches Some(h) ==> r == Ok::<Handler, SendError>(h),
            self.notification_handler is None ==> r == Err::<Handler, SendError>(SendError::NoHandler),
    {
        match self.notification_handler {
            Some(h) => Ok(h),
            None => Err(SendError::NoHandler),
        }
    }

    /// Set the notification handler of the task, returning the previous one, if any.
    pub fn set_notification_handler(&mut self, handler: Option<Handler>) -> (r: Option<Handler>)
        ensures
            r == old(self).notification_handler,
            final(self).notification_handler == handler,
            final(self).virtual_memory == old(self).virtual_memory,
    {
        let prev = self.notification_handler;
        self.notification_handler = handler;
        prev
    }

    /// Set the IPC area: its base address and its size as a power of two (at most 1024
    /// slots). The area is laid out anew and all indices start at zero.
    pub fn set_queues(&mut self, base: Option<u64>, bits: u8) -> (r: Result<(), SetQueuesError>)
        ensures
            bits > 10 ==> r == Err::<(), SetQueuesError>(SetQueuesError::TooLarge) && *final(self) == *old(self),
            bits <= 10 ==> {
                &&& r is Ok
                &&& final(self).ipc.base == base
                &&& final(self).ipc.ring_mask == vstd::arithmetic::power2::pow2(bits as nat) - 1
                &&& final(self).ipc.last_transmit_index == 0
                &&& final(self).ipc.last_free_index == 0
                &&& final(self).ipc.queues.wf(final(self).ipc.ring_mask)
                &&& *final(self) == (Task { ipc: final(self).ipc, ..*old(self) })
            },
            final(self).flags == old(self).flags,
            final(self).virtual_memory == old(self).virtual_memory,
            final(self).wait_time == old(self).wait_time,
    {
        if bits > 10 {
            return Err(SetQueuesError::TooLarge);
        }
        proof {
            vstd::bits::lemma_u16_pow2_no_overflow(bits as nat);
            vstd::bits::lemma_u16_shl_is_mul(1, bits as u16);
            vstd::arithmetic::power2::lemma_pow2_strictly_increases(bits as nat, 11);
            vstd::arithmetic::power2::lemma2_to64();
        }
        let mask: u16 = (1u16 << bits as u16) - 1;
        self.ipc.base = base;
        self.ipc.ring_mask = mask;
        self.ipc.last_transmit_index = 0;
        self.ipc.last_free_index = 0;
        self.ipc.queues = IpcQueues::new(mask as usize + 1);
        Ok(())
    }

    /// Delay the task for the given duration from the current time `now`.
    pub fn wait_duration(&mut self, now: u64, delay: u64)
        ensures
            final(self).wait_time == (if now + delay > u64::MAX { u64::MAX as int } else { now + delay }),
            *final(self) == (Task { wait_time: final(self).wait_time, ..*old(self) }),
            final(self).virtual_memory == old(self).virtual_memory,
            final(self).flags == old(self).flags,
            final(self).ipc == old(self).ipc,
    {
        self.wait_time = now.saturating_add(delay);
    }
}

} // verus!
