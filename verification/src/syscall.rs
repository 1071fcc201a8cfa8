//! System calls: what each call decides and changes, given the state it works on. Entering and
//! leaving the kernel, and the calls that only switch context, are the trap handler's.

use crate::arch::page::{is_page_address, FromPointerError, Page};
use crate::arch::riscv::plic::{self, Reservations, ReserveError, PLIC};
use crate::arch::riscv::vms::sv39::{page_at, same_page, translation};
use crate::arch::vms::RWX;
use crate::allocator::arena::Arena;
use crate::arch::map::MapRange;
use crate::arch::riscv::vms::sv39::Sv39;
use crate::memory::shared::SharedPPN;
use crate::memory::ppn::PPNDirectRange;
use crate::memory::Allocator;
use crate::task::ipc::SetQueuesError;
use crate::task::notification::Handler;
use crate::task::registry::{self, lookup, Registry};
use crate::task::{is_new_task, tasks_wf, Address, Task, TaskID};
use vstd::prelude::*;

verus! {

/// The number of system calls.
pub const TABLE_LEN: usize = 20;

pub const PROTECT_R: usize = 0x1;

pub const PROTECT_W: usize = 0x2;

pub const PROTECT_X: usize = 0x4;

/// Whether a syscall was successful or failed.
#[derive(Clone, Copy, Debug, PartialEq, Eq)]
pub enum Status {
    /// The call succeeded.
    Success,
    /// There is no syscall with the given ID.
    InvalidCall,
    /// One of the arguments is `None` when it shouldn't be.
    NullArgument,
    /// The address range overlaps with an existing range.
    MemoryOverlap,
    /// There is no more memory available.
    MemoryUnavailable,
    /// The flags of one or more memory pages are locked.
    MemoryLocked,
    /// The memory at the address is not allocated (i.e. it doesn't exist).
    MemoryNotAllocated,
    /// The combination of protection flags is invalid.
    MemoryInvalidProtectionFlags,
    /// The address isn't properly aligned.
    BadAlignment,
    /// Whatever was looked for was not found.
    NotFound,
    TooLong,
    Occupied,
    Unavailable,
}

/// The number a status is passed to tasks as.
pub open spec fn status_code(status: Status) -> u8 {
    match status {
        Status::Success => 0,
        Status::InvalidCall => 1,
        Status::NullArgument => 2,
        Status::MemoryOverlap => 3,
        Status::MemoryUnavailable => 4,
        Status::MemoryLocked => 5,
        Status::MemoryNotAllocated => 6,
        Status::MemoryInvalidProtectionFlags => 7,
        Status::BadAlignment => 8,
        Status::NotFound => 9,
        Status::TooLong => 10,
        Status::Occupied => 11,
        Status::Unavailable => 12,
    }
}

impl From<Status> for u8 {
    /// Converts the status to the number tasks see.
    fn from(status: Status) -> (r: u8) {
        match status {
            Status::Success => 0,
            Status::InvalidCall => 1,
            Status::NullArgument => 2,
            Status::MemoryOverlap => 3,
            Status::MemoryUnavailable => 4,
            Status::MemoryLocked => 5,
            Status::MemoryNotAllocated => 6,
            Status::MemoryInvalidProtectionFlags => 7,
            Status::BadAlignment => 8,
            Status::NotFound => 9,
            Status::TooLong => 10,
            Status::Occupied => 11,
            Status::Unavailable => 12,
        }
    }
}

impl vstd::std_specs::convert::FromSpecImpl<Status> for u8 {
    open spec fn obeys_from_spec() -> bool {
        true
    }

    open spec fn from_spec(status: Status) -> u8 {
        status_code(status)
    }
}

/// The return value of a syscall: its status and optional extra data.
#[derive(Clone, Copy, Debug, PartialEq, Eq)]
pub struct Return(pub Status, pub usize);

/// A mapping used to spawn new tasks.
#[derive(Clone, Copy, Debug, PartialEq, Eq)]
pub struct Mapping {
    pub task_address: u64,
    pub typ: u8,
    pub flags: u8,
    pub self_address: u64,
}

/// Error returned for an invalid combination of protection flags.
#[derive(Clone, Copy, Debug, PartialEq, Eq)]
pub struct InvalidPageFlags;

/// The access that protection flags ask for: read (1), write (2) and execute (4); writing
/// needs reading, and some access is needed.
pub open spec fn protection(flags: usize) -> Option<RWX> {
    let f = flags & 7;
    if f == 1 {
        Some(RWX::R)
    } else if f == 4 {
        Some(RWX::X)
    } else if f == 3 {
        Some(RWX::RW)
    } else if f == 5 {
        Some(RWX::RX)
    } else if f == 7 {
        Some(RWX::RWX)
    } else {
        None
    }
}

/// Decode protection flags.
pub fn decode_rwx_flags(flags: usize) -> (r: Result<RWX, InvalidPageFlags>)
    ensures
        protection(flags) matches Some(rwx) ==> r == Ok::<RWX, InvalidPageFlags>(rwx),
        protection(flags) is None ==> r is Err,
{
    // Combinations of PROTECT_R (1), PROTECT_W (2) and PROTECT_X (4).
    let f = flags & 7;
    if f == 1 {
        Ok(RWX::R)
    } else if f == 4 {
        Ok(RWX::X)
    } else if f == 3 {
        Ok(RWX::RW)
    } else if f == 5 {
        Ok(RWX::RX)
    } else if f == 7 {
        Ok(RWX::RWX)
    } else {
        Err(InvalidPageFlags)
    }
}

fn pointer_error_status(e: FromPointerError) -> (r: Status)
    ensures
        e == FromPointerError::Null ==> r == Status::NullArgument,
        e == FromPointerError::BadAlignment ==> r == Status::BadAlignment,
{
    match e {
        FromPointerError::Null => Status::NullArgument,
        FromPointerError::BadAlignment => Status::BadAlignment,
    }
}

/// Set up the task's IPC area at `packet_table` with `1 << mask_bits` slots (the low byte of
/// `mask_bits`).
pub fn io_set_queues(task: &mut Task, packet_table: u64, mask_bits: usize) -> (r: Return)
    ensures
        (mask_bits % 256) > 10 ==> r == Return(Status::TooLong, 0) && final(task).ipc.base == old(task).ipc.base,
        (mask_bits % 256) <= 10 ==> r == Return(Status::Success, 0) && final(task).ipc.base == (if packet_table == 0 {
            None
        } else {
            Some(packet_table)
        }) && final(task).ipc.ring_mask == vstd::arithmetic::power2::pow2((mask_bits % 256) as nat) - 1,
        final(task).virtual_memory == old(task).virtual_memory,
{
    let base = if packet_table == 0 { None } else { Some(packet_table) };
    let wide = mask_bits as u64;
    let bits = (wide & 0xff) as u8;
    proof {
        assert(wide & 0xff == wide % 256) by (bit_vector);
    }
    match task.set_queues(base, bits) {
        Ok(()) => Return(Status::Success, 0),
        Err(SetQueuesError::TooLarge) => Return(Status::TooLong, 0),
    }
}

/// Set the handler for receiving notifications (none if `function` is null) and return the
/// address of the previous one (zero if there was none).
pub fn io_set_notify_handler(task: &mut Task, function: u64) -> (r: Return)
    requires
        function <= usize::MAX,
    ensures
        r.0 == Status::Success,
        old(task).notification_handler is None ==> r.1 == 0,
        old(task).notification_handler matches Some(h) ==> (h@ <= usize::MAX ==> r.1 == h@),
        old(task).notification_handler matches Some(h) ==> (h@ > usize::MAX ==> r.1 == 0),
        function == 0 ==> final(task).notification_handler is None,
        function != 0 ==> (final(task).notification_handler matches Some(h) && h@ == function),
        final(task).virtual_memory == old(task).virtual_memory,
{
    let handler = if function == 0 {
        None
    } else {
        match Handler::new(function) {
            Ok(h) => Some(h),
            Err(_) => None,
        }
    };
    let prev = task.set_notification_handler(handler);
    match prev {
        Some(p) => {
            let a = p.as_ptr();
            if a <= usize::MAX as u64 {
                Return(Status::Success, a as usize)
            } else {
                Return(Status::Success, 0)
            }
        },
        None => Return(Status::Success, 0),
    }
}

/// Allocate `count` private pages for the task at `address` with the given protection.
pub fn mem_alloc(task: &mut Task, frames: &mut Allocator, address: u64, count: usize, flags: usize) -> (r: Return)
    requires
        old(task).virtual_memory.wf(),
        old(frames).wf(),
        old(frames)@.len() >= count,
        count < 0x800_0000,
        address + count * 4096 <= u64::MAX,
        address <= usize::MAX,
    ensures
        final(task).virtual_memory.wf(),
        final(task).virtual_memory.max_tables_spec() == old(task).virtual_memory.max_tables_spec(),
        final(task).virtual_memory.l1_view().len() <= old(task).virtual_memory.l1_view().len() + count,
        final(task).virtual_memory.l0_view().len() <= old(task).virtual_memory.l0_view().len() + count,
        final(frames).wf(),
        address == 0 ==> r == Return(Status::NullArgument, 0),
        address != 0 && address % 4096 != 0 ==> r == Return(Status::BadAlignment, 0),
        address != 0 && address % 4096 == 0 && protection(flags) is None ==> r == Return(
            Status::MemoryInvalidProtectionFlags,
            0,
        ),
        address != 0 && address % 4096 == 0 && protection(flags) is Some && (exists|k: int|
            0 <= k < count && #[trigger] old(task).virtual_memory.occupied(page_at(address, k))) ==> r == Return(
            Status::MemoryOverlap,
            0,
        ),
        r.0 != Status::Success ==> final(task).virtual_memory == old(task).virtual_memory && final(frames)@
            == old(frames)@,
        address != 0 && address % 4096 == 0 && protection(flags) is Some && (forall|k: int|
            0 <= k < count ==> !#[trigger] old(task).virtual_memory.occupied(page_at(address, k))) ==> {
            let vms = final(task).virtual_memory;
            &&& r == Return(Status::Success, address as usize)
            &&& final(frames)@ == old(frames)@.take(old(frames)@.len() - count)
            &&& forall|k: int|
                0 <= k < count ==> #[trigger] vms.mapping(page_at(address, k)) is None || vms.mapping(
                    page_at(address, k),
                ) == Some(
                    crate::arch::riscv::vms::sv39::leaf_entry(
                        old(frames)@[old(frames)@.len() - 1 - k],
                        protection(flags)->0,
                        true,
                        false,
                        false,
                    ),
                )
            &&& forall|k: int|
                0 <= k < count && #[trigger] vms.mapping(page_at(address, k)) is None ==> !vms.has_room(
                    page_at(address, k),
                )
        },
{
    let page = match Page::from_pointer(address) {
        Ok(p) => p,
        Err(e) => return Return(pointer_error_status(e), 0),
    };
    match decode_rwx_flags(flags) {
        Ok(rwx) => match task.allocate_memory(frames, page, count, rwx) {
            Ok(()) => Return(Status::Success, address as usize),
            Err(_) => Return(Status::MemoryOverlap, 0),
        },
        Err(InvalidPageFlags) => Return(Status::MemoryInvalidProtectionFlags, 0),
    }
}

/// Free `count` pages of the task from `address`; every one of them must be mapped.
pub fn mem_dealloc(task: &mut Task, address: u64, count: usize) -> (r: Return)
    requires
        old(task).virtual_memory.wf(),
        count < 0x800_0000,
        address + count * 4096 <= u64::MAX,
        address != 0 && address % 4096 == 0 ==> forall|k: int|
            0 <= k < count ==> #[trigger] old(task).virtual_memory.mapping(page_at(address, k)) is Some,
    ensures
        final(task).virtual_memory.wf(),
        address == 0 ==> r == Return(Status::NullArgument, 0) && final(task).virtual_memory == old(task).virtual_memory,
        address != 0 && address % 4096 != 0 ==> r == Return(Status::BadAlignment, 0)
            && final(task).virtual_memory == old(task).virtual_memory,
        address != 0 && address % 4096 == 0 ==> r == Return(Status::Success, 0) && forall|k: int|
            0 <= k < count ==> #[trigger] final(task).virtual_memory.mapping(page_at(address, k)) is None,
{
    let page = match Page::from_usize(address) {
        Ok(p) => p,
        Err(e) => return Return(pointer_error_status(e), 0),
    };
    let _ = task.deallocate_memory(page, count);
    Return(Status::Success, 0)
}

/// Write the physical addresses of the `store.len()` pages from `address` into `store`.
/// Fails if the address is not aligned or a page is not mapped (the addresses of the pages
/// before it are written).
pub fn mem_physical_addresses(task: &Task, address: u64, store: &mut Vec<u64>) -> (r: Return)
    requires
        task.virtual_memory.wf(),
        old(store)@.len() < 0x800_0000,
        address + old(store)@.len() * 4096 <= u64::MAX,
        address % 4096 == 0 ==> address != 0,
    ensures
        final(store)@.len() == old(store)@.len(),
        address % 4096 != 0 ==> r == Return(Status::BadAlignment, 0),
        address % 4096 == 0 ==> (r == Return(Status::Success, 0) <==> forall|k: int|
            0 <= k < old(store)@.len() ==> #[trigger] translation(task.virtual_memory.mapping(page_at(address, k))) is Some),
        r == Return(Status::Success, 0) ==> forall|k: int|
            0 <= k < old(store)@.len() ==> #[trigger] final(store)@[k] == (translation(task.virtual_memory.mapping(page_at(address, k)))->0).0
                * 4096,
{
    if address % 4096 != 0 {
        return Return(Status::BadAlignment, 0);
    }
    let n = store.len();
    let mut i: usize = 0;
    while i < n
        invariant
            n == store@.len(),
            n == old(store)@.len(),
            i <= n,
            address + n * 4096 <= u64::MAX,
            address % 4096 == 0,
            task.virtual_memory.wf(),
            forall|k: int| 0 <= k < i ==> #[trigger] translation(task.virtual_memory.mapping(page_at(address, k))) is Some,
            forall|k: int| 0 <= k < i ==> #[trigger] store@[k] == (translation(task.virtual_memory.mapping(page_at(address, k)))->0).0 * 4096,
        decreases n - i,
    {
        let va = address + i as u64 * 4096;
        match task.virtual_memory.get(va) {
            Some((ppn, _)) => {
                store.set(i, ppn.into_raw() as u64 * 4096);
            },
            None => {
                assert(!(translation(task.virtual_memory.mapping(page_at(address, i as int))) is Some));
                return Return(Status::MemoryNotAllocated, 0);
            },
        }
        i = i + 1;
    }
    Return(Status::Success, 0)
}

/// Reserve an interrupt source for the task at `address`.
pub fn sys_reserve_interrupt(reservations: &mut Reservations, controller: &mut PLIC, interrupt: usize, address: Address) -> (r: Return)
    ensures
        ({
            let source = (interrupt as int % 0x1_0000) as u16;
            &&& source == 0 || source - 1 >= old(reservations).total_sources() ==> r == Return(Status::Unavailable, 0)
            &&& source > 0 && source - 1 < old(reservations).total_sources() && old(reservations)@[source - 1]
                != plic::FREE_SLOT ==> r == Return(Status::Occupied, 0)
            &&& source > 0 && source - 1 < old(reservations).total_sources() && old(reservations)@[source - 1]
                == plic::FREE_SLOT ==> r == Return(Status::Success, 0) && final(reservations)@ == old(reservations)@.update(
                source - 1,
                address.0,
            )
        }),
{
    let wide = interrupt as u64;
    let source = (wide & 0xffff) as u16;
    proof {
        assert(wide & 0xffff == wide % 0x1_0000) by (bit_vector);
    }
    match plic::reserve(reservations, controller, source, address) {
        Ok(()) => Return(Status::Success, 0),
        Err(ReserveError::Occupied) => Return(Status::Occupied, 0),
        Err(ReserveError::NonExistent) => Return(Status::Unavailable, 0),
    }
}

/// Add an entry to the registry. An address of `u32::MAX` (in the low 32 bits) stands for the
/// calling task, whose address is `current`.
pub fn sys_registry_add(reg: &mut Registry, name: &[u8], address: usize, current: TaskID) -> (r: Return)
    ensures
        ({
            let a = (address as int % 0x1_0000_0000) as u32;
            let target = if a == u32::MAX { current.0 } else { a };
            &&& name@.len() > registry::MAX_NAME_LEN ==> r == Return(Status::TooLong, 0) && final(reg)@ == old(reg)@
            &&& name@.len() <= registry::MAX_NAME_LEN && old(reg)@.len() >= registry::MAX_ENTRIES ==> r == Return(
                Status::MemoryUnavailable,
                0,
            ) && final(reg)@ == old(reg)@
            &&& name@.len() <= registry::MAX_NAME_LEN && old(reg)@.len() < registry::MAX_ENTRIES ==> r == Return(
                Status::Success,
                0,
            ) && final(reg)@ == old(reg)@.push((name@, target))
        }),
{
    let wide = address as u64;
    let a = (wide & 0xffff_ffff) as u32;
    proof {
        assert(wide & 0xffff_ffff == wide % 0x1_0000_0000) by (bit_vector);
    }
    let target = if a == u32::MAX { current } else { TaskID(a) };
    match reg.add(name, target) {
        Ok(()) => Return(Status::Success, 0),
        Err(registry::AddError::Occupied) => Return(Status::Occupied, 0),
        Err(registry::AddError::NameTooLong) => Return(Status::TooLong, 0),
        Err(registry::AddError::RegistryFull) => Return(Status::MemoryUnavailable, 0),
    }
}

/// Look a name up in the registry and return the address of the task, if found.
pub fn sys_registry_get(reg: &Registry, name: &[u8]) -> (r: Return)
    ensures
        lookup(reg@, name@) matches Some(a) ==> r == Return(Status::Success, a as usize),
        lookup(reg@, name@) is None ==> r == Return(Status::NotFound, 0),
{
    match reg.get(name) {
        Some(id) => Return(Status::Success, id.as_usize()),
        None => Return(Status::NotFound, 0),
    }
}

/// The page number that `va` is mapped to in `vms` (zero if it is not mapped).
pub open spec fn mapped_ppn(vms: Sv39, va: u64) -> u32 {
    match translation(vms.mapping(va)) {
        Some((p, _)) => p,
        None => 0,
    }
}

/// Whether a mapping can be made when a task is spawned: it shares (type 0) the page at
/// `self_address` of the calling task, whose address space is `from`, at `task_address` of the
/// new task's address space `into`, with valid protection flags.
pub open spec fn spawn_mapping_ok(m: Mapping, from: Sv39, into: Sv39) -> bool {
    &&& m.typ == 0
    &&& protection(m.flags as usize) is Some
    &&& is_page_address(m.task_address as int)
    &&& is_page_address(m.self_address as int)
    &&& translation(from.mapping(m.self_address)) is Some
    &&& !into.occupied(m.task_address)
}

/// The address space `after` is `before` with each mapping's page of `from` shared at its
/// `task_address`, user-accessible with the mapping's protection.
pub open spec fn spawned(before: Sv39, after: Sv39, from: Sv39, maps: Seq<Mapping>) -> bool {
    &&& forall|i: int|
        0 <= i < maps.len() ==> #[trigger] after.mapping(maps[i].task_address) == Some(
            crate::arch::riscv::vms::sv39::leaf_entry(
                mapped_ppn(from, maps[i].self_address),
                protection(maps[i].flags as usize)->0,
                true,
                false,
                true,
            ),
        )
    &&& forall|a: u64|
        (forall|i: int| 0 <= i < maps.len() ==> !same_page(a, #[trigger] maps[i].task_address))
            ==> #[trigger] after.mapping(a) == before.mapping(a)
}

/// Spawn a task with the address space `vms`, into which each mapping shares a page of the
/// calling task (the one at `current`), starting at `program_counter` with `stack_pointer` and
/// the kernel stack `stack`. The call returns the new task's ID.
pub fn task_spawn(
    tasks: &mut Arena<Task>,
    current: usize,
    mappings: &[Mapping],
    vms: Sv39,
    program_counter: usize,
    stack_pointer: usize,
    stack: Page,
) -> (r: Return)
    requires
        tasks_wf(old(tasks)@),
        old(tasks).max() <= u32::MAX,
        old(tasks)@.len() < old(tasks).max(),
        current < old(tasks)@.len(),
        old(tasks)@[current as int] is Some,
        vms.wf(),
        vms.l1_view().len() + mappings@.len() < vms.max_tables_spec(),
        vms.l0_view().len() + mappings@.len() < vms.max_tables_spec(),
        forall|i: int|
            0 <= i < mappings@.len() ==> spawn_mapping_ok(
                #[trigger] mappings@[i],
                old(tasks)@[current as int]->0.virtual_memory,
                vms,
            ),
        forall|i: int, j: int|
            0 <= i < j < mappings@.len() ==> !same_page(
                #[trigger] mappings@[i].task_address,
                #[trigger] mappings@[j].task_address,
            ),
    ensures
        r == Return(Status::Success, old(tasks)@.len() as usize),
        tasks_wf(final(tasks)@),
        final(tasks).max() == old(tasks).max(),
        final(tasks)@.len() == old(tasks)@.len() + 1,
        final(tasks)@.take(old(tasks)@.len() as int) == old(tasks)@,
        final(tasks)@.last() matches Some(t) && is_new_task(
            t,
            t.virtual_memory,
            program_counter,
            stack_pointer,
            stack,
            old(tasks)@.len() as int,
        ) && spawned(vms, t.virtual_memory, old(tasks)@[current as int]->0.virtual_memory, mappings@),
{
    let ghost from = tasks@[current as int]->0.virtual_memory;
    let ghost v0 = vms;
    let mut vms = vms;
    let mut i: usize = 0;
    while i < mappings.len()
        invariant
            i <= mappings@.len(),
            tasks@ == old(tasks)@,
            current < tasks@.len(),
            tasks@[current as int] is Some,
            from == tasks@[current as int]->0.virtual_memory,
            from.wf(),
            vms.wf(),
            vms.max_tables_spec() == v0.max_tables_spec(),
            vms.l1_view().len() <= v0.l1_view().len() + i,
            vms.l0_view().len() <= v0.l0_view().len() + i,
            v0.l1_view().len() + mappings@.len() < v0.max_tables_spec(),
            v0.l0_view().len() + mappings@.len() < v0.max_tables_spec(),
            forall|k: int| 0 <= k < mappings@.len() ==> spawn_mapping_ok(#[trigger] mappings@[k], from, v0),
            forall|k: int, j: int|
                0 <= k < j < mappings@.len() ==> !same_page(
                    #[trigger] mappings@[k].task_address,
                    #[trigger] mappings@[j].task_address,
                ),
            forall|a: u64| #[trigger] vms.blocked(a) == v0.blocked(a),
            forall|k: int|
                0 <= k < i ==> #[trigger] vms.mapping(mappings@[k].task_address) == Some(
                    crate::arch::riscv::vms::sv39::leaf_entry(
                        mapped_ppn(from, mappings@[k].self_address),
                        protection(mappings@[k].flags as usize)->0,
                        true,
                        false,
                        true,
                    ),
                ),
            forall|a: u64|
                (forall|k: int| 0 <= k < i ==> !same_page(a, #[trigger] mappings@[k].task_address))
                    ==> #[trigger] vms.mapping(a) == v0.mapping(a),
        decreases mappings@.len() - i,
    {
        let m = mappings[i];
        assert(spawn_mapping_ok(mappings@[i as int], from, v0));
        let rwx = match decode_rwx_flags(m.flags as usize) {
            Ok(x) => x,
            Err(_) => vstd::pervasive::unreached(),
        };
        let to = match Page::from_pointer(m.task_address) {
            Ok(p) => p,
            Err(_) => vstd::pervasive::unreached(),
        };
        let ppn = match tasks.get(current).unwrap().virtual_memory.get(m.self_address) {
            Some((p, _)) => p,
            None => vstd::pervasive::unreached(),
        };
        let ghost before = vms;
        proof {
            assert forall|k: int| 0 <= k < i implies !same_page(m.task_address, #[trigger] mappings@[k].task_address) by {
                assert(!same_page(mappings@[k].task_address, mappings@[i as int].task_address));
            }
            assert(vms.mapping(m.task_address) == v0.mapping(m.task_address));
        }
        match vms.add_shared(to, SharedPPN::from_raw(ppn), rwx, true, false) {
            Ok(()) => {},
            Err(_) => {
                return vstd::pervasive::unreached();
            },
        }
        proof {
            assert forall|k: int| 0 <= k < i implies #[trigger] vms.mapping(mappings@[k].task_address) == before.mapping(
                mappings@[k].task_address,
            ) by {
                assert(!same_page(mappings@[k].task_address, mappings@[i as int].task_address));
            }
            assert forall|a: u64|
                (forall|k: int| 0 <= k < i + 1 ==> !same_page(a, #[trigger] mappings@[k].task_address))
                    implies #[trigger] vms.mapping(a) == v0.mapping(a) by {
                assert(!same_page(a, mappings@[i as int].task_address));
            }
        }
        i = i + 1;
    }
    match Task::new(tasks, vms, program_counter, stack_pointer, stack) {
        Ok(id) => Return(Status::Success, id.0 as usize),
        Err(_) => vstd::pervasive::unreached(),
    }
}

/// Allocate the pages that `size` bytes take (at most eight) as memory for devices to access
/// directly, and map them at `address` in the task, readable and writable by it. Page `k` of the
/// range gets the `k`-th frame handed out.
pub fn dev_dma_alloc(task: &mut Task, frames: &mut Allocator, address: u64, size: usize) -> (r: Return)
    requires
        old(task).virtual_memory.wf(),
        old(frames).wf(),
        0 < size <= 8 * 4096,
        is_page_address(address as int),
        address <= usize::MAX,
        address + (size + 4095) / 4096 * 4096 <= u64::MAX,
        old(frames)@.len() >= (size + 4095) / 4096,
        forall|k: int|
            0 <= k < (size + 4095) / 4096 ==> !#[trigger] old(task).virtual_memory.occupied(page_at(address, k)),
        old(task).virtual_memory.l1_view().len() + (size + 4095) / 4096 < old(task).virtual_memory.max_tables_spec(),
        old(task).virtual_memory.l0_view().len() + (size + 4095) / 4096 < old(task).virtual_memory.max_tables_spec(),
    ensures
        r == Return(Status::Success, address as usize),
        *final(task) == (Task { virtual_memory: final(task).virtual_memory, ..*old(task) }),
        final(task).virtual_memory.wf(),
        final(frames).wf(),
        ({
            let count = (size + 4095) / 4096;
            &&& final(frames)@ == old(frames)@.take(old(frames)@.len() - count)
            &&& forall|k: int|
                0 <= k < count ==> #[trigger] final(task).virtual_memory.mapping(page_at(address, k)) == Some(
                    crate::arch::riscv::vms::sv39::leaf_entry(
                        old(frames)@[old(frames)@.len() - 1 - k],
                        RWX::RW,
                        true,
                        false,
                        false,
                    ),
                )
            &&& forall|a: u64|
                (forall|k: int| 0 <= k < count ==> !same_page(a, #[trigger] page_at(address, k)))
                    ==> #[trigger] final(task).virtual_memory.mapping(a) == old(task).virtual_memory.mapping(a)
        }),
{
    let count = (size + 4095) / 4096;
    let page = match Page::from_pointer(address) {
        Ok(p) => p,
        Err(_) => return vstd::pervasive::unreached(),
    };
    // Every page is free and there is room for the tables, so each page gets mapped.
    let _ = task.virtual_memory.allocate(frames, page, count, RWX::RW);
    proof {
        let vms = task.virtual_memory;
        assert forall|k: int| 0 <= k < count implies #[trigger] vms.mapping(page_at(address, k)) is Some by {
            if vms.mapping(page_at(address, k)) is None {
                assert(!vms.has_room(page_at(address, k)));
            }
        }
    }
    Return(Status::Success, address as usize)
}

/// Map `count` pages of physical memory from page number `ppn` (such as a device's registers)
/// at `address` in the task, readable and writable by it.
pub fn sys_direct_alloc(task: &mut Task, address: u64, ppn: usize, count: usize) -> (r: Return)
    requires
        old(task).virtual_memory.wf(),
        count < 0x800_0000,
        address + count * 4096 <= u64::MAX,
        ppn <= u32::MAX ==> ppn + count <= 0x1_0000_0000,
    ensures
        *final(task) == (Task { virtual_memory: final(task).virtual_memory, ..*old(task) }),
        final(task).virtual_memory.wf(),
        final(task).virtual_memory.max_tables_spec() == old(task).virtual_memory.max_tables_spec(),
        !is_page_address(address as int) ==> r == Return(Status::NullArgument, 0),
        is_page_address(address as int) && ppn > u32::MAX ==> r == Return(Status::MemoryUnavailable, 0),
        is_page_address(address as int) && ppn <= u32::MAX && (exists|k: int|
            0 <= k < count && #[trigger] old(task).virtual_memory.occupied(page_at(address, k))) ==> r
            == Return(Status::MemoryOverlap, 0),
        r.0 != Status::Success && (!is_page_address(address as int) || ppn > u32::MAX || exists|k: int|
            0 <= k < count && #[trigger] old(task).virtual_memory.occupied(page_at(address, k)))
            ==> final(task).virtual_memory == old(task).virtual_memory,
        is_page_address(address as int) && ppn <= u32::MAX && (forall|k: int|
            0 <= k < count ==> !#[trigger] old(task).virtual_memory.occupied(page_at(address, k))) ==> {
            let vms = final(task).virtual_memory;
            &&& r == Return(Status::Success, 0) || r == Return(Status::MemoryOverlap, 0)
            &&& r.0 == Status::Success ==> forall|k: int|
                0 <= k < count ==> #[trigger] vms.mapping(page_at(address, k)) == Some(
                    crate::arch::riscv::vms::sv39::leaf_entry((ppn + k) as u32, RWX::RW, true, false, false),
                )
            &&& r.0 != Status::Success ==> exists|k: int|
                0 <= k < count && !#[trigger] vms.has_room(page_at(address, k))
        },
        forall|a: u64|
            (forall|k: int| 0 <= k < count ==> !same_page(a, #[trigger] page_at(address, k)))
                ==> #[trigger] final(task).virtual_memory.mapping(a) == old(task).virtual_memory.mapping(a),
{
    let page = match Page::from_pointer(address) {
        Ok(p) => p,
        Err(_) => return Return(Status::NullArgument, 0),
    };
    if ppn > u32::MAX as usize {
        return Return(Status::MemoryUnavailable, 0);
    }
    match task.virtual_memory.add_direct_range(page, ppn as u32, count, RWX::RW, true, false) {
        Ok(()) => Return(Status::Success, 0),
        Err(_) => Return(Status::MemoryOverlap, 0),
    }
}

/// Map the `info_pages` pages of the platform description (the device tree), which lie from the
/// physical address `info_address`, read-only at `address` in the task; the call returns the
/// number of pages.
pub fn sys_platform_info(task: &mut Task, address: u64, info_address: usize, info_pages: usize) -> (r: Return)
    requires
        old(task).virtual_memory.wf(),
        info_address % 4096 == 0,
        info_address / 4096 + info_pages <= 0x1_0000_0000,
        info_pages < 0x800_0000,
        address + info_pages * 4096 <= u64::MAX,
        is_page_address(address as int) ==> forall|k: int|
            0 <= k < info_pages ==> !#[trigger] old(task).virtual_memory.occupied(page_at(address, k)),
        is_page_address(address as int) ==> old(task).virtual_memory.l1_view().len() + info_pages
            < old(task).virtual_memory.max_tables_spec(),
        is_page_address(address as int) ==> old(task).virtual_memory.l0_view().len() + info_pages
            < old(task).virtual_memory.max_tables_spec(),
    ensures
        *final(task) == (Task { virtual_memory: final(task).virtual_memory, ..*old(task) }),
        final(task).virtual_memory.wf(),
        address == 0 ==> r == Return(Status::NullArgument, 0),
        address != 0 && address % 4096 != 0 ==> r == Return(Status::BadAlignment, 0),
        r.0 != Status::Success ==> final(task).virtual_memory == old(task).virtual_memory,
        is_page_address(address as int) ==> {
            &&& r == Return(Status::Success, info_pages)
            &&& forall|k: int|
                0 <= k < info_pages ==> #[trigger] final(task).virtual_memory.mapping(page_at(address, k)) == Some(
                    crate::arch::riscv::vms::sv39::leaf_entry(
                        (info_address / 4096 + k) as u32,
                        RWX::R,
                        true,
                        false,
                        false,
                    ),
                )
        },
        forall|a: u64|
            (forall|k: int| 0 <= k < info_pages ==> !same_page(a, #[trigger] page_at(address, k)))
                ==> #[trigger] final(task).virtual_memory.mapping(a) == old(task).virtual_memory.mapping(a),
{
    let page = match Page::from_pointer(address) {
        Ok(p) => p,
        Err(e) => return Return(pointer_error_status(e), 0),
    };
    let start = (info_address / 4096) as u32;
    let ghost before = task.virtual_memory;
    let res = task.virtual_memory.add_direct_range(page, start, info_pages, RWX::R, true, false);
    proof {
        if res is Err {
            let k = choose|k: int|
                0 <= k < info_pages && !#[trigger] task.virtual_memory.has_room(page_at(address, k))
                    && task.virtual_memory.l1_view().len() <= before.l1_view().len() + k + 1
                    && task.virtual_memory.l0_view().len() <= before.l0_view().len() + k + 1 && forall|j: int|
                    0 <= j < k ==> task.virtual_memory.mapping(page_at(address, j)) == Some(
                        crate::arch::riscv::vms::sv39::leaf_entry((start + j) as u32, RWX::R, true, false, false),
                    );
            assert(task.virtual_memory.has_room(page_at(address, k)));
        }
    }
    Return(Status::Success, info_pages)
}

/// Set the interrupt controller, whose registers lie in the `page_count` pages from page number
/// `ppn` and which has `max_devices` (its low 16 bits) interrupt sources: every reservation is
/// freed, and the range to map the registers at, in the `reserved_pages` pages set aside for
/// them, is returned. This may only be called once.
pub fn sys_set_interrupt_controller(
    reservations: &mut Reservations,
    ppn: usize,
    page_count: usize,
    max_devices: usize,
    reserved_pages: usize,
) -> (r: (Return, MapRange))
    requires
        page_count <= reserved_pages,
        ppn <= u32::MAX,
        page_count <= u32::MAX,
        max_devices % 0x1_0000 <= plic::RESERVATION_SLOTS,
    ensures
        r.0 == Return(Status::Success, 0),
        r.1 is Direct && r.1.start_spec() == ppn && r.1.len_spec() == page_count,
        final(reservations).total_sources() == max_devices % 0x1_0000,
        final(reservations)@ == Seq::new(plic::RESERVATION_SLOTS as nat, |i: int| plic::FREE_SLOT),
{
    let devices = (max_devices as u64 & 0xffff) as u16;
    proof {
        assert(max_devices as u64 & 0xffff == max_devices as u64 % 0x1_0000) by (bit_vector);
    }
    let range = match PPNDirectRange::new(ppn as u32, page_count) {
        Ok(d) => d,
        Err(_) => vstd::pervasive::unreached(),
    };
    reservations.set_controller(devices);
    (Return(Status::Success, 0), MapRange::Direct(range))
}

/// A call number without a syscall.
pub fn placeholder() -> (r: Return)
    ensures
        r == Return(Status::InvalidCall, 0),
{
    Return(Status::InvalidCall, 0)
}

/// The 64-bit time of `io_wait`, from its low and high words on a 32-bit machine or from the
/// first word alone on a 64-bit one.
pub fn io_wait_time(time: usize, timeh: usize) -> (r: u64)
    ensures
        usize::BITS == 32 ==> r == time + timeh * 0x1_0000_0000,
        usize::BITS == 64 ==> r == time,
{
    if usize::BITS == 32 {
        proof {
            assert(time <= u32::MAX && timeh <= u32::MAX);
        }
        time as u64 + (timeh as u64) * 0x1_0000_0000
    } else {
        time as u64
    }
}

/// What `io_wait` decides for the calling task at time `now`: if it was notified, the flag is
/// cleared and the call returns at once (`true`); otherwise the task waits for `time` from now
/// (`false`), after which its queued packets are to be processed and another task scheduled.
pub fn io_wait(task: &mut Task, now: u64, time: u64) -> (r: bool)
    ensures
        r == (old(task).flags.0 & crate::task::StateFlags::NOTIFIED != 0),
        r ==> final(task).flags.0 == old(task).flags.0 & !crate::task::StateFlags::NOTIFIED
            && final(task).wait_time == old(task).wait_time,
        !r ==> final(task).flags == old(task).flags && final(task).wait_time == (if now + time > u64::MAX {
            u64::MAX as int
        } else {
            now + time
        }),
        final(task).virtual_memory == old(task).virtual_memory,
{
    if task.was_notified() {
        task.clear_notified();
        true
    } else {
        task.wait_duration(now, time);
        false
    }
}

} // verus!
