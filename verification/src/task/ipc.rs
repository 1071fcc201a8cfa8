//! Inter-task communication.
//!
//! Each task may set up an IPC area in its own memory: a table of packets, a list of free
//! address ranges and three ring buffers of packet slots (transmit, received and free packets),
//! each `mask + 1` entries long, plus their indices. The area is modelled by [`IpcQueues`].

use super::TaskID;
use crate::arch::page::Page;
use vstd::prelude::*;

verus! {

/// The size of a packet in bytes.
pub const PACKET_SIZE: usize = 40;

/// The size of a free range entry in bytes.
pub const FREE_PAGE_SIZE: usize = 16;

/// The size of the queue indices in bytes.
pub const INDICES_SIZE: usize = 16;

/// An IPC packet.
#[derive(Clone, Copy, Debug, PartialEq, Eq)]
pub struct Packet {
    /// The address of the data, if any.
    pub data: Option<u64>,
    /// The address of the name, if any.
    pub name: Option<u64>,
    pub data_offset: u64,
    pub data_length: u32,
    /// The task the packet is sent to (in the transmit queue) or came from (once received).
    pub address: TaskID,
    pub flags_user: u16,
    pub flags_kernel: Flags,
    pub name_length: u16,
    pub id: u16,
}

/// IPC packet flags.
#[derive(Clone, Copy, Debug, PartialEq, Eq)]
pub struct Flags(pub u16);

impl Flags {
    pub const READABLE: u16 = 0x1;

    pub const WRITEABLE: u16 = 0x2;

    pub const EXECUTABLE: u16 = 0x4;

    pub const LOCK: u16 = 0x8;

    pub fn readable(&self) -> (r: bool)
        ensures
            r == (self.0 & 1 > 0),
    {
        self.0 & Self::READABLE > 0
    }

    pub fn writeable(&self) -> (r: bool)
        ensures
            r == (self.0 & 2 > 0),
    {
        self.0 & Self::WRITEABLE > 0
    }

    pub fn executable(&self) -> (r: bool)
        ensures
            r == (self.0 & 4 > 0),
    {
        self.0 & Self::EXECUTABLE > 0
    }

    pub fn lock(&self) -> (r: bool)
        ensures
            r == (self.0 & 8 > 0),
    {
        self.0 & Self::LOCK > 0
    }
}

/// A free address range in the receiving task's address space: `count` pages from `address`
/// (an address of zero means the entry is unused).
#[derive(Clone, Copy, Debug, PartialEq, Eq)]
pub struct FreePage {
    pub address: u64,
    pub count: u64,
}

/// The IPC area of a task.
pub struct IpcQueues {
    /// The packets table.
    pub packets: Vec<Packet>,
    /// The free address ranges.
    pub free_ranges: Vec<FreePage>,
    pub transmit_queue_index: u32,
    pub received_queue_index: u32,
    pub free_packets_queue_index: u32,
    pub free_ranges_list_size: u32,
    /// The slots of packets to be transmitted.
    pub transmit: Vec<u16>,
    /// The slots of packets received.
    pub received: Vec<u16>,
    /// The slots of free packets.
    pub free: Vec<u16>,
}

/// The IPC state of a task.
pub struct IPC {
    /// The base address of the shared IPC area, if one was set up.
    pub base: Option<u64>,
    /// The index of the last processed transmit entry.
    pub last_transmit_index: u16,
    /// The index of the last free packet slot entry.
    pub last_free_index: u16,
    /// The mask of the ring buffers, which is `packet_count - 1`.
    pub ring_mask: u16,
    /// The area itself.
    pub queues: IpcQueues,
}

/// Error returned if queues could not be set up.
#[derive(Clone, Copy, Debug, PartialEq, Eq)]
pub enum SetQueuesError {
    TooLarge,
}

impl IpcQueues {
    /// Every table and ring buffer of the area has `mask + 1` entries.
    pub open spec fn wf(&self, mask: u16) -> bool {
        &&& self.packets@.len() == mask + 1
        &&& self.free_ranges@.len() == mask + 1
        &&& self.transmit@.len() == mask + 1
        &&& self.received@.len() == mask + 1
        &&& self.free@.len() == mask + 1
    }

    /// An area with `count` zeroed entries in each table and ring buffer.
    pub fn new(count: usize) -> (r: Self)
        ensures
            r.packets@.len() == count,
            r.free_ranges@.len() == count,
            r.transmit@.len() == count,
            r.received@.len() == count,
            r.free@.len() == count,
            r.transmit_queue_index == 0,
            r.received_queue_index == 0,
            r.free_packets_queue_index == 0,
            r.free_ranges_list_size == 0,
    {
        let empty = Packet {
            data: None,
            name: None,
            data_offset: 0,
            data_length: 0,
            address: TaskID(0),
            flags_user: 0,
            flags_kernel: Flags(0),
            name_length: 0,
            id: 0,
        };
        let mut packets: Vec<Packet> = Vec::new();
        let mut free_ranges: Vec<FreePage> = Vec::new();
        let mut transmit: Vec<u16> = Vec::new();
        let mut received: Vec<u16> = Vec::new();
        let mut free: Vec<u16> = Vec::new();
        let mut i: usize = 0;
        while i < count
            invariant
                i <= count,
                packets@.len() == i,
                free_ranges@.len() == i,
                transmit@.len() == i,
                received@.len() == i,
                free@.len() == i,
            decreases count - i,
        {
            packets.push(empty);
            free_ranges.push(FreePage { address: 0, count: 0 });
            transmit.push(0);
            received.push(0);
            free.push(0);
            i = i + 1;
        }
        IpcQueues {
            packets,
            free_ranges,
            transmit_queue_index: 0,
            received_queue_index: 0,
            free_packets_queue_index: 0,
            free_ranges_list_size: 0,
            transmit,
            received,
            free,
        }
    }
}

/// The outcome of taking `size` pages from the free ranges `ranges`: the index of the first
/// entry that is in use and holds at least `size` pages, if any.
pub open spec fn first_fitting(ranges: Seq<FreePage>, size: u64) -> Option<int> {
    if exists|i: int| 0 <= i < ranges.len() && ranges[i].address != 0 && ranges[i].count >= size {
        Some(choose|i: int| 0 <= i < ranges.len() && ranges[i].address != 0 && ranges[i].count >= size
            && forall|j: int| 0 <= j < i ==> !(ranges[j].address != 0 && ranges[j].count >= size))
    } else {
        None
    }
}

proof fn lemma_first_fitting(ranges: Seq<FreePage>, size: u64, k: int)
    requires
        0 <= k <= ranges.len(),
        k < ranges.len() ==> ranges[k].address != 0 && ranges[k].count >= size,
        forall|j: int| 0 <= j < k ==> !(ranges[j].address != 0 && ranges[j].count >= size),
    ensures
        k < ranges.len() ==> first_fitting(ranges, size) == Some(k),
        k == ranges.len() ==> first_fitting(ranges, size) is None,
{
    if k < ranges.len() {
        let b = choose|i: int| 0 <= i < ranges.len() && ranges[i].address != 0 && ranges[i].count >= size
            && forall|j: int| 0 <= j < i ==> !(ranges[j].address != 0 && ranges[j].count >= size);
        assert(b == k) by {
            if b < k {
            } else if k < b {
            }
        }
    }
}

/// The page at which the range taken from a free range entry starts: the last `size` pages of
/// the entry, if its address is a page and that page exists.
pub open spec fn taken_page(entry: FreePage, size: u64) -> Option<u64> {
    let remaining = entry.count - size;
    if entry.address % 4096 == 0 && entry.address + remaining * 4096 <= u64::MAX {
        Some((entry.address + remaining * 4096) as u64)
    } else {
        None
    }
}

impl Default for IPC {
    /// An IPC state without an area.
    fn default() -> (r: Self)
        ensures
            r.base is None,
            r.last_transmit_index == 0,
            r.last_free_index == 0,
            r.ring_mask == 0,
            r.queues.wf(0),
    {
        IPC { base: None, last_transmit_index: 0, last_free_index: 0, ring_mask: 0, queues: IpcQueues::new(1) }
    }
}

impl IPC {
    /// Determine the size of the packets table in bytes with the given mask.
    pub fn packets_table_byte_size(mask: u16) -> (r: usize)
        ensures
            r == (mask + 1) * PACKET_SIZE,
    {
        (mask as usize + 1) * PACKET_SIZE
    }

    /// Determine the size of a single queue (ring buffer): the index and the entries.
    pub fn queue_byte_size(mask: u16) -> (r: usize)
        ensures
            r == 2 + (mask + 1) * 2,
    {
        2 + (mask as usize + 1) * 2
    }

    /// Determine the size of the free ranges list.
    pub fn free_ranges_byte_size(mask: u16) -> (r: usize)
        ensures
            r == 2 + (mask + 1) * FREE_PAGE_SIZE,
    {
        2 + (mask as usize + 1) * FREE_PAGE_SIZE
    }

    /// The offset of the packets table in bytes.
    pub fn packets_table_offset(_mask: u16) -> (r: usize)
        ensures
            r == 0,
    {
        0
    }

    /// The offset of the free ranges list.
    pub fn free_ranges_offset(mask: u16) -> (r: usize)
        ensures
            r == (mask + 1) * PACKET_SIZE,
    {
        Self::packets_table_offset(mask) + Self::packets_table_byte_size(mask)
    }

    /// The offset of the queue indices.
    pub fn queue_indices_offset(mask: u16) -> (r: usize)
        ensures
            r == (mask + 1) * PACKET_SIZE + 2 + (mask + 1) * FREE_PAGE_SIZE,
    {
        Self::free_ranges_offset(mask) + Self::free_ranges_byte_size(mask)
    }

    /// The offset of the transmit queue.
    pub fn transmit_queue_offset(mask: u16) -> (r: usize)
        ensures
            r == (mask + 1) * PACKET_SIZE + 2 + (mask + 1) * FREE_PAGE_SIZE + INDICES_SIZE,
    {
        Self::queue_indices_offset(mask) + INDICES_SIZE
    }

    /// The offset of the received queue.
    pub fn received_queue_offset(mask: u16) -> (r: usize)
        ensures
            r == (mask + 1) * PACKET_SIZE + 2 + (mask + 1) * FREE_PAGE_SIZE + INDICES_SIZE + 2 + (mask + 1) * 2,
    {
        Self::transmit_queue_offset(mask) + Self::queue_byte_size(mask)
    }

    /// The offset of the free packets queue.
    pub fn free_packets_queue_offset(mask: u16) -> (r: usize)
        ensures
            r == (mask + 1) * PACKET_SIZE + 2 + (mask + 1) * FREE_PAGE_SIZE + INDICES_SIZE + 2 * (2 + (mask
                + 1) * 2),
    {
        Self::received_queue_offset(mask) + Self::queue_byte_size(mask)
    }



    /// Take `size` pages from the end of the first free range that has enough of them, and
    /// return the first page taken (if the range's address is a page and that page exists).
    pub fn take_free_range(queues: &mut IpcQueues, size: u64) -> (r: Option<Page>)
        ensures
            final(queues).packets == old(queues).packets,
            final(queues).transmit == old(queues).transmit,
            final(queues).received == old(queues).received,
            final(queues).free == old(queues).free,
            final(queues).transmit_queue_index == old(queues).transmit_queue_index,
            final(queues).received_queue_index == old(queues).received_queue_index,
            final(queues).free_packets_queue_index == old(queues).free_packets_queue_index,
            final(queues).free_ranges_list_size == old(queues).free_ranges_list_size,
            final(queues).free_ranges@.len() == old(queues).free_ranges@.len(),
            first_fitting(old(queues).free_ranges@, size) is None ==> r is None && final(queues).free_ranges@
                == old(queues).free_ranges@,
            first_fitting(old(queues).free_ranges@, size) matches Some(k) ==> {
                let e = old(queues).free_ranges@[k];
                &&& final(queues).free_ranges@ == old(queues).free_ranges@.update(
                    k,
                    FreePage { address: e.address, count: (e.count - size) as u64 },
                )
                &&& (r is None <==> taken_page(e, size) is None)
                &&& (r matches Some(p) ==> taken_page(e, size) == Some(p@))
            },
    {
        let mut i: usize = 0;
        let ghost ranges = queues.free_ranges@;
        while i < queues.free_ranges.len()
            invariant
                queues.free_ranges@ == ranges,
                i <= ranges.len(),
                forall|j: int| 0 <= j < i ==> !(ranges[j].address != 0 && ranges[j].count >= size),
                queues.packets == old(queues).packets,
                queues.transmit == old(queues).transmit,
                queues.received == old(queues).received,
                queues.free == old(queues).free,
                queues.transmit_queue_index == old(queues).transmit_queue_index,
                queues.received_queue_index == old(queues).received_queue_index,
                queues.free_packets_queue_index == old(queues).free_packets_queue_index,
                queues.free_ranges_list_size == old(queues).free_ranges_list_size,
                ranges == old(queues).free_ranges@,
            decreases ranges.len() - i,
        {
            let fp = queues.free_ranges[i];
            if fp.address != 0 && fp.count >= size {
                proof {
                    lemma_first_fitting(ranges, size, i as int);
                }
                let remaining = fp.count - size;
                queues.free_ranges.set(i, FreePage { address: fp.address, count: remaining });
                return match Page::new(fp.address) {
                    Ok(p) => p.skip(remaining),
                    Err(_) => None,
                };
            }
            i = i + 1;
        }
        proof {
            lemma_first_fitting(ranges, size, i as int);
        }
        None
    }
}

} // verus!

use super::{tasks_wf, StateFlags, Task};
use crate::allocator::arena::Arena;
use crate::arch::riscv::vms::sv39::{leaf_entry, page_at, same_page, translation, Sv39};
use crate::arch::vms::RWX;
use crate::memory::ppn::PPN;
use crate::memory::SharedPPN;

verus! {

/// The IPC area of a task matches its ring mask.
pub open spec fn ipc_wf(t: Task) -> bool {
    t.ipc.queues.wf(t.ipc.ring_mask)
}

/// Every task in the table has a well-formed address space and IPC area.
pub open spec fn table_wf(tasks: Seq<Option<Task>>) -> bool {
    &&& tasks_wf(tasks)
    &&& forall|i: int| 0 <= i < tasks.len() && #[trigger] tasks[i] is Some ==> ipc_wf(tasks[i]->0)
}

/// Whether the task with the given ID exists and is alive.
pub open spec fn alive(tasks: Seq<Option<Task>>, id: u32) -> bool {
    &&& id < tasks.len()
    &&& tasks[id as int] is Some
    &&& tasks[id as int]->0.flags.0 & StateFlags::DEAD == 0
}

/// The received queue index of a slot of the task table (zero for an empty slot).
pub open spec fn received_of(t: Option<Task>) -> int {
    match t {
        Some(t) => t.ipc.queues.received_queue_index as int,
        None => 0,
    }
}

/// What the transmitting side of a task's IPC consists of: the base, the mask, the last
/// transmitted index, the transmit queue and its index.
pub open spec fn transmit_side(t: Task) -> (Option<u64>, u16, u16, Seq<u16>, u32) {
    (t.ipc.base, t.ipc.ring_mask, t.ipc.last_transmit_index, t.ipc.queues.transmit@, t.ipc.queues.transmit_queue_index)
}

/// The sum of the received queue indices of all tasks.
pub open spec fn received_total(tasks: Seq<Option<Task>>) -> int
    decreases tasks.len(),
{
    if tasks.len() == 0 {
        0
    } else {
        received_total(tasks.drop_last()) + received_of(tasks.last())
    }
}

pub proof fn lemma_received_total_update(tasks: Seq<Option<Task>>, i: int, t: Option<Task>)
    requires
        0 <= i < tasks.len(),
    ensures
        received_total(tasks.update(i, t)) == received_total(tasks) - received_of(tasks[i]) + received_of(t),
    decreases tasks.len(),
{
    let u = tasks.update(i, t);
    if i == tasks.len() - 1 {
        assert(u.drop_last() =~= tasks.drop_last());
    } else {
        lemma_received_total_update(tasks.drop_last(), i, t);
        assert(u.drop_last() =~= tasks.drop_last().update(i, t));
    }
}

/// Where transmitting stops: the first position from `last` (counting up, wrapping) before
/// `tx` whose transmit entry names no packet slot (a slot above `mask`), or `tx`.
pub open spec fn transmit_stop(transmit: Seq<u16>, mask: u16, last: u16, tx: u16) -> u16
    decreases (tx - last) % 0x1_0000,
{
    if last == tx {
        tx
    } else if transmit[(last & mask) as int] > mask {
        last
    } else {
        transmit_stop(transmit, mask, ((last + 1) % 0x1_0000) as u16, tx)
    }
}

/// Append a packet slot to the received queue.
fn push_received(q: &mut IpcQueues, mask: u16, slot: u16)
    requires
        old(q).wf(mask),
    ensures
        final(q).wf(mask),
        final(q).received_queue_index == (old(q).received_queue_index + 1) % 0x1_0000_0000,
        final(q).received@ == old(q).received@.update((old(q).received_queue_index as u16 & mask) as int, slot),
        final(q).packets == old(q).packets,
        final(q).free_ranges == old(q).free_ranges,
        final(q).transmit == old(q).transmit,
        final(q).free == old(q).free,
        final(q).transmit_queue_index == old(q).transmit_queue_index,
        final(q).free_packets_queue_index == old(q).free_packets_queue_index,
{
    let i = q.received_queue_index;
    let at = (i as u16 & mask) as usize;
    proof {
        let m = mask;
        let x = i as u16;
        assert(x & m <= m) by (bit_vector);
    }
    q.received.set(at, slot);
    q.received_queue_index = i.wrapping_add(1);
}

/// The index of the alive task with the given ID, if any.
fn alive_index(tasks: &Arena<Task>, id: TaskID) -> (r: Option<usize>)
    ensures
        r is Some <==> alive(tasks@, id.0),
        r matches Some(i) ==> i == id.0,
{
    let index = id.0 as usize;
    match tasks.get(index) {
        Some(t) => {
            if t.flags.is_set(StateFlags::DEAD) {
                None
            } else {
                Some(index)
            }
        },
        None => None,
    }
}

/// The number of pages that `len` bytes take.
pub open spec fn pages_for(len: int) -> u64 {
    ((len + 4095) / 4096) as u64
}

/// Taking the range for a packet's `address` (of `len` bytes) from the free ranges `ranges`:
/// the free ranges afterwards and the outcome, which is nothing for no address, the sender's
/// page, the receiver's page and the number of pages, or a failure if the address is not a
/// page, no free range is large enough or the range taken does not start at a page.
pub open spec fn take_range(ranges: Seq<FreePage>, address: Option<u64>, len: int) -> (Seq<FreePage>, Result<Option<(u64, u64, u64)>, ()>) {
    match address {
        None => (ranges, Ok(None)),
        Some(a) => {
            let count = pages_for(len);
            if a == 0 || a % 4096 != 0 {
                (ranges, Err(()))
            } else {
                match first_fitting(ranges, count) {
                    None => (ranges, Err(())),
                    Some(k) => {
                        let e = ranges[k];
                        let after = ranges.update(k, FreePage { address: e.address, count: (e.count - count) as u64 });
                        match taken_page(e, count) {
                            None => (after, Err(())),
                            Some(p) => (after, Ok(Some((a, p, count)))),
                        }
                    },
                }
            }
        },
    }
}

/// The pages of a mapped range as addresses.
pub open spec fn range_addresses(r: Result<Option<(Page, Page, u64)>, ()>) -> Result<Option<(u64, u64, u64)>, ()> {
    match r {
        Ok(Some((tx, rx, count))) => Ok(Some((tx@, rx@, count))),
        Ok(None) => Ok(None),
        Err(()) => Err(()),
    }
}

/// The pages of a range named in a packet: the sender's first page, the receiver's first page
/// (taken from its free ranges) and the number of pages. Fails if the address is not a page or
/// no free range is large enough.
fn map_range(queues: &mut IpcQueues, address: Option<u64>, len: usize) -> (r: Result<Option<(Page, Page, u64)>, ()>)
    requires
        len <= u32::MAX,
    ensures
        (final(queues).free_ranges@, range_addresses(r)) == take_range(old(queues).free_ranges@, address, len as int),
        final(queues).free_ranges_list_size == old(queues).free_ranges_list_size,
        final(queues).packets == old(queues).packets,
        final(queues).transmit == old(queues).transmit,
        final(queues).received == old(queues).received,
        final(queues).free == old(queues).free,
        final(queues).transmit_queue_index == old(queues).transmit_queue_index,
        final(queues).received_queue_index == old(queues).received_queue_index,
        final(queues).free_packets_queue_index == old(queues).free_packets_queue_index,
        final(queues).free_ranges@.len() == old(queues).free_ranges@.len(),
        address is None ==> (r matches Ok(None) && final(queues).free_ranges == old(queues).free_ranges),
        r matches Ok(Some((tx, rx, count))) ==> (address == Some(tx@) && count == (len + 4095) / 4096),
        address is Some && r is Ok ==> r->Ok_0 is Some,
{
    match address {
        None => Ok(None),
        Some(a) => {
            if a == 0 {
                return Err(());
            }
            let page = match Page::new(a) {
                Ok(p) => p,
                Err(_) => return Err(()),
            };
            let count: u64 = (len as u64 + 4095) / 4096;
            match IPC::take_free_range(queues, count) {
                Some(range) => Ok(Some((page, range, count))),
                None => Err(()),
            }
        },
    }
}

/// Whether the receiver's page `k` from `rx` maps, shared and user-accessible with access
/// `rwx`, the frame that the sender's page `k` from `tx` maps.
pub open spec fn shares_page(receiver: Sv39, sender: Sv39, tx: u64, rx: u64, k: int, rwx: RWX) -> bool {
    &&& tx + k * 4096 <= u64::MAX
    &&& rx + k * 4096 <= u64::MAX
    &&& (translation(sender.mapping(page_at(tx, k))) matches Some((p, _)) && receiver.mapping(page_at(rx, k))
        == Some(leaf_entry(p, rwx, true, false, true)))
}

/// Why sharing stops at page `k`: the sender's or the receiver's page does not exist, the
/// sender's page is not mapped, the receiver's page is mapped already or blocked, or the
/// receiver has no table left to map it.
pub open spec fn share_stops(receiver_before: Sv39, receiver: Sv39, sender: Sv39, tx: u64, rx: u64, k: int) -> bool {
    ||| tx + k * 4096 > u64::MAX
    ||| rx + k * 4096 > u64::MAX
    ||| translation(sender.mapping(page_at(tx, k))) is None
    ||| receiver.mapping(page_at(rx, k)) is Some
    ||| receiver_before.blocked(page_at(rx, k))
    ||| receiver.l1_view().len() >= receiver.max_tables_spec()
    ||| receiver.l0_view().len() >= receiver.max_tables_spec()
}

/// Sharing `count` pages from `tx` in `from` at `rx` in a receiver went up to page `n`: the
/// pages before it are shared, it stops at `n` for a reason that `share_stops` gives (unless all
/// pages were shared), and the receiver's other pages are as `before`.
#[verifier::opaque]
pub open spec fn shared_up_to(before: Sv39, after: Sv39, from: Sv39, tx: u64, rx: u64, count: u64, rwx: RWX, n: int) -> bool {
    &&& 0 <= n <= count
    &&& forall|k: int| 0 <= k < n ==> #[trigger] shares_page(after, from, tx, rx, k, rwx)
    &&& n < count ==> share_stops(before, after, from, tx, rx, n)
    &&& forall|a: u64|
        (forall|k: int| 0 <= k < n ==> !same_page(a, #[trigger] page_at(rx, k))) ==> #[trigger] after.mapping(a)
            == before.mapping(a)
}

/// Map `count` pages of the sender from `tx` at `rx` in the receiver, as shared pages with the
/// given access. It stops at the first page that cannot be shared.
fn share_pages(tasks: &mut Arena<Task>, sender: usize, receiver: usize, tx: Page, rx: Page, count: u64, rwx: RWX)
    requires
        table_wf(old(tasks)@),
        sender < old(tasks)@.len(),
        old(tasks)@[sender as int] is Some,
        receiver < old(tasks)@.len(),
        old(tasks)@[receiver as int] is Some,
    ensures
        table_wf(final(tasks)@),
        final(tasks).max() == old(tasks).max(),
        final(tasks)@.len() == old(tasks)@.len(),
        forall|i: int| 0 <= i < old(tasks)@.len() && i != receiver ==> #[trigger] final(tasks)@[i] == old(tasks)@[i],
        final(tasks)@[receiver as int] is Some,
        received_of(final(tasks)@[receiver as int]) == received_of(old(tasks)@[receiver as int]),
        final(tasks)@[receiver as int]->0.ipc == old(tasks)@[receiver as int]->0.ipc,
        transmit_side(final(tasks)@[receiver as int]->0) == transmit_side(old(tasks)@[receiver as int]->0),
        final(tasks)@[receiver as int]->0.flags == old(tasks)@[receiver as int]->0.flags,
        final(tasks)@[receiver as int]->0.wait_time == old(tasks)@[receiver as int]->0.wait_time,
        final(tasks)@[receiver as int] == Some(
            Task { virtual_memory: final(tasks)@[receiver as int]->0.virtual_memory, ..old(tasks)@[receiver as int]->0 },
        ),
        ({
            let before = old(tasks)@[receiver as int]->0.virtual_memory;
            let after = final(tasks)@[receiver as int]->0.virtual_memory;
            let from = final(tasks)@[sender as int]->0.virtual_memory;
            exists|n: int| #[trigger] shared_up_to(before, after, from, tx@, rx@, count, rwx, n)
        }),
        forall|a: u64| #[trigger] final(tasks)@[receiver as int]->0.virtual_memory.blocked(a)
            == old(tasks)@[receiver as int]->0.virtual_memory.blocked(a),
{
    let ghost r0 = old(tasks)@[receiver as int]->0.virtual_memory;
    let mut i: u64 = 0;
    while i < count
        invariant_except_break
            i <= count,
        invariant
            received_of(tasks@[receiver as int]) == received_of(old(tasks)@[receiver as int]),
            table_wf(tasks@),
            tasks.max() == old(tasks).max(),
            tasks@.len() == old(tasks)@.len(),
            sender < tasks@.len(),
            tasks@[sender as int] is Some,
            receiver < tasks@.len(),
            tasks@[receiver as int] is Some,
            forall|j: int| 0 <= j < old(tasks)@.len() && j != receiver ==> #[trigger] tasks@[j] == old(tasks)@[j],
            tasks@[receiver as int]->0.ipc == old(tasks)@[receiver as int]->0.ipc,
            tasks@[receiver as int]->0.flags == old(tasks)@[receiver as int]->0.flags,
            tasks@[receiver as int]->0.wait_time == old(tasks)@[receiver as int]->0.wait_time,
            r0 == old(tasks)@[receiver as int]->0.virtual_memory,
            tasks@[receiver as int] == Some(
                Task { virtual_memory: tasks@[receiver as int]->0.virtual_memory, ..old(tasks)@[receiver as int]->0 },
            ),
            forall|k: int| 0 <= k < i ==> #[trigger] shares_page(
                tasks@[receiver as int]->0.virtual_memory,
                tasks@[sender as int]->0.virtual_memory,
                tx@,
                rx@,
                k,
                rwx,
            ),
            forall|a: u64|
                (forall|k: int| 0 <= k < i ==> !same_page(a, #[trigger] page_at(rx@, k)))
                    ==> #[trigger] tasks@[receiver as int]->0.virtual_memory.mapping(a) == r0.mapping(a),
            forall|a: u64| #[trigger] tasks@[receiver as int]->0.virtual_memory.blocked(a) == r0.blocked(a),
        ensures
            i <= count,
            i < count ==> share_stops(
                r0,
                tasks@[receiver as int]->0.virtual_memory,
                tasks@[sender as int]->0.virtual_memory,
                tx@,
                rx@,
                i as int,
            ),
        decreases count - i,
    {
        let from = match tx.skip(i) {
            Some(p) => p,
            None => break,
        };
        let to = match rx.skip(i) {
            Some(p) => p,
            None => break,
        };
        let ppn = match tasks.get(sender).unwrap().virtual_memory.get(from.as_ptr()) {
            Some((p, _)) => p,
            None => break,
        };
        let ghost before = tasks@;
        let t = tasks.get_mut(receiver).unwrap();
        let r = t.virtual_memory.add_shared(to, SharedPPN::from_raw(ppn), rwx, true, false);
        proof {
            assert forall|j: int| 0 <= j < tasks@.len() && #[trigger] tasks@[j] is Some implies tasks@[j]->0.virtual_memory.wf()
                && ipc_wf(tasks@[j]->0) by {
                if j != receiver {
                    assert(tasks@[j] == before[j]);
                }
            }
            let rb = before[receiver as int]->0.virtual_memory;
            let ra = tasks@[receiver as int]->0.virtual_memory;
            let sb = before[sender as int]->0.virtual_memory;
            let sa = tasks@[sender as int]->0.virtual_memory;
            assert(sb.mapping(page_at(tx@, i as int)) is Some);
            assert forall|a: u64| sb.mapping(a) is Some implies #[trigger] sa.mapping(a) == sb.mapping(a) by {
                if sender == receiver {
                    assert(ra.mapping(a) == rb.mapping(a));
                } else {
                    assert(tasks@[sender as int] == before[sender as int]);
                }
            }
            assert forall|k: int| 0 <= k < i implies #[trigger] shares_page(ra, sa, tx@, rx@, k, rwx) by {
                assert(shares_page(rb, sb, tx@, rx@, k, rwx));
                assert(rb.mapping(page_at(rx@, k)) is Some);
                assert(sb.mapping(page_at(tx@, k)) is Some);
            }
            if r.is_ok() {
                assert(shares_page(ra, sa, tx@, rx@, i as int, rwx));
                assert forall|a: u64|
                    (forall|k: int| 0 <= k < i + 1 ==> !same_page(a, #[trigger] page_at(rx@, k)))
                        implies #[trigger] ra.mapping(a) == r0.mapping(a) by {
                    assert(!same_page(a, page_at(rx@, i as int)));
                }
            }
        }
        if r.is_err() {
            break;
        }
        i = i + 1;
    }
    reveal(shared_up_to);
    assert(shared_up_to(
        r0,
        tasks@[receiver as int]->0.virtual_memory,
        tasks@[sender as int]->0.virtual_memory,
        tx@,
        rx@,
        count,
        rwx,
        i as int,
    ));
}

/// What delivering packets reads and changes of a task: whether it is alive, its IPC state and
/// area, and its wait time.
pub ghost struct IpcView {
    pub alive: bool,
    pub base: Option<u64>,
    pub mask: u16,
    pub last_transmit: u16,
    pub last_free: u16,
    pub packets: Seq<Packet>,
    pub free_ranges: Seq<FreePage>,
    pub transmit: Seq<u16>,
    pub received: Seq<u16>,
    pub free: Seq<u16>,
    pub transmit_index: u32,
    pub received_index: u32,
    pub free_index: u32,
    pub wait_time: u64,
}

/// The view of a task for IPC.
pub open spec fn ipc_view(t: Task) -> IpcView {
    IpcView {
        alive: t.flags.0 & StateFlags::DEAD == 0,
        base: t.ipc.base,
        mask: t.ipc.ring_mask,
        last_transmit: t.ipc.last_transmit_index,
        last_free: t.ipc.last_free_index,
        packets: t.ipc.queues.packets@,
        free_ranges: t.ipc.queues.free_ranges@,
        transmit: t.ipc.queues.transmit@,
        received: t.ipc.queues.received@,
        free: t.ipc.queues.free@,
        transmit_index: t.ipc.queues.transmit_queue_index,
        received_index: t.ipc.queues.received_queue_index,
        free_index: t.ipc.queues.free_packets_queue_index,
        wait_time: t.wait_time,
    }
}

/// The IPC views of a task table.
pub open spec fn ipc_views(tasks: Seq<Option<Task>>) -> Seq<Option<IpcView>> {
    Seq::new(
        tasks.len(),
        |i: int|
            match tasks[i] {
                Some(t) => Some(ipc_view(t)),
                None => None,
            },
    )
}

proof fn lemma_ipc_views_update(tasks: Seq<Option<Task>>, i: int, t: Task)
    requires
        0 <= i < tasks.len(),
    ensures
        ipc_views(tasks.update(i, Some(t))) == ipc_views(tasks).update(i, Some(ipc_view(t))),
{
    assert(ipc_views(tasks.update(i, Some(t))) =~= ipc_views(tasks).update(i, Some(ipc_view(t))));
}

/// A view with a slot appended to the received queue.
pub open spec fn push_received_view(v: IpcView, slot: u16) -> IpcView {
    IpcView {
        received: v.received.update((v.received_index as u16 & v.mask) as int, slot),
        received_index: ((v.received_index + 1) % 0x1_0000_0000) as u32,
        ..v
    }
}

/// The packet a receiver gets for `pkt` from the task with address `from`, with the data and
/// name (if any) at the given pages of the receiver.
pub open spec fn received_packet(pkt: Packet, from: TaskID, data: Option<(u64, u64, u64)>, name: Option<(u64, u64, u64)>) -> Packet {
    Packet {
        data: match data {
            Some(d) => Some(d.1),
            None => None,
        },
        name: match name {
            Some(n) => Some(n.1),
            None => None,
        },
        data_offset: pkt.data_offset,
        data_length: pkt.data_length,
        address: from,
        flags_user: pkt.flags_user,
        flags_kernel: pkt.flags_kernel,
        name_length: pkt.name_length,
        id: pkt.id,
    }
}

/// Delivering `pkt` from the task with address `from` to the task it names, on IPC views: the
/// views afterwards and whether it was delivered. It fails, changing nothing, if the receiver
/// is not alive, has no IPC area or no free packet slot (or the slot is out of range); the free
/// packets queue is read at the last free index within the ring's mask. Else the
/// slot is taken; then the data's and the name's ranges are taken from the receiver's free
/// ranges, and if either fails, that is all. Else the packet is filled in, its slot appended to
/// the receiver's received queue, and the receiver's wait time cleared.
#[verifier::opaque]
pub open spec fn deliver_view(views: Seq<Option<IpcView>>, from: TaskID, pkt: Packet) -> (Seq<Option<IpcView>>, bool) {
    let d = pkt.address.0 as int;
    if !(d < views.len() && views[d] is Some && views[d]->0.alive) {
        (views, false)
    } else {
        let v = views[d]->0;
        let slot = v.free[(v.last_free & v.mask) as int];
        if v.base is None || v.free_index as u16 == v.last_free || slot > v.mask {
            (views, false)
        } else {
            let (ranges1, data) = take_range(v.free_ranges, pkt.data, pkt.data_length as int);
            let v1 = IpcView { last_free: ((v.last_free + 1) % 0x1_0000) as u16, free_ranges: ranges1, ..v };
            if data is Err {
                (views.update(d, Some(v1)), false)
            } else {
                let (ranges2, name) = take_range(ranges1, pkt.name, pkt.name_length as int);
                let v2 = IpcView { free_ranges: ranges2, ..v1 };
                if name is Err {
                    (views.update(d, Some(v2)), false)
                } else {
                    let p = received_packet(pkt, from, data->Ok_0, name->Ok_0);
                    let v3 = push_received_view(IpcView { packets: v2.packets.update(slot as int, p), wait_time: 0, ..v2 }, slot);
                    (views.update(d, Some(v3)), true)
                }
            }
        }
    }
}

/// Sharing the pages of `range` (the sender's first page, the receiver's first page and the
/// number of pages) with access `rwx` took the receiver's address space from `before` to
/// `after`, up to page `n`, as [`shared_up_to`] has it. The sender's address space is `sender`,
/// or `after` itself when the sender is the receiver (`same`). No range means no change.
pub open spec fn shares_range(
    before: Sv39,
    after: Sv39,
    sender: Sv39,
    same: bool,
    range: Option<(u64, u64, u64)>,
    rwx: RWX,
    n: int,
) -> bool {
    match range {
        None => after == before,
        Some((tx, rx, count)) => shared_up_to(before, after, if same { after } else { sender }, tx, rx, count, rwx, n),
    }
}

/// The receiver's address space went from `before` to `after` by sharing the data pages of a
/// delivered packet (read-write) and then its name pages (read-only) from the sender's.
#[verifier::opaque]
pub open spec fn delivered_vm(
    before: Sv39,
    after: Sv39,
    sender: Sv39,
    same: bool,
    data: Option<(u64, u64, u64)>,
    name: Option<(u64, u64, u64)>,
) -> bool {
    exists|mid: Sv39, n1: int, n2: int|
        #![trigger shares_range(before, mid, sender, same, data, RWX::RW, n1), shares_range(mid, after, sender, same, name, RWX::R, n2)]
        shares_range(before, mid, sender, same, data, RWX::RW, n1) && shares_range(mid, after, sender, same, name, RWX::R, n2)
}

/// The data and name ranges that delivering `pkt` to a receiver with the IPC view `v` takes
/// from its free ranges (none where the packet has no data or name, or taking it fails).
pub open spec fn delivery_ranges(v: IpcView, pkt: Packet) -> (Option<(u64, u64, u64)>, Option<(u64, u64, u64)>) {
    let (ranges1, data) = take_range(v.free_ranges, pkt.data, pkt.data_length as int);
    let (_, name) = take_range(ranges1, pkt.name, pkt.name_length as int);
    (
        match data {
            Ok(d) => d,
            Err(_) => None,
        },
        match name {
            Ok(n) => n,
            Err(_) => None,
        },
    )
}

/// Whether `p` is the packet a receiver gets for `pkt` from the task with address `from`: the
/// same but for the address, which is the sender's, and the data and name addresses, which are
/// in the receiver's address space (present where the sent ones are).
pub open spec fn received_as(p: Packet, pkt: Packet, from: TaskID) -> bool {
    &&& p.address == from
    &&& p.id == pkt.id
    &&& p.data_offset == pkt.data_offset
    &&& p.data_length == pkt.data_length
    &&& p.name_length == pkt.name_length
    &&& p.flags_user == pkt.flags_user
    &&& p.flags_kernel == pkt.flags_kernel
    &&& (p.data is Some <==> pkt.data is Some)
    &&& (p.name is Some <==> pkt.name is Some)
}

/// Deliver a packet from the task at `sender` (whose address is `slf_address`) to the task it
/// names: take a free packet slot of the receiver, the address ranges for the data and the
/// name, fill in the packet, put its slot in the receiver's received queue, make the receiver
/// runnable and share the data and name pages with it. Returns whether it was delivered.
fn deliver(tasks: &mut Arena<Task>, sender: usize, slf_address: TaskID, pkt: Packet) -> (r: bool)
    requires
        table_wf(old(tasks)@),
        sender < old(tasks)@.len(),
        old(tasks)@[sender as int] is Some,
    ensures
        table_wf(final(tasks)@),
        final(tasks).max() == old(tasks).max(),
        final(tasks)@.len() == old(tasks)@.len(),
        forall|i: int| 0 <= i < old(tasks)@.len() ==> (#[trigger] final(tasks)@[i] is Some <==> old(tasks)@[i] is Some),
        forall|i: int| 0 <= i < old(tasks)@.len() && i != pkt.address.0 ==> #[trigger] final(tasks)@[i] == old(tasks)@[i],
        forall|i: int| 0 <= i < old(tasks)@.len() && #[trigger] old(tasks)@[i] is Some ==> transmit_side(final(tasks)@[i]->0)
            == transmit_side(old(tasks)@[i]->0),
        (ipc_views(final(tasks)@), r) == deliver_view(ipc_views(old(tasks)@), slf_address, pkt),
        pkt.address.0 < old(tasks)@.len() && old(tasks)@[pkt.address.0 as int] is Some ==> {
            let before = old(tasks)@[pkt.address.0 as int]->0;
            let after = final(tasks)@[pkt.address.0 as int]->0;
            final(tasks)@[pkt.address.0 as int] == Some(
                Task { virtual_memory: after.virtual_memory, ipc: after.ipc, wait_time: after.wait_time, ..before },
            )
        },
        !r ==> forall|i: int| 0 <= i < old(tasks)@.len() ==> #[trigger] final(tasks)@[i] == old(tasks)@[i] || (
            final(tasks)@[i] is Some && final(tasks)@[i]->0.virtual_memory == old(tasks)@[i]->0.virtual_memory),
        r ==> {
            let d = pkt.address.0 as int;
            let ranges = delivery_ranges(ipc_view(old(tasks)@[d]->0), pkt);
            delivered_vm(
                old(tasks)@[d]->0.virtual_memory,
                final(tasks)@[d]->0.virtual_memory,
                old(tasks)@[sender as int]->0.virtual_memory,
                sender == d,
                ranges.0,
                ranges.1,
            )
        },
        !alive(old(tasks)@, pkt.address.0) ==> !r,
        alive(old(tasks)@, pkt.address.0) && old(tasks)@[pkt.address.0 as int]->0.ipc.base is None ==> !r,
        !r ==> received_total(final(tasks)@) == received_total(old(tasks)@),
        r ==> alive(old(tasks)@, pkt.address.0) && {
            let before = old(tasks)@[pkt.address.0 as int]->0;
            let after = final(tasks)@[pkt.address.0 as int]->0;
            &&& after.ipc.queues.received_queue_index == (before.ipc.queues.received_queue_index + 1) % 0x1_0000_0000
            &&& after.wait_time == 0
            &&& after.ipc.base == before.ipc.base
            &&& after.ipc.ring_mask == before.ipc.ring_mask
        },
        r ==> received_total(final(tasks)@) == received_total(old(tasks)@) - received_of(
            old(tasks)@[pkt.address.0 as int],
        ) + (received_of(old(tasks)@[pkt.address.0 as int]) + 1) % 0x1_0000_0000,
        r ==> {
            let before = old(tasks)@[pkt.address.0 as int]->0;
            let after = final(tasks)@[pkt.address.0 as int]->0;
            let slot = before.ipc.queues.free@[(before.ipc.last_free_index & before.ipc.ring_mask) as int];
            &&& slot <= before.ipc.ring_mask
            &&& after.ipc.last_free_index == (before.ipc.last_free_index + 1) % 0x1_0000
            &&& after.ipc.queues.received@ == before.ipc.queues.received@.update(
                (before.ipc.queues.received_queue_index as u16 & before.ipc.ring_mask) as int,
                slot,
            )
            &&& received_as(after.ipc.queues.packets@[slot as int], pkt, slf_address)
            &&& forall|j: int| 0 <= j < before.ipc.queues.packets@.len() && j != slot ==>
                #[trigger] after.ipc.queues.packets@[j] == before.ipc.queues.packets@[j]
        },
        pkt.address.0 < old(tasks)@.len() && old(tasks)@[pkt.address.0 as int] is Some ==> forall|j: int|
            0 <= j < old(tasks)@[pkt.address.0 as int]->0.ipc.queues.packets@.len() ==> {
                let p = #[trigger] final(tasks)@[pkt.address.0 as int]->0.ipc.queues.packets@[j];
                p == old(tasks)@[pkt.address.0 as int]->0.ipc.queues.packets@[j] || p.address == slf_address
            },
{
    let ghost views0 = ipc_views(tasks@);
    proof {
        reveal(deliver_view);
    }
    let dest = match alive_index(tasks, pkt.address) {
        Some(d) => d,
        None => {
            assert(!(pkt.address.0 < views0.len() && views0[pkt.address.0 as int] is Some
                && views0[pkt.address.0 as int]->0.alive));
            return false;
        },
    };
    let ghost t0 = tasks@;
    let ghost v0 = ipc_view(t0[dest as int]->0);
    assert(views0[dest as int] == Some(v0));
    let (rx_mask, index, rx_pkt_slot) = {
        let t = tasks.get(dest).unwrap();
        if t.ipc.base.is_none() {
            return false;
        }
        let rx_mask = t.ipc.ring_mask;
        let index = t.ipc.last_free_index;
        if t.ipc.queues.free_packets_queue_index as u16 == index {
            return false;
        }
        proof {
            let m = rx_mask;
            let x = index;
            assert(x & m <= m) by (bit_vector);
        }
        let rx_pkt_slot = t.ipc.queues.free[(index & rx_mask) as usize];
        if rx_pkt_slot > rx_mask {
            return false;
        }
        (rx_mask, index, rx_pkt_slot)
    };
    // Take the packet slot and the address range of the data.
    let data_res = {
        let t = tasks.get_mut(dest).unwrap();
        t.ipc.last_free_index = index.wrapping_add(1);
        map_range(&mut t.ipc.queues, pkt.data, pkt.data_length as usize)
    };
    let ghost v1 = IpcView {
        last_free: ((v0.last_free + 1) % 0x1_0000) as u16,
        free_ranges: take_range(v0.free_ranges, pkt.data, pkt.data_length as int).0,
        ..v0
    };
    proof {
        lemma_keeps_table(t0, dest as int, tasks@);
        lemma_ipc_views_update(t0, dest as int, tasks@[dest as int]->0);
        assert(ipc_view(tasks@[dest as int]->0) == v1);
    }
    let data = match data_res {
        Ok(d) => d,
        Err(()) => return false,
    };
    // Take the address range of the name.
    let ghost t1 = tasks@;
    let name_res = {
        let t = tasks.get_mut(dest).unwrap();
        map_range(&mut t.ipc.queues, pkt.name, pkt.name_length as usize)
    };
    let ghost v2 = IpcView { free_ranges: take_range(v1.free_ranges, pkt.name, pkt.name_length as int).0, ..v1 };
    proof {
        lemma_keeps_table(t1, dest as int, tasks@);
        lemma_ipc_views_update(t1, dest as int, tasks@[dest as int]->0);
        assert(ipc_view(tasks@[dest as int]->0) == v2);
        assert(views0.update(dest as int, Some(v1)).update(dest as int, Some(v2)) == views0.update(dest as int, Some(v2)));
    }
    let name = match name_res {
        Ok(n) => n,
        Err(()) => return false,
    };
    // Fill out the packet and make it available.
    let ghost t2 = tasks@;
    let rx_pkt = Packet {
        data: match data {
            Some((_, p, _)) => Some(p.as_non_null_ptr()),
            None => None,
        },
        name: match name {
            Some((_, p, _)) => Some(p.as_non_null_ptr()),
            None => None,
        },
        data_offset: pkt.data_offset,
        data_length: pkt.data_length,
        address: slf_address,
        flags_user: pkt.flags_user,
        flags_kernel: pkt.flags_kernel,
        name_length: pkt.name_length,
        id: pkt.id,
    };
    assert(received_as(rx_pkt, pkt, slf_address));
    assert(rx_pkt == received_packet(
        pkt,
        slf_address,
        range_addresses(data_res)->Ok_0,
        range_addresses(name_res)->Ok_0,
    ));
    {
        let t = tasks.get_mut(dest).unwrap();
        t.ipc.queues.packets.set(rx_pkt_slot as usize, rx_pkt);
        push_received(&mut t.ipc.queues, rx_mask, rx_pkt_slot);
        // Clear the task's wait time so it will be rescheduled.
        t.wait_time = 0;
    }
    let ghost v3 = push_received_view(
        IpcView { packets: v2.packets.update(rx_pkt_slot as int, rx_pkt), wait_time: 0, ..v2 },
        rx_pkt_slot,
    );
    proof {
        lemma_keeps_table(t2, dest as int, tasks@);
        lemma_received_total_update(t2, dest as int, tasks@[dest as int]);
        lemma_ipc_views_update(t2, dest as int, tasks@[dest as int]->0);
        assert(ipc_view(tasks@[dest as int]->0) == v3);
        assert(views0.update(dest as int, Some(v2)).update(dest as int, Some(v3)) == views0.update(dest as int, Some(v3)));
        let b = t0[dest as int]->0;
        let m = t2[dest as int]->0;
        let a = tasks@[dest as int]->0;
        assert(m.ipc.queues.packets == b.ipc.queues.packets);
        assert(m.ipc.queues.received == b.ipc.queues.received);
        assert(m.ipc.queues.free == b.ipc.queues.free);
        assert(a.ipc.queues.packets@ == b.ipc.queues.packets@.update(rx_pkt_slot as int, rx_pkt));
    }
    let ghost t3 = tasks@;
    let ghost same = sender == dest;
    let ghost s0 = t0[sender as int]->0.virtual_memory;
    assert(t3[sender as int]->0.virtual_memory == s0 || same);
    let ghost dr = range_addresses(data_res)->Ok_0;
    let ghost nr = range_addresses(name_res)->Ok_0;
    match data {
        Some((tx, rx, count)) => share_pages(tasks, sender, dest, tx, rx, count, RWX::RW),
        None => {},
    }
    let ghost t4 = tasks@;
    proof {
        if data is Some {
            let (tx, rx, count) = data->0;
            let w = choose|n: int|
                shared_up_to(
                    t3[dest as int]->0.virtual_memory,
                    t4[dest as int]->0.virtual_memory,
                    t4[sender as int]->0.virtual_memory,
                    tx@,
                    rx@,
                    count,
                    RWX::RW,
                    n,
                );
            assert(shares_range(t3[dest as int]->0.virtual_memory, t4[dest as int]->0.virtual_memory, s0, same, dr, RWX::RW, w));
        } else {
            assert(shares_range(t3[dest as int]->0.virtual_memory, t4[dest as int]->0.virtual_memory, s0, same, dr, RWX::RW, 0));
        }
        assert(t4[sender as int]->0.virtual_memory == s0 || same);
    }
    match name {
        Some((tx, rx, count)) => share_pages(tasks, sender, dest, tx, rx, count, RWX::R),
        None => {},
    }
    proof {
        let t5 = tasks@;
        if name is Some {
            let (tx, rx, count) = name->0;
            let w = choose|n: int|
                shared_up_to(
                    t4[dest as int]->0.virtual_memory,
                    t5[dest as int]->0.virtual_memory,
                    t5[sender as int]->0.virtual_memory,
                    tx@,
                    rx@,
                    count,
                    RWX::R,
                    n,
                );
            assert(shares_range(t4[dest as int]->0.virtual_memory, t5[dest as int]->0.virtual_memory, s0, same, nr, RWX::R, w));
        } else {
            assert(shares_range(t4[dest as int]->0.virtual_memory, t5[dest as int]->0.virtual_memory, s0, same, nr, RWX::R, 0));
        }
        assert(delivery_ranges(v0, pkt) == (dr, nr));
        reveal(delivered_vm);
    }
    proof {
        lemma_received_total_update(t3, dest as int, tasks@[dest as int]);
        assert(tasks@ =~= t3.update(dest as int, tasks@[dest as int]));
        lemma_ipc_views_update(t3, dest as int, tasks@[dest as int]->0);
        assert(ipc_view(tasks@[dest as int]->0) == v3);
        assert(ipc_views(t3).update(dest as int, Some(v3)) == ipc_views(t3));
    }
    true
}

/// A table in which only the task at `i` changed, keeping its address space well-formed, its
/// IPC area matching its mask and its received index, is still well-formed and has the same
/// received total.
proof fn lemma_keeps_table(before: Seq<Option<Task>>, i: int, after: Seq<Option<Task>>)
    requires
        table_wf(before),
        0 <= i < before.len(),
        after.len() == before.len(),
        before[i] is Some,
        after[i] is Some,
        after[i]->0.virtual_memory.wf(),
        after[i]->0.id == before[i]->0.id,
        ipc_wf(after[i]->0),
        forall|j: int| 0 <= j < before.len() && j != i ==> #[trigger] after[j] == before[j],
    ensures
        table_wf(after),
        after == before.update(i, after[i]),
        received_of(after[i]) == received_of(before[i]) ==> received_total(after) == received_total(before),
{
    assert forall|j: int| 0 <= j < after.len() && #[trigger] after[j] is Some implies after[j]->0.virtual_memory.wf()
        && ipc_wf(after[j]->0) by {
        if j != i {
            assert(after[j] == before[j]);
        }
    }
    assert(after =~= before.update(i, after[i]));
    lemma_received_total_update(before, i, after[i]);
}

/// Whether the task at index `i` is one that processing the transmissions of the sender `s`
/// (whose address is `from`) may change: `from` itself, or a task that one of the sender's
/// packets names.
pub open spec fn named(s: Task, from: TaskID, i: int) -> bool {
    ||| i == from.0
    ||| exists|j: int| 0 <= j < s.ipc.queues.packets@.len() && #[trigger] s.ipc.queues.packets@[j].address.0 == i
}

/// Processing the transmit entries of the task at `sender` (whose address is `from`) from
/// `last` up to `tx`, on IPC views: each names a packet slot of the sender, whose packet is
/// delivered or, if that fails, whose slot is appended to the sender's own received queue.
/// Processing stops early at an entry that names no packet slot.
#[verifier::opaque]
pub open spec fn transmit_view(views: Seq<Option<IpcView>>, sender: int, from: TaskID, last: u16, tx: u16) -> Seq<Option<IpcView>>
    decreases (tx - last) % 0x1_0000,
{
    if last == tx {
        views
    } else {
        let s = views[sender]->0;
        let slot = s.transmit[(last & s.mask) as int];
        if slot > s.mask {
            views
        } else {
            let (after, delivered) = deliver_view(views, from, s.packets[slot as int]);
            let next = if delivered {
                after
            } else {
                after.update(sender, Some(push_received_view(after[sender]->0, slot)))
            };
            transmit_view(next, sender, from, ((last + 1) % 0x1_0000) as u16, tx)
        }
    }
}

/// Processing the transmissions of the task at `sender` (whose address is `from`) on IPC views:
/// nothing if it has no IPC area; else its transmit entries from the last processed one up to
/// the transmit queue's index, after which the last processed index is where that stopped.
pub open spec fn process_view(views: Seq<Option<IpcView>>, sender: int, from: TaskID) -> Seq<Option<IpcView>> {
    let s = views[sender]->0;
    if s.base is None {
        views
    } else {
        let tx = s.transmit_index as u16;
        let after = transmit_view(views, sender, from, s.last_transmit, tx);
        let stop = transmit_stop(s.transmit, s.mask, s.last_transmit, tx);
        after.update(sender, Some(IpcView { last_transmit: stop, ..after[sender]->0 }))
    }
}

/// Whether the task table went from `before` to `after` by delivering `pkt` from the task at
/// `sender` (whose address is `from`), with `delivered` telling whether it was: the IPC views
/// change as [`deliver_view`] has it; if delivered, the receiver's address space gets the
/// packet's data and name pages as [`delivered_vm`] has it; nothing else changes.
pub open spec fn delivery(
    before: Seq<Option<Task>>,
    after: Seq<Option<Task>>,
    sender: int,
    from: TaskID,
    pkt: Packet,
    delivered: bool,
) -> bool {
    let d = pkt.address.0 as int;
    &&& (ipc_views(after), delivered) == deliver_view(ipc_views(before), from, pkt)
    &&& after.len() == before.len()
    &&& forall|i: int| 0 <= i < before.len() && i != d ==> #[trigger] after[i] == before[i]
    &&& 0 <= d < before.len() ==> (after[d] is Some <==> before[d] is Some)
    &&& 0 <= d < before.len() && before[d] is Some ==> after[d] == Some(
        Task {
            virtual_memory: after[d]->0.virtual_memory,
            ipc: after[d]->0.ipc,
            wait_time: after[d]->0.wait_time,
            ..before[d]->0
        },
    )
    &&& delivered ==> delivered_vm(
        before[d]->0.virtual_memory,
        after[d]->0.virtual_memory,
        before[sender]->0.virtual_memory,
        sender == d,
        delivery_ranges(ipc_view(before[d]->0), pkt).0,
        delivery_ranges(ipc_view(before[d]->0), pkt).1,
    )
    &&& !delivered && 0 <= d < before.len() && before[d] is Some ==> after[d]->0.virtual_memory
        == before[d]->0.virtual_memory
}

/// Whether the task table went from `before` to `after` by putting `slot` back in the received
/// queue of the task at `sender`, changing nothing else.
pub open spec fn returned(before: Seq<Option<Task>>, after: Seq<Option<Task>>, sender: int, slot: u16) -> bool {
    &&& ipc_views(after) == ipc_views(before).update(sender, Some(push_received_view(ipc_view(before[sender]->0), slot)))
    &&& after.len() == before.len()
    &&& forall|i: int| 0 <= i < before.len() && i != sender ==> #[trigger] after[i] == before[i]
    &&& after[sender] == Some(Task { ipc: after[sender]->0.ipc, ..before[sender]->0 })
}

/// Whether the task table went from `before` to `after` by processing the transmit entries of
/// the task at `sender` (whose address is `from`) from `last` up to `tx`: for each entry, its
/// packet is delivered (see [`delivery`]) or, if that fails, its slot is returned to the
/// sender (see [`returned`]); processing stops early at an entry that names no packet slot.
#[verifier::opaque]
pub open spec fn transmitted(
    before: Seq<Option<Task>>,
    after: Seq<Option<Task>>,
    sender: int,
    from: TaskID,
    last: u16,
    tx: u16,
) -> bool
    decreases (tx - last) % 0x1_0000,
{
    if last == tx {
        after == before
    } else {
        let s = ipc_view(before[sender]->0);
        let slot = s.transmit[(last & s.mask) as int];
        if slot > s.mask {
            after == before
        } else {
            let pkt = s.packets[slot as int];
            exists|mid: Seq<Option<Task>>, mid2: Seq<Option<Task>>, ok: bool|
                #![trigger delivery(before, mid, sender, from, pkt, ok), returned(mid, mid2, sender, slot)]
                delivery(before, mid, sender, from, pkt, ok) && (if ok {
                    mid2 == mid
                } else {
                    returned(mid, mid2, sender, slot)
                }) && transmitted(mid2, after, sender, from, ((last + 1) % 0x1_0000) as u16, tx)
        }
    }
}

impl Task {
    /// Process the IPC packets the task at `sender` (whose address is `slf_address`) has
    /// queued for transmission: each is delivered to the task it names or, if that fails, put
    /// back in the sender's own received queue. Processing stops early at a transmit entry that
    /// names no packet slot.
    #[verifier::rlimit(40)]
    pub fn process_io(tasks: &mut Arena<Task>, sender: usize, slf_address: TaskID)
        requires
            table_wf(old(tasks)@),
            sender < old(tasks)@.len(),
            old(tasks)@[sender as int] is Some,
        ensures
            table_wf(final(tasks)@),
            final(tasks).max() == old(tasks).max(),
            final(tasks)@.len() == old(tasks)@.len(),
            forall|i: int| 0 <= i < old(tasks)@.len() ==> (#[trigger] final(tasks)@[i] is Some <==> old(tasks)@[i] is Some),
            ipc_views(final(tasks)@) == process_view(ipc_views(old(tasks)@), sender as int, slf_address),
            ({
                let s = old(tasks)@[sender as int]->0;
                let stop = transmit_stop(
                    s.ipc.queues.transmit@,
                    s.ipc.ring_mask,
                    s.ipc.last_transmit_index,
                    s.ipc.queues.transmit_queue_index as u16,
                );
                let processed = (stop - s.ipc.last_transmit_index) % 0x1_0000;
                &&& s.ipc.base is None ==> final(tasks)@ == old(tasks)@
                &&& s.ipc.base is Some ==> final(tasks)@[sender as int]->0.ipc.last_transmit_index == stop
                &&& s.ipc.base is Some ==> transmit_side(final(tasks)@[sender as int]->0) == (
                    s.ipc.base,
                    s.ipc.ring_mask,
                    stop,
                    s.ipc.queues.transmit@,
                    s.ipc.queues.transmit_queue_index,
                )
                &&& forall|i: int|
                    0 <= i < old(tasks)@.len() && i != sender && !named(s, slf_address, i)
                        ==> #[trigger] final(tasks)@[i] == old(tasks)@[i]
                &&& s.ipc.base is Some ==> (received_total(final(tasks)@) - received_total(old(tasks)@) - processed)
                    % 0x1_0000_0000 == 0
                &&& s.ipc.base is Some ==> exists|mid: Seq<Option<Task>>|
                    #[trigger] transmitted(
                        old(tasks)@,
                        mid,
                        sender as int,
                        slf_address,
                        s.ipc.last_transmit_index,
                        s.ipc.queues.transmit_queue_index as u16,
                    ) && final(tasks)@ == mid.update(
                        sender as int,
                        Some(
                            Task {
                                ipc: IPC { last_transmit_index: stop, ..mid[sender as int]->0.ipc },
                                ..mid[sender as int]->0
                            },
                        ),
                    )
            }),
    {
        let ghost s0 = tasks@[sender as int]->0;
        let ghost total0 = received_total(tasks@);
        let ghost views0 = ipc_views(tasks@);
        assert(views0[sender as int] == Some(ipc_view(s0)));
        let (mask, tx_index, last0) = {
            let s = tasks.get(sender).unwrap();
            if s.ipc.base.is_none() {
                return;
            }
            (s.ipc.ring_mask, s.ipc.queues.transmit_queue_index as u16, s.ipc.last_transmit_index)
        };
        let ghost stop = transmit_stop(s0.ipc.queues.transmit@, mask, last0, tx_index);
        let mut last = last0;
        let ghost mut done: int = 0;
        loop
            invariant
                table_wf(tasks@),
                tasks.max() == old(tasks).max(),
                tasks@.len() == old(tasks)@.len(),
                forall|i: int| 0 <= i < old(tasks)@.len() ==> (#[trigger] tasks@[i] is Some <==> old(tasks)@[i] is Some),
                sender < tasks@.len(),
                tasks@[sender as int] is Some,
                s0 == old(tasks)@[sender as int]->0,
                transmit_side(tasks@[sender as int]->0) == transmit_side(s0),
                mask == s0.ipc.ring_mask,
                tx_index == s0.ipc.queues.transmit_queue_index as u16,
                last0 == s0.ipc.last_transmit_index,
                s0.ipc.base is Some,
                transmit_stop(s0.ipc.queues.transmit@, mask, last, tx_index) == stop,
                0 <= done,
                done == (last - last0) % 0x1_0000,
                done + (tx_index - last) % 0x1_0000 == (tx_index - last0) % 0x1_0000,
                (received_total(tasks@) - total0 - done) % 0x1_0000_0000 == 0,
                total0 == received_total(old(tasks)@),
                views0 == ipc_views(old(tasks)@),
                forall|after: Seq<Option<Task>>|
                    #[trigger] transmitted(tasks@, after, sender as int, slf_address, last, tx_index) ==> transmitted(
                        old(tasks)@,
                        after,
                        sender as int,
                        slf_address,
                        last0,
                        tx_index,
                    ),
                transmit_view(ipc_views(tasks@), sender as int, slf_address, last, tx_index) == transmit_view(
                    views0,
                    sender as int,
                    slf_address,
                    last0,
                    tx_index,
                ),
                forall|i: int|
                    0 <= i < old(tasks)@.len() && i != sender && !named(s0, slf_address, i) ==> #[trigger] tasks@[i]
                        == old(tasks)@[i],
                tasks@[sender as int]->0.ipc.queues.packets@.len() == s0.ipc.queues.packets@.len(),
                forall|j: int|
                    0 <= j < s0.ipc.queues.packets@.len() ==> {
                        let p = #[trigger] tasks@[sender as int]->0.ipc.queues.packets@[j];
                        p == s0.ipc.queues.packets@[j] || p.address == slf_address
                    },
            ensures
                last == stop,
                transmitted(old(tasks)@, tasks@, sender as int, slf_address, last0, tx_index),
                ipc_views(tasks@) == transmit_view(views0, sender as int, slf_address, last0, tx_index),
                table_wf(tasks@),
                tasks.max() == old(tasks).max(),
                tasks@.len() == old(tasks)@.len(),
                forall|i: int| 0 <= i < old(tasks)@.len() ==> (#[trigger] tasks@[i] is Some <==> old(tasks)@[i] is Some),
                sender < tasks@.len(),
                tasks@[sender as int] is Some,
                done == (stop - last0) % 0x1_0000,
                (received_total(tasks@) - total0 - done) % 0x1_0000_0000 == 0,
                transmit_side(tasks@[sender as int]->0) == transmit_side(s0),
                forall|i: int|
                    0 <= i < old(tasks)@.len() && i != sender && !named(s0, slf_address, i) ==> #[trigger] tasks@[i]
                        == old(tasks)@[i],
            decreases (tx_index - last) % 0x1_0000,
        {
            if last == tx_index {
                proof {
                    reveal(transmit_view);
                    reveal(transmitted);
                    assert(transmitted(tasks@, tasks@, sender as int, slf_address, last, tx_index));
                }
                break;
            }
            let slot = (last & mask) as usize;
            let tx_pkt_slot = {
                let s = tasks.get(sender).unwrap();
                proof {
                    let m = mask;
                    let l = last;
                    assert(l & m <= m) by (bit_vector);
                }
                s.ipc.queues.transmit[slot]
            };
            let ghost views = ipc_views(tasks@);
            assert(views[sender as int] == Some(ipc_view(tasks@[sender as int]->0)));
            if tx_pkt_slot > mask {
                // Get stuck, so the problem is easier to spot.
                proof {
                    reveal(transmit_view);
                    reveal(transmitted);
                    assert(transmitted(tasks@, tasks@, sender as int, slf_address, last, tx_index));
                }
                break;
            }
            let pkt = tasks.get(sender).unwrap().ipc.queues.packets[tx_pkt_slot as usize];
            let ghost before = tasks@;
            proof {
                if pkt.address != slf_address {
                    assert(s0.ipc.queues.packets@[tx_pkt_slot as int].address.0 == pkt.address.0);
                }
                assert(named(s0, slf_address, pkt.address.0 as int));
            }
            let delivered = deliver(tasks, sender, slf_address, pkt);
            let ghost after_delivery = tasks@;
            proof {
                assert(pkt == ipc_view(before[sender as int]->0).packets[tx_pkt_slot as int]);
                assert(delivery(before, after_delivery, sender as int, slf_address, pkt, delivered));
            }
            if !delivered {
                // Mark the packet as undelivered and put it in the sender's received queue.
                let ghost mid = tasks@;
                {
                    let s = tasks.get_mut(sender).unwrap();
                    push_received(&mut s.ipc.queues, mask, tx_pkt_slot);
                }
                proof {
                    lemma_keeps_table(mid, sender as int, tasks@);
                    lemma_received_total_update(mid, sender as int, tasks@[sender as int]);
                    lemma_ipc_views_update(mid, sender as int, tasks@[sender as int]->0);
                    assert(ipc_views(mid)[sender as int] == Some(ipc_view(mid[sender as int]->0)));
                    assert(ipc_view(tasks@[sender as int]->0) == push_received_view(
                        ipc_view(mid[sender as int]->0),
                        tx_pkt_slot,
                    ));
                    assert(returned(mid, tasks@, sender as int, tx_pkt_slot));
                }
            }
            proof {
                let next = ((last + 1) % 0x1_0000) as u16;
                let now = tasks@;
                assert forall|after: Seq<Option<Task>>|
                    #[trigger] transmitted(now, after, sender as int, slf_address, next, tx_index) implies transmitted(
                        before,
                        after,
                        sender as int,
                        slf_address,
                        last,
                        tx_index,
                    ) by {
                    reveal(transmitted);
                    let _ = returned(after_delivery, now, sender as int, tx_pkt_slot);
                    assert(delivery(before, after_delivery, sender as int, slf_address, pkt, delivered));
                }
            }
            proof {
                done = done + 1;
                reveal(transmit_view);
                assert(transmit_view(views, sender as int, slf_address, last, tx_index) == transmit_view(
                    ipc_views(tasks@),
                    sender as int,
                    slf_address,
                    ((last + 1) % 0x1_0000) as u16,
                    tx_index,
                ));
            }
            last = last.wrapping_add(1);
        }
        let ghost mid = tasks@;
        {
            let s = tasks.get_mut(sender).unwrap();
            s.ipc.last_transmit_index = last;
        }
        proof {
            lemma_keeps_table(mid, sender as int, tasks@);
            lemma_ipc_views_update(mid, sender as int, tasks@[sender as int]->0);
            assert(ipc_views(mid)[sender as int] == Some(ipc_view(mid[sender as int]->0)));
            assert(tasks@ == mid.update(
                sender as int,
                Some(Task { ipc: IPC { last_transmit_index: stop, ..mid[sender as int]->0.ipc }, ..mid[sender as int]->0 }),
            ));
        }
    }
}

} // verus!
