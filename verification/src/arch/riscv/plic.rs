//! The RISC-V Platform Level Interrupt Controller (PLIC) and the reservation of interrupt
//! sources by tasks.
//!
//! The PLIC's registers are 32-bit words at fixed offsets from its base; they are modelled as a
//! store of words indexed by their offset in words (a register never written reads as zero).

use crate::task::Address;
use vstd::hash_map::HashMapWithView;
use vstd::prelude::*;

verus! {

// The offsets are expressed in words (u32s).
pub const OFFSET_PRIORITY: usize = 0x0000 / 4;

pub const OFFSET_PENDING_BITS: usize = 0x1000 / 4;

pub const OFFSET_ENABLE_BITS: usize = 0x2000 / 4;

pub const OFFSET_PRIORITY_THRESHOLDS: usize = 0x20_0000 / 4;

pub const OFFSET_CLAIM_COMPLETE: usize = 0x20_0004 / 4;

pub const STRIDE_ENABLE_BITS: usize = 0x80 / 4;

pub const STRIDE_PRIORITY_THRESHOLDS: usize = 0x1000 / 4;

pub const STRIDE_CLAIM_COMPLETE: usize = 0x1000 / 4;

/// The number of reservation slots (sources 1 to 1023).
pub const RESERVATION_SLOTS: usize = 1023;

/// The value of a free reservation slot.
pub const FREE_SLOT: u64 = 0xffff_ffff_ffff_ffff;

/// A RISC-V Platform Level Interrupt Controller.
pub struct PLIC {
    registers: HashMapWithView<usize, u32>,
}

/// Error returned if a source ID isn't valid.
#[derive(Clone, Copy, Debug, PartialEq, Eq)]
pub struct InvalidSource;

/// Error returned if a context ID isn't valid.
#[derive(Clone, Copy, Debug, PartialEq, Eq)]
pub struct InvalidContext;

/// Error returned if a context or source ID isn't valid.
#[derive(Clone, Copy, Debug, PartialEq, Eq)]
pub enum InvalidContextOrSource {
    InvalidSource,
    InvalidContext,
}

impl From<InvalidSource> for InvalidContextOrSource {
    fn from(_e: InvalidSource) -> (r: Self) {
        InvalidContextOrSource::InvalidSource
    }
}

impl vstd::std_specs::convert::FromSpecImpl<InvalidSource> for InvalidContextOrSource {
    open spec fn obeys_from_spec() -> bool {
        true
    }

    open spec fn from_spec(e: InvalidSource) -> InvalidContextOrSource {
        InvalidContextOrSource::InvalidSource
    }
}

impl From<InvalidContext> for InvalidContextOrSource {
    fn from(_e: InvalidContext) -> (r: Self) {
        InvalidContextOrSource::InvalidContext
    }
}

impl vstd::std_specs::convert::FromSpecImpl<InvalidContext> for InvalidContextOrSource {
    open spec fn obeys_from_spec() -> bool {
        true
    }

    open spec fn from_spec(e: InvalidContext) -> InvalidContextOrSource {
        InvalidContextOrSource::InvalidContext
    }
}

/// Error returned if an interrupt source could not be reserved.
#[derive(Clone, Copy, Debug, PartialEq, Eq)]
pub enum ReserveError {
    Occupied,
    NonExistent,
}

/// The value of the register at `index` in a register store.
pub open spec fn register(regs: Map<usize, u32>, index: int) -> u32 {
    if regs.contains_key(index as usize) { regs[index as usize] } else { 0 }
}

/// Whether a source exists, i.e. is below 1024.
pub open spec fn source_valid(source: u16) -> bool {
    source < 1024
}

/// Whether a context exists, i.e. is below 15872 (`0x3e00`).
pub open spec fn context_valid(context: u16) -> bool {
    context < 0x3e00
}

pub open spec fn priority_index(source: u16) -> int {
    OFFSET_PRIORITY + source
}

pub open spec fn pending_index(source: u16) -> int {
    OFFSET_PENDING_BITS + source / 32
}

pub open spec fn enable_index(context: u16, source: u16) -> int {
    OFFSET_ENABLE_BITS + context * STRIDE_ENABLE_BITS + source / 32
}

pub open spec fn threshold_index(context: u16) -> int {
    OFFSET_PRIORITY_THRESHOLDS + context * STRIDE_PRIORITY_THRESHOLDS
}

pub open spec fn claim_index(context: u16) -> int {
    OFFSET_CLAIM_COMPLETE + context * STRIDE_CLAIM_COMPLETE
}

/// `value` with bit `bit` set to `enable`.
pub open spec fn with_bit(value: u32, bit: u32, enable: bool) -> u32 {
    (value & !(1u32 << bit)) | ((if enable { 1u32 } else { 0u32 }) << bit)
}

impl PLIC {
    /// The register store.
    pub closed spec fn view(&self) -> Map<usize, u32> {
        self.registers@
    }

    /// A PLIC whose registers all read as zero.
    pub fn new() -> (r: Self)
        ensures
            r@ == Map::<usize, u32>::empty(),
    {
        broadcast use vstd::std_specs::hash::group_hash_axioms;
        PLIC { registers: HashMapWithView::new() }
    }

    /// Read the register at `index`.
    pub fn read(&self, index: usize) -> (r: u32)
        ensures
            r == register(self@, index as int),
    {
        match self.registers.get(&index) {
            Some(v) => *v,
            None => 0,
        }
    }

    /// Write the register at `index`.
    fn write(&mut self, index: usize, value: u32)
        ensures
            final(self)@ == old(self)@.insert(index, value),
    {
        self.registers.insert(index, value);
    }

    /// Ensure the source is in range, i.e. it is below 1024.
    fn source_in_range(source: u16) -> (r: Result<(), InvalidSource>)
        ensures
            r is Ok <==> source_valid(source),
    {
        if source < 1024 {
            Ok(())
        } else {
            Err(InvalidSource)
        }
    }

    /// Ensure the context is in range, i.e. it is below 15872 (`0x3e00`).
    fn context_in_range(context: u16) -> (r: Result<(), InvalidContext>)
        ensures
            r is Ok <==> context_valid(context),
    {
        if context < 0x3e00 {
            Ok(())
        } else {
            Err(InvalidContext)
        }
    }

    /// Split a source in a word offset and a bit offset.
    fn split_source(source: u16) -> (r: Result<(usize, u32), InvalidSource>)
        ensures
            r is Ok <==> source_valid(source),
            r matches Ok((offt, bit)) ==> offt == source / 32 && bit == source % 32,
    {
        Self::source_in_range(source)?;
        Ok(((source / 32) as usize, (source % 32) as u32))
    }

    /// Set the priority of an interrupt source.
    pub fn set_priority(&mut self, source: u16, priority: u32) -> (r: Result<(), InvalidSource>)
        requires
            source > 0,
        ensures
            r is Ok <==> source_valid(source),
            r is Ok ==> final(self)@ == old(self)@.insert(priority_index(source) as usize, priority),
            r is Err ==> final(self)@ == old(self)@,
    {
        Self::source_in_range(source)?;
        self.write(OFFSET_PRIORITY + source as usize, priority);
        Ok(())
    }

    /// Check if an interrupt is pending.
    pub fn check_pending(&self, source: u16) -> (r: Result<bool, InvalidSource>)
        requires
            source > 0,
        ensures
            r is Ok <==> source_valid(source),
            r matches Ok(p) ==> p == (register(self@, pending_index(source)) & (1u32 << (source % 32) as u32)
                > 0),
    {
        let (offt, bit) = Self::split_source(source)?;
        Ok(self.read(OFFSET_PENDING_BITS + offt) & (1u32 << bit) > 0)
    }

    /// Enable or disable an interrupt.
    pub fn enable(&mut self, context: u16, source: u16, enable: bool) -> (r: Result<(), InvalidContextOrSource>)
        requires
            source > 0,
        ensures
            !context_valid(context) ==> r == Err::<(), InvalidContextOrSource>(InvalidContextOrSource::InvalidContext),
            context_valid(context) && !source_valid(source) ==> r == Err::<(), InvalidContextOrSource>(
                InvalidContextOrSource::InvalidSource,
            ),
            r is Ok <==> context_valid(context) && source_valid(source),
            r is Ok ==> final(self)@ == old(self)@.insert(
                enable_index(context, source) as usize,
                with_bit(register(old(self)@, enable_index(context, source)), (source % 32) as u32, enable),
            ),
            r is Err ==> final(self)@ == old(self)@,
    {
        if context >= 0x3e00 {
            return Err(InvalidContextOrSource::InvalidContext);
        }
        let (offt, bit) = match Self::split_source(source) {
            Ok(x) => x,
            Err(_) => return Err(InvalidContextOrSource::InvalidSource),
        };
        let index = OFFSET_ENABLE_BITS + context as usize * STRIDE_ENABLE_BITS + offt;
        let val = self.read(index);
        let e: u32 = if enable { 1 } else { 0 };
        self.write(index, (val & !(1u32 << bit)) | (e << bit));
        Ok(())
    }

    /// Set the priority threshold of a context.
    pub fn set_priority_threshold(&mut self, context: u16, threshold: u32) -> (r: Result<(), InvalidContext>)
        ensures
            r is Ok <==> context_valid(context),
            r is Ok ==> final(self)@ == old(self)@.insert(threshold_index(context) as usize, threshold),
            r is Err ==> final(self)@ == old(self)@,
    {
        Self::context_in_range(context)?;
        self.write(OFFSET_PRIORITY_THRESHOLDS + context as usize * STRIDE_PRIORITY_THRESHOLDS, threshold);
        Ok(())
    }

    /// Claim an interrupt: the source in the claim register of the context, if any.
    pub fn claim(&self, context: u16) -> (r: Result<Option<u16>, InvalidContext>)
        requires
            context_valid(context) ==> register(self@, claim_index(context)) < 1024,
        ensures
            r is Ok <==> context_valid(context),
            r matches Ok(s) ==> (register(self@, claim_index(context)) == 0 <==> s is None),
            r matches Ok(Some(s)) ==> s == register(self@, claim_index(context)),
    {
        Self::context_in_range(context)?;
        let source = self.read(OFFSET_CLAIM_COMPLETE + context as usize * STRIDE_CLAIM_COMPLETE);
        if source == 0 {
            Ok(None)
        } else {
            Ok(Some(source as u16))
        }
    }

    /// Mark an interrupt as completed.
    pub fn complete(&mut self, context: u16, source: u16) -> (r: Result<(), InvalidContextOrSource>)
        requires
            source > 0,
        ensures
            !context_valid(context) ==> r == Err::<(), InvalidContextOrSource>(InvalidContextOrSource::InvalidContext),
            context_valid(context) && !source_valid(source) ==> r == Err::<(), InvalidContextOrSource>(
                InvalidContextOrSource::InvalidSource,
            ),
            r is Ok <==> context_valid(context) && source_valid(source),
            r is Ok ==> final(self)@ == old(self)@.insert(claim_index(context) as usize, source as u32),
            r is Err ==> final(self)@ == old(self)@,
    {
        if context >= 0x3e00 {
            return Err(InvalidContextOrSource::InvalidContext);
        }
        if source >= 1024 {
            return Err(InvalidContextOrSource::InvalidSource);
        }
        self.write(OFFSET_CLAIM_COMPLETE + context as usize * STRIDE_CLAIM_COMPLETE, source as u32);
        Ok(())
    }
}

/// Which task holds each interrupt source. Slot `i` stands for source `i + 1`.
pub struct Reservations {
    /// The total amount of available interrupt sources, excluding the non-existent source 0.
    total_sources: u16,
    /// The address of the task that reserved each source, or `FREE_SLOT`.
    slots: Vec<u64>,
}

impl Reservations {
    #[verifier::type_invariant]
    spec fn inv(self) -> bool {
        self.slots@.len() == RESERVATION_SLOTS && self.total_sources <= RESERVATION_SLOTS
    }

    /// The reservation slots.
    pub closed spec fn view(&self) -> Seq<u64> {
        self.slots@
    }

    /// The total amount of available interrupt sources.
    pub closed spec fn total_sources(&self) -> nat {
        self.total_sources as nat
    }

    /// The state before an interrupt controller is set: no sources, all slots zero.
    pub fn new() -> (r: Self)
        ensures
            r.total_sources() == 0,
            r@ == Seq::new(RESERVATION_SLOTS as nat, |i: int| 0u64),
    {
        let mut slots: Vec<u64> = Vec::new();
        let mut i: usize = 0;
        while i < RESERVATION_SLOTS
            invariant
                i <= RESERVATION_SLOTS,
                slots@ == Seq::new(i as nat, |j: int| 0u64),
            decreases RESERVATION_SLOTS - i,
        {
            slots.push(0);
            i = i + 1;
            assert(slots@ =~= Seq::new(i as nat, |j: int| 0u64));
        }
        Reservations { total_sources: 0, slots }
    }

    /// Set the number of interrupt sources of the controller and free every slot.
    pub fn set_controller(&mut self, max_devices: u16)
        requires
            max_devices <= RESERVATION_SLOTS,
        ensures
            final(self).total_sources() == max_devices,
            final(self)@ == Seq::new(RESERVATION_SLOTS as nat, |i: int| FREE_SLOT),
    {
        let mut slots: Vec<u64> = Vec::new();
        let mut i: usize = 0;
        while i < RESERVATION_SLOTS
            invariant
                i <= RESERVATION_SLOTS,
                slots@ == Seq::new(i as nat, |j: int| FREE_SLOT),
            decreases RESERVATION_SLOTS - i,
        {
            slots.push(FREE_SLOT);
            i = i + 1;
            assert(slots@ =~= Seq::new(i as nat, |j: int| FREE_SLOT));
        }
        *self = Reservations { total_sources: max_devices, slots };
    }
}

/// Reserve an interrupt source for the task at `address`, and enable it (priority 1) in the
/// supervisor context (1) of the controller, with priority threshold 0.
pub fn reserve(reservations: &mut Reservations, plic: &mut PLIC, source: u16, address: Address) -> (r: Result<(), ReserveError>)
    ensures
        final(reservations).total_sources() == old(reservations).total_sources(),
        source == 0 || source - 1 >= old(reservations).total_sources() ==> r == Err::<(), ReserveError>(
            ReserveError::NonExistent,
        ) && final(reservations)@ == old(reservations)@ && final(plic)@ == old(plic)@,
        source > 0 && source - 1 < old(reservations).total_sources() && old(reservations)@[source - 1] != FREE_SLOT
            ==> r == Err::<(), ReserveError>(ReserveError::Occupied) && final(reservations)@ == old(reservations)@
            && final(plic)@ == old(plic)@,
        source > 0 && source - 1 < old(reservations).total_sources() && old(reservations)@[source - 1] == FREE_SLOT
            ==> {
            &&& r is Ok
            &&& final(reservations)@ == old(reservations)@.update(source - 1, address.0)
            &&& final(plic)@ == old(plic)@.insert(
                enable_index(1, source) as usize,
                with_bit(register(old(plic)@, enable_index(1, source)), (source % 32) as u32, true),
            ).insert(priority_index(source) as usize, 1).insert(threshold_index(1) as usize, 0)
        },
{
    proof {
        use_type_invariant(&*reservations);
    }
    if source == 0 {
        return Err(ReserveError::NonExistent);
    }
    let slot = (source - 1) as usize;
    if slot >= reservations.total_sources as usize {
        return Err(ReserveError::NonExistent);
    }
    if reservations.slots[slot] != FREE_SLOT {
        return Err(ReserveError::Occupied);
    }
    let mut slots = reservations.slots.clone();
    assert(slots@ =~= reservations.slots@);
    slots.set(slot, address.0);
    *reservations = Reservations { total_sources: reservations.total_sources, slots };
    let _ = plic.enable(1, source, true);
    let _ = plic.set_priority(source, 1);
    let _ = plic.set_priority_threshold(1, 0);
    Ok(())
}


/// A source reserved for a task (whose address is not the free marker) cannot be reserved
/// again: the slot is no longer free.
pub proof fn lemma_reserve_twice(slots: Seq<u64>, slot: int, address: u64)
    requires
        0 <= slot < slots.len(),
        address != FREE_SLOT,
    ensures
        slots.update(slot, address)[slot] != FREE_SLOT,
{
}

/// The claim/complete register of a context is a register of its own: it is at byte
/// `0x20_0004 + 0x1000 * context`, different contexts have different ones, and it is none of
/// the priority-threshold registers of any context nor (for existing sources and contexts) a
/// priority, pending or enable register. So claiming reads only it, completing writes only it,
/// and setting a threshold leaves what a claim reads unchanged.
pub proof fn lemma_claim_register_apart(c: u16, d: u16, source: u16, regs: Map<usize, u32>, value: u32)
    ensures
        claim_index(c) * 4 == 0x20_0004 + 0x1000 * c,
        claim_index(c) == claim_index(d) ==> c == d,
        claim_index(c) != threshold_index(d),
        source_valid(source) ==> claim_index(c) != priority_index(source) && claim_index(c) != pending_index(source),
        source_valid(source) && context_valid(d) ==> claim_index(c) != enable_index(d, source),
        register(regs.insert(claim_index(c) as usize, value), threshold_index(d)) == register(regs, threshold_index(d)),
        register(regs.insert(threshold_index(d) as usize, value), claim_index(c)) == register(regs, claim_index(c)),
{
}

/// The registers follow the PLIC memory map (byte offsets): the priority of source `s` at
/// `4 * s`, its pending bit in the word at `0x1000 + 4 * (s / 32)`, its enable bit for context
/// `c` in the word at `0x2000 + 0x80 * c + 4 * (s / 32)`, and the threshold of context `c` at
/// `0x20_0000 + 0x1000 * c`; the threshold registers of different contexts differ.
pub proof fn lemma_plic_layout(c: u16, d: u16, source: u16)
    ensures
        priority_index(source) * 4 == 4 * source,
        pending_index(source) * 4 == 0x1000 + 4 * (source / 32),
        enable_index(c, source) * 4 == 0x2000 + 0x80 * c + 4 * (source / 32),
        threshold_index(c) * 4 == 0x20_0000 + 0x1000 * c,
        threshold_index(c) == threshold_index(d) ==> c == d,
{
}

} // verus!
