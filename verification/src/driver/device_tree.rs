//! Device trees: reading the flattened device tree blob (DTB), **version 17** (and by extension
//! version 16, which it is backwards compatible with).
//!
//! The blob is held as a byte slice. Reads beyond its end behave as if the blob were followed by
//! an end token and zero bytes, so a truncated blob ends the walk instead of reading past it. A
//! token that has no place where it is found makes the interpreter stop in the `Malformed`
//! state.

use crate::util::{
    be_u32, be_u64, cstr_at, cstr_end, cstr_end_exec, cstr_to_str, lemma_cstr_end_bounds, read_be_u32,
    read_be_u64, BigEndianU64,
};
use vstd::prelude::*;

verus! {

/// The magic value that must be present in every valid DTB.
pub const MAGIC: u32 = 0xd00dfeed;

/// The size of the DTB header in bytes.
pub const HEADER_SIZE: usize = 40;

pub const TOKEN_BEGIN_NODE: u32 = 0x1;

pub const TOKEN_END_NODE: u32 = 0x2;

pub const TOKEN_PROP: u32 = 0x3;

pub const TOKEN_NOP: u32 = 0x4;

pub const TOKEN_END: u32 = 0x9;

/// A device tree blob.
pub struct DeviceTree<'a> {
    blob: &'a [u8],
}

/// An enum representing possible errors that can occur while parsing a DTB.
#[derive(Clone, Copy, Debug, PartialEq, Eq)]
pub enum ParseDTBError {
    /// The magic doesn't match (i.e. it isn't `0xd00dfeed`)
    BadMagic(u32),
    /// The version is unsupported (i.e. it isn't either `16` or `17`)
    IncompatibleVersion(u32),
}

/// A reserved memory region entry.
#[derive(Clone, Copy, Debug, PartialEq, Eq)]
pub struct ReservedMemoryRegion {
    pub address: BigEndianU64,
    pub size: BigEndianU64,
}

/// Whether the interpreter is fresh, has started, has ended or met a malformed token.
#[derive(Clone, Copy, Debug, PartialEq, Eq)]
pub enum InterpreterState {
    NotStarted,
    Running,
    Ended,
    Malformed,
}

/// An interpreter that walks the tree in the structure block.
pub struct Interpreter<'a> {
    /// The whole blob.
    blob: &'a [u8],
    /// The byte offset of the current token.
    pc: usize,
    /// The byte offset of the strings block.
    strings: usize,
    state: InterpreterState,
}

/// The abstract state of an interpreter.
pub ghost struct InterpreterView {
    pub blob: Seq<u8>,
    pub pc: int,
    pub strings: int,
    pub state: InterpreterState,
}

/// The enumeration state of a node.
#[derive(Clone, Copy, Debug, PartialEq, Eq)]
pub enum NodeState {
    /// There are still properties left to iterate
    Properties,
    /// There are still child nodes left to iterate
    ChildNodes,
    /// There is nothing left to iterate
    Empty,
}

/// A single node of the tree. Its properties and child nodes are read through the interpreter
/// that returned it.
pub struct Node<'a> {
    /// The name of the node.
    pub name: &'a [u8],
    state: NodeState,
}

/// The abstract state of a node: its name and how far its enumeration has come.
pub ghost struct NodeView {
    pub name: Seq<u8>,
    pub state: NodeState,
}

/// A property of a node.
pub struct Property<'a> {
    /// The value of the property.
    pub value: &'a [u8],
    /// The name of the property.
    pub name: &'a [u8],
}

// ---------------------------------------------------------------------------------------------
// The meaning of the blob.
// ---------------------------------------------------------------------------------------------

/// `x`, or the end of the blob if `x` lies beyond it.
pub open spec fn clamp(s: Seq<u8>, x: int) -> int {
    if x <= s.len() { x } else { s.len() as int }
}

/// `n` rounded up to a multiple of four.
pub open spec fn align4(n: int) -> int {
    (n + 3) / 4 * 4
}

/// The 32-bit word at `off`, or zero beyond the end of the blob.
pub open spec fn word_at(s: Seq<u8>, off: int) -> u32 {
    if 0 <= off && off + 4 <= s.len() { be_u32(s, off) } else { 0 }
}

/// The header field at `off`, as a byte offset.
pub open spec fn header_field(s: Seq<u8>, off: int) -> u32 {
    be_u32(s, off)
}

/// The outcome of looking for the next node token from some offset, skipping `TOKEN_NOP`.
pub enum NodeScan {
    /// `TOKEN_BEGIN_NODE`, followed by the name at the given offset.
    Begin(int),
    /// `TOKEN_END_NODE`; the walk continues at the given offset.
    EndNode(int),
    /// `TOKEN_END` (or the end of the blob); the walk continues at the given offset.
    End(int),
    /// A token that cannot stand here; the walk stops at the given offset.
    Bad(int),
}

pub open spec fn node_scan(s: Seq<u8>, pc: int) -> NodeScan
    decreases s.len() - pc,
{
    if pc < 0 || pc + 4 > s.len() {
        NodeScan::End(s.len() as int)
    } else {
        let t = be_u32(s, pc);
        if t == TOKEN_NOP {
            node_scan(s, pc + 4)
        } else if t == TOKEN_BEGIN_NODE {
            NodeScan::Begin(pc + 4)
        } else if t == TOKEN_END_NODE {
            NodeScan::EndNode(pc + 4)
        } else if t == TOKEN_END {
            NodeScan::End(pc + 4)
        } else {
            NodeScan::Bad(pc + 4)
        }
    }
}

/// The outcome of looking for the next property token from some offset, skipping `TOKEN_NOP`.
pub enum PropScan {
    /// `TOKEN_BEGIN_NODE` or `TOKEN_END_NODE` at the given offset, which is left unread.
    Stop(int),
    /// `TOKEN_PROP`, followed by the property header at the given offset.
    Prop(int),
    /// `TOKEN_END` (or the end of the blob); the walk continues at the given offset.
    End(int),
    /// A token that cannot stand here; the walk stops at the given offset.
    Bad(int),
}

pub open spec fn prop_scan(s: Seq<u8>, pc: int) -> PropScan
    decreases s.len() - pc,
{
    if pc < 0 || pc + 4 > s.len() {
        PropScan::End(s.len() as int)
    } else {
        let t = be_u32(s, pc);
        if t == TOKEN_NOP {
            prop_scan(s, pc + 4)
        } else if t == TOKEN_BEGIN_NODE || t == TOKEN_END_NODE {
            PropScan::Stop(pc)
        } else if t == TOKEN_PROP {
            PropScan::Prop(pc + 4)
        } else if t == TOKEN_END {
            PropScan::End(pc + 4)
        } else {
            PropScan::Bad(pc + 4)
        }
    }
}

/// The interpreter state after a step that may have set it.
pub open spec fn next_state(state: InterpreterState, set: Option<InterpreterState>) -> InterpreterState {
    match set {
        Some(s) => s,
        None => state,
    }
}

/// Where the walk continues after the name of a node that starts at `q`.
pub open spec fn after_name(s: Seq<u8>, q: int) -> int {
    clamp(s, q + align4(cstr_end(s, q) - q + 1))
}

/// One node step from `pc`: the name of the node found (if any), the next offset and the
/// state the interpreter is put in (if it changes).
pub open spec fn node_step(s: Seq<u8>, pc: int) -> (Option<Seq<u8>>, int, Option<InterpreterState>) {
    match node_scan(s, pc) {
        NodeScan::Begin(q) => (Some(s.subrange(q, cstr_end(s, q))), after_name(s, q), None),
        NodeScan::EndNode(q) => (None, q, None),
        NodeScan::End(q) => (None, q, Some(InterpreterState::Ended)),
        NodeScan::Bad(q) => (None, q, Some(InterpreterState::Malformed)),
    }
}

/// The property whose header starts at `q`: its name, its value and where the walk continues.
pub open spec fn property_at(s: Seq<u8>, strings: int, q: int) -> (Seq<u8>, Seq<u8>, int) {
    let len = word_at(s, q);
    let q1 = clamp(s, q + 4);
    let name = word_at(s, q1);
    let q2 = clamp(s, q1 + 4);
    (cstr_at(s, strings + name), s.subrange(q2, clamp(s, q2 + len)), clamp(s, q2 + align4(len as int)))
}

/// One property step from `pc`: the property found as (name, value), if any, the next offset
/// and the state the interpreter is put in (if it changes).
pub open spec fn prop_step(s: Seq<u8>, strings: int, pc: int) -> (
    Option<(Seq<u8>, Seq<u8>)>,
    int,
    Option<InterpreterState>,
) {
    match prop_scan(s, pc) {
        PropScan::Stop(q) => (None, q, None),
        PropScan::Prop(q) => {
            let (name, value, next) = property_at(s, strings, q);
            (Some((name, value)), next, None)
        },
        PropScan::End(q) => (None, q, Some(InterpreterState::Ended)),
        PropScan::Bad(q) => (None, q, Some(InterpreterState::Malformed)),
    }
}

/// The reserved memory regions listed from byte offset `off`, as (address, size) pairs, up to the
/// terminating all-zero entry (or the end of the blob).
pub open spec fn reserved_regions(s: Seq<u8>, off: int) -> Seq<(u64, u64)>
    decreases s.len() - off,
{
    if off < 0 || off + 16 > s.len() || (be_u64(s, off) == 0 && be_u64(s, off + 8) == 0) {
        Seq::empty()
    } else {
        seq![(be_u64(s, off), be_u64(s, off + 8))] + reserved_regions(s, off + 16)
    }
}

/// Whether the entry `j` of the reservation block at `off` is the all-zero terminator.
pub open spec fn is_terminator(s: Seq<u8>, off: int, j: int) -> bool {
    be_u64(s, off + 16 * j) == 0 && be_u64(s, off + 16 * j + 8) == 0
}

/// Every entry of the memory reservation block before the all-zero terminator is listed, in
/// order: if the entries `0..=j` at `off` lie in the blob and none of them is the terminator,
/// the `j`-th region listed is the address and size of entry `j`.
pub proof fn lemma_reserved_regions_entry(s: Seq<u8>, off: int, j: int)
    requires
        0 <= off,
        0 <= j,
        off + 16 * (j + 1) <= s.len(),
        forall|i: int| 0 <= i <= j ==> !#[trigger] is_terminator(s, off, i),
    ensures
        reserved_regions(s, off).len() > j,
        reserved_regions(s, off)[j] == (be_u64(s, off + 16 * j), be_u64(s, off + 16 * j + 8)),
    decreases j,
{
    assert(!is_terminator(s, off, 0));
    if j > 0 {
        assert forall|i: int| 0 <= i <= j - 1 implies !#[trigger] is_terminator(s, off + 16, i) by {
            assert(!is_terminator(s, off, i + 1));
            assert(off + 16 * (i + 1) == off + 16 + 16 * i);
        }
        lemma_reserved_regions_entry(s, off + 16, j - 1);
        assert(off + 16 + 16 * (j - 1) == off + 16 * j);
    }
}

/// The list stops exactly at the terminator or at the end of the blob: if the entries before
/// entry `j` lie in the blob and are not the terminator, and entry `j` is the terminator or does
/// not fit in the blob, exactly `j` regions are listed.
pub proof fn lemma_reserved_regions_end(s: Seq<u8>, off: int, j: int)
    requires
        0 <= off,
        0 <= j,
        off + 16 * j <= s.len(),
        forall|i: int| 0 <= i < j ==> !#[trigger] is_terminator(s, off, i),
        off + 16 * (j + 1) > s.len() || is_terminator(s, off, j),
    ensures
        reserved_regions(s, off).len() == j,
    decreases j,
{
    if j > 0 {
        assert(!is_terminator(s, off, 0));
        assert forall|i: int| 0 <= i < j - 1 implies !#[trigger] is_terminator(s, off + 16, i) by {
            assert(!is_terminator(s, off, i + 1));
            assert(off + 16 * (i + 1) == off + 16 + 16 * i);
        }
        assert(off + 16 + 16 * (j - 1) == off + 16 * j);
        assert(is_terminator(s, off, j) ==> is_terminator(s, off + 16, j - 1));
        lemma_reserved_regions_end(s, off + 16, j - 1);
    } else {
        assert(off + 16 * 0 == off);
    }
}

pub proof fn lemma_node_scan_bounds(s: Seq<u8>, pc: int)
    requires
        0 <= pc <= s.len(),
    ensures
        match node_scan(s, pc) {
            NodeScan::Begin(q) => pc + 4 <= q <= s.len(),
            NodeScan::EndNode(q) => pc + 4 <= q <= s.len(),
            NodeScan::End(q) => pc <= q <= s.len(),
            NodeScan::Bad(q) => pc + 4 <= q <= s.len(),
        },
    decreases s.len() - pc,
{
    if pc + 4 <= s.len() && be_u32(s, pc) == TOKEN_NOP {
        lemma_node_scan_bounds(s, pc + 4);
    }
}

pub proof fn lemma_prop_scan_bounds(s: Seq<u8>, pc: int)
    requires
        0 <= pc <= s.len(),
    ensures
        match prop_scan(s, pc) {
            PropScan::Stop(q) => pc <= q && q + 4 <= s.len(),
            PropScan::Prop(q) => pc + 4 <= q <= s.len(),
            PropScan::End(q) => pc <= q <= s.len(),
            PropScan::Bad(q) => pc + 4 <= q <= s.len(),
        },
    decreases s.len() - pc,
{
    if pc + 4 <= s.len() && be_u32(s, pc) == TOKEN_NOP {
        lemma_prop_scan_bounds(s, pc + 4);
    }
}

// ---------------------------------------------------------------------------------------------
// The blob.
// ---------------------------------------------------------------------------------------------

impl<'a> DeviceTree<'a> {
    #[verifier::type_invariant]
    spec fn inv(self) -> bool {
        self.blob@.len() >= HEADER_SIZE
    }

    /// The bytes of the blob.
    pub closed spec fn view(&self) -> Seq<u8> {
        self.blob@
    }

    /// Parse the DTB held in `blob`: it is accepted if it starts with the magic number.
    pub fn parse_dtb(blob: &'a [u8]) -> (r: Result<Self, ParseDTBError>)
        requires
            blob@.len() >= HEADER_SIZE,
        ensures
            be_u32(blob@, 0) == MAGIC <==> r is Ok,
            r matches Ok(dt) ==> dt@ == blob@,
            r matches Err(e) ==> e == ParseDTBError::BadMagic(be_u32(blob@, 0)),
    {
        let magic = read_be_u32(blob, 0);
        if magic != MAGIC {
            return Err(ParseDTBError::BadMagic(magic));
        }
        Ok(DeviceTree { blob })
    }

    /// The physical ID of the boot CPU.
    pub fn boot_cpu_id(&self) -> (r: u32)
        ensures
            r == header_field(self@, 28),
    {
        proof {
            use_type_invariant(self);
        }
        read_be_u32(self.blob, 28)
    }

    /// All reserved memory regions, in the order in which the blob lists them.
    pub fn reserved_memory_regions(&self) -> (r: Vec<ReservedMemoryRegion>)
        ensures
            r@.len() == reserved_regions(self@, header_field(self@, 16) as int).len(),
            forall|i: int|
                0 <= i < r@.len() ==> (#[trigger] r@[i].address.get_spec(), r@[i].size.get_spec())
                    == reserved_regions(self@, header_field(self@, 16) as int)[i],
    {
        proof {
            use_type_invariant(self);
        }
        let s = self.blob;
        let start = read_be_u32(s, 16) as usize;
        let mut off = start;
        let mut out: Vec<ReservedMemoryRegion> = Vec::new();
        let ghost total = reserved_regions(s@, start as int);
        while off <= s.len() && s.len() - off >= 16
            invariant_except_break
                start <= off,
                (off - start) % 16 == 0,
                out@.len() == (off - start) / 16,
                total == reserved_regions(s@, start as int),
                total.len() >= out@.len(),
                reserved_regions(s@, off as int) == total.subrange(out@.len() as int, total.len() as int),
                forall|i: int|
                    0 <= i < out@.len() ==> (#[trigger] out@[i].address.get_spec(), out@[i].size.get_spec())
                        == total[i],
            ensures
                out@.len() == total.len(),
                forall|i: int|
                    0 <= i < out@.len() ==> (#[trigger] out@[i].address.get_spec(), out@[i].size.get_spec())
                        == total[i],
            decreases s@.len() - off,
        {
            let address = BigEndianU64::read(s, off);
            let size = BigEndianU64::read(s, off + 8);
            proof {
                lemma_be_u64_sub(s@, off as int);
                lemma_be_u64_sub(s@, off + 8);
            }
            if address.get() == 0 && size.get() == 0 {
                break;
            }
            let ghost rest = reserved_regions(s@, off + 16);
            let ghost k = out@.len() as int;
            let ghost entry = (be_u64(s@, off as int), be_u64(s@, off + 8));
            proof {
                assert(reserved_regions(s@, off as int) == seq![entry] + rest);
                assert(total.subrange(k, total.len() as int) == seq![entry] + rest);
                assert(total.subrange(k, total.len() as int)[0] == entry);
                assert(total[k] == entry);
                let sub = total.subrange(k, total.len() as int);
                assert(sub.len() == 1 + rest.len());
                assert forall|i: int| 0 <= i < rest.len() implies rest[i] == total[k + 1 + i] by {
                    assert((seq![entry] + rest)[i + 1] == rest[i]);
                    assert(sub[i + 1] == total[k + 1 + i]);
                }
                assert(rest =~= total.subrange(k + 1, total.len() as int));
            }
            out.push(ReservedMemoryRegion { address, size });
            off = off + 16;
        }
        out
    }

    /// A new interpreter positioned at the start of the structure block.
    pub fn interpreter(&self) -> (r: Interpreter<'a>)
        ensures
            r@.blob == self@,
            r@.pc == clamp(self@, header_field(self@, 8) as int),
            r@.strings == header_field(self@, 12),
            r@.state == InterpreterState::NotStarted,
    {
        proof {
            use_type_invariant(self);
        }
        let s = self.blob;
        let structure = read_be_u32(s, 8) as usize;
        let strings = read_be_u32(s, 12) as usize;
        let pc = if structure <= s.len() { structure } else { s.len() };
        Interpreter { blob: s, pc, strings, state: InterpreterState::NotStarted }
    }
}

impl BigEndianU64 {
    /// The value stored, as `get` returns it.
    pub open spec fn get_spec(self) -> u64 {
        be_u64(self@, 0)
    }
}

proof fn lemma_be_u64_sub(s: Seq<u8>, off: int)
    requires
        0 <= off,
        off + 8 <= s.len(),
    ensures
        be_u64(s.subrange(off, off + 8), 0) == be_u64(s, off),
{
    let t = s.subrange(off, off + 8);
    assert(t[0] == s[off] && t[1] == s[off + 1] && t[2] == s[off + 2] && t[3] == s[off + 3]);
    assert(t[4] == s[off + 4] && t[5] == s[off + 5] && t[6] == s[off + 6] && t[7] == s[off + 7]);
}

// ---------------------------------------------------------------------------------------------
// The interpreter.
// ---------------------------------------------------------------------------------------------

impl<'a> Interpreter<'a> {
    #[verifier::type_invariant]
    spec fn inv(self) -> bool {
        self.pc <= self.blob@.len()
    }

    pub closed spec fn view(&self) -> InterpreterView {
        InterpreterView {
            blob: self.blob@,
            pc: self.pc as int,
            strings: self.strings as int,
            state: self.state,
        }
    }

    /// The program counter never passes the end of the blob.
    fn pc_bounds(&self)
        ensures
            0 <= self@.pc <= self@.blob.len(),
    {
        proof {
            use_type_invariant(self);
        }
    }

    /// The state of the interpreter.
    pub fn state(&self) -> (r: InterpreterState)
        ensures
            r == self@.state,
    {
        self.state
    }

    /// Skip `TOKEN_NOP` until `TOKEN_BEGIN_NODE` is encountered, then return the node; returns
    /// `None` if `TOKEN_END` is encountered. Any other token must not come next.
    pub fn next_node(&mut self) -> (r: Option<Node<'a>>)
        requires
            node_scan(old(self)@.blob, old(self)@.pc) is Begin || node_scan(old(self)@.blob, old(self)@.pc) is End,
        ensures
            final(self)@.blob == old(self)@.blob,
            final(self)@.strings == old(self)@.strings,
            final(self)@.pc == node_step(old(self)@.blob, old(self)@.pc).1,
            final(self)@.state == next_state(old(self)@.state, node_step(old(self)@.blob, old(self)@.pc).2),
            r is Some <==> node_step(old(self)@.blob, old(self)@.pc).0 is Some,
            r matches Some(n) ==> n@.name == node_step(old(self)@.blob, old(self)@.pc).0->0
                && n@.state == NodeState::Properties,
    {
        self.step_node()
    }

    /// The token at the program counter (`TOKEN_END` beyond the end of the blob).
    fn current(&self) -> (r: u32)
        ensures
            r == (if self.pc + 4 <= self.blob@.len() { be_u32(self.blob@, self.pc as int) } else { TOKEN_END }),
    {
        proof {
            use_type_invariant(self);
        }
        if self.blob.len() - self.pc >= 4 {
            read_be_u32(self.blob, self.pc)
        } else {
            TOKEN_END
        }
    }

    /// The word at `off`, or zero beyond the end of the blob.
    fn word(&self, off: usize) -> (r: u32)
        ensures
            r == word_at(self.blob@, off as int),
    {
        if off <= self.blob.len() && self.blob.len() - off >= 4 {
            read_be_u32(self.blob, off)
        } else {
            0
        }
    }

    /// `off + n`, or the end of the blob if that lies beyond it.
    fn advance_from(&self, off: usize, n: u64) -> (r: usize)
        requires
            off <= self.blob@.len(),
        ensures
            r == clamp(self.blob@, off + n),
    {
        let rest = self.blob.len() - off;
        if n >= rest as u64 {
            self.blob.len()
        } else {
            off + n as usize
        }
    }

    /// Skip `TOKEN_NOP` until `TOKEN_BEGIN_NODE` is encountered, then return the [`Node`].
    ///
    /// Returns `None` on `TOKEN_END_NODE`, and also on `TOKEN_END`, after which the interpreter
    /// is in the `Ended` state. Any other token puts it in the `Malformed` state.
    fn step_node(&mut self) -> (r: Option<Node<'a>>)
        ensures
            final(self)@.blob == old(self)@.blob,
            final(self)@.strings == old(self)@.strings,
            final(self)@.pc == node_step(old(self)@.blob, old(self)@.pc).1,
            final(self)@.state == next_state(old(self)@.state, node_step(old(self)@.blob, old(self)@.pc).2),
            r is Some <==> node_step(old(self)@.blob, old(self)@.pc).0 is Some,
            r matches Some(n) ==> n@.name == node_step(old(self)@.blob, old(self)@.pc).0->0
                && n@.state == NodeState::Properties,
    {
        proof {
            use_type_invariant(&*self);
        }
        let ghost s = self.blob@;
        let ghost pc0 = self.pc as int;
        loop
            invariant
                self.blob@ == s,
                self.strings == old(self).strings,
                self.state == old(self).state,
                s == old(self).blob@,
                pc0 == old(self).pc,
                0 <= pc0 <= self.pc <= s.len(),
                node_scan(s, self.pc as int) == node_scan(s, pc0),
            decreases s.len() - self.pc,
        {
            let tk = self.current();
            if tk == TOKEN_END {
                let next = self.advance_from(self.pc, 4);
                self.pc = next;
                self.state = InterpreterState::Ended;
                return None;
            }
            let _n = self.blob.len();
            let next = self.pc + 4;
            if tk == TOKEN_BEGIN_NODE {
                let end = cstr_end_exec(self.blob, next);
                proof {
                    lemma_cstr_end_bounds(s, next as int);
                }
                let name = &self.blob[next..end];
                let align = ((end - next) as u64 + 4) / 4 * 4;
                let after = self.advance_from(next, align);
                self.pc = after;
                return Some(Node { name, state: NodeState::Properties });
            } else if tk == TOKEN_END_NODE {
                self.pc = next;
                return None;
            } else if tk == TOKEN_NOP {
                self.pc = next;
            } else {
                self.pc = next;
                self.state = InterpreterState::Malformed;
                return None;
            }
        }
    }

    /// Skip `TOKEN_NOP` until `TOKEN_PROP` is encountered, then return the [`Property`].
    ///
    /// Returns `None` if `TOKEN_BEGIN_NODE` or `TOKEN_END_NODE` is encountered (which is left
    /// for the next node step), and on `TOKEN_END`, after which the interpreter is in the
    /// `Ended` state. Any other token puts it in the `Malformed` state.
    fn step_property(&mut self) -> (r: Option<Property<'a>>)
        ensures
            final(self)@.blob == old(self)@.blob,
            final(self)@.strings == old(self)@.strings,
            final(self)@.pc == prop_step(old(self)@.blob, old(self)@.strings, old(self)@.pc).1,
            final(self)@.state == next_state(
                old(self)@.state,
                prop_step(old(self)@.blob, old(self)@.strings, old(self)@.pc).2,
            ),
            r is Some <==> prop_step(old(self)@.blob, old(self)@.strings, old(self)@.pc).0 is Some,
            r matches Some(p) ==> (p.name@, p.value@) == prop_step(
                old(self)@.blob,
                old(self)@.strings,
                old(self)@.pc,
            ).0->0,
    {
        proof {
            use_type_invariant(&*self);
        }
        let ghost s = self.blob@;
        let ghost pc0 = self.pc as int;
        loop
            invariant
                self.blob@ == s,
                self.strings == old(self).strings,
                self.state == old(self).state,
                s == old(self).blob@,
                pc0 == old(self).pc,
                0 <= pc0 <= self.pc <= s.len(),
                prop_scan(s, self.pc as int) == prop_scan(s, pc0),
            decreases s.len() - self.pc,
        {
            let tk = self.current();
            if tk == TOKEN_END {
                let next = self.advance_from(self.pc, 4);
                self.pc = next;
                self.state = InterpreterState::Ended;
                return None;
            }
            let _n = self.blob.len();
            let next = self.pc + 4;
            if tk == TOKEN_BEGIN_NODE || tk == TOKEN_END_NODE {
                return None;
            } else if tk == TOKEN_PROP {
                let len = self.word(next);
                let q1 = self.advance_from(next, 4);
                let name_offset = self.word(q1);
                let q2 = self.advance_from(q1, 4);
                let end = self.advance_from(q2, len as u64);
                let value = &self.blob[q2..end];
                let name = self.string_at(name_offset);
                let align = (len as u64 + 3) / 4 * 4;
                let after = self.advance_from(q2, align);
                self.pc = after;
                return Some(Property { name, value });
            } else if tk == TOKEN_NOP {
                self.pc = next;
            } else {
                self.pc = next;
                self.state = InterpreterState::Malformed;
                return None;
            }
        }
    }

    /// The null-terminated string at `offset` in the strings block.
    fn string_at(&self, offset: u32) -> (r: &'a [u8])
        ensures
            r@ == cstr_at(self.blob@, self.strings + offset),
    {
        let s = self.blob;
        if self.strings <= s.len() && offset as usize <= s.len() - self.strings {
            cstr_to_str(s, self.strings + offset as usize)
        } else {
            let e: &[u8] = &s[0..0];
            assert(e@ =~= Seq::<u8>::empty());
            e
        }
    }
}

// ---------------------------------------------------------------------------------------------
// Nodes.
// ---------------------------------------------------------------------------------------------

impl<'a> Node<'a> {
    pub closed spec fn view(&self) -> NodeView {
        NodeView { name: self.name@, state: self.state }
    }

    /// The enumeration state of this node.
    pub fn state(&self) -> (r: NodeState)
        ensures
            r == self@.state,
    {
        self.state
    }

    /// Returns the next property of this node, read through `interpreter`. Once there is none
    /// left the node moves on to its child nodes.
    pub fn next_property(&mut self, interpreter: &mut Interpreter<'a>) -> (r: Option<Property<'a>>)
        ensures
            final(self)@.name == old(self)@.name,
            final(interpreter)@.blob == old(interpreter)@.blob,
            final(interpreter)@.strings == old(interpreter)@.strings,
            old(self)@.state != NodeState::Properties ==> r is None && final(self)@.state == old(self)@.state
                && final(interpreter)@ == old(interpreter)@,
            old(self)@.state == NodeState::Properties ==> {
                let step = prop_step(old(interpreter)@.blob, old(interpreter)@.strings, old(interpreter)@.pc);
                &&& final(interpreter)@.pc == step.1
                &&& final(interpreter)@.state == next_state(old(interpreter)@.state, step.2)
                &&& (r is Some <==> step.0 is Some)
                &&& (r matches Some(p) ==> (p.name@, p.value@) == step.0->0)
                &&& final(self)@.state == (if step.0 is Some { NodeState::Properties } else { NodeState::ChildNodes })
            },
            old(self)@.state == NodeState::Properties ==> {
                let before = properties_from(old(interpreter)@.blob, old(interpreter)@.strings, old(interpreter)@.pc);
                let after = properties_from(final(interpreter)@.blob, final(interpreter)@.strings, final(interpreter)@.pc);
                &&& (r is None <==> before.len() == 0)
                &&& (r matches Some(p) ==> before == seq![(p.name@, p.value@)] + after)
            },
    {
        interpreter.pc_bounds();
        proof {
            lemma_prop_step_bounds(interpreter@.blob, interpreter@.strings, interpreter@.pc);
        }
        match self.state {
            NodeState::Properties => {
                match interpreter.step_property() {
                    Some(p) => Some(p),
                    None => {
                        self.state = NodeState::ChildNodes;
                        None
                    },
                }
            },
            _ => None,
        }
    }

    /// Skip what is left of this node: its remaining properties, then its remaining child
    /// nodes with everything in them, so that the interpreter continues after the node.
    pub fn finish(self, interpreter: &mut Interpreter<'a>)
        ensures
            final(interpreter)@.blob == old(interpreter)@.blob,
            final(interpreter)@.strings == old(interpreter)@.strings,
            (final(interpreter)@.pc, final(interpreter)@.state) == (match self@.state {
                NodeState::Properties => skip_properties(
                    old(interpreter)@.blob,
                    old(interpreter)@.strings,
                    old(interpreter)@.pc,
                    old(interpreter)@.state,
                ),
                NodeState::ChildNodes => skip_children(
                    old(interpreter)@.blob,
                    old(interpreter)@.strings,
                    old(interpreter)@.pc,
                    old(interpreter)@.state,
                ),
                NodeState::Empty => (old(interpreter)@.pc, old(interpreter)@.state),
            }),
        decreases old(interpreter)@.blob.len() - old(interpreter)@.pc, 2int,
    {
        interpreter.pc_bounds();
        let ghost s = interpreter@.blob;
        let ghost st = interpreter@.strings;
        let ghost pc0 = interpreter@.pc;
        let ghost target = match self@.state {
            NodeState::Properties => skip_properties(s, st, pc0, interpreter@.state),
            NodeState::ChildNodes => skip_children(s, st, pc0, interpreter@.state),
            NodeState::Empty => (pc0, interpreter@.state),
        };
        let mut node = self;
        loop
            invariant
                interpreter@.blob == s,
                interpreter@.strings == st,
                pc0 == old(interpreter)@.pc,
                s == old(interpreter)@.blob,
                pc0 <= interpreter@.pc <= s.len(),
                node@.state == NodeState::Properties ==> skip_properties(s, st, interpreter@.pc, interpreter@.state) == target,
                node@.state == NodeState::ChildNodes ==> skip_children(s, st, interpreter@.pc, interpreter@.state) == target,
                node@.state == NodeState::Empty ==> (interpreter@.pc, interpreter@.state) == target,
            ensures
                interpreter@.blob == s,
                interpreter@.strings == st,
                (interpreter@.pc, interpreter@.state) == target,
            decreases s.len() - interpreter@.pc, (if node@.state == NodeState::Properties { 2int } else if node@.state == NodeState::ChildNodes { 1int } else { 0int }),
        {
            interpreter.pc_bounds();
            let ghost pc1 = interpreter@.pc;
            let ghost st1 = interpreter@.state;
            proof {
                lemma_prop_step_bounds(s, st, pc1);
                lemma_node_step_bounds(s, pc1);
            }
            match node.state() {
                NodeState::Properties => {
                    let _ = node.next_property(interpreter);
                },
                NodeState::ChildNodes => {
                    match node.next_child_node(interpreter) {
                        Some(child) => {
                            proof {
                                lemma_skip_bounds(s, st, interpreter@.pc, interpreter@.state);
                            }
                            assert(interpreter@.pc > pc0);
                            child.finish(interpreter);
                        },
                        None => {},
                    }
                },
                NodeState::Empty => {
                    break;
                },
            }
        }
    }

    /// Returns the next child node of this node, read through `interpreter`. Once there is none
    /// left the node is done.
    pub fn next_child_node(&mut self, interpreter: &mut Interpreter<'a>) -> (r: Option<Node<'a>>)
        ensures
            final(self)@.name == old(self)@.name,
            final(interpreter)@.blob == old(interpreter)@.blob,
            final(interpreter)@.strings == old(interpreter)@.strings,
            old(self)@.state != NodeState::ChildNodes ==> r is None && final(self)@.state == old(self)@.state
                && final(interpreter)@ == old(interpreter)@,
            old(self)@.state == NodeState::ChildNodes ==> {
                let step = node_step(old(interpreter)@.blob, old(interpreter)@.pc);
                &&& final(interpreter)@.pc == step.1
                &&& final(interpreter)@.state == next_state(old(interpreter)@.state, step.2)
                &&& (r is Some <==> step.0 is Some)
                &&& (r matches Some(n) ==> n@.name == step.0->0 && n@.state == NodeState::Properties)
                &&& final(self)@.state == (if step.0 is Some { NodeState::ChildNodes } else { NodeState::Empty })
            },
            old(self)@.state == NodeState::ChildNodes ==> {
                let s = old(interpreter)@.blob;
                let st = old(interpreter)@.strings;
                let before = children_from(s, st, old(interpreter)@.pc, old(interpreter)@.state);
                let skipped = skip_properties(s, st, final(interpreter)@.pc, final(interpreter)@.state);
                &&& (r is None <==> before.len() == 0)
                &&& (r matches Some(n) ==> before == seq![n@.name] + children_from(s, st, skipped.0, skipped.1))
            },
    {
        interpreter.pc_bounds();
        proof {
            lemma_node_step_bounds(interpreter@.blob, interpreter@.pc);
            let ns = node_step(interpreter@.blob, interpreter@.pc);
            if ns.0 is Some {
                lemma_skip_bounds(interpreter@.blob, interpreter@.strings, ns.1, next_state(interpreter@.state, ns.2));
            }
        }
        match self.state {
            NodeState::ChildNodes => {
                match interpreter.step_node() {
                    Some(n) => Some(n),
                    None => {
                        self.state = NodeState::Empty;
                        None
                    },
                }
            },
            _ => None,
        }
    }
}

/// Where the walk is, and the interpreter state, after the remaining properties of a node
/// (from `pc`) and then its remaining child nodes are skipped.
pub open spec fn skip_properties(s: Seq<u8>, strings: int, pc: int, state: InterpreterState) -> (int, InterpreterState)
    decreases s.len() - pc, 1int,
{
    if pc < 0 || pc > s.len() {
        (pc, state)
    } else {
        let step = prop_step(s, strings, pc);
        let next = next_state(state, step.2);
        if step.1 < pc || step.1 > s.len() {
            (step.1, next)
        } else if step.0 is Some {
            if step.1 > pc {
                skip_properties(s, strings, step.1, next)
            } else {
                (step.1, next)
            }
        } else {
            skip_children(s, strings, step.1, next)
        }
    }
}

/// Where the walk is, and the interpreter state, after the remaining child nodes of a node
/// (from `pc`) are skipped, each with everything in it.
pub open spec fn skip_children(s: Seq<u8>, strings: int, pc: int, state: InterpreterState) -> (int, InterpreterState)
    decreases s.len() - pc, 0int,
{
    if pc < 0 || pc > s.len() {
        (pc, state)
    } else {
        let step = node_step(s, pc);
        let next = next_state(state, step.2);
        if step.0 is Some && pc < step.1 <= s.len() {
            let inner = skip_properties(s, strings, step.1, next);
            if pc < inner.0 <= s.len() {
                skip_children(s, strings, inner.0, inner.1)
            } else {
                inner
            }
        } else {
            (step.1, next)
        }
    }
}

/// The properties a node reads from `pc` on, in order, as (name, value) pairs: one per
/// property step until a step finds none.
pub open spec fn properties_from(s: Seq<u8>, strings: int, pc: int) -> Seq<(Seq<u8>, Seq<u8>)>
    decreases s.len() - pc,
{
    if pc < 0 || pc > s.len() {
        Seq::empty()
    } else {
        let step = prop_step(s, strings, pc);
        match step.0 {
            Some(p) => if pc < step.1 <= s.len() {
                seq![p] + properties_from(s, strings, step.1)
            } else {
                seq![p]
            },
            None => Seq::empty(),
        }
    }
}

/// The names of the child nodes a node reads from `pc` on, in order, when each child is
/// skipped as a whole (as [`Node::finish`] does) before the next is read.
pub open spec fn children_from(s: Seq<u8>, strings: int, pc: int, state: InterpreterState) -> Seq<Seq<u8>>
    decreases s.len() - pc,
{
    if pc < 0 || pc > s.len() {
        Seq::empty()
    } else {
        let step = node_step(s, pc);
        let next = next_state(state, step.2);
        if step.0 is Some && pc < step.1 <= s.len() {
            let inner = skip_properties(s, strings, step.1, next);
            if pc < inner.0 <= s.len() {
                seq![step.0->0] + children_from(s, strings, inner.0, inner.1)
            } else {
                seq![step.0->0]
            }
        } else {
            Seq::empty()
        }
    }
}

/// Properties read one call after another come in the order of the node's stream: if, for
/// each `i`, the call from position `pcs[i]` returned `props[i]` and left the reader at
/// `pcs[i + 1]`, then the properties from `pcs[0]` are `props` followed by those left at the last
/// position (and once none are left, the next call returns `None`).
pub proof fn lemma_properties_in_order(s: Seq<u8>, strings: int, pcs: Seq<int>, props: Seq<(Seq<u8>, Seq<u8>)>)
    requires
        pcs.len() == props.len() + 1,
        forall|i: int|
            0 <= i < props.len() ==> #[trigger] properties_from(s, strings, pcs[i]) == seq![props[i]]
                + properties_from(s, strings, pcs[i + 1]),
    ensures
        properties_from(s, strings, pcs[0]) == props + properties_from(s, strings, pcs.last()),
    decreases props.len(),
{
    if props.len() > 0 {
        let rest = pcs.drop_first();
        assert forall|i: int| 0 <= i < props.drop_first().len() implies #[trigger] properties_from(s, strings, rest[i])
            == seq![props.drop_first()[i]] + properties_from(s, strings, rest[i + 1]) by {
            assert(properties_from(s, strings, pcs[i + 1]) == seq![props[i + 1]] + properties_from(
                s,
                strings,
                pcs[i + 2],
            ));
        }
        lemma_properties_in_order(s, strings, rest, props.drop_first());
        assert(properties_from(s, strings, pcs[0]) == seq![props[0]] + properties_from(s, strings, pcs[1]));
        assert(props =~= seq![props[0]] + props.drop_first());
        assert(props + properties_from(s, strings, pcs.last()) =~= seq![props[0]] + (props.drop_first()
            + properties_from(s, strings, rest.last())));
    }
}

/// Child nodes read one call after another come in the order of the node's stream: if, for
/// each `i`, the call from position `ps[i]` returned the child named `names[i]`, and skipping
/// that child's contents left the reader at `ps[i + 1]`, then the children from `ps[0]` are
/// `names` followed by those left at the last position (and once none are left, the next call
/// returns `None`).
pub proof fn lemma_children_in_order(
    s: Seq<u8>,
    strings: int,
    ps: Seq<(int, InterpreterState)>,
    names: Seq<Seq<u8>>,
)
    requires
        ps.len() == names.len() + 1,
        forall|i: int|
            0 <= i < names.len() ==> #[trigger] children_from(s, strings, ps[i].0, ps[i].1) == seq![names[i]]
                + children_from(s, strings, ps[i + 1].0, ps[i + 1].1),
    ensures
        children_from(s, strings, ps[0].0, ps[0].1) == names + children_from(s, strings, ps.last().0, ps.last().1),
    decreases names.len(),
{
    if names.len() > 0 {
        let rest = ps.drop_first();
        assert forall|i: int| 0 <= i < names.drop_first().len() implies #[trigger] children_from(
            s,
            strings,
            rest[i].0,
            rest[i].1,
        ) == seq![names.drop_first()[i]] + children_from(s, strings, rest[i + 1].0, rest[i + 1].1) by {
            assert(children_from(s, strings, ps[i + 1].0, ps[i + 1].1) == seq![names[i + 1]] + children_from(
                s,
                strings,
                ps[i + 2].0,
                ps[i + 2].1,
            ));
        }
        lemma_children_in_order(s, strings, rest, names.drop_first());
        assert(children_from(s, strings, ps[0].0, ps[0].1) == seq![names[0]] + children_from(
            s,
            strings,
            ps[1].0,
            ps[1].1,
        ));
        assert(names =~= seq![names[0]] + names.drop_first());
        assert(names + children_from(s, strings, ps.last().0, ps.last().1) =~= seq![names[0]] + (
        names.drop_first() + children_from(s, strings, rest.last().0, rest.last().1)));
    }
}

proof fn lemma_prop_step_bounds(s: Seq<u8>, strings: int, pc: int)
    requires
        0 <= pc <= s.len(),
    ensures
        pc <= prop_step(s, strings, pc).1 <= s.len(),
        prop_step(s, strings, pc).0 is Some ==> pc < prop_step(s, strings, pc).1,
{
    lemma_prop_scan_bounds(s, pc);
}

proof fn lemma_node_step_bounds(s: Seq<u8>, pc: int)
    requires
        0 <= pc <= s.len(),
    ensures
        pc <= node_step(s, pc).1 <= s.len(),
        node_step(s, pc).0 is Some ==> pc < node_step(s, pc).1,
{
    lemma_node_scan_bounds(s, pc);
    match node_scan(s, pc) {
        NodeScan::Begin(q) => {
            crate::util::lemma_cstr_end_bounds(s, q);
        },
        _ => {},
    }
}

proof fn lemma_skip_bounds(s: Seq<u8>, strings: int, pc: int, state: InterpreterState)
    requires
        0 <= pc <= s.len(),
    ensures
        pc <= skip_properties(s, strings, pc, state).0 <= s.len(),
        pc <= skip_children(s, strings, pc, state).0 <= s.len(),
    decreases s.len() - pc,
{
    lemma_prop_step_bounds(s, strings, pc);
    lemma_node_step_bounds(s, pc);
    let ps = prop_step(s, strings, pc);
    let pn = next_state(state, ps.2);
    if ps.0 is Some {
        lemma_skip_bounds(s, strings, ps.1, pn);
    } else if ps.1 > pc {
        lemma_skip_bounds(s, strings, ps.1, pn);
    } else {
        lemma_skip_children_same(s, strings, pc, pn);
    }
    let ns = node_step(s, pc);
    let nn = next_state(state, ns.2);
    if ns.0 is Some {
        lemma_skip_bounds(s, strings, ns.1, nn);
        let inner = skip_properties(s, strings, ns.1, nn);
        if pc < inner.0 <= s.len() {
            lemma_skip_bounds(s, strings, inner.0, inner.1);
        }
    }
}

proof fn lemma_skip_children_same(s: Seq<u8>, strings: int, pc: int, state: InterpreterState)
    requires
        0 <= pc <= s.len(),
    ensures
        pc <= skip_children(s, strings, pc, state).0 <= s.len(),
    decreases s.len() - pc, 0int,
{
    lemma_node_step_bounds(s, pc);
    let ns = node_step(s, pc);
    let nn = next_state(state, ns.2);
    if ns.0 is Some {
        lemma_skip_bounds(s, strings, ns.1, nn);
        let inner = skip_properties(s, strings, ns.1, nn);
        if pc < inner.0 <= s.len() {
            lemma_skip_bounds(s, strings, inner.0, inner.1);
        }
    }
}

/// Whether a property value reads as a text string: at least one byte, a null terminator at the
/// end and only printable ASCII (`' '` to `'~'`) before it.
pub open spec fn is_printable_string_spec(value: Seq<u8>) -> bool {
    &&& value.len() > 0
    &&& value[value.len() - 1] == 0
    &&& forall|i: int| 0 <= i < value.len() - 1 ==> 0x20 <= #[trigger] value[i] <= 0x7e
}

/// Decode a property value that holds a single big-endian 32-bit number, such as
/// `#address-cells`; `None` if the value is not four bytes long.
pub fn decode_u32(value: &[u8]) -> (r: Option<u32>)
    ensures
        r == (if value@.len() == 4 { Some(be_u32(value@, 0)) } else { None::<u32> }),
{
    if value.len() == 4 {
        Some(read_be_u32(value, 0))
    } else {
        None
    }
}

/// The number of `cells` (of zero, one or two 32-bit cells) read big-endian at `off` of `v`.
pub open spec fn cells_value(v: Seq<u8>, off: int, cells: u32) -> u64 {
    if cells == 0 {
        0
    } else if cells == 1 {
        be_u32(v, off) as u64
    } else {
        be_u64(v, off)
    }
}

/// The (address, size) pair that a `reg` value holds with the given numbers of address and
/// size cells: the address in the first cells and the size in all the remaining bytes. Only
/// zero, one or two cells are supported; the address must fit in the value, and the size must
/// fill the rest exactly (any rest is ignored when the size has no cells).
pub open spec fn reg_value(v: Seq<u8>, address_cells: u32, size_cells: u32) -> Option<(u64, u64)> {
    let a = 4 * address_cells;
    if address_cells > 2 || size_cells > 2 || v.len() < a {
        None
    } else if size_cells != 0 && v.len() - a != 4 * size_cells {
        None
    } else {
        Some((cells_value(v, 0, address_cells), cells_value(v, a as int, size_cells)))
    }
}

/// Decode a `reg` property value into its first (address, size) pair (see [`reg_value`]).
pub fn decode_reg(value: &[u8], address_cells: u32, size_cells: u32) -> (r: Option<(u64, u64)>)
    ensures
        r == reg_value(value@, address_cells, size_cells),
{
    if address_cells > 2 || size_cells > 2 {
        return None;
    }
    let a = 4 * address_cells as usize;
    if value.len() < a {
        return None;
    }
    if size_cells != 0 && value.len() - a != 4 * size_cells as usize {
        return None;
    }
    let address = if address_cells == 0 {
        0
    } else if address_cells == 1 {
        read_be_u32(value, 0) as u64
    } else {
        read_be_u64(value, 0)
    };
    let size = if size_cells == 0 {
        0
    } else if size_cells == 1 {
        read_be_u32(value, a) as u64
    } else {
        read_be_u64(value, a)
    };
    Some((address, size))
}

/// Whether a property value reads as a text string (see [`is_printable_string_spec`]).
pub fn is_printable_string(value: &[u8]) -> (r: bool)
    ensures
        r == is_printable_string_spec(value@),
{
    let n = value.len();
    if n == 0 {
        return false;
    }
    let mut i: usize = 0;
    while i < n - 1
        invariant
            n == value@.len(),
            n > 0,
            i <= n - 1,
            forall|j: int| 0 <= j < i ==> 0x20 <= #[trigger] value@[j] <= 0x7e,
        decreases n - 1 - i,
    {
        if value[i] < 0x20 || value[i] > 0x7e {
            return false;
        }
        i = i + 1;
    }
    value[n - 1] == 0
}

// ---------------------------------------------------------------------------------------------
// A dump of the tree.
// ---------------------------------------------------------------------------------------------

/// A line of a dump of the tree.
pub enum DumpLine<'a> {
    /// The start of a node at the given depth, with its name.
    Open(usize, &'a [u8]),
    /// A property of a node at the given depth whose value is a text string: its name and the
    /// text without the null terminator.
    Text(usize, &'a [u8], &'a [u8]),
    /// A property of a node at the given depth whose value is not a text string: its name and
    /// its bytes.
    Bytes(usize, &'a [u8], &'a [u8]),
    /// The end of a node at the given depth.
    Close(usize),
}

/// The abstract value of a line of a dump.
pub ghost enum LineView {
    Open(nat, Seq<u8>),
    Text(nat, Seq<u8>, Seq<u8>),
    Bytes(nat, Seq<u8>, Seq<u8>),
    Close(nat),
}

impl<'a> DumpLine<'a> {
    pub open spec fn view(&self) -> LineView {
        match *self {
            DumpLine::Open(l, n) => LineView::Open(l as nat, n@),
            DumpLine::Text(l, n, v) => LineView::Text(l as nat, n@, v@),
            DumpLine::Bytes(l, n, v) => LineView::Bytes(l as nat, n@, v@),
            DumpLine::Close(l) => LineView::Close(l as nat),
        }
    }
}

/// The contents of a list of dump lines.
pub open spec fn lines_view<'a>(lines: Seq<DumpLine<'a>>) -> Seq<LineView> {
    lines.map_values(|l: DumpLine<'a>| l@)
}

/// The line for a property of a node at depth `level`.
pub open spec fn prop_line(level: nat, name: Seq<u8>, value: Seq<u8>) -> LineView {
    if is_printable_string_spec(value) {
        LineView::Text(level, name, value.drop_last())
    } else {
        LineView::Bytes(level, name, value)
    }
}

/// The dump of the rest of a node at depth `level` whose properties are read from `pc`: its
/// remaining properties, then its remaining child nodes; with where the walk ends up, as
/// [`skip_properties`] has it.
pub open spec fn dump_properties(s: Seq<u8>, strings: int, pc: int, state: InterpreterState, level: nat) -> (
    Seq<LineView>,
    int,
    InterpreterState,
)
    decreases s.len() - pc, 1int,
{
    if pc < 0 || pc > s.len() {
        (Seq::empty(), pc, state)
    } else {
        let step = prop_step(s, strings, pc);
        let next = next_state(state, step.2);
        if step.1 < pc || step.1 > s.len() {
            (Seq::empty(), step.1, next)
        } else if step.0 is Some {
            let line = prop_line(level, (step.0->0).0, (step.0->0).1);
            if step.1 > pc {
                let rest = dump_properties(s, strings, step.1, next, level);
                (seq![line] + rest.0, rest.1, rest.2)
            } else {
                (seq![line], step.1, next)
            }
        } else {
            dump_children(s, strings, step.1, next, level)
        }
    }
}

/// The dump of the remaining child nodes of a node at depth `level`, read from `pc`: each
/// opened at depth `level + 1`, dumped and closed; with where the walk ends up, as
/// [`skip_children`] has it.
pub open spec fn dump_children(s: Seq<u8>, strings: int, pc: int, state: InterpreterState, level: nat) -> (
    Seq<LineView>,
    int,
    InterpreterState,
)
    decreases s.len() - pc, 0int,
{
    if pc < 0 || pc > s.len() {
        (Seq::empty(), pc, state)
    } else {
        let step = node_step(s, pc);
        let next = next_state(state, step.2);
        if step.0 is Some && pc < step.1 <= s.len() {
            let inner = dump_properties(s, strings, step.1, next, level + 1);
            let node = seq![LineView::Open(level + 1, step.0->0)] + inner.0 + seq![LineView::Close(level + 1)];
            if pc < inner.1 <= s.len() {
                let rest = dump_children(s, strings, inner.1, inner.2, level);
                (node + rest.0, rest.1, rest.2)
            } else {
                (node, inner.1, inner.2)
            }
        } else {
            (Seq::empty(), step.1, next)
        }
    }
}

/// A dump ends where skipping ends.
proof fn lemma_dump_skip(s: Seq<u8>, strings: int, pc: int, state: InterpreterState, level: nat)
    ensures
        (dump_properties(s, strings, pc, state, level).1, dump_properties(s, strings, pc, state, level).2)
            == skip_properties(s, strings, pc, state),
        (dump_children(s, strings, pc, state, level).1, dump_children(s, strings, pc, state, level).2)
            == skip_children(s, strings, pc, state),
    decreases s.len() - pc,
{
    if 0 <= pc <= s.len() {
        let ps = prop_step(s, strings, pc);
        let pn = next_state(state, ps.2);
        if ps.1 >= pc && ps.1 <= s.len() {
            if ps.0 is Some {
                if ps.1 > pc {
                    lemma_dump_skip(s, strings, ps.1, pn, level);
                }
            } else {
                lemma_dump_children_skip(s, strings, ps.1, pn, level);
            }
        }
        lemma_dump_children_skip(s, strings, pc, state, level);
    }
}

proof fn lemma_dump_children_skip(s: Seq<u8>, strings: int, pc: int, state: InterpreterState, level: nat)
    ensures
        (dump_children(s, strings, pc, state, level).1, dump_children(s, strings, pc, state, level).2)
            == skip_children(s, strings, pc, state),
    decreases s.len() - pc, 0int,
{
    if 0 <= pc <= s.len() {
        let ns = node_step(s, pc);
        let nn = next_state(state, ns.2);
        if ns.0 is Some && pc < ns.1 <= s.len() {
            lemma_dump_skip(s, strings, ns.1, nn, level + 1);
            let inner = skip_properties(s, strings, ns.1, nn);
            if pc < inner.0 <= s.len() {
                lemma_dump_children_skip(s, strings, inner.0, inner.1, level);
            }
        }
    }
}

impl<'a> Node<'a> {
    /// Dump what is left of this node, at depth `level`, into `lines`: its remaining
    /// properties, then its remaining child nodes with everything in them.
    fn dump(self, interpreter: &mut Interpreter<'a>, level: usize, lines: &mut Vec<DumpLine<'a>>)
        requires
            1 <= level <= old(interpreter)@.pc,
            old(interpreter)@.blob.len() < usize::MAX,
        ensures
            final(interpreter)@.blob == old(interpreter)@.blob,
            final(interpreter)@.strings == old(interpreter)@.strings,
            ({
                let d = match self@.state {
                    NodeState::Properties => dump_properties(
                        old(interpreter)@.blob,
                        old(interpreter)@.strings,
                        old(interpreter)@.pc,
                        old(interpreter)@.state,
                        level as nat,
                    ),
                    NodeState::ChildNodes => dump_children(
                        old(interpreter)@.blob,
                        old(interpreter)@.strings,
                        old(interpreter)@.pc,
                        old(interpreter)@.state,
                        level as nat,
                    ),
                    NodeState::Empty => (Seq::empty(), old(interpreter)@.pc, old(interpreter)@.state),
                };
                &&& lines_view(final(lines)@) == lines_view(old(lines)@) + d.0
                &&& (final(interpreter)@.pc, final(interpreter)@.state) == (d.1, d.2)
            }),
        decreases old(interpreter)@.blob.len() - old(interpreter)@.pc, 2int,
    {
        interpreter.pc_bounds();
        let ghost s = interpreter@.blob;
        let ghost st = interpreter@.strings;
        let ghost pc0 = interpreter@.pc;
        let ghost start = lines_view(lines@);
        let ghost target = match self@.state {
            NodeState::Properties => dump_properties(s, st, pc0, interpreter@.state, level as nat),
            NodeState::ChildNodes => dump_children(s, st, pc0, interpreter@.state, level as nat),
            NodeState::Empty => (Seq::empty(), pc0, interpreter@.state),
        };
        let mut node = self;
        loop
            invariant
                interpreter@.blob == s,
                interpreter@.strings == st,
                pc0 == old(interpreter)@.pc,
                s == old(interpreter)@.blob,
                s.len() < usize::MAX,
                1 <= level <= pc0,
                pc0 <= interpreter@.pc <= s.len(),
                start == lines_view(old(lines)@),
                node@.state == NodeState::Properties ==> {
                    let d = dump_properties(s, st, interpreter@.pc, interpreter@.state, level as nat);
                    lines_view(lines@) + d.0 == start + target.0 && (d.1, d.2) == (target.1, target.2)
                },
                node@.state == NodeState::ChildNodes ==> {
                    let d = dump_children(s, st, interpreter@.pc, interpreter@.state, level as nat);
                    lines_view(lines@) + d.0 == start + target.0 && (d.1, d.2) == (target.1, target.2)
                },
                node@.state == NodeState::Empty ==> lines_view(lines@) == start + target.0 && (
                interpreter@.pc, interpreter@.state) == (target.1, target.2),
            ensures
                interpreter@.blob == s,
                interpreter@.strings == st,
                lines_view(lines@) == start + target.0,
                (interpreter@.pc, interpreter@.state) == (target.1, target.2),
            decreases s.len() - interpreter@.pc, (if node@.state == NodeState::Properties { 2int } else if node@.state == NodeState::ChildNodes { 1int } else { 0int }),
        {
            interpreter.pc_bounds();
            let ghost pc1 = interpreter@.pc;
            let ghost st1 = interpreter@.state;
            let ghost before = lines_view(lines@);
            proof {
                lemma_prop_step_bounds(s, st, pc1);
                lemma_node_step_bounds(s, pc1);
            }
            match node.state() {
                NodeState::Properties => {
                    match node.next_property(interpreter) {
                        Some(p) => {
                            let line = if is_printable_string(p.value) {
                                let n = p.value.len();
                                DumpLine::Text(level, p.name, &p.value[0..n - 1])
                            } else {
                                DumpLine::Bytes(level, p.name, p.value)
                            };
                            lines.push(line);
                            proof {
                                assert(line@ == prop_line(level as nat, p.name@, p.value@)) by {
                                    if is_printable_string_spec(p.value@) {
                                        assert(p.value@.subrange(0, p.value@.len() - 1) =~= p.value@.drop_last());
                                    }
                                }
                                assert(lines_view(lines@) =~= before.push(line@));
                                let d = dump_properties(s, st, interpreter@.pc, interpreter@.state, level as nat);
                                assert(before.push(line@) + d.0 =~= before + (seq![line@] + d.0));
                            }
                        },
                        None => {},
                    }
                },
                NodeState::ChildNodes => {
                    match node.next_child_node(interpreter) {
                        Some(child) => {
                            let name = child.name;
                            lines.push(DumpLine::Open(level + 1, name));
                            let ghost pc2 = interpreter@.pc;
                            let ghost st2 = interpreter@.state;
                            let ghost with_open = lines_view(lines@);
                            proof {
                                assert(lines_view(lines@) =~= before.push(LineView::Open((level + 1) as nat, name@)));
                            }
                            child.dump(interpreter, level + 1, lines);
                            let ghost inner = dump_properties(s, st, pc2, st2, (level + 1) as nat);
                            let ghost after_dump = lines_view(lines@);
                            assert(after_dump == with_open + inner.0);
                            lines.push(DumpLine::Close(level + 1));
                            proof {
                                assert(lines_view(lines@) =~= after_dump.push(LineView::Close((level + 1) as nat)));
                                lemma_dump_skip(s, st, pc2, st2, (level + 1) as nat);
                                lemma_skip_bounds(s, st, pc2, st2);
                                let node_lines = seq![LineView::Open((level + 1) as nat, name@)] + inner.0 + seq![
                                    LineView::Close((level + 1) as nat),
                                ];
                                assert(lines_view(lines@) =~= before + node_lines);
                                let d = dump_children(s, st, interpreter@.pc, interpreter@.state, level as nat);
                                assert(before + node_lines + d.0 =~= before + (node_lines + d.0));
                            }
                        },
                        None => {},
                    }
                },
                NodeState::Empty => {
                    break;
                },
            }
        }
    }
}

impl<'a> DeviceTree<'a> {
    /// Dump the whole tree: every node from the top level (depth 1) down, each opened, with its
    /// properties and child nodes, and closed.
    pub fn dump(&self) -> (r: Vec<DumpLine<'a>>)
        requires
            self@.len() < usize::MAX,
        ensures
            lines_view(r@) == dump_children(
                self@,
                header_field(self@, 12) as int,
                clamp(self@, header_field(self@, 8) as int),
                InterpreterState::NotStarted,
                0,
            ).0,
    {
        let mut it = self.interpreter();
        let mut lines: Vec<DumpLine<'a>> = Vec::new();
        let ghost s = it@.blob;
        let ghost st = it@.strings;
        let ghost target = dump_children(s, st, it@.pc, it@.state, 0);
        loop
            invariant_except_break
                lines_view(lines@) + dump_children(s, st, it@.pc, it@.state, 0).0 == target.0,
            invariant
                it@.blob == s,
                it@.strings == st,
                s == self@,
                s.len() < usize::MAX,
                0 <= it@.pc <= s.len(),
            ensures
                lines_view(lines@) == target.0,
            decreases s.len() - it@.pc,
        {
            it.pc_bounds();
            let ghost pc1 = it@.pc;
            let ghost st1 = it@.state;
            let ghost before = lines_view(lines@);
            proof {
                lemma_node_step_bounds(s, pc1);
            }
            match it.step_node() {
                Some(node) => {
                    let name = node.name;
                    lines.push(DumpLine::Open(1, name));
                    let ghost pc2 = it@.pc;
                    let ghost st2 = it@.state;
                    proof {
                        assert(lines_view(lines@) =~= before.push(LineView::Open(1, name@)));
                    }
                    let ghost with_open = lines_view(lines@);
                    node.dump(&mut it, 1, &mut lines);
                    let ghost inner = dump_properties(s, st, pc2, st2, 1);
                    let ghost after_dump = lines_view(lines@);
                    assert(after_dump == with_open + inner.0);
                    lines.push(DumpLine::Close(1));
                    proof {
                        assert(lines_view(lines@) =~= after_dump.push(LineView::Close(1)));
                        lemma_dump_skip(s, st, pc2, st2, 1);
                        lemma_skip_bounds(s, st, pc2, st2);
                        let node_lines = seq![LineView::Open(1, name@)] + inner.0 + seq![LineView::Close(1)];
                        assert(lines_view(lines@) =~= before + node_lines);
                        let d = dump_children(s, st, it@.pc, it@.state, 0);
                        assert(pc1 < it@.pc <= s.len());
                        assert(dump_children(s, st, pc1, st1, 0).0 == node_lines + d.0);
                        assert(before + node_lines + d.0 =~= before + (node_lines + d.0));
                    }
                },
                None => {
                    proof {
                        assert(dump_children(s, st, pc1, st1, 0).0 == Seq::<LineView>::empty());
                        assert(lines_view(lines@) + Seq::<LineView>::empty() =~= lines_view(lines@));
                    }
                    break;
                },
            }
        }
        lines
    }
}

} // verus!
