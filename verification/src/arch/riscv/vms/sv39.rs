//! Implementation of the Sv39 Virtual Memory System (RISC-V privileged architecture, 4.4).
//!
//! Page table entries are encoded exactly as the hardware reads them:
//!
//! - 10 bits reserved
//! - 44 bits PPN (PPN[2], PPN[1], PPN[0])
//! - 2 bits RSW; the LSb marks the page as shared
//! - Dirty, Accessed, Global, Usermode, eXecute, Write, Read and Valid flags
//!
//! The page tables themselves are kept in table stores, one per level below the root. A
//! table entry points to a table by its page number: the store of level 1 holds the tables
//! with page numbers `l1_base, l1_base + 1, ...` and likewise for level 0.

use super::{decode_rwx, from_rwx, lemma_rwx_roundtrip, rwx_bits, to_rwx};
use crate::arch::vms::{AddError, PrivateOrShared, RWX};
use crate::memory::{AllocateError, SharedPPN, PPN};
use vstd::prelude::*;

verus! {

/// A page table entry in a table of level 2 or 1.
#[derive(Clone, Copy, Debug, PartialEq, Eq)]
pub struct Entry(pub u64);

/// A page table entry in a table of level 0, i.e. a mapping of a single page.
#[derive(Clone, Copy, Debug, PartialEq, Eq)]
pub struct Leaf(pub u64);

/// A virtual address.
#[derive(Clone, Copy, Debug, PartialEq, Eq)]
pub struct VirtualAddress(pub u64);

/// A physical address.
#[derive(Clone, Copy, Debug, PartialEq, Eq)]
pub struct PhysicalAddress(pub u64);

/// Whether the valid bit of an entry is set.
pub open spec fn valid_bit(e: u64) -> bool {
    e & 1 != 0
}

/// Whether an entry points to a table, i.e. its R, W and X bits do not form a valid
/// combination of flags.
pub open spec fn table_bits(e: u64) -> bool {
    decode_rwx(e) is None
}

/// Whether the shared bit of an entry is set.
pub open spec fn shared_bit(e: u64) -> bool {
    e & 0x100 != 0
}

/// The page number stored in an entry.
pub open spec fn entry_ppn(e: u64) -> u32 {
    (e >> 10) as u32
}

/// The entry of a table pointing to the table at the given page number.
pub open spec fn table_entry(ppn: u32) -> u64 {
    ((ppn as u64) << 10) | 1
}

/// The entry mapping the page at the given page number with the given flags. The accessed and
/// dirty bits are always set.
pub open spec fn leaf_entry(ppn: u32, rwx: RWX, usermode: bool, global: bool, shared: bool) -> u64 {
    ((ppn as u64) << 10) | 1 | (rwx_bits(rwx) as u64) | (if usermode {
        0x10u64
    } else {
        0
    }) | (if global {
        0x20u64
    } else {
        0
    }) | 0xc0u64 | (if shared {
        0x100u64
    } else {
        0
    })
}

/// What can be read back from a leaf entry.
pub proof fn lemma_leaf_entry(ppn: u32, rwx: RWX, usermode: bool, global: bool, shared: bool)
    ensures
        valid_bit(leaf_entry(ppn, rwx, usermode, global, shared)),
        !table_bits(leaf_entry(ppn, rwx, usermode, global, shared)),
        entry_ppn(leaf_entry(ppn, rwx, usermode, global, shared)) == ppn,
        shared_bit(leaf_entry(ppn, rwx, usermode, global, shared)) == shared,
        decode_rwx(leaf_entry(ppn, rwx, usermode, global, shared)) == Some(rwx),
{
    let p = ppn as u64;
    let r = rwx_bits(rwx) as u64;
    let u: u64 = if usermode { 0x10 } else { 0 };
    let g: u64 = if global { 0x20 } else { 0 };
    let s: u64 = if shared { 0x100 } else { 0 };
    lemma_rwx_roundtrip(rwx);
    assert(r & 0xe == r && r != 0 && r < 16);
    assert(p <= 0xffff_ffff && r & 0xe == r && r != 0 && (u == 0 || u == 0x10) && (g == 0 || g
        == 0x20) && (s == 0 || s == 0x100) ==> {
        let e = (p << 10) | 1 | r | u | g | 0xc0 | s;
        &&& e & 1 != 0
        &&& e & 0xe == r
        &&& ((e >> 10) as u32) == p
        &&& (e & 0x100 != 0) == (s == 0x100)
    }) by (bit_vector);
}

/// What can be read back from a table entry.
pub proof fn lemma_table_entry(ppn: u32)
    ensures
        valid_bit(table_entry(ppn)),
        table_bits(table_entry(ppn)),
        entry_ppn(table_entry(ppn)) == ppn,
{
    let p = ppn as u64;
    assert(p <= 0xffff_ffff ==> {
        let e = (p << 10) | 1;
        &&& e & 1 != 0
        &&& e & 0xe == 0
        &&& ((e >> 10) as u32) == p
    }) by (bit_vector);
}

/// The zero entry is invalid, has no access bits and points to page number zero.
pub proof fn lemma_zero_entry()
    ensures
        0u64 & 0xe == 0,
        0u64 & 1 == 0,
        0u64 & 0x100 == 0,
        entry_ppn(0) == 0,
{
    assert(0u64 & 0xe == 0 && 0u64 & 1 == 0 && 0u64 & 0x100 == 0 && (0u64 >> 10) as u32 == 0) by (bit_vector);
}

/// The index into the root table for a virtual address (VPN[2]).
pub open spec fn vpn2(va: u64) -> u64 {
    (va & 0x7f_c000_0000) >> 30
}

/// The index into a table of level 1 for a virtual address (VPN[1]).
pub open spec fn vpn1(va: u64) -> u64 {
    (va & 0x3fe0_0000) >> 21
}

/// The index into a table of level 0 for a virtual address (VPN[0]).
pub open spec fn vpn0(va: u64) -> u64 {
    (va & 0x1f_f000) >> 12
}

/// Every part of a virtual page number indexes a table of 512 entries.
pub proof fn lemma_vpn_bounds(va: u64)
    ensures
        vpn2(va) < 512,
        vpn1(va) < 512,
        vpn0(va) < 512,
{
    assert((va & 0x7f_c000_0000) >> 30 < 512 && (va & 0x3fe0_0000) >> 21 < 512 && (va & 0x1f_f000) >> 12
        < 512) by (bit_vector);
}

impl Entry {
    const VALID_MASK: u64 = 0b1;

    const RWX_MASK: u64 = 0b1110;

    const USERMODE_MASK: u64 = 0b1_0000;

    const SHARED_MASK: u64 = 0x1_00;

    /// Create a new entry for an invalid entry.
    pub fn new_invalid() -> (r: Self)
        ensures
            r.0 == 0,
    {
        Entry(0)
    }

    /// Create a new user-accessible entry for a single page.
    pub fn new_leaf(ppn: PPN, rwx: RWX) -> (r: Self)
        ensures
            r.0 == leaf_entry(ppn@, rwx, true, false, false),
    {
        let ppn = ppn.into_raw();
        let mut s = Entry((ppn as u64) << 10);
        s.set_rwx(rwx);
        s.set_valid(true);
        s.set_usermode(true);
        s.0 = s.0 | 0b1100_0000;
        proof {
            let p = ppn as u64;
            let r = rwx_bits(rwx) as u64;
            lemma_rwx_roundtrip(rwx);
            assert(r & 0xe == r);
            assert(r & 0xe == r ==> ((((((p << 10) & !0xeu64) | r) & !1u64) | 1) & !0x10u64 | 0x10)
                | 0xc0 == (p << 10) | 1 | r | 0x10 | 0 | 0xc0 | 0) by (bit_vector);
        }
        s
    }

    /// Create a new entry mapping a whole region at the given physical address.
    pub fn new_leaf2(address: u64, rwx: RWX, usermode: bool, global: bool) -> (r: Self)
        ensures
            r.0 == ((((((((address >> 2) & !0xeu64) | rwx_bits(rwx) as u64) & !1u64) | 1) & !0x10u64)
                | if usermode {
                0x10u64
            } else {
                0
            }) | 0xc0),
    {
        let mut s = Entry(address >> 2);
        s.set_rwx(rwx);
        s.set_valid(true);
        s.set_usermode(usermode);
        s.0 = s.0 | 0b1100_0000;
        s
    }

    /// Create a new entry for a single table entry.
    pub fn new_table(ppn: PPN) -> (r: Self)
        ensures
            r.0 == table_entry(ppn@),
    {
        let ppn = ppn.into_raw();
        let mut s = Entry((ppn as u64) << 10);
        s.set_valid(true);
        proof {
            let p = ppn as u64;
            assert(((p << 10) & !1u64) | 1 == (p << 10) | 1) by (bit_vector);
        }
        s
    }

    /// Return whether this entry is valid.
    pub fn is_valid(&self) -> (r: bool)
        ensures
            r == valid_bit(self.0),
    {
        self.0 & Self::VALID_MASK > 0
    }

    /// Set whether this entry is valid.
    pub fn set_valid(&mut self, valid: bool)
        ensures
            final(self).0 == (old(self).0 & !1u64) | if valid {
                1u64
            } else {
                0
            },
    {
        self.0 = self.0 & !Self::VALID_MASK;
        self.0 = self.0 | if valid {
            Self::VALID_MASK
        } else {
            0
        };
    }

    /// Return the RWX flags or `None` if it is not a leaf entry.
    pub fn rwx(&self) -> (r: Option<RWX>)
        ensures
            r == decode_rwx(self.0),
    {
        let e = self.0;
        proof {
            assert((e & 0xe) & 0xe == e & 0xe) by (bit_vector);
        }
        to_rwx(e & Self::RWX_MASK)
    }

    /// Set the RWX flags.
    pub fn set_rwx(&mut self, rwx: RWX)
        ensures
            final(self).0 == (old(self).0 & !0xeu64) | rwx_bits(rwx) as u64,
    {
        self.0 = self.0 & !Self::RWX_MASK;
        self.0 = self.0 | from_rwx(rwx) as u64;
    }

    /// Set whether this page can be accessed by usermode.
    pub fn set_usermode(&mut self, allow: bool)
        ensures
            final(self).0 == (old(self).0 & !0x10u64) | if allow {
                0x10u64
            } else {
                0
            },
    {
        self.0 = self.0 & !Self::USERMODE_MASK;
        self.0 = self.0 | if allow {
            Self::USERMODE_MASK
        } else {
            0
        };
    }

    /// Set whether this page is shared.
    pub fn set_shared(&mut self, shared: bool)
        ensures
            final(self).0 == (old(self).0 & !0x100u64) | if shared {
                0x100u64
            } else {
                0
            },
    {
        self.0 = self.0 & !Self::SHARED_MASK;
        self.0 = self.0 | if shared {
            Self::SHARED_MASK
        } else {
            0
        };
    }

    /// Whether this entry points to a table (i.e. has no RWX flags).
    pub fn is_table(&self) -> (r: bool)
        ensures
            r == table_bits(self.0),
    {
        let r = self.rwx();
        r.is_none()
    }

    /// Return the stored page number.
    pub fn ppn(&self) -> (r: u32)
        ensures
            r == entry_ppn(self.0),
    {
        (self.0 >> 10) as u32
    }

    /// Return the PPN[2] shifted to the right.
    pub fn ppn_2(&self) -> (r: u64)
        ensures
            r == (self.0 & (0x3ff_ffffu64 << 28)) >> 28,
    {
        (self.0 & (0x3ff_ffffu64 << 28)) >> 28
    }

    /// Return the PPN[1] shifted to the right.
    pub fn ppn_1(&self) -> (r: u64)
        ensures
            r == (self.0 & (0x1ffu64 << 19)) >> 19,
    {
        (self.0 & (0x1ffu64 << 19)) >> 19
    }

    /// Return the PPN[0] shifted to the right.
    pub fn ppn_0(&self) -> (r: u64)
        ensures
            r == (self.0 & (0x1ffu64 << 10)) >> 10,
    {
        (self.0 & (0x1ffu64 << 10)) >> 10
    }
}

impl PrivateOrShared {
    /// The private page, or the value itself if it is shared.
    pub fn into_private(self) -> (r: Result<PPN, Self>)
        ensures
            self matches PrivateOrShared::Private(p) ==> r == Ok::<PPN, Self>(p),
            self is Shared ==> r == Err::<PPN, Self>(self),
    {
        match self {
            PrivateOrShared::Private(ppn) => Ok(ppn),
            s => Err(s),
        }
    }

    /// The shared page, or the value itself if it is private.
    pub fn into_shared(self) -> (r: Result<SharedPPN, Self>)
        ensures
            self matches PrivateOrShared::Shared(p) ==> r == Ok::<SharedPPN, Self>(p),
            self is Private ==> r == Err::<SharedPPN, Self>(self),
    {
        match self {
            PrivateOrShared::Shared(ppn) => Ok(ppn),
            s => Err(s),
        }
    }
}

impl Leaf {
    /// Clear the mapping and return the page it mapped, or fail if it is not valid.
    ///
    /// The shared bit is read after the entry has been cleared, so the page is always returned
    /// as a private page.
    pub fn clear(&mut self) -> (r: Result<PrivateOrShared, ()>)
        ensures
            valid_bit(old(self).0) && !shared_bit(old(self).0) ==> final(self).0 == 0 && (r matches Ok(
                PrivateOrShared::Private(p),
            ) && p@ == entry_ppn(old(self).0)),
            valid_bit(old(self).0) && shared_bit(old(self).0) ==> final(self).0 == 0 && (r matches Ok(
                PrivateOrShared::Shared(p),
            ) && p@ == entry_ppn(old(self).0)),
            !valid_bit(old(self).0) ==> final(self).0 == old(self).0 && r == Err::<PrivateOrShared, ()>(()),
    {
        if self.is_valid() {
            let ppn = PPN::from_raw((self.0 >> 10) as u32);
            let shared = self.is_shared();
            self.0 = 0;
            proof { lemma_zero_entry(); }
            if shared {
                Ok(PrivateOrShared::Shared(SharedPPN::from_raw(ppn)))
            } else {
                Ok(PrivateOrShared::Private(ppn))
            }
        } else {
            Err(())
        }
    }

    /// Map a private page, or fail if the entry is already valid.
    pub fn set(&mut self, ppn: PPN, rwx: RWX, usermode: bool, global: bool) -> (r: Result<(), ()>)
        ensures
            valid_bit(old(self).0) ==> final(self).0 == old(self).0 && r is Err,
            !valid_bit(old(self).0) ==> final(self).0 == leaf_entry(ppn@, rwx, usermode, global, false)
                && r is Ok,
    {
        if !self.is_valid() {
            let p = ppn.into_raw() as u64;
            self.0 = (p << 10) | 1 | from_rwx(rwx) as u64 | if usermode {
                0x10u64
            } else {
                0
            } | if global {
                0x20u64
            } else {
                0
            } | 0xc0u64 | 0;
            Ok(())
        } else {
            Err(())
        }
    }

    /// Map a shared page, or fail if the entry is already valid.
    pub fn set_shared(&mut self, ppn: SharedPPN, rwx: RWX, usermode: bool, global: bool) -> (r: Result<(), ()>)
        ensures
            valid_bit(old(self).0) ==> final(self).0 == old(self).0 && r is Err,
            !valid_bit(old(self).0) ==> final(self).0 == leaf_entry(ppn@, rwx, usermode, global, true)
                && r is Ok,
    {
        if !self.is_valid() {
            let p = ppn.into_raw().into_raw() as u64;
            self.0 = (p << 10) | 1 | from_rwx(rwx) as u64 | if usermode {
                0x10u64
            } else {
                0
            } | if global {
                0x20u64
            } else {
                0
            } | 0xc0u64 | 0x100u64;
            Ok(())
        } else {
            Err(())
        }
    }

    /// Share the mapped page, or fail if the entry is not valid.
    pub fn share(&self) -> (r: Result<SharedPPN, ()>)
        ensures
            valid_bit(self.0) ==> (r matches Ok(p) && p@ == entry_ppn(self.0)),
            !valid_bit(self.0) ==> r is Err,
    {
        if self.is_valid() {
            Ok(SharedPPN::from_raw(PPN::from_raw((self.0 >> 10) as u32)))
        } else {
            Err(())
        }
    }

    /// Whether the mapping is valid.
    pub fn is_valid(&self) -> (r: bool)
        ensures
            r == valid_bit(self.0),
    {
        self.0 & 1 > 0
    }

    /// Whether the mapped page is shared.
    pub fn is_shared(&self) -> (r: bool)
        ensures
            r == shared_bit(self.0),
    {
        self.0 & 0x100 > 0
    }
}

impl VirtualAddress {
    /// Return the PPN[2] shifted to the right.
    pub fn ppn_2(&self) -> (r: u64)
        ensures
            r == vpn2(self.0),
            r < 512,
    {
        proof {
            lemma_vpn_bounds(self.0);
        }
        (self.0 & 0x7f_c000_0000) >> 30
    }

    /// Return the PPN[1] shifted to the right.
    pub fn ppn_1(&self) -> (r: u64)
        ensures
            r == vpn1(self.0),
            r < 512,
    {
        proof {
            lemma_vpn_bounds(self.0);
        }
        (self.0 & 0x3fe0_0000) >> 21
    }

    /// Return the PPN[0] shifted to the right.
    pub fn ppn_0(&self) -> (r: u64)
        ensures
            r == vpn0(self.0),
            r < 512,
    {
        proof {
            lemma_vpn_bounds(self.0);
        }
        (self.0 & 0x1f_f000) >> 12
    }
}

impl PhysicalAddress {
    /// Creates a new physical address from the PPNs and the offset.
    pub fn new(ppn_2: u64, ppn_1: u64, ppn_0: u64, offset: u64) -> (r: Self)
        ensures
            r.0 == (ppn_2 << 30u64) | (ppn_1 << 21u64) | (ppn_0 << 12u64) | offset,
    {
        PhysicalAddress((ppn_2 << 30u64) | (ppn_1 << 21u64) | (ppn_0 << 12u64) | offset)
    }

    /// Return the PPN[2] shifted to the right.
    pub fn ppn_2(&self) -> (r: u64)
        ensures
            r == (self.0 & (0x3ff_ffffu64 << 30)) >> 30,
    {
        (self.0 & (0x3ff_ffffu64 << 30)) >> 30
    }

    /// Return the PPN[1] shifted to the right.
    pub fn ppn_1(&self) -> (r: u64)
        ensures
            r == (self.0 & (0x1ffu64 << 21)) >> 21,
    {
        (self.0 & (0x1ffu64 << 21)) >> 21
    }

    /// Return the PPN[0] shifted to the right.
    pub fn ppn_0(&self) -> (r: u64)
        ensures
            r == (self.0 & (0x1ffu64 << 12)) >> 12,
    {
        (self.0 & (0x1ffu64 << 12)) >> 12
    }

    /// Return the offset
    pub fn offset(&self) -> (r: u64)
        ensures
            r == self.0 & 0x3ff,
    {
        self.0 & 0x3ff
    }
}


} // verus!

verus! {

/// Whether an entry leads to a table in the store of tables with page numbers from `base`.
pub open spec fn follows(e: u64, base: u32, len: nat) -> bool {
    table_bits(e) && base <= entry_ppn(e) < base + len
}

/// The position (table index, entry index) of the leaf entry for `va`, if the walk through
/// the tables reaches one.
pub open spec fn walk_slot(
    root: Seq<u64>,
    l1: Seq<Seq<u64>>,
    l0: Seq<Seq<u64>>,
    b1: u32,
    b0: u32,
    va: u64,
) -> Option<(int, int)> {
    let e2 = root[vpn2(va) as int];
    if !follows(e2, b1, l1.len()) {
        None
    } else {
        let e1 = l1[entry_ppn(e2) - b1][vpn1(va) as int];
        if !follows(e1, b0, l0.len()) {
            None
        } else {
            Some((entry_ppn(e1) - b0, vpn0(va) as int))
        }
    }
}

/// The valid leaf entry mapping `va`, if any.
pub open spec fn walk_mapping(
    root: Seq<u64>,
    l1: Seq<Seq<u64>>,
    l0: Seq<Seq<u64>>,
    b1: u32,
    b0: u32,
    va: u64,
) -> Option<u64> {
    match walk_slot(root, l1, l0, b1, b0, va) {
        Some((t, i)) => if valid_bit(l0[t][i]) {
            Some(l0[t][i])
        } else {
            None
        },
        None => None,
    }
}

/// Whether two virtual addresses lie in the same page.
pub open spec fn same_page(a: u64, b: u64) -> bool {
    vpn2(a) == vpn2(b) && vpn1(a) == vpn1(b) && vpn0(a) == vpn0(b)
}

/// Well-formedness of a level of tables: every table has 512 entries.
pub open spec fn tables_wf(tables: Seq<Seq<u64>>) -> bool {
    forall|t: int| 0 <= t < tables.len() ==> #[trigger] tables[t].len() == 512
}

/// Well-formedness of the entries pointing into a table store: every entry that looks like a
/// table entry is either zero or a valid entry for a table in the store, and no two such
/// entries point to the same table.
pub open spec fn pointers_wf(entries: Seq<u64>, base: u32, len: nat) -> bool {
    &&& forall|i: int|
        0 <= i < entries.len() && table_bits(#[trigger] entries[i]) ==> entries[i] == 0
            || (valid_bit(entries[i]) && base <= entry_ppn(entries[i]) < base + len)
    &&& forall|i: int, j: int|
        0 <= i < entries.len() && 0 <= j < entries.len() && i != j && follows(
            #[trigger] entries[i],
            base,
            len,
        ) && follows(#[trigger] entries[j], base, len) ==> entry_ppn(entries[i]) != entry_ppn(
            entries[j],
        )
}

/// Well-formedness of the entries of a level of tables pointing into the next store, as
/// `pointers_wf` but over all entries of all tables at once.
pub open spec fn pointers2_wf(tables: Seq<Seq<u64>>, base: u32, len: nat) -> bool {
    &&& forall|t: int, i: int|
        0 <= t < tables.len() && 0 <= i < tables[t].len() && table_bits(#[trigger] tables[t][i])
            ==> tables[t][i] == 0 || (valid_bit(tables[t][i]) && base <= entry_ppn(tables[t][i])
            < base + len)
    &&& forall|t: int, i: int, u: int, j: int|
        0 <= t < tables.len() && 0 <= i < tables[t].len() && 0 <= u < tables.len() && 0 <= j
            < tables[u].len() && (t != u || i != j) && follows(#[trigger] tables[t][i], base, len)
            && follows(#[trigger] tables[u][j], base, len) ==> entry_ppn(tables[t][i])
            != entry_ppn(tables[u][j])
}

/// A table with every entry invalid.
pub open spec fn empty_table() -> Seq<u64> {
    Seq::new(512, |i: int| 0u64)
}

/// A Sv39 virtual memory system: a root table and the stores of tables of level 1 and 0.
pub struct Sv39 {
    /// The root table (level 2).
    root: Vec<u64>,
    /// The tables of level 1. The table at index `i` has page number `l1_base + i`.
    l1: Vec<Vec<u64>>,
    /// The tables of level 0. The table at index `i` has page number `l0_base + i`.
    l0: Vec<Vec<u64>>,
    /// The page number of the first table of level 1.
    l1_base: u32,
    /// The page number of the first table of level 0.
    l0_base: u32,
    /// The amount of pages available for tables of each level.
    max_tables: usize,
}

impl Sv39 {
    /// The root table.
    pub closed spec fn root_view(&self) -> Seq<u64> {
        self.root@
    }

    /// The tables of level 1.
    pub closed spec fn l1_view(&self) -> Seq<Seq<u64>> {
        Seq::new(self.l1@.len(), |i: int| self.l1@[i]@)
    }

    /// The tables of level 0.
    pub closed spec fn l0_view(&self) -> Seq<Seq<u64>> {
        Seq::new(self.l0@.len(), |i: int| self.l0@[i]@)
    }

    /// The page number of the first table of level 1.
    pub closed spec fn l1_base_spec(&self) -> u32 {
        self.l1_base
    }

    /// The page number of the first table of level 0.
    pub closed spec fn l0_base_spec(&self) -> u32 {
        self.l0_base
    }

    /// The amount of pages available for tables of each level.
    pub closed spec fn max_tables_spec(&self) -> usize {
        self.max_tables
    }

    /// The valid leaf entry mapping `va`, if any.
    pub open spec fn mapping(&self, va: u64) -> Option<u64> {
        walk_mapping(
            self.root_view(),
            self.l1_view(),
            self.l0_view(),
            self.l1_base_spec(),
            self.l0_base_spec(),
            va,
        )
    }

    /// The position of the leaf entry for `va` in the tables of level 0, if any.
    pub open spec fn slot(&self, va: u64) -> Option<(int, int)> {
        walk_slot(
            self.root_view(),
            self.l1_view(),
            self.l0_view(),
            self.l1_base_spec(),
            self.l0_base_spec(),
            va,
        )
    }

    /// Well-formedness of the tables.
    pub open spec fn wf(&self) -> bool {
        &&& self.root_view().len() == 512
        &&& tables_wf(self.l1_view())
        &&& tables_wf(self.l0_view())
        &&& 0 < self.l1_base_spec()
        &&& 0 < self.l0_base_spec()
        &&& self.l1_base_spec() + self.max_tables_spec() <= u32::MAX
        &&& self.l0_base_spec() + self.max_tables_spec() <= u32::MAX
        &&& self.l1_view().len() <= self.max_tables_spec()
        &&& self.l0_view().len() <= self.max_tables_spec()
        &&& pointers_wf(self.root_view(), self.l1_base_spec(), self.l1_view().len())
        &&& pointers2_wf(self.l1_view(), self.l0_base_spec(), self.l0_view().len())
    }

    /// Whether adding a mapping for `va` is blocked by a mapping of a larger region.
    pub open spec fn blocked(&self, va: u64) -> bool {
        let e2 = self.root_view()[vpn2(va) as int];
        ||| valid_bit(e2) && !table_bits(e2)
        ||| follows(e2, self.l1_base_spec(), self.l1_view().len()) && ({
            let e1 = self.l1_view()[entry_ppn(e2) - self.l1_base_spec()][vpn1(va) as int];
            valid_bit(e1) && !table_bits(e1)
        })
    }

    /// Whether the page of `va` is mapped or lies in a larger mapped region.
    pub open spec fn occupied(&self, va: u64) -> bool {
        self.blocked(va) || self.mapping(va) is Some
    }

    /// Whether a new table of level 1 is needed to map `va`.
    pub open spec fn needs_l1(&self, va: u64) -> bool {
        !valid_bit(self.root_view()[vpn2(va) as int])
    }

    /// Whether a new table of level 0 is needed to map `va`.
    pub open spec fn needs_l0(&self, va: u64) -> bool {
        self.slot(va) is None
    }

    /// Whether there is room for the tables needed to map `va`.
    pub open spec fn has_room(&self, va: u64) -> bool {
        &&& self.needs_l1(va) ==> self.l1_view().len() < self.max_tables_spec()
        &&& self.needs_l0(va) ==> self.l0_view().len() < self.max_tables_spec()
    }
}

} // verus!

verus! {

/// Different pages are mapped by different leaf entries.
pub proof fn lemma_slot_injective(
    root: Seq<u64>,
    l1: Seq<Seq<u64>>,
    l0: Seq<Seq<u64>>,
    b1: u32,
    b0: u32,
    a: u64,
    b: u64,
)
    requires
        root.len() == 512,
        tables_wf(l1),
        pointers_wf(root, b1, l1.len()),
        pointers2_wf(l1, b0, l0.len()),
        walk_slot(root, l1, l0, b1, b0, a) is Some,
        walk_slot(root, l1, l0, b1, b0, a) == walk_slot(root, l1, l0, b1, b0, b),
    ensures
        same_page(a, b),
{
    lemma_vpn_bounds(a);
    lemma_vpn_bounds(b);
    let ea = root[vpn2(a) as int];
    let eb = root[vpn2(b) as int];
    let ta = entry_ppn(ea) - b1;
    let tb = entry_ppn(eb) - b1;
    let fa = l1[ta][vpn1(a) as int];
    let fb = l1[tb][vpn1(b) as int];
    assert(entry_ppn(fa) == entry_ppn(fb));
    assert(l1[ta].len() == 512 && l1[tb].len() == 512);
    assert(ta == tb && vpn1(a) == vpn1(b));
    assert(vpn2(a) == vpn2(b));
}

/// Adding a table of level 1 for the root entry `i2` changes no mapping.
pub proof fn lemma_add_l1(
    root: Seq<u64>,
    l1: Seq<Seq<u64>>,
    l0: Seq<Seq<u64>>,
    b1: u32,
    b0: u32,
    i2: int,
)
    requires
        root.len() == 512,
        tables_wf(l1),
        pointers_wf(root, b1, l1.len()),
        pointers2_wf(l1, b0, l0.len()),
        0 <= i2 < 512,
        !valid_bit(root[i2]),
        0 < b1,
        0 < b0,
        b1 + l1.len() + 1 <= u32::MAX,
    ensures
        ({
            let root2 = root.update(i2, table_entry((b1 + l1.len()) as u32));
            let l1b = l1.push(empty_table());
            &&& tables_wf(l1b)
            &&& pointers_wf(root2, b1, l1b.len())
            &&& pointers2_wf(l1b, b0, l0.len())
            &&& follows(root2[i2], b1, l1b.len())
            &&& entry_ppn(root2[i2]) - b1 == l1.len()
            &&& forall|va: u64|
                #[trigger] walk_mapping(root2, l1b, l0, b1, b0, va) == walk_mapping(
                    root,
                    l1,
                    l0,
                    b1,
                    b0,
                    va,
                )
            &&& forall|va: u64|
                vpn2(va) != i2 ==> #[trigger] walk_slot(root2, l1b, l0, b1, b0, va) == walk_slot(
                    root,
                    l1,
                    l0,
                    b1,
                    b0,
                    va,
                )
            &&& forall|va: u64| vpn2(va) == i2 ==> #[trigger] walk_slot(root2, l1b, l0, b1, b0, va) is None
        }),
{
    let n = l1.len();
    let p = (b1 + n) as u32;
    let root2 = root.update(i2, table_entry(p));
    let l1b = l1.push(empty_table());
    lemma_table_entry(p);
    lemma_zero_entry();
    assert(!table_bits(root[i2]) || root[i2] == 0);
    assert forall|t: int| 0 <= t < l1b.len() implies #[trigger] l1b[t].len() == 512 by {}
    assert forall|i: int|
        0 <= i < root2.len() && table_bits(#[trigger] root2[i]) implies root2[i] == 0 || (
        valid_bit(root2[i]) && b1 <= entry_ppn(root2[i]) < b1 + l1b.len()) by {}
    assert forall|i: int, j: int|
        0 <= i < root2.len() && 0 <= j < root2.len() && i != j && follows(
            #[trigger] root2[i],
            b1,
            l1b.len(),
        ) && follows(#[trigger] root2[j], b1, l1b.len()) implies entry_ppn(root2[i])
        != entry_ppn(root2[j]) by {
        if i != i2 {
            assert(root2[i] == root[i]);
            assert(root[i] != 0);
            assert(follows(root[i], b1, n));
        }
        if j != i2 {
            assert(root2[j] == root[j]);
            assert(root[j] != 0);
            assert(follows(root[j], b1, n));
        }
    }
    assert forall|t: int, i: int|
        0 <= t < l1b.len() && 0 <= i < l1b[t].len() && table_bits(#[trigger] l1b[t][i]) implies l1b[t][i]
        == 0 || (valid_bit(l1b[t][i]) && b0 <= entry_ppn(l1b[t][i]) < b0 + l0.len()) by {}
    assert forall|t: int, i: int, u: int, j: int|
        0 <= t < l1b.len() && 0 <= i < l1b[t].len() && 0 <= u < l1b.len() && 0 <= j
            < l1b[u].len() && (t != u || i != j) && follows(#[trigger] l1b[t][i], b0, l0.len())
            && follows(#[trigger] l1b[u][j], b0, l0.len()) implies entry_ppn(l1b[t][i])
        != entry_ppn(l1b[u][j]) by {
        lemma_zero_entry();
        if t == n || u == n {
            assert(false);
        }
        assert(l1b[t] == l1[t] && l1b[u] == l1[u]);
    }
    assert forall|va: u64| #[trigger]
        walk_mapping(root2, l1b, l0, b1, b0, va) == walk_mapping(root, l1, l0, b1, b0, va) by {
        lemma_vpn_bounds(va);
        if vpn2(va) == i2 {
            lemma_zero_entry();
            assert(!follows(root[i2], b1, n));
            assert(l1b[n as int][vpn1(va) as int] == 0u64);
        } else {
            if follows(root[vpn2(va) as int], b1, n) {
                assert(l1b[entry_ppn(root[vpn2(va) as int]) - b1] == l1[entry_ppn(root[vpn2(va) as int]) - b1]);
            }
        }
    }
    assert forall|va: u64| vpn2(va) != i2 implies #[trigger] walk_slot(root2, l1b, l0, b1, b0, va)
        == walk_slot(root, l1, l0, b1, b0, va) by {
        lemma_vpn_bounds(va);
        if follows(root[vpn2(va) as int], b1, n) {
            assert(l1b[entry_ppn(root[vpn2(va) as int]) - b1] == l1[entry_ppn(root[vpn2(va) as int]) - b1]);
        }
    }
    assert forall|va: u64| vpn2(va) == i2 implies #[trigger] walk_slot(root2, l1b, l0, b1, b0, va) is None by {
        lemma_vpn_bounds(va);
        lemma_zero_entry();
        assert(l1b[n as int][vpn1(va) as int] == 0u64);
    }
}

} // verus!

verus! {

/// Adding a table of level 0 for entry `i1` of the table of level 1 at index `t` changes no
/// mapping.
pub proof fn lemma_add_l0(
    root: Seq<u64>,
    l1: Seq<Seq<u64>>,
    l0: Seq<Seq<u64>>,
    b1: u32,
    b0: u32,
    t: int,
    i1: int,
)
    requires
        root.len() == 512,
        tables_wf(l1),
        tables_wf(l0),
        pointers_wf(root, b1, l1.len()),
        pointers2_wf(l1, b0, l0.len()),
        0 <= t < l1.len(),
        0 <= i1 < 512,
        !valid_bit(l1[t][i1]),
        0 < b1,
        0 < b0,
        b0 + l0.len() + 1 <= u32::MAX,
    ensures
        ({
            let l1b = l1.update(t, l1[t].update(i1, table_entry((b0 + l0.len()) as u32)));
            let l0b = l0.push(empty_table());
            &&& tables_wf(l1b)
            &&& tables_wf(l0b)
            &&& pointers_wf(root, b1, l1b.len())
            &&& pointers2_wf(l1b, b0, l0b.len())
            &&& follows(l1b[t][i1], b0, l0b.len())
            &&& entry_ppn(l1b[t][i1]) - b0 == l0.len()
            &&& forall|va: u64|
                #[trigger] walk_mapping(root, l1b, l0b, b1, b0, va) == walk_mapping(
                    root,
                    l1,
                    l0,
                    b1,
                    b0,
                    va,
                )
            &&& forall|va: u64|
                walk_slot(root, l1, l0, b1, b0, va) is Some ==> #[trigger] walk_slot(
                    root,
                    l1b,
                    l0b,
                    b1,
                    b0,
                    va,
                ) == walk_slot(root, l1, l0, b1, b0, va)
        }),
{
    let m = l0.len();
    let p = (b0 + m) as u32;
    let l1b = l1.update(t, l1[t].update(i1, table_entry(p)));
    let l0b = l0.push(empty_table());
    lemma_table_entry(p);
    lemma_zero_entry();
    assert(!table_bits(l1[t][i1]) || l1[t][i1] == 0);
    assert forall|u: int| 0 <= u < l1b.len() implies #[trigger] l1b[u].len() == 512 by {}
    assert forall|u: int| 0 <= u < l0b.len() implies #[trigger] l0b[u].len() == 512 by {}
    assert forall|u: int, i: int|
        0 <= u < l1b.len() && 0 <= i < l1b[u].len() && table_bits(#[trigger] l1b[u][i]) implies l1b[u][i]
        == 0 || (valid_bit(l1b[u][i]) && b0 <= entry_ppn(l1b[u][i]) < b0 + l0b.len()) by {
        if u != t || i != i1 {
            assert(l1b[u][i] == l1[u][i]);
        }
    }
    assert forall|u: int, i: int, w: int, j: int|
        0 <= u < l1b.len() && 0 <= i < l1b[u].len() && 0 <= w < l1b.len() && 0 <= j
            < l1b[w].len() && (u != w || i != j) && follows(#[trigger] l1b[u][i], b0, l0b.len())
            && follows(#[trigger] l1b[w][j], b0, l0b.len()) implies entry_ppn(l1b[u][i])
        != entry_ppn(l1b[w][j]) by {
        if u != t || i != i1 {
            assert(l1b[u][i] == l1[u][i]);
            assert(l1[u][i] != 0);
            assert(follows(l1[u][i], b0, m));
        }
        if w != t || j != i1 {
            assert(l1b[w][j] == l1[w][j]);
            assert(l1[w][j] != 0);
            assert(follows(l1[w][j], b0, m));
        }
    }
    assert forall|va: u64| #[trigger]
        walk_mapping(root, l1b, l0b, b1, b0, va) == walk_mapping(root, l1, l0, b1, b0, va) by {
        lemma_vpn_bounds(va);
        let e2 = root[vpn2(va) as int];
        if follows(e2, b1, l1.len()) {
            let u = entry_ppn(e2) - b1;
            if u == t && vpn1(va) == i1 {
                assert(!follows(l1[t][i1], b0, m));
                assert(l0b[m as int][vpn0(va) as int] == 0u64);
            } else {
                assert(l1b[u][vpn1(va) as int] == l1[u][vpn1(va) as int]);
                if follows(l1[u][vpn1(va) as int], b0, m) {
                    assert(l0b[entry_ppn(l1[u][vpn1(va) as int]) - b0] == l0[entry_ppn(
                        l1[u][vpn1(va) as int],
                    ) - b0]);
                }
            }
        }
    }
    assert forall|va: u64|
        walk_slot(root, l1, l0, b1, b0, va) is Some implies #[trigger] walk_slot(
        root,
        l1b,
        l0b,
        b1,
        b0,
        va,
    ) == walk_slot(root, l1, l0, b1, b0, va) by {
        lemma_vpn_bounds(va);
        let e2 = root[vpn2(va) as int];
        let u = entry_ppn(e2) - b1;
        if u == t && vpn1(va) == i1 {
            assert(!follows(l1[t][i1], b0, m));
        } else {
            assert(l1b[u][vpn1(va) as int] == l1[u][vpn1(va) as int]);
        }
    }
}

/// Writing the leaf entry at a position changes only the mapping of the page it belongs to.
pub proof fn lemma_set_leaf(
    root: Seq<u64>,
    l1: Seq<Seq<u64>>,
    l0: Seq<Seq<u64>>,
    b1: u32,
    b0: u32,
    va: u64,
    v: u64,
)
    requires
        root.len() == 512,
        tables_wf(l1),
        tables_wf(l0),
        pointers_wf(root, b1, l1.len()),
        pointers2_wf(l1, b0, l0.len()),
        walk_slot(root, l1, l0, b1, b0, va) is Some,
    ensures
        ({
            let (t, i) = walk_slot(root, l1, l0, b1, b0, va).unwrap();
            let l0b = l0.update(t, l0[t].update(i, v));
            &&& 0 <= t < l0.len() && 0 <= i < 512
            &&& tables_wf(l0b)
            &&& walk_mapping(root, l1, l0b, b1, b0, va) == if valid_bit(v) {
                Some(v)
            } else {
                None::<u64>
            }
            &&& forall|a: u64|
                !same_page(a, va) ==> #[trigger] walk_mapping(root, l1, l0b, b1, b0, a)
                    == walk_mapping(root, l1, l0, b1, b0, a)
            &&& forall|a: u64| #[trigger]
                walk_slot(root, l1, l0b, b1, b0, a) == walk_slot(root, l1, l0, b1, b0, a)
        }),
{
    let (t, i) = walk_slot(root, l1, l0, b1, b0, va).unwrap();
    let l0b = l0.update(t, l0[t].update(i, v));
    lemma_vpn_bounds(va);
    assert forall|u: int| 0 <= u < l0b.len() implies #[trigger] l0b[u].len() == 512 by {}
    assert forall|a: u64|
        !same_page(a, va) implies #[trigger] walk_mapping(root, l1, l0b, b1, b0, a) == walk_mapping(
        root,
        l1,
        l0,
        b1,
        b0,
        a,
    ) by {
        lemma_vpn_bounds(a);
        if walk_slot(root, l1, l0, b1, b0, a) == Some((t, i)) {
            lemma_slot_injective(root, l1, l0, b1, b0, va, a);
        }
        if walk_slot(root, l1, l0, b1, b0, a) is Some {
            let (u, j) = walk_slot(root, l1, l0, b1, b0, a).unwrap();
            assert(l0b[u][j] == l0[u][j]);
        }
    }
}

} // verus!

verus! {

/// A freshly allocated table: every entry is invalid.
fn zero_table() -> (r: Vec<u64>)
    ensures
        r@ == empty_table(),
{
    let mut v: Vec<u64> = Vec::new();
    while v.len() < 512
        invariant
            v@.len() <= 512,
            forall|i: int| 0 <= i < v@.len() ==> v@[i] == 0u64,
        decreases 512 - v@.len(),
    {
        v.push(0);
    }
    assert(v@ =~= empty_table());
    v
}

impl Sv39 {
    /// Create a new, empty Sv39 mapping whose tables of level 1 and 0 get the page numbers
    /// from `l1_base` and `l0_base` onwards, with room for `max_tables` tables of each level.
    pub fn new(l1_base: u32, l0_base: u32, max_tables: usize) -> (r: Self)
        requires
            0 < l1_base,
            0 < l0_base,
            l1_base + max_tables <= u32::MAX,
            l0_base + max_tables <= u32::MAX,
        ensures
            r.wf(),
            r.l1_base_spec() == l1_base,
            r.l0_base_spec() == l0_base,
            r.max_tables_spec() == max_tables,
            r.l1_view().len() == 0,
            r.l0_view().len() == 0,
            forall|va: u64| #[trigger] r.mapping(va) is None,
            forall|va: u64| !#[trigger] r.blocked(va),
    {
        let r = Sv39 {
            root: zero_table(),
            l1: Vec::new(),
            l0: Vec::new(),
            l1_base,
            l0_base,
            max_tables,
        };
        proof {
            lemma_zero_entry();
            assert forall|va: u64| #[trigger] r.mapping(va) is None by {
                lemma_vpn_bounds(va);
            }
            assert forall|va: u64| !#[trigger] r.blocked(va) by {
                lemma_vpn_bounds(va);
                assert(r.root_view()[vpn2(va) as int] == 0u64);
            }
        }
        r
    }

    /// Find the leaf entry for an address, if the tables for it exist.
    pub fn get_pte(&self, address: u64) -> (r: Result<(usize, usize), ()>)
        requires
            self.wf(),
        ensures
            r is Ok <==> self.slot(address) is Some,
            r matches Ok((t, i)) ==> self.slot(address) == Some((t as int, i as int)),
    {
        let va = VirtualAddress(address);
        let i2 = va.ppn_2() as usize;
        let e2 = Entry(self.root[i2]);
        if !e2.is_table() {
            return Err(());
        }
        let p1 = e2.ppn();
        if p1 < self.l1_base || p1 - self.l1_base >= self.l1.len() as u32 {
            return Err(());
        }
        let t1 = (p1 - self.l1_base) as usize;
        let i1 = va.ppn_1() as usize;
        assert(self.l1_view()[t1 as int].len() == 512);
        let e1 = Entry(self.l1[t1][i1]);
        if !e1.is_table() {
            return Err(());
        }
        let p0 = e1.ppn();
        if p0 < self.l0_base || p0 - self.l0_base >= self.l0.len() as u32 {
            return Err(());
        }
        let t0 = (p0 - self.l0_base) as usize;
        Ok((t0, va.ppn_0() as usize))
    }

    /// Whether the page of an address is mapped or lies in a larger mapped region.
    pub fn is_occupied(&self, address: u64) -> (r: bool)
        requires
            self.wf(),
        ensures
            r == self.occupied(address),
    {
        let va = VirtualAddress(address);
        let i2 = va.ppn_2() as usize;
        let e2 = Entry(self.root[i2]);
        if e2.is_valid() && !e2.is_table() {
            return true;
        }
        if !e2.is_table() {
            return false;
        }
        let p1 = e2.ppn();
        if p1 < self.l1_base || p1 - self.l1_base >= self.l1.len() as u32 {
            return false;
        }
        let t1 = (p1 - self.l1_base) as usize;
        let i1 = va.ppn_1() as usize;
        assert(self.l1_view()[t1 as int].len() == 512);
        let e1 = Entry(self.l1[t1][i1]);
        if e1.is_valid() && !e1.is_table() {
            return true;
        }
        match self.get_pte(address) {
            Ok((t, i)) => {
                proof {
                    lemma_set_leaf(self.root_view(), self.l1_view(), self.l0_view(), self.l1_base, self.l0_base, address, 0);
                }
                Entry(self.l0[t][i]).is_valid()
            },
            Err(()) => false,
        }
    }

    /// Find the leaf entry for an address, allocating the tables on the way as needed.
    ///
    /// Fails if a mapping of a larger region is in the way or if there is no memory left for a
    /// table. No mapping changes in any case.
    pub fn get_pte_alloc(&mut self, address: u64) -> (r: Result<(usize, usize), AddError>)
        requires
            old(self).wf(),
        ensures
            final(self).wf(),
            final(self).l1_base_spec() == old(self).l1_base_spec(),
            final(self).l0_base_spec() == old(self).l0_base_spec(),
            final(self).max_tables_spec() == old(self).max_tables_spec(),
            forall|a: u64| #[trigger] final(self).mapping(a) == old(self).mapping(a),
            old(self).blocked(address) ==> r == Err::<(usize, usize), AddError>(AddError::Overlaps),
            !old(self).blocked(address) && !old(self).has_room(address) ==> r == Err::<
                (usize, usize),
                AddError,
            >(AddError::AllocateError(AllocateError)),
            !old(self).blocked(address) && old(self).has_room(address) ==> (r matches Ok((t, i))
                && final(self).slot(address) == Some((t as int, i as int))),
            old(self).slot(address) is Some ==> (r matches Ok((t, i)) && old(self).slot(address)
                == Some((t as int, i as int))),
            old(self).slot(address) is Some ==> final(self).l0_view() == old(self).l0_view(),
            final(self).l0_view().len() >= old(self).l0_view().len(),
            final(self).l1_view().len() >= old(self).l1_view().len(),
            final(self).l0_view().len() <= old(self).l0_view().len() + 1,
            final(self).l1_view().len() <= old(self).l1_view().len() + 1,
            forall|t: int|
                0 <= t < old(self).l0_view().len() ==> #[trigger] final(self).l0_view()[t] == old(
                    self,
                ).l0_view()[t],
            forall|a: u64| #[trigger] old(self).slot(a) is Some ==> final(self).slot(a) == old(self).slot(a),
            forall|a: u64| #[trigger] final(self).blocked(a) == old(self).blocked(a),
            forall|a: u64| !old(self).has_room(a) ==> !#[trigger] final(self).has_room(a),
    {
        let va = VirtualAddress(address);
        let i2 = va.ppn_2() as usize;
        let i1 = va.ppn_1() as usize;
        let i0 = va.ppn_0() as usize;
        let ghost b1 = self.l1_base;
        let ghost b0 = self.l0_base;
        proof {
            lemma_vpn_bounds(address);
            lemma_zero_entry();
        }
        let ghost s0 = *self;
        // Level 2
        let e2 = Entry(self.root[i2]);
        if !e2.is_valid() {
            if self.l1.len() >= self.max_tables {
                return Err(AddError::AllocateError(AllocateError));
            }
            let ppn = self.l1_base + self.l1.len() as u32;
            proof {
                lemma_add_l1(self.root_view(), self.l1_view(), self.l0_view(), b1, b0, i2 as int);
            }
            let ghost l1_old = self.l1_view();
            self.l1.push(zero_table());
            self.root.set(i2, Entry::new_table(PPN::from_raw(ppn)).0);
            assert(self.l1_view() =~= l1_old.push(empty_table()));
            proof {
                assert forall|a: u64| !s0.has_room(a) implies !#[trigger] self.has_room(a) by {
                    lemma_vpn_bounds(a);
                    assert(self.l0_view() == s0.l0_view());
                }
                lemma_table_entry(ppn);
                assert forall|a: u64| #[trigger] self.blocked(a) == s0.blocked(a) by {
                    lemma_vpn_bounds(a);
                    if vpn2(a) == i2 {
                        assert(self.l1_view()[entry_ppn(self.root_view()[i2 as int]) - b1][vpn1(a) as int] == 0);
                    } else {
                        assert(self.root_view()[vpn2(a) as int] == s0.root_view()[vpn2(a) as int]);
                    }
                }
            }
        } else if !e2.is_table() {
            return Err(AddError::Overlaps);
        }
        assert(forall|a: u64| #[trigger] self.mapping(a) == old(self).mapping(a));
        assert(forall|a: u64| #[trigger] s0.slot(a) is Some ==> self.slot(a) == s0.slot(a));
        // Level 1
        let t1 = (Entry(self.root[i2]).ppn() - self.l1_base) as usize;
        assert(self.l1_view()[t1 as int].len() == 512);
        let e1 = Entry(self.l1[t1][i1]);
        if !e1.is_valid() {
            if self.l0.len() >= self.max_tables {
                return Err(AddError::AllocateError(AllocateError));
            }
            let ppn = self.l0_base + self.l0.len() as u32;
            proof {
                lemma_add_l0(self.root_view(), self.l1_view(), self.l0_view(), b1, b0, t1 as int, i1 as int);
            }
            let ghost l1_old = self.l1_view();
            let ghost l0_old = self.l0_view();
            let ghost s1 = *self;
            self.l0.push(zero_table());
            self.l1[t1].set(i1, Entry::new_table(PPN::from_raw(ppn)).0);
            assert(self.l0_view() =~= l0_old.push(empty_table()));
            assert(self.l1_view() =~= l1_old.update(t1 as int, l1_old[t1 as int].update(i1 as int, table_entry(ppn))));
            proof {
                assert forall|a: u64| !s1.has_room(a) implies !#[trigger] self.has_room(a) by {
                    assert(self.root_view() == s1.root_view());
                }
                lemma_table_entry(ppn);
                assert forall|a: u64| #[trigger] self.blocked(a) == s1.blocked(a) by {
                    lemma_vpn_bounds(a);
                    let e2a = self.root_view()[vpn2(a) as int];
                    if follows(e2a, b1, self.l1_view().len()) && vpn2(a) != i2 {
                        assert(entry_ppn(e2a) != entry_ppn(self.root_view()[i2 as int]));
                    }
                }
            }
        } else if !e1.is_table() {
            return Err(AddError::Overlaps);
        }
        // Level 0
        let t0 = (Entry(self.l1[t1][i1]).ppn() - self.l0_base) as usize;
        Ok((t0, i0))
    }
}

} // verus!

verus! {

/// The page number and flags of the mapping of `va`, if the page is mapped with valid flags.
pub open spec fn translation(mapping: Option<u64>) -> Option<(u32, RWX)> {
    match mapping {
        Some(e) => match decode_rwx(e) {
            Some(rwx) => Some((entry_ppn(e), rwx)),
            None => None,
        },
        None => None,
    }
}

impl Sv39 {
    /// Map a private page at the given virtual address.
    pub fn add(&mut self, address: crate::arch::page::Page, ppn: PPN, rwx: RWX, usermode: bool, global: bool) -> (r: Result<(), AddError>)
        requires
            old(self).wf(),
        ensures
            final(self).wf(),
            final(self).l1_base_spec() == old(self).l1_base_spec(),
            final(self).l0_base_spec() == old(self).l0_base_spec(),
            final(self).max_tables_spec() == old(self).max_tables_spec(),
            old(self).blocked(address@) || old(self).mapping(address@) is Some ==> r == Err::<
                (),
                AddError,
            >(AddError::Overlaps),
            !old(self).blocked(address@) && old(self).mapping(address@) is None && !old(
                self,
            ).has_room(address@) ==> r == Err::<(), AddError>(
                AddError::AllocateError(AllocateError),
            ),
            !old(self).blocked(address@) && old(self).mapping(address@) is None && old(
                self,
            ).has_room(address@) ==> r is Ok,
            r is Ok ==> final(self).mapping(address@) == Some(
                leaf_entry(ppn@, rwx, usermode, global, false),
            ),
            r is Err ==> forall|a: u64| #[trigger] final(self).mapping(a) == old(self).mapping(a),
            forall|a: u64|
                !same_page(a, address@) ==> #[trigger] final(self).mapping(a) == old(self).mapping(a),
            forall|a: u64| #[trigger] final(self).blocked(a) == old(self).blocked(a),
            forall|a: u64| !old(self).has_room(a) ==> !#[trigger] final(self).has_room(a),
            r is Err ==> old(self).occupied(address@) || !final(self).has_room(address@),
            final(self).l1_view().len() >= old(self).l1_view().len(),
            final(self).l0_view().len() >= old(self).l0_view().len(),
            final(self).l1_view().len() <= old(self).l1_view().len() + 1,
            final(self).l0_view().len() <= old(self).l0_view().len() + 1,
    {
        let va = address.as_ptr();
        let ghost p = ppn@;
        let (t, i) = self.get_pte_alloc(va)?;
        let ghost mid = *self;
        proof {
            lemma_set_leaf(self.root_view(), self.l1_view(), self.l0_view(), self.l1_base, self.l0_base, va, 0);
        }
        let mut leaf = Leaf(self.l0[t][i]);
        match leaf.set(ppn, rwx, usermode, global) {
            Ok(()) => {
                proof {
                    lemma_set_leaf(self.root_view(), self.l1_view(), self.l0_view(), self.l1_base, self.l0_base, va, leaf.0);
                    lemma_leaf_entry(p, rwx, usermode, global, false);
                }
                let ghost l0_old = self.l0_view();
                self.l0[t].set(i, leaf.0);
                assert(self.l0_view() =~= l0_old.update(t as int, l0_old[t as int].update(i as int, leaf.0)));
                assert forall|a: u64| !same_page(a, va) implies #[trigger] self.mapping(a) == mid.mapping(a) by {}
                assert(self.root_view() == mid.root_view() && self.l1_view() == mid.l1_view());
                assert(forall|a: u64| #[trigger] self.blocked(a) == mid.blocked(a));
                assert forall|a: u64| #[trigger] self.has_room(a) == mid.has_room(a) by {
                    assert(self.slot(a) == mid.slot(a));
                }
                Ok(())
            },
            Err(()) => Err(AddError::Overlaps),
        }
    }
}

} // verus!

verus! {

impl Sv39 {
    /// Map a shared page at the given virtual address.
    pub fn add_shared(&mut self, address: crate::arch::page::Page, ppn: SharedPPN, rwx: RWX, usermode: bool, global: bool) -> (r: Result<(), AddError>)
        requires
            old(self).wf(),
        ensures
            final(self).wf(),
            final(self).l1_base_spec() == old(self).l1_base_spec(),
            final(self).l0_base_spec() == old(self).l0_base_spec(),
            final(self).max_tables_spec() == old(self).max_tables_spec(),
            old(self).blocked(address@) || old(self).mapping(address@) is Some ==> r == Err::<
                (),
                AddError,
            >(AddError::Overlaps),
            !old(self).blocked(address@) && old(self).mapping(address@) is None && !old(
                self,
            ).has_room(address@) ==> r == Err::<(), AddError>(
                AddError::AllocateError(AllocateError),
            ),
            !old(self).blocked(address@) && old(self).mapping(address@) is None && old(
                self,
            ).has_room(address@) ==> r is Ok,
            r is Ok ==> final(self).mapping(address@) == Some(
                leaf_entry(ppn@, rwx, usermode, global, true),
            ),
            r is Err ==> forall|a: u64| #[trigger] final(self).mapping(a) == old(self).mapping(a),
            forall|a: u64|
                !same_page(a, address@) ==> #[trigger] final(self).mapping(a) == old(self).mapping(a),
            forall|a: u64| #[trigger] final(self).blocked(a) == old(self).blocked(a),
            forall|a: u64| !old(self).has_room(a) ==> !#[trigger] final(self).has_room(a),
            r is Err ==> old(self).occupied(address@) || !final(self).has_room(address@),
            forall|a: u64| old(self).mapping(a) is Some ==> #[trigger] final(self).mapping(a) == old(self).mapping(a),
            final(self).l1_view().len() >= old(self).l1_view().len(),
            final(self).l0_view().len() >= old(self).l0_view().len(),
            final(self).l1_view().len() <= old(self).l1_view().len() + 1,
            final(self).l0_view().len() <= old(self).l0_view().len() + 1,
    {
        let va = address.as_ptr();
        let ghost p = ppn@;
        let (t, i) = self.get_pte_alloc(va)?;
        let ghost mid = *self;
        proof {
            lemma_set_leaf(self.root_view(), self.l1_view(), self.l0_view(), self.l1_base, self.l0_base, va, 0);
        }
        let mut leaf = Leaf(self.l0[t][i]);
        match leaf.set_shared(ppn, rwx, usermode, global) {
            Ok(()) => {
                proof {
                    lemma_set_leaf(self.root_view(), self.l1_view(), self.l0_view(), self.l1_base, self.l0_base, va, leaf.0);
                    lemma_leaf_entry(p, rwx, usermode, global, true);
                }
                let ghost l0_old = self.l0_view();
                self.l0[t].set(i, leaf.0);
                assert(self.l0_view() =~= l0_old.update(t as int, l0_old[t as int].update(i as int, leaf.0)));
                assert forall|a: u64| !same_page(a, va) implies #[trigger] self.mapping(a) == mid.mapping(a) by {}
                assert(self.root_view() == mid.root_view() && self.l1_view() == mid.l1_view());
                assert(forall|a: u64| #[trigger] self.blocked(a) == mid.blocked(a));
                assert forall|a: u64| #[trigger] self.has_room(a) == mid.has_room(a) by {
                    assert(self.slot(a) == mid.slot(a));
                }
                Ok(())
            },
            Err(()) => Err(AddError::Overlaps),
        }
    }

    /// Remove a mapping and return the page it mapped.
    ///
    /// Fails if the address is not mapped.
    pub fn remove(&mut self, address: crate::arch::page::Page) -> (r: Result<PrivateOrShared, ()>)
        requires
            old(self).wf(),
        ensures
            final(self).wf(),
            final(self).l1_base_spec() == old(self).l1_base_spec(),
            final(self).l0_base_spec() == old(self).l0_base_spec(),
            final(self).max_tables_spec() == old(self).max_tables_spec(),
            r is Ok <==> old(self).mapping(address@) is Some,
            r matches Ok(PrivateOrShared::Private(p)) ==> !shared_bit(old(self).mapping(address@).unwrap()) && p@
                == entry_ppn(old(self).mapping(address@).unwrap()),
            r matches Ok(PrivateOrShared::Shared(p)) ==> shared_bit(old(self).mapping(address@).unwrap()) && p@
                == entry_ppn(old(self).mapping(address@).unwrap()),
            r is Ok ==> final(self).mapping(address@) is None,
            r is Err ==> forall|a: u64| #[trigger] final(self).mapping(a) == old(self).mapping(a),
            forall|a: u64|
                !same_page(a, address@) ==> #[trigger] final(self).mapping(a) == old(self).mapping(a),
    {
        let va = address.as_ptr();
        let (t, i) = self.get_pte(va)?;
        proof {
            lemma_set_leaf(self.root_view(), self.l1_view(), self.l0_view(), self.l1_base, self.l0_base, va, 0);
        }
        let mut leaf = Leaf(self.l0[t][i]);
        let r = leaf.clear();
        if r.is_ok() {
            let ghost l0_old = self.l0_view();
            let ghost before = *self;
            self.l0[t].set(i, leaf.0);
            assert(self.l0_view() =~= l0_old.update(t as int, l0_old[t as int].update(i as int, 0)));
            proof { lemma_zero_entry(); }
            assert forall|a: u64| !same_page(a, va) implies #[trigger] self.mapping(a) == before.mapping(a) by {}
        }
        r
    }

    /// Map the page mapped at `from` also at `to`, as a shared page with the given flags.
    ///
    /// Fails if both addresses are the same, if `from` is not mapped, if `to` is already mapped
    /// or if no table for `to` can be made.
    pub fn alias_address(&mut self, from: crate::arch::page::Page, to: crate::arch::page::Page, rwx: RWX, usermode: bool, global: bool) -> (r: Result<(), ()>)
        requires
            old(self).wf(),
        ensures
            final(self).wf(),
            final(self).l1_base_spec() == old(self).l1_base_spec(),
            final(self).l0_base_spec() == old(self).l0_base_spec(),
            final(self).max_tables_spec() == old(self).max_tables_spec(),
            r is Ok <==> from@ != to@ && old(self).mapping(from@) is Some && !old(self).blocked(to@)
                && old(self).has_room(to@) && old(self).mapping(to@) is None,
            r is Ok ==> final(self).mapping(to@) == Some(
                leaf_entry(entry_ppn(old(self).mapping(from@).unwrap()), rwx, usermode, global, true),
            ),
            r is Err ==> forall|a: u64| #[trigger] final(self).mapping(a) == old(self).mapping(a),
            forall|a: u64|
                !same_page(a, to@) ==> #[trigger] final(self).mapping(a) == old(self).mapping(a),
    {
        if from.as_ptr() == to.as_ptr() {
            return Err(());
        }
        let fva = from.as_ptr();
        let tva = to.as_ptr();
        let (ft, fi) = self.get_pte(fva)?;
        let (tt, ti) = match self.get_pte_alloc(tva) {
            Ok(x) => x,
            Err(_) => return Err(()),
        };
        let ghost mid = *self;
        proof {
            lemma_set_leaf(self.root_view(), self.l1_view(), self.l0_view(), self.l1_base, self.l0_base, tva, 0);
            assert(self.slot(fva) == Some((ft as int, fi as int)));
            lemma_set_leaf(self.root_view(), self.l1_view(), self.l0_view(), self.l1_base, self.l0_base, fva, 0);
        }
        let from_leaf = Leaf(self.l0[ft][fi]);
        let mut to_leaf = Leaf(self.l0[tt][ti]);
        if from_leaf.is_valid() {
            if !to_leaf.is_valid() {
                let shared = match from_leaf.share() {
                    Ok(s) => s,
                    Err(()) => return Err(()),
                };
                let ghost p = shared@;
                let _ = to_leaf.set_shared(shared, rwx, usermode, global);
                proof {
                    lemma_set_leaf(self.root_view(), self.l1_view(), self.l0_view(), self.l1_base, self.l0_base, tva, to_leaf.0);
                    lemma_leaf_entry(p, rwx, usermode, global, true);
                }
                let ghost l0_old = self.l0_view();
                self.l0[tt].set(ti, to_leaf.0);
                assert(self.l0_view() =~= l0_old.update(tt as int, l0_old[tt as int].update(ti as int, to_leaf.0)));
                assert forall|a: u64| !same_page(a, tva) implies #[trigger] self.mapping(a) == mid.mapping(a) by {}
                Ok(())
            } else {
                Err(())
            }
        } else {
            Err(())
        }
    }

    /// Return the page number and flags of the mapping at the given address, if any.
    pub fn get(&self, address: u64) -> (r: Option<(PPN, RWX)>)
        requires
            self.wf(),
        ensures
            r is Some <==> translation(self.mapping(address)) is Some,
            r matches Some((p, rwx)) ==> translation(self.mapping(address)) == Some((p@, rwx)),
    {
        let (t, i) = match self.get_pte(address) {
            Ok(x) => x,
            Err(()) => return None,
        };
        proof {
            lemma_set_leaf(self.root_view(), self.l1_view(), self.l0_view(), self.l1_base, self.l0_base, address, 0);
        }
        let leaf = Leaf(self.l0[t][i]);
        if !leaf.is_valid() {
            return None;
        }
        match Entry(leaf.0).rwx() {
            Some(rwx) => Some((PPN::from_raw((leaf.0 >> 10) as u32), rwx)),
            None => None,
        }
    }

    /// Clear the identity maps, i.e. the lower half of the root table.
    pub fn clear_identity_maps(&mut self)
        requires
            old(self).wf(),
        ensures
            final(self).wf(),
            final(self).l1_base_spec() == old(self).l1_base_spec(),
            final(self).l0_base_spec() == old(self).l0_base_spec(),
            final(self).max_tables_spec() == old(self).max_tables_spec(),
            forall|a: u64| vpn2(a) < 256 ==> #[trigger] final(self).mapping(a) is None,
            forall|a: u64| vpn2(a) >= 256 ==> #[trigger] final(self).mapping(a) == old(self).mapping(a),
    {
        proof {
            lemma_zero_entry();
        }
        let mut i: usize = 0;
        while i < 256
            invariant
                i <= 256,
                self.wf(),
                self.l1_base == old(self).l1_base,
                self.l0_base == old(self).l0_base,
                self.max_tables == old(self).max_tables,
                self.l1_view() == old(self).l1_view(),
                self.l0_view() == old(self).l0_view(),
                forall|j: int| 0 <= j < i ==> self.root_view()[j] == 0u64,
                forall|j: int| i <= j < 512 ==> self.root_view()[j] == old(self).root_view()[j],
                entry_ppn(0) == 0,
                0u64 & 0xe == 0,
                0u64 & 1 == 0,
            decreases 256 - i,
        {
            let ghost r0 = self.root_view();
            self.root.set(i, 0);
            assert(self.root_view() == r0.update(i as int, 0u64));
            assert forall|x: int, y: int|
                0 <= x < 512 && 0 <= y < 512 && x != y && follows(
                    #[trigger] self.root_view()[x],
                    self.l1_base,
                    self.l1_view().len(),
                ) && follows(#[trigger] self.root_view()[y], self.l1_base, self.l1_view().len()) implies entry_ppn(
                self.root_view()[x],
            ) != entry_ppn(self.root_view()[y]) by {
                assert(self.root_view()[x] == r0[x] && self.root_view()[y] == r0[y]);
            }
            i = i + 1;
        }
        assert forall|a: u64| vpn2(a) < 256 implies #[trigger] self.mapping(a) is None by {
            lemma_vpn_bounds(a);
        }
        assert forall|a: u64| vpn2(a) >= 256 implies #[trigger] self.mapping(a) == old(self).mapping(a) by {
            lemma_vpn_bounds(a);
        }
    }
}

} // verus!

verus! {

/// The address of the `k`-th page from `va`.
pub open spec fn page_at(va: u64, k: int) -> u64 {
    (va + k * 4096) as u64
}

/// Pages less than `2^27` pages apart are different Sv39 pages.
pub proof fn lemma_distinct_pages(va: u64, j: int, k: int)
    requires
        0 <= j < k < 0x800_0000,
        va + k * 4096 <= u64::MAX,
    ensures
        !same_page(page_at(va, j), page_at(va, k)),
{
    let a = page_at(va, j);
    let b = page_at(va, k);
    assert(vpn2(a) == vpn2(b) && vpn1(a) == vpn1(b) && vpn0(a) == vpn0(b) ==> (a >> 12) & 0x7ff_ffff
        == (b >> 12) & 0x7ff_ffff) by (bit_vector);
    if same_page(a, b) {
        vstd::bits::lemma_u64_shr_is_div(a, 12);
        vstd::bits::lemma_u64_shr_is_div(b, 12);
        vstd::arithmetic::power2::lemma2_to64();
        vstd::bits::lemma_u64_low_bits_mask_is_mod(a >> 12, 27);
        vstd::bits::lemma_u64_low_bits_mask_is_mod(b >> 12, 27);
        vstd::arithmetic::power2::lemma2_to64_rest();
        assert(vstd::bits::low_bits_mask(27) == 0x7ff_ffff);
        let x = va as int / 4096;
        assert(a as int / 4096 == x + j) by {
            vstd::arithmetic::div_mod::lemma_hoist_over_denominator(va as int, j, 4096);
        }
        assert(b as int / 4096 == x + k) by {
            vstd::arithmetic::div_mod::lemma_hoist_over_denominator(va as int, k, 4096);
        }
        assert((x + j) % 0x800_0000 == (x + k) % 0x800_0000);
        vstd::arithmetic::div_mod::lemma_mod_equivalence(x + k, x + j, 0x800_0000);
        vstd::arithmetic::div_mod::lemma_mod_is_zero((k - j) as nat, 0x800_0000);
    }
}

impl Sv39 {
    /// Allocate `count` private pages from `frames` (each from the top of its stack) and map
    /// them at consecutive virtual addresses from `virtual_address`, user-accessible. Fails
    /// with `Overlaps`, changing nothing, if any page of the range is in use; a page for which
    /// no table is left is skipped.
    pub fn allocate(
        &mut self,
        frames: &mut crate::memory::Allocator,
        virtual_address: crate::arch::page::Page,
        count: usize,
        rwx: RWX,
    ) -> (r: Result<(), AddError>)
        requires
            old(self).wf(),
            old(frames).wf(),
            old(frames)@.len() >= count,
            count < 0x800_0000,
            virtual_address@ + count * 4096 <= u64::MAX,
        ensures
            final(self).wf(),
            final(self).max_tables_spec() == old(self).max_tables_spec(),
            final(self).l1_view().len() <= old(self).l1_view().len() + count,
            final(self).l0_view().len() <= old(self).l0_view().len() + count,
            final(frames).wf(),
            (exists|k: int| 0 <= k < count && #[trigger] old(self).occupied(page_at(virtual_address@, k)))
                ==> r == Err::<(), AddError>(AddError::Overlaps) && *final(self) == *old(self) && final(frames)@
                == old(frames)@,
            (forall|k: int| 0 <= k < count ==> !#[trigger] old(self).occupied(page_at(virtual_address@, k))) ==> {
                &&& r is Ok
                &&& final(frames)@ == old(frames)@.take(old(frames)@.len() - count)
                &&& forall|k: int|
                    0 <= k < count ==> #[trigger] final(self).mapping(page_at(virtual_address@, k)) is None
                        || final(self).mapping(page_at(virtual_address@, k)) == Some(
                        leaf_entry(old(frames)@[old(frames)@.len() - 1 - k], rwx, true, false, false),
                    )
                &&& forall|k: int|
                    0 <= k < count && #[trigger] final(self).mapping(page_at(virtual_address@, k)) is None
                        ==> !final(self).has_room(page_at(virtual_address@, k))
                &&& forall|a: u64|
                    (forall|k: int| 0 <= k < count ==> !same_page(a, #[trigger] page_at(virtual_address@, k)))
                        ==> #[trigger] final(self).mapping(a) == old(self).mapping(a)
            },
    {
        // Refuse the whole range if any page of it is in use.
        let base = virtual_address.as_ptr();
        let mut j: usize = 0;
        while j < count
            invariant
                j <= count < 0x800_0000,
                self.wf(),
                frames.wf(),
                base == virtual_address@,
                virtual_address@ + count * 4096 <= u64::MAX,
                forall|k: int| 0 <= k < j ==> !#[trigger] self.occupied(page_at(virtual_address@, k)),
            decreases count - j,
        {
            let a = base + (j as u64) * 4096;
            assert(a == page_at(virtual_address@, j as int));
            if self.is_occupied(a) {
                return Err(AddError::Overlaps);
            }
            j = j + 1;
        }
        let mut va = virtual_address;
        let mut i: usize = 0;
        let ghost f0 = frames@;
        let ghost s0 = *self;
        while i < count
            invariant
                self.wf(),
                frames.wf(),
                i <= count < 0x800_0000,
                f0.len() >= count,
                virtual_address@ + count * 4096 <= u64::MAX,
                frames@ == f0.take(f0.len() - i),
                i < count ==> va@ == page_at(virtual_address@, i as int),
                forall|k: int|
                    0 <= k < i && s0.mapping(page_at(virtual_address@, k)) is Some
                        ==> #[trigger] self.mapping(page_at(virtual_address@, k)) == s0.mapping(
                        page_at(virtual_address@, k),
                    ),
                forall|k: int|
                    0 <= k < i && s0.mapping(page_at(virtual_address@, k)) is None
                        ==> #[trigger] self.mapping(page_at(virtual_address@, k)) is None
                        || self.mapping(page_at(virtual_address@, k)) == Some(
                        leaf_entry(f0[f0.len() - 1 - k], rwx, true, false, false),
                    ),
                forall|k: int| 0 <= k < count ==> !#[trigger] s0.occupied(page_at(virtual_address@, k)),
                s0 == *old(self),
                self.l1_view().len() <= s0.l1_view().len() + i,
                self.l0_view().len() <= s0.l0_view().len() + i,
                self.max_tables_spec() == s0.max_tables_spec(),
                forall|a: u64| #[trigger] self.blocked(a) == s0.blocked(a),
                forall|k: int|
                    0 <= k < i && s0.mapping(page_at(virtual_address@, k)) is None
                        && #[trigger] self.mapping(page_at(virtual_address@, k)) is None
                        ==> s0.blocked(page_at(virtual_address@, k)) || !self.has_room(page_at(virtual_address@, k)),
                forall|a: u64|
                    (forall|k: int| 0 <= k < i ==> !same_page(a, #[trigger] page_at(virtual_address@, k)))
                        ==> #[trigger] self.mapping(a) == s0.mapping(a),
            decreases count - i,
        {
            let ghost before = *self;
            let ghost vi = va@;
            let ppn = frames.allocate().unwrap();
            let res = self.add(va, ppn, rwx, true, false);
            proof {
                assert forall|k: int| 0 <= k < i implies !same_page(#[trigger] page_at(virtual_address@, k), vi) by {
                    lemma_distinct_pages(virtual_address@, k, i as int);
                }
                assert(frames@ =~= f0.take(f0.len() - (i + 1)));
                assert forall|a: u64|
                    (forall|k: int| 0 <= k < i + 1 ==> !same_page(a, #[trigger] page_at(virtual_address@, k)))
                        implies #[trigger] self.mapping(a) == s0.mapping(a) by {
                    assert(!same_page(a, page_at(virtual_address@, i as int)));
                }
                assert(before.mapping(vi) == s0.mapping(vi)) by {
                    assert forall|k: int| 0 <= k < i implies !same_page(vi, #[trigger] page_at(virtual_address@, k)) by {
                        lemma_distinct_pages(virtual_address@, k, i as int);
                    }
                }
            }
            i = i + 1;
            if i < count {
                va = va.skip(1).unwrap();
            }
        }
        proof {
            assert forall|k: int| 0 <= k < count implies {
                &&& #[trigger] s0.mapping(page_at(virtual_address@, k)) is None
                &&& !s0.blocked(page_at(virtual_address@, k))
            } by {
                assert(!s0.occupied(page_at(virtual_address@, k)));
            }
        }
        Ok(())
    }
}


impl Sv39 {
    /// Allocate `count` pages from `frames` and map them as shareable pages at consecutive
    /// virtual addresses from `address`, user-accessible. It stops with an error at the first
    /// page that cannot be mapped; the pages taken up to then stay taken.
    pub fn allocate_shared(
        &mut self,
        frames: &mut crate::memory::Allocator,
        address: crate::arch::page::Page,
        count: usize,
        rwx: RWX,
    ) -> (r: Result<(), ()>)
        requires
            old(self).wf(),
            old(frames).wf(),
            old(frames)@.len() >= count,
            count < 0x800_0000,
            address@ + count * 4096 <= u64::MAX,
        ensures
            final(self).wf(),
            final(self).max_tables_spec() == old(self).max_tables_spec(),
            final(self).l1_view().len() <= old(self).l1_view().len() + count,
            final(self).l0_view().len() <= old(self).l0_view().len() + count,
            final(frames).wf(),
            old(frames)@.len() - count <= final(frames)@.len() <= old(frames)@.len(),
            final(frames)@ == old(frames)@.take(final(frames)@.len() as int),
            r is Ok ==> final(frames)@.len() == old(frames)@.len() - count,
            r is Ok ==> forall|k: int|
                0 <= k < count ==> #[trigger] old(self).mapping(page_at(address@, k)) is None,
            r is Ok ==> forall|k: int|
                0 <= k < count ==> #[trigger] final(self).mapping(page_at(address@, k)) == Some(
                    leaf_entry(old(frames)@[old(frames)@.len() - 1 - k], rwx, true, false, true),
                ),
            r is Err ==> {
                let k = old(frames)@.len() - final(frames)@.len() - 1;
                &&& 0 <= k < count
                &&& forall|j: int|
                    0 <= j < k ==> #[trigger] final(self).mapping(page_at(address@, j)) == Some(
                        leaf_entry(old(frames)@[old(frames)@.len() - 1 - j], rwx, true, false, true),
                    )
                &&& old(self).occupied(page_at(address@, k)) || !final(self).has_room(page_at(address@, k))
            },
            forall|a: u64|
                (forall|k: int| 0 <= k < count ==> !same_page(a, #[trigger] page_at(address@, k)))
                    ==> #[trigger] final(self).mapping(a) == old(self).mapping(a),
    {
        let mut va = address;
        let mut i: usize = 0;
        let ghost f0 = frames@;
        let ghost s0 = *self;
        while i < count
            invariant
                self.wf(),
                frames.wf(),
                i <= count < 0x800_0000,
                f0.len() >= count,
                address@ + count * 4096 <= u64::MAX,
                frames@ == f0.take(f0.len() - i),
                f0 == old(frames)@,
                s0 == *old(self),
                self.l1_view().len() <= s0.l1_view().len() + i,
                self.l0_view().len() <= s0.l0_view().len() + i,
                i < count ==> va@ == page_at(address@, i as int),
                forall|k: int| 0 <= k < i ==> #[trigger] s0.mapping(page_at(address@, k)) is None,
                forall|k: int|
                    0 <= k < i ==> #[trigger] self.mapping(page_at(address@, k)) == Some(
                        leaf_entry(f0[f0.len() - 1 - k], rwx, true, false, true),
                    ),
                self.max_tables_spec() == s0.max_tables_spec(),
                forall|a: u64| #[trigger] self.blocked(a) == s0.blocked(a),
                forall|a: u64|
                    (forall|k: int| 0 <= k < i ==> !same_page(a, #[trigger] page_at(address@, k)))
                        ==> #[trigger] self.mapping(a) == s0.mapping(a),
            decreases count - i,
        {
            let ghost before = *self;
            let ghost vi = va@;
            let ppn = frames.allocate().unwrap();
            let shared = crate::memory::SharedPPN::from_raw(ppn);
            proof {
                assert(frames@ =~= f0.take(f0.len() - (i + 1)));
                assert forall|k: int| 0 <= k < i implies !same_page(#[trigger] page_at(address@, k), vi) by {
                    lemma_distinct_pages(address@, k, i as int);
                }
                assert(before.mapping(vi) == s0.mapping(vi)) by {
                    assert forall|k: int| 0 <= k < i implies !same_page(vi, #[trigger] page_at(address@, k)) by {
                        lemma_distinct_pages(address@, k, i as int);
                    }
                }
            }
            match self.add_shared(va, shared, rwx, true, false) {
                Ok(()) => {},
                Err(_) => {
                    return Err(());
                },
            }
            proof {
                assert forall|a: u64|
                    (forall|k: int| 0 <= k < i + 1 ==> !same_page(a, #[trigger] page_at(address@, k)))
                        implies #[trigger] self.mapping(a) == s0.mapping(a) by {
                    assert(!same_page(a, page_at(address@, i as int)));
                }
            }
            i = i + 1;
            if i < count {
                va = va.skip(1).unwrap();
            }
        }
        Ok(())
    }
}

impl Sv39 {
    /// Map `count` kernel pages (read-write, global) taken from `frames` at consecutive
    /// virtual addresses from `address`, as done while booting. It stops with an error at the
    /// first page that cannot be mapped (one that overlaps an existing mapping, or for which no
    /// table is left); the pages taken up to then stay taken.
    pub fn allocate_pages(
        &mut self,
        frames: &mut crate::memory::Allocator,
        address: crate::arch::page::Page,
        count: usize,
    ) -> (r: Result<(), AddError>)
        requires
            old(self).wf(),
            old(frames).wf(),
            old(frames)@.len() >= count,
            count < 0x800_0000,
            address@ + count * 4096 <= u64::MAX,
        ensures
            final(self).wf(),
            final(self).max_tables_spec() == old(self).max_tables_spec(),
            final(self).l1_view().len() <= old(self).l1_view().len() + count,
            final(self).l0_view().len() <= old(self).l0_view().len() + count,
            final(frames).wf(),
            old(frames)@.len() - count <= final(frames)@.len() <= old(frames)@.len(),
            final(frames)@ == old(frames)@.take(final(frames)@.len() as int),
            r is Ok ==> final(frames)@.len() == old(frames)@.len() - count,
            r is Ok ==> forall|k: int|
                0 <= k < count ==> #[trigger] old(self).mapping(page_at(address@, k)) is None,
            r is Ok ==> forall|k: int|
                0 <= k < count ==> #[trigger] final(self).mapping(page_at(address@, k)) == Some(
                    leaf_entry(old(frames)@[old(frames)@.len() - 1 - k], RWX::RW, false, true, false),
                ),
            r is Err ==> {
                let k = old(frames)@.len() - final(frames)@.len() - 1;
                &&& 0 <= k < count
                &&& forall|j: int|
                    0 <= j < k ==> #[trigger] final(self).mapping(page_at(address@, j)) == Some(
                        leaf_entry(old(frames)@[old(frames)@.len() - 1 - j], RWX::RW, false, true, false),
                    )
                &&& old(self).occupied(page_at(address@, k)) || !final(self).has_room(page_at(address@, k))
            },
            forall|a: u64|
                (forall|k: int| 0 <= k < count ==> !same_page(a, #[trigger] page_at(address@, k)))
                    ==> #[trigger] final(self).mapping(a) == old(self).mapping(a),
    {
        let mut va = address;
        let mut i: usize = 0;
        let ghost f0 = frames@;
        let ghost s0 = *self;
        while i < count
            invariant
                self.wf(),
                frames.wf(),
                i <= count < 0x800_0000,
                f0.len() >= count,
                address@ + count * 4096 <= u64::MAX,
                frames@ == f0.take(f0.len() - i),
                f0 == old(frames)@,
                s0 == *old(self),
                self.l1_view().len() <= s0.l1_view().len() + i,
                self.l0_view().len() <= s0.l0_view().len() + i,
                i < count ==> va@ == page_at(address@, i as int),
                forall|k: int| 0 <= k < i ==> #[trigger] s0.mapping(page_at(address@, k)) is None,
                forall|k: int|
                    0 <= k < i ==> #[trigger] self.mapping(page_at(address@, k)) == Some(
                        leaf_entry(f0[f0.len() - 1 - k], RWX::RW, false, true, false),
                    ),
                self.max_tables_spec() == s0.max_tables_spec(),
                forall|a: u64| #[trigger] self.blocked(a) == s0.blocked(a),
                forall|a: u64|
                    (forall|k: int| 0 <= k < i ==> !same_page(a, #[trigger] page_at(address@, k)))
                        ==> #[trigger] self.mapping(a) == s0.mapping(a),
            decreases count - i,
        {
            let ghost before = *self;
            let ghost vi = va@;
            let ppn = frames.allocate().unwrap();
            proof {
                assert(frames@ =~= f0.take(f0.len() - (i + 1)));
                assert forall|k: int| 0 <= k < i implies !same_page(#[trigger] page_at(address@, k), vi) by {
                    lemma_distinct_pages(address@, k, i as int);
                }
                assert(before.mapping(vi) == s0.mapping(vi)) by {
                    assert forall|k: int| 0 <= k < i implies !same_page(vi, #[trigger] page_at(address@, k)) by {
                        lemma_distinct_pages(address@, k, i as int);
                    }
                }
            }
            match self.add(va, ppn, RWX::RW, false, true) {
                Ok(()) => {},
                Err(e) => {
                    return Err(e);
                },
            }
            proof {
                assert forall|a: u64|
                    (forall|k: int| 0 <= k < i + 1 ==> !same_page(a, #[trigger] page_at(address@, k)))
                        implies #[trigger] self.mapping(a) == s0.mapping(a) by {
                    assert(!same_page(a, page_at(address@, i as int)));
                }
            }
            i = i + 1;
            if i < count {
                va = va.skip(1).unwrap();
            }
        }
        Ok(())
    }
}


impl Sv39 {
    /// Map the `count` pages from page number `start`, which no allocator tracks (such as
    /// device memory), at consecutive virtual addresses from `address`.
    /// Fails with `Overlaps`, changing nothing, if any page of the range is in use; else it
    /// stops with an error at the first page for which no table is left.
    pub fn add_direct_range(
        &mut self,
        address: crate::arch::page::Page,
        start: u32,
        count: usize,
        rwx: RWX,
        usermode: bool,
        global: bool,
    ) -> (r: Result<(), AddError>)
        requires
            old(self).wf(),
            count < 0x800_0000,
            address@ + count * 4096 <= u64::MAX,
            start + count <= 0x1_0000_0000,
        ensures
            final(self).wf(),
            final(self).max_tables_spec() == old(self).max_tables_spec(),
            final(self).l1_view().len() <= old(self).l1_view().len() + count,
            final(self).l0_view().len() <= old(self).l0_view().len() + count,
            (exists|k: int| 0 <= k < count && #[trigger] old(self).occupied(page_at(address@, k)))
                ==> r == Err::<(), AddError>(AddError::Overlaps) && *final(self) == *old(self),
            (forall|k: int| 0 <= k < count ==> !#[trigger] old(self).occupied(page_at(address@, k))) ==> {
                &&& r is Ok ==> forall|k: int|
                    0 <= k < count ==> #[trigger] final(self).mapping(page_at(address@, k)) == Some(
                        leaf_entry((start + k) as u32, rwx, usermode, global, false),
                    )
                &&& r is Err ==> r == Err::<(), AddError>(AddError::AllocateError(AllocateError)) && exists|k: int|
                    0 <= k < count && !#[trigger] final(self).has_room(page_at(address@, k))
                        && final(self).l1_view().len() <= old(self).l1_view().len() + k + 1
                        && final(self).l0_view().len() <= old(self).l0_view().len() + k + 1 && forall|j: int|
                        0 <= j < k ==> final(self).mapping(page_at(address@, j)) == Some(
                            leaf_entry((start + j) as u32, rwx, usermode, global, false),
                        )
            },
            forall|a: u64|
                (forall|k: int| 0 <= k < count ==> !same_page(a, #[trigger] page_at(address@, k)))
                    ==> #[trigger] final(self).mapping(a) == old(self).mapping(a),
    {
        // Refuse the whole range if any page of it is in use.
        let base = address.as_ptr();
        let mut j: usize = 0;
        while j < count
            invariant
                j <= count < 0x800_0000,
                self.wf(),
                base == address@,
                address@ + count * 4096 <= u64::MAX,
                forall|k: int| 0 <= k < j ==> !#[trigger] self.occupied(page_at(address@, k)),
            decreases count - j,
        {
            let a = base + (j as u64) * 4096;
            assert(a == page_at(address@, j as int));
            if self.is_occupied(a) {
                return Err(AddError::Overlaps);
            }
            j = j + 1;
        }
        let mut va = address;
        let mut i: usize = 0;
        let ghost s0 = *self;
        while i < count
            invariant
                self.wf(),
                i <= count < 0x800_0000,
                address@ + count * 4096 <= u64::MAX,
                start + count <= 0x1_0000_0000,
                s0 == *old(self),
                forall|k: int| 0 <= k < count ==> !#[trigger] s0.occupied(page_at(address@, k)),
                self.l1_view().len() <= s0.l1_view().len() + i,
                self.l0_view().len() <= s0.l0_view().len() + i,
                i < count ==> va@ == page_at(address@, i as int),
                forall|k: int|
                    0 <= k < i ==> #[trigger] self.mapping(page_at(address@, k)) == Some(
                        leaf_entry((start + k) as u32, rwx, usermode, global, false),
                    ),
                self.max_tables_spec() == s0.max_tables_spec(),
                forall|a: u64| #[trigger] self.blocked(a) == s0.blocked(a),
                forall|a: u64|
                    (forall|k: int| 0 <= k < i ==> !same_page(a, #[trigger] page_at(address@, k)))
                        ==> #[trigger] self.mapping(a) == s0.mapping(a),
            decreases count - i,
        {
            let ghost before = *self;
            let ghost vi = va@;
            let ppn = PPN::from_raw(start + i as u32);
            proof {
                assert forall|k: int| 0 <= k < i implies !same_page(#[trigger] page_at(address@, k), vi) by {
                    lemma_distinct_pages(address@, k, i as int);
                }
                assert(before.mapping(vi) == s0.mapping(vi)) by {
                    assert forall|k: int| 0 <= k < i implies !same_page(vi, #[trigger] page_at(address@, k)) by {
                        lemma_distinct_pages(address@, k, i as int);
                    }
                }
                assert(!s0.occupied(page_at(address@, i as int)));
            }
            match self.add(va, ppn, rwx, usermode, global) {
                Ok(()) => {},
                Err(e) => {
                    proof {
                        assert(!self.has_room(page_at(address@, i as int)));
                    }
                    return Err(e);
                },
            }
            proof {
                assert forall|a: u64|
                    (forall|k: int| 0 <= k < i + 1 ==> !same_page(a, #[trigger] page_at(address@, k)))
                        implies #[trigger] self.mapping(a) == s0.mapping(a) by {
                    assert(!same_page(a, page_at(address@, i as int)));
                }
            }
            i = i + 1;
            if i < count {
                va = va.skip(1).unwrap();
            }
        }
        Ok(())
    }
}

/// What `get` reads back at an address is the page and access that `add` (or `add_shared`)
/// mapped there, and `remove` gives back that page.
pub proof fn lemma_read_back_mapping(ppn: u32, rwx: RWX, usermode: bool, global: bool, shared: bool)
    ensures
        translation(Some(leaf_entry(ppn, rwx, usermode, global, shared))) == Some((ppn, rwx)),
        entry_ppn(leaf_entry(ppn, rwx, usermode, global, shared)) == ppn,
{
    lemma_leaf_entry(ppn, rwx, usermode, global, shared);
}

} // verus!
