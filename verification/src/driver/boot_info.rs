//! What the boot log reports of the device tree: the model, the memory range, the reserved
//! memory ranges, the boot arguments and the standard output path, picked from the lines of a
//! dump of the tree one at a time.

use crate::driver::device_tree::{decode_reg, decode_u32, reg_value, DumpLine, LineView};
use crate::util::be_u32;
use vstd::prelude::*;

verus! {

/// `#address-cells`
pub open spec fn key_address_cells() -> Seq<u8> {
    seq![35u8, 97, 100, 100, 114, 101, 115, 115, 45, 99, 101, 108, 108, 115]
}

/// `#size-cells`
pub open spec fn key_size_cells() -> Seq<u8> {
    seq![35u8, 115, 105, 122, 101, 45, 99, 101, 108, 108, 115]
}

/// `model`
pub open spec fn key_model() -> Seq<u8> {
    seq![109u8, 111, 100, 101, 108]
}

/// `reg`
pub open spec fn key_reg() -> Seq<u8> {
    seq![114u8, 101, 103]
}

/// `bootargs`
pub open spec fn key_bootargs() -> Seq<u8> {
    seq![98u8, 111, 111, 116, 97, 114, 103, 115]
}

/// `stdout-path`
pub open spec fn key_stdout_path() -> Seq<u8> {
    seq![115u8, 116, 100, 111, 117, 116, 45, 112, 97, 116, 104]
}

/// `reserved-memory`
pub open spec fn prefix_reserved_memory() -> Seq<u8> {
    seq![114u8, 101, 115, 101, 114, 118, 101, 100, 45, 109, 101, 109, 111, 114, 121]
}

/// `memory@`
pub open spec fn prefix_memory() -> Seq<u8> {
    seq![109u8, 101, 109, 111, 114, 121, 64]
}

/// `chosen`
pub open spec fn prefix_chosen() -> Seq<u8> {
    seq![99u8, 104, 111, 115, 101, 110]
}

/// Whether `s` begins with `p`.
pub open spec fn starts_with(s: Seq<u8>, p: Seq<u8>) -> bool {
    p.len() <= s.len() && s.take(p.len() as int) == p
}

/// A 32-bit cell value, if the property value is one.
pub open spec fn cell_value(v: Seq<u8>) -> Option<u32> {
    if v.len() == 4 {
        Some(be_u32(v, 0))
    } else {
        None
    }
}

/// Something the boot log reports.
pub enum BootInfo<'a> {
    /// The model of the machine.
    Model(&'a [u8]),
    /// The start and size of the memory, or `None` if its `reg` is malformed.
    Memory(Option<(u64, u64)>),
    /// The start and size of a reserved memory range, or `None` if its `reg` is malformed.
    Reserved(Option<(u64, u64)>),
    /// The boot arguments.
    BootArgs(&'a [u8]),
    /// The path of the standard output device.
    StdoutPath(&'a [u8]),
}

/// The abstract value of a [`BootInfo`].
pub ghost enum InfoView {
    Model(Seq<u8>),
    Memory(Option<(u64, u64)>),
    Reserved(Option<(u64, u64)>),
    BootArgs(Seq<u8>),
    StdoutPath(Seq<u8>),
}

impl<'a> BootInfo<'a> {
    pub open spec fn view(&self) -> InfoView {
        match *self {
            BootInfo::Model(v) => InfoView::Model(v@),
            BootInfo::Memory(m) => InfoView::Memory(m),
            BootInfo::Reserved(m) => InfoView::Reserved(m),
            BootInfo::BootArgs(v) => InfoView::BootArgs(v@),
            BootInfo::StdoutPath(v) => InfoView::StdoutPath(v@),
        }
    }
}

/// Error returned for a `reg` read before the number of cells it is made of is known.
#[derive(Clone, Copy, Debug, PartialEq, Eq)]
pub struct CellsUnset;

/// The state of the scan: the names of the nodes from the root down to the current one, and
/// the numbers of address and size cells of the root and of the reserved memory node.
pub struct BootScan<'a> {
    path: Vec<&'a [u8]>,
    address_cells: Option<u32>,
    size_cells: Option<u32>,
    reserved_address_cells: Option<u32>,
    reserved_size_cells: Option<u32>,
}

/// The abstract state of a [`BootScan`].
pub ghost struct ScanView {
    pub path: Seq<Seq<u8>>,
    pub address_cells: Option<u32>,
    pub size_cells: Option<u32>,
    pub reserved_address_cells: Option<u32>,
    pub reserved_size_cells: Option<u32>,
}

/// The name of the node at depth `level` (the root's child nodes are at depth 1), or the empty
/// name if there is none.
pub open spec fn node_at(path: Seq<Seq<u8>>, level: int) -> Seq<u8> {
    if 1 <= level <= path.len() {
        path[level - 1]
    } else {
        Seq::empty()
    }
}

/// What a line of the dump does to the scan, and what it reports: a node opening at depth
/// `level` becomes the current node at that depth; the properties that set the numbers of cells
/// are noted; a `reg` of the memory node, or of a child of the reserved memory node, is read
/// with the numbers of cells that apply (those of the reserved memory node where it sets them),
/// and is an error if they are not known.
pub open spec fn boot_step(s: ScanView, line: LineView) -> (ScanView, Result<Option<InfoView>, CellsUnset>) {
    match line {
        LineView::Open(level, name) => {
            let kept = if level - 1 <= s.path.len() { (level - 1) as int } else { s.path.len() as int };
            (ScanView { path: s.path.take(kept).push(name), ..s }, Ok(None))
        },
        LineView::Close(_) => (s, Ok(None)),
        LineView::Text(level, name, value) => boot_property(s, level as int, name, value),
        LineView::Bytes(level, name, value) => boot_property(s, level as int, name, value),
    }
}

/// What a property line of the dump does to the scan, and what it reports.
pub open spec fn boot_property(s: ScanView, level: int, name: Seq<u8>, value: Seq<u8>) -> (
    ScanView,
    Result<Option<InfoView>, CellsUnset>,
) {
    let node = node_at(s.path, level);
    let parent = node_at(s.path, level - 1);
    if level == 1 && name == key_address_cells() {
        (ScanView { address_cells: cell_value(value), ..s }, Ok(None))
    } else if level == 1 && name == key_size_cells() {
        (ScanView { size_cells: cell_value(value), ..s }, Ok(None))
    } else if level == 1 && name == key_model() {
        (s, Ok(Some(InfoView::Model(value))))
    } else if level == 2 && name == key_address_cells() && starts_with(node, prefix_reserved_memory()) {
        (ScanView { reserved_address_cells: cell_value(value), ..s }, Ok(None))
    } else if level == 2 && name == key_size_cells() && starts_with(node, prefix_reserved_memory()) {
        (ScanView { reserved_size_cells: cell_value(value), ..s }, Ok(None))
    } else if level == 2 && name == key_reg() && starts_with(node, prefix_memory()) {
        match (s.address_cells, s.size_cells) {
            (Some(ac), Some(sc)) => (s, Ok(Some(InfoView::Memory(reg_value(value, ac, sc))))),
            _ => (s, Err(CellsUnset)),
        }
    } else if level == 3 && name == key_reg() && starts_with(parent, prefix_reserved_memory()) {
        let ac = if s.reserved_address_cells is Some { s.reserved_address_cells } else { s.address_cells };
        let sc = if s.reserved_size_cells is Some { s.reserved_size_cells } else { s.size_cells };
        match (ac, sc) {
            (Some(a), Some(z)) => (s, Ok(Some(InfoView::Reserved(reg_value(value, a, z))))),
            _ => (s, Err(CellsUnset)),
        }
    } else if level == 2 && name == key_bootargs() && starts_with(node, prefix_chosen()) {
        (s, Ok(Some(InfoView::BootArgs(value))))
    } else if level == 2 && name == key_stdout_path() && starts_with(node, prefix_chosen()) {
        (s, Ok(Some(InfoView::StdoutPath(value))))
    } else {
        (s, Ok(None))
    }
}

/// Whether `a` and `b` hold the same bytes.
fn same_bytes(a: &[u8], b: &Vec<u8>) -> (r: bool)
    ensures
        r == (a@ == b@),
{
    if a.len() != b.len() {
        return false;
    }
    let mut i: usize = 0;
    while i < a.len()
        invariant
            i <= a@.len(),
            a@.len() == b@.len(),
            forall|j: int| 0 <= j < i ==> a@[j] == b@[j],
        decreases a@.len() - i,
    {
        if a[i] != b[i] {
            return false;
        }
        i = i + 1;
    }
    assert(a@ =~= b@);
    true
}

/// Whether `s` begins with the bytes of `p`.
fn begins_with(s: &[u8], p: &Vec<u8>) -> (r: bool)
    ensures
        r == starts_with(s@, p@),
{
    if p.len() > s.len() {
        return false;
    }
    let mut i: usize = 0;
    while i < p.len()
        invariant
            i <= p@.len() <= s@.len(),
            forall|j: int| 0 <= j < i ==> s@[j] == p@[j],
        decreases p@.len() - i,
    {
        if s[i] != p[i] {
            assert(s@.take(p@.len() as int)[i as int] != p@[i as int]);
            return false;
        }
        i = i + 1;
    }
    assert(s@.take(p@.len() as int) =~= p@);
    true
}

impl<'a> BootScan<'a> {
    pub closed spec fn view(&self) -> ScanView {
        ScanView {
            path: self.path@.map_values(|n: &'a [u8]| n@),
            address_cells: self.address_cells,
            size_cells: self.size_cells,
            reserved_address_cells: self.reserved_address_cells,
            reserved_size_cells: self.reserved_size_cells,
        }
    }

    /// A scan at the start of the dump: no node open, no numbers of cells known.
    pub fn new() -> (r: Self)
        ensures
            r@ == (ScanView {
                path: Seq::empty(),
                address_cells: None,
                size_cells: None,
                reserved_address_cells: None,
                reserved_size_cells: None,
            }),
    {
        let r = BootScan {
            path: Vec::new(),
            address_cells: None,
            size_cells: None,
            reserved_address_cells: None,
            reserved_size_cells: None,
        };
        assert(r@.path =~= Seq::<Seq<u8>>::empty());
        r
    }

    /// The name of the node at depth `level`, or the empty name if there is none.
    fn node(&self, level: usize) -> (r: &'a [u8])
        ensures
            r@ == node_at(self@.path, level as int),
    {
        if 1 <= level && level <= self.path.len() {
            self.path[level - 1]
        } else {
            &[]
        }
    }

    /// Take the next line of the dump (see [`boot_step`]).
    pub fn step(&mut self, line: &DumpLine<'a>) -> (r: Result<Option<BootInfo<'a>>, CellsUnset>)
        requires
            line matches DumpLine::Open(level, _) ==> level >= 1,
        ensures
            final(self)@ == boot_step(old(self)@, line@).0,
            match r {
                Ok(Some(info)) => boot_step(old(self)@, line@).1 == Ok::<Option<InfoView>, CellsUnset>(Some(info@)),
                Ok(None) => boot_step(old(self)@, line@).1 == Ok::<Option<InfoView>, CellsUnset>(None),
                Err(e) => boot_step(old(self)@, line@).1 == Err::<Option<InfoView>, CellsUnset>(e),
            },
    {
        match line {
            DumpLine::Open(level, name) => {
                let ghost before = self@.path;
                self.path.truncate(*level - 1);
                self.path.push(*name);
                proof {
                    let kept = if *level - 1 <= before.len() { (*level - 1) as int } else { before.len() as int };
                    assert(self@.path =~= before.take(kept).push(name@));
                }
                Ok(None)
            },
            DumpLine::Close(_) => Ok(None),
            DumpLine::Text(level, name, value) => self.property(*level, name, value),
            DumpLine::Bytes(level, name, value) => self.property(*level, name, value),
        }
    }

    fn property(&mut self, level: usize, name: &'a [u8], value: &'a [u8]) -> (r: Result<Option<BootInfo<'a>>, CellsUnset>)
        ensures
            final(self)@ == boot_property(old(self)@, level as int, name@, value@).0,
            match r {
                Ok(Some(info)) => boot_property(old(self)@, level as int, name@, value@).1 == Ok::<
                    Option<InfoView>,
                    CellsUnset,
                >(Some(info@)),
                Ok(None) => boot_property(old(self)@, level as int, name@, value@).1 == Ok::<Option<InfoView>, CellsUnset>(
                    None,
                ),
                Err(e) => boot_property(old(self)@, level as int, name@, value@).1 == Err::<Option<InfoView>, CellsUnset>(
                    e,
                ),
            },
    {
        let address_cells = vec![35u8, 97, 100, 100, 114, 101, 115, 115, 45, 99, 101, 108, 108, 115];
        let size_cells = vec![35u8, 115, 105, 122, 101, 45, 99, 101, 108, 108, 115];
        let model = vec![109u8, 111, 100, 101, 108];
        let reg = vec![114u8, 101, 103];
        let bootargs = vec![98u8, 111, 111, 116, 97, 114, 103, 115];
        let stdout_path = vec![115u8, 116, 100, 111, 117, 116, 45, 112, 97, 116, 104];
        let reserved_memory = vec![114u8, 101, 115, 101, 114, 118, 101, 100, 45, 109, 101, 109, 111, 114, 121];
        let memory = vec![109u8, 101, 109, 111, 114, 121, 64];
        let chosen = vec![99u8, 104, 111, 115, 101, 110];
        assert(address_cells@ == key_address_cells());
        assert(size_cells@ == key_size_cells());
        assert(model@ == key_model());
        assert(reg@ == key_reg());
        assert(bootargs@ == key_bootargs());
        assert(stdout_path@ == key_stdout_path());
        assert(reserved_memory@ == prefix_reserved_memory());
        assert(memory@ == prefix_memory());
        assert(chosen@ == prefix_chosen());
        let node = self.node(level);
        let parent = if level >= 1 {
            self.node(level - 1)
        } else {
            &[]
        };
        assert(parent@ == node_at(self@.path, level - 1));
        if level == 1 && same_bytes(name, &address_cells) {
            self.address_cells = decode_u32(value);
            Ok(None)
        } else if level == 1 && same_bytes(name, &size_cells) {
            self.size_cells = decode_u32(value);
            Ok(None)
        } else if level == 1 && same_bytes(name, &model) {
            Ok(Some(BootInfo::Model(value)))
        } else if level == 2 && same_bytes(name, &address_cells) && begins_with(node, &reserved_memory) {
            self.reserved_address_cells = decode_u32(value);
            Ok(None)
        } else if level == 2 && same_bytes(name, &size_cells) && begins_with(node, &reserved_memory) {
            self.reserved_size_cells = decode_u32(value);
            Ok(None)
        } else if level == 2 && same_bytes(name, &reg) && begins_with(node, &memory) {
            match (self.address_cells, self.size_cells) {
                (Some(ac), Some(sc)) => Ok(Some(BootInfo::Memory(decode_reg(value, ac, sc)))),
                _ => Err(CellsUnset),
            }
        } else if level == 3 && same_bytes(name, &reg) && begins_with(parent, &reserved_memory) {
            let ac = if self.reserved_address_cells.is_some() {
                self.reserved_address_cells
            } else {
                self.address_cells
            };
            let sc = if self.reserved_size_cells.is_some() {
                self.reserved_size_cells
            } else {
                self.size_cells
            };
            match (ac, sc) {
                (Some(a), Some(z)) => Ok(Some(BootInfo::Reserved(decode_reg(value, a, z)))),
                _ => Err(CellsUnset),
            }
        } else if level == 2 && same_bytes(name, &bootargs) && begins_with(node, &chosen) {
            Ok(Some(BootInfo::BootArgs(value)))
        } else if level == 2 && same_bytes(name, &stdout_path) && begins_with(node, &chosen) {
            Ok(Some(BootInfo::StdoutPath(value)))
        } else {
            Ok(None)
        }
    }
}

} // verus!
