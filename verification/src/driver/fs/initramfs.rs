//! The `initramfs` file system, built from the files of a `cpio` archive for early userspace.
//!
//! Each archive file is inserted under its path: the components before the last are
//! directories (made where missing, with the file's permissions), the last is the file itself,
//! whose data is held in memory pages taken from the page allocator.
//!
//! The nodes live in one table; a directory lists its children by their index in it.

use super::Permissions;
use crate::memory::{AllocateError, Allocator};
use vstd::prelude::*;

verus! {

/// The `/` separating the components of a path.
pub const SEPARATOR: u8 = 0x2f;

/// A file as the archive lists it.
pub struct ArchiveFile {
    pub name: Vec<u8>,
    pub permissions: Permissions,
    pub data: Vec<u8>,
}

/// Possible errors when building the file system.
#[derive(Clone, Copy, Debug, PartialEq, Eq)]
pub enum Error {
    AllocError,
    /// A regular file is a path component of another file, e.g. `/foo.txt/bar.txt`.
    FileTreatedAsDirectory,
    MemoryManagerError(AllocateError),
}

/// A regular file.
pub struct File {
    /// The total size of the file in bytes.
    pub size: usize,
    /// The memory pages holding the data.
    pub pages: Vec<u32>,
    /// The data of the file.
    pub data: Vec<u8>,
}

/// File-type specific data.
pub enum Branch {
    /// A regular file
    File(File),
    /// A directory, with the indices of its children.
    Directory(Vec<usize>),
}

/// A node in the file system tree.
pub struct Node {
    /// The name of the node.
    pub name: Vec<u8>,
    /// The permissions of this node.
    pub permissions: Permissions,
    /// Node data that is file-type specific.
    pub data: Branch,
}

/// The file system.
pub struct InitRAMFS {
    /// All nodes.
    pub nodes: Vec<Node>,
    /// The nodes in the root (`/`).
    pub root: Vec<usize>,
}

/// The abstract value of a node.
pub ghost struct NodeView {
    pub name: Seq<u8>,
    pub permissions: u16,
    pub is_dir: bool,
    pub children: Seq<usize>,
    pub size: nat,
    pub pages: Seq<u32>,
    pub data: Seq<u8>,
}

/// The abstract value of the file system.
pub ghost struct FsView {
    pub nodes: Seq<NodeView>,
    pub root: Seq<usize>,
}

impl Node {
    pub closed spec fn view(&self) -> NodeView {
        match &self.data {
            Branch::File(f) => NodeView {
                name: self.name@,
                permissions: self.permissions.0,
                is_dir: false,
                children: Seq::empty(),
                size: f.size as nat,
                pages: f.pages@,
                data: f.data@,
            },
            Branch::Directory(c) => NodeView {
                name: self.name@,
                permissions: self.permissions.0,
                is_dir: true,
                children: c@,
                size: 0,
                pages: Seq::empty(),
                data: Seq::empty(),
            },
        }
    }
}

impl Branch {
    /// The children, if this is a directory.
    pub fn as_directory(&self) -> (r: Option<&Vec<usize>>)
        ensures
            self is Directory ==> r == Some(&self->Directory_0),
            self is File ==> r is None,
    {
        match self {
            Branch::Directory(d) => Some(d),
            Branch::File(_) => None,
        }
    }

    /// The children, if this is a directory, to change them.
    pub fn as_directory_mut(&mut self) -> (r: Option<&mut Vec<usize>>)
        ensures
            *old(self) is Directory ==> r is Some && *r->0 == old(self)->Directory_0 && *final(self)
                == Branch::Directory(*final(r->0)),
            *old(self) is File ==> r is None && *final(self) == *old(self),
    {
        match self {
            Branch::Directory(d) => Some(d),
            Branch::File(_) => None,
        }
    }

    /// The file, if this is a regular file.
    pub fn as_file(&self) -> (r: Option<&File>)
        ensures
            self is File ==> r == Some(&self->File_0),
            self is Directory ==> r is None,
    {
        match self {
            Branch::File(f) => Some(f),
            Branch::Directory(_) => None,
        }
    }
}

impl InitRAMFS {
    pub closed spec fn view(&self) -> FsView {
        FsView { nodes: self.nodes@.map_values(|n: Node| n@), root: self.root@ }
    }
}

// ---------------------------------------------------------------------------------------------
// Paths.
// ---------------------------------------------------------------------------------------------

/// The index of the first separator in `s` at or after `j`, or `s.len()`.
pub open spec fn first_separator(s: Seq<u8>, j: int) -> int
    decreases s.len() - j,
{
    if j < 0 || j >= s.len() {
        s.len() as int
    } else if s[j] == SEPARATOR {
        j
    } else {
        first_separator(s, j + 1)
    }
}

/// The components of a path: the parts between separators (an empty path has one empty
/// component).
pub open spec fn components(s: Seq<u8>) -> Seq<Seq<u8>>
    decreases s.len(),
{
    let i = first_separator(s, 0);
    if i < 0 || i >= s.len() {
        seq![s]
    } else {
        seq![s.take(i)] + components(s.skip(i + 1))
    }
}

proof fn lemma_first_separator(s: Seq<u8>, j: int)
    requires
        0 <= j <= s.len(),
    ensures
        j <= first_separator(s, j) <= s.len(),
        first_separator(s, j) < s.len() ==> s[first_separator(s, j)] == SEPARATOR,
        forall|k: int| j <= k < first_separator(s, j) ==> s[k] != SEPARATOR,
    decreases s.len() - j,
{
    if j < s.len() && s[j] != SEPARATOR {
        lemma_first_separator(s, j + 1);
    }
}

proof fn lemma_first_separator_skip(s: Seq<u8>, start: int, j: int)
    requires
        0 <= start <= j <= s.len(),
    ensures
        first_separator(s.skip(start), j - start) == first_separator(s, j) - start,
    decreases s.len() - j,
{
    if j < s.len() && s[j] != SEPARATOR {
        lemma_first_separator_skip(s, start, j + 1);
    }
}

/// Split a path into its components.
pub fn split_path(name: &Vec<u8>) -> (r: Vec<Vec<u8>>)
    ensures
        r@.map_values(|c: Vec<u8>| c@) == components(name@),
{
    let mut out: Vec<Vec<u8>> = Vec::new();
    let mut current: Vec<u8> = Vec::new();
    let mut start: usize = 0;
    let mut i: usize = 0;
    let ghost s = name@;
    assert(s.skip(0) =~= s);
    assert(out@.map_values(|c: Vec<u8>| c@) + components(s) =~= components(s));
    assert(current@ =~= s.subrange(0, 0));
    while i < name.len()
        invariant
            s == name@,
            start <= i <= s.len(),
            current@ == s.subrange(start as int, i as int),
            forall|k: int| start <= k < i ==> s[k] != SEPARATOR,
            components(s) == out@.map_values(|c: Vec<u8>| c@) + components(s.skip(start as int)),
        decreases s.len() - i,
    {
        if name[i] == SEPARATOR {
            proof {
                let t = s.skip(start as int);
                lemma_first_separator_skip(s, start as int, start as int);
                lemma_first_separator(s, start as int);
                assert(first_separator(s, start as int) == i) by {
                    lemma_first_separator_from(s, start as int, i as int);
                }
                assert(t.take(i - start) =~= current@);
                assert(t.skip(i - start + 1) =~= s.skip(i + 1));
            }
            let ghost done = out@.map_values(|c: Vec<u8>| c@);
            let piece = current;
            out.push(piece);
            current = Vec::new();
            proof {
                assert(out@.map_values(|c: Vec<u8>| c@) =~= done.push(s.subrange(start as int, i as int)));
                assert(done + components(s.skip(start as int)) =~= out@.map_values(|c: Vec<u8>| c@) + components(s.skip(i + 1)));
            }
            start = i + 1;
            assert(current@ =~= s.subrange(start as int, start as int));
        } else {
            current.push(name[i]);
            assert(current@ =~= s.subrange(start as int, i + 1));
        }
        i = i + 1;
    }
    proof {
        let t = s.skip(start as int);
        lemma_first_separator_skip(s, start as int, start as int);
        assert(first_separator(s, start as int) == s.len()) by {
            lemma_first_separator_from(s, start as int, s.len() as int);
        }
        assert(t =~= current@);
    }
    let ghost done = out@.map_values(|c: Vec<u8>| c@);
    out.push(current);
    assert(out@.map_values(|c: Vec<u8>| c@) =~= done + components(s.skip(start as int)));
    out
}

proof fn lemma_first_separator_from(s: Seq<u8>, j: int, i: int)
    requires
        0 <= j <= i <= s.len(),
        forall|k: int| j <= k < i ==> s[k] != SEPARATOR,
        i < s.len() ==> s[i] == SEPARATOR,
    ensures
        first_separator(s, j) == i,
    decreases i - j,
{
    if j < i {
        lemma_first_separator_from(s, j + 1, i);
    }
}

// ---------------------------------------------------------------------------------------------
// The tree.
// ---------------------------------------------------------------------------------------------

/// A directory index as an integer.
pub open spec fn as_dir(dir: Option<usize>) -> Option<int> {
    match dir {
        Some(d) => Some(d as int),
        None => None,
    }
}

/// The children of a directory (`None` stands for the root).
pub open spec fn children(fs: FsView, dir: Option<int>) -> Seq<usize> {
    match dir {
        None => fs.root,
        Some(d) => fs.nodes[d].children,
    }
}

/// The first of `kids` from position `j` named `name`.
pub open spec fn find_in(nodes: Seq<NodeView>, kids: Seq<usize>, name: Seq<u8>, j: int) -> Option<int>
    decreases kids.len() - j,
{
    if j < 0 || j >= kids.len() {
        None
    } else if nodes[kids[j] as int].name == name {
        Some(kids[j] as int)
    } else {
        find_in(nodes, kids, name, j + 1)
    }
}

/// `fs` with `node` added as the last child of `dir`.
pub open spec fn add_child(fs: FsView, dir: Option<int>, node: NodeView) -> FsView {
    let index = fs.nodes.len() as usize;
    match dir {
        None => FsView { nodes: fs.nodes.push(node), root: fs.root.push(index) },
        Some(d) => FsView {
            nodes: fs.nodes.push(node).update(d, NodeView { children: fs.nodes[d].children.push(index), ..fs.nodes[d] }),
            root: fs.root,
        },
    }
}

/// A directory node.
pub open spec fn dir_node(name: Seq<u8>, permissions: u16) -> NodeView {
    NodeView { name, permissions, is_dir: true, children: Seq::empty(), size: 0, pages: Seq::empty(), data: Seq::empty() }
}

/// The number of pages `len` bytes take.
pub open spec fn page_count(len: nat) -> nat {
    (len + 4095) / 4096
}

/// The pages taken from the top of the page stack `avail`: the top one first.
pub open spec fn taken_pages(avail: Seq<u32>, n: nat) -> Seq<u32> {
    Seq::new(n, |i: int| avail[avail.len() - 1 - i])
}

/// Insert a file under directory `dir` at the path `comps` (relative to `dir`), taking its pages
/// from the page stack `avail`: the file system and the pages left, or the error.
pub open spec fn insert_path(
    fs: FsView,
    dir: Option<int>,
    comps: Seq<Seq<u8>>,
    permissions: u16,
    data: Seq<u8>,
    avail: Seq<u32>,
) -> Result<(FsView, Seq<u32>), Error>
    decreases comps.len(),
{
    if comps.len() <= 1 {
        let n = page_count(data.len());
        if avail.len() < n {
            Err(Error::MemoryManagerError(AllocateError))
        } else {
            let name = if comps.len() == 1 { comps[0] } else { Seq::empty() };
            let node = NodeView {
                name,
                permissions,
                is_dir: false,
                children: Seq::empty(),
                size: data.len(),
                pages: taken_pages(avail, n),
                data,
            };
            Ok((add_child(fs, dir, node), avail.take(avail.len() - n)))
        }
    } else {
        match find_in(fs.nodes, children(fs, dir), comps[0], 0) {
            Some(c) => if fs.nodes[c].is_dir {
                insert_path(fs, Some(c), comps.drop_first(), permissions, data, avail)
            } else {
                Err(Error::FileTreatedAsDirectory)
            },
            None => insert_path(
                add_child(fs, dir, dir_node(comps[0], permissions)),
                Some(fs.nodes.len() as int),
                comps.drop_first(),
                permissions,
                data,
                avail,
            ),
        }
    }
}

/// The archive files from `k` on, inserted one after the other.
pub open spec fn insert_all(
    files: Seq<(Seq<u8>, u16, Seq<u8>)>,
    k: int,
    fs: FsView,
    avail: Seq<u32>,
) -> Result<(FsView, Seq<u32>), Error>
    decreases files.len() - k,
{
    if k < 0 || k >= files.len() {
        Ok((fs, avail))
    } else {
        match insert_path(fs, None, components(files[k].0), files[k].1, files[k].2, avail) {
            Ok((fs2, avail2)) => insert_all(files, k + 1, fs2, avail2),
            Err(e) => Err(e),
        }
    }
}

/// Every child index names a node, and only directories have children.
pub open spec fn fs_wf(fs: FsView) -> bool {
    &&& forall|j: int| 0 <= j < fs.root.len() ==> #[trigger] fs.root[j] < fs.nodes.len()
    &&& forall|i: int, j: int|
        0 <= i < fs.nodes.len() && 0 <= j < fs.nodes[i].children.len() ==> #[trigger] fs.nodes[i].children[j]
            < fs.nodes.len()
}

proof fn lemma_add_child_wf(fs: FsView, dir: Option<int>, node: NodeView)
    requires
        fs_wf(fs),
        node.children.len() == 0,
        dir matches Some(d) ==> 0 <= d < fs.nodes.len(),
    ensures
        fs_wf(add_child(fs, dir, node)),
{
    let g = add_child(fs, dir, node);
    assert forall|i: int, j: int|
        0 <= i < g.nodes.len() && 0 <= j < g.nodes[i].children.len() implies #[trigger] g.nodes[i].children[j]
        < g.nodes.len() by {
        if i < fs.nodes.len() {
            if dir == Some(i) && j == fs.nodes[i].children.len() {
            } else {
                assert(g.nodes[i].children[j] == fs.nodes[i].children[j]);
            }
        }
    }
}

proof fn lemma_find_in(nodes: Seq<NodeView>, kids: Seq<usize>, name: Seq<u8>, j: int)
    requires
        0 <= j,
        forall|x: int| 0 <= x < kids.len() ==> #[trigger] kids[x] < nodes.len(),
    ensures
        find_in(nodes, kids, name, j) matches Some(c) ==> 0 <= c < nodes.len(),
    decreases kids.len() - j,
{
    if j < kids.len() && nodes[kids[j] as int].name != name {
        lemma_find_in(nodes, kids, name, j + 1);
    }
}

impl InitRAMFS {
    /// The first child of `dir` (the root if `None`) named `name`.
    fn find_child(&self, dir: Option<usize>, name: &Vec<u8>) -> (r: Option<usize>)
        requires
            fs_wf(self@),
            dir matches Some(d) ==> d < self@.nodes.len(),
        ensures
            r matches Some(c) ==> find_in(self@.nodes, children(self@, as_dir(dir)), name@, 0)
                == Some(c as int) && c < self@.nodes.len(),
            r is None ==> find_in(self@.nodes, children(self@, as_dir(dir)), name@, 0) is None,
    {
        let kids: &Vec<usize> = match dir {
            None => &self.root,
            Some(d) => match &self.nodes[d].data {
                Branch::Directory(c) => c,
                Branch::File(_) => {
                    proof {
                        lemma_find_in(self@.nodes, Seq::<usize>::empty(), name@, 0);
                    }
                    return None;
                },
            },
        };
        let ghost ks = children(self@, as_dir(dir));
        assert(kids@ == ks);
        let mut j: usize = 0;
        while j < kids.len()
            invariant
                kids@ == ks,
                ks == children(self@, as_dir(dir)),
                j <= ks.len(),
                fs_wf(self@),
                forall|x: int| 0 <= x < ks.len() ==> #[trigger] ks[x] < self@.nodes.len(),
                find_in(self@.nodes, ks, name@, 0) == find_in(self@.nodes, ks, name@, j as int),
            decreases ks.len() - j,
        {
            let c = kids[j];
            if bytes_eq(&self.nodes[c].name, name) {
                assert(self@.nodes[c as int].name == self.nodes@[c as int].name@);
                assert(find_in(self@.nodes, ks, name@, j as int) == Some(c as int));
                return Some(c);
            }
            assert(self@.nodes[c as int].name == self.nodes@[c as int].name@);
            j = j + 1;
        }
        None
    }

    /// Add `node` as the last child of `dir` (the root if `None`); returns its index.
    fn add_child(&mut self, dir: Option<usize>, node: Node) -> (r: usize)
        requires
            fs_wf(old(self)@),
            node@.children.len() == 0,
            dir matches Some(d) ==> d < old(self)@.nodes.len() && old(self)@.nodes[d as int].is_dir,
        ensures
            r == old(self)@.nodes.len(),
            final(self)@ == add_child(old(self)@, as_dir(dir), node@),
            fs_wf(final(self)@),
    {
        let ghost before = self@;
        let ghost nv = node@;
        let index = self.nodes.len();
        self.nodes.push(node);
        match dir {
            None => {
                self.root.push(index);
            },
            Some(d) => {
                let mut kids: Vec<usize> = Vec::new();
                match &self.nodes[d].data {
                    Branch::Directory(c) => {
                        kids = c.clone();
                    },
                    Branch::File(_) => {},
                }
                assert(kids@ == before.nodes[d as int].children);
                kids.push(index);
                let name = self.nodes[d].name.clone();
                let permissions = self.nodes[d].permissions;
                self.nodes.set(d, Node { name, permissions, data: Branch::Directory(kids) });
            },
        }
        proof {
            assert(self@.nodes =~= add_child(before, as_dir(dir), nv).nodes);
            lemma_add_child_wf(before, as_dir(dir), nv);
        }
        index
    }

    /// Build the file system from the files of an archive, in their order, taking the pages
    /// for the data of each file from `frames`.
    pub fn parse(files: &Vec<ArchiveFile>, frames: &mut Allocator) -> (r: Result<Self, Error>)
        requires
            old(frames).wf(),
        ensures
            final(frames).wf(),
            match insert_all(
                files@.map_values(|f: ArchiveFile| (f.name@, f.permissions.0, f.data@)),
                0,
                FsView { nodes: Seq::empty(), root: Seq::empty() },
                old(frames)@,
            ) {
                Ok((fs, avail)) => r matches Ok(t) && t@ == fs && final(frames)@ == avail,
                Err(e) => r == Err::<Self, Error>(e),
            },
    {
        let ghost spec_files = files@.map_values(|f: ArchiveFile| (f.name@, f.permissions.0, f.data@));
        let mut fs = InitRAMFS { nodes: Vec::new(), root: Vec::new() };
        proof {
            assert(fs@.nodes =~= Seq::<NodeView>::empty());
        }
        assert(fs@ == FsView { nodes: Seq::<NodeView>::empty(), root: Seq::<usize>::empty() });
        let ghost full = insert_all(spec_files, 0, fs@, frames@);
        let mut i: usize = 0;
        while i < files.len()
            invariant
                frames.wf(),
                i <= files@.len(),
                spec_files == files@.map_values(|f: ArchiveFile| (f.name@, f.permissions.0, f.data@)),
                fs_wf(fs@),
                full == insert_all(spec_files, i as int, fs@, frames@),
                full == insert_all(spec_files, 0, FsView { nodes: Seq::empty(), root: Seq::empty() }, old(frames)@),
            decreases files@.len() - i,
        {
            let file = &files[i];
            let comps = split_path(&file.name);
            proof {
                lemma_components_len(file.name@);
            }
            let ghost cs = comps@.map_values(|c: Vec<u8>| c@);
            let ghost step = insert_path(fs@, None, cs, file.permissions.0, file.data@, frames@);
            assert(cs.skip(0) =~= cs);
            assert(spec_files[i as int] == (file.name@, file.permissions.0, file.data@));
            assert(full == match step {
                Ok((fs2, a2)) => insert_all(spec_files, i + 1, fs2, a2),
                Err(e) => Err(e),
            });
            let mut dir: Option<usize> = None;
            let mut k: usize = 0;
            while k < comps.len() - 1
                invariant
                    frames.wf(),
                    fs_wf(fs@),
                    cs == comps@.map_values(|c: Vec<u8>| c@),
                    1 <= comps@.len(),
                    k < comps@.len(),
                    dir matches Some(d) ==> d < fs@.nodes.len() && fs@.nodes[d as int].is_dir,
                    step == insert_path(fs@, as_dir(dir), cs.skip(k as int), file.permissions.0, file.data@, frames@),
                    full == match step {
                        Ok((fs2, a2)) => insert_all(spec_files, i + 1, fs2, a2),
                        Err(e) => Err(e),
                    },
                    full == insert_all(spec_files, 0, FsView { nodes: Seq::empty(), root: Seq::empty() }, old(frames)@),
                    spec_files == files@.map_values(|f: ArchiveFile| (f.name@, f.permissions.0, f.data@)),
                decreases comps@.len() - k,
            {
                let ghost rest = cs.skip(k as int);
                assert(rest[0] == comps@[k as int]@);
                assert(rest.drop_first() =~= cs.skip(k + 1));
                match fs.find_child(dir, &comps[k]) {
                    Some(c) => {
                        match &fs.nodes[c].data {
                            Branch::Directory(_) => {
                                assert(fs@.nodes[c as int].is_dir);
                                dir = Some(c);
                            },
                            Branch::File(_) => {
                                assert(!fs@.nodes[c as int].is_dir);
                                assert(rest.len() > 1);
                                assert(find_in(fs@.nodes, children(fs@, as_dir(dir)), rest[0], 0) == Some(c as int));
                                assert(step == Err::<(FsView, Seq<u32>), Error>(Error::FileTreatedAsDirectory));
                                return Err(Error::FileTreatedAsDirectory);
                            },
                        }
                    },
                    None => {
                        let name = comps[k].clone();
                        assert(name@ == comps@[k as int]@);
                        let node = Node { name, permissions: file.permissions, data: Branch::Directory(Vec::new()) };
                        assert(node@ == dir_node(rest[0], file.permissions.0));
                        let index = fs.add_child(dir, node);
                        dir = Some(index);
                    },
                }
                k = k + 1;
            }
            // The file itself.
            let ghost rest = cs.skip(k as int);
            assert(rest.len() == 1);
            let len = file.data.len();
            let n = len / 4096 + if len % 4096 == 0 { 0 } else { 1 };
            assert(n == page_count(len as nat));
            if frames.len() < n {
                return Err(Error::MemoryManagerError(AllocateError));
            }
            let ghost avail = frames@;
            let mut pages: Vec<u32> = Vec::new();
            let mut p: usize = 0;
            while p < n
                invariant
                    frames.wf(),
                    p <= n,
                    n <= avail.len(),
                    frames@ == avail.take(avail.len() - p),
                    pages@ == taken_pages(avail, p as nat),
                decreases n - p,
            {
                let ppn = frames.allocate().unwrap();
                pages.push(ppn.into_raw());
                assert(pages@ =~= taken_pages(avail, (p + 1) as nat));
                assert(frames@ =~= avail.take(avail.len() - (p + 1)));
                p = p + 1;
            }
            let data = file.data.clone();
            assert(data@ =~= file.data@);
            let name = comps[k].clone();
            let node = Node {
                name,
                permissions: file.permissions,
                data: Branch::File(File { size: len, pages, data }),
            };
            let _ = fs.add_child(dir, node);
            i = i + 1;
        }
        Ok(fs)
    }
}

proof fn lemma_components_len(s: Seq<u8>)
    ensures
        1 <= components(s).len() <= s.len() + 1,
    decreases s.len(),
{
    let i = first_separator(s, 0);
    lemma_first_separator(s, 0);
    if 0 <= i < s.len() {
        lemma_components_len(s.skip(i + 1));
    }
}

/// Whether two byte strings are equal.
fn bytes_eq(a: &Vec<u8>, b: &Vec<u8>) -> (r: bool)
    ensures
        r == (a@ == b@),
{
    if a.len() != b.len() {
        return false;
    }
    let mut i: usize = 0;
    while i < a.len()
        invariant
            a@.len() == b@.len(),
            i <= a@.len(),
            forall|j: int| 0 <= j < i ==> a@[j] == b@[j],
        decreases a@.len() - i,
    {
        if a[i] != b[i] {
            return false;
        }
        i = i + 1;
    }
    assert(a@ =~= b@);
    true
}

} // verus!
