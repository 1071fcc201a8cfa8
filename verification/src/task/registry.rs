//! The task registry: a way to identify tasks with human-readable names.

use super::TaskID;
use vstd::prelude::*;

verus! {

/// The maximum amount of entries.
pub const MAX_ENTRIES: usize = 16;

/// The maximum length of a name in bytes.
pub const MAX_NAME_LEN: usize = 31;

/// An entry: a name and the task it stands for.
struct Entry {
    name: Vec<u8>,
    address: TaskID,
}

/// The registry, a list of named tasks in the order they were added.
pub struct Registry {
    entries: Vec<Entry>,
}

/// Error returned if a name could not be added.
#[derive(Clone, Copy, Debug, PartialEq, Eq)]
pub enum AddError {
    Occupied,
    NameTooLong,
    RegistryFull,
}

/// The position of the first entry in `entries` named `name`, if any.
pub open spec fn find_first(entries: Seq<(Seq<u8>, u32)>, name: Seq<u8>) -> Option<int> {
    if exists|i: int| 0 <= i < entries.len() && entries[i].0 == name {
        Some(choose|i: int| 0 <= i < entries.len() && entries[i].0 == name
            && forall|j: int| 0 <= j < i ==> entries[j].0 != name)
    } else {
        None
    }
}

/// What looking up `name` gives: the task of the first entry with that name.
pub open spec fn lookup(entries: Seq<(Seq<u8>, u32)>, name: Seq<u8>) -> Option<u32> {
    match find_first(entries, name) {
        Some(i) => Some(entries[i].1),
        None => None,
    }
}

proof fn lemma_first_exists(entries: Seq<(Seq<u8>, u32)>, name: Seq<u8>, k: int)
    requires
        0 <= k < entries.len(),
        entries[k].0 == name,
    ensures
        exists|i: int| 0 <= i < entries.len() && entries[i].0 == name
            && forall|j: int| 0 <= j < i ==> entries[j].0 != name,
    decreases k,
{
    if exists|j: int| 0 <= j < k && entries[j].0 == name {
        let j = choose|j: int| 0 <= j < k && entries[j].0 == name;
        lemma_first_exists(entries, name, j);
    }
}

/// The first entry with a name is the same before and after another entry is appended.
proof fn lemma_lookup_push(entries: Seq<(Seq<u8>, u32)>, e: (Seq<u8>, u32), name: Seq<u8>)
    ensures
        lookup(entries.push(e), name) == (if lookup(entries, name) is Some {
            lookup(entries, name)
        } else if e.0 == name {
            Some(e.1)
        } else {
            None
        }),
{
    let p = entries.push(e);
    if exists|i: int| 0 <= i < entries.len() && entries[i].0 == name {
        let k = choose|i: int| 0 <= i < entries.len() && entries[i].0 == name;
        lemma_first_exists(entries, name, k);
        let a = choose|i: int| 0 <= i < entries.len() && entries[i].0 == name
            && forall|j: int| 0 <= j < i ==> entries[j].0 != name;
        assert(p[k].0 == name);
        let b = choose|i: int| 0 <= i < p.len() && p[i].0 == name
            && forall|j: int| 0 <= j < i ==> p[j].0 != name;
        lemma_first_exists(p, name, k);
        assert(a == b) by {
            if a < b {
                assert(p[a].0 == name);
            } else if b < a {
                assert(entries[b].0 == name);
            }
        }
    } else if e.0 == name {
        assert(p[entries.len() as int].0 == name);
        lemma_first_exists(p, name, entries.len() as int);
        let b = choose|i: int| 0 <= i < p.len() && p[i].0 == name
            && forall|j: int| 0 <= j < i ==> p[j].0 != name;
        assert(b == entries.len());
    } else {
        assert forall|i: int| 0 <= i < p.len() implies p[i].0 != name by {
            if i < entries.len() {
                assert(p[i] == entries[i]);
            }
        }
    }
}

impl Registry {
    /// The entries as (name, task) pairs, in the order they were added.
    pub closed spec fn view(&self) -> Seq<(Seq<u8>, u32)> {
        self.entries@.map_values(|e: Entry| (e.name@, e.address.0))
    }

    /// An empty registry.
    pub fn new() -> (r: Self)
        ensures
            r@ == Seq::<(Seq<u8>, u32)>::empty(),
    {
        let r = Registry { entries: Vec::new() };
        assert(r@ =~= Seq::<(Seq<u8>, u32)>::empty());
        r
    }

    /// Add an entry for `address` under `name`.
    pub fn add(&mut self, name: &[u8], address: TaskID) -> (r: Result<(), AddError>)
        ensures
            name@.len() > MAX_NAME_LEN ==> r == Err::<(), AddError>(AddError::NameTooLong)
                && final(self)@ == old(self)@,
            name@.len() <= MAX_NAME_LEN && old(self)@.len() >= MAX_ENTRIES ==> r == Err::<
                (),
                AddError,
            >(AddError::RegistryFull) && final(self)@ == old(self)@,
            name@.len() <= MAX_NAME_LEN && old(self)@.len() < MAX_ENTRIES ==> r is Ok && final(self)@
                == old(self)@.push((name@, address.0)),
    {
        if name.len() > MAX_NAME_LEN {
            return Err(AddError::NameTooLong);
        }
        if self.entries.len() >= MAX_ENTRIES {
            return Err(AddError::RegistryFull);
        }
        let mut n: Vec<u8> = Vec::new();
        let mut i: usize = 0;
        while i < name.len()
            invariant
                i <= name@.len(),
                n@ == name@.subrange(0, i as int),
            decreases name@.len() - i,
        {
            n.push(name[i]);
            i = i + 1;
        }
        assert(n@ =~= name@);
        let ghost before = self.entries@;
        self.entries.push(Entry { name: n, address });
        assert(self@ =~= old(self)@.push((name@, address.0)));
        Ok(())
    }

    /// The task of the first entry named `name`, if any.
    pub fn get(&self, name: &[u8]) -> (r: Option<TaskID>)
        ensures
            r matches Some(id) ==> lookup(self@, name@) == Some(id.0),
            r is None ==> lookup(self@, name@) is None,
    {
        let mut i: usize = 0;
        while i < self.entries.len()
            invariant
                i <= self@.len(),
                self@.len() == self.entries@.len(),
                forall|j: int| 0 <= j < i ==> self@[j].0 != name@,
            decreases self@.len() - i,
        {
            if bytes_equal(&self.entries[i].name, name) {
                proof {
                    assert(self@[i as int].0 == name@);
                    lemma_first_exists(self@, name@, i as int);
                    let b = choose|k: int| 0 <= k < self@.len() && self@[k].0 == name@
                        && forall|j: int| 0 <= j < k ==> self@[j].0 != name@;
                    assert(b == i) by {
                        if b < i {
                        } else if i < b {
                        }
                    }
                }
                return Some(self.entries[i].address);
            }
            i = i + 1;
        }
        None
    }
}

/// Whether two byte strings are equal.
fn bytes_equal(a: &Vec<u8>, b: &[u8]) -> (r: bool)
    ensures
        r == (a@ == b@),
{
    if a.len() != b.len() {
        return false;
    }
    let mut i: usize = 0;
    while i < a.len()
        invariant
            a@.len() == b@.len(),
            i <= a@.len(),
            forall|j: int| 0 <= j < i ==> a@[j] == b@[j],
        decreases a@.len() - i,
    {
        if a[i] != b[i] {
            return false;
        }
        i = i + 1;
    }
    assert(a@ =~= b@);
    true
}

/// A name that was added to a registry without it is found there, for the task it was added for.
pub proof fn lemma_get_after_add(before: Seq<(Seq<u8>, u32)>, name: Seq<u8>, task: u32)
    requires
        lookup(before, name) is None,
    ensures
        lookup(before.push((name, task)), name) == Some(task),
{
    lemma_lookup_push(before, (name, task), name);
}

/// Adding an entry does not change what other names are found to be.
pub proof fn lemma_add_keeps_others(before: Seq<(Seq<u8>, u32)>, name: Seq<u8>, task: u32, other: Seq<u8>)
    requires
        other != name,
    ensures
        lookup(before.push((name, task)), other) == lookup(before, other),
{
    lemma_lookup_push(before, (name, task), other);
}

} // verus!
