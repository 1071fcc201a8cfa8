//! Task groups: the resources in a single task group are accessible to all tasks in that group.
//! A group has a fixed number of task slots; groups live in an arena.

use super::TaskID;
use crate::allocator::arena::{Arena, InsertError};
use vstd::prelude::*;

verus! {

/// The number of task slots in a group.
pub const GROUP_SLOTS: usize = 16;

/// A group of tasks.
pub struct GroupData {
    /// The task in each slot, if any.
    tasks: Vec<Option<TaskID>>,
}

/// Error returned if a slot holds no task.
#[derive(Clone, Copy, Debug, PartialEq, Eq)]
pub struct NoTask;

/// Error returned if all slots are taken.
#[derive(Clone, Copy, Debug, PartialEq, Eq)]
pub struct Full;

/// A handle to a group in the arena of groups.
pub struct Group {
    index: usize,
}

/// A guard around a task structure.
pub struct Guard {
    _marker: (),
}

impl GroupData {
    /// The task in each slot, if any.
    pub closed spec fn view(&self) -> Seq<Option<u32>> {
        self.tasks@.map_values(|t: Option<TaskID>| match t {
            Some(id) => Some(id.0),
            None => None,
        })
    }
}

/// Every group in the arena has its full set of slots.
pub open spec fn groups_wf(groups: Seq<Option<GroupData>>) -> bool {
    forall|i: int| 0 <= i < groups.len() && #[trigger] groups[i] is Some ==> groups[i]->0@.len() == GROUP_SLOTS
}

/// The slots after the task in slot `id` (if there is such a slot) is removed.
pub open spec fn after_remove(slots: Seq<Option<u32>>, id: int) -> Seq<Option<u32>> {
    if 0 <= id < GROUP_SLOTS { slots.update(id, None) } else { slots }
}

/// Whether no slot holds a task.
pub open spec fn all_none(slots: Seq<Option<u32>>) -> bool {
    forall|j: int| 0 <= j < GROUP_SLOTS ==> #[trigger] slots[j] is None
}

/// The first empty slot, if any.
pub open spec fn first_free(slots: Seq<Option<u32>>) -> Option<int> {
    if exists|i: int| 0 <= i < slots.len() && slots[i] is None {
        Some(choose|i: int| 0 <= i < slots.len() && slots[i] is None && forall|j: int| 0 <= j < i ==> slots[j] is Some)
    } else {
        None
    }
}

proof fn lemma_first_free(slots: Seq<Option<u32>>, k: int)
    requires
        0 <= k <= slots.len(),
        k < slots.len() ==> slots[k] is None,
        forall|j: int| 0 <= j < k ==> slots[j] is Some,
    ensures
        k < slots.len() ==> first_free(slots) == Some(k),
        k == slots.len() ==> first_free(slots) is None,
{
    if k < slots.len() {
        let b = choose|i: int| 0 <= i < slots.len() && slots[i] is None && forall|j: int| 0 <= j < i ==> slots[j] is Some;
        assert(b == k) by {
            if b < k {
            } else if k < b {
            }
        }
    }
}

/// The first slot of the group that holds no task, if any.
fn first_free_slot(data: &GroupData) -> (r: Option<usize>)
    requires
        data@.len() == GROUP_SLOTS,
    ensures
        r matches Some(k) ==> first_free(data@) == Some(k as int) && k < GROUP_SLOTS,
        r is None ==> first_free(data@) is None,
{
    let mut i: usize = 0;
    while i < data.tasks.len()
        invariant
            data@.len() == GROUP_SLOTS,
            data.tasks@.len() == GROUP_SLOTS,
            i <= GROUP_SLOTS,
            forall|j: int| 0 <= j < i ==> data@[j] is Some,
        decreases GROUP_SLOTS - i,
    {
        if data.tasks[i].is_none() {
            proof {
                lemma_first_free(data@, i as int);
            }
            return Some(i);
        }
        i = i + 1;
    }
    proof {
        lemma_first_free(data@, i as int);
    }
    None
}

/// Whether no slot of the group holds a task.
fn all_empty(data: &GroupData) -> (r: bool)
    requires
        data@.len() == GROUP_SLOTS,
    ensures
        r == all_none(data@),
{
    let mut i: usize = 0;
    while i < data.tasks.len()
        invariant
            data@.len() == GROUP_SLOTS,
            data.tasks@.len() == GROUP_SLOTS,
            i <= GROUP_SLOTS,
            forall|j: int| 0 <= j < i ==> #[trigger] data@[j] is None,
        decreases GROUP_SLOTS - i,
    {
        if data.tasks[i].is_some() {
            assert(data@[i as int] is Some);
            return false;
        }
        i = i + 1;
    }
    true
}

impl Group {
    /// The index of this group in the arena.
    pub closed spec fn index(&self) -> int {
        self.index as int
    }

    /// Create a new task group holding the given task in its first slot. Returns the group ID.
    pub fn new(groups: &mut Arena<GroupData>, task: TaskID) -> (r: Result<usize, InsertError>)
        requires
            groups_wf(old(groups)@),
        ensures
            groups_wf(final(groups)@),
            final(groups).max() == old(groups).max(),
            old(groups)@.len() >= old(groups).max() ==> r == Err::<usize, InsertError>(InsertError::NoFreeSlots)
                && final(groups)@ == old(groups)@,
            old(groups)@.len() < old(groups).max() ==> {
                &&& r == Ok::<usize, InsertError>(old(groups)@.len() as usize)
                &&& final(groups)@.len() == old(groups)@.len() + 1
                &&& final(groups)@.take(old(groups)@.len() as int) == old(groups)@
                &&& (final(groups)@.last() matches Some(g) && g@ == seq![Some(task.0)] + Seq::new(15, |i: int| None::<u32>))
            },
    {
        let mut tasks: Vec<Option<TaskID>> = Vec::new();
        tasks.push(Some(task));
        let mut i: usize = 1;
        while i < GROUP_SLOTS
            invariant
                1 <= i <= GROUP_SLOTS,
                tasks@.len() == i,
                tasks@[0] == Some(task),
                forall|j: int| 1 <= j < i ==> tasks@[j] is None,
            decreases GROUP_SLOTS - i,
        {
            tasks.push(None);
            i = i + 1;
        }
        let data = GroupData { tasks };
        assert(data@ =~= seq![Some(task.0)] + Seq::new(15, |i: int| None::<u32>));
        let ghost before = groups@;
        let r = groups.insert(data);
        proof {
            if r is Ok {
                assert(groups@.take(before.len() as int) =~= before);
                assert forall|i: int| 0 <= i < groups@.len() && #[trigger] groups@[i] is Some implies groups@[i]->0@.len()
                    == GROUP_SLOTS by {
                    if i < before.len() {
                        assert(groups@[i] == before[i]);
                    }
                }
            }
        }
        r
    }

    /// Get the group with the given ID.
    pub fn get(groups: &Arena<GroupData>, id: usize) -> (r: Option<Self>)
        ensures
            r is Some <==> id < groups@.len() && groups@[id as int] is Some,
            r matches Some(g) ==> g.index() == id,
    {
        match groups.get(id) {
            Some(_) => Some(Group { index: id }),
            None => None,
        }
    }

    /// Returns the ID of this group.
    pub fn id(&self) -> (r: usize)
        ensures
            r == self.index(),
    {
        self.index
    }

    /// Get the task in a slot of this group.
    pub fn task(&self, groups: &Arena<GroupData>, id: usize) -> (r: Result<TaskID, NoTask>)
        requires
            groups_wf(groups@),
            self.index() < groups@.len(),
            groups@[self.index()] is Some,
        ensures
            ({
                let slots = groups@[self.index()]->0@;
                &&& r is Ok <==> id < GROUP_SLOTS && slots[id as int] is Some
                &&& r matches Ok(t) ==> slots[id as int] == Some(t.0)
            }),
    {
        let data = groups.get(self.index).unwrap();
        if id < data.tasks.len() {
            match data.tasks[id] {
                Some(t) => Ok(t),
                None => Err(NoTask),
            }
        } else {
            Err(NoTask)
        }
    }

    /// Insert a new task in the first free slot, returning the slot.
    pub fn insert(&self, groups: &mut Arena<GroupData>, task: TaskID) -> (r: Result<usize, Full>)
        requires
            groups_wf(old(groups)@),
            self.index() < old(groups)@.len(),
            old(groups)@[self.index()] is Some,
        ensures
            groups_wf(final(groups)@),
            final(groups).max() == old(groups).max(),
            final(groups)@.len() == old(groups)@.len(),
            forall|i: int| 0 <= i < old(groups)@.len() && i != self.index() ==> #[trigger] final(groups)@[i] == old(groups)@[i],
            final(groups)@[self.index()] is Some,
            ({
                let slots = old(groups)@[self.index()]->0@;
                &&& first_free(slots) is None ==> r == Err::<usize, Full>(Full) && final(groups)@[self.index()]->0@ == slots
                &&& first_free(slots) matches Some(k) ==> (r == Ok::<usize, Full>(k as usize)
                    && final(groups)@[self.index()]->0@ == slots.update(k, Some(task.0)))
            }),
    {
        let ghost slots = old(groups)@[self.index()]->0@;
        match first_free_slot(groups.get(self.index).unwrap()) {
            None => Err(Full),
            Some(k) => {
                {
                    let data = groups.get_mut(self.index).unwrap();
                    data.tasks.set(k, Some(task));
                    assert(data@ =~= slots.update(k as int, Some(task.0)));
                }
                assert forall|i: int| 0 <= i < groups@.len() && #[trigger] groups@[i] is Some implies groups@[i]->0@.len()
                    == GROUP_SLOTS by {
                    if i != self.index() {
                        assert(groups@[i] == old(groups)@[i]);
                    }
                }
                Ok(k)
            },
        }
    }

    /// Remove the task in a slot. This frees the group if no task is left; otherwise the group
    /// itself is returned.
    pub fn remove_task(self, groups: &mut Arena<GroupData>, id: usize) -> (r: Result<Option<Self>, NoTask>)
        requires
            groups_wf(old(groups)@),
            self.index() < old(groups)@.len(),
            old(groups)@[self.index()] is Some,
        ensures
            groups_wf(final(groups)@),
            final(groups).max() == old(groups).max(),
            final(groups)@.len() == old(groups)@.len(),
            forall|i: int| 0 <= i < old(groups)@.len() && i != self.index() ==> #[trigger] final(groups)@[i] == old(groups)@[i],
            r is Ok,
            all_none(after_remove(old(groups)@[self.index()]->0@, id as int)) ==> r matches Ok(None),
            all_none(after_remove(old(groups)@[self.index()]->0@, id as int)) ==> final(groups)@[self.index()] is None,
            !all_none(after_remove(old(groups)@[self.index()]->0@, id as int)) ==> (r matches Ok(Some(g))
                && g.index() == self.index()),
            !all_none(after_remove(old(groups)@[self.index()]->0@, id as int)) ==> (final(groups)@[self.index()] matches Some(d)
                && d@ == after_remove(old(groups)@[self.index()]->0@, id as int)),
    {
        let index = self.index;
        let ghost slots = old(groups)@[self.index()]->0@;
        let ghost left = if id < GROUP_SLOTS { slots.update(id as int, None) } else { slots };
        {
            let data = groups.get_mut(index).unwrap();
            if id < data.tasks.len() {
                data.tasks.set(id, None);
            }
            assert(data@ =~= left);
        }
        assert forall|i: int| 0 <= i < groups@.len() && #[trigger] groups@[i] is Some implies groups@[i]->0@.len()
            == GROUP_SLOTS by {
            if i != index {
                assert(groups@[i] == old(groups)@[i]);
            }
        }
        assert(groups@[self.index()] is Some && groups@[self.index()]->0@ == left);
        let d = groups.get(index).unwrap();
        if !all_empty(d) {
            return Ok(Some(Group { index }));
        }
        let _ = groups.remove(index);
        Ok(None)
    }
}

} // verus!
