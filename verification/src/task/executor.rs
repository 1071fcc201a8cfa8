//! The executor: it picks the task a hart runs next. Normally there is exactly one executor per
//! hart.

use super::ipc::alive;
use super::Task;
use crate::allocator::arena::Arena;
use crate::arch::page::Page;
use crate::arch::riscv::vms::sv39::{leaf_entry, same_page, Sv39};
use crate::arch::vms::{AddError, RWX};
use crate::memory::Allocator;
use vstd::prelude::*;

verus! {

/// An executor.
pub struct Executor {
    /// The stack of this executor.
    pub stack: Page,
}

/// Error returned if there is no task.
#[derive(Clone, Copy, Debug, PartialEq, Eq)]
pub struct NoTask;

/// What an executor does next.
#[derive(Clone, Copy, Debug, PartialEq, Eq)]
pub enum Next {
    /// Run the task with the given ID, which it has claimed.
    Run(u32),
    /// Idle until the given time.
    Idle(u64),
}

/// The `k`-th task ID visited after `prev`: the IDs are visited in steps of 7, modulo 16.
pub open spec fn visit(prev: u32, k: int) -> u32 {
    ((prev + 7 * k) % 16) as u32
}

/// Whether the task with the given ID can be run at time `now`: it is alive, its wait time is
/// over and no executor has claimed it.
pub open spec fn runnable(tasks: Seq<Option<Task>>, id: u32, now: u64) -> bool {
    &&& alive(tasks, id)
    &&& tasks[id as int]->0.wait_time < now
    &&& tasks[id as int]->0.executor_id == u16::MAX
}

/// The first runnable task among the visits `k..=16`.
pub open spec fn first_runnable(tasks: Seq<Option<Task>>, prev: u32, now: u64, k: int) -> Option<u32>
    decreases 17 - k,
{
    if k > 16 || k < 1 {
        None
    } else if runnable(tasks, visit(prev, k), now) {
        Some(visit(prev, k))
    } else {
        first_runnable(tasks, prev, now, k + 1)
    }
}

/// The earliest wait time of the alive tasks among the visits `k..=16` (`u64::MAX` if none).
pub open spec fn earliest_wait(tasks: Seq<Option<Task>>, prev: u32, k: int) -> u64
    decreases 17 - k,
{
    if k > 16 || k < 1 {
        u64::MAX
    } else {
        let rest = earliest_wait(tasks, prev, k + 1);
        let id = visit(prev, k);
        if alive(tasks, id) && tasks[id as int]->0.wait_time < rest {
            tasks[id as int]->0.wait_time
        } else {
            rest
        }
    }
}

proof fn lemma_first_runnable(tasks: Seq<Option<Task>>, prev: u32, now: u64, k: int)
    ensures
        first_runnable(tasks, prev, now, k) matches Some(id) ==> runnable(tasks, id, now),
    decreases 17 - k,
{
    if 1 <= k <= 16 && !runnable(tasks, visit(prev, k), now) {
        lemma_first_runnable(tasks, prev, now, k + 1);
    }
}

impl Executor {
    /// The first task that can run at `now`, visiting the IDs from `prev + 7` in steps of 7.
    fn select(tasks: &Arena<Task>, prev: u32, now: u64) -> (r: Option<u32>)
        requires
            prev < 16,
        ensures
            r == first_runnable(tasks@, prev, now, 1),
    {
        let mut id: u32 = (prev + 7) % 16;
        let mut k: u32 = 1;
        while k <= 16
            invariant
                1 <= k <= 17,
                k <= 16 ==> id == visit(prev, k as int),
                prev < 16,
                first_runnable(tasks@, prev, now, 1) == first_runnable(tasks@, prev, now, k as int),
            decreases 17 - k,
        {
            let index = id as usize;
            let can_run = match tasks.get(index) {
                Some(t) => t.flags.0 & super::StateFlags::DEAD == 0 && t.wait_time < now && t.executor_id == u16::MAX,
                None => false,
            };
            if can_run {
                assert(runnable(tasks@, id, now));
                return Some(id);
            }
            proof {
                assert(visit(prev, k + 1) == (id + 7) % 16) by {
                    assert((prev + 7 * (k + 1)) % 16 == ((prev + 7 * k) % 16 + 7) % 16) by {
                        vstd::arithmetic::div_mod::lemma_add_mod_noop(prev + 7 * k, 7, 16);
                        vstd::arithmetic::div_mod::lemma_small_mod(7, 16);
                    }
                }
            }
            id = (id + 7) % 16;
            k = k + 1;
        }
        None
    }

    /// The earliest wait time of the alive tasks among the IDs 0 to 15.
    fn earliest(tasks: &Arena<Task>, prev: u32) -> (r: u64)
        requires
            prev < 16,
        ensures
            r == earliest_wait(tasks@, prev, 1),
    {
        let mut earliest: u64 = u64::MAX;
        let mut j: u32 = 16;
        let mut jd: u32 = prev;
        proof {
            assert(visit(prev, 16) == prev) by {
                assert((prev + 112) % 16 == prev) by {
                    vstd::arithmetic::div_mod::lemma_mod_multiples_vanish(7, prev as int, 16);
                    vstd::arithmetic::div_mod::lemma_small_mod(prev as nat, 16);
                }
            }
        }
        while j >= 1
            invariant
                0 <= j <= 16,
                j >= 1 ==> jd == visit(prev, j as int),
                prev < 16,
                earliest == earliest_wait(tasks@, prev, j + 1),
            decreases j,
        {
            match tasks.get(jd as usize) {
                Some(t) => {
                    if t.flags.0 & super::StateFlags::DEAD == 0 && t.wait_time < earliest {
                        earliest = t.wait_time;
                    }
                },
                None => {},
            }
            proof {
                assert(j >= 2 ==> visit(prev, j - 1) == (jd + 9) % 16) by {
                    if j >= 2 {
                        assert((prev + 7 * (j - 1)) % 16 == ((prev + 7 * j) % 16 + 9) % 16) by {
                            vstd::arithmetic::div_mod::lemma_add_mod_noop(prev + 7 * j, 9, 16);
                            vstd::arithmetic::div_mod::lemma_small_mod(9, 16);
                            vstd::arithmetic::div_mod::lemma_mod_multiples_vanish(1, prev + 7 * (j - 1), 16);
                        }
                    }
                }
            }
            jd = (jd + 9) % 16;
            j = j - 1;
        }
        earliest
    }

    /// Return the ID of an executor, given the task it currently runs: the executor that
    /// claimed it.
    pub fn id(current: &Task) -> (r: u16)
        ensures
            r == current.executor_id,
    {
        current.executor_id
    }

    /// Initialize the executor of a hart: map a fresh page as its stack at `stack`.
    pub fn init(vms: &mut Sv39, frames: &mut Allocator, stack: Page) -> (r: Result<Executor, AddError>)
        requires
            old(vms).wf(),
            old(frames).wf(),
            old(frames)@.len() > 0,
        ensures
            final(vms).wf(),
            final(frames).wf(),
            final(frames)@ == old(frames)@.drop_last(),
            !old(vms).blocked(stack@) && old(vms).mapping(stack@) is None && old(vms).has_room(stack@) <==> r is Ok,
            r matches Ok(e) ==> e.stack == stack && final(vms).mapping(stack@) == Some(
                leaf_entry(old(frames)@.last(), RWX::RW, false, true, false),
            ),
            forall|a: u64| !same_page(a, stack@) ==> #[trigger] final(vms).mapping(a) == old(vms).mapping(a),
    {
        let page = frames.allocate().unwrap();
        match vms.add(stack, page, RWX::RW, false, true) {
            Ok(()) => Ok(Executor { stack }),
            Err(e) => Err(e),
        }
    }

    /// Suspend the current task (if any) and pick the task to run next, at time `now`, after
    /// the task `prev`: the IDs are tried from `prev + 7` in steps of 7 modulo 16, ending with
    /// `prev`; the first task that can run is claimed for `executor`. If none can, the executor
    /// idles until the earliest wait time.
    pub fn next(tasks: &mut Arena<Task>, current: Option<usize>, prev: u32, now: u64, executor: u16) -> (r: Next)
        requires
            prev < 16,
        ensures
            final(tasks).max() == old(tasks).max(),
            final(tasks)@.len() == old(tasks)@.len(),
            ({
                let released = match current {
                    Some(c) => if c < old(tasks)@.len() && old(tasks)@[c as int] is Some {
                        old(tasks)@.update(c as int, Some(Task { executor_id: u16::MAX, ..old(tasks)@[c as int]->0 }))
                    } else {
                        old(tasks)@
                    },
                    None => old(tasks)@,
                };
                &&& first_runnable(released, prev, now, 1) matches Some(id) ==> r == Next::Run(id)
                    && final(tasks)@ == released.update(id as int, Some(Task { executor_id: executor, ..released[id as int]->0 }))
                &&& first_runnable(released, prev, now, 1) is None ==> r == Next::Idle(earliest_wait(released, prev, 1))
                    && final(tasks)@ == released
                &&& (exists|id: u32| id < 16 && #[trigger] runnable(released, id, now)) ==> r is Run
            }),
    {
        // Unclaim the current task.
        match current {
            Some(c) => {
                match tasks.get_mut(c) {
                    Some(t) => {
                        t.executor_id = u16::MAX;
                    },
                    None => {},
                }
            },
            None => {},
        }
        let ghost released = tasks@;
        assert(released == match current {
            Some(c) => if c < old(tasks)@.len() && old(tasks)@[c as int] is Some {
                old(tasks)@.update(c as int, Some(Task { executor_id: u16::MAX, ..old(tasks)@[c as int]->0 }))
            } else {
                old(tasks)@
            },
            None => old(tasks)@,
        });
        match Self::select(tasks, prev, now) {
            Some(id) => {
                proof {
                    lemma_first_runnable(released, prev, now, 1);
                }
                let t = tasks.get_mut(id as usize).unwrap();
                let _ = t.execute(executor);
                Next::Run(id)
            },
            None => {
                proof {
                    if exists|id: u32| id < 16 && #[trigger] runnable(released, id, now) {
                        let id = choose|id: u32| id < 16 && #[trigger] runnable(released, id, now);
                        lemma_runs_when_any_runnable(released, prev, now, id);
                    }
                }
                Next::Idle(Self::earliest(tasks, prev))
            },
        }
    }
}


/// The task an executor picks to run is one that can run: alive, done waiting and unclaimed.
pub proof fn lemma_picked_can_run(tasks: Seq<Option<Task>>, prev: u32, now: u64)
    ensures
        first_runnable(tasks, prev, now, 1) matches Some(id) ==> runnable(tasks, id, now),
{
    lemma_first_runnable(tasks, prev, now, 1);
}

/// The executor tries every task ID from 0 to 15 exactly once: the 16 visits after `prev` are
/// pairwise different, and the last one is `prev` itself.
pub proof fn lemma_visits_all(prev: u32)
    requires
        prev < 16,
    ensures
        forall|j: int, k: int| 1 <= j < k <= 16 ==> visit(prev, j) != visit(prev, k),
        visit(prev, 16) == prev,
        forall|k: int| 1 <= k <= 16 ==> visit(prev, k) < 16,
{
    assert forall|j: int, k: int| 1 <= j < k <= 16 implies visit(prev, j) != visit(prev, k) by {
        let d = k - j;
        assert(1 <= d < 16);
        let dd = d as u8;
        assert((7 * dd) % 16 != 0) by (bit_vector)
            requires
                1 <= dd < 16;
        if visit(prev, j) == visit(prev, k) {
            vstd::arithmetic::div_mod::lemma_mod_equivalence(prev + 7 * k, prev + 7 * j, 16);
            assert(prev + 7 * k - (prev + 7 * j) == 7 * d);
        }
    }
    assert((prev + 112) % 16 == prev) by {
        vstd::arithmetic::div_mod::lemma_mod_multiples_vanish(7, prev as int, 16);
        vstd::arithmetic::div_mod::lemma_small_mod(prev as nat, 16);
    }
}

/// Some visit from `k` on finds a runnable task if the task at any visit `j` in `k..=16` is
/// runnable.
proof fn lemma_first_runnable_finds(tasks: Seq<Option<Task>>, prev: u32, now: u64, k: int, j: int)
    requires
        1 <= k <= j <= 16,
        runnable(tasks, visit(prev, j), now),
    ensures
        first_runnable(tasks, prev, now, k) is Some,
    decreases j - k,
{
    if !runnable(tasks, visit(prev, k), now) {
        lemma_first_runnable_finds(tasks, prev, now, k + 1, j);
    }
}

/// Task `id` is visited `visit_of(prev, id)` steps after `prev` (7 is its own inverse modulo 16).
pub open spec fn visit_of(prev: u32, id: u32) -> int {
    let t = (7 * (id + 16 - prev)) % 16;
    if t == 0 {
        16
    } else {
        t
    }
}

/// Every task ID from 0 to 15 is visited, `visit_of(prev, id)` steps after `prev`.
proof fn lemma_visit_of(prev: u32, id: u32)
    requires
        prev < 16,
        id < 16,
    ensures
        1 <= visit_of(prev, id) <= 16,
        visit(prev, visit_of(prev, id)) == id,
{
    assert(((7 * (id + 16 - prev)) % 16) == 0 ==> (prev + 7 * 16) % 16 == id) by (bit_vector)
        requires
            prev < 16,
            id < 16,
    ;
    assert(((7 * (id + 16 - prev)) % 16) != 0 ==> (prev + 7 * ((7 * (id + 16 - prev)) % 16)) % 16 == id)
        by (bit_vector)
        requires
            prev < 16,
            id < 16,
    ;
}

/// If any task can run, the executor runs one: whenever some task ID from 0 to 15 is runnable
/// (alive, done waiting and unclaimed) at `now`, a runnable task is picked, whatever the
/// previous task was (the previous task itself included, as the last one tried).
pub proof fn lemma_runs_when_any_runnable(tasks: Seq<Option<Task>>, prev: u32, now: u64, id: u32)
    requires
        prev < 16,
        id < 16,
        runnable(tasks, id, now),
    ensures
        first_runnable(tasks, prev, now, 1) is Some,
        first_runnable(tasks, prev, now, 1) matches Some(picked) ==> runnable(tasks, picked, now),
{
    lemma_visit_of(prev, id);
    let k = visit_of(prev, id);
    lemma_first_runnable_finds(tasks, prev, now, 1, k);
    lemma_first_runnable(tasks, prev, now, 1);
}

/// The earliest wait from visit `k` on is no later than the wait time of any alive task visited
/// from `k` on, and is either `u64::MAX` or the wait time of such a task.
proof fn lemma_earliest_wait_from(tasks: Seq<Option<Task>>, prev: u32, k: int)
    requires
        1 <= k <= 17,
    ensures
        forall|j: int|
            k <= j <= 16 && #[trigger] alive(tasks, visit(prev, j)) ==> earliest_wait(tasks, prev, k)
                <= tasks[visit(prev, j) as int]->0.wait_time,
        earliest_wait(tasks, prev, k) == u64::MAX || exists|j: int|
            k <= j <= 16 && #[trigger] alive(tasks, visit(prev, j)) && earliest_wait(tasks, prev, k)
                == tasks[visit(prev, j) as int]->0.wait_time,
    decreases 17 - k,
{
    if k <= 16 {
        lemma_earliest_wait_from(tasks, prev, k + 1);
        let id = visit(prev, k);
        if alive(tasks, id) && tasks[id as int]->0.wait_time < earliest_wait(tasks, prev, k + 1) {
            assert(alive(tasks, visit(prev, k)));
        } else if earliest_wait(tasks, prev, k + 1) != u64::MAX {
            let j = choose|j: int|
                k + 1 <= j <= 16 && #[trigger] alive(tasks, visit(prev, j)) && earliest_wait(tasks, prev, k + 1)
                    == tasks[visit(prev, j) as int]->0.wait_time;
            assert(alive(tasks, visit(prev, j)));
        }
    }
}

/// When it idles, the executor waits until the earliest wait time of the alive tasks: no alive
/// task (with an ID from 0 to 15) waits less, and the time is that of one of them, or `u64::MAX`
/// if there is none.
pub proof fn lemma_idle_until_earliest(tasks: Seq<Option<Task>>, prev: u32)
    requires
        prev < 16,
    ensures
        forall|id: u32| id < 16 && #[trigger] alive(tasks, id) ==> earliest_wait(tasks, prev, 1)
            <= tasks[id as int]->0.wait_time,
        earliest_wait(tasks, prev, 1) == u64::MAX || exists|id: u32| id < 16 && #[trigger] alive(tasks, id)
            && earliest_wait(tasks, prev, 1) == tasks[id as int]->0.wait_time,
{
    lemma_earliest_wait_from(tasks, prev, 1);
    assert forall|id: u32| id < 16 && #[trigger] alive(tasks, id) implies earliest_wait(tasks, prev, 1)
        <= tasks[id as int]->0.wait_time by {
        lemma_visit_of(prev, id);
        let k = visit_of(prev, id);
        assert(alive(tasks, visit(prev, k)));
    }
    if earliest_wait(tasks, prev, 1) != u64::MAX {
        let j = choose|j: int|
            1 <= j <= 16 && #[trigger] alive(tasks, visit(prev, j)) && earliest_wait(tasks, prev, 1)
                == tasks[visit(prev, j) as int]->0.wait_time;
        let id = visit(prev, j);
        assert(id < 16 && alive(tasks, id));
    }
}

} // verus!
