//! A two-level feedback-queue CPU scheduler.
//!
//! Tasks are admitted at level 0 (the highest priority) and run there with a
//! short quantum. A task that exhausts its quantum, or that comes back to the
//! scheduler without having been preempted, is demoted to level 1 (the
//! terminal level), where it runs with a longer quantum. A task preempted
//! before its quantum ran out goes back to the front of its current level's
//! queue with its tick count preserved, so it resumes accounting where it
//! left off.

use std::collections::VecDeque;
use vstd::prelude::*;

verus! {

/// Quantum length, in ticks, of the level-0 (highest-priority) queue.
pub const MAX_TIME_SLICE_0: isize = 2;

/// Quantum length, in ticks, of the level-1 (terminal) queue.
pub const MAX_TIME_SLICE_1: isize = 5;

/// The quantum a task at the given feedback level is granted: level 0 gets
/// `MAX_TIME_SLICE_0` ticks, every lower priority gets `MAX_TIME_SLICE_1`.
pub open spec fn spec_max_time_slice(priority: isize) -> isize {
    if priority == 0 {
        MAX_TIME_SLICE_0
    } else {
        MAX_TIME_SLICE_1
    }
}

/// Returns the quantum granted to a task at feedback level `priority`.
pub fn max_time_slice(priority: isize) -> (r: isize)
    ensures
        r == spec_max_time_slice(priority),
{
    match priority {
        0 => MAX_TIME_SLICE_0,
        1 => MAX_TIME_SLICE_1,
        _ => MAX_TIME_SLICE_1,
    }
}

/// A task wrapper for the [`SimpleScheduler`]: one opaque task handle
/// together with the scheduling metadata the feedback discipline needs.
pub struct SimpleTask<T> {
    /// The wrapped task handle; the scheduler never inspects it.
    pub handle: T,
    /// Kernel-supplied identity, stable for the entry's whole scheduled
    /// lifetime; `remove_task` searches the queues by it.
    pub id: u64,
    /// Ticks consumed since the entry last entered its current level or was
    /// last preempted-and-requeued without a reset.
    pub ticks_used: isize,
    /// Current feedback level: 0 is the highest priority, 1 the terminal one.
    pub level: isize,
}

impl<T> SimpleTask<T> {
    /// A well-formed entry: its level is one of the two feedback levels and
    /// its tick count is non-negative.
    pub open spec fn wf(self) -> bool {
        &&& 0 <= self.level <= 1
        &&& 0 <= self.ticks_used
    }

    /// The entry as admission leaves it: back at the highest priority,
    /// everything else untouched.
    pub open spec fn admitted(self) -> Self {
        SimpleTask { level: 0, ..self }
    }

    /// The entry as demotion leaves it: quantum usage reset and one level
    /// lower, capped at the terminal level.
    pub open spec fn demoted(self) -> Self {
        SimpleTask {
            ticks_used: 0,
            level: if self.level == 1 {
                1
            } else {
                (self.level + 1) as isize
            },
            ..self
        }
    }

    /// Creates a new entry around the inner task handle, under the given
    /// identity: no ticks consumed yet, admitted at the highest priority.
    pub fn new(inner: T, id: u64) -> (r: Self)
        ensures
            r.handle == inner,
            r.id == id,
            r.ticks_used == 0,
            r.level == 0,
            r.wf(),
    {
        SimpleTask { handle: inner, id, ticks_used: 0, level: 0 }
    }

    /// Returns the ticks the entry has consumed in its current quantum.
    pub fn time_slice_used(&self) -> (r: isize)
        ensures
            r == self.ticks_used,
    {
        self.ticks_used
    }

    /// Returns the entry's current feedback level.
    pub fn priority(&self) -> (r: isize)
        ensures
            r == self.level,
    {
        self.level
    }

    /// Starts a fresh quantum: sets the consumed tick count back to zero.
    pub fn reset_time_slice(&mut self)
        ensures
            *final(self) == (SimpleTask { ticks_used: 0, ..*old(self) }),
    {
        self.ticks_used = 0;
    }

    /// Puts the entry back at the highest priority level.
    pub fn reset_priority(&mut self)
        ensures
            *final(self) == (SimpleTask { level: 0, ..*old(self) }),
    {
        self.level = 0;
    }

    /// Returns a reference to the inner task handle.
    pub fn inner(&self) -> (r: &T)
        ensures
            *r == self.handle,
    {
        &self.handle
    }
}

/// Whether some entry of `q` carries the identity `id`.
pub open spec fn has_id<T>(q: Seq<SimpleTask<T>>, id: u64) -> bool {
    exists|i: int| 0 <= i < q.len() && q[i].id == id
}

/// The index at which `q` holds the identity `id`; meaningful only when
/// `has_id(q, id)` holds and, as the queue invariant guarantees, at most one
/// entry carries each identity.
pub open spec fn id_index<T>(q: Seq<SimpleTask<T>>, id: u64) -> int {
    choose|i: int| 0 <= i < q.len() && q[i].id == id
}

/// No two entries of `q` carry the same identity.
pub open spec fn distinct_ids<T>(q: Seq<SimpleTask<T>>) -> bool {
    forall|i: int, j: int|
        0 <= i < j < q.len() ==> #[trigger] q[i].id != #[trigger] q[j].id
}

/// Every entry of `q` is well formed and sits at feedback level `level`.
pub open spec fn entries_at_level<T>(q: Seq<SimpleTask<T>>, level: isize) -> bool {
    forall|i: int| 0 <= i < q.len() ==> (#[trigger] q[i]).wf() && q[i].level == level
}

/// Inserting an identity that `q` does not yet hold keeps all identities
/// distinct.
proof fn lemma_distinct_insert<T>(q: Seq<SimpleTask<T>>, t: SimpleTask<T>, pos: int)
    requires
        distinct_ids(q),
        !has_id(q, t.id),
        0 <= pos <= q.len(),
    ensures
        distinct_ids(q.insert(pos, t)),
{
    q.insert_ensures(pos, t);
    let q2 = q.insert(pos, t);
    assert forall|a: int, b: int| 0 <= a < b < q2.len() implies #[trigger] q2[a].id != #[trigger] q2[b].id by {
        if a < pos {
            assert(q2[a] == q[a]);
        } else if a == pos {
            assert(q2[a] == t);
        } else {
            assert(q2[a] == q[a - 1]);
        }
        if b < pos {
            assert(q2[b] == q[b]);
        } else if b == pos {
            assert(q2[b] == t);
        } else {
            assert(q2[b] == q[b - 1]);
        }
    }
}

/// Removing an entry keeps all identities distinct.
proof fn lemma_distinct_remove<T>(q: Seq<SimpleTask<T>>, pos: int)
    requires
        distinct_ids(q),
        0 <= pos < q.len(),
    ensures
        distinct_ids(q.remove(pos)),
{
    q.remove_ensures(pos);
    let q2 = q.remove(pos);
    assert forall|a: int, b: int| 0 <= a < b < q2.len() implies #[trigger] q2[a].id != #[trigger] q2[b].id by {
        if a < pos {
            assert(q2[a] == q[a]);
        } else {
            assert(q2[a] == q[a + 1]);
        }
        if b < pos {
            assert(q2[b] == q[b]);
        } else {
            assert(q2[b] == q[b + 1]);
        }
    }
}

/// A two-level feedback-queue scheduler: one FIFO ready queue per level,
/// level 0 strictly preferred over level 1.
pub struct SimpleScheduler<T> {
    ready_queue_0: VecDeque<SimpleTask<T>>,
    ready_queue_1: VecDeque<SimpleTask<T>>,
}

impl<T> SimpleScheduler<T> {
    /// The contents of the level-0 ready queue, head first.
    pub closed spec fn level0(&self) -> Seq<SimpleTask<T>> {
        self.ready_queue_0@
    }

    /// The contents of the level-1 ready queue, head first.
    pub closed spec fn level1(&self) -> Seq<SimpleTask<T>> {
        self.ready_queue_1@
    }

    /// Everything currently queued: the level-0 entries followed by the
    /// level-1 entries.
    pub open spec fn queued(&self) -> Seq<SimpleTask<T>> {
        self.level0() + self.level1()
    }

    /// Whether some queued entry carries the identity `id`.
    pub open spec fn contains_id(&self, id: u64) -> bool {
        has_id(self.queued(), id)
    }

    /// The scheduler invariant: each queue holds only well-formed entries of
    /// its own level, and no identity is queued twice.
    pub open spec fn wf(&self) -> bool {
        &&& entries_at_level(self.level0(), 0)
        &&& entries_at_level(self.level1(), 1)
        &&& distinct_ids(self.queued())
    }

    /// Creates a new, empty scheduler.
    pub fn new() -> (r: Self)
        ensures
            r.level0() == Seq::<SimpleTask<T>>::empty(),
            r.level1() == Seq::<SimpleTask<T>>::empty(),
            r.wf(),
    {
        let r = SimpleScheduler { ready_queue_0: VecDeque::new(), ready_queue_1: VecDeque::new() };
        proof {
            assert(r.queued() =~= Seq::<SimpleTask<T>>::empty());
        }
        r
    }

    /// Returns the fixed name under which this scheduling policy is selected
    /// and reported.
    pub fn scheduler_name() -> (r: &'static str)
        ensures
            r@ == "Simple"@,
    {
        "Simple"
    }

    /// Prepares the scheduler for use. The queues start empty, so there is
    /// nothing to do; the state is left untouched.
    pub fn init(&mut self)
        ensures
            final(self).level0() == old(self).level0(),
            final(self).level1() == old(self).level1(),
    {
    }

    /// Rejects an external priority change: levels move only through the
    /// feedback discipline itself, so this always reports failure and leaves
    /// the queues untouched.
    pub fn set_priority(&mut self, _task: &SimpleTask<T>, _prio: isize) -> (r: bool)
        ensures
            r == false,
            final(self).level0() == old(self).level0(),
            final(self).level1() == old(self).level1(),
    {
        false
    }

    /// Admits a task: the entry goes to the tail of the level-0 queue,
    /// always at the highest priority, regardless of any level it may have
    /// held before it was last removed.
    pub fn add_task(&mut self, task: SimpleTask<T>)
        requires
            old(self).wf(),
            task.wf(),
            !old(self).contains_id(task.id),
        ensures
            final(self).wf(),
            final(self).level0() == old(self).level0().push(task.admitted()),
            final(self).level1() == old(self).level1(),
    {
        let mut entry = task;
        entry.reset_priority();
        self.ready_queue_0.push_back(entry);
        proof {
            let q = old(self).queued();
            let t = task.admitted();
            let pos = old(self).level0().len() as int;
            lemma_distinct_insert(q, t, pos);
            assert(self.queued() =~= q.insert(pos, t));
            assert forall|k: int| 0 <= k < self.level0().len() implies (#[trigger] self.level0()[k]).wf()
                && self.level0()[k].level == 0 by {
                if k < pos {
                    assert(self.level0()[k] == old(self).level0()[k]);
                } else {
                    assert(self.level0()[k] == t);
                }
            }
        }
    }

    /// Hands out the next task to run: the head of the level-0 queue if that
    /// queue is non-empty, otherwise the head of the level-1 queue, otherwise
    /// nothing — the idle signal. Level 0 is strictly preferred: a level-1
    /// entry is returned only when level 0 is completely drained.
    pub fn pick_next_task(&mut self) -> (r: Option<SimpleTask<T>>)
        requires
            old(self).wf(),
        ensures
            final(self).wf(),
            old(self).level0().len() > 0 ==> {
                &&& r == Some(old(self).level0()[0])
                &&& final(self).level0() == old(self).level0().drop_first()
                &&& final(self).level1() == old(self).level1()
            },
            old(self).level0().len() == 0 && old(self).level1().len() > 0 ==> {
                &&& r == Some(old(self).level1()[0])
                &&& final(self).level0() == old(self).level0()
                &&& final(self).level1() == old(self).level1().drop_first()
            },
            old(self).level0().len() == 0 && old(self).level1().len() == 0 ==> {
                &&& r is None
                &&& final(self).level0() == old(self).level0()
                &&& final(self).level1() == old(self).level1()
            },
    {
        if self.ready_queue_0.len() != 0 {
            let r = self.ready_queue_0.pop_front();
            proof {
                lemma_distinct_remove(old(self).queued(), 0);
                assert(self.queued() =~= old(self).queued().remove(0));
                assert forall|k: int| 0 <= k < self.level0().len() implies (#[trigger] self.level0()[k]).wf()
                    && self.level0()[k].level == 0 by {
                    assert(self.level0()[k] == old(self).level0()[k + 1]);
                }
            }
            return r;
        }
        let r = self.ready_queue_1.pop_front();
        proof {
            if old(self).level1().len() > 0 {
                lemma_distinct_remove(old(self).queued(), 0);
                assert(self.queued() =~= old(self).queued().remove(0));
                assert forall|k: int| 0 <= k < self.level1().len() implies (#[trigger] self.level1()[k]).wf()
                    && self.level1()[k].level == 1 by {
                    assert(self.level1()[k] == old(self).level1()[k + 1]);
                }
            }
        }
        r
    }

    /// Requeues a task that has just run. A task that was preempted before
    /// exhausting its quantum resumes where it left off: it goes back to the
    /// front of its current level's queue with its tick count preserved.
    /// Otherwise — quantum exhausted, or the task came back voluntarily — its
    /// quantum is reset and it is demoted one level, capped at the terminal
    /// level, joining that queue at the tail.
    pub fn put_prev_task(&mut self, prev: SimpleTask<T>, preempt: bool)
        requires
            old(self).wf(),
            prev.wf(),
            !old(self).contains_id(prev.id),
        ensures
            final(self).wf(),
            prev.ticks_used < spec_max_time_slice(prev.level) && preempt ==> {
                &&& prev.level == 0 ==> final(self).level0() == seq![prev] + old(self).level0()
                    && final(self).level1() == old(self).level1()
                &&& prev.level != 0 ==> final(self).level0() == old(self).level0()
                    && final(self).level1() == seq![prev] + old(self).level1()
            },
            !(prev.ticks_used < spec_max_time_slice(prev.level) && preempt) ==> {
                &&& final(self).level0() == old(self).level0()
                &&& final(self).level1() == old(self).level1().push(prev.demoted())
            },
    {
        if prev.time_slice_used() < max_time_slice(prev.priority()) && preempt {
            if prev.priority() == 0 {
                self.ready_queue_0.push_front(prev);
                proof {
                    lemma_distinct_insert(old(self).queued(), prev, 0);
                    assert(self.queued() =~= old(self).queued().insert(0, prev));
                    assert forall|k: int| 0 <= k < self.level0().len() implies (#[trigger] self.level0()[k]).wf()
                        && self.level0()[k].level == 0 by {
                        if k > 0 {
                            assert(self.level0()[k] == old(self).level0()[k - 1]);
                        }
                    }
                }
            } else {
                self.ready_queue_1.push_front(prev);
                proof {
                    let pos = old(self).level0().len() as int;
                    lemma_distinct_insert(old(self).queued(), prev, pos);
                    assert(self.queued() =~= old(self).queued().insert(pos, prev));
                    assert forall|k: int| 0 <= k < self.level1().len() implies (#[trigger] self.level1()[k]).wf()
                        && self.level1()[k].level == 1 by {
                        if k > 0 {
                            assert(self.level1()[k] == old(self).level1()[k - 1]);
                        }
                    }
                }
            }
        } else {
            let mut entry = prev;
            entry.reset_time_slice();
            let next_priority: isize = match entry.priority() {
                1 => 1,
                _ => entry.priority() + 1,
            };
            entry.level = next_priority;
            self.ready_queue_1.push_back(entry);
            proof {
                let q = old(self).queued();
                let pos = q.len() as int;
                lemma_distinct_insert(q, prev.demoted(), pos);
                assert(self.queued() =~= q.insert(pos, prev.demoted()));
                assert forall|k: int| 0 <= k < self.level1().len() implies (#[trigger] self.level1()[k]).wf()
                    && self.level1()[k].level == 1 by {
                    if k < old(self).level1().len() {
                        assert(self.level1()[k] == old(self).level1()[k]);
                    }
                }
            }
        }
    }

    /// Removes a queued entry by identity: level 0 is searched first, then
    /// level 1, and the first match is taken out, the rest of its queue
    /// keeping its order. An identity that is not queued — the task is
    /// currently running, or was already removed — is reported as absent, and
    /// the queues are left untouched.
    pub fn remove_task(&mut self, id: u64) -> (r: Option<SimpleTask<T>>)
        requires
            old(self).wf(),
        ensures
            final(self).wf(),
            has_id(old(self).level0(), id) ==> ({
                let pos = id_index(old(self).level0(), id);
                &&& r == Some(old(self).level0()[pos])
                &&& final(self).level0() == old(self).level0().remove(pos)
                &&& final(self).level1() == old(self).level1()
            }),
            !has_id(old(self).level0(), id) && has_id(old(self).level1(), id) ==> ({
                let pos = id_index(old(self).level1(), id);
                &&& r == Some(old(self).level1()[pos])
                &&& final(self).level0() == old(self).level0()
                &&& final(self).level1() == old(self).level1().remove(pos)
            }),
            !old(self).contains_id(id) ==> {
                &&& r is None
                &&& final(self).level0() == old(self).level0()
                &&& final(self).level1() == old(self).level1()
            },
    {
        let mut i: usize = 0;
        while i < self.ready_queue_0.len()
            invariant
                old(self).wf(),
                *self == *old(self),
                i <= self.ready_queue_0.len(),
                forall|k: int| 0 <= k < i ==> (#[trigger] self.level0()[k]).id != id,
            decreases self.ready_queue_0.len() - i,
        {
            if self.ready_queue_0[i].id == id {
                proof {
                    let q = old(self).level0();
                    assert(q[i as int].id == id);
                    let w = id_index(q, id);
                    if w < i as int {
                        assert(old(self).queued()[w].id != old(self).queued()[i as int].id);
                        assert(false);
                    }
                    if w > i as int {
                        assert(old(self).queued()[i as int].id != old(self).queued()[w].id);
                        assert(false);
                    }
                }
                let r = self.ready_queue_0.remove(i);
                proof {
                    assert(old(self).queued()[i as int].id == id);
                    assert(old(self).contains_id(id));
                    lemma_distinct_remove(old(self).queued(), i as int);
                    assert(self.queued() =~= old(self).queued().remove(i as int));
                    old(self).level0().remove_ensures(i as int);
                    assert forall|k: int| 0 <= k < self.level0().len() implies (#[trigger] self.level0()[k]).wf()
                        && self.level0()[k].level == 0 by {
                        if k < i as int {
                            assert(self.level0()[k] == old(self).level0()[k]);
                        } else {
                            assert(self.level0()[k] == old(self).level0()[k + 1]);
                        }
                    }
                }
                return r;
            }
            i += 1;
        }
        proof {
            assert(!has_id(self.level0(), id)) by {
                if has_id(self.level0(), id) {
                    let w = id_index(self.level0(), id);
                    assert((self.level0()[w]).id != id);
                }
            }
        }
        let mut j: usize = 0;
        while j < self.ready_queue_1.len()
            invariant
                old(self).wf(),
                *self == *old(self),
                !has_id(self.level0(), id),
                j <= self.ready_queue_1.len(),
                forall|k: int| 0 <= k < j ==> (#[trigger] self.level1()[k]).id != id,
            decreases self.ready_queue_1.len() - j,
        {
            if self.ready_queue_1[j].id == id {
                proof {
                    let q = old(self).level1();
                    let n0 = old(self).level0().len() as int;
                    assert(q[j as int].id == id);
                    let w = id_index(q, id);
                    if w < j as int {
                        assert(old(self).queued()[n0 + w].id != old(self).queued()[n0 + j as int].id);
                        assert(false);
                    }
                    if w > j as int {
                        assert(old(self).queued()[n0 + j as int].id != old(self).queued()[n0 + w].id);
                        assert(false);
                    }
                }
                let r = self.ready_queue_1.remove(j);
                proof {
                    let n0 = old(self).level0().len() as int;
                    assert(old(self).queued()[n0 + j as int].id == id);
                    assert(old(self).contains_id(id));
                    lemma_distinct_remove(old(self).queued(), n0 + j as int);
                    assert(self.queued() =~= old(self).queued().remove(n0 + j as int));
                    old(self).level1().remove_ensures(j as int);
                    assert forall|k: int| 0 <= k < self.level1().len() implies (#[trigger] self.level1()[k]).wf()
                        && self.level1()[k].level == 1 by {
                        if k < j as int {
                            assert(self.level1()[k] == old(self).level1()[k]);
                        } else {
                            assert(self.level1()[k] == old(self).level1()[k + 1]);
                        }
                    }
                }
                return r;
            }
            j += 1;
        }
        proof {
            assert(!has_id(self.level1(), id)) by {
                if has_id(self.level1(), id) {
                    let w = id_index(self.level1(), id);
                    assert((self.level1()[w]).id != id);
                }
            }
            assert(!old(self).contains_id(id)) by {
                if has_id(old(self).queued(), id) {
                    let w = id_index(old(self).queued(), id);
                    let n0 = old(self).level0().len() as int;
                    if w < n0 {
                        assert(old(self).level0()[w].id == id);
                        assert(has_id(old(self).level0(), id));
                    } else {
                        assert(old(self).level1()[w - n0].id == id);
                        assert(has_id(old(self).level1(), id));
                    }
                }
            }
        }
        None
    }

    /// One timer tick of quantum accounting for the task that is currently
    /// running: its tick count goes up by one, and the call reports whether
    /// the count before the increment had already reached the last allotted
    /// tick — the signal that the kernel should preempt now.
    pub fn task_tick(&mut self, current: &mut SimpleTask<T>) -> (r: bool)
        requires
            old(current).ticks_used < isize::MAX,
        ensures
            final(self).level0() == old(self).level0(),
            final(self).level1() == old(self).level1(),
            *final(current) == (SimpleTask { ticks_used: (old(current).ticks_used + 1) as isize, ..*old(current) }),
            r == (old(current).ticks_used >= spec_max_time_slice(old(current).level) - 1),
    {
        let old_slice = current.time_slice_used();
        current.ticks_used = old_slice + 1;
        old_slice >= max_time_slice(current.priority()) - 1
    }
}

/// A sequence of entries as admission leaves each of them: all back at the
/// highest priority, in their original order.
pub open spec fn admitted_all<T>(ts: Seq<SimpleTask<T>>) -> Seq<SimpleTask<T>> {
    ts.map_values(|t: SimpleTask<T>| t.admitted())
}

/// The level-0 queue after the entries of `ts` are admitted one by one —
/// each admission appending one entry to the tail, as `add_task` does.
pub open spec fn after_admissions<T>(q: Seq<SimpleTask<T>>, ts: Seq<SimpleTask<T>>) -> Seq<
    SimpleTask<T>,
>
    decreases ts.len(),
{
    if ts.len() == 0 {
        q
    } else {
        after_admissions(q.push(ts[0].admitted()), ts.drop_first())
    }
}

/// FIFO within a level: any run of admissions with no intervening pick leaves
/// the level-0 queue holding the entries that were already there, followed by
/// the admitted entries in admission order. Since `pick_next_task` always
/// removes the head of a level, entries pop off the level in admission order.
pub proof fn lemma_fifo_within_level<T>(q: Seq<SimpleTask<T>>, ts: Seq<SimpleTask<T>>)
    ensures
        after_admissions(q, ts) == q + admitted_all(ts),
    decreases ts.len(),
{
    if ts.len() == 0 {
        assert(after_admissions(q, ts) =~= q + admitted_all(ts));
    } else {
        lemma_fifo_within_level(q.push(ts[0].admitted()), ts.drop_first());
        assert(q.push(ts[0].admitted()) + admitted_all(ts.drop_first()) =~= q + admitted_all(ts));
    }
}

/// Strict level preference: when the level-0 queue is non-empty, the entry
/// that `pick_next_task` returns is that queue's head, which the scheduler
/// invariant places at level 0 — never a level-1 entry.
pub proof fn lemma_strict_level_preference<T>(s: SimpleScheduler<T>)
    requires
        s.wf(),
        s.level0().len() > 0,
    ensures
        s.level0()[0].level == 0,
{
    assert(s.level0()[0].wf());
}

/// Removal idempotence: removing an absent identity leaves the queues
/// unchanged — as `remove_task` ensures — so the identity is still absent
/// afterwards, and any repeated removal is answered with the same absent
/// result.
pub proof fn lemma_removal_idempotent<T>(
    pre: SimpleScheduler<T>,
    post: SimpleScheduler<T>,
    id: u64,
)
    requires
        !pre.contains_id(id),
        post.level0() == pre.level0(),
        post.level1() == pre.level1(),
    ensures
        !post.contains_id(id),
{
    assert(post.queued() == pre.queued());
}

/// Terminal level cap: demoting an entry that already sits at the terminal
/// level leaves it there with a fresh quantum — no level beyond 1 ever
/// exists.
pub proof fn lemma_terminal_level_cap<T>(t: SimpleTask<T>)
    requires
        t.level == 1,
    ensures
        t.demoted().level == 1,
        t.demoted().ticks_used == 0,
        t.demoted().id == t.id,
{
}

} // verus!
