use vstd::prelude::*;
use crate::priority::{
    entry_for, inherited_max, is_inherited_max, is_slot_for, lemma_inherited_max, recompute_task_priority, reprioritized,
    slot_for, table_set, update_mutex_owner, MutexPriorityEntry, MutexPriorityTable,
};
use crate::scheduler::{
    block_spec, has_room, lemma_block_keeps_priorities, parked, running_id, sched_wf, step_after_block, wake_outcome,
    Reschedule, Scheduler, SchedulerView, WaitStep, IDLE_TASK_PRIORITY, MAX_TASKS, USER_TASKS,
};
use crate::semaphore::untimed;
use crate::task::{TaskId, TaskPriority, TaskWaitKind, TaskWakeReason};
use crate::timer::{reached_at, Deadline};
use crate::waiters::WaitQueue;

verus! {

/// The plain values a mutex holds: its identity in the priority table, its
/// owner and its waiting tasks, oldest first.
pub struct MutexView {
    pub key: usize,
    pub owner: Option<TaskId>,
    pub waiters: Seq<TaskId>,
}

/// A lock owned by at most one task, with a FIFO queue of waiting tasks;
/// not recursive. While tasks wait for it, its owner runs at no less than
/// the highest of their priorities (priority inheritance, recorded in a
/// `MutexPriorityTable` under the mutex's key).
pub struct Mutex {
    key: usize,
    owner: Option<TaskId>,
    waiters: WaitQueue,
}

impl View for Mutex {
    type V = MutexView;

    closed spec fn view(&self) -> MutexView {
        MutexView { key: self.key, owner: self.owner, waiters: self.waiters@ }
    }
}

/// The effective priority of task `t` in `v`; the idle priority for an id
/// without a slot.
pub open spec fn priority_in(v: SchedulerView, t: TaskId) -> TaskPriority {
    if t.0 < MAX_TASKS {
        v.tasks[t.0 as int].effective_priority
    } else {
        IDLE_TASK_PRIORITY
    }
}

/// The highest effective priority among the tasks `q`; the idle priority
/// when there are none.
pub open spec fn waiter_max(q: Seq<TaskId>, v: SchedulerView) -> TaskPriority
    decreases q.len(),
{
    if q.len() == 0 {
        IDLE_TASK_PRIORITY
    } else {
        let m = waiter_max(q.drop_last(), v);
        let p = priority_in(v, q.last());
        if p > m { p } else { m }
    }
}

/// The priority table and scheduler once the inheritance through `s` is
/// brought up to date: while tasks wait, the entry of `s` records its owner
/// and the highest of their priorities; with none waiting the entry is
/// freed; then the owner's effective priority is recomputed.
pub open spec fn inherit(s: MutexView, v: SchedulerView, tab: Seq<MutexPriorityEntry>) -> (Seq<MutexPriorityEntry>, SchedulerView) {
    let contended = s.waiters.len() > 0;
    let tab1 = table_set(
        tab,
        s.key,
        if contended { s.owner } else { None },
        if contended { waiter_max(s.waiters, v) } else { IDLE_TASK_PRIORITY },
    );
    match s.owner {
        Some(o) => (tab1, reprioritized(v, tab1, o)),
        None => (tab1, v),
    }
}

/// One attempt by the running task of `v` to lock `s`: it takes a free
/// mutex; otherwise it joins the waiters, the owner inherits its priority
/// (see `inherit`), and it blocks until `deadline`.
pub open spec fn lock_attempt(s: MutexView, v: SchedulerView, tab: Seq<MutexPriorityEntry>, deadline: Option<Deadline>) -> (
    WaitStep<bool, ()>,
    MutexView,
    SchedulerView,
    Seq<MutexPriorityEntry>,
) {
    if s.owner is None {
        (WaitStep::Done(true), MutexView { owner: Some(running_id(v)), ..s }, v, tab)
    } else {
        let s1 = MutexView { waiters: parked(s.waiters, running_id(v)), ..s };
        let (tab1, v1) = inherit(s1, v, tab);
        let (rs, w) = block_spec(v1, TaskWaitKind::Mutex, deadline);
        (step_after_block(rs, ()), s1, w, tab1)
    }
}

/// The running task of `v` may wait for `s`: it does not own it and the
/// queue has room for it.
pub open spec fn may_wait(s: MutexView, v: SchedulerView) -> bool {
    s.owner is Some ==> s.owner != Some(running_id(v)) && has_room(s.waiters, v)
}

/// `s` and `v` once ownership has passed from the owner: to the oldest
/// waiter, woken, when there is one; otherwise the mutex is free.
pub open spec fn handed_over(s: MutexView, v: SchedulerView) -> (MutexView, SchedulerView) {
    if s.waiters.len() > 0 {
        (MutexView { owner: Some(s.waiters[0]), waiters: s.waiters.drop_first(), ..s }, wake_outcome(v, s.waiters[0], TaskWakeReason::Mutex))
    } else {
        (MutexView { owner: None, ..s }, v)
    }
}

/// Unlocking `s`: ownership passes on (see `handed_over`), the inheritance
/// through `s` is brought up to date for the new owner (see `inherit`), and
/// the old owner's effective priority is recomputed without what it
/// inherited through `s`.
pub open spec fn unlock_spec(s: MutexView, v: SchedulerView, tab: Seq<MutexPriorityEntry>) -> (MutexView, SchedulerView, Seq<MutexPriorityEntry>) {
    let (s1, v1) = handed_over(s, v);
    let (tab1, v2) = inherit(s1, v1, tab);
    match s.owner {
        Some(o) => (s1, reprioritized(v2, tab1, o), tab1),
        None => (s1, v2, tab1),
    }
}

/// Every task in `q` has at most the priority `waiter_max` gives.
proof fn lemma_waiter_max_bound(q: Seq<TaskId>, v: SchedulerView, x: TaskId)
    requires
        q.contains(x),
    ensures
        priority_in(v, x) <= waiter_max(q, v),
    decreases q.len(),
{
    if q.last() != x {
        let k = choose|k: int| 0 <= k < q.len() && q[k] == x;
        assert(q.drop_last()[k] == x);
        lemma_waiter_max_bound(q.drop_last(), v, x);
    }
}

/// Locking a free mutex and unlocking it with no waiter leaves it free; an
/// unlock with waiters hands the mutex to the oldest waiter, which leaves the
/// queue and, blocked on it, is woken with the reason `Mutex`: the reason
/// for which `lock_resume` reports the mutex taken. So the mutex never has
/// two owners, is never free while a task waits for it, and a lock that
/// succeeds after waiting owns it.
pub proof fn lemma_lock_unlock(s: MutexView, v: SchedulerView, tab: Seq<MutexPriorityEntry>)
    requires
        sched_wf(v),
        s.owner is None,
        v.current is Some,
    ensures
        s.waiters.len() == 0 ==> {
            let (m, w, t) = unlock_spec(lock_attempt(s, v, tab, None).1, v, tab);
            &&& m == s
            &&& w.current == v.current
        },
        s.waiters.len() > 0 ==> {
            let (m, w, t) = unlock_spec(lock_attempt(s, v, tab, None).1, v, tab);
            let x = s.waiters[0];
            &&& m.owner == Some(x)
            &&& m.waiters == s.waiters.drop_first()
            &&& w.current == v.current
            &&& (x.0 < MAX_TASKS && v.tasks[x.0 as int].state == crate::task::TaskState::Blocked) ==> {
                &&& w.tasks[x.0 as int].state == crate::task::TaskState::Ready
                &&& w.tasks[x.0 as int].wake_reason == TaskWakeReason::Mutex
            }
        },
{
    let c = running_id(v);
    let s0 = lock_attempt(s, v, tab, None).1;
    let (s1, v1) = handed_over(s0, v);
    if s.waiters.len() > 0 {
        let x = s.waiters[0];
        if x.0 < MAX_TASKS && v.tasks[x.0 as int].state == crate::task::TaskState::Blocked {
            let a = crate::scheduler::after_wake(v, x.0 as int, TaskWakeReason::Mutex);
            assert forall|i: int| 0 <= i < MAX_TASKS implies (#[trigger] a.tasks[i]).id == TaskId(i as usize) by {
                if i != x.0 {
                    assert(a.tasks[i] == v.tasks[i]);
                }
            }
            assert forall|i: int| 0 <= i < MAX_TASKS implies crate::task::stack_fits((#[trigger] a.tasks[i]).stack_base, crate::scheduler::TASK_STACK_WORDS as nat) by {
                if i != x.0 {
                    assert(a.tasks[i] == v.tasks[i]);
                }
            }
            assert forall|i: int| 0 <= i < MAX_TASKS implies (#[trigger] a.tasks[i]).stack.len() == crate::scheduler::TASK_STACK_WORDS by {
                if i != x.0 {
                    assert(a.tasks[i] == v.tasks[i]);
                }
            }
        }
    }
    assert(sched_wf(v1));
    let (tab1, v2) = inherit(s1, v1, tab);
    if let Some(o) = s1.owner {
        crate::priority::lemma_reprioritized_frame(v1, tab1, o);
    }
    crate::priority::lemma_reprioritized_frame(v2, tab1, c);
}

/// Waking a task keeps the scheduler's invariant.
proof fn lemma_wake_outcome_wf(v: SchedulerView, id: TaskId, reason: TaskWakeReason)
    requires
        sched_wf(v),
    ensures
        sched_wf(wake_outcome(v, id, reason)),
        wake_outcome(v, id, reason).current == v.current,
{
    if id.0 < MAX_TASKS && v.tasks[id.0 as int].state == crate::task::TaskState::Blocked {
        let a = crate::scheduler::after_wake(v, id.0 as int, reason);
        assert forall|i: int| 0 <= i < MAX_TASKS implies (#[trigger] a.tasks[i]).id == TaskId(i as usize) by {
            if i != id.0 {
                assert(a.tasks[i] == v.tasks[i]);
            }
        }
        assert forall|i: int| 0 <= i < MAX_TASKS implies crate::task::stack_fits((#[trigger] a.tasks[i]).stack_base, crate::scheduler::TASK_STACK_WORDS as nat) by {
            if i != id.0 {
                assert(a.tasks[i] == v.tasks[i]);
            }
        }
        assert forall|i: int| 0 <= i < MAX_TASKS implies (#[trigger] a.tasks[i]).stack.len() == crate::scheduler::TASK_STACK_WORDS by {
            if i != id.0 {
                assert(a.tasks[i] == v.tasks[i]);
            }
        }
    }
}

/// A lock succeeds exactly when the mutex is free, and then makes the
/// running task its owner, touching nothing else. A lock of an owned mutex
/// does not finish: the owner stays, and the running task waits in its
/// queue. An unlock passes ownership to the oldest waiter, which leaves the
/// queue and, if blocked, is woken with the reason `Mutex`; with no waiter
/// the mutex becomes free. Which task runs does not change.
pub proof fn lemma_lock_and_unlock_pass_ownership(s: MutexView, v: SchedulerView, tab: Seq<MutexPriorityEntry>, deadline: Option<Deadline>)
    requires
        sched_wf(v),
        v.current is Some,
    ensures
        ({
            let (st, s1, v1, t1) = lock_attempt(s, v, tab, deadline);
            &&& s.owner is None ==> {
                &&& st == WaitStep::<bool, ()>::Done(true)
                &&& s1 == (MutexView { owner: Some(running_id(v)), ..s })
                &&& v1 == v
                &&& t1 == tab
            }
            &&& s.owner is Some ==> !(st is Done) && s1.owner == s.owner && s1.key == s.key && s1.waiters.contains(running_id(v))
        }),
        ({
            let (m, w, t) = unlock_spec(s, v, tab);
            &&& m.key == s.key
            &&& w.current == v.current
            &&& s.waiters.len() > 0 ==> {
                let x = s.waiters[0];
                &&& m.owner == Some(x)
                &&& m.waiters == s.waiters.drop_first()
                &&& (x.0 < MAX_TASKS && v.tasks[x.0 as int].state == crate::task::TaskState::Blocked) ==> {
                    &&& w.tasks[x.0 as int].state == crate::task::TaskState::Ready
                    &&& w.tasks[x.0 as int].wake_reason == TaskWakeReason::Mutex
                }
            }
            &&& s.waiters.len() == 0 ==> m.owner is None && m.waiters == s.waiters
        }),
{
    let c = running_id(v);
    if s.owner is Some {
        let s1 = MutexView { waiters: parked(s.waiters, c), ..s };
        assert(s1.waiters.contains(c)) by {
            if !s.waiters.contains(c) {
                assert(s1.waiters[s.waiters.len() as int] == c);
            }
        }
    }
    let (s1, v1) = handed_over(s, v);
    if s.waiters.len() > 0 {
        lemma_wake_outcome_wf(v, s.waiters[0], TaskWakeReason::Mutex);
    }
    let (tab1, v2) = inherit(s1, v1, tab);
    if let Some(o) = s1.owner {
        crate::priority::lemma_reprioritized_frame(v1, tab1, o);
    }
    if let Some(o) = s.owner {
        crate::priority::lemma_reprioritized_frame(v2, tab1, o);
    }
}

/// Priority inheritance: when the running task waits for a mutex that
/// another task owns, the owner runs, from then on, at no less than the
/// priority of any task waiting for the mutex, the new waiter included. This
/// holds whenever the priority table can record the mutex (it has an entry
/// for it or a free one).
pub proof fn lemma_owner_inherits(s: MutexView, v: SchedulerView, tab: Seq<MutexPriorityEntry>, deadline: Option<Deadline>)
    requires
        sched_wf(v),
        v.current is Some,
        s.owner matches Some(o) && o.0 < MAX_TASKS,
        may_wait(s, v),
        slot_for(tab, s.key) is Some,
    ensures
        ({
            let o = s.owner->0;
            let (st, s2, w, t2) = lock_attempt(s, v, tab, deadline);
            &&& s2.waiters.contains(running_id(v))
            &&& forall|x: TaskId| #[trigger] s2.waiters.contains(x) && x != o ==> priority_in(w, x) <= w.tasks[o.0 as int].effective_priority
        }),
{
    let o = s.owner->0;
    let c = running_id(v);
    let s1 = MutexView { waiters: parked(s.waiters, c), ..s };
    assert(s1.waiters.contains(c)) by {
        if !s.waiters.contains(c) {
            assert(s1.waiters[s.waiters.len() as int] == c);
        }
    }
    let wm = waiter_max(s1.waiters, v);
    let tab1 = table_set(tab, s.key, Some(o), wm);
    let i = slot_for(tab, s.key)->0;
    assert(is_slot_for(tab, s.key, i));
    assert(tab1[i] == entry_for(s.key, Some(o), wm));
    let v1 = reprioritized(v, tab1, o);
    crate::priority::lemma_reprioritized_frame(v, tab1, o);
    lemma_inherited_max(tab1, o, v.tasks[o.0 as int].base_priority);
    assert(tab1[i].owner == Some(o));
    assert(wm <= v1.tasks[o.0 as int].effective_priority);
    lemma_block_keeps_priorities(v1, TaskWaitKind::Mutex, deadline);
    let w = block_spec(v1, TaskWaitKind::Mutex, deadline).1;
    assert forall|x: TaskId| #[trigger] s1.waiters.contains(x) && x != o implies priority_in(w, x) <= w.tasks[o.0 as int].effective_priority by {
        lemma_waiter_max_bound(s1.waiters, v, x);
        if x.0 < MAX_TASKS {
            assert(w.tasks[x.0 as int].effective_priority == v1.tasks[x.0 as int].effective_priority);
            assert(v1.tasks[x.0 as int] == v.tasks[x.0 as int]);
        }
    }
}

/// Bringing the inheritance through `s` up to date changes only the entry
/// of `s`, which stays in use only while tasks wait for `s`: so the table
/// records no mutex without waiters.
pub proof fn lemma_inherit_records_only_contended(s: MutexView, v: SchedulerView, tab: Seq<MutexPriorityEntry>)
    requires
        slot_for(tab, s.key) is Some,
    ensures
        ({
            let i = slot_for(tab, s.key)->0;
            let t = inherit(s, v, tab).0;
            &&& t.len() == tab.len()
            &&& forall|j: int| 0 <= j < tab.len() && j != i ==> #[trigger] t[j] == tab[j]
            &&& t[i].mutex != 0 ==> t[i].mutex == s.key && s.waiters.len() > 0
        }),
{
    let i = slot_for(tab, s.key)->0;
    assert(is_slot_for(tab, s.key, i));
}

/// The priority table always has room for the mutex a task is about to wait
/// on, when every entry in use records a mutex of `ms` that has waiters
/// (which `lemma_inherit_records_only_contended` keeps true), the entries in
/// use have distinct keys, no task waits on two mutexes, and only user tasks
/// wait, the running user task `c` on none.
pub proof fn lemma_table_has_room(tab: Seq<MutexPriorityEntry>, ms: Seq<MutexView>, key: usize, c: TaskId)
    requires
        tab.len() == crate::priority::MAX_TRACKED_MUTEXES,
        c.0 < USER_TASKS,
        forall|i: int| 0 <= i < tab.len() && (#[trigger] tab[i]).mutex != 0 ==> exists|j: int|
            0 <= j < ms.len() && (#[trigger] ms[j]).key == tab[i].mutex && ms[j].waiters.len() > 0,
        forall|i: int, k: int| 0 <= i < tab.len() && 0 <= k < tab.len() && i != k && (#[trigger] tab[i]).mutex != 0
            ==> tab[i].mutex != (#[trigger] tab[k]).mutex,
        forall|j: int, k: int, x: TaskId| 0 <= j < ms.len() && 0 <= k < ms.len() && j != k && #[trigger] ms[j].waiters.contains(x)
            ==> !#[trigger] ms[k].waiters.contains(x),
        forall|j: int, x: TaskId| 0 <= j < ms.len() && #[trigger] ms[j].waiters.contains(x) ==> x.0 < USER_TASKS && x != c,
    ensures
        slot_for(tab, key) is Some,
{
    if tab[0].mutex == key {
        assert(is_slot_for(tab, key, 0));
    } else if tab[1].mutex == key {
        assert(is_slot_for(tab, key, 1));
    } else if tab[0].mutex == 0 {
        assert(is_slot_for(tab, key, 0));
    } else if tab[1].mutex == 0 {
        assert(is_slot_for(tab, key, 1));
    } else {
        let j0 = choose|j: int| 0 <= j < ms.len() && (#[trigger] ms[j]).key == tab[0].mutex && ms[j].waiters.len() > 0;
        let j1 = choose|j: int| 0 <= j < ms.len() && (#[trigger] ms[j]).key == tab[1].mutex && ms[j].waiters.len() > 0;
        assert(tab[0].mutex != tab[1].mutex);
        assert(j0 != j1);
        let w0 = ms[j0].waiters[0];
        let w1 = ms[j1].waiters[0];
        assert(ms[j0].waiters.contains(w0));
        assert(ms[j1].waiters.contains(w1));
        assert(w0 == w1);
        assert(false);
    }
}

/// When the owner unlocks a mutex and none of the other mutexes it owns (by
/// the priority table) has waiters of a priority above its base, it falls
/// back to its base priority.
pub proof fn lemma_unlock_restores_base(s: MutexView, v: SchedulerView, tab: Seq<MutexPriorityEntry>)
    requires
        sched_wf(v),
        v.current is Some,
        s.owner == Some(running_id(v)),
        !s.waiters.contains(running_id(v)),
        forall|i: int| 0 <= i < tab.len() && (#[trigger] tab[i]).owner == Some(running_id(v)) && !is_slot_for(tab, s.key, i)
            ==> tab[i].inherited_priority <= v.tasks[running_id(v).0 as int].base_priority,
    ensures
        ({
            let c = running_id(v).0 as int;
            let (m, w, t) = unlock_spec(s, v, tab);
            w.tasks[c].effective_priority == v.tasks[c].base_priority
        }),
{
    let c = running_id(v);
    let (s1, v1) = handed_over(s, v);
    if s.waiters.len() > 0 {
        let x = s.waiters[0];
        assert(x != c);
        if x.0 < MAX_TASKS && v.tasks[x.0 as int].state == crate::task::TaskState::Blocked {
            let a = crate::scheduler::after_wake(v, x.0 as int, TaskWakeReason::Mutex);
            assert forall|i: int| 0 <= i < MAX_TASKS implies (#[trigger] a.tasks[i]).id == TaskId(i as usize) by {
                if i != x.0 {
                    assert(a.tasks[i] == v.tasks[i]);
                }
            }
            assert forall|i: int| 0 <= i < MAX_TASKS implies crate::task::stack_fits((#[trigger] a.tasks[i]).stack_base, crate::scheduler::TASK_STACK_WORDS as nat) by {
                if i != x.0 {
                    assert(a.tasks[i] == v.tasks[i]);
                }
            }
            assert forall|i: int| 0 <= i < MAX_TASKS implies (#[trigger] a.tasks[i]).stack.len() == crate::scheduler::TASK_STACK_WORDS by {
                if i != x.0 {
                    assert(a.tasks[i] == v.tasks[i]);
                }
            }
        }
    }
    assert(sched_wf(v1));
    assert(v1.tasks[c.0 as int].base_priority == v.tasks[c.0 as int].base_priority);
    let (tab1, v2) = inherit(s1, v1, tab);
    if let Some(o) = s1.owner {
        crate::priority::lemma_reprioritized_frame(v1, tab1, o);
    }
    assert(v2.tasks[c.0 as int].base_priority == v.tasks[c.0 as int].base_priority);
    let base = v.tasks[c.0 as int].base_priority;
    assert forall|j: int| 0 <= j < tab1.len() && (#[trigger] tab1[j]).owner == Some(c) implies tab1[j].inherited_priority <= base by {
        match slot_for(tab, s.key) {
            Some(i) => {
                assert(is_slot_for(tab, s.key, i));
                if j != i {
                    assert(tab1[j] == tab[j]);
                    if is_slot_for(tab, s.key, j) {
                        crate::priority::lemma_slot_unique(tab, s.key, i, j);
                    }
                }
            },
            None => {
                assert(tab1[j] == tab[j]);
                assert(!is_slot_for(tab, s.key, j));
            },
        }
    }
    assert(is_inherited_max(tab1, c, base, base));
    lemma_inherited_max(tab1, c, base);
    crate::priority::lemma_reprioritized_frame(v2, tab1, c);
}

impl Mutex {
    /// The waiter queue is well formed.
    pub closed spec fn wf(&self) -> bool {
        self.waiters.wf()
    }

    /// The queue of waiting tasks.
    pub fn waiters(&self) -> (r: &WaitQueue)
        requires
            self.wf(),
        ensures
            r.wf(),
            r@ == self@.waiters,
    {
        &self.waiters
    }

    /// A free mutex with no waiters, known in the priority table as `key`
    /// (nonzero, and distinct from every other mutex's key, such as the
    /// mutex's address).
    pub fn new(key: usize) -> (r: Self)
        requires
            key != 0,
        ensures
            r.wf(),
            r@.key == key,
            r@.owner == None::<TaskId>,
            r@.waiters == Seq::<TaskId>::empty(),
    {
        Mutex { key, owner: None, waiters: WaitQueue::new() }
    }

    /// The key that identifies the mutex in the priority table.
    pub fn key(&self) -> (r: usize)
        ensures
            r == self@.key,
    {
        self.key
    }

    /// The owning task, if any.
    pub fn owner(&self) -> (r: Option<TaskId>)
        ensures
            r == self@.owner,
    {
        self.owner
    }

    /// Locks the mutex for the running task if it is free.
    pub fn try_lock(&mut self, sched: &Scheduler) -> (r: bool)
        requires
            old(self).wf(),
            sched.wf(),
            sched@.current is Some,
        ensures
            final(self).wf(),
            r == (old(self)@.owner is None),
            r ==> final(self)@ == (MutexView { owner: Some(running_id(sched@)), ..old(self)@ }),
            !r ==> final(self)@ == old(self)@,
    {
        let current = match sched.current_task_id() {
            Some(c) => c,
            None => return false,
        };
        if self.owner.is_none() {
            self.owner = Some(current);
            true
        } else {
            false
        }
    }

    fn enqueue_waiter(&mut self, task_id: TaskId) -> (r: Result<(), ()>)
        requires
            old(self).wf(),
        ensures
            final(self).wf(),
            final(self)@.owner == old(self)@.owner,
            final(self)@.key == old(self)@.key,
            old(self)@.waiters.contains(task_id) || old(self)@.waiters.len() < USER_TASKS ==> r is Ok
                && final(self)@.waiters == parked(old(self)@.waiters, task_id),
    {
        self.waiters.enqueue(task_id)
    }

    fn dequeue_waiter(&mut self) -> (r: Option<TaskId>)
        requires
            old(self).wf(),
        ensures
            final(self).wf(),
            final(self)@.owner == old(self)@.owner,
            final(self)@.key == old(self)@.key,
            old(self)@.waiters.len() == 0 ==> r is None && final(self)@ == old(self)@,
            old(self)@.waiters.len() > 0 ==> r == Some(old(self)@.waiters[0]) && final(self)@.waiters == old(self)@.waiters.drop_first(),
    {
        self.waiters.dequeue()
    }

    fn remove_waiter(&mut self, task_id: TaskId) -> (r: bool)
        requires
            old(self).wf(),
        ensures
            final(self).wf(),
            r == old(self)@.waiters.contains(task_id),
            final(self)@ == (MutexView { waiters: old(self)@.waiters.remove_value(task_id), ..old(self)@ }),
    {
        self.waiters.remove(task_id)
    }

    /// The highest effective priority among the waiting tasks.
    fn waiters_priority(&self, sched: &Scheduler) -> (r: TaskPriority)
        requires
            self.wf(),
            sched.wf(),
        ensures
            r == waiter_max(self@.waiters, sched@),
    {
        let ghost q = self@.waiters;
        proof { self.waiters.lemma_bounds(); }
        let mut m: TaskPriority = IDLE_TASK_PRIORITY;
        let mut i: usize = 0;
        while i < USER_TASKS
            invariant
                self.wf(),
                sched.wf(),
                q == self@.waiters,
                q.len() <= USER_TASKS,
                i <= USER_TASKS,
                m == waiter_max(q.subrange(0, if i < q.len() { i as int } else { q.len() as int }), sched@),
            decreases USER_TASKS - i,
        {
            match self.waiters.get(i) {
                Some(t) => {
                    let p = match sched.task_effective_priority(t) {
                        Some(p) => p,
                        None => IDLE_TASK_PRIORITY,
                    };
                    proof {
                        assert(q.subrange(0, i as int + 1).drop_last() =~= q.subrange(0, i as int));
                        assert(q.subrange(0, i as int + 1).last() == t);
                    }
                    if p > m {
                        m = p;
                    }
                },
                None => {},
            }
            i = i + 1;
        }
        proof {
            assert(q.subrange(0, q.len() as int) =~= q);
        }
        m
    }

    /// Brings the inheritance through this mutex up to date (see `inherit`).
    fn refresh_inheritance(&self, table: &mut MutexPriorityTable, sched: &mut Scheduler)
        requires
            self.wf(),
            old(sched).wf(),
        ensures
            final(sched).wf(),
            (final(table)@, final(sched)@) == inherit(self@, old(sched)@, old(table)@),
    {
        proof { self.waiters.lemma_bounds(); }
        let contended = self.waiters.get(0).is_some();
        if contended {
            let p = self.waiters_priority(sched);
            update_mutex_owner(table, self.key, self.owner, p);
        } else {
            update_mutex_owner(table, self.key, None, IDLE_TASK_PRIORITY);
        }
        if let Some(o) = self.owner {
            recompute_task_priority(table, sched, o);
        }
    }

    fn lock_attempt(&mut self, sched: &mut Scheduler, table: &mut MutexPriorityTable, deadline: Option<Deadline>) -> (r: WaitStep<bool, ()>)
        requires
            old(self).wf(),
            old(sched).wf(),
            old(sched)@.current is Some,
            may_wait(old(self)@, old(sched)@),
        ensures
            final(self).wf(),
            final(sched).wf(),
            (r, final(self)@, final(sched)@, final(table)@) == lock_attempt(old(self)@, old(sched)@, old(table)@, deadline),
    {
        if self.try_lock(sched) {
            return WaitStep::Done(true);
        }
        let current = match sched.current_task_id() {
            Some(c) => c,
            None => return WaitStep::Spin(()),
        };
        let _ = self.enqueue_waiter(current);
        self.refresh_inheritance(table, sched);
        match sched.block_current(TaskWaitKind::Mutex, deadline) {
            Reschedule::Block(sw) => WaitStep::Switch(sw, ()),
            _ => WaitStep::Spin(()),
        }
    }

    /// Locks the mutex for the running task, blocking until an `unlock`
    /// hands it over: one step (see `WaitStep`). While it waits, the owner
    /// runs at no less than its priority (see `lock_attempt`).
    pub fn lock(&mut self, sched: &mut Scheduler, table: &mut MutexPriorityTable) -> (r: WaitStep<(), ()>)
        requires
            old(self).wf(),
            old(sched).wf(),
            old(sched)@.current is Some,
            may_wait(old(self)@, old(sched)@),
        ensures
            final(self).wf(),
            final(sched).wf(),
            ({
                let (st, s, v, t) = lock_attempt(old(self)@, old(sched)@, old(table)@, None);
                r == untimed(st) && final(self)@ == s && final(sched)@ == v && final(table)@ == t
            }),
    {
        match self.lock_attempt(sched, table, None) {
            WaitStep::Done(_) => WaitStep::Done(()),
            WaitStep::Switch(sw, k) => WaitStep::Switch(sw, k),
            WaitStep::Spin(k) => WaitStep::Spin(k),
        }
    }

    /// The next step of a `lock` once the task runs again after blocking for
    /// `reason`: handed the mutex by an `unlock`, it is done; when it never
    /// blocked it leaves the queue and tries again.
    pub fn lock_resume(&mut self, sched: &mut Scheduler, table: &mut MutexPriorityTable, reason: TaskWakeReason) -> (r: WaitStep<(), ()>)
        requires
            old(self).wf(),
            old(sched).wf(),
            old(sched)@.current is Some,
            reason == TaskWakeReason::Mutex || reason == TaskWakeReason::NotWoken,
            reason == TaskWakeReason::NotWoken ==> may_wait(
                MutexView { waiters: old(self)@.waiters.remove_value(running_id(old(sched)@)), ..old(self)@ },
                old(sched)@,
            ),
        ensures
            final(self).wf(),
            final(sched).wf(),
            reason == TaskWakeReason::Mutex ==> r == WaitStep::<(), ()>::Done(()) && final(self)@ == old(self)@
                && final(sched)@ == old(sched)@ && final(table)@ == old(table)@,
            reason == TaskWakeReason::NotWoken ==> {
                let s1 = MutexView { waiters: old(self)@.waiters.remove_value(running_id(old(sched)@)), ..old(self)@ };
                let (st, s, v, t) = lock_attempt(s1, old(sched)@, old(table)@, None);
                r == untimed(st) && final(self)@ == s && final(sched)@ == v && final(table)@ == t
            },
    {
        if reason == TaskWakeReason::Mutex {
            return WaitStep::Done(());
        }
        let current = match sched.current_task_id() {
            Some(c) => c,
            None => return WaitStep::Spin(()),
        };
        self.remove_waiter(current);
        self.lock(sched, table)
    }

    /// Locks the mutex for the running task, blocking until `deadline`: one
    /// step (see `WaitStep`). A deadline already reached only tries.
    pub fn lock_until(&mut self, sched: &mut Scheduler, table: &mut MutexPriorityTable, deadline: Deadline) -> (r: WaitStep<bool, ()>)
        requires
            old(self).wf(),
            old(sched).wf(),
            old(sched)@.current is Some,
            !reached_at(deadline@, old(sched)@.ticks) ==> may_wait(old(self)@, old(sched)@),
        ensures
            final(self).wf(),
            final(sched).wf(),
            reached_at(deadline@, old(sched)@.ticks) ==> r == WaitStep::<bool, ()>::Done(old(self)@.owner is None)
                && final(self)@ == (if old(self)@.owner is None {
                    MutexView { owner: Some(running_id(old(sched)@)), ..old(self)@ }
                } else {
                    old(self)@
                }) && final(sched)@ == old(sched)@ && final(table)@ == old(table)@,
            !reached_at(deadline@, old(sched)@.ticks) ==> (r, final(self)@, final(sched)@, final(table)@) == lock_attempt(
                old(self)@,
                old(sched)@,
                old(table)@,
                Some(deadline),
            ),
    {
        if deadline.is_reached(sched.tick_count()) {
            return WaitStep::Done(self.try_lock(sched));
        }
        self.lock_attempt(sched, table, Some(deadline))
    }

    /// The next step of a `lock_until` once the task runs again after
    /// blocking for `reason`: handed the mutex, it succeeds; timed out, it
    /// leaves the queue, the inheritance through the mutex is brought up to
    /// date without it, and it fails; when it never blocked it leaves the
    /// queue and tries again.
    pub fn lock_until_resume(
        &mut self,
        sched: &mut Scheduler,
        table: &mut MutexPriorityTable,
        deadline: Deadline,
        reason: TaskWakeReason,
    ) -> (r: WaitStep<bool, ()>)
        requires
            old(self).wf(),
            old(sched).wf(),
            old(sched)@.current is Some,
            reason == TaskWakeReason::Mutex || reason == TaskWakeReason::Timeout || reason == TaskWakeReason::NotWoken,
            reason == TaskWakeReason::NotWoken ==> may_wait(
                MutexView { waiters: old(self)@.waiters.remove_value(running_id(old(sched)@)), ..old(self)@ },
                old(sched)@,
            ),
        ensures
            final(self).wf(),
            final(sched).wf(),
            reason == TaskWakeReason::Mutex ==> r == WaitStep::<bool, ()>::Done(true) && final(self)@ == old(self)@
                && final(sched)@ == old(sched)@ && final(table)@ == old(table)@,
            reason == TaskWakeReason::Timeout ==> {
                let s1 = MutexView { waiters: old(self)@.waiters.remove_value(running_id(old(sched)@)), ..old(self)@ };
                &&& r == WaitStep::<bool, ()>::Done(false)
                &&& final(self)@ == s1
                &&& (final(table)@, final(sched)@) == inherit(s1, old(sched)@, old(table)@)
            },
            reason == TaskWakeReason::NotWoken ==> (r, final(self)@, final(sched)@, final(table)@) == lock_attempt(
                MutexView { waiters: old(self)@.waiters.remove_value(running_id(old(sched)@)), ..old(self)@ },
                old(sched)@,
                old(table)@,
                Some(deadline),
            ),
    {
        if reason == TaskWakeReason::Mutex {
            return WaitStep::Done(true);
        }
        let current = match sched.current_task_id() {
            Some(c) => c,
            None => return WaitStep::Spin(()),
        };
        self.remove_waiter(current);
        if reason == TaskWakeReason::Timeout {
            self.refresh_inheritance(table, sched);
            return WaitStep::Done(false);
        }
        self.lock_attempt(sched, table, Some(deadline))
    }

    /// Unlocks the mutex, which the running task must own: ownership passes
    /// straight to the oldest waiter, woken, when there is one; otherwise the
    /// mutex becomes free. The inheritance through the mutex moves to the new
    /// owner and the old owner's effective priority is recomputed without it.
    pub fn unlock(&mut self, sched: &mut Scheduler, table: &mut MutexPriorityTable) -> (r: bool)
        requires
            old(self).wf(),
            old(sched).wf(),
            old(sched)@.current is Some,
            old(self)@.owner == Some(running_id(old(sched)@)),
        ensures
            final(self).wf(),
            final(sched).wf(),
            r,
            (final(self)@, final(sched)@, final(table)@) == unlock_spec(old(self)@, old(sched)@, old(table)@),
    {
        let previous = self.owner;
        if let Some(task_id) = self.dequeue_waiter() {
            self.owner = Some(task_id);
            sched.wake_task(task_id, TaskWakeReason::Mutex);
        } else {
            self.owner = None;
        }
        self.refresh_inheritance(table, sched);
        if let Some(o) = previous {
            recompute_task_priority(table, sched, o);
        }
        true
    }
}

} // verus!
