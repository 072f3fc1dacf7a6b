use vstd::prelude::*;
use crate::scheduler::{with_task, Scheduler, SchedulerView, IDLE_TASK_PRIORITY, MAX_TASKS, USER_TASKS};
use crate::task::{TaskId, TaskPriority, TaskView};

verus! {

/// Number of mutexes whose inherited priority is tracked.
pub const MAX_TRACKED_MUTEXES: usize = USER_TASKS;

/// What a tracked mutex contributes to its owner's priority. `mutex` is the
/// mutex's identity (its address); 0 marks a free entry.
#[derive(Clone, Copy, Debug, PartialEq, Eq, Structural)]
pub struct MutexPriorityEntry {
    pub mutex: usize,
    pub owner: Option<TaskId>,
    pub inherited_priority: TaskPriority,
}

/// The free entry.
pub open spec fn empty_entry() -> MutexPriorityEntry {
    MutexPriorityEntry { mutex: 0, owner: None, inherited_priority: IDLE_TASK_PRIORITY }
}

impl MutexPriorityEntry {
    /// The free entry.
    pub fn empty() -> (r: Self)
        ensures
            r == empty_entry(),
    {
        MutexPriorityEntry { mutex: 0, owner: None, inherited_priority: IDLE_TASK_PRIORITY }
    }
}

/// The fixed table of mutex-inherited priorities.
pub struct MutexPriorityTable {
    entries: [MutexPriorityEntry; MAX_TRACKED_MUTEXES],
}

impl View for MutexPriorityTable {
    type V = Seq<MutexPriorityEntry>;

    closed spec fn view(&self) -> Seq<MutexPriorityEntry> {
        self.entries@
    }
}

/// Slot `i` is where `find_or_allocate_entry` puts `mutex`: the first entry
/// of `mutex` if it has one, else the first free entry.
pub open spec fn is_slot_for(entries: Seq<MutexPriorityEntry>, mutex: usize, i: int) -> bool {
    &&& 0 <= i < entries.len()
    &&& if exists|j: int| 0 <= j < entries.len() && (#[trigger] entries[j]).mutex == mutex {
        &&& entries[i].mutex == mutex
        &&& forall|j: int| 0 <= j < i ==> (#[trigger] entries[j]).mutex != mutex
    } else {
        &&& entries[i].mutex == 0
        &&& forall|j: int| 0 <= j < i ==> (#[trigger] entries[j]).mutex != 0
    }
}

/// `p` is the priority task `t` runs at given base priority `base`: the
/// highest of `base` and the priorities inherited through mutexes it owns.
pub open spec fn is_inherited_max(entries: Seq<MutexPriorityEntry>, t: TaskId, base: TaskPriority, p: TaskPriority) -> bool {
    &&& base <= p
    &&& forall|i: int| 0 <= i < entries.len() && (#[trigger] entries[i]).owner == Some(t) ==> entries[i].inherited_priority <= p
    &&& (p == base || exists|i: int| 0 <= i < entries.len() && (#[trigger] entries[i]).owner == Some(t) && entries[i].inherited_priority == p)
}

/// Where `update_mutex_owner` records `mutex`: the first entry of `mutex`,
/// else the first free entry; none when the table is full of other mutexes.
pub open spec fn slot_for(entries: Seq<MutexPriorityEntry>, mutex: usize) -> Option<int> {
    if exists|i: int| is_slot_for(entries, mutex, i) {
        Some(choose|i: int| is_slot_for(entries, mutex, i))
    } else {
        None
    }
}

/// The entry that records `mutex` owned by `owner` under waiters pressing
/// `inherited_priority`: the free entry when nothing is owned or pressed.
pub open spec fn entry_for(mutex: usize, owner: Option<TaskId>, inherited_priority: TaskPriority) -> MutexPriorityEntry {
    if owner is None && inherited_priority == IDLE_TASK_PRIORITY {
        empty_entry()
    } else {
        MutexPriorityEntry { mutex: mutex, owner: owner, inherited_priority: inherited_priority }
    }
}

/// `entries` after `update_mutex_owner(mutex, owner, inherited_priority)`.
pub open spec fn table_set(entries: Seq<MutexPriorityEntry>, mutex: usize, owner: Option<TaskId>, inherited_priority: TaskPriority) -> Seq<MutexPriorityEntry> {
    match slot_for(entries, mutex) {
        Some(i) => entries.update(i, entry_for(mutex, owner, inherited_priority)),
        None => entries,
    }
}

/// The priority task `t` runs at with base priority `base` and the
/// mutex-inherited priorities `entries`.
pub open spec fn inherited_max(entries: Seq<MutexPriorityEntry>, t: TaskId, base: TaskPriority) -> TaskPriority {
    choose|p: TaskPriority| is_inherited_max(entries, t, base, p)
}

/// `v` with the effective priority of task `t` recomputed from `entries`;
/// `v` itself for an id without a slot.
pub open spec fn reprioritized(v: SchedulerView, entries: Seq<MutexPriorityEntry>, t: TaskId) -> SchedulerView {
    if t.0 < MAX_TASKS {
        with_task(v, t.0 as int, TaskView {
            effective_priority: inherited_max(entries, t, v.tasks[t.0 as int].base_priority),
            ..v.tasks[t.0 as int]
        })
    } else {
        v
    }
}

/// A mutex has at most one slot.
pub proof fn lemma_slot_unique(entries: Seq<MutexPriorityEntry>, mutex: usize, i: int, j: int)
    requires
        is_slot_for(entries, mutex, i),
        is_slot_for(entries, mutex, j),
    ensures
        i == j,
{
    if exists|k: int| 0 <= k < entries.len() && (#[trigger] entries[k]).mutex == mutex {
        if i < j {
            assert(entries[i].mutex == mutex);
        } else if j < i {
            assert(entries[j].mutex == mutex);
        }
    } else {
        if i < j {
            assert(entries[i].mutex == 0);
        } else if j < i {
            assert(entries[j].mutex == 0);
        }
    }
}

/// Recomputing the priority of `t` changes nothing but its effective
/// priority, which becomes `inherited_max`.
pub proof fn lemma_reprioritized_frame(v: SchedulerView, entries: Seq<MutexPriorityEntry>, t: TaskId)
    requires
        crate::scheduler::sched_wf(v),
    ensures
        ({
            let w = reprioritized(v, entries, t);
            &&& crate::scheduler::sched_wf(w)
            &&& w.current == v.current
            &&& w.ticks == v.ticks
            &&& forall|i: int| 0 <= i < MAX_TASKS && i != t.0 ==> #[trigger] w.tasks[i] == v.tasks[i]
            &&& t.0 < MAX_TASKS ==> w.tasks[t.0 as int] == (TaskView {
                effective_priority: inherited_max(entries, t, v.tasks[t.0 as int].base_priority),
                ..v.tasks[t.0 as int]
            })
        }),
{
    let w = reprioritized(v, entries, t);
    if t.0 < MAX_TASKS {
        assert forall|i: int| 0 <= i < MAX_TASKS implies (#[trigger] w.tasks[i]).id == TaskId(i as usize) by {
            if i != t.0 {
                assert(w.tasks[i] == v.tasks[i]);
            }
        }
        assert forall|i: int| 0 <= i < MAX_TASKS implies crate::task::stack_fits((#[trigger] w.tasks[i]).stack_base, crate::scheduler::TASK_STACK_WORDS as nat) by {
            if i != t.0 {
                assert(w.tasks[i] == v.tasks[i]);
            }
        }
        assert forall|i: int| 0 <= i < MAX_TASKS implies (#[trigger] w.tasks[i]).stack.len() == crate::scheduler::TASK_STACK_WORDS by {
            if i != t.0 {
                assert(w.tasks[i] == v.tasks[i]);
            }
        }
    }
}

/// The highest of `base` and the inherited priorities of the first `n`
/// entries that `t` owns, with where it comes from.
proof fn lemma_max_upto(entries: Seq<MutexPriorityEntry>, t: TaskId, base: TaskPriority, n: int) -> (p: TaskPriority)
    requires
        0 <= n <= entries.len(),
    ensures
        base <= p,
        forall|i: int| 0 <= i < n && (#[trigger] entries[i]).owner == Some(t) ==> entries[i].inherited_priority <= p,
        p == base || exists|i: int| 0 <= i < n && (#[trigger] entries[i]).owner == Some(t) && entries[i].inherited_priority == p,
    decreases n,
{
    if n == 0 {
        base
    } else {
        let q = lemma_max_upto(entries, t, base, n - 1);
        let e = entries[n - 1];
        if e.owner == Some(t) && e.inherited_priority > q {
            e.inherited_priority
        } else {
            q
        }
    }
}

/// `inherited_max` is the one priority that meets `is_inherited_max`: at
/// least the base, at least every priority inherited through a mutex `t`
/// owns, and one of them.
pub proof fn lemma_inherited_max(entries: Seq<MutexPriorityEntry>, t: TaskId, base: TaskPriority)
    ensures
        is_inherited_max(entries, t, base, inherited_max(entries, t, base)),
        forall|p: TaskPriority| #[trigger] is_inherited_max(entries, t, base, p) ==> p == inherited_max(entries, t, base),
{
    let w = lemma_max_upto(entries, t, base, entries.len() as int);
    assert(is_inherited_max(entries, t, base, w));
    let m = inherited_max(entries, t, base);
    assert forall|p: TaskPriority| #[trigger] is_inherited_max(entries, t, base, p) implies p == m by {
        lemma_inherited_max_unique(entries, t, base, p, m);
    }
}

proof fn lemma_inherited_max_unique(entries: Seq<MutexPriorityEntry>, t: TaskId, base: TaskPriority, p: TaskPriority, q: TaskPriority)
    requires
        is_inherited_max(entries, t, base, p),
        is_inherited_max(entries, t, base, q),
    ensures
        p == q,
{
    if p != base {
        let i = choose|i: int| 0 <= i < entries.len() && (#[trigger] entries[i]).owner == Some(t) && entries[i].inherited_priority == p;
        assert(entries[i].inherited_priority <= q);
    }
    if q != base {
        let i = choose|i: int| 0 <= i < entries.len() && (#[trigger] entries[i]).owner == Some(t) && entries[i].inherited_priority == q;
        assert(entries[i].inherited_priority <= p);
    }
}

impl MutexPriorityTable {
    /// Every entry free.
    pub fn new() -> (r: Self)
        ensures
            r@ == Seq::new(MAX_TRACKED_MUTEXES as nat, |i: int| empty_entry()),
    {
        let r = MutexPriorityTable { entries: [MutexPriorityEntry::empty(); MAX_TRACKED_MUTEXES] };
        assert(r@ =~= Seq::new(MAX_TRACKED_MUTEXES as nat, |i: int| empty_entry()));
        r
    }

    /// The table has `MAX_TRACKED_MUTEXES` entries.
    pub proof fn lemma_len(&self)
        ensures
            self@.len() == MAX_TRACKED_MUTEXES,
    {
    }

    fn find_or_allocate_entry(&self, mutex: usize) -> (r: Option<usize>)
        ensures
            r matches Some(i) ==> is_slot_for(self@, mutex, i as int),
            r is None ==> forall|j: int| 0 <= j < self@.len() ==> (#[trigger] self@[j]).mutex != mutex && self@[j].mutex != 0,
    {
        let mut free: Option<usize> = None;
        let mut index: usize = 0;
        while index < MAX_TRACKED_MUTEXES
            invariant
                index <= MAX_TRACKED_MUTEXES,
                self@.len() == MAX_TRACKED_MUTEXES,
                forall|j: int| 0 <= j < index ==> (#[trigger] self@[j]).mutex != mutex,
                free is None ==> forall|j: int| 0 <= j < index ==> (#[trigger] self@[j]).mutex != 0,
                free matches Some(f) ==> f < index && self@[f as int].mutex == 0 && forall|j: int| 0 <= j < f ==> (#[trigger] self@[j]).mutex != 0,
            decreases MAX_TRACKED_MUTEXES - index,
        {
            let entry = self.entries[index];
            if entry.mutex == mutex {
                return Some(index);
            }
            if entry.mutex == 0 && free.is_none() {
                free = Some(index);
            }
            index = index + 1;
        }
        free
    }
}

/// Records that `mutex` is owned by `owner` with waiters pressing
/// `inherited_priority`. A mutex with no owner and idle pressure frees its
/// entry; nothing happens when the mutex has no entry and none is free.
pub fn update_mutex_owner(table: &mut MutexPriorityTable, mutex: usize, owner: Option<TaskId>, inherited_priority: TaskPriority)
    ensures
        final(table)@ == table_set(old(table)@, mutex, owner, inherited_priority),
        slot_for(old(table)@, mutex) is None <==> forall|j: int|
            0 <= j < old(table)@.len() ==> (#[trigger] old(table)@[j]).mutex != mutex && old(table)@[j].mutex != 0,
{
    let index = match table.find_or_allocate_entry(mutex) {
        Some(i) => i,
        None => {
            proof {
                let e = old(table)@;
                assert forall|i: int| !is_slot_for(e, mutex, i) by {
                    if is_slot_for(e, mutex, i) {
                        if exists|j: int| 0 <= j < e.len() && (#[trigger] e[j]).mutex == mutex {
                            let j = choose|j: int| 0 <= j < e.len() && (#[trigger] e[j]).mutex == mutex;
                            assert(e[j].mutex != mutex);
                        }
                        assert(e[i].mutex != 0);
                    }
                }
            }
            return;
        },
    };
    proof {
        assert forall|i: int| #[trigger] is_slot_for(old(table)@, mutex, i) implies i == index by {
            let e = old(table)@;
            if i < index {
                if exists|j: int| 0 <= j < e.len() && (#[trigger] e[j]).mutex == mutex {
                    assert(e[i].mutex == mutex);
                } else {
                    assert(e[i].mutex == 0);
                }
            } else if i > index {
                if exists|j: int| 0 <= j < e.len() && (#[trigger] e[j]).mutex == mutex {
                    assert(e[index as int].mutex == mutex);
                } else {
                    assert(e[index as int].mutex == 0);
                }
            }
        }
        assert(slot_for(old(table)@, mutex) == Some(index as int));
        let e = old(table)@;
        if forall|j: int| 0 <= j < e.len() ==> (#[trigger] e[j]).mutex != mutex && e[j].mutex != 0 {
            assert(e[index as int].mutex == mutex || e[index as int].mutex == 0);
        }
    }
    if owner.is_none() && inherited_priority == IDLE_TASK_PRIORITY {
        table.entries[index] = MutexPriorityEntry::empty();
        return;
    }
    table.entries[index] = MutexPriorityEntry { mutex, owner, inherited_priority };
}

/// Sets the effective priority of `task_id` to the highest of its base
/// priority and the priorities inherited through the mutexes it owns;
/// nothing happens for an id without a slot.
pub fn recompute_task_priority(table: &MutexPriorityTable, sched: &mut Scheduler, task_id: TaskId)
    requires
        old(sched).wf(),
    ensures
        final(sched).wf(),
        final(sched)@ == reprioritized(old(sched)@, table@, task_id),
        task_id.0 < MAX_TASKS ==> is_inherited_max(
            table@,
            task_id,
            old(sched)@.tasks[task_id.0 as int].base_priority,
            final(sched)@.tasks[task_id.0 as int].effective_priority,
        ),
{
    let base = match sched.task_base_priority(task_id) {
        Some(p) => p,
        None => return,
    };
    let mut priority = base;
    let ghost mut from: int = -1;
    let mut index: usize = 0;
    while index < MAX_TRACKED_MUTEXES
        invariant
            index <= MAX_TRACKED_MUTEXES,
            table@.len() == MAX_TRACKED_MUTEXES,
            base <= priority,
            forall|i: int| 0 <= i < index && (#[trigger] table@[i]).owner == Some(task_id) ==> table@[i].inherited_priority <= priority,
            from == -1 ==> priority == base,
            from != -1 ==> 0 <= from < index && table@[from].owner == Some(task_id) && table@[from].inherited_priority == priority,
        decreases MAX_TRACKED_MUTEXES - index,
    {
        let entry = table.entries[index];
        if entry.owner == Some(task_id) && entry.inherited_priority > priority {
            priority = entry.inherited_priority;
            proof { from = index as int; }
        }
        index = index + 1;
    }
    proof {
        if from != -1 {
            assert(table@[from].owner == Some(task_id));
        }
        assert(is_inherited_max(table@, task_id, base, priority));
        lemma_inherited_max(table@, task_id, base);
    }
    sched.set_task_effective_priority(task_id, priority);
}

} // verus!
