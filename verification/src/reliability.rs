use vstd::prelude::*;
use crate::scheduler::{
    has_deadline, is_next_sleep_deadline, runnable, tickless_spec, traced, Scheduler, SchedulerView, IDLE_TASK_INDEX,
    MAX_TASKS, TASK_STACK_WORDS,
};
use crate::timer::Deadline;
use crate::task::{lowest_used_word, TaskId, TaskState};
use vstd::string::StringSliceAdditionalSpecFns;

verus! {

/// Number of events the trace ring keeps.
pub const TRACE_CAPACITY: usize = 64;

/// What a trace event records.
#[derive(Clone, Copy, Debug, PartialEq, Eq, Structural)]
pub enum TraceKind {
    Spawn,
    Switch,
    Block,
    Wake,
    StackOverflow,
    DeadlockSuspected,
    AssertFailed,
}

/// One compact trace record.
#[derive(Clone, Copy, Debug, PartialEq, Eq, Structural)]
pub struct TraceEvent {
    pub tick: u32,
    pub kind: TraceKind,
    pub task: Option<TaskId>,
    pub arg0: u32,
    pub arg1: u32,
}

/// The placeholder that fills unused trace slots.
pub open spec fn empty_event() -> TraceEvent {
    TraceEvent { tick: 0, kind: TraceKind::AssertFailed, task: None, arg0: 0, arg1: 0 }
}

impl TraceEvent {
    /// The placeholder that fills unused trace slots.
    pub fn empty() -> (r: Self)
        ensures
            r == empty_event(),
    {
        TraceEvent { tick: 0, kind: TraceKind::AssertFailed, task: None, arg0: 0, arg1: 0 }
    }
}

/// The contents of a trace ring: its slots and the running count of events
/// written, whose remainder modulo the capacity is the next slot.
pub struct TraceView {
    pub slots: Seq<TraceEvent>,
    pub written: usize,
}

/// The trace ring after recording `event`: it overwrites the oldest slot and
/// the count advances, wrapping.
pub open spec fn recorded(t: TraceView, event: TraceEvent) -> TraceView {
    TraceView {
        slots: t.slots.update((t.written % TRACE_CAPACITY) as int, event),
        written: vstd::wrapping::usize_specs::wrapping_add(t.written, 1),
    }
}

/// A fixed ring of the most recent trace events.
pub struct TraceLog {
    slots: [TraceEvent; TRACE_CAPACITY],
    written: usize,
}

impl View for TraceLog {
    type V = TraceView;

    closed spec fn view(&self) -> TraceView {
        TraceView { slots: self.slots@, written: self.written }
    }
}

impl TraceLog {
    /// An empty ring: every slot holds the placeholder.
    pub fn new() -> (r: Self)
        ensures
            r@.written == 0,
            r@.slots == Seq::new(TRACE_CAPACITY as nat, |i: int| empty_event()),
    {
        let r = TraceLog { slots: [TraceEvent::empty(); TRACE_CAPACITY], written: 0 };
        assert(r@.slots =~= Seq::new(TRACE_CAPACITY as nat, |i: int| empty_event()));
        r
    }

    /// The ring holds `TRACE_CAPACITY` slots.
    pub proof fn lemma_len(&self)
        ensures
            self@.slots.len() == TRACE_CAPACITY,
    {
    }

    /// Records `event` over the oldest slot.
    pub fn record(&mut self, event: TraceEvent)
        ensures
            final(self)@ == recorded(old(self)@, event),
    {
        let index = self.written % TRACE_CAPACITY;
        self.written = self.written.wrapping_add(1);
        self.slots[index] = event;
    }

    /// A copy of every slot.
    pub fn snapshot(&self) -> (r: [TraceEvent; TRACE_CAPACITY])
        ensures
            r@ == self@.slots,
    {
        self.slots
    }
}

/// Records a trace event stamped with the current tick.
pub fn trace(sched: &mut Scheduler, kind: TraceKind, task: Option<TaskId>, arg0: u32, arg1: u32)
    requires
        old(sched).wf(),
    ensures
        final(sched).wf(),
        final(sched)@ == traced(old(sched)@, kind, task, arg0, arg1),
{
    sched.record_trace(kind, task, arg0, arg1);
}

/// A copy of the trace ring.
pub fn trace_snapshot(sched: &Scheduler) -> (r: [TraceEvent; TRACE_CAPACITY])
    ensures
        r@ == sched@.trace.slots,
{
    sched.trace_snapshot()
}

/// Checks a kernel assertion: a failed one is traced with the running task
/// and the message length; the caller then halts. Returns `condition`.
pub fn kernel_assert(sched: &mut Scheduler, condition: bool, message: &str) -> (r: bool)
    requires
        old(sched).wf(),
    ensures
        final(sched).wf(),
        r == condition,
        condition ==> final(sched)@ == old(sched)@,
        !condition ==> final(sched)@ == traced(
            old(sched)@,
            TraceKind::AssertFailed,
            match old(sched)@.current {
                Some(c) => Some(TaskId(c)),
                None => None::<TaskId>,
            },
            (message.spec_bytes().len() as usize) as u32,
            0,
        ),
{
    if condition {
        return true;
    }
    let task = sched.current_task_id();
    let len = message.len() as u32;
    trace(sched, TraceKind::AssertFailed, task, len, 0);
    false
}

/// Traces that task `task` overflowed its stack after using `used_words`
/// words, with its stack capacity (0 for an id without a slot); the caller
/// then halts.
pub fn note_stack_overflow(sched: &mut Scheduler, task: TaskId, used_words: usize)
    requires
        old(sched).wf(),
    ensures
        final(sched).wf(),
        final(sched)@ == traced(
            old(sched)@,
            TraceKind::StackOverflow,
            Some(task),
            used_words as u32,
            if task.0 < MAX_TASKS { TASK_STACK_WORDS as u32 } else { 0 },
        ),
{
    let capacity = match sched.task_stack_capacity_words(task) {
        Some(c) => c,
        None => 0,
    };
    trace(sched, TraceKind::StackOverflow, Some(task), used_words as u32, capacity as u32);
}

/// Task `i` of `v` overflowed its stack.
pub open spec fn overflowed(v: SchedulerView, i: int) -> bool {
    v.tasks[i].stack[0] != 0
}

/// Words task `i` of `v` has used of its stack.
pub open spec fn used_words(v: SchedulerView, i: int) -> usize {
    (TASK_STACK_WORDS - lowest_used_word(v.tasks[i].stack)) as usize
}

/// Checks task `task` for a stack overflow: an overflow is traced (see
/// `note_stack_overflow`) and its used words returned for the caller, which
/// halts; none otherwise.
pub fn check_task_stack(sched: &mut Scheduler, task: TaskId) -> (r: Option<usize>)
    requires
        old(sched).wf(),
    ensures
        final(sched).wf(),
        !(task.0 < MAX_TASKS && overflowed(old(sched)@, task.0 as int)) ==> r is None && final(sched)@ == old(sched)@,
        task.0 < MAX_TASKS && overflowed(old(sched)@, task.0 as int) ==> {
            let u = used_words(old(sched)@, task.0 as int);
            &&& r == Some(u)
            &&& final(sched)@ == traced(old(sched)@, TraceKind::StackOverflow, Some(task), u as u32, TASK_STACK_WORDS as u32)
        },
{
    let overflowed = match sched.task_stack_overflowed(task) {
        Some(o) => o,
        None => return None,
    };
    if !overflowed {
        return None;
    }
    let used_words = match sched.task_stack_used_words(task) {
        Some(u) => u,
        None => 0,
    };
    note_stack_overflow(sched, task, used_words);
    Some(used_words)
}

/// Checks every task's stack in slot order; the first overflow is traced
/// and returned with its used words, for the caller to halt.
pub fn check_all_task_stacks(sched: &mut Scheduler) -> (r: Option<(TaskId, usize)>)
    requires
        old(sched).wf(),
    ensures
        final(sched).wf(),
        (forall|i: int| 0 <= i < MAX_TASKS ==> !overflowed(old(sched)@, i)) ==> r is None && final(sched)@ == old(sched)@,
        r matches Some((t, u)) ==> {
            &&& t.0 < MAX_TASKS
            &&& overflowed(old(sched)@, t.0 as int)
            &&& forall|j: int| 0 <= j < t.0 ==> !overflowed(old(sched)@, j)
            &&& u == used_words(old(sched)@, t.0 as int)
            &&& final(sched)@ == traced(old(sched)@, TraceKind::StackOverflow, Some(t), u as u32, TASK_STACK_WORDS as u32)
        },
        r is None ==> forall|i: int| 0 <= i < MAX_TASKS ==> !overflowed(old(sched)@, i),
{
    let mut task_index: usize = 0;
    while task_index < MAX_TASKS
        invariant
            sched.wf(),
            sched@ == old(sched)@,
            task_index <= MAX_TASKS,
            forall|j: int| 0 <= j < task_index ==> !overflowed(old(sched)@, j),
        decreases MAX_TASKS - task_index,
    {
        if let Some(used) = check_task_stack(sched, TaskId(task_index)) {
            return Some((TaskId(task_index), used));
        }
        task_index = task_index + 1;
    }
    None
}

/// Remembers whether the current deadlock episode has been reported.
pub struct DeadlockMonitor {
    reported: bool,
}

/// In `v` every user task is blocked without a deadline and only the idle
/// task can run: nothing but an interrupt can make progress.
pub open spec fn deadlocked(v: SchedulerView) -> bool {
    &&& forall|i: int| 0 <= i < MAX_TASKS && i != IDLE_TASK_INDEX ==> !runnable(#[trigger] v.tasks[i])
    &&& exists|i: int| 0 <= i < MAX_TASKS && i != IDLE_TASK_INDEX && (#[trigger] v.tasks[i]).state == TaskState::Blocked
    &&& forall|i: int| 0 <= i < MAX_TASKS && i != IDLE_TASK_INDEX && (#[trigger] v.tasks[i]).state == TaskState::Blocked
        ==> v.tasks[i].wake_deadline is None
}

impl DeadlockMonitor {
    /// Nothing reported yet.
    pub fn new() -> (r: Self)
        ensures
            !r.reported_spec(),
    {
        DeadlockMonitor { reported: false }
    }

    /// The current episode has been reported.
    pub closed spec fn reported_spec(&self) -> bool {
        self.reported
    }

    /// Whether the current episode has been reported.
    pub fn reported(&self) -> (r: bool)
        ensures
            r == self.reported_spec(),
    {
        self.reported
    }
}

/// Watches for a deadlock: it is reported (traced, and true returned so the
/// caller can log the task states) once per episode; a recoverable state
/// ends the episode.
pub fn diagnose_deadlock(monitor: &mut DeadlockMonitor, sched: &mut Scheduler) -> (r: bool)
    requires
        old(sched).wf(),
    ensures
        final(sched).wf(),
        !deadlocked(old(sched)@) ==> !r && !final(monitor).reported_spec() && final(sched)@ == old(sched)@,
        deadlocked(old(sched)@) && old(monitor).reported_spec() ==> !r && final(monitor).reported_spec() && final(sched)@
            == old(sched)@,
        deadlocked(old(sched)@) && !old(monitor).reported_spec() ==> r && final(monitor).reported_spec() && final(sched)@
            == traced(old(sched)@, TraceKind::DeadlockSuspected, None, 0, 0),
{
    if !sched.only_idle_runnable() || !sched.blocked_tasks_have_no_deadlines() {
        monitor.reported = false;
        return false;
    }
    if monitor.reported {
        return false;
    }
    monitor.reported = true;
    trace(sched, TraceKind::DeadlockSuspected, None, 0, 0);
    true
}

/// What the idle task must do after one pass: program a stretched tick
/// period (when a reload value is given) and report a suspected deadlock
/// (when `deadlock` holds); then it waits for an interrupt.
pub struct IdleAction {
    pub reload: Option<u32>,
    pub deadlock: bool,
}

/// One pass of the idle task: while some task sleeps towards a deadline,
/// the tick period is stretched towards the next one (see
/// `Scheduler::next_sleep_deadline` and `Scheduler::begin_tickless_idle`)
/// and the monitor is left alone; otherwise the deadlock monitor runs (see
/// `diagnose_deadlock`).
pub fn idle_step(monitor: &mut DeadlockMonitor, sched: &mut Scheduler) -> (r: IdleAction)
    requires
        old(sched).wf(),
    ensures
        final(sched).wf(),
        (exists|i: int| 0 <= i < MAX_TASKS && has_deadline(#[trigger] old(sched)@.tasks[i])) ==> {
            &&& !r.deadlock
            &&& *final(monitor) == *old(monitor)
            &&& exists|d: Deadline| is_next_sleep_deadline(old(sched)@, Some(d)) && (r.reload, final(sched)@) == tickless_spec(old(sched)@, d)
        },
        (forall|i: int| 0 <= i < MAX_TASKS ==> !has_deadline(#[trigger] old(sched)@.tasks[i])) ==> {
            let v = old(sched)@;
            &&& r.reload is None
            &&& !deadlocked(v) ==> !r.deadlock && !final(monitor).reported_spec() && final(sched)@ == v
            &&& deadlocked(v) && old(monitor).reported_spec() ==> !r.deadlock && final(monitor).reported_spec() && final(sched)@ == v
            &&& deadlocked(v) && !old(monitor).reported_spec() ==> r.deadlock && final(monitor).reported_spec()
                && final(sched)@ == traced(v, TraceKind::DeadlockSuspected, None, 0, 0)
        },
{
    match sched.next_sleep_deadline() {
        Some(deadline) => {
            let reload = sched.begin_tickless_idle(deadline);
            IdleAction { reload, deadlock: false }
        },
        None => {
            let deadlock = diagnose_deadlock(monitor, sched);
            IdleAction { reload: None, deadlock }
        },
    }
}

} // verus!
