use vstd::prelude::*;
use crate::reliability::{recorded, TraceEvent, TraceKind, TraceLog, TraceView};
use crate::task::{
    dormant_view, frame_psp, prepared_view, reset_for_entry, stack_fits, TaskControlBlock, TaskEntry, TaskId, TaskInitError, TaskPriority,
    TaskState, TaskView, TaskWaitKind, TaskWakeReason,
};
use crate::timer::{reached_at, remaining_at, ticks_after, Deadline, Timer};

verus! {

/// Task slots `spawn` hands out.
pub const USER_TASKS: usize = 2;

/// All task slots: the user slots and the idle task's.
pub const MAX_TASKS: usize = USER_TASKS + 1;

/// Words in each task's stack.
pub const TASK_STACK_WORDS: usize = 256;

/// Ticks a task runs before an equal-priority task may take over.
pub const TIME_SLICE_TICKS: u32 = 10;

/// Priority of tasks spawned without one.
pub const DEFAULT_TASK_PRIORITY: TaskPriority = 1;

/// Priority of the idle task, below every other.
pub const IDLE_TASK_PRIORITY: TaskPriority = 0;

/// The slot reserved for the idle task.
pub const IDLE_TASK_INDEX: usize = MAX_TASKS - 1;

/// Why a task could not be spawned.
#[derive(Clone, Copy, Debug, PartialEq, Eq, Structural)]
pub enum SpawnError {
    NoSlots,
    TaskInit(TaskInitError),
}

/// A context switch for the hardware layer to carry out: save the running
/// context into task `from` and resume task `to`.
#[derive(Clone, Copy, Debug, PartialEq, Eq, Structural)]
pub struct Switch {
    pub from: usize,
    pub to: usize,
}

/// What the caller must do after a scheduling decision.
#[derive(Clone, Copy, Debug, PartialEq, Eq, Structural)]
pub enum Reschedule {
    /// Keep running the current task.
    Stay,
    /// Switch away; the current task stays ready.
    Yield(Switch),
    /// Switch away; the current task blocked and, once it runs again, learns
    /// why from `Scheduler::resume_blocked`.
    Block(Switch),
}

/// One step of a blocking operation: it finished with a result, or the
/// running task blocked and the caller carries out the switch, or it could
/// not block and spins. After `Switch`, once the task runs again, the caller
/// passes `Scheduler::resume_blocked`'s reason to the operation's `*_resume`
/// step; after `Spin` it passes `TaskWakeReason::NotWoken`. `K` is what the
/// operation hands back to keep until then.
pub enum WaitStep<R, K> {
    Done(R),
    Switch(Switch, K),
    Spin(K),
}

/// The plain values the scheduler holds.
pub struct SchedulerView {
    pub tasks: Seq<TaskView>,
    pub current: Option<usize>,
    pub remaining_slice_ticks: u32,
    pub ticks: u32,
    pub tick_step: u32,
    pub trace: TraceView,
    pub exit_trap: TaskEntry,
    pub idle_entry: TaskEntry,
}

/// The fixed task table, the running task, the time slice, the tick counter
/// and the trace ring of the kernel.
pub struct Scheduler {
    tasks: [TaskControlBlock<TASK_STACK_WORDS>; MAX_TASKS],
    current: Option<usize>,
    remaining_slice_ticks: u32,
    timer: Timer,
    trace: TraceLog,
    exit_trap: TaskEntry,
    idle_entry: TaskEntry,
}

/// A ready or running task can be scheduled.
pub open spec fn runnable(t: TaskView) -> bool {
    t.state == TaskState::Ready || t.state == TaskState::Running
}

/// The slot `step` places after `start` in round-robin order.
pub open spec fn rr_index(start: int, step: int) -> int {
    (start + step) % (MAX_TASKS as int)
}

/// Where the round-robin scan starts: after the running task, or at slot 0.
pub open spec fn rr_start(current: Option<usize>) -> int {
    match current {
        Some(c) => (c + 1) % (MAX_TASKS as int),
        None => 0,
    }
}

/// Slot `i` is the scheduler's pick from `tasks` when scanning from `start`:
/// it is runnable, no runnable task has a higher effective priority, and every
/// runnable task met before it in the scan has a lower one.
pub open spec fn is_pick(tasks: Seq<TaskView>, start: int, i: int) -> bool {
    &&& 0 <= i < MAX_TASKS
    &&& runnable(tasks[i])
    &&& forall|j: int|
        0 <= j < MAX_TASKS && runnable(#[trigger] tasks[j]) ==> tasks[j].effective_priority
            <= tasks[i].effective_priority
    &&& exists|ks: int|
        0 <= ks < MAX_TASKS && rr_index(start, ks) == i && forall|k: int|
            0 <= k < ks && runnable(#[trigger] tasks[rr_index(start, k)]) ==> tasks[rr_index(
                start,
                k,
            )].effective_priority < tasks[i].effective_priority
}

/// The task to run next when scanning from `start`; none if no task is runnable.
pub open spec fn next_ready(tasks: Seq<TaskView>, start: int) -> Option<usize> {
    if exists|i: int| is_pick(tasks, start, i) {
        Some((choose|i: int| is_pick(tasks, start, i)) as usize)
    } else {
        None
    }
}

/// Trace code of a wait kind: its position in the declaration.
pub open spec fn wait_kind_code(k: TaskWaitKind) -> u32 {
    match k {
        TaskWaitKind::NotWaiting => 0,
        TaskWaitKind::Sleep => 1,
        TaskWaitKind::Semaphore => 2,
        TaskWaitKind::Mutex => 3,
        TaskWaitKind::QueueSend => 4,
        TaskWaitKind::QueueReceive => 5,
        TaskWaitKind::EventFlags => 6,
    }
}

/// Trace code of a wake reason: its position in the declaration.
pub open spec fn wake_reason_code(r: TaskWakeReason) -> u32 {
    match r {
        TaskWakeReason::NotWoken => 0,
        TaskWakeReason::Timeout => 1,
        TaskWakeReason::Semaphore => 2,
        TaskWakeReason::Mutex => 3,
        TaskWakeReason::Queue => 4,
        TaskWakeReason::EventFlags => 5,
    }
}

fn wait_kind_code_of(k: TaskWaitKind) -> (r: u32)
    ensures
        r == wait_kind_code(k),
{
    match k {
        TaskWaitKind::NotWaiting => 0,
        TaskWaitKind::Sleep => 1,
        TaskWaitKind::Semaphore => 2,
        TaskWaitKind::Mutex => 3,
        TaskWaitKind::QueueSend => 4,
        TaskWaitKind::QueueReceive => 5,
        TaskWaitKind::EventFlags => 6,
    }
}

fn wake_reason_code_of(r: TaskWakeReason) -> (c: u32)
    ensures
        c == wake_reason_code(r),
{
    match r {
        TaskWakeReason::NotWoken => 0,
        TaskWakeReason::Timeout => 1,
        TaskWakeReason::Semaphore => 2,
        TaskWakeReason::Mutex => 3,
        TaskWakeReason::Queue => 4,
        TaskWakeReason::EventFlags => 5,
    }
}

/// `v` after recording a trace event of `kind` stamped with the current tick.
pub open spec fn traced(v: SchedulerView, kind: TraceKind, task: Option<TaskId>, arg0: u32, arg1: u32) -> SchedulerView {
    SchedulerView {
        trace: recorded(v.trace, TraceEvent { tick: v.ticks, kind: kind, task: task, arg0: arg0, arg1: arg1 }),
        ..v
    }
}

/// `v` with task `i` replaced by `t`.
pub open spec fn with_task(v: SchedulerView, i: int, t: TaskView) -> SchedulerView {
    SchedulerView { tasks: v.tasks.update(i, t), ..v }
}

/// `v` after switching from the running task `from`, left in `from_state`,
/// to `to`: a task left ready stops waiting, `to` runs with no wait, the slice
/// restarts and the switch is traced.
pub open spec fn after_switch(v: SchedulerView, from: int, to: int, from_state: TaskState) -> SchedulerView {
    let ft = v.tasks[from];
    let ft2 = if from_state == TaskState::Ready {
        TaskView { state: from_state, wait_kind: TaskWaitKind::NotWaiting, wake_deadline: None, ..ft }
    } else {
        TaskView { state: from_state, ..ft }
    };
    let tasks1 = v.tasks.update(from, ft2);
    let tasks2 = tasks1.update(
        to,
        TaskView { state: TaskState::Running, wait_kind: TaskWaitKind::NotWaiting, wake_deadline: None, ..tasks1[to] },
    );
    traced(
        SchedulerView { tasks: tasks2, current: Some(to as usize), remaining_slice_ticks: TIME_SLICE_TICKS, ..v },
        TraceKind::Switch,
        Some(TaskId(to as usize)),
        from as u32,
        to as u32,
    )
}

/// The outcome of switching away from the running task of `v`, left in
/// `from_state`: no switch without a running task or a runnable one; when
/// the pick is the running task itself only its time slice restarts;
/// otherwise the switch to the pick.
pub open spec fn switch_spec(v: SchedulerView, from_state: TaskState) -> (Option<Switch>, SchedulerView) {
    match v.current {
        None => (None, v),
        Some(c) => match next_ready(v.tasks, rr_start(Some(c))) {
            None => (None, v),
            Some(n) => if n == c {
                (None, SchedulerView { remaining_slice_ticks: TIME_SLICE_TICKS, ..v })
            } else {
                (Some(Switch { from: c, to: n }), after_switch(v, c as int, n as int, from_state))
            },
        },
    }
}

/// `v` once its running task `c` is blocked, has recorded that it waits for
/// `kind` until `deadline`, and the block is traced. A blocked task is no
/// candidate for the pick that follows.
pub open spec fn before_block(v: SchedulerView, c: int, kind: TaskWaitKind, deadline: Option<Deadline>) -> SchedulerView {
    traced(
        with_task(v, c, TaskView {
            state: TaskState::Blocked,
            wait_kind: kind,
            wake_deadline: deadline,
            wake_reason: TaskWakeReason::NotWoken,
            ..v.tasks[c]
        }),
        TraceKind::Block,
        Some(TaskId(c as usize)),
        wait_kind_code(kind),
        0,
    )
}

/// The outcome of blocking the running task of `v` on `kind` until
/// `deadline`: without a running task nothing happens; when any other task
/// can run, whatever its priority, the switch to the pick among the others;
/// only when none can does the task keep running, waiting for nothing.
pub open spec fn block_spec(v: SchedulerView, kind: TaskWaitKind, deadline: Option<Deadline>) -> (Reschedule, SchedulerView) {
    match v.current {
        None => (Reschedule::Stay, v),
        Some(c) => {
            let b = before_block(v, c as int, kind, deadline);
            let (sw, w) = switch_spec(b, TaskState::Blocked);
            match sw {
                Some(x) => (Reschedule::Block(x), w),
                None => (
                    Reschedule::Stay,
                    with_task(w, c as int, TaskView {
                        wait_kind: TaskWaitKind::NotWaiting,
                        wake_deadline: None,
                        state: TaskState::Running,
                        ..w.tasks[c as int]
                    }),
                ),
            }
        },
    }
}

/// The outcome of yielding: a switch to the pick, the running task staying ready.
pub open spec fn yield_spec(v: SchedulerView) -> (Reschedule, SchedulerView) {
    let (sw, w) = switch_spec(v, TaskState::Ready);
    match sw {
        Some(x) => (Reschedule::Yield(x), w),
        None => (Reschedule::Stay, w),
    }
}

/// Task `t` is blocked on a wait whose deadline has been reached at `now`.
pub open spec fn expired(t: TaskView, now: u32) -> bool {
    &&& t.state == TaskState::Blocked
    &&& t.wait_kind != TaskWaitKind::NotWaiting
    &&& t.wake_deadline matches Some(d) && reached_at(d@, now)
}

/// `v` after the tick handler's scan of slots `0..k` at `now`: each task
/// whose deadline has passed is woken with a timeout, in slot order.
pub open spec fn wake_expired(v: SchedulerView, now: u32, k: nat) -> SchedulerView
    decreases k,
{
    if k == 0 {
        v
    } else {
        let w = wake_expired(v, now, (k - 1) as nat);
        if expired(w.tasks[k - 1], now) {
            after_wake(w, k - 1, TaskWakeReason::Timeout)
        } else {
            w
        }
    }
}

/// The outcome of a kernel tick on `v`: expired sleepers wake; an idle
/// processor switches at once when one did; otherwise the running task's
/// slice counts down, and when it runs out the next pick takes over or the
/// slice restarts.
pub open spec fn on_tick_spec(v: SchedulerView) -> (Option<Switch>, SchedulerView) {
    let w = wake_expired(v, v.ticks, MAX_TASKS as nat);
    let woke = exists|i: int| 0 <= i < MAX_TASKS && expired(#[trigger] v.tasks[i], v.ticks);
    match w.current {
        None => (None, w),
        Some(c) => if c == IDLE_TASK_INDEX && woke {
            switch_spec(w, TaskState::Ready)
        } else if w.remaining_slice_ticks > 1 {
            (None, SchedulerView { remaining_slice_ticks: (w.remaining_slice_ticks - 1) as u32, ..w })
        } else {
            let (sw, x) = switch_spec(w, TaskState::Ready);
            match sw {
                Some(_) => (sw, x),
                None => (None, SchedulerView { remaining_slice_ticks: TIME_SLICE_TICKS, ..x }),
            }
        },
    }
}

/// Task `t` sleeps towards a deadline.
pub open spec fn has_deadline(t: TaskView) -> bool {
    t.state == TaskState::Blocked && t.wake_deadline is Some
}

/// Ticks left at `now` until the deadline of `t`.
pub open spec fn remaining_of(t: TaskView, now: u32) -> u32 {
    remaining_at(t.wake_deadline->0@, now)
}

/// Slot `i` is the first whose task, blocked towards a deadline, has
/// reached it at `now`.
pub open spec fn is_first_overdue(tasks: Seq<TaskView>, now: u32, i: int) -> bool {
    &&& 0 <= i < MAX_TASKS
    &&& has_deadline(tasks[i])
    &&& reached_at(tasks[i].wake_deadline->0@, now)
    &&& forall|j: int| 0 <= j < i && has_deadline(#[trigger] tasks[j]) ==> !reached_at(tasks[j].wake_deadline->0@, now)
}

/// Slot `i` holds the deadline with the fewest ticks left at `now`, the
/// first such in slot order.
pub open spec fn is_nearest(tasks: Seq<TaskView>, now: u32, i: int) -> bool {
    &&& 0 <= i < MAX_TASKS
    &&& has_deadline(tasks[i])
    &&& forall|j: int| 0 <= j < MAX_TASKS && has_deadline(#[trigger] tasks[j]) ==> remaining_of(tasks[i], now) <= remaining_of(tasks[j], now)
    &&& forall|j: int| 0 <= j < i && has_deadline(#[trigger] tasks[j]) ==> remaining_of(tasks[j], now) > remaining_of(tasks[i], now)
}

/// Slot `i` is the first user slot with a dormant task.
pub open spec fn is_first_dormant(tasks: Seq<TaskView>, i: int) -> bool {
    &&& 0 <= i < USER_TASKS
    &&& tasks[i].state == TaskState::Dormant
    &&& forall|j: int| 0 <= j < i ==> (#[trigger] tasks[j]).state != TaskState::Dormant
}

/// `r` is what `next_sleep_deadline` gives on `v`: none when no task sleeps
/// towards a deadline; else the deadline of the first overdue sleeper, if
/// any; else that of a sleeper nearest its deadline.
pub open spec fn is_next_sleep_deadline(v: SchedulerView, r: Option<Deadline>) -> bool {
    &&& (forall|i: int| 0 <= i < MAX_TASKS ==> !has_deadline(#[trigger] v.tasks[i])) ==> r is None
    &&& (exists|i: int| is_first_overdue(v.tasks, v.ticks, i)) ==> exists|i: int|
        is_first_overdue(v.tasks, v.ticks, i) && r == v.tasks[i].wake_deadline
    &&& (exists|i: int| 0 <= i < MAX_TASKS && has_deadline(#[trigger] v.tasks[i]))
        && !(exists|i: int| is_first_overdue(v.tasks, v.ticks, i)) ==> exists|i: int|
        is_nearest(v.tasks, v.ticks, i) && r == v.tasks[i].wake_deadline
}

/// The outcome of stretching the tick period of `v` towards `deadline`: with
/// at most one tick left nothing changes; otherwise the period becomes the
/// ticks left, capped at `MAX_SUPPRESSED_TICKS`, and its reload value is
/// given to program.
pub open spec fn tickless_spec(v: SchedulerView, deadline: Deadline) -> (Option<u32>, SchedulerView) {
    let left = remaining_at(deadline@, v.ticks);
    if left <= 1 {
        (None, v)
    } else {
        let t = if left < crate::timer::MAX_SUPPRESSED_TICKS { left } else { crate::timer::MAX_SUPPRESSED_TICKS };
        (Some(crate::timer::reload_for(t)), SchedulerView { tick_step: t, ..v })
    }
}

/// `v` once the idle slot, if still dormant, has been prepared to start at
/// the idle entry, at idle priority.
pub open spec fn idle_prepared(v: SchedulerView) -> SchedulerView {
    let t = v.tasks[IDLE_TASK_INDEX as int];
    if t.state == TaskState::Dormant {
        let p = if frame_psp(t, TASK_STACK_WORDS as nat) % 8 != 0 {
            reset_for_entry(t, TASK_STACK_WORDS as nat, v.idle_entry, v.exit_trap)
        } else {
            prepared_view(t, TASK_STACK_WORDS as nat, v.idle_entry, v.exit_trap)
        };
        with_task(v, IDLE_TASK_INDEX as int, TaskView { base_priority: IDLE_TASK_PRIORITY, effective_priority: IDLE_TASK_PRIORITY, ..p })
    } else {
        v
    }
}

/// `v` after a wake of `id` for `reason`: only a blocked task with a slot wakes.
pub open spec fn wake_outcome(v: SchedulerView, id: TaskId, reason: TaskWakeReason) -> SchedulerView {
    if id.0 < MAX_TASKS && v.tasks[id.0 as int].state == TaskState::Blocked {
        after_wake(v, id.0 as int, reason)
    } else {
        v
    }
}

/// `v` after waking each task of `ids` in turn for `reason`.
pub open spec fn wake_each(v: SchedulerView, ids: Seq<TaskId>, reason: TaskWakeReason) -> SchedulerView
    decreases ids.len(),
{
    if ids.len() == 0 {
        v
    } else {
        wake_each(wake_outcome(v, ids[0], reason), ids.drop_first(), reason)
    }
}

/// The running task of `v`.
pub open spec fn running_id(v: SchedulerView) -> TaskId {
    TaskId(v.current->0)
}

/// `q` with `t` queued at the back unless it is queued already.
pub open spec fn parked(q: Seq<TaskId>, t: TaskId) -> Seq<TaskId> {
    if q.contains(t) {
        q
    } else {
        q.push(t)
    }
}

/// The queue `q` has room for the running task of `v`.
pub open spec fn has_room(q: Seq<TaskId>, v: SchedulerView) -> bool {
    q.contains(running_id(v)) || q.len() < USER_TASKS
}

/// The step a blocking operation reports after blocking with outcome `rs`,
/// keeping `k` for its next step.
pub open spec fn step_after_block<R, K>(rs: Reschedule, k: K) -> WaitStep<R, K> {
    match rs {
        Reschedule::Block(sw) => WaitStep::Switch(sw, k),
        _ => WaitStep::Spin(k),
    }
}

/// Starting the scheduler on `v`: the idle task is prepared if still
/// dormant, then the first pick scanning from slot 0 runs with a fresh slice.
pub open spec fn start_spec(v: SchedulerView) -> (Option<usize>, SchedulerView) {
    let w = idle_prepared(v);
    match next_ready(w.tasks, 0) {
        None => (None, w),
        Some(f) => (
            Some(f),
            SchedulerView {
                tasks: w.tasks.update(f as int, TaskView { state: TaskState::Running, ..w.tasks[f as int] }),
                current: Some(f),
                remaining_slice_ticks: TIME_SLICE_TICKS,
                ..w
            },
        ),
    }
}

/// `v` after waking the blocked task `i` for `reason`: it is ready, waits for
/// nothing, and the wake is traced.
pub open spec fn after_wake(v: SchedulerView, i: int, reason: TaskWakeReason) -> SchedulerView {
    traced(
        with_task(
            v,
            i,
            TaskView {
                wait_kind: TaskWaitKind::NotWaiting,
                wake_deadline: None,
                wake_reason: reason,
                state: TaskState::Ready,
                ..v.tasks[i]
            },
        ),
        TraceKind::Wake,
        Some(TaskId(i as usize)),
        wake_reason_code(reason),
        0,
    )
}

impl View for Scheduler {
    type V = SchedulerView;

    closed spec fn view(&self) -> SchedulerView {
        SchedulerView {
            tasks: Seq::new(MAX_TASKS as nat, |i: int| self.tasks@[i]@),
            current: self.current,
            remaining_slice_ticks: self.remaining_slice_ticks,
            ticks: self.timer.ticks_spec(),
            tick_step: self.timer.tick_step_spec(),
            trace: self.trace@,
            exit_trap: self.exit_trap,
            idle_entry: self.idle_entry,
        }
    }
}

/// The scheduler's invariant on its view: slot `i` holds task `i`, every
/// stack lies below the top of the address space, and the running task, if
/// any, has a slot.
pub open spec fn sched_wf(v: SchedulerView) -> bool {
    &&& v.tasks.len() == MAX_TASKS
    &&& forall|i: int| 0 <= i < MAX_TASKS ==> (#[trigger] v.tasks[i]).id == TaskId(i as usize)
    &&& forall|i: int| 0 <= i < MAX_TASKS ==> stack_fits((#[trigger] v.tasks[i]).stack_base, TASK_STACK_WORDS as nat)
    &&& forall|i: int| 0 <= i < MAX_TASKS ==> (#[trigger] v.tasks[i]).stack.len() == TASK_STACK_WORDS
    &&& v.trace.slots.len() == crate::reliability::TRACE_CAPACITY
    &&& match v.current {
        Some(c) => c < MAX_TASKS,
        None => true,
    }
}

impl Scheduler {
    /// The scheduler's invariant holds.
    pub open spec fn wf(&self) -> bool {
        sched_wf(self@)
    }

    proof fn lemma_view(&self)
        ensures
            self@.tasks.len() == MAX_TASKS,
            forall|i: int| 0 <= i < MAX_TASKS ==> #[trigger] self@.tasks[i] == self.tasks@[i]@,
            self@.trace == self.trace@,
    {
    }

    /// A scheduler with every slot dormant, no running task and a fresh tick
    /// counter. `exit_trap` is where a task's entry returns to; `idle_entry`
    /// is the idle task's entry.
    pub fn new(exit_trap: TaskEntry, idle_entry: TaskEntry) -> (r: Self)
        ensures
            r.wf(),
            r@.tasks == Seq::new(MAX_TASKS as nat, |i: int| dormant_view(TaskId(i as usize), TASK_STACK_WORDS as nat, 0)),
            r@.current == None::<usize>,
            r@.remaining_slice_ticks == TIME_SLICE_TICKS,
            r@.ticks == 0,
            r@.tick_step == 1,
            r@.trace.written == 0,
            r@.exit_trap == exit_trap,
            r@.idle_entry == idle_entry,
    {
        let r = Scheduler {
            tasks: [
                TaskControlBlock::new(TaskId(0)),
                TaskControlBlock::new(TaskId(1)),
                TaskControlBlock::new(TaskId(2)),
            ],
            current: None,
            remaining_slice_ticks: TIME_SLICE_TICKS,
            timer: Timer::new(),
            trace: TraceLog::new(),
            exit_trap,
            idle_entry,
        };
        proof {
            r.trace.lemma_len();
            assert(r@.tasks =~= Seq::new(MAX_TASKS as nat, |i: int| dormant_view(TaskId(i as usize), TASK_STACK_WORDS as nat, 0)));
        }
        r
    }

    /// Places task `index`'s stack at address `stack_base`.
    pub fn set_stack_base(&mut self, index: usize, stack_base: u32)
        requires
            old(self).wf(),
            index < MAX_TASKS,
            stack_fits(stack_base, TASK_STACK_WORDS as nat),
        ensures
            final(self).wf(),
            final(self)@ == with_task(old(self)@, index as int, TaskView { stack_base: stack_base, ..old(self)@.tasks[index as int] }),
    {
        proof { self.lemma_view(); }
        self.tasks[index].set_stack_base(stack_base);
        proof {
            self.lemma_view();
            assert(self@.tasks =~= old(self)@.tasks.update(index as int, TaskView { stack_base: stack_base, ..old(self)@.tasks[index as int] }));
        }
    }

    /// The control block in slot `index`.
    pub fn task(&self, index: usize) -> (r: &TaskControlBlock<TASK_STACK_WORDS>)
        requires
            self.wf(),
            index < MAX_TASKS,
        ensures
            r@ == self@.tasks[index as int],
    {
        proof { self.lemma_view(); }
        &self.tasks[index]
    }

    /// The running task, if any.
    pub fn current_task_id(&self) -> (r: Option<TaskId>)
        requires
            self.wf(),
        ensures
            r == match self@.current {
                Some(c) => Some(TaskId(c)),
                None => None::<TaskId>,
            },
    {
        proof { self.lemma_view(); }
        match self.current {
            Some(index) => {
                assert(self@.tasks[index as int].id == TaskId(index));
                Some(self.tasks[index].id())
            },
            None => None,
        }
    }

    /// State of task `task_id`; none for an id without a slot.
    pub fn task_state(&self, task_id: TaskId) -> (r: Option<TaskState>)
        requires
            self.wf(),
        ensures
            r == if task_id.0 < MAX_TASKS { Some(self@.tasks[task_id.0 as int].state) } else { None::<TaskState> },
    {
        proof { self.lemma_view(); }
        if task_id.0 >= MAX_TASKS {
            return None;
        }
        Some(self.tasks[task_id.0].state())
    }

    /// What task `task_id` waits for; none for an id without a slot.
    pub fn task_wait_kind(&self, task_id: TaskId) -> (r: Option<TaskWaitKind>)
        requires
            self.wf(),
        ensures
            r == if task_id.0 < MAX_TASKS { Some(self@.tasks[task_id.0 as int].wait_kind) } else { None::<TaskWaitKind> },
    {
        proof { self.lemma_view(); }
        if task_id.0 >= MAX_TASKS {
            return None;
        }
        Some(self.tasks[task_id.0].wait_kind())
    }

    /// Whether task `task_id` has written the lowest word of its stack; none
    /// for an id without a slot.
    pub fn task_stack_overflowed(&self, task_id: TaskId) -> (r: Option<bool>)
        requires
            self.wf(),
        ensures
            r == if task_id.0 < MAX_TASKS { Some(self@.tasks[task_id.0 as int].stack[0] != 0) } else { None::<bool> },
    {
        proof { self.lemma_view(); }
        if task_id.0 >= MAX_TASKS {
            return None;
        }
        Some(self.tasks[task_id.0].stack_overflowed())
    }

    /// Stack words task `task_id` has used by its high-water mark; none for an
    /// id without a slot.
    pub fn task_stack_used_words(&self, task_id: TaskId) -> (r: Option<usize>)
        requires
            self.wf(),
        ensures
            r == if task_id.0 < MAX_TASKS {
                Some((TASK_STACK_WORDS - crate::task::lowest_used_word(self@.tasks[task_id.0 as int].stack)) as usize)
            } else {
                None::<usize>
            },
    {
        proof { self.lemma_view(); }
        if task_id.0 >= MAX_TASKS {
            return None;
        }
        Some(self.tasks[task_id.0].stack_used_words())
    }

    /// Stack size of task `task_id` in words; none for an id without a slot.
    pub fn task_stack_capacity_words(&self, task_id: TaskId) -> (r: Option<usize>)
        requires
            self.wf(),
        ensures
            r == if task_id.0 < MAX_TASKS { Some(TASK_STACK_WORDS) } else { None::<usize> },
    {
        if task_id.0 >= MAX_TASKS {
            return None;
        }
        Some(self.tasks[task_id.0].stack_len_words())
    }

    /// Effective priority of task `task_id`; none for an id without a slot.
    pub fn task_effective_priority(&self, task_id: TaskId) -> (r: Option<TaskPriority>)
        requires
            self.wf(),
        ensures
            r == if task_id.0 < MAX_TASKS { Some(self@.tasks[task_id.0 as int].effective_priority) } else { None::<TaskPriority> },
    {
        proof { self.lemma_view(); }
        if task_id.0 >= MAX_TASKS {
            return None;
        }
        Some(self.tasks[task_id.0].effective_priority())
    }

    /// Base priority of task `task_id`; none for an id without a slot.
    pub fn task_base_priority(&self, task_id: TaskId) -> (r: Option<TaskPriority>)
        requires
            self.wf(),
        ensures
            r == if task_id.0 < MAX_TASKS { Some(self@.tasks[task_id.0 as int].base_priority) } else { None::<TaskPriority> },
    {
        proof { self.lemma_view(); }
        if task_id.0 >= MAX_TASKS {
            return None;
        }
        Some(self.tasks[task_id.0].base_priority())
    }

    /// Sets the effective priority of task `task_id`; false, changing
    /// nothing, for an id without a slot.
    pub fn set_task_effective_priority(&mut self, task_id: TaskId, priority: TaskPriority) -> (r: bool)
        requires
            old(self).wf(),
        ensures
            final(self).wf(),
            r == (task_id.0 < MAX_TASKS),
            r ==> final(self)@ == with_task(old(self)@, task_id.0 as int, TaskView { effective_priority: priority, ..old(self)@.tasks[task_id.0 as int] }),
            !r ==> final(self)@ == old(self)@,
    {
        if task_id.0 >= MAX_TASKS {
            return false;
        }
        proof { self.lemma_view(); }
        self.tasks[task_id.0].set_effective_priority(priority);
        proof {
            self.lemma_view();
            assert(self@.tasks =~= old(self)@.tasks.update(task_id.0 as int, TaskView { effective_priority: priority, ..old(self)@.tasks[task_id.0 as int] }));
        }
        true
    }

    /// Whether no task but the idle task is ready or running.
    pub fn only_idle_runnable(&self) -> (r: bool)
        requires
            self.wf(),
        ensures
            r == forall|i: int| 0 <= i < MAX_TASKS && i != IDLE_TASK_INDEX ==> !runnable(#[trigger] self@.tasks[i]),
    {
        proof { self.lemma_view(); }
        let mut index: usize = 0;
        while index < MAX_TASKS
            invariant
                index <= MAX_TASKS,
                self.wf(),
                forall|i: int| 0 <= i < index && i != IDLE_TASK_INDEX ==> !runnable(#[trigger] self@.tasks[i]),
            decreases MAX_TASKS - index,
        {
            proof { self.lemma_view(); }
            if index != IDLE_TASK_INDEX {
                let st = self.tasks[index].state();
                if st == TaskState::Ready || st == TaskState::Running {
                    assert(runnable(self@.tasks[index as int]));
                    return false;
                }
            }
            index = index + 1;
        }
        true
    }

    /// Whether some task other than idle is blocked and every such blocked
    /// task waits without a deadline.
    pub fn blocked_tasks_have_no_deadlines(&self) -> (r: bool)
        requires
            self.wf(),
        ensures
            r == ((exists|i: int| 0 <= i < MAX_TASKS && i != IDLE_TASK_INDEX && (#[trigger] self@.tasks[i]).state == TaskState::Blocked)
                && forall|i: int| 0 <= i < MAX_TASKS && i != IDLE_TASK_INDEX && (#[trigger] self@.tasks[i]).state == TaskState::Blocked
                    ==> self@.tasks[i].wake_deadline is None),
    {
        proof { self.lemma_view(); }
        let mut saw_blocked = false;
        let mut index: usize = 0;
        while index < MAX_TASKS
            invariant
                index <= MAX_TASKS,
                self.wf(),
                saw_blocked == exists|i: int| 0 <= i < index && i != IDLE_TASK_INDEX && (#[trigger] self@.tasks[i]).state == TaskState::Blocked,
                forall|i: int| 0 <= i < index && i != IDLE_TASK_INDEX && (#[trigger] self@.tasks[i]).state == TaskState::Blocked
                    ==> self@.tasks[i].wake_deadline is None,
            decreases MAX_TASKS - index,
        {
            proof { self.lemma_view(); }
            if index != IDLE_TASK_INDEX {
                if self.tasks[index].state() == TaskState::Blocked {
                    assert(self@.tasks[index as int].state == TaskState::Blocked);
                    saw_blocked = true;
                    if self.tasks[index].wake_deadline().is_some() {
                        return false;
                    }
                }
            }
            index = index + 1;
        }
        saw_blocked
    }

    /// The task to run after `current` (or first, when none runs): among the
    /// ready and running tasks one of the highest effective priority, the
    /// first such in round-robin order after `current`.
    fn next_ready_after(&self, current: Option<usize>) -> (r: Option<usize>)
        requires
            self.wf(),
            current matches Some(c) ==> c < MAX_TASKS,
        ensures
            r == next_ready(self@.tasks, rr_start(current)),
            r matches Some(i) ==> i < MAX_TASKS,
    {
        proof { self.lemma_view(); }
        let start: usize = match current {
            Some(index) => (index + 1) % MAX_TASKS,
            None => 0,
        };
        let ghost t = self@.tasks;
        let ghost s = start as int;
        let mut selected: Option<usize> = None;
        let mut selected_priority: TaskPriority = 0;
        let ghost mut sel_step: int = 0;
        let mut step: usize = 0;
        while step < MAX_TASKS
            invariant
                self.wf(),
                t == self@.tasks,
                s == start,
                0 <= start < MAX_TASKS,
                step <= MAX_TASKS,
                selected is None ==> forall|k: int| 0 <= k < step ==> !runnable(#[trigger] t[rr_index(s, k)]),
                selected matches Some(x) ==> {
                    &&& x < MAX_TASKS
                    &&& runnable(t[x as int])
                    &&& t[x as int].effective_priority == selected_priority
                    &&& 0 <= sel_step < step
                    &&& rr_index(s, sel_step) == x
                    &&& forall|k: int| 0 <= k < sel_step && runnable(#[trigger] t[rr_index(s, k)]) ==> t[rr_index(s, k)].effective_priority < selected_priority
                    &&& forall|k: int| 0 <= k < step && runnable(#[trigger] t[rr_index(s, k)]) ==> t[rr_index(s, k)].effective_priority <= selected_priority
                },
            decreases MAX_TASKS - step,
        {
            proof { self.lemma_view(); }
            let index = (start + step) % MAX_TASKS;
            assert(index == rr_index(s, step as int));
            let st = self.tasks[index].state();
            if st == TaskState::Ready || st == TaskState::Running {
                let priority = self.tasks[index].effective_priority();
                if selected.is_none() || priority > selected_priority {
                    selected = Some(index);
                    selected_priority = priority;
                    proof { sel_step = step as int; }
                }
            }
            step = step + 1;
        }
        proof {
            match selected {
                Some(x) => {
                    assert forall|j: int| 0 <= j < MAX_TASKS && runnable(#[trigger] t[j]) implies t[j].effective_priority <= t[x as int].effective_priority by {
                        let k = lemma_rr_covers(s, j);
                        assert(runnable(t[rr_index(s, k)]));
                    }
                    assert(is_pick(t, s, x as int));
                    lemma_next_ready_is(t, s, x as int);
                },
                None => {
                    assert forall|j: int| 0 <= j < MAX_TASKS implies !runnable(#[trigger] t[j]) by {
                        let k = lemma_rr_covers(s, j);
                        assert(!runnable(t[rr_index(s, k)]));
                    }
                    lemma_next_ready_none(t, s);
                },
            }
        }
        selected
    }

    /// Records a trace event stamped with the current tick.
    pub fn record_trace(&mut self, kind: TraceKind, task: Option<TaskId>, arg0: u32, arg1: u32)
        requires
            old(self).wf(),
        ensures
            final(self).wf(),
            final(self)@ == traced(old(self)@, kind, task, arg0, arg1),
    {
        proof { self.lemma_view(); }
        let tick = self.timer.tick_count();
        self.trace.record(TraceEvent { tick, kind, task, arg0, arg1 });
        proof {
            self.lemma_view();
            assert(self@.tasks =~= old(self)@.tasks);
        }
    }

    /// Switches from the running task to the next pick, leaving the running
    /// task in `current_state` (a task left ready stops waiting). Nothing
    /// happens without a running task or a runnable one; when the pick is the
    /// running task itself only its time slice restarts. Returns the switch
    /// for the hardware layer, which carries it out the same way from thread
    /// and from interrupt context.
    pub fn switch_to_next(&mut self, current_state: TaskState, from_interrupt: bool) -> (r: Option<Switch>)
        requires
            old(self).wf(),
        ensures
            final(self).wf(),
            (r, final(self)@) == switch_spec(old(self)@, current_state),
    {
        let _ = from_interrupt;
        proof { self.lemma_view(); }
        let current = match self.current {
            Some(c) => c,
            None => return None,
        };
        let next = match self.next_ready_after(Some(current)) {
            Some(n) => n,
            None => return None,
        };
        if current == next {
            self.remaining_slice_ticks = TIME_SLICE_TICKS;
            proof {
                self.lemma_view();
                assert(self@.tasks =~= old(self)@.tasks);
            }
            return None;
        }
        let ghost v0 = self@;
        self.tasks[current].set_state(current_state);
        if current_state == TaskState::Ready {
            self.tasks[current].set_wait_kind(TaskWaitKind::NotWaiting);
            self.tasks[current].set_wake_deadline(None);
        }
        self.tasks[next].set_state(TaskState::Running);
        self.tasks[next].set_wait_kind(TaskWaitKind::NotWaiting);
        self.tasks[next].set_wake_deadline(None);
        self.current = Some(next);
        self.remaining_slice_ticks = TIME_SLICE_TICKS;
        let from_id = self.tasks[current].id();
        let to_id = self.tasks[next].id();
        proof {
            self.lemma_view();
            assert(from_id == TaskId(current));
            assert(to_id == TaskId(next));
            let ft = v0.tasks[current as int];
            let ft2 = if current_state == TaskState::Ready {
                TaskView { state: current_state, wait_kind: TaskWaitKind::NotWaiting, wake_deadline: None, ..ft }
            } else {
                TaskView { state: current_state, ..ft }
            };
            let tasks1 = v0.tasks.update(current as int, ft2);
            assert(self@.tasks =~= tasks1.update(
                next as int,
                TaskView { state: TaskState::Running, wait_kind: TaskWaitKind::NotWaiting, wake_deadline: None, ..tasks1[next as int] },
            ));
        }
        self.record_trace(TraceKind::Switch, Some(to_id), from_id.0 as u32, to_id.0 as u32);
        Some(Switch { from: current, to: next })
    }

    fn wake_task_at_index(&mut self, index: usize, wake_reason: TaskWakeReason) -> (r: bool)
        requires
            old(self).wf(),
            index < MAX_TASKS,
        ensures
            final(self).wf(),
            r == (old(self)@.tasks[index as int].state == TaskState::Blocked),
            r ==> final(self)@ == after_wake(old(self)@, index as int, wake_reason),
            !r ==> final(self)@ == old(self)@,
    {
        proof { self.lemma_view(); }
        if self.tasks[index].state() != TaskState::Blocked {
            return false;
        }
        self.tasks[index].set_wait_kind(TaskWaitKind::NotWaiting);
        self.tasks[index].set_wake_deadline(None);
        self.tasks[index].set_wake_reason(wake_reason);
        self.tasks[index].set_state(TaskState::Ready);
        let id = self.tasks[index].id();
        proof {
            self.lemma_view();
            assert(id == TaskId(index));
            assert(self@.tasks =~= old(self)@.tasks.update(index as int, TaskView {
                wait_kind: TaskWaitKind::NotWaiting,
                wake_deadline: None,
                wake_reason: wake_reason,
                state: TaskState::Ready,
                ..old(self)@.tasks[index as int]
            }));
        }
        let code = wake_reason_code_of(wake_reason);
        self.record_trace(TraceKind::Wake, Some(id), code, 0);
        true
    }

    fn wake_task_internal(&mut self, task_id: TaskId, wake_reason: TaskWakeReason) -> (r: bool)
        requires
            old(self).wf(),
        ensures
            final(self).wf(),
            r == (task_id.0 < MAX_TASKS && old(self)@.tasks[task_id.0 as int].state == TaskState::Blocked),
            r ==> final(self)@ == after_wake(old(self)@, task_id.0 as int, wake_reason),
            !r ==> final(self)@ == old(self)@,
    {
        if task_id.0 >= MAX_TASKS {
            return false;
        }
        self.wake_task_at_index(task_id.0, wake_reason)
    }

    /// Makes the blocked task `task_id` ready for `wake_reason`; false,
    /// changing nothing, when it has no slot or is not blocked.
    pub fn wake_task(&mut self, task_id: TaskId, wake_reason: TaskWakeReason) -> (r: bool)
        requires
            old(self).wf(),
        ensures
            final(self).wf(),
            r == (task_id.0 < MAX_TASKS && old(self)@.tasks[task_id.0 as int].state == TaskState::Blocked),
            r ==> final(self)@ == after_wake(old(self)@, task_id.0 as int, wake_reason),
            !r ==> final(self)@ == old(self)@,
    {
        self.wake_task_internal(task_id, wake_reason)
    }

    /// Blocks the running task on `wait_kind` until `deadline` (or without
    /// one). The task is blocked before the pick, so the switch goes to the
    /// best of the other runnable tasks, the idle task included; once the
    /// blocked task runs again it learns from `resume_blocked` why it woke.
    /// Only when no other task can run does it keep running, waiting for
    /// nothing.
    pub fn block_current(&mut self, wait_kind: TaskWaitKind, deadline: Option<Deadline>) -> (r: Reschedule)
        requires
            old(self).wf(),
        ensures
            final(self).wf(),
            (r, final(self)@) == block_spec(old(self)@, wait_kind, deadline),
            old(self)@.current matches Some(c) ==> {
                &&& (exists|j: int| 0 <= j < MAX_TASKS && j != c && runnable(#[trigger] old(self)@.tasks[j])) <==> r is Block
                &&& r is Block ==> final(self)@.tasks[c as int].state == TaskState::Blocked
                    && final(self)@.tasks[c as int].wait_kind == wait_kind
                    && final(self)@.tasks[c as int].wake_deadline == deadline
            },
    {
        proof {
            self.lemma_view();
            if self@.current is Some {
                lemma_block_switches_away(self@, wait_kind, deadline);
            }
        }
        let current = match self.current {
            Some(c) => c,
            None => return Reschedule::Stay,
        };
        self.tasks[current].set_state(TaskState::Blocked);
        self.tasks[current].set_wait_kind(wait_kind);
        self.tasks[current].set_wake_deadline(deadline);
        self.tasks[current].set_wake_reason(TaskWakeReason::NotWoken);
        let id = self.tasks[current].id();
        proof {
            self.lemma_view();
            assert(id == TaskId(current));
            assert(self@.tasks =~= old(self)@.tasks.update(current as int, TaskView {
                state: TaskState::Blocked,
                wait_kind: wait_kind,
                wake_deadline: deadline,
                wake_reason: TaskWakeReason::NotWoken,
                ..old(self)@.tasks[current as int]
            }));
        }
        let code = wait_kind_code_of(wait_kind);
        self.record_trace(TraceKind::Block, Some(id), code, 0);
        let ghost b = self@;
        match self.switch_to_next(TaskState::Blocked, false) {
            Some(sw) => Reschedule::Block(sw),
            None => {
                proof { self.lemma_view(); }
                let ghost w = self@;
                self.tasks[current].set_wait_kind(TaskWaitKind::NotWaiting);
                self.tasks[current].set_wake_deadline(None);
                self.tasks[current].set_state(TaskState::Running);
                proof {
                    self.lemma_view();
                    assert(self@.tasks =~= w.tasks.update(current as int, TaskView {
                        wait_kind: TaskWaitKind::NotWaiting,
                        wake_deadline: None,
                        state: TaskState::Running,
                        ..w.tasks[current as int]
                    }));
                }
                Reschedule::Stay
            },
        }
    }

    /// Run by a task that blocked, once it runs again: why it was woken. The
    /// reason is consumed.
    pub fn resume_blocked(&mut self) -> (r: TaskWakeReason)
        requires
            old(self).wf(),
            old(self)@.current is Some,
        ensures
            final(self).wf(),
            ({
                let c = old(self)@.current->0 as int;
                &&& r == old(self)@.tasks[c].wake_reason
                &&& final(self)@ == with_task(old(self)@, c, TaskView { wake_reason: TaskWakeReason::NotWoken, ..old(self)@.tasks[c] })
            }),
    {
        proof { self.lemma_view(); }
        let resumed = match self.current {
            Some(c) => c,
            None => return TaskWakeReason::NotWoken,
        };
        let wake_reason = self.tasks[resumed].wake_reason();
        self.tasks[resumed].set_wake_reason(TaskWakeReason::NotWoken);
        proof {
            self.lemma_view();
            assert(self@.tasks =~= old(self)@.tasks.update(resumed as int, TaskView {
                wake_reason: TaskWakeReason::NotWoken,
                ..old(self)@.tasks[resumed as int]
            }));
        }
        wake_reason
    }

    /// Gives up the processor to the next pick; the running task stays ready.
    pub fn yield_now(&mut self) -> (r: Reschedule)
        requires
            old(self).wf(),
        ensures
            final(self).wf(),
            (r, final(self)@) == yield_spec(old(self)@),
    {
        match self.switch_to_next(TaskState::Ready, false) {
            Some(sw) => Reschedule::Yield(sw),
            None => Reschedule::Stay,
        }
    }

    /// Yields when the next pick has a higher effective priority than the
    /// running task; otherwise nothing happens.
    pub fn yield_if_higher_priority_ready(&mut self) -> (r: Reschedule)
        requires
            old(self).wf(),
        ensures
            final(self).wf(),
            match old(self)@.current {
                None => r == Reschedule::Stay && final(self)@ == old(self)@,
                Some(c) => match next_ready(old(self)@.tasks, rr_start(Some(c))) {
                    Some(n) => if old(self)@.tasks[n as int].effective_priority > old(self)@.tasks[c as int].effective_priority {
                        (r, final(self)@) == yield_spec(old(self)@)
                    } else {
                        r == Reschedule::Stay && final(self)@ == old(self)@
                    },
                    None => r == Reschedule::Stay && final(self)@ == old(self)@,
                },
            },
    {
        proof { self.lemma_view(); }
        let current = match self.current {
            Some(c) => c,
            None => return Reschedule::Stay,
        };
        let current_priority = self.tasks[current].effective_priority();
        let next = match self.next_ready_after(Some(current)) {
            Some(n) => n,
            None => return Reschedule::Stay,
        };
        if self.tasks[next].effective_priority() <= current_priority {
            return Reschedule::Stay;
        }
        self.yield_now()
    }

    /// Sleeps the running task until `deadline`: a deadline already reached
    /// only yields; otherwise the task blocks, and stays blocked until the
    /// tick handler wakes it at the deadline, whenever any other task (the
    /// idle task included) can run meanwhile.
    pub fn sleep_until(&mut self, deadline: Deadline) -> (r: Reschedule)
        requires
            old(self).wf(),
        ensures
            final(self).wf(),
            reached_at(deadline@, old(self)@.ticks) ==> (r, final(self)@) == yield_spec(old(self)@),
            !reached_at(deadline@, old(self)@.ticks) ==> (r, final(self)@) == block_spec(old(self)@, TaskWaitKind::Sleep, Some(deadline)),
            !reached_at(deadline@, old(self)@.ticks) && (old(self)@.current matches Some(c) && exists|j: int|
                0 <= j < MAX_TASKS && j != c && runnable(#[trigger] old(self)@.tasks[j])) ==> {
                let c = old(self)@.current->0 as int;
                &&& r is Block
                &&& final(self)@.tasks[c].state == TaskState::Blocked
                &&& final(self)@.tasks[c].wait_kind == TaskWaitKind::Sleep
                &&& final(self)@.tasks[c].wake_deadline == Some(deadline)
            },
    {
        let now = self.timer.tick_count();
        if deadline.is_reached(now) {
            return self.yield_now();
        }
        self.block_current(TaskWaitKind::Sleep, Some(deadline))
    }

    /// Sleeps the running task for `ticks` ticks; zero ticks only yields.
    pub fn sleep_ticks(&mut self, ticks: u32) -> (r: Reschedule)
        requires
            old(self).wf(),
        ensures
            final(self).wf(),
            ticks == 0 ==> (r, final(self)@) == yield_spec(old(self)@),
            ticks != 0 ==> {
                let d = ticks_after(old(self)@.ticks, ticks);
                &&& reached_at(d, old(self)@.ticks) ==> (r, final(self)@) == yield_spec(old(self)@)
                &&& !reached_at(d, old(self)@.ticks) ==> exists|dl: Deadline| dl@ == d && (r, final(self)@) == block_spec(old(self)@, TaskWaitKind::Sleep, Some(dl))
            },
    {
        if ticks == 0 {
            return self.yield_now();
        }
        let deadline = Deadline::after_ticks(self.timer.tick_count(), ticks);
        self.sleep_until(deadline)
    }

    /// Sleeps the running task for `ms` milliseconds, rounded up to ticks.
    pub fn sleep_ms(&mut self, ms: u32) -> (r: Reschedule)
        requires
            old(self).wf(),
        ensures
            final(self).wf(),
            crate::timer::ms_to_ticks_spec(ms) == 0 ==> (r, final(self)@) == yield_spec(old(self)@),
            crate::timer::ms_to_ticks_spec(ms) != 0 ==> {
                let d = ticks_after(old(self)@.ticks, crate::timer::ms_to_ticks_spec(ms) as u32);
                &&& reached_at(d, old(self)@.ticks) ==> (r, final(self)@) == yield_spec(old(self)@)
                &&& !reached_at(d, old(self)@.ticks) ==> exists|dl: Deadline| dl@ == d && (r, final(self)@) == block_spec(old(self)@, TaskWaitKind::Sleep, Some(dl))
            },
    {
        self.sleep_ticks(crate::timer::ms_to_ticks(ms))
    }

    /// Wakes, with a timeout, every blocked task whose deadline has been
    /// reached at `now`, in slot order; reports whether any woke.
    pub fn wake_ready_tasks(&mut self, now: u32) -> (r: bool)
        requires
            old(self).wf(),
        ensures
            final(self).wf(),
            final(self)@ == wake_expired(old(self)@, now, MAX_TASKS as nat),
            r == exists|i: int| 0 <= i < MAX_TASKS && expired(#[trigger] old(self)@.tasks[i], now),
    {
        let mut woke_any = false;
        let mut index: usize = 0;
        while index < MAX_TASKS
            invariant
                self.wf(),
                index <= MAX_TASKS,
                self@ == wake_expired(old(self)@, now, index as nat),
                forall|j: int| index <= j < MAX_TASKS ==> #[trigger] self@.tasks[j] == old(self)@.tasks[j],
                self@.tasks.len() == MAX_TASKS,
                woke_any == exists|i: int| 0 <= i < index && expired(#[trigger] old(self)@.tasks[i], now),
            decreases MAX_TASKS - index,
        {
            proof { self.lemma_view(); }
            let ghost before = self@;
            let mut woke = false;
            if self.tasks[index].state() == TaskState::Blocked {
                if self.tasks[index].wait_kind() != TaskWaitKind::NotWaiting {
                    if let Some(wake_deadline) = self.tasks[index].wake_deadline() {
                        if wake_deadline.is_reached(now) {
                            self.wake_task_at_index(index, TaskWakeReason::Timeout);
                            woke = true;
                        }
                    }
                }
            }
            proof {
                assert(woke == expired(before.tasks[index as int], now));
                assert(self@ == wake_expired(old(self)@, now, (index + 1) as nat));
                if woke {
                    assert(expired(old(self)@.tasks[index as int], now));
                }
            }
            if woke {
                woke_any = true;
            }
            index = index + 1;
            proof {
                assert forall|j: int| index <= j < MAX_TASKS implies #[trigger] self@.tasks[j] == old(self)@.tasks[j] by {
                    assert(self@.tasks[j] == before.tasks[j]);
                }
            }
        }
        woke_any
    }

    /// The kernel tick counter.
    pub fn tick_count(&self) -> (r: u32)
        ensures
            r == self@.ticks,
    {
        self.timer.tick_count()
    }

    /// Accounts for one SysTick interrupt on the tick counter (see
    /// `Timer::on_systick`); returns the reload value to program, if any.
    pub fn advance_tick(&mut self) -> (r: Option<u32>)
        requires
            old(self).wf(),
        ensures
            final(self).wf(),
            final(self)@ == (SchedulerView {
                ticks: ticks_after(old(self)@.ticks, old(self)@.tick_step),
                tick_step: 1,
                ..old(self)@
            }),
            r == if old(self)@.tick_step != 1 { Some(crate::timer::reload_for(1)) } else { None::<u32> },
    {
        proof { self.lemma_view(); }
        let r = self.timer.on_systick();
        proof {
            self.lemma_view();
            assert(self@.tasks =~= old(self)@.tasks);
        }
        r
    }

    /// Stretches the SysTick period towards `deadline` (see
    /// `Timer::begin_tickless_idle`); returns the reload value to program, if any.
    pub fn begin_tickless_idle(&mut self, deadline: Deadline) -> (r: Option<u32>)
        requires
            old(self).wf(),
        ensures
            final(self).wf(),
            final(self)@.tasks == old(self)@.tasks,
            final(self)@.current == old(self)@.current,
            final(self)@.ticks == old(self)@.ticks,
            final(self)@.trace == old(self)@.trace,
            (r, final(self)@) == tickless_spec(old(self)@, deadline),
    {
        proof { self.lemma_view(); }
        let r = self.timer.begin_tickless_idle(deadline);
        proof {
            self.lemma_view();
            assert(self@.tasks =~= old(self)@.tasks);
        }
        r
    }

    /// The kernel tick: wakes expired sleepers and runs down the time slice
    /// (see `on_tick_spec`). Returns the switch to carry out, if any.
    pub fn on_tick(&mut self) -> (r: Option<Switch>)
        requires
            old(self).wf(),
        ensures
            final(self).wf(),
            (r, final(self)@) == on_tick_spec(old(self)@),
    {
        let now = self.timer.tick_count();
        let woke_tasks = self.wake_ready_tasks(now);
        let current = match self.current {
            Some(c) => c,
            None => return None,
        };
        if is_idle_task(current) && woke_tasks {
            return self.switch_to_next(TaskState::Ready, true);
        }
        if self.remaining_slice_ticks > 1 {
            self.remaining_slice_ticks = self.remaining_slice_ticks - 1;
            proof { self.lemma_view(); }
            return None;
        }
        let r = self.switch_to_next(TaskState::Ready, true);
        if r.is_none() {
            self.remaining_slice_ticks = TIME_SLICE_TICKS;
            proof { self.lemma_view(); }
        }
        r
    }

    /// The deadline the idle task should sleep towards: the first one already
    /// reached, else the one with the fewest ticks left (the first such in
    /// slot order); none when no task sleeps towards a deadline.
    pub fn next_sleep_deadline(&self) -> (r: Option<Deadline>)
        requires
            self.wf(),
        ensures
            is_next_sleep_deadline(self@, r),
            (exists|i: int| 0 <= i < MAX_TASKS && has_deadline(#[trigger] self@.tasks[i])) ==> r is Some,
    {
        proof { self.lemma_view(); }
        let now = self.timer.tick_count();
        let ghost t = self@.tasks;
        let mut nearest: Option<Deadline> = None;
        let ghost mut ni: int = 0;
        let mut index: usize = 0;
        while index < MAX_TASKS
            invariant
                self.wf(),
                t == self@.tasks,
                now == self@.ticks,
                index <= MAX_TASKS,
                forall|j: int| 0 <= j < index && has_deadline(#[trigger] t[j]) ==> !reached_at(t[j].wake_deadline->0@, now),
                nearest is None ==> forall|j: int| 0 <= j < index ==> !has_deadline(#[trigger] t[j]),
                nearest is Some ==> {
                    &&& 0 <= ni < index
                    &&& has_deadline(t[ni])
                    &&& nearest == t[ni].wake_deadline
                    &&& forall|j: int| 0 <= j < index && has_deadline(#[trigger] t[j]) ==> remaining_of(t[ni], now) <= remaining_of(t[j], now)
                    &&& forall|j: int| 0 <= j < ni && has_deadline(#[trigger] t[j]) ==> remaining_of(t[j], now) > remaining_of(t[ni], now)
                },
            decreases MAX_TASKS - index,
        {
            proof { self.lemma_view(); }
            if self.tasks[index].state() == TaskState::Blocked {
                if let Some(deadline) = self.tasks[index].wake_deadline() {
                    assert(has_deadline(t[index as int]));
                    if deadline.is_reached(now) {
                        assert(is_first_overdue(t, now, index as int));
                        return Some(deadline);
                    }
                    let keep = match nearest {
                        Some(current) => current.remaining_ticks(now) <= deadline.remaining_ticks(now),
                        None => false,
                    };
                    if !keep {
                        nearest = Some(deadline);
                        proof { ni = index as int; }
                    }
                }
            }
            index = index + 1;
        }
        proof {
            if nearest is Some {
                assert(is_nearest(t, now, ni));
            }
            assert forall|i: int| !is_first_overdue(t, now, i) by {}
        }
        nearest
    }

    /// Spawns a task at `entry` with `priority` in the first dormant user
    /// slot. Fails with `NoSlots` when every user slot is taken, and with the
    /// slot's preparation error when that fails (see
    /// `TaskControlBlock::prepare`); a spawn is traced.
    pub fn spawn_with_priority(&mut self, entry: TaskEntry, priority: TaskPriority) -> (r: Result<TaskId, SpawnError>)
        requires
            old(self).wf(),
        ensures
            final(self).wf(),
            (forall|i: int| 0 <= i < USER_TASKS ==> (#[trigger] old(self)@.tasks[i]).state != TaskState::Dormant)
                ==> r == Err::<TaskId, SpawnError>(SpawnError::NoSlots) && final(self)@ == old(self)@,
            forall|i: int| #[trigger] is_first_dormant(old(self)@.tasks, i) ==> {
                let t = old(self)@.tasks[i];
                if frame_psp(t, TASK_STACK_WORDS as nat) % 8 != 0 {
                    &&& r == Err::<TaskId, SpawnError>(SpawnError::TaskInit(TaskInitError::MisalignedStack))
                    &&& final(self)@ == with_task(old(self)@, i, reset_for_entry(t, TASK_STACK_WORDS as nat, entry, old(self)@.exit_trap))
                } else {
                    &&& r == Ok::<TaskId, SpawnError>(TaskId(i as usize))
                    &&& final(self)@ == traced(
                        with_task(old(self)@, i, TaskView {
                            base_priority: priority,
                            effective_priority: priority,
                            ..prepared_view(t, TASK_STACK_WORDS as nat, entry, old(self)@.exit_trap)
                        }),
                        TraceKind::Spawn,
                        Some(TaskId(i as usize)),
                        priority as u32,
                        0,
                    )
                }
            },
    {
        proof { self.lemma_view(); }
        let exit_trap = self.exit_trap;
        let mut index: usize = 0;
        while index < USER_TASKS
            invariant
                self.wf(),
                self@ == old(self)@,
                exit_trap == self@.exit_trap,
                index <= USER_TASKS,
                forall|j: int| 0 <= j < index ==> (#[trigger] self@.tasks[j]).state != TaskState::Dormant,
            decreases USER_TASKS - index,
        {
            proof { self.lemma_view(); }
            if self.tasks[index].state() != TaskState::Dormant {
                index = index + 1;
                continue;
            }
            proof {
                assert(is_first_dormant(old(self)@.tasks, index as int));
                assert forall|i: int| #[trigger] is_first_dormant(old(self)@.tasks, i) implies i == index by {
                    if i < index {
                    } else if i > index {
                        assert(old(self)@.tasks[index as int].state == TaskState::Dormant);
                    }
                }
            }
            let ghost t = self@.tasks[index as int];
            match self.tasks[index].prepare(entry, exit_trap) {
                Ok(()) => {},
                Err(e) => {
                    proof {
                        self.lemma_view();
                        assert(self@.tasks =~= old(self)@.tasks.update(index as int, reset_for_entry(t, TASK_STACK_WORDS as nat, entry, exit_trap)));
                    }
                    return Err(SpawnError::TaskInit(e));
                },
            }
            self.tasks[index].set_base_priority(priority);
            self.tasks[index].set_effective_priority(priority);
            let id = self.tasks[index].id();
            proof {
                self.lemma_view();
                assert(id == TaskId(index));
                assert(self@.tasks =~= old(self)@.tasks.update(index as int, TaskView {
                    base_priority: priority,
                    effective_priority: priority,
                    ..prepared_view(t, TASK_STACK_WORDS as nat, entry, exit_trap)
                }));
            }
            self.record_trace(TraceKind::Spawn, Some(id), priority as u32, 0);
            return Ok(id);
        }
        Err(SpawnError::NoSlots)
    }

    /// Spawns a task at `entry` with the default priority.
    pub fn spawn(&mut self, entry: TaskEntry) -> (r: Result<TaskId, SpawnError>)
        requires
            old(self).wf(),
        ensures
            final(self).wf(),
            (forall|i: int| 0 <= i < USER_TASKS ==> (#[trigger] old(self)@.tasks[i]).state != TaskState::Dormant)
                ==> r == Err::<TaskId, SpawnError>(SpawnError::NoSlots) && final(self)@ == old(self)@,
            forall|i: int| #[trigger] is_first_dormant(old(self)@.tasks, i) ==> {
                let t = old(self)@.tasks[i];
                if frame_psp(t, TASK_STACK_WORDS as nat) % 8 != 0 {
                    &&& r == Err::<TaskId, SpawnError>(SpawnError::TaskInit(TaskInitError::MisalignedStack))
                    &&& final(self)@ == with_task(old(self)@, i, reset_for_entry(t, TASK_STACK_WORDS as nat, entry, old(self)@.exit_trap))
                } else {
                    &&& r == Ok::<TaskId, SpawnError>(TaskId(i as usize))
                    &&& final(self)@ == traced(
                        with_task(old(self)@, i, TaskView {
                            base_priority: DEFAULT_TASK_PRIORITY,
                            effective_priority: DEFAULT_TASK_PRIORITY,
                            ..prepared_view(t, TASK_STACK_WORDS as nat, entry, old(self)@.exit_trap)
                        }),
                        TraceKind::Spawn,
                        Some(TaskId(i as usize)),
                        DEFAULT_TASK_PRIORITY as u32,
                        0,
                    )
                }
            },
    {
        self.spawn_with_priority(entry, DEFAULT_TASK_PRIORITY)
    }

    fn prepare_idle_task(&mut self)
        requires
            old(self).wf(),
        ensures
            final(self).wf(),
            final(self)@ == idle_prepared(old(self)@),
    {
        proof { self.lemma_view(); }
        if self.tasks[IDLE_TASK_INDEX].state() == TaskState::Dormant {
            let ghost t = self@.tasks[IDLE_TASK_INDEX as int];
            let idle_entry = self.idle_entry;
            let exit_trap = self.exit_trap;
            let _ = self.tasks[IDLE_TASK_INDEX].prepare(idle_entry, exit_trap);
            self.tasks[IDLE_TASK_INDEX].set_base_priority(IDLE_TASK_PRIORITY);
            self.tasks[IDLE_TASK_INDEX].set_effective_priority(IDLE_TASK_PRIORITY);
            proof {
                self.lemma_view();
                let p = if frame_psp(t, TASK_STACK_WORDS as nat) % 8 != 0 {
                    reset_for_entry(t, TASK_STACK_WORDS as nat, idle_entry, exit_trap)
                } else {
                    prepared_view(t, TASK_STACK_WORDS as nat, idle_entry, exit_trap)
                };
                assert(self@.tasks =~= old(self)@.tasks.update(IDLE_TASK_INDEX as int, TaskView {
                    base_priority: IDLE_TASK_PRIORITY,
                    effective_priority: IDLE_TASK_PRIORITY,
                    ..p
                }));
            }
        }
    }

    /// Starts scheduling: prepares the idle task if it is still dormant, then
    /// runs the first pick scanning from slot 0 with a fresh time slice.
    /// Returns its slot, whose saved stack pointer the hardware layer resumes;
    /// none when no task is runnable.
    pub fn start(&mut self) -> (r: Option<usize>)
        requires
            old(self).wf(),
        ensures
            final(self).wf(),
            (r, final(self)@) == start_spec(old(self)@),
    {
        self.prepare_idle_task();
        let first = match self.next_ready_after(None) {
            Some(f) => f,
            None => return None,
        };
        proof { self.lemma_view(); }
        let ghost w = self@;
        self.tasks[first].set_state(TaskState::Running);
        self.current = Some(first);
        self.remaining_slice_ticks = TIME_SLICE_TICKS;
        proof {
            self.lemma_view();
            assert(self@.tasks =~= w.tasks.update(first as int, TaskView { state: TaskState::Running, ..w.tasks[first as int] }));
        }
        Some(first)
    }


    /// A copy of the trace ring.
    pub fn trace_snapshot(&self) -> (r: [TraceEvent; crate::reliability::TRACE_CAPACITY])
        ensures
            r@ == self@.trace.slots,
    {
        self.trace.snapshot()
    }
}

/// The scan from `start` has at most one pick.
pub proof fn lemma_pick_unique(tasks: Seq<TaskView>, start: int, i: int, j: int)
    requires
        0 <= start < MAX_TASKS,
        is_pick(tasks, start, i),
        is_pick(tasks, start, j),
    ensures
        i == j,
{
    let ki = choose|ks: int|
        0 <= ks < MAX_TASKS && rr_index(start, ks) == i && forall|k: int|
            0 <= k < ks && runnable(#[trigger] tasks[rr_index(start, k)]) ==> tasks[rr_index(
                start,
                k,
            )].effective_priority < tasks[i].effective_priority;
    let kj = choose|ks: int|
        0 <= ks < MAX_TASKS && rr_index(start, ks) == j && forall|k: int|
            0 <= k < ks && runnable(#[trigger] tasks[rr_index(start, k)]) ==> tasks[rr_index(
                start,
                k,
            )].effective_priority < tasks[j].effective_priority;
    if ki < kj {
        assert(runnable(tasks[rr_index(start, ki)]));
        assert(tasks[j].effective_priority <= tasks[i].effective_priority);
    } else if kj < ki {
        assert(runnable(tasks[rr_index(start, kj)]));
        assert(tasks[i].effective_priority <= tasks[j].effective_priority);
    }
}

proof fn lemma_next_ready_is(tasks: Seq<TaskView>, start: int, i: int)
    requires
        0 <= start < MAX_TASKS,
        is_pick(tasks, start, i),
    ensures
        next_ready(tasks, start) == Some(i as usize),
{
    let c = choose|x: int| is_pick(tasks, start, x);
    lemma_pick_unique(tasks, start, i, c);
}

proof fn lemma_next_ready_none(tasks: Seq<TaskView>, start: int)
    requires
        forall|i: int| 0 <= i < MAX_TASKS ==> !runnable(#[trigger] tasks[i]),
    ensures
        next_ready(tasks, start) == None::<usize>,
{
}

/// The first `step` slots of the scan from `start`: none runnable, or the
/// best so far (slot and its step), as the scheduler's scan keeps it.
proof fn lemma_scan_prefix(tasks: Seq<TaskView>, start: int, step: int) -> (r: Option<(int, int)>)
    requires
        0 <= start < MAX_TASKS,
        0 <= step <= MAX_TASKS,
    ensures
        r is None ==> forall|k: int| 0 <= k < step ==> !runnable(#[trigger] tasks[rr_index(start, k)]),
        r matches Some(p) ==> {
            &&& 0 <= p.1 < step
            &&& rr_index(start, p.1) == p.0
            &&& 0 <= p.0 < MAX_TASKS
            &&& runnable(tasks[p.0])
            &&& forall|k: int| 0 <= k < p.1 && runnable(#[trigger] tasks[rr_index(start, k)]) ==> tasks[rr_index(start, k)].effective_priority < tasks[p.0].effective_priority
            &&& forall|k: int| 0 <= k < step && runnable(#[trigger] tasks[rr_index(start, k)]) ==> tasks[rr_index(start, k)].effective_priority <= tasks[p.0].effective_priority
        },
    decreases step,
{
    if step == 0 {
        None
    } else {
        let prev = lemma_scan_prefix(tasks, start, step - 1);
        let idx = rr_index(start, step - 1);
        let better = match prev {
            None => true,
            Some(q) => tasks[idx].effective_priority > tasks[q.0].effective_priority,
        };
        if runnable(tasks[idx]) && better {
            Some((idx, step - 1))
        } else {
            prev
        }
    }
}

/// When some task is runnable the scan from `start` has a pick.
proof fn lemma_pick_exists(tasks: Seq<TaskView>, start: int, j: int) -> (p: int)
    requires
        0 <= start < MAX_TASKS,
        0 <= j < MAX_TASKS,
        runnable(tasks[j]),
    ensures
        is_pick(tasks, start, p),
{
    let kj = lemma_rr_covers(start, j);
    let r = lemma_scan_prefix(tasks, start, MAX_TASKS as int);
    assert(runnable(tasks[rr_index(start, kj)]));
    let (x, ks) = r->0;
    assert forall|i: int| 0 <= i < MAX_TASKS && runnable(#[trigger] tasks[i]) implies tasks[i].effective_priority <= tasks[x].effective_priority by {
        let k = lemma_rr_covers(start, i);
        assert(runnable(tasks[rr_index(start, k)]));
    }
    x
}

/// Every slot is met by the round-robin scan from `start`.
proof fn lemma_rr_covers(start: int, j: int) -> (k: int)
    requires
        0 <= start < MAX_TASKS,
        0 <= j < MAX_TASKS,
    ensures
        0 <= k < MAX_TASKS,
        rr_index(start, k) == j,
{
    if j >= start { j - start } else { j - start + MAX_TASKS }
}

/// Whether slot `index` is the idle task's.
pub fn is_idle_task(index: usize) -> (r: bool)
    ensures
        r == (index == IDLE_TASK_INDEX),
{
    index == IDLE_TASK_INDEX
}

/// A switch always goes to a ready or running task other than the one
/// switched away from, of the highest effective priority among those that
/// can run: blocked, dormant and exited tasks are never switched to.
pub proof fn lemma_switch_goes_to_highest_runnable(v: SchedulerView, from_state: TaskState)
    requires
        sched_wf(v),
    ensures
        switch_spec(v, from_state).0 matches Some(sw) ==> {
            &&& sw.to < MAX_TASKS
            &&& sw.to != sw.from
            &&& runnable(v.tasks[sw.to as int])
            &&& forall|j: int| 0 <= j < MAX_TASKS && runnable(#[trigger] v.tasks[j]) ==> v.tasks[j].effective_priority
                <= v.tasks[sw.to as int].effective_priority
        },
{
    if let Some(c) = v.current {
        let start = rr_start(Some(c));
        if exists|i: int| is_pick(v.tasks, start, i) {
            let n = choose|i: int| is_pick(v.tasks, start, i);
            assert(is_pick(v.tasks, start, n));
        }
    }
}

/// What a blocked task is woken for is what it learns when it runs again: a
/// block that switches away leaves the task blocked on `kind` until
/// `deadline`; a wake for `reason` then makes it ready, waiting for nothing,
/// with `reason` recorded for `Scheduler::resume_blocked` to return.
pub proof fn lemma_block_then_wake(v: SchedulerView, kind: TaskWaitKind, deadline: Option<Deadline>, reason: TaskWakeReason)
    requires
        sched_wf(v),
        block_spec(v, kind, deadline).0 is Block,
    ensures
        ({
            let (rs, w) = block_spec(v, kind, deadline);
            let c = rs->Block_0.from as int;
            let x = wake_outcome(w, TaskId(c as usize), reason);
            &&& v.current == Some(c as usize)
            &&& w.tasks[c].state == TaskState::Blocked
            &&& w.tasks[c].wait_kind == kind
            &&& w.tasks[c].wake_deadline == deadline
            &&& x.tasks[c].state == TaskState::Ready
            &&& x.tasks[c].wait_kind == TaskWaitKind::NotWaiting
            &&& x.tasks[c].wake_deadline is None
            &&& x.tasks[c].wake_reason == reason
        }),
{
    let c = v.current->0 as int;
    let b = before_block(v, c, kind, deadline);
    let n = next_ready(b.tasks, rr_start(Some(c as usize)))->0 as int;
    assert(n != c);
}

/// At most one task runs, and it is the current one: a task is running
/// exactly when it is current.
pub open spec fn one_running(v: SchedulerView) -> bool {
    forall|i: int| 0 <= i < MAX_TASKS ==> ((#[trigger] v.tasks[i]).state == TaskState::Running <==> v.current == Some(i as usize))
}

proof fn lemma_switch_keeps_one_running(v: SchedulerView, st: TaskState)
    requires
        sched_wf(v),
        one_running(v),
        st != TaskState::Running,
    ensures
        one_running(switch_spec(v, st).1),
        sched_wf(switch_spec(v, st).1),
        switch_spec(v, st).1.tasks.len() == MAX_TASKS,
{
    if let Some(c) = v.current {
        if let Some(n) = next_ready(v.tasks, rr_start(Some(c))) {
            let start = rr_start(Some(c));
            assert(exists|i: int| is_pick(v.tasks, start, i));
            let k = choose|i: int| is_pick(v.tasks, start, i);
            assert(is_pick(v.tasks, start, k));
            if n != c {
                let w = after_switch(v, c as int, n as int, st);
                assert forall|i: int| 0 <= i < MAX_TASKS implies ((#[trigger] w.tasks[i]).state == TaskState::Running <==> w.current == Some(i as usize)) by {
                    if i != c && i != n {
                        assert(w.tasks[i] == v.tasks[i]);
                    }
                }
            }
        }
    }
}

proof fn lemma_wake_keeps_one_running(v: SchedulerView, id: TaskId, reason: TaskWakeReason)
    requires
        sched_wf(v),
        one_running(v),
    ensures
        one_running(wake_outcome(v, id, reason)),
        sched_wf(wake_outcome(v, id, reason)),
        wake_outcome(v, id, reason).current == v.current,
{
    let w = wake_outcome(v, id, reason);
    if id.0 < MAX_TASKS && v.tasks[id.0 as int].state == TaskState::Blocked {
        assert forall|i: int| 0 <= i < MAX_TASKS implies ((#[trigger] w.tasks[i]).state == TaskState::Running <==> w.current == Some(i as usize)) by {
            if i != id.0 {
                assert(w.tasks[i] == v.tasks[i]);
            }
        }
        assert forall|i: int| 0 <= i < MAX_TASKS implies (#[trigger] w.tasks[i]).id == TaskId(i as usize) by {
            if i != id.0 {
                assert(w.tasks[i] == v.tasks[i]);
            }
        }
    }
}

proof fn lemma_wake_expired_keeps_one_running(v: SchedulerView, now: u32, k: nat)
    requires
        sched_wf(v),
        one_running(v),
        k <= MAX_TASKS,
    ensures
        one_running(wake_expired(v, now, k)),
        sched_wf(wake_expired(v, now, k)),
        wake_expired(v, now, k).current == v.current,
        wake_expired(v, now, k).remaining_slice_ticks == v.remaining_slice_ticks,
        wake_expired(v, now, k).ticks == v.ticks,
    decreases k,
{
    if k > 0 {
        lemma_wake_expired_keeps_one_running(v, now, (k - 1) as nat);
        let w = wake_expired(v, now, (k - 1) as nat);
        if expired(w.tasks[k - 1], now) {
            assert(wake_outcome(w, TaskId((k - 1) as usize), TaskWakeReason::Timeout) == after_wake(w, k - 1, TaskWakeReason::Timeout));
            lemma_wake_keeps_one_running(w, TaskId((k - 1) as usize), TaskWakeReason::Timeout);
        }
    }
}

/// `before_block` changes only the running task's slot.
proof fn lemma_before_block_frame(v: SchedulerView, kind: TaskWaitKind, deadline: Option<Deadline>)
    requires
        sched_wf(v),
        v.current is Some,
    ensures
        ({
            let c = v.current->0 as int;
            let b = before_block(v, c, kind, deadline);
            &&& sched_wf(b)
            &&& b.current == v.current
            &&& !runnable(b.tasks[c])
            &&& b.tasks[c].state == TaskState::Blocked
            &&& forall|i: int| 0 <= i < MAX_TASKS && i != c ==> #[trigger] b.tasks[i] == v.tasks[i]
        }),
{
    let c = v.current->0 as int;
    let b = before_block(v, c, kind, deadline);
    assert forall|i: int| 0 <= i < MAX_TASKS implies (#[trigger] b.tasks[i]).id == TaskId(i as usize) by {
        if i != c {
            assert(b.tasks[i] == v.tasks[i]);
        }
    }
    assert forall|i: int| 0 <= i < MAX_TASKS implies stack_fits((#[trigger] b.tasks[i]).stack_base, TASK_STACK_WORDS as nat) by {
        if i != c {
            assert(b.tasks[i] == v.tasks[i]);
        }
    }
    assert forall|i: int| 0 <= i < MAX_TASKS implies (#[trigger] b.tasks[i]).stack.len() == TASK_STACK_WORDS by {
        if i != c {
            assert(b.tasks[i] == v.tasks[i]);
        }
    }
}

proof fn lemma_block_keeps_one_running(v: SchedulerView, kind: TaskWaitKind, deadline: Option<Deadline>)
    requires
        sched_wf(v),
        one_running(v),
    ensures
        one_running(block_spec(v, kind, deadline).1),
{
    if let Some(c) = v.current {
        lemma_before_block_frame(v, kind, deadline);
        let b = before_block(v, c as int, kind, deadline);
        let start = rr_start(Some(c));
        let (sw, w) = switch_spec(b, TaskState::Blocked);
        if let Some(n) = next_ready(b.tasks, start) {
            assert(exists|i: int| is_pick(b.tasks, start, i));
            let k = choose|i: int| is_pick(b.tasks, start, i);
            assert(is_pick(b.tasks, start, k));
            assert(n != c);
            assert forall|i: int| 0 <= i < MAX_TASKS implies ((#[trigger] w.tasks[i]).state == TaskState::Running <==> w.current == Some(i as usize)) by {
                if i != c && i != n {
                    assert(w.tasks[i] == v.tasks[i]);
                }
            }
        } else {
            let x = with_task(w, c as int, TaskView {
                wait_kind: TaskWaitKind::NotWaiting,
                wake_deadline: None,
                state: TaskState::Running,
                ..w.tasks[c as int]
            });
            assert forall|i: int| 0 <= i < MAX_TASKS implies ((#[trigger] x.tasks[i]).state == TaskState::Running <==> x.current == Some(i as usize)) by {
                if i != c {
                    assert(x.tasks[i] == v.tasks[i]);
                }
            }
        }
    }
}

/// Blocking changes no task's base or effective priority.
pub proof fn lemma_block_keeps_priorities(v: SchedulerView, kind: TaskWaitKind, deadline: Option<Deadline>)
    requires
        sched_wf(v),
    ensures
        block_spec(v, kind, deadline).1.tasks.len() == MAX_TASKS,
        forall|i: int| 0 <= i < MAX_TASKS ==> {
            &&& (#[trigger] block_spec(v, kind, deadline).1.tasks[i]).effective_priority == v.tasks[i].effective_priority
            &&& block_spec(v, kind, deadline).1.tasks[i].base_priority == v.tasks[i].base_priority
        },
{
    if let Some(c) = v.current {
        lemma_before_block_frame(v, kind, deadline);
        let b = before_block(v, c as int, kind, deadline);
        let w = block_spec(v, kind, deadline).1;
        assert forall|i: int| 0 <= i < MAX_TASKS implies {
            &&& (#[trigger] w.tasks[i]).effective_priority == v.tasks[i].effective_priority
            &&& w.tasks[i].base_priority == v.tasks[i].base_priority
        } by {
            assert(b.tasks[i].effective_priority == v.tasks[i].effective_priority);
            assert(b.tasks[i].base_priority == v.tasks[i].base_priority);
        }
    }
}

/// Blocking gives the processor away whenever any other task can run: the
/// block then switches to a runnable task other than the caller, whatever
/// the priorities, and leaves the caller blocked on `kind` until `deadline`,
/// where it stays until it is woken. It keeps running only when no other
/// task can run.
pub proof fn lemma_block_switches_away(v: SchedulerView, kind: TaskWaitKind, deadline: Option<Deadline>)
    requires
        sched_wf(v),
        v.current is Some,
    ensures
        ({
            let c = v.current->0 as int;
            let (rs, w) = block_spec(v, kind, deadline);
            (exists|j: int| 0 <= j < MAX_TASKS && j != c && runnable(#[trigger] v.tasks[j])) <==> rs is Block
        }),
        ({
            let c = v.current->0 as int;
            let (rs, w) = block_spec(v, kind, deadline);
            rs is Block ==> {
                &&& rs->Block_0.from == c
                &&& rs->Block_0.to != c
                &&& runnable(v.tasks[rs->Block_0.to as int])
                &&& w.current == Some(rs->Block_0.to)
                &&& w.tasks[c].state == TaskState::Blocked
                &&& w.tasks[c].wait_kind == kind
                &&& w.tasks[c].wake_deadline == deadline
            }
        }),
{
    let c = v.current->0 as int;
    lemma_before_block_frame(v, kind, deadline);
    let b = before_block(v, c, kind, deadline);
    let start = rr_start(Some(c as usize));
    if exists|j: int| 0 <= j < MAX_TASKS && j != c && runnable(#[trigger] v.tasks[j]) {
        let j = choose|j: int| 0 <= j < MAX_TASKS && j != c && runnable(#[trigger] v.tasks[j]);
        assert(runnable(b.tasks[j]));
        if next_ready(b.tasks, start) is None {
            assert(!exists|i: int| is_pick(b.tasks, start, i));
            let p = lemma_pick_exists(b.tasks, start, j);
            assert(is_pick(b.tasks, start, p));
        }
        let n = next_ready(b.tasks, start)->0 as int;
        assert(exists|i: int| is_pick(b.tasks, start, i));
        let k = choose|i: int| is_pick(b.tasks, start, i);
        assert(is_pick(b.tasks, start, k));
        assert(n != c);
    } else {
        if let Some(n) = next_ready(b.tasks, start) {
            assert(exists|i: int| is_pick(b.tasks, start, i));
            let k = choose|i: int| is_pick(b.tasks, start, i);
            assert(is_pick(b.tasks, start, k));
            assert(runnable(b.tasks[k]));
            assert(k != c);
            assert(runnable(v.tasks[k]));
        }
    }
}

/// Only one task runs at a time, and it is the current one: switching away
/// (leaving the task in any state but running), yielding, blocking, waking
/// a task and the kernel tick all keep it so.
pub proof fn lemma_exactly_one_task_runs(
    v: SchedulerView,
    st: TaskState,
    kind: TaskWaitKind,
    deadline: Option<Deadline>,
    id: TaskId,
    reason: TaskWakeReason,
)
    requires
        sched_wf(v),
        one_running(v),
        st != TaskState::Running,
    ensures
        one_running(switch_spec(v, st).1),
        one_running(yield_spec(v).1),
        one_running(block_spec(v, kind, deadline).1),
        one_running(wake_outcome(v, id, reason)),
        one_running(on_tick_spec(v).1),
{
    lemma_switch_keeps_one_running(v, st);
    lemma_switch_keeps_one_running(v, TaskState::Ready);
    lemma_wake_keeps_one_running(v, id, reason);
    lemma_block_keeps_one_running(v, kind, deadline);
    let w = wake_expired(v, v.ticks, MAX_TASKS as nat);
    lemma_wake_expired_keeps_one_running(v, v.ticks, MAX_TASKS as nat);
    lemma_switch_keeps_one_running(w, TaskState::Ready);
}

/// Starting a scheduler on which no task runs leaves exactly one task
/// running, the current one, when it starts one at all; changing a slot that
/// holds a dormant task to a task that does not run keeps one task running,
/// as spawning does.
pub proof fn lemma_start_and_spawn_keep_one_running(v: SchedulerView, i: int, t: TaskView, kind: TraceKind, task: Option<TaskId>, arg0: u32, arg1: u32)
    requires
        sched_wf(v),
        one_running(v),
        v.current is None,
        0 <= i < MAX_TASKS,
        v.tasks[i].state == TaskState::Dormant,
        t.state != TaskState::Running,
    ensures
        one_running(start_spec(v).1),
        one_running(traced(with_task(v, i, t), kind, task, arg0, arg1)),
{
    let w = idle_prepared(v);
    assert forall|j: int| 0 <= j < MAX_TASKS implies (#[trigger] w.tasks[j]).state != TaskState::Running by {
        if j != IDLE_TASK_INDEX {
            assert(w.tasks[j] == v.tasks[j]);
        }
    }
    if let Some(f) = next_ready(w.tasks, 0) {
        assert(exists|x: int| is_pick(w.tasks, 0, x));
        let k = choose|x: int| is_pick(w.tasks, 0, x);
        assert(is_pick(w.tasks, 0, k));
        let x = start_spec(v).1;
        assert forall|j: int| 0 <= j < MAX_TASKS implies ((#[trigger] x.tasks[j]).state == TaskState::Running <==> x.current == Some(j as usize)) by {
            if j != f {
                assert(x.tasks[j] == w.tasks[j]);
            }
        }
    }
    let y = traced(with_task(v, i, t), kind, task, arg0, arg1);
    assert forall|j: int| 0 <= j < MAX_TASKS implies ((#[trigger] y.tasks[j]).state == TaskState::Running <==> y.current == Some(j as usize)) by {
        if j != i {
            assert(y.tasks[j] == v.tasks[j]);
        }
    }
}

proof fn lemma_wake_expired_none(v: SchedulerView, now: u32, k: nat)
    requires
        k <= v.tasks.len(),
        forall|i: int| 0 <= i < k ==> !expired(#[trigger] v.tasks[i], now),
    ensures
        wake_expired(v, now, k) == v,
    decreases k,
{
    if k > 0 {
        lemma_wake_expired_none(v, now, (k - 1) as nat);
    }
}

proof fn lemma_wake_expired_reasons(v: SchedulerView, now: u32, k: nat)
    requires
        sched_wf(v),
        k <= MAX_TASKS,
    ensures
        wake_expired(v, now, k).tasks.len() == MAX_TASKS,
        wake_expired(v, now, k).current == v.current,
        forall|i: int| k <= i < MAX_TASKS ==> #[trigger] wake_expired(v, now, k).tasks[i] == v.tasks[i],
        forall|i: int| 0 <= i < k ==> (#[trigger] wake_expired(v, now, k).tasks[i]).wake_reason == if expired(v.tasks[i], now) {
            TaskWakeReason::Timeout
        } else {
            v.tasks[i].wake_reason
        },
        forall|i: int| 0 <= i < k && expired(v.tasks[i], now) ==> {
            &&& (#[trigger] wake_expired(v, now, k).tasks[i]).state == TaskState::Ready
            &&& wake_expired(v, now, k).tasks[i].wait_kind == TaskWaitKind::NotWaiting
            &&& wake_expired(v, now, k).tasks[i].wake_deadline is None
        },
        forall|i: int| 0 <= i < k && !expired(v.tasks[i], now) ==> #[trigger] wake_expired(v, now, k).tasks[i] == v.tasks[i],
    decreases k,
{
    if k > 0 {
        lemma_wake_expired_reasons(v, now, (k - 1) as nat);
        let w = wake_expired(v, now, (k - 1) as nat);
        assert(w.tasks[k - 1] == v.tasks[k - 1]);
    }
}

/// The tick gives the wake reason `Timeout` only to tasks whose deadline has
/// been reached: a task that has it after a tick either had it before or
/// was blocked with a deadline reached at the tick count. So a timed wait
/// that the tick ends has reached its deadline.
pub proof fn lemma_tick_timeout_means_deadline(v: SchedulerView)
    requires
        sched_wf(v),
    ensures
        forall|i: int| 0 <= i < MAX_TASKS && (#[trigger] on_tick_spec(v).1.tasks[i]).wake_reason == TaskWakeReason::Timeout
            ==> v.tasks[i].wake_reason == TaskWakeReason::Timeout || expired(v.tasks[i], v.ticks),
{
    lemma_wake_expired_reasons(v, v.ticks, MAX_TASKS as nat);
    let w = wake_expired(v, v.ticks, MAX_TASKS as nat);
    let x = on_tick_spec(v).1;
    assert forall|i: int| 0 <= i < MAX_TASKS implies (#[trigger] x.tasks[i]).wake_reason == w.tasks[i].wake_reason by {
        if let Some(c) = w.current {
            if let Some(n) = next_ready(w.tasks, rr_start(Some(c))) {
                let start = rr_start(Some(c));
                assert(exists|j: int| is_pick(w.tasks, start, j));
                let k = choose|j: int| is_pick(w.tasks, start, j);
                assert(is_pick(w.tasks, start, k));
                assert(n < MAX_TASKS);
                assert(c < MAX_TASKS);
                if n != c {
                    assert(x.tasks[i].wake_reason == w.tasks[i].wake_reason);
                }
            }
        }
    }
}

/// Time slicing: on a tick that wakes nobody, a running task with more than
/// one tick of its slice left keeps running with one tick less; once its
/// slice runs out the tick switches exactly as a yield would, and when it
/// switches nowhere the slice restarts.
pub proof fn lemma_time_slice(v: SchedulerView)
    requires
        sched_wf(v),
        v.current is Some,
        forall|i: int| 0 <= i < MAX_TASKS ==> !expired(#[trigger] v.tasks[i], v.ticks),
    ensures
        v.remaining_slice_ticks > 1 ==> on_tick_spec(v) == (None::<Switch>, SchedulerView {
            remaining_slice_ticks: (v.remaining_slice_ticks - 1) as u32,
            ..v
        }),
        v.remaining_slice_ticks <= 1 ==> on_tick_spec(v).0 == switch_spec(v, TaskState::Ready).0,
        v.remaining_slice_ticks <= 1 && switch_spec(v, TaskState::Ready).0 is None ==> on_tick_spec(v).1
            == (SchedulerView { remaining_slice_ticks: TIME_SLICE_TICKS, ..switch_spec(v, TaskState::Ready).1 }),
{
    lemma_wake_expired_none(v, v.ticks, MAX_TASKS as nat);
}

/// A switch that changes the running task gives the task switched to a
/// full time slice, whatever brought it about (a yield, a block or the
/// tick), so the next `TIME_SLICE_TICKS - 1` ticks on which nobody wakes
/// switch nowhere: equal-priority tasks take turns of a whole slice.
pub proof fn lemma_switch_gives_full_slice(v: SchedulerView, st: TaskState, kind: TaskWaitKind, deadline: Option<Deadline>)
    requires
        sched_wf(v),
        one_running(v),
        st != TaskState::Running,
    ensures
        switch_spec(v, st).0 matches Some(sw) ==> {
            &&& switch_spec(v, st).1.remaining_slice_ticks == TIME_SLICE_TICKS
            &&& switch_spec(v, st).1.current == Some(sw.to)
        },
        yield_spec(v).0 is Yield ==> yield_spec(v).1.remaining_slice_ticks == TIME_SLICE_TICKS,
        block_spec(v, kind, deadline).0 is Block ==> block_spec(v, kind, deadline).1.remaining_slice_ticks == TIME_SLICE_TICKS,
        on_tick_spec(v).0 matches Some(sw) ==> {
            let w = on_tick_spec(v).1;
            &&& w.remaining_slice_ticks == TIME_SLICE_TICKS
            &&& w.current == Some(sw.to)
            &&& (forall|i: int| 0 <= i < MAX_TASKS ==> !expired(#[trigger] w.tasks[i], w.ticks)) ==> on_tick_spec(w) == (
                None::<Switch>,
                SchedulerView { remaining_slice_ticks: (TIME_SLICE_TICKS - 1) as u32, ..w },
            )
        },
{
    if let Some(sw) = on_tick_spec(v).0 {
        let w0 = wake_expired(v, v.ticks, MAX_TASKS as nat);
        lemma_wake_expired_keeps_one_running(v, v.ticks, MAX_TASKS as nat);
        lemma_switch_keeps_one_running(w0, TaskState::Ready);
        let w = on_tick_spec(v).1;
        assert(w == switch_spec(w0, TaskState::Ready).1);
        assert(sched_wf(w));
        assert(w.current is Some);
        if forall|i: int| 0 <= i < MAX_TASKS ==> !expired(#[trigger] w.tasks[i], w.ticks) {
            lemma_time_slice(w);
        }
    }
}

/// The tick wakes exactly the sleepers whose deadline it has reached: each
/// of them leaves its wait with the reason `Timeout` and can run again
/// (ready, or running when the tick switches to it), while every other
/// blocked task stays exactly as it was.
pub proof fn lemma_tick_wakes_expired(v: SchedulerView)
    requires
        sched_wf(v),
        one_running(v),
    ensures
        forall|i: int| 0 <= i < MAX_TASKS && expired(v.tasks[i], v.ticks) ==> {
            &&& (#[trigger] on_tick_spec(v).1.tasks[i]).wake_reason == TaskWakeReason::Timeout
            &&& runnable(on_tick_spec(v).1.tasks[i])
            &&& on_tick_spec(v).1.tasks[i].wait_kind == TaskWaitKind::NotWaiting
            &&& on_tick_spec(v).1.tasks[i].wake_deadline is None
        },
        forall|i: int| 0 <= i < MAX_TASKS && v.tasks[i].state == TaskState::Blocked && !expired(v.tasks[i], v.ticks)
            ==> #[trigger] on_tick_spec(v).1.tasks[i] == v.tasks[i],
{
    lemma_wake_expired_reasons(v, v.ticks, MAX_TASKS as nat);
    lemma_wake_expired_keeps_one_running(v, v.ticks, MAX_TASKS as nat);
    let w = wake_expired(v, v.ticks, MAX_TASKS as nat);
    let x = on_tick_spec(v).1;
    if let Some(c) = w.current {
        if let Some(n) = next_ready(w.tasks, rr_start(Some(c))) {
            let start = rr_start(Some(c));
            assert(exists|j: int| is_pick(w.tasks, start, j));
            let k = choose|j: int| is_pick(w.tasks, start, j);
            assert(is_pick(w.tasks, start, k));
            assert(n < MAX_TASKS);
            assert(c < MAX_TASKS);
            assert(w.tasks[c as int].state == TaskState::Running);
            assert forall|i: int| 0 <= i < MAX_TASKS && expired(v.tasks[i], v.ticks) implies {
                &&& (#[trigger] x.tasks[i]).wake_reason == TaskWakeReason::Timeout
                &&& runnable(x.tasks[i])
                &&& x.tasks[i].wait_kind == TaskWaitKind::NotWaiting
                &&& x.tasks[i].wake_deadline is None
            } by {
                assert(w.tasks[i].state == TaskState::Ready);
            }
            assert forall|i: int| 0 <= i < MAX_TASKS && v.tasks[i].state == TaskState::Blocked && !expired(v.tasks[i], v.ticks)
                implies #[trigger] x.tasks[i] == v.tasks[i] by {
                assert(w.tasks[i] == v.tasks[i]);
                assert(!runnable(w.tasks[i]));
                assert(i != n);
                assert(i != c);
            }
        }
    }
}

/// Waking a list of distinct tasks in turn wakes each of them that was
/// blocked (ready, waiting for nothing, with `reason`) and leaves every task
/// not in the list, and which task runs, as they were.
pub proof fn lemma_wake_each_wakes_all(v: SchedulerView, ids: Seq<TaskId>, reason: TaskWakeReason)
    requires
        sched_wf(v),
        ids.no_duplicates(),
    ensures
        sched_wf(wake_each(v, ids, reason)),
        wake_each(v, ids, reason).current == v.current,
        forall|i: int| 0 <= i < MAX_TASKS && !ids.contains(TaskId(i as usize)) ==> #[trigger] wake_each(v, ids, reason).tasks[i] == v.tasks[i],
        forall|i: int| 0 <= i < MAX_TASKS && ids.contains(TaskId(i as usize)) && v.tasks[i].state == TaskState::Blocked ==> {
            &&& (#[trigger] wake_each(v, ids, reason).tasks[i]).state == TaskState::Ready
            &&& wake_each(v, ids, reason).tasks[i].wait_kind == TaskWaitKind::NotWaiting
            &&& wake_each(v, ids, reason).tasks[i].wake_reason == reason
        },
    decreases ids.len(),
{
    if ids.len() > 0 {
        let t = ids[0];
        let v1 = wake_outcome(v, t, reason);
        if t.0 < MAX_TASKS && v.tasks[t.0 as int].state == TaskState::Blocked {
            assert forall|i: int| 0 <= i < MAX_TASKS implies (#[trigger] v1.tasks[i]).id == TaskId(i as usize) by {
                if i != t.0 {
                    assert(v1.tasks[i] == v.tasks[i]);
                }
            }
            assert forall|i: int| 0 <= i < MAX_TASKS implies stack_fits((#[trigger] v1.tasks[i]).stack_base, TASK_STACK_WORDS as nat) by {
                if i != t.0 {
                    assert(v1.tasks[i] == v.tasks[i]);
                }
            }
            assert forall|i: int| 0 <= i < MAX_TASKS implies (#[trigger] v1.tasks[i]).stack.len() == TASK_STACK_WORDS by {
                if i != t.0 {
                    assert(v1.tasks[i] == v.tasks[i]);
                }
            }
        }
        let rest = ids.drop_first();
        assert(rest.no_duplicates());
        lemma_wake_each_wakes_all(v1, rest, reason);
        let r = wake_each(v, ids, reason);
        assert forall|i: int| 0 <= i < MAX_TASKS && !ids.contains(TaskId(i as usize)) implies #[trigger] r.tasks[i] == v.tasks[i] by {
            assert(TaskId(i as usize) != t);
            if rest.contains(TaskId(i as usize)) {
                let j = choose|j: int| 0 <= j < rest.len() && rest[j] == TaskId(i as usize);
                assert(ids[j + 1] == TaskId(i as usize));
            }
            if t.0 < MAX_TASKS {
                assert(i != t.0);
            }
        }
        assert forall|i: int| 0 <= i < MAX_TASKS && ids.contains(TaskId(i as usize)) && v.tasks[i].state == TaskState::Blocked implies {
            &&& (#[trigger] r.tasks[i]).state == TaskState::Ready
            &&& r.tasks[i].wait_kind == TaskWaitKind::NotWaiting
            &&& r.tasks[i].wake_reason == reason
        } by {
            if t == TaskId(i as usize) {
                assert(!rest.contains(t)) by {
                    if rest.contains(t) {
                        let j = choose|j: int| 0 <= j < rest.len() && rest[j] == t;
                        assert(ids[j + 1] == ids[0]);
                    }
                }
            } else {
                let j = choose|j: int| 0 <= j < ids.len() && ids[j] == TaskId(i as usize);
                assert(j > 0);
                assert(rest[j - 1] == TaskId(i as usize));
                if t.0 < MAX_TASKS {
                    assert(i != t.0);
                }
                assert(v1.tasks[i] == v.tasks[i]);
            }
        }
    }
}

} // verus!
