use vstd::prelude::*;
use crate::timer::Deadline;

verus! {

/// Index of a task in the scheduler's task table.
#[derive(Clone, Copy, Debug, PartialEq, Eq, Structural)]
pub struct TaskId(pub usize);

/// Lifecycle state of a task.
#[derive(Clone, Copy, Debug, PartialEq, Eq, Structural)]
pub enum TaskState {
    Dormant,
    Ready,
    Running,
    Blocked,
    Exited,
}

/// What a blocked task is waiting for.
#[derive(Clone, Copy, Debug, PartialEq, Eq, Structural)]
pub enum TaskWaitKind {
    NotWaiting,
    Sleep,
    Semaphore,
    Mutex,
    QueueSend,
    QueueReceive,
    EventFlags,
}

/// Why a blocked task was made ready again.
#[derive(Clone, Copy, Debug, PartialEq, Eq, Structural)]
pub enum TaskWakeReason {
    NotWoken,
    Timeout,
    Semaphore,
    Mutex,
    Queue,
    EventFlags,
}

/// Reasons a task control block cannot be prepared to run.
#[derive(Clone, Copy, Debug, PartialEq, Eq, Structural)]
pub enum TaskInitError {
    StackTooSmall,
    MisalignedStack,
}


/// Address of a task's entry function.
pub type TaskEntry = u32;

/// Scheduling priority; larger runs first.
pub type TaskPriority = u8;

/// Callee-saved registers r4-r11 that PendSV saves in software.
pub const SOFTWARE_FRAME_WORDS: usize = 8;

/// Registers the core stacks on exception entry.
pub const HARDWARE_FRAME_WORDS: usize = 8;

/// Words of the initial stack frame of a task.
pub const INITIAL_FRAME_WORDS: usize = SOFTWARE_FRAME_WORDS + HARDWARE_FRAME_WORDS;

/// xPSR of a fresh task: Thumb state.
pub const INITIAL_XPSR: u32 = 0x0100_0000;

/// The plain values a task control block holds.
pub struct TaskView {
    pub id: TaskId,
    pub state: TaskState,
    pub base_priority: TaskPriority,
    pub effective_priority: TaskPriority,
    pub wait_kind: TaskWaitKind,
    pub wake_reason: TaskWakeReason,
    pub wake_deadline: Option<Deadline>,
    pub saved_psp: u32,
    pub entry: Option<TaskEntry>,
    pub stack: Seq<u32>,
    pub stack_base: u32,
}

/// The stack of a task prepared to start at `entry`: zero but for the
/// hardware frame's lr (`exit_trap`), pc (`entry`) and xPSR words at the top.
pub open spec fn initial_stack(n: nat, entry: TaskEntry, exit_trap: TaskEntry) -> Seq<u32> {
    Seq::new(
        n,
        |i: int|
            if i == n - 3 {
                exit_trap
            } else if i == n - 2 {
                entry
            } else if i == n - 1 {
                INITIAL_XPSR
            } else {
                0
            },
    )
}

/// Index of the lowest non-zero word of `stack`, or its length when all are zero.
pub open spec fn lowest_used_word(stack: Seq<u32>) -> int {
    if exists|i: int| 0 <= i < stack.len() && stack[i] != 0 {
        choose|i: int|
            0 <= i < stack.len() && stack[i] != 0 && forall|j: int| 0 <= j < i ==> stack[j] == 0
    } else {
        stack.len() as int
    }
}

/// Scheduler-owned record of one task, with its stack.
pub struct TaskControlBlock<const STACK_WORDS: usize> {
    id: TaskId,
    state: TaskState,
    base_priority: TaskPriority,
    effective_priority: TaskPriority,
    wait_kind: TaskWaitKind,
    wake_reason: TaskWakeReason,
    wake_deadline: Option<Deadline>,
    saved_psp: u32,
    entry: Option<TaskEntry>,
    stack: [u32; STACK_WORDS],
    stack_base: u32,
}

impl<const STACK_WORDS: usize> View for TaskControlBlock<STACK_WORDS> {
    type V = TaskView;

    closed spec fn view(&self) -> TaskView {
        TaskView {
            id: self.id,
            state: self.state,
            base_priority: self.base_priority,
            effective_priority: self.effective_priority,
            wait_kind: self.wait_kind,
            wake_reason: self.wake_reason,
            wake_deadline: self.wake_deadline,
            saved_psp: self.saved_psp,
            entry: self.entry,
            stack: self.stack@,
            stack_base: self.stack_base,
        }
    }
}

/// The view of a dormant task `id` with a cleared stack of `n` words at
/// address `stack_base`.
pub open spec fn dormant_view(id: TaskId, n: nat, stack_base: u32) -> TaskView {
    TaskView {
        id: id,
        state: TaskState::Dormant,
        base_priority: 0,
        effective_priority: 0,
        wait_kind: TaskWaitKind::NotWaiting,
        wake_reason: TaskWakeReason::NotWoken,
        wake_deadline: None,
        saved_psp: 0,
        entry: None,
        stack: Seq::new(n, |i: int| 0u32),
        stack_base: stack_base,
    }
}

/// Address of the initial frame at the top of the `n`-word stack of `t`.
pub open spec fn frame_psp(t: TaskView, n: nat) -> int {
    t.stack_base + 4 * (n - INITIAL_FRAME_WORDS)
}

/// `t` reset, holding the entry and the initial frame for `entry`, still dormant.
pub open spec fn reset_for_entry(t: TaskView, n: nat, entry: TaskEntry, exit_trap: TaskEntry) -> TaskView {
    TaskView {
        entry: Some(entry),
        stack: initial_stack(n, entry, exit_trap),
        ..dormant_view(t.id, n, t.stack_base)
    }
}

/// `t` prepared to start at `entry`: ready at priority 1, its saved stack
/// pointer on the initial frame.
pub open spec fn prepared_view(t: TaskView, n: nat, entry: TaskEntry, exit_trap: TaskEntry) -> TaskView {
    TaskView {
        state: TaskState::Ready,
        base_priority: 1,
        effective_priority: 1,
        saved_psp: frame_psp(t, n) as u32,
        ..reset_for_entry(t, n, entry, exit_trap)
    }
}

/// A stack of `n` words at `base` ends below the top of the address space.
pub open spec fn stack_fits(base: u32, n: nat) -> bool {
    base + 4 * n < 0x1_0000_0000
}

impl<const STACK_WORDS: usize> TaskControlBlock<STACK_WORDS> {
    /// The stack holds `STACK_WORDS` words.
    pub proof fn lemma_stack_len(&self)
        ensures
            self@.stack.len() == STACK_WORDS,
    {
    }

    /// A dormant task `id` with a cleared stack, not yet placed at an address.
    pub fn new(id: TaskId) -> (r: Self)
        requires
            stack_fits(0, STACK_WORDS as nat),
        ensures
            r@ == dormant_view(id, STACK_WORDS as nat, 0),
    {
        let r = TaskControlBlock {
            id,
            state: TaskState::Dormant,
            base_priority: 0,
            effective_priority: 0,
            wait_kind: TaskWaitKind::NotWaiting,
            wake_reason: TaskWakeReason::NotWoken,
            wake_deadline: None,
            saved_psp: 0,
            entry: None,
            stack: [0; STACK_WORDS],
            stack_base: 0,
        };
        assert(r@.stack =~= Seq::new(STACK_WORDS as nat, |i: int| 0u32));
        r
    }

    /// The task's slot.
    pub fn id(&self) -> (r: TaskId)
        ensures
            r == self@.id,
    {
        self.id
    }

    /// The lifecycle state.
    pub fn state(&self) -> (r: TaskState)
        ensures
            r == self@.state,
    {
        self.state
    }

    /// Sets the lifecycle state.
    pub fn set_state(&mut self, state: TaskState)
        ensures
            final(self)@ == (TaskView { state: state, ..old(self)@ }),
    {
        self.state = state;
    }

    /// What the task waits for.
    pub fn wait_kind(&self) -> (r: TaskWaitKind)
        ensures
            r == self@.wait_kind,
    {
        self.wait_kind
    }

    /// Sets what the task waits for.
    pub fn set_wait_kind(&mut self, wait_kind: TaskWaitKind)
        ensures
            final(self)@ == (TaskView { wait_kind: wait_kind, ..old(self)@ }),
    {
        self.wait_kind = wait_kind;
    }

    /// The configured priority.
    pub fn base_priority(&self) -> (r: TaskPriority)
        ensures
            r == self@.base_priority,
    {
        self.base_priority
    }

    /// Sets the configured priority.
    pub fn set_base_priority(&mut self, priority: TaskPriority)
        ensures
            final(self)@ == (TaskView { base_priority: priority, ..old(self)@ }),
    {
        self.base_priority = priority;
    }

    /// The priority the scheduler uses, inheritance included.
    pub fn effective_priority(&self) -> (r: TaskPriority)
        ensures
            r == self@.effective_priority,
    {
        self.effective_priority
    }

    /// Sets the priority the scheduler uses.
    pub fn set_effective_priority(&mut self, priority: TaskPriority)
        ensures
            final(self)@ == (TaskView { effective_priority: priority, ..old(self)@ }),
    {
        self.effective_priority = priority;
    }

    /// Why the task was last woken.
    pub fn wake_reason(&self) -> (r: TaskWakeReason)
        ensures
            r == self@.wake_reason,
    {
        self.wake_reason
    }

    /// Sets why the task was woken.
    pub fn set_wake_reason(&mut self, wake_reason: TaskWakeReason)
        ensures
            final(self)@ == (TaskView { wake_reason: wake_reason, ..old(self)@ }),
    {
        self.wake_reason = wake_reason;
    }

    /// The tick at which a wait times out, if any.
    pub fn wake_deadline(&self) -> (r: Option<Deadline>)
        ensures
            r == self@.wake_deadline,
    {
        self.wake_deadline
    }

    /// Sets the tick at which a wait times out.
    pub fn set_wake_deadline(&mut self, wake_deadline: Option<Deadline>)
        ensures
            final(self)@ == (TaskView { wake_deadline: wake_deadline, ..old(self)@ }),
    {
        self.wake_deadline = wake_deadline;
    }

    /// Address of the saved process stack pointer; 0 when none is saved.
    pub fn saved_psp(&self) -> (r: u32)
        ensures
            r == self@.saved_psp,
    {
        self.saved_psp
    }

    /// Sets the saved process stack pointer address.
    pub fn set_saved_psp(&mut self, saved_psp: u32)
        ensures
            final(self)@ == (TaskView { saved_psp: saved_psp, ..old(self)@ }),
    {
        self.saved_psp = saved_psp;
    }

    /// Address of the entry function, if prepared.
    pub fn entry(&self) -> (r: Option<TaskEntry>)
        ensures
            r == self@.entry,
    {
        self.entry
    }

    /// Sets the entry function address.
    pub fn set_entry(&mut self, entry: TaskEntry)
        ensures
            final(self)@ == (TaskView { entry: Some(entry), ..old(self)@ }),
    {
        self.entry = Some(entry);
    }

    /// Forgets the entry function.
    pub fn clear_entry(&mut self)
        ensures
            final(self)@ == (TaskView { entry: None, ..old(self)@ }),
    {
        self.entry = None;
    }

    /// The task's stack words.
    pub fn stack_words(&self) -> (r: &[u32; STACK_WORDS])
        ensures
            r@ == self@.stack,
    {
        &self.stack
    }

    /// The task's stack words, for writing.
    pub fn stack_words_mut(&mut self) -> (r: &mut [u32; STACK_WORDS])
        ensures
            r@ == old(self)@.stack,
            final(self)@ == (TaskView { stack: final(r)@, ..old(self)@ }),
    {
        &mut self.stack
    }

    /// Number of words in the task's stack.
    pub fn stack_len_words(&self) -> (r: usize)
        ensures
            r == STACK_WORDS,
    {
        STACK_WORDS
    }

    /// Back to dormant: priorities 0, no wait, no entry, no saved stack
    /// pointer, and every stack word cleared.
    pub fn reset_runtime_state(&mut self)
        ensures
            final(self)@ == dormant_view(old(self)@.id, STACK_WORDS as nat, old(self)@.stack_base),
    {
        self.state = TaskState::Dormant;
        self.base_priority = 0;
        self.effective_priority = 0;
        self.wait_kind = TaskWaitKind::NotWaiting;
        self.wake_reason = TaskWakeReason::NotWoken;
        self.wake_deadline = None;
        self.saved_psp = 0;
        self.entry = None;
        let mut i: usize = 0;
        while i < STACK_WORDS
            invariant
                i <= STACK_WORDS,
                self.stack@.len() == STACK_WORDS,
                forall|j: int| 0 <= j < i ==> self.stack@[j] == 0,
                self.id == old(self).id,
                self.state == TaskState::Dormant,
                self.base_priority == 0,
                self.effective_priority == 0,
                self.wait_kind == TaskWaitKind::NotWaiting,
                self.wake_reason == TaskWakeReason::NotWoken,
                self.wake_deadline == None::<Deadline>,
                self.saved_psp == 0,
                self.entry == None::<TaskEntry>,
                self.stack_base == old(self).stack_base,
            decreases STACK_WORDS - i,
        {
            self.stack[i] = 0;
            i = i + 1;
        }
        assert(self.stack@ =~= Seq::new(STACK_WORDS as nat, |i: int| 0u32));
    }

    /// Prepares the task to start at `entry`: the stack is cleared and its top holds the initial
    /// exception frame, which returns to `exit_trap` should the entry return.
    /// A stack of fewer than `INITIAL_FRAME_WORDS` words fails with
    /// `StackTooSmall` and changes nothing. A frame not 8-byte aligned fails
    /// with `MisalignedStack` after the reset and the frame write. Otherwise
    /// the task is ready at priority 1 with its saved stack pointer on the frame.
    pub fn prepare(&mut self, entry: TaskEntry, exit_trap: TaskEntry) -> (r: Result<(), TaskInitError>)
        requires
            stack_fits(old(self)@.stack_base, STACK_WORDS as nat),
        ensures
            STACK_WORDS < INITIAL_FRAME_WORDS ==> r == Err::<(), TaskInitError>(TaskInitError::StackTooSmall)
                && final(self)@ == old(self)@,
            STACK_WORDS >= INITIAL_FRAME_WORDS ==> if frame_psp(old(self)@, STACK_WORDS as nat) % 8 != 0 {
                r == Err::<(), TaskInitError>(TaskInitError::MisalignedStack) && final(self)@ == reset_for_entry(
                    old(self)@,
                    STACK_WORDS as nat,
                    entry,
                    exit_trap,
                )
            } else {
                r is Ok && final(self)@ == prepared_view(old(self)@, STACK_WORDS as nat, entry, exit_trap)
            },
    {
        if STACK_WORDS < INITIAL_FRAME_WORDS {
            return Err(TaskInitError::StackTooSmall);
        }
        self.reset_runtime_state();
        self.entry = Some(entry);
        let frame = STACK_WORDS - INITIAL_FRAME_WORDS;
        let ghost before = self@;
        let mut i: usize = frame;
        while i < STACK_WORDS
            invariant
                frame <= i <= STACK_WORDS,
                self@ == (TaskView { stack: self@.stack, ..before }),
                self.stack@.len() == STACK_WORDS,
                forall|j: int| 0 <= j < STACK_WORDS ==> self.stack@[j] == 0,
            decreases STACK_WORDS - i,
        {
            self.stack[i] = 0;
            i = i + 1;
        }
        self.stack[frame + SOFTWARE_FRAME_WORDS + 5] = exit_trap;
        self.stack[frame + SOFTWARE_FRAME_WORDS + 6] = entry;
        self.stack[frame + SOFTWARE_FRAME_WORDS + 7] = INITIAL_XPSR;
        assert(self.stack@ =~= initial_stack(STACK_WORDS as nat, entry, exit_trap));
        assert(frame as u32 == frame);
        let saved_psp: u32 = self.stack_base + 4 * (frame as u32);
        assert(saved_psp == old(self)@.stack_base + 4 * (STACK_WORDS - INITIAL_FRAME_WORDS));
        assert(saved_psp & 7 == saved_psp % 8) by (bit_vector);
        if saved_psp & 7 != 0 {
            return Err(TaskInitError::MisalignedStack);
        }
        self.saved_psp = saved_psp;
        self.base_priority = 1;
        self.effective_priority = 1;
        self.wait_kind = TaskWaitKind::NotWaiting;
        self.wake_reason = TaskWakeReason::NotWoken;
        self.wake_deadline = None;
        self.state = TaskState::Ready;
        Ok(())
    }

    /// Places the stack at address `stack_base`.
    pub fn set_stack_base(&mut self, stack_base: u32)
        requires
            stack_fits(stack_base, STACK_WORDS as nat),
        ensures
            final(self)@ == (TaskView { stack_base: stack_base, ..old(self)@ }),
    {
        self.stack_base = stack_base;
    }

    /// Address of the lowest stack word.
    pub fn stack_low_addr(&self) -> (r: u32)
        ensures
            r == self@.stack_base,
    {
        self.stack_base
    }

    /// Address just past the highest stack word.
    pub fn stack_high_addr(&self) -> (r: u32)
        requires
            stack_fits(self@.stack_base, STACK_WORDS as nat),
        ensures
            r == self@.stack_base + 4 * STACK_WORDS,
    {
        self.stack_base + 4 * (STACK_WORDS as u32)
    }

    /// Words of the stack in use by its high-water mark: everything from the
    /// lowest non-zero word up.
    pub fn stack_used_words(&self) -> (r: usize)
        ensures
            r == STACK_WORDS - lowest_used_word(self@.stack),
    {
        let mut i: usize = 0;
        while i < STACK_WORDS
            invariant
                i <= STACK_WORDS,
                self.stack@.len() == STACK_WORDS,
                forall|j: int| 0 <= j < i ==> self.stack@[j] == 0,
            decreases STACK_WORDS - i,
        {
            if self.stack[i] != 0 {
                assert(lowest_used_word(self@.stack) == i);
                return STACK_WORDS - i;
            }
            i = i + 1;
        }
        0
    }

    /// Whether the task has written the lowest word of its stack, the last
    /// one before memory that does not belong to it.
    pub fn stack_overflowed(&self) -> (r: bool)
        ensures
            r == (STACK_WORDS > 0 && self@.stack[0] != 0),
    {
        STACK_WORDS > 0 && self.stack[0] != 0
    }
}

} // verus!
