use vstd::prelude::*;
use crate::scheduler::{
    block_spec, has_room, parked, running_id, step_after_block, wake_each, Reschedule, Scheduler,
    SchedulerView, WaitStep, USER_TASKS,
};
use crate::task::{TaskId, TaskWaitKind, TaskWakeReason};
use crate::timer::{reached_at, Deadline};
use crate::waiters::WaitQueue;

verus! {

/// How a wait matches the flag word against its mask.
#[derive(Clone, Copy, Debug, PartialEq, Eq, Structural)]
pub enum WaitMode {
    /// Any bit of the mask is set.
    Any,
    /// Every bit of the mask is set.
    All,
}

/// The plain values an event flag group holds.
pub struct EventFlagsView {
    pub flags: u32,
    pub waiters: Seq<TaskId>,
}

/// A word of event flags that tasks wait on by mask, with a FIFO queue of
/// waiting tasks.
pub struct EventFlags {
    flags: u32,
    waiters: WaitQueue,
}

/// `flags` satisfy a wait for `mask` in `mode`.
pub open spec fn flags_match(flags: u32, mask: u32, mode: WaitMode) -> bool {
    match mode {
        WaitMode::Any => flags & mask != 0,
        WaitMode::All => flags & mask == mask,
    }
}

/// A wait that does not block: when the flags match, the masked bits, which
/// are cleared when `clear_on_exit` is set.
pub open spec fn try_wait_spec(e: EventFlagsView, mask: u32, mode: WaitMode, clear_on_exit: bool) -> (Option<u32>, EventFlagsView) {
    if flags_match(e.flags, mask, mode) {
        (
            Some(e.flags & mask),
            if clear_on_exit { EventFlagsView { flags: e.flags & !mask, ..e } } else { e },
        )
    } else {
        (None, e)
    }
}

/// One attempt of a wait: the masked bits when the flags match; otherwise
/// the running task joins the waiters and blocks until `deadline`.
pub open spec fn wait_attempt(e: EventFlagsView, v: SchedulerView, mask: u32, mode: WaitMode, clear_on_exit: bool, deadline: Option<Deadline>) -> (WaitStep<u32, ()>, EventFlagsView, SchedulerView) {
    let (bits, e1) = try_wait_spec(e, mask, mode, clear_on_exit);
    match bits {
        Some(b) => (WaitStep::Done(b), e1, v),
        None => {
            let (rs, w) = block_spec(v, TaskWaitKind::EventFlags, deadline);
            (step_after_block(rs, ()), EventFlagsView { waiters: parked(e.waiters, running_id(v)), ..e }, w)
        },
    }
}

/// The step a timed wait reports for the step `st` of an attempt.
pub open spec fn timed_wait(st: WaitStep<u32, ()>) -> WaitStep<Option<u32>, ()> {
    match st {
        WaitStep::Done(b) => WaitStep::Done(Some(b)),
        WaitStep::Switch(sw, k) => WaitStep::Switch(sw, k),
        WaitStep::Spin(k) => WaitStep::Spin(k),
    }
}

/// The running task of `v` may wait on `e` for `mask` in `mode`.
pub open spec fn may_wait_flags(e: EventFlagsView, v: SchedulerView, mask: u32, mode: WaitMode) -> bool {
    !flags_match(e.flags, mask, mode) ==> v.current is Some && has_room(e.waiters, v)
}

/// `e` without the running task of `v` among its waiters.
pub open spec fn without_running(e: EventFlagsView, v: SchedulerView) -> EventFlagsView {
    EventFlagsView { waiters: e.waiters.remove_value(running_id(v)), ..e }
}

/// A wait for bits that a `set` just set is satisfied, in either mode, and
/// returns exactly those bits; after a `clear` of them, an `Any` wait for
/// them is not.
pub proof fn lemma_set_then_wait(flags: u32, set_bits: u32, mask: u32)
    requires
        mask != 0,
        mask & set_bits == mask,
    ensures
        flags_match(flags | set_bits, mask, WaitMode::All),
        flags_match(flags | set_bits, mask, WaitMode::Any),
        (flags | set_bits) & mask == mask,
        !flags_match(flags & !mask, mask, WaitMode::Any),
{
    assert(((flags | set_bits) & mask) == mask) by (bit_vector)
        requires
            mask & set_bits == mask,
    ;
    assert((flags & !mask) & mask == 0) by (bit_vector);
}

/// A wait is satisfied exactly when the flags match. It then finishes at
/// once with the masked bits, leaves the waiters and the scheduler alone,
/// and with `clear_on_exit`, in either mode, takes exactly the bits it
/// returns out of the flags: no masked bit is left set, every other bit
/// stays, and the same wait is not satisfied again by them. Without
/// `clear_on_exit` the flags stay. An unsatisfied wait does not finish and
/// leaves the flags alone. The same holds of a wait that does not block.
pub proof fn lemma_wait_takes_matched_bits(
    e: EventFlagsView,
    v: SchedulerView,
    mask: u32,
    mode: WaitMode,
    clear_on_exit: bool,
    deadline: Option<Deadline>,
)
    ensures
        ({
            let (st, e1, v1) = wait_attempt(e, v, mask, mode, clear_on_exit, deadline);
            &&& flags_match(e.flags, mask, mode) ==> {
                &&& st == WaitStep::<u32, ()>::Done(e.flags & mask)
                &&& e1.waiters == e.waiters
                &&& v1 == v
                &&& clear_on_exit ==> e1.flags & mask == 0 && (e1.flags | (e.flags & mask)) == e.flags
                    && e1.flags & !mask == e.flags & !mask
                &&& clear_on_exit && mask != 0 ==> !flags_match(e1.flags, mask, mode)
                &&& !clear_on_exit ==> e1.flags == e.flags
            }
            &&& !flags_match(e.flags, mask, mode) ==> !(st is Done) && e1.flags == e.flags
        }),
        ({
            let (r, e1) = try_wait_spec(e, mask, mode, clear_on_exit);
            &&& r is Some <==> flags_match(e.flags, mask, mode)
            &&& r matches Some(b) ==> b == e.flags & mask && e1.waiters == e.waiters
                && (clear_on_exit ==> e1.flags & mask == 0 && (e1.flags | b) == e.flags)
                && (!clear_on_exit ==> e1.flags == e.flags)
            &&& r is None ==> e1 == e
        }),
{
    let f = e.flags;
    assert((f & !mask) & mask == 0) by (bit_vector);
    assert(((f & !mask) | (f & mask)) == f) by (bit_vector);
    assert((f & !mask) & !mask == f & !mask) by (bit_vector);
    assert(mask != 0 ==> (f & !mask) & mask != mask) by (bit_vector);
}

impl View for EventFlags {
    type V = EventFlagsView;

    closed spec fn view(&self) -> EventFlagsView {
        EventFlagsView { flags: self.flags, waiters: self.waiters@ }
    }
}

impl EventFlags {
    /// The waiter queue is well formed.
    pub closed spec fn wf(&self) -> bool {
        self.waiters.wf()
    }

    /// The queue of waiting tasks.
    pub fn waiters(&self) -> (r: &WaitQueue)
        requires
            self.wf(),
        ensures
            r.wf(),
            r@ == self@.waiters,
    {
        &self.waiters
    }

    /// No flag set, no waiters.
    pub fn new() -> (r: Self)
        ensures
            r.wf(),
            r@.flags == 0,
            r@.waiters == Seq::<TaskId>::empty(),
    {
        EventFlags { flags: 0, waiters: WaitQueue::new() }
    }

    /// Sets the bits of `flags` and wakes every waiter, oldest first, to
    /// check its own condition again.
    pub fn set(&mut self, sched: &mut Scheduler, flags: u32)
        requires
            old(self).wf(),
            old(sched).wf(),
        ensures
            final(self).wf(),
            final(sched).wf(),
            final(self)@.flags == old(self)@.flags | flags,
            final(self)@.waiters == Seq::<TaskId>::empty(),
            final(sched)@ == wake_each(old(sched)@, old(self)@.waiters, TaskWakeReason::EventFlags),
    {
        self.flags = self.flags | flags;
        self.wake_all_waiters(sched);
    }

    /// Clears the bits of `flags`.
    pub fn clear(&mut self, flags: u32)
        requires
            old(self).wf(),
        ensures
            final(self).wf(),
            final(self)@ == (EventFlagsView { flags: old(self)@.flags & !flags, ..old(self)@ }),
    {
        self.flags = self.flags & !flags;
    }

    /// The flag word.
    pub fn bits(&self) -> (r: u32)
        ensures
            r == self@.flags,
    {
        self.flags
    }

    /// Whether the flags satisfy a wait for `mask` in `mode`.
    pub fn is_set(&self, mask: u32, mode: WaitMode) -> (r: bool)
        ensures
            r == flags_match(self@.flags, mask, mode),
    {
        match mode {
            WaitMode::Any => self.flags & mask != 0,
            WaitMode::All => self.flags & mask == mask,
        }
    }

    /// Waits without blocking: the masked bits when the flags match, cleared
    /// when `clear_on_exit` is set; none otherwise.
    pub fn try_wait(&mut self, mask: u32, mode: WaitMode, clear_on_exit: bool) -> (r: Option<u32>)
        requires
            old(self).wf(),
        ensures
            final(self).wf(),
            (r, final(self)@) == try_wait_spec(old(self)@, mask, mode, clear_on_exit),
    {
        if !self.is_set(mask, mode) {
            return None;
        }
        let observed = self.flags & mask;
        if clear_on_exit {
            self.flags = self.flags & !mask;
        }
        Some(observed)
    }

    fn wake_all_waiters(&mut self, sched: &mut Scheduler)
        requires
            old(self).wf(),
            old(sched).wf(),
        ensures
            final(self).wf(),
            final(sched).wf(),
            final(self)@ == (EventFlagsView { waiters: Seq::<TaskId>::empty(), ..old(self)@ }),
            final(sched)@ == wake_each(old(sched)@, old(self)@.waiters, TaskWakeReason::EventFlags),
    {
        let ghost q0 = self@.waiters;
        let ghost v0 = sched@;
        let ghost mut k: int = 0;
        assert(q0.skip(0) =~= q0);
        loop
            invariant
                self.wf(),
                sched.wf(),
                self@.flags == old(self)@.flags,
                0 <= k <= q0.len(),
                self@.waiters == q0.skip(k),
                wake_each(v0, q0, TaskWakeReason::EventFlags) == wake_each(sched@, q0.skip(k), TaskWakeReason::EventFlags),
            ensures
                self@.waiters.len() == 0,
            decreases self@.waiters.len(),
        {
            let task_id = match self.dequeue_waiter() {
                Some(t) => t,
                None => break,
            };
            proof {
                assert(q0.skip(k).drop_first() =~= q0.skip(k + 1));
            }
            sched.wake_task(task_id, TaskWakeReason::EventFlags);
            proof {
                k = k + 1;
            }
        }
        proof {
            assert(q0.skip(k).len() == 0);
            assert(self@.waiters =~= Seq::<TaskId>::empty());
        }
    }

    fn enqueue_waiter(&mut self, task_id: TaskId) -> (r: Result<(), ()>)
        requires
            old(self).wf(),
        ensures
            final(self).wf(),
            final(self)@.flags == old(self)@.flags,
            old(self)@.waiters.contains(task_id) || old(self)@.waiters.len() < USER_TASKS ==> r is Ok
                && final(self)@.waiters == parked(old(self)@.waiters, task_id),
    {
        self.waiters.enqueue(task_id)
    }

    fn dequeue_waiter(&mut self) -> (r: Option<TaskId>)
        requires
            old(self).wf(),
        ensures
            final(self).wf(),
            final(self)@.flags == old(self)@.flags,
            old(self)@.waiters.len() == 0 ==> r is None && final(self)@ == old(self)@,
            old(self)@.waiters.len() > 0 ==> r == Some(old(self)@.waiters[0]) && final(self)@.waiters == old(self)@.waiters.drop_first(),
    {
        self.waiters.dequeue()
    }

    fn remove_waiter(&mut self, task_id: TaskId) -> (r: bool)
        requires
            old(self).wf(),
        ensures
            final(self).wf(),
            r == old(self)@.waiters.contains(task_id),
            final(self)@ == (EventFlagsView { waiters: old(self)@.waiters.remove_value(task_id), ..old(self)@ }),
    {
        self.waiters.remove(task_id)
    }

    fn wait_attempt(&mut self, sched: &mut Scheduler, mask: u32, mode: WaitMode, clear_on_exit: bool, deadline: Option<Deadline>) -> (r: WaitStep<u32, ()>)
        requires
            old(self).wf(),
            old(sched).wf(),
            may_wait_flags(old(self)@, old(sched)@, mask, mode),
        ensures
            final(self).wf(),
            final(sched).wf(),
            (r, final(self)@, final(sched)@) == wait_attempt(old(self)@, old(sched)@, mask, mode, clear_on_exit, deadline),
    {
        if let Some(bits) = self.try_wait(mask, mode, clear_on_exit) {
            return WaitStep::Done(bits);
        }
        let current = match sched.current_task_id() {
            Some(c) => c,
            None => return WaitStep::Spin(()),
        };
        let _ = self.enqueue_waiter(current);
        match sched.block_current(TaskWaitKind::EventFlags, deadline) {
            Reschedule::Block(sw) => WaitStep::Switch(sw, ()),
            _ => WaitStep::Spin(()),
        }
    }

    /// Waits, blocking the running task until the flags match `mask` in
    /// `mode`: one step (see `WaitStep`). Done with the masked bits, which
    /// are cleared when `clear_on_exit` is set.
    pub fn wait(&mut self, sched: &mut Scheduler, mask: u32, mode: WaitMode, clear_on_exit: bool) -> (r: WaitStep<u32, ()>)
        requires
            old(self).wf(),
            old(sched).wf(),
            may_wait_flags(old(self)@, old(sched)@, mask, mode),
        ensures
            final(self).wf(),
            final(sched).wf(),
            (r, final(self)@, final(sched)@) == wait_attempt(old(self)@, old(sched)@, mask, mode, clear_on_exit, None),
    {
        self.wait_attempt(sched, mask, mode, clear_on_exit, None)
    }

    /// The next step of a `wait` once the task runs again after blocking for
    /// `reason`: woken by a `set`, it checks again; when it never blocked it
    /// first leaves the queue.
    pub fn wait_resume(&mut self, sched: &mut Scheduler, mask: u32, mode: WaitMode, clear_on_exit: bool, reason: TaskWakeReason) -> (r: WaitStep<u32, ()>)
        requires
            old(self).wf(),
            old(sched).wf(),
            old(sched)@.current is Some,
            reason == TaskWakeReason::EventFlags || reason == TaskWakeReason::NotWoken,
            reason == TaskWakeReason::EventFlags ==> may_wait_flags(old(self)@, old(sched)@, mask, mode),
            reason == TaskWakeReason::NotWoken ==> may_wait_flags(without_running(old(self)@, old(sched)@), old(sched)@, mask, mode),
        ensures
            final(self).wf(),
            final(sched).wf(),
            reason == TaskWakeReason::EventFlags ==> (r, final(self)@, final(sched)@) == wait_attempt(old(self)@, old(sched)@, mask, mode, clear_on_exit, None),
            reason == TaskWakeReason::NotWoken ==> (r, final(self)@, final(sched)@) == wait_attempt(
                without_running(old(self)@, old(sched)@),
                old(sched)@,
                mask,
                mode,
                clear_on_exit,
                None,
            ),
    {
        if reason == TaskWakeReason::NotWoken {
            if let Some(current) = sched.current_task_id() {
                self.remove_waiter(current);
            }
        }
        self.wait_attempt(sched, mask, mode, clear_on_exit, None)
    }

    /// Waits, blocking the running task until the flags match `mask` in
    /// `mode` or `deadline` passes: one step (see `WaitStep`). A deadline
    /// already reached only checks.
    pub fn wait_until(&mut self, sched: &mut Scheduler, mask: u32, mode: WaitMode, clear_on_exit: bool, deadline: Deadline) -> (r: WaitStep<Option<u32>, ()>)
        requires
            old(self).wf(),
            old(sched).wf(),
            !reached_at(deadline@, old(sched)@.ticks) ==> may_wait_flags(old(self)@, old(sched)@, mask, mode),
        ensures
            final(self).wf(),
            final(sched).wf(),
            reached_at(deadline@, old(sched)@.ticks) ==> {
                let (bits, e) = try_wait_spec(old(self)@, mask, mode, clear_on_exit);
                r == WaitStep::<Option<u32>, ()>::Done(bits) && final(self)@ == e && final(sched)@ == old(sched)@
            },
            !reached_at(deadline@, old(sched)@.ticks) ==> {
                let (st, e, v) = wait_attempt(old(self)@, old(sched)@, mask, mode, clear_on_exit, Some(deadline));
                r == timed_wait(st) && final(self)@ == e && final(sched)@ == v
            },
    {
        if deadline.is_reached(sched.tick_count()) {
            return WaitStep::Done(self.try_wait(mask, mode, clear_on_exit));
        }
        match self.wait_attempt(sched, mask, mode, clear_on_exit, Some(deadline)) {
            WaitStep::Done(b) => WaitStep::Done(Some(b)),
            WaitStep::Switch(sw, k) => WaitStep::Switch(sw, k),
            WaitStep::Spin(k) => WaitStep::Spin(k),
        }
    }

    /// The next step of a `wait_until` once the task runs again after
    /// blocking for `reason`: woken by a `set`, it checks again; timed out,
    /// it leaves the queue with nothing; when it never blocked it leaves the
    /// queue and checks again.
    pub fn wait_until_resume(&mut self, sched: &mut Scheduler, mask: u32, mode: WaitMode, clear_on_exit: bool, deadline: Deadline, reason: TaskWakeReason) -> (r: WaitStep<Option<u32>, ()>)
        requires
            old(self).wf(),
            old(sched).wf(),
            old(sched)@.current is Some,
            reason == TaskWakeReason::EventFlags || reason == TaskWakeReason::Timeout || reason == TaskWakeReason::NotWoken,
            reason == TaskWakeReason::EventFlags ==> may_wait_flags(old(self)@, old(sched)@, mask, mode),
            reason == TaskWakeReason::NotWoken ==> may_wait_flags(without_running(old(self)@, old(sched)@), old(sched)@, mask, mode),
        ensures
            final(self).wf(),
            final(sched).wf(),
            reason == TaskWakeReason::EventFlags ==> {
                let (st, e, v) = wait_attempt(old(self)@, old(sched)@, mask, mode, clear_on_exit, Some(deadline));
                r == timed_wait(st) && final(self)@ == e && final(sched)@ == v
            },
            reason == TaskWakeReason::Timeout ==> r == WaitStep::<Option<u32>, ()>::Done(None) && final(self)@
                == without_running(old(self)@, old(sched)@) && final(sched)@ == old(sched)@,
            reason == TaskWakeReason::NotWoken ==> {
                let (st, e, v) = wait_attempt(without_running(old(self)@, old(sched)@), old(sched)@, mask, mode, clear_on_exit, Some(deadline));
                r == timed_wait(st) && final(self)@ == e && final(sched)@ == v
            },
    {
        if reason != TaskWakeReason::EventFlags {
            if let Some(current) = sched.current_task_id() {
                self.remove_waiter(current);
            }
            if reason == TaskWakeReason::Timeout {
                return WaitStep::Done(None);
            }
        }
        match self.wait_attempt(sched, mask, mode, clear_on_exit, Some(deadline)) {
            WaitStep::Done(b) => WaitStep::Done(Some(b)),
            WaitStep::Switch(sw, k) => WaitStep::Switch(sw, k),
            WaitStep::Spin(k) => WaitStep::Spin(k),
        }
    }
}

} // verus!
