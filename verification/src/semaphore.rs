use vstd::prelude::*;
use crate::scheduler::{
    block_spec, has_room, parked, running_id, step_after_block, wake_outcome, Reschedule, Scheduler,
    SchedulerView, WaitStep, USER_TASKS,
};
use crate::task::{TaskId, TaskWaitKind, TaskWakeReason};
use crate::timer::{reached_at, Deadline};
use crate::waiters::WaitQueue;

verus! {

/// The plain values a binary semaphore holds.
pub struct BinarySemaphoreView {
    pub available: bool,
    pub waiters: Seq<TaskId>,
}

/// The plain values a counting semaphore holds.
pub struct CountingSemaphoreView {
    pub count: u32,
    pub max_count: u32,
    pub waiters: Seq<TaskId>,
}

/// A semaphore holding at most one token, with a FIFO queue of waiting tasks.
pub struct BinarySemaphore {
    available: bool,
    waiters: WaitQueue,
}

/// A semaphore holding up to `max_count` tokens, with a FIFO queue of
/// waiting tasks.
pub struct CountingSemaphore {
    count: u32,
    max_count: u32,
    waiters: WaitQueue,
}

/// The step a `take` reports for the step `st` of a timed take.
pub open spec fn untimed<K>(st: WaitStep<bool, K>) -> WaitStep<(), K> {
    match st {
        WaitStep::Done(_) => WaitStep::Done(()),
        WaitStep::Switch(sw, k) => WaitStep::Switch(sw, k),
        WaitStep::Spin(k) => WaitStep::Spin(k),
    }
}

/// One attempt to take from `s`: the token when one is available; otherwise
/// the running task of `v` joins the waiters and blocks until `deadline`.
pub open spec fn binary_attempt(s: BinarySemaphoreView, v: SchedulerView, deadline: Option<Deadline>) -> (WaitStep<bool, ()>, BinarySemaphoreView, SchedulerView) {
    if s.available {
        (WaitStep::Done(true), BinarySemaphoreView { available: false, ..s }, v)
    } else {
        let (rs, w) = block_spec(v, TaskWaitKind::Semaphore, deadline);
        (step_after_block(rs, ()), BinarySemaphoreView { waiters: parked(s.waiters, running_id(v)), ..s }, w)
    }
}

/// One attempt to take from `s`: a token when one is buffered; otherwise
/// the running task of `v` joins the waiters and blocks until `deadline`.
pub open spec fn counting_attempt(s: CountingSemaphoreView, v: SchedulerView, deadline: Option<Deadline>) -> (WaitStep<bool, ()>, CountingSemaphoreView, SchedulerView) {
    if s.count > 0 {
        (WaitStep::Done(true), CountingSemaphoreView { count: (s.count - 1) as u32, ..s }, v)
    } else {
        let (rs, w) = block_spec(v, TaskWaitKind::Semaphore, deadline);
        (step_after_block(rs, ()), CountingSemaphoreView { waiters: parked(s.waiters, running_id(v)), ..s }, w)
    }
}

/// Giving to `s`: the token goes to the oldest waiter, woken; with no
/// waiter the semaphore holds it, unless it already does.
pub open spec fn binary_give(s: BinarySemaphoreView, v: SchedulerView) -> (bool, BinarySemaphoreView, SchedulerView) {
    if s.waiters.len() > 0 {
        (true, BinarySemaphoreView { waiters: s.waiters.drop_first(), ..s }, wake_outcome(v, s.waiters[0], TaskWakeReason::Semaphore))
    } else if s.available {
        (false, s, v)
    } else {
        (true, BinarySemaphoreView { available: true, ..s }, v)
    }
}

/// Taking from `s` without blocking: the token, if available.
pub open spec fn binary_try_take(s: BinarySemaphoreView) -> (bool, BinarySemaphoreView) {
    (s.available, BinarySemaphoreView { available: false, ..s })
}

/// Giving to `s`: a token goes to the oldest waiter, woken; with no waiter
/// it is buffered, unless `max_count` already are.
pub open spec fn counting_give(s: CountingSemaphoreView, v: SchedulerView) -> (bool, CountingSemaphoreView, SchedulerView) {
    if s.waiters.len() > 0 {
        (true, CountingSemaphoreView { waiters: s.waiters.drop_first(), ..s }, wake_outcome(v, s.waiters[0], TaskWakeReason::Semaphore))
    } else if s.count >= s.max_count {
        (false, s, v)
    } else {
        (true, CountingSemaphoreView { count: (s.count + 1) as u32, ..s }, v)
    }
}

/// Taking from `s` without blocking: a buffered token, if any.
pub open spec fn counting_try_take(s: CountingSemaphoreView) -> (bool, CountingSemaphoreView) {
    if s.count > 0 {
        (true, CountingSemaphoreView { count: (s.count - 1) as u32, ..s })
    } else {
        (false, s)
    }
}

/// A binary semaphore holds at most one token: with no waiter, a give to a
/// semaphore that was just given to is refused; a take after a give gets the
/// token and leaves the semaphore as before the give.
pub proof fn lemma_binary_single_token(s: BinarySemaphoreView, v: SchedulerView)
    requires
        s.waiters.len() == 0,
        !s.available,
    ensures
        binary_give(s, v).0,
        !binary_give(binary_give(s, v).1, binary_give(s, v).2).0,
        binary_try_take(binary_give(s, v).1) == (true, s),
{
}

/// A give with a waiter hands the token straight to the oldest waiter: the
/// semaphore does not become available, so no other task can take it.
pub proof fn lemma_give_hands_token_to_oldest(s: BinarySemaphoreView, v: SchedulerView)
    requires
        s.waiters.len() > 0,
    ensures
        binary_give(s, v).1.available == s.available,
        binary_give(s, v).1.waiters == s.waiters.drop_first(),
        binary_give(s, v).2 == wake_outcome(v, s.waiters[0], TaskWakeReason::Semaphore),
{
}

/// Gives wake waiters in the order they started waiting: when `a` and then
/// `b` queue on a semaphore with no waiter, the first give wakes `a` and the
/// second `b`.
pub proof fn lemma_gives_wake_in_queue_order(s: BinarySemaphoreView, v: SchedulerView, w: SchedulerView, a: TaskId, b: TaskId)
    requires
        s.waiters.len() == 0,
        a != b,
    ensures
        ({
            let queued = BinarySemaphoreView { waiters: parked(parked(s.waiters, a), b), ..s };
            let (r1, s1, v1) = binary_give(queued, v);
            let (r2, s2, w1) = binary_give(s1, w);
            &&& r1 && v1 == wake_outcome(v, a, TaskWakeReason::Semaphore)
            &&& r2 && w1 == wake_outcome(w, b, TaskWakeReason::Semaphore)
            &&& s2.waiters.len() == 0
            &&& s2.available == s.available
        }),
{
    let q = parked(parked(s.waiters, a), b);
    assert(parked(s.waiters, a) =~= seq![a]);
    assert(q =~= seq![a, b]);
    assert(q.drop_first() =~= seq![b]);
}

/// With no waiter, a give that is accepted followed by a take returns the
/// counting semaphore to where it was; at `max_count` tokens a give is refused.
pub proof fn lemma_counting_give_take(s: CountingSemaphoreView, v: SchedulerView)
    requires
        s.waiters.len() == 0,
        s.count <= s.max_count,
    ensures
        s.count < s.max_count ==> counting_roundtrip(s, v),
        s.count == s.max_count ==> counting_give(s, v) == (false, s, v),
        counting_give(s, v).1.count <= s.max_count,
{
}

/// A take of a binary semaphore succeeds exactly when the token is there,
/// and then consumes it: the semaphore is no longer available, no one else
/// is affected, and a second take with no give in between does not succeed.
/// A take that finds no token joins the waiters and does not finish. The
/// same holds of a take that does not block.
pub proof fn lemma_take_consumes_token(s: BinarySemaphoreView, v: SchedulerView, deadline: Option<Deadline>)
    ensures
        ({
            let (st, s1, v1) = binary_attempt(s, v, deadline);
            &&& s.available ==> {
                &&& st == WaitStep::<bool, ()>::Done(true)
                &&& !s1.available
                &&& s1.waiters == s.waiters
                &&& v1 == v
                &&& !(binary_attempt(s1, v1, deadline).0 is Done)
            }
            &&& !s.available ==> !(st is Done) && !s1.available
        }),
        binary_try_take(s).0 == s.available,
        !binary_try_take(s).1.available,
        binary_try_take(s).1.waiters == s.waiters,
        !binary_try_take(binary_try_take(s).1).0,
{
}

/// A take of a counting semaphore succeeds exactly when a token is
/// buffered, and then consumes exactly one: the count drops by one and
/// nothing else changes. A take that finds none does not finish and leaves
/// the count at zero. The same holds of a take that does not block.
pub proof fn lemma_counting_take_consumes_one(s: CountingSemaphoreView, v: SchedulerView, deadline: Option<Deadline>)
    ensures
        ({
            let (st, s1, v1) = counting_attempt(s, v, deadline);
            &&& s.count > 0 ==> {
                &&& st == WaitStep::<bool, ()>::Done(true)
                &&& s1.count + 1 == s.count
                &&& s1.max_count == s.max_count
                &&& s1.waiters == s.waiters
                &&& v1 == v
            }
            &&& s.count == 0 ==> !(st is Done) && s1.count == 0 && s1.max_count == s.max_count
        }),
        counting_try_take(s).0 <==> s.count > 0,
        counting_try_take(s).1.count + (if counting_try_take(s).0 { 1int } else { 0int }) == s.count,
        counting_try_take(s).1.max_count == s.max_count,
        counting_try_take(s).1.waiters == s.waiters,
{
}

/// A give to a counting semaphore with waiters hands the token straight to
/// the oldest waiter, which leaves the queue and is woken with the reason
/// `Semaphore`; the count does not change, so no other task can take the
/// token. With no waiter the count rises by one, unless it is at its maximum.
pub proof fn lemma_counting_give_hands_token_to_oldest(s: CountingSemaphoreView, v: SchedulerView)
    ensures
        ({
            let (ok, s1, v1) = counting_give(s, v);
            &&& s.waiters.len() > 0 ==> ok && s1.count == s.count && s1.max_count == s.max_count
                && s1.waiters == s.waiters.drop_first() && v1 == wake_outcome(v, s.waiters[0], TaskWakeReason::Semaphore)
            &&& s.waiters.len() == 0 && s.count < s.max_count ==> ok && s1.count == s.count + 1 && s1.waiters == s.waiters && v1 == v
            &&& s.waiters.len() == 0 && s.count >= s.max_count ==> !ok && s1 == s && v1 == v
        }),
{
}

/// A give followed by a take leaves `s` as it was, both succeeding.
pub open spec fn counting_roundtrip(s: CountingSemaphoreView, v: SchedulerView) -> bool {
    &&& counting_give(s, v).0
    &&& counting_try_take(counting_give(s, v).1) == (true, s)
}

impl View for BinarySemaphore {
    type V = BinarySemaphoreView;

    closed spec fn view(&self) -> BinarySemaphoreView {
        BinarySemaphoreView { available: self.available, waiters: self.waiters@ }
    }
}

impl View for CountingSemaphore {
    type V = CountingSemaphoreView;

    closed spec fn view(&self) -> CountingSemaphoreView {
        CountingSemaphoreView { count: self.count, max_count: self.max_count, waiters: self.waiters@ }
    }
}

impl BinarySemaphore {
    /// The waiter queue is well formed.
    pub closed spec fn wf(&self) -> bool {
        self.waiters.wf()
    }

    /// The queue of waiting tasks.
    pub fn waiters(&self) -> (r: &WaitQueue)
        requires
            self.wf(),
        ensures
            r.wf(),
            r@ == self@.waiters,
    {
        &self.waiters
    }

    /// A semaphore with or without its token and no waiters.
    pub fn new(initially_available: bool) -> (r: Self)
        ensures
            r.wf(),
            r@.available == initially_available,
            r@.waiters == Seq::<TaskId>::empty(),
    {
        BinarySemaphore { available: initially_available, waiters: WaitQueue::new() }
    }

    /// Whether the semaphore holds its token.
    pub fn is_available(&self) -> (r: bool)
        ensures
            r == self@.available,
    {
        self.available
    }

    /// Takes the token if it is available.
    pub fn try_take(&mut self) -> (r: bool)
        requires
            old(self).wf(),
        ensures
            final(self).wf(),
            (r, final(self)@) == binary_try_take(old(self)@),
    {
        if self.available {
            self.available = false;
            true
        } else {
            false
        }
    }

    fn enqueue_waiter(&mut self, task_id: TaskId) -> (r: Result<(), ()>)
        requires
            old(self).wf(),
        ensures
            final(self).wf(),
            final(self)@.available == old(self)@.available,
            old(self)@.waiters.contains(task_id) || old(self)@.waiters.len() < USER_TASKS ==> r is Ok
                && final(self)@.waiters == parked(old(self)@.waiters, task_id),
    {
        self.waiters.enqueue(task_id)
    }

    fn dequeue_waiter(&mut self) -> (r: Option<TaskId>)
        requires
            old(self).wf(),
        ensures
            final(self).wf(),
            final(self)@.available == old(self)@.available,
            old(self)@.waiters.len() == 0 ==> r is None && final(self)@ == old(self)@,
            old(self)@.waiters.len() > 0 ==> r == Some(old(self)@.waiters[0]) && final(self)@.waiters == old(self)@.waiters.drop_first(),
    {
        self.waiters.dequeue()
    }

    fn remove_waiter(&mut self, task_id: TaskId) -> (r: bool)
        requires
            old(self).wf(),
        ensures
            final(self).wf(),
            r == old(self)@.waiters.contains(task_id),
            final(self)@ == (BinarySemaphoreView { waiters: old(self)@.waiters.remove_value(task_id), ..old(self)@ }),
    {
        self.waiters.remove(task_id)
    }

    fn take_attempt(&mut self, sched: &mut Scheduler, deadline: Option<Deadline>) -> (r: WaitStep<bool, ()>)
        requires
            old(self).wf(),
            old(sched).wf(),
            !old(self)@.available ==> old(sched)@.current is Some && has_room(old(self)@.waiters, old(sched)@),
        ensures
            final(self).wf(),
            final(sched).wf(),
            (r, final(self)@, final(sched)@) == binary_attempt(old(self)@, old(sched)@, deadline),
    {
        if self.try_take() {
            return WaitStep::Done(true);
        }
        let current = match sched.current_task_id() {
            Some(c) => c,
            None => return WaitStep::Spin(()),
        };
        let _ = self.enqueue_waiter(current);
        match sched.block_current(TaskWaitKind::Semaphore, deadline) {
            Reschedule::Block(sw) => WaitStep::Switch(sw, ()),
            _ => WaitStep::Spin(()),
        }
    }

    /// Takes the token, blocking the running task until a `give` hands it
    /// over: one step of the take (see `WaitStep`).
    pub fn take(&mut self, sched: &mut Scheduler) -> (r: WaitStep<(), ()>)
        requires
            old(self).wf(),
            old(sched).wf(),
            !old(self)@.available ==> old(sched)@.current is Some && has_room(old(self)@.waiters, old(sched)@),
        ensures
            final(self).wf(),
            final(sched).wf(),
            ({
                let (st, s, v) = binary_attempt(old(self)@, old(sched)@, None);
                r == untimed(st) && final(self)@ == s && final(sched)@ == v
            }),
    {
        match self.take_attempt(sched, None) {
            WaitStep::Done(_) => WaitStep::Done(()),
            WaitStep::Switch(sw, k) => WaitStep::Switch(sw, k),
            WaitStep::Spin(k) => WaitStep::Spin(k),
        }
    }

    /// The next step of a `take` once the task runs again after blocking
    /// for `reason`: handed the token by a `give`, it is done; when it never
    /// blocked it leaves the queue and tries again.
    pub fn take_resume(&mut self, sched: &mut Scheduler, reason: TaskWakeReason) -> (r: WaitStep<(), ()>)
        requires
            old(self).wf(),
            old(sched).wf(),
            old(sched)@.current is Some,
            reason == TaskWakeReason::Semaphore || reason == TaskWakeReason::NotWoken,
            reason == TaskWakeReason::NotWoken && !old(self)@.available ==> has_room(
                old(self)@.waiters.remove_value(running_id(old(sched)@)),
                old(sched)@,
            ),
        ensures
            final(self).wf(),
            final(sched).wf(),
            reason == TaskWakeReason::Semaphore ==> r == WaitStep::<(), ()>::Done(()) && final(self)@ == old(self)@
                && final(sched)@ == old(sched)@,
            reason == TaskWakeReason::NotWoken ==> {
                let s1 = BinarySemaphoreView { waiters: old(self)@.waiters.remove_value(running_id(old(sched)@)), ..old(self)@ };
                let (st, s, v) = binary_attempt(s1, old(sched)@, None);
                r == untimed(st) && final(self)@ == s && final(sched)@ == v
            },
    {
        if reason == TaskWakeReason::Semaphore {
            return WaitStep::Done(());
        }
        let current = match sched.current_task_id() {
            Some(c) => c,
            None => return WaitStep::Spin(()),
        };
        self.remove_waiter(current);
        self.take(sched)
    }

    /// Takes the token, blocking the running task until `deadline`: one step
    /// (see `WaitStep`). A deadline already reached only tries.
    pub fn take_until(&mut self, sched: &mut Scheduler, deadline: Deadline) -> (r: WaitStep<bool, ()>)
        requires
            old(self).wf(),
            old(sched).wf(),
            !reached_at(deadline@, old(sched)@.ticks) && !old(self)@.available ==> old(sched)@.current is Some
                && has_room(old(self)@.waiters, old(sched)@),
        ensures
            final(self).wf(),
            final(sched).wf(),
            reached_at(deadline@, old(sched)@.ticks) ==> r == WaitStep::<bool, ()>::Done(old(self)@.available)
                && final(self)@ == (BinarySemaphoreView { available: false, ..old(self)@ }) && final(sched)@ == old(sched)@,
            !reached_at(deadline@, old(sched)@.ticks) ==> (r, final(self)@, final(sched)@) == binary_attempt(
                old(self)@,
                old(sched)@,
                Some(deadline),
            ),
    {
        if deadline.is_reached(sched.tick_count()) {
            return WaitStep::Done(self.try_take());
        }
        self.take_attempt(sched, Some(deadline))
    }

    /// The next step of a `take_until` once the task runs again after
    /// blocking for `reason`: handed the token, it succeeds; timed out, it
    /// leaves the queue and fails; when it never blocked it leaves the queue
    /// and tries again.
    pub fn take_until_resume(&mut self, sched: &mut Scheduler, deadline: Deadline, reason: TaskWakeReason) -> (r: WaitStep<bool, ()>)
        requires
            old(self).wf(),
            old(sched).wf(),
            old(sched)@.current is Some,
            reason == TaskWakeReason::Semaphore || reason == TaskWakeReason::Timeout || reason == TaskWakeReason::NotWoken,
            reason == TaskWakeReason::NotWoken && !old(self)@.available ==> has_room(
                old(self)@.waiters.remove_value(running_id(old(sched)@)),
                old(sched)@,
            ),
        ensures
            final(self).wf(),
            final(sched).wf(),
            reason == TaskWakeReason::Semaphore ==> r == WaitStep::<bool, ()>::Done(true) && final(self)@ == old(self)@
                && final(sched)@ == old(sched)@,
            reason == TaskWakeReason::Timeout ==> r == WaitStep::<bool, ()>::Done(false) && final(self)@
                == (BinarySemaphoreView { waiters: old(self)@.waiters.remove_value(running_id(old(sched)@)), ..old(self)@ })
                && final(sched)@ == old(sched)@,
            reason == TaskWakeReason::NotWoken ==> (r, final(self)@, final(sched)@) == binary_attempt(
                BinarySemaphoreView { waiters: old(self)@.waiters.remove_value(running_id(old(sched)@)), ..old(self)@ },
                old(sched)@,
                Some(deadline),
            ),
    {
        if reason == TaskWakeReason::Semaphore {
            return WaitStep::Done(true);
        }
        let current = match sched.current_task_id() {
            Some(c) => c,
            None => return WaitStep::Spin(()),
        };
        self.remove_waiter(current);
        if reason == TaskWakeReason::Timeout {
            return WaitStep::Done(false);
        }
        self.take_attempt(sched, Some(deadline))
    }

    /// Releases the token: straight to the oldest waiter, woken, when there
    /// is one; otherwise the semaphore holds it. False, changing nothing,
    /// when the token is already held.
    pub fn give(&mut self, sched: &mut Scheduler) -> (r: bool)
        requires
            old(self).wf(),
            old(sched).wf(),
        ensures
            final(self).wf(),
            final(sched).wf(),
            (r, final(self)@, final(sched)@) == binary_give(old(self)@, old(sched)@),
    {
        if let Some(task_id) = self.dequeue_waiter() {
            sched.wake_task(task_id, TaskWakeReason::Semaphore);
            true
        } else if self.available {
            false
        } else {
            self.available = true;
            true
        }
    }
}

impl CountingSemaphore {
    /// The waiter queue is well formed and the count within its maximum.
    pub closed spec fn wf(&self) -> bool {
        self.waiters.wf() && self.count <= self.max_count
    }

    /// The count never exceeds the maximum.
    pub proof fn lemma_count_bounded(&self)
        requires
            self.wf(),
        ensures
            self@.count <= self@.max_count,
    {
    }

    /// The queue of waiting tasks.
    pub fn waiters(&self) -> (r: &WaitQueue)
        requires
            self.wf(),
        ensures
            r.wf(),
            r@ == self@.waiters,
    {
        &self.waiters
    }

    /// A semaphore with `initial_count` tokens, clamped to `max_count`, and
    /// no waiters.
    pub fn new(initial_count: u32, max_count: u32) -> (r: Self)
        ensures
            r.wf(),
            r@.count == if initial_count < max_count { initial_count } else { max_count },
            r@.max_count == max_count,
            r@.waiters == Seq::<TaskId>::empty(),
    {
        let count = if initial_count < max_count {
            initial_count
        } else {
            max_count
        };
        CountingSemaphore { count, max_count, waiters: WaitQueue::new() }
    }

    /// Takes a buffered token, if any.
    pub fn try_take(&mut self) -> (r: bool)
        requires
            old(self).wf(),
        ensures
            final(self).wf(),
            (r, final(self)@) == counting_try_take(old(self)@),
    {
        if self.count > 0 {
            self.count = self.count - 1;
            true
        } else {
            false
        }
    }

    /// The number of buffered tokens.
    pub fn count(&self) -> (r: u32)
        ensures
            r == self@.count,
    {
        self.count
    }

    fn enqueue_waiter(&mut self, task_id: TaskId) -> (r: Result<(), ()>)
        requires
            old(self).wf(),
        ensures
            final(self).wf(),
            final(self)@.count == old(self)@.count,
            final(self)@.max_count == old(self)@.max_count,
            old(self)@.waiters.contains(task_id) || old(self)@.waiters.len() < USER_TASKS ==> r is Ok
                && final(self)@.waiters == parked(old(self)@.waiters, task_id),
    {
        self.waiters.enqueue(task_id)
    }

    fn dequeue_waiter(&mut self) -> (r: Option<TaskId>)
        requires
            old(self).wf(),
        ensures
            final(self).wf(),
            final(self)@.count == old(self)@.count,
            final(self)@.max_count == old(self)@.max_count,
            old(self)@.waiters.len() == 0 ==> r is None && final(self)@ == old(self)@,
            old(self)@.waiters.len() > 0 ==> r == Some(old(self)@.waiters[0]) && final(self)@.waiters == old(self)@.waiters.drop_first(),
    {
        self.waiters.dequeue()
    }

    fn remove_waiter(&mut self, task_id: TaskId) -> (r: bool)
        requires
            old(self).wf(),
        ensures
            final(self).wf(),
            r == old(self)@.waiters.contains(task_id),
            final(self)@ == (CountingSemaphoreView { waiters: old(self)@.waiters.remove_value(task_id), ..old(self)@ }),
    {
        self.waiters.remove(task_id)
    }

    fn take_attempt(&mut self, sched: &mut Scheduler, deadline: Option<Deadline>) -> (r: WaitStep<bool, ()>)
        requires
            old(self).wf(),
            old(sched).wf(),
            old(self)@.count == 0 ==> old(sched)@.current is Some && has_room(old(self)@.waiters, old(sched)@),
        ensures
            final(self).wf(),
            final(sched).wf(),
            (r, final(self)@, final(sched)@) == counting_attempt(old(self)@, old(sched)@, deadline),
    {
        if self.try_take() {
            return WaitStep::Done(true);
        }
        let current = match sched.current_task_id() {
            Some(c) => c,
            None => return WaitStep::Spin(()),
        };
        let _ = self.enqueue_waiter(current);
        match sched.block_current(TaskWaitKind::Semaphore, deadline) {
            Reschedule::Block(sw) => WaitStep::Switch(sw, ()),
            _ => WaitStep::Spin(()),
        }
    }

    /// Takes a token, blocking the running task until a `give` hands one
    /// over: one step of the take (see `WaitStep`).
    pub fn take(&mut self, sched: &mut Scheduler) -> (r: WaitStep<(), ()>)
        requires
            old(self).wf(),
            old(sched).wf(),
            old(self)@.count == 0 ==> old(sched)@.current is Some && has_room(old(self)@.waiters, old(sched)@),
        ensures
            final(self).wf(),
            final(sched).wf(),
            ({
                let (st, s, v) = counting_attempt(old(self)@, old(sched)@, None);
                r == untimed(st) && final(self)@ == s && final(sched)@ == v
            }),
    {
        match self.take_attempt(sched, None) {
            WaitStep::Done(_) => WaitStep::Done(()),
            WaitStep::Switch(sw, k) => WaitStep::Switch(sw, k),
            WaitStep::Spin(k) => WaitStep::Spin(k),
        }
    }

    /// The next step of a `take` once the task runs again after blocking
    /// for `reason`: handed a token by a `give`, it is done; when it never
    /// blocked it leaves the queue and tries again.
    pub fn take_resume(&mut self, sched: &mut Scheduler, reason: TaskWakeReason) -> (r: WaitStep<(), ()>)
        requires
            old(self).wf(),
            old(sched).wf(),
            old(sched)@.current is Some,
            reason == TaskWakeReason::Semaphore || reason == TaskWakeReason::NotWoken,
            reason == TaskWakeReason::NotWoken && old(self)@.count == 0 ==> has_room(
                old(self)@.waiters.remove_value(running_id(old(sched)@)),
                old(sched)@,
            ),
        ensures
            final(self).wf(),
            final(sched).wf(),
            reason == TaskWakeReason::Semaphore ==> r == WaitStep::<(), ()>::Done(()) && final(self)@ == old(self)@
                && final(sched)@ == old(sched)@,
            reason == TaskWakeReason::NotWoken ==> {
                let s1 = CountingSemaphoreView { waiters: old(self)@.waiters.remove_value(running_id(old(sched)@)), ..old(self)@ };
                let (st, s, v) = counting_attempt(s1, old(sched)@, None);
                r == untimed(st) && final(self)@ == s && final(sched)@ == v
            },
    {
        if reason == TaskWakeReason::Semaphore {
            return WaitStep::Done(());
        }
        let current = match sched.current_task_id() {
            Some(c) => c,
            None => return WaitStep::Spin(()),
        };
        self.remove_waiter(current);
        self.take(sched)
    }

    /// Takes a token, blocking the running task until `deadline`: one step
    /// (see `WaitStep`). A deadline already reached only tries.
    pub fn take_until(&mut self, sched: &mut Scheduler, deadline: Deadline) -> (r: WaitStep<bool, ()>)
        requires
            old(self).wf(),
            old(sched).wf(),
            !reached_at(deadline@, old(sched)@.ticks) && old(self)@.count == 0 ==> old(sched)@.current is Some
                && has_room(old(self)@.waiters, old(sched)@),
        ensures
            final(self).wf(),
            final(sched).wf(),
            reached_at(deadline@, old(sched)@.ticks) ==> r == WaitStep::<bool, ()>::Done(old(self)@.count > 0)
                && final(self)@ == (if old(self)@.count > 0 {
                    CountingSemaphoreView { count: (old(self)@.count - 1) as u32, ..old(self)@ }
                } else {
                    old(self)@
                }) && final(sched)@ == old(sched)@,
            !reached_at(deadline@, old(sched)@.ticks) ==> (r, final(self)@, final(sched)@) == counting_attempt(
                old(self)@,
                old(sched)@,
                Some(deadline),
            ),
    {
        if deadline.is_reached(sched.tick_count()) {
            return WaitStep::Done(self.try_take());
        }
        self.take_attempt(sched, Some(deadline))
    }

    /// The next step of a `take_until` once the task runs again after
    /// blocking for `reason`: handed a token, it succeeds; timed out, it
    /// leaves the queue and fails; when it never blocked it leaves the queue
    /// and tries again.
    pub fn take_until_resume(&mut self, sched: &mut Scheduler, deadline: Deadline, reason: TaskWakeReason) -> (r: WaitStep<bool, ()>)
        requires
            old(self).wf(),
            old(sched).wf(),
            old(sched)@.current is Some,
            reason == TaskWakeReason::Semaphore || reason == TaskWakeReason::Timeout || reason == TaskWakeReason::NotWoken,
            reason == TaskWakeReason::NotWoken && old(self)@.count == 0 ==> has_room(
                old(self)@.waiters.remove_value(running_id(old(sched)@)),
                old(sched)@,
            ),
        ensures
            final(self).wf(),
            final(sched).wf(),
            reason == TaskWakeReason::Semaphore ==> r == WaitStep::<bool, ()>::Done(true) && final(self)@ == old(self)@
                && final(sched)@ == old(sched)@,
            reason == TaskWakeReason::Timeout ==> r == WaitStep::<bool, ()>::Done(false) && final(self)@
                == (CountingSemaphoreView { waiters: old(self)@.waiters.remove_value(running_id(old(sched)@)), ..old(self)@ })
                && final(sched)@ == old(sched)@,
            reason == TaskWakeReason::NotWoken ==> (r, final(self)@, final(sched)@) == counting_attempt(
                CountingSemaphoreView { waiters: old(self)@.waiters.remove_value(running_id(old(sched)@)), ..old(self)@ },
                old(sched)@,
                Some(deadline),
            ),
    {
        if reason == TaskWakeReason::Semaphore {
            return WaitStep::Done(true);
        }
        let current = match sched.current_task_id() {
            Some(c) => c,
            None => return WaitStep::Spin(()),
        };
        self.remove_waiter(current);
        if reason == TaskWakeReason::Timeout {
            return WaitStep::Done(false);
        }
        self.take_attempt(sched, Some(deadline))
    }

    /// Releases a token: straight to the oldest waiter, woken, when there is
    /// one; otherwise buffered. False, changing nothing, when `max_count`
    /// tokens are already buffered.
    pub fn give(&mut self, sched: &mut Scheduler) -> (r: bool)
        requires
            old(self).wf(),
            old(sched).wf(),
        ensures
            final(self).wf(),
            final(sched).wf(),
            (r, final(self)@, final(sched)@) == counting_give(old(self)@, old(sched)@),
    {
        if let Some(task_id) = self.dequeue_waiter() {
            sched.wake_task(task_id, TaskWakeReason::Semaphore);
            true
        } else if self.count >= self.max_count {
            false
        } else {
            self.count = self.count + 1;
            true
        }
    }
}

} // verus!
