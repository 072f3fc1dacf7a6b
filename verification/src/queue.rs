use vstd::prelude::*;
use crate::ring_buffer::RingBuffer;
use crate::scheduler::{
    block_spec, has_room, parked, running_id, step_after_block, wake_outcome, Reschedule, Scheduler,
    SchedulerView, WaitStep,
};
use crate::task::{TaskId, TaskWaitKind, TaskWakeReason};
use crate::timer::{reached_at, Deadline};
use crate::waiters::WaitQueue;

verus! {

/// The plain values a message queue holds.
pub struct MessageQueueView<T> {
    pub messages: Seq<T>,
    pub send_waiters: Seq<TaskId>,
    pub recv_waiters: Seq<TaskId>,
}

/// A fixed-capacity FIFO of up to `N` messages, with FIFO queues of tasks
/// waiting to send and to receive.
pub struct MessageQueue<T, const N: usize> {
    buffer: RingBuffer<T, N>,
    send_waiters: WaitQueue,
    recv_waiters: WaitQueue,
}

/// `v` after waking the oldest task of `ids`, if any, for `reason`.
pub open spec fn wake_first(v: SchedulerView, ids: Seq<TaskId>, reason: TaskWakeReason) -> SchedulerView {
    if ids.len() > 0 {
        wake_outcome(v, ids[0], reason)
    } else {
        v
    }
}

/// `ids` without its oldest task, if any.
pub open spec fn without_first(ids: Seq<TaskId>) -> Seq<TaskId> {
    if ids.len() > 0 {
        ids.drop_first()
    } else {
        ids
    }
}

/// Sending `value` without blocking: with room it is appended and one
/// waiting receiver woken.
pub open spec fn try_send_spec<T>(q: MessageQueueView<T>, v: SchedulerView, value: T, cap: nat) -> (bool, MessageQueueView<T>, SchedulerView) {
    if q.messages.len() < cap {
        (
            true,
            MessageQueueView { messages: q.messages.push(value), recv_waiters: without_first(q.recv_waiters), ..q },
            wake_first(v, q.recv_waiters, TaskWakeReason::Queue),
        )
    } else {
        (false, q, v)
    }
}

/// Receiving without blocking: the oldest message, if any, leaves and one
/// waiting sender is woken.
pub open spec fn try_receive_spec<T>(q: MessageQueueView<T>, v: SchedulerView) -> (Option<T>, MessageQueueView<T>, SchedulerView) {
    if q.messages.len() > 0 {
        (
            Some(q.messages[0]),
            MessageQueueView { messages: q.messages.drop_first(), send_waiters: without_first(q.send_waiters), ..q },
            wake_first(v, q.send_waiters, TaskWakeReason::Queue),
        )
    } else {
        (None, q, v)
    }
}

/// A message sent to an empty queue is the next one received, after which
/// the queue is empty again; a send with room wakes the oldest waiting
/// receiver, and a receive of a message wakes the oldest waiting sender.
pub proof fn lemma_send_then_receive<T>(q: MessageQueueView<T>, v: SchedulerView, x: T, cap: nat)
    requires
        q.messages.len() == 0,
        cap > 0,
    ensures
        ({
            let (ok, q1, v1) = try_send_spec(q, v, x, cap);
            let (m, q2, v2) = try_receive_spec(q1, v1);
            &&& ok
            &&& v1 == wake_first(v, q.recv_waiters, TaskWakeReason::Queue)
            &&& m == Some(x)
            &&& q2.messages.len() == 0
            &&& v2 == wake_first(v1, q.send_waiters, TaskWakeReason::Queue)
        }),
{
}

/// One attempt to send `value`: sent when there is room; otherwise the
/// running task joins the senders and blocks until `deadline`, keeping `value`.
pub open spec fn send_attempt<T>(q: MessageQueueView<T>, v: SchedulerView, value: T, deadline: Option<Deadline>, cap: nat) -> (WaitStep<(), T>, MessageQueueView<T>, SchedulerView) {
    let (ok, q1, v1) = try_send_spec(q, v, value, cap);
    if ok {
        (WaitStep::Done(()), q1, v1)
    } else {
        let (rs, w) = block_spec(v, TaskWaitKind::QueueSend, deadline);
        (step_after_block(rs, value), MessageQueueView { send_waiters: parked(q.send_waiters, running_id(v)), ..q }, w)
    }
}

/// One attempt to receive: the oldest message when there is one; otherwise
/// the running task joins the receivers and blocks until `deadline`.
pub open spec fn receive_attempt<T>(q: MessageQueueView<T>, v: SchedulerView, deadline: Option<Deadline>) -> (WaitStep<T, ()>, MessageQueueView<T>, SchedulerView) {
    let (m, q1, v1) = try_receive_spec(q, v);
    match m {
        Some(x) => (WaitStep::Done(x), q1, v1),
        None => {
            let (rs, w) = block_spec(v, TaskWaitKind::QueueReceive, deadline);
            (step_after_block(rs, ()), MessageQueueView { recv_waiters: parked(q.recv_waiters, running_id(v)), ..q }, w)
        },
    }
}

/// A send finds room exactly when fewer than `cap` messages are queued. It
/// then finishes at once: the message goes behind every queued one, the
/// senders' queue is untouched, and the oldest waiting receiver, if any,
/// leaves its queue and is woken with the reason `Queue`; with no receiver
/// waiting the scheduler is untouched. A send to a full queue stores
/// nothing, does not finish, keeps the message for its next attempt and
/// leaves the receivers alone.
pub proof fn lemma_send_stores_and_wakes_receiver<T>(q: MessageQueueView<T>, v: SchedulerView, x: T, deadline: Option<Deadline>, cap: nat)
    ensures
        ({
            let (st, q1, v1) = send_attempt(q, v, x, deadline, cap);
            &&& q.messages.len() < cap ==> {
                &&& st == WaitStep::<(), T>::Done(())
                &&& q1.messages == q.messages.push(x)
                &&& q1.send_waiters == q.send_waiters
                &&& q.recv_waiters.len() > 0 ==> q1.recv_waiters == q.recv_waiters.drop_first()
                    && v1 == wake_outcome(v, q.recv_waiters[0], TaskWakeReason::Queue)
                &&& q.recv_waiters.len() == 0 ==> q1.recv_waiters == q.recv_waiters && v1 == v
            }
            &&& q.messages.len() >= cap ==> {
                &&& q1.messages == q.messages
                &&& q1.recv_waiters == q.recv_waiters
                &&& match st {
                    WaitStep::Done(_) => false,
                    WaitStep::Switch(_, k) => k == x,
                    WaitStep::Spin(k) => k == x,
                }
            }
        }),
        ({
            let (ok, q1, v1) = try_send_spec(q, v, x, cap);
            &&& ok <==> q.messages.len() < cap
            &&& ok ==> q1.messages == q.messages.push(x) && (q.recv_waiters.len() > 0 ==> q1.recv_waiters
                == q.recv_waiters.drop_first() && v1 == wake_outcome(v, q.recv_waiters[0], TaskWakeReason::Queue))
            &&& !ok ==> q1 == q && v1 == v
        }),
{
}

/// A receive finds a message exactly when one is queued. It then finishes
/// at once with the oldest message, which leaves the queue; the receivers'
/// queue is untouched, and the oldest waiting sender, if any, leaves its
/// queue and is woken with the reason `Queue`, however many messages are
/// left, since a slot is now free; with no sender waiting the scheduler is
/// untouched. A receive from an empty queue takes nothing, does not finish
/// and leaves the senders alone.
pub proof fn lemma_receive_takes_oldest_and_wakes_sender<T>(q: MessageQueueView<T>, v: SchedulerView, deadline: Option<Deadline>)
    ensures
        ({
            let (st, q1, v1) = receive_attempt(q, v, deadline);
            &&& q.messages.len() > 0 ==> {
                &&& st == WaitStep::<T, ()>::Done(q.messages[0])
                &&& q1.messages == q.messages.drop_first()
                &&& q1.recv_waiters == q.recv_waiters
                &&& q.send_waiters.len() > 0 ==> q1.send_waiters == q.send_waiters.drop_first()
                    && v1 == wake_outcome(v, q.send_waiters[0], TaskWakeReason::Queue)
                &&& q.send_waiters.len() == 0 ==> q1.send_waiters == q.send_waiters && v1 == v
            }
            &&& q.messages.len() == 0 ==> {
                &&& !(st is Done)
                &&& q1.messages == q.messages
                &&& q1.send_waiters == q.send_waiters
            }
        }),
        ({
            let (m, q1, v1) = try_receive_spec(q, v);
            &&& m is Some <==> q.messages.len() > 0
            &&& q.messages.len() > 0 ==> m == Some(q.messages[0]) && q1.messages == q.messages.drop_first()
                && (q.send_waiters.len() > 0 ==> q1.send_waiters == q.send_waiters.drop_first()
                    && v1 == wake_outcome(v, q.send_waiters[0], TaskWakeReason::Queue))
            &&& q.messages.len() == 0 ==> q1 == q && v1 == v
        }),
{
}

/// The step a timed send reports for the step `st` of an attempt.
pub open spec fn timed_send<T>(st: WaitStep<(), T>) -> WaitStep<Result<(), T>, T> {
    match st {
        WaitStep::Done(_) => WaitStep::Done(Ok(())),
        WaitStep::Switch(sw, k) => WaitStep::Switch(sw, k),
        WaitStep::Spin(k) => WaitStep::Spin(k),
    }
}

/// The step a timed receive reports for the step `st` of an attempt.
pub open spec fn timed_receive<T>(st: WaitStep<T, ()>) -> WaitStep<Option<T>, ()> {
    match st {
        WaitStep::Done(x) => WaitStep::Done(Some(x)),
        WaitStep::Switch(sw, k) => WaitStep::Switch(sw, k),
        WaitStep::Spin(k) => WaitStep::Spin(k),
    }
}

/// The running task of `v` may wait to send on `q`.
pub open spec fn may_wait_send<T>(q: MessageQueueView<T>, v: SchedulerView, cap: nat) -> bool {
    q.messages.len() >= cap ==> v.current is Some && has_room(q.send_waiters, v)
}

/// The running task of `v` may wait to receive on `q`.
pub open spec fn may_wait_receive<T>(q: MessageQueueView<T>, v: SchedulerView) -> bool {
    q.messages.len() == 0 ==> v.current is Some && has_room(q.recv_waiters, v)
}

impl<T, const N: usize> MessageQueue<T, N> {
    /// The queue's contents.
    pub closed spec fn view(&self) -> MessageQueueView<T> {
        MessageQueueView { messages: self.buffer.view(), send_waiters: self.send_waiters@, recv_waiters: self.recv_waiters@ }
    }

    /// The ring and both waiter queues are well formed.
    pub closed spec fn wf(&self) -> bool {
        self.buffer.wf() && self.send_waiters.wf() && self.recv_waiters.wf()
    }

    /// An empty queue with no waiters.
    pub fn new() -> (r: Self)
        ensures
            r.wf(),
            r.view() == (MessageQueueView::<T> {
                messages: Seq::empty(),
                send_waiters: Seq::empty(),
                recv_waiters: Seq::empty(),
            }),
    {
        MessageQueue { buffer: RingBuffer::new(), send_waiters: WaitQueue::new(), recv_waiters: WaitQueue::new() }
    }

    /// Number of messages held.
    pub fn len(&self) -> (r: usize)
        requires
            self.wf(),
        ensures
            r == self.view().messages.len(),
    {
        self.buffer.len()
    }

    /// Whether `N` messages are held.
    pub fn is_full(&self) -> (r: bool)
        requires
            self.wf(),
        ensures
            r == (self.view().messages.len() == N),
    {
        self.buffer.is_full()
    }

    /// The queue of tasks waiting to send.
    pub fn send_waiters(&self) -> (r: &WaitQueue)
        requires
            self.wf(),
        ensures
            r.wf(),
            r@ == self.view().send_waiters,
    {
        &self.send_waiters
    }

    /// The queue of tasks waiting to receive.
    pub fn recv_waiters(&self) -> (r: &WaitQueue)
        requires
            self.wf(),
        ensures
            r.wf(),
            r@ == self.view().recv_waiters,
    {
        &self.recv_waiters
    }

    fn wake_one_sender(&mut self, sched: &mut Scheduler)
        requires
            old(self).wf(),
            old(sched).wf(),
        ensures
            final(self).wf(),
            final(self).view() == (MessageQueueView { send_waiters: without_first(old(self).view().send_waiters), ..old(self).view() }),
            final(sched).wf(),
            final(sched)@ == wake_first(old(sched)@, old(self).view().send_waiters, TaskWakeReason::Queue),
    {
        if let Some(task_id) = self.send_waiters.dequeue() {
            sched.wake_task(task_id, TaskWakeReason::Queue);
        }
    }

    fn wake_one_receiver(&mut self, sched: &mut Scheduler)
        requires
            old(self).wf(),
            old(sched).wf(),
        ensures
            final(self).wf(),
            final(self).view() == (MessageQueueView { recv_waiters: without_first(old(self).view().recv_waiters), ..old(self).view() }),
            final(sched).wf(),
            final(sched)@ == wake_first(old(sched)@, old(self).view().recv_waiters, TaskWakeReason::Queue),
    {
        if let Some(task_id) = self.recv_waiters.dequeue() {
            sched.wake_task(task_id, TaskWakeReason::Queue);
        }
    }

    /// Sends `value` if there is room, waking one waiting receiver; a full
    /// queue hands `value` back.
    pub fn try_send(&mut self, sched: &mut Scheduler, value: T) -> (r: Result<(), T>)
        requires
            old(self).wf(),
            old(sched).wf(),
        ensures
            final(self).wf(),
            final(sched).wf(),
            ({
                let (ok, q, v) = try_send_spec(old(self).view(), old(sched)@, value, N as nat);
                &&& ok ==> r == Ok::<(), T>(())
                &&& !ok ==> r == Err::<(), T>(value)
                &&& final(self).view() == q
                &&& final(sched)@ == v
            }),
    {
        proof { self.buffer.lemma_len_bounded(); }
        let result = self.buffer.push(value);
        if result.is_ok() {
            self.wake_one_receiver(sched);
        }
        result
    }

    /// Receives the oldest message, if any, waking one waiting sender.
    pub fn try_receive(&mut self, sched: &mut Scheduler) -> (r: Option<T>)
        requires
            old(self).wf(),
            old(sched).wf(),
        ensures
            final(self).wf(),
            final(sched).wf(),
            (r, final(self).view(), final(sched)@) == try_receive_spec(old(self).view(), old(sched)@),
    {
        let value = self.buffer.pop();
        if value.is_some() {
            self.wake_one_sender(sched);
        }
        value
    }

    fn send_attempt(&mut self, sched: &mut Scheduler, value: T, deadline: Option<Deadline>) -> (r: WaitStep<(), T>)
        requires
            old(self).wf(),
            old(sched).wf(),
            may_wait_send(old(self).view(), old(sched)@, N as nat),
        ensures
            final(self).wf(),
            final(sched).wf(),
            (r, final(self).view(), final(sched)@) == send_attempt(old(self).view(), old(sched)@, value, deadline, N as nat),
    {
        let value = match self.try_send(sched, value) {
            Ok(()) => return WaitStep::Done(()),
            Err(returned) => returned,
        };
        let current = match sched.current_task_id() {
            Some(c) => c,
            None => return WaitStep::Spin(value),
        };
        let _ = self.send_waiters.enqueue(current);
        match sched.block_current(TaskWaitKind::QueueSend, deadline) {
            Reschedule::Block(sw) => WaitStep::Switch(sw, value),
            _ => WaitStep::Spin(value),
        }
    }

    fn receive_attempt(&mut self, sched: &mut Scheduler, deadline: Option<Deadline>) -> (r: WaitStep<T, ()>)
        requires
            old(self).wf(),
            old(sched).wf(),
            may_wait_receive(old(self).view(), old(sched)@),
        ensures
            final(self).wf(),
            final(sched).wf(),
            (r, final(self).view(), final(sched)@) == receive_attempt(old(self).view(), old(sched)@, deadline),
    {
        if let Some(value) = self.try_receive(sched) {
            return WaitStep::Done(value);
        }
        let current = match sched.current_task_id() {
            Some(c) => c,
            None => return WaitStep::Spin(()),
        };
        let _ = self.recv_waiters.enqueue(current);
        match sched.block_current(TaskWaitKind::QueueReceive, deadline) {
            Reschedule::Block(sw) => WaitStep::Switch(sw, ()),
            _ => WaitStep::Spin(()),
        }
    }

    /// Sends `value`, blocking the running task while the queue is full: one
    /// step (see `WaitStep`); a blocked step keeps `value`.
    pub fn send(&mut self, sched: &mut Scheduler, value: T) -> (r: WaitStep<(), T>)
        requires
            old(self).wf(),
            old(sched).wf(),
            may_wait_send(old(self).view(), old(sched)@, N as nat),
        ensures
            final(self).wf(),
            final(sched).wf(),
            (r, final(self).view(), final(sched)@) == send_attempt(old(self).view(), old(sched)@, value, None, N as nat),
    {
        self.send_attempt(sched, value, None)
    }

    /// The next step of a `send` of the kept `value` once the task runs again
    /// after blocking for `reason`: woken by a receive, it tries again; when
    /// it never blocked it first leaves the queue of senders.
    pub fn send_resume(&mut self, sched: &mut Scheduler, value: T, reason: TaskWakeReason) -> (r: WaitStep<(), T>)
        requires
            old(self).wf(),
            old(sched).wf(),
            old(sched)@.current is Some,
            reason == TaskWakeReason::Queue || reason == TaskWakeReason::NotWoken,
            reason == TaskWakeReason::Queue ==> may_wait_send(old(self).view(), old(sched)@, N as nat),
            reason == TaskWakeReason::NotWoken ==> may_wait_send(
                MessageQueueView { send_waiters: old(self).view().send_waiters.remove_value(running_id(old(sched)@)), ..old(self).view() },
                old(sched)@,
                N as nat,
            ),
        ensures
            final(self).wf(),
            final(sched).wf(),
            reason == TaskWakeReason::Queue ==> (r, final(self).view(), final(sched)@) == send_attempt(old(self).view(), old(sched)@, value, None, N as nat),
            reason == TaskWakeReason::NotWoken ==> (r, final(self).view(), final(sched)@) == send_attempt(
                MessageQueueView { send_waiters: old(self).view().send_waiters.remove_value(running_id(old(sched)@)), ..old(self).view() },
                old(sched)@,
                value,
                None,
                N as nat,
            ),
    {
        if reason == TaskWakeReason::NotWoken {
            if let Some(current) = sched.current_task_id() {
                self.send_waiters.remove(current);
            }
        }
        self.send_attempt(sched, value, None)
    }

    /// Sends `value`, blocking the running task while the queue is full
    /// until `deadline`: one step (see `WaitStep`). A deadline already
    /// reached only tries.
    pub fn send_until(&mut self, sched: &mut Scheduler, deadline: Deadline, value: T) -> (r: WaitStep<Result<(), T>, T>)
        requires
            old(self).wf(),
            old(sched).wf(),
            !reached_at(deadline@, old(sched)@.ticks) ==> may_wait_send(old(self).view(), old(sched)@, N as nat),
        ensures
            final(self).wf(),
            final(sched).wf(),
            reached_at(deadline@, old(sched)@.ticks) ==> {
                let (ok, q, v) = try_send_spec(old(self).view(), old(sched)@, value, N as nat);
                &&& ok ==> r == WaitStep::<Result<(), T>, T>::Done(Ok(()))
                &&& !ok ==> r == WaitStep::<Result<(), T>, T>::Done(Err(value))
                &&& final(self).view() == q
                &&& final(sched)@ == v
            },
            !reached_at(deadline@, old(sched)@.ticks) ==> {
                let (st, q, v) = send_attempt(old(self).view(), old(sched)@, value, Some(deadline), N as nat);
                r == timed_send(st) && final(self).view() == q && final(sched)@ == v
            },
    {
        if deadline.is_reached(sched.tick_count()) {
            return WaitStep::Done(self.try_send(sched, value));
        }
        match self.send_attempt(sched, value, Some(deadline)) {
            WaitStep::Done(()) => WaitStep::Done(Ok(())),
            WaitStep::Switch(sw, v) => WaitStep::Switch(sw, v),
            WaitStep::Spin(v) => WaitStep::Spin(v),
        }
    }

    /// The next step of a `send_until` of the kept `value` once the task runs
    /// again after blocking for `reason`: woken by a receive, it tries again;
    /// timed out, it leaves the senders and hands `value` back; when it never
    /// blocked it leaves the senders and tries again.
    pub fn send_until_resume(&mut self, sched: &mut Scheduler, deadline: Deadline, value: T, reason: TaskWakeReason) -> (r: WaitStep<Result<(), T>, T>)
        requires
            old(self).wf(),
            old(sched).wf(),
            old(sched)@.current is Some,
            reason == TaskWakeReason::Queue || reason == TaskWakeReason::Timeout || reason == TaskWakeReason::NotWoken,
            reason == TaskWakeReason::Queue ==> may_wait_send(old(self).view(), old(sched)@, N as nat),
            reason == TaskWakeReason::NotWoken ==> may_wait_send(
                MessageQueueView { send_waiters: old(self).view().send_waiters.remove_value(running_id(old(sched)@)), ..old(self).view() },
                old(sched)@,
                N as nat,
            ),
        ensures
            final(self).wf(),
            final(sched).wf(),
            reason == TaskWakeReason::Queue ==> {
                let (st, q, v) = send_attempt(old(self).view(), old(sched)@, value, Some(deadline), N as nat);
                r == timed_send(st) && final(self).view() == q && final(sched)@ == v
            },
            reason == TaskWakeReason::Timeout ==> r == WaitStep::<Result<(), T>, T>::Done(Err(value)) && final(self).view()
                == (MessageQueueView { send_waiters: old(self).view().send_waiters.remove_value(running_id(old(sched)@)), ..old(self).view() })
                && final(sched)@ == old(sched)@,
            reason == TaskWakeReason::NotWoken ==> {
                let (st, q, v) = send_attempt(
                    MessageQueueView { send_waiters: old(self).view().send_waiters.remove_value(running_id(old(sched)@)), ..old(self).view() },
                    old(sched)@,
                    value,
                    Some(deadline),
                    N as nat,
                );
                r == timed_send(st) && final(self).view() == q && final(sched)@ == v
            },
    {
        if reason != TaskWakeReason::Queue {
            if let Some(current) = sched.current_task_id() {
                self.send_waiters.remove(current);
            }
            if reason == TaskWakeReason::Timeout {
                return WaitStep::Done(Err(value));
            }
        }
        match self.send_attempt(sched, value, Some(deadline)) {
            WaitStep::Done(()) => WaitStep::Done(Ok(())),
            WaitStep::Switch(sw, v) => WaitStep::Switch(sw, v),
            WaitStep::Spin(v) => WaitStep::Spin(v),
        }
    }

    /// Receives the oldest message, blocking the running task while the
    /// queue is empty: one step (see `WaitStep`).
    pub fn receive(&mut self, sched: &mut Scheduler) -> (r: WaitStep<T, ()>)
        requires
            old(self).wf(),
            old(sched).wf(),
            may_wait_receive(old(self).view(), old(sched)@),
        ensures
            final(self).wf(),
            final(sched).wf(),
            (r, final(self).view(), final(sched)@) == receive_attempt(old(self).view(), old(sched)@, None),
    {
        self.receive_attempt(sched, None)
    }

    /// The next step of a `receive` once the task runs again after blocking
    /// for `reason`: woken by a send, it tries again; when it never blocked
    /// it first leaves the queue of receivers.
    pub fn receive_resume(&mut self, sched: &mut Scheduler, reason: TaskWakeReason) -> (r: WaitStep<T, ()>)
        requires
            old(self).wf(),
            old(sched).wf(),
            old(sched)@.current is Some,
            reason == TaskWakeReason::Queue || reason == TaskWakeReason::NotWoken,
            reason == TaskWakeReason::Queue ==> may_wait_receive(old(self).view(), old(sched)@),
            reason == TaskWakeReason::NotWoken ==> may_wait_receive(
                MessageQueueView { recv_waiters: old(self).view().recv_waiters.remove_value(running_id(old(sched)@)), ..old(self).view() },
                old(sched)@,
            ),
        ensures
            final(self).wf(),
            final(sched).wf(),
            reason == TaskWakeReason::Queue ==> (r, final(self).view(), final(sched)@) == receive_attempt(old(self).view(), old(sched)@, None),
            reason == TaskWakeReason::NotWoken ==> (r, final(self).view(), final(sched)@) == receive_attempt(
                MessageQueueView { recv_waiters: old(self).view().recv_waiters.remove_value(running_id(old(sched)@)), ..old(self).view() },
                old(sched)@,
                None,
            ),
    {
        if reason == TaskWakeReason::NotWoken {
            if let Some(current) = sched.current_task_id() {
                self.recv_waiters.remove(current);
            }
        }
        self.receive_attempt(sched, None)
    }

    /// Receives the oldest message, blocking the running task while the
    /// queue is empty until `deadline`: one step (see `WaitStep`). A deadline
    /// already reached only tries.
    pub fn receive_until(&mut self, sched: &mut Scheduler, deadline: Deadline) -> (r: WaitStep<Option<T>, ()>)
        requires
            old(self).wf(),
            old(sched).wf(),
            !reached_at(deadline@, old(sched)@.ticks) ==> may_wait_receive(old(self).view(), old(sched)@),
        ensures
            final(self).wf(),
            final(sched).wf(),
            reached_at(deadline@, old(sched)@.ticks) ==> {
                let (m, q, v) = try_receive_spec(old(self).view(), old(sched)@);
                r == WaitStep::<Option<T>, ()>::Done(m) && final(self).view() == q && final(sched)@ == v
            },
            !reached_at(deadline@, old(sched)@.ticks) ==> {
                let (st, q, v) = receive_attempt(old(self).view(), old(sched)@, Some(deadline));
                r == timed_receive(st) && final(self).view() == q && final(sched)@ == v
            },
    {
        if deadline.is_reached(sched.tick_count()) {
            return WaitStep::Done(self.try_receive(sched));
        }
        match self.receive_attempt(sched, Some(deadline)) {
            WaitStep::Done(x) => WaitStep::Done(Some(x)),
            WaitStep::Switch(sw, k) => WaitStep::Switch(sw, k),
            WaitStep::Spin(k) => WaitStep::Spin(k),
        }
    }

    /// The next step of a `receive_until` once the task runs again after
    /// blocking for `reason`: woken by a send, it tries again; timed out, it
    /// leaves the receivers with nothing; when it never blocked it leaves the
    /// receivers and tries again.
    pub fn receive_until_resume(&mut self, sched: &mut Scheduler, deadline: Deadline, reason: TaskWakeReason) -> (r: WaitStep<Option<T>, ()>)
        requires
            old(self).wf(),
            old(sched).wf(),
            old(sched)@.current is Some,
            reason == TaskWakeReason::Queue || reason == TaskWakeReason::Timeout || reason == TaskWakeReason::NotWoken,
            reason == TaskWakeReason::Queue ==> may_wait_receive(old(self).view(), old(sched)@),
            reason == TaskWakeReason::NotWoken ==> may_wait_receive(
                MessageQueueView { recv_waiters: old(self).view().recv_waiters.remove_value(running_id(old(sched)@)), ..old(self).view() },
                old(sched)@,
            ),
        ensures
            final(self).wf(),
            final(sched).wf(),
            reason == TaskWakeReason::Queue ==> {
                let (st, q, v) = receive_attempt(old(self).view(), old(sched)@, Some(deadline));
                r == timed_receive(st) && final(self).view() == q && final(sched)@ == v
            },
            reason == TaskWakeReason::Timeout ==> r == WaitStep::<Option<T>, ()>::Done(None) && final(self).view()
                == (MessageQueueView { recv_waiters: old(self).view().recv_waiters.remove_value(running_id(old(sched)@)), ..old(self).view() })
                && final(sched)@ == old(sched)@,
            reason == TaskWakeReason::NotWoken ==> {
                let (st, q, v) = receive_attempt(
                    MessageQueueView { recv_waiters: old(self).view().recv_waiters.remove_value(running_id(old(sched)@)), ..old(self).view() },
                    old(sched)@,
                    Some(deadline),
                );
                r == timed_receive(st) && final(self).view() == q && final(sched)@ == v
            },
    {
        if reason != TaskWakeReason::Queue {
            if let Some(current) = sched.current_task_id() {
                self.recv_waiters.remove(current);
            }
            if reason == TaskWakeReason::Timeout {
                return WaitStep::Done(None);
            }
        }
        match self.receive_attempt(sched, Some(deadline)) {
            WaitStep::Done(x) => WaitStep::Done(Some(x)),
            WaitStep::Switch(sw, k) => WaitStep::Switch(sw, k),
            WaitStep::Spin(k) => WaitStep::Spin(k),
        }
    }
}

} // verus!
