use vstd::prelude::*;
use crate::task::TaskId;

verus! {

/// `s` with the slot at `i` taken out: later slots move one place towards
/// the front and the last slot becomes empty.
pub open spec fn shift_out(s: Seq<Option<TaskId>>, i: int) -> Seq<Option<TaskId>> {
    s.subrange(0, i) + s.subrange(i + 1, s.len() as int).push(None)
}

/// Some slot of `s` holds `task_id`.
pub open spec fn holds_waiter(s: Seq<Option<TaskId>>, task_id: TaskId) -> bool {
    exists|i: int| 0 <= i < s.len() && s[i] == Some(task_id)
}

/// `i` is the first occupied slot of `s`.
pub open spec fn is_first_occupied(s: Seq<Option<TaskId>>, i: int) -> bool {
    &&& 0 <= i < s.len()
    &&& s[i] is Some
    &&& forall|j: int| 0 <= j < i ==> s[j] is None
}

/// `i` is the first slot of `s` that holds `task_id`.
pub open spec fn is_first_holding(s: Seq<Option<TaskId>>, i: int, task_id: TaskId) -> bool {
    &&& 0 <= i < s.len()
    &&& s[i] == Some(task_id)
    &&& forall|j: int| 0 <= j < i ==> s[j] != Some(task_id)
}

/// `i` is the first empty slot of `s`.
pub open spec fn is_first_vacant(s: Seq<Option<TaskId>>, i: int) -> bool {
    &&& 0 <= i < s.len()
    &&& s[i] is None
    &&& forall|j: int| 0 <= j < i ==> s[j] is Some
}

/// The slots `s` hold the FIFO queue `q`: its tasks, oldest first, fill a
/// prefix of the slots, no task occurs twice, and every later slot is empty.
pub open spec fn waiters_hold(s: Seq<Option<TaskId>>, q: Seq<TaskId>) -> bool {
    &&& q.len() <= s.len()
    &&& q.no_duplicates()
    &&& forall|i: int| 0 <= i < q.len() ==> s[i] == Some(q[i])
    &&& forall|i: int| q.len() <= i < s.len() ==> s[i] is None
}

proof fn lemma_shift_out_holds(s: Seq<Option<TaskId>>, q: Seq<TaskId>, i: int)
    requires
        waiters_hold(s, q),
        0 <= i < q.len(),
    ensures
        waiters_hold(shift_out(s, i), q.remove(i)),
{
    q.remove_ensures(i);
    let t = shift_out(s, i);
    let r = q.remove(i);
    assert forall|a: int, b: int| 0 <= a < r.len() && 0 <= b < r.len() && a != b implies r[a]
        != r[b] by {
        let a2 = if a < i { a } else { a + 1 };
        let b2 = if b < i { b } else { b + 1 };
        assert(r[a] == q[a2]);
        assert(r[b] == q[b2]);
    }
    assert forall|k: int| 0 <= k < r.len() implies t[k] == Some(r[k]) by {
        if k < i {
            assert(t[k] == s[k]);
        } else {
            assert(t[k] == s[k + 1]);
        }
    }
    assert forall|k: int| r.len() <= k < t.len() implies t[k] is None by {
        if k < s.len() - 1 {
            assert(t[k] == s[k + 1]);
        }
    }
}

/// Closes the gap at `index` in place: later slots move one place forward and
/// the last slot is emptied.
fn close_gap(waiters: &mut [Option<TaskId>], index: usize)
    requires
        index < old(waiters)@.len(),
    ensures
        final(waiters)@ == shift_out(old(waiters)@, index as int),
{
    let len = waiters.len();
    let mut shift = index;
    while shift + 1 < len
        invariant
            len == waiters@.len(),
            len == old(waiters)@.len(),
            index <= shift < len,
            forall|k: int| 0 <= k < index ==> waiters@[k] == old(waiters)@[k],
            forall|k: int| index <= k < shift ==> waiters@[k] == old(waiters)@[k + 1],
            forall|k: int| shift <= k < len ==> waiters@[k] == old(waiters)@[k],
        decreases len - shift,
    {
        let next = waiters[shift + 1];
        waiters[shift] = next;
        shift = shift + 1;
    }
    waiters[len - 1] = None;
    assert(waiters@ =~= shift_out(old(waiters)@, index as int));
}

fn enqueue_into(waiters: &mut [Option<TaskId>], task_id: TaskId) -> (r: Result<(), ()>)
    ensures
        holds_waiter(old(waiters)@, task_id) ==> r is Ok && final(waiters)@ == old(waiters)@,
        !holds_waiter(old(waiters)@, task_id) ==> {
            ||| exists|i: int|
                is_first_vacant(old(waiters)@, i) && r is Ok && final(waiters)@ == old(
                    waiters,
                )@.update(i, Some(task_id))
            ||| (forall|i: int| 0 <= i < old(waiters)@.len() ==> old(waiters)@[i] is Some) && r is Err
                && final(waiters)@ == old(waiters)@
        },
{
    let len = waiters.len();
    let mut i: usize = 0;
    while i < len
        invariant
            len == waiters@.len(),
            waiters@ == old(waiters)@,
            i <= len,
            forall|j: int| 0 <= j < i ==> waiters@[j] != Some(task_id),
        decreases len - i,
    {
        if let Some(w) = waiters[i] {
            if w == task_id {
                return Ok(());
            }
        }
        i = i + 1;
    }
    let mut k: usize = 0;
    while k < len
        invariant
            len == waiters@.len(),
            waiters@ == old(waiters)@,
            !holds_waiter(old(waiters)@, task_id),
            k <= len,
            forall|j: int| 0 <= j < k ==> waiters@[j] is Some,
        decreases len - k,
    {
        if waiters[k].is_none() {
            waiters[k] = Some(task_id);
            assert(is_first_vacant(old(waiters)@, k as int));
            return Ok(());
        }
        k = k + 1;
    }
    Err(())
}

fn dequeue_from(waiters: &mut [Option<TaskId>]) -> (r: Option<TaskId>)
    ensures
        (forall|i: int| 0 <= i < old(waiters)@.len() ==> old(waiters)@[i] is None) ==> r is None
            && final(waiters)@ == old(waiters)@,
        r is Some ==> exists|i: int|
            is_first_occupied(old(waiters)@, i) && r == old(waiters)@[i] && final(waiters)@
                == shift_out(old(waiters)@, i),
        r is None ==> final(waiters)@ == old(waiters)@ && forall|i: int|
            0 <= i < old(waiters)@.len() ==> old(waiters)@[i] is None,
{
    let len = waiters.len();
    let mut index: usize = 0;
    while index < len
        invariant
            len == waiters@.len(),
            waiters@ == old(waiters)@,
            index <= len,
            forall|j: int| 0 <= j < index ==> waiters@[j] is None,
        decreases len - index,
    {
        let waiter = waiters[index];
        if waiter.is_some() {
            close_gap(waiters, index);
            assert(is_first_occupied(old(waiters)@, index as int));
            return waiter;
        }
        index = index + 1;
    }
    None
}

fn remove_from(waiters: &mut [Option<TaskId>], task_id: TaskId) -> (r: bool)
    ensures
        r == holds_waiter(old(waiters)@, task_id),
        r ==> exists|i: int|
            is_first_holding(old(waiters)@, i, task_id) && final(waiters)@ == shift_out(
                old(waiters)@,
                i,
            ),
        !r ==> final(waiters)@ == old(waiters)@,
{
    let len = waiters.len();
    let mut index: usize = 0;
    while index < len
        invariant
            len == waiters@.len(),
            waiters@ == old(waiters)@,
            index <= len,
            forall|j: int| 0 <= j < index ==> waiters@[j] != Some(task_id),
        decreases len - index,
    {
        let matches = match waiters[index] {
            Some(w) => w == task_id,
            None => false,
        };
        if matches {
            close_gap(waiters, index);
            assert(is_first_holding(old(waiters)@, index as int, task_id));
            return true;
        }
        index = index + 1;
    }
    false
}

/// Adds `task_id` to the first empty slot unless some slot already holds it;
/// fails, changing nothing, when every slot is taken.
///
/// On slots that hold a FIFO queue `q` this appends `task_id` to `q`, unless
/// it is queued already.
pub fn enqueue_waiter(waiters: &mut [Option<TaskId>], task_id: TaskId) -> (r: Result<(), ()>)
    ensures
        holds_waiter(old(waiters)@, task_id) ==> r is Ok && final(waiters)@ == old(waiters)@,
        !holds_waiter(old(waiters)@, task_id) ==> {
            ||| exists|i: int|
                is_first_vacant(old(waiters)@, i) && r is Ok && final(waiters)@ == old(
                    waiters,
                )@.update(i, Some(task_id))
            ||| (forall|i: int| 0 <= i < old(waiters)@.len() ==> old(waiters)@[i] is Some) && r is Err
                && final(waiters)@ == old(waiters)@
        },
        forall|q: Seq<TaskId>|
            #[trigger] waiters_hold(old(waiters)@, q) ==> if q.contains(task_id) {
                r is Ok && final(waiters)@ == old(waiters)@
            } else if q.len() < old(waiters)@.len() {
                r is Ok && waiters_hold(final(waiters)@, q.push(task_id))
            } else {
                r is Err && final(waiters)@ == old(waiters)@
            },
{
    let ghost s = waiters@;
    let r = enqueue_into(waiters, task_id);
    proof {
        assert forall|q: Seq<TaskId>| #[trigger] waiters_hold(s, q) implies if q.contains(task_id) {
            r is Ok && waiters@ == s
        } else if q.len() < s.len() {
            r is Ok && waiters_hold(waiters@, q.push(task_id))
        } else {
            r is Err && waiters@ == s
        } by {
            if q.contains(task_id) {
                let j = choose|j: int| 0 <= j < q.len() && q[j] == task_id;
                assert(s[j] == Some(task_id));
            } else {
                assert(!holds_waiter(s, task_id)) by {
                    if holds_waiter(s, task_id) {
                        let j = choose|j: int| 0 <= j < s.len() && s[j] == Some(task_id);
                        if j >= q.len() {
                            assert(s[j] is None);
                        } else {
                            assert(q[j] == task_id);
                        }
                    }
                }
                if q.len() < s.len() {
                    if r is Err {
                        assert(s[q.len() as int] is None);
                    }
                    let i = choose|i: int| is_first_vacant(s, i) && waiters@ == s.update(i, Some(task_id));
                    if i < q.len() {
                        assert(s[i] == Some(q[i]));
                    }
                    if i > q.len() {
                        assert(s[q.len() as int] is Some);
                    }
                    assert(i == q.len());
                    let p = q.push(task_id);
                    assert forall|a: int, b: int| 0 <= a < p.len() && 0 <= b < p.len() && a != b implies p[a] != p[b] by {
                        if a < q.len() && b < q.len() {
                        } else if a == q.len() {
                            assert(q[b] == p[b]);
                        } else {
                            assert(q[a] == p[a]);
                        }
                    }
                } else {
                    if r is Ok {
                        let i = choose|i: int| is_first_vacant(s, i) && waiters@ == s.update(i, Some(task_id));
                        assert(s[i] == Some(q[i]));
                    }
                }
            }
        }
    }
    r
}

/// Takes the first occupied slot out of the list, moving later slots forward.
///
/// On slots that hold a FIFO queue `q` this removes and returns the oldest
/// task of `q`.
pub fn dequeue_waiter(waiters: &mut [Option<TaskId>]) -> (r: Option<TaskId>)
    ensures
        (forall|i: int| 0 <= i < old(waiters)@.len() ==> old(waiters)@[i] is None) ==> r is None
            && final(waiters)@ == old(waiters)@,
        r is Some ==> exists|i: int|
            is_first_occupied(old(waiters)@, i) && r == old(waiters)@[i] && final(waiters)@
                == shift_out(old(waiters)@, i),
        r is None ==> final(waiters)@ == old(waiters)@ && forall|i: int|
            0 <= i < old(waiters)@.len() ==> old(waiters)@[i] is None,
        forall|q: Seq<TaskId>|
            #[trigger] waiters_hold(old(waiters)@, q) ==> if q.len() == 0 {
                r is None && final(waiters)@ == old(waiters)@
            } else {
                r == Some(q[0]) && waiters_hold(final(waiters)@, q.drop_first())
            },
{
    let ghost s = waiters@;
    let r = dequeue_from(waiters);
    proof {
        assert forall|q: Seq<TaskId>| #[trigger] waiters_hold(s, q) implies if q.len() == 0 {
            r is None && waiters@ == s
        } else {
            r == Some(q[0]) && waiters_hold(waiters@, q.drop_first())
        } by {
            if q.len() == 0 {
                if r is Some {
                    let i = choose|i: int| is_first_occupied(s, i) && r == s[i] && waiters@ == shift_out(s, i);
                    assert(s[i] is None);
                }
            } else {
                assert(s[0] == Some(q[0]));
                assert(r is Some);
                let i = choose|i: int| is_first_occupied(s, i) && r == s[i] && waiters@ == shift_out(s, i);
                assert(i == 0);
                lemma_shift_out_holds(s, q, 0);
                assert(q.remove(0) =~= q.drop_first());
            }
        }
    }
    r
}

/// Takes the first slot holding `task_id` out of the list, moving later slots
/// forward; reports whether one did.
///
/// On slots that hold a FIFO queue `q` this removes `task_id` from `q` and
/// keeps the order of the others.
pub fn remove_waiter(waiters: &mut [Option<TaskId>], task_id: TaskId) -> (r: bool)
    ensures
        r == holds_waiter(old(waiters)@, task_id),
        r ==> exists|i: int|
            is_first_holding(old(waiters)@, i, task_id) && final(waiters)@ == shift_out(
                old(waiters)@,
                i,
            ),
        !r ==> final(waiters)@ == old(waiters)@,
        forall|q: Seq<TaskId>|
            #[trigger] waiters_hold(old(waiters)@, q) ==> r == q.contains(task_id)
                && waiters_hold(final(waiters)@, q.remove_value(task_id)),
{
    let ghost s = waiters@;
    let r = remove_from(waiters, task_id);
    proof {
        assert forall|q: Seq<TaskId>| #[trigger] waiters_hold(s, q) implies r == q.contains(task_id)
            && waiters_hold(waiters@, q.remove_value(task_id)) by {
            q.index_of_first_ensures(task_id);
            if r {
                let i = choose|i: int| is_first_holding(s, i, task_id) && waiters@ == shift_out(s, i);
                if i >= q.len() {
                    assert(s[i] is None);
                }
                assert(q[i] == task_id);
                let k = q.index_of_first(task_id).unwrap();
                if k < i {
                    assert(s[k] == Some(task_id));
                }
                if i < k {
                    assert(q[i] == task_id);
                }
                assert(k == i);
                lemma_shift_out_holds(s, q, i);
            } else {
                if q.contains(task_id) {
                    let j = choose|j: int| 0 <= j < q.len() && q[j] == task_id;
                    assert(s[j] == Some(task_id));
                }
            }
        }
    }
    r
}


/// The FIFO queue the slots `s` hold, when they hold one.
pub open spec fn queue_of(s: Seq<Option<TaskId>>) -> Seq<TaskId> {
    choose|q: Seq<TaskId>| waiters_hold(s, q)
}

/// Slots hold at most one FIFO queue.
pub proof fn lemma_hold_unique(s: Seq<Option<TaskId>>, q1: Seq<TaskId>, q2: Seq<TaskId>)
    requires
        waiters_hold(s, q1),
        waiters_hold(s, q2),
    ensures
        q1 == q2,
{
    if q1.len() < q2.len() {
        assert(s[q1.len() as int] is None);
        assert(s[q1.len() as int] == Some(q2[q1.len() as int]));
    } else if q2.len() < q1.len() {
        assert(s[q2.len() as int] is None);
        assert(s[q2.len() as int] == Some(q1[q2.len() as int]));
    } else {
        assert forall|i: int| 0 <= i < q1.len() implies q1[i] == q2[i] by {
            assert(s[i] == Some(q1[i]));
            assert(s[i] == Some(q2[i]));
        }
        assert(q1 =~= q2);
    }
}

/// When `s` holds `q`, `queue_of(s)` is `q`.
pub proof fn lemma_queue_of(s: Seq<Option<TaskId>>, q: Seq<TaskId>)
    requires
        waiters_hold(s, q),
    ensures
        queue_of(s) == q,
{
    let c = queue_of(s);
    lemma_hold_unique(s, q, c);
}

/// A fixed set of `USER_TASKS` wait slots that holds a FIFO queue of
/// distinct blocked tasks.
pub struct WaitQueue {
    slots: [Option<TaskId>; crate::scheduler::USER_TASKS],
}

impl View for WaitQueue {
    type V = Seq<TaskId>;

    /// The queued tasks, oldest first.
    closed spec fn view(&self) -> Seq<TaskId> {
        queue_of(self.slots@)
    }
}

impl WaitQueue {
    /// The slots hold a FIFO queue.
    pub closed spec fn wf(&self) -> bool {
        waiters_hold(self.slots@, queue_of(self.slots@))
    }

    /// At most one slot per task.
    pub proof fn lemma_bounds(&self)
        requires
            self.wf(),
        ensures
            self@.len() <= crate::scheduler::USER_TASKS,
            self@.no_duplicates(),
    {
    }

    /// An empty queue.
    pub fn new() -> (r: Self)
        ensures
            r.wf(),
            r@ == Seq::<TaskId>::empty(),
    {
        let r = WaitQueue { slots: [None; crate::scheduler::USER_TASKS] };
        proof {
            assert(waiters_hold(r.slots@, Seq::<TaskId>::empty()));
            lemma_queue_of(r.slots@, Seq::<TaskId>::empty());
        }
        r
    }

    /// The task at position `i` of the queue, oldest first; none past its end.
    pub fn get(&self, i: usize) -> (r: Option<TaskId>)
        requires
            self.wf(),
        ensures
            i < self@.len() ==> r == Some(self@[i as int]),
            i >= self@.len() ==> r is None,
    {
        if i < crate::scheduler::USER_TASKS {
            self.slots[i]
        } else {
            None
        }
    }

    /// Whether `task_id` can wait here: it is queued already or a slot is free.
    pub fn has_room_for(&self, task_id: TaskId) -> (r: bool)
        requires
            self.wf(),
        ensures
            r == (self@.contains(task_id) || self@.len() < crate::scheduler::USER_TASKS),
    {
        let ghost q = self@;
        let mut i: usize = 0;
        while i < crate::scheduler::USER_TASKS
            invariant
                self.wf(),
                q == self@,
                i <= crate::scheduler::USER_TASKS,
                forall|j: int| 0 <= j < i ==> self.slots@[j] != Some(task_id),
                forall|j: int| 0 <= j < i ==> self.slots@[j] is Some,
            decreases crate::scheduler::USER_TASKS - i,
        {
            match self.slots[i] {
                None => {
                    proof {
                        if i < q.len() {
                            assert(self.slots@[i as int] == Some(q[i as int]));
                        }
                    }
                    return true;
                },
                Some(t) => {
                    if t == task_id {
                        proof {
                            if i >= q.len() {
                                assert(self.slots@[i as int] is None);
                            }
                            assert(q[i as int] == task_id);
                        }
                        return true;
                    }
                },
            }
            i = i + 1;
        }
        proof {
            if q.len() < crate::scheduler::USER_TASKS {
                assert(self.slots@[q.len() as int] is None);
            }
            if q.contains(task_id) {
                let j = choose|j: int| 0 <= j < q.len() && q[j] == task_id;
                assert(self.slots@[j] == Some(task_id));
            }
        }
        false
    }

    /// Queues `task_id` unless it is queued already; fails, changing nothing,
    /// when every slot is taken.
    pub fn enqueue(&mut self, task_id: TaskId) -> (r: Result<(), ()>)
        requires
            old(self).wf(),
        ensures
            final(self).wf(),
            old(self)@.contains(task_id) ==> r is Ok && final(self)@ == old(self)@,
            !old(self)@.contains(task_id) && old(self)@.len() < crate::scheduler::USER_TASKS ==> r is Ok
                && final(self)@ == old(self)@.push(task_id),
            !old(self)@.contains(task_id) && old(self)@.len() >= crate::scheduler::USER_TASKS ==> r is Err
                && final(self)@ == old(self)@,
    {
        let ghost q = self@;
        let r = enqueue_waiter(&mut self.slots, task_id);
        proof {
            assert(waiters_hold(old(self).slots@, q));
            if q.contains(task_id) || q.len() >= crate::scheduler::USER_TASKS {
                lemma_queue_of(self.slots@, q);
            } else {
                lemma_queue_of(self.slots@, q.push(task_id));
            }
        }
        r
    }

    /// Takes the oldest queued task out; none when the queue is empty.
    pub fn dequeue(&mut self) -> (r: Option<TaskId>)
        requires
            old(self).wf(),
        ensures
            final(self).wf(),
            old(self)@.len() == 0 ==> r is None && final(self)@ == old(self)@,
            old(self)@.len() > 0 ==> r == Some(old(self)@[0]) && final(self)@ == old(self)@.drop_first(),
    {
        let ghost q = self@;
        let r = dequeue_waiter(&mut self.slots);
        proof {
            assert(waiters_hold(old(self).slots@, q));
            if q.len() == 0 {
                lemma_queue_of(self.slots@, q);
            } else {
                lemma_queue_of(self.slots@, q.drop_first());
            }
        }
        r
    }

    /// Takes `task_id` out of the queue, keeping the order of the others;
    /// reports whether it was queued.
    pub fn remove(&mut self, task_id: TaskId) -> (r: bool)
        requires
            old(self).wf(),
        ensures
            final(self).wf(),
            r == old(self)@.contains(task_id),
            final(self)@ == old(self)@.remove_value(task_id),
    {
        let ghost q = self@;
        let r = remove_waiter(&mut self.slots, task_id);
        proof {
            assert(waiters_hold(old(self).slots@, q));
            lemma_queue_of(self.slots@, q.remove_value(task_id));
        }
        r
    }
}

} // verus!
