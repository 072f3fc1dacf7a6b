use vstd::prelude::*;

verus! {

/// Position `i` places after `start` in a ring of `n` slots (`start < n`, `i <= n`).
pub open spec fn ring_slot(start: int, i: int, n: int) -> int {
    if start + i < n {
        start + i
    } else {
        start + i - n
    }
}

/// Pushing `x` onto a ring holding `q` with capacity `n`: appended when there
/// is room, else refused.
pub open spec fn ring_push<T>(q: Seq<T>, x: T, n: nat) -> (bool, Seq<T>) {
    if q.len() < n {
        (true, q.push(x))
    } else {
        (false, q)
    }
}

/// Popping from a ring holding `q`: its oldest element, if any.
pub open spec fn ring_pop<T>(q: Seq<T>) -> (Option<T>, Seq<T>) {
    if q.len() > 0 {
        (Some(q[0]), q.drop_first())
    } else {
        (None, q)
    }
}

/// Elements leave a ring in the order they entered: on an empty ring a
/// push is undone by a pop that returns the pushed value; on a non-empty
/// ring a pop returns the oldest element whether or not a push came first,
/// and leaves what the push would have left on the popped ring.
pub proof fn lemma_ring_fifo<T>(q: Seq<T>, x: T, n: nat)
    requires
        q.len() < n,
    ensures
        q.len() == 0 ==> ring_pop(ring_push(q, x, n).1) == (Some(x), q),
        q.len() > 0 ==> ring_pop(ring_push(q, x, n).1) == (ring_pop(q).0, ring_push(ring_pop(q).1, x, n).1),
{
    if q.len() == 0 {
        assert(q.push(x).drop_first() =~= q);
    } else {
        assert(q.push(x).drop_first() =~= q.drop_first().push(x));
    }
}

/// A full ring refuses a push and keeps its contents.
pub proof fn lemma_full_ring_refuses<T>(q: Seq<T>, x: T, n: nat)
    requires
        q.len() >= n,
    ensures
        ring_push(q, x, n) == (false, q),
{
}

/// A fixed-capacity FIFO ring of at most `N` elements. Its `N` slots are
/// allocated once, when the ring is made, and never grow or move; they sit
/// in a `Vec` because Verus does not accept filling an array of a non-`Copy`
/// element type, which a fixed array of `Option<T>` would need.
pub struct RingBuffer<T, const N: usize> {
    storage: Vec<Option<T>>,
    head: usize,
    tail: usize,
    len: usize,
}

impl<T, const N: usize> RingBuffer<T, N> {
    /// The elements held, oldest first.
    pub closed spec fn view(&self) -> Seq<T> {
        Seq::new(self.len as nat, |i: int| self.storage@[ring_slot(self.head as int, i, N as int)]->0)
    }

    /// The ring's internal invariant: the `len` slots from `head` on are full,
    /// the others empty, and `tail` is the slot after the last element.
    pub closed spec fn wf(&self) -> bool {
        &&& self.storage@.len() == N
        &&& self.len <= N
        &&& (N == 0 ==> self.head == 0 && self.tail == 0)
        &&& (N > 0 ==> self.head < N && self.tail == ring_slot(self.head as int, self.len as int, N as int))
        &&& forall|i: int| 0 <= i < self.len ==> (#[trigger] self.storage@[ring_slot(self.head as int, i, N as int)]) is Some
        &&& forall|i: int| self.len <= i < N ==> (#[trigger] self.storage@[ring_slot(self.head as int, i, N as int)]) is None
    }

    /// A ring never holds more than `N` elements.
    pub proof fn lemma_len_bounded(&self)
        requires
            self.wf(),
        ensures
            self.view().len() <= N,
    {
    }

    /// An empty ring.
    pub fn new() -> (r: Self)
        ensures
            r.wf(),
            r.view() == Seq::<T>::empty(),
    {
        let mut storage: Vec<Option<T>> = Vec::new();
        let mut k: usize = 0;
        while k < N
            invariant
                k <= N,
                storage@.len() == k,
                forall|j: int| 0 <= j < k ==> storage@[j] is None,
            decreases N - k,
        {
            storage.push(None);
            k = k + 1;
        }
        let r = RingBuffer { storage, head: 0, tail: 0, len: 0 };
        assert(r.view() =~= Seq::<T>::empty());
        r
    }

    /// Number of elements held.
    pub fn len(&self) -> (r: usize)
        requires
            self.wf(),
        ensures
            r == self.view().len(),
    {
        self.len
    }

    /// The fixed capacity `N`.
    pub fn capacity(&self) -> (r: usize)
        ensures
            r == N,
    {
        N
    }

    /// Whether no element is held.
    pub fn is_empty(&self) -> (r: bool)
        requires
            self.wf(),
        ensures
            r == (self.view().len() == 0),
    {
        self.len == 0
    }

    /// Whether `N` elements are held.
    pub fn is_full(&self) -> (r: bool)
        requires
            self.wf(),
        ensures
            r == (self.view().len() == N),
    {
        self.len == N
    }

    /// Appends `value` behind the newest element; a full ring hands `value`
    /// back unchanged.
    pub fn push(&mut self, value: T) -> (r: Result<(), T>)
        requires
            old(self).wf(),
        ensures
            final(self).wf(),
            ring_push(old(self).view(), value, N as nat).0 ==> r == Ok::<(), T>(()),
            !ring_push(old(self).view(), value, N as nat).0 ==> r == Err::<(), T>(value),
            final(self).view() == ring_push(old(self).view(), value, N as nat).1,
    {
        if self.is_full() {
            proof { self.lemma_len_bounded(); }
            return Err(value);
        }
        let ghost old_storage = self.storage@;
        let ghost h = self.head as int;
        let ghost n = N as int;
        let t = self.tail;
        self.storage.set(t, Some(value));
        self.tail = if t + 1 == N { 0 } else { t + 1 };
        self.len = self.len + 1;
        proof {
            assert forall|i: int| 0 <= i < n implies 0 <= #[trigger] ring_slot(h, i, n) < n by {}
            assert forall|i: int, j: int| 0 <= i < n && 0 <= j < n && i != j implies #[trigger] ring_slot(h, i, n) != #[trigger] ring_slot(h, j, n) by {}
            assert(self.view() =~= old(self).view().push(value)) by {
                assert forall|i: int| 0 <= i < self.len implies self.view()[i] == old(self).view().push(value)[i] by {
                    if i < self.len - 1 {
                        assert(ring_slot(h, i, n) != t);
                    }
                }
            }
            assert forall|i: int| 0 <= i < self.len implies (#[trigger] self.storage@[ring_slot(h, i, n)]) is Some by {
                if i < self.len - 1 {
                    assert(ring_slot(h, i, n) != t);
                }
            }
            assert forall|i: int| self.len <= i < n implies (#[trigger] self.storage@[ring_slot(h, i, n)]) is None by {
                assert(ring_slot(h, i, n) != t);
                assert(old_storage[ring_slot(h, i, n)] is None);
            }
        }
        Ok(())
    }

    /// Removes and returns the oldest element, if any.
    pub fn pop(&mut self) -> (r: Option<T>)
        requires
            old(self).wf(),
        ensures
            final(self).wf(),
            (r, final(self).view()) == ring_pop(old(self).view()),
    {
        if self.is_empty() {
            return None;
        }
        let ghost old_storage = self.storage@;
        let ghost h = self.head as int;
        let ghost n = N as int;
        let hd = self.head;
        let value = self.storage[hd].take();
        self.head = if hd + 1 == N { 0 } else { hd + 1 };
        self.len = self.len - 1;
        proof {
            assert forall|i: int| 0 <= i < n implies 0 <= #[trigger] ring_slot(h, i, n) < n by {}
            assert forall|i: int, j: int| 0 <= i < n && 0 <= j < n && i != j implies #[trigger] ring_slot(h, i, n) != #[trigger] ring_slot(h, j, n) by {}
            assert forall|i: int| 0 <= i < n implies #[trigger] ring_slot(self.head as int, i, n) == if i + 1 < n { ring_slot(h, i + 1, n) } else { h } by {}
            assert(self.view() =~= old(self).view().drop_first()) by {
                assert forall|i: int| 0 <= i < self.len implies self.view()[i] == old(self).view().drop_first()[i] by {
                    assert(ring_slot(h, i + 1, n) != hd);
                }
            }
            assert forall|i: int| 0 <= i < self.len implies (#[trigger] self.storage@[ring_slot(self.head as int, i, n)]) is Some by {
                assert(ring_slot(h, i + 1, n) != hd);
                assert(old_storage[ring_slot(h, i + 1, n)] is Some);
            }
            assert forall|i: int| self.len <= i < n implies (#[trigger] self.storage@[ring_slot(self.head as int, i, n)]) is None by {
                if i + 1 < n {
                    assert(ring_slot(h, i + 1, n) != hd);
                    assert(old_storage[ring_slot(h, i + 1, n)] is None);
                }
            }
        }
        value
    }
}

} // verus!
