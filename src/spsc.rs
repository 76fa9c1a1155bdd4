//! A bounded queue that drops its oldest item when full, and the channel
//! built on it that hands decoded messages from the receive thread to the
//! user thread.
use std::sync::Arc;
use vstd::prelude::*;
use vstd::rwlock::{RwLock, RwLockPredicate};

verus! {

/// The position in a ring of `cap` slots that lies `i` after `head`.
pub open spec fn slot(head: int, i: int, cap: int) -> int {
    if head + i < cap {
        head + i
    } else {
        head + i - cap
    }
}

/// The queue after pushing `x` onto `q` with room for `cap` items: when full,
/// the oldest item is dropped first.
pub open spec fn push_spec<T>(q: Seq<T>, cap: nat, x: T) -> Seq<T> {
    if q.len() >= cap {
        q.drop_first().push(x)
    } else {
        q.push(x)
    }
}

/// The queue after pushing each of `xs` in order.
pub open spec fn push_all<T>(q: Seq<T>, cap: nat, xs: Seq<T>) -> Seq<T>
    decreases xs.len(),
{
    if xs.len() == 0 {
        q
    } else {
        push_spec(push_all(q, cap, xs.drop_last()), cap, xs.last())
    }
}

/// A ring of slots holding the items of a bounded queue, oldest first.
pub struct RingBuffer<T> {
    slots: Vec<Option<T>>,
    head: usize,
    len: usize,
}

impl<T> View for RingBuffer<T> {
    type V = Seq<T>;

    closed spec fn view(&self) -> Seq<T> {
        Seq::new(
            self.len as nat,
            |i: int| self.slots@[slot(self.head as int, i, self.slots@.len() as int)]->Some_0,
        )
    }
}

impl<T> RingBuffer<T> {
    /// The number of items the ring holds at most.
    pub closed spec fn cap(&self) -> nat {
        self.slots@.len()
    }

    /// The ring's internal consistency: every held item sits in a full slot.
    pub closed spec fn wf(&self) -> bool {
        &&& self.slots@.len() > 0
        &&& self.head < self.slots@.len()
        &&& self.len <= self.slots@.len()
        &&& forall|i: int|
            0 <= i < self.len ==> (#[trigger] self.slots@[slot(
                self.head as int,
                i,
                self.slots@.len() as int,
            )]) is Some
    }

    /// An empty ring with room for `size` items.
    pub fn new(size: usize) -> (r: RingBuffer<T>)
        requires
            size > 0,
        ensures
            r.wf(),
            r.cap() == size,
            r@ == Seq::<T>::empty(),
    {
        let mut slots: Vec<Option<T>> = Vec::new();
        while slots.len() < size
            invariant
                slots@.len() <= size,
            decreases size - slots@.len(),
        {
            slots.push(None);
        }
        let r = RingBuffer { slots, head: 0, len: 0 };
        assert(r@ =~= Seq::<T>::empty());
        r
    }

    /// The number of items the ring holds at most.
    pub fn capacity(&self) -> (r: usize)
        requires
            self.wf(),
        ensures
            r == self.cap(),
    {
        self.slots.len()
    }

    /// The number of items held.
    pub fn len(&self) -> (r: usize)
        requires
            self.wf(),
        ensures
            r == self@.len(),
    {
        self.len
    }

    /// Removes and returns the oldest item, if any.
    pub fn pop(&mut self) -> (r: Option<T>)
        requires
            old(self).wf(),
        ensures
            final(self).wf(),
            final(self).cap() == old(self).cap(),
            old(self)@.len() == 0 ==> r is None && final(self)@ == old(self)@,
            old(self)@.len() > 0 ==> r == Some(old(self)@[0]) && final(self)@ == old(
                self,
            )@.drop_first(),
    {
        if self.len == 0 {
            return None;
        }
        let ghost before = self@;
        let cap = self.slots.len();
        let h = self.head;
        assert(self.slots@[slot(h as int, 0, cap as int)] is Some);
        let mut taken: Option<T> = None;
        std::mem::swap(&mut self.slots[h], &mut taken);
        self.head = if h + 1 < cap {
            h + 1
        } else {
            0
        };
        self.len = self.len - 1;
        assert forall|i: int| 0 <= i < self.len implies (#[trigger] self.slots@[slot(
            self.head as int,
            i,
            cap as int,
        )]) is Some by {
            assert(slot(self.head as int, i, cap as int) == slot(h as int, i + 1, cap as int));
            assert(old(self).slots@[slot(h as int, i + 1, cap as int)] is Some);
        }
        assert(self@ =~= before.drop_first()) by {
            assert forall|i: int| 0 <= i < self.len implies self@[i] == before.drop_first()[i] by {
                assert(slot(self.head as int, i, cap as int) == slot(h as int, i + 1, cap as int));
            }
        }
        taken
    }

    /// Adds `item` as the newest item; when the ring is full, the oldest item
    /// is dropped to make room.
    pub fn push(&mut self, item: T)
        requires
            old(self).wf(),
        ensures
            final(self).wf(),
            final(self).cap() == old(self).cap(),
            final(self)@ == push_spec(old(self)@, old(self).cap(), item),
    {
        let cap = self.slots.len();
        let ghost before = self@;
        if self.len == cap {
            let h = self.head;
            self.slots.set(h, None);
            self.head = if h + 1 < cap {
                h + 1
            } else {
                0
            };
            self.len = self.len - 1;
            assert forall|i: int| 0 <= i < self.len implies (#[trigger] self.slots@[slot(
                self.head as int,
                i,
                cap as int,
            )]) is Some by {
                assert(slot(self.head as int, i, cap as int) == slot(h as int, i + 1, cap as int));
                assert(old(self).slots@[slot(h as int, i + 1, cap as int)] is Some);
            }
            assert(self@ =~= before.drop_first()) by {
                assert forall|i: int| 0 <= i < self.len implies self@[i]
                    == before.drop_first()[i] by {
                    assert(slot(self.head as int, i, cap as int) == slot(
                        h as int,
                        i + 1,
                        cap as int,
                    ));
                }
            }
        }
        let ghost mid = self@;
        let ghost mid_slots = self.slots@;
        let idx = if self.len < cap - self.head {
            self.head + self.len
        } else {
            self.len - (cap - self.head)
        };
        self.slots.set(idx, Some(item));
        self.len = self.len + 1;
        assert forall|i: int| 0 <= i < self.len implies (#[trigger] self.slots@[slot(
            self.head as int,
            i,
            cap as int,
        )]) is Some by {
            if i < self.len - 1 {
                assert(mid_slots[slot(self.head as int, i, cap as int)] is Some);
            }
        }
        assert(self@ =~= mid.push(item));
    }
}

/// Pushing at most as many items as the ring holds onto an empty ring keeps
/// them all, in order.
pub proof fn lemma_push_within_capacity<T>(cap: nat, xs: Seq<T>)
    requires
        xs.len() <= cap,
    ensures
        push_all(Seq::<T>::empty(), cap, xs) == xs,
    decreases xs.len(),
{
    if xs.len() > 0 {
        lemma_push_within_capacity(cap, xs.drop_last());
        assert(xs.drop_last().push(xs.last()) =~= xs);
    }
}

/// Pushing more items than the ring holds onto an empty ring keeps exactly
/// the last `cap` of them, in order.
pub proof fn lemma_push_over_capacity<T>(cap: nat, xs: Seq<T>)
    requires
        cap > 0,
        xs.len() >= cap,
    ensures
        push_all(Seq::<T>::empty(), cap, xs) == xs.subrange(xs.len() - cap, xs.len() as int),
    decreases xs.len(),
{
    if xs.len() == cap {
        lemma_push_within_capacity(cap, xs);
        assert(xs.subrange(0, xs.len() as int) =~= xs);
    } else {
        let p = xs.drop_last();
        lemma_push_over_capacity(cap, p);
        assert(p.subrange(p.len() - cap, p.len() as int).drop_first().push(xs.last())
            =~= xs.subrange(xs.len() - cap, xs.len() as int));
    }
}

/// One step that a producer or a consumer takes on a shared ring.
pub enum RingOp {
    /// The producer pushes its next item.
    Push,
    /// The consumer pops.
    Pop,
}

/// The ring's contents and the items popped so far, after the steps `ops`,
/// the producer pushing the items `0, 1, 2, ...` in turn. The ring does not
/// look at its items, so this numbering stands for any pushed sequence.
pub open spec fn run_ring(cap: nat, ops: Seq<RingOp>) -> (Seq<nat>, Seq<nat>, nat)
    decreases ops.len(),
{
    if ops.len() == 0 {
        (Seq::empty(), Seq::empty(), 0)
    } else {
        let (q, popped, pushed) = run_ring(cap, ops.drop_last());
        match ops.last() {
            RingOp::Push => (push_spec(q, cap, pushed), popped, pushed + 1),
            RingOp::Pop => if q.len() == 0 {
                (q, popped, pushed)
            } else {
                (q.drop_first(), popped.push(q[0]), pushed)
            },
        }
    }
}

/// Whether `s` is strictly increasing.
pub open spec fn increasing(s: Seq<nat>) -> bool {
    forall|i: int, j: int| 0 <= i < j < s.len() ==> s[i] < s[j]
}

/// Whatever the interleaving of pushes and pops, the items popped come out in
/// the order they were pushed (some may have been dropped on the way), and the
/// ring holds a contiguous run of the most recently pushed items.
pub proof fn lemma_pops_in_push_order(cap: nat, ops: Seq<RingOp>)
    requires
        cap > 0,
    ensures
        ({
            let (q, popped, pushed) = run_ring(cap, ops);
            &&& increasing(popped)
            &&& q.len() <= cap
            &&& forall|i: int| 0 <= i < q.len() ==> #[trigger] q[i] == pushed - q.len() + i
            &&& forall|i: int, j: int|
                0 <= i < popped.len() && 0 <= j < q.len() ==> popped[i] < q[j]
            &&& forall|i: int| 0 <= i < popped.len() ==> popped[i] < pushed
        }),
    decreases ops.len(),
{
    if ops.len() > 0 {
        lemma_pops_in_push_order(cap, ops.drop_last());
        let (q, popped, pushed) = run_ring(cap, ops.drop_last());
        match ops.last() {
            RingOp::Push => {
                let q2 = push_spec(q, cap, pushed);
                assert forall|i: int| 0 <= i < q2.len() implies #[trigger] q2[i] == pushed + 1
                    - q2.len() + i by {
                    if q.len() >= cap {
                        if i < q2.len() - 1 {
                            assert(q2[i] == q[i + 1]);
                        }
                    } else {
                        if i < q2.len() - 1 {
                            assert(q2[i] == q[i]);
                        }
                    }
                }
                assert forall|i: int, j: int|
                    0 <= i < popped.len() && 0 <= j < q2.len() implies popped[i] < q2[j] by {
                    if j < q2.len() - 1 {
                        if q.len() >= cap {
                            assert(q2[j] == q[j + 1]);
                        } else {
                            assert(q2[j] == q[j]);
                        }
                    }
                }
            },
            RingOp::Pop => {
                if q.len() > 0 {
                    let p2 = popped.push(q[0]);
                    assert forall|i: int, j: int| 0 <= i < j < p2.len() implies p2[i] < p2[j] by {
                        if j == p2.len() - 1 && i < popped.len() {
                            assert(popped[i] < q[0]);
                        }
                    }
                    let q2 = q.drop_first();
                    assert forall|i: int, j: int|
                        0 <= i < p2.len() && 0 <= j < q2.len() implies p2[i] < q2[j] by {
                        assert(q2[j] == q[j + 1]);
                        if i < popped.len() {
                            assert(popped[i] < q[j + 1]);
                        }
                    }
                    assert forall|i: int| 0 <= i < q2.len() implies #[trigger] q2[i] == pushed
                        - q2.len() + i by {
                        assert(q2[i] == q[i + 1]);
                    }
                }
            },
        }
    }
}

/// What the lock shared by the two ends of a channel guarantees of its ring.
pub struct RingPred {
    pub cap: nat,
}

impl<T> RwLockPredicate<RingBuffer<T>> for RingPred {
    open spec fn inv(self, v: RingBuffer<T>) -> bool {
        v.wf() && v.cap() == self.cap
    }
}

/// Relies on `Arc::strong_count`: the number of handles to the shared ring
/// that exist at the moment of the call.
#[verifier::external_body]
fn handle_count<T>(a: &Arc<RwLock<RingBuffer<T>, RingPred>>) -> usize {
    Arc::strong_count(a)
}

/// The sending half of a channel.
pub struct Sender<T> {
    inner: Arc<RwLock<RingBuffer<T>, RingPred>>,
    capacity: usize,
}

/// The receiving half of a channel.
pub struct Receiver<T> {
    inner: Arc<RwLock<RingBuffer<T>, RingPred>>,
    capacity: usize,
}

/// Creates a channel whose ring holds `size` items; sending to a full channel
/// drops its oldest item.
pub fn channel<T>(size: usize) -> (r: (Sender<T>, Receiver<T>))
    requires
        size > 0,
    ensures
        r.0.cap() == size,
        r.1.cap() == size,
{
    let ring = RingBuffer::<T>::new(size);
    let lock = RwLock::new(ring, Ghost(RingPred { cap: size as nat }));
    let backing = Arc::new(lock);
    let tx = Sender { inner: backing.clone(), capacity: size };
    let rx = Receiver { inner: backing, capacity: size };
    (tx, rx)
}

impl<T> Sender<T> {
    #[verifier::type_invariant]
    spec fn inv(&self) -> bool {
        &&& self.inner.pred().cap == self.capacity
    }

    /// The number of items the channel holds at most.
    pub closed spec fn cap(&self) -> nat {
        self.capacity as nat
    }

    /// Pushes an item into the channel, dropping the oldest one when full.
    pub fn send(&self, item: T) {
        proof {
            use_type_invariant(self);
        }
        let (mut ring, handle) = self.inner.acquire_write();
        ring.push(item);
        handle.release_write(ring);
    }

    /// The number of items the channel holds at most.
    pub fn capacity(&self) -> (r: usize)
        ensures
            r == self.cap(),
    {
        self.capacity
    }

    /// Returns `true` when the receiving half has been dropped.
    pub fn is_closed(&self) -> bool {
        handle_count(&self.inner) < 2
    }
}

impl<T> Receiver<T> {
    #[verifier::type_invariant]
    spec fn inv(&self) -> bool {
        &&& self.inner.pred().cap == self.capacity
    }

    /// The number of items the channel holds at most.
    pub closed spec fn cap(&self) -> nat {
        self.capacity as nat
    }

    /// Takes the oldest item of the channel, if any.
    pub fn recv(&self) -> Option<T> {
        proof {
            use_type_invariant(self);
        }
        let (mut ring, handle) = self.inner.acquire_write();
        let item = ring.pop();
        handle.release_write(ring);
        item
    }

    /// The number of items the channel holds at most.
    pub fn capacity(&self) -> (r: usize)
        ensures
            r == self.cap(),
    {
        self.capacity
    }
}

} // verus!
