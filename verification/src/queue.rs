//! The queue that a ring buffer implements, as a mathematical value, and
//! the laws of its operations.

use vstd::prelude::*;

verus! {

/// The abstract state of a ring buffer: the queued elements, oldest first,
/// and the fixed number of elements the buffer can hold.
pub struct Queue<T> {
    pub contents: Seq<T>,
    pub capacity: nat,
}

impl<T> Queue<T> {
    /// A queue holds at least one slot and never more elements than slots.
    pub open spec fn wf(self) -> bool {
        1 <= self.capacity && self.contents.len() <= self.capacity
    }

    /// The queue without elements and with room for `capacity` of them.
    pub open spec fn empty(capacity: nat) -> Self {
        Queue { contents: Seq::empty(), capacity }
    }

    pub open spec fn len(self) -> nat {
        self.contents.len()
    }

    pub open spec fn is_empty(self) -> bool {
        self.contents.len() == 0
    }

    pub open spec fn is_full(self) -> bool {
        self.contents.len() == self.capacity
    }

    /// The state after offering `item`: a full queue stays as it is,
    /// any other queue receives `item` behind its last element.
    pub open spec fn enqueue(self, item: T) -> Self {
        if self.is_full() {
            self
        } else {
            Queue { contents: self.contents.push(item), capacity: self.capacity }
        }
    }

    /// The oldest element, if there is one.
    pub open spec fn front(self) -> Option<T> {
        if self.is_empty() {
            None
        } else {
            Some(self.contents[0])
        }
    }

    /// The state after taking the oldest element away; an empty queue
    /// stays as it is.
    pub open spec fn dequeue(self) -> Self {
        if self.is_empty() {
            self
        } else {
            Queue { contents: self.contents.skip(1), capacity: self.capacity }
        }
    }

    /// The state after forgetting every element.
    pub open spec fn clear(self) -> Self {
        Queue { contents: Seq::empty(), capacity: self.capacity }
    }

    /// The state after one step of a caller's program.
    pub open spec fn step(self, step: Step<T>) -> Self {
        match step {
            Step::Enqueue(item) => self.enqueue(item),
            Step::Dequeue => self.dequeue(),
            Step::Clear => self.clear(),
        }
    }

    /// The state after the steps of `steps`, first to last.
    pub open spec fn run(self, steps: Seq<Step<T>>) -> Self
        decreases steps.len(),
    {
        if steps.len() == 0 {
            self
        } else {
            self.step(steps[0]).run(steps.skip(1))
        }
    }

    /// The state after offering the elements of `items` one by one.
    pub open spec fn enqueue_all(self, items: Seq<T>) -> Self {
        self.run(Step::enqueues(items))
    }

    /// The state after `n` dequeues in a row.
    pub open spec fn dequeue_n(self, n: nat) -> Self {
        self.run(Step::dequeues(n))
    }
}

/// One mutating operation on a queue, as a value.
pub enum Step<T> {
    Enqueue(T),
    Dequeue,
    Clear,
}

impl<T> Step<T> {
    /// One enqueue for each element of `items`, in order.
    pub open spec fn enqueues(items: Seq<T>) -> Seq<Step<T>> {
        Seq::new(items.len(), |i: int| Step::Enqueue(items[i]))
    }

    /// `n` dequeues.
    pub open spec fn dequeues(n: nat) -> Seq<Step<T>> {
        Seq::new(n, |i: int| Step::Dequeue)
    }
}

/// No sequence of operations changes the capacity, and none leads out of
/// the well-formed states.
pub proof fn lemma_capacity_is_invariant<T>(queue: Queue<T>, steps: Seq<Step<T>>)
    ensures
        queue.run(steps).capacity == queue.capacity,
        queue.wf() ==> queue.run(steps).wf(),
    decreases steps.len(),
{
    if steps.len() > 0 {
        lemma_capacity_is_invariant(queue.step(steps[0]), steps.skip(1));
    }
}

/// While there is room for all of `items`, offering them one by one appends
/// them in order and refuses none.
pub proof fn lemma_enqueue_all_appends<T>(queue: Queue<T>, items: Seq<T>)
    requires
        queue.len() + items.len() <= queue.capacity,
    ensures
        queue.enqueue_all(items).contents == queue.contents + items,
        queue.enqueue_all(items).capacity == queue.capacity,
        forall|k: int|
            0 <= k < items.len() ==> !(#[trigger] queue.enqueue_all(items.take(k))).is_full(),
    decreases items.len(),
{
    if items.len() == 0 {
        assert(queue.contents + items =~= queue.contents);
    } else {
        let next = queue.enqueue(items[0]);
        let rest = items.skip(1);
        assert(Step::enqueues(items).skip(1) =~= Step::enqueues(rest));
        lemma_enqueue_all_appends(next, rest);
        assert(next.contents + rest =~= queue.contents + items);
        assert forall|k: int| 0 <= k < items.len() implies !(#[trigger] queue.enqueue_all(
            items.take(k),
        )).is_full() by {
            let offered = items.take(k);
            if k == 0 {
                assert(queue.enqueue_all(offered) == queue);
            } else {
                assert(offered[0] == items[0]);
                assert(Step::enqueues(offered).skip(1) =~= Step::enqueues(rest.take(k - 1)));
                assert(queue.enqueue_all(offered) == next.enqueue_all(rest.take(k - 1)));
            }
        }
    }
}

/// Taking `n` elements from a queue that holds at least `n` yields its
/// `n` oldest elements in order and leaves the others.
pub proof fn lemma_dequeue_n_skips<T>(queue: Queue<T>, n: nat)
    requires
        n <= queue.len(),
    ensures
        queue.dequeue_n(n).contents == queue.contents.skip(n as int),
        queue.dequeue_n(n).capacity == queue.capacity,
        forall|k: int|
            0 <= k < n ==> (#[trigger] queue.dequeue_n(k as nat)).front() == Some(
                queue.contents[k],
            ),
    decreases n,
{
    if n == 0 {
        assert(queue.contents.skip(0) =~= queue.contents);
    } else {
        let next = queue.dequeue();
        assert(Step::<T>::dequeues(n).skip(1) =~= Step::<T>::dequeues((n - 1) as nat));
        lemma_dequeue_n_skips(next, (n - 1) as nat);
        assert(next.contents.skip(n - 1) =~= queue.contents.skip(n as int));
        assert forall|k: int| 0 <= k < n implies (#[trigger] queue.dequeue_n(k as nat)).front()
            == Some(queue.contents[k]) by {
            if k > 0 {
                assert(Step::<T>::dequeues(k as nat).skip(1) =~= Step::<T>::dequeues(
                    (k - 1) as nat,
                ));
                assert(queue.dequeue_n(k as nat) == next.dequeue_n((k - 1) as nat));
            }
        }
    }
}

/// First in, first out: after `items` went into a fresh buffer that has
/// room for them, each was accepted, and the dequeues that follow return
/// them in the order in which they were offered, leaving the buffer empty.
pub proof fn lemma_fifo_order<T>(capacity: nat, items: Seq<T>)
    requires
        1 <= capacity,
        items.len() <= capacity,
    ensures
        forall|k: int|
            0 <= k < items.len() ==> !(#[trigger] Queue::empty(capacity).enqueue_all(
                items.take(k),
            )).is_full(),
        Queue::empty(capacity).enqueue_all(items).contents == items,
        forall|k: int|
            0 <= k < items.len() ==> (#[trigger] Queue::empty(capacity).enqueue_all(
                items,
            ).dequeue_n(k as nat)).front() == Some(items[k]),
        Queue::empty(capacity).enqueue_all(items).dequeue_n(items.len()).is_empty(),
{
    let fresh = Queue::<T>::empty(capacity);
    lemma_enqueue_all_appends(fresh, items);
    assert(fresh.contents + items =~= items);
    lemma_dequeue_n_skips(fresh.enqueue_all(items), items.len());
}

/// Dequeues on an empty buffer, however many, find nothing and change
/// nothing.
pub proof fn lemma_empty_dequeue_repeats<T>(queue: Queue<T>, n: nat)
    requires
        queue.is_empty(),
    ensures
        queue.dequeue_n(n) == queue,
        queue.dequeue_n(n).front() is None,
    decreases n,
{
    if n > 0 {
        assert(Step::<T>::dequeues(n).skip(1) =~= Step::<T>::dequeues((n - 1) as nat));
        lemma_empty_dequeue_repeats(queue, (n - 1) as nat);
    }
}

/// Across the wrap: a buffer filled to its capacity with `first`, then
/// relieved of its `k` oldest elements, accepts `k` more and is full again;
/// it then holds what was left of `first`, followed by `more`, in order.
pub proof fn lemma_wraparound_keeps_order<T>(capacity: nat, first: Seq<T>, k: nat, more: Seq<T>)
    requires
        1 <= capacity,
        first.len() == capacity,
        k < capacity,
        more.len() == k,
    ensures
        Queue::empty(capacity).enqueue_all(first).is_full(),
        Queue::empty(capacity).enqueue_all(first).dequeue_n(k).len() == capacity - k,
        Queue::empty(capacity).enqueue_all(first).dequeue_n(k).enqueue_all(more).len() == capacity,
        Queue::empty(capacity).enqueue_all(first).dequeue_n(k).enqueue_all(more).is_full(),
        Queue::empty(capacity).enqueue_all(first).dequeue_n(k).enqueue_all(more).contents
            == first.skip(k as int) + more,
{
    let fresh = Queue::<T>::empty(capacity);
    lemma_enqueue_all_appends(fresh, first);
    assert(fresh.contents + first =~= first);
    let filled = fresh.enqueue_all(first);
    lemma_dequeue_n_skips(filled, k);
    lemma_enqueue_all_appends(filled.dequeue_n(k), more);
}

/// Clearing twice is clearing once, and a cleared buffer is in the state of
/// a fresh one of the same capacity, whatever it held before: what is
/// enqueued or dequeued next fares as it would on a fresh buffer.
pub proof fn lemma_clear_resets<T>(queue: Queue<T>, item: T)
    ensures
        queue.clear().clear() == queue.clear(),
        queue.clear() == Queue::<T>::empty(queue.capacity),
        queue.clear().len() == 0,
        queue.clear().enqueue(item) == Queue::<T>::empty(queue.capacity).enqueue(item),
        1 <= queue.capacity ==> queue.clear().enqueue(item).front() == Some(item)
            && queue.clear().enqueue(item).dequeue() == Queue::<T>::empty(queue.capacity),
{
    let fresh = Queue::<T>::empty(queue.capacity);
    if 1 <= queue.capacity {
        assert(fresh.enqueue(item).contents.skip(1) =~= fresh.contents);
    }
}

} // verus!
