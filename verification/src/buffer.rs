//! The ring buffer: a queue laid out in a vector whose slots are reused in
//! a circle.

use crate::queue::{Queue, Step};
use vstd::prelude::*;

verus! {

/// The state of a ring buffer as it lies in memory: the backing store,
/// which grows up to `capacity` slots and is reused from then on, the read
/// cursor `head`, the write cursor `tail`, and the number of occupied
/// slots.
pub struct Layout<T> {
    pub data: Seq<T>,
    pub capacity: nat,
    pub head: nat,
    pub tail: nat,
    pub size: nat,
}

impl<T> Layout<T> {
    /// The states that the operations keep to: the cursors stay inside the
    /// capacity, `tail` is `size` slots ahead of `head` around the circle,
    /// the backing store is no longer than the capacity, and every
    /// occupied slot has been written.
    pub open spec fn wf(self) -> bool {
        &&& 1 <= self.capacity
        &&& self.size <= self.capacity
        &&& self.head < self.capacity
        &&& self.tail < self.capacity
        &&& self.tail == (self.head + self.size) % self.capacity
        &&& self.data.len() <= self.capacity
        &&& (self.head + self.size <= self.data.len() || self.data.len() == self.capacity)
    }

    /// The state of a new buffer: nothing stored, both cursors at the
    /// first slot.
    pub open spec fn fresh(capacity: nat) -> Self {
        Layout { data: Seq::empty(), capacity, head: 0, tail: 0, size: 0 }
    }

    pub open spec fn is_empty(self) -> bool {
        self.size == 0
    }

    pub open spec fn is_full(self) -> bool {
        self.size == self.capacity
    }

    /// The slot of the `i`-th oldest element.
    pub open spec fn slot(self, i: int) -> int {
        (self.head + i) % (self.capacity as int)
    }

    /// The queue that this state stands for: the occupied slots, read from
    /// `head` on and wrapping at `capacity`.
    pub open spec fn queue(self) -> Queue<T> {
        Queue {
            contents: Seq::new(self.size, |i: int| self.data[self.slot(i)]),
            capacity: self.capacity,
        }
    }

    /// The state after offering `item`. A full buffer stays as it is. Else
    /// `item` is written at `tail`, appended where the backing store ends
    /// there and in place of the stale value otherwise, and `tail` moves
    /// one slot on.
    pub open spec fn enqueue(self, item: T) -> Self {
        if self.is_full() {
            self
        } else {
            Layout {
                data: if self.data.len() <= self.tail {
                    self.data.push(item)
                } else {
                    self.data.update(self.tail as int, item)
                },
                capacity: self.capacity,
                head: self.head,
                tail: (self.tail + 1) % self.capacity,
                size: self.size + 1,
            }
        }
    }

    /// The state after a dequeue. An empty buffer stays as it is. Else
    /// `head` moves one slot on; the value it leaves stays in its slot.
    pub open spec fn dequeue(self) -> Self {
        if self.is_empty() {
            self
        } else {
            Layout {
                data: self.data,
                capacity: self.capacity,
                head: (self.head + 1) % self.capacity,
                tail: self.tail,
                size: (self.size - 1) as nat,
            }
        }
    }

    /// The state after a clear: the counters are back at zero and the
    /// backing store is as it was.
    pub open spec fn clear(self) -> Self {
        Layout { data: self.data, capacity: self.capacity, head: 0, tail: 0, size: 0 }
    }

    /// The state after one step of a caller's program.
    pub open spec fn step(self, step: Step<T>) -> Self {
        match step {
            Step::Enqueue(item) => self.enqueue(item),
            Step::Dequeue => self.dequeue(),
            Step::Clear => self.clear(),
        }
    }

    /// The state after the steps of `steps`, first to last.
    pub open spec fn run(self, steps: Seq<Step<T>>) -> Self
        decreases steps.len(),
    {
        if steps.len() == 0 {
            self
        } else {
            self.step(steps[0]).run(steps.skip(1))
        }
    }
}

/// Going `offset` slots on from `start` around a circle of `capacity`
/// slots wraps at most once.
proof fn lemma_slot(start: int, offset: int, capacity: int)
    requires
        0 <= start < capacity,
        0 <= offset <= capacity,
    ensures
        (start + offset) % capacity == if start + offset < capacity {
            start + offset
        } else {
            start + offset - capacity
        },
{
    if start + offset < capacity {
        vstd::arithmetic::div_mod::lemma_small_mod((start + offset) as nat, capacity as nat);
    } else {
        vstd::arithmetic::div_mod::lemma_small_mod(
            (start + offset - capacity) as nat,
            capacity as nat,
        );
        vstd::arithmetic::div_mod::lemma_mod_add_multiples_vanish(
            start + offset - capacity,
            capacity,
        );
    }
}

/// In a well-formed state the occupied slots are distinct slots of the
/// backing store, and the queue it stands for fits its capacity.
pub proof fn lemma_occupied_slots<T>(layout: Layout<T>)
    requires
        layout.wf(),
    ensures
        layout.queue().wf(),
        layout.queue().len() == layout.size,
        forall|i: int| 0 <= i < layout.size ==> 0 <= #[trigger] layout.slot(i) < layout.data.len(),
        forall|i: int, j: int|
            0 <= i < j < layout.size ==> #[trigger] layout.slot(i) != #[trigger] layout.slot(j),
        !layout.is_full() ==> layout.tail <= layout.data.len(),
        !layout.is_full() ==> forall|i: int|
            0 <= i < layout.size ==> #[trigger] layout.slot(i) != layout.tail,
{
    let capacity = layout.capacity as int;
    assert forall|i: int| 0 <= i < layout.size implies 0 <= #[trigger] layout.slot(i)
        < layout.data.len() by {
        lemma_slot(layout.head as int, i, capacity);
    }
    assert forall|i: int, j: int| 0 <= i < j < layout.size implies #[trigger] layout.slot(i)
        != #[trigger] layout.slot(j) by {
        lemma_slot(layout.head as int, i, capacity);
        lemma_slot(layout.head as int, j, capacity);
    }
    lemma_slot(layout.head as int, layout.size as int, capacity);
    if !layout.is_full() {
        assert forall|i: int| 0 <= i < layout.size implies #[trigger] layout.slot(i)
            != layout.tail by {
            lemma_slot(layout.head as int, i, capacity);
        }
    }
}

/// A new buffer is well-formed and stands for the empty queue.
pub proof fn lemma_fresh_is_empty<T>(capacity: nat)
    requires
        1 <= capacity,
    ensures
        Layout::<T>::fresh(capacity).wf(),
        Layout::<T>::fresh(capacity).queue() == Queue::<T>::empty(capacity),
{
    lemma_slot(0, 0, capacity as int);
    assert(Layout::<T>::fresh(capacity).queue().contents =~= Seq::<T>::empty());
}

/// What `enqueue` does to the slots is what it does to the queue: from any
/// well-formed state, wrapped or not, the item comes to stand behind the
/// newest element, or the state stays as it is where the buffer is full.
pub proof fn lemma_enqueue_refines<T>(layout: Layout<T>, item: T)
    requires
        layout.wf(),
    ensures
        layout.enqueue(item).wf(),
        layout.enqueue(item).queue() == layout.queue().enqueue(item),
        layout.is_full() <==> layout.queue().is_full(),
{
    lemma_occupied_slots(layout);
    if !layout.is_full() {
        let after = layout.enqueue(item);
        let capacity = layout.capacity as int;
        lemma_slot(layout.head as int, layout.size as int, capacity);
        lemma_slot(layout.tail as int, 1, capacity);
        lemma_slot(after.head as int, after.size as int, capacity);
        assert forall|i: int| 0 <= i < after.size implies #[trigger] after.queue().contents[i]
            == layout.queue().contents.push(item)[i] by {
            lemma_slot(layout.head as int, i, capacity);
            assert(after.slot(i) == layout.slot(i));
        }
        assert(after.queue().contents =~= layout.queue().contents.push(item));
    }
}

/// What `dequeue` does to the slots is what it does to the queue: from any
/// well-formed state, wrapped or not, the oldest element is the one at
/// `head`, and it leaves; an empty buffer stays as it is.
pub proof fn lemma_dequeue_refines<T>(layout: Layout<T>)
    requires
        layout.wf(),
    ensures
        layout.dequeue().wf(),
        layout.dequeue().queue() == layout.queue().dequeue(),
        layout.is_empty() <==> layout.queue().is_empty(),
        !layout.is_empty() ==> layout.head < layout.data.len() && layout.queue().front() == Some(
            layout.data[layout.head as int],
        ),
{
    lemma_occupied_slots(layout);
    if !layout.is_empty() {
        let after = layout.dequeue();
        let capacity = layout.capacity as int;
        lemma_slot(layout.head as int, 0, capacity);
        lemma_slot(layout.head as int, 1, capacity);
        lemma_slot(layout.head as int, layout.size as int, capacity);
        lemma_slot(after.head as int, after.size as int, capacity);
        assert forall|i: int| 0 <= i < after.size implies #[trigger] after.queue().contents[i]
            == layout.queue().contents.skip(1)[i] by {
            lemma_slot(layout.head as int, i + 1, capacity);
            lemma_slot(after.head as int, i, capacity);
            assert(after.slot(i) == layout.slot(i + 1));
        }
        assert(after.queue().contents =~= layout.queue().contents.skip(1));
    }
}

/// Whatever state a buffer is in, empty, full or wrapped, clearing it
/// leads to a well-formed state that stands for the empty queue.
pub proof fn lemma_clear_refines<T>(layout: Layout<T>)
    requires
        layout.wf(),
    ensures
        layout.clear().wf(),
        layout.clear().queue() == layout.queue().clear(),
        layout.clear().queue() == Queue::<T>::empty(layout.capacity),
{
    lemma_slot(0, 0, layout.capacity as int);
    assert(layout.clear().queue().contents =~= Seq::<T>::empty());
}

/// A cleared buffer is indistinguishable from a new one of the same
/// capacity: clearing again changes nothing, the backing store is as it
/// was, and whatever is done next leads to the queue that the same steps
/// lead to on a new buffer.
pub proof fn lemma_cleared_behaves_as_fresh<T>(layout: Layout<T>, steps: Seq<Step<T>>)
    requires
        layout.wf(),
    ensures
        layout.clear().clear() == layout.clear(),
        layout.clear().data == layout.data,
        layout.clear().queue().len() == 0,
        layout.clear().run(steps).queue() == Layout::<T>::fresh(layout.capacity).run(
            steps,
        ).queue(),
{
    lemma_clear_refines(layout);
    lemma_fresh_is_empty::<T>(layout.capacity);
    lemma_run_refines(layout.clear(), steps);
    lemma_run_refines(Layout::<T>::fresh(layout.capacity), steps);
}

/// Whatever a caller does with a buffer, in whatever order, the buffer
/// stays well-formed, keeps its capacity, never stores more than
/// `capacity` slots, and stands for the queue that the same steps lead to.
pub proof fn lemma_run_refines<T>(layout: Layout<T>, steps: Seq<Step<T>>)
    requires
        layout.wf(),
    ensures
        layout.run(steps).wf(),
        layout.run(steps).capacity == layout.capacity,
        layout.run(steps).data.len() <= layout.capacity,
        layout.run(steps).queue() == layout.queue().run(steps),
    decreases steps.len(),
{
    if steps.len() > 0 {
        match steps[0] {
            Step::Enqueue(item) => lemma_enqueue_refines(layout, item),
            Step::Dequeue => lemma_dequeue_refines(layout),
            Step::Clear => lemma_clear_refines(layout),
        }
        lemma_run_refines(layout.step(steps[0]), steps.skip(1));
    }
}

/// First in, first out, wherever in the circle the buffer stands: after
/// `items` went into an empty buffer that has room for them, the buffer
/// holds them in the order in which they were offered, and after as many
/// dequeues it is empty again.
pub proof fn lemma_fifo_in_slots<T>(layout: Layout<T>, items: Seq<T>)
    requires
        layout.wf(),
        layout.is_empty(),
        items.len() <= layout.capacity,
    ensures
        layout.run(Step::enqueues(items)).wf(),
        layout.run(Step::enqueues(items)).queue().contents == items,
        forall|k: int|
            0 <= k < items.len() ==> (#[trigger] layout.run(Step::enqueues(items)).run(
                Step::dequeues(k as nat),
            )).queue().front() == Some(items[k]),
        layout.run(Step::enqueues(items)).run(Step::dequeues(items.len())).is_empty(),
{
    let capacity = layout.capacity;
    let filled = layout.run(Step::enqueues(items));
    lemma_occupied_slots(layout);
    assert(layout.queue().contents =~= Queue::<T>::empty(capacity).contents);
    lemma_run_refines(layout, Step::enqueues(items));
    crate::queue::lemma_fifo_order(capacity, items);
    assert forall|k: int| 0 <= k < items.len() implies (#[trigger] filled.run(
        Step::dequeues(k as nat),
    )).queue().front() == Some(items[k]) by {
        lemma_run_refines(filled, Step::dequeues(k as nat));
        assert(filled.queue().dequeue_n(k as nat).front() == Some(items[k]));
    }
    lemma_run_refines(filled, Step::dequeues(items.len()));
    lemma_occupied_slots(filled.run(Step::dequeues(items.len())));
}

/// Across the wrap, wherever in the circle the buffer stands: an empty
/// buffer filled to its capacity with `first`, then relieved of its `k`
/// oldest elements, accepts `k` more and is full again; it then holds what
/// was left of `first`, followed by `more`, in order.
pub proof fn lemma_wraparound_in_slots<T>(layout: Layout<T>, first: Seq<T>, k: nat, more: Seq<T>)
    requires
        layout.wf(),
        layout.is_empty(),
        first.len() == layout.capacity,
        k < layout.capacity,
        more.len() == k,
    ensures
        layout.run(Step::enqueues(first)).is_full(),
        layout.run(Step::enqueues(first)).run(Step::dequeues(k)).size == layout.capacity - k,
        layout.run(Step::enqueues(first)).run(Step::dequeues(k)).run(Step::enqueues(more)).wf(),
        layout.run(Step::enqueues(first)).run(Step::dequeues(k)).run(
            Step::enqueues(more),
        ).is_full(),
        layout.run(Step::enqueues(first)).run(Step::dequeues(k)).run(
            Step::enqueues(more),
        ).queue().contents == first.skip(k as int) + more,
{
    let capacity = layout.capacity;
    let filled = layout.run(Step::enqueues(first));
    let relieved = filled.run(Step::dequeues(k));
    let refilled = relieved.run(Step::enqueues(more));
    lemma_occupied_slots(layout);
    assert(layout.queue().contents =~= Queue::<T>::empty(capacity).contents);
    lemma_run_refines(layout, Step::enqueues(first));
    lemma_run_refines(filled, Step::dequeues(k));
    lemma_run_refines(relieved, Step::enqueues(more));
    crate::queue::lemma_wraparound_keeps_order(capacity, first, k, more);
    lemma_occupied_slots(filled);
    lemma_occupied_slots(relieved);
    lemma_occupied_slots(refilled);
}

/// A FIFO queue of at most `capacity` elements, stored in a vector whose
/// slots are reused in a circle once they have all been written.
pub struct RingBuffer<T> {
    data: Vec<T>,
    capacity: usize,
    head: usize,
    tail: usize,
    size: usize,
}

impl<T> View for RingBuffer<T> {
    type V = Queue<T>;

    /// The queue that the buffer holds.
    open spec fn view(&self) -> Queue<T> {
        self.layout().queue()
    }
}

impl<T> RingBuffer<T> {
    /// The fields of the buffer as mathematical values.
    pub closed spec fn layout(&self) -> Layout<T> {
        Layout {
            data: self.data@,
            capacity: self.capacity as nat,
            head: self.head as nat,
            tail: self.tail as nat,
            size: self.size as nat,
        }
    }

    /// The invariant of the buffer. `new` establishes it and every
    /// operation keeps it.
    pub open spec fn wf(&self) -> bool {
        self.layout().wf()
    }

    /// Creates an empty buffer with room for `capacity` elements.
    pub fn new(capacity: usize) -> (buffer: Self)
        requires
            capacity >= 1,
        ensures
            buffer.wf(),
            buffer.layout() == Layout::<T>::fresh(capacity as nat),
            buffer@ == Queue::<T>::empty(capacity as nat),
            buffer@.len() == 0,
            buffer@.is_empty(),
            !buffer@.is_full(),
            buffer@.capacity == capacity,
    {
        proof {
            lemma_fresh_is_empty::<T>(capacity as nat);
        }
        RingBuffer { data: Vec::with_capacity(capacity), capacity, head: 0, tail: 0, size: 0 }
    }

    /// Puts `item` behind the newest element, or hands it back untouched
    /// when every slot is taken.
    pub fn enqueue(&mut self, item: T) -> (result: Result<(), T>)
        requires
            old(self).wf(),
        ensures
            final(self).wf(),
            final(self).layout() == old(self).layout().enqueue(item),
            final(self)@ == old(self)@.enqueue(item),
            final(self)@.capacity == old(self)@.capacity,
            old(self)@.is_full() ==> result == Err::<(), T>(item) && *final(self) == *old(self),
            !old(self)@.is_full() ==> result == Ok::<(), T>(()) && final(self)@.contents
                == old(self)@.contents.push(item),
    {
        proof {
            lemma_enqueue_refines(self.layout(), item);
            lemma_occupied_slots(self.layout());
        }
        if self.is_full() {
            return Err(item);
        }
        if self.data.len() <= self.tail {
            self.data.push(item);
        } else {
            self.data[self.tail] = item;
        }
        self.tail = (self.tail + 1) % self.capacity;
        self.size += 1;
        Ok(())
    }

    /// Takes the oldest element out of the queue and returns a clone of
    /// it; an empty buffer yields `None` and stays as it is.
    pub fn dequeue(&mut self) -> (result: Option<T>) where T: Clone
        requires
            old(self).wf(),
        ensures
            final(self).wf(),
            final(self).layout() == old(self).layout().dequeue(),
            final(self)@ == old(self)@.dequeue(),
            final(self)@.capacity == old(self)@.capacity,
            old(self)@.is_empty() ==> result is None && *final(self) == *old(self),
            !old(self)@.is_empty() ==> result is Some && cloned::<T>(
                old(self)@.contents[0],
                result->0,
            ) && final(self)@.contents == old(self)@.contents.skip(1),
    {
        proof {
            lemma_dequeue_refines(self.layout());
        }
        if self.is_empty() {
            return None;
        }
        let item = self.data[self.head].clone();
        self.head = (self.head + 1) % self.capacity;
        self.size -= 1;
        Some(item)
    }

    /// Whether every slot is taken.
    pub fn is_full(&self) -> (full: bool)
        requires
            self.wf(),
        ensures
            full == self@.is_full(),
            full == self.layout().is_full(),
    {
        proof {
            lemma_occupied_slots(self.layout());
        }
        self.size == self.capacity
    }

    /// Whether no element is queued.
    pub fn is_empty(&self) -> (empty: bool)
        requires
            self.wf(),
        ensures
            empty == self@.is_empty(),
            empty == self.layout().is_empty(),
    {
        proof {
            lemma_occupied_slots(self.layout());
        }
        self.size == 0
    }

    /// The number of queued elements.
    pub fn len(&self) -> (len: usize)
        requires
            self.wf(),
        ensures
            len == self@.len(),
            len == self.layout().size,
            len <= self@.capacity,
    {
        proof {
            lemma_occupied_slots(self.layout());
        }
        self.size
    }

    /// The number of elements the buffer can hold.
    pub fn capacity(&self) -> (capacity: usize)
        requires
            self.wf(),
        ensures
            capacity == self@.capacity,
            capacity >= 1,
    {
        self.capacity
    }

    /// Forgets every queued element. The slots keep what was written to
    /// them; nothing of it can be reached through the queue any more.
    pub fn clear(&mut self)
        requires
            old(self).wf(),
        ensures
            final(self).wf(),
            final(self).layout() == old(self).layout().clear(),
            final(self)@ == old(self)@.clear(),
            final(self)@ == Queue::<T>::empty(old(self)@.capacity),
            final(self)@.capacity == old(self)@.capacity,
            final(self)@.len() == 0,
    {
        proof {
            lemma_clear_refines(self.layout());
        }
        self.head = 0;
        self.tail = 0;
        self.size = 0;
    }
}

} // verus!
