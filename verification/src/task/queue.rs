//! Bounded first-in first-out queues of task ids and of scancodes.
//!
//! The queues are fixed-capacity array queues. A queue is used through
//! `&mut`, by one owner at a time; where several contexts share one, the
//! owner hands it to one context at a time.

use vstd::prelude::*;
use crossbeam_queue::ArrayQueue;
use super::TaskId;

verus! {

/// The largest capacity that a queue can be made with.
pub const QUEUE_CAPACITY_MAX: usize = 0x0100_0000;

#[verifier::external_type_specification]
#[verifier::external_body]
#[verifier::reject_recursive_types(T)]
pub struct ExArrayQueue<T>(ArrayQueue<T>);

/// The task ids that wait in an array queue, oldest first.
pub uninterp spec fn task_queue_items(queue: ArrayQueue<u64>) -> Seq<u64>;

/// The number of task ids that an array queue was made for.
pub uninterp spec fn task_queue_capacity(queue: ArrayQueue<u64>) -> nat;

/// The scancodes that wait in an array queue, oldest first.
pub uninterp spec fn scancode_queue_items(queue: ArrayQueue<u8>) -> Seq<u8>;

/// The number of scancodes that an array queue was made for.
pub uninterp spec fn scancode_queue_capacity(queue: ArrayQueue<u8>) -> nat;

/// `ArrayQueue::new` for task ids: an empty queue with room for `capacity`
/// ids. The call panics on a capacity of zero and allocates `capacity` slots
/// at once, hence the bounds.
#[verifier::external_body]
fn task_queue_new(capacity: usize) -> (queue: ArrayQueue<u64>)
    requires
        0 < capacity <= QUEUE_CAPACITY_MAX,
    ensures
        task_queue_items(queue) == Seq::<u64>::empty(),
        task_queue_capacity(queue) == capacity,
{
    ArrayQueue::new(capacity)
}

/// `ArrayQueue::push` for task ids: the id goes behind the others where the
/// queue holds fewer ids than its capacity; a full queue refuses it and
/// stays as it is.
#[verifier::external_body]
fn task_queue_push(queue: &mut ArrayQueue<u64>, id: u64) -> (pushed: bool)
    ensures
        pushed == (task_queue_items(*old(queue)).len() < task_queue_capacity(*old(queue))),
        task_queue_items(*final(queue)) == if pushed {
            task_queue_items(*old(queue)).push(id)
        } else {
            task_queue_items(*old(queue))
        },
        task_queue_capacity(*final(queue)) == task_queue_capacity(*old(queue)),
{
    queue.push(id).is_ok()
}

/// `ArrayQueue::pop` for task ids: the oldest id leaves the queue; an empty
/// queue gives nothing and stays as it is.
#[verifier::external_body]
fn task_queue_pop(queue: &mut ArrayQueue<u64>) -> (id: Option<u64>)
    ensures
        id == if task_queue_items(*old(queue)).len() > 0 {
            Some(task_queue_items(*old(queue)).first())
        } else {
            None
        },
        task_queue_items(*final(queue)) == if task_queue_items(*old(queue)).len() > 0 {
            task_queue_items(*old(queue)).drop_first()
        } else {
            task_queue_items(*old(queue))
        },
        task_queue_capacity(*final(queue)) == task_queue_capacity(*old(queue)),
{
    queue.pop().ok()
}

/// `ArrayQueue::is_empty` for task ids.
#[verifier::external_body]
fn task_queue_is_empty(queue: &ArrayQueue<u64>) -> (empty: bool)
    ensures
        empty == (task_queue_items(*queue).len() == 0),
{
    queue.is_empty()
}

/// `ArrayQueue::new` for scancodes: an empty queue with room for `capacity`
/// scancodes. The call panics on a capacity of zero and allocates `capacity`
/// slots at once, hence the bounds.
#[verifier::external_body]
fn scancode_queue_new(capacity: usize) -> (queue: ArrayQueue<u8>)
    requires
        0 < capacity <= QUEUE_CAPACITY_MAX,
    ensures
        scancode_queue_items(queue) == Seq::<u8>::empty(),
        scancode_queue_capacity(queue) == capacity,
{
    ArrayQueue::new(capacity)
}

/// `ArrayQueue::push` for scancodes: the scancode goes behind the others
/// where the queue holds fewer than its capacity; a full queue refuses it and
/// stays as it is.
#[verifier::external_body]
fn scancode_queue_push(queue: &mut ArrayQueue<u8>, scancode: u8) -> (pushed: bool)
    ensures
        pushed == (scancode_queue_items(*old(queue)).len() < scancode_queue_capacity(
            *old(queue),
        )),
        scancode_queue_items(*final(queue)) == if pushed {
            scancode_queue_items(*old(queue)).push(scancode)
        } else {
            scancode_queue_items(*old(queue))
        },
        scancode_queue_capacity(*final(queue)) == scancode_queue_capacity(*old(queue)),
{
    queue.push(scancode).is_ok()
}

/// `ArrayQueue::pop` for scancodes: the oldest scancode leaves the queue; an
/// empty queue gives nothing and stays as it is.
#[verifier::external_body]
fn scancode_queue_pop(queue: &mut ArrayQueue<u8>) -> (scancode: Option<u8>)
    ensures
        scancode == if scancode_queue_items(*old(queue)).len() > 0 {
            Some(scancode_queue_items(*old(queue)).first())
        } else {
            None
        },
        scancode_queue_items(*final(queue)) == if scancode_queue_items(*old(queue)).len() > 0 {
            scancode_queue_items(*old(queue)).drop_first()
        } else {
            scancode_queue_items(*old(queue))
        },
        scancode_queue_capacity(*final(queue)) == scancode_queue_capacity(*old(queue)),
{
    queue.pop().ok()
}

/// A push that found the queue full. The item was dropped.
#[derive(Clone, Copy, Debug, PartialEq, Eq, Structural)]
pub struct QueueFull;

/// What a bounded queue holds after a push, and whether the item went in.
pub open spec fn pushed<T>(items: Seq<T>, capacity: nat, item: T) -> (Seq<T>, bool) {
    if items.len() < capacity {
        (items.push(item), true)
    } else {
        (items, false)
    }
}

/// What a queue holds after a pop, and the item that came out.
pub open spec fn popped<T>(items: Seq<T>) -> (Seq<T>, Option<T>) {
    if items.len() > 0 {
        (items.drop_first(), Some(items.first()))
    } else {
        (items, None)
    }
}

/// What a bounded queue holds after each of `more` was pushed in turn.
pub open spec fn pushed_all<T>(items: Seq<T>, capacity: nat, more: Seq<T>) -> Seq<T>
    decreases more.len(),
{
    if more.len() == 0 {
        items
    } else {
        pushed_all(pushed(items, capacity, more.first()).0, capacity, more.drop_first())
    }
}

/// The items that come out when a queue is popped until it is empty, in the
/// order in which they come.
pub open spec fn drained<T>(items: Seq<T>) -> Seq<T>
    decreases items.len(),
{
    match popped(items).1 {
        Some(item) => seq![item] + drained(popped(items).0),
        None => Seq::empty(),
    }
}

/// Draining a queue gives what it holds, oldest first.
pub proof fn lemma_drained_is_items<T>(items: Seq<T>)
    ensures
        drained(items) == items,
    decreases items.len(),
{
    if items.len() > 0 {
        lemma_drained_is_items(items.drop_first());
        assert(seq![items.first()] + items.drop_first() =~= items);
    }
}

/// Items that are pushed while there is room go behind those in the queue,
/// in the order in which they were pushed.
pub proof fn lemma_pushed_all_with_room<T>(items: Seq<T>, capacity: nat, more: Seq<T>)
    requires
        items.len() + more.len() <= capacity,
    ensures
        pushed_all(items, capacity, more) == items + more,
    decreases more.len(),
{
    if more.len() == 0 {
        assert(items + more =~= items);
    } else {
        lemma_pushed_all_with_room(items.push(more.first()), capacity, more.drop_first());
        assert(items.push(more.first()) + more.drop_first() =~= items + more);
    }
}

/// As many items as an empty queue has room for come out as they went in,
/// and while the queue is full a further push is refused and changes nothing.
pub proof fn lemma_fifo_within_capacity<T>(capacity: nat, items: Seq<T>, extra: T)
    requires
        items.len() <= capacity,
    ensures
        drained(pushed_all(Seq::empty(), capacity, items)) == items,
        items.len() == capacity ==> pushed(
            pushed_all(Seq::empty(), capacity, items),
            capacity,
            extra,
        ) == (items, false),
{
    lemma_pushed_all_with_room(Seq::empty(), capacity, items);
    assert(Seq::<T>::empty() + items =~= items);
    lemma_drained_is_items(items);
}

/// The queue of the ids of the tasks that were woken, oldest first.
pub struct WakeQueue {
    queue: ArrayQueue<u64>,
}

impl View for WakeQueue {
    type V = Seq<u64>;

    closed spec fn view(&self) -> Seq<u64> {
        task_queue_items(self.queue)
    }
}

impl WakeQueue {
    /// The number of ids that the queue has room for.
    pub closed spec fn capacity(&self) -> nat {
        task_queue_capacity(self.queue)
    }

    /// An empty queue with room for `capacity` ids.
    pub fn new(capacity: usize) -> (queue: WakeQueue)
        requires
            0 < capacity <= QUEUE_CAPACITY_MAX,
        ensures
            queue@ == Seq::<u64>::empty(),
            queue.capacity() == capacity,
    {
        WakeQueue { queue: task_queue_new(capacity) }
    }

    /// Puts `id` behind the ids that wait. A full queue drops it and says so.
    pub fn push(&mut self, id: TaskId) -> (r: Result<(), QueueFull>)
        ensures
            (final(self)@, r is Ok) == pushed(old(self)@, old(self).capacity(), id.0),
            final(self).capacity() == old(self).capacity(),
    {
        if task_queue_push(&mut self.queue, id.0) {
            Ok(())
        } else {
            Err(QueueFull)
        }
    }

    /// Takes out the id that has waited longest.
    pub fn pop(&mut self) -> (id: Option<TaskId>)
        ensures
            final(self)@ == popped(old(self)@).0,
            id == match popped(old(self)@).1 {
                Some(id) => Some(TaskId(id)),
                None => None,
            },
            final(self).capacity() == old(self).capacity(),
    {
        match task_queue_pop(&mut self.queue) {
            Some(id) => Some(TaskId(id)),
            None => None,
        }
    }

    /// Whether no id waits.
    pub fn is_empty(&self) -> (empty: bool)
        ensures
            empty == (self@.len() == 0),
    {
        task_queue_is_empty(&self.queue)
    }
}

/// The queue of the scancodes that came from the keyboard, oldest first.
pub struct ScancodeQueue {
    queue: ArrayQueue<u8>,
}

impl View for ScancodeQueue {
    type V = Seq<u8>;

    closed spec fn view(&self) -> Seq<u8> {
        scancode_queue_items(self.queue)
    }
}

impl ScancodeQueue {
    /// The number of scancodes that the queue has room for.
    pub closed spec fn capacity(&self) -> nat {
        scancode_queue_capacity(self.queue)
    }

    /// An empty queue with room for `capacity` scancodes.
    pub fn new(capacity: usize) -> (queue: ScancodeQueue)
        requires
            0 < capacity <= QUEUE_CAPACITY_MAX,
        ensures
            queue@ == Seq::<u8>::empty(),
            queue.capacity() == capacity,
    {
        ScancodeQueue { queue: scancode_queue_new(capacity) }
    }

    /// Puts `scancode` behind those that wait. A full queue drops it and says
    /// so.
    pub fn push(&mut self, scancode: u8) -> (r: Result<(), QueueFull>)
        ensures
            (final(self)@, r is Ok) == pushed(old(self)@, old(self).capacity(), scancode),
            final(self).capacity() == old(self).capacity(),
    {
        if scancode_queue_push(&mut self.queue, scancode) {
            Ok(())
        } else {
            Err(QueueFull)
        }
    }

    /// Takes out the scancode that has waited longest.
    pub fn pop(&mut self) -> (scancode: Option<u8>)
        ensures
            (final(self)@, scancode) == popped(old(self)@),
            final(self).capacity() == old(self).capacity(),
    {
        scancode_queue_pop(&mut self.queue)
    }
}

} // verus!
