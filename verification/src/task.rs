//! Cooperative tasks: units of work that are polled until they are done.

pub mod executor;
pub mod keyboard;
pub mod queue;
pub mod simple_executor;

use vstd::prelude::*;
use queue::QueueFull;
use queue::WakeQueue;

verus! {

/// The number by which the executor knows a task.
#[derive(Debug, Copy, Clone, PartialEq, Eq, PartialOrd, Ord, Structural)]
pub struct TaskId(pub u64);

/// The source of task ids: each id is one more than the id before it.
pub struct TaskIds {
    next: u64,
}

impl TaskIds {
    /// The id that is handed out next.
    pub closed spec fn next(&self) -> u64 {
        self.next
    }

    /// A source whose first id is 0.
    pub fn new() -> (ids: TaskIds)
        ensures
            ids.next() == 0,
    {
        TaskIds { next: 0 }
    }
}

impl TaskId {
    /// The next id of `ids`. After the largest id the count starts at 0
    /// again.
    pub fn new(ids: &mut TaskIds) -> (id: TaskId)
        ensures
            id == TaskId(old(ids).next()),
            final(ids).next() == if old(ids).next() == u64::MAX {
                0
            } else {
                old(ids).next() + 1
            },
    {
        let id = ids.next;
        ids.next = if id == u64::MAX {
            0
        } else {
            id + 1
        };
        TaskId(id)
    }
}

/// What a poll found.
#[derive(Debug, PartialEq, Eq)]
pub enum Poll<T> {
    /// The work is done, with this result.
    Ready(T),
    /// The work waits for an event.
    Pending,
}

/// The handle by which a task is woken: whoever holds it can put the task's
/// id into the wake queue.
#[derive(Debug, Copy, Clone, PartialEq, Eq, Structural)]
pub struct TaskWaker {
    pub task_id: TaskId,
}

impl TaskWaker {
    /// A handle that wakes the task `task_id`.
    pub fn new(task_id: TaskId) -> (waker: TaskWaker)
        ensures
            waker == (TaskWaker { task_id }),
    {
        TaskWaker { task_id }
    }

    /// Puts the task's id into the wake queue. A full queue loses the
    /// wake-up, which is reported.
    pub fn wake_task(&self, task_queue: &mut WakeQueue) -> (r: Result<(), QueueFull>)
        ensures
            (final(task_queue)@, r is Ok) == queue::pushed(
                old(task_queue)@,
                old(task_queue).capacity(),
                self.task_id.0,
            ),
            final(task_queue).capacity() == old(task_queue).capacity(),
    {
        task_queue.push(self.task_id)
    }

    /// Wakes the task and gives up the handle.
    pub fn wake(self, task_queue: &mut WakeQueue) -> (r: Result<(), QueueFull>)
        ensures
            (final(task_queue)@, r is Ok) == queue::pushed(
                old(task_queue)@,
                old(task_queue).capacity(),
                self.task_id.0,
            ),
            final(task_queue).capacity() == old(task_queue).capacity(),
    {
        self.wake_task(task_queue)
    }

    /// Wakes the task and keeps the handle.
    pub fn wake_by_ref(&self, task_queue: &mut WakeQueue) -> (r: Result<(), QueueFull>)
        ensures
            (final(task_queue)@, r is Ok) == queue::pushed(
                old(task_queue)@,
                old(task_queue).capacity(),
                self.task_id.0,
            ),
            final(task_queue).capacity() == old(task_queue).capacity(),
    {
        self.wake_task(task_queue)
    }
}

/// Work that is done in steps. A step either finishes the work or stops
/// where the work has to wait.
pub trait Computation {
    /// Does the next step. `waker` is the handle by which the task is to be
    /// woken when the event it waits for has come.
    fn poll(&mut self, waker: &TaskWaker) -> Poll<()>;
}

/// A unit of cooperative work: a computation with the id by which the
/// executor knows it.
pub struct Task {
    id: TaskId,
    computation: Box<dyn Computation>,
}

impl Task {
    /// The task's id.
    pub closed spec fn spec_id(&self) -> TaskId {
        self.id
    }

    /// A task for `computation`, with the next id of `ids`.
    pub fn new(ids: &mut TaskIds, computation: Box<dyn Computation>) -> (task: Task)
        ensures
            task.id() == TaskId(old(ids).next()),
            final(ids).next() == if old(ids).next() == u64::MAX {
                0
            } else {
                old(ids).next() + 1
            },
    {
        Task { id: TaskId::new(ids), computation }
    }

    /// The task's id.
    #[verifier::when_used_as_spec(spec_id)]
    pub fn id(&self) -> (id: TaskId)
        ensures
            id == self.id(),
    {
        self.id
    }

    /// Does the next step of the task's computation.
    pub fn poll(&mut self, waker: &TaskWaker) -> (outcome: Poll<()>)
        ensures
            final(self).id() == old(self).id(),
    {
        self.computation.poll(waker)
    }
}

} // verus!
