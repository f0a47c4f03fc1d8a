//! The executor: a table of tasks and a queue of the ids of those that were
//! woken.
//!
//! A task is polled when its id comes out of the wake queue. A task that is
//! done leaves the table; a task that waits stays until it is woken again.
//! Ids of tasks that are no longer in the table are passed over.

use vstd::prelude::*;
use std::collections::BTreeMap;
use super::queue::pushed;
use super::queue::QueueFull;
use super::queue::WakeQueue;
use super::Poll;
use super::Task;
use super::TaskId;
use super::TaskWaker;

verus! {

/// The number of ids that the wake queue of an executor has room for.
pub const WAKE_QUEUE_CAPACITY: usize = 100;

/// Why a task was not taken in.
#[derive(Debug, Copy, Clone, PartialEq, Eq, Structural)]
pub enum SpawnError {
    /// The table holds a task with the same id.
    DuplicateId,
    /// The wake queue has no room for the task's id.
    QueueFull,
}

/// What the processor does when a pass over the wake queue is over.
#[derive(Debug, Copy, Clone, PartialEq, Eq, Structural)]
pub enum IdleAction {
    /// No task was woken: halt until the next interrupt, and let interrupts
    /// in again in the same step.
    EnableAndHalt,
    /// A task was woken meanwhile: let interrupts in again and go on.
    Enable,
}

/// The state of an executor: the tasks by their ids, the ids in the wake
/// queue, oldest first, with the queue's capacity, and the handles of the
/// tasks that wait, by the tasks' ids.
pub struct ExecutorState {
    pub tasks: Map<u64, Task>,
    pub queue: Seq<u64>,
    pub capacity: nat,
    pub wakers: Map<u64, TaskWaker>,
}

impl ExecutorState {
    /// Every task is filed under its own id, and every handle belongs to a
    /// task of the table and wakes that task.
    pub open spec fn wf(self) -> bool {
        &&& forall|id: u64| #[trigger] self.tasks.contains_key(id) ==> self.tasks[id].id() == TaskId(id)
        &&& forall|id: u64| #[trigger]
            self.wakers.contains_key(id) ==> self.tasks.contains_key(id) && self.wakers[id] == (
            TaskWaker { task_id: TaskId(id) })
    }

    /// The state after `task` came into the table and its id into the wake
    /// queue.
    pub open spec fn spawn(self, task: Task) -> ExecutorState {
        ExecutorState {
            tasks: self.tasks.insert(task.id().0, task),
            queue: self.queue.push(task.id().0),
            ..self
        }
    }

    /// The state after the task `id` was woken, and whether the wake queue
    /// had room for the id.
    pub open spec fn wake(self, id: TaskId) -> (ExecutorState, bool) {
        (
            ExecutorState { queue: pushed(self.queue, self.capacity, id.0).0, ..self },
            pushed(self.queue, self.capacity, id.0).1,
        )
    }

    /// The state after the next task that was woken left the table to be
    /// polled, with that task and its handle. Ids without a task in the table
    /// are dropped from the wake queue on the way.
    pub open spec fn next_ready(self) -> (ExecutorState, Option<(Task, TaskWaker)>)
        decreases self.queue.len(),
    {
        if self.queue.len() == 0 {
            (self, None)
        } else {
            let id = self.queue.first();
            if self.tasks.contains_key(id) {
                (
                    ExecutorState {
                        tasks: self.tasks.remove(id),
                        queue: self.queue.drop_first(),
                        wakers: self.wakers.remove(id),
                        ..self
                    },
                    Some((self.tasks[id], TaskWaker { task_id: TaskId(id) })),
                )
            } else {
                (ExecutorState { queue: self.queue.drop_first(), ..self }).next_ready()
            }
        }
    }

    /// The state after a task that had left the table was polled: a task
    /// that is done is gone with its handle, a task that waits is back in the
    /// table, and its handle is kept for the next poll.
    pub open spec fn finish_poll(self, task: Task, waker: TaskWaker, outcome: Poll<()>)
        -> ExecutorState {
        match outcome {
            Poll::Ready(_) => self,
            Poll::Pending => ExecutorState {
                tasks: self.tasks.insert(task.id().0, task),
                wakers: self.wakers.insert(task.id().0, waker),
                ..self
            },
        }
    }

    /// Taking a task in keeps the state well formed.
    pub proof fn lemma_spawn(self, task: Task)
        requires
            self.wf(),
        ensures
            self.spawn(task).wf(),
    {
        let next = self.spawn(task);
        assert(TaskId(task.id().0) == task.id());
        assert forall|id: u64| #[trigger] next.tasks.contains_key(id) implies next.tasks[id].id()
            == TaskId(id) by {
            if id != task.id().0 {
                assert(self.tasks.contains_key(id));
            }
        }
        assert forall|id: u64| #[trigger] next.wakers.contains_key(id) implies next.tasks.contains_key(
            id,
        ) && next.wakers[id] == (TaskWaker { task_id: TaskId(id) }) by {
            assert(self.wakers.contains_key(id));
        }
    }

    /// Filing a task that was polled keeps the state well formed.
    pub proof fn lemma_finish_poll(self, task: Task, waker: TaskWaker, outcome: Poll<()>)
        requires
            self.wf(),
            waker == (TaskWaker { task_id: task.id() }),
        ensures
            self.finish_poll(task, waker, outcome).wf(),
    {
        let next = self.finish_poll(task, waker, outcome);
        assert(TaskId(task.id().0) == task.id());
        if outcome is Pending {
            assert forall|id: u64| #[trigger] next.tasks.contains_key(id) implies next.tasks[id].id()
                == TaskId(id) by {
                if id != task.id().0 {
                    assert(self.tasks.contains_key(id));
                }
            }
            assert forall|id: u64| #[trigger] next.wakers.contains_key(id) implies next.tasks.contains_key(
                id,
            ) && next.wakers[id] == (TaskWaker { task_id: TaskId(id) }) by {
                if id != task.id().0 {
                    assert(self.wakers.contains_key(id));
                }
            }
        }
    }

    /// What taking the next woken task does: the tasks and handles stay but
    /// for those of the task that is taken; the ids that leave the wake queue
    /// are that of the task taken and those without a task; and the queue
    /// gets shorter unless it was empty.
    pub proof fn lemma_next_ready(self)
        requires
            self.wf(),
        ensures
            self.next_ready().0.wf(),
            self.next_ready().0.capacity == self.capacity,
            forall|id: u64| #[trigger]
                self.next_ready().0.queue.contains(id) ==> self.queue.contains(id),
            match self.next_ready().1 {
                Some((task, waker)) => {
                    let id = task.id().0;
                    &&& self.queue.contains(id)
                    &&& self.tasks.contains_key(id)
                    &&& task == self.tasks[id]
                    &&& waker == (TaskWaker { task_id: TaskId(id) })
                    &&& self.next_ready().0.tasks == self.tasks.remove(id)
                    &&& self.next_ready().0.wakers == self.wakers.remove(id)
                    &&& self.next_ready().0.queue.len() < self.queue.len()
                    &&& forall|other: u64| #[trigger]
                        self.queue.contains(other) && !self.next_ready().0.queue.contains(other)
                            ==> other == id || !self.tasks.contains_key(other)
                },
                None => {
                    &&& self.next_ready().0.tasks == self.tasks
                    &&& self.next_ready().0.wakers == self.wakers
                    &&& self.next_ready().0.queue.len() == 0
                    &&& forall|other: u64| #[trigger]
                        self.queue.contains(other) ==> !self.tasks.contains_key(other)
                },
            },
        decreases self.queue.len(),
    {
        if self.queue.len() > 0 {
            let id = self.queue.first();
            let rest = self.queue.drop_first();
            let next = self.next_ready().0;
            assert(self.queue[0] == id);
            assert forall|other: u64| rest.contains(other) implies self.queue.contains(other) by {
                let i = choose|i: int| 0 <= i < rest.len() && rest[i] == other;
                assert(self.queue[i + 1] == other);
            }
            assert forall|other: u64|
                self.queue.contains(other) && !rest.contains(other) implies other == id by {
                let i = choose|i: int| 0 <= i < self.queue.len() && self.queue[i] == other;
                if i > 0 {
                    assert(rest[i - 1] == other);
                }
            }
            if self.tasks.contains_key(id) {
                assert(next.queue == rest);
                assert(next.wf());
            } else {
                let shorter = ExecutorState { queue: rest, ..self };
                shorter.lemma_next_ready();
                assert(self.next_ready() == shorter.next_ready());
                assert forall|other: u64| #[trigger] next.queue.contains(other) implies self.queue.contains(
                    other,
                ) by {
                    assert(shorter.queue.contains(other));
                }
                match self.next_ready().1 {
                    Some((task, waker)) => {
                        assert(shorter.queue.contains(task.id().0));
                        assert forall|other: u64| #[trigger]
                            self.queue.contains(other) && !next.queue.contains(other) implies other
                            == task.id().0 || !self.tasks.contains_key(other) by {
                            if shorter.queue.contains(other) {
                            }
                        }
                    },
                    None => {
                        assert forall|other: u64| #[trigger]
                            self.queue.contains(other) implies !self.tasks.contains_key(other) by {
                            if shorter.queue.contains(other) {
                            }
                        }
                    },
                }
            }
        }
    }
}

/// Polls the tasks that were woken, in the order in which they were woken.
pub struct Executor {
    tasks: BTreeMap<u64, Task>,
    task_queue: WakeQueue,
    waker_cache: BTreeMap<u64, TaskWaker>,
}

impl View for Executor {
    type V = ExecutorState;

    closed spec fn view(&self) -> ExecutorState {
        ExecutorState {
            tasks: self.tasks@,
            queue: self.task_queue@,
            capacity: self.task_queue.capacity(),
            wakers: self.waker_cache@,
        }
    }
}

impl Executor {
    /// Every task is filed under its own id, and every handle belongs to a
    /// task of the table.
    pub open spec fn wf(&self) -> bool {
        self@.wf()
    }

    /// An executor without tasks, whose wake queue has room for
    /// `WAKE_QUEUE_CAPACITY` ids.
    pub fn new() -> (executor: Executor)
        ensures
            executor.wf(),
            executor@ == (ExecutorState {
                tasks: Map::empty(),
                queue: Seq::empty(),
                capacity: WAKE_QUEUE_CAPACITY as nat,
                wakers: Map::empty(),
            }),
    {
        Executor {
            tasks: BTreeMap::new(),
            task_queue: WakeQueue::new(WAKE_QUEUE_CAPACITY),
            waker_cache: BTreeMap::new(),
        }
    }

    /// Whether the table holds a task with the id `id`.
    pub fn contains(&self, id: TaskId) -> (found: bool)
        ensures
            found == self@.tasks.contains_key(id.0),
    {
        self.tasks.contains_key(&id.0)
    }

    /// Takes `task` into the table and puts its id into the wake queue, so
    /// that the task is polled in the next pass. The table holds no task with
    /// the same id, and the wake queue has room.
    pub fn spawn(&mut self, task: Task)
        requires
            old(self).wf(),
            !old(self)@.tasks.contains_key(task.id().0),
            old(self)@.queue.len() < old(self)@.capacity,
        ensures
            final(self).wf(),
            final(self)@ == old(self)@.spawn(task),
    {
        proof {
            self@.lemma_spawn(task);
        }
        let task_id = task.id();
        self.tasks.insert(task_id.0, task);
        let _ = self.task_queue.push(task_id);
    }

    /// Takes `task` in as `spawn` does, or says why it cannot, and then
    /// changes nothing.
    pub fn try_spawn(&mut self, task: Task) -> (r: Result<(), SpawnError>)
        requires
            old(self).wf(),
        ensures
            final(self).wf(),
            r == if old(self)@.tasks.contains_key(task.id().0) {
                Err::<(), SpawnError>(SpawnError::DuplicateId)
            } else if old(self)@.queue.len() >= old(self)@.capacity {
                Err::<(), SpawnError>(SpawnError::QueueFull)
            } else {
                Ok::<(), SpawnError>(())
            },
            final(self)@ == if r is Ok {
                old(self)@.spawn(task)
            } else {
                old(self)@
            },
    {
        proof {
            self@.lemma_spawn(task);
        }
        let task_id = task.id();
        if self.tasks.contains_key(&task_id.0) {
            return Err(SpawnError::DuplicateId);
        }
        match self.task_queue.push(task_id) {
            Ok(()) => {
                self.tasks.insert(task_id.0, task);
                Ok(())
            },
            Err(_) => {
                assert(self@ == old(self)@);
                Err(SpawnError::QueueFull)
            },
        }
    }

    /// Wakes the task of `waker`: its id goes into the wake queue. A full
    /// queue loses the wake-up, which is reported.
    pub fn wake(&mut self, waker: &TaskWaker) -> (r: Result<(), QueueFull>)
        requires
            old(self).wf(),
        ensures
            final(self).wf(),
            (final(self)@, r is Ok) == old(self)@.wake(waker.task_id),
    {
        let r = waker.wake_task(&mut self.task_queue);
        assert(self@ == old(self)@.wake(waker.task_id).0);
        r
    }

    /// Takes the next task that was woken out of the table, to be polled
    /// with the handle that comes with it. `None` when the wake queue is
    /// empty.
    pub fn next_ready_task(&mut self) -> (ready: Option<(Task, TaskWaker)>)
        requires
            old(self).wf(),
        ensures
            final(self).wf(),
            (final(self)@, ready) == old(self)@.next_ready(),
    {
        loop
            invariant
                self.wf(),
                self@.next_ready() == old(self)@.next_ready(),
            decreases self@.queue.len(),
        {
            let ghost before = self@;
            proof {
                before.lemma_next_ready();
            }
            let task_id = match self.task_queue.pop() {
                Some(task_id) => task_id,
                None => { return None; },
            };
            match self.tasks.remove(&task_id.0) {
                Some(task) => {
                    let waker = match self.waker_cache.remove(&task_id.0) {
                        Some(waker) => waker,
                        None => TaskWaker::new(task_id),
                    };
                    assert(self@.wakers =~= before.wakers.remove(task_id.0));
                    return Some((task, waker));
                },
                None => {
                    // the task is gone: pass over the wake-up
                    assert(self@.tasks =~= before.tasks);
                    assert(self@ == (ExecutorState { queue: before.queue.drop_first(), ..before }));
                },
            }
        }
    }

    /// Files a task that was polled: a task that is done is dropped with its
    /// handle, a task that waits goes back into the table, and its handle is
    /// kept for the next poll.
    pub fn finish_poll(&mut self, task: Task, waker: TaskWaker, outcome: Poll<()>)
        requires
            old(self).wf(),
            waker == (TaskWaker { task_id: task.id() }),
        ensures
            final(self).wf(),
            final(self)@ == old(self)@.finish_poll(task, waker, outcome),
    {
        proof {
            self@.lemma_finish_poll(task, waker, outcome);
        }
        match outcome {
            Poll::Ready(()) => {},
            Poll::Pending => {
                let task_id = task.id();
                self.tasks.insert(task_id.0, task);
                self.waker_cache.insert(task_id.0, waker);
            },
        }
    }

    /// Polls every task whose id is in the wake queue, oldest wake-up first,
    /// until the queue is empty. Whatever the polls find: no task comes into
    /// the table, a task that was not woken stays as it is, a task that was
    /// woken and is still in the table has a handle, and there is no handle
    /// without a task.
    pub fn run_ready_tasks(&mut self)
        requires
            old(self).wf(),
        ensures
            final(self).wf(),
            final(self)@.queue.len() == 0,
            final(self)@.capacity == old(self)@.capacity,
            final(self)@.tasks.dom().subset_of(old(self)@.tasks.dom()),
            forall|id: u64| #[trigger]
                old(self)@.tasks.contains_key(id) && !old(self)@.queue.contains(id) ==> {
                    &&& final(self)@.tasks.contains_key(id)
                    &&& final(self)@.tasks[id] == old(self)@.tasks[id]
                    &&& final(self)@.wakers.contains_key(id) == old(self)@.wakers.contains_key(id)
                },
            forall|id: u64| #[trigger]
                final(self)@.tasks.contains_key(id) && old(self)@.queue.contains(id)
                    ==> final(self)@.wakers.contains_key(id),
    {
        loop
            invariant
                self.wf(),
                self@.capacity == old(self)@.capacity,
                self@.tasks.dom().subset_of(old(self)@.tasks.dom()),
                forall|id: u64| #[trigger] self@.queue.contains(id) ==> old(self)@.queue.contains(id),
                forall|id: u64| #[trigger]
                    old(self)@.tasks.contains_key(id) && !old(self)@.queue.contains(id) ==> {
                        &&& self@.tasks.contains_key(id)
                        &&& self@.tasks[id] == old(self)@.tasks[id]
                        &&& self@.wakers.contains_key(id) == old(self)@.wakers.contains_key(id)
                    },
                forall|id: u64| #[trigger]
                    self@.tasks.contains_key(id) && old(self)@.queue.contains(id)
                        && !self@.queue.contains(id) ==> self@.wakers.contains_key(id),
            ensures
                self.wf(),
                self@.queue.len() == 0,
                self@.capacity == old(self)@.capacity,
                self@.tasks.dom().subset_of(old(self)@.tasks.dom()),
                forall|id: u64| #[trigger]
                    old(self)@.tasks.contains_key(id) && !old(self)@.queue.contains(id) ==> {
                        &&& self@.tasks.contains_key(id)
                        &&& self@.tasks[id] == old(self)@.tasks[id]
                        &&& self@.wakers.contains_key(id) == old(self)@.wakers.contains_key(id)
                    },
                forall|id: u64| #[trigger]
                    self@.tasks.contains_key(id) && old(self)@.queue.contains(id)
                        ==> self@.wakers.contains_key(id),
            decreases self@.queue.len(),
        {
            proof {
                self@.lemma_next_ready();
            }
            let ghost before = self@;
            match self.next_ready_task() {
                Some((mut task, waker)) => {
                    let outcome = task.poll(&waker);
                    self.finish_poll(task, waker, outcome);
                    assert forall|id: u64| #[trigger]
                        self@.tasks.contains_key(id) && old(self)@.queue.contains(id)
                            && !self@.queue.contains(id) implies self@.wakers.contains_key(id) by {
                        if id != task.id().0 {
                            assert(before.tasks.contains_key(id));
                            if before.queue.contains(id) {
                            }
                        }
                    }
                },
                None => {
                    assert forall|id: u64| #[trigger]
                        self@.tasks.contains_key(id) && old(self)@.queue.contains(id)
                            implies self@.wakers.contains_key(id) by {
                        if before.queue.contains(id) {
                        }
                    }
                    break ;
                },
            }
        }
    }

    /// What to do when a pass over the wake queue is over. To be asked while
    /// interrupts are off, so that no wake-up can come between the answer and
    /// the halt.
    pub fn sleep_if_idle(&self) -> (action: IdleAction)
        ensures
            action == if self@.queue.len() == 0 {
                IdleAction::EnableAndHalt
            } else {
                IdleAction::Enable
            },
    {
        if self.task_queue.is_empty() {
            IdleAction::EnableAndHalt
        } else {
            IdleAction::Enable
        }
    }
}

impl Default for Executor {
    fn default() -> (executor: Executor)
        ensures
            executor.wf(),
            executor@.tasks == Map::<u64, Task>::empty(),
            executor@.queue == Seq::<u64>::empty(),
    {
        Executor::new()
    }
}

} // verus!
