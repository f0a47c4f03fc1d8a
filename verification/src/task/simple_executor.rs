//! An executor that polls its tasks in turn, whether they were woken or not.

use vstd::prelude::*;
use std::collections::VecDeque;
use super::Poll;
use super::Task;
use super::TaskId;
use super::TaskWaker;

verus! {

/// The ids of `tasks`, in the order of the tasks.
pub open spec fn task_ids(tasks: Seq<Task>) -> Seq<TaskId> {
    tasks.map_values(|task: Task| task.id())
}

/// Polls its tasks in turn until all are done.
pub struct SimpleExecutor {
    task_queue: VecDeque<Task>,
}

impl View for SimpleExecutor {
    type V = Seq<Task>;

    closed spec fn view(&self) -> Seq<Task> {
        self.task_queue@
    }
}

impl SimpleExecutor {
    /// An executor without tasks.
    pub fn new() -> (executor: SimpleExecutor)
        ensures
            executor@ == Seq::<Task>::empty(),
    {
        SimpleExecutor { task_queue: VecDeque::new() }
    }

    /// Takes `task` in, behind the tasks that wait for their turn.
    pub fn spawn(&mut self, task: Task)
        ensures
            final(self)@ == old(self)@.push(task),
    {
        self.task_queue.push_back(task);
    }

    /// Takes out the task whose turn it is.
    pub fn next_task(&mut self) -> (task: Option<Task>)
        ensures
            task == if old(self)@.len() > 0 {
                Some(old(self)@.first())
            } else {
                None
            },
            final(self)@ == if old(self)@.len() > 0 {
                old(self)@.drop_first()
            } else {
                old(self)@
            },
    {
        self.task_queue.pop_front()
    }

    /// Files a task that was polled: a task that is done is dropped, a task
    /// that waits goes behind the others.
    pub fn finish_poll(&mut self, task: Task, outcome: Poll<()>)
        ensures
            final(self)@ == match outcome {
                Poll::Ready(_) => old(self)@,
                Poll::Pending => old(self)@.push(task),
            },
    {
        match outcome {
            Poll::Ready(()) => {},
            Poll::Pending => self.task_queue.push_back(task),
        }
    }

    /// Polls the tasks in turn until all are done or `max_polls` polls are
    /// made, and says whether all are done. Whatever the polls find, no task
    /// comes in: every task that is left was there before.
    pub fn run(&mut self, max_polls: usize) -> (done: bool)
        ensures
            done == (final(self)@.len() == 0),
            final(self)@.len() <= old(self)@.len(),
            forall|i: int|
                0 <= i < final(self)@.len() ==> task_ids(old(self)@).contains(
                    #[trigger] final(self)@[i].id(),
                ),
            max_polls == 0 ==> final(self)@ == old(self)@,
    {
        let mut polls: usize = 0;
        proof {
            assert forall|i: int| 0 <= i < self@.len() implies task_ids(old(self)@).contains(
                #[trigger] self@[i].id(),
            ) by {
                assert(task_ids(old(self)@)[i] == self@[i].id());
            }
        }
        while polls < max_polls
            invariant
                polls <= max_polls,
                polls == 0 ==> self@ == old(self)@,
                self@.len() <= old(self)@.len(),
                forall|i: int|
                    0 <= i < self@.len() ==> task_ids(old(self)@).contains(#[trigger] self@[i].id()),
            decreases max_polls - polls,
        {
            let ghost before = self@;
            match self.next_task() {
                Some(mut task) => {
                    let waker = TaskWaker::new(task.id());
                    let outcome = task.poll(&waker);
                    self.finish_poll(task, outcome);
                    proof {
                        assert(task_ids(old(self)@).contains(before[0].id()));
                        assert forall|i: int| 0 <= i < self@.len() implies task_ids(
                            old(self)@,
                        ).contains(#[trigger] self@[i].id()) by {
                            if i < before.len() - 1 {
                                assert(self@[i] == before[i + 1]);
                            }
                        }
                    }
                },
                None => {
                    return true;
                },
            }
            polls += 1;
        }
        self.task_queue.len() == 0
    }
}

impl Default for SimpleExecutor {
    fn default() -> (executor: SimpleExecutor)
        ensures
            executor@ == Seq::<Task>::empty(),
    {
        SimpleExecutor::new()
    }
}

} // verus!
