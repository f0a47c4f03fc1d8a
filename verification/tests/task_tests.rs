use mini_os::interrupts::{InterrupIndex, PIC_1_OFFSET, PIC_2_OFFSET};
use mini_os::task::executor::{Executor, IdleAction, SpawnError, WAKE_QUEUE_CAPACITY};
use mini_os::task::keyboard::{
    add_scancode, ScancodeBridge, ScancodeOutcome, ScancodeStream, SCANCODE_QUEUE_CAPACITY,
};
use mini_os::task::queue::{QueueFull, ScancodeQueue, WakeQueue};
use mini_os::task::simple_executor::SimpleExecutor;
use mini_os::task::{Computation, Poll, Task, TaskId, TaskIds, TaskWaker};
use mini_os::QemuExitcode;
use std::cell::RefCell;
use std::rc::Rc;

/// Is done after a given number of polls, and notes each poll with its waker.
struct Countdown {
    left: u32,
    log: Rc<RefCell<Vec<TaskId>>>,
}

impl Computation for Countdown {
    fn poll(&mut self, waker: &TaskWaker) -> Poll<()> {
        self.log.borrow_mut().push(waker.task_id);
        if self.left == 0 {
            Poll::Ready(())
        } else {
            self.left -= 1;
            Poll::Pending
        }
    }
}

/// Reads scancodes from a bridge until it has as many as it wants.
struct Reader {
    bridge: Rc<RefCell<ScancodeBridge>>,
    stream: ScancodeStream,
    wanted: usize,
    seen: Rc<RefCell<Vec<u8>>>,
}

impl Computation for Reader {
    fn poll(&mut self, waker: &TaskWaker) -> Poll<()> {
        loop {
            if self.seen.borrow().len() == self.wanted {
                return Poll::Ready(());
            }
            match self.stream.poll_next(&mut self.bridge.borrow_mut(), waker) {
                Poll::Ready(Some(scancode)) => self.seen.borrow_mut().push(scancode),
                Poll::Ready(None) => return Poll::Ready(()),
                Poll::Pending => return Poll::Pending,
            }
        }
    }
}

fn countdown(ids: &mut TaskIds, left: u32, log: &Rc<RefCell<Vec<TaskId>>>) -> Task {
    Task::new(ids, Box::new(Countdown { left, log: log.clone() }))
}

#[test]
fn task_ids_count_up_from_zero() {
    let mut ids = TaskIds::new();
    assert_eq!(TaskId::new(&mut ids), TaskId(0));
    assert_eq!(TaskId::new(&mut ids), TaskId(1));
    let log = Rc::new(RefCell::new(Vec::new()));
    let task = countdown(&mut ids, 0, &log);
    assert_eq!(task.id(), TaskId(2));
    assert_eq!(TaskId::new(&mut ids), TaskId(3));
}

#[test]
fn task_poll_runs_the_computation() {
    let mut ids = TaskIds::new();
    let log = Rc::new(RefCell::new(Vec::new()));
    let mut task = countdown(&mut ids, 1, &log);
    let waker = TaskWaker::new(TaskId(7));
    assert_eq!(task.poll(&waker), Poll::Pending);
    assert_eq!(task.poll(&waker), Poll::Ready(()));
    assert_eq!(*log.borrow(), vec![TaskId(7), TaskId(7)]);
    assert_eq!(task.id(), TaskId(0));
}

#[test]
fn wake_queue_is_first_in_first_out() {
    let mut queue = WakeQueue::new(5);
    assert!(queue.is_empty());
    assert_eq!(queue.pop(), None);
    for id in [11, 7, 7, 42, 3] {
        assert_eq!(queue.push(TaskId(id)), Ok(()));
    }
    assert!(!queue.is_empty());
    for id in [11, 7, 7, 42, 3] {
        assert_eq!(queue.pop(), Some(TaskId(id)));
    }
    assert_eq!(queue.pop(), None);
    assert!(queue.is_empty());
}

#[test]
fn wake_queue_overflow_is_reported_and_harmless() {
    let mut queue = WakeQueue::new(3);
    assert_eq!(queue.push(TaskId(1)), Ok(()));
    assert_eq!(queue.push(TaskId(2)), Ok(()));
    assert_eq!(queue.push(TaskId(3)), Ok(()));
    assert_eq!(queue.push(TaskId(4)), Err(QueueFull));
    assert_eq!(queue.push(TaskId(5)), Err(QueueFull));
    assert_eq!(queue.pop(), Some(TaskId(1)));
    assert_eq!(queue.push(TaskId(6)), Ok(()));
    assert_eq!(queue.pop(), Some(TaskId(2)));
    assert_eq!(queue.pop(), Some(TaskId(3)));
    assert_eq!(queue.pop(), Some(TaskId(6)));
    assert_eq!(queue.pop(), None);
}

#[test]
fn wake_queue_keeps_its_order_over_many_laps() {
    let mut queue = WakeQueue::new(4);
    let mut next_in = 0;
    let mut next_out = 0;
    for lap in 0..50 {
        for _ in 0..(lap % 4 + 1) {
            assert_eq!(queue.push(TaskId(next_in)), Ok(()));
            next_in += 1;
        }
        for _ in 0..(lap % 4 + 1) {
            assert_eq!(queue.pop(), Some(TaskId(next_out)));
            next_out += 1;
        }
    }
    assert!(queue.is_empty());
}

#[test]
fn scancode_queue_is_bounded_and_ordered() {
    let mut queue = ScancodeQueue::new(2);
    assert_eq!(queue.pop(), None);
    assert_eq!(queue.push(0x1e), Ok(()));
    assert_eq!(queue.push(0x30), Ok(()));
    assert_eq!(queue.push(0x2e), Err(QueueFull));
    assert_eq!(queue.pop(), Some(0x1e));
    assert_eq!(queue.pop(), Some(0x30));
    assert_eq!(queue.pop(), None);
}

#[test]
fn waker_puts_its_task_into_the_wake_queue() {
    let mut queue = WakeQueue::new(2);
    let waker = TaskWaker::new(TaskId(9));
    assert_eq!(waker.task_id, TaskId(9));
    assert_eq!(waker.wake_task(&mut queue), Ok(()));
    assert_eq!(waker.wake_by_ref(&mut queue), Ok(()));
    assert_eq!(waker.wake(&mut queue), Err(QueueFull));
    assert_eq!(queue.pop(), Some(TaskId(9)));
    assert_eq!(queue.pop(), Some(TaskId(9)));
    assert_eq!(queue.pop(), None);
}

#[test]
fn executor_polls_spawned_tasks_in_order() {
    let mut ids = TaskIds::new();
    let log = Rc::new(RefCell::new(Vec::new()));
    let mut executor = Executor::new();
    assert_eq!(executor.sleep_if_idle(), IdleAction::EnableAndHalt);
    executor.spawn(countdown(&mut ids, 0, &log));
    executor.spawn(countdown(&mut ids, 1, &log));
    executor.spawn(countdown(&mut ids, 0, &log));
    assert_eq!(executor.sleep_if_idle(), IdleAction::Enable);
    executor.run_ready_tasks();
    assert_eq!(*log.borrow(), vec![TaskId(0), TaskId(1), TaskId(2)]);
    assert_eq!(executor.sleep_if_idle(), IdleAction::EnableAndHalt);
    assert!(!executor.contains(TaskId(0)));
    assert!(executor.contains(TaskId(1)));
    assert!(!executor.contains(TaskId(2)));
}

#[test]
fn executor_polls_a_suspended_task_only_when_woken() {
    let mut ids = TaskIds::new();
    let log = Rc::new(RefCell::new(Vec::new()));
    let mut executor = Executor::new();
    executor.spawn(countdown(&mut ids, 2, &log));
    executor.run_ready_tasks();
    executor.run_ready_tasks();
    assert_eq!(log.borrow().len(), 1);
    let waker = TaskWaker::new(TaskId(0));
    assert_eq!(executor.wake(&waker), Ok(()));
    executor.run_ready_tasks();
    assert_eq!(log.borrow().len(), 2);
    assert!(executor.contains(TaskId(0)));
    // two wake-ups give two polls; the second poll finishes the task
    assert_eq!(executor.wake(&waker), Ok(()));
    assert_eq!(executor.wake(&waker), Ok(()));
    executor.run_ready_tasks();
    assert_eq!(log.borrow().len(), 3);
    assert!(!executor.contains(TaskId(0)));
}

#[test]
fn executor_ignores_wake_ups_for_absent_tasks() {
    let mut ids = TaskIds::new();
    let log = Rc::new(RefCell::new(Vec::new()));
    let mut executor = Executor::new();
    assert_eq!(executor.wake(&TaskWaker::new(TaskId(5))), Ok(()));
    executor.spawn(countdown(&mut ids, 0, &log));
    assert_eq!(executor.wake(&TaskWaker::new(TaskId(0))), Ok(()));
    executor.run_ready_tasks();
    assert_eq!(*log.borrow(), vec![TaskId(0)]);
    assert_eq!(executor.sleep_if_idle(), IdleAction::EnableAndHalt);
}

#[test]
fn executor_steps_take_and_file_a_task() {
    let mut ids = TaskIds::new();
    let log = Rc::new(RefCell::new(Vec::new()));
    let mut executor = Executor::new();
    assert!(executor.next_ready_task().is_none());
    executor.spawn(countdown(&mut ids, 1, &log));
    let (task, waker) = executor.next_ready_task().unwrap();
    assert_eq!(task.id(), TaskId(0));
    assert_eq!(waker, TaskWaker::new(TaskId(0)));
    assert!(!executor.contains(TaskId(0)));
    executor.finish_poll(task, waker, Poll::Pending);
    assert!(executor.contains(TaskId(0)));
    assert!(executor.next_ready_task().is_none());
    assert_eq!(executor.wake(&waker), Ok(()));
    let (task, waker) = executor.next_ready_task().unwrap();
    executor.finish_poll(task, waker, Poll::Ready(()));
    assert!(!executor.contains(TaskId(0)));
}

#[test]
fn try_spawn_refuses_a_second_task_with_the_same_id() {
    let log = Rc::new(RefCell::new(Vec::new()));
    let mut executor = Executor::new();
    let mut ids = TaskIds::new();
    let mut other_ids = TaskIds::new();
    assert_eq!(executor.try_spawn(countdown(&mut ids, 0, &log)), Ok(()));
    assert_eq!(
        executor.try_spawn(countdown(&mut other_ids, 0, &log)),
        Err(SpawnError::DuplicateId)
    );
    assert_eq!(executor.try_spawn(countdown(&mut ids, 0, &log)), Ok(()));
    executor.run_ready_tasks();
    assert_eq!(*log.borrow(), vec![TaskId(0), TaskId(1)]);
}

#[test]
fn try_spawn_reports_a_full_wake_queue() {
    let log = Rc::new(RefCell::new(Vec::new()));
    let mut executor = Executor::new();
    let mut ids = TaskIds::new();
    assert_eq!(WAKE_QUEUE_CAPACITY, 100);
    for _ in 0..WAKE_QUEUE_CAPACITY {
        assert_eq!(executor.try_spawn(countdown(&mut ids, 0, &log)), Ok(()));
    }
    assert_eq!(executor.try_spawn(countdown(&mut ids, 0, &log)), Err(SpawnError::QueueFull));
    assert!(!executor.contains(TaskId(100)));
    assert_eq!(executor.wake(&TaskWaker::new(TaskId(0))), Err(QueueFull));
    executor.run_ready_tasks();
    assert_eq!(log.borrow().len(), 100);
    assert_eq!(executor.try_spawn(countdown(&mut ids, 0, &log)), Ok(()));
}

#[test]
fn a_finished_task_leaves_and_a_reader_waits_for_a_scancode() {
    let bridge = Rc::new(RefCell::new(ScancodeBridge::new()));
    let stream = ScancodeStream::new(&mut bridge.borrow_mut());
    let seen = Rc::new(RefCell::new(Vec::new()));
    let log = Rc::new(RefCell::new(Vec::new()));
    let mut ids = TaskIds::new();
    let mut executor = Executor::new();
    executor.spawn(countdown(&mut ids, 0, &log));
    executor.spawn(Task::new(
        &mut ids,
        Box::new(Reader { bridge: bridge.clone(), stream, wanted: 1, seen: seen.clone() }),
    ));
    executor.run_ready_tasks();
    // one pass: the first task is gone, the reader waits
    assert!(!executor.contains(TaskId(0)));
    assert!(executor.contains(TaskId(1)));
    assert_eq!(executor.sleep_if_idle(), IdleAction::EnableAndHalt);
    executor.run_ready_tasks();
    assert!(executor.contains(TaskId(1)));
    assert!(seen.borrow().is_empty());
    // the scancode wakes the reader
    let outcome = add_scancode(&mut bridge.borrow_mut(), 0x1e);
    assert_eq!(outcome, ScancodeOutcome::Queued(Some(TaskWaker::new(TaskId(1)))));
    if let ScancodeOutcome::Queued(Some(waker)) = outcome {
        assert_eq!(executor.wake(&waker), Ok(()));
    }
    assert_eq!(executor.sleep_if_idle(), IdleAction::Enable);
    executor.run_ready_tasks();
    assert!(!executor.contains(TaskId(1)));
    assert_eq!(*seen.borrow(), vec![0x1e]);
}

#[test]
fn scancodes_pushed_before_the_first_poll_come_out_in_order() {
    let mut bridge = ScancodeBridge::new();
    let mut stream = ScancodeStream::new(&mut bridge);
    assert_eq!(SCANCODE_QUEUE_CAPACITY, 100);
    assert_eq!(add_scancode(&mut bridge, 0x1e), ScancodeOutcome::Queued(None));
    assert_eq!(add_scancode(&mut bridge, 0x1e), ScancodeOutcome::Queued(None));
    let waker = TaskWaker::new(TaskId(3));
    assert_eq!(stream.poll_next(&mut bridge, &waker), Poll::Ready(Some(0x1e)));
    assert_eq!(stream.poll_next(&mut bridge, &waker), Poll::Ready(Some(0x1e)));
    assert_eq!(stream.poll_next(&mut bridge, &waker), Poll::Pending);
    assert_eq!(add_scancode(&mut bridge, 0x30), ScancodeOutcome::Queued(Some(waker)));
    assert_eq!(add_scancode(&mut bridge, 0x2e), ScancodeOutcome::Queued(None));
    assert_eq!(stream.poll_next(&mut bridge, &waker), Poll::Ready(Some(0x30)));
    assert_eq!(stream.poll_next(&mut bridge, &waker), Poll::Ready(Some(0x2e)));
}

#[test]
fn a_scancode_between_the_two_looks_is_not_missed() {
    let mut bridge = ScancodeBridge::new();
    let _stream = ScancodeStream::new(&mut bridge);
    let waker = TaskWaker::new(TaskId(4));
    // the reader's first look finds nothing
    assert_eq!(bridge.pop(), None);
    // the interrupt comes before the reader has left its handle
    assert_eq!(bridge.add_scancode(0x1e), ScancodeOutcome::Queued(None));
    bridge.register(&waker);
    // the second look finds the scancode, and the handle is taken back
    assert_eq!(bridge.pop(), Some(0x1e));
    assert_eq!(bridge.take(), Some(waker));
    assert_eq!(bridge.take(), None);
    // the interrupt comes after the handle was left: it finds the handle
    assert_eq!(bridge.pop(), None);
    bridge.register(&waker);
    assert_eq!(bridge.add_scancode(0x30), ScancodeOutcome::Queued(Some(waker)));
    assert_eq!(bridge.pop(), Some(0x30));
}

#[test]
fn a_scancode_is_dropped_when_the_bridge_cannot_take_it() {
    let mut bridge = ScancodeBridge::new();
    assert!(!bridge.is_initialised());
    assert_eq!(add_scancode(&mut bridge, 0x1e), ScancodeOutcome::Uninitialised);
    let mut stream = ScancodeStream::new(&mut bridge);
    assert!(bridge.is_initialised());
    let waker = TaskWaker::new(TaskId(0));
    assert_eq!(stream.poll_next(&mut bridge, &waker), Poll::Pending);
    assert_eq!(add_scancode(&mut bridge, 0), ScancodeOutcome::Queued(Some(waker)));
    for scancode in 1..SCANCODE_QUEUE_CAPACITY {
        assert_eq!(add_scancode(&mut bridge, scancode as u8), ScancodeOutcome::Queued(None));
    }
    bridge.register(&waker);
    assert_eq!(add_scancode(&mut bridge, 0xff), ScancodeOutcome::QueueFull);
    // a dropped scancode leaves the handle and the queue as they are
    assert_eq!(bridge.take(), Some(waker));
    for scancode in 0..SCANCODE_QUEUE_CAPACITY {
        assert_eq!(stream.poll_next(&mut bridge, &waker), Poll::Ready(Some(scancode as u8)));
    }
    assert_eq!(stream.poll_next(&mut bridge, &waker), Poll::Pending);
}

#[test]
fn simple_executor_polls_in_turn_until_all_are_done() {
    let mut ids = TaskIds::new();
    let log = Rc::new(RefCell::new(Vec::new()));
    let mut executor = SimpleExecutor::new();
    assert!(executor.run(10));
    executor.spawn(countdown(&mut ids, 2, &log));
    executor.spawn(countdown(&mut ids, 0, &log));
    executor.spawn(countdown(&mut ids, 1, &log));
    assert!(executor.run(100));
    assert_eq!(
        *log.borrow(),
        vec![TaskId(0), TaskId(1), TaskId(2), TaskId(0), TaskId(2), TaskId(0)]
    );
}

#[test]
fn simple_executor_stops_when_its_polls_are_used_up() {
    let mut ids = TaskIds::new();
    let log = Rc::new(RefCell::new(Vec::new()));
    let mut executor = SimpleExecutor::new();
    executor.spawn(countdown(&mut ids, 5, &log));
    executor.spawn(countdown(&mut ids, 0, &log));
    assert!(!executor.run(0));
    assert!(log.borrow().is_empty());
    assert!(!executor.run(3));
    assert_eq!(*log.borrow(), vec![TaskId(0), TaskId(1), TaskId(0)]);
    assert!(!executor.run(3));
    assert!(executor.run(1));
    assert_eq!(log.borrow().len(), 7);
}

#[test]
fn simple_executor_steps_take_and_file_a_task() {
    let mut ids = TaskIds::new();
    let log = Rc::new(RefCell::new(Vec::new()));
    let mut executor = SimpleExecutor::new();
    assert!(executor.next_task().is_none());
    executor.spawn(countdown(&mut ids, 0, &log));
    executor.spawn(countdown(&mut ids, 0, &log));
    let first = executor.next_task().unwrap();
    assert_eq!(first.id(), TaskId(0));
    executor.finish_poll(first, Poll::Pending);
    assert_eq!(executor.next_task().unwrap().id(), TaskId(1));
    let again = executor.next_task().unwrap();
    assert_eq!(again.id(), TaskId(0));
    executor.finish_poll(again, Poll::Ready(()));
    assert!(executor.next_task().is_none());
}

#[test]
fn interrupt_numbers_follow_the_controller_offsets() {
    assert_eq!(PIC_1_OFFSET, 32);
    assert_eq!(PIC_2_OFFSET, 40);
    assert_eq!(InterrupIndex::Timer.as_u8(), 32);
    assert_eq!(InterrupIndex::Keyboard.as_u8(), 33);
    assert_eq!(InterrupIndex::Timer.as_usize(), 32);
    assert_eq!(InterrupIndex::Keyboard.as_usize(), 33);
}

#[test]
fn exit_codes_are_those_of_the_emulator() {
    assert_eq!(QemuExitcode::Success.code(), 0x10);
    assert_eq!(QemuExitcode::Failure.code(), 0x11);
}
