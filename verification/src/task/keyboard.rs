//! The bridge from the keyboard interrupt to the task that reads the keys.
//!
//! The interrupt handler puts each scancode into a bounded queue and wakes
//! the reader. The reader takes scancodes out of the queue; when it finds
//! none it leaves its handle in the bridge, looks once more, and only then
//! goes to sleep. A scancode that comes in between is found by the second
//! look; one that comes later finds the handle.

use vstd::prelude::*;
use super::queue::popped;
use super::queue::pushed;
use super::queue::ScancodeQueue;
use super::Poll;
use super::TaskWaker;

verus! {

/// The number of scancodes that the queue of a bridge has room for.
pub const SCANCODE_QUEUE_CAPACITY: usize = 100;

/// What became of a scancode that the interrupt handler brought.
#[derive(Debug, Copy, Clone, PartialEq, Eq, Structural)]
pub enum ScancodeOutcome {
    /// The scancode is in the queue. If a reader waited, this is its handle,
    /// which is to be woken.
    Queued(Option<TaskWaker>),
    /// The queue was full: the scancode is dropped.
    QueueFull,
    /// The queue was not yet made: the scancode is dropped.
    Uninitialised,
}

/// The state of a bridge: the scancodes in the queue, oldest first, once the
/// queue is made, with the queue's capacity; and the handle of the reader
/// that waits.
pub struct BridgeState {
    pub queue: Option<Seq<u8>>,
    pub capacity: nat,
    pub waiter: Option<TaskWaker>,
}

impl BridgeState {
    /// A bridge whose queue is not yet made.
    pub open spec fn uninitialised() -> BridgeState {
        BridgeState { queue: None, capacity: 0, waiter: None }
    }

    /// A queue that is made has room for at least one scancode.
    pub open spec fn wf(self) -> bool {
        self.queue is Some ==> self.capacity > 0
    }

    /// The state after the queue was made.
    pub open spec fn init(self) -> BridgeState {
        BridgeState {
            queue: Some(Seq::empty()),
            capacity: SCANCODE_QUEUE_CAPACITY as nat,
            waiter: self.waiter,
        }
    }

    /// The state after the interrupt handler brought `scancode`, and what
    /// became of the scancode. A scancode that goes into the queue takes the
    /// waiting handle out of the bridge.
    pub open spec fn add_scancode(self, scancode: u8) -> (BridgeState, ScancodeOutcome) {
        match self.queue {
            Some(items) => {
                if pushed(items, self.capacity, scancode).1 {
                    (
                        BridgeState {
                            queue: Some(pushed(items, self.capacity, scancode).0),
                            capacity: self.capacity,
                            waiter: None,
                        },
                        ScancodeOutcome::Queued(self.waiter),
                    )
                } else {
                    (self, ScancodeOutcome::QueueFull)
                }
            },
            None => (self, ScancodeOutcome::Uninitialised),
        }
    }

    /// The state after the reader looked for a scancode, and what it found.
    pub open spec fn pop(self) -> (BridgeState, Option<u8>)
        recommends
            self.queue is Some,
    {
        (
            BridgeState { queue: Some(popped(self.queue.unwrap()).0), ..self },
            popped(self.queue.unwrap()).1,
        )
    }

    /// The state after the reader left its handle.
    pub open spec fn register(self, waker: TaskWaker) -> BridgeState {
        BridgeState { waiter: Some(waker), ..self }
    }

    /// The state after the handle was taken out.
    pub open spec fn take(self) -> BridgeState {
        BridgeState { waiter: None, ..self }
    }

    /// The state after a poll of the reader, and what the poll found: the
    /// oldest scancode where there is one; else the handle is left in the
    /// bridge, and the poll looks once more before it reports that the
    /// reader has to wait.
    pub open spec fn poll_next(self, waker: TaskWaker) -> (BridgeState, Poll<Option<u8>>)
        recommends
            self.queue is Some,
    {
        match self.pop().1 {
            Some(scancode) => (self.pop().0, Poll::Ready(Some(scancode))),
            None => {
                let registered = self.pop().0.register(waker);
                match registered.pop().1 {
                    Some(scancode) => (registered.pop().0.take(), Poll::Ready(Some(scancode))),
                    None => (registered.pop().0, Poll::Pending),
                }
            },
        }
    }

    /// A scancode that comes after the reader's first look and before the
    /// reader leaves its handle is found by the reader's second look, and
    /// the handle does not stay behind.
    pub proof fn lemma_push_before_registration_is_seen(self, scancode: u8, waker: TaskWaker)
        requires
            self.wf(),
            self.queue is Some,
            self.pop().1 is None,
        ensures
            ({
                let looked = self.pop().0;
                let (brought, outcome) = looked.add_scancode(scancode);
                let registered = brought.register(waker);
                let (looked_again, found) = registered.pop();
                &&& outcome is Queued
                &&& found == Some(scancode)
                &&& looked_again.take().waiter is None
                &&& looked_again.take().queue == Some(Seq::<u8>::empty())
            }),
    {
        let items = self.queue.unwrap();
        assert(items.push(scancode).drop_first() =~= Seq::<u8>::empty());
    }

    /// A scancode that comes after the reader left its handle and before
    /// the reader's second look is found by that look too.
    pub proof fn lemma_push_after_registration_is_seen(self, scancode: u8, waker: TaskWaker)
        requires
            self.wf(),
            self.queue is Some,
            self.pop().1 is None,
        ensures
            ({
                let registered = self.pop().0.register(waker);
                let (brought, outcome) = registered.add_scancode(scancode);
                let (looked_again, found) = brought.pop();
                &&& outcome == ScancodeOutcome::Queued(Some(waker))
                &&& found == Some(scancode)
            }),
    {
    }

    /// A reader that was told to wait is woken by the next scancode: the
    /// scancode goes into the queue and the reader's handle comes out.
    pub proof fn lemma_waiting_reader_is_woken(self, waker: TaskWaker, scancode: u8)
        requires
            self.wf(),
            self.queue is Some,
            self.poll_next(waker).1 is Pending,
        ensures
            self.poll_next(waker).0.add_scancode(scancode).1 == ScancodeOutcome::Queued(
                Some(waker),
            ),
            self.poll_next(waker).0.add_scancode(scancode).0.queue == Some(seq![scancode]),
    {
        assert(Seq::<u8>::empty().push(scancode) =~= seq![scancode]);
    }

    /// Scancodes that are brought while no reader polls come out in the
    /// order in which they came, as long as the queue has room for them.
    pub proof fn lemma_scancodes_keep_their_order(self, first: u8, second: u8, waker: TaskWaker)
        requires
            self.wf(),
            self.queue == Some(Seq::<u8>::empty()),
            self.capacity >= 2,
        ensures
            ({
                let brought = self.add_scancode(first).0.add_scancode(second).0;
                let (polled, found) = brought.poll_next(waker);
                &&& found == Poll::Ready(Some(first))
                &&& polled.poll_next(waker).1 == Poll::Ready(Some(second))
            }),
    {
        let items = Seq::<u8>::empty().push(first).push(second);
        assert(items.drop_first() =~= seq![second]);
    }
}

/// The queue of scancodes and the place for the handle of the reader that
/// waits for one.
pub struct ScancodeBridge {
    queue: Option<ScancodeQueue>,
    waker: Option<TaskWaker>,
}

impl View for ScancodeBridge {
    type V = BridgeState;

    closed spec fn view(&self) -> BridgeState {
        BridgeState {
            queue: match self.queue {
                Some(queue) => Some(queue@),
                None => None,
            },
            capacity: match self.queue {
                Some(queue) => queue.capacity(),
                None => 0,
            },
            waiter: self.waker,
        }
    }
}

impl ScancodeBridge {
    /// A queue that is made has room for at least one scancode.
    pub open spec fn wf(&self) -> bool {
        self@.wf()
    }

    /// A bridge whose queue is not yet made.
    pub fn new() -> (bridge: ScancodeBridge)
        ensures
            bridge@ == BridgeState::uninitialised(),
            bridge.wf(),
    {
        ScancodeBridge { queue: None, waker: None }
    }

    /// Whether the queue is made.
    pub fn is_initialised(&self) -> (made: bool)
        ensures
            made == (self@.queue is Some),
    {
        self.queue.is_some()
    }

    /// Takes a scancode from the interrupt handler. The scancode goes into
    /// the queue, and the handle of the waiting reader comes out to be woken;
    /// or the scancode is dropped, and the outcome says why. Never waits and
    /// never allocates.
    pub fn add_scancode(&mut self, scancode: u8) -> (outcome: ScancodeOutcome)
        requires
            old(self).wf(),
        ensures
            final(self).wf(),
            (final(self)@, outcome) == old(self)@.add_scancode(scancode),
    {
        match &mut self.queue {
            Some(queue) => {
                if queue.push(scancode).is_err() {
                    ScancodeOutcome::QueueFull
                } else {
                    ScancodeOutcome::Queued(self.waker.take())
                }
            },
            None => ScancodeOutcome::Uninitialised,
        }
    }

    /// Takes the oldest scancode out of the queue.
    pub fn pop(&mut self) -> (scancode: Option<u8>)
        requires
            old(self).wf(),
            old(self)@.queue is Some,
        ensures
            final(self).wf(),
            (final(self)@, scancode) == old(self)@.pop(),
    {
        match &mut self.queue {
            Some(queue) => queue.pop(),
            None => None,
        }
    }

    /// Leaves the handle of the reader in the bridge, in place of any that
    /// was there.
    pub fn register(&mut self, waker: &TaskWaker)
        ensures
            final(self)@ == old(self)@.register(*waker),
    {
        self.waker = Some(*waker);
    }

    /// Takes the handle out of the bridge.
    pub fn take(&mut self) -> (waker: Option<TaskWaker>)
        ensures
            final(self)@ == old(self)@.take(),
            waker == old(self)@.waiter,
    {
        self.waker.take()
    }
}

/// Takes a scancode from the keyboard interrupt handler into `bridge`.
pub fn add_scancode(bridge: &mut ScancodeBridge, scancode: u8) -> (outcome: ScancodeOutcome)
    requires
        old(bridge).wf(),
    ensures
        final(bridge).wf(),
        (final(bridge)@, outcome) == old(bridge)@.add_scancode(scancode),
{
    bridge.add_scancode(scancode)
}

/// The reader's end of a bridge: the scancodes in the order in which they
/// came, without end.
pub struct ScancodeStream {
    _private: (),
}

impl ScancodeStream {
    /// Makes the queue of `bridge`, with room for `SCANCODE_QUEUE_CAPACITY`
    /// scancodes, and returns the reader's end. The queue of a bridge is made
    /// once.
    pub fn new(bridge: &mut ScancodeBridge) -> (stream: ScancodeStream)
        requires
            old(bridge)@.queue is None,
        ensures
            final(bridge)@ == old(bridge)@.init(),
            final(bridge).wf(),
    {
        bridge.queue = Some(ScancodeQueue::new(SCANCODE_QUEUE_CAPACITY));
        ScancodeStream { _private: () }
    }

    /// Looks for the next scancode. Where there is none the poll leaves
    /// `waker` in the bridge and looks once more, so that a scancode that
    /// came meanwhile is not missed; only then it reports that the reader has
    /// to wait.
    pub fn poll_next(&mut self, bridge: &mut ScancodeBridge, waker: &TaskWaker) -> (found: Poll<
        Option<u8>,
    >)
        requires
            old(bridge).wf(),
            old(bridge)@.queue is Some,
        ensures
            final(bridge).wf(),
            (final(bridge)@, found) == old(bridge)@.poll_next(*waker),
    {
        // fast path: no handle is left where a scancode waits already
        if let Some(scancode) = bridge.pop() {
            return Poll::Ready(Some(scancode));
        }
        bridge.register(waker);
        match bridge.pop() {
            Some(scancode) => {
                bridge.take();
                Poll::Ready(Some(scancode))
            },
            None => Poll::Pending,
        }
    }
}

} // verus!
