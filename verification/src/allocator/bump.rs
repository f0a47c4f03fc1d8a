//! Allocation by advancing a pointer.
//!
//! Each block starts at the first aligned address behind the block before
//! it. Nothing is reused until every block has come back: then the pointer
//! returns to the start of the heap.

use vstd::prelude::*;
use super::align::align_up_spec;
use super::align::checked_align_up;
use super::align::lemma_align_up_is_least_multiple;
use super::layout::Layout;
use super::layout::lemma_power_of_two_is_positive;

verus! {

/// The state of a bump allocator: the heap `[heap_start, heap_end)`, the
/// first address that is not handed out, and the number of blocks that are.
pub struct BumpState {
    pub heap_start: usize,
    pub heap_end: usize,
    pub next: usize,
    pub allocations: usize,
}

impl BumpState {
    /// The pointer lies in the heap.
    pub open spec fn wf(self) -> bool {
        self.heap_start <= self.next <= self.heap_end
    }

    /// The address at which the next block of `layout` starts.
    pub open spec fn aligned_next(self, layout: Layout) -> int {
        align_up_spec(self.next as int, layout.align() as int)
    }

    /// Whether a request for a block of `layout` is served: the block ends in
    /// the heap, and the number of blocks can still be counted.
    pub open spec fn has_room(self, layout: Layout) -> bool {
        &&& self.aligned_next(layout) + layout.size() <= self.heap_end
        &&& self.allocations < usize::MAX
    }

    /// The state after a request for a block of `layout`, and the address of
    /// the block.
    pub open spec fn allocate(self, layout: Layout) -> (BumpState, Option<usize>) {
        if self.has_room(layout) {
            (
                BumpState {
                    next: (self.aligned_next(layout) + layout.size()) as usize,
                    allocations: (self.allocations + 1) as usize,
                    ..self
                },
                Some(self.aligned_next(layout) as usize),
            )
        } else {
            (self, None)
        }
    }

    /// The state after a block came back: with the last block the whole heap
    /// is free again.
    pub open spec fn deallocate(self) -> BumpState {
        BumpState {
            next: if self.allocations == 1 {
                self.heap_start
            } else {
                self.next
            },
            allocations: (self.allocations - 1) as usize,
            ..self
        }
    }

    /// A block lies in the heap behind every block handed out since the heap
    /// was last free, and starts at a multiple of its alignment.
    pub proof fn lemma_allocate(self, layout: Layout)
        requires
            self.wf(),
            layout.wf(),
        ensures
            self.allocate(layout).0.wf(),
            self.allocate(layout).1 matches Some(addr) ==> {
                &&& self.next <= addr
                &&& addr as int % layout.align() as int == 0
                &&& addr + layout.size() == self.allocate(layout).0.next
            },
    {
        lemma_power_of_two_is_positive(layout.align() as int);
        lemma_align_up_is_least_multiple(self.next as int, layout.align() as int);
    }
}

/// An allocator that hands out the heap from its start to its end.
pub struct BumpAllocator {
    heap_start: usize,
    heap_end: usize,
    heap_next: usize,
    allocations: usize,
}

impl View for BumpAllocator {
    type V = BumpState;

    closed spec fn view(&self) -> BumpState {
        BumpState {
            heap_start: self.heap_start,
            heap_end: self.heap_end,
            next: self.heap_next,
            allocations: self.allocations,
        }
    }
}

impl BumpAllocator {
    /// The pointer lies in the heap.
    pub open spec fn wf(&self) -> bool {
        self@.wf()
    }

    /// An allocator without memory.
    pub fn new() -> (allocator: BumpAllocator)
        ensures
            allocator@ == (BumpState { heap_start: 0, heap_end: 0, next: 0, allocations: 0 }),
            allocator.wf(),
    {
        BumpAllocator { heap_start: 0, heap_end: 0, heap_next: 0, allocations: 0 }
    }

    /// Gives the allocator its heap, the bytes `[heap_start, heap_start +
    /// heap_size)`.
    pub fn init(&mut self, heap_start: usize, heap_size: usize)
        requires
            heap_start + heap_size <= usize::MAX,
        ensures
            final(self)@ == (BumpState {
                heap_start,
                heap_end: (heap_start + heap_size) as usize,
                next: heap_start,
                allocations: old(self)@.allocations,
            }),
            final(self).wf(),
    {
        self.heap_start = heap_start;
        self.heap_end = heap_start + heap_size;
        self.heap_next = heap_start;
    }

    /// Hands out a block of `layout`, or `None` where the rest of the heap
    /// has no room for it.
    pub fn allocate(&mut self, layout: Layout) -> (block: Option<usize>)
        requires
            old(self).wf(),
            layout.wf(),
        ensures
            final(self).wf(),
            (final(self)@, block) == old(self)@.allocate(layout),
    {
        proof {
            self@.lemma_allocate(layout);
            lemma_power_of_two_is_positive(layout.align() as int);
            lemma_align_up_is_least_multiple(self.heap_next as int, layout.align() as int);
        }
        let start_alloc = match checked_align_up(self.heap_next, layout.align()) {
            Some(start) => start,
            None => { return None; },
        };
        let end_alloc = match start_alloc.checked_add(layout.size()) {
            Some(end) => end,
            None => { return None; },
        };
        if end_alloc > self.heap_end || self.allocations == usize::MAX {
            None
        } else {
            self.heap_next = end_alloc;
            self.allocations += 1;
            Some(start_alloc)
        }
    }

    /// Takes a block back. With the last block the whole heap is free again.
    pub fn deallocate(&mut self, _addr: usize, _layout: Layout)
        requires
            old(self).wf(),
            old(self)@.allocations > 0,
        ensures
            final(self).wf(),
            final(self)@ == old(self)@.deallocate(),
    {
        self.allocations -= 1;
        if self.allocations == 0 {
            self.heap_next = self.heap_start;
        }
    }
}

impl Default for BumpAllocator {
    fn default() -> (allocator: BumpAllocator)
        ensures
            allocator@ == (BumpState { heap_start: 0, heap_end: 0, next: 0, allocations: 0 }),
    {
        BumpAllocator::new()
    }
}

} // verus!
