//! Heap allocation strategies.
//!
//! Every strategy answers the same two requests: `allocate(layout)` hands
//! out the first address of a block, or `None` where it has no room; and
//! `deallocate(addr, layout)` takes a block back. Addresses are plain
//! numbers: the strategies keep the books of the heap and never touch its
//! bytes.

pub mod align;
pub mod bump;
pub mod fixed_size_block;
pub mod layout;
pub mod linked_list;

use vstd::prelude::*;
use layout::Layout;

verus! {

/// The first address of the kernel heap.
pub const HEAP_START: u64 = 0x4444_4444_0000;

/// The size of the kernel heap in bytes.
pub const HEAP_SIZE: usize = 100 * 1024;

/// The size of a page of the heap's address range in bytes.
pub const PAGE_SIZE: u64 = 4096;

/// The first addresses of the first and of the last page that hold a byte of
/// the heap `[heap_start, heap_start + heap_size)`: the pages that have to be
/// mapped before the heap is used.
pub fn heap_pages(heap_start: u64, heap_size: u64) -> (pages: (u64, u64))
    requires
        0 < heap_size,
        heap_start + heap_size - 1 <= u64::MAX,
    ensures
        pages.0 % PAGE_SIZE == 0,
        pages.0 <= heap_start < pages.0 + PAGE_SIZE,
        pages.1 % PAGE_SIZE == 0,
        pages.1 <= heap_start + heap_size - 1 < pages.1 + PAGE_SIZE,
{
    let heap_end = heap_start + (heap_size - 1);
    (heap_start - heap_start % PAGE_SIZE, heap_end - heap_end % PAGE_SIZE)
}

/// An allocator that has no memory to give.
pub struct Dummy;

impl Dummy {
    /// Serves no request.
    pub fn allocate(&self, _layout: Layout) -> (block: Option<usize>)
        ensures
            block is None,
    {
        None
    }
}

} // verus!
