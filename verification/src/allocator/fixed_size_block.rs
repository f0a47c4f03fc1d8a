//! Segregated free lists for a fixed set of block sizes.
//!
//! A request is rounded up to one of nine size classes. Each class keeps the
//! blocks that came back in a list of its own and hands out the one that came
//! back last. A class without a block, or a request that is larger than any
//! class, is served by a first-fit allocator.

use vstd::prelude::*;
use vstd::arithmetic::div_mod::lemma_mod_self_0;
use super::align::is_power_of_two;
use super::align::lemma_multiple_of_multiple;
use super::align::lemma_power_of_two_divides;
use super::layout::Layout;
use super::layout::lemma_power_of_two_is_positive;
use super::layout::spec_max;
use super::linked_list::adjustable;
use super::linked_list::adjusted;
use super::linked_list::block_wf;
use super::linked_list::disjoint;
use super::linked_list::lemma_adjusted;
use super::linked_list::FreeList;
use super::linked_list::LinkedListAllocator;
use super::linked_list::ListNode;
use super::linked_list::NODE_ALIGN;
use super::linked_list::NODE_SIZE;

verus! {

/// The block sizes of the size classes. Each is a power of two, so that a
/// block can be aligned to its own size, and none is smaller than a pointer.
pub const BLOCK_SIZES: [usize; 9] = [8, 16, 32, 64, 128, 256, 512, 1024, 2048];

/// Bytes taken by the link from a waiting block to the next. A waiting block
/// has room for it, and is aligned as it needs.
pub const LINK_SIZE: usize = 8;

/// The block size of the size class `index`.
pub open spec fn class_size(index: int) -> int {
    BLOCK_SIZES[index] as int
}

/// The block size that a request needs: the larger of its size and its
/// alignment.
pub open spec fn required_size(layout: Layout) -> int {
    spec_max(layout.size() as int, layout.align() as int)
}

/// The first size class whose blocks have room for `required` bytes.
pub open spec fn size_class(required: int) -> Option<int> {
    if required <= 8 {
        Some(0)
    } else if required <= 16 {
        Some(1)
    } else if required <= 32 {
        Some(2)
    } else if required <= 64 {
        Some(3)
    } else if required <= 128 {
        Some(4)
    } else if required <= 256 {
        Some(5)
    } else if required <= 512 {
        Some(6)
    } else if required <= 1024 {
        Some(7)
    } else if required <= 2048 {
        Some(8)
    } else {
        None
    }
}

/// The size class of a request.
pub open spec fn list_index_spec(layout: Layout) -> Option<int> {
    size_class(required_size(layout))
}

/// `size_class` picks the first entry of `BLOCK_SIZES` that is large enough.
pub proof fn lemma_size_class_is_first(required: int)
    ensures
        match size_class(required) {
            Some(index) => {
                &&& 0 <= index < BLOCK_SIZES.len()
                &&& required <= class_size(index)
                &&& forall|j: int| 0 <= j < index ==> #[trigger] class_size(j) < required
            },
            None => forall|j: int| 0 <= j < BLOCK_SIZES.len() ==> #[trigger] class_size(j) < required,
        },
{
}

/// The size and alignment with which the first-fit allocator is asked for a
/// block of the size class `index`: the block size for both, raised to what a
/// free region needs.
pub open spec fn class_request(index: int) -> (int, int) {
    (spec_max(class_size(index), NODE_SIZE as int), spec_max(class_size(index), NODE_ALIGN as int))
}

/// The number of bytes that a request gets: the block size of its class, or
/// its adjusted size where it has no class.
pub open spec fn block_size(layout: Layout) -> int {
    match list_index_spec(layout) {
        Some(index) => class_size(index),
        None => adjusted(layout).0,
    }
}

/// Every block size is a power of two.
pub proof fn lemma_class_sizes_are_powers_of_two()
    ensures
        forall|index: int|
            0 <= index < BLOCK_SIZES.len() ==> is_power_of_two(#[trigger] class_size(index)),
{
    reveal_with_fuel(is_power_of_two, 13);
}

/// The state of the allocator: for each size class the blocks that wait to be
/// handed out again, last in last; the state of the first-fit allocator that
/// all memory comes from; and the blocks that are handed out, each by its
/// first address with the layout it was asked for.
pub struct SizeClasses {
    pub lists: Seq<Seq<usize>>,
    pub fallback: FreeList,
    pub live: Map<usize, Layout>,
}

impl SizeClasses {
    /// No memory, no waiting block and no block handed out.
    pub open spec fn empty() -> SizeClasses {
        SizeClasses {
            lists: Seq::new(BLOCK_SIZES.len() as nat, |index: int| Seq::<usize>::empty()),
            fallback: FreeList::empty(),
            live: Map::empty(),
        }
    }

    /// `lists[index][at]` is a waiting block.
    pub open spec fn waiting(self, index: int, at: int) -> bool {
        0 <= index < self.lists.len() && 0 <= at < self.lists[index].len()
    }

    /// There is a list for each size class. Every waiting block and every
    /// block handed out was cut by the first-fit allocator, which still
    /// counts it as handed out; a block of a size class starts at a multiple
    /// of its block size. No block waits twice, and none waits while it is
    /// handed out.
    pub open spec fn wf(self) -> bool {
        &&& self.lists.len() == BLOCK_SIZES.len()
        &&& self.fallback.wf()
        &&& forall|index: int, at: int|
            self.waiting(index, at) ==> {
                let addr = #[trigger] self.lists[index][at];
                &&& self.fallback.live.contains_key(addr)
                &&& self.fallback.live[addr] == class_request(index).0
                &&& addr as int % class_size(index) == 0
                &&& !self.live.contains_key(addr)
            }
        &&& forall|index: int, at: int, index2: int, at2: int|
            self.waiting(index, at) && self.waiting(index2, at2) && (index != index2 || at != at2)
                ==> #[trigger] self.lists[index][at] != #[trigger] self.lists[index2][at2]
        &&& forall|addr: usize| #[trigger]
            self.live.contains_key(addr) ==> {
                &&& self.live[addr].wf()
                &&& self.fallback.live.contains_key(addr)
                &&& match list_index_spec(self.live[addr]) {
                    Some(index) => {
                        &&& self.fallback.live[addr] == class_request(index).0
                        &&& addr as int % class_size(index) == 0
                    },
                    None => {
                        &&& self.fallback.live[addr] == adjusted(self.live[addr]).0
                        &&& adjustable(self.live[addr])
                    },
                }
            }
    }

    /// The block `[addr, addr + size)` overlaps no block that is handed out.
    pub open spec fn clear_of_blocks(self, addr: int, size: int) -> bool {
        forall|other: usize| #[trigger]
            self.live.contains_key(other) ==> disjoint(
                other as int,
                block_size(self.live[other]),
                addr,
                size,
            )
    }

    /// The state after a request for a block of `layout`, and the address of
    /// the block. A request with a size class gets the block of that class
    /// that came back last. Where none waits, the first-fit allocator cuts a
    /// new block of the class's size, aligned to that size. A request without
    /// a size class goes to the first-fit allocator as it is.
    pub open spec fn allocate(self, layout: Layout) -> (SizeClasses, Option<usize>) {
        match list_index_spec(layout) {
            Some(index) => {
                if self.lists[index].len() > 0 {
                    let addr = self.lists[index].last();
                    (
                        SizeClasses {
                            lists: self.lists.update(index, self.lists[index].drop_last()),
                            fallback: self.fallback,
                            live: self.live.insert(addr, layout),
                        },
                        Some(addr),
                    )
                } else {
                    self.from_fallback(
                        self.fallback.allocate_adjusted(
                            class_request(index).0,
                            class_request(index).1,
                        ),
                        layout,
                    )
                }
            },
            None => self.from_fallback(self.fallback.allocate(layout), layout),
        }
    }

    /// The state after the first-fit allocator answered a request for a block
    /// of `layout`, and the address of the block.
    pub open spec fn from_fallback(self, answer: (FreeList, Option<usize>), layout: Layout) -> (
        SizeClasses,
        Option<usize>,
    ) {
        (
            SizeClasses {
                lists: self.lists,
                fallback: answer.0,
                live: match answer.1 {
                    Some(addr) => self.live.insert(addr, layout),
                    None => self.live,
                },
            },
            answer.1,
        )
    }

    /// The state after the block at `addr` of `layout` came back. A block of
    /// a size class waits in the list of its class; any other goes back to
    /// the first-fit allocator.
    pub open spec fn deallocate(self, addr: usize, layout: Layout) -> SizeClasses {
        match list_index_spec(layout) {
            Some(index) => SizeClasses {
                lists: self.lists.update(index, self.lists[index].push(addr)),
                fallback: self.fallback,
                live: self.live.remove(addr),
            },
            None => SizeClasses {
                lists: self.lists,
                fallback: self.fallback.deallocate(addr, layout),
                live: self.live.remove(addr),
            },
        }
    }

    /// Serving a request keeps the state well formed. The block that is
    /// handed out is aligned as asked, has room for the request, and overlaps
    /// none of the blocks handed out before. A request that is not served
    /// changes nothing.
    pub proof fn lemma_allocate(self, layout: Layout)
        requires
            self.wf(),
            layout.wf(),
        ensures
            self.allocate(layout).0.wf(),
            self.allocate(layout).1 is None ==> self.allocate(layout).0 == self,
            self.allocate(layout).1 matches Some(addr) ==> {
                &&& addr as int % layout.align() as int == 0
                &&& layout.size() <= block_size(layout)
                &&& addr + block_size(layout) <= usize::MAX
                &&& self.clear_of_blocks(addr as int, block_size(layout))
                &&& !self.live.contains_key(addr)
                &&& self.allocate(layout).0.live == self.live.insert(addr, layout)
            },
    {
        let (next, block) = self.allocate(layout);
        lemma_size_class_is_first(required_size(layout));
        lemma_class_sizes_are_powers_of_two();
        lemma_power_of_two_is_positive(layout.align() as int);
        match list_index_spec(layout) {
            Some(index) => {
                lemma_class_request(index);
                lemma_power_of_two_divides(layout.align() as int, class_size(index));
                if self.lists[index].len() > 0 {
                    let at = self.lists[index].len() - 1;
                    let addr = self.lists[index][at];
                    assert(self.waiting(index, at));
                    lemma_multiple_of_multiple(
                        addr as int,
                        class_size(index),
                        layout.align() as int,
                    );
                    assert(block_wf(addr, self.fallback.live[addr]));
                    self.lemma_fallback_block_is_clear(addr);
                    assert forall|i: int, j: int| next.waiting(i, j) implies self.waiting(i, j)
                        && next.lists[i][j] == self.lists[i][j] by {}
                    assert(next.wf());
                } else {
                    self.fallback.lemma_allocate_adjusted(
                        class_request(index).0,
                        class_request(index).1,
                    );
                    if block is Some {
                        let addr = block.unwrap();
                        lemma_multiple_of_multiple(
                            addr as int,
                            class_request(index).1,
                            class_size(index),
                        );
                        lemma_multiple_of_multiple(
                            addr as int,
                            class_size(index),
                            layout.align() as int,
                        );
                        self.lemma_new_block_is_clear(addr, class_request(index).0);
                        assert forall|i: int, j: int| next.waiting(i, j) implies self.waiting(i, j)
                            && next.lists[i][j] == self.lists[i][j] by {}
                        assert(next.wf());
                    }
                }
            },
            None => {
                if adjustable(layout) {
                    lemma_adjusted(layout);
                    self.fallback.lemma_allocate_adjusted(adjusted(layout).0, adjusted(layout).1);
                    if block is Some {
                        let addr = block.unwrap();
                        lemma_multiple_of_multiple(
                            addr as int,
                            adjusted(layout).1,
                            layout.align() as int,
                        );
                        self.lemma_new_block_is_clear(addr, adjusted(layout).0);
                        assert forall|i: int, j: int| next.waiting(i, j) implies self.waiting(i, j)
                            && next.lists[i][j] == self.lists[i][j] by {}
                        assert(next.wf());
                    }
                }
            },
        }
    }

    /// A block handed out takes no more bytes than the first-fit allocator
    /// counts for it.
    pub proof fn lemma_block_within_fallback_block(self, addr: usize)
        requires
            self.wf(),
            self.live.contains_key(addr),
        ensures
            0 < block_size(self.live[addr]) <= self.fallback.live[addr],
    {
        let layout = self.live[addr];
        lemma_size_class_is_first(required_size(layout));
        match list_index_spec(layout) {
            Some(index) => {
                lemma_class_request(index);
            },
            None => {
                lemma_adjusted(layout);
            },
        }
    }

    /// A block that the first-fit allocator counts as handed out, and that
    /// is not handed out by this allocator, overlaps no block that is.
    pub proof fn lemma_fallback_block_is_clear(self, addr: usize)
        requires
            self.wf(),
            self.fallback.live.contains_key(addr),
            !self.live.contains_key(addr),
        ensures
            self.clear_of_blocks(addr as int, self.fallback.live[addr] as int),
    {
        assert forall|other: usize| #[trigger] self.live.contains_key(other) implies disjoint(
            other as int,
            block_size(self.live[other]),
            addr as int,
            self.fallback.live[addr] as int,
        ) by {
            self.lemma_block_within_fallback_block(other);
            assert(self.fallback.live.contains_key(other));
        }
    }

    /// A block that overlaps nothing that the first-fit allocator counts as
    /// handed out overlaps no block that this allocator handed out.
    pub proof fn lemma_new_block_is_clear(self, addr: usize, size: int)
        requires
            self.wf(),
            self.fallback.clear_of_blocks(addr as int, size),
        ensures
            self.clear_of_blocks(addr as int, size),
    {
        assert forall|other: usize| #[trigger] self.live.contains_key(other) implies disjoint(
            other as int,
            block_size(self.live[other]),
            addr as int,
            size,
        ) by {
            self.lemma_block_within_fallback_block(other);
            assert(self.fallback.live.contains_key(other));
        }
    }

    /// No two blocks that are handed out overlap.
    pub proof fn lemma_blocks_are_apart(self, a: usize, b: usize)
        requires
            self.wf(),
            self.live.contains_key(a),
            self.live.contains_key(b),
            a != b,
        ensures
            disjoint(
                a as int,
                block_size(self.live[a]),
                b as int,
                block_size(self.live[b]),
            ),
    {
        self.lemma_block_within_fallback_block(a);
        self.lemma_block_within_fallback_block(b);
        self.fallback.lemma_blocks_are_apart(a, b);
    }

    /// A request is served from the memory that the allocator has: where all
    /// memory of the first-fit allocator lies in `[start, end)`, the same
    /// holds after the request, and the new block lies there.
    pub proof fn lemma_allocate_within(self, layout: Layout, start: int, end: int)
        requires
            self.wf(),
            layout.wf(),
            self.fallback.within(start, end),
        ensures
            self.allocate(layout).0.fallback.within(start, end),
            self.allocate(layout).1 matches Some(addr) ==> start <= addr && addr + block_size(
                layout,
            ) <= end,
    {
        lemma_size_class_is_first(required_size(layout));
        match list_index_spec(layout) {
            Some(index) => {
                lemma_class_request(index);
                if self.lists[index].len() > 0 {
                    let at = self.lists[index].len() - 1;
                    assert(self.waiting(index, at));
                } else {
                    self.fallback.lemma_allocate_adjusted_within(
                        class_request(index).0,
                        class_request(index).1,
                        start,
                        end,
                    );
                }
            },
            None => {
                if adjustable(layout) {
                    lemma_adjusted(layout);
                    self.fallback.lemma_allocate_adjusted_within(
                        adjusted(layout).0,
                        adjusted(layout).1,
                        start,
                        end,
                    );
                }
            },
        }
    }

    /// A block that comes back adds no memory: where all memory of the
    /// first-fit allocator lies in `[start, end)` before, the same holds
    /// after.
    pub proof fn lemma_deallocate_within(self, addr: usize, layout: Layout, start: int, end: int)
        requires
            self.wf(),
            self.live.contains_key(addr),
            self.live[addr] == layout,
            self.fallback.within(start, end),
        ensures
            self.deallocate(addr, layout).fallback.within(start, end),
    {
        if list_index_spec(layout) is None {
            self.fallback.lemma_deallocate_within(addr, layout, start, end);
        }
    }

    /// Taking back a block that was handed out for `layout` keeps the state
    /// well formed.
    pub proof fn lemma_deallocate(self, addr: usize, layout: Layout)
        requires
            self.wf(),
            self.live.contains_key(addr),
            self.live[addr] == layout,
        ensures
            self.deallocate(addr, layout).wf(),
    {
        let next = self.deallocate(addr, layout);
        lemma_size_class_is_first(required_size(layout));
        match list_index_spec(layout) {
            Some(index) => {
                let top = self.lists[index].len() as int;
                assert forall|i: int, j: int| next.waiting(i, j) implies (if i == index && j
                    == top {
                    next.lists[i][j] == addr
                } else {
                    self.waiting(i, j) && next.lists[i][j] == self.lists[i][j]
                }) by {}
                assert(next.wf());
            },
            None => {
                self.fallback.lemma_deallocate(addr, layout);
                assert forall|i: int, j: int| next.waiting(i, j) implies self.waiting(i, j)
                    && next.lists[i][j] == self.lists[i][j] by {}
                assert(next.wf());
            },
        }
    }

    /// A block of a size class that came back is the next block that a
    /// request of that class gets.
    pub proof fn lemma_round_trip(self, layout: Layout, again: Layout)
        requires
            self.wf(),
            layout.wf(),
            again.wf(),
            list_index_spec(layout) is Some,
            list_index_spec(again) == list_index_spec(layout),
            self.allocate(layout).1 is Some,
        ensures
            ({
                let (taken, block) = self.allocate(layout);
                let given_back = taken.deallocate(block.unwrap(), layout);
                &&& given_back.wf()
                &&& given_back.allocate(again).1 == block
            }),
    {
        self.lemma_allocate(layout);
        let (taken, block) = self.allocate(layout);
        taken.lemma_deallocate(block.unwrap(), layout);
    }
}

/// What the first-fit allocator is asked for a size class can be served and
/// given back, and the block has room for the class's block size and starts
/// at a multiple of it.
pub proof fn lemma_class_request(index: int)
    requires
        0 <= index < BLOCK_SIZES.len(),
    ensures
        0 < class_size(index) <= class_request(index).0,
        NODE_SIZE <= class_request(index).0 <= isize::MAX,
        class_request(index).0 % (NODE_ALIGN as int) == 0,
        is_power_of_two(class_request(index).1),
        class_request(index).1 % (NODE_ALIGN as int) == 0,
        class_request(index).1 % class_size(index) == 0,
{
    reveal_with_fuel(is_power_of_two, 13);
    lemma_mod_self_0(class_size(index));
}

/// An allocator with a free list for each size class, and a first-fit
/// allocator behind them.
pub struct FixedSizeBlockAllocator {
    list_heads: Vec<Vec<usize>>,
    fallback_allocator: LinkedListAllocator,
    live: Ghost<Map<usize, Layout>>,
}

impl View for FixedSizeBlockAllocator {
    type V = SizeClasses;

    closed spec fn view(&self) -> SizeClasses {
        SizeClasses {
            lists: Seq::new(self.list_heads@.len(), |index: int| self.list_heads@[index]@),
            fallback: self.fallback_allocator@,
            live: self.live@,
        }
    }
}

/// The size class of a request: the index of the first block size that has
/// room for the larger of its size and its alignment.
pub fn list_index(layout: &Layout) -> (index: Option<usize>)
    ensures
        index matches Some(i) ==> list_index_spec(*layout) == Some(i as int),
        index is None ==> list_index_spec(*layout) is None,
{
    let required_block_size = if layout.size() >= layout.align() {
        layout.size()
    } else {
        layout.align()
    };
    let mut index: usize = 0;
    while index < 9
        invariant
            index <= 9,
            required_block_size == required_size(*layout),
            forall|j: int| 0 <= j < index ==> #[trigger] class_size(j) < required_block_size,
        decreases 9 - index,
    {
        if BLOCK_SIZES[index] >= required_block_size {
            proof {
                lemma_size_class_is_first(required_block_size as int);
                if size_class(required_block_size as int) is Some {
                    let first = size_class(required_block_size as int).unwrap();
                    if first < index {
                        assert(class_size(first) < required_block_size);
                    } else if index < first {
                        assert(class_size(index as int) < required_block_size);
                    }
                } else {
                    assert(class_size(index as int) < required_block_size);
                }
            }
            return Some(index);
        }
        index += 1;
    }
    proof {
        assert(class_size(8) < required_block_size);
    }
    None
}

impl FixedSizeBlockAllocator {
    /// The state of the size classes and of the first-fit allocator is well
    /// formed.
    pub open spec fn wf(&self) -> bool {
        self@.wf()
    }

    /// An allocator without memory.
    pub fn new() -> (allocator: Self)
        ensures
            allocator@ == SizeClasses::empty(),
            allocator.wf(),
    {
        let mut list_heads: Vec<Vec<usize>> = Vec::new();
        let mut index: usize = 0;
        while index < 9
            invariant
                index <= 9,
                list_heads@.len() == index,
                forall|j: int| 0 <= j < index ==> (#[trigger] list_heads@[j])@ == Seq::<usize>::empty(),
            decreases 9 - index,
        {
            list_heads.push(Vec::new());
            index += 1;
        }
        let allocator = FixedSizeBlockAllocator {
            list_heads,
            fallback_allocator: LinkedListAllocator::new(),
            live: Ghost(Map::empty()),
        };
        assert(allocator@.lists =~= SizeClasses::empty().lists);
        allocator
    }

    /// Gives the allocator its heap, the bytes `[heap_start, heap_start +
    /// heap_size)`. To be called once, before the first request.
    pub fn init(&mut self, heap_start: usize, heap_size: usize)
        requires
            old(self)@ == SizeClasses::empty(),
            (ListNode { addr: heap_start, size: heap_size }).wf(),
        ensures
            final(self)@ == (SizeClasses {
                fallback: FreeList::empty().add(heap_start, heap_size),
                ..SizeClasses::empty()
            }),
            final(self)@.fallback.within(heap_start as int, heap_start + heap_size),
            final(self).wf(),
    {
        self.fallback_allocator.init(heap_start, heap_size);
        assert(self@.lists =~= old(self)@.lists);
    }

    /// Asks the first-fit allocator for a block of `layout`.
    fn fallback_alloc(&mut self, layout: Layout) -> (block: Option<usize>)
        requires
            old(self).fallback_allocator.wf(),
            layout.wf(),
        ensures
            final(self).fallback_allocator.wf(),
            (final(self).fallback_allocator@, block) == old(self).fallback_allocator@.allocate(
                layout,
            ),
            final(self).list_heads == old(self).list_heads,
            final(self).live == old(self).live,
    {
        self.fallback_allocator.allocate(layout)
    }

    /// Hands out a block for `layout`, or `None` where the heap has no room
    /// for it.
    pub fn allocate(&mut self, layout: Layout) -> (block: Option<usize>)
        requires
            old(self).wf(),
            layout.wf(),
        ensures
            final(self).wf(),
            (final(self)@, block) == old(self)@.allocate(layout),
            block matches Some(addr) ==> {
                &&& addr as int % layout.align() as int == 0
                &&& addr + block_size(layout) <= usize::MAX
                &&& layout.size() <= block_size(layout)
                &&& old(self)@.clear_of_blocks(addr as int, block_size(layout))
            },
    {
        proof {
            self@.lemma_allocate(layout);
            lemma_size_class_is_first(required_size(layout));
        }
        match list_index(&layout) {
            Some(index) => {
                match self.list_heads[index].pop() {
                    Some(addr) => {
                        self.live = Ghost(self.live@.insert(addr, layout));
                        assert(self@.lists =~= old(self)@.lists.update(
                            index as int,
                            old(self)@.lists[index as int].drop_last(),
                        ));
                        Some(addr)
                    },
                    None => {
                        // no block waits: cut a new one, aligned to its size
                        let block_size = BLOCK_SIZES[index];
                        let block_align = block_size;
                        proof {
                            lemma_class_request(index as int);
                            lemma_class_sizes_are_powers_of_two();
                            lemma_mod_self_0(block_size as int);
                        }
                        let class_layout = Layout::from_size_align(block_size, block_align).unwrap();
                        let block = self.fallback_alloc(class_layout);
                        if let Some(addr) = block {
                            self.live = Ghost(self.live@.insert(addr, layout));
                        }
                        assert(self@.lists =~= old(self)@.lists);
                        block
                    },
                }
            },
            None => {
                let block = self.fallback_alloc(layout);
                if let Some(addr) = block {
                    self.live = Ghost(self.live@.insert(addr, layout));
                }
                assert(self@.lists =~= old(self)@.lists);
                block
            },
        }
    }

    /// Takes back the block at `addr` that was handed out for `layout`.
    pub fn deallocate(&mut self, addr: usize, layout: Layout)
        requires
            old(self).wf(),
            old(self)@.live.contains_key(addr),
            old(self)@.live[addr] == layout,
        ensures
            final(self).wf(),
            final(self)@ == old(self)@.deallocate(addr, layout),
    {
        proof {
            self@.lemma_deallocate(addr, layout);
            lemma_size_class_is_first(required_size(layout));
        }
        match list_index(&layout) {
            Some(index) => {
                // the block has room for the link to the next waiting block
                assert(LINK_SIZE <= BLOCK_SIZES[index as int]);
                assert(addr as int % (LINK_SIZE as int) == 0) by {
                    lemma_multiple_of_multiple(
                        addr as int,
                        class_size(index as int),
                        LINK_SIZE as int,
                    );
                }
                self.list_heads[index].push(addr);
                self.live = Ghost(self.live@.remove(addr));
                assert(self@.lists =~= old(self)@.lists.update(
                    index as int,
                    old(self)@.lists[index as int].push(addr),
                ));
            },
            None => {
                self.fallback_allocator.deallocate(addr, layout);
                self.live = Ghost(self.live@.remove(addr));
                assert(self@.lists =~= old(self)@.lists);
            },
        }
    }
}

impl Default for FixedSizeBlockAllocator {
    fn default() -> (allocator: FixedSizeBlockAllocator)
        ensures
            allocator@ == SizeClasses::empty(),
            allocator.wf(),
    {
        FixedSizeBlockAllocator::new()
    }
}

} // verus!
