//! First-fit allocation from a list of free regions.
//!
//! The allocator keeps the free regions of the heap in a list, most recently
//! freed first. A request takes the first region that can hold it, splits off
//! what is left over before and behind the block, and puts those pieces back.
//! Neighbouring free regions are never merged.

use vstd::prelude::*;
use super::align::align_up_spec;
use super::align::checked_align_up;
use super::align::is_power_of_two;
use super::align::lemma_align_up_is_least_multiple;
use super::align::lemma_multiple_of_multiple;
use super::align::lemma_power_of_two_divides;
use super::layout::Layout;
use super::layout::lemma_power_of_two_is_positive;
use super::layout::spec_max;

verus! {

/// Bytes taken by the header of a free region. No free region is smaller.
pub const NODE_SIZE: usize = 16;

/// Alignment of the header of a free region. Every free region starts at a
/// multiple of it.
pub const NODE_ALIGN: usize = 8;

/// The byte ranges `[a, a + s)` and `[b, b + t)` have no byte in common.
pub open spec fn disjoint(a: int, s: int, b: int, t: int) -> bool {
    a + s <= b || b + t <= a
}

/// A free region: the bytes `[addr, addr + size)`.
#[derive(Clone, Copy, Debug, PartialEq, Eq, Structural)]
pub struct ListNode {
    pub addr: usize,
    pub size: usize,
}

impl ListNode {
    /// The first address behind the region.
    pub open spec fn end(self) -> int {
        self.addr + self.size
    }

    /// The region can hold its own header and does not run past the end of
    /// the address space.
    pub open spec fn wf(self) -> bool {
        &&& self.addr as int % NODE_ALIGN as int == 0
        &&& self.size >= NODE_SIZE
        &&& self.end() <= usize::MAX
    }

    /// The region shares no byte with the block `[addr, addr + size)`.
    pub open spec fn apart_from(self, addr: int, size: int) -> bool {
        disjoint(self.addr as int, self.size as int, addr, size)
    }

    /// The region `[addr, addr + size)`.
    pub fn new(addr: usize, size: usize) -> (node: ListNode)
        ensures
            node == (ListNode { addr, size }),
    {
        ListNode { addr, size }
    }

    /// The first address of the region.
    pub fn start_addr(&self) -> (addr: usize)
        ensures
            addr == self.addr,
    {
        self.addr
    }

    /// The first address behind the region.
    pub fn end_addr(&self) -> (addr: usize)
        requires
            self.end() <= usize::MAX,
        ensures
            addr == self.end(),
    {
        self.addr + self.size
    }
}

/// Where a block of `size` bytes aligned to `align` starts when it is cut
/// from `region`: at the first aligned address of the region, provided the
/// block ends inside the region and what is left behind it is nothing or
/// enough for the header of a free region.
pub open spec fn region_fit(region: ListNode, size: int, align: int) -> Option<usize> {
    let start = align_up_spec(region.addr as int, align);
    let excess = region.end() - (start + size);
    if excess < 0 || 0 < excess < NODE_SIZE {
        None
    } else {
        Some(start as usize)
    }
}

/// `free[i]` is the first region of `free` that fits the request.
pub open spec fn is_first_fit(free: Seq<ListNode>, size: int, align: int, i: int) -> bool {
    &&& 0 <= i < free.len()
    &&& region_fit(free[i], size, align) is Some
    &&& forall|j: int| 0 <= j < i ==> region_fit(#[trigger] free[j], size, align) is None
}

/// The index of the first region of `free` that fits the request.
pub open spec fn first_fit(free: Seq<ListNode>, size: int, align: int) -> Option<int> {
    if exists|i: int| is_first_fit(free, size, align, i) {
        Some(choose|i: int| is_first_fit(free, size, align, i))
    } else {
        None
    }
}

/// There is at most one first fit.
pub proof fn lemma_first_fit_is(free: Seq<ListNode>, size: int, align: int, i: int)
    requires
        is_first_fit(free, size, align, i),
    ensures
        first_fit(free, size, align) == Some(i),
{
    let k = choose|k: int| is_first_fit(free, size, align, k);
    if k < i {
        assert(region_fit(free[k], size, align) is None);
    } else if i < k {
        assert(region_fit(free[i], size, align) is None);
    }
}

/// Where no region fits there is no first fit.
pub proof fn lemma_first_fit_none(free: Seq<ListNode>, size: int, align: int)
    requires
        forall|j: int| 0 <= j < free.len() ==> region_fit(#[trigger] free[j], size, align) is None,
    ensures
        first_fit(free, size, align) is None,
{
    if exists|i: int| is_first_fit(free, size, align, i) {
        let k = choose|k: int| is_first_fit(free, size, align, k);
        assert(region_fit(free[k], size, align) is None);
    }
}

/// The size and alignment that a request is served with: the alignment is
/// raised to that of a region header, the size is rounded up to a multiple of
/// the alignment and raised to the size of a region header, so that the block
/// can become a free region again.
pub open spec fn adjusted(layout: Layout) -> (int, int) {
    let align = spec_max(layout.align() as int, NODE_ALIGN as int);
    let size = spec_max(align_up_spec(layout.size() as int, align), NODE_SIZE as int);
    (size, align)
}

/// Whether the request can be adjusted: its size still makes a layout with
/// the raised alignment.
pub open spec fn adjustable(layout: Layout) -> bool {
    Layout::valid(layout.size() as int, spec_max(layout.align() as int, NODE_ALIGN as int))
}

/// The block `[addr, addr + size)` can become a free region and is no larger
/// than a layout allows.
pub open spec fn block_wf(addr: usize, size: usize) -> bool {
    &&& (ListNode { addr, size }).wf()
    &&& size <= isize::MAX
}

/// The state of the allocator: the free regions in the order in which they are
/// tried, and the blocks that are handed out, each by its first address with
/// its size.
pub struct FreeList {
    pub free: Seq<ListNode>,
    pub live: Map<usize, usize>,
}

impl FreeList {
    /// No free region and no block.
    pub open spec fn empty() -> FreeList {
        FreeList { free: Seq::empty(), live: Map::empty() }
    }

    /// Free regions and blocks are well formed, and no two of them overlap.
    pub open spec fn wf(self) -> bool {
        &&& forall|i: int| 0 <= i < self.free.len() ==> (#[trigger] self.free[i]).wf()
        &&& forall|i: int, j: int|
            0 <= i < j < self.free.len() ==> (#[trigger] self.free[i]).apart_from(
                (#[trigger] self.free[j]).addr as int,
                self.free[j].size as int,
            )
        &&& forall|a: usize| #[trigger] self.live.contains_key(a) ==> block_wf(a, self.live[a])
        &&& forall|a: usize, i: int|
            #[trigger] self.live.contains_key(a) && 0 <= i < self.free.len() ==> (
            #[trigger] self.free[i]).apart_from(a as int, self.live[a] as int)
        &&& forall|a: usize, b: usize|
            #[trigger] self.live.contains_key(a) && #[trigger] self.live.contains_key(b) && a != b
                ==> disjoint(a as int, self.live[a] as int, b as int, self.live[b] as int)
    }

    /// The block `[addr, addr + size)` overlaps no block that is handed out.
    pub open spec fn clear_of_blocks(self, addr: int, size: int) -> bool {
        forall|a: usize| #[trigger]
            self.live.contains_key(a) ==> disjoint(a as int, self.live[a] as int, addr, size)
    }

    /// The block `[addr, addr + size)` overlaps no free region and no block
    /// that is handed out.
    pub open spec fn unused(self, addr: int, size: int) -> bool {
        &&& forall|i: int|
            0 <= i < self.free.len() ==> (#[trigger] self.free[i]).apart_from(addr, size)
        &&& self.clear_of_blocks(addr, size)
    }

    /// Every free region and every block that is handed out lies in the
    /// range `[start, end)`.
    pub open spec fn within(self, start: int, end: int) -> bool {
        &&& forall|i: int|
            0 <= i < self.free.len() ==> start <= (#[trigger] self.free[i]).addr
                && self.free[i].end() <= end
        &&& forall|a: usize| #[trigger]
            self.live.contains_key(a) ==> start <= a && a + self.live[a] <= end
    }

    /// The state with the region `[addr, addr + size)` put in front.
    pub open spec fn add(self, addr: usize, size: usize) -> FreeList {
        FreeList { free: self.free.insert(0, ListNode { addr, size }), live: self.live }
    }

    /// The state without the first region that fits, with that region and the
    /// address at which the block starts in it.
    pub open spec fn take(self, size: int, align: int) -> (FreeList, Option<(ListNode, usize)>) {
        match first_fit(self.free, size, align) {
            Some(i) => (
                FreeList { free: self.free.remove(i), live: self.live },
                Some((self.free[i], region_fit(self.free[i], size, align).unwrap())),
            ),
            None => (self, None),
        }
    }

    /// The state after the block `[start, start + size)` was cut from
    /// `region`, which has left the free list. What is left of the region
    /// behind the block goes back to the list, and then what is left before
    /// the block, if it can hold a region header.
    pub open spec fn carve(self, region: ListNode, start: usize, size: int) -> FreeList {
        let end = start + size;
        let tail = if end < region.end() {
            self.add(end as usize, (region.end() - end) as usize)
        } else {
            self
        };
        let head = if start - region.addr >= NODE_SIZE {
            tail.add(region.addr, (start - region.addr) as usize)
        } else {
            tail
        };
        FreeList { free: head.free, live: self.live.insert(start, size as usize) }
    }

    /// The state after a request for `size` bytes aligned to `align`, and the
    /// address of the block. The block is cut from the first region that
    /// fits.
    pub open spec fn allocate_adjusted(self, size: int, align: int) -> (FreeList, Option<usize>) {
        match self.take(size, align) {
            (rest, Some((region, start))) => (rest.carve(region, start, size), Some(start)),
            (_, None) => (self, None),
        }
    }

    /// The state after a request for a block of `layout`, and the address of
    /// the block. A request that cannot be adjusted is not served.
    pub open spec fn allocate(self, layout: Layout) -> (FreeList, Option<usize>) {
        if adjustable(layout) {
            self.allocate_adjusted(adjusted(layout).0, adjusted(layout).1)
        } else {
            (self, None)
        }
    }

    /// The state after the block at `addr` of `layout` came back: it is the
    /// first free region.
    pub open spec fn deallocate(self, addr: usize, layout: Layout) -> FreeList {
        FreeList {
            free: self.free.insert(0, ListNode { addr, size: adjusted(layout).0 as usize }),
            live: self.live.remove(addr),
        }
    }

    /// Taking a region out of the list keeps the state well formed, and
    /// nothing that is left overlaps the region.
    pub proof fn lemma_take_wf(self, size: int, align: int)
        requires
            self.wf(),
        ensures
            self.take(size, align).0.wf(),
            self.take(size, align).1 matches Some((region, start)) ==> {
                &&& region.wf()
                &&& region_fit(region, size, align) == Some(start)
                &&& self.take(size, align).0.unused(region.addr as int, region.size as int)
            },
    {
        match first_fit(self.free, size, align) {
            Some(i) => {
                assert(is_first_fit(self.free, size, align, i));
                let rest = self.take(size, align).0;
                assert forall|k: int| 0 <= k < rest.free.len() implies {
                    &&& (#[trigger] rest.free[k]).wf()
                    &&& rest.free[k].apart_from(self.free[i].addr as int, self.free[i].size as int)
                } by {
                    let k0 = if k < i {
                        k
                    } else {
                        k + 1
                    };
                    assert(rest.free[k] == self.free[k0]);
                    if k0 < i {
                        assert(self.free[k0].apart_from(
                            self.free[i].addr as int,
                            self.free[i].size as int,
                        ));
                    } else {
                        assert(self.free[i].apart_from(
                            self.free[k0].addr as int,
                            self.free[k0].size as int,
                        ));
                    }
                }
                assert forall|k: int, l: int| 0 <= k < l < rest.free.len() implies (
                #[trigger] rest.free[k]).apart_from(
                    (#[trigger] rest.free[l]).addr as int,
                    rest.free[l].size as int,
                ) by {
                    let k0 = if k < i {
                        k
                    } else {
                        k + 1
                    };
                    let l0 = if l < i {
                        l
                    } else {
                        l + 1
                    };
                    assert(rest.free[k] == self.free[k0]);
                    assert(rest.free[l] == self.free[l0]);
                }
                assert forall|a: usize, k: int| #[trigger]
                    rest.live.contains_key(a) && 0 <= k < rest.free.len() implies (
                #[trigger] rest.free[k]).apart_from(a as int, rest.live[a] as int) by {
                    let k0 = if k < i {
                        k
                    } else {
                        k + 1
                    };
                    assert(rest.free[k] == self.free[k0]);
                }
                assert forall|a: usize| #[trigger] rest.live.contains_key(a) implies disjoint(
                    a as int,
                    rest.live[a] as int,
                    self.free[i].addr as int,
                    self.free[i].size as int,
                ) by {
                    assert(self.free[i].apart_from(a as int, self.live[a] as int));
                }
            },
            None => {},
        }
    }

    /// Putting an unused region in front keeps the state well formed.
    pub proof fn lemma_add_wf(self, addr: usize, size: usize)
        requires
            self.wf(),
            (ListNode { addr, size }).wf(),
            self.unused(addr as int, size as int),
        ensures
            self.add(addr, size).wf(),
    {
        let next = self.add(addr, size);
        assert forall|i: int| 0 <= i < next.free.len() implies (#[trigger] next.free[i]).wf() by {
            if i > 0 {
                assert(next.free[i] == self.free[i - 1]);
            }
        }
        assert forall|i: int, j: int| 0 <= i < j < next.free.len() implies (
        #[trigger] next.free[i]).apart_from(
            (#[trigger] next.free[j]).addr as int,
            next.free[j].size as int,
        ) by {
            assert(next.free[j] == self.free[j - 1]);
            if i > 0 {
                assert(next.free[i] == self.free[i - 1]);
            } else {
                assert(self.free[j - 1].apart_from(addr as int, size as int));
            }
        }
        assert forall|a: usize, i: int| #[trigger]
            next.live.contains_key(a) && 0 <= i < next.free.len() implies (
        #[trigger] next.free[i]).apart_from(a as int, next.live[a] as int) by {
            if i > 0 {
                assert(next.free[i] == self.free[i - 1]);
            }
        }
    }

    /// Handing out an unused block keeps the state well formed.
    pub proof fn lemma_issue_wf(self, addr: usize, size: usize)
        requires
            self.wf(),
            block_wf(addr, size),
            self.unused(addr as int, size as int),
        ensures
            (FreeList { free: self.free, live: self.live.insert(addr, size) }).wf(),
            !self.live.contains_key(addr),
    {
        if self.live.contains_key(addr) {
            assert(block_wf(addr, self.live[addr]));
        }
        let next = FreeList { free: self.free, live: self.live.insert(addr, size) };
        assert forall|a: usize, b: usize| #[trigger]
            next.live.contains_key(a) && #[trigger] next.live.contains_key(b) && a
                != b implies disjoint(
            a as int,
            next.live[a] as int,
            b as int,
            next.live[b] as int,
        ) by {
            if a != addr {
                assert(self.live.contains_key(a));
            }
            if b != addr {
                assert(self.live.contains_key(b));
            }
        }
        assert forall|a: usize, i: int| #[trigger]
            next.live.contains_key(a) && 0 <= i < next.free.len() implies (
        #[trigger] next.free[i]).apart_from(a as int, next.live[a] as int) by {
            if a != addr {
                assert(self.live.contains_key(a));
            }
        }
        assert forall|a: usize| #[trigger] next.live.contains_key(a) implies block_wf(
            a,
            next.live[a],
        ) by {
            if a != addr {
                assert(self.live.contains_key(a));
            }
        }
    }

    /// A part of an unused block is unused.
    pub proof fn lemma_unused_part(self, addr: int, size: int, part: int, part_size: int)
        requires
            self.unused(addr, size),
            addr <= part,
            0 <= part_size,
            part + part_size <= addr + size,
        ensures
            self.unused(part, part_size),
    {
        assert forall|i: int| 0 <= i < self.free.len() implies (#[trigger] self.free[i]).apart_from(
            part,
            part_size,
        ) by {
            assert(self.free[i].apart_from(addr, size));
        }
    }

    /// A block that is unused and apart from a region is unused after the
    /// region came in front.
    pub proof fn lemma_unused_after_add(self, node: ListNode, addr: int, size: int)
        requires
            self.unused(addr, size),
            node.apart_from(addr, size),
        ensures
            self.add(node.addr, node.size).unused(addr, size),
    {
        let next = self.add(node.addr, node.size);
        assert forall|i: int| 0 <= i < next.free.len() implies (#[trigger] next.free[i]).apart_from(
            addr,
            size,
        ) by {
            if i > 0 {
                assert(next.free[i] == self.free[i - 1]);
            }
        }
    }

    /// Cutting a block from a region that has left the free list keeps the
    /// state well formed, where the block starts and ends at multiples of a
    /// region header's alignment and leaves behind it nothing or enough for
    /// a region header.
    pub proof fn lemma_carve(self, region: ListNode, start: usize, size: int)
        requires
            self.wf(),
            region.wf(),
            self.unused(region.addr as int, region.size as int),
            region.addr <= start,
            start as int % (NODE_ALIGN as int) == 0,
            NODE_SIZE <= size <= isize::MAX,
            size % (NODE_ALIGN as int) == 0,
            start + size == region.end() || start + size + NODE_SIZE <= region.end(),
        ensures
            self.carve(region, start, size).wf(),
            self.clear_of_blocks(start as int, size),
            !self.live.contains_key(start),
            block_wf(start, size as usize),
    {
        let end = start + size;
        let head_size = start - region.addr;
        let tail_node = ListNode { addr: end as usize, size: (region.end() - end) as usize };
        let head_node = ListNode { addr: region.addr, size: head_size as usize };
        let tail = if end < region.end() {
            self.add(tail_node.addr, tail_node.size)
        } else {
            self
        };
        let head = if head_size >= NODE_SIZE {
            tail.add(head_node.addr, head_node.size)
        } else {
            tail
        };
        // what is left behind the block
        if end < region.end() {
            self.lemma_unused_part(
                region.addr as int,
                region.size as int,
                end,
                region.end() - end,
            );
            self.lemma_add_wf(tail_node.addr, tail_node.size);
        }
        assert(tail.wf());
        // what is left before the block
        self.lemma_unused_part(
            region.addr as int,
            region.size as int,
            region.addr as int,
            head_size,
        );
        if end < region.end() {
            self.lemma_unused_after_add(tail_node, region.addr as int, head_size);
        }
        assert(tail.unused(region.addr as int, head_size));
        if head_size >= NODE_SIZE {
            tail.lemma_add_wf(head_node.addr, head_node.size);
        }
        assert(head.wf());
        // the block itself
        self.lemma_unused_part(region.addr as int, region.size as int, start as int, size);
        if end < region.end() {
            self.lemma_unused_after_add(tail_node, start as int, size);
        }
        assert(tail.unused(start as int, size));
        if head_size >= NODE_SIZE {
            tail.lemma_unused_after_add(head_node, start as int, size);
        }
        assert(head.unused(start as int, size));
        head.lemma_issue_wf(start, size as usize);
        assert(head.live == self.live);
    }

    /// Serving a request keeps the state well formed. The block that is
    /// handed out is aligned as asked, can become a free region again, and
    /// overlaps none of the blocks handed out before. A request that is not
    /// served changes nothing.
    pub proof fn lemma_allocate_adjusted(self, size: int, align: int)
        requires
            self.wf(),
            NODE_SIZE <= size <= isize::MAX,
            size % (NODE_ALIGN as int) == 0,
            is_power_of_two(align),
            align % (NODE_ALIGN as int) == 0,
        ensures
            self.allocate_adjusted(size, align).0.wf(),
            self.allocate_adjusted(size, align).1 is None ==> self.allocate_adjusted(size, align).0
                == self,
            self.allocate_adjusted(size, align).1 matches Some(addr) ==> {
                &&& addr as int % align == 0
                &&& block_wf(addr, size as usize)
                &&& self.clear_of_blocks(addr as int, size)
                &&& !self.live.contains_key(addr)
                &&& self.allocate_adjusted(size, align).0.live == self.live.insert(
                    addr,
                    size as usize,
                )
            },
    {
        self.lemma_take_wf(size, align);
        match self.take(size, align) {
            (rest, Some((region, start))) => {
                lemma_fit_is_aligned(region, size, align);
                rest.lemma_carve(region, start, size);
                assert(rest.live == self.live);
            },
            (_, None) => {},
        }
    }

    /// No two blocks that are handed out overlap.
    pub proof fn lemma_blocks_are_apart(self, a: usize, b: usize)
        requires
            self.wf(),
            self.live.contains_key(a),
            self.live.contains_key(b),
            a != b,
        ensures
            disjoint(a as int, self.live[a] as int, b as int, self.live[b] as int),
    {
    }

    /// A request is served from the memory that the allocator has: where
    /// every free region and every block lies in `[start, end)` before, the
    /// same holds after, and so the new block lies there.
    pub proof fn lemma_allocate_adjusted_within(self, size: int, align: int, start: int, end: int)
        requires
            self.wf(),
            0 <= size,
            is_power_of_two(align),
            align % (NODE_ALIGN as int) == 0,
            self.within(start, end),
        ensures
            self.allocate_adjusted(size, align).0.within(start, end),
            self.allocate_adjusted(size, align).1 matches Some(addr) ==> start <= addr && addr
                + size <= end,
    {
        self.lemma_take_wf(size, align);
        match first_fit(self.free, size, align) {
            Some(i) => {
                assert(is_first_fit(self.free, size, align, i));
                let region = self.free[i];
                let addr = region_fit(region, size, align).unwrap();
                lemma_fit_is_aligned(region, size, align);
                let rest = self.take(size, align).0;
                assert forall|k: int| 0 <= k < rest.free.len() implies start <= (
                #[trigger] rest.free[k]).addr && rest.free[k].end() <= end by {
                    let k0 = if k < i {
                        k
                    } else {
                        k + 1
                    };
                    assert(rest.free[k] == self.free[k0]);
                }
                let block_end = addr + size;
                let tail = if block_end < region.end() {
                    rest.add(block_end as usize, (region.end() - block_end) as usize)
                } else {
                    rest
                };
                assert forall|k: int| 0 <= k < tail.free.len() implies start <= (
                #[trigger] tail.free[k]).addr && tail.free[k].end() <= end by {
                    if block_end < region.end() && k > 0 {
                        assert(tail.free[k] == rest.free[k - 1]);
                    }
                }
                let head = if addr - region.addr >= NODE_SIZE {
                    tail.add(region.addr, (addr - region.addr) as usize)
                } else {
                    tail
                };
                assert forall|k: int| 0 <= k < head.free.len() implies start <= (
                #[trigger] head.free[k]).addr && head.free[k].end() <= end by {
                    if addr - region.addr >= NODE_SIZE && k > 0 {
                        assert(head.free[k] == tail.free[k - 1]);
                    }
                }
                let next = self.allocate_adjusted(size, align).0;
                assert(next.free == head.free);
                assert forall|a: usize| #[trigger] next.live.contains_key(a) implies start <= a
                    && a + next.live[a] <= end by {
                    if a != addr {
                        assert(self.live.contains_key(a));
                    }
                }
            },
            None => {},
        }
    }

    /// A block that comes back adds no memory: where every free region and
    /// every block lies in `[start, end)` before, the same holds after.
    pub proof fn lemma_deallocate_within(self, addr: usize, layout: Layout, start: int, end: int)
        requires
            self.live.contains_key(addr),
            self.live[addr] == adjusted(layout).0,
            self.within(start, end),
        ensures
            self.deallocate(addr, layout).within(start, end),
    {
        let next = self.deallocate(addr, layout);
        assert forall|k: int| 0 <= k < next.free.len() implies start <= (
        #[trigger] next.free[k]).addr && next.free[k].end() <= end by {
            if k > 0 {
                assert(next.free[k] == self.free[k - 1]);
            }
        }
        assert forall|a: usize| #[trigger] next.live.contains_key(a) implies start <= a && a
            + next.live[a] <= end by {
            assert(self.live.contains_key(a));
        }
    }

    /// Taking a block back keeps the state well formed.
    pub proof fn lemma_deallocate(self, addr: usize, layout: Layout)
        requires
            self.wf(),
            self.live.contains_key(addr),
            self.live[addr] == adjusted(layout).0,
        ensures
            self.deallocate(addr, layout).wf(),
    {
        let size = self.live[addr];
        let rest = FreeList { free: self.free, live: self.live.remove(addr) };
        assert(block_wf(addr, size));
        assert forall|i: int| 0 <= i < rest.free.len() implies (#[trigger] rest.free[i]).apart_from(
            addr as int,
            size as int,
        ) by {
            assert(self.free[i].apart_from(addr as int, self.live[addr] as int));
        }
        assert forall|a: usize| #[trigger] rest.live.contains_key(a) implies disjoint(
            a as int,
            rest.live[a] as int,
            addr as int,
            size as int,
        ) by {
            assert(self.live.contains_key(a) && a != addr);
        }
        assert(rest.wf()) by {
            assert forall|a: usize, b: usize| #[trigger]
                rest.live.contains_key(a) && #[trigger] rest.live.contains_key(b) && a
                    != b implies disjoint(
                a as int,
                rest.live[a] as int,
                b as int,
                rest.live[b] as int,
            ) by {
                assert(self.live.contains_key(a) && self.live.contains_key(b));
            }
        }
        rest.lemma_add_wf(addr, size);
    }

    /// A block that came back is the first free region, and a later request
    /// that fits it gets the same address: one for a size that is not larger
    /// and an alignment that is not stricter, and which leaves behind it
    /// nothing or enough for a region header.
    pub proof fn lemma_freed_block_is_reused(self, layout: Layout, again: Layout)
        requires
            self.wf(),
            layout.wf(),
            again.wf(),
            adjustable(layout),
            adjustable(again),
            self.allocate(layout).1 is Some,
            adjusted(again).0 <= adjusted(layout).0,
            adjusted(again).1 <= adjusted(layout).1,
            adjusted(layout).0 - adjusted(again).0 == 0 || adjusted(layout).0 - adjusted(again).0
                >= NODE_SIZE,
        ensures
            ({
                let (taken, block) = self.allocate(layout);
                let addr = block.unwrap();
                let given_back = taken.deallocate(addr, layout);
                &&& given_back.wf()
                &&& given_back.free[0] == (ListNode { addr, size: adjusted(layout).0 as usize })
                &&& given_back.allocate(again).1 == Some(addr)
            }),
    {
        lemma_adjusted(layout);
        lemma_adjusted(again);
        let (size, align) = adjusted(layout);
        let (size2, align2) = adjusted(again);
        self.lemma_allocate_adjusted(size, align);
        let (taken, block) = self.allocate(layout);
        let addr = block.unwrap();
        taken.lemma_deallocate(addr, layout);
        let given_back = taken.deallocate(addr, layout);
        let region = given_back.free[0];
        // the block starts at a multiple of the alignment asked for now
        lemma_power_of_two_divides(align2, align);
        lemma_power_of_two_is_positive(align2);
        lemma_multiple_of_multiple(addr as int, align, align2);
        assert(region_fit(region, size2, align2) == Some(addr));
        assert(is_first_fit(given_back.free, size2, align2, 0));
        lemma_first_fit_is(given_back.free, size2, align2, 0);
    }
}

/// A block that fits a region starts in the region at a multiple of the
/// alignment asked for, which is a multiple of a region header's alignment
/// too, and ends in the region.
pub proof fn lemma_fit_is_aligned(region: ListNode, size: int, align: int)
    requires
        region.wf(),
        0 <= size,
        is_power_of_two(align),
        align % (NODE_ALIGN as int) == 0,
        region_fit(region, size, align) is Some,
    ensures
        ({
            let start = region_fit(region, size, align).unwrap();
            &&& start == align_up_spec(region.addr as int, align)
            &&& region.addr <= start
            &&& start as int % align == 0
            &&& start as int % (NODE_ALIGN as int) == 0
            &&& start + size == region.end() || start + size + NODE_SIZE <= region.end()
        }),
{
    lemma_power_of_two_is_positive(align);
    lemma_align_up_is_least_multiple(region.addr as int, align);
    lemma_multiple_of_multiple(
        align_up_spec(region.addr as int, align),
        align,
        NODE_ALIGN as int,
    );
}

/// The adjusted size and alignment of a request can be served and can become
/// a free region again: the size has room for a region header and is a
/// multiple of the header's alignment, the alignment is a power of two that
/// satisfies both the header and the request.
pub proof fn lemma_adjusted(layout: Layout)
    requires
        layout.wf(),
        adjustable(layout),
    ensures
        layout.size() <= adjusted(layout).0,
        NODE_SIZE <= adjusted(layout).0 <= isize::MAX,
        adjusted(layout).0 % (NODE_ALIGN as int) == 0,
        is_power_of_two(adjusted(layout).1),
        adjusted(layout).1 % (NODE_ALIGN as int) == 0,
        adjusted(layout).1 % (layout.align() as int) == 0,
{
    let align = adjusted(layout).1;
    lemma_node_align_is_power_of_two();
    lemma_power_of_two_is_positive(layout.align() as int);
    lemma_power_of_two_divides(NODE_ALIGN as int, align);
    lemma_power_of_two_divides(layout.align() as int, align);
    lemma_align_up_is_least_multiple(layout.size() as int, align);
    lemma_multiple_of_multiple(
        align_up_spec(layout.size() as int, align),
        align,
        NODE_ALIGN as int,
    );
}

/// The alignment of a region header is a power of two.
pub proof fn lemma_node_align_is_power_of_two()
    ensures
        is_power_of_two(NODE_ALIGN as int),
{
    reveal_with_fuel(is_power_of_two, 4);
}

/// An allocator that serves each request from the first free region that can
/// hold it.
pub struct LinkedListAllocator {
    regions: Vec<ListNode>,
    live: Ghost<Map<usize, usize>>,
}

impl View for LinkedListAllocator {
    type V = FreeList;

    closed spec fn view(&self) -> FreeList {
        FreeList { free: self.regions@, live: self.live@ }
    }
}

impl LinkedListAllocator {
    /// No two of the free regions and the blocks handed out overlap, and each
    /// can hold a region header.
    pub open spec fn wf(&self) -> bool {
        self@.wf()
    }

    /// An allocator without memory.
    pub fn new() -> (allocator: Self)
        ensures
            allocator@ == FreeList::empty(),
            allocator.wf(),
    {
        LinkedListAllocator { regions: Vec::new(), live: Ghost(Map::empty()) }
    }

    /// Gives the allocator its heap, the bytes `[heap_start, heap_start +
    /// heap_size)`. To be called once, before the first request.
    pub fn init(&mut self, heap_start: usize, heap_size: usize)
        requires
            old(self)@ == FreeList::empty(),
            (ListNode { addr: heap_start, size: heap_size }).wf(),
        ensures
            final(self)@ == FreeList::empty().add(heap_start, heap_size),
            final(self)@.within(heap_start as int, heap_start + heap_size),
            final(self).wf(),
    {
        self.add_free_regions(heap_start, heap_size);
    }

    /// Puts the region `[addr, addr + size)` in front of the free list.
    pub fn add_free_regions(&mut self, addr: usize, size: usize)
        requires
            old(self).wf(),
            (ListNode { addr, size }).wf(),
            old(self)@.unused(addr as int, size as int),
        ensures
            final(self)@ == old(self)@.add(addr, size),
            final(self).wf(),
    {
        proof {
            self@.lemma_add_wf(addr, size);
        }
        self.regions.insert(0, ListNode::new(addr, size));
    }

    /// Takes the first region that fits the request out of the free list, and
    /// returns it with the address at which the block starts in it.
    pub fn find_regions(&mut self, size: usize, align: usize) -> (found: Option<(ListNode, usize)>)
        requires
            old(self).wf(),
            is_power_of_two(align as int),
        ensures
            (final(self)@, found) == old(self)@.take(size as int, align as int),
            final(self).wf(),
    {
        let ghost before = self@;
        let mut i: usize = 0;
        while i < self.regions.len()
            invariant
                self@ == before,
                before == old(self)@,
                before.wf(),
                is_power_of_two(align as int),
                i <= self.regions.len(),
                forall|j: int|
                    0 <= j < i ==> region_fit(
                        #[trigger] before.free[j],
                        size as int,
                        align as int,
                    ) is None,
            decreases self.regions.len() - i,
        {
            let region = self.regions[i];
            assert(region == before.free[i as int] && region.wf());
            if let Ok(start_alloc) = Self::alloc_from_region(&region, size, align) {
                proof {
                    lemma_first_fit_is(before.free, size as int, align as int, i as int);
                    before.lemma_take_wf(size as int, align as int);
                }
                let region = self.regions.remove(i);
                return Some((region, start_alloc));
            }
            i += 1;
        }
        proof {
            lemma_first_fit_none(before.free, size as int, align as int);
        }
        None
    }

    /// Tries to cut a block of `size` bytes aligned to `align` from `region`,
    /// and returns the address at which the block starts.
    pub fn alloc_from_region(region: &ListNode, size: usize, align: usize) -> (start: Result<
        usize,
        (),
    >)
        requires
            region.end() <= usize::MAX,
            is_power_of_two(align as int),
        ensures
            start == match region_fit(*region, size as int, align as int) {
                Some(start) => Ok::<usize, ()>(start),
                None => Err::<usize, ()>(()),
            },
    {
        let start_alloc = match checked_align_up(region.start_addr(), align) {
            Some(start) => start,
            None => { return Err(()); },
        };
        let end_alloc = match start_alloc.checked_add(size) {
            Some(end) => end,
            None => { return Err(()); },
        };
        if end_alloc > region.end_addr() {
            return Err(());
        }
        let excess_size = region.end_addr() - end_alloc;
        if excess_size > 0 && excess_size < NODE_SIZE {
            // what is left of the region could not hold a region header
            return Err(());
        }
        Ok(start_alloc)
    }

    /// The size and alignment with which a request is served, so that the
    /// block can hold a region header when it comes back.
    pub fn size_align(layout: Layout) -> (adjusted_layout: (usize, usize))
        requires
            layout.wf(),
            adjustable(layout),
        ensures
            adjusted_layout.0 == adjusted(layout).0,
            adjusted_layout.1 == adjusted(layout).1,
    {
        proof {
            lemma_node_align_is_power_of_two();
        }
        let layout = layout.align_to(NODE_ALIGN).expect("adjusting alignment failed").pad_to_align();
        let size = if layout.size() >= NODE_SIZE {
            layout.size()
        } else {
            NODE_SIZE
        };
        (size, layout.align())
    }

    /// Cuts the block `[start, start + size)` from `region`, which has left
    /// the free list: puts back what is left of the region, and counts the
    /// block as handed out.
    fn carve(&mut self, region: ListNode, start: usize, size: usize)
        requires
            old(self).wf(),
            region.wf(),
            old(self)@.unused(region.addr as int, region.size as int),
            region.addr <= start,
            start as int % (NODE_ALIGN as int) == 0,
            NODE_SIZE <= size <= isize::MAX,
            size as int % (NODE_ALIGN as int) == 0,
            start + size == region.end() || start + size + NODE_SIZE <= region.end(),
        ensures
            final(self).wf(),
            final(self)@ == old(self)@.carve(region, start, size as int),
    {
        let ghost rest = self@;
        proof {
            rest.lemma_carve(region, start, size as int);
        }
        let end_alloc = start + size;
        let excess_size = region.end_addr() - end_alloc;
        let head_size = start - region.start_addr();
        if excess_size > 0 {
            proof {
                rest.lemma_unused_part(
                    region.addr as int,
                    region.size as int,
                    end_alloc as int,
                    excess_size as int,
                );
            }
            self.add_free_regions(end_alloc, excess_size);
        }
        if head_size >= NODE_SIZE {
            proof {
                rest.lemma_unused_part(
                    region.addr as int,
                    region.size as int,
                    region.addr as int,
                    head_size as int,
                );
                if excess_size > 0 {
                    rest.lemma_unused_after_add(
                        ListNode { addr: end_alloc, size: excess_size },
                        region.addr as int,
                        head_size as int,
                    );
                }
            }
            self.add_free_regions(region.start_addr(), head_size);
        }
        self.live = Ghost(self.live@.insert(start, size));
    }

    /// Hands out a block of `layout`, or `None` where no free region can hold
    /// it.
    pub fn allocate(&mut self, layout: Layout) -> (block: Option<usize>)
        requires
            old(self).wf(),
            layout.wf(),
        ensures
            final(self).wf(),
            (final(self)@, block) == old(self)@.allocate(layout),
            block matches Some(addr) ==> {
                &&& addr as int % layout.align() as int == 0
                &&& addr + layout.size() <= usize::MAX
                &&& old(self)@.clear_of_blocks(addr as int, adjusted(layout).0)
            },
    {
        proof {
            lemma_node_align_is_power_of_two();
        }
        if layout.align_to(NODE_ALIGN).is_err() {
            return None;
        }
        let (size, align) = Self::size_align(layout);
        proof {
            lemma_adjusted(layout);
            self@.lemma_allocate_adjusted(size as int, align as int);
            self@.lemma_take_wf(size as int, align as int);
        }
        match self.find_regions(size, align) {
            Some((region, start_alloc)) => {
                proof {
                    lemma_fit_is_aligned(region, size as int, align as int);
                    lemma_power_of_two_is_positive(layout.align() as int);
                    lemma_multiple_of_multiple(
                        start_alloc as int,
                        align as int,
                        layout.align() as int,
                    );
                }
                self.carve(region, start_alloc, size);
                Some(start_alloc)
            },
            None => None,
        }
    }

    /// Takes back the block at `addr` that was handed out for `layout`. It
    /// becomes the first free region.
    pub fn deallocate(&mut self, addr: usize, layout: Layout)
        requires
            old(self).wf(),
            layout.wf(),
            old(self)@.live.contains_key(addr),
            old(self)@.live[addr] == adjusted(layout).0,
        ensures
            final(self).wf(),
            final(self)@ == old(self)@.deallocate(addr, layout),
    {
        proof {
            assert(block_wf(addr, self@.live[addr]));
            lemma_node_align_is_power_of_two();
            self@.lemma_deallocate(addr, layout);
        }
        let (size, _) = Self::size_align(layout);
        self.live = Ghost(self.live@.remove(addr));
        self.regions.insert(0, ListNode::new(addr, size));
    }
}

impl Default for LinkedListAllocator {
    fn default() -> (allocator: LinkedListAllocator)
        ensures
            allocator@ == FreeList::empty(),
            allocator.wf(),
    {
        LinkedListAllocator::new()
    }
}

} // verus!
