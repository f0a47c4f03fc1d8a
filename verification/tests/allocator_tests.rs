use mini_os::allocator::align::{align_up, checked_align_up, is_pow2};
use mini_os::allocator::bump::BumpAllocator;
use mini_os::allocator::fixed_size_block::{list_index, FixedSizeBlockAllocator, BLOCK_SIZES};
use mini_os::allocator::layout::{Layout, LayoutError};
use mini_os::allocator::linked_list::{LinkedListAllocator, ListNode, NODE_ALIGN, NODE_SIZE};
use mini_os::allocator::{heap_pages, Dummy, HEAP_SIZE, HEAP_START};

fn layout(size: usize, align: usize) -> Layout {
    Layout::from_size_align(size, align).unwrap()
}

#[test]
fn align_up_rounds_to_the_next_multiple() {
    assert_eq!(align_up(0, 8), 0);
    assert_eq!(align_up(1, 8), 8);
    assert_eq!(align_up(8, 8), 8);
    assert_eq!(align_up(9, 8), 16);
    assert_eq!(align_up(0x1001, 0x1000), 0x2000);
    assert_eq!(align_up(17, 1), 17);
}

#[test]
fn checked_align_up_reports_overflow() {
    assert_eq!(checked_align_up(13, 4), Some(16));
    assert_eq!(checked_align_up(16, 4), Some(16));
    assert_eq!(checked_align_up(usize::MAX, 1), Some(usize::MAX));
    assert_eq!(checked_align_up(usize::MAX, 2), None);
    assert_eq!(checked_align_up(usize::MAX - 6, 8), None);
    assert_eq!(checked_align_up(usize::MAX - 7, 8), Some(usize::MAX - 7));
}

#[test]
fn powers_of_two_are_recognised() {
    assert!(!is_pow2(0));
    assert!(is_pow2(1));
    assert!(is_pow2(2));
    assert!(!is_pow2(3));
    assert!(is_pow2(4096));
    assert!(!is_pow2(4097));
    assert!(is_pow2(1usize << (usize::BITS - 1)));
    assert!(!is_pow2(usize::MAX));
}

#[test]
fn layout_accepts_what_makes_a_layout() {
    let l = layout(24, 8);
    assert_eq!(l.size(), 24);
    assert_eq!(l.align(), 8);
    assert_eq!(Layout::from_size_align(0, 1).map(|l| (l.size(), l.align())), Ok((0, 1)));
    let largest = isize::MAX as usize;
    assert!(Layout::from_size_align(largest, 1).is_ok());
}

#[test]
fn layout_refuses_what_makes_none() {
    assert_eq!(Layout::from_size_align(8, 0), Err(LayoutError));
    assert_eq!(Layout::from_size_align(8, 3), Err(LayoutError));
    assert_eq!(Layout::from_size_align(8, 24), Err(LayoutError));
    let largest = isize::MAX as usize;
    assert_eq!(Layout::from_size_align(largest + 1, 1), Err(LayoutError));
    assert_eq!(Layout::from_size_align(largest, 2), Err(LayoutError));
    assert_eq!(Layout::from_size_align(usize::MAX, 8), Err(LayoutError));
}

#[test]
fn layout_align_to_raises_the_alignment() {
    let l = layout(10, 4);
    assert_eq!(l.align_to(8).map(|l| (l.size(), l.align())), Ok((10, 8)));
    assert_eq!(l.align_to(2).map(|l| (l.size(), l.align())), Ok((10, 4)));
    assert_eq!(l.align_to(3), Err(LayoutError));
    let largest = layout(isize::MAX as usize, 1);
    assert_eq!(largest.align_to(8), Err(LayoutError));
}

#[test]
fn layout_pad_to_align_rounds_the_size() {
    let padded = layout(10, 4).pad_to_align();
    assert_eq!((padded.size(), padded.align()), (12, 4));
    let same = layout(16, 8).pad_to_align();
    assert_eq!((same.size(), same.align()), (16, 8));
    let empty = layout(0, 64).pad_to_align();
    assert_eq!((empty.size(), empty.align()), (0, 64));
}

#[test]
fn list_node_reports_its_bounds() {
    let node = ListNode::new(0x1000, 0x40);
    assert_eq!(node.start_addr(), 0x1000);
    assert_eq!(node.end_addr(), 0x1040);
    assert_eq!(node, ListNode { addr: 0x1000, size: 0x40 });
}

#[test]
fn size_align_adjusts_to_a_region_header() {
    assert_eq!(NODE_SIZE, 16);
    assert_eq!(NODE_ALIGN, 8);
    assert_eq!(LinkedListAllocator::size_align(layout(1, 1)), (16, 8));
    assert_eq!(LinkedListAllocator::size_align(layout(4, 4)), (16, 8));
    assert_eq!(LinkedListAllocator::size_align(layout(17, 1)), (24, 8));
    assert_eq!(LinkedListAllocator::size_align(layout(32, 32)), (32, 32));
    assert_eq!(LinkedListAllocator::size_align(layout(0, 64)), (16, 64));
    assert_eq!(LinkedListAllocator::size_align(layout(100, 16)), (112, 16));
}

#[test]
fn alloc_from_region_checks_fit_and_leftover() {
    let region = ListNode::new(0x1000, 64);
    assert_eq!(LinkedListAllocator::alloc_from_region(&region, 64, 8), Ok(0x1000));
    assert_eq!(LinkedListAllocator::alloc_from_region(&region, 48, 8), Ok(0x1000));
    // 8 bytes would be left: too few for a region header
    assert_eq!(LinkedListAllocator::alloc_from_region(&region, 56, 8), Err(()));
    assert_eq!(LinkedListAllocator::alloc_from_region(&region, 72, 8), Err(()));
    let odd = ListNode::new(0x1008, 64);
    assert_eq!(LinkedListAllocator::alloc_from_region(&odd, 32, 16), Ok(0x1010));
    assert_eq!(LinkedListAllocator::alloc_from_region(&odd, 56, 16), Ok(0x1010));
    assert_eq!(LinkedListAllocator::alloc_from_region(&odd, 64, 16), Err(()));
    assert_eq!(LinkedListAllocator::alloc_from_region(&odd, usize::MAX, 8), Err(()));
    let last = ListNode::new(usize::MAX - 31, 24);
    assert_eq!(LinkedListAllocator::alloc_from_region(&last, 16, 64), Err(()));
}

#[test]
fn linked_list_serves_requests_first_fit() {
    let mut heap = LinkedListAllocator::new();
    assert_eq!(heap.allocate(layout(16, 8)), None);
    heap.init(0x1000, 1024);
    assert_eq!(heap.allocate(layout(32, 8)), Some(0x1000));
    assert_eq!(heap.allocate(layout(1, 1)), Some(0x1020));
    assert_eq!(heap.allocate(layout(64, 64)), Some(0x1040));
    assert_eq!(heap.allocate(layout(2048, 8)), None);
}

#[test]
fn linked_list_find_regions_unlinks_the_first_fit() {
    let mut heap = LinkedListAllocator::new();
    heap.init(0x1000, 256);
    assert_eq!(heap.find_regions(512, 8), None);
    assert_eq!(heap.find_regions(64, 8), Some((ListNode { addr: 0x1000, size: 256 }, 0x1000)));
    // the only region has left the list
    assert_eq!(heap.find_regions(16, 8), None);
    heap.add_free_regions(0x1000, 64);
    heap.add_free_regions(0x2000, 128);
    assert_eq!(heap.find_regions(128, 8), Some((ListNode { addr: 0x2000, size: 128 }, 0x2000)));
    assert_eq!(heap.find_regions(16, 8), Some((ListNode { addr: 0x1000, size: 64 }, 0x1000)));
}

#[test]
fn linked_list_reuses_a_freed_block() {
    let mut heap = LinkedListAllocator::new();
    heap.init(0x1000, 1024);
    let first = heap.allocate(layout(100, 8)).unwrap();
    let second = heap.allocate(layout(100, 8)).unwrap();
    assert_eq!(first, 0x1000);
    assert_eq!(second, 0x1000 + 104);
    heap.deallocate(first, layout(100, 8));
    // the freed block is tried first and serves an equal request
    assert_eq!(heap.allocate(layout(100, 8)), Some(first));
    heap.deallocate(first, layout(100, 8));
    // and a smaller one that leaves room for a region header
    assert_eq!(heap.allocate(layout(80, 8)), Some(first));
    assert_eq!(heap.allocate(layout(24, 8)), Some(first + 80));
}

#[test]
fn linked_list_passes_over_a_region_with_a_small_leftover() {
    let mut heap = LinkedListAllocator::new();
    heap.init(0x1000, 1024);
    let first = heap.allocate(layout(32, 8)).unwrap();
    let _second = heap.allocate(layout(32, 8)).unwrap();
    heap.deallocate(first, layout(32, 8));
    // 24 of the 32 freed bytes would leave 8: the block comes from the rest
    assert_eq!(heap.allocate(layout(24, 8)), Some(0x1040));
    // what is left of the rest is tried first from now on
    assert_eq!(heap.allocate(layout(32, 8)), Some(0x1058));
    assert_eq!(heap.allocate(layout(1000, 8)), None);
    assert_eq!(heap.allocate(layout(900, 8)), Some(0x1078));
    // the freed block serves a request that leaves nothing of it
    assert_eq!(heap.allocate(layout(26, 2)), Some(first));
    assert_eq!(heap.allocate(layout(1, 1)), None);
}

#[test]
fn linked_list_does_not_merge_neighbours() {
    let mut heap = LinkedListAllocator::new();
    heap.init(0x1000, 64);
    let a = heap.allocate(layout(32, 8)).unwrap();
    let b = heap.allocate(layout(32, 8)).unwrap();
    assert_eq!((a, b), (0x1000, 0x1020));
    heap.deallocate(a, layout(32, 8));
    heap.deallocate(b, layout(32, 8));
    assert_eq!(heap.allocate(layout(64, 8)), None);
    // most recently freed first
    assert_eq!(heap.allocate(layout(32, 8)), Some(b));
    assert_eq!(heap.allocate(layout(32, 8)), Some(a));
}

#[test]
fn linked_list_puts_back_what_is_left_before_the_block() {
    let mut heap = LinkedListAllocator::new();
    heap.init(0x1008, 0x100);
    assert_eq!(heap.allocate(layout(32, 32)), Some(0x1020));
    // the 24 bytes before the block are the first free region now
    assert_eq!(heap.allocate(layout(24, 8)), Some(0x1008));
    assert_eq!(heap.allocate(layout(16, 8)), Some(0x1040));
}

#[test]
fn linked_list_refuses_a_request_that_cannot_be_adjusted() {
    let mut heap = LinkedListAllocator::new();
    heap.init(0x1000, 1024);
    assert_eq!(heap.allocate(layout(isize::MAX as usize, 1)), None);
    assert_eq!(heap.allocate(layout(16, 8)), Some(0x1000));
}

#[test]
fn list_index_picks_the_smallest_class_that_fits() {
    assert_eq!(BLOCK_SIZES, [8, 16, 32, 64, 128, 256, 512, 1024, 2048]);
    assert_eq!(list_index(&layout(0, 1)), Some(0));
    assert_eq!(list_index(&layout(4, 4)), Some(0));
    assert_eq!(list_index(&layout(8, 8)), Some(0));
    assert_eq!(list_index(&layout(9, 1)), Some(1));
    assert_eq!(list_index(&layout(1, 16)), Some(1));
    assert_eq!(list_index(&layout(100, 4)), Some(4));
    assert_eq!(list_index(&layout(2048, 1)), Some(8));
    assert_eq!(list_index(&layout(2049, 1)), None);
    assert_eq!(list_index(&layout(1, 4096)), None);
}

#[test]
fn fixed_size_blocks_are_cut_at_their_class_size() {
    let mut heap = FixedSizeBlockAllocator::new();
    assert_eq!(heap.allocate(layout(8, 8)), None);
    heap.init(0x10000, 0x4000);
    // a block of the smallest class takes the room of a region header
    assert_eq!(heap.allocate(layout(4, 4)), Some(0x10000));
    assert_eq!(heap.allocate(layout(4, 4)), Some(0x10010));
    // a block of 64 bytes starts at a multiple of 64
    assert_eq!(heap.allocate(layout(33, 1)), Some(0x10040));
    // a request without a class goes to the first-fit allocator as it is
    assert_eq!(heap.allocate(layout(3000, 8)), Some(0x10020 + 0x60));
}

#[test]
fn fixed_size_round_trip_reuses_the_block() {
    let mut heap = FixedSizeBlockAllocator::new();
    heap.init(0x10000, 0x4000);
    let first = heap.allocate(layout(20, 4)).unwrap();
    let second = heap.allocate(layout(20, 4)).unwrap();
    assert_ne!(first, second);
    heap.deallocate(first, layout(20, 4));
    // another layout of the same class gets the block that came back
    assert_eq!(heap.allocate(layout(32, 32)), Some(first));
    heap.deallocate(second, layout(20, 4));
    heap.deallocate(first, layout(32, 32));
    // last in, first out
    assert_eq!(heap.allocate(layout(17, 1)), Some(first));
    assert_eq!(heap.allocate(layout(17, 1)), Some(second));
}

#[test]
fn fixed_size_large_blocks_go_back_to_the_fallback() {
    let mut heap = FixedSizeBlockAllocator::new();
    heap.init(0x10000, 0x2000);
    let big = heap.allocate(layout(0x1800, 8)).unwrap();
    assert_eq!(big, 0x10000);
    assert_eq!(heap.allocate(layout(0x1800, 8)), None);
    heap.deallocate(big, layout(0x1800, 8));
    assert_eq!(heap.allocate(layout(0x1800, 8)), Some(big));
}

#[test]
fn fixed_size_live_blocks_never_overlap() {
    let mut heap = FixedSizeBlockAllocator::new();
    heap.init(0x10000, 0x8000);
    let requests = [
        layout(1, 1),
        layout(8, 8),
        layout(24, 8),
        layout(64, 64),
        layout(100, 4),
        layout(500, 2),
        layout(2048, 16),
        layout(3000, 8),
        layout(16, 16),
        layout(1000, 8),
    ];
    let mut live: Vec<(usize, Layout)> = Vec::new();
    for round in 0..40 {
        let l = requests[(round * 7) % requests.len()];
        if let Some(addr) = heap.allocate(l) {
            assert_eq!(addr % l.align(), 0);
            assert!(0x10000 <= addr && addr + l.size() <= 0x18000);
            for (other, other_layout) in live.iter() {
                let apart = addr + l.size() <= *other || *other + other_layout.size() <= addr;
                assert!(apart, "{:#x} overlaps {:#x}", addr, other);
            }
            live.push((addr, l));
        }
        if round % 3 == 2 {
            let (addr, l) = live.remove(round % live.len());
            heap.deallocate(addr, l);
        }
    }
    assert!(live.len() > 10);
}

#[test]
fn five_hundred_small_objects_fill_the_heap_in_order() {
    let mut heap = FixedSizeBlockAllocator::new();
    let start = 0x4444_0000usize;
    heap.init(start, HEAP_SIZE);
    let word = layout(4, 4);
    let mut last = None;
    for i in 0..500 {
        let addr = heap.allocate(word).expect("the heap has room for 500 words");
        assert_eq!(addr, start + 16 * i);
        assert!(last < Some(addr));
        last = Some(addr);
    }
    // no request fails before the heap is used up
    let mut served = 500;
    while heap.allocate(word).is_some() {
        served += 1;
    }
    assert_eq!(served, HEAP_SIZE / 16);
    assert_eq!(heap.allocate(layout(2048, 8)), None);
}

#[test]
fn bump_allocator_advances_and_resets() {
    let mut heap = BumpAllocator::new();
    assert_eq!(heap.allocate(layout(1, 1)), None);
    heap.init(0x1001, 0x100);
    assert_eq!(heap.allocate(layout(3, 1)), Some(0x1001));
    assert_eq!(heap.allocate(layout(8, 8)), Some(0x1008));
    assert_eq!(heap.allocate(layout(0x100, 1)), None);
    assert_eq!(heap.allocate(layout(0xf1, 1)), Some(0x1010));
    assert_eq!(heap.allocate(layout(1, 1)), None);
    heap.deallocate(0x1008, layout(8, 8));
    heap.deallocate(0x1010, layout(0xf1, 1));
    // one block is still out: nothing is reused
    assert_eq!(heap.allocate(layout(1, 1)), None);
    heap.deallocate(0x1001, layout(3, 1));
    assert_eq!(heap.allocate(layout(16, 16)), Some(0x1010));
}

#[test]
fn bump_allocator_refuses_what_runs_past_the_address_space() {
    let mut heap = BumpAllocator::new();
    heap.init(usize::MAX - 15, 15);
    assert_eq!(heap.allocate(layout(1, 64)), None);
    assert_eq!(heap.allocate(layout(16, 1)), None);
    assert_eq!(heap.allocate(layout(15, 1)), Some(usize::MAX - 15));
}

#[test]
fn dummy_allocator_serves_nothing() {
    assert_eq!(Dummy.allocate(layout(1, 1)), None);
    assert_eq!(Dummy.allocate(layout(4096, 4096)), None);
}

#[test]
fn heap_pages_cover_the_heap() {
    assert_eq!(HEAP_START, 0x4444_4444_0000);
    assert_eq!(HEAP_SIZE, 102400);
    assert_eq!(
        heap_pages(HEAP_START, HEAP_SIZE as u64),
        (0x4444_4444_0000, 0x4444_4444_0000 + 0x18000)
    );
    assert_eq!(heap_pages(0x1fff, 1), (0x1000, 0x1000));
    assert_eq!(heap_pages(0x1fff, 2), (0x1000, 0x2000));
    assert_eq!(heap_pages(0, 4096), (0, 0));
    assert_eq!(heap_pages(0, 4097), (0, 4096));
}
