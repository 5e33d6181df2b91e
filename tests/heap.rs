use runix::address::VirtualAddress;
use runix::block::{get_block_size_index, BlockAllocator};
use runix::linked_list::{size_align, LinkedListAllocator, ListNode};

const HEAP: u64 = 0x4444_0000_0000;

fn heap_start() -> VirtualAddress {
    VirtualAddress::new(HEAP).unwrap()
}

#[test]
fn requests_are_normalized_to_a_record() {
    assert_eq!(size_align(1, 1), (16, 8));
    assert_eq!(size_align(17, 8), (24, 8));
    assert_eq!(size_align(17, 32), (32, 32));
    assert_eq!(size_align(0, 64), (16, 64));
    assert_eq!(size_align(100, 4), (104, 8));
}

#[test]
fn first_fit_carves_from_the_front() {
    let mut heap = LinkedListAllocator::new();
    heap.init(heap_start(), 0x1000);
    let a = heap.alloc_first_fit(64, 8).unwrap();
    assert_eq!(a.raw(), HEAP);
    assert_eq!(heap.free_regions(), vec![ListNode { start: HEAP + 64, size: 0x1000 - 64 }]);
    let b = heap.alloc_first_fit(10, 16).unwrap();
    assert_eq!(b.raw(), HEAP + 64);
}

#[test]
fn alignment_padding_is_skipped() {
    let mut heap = LinkedListAllocator::new();
    heap.init(VirtualAddress::new(HEAP + 8).unwrap(), 0x100);
    let a = heap.alloc_first_fit(32, 64).unwrap();
    assert_eq!(a.raw(), HEAP + 64);
    assert_eq!(heap.free_regions(), vec![ListNode { start: HEAP + 128, size: 0x108 - 128 }]);
}

#[test]
fn sliver_smaller_than_a_record_rejects_the_region() {
    let mut heap = LinkedListAllocator::new();
    heap.init(heap_start(), 100);
    // 88 bytes would leave 12, too few for a record.
    assert!(heap.alloc_first_fit(84, 8).is_none());
    assert!(heap.alloc_first_fit(101, 8).is_none());
    assert_eq!(heap.free_regions(), vec![ListNode { start: HEAP, size: 100 }]);
    // 80 bytes leave 20.
    assert_eq!(heap.alloc_first_fit(80, 8).unwrap().raw(), HEAP);
    assert_eq!(heap.free_regions(), vec![ListNode { start: HEAP + 80, size: 20 }]);
}

#[test]
fn exact_fit_leaves_nothing_behind() {
    let mut heap = LinkedListAllocator::new();
    heap.init(heap_start(), 96);
    assert_eq!(heap.alloc_first_fit(96, 8).unwrap().raw(), HEAP);
    assert!(heap.free_regions().is_empty());
    assert!(heap.alloc_first_fit(1, 1).is_none());
}

#[test]
fn freed_block_goes_to_the_head_and_is_reused() {
    let mut heap = LinkedListAllocator::new();
    heap.init(heap_start(), 0x1000);
    let a = heap.alloc_first_fit(64, 8).unwrap();
    heap.free(a, 64, 8);
    assert_eq!(
        heap.free_regions(),
        vec![ListNode { start: HEAP, size: 64 }, ListNode { start: HEAP + 64, size: 0x1000 - 64 }]
    );
    let again = heap.alloc_first_fit(64, 8).unwrap();
    assert_eq!(again, a);
    assert_eq!(heap.free_regions(), vec![ListNode { start: HEAP + 64, size: 0x1000 - 64 }]);
}

#[test]
fn whole_heap_cycle_restores_the_heap() {
    let mut heap = LinkedListAllocator::new();
    heap.init(heap_start(), 0x1000);
    let a = heap.alloc_first_fit(0x1000, 8).unwrap();
    heap.free(a, 0x1000, 8);
    assert_eq!(heap.alloc_first_fit(0x1000, 8).unwrap().raw(), HEAP);
}

#[test]
fn no_coalescing_after_a_partial_cycle() {
    let mut heap = LinkedListAllocator::new();
    heap.init(heap_start(), 0x1000);
    let a = heap.alloc_first_fit(64, 8).unwrap();
    heap.free(a, 64, 8);
    assert!(heap.alloc_first_fit(0x1000, 8).is_none());
}

#[test]
fn list_node_bounds() {
    let node = ListNode::new(heap_start(), 0x40);
    assert_eq!(node.start_addr().raw(), HEAP);
    assert_eq!(node.end_addr(), HEAP + 0x40);
    assert_eq!(ListNode::empty(), ListNode { start: 0, size: 0 });
}

#[test]
fn size_classes_take_the_larger_of_size_and_align() {
    assert_eq!(get_block_size_index(1, 1), Some(0));
    assert_eq!(get_block_size_index(8, 8), Some(0));
    assert_eq!(get_block_size_index(9, 1), Some(1));
    assert_eq!(get_block_size_index(100, 8), Some(4));
    assert_eq!(get_block_size_index(8, 256), Some(5));
    assert_eq!(get_block_size_index(4096, 8), Some(9));
    assert_eq!(get_block_size_index(4097, 8), None);
    assert_eq!(get_block_size_index(8, 8192), None);
}

#[test]
fn block_request_is_served_with_its_class_size() {
    let mut heap = BlockAllocator::new();
    heap.init(heap_start(), 0x10_0000);
    let a = heap.allocate(100, 8).unwrap();
    assert_eq!(a.raw() % 128, 0);
    assert_eq!(heap.fallback_regions(), vec![ListNode { start: HEAP + 128, size: 0x10_0000 - 128 }]);
    let b = heap.allocate(100, 8).unwrap();
    assert_eq!(b.raw(), HEAP + 128);
}

#[test]
fn freed_blocks_are_reused_without_new_fallback_requests() {
    let mut heap = BlockAllocator::new();
    heap.init(heap_start(), 0x10_0000);
    let mut blocks = Vec::new();
    for _ in 0..10 {
        blocks.push(heap.allocate(64, 8).unwrap());
    }
    let drawn = heap.fallback_regions();
    for b in blocks.drain(0..5) {
        heap.deallocate(b, 64, 8);
    }
    for _ in 0..5 {
        blocks.push(heap.allocate(64, 8).unwrap());
    }
    assert_eq!(heap.fallback_regions(), drawn);
    let mut starts: Vec<u64> = blocks.iter().map(|b| b.raw()).collect();
    starts.sort();
    starts.dedup();
    assert_eq!(starts.len(), 10);
}

#[test]
fn oversize_requests_go_to_the_fallback() {
    let mut heap = BlockAllocator::new();
    heap.init(heap_start(), 0x10_0000);
    let big = heap.allocate(0x2000, 8).unwrap();
    assert_eq!(big.raw(), HEAP);
    heap.deallocate(big, 0x2000, 8);
    assert_eq!(heap.fallback_regions()[0], ListNode { start: HEAP, size: 0x2000 });
    let small = heap.allocate(8, 8).unwrap();
    heap.deallocate(small, 8, 8);
    assert_eq!(heap.allocate(8, 8).unwrap(), small);
}

#[test]
fn exhausted_heap_reports_no_memory() {
    let mut heap = BlockAllocator::new();
    heap.init(heap_start(), 0x100);
    assert!(heap.allocate(0x200, 8).is_none());
    assert!(heap.allocate(4096, 8).is_none());
    assert!(heap.allocate(64, 8).is_some());
}
