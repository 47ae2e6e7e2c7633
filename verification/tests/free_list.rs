use stupid_allocator::block::Block;
use stupid_allocator::free_list::{is_consistent, FreeList};
use stupid_allocator::heap_break::{decode, increment, BreakError, HeapBreak, BREAK_FAILED};

fn block(addr: usize, size: usize, free: bool) -> Block {
    Block { addr, data: addr + 32, size, free }
}

fn three() -> FreeList {
    let mut list = FreeList::new();
    assert!(list.insert(block(4096, 16, true)));
    assert!(list.insert(block(4144, 64, false)));
    assert!(list.insert(block(4240, 64, true)));
    list
}

#[test]
fn an_empty_list_never_fits() {
    let list = FreeList::new();
    assert_eq!(list.len(), 0);
    assert_eq!(list.find_first_fit(1, 1), None);
    assert_eq!(list.find_by_ptr(4128), None);
    assert_eq!(list.get(0), None);
}

#[test]
fn the_first_fit_wins_over_a_better_one() {
    let mut list = FreeList::new();
    assert!(list.insert(block(4096, 100, true)));
    assert!(list.insert(block(4232, 10, true)));
    // the second block is the tighter fit, the first one is first
    assert_eq!(list.find_first_fit(10, 8), Some(0));
    assert_eq!(list.find_first_fit(100, 8), Some(0));
    assert_eq!(list.find_first_fit(101, 8), None);
}

#[test]
fn the_search_skips_allocated_small_and_misaligned_blocks() {
    let list = three();
    assert_eq!(list.find_first_fit(16, 8), Some(0));
    assert_eq!(list.find_first_fit(17, 8), Some(2));
    assert_eq!(list.find_first_fit(65, 8), None);
    // the payloads lie at 4128, 4176 and 4272: multiples of 16, none of 64
    assert_eq!(list.find_first_fit(16, 16), Some(0));
    assert_eq!(list.find_first_fit(17, 16), Some(2));
    assert_eq!(list.find_first_fit(16, 64), None);
}

#[test]
fn blocks_are_found_by_their_payload_address() {
    let list = three();
    assert_eq!(list.find_by_ptr(4128), Some(0));
    assert_eq!(list.find_by_ptr(4176), Some(1));
    assert_eq!(list.find_by_ptr(4272), Some(2));
    assert_eq!(list.find_by_ptr(4096), None);
    assert_eq!(list.find_by_ptr(4129), None);
    assert_eq!(list.find_by_ptr(0), None);
}

#[test]
fn insert_keeps_the_address_order() {
    let mut list = three();
    // overlaps the tail, which ends at 4336
    assert!(!list.insert(block(4328, 8, false)));
    // below the tail
    assert!(!list.insert(block(1024, 8, false)));
    // header off its boundary
    assert!(!list.insert(block(4337, 8, false)));
    // header reaching into the payload
    assert!(!list.insert(Block { addr: 4336, data: 4360, size: 8, free: false }));
    // no payload
    assert!(!list.insert(block(4336, 0, false)));
    // payload beyond the address space
    assert!(!list.insert(Block { addr: 4336, data: 4368, size: usize::MAX - 4000, free: false }));
    assert_eq!(list.len(), 3);
    assert!(list.insert(block(4336, 8, false)));
    assert_eq!(list.get(3), Some(block(4336, 8, false)));
    assert!(is_consistent(&list.blocks()));
}

#[test]
fn take_and_release_change_the_state_only() {
    let mut list = three();
    assert_eq!(list.take(0), 4128);
    assert_eq!(list.get(0), Some(block(4096, 16, false)));
    list.release(1);
    assert_eq!(list.get(1), Some(block(4144, 64, true)));
    assert_eq!(list.get(2), Some(block(4240, 64, true)));
    assert_eq!(list.len(), 3);
}

#[test]
fn coalescing_merges_forward_only() {
    let mut list = three();
    list.release(1);
    // from the middle: takes the tail in, leaves the head alone
    list.coalesce_from(1);
    assert_eq!(
        list.blocks(),
        vec![block(4096, 16, true), Block { addr: 4144, data: 4176, size: 160, free: true }]
    );
    list.coalesce_from(0);
    assert_eq!(list.blocks(), vec![Block { addr: 4096, data: 4128, size: 208, free: true }]);
    list.coalesce_from(0);
    assert_eq!(list.len(), 1);
}

#[test]
fn coalescing_leaves_allocated_blocks_and_bad_indices_alone() {
    let mut list = three();
    let before = list.blocks();
    // block 1 is allocated
    list.coalesce_from(1);
    assert_eq!(list.blocks(), before);
    list.coalesce_from(3);
    assert_eq!(list.blocks(), before);
    // block 0 is free but its successor is allocated
    list.coalesce_from(0);
    assert_eq!(list.blocks(), before);
}

#[test]
fn the_walk_finds_disorder() {
    assert!(is_consistent(&vec![]));
    assert!(is_consistent(&vec![block(4096, 16, true), block(4144, 16, false)]));
    assert!(!is_consistent(&vec![block(4144, 16, true), block(4096, 16, false)]));
    assert!(!is_consistent(&vec![block(4096, 16, true), block(4136, 16, false)]));
    assert!(!is_consistent(&vec![block(4096, 0, true)]));
    assert!(!is_consistent(&vec![block(4097, 8, true)]));
    assert!(!is_consistent(&vec![Block { addr: 4096, data: 4100, size: 8, free: true }]));
    assert!(!is_consistent(&vec![Block { addr: 0, data: 0, size: 0, free: false }]));
}

#[test]
fn raw_answers_are_decoded() {
    assert_eq!(decode(0), None);
    assert_eq!(decode(BREAK_FAILED), None);
    assert_eq!(decode(usize::MAX), None);
    assert_eq!(decode(1), Some(1));
    assert_eq!(decode(0x7fff_0000), Some(0x7fff_0000));
}

#[test]
fn byte_counts_become_increments() {
    assert_eq!(increment(0), Err(BreakError::InvalidAmount));
    assert_eq!(increment(1), Ok(1));
    assert_eq!(increment(isize::MAX as usize), Ok(isize::MAX));
    assert_eq!(increment(isize::MAX as usize + 1), Err(BreakError::OutOfMemory));
    assert_eq!(increment(usize::MAX), Err(BreakError::OutOfMemory));
}

#[test]
fn the_manager_hands_the_primitive_what_it_is_asked() {
    let heap = HeapBreak::new(|n: isize| 1000 + n as usize);
    assert_eq!(heap.current(), Some(1000));
    assert_eq!(heap.extend(24), Ok(1024));
    assert_eq!(heap.extend(0), Err(BreakError::InvalidAmount));
    assert_eq!(heap.extend(usize::MAX), Err(BreakError::OutOfMemory));
    let failing = HeapBreak::new(|_n: isize| usize::MAX);
    assert_eq!(failing.current(), None);
    assert_eq!(failing.extend(8), Err(BreakError::OutOfMemory));
}
