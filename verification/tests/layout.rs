use stupid_allocator::block::Block;
use stupid_allocator::layout::{
    align_up, allocation_size, checked_align_up, is_power_of_two, word_align, HEADER_ALIGN,
    HEADER_SIZE, WORD,
};

#[test]
fn align_up_rounds_to_the_next_boundary() {
    assert_eq!(align_up(0, 8), 0);
    assert_eq!(align_up(1, 8), 8);
    assert_eq!(align_up(8, 8), 8);
    assert_eq!(align_up(9, 8), 16);
    assert_eq!(align_up(4097, 4096), 8192);
    assert_eq!(align_up(17, 1), 17);
}

#[test]
fn powers_of_two_are_told_apart() {
    assert!(is_power_of_two(1));
    assert!(is_power_of_two(2));
    assert!(is_power_of_two(4096));
    assert!(is_power_of_two(1 << 31));
    assert!(!is_power_of_two(0));
    assert!(!is_power_of_two(3));
    assert!(!is_power_of_two(24));
    assert!(!is_power_of_two(usize::MAX));
}

#[test]
fn sizes_round_to_whole_words() {
    assert_eq!(word_align(0), 0);
    assert_eq!(word_align(1), 8);
    assert_eq!(word_align(8), 8);
    assert_eq!(word_align(13), 16);
}

#[test]
fn allocation_size_adds_the_header() {
    assert_eq!(allocation_size(0), 32);
    assert_eq!(allocation_size(1), 40);
    assert_eq!(allocation_size(8), 40);
    assert_eq!(allocation_size(100), 136);
}

#[test]
fn rounding_beyond_the_address_space_is_reported() {
    assert_eq!(checked_align_up(0, 4096), Some(0));
    assert_eq!(checked_align_up(4097, 4096), Some(8192));
    assert_eq!(checked_align_up(usize::MAX, 1), Some(usize::MAX));
    assert_eq!(checked_align_up(usize::MAX, 2), None);
    assert_eq!(checked_align_up(usize::MAX - 7, 8), Some(usize::MAX - 7));
    assert_eq!(checked_align_up(usize::MAX - 6, 8), None);
}

#[test]
fn the_header_is_a_whole_number_of_words() {
    assert_eq!(WORD, 8);
    assert_eq!(HEADER_ALIGN, 8);
    assert_eq!(HEADER_SIZE, 32);
    assert_eq!(word_align(HEADER_SIZE), HEADER_SIZE);
}

#[test]
fn a_block_is_laid_out_behind_its_header() {
    assert_eq!(
        Block::place(4096, 16, 8),
        Some(Block { addr: 4096, data: 4128, size: 16, free: false })
    );
    // the header moves up to its boundary, the payload to its own
    assert_eq!(
        Block::place(4097, 5, 64),
        Some(Block { addr: 4104, data: 4160, size: 5, free: false })
    );
    assert_eq!(
        Block::place(4099, 1, 1),
        Some(Block { addr: 4104, data: 4136, size: 1, free: false })
    );
    assert_eq!(Block::place(usize::MAX - 16, 1, 1), None);
    assert_eq!(Block::place(usize::MAX - 100, 60, 8), Some(Block {
        addr: usize::MAX - 95,
        data: usize::MAX - 63,
        size: 60,
        free: false,
    }));
    assert_eq!(Block::place(usize::MAX - 100, 64, 8), None);
}

#[test]
fn well_formed_blocks_are_told_apart() {
    assert!(Block { addr: 4096, data: 4128, size: 1, free: true }.is_well_formed());
    assert!(Block { addr: 4096, data: 5000, size: 1, free: false }.is_well_formed());
    assert!(!Block { addr: 4096, data: 4127, size: 1, free: true }.is_well_formed());
    assert!(!Block { addr: 4100, data: 4132, size: 1, free: true }.is_well_formed());
    assert!(!Block { addr: 4096, data: 4128, size: 0, free: true }.is_well_formed());
    assert!(!Block { addr: 4096, data: 4128, size: usize::MAX, free: true }.is_well_formed());
    assert!(!Block { addr: 0, data: 0, size: 0, free: false }.is_well_formed());
}
