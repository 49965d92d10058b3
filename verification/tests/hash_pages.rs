use bedrock_repacker::hash_tree::{calculate_number_hash_pages, lookup_stays_within_bits, Extensions};

#[test]
fn pages_and_levels_of_small_trees() {
    assert_eq!(calculate_number_hash_pages(0, false), (0, 1));
    assert_eq!(calculate_number_hash_pages(1, false), (1, 1));
    assert_eq!(calculate_number_hash_pages(170, false), (1, 1));
    assert_eq!(calculate_number_hash_pages(170, true), (2, 1));
}

#[test]
fn pages_and_levels_of_larger_trees() {
    assert_eq!(calculate_number_hash_pages(171, false), (3, 2));
    assert_eq!(calculate_number_hash_pages(171, true), (6, 2));
    assert_eq!(calculate_number_hash_pages(28900, false), (171, 2));
    assert_eq!(calculate_number_hash_pages(28901, false), (174, 3));
    assert_eq!(calculate_number_hash_pages(4913000, false), (28900 + 170 + 1, 3));
    assert_eq!(calculate_number_hash_pages(4913001, false), (28901 + 171 + 2, 3));
}

#[test]
fn entry_of_a_block_on_the_lowest_level() {
    assert_eq!(Extensions::compute_hash_block_index(0, 1, 100, 99, 0, false), (0, 99));
    assert_eq!(Extensions::compute_hash_block_index(0, 2, 400, 171, 0, false), (2, 1));
    assert_eq!(Extensions::compute_hash_block_index(1, 2, 400, 171, 0, true), (4, 1));
    assert_eq!(Extensions::compute_hash_block_index(0, 3, 28901, 28900, 0, false), (173, 0));
}

#[test]
fn entry_of_a_block_on_higher_levels() {
    assert_eq!(Extensions::compute_hash_block_index(0, 3, 28901, 28900, 1, false), (2, 0));
    assert_eq!(Extensions::compute_hash_block_index(0, 3, 28901, 28900, 2, false), (0, 1));
    assert_eq!(Extensions::compute_hash_block_index(0, 3, 28901, 9826000, 3, false), (0, 2));
    assert_eq!(Extensions::compute_hash_block_index(0, 4, 5000000, 0, 0, false), (174 + 2 + 1, 0));
}

#[test]
fn other_images_and_levels_have_no_entry() {
    assert_eq!(Extensions::compute_hash_block_index(2, 1, 100, 99, 0, false), (0xFFFF, 0));
    assert_eq!(Extensions::compute_hash_block_index(0, 1, 100, 99, 4, false), (0xFFFF, 0));
}

#[test]
fn pages_of_all_blocks_are_in_the_tree_and_no_entry_is_shared() {
    let total = 30000u64;
    for resilient in [false, true] {
        let (pages, levels) = calculate_number_hash_pages(total, resilient);
        let mut before = None;
        for block in 0..total {
            let place = Extensions::compute_hash_block_index(0, levels, total, block, 0, resilient);
            assert!(place.0 < pages && place.1 < 170);
            assert!(before < Some(place));
            before = Some(place);
        }
    }
}

#[test]
fn lookups_that_leave_the_bits_are_told() {
    assert!(lookup_stays_within_bits(3, 1000, 0));
    assert!(!lookup_stays_within_bits(0, 1000, 0));
    assert!(!lookup_stays_within_bits(2, 1000, 2));
    assert!(lookup_stays_within_bits(1, u64::MAX, 0));
    assert!(!lookup_stays_within_bits(2, u64::MAX, 0));
    assert!(lookup_stays_within_bits(2, u64::MAX - 28900, 0));
    assert!(!lookup_stays_within_bits(3, u64::MAX - 28900, 0));
}
