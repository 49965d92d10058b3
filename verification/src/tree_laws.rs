//! What the hash tree looks like, in plain numbers: a page has 170 entries, so a page of the
//! four levels covers 170, 28900, 4913000 and 835210000 blocks.

use vstd::prelude::*;
use crate::hash_tree;
use crate::hash_tree::{calculate_number_hash_pages, lookup_stays_within_bits, Extensions};

verus! {

/// The tree over `count` blocks has one level for up to 170 blocks, two for up to 28900 and
/// otherwise three, and on each of them as many pages as it takes to have an entry for everything
/// below; a resilient package has twice as many.
pub proof fn tree_is_as_large_as_its_blocks_ask_for(count: u64, resilient: bool, r: (u64, u64))
    requires
        count + 4913000 <= u64::MAX,
        call_ensures(calculate_number_hash_pages, (count, resilient), r),
    ensures
        count <= 170 ==> r.1 == 1,
        170 < count <= 28900 ==> r.1 == 2,
        28900 < count ==> r.1 == 3,
        ({
            let lowest = (count + 169) / 170;
            let second = if count > 170 {
                (count + 28899) / 28900
            } else {
                0
            };
            let third = if count > 28900 {
                (count + 4912999) / 4913000
            } else {
                0
            };
            r.0 == (if resilient {
                2int
            } else {
                1int
            }) * (lowest + second + third)
        }),
{
    hash_tree::lemma_pow170();
    reveal_with_fuel(hash_tree::pages_from, 4);
}

/// Where the entry of a block stands: on the lowest level behind all pages of the higher ones,
/// on the second behind those of the third and fourth, on the third behind those of the fourth.
/// Only levels that the tree has count, and a resilient package has every page twice.
pub proof fn entry_of_a_block_stands_behind_the_higher_levels(
    kind: u32,
    depth: u64,
    total: u64,
    block: u64,
    level: u32,
    resilient: bool,
    r: (u64, u64),
)
    requires
        kind <= 1,
        level < depth,
        call_ensures(
            Extensions::compute_hash_block_index,
            (kind, depth, total, block, level, resilient),
            r,
        ),
    ensures
        ({
            let second = if depth >= 2 {
                (total + 28899) / 28900
            } else {
                0
            };
            let third = if depth >= 3 {
                (total + 4912999) / 4913000
            } else {
                0
            };
            let fourth = if depth >= 4 {
                (total + 835209999) / 835210000
            } else {
                0
            };
            let copies = if resilient {
                2int
            } else {
                1int
            };
            &&& level == 0 ==> r.0 == copies * (block / 170 + second + third + fourth) && r.1
                == block % 170
            &&& level == 1 ==> r.0 == copies * (block / 28900 + third + fourth) && r.1 == block
                / 170 % 170
            &&& level == 2 ==> r.0 == copies * (block / 4913000 + fourth) && r.1 == block / 28900
                % 170
            &&& level == 3 ==> r.0 == 0 && r.1 == block / 4913000 % 170
        }),
{
    hash_tree::lemma_pow170();
    reveal_with_fuel(hash_tree::pages_from, 5);
}

/// There is no entry for images of another kind, nor above the fourth level.
pub proof fn other_images_have_no_entries(
    kind: u32,
    depth: u64,
    total: u64,
    block: u64,
    level: u32,
    resilient: bool,
    r: (u64, u64),
)
    requires
        kind > 1 || level > 3,
        call_ensures(
            Extensions::compute_hash_block_index,
            (kind, depth, total, block, level, resilient),
            r,
        ),
    ensures
        r == (0xFFFFu64, 0u64),
{
}

/// Resilience doubles the page of every entry and nothing else.
pub proof fn resilience_doubles_the_page(
    kind: u32,
    depth: u64,
    total: u64,
    block: u64,
    level: u32,
    once: (u64, u64),
    twice: (u64, u64),
)
    requires
        kind <= 1,
        level < 3,
        call_ensures(
            Extensions::compute_hash_block_index,
            (kind, depth, total, block, level, false),
            once,
        ),
        call_ensures(
            Extensions::compute_hash_block_index,
            (kind, depth, total, block, level, true),
            twice,
        ),
    ensures
        twice.0 == 2 * once.0,
        twice.1 == once.1,
{
}

/// A level is looked up without leaving 64 bits wherever the tree has it and the number of
/// blocks leaves room to round it up; it cannot be where the tree does not have it.
pub proof fn lookups_stay_within_bits(depth: u64, total: u64, level: u32, r: bool)
    requires
        level < 3,
        call_ensures(lookup_stays_within_bits, (depth, total, level), r),
    ensures
        level < depth && total + 835210000 <= u64::MAX ==> r,
        level < depth <= 3 && total + 4913000 <= u64::MAX ==> r,
        depth == level + 1 ==> r,
        depth <= level ==> !r,
{
    hash_tree::lemma_pow170();
}

} // verus!
