//! The hash tree of a package: how many pages it has, and where the entry of a block stands.
//!
//! A page of the tree has room for 170 entries. The pages of the top level come first and those
//! of the lowest level, whose entries belong to the blocks of the package, come last.

use vstd::prelude::*;

verus! {

/// `a` divided by `b`, rounded up.
pub open spec fn ceil_div(a: int, b: int) -> int {
    (a + b - 1) / b
}

/// 170 to the power `n`.
pub open spec fn pow170(n: int) -> int
    decreases n,
{
    if n <= 0 {
        1
    } else {
        170 * pow170(n - 1)
    }
}

/// The powers that matter.
pub proof fn lemma_pow170()
    ensures
        pow170(0) == 1,
        pow170(1) == 170,
        pow170(2) == 28900,
        pow170(3) == 4913000,
        pow170(4) == 835210000,
{
    reveal_with_fuel(pow170, 5);
}

/// How many pages the level `level` of the tree over `count` blocks has.
pub open spec fn level_pages(count: int, level: int) -> int {
    ceil_div(count, pow170(level + 1))
}

/// How many levels the tree over `count` blocks has; there are never more than three.
pub open spec fn tree_levels(count: int) -> int {
    if level_pages(count, 0) <= 1 {
        1
    } else if level_pages(count, 1) <= 1 {
        2
    } else {
        3
    }
}

/// How many pages the levels from `level` up to the top have together, there being `levels`.
pub open spec fn pages_from(count: int, level: int, levels: int) -> int
    decreases levels - level,
{
    if level >= levels {
        0
    } else {
        level_pages(count, level) + pages_from(count, level + 1, levels)
    }
}

/// How many pages the whole tree over `count` blocks has.
pub open spec fn tree_pages(count: int) -> int {
    pages_from(count, 0, tree_levels(count))
}

/// The number of pages and of levels of the hash tree over `count` blocks; a resilient package
/// has every page twice.
pub fn calculate_number_hash_pages(count: u64, resilient: bool) -> (r: (u64, u64))
    requires
        count + 4913000 <= u64::MAX,
    ensures
        r.0 == (if resilient {
            2 * tree_pages(count as int)
        } else {
            tree_pages(count as int)
        }),
        r.1 == tree_levels(count as int),
{
    proof {
        lemma_pow170();
        reveal_with_fuel(pages_from, 4);
    }
    let mut pages: u64 = (count + 169) / 170;
    let mut levels: u64 = 1;
    if pages > 1 {
        let second: u64 = (count + 28900 - 1) / 28900;
        levels = levels + 1;
        pages = pages + second;
        if second > 1 {
            let third: u64 = (count + 4913000 - 1) / 4913000;
            levels = levels + 1;
            pages = pages + third;
        }
    }
    if resilient {
        pages = pages * 2;
    }
    (pages, levels)
}

/// How the hash tree of a package is laid out.
#[derive(Debug, Clone, Copy, PartialEq, Eq)]
pub struct HashTreeParams {
    pub kind: u32,
    pub levels: u64,
    pub total_hashed_pages: u64,
    pub resiliency: bool,
    pub tree_offset: u64,
    pub is_encrypted: bool,
    pub data_integrity: bool,
}

/// How many levels above `level` are counted when a page of that level is looked up in a tree
/// of `depth` levels; nothing above the fourth is.
pub open spec fn levels_above(depth: int, level: int) -> int {
    if depth - (level + 1) <= 3 - level {
        depth - (level + 1)
    } else {
        3 - level
    }
}

/// Whether looking up a page of the level `level` stays within 64 bits: the tree is as deep as
/// the level needs, and the number of blocks can be rounded up for each level above.
pub open spec fn lookup_fits(depth: int, total: int, level: int) -> bool {
    &&& depth >= level + 1
    &&& levels_above(depth, level) > 0 ==> total + pow170(level + 1 + levels_above(depth, level))
        <= u64::MAX
}

/// The page and the entry, on the level `level`, that belong to the block `idx`, in a tree of
/// `depth` levels over `total` blocks.
pub open spec fn hash_place(
    image_type: u32,
    depth: int,
    total: int,
    idx: int,
    level: int,
    resilient: bool,
) -> (int, int) {
    if image_type > 1 || level > 3 {
        (0xFFFF, 0)
    } else if level == 3 {
        (0, (idx / pow170(3)) % 170)
    } else {
        let page = idx / pow170(level + 1) + pages_from(
            total,
            level + 1,
            level + 1 + levels_above(depth, level),
        );
        (
            if resilient {
                2 * page
            } else {
                page
            },
            (idx / pow170(level)) % 170,
        )
    }
}

fn mult(l: u32) -> (r: u64)
    requires
        l <= 4,
    ensures
        r == pow170(l as int),
{
    proof {
        lemma_pow170();
    }
    match l {
        0 => 1,
        1 => 170,
        2 => 28900,
        3 => 4913000,
        _ => 835210000,
    }
}

/// Questions about the hash tree.
pub struct Extensions;

impl Extensions {
    /// The page of the hash tree and the entry in it that belong to the block `idx` on the
    /// level `level`.
    pub fn compute_hash_block_index(
        image_type: u32,
        depth: u64,
        total: u64,
        idx: u64,
        level: u32,
        resilient: bool,
    ) -> (r: (u64, u64))
        requires
            image_type <= 1 && level < 3 ==> lookup_fits(depth as int, total as int, level as int),
        ensures
            (r.0 as int, r.1 as int) == hash_place(
                image_type,
                depth as int,
                total as int,
                idx as int,
                level as int,
                resilient,
            ),
    {
        if image_type > 1 || level > 3 {
            return (0xFFFF, 0);
        }
        proof {
            lemma_pow170();
            reveal_with_fuel(pages_from, 4);
        }
        let entry_idx: u64 = if level == 0 {
            idx % 170
        } else {
            (idx / mult(level)) % 170
        };
        if level == 3 {
            return (0, entry_idx);
        }
        let mut block_idx: u64 = idx / mult(level + 1);
        let mut depth: u64 = depth - (level + 1) as u64;
        if level == 0 && depth > 0 {
            block_idx = block_idx + (total + mult(2) - 1) / mult(2);
            depth = depth - 1;
        }
        if level <= 1 && depth > 0 {
            block_idx = block_idx + (total + mult(3) - 1) / mult(3);
            depth = depth - 1;
        }
        if depth > 0 {
            block_idx = block_idx + (total + mult(4) - 1) / mult(4);
        }
        if resilient {
            block_idx = block_idx * 2;
        }
        (block_idx, entry_idx)
    }
}

/// Whether looking up a page of the level `level` stays within 64 bits.
pub fn lookup_stays_within_bits(depth: u64, total: u64, level: u32) -> (r: bool)
    requires
        level < 3,
    ensures
        r == lookup_fits(depth as int, total as int, level as int),
{
    if depth <= level as u64 {
        return false;
    }
    let below: u64 = depth - (level as u64 + 1);
    let above: u64 = if below <= 3 - level as u64 {
        below
    } else {
        3 - level as u64
    };
    proof {
        lemma_pow170();
    }
    above == 0 || total <= u64::MAX - mult(level + 1 + above as u32)
}

/// In the tree over `total` blocks, the page of a block on a level stands among the pages of
/// that level: behind those of all levels above, and no further.
pub proof fn hash_page_stands_on_its_level(total: int, idx: int, level: int)
    requires
        0 <= idx < total,
        0 <= level < tree_levels(total),
    ensures
        ({
            let levels = tree_levels(total);
            let page = hash_place(0, levels, total, idx, level, false).0;
            pages_from(total, level + 1, levels) <= page < pages_from(total, level, levels)
        }),
{
    lemma_pow170();
    reveal_with_fuel(pages_from, 4);
    if level == 0 {
        assert(idx / 170 < level_pages(total, 0));
    } else if level == 1 {
        assert(idx / 28900 < level_pages(total, 1));
    } else {
        assert(level == 2);
        assert(idx / 4913000 < level_pages(total, 2));
    }
}

/// In the tree over `total` blocks, the page of every block on every level is one of the pages
/// that the tree has, in a resilient package too.
pub proof fn hash_page_is_in_the_tree(total: int, idx: int, level: int, resilient: bool)
    requires
        0 <= idx < total,
        0 <= level < tree_levels(total),
    ensures
        ({
            let page = hash_place(0, tree_levels(total), total, idx, level, resilient).0;
            let pages = if resilient {
                2 * tree_pages(total)
            } else {
                tree_pages(total)
            };
            0 <= page < pages
        }),
{
    let levels = tree_levels(total);
    hash_page_stands_on_its_level(total, idx, level);
    lemma_pow170();
    assert(level_pages(total, 0) >= 0 && level_pages(total, 1) >= 0);
    assert(0 <= pages_from(total, level + 1, levels)) by {
        reveal_with_fuel(pages_from, 4);
    }
    assert(pages_from(total, level, levels) <= tree_pages(total)) by {
        reveal_with_fuel(pages_from, 4);
    }
}

/// The pages of the hash tree are counted from zero.
pub proof fn hash_place_is_not_negative(
    image_type: u32,
    depth: int,
    total: int,
    idx: int,
    resilient: bool,
)
    requires
        0 <= total,
        0 <= idx,
    ensures
        0 <= hash_place(image_type, depth, total, idx, 0, resilient).0,
{
    lemma_pow170();
    reveal_with_fuel(pages_from, 4);
    assert(level_pages(total, 1) >= 0 && level_pages(total, 2) >= 0 && level_pages(total, 3) >= 0);
}

/// No two blocks share an entry of the lowest level.
pub proof fn hash_entries_are_not_shared(
    image_type: u32,
    depth: int,
    total: int,
    a: int,
    b: int,
    resilient: bool,
)
    requires
        image_type <= 1,
        0 <= a,
        0 <= b,
        hash_place(image_type, depth, total, a, 0, resilient) == hash_place(
            image_type,
            depth,
            total,
            b,
            0,
            resilient,
        ),
    ensures
        a == b,
{
    lemma_pow170();
}

/// Every entry, with its 24 bytes and the 4 bytes read behind them, lies within a page of 4096
/// bytes.
pub proof fn hash_entries_lie_within_a_page(
    image_type: u32,
    depth: int,
    total: int,
    idx: int,
    level: int,
    resilient: bool,
)
    requires
        0 <= idx,
        0 <= level,
    ensures
        ({
            let entry = hash_place(image_type, depth, total, idx, level, resilient).1;
            0 <= entry < 170 && 24 * entry + 28 <= 4096
        }),
{
}

} // verus!
