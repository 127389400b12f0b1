//! The mathematical model of the tree: what the levels of a leaf sequence
//! are, how many there are, and how each is derived from the one below it.
//!
//! A digest is a `Seq<u8>`, a level a `Seq<Seq<u8>>`, and a tree the sequence
//! of its levels with the root level first and the leaf level last.

use crate::digest::{leaf_digest, parent_digest};
use vstd::arithmetic::power2::{lemma_pow2_unfold, pow2};
use vstd::prelude::*;

verus! {

/// The leaf level: the digest of every leaf, in the order of the leaves.
pub open spec fn leaf_level(leaves: Seq<Seq<char>>) -> Seq<Seq<u8>> {
    Seq::new(leaves.len(), |i: int| leaf_digest(leaves[i]))
}

/// The number of parents above a level of `n` digests: half of `n`, rounded up.
pub open spec fn parent_count(n: nat) -> nat {
    (n + 1) / 2
}

/// The level above `level`. Digests are paired left to right; parent `i` is
/// the hash of digests `2i` and `2i + 1`. When the level has odd length, its
/// last digest has no neighbour and is paired with itself.
pub open spec fn parent_level(level: Seq<Seq<u8>>) -> Seq<Seq<u8>> {
    Seq::new(
        parent_count(level.len()),
        |i: int|
            if 2 * i + 1 < level.len() {
                parent_digest(level[2 * i], level[2 * i + 1])
            } else {
                parent_digest(level[2 * i], level[2 * i])
            },
    )
}

/// All levels from the root down to `level`, root level first. A level of at
/// most one digest is its own top; an empty level stands alone, with no root.
pub open spec fn levels_above(level: Seq<Seq<u8>>) -> Seq<Seq<Seq<u8>>>
    decreases level.len(),
{
    if level.len() <= 1 {
        seq![level]
    } else {
        levels_above(parent_level(level)).push(level)
    }
}

/// The levels of the tree over `leaves`, root level first, leaf level last.
pub open spec fn tree_levels(leaves: Seq<Seq<char>>) -> Seq<Seq<Seq<u8>>> {
    levels_above(leaf_level(leaves))
}

/// The root digest of the tree over `leaves`. Meaningful for at least one leaf.
pub open spec fn tree_root(leaves: Seq<Seq<char>>) -> Seq<u8>
    recommends
        leaves.len() > 0,
{
    tree_levels(leaves)[0][0]
}

/// The number of levels of a tree with `n` leaves.
pub open spec fn level_count(n: nat) -> nat
    decreases n,
{
    if n <= 1 {
        1
    } else {
        1 + level_count(parent_count(n))
    }
}

/// A tree has `level_count(n)` levels, where `n` is the length of its lowest
/// level, and that lowest level is stored last, unchanged.
pub proof fn lemma_levels_shape(level: Seq<Seq<u8>>)
    ensures
        levels_above(level).len() == level_count(level.len()),
        levels_above(level).len() >= 1,
        levels_above(level).last() == level,
    decreases level.len(),
{
    if level.len() > 1 {
        lemma_levels_shape(parent_level(level));
    }
}

/// The top level of a tree over a non-empty level holds exactly one digest.
pub proof fn lemma_root_level_is_single(level: Seq<Seq<u8>>)
    requires
        level.len() >= 1,
    ensures
        levels_above(level)[0].len() == 1,
    decreases level.len(),
{
    if level.len() > 1 {
        lemma_root_level_is_single(parent_level(level));
        lemma_levels_shape(parent_level(level));
    }
}

/// Every stored level but the last is the parent level of the one stored
/// after it, so its length is half of that one's, rounded up.
pub proof fn lemma_adjacent_levels(level: Seq<Seq<u8>>, i: int)
    requires
        0 <= i < levels_above(level).len() - 1,
    ensures
        levels_above(level)[i] == parent_level(levels_above(level)[i + 1]),
        levels_above(level)[i].len() == parent_count(levels_above(level)[i + 1].len()),
    decreases level.len(),
{
    if level.len() > 1 {
        let upper = levels_above(parent_level(level));
        lemma_levels_shape(parent_level(level));
        if i < upper.len() - 1 {
            lemma_adjacent_levels(parent_level(level), i);
        }
    }
}

/// Every full pair is combined once, left digest first.
pub proof fn lemma_full_pair(level: Seq<Seq<u8>>, i: int)
    requires
        0 <= i,
        2 * i + 1 < level.len(),
    ensures
        parent_level(level)[i] == parent_digest(level[2 * i], level[2 * i + 1]),
{
}

/// The last digest of a level of odd length is combined with itself: its
/// parent is the hash of the digest followed by the same digest again.
pub proof fn lemma_odd_level_duplicates_last(level: Seq<Seq<u8>>)
    requires
        level.len() % 2 == 1,
    ensures
        parent_level(level).len() == (level.len() + 1) / 2,
        parent_level(level).last() == parent_digest(level.last(), level.last()),
{
}

/// In a tree of three leaves the second digest of the middle level is the
/// hash of the third leaf's digest followed by itself, the first is the hash
/// of the first two leaf digests, and the root is the hash of those two.
pub proof fn lemma_three_leaves(leaves: Seq<Seq<char>>)
    requires
        leaves.len() == 3,
    ensures
        tree_levels(leaves).len() == 3,
        tree_levels(leaves)[2] == leaf_level(leaves),
        tree_levels(leaves)[1].len() == 2,
        tree_levels(leaves)[1][0] == parent_digest(
            leaf_digest(leaves[0]),
            leaf_digest(leaves[1]),
        ),
        tree_levels(leaves)[1][1] == parent_digest(
            leaf_digest(leaves[2]),
            leaf_digest(leaves[2]),
        ),
        tree_root(leaves) == parent_digest(tree_levels(leaves)[1][0], tree_levels(leaves)[1][1]),
{
    let bottom = leaf_level(leaves);
    let middle = parent_level(bottom);
    let top = parent_level(middle);
    assert(levels_above(top) == seq![top]);
    assert(levels_above(middle) == seq![top].push(middle));
    assert(levels_above(bottom) == seq![top].push(middle).push(bottom));
}

/// The number of levels is one more than the base-two logarithm of the
/// number of leaves, rounded up: with `count` levels over `n >= 1` leaves,
/// `n` is at most `2^(count - 1)` and, above one leaf, more than
/// `2^(count - 2)`.
pub proof fn lemma_level_count_is_log2(n: nat)
    requires
        n >= 1,
    ensures
        level_count(n) >= 1,
        n <= pow2((level_count(n) - 1) as nat),
        n >= 2 ==> level_count(n) >= 2 && pow2((level_count(n) - 2) as nat) < n,
    decreases n,
{
    if n == 1 {
        assert(pow2(0) == 1) by {
            vstd::arithmetic::power2::lemma2_to64();
        }
    } else {
        let m: nat = parent_count(n);
        let upper: nat = level_count(m);
        lemma_level_count_is_log2(m);
        lemma_pow2_unfold(upper);
        if upper >= 2 {
            assert(m >= 2);
            lemma_pow2_unfold((upper - 1) as nat);
        } else {
            assert(m == 1);
            assert(pow2(0) == 1) by {
                vstd::arithmetic::power2::lemma2_to64();
            }
        }
    }
}

/// A tree over `2^k` leaves has exactly `k + 1` levels.
pub proof fn lemma_level_count_of_power_of_two(k: nat)
    ensures
        level_count(pow2(k)) == k + 1,
    decreases k,
{
    if k == 0 {
        assert(pow2(0) == 1) by {
            vstd::arithmetic::power2::lemma2_to64();
        }
    } else {
        lemma_pow2_unfold(k);
        vstd::arithmetic::power2::lemma_pow2_pos((k - 1) as nat);
        lemma_level_count_of_power_of_two((k - 1) as nat);
        assert(parent_count(pow2(k)) == pow2((k - 1) as nat));
    }
}

/// The shape of a tree over at least one leaf: the root level holds one
/// digest, the leaf level one digest for each leaf, and the number of levels
/// is one more than the base-two logarithm of the number of leaves, rounded up.
pub proof fn lemma_tree_shape(leaves: Seq<Seq<char>>)
    requires
        leaves.len() >= 1,
    ensures
        tree_levels(leaves)[0].len() == 1,
        tree_levels(leaves).last().len() == leaves.len(),
        tree_levels(leaves).len() == level_count(leaves.len()),
        tree_levels(leaves).len() >= 1,
        leaves.len() <= pow2((tree_levels(leaves).len() - 1) as nat),
        leaves.len() >= 2 ==> tree_levels(leaves).len() >= 2 && pow2(
            (tree_levels(leaves).len() - 2) as nat,
        ) < leaves.len(),
{
    lemma_levels_shape(leaf_level(leaves));
    lemma_root_level_is_single(leaf_level(leaves));
    lemma_level_count_is_log2(leaves.len());
}

/// A tree over `2^k` leaves has `k + 1` levels, and the level `j` steps above
/// the leaves holds `2^(k - j)` digests.
pub proof fn lemma_power_of_two_leaves(leaves: Seq<Seq<char>>, k: nat)
    requires
        leaves.len() == pow2(k),
    ensures
        tree_levels(leaves).len() == k + 1,
        forall|j: nat| j <= k ==> (#[trigger] tree_levels(leaves)[k - j]).len() == pow2((k - j) as nat),
{
    lemma_levels_of_power_of_two(leaf_level(leaves), k);
}

/// The levels above a level of `2^k` digests: `k + 1` of them, the one at
/// position `i` holding `2^i` digests.
pub proof fn lemma_levels_of_power_of_two(level: Seq<Seq<u8>>, k: nat)
    requires
        level.len() == pow2(k),
    ensures
        levels_above(level).len() == k + 1,
        forall|i: int| 0 <= i <= k ==> (#[trigger] levels_above(level)[i]).len() == pow2(i as nat),
    decreases k,
{
    if k == 0 {
        assert(pow2(0) == 1) by {
            vstd::arithmetic::power2::lemma2_to64();
        }
    } else {
        lemma_pow2_unfold(k);
        vstd::arithmetic::power2::lemma_pow2_pos((k - 1) as nat);
        assert(parent_level(level).len() == pow2((k - 1) as nat));
        lemma_levels_of_power_of_two(parent_level(level), (k - 1) as nat);
    }
}

} // verus!
