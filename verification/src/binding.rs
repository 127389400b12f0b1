//! The root commits to the leaves: two different leaf lists of the same
//! length can share a root only if the hash function has a collision.
//!
//! The length matters. A trailing digest without a neighbour is paired with
//! itself, so a list of odd length and the same list with its last leaf
//! repeated have the same root, without any collision.

use crate::digest::keccak256;
use crate::levels::{leaf_level, lemma_levels_shape, levels_above, parent_level, tree_root};
use vstd::prelude::*;
use vstd::utf8::{encode_utf8, encode_utf8_decode_utf8};

verus! {

/// Two different byte sequences with the same digest.
pub open spec fn is_collision(x: Seq<u8>, y: Seq<u8>) -> bool {
    x != y && keccak256(x) == keccak256(y)
}

/// Some two different byte sequences have the same digest.
pub open spec fn collision_exists() -> bool {
    exists|x: Seq<u8>, y: Seq<u8>| is_collision(x, y)
}

/// Every entry of the level has the length of a digest, 32 bytes.
pub open spec fn is_digest_level(level: Seq<Seq<u8>>) -> bool {
    forall|i: int| 0 <= i < level.len() ==> (#[trigger] level[i]).len() == 32
}

/// Leaf levels and parent levels hold digests of 32 bytes.
pub proof fn lemma_levels_hold_digests(leaves: Seq<Seq<char>>, level: Seq<Seq<u8>>)
    ensures
        is_digest_level(leaf_level(leaves)),
        is_digest_level(parent_level(level)),
{
}

/// Two sequences that differ, of the same length, differ at some position.
proof fn lemma_differing_position<A>(a: Seq<A>, b: Seq<A>) -> (i: int)
    requires
        a.len() == b.len(),
        a != b,
    ensures
        0 <= i < a.len(),
        a[i] != b[i],
{
    if forall|k: int| 0 <= k < a.len() ==> a[k] == b[k] {
        assert(a =~= b);
    }
    choose|k: int| 0 <= k < a.len() && a[k] != b[k]
}

/// Equal digests of different inputs are a collision.
proof fn lemma_equal_digests(x: Seq<u8>, y: Seq<u8>)
    requires
        x != y,
        keccak256(x)@ == keccak256(y)@,
    ensures
        collision_exists(),
{
    assert(keccak256(x) =~= keccak256(y));
    assert(is_collision(x, y));
}

/// Two pairs of digests that differ in either half differ when joined.
proof fn lemma_joined_pairs_differ(
    left: Seq<u8>,
    right: Seq<u8>,
    other_left: Seq<u8>,
    other_right: Seq<u8>,
)
    requires
        left.len() == other_left.len(),
        left != other_left || right != other_right,
    ensures
        left + right != other_left + other_right,
{
    let joined = left + right;
    let other = other_left + other_right;
    if joined == other {
        assert(left =~= joined.subrange(0, left.len() as int));
        assert(other_left =~= other.subrange(0, left.len() as int));
        assert(right =~= joined.subrange(left.len() as int, joined.len() as int));
        assert(other_right =~= other.subrange(left.len() as int, other.len() as int));
    }
}

/// Two different levels of the same length under the same root digest give
/// a collision.
pub proof fn lemma_root_binds_level(level: Seq<Seq<u8>>, other: Seq<Seq<u8>>)
    requires
        level.len() == other.len(),
        level.len() >= 1,
        is_digest_level(level),
        is_digest_level(other),
        level != other,
        levels_above(level)[0][0] == levels_above(other)[0][0],
    ensures
        collision_exists(),
    decreases level.len(),
{
    if level.len() == 1 {
        assert(level =~= other);
    } else {
        let above = parent_level(level);
        let other_above = parent_level(other);
        lemma_levels_shape(above);
        lemma_levels_shape(other_above);
        if above == other_above {
            let i: int = lemma_differing_position(level, other);
            let k: int = i / 2;
            assert(above[k] == other_above[k]);
            if 2 * k + 1 < level.len() {
                lemma_joined_pairs_differ(
                    level[2 * k],
                    level[2 * k + 1],
                    other[2 * k],
                    other[2 * k + 1],
                );
                lemma_equal_digests(
                    level[2 * k] + level[2 * k + 1],
                    other[2 * k] + other[2 * k + 1],
                );
            } else {
                lemma_joined_pairs_differ(level[2 * k], level[2 * k], other[2 * k], other[2 * k]);
                lemma_equal_digests(level[2 * k] + level[2 * k], other[2 * k] + other[2 * k]);
            }
        } else {
            lemma_levels_hold_digests(Seq::empty(), level);
            lemma_levels_hold_digests(Seq::empty(), other);
            lemma_root_binds_level(above, other_above);
        }
    }
}

/// The root commits to the values and the order of the leaves: two different
/// leaf lists of the same length with the same root digest give a collision.
pub proof fn lemma_root_binds_leaves(leaves: Seq<Seq<char>>, other: Seq<Seq<char>>)
    requires
        leaves.len() == other.len(),
        leaves != other,
        tree_root(leaves) == tree_root(other),
    ensures
        collision_exists(),
{
    let i: int = lemma_differing_position(leaves, other);
    let level = leaf_level(leaves);
    let other_level = leaf_level(other);
    if level == other_level {
        assert(level[i] == other_level[i]);
        encode_utf8_decode_utf8(leaves[i]);
        encode_utf8_decode_utf8(other[i]);
        lemma_equal_digests(encode_utf8(leaves[i]), encode_utf8(other[i]));
    } else {
        lemma_levels_hold_digests(leaves, Seq::empty());
        lemma_levels_hold_digests(other, Seq::empty());
        lemma_root_binds_level(level, other_level);
    }
}

/// Value sensitivity: replacing one leaf by a different string changes the
/// root, unless the hash function has a collision.
pub proof fn lemma_changed_leaf_changes_root(leaves: Seq<Seq<char>>, i: int, leaf: Seq<char>)
    requires
        0 <= i < leaves.len(),
        leaf != leaves[i],
        tree_root(leaves.update(i, leaf)) == tree_root(leaves),
    ensures
        collision_exists(),
{
    assert(leaves.update(i, leaf)[i] != leaves[i]);
    lemma_root_binds_leaves(leaves.update(i, leaf), leaves);
}

/// Order sensitivity: exchanging two leaves that differ changes the root,
/// unless the hash function has a collision.
pub proof fn lemma_swapped_leaves_change_root(leaves: Seq<Seq<char>>, i: int, j: int)
    requires
        0 <= i < leaves.len(),
        0 <= j < leaves.len(),
        leaves[i] != leaves[j],
        tree_root(leaves.update(i, leaves[j]).update(j, leaves[i])) == tree_root(leaves),
    ensures
        collision_exists(),
{
    let swapped = leaves.update(i, leaves[j]).update(j, leaves[i]);
    assert(swapped[j] != leaves[j]);
    lemma_root_binds_leaves(swapped, leaves);
}

} // verus!
