//! Building the tree and reading it.

use crate::digest::{hash_leaf, hash_pair, lemma_digest_deep_view};
use crate::levels::{
    leaf_level, lemma_levels_shape, lemma_root_level_is_single, level_count, levels_above,
    parent_level, tree_levels, tree_root,
};
use crate::text::{render_tree, tree_text};
use vstd::prelude::*;

verus! {

/// Hashes every leaf, keeping the order of the leaves.
pub fn hash_leaves(leaves: &Vec<String>) -> (level: Vec<[u8; 32]>)
    ensures
        level.deep_view() == leaf_level(leaves.deep_view()),
{
    let mut level: Vec<[u8; 32]> = Vec::new();
    let mut i: usize = 0;
    while i < leaves.len()
        invariant
            i <= leaves.len(),
            level.len() == i,
            forall|k: int|
                0 <= k < i ==> level[k].deep_view() == leaf_level(leaves.deep_view())[k],
        decreases leaves.len() - i,
    {
        let hash = hash_leaf(leaves[i].as_str());
        proof {
            lemma_digest_deep_view(hash);
        }
        level.push(hash);
        i += 1;
    }
    assert(level.deep_view() =~= leaf_level(leaves.deep_view()));
    level
}

/// Computes the level above `level`: one parent for each pair of neighbours,
/// taken left to right, and one more for a last digest without a neighbour,
/// which is hashed together with itself.
pub fn reduce_level(level: &Vec<[u8; 32]>) -> (parents: Vec<[u8; 32]>)
    ensures
        parents.deep_view() == parent_level(level.deep_view()),
{
    let n: usize = level.len();
    let ghost above = parent_level(level.deep_view());
    let mut parents: Vec<[u8; 32]> = Vec::new();
    let mut i: usize = 0;
    while n - i >= 2
        invariant
            n == level.len(),
            i <= n,
            i == 2 * parents.len(),
            above == parent_level(level.deep_view()),
            forall|k: int| 0 <= k < parents.len() ==> parents[k].deep_view() == above[k],
        decreases n - i,
    {
        let parent = hash_pair(&level[i], &level[i + 1]);
        proof {
            lemma_digest_deep_view(parent);
            lemma_digest_deep_view(level[i as int]);
            lemma_digest_deep_view(level[i + 1]);
        }
        parents.push(parent);
        i += 2;
    }
    if i < n {
        let parent = hash_pair(&level[i], &level[i]);
        proof {
            lemma_digest_deep_view(parent);
            lemma_digest_deep_view(level[i as int]);
        }
        parents.push(parent);
    }
    assert(parents.deep_view() =~= above);
    parents
}

/// Turns a list of levels around: the last becomes the first.
pub fn reverse_levels(levels: Vec<Vec<[u8; 32]>>) -> (reversed: Vec<Vec<[u8; 32]>>)
    ensures
        reversed@ == levels@.reverse(),
{
    let mut rest = levels;
    let mut reversed: Vec<Vec<[u8; 32]>> = Vec::new();
    while rest.len() > 0
        invariant
            rest.len() + reversed.len() == levels.len(),
            forall|k: int| 0 <= k < rest.len() ==> rest[k] == levels[k],
            forall|k: int| 0 <= k < reversed.len() ==> reversed[k] == levels[levels.len() - 1 - k],
        decreases rest.len(),
    {
        let level = rest.pop();
        match level {
            Some(level) => reversed.push(level),
            None => {},
        }
    }
    assert(reversed@ =~= levels@.reverse());
    reversed
}

/// Builds every level of the tree that stands on the given leaf level and
/// returns them root level first, the given level last.
///
/// Levels are derived upwards until one has at most one digest. An empty
/// leaf level therefore gives a single empty level.
pub fn build_levels(leaf_hashes: Vec<[u8; 32]>) -> (levels: Vec<Vec<[u8; 32]>>)
    ensures
        levels.deep_view() == levels_above(leaf_hashes.deep_view()),
{
    let ghost bottom = leaf_hashes.deep_view();
    let mut hashes: Vec<Vec<[u8; 32]>> = Vec::new();
    hashes.push(leaf_hashes);
    assert(hashes.deep_view() =~= seq![bottom]);
    assert(hashes.deep_view().drop_last().reverse() =~= Seq::empty());
    assert(levels_above(bottom) + Seq::empty() =~= levels_above(bottom));
    while hashes[hashes.len() - 1].len() > 1
        invariant
            hashes.len() >= 1,
            levels_above(bottom) == levels_above(hashes.deep_view().last())
                + hashes.deep_view().drop_last().reverse(),
        decreases hashes.deep_view().last().len(),
    {
        let ghost before = hashes.deep_view();
        let parents = reduce_level(&hashes[hashes.len() - 1]);
        let ghost above = parents.deep_view();
        hashes.push(parents);
        proof {
            let after = hashes.deep_view();
            assert(after =~= before.push(above));
            assert(after.drop_last() =~= before);
            assert(before.reverse() =~= seq![before.last()] + before.drop_last().reverse());
            assert(levels_above(above).push(before.last()) + before.drop_last().reverse()
                =~= levels_above(above) + before.reverse());
        }
    }
    let ghost stored = hashes.deep_view();
    let levels = reverse_levels(hashes);
    proof {
        assert(levels.deep_view() =~= stored.reverse());
        assert(stored.reverse() =~= seq![stored.last()] + stored.drop_last().reverse());
    }
    levels
}

/// Builds the tree over `leaves` and returns its levels, root level first.
///
/// Each leaf is hashed, then the levels above are derived pair by pair until a
/// single digest, the root, is left. For no leaves at all the result is one
/// empty level.
pub fn build(leaves: Vec<String>) -> (levels: Vec<Vec<[u8; 32]>>)
    ensures
        levels.deep_view() == tree_levels(leaves.deep_view()),
        levels.len() == level_count(leaves.len() as nat),
        levels[levels.len() - 1].len() == leaves.len(),
        leaves.len() >= 1 ==> levels[0].len() == 1,
{
    let leaf_hashes = hash_leaves(&leaves);
    let levels = build_levels(leaf_hashes);
    proof {
        let bottom = leaf_level(leaves.deep_view());
        lemma_levels_shape(bottom);
        if leaves.len() >= 1 {
            lemma_root_level_is_single(bottom);
        }
    }
    levels
}

/// A Merkle tree: the leaves it was built from and every level of digests,
/// root level first. It is built once and only read afterwards.
///
/// Its view is the sequence of its leaves; the levels it stores are always
/// `tree_levels` of that sequence.
#[derive(Debug)]
pub struct MerkleTree {
    leaves: Vec<String>,
    hashes: Vec<Vec<[u8; 32]>>,
}

impl View for MerkleTree {
    type V = Seq<Seq<char>>;

    closed spec fn view(&self) -> Seq<Seq<char>> {
        self.leaves.deep_view()
    }
}

impl MerkleTree {
    /// The stored levels, root level first.
    pub closed spec fn levels(&self) -> Seq<Seq<Seq<u8>>> {
        self.hashes.deep_view()
    }

    /// The stored levels are the levels of the tree over the stored leaves.
    #[verifier::type_invariant]
    pub closed spec fn wf(&self) -> bool {
        self.hashes.deep_view() == tree_levels(self.leaves.deep_view())
    }

    /// Builds the tree over `leaves`. Any list is accepted: it may be empty
    /// and may hold the same string more than once.
    pub fn new(leaves: Vec<String>) -> (tree: Self)
        ensures
            tree@ == leaves.deep_view(),
            tree.levels() == tree_levels(leaves.deep_view()),
            tree.wf(),
    {
        let hashes = build(leaves.clone());
        MerkleTree { leaves, hashes }
    }

    /// The root digest: the only digest of the first level.
    ///
    /// A tree without leaves has no root, so at least one leaf is required.
    pub fn root_hash(&self) -> (root: [u8; 32])
        requires
            self@.len() > 0,
        ensures
            root@ == tree_root(self@),
            root@ == self.levels()[0][0],
    {
        proof {
            use_type_invariant(self);
            lemma_levels_shape(leaf_level(self@));
            lemma_root_level_is_single(leaf_level(self@));
            lemma_digest_deep_view(self.hashes[0][0]);
        }
        self.hashes[0][0]
    }

    /// The root digest, or `None` for a tree without leaves, which has no
    /// root.
    pub fn root(&self) -> (root: Option<[u8; 32]>)
        ensures
            self@.len() == 0 <==> root is None,
            root matches Some(hash) ==> hash@ == tree_root(self@),
    {
        proof {
            use_type_invariant(self);
            lemma_levels_shape(leaf_level(self@));
        }
        if self.leaves.len() == 0 {
            None
        } else {
            Some(self.root_hash())
        }
    }

    /// The tree as text, for people to read: the leaves with their positions,
    /// then every level from the root down, each digest as 64 lowercase
    /// hexadecimal digits. The root level is headed `Root Hash:`, every other
    /// level `Level` and its position.
    pub fn render(&self) -> (text: String)
        ensures
            text@ == tree_text(self@, tree_levels(self@)),
    {
        proof {
            use_type_invariant(self);
        }
        render_tree(&self.leaves, &self.hashes)
    }

    /// The leaves the tree was built from, in their order.
    pub fn leaves(&self) -> (leaves: &Vec<String>)
        ensures
            leaves.deep_view() == self@,
    {
        &self.leaves
    }

    /// Every level of the tree, root level first and leaf level last.
    pub fn hashes(&self) -> (levels: &Vec<Vec<[u8; 32]>>)
        ensures
            levels.deep_view() == tree_levels(self@),
            levels.deep_view() == self.levels(),
            levels.len() == level_count(self@.len()),
            levels[levels.len() - 1].len() == self@.len(),
            self@.len() >= 1 ==> levels[0].len() == 1,
    {
        proof {
            use_type_invariant(self);
            lemma_levels_shape(leaf_level(self@));
            if self@.len() >= 1 {
                lemma_root_level_is_single(leaf_level(self@));
            }
        }
        &self.hashes
    }
}

/// A well-formed tree stores the levels of the tree over its leaves, so its
/// first digest is the root of those leaves.
pub proof fn lemma_stored_levels(tree: MerkleTree)
    requires
        tree.wf(),
    ensures
        tree.levels() == tree_levels(tree@),
        tree.levels()[0][0] == tree_root(tree@),
{
}

/// Building is deterministic: trees over the same leaves store the same
/// levels and so have the same root digest.
pub proof fn lemma_same_leaves_same_tree(first: MerkleTree, second: MerkleTree)
    requires
        first.wf(),
        second.wf(),
        first@ == second@,
    ensures
        first.levels() == second.levels(),
        first.levels()[0][0] == second.levels()[0][0],
{
    lemma_stored_levels(first);
    lemma_stored_levels(second);
}

/// Reading the root twice gives the same 32 bytes: any two digests that
/// `root_hash` may return for one tree are equal.
pub proof fn lemma_root_hash_is_stable(tree: MerkleTree, first: [u8; 32], second: [u8; 32])
    requires
        first@ == tree_root(tree@),
        second@ == tree_root(tree@),
    ensures
        first == second,
{
    assert(first =~= second);
}

} // verus!
