//! A binary Merkle hash tree over an ordered list of string leaves.
//!
//! Every leaf is hashed with Keccak-256, adjacent digests are hashed pairwise
//! into parents until a single root digest remains, and all levels are kept,
//! root first. A trailing digest without a neighbour is paired with itself.
//!
//! The tree of an empty leaf list is one empty level; it has no root.

pub mod binding;
pub mod digest;
pub mod levels;
pub mod text;
pub mod tree;

pub use tree::{build, MerkleTree};
