//! Keccak-256 digests and the two ways the tree uses them: hashing a leaf and
//! hashing two sibling digests into their parent.

use tiny_keccak::Hasher;
use vstd::prelude::*;
use vstd::utf8::encode_utf8;

verus! {

/// The Keccak-256 digest of a byte sequence: Keccak with 256 bits of output
/// and the padding of the Keccak submission, as Ethereum uses it, which is
/// not that of SHA3-256. The digest depends on the bytes alone.
pub uninterp spec fn keccak256(data: Seq<u8>) -> [u8; 32];

/// The digest stored for a leaf: the hash of the leaf's UTF-8 encoding.
pub open spec fn leaf_digest(leaf: Seq<char>) -> Seq<u8> {
    keccak256(encode_utf8(leaf))@
}

/// The digest of a parent node: the hash of the left child's 32 bytes followed
/// by the right child's 32 bytes, with nothing added before or between them.
pub open spec fn parent_digest(left: Seq<u8>, right: Seq<u8>) -> Seq<u8> {
    keccak256(left + right)@
}

/// The deep view of a digest is its view: the 32 bytes themselves.
pub proof fn lemma_digest_deep_view(digest: [u8; 32])
    ensures
        digest.deep_view() == digest@,
{
    assert(digest.deep_view() =~= digest@);
}

/// Hashes `data` with a fresh `tiny_keccak::Keccak::v256()` hasher: one
/// `Hasher::update` with the whole input, then `Hasher::finalize` into a
/// 32-byte buffer. Trusted: the returned bytes are `keccak256` of the input.
/// The hasher accepts input of any length and never fails.
#[verifier::external_body]
pub(crate) fn keccak(data: &[u8]) -> (hash: [u8; 32])
    ensures
        hash == keccak256(data@),
{
    let mut keccak = tiny_keccak::Keccak::v256();
    let mut hash = [0u8; 32];
    keccak.update(data);
    keccak.finalize(&mut hash);
    hash
}

/// Hashes one leaf.
pub fn hash_leaf(leaf: &str) -> (hash: [u8; 32])
    ensures
        hash@ == leaf_digest(leaf@),
{
    keccak(leaf.as_bytes())
}

/// Hashes two sibling digests into their parent. For a digest without a right
/// neighbour the caller passes it twice.
pub fn hash_pair(left: &[u8; 32], right: &[u8; 32]) -> (parent: [u8; 32])
    ensures
        parent@ == parent_digest(left@, right@),
{
    let mut combined: Vec<u8> = Vec::with_capacity(64);
    combined.extend_from_slice(left.as_slice());
    combined.extend_from_slice(right.as_slice());
    assert(combined@ =~= left@ + right@);
    keccak(combined.as_slice())
}

} // verus!
