use vstd::prelude::*;

use crate::crypto::{sha256, sha256_spec};
use crate::encoding::{hex_encode, hex_encode_spec, push_all};

verus! {

/// The hashing scheme of the block Merkle trees: a leaf is the 32-byte digest
/// itself, an interior node is SHA-256 of its two children concatenated. As a
/// stream hasher it keeps the bytes written so far.
pub struct Sha256Algorithm {
    written: Vec<u8>,
}

impl Sha256Algorithm {
    /// The bytes written since the last reset.
    pub closed spec fn written(&self) -> Seq<u8> {
        self.written@
    }
}

impl Default for Sha256Algorithm {
    fn default() -> (a: Self)
        ensures
            a.written() == Seq::<u8>::empty(),
    {
        Sha256Algorithm { written: Vec::new() }
    }
}

impl std::hash::Hasher for Sha256Algorithm {
    fn finish(&self) -> (r: u64)
        ensures
            r == 0,
    {
        0
    }

    fn write(&mut self, bytes: &[u8])
        ensures
            final(self).written() == old(self).written() + bytes@,
    {
        push_all(&mut self.written, bytes);
    }
}

impl merkle_light::hash::Algorithm<[u8; 32]> for Sha256Algorithm {
    fn hash(&mut self) -> (digest: [u8; 32])
        ensures
            digest@ == sha256_spec(old(self).written()),
            final(self).written() == old(self).written(),
    {
        sha256(self.written.as_slice())
    }

    fn reset(&mut self)
        ensures
            final(self).written() == Seq::<u8>::empty(),
    {
        self.written = Vec::new();
    }

    fn leaf(&mut self, data: [u8; 32]) -> (digest: [u8; 32])
        ensures
            digest == data,
            final(self).written() == old(self).written(),
    {
        data
    }

    fn node(&mut self, left: [u8; 32], right: [u8; 32]) -> (digest: [u8; 32])
        ensures
            digest@ == sha256_spec(left@ + right@),
            final(self).written() == old(self).written(),
    {
        let mut pair: Vec<u8> = Vec::new();
        push_all(&mut pair, left.as_slice());
        push_all(&mut pair, right.as_slice());
        sha256(pair.as_slice())
    }
}

/// What `merkle_light` gives as the root of the tree built over `leaves` with
/// `Sha256Algorithm`.
pub uninterp spec fn merkle_tree_root(leaves: Seq<Seq<u8>>) -> Seq<u8>;

/// The digests of a list of 32-byte arrays.
pub open spec fn digests_view(hashes: Seq<[u8; 32]>) -> Seq<Seq<u8>> {
    hashes.map_values(|h: [u8; 32]| h@)
}

/// `merkle_light::merkle::MerkleTree::<[u8; 32], Sha256Algorithm>::from_iter`, then
/// `root`: the root of the tree over `hashes`. The crate asserts that a tree has more
/// than one leaf, so fewer are not admitted.
#[verifier::external_body]
fn merkle_light_root(hashes: Vec<[u8; 32]>) -> (root: [u8; 32])
    requires
        hashes@.len() > 1,
    ensures
        root@ == merkle_tree_root(digests_view(hashes@)),
{
    merkle_light::merkle::MerkleTree::<[u8; 32], Sha256Algorithm>::from_iter(hashes).root()
}

/// Thirty-two zero bytes.
pub open spec fn zero_digest() -> Seq<u8> {
    Seq::new(32, |i: int| 0u8)
}

/// The hex text of the Merkle root of `leaves`; for no leaves, the hex text of
/// thirty-two zero bytes.
pub open spec fn merkle_root_text(leaves: Seq<Seq<u8>>) -> Seq<char> {
    if leaves.len() == 0 {
        hex_encode_spec(zero_digest())
    } else {
        hex_encode_spec(merkle_tree_root(leaves))
    }
}

/// The text under which a Merkle root is recorded in a block: its lowercase hex.
pub fn merkle_root_hex(root: &[u8; 32]) -> (text: String)
    ensures
        text@ == hex_encode_spec(root@),
{
    hex_encode(root.as_slice())
}

/// The hex text of the Merkle root of `hashes`, built by `merkle_light` with
/// `Sha256Algorithm`; the hex text of thirty-two zero bytes when there are no hashes.
/// A single hash is not accepted: the tree needs at least two leaves.
pub fn calculate_merkle_root(hashes: Vec<[u8; 32]>) -> (root: String)
    requires
        hashes@.len() != 1,
    ensures
        root@ == merkle_root_text(digests_view(hashes@)),
{
    if hashes.len() == 0 {
        let zeros = [0u8; 32];
        proof {
            assert(zeros@ =~= zero_digest());
        }
        return merkle_root_hex(&zeros);
    }
    let tree_root = merkle_light_root(hashes);
    merkle_root_hex(&tree_root)
}

} // verus!
