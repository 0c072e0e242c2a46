//! Hash tree roots of what is signed, and the roots that signatures are made
//! over.
//!
//! The root of a record is the Merkle root over the roots of its fields, each
//! one chunk: an integer with its lowest byte first and filled up with zeros,
//! a hash as it is, a record by its own root. What is signed is the root of
//! the pair of such a root and the domain of the signature.

use vstd::prelude::*;
use vstd::bytes::*;
use crate::encoding::{append_array, append_bytes, append_u64, zero_bytes};
use crate::merkleize_padded::{hash_concat, merkle_root, merkleize_padded, sha256};
use crate::types::{
    AttestationData, BeaconBlock, BeaconBlockHeader, Checkpoint, DepositData, VoluntaryExit,
};

verus! {

/// The chunk of an integer: its eight bytes, the lowest first, and zeros.
pub open spec fn u64_chunk(x: u64) -> Seq<u8> {
    spec_u64_to_le_bytes(x) + Seq::new(24, |k: int| 0u8)
}

/// The root of a record whose fields have the roots `leaves`, one after the
/// other.
pub open spec fn record_root(leaves: Seq<u8>) -> Seq<u8> {
    merkle_root(leaves, 0)
}

/// What is signed for an object of the root `object_root` under `domain`.
pub open spec fn spec_signing_root(object_root: Seq<u8>, domain: u64) -> Seq<u8> {
    record_root(object_root + u64_chunk(domain))
}

/// Appends the chunk of `x` to `dst`.
pub fn append_u64_chunk(dst: &mut Vec<u8>, x: u64)
    ensures
        final(dst)@ == old(dst)@ + u64_chunk(x),
{
    append_u64(dst, x);
    let padding = zero_bytes(24);
    append_bytes(dst, padding.as_slice());
    assert(dst@ =~= old(dst)@ + u64_chunk(x));
}

/// The root of a record whose fields have the roots `leaves`; at most 64
/// fields.
pub fn root_of_leaves(leaves: &Vec<u8>) -> (r: Vec<u8>)
    requires
        leaves@.len() <= 2048,
    ensures
        r@ == record_root(leaves@),
        r@.len() == 32,
{
    merkleize_padded(leaves.as_slice(), 0)
}

/// The root of a list: the hash of the root of its items and of its length.
pub fn mix_in_length(root: &[u8], length: usize) -> (r: Vec<u8>)
    requires
        root@.len() == 32,
    ensures
        r@ == sha256(root@ + u64_chunk(length as u64)),
        r@.len() == 32,
{
    let mut length_bytes: Vec<u8> = Vec::new();
    append_u64_chunk(&mut length_bytes, length as u64);
    proof {
        lemma_auto_spec_u64_to_from_le_bytes();
    }
    assert(length_bytes@ =~= u64_chunk(length as u64));
    hash_concat(root, length_bytes.as_slice())
}

/// What has a hash tree root.
pub trait TreeHash {
    /// The hash tree root.
    spec fn spec_tree_hash_root(&self) -> Seq<u8>;

    /// The hash tree root: 32 bytes.
    fn tree_hash_root(&self) -> (r: Vec<u8>)
        ensures
            r@ == self.spec_tree_hash_root(),
            r@.len() == 32,
    ;
}

/// What is signed for `object` under `domain`: the root of the pair of the
/// root of the object and the domain.
pub fn signing_root<T: TreeHash>(object: &T, domain: u64) -> (r: Vec<u8>)
    ensures
        r@ == spec_signing_root(object.spec_tree_hash_root(), domain),
        r@.len() == 32,
{
    let root = object.tree_hash_root();
    signing_root_of(root.as_slice(), domain)
}

/// What is signed for an object of the root `object_root` under `domain`.
pub fn signing_root_of(object_root: &[u8], domain: u64) -> (r: Vec<u8>)
    requires
        object_root@.len() == 32,
    ensures
        r@ == spec_signing_root(object_root@, domain),
        r@.len() == 32,
{
    let mut leaves: Vec<u8> = Vec::new();
    append_bytes(&mut leaves, object_root);
    append_u64_chunk(&mut leaves, domain);
    proof {
        lemma_auto_spec_u64_to_from_le_bytes();
    }
    assert(leaves@ =~= object_root@ + u64_chunk(domain));
    root_of_leaves(&leaves)
}

/// An epoch or a slot, as it is signed.
pub struct Epoch(pub u64);

impl TreeHash for Epoch {
    open spec fn spec_tree_hash_root(&self) -> Seq<u8> {
        u64_chunk(self.0)
    }

    fn tree_hash_root(&self) -> (r: Vec<u8>) {
        let mut r: Vec<u8> = Vec::new();
        append_u64_chunk(&mut r, self.0);
        proof {
            lemma_auto_spec_u64_to_from_le_bytes();
        }
        assert(r@ =~= u64_chunk(self.0));
        r
    }
}

impl TreeHash for Checkpoint {
    open spec fn spec_tree_hash_root(&self) -> Seq<u8> {
        record_root(u64_chunk(self.epoch) + self.root@)
    }

    fn tree_hash_root(&self) -> (r: Vec<u8>) {
        let mut leaves: Vec<u8> = Vec::new();
        append_u64_chunk(&mut leaves, self.epoch);
        append_array(&mut leaves, &self.root);
        proof {
            lemma_auto_spec_u64_to_from_le_bytes();
        }
        assert(leaves@ =~= u64_chunk(self.epoch) + self.root@);
        root_of_leaves(&leaves)
    }
}

impl TreeHash for AttestationData {
    open spec fn spec_tree_hash_root(&self) -> Seq<u8> {
        record_root(
            u64_chunk(self.slot) + u64_chunk(self.index) + self.beacon_block_root@
                + self.source.spec_tree_hash_root() + self.target.spec_tree_hash_root(),
        )
    }

    fn tree_hash_root(&self) -> (r: Vec<u8>) {
        let mut leaves: Vec<u8> = Vec::new();
        append_u64_chunk(&mut leaves, self.slot);
        append_u64_chunk(&mut leaves, self.index);
        append_array(&mut leaves, &self.beacon_block_root);
        let source = self.source.tree_hash_root();
        append_bytes(&mut leaves, source.as_slice());
        let target = self.target.tree_hash_root();
        append_bytes(&mut leaves, target.as_slice());
        proof {
            lemma_auto_spec_u64_to_from_le_bytes();
        }
        assert(leaves@ =~= u64_chunk(self.slot) + u64_chunk(self.index) + self.beacon_block_root@
            + self.source.spec_tree_hash_root() + self.target.spec_tree_hash_root());
        root_of_leaves(&leaves)
    }
}

impl TreeHash for BeaconBlockHeader {
    open spec fn spec_tree_hash_root(&self) -> Seq<u8> {
        record_root(u64_chunk(self.slot) + self.parent_root@ + self.state_root@ + self.body_root@)
    }

    fn tree_hash_root(&self) -> (r: Vec<u8>) {
        let mut leaves: Vec<u8> = Vec::new();
        append_u64_chunk(&mut leaves, self.slot);
        append_array(&mut leaves, &self.parent_root);
        append_array(&mut leaves, &self.state_root);
        append_array(&mut leaves, &self.body_root);
        proof {
            lemma_auto_spec_u64_to_from_le_bytes();
        }
        assert(leaves@ =~= u64_chunk(self.slot) + self.parent_root@ + self.state_root@
            + self.body_root@);
        root_of_leaves(&leaves)
    }
}

impl TreeHash for BeaconBlock {
    /// A block has the root of its header.
    open spec fn spec_tree_hash_root(&self) -> Seq<u8> {
        record_root(u64_chunk(self.slot) + self.parent_root@ + self.state_root@ + self.body_root@)
    }

    fn tree_hash_root(&self) -> (r: Vec<u8>) {
        let mut leaves: Vec<u8> = Vec::new();
        append_u64_chunk(&mut leaves, self.slot);
        append_array(&mut leaves, &self.parent_root);
        append_array(&mut leaves, &self.state_root);
        append_array(&mut leaves, &self.body_root);
        proof {
            lemma_auto_spec_u64_to_from_le_bytes();
        }
        assert(leaves@ =~= u64_chunk(self.slot) + self.parent_root@ + self.state_root@
            + self.body_root@);
        root_of_leaves(&leaves)
    }
}

impl TreeHash for VoluntaryExit {
    /// The root of the exit without its signature: the epoch and the validator.
    open spec fn spec_tree_hash_root(&self) -> Seq<u8> {
        record_root(u64_chunk(self.epoch) + u64_chunk(self.validator_index))
    }

    fn tree_hash_root(&self) -> (r: Vec<u8>) {
        let mut leaves: Vec<u8> = Vec::new();
        append_u64_chunk(&mut leaves, self.epoch);
        append_u64_chunk(&mut leaves, self.validator_index);
        proof {
            lemma_auto_spec_u64_to_from_le_bytes();
        }
        assert(leaves@ =~= u64_chunk(self.epoch) + u64_chunk(self.validator_index));
        root_of_leaves(&leaves)
    }
}

impl TreeHash for DepositData {
    /// The root of the deposit without its signature: the key, which takes two
    /// chunks and has a root of its own, the credentials and the amount.
    open spec fn spec_tree_hash_root(&self) -> Seq<u8> {
        record_root(
            merkle_root(self.pubkey@, 0) + self.withdrawal_credentials@ + u64_chunk(self.amount),
        )
    }

    fn tree_hash_root(&self) -> (r: Vec<u8>) {
        let mut key: Vec<u8> = Vec::new();
        append_array(&mut key, &self.pubkey);
        assert(key@ =~= self.pubkey@);
        let key_root = merkleize_padded(key.as_slice(), 0);
        let mut leaves: Vec<u8> = Vec::new();
        append_bytes(&mut leaves, key_root.as_slice());
        append_array(&mut leaves, &self.withdrawal_credentials);
        append_u64_chunk(&mut leaves, self.amount);
        proof {
            lemma_auto_spec_u64_to_from_le_bytes();
        }
        assert(leaves@ =~= merkle_root(self.pubkey@, 0) + self.withdrawal_credentials@
            + u64_chunk(self.amount));
        root_of_leaves(&leaves)
    }
}

} // verus!
