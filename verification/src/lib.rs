//! An operation pool for a proof-of-stake beacon chain, with what it needs of
//! signatures, hash trees and serialisation.
//!
//! The pool buffers attestations, slashings and voluntary exits, aggregates
//! what can be aggregated, and picks a bounded, reward-maximising subset of
//! them for the next block. Every function carries a contract over the
//! mathematical view of its data, and the laws of the pool are stated as proof
//! functions.
//!
//! What is not the pool's to decide comes in as function values: the validity
//! of an operation, and the arithmetic of the signature scheme.

// Byte strings, bitfields and sequences.
pub mod bitfield;
pub mod encoding;
pub mod hex;
pub mod sequences;

// Signatures.
pub mod aggregate_public_key;
pub mod aggregate_signature;
pub mod points;
pub mod signature;
pub mod signature_set;

// Serialisation and hash trees.
pub mod beacon_tree_hash_cache;
pub mod cached_tree_hash;
pub mod merkleize_padded;
pub mod multi_cache;
pub mod ssz;
pub mod ssz_container;
pub mod tree_hash;

// The chain data and the signature sets of its operations.
pub mod ancestor_accumulator;
pub mod signature_sets;
pub mod types;

// The pool.
pub mod attestation;
pub mod attestation_id;
pub mod attestation_store;
pub mod attester_slashing_store;
pub mod max_cover;
pub mod pool;
pub mod slashable;
pub mod validator_map;

// The snapshot of the pool.
pub mod codec;
pub mod persistence;
pub mod snapshot_items;

// The laws of the pool.
pub mod aggregation_laws;
pub mod coverage_laws;
pub mod selection_laws;
