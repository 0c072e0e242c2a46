use operation_pool::aggregate_signature::AggregateSignature;
use operation_pool::persistence::SnapshotError;
use operation_pool::pool::OperationPool;
use operation_pool::points::RawSignature;
use operation_pool::types::{
    Attestation, AttestationData, AttesterSlashing, BeaconBlockHeader, BeaconState, ChainSpec,
    Checkpoint, Fork, IndexedAttestation, ProposerSlashing, SignedBeaconBlockHeader, Validator,
    VoluntaryExit,
};

fn state() -> BeaconState {
    BeaconState {
        slot: 320,
        fork: Fork { previous_version: [0; 4], current_version: [2, 0, 0, 0], epoch: 3 },
        validators: (0..8)
            .map(|_| Validator {
                pubkey: [0u8; 48],
                slashed: false,
                exit_epoch: u64::MAX,
                withdrawable_epoch: u64::MAX,
            })
            .collect(),
        previous_epoch_attestations: vec![],
        current_epoch_attestations: vec![],
    }
}

fn signature(n: u8) -> RawSignature {
    let mut bytes = [0u8; 96];
    bytes[0] = 0x80;
    bytes[95] = n;
    RawSignature { bytes }
}

fn data(slot: u64) -> AttestationData {
    AttestationData {
        slot,
        index: 1,
        beacon_block_root: [3; 32],
        source: Checkpoint { epoch: 8, root: [4; 32] },
        target: Checkpoint { epoch: 9, root: [5; 32] },
    }
}

fn attestation(bits: &[bool], slot: u64, n: u8) -> Attestation {
    Attestation {
        aggregation_bits: bits.to_vec(),
        data: data(slot),
        signature: AggregateSignature { aggregate_signature: signature(n), is_empty: false },
    }
}

fn indexed(indices: &[u64], slot: u64) -> IndexedAttestation {
    IndexedAttestation {
        attesting_indices: indices.to_vec(),
        data: data(slot),
        signature: AggregateSignature { aggregate_signature: signature(9), is_empty: true },
    }
}

fn header(n: u8) -> SignedBeaconBlockHeader {
    SignedBeaconBlockHeader {
        message: BeaconBlockHeader {
            slot: 77,
            parent_root: [n; 32],
            state_root: [n + 1; 32],
            body_root: [n + 2; 32],
        },
        signature: signature(n),
    }
}

fn accept<T>(_: &T) -> Result<(), ()> {
    Ok(())
}

fn keep_first(a: RawSignature, _: RawSignature) -> RawSignature {
    a
}

/// A pool with entries in each of the four stores.
fn full_pool() -> OperationPool {
    let state = state();
    let spec = ChainSpec::mainnet();
    let mut pool = OperationPool::new();
    for att in [
        attestation(&[true, false, true], 300, 1),
        attestation(&[true, true, false], 300, 2),
        attestation(&[false, true], 301, 3),
    ] {
        pool.insert_attestation(att, &state, &spec, keep_first).unwrap();
    }
    let slashing = AttesterSlashing {
        attestation_1: indexed(&[1, 2, 3], 290),
        attestation_2: indexed(&[3, 4], 291),
    };
    pool.insert_attester_slashing(slashing, &state, &spec, accept).unwrap();
    for proposer in [6u64, 2] {
        let slashing = ProposerSlashing {
            proposer_index: proposer,
            signed_header_1: header(1),
            signed_header_2: header(2),
        };
        pool.insert_proposer_slashing(slashing, accept).unwrap();
    }
    let exit = VoluntaryExit { epoch: 4, validator_index: 5, signature: signature(8) };
    pool.insert_voluntary_exit(exit, accept).unwrap();
    pool
}

#[test]
fn snapshot_round_trip() {
    let pool = full_pool();
    assert_eq!(pool.attestations.buckets.len(), 2);
    assert_eq!(pool.num_attestations(), 3);
    let bytes = pool.to_bytes();
    let restored = OperationPool::from_bytes(&bytes).unwrap();
    assert_eq!(pool, restored);
    assert_eq!(restored.to_bytes(), bytes);
}

#[test]
fn empty_pool_round_trip() {
    let bytes = OperationPool::new().to_bytes();
    assert_eq!(bytes, vec![0u8; 32]);
    assert_eq!(OperationPool::from_bytes(&bytes), Ok(OperationPool::new()));
}

#[test]
fn snapshot_layout() {
    let mut pool = OperationPool::new();
    let exit = VoluntaryExit { epoch: 4, validator_index: 5, signature: signature(8) };
    pool.insert_voluntary_exit(exit, accept).unwrap();
    let bytes = pool.to_bytes();
    // Three empty lists, the length of the fourth, the key, the epoch, the
    // validator, the signature.
    assert_eq!(bytes.len(), 24 + 8 + 8 + 8 + 8 + 96);
    assert_eq!(&bytes[24..32], &[1, 0, 0, 0, 0, 0, 0, 0]);
    assert_eq!(&bytes[32..40], &[5, 0, 0, 0, 0, 0, 0, 0]);
    assert_eq!(&bytes[40..48], &[4, 0, 0, 0, 0, 0, 0, 0]);
    assert_eq!(&bytes[48..56], &[5, 0, 0, 0, 0, 0, 0, 0]);
    assert_eq!(&bytes[56..], &signature(8).bytes[..]);
}

#[test]
fn truncated_snapshots_are_refused() {
    let bytes = full_pool().to_bytes();
    for len in 0..bytes.len() {
        assert_eq!(
            OperationPool::from_bytes(&bytes[..len]),
            Err(SnapshotError::Malformed),
            "len: {}",
            len
        );
    }
}

#[test]
fn trailing_bytes_are_refused() {
    let mut bytes = full_pool().to_bytes();
    bytes.push(0);
    assert_eq!(OperationPool::from_bytes(&bytes), Err(SnapshotError::TrailingBytes));
}

#[test]
fn a_bit_that_is_no_bit_is_refused() {
    let pool = full_pool();
    let mut bytes = pool.to_bytes();
    // The first bit of the first attestation of the first bucket stands after
    // the length of the list, the identity with its length, the length of the
    // bucket and the length of the bitfield.
    let position = 8 + 8 + 136 + 8 + 8;
    assert_eq!(bytes[position], 1);
    bytes[position] = 2;
    assert_eq!(OperationPool::from_bytes(&bytes), Err(SnapshotError::Malformed));
    bytes[position] = 0;
    let changed = OperationPool::from_bytes(&bytes).unwrap();
    assert_eq!(changed.attestations.buckets[0].attestations[0].aggregation_bits[0], false);
}

#[test]
fn stores_that_are_not_well_formed_are_refused() {
    // The same validator twice.
    let mut pool = OperationPool::new();
    let exit = VoluntaryExit { epoch: 4, validator_index: 5, signature: signature(8) };
    pool.voluntary_exits.entries.push((5, exit));
    pool.voluntary_exits.entries.push((5, exit));
    assert_eq!(OperationPool::from_bytes(&pool.to_bytes()), Err(SnapshotError::Inconsistent));

    // An attestation in the bucket of another vote.
    let mut pool = full_pool();
    pool.attestations.buckets[0].attestations[0].data.slot += 1;
    assert_eq!(OperationPool::from_bytes(&pool.to_bytes()), Err(SnapshotError::Inconsistent));

    // An empty bucket.
    let mut pool = full_pool();
    pool.attestations.buckets[1].attestations.clear();
    assert_eq!(OperationPool::from_bytes(&pool.to_bytes()), Err(SnapshotError::Inconsistent));

    // The same identity twice.
    let mut pool = full_pool();
    let id = pool.attestations.buckets[0].id.clone();
    pool.attestations.buckets[1].id = id;
    assert_eq!(OperationPool::from_bytes(&pool.to_bytes()), Err(SnapshotError::Inconsistent));

    // The same pair of identities twice.
    let mut pool = full_pool();
    let again = operation_pool::attester_slashing_store::SlashingEntry {
        id_1: pool.attester_slashings.entries[0].id_1.clone(),
        id_2: pool.attester_slashings.entries[0].id_2.clone(),
        slashing: pool.attester_slashings.entries[0].slashing.clone(),
    };
    pool.attester_slashings.entries.push(again);
    assert_eq!(OperationPool::from_bytes(&pool.to_bytes()), Err(SnapshotError::Inconsistent));
}

#[test]
fn a_length_that_the_bytes_cannot_hold_is_refused() {
    let mut bytes = vec![0u8; 32];
    bytes[0..8].copy_from_slice(&u64::MAX.to_le_bytes());
    assert_eq!(OperationPool::from_bytes(&bytes), Err(SnapshotError::Malformed));
    let mut bytes = vec![0u8; 32];
    bytes[24..32].copy_from_slice(&1u64.to_le_bytes());
    assert_eq!(OperationPool::from_bytes(&bytes), Err(SnapshotError::Malformed));
}
