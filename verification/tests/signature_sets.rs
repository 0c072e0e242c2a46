use operation_pool::aggregate_signature::AggregateSignature;
use operation_pool::points::{PublicKey, RawPublicKey, RawSignature};
use operation_pool::signature::Signature;
use operation_pool::signature_sets::{
    attester_slashing_signature_sets, block_header_signature_set, block_proposal_signature_set,
    deposit_pubkey_signature_message, deposit_signature_set, exit_signature_set,
    indexed_attestation_signature_set, proposer_slashing_signature_set, randao_signature_set,
    validator_pubkey, Error,
};
use operation_pool::tree_hash::{mix_in_length, signing_root, Epoch, TreeHash};
use operation_pool::types::{
    AttestationData, AttesterSlashing, BeaconBlock, BeaconBlockHeader, BeaconState,
    BeaconStateError, ChainSpec, Checkpoint, DepositData, Domain, Fork, IndexedAttestation,
    ProposerSlashing, SignedBeaconBlock, SignedBeaconBlockHeader, Validator, VoluntaryExit,
};

fn hex(bytes: &[u8]) -> String {
    bytes.iter().map(|b| format!("{:02x}", b)).collect()
}

/// A stand-in for decompression: a key must begin with the flag of a compressed
/// point.
fn decompress(bytes: [u8; 48]) -> Option<RawPublicKey> {
    if bytes[0] & 0x80 != 0 {
        Some(RawPublicKey { bytes })
    } else {
        None
    }
}

fn key_bytes(n: u8) -> [u8; 48] {
    let mut bytes = [n; 48];
    bytes[0] = 0x80;
    bytes
}

/// A state at the start of epoch 10, after a fork at epoch 3; the key of
/// validator 3 is no key.
fn state() -> BeaconState {
    BeaconState {
        slot: 320,
        fork: Fork { previous_version: [0; 4], current_version: [2, 0, 0, 0], epoch: 3 },
        validators: (0..6u8)
            .map(|i| Validator {
                pubkey: if i == 3 { [0u8; 48] } else { key_bytes(i) },
                slashed: false,
                exit_epoch: u64::MAX,
                withdrawable_epoch: u64::MAX,
            })
            .collect(),
        previous_epoch_attestations: vec![],
        current_epoch_attestations: vec![],
    }
}

fn point(n: u8) -> RawSignature {
    let mut bytes = [0u8; 96];
    bytes[0] = 0x80;
    bytes[1] = n;
    RawSignature { bytes }
}

fn signature(n: u8) -> Signature {
    Signature { signature: point(n), is_empty: false }
}

fn header(slot: u64) -> SignedBeaconBlockHeader {
    SignedBeaconBlockHeader {
        message: BeaconBlockHeader {
            slot,
            parent_root: [1; 32],
            state_root: [2; 32],
            body_root: [3; 32],
        },
        signature: point(4),
    }
}

fn block() -> SignedBeaconBlock {
    SignedBeaconBlock {
        message: BeaconBlock {
            slot: 320,
            parent_root: [1; 32],
            state_root: [2; 32],
            randao_reveal: signature(5),
            body_root: [3; 32],
        },
        signature: signature(6),
    }
}

fn data() -> AttestationData {
    AttestationData {
        slot: 300,
        index: 1,
        beacon_block_root: [3; 32],
        source: Checkpoint { epoch: 8, root: [4; 32] },
        target: Checkpoint { epoch: 9, root: [5; 32] },
    }
}

fn indexed(indices: &[u64]) -> IndexedAttestation {
    IndexedAttestation {
        attesting_indices: indices.to_vec(),
        data: data(),
        signature: AggregateSignature { aggregate_signature: point(7), is_empty: false },
    }
}

#[test]
fn domains() {
    let spec = ChainSpec::mainnet();
    let fork = state().fork;
    assert_eq!(spec.get_domain(4, Domain::VoluntaryExit, &fork), 8589934596);
    assert_eq!(spec.get_domain(2, Domain::VoluntaryExit, &fork), 4);
    assert_eq!(spec.get_domain(9, Domain::BeaconAttester, &fork), 8589934593);
    assert_eq!(spec.get_domain(3, Domain::BeaconProposer, &fork), 8589934592);
    assert_eq!(spec.get_domain(10, Domain::Randao, &fork), 8589934594);
    assert_eq!(spec.get_deposit_domain(), 3);
    assert_eq!(spec.get_domain_bytes(4, Domain::Deposit, &fork), vec![3, 0, 0, 0, 2, 0, 0, 0]);
}

#[test]
fn roots_of_records() {
    let exit = VoluntaryExit { epoch: 4, validator_index: 5, signature: point(1) };
    assert_eq!(
        hex(&exit.tree_hash_root()),
        "bd50456d5ad175ae99a1612a53ca229124b65d3eaabd9ff9c7ab979a385cf6b3"
    );
    assert_eq!(
        hex(&header(77).message.tree_hash_root()),
        "cef11e4f1ae860db03743e342ed6e212b41b8245908c886f3d85c0e7178be09d"
    );
    assert_eq!(
        hex(&data().tree_hash_root()),
        "dfcebb21a99b23a327b5726d8455de1476dc162db465a00cce898287db05c762"
    );
    let mut chunk = vec![10u8];
    chunk.resize(32, 0);
    assert_eq!(Epoch(10).tree_hash_root(), chunk);
    assert_eq!(
        hex(&signing_root(&header(77).message, 0)),
        "a35296db1e55a4e676a1097baaf11a80c5b22e180ce528629aabdcaf2cb3edf1"
    );
    // A block has the root of its header.
    let mut as_header = header(320).message;
    as_header.body_root = block().message.body_root;
    assert_eq!(block().message.tree_hash_root(), as_header.tree_hash_root());
}

#[test]
fn validator_pubkey_and_its_errors() {
    let state = state();
    assert_eq!(validator_pubkey(&state, 2, &decompress), Ok(RawPublicKey { bytes: key_bytes(2) }));
    assert_eq!(
        validator_pubkey(&state, 3, &decompress),
        Err(Error::BadBlsBytes { validator_index: 3 })
    );
    assert_eq!(validator_pubkey(&state, 6, &decompress), Err(Error::ValidatorUnknown(6)));
    assert_eq!(
        Error::from(BeaconStateError::SlotOutOfBounds),
        Error::BeaconStateError(BeaconStateError::SlotOutOfBounds)
    );
}

#[test]
fn exit_set() {
    let state = state();
    let spec = ChainSpec::mainnet();
    let exit = VoluntaryExit { epoch: 4, validator_index: 5, signature: point(1) };
    let set = exit_signature_set(&state, &exit, &spec, &decompress).unwrap();
    assert_eq!(*set.signature, point(1));
    assert_eq!(set.domain, 8589934596);
    assert_eq!(set.signed_messages.len(), 1);
    assert_eq!(set.signed_messages[0].signing_keys, vec![RawPublicKey { bytes: key_bytes(5) }]);
    assert_eq!(
        hex(&set.signed_messages[0].message),
        "cfef8798e173b3e7e8dc497ffc51acc03d867e5246d77ab07a9a0586e8169c43"
    );
    let unknown = VoluntaryExit { epoch: 4, validator_index: 50, signature: point(1) };
    assert_eq!(
        exit_signature_set(&state, &unknown, &spec, &decompress).err(),
        Some(Error::ValidatorUnknown(50))
    );
    let bad = VoluntaryExit { epoch: 4, validator_index: 3, signature: point(1) };
    assert_eq!(
        exit_signature_set(&state, &bad, &spec, &decompress).err(),
        Some(Error::BadBlsBytes { validator_index: 3 })
    );
}

#[test]
fn block_proposal_set() {
    let state = state();
    let spec = ChainSpec::mainnet();
    let block = block();
    let set =
        block_proposal_signature_set(&state, &block, None, &spec, |_| Ok(4), &decompress).unwrap();
    assert_eq!(*set.signature, point(6));
    assert_eq!(set.domain, 8589934592);
    assert_eq!(set.signed_messages[0].signing_keys, vec![RawPublicKey { bytes: key_bytes(4) }]);
    assert_eq!(
        hex(&set.signed_messages[0].message),
        "6135a999fd188526dfb6fed655fbb4d326b222706b57b77d20b8bbb2dfcedbc3"
    );
    let given = block_proposal_signature_set(
        &state,
        &block,
        Some([6; 32]),
        &spec,
        |slot| {
            assert_eq!(slot, 320);
            Ok(4)
        },
        &decompress,
    )
    .unwrap();
    assert_eq!(
        hex(&given.signed_messages[0].message),
        "ec9bf944708b07d7c44befa847ac422c0d0b0e53ee5a60eef14b8db12573586f"
    );
    let failed = block_proposal_signature_set(
        &state,
        &block,
        None,
        &spec,
        |_| Err(BeaconStateError::InsufficientValidators),
        &decompress,
    );
    assert_eq!(
        failed.err(),
        Some(Error::BeaconStateError(BeaconStateError::InsufficientValidators))
    );
    let unknown = block_proposal_signature_set(&state, &block, None, &spec, |_| Ok(9), &decompress);
    assert_eq!(unknown.err(), Some(Error::ValidatorUnknown(9)));
}

#[test]
fn randao_set() {
    let state = state();
    let spec = ChainSpec::mainnet();
    let block = block().message;
    let set = randao_signature_set(&state, &block, &spec, |_| Ok(1), &decompress).unwrap();
    assert_eq!(*set.signature, point(5));
    assert_eq!(set.domain, 8589934594);
    assert_eq!(set.signed_messages[0].signing_keys, vec![RawPublicKey { bytes: key_bytes(1) }]);
    assert_eq!(
        hex(&set.signed_messages[0].message),
        "852376fa6e4a5fc4a3714290fe65c7d7c5af7aa6b88a9e1860800620d72211f5"
    );
    let failed = randao_signature_set(
        &state,
        &block,
        &spec,
        |_| Err(BeaconStateError::EpochOutOfBounds),
        &decompress,
    );
    assert_eq!(failed.err(), Some(Error::BeaconStateError(BeaconStateError::EpochOutOfBounds)));
}

#[test]
fn proposer_slashing_sets() {
    let state = state();
    let spec = ChainSpec::mainnet();
    let slashing = ProposerSlashing {
        proposer_index: 2,
        signed_header_1: header(77),
        signed_header_2: header(320),
    };
    let (first, second) =
        proposer_slashing_signature_set(&state, &slashing, &spec, &decompress).unwrap();
    // The first header is of the time before the fork.
    assert_eq!(first.domain, 0);
    assert_eq!(second.domain, 8589934592);
    assert_eq!(
        hex(&first.signed_messages[0].message),
        "a35296db1e55a4e676a1097baaf11a80c5b22e180ce528629aabdcaf2cb3edf1"
    );
    assert_eq!(
        hex(&second.signed_messages[0].message),
        "6135a999fd188526dfb6fed655fbb4d326b222706b57b77d20b8bbb2dfcedbc3"
    );
    assert_eq!(first.signed_messages[0].signing_keys, vec![RawPublicKey { bytes: key_bytes(2) }]);
    assert_eq!(*second.signature, point(4));
    let direct =
        block_header_signature_set(&state, &slashing.signed_header_1, RawPublicKey { bytes: key_bytes(2) }, &spec)
            .unwrap();
    assert_eq!(direct.signed_messages[0].message, first.signed_messages[0].message);
    let unknown = ProposerSlashing { proposer_index: 6, ..slashing };
    assert_eq!(
        proposer_slashing_signature_set(&state, &unknown, &spec, &decompress).err(),
        Some(Error::ValidatorUnknown(6))
    );
}

#[test]
fn indexed_attestation_sets() {
    let state = state();
    let spec = ChainSpec::mainnet();
    let attestation = indexed(&[4, 0, 2]);
    let set = indexed_attestation_signature_set(
        &state,
        &attestation.signature,
        &attestation,
        &spec,
        &decompress,
    )
    .unwrap();
    assert_eq!(*set.signature, point(7));
    assert_eq!(set.domain, 8589934593);
    assert_eq!(
        set.signed_messages[0].signing_keys,
        vec![
            RawPublicKey { bytes: key_bytes(4) },
            RawPublicKey { bytes: key_bytes(0) },
            RawPublicKey { bytes: key_bytes(2) },
        ]
    );
    assert_eq!(
        hex(&set.signed_messages[0].message),
        "9ded951233b6f0016417f9ea1a7d2fde463cc31306041a5c1d77df2d50fb7a41"
    );
    let bad = indexed(&[4, 3, 77]);
    assert_eq!(
        indexed_attestation_signature_set(&state, &bad.signature, &bad, &spec, &decompress).err(),
        Some(Error::BadBlsBytes { validator_index: 3 })
    );
    let slashing = AttesterSlashing { attestation_1: indexed(&[1]), attestation_2: indexed(&[2, 77]) };
    assert_eq!(
        attester_slashing_signature_sets(&state, &slashing, &spec, &decompress).err(),
        Some(Error::ValidatorUnknown(77))
    );
    let slashing = AttesterSlashing { attestation_1: indexed(&[1]), attestation_2: indexed(&[2, 5]) };
    let (first, second) =
        attester_slashing_signature_sets(&state, &slashing, &spec, &decompress).unwrap();
    assert_eq!(first.signed_messages[0].signing_keys.len(), 1);
    assert_eq!(second.signed_messages[0].signing_keys.len(), 2);
}

#[test]
fn deposit_set() {
    let spec = ChainSpec::mainnet();
    let mut pubkey = [9u8; 48];
    let deposit = DepositData {
        pubkey,
        withdrawal_credentials: [8; 32],
        amount: 32_000_000_000,
        signature: point(3).bytes,
    };
    let decode = |bytes: [u8; 96]| Some(Signature { signature: RawSignature { bytes }, is_empty: false });
    let accept = |bytes: [u8; 48]| Some(RawPublicKey { bytes });
    let triple = deposit_pubkey_signature_message(&deposit, &spec, accept, decode).unwrap();
    assert_eq!(triple.0, PublicKey(RawPublicKey { bytes: [9u8; 48] }));
    assert_eq!(triple.1, signature(3));
    assert_eq!(
        hex(&triple.2),
        "a1a5d7495af091c5ed7c38016dd287846d088c4b69430abeafc6e1308fab3d8c"
    );
    let set = deposit_signature_set(&triple, &spec);
    assert_eq!(set.domain, 3);
    assert_eq!(*set.signature, point(3));
    assert_eq!(set.signed_messages[0].signing_keys, vec![RawPublicKey { bytes: [9u8; 48] }]);
    assert_eq!(set.signed_messages[0].message, triple.2);

    pubkey[0] = 0;
    let bad_key = DepositData { pubkey, ..deposit };
    assert_eq!(deposit_pubkey_signature_message(&bad_key, &spec, decompress, decode), None);
    assert_eq!(deposit_pubkey_signature_message(&deposit, &spec, accept, |_| None), None);
}

#[test]
fn length_is_mixed_into_the_root_of_a_list() {
    assert_eq!(
        hex(&mix_in_length(&[7; 32], 5)),
        "490638e99faf8e51a62147a1a0ba760aa255ae6f28f5c607f231cbf6d0489560"
    );
}
