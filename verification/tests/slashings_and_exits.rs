use operation_pool::aggregate_signature::AggregateSignature;
use operation_pool::attester_slashing_store::attester_slashing_id;
use operation_pool::pool::OperationPool;
use operation_pool::points::RawSignature;
use operation_pool::slashable::{get_slashable_indices_modular, SlashableIndicesError};
use operation_pool::types::{
    AttestationData, AttesterSlashing, BeaconBlockHeader, BeaconState, ChainSpec, Checkpoint,
    Fork, IndexedAttestation, ProposerSlashing, SignedBeaconBlockHeader, Validator,
    VoluntaryExit,
};
use operation_pool::validator_map::{
    filter_limit_operations, prune_validator_hash_map, ValidatorMap,
};

const FAR_FUTURE_EPOCH: u64 = u64::MAX;

fn validator() -> Validator {
    Validator {
        pubkey: [0u8; 48],
        slashed: false,
        exit_epoch: FAR_FUTURE_EPOCH,
        withdrawable_epoch: FAR_FUTURE_EPOCH,
    }
}

/// A state at the start of epoch 10 with `n` validators.
fn state(n: usize) -> BeaconState {
    BeaconState {
        slot: 320,
        fork: Fork { previous_version: [0; 4], current_version: [0; 4], epoch: 0 },
        validators: (0..n).map(|_| validator()).collect(),
        previous_epoch_attestations: vec![],
        current_epoch_attestations: vec![],
    }
}

fn signature(n: u8) -> RawSignature {
    let mut bytes = [0u8; 96];
    bytes[0] = 0x80;
    bytes[1] = n;
    RawSignature { bytes }
}

fn header(slot: u64, n: u8) -> SignedBeaconBlockHeader {
    SignedBeaconBlockHeader {
        message: BeaconBlockHeader {
            slot,
            parent_root: [n; 32],
            state_root: [n.wrapping_add(1); 32],
            body_root: [n.wrapping_add(2); 32],
        },
        signature: signature(n),
    }
}

fn proposer_slashing(proposer_index: u64) -> ProposerSlashing {
    ProposerSlashing {
        proposer_index,
        signed_header_1: header(5, 1),
        signed_header_2: header(5, 2),
    }
}

fn data(slot: u64, target_root: u8) -> AttestationData {
    AttestationData {
        slot,
        index: 0,
        beacon_block_root: [3; 32],
        source: Checkpoint { epoch: 8, root: [4; 32] },
        target: Checkpoint { epoch: 9, root: [target_root; 32] },
    }
}

fn indexed(indices: &[u64], slot: u64, target_root: u8) -> IndexedAttestation {
    IndexedAttestation {
        attesting_indices: indices.to_vec(),
        data: data(slot, target_root),
        signature: AggregateSignature { aggregate_signature: signature(9), is_empty: false },
    }
}

/// A slashing of the validators that signed two votes for different targets.
fn attester_slashing(first: &[u64], second: &[u64], slot: u64) -> AttesterSlashing {
    AttesterSlashing {
        attestation_1: indexed(first, slot, 1),
        attestation_2: indexed(second, slot, 2),
    }
}

fn accept<T>(_: &T) -> Result<(), String> {
    Ok(())
}

fn exit(validator_index: u64, epoch: u64) -> VoluntaryExit {
    VoluntaryExit { epoch, validator_index, signature: signature(7) }
}

#[test]
fn slashable_indices_are_the_common_signers_not_yet_slashed() {
    let mut state = state(10);
    let slashing = attester_slashing(&[1, 2, 3, 4, 5], &[7, 5, 3, 2, 1, 0], 300);
    assert_eq!(
        get_slashable_indices_modular(&state, &slashing, &vec![], None),
        Ok(vec![1, 2, 3, 5])
    );
    state.validators[2].slashed = true;
    assert_eq!(
        get_slashable_indices_modular(&state, &slashing, &vec![5, 9], None),
        Ok(vec![1, 3])
    );
    state.validators[1].withdrawable_epoch = 10;
    assert_eq!(
        get_slashable_indices_modular(&state, &slashing, &vec![], Some(9)),
        Ok(vec![1, 3, 5])
    );
    assert_eq!(
        get_slashable_indices_modular(&state, &slashing, &vec![], Some(10)),
        Ok(vec![3, 5])
    );
    // A signer that occurs twice is slashed once.
    let twice = attester_slashing(&[4, 4, 6], &[6, 4], 300);
    assert_eq!(get_slashable_indices_modular(&state, &twice, &vec![], None), Ok(vec![4, 6]));
}

#[test]
fn slashable_indices_errors() {
    let state = state(4);
    let nobody = attester_slashing(&[1, 2], &[3], 300);
    assert_eq!(
        get_slashable_indices_modular(&state, &nobody, &vec![], None),
        Err(SlashableIndicesError::NoSlashableIndices)
    );
    let claimed = attester_slashing(&[1, 2], &[2, 1], 300);
    assert_eq!(
        get_slashable_indices_modular(&state, &claimed, &vec![2, 1], None),
        Err(SlashableIndicesError::NoSlashableIndices)
    );
    let unknown = attester_slashing(&[1, 8, 9], &[9, 8, 1], 300);
    assert_eq!(
        get_slashable_indices_modular(&state, &unknown, &vec![], None),
        Err(SlashableIndicesError::UnknownValidator(8))
    );
    // A signer of one attestation only need not be known.
    let aside = attester_slashing(&[1, 8], &[1], 300);
    assert_eq!(get_slashable_indices_modular(&state, &aside, &vec![], None), Ok(vec![1]));
}

#[test]
fn later_proposer_slashing_wins() {
    let mut pool = OperationPool::new();
    let first = proposer_slashing(3);
    let mut second = proposer_slashing(3);
    second.signed_header_2 = header(5, 9);
    assert_eq!(pool.insert_proposer_slashing(first, accept), Ok(()));
    assert_eq!(pool.insert_proposer_slashing(proposer_slashing(1), accept), Ok(()));
    assert_eq!(pool.insert_proposer_slashing(second, accept), Ok(()));
    assert_eq!(pool.proposer_slashings.entries, vec![(3, second), (1, proposer_slashing(1))]);
    assert_eq!(pool.proposer_slashings.get(3), Some(second));
    assert_eq!(pool.proposer_slashings.get(2), None);
    assert_eq!(pool.proposer_slashings.len(), 2);
}

#[test]
fn refused_operations_do_not_enter() {
    let state = state(4);
    let spec = ChainSpec::mainnet();
    let mut pool = OperationPool::new();
    assert_eq!(
        pool.insert_proposer_slashing(proposer_slashing(3), |_| Err("bad signature")),
        Err("bad signature")
    );
    assert_eq!(
        pool.insert_attester_slashing(attester_slashing(&[1], &[1], 300), &state, &spec, |_| {
            Err(17u8)
        }),
        Err(17u8)
    );
    assert_eq!(pool.insert_voluntary_exit(exit(2, 5), |_| Err(())), Err(()));
    assert_eq!(pool, OperationPool::new());
}

#[test]
fn slashings_of_one_block_slash_nobody_twice() {
    let mut state = state(10);
    let spec = ChainSpec { max_attester_slashings: 2, ..ChainSpec::mainnet() };
    let mut pool = OperationPool::new();
    for proposer in [1u64, 2, 30, 4] {
        pool.insert_proposer_slashing(proposer_slashing(proposer), accept).unwrap();
    }
    state.validators[2].slashed = true;
    // Slashes 1 only, whom a proposer slashing slashes already.
    let redundant = attester_slashing(&[1], &[1], 290);
    // Slashes 5 and 6.
    let useful = attester_slashing(&[4, 5, 6], &[6, 5, 4], 291);
    // Slashes 5 and 6 again.
    let repeated = attester_slashing(&[5, 6], &[5, 6], 292);
    // Slashes 7 besides 6.
    let partly = attester_slashing(&[6, 7], &[6, 7], 293);
    // Would slash 8, and the bound is reached.
    let late = attester_slashing(&[8], &[8], 294);
    for slashing in [&redundant, &useful, &repeated, &partly, &late] {
        pool.insert_attester_slashing(slashing.clone(), &state, &spec, accept).unwrap();
    }
    let (proposer_slashings, attester_slashings) = pool.get_slashings(&state, &spec);
    // 2 is slashed and 30 is unknown.
    assert_eq!(proposer_slashings, vec![proposer_slashing(1), proposer_slashing(4)]);
    assert_eq!(attester_slashings, vec![useful, partly]);
}

#[test]
fn proposer_slashings_respect_the_bound() {
    let state = state(40);
    let spec = ChainSpec::mainnet();
    let mut pool = OperationPool::new();
    for proposer in 0..20u64 {
        pool.insert_proposer_slashing(proposer_slashing(proposer), accept).unwrap();
    }
    let (proposer_slashings, _) = pool.get_slashings(&state, &spec);
    assert_eq!(proposer_slashings.len(), spec.max_proposer_slashings);
    assert_eq!(proposer_slashings[15].proposer_index, 15);
}

#[test]
fn attester_slashings_of_another_fork_are_left_out_and_pruned() {
    let mut state = state(10);
    let spec = ChainSpec::mainnet();
    let mut pool = OperationPool::new();
    let old = attester_slashing(&[1], &[1], 290);
    pool.insert_attester_slashing(old.clone(), &state, &spec, accept).unwrap();
    state.fork = Fork { previous_version: [0; 4], current_version: [1, 0, 0, 0], epoch: 9 };
    let new = attester_slashing(&[2], &[2], 291);
    pool.insert_attester_slashing(new.clone(), &state, &spec, accept).unwrap();
    assert_eq!(pool.attester_slashings.len(), 2);
    let (id_1, id_2) = attester_slashing_id(&new, &state, &spec);
    assert_eq!(pool.attester_slashings.entries[1].id_1, id_1);
    assert_eq!(pool.attester_slashings.entries[1].id_2, id_2);
    assert_eq!(&id_1.v[128..], &[1, 0, 0, 0, 1, 0, 0, 0]);
    assert_eq!(id_1.v.len(), 136);
    assert_eq!(&id_1.v[..8], &291u64.to_le_bytes());

    let (_, chosen) = pool.get_slashings(&state, &spec);
    assert_eq!(chosen, vec![new.clone()]);

    pool.prune_attester_slashings(&state, &spec);
    assert_eq!(pool.attester_slashings.len(), 1);
    assert_eq!(pool.attester_slashings.entries[0].slashing, new);

    // The same slashing under the same fork takes the place of the first.
    pool.insert_attester_slashing(new.clone(), &state, &spec, accept).unwrap();
    assert_eq!(pool.attester_slashings.len(), 1);

    state.validators[2].withdrawable_epoch = 10;
    pool.prune_attester_slashings(&state, &spec);
    assert_eq!(pool.attester_slashings.len(), 0);
}

#[test]
fn proposer_slashings_are_pruned_for_slashed_and_withdrawable_validators() {
    let mut state = state(5);
    let spec = ChainSpec::mainnet();
    let mut pool = OperationPool::new();
    for proposer in [0u64, 1, 2, 3, 77] {
        pool.insert_proposer_slashing(proposer_slashing(proposer), accept).unwrap();
    }
    state.validators[1].slashed = true;
    state.validators[3].withdrawable_epoch = 10;
    state.validators[2].withdrawable_epoch = 11;
    pool.prune_proposer_slashings(&state, &spec);
    let kept: Vec<u64> = pool.proposer_slashings.entries.iter().map(|e| e.0).collect();
    assert_eq!(kept, vec![0, 2, 77]);
}

#[test]
fn exits_are_chosen_in_order_up_to_the_bound() {
    let spec = ChainSpec::mainnet();
    let mut pool = OperationPool::new();
    for validator in 0..40u64 {
        pool.insert_voluntary_exit(exit(validator, validator % 3), accept).unwrap();
    }
    pool.insert_voluntary_exit(exit(5, 9), accept).unwrap();
    assert_eq!(pool.voluntary_exits.len(), 40);
    let asked = std::cell::Cell::new(0);
    let chosen = pool.get_voluntary_exits(&spec, |exit| {
        asked.set(asked.get() + 1);
        exit.epoch != 1
    });
    assert_eq!(chosen.len(), spec.max_voluntary_exits);
    assert_eq!(chosen[0], exit(0, 0));
    assert_eq!(chosen[3], exit(5, 9));
    // Sixteen of the first 24 are accepted, and the rest is not looked at.
    assert_eq!(asked.get(), 24);
    assert_eq!(chosen[15], exit(23, 2));
}

#[test]
fn exits_are_pruned_once_the_validator_has_exited() {
    let mut state = state(3);
    let spec = ChainSpec::mainnet();
    let mut pool = OperationPool::new();
    for validator in [0u64, 1, 2, 9] {
        pool.insert_voluntary_exit(exit(validator, 4), accept).unwrap();
    }
    state.validators[0].exit_epoch = 10;
    state.validators[1].exit_epoch = 11;
    pool.prune_all(&state, &spec);
    let kept: Vec<u64> = pool.voluntary_exits.entries.iter().map(|e| e.0).collect();
    assert_eq!(kept, vec![1, 2, 9]);
}

#[test]
fn filter_limit_operations_takes_the_first_accepted() {
    let operations = vec![1u32, 2, 3, 4, 5, 6, 7];
    assert_eq!(filter_limit_operations(&operations, |x| x % 2 == 1, 3), vec![1, 3, 5]);
    assert_eq!(filter_limit_operations(&operations, |x| x % 2 == 0, 10), vec![2, 4, 6]);
    assert_eq!(
        filter_limit_operations(&operations, |_| panic!("not asked"), 0),
        Vec::<u32>::new()
    );
}

#[test]
fn prune_validator_hash_map_keeps_unknown_validators() {
    let mut state = state(3);
    state.validators[1].slashed = true;
    let mut map = ValidatorMap::new();
    for key in [2u64, 1, 0, 5] {
        map.insert(key, key * 10);
    }
    assert_eq!(map.insert(0, 7), Some(0));
    prune_validator_hash_map(&mut map, |validator| validator.slashed, &state);
    assert_eq!(map.entries, vec![(2, 20), (0, 7), (5, 50)]);
    assert_eq!(map.values(), vec![20, 7, 50]);
    assert!(map.is_well_formed());
    assert!(!ValidatorMap { entries: vec![(1u64, 1u8), (2, 2), (1, 3)] }.is_well_formed());
}
