use operation_pool::aggregate_signature::AggregateSignature;
use operation_pool::attestation::earliest_attestation_validators;
use operation_pool::pool::OperationPool;
use operation_pool::points::RawSignature;
use operation_pool::types::{
    Attestation, AttestationData, BeaconState, ChainSpec, Checkpoint, Fork, PendingAttestation,
    Validator,
};

const SLOTS_PER_EPOCH: u64 = 32;

/// A stand-in for the sum of two signature points: the bytes are added up one by one.
fn add_points(a: RawSignature, b: RawSignature) -> RawSignature {
    let mut bytes = [0u8; 96];
    for i in 0..96 {
        bytes[i] = a.bytes[i].wrapping_add(b.bytes[i]);
    }
    RawSignature { bytes }
}

/// A stand-in for the signature of one committee member.
fn member_signature(validator: usize) -> RawSignature {
    let mut bytes = [0u8; 96];
    bytes[0] = 1;
    bytes[1 + validator % 95] = 1 + (validator / 95) as u8;
    RawSignature { bytes }
}

fn num_set_bits(bits: &[bool]) -> usize {
    bits.iter().filter(|bit| **bit).count()
}

/// An attestation of the committee `index` at `slot`, signed by the members of
/// `signing_range` and by `extra_signer`.
fn signed_attestation(
    committee: &[usize],
    index: u64,
    signing_range: std::ops::Range<usize>,
    slot: u64,
    extra_signer: Option<usize>,
) -> Attestation {
    let mut aggregation_bits = vec![false; committee.len()];
    let mut point = RawSignature { bytes: [0u8; 96] };
    let mut signers: Vec<usize> = signing_range.collect();
    if let Some(extra) = extra_signer {
        signers.push(extra);
    }
    for position in signers {
        aggregation_bits[position] = true;
        point = add_points(point, member_signature(committee[position]));
    }
    let epoch = slot / SLOTS_PER_EPOCH;
    Attestation {
        aggregation_bits,
        data: AttestationData {
            slot,
            index,
            beacon_block_root: [7u8; 32],
            source: Checkpoint { epoch: epoch - 1, root: [1u8; 32] },
            target: Checkpoint { epoch, root: [2u8; 32] },
        },
        signature: AggregateSignature { aggregate_signature: point, is_empty: false },
    }
}

/// A state in the middle of epoch 1000, with the committees of the slot before its own.
fn attestation_test_state(num_committees: usize) -> (BeaconState, Vec<Vec<usize>>, ChainSpec) {
    let spec = ChainSpec::mainnet();
    let num_validators = num_committees * SLOTS_PER_EPOCH as usize * spec.target_committee_size;
    let slot = 1000 * SLOTS_PER_EPOCH + SLOTS_PER_EPOCH / 2;
    let validators = (0..num_validators)
        .map(|_| Validator {
            pubkey: [0u8; 48],
            slashed: false,
            exit_epoch: u64::MAX,
            withdrawable_epoch: u64::MAX,
        })
        .collect();
    let state = BeaconState {
        slot,
        fork: Fork { previous_version: [0; 4], current_version: [0; 4], epoch: 0 },
        validators,
        previous_epoch_attestations: vec![],
        current_epoch_attestations: vec![],
    };
    let committees = (0..num_committees)
        .map(|c| {
            (0..spec.target_committee_size)
                .map(|i| c * spec.target_committee_size + i)
                .collect()
        })
        .collect();
    (state, committees, spec)
}

/// The rule of inclusion that these tests need: an attestation can be included
/// from the minimum delay after its slot until one epoch after it.
fn includable(state: &BeaconState, spec: &ChainSpec, attestation: &Attestation) -> bool {
    attestation.data.slot + spec.min_attestation_inclusion_delay <= state.slot
        && state.slot <= attestation.data.slot + spec.slots_per_epoch
}

#[test]
fn test_earliest_attestation() {
    let (mut state, committees, spec) = attestation_test_state(1);
    let slot = state.slot - 1;

    for (index, committee) in committees.iter().enumerate() {
        let att1 = signed_attestation(committee, index as u64, 0..2, slot, None);
        let att2 = signed_attestation(committee, index as u64, 0..committee.len(), slot, None);

        assert_eq!(
            num_set_bits(&att1.aggregation_bits),
            num_set_bits(&earliest_attestation_validators(&att1, &state, &spec))
        );
        state.current_epoch_attestations.push(PendingAttestation {
            aggregation_bits: att1.aggregation_bits.clone(),
            data: att1.data,
        });

        assert_eq!(
            committee.len() - 2,
            num_set_bits(&earliest_attestation_validators(&att2, &state, &spec))
        );
    }
}

#[test]
fn attestation_aggregation_insert_get_prune() {
    let (mut state, committees, spec) = attestation_test_state(1);

    let mut op_pool = OperationPool::new();

    let slot = state.slot - 1;

    assert_eq!(
        committees.len(),
        1,
        "we expect just one committee with this many validators"
    );

    for (index, committee) in committees.iter().enumerate() {
        let step_size = 2;
        for i in (0..committee.len()).step_by(step_size) {
            let att = signed_attestation(committee, index as u64, i..i + step_size, slot, None);
            op_pool.insert_attestation(att, &state, &spec, add_points).unwrap();
        }
    }

    assert_eq!(op_pool.attestations.buckets.len(), committees.len());
    assert_eq!(op_pool.num_attestations(), committees.len());

    // Before the min attestation inclusion delay, get_attestations shouldn't return anything.
    state.slot -= 1;
    assert_eq!(
        op_pool.get_attestations(&state, &spec, |a| includable(&state, &spec, a)).len(),
        0
    );

    // Then once the delay has elapsed, we should get a single aggregated attestation.
    state.slot += spec.min_attestation_inclusion_delay;

    let block_attestations =
        op_pool.get_attestations(&state, &spec, |a| includable(&state, &spec, a));
    assert_eq!(block_attestations.len(), committees.len());

    let agg_att = &block_attestations[0];
    assert_eq!(num_set_bits(&agg_att.aggregation_bits), spec.target_committee_size);

    // The signature of the aggregate is the sum of the signatures of all members.
    let whole = signed_attestation(&committees[0], 0, 0..committees[0].len(), slot, None);
    assert_eq!(agg_att, &whole);

    // Prune attestations shouldn't do anything at this point.
    op_pool.prune_attestations(&state, &spec);
    assert_eq!(op_pool.num_attestations(), committees.len());

    // But once we advance to more than an epoch after the attestation, it should prune it
    // out of existence.
    state.slot += 2 * SLOTS_PER_EPOCH;
    op_pool.prune_attestations(&state, &spec);
    assert_eq!(op_pool.num_attestations(), 0);
}

#[test]
fn attestation_duplicate() {
    let (state, committees, spec) = attestation_test_state(1);

    let mut op_pool = OperationPool::new();

    let slot = state.slot - 1;

    for (index, committee) in committees.iter().enumerate() {
        let att = signed_attestation(committee, index as u64, 0..committee.len(), slot, None);
        op_pool.insert_attestation(att.clone(), &state, &spec, add_points).unwrap();
        op_pool.insert_attestation(att, &state, &spec, add_points).unwrap();
    }

    assert_eq!(op_pool.num_attestations(), committees.len());
}

#[test]
fn attestation_pairwise_overlapping() {
    let (state, committees, spec) = attestation_test_state(1);

    let mut op_pool = OperationPool::new();

    let slot = state.slot - 1;

    let step_size = 2;
    for (index, committee) in committees.iter().enumerate() {
        // Create attestations that overlap on `step_size` validators, like:
        // {0,1,2,3}, {2,3,4,5}, {4,5,6,7}, ...
        for i in (0..committee.len() - step_size).step_by(step_size) {
            let att =
                signed_attestation(committee, index as u64, i..i + 2 * step_size, slot, None);
            op_pool.insert_attestation(att, &state, &spec, add_points).unwrap();
        }
    }

    // The attestations should get aggregated into two attestations that comprise all
    // validators.
    assert_eq!(op_pool.attestations.buckets.len(), committees.len());
    assert_eq!(op_pool.num_attestations(), 2 * committees.len());

    // Between them the two hold every validator of the committee.
    let entries = &op_pool.attestations.buckets[0].attestations;
    for position in 0..committees[0].len() {
        assert!(entries[0].aggregation_bits[position] || entries[1].aggregation_bits[position]);
    }
    assert_eq!(num_set_bits(&entries[0].aggregation_bits), committees[0].len());
    assert_eq!(num_set_bits(&entries[1].aggregation_bits), committees[0].len() - 4);

    // The first credits the whole committee, so that the second has nothing to
    // add to a block and is not chosen.
    let mut state = state;
    state.slot += spec.min_attestation_inclusion_delay;
    let chosen = op_pool.get_attestations(&state, &spec, |a| includable(&state, &spec, a));
    assert_eq!(chosen.len(), 1);
    assert_eq!(num_set_bits(&chosen[0].aggregation_bits), committees[0].len());
}

#[test]
fn attestation_get_max() {
    let small_step_size = 2;
    let big_step_size = 4;

    let (mut state, committees, spec) = attestation_test_state(big_step_size);

    let mut op_pool = OperationPool::new();

    let slot = state.slot - 1;

    let max_attestations = spec.max_attestations;
    let target_committee_size = spec.target_committee_size;

    for (index, committee) in committees.iter().enumerate() {
        assert_eq!(committee.len(), target_committee_size);
        for step_size in [small_step_size, big_step_size] {
            for i in (0..target_committee_size).step_by(step_size) {
                let att = signed_attestation(
                    committee,
                    index as u64,
                    i..i + step_size,
                    slot,
                    if i == 0 { None } else { Some(0) },
                );
                op_pool.insert_attestation(att, &state, &spec, add_points).unwrap();
            }
        }
    }

    let num_small = target_committee_size / small_step_size;
    let num_big = target_committee_size / big_step_size;

    assert_eq!(op_pool.attestations.buckets.len(), committees.len());
    assert_eq!(op_pool.num_attestations(), (num_small + num_big) * committees.len());
    assert!(op_pool.num_attestations() > max_attestations);

    state.slot += spec.min_attestation_inclusion_delay;
    let best_attestations =
        op_pool.get_attestations(&state, &spec, |a| includable(&state, &spec, a));
    assert_eq!(best_attestations.len(), max_attestations);

    // All the best attestations should be signed by at least `big_step_size` (4) validators.
    for att in &best_attestations {
        assert!(num_set_bits(&att.aggregation_bits) >= big_step_size);
    }
}

#[test]
fn disjoint_attestations_merge_into_one() {
    let (state, committees, spec) = attestation_test_state(1);
    let slot = state.slot - 1;
    let mut op_pool = OperationPool::new();
    let first = signed_attestation(&committees[0], 0, 0..3, slot, None);
    let second = signed_attestation(&committees[0], 0, 3..8, slot, None);
    op_pool.insert_attestation(first, &state, &spec, add_points).unwrap();
    op_pool.insert_attestation(second, &state, &spec, add_points).unwrap();
    assert_eq!(op_pool.num_attestations(), 1);
    let merged = &op_pool.attestations.buckets[0].attestations[0];
    assert_eq!(num_set_bits(&merged.aggregation_bits), 3 + 5);
    assert_eq!(merged, &signed_attestation(&committees[0], 0, 0..8, slot, None));
}

#[test]
fn overlapping_attestations_stay_apart() {
    let (state, committees, spec) = attestation_test_state(1);
    let slot = state.slot - 1;
    let mut op_pool = OperationPool::new();
    let first = signed_attestation(&committees[0], 0, 0..4, slot, None);
    let second = signed_attestation(&committees[0], 0, 2..6, slot, None);
    op_pool.insert_attestation(first.clone(), &state, &spec, add_points).unwrap();
    op_pool.insert_attestation(second.clone(), &state, &spec, add_points).unwrap();
    assert_eq!(op_pool.num_attestations(), 2);
    assert_eq!(op_pool.attestations.buckets[0].attestations, vec![first, second]);
}

#[test]
fn merge_goes_to_the_first_disjoint_entry_only() {
    let (state, committees, spec) = attestation_test_state(1);
    let slot = state.slot - 1;
    let mut op_pool = OperationPool::new();
    let a = signed_attestation(&committees[0], 0, 0..4, slot, None);
    let b = signed_attestation(&committees[0], 0, 2..6, slot, None);
    let c = signed_attestation(&committees[0], 0, 10..12, slot, None);
    for att in [a, b.clone(), c] {
        op_pool.insert_attestation(att, &state, &spec, add_points).unwrap();
    }
    let entries = &op_pool.attestations.buckets[0].attestations;
    assert_eq!(entries.len(), 2);
    assert_eq!(num_set_bits(&entries[0].aggregation_bits), 6);
    assert_eq!(entries[1], b);
}

#[test]
fn second_insert_after_a_merge_joins_the_bucket() {
    let (state, committees, spec) = attestation_test_state(1);
    let slot = state.slot - 1;
    let mut op_pool = OperationPool::new();
    let a = signed_attestation(&committees[0], 0, 0..1, slot, None);
    let b = signed_attestation(&committees[0], 0, 1..2, slot, None);
    op_pool.insert_attestation(a, &state, &spec, add_points).unwrap();
    op_pool.insert_attestation(b.clone(), &state, &spec, add_points).unwrap();
    assert_eq!(op_pool.num_attestations(), 1);
    op_pool.insert_attestation(b, &state, &spec, add_points).unwrap();
    assert_eq!(op_pool.num_attestations(), 2);
}

#[test]
fn forks_do_not_share_a_bucket() {
    let (mut state, committees, spec) = attestation_test_state(1);
    let slot = state.slot - 1;
    let mut op_pool = OperationPool::new();
    let first = signed_attestation(&committees[0], 0, 0..2, slot, None);
    let second = signed_attestation(&committees[0], 0, 2..4, slot, None);
    op_pool.insert_attestation(first, &state, &spec, add_points).unwrap();
    state.fork.current_version = [1, 0, 0, 0];
    op_pool.insert_attestation(second, &state, &spec, add_points).unwrap();
    assert_eq!(op_pool.attestations.buckets.len(), 2);
    assert_eq!(op_pool.num_attestations(), 2);

    // Only the attestation of the fork of the state is a candidate.
    state.slot += spec.min_attestation_inclusion_delay;
    let chosen = op_pool.get_attestations(&state, &spec, |a| includable(&state, &spec, a));
    assert_eq!(chosen.len(), 1);
    assert_eq!(chosen[0].aggregation_bits[2], true);
}

#[test]
fn prune_keeps_targets_within_one_epoch() {
    let (mut state, committees, spec) = attestation_test_state(1);
    let mut op_pool = OperationPool::new();
    for epoch in [997u64, 998, 999, 1000] {
        let att = signed_attestation(&committees[0], 0, 0..2, epoch * SLOTS_PER_EPOCH, None);
        op_pool.insert_attestation(att, &state, &spec, add_points).unwrap();
    }
    assert_eq!(op_pool.num_attestations(), 4);
    op_pool.prune_all(&state, &spec);
    let kept: Vec<u64> = op_pool
        .attestations
        .buckets
        .iter()
        .map(|bucket| bucket.attestations[0].data.target.epoch)
        .collect();
    assert_eq!(kept, vec![999, 1000]);
    state.slot += SLOTS_PER_EPOCH;
    op_pool.prune_all(&state, &spec);
    assert_eq!(op_pool.num_attestations(), 1);
}

#[test]
fn selection_is_greedy_and_earliest_wins_ties() {
    let (mut state, committees, spec) = attestation_test_state(1);
    let slot = state.slot - 1;
    let mut op_pool = OperationPool::new();
    // {0..3} and {2..5} overlap; {2..6} covers the most.
    let a = signed_attestation(&committees[0], 0, 0..3, slot, None);
    let b = signed_attestation(&committees[0], 0, 2..5, slot, None);
    let c = signed_attestation(&committees[0], 0, 2..6, slot, None);
    for att in [a.clone(), b.clone(), c.clone()] {
        op_pool.insert_attestation(att, &state, &spec, add_points).unwrap();
    }
    state.slot += spec.min_attestation_inclusion_delay;
    let chosen = op_pool.get_attestations(&state, &spec, |a| includable(&state, &spec, a));
    // First the four of `c`, then the two that `a` adds; `b` adds nothing.
    assert_eq!(chosen, vec![c, a.clone()]);

    // What the state has recorded is not counted again.
    state.current_epoch_attestations.push(PendingAttestation {
        aggregation_bits: a.aggregation_bits.clone(),
        data: a.data,
    });
    let chosen = op_pool.get_attestations(&state, &spec, |a| includable(&state, &spec, a));
    assert_eq!(chosen.len(), 1);
    assert_eq!(num_set_bits(&chosen[0].aggregation_bits), 4);
}

#[test]
fn aggregate_takes_the_signers_and_the_signatures_of_both() {
    let (state, committees, _) = attestation_test_state(1);
    let slot = state.slot - 1;
    let mut first = signed_attestation(&committees[0], 0, 0..3, slot, None);
    let second = signed_attestation(&committees[0], 0, 5..6, slot, None);
    assert!(first.signers_disjoint_from(&second));
    assert!(!first.signers_disjoint_from(&first));
    assert_eq!(first.num_signers(), 3);
    first.aggregate(&second, add_points);
    let mut expected = signed_attestation(&committees[0], 0, 0..3, slot, Some(5));
    assert_eq!(first, expected);
    assert!(first.same_as(&expected));
    expected.signature.is_empty = true;
    assert!(!first.same_as(&expected));

    // An aggregate is empty only if both parts are.
    let mut empty = AggregateSignature::new();
    assert!(empty.is_empty());
    let mut infinity = [0u8; 96];
    infinity[0] = 0xc0;
    assert_eq!(empty.as_raw().bytes, infinity);
    empty.add_aggregate(&AggregateSignature::new(), add_points);
    assert!(empty.is_empty());
    let point = member_signature(3);
    empty.add_aggregate(&AggregateSignature::from_point(point), |_, b| b);
    assert_eq!(empty, AggregateSignature { aggregate_signature: point, is_empty: false });
}

fn attestation_of(committee: &[usize], positions: &[usize], slot: u64) -> Attestation {
    let mut attestation = signed_attestation(committee, 0, 0..0, slot, None);
    for position in positions {
        attestation.aggregation_bits[*position] = true;
        attestation.signature.aggregate_signature = add_points(
            attestation.signature.aggregate_signature,
            member_signature(committee[*position]),
        );
    }
    attestation
}

#[test]
fn greedy_choice_is_near_the_best() {
    let (mut state, committees, spec) = attestation_test_state(1);
    let spec = ChainSpec { max_attestations: 2, ..spec };
    let slot = state.slot - 1;
    let mut op_pool = OperationPool::new();
    let s1 = attestation_of(&committees[0], &[0, 1, 2, 3, 7], slot);
    let s2 = attestation_of(&committees[0], &[0, 4, 5, 6, 8], slot);
    let g = attestation_of(&committees[0], &[1, 2, 3, 4, 5, 6], slot);
    for att in [s1.clone(), s2.clone(), g.clone()] {
        op_pool.insert_attestation(att, &state, &spec, add_points).unwrap();
    }
    // None is disjoint from another, so that all three are kept.
    assert_eq!(op_pool.num_attestations(), 3);
    state.slot += spec.min_attestation_inclusion_delay;
    let chosen = op_pool.get_attestations(&state, &spec, |a| includable(&state, &spec, a));
    // The best two credit nine members; the greedy choice takes the largest
    // first and credits eight, which is within a quarter of the best.
    assert_eq!(chosen, vec![g, s1]);
    let mut credited = vec![false; committees[0].len()];
    for attestation in &chosen {
        for (position, bit) in attestation.aggregation_bits.iter().enumerate() {
            credited[position] |= *bit;
        }
    }
    assert_eq!(num_set_bits(&credited), 8);
    assert!(4 * (9 - 8) <= 1 * 9);
}
