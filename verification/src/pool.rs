//! The operation pool: the four stores, and what enters, leaves and is chosen
//! from them.
//!
//! The rules that decide whether an operation is valid are not the pool's: the
//! functions that need a verdict take the function that gives it.

use vstd::prelude::*;
use crate::attestation_id::identity_on;
use crate::attestation_store::{
    attestation_views, bucket_stays, merge_target, selection, spec_candidates, store_with,
    targets_within_one_of, total_attestations, AttestationStore, BucketView,
};
use crate::attester_slashing_store::{
    entry_on, slashing_stays, slashings_of, spec_claims, with_slashing, AttesterSlashingStore,
    SlashingEntryView,
};
use crate::points::RawSignature;
use crate::sequences::{
    accepted, examined, first_accepted, lemma_accepted_agree, lemma_first_accepted_agree,
    retained, verdicts_of,
};
use crate::types::{
    Attestation, AttesterSlashing, BeaconState, BeaconStateView, ChainSpec, ProposerSlashing,
    Validator, VoluntaryExit,
};
use crate::validator_map::{
    answers_of, filter_limit_operations, prune_validator_hash_map, pruning_of, values_of,
    with_entry, ValidatorMap,
};

verus! {

/// Why an attestation does not enter the pool.
#[derive(Clone, Copy, Debug, PartialEq, Eq)]
pub enum AttestationValidationError {
    /// The attestation is not valid for the state.
    Invalid,
}

/// The operations that wait for a block.
#[derive(Debug, PartialEq, Eq)]
pub struct OperationPool {
    /// The attestations, by identity.
    pub attestations: AttestationStore,
    /// The attester slashings, by the identities of their two votes.
    pub attester_slashings: AttesterSlashingStore,
    /// The proposer slashings, by proposer.
    pub proposer_slashings: ValidatorMap<ProposerSlashing>,
    /// The voluntary exits, by validator.
    pub voluntary_exits: ValidatorMap<VoluntaryExit>,
}

/// Whether the proposer of a slashing can still be slashed: the registry knows
/// it, and it is not slashed.
pub open spec fn proposer_slashable(slashing: ProposerSlashing, state: BeaconStateView) -> bool {
    match state.validator(slashing.proposer_index) {
        Some(validator) => !validator.slashed,
        None => false,
    }
}

/// The proposers of a sequence of slashings.
pub open spec fn proposers_of(slashings: Seq<ProposerSlashing>) -> Seq<u64> {
    Seq::new(slashings.len(), |i: int| slashings[i].proposer_index)
}

/// The proposer slashings for a block on top of `state`: the first of the store
/// whose proposer can still be slashed, at most as many as a block may hold.
pub open spec fn spec_proposer_slashings(
    entries: Seq<(u64, ProposerSlashing)>,
    state: BeaconStateView,
    spec: ChainSpec,
) -> Seq<ProposerSlashing> {
    first_accepted(
        values_of(entries),
        verdicts_of(values_of(entries), |s: ProposerSlashing| proposer_slashable(s, state)),
        spec.max_proposer_slashings as nat,
    )
}

/// Whether the entry of a validator stays when the finalized state is `state`:
/// the registry does not know the validator, or it is neither slashed nor able
/// to withdraw.
pub open spec fn proposer_entry_stays<T>(entry: (u64, T), state: BeaconStateView, spec: ChainSpec)
    -> bool {
    match state.validator(entry.0) {
        Some(validator) => !(validator.slashed || validator.spec_is_withdrawable_at(
            state.current_epoch(spec),
        )),
        None => true,
    }
}

/// Whether the exit of a validator stays when the finalized state is `state`:
/// the registry does not know the validator, or it has not exited.
pub open spec fn exit_entry_stays<T>(entry: (u64, T), state: BeaconStateView, spec: ChainSpec)
    -> bool {
    match state.validator(entry.0) {
        Some(validator) => !validator.spec_is_exited_at(state.current_epoch(spec)),
        None => true,
    }
}

/// The proposer slashings of `stored` for a block on top of `state`: the first
/// of them whose proposer can still be slashed, at most as many as a block may
/// hold. Their proposers join `to_be_slashed`.
pub fn select_proposer_slashings(
    stored: &ValidatorMap<ProposerSlashing>,
    state: &BeaconState,
    spec: &ChainSpec,
    to_be_slashed: &mut Vec<u64>,
) -> (r: Vec<ProposerSlashing>)
    ensures
        r@ == spec_proposer_slashings(stored@, state@, *spec),
        r@.len() <= spec.max_proposer_slashings,
        final(to_be_slashed)@ == old(to_be_slashed)@ + proposers_of(r@),
{
    let stored = stored.values();
    let can_be_slashed = |slashing: &ProposerSlashing| -> (r: bool)
        ensures
            r == proposer_slashable(*slashing, state@),
        {
            match state.get_validator(slashing.proposer_index) {
                Some(validator) => !validator.slashed,
                None => false,
            }
        };
    let proposer_slashings = filter_limit_operations(
        &stored,
        can_be_slashed,
        spec.max_proposer_slashings,
    );
    proof {
        let limit = spec.max_proposer_slashings as nat;
        let verdicts = choose|verdicts: Seq<bool>|
            answers_of(can_be_slashed, stored@, verdicts, limit) && proposer_slashings@
                == first_accepted(stored@, verdicts, limit);
        let exact = verdicts_of(stored@, |s: ProposerSlashing| proposer_slashable(s, state@));
        assert forall|i: nat|
            i < stored@.len() && examined(stored@, verdicts, limit, i) implies verdicts[i as int]
            == exact[i as int] by {
            assert(call_ensures(can_be_slashed, (&stored@[i as int],), verdicts[i as int]));
        }
        lemma_first_accepted_agree(stored@, verdicts, exact, limit, stored@.len());
    }
    let mut i: usize = 0;
    while i < proposer_slashings.len()
        invariant
            i <= proposer_slashings@.len(),
            to_be_slashed@ == old(to_be_slashed)@ + proposers_of(proposer_slashings@.take(i as int)),
        decreases proposer_slashings@.len() - i,
    {
        to_be_slashed.push(proposer_slashings[i].proposer_index);
        assert(to_be_slashed@ =~= old(to_be_slashed)@ + proposers_of(
            proposer_slashings@.take(i + 1),
        ));
        i += 1;
    }
    assert(proposer_slashings@.take(proposer_slashings@.len() as int) =~= proposer_slashings@);
    proposer_slashings
}

/// Removes from `map` the proposer slashings of the validators that are slashed
/// or able to withdraw at the epoch of the finalized state.
pub fn prune_proposer_slashing_map(
    map: &mut ValidatorMap<ProposerSlashing>,
    finalized_state: &BeaconState,
    spec: &ChainSpec,
)
    requires
        spec.well_formed(),
    ensures
        final(map)@ == retained(
            old(map)@,
            |e: (u64, ProposerSlashing)| proposer_entry_stays(e, finalized_state@, *spec),
        ),
        old(map).well_formed() ==> final(map).well_formed(),
{
    let epoch = finalized_state.current_epoch(spec);
    let ghost before = map@;
    let prune_if = |validator: &Validator| -> (r: bool)
        ensures
            r == (validator.slashed || validator.spec_is_withdrawable_at(epoch)),
        { validator.slashed || validator.is_withdrawable_at(epoch) };
    prune_validator_hash_map(map, prune_if, finalized_state);
    proof {
        let verdicts = choose|verdicts: Seq<bool>|
            pruning_of(prune_if, before, finalized_state.validators@, verdicts) && map@
                == accepted(before, verdicts);
        let exact = verdicts_of(
            before,
            |e: (u64, ProposerSlashing)| proposer_entry_stays(e, finalized_state@, *spec),
        );
        assert forall|i: int| 0 <= i < before.len() implies verdicts[i] == exact[i] by {
            if before[i].0 < finalized_state.validators@.len() {
                assert(call_ensures(
                    prune_if,
                    (&finalized_state.validators@[before[i].0 as int],),
                    !verdicts[i],
                ));
            }
        }
        lemma_accepted_agree(before, verdicts, exact, before.len());
    }
}

/// The voluntary exits of `stored` for a block: the first of them that `verify`
/// accepts, at most as many as a block may hold.
pub fn select_voluntary_exits<F: Fn(&VoluntaryExit) -> bool>(
    stored: &ValidatorMap<VoluntaryExit>,
    spec: &ChainSpec,
    verify: F,
) -> (r: Vec<VoluntaryExit>)
    requires
        forall|exit: &VoluntaryExit| call_requires(verify, (exit,)),
    ensures
        exists|verdicts: Seq<bool>|
            answers_of(verify, values_of(stored@), verdicts, spec.max_voluntary_exits as nat)
                && r@ == first_accepted(
                values_of(stored@),
                verdicts,
                spec.max_voluntary_exits as nat,
            ),
        r@.len() <= spec.max_voluntary_exits,
{
    let stored = stored.values();
    filter_limit_operations(&stored, verify, spec.max_voluntary_exits)
}

/// Removes from `map` the exits of the validators that have exited by the epoch
/// of the finalized state.
pub fn prune_exit_map(
    map: &mut ValidatorMap<VoluntaryExit>,
    finalized_state: &BeaconState,
    spec: &ChainSpec,
)
    requires
        spec.well_formed(),
    ensures
        final(map)@ == retained(
            old(map)@,
            |e: (u64, VoluntaryExit)| exit_entry_stays(e, finalized_state@, *spec),
        ),
        old(map).well_formed() ==> final(map).well_formed(),
{
    let epoch = finalized_state.current_epoch(spec);
    let ghost before = map@;
    let prune_if = |validator: &Validator| -> (r: bool)
        ensures
            r == validator.spec_is_exited_at(epoch),
        { validator.is_exited_at(epoch) };
    prune_validator_hash_map(map, prune_if, finalized_state);
    proof {
        let verdicts = choose|verdicts: Seq<bool>|
            pruning_of(prune_if, before, finalized_state.validators@, verdicts) && map@
                == accepted(before, verdicts);
        let exact = verdicts_of(
            before,
            |e: (u64, VoluntaryExit)| exit_entry_stays(e, finalized_state@, *spec),
        );
        assert forall|i: int| 0 <= i < before.len() implies verdicts[i] == exact[i] by {
            if before[i].0 < finalized_state.validators@.len() {
                assert(call_ensures(
                    prune_if,
                    (&finalized_state.validators@[before[i].0 as int],),
                    !verdicts[i],
                ));
            }
        }
        lemma_accepted_agree(before, verdicts, exact, before.len());
    }
}

impl OperationPool {
    /// Whether each of the four stores is well formed; every function keeps
    /// them so.
    pub open spec fn well_formed(&self) -> bool {
        &&& self.attestations.well_formed()
        &&& self.attester_slashings.well_formed()
        &&& self.proposer_slashings.well_formed()
        &&& self.voluntary_exits.well_formed()
    }

    /// The empty pool.
    pub fn new() -> (r: Self)
        ensures
            r.well_formed(),
            r.attestations@.len() == 0,
            r.attester_slashings@.len() == 0,
            r.proposer_slashings@.len() == 0,
            r.voluntary_exits@.len() == 0,
    {
        OperationPool {
            attestations: AttestationStore::new(),
            attester_slashings: AttesterSlashingStore::new(),
            proposer_slashings: ValidatorMap::new(),
            voluntary_exits: ValidatorMap::new(),
        }
    }

    /// Inserts an attestation, which the caller has found valid, under its
    /// identity on the fork of `state`, aggregating it where that can be done:
    /// it is merged into the first attestation of its bucket that shares no
    /// signer with it, with `add_points` adding the two signature points; where
    /// there is none, it is dropped if the bucket holds its equal, and joins the
    /// bucket otherwise. The other stores stay as they are. Never fails.
    pub fn insert_attestation<F>(
        &mut self,
        attestation: Attestation,
        state: &BeaconState,
        spec: &ChainSpec,
        add_points: F,
    ) -> (r: Result<(), AttestationValidationError>) where
        F: FnOnce(RawSignature, RawSignature) -> RawSignature,

        requires
            old(self).well_formed(),
            forall|a: RawSignature, b: RawSignature| call_requires(add_points, (a, b)),
        ensures
            r is Ok,
            final(self).well_formed(),
            exists|sum: RawSignature|
                {
                    &&& final(self).attestations@ == store_with(
                        old(self).attestations@,
                        identity_on(attestation.data, state.fork, *spec),
                        attestation@,
                        sum,
                    )
                    &&& match merge_target(
                        old(self).attestations@,
                        identity_on(attestation.data, state.fork, *spec),
                        attestation@,
                    ) {
                        Some(entry) => call_ensures(
                            add_points,
                            (
                                entry.signature.aggregate_signature,
                                attestation.signature.aggregate_signature,
                            ),
                            sum,
                        ),
                        None => true,
                    }
                },
            final(self).attester_slashings@ == old(self).attester_slashings@,
            final(self).proposer_slashings@ == old(self).proposer_slashings@,
            final(self).voluntary_exits@ == old(self).voluntary_exits@,
    {
        self.attestations.insert(attestation, state, spec, add_points);
        Ok(())
    }

    /// The identities of the two votes of a slashing on the fork of `state`:
    /// the key of the slashing in its store.
    pub fn attester_slashing_id(slashing: &AttesterSlashing, state: &BeaconState, spec: &ChainSpec)
        -> (r: (crate::attestation_id::AttestationId, crate::attestation_id::AttestationId))
        ensures
            r.0@ == identity_on(slashing.attestation_1.data, state.fork, *spec),
            r.1@ == identity_on(slashing.attestation_2.data, state.fork, *spec),
    {
        crate::attester_slashing_store::attester_slashing_id(slashing, state, spec)
    }

    /// The number of attestations in the pool, those of one vote counted each.
    pub fn num_attestations(&self) -> (r: usize)
        ensures
            r == if total_attestations(self.attestations@) <= usize::MAX {
                total_attestations(self.attestations@)
            } else {
                usize::MAX as nat
            },
    {
        self.attestations.num_attestations()
    }

    /// The attestations for a block on top of `state`. The candidates are the
    /// attestations made under the domain of the previous or of the current
    /// epoch of the state; of those that `is_valid` accepts, the greedy maximum
    /// coverage of the committee members that the state has not recorded yet is
    /// returned, with at most as many attestations as a block may hold.
    pub fn get_attestations<F: Fn(&Attestation) -> bool>(
        &self,
        state: &BeaconState,
        spec: &ChainSpec,
        is_valid: F,
    ) -> (r: Vec<Attestation>)
        requires
            spec.well_formed(),
            forall|a: &Attestation| call_requires(is_valid, (a,)),
        ensures
            exists|verdicts: Seq<bool>|
                {
                    &&& verdicts.len() == spec_candidates(
                        self.attestations.buckets@,
                        state@,
                        *spec,
                    ).len()
                    &&& forall|i: int|
                        0 <= i < verdicts.len() ==> call_ensures(
                            is_valid,
                            (&spec_candidates(self.attestations.buckets@, state@, *spec)[i],),
                            #[trigger] verdicts[i],
                        )
                    &&& attestation_views(r@) == selection(
                        attestation_views(
                            accepted(
                                spec_candidates(self.attestations.buckets@, state@, *spec),
                                verdicts,
                            ),
                        ),
                        state@,
                        *spec,
                        spec.max_attestations as nat,
                    )
                },
            r@.len() <= spec.max_attestations,
    {
        self.attestations.get_attestations(state, spec, is_valid)
    }

    /// Removes the attestations that are too old for any block after the
    /// finalized state: those whose target is more than one epoch behind the
    /// epoch of that state.
    pub fn prune_attestations(&mut self, finalized_state: &BeaconState, spec: &ChainSpec)
        requires
            spec.well_formed(),
            old(self).well_formed(),
        ensures
            final(self).attestations@ == retained(
                old(self).attestations@,
                |b: BucketView| bucket_stays(b, finalized_state@.current_epoch(*spec)),
            ),
            targets_within_one_of(
                final(self).attestations@,
                finalized_state@.current_epoch(*spec),
            ),
            final(self).well_formed(),
            final(self).attester_slashings@ == old(self).attester_slashings@,
            final(self).proposer_slashings@ == old(self).proposer_slashings@,
            final(self).voluntary_exits@ == old(self).voluntary_exits@,
    {
        self.attestations.prune(finalized_state, spec);
    }

    /// Inserts a proposer slashing that `verify` accepts, in the place of the
    /// slashing that its proposer had, if any. What `verify` refuses does not
    /// enter, and the reason that `verify` gave is returned as it is.
    pub fn insert_proposer_slashing<E, F>(&mut self, slashing: ProposerSlashing, verify: F) -> (r:
        Result<(), E>) where F: FnOnce(&ProposerSlashing) -> Result<(), E>
        requires
            old(self).well_formed(),
            call_requires(verify, (&slashing,)),
        ensures
            call_ensures(verify, (&slashing,), r),
            final(self).well_formed(),
            final(self).proposer_slashings@ == if r is Ok {
                with_entry(old(self).proposer_slashings@, slashing.proposer_index, slashing)
            } else {
                old(self).proposer_slashings@
            },
            final(self).attestations@ == old(self).attestations@,
            final(self).attester_slashings@ == old(self).attester_slashings@,
            final(self).voluntary_exits@ == old(self).voluntary_exits@,
    {
        let verdict = verify(&slashing);
        if verdict.is_ok() {
            self.proposer_slashings.insert(slashing.proposer_index, slashing);
        }
        verdict
    }

    /// Inserts an attester slashing that `verify` accepts, under the identities
    /// of its two votes on the fork of `state`, in the place of the slashing
    /// that was there, if any. What `verify` refuses does not enter, and the
    /// reason that `verify` gave is returned as it is.
    pub fn insert_attester_slashing<E, F>(
        &mut self,
        slashing: AttesterSlashing,
        state: &BeaconState,
        spec: &ChainSpec,
        verify: F,
    ) -> (r: Result<(), E>) where F: FnOnce(&AttesterSlashing) -> Result<(), E>
        requires
            old(self).well_formed(),
            call_requires(verify, (&slashing,)),
        ensures
            call_ensures(verify, (&slashing,), r),
            final(self).well_formed(),
            final(self).attester_slashings@ == if r is Ok {
                with_slashing(
                    old(self).attester_slashings@,
                    entry_on(slashing@, state.fork, *spec),
                )
            } else {
                old(self).attester_slashings@
            },
            final(self).attestations@ == old(self).attestations@,
            final(self).proposer_slashings@ == old(self).proposer_slashings@,
            final(self).voluntary_exits@ == old(self).voluntary_exits@,
    {
        let verdict = verify(&slashing);
        if verdict.is_ok() {
            self.attester_slashings.insert(slashing, state, spec);
        }
        verdict
    }

    /// The proposer and attester slashings for a block on top of `state`, each
    /// kind at most as many as a block may hold, in the order of the stores.
    ///
    /// Both are chosen together, so that no validator is slashed twice in one
    /// block. First the proposer slashings whose proposer can still be slashed.
    /// Then the attester slashings that were made on the fork of the state and
    /// slash a validator that neither the state, nor a chosen proposer slashing,
    /// nor an attester slashing chosen before slashes.
    pub fn get_slashings(&self, state: &BeaconState, spec: &ChainSpec) -> (r: (
        Vec<ProposerSlashing>,
        Vec<AttesterSlashing>,
    ))
        ensures
            r.0@ == spec_proposer_slashings(self.proposer_slashings@, state@, *spec),
            Seq::new(r.1@.len(), |k: int| r.1@[k]@) == slashings_of(
                spec_claims(self.attester_slashings@, state@, *spec, proposers_of(r.0@)),
            ),
            r.0@.len() <= spec.max_proposer_slashings,
            r.1@.len() <= spec.max_attester_slashings,
    {
        let mut to_be_slashed: Vec<u64> = Vec::new();
        let proposer_slashings = select_proposer_slashings(
            &self.proposer_slashings,
            state,
            spec,
            &mut to_be_slashed,
        );
        assert(to_be_slashed@ =~= proposers_of(proposer_slashings@));
        let attester_slashings = self.attester_slashings.select(state, spec, &mut to_be_slashed);
        (proposer_slashings, attester_slashings)
    }

    /// Removes the proposer slashings of the validators that are slashed or able
    /// to withdraw at the epoch of the finalized state. A slashing whose
    /// proposer the state does not know stays.
    pub fn prune_proposer_slashings(&mut self, finalized_state: &BeaconState, spec: &ChainSpec)
        requires
            spec.well_formed(),
            old(self).well_formed(),
        ensures
            final(self).proposer_slashings@ == retained(
                old(self).proposer_slashings@,
                |e: (u64, ProposerSlashing)| proposer_entry_stays(e, finalized_state@, *spec),
            ),
            final(self).well_formed(),
            final(self).attestations@ == old(self).attestations@,
            final(self).attester_slashings@ == old(self).attester_slashings@,
            final(self).voluntary_exits@ == old(self).voluntary_exits@,
    {
        prune_proposer_slashing_map(&mut self.proposer_slashings, finalized_state, spec);
    }

    /// Removes the attester slashings that were made on another fork than that
    /// of the finalized state, and those that slash no validator that is neither
    /// slashed nor able to withdraw at the epoch of that state.
    pub fn prune_attester_slashings(&mut self, finalized_state: &BeaconState, spec: &ChainSpec)
        requires
            spec.well_formed(),
            old(self).well_formed(),
        ensures
            final(self).attester_slashings@ == retained(
                old(self).attester_slashings@,
                |e: SlashingEntryView| slashing_stays(e, finalized_state@, *spec),
            ),
            final(self).well_formed(),
            final(self).attestations@ == old(self).attestations@,
            final(self).proposer_slashings@ == old(self).proposer_slashings@,
            final(self).voluntary_exits@ == old(self).voluntary_exits@,
    {
        self.attester_slashings.prune(finalized_state, spec);
    }

    /// Inserts a voluntary exit that `verify` accepts, in the place of the exit
    /// that its validator had, if any. What `verify` refuses does not enter, and
    /// the reason that `verify` gave is returned as it is.
    pub fn insert_voluntary_exit<E, F>(&mut self, exit: VoluntaryExit, verify: F) -> (r: Result<
        (),
        E,
    >) where F: FnOnce(&VoluntaryExit) -> Result<(), E>
        requires
            old(self).well_formed(),
            call_requires(verify, (&exit,)),
        ensures
            call_ensures(verify, (&exit,), r),
            final(self).well_formed(),
            final(self).voluntary_exits@ == if r is Ok {
                with_entry(old(self).voluntary_exits@, exit.validator_index, exit)
            } else {
                old(self).voluntary_exits@
            },
            final(self).attestations@ == old(self).attestations@,
            final(self).attester_slashings@ == old(self).attester_slashings@,
            final(self).proposer_slashings@ == old(self).proposer_slashings@,
    {
        let verdict = verify(&exit);
        if verdict.is_ok() {
            self.voluntary_exits.insert(exit.validator_index, exit);
        }
        verdict
    }

    /// The voluntary exits for a block: the first of the store that `verify`
    /// accepts, at most as many as a block may hold. `verify` is asked about an
    /// exit only while fewer than that were accepted.
    pub fn get_voluntary_exits<F: Fn(&VoluntaryExit) -> bool>(&self, spec: &ChainSpec, verify: F)
        -> (r: Vec<VoluntaryExit>)
        requires
            forall|exit: &VoluntaryExit| call_requires(verify, (exit,)),
        ensures
            exists|verdicts: Seq<bool>|
                answers_of(
                    verify,
                    values_of(self.voluntary_exits@),
                    verdicts,
                    spec.max_voluntary_exits as nat,
                ) && r@ == first_accepted(
                    values_of(self.voluntary_exits@),
                    verdicts,
                    spec.max_voluntary_exits as nat,
                ),
            r@.len() <= spec.max_voluntary_exits,
    {
        select_voluntary_exits(&self.voluntary_exits, spec, verify)
    }

    /// Removes the exits of the validators that have exited by the epoch of the
    /// finalized state. An exit whose validator the state does not know stays.
    pub fn prune_voluntary_exits(&mut self, finalized_state: &BeaconState, spec: &ChainSpec)
        requires
            spec.well_formed(),
            old(self).well_formed(),
        ensures
            final(self).voluntary_exits@ == retained(
                old(self).voluntary_exits@,
                |e: (u64, VoluntaryExit)| exit_entry_stays(e, finalized_state@, *spec),
            ),
            final(self).well_formed(),
            final(self).attestations@ == old(self).attestations@,
            final(self).attester_slashings@ == old(self).attester_slashings@,
            final(self).proposer_slashings@ == old(self).proposer_slashings@,
    {
        prune_exit_map(&mut self.voluntary_exits, finalized_state, spec);
    }

    /// Prunes the four stores for the finalized state, in this order:
    /// attestations, proposer slashings, attester slashings, voluntary exits.
    pub fn prune_all(&mut self, finalized_state: &BeaconState, spec: &ChainSpec)
        requires
            spec.well_formed(),
            old(self).well_formed(),
        ensures
            final(self).well_formed(),
            final(self).attestations@ == retained(
                old(self).attestations@,
                |b: BucketView| bucket_stays(b, finalized_state@.current_epoch(*spec)),
            ),
            targets_within_one_of(
                final(self).attestations@,
                finalized_state@.current_epoch(*spec),
            ),
            final(self).proposer_slashings@ == retained(
                old(self).proposer_slashings@,
                |e: (u64, ProposerSlashing)| proposer_entry_stays(e, finalized_state@, *spec),
            ),
            final(self).attester_slashings@ == retained(
                old(self).attester_slashings@,
                |e: SlashingEntryView| slashing_stays(e, finalized_state@, *spec),
            ),
            final(self).voluntary_exits@ == retained(
                old(self).voluntary_exits@,
                |e: (u64, VoluntaryExit)| exit_entry_stays(e, finalized_state@, *spec),
            ),
    {
        self.prune_attestations(finalized_state, spec);
        self.prune_proposer_slashings(finalized_state, spec);
        self.prune_attester_slashings(finalized_state, spec);
        self.prune_voluntary_exits(finalized_state, spec);
    }
}

} // verus!
