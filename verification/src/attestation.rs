//! What an attestation is worth to a block: the committee members that it would
//! newly credit, as the covering set of the greedy selection.
//!
//! A member is named by its committee, which a slot and a committee index
//! identify, and by its position in that committee.

use vstd::prelude::*;
use crate::bitfield::{
    bit_at, clone_bits, count_set, count_upto, difference, difference_inplace, num_set_bits,
};
use crate::max_cover::MaxCover;
use crate::types::{
    Attestation, AttestationView, BeaconState, BeaconStateView, ChainSpec, PendingAttestation,
    PendingAttestationView,
};

verus! {

/// A committee member: the slot and the index of the committee, and the
/// position in it.
pub type Member = (u64, u64, int);

/// The members of the committee at `slot` and `index` whose bit is set.
pub open spec fn committee_members(slot: u64, index: u64, bits: Seq<bool>) -> Set<Member> {
    Set::new(|m: Member| m.0 == slot && m.1 == index && bit_at(bits, m.2))
}

/// The members among the first `n` positions whose bit is set.
pub open spec fn committee_members_upto(slot: u64, index: u64, bits: Seq<bool>, n: nat) -> Set<
    Member,
> {
    Set::new(|m: Member| m.0 == slot && m.1 == index && m.2 < n && bit_at(bits, m.2))
}

/// The members among the first `n` positions are as many as the set bits there.
pub proof fn lemma_committee_members_upto(slot: u64, index: u64, bits: Seq<bool>, n: nat)
    ensures
        committee_members_upto(slot, index, bits, n).finite(),
        committee_members_upto(slot, index, bits, n).len() == count_upto(bits, n),
    decreases n,
{
    let now = committee_members_upto(slot, index, bits, n);
    if n == 0 {
        assert(now =~= Set::empty());
    } else {
        let before = committee_members_upto(slot, index, bits, (n - 1) as nat);
        lemma_committee_members_upto(slot, index, bits, (n - 1) as nat);
        if bit_at(bits, n - 1) {
            assert(now =~= before.insert((slot, index, n - 1)));
            assert(!before.contains((slot, index, n - 1)));
        } else {
            assert(now =~= before);
        }
    }
}

/// The members of a committee whose bit is set are as many as the set bits.
pub proof fn lemma_committee_members_len(slot: u64, index: u64, bits: Seq<bool>)
    ensures
        committee_members(slot, index, bits).finite(),
        committee_members(slot, index, bits).len() == count_set(bits),
{
    lemma_committee_members_upto(slot, index, bits, bits.len());
    assert(committee_members(slot, index, bits) =~= committee_members_upto(
        slot,
        index,
        bits,
        bits.len(),
    ));
}

/// Whether one of the first `n` recorded attestations of the committee at `slot`
/// and `index` has the bit at position `p` set.
pub open spec fn recorded_upto(
    recorded: Seq<PendingAttestationView>,
    slot: u64,
    index: u64,
    p: int,
    n: nat,
) -> bool
    decreases n,
{
    n > 0 && (recorded_upto(recorded, slot, index, p, (n - 1) as nat) || (recorded[n
        - 1].data.slot == slot && recorded[n - 1].data.index == index && bit_at(
        recorded[n - 1].aggregation_bits,
        p,
    )))
}

/// The signers of `bits` that none of the first `n` recorded attestations of
/// the same committee holds.
pub open spec fn fresh_upto(
    bits: Seq<bool>,
    recorded: Seq<PendingAttestationView>,
    slot: u64,
    index: u64,
    n: nat,
) -> Seq<bool> {
    Seq::new(bits.len(), |p: int| bits[p] && !recorded_upto(recorded, slot, index, p, n))
}

/// The attestations that the state has recorded for the target epoch of a
/// vote, if that is the current or the previous epoch.
pub open spec fn recorded_for(state: BeaconStateView, spec: ChainSpec, target_epoch: u64)
    -> Option<Seq<PendingAttestationView>> {
    if target_epoch == state.current_epoch(spec) {
        Some(state.current_epoch_attestations)
    } else if target_epoch == state.previous_epoch(spec) {
        Some(state.previous_epoch_attestations)
    } else {
        None
    }
}

/// The signers of an attestation that the state has not yet recorded as having
/// attested in their committee during the attestation's target epoch; nobody
/// where that epoch is neither the current nor the previous one.
pub open spec fn spec_earliest_attestation_validators(
    attestation: AttestationView,
    state: BeaconStateView,
    spec: ChainSpec,
) -> Seq<bool> {
    match recorded_for(state, spec, attestation.data.target.epoch) {
        Some(recorded) => fresh_upto(
            attestation.aggregation_bits,
            recorded,
            attestation.data.slot,
            attestation.data.index,
            recorded.len(),
        ),
        None => Seq::empty(),
    }
}

/// The signers of `bits` that no recorded attestation of the committee holds.
fn fresh_signers(bits: &Vec<bool>, recorded: &Vec<PendingAttestation>, slot: u64, index: u64) -> (r:
    Vec<bool>)
    ensures
        r@ == fresh_upto(
            bits@,
            recorded@.map_values(|a: PendingAttestation| a@),
            slot,
            index,
            recorded@.len(),
        ),
{
    let ghost views = recorded@.map_values(|a: PendingAttestation| a@);
    let mut fresh = clone_bits(bits);
    let mut i: usize = 0;
    assert(fresh@ =~= fresh_upto(bits@, views, slot, index, 0));
    while i < recorded.len()
        invariant
            i <= recorded@.len(),
            views == recorded@.map_values(|a: PendingAttestation| a@),
            fresh@ == fresh_upto(bits@, views, slot, index, i as nat),
        decreases recorded@.len() - i,
    {
        let existing = &recorded[i];
        assert(views[i as int] == existing@);
        if existing.data.slot == slot && existing.data.index == index {
            difference_inplace(&mut fresh, &existing.aggregation_bits);
        }
        assert(fresh@ =~= fresh_upto(bits@, views, slot, index, (i + 1) as nat));
        i += 1;
    }
    fresh
}

/// The signers of an attestation that the state has not yet recorded as having
/// attested in their committee during the attestation's target epoch.
pub fn earliest_attestation_validators(
    attestation: &Attestation,
    state: &BeaconState,
    spec: &ChainSpec,
) -> (r: Vec<bool>)
    requires
        spec.well_formed(),
    ensures
        r@ == spec_earliest_attestation_validators(attestation@, state@, *spec),
{
    let target_epoch = attestation.data.target.epoch;
    if target_epoch == state.current_epoch(spec) {
        fresh_signers(
            &attestation.aggregation_bits,
            &state.current_epoch_attestations,
            attestation.data.slot,
            attestation.data.index,
        )
    } else if target_epoch == state.previous_epoch(spec) {
        fresh_signers(
            &attestation.aggregation_bits,
            &state.previous_epoch_attestations,
            attestation.data.slot,
            attestation.data.index,
        )
    } else {
        Vec::new()
    }
}

/// The positions of one committee, as a covering set is handed out.
pub struct CommitteeBits {
    pub slot: u64,
    pub index: u64,
    pub bits: Vec<bool>,
}

/// An attestation with the committee members that it would newly credit.
pub struct AttMaxCover<'a> {
    /// The attestation.
    pub att: &'a Attestation,
    /// The signers that no attestation chosen before, and none recorded in the
    /// state, has credited.
    pub fresh_validators: Vec<bool>,
}

impl<'a> AttMaxCover<'a> {
    /// The attestation with the signers that it would newly credit.
    pub fn new(att: &'a Attestation, fresh_validators: Vec<bool>) -> (r: Self)
        ensures
            r.att@ == att@,
            r.fresh_validators@ == fresh_validators@,
    {
        AttMaxCover { att, fresh_validators }
    }
}

impl<'a> MaxCover for AttMaxCover<'a> {
    type Object = Attestation;

    type Set = CommitteeBits;

    type Element = Member;

    open spec fn set_elements(set: &CommitteeBits) -> Set<Member> {
        committee_members(set.slot, set.index, set.bits@)
    }

    open spec fn spec_covering_set(&self) -> Set<Member> {
        committee_members(self.att.data.slot, self.att.data.index, self.fresh_validators@)
    }

    open spec fn spec_object(&self) -> AttestationView {
        self.att@
    }

    proof fn lemma_covering_set_finite(&self) {
        lemma_committee_members_len(
            self.att.data.slot,
            self.att.data.index,
            self.fresh_validators@,
        );
    }

    fn object(&self) -> (o: Attestation) {
        self.att.clone()
    }

    fn covering_set(&self) -> (s: CommitteeBits) {
        CommitteeBits {
            slot: self.att.data.slot,
            index: self.att.data.index,
            bits: clone_bits(&self.fresh_validators),
        }
    }

    /// Only the attestations of the committee of `max_set` lose members: other
    /// committees have none in common with it.
    fn update_covering_set(&mut self, max_set: &CommitteeBits) {
        if self.att.data.slot == max_set.slot && self.att.data.index == max_set.index {
            difference_inplace(&mut self.fresh_validators, &max_set.bits);
        }
        assert(self.spec_covering_set() =~= old(self).spec_covering_set().difference(
            Self::set_elements(max_set),
        ));
    }

    fn score(&self) -> (n: usize) {
        proof {
            lemma_committee_members_len(
                self.att.data.slot,
                self.att.data.index,
                self.fresh_validators@,
            );
        }
        num_set_bits(&self.fresh_validators)
    }
}

} // verus!
