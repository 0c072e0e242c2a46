//! The attester slashings of the pool: at most one per pair of identities of the
//! two conflicting votes, in the order in which the pairs first appeared.

use vstd::prelude::*;
use crate::attestation_id::{identity_on, AttestationId};
use crate::sequences::{accepted, accepted_upto, retained, verdicts_of};
use crate::slashable::{
    get_slashable_indices_modular, law_slashable_indices, spec_slashable_indices,
    SlashableIndicesError,
};
use crate::types::{
    AttesterSlashing, AttesterSlashingView, BeaconState, BeaconStateView, ChainSpec, Fork,
};

verus! {

/// An attester slashing under the identities of its two votes.
#[derive(Debug, PartialEq, Eq)]
pub struct SlashingEntry {
    pub id_1: AttestationId,
    pub id_2: AttestationId,
    pub slashing: AttesterSlashing,
}

/// The value of a [`SlashingEntry`].
pub struct SlashingEntryView {
    pub id_1: Seq<u8>,
    pub id_2: Seq<u8>,
    pub slashing: AttesterSlashingView,
}

impl View for SlashingEntry {
    type V = SlashingEntryView;

    open spec fn view(&self) -> SlashingEntryView {
        SlashingEntryView { id_1: self.id_1@, id_2: self.id_2@, slashing: self.slashing@ }
    }
}

/// The attester slashings of the pool.
#[derive(Debug, PartialEq, Eq)]
pub struct AttesterSlashingStore {
    pub entries: Vec<SlashingEntry>,
}

impl View for AttesterSlashingStore {
    type V = Seq<SlashingEntryView>;

    open spec fn view(&self) -> Seq<SlashingEntryView> {
        Seq::new(self.entries@.len(), |i: int| self.entries@[i]@)
    }
}

/// A slashing and the validators that it newly slashes.
pub type Claim = (AttesterSlashingView, Seq<u64>);

/// From `start` on, the first entry of the pair of identities; `-1` if there is
/// none.
pub open spec fn pair_index_from(
    entries: Seq<SlashingEntryView>,
    id_1: Seq<u8>,
    id_2: Seq<u8>,
    start: int,
) -> int
    decreases entries.len() - start,
{
    if start < 0 || start >= entries.len() {
        -1
    } else if entries[start].id_1 == id_1 && entries[start].id_2 == id_2 {
        start
    } else {
        pair_index_from(entries, id_1, id_2, start + 1)
    }
}

/// The first entry of the pair of identities; `-1` if there is none.
pub open spec fn pair_index(entries: Seq<SlashingEntryView>, id_1: Seq<u8>, id_2: Seq<u8>) -> int {
    pair_index_from(entries, id_1, id_2, 0)
}

/// No pair of identities has two entries.
pub open spec fn pairs_distinct(entries: Seq<SlashingEntryView>) -> bool {
    forall|i: int, j: int|
        0 <= i < j < entries.len() ==> !((#[trigger] entries[i]).id_1 == (
        #[trigger] entries[j]).id_1 && entries[i].id_2 == entries[j].id_2)
}

/// The entry of a slashing on a fork: under the identities of its two votes.
pub open spec fn entry_on(slashing: AttesterSlashingView, fork: Fork, spec: ChainSpec)
    -> SlashingEntryView {
    SlashingEntryView {
        id_1: identity_on(slashing.attestation_1.data, fork, spec),
        id_2: identity_on(slashing.attestation_2.data, fork, spec),
        slashing: slashing,
    }
}

/// The entries after `entry` was inserted: in the place of the entry that its
/// pair of identities had, or else at the end.
pub open spec fn with_slashing(entries: Seq<SlashingEntryView>, entry: SlashingEntryView) -> Seq<
    SlashingEntryView,
> {
    let i = pair_index(entries, entry.id_1, entry.id_2);
    if i >= 0 {
        entries.update(i, entry)
    } else {
        entries.push(entry)
    }
}

/// Whether the entry was made on the fork of the state: its identities are
/// those of its two votes on that fork.
pub open spec fn fork_matches(entry: SlashingEntryView, fork: Fork, spec: ChainSpec) -> bool {
    entry.id_1 == identity_on(entry.slashing.attestation_1.data, fork, spec) && entry.id_2
        == identity_on(entry.slashing.attestation_2.data, fork, spec)
}

/// From `start` on, the first `limit` slashings of the fork of `state` that
/// slash a validator that neither the state nor `claimed` nor a slashing chosen
/// before slashes; each with the validators that it newly slashes.
pub open spec fn claims_from(
    entries: Seq<SlashingEntryView>,
    state: BeaconStateView,
    spec: ChainSpec,
    claimed: Seq<u64>,
    limit: nat,
    start: int,
) -> Seq<Claim>
    decreases entries.len() - start,
{
    if start < 0 || start >= entries.len() || limit == 0 {
        Seq::empty()
    } else if fork_matches(entries[start], state.fork, spec) {
        match spec_slashable_indices(entries[start].slashing, state.validators, claimed, None) {
            Ok(indices) => seq![(entries[start].slashing, indices)] + claims_from(
                entries,
                state,
                spec,
                claimed + indices,
                (limit - 1) as nat,
                start + 1,
            ),
            Err(_) => claims_from(entries, state, spec, claimed, limit, start + 1),
        }
    } else {
        claims_from(entries, state, spec, claimed, limit, start + 1)
    }
}

/// The slashings chosen for a block on top of `state`, each with the validators
/// that it newly slashes, where `claimed` are slashed by the block already.
pub open spec fn spec_claims(
    entries: Seq<SlashingEntryView>,
    state: BeaconStateView,
    spec: ChainSpec,
    claimed: Seq<u64>,
) -> Seq<Claim> {
    claims_from(entries, state, spec, claimed, spec.max_attester_slashings as nat, 0)
}

/// The slashings of a sequence of claims.
pub open spec fn slashings_of(claims: Seq<Claim>) -> Seq<AttesterSlashingView> {
    Seq::new(claims.len(), |k: int| claims[k].0)
}

/// What is slashed before the `k`-th claim: what was claimed at the start and
/// the claims of the slashings before it.
pub open spec fn claimed_before(claims: Seq<Claim>, claimed: Seq<u64>, k: nat) -> Seq<u64>
    decreases k,
{
    if k == 0 {
        claimed
    } else {
        claimed_before(claims, claimed, (k - 1) as nat) + claims[k - 1].1
    }
}

/// Whether the entry stays when the finalized state is `state`: it was made on
/// the fork of that state, and it slashes a validator that is neither slashed
/// nor able to withdraw.
pub open spec fn slashing_stays(entry: SlashingEntryView, state: BeaconStateView, spec: ChainSpec)
    -> bool {
    fork_matches(entry, state.fork, spec) && spec_slashable_indices(
        entry.slashing,
        state.validators,
        Seq::empty(),
        Some(state.current_epoch(spec)),
    ) is Ok
}

/// What `pair_index_from` finds is the first entry of that pair.
pub proof fn lemma_pair_index_from(
    entries: Seq<SlashingEntryView>,
    id_1: Seq<u8>,
    id_2: Seq<u8>,
    start: int,
)
    requires
        0 <= start <= entries.len(),
    ensures
        pair_index_from(entries, id_1, id_2, start) == -1 || (start <= pair_index_from(
            entries,
            id_1,
            id_2,
            start,
        ) < entries.len() && entries[pair_index_from(entries, id_1, id_2, start)].id_1 == id_1
            && entries[pair_index_from(entries, id_1, id_2, start)].id_2 == id_2),
        forall|j: int|
            start <= j < entries.len() && (pair_index_from(entries, id_1, id_2, start) == -1 || j
                < pair_index_from(entries, id_1, id_2, start)) ==> !((#[trigger] entries[j]).id_1
                == id_1 && entries[j].id_2 == id_2),
    decreases entries.len() - start,
{
    if start < entries.len() && !(entries[start].id_1 == id_1 && entries[start].id_2 == id_2) {
        lemma_pair_index_from(entries, id_1, id_2, start + 1);
    }
}

/// An insertion keeps the pairs distinct.
pub proof fn lemma_with_slashing(entries: Seq<SlashingEntryView>, entry: SlashingEntryView)
    requires
        pairs_distinct(entries),
    ensures
        pairs_distinct(with_slashing(entries, entry)),
{
    lemma_pair_index_from(entries, entry.id_1, entry.id_2, 0);
}

/// What the claims of the rest of a run were made on top of.
proof fn lemma_claimed_before_shift(first: Claim, rest: Seq<Claim>, claimed: Seq<u64>, k: nat)
    requires
        k <= rest.len(),
    ensures
        claimed_before(rest, claimed + first.1, k) == claimed_before(
            seq![first] + rest,
            claimed,
            k + 1,
        ),
    decreases k,
{
    let whole = seq![first] + rest;
    if k == 0 {
        assert(claimed_before(whole, claimed, 1) == claimed_before(whole, claimed, 0) + whole[0].1);
    } else {
        lemma_claimed_before_shift(first, rest, claimed, (k - 1) as nat);
        assert(whole[k as int] == rest[k - 1]);
    }
}

/// No chosen slashing is redundant: each slashes at least one validator, and
/// the validators that it slashes are exactly those that signed both of its
/// attestations and that neither the state, nor what was claimed at the start,
/// nor a slashing chosen before it slashes. No more than `limit` are chosen.
pub proof fn law_no_redundant_slashing(
    entries: Seq<SlashingEntryView>,
    state: BeaconStateView,
    spec: ChainSpec,
    claimed: Seq<u64>,
    limit: nat,
    start: int,
    k: nat,
)
    requires
        0 <= start <= entries.len(),
        k < claims_from(entries, state, spec, claimed, limit, start).len(),
    ensures
        claims_from(entries, state, spec, claimed, limit, start).len() <= limit,
        claims_from(entries, state, spec, claimed, limit, start)[k as int].1.len() > 0,
        spec_slashable_indices(
            claims_from(entries, state, spec, claimed, limit, start)[k as int].0,
            state.validators,
            claimed_before(claims_from(entries, state, spec, claimed, limit, start), claimed, k),
            None,
        ) == Ok::<Seq<u64>, SlashableIndicesError>(
            claims_from(entries, state, spec, claimed, limit, start)[k as int].1,
        ),
        forall|x: u64|
            #[trigger] claims_from(entries, state, spec, claimed, limit, start)[k as int].1.contains(
                x,
            ) ==> !claimed_before(
                claims_from(entries, state, spec, claimed, limit, start),
                claimed,
                k,
            ).contains(x),
    decreases entries.len() - start,
{
    let claims = claims_from(entries, state, spec, claimed, limit, start);
    lemma_claims_len(entries, state, spec, claimed, limit, start);
    if start < entries.len() && limit > 0 {
        let found = spec_slashable_indices(
            entries[start].slashing,
            state.validators,
            claimed,
            None,
        );
        if fork_matches(entries[start], state.fork, spec) && found is Ok {
            let indices = found->Ok_0;
            let first = (entries[start].slashing, indices);
            let rest = claims_from(
                entries,
                state,
                spec,
                claimed + indices,
                (limit - 1) as nat,
                start + 1,
            );
            assert(claims == seq![first] + rest);
            if k == 0 {
                law_slashable_indices(entries[start].slashing, state.validators, claimed, None);
            } else {
                law_no_redundant_slashing(
                    entries,
                    state,
                    spec,
                    claimed + indices,
                    (limit - 1) as nat,
                    start + 1,
                    (k - 1) as nat,
                );
                lemma_claimed_before_shift(first, rest, claimed, (k - 1) as nat);
                assert(claims[k as int] == rest[k - 1]);
            }
        } else {
            law_no_redundant_slashing(entries, state, spec, claimed, limit, start + 1, k);
        }
    }
    let before = claimed_before(claims, claimed, k);
    law_slashable_indices(claims[k as int].0, state.validators, before, None);
}

/// No more than `limit` slashings are chosen.
pub proof fn lemma_claims_len(
    entries: Seq<SlashingEntryView>,
    state: BeaconStateView,
    spec: ChainSpec,
    claimed: Seq<u64>,
    limit: nat,
    start: int,
)
    requires
        0 <= start <= entries.len(),
    ensures
        claims_from(entries, state, spec, claimed, limit, start).len() <= limit,
    decreases entries.len() - start,
{
    if start < entries.len() && limit > 0 {
        let found = spec_slashable_indices(
            entries[start].slashing,
            state.validators,
            claimed,
            None,
        );
        if fork_matches(entries[start], state.fork, spec) && found is Ok {
            lemma_claims_len(
                entries,
                state,
                spec,
                claimed + found->Ok_0,
                (limit - 1) as nat,
                start + 1,
            );
        } else {
            lemma_claims_len(entries, state, spec, claimed, limit, start + 1);
        }
    }
}

/// No entry has the pair of identities.
pub open spec fn pair_absent(entries: Seq<SlashingEntryView>, id_1: Seq<u8>, id_2: Seq<u8>) -> bool {
    forall|i: int|
        0 <= i < entries.len() ==> !((#[trigger] entries[i]).id_1 == id_1 && entries[i].id_2
            == id_2)
}

/// A pair that none of the first `n` entries has is the pair of no accepted
/// entry.
proof fn lemma_accepted_pair_absent(
    entries: Seq<SlashingEntryView>,
    verdicts: Seq<bool>,
    n: nat,
    id_1: Seq<u8>,
    id_2: Seq<u8>,
)
    requires
        n <= entries.len(),
        forall|i: int|
            0 <= i < n ==> !((#[trigger] entries[i]).id_1 == id_1 && entries[i].id_2 == id_2),
    ensures
        pair_absent(accepted_upto(entries, verdicts, n), id_1, id_2),
    decreases n,
{
    if n > 0 {
        lemma_accepted_pair_absent(entries, verdicts, (n - 1) as nat, id_1, id_2);
    }
}

/// The accepted entries of a store have distinct pairs.
proof fn lemma_accepted_pairs_distinct(entries: Seq<SlashingEntryView>, verdicts: Seq<bool>, n: nat)
    requires
        pairs_distinct(entries),
        n <= entries.len(),
    ensures
        pairs_distinct(accepted_upto(entries, verdicts, n)),
        accepted_upto(entries, verdicts, n).len() <= n,
    decreases n,
{
    if n > 0 {
        lemma_accepted_pairs_distinct(entries, verdicts, (n - 1) as nat);
        lemma_accepted_pair_absent(
            entries,
            verdicts,
            (n - 1) as nat,
            entries[n - 1].id_1,
            entries[n - 1].id_2,
        );
    }
}

/// The identities of the two votes of a slashing on the fork of `state`.
pub fn attester_slashing_id(slashing: &AttesterSlashing, state: &BeaconState, spec: &ChainSpec) -> (r:
    (AttestationId, AttestationId))
    ensures
        r.0@ == identity_on(slashing.attestation_1.data, state.fork, *spec),
        r.1@ == identity_on(slashing.attestation_2.data, state.fork, *spec),
{
    (
        AttestationId::from_data(&slashing.attestation_1.data, state, spec),
        AttestationId::from_data(&slashing.attestation_2.data, state, spec),
    )
}

impl Clone for AttesterSlashingStore {
    fn clone(&self) -> (r: Self)
        ensures
            r@ == self@,
    {
        let mut entries: Vec<SlashingEntry> = Vec::new();
        let mut i: usize = 0;
        while i < self.entries.len()
            invariant
                i <= self.entries@.len(),
                entries@.len() == i,
                forall|j: int| 0 <= j < i ==> (#[trigger] entries@[j])@ == self.entries@[j]@,
            decreases self.entries@.len() - i,
        {
            let entry = &self.entries[i];
            entries.push(
                SlashingEntry {
                    id_1: entry.id_1.clone(),
                    id_2: entry.id_2.clone(),
                    slashing: entry.slashing.clone(),
                },
            );
            i += 1;
        }
        let r = AttesterSlashingStore { entries };
        assert(r@ =~= self@);
        r
    }
}

impl AttesterSlashingStore {
    /// No pair of identities has two entries.
    pub open spec fn well_formed(&self) -> bool {
        pairs_distinct(self@)
    }

    /// The empty store.
    pub fn new() -> (r: Self)
        ensures
            r@ == Seq::<SlashingEntryView>::empty(),
            r.well_formed(),
    {
        let r = AttesterSlashingStore { entries: Vec::new() };
        assert(r@ =~= Seq::<SlashingEntryView>::empty());
        r
    }

    /// The number of slashings.
    pub fn len(&self) -> (r: usize)
        ensures
            r == self@.len(),
    {
        self.entries.len()
    }

    /// Whether both stores hold the same slashings in the same order.
    pub fn same_as(&self, other: &Self) -> (r: bool)
        ensures
            r == (self@ == other@),
    {
        if self.entries.len() != other.entries.len() {
            assert(self@.len() != other@.len());
            return false;
        }
        let mut i: usize = 0;
        while i < self.entries.len()
            invariant
                i <= self.entries@.len(),
                self.entries@.len() == other.entries@.len(),
                forall|j: int| 0 <= j < i ==> self@[j] == other@[j],
            decreases self.entries@.len() - i,
        {
            let a = &self.entries[i];
            let b = &other.entries[i];
            if !(a.id_1.same_as(&b.id_1) && a.id_2.same_as(&b.id_2) && a.slashing.same_as(
                &b.slashing,
            )) {
                assert(self@[i as int] != other@[i as int]);
                return false;
            }
            i += 1;
        }
        assert(self@ =~= other@);
        true
    }

    /// Whether no pair of identities has two entries.
    pub fn is_well_formed(&self) -> (r: bool)
        ensures
            r == self.well_formed(),
    {
        let mut i: usize = 0;
        while i < self.entries.len()
            invariant
                i <= self.entries@.len(),
                self@.len() == self.entries@.len(),
                forall|a: int, b: int|
                    0 <= a < b < i ==> !((#[trigger] self@[a]).id_1 == (#[trigger] self@[b]).id_1
                        && self@[a].id_2 == self@[b].id_2),
            decreases self.entries@.len() - i,
        {
            let mut j: usize = 0;
            while j < i
                invariant
                    j <= i,
                    i < self.entries@.len(),
                    self@.len() == self.entries@.len(),
                    forall|a: int|
                        0 <= a < j ==> !((#[trigger] self@[a]).id_1 == self@[i as int].id_1
                            && self@[a].id_2 == self@[i as int].id_2),
                decreases i - j,
            {
                if self.entries[j].id_1.same_as(&self.entries[i].id_1) && self.entries[j].id_2.same_as(
                    &self.entries[i].id_2,
                ) {
                    assert(self@[j as int].id_1 == self@[i as int].id_1 && self@[j as int].id_2
                        == self@[i as int].id_2);
                    return false;
                }
                j += 1;
            }
            i += 1;
        }
        true
    }

    /// The position of the entry of the pair of identities, if there is one.
    fn position(&self, id_1: &AttestationId, id_2: &AttestationId) -> (r: Option<usize>)
        ensures
            match r {
                Some(i) => i == pair_index(self@, id_1@, id_2@) && i < self.entries@.len(),
                None => pair_index(self@, id_1@, id_2@) == -1,
            },
    {
        let mut i: usize = 0;
        while i < self.entries.len()
            invariant
                i <= self.entries@.len(),
                self@.len() == self.entries@.len(),
                pair_index(self@, id_1@, id_2@) == pair_index_from(self@, id_1@, id_2@, i as int),
            decreases self.entries@.len() - i,
        {
            if self.entries[i].id_1.same_as(id_1) && self.entries[i].id_2.same_as(id_2) {
                return Some(i);
            }
            i += 1;
        }
        None
    }

    /// Puts `slashing` under the identities of its two votes on the fork of
    /// `state`, in the place of the slashing that was there, if any.
    pub fn insert(&mut self, slashing: AttesterSlashing, state: &BeaconState, spec: &ChainSpec)
        requires
            old(self).well_formed(),
        ensures
            final(self)@ == with_slashing(old(self)@, entry_on(slashing@, state.fork, *spec)),
            final(self).well_formed(),
    {
        let (id_1, id_2) = attester_slashing_id(&slashing, state, spec);
        let ghost before = self@;
        let ghost entry = entry_on(slashing@, state.fork, *spec);
        proof {
            lemma_with_slashing(before, entry);
        }
        match self.position(&id_1, &id_2) {
            Some(i) => {
                self.entries[i] = SlashingEntry { id_1, id_2, slashing };
                assert(self@ =~= with_slashing(before, entry));
            },
            None => {
                self.entries.push(SlashingEntry { id_1, id_2, slashing });
                assert(self@ =~= with_slashing(before, entry));
            },
        }
    }

    /// The slashings for a block on top of `state`, at most as many as a block
    /// may hold, in the order of the store. A slashing is chosen if it was made
    /// on the fork of the state and slashes a validator that neither the state,
    /// nor `to_be_slashed`, nor a slashing chosen before it slashes; the
    /// validators that it newly slashes then join `to_be_slashed`.
    pub fn select(&self, state: &BeaconState, spec: &ChainSpec, to_be_slashed: &mut Vec<u64>) -> (r:
        Vec<AttesterSlashing>)
        ensures
            Seq::new(r@.len(), |k: int| r@[k]@) == slashings_of(
                spec_claims(self@, state@, *spec, old(to_be_slashed)@),
            ),
            final(to_be_slashed)@ == claimed_before(
                spec_claims(self@, state@, *spec, old(to_be_slashed)@),
                old(to_be_slashed)@,
                spec_claims(self@, state@, *spec, old(to_be_slashed)@).len(),
            ),
            r@.len() <= spec.max_attester_slashings,
    {
        let limit: usize = spec.max_attester_slashings;
        let ghost claimed0 = to_be_slashed@;
        let ghost all = spec_claims(self@, state@, *spec, claimed0);
        let ghost mut chosen: Seq<Claim> = Seq::empty();
        let mut r: Vec<AttesterSlashing> = Vec::new();
        let mut i: usize = 0;
        assert(all =~= chosen + claims_from(self@, state@, *spec, claimed0, limit as nat, 0));
        while i < self.entries.len() && r.len() < limit
            invariant
                i <= self.entries@.len(),
                self@.len() == self.entries@.len(),
                limit == spec.max_attester_slashings,
                r@.len() <= limit,
                r@.len() == chosen.len(),
                all == spec_claims(self@, state@, *spec, claimed0),
                all == chosen + claims_from(
                    self@,
                    state@,
                    *spec,
                    to_be_slashed@,
                    (limit - r@.len()) as nat,
                    i as int,
                ),
                forall|k: int| 0 <= k < r@.len() ==> (#[trigger] r@[k])@ == chosen[k].0,
                to_be_slashed@ == claimed_before(chosen, claimed0, chosen.len()),
            decreases self.entries@.len() - i,
        {
            let entry = &self.entries[i];
            assert(self@[i as int] == entry@);
            let (id_1, id_2) = attester_slashing_id(&entry.slashing, state, spec);
            if id_1.same_as(&entry.id_1) && id_2.same_as(&entry.id_2) {
                match get_slashable_indices_modular(state, &entry.slashing, to_be_slashed, None) {
                    Ok(indices) => {
                        let ghost claim = (entry.slashing@, indices@);
                        let ghost rest = claims_from(
                            self@,
                            state@,
                            *spec,
                            to_be_slashed@ + indices@,
                            (limit - r@.len() - 1) as nat,
                            i + 1,
                        );
                        assert(chosen + (seq![claim] + rest) =~= chosen.push(claim) + rest);
                        proof {
                            lemma_claimed_before_agree(
                                chosen,
                                chosen.push(claim),
                                claimed0,
                                chosen.len(),
                            );
                            chosen = chosen.push(claim);
                        }
                        r.push(entry.slashing.clone());
                        crate::encoding::append_indices(to_be_slashed, &indices);
                    },
                    Err(_) => {},
                }
            }
            i += 1;
        }
        assert(all =~= chosen);
        assert(Seq::new(r@.len(), |k: int| r@[k]@) =~= slashings_of(all));
        r
    }

    /// Removes the slashings that are of no use after the finalized state: those
    /// made on another fork, and those that slash no validator that is neither
    /// slashed nor able to withdraw at the epoch of that state.
    pub fn prune(&mut self, finalized_state: &BeaconState, spec: &ChainSpec)
        requires
            spec.well_formed(),
            old(self).well_formed(),
        ensures
            final(self)@ == retained(
                old(self)@,
                |e: SlashingEntryView| slashing_stays(e, finalized_state@, *spec),
            ),
            final(self).well_formed(),
    {
        let epoch = finalized_state.current_epoch(spec);
        let nobody: Vec<u64> = Vec::new();
        let ghost before = self@;
        let ghost pred = |e: SlashingEntryView| slashing_stays(e, finalized_state@, *spec);
        let ghost verdicts = verdicts_of(before, pred);
        let n: usize = self.entries.len();
        let mut kept: usize = 0;
        let mut seen: usize = 0;
        assert(self@ =~= accepted_upto(before, verdicts, 0) + before.skip(0));
        while seen < n
            invariant
                seen <= n,
                n == before.len(),
                kept <= seen,
                kept + (n - seen) == self.entries@.len(),
                kept == accepted_upto(before, verdicts, seen as nat).len(),
                self@ == accepted_upto(before, verdicts, seen as nat) + before.skip(seen as int),
                verdicts == verdicts_of(before, pred),
                pred == (|e: SlashingEntryView| slashing_stays(e, finalized_state@, *spec)),
                epoch == finalized_state@.current_epoch(*spec),
                nobody@ == Seq::<u64>::empty(),
            decreases n - seen,
        {
            let entry = &self.entries[kept];
            assert(self@[kept as int] == entry@);
            assert(entry@ == before[seen as int]);
            let (id_1, id_2) = attester_slashing_id(&entry.slashing, finalized_state, spec);
            let fork_ok: bool = id_1.same_as(&entry.id_1) && id_2.same_as(&entry.id_2);
            let slashing_ok: bool = get_slashable_indices_modular(
                finalized_state,
                &entry.slashing,
                &nobody,
                Some(epoch),
            ).is_ok();
            let stays: bool = fork_ok && slashing_ok;
            assert(stays == pred(before[seen as int]));
            if stays {
                assert(self@ =~= accepted_upto(before, verdicts, (seen + 1) as nat) + before.skip(
                    seen + 1,
                ));
                kept += 1;
            } else {
                let ghost current = self@;
                self.entries.remove(kept);
                assert(self@ =~= current.remove(kept as int));
                assert(self@ =~= accepted_upto(before, verdicts, (seen + 1) as nat) + before.skip(
                    seen + 1,
                ));
            }
            seen += 1;
        }
        proof {
            assert(self@ =~= accepted(before, verdicts));
            lemma_accepted_pairs_distinct(before, verdicts, n as nat);
        }
    }
}

/// What is slashed before a claim depends only on the claims before it.
proof fn lemma_claimed_before_agree(a: Seq<Claim>, b: Seq<Claim>, claimed: Seq<u64>, k: nat)
    requires
        k <= a.len(),
        k <= b.len(),
        forall|i: int| 0 <= i < k ==> a[i] == b[i],
    ensures
        claimed_before(a, claimed, k) == claimed_before(b, claimed, k),
    decreases k,
{
    if k > 0 {
        lemma_claimed_before_agree(a, b, claimed, (k - 1) as nat);
    }
}

} // verus!
