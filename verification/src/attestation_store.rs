//! The attestation store: buckets of candidate attestations, one bucket per
//! identity, in the order in which the identities first appeared.
//!
//! All attestations of a bucket carry the same vote. A new attestation is merged
//! into the first attestation of its bucket that shares no signer with it; it is
//! dropped if the bucket holds its equal and nothing to merge it into; otherwise
//! it joins the bucket as one more candidate.

use vstd::prelude::*;
use crate::attestation::{
    committee_members, earliest_attestation_validators, spec_earliest_attestation_validators,
    AttMaxCover, Member,
};
use crate::attestation_id::{
    attester_domain_bytes, encode_data, ends_in_domain, identity_on,
    lemma_encode_data_injective, lemma_encode_data_len, AttestationId, DATA_BYTES_LEN,
};
use crate::max_cover::{covers_of, greedy, maximum_cover, object_views, objects_of};
use crate::sequences::{accepted, accepted_upto, retained, verdicts_of};
use crate::points::RawSignature;
use crate::types::{
    Attestation, AttestationData, AttestationView, BeaconState, BeaconStateView, ChainSpec,
    Fork,
};

verus! {

/// The attestations of one identity.
#[derive(Debug, PartialEq, Eq)]
pub struct Bucket {
    pub id: AttestationId,
    pub attestations: Vec<Attestation>,
}

/// The value of a [`Bucket`].
pub struct BucketView {
    pub id: Seq<u8>,
    pub attestations: Seq<AttestationView>,
}

/// The values of a sequence of attestations.
pub open spec fn attestation_views(attestations: Seq<Attestation>) -> Seq<AttestationView> {
    Seq::new(attestations.len(), |i: int| attestations[i]@)
}

impl View for Bucket {
    type V = BucketView;

    open spec fn view(&self) -> BucketView {
        BucketView { id: self.id@, attestations: attestation_views(self.attestations@) }
    }
}

/// The buckets of the pool.
#[derive(Debug, PartialEq, Eq)]
pub struct AttestationStore {
    pub buckets: Vec<Bucket>,
}

impl View for AttestationStore {
    type V = Seq<BucketView>;

    open spec fn view(&self) -> Seq<BucketView> {
        Seq::new(self.buckets@.len(), |i: int| self.buckets@[i]@)
    }
}

/// Whether an identity begins with the encoding of a vote.
pub open spec fn keyed_by(id: Seq<u8>, data: AttestationData) -> bool {
    id.len() >= DATA_BYTES_LEN && id.subrange(0, DATA_BYTES_LEN as int) == encode_data(data)
}

/// From `start` on, the first bucket of the identity `id`; `-1` if there is none.
pub open spec fn bucket_index_from(store: Seq<BucketView>, id: Seq<u8>, start: int) -> int
    decreases store.len() - start,
{
    if start < 0 || start >= store.len() {
        -1
    } else if store[start].id == id {
        start
    } else {
        bucket_index_from(store, id, start + 1)
    }
}

/// The first bucket of the identity `id`; `-1` if there is none.
pub open spec fn bucket_index(store: Seq<BucketView>, id: Seq<u8>) -> int {
    bucket_index_from(store, id, 0)
}

/// From `start` on, the first entry that shares no signer with `a`; `-1` if
/// there is none.
pub open spec fn first_disjoint_from(entries: Seq<AttestationView>, a: AttestationView, start: int)
    -> int
    decreases entries.len() - start,
{
    if start < 0 || start >= entries.len() {
        -1
    } else if entries[start].signers_disjoint_from(a) {
        start
    } else {
        first_disjoint_from(entries, a, start + 1)
    }
}

/// The first entry that shares no signer with `a`; `-1` if there is none.
pub open spec fn first_disjoint(entries: Seq<AttestationView>, a: AttestationView) -> int {
    first_disjoint_from(entries, a, 0)
}

/// The entries of a bucket after `a` was inserted, where `sum` is the sum of the
/// signature points of `a` and of the entry that it is merged into, if any.
pub open spec fn entries_with(
    entries: Seq<AttestationView>,
    a: AttestationView,
    sum: RawSignature,
) -> Seq<AttestationView> {
    let i = first_disjoint(entries, a);
    if i >= 0 {
        entries.update(i, entries[i].aggregated(a, sum))
    } else if entries.contains(a) {
        entries
    } else {
        entries.push(a)
    }
}

/// The store after `a` was inserted under the identity `id`.
pub open spec fn store_with(
    store: Seq<BucketView>,
    id: Seq<u8>,
    a: AttestationView,
    sum: RawSignature,
) -> Seq<BucketView> {
    let b = bucket_index(store, id);
    if b >= 0 {
        store.update(
            b,
            BucketView { id: id, attestations: entries_with(store[b].attestations, a, sum) },
        )
    } else {
        store.push(BucketView { id: id, attestations: seq![a] })
    }
}

/// The entry that `a` is merged into when it is inserted under `id`, if any.
pub open spec fn merge_target(store: Seq<BucketView>, id: Seq<u8>, a: AttestationView) -> Option<
    AttestationView,
> {
    let b = bucket_index(store, id);
    if b >= 0 && first_disjoint(store[b].attestations, a) >= 0 {
        Some(store[b].attestations[first_disjoint(store[b].attestations, a)])
    } else {
        None
    }
}

/// Whether `a`, inserted under `id`, joins its bucket as one more candidate.
pub open spec fn appends(store: Seq<BucketView>, id: Seq<u8>, a: AttestationView) -> bool {
    let b = bucket_index(store, id);
    b >= 0 && first_disjoint(store[b].attestations, a) < 0 && !store[b].attestations.contains(a)
}

/// The number of attestations in the first `n` buckets.
pub open spec fn total_upto(store: Seq<BucketView>, n: nat) -> nat
    decreases n,
{
    if n == 0 {
        0
    } else {
        total_upto(store, (n - 1) as nat) + store[n - 1].attestations.len()
    }
}

/// The number of attestations in all buckets.
pub open spec fn total_attestations(store: Seq<BucketView>) -> nat {
    total_upto(store, store.len())
}

/// The attestations of a bucket stay when the finalized state is at `epoch`:
/// their target is at most one epoch behind. An empty bucket goes.
pub open spec fn bucket_stays(bucket: BucketView, epoch: u64) -> bool {
    bucket.attestations.len() > 0 && epoch <= saturating_next(
        bucket.attestations[0].data.target.epoch,
    )
}

/// The epoch after `epoch`, or the last epoch that there is.
pub open spec fn saturating_next(epoch: u64) -> u64 {
    if epoch == u64::MAX {
        epoch
    } else {
        (epoch + 1) as u64
    }
}

/// No two buckets have the same identity, no bucket is empty, and the identity
/// of a bucket begins with the encoding of the vote of each of its attestations.
pub open spec fn store_well_formed(store: Seq<BucketView>) -> bool {
    &&& forall|i: int, j: int|
        0 <= i < j < store.len() ==> (#[trigger] store[i]).id != (#[trigger] store[j]).id
    &&& forall|i: int| 0 <= i < store.len() ==> (#[trigger] store[i]).attestations.len() > 0
    &&& forall|i: int, k: int|
        0 <= i < store.len() && 0 <= k < store[i].attestations.len() ==> keyed_by(
            store[i].id,
            (#[trigger] store[i].attestations[k]).data,
        )
}

/// What `bucket_index_from` finds is the first bucket of that identity.
pub proof fn lemma_bucket_index_from(store: Seq<BucketView>, id: Seq<u8>, start: int)
    requires
        0 <= start <= store.len(),
    ensures
        bucket_index_from(store, id, start) == -1 || (start <= bucket_index_from(
            store,
            id,
            start,
        ) < store.len() && store[bucket_index_from(store, id, start)].id == id),
        forall|j: int|
            start <= j < store.len() && (bucket_index_from(store, id, start) == -1 || j
                < bucket_index_from(store, id, start)) ==> (#[trigger] store[j]).id != id,
    decreases store.len() - start,
{
    if start < store.len() && store[start].id != id {
        lemma_bucket_index_from(store, id, start + 1);
    }
}

/// What `first_disjoint_from` finds is the first entry disjoint from `a`.
pub proof fn lemma_first_disjoint_from(
    entries: Seq<AttestationView>,
    a: AttestationView,
    start: int,
)
    requires
        0 <= start <= entries.len(),
    ensures
        first_disjoint_from(entries, a, start) == -1 || (start <= first_disjoint_from(
            entries,
            a,
            start,
        ) < entries.len() && entries[first_disjoint_from(
            entries,
            a,
            start,
        )].signers_disjoint_from(a)),
        forall|j: int|
            start <= j < entries.len() && (first_disjoint_from(entries, a, start) == -1 || j
                < first_disjoint_from(entries, a, start)) ==> !(
            #[trigger] entries[j]).signers_disjoint_from(a),
    decreases entries.len() - start,
{
    if start < entries.len() && !entries[start].signers_disjoint_from(a) {
        lemma_first_disjoint_from(entries, a, start + 1);
    }
}

/// The total count looks only at the buckets that it counts.
pub proof fn lemma_total_agree(s: Seq<BucketView>, t: Seq<BucketView>, n: nat)
    requires
        n <= s.len(),
        n <= t.len(),
        forall|i: int| 0 <= i < n ==> s[i].attestations.len() == t[i].attestations.len(),
    ensures
        total_upto(s, n) == total_upto(t, n),
    decreases n,
{
    if n > 0 {
        lemma_total_agree(s, t, (n - 1) as nat);
    }
}

/// Replacing a bucket changes the total by the difference of the two lengths.
pub proof fn lemma_total_update(s: Seq<BucketView>, b: int, bucket: BucketView, n: nat)
    requires
        0 <= b < s.len(),
        n <= s.len(),
    ensures
        total_upto(s.update(b, bucket), n) == if b < n {
            total_upto(s, n) - s[b].attestations.len() + bucket.attestations.len()
        } else {
            total_upto(s, n) as int
        },
    decreases n,
{
    if n > 0 {
        lemma_total_update(s, b, bucket, (n - 1) as nat);
    }
}

/// A new bucket adds its length to the total.
pub proof fn lemma_total_push(s: Seq<BucketView>, bucket: BucketView)
    ensures
        total_attestations(s.push(bucket)) == total_attestations(s) + bucket.attestations.len(),
{
    lemma_total_agree(s, s.push(bucket), s.len());
}

/// An insertion keeps the store well formed, keeps every other bucket as it is,
/// and grows the store by one attestation or by none.
pub proof fn lemma_store_with(
    store: Seq<BucketView>,
    id: Seq<u8>,
    a: AttestationView,
    sum: RawSignature,
)
    requires
        store_well_formed(store),
        keyed_by(id, a.data),
    ensures
        store_well_formed(store_with(store, id, a, sum)),
        bucket_index(store_with(store, id, a, sum), id) >= 0,
        bucket_index(store, id) >= 0 ==> bucket_index(store_with(store, id, a, sum), id)
            == bucket_index(store, id),
        bucket_index(store, id) < 0 ==> bucket_index(store_with(store, id, a, sum), id)
            == store.len(),
        total_attestations(store_with(store, id, a, sum)) == total_attestations(store) + if
            bucket_index(store, id) < 0 || appends(store, id, a) {
            1int
        } else {
            0int
        },
{
    let after = store_with(store, id, a, sum);
    let b = bucket_index(store, id);
    lemma_bucket_index_from(store, id, 0);
    lemma_bucket_index_from(after, id, 0);
    if b >= 0 {
        let entries = store[b].attestations;
        let entries_after = entries_with(entries, a, sum);
        lemma_first_disjoint_from(entries, a, 0);
        lemma_total_update(
            store,
            b,
            BucketView { id: id, attestations: entries_after },
            store.len(),
        );
        assert(after[b].id == id);
        assert forall|i: int, k: int|
            0 <= i < after.len() && 0 <= k < after[i].attestations.len() implies keyed_by(
            after[i].id,
            (#[trigger] after[i].attestations[k]).data,
        ) by {
            if i == b {
                let m = first_disjoint(entries, a);
                if m >= 0 {
                    if k != m {
                        assert(entries_after[k] == entries[k]);
                    } else {
                        assert(keyed_by(store[b].id, entries[m].data));
                    }
                } else if !entries.contains(a) {
                    if k < entries.len() {
                        assert(entries_after[k] == entries[k]);
                    }
                }
                assert(keyed_by(store[i].id, entries[0].data));
            } else {
                assert(after[i] == store[i]);
            }
        }
        assert forall|i: int, j: int| 0 <= i < j < after.len() implies (#[trigger] after[i]).id
            != (#[trigger] after[j]).id by {
            assert(after[i].id == store[i].id);
            assert(after[j].id == store[j].id);
        }
        assert forall|i: int| 0 <= i < after.len() implies (#[trigger] after[i]).attestations.len()
            > 0 by {
            if i != b {
                assert(after[i] == store[i]);
            }
        }
    } else {
        lemma_total_push(store, BucketView { id: id, attestations: seq![a] });
        assert(after[store.len() as int].id == id);
        assert forall|i: int, k: int|
            0 <= i < after.len() && 0 <= k < after[i].attestations.len() implies keyed_by(
            after[i].id,
            (#[trigger] after[i].attestations[k]).data,
        ) by {
            if i < store.len() {
                assert(after[i] == store[i]);
            }
        }
        assert forall|i: int, j: int| 0 <= i < j < after.len() implies (#[trigger] after[i]).id
            != (#[trigger] after[j]).id by {
            assert(after[i] == store[i]);
            if j < store.len() {
                assert(after[j] == store[j]);
            }
        }
        assert forall|i: int| 0 <= i < after.len() implies (#[trigger] after[i]).attestations.len()
            > 0 by {
            if i < store.len() {
                assert(after[i] == store[i]);
            }
        }
    }
}

/// Of the first `n` buckets, the attestations of those whose identity ends in
/// one of the two domains, in the order of the store.
pub open spec fn candidates_upto(
    buckets: Seq<Bucket>,
    previous: Seq<u8>,
    current: Seq<u8>,
    n: nat,
) -> Seq<Attestation>
    decreases n,
{
    if n == 0 {
        Seq::empty()
    } else {
        let before = candidates_upto(buckets, previous, current, (n - 1) as nat);
        if ends_in_domain(buckets[n - 1].id@, previous) || ends_in_domain(
            buckets[n - 1].id@,
            current,
        ) {
            before + buckets[n - 1].attestations@
        } else {
            before
        }
    }
}

/// The attestations that can go into a block on top of `state`, as far as their
/// fork goes: those made under the domain of the previous or of the current
/// epoch, in the order of the store.
pub open spec fn spec_candidates(buckets: Seq<Bucket>, state: BeaconStateView, spec: ChainSpec)
    -> Seq<Attestation> {
    candidates_upto(
        buckets,
        attester_domain_bytes(spec, state.fork, state.previous_epoch(spec)),
        attester_domain_bytes(spec, state.fork, state.current_epoch(spec)),
        buckets.len(),
    )
}

/// What each attestation would newly credit on top of `state`.
pub open spec fn attestation_covers(
    attestations: Seq<AttestationView>,
    state: BeaconStateView,
    spec: ChainSpec,
) -> Seq<Set<Member>> {
    Seq::new(
        attestations.len(),
        |i: int|
            committee_members(
                attestations[i].data.slot,
                attestations[i].data.index,
                spec_earliest_attestation_validators(attestations[i], state, spec),
            ),
    )
}

/// The attestations that the greedy algorithm picks among `attestations` for a
/// block on top of `state`, at most `limit` of them, in the order of the picks.
pub open spec fn selection(
    attestations: Seq<AttestationView>,
    state: BeaconStateView,
    spec: ChainSpec,
    limit: nat,
) -> Seq<AttestationView> {
    let picks = greedy(attestation_covers(attestations, state, spec), limit);
    Seq::new(picks.len(), |k: int| attestations[picks[k]])
}

/// Every attestation of the store has a target that is at most one epoch behind
/// `epoch`.
pub open spec fn targets_within_one_of(store: Seq<BucketView>, epoch: u64) -> bool {
    forall|i: int, k: int|
        0 <= i < store.len() && 0 <= k < store[i].attestations.len() ==> (
        #[trigger] store[i].attestations[k]).data.target.epoch >= epoch - 1
}

/// No bucket has the identity `id`.
pub open spec fn id_absent(store: Seq<BucketView>, id: Seq<u8>) -> bool {
    forall|i: int| 0 <= i < store.len() ==> (#[trigger] store[i]).id != id
}

/// An identity that none of the first `n` buckets has is the identity of no
/// accepted bucket.
proof fn lemma_accepted_id_absent(
    store: Seq<BucketView>,
    verdicts: Seq<bool>,
    n: nat,
    id: Seq<u8>,
)
    requires
        n <= store.len(),
        forall|i: int| 0 <= i < n ==> (#[trigger] store[i]).id != id,
    ensures
        id_absent(accepted_upto(store, verdicts, n), id),
    decreases n,
{
    if n > 0 {
        lemma_accepted_id_absent(store, verdicts, (n - 1) as nat, id);
    }
}

/// The buckets that stay of a well-formed store make a well-formed store, and
/// each of them was accepted.
proof fn lemma_accepted_well_formed(
    store: Seq<BucketView>,
    pred: spec_fn(BucketView) -> bool,
    n: nat,
)
    requires
        store_well_formed(store),
        n <= store.len(),
    ensures
        store_well_formed(accepted_upto(store, verdicts_of(store, pred), n)),
        forall|i: int|
            0 <= i < accepted_upto(store, verdicts_of(store, pred), n).len() ==> pred(
                #[trigger] accepted_upto(store, verdicts_of(store, pred), n)[i],
            ),
    decreases n,
{
    if n > 0 {
        lemma_accepted_well_formed(store, pred, (n - 1) as nat);
        lemma_accepted_id_absent(store, verdicts_of(store, pred), (n - 1) as nat, store[n - 1].id);
        let before = accepted_upto(store, verdicts_of(store, pred), (n - 1) as nat);
        let now = accepted_upto(store, verdicts_of(store, pred), n);
        if pred(store[n - 1]) {
            assert forall|i: int, k: int|
                0 <= i < now.len() && 0 <= k < now[i].attestations.len() implies keyed_by(
                now[i].id,
                (#[trigger] now[i].attestations[k]).data,
            ) by {
                if i < before.len() {
                    assert(now[i] == before[i]);
                } else {
                    assert(now[i] == store[n - 1]);
                }
            }
        }
    }
}

/// All attestations of a bucket of a well-formed store carry the same vote.
pub proof fn lemma_bucket_same_vote(store: Seq<BucketView>, i: int, k: int, m: int)
    requires
        store_well_formed(store),
        0 <= i < store.len(),
        0 <= k < store[i].attestations.len(),
        0 <= m < store[i].attestations.len(),
    ensures
        store[i].attestations[k].data == store[i].attestations[m].data,
{
    assert(keyed_by(store[i].id, store[i].attestations[k].data));
    assert(keyed_by(store[i].id, store[i].attestations[m].data));
    lemma_encode_data_injective(store[i].attestations[k].data, store[i].attestations[m].data);
}

/// The identity of a vote on a fork begins with the encoding of the vote.
pub proof fn lemma_identity_keyed(data: AttestationData, fork: Fork, spec: ChainSpec)
    ensures
        keyed_by(identity_on(data, fork, spec), data),
{
    lemma_encode_data_len(data);
    assert(identity_on(data, fork, spec).subrange(0, DATA_BYTES_LEN as int) =~= encode_data(
        data,
    ));
}

impl Clone for Bucket {
    fn clone(&self) -> (r: Self)
        ensures
            r@ == self@,
    {
        let mut attestations: Vec<Attestation> = Vec::new();
        let mut i: usize = 0;
        while i < self.attestations.len()
            invariant
                i <= self.attestations@.len(),
                attestations@.len() == i,
                forall|j: int| 0 <= j < i ==> (#[trigger] attestations@[j])@ == self.attestations@[j]@,
            decreases self.attestations@.len() - i,
        {
            attestations.push(self.attestations[i].clone());
            i += 1;
        }
        let r = Bucket { id: self.id.clone(), attestations };
        assert(r@.attestations =~= self@.attestations);
        r
    }
}

impl Clone for AttestationStore {
    fn clone(&self) -> (r: Self)
        ensures
            r@ == self@,
    {
        let mut buckets: Vec<Bucket> = Vec::new();
        let mut i: usize = 0;
        while i < self.buckets.len()
            invariant
                i <= self.buckets@.len(),
                buckets@.len() == i,
                forall|j: int| 0 <= j < i ==> (#[trigger] buckets@[j])@ == self.buckets@[j]@,
            decreases self.buckets@.len() - i,
        {
            buckets.push(self.buckets[i].clone());
            i += 1;
        }
        let r = AttestationStore { buckets };
        assert(r@ =~= self@);
        r
    }
}

impl Bucket {
    /// Whether both buckets have the same identity and the same attestations in
    /// the same order.
    pub fn same_as(&self, other: &Self) -> (r: bool)
        ensures
            r == (self@ == other@),
    {
        if !self.id.same_as(&other.id) || self.attestations.len() != other.attestations.len() {
            assert(self@.attestations.len() == self.attestations@.len());
            assert(other@.attestations.len() == other.attestations@.len());
            return false;
        }
        let mut i: usize = 0;
        while i < self.attestations.len()
            invariant
                i <= self.attestations@.len(),
                self.attestations@.len() == other.attestations@.len(),
                self.id@ == other.id@,
                forall|j: int| 0 <= j < i ==> self@.attestations[j] == other@.attestations[j],
            decreases self.attestations@.len() - i,
        {
            if !self.attestations[i].same_as(&other.attestations[i]) {
                assert(self@.attestations[i as int] != other@.attestations[i as int]);
                return false;
            }
            i += 1;
        }
        assert(self@.attestations =~= other@.attestations);
        true
    }

    /// The position of the first attestation of the bucket that shares no
    /// signer with `attestation`, if there is one.
    pub fn first_disjoint(&self, attestation: &Attestation) -> (r: Option<usize>)
        ensures
            match r {
                Some(i) => i == first_disjoint(self@.attestations, attestation@) && i
                    < self.attestations@.len(),
                None => first_disjoint(self@.attestations, attestation@) == -1,
            },
    {
        let mut i: usize = 0;
        while i < self.attestations.len()
            invariant
                i <= self.attestations@.len(),
                first_disjoint(self@.attestations, attestation@) == first_disjoint_from(
                    self@.attestations,
                    attestation@,
                    i as int,
                ),
            decreases self.attestations@.len() - i,
        {
            if self.attestations[i].signers_disjoint_from(attestation) {
                return Some(i);
            }
            i += 1;
        }
        None
    }

    /// Whether the bucket holds an attestation equal to `attestation` bit for bit.
    pub fn holds(&self, attestation: &Attestation) -> (r: bool)
        ensures
            r == self@.attestations.contains(attestation@),
    {
        let mut i: usize = 0;
        while i < self.attestations.len()
            invariant
                i <= self.attestations@.len(),
                forall|j: int| 0 <= j < i ==> self@.attestations[j] != attestation@,
            decreases self.attestations@.len() - i,
        {
            if self.attestations[i].same_as(attestation) {
                assert(self@.attestations[i as int] == attestation@);
                return true;
            }
            i += 1;
        }
        false
    }
}

/// Whether the identity begins with the encoding of the vote.
pub fn is_keyed_by(id: &AttestationId, data: &AttestationData) -> (r: bool)
    ensures
        r == keyed_by(id@, *data),
{
    if id.v.len() < DATA_BYTES_LEN {
        return false;
    }
    let mut encoded: Vec<u8> = Vec::new();
    crate::snapshot_items::write_data(&mut encoded, data);
    proof {
        lemma_encode_data_len(*data);
    }
    assert(encoded@ =~= encode_data(*data));
    let head = vstd::slice::slice_subrange(id.v.as_slice(), 0, DATA_BYTES_LEN);
    crate::encoding::bytes_eq(head, encoded.as_slice())
}

impl AttestationStore {
    /// Whether the store is well formed; every function keeps it so.
    pub open spec fn well_formed(&self) -> bool {
        store_well_formed(self@)
    }

    /// Whether both stores hold the same buckets in the same order.
    pub fn same_as(&self, other: &Self) -> (r: bool)
        ensures
            r == (self@ == other@),
    {
        if self.buckets.len() != other.buckets.len() {
            assert(self@.len() != other@.len());
            return false;
        }
        let mut i: usize = 0;
        while i < self.buckets.len()
            invariant
                i <= self.buckets@.len(),
                self.buckets@.len() == other.buckets@.len(),
                forall|j: int| 0 <= j < i ==> self@[j] == other@[j],
            decreases self.buckets@.len() - i,
        {
            if !self.buckets[i].same_as(&other.buckets[i]) {
                assert(self@[i as int] != other@[i as int]);
                return false;
            }
            i += 1;
        }
        assert(self@ =~= other@);
        true
    }

    /// Whether the store is well formed.
    pub fn is_well_formed(&self) -> (r: bool)
        ensures
            r == self.well_formed(),
    {
        let mut i: usize = 0;
        while i < self.buckets.len()
            invariant
                i <= self.buckets@.len(),
                self@.len() == self.buckets@.len(),
                forall|a: int, b: int|
                    0 <= a < b < i ==> (#[trigger] self@[a]).id != (#[trigger] self@[b]).id,
                forall|a: int| 0 <= a < i ==> (#[trigger] self@[a]).attestations.len() > 0,
                forall|a: int, k: int|
                    0 <= a < i && 0 <= k < self@[a].attestations.len() ==> keyed_by(
                        self@[a].id,
                        (#[trigger] self@[a].attestations[k]).data,
                    ),
            decreases self.buckets@.len() - i,
        {
            let bucket = &self.buckets[i];
            assert(self@[i as int] == bucket@);
            if bucket.attestations.len() == 0 {
                return false;
            }
            let mut k: usize = 0;
            while k < bucket.attestations.len()
                invariant
                    k <= bucket.attestations@.len(),
                    i < self.buckets@.len(),
                    self@.len() == self.buckets@.len(),
                    self@[i as int] == bucket@,
                    forall|m: int|
                        0 <= m < k ==> keyed_by(
                            bucket@.id,
                            (#[trigger] bucket@.attestations[m]).data,
                        ),
                decreases bucket.attestations@.len() - k,
            {
                if !is_keyed_by(&bucket.id, &bucket.attestations[k].data) {
                    assert(!keyed_by(self@[i as int].id, self@[i as int].attestations[k as int].data));
                    return false;
                }
                k += 1;
            }
            let mut j: usize = 0;
            while j < i
                invariant
                    j <= i,
                    i < self.buckets@.len(),
                    self@.len() == self.buckets@.len(),
                    self@[i as int] == bucket@,
                    forall|a: int| 0 <= a < j ==> (#[trigger] self@[a]).id != self@[i as int].id,
                decreases i - j,
            {
                if self.buckets[j].id.same_as(&bucket.id) {
                    assert(self@[j as int].id == self@[i as int].id);
                    return false;
                }
                j += 1;
            }
            i += 1;
        }
        true
    }

    /// The empty store.
    pub fn new() -> (r: Self)
        ensures
            r@ == Seq::<BucketView>::empty(),
            r.well_formed(),
    {
        let r = AttestationStore { buckets: Vec::new() };
        assert(r@ =~= Seq::<BucketView>::empty());
        r
    }

    /// The position of the bucket of `id`, if there is one.
    pub fn bucket_position(&self, id: &AttestationId) -> (r: Option<usize>)
        ensures
            match r {
                Some(b) => b == bucket_index(self@, id@) && b < self.buckets@.len()
                    && self.buckets@[b as int].id@ == id@,
                None => bucket_index(self@, id@) == -1,
            },
    {
        let mut i: usize = 0;
        while i < self.buckets.len()
            invariant
                i <= self.buckets@.len(),
                self@.len() == self.buckets@.len(),
                bucket_index(self@, id@) == bucket_index_from(self@, id@, i as int),
            decreases self.buckets@.len() - i,
        {
            if self.buckets[i].id.same_as(id) {
                return Some(i);
            }
            i += 1;
        }
        None
    }

    /// The signature point of the attestation that `attestation` would be merged
    /// into, were it inserted on the fork of `state`; `None` where it would not
    /// be merged.
    pub fn merge_point(&self, attestation: &Attestation, state: &BeaconState, spec: &ChainSpec) -> (r:
        Option<RawSignature>)
        ensures
            r == match merge_target(
                self@,
                identity_on(attestation.data, state.fork, *spec),
                attestation@,
            ) {
                Some(entry) => Some(entry.signature.aggregate_signature),
                None => None,
            },
    {
        let id = AttestationId::from_data(&attestation.data, state, spec);
        match self.bucket_position(&id) {
            None => None,
            Some(b) => {
                let bucket = &self.buckets[b];
                assert(self@[b as int] == bucket@);
                match bucket.first_disjoint(attestation) {
                    None => None,
                    Some(i) => Some(bucket.attestations[i].signature.aggregate_signature),
                }
            },
        }
    }

    /// Inserts `attestation` under its identity on the fork of `state`, where
    /// `sum` is the sum of the signature points of the attestation and of the one
    /// that it is merged into; `sum` is not looked at where nothing is merged.
    pub fn insert_with_sum(
        &mut self,
        attestation: Attestation,
        state: &BeaconState,
        spec: &ChainSpec,
        sum: RawSignature,
    )
        requires
            old(self).well_formed(),
        ensures
            final(self)@ == store_with(
                old(self)@,
                identity_on(attestation.data, state.fork, *spec),
                attestation@,
                sum,
            ),
            final(self).well_formed(),
    {
        let id = AttestationId::from_data(&attestation.data, state, spec);
        proof {
            lemma_identity_keyed(attestation.data, state.fork, *spec);
            lemma_store_with(self@, id@, attestation@, sum);
        }
        let ghost before = self@;
        let ghost expected = store_with(before, id@, attestation@, sum);
        match self.bucket_position(&id) {
            None => {
                let mut attestations: Vec<Attestation> = Vec::new();
                attestations.push(attestation);
                let bucket = Bucket { id, attestations };
                assert(bucket@.attestations =~= seq![attestation@]);
                self.buckets.push(bucket);
                assert(self@ =~= expected);
            },
            Some(b) => {
                assert(before[b as int] == self.buckets@[b as int]@);
                let found = self.buckets[b].first_disjoint(&attestation);
                match found {
                    Some(i) => {
                        let ghost entries = self.buckets@[b as int]@.attestations;
                        self.buckets[b].attestations[i].aggregate_sum(&attestation, sum);
                        assert(self.buckets@[b as int]@.attestations =~= entries.update(
                            i as int,
                            entries[i as int].aggregated(attestation@, sum),
                        ));
                        assert(self.buckets@[b as int].id@ == id@);
                        assert(self@ =~= expected);
                    },
                    None => {
                        if !self.buckets[b].holds(&attestation) {
                            let ghost entries = self.buckets@[b as int]@.attestations;
                            self.buckets[b].attestations.push(attestation);
                            assert(self.buckets@[b as int]@.attestations =~= entries.push(
                                attestation@,
                            ));
                            assert(self@ =~= expected);
                        } else {
                            assert(self@ =~= expected);
                        }
                    },
                }
            },
        }
    }

    /// Inserts `attestation` under its identity on the fork of `state`. It is
    /// merged into the first attestation of its bucket that shares no signer with
    /// it, the signers becoming the union of both and the signature the
    /// aggregate of both, with `add_points` adding the two signature points;
    /// `add_points` is called for that merge and not otherwise. Where nothing
    /// can be merged, an attestation that the bucket holds already changes
    /// nothing, and any other joins the bucket.
    pub fn insert<F>(
        &mut self,
        attestation: Attestation,
        state: &BeaconState,
        spec: &ChainSpec,
        add_points: F,
    ) where F: FnOnce(RawSignature, RawSignature) -> RawSignature
        requires
            old(self).well_formed(),
            forall|a: RawSignature, b: RawSignature| call_requires(add_points, (a, b)),
        ensures
            final(self).well_formed(),
            exists|sum: RawSignature|
                {
                    &&& final(self)@ == store_with(
                        old(self)@,
                        identity_on(attestation.data, state.fork, *spec),
                        attestation@,
                        sum,
                    )
                    &&& match merge_target(
                        old(self)@,
                        identity_on(attestation.data, state.fork, *spec),
                        attestation@,
                    ) {
                        Some(entry) => call_ensures(
                            add_points,
                            (
                                entry.signature.aggregate_signature,
                                attestation.signature.aggregate_signature,
                            ),
                            sum,
                        ),
                        None => true,
                    }
                },
    {
        let sum = match self.merge_point(&attestation, state, spec) {
            Some(point) => add_points(point, attestation.signature.aggregate_signature),
            None => attestation.signature.aggregate_signature,
        };
        let ghost target = merge_target(
            self@,
            identity_on(attestation.data, state.fork, *spec),
            attestation@,
        );
        let ghost a = attestation;
        self.insert_with_sum(attestation, state, spec, sum);
        assert(self@ == store_with(
            old(self)@,
            identity_on(a.data, state.fork, *spec),
            a@,
            sum,
        ) && match target {
            Some(entry) => call_ensures(
                add_points,
                (entry.signature.aggregate_signature, a.signature.aggregate_signature),
                sum,
            ),
            None => true,
        });
    }

    /// The number of attestations in all buckets together, or the largest number
    /// that there is, should they be more.
    pub fn num_attestations(&self) -> (r: usize)
        ensures
            r == if total_attestations(self@) <= usize::MAX {
                total_attestations(self@)
            } else {
                usize::MAX as nat
            },
    {
        let mut total: usize = 0;
        let mut i: usize = 0;
        while i < self.buckets.len()
            invariant
                i <= self.buckets@.len(),
                self@.len() == self.buckets@.len(),
                total == if total_upto(self@, i as nat) <= usize::MAX {
                    total_upto(self@, i as nat)
                } else {
                    usize::MAX as nat
                },
            decreases self.buckets@.len() - i,
        {
            let n: usize = self.buckets[i].attestations.len();
            assert(self@[i as int].attestations.len() == n);
            total = if n <= usize::MAX - total {
                total + n
            } else {
                usize::MAX
            };
            i += 1;
        }
        total
    }
    /// The attestations that can go into a block on top of `state`, as far as
    /// their fork goes, in the order of the store.
    pub fn candidates<'a>(&'a self, state: &BeaconState, spec: &ChainSpec) -> (r: Vec<
        &'a Attestation,
    >)
        requires
            spec.well_formed(),
        ensures
            r@.len() == spec_candidates(self.buckets@, state@, *spec).len(),
            forall|i: int|
                0 <= i < r@.len() ==> *(#[trigger] r@[i]) == spec_candidates(
                    self.buckets@,
                    state@,
                    *spec,
                )[i],
    {
        let previous = AttestationId::compute_domain_bytes(state.previous_epoch(spec), state, spec);
        let current = AttestationId::compute_domain_bytes(state.current_epoch(spec), state, spec);
        let mut r: Vec<&'a Attestation> = Vec::new();
        let mut i: usize = 0;
        while i < self.buckets.len()
            invariant
                i <= self.buckets@.len(),
                r@.len() == candidates_upto(self.buckets@, previous@, current@, i as nat).len(),
                forall|j: int|
                    0 <= j < r@.len() ==> *(#[trigger] r@[j]) == candidates_upto(
                        self.buckets@,
                        previous@,
                        current@,
                        i as nat,
                    )[j],
            decreases self.buckets@.len() - i,
        {
            let bucket = &self.buckets[i];
            if bucket.id.domain_bytes_match(previous.as_slice()) || bucket.id.domain_bytes_match(
                current.as_slice(),
            ) {
                let ghost before = r@;
                let mut k: usize = 0;
                while k < bucket.attestations.len()
                    invariant
                        k <= bucket.attestations@.len(),
                        r@.len() == before.len() + k,
                        forall|j: int| 0 <= j < before.len() ==> r@[j] == before[j],
                        forall|j: int|
                            0 <= j < k ==> *(#[trigger] r@[before.len() + j])
                                == bucket.attestations@[j],
                    decreases bucket.attestations@.len() - k,
                {
                    r.push(&bucket.attestations[k]);
                    k += 1;
                }
                proof {
                    let earlier = candidates_upto(self.buckets@, previous@, current@, i as nat);
                    let now = candidates_upto(
                        self.buckets@,
                        previous@,
                        current@,
                        (i + 1) as nat,
                    );
                    assert(now == earlier + bucket.attestations@);
                    assert forall|j: int| 0 <= j < r@.len() implies *(#[trigger] r@[j])
                        == now[j] by {
                        if j < before.len() {
                            assert(r@[j] == before[j]);
                        } else {
                            assert(*r@[before.len() + (j - before.len())]
                                == bucket.attestations@[j - before.len()]);
                        }
                    }
                }
            }
            i += 1;
        }
        r
    }

    /// Picks among `valid` the attestations for a block on top of `state`: the
    /// greedy maximum coverage of the committee members that the state has not
    /// recorded yet, with at most as many attestations as a block may hold.
    pub fn select_attestations(valid: &Vec<&Attestation>, state: &BeaconState, spec: &ChainSpec)
        -> (r: Vec<Attestation>)
        requires
            spec.well_formed(),
        ensures
            attestation_views(r@) == selection(
                Seq::new(valid@.len(), |i: int| valid@[i]@),
                state@,
                *spec,
                spec.max_attestations as nat,
            ),
            r@.len() <= spec.max_attestations,
    {
        let ghost views = Seq::new(valid@.len(), |i: int| valid@[i]@);
        let mut items: Vec<AttMaxCover> = Vec::new();
        let mut i: usize = 0;
        while i < valid.len()
            invariant
                i <= valid@.len(),
                spec.well_formed(),
                items@.len() == i,
                views == Seq::new(valid@.len(), |i: int| valid@[i]@),
                forall|j: int|
                    0 <= j < i ==> (#[trigger] items@[j]).att@ == views[j]
                        && items@[j].fresh_validators@ == spec_earliest_attestation_validators(
                        views[j],
                        state@,
                        *spec,
                    ),
            decreases valid@.len() - i,
        {
            let att: &Attestation = valid[i];
            let fresh = earliest_attestation_validators(att, state, spec);
            items.push(AttMaxCover::new(att, fresh));
            i += 1;
        }
        let ghost items0 = items@;
        assert(covers_of(items0) =~= attestation_covers(views, state@, *spec));
        let r = maximum_cover(items, spec.max_attestations);
        proof {
            let picks = greedy(covers_of(items0), spec.max_attestations as nat);
            crate::max_cover::law_greedy_picks(
                covers_of(items0),
                Set::empty(),
                spec.max_attestations as nat,
            );
            assert(attestation_views(r@) =~= object_views(r@));
            assert(objects_of(items0, picks) =~= selection(
                views,
                state@,
                *spec,
                spec.max_attestations as nat,
            ));
        }
        r
    }

    /// The attestations for a block on top of `state`: of the candidates that
    /// `is_valid` accepts, the greedy maximum coverage of the committee members
    /// that the state has not recorded yet, with at most as many attestations as
    /// a block may hold. `is_valid` is asked once about every candidate, in the
    /// order of the store. The store is not changed.
    pub fn get_attestations<F: Fn(&Attestation) -> bool>(
        &self,
        state: &BeaconState,
        spec: &ChainSpec,
        is_valid: F,
    ) -> (r: Vec<Attestation>)
        requires
            spec.well_formed(),
            forall|a: &Attestation| call_requires(is_valid, (a,)),
        ensures
            exists|verdicts: Seq<bool>|
                {
                    &&& verdicts.len() == spec_candidates(self.buckets@, state@, *spec).len()
                    &&& forall|i: int|
                        0 <= i < verdicts.len() ==> call_ensures(
                            is_valid,
                            (&spec_candidates(self.buckets@, state@, *spec)[i],),
                            #[trigger] verdicts[i],
                        )
                    &&& attestation_views(r@) == selection(
                        attestation_views(
                            accepted(spec_candidates(self.buckets@, state@, *spec), verdicts),
                        ),
                        state@,
                        *spec,
                        spec.max_attestations as nat,
                    )
                },
            r@.len() <= spec.max_attestations,
    {
        let ghost all = spec_candidates(self.buckets@, state@, *spec);
        let candidates = self.candidates(state, spec);
        let mut valid: Vec<&Attestation> = Vec::new();
        let ghost mut verdicts: Seq<bool> = Seq::empty();
        let mut i: usize = 0;
        while i < candidates.len()
            invariant
                i <= candidates@.len(),
                candidates@.len() == all.len(),
                forall|j: int| 0 <= j < candidates@.len() ==> *(#[trigger] candidates@[j]) == all[j],
                forall|a: &Attestation| call_requires(is_valid, (a,)),
                verdicts.len() == i,
                forall|j: int|
                    0 <= j < i ==> call_ensures(is_valid, (&all[j],), #[trigger] verdicts[j]),
                valid@.len() == accepted_upto(all, verdicts, i as nat).len(),
                forall|j: int|
                    0 <= j < valid@.len() ==> *(#[trigger] valid@[j]) == accepted_upto(
                        all,
                        verdicts,
                        i as nat,
                    )[j],
            decreases candidates@.len() - i,
        {
            let candidate: &Attestation = candidates[i];
            let keep: bool = is_valid(candidate);
            proof {
                let seen = verdicts;
                verdicts = verdicts.push(keep);
                crate::sequences::lemma_accepted_agree(all, seen, verdicts, i as nat);
            }
            if keep {
                valid.push(candidate);
            }
            i += 1;
        }
        let r = Self::select_attestations(&valid, state, spec);
        proof {
            assert(Seq::new(valid@.len(), |i: int| valid@[i]@) =~= attestation_views(
                accepted(all, verdicts),
            ));
            assert(verdicts.len() == all.len() && (forall|i: int|
                0 <= i < verdicts.len() ==> call_ensures(
                    is_valid,
                    (&all[i],),
                    #[trigger] verdicts[i],
                )) && attestation_views(r@) == selection(
                attestation_views(accepted(all, verdicts)),
                state@,
                *spec,
                spec.max_attestations as nat,
            ));
        }
        r
    }

    /// Removes the attestations that are too old for any block after the
    /// finalized state: every bucket whose vote has a target more than one epoch
    /// behind the epoch of that state. What stays keeps its order.
    pub fn prune(&mut self, finalized_state: &BeaconState, spec: &ChainSpec)
        requires
            spec.well_formed(),
            old(self).well_formed(),
        ensures
            final(self)@ == retained(
                old(self)@,
                |b: BucketView| bucket_stays(b, finalized_state@.current_epoch(*spec)),
            ),
            final(self).well_formed(),
            targets_within_one_of(final(self)@, finalized_state@.current_epoch(*spec)),
    {
        let epoch = finalized_state.current_epoch(spec);
        let ghost before = self@;
        let ghost pred = |b: BucketView| bucket_stays(b, epoch);
        let ghost verdicts = verdicts_of(before, pred);
        let n: usize = self.buckets.len();
        let mut kept: usize = 0;
        let mut seen: usize = 0;
        assert(self@ =~= accepted_upto(before, verdicts, 0) + before.skip(0));
        while seen < n
            invariant
                seen <= n,
                n == before.len(),
                kept <= seen,
                kept + (n - seen) == self.buckets@.len(),
                kept == accepted_upto(before, verdicts, seen as nat).len(),
                self@ == accepted_upto(before, verdicts, seen as nat) + before.skip(seen as int),
                verdicts == verdicts_of(before, pred),
                pred == (|b: BucketView| bucket_stays(b, epoch)),
            decreases n - seen,
        {
            let bucket = &self.buckets[kept];
            assert(self@[kept as int] == bucket@);
            assert(bucket@ == before[seen as int]);
            let stays: bool = if bucket.attestations.len() > 0 {
                let target: u64 = bucket.attestations[0].data.target.epoch;
                let next: u64 = if target == u64::MAX {
                    target
                } else {
                    target + 1
                };
                assert(bucket@.attestations[0].data.target.epoch == target);
                epoch <= next
            } else {
                false
            };
            assert(stays == pred(before[seen as int]));
            if stays {
                assert(self@ =~= accepted_upto(before, verdicts, (seen + 1) as nat) + before.skip(
                    seen + 1,
                ));
                kept += 1;
            } else {
                let ghost current = self@;
                self.buckets.remove(kept);
                assert(self@ =~= current.remove(kept as int));
                assert(self@ =~= accepted_upto(before, verdicts, (seen + 1) as nat) + before.skip(
                    seen + 1,
                ));
            }
            seen += 1;
        }
        proof {
            assert(self@ =~= accepted(before, verdicts));
            lemma_accepted_well_formed(before, pred, n as nat);
            let after = self@;
            assert forall|i: int, k: int|
                0 <= i < after.len() && 0 <= k < after[i].attestations.len() implies (
            #[trigger] after[i].attestations[k]).data.target.epoch >= epoch - 1 by {
                assert(pred(after[i]));
                lemma_bucket_same_vote(after, i, k, 0);
            }
        }
    }
}

} // verus!
