//! What holds of the aggregation of attestations, whatever the store and the
//! attestations are.

use vstd::prelude::*;
use crate::attestation_store::{
    appends, bucket_index, entries_with, first_disjoint, first_disjoint_from, keyed_by,
    lemma_bucket_index_from, lemma_first_disjoint_from, lemma_store_with, merge_target,
    store_well_formed, store_with, total_attestations, BucketView,
};
use crate::bitfield::lemma_count_union;
use crate::points::RawSignature;
use crate::types::AttestationView;

verus! {

/// Inserting an attestation a second time leaves the number of attestations as
/// it is, unless the first insertion merged it into another and nothing is left
/// for the second to merge it into: then the second finds neither its equal nor
/// a partner, and the attestation joins the bucket.
pub proof fn law_second_insert_keeps_count(
    store: Seq<BucketView>,
    id: Seq<u8>,
    a: AttestationView,
    first_sum: RawSignature,
    second_sum: RawSignature,
)
    requires
        store_well_formed(store),
        keyed_by(id, a.data),
        !(merge_target(store, id, a) is Some && appends(
            store_with(store, id, a, first_sum),
            id,
            a,
        )),
    ensures
        total_attestations(
            store_with(store_with(store, id, a, first_sum), id, a, second_sum),
        ) == total_attestations(store_with(store, id, a, first_sum)),
{
    let once = store_with(store, id, a, first_sum);
    lemma_store_with(store, id, a, first_sum);
    lemma_store_with(once, id, a, second_sum);
    lemma_bucket_index_from(store, id, 0);
    if merge_target(store, id, a) is None {
        let b = bucket_index(store, id);
        if b >= 0 {
            let entries = store[b].attestations;
            lemma_first_disjoint_from(entries, a, 0);
            if !entries.contains(a) {
                assert(entries.push(a)[entries.len() as int] == a);
            }
        } else {
            assert(seq![a][0] == a);
        }
        assert(once[bucket_index(once, id)].attestations.contains(a));
    }
}

/// An attestation that has a signer, and that the store holds without having
/// merged it, changes nothing when it is inserted again.
pub proof fn law_duplicate_changes_nothing(
    store: Seq<BucketView>,
    id: Seq<u8>,
    a: AttestationView,
    first_sum: RawSignature,
    second_sum: RawSignature,
)
    requires
        store_well_formed(store),
        keyed_by(id, a.data),
        merge_target(store, id, a) is None,
        a.num_signers() > 0,
    ensures
        store_with(store_with(store, id, a, first_sum), id, a, second_sum) == store_with(
            store,
            id,
            a,
            first_sum,
        ),
{
    let once = store_with(store, id, a, first_sum);
    lemma_store_with(store, id, a, first_sum);
    lemma_bucket_index_from(store, id, 0);
    lemma_bucket_index_from(once, id, 0);
    lemma_own_signers_overlap(a);
    let b = bucket_index(store, id);
    let c = bucket_index(once, id);
    let after = once[c].attestations;
    if b >= 0 {
        let entries = store[b].attestations;
        lemma_first_disjoint_from(entries, a, 0);
        if !entries.contains(a) {
            assert(after == entries.push(a));
            assert(after[entries.len() as int] == a);
        }
    } else {
        assert(after == seq![a]);
        assert(after[0] == a);
    }
    lemma_first_disjoint_from(after, a, 0);
    assert(first_disjoint(after, a) < 0) by {
        let m = first_disjoint(after, a);
        if m >= 0 {
            if b >= 0 && m < store[b].attestations.len() {
                assert(after[m] == store[b].attestations[m]);
            }
        }
    }
    assert(after.contains(a));
    assert(entries_with(after, a, second_sum) == after);
    assert(store_with(once, id, a, second_sum) =~= once);
}

/// An attestation with a signer shares that signer with itself.
proof fn lemma_own_signers_overlap(a: AttestationView)
    requires
        a.num_signers() > 0,
    ensures
        !a.signers_disjoint_from(a),
{
    if a.signers_disjoint_from(a) {
        lemma_no_bit_set(a.aggregation_bits, a.aggregation_bits.len());
    }
}

/// A bitfield that is disjoint from itself has no set bit.
proof fn lemma_no_bit_set(bits: Seq<bool>, n: nat)
    requires
        crate::bitfield::disjoint(bits, bits),
    ensures
        crate::bitfield::count_upto(bits, n) == 0,
    decreases n,
{
    if n > 0 {
        lemma_no_bit_set(bits, (n - 1) as nat);
        assert(!(crate::bitfield::bit_at(bits, n - 1) && crate::bitfield::bit_at(bits, n - 1)));
    }
}

/// Two attestations with no signer in common, inserted one after the other
/// under an identity that the store did not have, make one attestation: its
/// signers are those of both, as many as both have together, and its signature
/// is the aggregate of both.
pub proof fn law_disjoint_attestations_merge(
    store: Seq<BucketView>,
    id: Seq<u8>,
    x: AttestationView,
    y: AttestationView,
    first_sum: RawSignature,
    second_sum: RawSignature,
)
    requires
        bucket_index(store, id) < 0,
        x.signers_disjoint_from(y),
    ensures
        store_with(store_with(store, id, x, first_sum), id, y, second_sum) == store.push(
            BucketView { id: id, attestations: seq![x.aggregated(y, second_sum)] },
        ),
        x.aggregated(y, second_sum).num_signers() == x.num_signers() + y.num_signers(),
        x.aggregated(y, second_sum).data == x.data,
        x.aggregated(y, second_sum).signature == x.signature.combined(y.signature, second_sum),
{
    let once = store_with(store, id, x, first_sum);
    lemma_bucket_index_from(store, id, 0);
    lemma_bucket_index_from(once, id, 0);
    assert(once[store.len() as int].id == id);
    assert(bucket_index(once, id) == store.len());
    let entries = once[store.len() as int].attestations;
    assert(entries == seq![x]);
    assert(first_disjoint(entries, y) == 0);
    assert(entries_with(entries, y, second_sum) =~= seq![x.aggregated(y, second_sum)]);
    assert(store_with(once, id, y, second_sum) =~= store.push(
        BucketView { id: id, attestations: seq![x.aggregated(y, second_sum)] },
    ));
    lemma_count_union(x.aggregation_bits, y.aggregation_bits);
}

/// Two different attestations with a signer in common, inserted one after the
/// other under an identity that the store did not have, stay two attestations,
/// each as it was.
pub proof fn law_overlapping_attestations_stay_apart(
    store: Seq<BucketView>,
    id: Seq<u8>,
    x: AttestationView,
    y: AttestationView,
    first_sum: RawSignature,
    second_sum: RawSignature,
)
    requires
        bucket_index(store, id) < 0,
        !x.signers_disjoint_from(y),
        x != y,
    ensures
        store_with(store_with(store, id, x, first_sum), id, y, second_sum) == store.push(
            BucketView { id: id, attestations: seq![x, y] },
        ),
{
    let once = store_with(store, id, x, first_sum);
    lemma_bucket_index_from(store, id, 0);
    lemma_bucket_index_from(once, id, 0);
    assert(once[store.len() as int].id == id);
    assert(bucket_index(once, id) == store.len());
    let entries = once[store.len() as int].attestations;
    assert(entries == seq![x]);
    assert(first_disjoint_from(entries, y, 1) == -1);
    assert(first_disjoint(entries, y) == -1);
    assert(!entries.contains(y));
    assert(entries_with(entries, y, second_sum) =~= seq![x, y]);
    assert(store_with(once, id, y, second_sum) =~= store.push(
        BucketView { id: id, attestations: seq![x, y] },
    ));
}

/// Attestations under different identities are in different buckets: an
/// insertion under one identity leaves the bucket of every other identity as it
/// is.
pub proof fn law_other_buckets_untouched(
    store: Seq<BucketView>,
    id: Seq<u8>,
    a: AttestationView,
    sum: RawSignature,
    other: Seq<u8>,
)
    requires
        store_well_formed(store),
        keyed_by(id, a.data),
        other != id,
    ensures
        bucket_index(store_with(store, id, a, sum), other) == bucket_index(store, other),
        bucket_index(store, other) >= 0 ==> store_with(store, id, a, sum)[bucket_index(
            store,
            other,
        )] == store[bucket_index(store, other)],
{
    let after = store_with(store, id, a, sum);
    lemma_bucket_index_from(store, id, 0);
    lemma_bucket_index_from(store, other, 0);
    lemma_bucket_index_from(after, other, 0);
    let b = bucket_index(store, other);
    let c = bucket_index(after, other);
    if c >= 0 {
        assert(after[c].id == other);
        if c < store.len() {
            assert(store[c].id == other);
        }
    }
    if b >= 0 {
        assert(after[b].id == other);
    }
}

} // verus!
