//! What holds of the attestations that are chosen for a block, whatever the
//! candidates and the state are.

use vstd::prelude::*;
use crate::attestation::lemma_committee_members_len;
use crate::attestation::spec_earliest_attestation_validators;
use crate::attestation_store::{attestation_covers, selection};
use crate::coverage_laws::{coverage, greedy_coverage, is_selection, law_greedy_near_optimal, power};
use crate::max_cover::{
    all_finite, covered_before, gain, greedy, law_gains_never_grow, law_greedy_at_most_useful,
    law_greedy_picks,
};
use crate::types::{AttestationView, BeaconStateView, ChainSpec};

verus! {

/// Every attestation would credit finitely many committee members.
pub proof fn lemma_attestation_covers_finite(
    attestations: Seq<AttestationView>,
    state: BeaconStateView,
    spec: ChainSpec,
)
    ensures
        all_finite(attestation_covers(attestations, state, spec)),
{
    let covers = attestation_covers(attestations, state, spec);
    assert forall|i: int| 0 <= i < covers.len() implies (#[trigger] covers[i]).finite() by {
        lemma_committee_members_len(
            attestations[i].data.slot,
            attestations[i].data.index,
            spec_earliest_attestation_validators(attestations[i], state, spec),
        );
    }
}

/// No more attestations are chosen than the limit allows, nor more than there
/// are candidates; each chosen one is a candidate, and each credits a committee
/// member that none chosen before it credits.
pub proof fn law_selection_is_bounded(
    attestations: Seq<AttestationView>,
    state: BeaconStateView,
    spec: ChainSpec,
    limit: nat,
)
    ensures
        selection(attestations, state, spec, limit).len() <= limit,
        selection(attestations, state, spec, limit).len() <= attestations.len(),
        forall|k: int|
            0 <= k < selection(attestations, state, spec, limit).len() ==> attestations.contains(
                #[trigger] selection(attestations, state, spec, limit)[k],
            ),
        forall|k: nat|
            k < selection(attestations, state, spec, limit).len() ==> gain(
                attestation_covers(attestations, state, spec)[greedy(
                    attestation_covers(attestations, state, spec),
                    limit,
                )[k as int]],
                #[trigger] covered_before(
                    attestation_covers(attestations, state, spec),
                    Set::empty(),
                    greedy(attestation_covers(attestations, state, spec), limit),
                    k,
                ),
            ) > 0,
{
    let covers = attestation_covers(attestations, state, spec);
    let picks = greedy(covers, limit);
    let chosen = selection(attestations, state, spec, limit);
    lemma_attestation_covers_finite(attestations, state, spec);
    law_greedy_picks(covers, Set::empty(), limit);
    law_greedy_at_most_useful(covers, Set::empty(), limit);
    assert forall|k: int| 0 <= k < chosen.len() implies attestations.contains(
        #[trigger] chosen[k],
    ) by {
        assert(0 <= picks[k] < attestations.len());
        assert(attestations[picks[k]] == chosen[k]);
    }
}

/// The gains of the chosen attestations never grow: an attestation chosen
/// earlier credited, when it was chosen, at least as many new committee members
/// as one chosen later credited when that one was chosen.
pub proof fn law_selection_gains_never_grow(
    attestations: Seq<AttestationView>,
    state: BeaconStateView,
    spec: ChainSpec,
    limit: nat,
    i: nat,
    j: nat,
)
    requires
        i <= j < selection(attestations, state, spec, limit).len(),
    ensures
        gain(
            attestation_covers(attestations, state, spec)[greedy(
                attestation_covers(attestations, state, spec),
                limit,
            )[i as int]],
            covered_before(
                attestation_covers(attestations, state, spec),
                Set::empty(),
                greedy(attestation_covers(attestations, state, spec), limit),
                i,
            ),
        ) >= gain(
            attestation_covers(attestations, state, spec)[greedy(
                attestation_covers(attestations, state, spec),
                limit,
            )[j as int]],
            covered_before(
                attestation_covers(attestations, state, spec),
                Set::empty(),
                greedy(attestation_covers(attestations, state, spec), limit),
                j,
            ),
        ),
{
    lemma_attestation_covers_finite(attestations, state, spec);
    law_gains_never_grow(
        attestation_covers(attestations, state, spec),
        Set::empty(),
        limit,
        i,
        j,
    );
}

/// The chosen attestations credit almost as many committee members as any
/// choice could: with `limit` attestations allowed, they fall short of any
/// selection of at most `limit` candidates by at most the fraction
/// `((limit - 1) / limit)^limit` of what that selection credits, which is less
/// than `1 / e`.
pub proof fn law_selection_near_optimal(
    attestations: Seq<AttestationView>,
    state: BeaconStateView,
    spec: ChainSpec,
    limit: nat,
    rival: Seq<int>,
)
    requires
        is_selection(attestation_covers(attestations, state, spec), rival),
        rival.len() <= limit,
        limit >= 1,
    ensures
        power(limit as int, limit) * (coverage(attestation_covers(attestations, state, spec), rival)
            - greedy_coverage(attestation_covers(attestations, state, spec), limit)) <= power(
            limit - 1,
            limit,
        ) * coverage(attestation_covers(attestations, state, spec), rival),
{
    lemma_attestation_covers_finite(attestations, state, spec);
    law_greedy_near_optimal(attestation_covers(attestations, state, spec), limit, rival);
}

} // verus!
