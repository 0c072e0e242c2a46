//! Which validators an attester slashing would slash.
//!
//! A validator is slashed by a slashing if it signed both of its attestations
//! and is not considered slashed already: by the state, by an operation chosen
//! earlier for the same block, or because it can withdraw.

use vstd::prelude::*;
use crate::types::{AttesterSlashing, AttesterSlashingView, BeaconState, Validator};

verus! {

/// Why a slashing slashes nobody.
#[derive(Clone, Copy, Debug, PartialEq, Eq)]
pub enum SlashableIndicesError {
    /// A validator that signed both attestations is not in the registry.
    UnknownValidator(u64),
    /// Every validator that signed both attestations is considered slashed.
    NoSlashableIndices,
}

/// Whether the validator `index` is considered slashed already: the state says
/// so, or `claimed` holds it, or it can withdraw at the epoch `withdrawable_at`.
pub open spec fn considered_slashed(
    validator: Validator,
    index: u64,
    claimed: Seq<u64>,
    withdrawable_at: Option<u64>,
) -> bool {
    validator.slashed || claimed.contains(index) || match withdrawable_at {
        Some(epoch) => validator.spec_is_withdrawable_at(epoch),
        None => false,
    }
}

/// What the first `n` signers of the first attestation give: the validators
/// among them that the slashing slashes, in their order and each once, or the
/// first of them that signed both attestations and is not in the registry.
pub open spec fn slashable_upto(
    slashing: AttesterSlashingView,
    validators: Seq<Validator>,
    claimed: Seq<u64>,
    withdrawable_at: Option<u64>,
    n: nat,
) -> Result<Seq<u64>, SlashableIndicesError>
    decreases n,
{
    if n == 0 {
        Ok(Seq::empty())
    } else {
        match slashable_upto(slashing, validators, claimed, withdrawable_at, (n - 1) as nat) {
            Err(e) => Err(e),
            Ok(before) => {
                let index = slashing.attestation_1.attesting_indices[n - 1];
                if !slashing.attestation_2.attesting_indices.contains(index)
                    || slashing.attestation_1.attesting_indices.take(n - 1).contains(index) {
                    Ok(before)
                } else if index >= validators.len() {
                    Err(SlashableIndicesError::UnknownValidator(index))
                } else if considered_slashed(
                    validators[index as int],
                    index,
                    claimed,
                    withdrawable_at,
                ) {
                    Ok(before)
                } else {
                    Ok(before.push(index))
                }
            },
        }
    }
}

/// The validators that the slashing slashes, in the order of the signers of its
/// first attestation and each once; an error where one that signed both is not
/// in the registry, or where there is none to slash.
pub open spec fn spec_slashable_indices(
    slashing: AttesterSlashingView,
    validators: Seq<Validator>,
    claimed: Seq<u64>,
    withdrawable_at: Option<u64>,
) -> Result<Seq<u64>, SlashableIndicesError> {
    match slashable_upto(
        slashing,
        validators,
        claimed,
        withdrawable_at,
        slashing.attestation_1.attesting_indices.len(),
    ) {
        Err(e) => Err(e),
        Ok(indices) => if indices.len() == 0 {
            Err(SlashableIndicesError::NoSlashableIndices)
        } else {
            Ok(indices)
        },
    }
}

/// Where the first `n` signers give validators to slash, these are exactly the
/// validators among them that signed both attestations, that the registry
/// knows, and that are not considered slashed.
pub proof fn lemma_slashable_upto(
    slashing: AttesterSlashingView,
    validators: Seq<Validator>,
    claimed: Seq<u64>,
    withdrawable_at: Option<u64>,
    n: nat,
)
    requires
        n <= slashing.attestation_1.attesting_indices.len(),
        slashable_upto(slashing, validators, claimed, withdrawable_at, n) is Ok,
    ensures
        forall|x: u64|
            #[trigger] slashable_upto(
                slashing,
                validators,
                claimed,
                withdrawable_at,
                n,
            )->Ok_0.contains(x) <==> (slashing.attestation_1.attesting_indices.take(
                n as int,
            ).contains(x) && slashing.attestation_2.attesting_indices.contains(x) && x
                < validators.len() && !considered_slashed(
                validators[x as int],
                x,
                claimed,
                withdrawable_at,
            )),
        slashable_upto(slashing, validators, claimed, withdrawable_at, n)->Ok_0.len() <= n,
    decreases n,
{
    if n > 0 {
        let ids = slashing.attestation_1.attesting_indices;
        let before = slashable_upto(slashing, validators, claimed, withdrawable_at, (n - 1) as nat);
        lemma_slashable_upto(slashing, validators, claimed, withdrawable_at, (n - 1) as nat);
        let now = slashable_upto(slashing, validators, claimed, withdrawable_at, n)->Ok_0;
        let index = ids[n - 1];
        let longer = ids.take(n as int);
        let shorter = ids.take(n - 1);
        assert(longer =~= shorter.push(index));
        assert forall|x: u64| #[trigger]
            now.contains(x) <==> (ids.take(n as int).contains(x)
                && slashing.attestation_2.attesting_indices.contains(x) && x < validators.len()
                && !considered_slashed(validators[x as int], x, claimed, withdrawable_at)) by {
            let old = before->Ok_0;
            if now.len() > old.len() {
                assert(now == old.push(index));
                if now.contains(x) {
                    let k = choose|k: int| 0 <= k < now.len() && now[k] == x;
                    if k < old.len() {
                        assert(old[k] == x);
                        assert(old.contains(x));
                    }
                }
                if x == index {
                    assert(now[old.len() as int] == x);
                } else if old.contains(x) {
                    let k = choose|k: int| 0 <= k < old.len() && old[k] == x;
                    assert(now[k] == x);
                }
            }
            if longer.contains(x) {
                let k = choose|k: int| 0 <= k < longer.len() && longer[k] == x;
                if k < n - 1 {
                    assert(shorter[k] == x);
                }
            }
            if shorter.contains(x) {
                let k = choose|k: int| 0 <= k < shorter.len() && shorter[k] == x;
                assert(longer[k] == x);
            }
            assert(longer[n - 1] == index);
        }
    }
}

/// The slashing slashes exactly the validators that signed both of its
/// attestations and are not considered slashed, and at least one of them.
pub proof fn law_slashable_indices(
    slashing: AttesterSlashingView,
    validators: Seq<Validator>,
    claimed: Seq<u64>,
    withdrawable_at: Option<u64>,
)
    requires
        spec_slashable_indices(slashing, validators, claimed, withdrawable_at) is Ok,
    ensures
        spec_slashable_indices(slashing, validators, claimed, withdrawable_at)->Ok_0.len() > 0,
        forall|x: u64|
            #[trigger] spec_slashable_indices(
                slashing,
                validators,
                claimed,
                withdrawable_at,
            )->Ok_0.contains(x) <==> (slashing.attestation_1.attesting_indices.contains(x)
                && slashing.attestation_2.attesting_indices.contains(x) && x < validators.len()
                && !considered_slashed(validators[x as int], x, claimed, withdrawable_at)),
{
    let ids = slashing.attestation_1.attesting_indices;
    lemma_slashable_upto(slashing, validators, claimed, withdrawable_at, ids.len());
    assert(ids.take(ids.len() as int) =~= ids);
}

/// Whether `indices` holds `index`.
pub fn holds_index(indices: &Vec<u64>, index: u64) -> (r: bool)
    ensures
        r == indices@.contains(index),
{
    let mut i: usize = 0;
    while i < indices.len()
        invariant
            i <= indices@.len(),
            forall|j: int| 0 <= j < i ==> indices@[j] != index,
        decreases indices@.len() - i,
    {
        if indices[i] == index {
            return true;
        }
        i += 1;
    }
    false
}

/// Whether one of the first `n` of `indices` is `index`.
fn holds_index_before(indices: &Vec<u64>, n: usize, index: u64) -> (r: bool)
    requires
        n <= indices@.len(),
    ensures
        r == indices@.take(n as int).contains(index),
{
    let mut i: usize = 0;
    while i < n
        invariant
            i <= n,
            n <= indices@.len(),
            forall|j: int| 0 <= j < i ==> indices@[j] != index,
        decreases n - i,
    {
        if indices[i] == index {
            assert(indices@.take(n as int)[i as int] == index);
            return true;
        }
        i += 1;
    }
    assert forall|j: int| 0 <= j < n implies indices@.take(n as int)[j] != index by {
        assert(indices@[j] != index);
    }
    false
}

/// The validators that `slashing` slashes on top of `state`: those that signed
/// both of its attestations and are not considered slashed already, that is,
/// slashed in the state, held by `claimed`, or able to withdraw at the epoch
/// `withdrawable_at`. An error where a validator that signed both is not in the
/// registry, or where nobody is left to slash.
pub fn get_slashable_indices_modular(
    state: &BeaconState,
    slashing: &AttesterSlashing,
    claimed: &Vec<u64>,
    withdrawable_at: Option<u64>,
) -> (r: Result<Vec<u64>, SlashableIndicesError>)
    ensures
        match r {
            Ok(indices) => spec_slashable_indices(
                slashing@,
                state.validators@,
                claimed@,
                withdrawable_at,
            ) == Ok::<Seq<u64>, SlashableIndicesError>(indices@),
            Err(e) => spec_slashable_indices(
                slashing@,
                state.validators@,
                claimed@,
                withdrawable_at,
            ) == Err::<Seq<u64>, SlashableIndicesError>(e),
        },
{
    let first = &slashing.attestation_1.attesting_indices;
    let second = &slashing.attestation_2.attesting_indices;
    let mut indices: Vec<u64> = Vec::new();
    let mut i: usize = 0;
    while i < first.len()
        invariant
            i <= first@.len(),
            first@ == slashing@.attestation_1.attesting_indices,
            second@ == slashing@.attestation_2.attesting_indices,
            slashable_upto(slashing@, state.validators@, claimed@, withdrawable_at, i as nat)
                == Ok::<Seq<u64>, SlashableIndicesError>(indices@),
        decreases first@.len() - i,
    {
        let index: u64 = first[i];
        if holds_index(second, index) && !holds_index_before(first, i, index) {
            match state.get_validator(index) {
                None => {
                    proof {
                        lemma_error_stays(
                            slashing@,
                            state.validators@,
                            claimed@,
                            withdrawable_at,
                            (i + 1) as nat,
                            first@.len(),
                        );
                    }
                    return Err(SlashableIndicesError::UnknownValidator(index));
                },
                Some(validator) => {
                    let slashed: bool = validator.slashed || holds_index(claimed, index)
                        || match withdrawable_at {
                        Some(epoch) => validator.is_withdrawable_at(epoch),
                        None => false,
                    };
                    if !slashed {
                        indices.push(index);
                    }
                },
            }
        }
        i += 1;
    }
    if indices.len() == 0 {
        Err(SlashableIndicesError::NoSlashableIndices)
    } else {
        Ok(indices)
    }
}

/// Once a signer is found that the registry does not know, that is the result.
proof fn lemma_error_stays(
    slashing: AttesterSlashingView,
    validators: Seq<Validator>,
    claimed: Seq<u64>,
    withdrawable_at: Option<u64>,
    n: nat,
    m: nat,
)
    requires
        n <= m,
        slashable_upto(slashing, validators, claimed, withdrawable_at, n) is Err,
    ensures
        slashable_upto(slashing, validators, claimed, withdrawable_at, m) == slashable_upto(
            slashing,
            validators,
            claimed,
            withdrawable_at,
            n,
        ),
    decreases m,
{
    if n < m {
        lemma_error_stays(slashing, validators, claimed, withdrawable_at, n, (m - 1) as nat);
    }
}

} // verus!
