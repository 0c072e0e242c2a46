//! The signature sets of the operations of a block: for each operation, the
//! signature, the message that it must sign and the keys that must have signed
//! it, so that one set can be verified alone or many together.
//!
//! Decompressing a public key, decoding a signature and finding the proposer of
//! a slot are not done here; the functions that need them take them as
//! function values.

use vstd::prelude::*;
use crate::aggregate_signature::AggregateSignature;
use crate::attestation_id::{spec_get_deposit_domain, spec_get_domain};
use crate::points::{PublicKey, RawPublicKey, RawSignature};
use crate::signature::Signature;
use crate::signature_set::{signed_message_views, G1Ref, SignatureSet, SignedMessage};
use crate::tree_hash::{signing_root, signing_root_of, spec_signing_root, Epoch, TreeHash};
use crate::types::{
    AttesterSlashing, BeaconBlock, BeaconState, BeaconStateError, ChainSpec, DepositData,
    Domain, IndexedAttestation, ProposerSlashing, SignedBeaconBlock, SignedBeaconBlockHeader,
    Validator, VoluntaryExit,
};

verus! {

/// Why a signature set could not be made.
#[derive(Clone, Copy, Debug, PartialEq, Eq)]
pub enum Error {
    /// Signature verification failed. The block is invalid.
    SignatureInvalid,
    /// The state gave no answer. Whether the block is valid was not determined.
    BeaconStateError(BeaconStateError),
    /// The registry has no validator of this index.
    ValidatorUnknown(u64),
    /// The keys are not as many as the objects that need one.
    MismatchedPublicKeyLen { pubkey_len: usize, other_len: usize },
    /// The bytes of the public key of this validator are no key.
    BadBlsBytes { validator_index: u64 },
}

impl From<BeaconStateError> for Error {
    fn from(e: BeaconStateError) -> (r: Error) {
        Error::BeaconStateError(e)
    }
}

impl vstd::std_specs::convert::FromSpecImpl<BeaconStateError> for Error {
    open spec fn obeys_from_spec() -> bool {
        true
    }

    open spec fn from_spec(e: BeaconStateError) -> Error {
        Error::BeaconStateError(e)
    }
}

/// Whether `r` is what looking up the key of the validator `index` can give:
/// the key that `decompress` makes of the bytes in the registry, or the error
/// that the registry has no such validator or that its bytes are no key.
pub open spec fn is_pubkey_of<D: Fn([u8; 48]) -> Option<RawPublicKey>>(
    decompress: D,
    validators: Seq<Validator>,
    index: int,
    r: Result<RawPublicKey, Error>,
) -> bool {
    if 0 <= index < validators.len() {
        match r {
            Ok(key) => call_ensures(decompress, (validators[index].pubkey,), Some(key)),
            Err(e) => e == (Error::BadBlsBytes { validator_index: index as u64 })
                && call_ensures(decompress, (validators[index].pubkey,), None),
        }
    } else {
        r == Err::<RawPublicKey, Error>(Error::ValidatorUnknown(index as u64))
    }
}

/// Whether the set is that of one message signed with one key.
pub open spec fn is_single_set(
    set: SignatureSet,
    signature: RawSignature,
    key: RawPublicKey,
    message: Seq<u8>,
    domain: u64,
) -> bool {
    &&& *set.signature == signature
    &&& signed_message_views(set.signed_messages@) == seq![(seq![key], message)]
    &&& set.domain == domain
}

/// Whether `r` is the set of one message that the validator `index` must have
/// signed, or the error of looking up its key.
pub open spec fn is_set_of<D: Fn([u8; 48]) -> Option<RawPublicKey>>(
    decompress: D,
    validators: Seq<Validator>,
    index: int,
    signature: RawSignature,
    message: Seq<u8>,
    domain: u64,
    r: Result<SignatureSet, Error>,
) -> bool {
    match r {
        Ok(set) => is_pubkey_of(decompress, validators, index, Ok(single_key(set)))
            && is_single_set(set, signature, single_key(set), message, domain),
        Err(e) => is_pubkey_of(decompress, validators, index, Err(e)),
    }
}

/// The first key of the first message of a set.
pub open spec fn single_key(set: SignatureSet) -> RawPublicKey {
    set.signed_messages@[0].signing_keys@[0]
}

/// The key of a set of one message signed with one key is that key.
pub proof fn lemma_single_key(
    set: SignatureSet,
    signature: RawSignature,
    key: RawPublicKey,
    message: Seq<u8>,
    domain: u64,
)
    requires
        is_single_set(set, signature, key, message, domain),
    ensures
        single_key(set) == key,
{
    let views = signed_message_views(set.signed_messages@);
    assert(views.len() == 1);
    assert(set.signed_messages@.len() == 1);
    assert(views[0] == (seq![key], message));
    assert(views[0] == (
        set.signed_messages@[0].signing_keys@,
        set.signed_messages@[0].message@,
    ));
    assert(set.signed_messages@[0].signing_keys@ == seq![key]);
    assert(seq![key][0] == key);
}

/// The public key of the validator `validator_index`.
pub fn validator_pubkey<D: Fn([u8; 48]) -> Option<RawPublicKey>>(
    state: &BeaconState,
    validator_index: usize,
    decompress: &D,
) -> (r: Result<RawPublicKey, Error>)
    requires
        forall|bytes: [u8; 48]| call_requires(*decompress, (bytes,)),
    ensures
        is_pubkey_of(*decompress, state.validators@, validator_index as int, r),
{
    if validator_index >= state.validators.len() {
        return Err(Error::ValidatorUnknown(validator_index as u64));
    }
    let pubkey_bytes = state.validators[validator_index].pubkey;
    match decompress(pubkey_bytes) {
        Some(key) => Ok(key),
        None => Err(Error::BadBlsBytes { validator_index: validator_index as u64 }),
    }
}

/// The public key of the validator `index`, where the index is as wide as the
/// registry can be long.
fn pubkey_of<D: Fn([u8; 48]) -> Option<RawPublicKey>>(
    state: &BeaconState,
    index: u64,
    decompress: &D,
) -> (r: Result<RawPublicKey, Error>)
    requires
        forall|bytes: [u8; 48]| call_requires(*decompress, (bytes,)),
    ensures
        is_pubkey_of(*decompress, state.validators@, index as int, r),
{
    let len: usize = state.validators.len();
    if index >= len as u64 {
        return Err(Error::ValidatorUnknown(index));
    }
    validator_pubkey(state, index as usize, decompress)
}

/// The set that is valid if the expected proposer signed the block. What is
/// signed is the block under the domain of proposers at the epoch of its slot;
/// where the root of the block is given it is not computed again.
pub fn block_proposal_signature_set<'a, P, D>(
    state: &'a BeaconState,
    signed_block: &'a SignedBeaconBlock,
    block_root: Option<[u8; 32]>,
    spec: &'a ChainSpec,
    proposer_index: P,
    decompress: &D,
) -> (r: Result<SignatureSet<'a>, Error>) where
    P: FnOnce(u64) -> Result<usize, BeaconStateError>,
    D: Fn([u8; 48]) -> Option<RawPublicKey>,

    requires
        spec.well_formed(),
        call_requires(proposer_index, (signed_block.message.slot,)),
        forall|bytes: [u8; 48]| call_requires(*decompress, (bytes,)),
    ensures
        exists|proposer: Result<usize, BeaconStateError>|
            {
                &&& call_ensures(proposer_index, (signed_block.message.slot,), proposer)
                &&& match proposer {
                    Err(e) => r is Err && r->Err_0 == Error::BeaconStateError(e),
                    Ok(index) => is_set_of(
                        *decompress,
                        state.validators@,
                        index as int,
                        signed_block.signature.signature,
                        spec_signing_root(
                            match block_root {
                                Some(root) => root@,
                                None => signed_block.message.spec_tree_hash_root(),
                            },
                            proposal_domain(*state, signed_block.message.slot, *spec),
                        ),
                        proposal_domain(*state, signed_block.message.slot, *spec),
                        r,
                    ),
                }
            },
{
    let block = &signed_block.message;
    let proposer = proposer_index(block.slot);
    let index: usize = match proposer {
        Ok(index) => index,
        Err(e) => {
            let r: Result<SignatureSet<'a>, Error> = Err(Error::BeaconStateError(e));
            assert(call_ensures(proposer_index, (signed_block.message.slot,), proposer) && r is Err
                && r->Err_0 == Error::BeaconStateError(e));
            return r;
        },
    };
    let domain = spec.get_domain(
        block.slot / spec.slots_per_epoch,
        Domain::BeaconProposer,
        &state.fork,
    );
    let message = match block_root {
        Some(root) => {
            let mut bytes: Vec<u8> = Vec::new();
            crate::encoding::append_array(&mut bytes, &root);
            assert(bytes@ =~= root@);
            signing_root_of(bytes.as_slice(), domain)
        },
        None => signing_root(block, domain),
    };
    let r = single_set(state, &signed_block.signature, index, message, domain, decompress);
    assert(call_ensures(proposer_index, (signed_block.message.slot,), proposer));
    r
}

/// The domain of proposers at the epoch of `slot`.
pub open spec fn proposal_domain(state: BeaconState, slot: u64, spec: ChainSpec) -> u64 {
    spec_get_domain(spec, slot / spec.slots_per_epoch, Domain::BeaconProposer, state.fork)
}

/// The set of one message that the validator `index` must have signed.
fn single_set<'a, S: crate::signature_set::G2Ref, D: Fn([u8; 48]) -> Option<RawPublicKey>>(
    state: &BeaconState,
    signature: &'a S,
    index: usize,
    message: Vec<u8>,
    domain: u64,
    decompress: &D,
) -> (r: Result<SignatureSet<'a>, Error>)
    requires
        forall|bytes: [u8; 48]| call_requires(*decompress, (bytes,)),
    ensures
        is_set_of(
            *decompress,
            state.validators@,
            index as int,
            signature.spec_g2(),
            message@,
            domain,
            r,
        ),
{
    let ghost wanted = message@;
    match validator_pubkey(state, index, decompress) {
        Ok(key) => {
            let set = SignatureSet::single(signature, key, message, domain);
            proof {
                lemma_single_key(set, signature.spec_g2(), key, wanted, domain);
            }
            Ok(set)
        },
        Err(e) => Err(e),
    }
}

/// The set that is valid if the reveal of the block is the signature of its
/// proposer on the current epoch of the state, under the domain of reveals at
/// the epoch of the block.
pub fn randao_signature_set<'a, P, D>(
    state: &'a BeaconState,
    block: &'a BeaconBlock,
    spec: &'a ChainSpec,
    proposer_index: P,
    decompress: &D,
) -> (r: Result<SignatureSet<'a>, Error>) where
    P: FnOnce(u64) -> Result<usize, BeaconStateError>,
    D: Fn([u8; 48]) -> Option<RawPublicKey>,

    requires
        spec.well_formed(),
        call_requires(proposer_index, (block.slot,)),
        forall|bytes: [u8; 48]| call_requires(*decompress, (bytes,)),
    ensures
        exists|proposer: Result<usize, BeaconStateError>|
            {
                &&& call_ensures(proposer_index, (block.slot,), proposer)
                &&& match proposer {
                    Err(e) => r is Err && r->Err_0 == Error::BeaconStateError(e),
                    Ok(index) => is_set_of(
                        *decompress,
                        state.validators@,
                        index as int,
                        block.randao_reveal.signature,
                        spec_signing_root(
                            Epoch(state@.current_epoch(*spec)).spec_tree_hash_root(),
                            randao_domain(*state, block.slot, *spec),
                        ),
                        randao_domain(*state, block.slot, *spec),
                        r,
                    ),
                }
            },
{
    let proposer = proposer_index(block.slot);
    let index: usize = match proposer {
        Ok(index) => index,
        Err(e) => {
            let r: Result<SignatureSet<'a>, Error> = Err(Error::BeaconStateError(e));
            assert(call_ensures(proposer_index, (block.slot,), proposer) && r is Err && r->Err_0
                == Error::BeaconStateError(e));
            return r;
        },
    };
    let domain = spec.get_domain(block.slot / spec.slots_per_epoch, Domain::Randao, &state.fork);
    let epoch = Epoch(state.current_epoch(spec));
    let message = signing_root(&epoch, domain);
    let r = single_set(state, &block.randao_reveal, index, message, domain, decompress);
    assert(call_ensures(proposer_index, (block.slot,), proposer));
    r
}

/// The domain of reveals at the epoch of `slot`.
pub open spec fn randao_domain(state: BeaconState, slot: u64, spec: ChainSpec) -> u64 {
    spec_get_domain(spec, slot / spec.slots_per_epoch, Domain::Randao, state.fork)
}

/// What is signed for a block header: the header under the domain of proposers
/// at the epoch of its slot.
pub open spec fn header_message(header: SignedBeaconBlockHeader, state: BeaconState, spec: ChainSpec)
    -> Seq<u8> {
    spec_signing_root(
        header.message.spec_tree_hash_root(),
        proposal_domain(state, header.message.slot, spec),
    )
}

/// The set that is valid if `pubkey` signed the header.
pub fn block_header_signature_set<'a>(
    state: &'a BeaconState,
    signed_header: &'a SignedBeaconBlockHeader,
    pubkey: RawPublicKey,
    spec: &'a ChainSpec,
) -> (r: Result<SignatureSet<'a>, Error>)
    requires
        spec.well_formed(),
    ensures
        r is Ok,
        is_single_set(
            r->Ok_0,
            signed_header.signature,
            pubkey,
            header_message(*signed_header, *state, *spec),
            proposal_domain(*state, signed_header.message.slot, *spec),
        ),
{
    let domain = spec.get_domain(
        signed_header.message.slot / spec.slots_per_epoch,
        Domain::BeaconProposer,
        &state.fork,
    );
    let message = signing_root(&signed_header.message, domain);
    Ok(SignatureSet::single(&signed_header.signature, pubkey, message, domain))
}

/// The two sets of a proposer slashing, one for each of its headers: each is
/// valid if the proposer signed that header.
pub fn proposer_slashing_signature_set<'a, D: Fn([u8; 48]) -> Option<RawPublicKey>>(
    state: &'a BeaconState,
    proposer_slashing: &'a ProposerSlashing,
    spec: &'a ChainSpec,
    decompress: &D,
) -> (r: Result<(SignatureSet<'a>, SignatureSet<'a>), Error>)
    requires
        spec.well_formed(),
        forall|bytes: [u8; 48]| call_requires(*decompress, (bytes,)),
    ensures
        match r {
            Ok((first, second)) => is_set_of(
                *decompress,
                state.validators@,
                proposer_slashing.proposer_index as int,
                proposer_slashing.signed_header_1.signature,
                header_message(proposer_slashing.signed_header_1, *state, *spec),
                proposal_domain(*state, proposer_slashing.signed_header_1.message.slot, *spec),
                Ok(first),
            ) && is_set_of(
                *decompress,
                state.validators@,
                proposer_slashing.proposer_index as int,
                proposer_slashing.signed_header_2.signature,
                header_message(proposer_slashing.signed_header_2, *state, *spec),
                proposal_domain(*state, proposer_slashing.signed_header_2.message.slot, *spec),
                Ok(second),
            ),
            Err(e) => is_pubkey_of(
                *decompress,
                state.validators@,
                proposer_slashing.proposer_index as int,
                Err(e),
            ),
        },
{
    let first_key = pubkey_of(state, proposer_slashing.proposer_index, decompress)?;
    let first = block_header_signature_set(
        state,
        &proposer_slashing.signed_header_1,
        first_key,
        spec,
    )?;
    let second_key = pubkey_of(state, proposer_slashing.proposer_index, decompress)?;
    let second = block_header_signature_set(
        state,
        &proposer_slashing.signed_header_2,
        second_key,
        spec,
    )?;
    proof {
        lemma_single_key(
            first,
            proposer_slashing.signed_header_1.signature,
            first_key,
            header_message(proposer_slashing.signed_header_1, *state, *spec),
            proposal_domain(*state, proposer_slashing.signed_header_1.message.slot, *spec),
        );
        lemma_single_key(
            second,
            proposer_slashing.signed_header_2.signature,
            second_key,
            header_message(proposer_slashing.signed_header_2, *state, *spec),
            proposal_domain(*state, proposer_slashing.signed_header_2.message.slot, *spec),
        );
    }
    Ok((first, second))
}

/// The domain of attestations at the target epoch of a vote.
pub open spec fn attestation_domain(state: BeaconState, target_epoch: u64, spec: ChainSpec) -> u64 {
    spec_get_domain(spec, target_epoch, Domain::BeaconAttester, state.fork)
}

/// Whether `r` is the set of an indexed attestation with the signature
/// `signature`: one message, the vote under the domain of attestations at its
/// target epoch, signed with the keys of all its signers in their order; or
/// the error of looking up the key of one of them.
pub open spec fn is_indexed_set_of<D: Fn([u8; 48]) -> Option<RawPublicKey>>(
    decompress: D,
    state: BeaconState,
    spec: ChainSpec,
    signature: RawSignature,
    indexed_attestation: IndexedAttestation,
    r: Result<SignatureSet, Error>,
) -> bool {
    match r {
        Ok(set) => {
            &&& *set.signature == signature
            &&& set.domain == attestation_domain(
                state,
                indexed_attestation.data.target.epoch,
                spec,
            )
            &&& set.signed_messages@.len() == 1
            &&& set.signed_messages@[0].message@ == spec_signing_root(
                indexed_attestation.data.spec_tree_hash_root(),
                attestation_domain(state, indexed_attestation.data.target.epoch, spec),
            )
            &&& set.signed_messages@[0].signing_keys@.len()
                == indexed_attestation.attesting_indices@.len()
            &&& forall|i: int|
                0 <= i < indexed_attestation.attesting_indices@.len() ==> is_pubkey_of(
                    decompress,
                    state.validators@,
                    indexed_attestation.attesting_indices@[i] as int,
                    Ok(#[trigger] set.signed_messages@[0].signing_keys@[i]),
                )
        },
        Err(e) => exists|i: int|
            0 <= i < indexed_attestation.attesting_indices@.len() && is_pubkey_of(
                decompress,
                state.validators@,
                #[trigger] indexed_attestation.attesting_indices@[i] as int,
                Err(e),
            ),
    }
}

/// The set of an indexed attestation: valid if `signature` is the aggregate
/// signature of all its signers on its vote.
pub fn indexed_attestation_signature_set<'a, 'b, D: Fn([u8; 48]) -> Option<RawPublicKey>>(
    state: &'a BeaconState,
    signature: &'a AggregateSignature,
    indexed_attestation: &'b IndexedAttestation,
    spec: &'a ChainSpec,
    decompress: &D,
) -> (r: Result<SignatureSet<'a>, Error>)
    requires
        forall|bytes: [u8; 48]| call_requires(*decompress, (bytes,)),
    ensures
        is_indexed_set_of(
            *decompress,
            *state,
            *spec,
            signature.aggregate_signature,
            *indexed_attestation,
            r,
        ),
{
    let mut pubkeys: Vec<RawPublicKey> = Vec::new();
    let mut i: usize = 0;
    while i < indexed_attestation.attesting_indices.len()
        invariant
            i <= indexed_attestation.attesting_indices@.len(),
            forall|bytes: [u8; 48]| call_requires(*decompress, (bytes,)),
            pubkeys@.len() == i,
            forall|j: int|
                0 <= j < i ==> is_pubkey_of(
                    *decompress,
                    state.validators@,
                    indexed_attestation.attesting_indices@[j] as int,
                    Ok(#[trigger] pubkeys@[j]),
                ),
        decreases indexed_attestation.attesting_indices@.len() - i,
    {
        match pubkey_of(state, indexed_attestation.attesting_indices[i], decompress) {
            Ok(key) => {
                pubkeys.push(key);
            },
            Err(e) => {
                assert(is_pubkey_of(
                    *decompress,
                    state.validators@,
                    indexed_attestation.attesting_indices@[i as int] as int,
                    Err(e),
                ));
                return Err(e);
            },
        }
        i += 1;
    }
    let domain = spec.get_domain(
        indexed_attestation.data.target.epoch,
        Domain::BeaconAttester,
        &state.fork,
    );
    let message = signing_root(&indexed_attestation.data, domain);
    let signed_message = SignedMessage::new(pubkeys, message);
    let mut signed_messages: Vec<SignedMessage> = Vec::new();
    signed_messages.push(signed_message);
    Ok(SignatureSet::new(signature, signed_messages, domain))
}

/// The two sets of an attester slashing, one for each of its attestations.
pub fn attester_slashing_signature_sets<'a, D: Fn([u8; 48]) -> Option<RawPublicKey>>(
    state: &'a BeaconState,
    attester_slashing: &'a AttesterSlashing,
    spec: &'a ChainSpec,
    decompress: &D,
) -> (r: Result<(SignatureSet<'a>, SignatureSet<'a>), Error>)
    requires
        forall|bytes: [u8; 48]| call_requires(*decompress, (bytes,)),
    ensures
        match r {
            Ok((first, second)) => is_indexed_set_of(
                *decompress,
                *state,
                *spec,
                attester_slashing.attestation_1.signature.aggregate_signature,
                attester_slashing.attestation_1,
                Ok(first),
            ) && is_indexed_set_of(
                *decompress,
                *state,
                *spec,
                attester_slashing.attestation_2.signature.aggregate_signature,
                attester_slashing.attestation_2,
                Ok(second),
            ),
            Err(e) => is_indexed_set_of(
                *decompress,
                *state,
                *spec,
                attester_slashing.attestation_1.signature.aggregate_signature,
                attester_slashing.attestation_1,
                Err(e),
            ) || is_indexed_set_of(
                *decompress,
                *state,
                *spec,
                attester_slashing.attestation_2.signature.aggregate_signature,
                attester_slashing.attestation_2,
                Err(e),
            ),
        },
{
    let first = indexed_attestation_signature_set(
        state,
        &attester_slashing.attestation_1.signature,
        &attester_slashing.attestation_1,
        spec,
        decompress,
    )?;
    let second = indexed_attestation_signature_set(
        state,
        &attester_slashing.attestation_2.signature,
        &attester_slashing.attestation_2,
        spec,
        decompress,
    )?;
    Ok((first, second))
}

/// The key, the signature and the signed message of a deposit, if the bytes of
/// the deposit are a key and a signature; `None` otherwise. What is signed is
/// the deposit without its signature, under the domain of deposits.
pub fn deposit_pubkey_signature_message<D, S>(
    deposit_data: &DepositData,
    spec: &ChainSpec,
    decompress: D,
    decode_signature: S,
) -> (r: Option<(PublicKey, Signature, Vec<u8>)>) where
    D: FnOnce([u8; 48]) -> Option<RawPublicKey>,
    S: FnOnce([u8; 96]) -> Option<Signature>,

    requires
        call_requires(decompress, (deposit_data.pubkey,)),
        call_requires(decode_signature, (deposit_data.signature,)),
    ensures
        match r {
            Some((pubkey, signature, message)) => {
                &&& call_ensures(decompress, (deposit_data.pubkey,), Some(pubkey.0))
                &&& call_ensures(decode_signature, (deposit_data.signature,), Some(signature))
                &&& message@ == spec_signing_root(
                    deposit_data.spec_tree_hash_root(),
                    spec_get_deposit_domain(*spec),
                )
            },
            None => call_ensures(decompress, (deposit_data.pubkey,), None) || call_ensures(
                decode_signature,
                (deposit_data.signature,),
                None,
            ),
        },
{
    let pubkey = PublicKey::new_from_raw(decompress(deposit_data.pubkey)?);
    let signature = decode_signature(deposit_data.signature)?;
    let domain = spec.get_deposit_domain();
    let message = signing_root(deposit_data, domain);
    Some((pubkey, signature, message))
}

/// The set of a deposit, made of what `deposit_pubkey_signature_message` gave.
/// Deposits are valid on every fork, so their domain is that of the fork of
/// version zero.
pub fn deposit_signature_set<'a>(
    pubkey_signature_message: &'a (PublicKey, Signature, Vec<u8>),
    spec: &ChainSpec,
) -> (r: SignatureSet<'a>)
    ensures
        is_single_set(
            r,
            pubkey_signature_message.1.signature,
            pubkey_signature_message.0.0,
            pubkey_signature_message.2@,
            spec_get_deposit_domain(*spec),
        ),
{
    let message = pubkey_signature_message.2.clone();
    assert(message@ =~= pubkey_signature_message.2@);
    SignatureSet::single(
        &pubkey_signature_message.1,
        pubkey_signature_message.0.g1_ref(),
        message,
        spec.get_deposit_domain(),
    )
}

/// The domain of exits at an epoch.
pub open spec fn exit_domain(state: BeaconState, epoch: u64, spec: ChainSpec) -> u64 {
    spec_get_domain(spec, epoch, Domain::VoluntaryExit, state.fork)
}

/// The set that is valid if the validator that exits signed the exit, under the
/// domain of exits at the epoch of the exit.
pub fn exit_signature_set<'a, D: Fn([u8; 48]) -> Option<RawPublicKey>>(
    state: &'a BeaconState,
    signed_exit: &'a VoluntaryExit,
    spec: &'a ChainSpec,
    decompress: &D,
) -> (r: Result<SignatureSet<'a>, Error>)
    requires
        forall|bytes: [u8; 48]| call_requires(*decompress, (bytes,)),
    ensures
        is_set_of(
            *decompress,
            state.validators@,
            signed_exit.validator_index as int,
            signed_exit.signature,
            spec_signing_root(
                signed_exit.spec_tree_hash_root(),
                exit_domain(*state, signed_exit.epoch, *spec),
            ),
            exit_domain(*state, signed_exit.epoch, *spec),
            r,
        ),
{
    let domain = spec.get_domain(signed_exit.epoch, Domain::VoluntaryExit, &state.fork);
    let message = signing_root(signed_exit, domain);
    let ghost wanted = message@;
    match pubkey_of(state, signed_exit.validator_index, decompress) {
        Ok(key) => {
            let set = SignatureSet::single(&signed_exit.signature, key, message, domain);
            proof {
                lemma_single_key(set, signed_exit.signature, key, wanted, domain);
            }
            Ok(set)
        },
        Err(e) => Err(e),
    }
}

} // verus!
