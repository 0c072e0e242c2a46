//! The chain data that the pool reads: votes, slashings, exits, and the parts of
//! the chain state and of the configuration that decide what happens to them.

use vstd::prelude::*;
use crate::aggregate_signature::AggregateSignature;
use crate::bitfield::clone_bits;
use crate::encoding::bits_eq;
use crate::encoding::array_eq;

verus! {

/// An epoch and the root of the block that starts it.
#[derive(Clone, Copy, Debug, PartialEq, Eq)]
pub struct Checkpoint {
    pub epoch: u64,
    pub root: [u8; 32],
}

impl Checkpoint {
    /// Whether both name the same epoch and root.
    pub fn same_as(&self, other: &Self) -> (r: bool)
        ensures
            r == (*self == *other),
    {
        self.epoch == other.epoch && array_eq(&self.root, &other.root)
    }
}

/// What an attestation votes for.
#[derive(Clone, Copy, Debug, PartialEq, Eq)]
pub struct AttestationData {
    pub slot: u64,
    pub index: u64,
    pub beacon_block_root: [u8; 32],
    pub source: Checkpoint,
    pub target: Checkpoint,
}

impl AttestationData {
    /// Whether both are the same vote.
    pub fn same_as(&self, other: &Self) -> (r: bool)
        ensures
            r == (*self == *other),
    {
        self.slot == other.slot && self.index == other.index && array_eq(
            &self.beacon_block_root,
            &other.beacon_block_root,
        ) && self.source.same_as(&other.source) && self.target.same_as(&other.target)
    }
}

/// A vote, the committee members that signed it, and their aggregate signature.
#[derive(Debug, PartialEq, Eq)]
pub struct Attestation {
    pub aggregation_bits: Vec<bool>,
    pub data: AttestationData,
    pub signature: AggregateSignature,
}

/// The value of an [`Attestation`].
pub struct AttestationView {
    pub aggregation_bits: Seq<bool>,
    pub data: AttestationData,
    pub signature: AggregateSignature,
}

impl View for Attestation {
    type V = AttestationView;

    open spec fn view(&self) -> AttestationView {
        AttestationView {
            aggregation_bits: self.aggregation_bits@,
            data: self.data,
            signature: self.signature,
        }
    }
}

impl AttestationView {
    /// No committee member signed both.
    pub open spec fn signers_disjoint_from(self, other: AttestationView) -> bool {
        crate::bitfield::disjoint(self.aggregation_bits, other.aggregation_bits)
    }

    /// The attestation signed by the signers of both, where `sum` is the sum of the
    /// two signature points.
    pub open spec fn aggregated(
        self,
        other: AttestationView,
        sum: crate::points::RawSignature,
    ) -> AttestationView {
        AttestationView {
            aggregation_bits: crate::bitfield::union(
                self.aggregation_bits,
                other.aggregation_bits,
            ),
            data: self.data,
            signature: self.signature.combined(other.signature, sum),
        }
    }

    /// The number of committee members that signed.
    pub open spec fn num_signers(self) -> nat {
        crate::bitfield::count_set(self.aggregation_bits)
    }
}

impl Clone for Attestation {
    fn clone(&self) -> (r: Self)
        ensures
            r@ == self@,
    {
        Attestation {
            aggregation_bits: clone_bits(&self.aggregation_bits),
            data: self.data,
            signature: self.signature,
        }
    }
}

impl Attestation {

    /// Whether both are equal bit for bit: signers, vote and signature.
    pub fn same_as(&self, other: &Self) -> (r: bool)
        ensures
            r == (self@ == other@),
    {
        bits_eq(&self.aggregation_bits, &other.aggregation_bits) && self.data.same_as(
            &other.data,
        ) && self.signature.same_as(&other.signature)
    }

    /// Whether no committee member signed both.
    pub fn signers_disjoint_from(&self, other: &Self) -> (r: bool)
        ensures
            r == self@.signers_disjoint_from(other@),
    {
        crate::bitfield::is_disjoint(&self.aggregation_bits, &other.aggregation_bits)
    }

    /// The number of committee members that signed.
    pub fn num_signers(&self) -> (r: usize)
        ensures
            r == self@.num_signers(),
    {
        crate::bitfield::num_set_bits(&self.aggregation_bits)
    }

    /// Merges `other` into `self`, given the sum of the two signature points.
    pub fn aggregate_sum(&mut self, other: &Self, sum: crate::points::RawSignature)
        ensures
            final(self)@ == old(self)@.aggregated(other@, sum),
    {
        self.aggregation_bits = crate::bitfield::bit_union(
            &self.aggregation_bits,
            &other.aggregation_bits,
        );
        self.signature.add_aggregate_sum(&other.signature, sum);
    }

    /// Merges `other` into `self`: the signers become the union of both, and the
    /// signature the aggregate of both, with `add_points` adding the two points.
    pub fn aggregate<F>(&mut self, other: &Self, add_points: F) where
        F: FnOnce(crate::points::RawSignature, crate::points::RawSignature)
            -> crate::points::RawSignature,

        requires
            call_requires(
                add_points,
                (old(self).signature.aggregate_signature, other.signature.aggregate_signature),
            ),
        ensures
            call_ensures(
                add_points,
                (old(self).signature.aggregate_signature, other.signature.aggregate_signature),
                final(self).signature.aggregate_signature,
            ),
            final(self)@ == old(self)@.aggregated(
                other@,
                final(self).signature.aggregate_signature,
            ),
    {
        self.aggregation_bits = crate::bitfield::bit_union(
            &self.aggregation_bits,
            &other.aggregation_bits,
        );
        self.signature.add_aggregate(&other.signature, add_points);
    }
}

/// An attestation that a block already included, as the state records it.
#[derive(Debug, PartialEq, Eq)]
pub struct PendingAttestation {
    pub aggregation_bits: Vec<bool>,
    pub data: AttestationData,
}

/// The value of a [`PendingAttestation`].
pub struct PendingAttestationView {
    pub aggregation_bits: Seq<bool>,
    pub data: AttestationData,
}

impl View for PendingAttestation {
    type V = PendingAttestationView;

    open spec fn view(&self) -> PendingAttestationView {
        PendingAttestationView { aggregation_bits: self.aggregation_bits@, data: self.data }
    }
}

impl Clone for PendingAttestation {
    fn clone(&self) -> (r: Self)
        ensures
            r@ == self@,
    {
        PendingAttestation {
            aggregation_bits: clone_bits(&self.aggregation_bits),
            data: self.data,
        }
    }
}

/// A vote with its signers given as validator indices.
#[derive(Debug, PartialEq, Eq)]
pub struct IndexedAttestation {
    pub attesting_indices: Vec<u64>,
    pub data: AttestationData,
    pub signature: AggregateSignature,
}

/// The value of an [`IndexedAttestation`].
pub struct IndexedAttestationView {
    pub attesting_indices: Seq<u64>,
    pub data: AttestationData,
    pub signature: AggregateSignature,
}

impl View for IndexedAttestation {
    type V = IndexedAttestationView;

    open spec fn view(&self) -> IndexedAttestationView {
        IndexedAttestationView {
            attesting_indices: self.attesting_indices@,
            data: self.data,
            signature: self.signature,
        }
    }
}

impl IndexedAttestation {
    /// Whether both are equal: signers, vote and signature.
    pub fn same_as(&self, other: &Self) -> (r: bool)
        ensures
            r == (self@ == other@),
    {
        crate::encoding::indices_eq(&self.attesting_indices, &other.attesting_indices)
            && self.data.same_as(&other.data) && self.signature.same_as(&other.signature)
    }
}

impl Clone for IndexedAttestation {
    fn clone(&self) -> (r: Self)
        ensures
            r@ == self@,
    {
        let indices = self.attesting_indices.clone();
        assert(indices@ =~= self.attesting_indices@);
        IndexedAttestation {
            attesting_indices: indices,
            data: self.data,
            signature: self.signature,
        }
    }
}

/// Two conflicting votes signed by the same validators.
#[derive(Debug, PartialEq, Eq)]
pub struct AttesterSlashing {
    pub attestation_1: IndexedAttestation,
    pub attestation_2: IndexedAttestation,
}

/// The value of an [`AttesterSlashing`].
pub struct AttesterSlashingView {
    pub attestation_1: IndexedAttestationView,
    pub attestation_2: IndexedAttestationView,
}

impl View for AttesterSlashing {
    type V = AttesterSlashingView;

    open spec fn view(&self) -> AttesterSlashingView {
        AttesterSlashingView {
            attestation_1: self.attestation_1@,
            attestation_2: self.attestation_2@,
        }
    }
}

impl AttesterSlashing {
    /// Whether both are equal.
    pub fn same_as(&self, other: &Self) -> (r: bool)
        ensures
            r == (self@ == other@),
    {
        self.attestation_1.same_as(&other.attestation_1) && self.attestation_2.same_as(
            &other.attestation_2,
        )
    }
}

impl Clone for AttesterSlashing {
    fn clone(&self) -> (r: Self)
        ensures
            r@ == self@,
    {
        AttesterSlashing {
            attestation_1: self.attestation_1.clone(),
            attestation_2: self.attestation_2.clone(),
        }
    }
}

/// The header of a block.
#[derive(Clone, Copy, Debug, PartialEq, Eq)]
pub struct BeaconBlockHeader {
    pub slot: u64,
    pub parent_root: [u8; 32],
    pub state_root: [u8; 32],
    pub body_root: [u8; 32],
}

/// A block header and its proposer's signature.
#[derive(Clone, Copy, Debug, PartialEq, Eq)]
pub struct SignedBeaconBlockHeader {
    pub message: BeaconBlockHeader,
    pub signature: crate::points::RawSignature,
}

impl SignedBeaconBlockHeader {
    /// Whether both are equal.
    pub fn same_as(&self, other: &Self) -> (r: bool)
        ensures
            r == (*self == *other),
    {
        self.message.slot == other.message.slot && array_eq(
            &self.message.parent_root,
            &other.message.parent_root,
        ) && array_eq(&self.message.state_root, &other.message.state_root) && array_eq(
            &self.message.body_root,
            &other.message.body_root,
        ) && self.signature.same_point(&other.signature)
    }
}

/// Two conflicting block headers signed by one proposer.
#[derive(Clone, Copy, Debug, PartialEq, Eq)]
pub struct ProposerSlashing {
    pub proposer_index: u64,
    pub signed_header_1: SignedBeaconBlockHeader,
    pub signed_header_2: SignedBeaconBlockHeader,
}

impl ProposerSlashing {
    /// Whether both are equal.
    pub fn same_as(&self, other: &Self) -> (r: bool)
        ensures
            r == (*self == *other),
    {
        self.proposer_index == other.proposer_index && self.signed_header_1.same_as(
            &other.signed_header_1,
        ) && self.signed_header_2.same_as(&other.signed_header_2)
    }
}

/// A validator's signed request to leave.
#[derive(Clone, Copy, Debug, PartialEq, Eq)]
pub struct VoluntaryExit {
    pub epoch: u64,
    pub validator_index: u64,
    pub signature: crate::points::RawSignature,
}

impl VoluntaryExit {
    /// Whether both are equal.
    pub fn same_as(&self, other: &Self) -> (r: bool)
        ensures
            r == (*self == *other),
    {
        self.epoch == other.epoch && self.validator_index == other.validator_index
            && self.signature.same_point(&other.signature)
    }
}

/// What the signature checks read of a block: its place in the chain, the
/// reveal of its proposer, and the root of its body.
#[derive(Clone, Copy, Debug, PartialEq, Eq)]
pub struct BeaconBlock {
    pub slot: u64,
    pub parent_root: [u8; 32],
    pub state_root: [u8; 32],
    pub randao_reveal: crate::signature::Signature,
    pub body_root: [u8; 32],
}

/// A block and its proposer's signature.
#[derive(Clone, Copy, Debug, PartialEq, Eq)]
pub struct SignedBeaconBlock {
    pub message: BeaconBlock,
    pub signature: crate::signature::Signature,
}

/// The data of a deposit.
#[derive(Clone, Copy, Debug, PartialEq, Eq)]
pub struct DepositData {
    pub pubkey: [u8; 48],
    pub withdrawal_credentials: [u8; 32],
    pub amount: u64,
    pub signature: [u8; 96],
}

/// Why the state gives no answer.
#[derive(Clone, Copy, Debug, PartialEq, Eq)]
pub enum BeaconStateError {
    /// The epoch is not one that the state knows of.
    EpochOutOfBounds,
    /// The slot is not one that the state knows of.
    SlotOutOfBounds,
    /// The registry has no such validator.
    UnknownValidator,
    /// There are too few validators to choose from.
    InsufficientValidators,
}

/// The versions of the chain before and after a fork, and the epoch of the fork.
#[derive(Clone, Copy, Debug, PartialEq, Eq)]
pub struct Fork {
    pub previous_version: [u8; 4],
    pub current_version: [u8; 4],
    pub epoch: u64,
}

impl Fork {
    /// The version in force at `epoch`.
    pub open spec fn spec_fork_version(self, epoch: u64) -> [u8; 4] {
        if epoch < self.epoch {
            self.previous_version
        } else {
            self.current_version
        }
    }

    /// The version in force at `epoch`.
    pub fn get_fork_version(&self, epoch: u64) -> (r: [u8; 4])
        ensures
            r == self.spec_fork_version(epoch),
    {
        if epoch < self.epoch {
            self.previous_version
        } else {
            self.current_version
        }
    }
}

/// What the pool reads of a validator's record.
#[derive(Clone, Copy, Debug, PartialEq, Eq)]
pub struct Validator {
    pub pubkey: [u8; 48],
    pub slashed: bool,
    pub exit_epoch: u64,
    pub withdrawable_epoch: u64,
}

impl Validator {
    /// Whether the validator has exited by `epoch`.
    pub open spec fn spec_is_exited_at(self, epoch: u64) -> bool {
        self.exit_epoch <= epoch
    }

    /// Whether the validator can withdraw by `epoch`.
    pub open spec fn spec_is_withdrawable_at(self, epoch: u64) -> bool {
        epoch >= self.withdrawable_epoch
    }

    /// Whether the validator has exited by `epoch`.
    pub fn is_exited_at(&self, epoch: u64) -> (r: bool)
        ensures
            r == self.spec_is_exited_at(epoch),
    {
        self.exit_epoch <= epoch
    }

    /// Whether the validator can withdraw by `epoch`.
    pub fn is_withdrawable_at(&self, epoch: u64) -> (r: bool)
        ensures
            r == self.spec_is_withdrawable_at(epoch),
    {
        epoch >= self.withdrawable_epoch
    }
}

/// The kinds of message that a signature can be for.
#[derive(Clone, Copy, Debug, PartialEq, Eq)]
pub enum Domain {
    BeaconProposer,
    BeaconAttester,
    Randao,
    Deposit,
    VoluntaryExit,
}

/// The configuration of the chain.
#[derive(Clone, Copy, Debug, PartialEq, Eq)]
pub struct ChainSpec {
    pub slots_per_epoch: u64,
    pub min_attestation_inclusion_delay: u64,
    pub target_committee_size: usize,
    pub domain_beacon_proposer: u32,
    pub domain_beacon_attester: u32,
    pub domain_randao: u32,
    pub domain_deposit: u32,
    pub domain_voluntary_exit: u32,
    pub max_proposer_slashings: usize,
    pub max_attester_slashings: usize,
    pub max_attestations: usize,
    pub max_voluntary_exits: usize,
}

impl ChainSpec {
    /// An epoch has at least one slot.
    pub open spec fn well_formed(self) -> bool {
        self.slots_per_epoch > 0
    }

    /// The configuration of the main network.
    pub fn mainnet() -> (r: Self)
        ensures
            r.well_formed(),
            r.slots_per_epoch == 32,
            r.min_attestation_inclusion_delay == 1,
            r.target_committee_size == 128,
            r.max_proposer_slashings == 16,
            r.max_attester_slashings == 1,
            r.max_attestations == 128,
            r.max_voluntary_exits == 16,
            r.domain_beacon_proposer == 0,
            r.domain_beacon_attester == 1,
            r.domain_randao == 2,
            r.domain_deposit == 3,
            r.domain_voluntary_exit == 4,
    {
        ChainSpec {
            slots_per_epoch: 32,
            min_attestation_inclusion_delay: 1,
            target_committee_size: 128,
            domain_beacon_proposer: 0,
            domain_beacon_attester: 1,
            domain_randao: 2,
            domain_deposit: 3,
            domain_voluntary_exit: 4,
            max_proposer_slashings: 16,
            max_attester_slashings: 1,
            max_attestations: 128,
            max_voluntary_exits: 16,
        }
    }

    /// The number that stands for a kind of message.
    pub open spec fn spec_domain_constant(self, domain: Domain) -> u32 {
        match domain {
            Domain::BeaconProposer => self.domain_beacon_proposer,
            Domain::BeaconAttester => self.domain_beacon_attester,
            Domain::Randao => self.domain_randao,
            Domain::Deposit => self.domain_deposit,
            Domain::VoluntaryExit => self.domain_voluntary_exit,
        }
    }

    /// The number that stands for a kind of message.
    pub fn get_domain_constant(&self, domain: Domain) -> (r: u32)
        ensures
            r == self.spec_domain_constant(domain),
    {
        match domain {
            Domain::BeaconProposer => self.domain_beacon_proposer,
            Domain::BeaconAttester => self.domain_beacon_attester,
            Domain::Randao => self.domain_randao,
            Domain::Deposit => self.domain_deposit,
            Domain::VoluntaryExit => self.domain_voluntary_exit,
        }
    }
}

/// What the pool reads of the chain state.
#[derive(Debug, PartialEq, Eq)]
pub struct BeaconState {
    pub slot: u64,
    pub fork: Fork,
    pub validators: Vec<Validator>,
    pub previous_epoch_attestations: Vec<PendingAttestation>,
    pub current_epoch_attestations: Vec<PendingAttestation>,
}

/// The value of a [`BeaconState`].
pub struct BeaconStateView {
    pub slot: u64,
    pub fork: Fork,
    pub validators: Seq<Validator>,
    pub previous_epoch_attestations: Seq<PendingAttestationView>,
    pub current_epoch_attestations: Seq<PendingAttestationView>,
}

impl View for BeaconState {
    type V = BeaconStateView;

    open spec fn view(&self) -> BeaconStateView {
        BeaconStateView {
            slot: self.slot,
            fork: self.fork,
            validators: self.validators@,
            previous_epoch_attestations: self.previous_epoch_attestations@.map_values(
                |a: PendingAttestation| a@,
            ),
            current_epoch_attestations: self.current_epoch_attestations@.map_values(
                |a: PendingAttestation| a@,
            ),
        }
    }
}

impl BeaconStateView {
    /// The epoch of the state's slot.
    pub open spec fn current_epoch(self, spec: ChainSpec) -> u64
        recommends
            spec.well_formed(),
    {
        self.slot / spec.slots_per_epoch
    }

    /// The epoch before the current one; the first epoch is its own predecessor.
    pub open spec fn previous_epoch(self, spec: ChainSpec) -> u64
        recommends
            spec.well_formed(),
    {
        let current = self.current_epoch(spec);
        if current > 0 {
            (current - 1) as u64
        } else {
            current
        }
    }

    /// The validator with the given index, if the registry has it.
    pub open spec fn validator(self, index: u64) -> Option<Validator> {
        if index < self.validators.len() {
            Some(self.validators[index as int])
        } else {
            None
        }
    }
}

impl BeaconState {
    /// The epoch of the state's slot.
    pub fn current_epoch(&self, spec: &ChainSpec) -> (r: u64)
        requires
            spec.well_formed(),
        ensures
            r == self@.current_epoch(*spec),
    {
        self.slot / spec.slots_per_epoch
    }

    /// The epoch before the current one; the first epoch is its own predecessor.
    pub fn previous_epoch(&self, spec: &ChainSpec) -> (r: u64)
        requires
            spec.well_formed(),
        ensures
            r == self@.previous_epoch(*spec),
    {
        let current = self.current_epoch(spec);
        if current > 0 {
            current - 1
        } else {
            current
        }
    }

    /// The validator with the given index, if the registry has it.
    pub fn get_validator(&self, index: u64) -> (r: Option<Validator>)
        ensures
            r == self@.validator(index),
    {
        let n: usize = self.validators.len();
        if index < n as u64 {
            Some(self.validators[index as usize])
        } else {
            None
        }
    }
}

} // verus!
