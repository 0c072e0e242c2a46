//! The identity of a vote: its encoding followed by the signature domain of the
//! fork that it was made on. Votes aggregate only under the same identity, so
//! votes for different forks never meet, however alike their payloads.

use vstd::prelude::*;
use vstd::bytes::*;
use crate::encoding::{append_array, append_bytes, append_u32, append_u64, bytes_eq};
use crate::types::{AttestationData, BeaconState, ChainSpec, Checkpoint, Domain, Fork};

verus! {

/// The length of the domain bytes at the end of an identity.
pub const DOMAIN_BYTES_LEN: usize = 8;

/// The length of an encoded vote.
pub const DATA_BYTES_LEN: usize = 128;

/// The encoding of a checkpoint: the epoch, then the root.
pub open spec fn encode_checkpoint(c: Checkpoint) -> Seq<u8> {
    spec_u64_to_le_bytes(c.epoch) + c.root@
}

/// The encoding of a vote: its fields in order, integers little-endian.
pub open spec fn encode_data(data: AttestationData) -> Seq<u8> {
    spec_u64_to_le_bytes(data.slot) + spec_u64_to_le_bytes(data.index)
        + data.beacon_block_root@ + encode_checkpoint(data.source) + encode_checkpoint(
        data.target,
    )
}

/// The domain of a kind of message at an epoch: the kind's number, then the
/// version of the fork in force.
pub open spec fn domain_bytes(spec: ChainSpec, domain: Domain, fork: Fork, epoch: u64) -> Seq<
    u8,
> {
    spec_u32_to_le_bytes(spec.spec_domain_constant(domain)) + fork.spec_fork_version(epoch)@
}

/// The domain of a kind of message at an epoch, as a number.
pub open spec fn spec_get_domain(spec: ChainSpec, epoch: u64, domain: Domain, fork: Fork) -> u64 {
    spec_u64_from_le_bytes(domain_bytes(spec, domain, fork, epoch))
}

/// The domain of deposits, which are valid on every fork: that of the fork of
/// version zero.
pub open spec fn spec_get_deposit_domain(spec: ChainSpec) -> u64 {
    spec_u64_from_le_bytes(
        spec_u32_to_le_bytes(spec.domain_deposit) + Seq::new(4, |k: int| 0u8),
    )
}

impl ChainSpec {
    /// The bytes of the domain of a kind of message at an epoch on a fork.
    pub fn get_domain_bytes(&self, epoch: u64, domain: Domain, fork: &Fork) -> (r: Vec<u8>)
        ensures
            r@ == domain_bytes(*self, domain, *fork, epoch),
            r@.len() == DOMAIN_BYTES_LEN,
    {
        let mut bytes: Vec<u8> = Vec::new();
        append_u32(&mut bytes, self.get_domain_constant(domain));
        let version = fork.get_fork_version(epoch);
        append_array(&mut bytes, &version);
        proof {
            lemma_domain_bytes_len(*self, domain, *fork, epoch);
        }
        bytes
    }

    /// The domain of a kind of message at an epoch on a fork.
    pub fn get_domain(&self, epoch: u64, domain: Domain, fork: &Fork) -> (r: u64)
        ensures
            r == spec_get_domain(*self, epoch, domain, *fork),
    {
        let bytes = self.get_domain_bytes(epoch, domain, fork);
        u64_from_le_bytes(bytes.as_slice())
    }

    /// The domain of deposits, which is that of the fork of version zero.
    pub fn get_deposit_domain(&self) -> (r: u64)
        ensures
            r == spec_get_deposit_domain(*self),
    {
        let fork = Fork { previous_version: [0u8;4], current_version: [0u8;4], epoch: 0 };
        assert(fork.spec_fork_version(0)@ =~= Seq::new(4, |k: int| 0u8));
        self.get_domain(0, Domain::Deposit, &fork)
    }
}

/// The domain of attestations at an epoch.
pub open spec fn attester_domain_bytes(spec: ChainSpec, fork: Fork, epoch: u64) -> Seq<u8> {
    domain_bytes(spec, Domain::BeaconAttester, fork, epoch)
}

/// The identity of a vote under given domain bytes.
pub open spec fn identity(data: AttestationData, domain: Seq<u8>) -> Seq<u8> {
    encode_data(data) + domain
}

/// The identity of a vote on the fork of a state.
pub open spec fn identity_on(data: AttestationData, fork: Fork, spec: ChainSpec) -> Seq<u8> {
    identity(data, attester_domain_bytes(spec, fork, data.target.epoch))
}

/// Whether an identity ends in the given domain bytes.
pub open spec fn ends_in_domain(id: Seq<u8>, domain: Seq<u8>) -> bool {
    id.len() >= DOMAIN_BYTES_LEN && id.subrange(id.len() - DOMAIN_BYTES_LEN, id.len() as int)
        == domain
}

/// An encoded vote has 128 bytes.
pub proof fn lemma_encode_data_len(data: AttestationData)
    ensures
        encode_data(data).len() == DATA_BYTES_LEN,
{
    lemma_auto_spec_u64_to_from_le_bytes();
}

/// Domain bytes are eight bytes long.
pub proof fn lemma_domain_bytes_len(spec: ChainSpec, domain: Domain, fork: Fork, epoch: u64)
    ensures
        domain_bytes(spec, domain, fork, epoch).len() == DOMAIN_BYTES_LEN,
{
    lemma_auto_spec_u32_to_from_le_bytes();
}

/// Two integers with the same little-endian bytes are equal.
pub proof fn lemma_u64_le_injective(a: u64, b: u64)
    requires
        spec_u64_to_le_bytes(a) == spec_u64_to_le_bytes(b),
    ensures
        a == b,
{
    lemma_auto_spec_u64_to_from_le_bytes();
    assert(spec_u64_from_le_bytes(spec_u64_to_le_bytes(a)) == a);
    assert(spec_u64_from_le_bytes(spec_u64_to_le_bytes(b)) == b);
}

/// Two votes with the same encoding are the same vote.
pub proof fn lemma_encode_data_injective(a: AttestationData, b: AttestationData)
    requires
        encode_data(a) == encode_data(b),
    ensures
        a == b,
{
    lemma_auto_spec_u64_to_from_le_bytes();
    let ea = encode_data(a);
    let eb = encode_data(b);
    assert(spec_u64_to_le_bytes(a.slot) =~= ea.subrange(0, 8));
    assert(spec_u64_to_le_bytes(b.slot) =~= eb.subrange(0, 8));
    assert(spec_u64_to_le_bytes(a.index) =~= ea.subrange(8, 16));
    assert(spec_u64_to_le_bytes(b.index) =~= eb.subrange(8, 16));
    assert(a.beacon_block_root@ =~= ea.subrange(16, 48));
    assert(b.beacon_block_root@ =~= eb.subrange(16, 48));
    assert(spec_u64_to_le_bytes(a.source.epoch) =~= ea.subrange(48, 56));
    assert(spec_u64_to_le_bytes(b.source.epoch) =~= eb.subrange(48, 56));
    assert(a.source.root@ =~= ea.subrange(56, 88));
    assert(b.source.root@ =~= eb.subrange(56, 88));
    assert(spec_u64_to_le_bytes(a.target.epoch) =~= ea.subrange(88, 96));
    assert(spec_u64_to_le_bytes(b.target.epoch) =~= eb.subrange(88, 96));
    assert(a.target.root@ =~= ea.subrange(96, 128));
    assert(b.target.root@ =~= eb.subrange(96, 128));
    lemma_u64_le_injective(a.slot, b.slot);
    lemma_u64_le_injective(a.index, b.index);
    lemma_u64_le_injective(a.source.epoch, b.source.epoch);
    lemma_u64_le_injective(a.target.epoch, b.target.epoch);
    assert(a.beacon_block_root =~= b.beacon_block_root);
    assert(a.source.root =~= b.source.root);
    assert(a.target.root =~= b.target.root);
}

/// An identity determines both the vote and the domain: equal identities come
/// from equal votes under equal domain bytes, whatever the length of the latter.
pub proof fn lemma_identity_injective(
    a: AttestationData,
    da: Seq<u8>,
    b: AttestationData,
    db: Seq<u8>,
)
    requires
        identity(a, da) == identity(b, db),
    ensures
        a == b,
        da == db,
{
    lemma_encode_data_len(a);
    lemma_encode_data_len(b);
    let ia = identity(a, da);
    let ib = identity(b, db);
    assert(encode_data(a) =~= ia.subrange(0, 128));
    assert(encode_data(b) =~= ib.subrange(0, 128));
    assert(da =~= ia.subrange(128, ia.len() as int));
    assert(db =~= ib.subrange(128, ib.len() as int));
    lemma_encode_data_injective(a, b);
}

/// Votes under different domain bytes have different identities, even where the
/// payloads are byte for byte the same.
pub proof fn law_fork_partition(a: AttestationData, da: Seq<u8>, b: AttestationData, db: Seq<u8>)
    requires
        da != db,
    ensures
        identity(a, da) != identity(b, db),
{
    if identity(a, da) == identity(b, db) {
        lemma_identity_injective(a, da, b, db);
    }
}

/// An identity ends in the domain bytes that it was made with, and in no
/// others of their length.
pub proof fn law_identity_ends_in_its_domain(a: AttestationData, domain: Seq<u8>)
    requires
        domain.len() == DOMAIN_BYTES_LEN,
    ensures
        ends_in_domain(identity(a, domain), domain),
        forall|other: Seq<u8>|
            other.len() == DOMAIN_BYTES_LEN && other != domain ==> !ends_in_domain(
                identity(a, domain),
                other,
            ),
{
    lemma_encode_data_len(a);
    let id = identity(a, domain);
    assert(id.subrange(id.len() - DOMAIN_BYTES_LEN, id.len() as int) =~= domain);
}

/// The identity of a vote.
#[derive(Debug, PartialEq, Eq)]
pub struct AttestationId {
    pub v: Vec<u8>,
}

impl View for AttestationId {
    type V = Seq<u8>;

    open spec fn view(&self) -> Seq<u8> {
        self.v@
    }
}

impl AttestationId {
    /// The identity of `data` on the fork of `state`.
    pub fn from_data(data: &AttestationData, state: &BeaconState, spec: &ChainSpec) -> (r:
        AttestationId)
        ensures
            r@ == identity_on(*data, state.fork, *spec),
    {
        let mut bytes: Vec<u8> = Vec::new();
        append_u64(&mut bytes, data.slot);
        append_u64(&mut bytes, data.index);
        append_array(&mut bytes, &data.beacon_block_root);
        append_u64(&mut bytes, data.source.epoch);
        append_array(&mut bytes, &data.source.root);
        append_u64(&mut bytes, data.target.epoch);
        append_array(&mut bytes, &data.target.root);
        assert(bytes@ =~= encode_data(*data));
        let domain = Self::compute_domain_bytes(data.target.epoch, state, spec);
        append_bytes(&mut bytes, domain.as_slice());
        AttestationId { v: bytes }
    }

    /// The domain bytes of attestations at `epoch` on the fork of `state`.
    pub fn compute_domain_bytes(epoch: u64, state: &BeaconState, spec: &ChainSpec) -> (r: Vec<
        u8,
    >)
        ensures
            r@ == attester_domain_bytes(*spec, state.fork, epoch),
            r@.len() == DOMAIN_BYTES_LEN,
    {
        spec.get_domain_bytes(epoch, Domain::BeaconAttester, &state.fork)
    }

    /// Whether the identity was made under the given domain bytes.
    pub fn domain_bytes_match(&self, domain_bytes: &[u8]) -> (r: bool)
        ensures
            r == ends_in_domain(self@, domain_bytes@),
    {
        let n: usize = self.v.len();
        if n < DOMAIN_BYTES_LEN {
            return false;
        }
        if domain_bytes.len() != DOMAIN_BYTES_LEN {
            return false;
        }
        let start: usize = n - DOMAIN_BYTES_LEN;
        let mut i: usize = 0;
        while i < DOMAIN_BYTES_LEN
            invariant
                i <= DOMAIN_BYTES_LEN,
                n == self.v@.len(),
                start + DOMAIN_BYTES_LEN == n,
                domain_bytes@.len() == DOMAIN_BYTES_LEN,
                forall|j: int| 0 <= j < i ==> self.v@[start + j] == domain_bytes@[j],
            decreases DOMAIN_BYTES_LEN - i,
        {
            if self.v[start + i] != domain_bytes[i] {
                assert(self@.subrange(n - DOMAIN_BYTES_LEN, n as int)[i as int]
                    != domain_bytes@[i as int]);
                return false;
            }
            i += 1;
        }
        assert(self@.subrange(n - DOMAIN_BYTES_LEN, n as int) =~= domain_bytes@);
        true
    }

    /// Whether both are the same identity.
    pub fn same_as(&self, other: &Self) -> (r: bool)
        ensures
            r == (self@ == other@),
    {
        bytes_eq(self.v.as_slice(), other.v.as_slice())
    }
}

impl Clone for AttestationId {
    fn clone(&self) -> (r: Self)
        ensures
            r@ == self@,
    {
        let v = self.v.clone();
        assert(v@ =~= self.v@);
        AttestationId { v }
    }
}

} // verus!
