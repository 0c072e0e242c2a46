//! Sets of signatures that are verified together: one signature with the
//! messages that it signs and, for each message, the keys that signed it.
//!
//! Adding points and checking a signature against keys and messages are the
//! work of a signature engine; the functions that need them take them as
//! function values.

use vstd::prelude::*;
use crate::aggregate_public_key::AggregatePublicKey;
use crate::aggregate_signature::AggregateSignature;
use crate::points::{infinity_encoding, RawPublicKey, RawSignature};

verus! {

/// What holds a point of the public-key group.
pub trait G1Ref {
    /// The point.
    spec fn spec_g1(&self) -> RawPublicKey;

    /// The point.
    fn g1_ref(&self) -> (r: RawPublicKey)
        ensures
            r == self.spec_g1(),
    ;
}

/// What holds a point of the signature group.
pub trait G2Ref {
    /// The point.
    spec fn spec_g2(&self) -> RawSignature;

    /// The point.
    fn g2_ref(&self) -> (r: &RawSignature)
        ensures
            *r == self.spec_g2(),
    ;
}

impl G2Ref for AggregateSignature {
    open spec fn spec_g2(&self) -> RawSignature {
        self.aggregate_signature
    }

    fn g2_ref(&self) -> (r: &RawSignature) {
        &self.aggregate_signature
    }
}

impl G2Ref for RawSignature {
    open spec fn spec_g2(&self) -> RawSignature {
        *self
    }

    fn g2_ref(&self) -> (r: &RawSignature) {
        self
    }
}

/// A message and the keys that signed it.
#[derive(Debug)]
pub struct SignedMessage {
    pub signing_keys: Vec<RawPublicKey>,
    pub message: Vec<u8>,
}

impl SignedMessage {
    /// The message with its signing keys.
    pub fn new(signing_keys: Vec<RawPublicKey>, message: Vec<u8>) -> (r: Self)
        ensures
            r.signing_keys@ == signing_keys@,
            r.message@ == message@,
    {
        SignedMessage { signing_keys, message }
    }
}

/// A signature, what it signs, and the domain that it was made for.
#[derive(Debug)]
pub struct SignatureSet<'a> {
    pub signature: &'a RawSignature,
    pub signed_messages: Vec<SignedMessage>,
    pub domain: u64,
}

/// The keys and messages of a sequence of signed messages.
pub open spec fn signed_message_views(messages: Seq<SignedMessage>) -> Seq<
    (Seq<RawPublicKey>, Seq<u8>),
> {
    Seq::new(messages.len(), |i: int| (messages[i].signing_keys@, messages[i].message@))
}

/// Whether `sums` are the sums that arise as `add_points` adds the keys one by
/// one to the point at infinity: after none, after the first, and so on.
pub open spec fn are_running_sums<A: Fn(RawPublicKey, RawPublicKey) -> RawPublicKey>(
    add_points: A,
    keys: Seq<RawPublicKey>,
    sums: Seq<RawPublicKey>,
) -> bool {
    &&& sums.len() == keys.len() + 1
    &&& sums[0].bytes@ == infinity_encoding(48)
    &&& forall|i: int|
        0 <= i < keys.len() ==> call_ensures(add_points, (sums[i], keys[i]), #[trigger] sums[i + 1])
}

/// Whether `total` is a sum of the keys, as `add_points` adds them one by one
/// to the point at infinity.
pub open spec fn is_sum_of<A: Fn(RawPublicKey, RawPublicKey) -> RawPublicKey>(
    add_points: A,
    keys: Seq<RawPublicKey>,
    total: RawPublicKey,
) -> bool {
    exists|sums: Seq<RawPublicKey>| #[trigger]
        are_running_sums(add_points, keys, sums) && sums[keys.len() as int] == total
}

/// Whether `point` is the key that a message is verified against: the signing
/// key itself where there is one, and else a sum of the signing keys.
pub open spec fn is_key_of<A: Fn(RawPublicKey, RawPublicKey) -> RawPublicKey>(
    add_points: A,
    keys: Seq<RawPublicKey>,
    point: RawPublicKey,
) -> bool {
    if keys.len() == 1 {
        point == keys[0]
    } else {
        is_sum_of(add_points, keys, point)
    }
}

/// Whether `keys` and `messages` are what a signature set is verified with:
/// the messages in order, and one key for each message.
pub open spec fn are_keys_and_messages_of<A: Fn(RawPublicKey, RawPublicKey) -> RawPublicKey>(
    add_points: A,
    signed_messages: Seq<SignedMessage>,
    keys: Seq<RawPublicKey>,
    messages: Seq<Vec<u8>>,
) -> bool {
    &&& messages.len() == signed_messages.len()
    &&& keys.len() == signed_messages.len()
    &&& forall|i: int|
        0 <= i < signed_messages.len() ==> (#[trigger] messages[i])@
            == signed_messages[i].message@
    &&& forall|i: int|
        0 <= i < signed_messages.len() ==> is_key_of(
            add_points,
            signed_messages[i].signing_keys@,
            #[trigger] keys[i],
        )
}

/// Whether `outcome` is an answer that verifying a signature set can give: the
/// answer of `verify_multiple` on the signature, the messages in order, the
/// domain, and one key for each message.
pub open spec fn is_outcome_of<
    A: Fn(RawPublicKey, RawPublicKey) -> RawPublicKey,
    V: Fn(RawSignature, &Vec<Vec<u8>>, u64, &Vec<RawPublicKey>) -> bool,
>(
    add_points: A,
    verify_multiple: V,
    signature: RawSignature,
    signed_messages: Seq<SignedMessage>,
    domain: u64,
    outcome: bool,
) -> bool {
    exists|messages: Vec<Vec<u8>>, keys: Vec<RawPublicKey>|
        #[trigger] are_keys_and_messages_of(add_points, signed_messages, keys@, messages@)
            && call_ensures(verify_multiple, (signature, &messages, domain, &keys), outcome)
}

/// The sum of `public_keys`, with `add_points` adding two points.
pub fn aggregate_public_keys<A: Fn(RawPublicKey, RawPublicKey) -> RawPublicKey>(
    public_keys: &Vec<RawPublicKey>,
    add_points: &A,
) -> (r: AggregatePublicKey)
    requires
        forall|a: RawPublicKey, b: RawPublicKey| call_requires(*add_points, (a, b)),
    ensures
        is_sum_of(*add_points, public_keys@, r.0),
{
    let mut aggregate = AggregatePublicKey::new();
    let ghost mut sums: Seq<RawPublicKey> = seq![aggregate.0];
    let mut i: usize = 0;
    while i < public_keys.len()
        invariant
            i <= public_keys@.len(),
            forall|a: RawPublicKey, b: RawPublicKey| call_requires(*add_points, (a, b)),
            sums.len() == i + 1,
            sums[0].bytes@ == infinity_encoding(48),
            sums[i as int] == aggregate.0,
            forall|j: int|
                0 <= j < i ==> call_ensures(
                    *add_points,
                    (sums[j], public_keys@[j]),
                    #[trigger] sums[j + 1],
                ),
        decreases public_keys@.len() - i,
    {
        aggregate.add_point(&public_keys[i], add_points);
        proof {
            sums = sums.push(aggregate.0);
        }
        i += 1;
    }
    assert(are_running_sums(*add_points, public_keys@, sums) && sums[public_keys@.len() as int]
        == aggregate.0);
    aggregate
}

impl<'a> SignatureSet<'a> {
    /// The set of one message signed with one key.
    pub fn single<S: G2Ref>(
        signature: &'a S,
        signing_key: RawPublicKey,
        message: Vec<u8>,
        domain: u64,
    ) -> (r: Self)
        ensures
            *r.signature == signature.spec_g2(),
            signed_message_views(r.signed_messages@) == seq![(seq![signing_key], message@)],
            r.domain == domain,
    {
        let mut signing_keys: Vec<RawPublicKey> = Vec::new();
        signing_keys.push(signing_key);
        let mut signed_messages: Vec<SignedMessage> = Vec::new();
        signed_messages.push(SignedMessage::new(signing_keys, message));
        assert(signed_messages@[0].signing_keys@ =~= seq![signing_key]);
        assert(signed_message_views(signed_messages@) =~= seq![(seq![signing_key], message@)]);
        SignatureSet { signature: signature.g2_ref(), signed_messages, domain }
    }

    /// The set of two messages, each with the keys that signed it.
    pub fn dual<S: G2Ref>(
        signature: &'a S,
        message_0: Vec<u8>,
        message_0_signing_keys: Vec<RawPublicKey>,
        message_1: Vec<u8>,
        message_1_signing_keys: Vec<RawPublicKey>,
        domain: u64,
    ) -> (r: Self)
        ensures
            *r.signature == signature.spec_g2(),
            signed_message_views(r.signed_messages@) == seq![
                (message_0_signing_keys@, message_0@),
                (message_1_signing_keys@, message_1@),
            ],
            r.domain == domain,
    {
        let mut signed_messages: Vec<SignedMessage> = Vec::new();
        signed_messages.push(SignedMessage::new(message_0_signing_keys, message_0));
        signed_messages.push(SignedMessage::new(message_1_signing_keys, message_1));
        assert(signed_message_views(signed_messages@) =~= seq![
            (message_0_signing_keys@, message_0@),
            (message_1_signing_keys@, message_1@),
        ]);
        SignatureSet { signature: signature.g2_ref(), signed_messages, domain }
    }

    /// The set of the given messages.
    pub fn new<S: G2Ref>(signature: &'a S, signed_messages: Vec<SignedMessage>, domain: u64) -> (r:
        Self)
        ensures
            *r.signature == signature.spec_g2(),
            r.signed_messages@ == signed_messages@,
            r.domain == domain,
    {
        SignatureSet { signature: signature.g2_ref(), signed_messages, domain }
    }

    /// What the set is verified with: the signature, one key for each message,
    /// the messages in order, and the domain. The key of a message is the
    /// signing key itself where there is one, and else the sum of the signing
    /// keys, with `add_points` adding two points.
    pub fn into_verify_set<A>(self, add_points: &A) -> (r: (
        RawSignature,
        Vec<RawPublicKey>,
        Vec<Vec<u8>>,
        u64,
    )) where A: Fn(RawPublicKey, RawPublicKey) -> RawPublicKey
        requires
            forall|a: RawPublicKey, b: RawPublicKey| call_requires(*add_points, (a, b)),
        ensures
            r.0 == *self.signature,
            r.3 == self.domain,
            are_keys_and_messages_of(*add_points, self.signed_messages@, r.1@, r.2@),
    {
        let mut messages: Vec<Vec<u8>> = Vec::new();
        let mut pubkeys: Vec<RawPublicKey> = Vec::new();
        let mut i: usize = 0;
        while i < self.signed_messages.len()
            invariant
                i <= self.signed_messages@.len(),
                forall|a: RawPublicKey, b: RawPublicKey| call_requires(*add_points, (a, b)),
                messages@.len() == i,
                pubkeys@.len() == i,
                forall|j: int|
                    0 <= j < i ==> (#[trigger] messages@[j])@ == self.signed_messages@[j].message@,
                forall|j: int|
                    0 <= j < i ==> is_key_of(
                        *add_points,
                        self.signed_messages@[j].signing_keys@,
                        #[trigger] pubkeys@[j],
                    ),
            decreases self.signed_messages@.len() - i,
        {
            let signed_message = &self.signed_messages[i];
            let message = signed_message.message.clone();
            assert(message@ =~= signed_message.message@);
            messages.push(message);
            let point: RawPublicKey = if signed_message.signing_keys.len() == 1 {
                signed_message.signing_keys[0]
            } else {
                aggregate_public_keys(&signed_message.signing_keys, add_points).into_raw()
            };
            pubkeys.push(AggregatePublicKey::new_from_raw(point).into_raw());
            i += 1;
        }
        (*self.signature, pubkeys, messages, self.domain)
    }

    /// Whether the signature is that of the signers on their messages: the
    /// answer of `verify_multiple` on what the set is verified with.
    pub fn is_valid<A, V>(&self, add_points: &A, verify_multiple: &V) -> (r: bool) where
        A: Fn(RawPublicKey, RawPublicKey) -> RawPublicKey,
        V: Fn(RawSignature, &Vec<Vec<u8>>, u64, &Vec<RawPublicKey>) -> bool,

        requires
            forall|a: RawPublicKey, b: RawPublicKey| call_requires(*add_points, (a, b)),
            forall|s: RawSignature, m: &Vec<Vec<u8>>, d: u64, k: &Vec<RawPublicKey>|
                call_requires(*verify_multiple, (s, m, d, k)),
        ensures
            is_outcome_of(
                *add_points,
                *verify_multiple,
                *self.signature,
                self.signed_messages@,
                self.domain,
                r,
            ),
    {
        let copy = SignatureSet {
            signature: self.signature,
            signed_messages: copy_signed_messages(&self.signed_messages),
            domain: self.domain,
        };
        let (signature, pubkeys, messages, domain) = copy.into_verify_set(add_points);
        let r = verify_multiple(signature, &messages, domain, &pubkeys);
        assert(are_keys_and_messages_of(*add_points, self.signed_messages@, pubkeys@, messages@)
            && call_ensures(*verify_multiple, (*self.signature, &messages, self.domain, &pubkeys), r));
        r
    }
}

/// A copy of signed messages.
fn copy_signed_messages(signed_messages: &Vec<SignedMessage>) -> (r: Vec<SignedMessage>)
    ensures
        r@.len() == signed_messages@.len(),
        forall|i: int|
            0 <= i < r@.len() ==> (#[trigger] r@[i]).message@ == signed_messages@[i].message@
                && r@[i].signing_keys@ == signed_messages@[i].signing_keys@,
{
    let mut r: Vec<SignedMessage> = Vec::new();
    let mut i: usize = 0;
    while i < signed_messages.len()
        invariant
            i <= signed_messages@.len(),
            r@.len() == i,
            forall|j: int|
                0 <= j < i ==> (#[trigger] r@[j]).message@ == signed_messages@[j].message@
                    && r@[j].signing_keys@ == signed_messages@[j].signing_keys@,
        decreases signed_messages@.len() - i,
    {
        let message = signed_messages[i].message.clone();
        let keys = signed_messages[i].signing_keys.clone();
        assert(message@ =~= signed_messages@[i as int].message@);
        assert(keys@ =~= signed_messages@[i as int].signing_keys@);
        r.push(SignedMessage::new(keys, message));
        i += 1;
    }
    r
}

/// Whether every set is valid. The sets are checked in order, and none is
/// checked after one was found invalid.
pub fn verify_signature_sets<'a, A, V>(
    sets: &Vec<SignatureSet<'a>>,
    add_points: &A,
    verify_multiple: &V,
) -> (r: bool) where
    A: Fn(RawPublicKey, RawPublicKey) -> RawPublicKey,
    V: Fn(RawSignature, &Vec<Vec<u8>>, u64, &Vec<RawPublicKey>) -> bool,

    requires
        forall|a: RawPublicKey, b: RawPublicKey| call_requires(*add_points, (a, b)),
        forall|s: RawSignature, m: &Vec<Vec<u8>>, d: u64, k: &Vec<RawPublicKey>|
            call_requires(*verify_multiple, (s, m, d, k)),
    ensures
        r ==> forall|i: int|
            0 <= i < sets@.len() ==> is_outcome_of(
                *add_points,
                *verify_multiple,
                *(#[trigger] sets@[i]).signature,
                sets@[i].signed_messages@,
                sets@[i].domain,
                true,
            ),
        !r ==> exists|i: int|
            0 <= i < sets@.len() && is_outcome_of(
                *add_points,
                *verify_multiple,
                *(#[trigger] sets@[i]).signature,
                sets@[i].signed_messages@,
                sets@[i].domain,
                false,
            ),
{
    let mut i: usize = 0;
    while i < sets.len()
        invariant
            i <= sets@.len(),
            forall|a: RawPublicKey, b: RawPublicKey| call_requires(*add_points, (a, b)),
            forall|s: RawSignature, m: &Vec<Vec<u8>>, d: u64, k: &Vec<RawPublicKey>|
                call_requires(*verify_multiple, (s, m, d, k)),
            forall|j: int|
                0 <= j < i ==> is_outcome_of(
                    *add_points,
                    *verify_multiple,
                    *(#[trigger] sets@[j]).signature,
                    sets@[j].signed_messages@,
                    sets@[j].domain,
                    true,
                ),
        decreases sets@.len() - i,
    {
        if !sets[i].is_valid(add_points, verify_multiple) {
            return false;
        }
        i += 1;
    }
    true
}

} // verus!
