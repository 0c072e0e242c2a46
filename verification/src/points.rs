//! Curve points as plain values.
//!
//! A point is held in its compressed encoding, which is canonical: two points are
//! equal exactly when their encodings are. Point arithmetic and pairing checks
//! are not done here; the functions that need them take them as function values.

use vstd::prelude::*;
use crate::encoding::array_eq;

verus! {

/// The length of an encoded signature.
pub const BLS_SIG_BYTE_SIZE: usize = 96;

/// The length of an encoded public key.
pub const BLS_PUBLIC_KEY_BYTE_SIZE: usize = 48;

/// The first byte of the encoding of the point at infinity; the others are zero.
pub const INFINITY_FLAGS: u8 = 0xc0;

/// Why the signature engine gave no result.
#[derive(Clone, Copy, Debug, PartialEq, Eq)]
pub enum BlsError {
    /// The data are not a valid encoding.
    InvalidData,
    /// An argument has the wrong size.
    BadSize,
    /// The engine failed.
    InternalError,
}

/// A point of the signature group.
#[derive(Clone, Copy, Debug, PartialEq, Eq)]
pub struct RawSignature {
    pub bytes: [u8; 96],
}

/// A point of the public-key group.
#[derive(Clone, Copy, Debug, PartialEq, Eq)]
pub struct RawPublicKey {
    pub bytes: [u8; 48],
}

/// What is signed: a hash and the domain of the signature.
#[derive(Clone, Copy, Debug, PartialEq, Eq)]
pub struct Message {
    pub hash: [u8; 32],
    pub domain: [u8; 8],
}

/// The bytes of `x`, the highest first.
pub open spec fn spec_u64_to_be_bytes(x: u64) -> Seq<u8> {
    vstd::bytes::spec_u64_to_le_bytes(x).reverse()
}

/// Whether `message` is what is signed for the 32 bytes `msg` under `domain`.
pub open spec fn is_message(message: Message, msg: Seq<u8>, domain: u64) -> bool {
    message.hash@ == msg && message.domain@ == spec_u64_to_be_bytes(domain)
}

/// What is signed for `msg` under `domain`, where `msg` has 32 bytes.
pub fn message_of(msg: &[u8], domain: u64) -> (r: Option<Message>)
    ensures
        match r {
            Some(message) => msg@.len() == 32 && is_message(message, msg@, domain),
            None => msg@.len() != 32,
        },
{
    if msg.len() != 32 {
        return None;
    }
    let mut hash = [0u8;32];
    let mut i: usize = 0;
    while i < 32
        invariant
            i <= 32,
            msg@.len() == 32,
            forall|j: int| 0 <= j < i ==> hash@[j] == msg@[j],
        decreases 32 - i,
    {
        hash[i] = msg[i];
        i += 1;
    }
    let le = vstd::bytes::u64_to_le_bytes(domain);
    proof {
        vstd::bytes::lemma_auto_spec_u64_to_from_le_bytes();
    }
    let mut be = [0u8;8];
    let mut k: usize = 0;
    while k < 8
        invariant
            k <= 8,
            le@.len() == 8,
            forall|j: int| 0 <= j < k ==> be@[j] == le@[7 - j],
        decreases 8 - k,
    {
        be[k] = le[7 - k];
        k += 1;
    }
    assert(hash@ =~= msg@);
    assert(be@ =~= spec_u64_to_be_bytes(domain));
    Some(Message { hash, domain: be })
}

/// The encoding of the point at infinity in `n` bytes.
pub open spec fn infinity_encoding(n: nat) -> Seq<u8> {
    Seq::new(
        n,
        |i: int|
            if i == 0 {
                INFINITY_FLAGS
            } else {
                0u8
            },
    )
}

impl RawSignature {
    /// The point at infinity, the neutral element of aggregation.
    pub fn infinity() -> (r: Self)
        ensures
            r.bytes@ == infinity_encoding(96),
    {
        let mut bytes = [0u8;96];
        bytes[0] = INFINITY_FLAGS;
        assert(bytes@ =~= infinity_encoding(96));
        RawSignature { bytes }
    }

    /// The compressed encoding of the point.
    pub fn serialize(&self) -> (r: Vec<u8>)
        ensures
            r@ == self.bytes@,
    {
        let mut r: Vec<u8> = Vec::new();
        let mut i: usize = 0;
        while i < 96
            invariant
                i <= 96,
                r@ == self.bytes@.subrange(0, i as int),
            decreases 96 - i,
        {
            r.push(self.bytes[i]);
            assert(r@ =~= self.bytes@.subrange(0, i + 1));
            i += 1;
        }
        assert(self.bytes@.subrange(0, 96) =~= self.bytes@);
        r
    }

    /// Whether both are the same point.
    pub fn same_point(&self, other: &Self) -> (r: bool)
        ensures
            r == (*self == *other),
    {
        array_eq(&self.bytes, &other.bytes)
    }
}

impl RawPublicKey {
    /// The point at infinity, the neutral element of key aggregation.
    pub fn infinity() -> (r: Self)
        ensures
            r.bytes@ == infinity_encoding(48),
    {
        let mut bytes = [0u8;48];
        bytes[0] = INFINITY_FLAGS;
        assert(bytes@ =~= infinity_encoding(48));
        RawPublicKey { bytes }
    }

    /// Whether both are the same point.
    pub fn same_point(&self, other: &Self) -> (r: bool)
        ensures
            r == (*self == *other),
    {
        array_eq(&self.bytes, &other.bytes)
    }
}

/// Makes the bytes of a secret key out of random bytes: the first byte is
/// cleared, so that the key is below the order of the group; the others stay.
pub fn secret_key_bytes_for_test(random: Vec<u8>) -> (r: Vec<u8>)
    ensures
        r@.len() == random@.len(),
        random@.len() > 0 ==> r@ == random@.update(0, 0u8),
{
    let mut key_bytes = random;
    if key_bytes.len() > 0 {
        key_bytes[0] = 0;
    }
    key_bytes
}

/// A public key.
#[derive(Clone, Copy, Debug, PartialEq, Eq)]
pub struct PublicKey(pub RawPublicKey);

impl PublicKey {
    /// The public key that is the given point.
    pub fn new_from_raw(pk: RawPublicKey) -> (r: Self)
        ensures
            r.0 == pk,
    {
        PublicKey(pk)
    }

    /// The underlying point.
    pub fn as_raw(&self) -> (r: &RawPublicKey)
        ensures
            *r == self.0,
    {
        &self.0
    }
}

} // verus!
