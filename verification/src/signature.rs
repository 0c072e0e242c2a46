//! A single signature: a point of the signature group, or the empty signature
//! that stands where none was made.
//!
//! Signing, verifying and decoding a point are the work of a signature engine;
//! the functions that need one of them take it as a function value.

use vstd::prelude::*;
use crate::points::{
    infinity_encoding, is_message, message_of, BlsError, Message, PublicKey, RawPublicKey,
    RawSignature, BLS_SIG_BYTE_SIZE,
};
use crate::signature_set::G2Ref;
use crate::ssz::{DecodeError, Encode};

verus! {

/// A signature.
#[derive(Clone, Copy, Debug, PartialEq, Eq)]
pub struct Signature {
    pub signature: RawSignature,
    pub is_empty: bool,
}

/// Whether `s` is the empty signature: the point at infinity, marked as empty.
pub open spec fn is_empty_signature(s: Signature) -> bool {
    s.is_empty && s.signature.bytes@ == infinity_encoding(96)
}

/// Whether every byte is zero.
pub open spec fn all_zero(bytes: Seq<u8>) -> bool {
    forall|i: int| 0 <= i < bytes.len() ==> bytes[i] == 0
}

/// 96 zero bytes.
pub open spec fn zeros() -> Seq<u8> {
    Seq::new(96, |i: int| 0u8)
}

/// The bytes of a signature: zeros for an empty one, else the encoding of its
/// point.
pub open spec fn signature_bytes(s: Signature) -> Seq<u8> {
    if s.is_empty {
        zeros()
    } else {
        s.signature.bytes@
    }
}

/// The text of the error for bytes that are no signature.
///
/// Calls `format!` of the standard library, which writes the bytes in their
/// debug form after a fixed text. Nothing is claimed of the text.
#[verifier::external_body]
fn invalid_signature_text(bytes: &[u8]) -> String {
    format!("Invalid Signature bytes: {:?}", bytes)
}

impl Signature {
    /// The signature of the message `msg` under `domain`, with `sign` signing
    /// with the secret key. Where `msg` has not 32 bytes nothing can be signed,
    /// and where `sign` fails nothing was: the result is then the empty
    /// signature, and in the first case `sign` is not called.
    pub fn new<F>(msg: &[u8], domain: u64, sign: F) -> (r: Self) where
        F: FnOnce(Message) -> Result<RawSignature, BlsError>,

        requires
            forall|m: Message| call_requires(sign, (m,)),
        ensures
            msg@.len() != 32 ==> is_empty_signature(r),
            msg@.len() == 32 ==> exists|m: Message, signed: Result<RawSignature, BlsError>|
                {
                    &&& is_message(m, msg@, domain)
                    &&& call_ensures(sign, (m,), signed)
                    &&& match signed {
                        Ok(point) => r == (Signature { signature: point, is_empty: false }),
                        Err(_) => is_empty_signature(r),
                    }
                },
    {
        match message_of(msg, domain) {
            Some(m) => {
                let signed = sign(m);
                let r = match signed {
                    Ok(point) => Signature { signature: point, is_empty: false },
                    Err(_) => Signature { signature: RawSignature::infinity(), is_empty: true },
                };
                assert(is_message(m, msg@, domain) && call_ensures(sign, (m,), signed) && match signed {
                    Ok(point) => r == (Signature { signature: point, is_empty: false }),
                    Err(_) => is_empty_signature(r),
                });
                r
            },
            None => Signature { signature: RawSignature::infinity(), is_empty: true },
        }
    }

    /// Whether the signature is that of `pk` on the message `msg` under
    /// `domain`, with `verify_message` checking a point against a key and a
    /// message. An empty signature verifies nothing, nor does anything verify a
    /// message that has not 32 bytes; `verify_message` is then not called.
    pub fn verify<F>(&self, msg: &[u8], domain: u64, pk: &PublicKey, verify_message: F) -> (r:
        bool) where F: FnOnce(RawSignature, RawPublicKey, Message) -> bool
        requires
            forall|s: RawSignature, k: RawPublicKey, m: Message|
                call_requires(verify_message, (s, k, m)),
        ensures
            (self.is_empty || msg@.len() != 32) ==> !r,
            !self.is_empty && msg@.len() == 32 ==> exists|m: Message|
                is_message(m, msg@, domain) && call_ensures(
                    verify_message,
                    (self.signature, pk.0, m),
                    r,
                ),
    {
        if self.is_empty {
            return false;
        }
        match message_of(msg, domain) {
            Some(m) => {
                let r = verify_message(self.signature, pk.0, m);
                assert(is_message(m, msg@, domain) && call_ensures(
                    verify_message,
                    (self.signature, pk.0, m),
                    r,
                ));
                r
            },
            None => false,
        }
    }

    /// The underlying point.
    pub fn as_raw(&self) -> (r: &RawSignature)
        ensures
            *r == self.signature,
    {
        &self.signature
    }

    /// The empty signature.
    pub fn empty_signature() -> (r: Self)
        ensures
            is_empty_signature(r),
    {
        Signature { signature: RawSignature::infinity(), is_empty: true }
    }

    /// The 96 bytes of the signature: zeros for an empty one, else the encoding
    /// of its point.
    pub fn as_bytes(&self) -> (r: Vec<u8>)
        ensures
            r@ == signature_bytes(*self),
            r@.len() == BLS_SIG_BYTE_SIZE,
    {
        if self.is_empty {
            return crate::encoding::zero_bytes(BLS_SIG_BYTE_SIZE);
        }
        self.signature.serialize()
    }

    /// The signature that `bytes` stand for. Bytes that are all zero, however
    /// many, stand for the empty signature. Any others are handed to `decode`,
    /// which decodes a point: what it refuses is an error, and what it gives is
    /// the signature.
    pub fn from_bytes<F>(bytes: &[u8], decode: F) -> (r: Result<Self, DecodeError>) where
        F: FnOnce(&[u8]) -> Result<RawSignature, BlsError>,

        requires
            call_requires(decode, (bytes,)),
        ensures
            all_zero(bytes@) ==> r is Ok && is_empty_signature(r->Ok_0),
            !all_zero(bytes@) ==> exists|decoded: Result<RawSignature, BlsError>|
                {
                    &&& call_ensures(decode, (bytes,), decoded)
                    &&& match decoded {
                        Ok(point) => r is Ok && r->Ok_0 == (Signature {
                            signature: point,
                            is_empty: false,
                        }),
                        Err(_) => r is Err && r->Err_0 is BytesInvalid,
                    }
                },
    {
        let mut i: usize = 0;
        while i < bytes.len()
            invariant
                i <= bytes@.len(),
                call_requires(decode, (bytes,)),
                forall|j: int| 0 <= j < i ==> bytes@[j] == 0,
            decreases bytes@.len() - i,
        {
            if bytes[i] != 0 {
                let decoded = decode(bytes);
                let r = match decoded {
                    Ok(point) => Ok(Signature { signature: point, is_empty: false }),
                    Err(_) => Err(DecodeError::BytesInvalid(invalid_signature_text(bytes))),
                };
                assert(call_ensures(decode, (bytes,), decoded) && match decoded {
                    Ok(point) => r is Ok && r->Ok_0 == (Signature {
                        signature: point,
                        is_empty: false,
                    }),
                    Err(_) => r is Err && r->Err_0 is BytesInvalid,
                });
                return r;
            }
            i += 1;
        }
        Ok(Signature::empty_signature())
    }

    /// Whether the signature is empty.
    pub fn is_empty(&self) -> (r: bool)
        ensures
            r == self.is_empty,
    {
        self.is_empty
    }

    /// The signature that the serialised `bytes` stand for: they must be 96, and
    /// are then read as `from_bytes` reads them.
    pub fn from_ssz_bytes<F>(bytes: &[u8], decode: F) -> (r: Result<Self, DecodeError>) where
        F: FnOnce(&[u8]) -> Result<RawSignature, BlsError>,

        requires
            call_requires(decode, (bytes,)),
        ensures
            bytes@.len() != BLS_SIG_BYTE_SIZE ==> r == Err::<Signature, DecodeError>(
                DecodeError::InvalidByteLength { len: bytes@.len() as usize, expected: 96 },
            ),
            bytes@.len() == BLS_SIG_BYTE_SIZE && all_zero(bytes@) ==> r is Ok
                && is_empty_signature(r->Ok_0),
            bytes@.len() == BLS_SIG_BYTE_SIZE && !all_zero(bytes@) ==> exists|
                decoded: Result<RawSignature, BlsError>,
            |
                {
                    &&& call_ensures(decode, (bytes,), decoded)
                    &&& match decoded {
                        Ok(point) => r is Ok && r->Ok_0 == (Signature {
                            signature: point,
                            is_empty: false,
                        }),
                        Err(_) => r is Err && r->Err_0 is BytesInvalid,
                    }
                },
    {
        let len: usize = bytes.len();
        if len != BLS_SIG_BYTE_SIZE {
            Err(DecodeError::InvalidByteLength { len, expected: BLS_SIG_BYTE_SIZE })
        } else {
            Signature::from_bytes(bytes, decode)
        }
    }
}

impl Encode for Signature {
    open spec fn spec_ssz_bytes(&self) -> Seq<u8> {
        signature_bytes(*self)
    }

    /// Every signature is written in 96 bytes, the empty one too.
    fn is_ssz_fixed_len() -> (r: bool) {
        assert forall|a: Signature, b: Signature|
            (#[trigger] a.spec_ssz_bytes()).len() == (#[trigger] b.spec_ssz_bytes()).len() by {
            assert(a.spec_ssz_bytes().len() == 96);
            assert(b.spec_ssz_bytes().len() == 96);
        }
        true
    }

    fn ssz_append(&self, buf: &mut Vec<u8>) {
        let bytes = self.as_bytes();
        crate::encoding::append_bytes(buf, bytes.as_slice());
    }
}

impl G2Ref for Signature {
    open spec fn spec_g2(&self) -> RawSignature {
        self.signature
    }

    fn g2_ref(&self) -> (r: &RawSignature) {
        &self.signature
    }
}

} // verus!
