//! Simple serialisation: how a value is written as bytes, and the errors of
//! reading one back.

use vstd::prelude::*;
use crate::encoding::append_bytes;

verus! {

/// The number of bytes of an offset.
pub const BYTES_PER_LENGTH_OFFSET: usize = 4;

/// The largest length that an offset can tell.
pub const MAX_LENGTH_VALUE: u64 = 0xffff_ffff;

/// Why bytes could not be read as a value.
#[derive(Debug, PartialEq, Eq)]
pub enum DecodeError {
    /// The bytes are not as many as the value takes.
    InvalidByteLength { len: usize, expected: usize },
    /// A length prefix is not as long as it must be.
    InvalidLengthPrefix { len: usize, expected: usize },
    /// An offset points outside the bytes.
    OutOfBoundsByte { i: usize },
    /// The bytes are as many as they must be, and stand for no value.
    BytesInvalid(String),
}

/// A value that can be written as bytes.
pub trait Encode: Sized {
    /// The bytes of the value.
    spec fn spec_ssz_bytes(&self) -> Seq<u8>;

    /// Whether every value of the type takes the same number of bytes: no two
    /// values are written with different lengths.
    open spec fn has_fixed_len() -> bool {
        forall|a: Self, b: Self|
            (#[trigger] a.spec_ssz_bytes()).len() == (#[trigger] b.spec_ssz_bytes()).len()
    }

    /// Whether every value of the type takes the same number of bytes.
    fn is_ssz_fixed_len() -> (r: bool)
        ensures
            r == Self::has_fixed_len(),
    ;

    /// Appends the bytes of the value to `buf`.
    fn ssz_append(&self, buf: &mut Vec<u8>)
        ensures
            final(buf)@ == old(buf)@ + self.spec_ssz_bytes(),
    ;

    /// The bytes of the value.
    fn as_ssz_bytes(&self) -> (r: Vec<u8>)
        ensures
            r@ == self.spec_ssz_bytes(),
    {
        let mut buf: Vec<u8> = Vec::new();
        self.ssz_append(&mut buf);
        assert(buf@ =~= self.spec_ssz_bytes());
        buf
    }
}

/// Bytes that are written as they are: a byte string that costs one copy to
/// encode, where a list of bytes would be written byte by byte.
#[derive(Debug, PartialEq, Eq, Default)]
pub struct SszBytes(pub Vec<u8>);

impl View for SszBytes {
    type V = Seq<u8>;

    open spec fn view(&self) -> Seq<u8> {
        self.0@
    }
}

impl Clone for SszBytes {
    fn clone(&self) -> (r: Self)
        ensures
            r@ == self@,
    {
        let bytes = self.0.clone();
        assert(bytes@ =~= self.0@);
        SszBytes(bytes)
    }
}

impl Encode for SszBytes {
    open spec fn spec_ssz_bytes(&self) -> Seq<u8> {
        self@
    }

    /// A byte string is as long as it is: the empty one and one of a single
    /// byte are written with different lengths.
    fn is_ssz_fixed_len() -> (r: bool) {
        let shorter = SszBytes(Vec::new());
        let mut byte: Vec<u8> = Vec::new();
        byte.push(0);
        let longer = SszBytes(byte);
        assert(shorter.spec_ssz_bytes().len() != longer.spec_ssz_bytes().len());
        false
    }

    fn ssz_append(&self, buf: &mut Vec<u8>) {
        append_bytes(buf, self.0.as_slice());
    }
}

impl SszBytes {
    /// The byte string that holds `bytes`; every run of bytes is one.
    pub fn from_ssz_bytes(bytes: &[u8]) -> (r: Result<SszBytes, DecodeError>)
        ensures
            r is Ok,
            r->Ok_0@ == bytes@,
    {
        let mut copy: Vec<u8> = Vec::new();
        append_bytes(&mut copy, bytes);
        assert(copy@ =~= bytes@);
        Ok(SszBytes(copy))
    }
}

/// The bytes of `val`.
pub fn ssz_encode<T: Encode>(val: &T) -> (r: Vec<u8>)
    ensures
        r@ == val.spec_ssz_bytes(),
{
    val.as_ssz_bytes()
}

} // verus!
