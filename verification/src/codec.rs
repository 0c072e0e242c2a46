//! The building blocks of the snapshot format: how integers, byte strings,
//! bitfields and lists are written, how they are read back, and that what was
//! written is read back as it was.
//!
//! Reading is stated at a position of a byte string: it gives the value and the
//! position after it, or nothing where the bytes end early or hold a byte that
//! cannot stand where it stands.

use vstd::prelude::*;
use vstd::bytes::*;
use vstd::slice::slice_subrange;
use crate::encoding::{append_bytes, append_u64};

verus! {

/// Whether the bytes `e` stand in `s` at the position `pos`.
pub open spec fn sits_at(s: Seq<u8>, pos: int, e: Seq<u8>) -> bool {
    0 <= pos && pos + e.len() <= s.len() && s.subrange(pos, pos + e.len()) == e
}

/// Where one byte string follows another at `pos`, the first stands at `pos`
/// and the second right after it.
pub proof fn lemma_sits_at_split(s: Seq<u8>, pos: int, a: Seq<u8>, b: Seq<u8>)
    requires
        sits_at(s, pos, a + b),
    ensures
        sits_at(s, pos, a),
        sits_at(s, pos + a.len(), b),
{
    let whole = s.subrange(pos, pos + (a + b).len());
    assert(s.subrange(pos, pos + a.len()) =~= whole.subrange(0, a.len() as int));
    assert(a =~= (a + b).subrange(0, a.len() as int));
    assert(s.subrange(pos + a.len(), pos + a.len() + b.len()) =~= whole.subrange(
        a.len() as int,
        (a + b).len() as int,
    ));
    assert(b =~= (a + b).subrange(a.len() as int, (a + b).len() as int));
}

/// The array that holds the 32 bytes `s`.
pub open spec fn array32(s: Seq<u8>) -> [u8; 32] {
    choose|a: [u8; 32]| a@ == s
}

/// The array that holds the 96 bytes `s`.
pub open spec fn array96(s: Seq<u8>) -> [u8; 96] {
    choose|a: [u8; 96]| a@ == s
}

/// An array is the array that holds its bytes.
pub proof fn lemma_array32(a: [u8; 32])
    ensures
        array32(a@) == a,
{
    assert(array32(a@)@ == a@);
    assert(array32(a@) =~= a);
}

/// An array is the array that holds its bytes.
pub proof fn lemma_array96(a: [u8; 96])
    ensures
        array96(a@) == a,
{
    assert(array96(a@)@ == a@);
    assert(array96(a@) =~= a);
}

/// The integer of the eight bytes at `pos`.
pub open spec fn parse_u64(s: Seq<u8>, pos: int) -> Option<(u64, int)> {
    if 0 <= pos && pos + 8 <= s.len() {
        Some((spec_u64_from_le_bytes(s.subrange(pos, pos + 8)), pos + 8))
    } else {
        None
    }
}

/// The array of the 32 bytes at `pos`.
pub open spec fn parse_array32(s: Seq<u8>, pos: int) -> Option<([u8; 32], int)> {
    if 0 <= pos && pos + 32 <= s.len() {
        Some((array32(s.subrange(pos, pos + 32)), pos + 32))
    } else {
        None
    }
}

/// The array of the 96 bytes at `pos`.
pub open spec fn parse_array96(s: Seq<u8>, pos: int) -> Option<([u8; 96], int)> {
    if 0 <= pos && pos + 96 <= s.len() {
        Some((array96(s.subrange(pos, pos + 96)), pos + 96))
    } else {
        None
    }
}

/// The byte of a flag.
pub open spec fn flag_byte(flag: bool) -> u8 {
    if flag {
        1
    } else {
        0
    }
}

/// The bytes of a flag.
pub open spec fn encode_flag(flag: bool) -> Seq<u8> {
    seq![flag_byte(flag)]
}

/// The flag of the byte at `pos`, which is zero or one.
pub open spec fn parse_flag(s: Seq<u8>, pos: int) -> Option<(bool, int)> {
    if 0 <= pos && pos + 1 <= s.len() && s[pos] <= 1 {
        Some((s[pos] == 1, pos + 1))
    } else {
        None
    }
}

/// The bytes of a byte string: its length, then the bytes.
pub open spec fn encode_bytes(bytes: Seq<u8>) -> Seq<u8> {
    spec_u64_to_le_bytes(bytes.len() as u64) + bytes
}

/// The byte string at `pos`.
pub open spec fn parse_bytes(s: Seq<u8>, pos: int) -> Option<(Seq<u8>, int)> {
    match parse_u64(s, pos) {
        Some((n, start)) => if start + n <= s.len() {
            Some((s.subrange(start, start + n), start + n))
        } else {
            None
        },
        None => None,
    }
}

/// The bytes of a bitfield: its length, then one byte for each bit.
pub open spec fn encode_bits(bits: Seq<bool>) -> Seq<u8> {
    spec_u64_to_le_bytes(bits.len() as u64) + Seq::new(bits.len(), |i: int| flag_byte(bits[i]))
}

/// The bitfield at `pos`.
pub open spec fn parse_bits(s: Seq<u8>, pos: int) -> Option<(Seq<bool>, int)> {
    match parse_u64(s, pos) {
        Some((n, start)) => if start + n <= s.len() && (forall|i: int|
            start <= i < start + n ==> #[trigger] s[i] <= 1) {
            Some((Seq::new(n as nat, |i: int| s[start + i] == 1), start + n))
        } else {
            None
        },
        None => None,
    }
}

/// The bytes of a list of integers: its length, then the integers.
pub open spec fn encode_indices(indices: Seq<u64>) -> Seq<u8> {
    spec_u64_to_le_bytes(indices.len() as u64) + Seq::new(
        8 * indices.len(),
        |k: int| spec_u64_to_le_bytes(indices[k / 8])[k % 8],
    )
}

/// The list of integers at `pos`.
pub open spec fn parse_indices(s: Seq<u8>, pos: int) -> Option<(Seq<u64>, int)> {
    match parse_u64(s, pos) {
        Some((n, start)) => if start + 8 * n <= s.len() {
            Some(
                (
                    Seq::new(
                        n as nat,
                        |i: int|
                            spec_u64_from_le_bytes(s.subrange(start + 8 * i, start + 8 * i + 8)),
                    ),
                    start + 8 * n,
                ),
            )
        } else {
            None
        },
        None => None,
    }
}

/// An integer that was written is read back.
pub proof fn lemma_parse_u64(s: Seq<u8>, pos: int, x: u64)
    requires
        sits_at(s, pos, spec_u64_to_le_bytes(x)),
    ensures
        parse_u64(s, pos) == Some((x, pos + 8)),
{
    lemma_auto_spec_u64_to_from_le_bytes();
}

/// An array that was written is read back.
pub proof fn lemma_parse_array32(s: Seq<u8>, pos: int, a: [u8; 32])
    requires
        sits_at(s, pos, a@),
    ensures
        parse_array32(s, pos) == Some((a, pos + 32)),
{
    lemma_array32(a);
}

/// An array that was written is read back.
pub proof fn lemma_parse_array96(s: Seq<u8>, pos: int, a: [u8; 96])
    requires
        sits_at(s, pos, a@),
    ensures
        parse_array96(s, pos) == Some((a, pos + 96)),
{
    lemma_array96(a);
}

/// A flag that was written is read back.
pub proof fn lemma_parse_flag(s: Seq<u8>, pos: int, flag: bool)
    requires
        sits_at(s, pos, encode_flag(flag)),
    ensures
        parse_flag(s, pos) == Some((flag, pos + 1)),
{
    assert(s.subrange(pos, pos + 1)[0] == flag_byte(flag));
}

/// A byte string that was written is read back.
pub proof fn lemma_parse_bytes(s: Seq<u8>, pos: int, bytes: Seq<u8>)
    requires
        bytes.len() <= u64::MAX,
        sits_at(s, pos, encode_bytes(bytes)),
    ensures
        parse_bytes(s, pos) == Some((bytes, pos + encode_bytes(bytes).len())),
        encode_bytes(bytes).len() == 8 + bytes.len(),
{
    lemma_auto_spec_u64_to_from_le_bytes();
    lemma_sits_at_split(s, pos, spec_u64_to_le_bytes(bytes.len() as u64), bytes);
    lemma_parse_u64(s, pos, bytes.len() as u64);
}

/// A bitfield that was written is read back.
pub proof fn lemma_parse_bits(s: Seq<u8>, pos: int, bits: Seq<bool>)
    requires
        bits.len() <= u64::MAX,
        sits_at(s, pos, encode_bits(bits)),
    ensures
        parse_bits(s, pos) == Some((bits, pos + encode_bits(bits).len())),
        encode_bits(bits).len() == 8 + bits.len(),
{
    lemma_auto_spec_u64_to_from_le_bytes();
    let body = Seq::new(bits.len(), |i: int| flag_byte(bits[i]));
    lemma_sits_at_split(s, pos, spec_u64_to_le_bytes(bits.len() as u64), body);
    lemma_parse_u64(s, pos, bits.len() as u64);
    let start = pos + 8;
    assert forall|i: int| start <= i < start + bits.len() implies #[trigger] s[i] <= 1 by {
        assert(s.subrange(start, start + body.len())[i - start] == body[i - start]);
    }
    assert forall|i: int| 0 <= i < bits.len() implies (s[start + i] == 1) == bits[i] by {
        assert(s.subrange(start, start + body.len())[i] == body[i]);
    }
    assert(Seq::new(bits.len(), |i: int| s[start + i] == 1) =~= bits);
}

/// A list of integers that was written is read back.
pub proof fn lemma_parse_indices(s: Seq<u8>, pos: int, indices: Seq<u64>)
    requires
        indices.len() <= u64::MAX,
        sits_at(s, pos, encode_indices(indices)),
    ensures
        parse_indices(s, pos) == Some((indices, pos + encode_indices(indices).len())),
        encode_indices(indices).len() == 8 + 8 * indices.len(),
{
    lemma_auto_spec_u64_to_from_le_bytes();
    let body = Seq::new(8 * indices.len(), |k: int| spec_u64_to_le_bytes(indices[k / 8])[k % 8]);
    lemma_sits_at_split(s, pos, spec_u64_to_le_bytes(indices.len() as u64), body);
    lemma_parse_u64(s, pos, indices.len() as u64);
    let start = pos + 8;
    let read = Seq::new(
        indices.len(),
        |i: int| spec_u64_from_le_bytes(s.subrange(start + 8 * i, start + 8 * i + 8)),
    );
    assert forall|i: int| 0 <= i < indices.len() implies read[i] == indices[i] by {
        let piece = s.subrange(start + 8 * i, start + 8 * i + 8);
        assert forall|j: int| 0 <= j < 8 implies piece[j] == spec_u64_to_le_bytes(indices[i])[j] by {
            assert(s.subrange(start, start + body.len())[8 * i + j] == body[8 * i + j]);
            assert((8 * i + j) / 8 == i);
            assert((8 * i + j) % 8 == j);
        }
        assert(piece =~= spec_u64_to_le_bytes(indices[i]));
    }
    assert(read =~= indices);
}

/// Of the first `k` items, the bytes, one item after the other.
pub open spec fn encode_items_upto<T>(items: Seq<T>, encode: spec_fn(T) -> Seq<u8>, k: nat) -> Seq<
    u8,
>
    decreases k,
{
    if k == 0 {
        Seq::empty()
    } else {
        encode_items_upto(items, encode, (k - 1) as nat) + encode(items[k - 1])
    }
}

/// The bytes of a list: its length, then the items.
pub open spec fn encode_list<T>(items: Seq<T>, encode: spec_fn(T) -> Seq<u8>) -> Seq<u8> {
    spec_u64_to_le_bytes(items.len() as u64) + encode_items_upto(items, encode, items.len())
}

/// The `k` items that stand one after the other from `pos` on.
pub open spec fn parse_items<T>(
    s: Seq<u8>,
    pos: int,
    parse: spec_fn(Seq<u8>, int) -> Option<(T, int)>,
    k: nat,
) -> Option<(Seq<T>, int)>
    decreases k,
{
    if k == 0 {
        Some((Seq::empty(), pos))
    } else {
        match parse_items(s, pos, parse, (k - 1) as nat) {
            Some((before, at)) => match parse(s, at) {
                Some((item, after)) => Some((before.push(item), after)),
                None => None,
            },
            None => None,
        }
    }
}

/// The list at `pos`.
pub open spec fn parse_list<T>(
    s: Seq<u8>,
    pos: int,
    parse: spec_fn(Seq<u8>, int) -> Option<(T, int)>,
) -> Option<(Seq<T>, int)> {
    match parse_u64(s, pos) {
        Some((n, start)) => parse_items(s, start, parse, n as nat),
        None => None,
    }
}

/// Whether `parse` reads back what `encode` wrote of `item`, wherever it
/// stands.
pub open spec fn reads_back<T>(
    encode: spec_fn(T) -> Seq<u8>,
    parse: spec_fn(Seq<u8>, int) -> Option<(T, int)>,
    item: T,
) -> bool {
    forall|s: Seq<u8>, pos: int| #[trigger]
        sits_at(s, pos, encode(item)) ==> parse(s, pos) == Some(
            (item, pos + encode(item).len()),
        )
}

/// The first `k` items of what was written are read back.
pub proof fn lemma_parse_items<T>(
    s: Seq<u8>,
    pos: int,
    items: Seq<T>,
    encode: spec_fn(T) -> Seq<u8>,
    parse: spec_fn(Seq<u8>, int) -> Option<(T, int)>,
    k: nat,
)
    requires
        k <= items.len(),
        sits_at(s, pos, encode_items_upto(items, encode, k)),
        forall|i: int| 0 <= i < items.len() ==> reads_back(encode, parse, #[trigger] items[i]),
    ensures
        parse_items(s, pos, parse, k) == Some(
            (items.take(k as int), pos + encode_items_upto(items, encode, k).len()),
        ),
    decreases k,
{
    if k == 0 {
        assert(items.take(0) =~= Seq::<T>::empty());
    } else {
        let before = encode_items_upto(items, encode, (k - 1) as nat);
        lemma_sits_at_split(s, pos, before, encode(items[k - 1]));
        lemma_parse_items(s, pos, items, encode, parse, (k - 1) as nat);
        assert(reads_back(encode, parse, items[k - 1]));
        assert(sits_at(s, pos + before.len(), encode(items[k - 1])));
        assert(items.take(k as int) =~= items.take(k - 1).push(items[k - 1]));
    }
}

/// A list that was written is read back.
pub proof fn lemma_parse_list<T>(
    s: Seq<u8>,
    pos: int,
    items: Seq<T>,
    encode: spec_fn(T) -> Seq<u8>,
    parse: spec_fn(Seq<u8>, int) -> Option<(T, int)>,
)
    requires
        items.len() <= u64::MAX,
        sits_at(s, pos, encode_list(items, encode)),
        forall|i: int| 0 <= i < items.len() ==> reads_back(encode, parse, #[trigger] items[i]),
    ensures
        parse_list(s, pos, parse) == Some((items, pos + encode_list(items, encode).len())),
{
    lemma_auto_spec_u64_to_from_le_bytes();
    lemma_sits_at_split(
        s,
        pos,
        spec_u64_to_le_bytes(items.len() as u64),
        encode_items_upto(items, encode, items.len()),
    );
    lemma_parse_u64(s, pos, items.len() as u64);
    lemma_parse_items(s, pos + 8, items, encode, parse, items.len());
    assert(items.take(items.len() as int) =~= items);
}

/// Where fewer items cannot be read, more cannot either.
pub proof fn lemma_parse_items_fails<T>(
    s: Seq<u8>,
    pos: int,
    parse: spec_fn(Seq<u8>, int) -> Option<(T, int)>,
    k: nat,
    n: nat,
)
    requires
        k <= n,
        parse_items(s, pos, parse, k) is None,
    ensures
        parse_items(s, pos, parse, n) is None,
    decreases n,
{
    if k < n {
        lemma_parse_items_fails(s, pos, parse, k, (n - 1) as nat);
    }
}

/// What is read of a byte string, and how far.
pub struct Reader<'a> {
    pub bytes: &'a [u8],
    pub pos: usize,
}

impl<'a> Reader<'a> {
    /// The reader is within its bytes.
    pub open spec fn well_formed(&self) -> bool {
        self.pos <= self.bytes@.len()
    }

    /// A reader at the start of `bytes`.
    pub fn new(bytes: &'a [u8]) -> (r: Self)
        ensures
            r.bytes@ == bytes@,
            r.pos == 0,
            r.well_formed(),
    {
        Reader { bytes, pos: 0 }
    }

    /// The number of bytes that are left.
    pub fn remaining(&self) -> (r: usize)
        requires
            self.well_formed(),
        ensures
            r == self.bytes@.len() - self.pos,
    {
        self.bytes.len() - self.pos
    }

    /// Reads an integer.
    pub fn read_u64(&mut self) -> (r: Option<u64>)
        requires
            old(self).well_formed(),
        ensures
            final(self).bytes@ == old(self).bytes@,
            final(self).well_formed(),
            match r {
                Some(x) => parse_u64(old(self).bytes@, old(self).pos as int) == Some(
                    (x, final(self).pos as int),
                ),
                None => parse_u64(old(self).bytes@, old(self).pos as int) is None,
            },
    {
        if self.bytes.len() - self.pos < 8 {
            return None;
        }
        let piece = slice_subrange(self.bytes, self.pos, self.pos + 8);
        let x = u64_from_le_bytes(piece);
        self.pos = self.pos + 8;
        Some(x)
    }

    /// Reads an array of 32 bytes.
    pub fn read_array32(&mut self) -> (r: Option<[u8; 32]>)
        requires
            old(self).well_formed(),
        ensures
            final(self).bytes@ == old(self).bytes@,
            final(self).well_formed(),
            match r {
                Some(a) => parse_array32(old(self).bytes@, old(self).pos as int) == Some(
                    (a, final(self).pos as int),
                ),
                None => parse_array32(old(self).bytes@, old(self).pos as int) is None,
            },
    {
        if self.bytes.len() - self.pos < 32 {
            return None;
        }
        let start: usize = self.pos;
        let len: usize = self.bytes.len();
        let mut a = [0u8;32];
        let mut i: usize = 0;
        while i < 32
            invariant
                i <= 32,
                start == self.pos,
                len == self.bytes@.len(),
                start + 32 <= len,
                forall|j: int| 0 <= j < i ==> a@[j] == self.bytes@[start + j],
            decreases 32 - i,
        {
            a[i] = self.bytes[start + i];
            i += 1;
        }
        proof {
            assert(a@ =~= self.bytes@.subrange(self.pos as int, self.pos + 32));
            lemma_array32(a);
        }
        self.pos = self.pos + 32;
        Some(a)
    }

    /// Reads an array of 96 bytes.
    pub fn read_array96(&mut self) -> (r: Option<[u8; 96]>)
        requires
            old(self).well_formed(),
        ensures
            final(self).bytes@ == old(self).bytes@,
            final(self).well_formed(),
            match r {
                Some(a) => parse_array96(old(self).bytes@, old(self).pos as int) == Some(
                    (a, final(self).pos as int),
                ),
                None => parse_array96(old(self).bytes@, old(self).pos as int) is None,
            },
    {
        if self.bytes.len() - self.pos < 96 {
            return None;
        }
        let start: usize = self.pos;
        let len: usize = self.bytes.len();
        let mut a = [0u8;96];
        let mut i: usize = 0;
        while i < 96
            invariant
                i <= 96,
                start == self.pos,
                len == self.bytes@.len(),
                start + 96 <= len,
                forall|j: int| 0 <= j < i ==> a@[j] == self.bytes@[start + j],
            decreases 96 - i,
        {
            a[i] = self.bytes[start + i];
            i += 1;
        }
        proof {
            assert(a@ =~= self.bytes@.subrange(self.pos as int, self.pos + 96));
            lemma_array96(a);
        }
        self.pos = self.pos + 96;
        Some(a)
    }

    /// Reads a flag.
    pub fn read_flag(&mut self) -> (r: Option<bool>)
        requires
            old(self).well_formed(),
        ensures
            final(self).bytes@ == old(self).bytes@,
            final(self).well_formed(),
            match r {
                Some(flag) => parse_flag(old(self).bytes@, old(self).pos as int) == Some(
                    (flag, final(self).pos as int),
                ),
                None => parse_flag(old(self).bytes@, old(self).pos as int) is None,
            },
    {
        if self.bytes.len() - self.pos < 1 {
            return None;
        }
        let byte: u8 = self.bytes[self.pos];
        if byte > 1 {
            return None;
        }
        self.pos = self.pos + 1;
        Some(byte == 1)
    }

    /// Reads a byte string.
    pub fn read_bytes(&mut self) -> (r: Option<Vec<u8>>)
        requires
            old(self).well_formed(),
        ensures
            final(self).bytes@ == old(self).bytes@,
            final(self).well_formed(),
            match r {
                Some(bytes) => parse_bytes(old(self).bytes@, old(self).pos as int) == Some(
                    (bytes@, final(self).pos as int),
                ),
                None => parse_bytes(old(self).bytes@, old(self).pos as int) is None,
            },
    {
        let n: u64 = match self.read_u64() {
            Some(n) => n,
            None => {
                return None;
            },
        };
        let left: usize = self.bytes.len() - self.pos;
        if n > left as u64 {
            return None;
        }
        let count: usize = n as usize;
        let piece = slice_subrange(self.bytes, self.pos, self.pos + count);
        let mut bytes: Vec<u8> = Vec::new();
        append_bytes(&mut bytes, piece);
        assert(bytes@ =~= piece@);
        self.pos = self.pos + count;
        Some(bytes)
    }

    /// Reads a bitfield.
    pub fn read_bits(&mut self) -> (r: Option<Vec<bool>>)
        requires
            old(self).well_formed(),
        ensures
            final(self).bytes@ == old(self).bytes@,
            final(self).well_formed(),
            match r {
                Some(bits) => parse_bits(old(self).bytes@, old(self).pos as int) == Some(
                    (bits@, final(self).pos as int),
                ),
                None => parse_bits(old(self).bytes@, old(self).pos as int) is None,
            },
    {
        let n: u64 = match self.read_u64() {
            Some(n) => n,
            None => {
                return None;
            },
        };
        let left: usize = self.bytes.len() - self.pos;
        if n > left as u64 {
            return None;
        }
        let count: usize = n as usize;
        let start: usize = self.pos;
        let len: usize = self.bytes.len();
        let mut bits: Vec<bool> = Vec::new();
        let mut i: usize = 0;
        while i < count
            invariant
                i <= count,
                len == self.bytes@.len(),
                start + count <= len,
                self.bytes@ == old(self).bytes@,
                self.pos == start,
                count == n,
                parse_u64(old(self).bytes@, old(self).pos as int) == Some((n, start as int)),
                bits@.len() == i,
                forall|j: int| start <= j < start + i ==> #[trigger] self.bytes@[j] <= 1,
                forall|j: int| 0 <= j < i ==> bits@[j] == (self.bytes@[start + j] == 1),
            decreases count - i,
        {
            let byte: u8 = self.bytes[start + i];
            if byte > 1 {
                return None;
            }
            bits.push(byte == 1);
            i += 1;
        }
        assert(bits@ =~= Seq::new(n as nat, |i: int| self.bytes@[start + i] == 1));
        self.pos = start + count;
        Some(bits)
    }

    /// Reads a list of integers.
    pub fn read_indices(&mut self) -> (r: Option<Vec<u64>>)
        requires
            old(self).well_formed(),
        ensures
            final(self).bytes@ == old(self).bytes@,
            final(self).well_formed(),
            match r {
                Some(indices) => parse_indices(old(self).bytes@, old(self).pos as int) == Some(
                    (indices@, final(self).pos as int),
                ),
                None => parse_indices(old(self).bytes@, old(self).pos as int) is None,
            },
    {
        let n: u64 = match self.read_u64() {
            Some(n) => n,
            None => {
                return None;
            },
        };
        let left: usize = self.bytes.len() - self.pos;
        if n > (left / 8) as u64 {
            return None;
        }
        let count: usize = n as usize;
        let start: usize = self.pos;
        let len: usize = self.bytes.len();
        let mut indices: Vec<u64> = Vec::new();
        let mut i: usize = 0;
        while i < count
            invariant
                i <= count,
                len == self.bytes@.len(),
                start + 8 * count <= len,
                indices@.len() == i,
                forall|j: int|
                    0 <= j < i ==> indices@[j] == spec_u64_from_le_bytes(
                        self.bytes@.subrange(start + 8 * j, start + 8 * j + 8),
                    ),
            decreases count - i,
        {
            let piece = slice_subrange(self.bytes, start + 8 * i, start + 8 * i + 8);
            indices.push(u64_from_le_bytes(piece));
            i += 1;
        }
        assert(indices@ =~= Seq::new(
            n as nat,
            |i: int| spec_u64_from_le_bytes(self.bytes@.subrange(start + 8 * i, start + 8 * i + 8)),
        ));
        self.pos = start + 8 * count;
        Some(indices)
    }
}

/// Appends the byte of a flag to `dst`.
pub fn write_flag(dst: &mut Vec<u8>, flag: bool)
    ensures
        final(dst)@ == old(dst)@ + encode_flag(flag),
{
    dst.push(if flag {
        1
    } else {
        0
    });
    assert(dst@ =~= old(dst)@ + encode_flag(flag));
}

/// Appends a byte string with its length to `dst`.
pub fn write_bytes(dst: &mut Vec<u8>, bytes: &[u8])
    ensures
        final(dst)@ == old(dst)@ + encode_bytes(bytes@),
{
    append_u64(dst, bytes.len() as u64);
    append_bytes(dst, bytes);
    assert(dst@ =~= old(dst)@ + encode_bytes(bytes@));
}

/// Appends a bitfield with its length to `dst`.
pub fn write_bits(dst: &mut Vec<u8>, bits: &Vec<bool>)
    ensures
        final(dst)@ == old(dst)@ + encode_bits(bits@),
{
    append_u64(dst, bits.len() as u64);
    let ghost head = dst@;
    let mut i: usize = 0;
    assert(dst@ =~= head + Seq::new(0, |j: int| flag_byte(bits@[j])));
    while i < bits.len()
        invariant
            i <= bits@.len(),
            dst@ == head + Seq::new(i as nat, |j: int| flag_byte(bits@[j])),
        decreases bits@.len() - i,
    {
        dst.push(if bits[i] {
            1
        } else {
            0
        });
        assert(dst@ =~= head + Seq::new((i + 1) as nat, |j: int| flag_byte(bits@[j])));
        i += 1;
    }
    assert(dst@ =~= old(dst)@ + encode_bits(bits@));
}

/// The bytes of the first `n` of a list of integers.
pub open spec fn index_bytes(indices: Seq<u64>, n: nat) -> Seq<u8> {
    Seq::new(8 * n, |k: int| spec_u64_to_le_bytes(indices[k / 8])[k % 8])
}

/// Appends a list of integers with its length to `dst`.
pub fn write_indices(dst: &mut Vec<u8>, indices: &Vec<u64>)
    ensures
        final(dst)@ == old(dst)@ + encode_indices(indices@),
{
    append_u64(dst, indices.len() as u64);
    let ghost head = dst@;
    let mut i: usize = 0;
    assert(dst@ =~= head + index_bytes(indices@, 0));
    while i < indices.len()
        invariant
            i <= indices@.len(),
            dst@ == head + index_bytes(indices@, i as nat),
        decreases indices@.len() - i,
    {
        append_u64(dst, indices[i]);
        proof {
            lemma_auto_spec_u64_to_from_le_bytes();
            let piece = spec_u64_to_le_bytes(indices@[i as int]);
            let longer = index_bytes(indices@, (i + 1) as nat);
            assert forall|k: int| 0 <= k < longer.len() implies longer[k] == (index_bytes(
                indices@,
                i as nat,
            ) + piece)[k] by {
                if k >= 8 * i {
                    assert(k / 8 == i);
                    assert(k % 8 == k - 8 * i);
                }
            }
            assert(index_bytes(indices@, i as nat) + piece =~= longer);
            assert(dst@ =~= head + longer);
        }
        i += 1;
    }
    assert(index_bytes(indices@, indices@.len()) =~= Seq::new(
        8 * indices@.len(),
        |k: int| spec_u64_to_le_bytes(indices@[k / 8])[k % 8],
    ));
    assert(dst@ =~= old(dst)@ + encode_indices(indices@));
}

} // verus!
