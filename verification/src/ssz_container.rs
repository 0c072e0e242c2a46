//! Records of byte strings in simple serialisation: after the fixed part of the
//! record comes one offset of four bytes for each byte string, and after the
//! offsets come the byte strings themselves, one after the other. An offset
//! counts from the start of the record. A list of byte strings is written in
//! the same way, without a fixed part.

use vstd::prelude::*;
use vstd::bytes::*;
use vstd::slice::slice_subrange;
use crate::encoding::{append_bytes, append_u32};
use crate::ssz::DecodeError;

verus! {

/// The number of bytes of the first `n` byte strings.
pub open spec fn total_len(fields: Seq<Seq<u8>>, n: int) -> int
    decreases n,
{
    if n <= 0 {
        0
    } else {
        total_len(fields, n - 1) + fields[n - 1].len()
    }
}

/// The first `n` byte strings, one after the other.
pub open spec fn joined(fields: Seq<Seq<u8>>, n: int) -> Seq<u8>
    decreases n,
{
    if n <= 0 {
        Seq::empty()
    } else {
        joined(fields, n - 1) + fields[n - 1]
    }
}

/// The offsets of the first `n` byte strings, where the first byte string
/// starts at `base`.
pub open spec fn encode_offsets(base: int, fields: Seq<Seq<u8>>, n: int) -> Seq<u8>
    decreases n,
{
    if n <= 0 {
        Seq::empty()
    } else {
        encode_offsets(base, fields, n - 1) + spec_u32_to_le_bytes(
            (base + total_len(fields, n - 1)) as u32,
        )
    }
}

/// Where the first byte string of a record of `k` byte strings starts.
pub open spec fn fixed_len(prefix_len: int, k: int) -> int {
    prefix_len + 4 * k
}

/// What follows a fixed part of `prefix_len` bytes: the offsets of the byte
/// strings, then the byte strings.
pub open spec fn encode_fields(prefix_len: int, fields: Seq<Seq<u8>>) -> Seq<u8> {
    encode_offsets(fixed_len(prefix_len, fields.len() as int), fields, fields.len() as int)
        + joined(fields, fields.len() as int)
}

/// Whether every offset can be written in four bytes.
pub open spec fn fields_fit(prefix_len: int, fields: Seq<Seq<u8>>) -> bool {
    0 <= prefix_len && fixed_len(prefix_len, fields.len() as int) + total_len(
        fields,
        fields.len() as int,
    ) <= u32::MAX
}

/// The `i`-th offset of a record with a fixed part of `prefix_len` bytes.
pub open spec fn offset_at(s: Seq<u8>, prefix_len: int, i: int) -> int {
    spec_u32_from_le_bytes(s.subrange(prefix_len + 4 * i, prefix_len + 4 * i + 4)) as int
}

/// Where the `i`-th of `k` byte strings starts; the end of the record for
/// `i == k`.
pub open spec fn bound_at(s: Seq<u8>, prefix_len: int, k: int, i: int) -> int {
    if i < k {
        offset_at(s, prefix_len, i)
    } else {
        s.len() as int
    }
}

/// Whether the `i`-th offset is in order: the first is where the offsets end,
/// every other is no less than the one before it, and none is beyond the end
/// of the record.
pub open spec fn offset_in_order(s: Seq<u8>, prefix_len: int, k: int, i: int) -> bool {
    &&& offset_at(s, prefix_len, i) <= s.len()
    &&& if i == 0 {
        offset_at(s, prefix_len, 0) == fixed_len(prefix_len, k)
    } else {
        offset_at(s, prefix_len, i - 1) <= offset_at(s, prefix_len, i)
    }
}

/// The first of the first `n` offsets that is not in order, if there is one.
pub open spec fn first_bad_offset(s: Seq<u8>, prefix_len: int, k: int, n: int) -> Option<int>
    decreases n,
{
    if n <= 0 {
        None
    } else {
        match first_bad_offset(s, prefix_len, k, n - 1) {
            Some(bad) => Some(bad),
            None => if offset_in_order(s, prefix_len, k, n - 1) {
                None
            } else {
                Some(offset_at(s, prefix_len, n - 1))
            },
        }
    }
}

/// The byte strings that the offsets of a record mark out.
pub open spec fn marked_fields(s: Seq<u8>, prefix_len: int, k: int) -> Seq<Seq<u8>> {
    Seq::new(
        k as nat,
        |i: int| s.subrange(bound_at(s, prefix_len, k, i), bound_at(s, prefix_len, k, i + 1)),
    )
}

/// The `k` byte strings of the record `s` with a fixed part of `prefix_len`
/// bytes, or why there are none: the record is shorter than its fixed part and
/// its offsets, or an offset is not in order.
pub open spec fn decode_fields(s: Seq<u8>, prefix_len: int, k: int) -> Result<
    Seq<Seq<u8>>,
    DecodeError,
> {
    if s.len() < fixed_len(prefix_len, k) {
        Err(
            DecodeError::InvalidByteLength {
                len: s.len() as usize,
                expected: fixed_len(prefix_len, k) as usize,
            },
        )
    } else {
        match first_bad_offset(s, prefix_len, k, k) {
            Some(bad) => Err(DecodeError::OutOfBoundsByte { i: bad as usize }),
            None => Ok(marked_fields(s, prefix_len, k)),
        }
    }
}

/// The byte strings of the list `s`, or why there are none. An empty list has
/// no bytes; any other begins with its offsets, of which the first tells how
/// many there are.
pub open spec fn decode_list(s: Seq<u8>) -> Result<Seq<Seq<u8>>, DecodeError> {
    if s.len() == 0 {
        Ok(Seq::empty())
    } else if s.len() < 4 {
        Err(DecodeError::InvalidByteLength { len: s.len() as usize, expected: 4 })
    } else {
        let first = offset_at(s, 0, 0);
        if first == 0 || first % 4 != 0 || first > s.len() {
            Err(DecodeError::OutOfBoundsByte { i: first as usize })
        } else {
            decode_fields(s, 0, first / 4)
        }
    }
}

/// The lengths of the parts of what is written.
pub proof fn lemma_encode_lens(base: int, fields: Seq<Seq<u8>>, n: int)
    requires
        0 <= n,
    ensures
        encode_offsets(base, fields, n).len() == 4 * n,
        joined(fields, n).len() == total_len(fields, n),
        total_len(fields, n) >= 0,
    decreases n,
{
    lemma_auto_spec_u32_to_from_le_bytes();
    if n > 0 {
        lemma_encode_lens(base, fields, n - 1);
    }
}

/// The lengths of byte strings only add up.
pub proof fn lemma_total_len_grows(fields: Seq<Seq<u8>>, i: int, j: int)
    requires
        0 <= i <= j,
    ensures
        0 <= total_len(fields, i) <= total_len(fields, j),
    decreases j,
{
    if i < j {
        lemma_total_len_grows(fields, i, j - 1);
    } else {
        lemma_encode_lens(0, fields, i);
    }
}

/// The `i`-th offset of what was written stands where it was written.
proof fn lemma_offset_written(base: int, fields: Seq<Seq<u8>>, n: int, i: int)
    requires
        0 <= i < n,
    ensures
        encode_offsets(base, fields, n).subrange(4 * i, 4 * i + 4) == spec_u32_to_le_bytes(
            (base + total_len(fields, i)) as u32,
        ),
    decreases n,
{
    lemma_auto_spec_u32_to_from_le_bytes();
    lemma_encode_lens(base, fields, n);
    lemma_encode_lens(base, fields, n - 1);
    let whole = encode_offsets(base, fields, n);
    let before = encode_offsets(base, fields, n - 1);
    if i == n - 1 {
        assert(whole.subrange(4 * i, 4 * i + 4) =~= spec_u32_to_le_bytes(
            (base + total_len(fields, i)) as u32,
        ));
    } else {
        lemma_offset_written(base, fields, n - 1, i);
        assert(whole.subrange(4 * i, 4 * i + 4) =~= before.subrange(4 * i, 4 * i + 4));
    }
}

/// The `i`-th byte string of what was written stands where its offset says.
proof fn lemma_field_written(fields: Seq<Seq<u8>>, n: int, i: int)
    requires
        0 <= i < n,
    ensures
        0 <= total_len(fields, i),
        total_len(fields, i + 1) == total_len(fields, i) + fields[i].len(),
        total_len(fields, i + 1) <= total_len(fields, n),
        joined(fields, n).subrange(total_len(fields, i), total_len(fields, i + 1)) == fields[i],
    decreases n,
{
    lemma_encode_lens(0, fields, n);
    lemma_encode_lens(0, fields, n - 1);
    lemma_encode_lens(0, fields, i);
    let whole = joined(fields, n);
    let before = joined(fields, n - 1);
    if i == n - 1 {
        assert(whole.subrange(total_len(fields, i), total_len(fields, i + 1)) =~= fields[i]);
    } else {
        lemma_field_written(fields, n - 1, i);
        assert(whole.subrange(total_len(fields, i), total_len(fields, i + 1))
            =~= before.subrange(total_len(fields, i), total_len(fields, i + 1)));
    }
}

/// In a record that was written, the `i`-th offset is what was written.
proof fn lemma_offset_read_back(prefix: Seq<u8>, fields: Seq<Seq<u8>>, i: int)
    requires
        fields_fit(prefix.len() as int, fields),
        0 <= i < fields.len(),
    ensures
        offset_at(prefix + encode_fields(prefix.len() as int, fields), prefix.len() as int, i)
            == fixed_len(prefix.len() as int, fields.len() as int) + total_len(fields, i),
        0 <= total_len(fields, i) <= total_len(fields, fields.len() as int),
{
    let k = fields.len() as int;
    let base = fixed_len(prefix.len() as int, k);
    let s = prefix + encode_fields(prefix.len() as int, fields);
    lemma_auto_spec_u32_to_from_le_bytes();
    lemma_encode_lens(base, fields, k);
    lemma_offset_written(base, fields, k, i);
    lemma_total_len_grows(fields, i, k);
    assert(s.subrange(prefix.len() + 4 * i, prefix.len() + 4 * i + 4) =~= encode_offsets(
        base,
        fields,
        k,
    ).subrange(4 * i, 4 * i + 4));
}

/// In a record that was written, the offsets are in order.
proof fn lemma_offsets_in_order(prefix: Seq<u8>, fields: Seq<Seq<u8>>, n: int)
    requires
        fields_fit(prefix.len() as int, fields),
        0 <= n <= fields.len(),
    ensures
        first_bad_offset(
            prefix + encode_fields(prefix.len() as int, fields),
            prefix.len() as int,
            fields.len() as int,
            n,
        ) is None,
    decreases n,
{
    let k = fields.len() as int;
    let base = fixed_len(prefix.len() as int, k);
    lemma_encode_lens(base, fields, k);
    if n > 0 {
        lemma_offsets_in_order(prefix, fields, n - 1);
        lemma_offset_read_back(prefix, fields, n - 1);
        if n - 1 > 0 {
            lemma_offset_read_back(prefix, fields, n - 2);
            lemma_total_len_grows(fields, n - 2, n - 1);
        }
    }
}

/// A record that was written is read back: its byte strings are those that
/// were written.
pub proof fn law_fields_round_trip(prefix: Seq<u8>, fields: Seq<Seq<u8>>)
    requires
        fields_fit(prefix.len() as int, fields),
    ensures
        decode_fields(
            prefix + encode_fields(prefix.len() as int, fields),
            prefix.len() as int,
            fields.len() as int,
        ) == Ok::<Seq<Seq<u8>>, DecodeError>(fields),
{
    let k = fields.len() as int;
    let pl = prefix.len() as int;
    let base = fixed_len(pl, k);
    let s = prefix + encode_fields(pl, fields);
    lemma_encode_lens(base, fields, k);
    lemma_offsets_in_order(prefix, fields, k);
    let read = marked_fields(s, pl, k);
    assert forall|i: int| 0 <= i < k implies read[i] == fields[i] by {
        lemma_field_written(fields, k, i);
        lemma_offset_read_back(prefix, fields, i);
        if i + 1 < k {
            lemma_offset_read_back(prefix, fields, i + 1);
        }
        assert(s.subrange(base + total_len(fields, i), base + total_len(fields, i + 1))
            =~= joined(fields, k).subrange(total_len(fields, i), total_len(fields, i + 1)));
    }
    assert(read =~= fields);
}

/// A list that was written is read back.
pub proof fn law_list_round_trip(items: Seq<Seq<u8>>)
    requires
        fields_fit(0, items),
    ensures
        decode_list(encode_fields(0, items)) == Ok::<Seq<Seq<u8>>, DecodeError>(items),
{
    let s = encode_fields(0, items);
    let nothing = Seq::<u8>::empty();
    assert(nothing + s =~= s);
    lemma_encode_lens(fixed_len(0, items.len() as int), items, items.len() as int);
    if items.len() == 0 {
        assert(items =~= Seq::<Seq<u8>>::empty());
    } else {
        law_fields_round_trip(nothing, items);
        lemma_offset_read_back(nothing, items, 0);
    }
}

/// The byte strings of a sequence of vectors.
pub open spec fn byte_views(fields: Seq<Vec<u8>>) -> Seq<Seq<u8>> {
    Seq::new(fields.len(), |i: int| fields[i]@)
}

/// Once an offset is not in order, it stays the first that is not.
proof fn lemma_bad_offset_stays(s: Seq<u8>, prefix_len: int, k: int, n: int, m: int)
    requires
        0 <= n <= m,
        first_bad_offset(s, prefix_len, k, n) is Some,
    ensures
        first_bad_offset(s, prefix_len, k, m) == first_bad_offset(s, prefix_len, k, n),
    decreases m,
{
    if n < m {
        lemma_bad_offset_stays(s, prefix_len, k, n, m - 1);
    }
}

/// Appends to `dst`, which ends with the fixed part of a record of
/// `prefix_len` bytes, the offsets of the byte strings and the byte strings.
pub fn write_fields(dst: &mut Vec<u8>, prefix_len: usize, fields: &Vec<Vec<u8>>)
    requires
        fields_fit(prefix_len as int, byte_views(fields@)),
    ensures
        final(dst)@ == old(dst)@ + encode_fields(prefix_len as int, byte_views(fields@)),
{
    let ghost views = byte_views(fields@);
    let ghost k = fields@.len() as int;
    let ghost base = fixed_len(prefix_len as int, k);
    proof {
        lemma_encode_lens(base, views, k);
    }
    let mut offset: usize = prefix_len + 4 * fields.len();
    let mut i: usize = 0;
    assert(dst@ =~= old(dst)@ + encode_offsets(base, views, 0));
    while i < fields.len()
        invariant
            i <= fields@.len(),
            views == byte_views(fields@),
            k == fields@.len(),
            base == fixed_len(prefix_len as int, k),
            base + total_len(views, k) <= u32::MAX,
            offset == base + total_len(views, i as int),
            dst@ == old(dst)@ + encode_offsets(base, views, i as int),
        decreases fields@.len() - i,
    {
        proof {
            lemma_total_len_grows(views, i as int, k);
            lemma_total_len_grows(views, i + 1, k);
            assert(views[i as int] == fields@[i as int]@);
        }
        append_u32(dst, offset as u32);
        assert(dst@ =~= old(dst)@ + encode_offsets(base, views, i + 1));
        offset = offset + fields[i].len();
        i += 1;
    }
    let ghost head = dst@;
    let mut j: usize = 0;
    assert(dst@ =~= head + joined(views, 0));
    while j < fields.len()
        invariant
            j <= fields@.len(),
            views == byte_views(fields@),
            dst@ == head + joined(views, j as int),
        decreases fields@.len() - j,
    {
        append_bytes(dst, fields[j].as_slice());
        assert(views[j as int] == fields@[j as int]@);
        assert(dst@ =~= head + joined(views, j + 1));
        j += 1;
    }
    assert(dst@ =~= old(dst)@ + encode_fields(prefix_len as int, views));
}

/// The `k` byte strings of the record `bytes` with a fixed part of
/// `prefix_len` bytes.
pub fn read_fields(bytes: &[u8], prefix_len: usize, k: usize) -> (r: Result<
    Vec<Vec<u8>>,
    DecodeError,
>)
    requires
        fixed_len(prefix_len as int, k as int) <= usize::MAX,
    ensures
        match r {
            Ok(fields) => decode_fields(bytes@, prefix_len as int, k as int) == Ok::<
                Seq<Seq<u8>>,
                DecodeError,
            >(byte_views(fields@)),
            Err(e) => decode_fields(bytes@, prefix_len as int, k as int) == Err::<
                Seq<Seq<u8>>,
                DecodeError,
            >(e),
        },
{
    let len: usize = bytes.len();
    let fixed: usize = prefix_len + 4 * k;
    if len < fixed {
        return Err(DecodeError::InvalidByteLength { len, expected: fixed });
    }
    let ghost s = bytes@;
    let ghost p = prefix_len as int;
    let mut offsets: Vec<usize> = Vec::new();
    let mut i: usize = 0;
    while i < k
        invariant
            i <= k,
            s == bytes@,
            len == s.len(),
            p == prefix_len,
            fixed == fixed_len(p, k as int),
            fixed <= len,
            offsets@.len() == i,
            first_bad_offset(s, p, k as int, i as int) is None,
            forall|j: int| 0 <= j < i ==> #[trigger] offsets@[j] == offset_at(s, p, j),
            forall|j: int| 0 <= j < i ==> fixed <= #[trigger] offsets@[j] <= len,
            forall|j: int| 0 < j < i ==> offsets@[j - 1] <= #[trigger] offsets@[j],
        decreases k - i,
    {
        let piece = slice_subrange(bytes, prefix_len + 4 * i, prefix_len + 4 * i + 4);
        let offset: usize = u32_from_le_bytes(piece) as usize;
        let in_order: bool = offset <= len && if i == 0 {
            offset == fixed
        } else {
            offsets[i - 1] <= offset
        };
        assert(offset == offset_at(s, p, i as int));
        assert(in_order == offset_in_order(s, p, k as int, i as int));
        if !in_order {
            proof {
                lemma_bad_offset_stays(s, p, k as int, i + 1, k as int);
            }
            return Err(DecodeError::OutOfBoundsByte { i: offset });
        }
        offsets.push(offset);
        i += 1;
    }
    let ghost wanted = marked_fields(s, p, k as int);
    let mut fields: Vec<Vec<u8>> = Vec::new();
    let mut j: usize = 0;
    while j < k
        invariant
            j <= k,
            s == bytes@,
            len == s.len(),
            p == prefix_len,
            offsets@.len() == k,
            wanted == marked_fields(s, p, k as int),
            fields@.len() == j,
            forall|m: int| 0 <= m < k ==> #[trigger] offsets@[m] == offset_at(s, p, m),
            forall|m: int| 0 <= m < k ==> #[trigger] offsets@[m] <= len,
            forall|m: int| 0 < m < k ==> offsets@[m - 1] <= #[trigger] offsets@[m],
            forall|m: int| 0 <= m < j ==> (#[trigger] fields@[m])@ == wanted[m],
        decreases k - j,
    {
        let start: usize = offsets[j];
        let end: usize = if j + 1 < k {
            offsets[j + 1]
        } else {
            len
        };
        let piece = slice_subrange(bytes, start, end);
        let mut field: Vec<u8> = Vec::new();
        append_bytes(&mut field, piece);
        assert(field@ =~= wanted[j as int]);
        fields.push(field);
        j += 1;
    }
    assert(byte_views(fields@) =~= wanted);
    Ok(fields)
}

/// The byte strings of the list `bytes`.
pub fn read_list(bytes: &[u8]) -> (r: Result<Vec<Vec<u8>>, DecodeError>)
    ensures
        match r {
            Ok(items) => decode_list(bytes@) == Ok::<Seq<Seq<u8>>, DecodeError>(
                byte_views(items@),
            ),
            Err(e) => decode_list(bytes@) == Err::<Seq<Seq<u8>>, DecodeError>(e),
        },
{
    let len: usize = bytes.len();
    if len == 0 {
        let items: Vec<Vec<u8>> = Vec::new();
        assert(byte_views(items@) =~= Seq::<Seq<u8>>::empty());
        return Ok(items);
    }
    if len < 4 {
        return Err(DecodeError::InvalidByteLength { len, expected: 4 });
    }
    let piece = slice_subrange(bytes, 0, 4);
    let first: usize = u32_from_le_bytes(piece) as usize;
    if first == 0 || first % 4 != 0 || first > len {
        return Err(DecodeError::OutOfBoundsByte { i: first });
    }
    read_fields(bytes, 0, first / 4)
}

} // verus!
