//! Bytes as text: two hexadecimal digits for each byte, after the prefix `0x`.

use vstd::prelude::*;

verus! {

/// The digit of a number below sixteen: `0` to `9`, then `a` to `f`.
pub open spec fn spec_digit(n: u8) -> u8 {
    if n < 10 {
        (48 + n) as u8
    } else {
        (87 + n) as u8
    }
}

/// The number that a digit stands for: capital letters count as small ones.
pub open spec fn spec_digit_value(c: u8) -> Option<u8> {
    if 48 <= c <= 57 {
        Some((c - 48) as u8)
    } else if 97 <= c <= 102 {
        Some((c - 87) as u8)
    } else if 65 <= c <= 70 {
        Some((c - 55) as u8)
    } else {
        None
    }
}

/// The text of the bytes: `0x`, then the two digits of each byte, the higher
/// one first.
pub open spec fn spec_hex_encode(bytes: Seq<u8>) -> Seq<u8> {
    seq![48u8, 120u8] + Seq::new(
        2 * bytes.len(),
        |k: int|
            if k % 2 == 0 {
                spec_digit(bytes[k / 2] / 16)
            } else {
                spec_digit(bytes[k / 2] % 16)
            },
    )
}

/// Whether the text is `0x` followed by an even number of digits.
pub open spec fn is_hex(text: Seq<u8>) -> bool {
    &&& text.len() >= 2
    &&& text[0] == 48
    &&& text[1] == 120
    &&& text.len() % 2 == 0
    &&& forall|k: int| 2 <= k < text.len() ==> spec_digit_value(#[trigger] text[k]) is Some
}

/// The bytes that the text stands for, if it is `0x` followed by an even
/// number of digits.
pub open spec fn spec_hex_decode(text: Seq<u8>) -> Option<Seq<u8>> {
    if is_hex(text) {
        Some(
            Seq::new(
                ((text.len() - 2) / 2) as nat,
                |i: int|
                    (16 * spec_digit_value(text[2 + 2 * i])->Some_0 + spec_digit_value(
                        text[3 + 2 * i],
                    )->Some_0) as u8,
            ),
        )
    } else {
        None
    }
}

/// The text of bytes is read back as those bytes.
pub proof fn law_hex_round_trip(bytes: Seq<u8>)
    ensures
        spec_hex_decode(spec_hex_encode(bytes)) == Some(bytes),
{
    let text = spec_hex_encode(bytes);
    assert forall|k: int| 2 <= k < text.len() implies spec_digit_value(#[trigger] text[k])
        is Some by {
        let j = k - 2;
        if j % 2 == 0 {
            assert(text[k] == spec_digit(bytes[j / 2] / 16));
        } else {
            assert(text[k] == spec_digit(bytes[j / 2] % 16));
        }
    }
    assert(is_hex(text));
    let read = spec_hex_decode(text)->Some_0;
    assert forall|i: int| 0 <= i < bytes.len() implies read[i] == bytes[i] by {
        assert((2 * i) % 2 == 0);
        assert((2 * i) / 2 == i);
        assert((2 * i + 1) % 2 == 1);
        assert((2 * i + 1) / 2 == i);
        assert(text[2 + 2 * i] == spec_digit(bytes[i] / 16));
        assert(text[3 + 2 * i] == spec_digit(bytes[i] % 16));
    }
    assert(read =~= bytes);
}

/// The digit of a number below sixteen.
fn digit(n: u8) -> (r: u8)
    requires
        n < 16,
    ensures
        r == spec_digit(n),
{
    if n < 10 {
        48 + n
    } else {
        87 + n
    }
}

/// The number that a digit stands for.
fn digit_value(c: u8) -> (r: Option<u8>)
    ensures
        r == spec_digit_value(c),
        r is Some ==> r->Some_0 < 16,
{
    if 48 <= c && c <= 57 {
        Some(c - 48)
    } else if 97 <= c && c <= 102 {
        Some(c - 87)
    } else if 65 <= c && c <= 70 {
        Some(c - 55)
    } else {
        None
    }
}

/// The text of the bytes, as ASCII.
pub fn encode(bytes: &[u8]) -> (r: Vec<u8>)
    ensures
        r@ == spec_hex_encode(bytes@),
{
    let mut r: Vec<u8> = Vec::new();
    r.push(48);
    r.push(120);
    let mut i: usize = 0;
    while i < bytes.len()
        invariant
            i <= bytes@.len(),
            r@ == spec_hex_encode(bytes@.take(i as int)),
        decreases bytes@.len() - i,
    {
        let byte: u8 = bytes[i];
        r.push(digit(byte / 16));
        r.push(digit(byte % 16));
        proof {
            let shorter = spec_hex_encode(bytes@.take(i as int));
            let longer = spec_hex_encode(bytes@.take(i + 1));
            assert forall|k: int| 0 <= k < longer.len() implies longer[k] == r@[k] by {
                if k >= 2 {
                    let j = k - 2;
                    if j < 2 * i {
                        assert(r@[k] == shorter[k]);
                        assert(j / 2 < i);
                    } else {
                        assert(j / 2 == i);
                    }
                }
            }
            assert(r@ =~= longer);
        }
        i += 1;
    }
    assert(bytes@.take(bytes@.len() as int) =~= bytes@);
    r
}

/// The bytes that the ASCII text stands for, if it is `0x` followed by an even
/// number of digits.
pub fn decode(text: &[u8]) -> (r: Option<Vec<u8>>)
    ensures
        match r {
            Some(bytes) => spec_hex_decode(text@) == Some(bytes@),
            None => spec_hex_decode(text@) is None,
        },
{
    let len: usize = text.len();
    if len < 2 || text[0] != 48 || text[1] != 120 || len % 2 != 0 {
        return None;
    }
    let n: usize = (len - 2) / 2;
    let mut bytes: Vec<u8> = Vec::new();
    let mut i: usize = 0;
    while i < n
        invariant
            i <= n,
            len == text@.len(),
            len >= 2,
            len % 2 == 0,
            n == (len - 2) / 2,
            bytes@.len() == i,
            forall|k: int| 2 <= k < 2 + 2 * i ==> spec_digit_value(#[trigger] text@[k]) is Some,
            forall|j: int|
                0 <= j < i ==> #[trigger] bytes@[j] == (16 * spec_digit_value(
                    text@[2 + 2 * j],
                )->Some_0 + spec_digit_value(text@[3 + 2 * j])->Some_0) as u8,
        decreases n - i,
    {
        let high = match digit_value(text[2 + 2 * i]) {
            Some(high) => high,
            None => {
                return None;
            },
        };
        let low = match digit_value(text[3 + 2 * i]) {
            Some(low) => low,
            None => {
                return None;
            },
        };
        bytes.push(16 * high + low);
        i += 1;
    }
    assert(is_hex(text@));
    assert(bytes@ =~= spec_hex_decode(text@)->Some_0);
    Some(bytes)
}

} // verus!
