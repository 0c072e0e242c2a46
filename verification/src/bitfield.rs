//! Bitfields over committee positions: one `bool` per member, in committee order.
//!
//! A position beyond the end of a bitfield reads as unset, so that bitfields of
//! different lengths can be compared and combined.

use vstd::prelude::*;

verus! {

/// The bit at position `p`; unset outside the bitfield.
pub open spec fn bit_at(bits: Seq<bool>, p: int) -> bool {
    0 <= p < bits.len() && bits[p]
}

/// The number of set bits among the first `n` positions.
pub open spec fn count_upto(bits: Seq<bool>, n: nat) -> nat
    decreases n,
{
    if n == 0 {
        0
    } else {
        count_upto(bits, (n - 1) as nat) + if bit_at(bits, n - 1) {
            1nat
        } else {
            0nat
        }
    }
}

/// The number of set bits.
pub open spec fn count_set(bits: Seq<bool>) -> nat {
    count_upto(bits, bits.len())
}

/// No position is set in both bitfields.
pub open spec fn disjoint(a: Seq<bool>, b: Seq<bool>) -> bool {
    forall|p: int| !(#[trigger] bit_at(a, p) && bit_at(b, p))
}

/// The bitfield of the positions set in either; as long as the longer of the two.
pub open spec fn union(a: Seq<bool>, b: Seq<bool>) -> Seq<bool> {
    Seq::new(
        if a.len() >= b.len() {
            a.len()
        } else {
            b.len()
        },
        |p: int| bit_at(a, p) || bit_at(b, p),
    )
}

/// The bitfield of the positions set in `a` and not in `b`; as long as `a`.
pub open spec fn difference(a: Seq<bool>, b: Seq<bool>) -> Seq<bool> {
    Seq::new(a.len(), |p: int| bit_at(a, p) && !bit_at(b, p))
}

/// Positions beyond the end add nothing to the count.
pub proof fn lemma_count_upto_beyond(bits: Seq<bool>, n: nat)
    requires
        n >= bits.len(),
    ensures
        count_upto(bits, n) == count_set(bits),
    decreases n,
{
    if n > bits.len() {
        lemma_count_upto_beyond(bits, (n - 1) as nat);
    }
}

/// The union of two disjoint bitfields has as many set bits as both together.
pub proof fn lemma_count_union_upto(a: Seq<bool>, b: Seq<bool>, n: nat)
    requires
        disjoint(a, b),
    ensures
        count_upto(union(a, b), n) == count_upto(a, n) + count_upto(b, n),
    decreases n,
{
    if n > 0 {
        lemma_count_union_upto(a, b, (n - 1) as nat);
        assert(!(bit_at(a, n - 1) && bit_at(b, n - 1)));
    }
}

/// The union of two disjoint bitfields has as many set bits as both together.
pub proof fn lemma_count_union(a: Seq<bool>, b: Seq<bool>)
    requires
        disjoint(a, b),
    ensures
        count_set(union(a, b)) == count_set(a) + count_set(b),
{
    let u = union(a, b);
    lemma_count_union_upto(a, b, u.len());
    lemma_count_upto_beyond(a, u.len());
    lemma_count_upto_beyond(b, u.len());
}

/// The number of set bits of `bits`.
pub fn num_set_bits(bits: &Vec<bool>) -> (r: usize)
    ensures
        r == count_set(bits@),
{
    let mut n: usize = 0;
    let mut i: usize = 0;
    while i < bits.len()
        invariant
            i <= bits@.len(),
            n == count_upto(bits@, i as nat),
            n <= i,
        decreases bits@.len() - i,
    {
        if bits[i] {
            n += 1;
        }
        i += 1;
    }
    n
}

/// Whether no position is set in both bitfields.
pub fn is_disjoint(a: &Vec<bool>, b: &Vec<bool>) -> (r: bool)
    ensures
        r == disjoint(a@, b@),
{
    let mut i: usize = 0;
    while i < a.len() && i < b.len()
        invariant
            forall|p: int| 0 <= p < i ==> !(#[trigger] bit_at(a@, p) && bit_at(b@, p)),
        decreases a@.len() - i,
    {
        if a[i] && b[i] {
            assert(bit_at(a@, i as int) && bit_at(b@, i as int));
            return false;
        }
        i += 1;
    }
    true
}

/// The union of two bitfields.
pub fn bit_union(a: &Vec<bool>, b: &Vec<bool>) -> (r: Vec<bool>)
    ensures
        r@ == union(a@, b@),
{
    let n: usize = if a.len() >= b.len() {
        a.len()
    } else {
        b.len()
    };
    let mut r: Vec<bool> = Vec::new();
    let mut i: usize = 0;
    while i < n
        invariant
            i <= n,
            n == union(a@, b@).len(),
            r@.len() == i,
            forall|p: int| 0 <= p < i ==> #[trigger] r@[p] == (bit_at(a@, p) || bit_at(b@, p)),
        decreases n - i,
    {
        let x: bool = i < a.len() && a[i];
        let y: bool = i < b.len() && b[i];
        r.push(x || y);
        i += 1;
    }
    assert(r@ =~= union(a@, b@));
    r
}

/// Clears in `a` every position that is set in `b`.
pub fn difference_inplace(a: &mut Vec<bool>, b: &Vec<bool>)
    ensures
        final(a)@ == difference(old(a)@, b@),
{
    let mut i: usize = 0;
    while i < a.len()
        invariant
            i <= a@.len(),
            a@.len() == old(a)@.len(),
            forall|p: int|
                0 <= p < i ==> #[trigger] a@[p] == (bit_at(old(a)@, p) && !bit_at(b@, p)),
            forall|p: int| i <= p < a@.len() ==> #[trigger] a@[p] == old(a)@[p],
        decreases a@.len() - i,
    {
        if i < b.len() && b[i] {
            a[i] = false;
        }
        i += 1;
    }
    assert(a@ =~= difference(old(a)@, b@));
}

/// A copy of a bitfield.
pub fn clone_bits(bits: &Vec<bool>) -> (r: Vec<bool>)
    ensures
        r@ == bits@,
{
    let r = bits.clone();
    assert(r@ =~= bits@);
    r
}

} // verus!
