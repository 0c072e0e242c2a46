//! How good the greedy choice is.
//!
//! Finding the candidates that cover the most is hard; the greedy choice is
//! not always the best, but never far from it. Each pick covers at least its
//! fair share of what any rival selection covers beyond what is covered
//! already, and from this the known bound follows: with `k` picks allowed, the
//! greedy choice falls short of any rival by at most the fraction
//! `((k - 1) / k)^k` of what the rival covers, which is less than `1 / e`.

use vstd::prelude::*;
use vstd::set_lib::{lemma_len_subset, lemma_len_union, lemma_set_disjoint_lens};
use crate::max_cover::{
    all_finite, best_among, covered_before, gain, greedy, greedy_from, lemma_best_among,
    lemma_covered_before_shift, next_pick,
};

verus! {

/// Whether every index of the selection is that of a candidate.
pub open spec fn is_selection<E>(covers: Seq<Set<E>>, selection: Seq<int>) -> bool {
    forall|k: int| 0 <= k < selection.len() ==> 0 <= #[trigger] selection[k] < covers.len()
}

/// What the first `n` candidates of a selection cover together.
pub open spec fn union_of<E>(covers: Seq<Set<E>>, selection: Seq<int>, n: nat) -> Set<E>
    decreases n,
{
    if n == 0 {
        Set::empty()
    } else {
        union_of(covers, selection, (n - 1) as nat).union(covers[selection[n - 1]])
    }
}

/// How many elements a selection covers.
pub open spec fn coverage<E>(covers: Seq<Set<E>>, selection: Seq<int>) -> nat {
    union_of(covers, selection, selection.len()).len()
}

/// How many elements the greedy choice of at most `limit` candidates covers.
pub open spec fn greedy_coverage<E>(covers: Seq<Set<E>>, limit: nat) -> nat {
    covered_before(covers, Set::empty(), greedy(covers, limit), greedy(covers, limit).len()).len()
}

/// `b` to the power of `e`.
pub open spec fn power(b: int, e: nat) -> int
    decreases e,
{
    if e == 0 {
        1
    } else {
        b * power(b, (e - 1) as nat)
    }
}

/// What exceeds a bound, or nothing.
pub open spec fn excess(amount: int, bound: int) -> int {
    if amount > bound {
        amount - bound
    } else {
        0
    }
}

/// A selection covers finitely many elements.
pub proof fn lemma_union_finite<E>(covers: Seq<Set<E>>, selection: Seq<int>, n: nat)
    requires
        all_finite(covers),
        is_selection(covers, selection),
        n <= selection.len(),
    ensures
        union_of(covers, selection, n).finite(),
    decreases n,
{
    if n > 0 {
        lemma_union_finite(covers, selection, (n - 1) as nat);
        assert(covers[selection[n - 1]].finite());
    }
}

/// A set has no more elements than what it has outside another set and that
/// other set together.
proof fn lemma_len_split<E>(a: Set<E>, b: Set<E>)
    requires
        a.finite(),
        b.finite(),
    ensures
        a.len() <= a.difference(b).len() + b.len(),
{
    lemma_len_union(a.difference(b), b);
    assert(a.subset_of(a.difference(b).union(b)));
    lemma_len_subset(a, a.difference(b).union(b));
}

/// What a set and a cover hold together is what the set holds and what the
/// cover adds to it.
proof fn lemma_len_gain<E>(covered: Set<E>, cover: Set<E>)
    requires
        covered.finite(),
        cover.finite(),
    ensures
        covered.union(cover).finite(),
        covered.union(cover).len() == covered.len() + gain(cover, covered),
{
    let added = cover.difference(covered);
    assert(covered.union(cover) =~= covered + added);
    assert(covered.disjoint(added));
    lemma_set_disjoint_lens(covered, added);
}

/// The best candidate gains at least its fair share: whatever the first `n`
/// candidates of a selection cover beyond what is covered already, it is no
/// more than `n` times the gain of the best candidate.
pub proof fn law_fair_share<E>(
    covers: Seq<Set<E>>,
    covered: Set<E>,
    selection: Seq<int>,
    n: nat,
)
    requires
        all_finite(covers),
        is_selection(covers, selection),
        n <= selection.len(),
    ensures
        union_of(covers, selection, n).difference(covered).finite(),
        n > 0 ==> union_of(covers, selection, n).difference(covered).len() <= n * gain(
            covers[best_among(covers, covered, covers.len())],
            covered,
        ),
        n == 0 ==> union_of(covers, selection, n).difference(covered).len() == 0,
    decreases n,
{
    lemma_union_finite(covers, selection, n);
    if n > 0 {
        law_fair_share(covers, covered, selection, (n - 1) as nat);
        lemma_best_among(covers, covered, covers.len());
        let before = union_of(covers, selection, (n - 1) as nat);
        let cover = covers[selection[n - 1]];
        let best = gain(covers[best_among(covers, covered, covers.len())], covered);
        assert(cover.finite());
        assert(union_of(covers, selection, n).difference(covered) =~= before.difference(
            covered,
        ).union(cover.difference(covered)));
        lemma_len_union(before.difference(covered), cover.difference(covered));
        assert(gain(cover, covered) <= best);
        assert(n * best == (n - 1) * best + best) by (nonlinear_arith);
    } else {
        assert(union_of(covers, selection, 0).difference(covered) =~= Set::<E>::empty());
    }
}

/// Where the greedy choice stops, nothing is left to gain: no selection covers
/// anything beyond what is covered.
proof fn lemma_nothing_left<E>(covers: Seq<Set<E>>, covered: Set<E>, selection: Seq<int>)
    requires
        all_finite(covers),
        covered.finite(),
        is_selection(covers, selection),
        next_pick(covers, covered) is None,
    ensures
        coverage(covers, selection) <= covered.len(),
{
    let all = union_of(covers, selection, selection.len());
    law_fair_share(covers, covered, selection, selection.len());
    lemma_union_finite(covers, selection, selection.len());
    lemma_best_among(covers, covered, covers.len());
    if selection.len() > 0 {
        assert(0 <= selection[0] < covers.len());
        let best = gain(covers[best_among(covers, covered, covers.len())], covered);
        assert(best == 0);
        assert(selection.len() * best == 0) by (nonlinear_arith)
            requires
                best == 0,
        ;
    }
    lemma_len_split(all, covered);
}

/// With every pick, what a rival selection covers beyond the greedy choice
/// shrinks by the factor `(k - 1) / k` at least, where the rival has at most
/// `k` candidates: after `limit` picks from what is `covered` already,
/// `k^limit` times what the rival covers beyond the greedy choice is at most
/// `(k - 1)^limit` times what it covered beyond the start.
pub proof fn law_shortfall_shrinks<E>(
    covers: Seq<Set<E>>,
    covered: Set<E>,
    limit: nat,
    k: nat,
    selection: Seq<int>,
)
    requires
        all_finite(covers),
        covered.finite(),
        is_selection(covers, selection),
        selection.len() <= k,
        k >= 1,
    ensures
        covered_before(
            covers,
            covered,
            greedy_from(covers, covered, limit),
            greedy_from(covers, covered, limit).len(),
        ).finite(),
        power(k as int, limit) * (coverage(covers, selection) - covered_before(
            covers,
            covered,
            greedy_from(covers, covered, limit),
            greedy_from(covers, covered, limit).len(),
        ).len()) <= power(k - 1, limit) * excess(
            coverage(covers, selection) as int,
            covered.len() as int,
        ),
    decreases limit,
{
    let picks = greedy_from(covers, covered, limit);
    let reached = covered_before(covers, covered, picks, picks.len());
    let rival = coverage(covers, selection) as int;
    let start = excess(rival, covered.len() as int);
    let kk = k as int;
    lemma_power_nonnegative(kk, limit);
    lemma_power_nonnegative(kk - 1, limit);
    if limit == 0 {
        assert(power(kk, 0) == 1 && power(kk - 1, 0) == 1);
        assert(reached == covered);
    } else {
        match next_pick(covers, covered) {
            None => {
                assert(reached == covered);
                lemma_nothing_left(covers, covered, selection);
                let p = power(kk, limit);
                let q = power(kk - 1, limit);
                let short = rival - covered.len();
                assert(p * short <= q * start) by (nonlinear_arith)
                    requires
                        p >= 0,
                        q >= 0,
                        short <= 0,
                        start >= 0,
                ;
            },
            Some(best) => {
                lemma_best_among(covers, covered, covers.len());
                let next = covered.union(covers[best]);
                let rest = greedy_from(covers, next, (limit - 1) as nat);
                let g = gain(covers[best], covered) as int;
                assert(picks == seq![best] + rest);
                lemma_len_gain(covered, covers[best]);
                law_shortfall_shrinks(covers, next, (limit - 1) as nat, k, selection);
                lemma_covered_before_shift(covers, covered, best, rest, rest.len());
                assert(reached == covered_before(covers, next, rest, rest.len()));
                // The pick gains its fair share of what the rival covers beyond.
                law_fair_share(covers, covered, selection, selection.len());
                lemma_union_finite(covers, selection, selection.len());
                lemma_len_split(union_of(covers, selection, selection.len()), covered);
                let beyond = union_of(covers, selection, selection.len()).difference(
                    covered,
                ).len() as int;
                let n = selection.len() as int;
                assert(rival - covered.len() <= kk * g) by (nonlinear_arith)
                    requires
                        rival - covered.len() <= beyond,
                        n > 0 ==> beyond <= n * g,
                        n == 0 ==> beyond == 0,
                        0 <= n <= kk,
                        g >= 0,
                ;
                let after = excess(rival, next.len() as int);
                assert(kk * after <= (kk - 1) * start) by (nonlinear_arith)
                    requires
                        after == if rival > covered.len() + g {
                            rival - covered.len() - g
                        } else {
                            0
                        },
                        start == if rival > covered.len() {
                            rival - covered.len()
                        } else {
                            0
                        },
                        rival - covered.len() <= kk * g,
                        kk >= 1,
                        g >= 0,
                ;
                let short = rival - reached.len();
                let p1 = power(kk, (limit - 1) as nat);
                let q1 = power(kk - 1, (limit - 1) as nat);
                lemma_power_nonnegative(kk, (limit - 1) as nat);
                lemma_power_nonnegative(kk - 1, (limit - 1) as nat);
                assert(power(kk, limit) == kk * p1);
                assert(power(kk - 1, limit) == (kk - 1) * q1);
                assert((kk * p1) * short <= ((kk - 1) * q1) * start) by (nonlinear_arith)
                    requires
                        p1 * short <= q1 * after,
                        kk * after <= (kk - 1) * start,
                        kk >= 1,
                        q1 >= 0,
                ;
            },
        }
    }
}

/// A power of a number that is not negative is not negative.
proof fn lemma_power_nonnegative(b: int, e: nat)
    requires
        b >= 0,
    ensures
        power(b, e) >= 0,
    decreases e,
{
    if e > 0 {
        lemma_power_nonnegative(b, (e - 1) as nat);
        let rest = power(b, (e - 1) as nat);
        assert(b * rest >= 0) by (nonlinear_arith)
            requires
                b >= 0,
                rest >= 0,
        ;
    }
}

/// The greedy choice is never far from the best: with `limit` picks allowed,
/// it falls short of any selection of at most `limit` candidates by at most the
/// fraction `((limit - 1) / limit)^limit` of what that selection covers. This
/// fraction is below `1 / e`, so that the greedy choice covers more than
/// `1 - 1 / e` of what the best selection covers.
pub proof fn law_greedy_near_optimal<E>(covers: Seq<Set<E>>, limit: nat, selection: Seq<int>)
    requires
        all_finite(covers),
        is_selection(covers, selection),
        selection.len() <= limit,
        limit >= 1,
    ensures
        power(limit as int, limit) * (coverage(covers, selection) - greedy_coverage(covers, limit))
            <= power(limit - 1, limit) * coverage(covers, selection),
{
    law_shortfall_shrinks(covers, Set::empty(), limit, limit, selection);
}

} // verus!
