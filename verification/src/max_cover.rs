//! Greedy maximum coverage.
//!
//! Given candidates that each cover a set of elements, pick at most `limit` of
//! them so that many elements are covered: repeatedly take the candidate that
//! covers the most elements not yet covered, the earliest one on a tie, and stop
//! when nothing new can be covered.

use vstd::prelude::*;
use vstd::set_lib::*;

verus! {

/// How many elements `cover` adds to what is `covered` already.
pub open spec fn gain<E>(cover: Set<E>, covered: Set<E>) -> nat {
    cover.difference(covered).len()
}

/// Among the first `n` candidates, the earliest one of the largest gain;
/// `-1` where `n` is zero.
pub open spec fn best_among<E>(covers: Seq<Set<E>>, covered: Set<E>, n: nat) -> int
    decreases n,
{
    if n == 0 {
        -1
    } else {
        let before = best_among(covers, covered, (n - 1) as nat);
        if before < 0 || gain(covers[n - 1], covered) > gain(covers[before], covered) {
            n - 1
        } else {
            before
        }
    }
}

/// The candidate that the greedy algorithm takes next, if any: the earliest one
/// of the largest gain, unless that gain is zero.
pub open spec fn next_pick<E>(covers: Seq<Set<E>>, covered: Set<E>) -> Option<int> {
    let best = best_among(covers, covered, covers.len());
    if best < 0 || gain(covers[best], covered) == 0 {
        None
    } else {
        Some(best)
    }
}

/// The indices of the candidates that the greedy algorithm takes, in the order
/// in which it takes them, starting from what is `covered` already.
pub open spec fn greedy_from<E>(covers: Seq<Set<E>>, covered: Set<E>, limit: nat) -> Seq<int>
    decreases limit,
{
    if limit == 0 {
        Seq::empty()
    } else {
        match next_pick(covers, covered) {
            None => Seq::empty(),
            Some(best) => seq![best] + greedy_from(
                covers,
                covered.union(covers[best]),
                (limit - 1) as nat,
            ),
        }
    }
}

/// The indices of the candidates that the greedy algorithm takes.
pub open spec fn greedy<E>(covers: Seq<Set<E>>, limit: nat) -> Seq<int> {
    greedy_from(covers, Set::empty(), limit)
}

/// What is covered before the `k`-th pick is made: what was covered at the
/// start and the covers of the picks before it.
pub open spec fn covered_before<E>(
    covers: Seq<Set<E>>,
    covered: Set<E>,
    picks: Seq<int>,
    k: nat,
) -> Set<E>
    decreases k,
{
    if k == 0 {
        covered
    } else {
        covered_before(covers, covered, picks, (k - 1) as nat).union(covers[picks[k - 1]])
    }
}

/// Every cover is a finite set.
pub open spec fn all_finite<E>(covers: Seq<Set<E>>) -> bool {
    forall|i: int| 0 <= i < covers.len() ==> (#[trigger] covers[i]).finite()
}

/// The best candidate is one of the candidates, none gains more, and none
/// before it gains as much.
pub proof fn lemma_best_among<E>(covers: Seq<Set<E>>, covered: Set<E>, n: nat)
    requires
        n <= covers.len(),
    ensures
        n == 0 ==> best_among(covers, covered, n) == -1,
        n > 0 ==> 0 <= best_among(covers, covered, n) < n,
        forall|i: int|
            0 <= i < n ==> gain(#[trigger] covers[i], covered) <= gain(
                covers[best_among(covers, covered, n)],
                covered,
            ),
        forall|i: int|
            0 <= i < best_among(covers, covered, n) ==> gain(#[trigger] covers[i], covered)
                < gain(covers[best_among(covers, covered, n)], covered),
    decreases n,
{
    if n > 0 {
        lemma_best_among(covers, covered, (n - 1) as nat);
    }
}

/// The more is covered already, the less a cover adds.
pub proof fn lemma_gain_antitone<E>(cover: Set<E>, less: Set<E>, more: Set<E>)
    requires
        cover.finite(),
        less.subset_of(more),
    ensures
        gain(cover, more) <= gain(cover, less),
{
    lemma_len_subset(cover.difference(more), cover.difference(less));
}

/// What is covered only grows from pick to pick.
pub proof fn lemma_covered_before_grows<E>(
    covers: Seq<Set<E>>,
    covered: Set<E>,
    picks: Seq<int>,
    i: nat,
    j: nat,
)
    requires
        i <= j,
    ensures
        covered_before(covers, covered, picks, i).subset_of(
            covered_before(covers, covered, picks, j),
        ),
    decreases j,
{
    if i < j {
        lemma_covered_before_grows(covers, covered, picks, i, (j - 1) as nat);
    }
}

/// What is covered before a pick of the rest of a run is what is covered before
/// the same pick of the whole run.
pub proof fn lemma_covered_before_shift<E>(
    covers: Seq<Set<E>>,
    covered: Set<E>,
    first: int,
    rest: Seq<int>,
    k: nat,
)
    requires
        k <= rest.len(),
    ensures
        covered_before(covers, covered.union(covers[first]), rest, k) == covered_before(
            covers,
            covered,
            seq![first] + rest,
            k + 1,
        ),
    decreases k,
{
    let whole = seq![first] + rest;
    if k == 0 {
        assert(covered_before(covers, covered, whole, 1) == covered_before(
            covers,
            covered,
            whole,
            0,
        ).union(covers[whole[0]]));
    } else {
        lemma_covered_before_shift(covers, covered, first, rest, (k - 1) as nat);
        assert(whole[k as int] == rest[k - 1]);
    }
}

/// The greedy algorithm takes at most `limit` candidates, each of them one of
/// the candidates, and each adds something to what the picks before it cover.
pub proof fn law_greedy_picks<E>(covers: Seq<Set<E>>, covered: Set<E>, limit: nat)
    ensures
        greedy_from(covers, covered, limit).len() <= limit,
        forall|k: int|
            0 <= k < greedy_from(covers, covered, limit).len() ==> 0 <= (
            #[trigger] greedy_from(covers, covered, limit)[k]) < covers.len(),
        forall|k: nat|
            k < greedy_from(covers, covered, limit).len() ==> gain(
                covers[greedy_from(covers, covered, limit)[k as int]],
                #[trigger] covered_before(
                    covers,
                    covered,
                    greedy_from(covers, covered, limit),
                    k,
                ),
            ) > 0,
    decreases limit,
{
    let picks = greedy_from(covers, covered, limit);
    lemma_best_among(covers, covered, covers.len());
    if limit > 0 {
        match next_pick(covers, covered) {
            None => {},
            Some(best) => {
                let next = covered.union(covers[best]);
                let rest = greedy_from(covers, next, (limit - 1) as nat);
                law_greedy_picks(covers, next, (limit - 1) as nat);
                assert(picks == seq![best] + rest);
                assert forall|k: nat| k < picks.len() implies gain(
                    covers[picks[k as int]],
                    #[trigger] covered_before(covers, covered, picks, k),
                ) > 0 by {
                    if k > 0 {
                        lemma_covered_before_shift(covers, covered, best, rest, (k - 1) as nat);
                        assert(picks[k as int] == rest[k - 1]);
                    }
                }
            },
        }
    }
}

/// The candidates that can still add something.
pub open spec fn useful<E>(covers: Seq<Set<E>>, covered: Set<E>) -> Set<int> {
    Set::new(|i: int| 0 <= i < covers.len() && gain(covers[i], covered) > 0)
}

/// The greedy algorithm takes no more candidates than can add something, so no
/// more than there are.
pub proof fn law_greedy_at_most_useful<E>(covers: Seq<Set<E>>, covered: Set<E>, limit: nat)
    requires
        all_finite(covers),
    ensures
        useful(covers, covered).finite(),
        greedy_from(covers, covered, limit).len() <= useful(covers, covered).len(),
        useful(covers, covered).len() <= covers.len(),
    decreases limit,
{
    let all = Set::new(|i: int| 0 <= i < covers.len());
    lemma_int_range(0, covers.len() as int);
    assert(all =~= set_int_range(0, covers.len() as int));
    assert(useful(covers, covered).subset_of(all));
    lemma_len_subset(useful(covers, covered), all);
    lemma_best_among(covers, covered, covers.len());
    if limit > 0 {
        match next_pick(covers, covered) {
            None => {},
            Some(best) => {
                let next = covered.union(covers[best]);
                law_greedy_at_most_useful(covers, next, (limit - 1) as nat);
                assert(covers[best].difference(next) =~= Set::empty());
                assert(gain(covers[best], next) == 0);
                assert forall|i: int| useful(covers, next).contains(i) implies useful(
                    covers,
                    covered,
                ).remove(best).contains(i) by {
                    lemma_gain_antitone(covers[i], covered, next);
                }
                assert(useful(covers, next).subset_of(useful(covers, covered).remove(best)));
                lemma_len_subset(useful(covers, next), useful(covers, covered).remove(best));
                assert(useful(covers, covered).contains(best));
            },
        }
    }
}

/// The gains of the picks never grow: an earlier pick added, when it was made,
/// at least as much as a later pick added when that one was made.
pub proof fn law_gains_never_grow<E>(
    covers: Seq<Set<E>>,
    covered: Set<E>,
    limit: nat,
    i: nat,
    j: nat,
)
    requires
        all_finite(covers),
        i <= j < greedy_from(covers, covered, limit).len(),
    ensures
        gain(
            covers[greedy_from(covers, covered, limit)[i as int]],
            covered_before(covers, covered, greedy_from(covers, covered, limit), i),
        ) >= gain(
            covers[greedy_from(covers, covered, limit)[j as int]],
            covered_before(covers, covered, greedy_from(covers, covered, limit), j),
        ),
    decreases limit,
{
    let picks = greedy_from(covers, covered, limit);
    lemma_best_among(covers, covered, covers.len());
    law_greedy_picks(covers, covered, limit);
    match next_pick(covers, covered) {
        None => {},
        Some(best) => {
            let next = covered.union(covers[best]);
            let rest = greedy_from(covers, next, (limit - 1) as nat);
            assert(picks == seq![best] + rest);
            if i == 0 {
                lemma_covered_before_grows(covers, covered, picks, 0, j);
                lemma_gain_antitone(
                    covers[picks[j as int]],
                    covered,
                    covered_before(covers, covered, picks, j),
                );
            } else {
                law_gains_never_grow(covers, next, (limit - 1) as nat, (i - 1) as nat, (j - 1) as nat);
                lemma_covered_before_shift(covers, covered, best, rest, (i - 1) as nat);
                lemma_covered_before_shift(covers, covered, best, rest, (j - 1) as nat);
                assert(picks[i as int] == rest[i - 1]);
                assert(picks[j as int] == rest[j - 1]);
            }
        },
    }
}

/// An item that covers a set of elements and yields an object when it is chosen.
pub trait MaxCover: Sized {
    /// What a chosen item yields.
    type Object: View;

    /// A set of elements, as the item hands it out.
    type Set;

    /// What is covered.
    type Element;

    /// The elements of a set that an item handed out.
    spec fn set_elements(set: &Self::Set) -> Set<Self::Element>;

    /// The elements that the item would still cover.
    spec fn spec_covering_set(&self) -> Set<Self::Element>;

    /// The value of the object that the item yields.
    spec fn spec_object(&self) -> <Self::Object as View>::V;

    /// An item covers finitely many elements.
    proof fn lemma_covering_set_finite(&self)
        ensures
            self.spec_covering_set().finite(),
    ;

    /// The object that the item yields.
    fn object(&self) -> (o: Self::Object)
        ensures
            o@ == self.spec_object(),
    ;

    /// The elements that the item would still cover.
    fn covering_set(&self) -> (s: Self::Set)
        ensures
            Self::set_elements(&s) == self.spec_covering_set(),
    ;

    /// Takes the elements of `max_set` out of what the item would still cover.
    fn update_covering_set(&mut self, max_set: &Self::Set)
        ensures
            final(self).spec_covering_set() == old(self).spec_covering_set().difference(
                Self::set_elements(max_set),
            ),
            final(self).spec_object() == old(self).spec_object(),
    ;

    /// The number of elements that the item would still cover.
    fn score(&self) -> (n: usize)
        ensures
            n == self.spec_covering_set().len(),
    ;
}

/// The covering sets of a sequence of items.
pub open spec fn covers_of<T: MaxCover>(items: Seq<T>) -> Seq<Set<T::Element>> {
    Seq::new(items.len(), |i: int| items[i].spec_covering_set())
}

/// The objects that the picks yield, in the order of the picks.
pub open spec fn objects_of<T: MaxCover>(items: Seq<T>, picks: Seq<int>) -> Seq<
    <T::Object as View>::V,
> {
    Seq::new(picks.len(), |k: int| items[picks[k]].spec_object())
}

/// The values of a sequence of objects.
pub open spec fn object_views<O: View>(objects: Seq<O>) -> Seq<O::V> {
    Seq::new(objects.len(), |k: int| objects[k]@)
}

/// The index of the earliest item of the largest score, and that score; `None`
/// where there is no item.
fn best_item<T: MaxCover>(items: &Vec<T>, Ghost(covers): Ghost<Seq<Set<T::Element>>>, Ghost(
    covered,
): Ghost<Set<T::Element>>) -> (r: Option<(usize, usize)>)
    requires
        covers.len() == items@.len(),
        forall|i: int|
            0 <= i < items@.len() ==> (#[trigger] items@[i]).spec_covering_set()
                == covers[i].difference(covered),
    ensures
        match r {
            None => best_among(covers, covered, covers.len()) < 0,
            Some((index, score)) => index == best_among(covers, covered, covers.len())
                && score == gain(covers[index as int], covered),
        },
{
    let mut best: Option<(usize, usize)> = None;
    let mut i: usize = 0;
    while i < items.len()
        invariant
            i <= items@.len(),
            covers.len() == items@.len(),
            forall|i: int|
                0 <= i < items@.len() ==> (#[trigger] items@[i]).spec_covering_set()
                    == covers[i].difference(covered),
            match best {
                None => best_among(covers, covered, i as nat) < 0,
                Some((index, score)) => index == best_among(covers, covered, i as nat)
                    && score == gain(covers[index as int], covered),
            },
        decreases items@.len() - i,
    {
        let score: usize = items[i].score();
        assert(items@[i as int].spec_covering_set() == covers[i as int].difference(covered));
        proof {
            lemma_best_among(covers, covered, i as nat);
        }
        best = match best {
            None => Some((i, score)),
            Some((index, best_score)) => if score > best_score {
                Some((i, score))
            } else {
                Some((index, best_score))
            },
        };
        i += 1;
    }
    best
}

/// Chooses at most `limit` of the items by the greedy algorithm and returns the
/// objects that they yield, in the order in which they were chosen.
pub fn maximum_cover<T: MaxCover>(items: Vec<T>, limit: usize) -> (result: Vec<T::Object>)
    ensures
        object_views(result@) == objects_of(items@, greedy(covers_of(items@), limit as nat)),
        result@.len() <= limit,
{
    let mut items = items;
    let ghost items0 = items@;
    let ghost covers = covers_of(items0);
    let ghost mut covered: Set<T::Element> = Set::empty();
    let ghost mut picked: Seq<int> = Seq::empty();
    let mut result: Vec<T::Object> = Vec::new();
    let n: usize = items.len();
    let mut round: usize = 0;
    let mut exhausted: bool = false;
    proof {
        assert forall|i: int| 0 <= i < n implies (#[trigger] items@[i]).spec_covering_set()
            == covers[i].difference(covered) by {
            assert(covers[i].difference(covered) =~= covers[i]);
        }
        assert(greedy(covers, limit as nat) =~= picked + greedy_from(
            covers,
            covered,
            limit as nat,
        ));
    }
    while round < limit && !exhausted
        invariant
            round <= limit,
            items@.len() == n,
            items0.len() == n,
            exhausted ==> greedy(covers, limit as nat) == picked,
            covers == covers_of(items0),
            forall|i: int|
                0 <= i < n ==> (#[trigger] items@[i]).spec_covering_set() == covers[i].difference(
                    covered,
                ),
            forall|i: int| 0 <= i < n ==> (#[trigger] items@[i]).spec_object() == items0[i].spec_object(),
            greedy(covers, limit as nat) == picked + greedy_from(
                covers,
                covered,
                (limit - round) as nat,
            ),
            picked.len() == round,
            result@.len() == round,
            forall|k: int| 0 <= k < round ==> 0 <= #[trigger] picked[k] < n,
            forall|k: int|
                0 <= k < round ==> (#[trigger] result@[k])@ == items0[picked[k]].spec_object(),
        decreases
                (limit - round) + if exhausted {
                    0int
                } else {
                    1int
                },
    {
        let found = best_item(&items, Ghost(covers), Ghost(covered));
        proof {
            lemma_best_among(covers, covered, covers.len());
        }
        let chosen: Option<usize> = match found {
            None => None,
            Some((index, score)) => if score == 0 {
                None
            } else {
                Some(index)
            },
        };
        match chosen {
            None => {
                assert(greedy(covers, limit as nat) =~= picked);
                exhausted = true;
            },
            Some(chosen) => {
                let object = items[chosen].object();
        let max_set = items[chosen].covering_set();
        let ghost next = covered.union(covers[chosen as int]);
        let mut j: usize = 0;
        while j < n
            invariant
                j <= n,
                items@.len() == n,
                covers.len() == n,
                items0.len() == n,
                chosen < n,
                T::set_elements(&max_set) == covers[chosen as int].difference(covered),
                forall|i: int|
                    0 <= i < j ==> (#[trigger] items@[i]).spec_covering_set()
                        == covers[i].difference(next),
                forall|i: int|
                    j <= i < n ==> (#[trigger] items@[i]).spec_covering_set()
                        == covers[i].difference(covered),
                forall|i: int|
                    0 <= i < n ==> (#[trigger] items@[i]).spec_object() == items0[i].spec_object(),
                next == covered.union(covers[chosen as int]),
            decreases n - j,
        {
            items[j].update_covering_set(&max_set);
            assert(covers[j as int].difference(covered).difference(
                covers[chosen as int].difference(covered),
            ) =~= covers[j as int].difference(next));
            j += 1;
        }
        result.push(object);
        proof {
            assert(greedy_from(covers, covered, (limit - round) as nat) == seq![chosen as int]
                + greedy_from(covers, next, (limit - round - 1) as nat));
            assert(picked + (seq![chosen as int] + greedy_from(
                covers,
                next,
                (limit - round - 1) as nat,
            )) =~= picked.push(chosen as int) + greedy_from(
                covers,
                next,
                (limit - round - 1) as nat,
            ));
            picked = picked.push(chosen as int);
            covered = next;
        }
        round += 1;
            },
        }
    }
    proof {
        assert(greedy(covers, limit as nat) =~= picked);
        assert(object_views(result@) =~= objects_of(items0, picked));
    }
    result
}

} // verus!
