//! Sequences filtered by a predicate or by a run of verdicts, as the pool's
//! selections and prunings are stated.

use vstd::prelude::*;

verus! {

/// Of the first `n` items, those whose verdict is `true`, in order.
pub open spec fn accepted_upto<T>(items: Seq<T>, verdicts: Seq<bool>, n: nat) -> Seq<T>
    decreases n,
{
    if n == 0 {
        Seq::empty()
    } else {
        let before = accepted_upto(items, verdicts, (n - 1) as nat);
        if verdicts[n - 1] {
            before.push(items[n - 1])
        } else {
            before
        }
    }
}

/// The items whose verdict is `true`, in order.
pub open spec fn accepted<T>(items: Seq<T>, verdicts: Seq<bool>) -> Seq<T> {
    accepted_upto(items, verdicts, items.len())
}

/// Of the first `n` items, the first `limit` whose verdict is `true`, in order.
pub open spec fn first_accepted_upto<T>(
    items: Seq<T>,
    verdicts: Seq<bool>,
    limit: nat,
    n: nat,
) -> Seq<T>
    decreases n,
{
    if n == 0 {
        Seq::empty()
    } else {
        let before = first_accepted_upto(items, verdicts, limit, (n - 1) as nat);
        if verdicts[n - 1] && before.len() < limit {
            before.push(items[n - 1])
        } else {
            before
        }
    }
}

/// The first `limit` items whose verdict is `true`, in order.
pub open spec fn first_accepted<T>(items: Seq<T>, verdicts: Seq<bool>, limit: nat) -> Seq<T> {
    first_accepted_upto(items, verdicts, limit, items.len())
}

/// Whether the item at position `i` is looked at when the first `limit`
/// accepted items are gathered: only while fewer than `limit` were found.
pub open spec fn examined<T>(items: Seq<T>, verdicts: Seq<bool>, limit: nat, i: nat) -> bool {
    first_accepted_upto(items, verdicts, limit, i).len() < limit
}

/// The verdicts of a predicate on the items.
pub open spec fn verdicts_of<T>(items: Seq<T>, pred: spec_fn(T) -> bool) -> Seq<bool> {
    Seq::new(items.len(), |i: int| pred(items[i]))
}

/// The items that a predicate holds of, in order.
pub open spec fn retained<T>(items: Seq<T>, pred: spec_fn(T) -> bool) -> Seq<T> {
    accepted(items, verdicts_of(items, pred))
}

/// Which items are accepted depends only on the verdicts of the items that are
/// looked at.
pub proof fn lemma_accepted_agree<T>(items: Seq<T>, v: Seq<bool>, w: Seq<bool>, n: nat)
    requires
        forall|i: int| 0 <= i < n ==> v[i] == w[i],
    ensures
        accepted_upto(items, v, n) == accepted_upto(items, w, n),
    decreases n,
{
    if n > 0 {
        lemma_accepted_agree(items, v, w, (n - 1) as nat);
    }
}

/// No more than `limit` items are gathered, and no more than were looked at.
pub proof fn lemma_first_accepted_len<T>(items: Seq<T>, verdicts: Seq<bool>, limit: nat, n: nat)
    ensures
        first_accepted_upto(items, verdicts, limit, n).len() <= limit,
        first_accepted_upto(items, verdicts, limit, n).len() <= n,
    decreases n,
{
    if n > 0 {
        lemma_first_accepted_len(items, verdicts, limit, (n - 1) as nat);
    }
}

/// Gathering depends only on the verdicts of the items that are looked at.
pub proof fn lemma_first_accepted_agree<T>(
    items: Seq<T>,
    v: Seq<bool>,
    w: Seq<bool>,
    limit: nat,
    n: nat,
)
    requires
        forall|i: nat| i < n && examined(items, v, limit, i) ==> v[i as int] == w[i as int],
    ensures
        first_accepted_upto(items, v, limit, n) == first_accepted_upto(items, w, limit, n),
    decreases n,
{
    if n > 0 {
        lemma_first_accepted_agree(items, v, w, limit, (n - 1) as nat);
        lemma_first_accepted_len(items, v, limit, (n - 1) as nat);
        if examined(items, v, limit, (n - 1) as nat) {
            assert(v[n - 1] == w[n - 1]);
        }
    }
}

} // verus!
