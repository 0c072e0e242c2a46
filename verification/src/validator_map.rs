//! Operations keyed by the validator that they are about: at most one per
//! validator, kept in the order in which the validators first appeared.

use vstd::prelude::*;
use crate::sequences::{accepted, accepted_upto, examined, first_accepted, first_accepted_upto};
use crate::types::{BeaconState, Validator};

verus! {

/// From position `start` on, the first position whose key is `key`; `-1` if
/// there is none.
pub open spec fn key_index_from<T>(entries: Seq<(u64, T)>, key: u64, start: int) -> int
    decreases entries.len() - start,
{
    if start < 0 || start >= entries.len() {
        -1
    } else if entries[start].0 == key {
        start
    } else {
        key_index_from(entries, key, start + 1)
    }
}

/// The first position whose key is `key`; `-1` if there is none.
pub open spec fn key_index<T>(entries: Seq<(u64, T)>, key: u64) -> int {
    key_index_from(entries, key, 0)
}

/// No key occurs twice.
pub open spec fn keys_distinct<T>(entries: Seq<(u64, T)>) -> bool {
    forall|i: int, j: int|
        0 <= i < j < entries.len() ==> (#[trigger] entries[i]).0 != (#[trigger] entries[j]).0
}

/// The entries after `value` was put under `key`: in the place of the entry that
/// `key` had, or else at the end.
pub open spec fn with_entry<T>(entries: Seq<(u64, T)>, key: u64, value: T) -> Seq<(u64, T)> {
    let i = key_index(entries, key);
    if i >= 0 {
        entries.update(i, (key, value))
    } else {
        entries.push((key, value))
    }
}

/// The values of the entries, in order.
pub open spec fn values_of<T>(entries: Seq<(u64, T)>) -> Seq<T> {
    Seq::new(entries.len(), |i: int| entries[i].1)
}

/// What `key_index_from` finds is the first entry of that key from `start` on.
pub proof fn lemma_key_index_from<T>(entries: Seq<(u64, T)>, key: u64, start: int)
    requires
        0 <= start <= entries.len(),
    ensures
        key_index_from(entries, key, start) == -1 || (start <= key_index_from(
            entries,
            key,
            start,
        ) < entries.len() && entries[key_index_from(entries, key, start)].0 == key),
        forall|j: int|
            start <= j < entries.len() && (key_index_from(entries, key, start) == -1 || j
                < key_index_from(entries, key, start)) ==> (#[trigger] entries[j]).0 != key,
    decreases entries.len() - start,
{
    if start < entries.len() && entries[start].0 != key {
        lemma_key_index_from(entries, key, start + 1);
    }
}

/// Putting a value under a key keeps the keys distinct, and the key then has
/// that value.
pub proof fn lemma_with_entry<T>(entries: Seq<(u64, T)>, key: u64, value: T)
    requires
        keys_distinct(entries),
    ensures
        keys_distinct(with_entry(entries, key, value)),
        key_index(with_entry(entries, key, value), key) >= 0,
        with_entry(entries, key, value)[key_index(with_entry(entries, key, value), key)].1
            == value,
        with_entry(entries, key, value).len() == entries.len() + if key_index(entries, key)
            >= 0 {
            0int
        } else {
            1int
        },
{
    let after = with_entry(entries, key, value);
    lemma_key_index_from(entries, key, 0);
    lemma_key_index_from(after, key, 0);
    let i = key_index(entries, key);
    if i >= 0 {
        assert(after[i].0 == key);
    } else {
        assert(after[entries.len() as int].0 == key);
    }
}

/// A map from validator index to an operation, in the order in which the
/// validators first appeared.
#[derive(Debug, PartialEq, Eq)]
pub struct ValidatorMap<T> {
    pub entries: Vec<(u64, T)>,
}

impl<T> View for ValidatorMap<T> {
    type V = Seq<(u64, T)>;

    open spec fn view(&self) -> Seq<(u64, T)> {
        self.entries@
    }
}

impl<T: Copy> Clone for ValidatorMap<T> {
    fn clone(&self) -> (r: Self)
        ensures
            r@ == self@,
    {
        let mut entries: Vec<(u64, T)> = Vec::new();
        let mut i: usize = 0;
        while i < self.entries.len()
            invariant
                i <= self@.len(),
                entries@ == self@.take(i as int),
            decreases self@.len() - i,
        {
            entries.push(self.entries[i]);
            assert(entries@ =~= self@.take(i + 1));
            i += 1;
        }
        assert(self@.take(self@.len() as int) =~= self@);
        ValidatorMap { entries }
    }
}

impl<T: Copy> ValidatorMap<T> {
    /// No validator has two entries.
    pub open spec fn well_formed(&self) -> bool {
        keys_distinct(self@)
    }

    /// The empty map.
    pub fn new() -> (r: Self)
        ensures
            r@ == Seq::<(u64, T)>::empty(),
            r.well_formed(),
    {
        ValidatorMap { entries: Vec::new() }
    }

    /// The number of entries.
    pub fn len(&self) -> (r: usize)
        ensures
            r == self@.len(),
    {
        self.entries.len()
    }

    /// The position of the entry of `key`, if it has one.
    pub fn position(&self, key: u64) -> (r: Option<usize>)
        ensures
            match r {
                Some(i) => i == key_index(self@, key) && i < self@.len() && self@[i as int].0 == key,
                None => key_index(self@, key) == -1,
            },
    {
        let mut i: usize = 0;
        while i < self.entries.len()
            invariant
                i <= self@.len(),
                key_index(self@, key) == key_index_from(self@, key, i as int),
            decreases self@.len() - i,
        {
            if self.entries[i].0 == key {
                return Some(i);
            }
            i += 1;
        }
        None
    }

    /// The operation of the validator `key`, if there is one.
    pub fn get(&self, key: u64) -> (r: Option<T>)
        ensures
            r == if key_index(self@, key) >= 0 {
                Some(self@[key_index(self@, key)].1)
            } else {
                None
            },
    {
        match self.position(key) {
            Some(i) => Some(self.entries[i].1),
            None => None,
        }
    }

    /// Puts `value` under `key` and returns what was there: a later insert for
    /// the same validator wins.
    pub fn insert(&mut self, key: u64, value: T) -> (r: Option<T>)
        requires
            old(self).well_formed(),
        ensures
            final(self)@ == with_entry(old(self)@, key, value),
            final(self).well_formed(),
            r == if key_index(old(self)@, key) >= 0 {
                Some(old(self)@[key_index(old(self)@, key)].1)
            } else {
                None
            },
    {
        proof {
            lemma_with_entry(self@, key, value);
        }
        match self.position(key) {
            Some(i) => {
                let previous = self.entries[i].1;
                self.entries[i] = (key, value);
                Some(previous)
            },
            None => {
                self.entries.push((key, value));
                None
            },
        }
    }

    /// Whether no validator has two entries.
    pub fn is_well_formed(&self) -> (r: bool)
        ensures
            r == self.well_formed(),
    {
        let mut i: usize = 0;
        while i < self.entries.len()
            invariant
                i <= self@.len(),
                forall|a: int, b: int|
                    0 <= a < b < i ==> (#[trigger] self@[a]).0 != (#[trigger] self@[b]).0,
            decreases self@.len() - i,
        {
            let mut j: usize = 0;
            while j < i
                invariant
                    j <= i,
                    i < self@.len(),
                    forall|a: int| 0 <= a < j ==> (#[trigger] self@[a]).0 != self@[i as int].0,
                decreases i - j,
            {
                if self.entries[j].0 == self.entries[i].0 {
                    assert(self@[j as int].0 == self@[i as int].0);
                    return false;
                }
                j += 1;
            }
            i += 1;
        }
        true
    }

    /// The operations, in the order of the map.
    pub fn values(&self) -> (r: Vec<T>)
        ensures
            r@ == values_of(self@),
    {
        let mut r: Vec<T> = Vec::new();
        let mut i: usize = 0;
        while i < self.entries.len()
            invariant
                i <= self@.len(),
                r@.len() == i,
                forall|j: int| 0 <= j < i ==> r@[j] == self@[j].1,
            decreases self@.len() - i,
        {
            r.push(self.entries[i].1);
            i += 1;
        }
        assert(r@ =~= values_of(self@));
        r
    }
}

/// Whether `verdicts` are answers that `filter` can give on the operations that
/// are looked at while the first `limit` accepted ones are gathered.
pub open spec fn answers_of<T, F: Fn(&T) -> bool>(
    filter: F,
    operations: Seq<T>,
    verdicts: Seq<bool>,
    limit: nat,
) -> bool {
    &&& verdicts.len() == operations.len()
    &&& forall|i: int|
        0 <= i < operations.len() && examined(operations, verdicts, limit, i as nat)
            ==> call_ensures(filter, (&operations[i],), #[trigger] verdicts[i])
}

/// The first `limit` operations that `filter` accepts, in order. The filter is
/// asked about an operation only while fewer than `limit` were accepted.
pub fn filter_limit_operations<T: Copy, F: Fn(&T) -> bool>(
    operations: &Vec<T>,
    filter: F,
    limit: usize,
) -> (r: Vec<T>)
    requires
        forall|i: int| 0 <= i < operations@.len() ==> call_requires(filter, (&operations@[i],)),
    ensures
        exists|verdicts: Seq<bool>|
            answers_of(filter, operations@, verdicts, limit as nat) && r@ == first_accepted(
                operations@,
                verdicts,
                limit as nat,
            ),
        r@.len() <= limit,
{
    let mut r: Vec<T> = Vec::new();
    let ghost mut verdicts: Seq<bool> = Seq::empty();
    let mut i: usize = 0;
    while i < operations.len() && r.len() < limit
        invariant
            i <= operations@.len(),
            verdicts.len() == i,
            r@ == first_accepted_upto(operations@, verdicts, limit as nat, i as nat),
            r@.len() <= limit,
            forall|j: int| 0 <= j < operations@.len() ==> call_requires(filter, (&operations@[j],)),
            forall|j: int|
                0 <= j < i ==> call_ensures(filter, (&operations@[j],), #[trigger] verdicts[j]),
        decreases operations@.len() - i,
    {
        let keep: bool = filter(&operations[i]);
        proof {
            let ghost before = verdicts;
            verdicts = verdicts.push(keep);
            crate::sequences::lemma_first_accepted_agree(
                operations@,
                before,
                verdicts,
                limit as nat,
                i as nat,
            );
        }
        if keep {
            r.push(operations[i]);
        }
        i += 1;
    }
    proof {
        let ghost seen = verdicts;
        let ghost n = i as nat;
        verdicts = Seq::new(
            operations@.len(),
            |j: int|
                if j < n {
                    seen[j]
                } else {
                    false
                },
        );
        let all = verdicts;
        crate::sequences::lemma_first_accepted_agree(operations@, seen, all, limit as nat, n);
        lemma_rest_rejected(operations@, all, limit as nat, n, operations@.len());
        assert forall|j: int|
            0 <= j < operations@.len() && examined(
                operations@,
                all,
                limit as nat,
                j as nat,
            ) implies call_ensures(filter, (&operations@[j],), #[trigger] all[j]) by {
            if j >= n {
                lemma_rest_rejected(operations@, all, limit as nat, n, j as nat);
                assert(n < operations@.len());
                assert(false);
            }
        }
        assert(answers_of(filter, operations@, all, limit as nat) && r@ == first_accepted(
            operations@,
            all,
            limit as nat,
        ));
    }
    r
}

/// Where every item from `n` on is rejected or the limit is reached at `n`,
/// looking at more items gathers nothing more.
proof fn lemma_rest_rejected<T>(items: Seq<T>, verdicts: Seq<bool>, limit: nat, n: nat, m: nat)
    requires
        n <= m <= items.len(),
        forall|j: int| n <= j < m ==> !verdicts[j],
    ensures
        first_accepted_upto(items, verdicts, limit, m) == first_accepted_upto(
            items,
            verdicts,
            limit,
            n,
        ),
    decreases m,
{
    if n < m {
        lemma_rest_rejected(items, verdicts, limit, n, (m - 1) as nat);
    }
}

/// Whether `verdicts` say which entries stay when those of the validators that
/// `prune_if` condemns leave: an entry of a validator that the state does not
/// know stays.
pub open spec fn pruning_of<T, F: Fn(&Validator) -> bool>(
    prune_if: F,
    entries: Seq<(u64, T)>,
    validators: Seq<Validator>,
    verdicts: Seq<bool>,
) -> bool {
    &&& verdicts.len() == entries.len()
    &&& forall|i: int|
        0 <= i < entries.len() ==> if entries[i].0 < validators.len() {
            call_ensures(prune_if, (&validators[entries[i].0 as int],), !#[trigger] verdicts[i])
        } else {
            verdicts[i]
        }
}

/// Removes the entries of the validators of which `prune_if` holds. The keys are
/// validator indices, looked up in the registry of the state; the entry of a
/// validator that the state does not know stays.
pub fn prune_validator_hash_map<T: Copy, F: Fn(&Validator) -> bool>(
    map: &mut ValidatorMap<T>,
    prune_if: F,
    finalized_state: &BeaconState,
)
    requires
        forall|i: int|
            0 <= i < finalized_state.validators@.len() ==> call_requires(
                prune_if,
                (&finalized_state.validators@[i],),
            ),
    ensures
        exists|verdicts: Seq<bool>|
            pruning_of(prune_if, old(map)@, finalized_state.validators@, verdicts)
                && final(map)@ == accepted(old(map)@, verdicts),
        old(map).well_formed() ==> final(map).well_formed(),
{
    let ghost before = map@;
    let ghost mut verdicts: Seq<bool> = Seq::empty();
    let mut kept: Vec<(u64, T)> = Vec::new();
    let n: usize = map.entries.len();
    let mut i: usize = 0;
    while i < n
        invariant
            i <= n,
            n == before.len(),
            map@ == before,
            verdicts.len() == i,
            kept@ == accepted_upto(before, verdicts, i as nat),
            forall|j: int|
                0 <= j < finalized_state.validators@.len() ==> call_requires(
                    prune_if,
                    (&finalized_state.validators@[j],),
                ),
            forall|j: int|
                0 <= j < i ==> if before[j].0 < finalized_state.validators@.len() {
                    call_ensures(
                        prune_if,
                        (&finalized_state.validators@[before[j].0 as int],),
                        !#[trigger] verdicts[j],
                    )
                } else {
                    verdicts[j]
                },
        decreases n - i,
    {
        let entry = map.entries[i];
        let registry_len: usize = finalized_state.validators.len();
        let keep: bool = if entry.0 < registry_len as u64 {
            !prune_if(&finalized_state.validators[entry.0 as usize])
        } else {
            true
        };
        proof {
            let ghost seen = verdicts;
            verdicts = verdicts.push(keep);
            crate::sequences::lemma_accepted_agree(before, seen, verdicts, i as nat);
        }
        if keep {
            kept.push(entry);
        }
        i += 1;
    }
    map.entries = kept;
    proof {
        assert(pruning_of(prune_if, before, finalized_state.validators@, verdicts) && map@
            == accepted(before, verdicts));
        if keys_distinct(before) {
            lemma_accepted_keys_distinct(before, verdicts, n as nat);
        }
    }
}

/// No entry has the key `key`.
pub open spec fn key_absent<T>(entries: Seq<(u64, T)>, key: u64) -> bool {
    forall|i: int| 0 <= i < entries.len() ==> (#[trigger] entries[i]).0 != key
}

/// A key that none of the first `n` entries has is the key of no accepted entry.
proof fn lemma_accepted_key_absent<T>(
    entries: Seq<(u64, T)>,
    verdicts: Seq<bool>,
    n: nat,
    key: u64,
)
    requires
        n <= entries.len(),
        forall|i: int| 0 <= i < n ==> (#[trigger] entries[i]).0 != key,
    ensures
        key_absent(accepted_upto(entries, verdicts, n), key),
    decreases n,
{
    if n > 0 {
        lemma_accepted_key_absent(entries, verdicts, (n - 1) as nat, key);
    }
}

/// The accepted entries of a map have distinct keys.
proof fn lemma_accepted_keys_distinct<T>(entries: Seq<(u64, T)>, verdicts: Seq<bool>, n: nat)
    requires
        keys_distinct(entries),
        n <= entries.len(),
    ensures
        keys_distinct(accepted_upto(entries, verdicts, n)),
    decreases n,
{
    if n > 0 {
        lemma_accepted_keys_distinct(entries, verdicts, (n - 1) as nat);
        lemma_accepted_key_absent(entries, verdicts, (n - 1) as nat, entries[n - 1].0);
    }
}

} // verus!
