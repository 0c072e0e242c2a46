//! The cache of a list whose items have caches of their own: one cache for the
//! list and one for each item. It is written as a record of two byte strings:
//! the bytes of the cache of the list, and the list of the bytes of the caches
//! of the items.

use vstd::prelude::*;
use crate::cached_tree_hash::{
    cache_bytes, cache_fits, law_cache_round_trip, spec_cache_from_bytes, Error, TreeHashCache,
    TreeHashCacheView,
};
use crate::ssz::SszBytes;
use crate::ssz_container::{
    byte_views, decode_fields, decode_list, encode_fields, fields_fit, law_fields_round_trip,
    law_list_round_trip, marked_fields, read_fields, read_list, write_fields,
};

verus! {

/// The cache of a list and the caches of its items.
#[derive(Debug, PartialEq, Eq, Default)]
pub struct MultiTreeHashCache {
    pub list_cache: TreeHashCache,
    pub value_caches: Vec<TreeHashCache>,
}

/// The value of a [`MultiTreeHashCache`].
pub struct MultiTreeHashCacheView {
    pub list_cache: TreeHashCacheView,
    pub value_caches: Seq<TreeHashCacheView>,
}

impl View for MultiTreeHashCache {
    type V = MultiTreeHashCacheView;

    open spec fn view(&self) -> MultiTreeHashCacheView {
        MultiTreeHashCacheView {
            list_cache: self.list_cache@,
            value_caches: Seq::new(self.value_caches@.len(), |i: int| self.value_caches@[i]@),
        }
    }
}

/// The bytes of each cache.
pub open spec fn caches_bytes(caches: Seq<TreeHashCacheView>) -> Seq<Seq<u8>> {
    Seq::new(caches.len(), |i: int| cache_bytes(caches[i]))
}

/// The two byte strings of the record of a cache.
pub open spec fn multi_fields(cache: MultiTreeHashCacheView) -> Seq<Seq<u8>> {
    seq![cache_bytes(cache.list_cache), encode_fields(0, caches_bytes(cache.value_caches))]
}

/// The bytes of a cache.
pub open spec fn multi_cache_bytes(cache: MultiTreeHashCacheView) -> Seq<u8> {
    encode_fields(0, multi_fields(cache))
}

/// Whether the cache can be written: every offset fits in four bytes.
pub open spec fn multi_cache_fits(cache: MultiTreeHashCacheView) -> bool {
    &&& cache_fits(cache.list_cache)
    &&& forall|i: int| 0 <= i < cache.value_caches.len() ==> cache_fits(#[trigger] cache.value_caches[i])
    &&& fields_fit(0, caches_bytes(cache.value_caches))
    &&& fields_fit(0, multi_fields(cache))
}

/// The caches that the first `n` byte strings stand for, or why the first of
/// them that stands for none does so.
pub open spec fn caches_from(items: Seq<Seq<u8>>, n: int) -> Result<Seq<TreeHashCacheView>, Error>
    decreases n,
{
    if n <= 0 {
        Ok(Seq::empty())
    } else {
        match caches_from(items, n - 1) {
            Err(e) => Err(e),
            Ok(before) => match spec_cache_from_bytes(items[n - 1]) {
                Err(e) => Err(e),
                Ok(cache) => Ok(before.push(cache)),
            },
        }
    }
}

/// The cache that the bytes stand for, or why they stand for none: the record
/// or the list in it is not in order, or the bytes of the cache of the list or
/// of the cache of an item, in this order, stand for no cache.
pub open spec fn spec_multi_cache_from_bytes(s: Seq<u8>) -> Result<MultiTreeHashCacheView, Error> {
    match decode_fields(s, 0, 2) {
        Err(e) => Err(Error::BytesInvalid(e)),
        Ok(fields) => match decode_list(fields[1]) {
            Err(e) => Err(Error::BytesInvalid(e)),
            Ok(items) => match spec_cache_from_bytes(fields[0]) {
                Err(e) => Err(e),
                Ok(list_cache) => match caches_from(items, items.len() as int) {
                    Err(e) => Err(e),
                    Ok(value_caches) => Ok(MultiTreeHashCacheView { list_cache, value_caches }),
                },
            },
        },
    }
}

/// The bytes of caches are read back as those caches.
proof fn lemma_caches_round_trip(caches: Seq<TreeHashCacheView>, n: int)
    requires
        0 <= n <= caches.len(),
        forall|i: int| 0 <= i < caches.len() ==> cache_fits(#[trigger] caches[i]),
    ensures
        caches_from(caches_bytes(caches), n) == Ok::<Seq<TreeHashCacheView>, Error>(
            caches.take(n),
        ),
    decreases n,
{
    if n > 0 {
        lemma_caches_round_trip(caches, n - 1);
        law_cache_round_trip(caches[n - 1]);
        assert(caches.take(n) =~= caches.take(n - 1).push(caches[n - 1]));
    } else {
        assert(caches.take(0) =~= Seq::<TreeHashCacheView>::empty());
    }
}

/// The bytes of a cache are read back as that cache.
pub proof fn law_multi_cache_round_trip(cache: MultiTreeHashCacheView)
    requires
        multi_cache_fits(cache),
    ensures
        spec_multi_cache_from_bytes(multi_cache_bytes(cache)) == Ok::<
            MultiTreeHashCacheView,
            Error,
        >(cache),
{
    let nothing = Seq::<u8>::empty();
    let s = multi_cache_bytes(cache);
    assert(nothing + s =~= s);
    law_fields_round_trip(nothing, multi_fields(cache));
    law_list_round_trip(caches_bytes(cache.value_caches));
    law_cache_round_trip(cache.list_cache);
    lemma_caches_round_trip(cache.value_caches, cache.value_caches.len() as int);
    assert(cache.value_caches.take(cache.value_caches.len() as int) =~= cache.value_caches);
}

/// Once the bytes of an item stand for no cache, that is the result.
proof fn lemma_caches_error_stays(items: Seq<Seq<u8>>, n: int, m: int)
    requires
        0 <= n <= m,
        caches_from(items, n) is Err,
    ensures
        caches_from(items, m) == caches_from(items, n),
    decreases m,
{
    if n < m {
        lemma_caches_error_stays(items, n, m - 1);
    }
}

/// The two byte strings of the record of a cache.
struct SszContainer {
    list_cache: SszBytes,
    value_caches: Vec<SszBytes>,
}

impl SszContainer {
    /// The byte strings of the caches of the items.
    spec fn value_bytes(&self) -> Seq<Seq<u8>> {
        Seq::new(self.value_caches@.len(), |i: int| self.value_caches@[i]@)
    }

    /// The byte strings of a cache.
    fn from_multi_cache(cache: &MultiTreeHashCache) -> (r: SszContainer)
        requires
            multi_cache_fits(cache@),
        ensures
            r.list_cache@ == cache_bytes(cache@.list_cache),
            r.value_bytes() == caches_bytes(cache@.value_caches),
    {
        let mut value_caches: Vec<SszBytes> = Vec::new();
        let mut i: usize = 0;
        while i < cache.value_caches.len()
            invariant
                i <= cache.value_caches@.len(),
                multi_cache_fits(cache@),
                value_caches@.len() == i,
                forall|j: int|
                    0 <= j < i ==> (#[trigger] value_caches@[j])@ == cache_bytes(
                        cache.value_caches@[j]@,
                    ),
            decreases cache.value_caches@.len() - i,
        {
            assert(cache@.value_caches[i as int] == cache.value_caches@[i as int]@);
            value_caches.push(SszBytes(cache.value_caches[i].as_bytes()));
            i += 1;
        }
        let r = SszContainer { list_cache: SszBytes(cache.list_cache.as_bytes()), value_caches };
        assert(r.value_bytes() =~= caches_bytes(cache@.value_caches));
        r
    }

    /// The cache that the byte strings stand for.
    fn into_multi_cache(self) -> (r: Result<MultiTreeHashCache, Error>)
        ensures
            match r {
                Ok(cache) => spec_cache_from_bytes(self.list_cache@) == Ok::<
                    TreeHashCacheView,
                    Error,
                >(cache@.list_cache) && caches_from(
                    self.value_bytes(),
                    self.value_bytes().len() as int,
                ) == Ok::<Seq<TreeHashCacheView>, Error>(cache@.value_caches),
                Err(e) => match spec_cache_from_bytes(self.list_cache@) {
                    Err(first) => e == first,
                    Ok(_) => caches_from(self.value_bytes(), self.value_bytes().len() as int)
                        == Err::<Seq<TreeHashCacheView>, Error>(e),
                },
            },
    {
        let list_cache = TreeHashCache::from_bytes(self.list_cache.0.as_slice())?;
        let ghost items = self.value_bytes();
        let mut value_caches: Vec<TreeHashCache> = Vec::new();
        let mut i: usize = 0;
        assert(Seq::new(0, |j: int| value_caches@[j]@) =~= Seq::<TreeHashCacheView>::empty());
        while i < self.value_caches.len()
            invariant
                i <= self.value_caches@.len(),
                items == self.value_bytes(),
                value_caches@.len() == i,
                spec_cache_from_bytes(self.list_cache@) is Ok,
                caches_from(items, i as int) == Ok::<Seq<TreeHashCacheView>, Error>(
                    Seq::new(i as nat, |j: int| value_caches@[j]@),
                ),
            decreases self.value_caches@.len() - i,
        {
            assert(items[i as int] == self.value_caches@[i as int]@);
            match TreeHashCache::from_bytes(self.value_caches[i].0.as_slice()) {
                Ok(cache) => {
                    let ghost before = Seq::new(i as nat, |j: int| value_caches@[j]@);
                    value_caches.push(cache);
                    assert(Seq::new((i + 1) as nat, |j: int| value_caches@[j]@) =~= before.push(
                        cache@,
                    ));
                },
                Err(e) => {
                    proof {
                        lemma_caches_error_stays(items, i + 1, items.len() as int);
                    }
                    return Err(e);
                },
            }
            i += 1;
        }
        let cache = MultiTreeHashCache { list_cache, value_caches };
        assert(cache@.value_caches =~= Seq::new(
            self.value_caches@.len(),
            |j: int| cache.value_caches@[j]@,
        ));
        Ok(cache)
    }
}

impl MultiTreeHashCache {
    /// The cache of a list of which no item has a cache yet.
    pub fn new(list_cache: TreeHashCache) -> (r: Self)
        ensures
            r@.list_cache == list_cache@,
            r@.value_caches.len() == 0,
    {
        MultiTreeHashCache { list_cache, value_caches: Vec::new() }
    }

    /// Makes the caches of the items as many as the list has items, each new
    /// one a copy of `fresh`. A list never loses items: where it has fewer
    /// than there are caches, nothing is changed and that is the error.
    pub fn resize(&mut self, len: usize, fresh: &TreeHashCache) -> (r: Result<(), Error>)
        ensures
            final(self)@.list_cache == old(self)@.list_cache,
            len < old(self)@.value_caches.len() ==> r == Err::<(), Error>(Error::CannotShrink)
                && final(self)@ == old(self)@,
            len >= old(self)@.value_caches.len() ==> r is Ok && final(self)@.value_caches
                == old(self)@.value_caches + Seq::new(
                (len - old(self)@.value_caches.len()) as nat,
                |i: int| fresh@,
            ),
    {
        if len < self.value_caches.len() {
            return Err(Error::CannotShrink);
        }
        let ghost before = self@.value_caches;
        let mut n: usize = self.value_caches.len();
        assert(self@.value_caches =~= before + Seq::new(0, |i: int| fresh@));
        while n < len
            invariant
                n <= len,
                n == self.value_caches@.len(),
                before.len() <= n,
                self@.list_cache == old(self)@.list_cache,
                self@.value_caches == before + Seq::new(
                    (n - before.len()) as nat,
                    |i: int| fresh@,
                ),
            decreases len - n,
        {
            let ghost prior = self@.value_caches;
            self.value_caches.push(fresh.clone());
            n += 1;
            assert(self@.value_caches =~= prior.push(fresh@));
            assert(self@.value_caches =~= before + Seq::new(
                (n - before.len()) as nat,
                |i: int| fresh@,
            ));
        }
        Ok(())
    }

    /// Whether the cache can be written: every offset fits in four bytes.
    pub open spec fn encodable(&self) -> bool {
        multi_cache_fits(self@)
    }

    /// The cache that the bytes stand for.
    pub fn from_bytes(bytes: &[u8]) -> (r: Result<MultiTreeHashCache, Error>)
        ensures
            match r {
                Ok(cache) => spec_multi_cache_from_bytes(bytes@) == Ok::<
                    MultiTreeHashCacheView,
                    Error,
                >(cache@),
                Err(e) => spec_multi_cache_from_bytes(bytes@) == Err::<
                    MultiTreeHashCacheView,
                    Error,
                >(e),
            },
    {
        let mut fields = match read_fields(bytes, 0, 2) {
            Ok(fields) => fields,
            Err(e) => {
                return Err(Error::BytesInvalid(e));
            },
        };
        assert(marked_fields(bytes@, 0, 2).len() == 2);
        assert(byte_views(fields@).len() == 2);
        assert(byte_views(fields@)[0] == fields@[0]@);
        assert(byte_views(fields@)[1] == fields@[1]@);
        let items = match read_list(fields[1].as_slice()) {
            Ok(items) => items,
            Err(e) => {
                return Err(Error::BytesInvalid(e));
            },
        };
        let ghost raw = byte_views(items@);
        let mut value_caches: Vec<SszBytes> = Vec::new();
        let mut items = items;
        let mut i: usize = 0;
        let n: usize = items.len();
        while i < n
            invariant
                i <= n,
                n == raw.len(),
                items@.len() == n,
                value_caches@.len() == i,
                forall|j: int| 0 <= j < i ==> (#[trigger] value_caches@[j])@ == raw[j],
                forall|j: int| i <= j < n ==> (#[trigger] items@[j])@ == raw[j],
            decreases n - i,
        {
            let mut item: Vec<u8> = Vec::new();
            core::mem::swap(&mut item, &mut items[i]);
            value_caches.push(SszBytes(item));
            i += 1;
        }
        let mut list_cache: Vec<u8> = Vec::new();
        core::mem::swap(&mut list_cache, &mut fields[0]);
        let container = SszContainer { list_cache: SszBytes(list_cache), value_caches };
        assert(container.value_bytes() =~= raw);
        container.into_multi_cache()
    }

    /// The bytes of the cache.
    pub fn as_bytes(&self) -> (r: Vec<u8>)
        requires
            self.encodable(),
        ensures
            r@ == multi_cache_bytes(self@),
            spec_multi_cache_from_bytes(r@) == Ok::<MultiTreeHashCacheView, Error>(self@),
    {
        proof {
            law_multi_cache_round_trip(self@);
        }
        let container = SszContainer::from_multi_cache(self);
        let mut values: Vec<Vec<u8>> = Vec::new();
        let mut i: usize = 0;
        while i < container.value_caches.len()
            invariant
                i <= container.value_caches@.len(),
                values@.len() == i,
                forall|j: int| 0 <= j < i ==> (#[trigger] values@[j])@ == container.value_caches@[j]@,
            decreases container.value_caches@.len() - i,
        {
            let copy = container.value_caches[i].clone();
            values.push(copy.0);
            i += 1;
        }
        assert(byte_views(values@) =~= caches_bytes(self@.value_caches));
        let mut list: Vec<u8> = Vec::new();
        write_fields(&mut list, 0, &values);
        let mut fields: Vec<Vec<u8>> = Vec::new();
        fields.push(container.list_cache.0);
        fields.push(list);
        assert(byte_views(fields@) =~= multi_fields(self@));
        let mut bytes: Vec<u8> = Vec::new();
        write_fields(&mut bytes, 0, &fields);
        assert(bytes@ =~= multi_cache_bytes(self@));
        bytes
    }
}

} // verus!
