//! Caches of the layers of hash trees, and how they are written as bytes and
//! read back.
//!
//! A cache is written as a record: its depth, an integer of eight bytes, and
//! the list of its layers, each layer being its hashes one after the other.

use vstd::prelude::*;
use vstd::bytes::*;
use vstd::slice::slice_subrange;
use crate::codec::{array32, lemma_array32};
use crate::encoding::{append_array, append_u64};
use crate::ssz::DecodeError;
use crate::ssz_container::{
    byte_views, decode_fields, decode_list, encode_fields, fields_fit, law_fields_round_trip,
    law_list_round_trip, read_fields, read_list, write_fields,
};

verus! {

/// Why a cache could not be used.
#[derive(Debug, PartialEq, Eq)]
pub enum Error {
    /// The list has fewer items than the cache holds.
    CannotShrink,
    /// The bytes are no cache.
    BytesInvalid(DecodeError),
}

/// The layers of a hash tree.
#[derive(Debug, PartialEq, Eq, Default)]
pub struct TreeHashCache {
    pub depth: u64,
    pub layers: Vec<Vec<[u8; 32]>>,
}

/// The value of a [`TreeHashCache`].
pub struct TreeHashCacheView {
    pub depth: u64,
    pub layers: Seq<Seq<[u8; 32]>>,
}

impl View for TreeHashCache {
    type V = TreeHashCacheView;

    open spec fn view(&self) -> TreeHashCacheView {
        TreeHashCacheView {
            depth: self.depth,
            layers: Seq::new(self.layers@.len(), |i: int| self.layers@[i]@),
        }
    }
}

impl Clone for TreeHashCache {
    fn clone(&self) -> (r: Self)
        ensures
            r@ == self@,
    {
        let mut layers: Vec<Vec<[u8; 32]>> = Vec::new();
        let mut i: usize = 0;
        while i < self.layers.len()
            invariant
                i <= self.layers@.len(),
                layers@.len() == i,
                forall|j: int| 0 <= j < i ==> (#[trigger] layers@[j])@ == self.layers@[j]@,
            decreases self.layers@.len() - i,
        {
            let mut layer: Vec<[u8; 32]> = Vec::new();
            let mut k: usize = 0;
            while k < self.layers[i].len()
                invariant
                    i < self.layers@.len(),
                    k <= self.layers@[i as int]@.len(),
                    layer@ == self.layers@[i as int]@.take(k as int),
                decreases self.layers@[i as int]@.len() - k,
            {
                layer.push(self.layers[i][k]);
                assert(layer@ =~= self.layers@[i as int]@.take(k + 1));
                k += 1;
            }
            assert(layer@ =~= self.layers@[i as int]@);
            layers.push(layer);
            i += 1;
        }
        let r = TreeHashCache { depth: self.depth, layers };
        assert(r@.layers =~= self@.layers);
        r
    }
}

/// The bytes of a layer: its hashes, one after the other.
pub open spec fn layer_bytes(layer: Seq<[u8; 32]>) -> Seq<u8> {
    Seq::new(32 * layer.len(), |k: int| layer[k / 32]@[k % 32])
}

/// The hashes that make up the bytes of a layer.
pub open spec fn layer_hashes(bytes: Seq<u8>) -> Seq<[u8; 32]> {
    Seq::new(bytes.len() / 32, |i: int| array32(bytes.subrange(32 * i, 32 * i + 32)))
}

/// The bytes of every layer.
pub open spec fn layers_bytes(layers: Seq<Seq<[u8; 32]>>) -> Seq<Seq<u8>> {
    Seq::new(layers.len(), |i: int| layer_bytes(layers[i]))
}

/// The hashes of every layer.
pub open spec fn layers_hashes(layers: Seq<Seq<u8>>) -> Seq<Seq<[u8; 32]>> {
    Seq::new(layers.len(), |i: int| layer_hashes(layers[i]))
}

/// The bytes of a cache.
pub open spec fn cache_bytes(cache: TreeHashCacheView) -> Seq<u8> {
    spec_u64_to_le_bytes(cache.depth) + encode_fields(
        8,
        seq![encode_fields(0, layers_bytes(cache.layers))],
    )
}

/// Whether the cache can be written: every offset fits in four bytes.
pub open spec fn cache_fits(cache: TreeHashCacheView) -> bool {
    &&& fields_fit(0, layers_bytes(cache.layers))
    &&& fields_fit(8, seq![encode_fields(0, layers_bytes(cache.layers))])
}

/// The first of the first `n` layers whose bytes are not whole hashes, if
/// there is one.
pub open spec fn first_ragged(layers: Seq<Seq<u8>>, n: int) -> Option<int>
    decreases n,
{
    if n <= 0 {
        None
    } else {
        match first_ragged(layers, n - 1) {
            Some(i) => Some(i),
            None => if layers[n - 1].len() % 32 == 0 {
                None
            } else {
                Some(n - 1)
            },
        }
    }
}

/// The cache that the bytes stand for, or why they stand for none: the record
/// or the list of the layers is not in order, or a layer is not made of whole
/// hashes.
pub open spec fn spec_cache_from_bytes(s: Seq<u8>) -> Result<TreeHashCacheView, Error> {
    match decode_fields(s, 8, 1) {
        Err(e) => Err(Error::BytesInvalid(e)),
        Ok(fields) => match decode_list(fields[0]) {
            Err(e) => Err(Error::BytesInvalid(e)),
            Ok(layers) => match first_ragged(layers, layers.len() as int) {
                Some(i) => Err(
                    Error::BytesInvalid(
                        DecodeError::InvalidByteLength {
                            len: layers[i].len() as usize,
                            expected: (32 * (layers[i].len() / 32)) as usize,
                        },
                    ),
                ),
                None => Ok(
                    TreeHashCacheView {
                        depth: spec_u64_from_le_bytes(s.subrange(0, 8)),
                        layers: layers_hashes(layers),
                    },
                ),
            },
        },
    }
}

/// The bytes of a layer are read back as its hashes.
pub proof fn lemma_layer_round_trip(layer: Seq<[u8; 32]>)
    ensures
        layer_bytes(layer).len() == 32 * layer.len(),
        layer_hashes(layer_bytes(layer)) == layer,
{
    let bytes = layer_bytes(layer);
    let read = layer_hashes(bytes);
    assert(read.len() == layer.len());
    assert forall|i: int| 0 <= i < layer.len() implies read[i] == layer[i] by {
        let piece = bytes.subrange(32 * i, 32 * i + 32);
        assert forall|j: int| 0 <= j < 32 implies piece[j] == layer[i]@[j] by {
            assert((32 * i + j) / 32 == i);
            assert((32 * i + j) % 32 == j);
        }
        assert(piece =~= layer[i]@);
        lemma_array32(layer[i]);
    }
    assert(read =~= layer);
}

/// No layer that was written is ragged.
proof fn lemma_none_ragged(layers: Seq<Seq<[u8; 32]>>, n: int)
    requires
        0 <= n <= layers.len(),
    ensures
        first_ragged(layers_bytes(layers), n) is None,
    decreases n,
{
    if n > 0 {
        lemma_none_ragged(layers, n - 1);
        lemma_layer_round_trip(layers[n - 1]);
    }
}

/// The bytes of a cache are read back as that cache.
pub proof fn law_cache_round_trip(cache: TreeHashCacheView)
    requires
        cache_fits(cache),
    ensures
        spec_cache_from_bytes(cache_bytes(cache)) == Ok::<TreeHashCacheView, Error>(cache),
{
    lemma_auto_spec_u64_to_from_le_bytes();
    let depth = spec_u64_to_le_bytes(cache.depth);
    let list = encode_fields(0, layers_bytes(cache.layers));
    let s = cache_bytes(cache);
    law_fields_round_trip(depth, seq![list]);
    law_list_round_trip(layers_bytes(cache.layers));
    lemma_none_ragged(cache.layers, cache.layers.len() as int);
    assert(s.subrange(0, 8) =~= depth);
    let read = layers_hashes(layers_bytes(cache.layers));
    assert forall|i: int| 0 <= i < cache.layers.len() implies read[i] == cache.layers[i] by {
        lemma_layer_round_trip(cache.layers[i]);
    }
    assert(read =~= cache.layers);
}

/// Once a layer is ragged, it stays the first that is.
proof fn lemma_ragged_stays(layers: Seq<Seq<u8>>, n: int, m: int)
    requires
        0 <= n <= m,
        first_ragged(layers, n) is Some,
    ensures
        first_ragged(layers, m) == first_ragged(layers, n),
    decreases m,
{
    if n < m {
        lemma_ragged_stays(layers, n, m - 1);
    }
}

/// The bytes of a layer.
fn layer_to_bytes(layer: &Vec<[u8; 32]>) -> (r: Vec<u8>)
    ensures
        r@ == layer_bytes(layer@),
{
    let mut r: Vec<u8> = Vec::new();
    let mut i: usize = 0;
    assert(r@ =~= layer_bytes(layer@.take(0)));
    while i < layer.len()
        invariant
            i <= layer@.len(),
            r@ == layer_bytes(layer@.take(i as int)),
        decreases layer@.len() - i,
    {
        append_array(&mut r, &layer[i]);
        proof {
            let shorter = layer_bytes(layer@.take(i as int));
            let longer = layer_bytes(layer@.take(i + 1));
            assert forall|k: int| 0 <= k < longer.len() implies longer[k] == (shorter
                + layer@[i as int]@)[k] by {
                if k >= 32 * i {
                    assert(k / 32 == i);
                    assert(k % 32 == k - 32 * i);
                } else {
                    assert(k / 32 < i);
                }
            }
            assert(r@ =~= longer);
        }
        i += 1;
    }
    assert(layer@.take(layer@.len() as int) =~= layer@);
    r
}

/// The hashes that make up the bytes of a layer, which are whole hashes.
fn layer_from_bytes(bytes: &[u8]) -> (r: Vec<[u8; 32]>)
    requires
        bytes@.len() % 32 == 0,
    ensures
        r@ == layer_hashes(bytes@),
{
    let len: usize = bytes.len();
    let n: usize = len / 32;
    let mut r: Vec<[u8; 32]> = Vec::new();
    let mut i: usize = 0;
    while i < n
        invariant
            i <= n,
            len == bytes@.len(),
            n == bytes@.len() / 32,
            bytes@.len() % 32 == 0,
            r@.len() == i,
            forall|j: int|
                0 <= j < i ==> #[trigger] r@[j] == array32(bytes@.subrange(32 * j, 32 * j + 32)),
        decreases n - i,
    {
        let mut hash = [0u8;32];
        let mut k: usize = 0;
        while k < 32
            invariant
                k <= 32,
                i < n,
                len == bytes@.len(),
                n == bytes@.len() / 32,
                bytes@.len() % 32 == 0,
                forall|m: int| 0 <= m < k ==> hash@[m] == bytes@[32 * i + m],
            decreases 32 - k,
        {
            hash[k] = bytes[32 * i + k];
            k += 1;
        }
        proof {
            assert(hash@ =~= bytes@.subrange(32 * i, 32 * i + 32));
            lemma_array32(hash);
        }
        r.push(hash);
        i += 1;
    }
    assert(r@ =~= layer_hashes(bytes@));
    r
}

impl TreeHashCache {
    /// Whether the cache can be written: every offset fits in four bytes.
    pub open spec fn encodable(&self) -> bool {
        cache_fits(self@)
    }

    /// The bytes of the cache.
    pub fn as_bytes(&self) -> (r: Vec<u8>)
        requires
            self.encodable(),
        ensures
            r@ == cache_bytes(self@),
            spec_cache_from_bytes(r@) == Ok::<TreeHashCacheView, Error>(self@),
    {
        proof {
            law_cache_round_trip(self@);
        }
        let mut layers: Vec<Vec<u8>> = Vec::new();
        let mut i: usize = 0;
        while i < self.layers.len()
            invariant
                i <= self.layers@.len(),
                layers@.len() == i,
                forall|j: int| 0 <= j < i ==> (#[trigger] layers@[j])@ == layer_bytes(self.layers@[j]@),
            decreases self.layers@.len() - i,
        {
            layers.push(layer_to_bytes(&self.layers[i]));
            i += 1;
        }
        assert(byte_views(layers@) =~= layers_bytes(self@.layers));
        let mut list: Vec<u8> = Vec::new();
        write_fields(&mut list, 0, &layers);
        assert(list@ =~= encode_fields(0, layers_bytes(self@.layers)));
        let mut fields: Vec<Vec<u8>> = Vec::new();
        fields.push(list);
        assert(byte_views(fields@) =~= seq![encode_fields(0, layers_bytes(self@.layers))]);
        let mut bytes: Vec<u8> = Vec::new();
        append_u64(&mut bytes, self.depth);
        write_fields(&mut bytes, 8, &fields);
        assert(bytes@ =~= cache_bytes(self@));
        bytes
    }

    /// The cache that the bytes stand for.
    pub fn from_bytes(bytes: &[u8]) -> (r: Result<TreeHashCache, Error>)
        ensures
            match r {
                Ok(cache) => spec_cache_from_bytes(bytes@) == Ok::<TreeHashCacheView, Error>(
                    cache@,
                ),
                Err(e) => spec_cache_from_bytes(bytes@) == Err::<TreeHashCacheView, Error>(e),
            },
    {
        let fields = match read_fields(bytes, 8, 1) {
            Ok(fields) => fields,
            Err(e) => {
                return Err(Error::BytesInvalid(e));
            },
        };
        assert(crate::ssz_container::marked_fields(bytes@, 8, 1).len() == 1);
        assert(byte_views(fields@).len() == 1);
        assert(byte_views(fields@)[0] == fields@[0]@);
        let items = match read_list(fields[0].as_slice()) {
            Ok(items) => items,
            Err(e) => {
                return Err(Error::BytesInvalid(e));
            },
        };
        let ghost raw = byte_views(items@);
        let mut layers: Vec<Vec<[u8; 32]>> = Vec::new();
        let mut i: usize = 0;
        while i < items.len()
            invariant
                i <= items@.len(),
                raw == byte_views(items@),
                fields@.len() == 1,
                decode_fields(bytes@, 8, 1) == Ok::<Seq<Seq<u8>>, DecodeError>(
                    byte_views(fields@),
                ),
                decode_list(byte_views(fields@)[0]) == Ok::<Seq<Seq<u8>>, DecodeError>(raw),
                first_ragged(raw, i as int) is None,
                layers@.len() == i,
                forall|j: int| 0 <= j < i ==> (#[trigger] layers@[j])@ == layer_hashes(raw[j]),
            decreases items@.len() - i,
        {
            let len: usize = items[i].len();
            assert(raw[i as int] == items@[i as int]@);
            if len % 32 != 0 {
                proof {
                    lemma_ragged_stays(raw, i + 1, raw.len() as int);
                }
                return Err(
                    Error::BytesInvalid(
                        DecodeError::InvalidByteLength { len, expected: 32 * (len / 32) },
                    ),
                );
            }
            layers.push(layer_from_bytes(items[i].as_slice()));
            i += 1;
        }
        let depth = u64_from_le_bytes(slice_subrange(bytes, 0, 8));
        let cache = TreeHashCache { depth, layers };
        assert(cache@.layers =~= layers_hashes(raw));
        Ok(cache)
    }
}

} // verus!
