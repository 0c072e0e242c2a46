//! The caches of the hash tree of the chain state, and how they are written
//! as bytes and read back: a record of the flag that tells whether the caches
//! are in use, and of the bytes of the seven caches.

use vstd::prelude::*;
use crate::cached_tree_hash::{
    cache_bytes, cache_fits, law_cache_round_trip, spec_cache_from_bytes, Error, TreeHashCache,
    TreeHashCacheView,
};
use crate::codec::{encode_flag, flag_byte};
use crate::multi_cache::{
    law_multi_cache_round_trip, multi_cache_bytes, multi_cache_fits,
    spec_multi_cache_from_bytes, MultiTreeHashCache, MultiTreeHashCacheView,
};
use crate::ssz::{DecodeError, SszBytes};
use crate::ssz_container::{
    byte_views, decode_fields, encode_fields, fields_fit, law_fields_round_trip, marked_fields,
    read_fields, write_fields,
};

verus! {

/// The caches of the hash tree of the chain state.
#[derive(Debug, PartialEq, Eq, Default)]
pub struct BeaconTreeHashCache {
    pub initialized: bool,
    pub block_roots: TreeHashCache,
    pub state_roots: TreeHashCache,
    pub historical_roots: TreeHashCache,
    pub validators: MultiTreeHashCache,
    pub balances: TreeHashCache,
    pub randao_mixes: TreeHashCache,
    pub slashings: TreeHashCache,
}

/// The value of a [`BeaconTreeHashCache`].
pub struct BeaconTreeHashCacheView {
    pub initialized: bool,
    pub block_roots: TreeHashCacheView,
    pub state_roots: TreeHashCacheView,
    pub historical_roots: TreeHashCacheView,
    pub validators: MultiTreeHashCacheView,
    pub balances: TreeHashCacheView,
    pub randao_mixes: TreeHashCacheView,
    pub slashings: TreeHashCacheView,
}

impl View for BeaconTreeHashCache {
    type V = BeaconTreeHashCacheView;

    open spec fn view(&self) -> BeaconTreeHashCacheView {
        BeaconTreeHashCacheView {
            initialized: self.initialized,
            block_roots: self.block_roots@,
            state_roots: self.state_roots@,
            historical_roots: self.historical_roots@,
            validators: self.validators@,
            balances: self.balances@,
            randao_mixes: self.randao_mixes@,
            slashings: self.slashings@,
        }
    }
}

/// The seven byte strings of the record of the caches.
pub open spec fn beacon_fields(cache: BeaconTreeHashCacheView) -> Seq<Seq<u8>> {
    seq![
        cache_bytes(cache.block_roots),
        cache_bytes(cache.state_roots),
        cache_bytes(cache.historical_roots),
        multi_cache_bytes(cache.validators),
        cache_bytes(cache.balances),
        cache_bytes(cache.randao_mixes),
        cache_bytes(cache.slashings),
    ]
}

/// The bytes of the caches.
pub open spec fn beacon_cache_bytes(cache: BeaconTreeHashCacheView) -> Seq<u8> {
    encode_flag(cache.initialized) + encode_fields(1, beacon_fields(cache))
}

/// Whether the caches can be written: every offset fits in four bytes.
pub open spec fn beacon_cache_fits(cache: BeaconTreeHashCacheView) -> bool {
    &&& cache_fits(cache.block_roots)
    &&& cache_fits(cache.state_roots)
    &&& cache_fits(cache.historical_roots)
    &&& multi_cache_fits(cache.validators)
    &&& cache_fits(cache.balances)
    &&& cache_fits(cache.randao_mixes)
    &&& cache_fits(cache.slashings)
    &&& fields_fit(1, beacon_fields(cache))
}

/// The caches that seven byte strings stand for, or why the first of them that
/// stands for none does so.
pub open spec fn caches_of_fields(initialized: bool, fields: Seq<Seq<u8>>) -> Result<
    BeaconTreeHashCacheView,
    Error,
> {
    match spec_cache_from_bytes(fields[0]) {
        Err(e) => Err(e),
        Ok(block_roots) => match spec_cache_from_bytes(fields[1]) {
            Err(e) => Err(e),
            Ok(state_roots) => match spec_cache_from_bytes(fields[2]) {
                Err(e) => Err(e),
                Ok(historical_roots) => match spec_multi_cache_from_bytes(fields[3]) {
                    Err(e) => Err(e),
                    Ok(validators) => match spec_cache_from_bytes(fields[4]) {
                        Err(e) => Err(e),
                        Ok(balances) => match spec_cache_from_bytes(fields[5]) {
                            Err(e) => Err(e),
                            Ok(randao_mixes) => match spec_cache_from_bytes(fields[6]) {
                                Err(e) => Err(e),
                                Ok(slashings) => Ok(
                                    BeaconTreeHashCacheView {
                                        initialized,
                                        block_roots,
                                        state_roots,
                                        historical_roots,
                                        validators,
                                        balances,
                                        randao_mixes,
                                        slashings,
                                    },
                                ),
                            },
                        },
                    },
                },
            },
        },
    }
}

/// The caches that the bytes stand for, or why they stand for none: the record
/// is not in order, its first byte is no flag, or one of its byte strings
/// stands for no cache.
pub open spec fn spec_beacon_cache_from_bytes(s: Seq<u8>) -> Result<
    BeaconTreeHashCacheView,
    Error,
> {
    match decode_fields(s, 1, 7) {
        Err(e) => Err(Error::BytesInvalid(e)),
        Ok(fields) => if s[0] > 1 {
            Err(Error::BytesInvalid(DecodeError::OutOfBoundsByte { i: 0 }))
        } else {
            caches_of_fields(s[0] == 1, fields)
        },
    }
}

/// The bytes of the caches are read back as those caches.
pub proof fn law_beacon_cache_round_trip(cache: BeaconTreeHashCacheView)
    requires
        beacon_cache_fits(cache),
    ensures
        spec_beacon_cache_from_bytes(beacon_cache_bytes(cache)) == Ok::<
            BeaconTreeHashCacheView,
            Error,
        >(cache),
{
    let flag = encode_flag(cache.initialized);
    let s = beacon_cache_bytes(cache);
    law_fields_round_trip(flag, beacon_fields(cache));
    law_cache_round_trip(cache.block_roots);
    law_cache_round_trip(cache.state_roots);
    law_cache_round_trip(cache.historical_roots);
    law_multi_cache_round_trip(cache.validators);
    law_cache_round_trip(cache.balances);
    law_cache_round_trip(cache.randao_mixes);
    law_cache_round_trip(cache.slashings);
    assert(s[0] == flag_byte(cache.initialized));
}

/// The flag and the seven byte strings of the record of the caches.
struct SszContainer {
    initialized: bool,
    block_roots: SszBytes,
    state_roots: SszBytes,
    historical_roots: SszBytes,
    validators: SszBytes,
    balances: SszBytes,
    randao_mixes: SszBytes,
    slashings: SszBytes,
}

impl SszContainer {
    /// The seven byte strings.
    spec fn fields(&self) -> Seq<Seq<u8>> {
        seq![
            self.block_roots@,
            self.state_roots@,
            self.historical_roots@,
            self.validators@,
            self.balances@,
            self.randao_mixes@,
            self.slashings@,
        ]
    }

    /// The flag and the byte strings of the caches.
    fn from_cache(cache: &BeaconTreeHashCache) -> (r: SszContainer)
        requires
            beacon_cache_fits(cache@),
        ensures
            r.initialized == cache.initialized,
            r.fields() == beacon_fields(cache@),
    {
        SszContainer {
            initialized: cache.initialized,
            block_roots: SszBytes(cache.block_roots.as_bytes()),
            state_roots: SszBytes(cache.state_roots.as_bytes()),
            historical_roots: SszBytes(cache.historical_roots.as_bytes()),
            validators: SszBytes(cache.validators.as_bytes()),
            balances: SszBytes(cache.balances.as_bytes()),
            randao_mixes: SszBytes(cache.randao_mixes.as_bytes()),
            slashings: SszBytes(cache.slashings.as_bytes()),
        }
    }

    /// The caches that the byte strings stand for.
    fn into_cache(self) -> (r: Result<BeaconTreeHashCache, Error>)
        ensures
            match r {
                Ok(cache) => caches_of_fields(self.initialized, self.fields()) == Ok::<
                    BeaconTreeHashCacheView,
                    Error,
                >(cache@),
                Err(e) => caches_of_fields(self.initialized, self.fields()) == Err::<
                    BeaconTreeHashCacheView,
                    Error,
                >(e),
            },
    {
        Ok(
            BeaconTreeHashCache {
                initialized: self.initialized,
                block_roots: TreeHashCache::from_bytes(self.block_roots.0.as_slice())?,
                state_roots: TreeHashCache::from_bytes(self.state_roots.0.as_slice())?,
                historical_roots: TreeHashCache::from_bytes(self.historical_roots.0.as_slice())?,
                validators: MultiTreeHashCache::from_bytes(self.validators.0.as_slice())?,
                balances: TreeHashCache::from_bytes(self.balances.0.as_slice())?,
                randao_mixes: TreeHashCache::from_bytes(self.randao_mixes.0.as_slice())?,
                slashings: TreeHashCache::from_bytes(self.slashings.0.as_slice())?,
            },
        )
    }
}

/// Takes the byte string at position `i` out of `fields`.
fn take_field(fields: &mut Vec<Vec<u8>>, i: usize) -> (r: SszBytes)
    requires
        i < old(fields)@.len(),
    ensures
        r@ == old(fields)@[i as int]@,
        final(fields)@.len() == old(fields)@.len(),
        forall|j: int|
            0 <= j < old(fields)@.len() && j != i ==> final(fields)@[j] == old(fields)@[j],
{
    let mut field: Vec<u8> = Vec::new();
    core::mem::swap(&mut field, &mut fields[i]);
    SszBytes(field)
}

impl BeaconTreeHashCache {
    /// Whether the caches can be written: every offset fits in four bytes.
    pub open spec fn encodable(&self) -> bool {
        beacon_cache_fits(self@)
    }

    /// Whether the caches are in use.
    pub fn is_initialized(&self) -> (r: bool)
        ensures
            r == self.initialized,
    {
        self.initialized
    }

    /// The caches that the bytes stand for.
    pub fn from_bytes(bytes: &[u8]) -> (r: Result<BeaconTreeHashCache, Error>)
        ensures
            match r {
                Ok(cache) => spec_beacon_cache_from_bytes(bytes@) == Ok::<
                    BeaconTreeHashCacheView,
                    Error,
                >(cache@),
                Err(e) => spec_beacon_cache_from_bytes(bytes@) == Err::<
                    BeaconTreeHashCacheView,
                    Error,
                >(e),
            },
    {
        let mut fields = match read_fields(bytes, 1, 7) {
            Ok(fields) => fields,
            Err(e) => {
                return Err(Error::BytesInvalid(e));
            },
        };
        assert(marked_fields(bytes@, 1, 7).len() == 7);
        let ghost raw = byte_views(fields@);
        assert(raw.len() == 7);
        assert(forall|j: int| 0 <= j < 7 ==> raw[j] == (#[trigger] fields@[j])@);
        let flag: u8 = bytes[0];
        if flag > 1 {
            return Err(Error::BytesInvalid(DecodeError::OutOfBoundsByte { i: 0 }));
        }
        let block_roots = take_field(&mut fields, 0);
        let state_roots = take_field(&mut fields, 1);
        let historical_roots = take_field(&mut fields, 2);
        let validators = take_field(&mut fields, 3);
        let balances = take_field(&mut fields, 4);
        let randao_mixes = take_field(&mut fields, 5);
        let slashings = take_field(&mut fields, 6);
        let container = SszContainer {
            initialized: flag == 1,
            block_roots,
            state_roots,
            historical_roots,
            validators,
            balances,
            randao_mixes,
            slashings,
        };
        assert(container.fields() =~= raw);
        container.into_cache()
    }

    /// The bytes of the caches.
    pub fn as_bytes(&self) -> (r: Vec<u8>)
        requires
            self.encodable(),
        ensures
            r@ == beacon_cache_bytes(self@),
            spec_beacon_cache_from_bytes(r@) == Ok::<BeaconTreeHashCacheView, Error>(self@),
    {
        proof {
            law_beacon_cache_round_trip(self@);
        }
        let container = SszContainer::from_cache(self);
        let ghost wanted = container.fields();
        let mut fields: Vec<Vec<u8>> = Vec::new();
        fields.push(container.block_roots.0);
        fields.push(container.state_roots.0);
        fields.push(container.historical_roots.0);
        fields.push(container.validators.0);
        fields.push(container.balances.0);
        fields.push(container.randao_mixes.0);
        fields.push(container.slashings.0);
        assert(byte_views(fields@) =~= wanted);
        let mut bytes: Vec<u8> = Vec::new();
        crate::codec::write_flag(&mut bytes, container.initialized);
        write_fields(&mut bytes, 1, &fields);
        assert(bytes@ =~= beacon_cache_bytes(self@));
        bytes
    }
}

} // verus!
