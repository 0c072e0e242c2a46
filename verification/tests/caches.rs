use operation_pool::beacon_tree_hash_cache::BeaconTreeHashCache;
use operation_pool::cached_tree_hash::{Error, TreeHashCache};
use operation_pool::multi_cache::MultiTreeHashCache;
use operation_pool::ssz::DecodeError;
use operation_pool::ssz_container::{read_fields, read_list, write_fields};

fn cache(depth: u64, layers: &[&[u8]]) -> TreeHashCache {
    TreeHashCache {
        depth,
        layers: layers.iter().map(|layer| layer.iter().map(|b| [*b; 32]).collect()).collect(),
    }
}

fn beacon_cache() -> BeaconTreeHashCache {
    BeaconTreeHashCache {
        initialized: true,
        block_roots: cache(13, &[&[1, 2], &[3]]),
        state_roots: cache(13, &[&[4]]),
        historical_roots: cache(24, &[]),
        validators: MultiTreeHashCache {
            list_cache: cache(40, &[&[5, 6, 7]]),
            value_caches: vec![cache(3, &[&[8]]), cache(3, &[]), cache(3, &[&[9], &[]])],
        },
        balances: cache(38, &[&[]]),
        randao_mixes: cache(16, &[&[10]]),
        slashings: cache(13, &[&[11, 12]]),
    }
}

#[test]
fn record_of_byte_strings() {
    let mut bytes = vec![0xaa];
    write_fields(&mut bytes, 1, &vec![vec![1, 2, 3], vec![], vec![4]]);
    assert_eq!(
        bytes,
        vec![0xaa, 13, 0, 0, 0, 16, 0, 0, 0, 16, 0, 0, 0, 1, 2, 3, 4]
    );
    assert_eq!(read_fields(&bytes, 1, 3), Ok(vec![vec![1, 2, 3], vec![], vec![4]]));
    assert_eq!(read_list(&bytes[1..]), Err(DecodeError::OutOfBoundsByte { i: 13 }));
    let mut list = vec![];
    write_fields(&mut list, 0, &vec![vec![7u8; 5], vec![8u8; 2]]);
    assert_eq!(list, vec![8, 0, 0, 0, 13, 0, 0, 0, 7, 7, 7, 7, 7, 8, 8]);
    assert_eq!(read_list(&list), Ok(vec![vec![7u8; 5], vec![8u8; 2]]));
    assert_eq!(read_list(&[]), Ok(vec![]));
}

#[test]
fn records_that_are_not_in_order() {
    assert_eq!(
        read_fields(&[1, 2, 3], 0, 1),
        Err(DecodeError::InvalidByteLength { len: 3, expected: 4 })
    );
    assert_eq!(
        read_fields(&[5, 0, 0, 0, 9], 0, 1),
        Err(DecodeError::OutOfBoundsByte { i: 5 })
    );
    assert_eq!(
        read_fields(&[8, 0, 0, 0, 11, 0, 0, 0, 1, 2], 0, 2),
        Err(DecodeError::OutOfBoundsByte { i: 11 })
    );
    assert_eq!(
        read_fields(&[8, 0, 0, 0, 7, 0, 0, 0, 1, 2], 0, 2),
        Err(DecodeError::OutOfBoundsByte { i: 7 })
    );
    assert_eq!(read_list(&[1, 2]), Err(DecodeError::InvalidByteLength { len: 2, expected: 4 }));
    assert_eq!(read_list(&[0, 0, 0, 0]), Err(DecodeError::OutOfBoundsByte { i: 0 }));
    assert_eq!(read_list(&[6, 0, 0, 0, 0, 0]), Err(DecodeError::OutOfBoundsByte { i: 6 }));
}

#[test]
fn tree_hash_cache_round_trip() {
    let original = cache(7, &[&[1, 2, 3], &[], &[4]]);
    let bytes = original.as_bytes();
    // The depth, the offset of the list, two... three offsets of layers, four hashes.
    assert_eq!(bytes.len(), 8 + 4 + 3 * 4 + 4 * 32);
    assert_eq!(&bytes[..12], &[7, 0, 0, 0, 0, 0, 0, 0, 12, 0, 0, 0]);
    assert_eq!(&bytes[12..24], &[12, 0, 0, 0, 108, 0, 0, 0, 108, 0, 0, 0]);
    assert_eq!(TreeHashCache::from_bytes(&bytes), Ok(original));
    let empty = TreeHashCache::default();
    assert_eq!(TreeHashCache::from_bytes(&empty.as_bytes()), Ok(empty));
}

#[test]
fn tree_hash_cache_errors() {
    assert_eq!(
        TreeHashCache::from_bytes(&[0; 11]),
        Err(Error::BytesInvalid(DecodeError::InvalidByteLength { len: 11, expected: 12 }))
    );
    assert_eq!(
        TreeHashCache::from_bytes(&[0; 12]),
        Err(Error::BytesInvalid(DecodeError::OutOfBoundsByte { i: 0 }))
    );
    let mut bytes = cache(7, &[&[1]]).as_bytes();
    bytes.pop();
    assert_eq!(
        TreeHashCache::from_bytes(&bytes),
        Err(Error::BytesInvalid(DecodeError::InvalidByteLength { len: 31, expected: 0 }))
    );
    let mut bytes = cache(7, &[&[1]]).as_bytes();
    bytes[12] = 5;
    assert_eq!(
        TreeHashCache::from_bytes(&bytes),
        Err(Error::BytesInvalid(DecodeError::OutOfBoundsByte { i: 5 }))
    );
}

#[test]
fn multi_cache_round_trip() {
    let original = beacon_cache().validators;
    let bytes = original.as_bytes();
    assert_eq!(MultiTreeHashCache::from_bytes(&bytes), Ok(original));
    let empty = MultiTreeHashCache::default();
    let bytes = empty.as_bytes();
    assert_eq!(MultiTreeHashCache::from_bytes(&bytes), Ok(empty));
    assert_eq!(
        MultiTreeHashCache::from_bytes(&bytes[..7]),
        Err(Error::BytesInvalid(DecodeError::InvalidByteLength { len: 7, expected: 8 }))
    );
    // The cache of the list is read before the caches of the items.
    let broken = MultiTreeHashCache::from_bytes(&[8, 0, 0, 0, 8, 0, 0, 0]);
    assert_eq!(
        broken,
        Err(Error::BytesInvalid(DecodeError::InvalidByteLength { len: 0, expected: 12 }))
    );
}

#[test]
fn beacon_cache_round_trip() {
    let original = beacon_cache();
    assert!(original.is_initialized());
    assert!(!BeaconTreeHashCache::default().is_initialized());
    let bytes = original.as_bytes();
    assert_eq!(bytes[0], 1);
    assert_eq!(&bytes[1..5], &[29, 0, 0, 0]);
    assert_eq!(BeaconTreeHashCache::from_bytes(&bytes), Ok(original));
    let fresh = BeaconTreeHashCache::default();
    assert_eq!(BeaconTreeHashCache::from_bytes(&fresh.as_bytes()), Ok(fresh));
}

#[test]
fn beacon_cache_errors() {
    let bytes = beacon_cache().as_bytes();
    assert_eq!(
        BeaconTreeHashCache::from_bytes(&[]),
        Err(Error::BytesInvalid(DecodeError::InvalidByteLength { len: 0, expected: 29 }))
    );
    let mut no_flag = bytes.clone();
    no_flag[0] = 2;
    assert_eq!(
        BeaconTreeHashCache::from_bytes(&no_flag),
        Err(Error::BytesInvalid(DecodeError::OutOfBoundsByte { i: 0 }))
    );
    let mut bad_offset = bytes.clone();
    bad_offset[1] = 30;
    assert_eq!(
        BeaconTreeHashCache::from_bytes(&bad_offset),
        Err(Error::BytesInvalid(DecodeError::OutOfBoundsByte { i: 30 }))
    );
    let mut cut = bytes.clone();
    cut.truncate(bytes.len() - 1);
    assert!(matches!(BeaconTreeHashCache::from_bytes(&cut), Err(Error::BytesInvalid(_))));
}

#[test]
fn caches_of_items_grow_and_never_shrink() {
    let fresh = cache(3, &[&[1]]);
    let mut multi = MultiTreeHashCache::new(cache(40, &[]));
    assert_eq!(multi.value_caches.len(), 0);
    assert_eq!(multi.resize(2, &fresh), Ok(()));
    assert_eq!(multi.value_caches, vec![fresh.clone(), fresh.clone()]);
    assert_eq!(multi.resize(2, &fresh), Ok(()));
    assert_eq!(multi.value_caches.len(), 2);
    assert_eq!(multi.resize(1, &fresh), Err(Error::CannotShrink));
    assert_eq!(multi.value_caches.len(), 2);
    assert_eq!(multi.list_cache, cache(40, &[]));
}
