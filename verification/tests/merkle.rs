use operation_pool::merkleize_padded;
use operation_pool::merkleize_padded::{
    get_zero_hash, hash, hash_concat, merkleize_padded, next_even_number, BYTES_PER_CHUNK,
    MAX_TREE_DEPTH,
};

fn hex(bytes: &[u8]) -> String {
    bytes.iter().map(|b| format!("{:02x}", b)).collect()
}

#[test]
fn digest_of_nothing() {
    assert_eq!(
        hex(&hash(&[])),
        "e3b0c44298fc1c149afbf4c8996fb92427ae41e4649b934ca495991b7852b855"
    );
}

#[test]
fn digest_of_two_parts_is_the_digest_of_the_whole() {
    let expected = "bef57ec7f53a6d40beb640a780a639c83bc29ac8a9816f1fc6c5c6dcd93c4721";
    assert_eq!(hex(&hash_concat(b"abc", b"def")), expected);
    assert_eq!(hex(&hash_concat(b"", b"abcdef")), expected);
    assert_eq!(hex(&hash(b"abcdef")), expected);
}

#[test]
fn zero_hashes() {
    assert_eq!(get_zero_hash(0), vec![0u8; 32]);
    assert_eq!(
        hex(&get_zero_hash(1)),
        "f5a5fd42d16a20302798ef6ed309979b43003d2320d9f0e8ea9831a92759fb4b"
    );
    assert_eq!(
        hex(&get_zero_hash(2)),
        "db56114e00fdd4c1f85c892bf35ac9a89289aaecb1ebd0a96cde606a748b5d71"
    );
    assert_eq!(
        hex(&get_zero_hash(MAX_TREE_DEPTH)),
        "7ba3ae4a417fe8545b142bc89f4adcd7ae13941cbab7750b83e9f0a66d16be64"
    );
}

#[test]
fn one_chunk_or_less_is_not_hashed() {
    assert_eq!(merkleize_padded(&[], 0), vec![0u8; 32]);
    assert_eq!(merkleize_padded(&[], 1), vec![0u8; 32]);
    let mut padded = vec![9u8, 8, 7];
    padded.resize(32, 0);
    assert_eq!(merkleize_padded(&[9, 8, 7], 0), padded);
    assert_eq!(merkleize_padded(&[5u8; 32], 1), vec![5u8; 32]);
}

#[test]
fn zero_value_nodes() {
    let depth_of = |nodes: usize| match nodes {
        0 | 1 => 0,
        2 => 1,
        3 | 4 => 2,
        5..=8 => 3,
        _ => 4,
    };
    for nodes in [0usize, 1, 2, 3, 4, 8, 9] {
        assert_eq!(
            merkleize_padded(&vec![0u8; nodes * BYTES_PER_CHUNK], 0),
            get_zero_hash(depth_of(nodes)),
            "nodes: {}",
            nodes
        );
    }
}

#[test]
fn zero_value_8_nodes_varying_min_length() {
    for min_leaves in 0usize..64 {
        let depth = match min_leaves {
            0..=8 => 3,
            9..=16 => 4,
            17..=32 => 5,
            _ => 6,
        };
        assert_eq!(
            merkleize_padded(&vec![0u8; 8 * BYTES_PER_CHUNK], min_leaves),
            get_zero_hash(depth),
            "min_leaves: {}",
            min_leaves
        );
    }
}

#[test]
fn zero_value_range_of_nodes() {
    for len in 0..32 * BYTES_PER_CHUNK {
        let leaves = (len + 31) / 32;
        let mut depth = 0;
        while (1usize << depth) < leaves {
            depth += 1;
        }
        assert_eq!(merkleize_padded(&vec![0u8; len], 0), get_zero_hash(depth), "len: {}", len);
    }
}

#[test]
fn max_tree_depth_min_nodes() {
    let input = vec![0; 10 * BYTES_PER_CHUNK];
    let min_nodes = 2usize.pow(MAX_TREE_DEPTH as u32);
    assert_eq!(merkleize_padded(&input, min_nodes), get_zero_hash(MAX_TREE_DEPTH));
}

#[test]
fn roots_of_given_bytes() {
    let bytes: Vec<u8> = (0u8..96).collect();
    assert_eq!(
        hex(&merkleize_padded(&bytes, 0)),
        "17c8d5caa3d7162e8dada90de6e741783f3d73736498c11eba34974fbf5464f3"
    );
    assert_eq!(
        hex(&merkleize_padded(&[0xab; 40], 4)),
        "369f473689ba4de5151eadb2fe3b6e67950a3e1d66b0e7bf8ab9e09ee93e331b"
    );
    let bytes: Vec<u8> = (0..150u32).map(|i| (i % 251) as u8).collect();
    assert_eq!(
        hex(&merkleize_padded(&bytes, 0)),
        "f48cee76e54185d32ce519d1beaa3373cdd30b972c6116956f8897d0f8c886b7"
    );
    assert_eq!(merkleize_padded(&bytes, 8), merkleize_padded(&bytes, 5));
}

#[test]
fn helpers() {
    assert_eq!(next_even_number(0), 0);
    assert_eq!(next_even_number(1), 2);
    assert_eq!(next_even_number(6), 6);
    assert_eq!(next_even_number(7), 8);
    assert_eq!(merkleize_padded::concat(vec![1, 2], vec![3]), vec![1, 2, 3]);
}
