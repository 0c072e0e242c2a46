use operation_pool::aggregate_public_key::AggregatePublicKey;
use operation_pool::hex;
use operation_pool::points::{
    secret_key_bytes_for_test, BlsError, Message, PublicKey, RawPublicKey, RawSignature,
    BLS_SIG_BYTE_SIZE,
};
use operation_pool::signature::Signature;
use operation_pool::signature_set::{verify_signature_sets, SignatureSet, SignedMessage};
use operation_pool::ssz::{ssz_encode, DecodeError, Encode, SszBytes};

/// A stand-in for signing: the signature holds the hash and the domain.
fn sign(message: Message) -> Result<RawSignature, BlsError> {
    let mut bytes = [0u8; 96];
    bytes[0] = 0x80;
    bytes[1..33].copy_from_slice(&message.hash);
    bytes[33..41].copy_from_slice(&message.domain);
    Ok(RawSignature { bytes })
}

/// A stand-in for decoding a point: the first byte must carry the flag of a
/// compressed point.
fn decode(bytes: &[u8]) -> Result<RawSignature, BlsError> {
    if bytes.len() != 96 {
        return Err(BlsError::BadSize);
    }
    if bytes[0] & 0x80 == 0 {
        return Err(BlsError::InvalidData);
    }
    let mut point = [0u8; 96];
    point.copy_from_slice(bytes);
    Ok(RawSignature { bytes: point })
}

/// A stand-in for the sum of two keys.
fn add_keys(a: RawPublicKey, b: RawPublicKey) -> RawPublicKey {
    let mut bytes = [0u8; 48];
    for i in 0..48 {
        bytes[i] = a.bytes[i] ^ b.bytes[i];
    }
    RawPublicKey { bytes }
}

fn key(n: u8) -> RawPublicKey {
    let mut bytes = [0u8; 48];
    bytes[0] = 0x80;
    bytes[1] = n;
    RawPublicKey { bytes }
}

#[test]
pub fn test_ssz_round_trip() {
    let original = Signature::new(&[42, 42], 0, sign);

    let bytes = ssz_encode(&original);
    let decoded = Signature::from_ssz_bytes(&bytes, decode).unwrap();

    assert_eq!(original, decoded);
}

#[test]
pub fn test_byte_size() {
    let signature = Signature::new(&[42, 42], 0, sign);
    let bytes = ssz_encode(&signature);
    assert_eq!(bytes.len(), BLS_SIG_BYTE_SIZE);
}

#[test]
pub fn test_empty_signature() {
    let sig = Signature::empty_signature();

    let sig_as_bytes: Vec<u8> = sig.as_raw().serialize();

    assert_eq!(sig_as_bytes.len(), BLS_SIG_BYTE_SIZE);
    for (i, one_byte) in sig_as_bytes.iter().enumerate() {
        if i == 0 {
            assert_eq!(*one_byte, u8::pow(2, 6) + u8::pow(2, 7));
        } else {
            assert_eq!(*one_byte, 0);
        }
    }
}

#[test]
fn signature_of_a_hash_round_trips() {
    let original = Signature::new(&[42; 32], 0x0102030405060708, sign);
    assert!(!original.is_empty());
    // The domain is signed with its highest byte first.
    assert_eq!(&original.as_raw().bytes[33..41], &[1, 2, 3, 4, 5, 6, 7, 8]);
    assert_eq!(&original.as_raw().bytes[1..33], &[42u8; 32]);
    let bytes = ssz_encode(&original);
    assert_eq!(bytes, original.as_bytes());
    assert_eq!(bytes, original.as_raw().serialize());
    let decoded = Signature::from_ssz_bytes(&bytes, decode).unwrap();
    assert_eq!(original, decoded);
}

#[test]
fn failed_signing_gives_the_empty_signature() {
    let signature = Signature::new(&[42; 32], 0, |_| Err(BlsError::InternalError));
    assert_eq!(signature, Signature::empty_signature());
    assert!(signature.is_empty());
    assert_eq!(signature.as_bytes(), vec![0u8; 96]);
}

#[test]
fn signature_bytes_of_wrong_length_are_refused() {
    assert_eq!(
        Signature::from_ssz_bytes(&[0u8; 95], decode),
        Err(DecodeError::InvalidByteLength { len: 95, expected: 96 })
    );
    assert_eq!(
        Signature::from_ssz_bytes(&[1u8; 97], decode),
        Err(DecodeError::InvalidByteLength { len: 97, expected: 96 })
    );
}

#[test]
fn bytes_that_are_no_point_are_refused() {
    let mut bytes = [0u8; 96];
    bytes[5] = 1;
    assert!(matches!(
        Signature::from_bytes(&bytes, decode),
        Err(DecodeError::BytesInvalid(_))
    ));
    // Zeros are the empty signature, and the decoder is not asked.
    let empty = Signature::from_bytes(&[0u8; 96], |_| panic!("not asked")).unwrap();
    assert_eq!(empty, Signature::empty_signature());
    let none = Signature::from_bytes(&[], |_| panic!("not asked")).unwrap();
    assert_eq!(none, Signature::empty_signature());
}

#[test]
fn verification_asks_the_engine_only_for_real_signatures() {
    let pk = PublicKey::new_from_raw(key(1));
    let signature = Signature::new(&[7; 32], 9, sign);
    let asked = signature.verify(&[7; 32], 9, &pk, |s, k, m| {
        s == signature.signature && k == key(1) && m.hash == [7; 32] && m.domain == [0, 0, 0, 0, 0, 0, 0, 9]
    });
    assert!(asked);
    assert!(!signature.verify(&[7; 31], 9, &pk, |_, _, _| true));
    assert!(!Signature::empty_signature().verify(&[7; 32], 9, &pk, |_, _, _| true));
}

#[test]
fn aggregate_public_key_adds_points() {
    let mut aggregate = AggregatePublicKey::new();
    let mut infinity = [0u8; 48];
    infinity[0] = 0xc0;
    assert_eq!(aggregate.as_raw().bytes, infinity);
    aggregate.add(&PublicKey::new_from_raw(key(3)), add_keys);
    aggregate.add_point(&key(5), add_keys);
    let mut expected = [0u8; 48];
    expected[0] = 0xc0;
    expected[1] = 3 ^ 5;
    assert_eq!(aggregate.into_raw().bytes, expected);
    assert_eq!(AggregatePublicKey::new_from_raw(key(9)).into_raw(), key(9));
}

#[test]
fn signature_set_hands_one_key_per_message_to_the_engine() {
    let signature = Signature::new(&[1; 32], 0, sign);
    let set = SignatureSet::dual(
        &signature,
        vec![1, 2, 3],
        vec![key(1)],
        vec![4, 5],
        vec![key(2), key(4)],
        77,
    );
    let valid = set.is_valid(&add_keys, &|s: RawSignature,
                                          messages: &Vec<Vec<u8>>,
                                          domain: u64,
                                          keys: &Vec<RawPublicKey>| {
        let mut sum = [0u8; 48];
        sum[0] = 0xc0;
        sum[1] = 2 ^ 4;
        s == signature.signature
            && *messages == vec![vec![1, 2, 3], vec![4, 5]]
            && domain == 77
            && *keys == vec![key(1), RawPublicKey { bytes: sum }]
    });
    assert!(valid);

    let single = SignatureSet::single(&signature, key(8), vec![9], 1);
    assert_eq!(single.signed_messages.len(), 1);
    assert_eq!(single.signed_messages[0].signing_keys, vec![key(8)]);
    let built = SignatureSet::new(&signature, vec![SignedMessage::new(vec![key(8)], vec![9])], 1);
    assert_eq!(built.domain, 1);
    assert_eq!(built.signed_messages[0].message, vec![9]);
}

#[test]
fn sets_are_checked_until_one_fails() {
    let signature = Signature::new(&[1; 32], 0, sign);
    let sets = vec![
        SignatureSet::single(&signature, key(1), vec![1], 0),
        SignatureSet::single(&signature, key(2), vec![2], 0),
        SignatureSet::single(&signature, key(3), vec![3], 0),
    ];
    let seen = std::cell::Cell::new(0);
    let all = verify_signature_sets(&sets, &add_keys, &|_, _: &Vec<Vec<u8>>, _, _: &Vec<RawPublicKey>| {
        seen.set(seen.get() + 1);
        true
    });
    assert!(all);
    assert_eq!(seen.get(), 3);
    seen.set(0);
    let some = verify_signature_sets(&sets, &add_keys, &|_, m: &Vec<Vec<u8>>, _, _: &Vec<RawPublicKey>| {
        seen.set(seen.get() + 1);
        m[0] != vec![2]
    });
    assert!(!some);
    assert_eq!(seen.get(), 2);
    assert!(verify_signature_sets(&vec![], &add_keys, &|_, _: &Vec<Vec<u8>>, _, _: &Vec<RawPublicKey>| false));
}

#[test]
fn byte_strings_are_written_as_they_are() {
    let bytes = SszBytes(vec![1, 2, 3]);
    assert_eq!(ssz_encode(&bytes), vec![1, 2, 3]);
    assert_eq!(bytes.as_ssz_bytes(), vec![1, 2, 3]);
    assert_eq!(SszBytes::from_ssz_bytes(&[4, 5]), Ok(SszBytes(vec![4, 5])));
    assert!(!SszBytes::is_ssz_fixed_len());
    assert!(Signature::is_ssz_fixed_len());
}

#[test]
fn bytes_as_text() {
    assert_eq!(hex::encode(&[0x00, 0x1f, 0xa0, 0xff]), b"0x001fa0ff".to_vec());
    assert_eq!(hex::encode(&[]), b"0x".to_vec());
    assert_eq!(hex::decode(b"0x001fA0ff"), Some(vec![0x00, 0x1f, 0xa0, 0xff]));
    assert_eq!(hex::decode(b"0x"), Some(vec![]));
    assert_eq!(hex::decode(b"001f"), None);
    assert_eq!(hex::decode(b"0x1"), None);
    assert_eq!(hex::decode(b"0x1g"), None);
    assert_eq!(hex::decode(b""), None);
    let signature = Signature::new(&[42; 32], 1, sign);
    let text = hex::encode(&signature.as_bytes());
    assert_eq!(text.len(), 2 + 2 * 96);
    assert_eq!(hex::decode(&text), Some(signature.as_bytes()));
}

#[test]
fn secret_key_bytes_start_with_zero() {
    assert_eq!(secret_key_bytes_for_test(vec![9, 8, 7]), vec![0, 8, 7]);
    assert_eq!(secret_key_bytes_for_test(vec![]), Vec::<u8>::new());
}
