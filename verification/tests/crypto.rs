use frostwall::crypto::{
    confirmation_mac, decrypt_chunk, encrypt_chunk, macs_equal, seal_with_nonce, CryptoError,
    SessionKeys, NONCE_LEN, TAG_LEN,
};

#[test]
fn derive_is_deterministic_for_same_secret() {
    let a = SessionKeys::derive(b"secret-1");
    let b = SessionKeys::derive(b"secret-1");
    assert_eq!(a.file_key, b.file_key);
    assert_eq!(a.confirm_a, b.confirm_a);
    assert_eq!(a.confirm_b, b.confirm_b);
    assert_eq!(a.liveness_key, b.liveness_key);
}

#[test]
fn derive_differs_for_different_secrets() {
    let a = SessionKeys::derive(b"secret-1");
    let b = SessionKeys::derive(b"secret-2");
    assert_ne!(a.file_key, b.file_key);
    assert_ne!(a.liveness_key, b.liveness_key);
}

#[test]
fn derive_gives_each_purpose_its_own_key() {
    let k = SessionKeys::derive(b"secret");
    let keys = [k.file_key, k.confirm_a, k.confirm_b, k.control_key, k.liveness_key];
    for i in 0..keys.len() {
        for j in i + 1..keys.len() {
            assert_ne!(keys[i], keys[j]);
        }
    }
}

#[test]
fn chunk_round_trips() {
    let key = SessionKeys::derive(b"k").file_key;
    let msg = b"hello world payload";
    let ct = encrypt_chunk(&key, msg).unwrap();
    assert_ne!(&ct[..], &msg[..]);
    let pt = decrypt_chunk(&key, &ct).unwrap();
    assert_eq!(pt, msg);
}

#[test]
fn chunk_round_trips_large() {
    let key = SessionKeys::derive(b"k").file_key;
    let msg = vec![0xABu8; 1_000_000];
    let ct = encrypt_chunk(&key, &msg).unwrap();
    let pt = decrypt_chunk(&key, &ct).unwrap();
    assert_eq!(pt, msg);
}

#[test]
fn chunk_two_encryptions_differ_for_same_plaintext() {
    let key = SessionKeys::derive(b"k").file_key;
    let a = encrypt_chunk(&key, b"same").unwrap();
    let b = encrypt_chunk(&key, b"same").unwrap();
    assert_ne!(a, b);
}

#[test]
fn decrypt_with_wrong_key_fails() {
    let k1 = SessionKeys::derive(b"a").file_key;
    let k2 = SessionKeys::derive(b"b").file_key;
    let ct = encrypt_chunk(&k1, b"secret").unwrap();
    assert!(decrypt_chunk(&k2, &ct).is_err());
}

#[test]
fn decrypt_tampered_fails() {
    let key = SessionKeys::derive(b"k").file_key;
    let mut ct = encrypt_chunk(&key, b"secret").unwrap();
    let last = ct.len() - 1;
    ct[last] ^= 0xFF;
    assert!(decrypt_chunk(&key, &ct).is_err());
}

#[test]
fn decrypt_tells_a_missing_nonce_from_a_bad_tag() {
    let key = SessionKeys::derive(b"k").file_key;
    assert_eq!(decrypt_chunk(&key, &[0u8; NONCE_LEN - 1]), Err(CryptoError::ShorterThanNonce));
    assert_eq!(decrypt_chunk(&key, &[0u8; NONCE_LEN]), Err(CryptoError::Decrypt));
}

#[test]
fn sealing_puts_the_nonce_in_front_and_is_deterministic() {
    let key = SessionKeys::derive(b"k").file_key;
    let nonce = [7u8; NONCE_LEN];
    let a = seal_with_nonce(&key, &nonce, b"payload").unwrap();
    let b = seal_with_nonce(&key, &nonce, b"payload").unwrap();
    assert_eq!(a, b);
    assert_eq!(&a[..NONCE_LEN], &nonce[..]);
    assert_eq!(a.len(), NONCE_LEN + 7 + TAG_LEN);
    assert_eq!(decrypt_chunk(&key, &a).unwrap(), b"payload");
}

#[test]
fn confirmation_mac_is_deterministic() {
    let keys = SessionKeys::derive(b"secret");
    let m1 = confirmation_mac(&keys.confirm_a, b"A->B");
    let m2 = confirmation_mac(&keys.confirm_a, b"A->B");
    assert_eq!(m1, m2);
}

#[test]
fn confirmation_mac_differs_by_key() {
    let keys = SessionKeys::derive(b"secret");
    let from_a = confirmation_mac(&keys.confirm_a, b"confirm");
    let from_b = confirmation_mac(&keys.confirm_b, b"confirm");
    assert_ne!(from_a, from_b);
}

#[test]
fn confirmation_mac_matches_the_published_vector() {
    // RFC 4231, first test case, with the key padded to the block by zeros.
    let mut key = [0u8; 32];
    for b in key.iter_mut().take(20) {
        *b = 0x0b;
    }
    let mac = confirmation_mac(&key, b"Hi There");
    assert_eq!(mac[..4], [0xb0, 0x34, 0x4c, 0x61]);
    assert_eq!(mac[28..], [0x2e, 0x32, 0xcf, 0xf7]);
}

#[test]
fn macs_compare_by_length_and_bytes() {
    assert!(macs_equal(b"abc", b"abc"));
    assert!(!macs_equal(b"abc", b"abd"));
    assert!(!macs_equal(b"abc", b"abcd"));
    assert!(macs_equal(b"", b""));
}

#[test]
fn other_nonces_give_other_bytes() {
    let key = [7u8; 32];
    let a = seal_with_nonce(&key, &[1u8; NONCE_LEN], b"same").unwrap();
    let b = seal_with_nonce(&key, &[2u8; NONCE_LEN], b"same").unwrap();
    assert_ne!(a, b);
    assert_eq!(decrypt_chunk(&key, &a).unwrap(), b"same");
    assert_eq!(decrypt_chunk(&key, &b).unwrap(), b"same");
}

#[test]
fn anything_shorter_than_a_nonce_and_a_tag_is_refused() {
    for n in 0..NONCE_LEN + TAG_LEN {
        assert!(decrypt_chunk(&[7u8; 32], &vec![0u8; n]).is_err(), "{n}");
    }
}
