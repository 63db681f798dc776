use aes_gcm::aead::{Aead, KeyInit};
use quickfetch::encryption::{EncryptionMethod, AESGCM, AESGCMSIV, ChaCha20Poly, KEY_SIZE, TAG_SIZE};
use quickfetch::error::{CryptoError, FetchError};
use quickfetch::store::{dec_or_clone, encrypt_bytes, encrypt_bytes_with_nonce, write_for, StoreOp};
use quickfetch::traits::{seal_record, split_record, NONCE_SIZE};

const KEY: &[u8; 32] = b"0123456789abcdef0123456789abcdef";
const OTHER_KEY: &[u8; 32] = b"fedcba9876543210fedcba9876543210";
const NONCE: [u8; 12] = [1, 2, 3, 4, 5, 6, 7, 8, 9, 10, 11, 12];

#[test]
fn sizes_of_the_envelope() {
    assert_eq!(NONCE_SIZE, 12);
    assert_eq!(KEY_SIZE, 32);
    assert_eq!(TAG_SIZE, 16);
}

#[test]
fn aes_gcm_record_is_nonce_then_ciphertext_with_tag() {
    let record = AESGCM.encrypt_with_nonce(b"payload", KEY, &NONCE).unwrap();
    assert_eq!(record.len(), 12 + 7 + 16);
    assert_eq!(&record[..12], &NONCE);
    let cipher = aes_gcm::Aes256Gcm::new_from_slice(KEY).unwrap();
    let expected = cipher.encrypt(aes_gcm::Nonce::from_slice(&NONCE), &b"payload"[..]).unwrap();
    assert_eq!(&record[12..], &expected[..]);
    assert_ne!(&record[12..19], b"payload");
}

#[test]
fn chacha_record_is_nonce_then_ciphertext_with_tag() {
    let record = ChaCha20Poly.encrypt_with_nonce(b"payload", KEY, &NONCE).unwrap();
    assert_eq!(record.len(), 12 + 7 + 16);
    assert_eq!(&record[..12], &NONCE);
    let cipher = chacha20poly1305::ChaCha20Poly1305::new_from_slice(KEY).unwrap();
    let expected =
        cipher.encrypt(chacha20poly1305::Nonce::from_slice(&NONCE), &b"payload"[..]).unwrap();
    assert_eq!(&record[12..], &expected[..]);
    assert_ne!(&record[12..19], b"payload");
}

#[test]
fn aes_gcm_siv_record_is_nonce_then_ciphertext_with_tag() {
    let record = AESGCMSIV.encrypt_with_nonce(b"payload", KEY, &NONCE).unwrap();
    assert_eq!(record.len(), 12 + 7 + 16);
    assert_eq!(&record[..12], &NONCE);
    let cipher = aes_gcm_siv::Aes256GcmSiv::new_from_slice(KEY).unwrap();
    let expected = cipher.encrypt(aes_gcm_siv::Nonce::from_slice(&NONCE), &b"payload"[..]).unwrap();
    assert_eq!(&record[12..], &expected[..]);
    assert_ne!(&record[12..19], b"payload");
}

#[test]
fn the_three_ciphers_give_different_records() {
    let a = AESGCM.encrypt_with_nonce(b"payload", KEY, &NONCE).unwrap();
    let b = ChaCha20Poly.encrypt_with_nonce(b"payload", KEY, &NONCE).unwrap();
    let c = AESGCMSIV.encrypt_with_nonce(b"payload", KEY, &NONCE).unwrap();
    assert_ne!(a, b);
    assert_ne!(a, c);
    assert_ne!(b, c);
}

#[test]
fn sealing_with_a_given_nonce_is_repeatable() {
    let a = AESGCM.encrypt_with_nonce(b"same", KEY, &NONCE).unwrap();
    let b = AESGCM.encrypt_with_nonce(b"same", KEY, &NONCE).unwrap();
    assert_eq!(a, b);
    let mut other = NONCE;
    other[0] = 0;
    assert_ne!(a, AESGCM.encrypt_with_nonce(b"same", KEY, &other).unwrap());
}

#[test]
fn aes_gcm_round_trip() {
    let record = AESGCM.encrypt(b"top secret", KEY).unwrap();
    assert_eq!(record.len(), 12 + 10 + 16);
    assert_eq!(AESGCM.decrypt(&record, KEY), Ok(b"top secret".to_vec()));
}

#[test]
fn chacha_round_trip() {
    let record = ChaCha20Poly.encrypt(b"top secret", KEY).unwrap();
    assert_eq!(record.len(), 12 + 10 + 16);
    assert_eq!(ChaCha20Poly.decrypt(&record, KEY), Ok(b"top secret".to_vec()));
}

#[test]
fn aes_gcm_siv_round_trip() {
    let record = AESGCMSIV.encrypt(b"top secret", KEY).unwrap();
    assert_eq!(record.len(), 12 + 10 + 16);
    assert_eq!(AESGCMSIV.decrypt(&record, KEY), Ok(b"top secret".to_vec()));
}

#[test]
fn empty_plaintext_round_trip() {
    let record = AESGCM.encrypt(b"", KEY).unwrap();
    assert_eq!(record.len(), 12 + 16);
    assert_eq!(AESGCM.decrypt(&record, KEY), Ok(Vec::new()));
}

#[test]
fn fresh_nonces_differ() {
    let a = AESGCM.encrypt(b"same", KEY).unwrap();
    let b = AESGCM.encrypt(b"same", KEY).unwrap();
    assert_ne!(&a[..12], &b[..12]);
    assert_ne!(a, b);
    assert_eq!(AESGCM.decrypt(&a, KEY), AESGCM.decrypt(&b, KEY));
}

#[test]
fn a_key_of_the_wrong_length_is_refused() {
    for key in [&b""[..], &b"short"[..], &[0u8; 31][..], &[0u8; 33][..], &[0u8; 64][..]] {
        assert_eq!(AESGCM.encrypt(b"x", key), Err(CryptoError::KeyLength));
        assert_eq!(AESGCM.encrypt_with_nonce(b"x", key, &NONCE), Err(CryptoError::KeyLength));
        assert_eq!(AESGCM.decrypt(&[0u8; 40], key), Err(CryptoError::KeyLength));
        assert_eq!(ChaCha20Poly.encrypt(b"x", key), Err(CryptoError::KeyLength));
        assert_eq!(ChaCha20Poly.decrypt(&[0u8; 40], key), Err(CryptoError::KeyLength));
        assert_eq!(AESGCMSIV.encrypt(b"x", key), Err(CryptoError::KeyLength));
        assert_eq!(AESGCMSIV.decrypt(&[0u8; 40], key), Err(CryptoError::KeyLength));
    }
}

#[test]
fn the_key_is_checked_before_the_envelope() {
    assert_eq!(AESGCM.decrypt(&[0u8; 3], b"short"), Err(CryptoError::KeyLength));
    assert_eq!(EncryptionMethod::AesGcm.decrypt(&[], b"short"), Err(CryptoError::KeyLength));
}

#[test]
fn a_record_shorter_than_a_nonce_is_malformed() {
    for len in 0..12 {
        let record = vec![0u8; len];
        assert_eq!(AESGCM.decrypt(&record, KEY), Err(CryptoError::Envelope));
        assert_eq!(ChaCha20Poly.decrypt(&record, KEY), Err(CryptoError::Envelope));
        assert_eq!(AESGCMSIV.decrypt(&record, KEY), Err(CryptoError::Envelope));
    }
}

#[test]
fn a_record_without_a_whole_tag_fails_authentication() {
    for len in 12..28 {
        let record = vec![0u8; len];
        assert_eq!(AESGCM.decrypt(&record, KEY), Err(CryptoError::Tag));
    }
}

#[test]
fn an_altered_record_fails_authentication() {
    let record = AESGCM.encrypt_with_nonce(b"payload", KEY, &NONCE).unwrap();
    for at in 0..record.len() {
        let mut altered = record.clone();
        altered[at] ^= 1;
        assert_eq!(AESGCM.decrypt(&altered, KEY), Err(CryptoError::Tag));
    }
    assert_eq!(AESGCM.decrypt(&record, KEY), Ok(b"payload".to_vec()));
}

#[test]
fn another_key_fails_authentication() {
    let record = ChaCha20Poly.encrypt(b"payload", KEY).unwrap();
    assert_eq!(ChaCha20Poly.decrypt(&record, OTHER_KEY), Err(CryptoError::Tag));
}

#[test]
fn another_cipher_fails_authentication() {
    let record = AESGCM.encrypt(b"payload", KEY).unwrap();
    assert_eq!(ChaCha20Poly.decrypt(&record, KEY), Err(CryptoError::Tag));
    assert_eq!(AESGCMSIV.decrypt(&record, KEY), Err(CryptoError::Tag));
}

#[test]
fn the_nonce_is_the_first_twelve_bytes_not_half_the_record() {
    let plain = vec![7u8; 100];
    let record = AESGCM.encrypt_with_nonce(&plain, KEY, &NONCE).unwrap();
    assert_eq!(record.len(), 128);
    let cipher = aes_gcm::Aes256Gcm::new_from_slice(KEY).unwrap();
    let by_hand = cipher.decrypt(aes_gcm::Nonce::from_slice(&record[..12]), &record[12..]).unwrap();
    assert_eq!(by_hand, plain);
    assert_eq!(AESGCM.decrypt(&record, KEY), Ok(plain));
}

#[test]
fn the_enum_uses_the_cipher_it_names() {
    let a = EncryptionMethod::AesGcm.encrypt_with_nonce(b"data", KEY, &NONCE).unwrap();
    assert_eq!(a, AESGCM.encrypt_with_nonce(b"data", KEY, &NONCE).unwrap());
    let c = EncryptionMethod::Chacha20Poly1305.encrypt_with_nonce(b"data", KEY, &NONCE).unwrap();
    assert_eq!(c, ChaCha20Poly.encrypt_with_nonce(b"data", KEY, &NONCE).unwrap());
    assert_eq!(EncryptionMethod::AesGcm.decrypt(&a, KEY), Ok(b"data".to_vec()));
    assert_eq!(EncryptionMethod::Chacha20Poly1305.decrypt(&c, KEY), Ok(b"data".to_vec()));
    let s = EncryptionMethod::AesGcmSiv.encrypt_with_nonce(b"data", KEY, &NONCE).unwrap();
    assert_eq!(s, AESGCMSIV.encrypt_with_nonce(b"data", KEY, &NONCE).unwrap());
    assert_eq!(EncryptionMethod::AesGcmSiv.decrypt(&s, KEY), Ok(b"data".to_vec()));
    assert_eq!(EncryptionMethod::AesGcmSiv.decrypt(&a, KEY), Err(CryptoError::Tag));
    assert_eq!(EncryptionMethod::AesGcm.decrypt(&c, KEY), Err(CryptoError::Tag));
    assert_eq!(EncryptionMethod::Chacha20Poly1305.decrypt(&a, KEY), Err(CryptoError::Tag));
}

#[test]
fn the_enum_round_trip_with_a_fresh_nonce() {
    for method in [
        EncryptionMethod::AesGcm,
        EncryptionMethod::Chacha20Poly1305,
        EncryptionMethod::AesGcmSiv,
    ] {
        let record = method.encrypt(b"data", KEY).unwrap();
        assert_eq!(record.len(), 12 + 4 + 16);
        assert_eq!(method.decrypt(&record, KEY), Ok(b"data".to_vec()));
        assert_eq!(method.encrypt(b"data", b"short"), Err(CryptoError::KeyLength));
        assert_eq!(method.decrypt(&[1, 2, 3], KEY), Err(CryptoError::Envelope));
    }
}

#[test]
fn seal_record_puts_the_nonce_in_front() {
    assert_eq!(seal_record(&NONCE, Some(vec![0xAA, 0xBB])), Ok(vec![
        1, 2, 3, 4, 5, 6, 7, 8, 9, 10, 11, 12, 0xAA, 0xBB
    ]));
    assert_eq!(seal_record(&NONCE, Some(Vec::new())), Ok(NONCE.to_vec()));
    assert_eq!(seal_record(&NONCE, None), Err(CryptoError::Seal));
}

#[test]
fn split_record_cuts_after_twelve_bytes() {
    let record: Vec<u8> = (0u8..20).collect();
    let (nonce, sealed) = split_record(&record).unwrap();
    assert_eq!(nonce, [0, 1, 2, 3, 4, 5, 6, 7, 8, 9, 10, 11]);
    assert_eq!(sealed, &[12u8, 13, 14, 15, 16, 17, 18, 19][..]);
    let (nonce, sealed) = split_record(&record[..12]).unwrap();
    assert_eq!(nonce, [0, 1, 2, 3, 4, 5, 6, 7, 8, 9, 10, 11]);
    assert!(sealed.is_empty());
    assert!(split_record(&record[..11]).is_none());
    assert!(split_record(&[]).is_none());
}

#[test]
fn without_a_cipher_a_record_is_the_bytes() {
    assert_eq!(encrypt_bytes(&None, b"plain", b"any key"), Ok(b"plain".to_vec()));
    assert_eq!(encrypt_bytes_with_nonce(&None, b"plain", b"k", &NONCE), Ok(b"plain".to_vec()));
    assert_eq!(dec_or_clone(&None, b"plain", b"any key"), Ok(b"plain".to_vec()));
    assert_eq!(dec_or_clone(&None, b"", b""), Ok(Vec::new()));
}

#[test]
fn with_a_cipher_a_record_is_sealed() {
    let cipher = Some(EncryptionMethod::AesGcm);
    let record = encrypt_bytes(&cipher, b"plain", KEY).unwrap();
    assert_eq!(record.len(), 12 + 5 + 16);
    assert_ne!(&record[..], b"plain");
    assert_eq!(dec_or_clone(&cipher, &record, KEY), Ok(b"plain".to_vec()));
    assert_eq!(dec_or_clone(&cipher, b"plain", KEY), Err(CryptoError::Envelope));
    assert_eq!(encrypt_bytes(&cipher, b"plain", b"k"), Err(CryptoError::KeyLength));
    let fixed = encrypt_bytes_with_nonce(&cipher, b"plain", KEY, &NONCE).unwrap();
    assert_eq!(fixed, AESGCM.encrypt_with_nonce(b"plain", KEY, &NONCE).unwrap());
}

#[test]
fn write_for_inserts_on_a_miss_and_swaps_otherwise() {
    assert_eq!(
        write_for(vec![1], None, vec![2]),
        StoreOp::Insert { key: vec![1], value: vec![2] }
    );
    assert_eq!(
        write_for(vec![1], Some(vec![3]), vec![2]),
        StoreOp::CompareAndSwap { key: vec![1], expected: vec![3], desired: vec![2] }
    );
}

#[test]
fn error_messages() {
    assert_eq!(CryptoError::KeyLength.message(), "the key has the wrong length for the cipher");
    assert_eq!(CryptoError::Entropy.message(), "no random bytes for a nonce");
    assert_eq!(CryptoError::Seal.message(), "the plaintext cannot be sealed");
    assert_eq!(CryptoError::Envelope.message(), "the record is shorter than a nonce");
    assert_eq!(CryptoError::Tag.message(), "the record fails authentication");
    assert_eq!(FetchError::Config.message(), "configuration error");
    assert_eq!(FetchError::Store.message(), "store error");
    assert_eq!(FetchError::Network.message(), "network error");
    assert_eq!(FetchError::Filesystem.message(), "filesystem error");
    assert_eq!(FetchError::Url.message(), "the URL names no file");
    assert_eq!(FetchError::Crypto(CryptoError::Tag).message(), CryptoError::Tag.message());
}
