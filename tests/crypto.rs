use github_db::{Crypto, CryptoError, DbError};

#[test]
fn test_encryption_decryption() {
    let key = [0u8; 32];
    let crypto = Crypto::new(&key).unwrap();
    let data = b"Hello, World!";

    let encrypted = crypto.encrypt(data).unwrap();
    let decrypted = crypto.decrypt(&encrypted).unwrap();

    assert_eq!(data.to_vec(), decrypted);
}

#[test]
fn test_invalid_key_length() {
    let key = [0u8; 16];
    assert!(Crypto::new(&key).is_err());
}

#[test]
fn key_of_16_bytes_is_refused_and_32_accepted() {
    match Crypto::new(&[1u8; 16]) {
        Err(DbError::Encryption(CryptoError::InvalidKeyLength)) => {}
        _ => panic!("a 16-byte key must be refused"),
    }
    assert!(Crypto::new(&[1u8; 32]).is_ok());
    assert!(Crypto::new(&[1u8; 33]).is_err());
}

#[test]
fn sealed_blob_is_nonce_then_ciphertext_with_tag() {
    let crypto = Crypto::new(&[7u8; 32]).unwrap();
    let blob = crypto.encrypt(b"abc").unwrap();
    assert_eq!(blob.len(), 12 + 3 + 16);
    assert_ne!(&blob[12..15], b"abc");
}

#[test]
fn two_encryptions_of_the_same_plaintext_differ() {
    let crypto = Crypto::new(&[0u8; 32]).unwrap();
    let a = crypto.encrypt(b"same").unwrap();
    let b = crypto.encrypt(b"same").unwrap();
    assert_ne!(a[..12], b[..12]);
    assert_ne!(a, b);
    assert_eq!(crypto.decrypt(&a).unwrap(), b"same".to_vec());
    assert_eq!(crypto.decrypt(&b).unwrap(), b"same".to_vec());
}

#[test]
fn empty_plaintext_round_trips() {
    let crypto = Crypto::new(&[3u8; 32]).unwrap();
    let blob = crypto.encrypt(b"").unwrap();
    assert_eq!(crypto.decrypt(&blob).unwrap(), Vec::<u8>::new());
}

#[test]
fn flipping_any_byte_fails_authentication() {
    let crypto = Crypto::new(&[9u8; 32]).unwrap();
    let blob = crypto.encrypt(b"Classified").unwrap();
    for i in 0..blob.len() {
        let mut tampered = blob.clone();
        tampered[i] ^= 0x01;
        match crypto.decrypt(&tampered) {
            Err(DbError::Encryption(CryptoError::AuthenticationFailed)) => {}
            _ => panic!("tampering at byte {} went unnoticed", i),
        }
    }
}

#[test]
fn another_key_fails_authentication() {
    let a = Crypto::new(&[1u8; 32]).unwrap();
    let b = Crypto::new(&[2u8; 32]).unwrap();
    let blob = a.encrypt(b"x").unwrap();
    assert!(matches!(b.decrypt(&blob), Err(DbError::Encryption(CryptoError::AuthenticationFailed))));
}

#[test]
fn blob_shorter_than_a_nonce_is_invalid() {
    let crypto = Crypto::new(&[0u8; 32]).unwrap();
    assert!(matches!(crypto.decrypt(&[0u8; 11]), Err(DbError::Encryption(CryptoError::InvalidCiphertext))));
    assert!(matches!(crypto.decrypt(&[0u8; 12]), Err(DbError::Encryption(CryptoError::AuthenticationFailed))));
}
