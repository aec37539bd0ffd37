use turtl_core::crypto;
use turtl_core::error::CryptoError;

fn hex(bytes: &[u8]) -> String {
    bytes.iter().map(|b| format!("{:02x}", b)).collect()
}

#[test]
fn writes_and_reads_base64() {
    assert_eq!(crypto::to_base64(&b"hello".to_vec()), "aGVsbG8=");
    assert_eq!(crypto::to_base64(&vec![0xfb, 0xff]), "+/8=");
    assert_eq!(crypto::to_base64(&Vec::new()), "");
    assert_eq!(crypto::from_base64("aGVsbG8="), Ok(b"hello".to_vec()));
    assert_eq!(crypto::from_base64("a"), Err(CryptoError::Base64));
}

#[test]
fn takes_the_cipher_that_was_found() {
    assert!(crypto::cipher_from(Err(())).is_none());
    let aes = crypto::cipher_from(crypto::cipher().ok_or(()));
    let sealed = crypto::encrypt_with(&aes, &vec![0u8; 12], &vec![0u8; 32], &[]).unwrap();
    assert_eq!(hex(&sealed), "000000000000000000000000530f8afbc74536b9a963b4f1c4cb738b");
}

#[test]
fn encrypts_with_aes_gcm() {
    let aes = crypto::cipher();
    assert!(aes.is_some());
    let nonce = vec![0u8; 12];
    let key = vec![0u8; 32];
    let sealed = crypto::encrypt_with(&aes, &nonce, &key, &[]).unwrap();
    assert_eq!(hex(&sealed), "000000000000000000000000530f8afbc74536b9a963b4f1c4cb738b");
    let sealed = crypto::encrypt_with(&aes, &nonce, &key, &[0u8; 16]).unwrap();
    assert_eq!(
        hex(&sealed),
        "000000000000000000000000cea7403d4d606b6e074ec5d3baf39d18d0d1c8a799996bf0265b98b5d48ab919"
    );
    assert_eq!(crypto::decrypt(&aes, &key, &sealed), Ok(vec![0u8; 16]));
}

#[test]
fn decrypts_what_it_encrypted() {
    let aes = crypto::cipher();
    let key = crypto::random_key().unwrap();
    assert_eq!(key.len(), 32);
    let one = crypto::encrypt(&aes, &key, b"message").unwrap();
    let two = crypto::encrypt(&aes, &key, b"message").unwrap();
    assert_ne!(one, two);
    assert_eq!(crypto::decrypt(&aes, &key, &one), Ok(b"message".to_vec()));
    assert_eq!(crypto::decrypt(&aes, &key, &two), Ok(b"message".to_vec()));
}

#[test]
fn refuses_what_it_cannot_use() {
    let aes = crypto::cipher();
    let key = vec![1u8; 32];
    let nonce = vec![2u8; 12];
    assert_eq!(crypto::encrypt(&None, &key, b"m"), Err(CryptoError::Unavailable));
    assert_eq!(crypto::encrypt_with(&None, &nonce, &key, b"m"), Err(CryptoError::Unavailable));
    assert_eq!(crypto::decrypt(&None, &key, &vec![0u8; 40]), Err(CryptoError::Unavailable));
    assert_eq!(crypto::encrypt(&aes, &vec![1u8; 16], b"m"), Err(CryptoError::BadKey));
    assert_eq!(crypto::decrypt(&aes, &vec![1u8; 33], &vec![0u8; 40]), Err(CryptoError::BadKey));
    assert_eq!(crypto::decrypt(&aes, &key, &vec![0u8; 11]), Err(CryptoError::BadData));
    assert_eq!(crypto::decrypt(&aes, &key, &vec![0u8; 12]), Err(CryptoError::Authentication));
    let mut sealed = crypto::encrypt(&aes, &key, b"m").unwrap();
    sealed[12] ^= 1;
    assert_eq!(crypto::decrypt(&aes, &key, &sealed), Err(CryptoError::Authentication));
}
