use base64::Engine;
use seedenv::crypto::{
    decode_public_key, encrypt_secret, has_small_order, key_from_decoded, seal_initialised,
    CryptoError,
};
use sodiumoxide::crypto::{box_, sealedbox};

fn b64(bytes: &[u8]) -> String {
    base64::engine::general_purpose::STANDARD.encode(bytes)
}

fn open(ciphertext: &str, pk: &box_::PublicKey, sk: &box_::SecretKey) -> Vec<u8> {
    let bytes = base64::engine::general_purpose::STANDARD.decode(ciphertext).unwrap();
    sealedbox::open(&bytes, pk, sk).unwrap()
}

#[test]
fn malformed_base64_key_is_a_crypto_error() {
    assert_eq!(encrypt_secret("value", "not base64!!").unwrap_err(), CryptoError::InvalidKeyEncoding);
    assert_eq!(decode_public_key("***").unwrap_err(), CryptoError::InvalidKeyEncoding);
}

#[test]
fn key_of_wrong_length_is_a_crypto_error() {
    let short = b64(&[7u8; 16]);
    assert_eq!(encrypt_secret("value", &short).unwrap_err(), CryptoError::InvalidKeyLength);
}

#[test]
fn decoded_key_bytes_are_checked() {
    assert_eq!(key_from_decoded(None).unwrap_err(), CryptoError::InvalidKeyEncoding);
    assert_eq!(key_from_decoded(Some(vec![1u8; 31])).unwrap_err(), CryptoError::InvalidKeyLength);
    assert_eq!(key_from_decoded(Some(vec![1u8; 33])).unwrap_err(), CryptoError::InvalidKeyLength);
    assert_eq!(key_from_decoded(Some((0u8..32).collect())).unwrap(), {
        let mut k = [0u8; 32];
        for (i, b) in k.iter_mut().enumerate() {
            *b = i as u8;
        }
        k
    });
}

#[test]
fn sealing_is_randomised_and_opens_to_the_plaintext() {
    sodiumoxide::init().unwrap();
    let (pk, sk) = box_::gen_keypair();
    let key = b64(&pk.0);
    let c1 = encrypt_secret("s3cret value", &key).unwrap();
    let c2 = encrypt_secret("s3cret value", &key).unwrap();
    assert_ne!(c1, c2);
    assert_eq!(open(&c1, &pk, &sk), b"s3cret value".to_vec());
    assert_eq!(open(&c2, &pk, &sk), b"s3cret value".to_vec());
}

#[test]
fn ciphertext_is_48_bytes_longer_than_the_message() {
    sodiumoxide::init().unwrap();
    let (pk, _sk) = box_::gen_keypair();
    let c = encrypt_secret("abc", &b64(&pk.0)).unwrap();
    let bytes = base64::engine::general_purpose::STANDARD.decode(&c).unwrap();
    assert_eq!(bytes.len(), 3 + 48);
    assert_ne!(c, "abc");
}

#[test]
fn empty_plaintext_is_sealed() {
    sodiumoxide::init().unwrap();
    let (pk, sk) = box_::gen_keypair();
    let c = encrypt_secret("", &b64(&pk.0)).unwrap();
    assert_eq!(open(&c, &pk, &sk), Vec::<u8>::new());
}

#[test]
fn decoded_key_is_the_base64_bytes() {
    let bytes = [9u8; 32];
    assert_eq!(decode_public_key(&b64(&bytes)).unwrap(), bytes);
}

#[test]
fn message_of_ordinary_length_is_not_too_long() {
    sodiumoxide::init().unwrap();
    let (pk, sk) = box_::gen_keypair();
    let long = "x".repeat(100_000);
    let c = encrypt_secret(&long, &b64(&pk.0)).unwrap();
    assert_eq!(open(&c, &pk, &sk), long.into_bytes());
}

#[test]
fn small_order_keys_are_refused() {
    let zero = "AAAAAAAAAAAAAAAAAAAAAAAAAAAAAAAAAAAAAAAAAAA=";
    assert_eq!(encrypt_secret("value", zero).unwrap_err(), CryptoError::SmallOrderKey);
    let mut one = [0u8; 32];
    one[0] = 1;
    assert_eq!(key_from_decoded(Some(one.to_vec())).unwrap_err(), CryptoError::SmallOrderKey);
    let mut p_high = [0xffu8; 32];
    p_high[0] = 0xed;
    assert!(has_small_order(&p_high));
    p_high[31] = 0x7f;
    assert!(has_small_order(&p_high));
    assert!(!has_small_order(&[9u8; 32]));
}

#[test]
fn sealing_fails_only_without_initialisation() {
    sodiumoxide::init().unwrap();
    let (pk, sk) = box_::gen_keypair();
    let key = b64(&pk.0);
    assert_eq!(seal_initialised(false, "v", &key).unwrap_err(), CryptoError::InitFailed);
    assert_eq!(seal_initialised(false, "v", "!!").unwrap_err(), CryptoError::InvalidKeyEncoding);
    let c = seal_initialised(true, "v", &key).unwrap();
    assert_eq!(open(&c, &pk, &sk), b"v".to_vec());
}

#[test]
fn empty_plaintext_seals_to_48_bytes() {
    sodiumoxide::init().unwrap();
    let (pk, _sk) = box_::gen_keypair();
    let c = encrypt_secret("", &b64(&pk.0)).unwrap();
    let bytes = base64::engine::general_purpose::STANDARD.decode(&c).unwrap();
    assert_eq!(bytes.len(), 48);
}
