use rnot::crypto::{CryptoError, TokenEncryption};

fn enc() -> TokenEncryption {
    TokenEncryption::new(vec![7u8; 32])
}

#[test]
fn decrypt_recovers_what_encrypt_sealed() {
    let e = enc();
    let sealed = e.encrypt("123456:ABC-secret-token").unwrap();
    assert_eq!(e.decrypt(&sealed).unwrap(), "123456:ABC-secret-token");
}

#[test]
fn sealed_text_differs_from_the_token() {
    let e = enc();
    let sealed = e.encrypt("plain token").unwrap();
    assert_ne!(sealed, "plain token");
    assert!(!sealed.contains("plain token"));
}

#[test]
fn two_encryptions_of_one_token_differ_by_nonce() {
    let e = enc();
    let a = e.encrypt("token").unwrap();
    let b = e.encrypt("token").unwrap();
    assert_ne!(a, b);
    assert_eq!(e.decrypt(&a).unwrap(), e.decrypt(&b).unwrap());
}

#[test]
fn garbage_is_rejected_as_bad_encoding() {
    let e = enc();
    assert_eq!(e.decrypt("%%% not base64 %%%").unwrap_err(), CryptoError::BadEncoding);
}

#[test]
fn short_payload_is_rejected() {
    let e = enc();
    // "AAAA" is well-formed base64 for three bytes: too short for a nonce.
    assert_eq!(e.decrypt("AAAA").unwrap_err(), CryptoError::TooShort);
}

#[test]
fn unauthenticated_payload_is_rejected() {
    let e = enc();
    // Sixteen zero bytes: a nonce and four bytes that carry no valid tag.
    assert_eq!(
        e.decrypt("AAAAAAAAAAAAAAAAAAAAAA==").unwrap_err(),
        CryptoError::AuthFailed
    );
}

#[test]
fn wrong_key_fails_authentication() {
    let e = enc();
    let sealed = e.encrypt("token").unwrap();
    let other = TokenEncryption::new(vec![8u8; 32]);
    assert_eq!(other.decrypt(&sealed).unwrap_err(), CryptoError::AuthFailed);
}
