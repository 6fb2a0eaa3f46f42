//! Token sealing: AES-256-GCM under a caller-supplied key, a fresh nonce
//! in front of the ciphertext, the whole blob base64-encoded.

use vstd::prelude::*;
use vstd::utf8::{decode_utf8, encode_utf8, valid_utf8};

use aes_gcm::aead::{Aead, KeyInit};
use aes_gcm::{Aes256Gcm, Nonce};
use base64::Engine;
use rand::RngCore;

verus! {

/// Number of nonce bytes stored in front of the ciphertext.
pub const NONCE_SIZE: usize = 12;

/// What AES-256-GCM sealing returns for a key, nonce and plaintext:
/// ciphertext with the authentication tag appended, a function of the
/// three inputs alone.
pub uninterp spec fn aes_seal(key: Seq<u8>, nonce: Seq<u8>, plaintext: Seq<u8>) -> Seq<u8>;

/// What AES-256-GCM opening returns: the plaintext when the ciphertext
/// authenticates under the key and nonce, nothing otherwise.
pub uninterp spec fn aes_open(key: Seq<u8>, nonce: Seq<u8>, ciphertext: Seq<u8>) -> Option<
    Seq<u8>,
>;

/// What base64 standard encoding returns for the bytes.
pub uninterp spec fn b64_of(bytes: Seq<u8>) -> Seq<char>;

/// What base64 standard decoding returns: the bytes, when the string is
/// well-formed base64.
pub uninterp spec fn b64_decoded(s: Seq<char>) -> Option<Seq<u8>>;

/// Relies on aes_gcm's `Aes256Gcm::encrypt`: deterministic in key, nonce
/// and plaintext, and correct as an AEAD, so what was sealed opens to the
/// same plaintext under the same key and nonce.
#[verifier::external_body]
fn seal_bytes(key: &Vec<u8>, nonce: &Vec<u8>, plaintext: &[u8]) -> (r: Option<Vec<u8>>)
    requires
        key@.len() == 32,
        nonce@.len() == 12,
    ensures
        r is Some ==> r.unwrap()@ == aes_seal(key@, nonce@, plaintext@),
        r is Some ==> aes_open(key@, nonce@, aes_seal(key@, nonce@, plaintext@)) == Some(
            plaintext@,
        ),
{
    let cipher = match Aes256Gcm::new_from_slice(key.as_slice()) {
        Ok(c) => c,
        Err(_) => return None,
    };
    cipher.encrypt(Nonce::from_slice(nonce.as_slice()), plaintext).ok()
}

/// Relies on aes_gcm's `Aes256Gcm::decrypt`: authenticated opening, a
/// function of key, nonce and ciphertext alone.
#[verifier::external_body]
fn open_bytes(key: &Vec<u8>, nonce: &[u8], ciphertext: &[u8]) -> (r: Option<Vec<u8>>)
    requires
        key@.len() == 32,
        nonce@.len() == 12,
    ensures
        match r {
            Some(p) => aes_open(key@, nonce@, ciphertext@) == Some(p@),
            None => aes_open(key@, nonce@, ciphertext@) is None,
        },
{
    let cipher = match Aes256Gcm::new_from_slice(key.as_slice()) {
        Ok(c) => c,
        Err(_) => return None,
    };
    cipher.decrypt(Nonce::from_slice(nonce), ciphertext).ok()
}

/// Relies on base64's STANDARD engine: encoding is a function of the
/// bytes, and decoding what was encoded yields the same bytes back.
#[verifier::external_body]
fn b64_encode(bytes: &Vec<u8>) -> (r: String)
    ensures
        r@ == b64_of(bytes@),
        b64_decoded(r@) == Some(bytes@),
{
    base64::engine::general_purpose::STANDARD.encode(bytes.as_slice())
}

/// Relies on base64's STANDARD engine for decoding.
#[verifier::external_body]
fn b64_decode(s: &str) -> (r: Option<Vec<u8>>)
    ensures
        match r {
            Some(b) => b64_decoded(s@) == Some(b@),
            None => b64_decoded(s@) is None,
        },
{
    base64::engine::general_purpose::STANDARD.decode(s).ok()
}

/// Relies on rand's thread_rng to fill the nonce; nothing is promised of
/// the bytes beyond their count.
#[verifier::external_body]
fn random_nonce() -> (r: Vec<u8>)
    ensures
        r@.len() == 12,
{
    let mut nonce = [0u8; 12];
    rand::thread_rng().fill_bytes(&mut nonce);
    nonce.to_vec()
}

/// Relies on `String::from_utf8`: succeeds exactly on valid UTF-8 and
/// returns the string those bytes encode.
#[verifier::external_body]
fn bytes_to_string(v: Vec<u8>) -> (r: Option<String>)
    ensures
        r is Some <==> valid_utf8(v@),
        r is Some ==> r.unwrap()@ == decode_utf8(v@),
{
    String::from_utf8(v).ok()
}

/// Why sealing or opening a token failed.
#[derive(Debug, Clone, Copy, PartialEq, Eq, Structural)]
pub enum CryptoError {
    /// The cipher refused to seal the plaintext.
    EncryptFailed,
    /// The stored text is not well-formed base64.
    BadEncoding,
    /// The decoded payload is too short to hold a nonce.
    TooShort,
    /// The ciphertext does not authenticate under the key.
    AuthFailed,
    /// The decrypted bytes are not valid UTF-8.
    BadUtf8,
}

/// Seals and opens secret tokens with AES-256-GCM under one
/// thirty-two-byte key.
pub struct TokenEncryption {
    key: Vec<u8>,
}

impl TokenEncryption {
    /// The key this component seals with.
    pub closed spec fn key_view(&self) -> Seq<u8> {
        self.key@
    }

    #[verifier::type_invariant]
    closed spec fn inv(self) -> bool {
        self.key@.len() == 32
    }

    /// A component sealing under the given thirty-two-byte key. The caller
    /// owns key creation and storage.
    pub fn new(key: Vec<u8>) -> (r: TokenEncryption)
        requires
            key@.len() == 32,
        ensures
            r.key_view() == key@,
    {
        TokenEncryption { key }
    }

    /// Seals a token: a fresh twelve-byte nonce, then the ciphertext, the
    /// whole base64-encoded. Whatever nonce was drawn, opening the result
    /// under the same key recovers the token's UTF-8 bytes.
    pub fn encrypt(&self, plaintext: &str) -> (r: Result<String, CryptoError>)
        ensures
            r is Ok ==> exists|n: Seq<u8>|
                {
                    &&& n.len() == 12
                    &&& #[trigger] b64_decoded(r.unwrap()@) == Some(
                        n + aes_seal(self.key_view(), n, encode_utf8(plaintext@)),
                    )
                    &&& aes_open(
                        self.key_view(),
                        n,
                        aes_seal(self.key_view(), n, encode_utf8(plaintext@)),
                    ) == Some(encode_utf8(plaintext@))
                },
            r is Err ==> r == Err::<String, CryptoError>(CryptoError::EncryptFailed),
    {
        proof {
            use_type_invariant(self);
        }
        let nonce = random_nonce();
        let ghost n: Seq<u8> = nonce@;
        let sealed = seal_bytes(&self.key, &nonce, plaintext.as_bytes());
        match sealed {
            None => Err(CryptoError::EncryptFailed),
            Some(ct) => {
                let ghost ct_view: Seq<u8> = ct@;
                let mut blob = nonce;
                let mut tail = ct;
                blob.append(&mut tail);
                proof {
                    assert(blob@ == n + ct_view);
                }
                let out = b64_encode(&blob);
                Ok(out)
            },
        }
    }

    /// Opens a sealed token: base64-decode, split off the twelve-byte
    /// nonce, authenticate and decrypt, decode the UTF-8 plaintext. Each
    /// error names the first step that failed.
    pub fn decrypt(&self, encrypted: &str) -> (r: Result<String, CryptoError>)
        ensures
            match b64_decoded(encrypted@) {
                None => r == Err::<String, CryptoError>(CryptoError::BadEncoding),
                Some(blob) => {
                    if blob.len() < 12 {
                        r == Err::<String, CryptoError>(CryptoError::TooShort)
                    } else {
                        match aes_open(self.key_view(), blob.take(12), blob.skip(12)) {
                            None => r == Err::<String, CryptoError>(CryptoError::AuthFailed),
                            Some(p) => {
                                if valid_utf8(p) {
                                    r is Ok && r.unwrap()@ == decode_utf8(p)
                                } else {
                                    r == Err::<String, CryptoError>(CryptoError::BadUtf8)
                                }
                            },
                        }
                    }
                },
            },
    {
        proof {
            use_type_invariant(self);
        }
        let decoded = match b64_decode(encrypted) {
            Some(d) => d,
            None => {
                return Err(CryptoError::BadEncoding);
            },
        };
        if decoded.len() < 12 {
            return Err(CryptoError::TooShort);
        }
        let (nonce_part, ct_part) = decoded.as_slice().split_at(12);
        proof {
            assert(nonce_part@ =~= decoded@.take(12));
            assert(ct_part@ =~= decoded@.skip(12));
        }
        let opened = open_bytes(&self.key, nonce_part, ct_part);
        match opened {
            None => Err(CryptoError::AuthFailed),
            Some(p) => {
                let ghost p_view: Seq<u8> = p@;
                match bytes_to_string(p) {
                    Some(s) => Ok(s),
                    None => Err(CryptoError::BadUtf8),
                }
            },
        }
    }
}

} // verus!
