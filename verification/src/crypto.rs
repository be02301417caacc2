//! Encryption-at-rest primitives, behind trusted declarations.
//!
//! Key derivation is Argon2id over a passphrase and a random salt;
//! encryption is XChaCha20-Poly1305 with a fresh 24-byte nonce per call.
//! What each outside call returns is stated over two named results:
//! [`xchacha_open`], the deterministic authenticated-decryption function,
//! and [`b64_of`]/[`b64_decode_of`] for the standard base64 alphabet that
//! the structured-text wrapper uses.  Everything downstream of these calls
//! is verified against those statements.

use vstd::prelude::*;

use argon2::Argon2;
use base64::Engine as _;
use base64::engine::general_purpose;
use chacha20poly1305::XChaCha20Poly1305;
use chacha20poly1305::XNonce;
use chacha20poly1305::aead::{Aead, KeyInit};
use rand::Rng as _;
use zeroize::Zeroize;

verus! {

/// The 32-byte key that Argon2id derives from a passphrase, a salt and the
/// three cost parameters.  A function of its arguments alone.
pub uninterp spec fn derived_key_of(
    passphrase: Seq<char>,
    salt: Seq<u8>,
    memory_kib: u32,
    iterations: u32,
    parallelism: u32,
) -> Seq<u8>;

/// What XChaCha20-Poly1305 authenticated decryption yields for a key, nonce
/// and ciphertext: the plaintext, or nothing when the tag does not check.
/// A function of its arguments alone.
pub uninterp spec fn xchacha_open(key: Seq<u8>, nonce: Seq<u8>, ct: Seq<u8>) -> Option<
    Seq<u8>,
>;

/// The standard-alphabet, padded base64 encoding of a byte string, as ASCII
/// bytes.  A function of its argument alone.
pub uninterp spec fn b64_of(b: Seq<u8>) -> Seq<u8>;

/// What standard-alphabet base64 decoding yields: the decoded bytes, or
/// nothing for a malformed encoding.  A function of its argument alone.
pub uninterp spec fn b64_decode_of(s: Seq<u8>) -> Option<Seq<u8>>;

/// The smallest plaintext length the cipher refuses: at this many bytes
/// its 64-byte-block counter would overflow.  Everything shorter is
/// accepted deterministically.
pub open spec fn aead_max_plaintext_len() -> int {
    0x3FFFFFFFC0
}

/// Bytes the standard base64 alphabet can produce (including padding).
pub open spec fn is_b64_byte(b: u8) -> bool {
    (65 <= b <= 90)  // A-Z
    || (97 <= b <= 122)  // a-z
    || (48 <= b <= 57)  // 0-9
    || b == 43  // +
    || b == 47  // /
    || b == 61  // =
}

/// Derive the 32-byte encryption key.
///
/// Relies on `argon2::Argon2::hash_password_into` (Argon2id, version 0x13):
/// deterministic in the passphrase, salt and cost parameters.  `None` when
/// the work memory cannot be allocated; the `requires` rules out every
/// parameter rejected by `argon2::Params::new`, the salt lengths that
/// `hash_password_into` refuses, and passphrases whose UTF-8 form could
/// exceed its length limit.
#[verifier::external_body]
pub fn derive_key(
    passphrase: &str,
    salt: &[u8],
    memory_kib: u32,
    iterations: u32,
    parallelism: u32,
) -> (r: Option<[u8; 32]>)
    requires
        memory_kib >= 8,
        iterations >= 1,
        1 <= parallelism <= 0xFFFFFF,
        memory_kib >= 8 * parallelism,
        8 <= salt@.len() <= 0xFFFFFFFF,
        passphrase@.len() <= 0x3FFFFFFF,
    ensures
        r matches Some(k) ==> k@ == derived_key_of(
            passphrase@,
            salt@,
            memory_kib,
            iterations,
            parallelism,
        ),
{
    let params =
        argon2::Params::new(memory_kib, iterations, parallelism, Some(32)).ok()?;
    let argon = Argon2::new(argon2::Algorithm::Argon2id, argon2::Version::V0x13, params);
    let mut key = [0u8; 32];
    argon.hash_password_into(passphrase.as_bytes(), salt, &mut key).ok()?;
    Some(key)
}

/// Encrypt with a fresh random 24-byte nonce.
///
/// Relies on `chacha20poly1305::XChaCha20Poly1305` (`aead::Aead::encrypt`)
/// and on the thread-local CSPRNG of `rand` for the nonce: decrypting the
/// returned pair under the same key yields the plaintext back, the
/// ciphertext is the plaintext's length plus the sixteen-byte tag, and the
/// call refuses precisely the plaintexts long enough to overflow the
/// cipher's block counter.
#[verifier::external_body]
pub fn encrypt_bytes(key: &[u8; 32], plaintext: &[u8]) -> (r: Option<(Vec<u8>, Vec<u8>)>)
    ensures
        r matches Some(p) ==> p.0@.len() == 24 && p.1@.len() == plaintext@.len() + 16
            && xchacha_open(key@, p.0@, p.1@) == Some(plaintext@),
        r is Some <==> plaintext@.len() < aead_max_plaintext_len(),
{
    let cipher = XChaCha20Poly1305::new(&chacha20poly1305::Key::from(*key));
    let mut nonce = [0u8; 24];
    rand::rng().fill_bytes(&mut nonce);
    let ct = cipher.encrypt(&XNonce::from(nonce), plaintext).ok()?;
    Some((nonce.to_vec(), ct))
}

/// Authenticated decryption.
///
/// Relies on `chacha20poly1305::XChaCha20Poly1305` (`aead::Aead::decrypt`):
/// deterministic in key, nonce and ciphertext; fails closed on any tag
/// mismatch or corrupted input.
#[verifier::external_body]
pub fn try_decrypt(key: &[u8; 32], nonce: &[u8], ciphertext: &[u8]) -> (r: Option<Vec<u8>>)
    requires
        nonce@.len() == 24,
    ensures
        match r {
            Some(p) => xchacha_open(key@, nonce@, ciphertext@) == Some(p@),
            None => xchacha_open(key@, nonce@, ciphertext@) is None,
        },
{
    let cipher = XChaCha20Poly1305::new(&chacha20poly1305::Key::from(*key));
    let nonce_arr = XNonce::try_from(nonce).ok()?;
    cipher.decrypt(&nonce_arr, ciphertext).ok()
}

/// A fresh random 16-byte salt.
///
/// Relies on the thread-local CSPRNG of `rand` (`Rng::fill_bytes`); nothing
/// is promised of the bytes beyond their count.
#[verifier::external_body]
pub fn fresh_salt() -> (r: Vec<u8>)
    ensures
        r@.len() == 16,
{
    let mut salt = vec![0u8; 16];
    rand::rng().fill_bytes(&mut salt);
    salt
}

/// Standard base64, padded.
///
/// Relies on `base64::engine::general_purpose::STANDARD.encode`: decoding
/// the result yields the input back, and every output byte is in the
/// standard alphabet (with `=` padding).
#[verifier::external_body]
pub fn b64_encode(b: &[u8]) -> (r: Vec<u8>)
    ensures
        r@ == b64_of(b@),
        b64_decode_of(r@) == Some(b@),
        forall|i: int| 0 <= i < r@.len() ==> is_b64_byte(r@[i]),
{
    general_purpose::STANDARD.encode(b).into_bytes()
}

/// Standard base64 decoding.
///
/// Relies on `base64::engine::general_purpose::STANDARD.decode`:
/// deterministic in the input; fails on anything outside the padded
/// standard alphabet.
#[verifier::external_body]
pub fn b64_decode(s: &[u8]) -> (r: Option<Vec<u8>>)
    ensures
        match r {
            Some(v) => b64_decode_of(s@) == Some(v@),
            None => b64_decode_of(s@) is None,
        },
{
    general_purpose::STANDARD.decode(s).ok()
}

/// Overwrite superseded key material with zeros.
///
/// Relies on `zeroize::Zeroize` for `[u8; 32]`: every element is set to
/// zero, through a write the compiler will not elide.
#[verifier::external_body]
pub fn wipe_key(k: &mut [u8; 32])
    ensures
        final(k)@ == Seq::new(32, |i: int| 0u8),
{
    k.zeroize();
}

/// Overwrite a superseded byte buffer with zeros and empty it.
///
/// Relies on `zeroize::Zeroize` for `Vec<u8>`: the full capacity is zeroed,
/// then the vector is cleared.
#[verifier::external_body]
pub fn wipe_bytes(v: &mut Vec<u8>)
    ensures
        final(v)@.len() == 0,
{
    v.zeroize();
}

/// Milliseconds since the Unix epoch, now.
///
/// Relies on `chrono::Utc::now`; nothing is promised of the clock.
#[verifier::external_body]
pub fn now_millis() -> i64 {
    chrono::Utc::now().timestamp_millis()
}

/// The compact UTC timestamp (`%Y%m%dT%H%M%S`) of the present moment, used
/// to name rotated archives.
///
/// Relies on `chrono::Utc::now` and `chrono::DateTime::format`; the text
/// depends on the clock, so only its non-emptiness is promised.
#[verifier::external_body]
pub fn rotation_timestamp() -> (r: String)
    ensures
        r@.len() >= 1,
{
    format!("{}", chrono::Utc::now().format("%Y%m%dT%H%M%S"))
}

/// A fresh random identifier: a version-4 UUID in hyphenated form.
///
/// Relies on `uuid::Uuid::new_v4` and its `Display` form, documented as 36
/// characters; nothing else is promised of the value.
#[verifier::external_body]
pub fn new_uuid_string() -> (r: String)
    ensures
        r@.len() == 36,
{
    uuid::Uuid::new_v4().to_string()
}

} // verus!
