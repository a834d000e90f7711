//! Cryptographic primitives, bound to outside implementations.
//!
//! SHA-256 hashing and Ed25519 signing are performed by outside crates; each
//! call site goes through one trusted wrapper below whose contract names the
//! result. Keys and signatures are carried as plain byte vectors: signing
//! keys and verifying keys are 32 bytes, signatures 64 bytes.

use vstd::prelude::*;

verus! {

/// The lowercase hexadecimal SHA-256 digest of a byte sequence,
/// as a sequence of 64 hex characters.
pub uninterp spec fn sha256_hex(data: Seq<u8>) -> Seq<char>;

/// The Ed25519 verifying key derived from a 32-byte signing key.
pub uninterp spec fn ed25519_verifying_key(sk: Seq<u8>) -> Seq<u8>;

/// The Ed25519 signature produced by a 32-byte signing key over a message.
pub uninterp spec fn ed25519_signature(sk: Seq<u8>, msg: Seq<u8>) -> Seq<u8>;

/// Whether `sig` is a signature over `msg` that strict verification
/// accepts under the verifying key bytes `vk`. False whenever `vk` does
/// not decode to a valid Ed25519 point.
pub uninterp spec fn ed25519_verifies(vk: Seq<u8>, msg: Seq<u8>, sig: Seq<u8>) -> bool;

/// True for the 16 characters a lowercase hexadecimal string is made of.
pub open spec fn is_hex_char(c: char) -> bool {
    ('0' <= c && c <= '9') || ('a' <= c && c <= 'f')
}

/// True for a sequence made only of lowercase hexadecimal characters.
pub open spec fn all_hex_chars(s: Seq<char>) -> bool {
    forall|i: int| 0 <= i < s.len() ==> is_hex_char(#[trigger] s[i])
}

/// Relies on sha256::digest (its impl for `&[u8]`): SHA-256 of the input,
/// hex-encoded lowercase, hence 64 hexadecimal characters.
#[verifier::external_body]
pub fn sha256_hex_of(data: &[u8]) -> (r: String)
    ensures
        r@ == sha256_hex(data@),
        r@.len() == 64,
        all_hex_chars(r@),
{
    sha256::digest(data)
}

/// Relies on rand::random: 32 bytes from the thread-local CSPRNG. The
/// result is random, so nothing relates it to the arguments of any call.
#[verifier::external_body]
pub fn fresh_secret_key() -> (sk: Vec<u8>)
    ensures
        sk@.len() == 32,
{
    rand::random::<[u8; 32]>().to_vec()
}

/// Relies on rand::random: one random 64-bit value.
#[verifier::external_body]
pub fn random_u64() -> u64 {
    rand::random::<u64>()
}

/// Relies on std::time::SystemTime::now: seconds since the Unix epoch,
/// or 0 when the clock reads earlier than the epoch.
#[verifier::external_body]
pub fn now_secs() -> u64 {
    std::time::SystemTime::now()
        .duration_since(std::time::UNIX_EPOCH)
        .map(|d| d.as_secs())
        .unwrap_or(0)
}

/// Relies on ed25519_dalek::SigningKey::verifying_key: the public key
/// derived from the secret bytes, a function of those bytes alone.
#[verifier::external_body]
pub fn verifying_key_of(sk: &[u8]) -> (vk: Vec<u8>)
    requires
        sk@.len() == 32,
    ensures
        vk@ == ed25519_verifying_key(sk@),
        vk@.len() == 32,
{
    let arr: [u8; 32] = sk.try_into().unwrap();
    let signing = ed25519_dalek::SigningKey::from_bytes(&arr);
    signing.verifying_key().to_bytes().to_vec()
}

/// Relies on ed25519_dalek::SigningKey's Signer::sign: the deterministic
/// Ed25519 signature over the message, which strict verification accepts
/// under the derived verifying key.
#[verifier::external_body]
pub fn sign_message(sk: &[u8], msg: &[u8]) -> (sig: Vec<u8>)
    requires
        sk@.len() == 32,
    ensures
        sig@ == ed25519_signature(sk@, msg@),
        sig@.len() == 64,
        ed25519_verifies(ed25519_verifying_key(sk@), msg@, sig@),
{
    let arr: [u8; 32] = sk.try_into().unwrap();
    let signing = ed25519_dalek::SigningKey::from_bytes(&arr);
    ed25519_dalek::Signer::sign(&signing, msg).to_bytes().to_vec()
}

/// Relies on ed25519_dalek::VerifyingKey::{from_bytes, verify_strict}:
/// true exactly when the key bytes decode and strict verification of the
/// signature over the message succeeds.
#[verifier::external_body]
pub fn verify_signature(vk: &[u8], msg: &[u8], sig: &[u8]) -> (r: bool)
    requires
        vk@.len() == 32,
        sig@.len() == 64,
    ensures
        r == ed25519_verifies(vk@, msg@, sig@),
{
    let vk_arr: [u8; 32] = vk.try_into().unwrap();
    let sig_arr: [u8; 64] = sig.try_into().unwrap();
    match ed25519_dalek::VerifyingKey::from_bytes(&vk_arr) {
        Ok(key) => {
            let signature = ed25519_dalek::Signature::from_bytes(&sig_arr);
            key.verify_strict(msg, &signature).is_ok()
        }
        Err(_) => false,
    }
}

} // verus!
