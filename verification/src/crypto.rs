//! Trusted boundary to the cryptographic primitives of `p2panda_core`:
//! BLAKE3 hashing and Ed25519 signatures.
//!
//! The results of these primitives are named by uninterpreted spec
//! functions: they depend on their byte-string arguments alone, and the
//! library's contracts speak of them only through these names.

use vstd::prelude::*;

verus! {

/// The 32-byte BLAKE3 digest of a byte string.
pub uninterp spec fn hash_of(bytes: Seq<u8>) -> Seq<u8>;

/// The Ed25519 public key derived from a 32-byte secret key.
pub uninterp spec fn pubkey_of(secret: Seq<u8>) -> Seq<u8>;

/// The Ed25519 signature over a message by a 32-byte secret key.
pub uninterp spec fn sign_of(secret: Seq<u8>, msg: Seq<u8>) -> Seq<u8>;

/// Whether an Ed25519 signature verifies for a public key and message.
pub uninterp spec fn verify_ok(pubkey: Seq<u8>, msg: Seq<u8>, sig: Seq<u8>) -> bool;

/// Relies on `p2panda_core::Hash::new`: the 32-byte BLAKE3 digest of the
/// input, a function of the input bytes alone.
#[verifier::external_body]
pub fn hash_bytes(bytes: &[u8]) -> (r: [u8; 32])
    ensures
        r@ == hash_of(bytes@),
{
    *p2panda_core::Hash::new(bytes).as_bytes()
}

/// The BLAKE3 digest as a byte vector.
pub fn hash_vec(bytes: &[u8]) -> (r: Vec<u8>)
    ensures
        r@ == hash_of(bytes@),
        r@.len() == 32,
{
    let digest = hash_bytes(bytes);
    vstd::slice::slice_to_vec(digest.as_slice())
}

/// Relies on `p2panda_core::PrivateKey::from_bytes` and
/// `PrivateKey::public_key`: the Ed25519 public key is derived from the
/// 32 secret key bytes alone.
#[verifier::external_body]
pub fn derive_public_key(secret: &Vec<u8>) -> (r: Vec<u8>)
    requires
        secret@.len() == 32,
    ensures
        r@ == pubkey_of(secret@),
        r@.len() == 32,
{
    let bytes: [u8; 32] = secret.as_slice().try_into().unwrap();
    let key = p2panda_core::PrivateKey::from_bytes(&bytes);
    key.public_key().as_bytes().to_vec()
}

/// Relies on `p2panda_core::PrivateKey::sign` (Ed25519, RFC 8032): signing is
/// deterministic in the secret key and message, and a signature so produced
/// verifies under the derived public key (`ed25519-dalek`'s `verify_strict`
/// accepts the canonical signatures its own signer emits).
#[verifier::external_body]
pub fn sign_bytes(secret: &Vec<u8>, msg: &Vec<u8>) -> (r: Vec<u8>)
    requires
        secret@.len() == 32,
    ensures
        r@ == sign_of(secret@, msg@),
        r@.len() == 64,
        verify_ok(pubkey_of(secret@), msg@, r@),
{
    let bytes: [u8; 32] = secret.as_slice().try_into().unwrap();
    let key = p2panda_core::PrivateKey::from_bytes(&bytes);
    key.sign(msg.as_slice()).to_bytes().to_vec()
}

/// Relies on `p2panda_core::PublicKey::verify` (`ed25519-dalek`'s
/// `verify_strict`): acceptance depends on the public key, message and
/// signature bytes alone. Key or signature bytes of the wrong shape are
/// accepted by no verifier and yield `false`.
#[verifier::external_body]
pub fn verify_signature(pubkey: &Vec<u8>, msg: &Vec<u8>, sig: &Vec<u8>) -> (r: bool)
    ensures
        r == verify_ok(pubkey@, msg@, sig@),
{
    let pk_bytes: [u8; 32] = match pubkey.as_slice().try_into() {
        Ok(b) => b,
        Err(_) => return false,
    };
    let key = match p2panda_core::PublicKey::from_bytes(&pk_bytes) {
        Ok(k) => k,
        Err(_) => return false,
    };
    let sig_bytes: [u8; 64] = match sig.as_slice().try_into() {
        Ok(b) => b,
        Err(_) => return false,
    };
    let signature = p2panda_core::Signature::from_bytes(&sig_bytes);
    key.verify(msg.as_slice(), &signature)
}

} // verus!
