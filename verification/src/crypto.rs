//! Cryptographic primitives of the outside crates, behind trusted contracts.
use vstd::prelude::*;
use chacha20poly1305::aead::{AeadInPlace, KeyInit};
use chacha20poly1305::{ChaCha20Poly1305, Key, Nonce, Tag};
use hkdf::Hkdf;
use sha2::{Digest, Sha256};
use subtle::ConstantTimeEq;
use ed25519_dalek::{Signature, Signer, SigningKey, Verifier, VerifyingKey};

verus! {

/// What HKDF-SHA256 (extract with `salt`, expand with `info`) yields for `len` bytes.
pub uninterp spec fn hkdf_sha256_output(salt: Seq<u8>, ikm: Seq<u8>, info: Seq<u8>, len: nat) -> Seq<u8>;

/// The largest output HKDF-SHA256 can expand to (255 SHA-256 blocks).
pub open spec fn hkdf_sha256_max_len() -> nat {
    255 * 32
}

/// Calls `hkdf::Hkdf::<Sha256>::new(Some(salt), ikm)` and `expand(info, ..)` into an
/// `out_len`-byte buffer. The crate's `expand` refuses exactly the lengths above
/// 255 blocks of SHA-256; otherwise the output is the named HKDF result, of length `out_len`.
#[verifier::external_body]
pub(crate) fn hkdf_sha256(salt: &[u8], ikm: &[u8], info: &[u8], out_len: usize) -> (r: Option<Vec<u8>>)
    ensures
        r is Some <==> out_len <= hkdf_sha256_max_len(),
        r matches Some(v) ==> v@ == hkdf_sha256_output(salt@, ikm@, info@, out_len as nat),
        r matches Some(v) ==> v@.len() == out_len,
{
    let hk = Hkdf::<Sha256>::new(Some(salt), ikm);
    let mut out = vec![0u8; out_len];
    match hk.expand(info, &mut out) {
        Ok(()) => Some(out),
        Err(_) => None,
    }
}

/// The SHA-256 digest of a byte string.
pub uninterp spec fn sha256_output(data: Seq<u8>) -> Seq<u8>;

/// Calls `sha2::Sha256::digest`. The digest is the named SHA-256 value and is 32 bytes long.
#[verifier::external_body]
pub(crate) fn sha256(data: &[u8]) -> (r: [u8; 32])
    ensures
        r@ == sha256_output(data@),
        r@.len() == 32,
{
    Sha256::digest(data).into()
}

/// The sealed form (ciphertext followed by the 16-byte tag) that
/// ChaCha20-Poly1305 produces for `plaintext` under `key`, `nonce` and `aad`.
pub uninterp spec fn aead_seal_output(key: Seq<u8>, nonce: Seq<u8>, aad: Seq<u8>, plaintext: Seq<u8>) -> Seq<u8>;

/// What ChaCha20-Poly1305 opening of `sealed` (ciphertext followed by tag)
/// yields: the plaintext, or nothing when the tag does not authenticate.
pub uninterp spec fn aead_open_output(key: Seq<u8>, nonce: Seq<u8>, aad: Seq<u8>, sealed: Seq<u8>) -> Option<Seq<u8>>;

/// The largest plaintext the cipher encrypts without exhausting its keystream:
/// the block counter starts at 1, so `2^32 - 2` blocks of 64 bytes remain.
pub open spec fn aead_max_plaintext() -> int {
    64int * 0xffff_fffe
}

/// Calls `ChaCha20Poly1305::new(key).encrypt_in_place_detached(nonce, aad, ..)` on a copy
/// of `plaintext` and appends the tag. Longer buffers either are refused or run the
/// keystream past its last block (a panic), which `requires` rules out; the result is the named sealed form, 16 bytes
/// longer than the plaintext.
#[verifier::external_body]
pub(crate) fn aead_seal(key: &[u8], nonce: &[u8], aad: &[u8], plaintext: &[u8]) -> (r: Vec<u8>)
    requires
        key@.len() == 32,
        nonce@.len() == 12,
        plaintext@.len() <= aead_max_plaintext(),
    ensures
        r@ == aead_seal_output(key@, nonce@, aad@, plaintext@),
        r@.len() == plaintext@.len() + 16,
{
    let cipher = ChaCha20Poly1305::new(Key::from_slice(key));
    let mut buffer = plaintext.to_vec();
    match cipher.encrypt_in_place_detached(Nonce::from_slice(nonce), aad, &mut buffer) {
        Ok(tag) => {
            buffer.extend_from_slice(&tag);
            buffer
        },
        Err(_) => Vec::new(),
    }
}

/// Calls `ChaCha20Poly1305::new(key).decrypt_in_place_detached(nonce, aad, ..)` with the
/// last 16 bytes of `sealed` as the tag. The result is the named opening; an AEAD opens
/// what it sealed under the same key, nonce and associated data, and the plaintext is
/// 16 bytes shorter than the sealed form. Nothing is stated of which forged inputs fail.
#[verifier::external_body]
pub(crate) fn aead_open(key: &[u8], nonce: &[u8], aad: &[u8], sealed: &[u8]) -> (r: Option<Vec<u8>>)
    requires
        key@.len() == 32,
        nonce@.len() == 12,
        16 <= sealed@.len() <= aead_max_plaintext() + 16,
    ensures
        r is Some <==> aead_open_output(key@, nonce@, aad@, sealed@) is Some,
        r matches Some(p) ==> aead_open_output(key@, nonce@, aad@, sealed@) == Some(p@),
        r matches Some(p) ==> p@.len() + 16 == sealed@.len(),
        forall|p: Seq<u8>|
            #[trigger] aead_seal_output(key@, nonce@, aad@, p) == sealed@ ==> r is Some && r->0@ == p,
{
    let cipher = ChaCha20Poly1305::new(Key::from_slice(key));
    let split = sealed.len() - 16;
    let mut buffer = sealed[..split].to_vec();
    match cipher.decrypt_in_place_detached(
        Nonce::from_slice(nonce),
        aad,
        &mut buffer,
        Tag::from_slice(&sealed[split..]),
    ) {
        Ok(()) => Some(buffer),
        Err(_) => None,
    }
}

/// Calls `subtle::ConstantTimeEq::ct_eq` on two byte slices and unwraps the
/// `Choice`. The crate's slice impl gives 0 for slices of different lengths
/// and otherwise 1 exactly when every byte pair is equal.
#[verifier::external_body]
pub(crate) fn ct_eq_bytes(a: &[u8], b: &[u8]) -> (r: bool)
    ensures
        r == (a@ == b@),
{
    a.ct_eq(b).unwrap_u8() == 1
}

/// The Ed25519 public key (compressed point) of a 32-byte secret.
pub uninterp spec fn ed25519_public_output(secret: Seq<u8>) -> Seq<u8>;

/// The Ed25519 signature of a message under a 32-byte secret.
pub uninterp spec fn ed25519_signature_output(secret: Seq<u8>, message: Seq<u8>) -> Seq<u8>;

/// Whether ed25519-dalek's `VerifyingKey::from_bytes` accepts the bytes
/// (they decompress to a curve point).
pub uninterp spec fn ed25519_public_key_accepted(public: Seq<u8>) -> bool;

/// Whether ed25519-dalek's `verify` accepts a signature on a message under
/// an accepted public key.
pub uninterp spec fn ed25519_signature_accepted(public: Seq<u8>, message: Seq<u8>, signature: Seq<u8>) -> bool;

/// Calls `SigningKey::from_bytes(secret).verifying_key().to_bytes()`: the
/// public key, which depends on the secret alone.
#[verifier::external_body]
pub(crate) fn ed25519_public_key(secret: &[u8; 32]) -> (r: [u8; 32])
    ensures
        r@ == ed25519_public_output(secret@),
{
    SigningKey::from_bytes(secret).verifying_key().to_bytes()
}

/// Calls `SigningKey::from_bytes(secret).sign(message)`. Ed25519 signing is
/// deterministic: the signature depends on the secret and the message alone.
#[verifier::external_body]
pub(crate) fn ed25519_sign(secret: &[u8; 32], message: &[u8]) -> (r: [u8; 64])
    ensures
        r@ == ed25519_signature_output(secret@, message@),
{
    SigningKey::from_bytes(secret).sign(message).to_bytes()
}

/// An Ed25519 identity key, held as the 32-byte secret that ed25519-dalek
/// makes the signing key from.
#[derive(Clone, Copy, Debug)]
pub struct IdentitySigningKey {
    secret: [u8; 32],
}

impl IdentitySigningKey {
    /// The 32-byte secret.
    pub closed spec fn secret_bytes(&self) -> Seq<u8> {
        self.secret@
    }

    pub fn from_bytes(secret: &[u8; 32]) -> (k: Self)
        ensures
            k.secret_bytes() == secret@,
    {
        Self { secret: *secret }
    }

    pub fn to_bytes(&self) -> (r: [u8; 32])
        ensures
            r@ == self.secret_bytes(),
    {
        self.secret
    }

    /// The public key of this secret.
    pub fn verifying_key_bytes(&self) -> (r: [u8; 32])
        ensures
            r@ == ed25519_public_output(self.secret_bytes()),
    {
        ed25519_public_key(&self.secret)
    }

    /// The signature of `message` under this secret.
    pub fn sign(&self, message: &[u8]) -> (r: [u8; 64])
        ensures
            r@ == ed25519_signature_output(self.secret_bytes(), message@),
    {
        ed25519_sign(&self.secret, message)
    }
}

/// Calls `VerifyingKey::from_bytes` and, when it accepts the key,
/// `verify` on the message and signature: `None` for a rejected key,
/// otherwise whether the signature verifies.
#[verifier::external_body]
pub(crate) fn ed25519_verify(public: &[u8; 32], message: &[u8], signature: &[u8; 64]) -> (r: Option<bool>)
    ensures
        r is Some <==> ed25519_public_key_accepted(public@),
        r matches Some(ok) ==> ok == ed25519_signature_accepted(public@, message@, signature@),
{
    match VerifyingKey::from_bytes(public) {
        Ok(vk) => Some(vk.verify(message, &Signature::from_bytes(signature)).is_ok()),
        Err(_) => None,
    }
}

} // verus!
