//! The X25519 link handshake primitive: node secrets, public keys and the
//! shared secret that feeds the AEAD/HKDF cell layer. The curve arithmetic
//! is x25519-dalek's.
use vstd::prelude::*;
use x25519_dalek::{PublicKey, StaticSecret};
use crate::crypto::hkdf_sha256_output;
use crate::secure_cell::{derive_link_key, link_key_info, SecureCellError};

verus! {

/// What x25519-dalek's `PublicKey::from(&StaticSecret::from(secret))`
/// gives, as bytes.
pub uninterp spec fn x25519_public_output(secret: Seq<u8>) -> Seq<u8>;

/// What x25519-dalek's `StaticSecret::from(secret).diffie_hellman(&PublicKey::from(peer))`
/// gives, as bytes.
pub uninterp spec fn x25519_shared_output(secret: Seq<u8>, peer: Seq<u8>) -> Seq<u8>;

/// Calls x25519-dalek to compute the public key of a static secret (the
/// base point times the clamped scalar, in Montgomery form). The result
/// depends on the secret alone.
#[verifier::external_body]
fn x25519_public(secret: &[u8; 32]) -> (r: [u8; 32])
    ensures
        r@ == x25519_public_output(secret@),
{
    PublicKey::from(&StaticSecret::from(*secret)).to_bytes()
}

/// Calls x25519-dalek's static Diffie-Hellman: the peer's point times the
/// clamped secret scalar. The result depends on the two keys alone.
#[verifier::external_body]
fn x25519_diffie_hellman(secret: &[u8; 32], peer: &[u8; 32]) -> (r: [u8; 32])
    ensures
        r@ == x25519_shared_output(secret@, peer@),
{
    StaticSecret::from(*secret).diffie_hellman(&PublicKey::from(*peer)).to_bytes()
}

/// A node's static X25519 secret.
#[derive(Clone)]
pub struct X25519NodeSecret {
    secret: [u8; 32],
}

/// A node's X25519 public key.
#[derive(Clone, Copy, Debug, PartialEq, Eq)]
pub struct X25519NodePublic(pub [u8; 32]);

/// The shared secret of an X25519 exchange.
#[derive(Clone, Copy, Debug, PartialEq, Eq)]
pub struct LinkSharedSecret(pub [u8; 32]);

impl X25519NodeSecret {
    /// The secret's bytes.
    pub closed spec fn secret_bytes(&self) -> Seq<u8> {
        self.secret@
    }

    /// A node secret holding `bytes` as they are (clamping happens in the
    /// scalar multiplications).
    pub fn from_bytes(bytes: [u8; 32]) -> (r: Self)
        ensures
            r.secret_bytes() == bytes@,
    {
        Self { secret: bytes }
    }

    pub fn to_bytes(&self) -> (r: [u8; 32])
        ensures
            r@ == self.secret_bytes(),
    {
        self.secret
    }

    pub fn public(&self) -> (r: X25519NodePublic)
        ensures
            r.0@ == x25519_public_output(self.secret_bytes()),
    {
        X25519NodePublic(x25519_public(&self.secret))
    }

    pub fn diffie_hellman(&self, peer: X25519NodePublic) -> (r: LinkSharedSecret)
        ensures
            r.0@ == x25519_shared_output(self.secret_bytes(), peer.0@),
    {
        LinkSharedSecret(x25519_diffie_hellman(&self.secret, &peer.0))
    }
}

impl LinkSharedSecret {
    /// The AEAD cell key of this link for a route tag: HKDF-SHA256 of the
    /// shared secret, salted with the tag.
    pub fn derive_cell_key(self, route_tag: &[u8; 16]) -> (r: Result<[u8; 32], SecureCellError>)
        ensures
            r matches Ok(k) && k@ == hkdf_sha256_output(route_tag@, self.0@, link_key_info(), 32),
    {
        derive_link_key(&self.0, route_tag)
    }
}

} // verus!
