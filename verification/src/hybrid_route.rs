//! Hybrid ML-KEM-768 + X25519 route-secret setup: the route-hop secret is
//! HKDF-SHA256 over the ML-KEM shared key followed by the X25519 shared
//! secret, salted with the route context. The lattice and curve arithmetic
//! are ml-kem's and x25519-dalek's; a decapsulation key is held as the
//! 64-byte seed it is made from.
use vstd::prelude::*;
use ml_kem::kem::{Decapsulate, Encapsulate, Kem, KeyExport};
use ml_kem::{DecapsulationKey, MlKem768};
use crate::bytes::push_all;
use crate::crypto::{hkdf_sha256, hkdf_sha256_output};
use crate::handshake::{x25519_public_output, x25519_shared_output, X25519NodePublic, X25519NodeSecret};
use crate::route_layer::RouteHopSecret;

verus! {

/// The encapsulation key, as bytes, of the ML-KEM-768 decapsulation key
/// that ml-kem's `DecapsulationKey::from_seed` makes from a seed.
pub uninterp spec fn mlkem_encapsulation_key_output(seed: Seq<u8>) -> Seq<u8>;

/// The shared key that ml-kem's `decapsulate` gives for a ciphertext under
/// the decapsulation key made from a seed.
pub uninterp spec fn mlkem_decapsulate_output(seed: Seq<u8>, ciphertext: Seq<u8>) -> Seq<u8>;

/// Whether ml-kem's `EncapsulationKey::new` accepts the bytes as an
/// ML-KEM-768 encapsulation key.
pub uninterp spec fn mlkem_encapsulation_key_accepted(key: Seq<u8>) -> bool;

/// Calls ml-kem's `MlKem768::generate_keypair`, which draws a seed from the
/// system's random source and makes the key pair from it; returns that seed
/// and the encapsulation key's bytes. The seed is random; the encapsulation
/// key is the one the seed makes. ml-kem panics if the random source fails.
#[verifier::external_body]
fn mlkem_generate() -> (r: ([u8; 64], [u8; 1184]))
    ensures
        r.1@ == mlkem_encapsulation_key_output(r.0@),
{
    let (dk, ek) = MlKem768::generate_keypair();
    let mut seed = [0u8; 64];
    seed.copy_from_slice(&dk.to_bytes());
    let mut key = [0u8; 1184];
    key.copy_from_slice(&ek.to_bytes());
    (seed, key)
}

/// Calls ml-kem's `DecapsulationKey::from_seed` and exports the bytes of its
/// encapsulation key.
#[verifier::external_body]
fn mlkem_encapsulation_key(seed: &[u8; 64]) -> (r: [u8; 1184])
    ensures
        r@ == mlkem_encapsulation_key_output(seed@),
{
    let dk = DecapsulationKey::<MlKem768>::from_seed(ml_kem::Seed::from(*seed));
    let mut key = [0u8; 1184];
    key.copy_from_slice(&dk.encapsulation_key().to_bytes());
    key
}

/// Calls ml-kem's `decapsulate` with the decapsulation key made from a seed.
/// ML-KEM rejects implicitly: every ciphertext yields a 32-byte key.
#[verifier::external_body]
fn mlkem_decapsulate(seed: &[u8; 64], ciphertext: &[u8; 1088]) -> (r: [u8; 32])
    ensures
        r@ == mlkem_decapsulate_output(seed@, ciphertext@),
{
    let dk = DecapsulationKey::<MlKem768>::from_seed(ml_kem::Seed::from(*seed));
    let shared = dk.decapsulate(&ml_kem::ml_kem_768::Ciphertext::from(*ciphertext));
    let mut out = [0u8; 32];
    out.copy_from_slice(&shared);
    out
}

/// Calls ml-kem's `EncapsulationKey::new` on the bytes: whether it accepts
/// them as an ML-KEM-768 encapsulation key (every coefficient reduced).
#[verifier::external_body]
pub(crate) fn mlkem_key_accepted(key: &[u8; 1184]) -> (r: bool)
    ensures
        r == mlkem_encapsulation_key_accepted(key@),
{
    ml_kem::ml_kem_768::EncapsulationKey::new(&ml_kem::array::Array::from(*key)).is_ok()
}

/// Calls ml-kem's `EncapsulationKey::new` on the bytes and, when it accepts
/// them, `encapsulate`, which draws its message from the system's random
/// source; returns the ciphertext and the shared key. Whether the bytes are
/// accepted depends on them alone; the ciphertext and key are random. (That
/// decapsulating the ciphertext gives the same key is ML-KEM's correctness,
/// which holds except with negligible probability and is not stated.)
/// ml-kem panics if the random source fails.
#[verifier::external_body]
fn mlkem_encapsulate(key: &[u8; 1184]) -> (r: Option<([u8; 1088], [u8; 32])>)
    ensures
        r is Some <==> mlkem_encapsulation_key_accepted(key@),
{
    match ml_kem::ml_kem_768::EncapsulationKey::new(&ml_kem::array::Array::from(*key)) {
        Ok(ek) => {
            let (ct, shared) = ek.encapsulate();
            let mut c = [0u8; 1088];
            c.copy_from_slice(&ct);
            let mut s = [0u8; 32];
            s.copy_from_slice(&shared);
            Some((c, s))
        },
        Err(_) => None,
    }
}

/// `"chronos-v7/hybrid-mlkem768-x25519-route-hop"` as bytes.
pub open spec fn hybrid_route_info() -> Seq<u8> {
    seq![
        0x63u8, 0x68, 0x72, 0x6f, 0x6e, 0x6f, 0x73, 0x2d, 0x76, 0x37, 0x2f, 0x68, 0x79, 0x62, 0x72,
        0x69, 0x64, 0x2d, 0x6d, 0x6c, 0x6b, 0x65, 0x6d, 0x37, 0x36, 0x38, 0x2d, 0x78, 0x32, 0x35,
        0x35, 0x31, 0x39, 0x2d, 0x72, 0x6f, 0x75, 0x74, 0x65, 0x2d, 0x68, 0x6f, 0x70,
    ]
}

fn hybrid_route_info_bytes() -> (r: Vec<u8>)
    ensures
        r@ == hybrid_route_info(),
{
    let r: Vec<u8> = vec![
        0x63u8, 0x68, 0x72, 0x6f, 0x6e, 0x6f, 0x73, 0x2d, 0x76, 0x37, 0x2f, 0x68, 0x79, 0x62, 0x72,
        0x69, 0x64, 0x2d, 0x6d, 0x6c, 0x6b, 0x65, 0x6d, 0x37, 0x36, 0x38, 0x2d, 0x78, 0x32, 0x35,
        0x35, 0x31, 0x39, 0x2d, 0x72, 0x6f, 0x75, 0x74, 0x65, 0x2d, 0x68, 0x6f, 0x70,
    ];
    assert(r@ =~= hybrid_route_info());
    r
}

/// The route-hop secret of an ML-KEM shared key, an X25519 shared secret
/// and a route context.
pub open spec fn hybrid_route_secret(ml_kem_shared: Seq<u8>, x25519_shared: Seq<u8>, route_context: Seq<u8>) -> Seq<
    u8,
> {
    hkdf_sha256_output(route_context, ml_kem_shared + x25519_shared, hybrid_route_info(), 32)
}

/// An ML-KEM-768 key pair for route setup.
#[derive(Clone)]
pub struct MlKem768RouteKeypair {
    seed: [u8; 64],
    pub encapsulation_key: [u8; 1184],
}

/// The sender's side of a hybrid route setup.
pub struct HybridRouteEncapsulation {
    pub ml_kem_ciphertext: [u8; 1088],
    pub sender_x25519_public: X25519NodePublic,
    pub route_secret: RouteHopSecret,
}

#[derive(Debug, Clone, PartialEq, Eq, Structural)]
pub enum HybridRouteError {
    KeyDerivation,
    InvalidEncapsulationKey,
}

impl MlKem768RouteKeypair {
    /// The seed the decapsulation key is made from.
    pub closed spec fn seed_bytes(&self) -> Seq<u8> {
        self.seed@
    }

    /// The encapsulation key's bytes.
    pub closed spec fn encapsulation_key_bytes(&self) -> Seq<u8> {
        self.encapsulation_key@
    }

    /// The encapsulation key's bytes.
    pub(crate) fn encapsulation_key_array(&self) -> (r: [u8; 1184])
        ensures
            r@ == self.encapsulation_key_bytes(),
    {
        self.encapsulation_key
    }

    /// A key pair from a random seed.
    pub fn generate() -> (r: Self)
        ensures
            r.encapsulation_key_bytes() == mlkem_encapsulation_key_output(r.seed_bytes()),
    {
        let (seed, encapsulation_key) = mlkem_generate();
        Self { seed, encapsulation_key }
    }

    pub fn from_seed_bytes(seed: [u8; 64]) -> (r: Self)
        ensures
            r.seed_bytes() == seed@,
            r.encapsulation_key_bytes() == mlkem_encapsulation_key_output(seed@),
    {
        let encapsulation_key = mlkem_encapsulation_key(&seed);
        Self { seed, encapsulation_key }
    }

    pub fn to_seed_bytes(&self) -> (r: [u8; 64])
        ensures
            r@ == self.seed_bytes(),
    {
        self.seed
    }

    /// The receiver's side: decapsulates the ML-KEM ciphertext, completes
    /// the X25519 exchange with the sender's public key, and combines both.
    pub fn decapsulate_route_secret(
        &self,
        ml_kem_ciphertext: &[u8; 1088],
        sender_x25519_public: X25519NodePublic,
        receiver_x25519_secret: &X25519NodeSecret,
        route_context: &[u8],
    ) -> (r: Result<RouteHopSecret, HybridRouteError>)
        ensures
            r matches Ok(s) && s.0@ == hybrid_route_secret(
                mlkem_decapsulate_output(self.seed_bytes(), ml_kem_ciphertext@),
                x25519_shared_output(receiver_x25519_secret.secret_bytes(), sender_x25519_public.0@),
                route_context@,
            ),
    {
        let pq_shared = mlkem_decapsulate(&self.seed, ml_kem_ciphertext);
        let x_shared = receiver_x25519_secret.diffie_hellman(sender_x25519_public);
        combine_hybrid_route_secret(&pq_shared, &x_shared.0, route_context)
    }
}

/// `e` is the sender's encapsulation made of the ML-KEM ciphertext `ct` and
/// the shared key `pq` it carries, for the sender's X25519 secret, the
/// receiver's X25519 public key and the route context.
pub open spec fn route_encapsulation_of(
    e: HybridRouteEncapsulation,
    ct: Seq<u8>,
    pq: Seq<u8>,
    sender_secret: Seq<u8>,
    receiver_public: Seq<u8>,
    route_context: Seq<u8>,
) -> bool {
    &&& e.ml_kem_ciphertext@ == ct
    &&& e.sender_x25519_public.0@ == x25519_public_output(sender_secret)
    &&& e.route_secret.0@ == hybrid_route_secret(
        pq,
        x25519_shared_output(sender_secret, receiver_public),
        route_context,
    )
}

/// The sender's side once ML-KEM has encapsulated: completes the X25519
/// exchange with the receiver's public key and combines both shared
/// secrets; the ciphertext is handed on as it is.
pub fn complete_route_encapsulation(
    ml_kem_ciphertext: [u8; 1088],
    pq_shared: [u8; 32],
    sender_x25519_secret: &X25519NodeSecret,
    receiver_x25519_public: X25519NodePublic,
    route_context: &[u8],
) -> (r: Result<HybridRouteEncapsulation, HybridRouteError>)
    ensures
        r matches Ok(e) && route_encapsulation_of(
            e,
            ml_kem_ciphertext@,
            pq_shared@,
            sender_x25519_secret.secret_bytes(),
            receiver_x25519_public.0@,
            route_context@,
        ),
{
    let x_shared = sender_x25519_secret.diffie_hellman(receiver_x25519_public);
    let route_secret = match combine_hybrid_route_secret(&pq_shared, &x_shared.0, route_context) {
        Ok(s) => s,
        Err(e) => return Err(e),
    };
    Ok(HybridRouteEncapsulation {
        ml_kem_ciphertext,
        sender_x25519_public: sender_x25519_secret.public(),
        route_secret,
    })
}

/// The sender's side: encapsulates to the receiver's ML-KEM key, completes
/// the X25519 exchange with the receiver's public key, and combines both.
/// Bytes that ml-kem does not accept as an encapsulation key are refused.
/// The ciphertext and the shared key it carries are random; the result is
/// what `complete_route_encapsulation` makes of them.
pub fn encapsulate_route_secret(
    receiver_ml_kem_public: &[u8; 1184],
    sender_x25519_secret: &X25519NodeSecret,
    receiver_x25519_public: X25519NodePublic,
    route_context: &[u8],
) -> (r: Result<HybridRouteEncapsulation, HybridRouteError>)
    ensures
        !mlkem_encapsulation_key_accepted(receiver_ml_kem_public@) ==> r == Err::<
            HybridRouteEncapsulation,
            HybridRouteError,
        >(HybridRouteError::InvalidEncapsulationKey),
        mlkem_encapsulation_key_accepted(receiver_ml_kem_public@) ==> (r matches Ok(e) && exists|
            ct: Seq<u8>,
            pq: Seq<u8>,
        |
            ct.len() == 1088 && pq.len() == 32 && #[trigger] route_encapsulation_of(
                e,
                ct,
                pq,
                sender_x25519_secret.secret_bytes(),
                receiver_x25519_public.0@,
                route_context@,
            )),
{
    let (ml_kem_ciphertext, pq_shared) = match mlkem_encapsulate(receiver_ml_kem_public) {
        Some(pair) => pair,
        None => return Err(HybridRouteError::InvalidEncapsulationKey),
    };
    complete_route_encapsulation(
        ml_kem_ciphertext,
        pq_shared,
        sender_x25519_secret,
        receiver_x25519_public,
        route_context,
    )
}

/// HKDF-SHA256 of the two shared secrets (ML-KEM first), salted with the
/// route context, expanded to 32 bytes; expansion of 32 bytes cannot fail.
fn combine_hybrid_route_secret(ml_kem_shared: &[u8], x25519_shared: &[u8; 32], route_context: &[u8]) -> (r: Result<
    RouteHopSecret,
    HybridRouteError,
>)
    ensures
        r matches Ok(s) && s.0@ == hybrid_route_secret(ml_kem_shared@, x25519_shared@, route_context@),
{
    let mut ikm: Vec<u8> = Vec::new();
    push_all(&mut ikm, ml_kem_shared);
    push_all(&mut ikm, x25519_shared);
    let info = hybrid_route_info_bytes();
    match hkdf_sha256(route_context, ikm.as_slice(), info.as_slice(), 32) {
        Some(v) => {
            let mut out = [0u8; 32];
            crate::bytes::fill_array(&mut out, v.as_slice(), 0);
            assert(out@ =~= v@);
            Ok(RouteHopSecret(out))
        },
        None => Err(HybridRouteError::KeyDerivation),
    }
}

} // verus!
