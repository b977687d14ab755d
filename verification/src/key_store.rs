//! A node's key material (X25519, ML-KEM-768 and Ed25519 identity), its
//! generation from the system's random source, and the errors of its file
//! store. Reading and writing the files is the application's part.
use vstd::prelude::*;
use std::path::PathBuf;
use crate::crypto::IdentitySigningKey;
use crate::handshake::X25519NodeSecret;
use crate::hybrid_route::{mlkem_encapsulation_key_output, MlKem768RouteKeypair};

verus! {

pub const X25519_KEY_FILE: &'static str = "x25519.nodekey";
pub const MLKEM768_SEED_FILE: &'static str = "mlkem768.seed";
pub const ED25519_IDENTITY_FILE: &'static str = "ed25519.identity";

/// A filesystem path.
#[verifier::external_type_specification]
#[verifier::external_body]
pub struct ExPathBuf(PathBuf);

/// `PathBuf::clone` copies the path; nothing more is stated of it here.
pub assume_specification[ <PathBuf as Clone>::clone ](path: &PathBuf) -> PathBuf;

#[derive(Debug, Clone, PartialEq, Eq)]
pub enum KeyStoreError {
    Io { path: PathBuf, message: String },
    InvalidLength { path: PathBuf, got: usize, expected: usize },
    PartialKeySet { dir: PathBuf },
    SymlinkRefused { path: PathBuf },
    InsecurePermissions { path: PathBuf },
    Random(String),
}

/// Calls `getrandom::getrandom` to fill 32 bytes from the system's random
/// source; its error is turned into its message. Nothing is stated of the
/// bytes or of when it fails.
#[verifier::external_body]
fn random_32() -> Result<[u8; 32], String> {
    let mut bytes = [0u8; 32];
    match getrandom::getrandom(&mut bytes) {
        Ok(()) => Ok(bytes),
        Err(error) => Err(error.to_string()),
    }
}

/// The three keys of a node.
#[derive(Clone)]
pub struct NodeKeyMaterial {
    pub x25519: X25519NodeSecret,
    pub ml_kem_768: MlKem768RouteKeypair,
    pub identity_signing: IdentitySigningKey,
}

impl NodeKeyMaterial {
    /// The Ed25519 identity secret.
    pub open spec fn identity_secret(&self) -> Seq<u8> {
        self.identity_signing.secret_bytes()
    }

    /// The ML-KEM encapsulation key is the one its seed makes.
    pub open spec fn consistent(&self) -> bool {
        self.ml_kem_768.encapsulation_key_bytes() == mlkem_encapsulation_key_output(self.ml_kem_768.seed_bytes())
    }

    /// The key set made from its three secrets: the X25519 secret, the
    /// ML-KEM-768 seed and the Ed25519 identity secret.
    pub fn from_secret_bytes(x25519: [u8; 32], ml_kem_seed: [u8; 64], identity: [u8; 32]) -> (k: Self)
        ensures
            k.x25519.secret_bytes() == x25519@,
            k.ml_kem_768.seed_bytes() == ml_kem_seed@,
            k.identity_secret() == identity@,
            k.consistent(),
    {
        Self {
            x25519: X25519NodeSecret::from_bytes(x25519),
            ml_kem_768: MlKem768RouteKeypair::from_seed_bytes(ml_kem_seed),
            identity_signing: IdentitySigningKey::from_bytes(&identity),
        }
    }

    /// The three secrets, in the order `from_secret_bytes` takes them.
    pub fn secret_bytes(&self) -> (r: ([u8; 32], [u8; 64], [u8; 32]))
        ensures
            r.0@ == self.x25519.secret_bytes(),
            r.1@ == self.ml_kem_768.seed_bytes(),
            r.2@ == self.identity_secret(),
    {
        (self.x25519.to_bytes(), self.ml_kem_768.to_seed_bytes(), self.identity_signing.to_bytes())
    }

    /// Fresh random keys; a failure of the random source is reported as
    /// `Random` with its message. The secrets drawn are random; the keys
    /// are the ones `from_secret_bytes` makes of them.
    pub fn generate() -> (r: Result<Self, KeyStoreError>)
        ensures
            r matches Err(e) ==> e is Random,
            r matches Ok(k) ==> k.consistent(),
    {
        let x25519_bytes = match random_32() {
            Ok(b) => b,
            Err(message) => return Err(KeyStoreError::Random(message)),
        };
        let identity_bytes = match random_32() {
            Ok(b) => b,
            Err(message) => return Err(KeyStoreError::Random(message)),
        };
        let ml_kem_seed = MlKem768RouteKeypair::generate().to_seed_bytes();
        Ok(Self::from_secret_bytes(x25519_bytes, ml_kem_seed, identity_bytes))
    }
}

/// What the key directory holds: none of the three key files, all of them,
/// or some but not all.
#[derive(Debug, Clone, Copy, PartialEq, Eq, Structural)]
pub enum KeySetPresence {
    Absent,
    Complete,
    Partial,
}

/// Classifies the presence of the three key files. A key set is generated
/// only when it is wholly absent and loaded only when it is complete; a
/// partial set is an error and is never repaired.
pub fn classify_key_set(present: [bool; 3]) -> (r: KeySetPresence)
    ensures
        r == KeySetPresence::Absent <==> (!present[0] && !present[1] && !present[2]),
        r == KeySetPresence::Complete <==> (present[0] && present[1] && present[2]),
{
    if !present[0] && !present[1] && !present[2] {
        KeySetPresence::Absent
    } else if present[0] && present[1] && present[2] {
        KeySetPresence::Complete
    } else {
        KeySetPresence::Partial
    }
}

} // verus!
