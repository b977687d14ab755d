//! The CHS7 handshake packet layer: a framed packet (magic, version, type,
//! suite, length-prefixed payload), the proof-of-work challenge carried in
//! it, and the server's key confirmation over the handshake transcript.
use vstd::prelude::*;
use crate::bytes::{
    copy_range, fill_array, lemma_u16_round_trip, lemma_u32_round_trip, lemma_u64_round_trip, push_all,
    push_u16_be, push_u32_be, push_u64_be, read_u16_be, read_u32_be, read_u64_be, u16_at, u16_be, u32_at,
    u32_be, u64_at, u64_be,
};
use crate::crypto::{ct_eq_bytes, hkdf_sha256, hkdf_sha256_output, sha256, sha256_output};
use crate::pow_admission::{PowAdmissionError, PowChallenge};
use crate::route_layer::{RouteHopSecret, has_magic};
use crate::crypto::{
    ed25519_public_key_accepted, ed25519_public_output, ed25519_signature_accepted, ed25519_signature_output,
    ed25519_verify,
};
use crate::handshake::{x25519_public_output, x25519_shared_output, X25519NodePublic, X25519NodeSecret};
use crate::hybrid_route::{
    encapsulate_route_secret, hybrid_route_secret, route_encapsulation_of, HybridRouteEncapsulation, mlkem_decapsulate_output, mlkem_encapsulation_key_accepted,
    mlkem_key_accepted,
};
use crate::key_store::NodeKeyMaterial;

verus! {

pub const HANDSHAKE_MAGIC: [u8; 4] = [0x43, 0x48, 0x53, 0x37];
pub const HANDSHAKE_VERSION: u8 = 1;
pub const HANDSHAKE_SUITE_MLKEM768_X25519_CHACHA20POLY1305: u8 = 1;
pub const KEY_CONFIRM_SIZE: usize = 32;
pub const MLKEM768_PUBLIC_KEY_BYTES: usize = 1184;
pub const MLKEM768_CIPHERTEXT_BYTES: usize = 1088;
pub const ED25519_PUBLIC_KEY_BYTES: usize = 32;
pub const ED25519_SIGNATURE_BYTES: usize = 64;
pub const SERVER_HELLO_PAYLOAD_BYTES: usize = 32 + MLKEM768_PUBLIC_KEY_BYTES + ED25519_PUBLIC_KEY_BYTES
    + ED25519_SIGNATURE_BYTES;
pub const CLIENT_KEY_SHARE_PAYLOAD_BYTES: usize = 32 + MLKEM768_CIPHERTEXT_BYTES;

/// The largest payload a packet's 16-bit length field can describe.
pub const HANDSHAKE_MAX_PAYLOAD: usize = 65535;

#[derive(Debug, Clone, Copy, PartialEq, Eq, Structural)]
pub enum HandshakePacketType {
    ServerHello,
    ClientKeyShare,
    ServerKeyConfirm,
    Error,
    PowChallenge,
    PowSolution,
}

#[derive(Debug, Clone, PartialEq, Eq, Structural)]
pub enum HandshakeError {
    InvalidLength { declared: usize, available: usize },
    PayloadTooLarge { got: usize, max: usize },
    InvalidMagic,
    UnsupportedVersion(u8),
    UnsupportedSuite(u8),
    UnknownPacketType(u8),
    WrongPacketType { expected: HandshakePacketType, got: HandshakePacketType },
    InvalidPublicKey,
    InvalidSignature,
    IdentityMismatch,
    InvalidCiphertext,
    KeyDerivation,
    KeyConfirmationFailed,
    Pow(PowAdmissionError),
}

/// The wire code of each packet type.
pub open spec fn handshake_type_code(t: HandshakePacketType) -> u8 {
    match t {
        HandshakePacketType::ServerHello => 1,
        HandshakePacketType::ClientKeyShare => 2,
        HandshakePacketType::ServerKeyConfirm => 3,
        HandshakePacketType::Error => 4,
        HandshakePacketType::PowChallenge => 5,
        HandshakePacketType::PowSolution => 6,
    }
}

/// The packet type a wire code names; other codes are refused.
pub open spec fn handshake_type_of(v: u8) -> Result<HandshakePacketType, HandshakeError> {
    if v == 1 {
        Ok(HandshakePacketType::ServerHello)
    } else if v == 2 {
        Ok(HandshakePacketType::ClientKeyShare)
    } else if v == 3 {
        Ok(HandshakePacketType::ServerKeyConfirm)
    } else if v == 4 {
        Ok(HandshakePacketType::Error)
    } else if v == 5 {
        Ok(HandshakePacketType::PowChallenge)
    } else if v == 6 {
        Ok(HandshakePacketType::PowSolution)
    } else {
        Err(HandshakeError::UnknownPacketType(v))
    }
}

impl HandshakePacketType {
    pub fn to_u8(self) -> (r: u8)
        ensures
            r == handshake_type_code(self),
    {
        match self {
            HandshakePacketType::ServerHello => 1,
            HandshakePacketType::ClientKeyShare => 2,
            HandshakePacketType::ServerKeyConfirm => 3,
            HandshakePacketType::Error => 4,
            HandshakePacketType::PowChallenge => 5,
            HandshakePacketType::PowSolution => 6,
        }
    }

    pub fn try_from_u8(value: u8) -> (r: Result<Self, HandshakeError>)
        ensures
            r == handshake_type_of(value),
    {
        match value {
            1 => Ok(HandshakePacketType::ServerHello),
            2 => Ok(HandshakePacketType::ClientKeyShare),
            3 => Ok(HandshakePacketType::ServerKeyConfirm),
            4 => Ok(HandshakePacketType::Error),
            5 => Ok(HandshakePacketType::PowChallenge),
            6 => Ok(HandshakePacketType::PowSolution),
            other => Err(HandshakeError::UnknownPacketType(other)),
        }
    }
}

/// A handshake packet: its type, the suite it negotiates, and the payload.
#[derive(Debug, Clone, PartialEq, Eq)]
pub struct HandshakePacket {
    pub packet_type: HandshakePacketType,
    pub suite: u8,
    pub payload: Vec<u8>,
}


pub open spec fn packet_model(p: HandshakePacket) -> (HandshakePacketType, u8, Seq<u8>) {
    (p.packet_type, p.suite, p.payload@)
}

pub open spec fn packet_result_model(r: Result<HandshakePacket, HandshakeError>) -> Result<
    (HandshakePacketType, u8, Seq<u8>),
    HandshakeError,
> {
    match r {
        Ok(p) => Ok(packet_model(p)),
        Err(e) => Err(e),
    }
}

/// The framed packet: magic, version, type code, suite, a reserved zero,
/// the payload length (big endian), then the payload.
pub open spec fn handshake_bytes(t: HandshakePacketType, suite: u8, payload: Seq<u8>) -> Seq<u8> {
    HANDSHAKE_MAGIC@ + seq![HANDSHAKE_VERSION, handshake_type_code(t), suite, 0u8] + u16_be(
        payload.len() as u16,
    ) + payload
}

/// What decoding `b` yields, or the first check that fails.
pub open spec fn handshake_parse(b: Seq<u8>) -> Result<(HandshakePacketType, u8, Seq<u8>), HandshakeError> {
    if b.len() < 10 {
        Err(HandshakeError::InvalidLength { declared: 10, available: b.len() as usize })
    } else if b.subrange(0, 4) != HANDSHAKE_MAGIC@ {
        Err(HandshakeError::InvalidMagic)
    } else if b[4] != HANDSHAKE_VERSION {
        Err(HandshakeError::UnsupportedVersion(b[4]))
    } else if handshake_type_of(b[5]) is Err {
        Err(HandshakeError::UnknownPacketType(b[5]))
    } else if b[6] != HANDSHAKE_SUITE_MLKEM768_X25519_CHACHA20POLY1305 {
        Err(HandshakeError::UnsupportedSuite(b[6]))
    } else if b[7] != 0 {
        Err(HandshakeError::InvalidLength { declared: 0, available: b[7] as usize })
    } else if u16_at(b, 8) as int != b.len() - 10 {
        Err(HandshakeError::InvalidLength { declared: u16_at(b, 8) as usize, available: (b.len() - 10) as usize })
    } else {
        Ok((handshake_type_of(b[5])->Ok_0, b[6], b.subrange(10, b.len() as int)))
    }
}

/// The payload of a proof-of-work challenge: relay id, window, difficulty
/// and token.
pub open spec fn challenge_bytes(c: PowChallenge) -> Seq<u8> {
    c.relay_id@ + u64_be(c.unix_window) + u32_be(c.difficulty_zero_bits) + c.token@
}

impl HandshakePacket {
    /// A packet of the given type under the CHS7 suite; payloads beyond the
    /// 16-bit length field are refused.
    pub fn new(packet_type: HandshakePacketType, payload: Vec<u8>) -> (r: Result<Self, HandshakeError>)
        ensures
            payload@.len() > HANDSHAKE_MAX_PAYLOAD ==> r == Err::<Self, HandshakeError>(
                HandshakeError::PayloadTooLarge { got: payload@.len() as usize, max: HANDSHAKE_MAX_PAYLOAD },
            ),
            payload@.len() <= HANDSHAKE_MAX_PAYLOAD ==> (r matches Ok(p) && packet_model(p) == (
                packet_type,
                HANDSHAKE_SUITE_MLKEM768_X25519_CHACHA20POLY1305,
                payload@,
            )),
    {
        if payload.len() > HANDSHAKE_MAX_PAYLOAD {
            return Err(HandshakeError::PayloadTooLarge { got: payload.len(), max: HANDSHAKE_MAX_PAYLOAD });
        }
        Ok(Self { packet_type, suite: HANDSHAKE_SUITE_MLKEM768_X25519_CHACHA20POLY1305, payload })
    }

    /// A proof-of-work challenge packet.
    pub fn pow_challenge(challenge: &PowChallenge) -> (r: Result<Self, HandshakeError>)
        ensures
            r matches Ok(p) && packet_model(p) == (
                HandshakePacketType::PowChallenge,
                HANDSHAKE_SUITE_MLKEM768_X25519_CHACHA20POLY1305,
                challenge_bytes(*challenge),
            ),
    {
        let mut payload: Vec<u8> = Vec::new();
        push_all(&mut payload, &challenge.relay_id);
        push_u64_be(&mut payload, challenge.unix_window);
        push_u32_be(&mut payload, challenge.difficulty_zero_bits);
        push_all(&mut payload, &challenge.token);
        assert(payload@ =~= challenge_bytes(*challenge));
        Self::new(HandshakePacketType::PowChallenge, payload)
    }

    /// The challenge a challenge packet carries.
    pub fn decode_pow_challenge(&self) -> (r: Result<PowChallenge, HandshakeError>)
        ensures
            self.packet_type != HandshakePacketType::PowChallenge ==> r == Err::<PowChallenge, HandshakeError>(
                HandshakeError::WrongPacketType { expected: HandshakePacketType::PowChallenge, got: self.packet_type },
            ),
            self.packet_type == HandshakePacketType::PowChallenge && self.payload@.len() != 60 ==> r == Err::<
                PowChallenge,
                HandshakeError,
            >(HandshakeError::InvalidLength { declared: 60, available: self.payload@.len() as usize }),
            self.packet_type == HandshakePacketType::PowChallenge && self.payload@.len() == 60 ==> (r matches Ok(c)
                && c.relay_id@ == self.payload@.subrange(0, 16) && c.unix_window == u64_at(self.payload@, 16)
                && c.difficulty_zero_bits == u32_at(self.payload@, 24) && c.token@ == self.payload@.subrange(28, 60)),
    {
        if self.packet_type != HandshakePacketType::PowChallenge {
            return Err(
                HandshakeError::WrongPacketType { expected: HandshakePacketType::PowChallenge, got: self.packet_type },
            );
        }
        if self.payload.len() != 60 {
            return Err(HandshakeError::InvalidLength { declared: 60, available: self.payload.len() });
        }
        let mut relay_id = [0u8; 16];
        fill_array(&mut relay_id, self.payload.as_slice(), 0);
        let unix_window = read_u64_be(self.payload.as_slice(), 16);
        let difficulty_zero_bits = read_u32_be(self.payload.as_slice(), 24);
        let mut token = [0u8; 32];
        fill_array(&mut token, self.payload.as_slice(), 28);
        Ok(PowChallenge { relay_id, unix_window, difficulty_zero_bits, token })
    }

    /// A proof-of-work solution packet carrying `nonce`.
    pub fn pow_solution(nonce: Vec<u8>) -> (r: Result<Self, HandshakeError>)
        ensures
            nonce@.len() > HANDSHAKE_MAX_PAYLOAD ==> r == Err::<Self, HandshakeError>(
                HandshakeError::PayloadTooLarge { got: nonce@.len() as usize, max: HANDSHAKE_MAX_PAYLOAD },
            ),
            nonce@.len() <= HANDSHAKE_MAX_PAYLOAD ==> (r matches Ok(p) && packet_model(p) == (
                HandshakePacketType::PowSolution,
                HANDSHAKE_SUITE_MLKEM768_X25519_CHACHA20POLY1305,
                nonce@,
            )),
    {
        Self::new(HandshakePacketType::PowSolution, nonce)
    }

    /// The framed bytes of the packet.
    pub fn encode(&self) -> (r: Result<Vec<u8>, HandshakeError>)
        ensures
            self.payload@.len() > HANDSHAKE_MAX_PAYLOAD ==> r == Err::<Vec<u8>, HandshakeError>(
                HandshakeError::PayloadTooLarge { got: self.payload@.len() as usize, max: HANDSHAKE_MAX_PAYLOAD },
            ),
            self.payload@.len() <= HANDSHAKE_MAX_PAYLOAD ==> (r matches Ok(v) && v@ == handshake_bytes(
                self.packet_type,
                self.suite,
                self.payload@,
            )),
    {
        if self.payload.len() > HANDSHAKE_MAX_PAYLOAD {
            return Err(HandshakeError::PayloadTooLarge { got: self.payload.len(), max: HANDSHAKE_MAX_PAYLOAD });
        }
        let mut out: Vec<u8> = Vec::new();
        push_all(&mut out, &HANDSHAKE_MAGIC);
        out.push(HANDSHAKE_VERSION);
        out.push(self.packet_type.to_u8());
        out.push(self.suite);
        out.push(0);
        push_u16_be(&mut out, self.payload.len() as u16);
        push_all(&mut out, self.payload.as_slice());
        assert(out@ =~= handshake_bytes(self.packet_type, self.suite, self.payload@));
        Ok(out)
    }

    /// Reads a framed packet, checking magic, version, type, suite, the
    /// reserved byte and that the length field matches what follows.
    pub fn decode(bytes: &[u8]) -> (r: Result<Self, HandshakeError>)
        ensures
            packet_result_model(r) == handshake_parse(bytes@),
    {
        if bytes.len() < 10 {
            return Err(HandshakeError::InvalidLength { declared: 10, available: bytes.len() });
        }
        if !has_magic(bytes, &HANDSHAKE_MAGIC) {
            return Err(HandshakeError::InvalidMagic);
        }
        if bytes[4] != HANDSHAKE_VERSION {
            return Err(HandshakeError::UnsupportedVersion(bytes[4]));
        }
        let packet_type = match HandshakePacketType::try_from_u8(bytes[5]) {
            Ok(t) => t,
            Err(e) => return Err(e),
        };
        let suite = bytes[6];
        if suite != HANDSHAKE_SUITE_MLKEM768_X25519_CHACHA20POLY1305 {
            return Err(HandshakeError::UnsupportedSuite(suite));
        }
        if bytes[7] != 0 {
            return Err(HandshakeError::InvalidLength { declared: 0, available: bytes[7] as usize });
        }
        let declared = read_u16_be(bytes, 8) as usize;
        let available = bytes.len() - 10;
        if declared != available {
            return Err(HandshakeError::InvalidLength { declared, available });
        }
        let payload = copy_range(bytes, 10, bytes.len());
        Ok(Self { packet_type, suite, payload })
    }
}

/// `"CHS7 server hello identity signature v1"` as bytes.
pub open spec fn hello_signature_label() -> Seq<u8> {
    seq![
        0x43u8, 0x48, 0x53, 0x37, 0x20, 0x73, 0x65, 0x72, 0x76, 0x65, 0x72, 0x20, 0x68, 0x65, 0x6c,
        0x6c, 0x6f, 0x20, 0x69, 0x64, 0x65, 0x6e, 0x74, 0x69, 0x74, 0x79, 0x20, 0x73, 0x69, 0x67,
        0x6e, 0x61, 0x74, 0x75, 0x72, 0x65, 0x20, 0x76, 0x31,
    ]
}

fn hello_signature_label_bytes() -> (r: Vec<u8>)
    ensures
        r@ == hello_signature_label(),
{
    let r: Vec<u8> = vec![
        0x43u8, 0x48, 0x53, 0x37, 0x20, 0x73, 0x65, 0x72, 0x76, 0x65, 0x72, 0x20, 0x68, 0x65, 0x6c,
        0x6c, 0x6f, 0x20, 0x69, 0x64, 0x65, 0x6e, 0x74, 0x69, 0x74, 0x79, 0x20, 0x73, 0x69, 0x67,
        0x6e, 0x61, 0x74, 0x75, 0x72, 0x65, 0x20, 0x76, 0x31,
    ];
    assert(r@ =~= hello_signature_label());
    r
}

/// `"chronos-v7-handshake-transcript"` as bytes.
pub open spec fn transcript_label() -> Seq<u8> {
    seq![
        0x63u8, 0x68, 0x72, 0x6f, 0x6e, 0x6f, 0x73, 0x2d, 0x76, 0x37, 0x2d, 0x68, 0x61, 0x6e, 0x64,
        0x73, 0x68, 0x61, 0x6b, 0x65, 0x2d, 0x74, 0x72, 0x61, 0x6e, 0x73, 0x63, 0x72, 0x69, 0x70,
        0x74,
    ]
}

fn transcript_label_bytes() -> (r: Vec<u8>)
    ensures
        r@ == transcript_label(),
{
    let r: Vec<u8> = vec![
        0x63u8, 0x68, 0x72, 0x6f, 0x6e, 0x6f, 0x73, 0x2d, 0x76, 0x37, 0x2d, 0x68, 0x61, 0x6e, 0x64,
        0x73, 0x68, 0x61, 0x6b, 0x65, 0x2d, 0x74, 0x72, 0x61, 0x6e, 0x73, 0x63, 0x72, 0x69, 0x70,
        0x74,
    ];
    assert(r@ =~= transcript_label());
    r
}

/// `"chronos-v7/handshake/key-confirmation"` as bytes.
pub open spec fn confirm_info() -> Seq<u8> {
    seq![
        0x63u8, 0x68, 0x72, 0x6f, 0x6e, 0x6f, 0x73, 0x2d, 0x76, 0x37, 0x2f, 0x68, 0x61, 0x6e, 0x64,
        0x73, 0x68, 0x61, 0x6b, 0x65, 0x2f, 0x6b, 0x65, 0x79, 0x2d, 0x63, 0x6f, 0x6e, 0x66, 0x69,
        0x72, 0x6d, 0x61, 0x74, 0x69, 0x6f, 0x6e,
    ]
}

fn confirm_info_bytes() -> (r: Vec<u8>)
    ensures
        r@ == confirm_info(),
{
    let r: Vec<u8> = vec![
        0x63u8, 0x68, 0x72, 0x6f, 0x6e, 0x6f, 0x73, 0x2d, 0x76, 0x37, 0x2f, 0x68, 0x61, 0x6e, 0x64,
        0x73, 0x68, 0x61, 0x6b, 0x65, 0x2f, 0x6b, 0x65, 0x79, 0x2d, 0x63, 0x6f, 0x6e, 0x66, 0x69,
        0x72, 0x6d, 0x61, 0x74, 0x69, 0x6f, 0x6e,
    ];
    assert(r@ =~= confirm_info());
    r
}


/// The message the server's identity key signs: a label, the version and
/// suite, then its X25519 key, ML-KEM key and identity key.
pub open spec fn server_hello_message(x25519: Seq<u8>, ml_kem: Seq<u8>, identity: Seq<u8>) -> Seq<u8> {
    hello_signature_label() + seq![HANDSHAKE_VERSION, HANDSHAKE_SUITE_MLKEM768_X25519_CHACHA20POLY1305] + x25519
        + ml_kem + identity
}

/// A server's published keys: X25519, ML-KEM-768, the Ed25519 identity, and
/// the identity's signature over them.
#[derive(Clone)]
pub struct HandshakePublicKeys {
    pub x25519_public: X25519NodePublic,
    pub ml_kem_public: [u8; 1184],
    pub identity_public: [u8; 32],
    pub signature: [u8; 64],
}

/// The keys as byte strings, in payload order.
pub open spec fn keys_model(k: HandshakePublicKeys) -> (Seq<u8>, Seq<u8>, Seq<u8>, Seq<u8>) {
    (k.x25519_public.0@, k.ml_kem_public@, k.identity_public@, k.signature@)
}

pub open spec fn keys_result_model(r: Result<HandshakePublicKeys, HandshakeError>) -> Result<
    (Seq<u8>, Seq<u8>, Seq<u8>, Seq<u8>),
    HandshakeError,
> {
    match r {
        Ok(k) => Ok(keys_model(k)),
        Err(e) => Err(e),
    }
}

/// What reading a ServerHello gives: the suite, type and length checks,
/// then the ML-KEM key, the identity key and the signature must be accepted.
pub open spec fn parse_server_hello(p: HandshakePacket) -> Result<(Seq<u8>, Seq<u8>, Seq<u8>, Seq<u8>), HandshakeError> {
    let pl = p.payload@;
    if p.suite != HANDSHAKE_SUITE_MLKEM768_X25519_CHACHA20POLY1305 {
        Err(HandshakeError::UnsupportedSuite(p.suite))
    } else if p.packet_type != HandshakePacketType::ServerHello {
        Err(HandshakeError::WrongPacketType { expected: HandshakePacketType::ServerHello, got: p.packet_type })
    } else if pl.len() != SERVER_HELLO_PAYLOAD_BYTES {
        Err(HandshakeError::InvalidLength { declared: SERVER_HELLO_PAYLOAD_BYTES, available: pl.len() as usize })
    } else {
        let x = pl.subrange(0, 32);
        let kem = pl.subrange(32, 1216);
        let id = pl.subrange(1216, 1248);
        let sig = pl.subrange(1248, 1312);
        if !mlkem_encapsulation_key_accepted(kem) {
            Err(HandshakeError::InvalidPublicKey)
        } else if !ed25519_public_key_accepted(id) {
            Err(HandshakeError::InvalidPublicKey)
        } else if !ed25519_signature_accepted(id, server_hello_message(x, kem, id), sig) {
            Err(HandshakeError::InvalidSignature)
        } else {
            Ok((x, kem, id, sig))
        }
    }
}

/// The framed bytes of a packet.
pub open spec fn packet_bytes(p: HandshakePacket) -> Seq<u8> {
    handshake_bytes(p.packet_type, p.suite, p.payload@)
}

/// The transcript hash: SHA-256 over a label, the framed ServerHello and
/// the framed ClientKeyShare.
pub open spec fn transcript_digest(server_hello: Seq<u8>, client_share: Seq<u8>) -> Seq<u8> {
    sha256_output(transcript_label() + server_hello + client_share)
}

/// The key confirmation: HKDF-SHA256 of the route secret salted with the
/// transcript hash, 32 bytes.
pub open spec fn key_confirmation_tag(route_secret: Seq<u8>, transcript: Seq<u8>) -> Seq<u8> {
    hkdf_sha256_output(transcript, route_secret, confirm_info(), 32)
}

/// The first check that a ClientKeyShare fails on the server, if any.
pub open spec fn client_share_error(server_hello: HandshakePacket, client_share: HandshakePacket) -> Option<HandshakeError> {
    if server_hello.suite != HANDSHAKE_SUITE_MLKEM768_X25519_CHACHA20POLY1305 {
        Some(HandshakeError::UnsupportedSuite(server_hello.suite))
    } else if client_share.suite != HANDSHAKE_SUITE_MLKEM768_X25519_CHACHA20POLY1305 {
        Some(HandshakeError::UnsupportedSuite(client_share.suite))
    } else if client_share.packet_type != HandshakePacketType::ClientKeyShare {
        Some(HandshakeError::WrongPacketType { expected: HandshakePacketType::ClientKeyShare, got: client_share.packet_type })
    } else if client_share.payload@.len() != CLIENT_KEY_SHARE_PAYLOAD_BYTES {
        Some(HandshakeError::InvalidLength { declared: CLIENT_KEY_SHARE_PAYLOAD_BYTES, available: client_share.payload@.len() as usize })
    } else if server_hello.payload@.len() > HANDSHAKE_MAX_PAYLOAD {
        Some(HandshakeError::PayloadTooLarge { got: server_hello.payload@.len() as usize, max: HANDSHAKE_MAX_PAYLOAD })
    } else {
        None
    }
}

/// What the client's check of a ServerKeyConfirm gives for its route
/// secret and transcript.
pub open spec fn confirm_check(route_secret: Seq<u8>, transcript: Seq<u8>, p: HandshakePacket) -> Result<(), HandshakeError> {
    if p.suite != HANDSHAKE_SUITE_MLKEM768_X25519_CHACHA20POLY1305 {
        Err(HandshakeError::UnsupportedSuite(p.suite))
    } else if p.packet_type != HandshakePacketType::ServerKeyConfirm {
        Err(HandshakeError::WrongPacketType { expected: HandshakePacketType::ServerKeyConfirm, got: p.packet_type })
    } else if p.payload@.len() != KEY_CONFIRM_SIZE {
        Err(HandshakeError::InvalidLength { declared: KEY_CONFIRM_SIZE, available: p.payload@.len() as usize })
    } else if p.payload@ != key_confirmation_tag(route_secret, transcript) {
        Err(HandshakeError::KeyConfirmationFailed)
    } else {
        Ok(())
    }
}

impl HandshakePublicKeys {
    /// A node's published keys, signed with its identity key.
    pub fn from_node_keys(keys: &NodeKeyMaterial) -> (r: Self)
        ensures
            r.x25519_public.0@ == x25519_public_output(keys.x25519.secret_bytes()),
            r.ml_kem_public@ == keys.ml_kem_768.encapsulation_key_bytes(),
            r.identity_public@ == ed25519_public_output(keys.identity_secret()),
            r.signature@ == ed25519_signature_output(
                keys.identity_secret(),
                server_hello_message(r.x25519_public.0@, r.ml_kem_public@, r.identity_public@),
            ),
    {
        let x25519_public = keys.x25519.public();
        let ml_kem_public = keys.ml_kem_768.encapsulation_key_array();
        let identity_public = keys.identity_signing.verifying_key_bytes();
        let message = server_hello_message_bytes(&x25519_public, &ml_kem_public, &identity_public);
        let signature = keys.identity_signing.sign(message.as_slice());
        Self { x25519_public, ml_kem_public, identity_public, signature }
    }

    /// Keys with a zero identity and signature, which no client accepts.
    pub fn unsigned_for_tests(x25519_public: X25519NodePublic, ml_kem_public: [u8; 1184]) -> (r: Self)
        ensures
            keys_model(r) == (x25519_public.0@, ml_kem_public@, Seq::new(32, |i: int| 0u8), Seq::new(
                64,
                |i: int| 0u8,
            )),
    {
        let r = Self { x25519_public, ml_kem_public, identity_public: [0u8; 32], signature: [0u8; 64] };
        assert(r.identity_public@ =~= Seq::new(32, |i: int| 0u8));
        assert(r.signature@ =~= Seq::new(64, |i: int| 0u8));
        r
    }

    /// The ServerHello carrying the keys and signature.
    pub fn to_server_hello_packet(&self) -> (r: Result<HandshakePacket, HandshakeError>)
        ensures
            r matches Ok(p) && packet_model(p) == (
                HandshakePacketType::ServerHello,
                HANDSHAKE_SUITE_MLKEM768_X25519_CHACHA20POLY1305,
                self.x25519_public.0@ + self.ml_kem_public@ + self.identity_public@ + self.signature@,
            ),
    {
        let mut payload: Vec<u8> = Vec::new();
        push_all(&mut payload, &self.x25519_public.0);
        push_all(&mut payload, &self.ml_kem_public);
        push_all(&mut payload, &self.identity_public);
        push_all(&mut payload, &self.signature);
        HandshakePacket::new(HandshakePacketType::ServerHello, payload)
    }

    /// Reads a ServerHello and also requires the identity key to be the
    /// expected one.
    pub fn from_server_hello_packet_for_identity(packet: &HandshakePacket, expected_identity: &[u8; 32]) -> (r:
        Result<Self, HandshakeError>)
        ensures
            parse_server_hello(*packet) matches Err(e) ==> r == Err::<Self, HandshakeError>(e),
            parse_server_hello(*packet) matches Ok(t) ==> if t.2 != expected_identity@ {
                r == Err::<Self, HandshakeError>(HandshakeError::IdentityMismatch)
            } else {
                keys_result_model(r) == Ok::<(Seq<u8>, Seq<u8>, Seq<u8>, Seq<u8>), HandshakeError>(t)
            },
    {
        let parsed = match Self::from_server_hello_packet(packet) {
            Ok(k) => k,
            Err(e) => return Err(e),
        };
        if !crate::bytes::bytes_equal(&parsed.identity_public, expected_identity) {
            return Err(HandshakeError::IdentityMismatch);
        }
        Ok(parsed)
    }

    /// Reads a ServerHello: suite, type and exact length, then the ML-KEM
    /// key must be accepted and the identity's signature must verify.
    pub fn from_server_hello_packet(packet: &HandshakePacket) -> (r: Result<Self, HandshakeError>)
        ensures
            keys_result_model(r) == parse_server_hello(*packet),
    {
        if packet.suite != HANDSHAKE_SUITE_MLKEM768_X25519_CHACHA20POLY1305 {
            return Err(HandshakeError::UnsupportedSuite(packet.suite));
        }
        if packet.packet_type != HandshakePacketType::ServerHello {
            return Err(
                HandshakeError::WrongPacketType { expected: HandshakePacketType::ServerHello, got: packet.packet_type },
            );
        }
        if packet.payload.len() != SERVER_HELLO_PAYLOAD_BYTES {
            return Err(
                HandshakeError::InvalidLength { declared: SERVER_HELLO_PAYLOAD_BYTES, available: packet.payload.len() },
            );
        }
        let pl = packet.payload.as_slice();
        let mut x = [0u8; 32];
        fill_array(&mut x, pl, 0);
        let mut ml_kem_public = [0u8; 1184];
        fill_array(&mut ml_kem_public, pl, 32);
        if !mlkem_key_accepted(&ml_kem_public) {
            return Err(HandshakeError::InvalidPublicKey);
        }
        let mut identity_public = [0u8; 32];
        fill_array(&mut identity_public, pl, 1216);
        let mut signature = [0u8; 64];
        fill_array(&mut signature, pl, 1248);
        let x25519_public = X25519NodePublic(x);
        match verify_server_hello_signature(&x25519_public, &ml_kem_public, &identity_public, &signature) {
            Ok(()) => {},
            Err(e) => return Err(e),
        }
        Ok(Self { x25519_public, ml_kem_public, identity_public, signature })
    }
}

fn server_hello_message_bytes(x25519_public: &X25519NodePublic, ml_kem_public: &[u8; 1184], identity_public: &[u8; 32]) -> (r:
    Vec<u8>)
    ensures
        r@ == server_hello_message(x25519_public.0@, ml_kem_public@, identity_public@),
{
    let mut msg = hello_signature_label_bytes();
    msg.push(HANDSHAKE_VERSION);
    msg.push(HANDSHAKE_SUITE_MLKEM768_X25519_CHACHA20POLY1305);
    push_all(&mut msg, &x25519_public.0);
    push_all(&mut msg, ml_kem_public);
    push_all(&mut msg, identity_public);
    assert(msg@ =~= server_hello_message(x25519_public.0@, ml_kem_public@, identity_public@));
    msg
}

fn verify_server_hello_signature(
    x25519_public: &X25519NodePublic,
    ml_kem_public: &[u8; 1184],
    identity_public: &[u8; 32],
    signature: &[u8; 64],
) -> (r: Result<(), HandshakeError>)
    ensures
        !ed25519_public_key_accepted(identity_public@) ==> r == Err::<(), HandshakeError>(HandshakeError::InvalidPublicKey),
        ed25519_public_key_accepted(identity_public@) ==> (r is Ok <==> ed25519_signature_accepted(
            identity_public@,
            server_hello_message(x25519_public.0@, ml_kem_public@, identity_public@),
            signature@,
        )),
        r matches Err(e) ==> e == HandshakeError::InvalidPublicKey || e == HandshakeError::InvalidSignature,
        ed25519_public_key_accepted(identity_public@) ==> (r matches Err(e) ==> e == HandshakeError::InvalidSignature),
{
    let message = server_hello_message_bytes(x25519_public, ml_kem_public, identity_public);
    match ed25519_verify(identity_public, message.as_slice(), signature) {
        None => Err(HandshakeError::InvalidPublicKey),
        Some(true) => Ok(()),
        Some(false) => Err(HandshakeError::InvalidSignature),
    }
}

/// The client's state after sending its key share.
#[derive(Debug, Clone, PartialEq, Eq)]
pub struct ClientHandshakeState {
    pub route_secret: RouteHopSecret,
    transcript_hash: [u8; 32],
}

/// The server's state after confirming.
#[derive(Debug, Clone, PartialEq, Eq)]
pub struct ServerHandshakeState {
    pub route_secret: RouteHopSecret,
    transcript_hash: [u8; 32],
}

impl ClientHandshakeState {
    pub closed spec fn secret(&self) -> Seq<u8> {
        self.route_secret.0@
    }

    pub closed spec fn transcript(&self) -> Seq<u8> {
        self.transcript_hash@
    }
}

impl ServerHandshakeState {
    pub closed spec fn secret(&self) -> Seq<u8> {
        self.route_secret.0@
    }

    pub closed spec fn transcript(&self) -> Seq<u8> {
        self.transcript_hash@
    }
}

/// `share` and `st` are the ClientKeyShare and client state made of the
/// ML-KEM ciphertext `ct` and the shared key `pq` it carries: the share
/// sends the client's X25519 public key and `ct`, the state holds the route
/// secret of `pq` and the X25519 exchange, and the transcript of the
/// encoded ServerHello and share.
pub open spec fn client_share_of(
    share: HandshakePacket,
    st: ClientHandshakeState,
    ct: Seq<u8>,
    pq: Seq<u8>,
    client_secret: Seq<u8>,
    server_x25519_public: Seq<u8>,
    server_hello_bytes: Seq<u8>,
) -> bool {
    &&& packet_model(share) == (
        HandshakePacketType::ClientKeyShare,
        HANDSHAKE_SUITE_MLKEM768_X25519_CHACHA20POLY1305,
        x25519_public_output(client_secret) + ct,
    )
    &&& st.secret() == hybrid_route_secret(
        pq,
        x25519_shared_output(client_secret, server_x25519_public),
        server_hello_bytes,
    )
    &&& st.transcript() == transcript_digest(server_hello_bytes, packet_bytes(share))
}

/// The ClientKeyShare that carries an encapsulation (the sender's X25519
/// public key, then the ML-KEM ciphertext), and the client's state: the
/// encapsulation's route secret and the transcript of the encoded
/// ServerHello and the share.
pub fn client_key_share(server_hello_bytes: &[u8], encapsulation: HybridRouteEncapsulation) -> (r: Result<
    (HandshakePacket, ClientHandshakeState),
    HandshakeError,
>)
    ensures
        r matches Ok((share, st)) && packet_model(share) == (
            HandshakePacketType::ClientKeyShare,
            HANDSHAKE_SUITE_MLKEM768_X25519_CHACHA20POLY1305,
            encapsulation.sender_x25519_public.0@ + encapsulation.ml_kem_ciphertext@,
        ) && st.secret() == encapsulation.route_secret.0@ && st.transcript() == transcript_digest(
            server_hello_bytes@,
            packet_bytes(share),
        ),
{
    let mut payload: Vec<u8> = Vec::new();
    push_all(&mut payload, &encapsulation.sender_x25519_public.0);
    push_all(&mut payload, &encapsulation.ml_kem_ciphertext);
    let client_share = match HandshakePacket::new(HandshakePacketType::ClientKeyShare, payload) {
        Ok(p) => p,
        Err(e) => return Err(e),
    };
    let share_bytes = match client_share.encode() {
        Ok(b) => b,
        Err(e) => return Err(e),
    };
    let transcript_hash = transcript_hash(server_hello_bytes, share_bytes.as_slice());
    Ok((client_share, ClientHandshakeState { route_secret: encapsulation.route_secret, transcript_hash }))
}

/// The client's first step: reads and authenticates the ServerHello,
/// encapsulates a route secret to the server's keys (the ML-KEM ciphertext
/// and the shared key it carries are random), and sends its X25519 key and
/// the ML-KEM ciphertext.
pub fn client_begin_handshake(server_hello: &HandshakePacket, client_x25519: &X25519NodeSecret) -> (r: Result<
    (HandshakePacket, ClientHandshakeState),
    HandshakeError,
>)
    ensures
        parse_server_hello(*server_hello) matches Err(e) ==> r == Err::<
            (HandshakePacket, ClientHandshakeState),
            HandshakeError,
        >(e),
        parse_server_hello(*server_hello) matches Ok(t) ==> (r matches Ok((share, st)) && exists|
            ct: Seq<u8>,
            pq: Seq<u8>,
        |
            ct.len() == 1088 && pq.len() == 32 && #[trigger] client_share_of(
                share,
                st,
                ct,
                pq,
                client_x25519.secret_bytes(),
                t.0,
                packet_bytes(*server_hello),
            )),
{
    if server_hello.suite != HANDSHAKE_SUITE_MLKEM768_X25519_CHACHA20POLY1305 {
        return Err(HandshakeError::UnsupportedSuite(server_hello.suite));
    }
    let server_keys = match HandshakePublicKeys::from_server_hello_packet(server_hello) {
        Ok(k) => k,
        Err(e) => return Err(e),
    };
    let server_hello_bytes = match server_hello.encode() {
        Ok(b) => b,
        Err(e) => return Err(e),
    };
    let init = match encapsulate_route_secret(
        &server_keys.ml_kem_public,
        client_x25519,
        server_keys.x25519_public,
        server_hello_bytes.as_slice(),
    ) {
        Ok(i) => i,
        Err(_) => return Err(HandshakeError::KeyDerivation),
    };
    let r = client_key_share(server_hello_bytes.as_slice(), init);
    proof {
        assert(server_hello_bytes@ == packet_bytes(*server_hello));
        let t = parse_server_hello(*server_hello)->Ok_0;
        assert(t.0 == server_keys.x25519_public.0@);
        let (share, st) = r->Ok_0;
        let ct = choose|ct: Seq<u8>, pq: Seq<u8>|
            ct.len() == 1088 && pq.len() == 32 && #[trigger] route_encapsulation_of(
                init,
                ct,
                pq,
                client_x25519.secret_bytes(),
                server_keys.x25519_public.0@,
                server_hello_bytes@,
            );
        assert(client_share_of(
            share,
            st,
            ct.0,
            ct.1,
            client_x25519.secret_bytes(),
            t.0,
            packet_bytes(*server_hello),
        ));
    }
    r
}

/// The server's step: checks the ClientKeyShare, decapsulates the route
/// secret with its keys, and answers with the key confirmation over the
/// transcript.
pub fn server_accept_handshake(
    server_hello: &HandshakePacket,
    client_share: &HandshakePacket,
    server_keys: &NodeKeyMaterial,
) -> (r: Result<(HandshakePacket, ServerHandshakeState), HandshakeError>)
    ensures
        client_share_error(*server_hello, *client_share) matches Some(e) ==> r == Err::<
            (HandshakePacket, ServerHandshakeState),
            HandshakeError,
        >(e),
        client_share_error(*server_hello, *client_share) is None ==> (r matches Ok((confirm, st)) && st.secret()
            == hybrid_route_secret(
            mlkem_decapsulate_output(
                server_keys.ml_kem_768.seed_bytes(),
                client_share.payload@.subrange(32, CLIENT_KEY_SHARE_PAYLOAD_BYTES as int),
            ),
            x25519_shared_output(server_keys.x25519.secret_bytes(), client_share.payload@.subrange(0, 32)),
            packet_bytes(*server_hello),
        ) && st.transcript() == transcript_digest(packet_bytes(*server_hello), packet_bytes(*client_share))
            && confirm.packet_type == HandshakePacketType::ServerKeyConfirm && confirm.suite
            == HANDSHAKE_SUITE_MLKEM768_X25519_CHACHA20POLY1305 && confirm.payload@ == key_confirmation_tag(
            st.secret(),
            st.transcript(),
        )),
{
    if server_hello.suite != HANDSHAKE_SUITE_MLKEM768_X25519_CHACHA20POLY1305 {
        return Err(HandshakeError::UnsupportedSuite(server_hello.suite));
    }
    if client_share.suite != HANDSHAKE_SUITE_MLKEM768_X25519_CHACHA20POLY1305 {
        return Err(HandshakeError::UnsupportedSuite(client_share.suite));
    }
    if client_share.packet_type != HandshakePacketType::ClientKeyShare {
        return Err(
            HandshakeError::WrongPacketType { expected: HandshakePacketType::ClientKeyShare, got: client_share.packet_type },
        );
    }
    if client_share.payload.len() != CLIENT_KEY_SHARE_PAYLOAD_BYTES {
        return Err(
            HandshakeError::InvalidLength { declared: CLIENT_KEY_SHARE_PAYLOAD_BYTES, available: client_share.payload.len() },
        );
    }
    let pl = client_share.payload.as_slice();
    let mut sender_x = [0u8; 32];
    fill_array(&mut sender_x, pl, 0);
    let mut ciphertext = [0u8; 1088];
    fill_array(&mut ciphertext, pl, 32);
    let server_hello_bytes = match server_hello.encode() {
        Ok(b) => b,
        Err(e) => return Err(e),
    };
    let route_secret = match server_keys.ml_kem_768.decapsulate_route_secret(
        &ciphertext,
        X25519NodePublic(sender_x),
        &server_keys.x25519,
        server_hello_bytes.as_slice(),
    ) {
        Ok(s) => s,
        Err(_) => return Err(HandshakeError::KeyDerivation),
    };
    let share_bytes = match client_share.encode() {
        Ok(b) => b,
        Err(e) => return Err(e),
    };
    let transcript_hash = transcript_hash(server_hello_bytes.as_slice(), share_bytes.as_slice());
    let confirmation = key_confirmation(&route_secret, &transcript_hash);
    let confirm_packet = match HandshakePacket::new(HandshakePacketType::ServerKeyConfirm, confirmation) {
        Ok(p) => p,
        Err(e) => return Err(e),
    };
    Ok((confirm_packet, ServerHandshakeState { route_secret, transcript_hash }))
}

/// The client's last step: the ServerKeyConfirm must carry, in constant
/// time, the confirmation of its route secret over its transcript.
pub fn client_verify_server_confirm(state: &ClientHandshakeState, confirm_packet: &HandshakePacket) -> (r: Result<
    (),
    HandshakeError,
>)
    ensures
        r == confirm_check(state.secret(), state.transcript(), *confirm_packet),
{
    if confirm_packet.suite != HANDSHAKE_SUITE_MLKEM768_X25519_CHACHA20POLY1305 {
        return Err(HandshakeError::UnsupportedSuite(confirm_packet.suite));
    }
    if confirm_packet.packet_type != HandshakePacketType::ServerKeyConfirm {
        return Err(
            HandshakeError::WrongPacketType { expected: HandshakePacketType::ServerKeyConfirm, got: confirm_packet.packet_type },
        );
    }
    if confirm_packet.payload.len() != KEY_CONFIRM_SIZE {
        return Err(HandshakeError::InvalidLength { declared: KEY_CONFIRM_SIZE, available: confirm_packet.payload.len() });
    }
    let expected = key_confirmation(&state.route_secret, &state.transcript_hash);
    if !ct_eq_bytes(confirm_packet.payload.as_slice(), expected.as_slice()) {
        return Err(HandshakeError::KeyConfirmationFailed);
    }
    Ok(())
}

fn transcript_hash(server_hello: &[u8], client_share: &[u8]) -> (r: [u8; 32])
    ensures
        r@ == transcript_digest(server_hello@, client_share@),
{
    let mut input = transcript_label_bytes();
    push_all(&mut input, server_hello);
    push_all(&mut input, client_share);
    assert(input@ =~= transcript_label() + server_hello@ + client_share@);
    sha256(input.as_slice())
}

/// HKDF-SHA256 of 32 bytes cannot fail.
fn key_confirmation(route_secret: &RouteHopSecret, transcript_hash: &[u8; 32]) -> (r: Vec<u8>)
    ensures
        r@ == key_confirmation_tag(route_secret.0@, transcript_hash@),
        r@.len() == KEY_CONFIRM_SIZE,
{
    let info = confirm_info_bytes();
    match hkdf_sha256(transcript_hash, &route_secret.0, info.as_slice(), KEY_CONFIRM_SIZE) {
        Some(v) => v,
        None => Vec::new(),
    }
}

/// The confirmation a server sends for a route secret and transcript passes
/// the check of a client that holds the same route secret and transcript.
pub proof fn lemma_confirmation_accepted(route_secret: Seq<u8>, transcript: Seq<u8>, confirm: HandshakePacket)
    requires
        confirm.packet_type == HandshakePacketType::ServerKeyConfirm,
        confirm.suite == HANDSHAKE_SUITE_MLKEM768_X25519_CHACHA20POLY1305,
        confirm.payload@ == key_confirmation_tag(route_secret, transcript),
        key_confirmation_tag(route_secret, transcript).len() == KEY_CONFIRM_SIZE,
    ensures
        confirm_check(route_secret, transcript, confirm) == Ok::<(), HandshakeError>(()),
{
}

/// Decoding an encoded packet of the CHS7 suite gives it back.
pub proof fn lemma_handshake_round_trip(t: HandshakePacketType, payload: Seq<u8>)
    requires
        payload.len() <= HANDSHAKE_MAX_PAYLOAD,
    ensures
        handshake_parse(handshake_bytes(t, HANDSHAKE_SUITE_MLKEM768_X25519_CHACHA20POLY1305, payload)) == Ok::<
            (HandshakePacketType, u8, Seq<u8>),
            HandshakeError,
        >((t, HANDSHAKE_SUITE_MLKEM768_X25519_CHACHA20POLY1305, payload)),
{
    let b = handshake_bytes(t, HANDSHAKE_SUITE_MLKEM768_X25519_CHACHA20POLY1305, payload);
    lemma_u16_round_trip(payload.len() as u16);
    assert(b.subrange(0, 4) =~= HANDSHAKE_MAGIC@);
    assert(u16_at(b, 8) == u16_at(u16_be(payload.len() as u16), 0));
    assert(b.subrange(10, b.len() as int) =~= payload);
}

/// The challenge read back from a challenge packet's payload is the
/// challenge that was written.
pub proof fn lemma_challenge_round_trip(c: PowChallenge)
    ensures
        challenge_bytes(c).len() == 60,
        challenge_bytes(c).subrange(0, 16) == c.relay_id@,
        u64_at(challenge_bytes(c), 16) == c.unix_window,
        u32_at(challenge_bytes(c), 24) == c.difficulty_zero_bits,
        challenge_bytes(c).subrange(28, 60) == c.token@,
{
    let b = challenge_bytes(c);
    lemma_u64_round_trip(c.unix_window);
    lemma_u32_round_trip(c.difficulty_zero_bits);
    assert(b.subrange(0, 16) =~= c.relay_id@);
    assert(u64_at(b, 16) == u64_at(u64_be(c.unix_window), 0));
    assert(u32_at(b, 24) == u32_at(u32_be(c.difficulty_zero_bits), 0));
    assert(b.subrange(28, 60) =~= c.token@);
}

} // verus!
