//! Authenticated layered route packets: per-hop AEAD layers, packet-id
//! blinding, typed route commands, single-use reply blocks and replay state.
use vstd::prelude::*;
use std::time::{Duration, Instant};
use vstd::arithmetic::div_mod::lemma_fundamental_div_mod;
use crate::time::{duration_as_nanos, duration_nanos, instant_duration_since, instant_now};
use crate::crypto::{
    aead_open, aead_open_output, aead_seal, aead_seal_output, hkdf_sha256, hkdf_sha256_output,
};
use crate::bytes::{
    all_zero, copy_range, lemma_u16_round_trip, lemma_u64_round_trip, push_all, push_u16_be,
    push_u64_be, push_zeros, read_u16_be, read_u64_be, u16_at, u16_be, u64_at, u64_be,
};

verus! {

pub const ROUTE_LAYER_MAGIC: [u8; 4] = [0x52, 0x54, 0x45, 0x37];
pub const ROUTE_LAYER_VERSION: u8 = 1;
pub const ROUTE_LAYER_HEADER_SIZE: usize = 32;
pub const ROUTE_LAYER_TAG_SIZE: usize = 16;
pub const ROUTE_LAYER_MAX_BODY: usize = 2048;
pub const ROUTE_PACKET_MAGIC: [u8; 4] = [0x52, 0x54, 0x50, 0x37];
pub const ROUTE_PACKET_HEADER_SIZE: usize = 16;

#[allow(inconsistent_fields)]
#[derive(Debug, Clone, PartialEq, Eq)]
pub enum RouteLayerError {
    TooManyHops { got: usize, max: usize },
    EmptyRoute,
    BodyTooLarge { got: usize, max: usize },
    InvalidMagic,
    UnsupportedVersion(u8),
    HopIndexMismatch { expected: u8, got: u8 },
    InvalidLength { declared: usize, available: usize },
    InvalidReservedBytes,
    KeyDerivation,
    AuthenticationFailed,
    Replay { packet_id: u64, hop_index: u8 },
    ReplyBlockAlreadyUsed,
    DropCommand,
}

#[derive(Debug, Clone, Copy, PartialEq, Eq, Structural)]
pub enum RouteCommandKind {
    Forward,
    DeliverLocal,
    Drop,
    Reply,
}

#[derive(Debug, Clone, Copy, PartialEq, Eq, Structural)]
pub struct RouteCommand {
    pub next_stream_id: u64,
    pub flags: u8,
}

/// The command kind that the low two bits of `flags` select.
pub open spec fn command_kind_of(flags: u8) -> RouteCommandKind {
    let bits = flags & 3u8;
    if bits == 0 {
        RouteCommandKind::Forward
    } else if bits == 1 {
        RouteCommandKind::DeliverLocal
    } else if bits == 2 {
        RouteCommandKind::Drop
    } else {
        RouteCommandKind::Reply
    }
}

impl RouteCommand {
    pub const KIND_MASK: u8 = 0x03;

    pub fn forward(next_stream_id: u64) -> (r: Self)
        ensures
            r == (RouteCommand { next_stream_id, flags: 0 }),
    {
        Self { next_stream_id, flags: 0 }
    }

    pub fn deliver_local() -> (r: Self)
        ensures
            r == (RouteCommand { next_stream_id: 0, flags: 1 }),
    {
        Self { next_stream_id: 0, flags: 1 }
    }

    pub fn drop() -> (r: Self)
        ensures
            r == (RouteCommand { next_stream_id: 0, flags: 2 }),
    {
        Self { next_stream_id: 0, flags: 2 }
    }

    pub fn reply(reply_stream_id: u64) -> (r: Self)
        ensures
            r == (RouteCommand { next_stream_id: reply_stream_id, flags: 3 }),
    {
        Self { next_stream_id: reply_stream_id, flags: 3 }
    }

    pub fn kind(self) -> (r: RouteCommandKind)
        ensures
            r == command_kind_of(self.flags),
    {
        let bits = self.flags & Self::KIND_MASK;
        if bits == 0 {
            RouteCommandKind::Forward
        } else if bits == 1 {
            RouteCommandKind::DeliverLocal
        } else if bits == 2 {
            RouteCommandKind::Drop
        } else {
            RouteCommandKind::Reply
        }
    }
}

#[derive(Debug, Clone, PartialEq, Eq)]
pub struct RouteHopSecret(pub [u8; 32]);

#[derive(Debug, Clone, PartialEq, Eq)]
pub struct LayeredRoutePacket {
    pub packet_id: u64,
    pub hop_index: u8,
    pub body: Vec<u8>,
}

/// Whether the first four bytes of `b` are `magic`.
pub fn has_magic(b: &[u8], magic: &[u8; 4]) -> (r: bool)
    requires
        b@.len() >= 4,
    ensures
        r == (b@.subrange(0, 4) == magic@),
{
    let ok = b[0] == magic[0] && b[1] == magic[1] && b[2] == magic[2] && b[3] == magic[3];
    assert(ok ==> b@.subrange(0, 4) =~= magic@);
    assert(b@.subrange(0, 4) == magic@ ==> b@.subrange(0, 4)[3] == magic@[3]);
    ok
}

/// The serialized route packet: magic, version, hop index, body length and
/// packet id (big endian), then the body.
pub open spec fn route_packet_bytes(packet_id: u64, hop_index: u8, body: Seq<u8>) -> Seq<u8> {
    ROUTE_PACKET_MAGIC@ + seq![ROUTE_LAYER_VERSION, hop_index] + u16_be(body.len() as u16)
        + u64_be(packet_id) + body
}

/// What decoding `bytes` as a route packet yields: the packet id, hop index
/// and body, or the first check that fails.
pub open spec fn route_packet_parse(bytes: Seq<u8>) -> Result<(u64, u8, Seq<u8>), RouteLayerError> {
    if bytes.len() < 16 {
        Err(RouteLayerError::InvalidLength { declared: 16, available: bytes.len() as usize })
    } else if bytes.subrange(0, 4) != ROUTE_PACKET_MAGIC@ {
        Err(RouteLayerError::InvalidMagic)
    } else if bytes[4] != ROUTE_LAYER_VERSION {
        Err(RouteLayerError::UnsupportedVersion(bytes[4]))
    } else if u16_at(bytes, 6) as int != bytes.len() - 16 {
        Err(
            RouteLayerError::InvalidLength {
                declared: u16_at(bytes, 6) as usize,
                available: (bytes.len() - 16) as usize,
            },
        )
    } else {
        Ok((u64_at(bytes, 8), bytes[5], bytes.subrange(16, bytes.len() as int)))
    }
}

/// Decoding an encoded route packet gives back its id, hop index and body.
pub proof fn lemma_route_packet_round_trip(packet_id: u64, hop_index: u8, body: Seq<u8>)
    requires
        body.len() <= ROUTE_LAYER_MAX_BODY,
    ensures
        route_packet_parse(route_packet_bytes(packet_id, hop_index, body)) == Ok::<
            (u64, u8, Seq<u8>),
            RouteLayerError,
        >((packet_id, hop_index, body)),
{
    let b = route_packet_bytes(packet_id, hop_index, body);
    lemma_u16_round_trip(body.len() as u16);
    lemma_u64_round_trip(packet_id);
    assert(b.subrange(0, 4) =~= ROUTE_PACKET_MAGIC@);
    assert(u16_at(b, 6) == u16_at(u16_be(body.len() as u16), 0));
    assert(u64_at(b, 8) == u64_at(u64_be(packet_id), 0));
    assert(b.subrange(16, b.len() as int) =~= body);
}

impl LayeredRoutePacket {
    pub fn encode(&self) -> (r: Result<Vec<u8>, RouteLayerError>)
        ensures
            self.body@.len() > ROUTE_LAYER_MAX_BODY ==> r == Err::<Vec<u8>, RouteLayerError>(
                RouteLayerError::BodyTooLarge { got: self.body@.len() as usize, max: ROUTE_LAYER_MAX_BODY },
            ),
            self.body@.len() <= ROUTE_LAYER_MAX_BODY ==> (r matches Ok(b) && b@ == route_packet_bytes(
                self.packet_id,
                self.hop_index,
                self.body@,
            )),
    {
        if self.body.len() > 65535 || self.body.len() > ROUTE_LAYER_MAX_BODY {
            return Err(
                RouteLayerError::BodyTooLarge { got: self.body.len(), max: ROUTE_LAYER_MAX_BODY },
            );
        }
        let mut out: Vec<u8> = Vec::new();
        push_all(&mut out, &ROUTE_PACKET_MAGIC);
        out.push(ROUTE_LAYER_VERSION);
        out.push(self.hop_index);
        push_u16_be(&mut out, self.body.len() as u16);
        push_u64_be(&mut out, self.packet_id);
        push_all(&mut out, self.body.as_slice());
        assert(out@ =~= route_packet_bytes(self.packet_id, self.hop_index, self.body@));
        Ok(out)
    }

    pub fn decode(bytes: &[u8]) -> (r: Result<Self, RouteLayerError>)
        ensures
            match r {
                Ok(p) => route_packet_parse(bytes@) == Ok::<(u64, u8, Seq<u8>), RouteLayerError>(
                    (p.packet_id, p.hop_index, p.body@),
                ),
                Err(e) => route_packet_parse(bytes@) == Err::<(u64, u8, Seq<u8>), RouteLayerError>(e),
            },
    {
        if bytes.len() < ROUTE_PACKET_HEADER_SIZE {
            return Err(
                RouteLayerError::InvalidLength {
                    declared: ROUTE_PACKET_HEADER_SIZE,
                    available: bytes.len(),
                },
            );
        }
        if !has_magic(bytes, &ROUTE_PACKET_MAGIC) {
            return Err(RouteLayerError::InvalidMagic);
        }
        if bytes[4] != ROUTE_LAYER_VERSION {
            return Err(RouteLayerError::UnsupportedVersion(bytes[4]));
        }
        let hop_index = bytes[5];
        let declared = read_u16_be(bytes, 6) as usize;
        let available = bytes.len() - ROUTE_PACKET_HEADER_SIZE;
        if declared != available {
            return Err(RouteLayerError::InvalidLength { declared, available });
        }
        let packet_id = read_u64_be(bytes, 8);
        Ok(Self { packet_id, hop_index, body: copy_range(bytes, ROUTE_PACKET_HEADER_SIZE, bytes.len()) })
    }
}

/// `b"chronos-v7/route-layer-aead"`, the HKDF info of layer keys.
pub open spec fn route_layer_key_info() -> Seq<u8> {
    seq![
        0x63u8, 0x68, 0x72, 0x6f, 0x6e, 0x6f, 0x73, 0x2d, 0x76, 0x37, 0x2f, 0x72, 0x6f, 0x75, 0x74,
        0x65, 0x2d, 0x6c, 0x61, 0x79, 0x65, 0x72, 0x2d, 0x61, 0x65, 0x61, 0x64,
    ]
}

/// `b"chronos-v7/route-packet-id-blinding"`, the HKDF info prefix of id blinding.
pub open spec fn route_blinding_info() -> Seq<u8> {
    seq![
        0x63u8, 0x68, 0x72, 0x6f, 0x6e, 0x6f, 0x73, 0x2d, 0x76, 0x37, 0x2f, 0x72, 0x6f, 0x75, 0x74,
        0x65, 0x2d, 0x70, 0x61, 0x63, 0x6b, 0x65, 0x74, 0x2d, 0x69, 0x64, 0x2d, 0x62, 0x6c, 0x69,
        0x6e, 0x64, 0x69, 0x6e, 0x67,
    ]
}

fn route_layer_key_info_bytes() -> (r: Vec<u8>)
    ensures
        r@ == route_layer_key_info(),
{
    let r: Vec<u8> = vec![
        0x63u8, 0x68, 0x72, 0x6f, 0x6e, 0x6f, 0x73, 0x2d, 0x76, 0x37, 0x2f, 0x72, 0x6f, 0x75, 0x74,
        0x65, 0x2d, 0x6c, 0x61, 0x79, 0x65, 0x72, 0x2d, 0x61, 0x65, 0x61, 0x64,
    ];
    assert(r@ =~= route_layer_key_info());
    r
}

fn route_blinding_info_bytes() -> (r: Vec<u8>)
    ensures
        r@ == route_blinding_info(),
{
    let r: Vec<u8> = vec![
        0x63u8, 0x68, 0x72, 0x6f, 0x6e, 0x6f, 0x73, 0x2d, 0x76, 0x37, 0x2f, 0x72, 0x6f, 0x75, 0x74,
        0x65, 0x2d, 0x70, 0x61, 0x63, 0x6b, 0x65, 0x74, 0x2d, 0x69, 0x64, 0x2d, 0x62, 0x6c, 0x69,
        0x6e, 0x64, 0x69, 0x6e, 0x67,
    ];
    assert(r@ =~= route_blinding_info());
    r
}

/// `n` zero bytes.
pub open spec fn zeros(n: nat) -> Seq<u8> {
    Seq::new(n, |i: int| 0u8)
}

/// The packet id of the next hop: HKDF-SHA256 keyed by the hop secret over the
/// big-endian packet id, expanded to 8 bytes with the blinding info and hop index.
pub open spec fn blinded_packet_id(packet_id: u64, hop_index: u8, secret: Seq<u8>) -> u64 {
    u64_at(
        hkdf_sha256_output(secret, u64_be(packet_id), route_blinding_info().push(hop_index), 8),
        0,
    )
}

/// The AEAD key of one layer: HKDF-SHA256 of the hop secret, salted with the
/// packet id and hop index.
pub open spec fn route_layer_key(packet_id: u64, hop_index: u8, secret: Seq<u8>) -> Seq<u8> {
    hkdf_sha256_output(
        u64_be(packet_id) + seq![hop_index] + zeros(7),
        secret,
        route_layer_key_info(),
        32,
    )
}

/// The AEAD nonce of one layer: packet id, then the hop index in the last byte.
pub open spec fn route_layer_nonce(packet_id: u64, hop_index: u8) -> Seq<u8> {
    u64_be(packet_id) + seq![0u8, 0u8, 0u8, hop_index]
}

/// The authenticated header of one layer.
pub open spec fn route_layer_aad(packet_id: u64, hop_index: u8, body_len: nat) -> Seq<u8> {
    ROUTE_LAYER_MAGIC@ + seq![ROUTE_LAYER_VERSION, hop_index] + u16_be(body_len as u16) + u64_be(
        packet_id,
    )
}

/// The plaintext of one layer: the command, seven reserved zero bytes, the
/// inner length and the inner bytes.
pub open spec fn layer_plaintext(command: RouteCommand, inner: Seq<u8>) -> Seq<u8> {
    u64_be(command.next_stream_id) + seq![command.flags] + zeros(7) + u16_be(inner.len() as u16)
        + inner
}

/// One sealed layer: authenticated header, 16 reserved zero bytes, then the
/// ChaCha20-Poly1305 ciphertext and tag of the layer plaintext.
pub open spec fn layer_bytes(
    packet_id: u64,
    hop_index: u8,
    secret: Seq<u8>,
    command: RouteCommand,
    inner: Seq<u8>,
) -> Seq<u8> {
    let plaintext = layer_plaintext(command, inner);
    route_layer_aad(packet_id, hop_index, plaintext.len()) + zeros(16) + aead_seal_output(
        route_layer_key(packet_id, hop_index, secret),
        route_layer_nonce(packet_id, hop_index),
        route_layer_aad(packet_id, hop_index, plaintext.len()),
        plaintext,
    )
}

/// What opening one layer yields: its plaintext, or the first check that fails.
pub open spec fn layer_open(packet_id: u64, hop_index: u8, secret: Seq<u8>, body: Seq<u8>) -> Result<
    Seq<u8>,
    RouteLayerError,
> {
    if body.len() < 48 {
        Err(RouteLayerError::InvalidLength { declared: 48, available: body.len() as usize })
    } else if body.subrange(0, 4) != ROUTE_LAYER_MAGIC@ {
        Err(RouteLayerError::InvalidMagic)
    } else if body[4] != ROUTE_LAYER_VERSION {
        Err(RouteLayerError::UnsupportedVersion(body[4]))
    } else if body[5] != hop_index {
        Err(RouteLayerError::HopIndexMismatch { expected: hop_index, got: body[5] })
    } else if u64_at(body, 8) != packet_id || exists|i: int| 16 <= i < 32 && body[i] != 0 {
        Err(RouteLayerError::InvalidReservedBytes)
    } else if u16_at(body, 6) as int != body.len() - 48 {
        Err(
            RouteLayerError::InvalidLength {
                declared: u16_at(body, 6) as usize,
                available: (body.len() - 48) as usize,
            },
        )
    } else {
        match aead_open_output(
            route_layer_key(packet_id, hop_index, secret),
            route_layer_nonce(packet_id, hop_index),
            route_layer_aad(packet_id, hop_index, u16_at(body, 6) as nat),
            body.subrange(32, body.len() as int),
        ) {
            Some(p) => Ok(p),
            None => Err(RouteLayerError::AuthenticationFailed),
        }
    }
}

fn blind_next_packet_id(packet_id: u64, hop_index: u8, hop_secret: &RouteHopSecret) -> (r: Result<
    u64,
    RouteLayerError,
>)
    ensures
        r == Ok::<u64, RouteLayerError>(blinded_packet_id(packet_id, hop_index, hop_secret.0@)),
{
    let mut ikm: Vec<u8> = Vec::new();
    push_u64_be(&mut ikm, packet_id);
    let mut info = route_blinding_info_bytes();
    info.push(hop_index);
    assert(ikm@ =~= u64_be(packet_id));
    match hkdf_sha256(&hop_secret.0, ikm.as_slice(), info.as_slice(), 8) {
        Some(out) => Ok(read_u64_be(out.as_slice(), 0)),
        None => Err(RouteLayerError::KeyDerivation),
    }
}

fn derive_route_layer_key(packet_id: u64, hop_index: u8, hop_secret: &RouteHopSecret) -> (r: Result<
    Vec<u8>,
    RouteLayerError,
>)
    ensures
        r matches Ok(k) && k@ == route_layer_key(packet_id, hop_index, hop_secret.0@) && k@.len()
            == 32,
{
    let mut salt: Vec<u8> = Vec::new();
    push_u64_be(&mut salt, packet_id);
    salt.push(hop_index);
    push_zeros(&mut salt, 7);
    assert(salt@ =~= u64_be(packet_id) + seq![hop_index] + zeros(7));
    let info = route_layer_key_info_bytes();
    match hkdf_sha256(salt.as_slice(), &hop_secret.0, info.as_slice(), 32) {
        Some(out) => Ok(out),
        None => Err(RouteLayerError::KeyDerivation),
    }
}

fn route_layer_nonce_bytes(packet_id: u64, hop_index: u8) -> (r: Vec<u8>)
    ensures
        r@ == route_layer_nonce(packet_id, hop_index),
{
    let mut nonce: Vec<u8> = Vec::new();
    push_u64_be(&mut nonce, packet_id);
    nonce.push(0);
    nonce.push(0);
    nonce.push(0);
    nonce.push(hop_index);
    assert(nonce@ =~= route_layer_nonce(packet_id, hop_index));
    nonce
}

fn route_layer_aad_bytes(packet_id: u64, hop_index: u8, body_len: usize) -> (r: Vec<u8>)
    requires
        body_len <= 65535,
    ensures
        r@ == route_layer_aad(packet_id, hop_index, body_len as nat),
{
    let mut aad: Vec<u8> = Vec::new();
    push_all(&mut aad, &ROUTE_LAYER_MAGIC);
    aad.push(ROUTE_LAYER_VERSION);
    aad.push(hop_index);
    push_u16_be(&mut aad, body_len as u16);
    push_u64_be(&mut aad, packet_id);
    assert(aad@ =~= route_layer_aad(packet_id, hop_index, body_len as nat));
    aad
}

fn encrypt_layer(
    packet_id: u64,
    hop_index: u8,
    hop_secret: &RouteHopSecret,
    command: RouteCommand,
    inner: &[u8],
) -> (r: Result<Vec<u8>, RouteLayerError>)
    ensures
        inner@.len() > ROUTE_LAYER_MAX_BODY ==> r == Err::<Vec<u8>, RouteLayerError>(
            RouteLayerError::BodyTooLarge { got: inner@.len() as usize, max: ROUTE_LAYER_MAX_BODY },
        ),
        inner@.len() <= ROUTE_LAYER_MAX_BODY ==> (r matches Ok(b) && b@ == layer_bytes(
            packet_id,
            hop_index,
            hop_secret.0@,
            command,
            inner@,
        ) && b@.len() == inner@.len() + 66),
{
    if inner.len() > 65535 || inner.len() > ROUTE_LAYER_MAX_BODY {
        return Err(RouteLayerError::BodyTooLarge { got: inner.len(), max: ROUTE_LAYER_MAX_BODY });
    }
    let mut plaintext: Vec<u8> = Vec::new();
    push_u64_be(&mut plaintext, command.next_stream_id);
    plaintext.push(command.flags);
    push_zeros(&mut plaintext, 7);
    push_u16_be(&mut plaintext, inner.len() as u16);
    push_all(&mut plaintext, inner);
    assert(plaintext@ =~= layer_plaintext(command, inner@));

    let key = derive_route_layer_key(packet_id, hop_index, hop_secret)?;
    let nonce = route_layer_nonce_bytes(packet_id, hop_index);
    let aad = route_layer_aad_bytes(packet_id, hop_index, plaintext.len());
    let sealed = aead_seal(key.as_slice(), nonce.as_slice(), aad.as_slice(), plaintext.as_slice());

    let mut out = route_layer_aad_bytes(packet_id, hop_index, plaintext.len());
    push_zeros(&mut out, 16);
    push_all(&mut out, sealed.as_slice());
    assert(out@ =~= layer_bytes(packet_id, hop_index, hop_secret.0@, command, inner@));
    Ok(out)
}

/// The header checks that a sealed layer passes, and where its sealed part lies.
pub open spec fn layer_header_facts(
    packet_id: u64,
    hop_index: u8,
    secret: Seq<u8>,
    command: RouteCommand,
    inner: Seq<u8>,
) -> bool {
    let b = layer_bytes(packet_id, hop_index, secret, command, inner);
    let plaintext = layer_plaintext(command, inner);
    &&& b.len() >= 48
    &&& b.subrange(0, 4) == ROUTE_LAYER_MAGIC@
    &&& b[4] == ROUTE_LAYER_VERSION
    &&& b[5] == hop_index
    &&& u64_at(b, 8) == packet_id
    &&& forall|i: int| 16 <= i < 32 ==> b[i] == 0
    &&& u16_at(b, 6) as int == plaintext.len()
    &&& u16_at(b, 6) as int == b.len() - 48
    &&& b.subrange(32, b.len() as int) == aead_seal_output(
        route_layer_key(packet_id, hop_index, secret),
        route_layer_nonce(packet_id, hop_index),
        route_layer_aad(packet_id, hop_index, plaintext.len()),
        plaintext,
    )
}

proof fn lemma_layer_header(packet_id: u64, hop_index: u8, secret: Seq<u8>, command: RouteCommand, inner: Seq<u8>)
    requires
        inner.len() <= ROUTE_LAYER_MAX_BODY,
        layer_bytes(packet_id, hop_index, secret, command, inner).len() == inner.len() + 66,
    ensures
        layer_header_facts(packet_id, hop_index, secret, command, inner),
{
    let b = layer_bytes(packet_id, hop_index, secret, command, inner);
    let plaintext = layer_plaintext(command, inner);
    let aad = route_layer_aad(packet_id, hop_index, plaintext.len());
    lemma_u16_round_trip(plaintext.len() as u16);
    lemma_u64_round_trip(packet_id);
    assert(b.subrange(0, 4) =~= ROUTE_LAYER_MAGIC@);
    assert(u16_at(b, 6) == u16_at(u16_be(plaintext.len() as u16), 0));
    assert(u64_at(b, 8) == u64_at(u64_be(packet_id), 0));
    let sealed = aead_seal_output(
        route_layer_key(packet_id, hop_index, secret),
        route_layer_nonce(packet_id, hop_index),
        aad,
        plaintext,
    );
    assert(b.subrange(32, b.len() as int) =~= sealed);
}

fn decrypt_layer(packet_id: u64, hop_index: u8, hop_secret: &RouteHopSecret, body: &[u8]) -> (r: Result<
    Vec<u8>,
    RouteLayerError,
>)
    ensures
        match r {
            Ok(p) => layer_open(packet_id, hop_index, hop_secret.0@, body@) == Ok::<
                Seq<u8>,
                RouteLayerError,
            >(p@),
            Err(e) => layer_open(packet_id, hop_index, hop_secret.0@, body@) == Err::<
                Seq<u8>,
                RouteLayerError,
            >(e),
        },
        forall|command: RouteCommand, inner: Seq<u8>|
            inner.len() <= ROUTE_LAYER_MAX_BODY && body@.len() == inner.len() + 66 && body@
                == #[trigger] layer_bytes(packet_id, hop_index, hop_secret.0@, command, inner) ==> (r matches Ok(p)
                && p@ == layer_plaintext(command, inner)),
{
    proof {
        assert forall|command: RouteCommand, inner: Seq<u8>|
            inner.len() <= ROUTE_LAYER_MAX_BODY && body@.len() == inner.len() + 66 && body@
                == #[trigger] layer_bytes(packet_id, hop_index, hop_secret.0@, command, inner) implies layer_header_facts(
            packet_id,
            hop_index,
            hop_secret.0@,
            command,
            inner,
        ) by {
            lemma_layer_header(packet_id, hop_index, hop_secret.0@, command, inner);
        }
    }
    if body.len() < ROUTE_LAYER_HEADER_SIZE + ROUTE_LAYER_TAG_SIZE {
        return Err(
            RouteLayerError::InvalidLength {
                declared: ROUTE_LAYER_HEADER_SIZE + ROUTE_LAYER_TAG_SIZE,
                available: body.len(),
            },
        );
    }
    if !has_magic(body, &ROUTE_LAYER_MAGIC) {
        return Err(RouteLayerError::InvalidMagic);
    }
    if body[4] != ROUTE_LAYER_VERSION {
        return Err(RouteLayerError::UnsupportedVersion(body[4]));
    }
    if body[5] != hop_index {
        return Err(RouteLayerError::HopIndexMismatch { expected: hop_index, got: body[5] });
    }
    let declared = read_u16_be(body, 6) as usize;
    let encoded_packet_id = read_u64_be(body, 8);
    if encoded_packet_id != packet_id || !all_zero(body, 16, 32) {
        return Err(RouteLayerError::InvalidReservedBytes);
    }
    let available = body.len() - ROUTE_LAYER_HEADER_SIZE - ROUTE_LAYER_TAG_SIZE;
    if declared != available {
        return Err(RouteLayerError::InvalidLength { declared, available });
    }
    let sealed = copy_range(body, ROUTE_LAYER_HEADER_SIZE, body.len());
    let key = derive_route_layer_key(packet_id, hop_index, hop_secret)?;
    let nonce = route_layer_nonce_bytes(packet_id, hop_index);
    let aad = route_layer_aad_bytes(packet_id, hop_index, declared);
    let opened = aead_open(key.as_slice(), nonce.as_slice(), aad.as_slice(), sealed.as_slice());
    proof {
        assert forall|command: RouteCommand, inner: Seq<u8>|
            inner.len() <= ROUTE_LAYER_MAX_BODY && body@.len() == inner.len() + 66 && body@
                == #[trigger] layer_bytes(packet_id, hop_index, hop_secret.0@, command, inner) implies (opened matches Some(p) && p@ == layer_plaintext(command, inner)) by {
            lemma_layer_header(packet_id, hop_index, hop_secret.0@, command, inner);
        }
    }
    match opened {
        Some(p) => Ok(p),
        None => Err(RouteLayerError::AuthenticationFailed),
    }
}

#[derive(Debug, Clone, PartialEq, Eq)]
pub struct PeeledRouteLayer {
    pub command: RouteCommand,
    pub next_packet: Option<LayeredRoutePacket>,
    pub payload: Option<Vec<u8>>,
}

/// A peeled layer as plain values: the command, the next packet's id, hop
/// index and body, and the delivered payload.
pub type PeelModel = (RouteCommand, Option<(u64, u8, Seq<u8>)>, Option<Seq<u8>>);

/// The plain values of a peeled layer.
pub open spec fn peeled_model(p: PeeledRouteLayer) -> PeelModel {
    (
        p.command,
        match p.next_packet {
            Some(n) => Some((n.packet_id, n.hop_index, n.body@)),
            None => None,
        },
        match p.payload {
            Some(v) => Some(v@),
            None => None,
        },
    )
}

/// The plain values of a peel result.
pub open spec fn peel_result_model(r: Result<PeeledRouteLayer, RouteLayerError>) -> Result<
    PeelModel,
    RouteLayerError,
> {
    match r {
        Ok(p) => Ok(peeled_model(p)),
        Err(e) => Err(e),
    }
}

/// The hop index after `hop_index`, saturating at 255.
pub open spec fn next_hop_index(hop_index: u8) -> u8 {
    if hop_index == 255 {
        255
    } else {
        (hop_index + 1) as u8
    }
}

/// What a hop does with a layer whose command and inner bytes are known: forward
/// the inner bytes under the blinded packet id, deliver them, or refuse to drop.
pub open spec fn command_outcome(
    packet_id: u64,
    hop_index: u8,
    secret: Seq<u8>,
    command: RouteCommand,
    inner: Seq<u8>,
) -> Result<PeelModel, RouteLayerError> {
    match command_kind_of(command.flags) {
        RouteCommandKind::DeliverLocal | RouteCommandKind::Reply => Ok((command, None, Some(inner))),
        RouteCommandKind::Drop => Err(RouteLayerError::DropCommand),
        RouteCommandKind::Forward => Ok(
            (
                command,
                Some(
                    (
                        blinded_packet_id(packet_id, hop_index, secret),
                        next_hop_index(hop_index),
                        inner,
                    ),
                ),
                None,
            ),
        ),
    }
}

/// What a hop makes of an opened layer plaintext `d`.
pub open spec fn plaintext_outcome(packet_id: u64, hop_index: u8, secret: Seq<u8>, d: Seq<u8>) -> Result<
    PeelModel,
    RouteLayerError,
> {
    if d.len() < 18 {
        Err(RouteLayerError::InvalidLength { declared: 18, available: d.len() as usize })
    } else if exists|i: int| 9 <= i < 16 && d[i] != 0 {
        Err(RouteLayerError::InvalidReservedBytes)
    } else if u16_at(d, 16) as int != d.len() - 18 {
        Err(
            RouteLayerError::InvalidLength {
                declared: u16_at(d, 16) as usize,
                available: (d.len() - 18) as usize,
            },
        )
    } else {
        command_outcome(
            packet_id,
            hop_index,
            secret,
            RouteCommand { next_stream_id: u64_at(d, 0), flags: d[8] },
            d.subrange(18, d.len() as int),
        )
    }
}

/// What peeling hop `expected_hop_index` off a packet yields.
pub open spec fn peel_outcome(
    packet_id: u64,
    hop_index: u8,
    body: Seq<u8>,
    expected_hop_index: u8,
    secret: Seq<u8>,
) -> Result<PeelModel, RouteLayerError> {
    if hop_index != expected_hop_index {
        Err(RouteLayerError::HopIndexMismatch { expected: expected_hop_index, got: hop_index })
    } else {
        match layer_open(packet_id, hop_index, secret, body) {
            Err(e) => Err(e),
            Ok(d) => plaintext_outcome(packet_id, hop_index, secret, d),
        }
    }
}

/// A layer plaintext is read back as its command and inner bytes.
proof fn lemma_plaintext_outcome(
    packet_id: u64,
    hop_index: u8,
    secret: Seq<u8>,
    command: RouteCommand,
    inner: Seq<u8>,
)
    requires
        inner.len() <= ROUTE_LAYER_MAX_BODY,
    ensures
        plaintext_outcome(packet_id, hop_index, secret, layer_plaintext(command, inner))
            == command_outcome(packet_id, hop_index, secret, command, inner),
{
    let d = layer_plaintext(command, inner);
    lemma_u16_round_trip(inner.len() as u16);
    lemma_u64_round_trip(command.next_stream_id);
    assert(u16_at(d, 16) == u16_at(u16_be(inner.len() as u16), 0));
    assert(u64_at(d, 0) == u64_at(u64_be(command.next_stream_id), 0));
    assert(d.subrange(18, d.len() as int) =~= inner);
    assert(!exists|i: int| 9 <= i < 16 && d[i] != 0);
    assert(RouteCommand { next_stream_id: u64_at(d, 0), flags: d[8] } == command);
}

fn parse_layer_plaintext(
    packet_id: u64,
    hop_index: u8,
    hop_secret: &RouteHopSecret,
    d: Vec<u8>,
) -> (r: Result<PeeledRouteLayer, RouteLayerError>)
    ensures
        peel_result_model(r) == plaintext_outcome(packet_id, hop_index, hop_secret.0@, d@),
{
    if d.len() < 18 {
        return Err(RouteLayerError::InvalidLength { declared: 18, available: d.len() });
    }
    let next_stream_id = read_u64_be(d.as_slice(), 0);
    let flags = d[8];
    if !all_zero(d.as_slice(), 9, 16) {
        return Err(RouteLayerError::InvalidReservedBytes);
    }
    let inner_len = read_u16_be(d.as_slice(), 16) as usize;
    let available = d.len() - 18;
    if inner_len != available {
        return Err(RouteLayerError::InvalidLength { declared: inner_len, available });
    }
    let inner = copy_range(d.as_slice(), 18, d.len());
    let command = RouteCommand { next_stream_id, flags };
    match command.kind() {
        RouteCommandKind::DeliverLocal | RouteCommandKind::Reply => Ok(
            PeeledRouteLayer { command, next_packet: None, payload: Some(inner) },
        ),
        RouteCommandKind::Drop => Err(RouteLayerError::DropCommand),
        RouteCommandKind::Forward => {
            let next_id = blind_next_packet_id(packet_id, hop_index, hop_secret)?;
            let next_hop = if hop_index == 255 {
                255
            } else {
                hop_index + 1
            };
            Ok(
                PeeledRouteLayer {
                    command,
                    next_packet: Some(
                        LayeredRoutePacket { packet_id: next_id, hop_index: next_hop, body: inner },
                    ),
                    payload: None,
                },
            )
        },
    }
}

/// A peel result `r` of `packet` at hop `expected_hop_index` under `secret`
/// meets what a layer sealed for that hop promises: a body that is command
/// `command` sealed around `inner` peels to exactly that command and inner.
pub open spec fn peels_sealed_layers(
    packet: LayeredRoutePacket,
    expected_hop_index: u8,
    secret: Seq<u8>,
    r: Result<PeeledRouteLayer, RouteLayerError>,
) -> bool {
    forall|command: RouteCommand, inner: Seq<u8>|
        packet.hop_index == expected_hop_index && inner.len() <= ROUTE_LAYER_MAX_BODY
            && packet.body@.len() == inner.len() + 66 && packet.body@ == #[trigger] layer_bytes(
            packet.packet_id,
            packet.hop_index,
            secret,
            command,
            inner,
        ) ==> peel_result_model(r) == command_outcome(packet.packet_id, packet.hop_index, secret, command, inner)
}

/// Peel the current hop layer. The caller supplies the expected hop index so
/// that layers are only processed in order.
///
/// A layer sealed for this hop with command `c` around inner bytes `inner`
/// peels to exactly `c` and `inner`: forwarded under the blinded packet id at
/// the next hop index, delivered, or refused when `c` says drop.
pub fn peel_route_layer(
    packet: &LayeredRoutePacket,
    expected_hop_index: u8,
    hop_secret: &RouteHopSecret,
) -> (r: Result<PeeledRouteLayer, RouteLayerError>)
    ensures
        peel_result_model(r) == peel_outcome(
            packet.packet_id,
            packet.hop_index,
            packet.body@,
            expected_hop_index,
            hop_secret.0@,
        ),
        peels_sealed_layers(*packet, expected_hop_index, hop_secret.0@, r),
{
    if packet.hop_index != expected_hop_index {
        return Err(
            RouteLayerError::HopIndexMismatch { expected: expected_hop_index, got: packet.hop_index },
        );
    }
    let decrypted = decrypt_layer(
        packet.packet_id,
        packet.hop_index,
        hop_secret,
        packet.body.as_slice(),
    );
    let r = match decrypted {
        Err(e) => Err(e),
        Ok(d) => parse_layer_plaintext(packet.packet_id, packet.hop_index, hop_secret, d),
    };
    proof {
        assert forall|command: RouteCommand, inner: Seq<u8>|
            packet.hop_index == expected_hop_index && inner.len() <= ROUTE_LAYER_MAX_BODY
                && packet.body@.len() == inner.len() + 66 && packet.body@ == #[trigger] layer_bytes(
                packet.packet_id,
                packet.hop_index,
                hop_secret.0@,
                command,
                inner,
            ) implies peel_result_model(r) == command_outcome(
            packet.packet_id,
            packet.hop_index,
            hop_secret.0@,
            command,
            inner,
        ) by {
            lemma_plaintext_outcome(
                packet.packet_id,
                packet.hop_index,
                hop_secret.0@,
                command,
                inner,
            );
        }
    }
    r
}

/// The packet id that hop `i` of a route sees: the original id blinded once
/// by each earlier hop's secret.
pub open spec fn hop_packet_id(packet_id: u64, secrets: Seq<RouteHopSecret>, i: nat) -> u64
    decreases i,
{
    if i == 0 {
        packet_id
    } else {
        blinded_packet_id(
            hop_packet_id(packet_id, secrets, (i - 1) as nat),
            (i - 1) as u8,
            secrets[i - 1].0@,
        )
    }
}

/// The onion from hop `i` inward: hop `i`'s sealed layer around the onion of
/// hop `i + 1`, and the payload itself past the last hop.
pub open spec fn onion_body(
    packet_id: u64,
    secrets: Seq<RouteHopSecret>,
    commands: Seq<RouteCommand>,
    payload: Seq<u8>,
    i: nat,
) -> Seq<u8>
    decreases secrets.len() - i,
{
    if i >= secrets.len() {
        payload
    } else {
        layer_bytes(
            hop_packet_id(packet_id, secrets, i),
            i as u8,
            secrets[i as int].0@,
            commands[i as int],
            onion_body(packet_id, secrets, commands, payload, i + 1),
        )
    }
}

/// The size of the first layer input that exceeds the body limit when each
/// layer adds 66 bytes around a payload of `payload_len` bytes.
pub open spec fn first_oversized_layer_input(payload_len: nat) -> int {
    payload_len + 66 * ((ROUTE_LAYER_MAX_BODY - payload_len) / 66 + 1)
}

/// A route packet as plain values: id, hop index and body.
pub open spec fn route_packet_model(r: Result<LayeredRoutePacket, RouteLayerError>) -> Result<
    (u64, u8, Seq<u8>),
    RouteLayerError,
> {
    match r {
        Ok(p) => Ok((p.packet_id, p.hop_index, p.body@)),
        Err(e) => Err(e),
    }
}

/// What building a route packet yields: the onion of all hops' layers at hop
/// index 0, or the first check that fails. Each layer adds 66 bytes, and no
/// layer may wrap more than the body limit.
pub open spec fn route_build_outcome(
    packet_id: u64,
    secrets: Seq<RouteHopSecret>,
    commands: Seq<RouteCommand>,
    payload: Seq<u8>,
) -> Result<(u64, u8, Seq<u8>), RouteLayerError> {
    if secrets.len() == 0 {
        Err(RouteLayerError::EmptyRoute)
    } else if secrets.len() != commands.len() {
        Err(
            RouteLayerError::TooManyHops {
                got: commands.len() as usize,
                max: secrets.len() as usize,
            },
        )
    } else if secrets.len() > 255 {
        Err(RouteLayerError::TooManyHops { got: secrets.len() as usize, max: 255 })
    } else if payload.len() > ROUTE_LAYER_MAX_BODY {
        Err(RouteLayerError::BodyTooLarge { got: payload.len() as usize, max: ROUTE_LAYER_MAX_BODY })
    } else if payload.len() + 66 * (secrets.len() - 1) > ROUTE_LAYER_MAX_BODY {
        Err(
            RouteLayerError::BodyTooLarge {
                got: first_oversized_layer_input(payload.len()) as usize,
                max: ROUTE_LAYER_MAX_BODY,
            },
        )
    } else {
        Ok((packet_id, 0u8, onion_body(packet_id, secrets, commands, payload, 0)))
    }
}

/// Each layer of the onion is 66 bytes longer than the one it wraps.
pub open spec fn onion_layer_lengths(
    packet_id: u64,
    secrets: Seq<RouteHopSecret>,
    commands: Seq<RouteCommand>,
    payload: Seq<u8>,
) -> bool {
    forall|j: int|
        0 <= j <= secrets.len() ==> #[trigger] onion_body(packet_id, secrets, commands, payload, j as nat).len()
            == payload.len() + 66 * (secrets.len() - j)
}

/// The onion law: in a route packet that was built, hop `i`'s layer is its
/// command sealed for it around the next hop's layer (the payload after the
/// last hop). So, by `peel_route_layer`, hop `i` peels exactly its command,
/// and a forward command hands hop `i + 1` its own layer under its own
/// packet id and hop index.
pub proof fn lemma_onion_layer(
    packet_id: u64,
    secrets: Seq<RouteHopSecret>,
    commands: Seq<RouteCommand>,
    payload: Seq<u8>,
    i: nat,
)
    requires
        route_build_outcome(packet_id, secrets, commands, payload) is Ok,
        onion_layer_lengths(packet_id, secrets, commands, payload),
        i < secrets.len(),
    ensures
        onion_body(packet_id, secrets, commands, payload, i) == layer_bytes(
            hop_packet_id(packet_id, secrets, i),
            i as u8,
            secrets[i as int].0@,
            commands[i as int],
            onion_body(packet_id, secrets, commands, payload, i + 1),
        ),
        onion_body(packet_id, secrets, commands, payload, i + 1).len() <= ROUTE_LAYER_MAX_BODY,
        onion_body(packet_id, secrets, commands, payload, i).len() == onion_body(
            packet_id,
            secrets,
            commands,
            payload,
            i + 1,
        ).len() + 66,
        command_outcome(
            hop_packet_id(packet_id, secrets, i),
            i as u8,
            secrets[i as int].0@,
            commands[i as int],
            onion_body(packet_id, secrets, commands, payload, i + 1),
        ) matches Ok((_, Some(next), _)) ==> next == (
            hop_packet_id(packet_id, secrets, i + 1),
            (i + 1) as u8,
            onion_body(packet_id, secrets, commands, payload, i + 1),
        ),
{
    let n = secrets.len();
    assert(onion_body(packet_id, secrets, commands, payload, (i + 1) as nat).len() == payload.len() + 66 * (n - (i
        + 1)));
    assert(onion_body(packet_id, secrets, commands, payload, i).len() == payload.len() + 66 * (n - i));
    assert(payload.len() + 66 * (n - (i + 1)) <= payload.len() + 66 * (n - 1)) by (nonlinear_arith)
        requires
            i >= 0,
    ;
}

/// The onion peels in order: hop `i` of a built route packet, handed the
/// packet as the earlier hops forwarded it, peels exactly its own command.
/// A forward command hands hop `i + 1` its packet in the same form, so by
/// induction every hop of the route gets its layer; a deliver or reply
/// command hands out the inner bytes, which past the last hop are the
/// payload itself; a drop command is refused.
pub proof fn lemma_route_peels_in_order(
    packet_id: u64,
    secrets: Seq<RouteHopSecret>,
    commands: Seq<RouteCommand>,
    payload: Seq<u8>,
    i: nat,
    packet: LayeredRoutePacket,
    r: Result<PeeledRouteLayer, RouteLayerError>,
)
    requires
        route_build_outcome(packet_id, secrets, commands, payload) is Ok,
        onion_layer_lengths(packet_id, secrets, commands, payload),
        i < secrets.len(),
        packet.packet_id == hop_packet_id(packet_id, secrets, i),
        packet.hop_index == i as u8,
        packet.body@ == onion_body(packet_id, secrets, commands, payload, i),
        peels_sealed_layers(packet, i as u8, secrets[i as int].0@, r),
    ensures
        hop_packet_id(packet_id, secrets, 0) == packet_id,
        onion_body(packet_id, secrets, commands, payload, secrets.len()) == payload,
        command_kind_of(commands[i as int].flags) == RouteCommandKind::Forward ==> (r matches Ok(l)
            && l.command == commands[i as int] && l.payload is None && (l.next_packet matches Some(n)
            && n.packet_id == hop_packet_id(packet_id, secrets, i + 1) && n.hop_index == (i + 1) as u8
            && n.body@ == onion_body(packet_id, secrets, commands, payload, i + 1))),
        (command_kind_of(commands[i as int].flags) == RouteCommandKind::DeliverLocal
            || command_kind_of(commands[i as int].flags) == RouteCommandKind::Reply) ==> (r matches Ok(l)
            && l.command == commands[i as int] && l.next_packet is None && (l.payload matches Some(p)
            && p@ == onion_body(packet_id, secrets, commands, payload, i + 1))),
        command_kind_of(commands[i as int].flags) == RouteCommandKind::Drop ==> r == Err::<
            PeeledRouteLayer,
            RouteLayerError,
        >(RouteLayerError::DropCommand),
{
    lemma_onion_layer(packet_id, secrets, commands, payload, i);
    let inner = onion_body(packet_id, secrets, commands, payload, i + 1);
    assert(packet.body@ == layer_bytes(
        packet.packet_id,
        packet.hop_index,
        secrets[i as int].0@,
        commands[i as int],
        inner,
    ));
    assert(peel_result_model(r) == command_outcome(
        packet.packet_id,
        packet.hop_index,
        secrets[i as int].0@,
        commands[i as int],
        inner,
    ));
}

/// `packets[i]` is the packet hop `i` is handed and `results[i]` what hop
/// `i` peeled from it with its secret; each forwarded packet is the one the
/// next hop is handed.
pub open spec fn peel_chain(
    packets: Seq<LayeredRoutePacket>,
    results: Seq<Result<PeeledRouteLayer, RouteLayerError>>,
    secrets: Seq<RouteHopSecret>,
) -> bool {
    &&& packets.len() == secrets.len()
    &&& results.len() == secrets.len()
    &&& forall|i: int|
        0 <= i < secrets.len() ==> #[trigger] peels_sealed_layers(packets[i], i as u8, secrets[i].0@, results[i])
    &&& forall|i: int|
        0 <= i < secrets.len() - 1 ==> (#[trigger] results[i] matches Ok(l) ==> (l.next_packet matches Some(n)
            && n.packet_id == packets[i + 1].packet_id && n.hop_index == packets[i + 1].hop_index
            && n.body@ == packets[i + 1].body@))
}

/// Along a peel chain of a built route whose earlier hops forward, hop `i`
/// is handed its own layer under its own packet id.
proof fn lemma_chain_packet(
    packet_id: u64,
    secrets: Seq<RouteHopSecret>,
    commands: Seq<RouteCommand>,
    payload: Seq<u8>,
    packets: Seq<LayeredRoutePacket>,
    results: Seq<Result<PeeledRouteLayer, RouteLayerError>>,
    i: nat,
)
    requires
        route_build_outcome(packet_id, secrets, commands, payload) is Ok,
        onion_layer_lengths(packet_id, secrets, commands, payload),
        peel_chain(packets, results, secrets),
        packets[0].packet_id == packet_id,
        packets[0].hop_index == 0,
        packets[0].body@ == onion_body(packet_id, secrets, commands, payload, 0),
        forall|j: int| 0 <= j < secrets.len() - 1 ==> command_kind_of(#[trigger] commands[j].flags) == RouteCommandKind::Forward,
        i < secrets.len(),
    ensures
        packets[i as int].packet_id == hop_packet_id(packet_id, secrets, i),
        packets[i as int].hop_index == i as u8,
        packets[i as int].body@ == onion_body(packet_id, secrets, commands, payload, i),
    decreases i,
{
    if i > 0 {
        let h = (i - 1) as nat;
        lemma_chain_packet(packet_id, secrets, commands, payload, packets, results, h);
        assert(peels_sealed_layers(packets[h as int], h as u8, secrets[h as int].0@, results[h as int]));
        assert(command_kind_of(commands[h as int].flags) == RouteCommandKind::Forward);
        lemma_route_peels_in_order(packet_id, secrets, commands, payload, h, packets[h as int], results[h as int]);
    }
}

/// The whole onion peels to the payload: handing each hop, in order, the
/// packet the hop before it forwarded, every hop of a built route peels
/// exactly its own command; each forwarding hop hands on a packet for the
/// next hop index, and the last hop, whose command delivers or replies,
/// hands out the payload.
pub proof fn lemma_route_peels_to_payload(
    packet_id: u64,
    secrets: Seq<RouteHopSecret>,
    commands: Seq<RouteCommand>,
    payload: Seq<u8>,
    packets: Seq<LayeredRoutePacket>,
    results: Seq<Result<PeeledRouteLayer, RouteLayerError>>,
)
    requires
        route_build_outcome(packet_id, secrets, commands, payload) is Ok,
        onion_layer_lengths(packet_id, secrets, commands, payload),
        peel_chain(packets, results, secrets),
        packets[0].packet_id == packet_id,
        packets[0].hop_index == 0,
        packets[0].body@ == onion_body(packet_id, secrets, commands, payload, 0),
        forall|j: int| 0 <= j < secrets.len() - 1 ==> command_kind_of(#[trigger] commands[j].flags) == RouteCommandKind::Forward,
        command_kind_of(commands[secrets.len() - 1].flags) == RouteCommandKind::DeliverLocal || command_kind_of(
            commands[secrets.len() - 1].flags,
        ) == RouteCommandKind::Reply,
    ensures
        forall|i: int|
            0 <= i < secrets.len() ==> (#[trigger] results[i] matches Ok(l) && l.command == commands[i]),
        forall|i: int|
            0 <= i < secrets.len() - 1 ==> (#[trigger] results[i] matches Ok(l) && l.payload is None && (
            l.next_packet matches Some(n) && n.hop_index == (i + 1) as u8)),
        results[secrets.len() - 1] matches Ok(l) && l.next_packet is None && (l.payload matches Some(p) && p@
            == payload),
{
    let n = secrets.len();
    assert forall|i: int| 0 <= i < n implies (#[trigger] results[i] matches Ok(l) && l.command == commands[i]) && (i
        < n - 1 ==> (results[i] matches Ok(l) && l.payload is None && (l.next_packet matches Some(q) && q.hop_index
        == (i + 1) as u8))) && (i == n - 1 ==> (results[i] matches Ok(l) && l.next_packet is None && (
    l.payload matches Some(p) && p@ == payload))) by {
        lemma_chain_packet(packet_id, secrets, commands, payload, packets, results, i as nat);
        assert(peels_sealed_layers(packets[i], i as u8, secrets[i].0@, results[i]));
        lemma_route_peels_in_order(packet_id, secrets, commands, payload, i as nat, packets[i], results[i]);
    }
    assert(results[n - 1] matches Ok(l) && l.command == commands[n - 1]);
}

/// Build a route packet by wrapping `payload` in one authenticated layer per hop.
/// `commands[i]` is revealed only to hop `i` when it peels its layer.
pub fn build_layered_route_packet(
    packet_id: u64,
    hop_secrets: &[RouteHopSecret],
    commands: &[RouteCommand],
    payload: &[u8],
) -> (r: Result<LayeredRoutePacket, RouteLayerError>)
    ensures
        route_packet_model(r) == route_build_outcome(packet_id, hop_secrets@, commands@, payload@),
        r matches Ok(p) ==> p.body@.len() == payload@.len() + 66 * hop_secrets@.len(),
        r is Ok ==> onion_layer_lengths(packet_id, hop_secrets@, commands@, payload@),
{
    if hop_secrets.len() == 0 {
        return Err(RouteLayerError::EmptyRoute);
    }
    if hop_secrets.len() != commands.len() {
        return Err(RouteLayerError::TooManyHops { got: commands.len(), max: hop_secrets.len() });
    }
    if hop_secrets.len() > 255 {
        return Err(RouteLayerError::TooManyHops { got: hop_secrets.len(), max: 255 });
    }
    if payload.len() > ROUTE_LAYER_MAX_BODY {
        return Err(RouteLayerError::BodyTooLarge { got: payload.len(), max: ROUTE_LAYER_MAX_BODY });
    }
    let n = hop_secrets.len();
    let mut packet_ids: Vec<u64> = Vec::new();
    let mut current_id = packet_id;
    let mut hop: usize = 0;
    while hop < n
        invariant
            n == hop_secrets@.len(),
            n <= 255,
            hop <= n,
            packet_ids@.len() == hop,
            current_id == hop_packet_id(packet_id, hop_secrets@, hop as nat),
            forall|j: int|
                0 <= j < hop ==> packet_ids@[j] == hop_packet_id(packet_id, hop_secrets@, j as nat),
        decreases n - hop,
    {
        packet_ids.push(current_id);
        current_id = blind_next_packet_id(current_id, hop as u8, &hop_secrets[hop])?;
        hop = hop + 1;
    }

    let mut inner: Vec<u8> = copy_range(payload, 0, payload.len());
    assert(payload@.subrange(0, payload@.len() as int) =~= payload@);
    let mut hop: usize = n;
    while hop > 0
        invariant
            n == hop_secrets@.len(),
            n == commands@.len(),
            0 < n <= 255,
            hop <= n,
            payload@.len() <= ROUTE_LAYER_MAX_BODY,
            packet_ids@.len() == n,
            forall|j: int|
                0 <= j < n ==> packet_ids@[j] == hop_packet_id(packet_id, hop_secrets@, j as nat),
            inner@ == onion_body(packet_id, hop_secrets@, commands@, payload@, hop as nat),
            inner@.len() == payload@.len() + 66 * (n - hop),
            forall|j: int|
                hop <= j <= n ==> #[trigger] onion_body(packet_id, hop_secrets@, commands@, payload@, j as nat).len()
                    == payload@.len() + 66 * (n - j),
            payload@.len() + 66 * (n - 1) > ROUTE_LAYER_MAX_BODY ==> inner@.len()
                <= first_oversized_layer_input(payload@.len()),
        decreases hop,
    {
        let h = hop - 1;
        if inner.len() > ROUTE_LAYER_MAX_BODY {
            proof {
                lemma_fundamental_div_mod((ROUTE_LAYER_MAX_BODY - payload@.len()) as int, 66);
            }
            return Err(RouteLayerError::BodyTooLarge { got: inner.len(), max: ROUTE_LAYER_MAX_BODY });
        }
        inner = encrypt_layer(packet_ids[h], h as u8, &hop_secrets[h], commands[h], inner.as_slice())?;
        hop = h;
        proof {
            lemma_fundamental_div_mod((ROUTE_LAYER_MAX_BODY - payload@.len()) as int, 66);
        }
    }
    Ok(LayeredRoutePacket { packet_id, hop_index: 0, body: inner })
}

/// One remembered (packet id, hop index), with when it was seen, in
/// nanoseconds since the cache was made.
pub type ReplayEntry = (u64, u8, u128);

/// Whether an entry seen at `seen_at` has lived at least `ttl` at `now`.
pub open spec fn entry_expired(seen_at: u128, now: u128, ttl: u128) -> bool {
    (if now >= seen_at {
        now - seen_at
    } else {
        0
    }) >= ttl
}

/// The entries left after dropping expired ones from the front (the oldest).
pub open spec fn prune_front(entries: Seq<ReplayEntry>, now: u128, ttl: u128) -> Seq<ReplayEntry>
    decreases entries.len(),
{
    if entries.len() > 0 && entry_expired(entries[0].2, now, ttl) {
        prune_front(entries.drop_first(), now, ttl)
    } else {
        entries
    }
}

/// Whether `entries` remembers the key `(packet_id, hop_index)`.
pub open spec fn remembers(entries: Seq<ReplayEntry>, packet_id: u64, hop_index: u8) -> bool {
    exists|i: int| 0 <= i < entries.len() && entries[i].0 == packet_id && entries[i].1 == hop_index
}

/// No key occurs twice.
pub open spec fn keys_distinct(entries: Seq<ReplayEntry>) -> bool {
    forall|i: int, j: int|
        0 <= i < j < entries.len() ==> !(entries[i].0 == entries[j].0 && entries[i].1
            == entries[j].1)
}

/// The newest `max` entries (all of them when there are at most `max`).
pub open spec fn keep_newest(entries: Seq<ReplayEntry>, max: nat) -> Seq<ReplayEntry> {
    if entries.len() > max {
        entries.subrange(entries.len() - max, entries.len() as int)
    } else {
        entries
    }
}

proof fn lemma_prune_front_suffix(entries: Seq<ReplayEntry>, now: u128, ttl: u128)
    ensures
        exists|k: int|
            0 <= k <= entries.len() && prune_front(entries, now, ttl) == entries.subrange(
                k,
                entries.len() as int,
            ),
    decreases entries.len(),
{
    if entries.len() > 0 && entry_expired(entries[0].2, now, ttl) {
        lemma_prune_front_suffix(entries.drop_first(), now, ttl);
        let k = choose|k: int|
            0 <= k <= entries.drop_first().len() && prune_front(entries.drop_first(), now, ttl)
                == entries.drop_first().subrange(k, entries.drop_first().len() as int);
        assert(entries.drop_first().subrange(k, entries.drop_first().len() as int) =~= entries.subrange(
            k + 1,
            entries.len() as int,
        ));
    } else {
        assert(entries.subrange(0, entries.len() as int) =~= entries);
    }
}

/// One observation of the key `(packet_id, hop_index)` at time `now`:
/// expired entries are forgotten first; a key still remembered is a replay
/// and changes nothing more; otherwise the key is remembered and the oldest
/// entries beyond the capacity are forgotten.
pub open spec fn replay_observed(
    entries: Seq<ReplayEntry>,
    ttl: u128,
    capacity: nat,
    packet_id: u64,
    hop_index: u8,
    now: u128,
    r: Result<(), RouteLayerError>,
    after: Seq<ReplayEntry>,
) -> bool {
    let pruned = prune_front(entries, now, ttl);
    if remembers(pruned, packet_id, hop_index) {
        &&& r == Err::<(), RouteLayerError>(RouteLayerError::Replay { packet_id, hop_index })
        &&& after == pruned
    } else {
        &&& r == Ok::<(), RouteLayerError>(())
        &&& after == keep_newest(pruned.push((packet_id, hop_index, now)), capacity)
    }
}

fn entries_from(v: &Vec<ReplayEntry>, from: usize) -> (r: Vec<ReplayEntry>)
    requires
        from <= v@.len(),
    ensures
        r@ == v@.subrange(from as int, v@.len() as int),
{
    let mut out: Vec<ReplayEntry> = Vec::new();
    let mut i: usize = from;
    while i < v.len()
        invariant
            from <= i <= v@.len(),
            out@ == v@.subrange(from as int, i as int),
        decreases v@.len() - i,
    {
        out.push(v[i]);
        i = i + 1;
        assert(out@ =~= v@.subrange(from as int, i as int));
    }
    out
}

fn is_expired(seen_at: u128, now: u128, ttl: u128) -> (r: bool)
    ensures
        r == entry_expired(seen_at, now, ttl),
{
    let age = if now >= seen_at {
        now - seen_at
    } else {
        0
    };
    age >= ttl
}

/// Bounded replay memory of (packet id, hop index) keys with a time to live.
#[derive(Debug)]
pub struct RouteReplayCache {
    epoch: Instant,
    seen: Vec<ReplayEntry>,
    max_entries: usize,
    ttl_nanos: u128,
}

impl RouteReplayCache {
    /// The remembered entries, oldest first.
    pub closed spec fn entries(&self) -> Seq<ReplayEntry> {
        self.seen@
    }

    /// The largest number of entries kept.
    pub closed spec fn capacity(&self) -> nat {
        self.max_entries as nat
    }

    /// How long an entry is remembered, in nanoseconds.
    pub closed spec fn ttl(&self) -> u128 {
        self.ttl_nanos
    }

    /// Entries are distinct keys, at most `capacity` of them, and the capacity is positive.
    #[verifier::type_invariant]
    closed spec fn wf(&self) -> bool {
        &&& keys_distinct(self.seen@)
        &&& self.seen@.len() <= self.max_entries
        &&& self.max_entries >= 1
    }

    fn with_limit_nanos(max_entries: usize, ttl_nanos: u128) -> (r: Self)
        ensures
            r.entries() == Seq::<ReplayEntry>::empty(),
            r.capacity() == if max_entries == 0 {
                1
            } else {
                max_entries as nat
            },
            r.ttl() == ttl_nanos,
    {
        Self {
            epoch: instant_now(),
            seen: Vec::new(),
            max_entries: if max_entries == 0 {
                1
            } else {
                max_entries
            },
            ttl_nanos,
        }
    }

    pub fn new() -> (r: Self)
        ensures
            r.entries() == Seq::<ReplayEntry>::empty(),
            r.capacity() == 4096,
            r.ttl() == 300_000_000_000,
    {
        Self::with_limit_nanos(4096, 300_000_000_000)
    }

    pub fn with_limits(max_entries: usize, ttl: Duration) -> (r: Self)
        ensures
            r.entries() == Seq::<ReplayEntry>::empty(),
            r.capacity() == if max_entries == 0 {
                1
            } else {
                max_entries as nat
            },
            r.ttl() == duration_nanos(ttl),
    {
        Self::with_limit_nanos(max_entries, duration_as_nanos(&ttl))
    }

    pub fn len(&self) -> (r: usize)
        ensures
            r == self.entries().len(),
    {
        self.seen.len()
    }

    pub fn is_empty(&self) -> (r: bool)
        ensures
            r == (self.entries().len() == 0),
    {
        self.seen.len() == 0
    }

    fn prune_expired(&mut self, now: u128)
        ensures
            final(self).entries() == prune_front(old(self).entries(), now, old(self).ttl()),
            final(self).capacity() == old(self).capacity(),
            final(self).ttl() == old(self).ttl(),
    {
        proof {
            use_type_invariant(&*self);
        }
        let ghost start = self.seen@;
        let mut drop: usize = 0;
        assert(start.subrange(0, start.len() as int) =~= start);
        while drop < self.seen.len() && is_expired(self.seen[drop].2, now, self.ttl_nanos)
            invariant
                self.seen@ == start,
                drop <= start.len(),
                prune_front(start, now, self.ttl_nanos) == prune_front(
                    start.subrange(drop as int, start.len() as int),
                    now,
                    self.ttl_nanos,
                ),
            decreases start.len() - drop,
        {
            assert(start.subrange(drop as int, start.len() as int).drop_first() =~= start.subrange(
                drop + 1,
                start.len() as int,
            ));
            drop = drop + 1;
        }
        assert(drop < start.len() ==> start.subrange(drop as int, start.len() as int)[0]
            == start[drop as int]);
        let ghost kept = start.subrange(drop as int, start.len() as int);
        assert(prune_front(kept, now, self.ttl_nanos) == kept);
        let rest = entries_from(&self.seen, drop);
        assert(keys_distinct(rest@));
        self.seen = rest;
    }

    fn contains_key(&self, packet_id: u64, hop_index: u8) -> (r: bool)
        ensures
            r == remembers(self.entries(), packet_id, hop_index),
    {
        let mut i: usize = 0;
        while i < self.seen.len()
            invariant
                i <= self.seen@.len(),
                forall|j: int|
                    0 <= j < i ==> !(self.seen@[j].0 == packet_id && self.seen@[j].1 == hop_index),
            decreases self.seen@.len() - i,
        {
            if self.seen[i].0 == packet_id && self.seen[i].1 == hop_index {
                return true;
            }
            i = i + 1;
        }
        false
    }

    /// Observe a packet `now` nanoseconds after the cache was made: expired
    /// entries are forgotten first; a key still remembered is a replay;
    /// otherwise the key is remembered and the oldest entries beyond the
    /// capacity are forgotten.
    pub fn observe_at(&mut self, packet: &LayeredRoutePacket, now: u128) -> (r: Result<
        (),
        RouteLayerError,
    >)
        ensures
            final(self).capacity() == old(self).capacity(),
            final(self).ttl() == old(self).ttl(),
            replay_observed(
                old(self).entries(),
                old(self).ttl(),
                old(self).capacity(),
                packet.packet_id,
                packet.hop_index,
                now,
                r,
                final(self).entries(),
            ),
    {
        self.prune_expired(now);
        proof {
            use_type_invariant(&*self);
        }
        if self.contains_key(packet.packet_id, packet.hop_index) {
            return Err(
                RouteLayerError::Replay { packet_id: packet.packet_id, hop_index: packet.hop_index },
            );
        }
        let mut next = entries_from(&self.seen, 0);
        assert(self.seen@.subrange(0, self.seen@.len() as int) =~= self.seen@);
        next.push((packet.packet_id, packet.hop_index, now));
        assert(keys_distinct(next@));
        let kept = if next.len() > self.max_entries {
            entries_from(&next, next.len() - self.max_entries)
        } else {
            next
        };
        self.seen = kept;
        Ok(())
    }

    /// Observe a packet at the current time; see `observe_at`.
    pub fn observe(&mut self, packet: &LayeredRoutePacket) -> (r: Result<(), RouteLayerError>)
        ensures
            final(self).capacity() == old(self).capacity(),
            final(self).ttl() == old(self).ttl(),
            exists|now: u128|
                #[trigger] replay_observed(
                    old(self).entries(),
                    old(self).ttl(),
                    old(self).capacity(),
                    packet.packet_id,
                    packet.hop_index,
                    now,
                    r,
                    final(self).entries(),
                ),
    {
        let elapsed = instant_duration_since(&instant_now(), &self.epoch);
        let now = duration_as_nanos(&elapsed);
        self.observe_at(packet, now)
    }
}

impl Clone for RouteReplayCache {
    fn clone(&self) -> (r: Self)
        ensures
            r.entries() == self.entries(),
            r.capacity() == self.capacity(),
            r.ttl() == self.ttl(),
    {
        proof {
            use_type_invariant(self);
        }
        let seen = entries_from(&self.seen, 0);
        assert(self.seen@.subrange(0, self.seen@.len() as int) =~= self.seen@);
        Self { epoch: self.epoch.clone(), seen, max_entries: self.max_entries, ttl_nanos: self.ttl_nanos }
    }
}

impl Default for RouteReplayCache {
    fn default() -> (r: Self)
        ensures
            r.entries() == Seq::<ReplayEntry>::empty(),
            r.capacity() == 4096,
            r.ttl() == 300_000_000_000,
    {
        Self::new()
    }
}

/// Peels layers at one relay, refusing packets whose (id, hop) it has seen.
#[derive(Debug, Clone, Default)]
pub struct RouteLayerProcessor {
    replay: RouteReplayCache,
}

impl RouteLayerProcessor {
    /// The processor's replay memory.
    pub closed spec fn replay_cache(&self) -> RouteReplayCache {
        self.replay
    }

    pub fn new() -> (r: Self)
        ensures
            r.replay_cache().entries() == Seq::<ReplayEntry>::empty(),
            r.replay_cache().capacity() == 4096,
            r.replay_cache().ttl() == 300_000_000_000,
    {
        Self { replay: RouteReplayCache::new() }
    }

    pub fn with_replay_limits(max_entries: usize, ttl: Duration) -> (r: Self)
        ensures
            r.replay_cache().entries() == Seq::<ReplayEntry>::empty(),
            r.replay_cache().capacity() == if max_entries == 0 {
                1
            } else {
                max_entries as nat
            },
            r.replay_cache().ttl() == duration_nanos(ttl),
    {
        Self { replay: RouteReplayCache::with_limits(max_entries, ttl) }
    }

    /// Record the packet in the replay memory, then peel it; a replayed packet
    /// is refused before any decryption.
    pub fn peel_once(
        &mut self,
        packet: &LayeredRoutePacket,
        expected_hop_index: u8,
        hop_secret: &RouteHopSecret,
    ) -> (r: Result<PeeledRouteLayer, RouteLayerError>)
        ensures
            final(self).replay_cache().capacity() == old(self).replay_cache().capacity(),
            final(self).replay_cache().ttl() == old(self).replay_cache().ttl(),
            exists|now: u128, seen: Result<(), RouteLayerError>|
                #[trigger] replay_observed(
                    old(self).replay_cache().entries(),
                    old(self).replay_cache().ttl(),
                    old(self).replay_cache().capacity(),
                    packet.packet_id,
                    packet.hop_index,
                    now,
                    seen,
                    final(self).replay_cache().entries(),
                ) && match seen {
                    Err(e) => r == Err::<PeeledRouteLayer, RouteLayerError>(e),
                    Ok(()) => peel_result_model(r) == peel_outcome(
                        packet.packet_id,
                        packet.hop_index,
                        packet.body@,
                        expected_hop_index,
                        hop_secret.0@,
                    ),
                },
    {
        let seen = self.replay.observe(packet);
        match seen {
            Err(e) => Err(e),
            Ok(()) => peel_route_layer(packet, expected_hop_index, hop_secret),
        }
    }
}

/// A reply route that can seal exactly one reply.
#[derive(Debug, Clone)]
pub struct SingleUseReplyBlock {
    packet_id: u64,
    hop_secrets: Vec<RouteHopSecret>,
    commands: Vec<RouteCommand>,
    used: bool,
}

impl SingleUseReplyBlock {
    /// The reply's packet id.
    pub closed spec fn reply_packet_id(&self) -> u64 {
        self.packet_id
    }

    /// The hop secrets of the reply route.
    pub closed spec fn reply_secrets(&self) -> Seq<RouteHopSecret> {
        self.hop_secrets@
    }

    /// The commands of the reply route.
    pub closed spec fn reply_commands(&self) -> Seq<RouteCommand> {
        self.commands@
    }

    /// Whether the block has sealed its reply.
    pub closed spec fn is_used(&self) -> bool {
        self.used
    }

    pub fn new(packet_id: u64, hop_secrets: Vec<RouteHopSecret>, commands: Vec<RouteCommand>) -> (r:
        Self)
        ensures
            r.reply_packet_id() == packet_id,
            r.reply_secrets() == hop_secrets@,
            r.reply_commands() == commands@,
            !r.is_used(),
    {
        Self { packet_id, hop_secrets, commands, used: false }
    }

    /// Seal `payload` along the reply route, once: a second call is refused,
    /// whatever the first call returned.
    pub fn seal_reply(&mut self, payload: &[u8]) -> (r: Result<LayeredRoutePacket, RouteLayerError>)
        ensures
            final(self).is_used(),
            final(self).reply_packet_id() == old(self).reply_packet_id(),
            final(self).reply_secrets() == old(self).reply_secrets(),
            final(self).reply_commands() == old(self).reply_commands(),
            old(self).is_used() ==> r == Err::<LayeredRoutePacket, RouteLayerError>(
                RouteLayerError::ReplyBlockAlreadyUsed,
            ),
            !old(self).is_used() ==> route_packet_model(r) == route_build_outcome(
                old(self).reply_packet_id(),
                old(self).reply_secrets(),
                old(self).reply_commands(),
                payload@,
            ),
    {
        if self.used {
            return Err(RouteLayerError::ReplyBlockAlreadyUsed);
        }
        self.used = true;
        build_layered_route_packet(
            self.packet_id,
            self.hop_secrets.as_slice(),
            self.commands.as_slice(),
            payload,
        )
    }
}

} // verus!
