//! The relay packet envelope: a 28-byte header in front of at most one
//! 1,200-byte application cell, so shard packets stay within the IPv6
//! minimum-MTU UDP payload budget.
use vstd::prelude::*;
use crate::bytes::{
    copy_range, lemma_u16_round_trip, lemma_u64_round_trip, push_all, push_u16_be, push_u64_be,
    push_zeros, read_u16_be, read_u64_be, u16_at, u16_be, u16_of, u64_at, u64_be,
};
use crate::framing::APP_CELL_PAYLOAD_SIZE;
use crate::route_layer::{
    has_magic, lemma_route_packet_round_trip, route_packet_bytes, route_packet_parse, zeros,
    LayeredRoutePacket, RouteLayerError, ROUTE_LAYER_MAX_BODY, ROUTE_PACKET_HEADER_SIZE,
};
use crate::secure_cell::{cell_bytes, header_check, SecureCellError, SecureShardCell};

verus! {

pub const RELAY_PACKET_MAGIC: [u8; 4] = [0x43, 0x52, 0x50, 0x37];
pub const RELAY_PACKET_VERSION: u8 = 1;
pub const RELAY_PACKET_HEADER_SIZE: usize = 28;
pub const RELAY_PACKET_MAX_PAYLOAD: usize = APP_CELL_PAYLOAD_SIZE;
pub const RELAY_PACKET_MAX_BYTES: usize = RELAY_PACKET_HEADER_SIZE + RELAY_PACKET_MAX_PAYLOAD;

#[derive(Debug, Clone, Copy, PartialEq, Eq, Structural)]
pub enum RelayPacketType {
    Hello,
    Shard,
    Ack,
    Error,
    Route,
    Data,
}

/// The wire code of a packet type.
pub open spec fn packet_type_code(t: RelayPacketType) -> u8 {
    match t {
        RelayPacketType::Hello => 1,
        RelayPacketType::Shard => 2,
        RelayPacketType::Ack => 3,
        RelayPacketType::Error => 4,
        RelayPacketType::Route => 5,
        RelayPacketType::Data => 6,
    }
}

/// The packet type a wire code names.
pub open spec fn packet_type_of(v: u8) -> Result<RelayPacketType, RelayPacketError> {
    if v == 1 {
        Ok(RelayPacketType::Hello)
    } else if v == 2 {
        Ok(RelayPacketType::Shard)
    } else if v == 3 {
        Ok(RelayPacketType::Ack)
    } else if v == 4 {
        Ok(RelayPacketType::Error)
    } else if v == 5 {
        Ok(RelayPacketType::Route)
    } else if v == 6 {
        Ok(RelayPacketType::Data)
    } else {
        Err(RelayPacketError::UnknownType(v))
    }
}

impl RelayPacketType {
    /// The wire code (1 to 6).
    pub fn to_u8(self) -> (r: u8)
        ensures
            r == packet_type_code(self),
    {
        match self {
            RelayPacketType::Hello => 1,
            RelayPacketType::Shard => 2,
            RelayPacketType::Ack => 3,
            RelayPacketType::Error => 4,
            RelayPacketType::Route => 5,
            RelayPacketType::Data => 6,
        }
    }

    /// The packet type a wire code names; other codes are refused.
    pub fn try_from_u8(value: u8) -> (r: Result<Self, RelayPacketError>)
        ensures
            r == packet_type_of(value),
    {
        match value {
            1 => Ok(RelayPacketType::Hello),
            2 => Ok(RelayPacketType::Shard),
            3 => Ok(RelayPacketType::Ack),
            4 => Ok(RelayPacketType::Error),
            5 => Ok(RelayPacketType::Route),
            6 => Ok(RelayPacketType::Data),
            other => Err(RelayPacketError::UnknownType(other)),
        }
    }
}

#[derive(Debug, Clone, Copy, PartialEq, Eq, Structural)]
pub enum RelayErrorCode {
    MalformedPacket,
    Replay,
    NoSession,
    UnknownStream,
    ExpiredRoute,
    Unauthorized,
    QueueFull,
    UnsupportedVersion,
    NoRoute,
    Drop,
    Internal,
}

/// The wire code of a relay error code.
pub open spec fn error_code_value(c: RelayErrorCode) -> u8 {
    match c {
        RelayErrorCode::MalformedPacket => 1,
        RelayErrorCode::Replay => 2,
        RelayErrorCode::NoSession => 3,
        RelayErrorCode::UnknownStream => 4,
        RelayErrorCode::ExpiredRoute => 5,
        RelayErrorCode::Unauthorized => 6,
        RelayErrorCode::QueueFull => 7,
        RelayErrorCode::UnsupportedVersion => 8,
        RelayErrorCode::NoRoute => 9,
        RelayErrorCode::Drop => 10,
        RelayErrorCode::Internal => 255,
    }
}

/// The relay error code a wire value names.
pub open spec fn error_code_of(v: u8) -> Result<RelayErrorCode, RelayPacketError> {
    if v == 1 {
        Ok(RelayErrorCode::MalformedPacket)
    } else if v == 2 {
        Ok(RelayErrorCode::Replay)
    } else if v == 3 {
        Ok(RelayErrorCode::NoSession)
    } else if v == 4 {
        Ok(RelayErrorCode::UnknownStream)
    } else if v == 5 {
        Ok(RelayErrorCode::ExpiredRoute)
    } else if v == 6 {
        Ok(RelayErrorCode::Unauthorized)
    } else if v == 7 {
        Ok(RelayErrorCode::QueueFull)
    } else if v == 8 {
        Ok(RelayErrorCode::UnsupportedVersion)
    } else if v == 9 {
        Ok(RelayErrorCode::NoRoute)
    } else if v == 10 {
        Ok(RelayErrorCode::Drop)
    } else if v == 255 {
        Ok(RelayErrorCode::Internal)
    } else {
        Err(RelayPacketError::UnknownErrorCode(v))
    }
}

impl RelayErrorCode {
    /// The wire code.
    pub fn to_u8(self) -> (r: u8)
        ensures
            r == error_code_value(self),
    {
        match self {
            RelayErrorCode::MalformedPacket => 1,
            RelayErrorCode::Replay => 2,
            RelayErrorCode::NoSession => 3,
            RelayErrorCode::UnknownStream => 4,
            RelayErrorCode::ExpiredRoute => 5,
            RelayErrorCode::Unauthorized => 6,
            RelayErrorCode::QueueFull => 7,
            RelayErrorCode::UnsupportedVersion => 8,
            RelayErrorCode::NoRoute => 9,
            RelayErrorCode::Drop => 10,
            RelayErrorCode::Internal => 255,
        }
    }

    /// The error code a wire value names; other values are refused.
    pub fn try_from_u8(value: u8) -> (r: Result<Self, RelayPacketError>)
        ensures
            r == error_code_of(value),
    {
        match value {
            1 => Ok(RelayErrorCode::MalformedPacket),
            2 => Ok(RelayErrorCode::Replay),
            3 => Ok(RelayErrorCode::NoSession),
            4 => Ok(RelayErrorCode::UnknownStream),
            5 => Ok(RelayErrorCode::ExpiredRoute),
            6 => Ok(RelayErrorCode::Unauthorized),
            7 => Ok(RelayErrorCode::QueueFull),
            8 => Ok(RelayErrorCode::UnsupportedVersion),
            9 => Ok(RelayErrorCode::NoRoute),
            10 => Ok(RelayErrorCode::Drop),
            255 => Ok(RelayErrorCode::Internal),
            other => Err(RelayPacketError::UnknownErrorCode(other)),
        }
    }
}

/// Decoding a value's wire code gives back the value.
pub proof fn lemma_codes_round_trip(t: RelayPacketType, c: RelayErrorCode)
    ensures
        packet_type_of(packet_type_code(t)) == Ok::<RelayPacketType, RelayPacketError>(t),
        error_code_of(error_code_value(c)) == Ok::<RelayErrorCode, RelayPacketError>(c),
{
}

#[allow(inconsistent_fields)]
#[derive(Debug, Clone, PartialEq, Eq)]
pub enum RelayPacketError {
    InvalidLength { got: usize, min: usize },
    PayloadTooLarge { got: usize, max: usize },
    InvalidMagic,
    UnsupportedVersion(u8),
    UnknownType(u8),
    UnknownErrorCode(u8),
    InvalidPayloadLength { declared: usize, available: usize },
    InvalidReservedBytes,
    InvalidShardPayloadLength { got: usize, expected: usize },
    InvalidShardCell(SecureCellError),
    InvalidRoutePacket(RouteLayerError),
}

#[derive(Debug, Clone, PartialEq, Eq)]
pub struct RelayPacket {
    pub packet_type: RelayPacketType,
    pub flags: u8,
    pub stream_id: u64,
    pub sequence: u64,
    pub payload: Vec<u8>,
}

/// A relay packet as plain values.
pub type RelayModel = (RelayPacketType, u8, u64, u64, Seq<u8>);

/// The plain values of a relay packet.
pub open spec fn relay_model(p: RelayPacket) -> RelayModel {
    (p.packet_type, p.flags, p.stream_id, p.sequence, p.payload@)
}

/// The plain values of a relay packet result.
pub open spec fn relay_result_model(r: Result<RelayPacket, RelayPacketError>) -> Result<
    RelayModel,
    RelayPacketError,
> {
    match r {
        Ok(p) => Ok(relay_model(p)),
        Err(e) => Err(e),
    }
}

/// A relay packet that is built when the payload fits, refused otherwise.
pub open spec fn relay_new_outcome(
    packet_type: RelayPacketType,
    flags: u8,
    stream_id: u64,
    sequence: u64,
    payload: Seq<u8>,
) -> Result<RelayModel, RelayPacketError> {
    if payload.len() > RELAY_PACKET_MAX_PAYLOAD {
        Err(
            RelayPacketError::PayloadTooLarge {
                got: payload.len() as usize,
                max: RELAY_PACKET_MAX_PAYLOAD,
            },
        )
    } else {
        Ok((packet_type, flags, stream_id, sequence, payload))
    }
}

/// The serialized relay packet: magic, version, type, flags, a reserved zero,
/// payload length, two reserved zeros, stream id and sequence (big endian),
/// then the payload.
pub open spec fn relay_packet_bytes(
    packet_type: RelayPacketType,
    flags: u8,
    stream_id: u64,
    sequence: u64,
    payload: Seq<u8>,
) -> Seq<u8> {
    RELAY_PACKET_MAGIC@ + seq![RELAY_PACKET_VERSION, packet_type_code(packet_type), flags, 0u8]
        + u16_be(payload.len() as u16) + seq![0u8, 0u8] + u64_be(stream_id) + u64_be(sequence)
        + payload
}

/// What decoding `bytes` as a relay packet yields, or the first check that fails.
pub open spec fn relay_packet_parse(bytes: Seq<u8>) -> Result<RelayModel, RelayPacketError> {
    if bytes.len() < RELAY_PACKET_HEADER_SIZE {
        Err(
            RelayPacketError::InvalidLength {
                got: bytes.len() as usize,
                min: RELAY_PACKET_HEADER_SIZE,
            },
        )
    } else if bytes.subrange(0, 4) != RELAY_PACKET_MAGIC@ {
        Err(RelayPacketError::InvalidMagic)
    } else if bytes[4] != RELAY_PACKET_VERSION {
        Err(RelayPacketError::UnsupportedVersion(bytes[4]))
    } else if packet_type_of(bytes[5]) is Err {
        Err(RelayPacketError::UnknownType(bytes[5]))
    } else if bytes[7] != 0 || bytes[10] != 0 || bytes[11] != 0 {
        Err(RelayPacketError::InvalidReservedBytes)
    } else if u16_at(bytes, 8) as int != bytes.len() - RELAY_PACKET_HEADER_SIZE {
        Err(
            RelayPacketError::InvalidPayloadLength {
                declared: u16_at(bytes, 8) as usize,
                available: (bytes.len() - RELAY_PACKET_HEADER_SIZE) as usize,
            },
        )
    } else if u16_at(bytes, 8) > RELAY_PACKET_MAX_PAYLOAD {
        Err(
            RelayPacketError::PayloadTooLarge {
                got: u16_at(bytes, 8) as usize,
                max: RELAY_PACKET_MAX_PAYLOAD,
            },
        )
    } else {
        Ok(
            (
                packet_type_of(bytes[5])->Ok_0,
                bytes[6],
                u64_at(bytes, 12),
                u64_at(bytes, 20),
                bytes.subrange(28, bytes.len() as int),
            ),
        )
    }
}

/// Decoding an encoded relay packet gives back the packet.
pub proof fn lemma_relay_packet_round_trip(
    packet_type: RelayPacketType,
    flags: u8,
    stream_id: u64,
    sequence: u64,
    payload: Seq<u8>,
)
    requires
        payload.len() <= RELAY_PACKET_MAX_PAYLOAD,
    ensures
        relay_packet_parse(relay_packet_bytes(packet_type, flags, stream_id, sequence, payload))
            == Ok::<RelayModel, RelayPacketError>((packet_type, flags, stream_id, sequence, payload)),
{
    let b = relay_packet_bytes(packet_type, flags, stream_id, sequence, payload);
    lemma_u16_round_trip(payload.len() as u16);
    lemma_u64_round_trip(stream_id);
    lemma_u64_round_trip(sequence);
    assert(b.subrange(0, 4) =~= RELAY_PACKET_MAGIC@);
    assert(u16_at(b, 8) == u16_at(u16_be(payload.len() as u16), 0));
    assert(u64_at(b, 12) == u64_at(u64_be(stream_id), 0));
    assert(u64_at(b, 20) == u64_at(u64_be(sequence), 0));
    assert(b.subrange(28, b.len() as int) =~= payload);
}

/// The route packet carried at the front of a route payload: its header
/// gives the body length, and trailing padding is ignored.
pub open spec fn route_payload_parse(payload: Seq<u8>) -> Result<(u64, u8, Seq<u8>), RelayPacketError> {
    if payload.len() < ROUTE_PACKET_HEADER_SIZE {
        Err(
            RelayPacketError::InvalidRoutePacket(
                RouteLayerError::InvalidLength {
                    declared: ROUTE_PACKET_HEADER_SIZE,
                    available: payload.len() as usize,
                },
            ),
        )
    } else if ROUTE_PACKET_HEADER_SIZE + u16_at(payload, 6) > payload.len() {
        Err(
            RelayPacketError::InvalidRoutePacket(
                RouteLayerError::InvalidLength {
                    declared: (ROUTE_PACKET_HEADER_SIZE + u16_at(payload, 6)) as usize,
                    available: payload.len() as usize,
                },
            ),
        )
    } else {
        match route_packet_parse(payload.take(ROUTE_PACKET_HEADER_SIZE + u16_at(payload, 6))) {
            Ok(v) => Ok(v),
            Err(e) => Err(RelayPacketError::InvalidRoutePacket(e)),
        }
    }
}

/// A route packet padded with zeros to the full relay payload is read back unchanged.
pub proof fn lemma_padded_route_packet(packet_id: u64, hop_index: u8, body: Seq<u8>, pad: nat)
    requires
        body.len() <= ROUTE_LAYER_MAX_BODY,
    ensures
        route_payload_parse(route_packet_bytes(packet_id, hop_index, body) + zeros(pad)) == Ok::<
            (u64, u8, Seq<u8>),
            RelayPacketError,
        >((packet_id, hop_index, body)),
{
    let b = route_packet_bytes(packet_id, hop_index, body);
    let p = b + zeros(pad);
    lemma_u16_round_trip(body.len() as u16);
    assert(u16_at(p, 6) == u16_at(u16_be(body.len() as u16), 0));
    assert(p.take(ROUTE_PACKET_HEADER_SIZE + u16_at(p, 6)) =~= b);
    lemma_route_packet_round_trip(packet_id, hop_index, body);
}

impl RelayPacket {
    pub fn new(
        packet_type: RelayPacketType,
        flags: u8,
        stream_id: u64,
        sequence: u64,
        payload: Vec<u8>,
    ) -> (r: Result<Self, RelayPacketError>)
        ensures
            relay_result_model(r) == relay_new_outcome(
                packet_type,
                flags,
                stream_id,
                sequence,
                payload@,
            ),
    {
        if payload.len() > RELAY_PACKET_MAX_PAYLOAD {
            return Err(
                RelayPacketError::PayloadTooLarge {
                    got: payload.len(),
                    max: RELAY_PACKET_MAX_PAYLOAD,
                },
            );
        }
        Ok(Self { packet_type, flags, stream_id, sequence, payload })
    }

    /// An acknowledgement carrying `b"OK"`.
    pub fn ack(stream_id: u64, sequence: u64) -> (r: Result<Self, RelayPacketError>)
        ensures
            relay_result_model(r) == Ok::<RelayModel, RelayPacketError>(
                (RelayPacketType::Ack, 0u8, stream_id, sequence, seq![0x4fu8, 0x4bu8]),
            ),
    {
        let payload: Vec<u8> = vec![0x4fu8, 0x4bu8];
        assert(payload@ =~= seq![0x4fu8, 0x4bu8]);
        Self::new(RelayPacketType::Ack, 0, stream_id, sequence, payload)
    }

    pub fn data(stream_id: u64, sequence: u64, payload: Vec<u8>) -> (r: Result<Self, RelayPacketError>)
        ensures
            relay_result_model(r) == relay_new_outcome(
                RelayPacketType::Data,
                0,
                stream_id,
                sequence,
                payload@,
            ),
    {
        Self::new(RelayPacketType::Data, 0, stream_id, sequence, payload)
    }

    /// An error packet whose one-byte payload is the code.
    pub fn error_code(stream_id: u64, sequence: u64, code: RelayErrorCode) -> (r: Result<
        Self,
        RelayPacketError,
    >)
        ensures
            relay_result_model(r) == Ok::<RelayModel, RelayPacketError>(
                (RelayPacketType::Error, 0u8, stream_id, sequence, seq![error_code_value(code)]),
            ),
    {
        let payload: Vec<u8> = vec![code.to_u8()];
        assert(payload@ =~= seq![error_code_value(code)]);
        Self::new(RelayPacketType::Error, 0, stream_id, sequence, payload)
    }

    /// The code an error packet carries.
    pub fn decode_error_code(&self) -> (r: Result<RelayErrorCode, RelayPacketError>)
        ensures
            r == if self.packet_type != RelayPacketType::Error {
                Err(RelayPacketError::UnknownType(packet_type_code(self.packet_type)))
            } else if self.payload@.len() != 1 {
                Err(
                    RelayPacketError::InvalidPayloadLength {
                        declared: 1,
                        available: self.payload@.len() as usize,
                    },
                )
            } else {
                error_code_of(self.payload@[0])
            },
    {
        if self.packet_type != RelayPacketType::Error {
            return Err(RelayPacketError::UnknownType(self.packet_type.to_u8()));
        }
        if self.payload.len() != 1 {
            return Err(
                RelayPacketError::InvalidPayloadLength { declared: 1, available: self.payload.len() },
            );
        }
        RelayErrorCode::try_from_u8(self.payload[0])
    }

    pub fn error(stream_id: u64, sequence: u64, code: &[u8]) -> (r: Result<Self, RelayPacketError>)
        ensures
            relay_result_model(r) == relay_new_outcome(
                RelayPacketType::Error,
                0,
                stream_id,
                sequence,
                code@,
            ),
    {
        let payload = copy_range(code, 0, code.len());
        assert(payload@ =~= code@);
        Self::new(RelayPacketType::Error, 0, stream_id, sequence, payload)
    }

    /// A shard packet carrying the 1,200 wire bytes of `cell`.
    pub fn shard(stream_id: u64, sequence: u64, cell: &SecureShardCell) -> (r: Result<
        Self,
        RelayPacketError,
    >)
        ensures
            relay_result_model(r) == Ok::<RelayModel, RelayPacketError>(
                (RelayPacketType::Shard, 0u8, stream_id, sequence, cell_bytes(*cell)),
            ),
    {
        let bytes = cell.to_app_cell_bytes();
        let payload = crate::bytes::array_to_vec(&bytes);
        Self::new(RelayPacketType::Shard, 0, stream_id, sequence, payload)
    }

    /// A route packet carrying the encoded `route_packet`, zero-padded to the
    /// full payload size so every route packet has the same length.
    pub fn route(stream_id: u64, sequence: u64, route_packet: &LayeredRoutePacket) -> (r: Result<
        Self,
        RelayPacketError,
    >)
        ensures
            route_packet.body@.len() > ROUTE_LAYER_MAX_BODY ==> r == Err::<Self, RelayPacketError>(
                RelayPacketError::InvalidRoutePacket(
                    RouteLayerError::BodyTooLarge {
                        got: route_packet.body@.len() as usize,
                        max: ROUTE_LAYER_MAX_BODY,
                    },
                ),
            ),
            route_packet.body@.len() <= ROUTE_LAYER_MAX_BODY && ROUTE_PACKET_HEADER_SIZE
                + route_packet.body@.len() > RELAY_PACKET_MAX_PAYLOAD ==> r == Err::<
                Self,
                RelayPacketError,
            >(
                RelayPacketError::PayloadTooLarge {
                    got: (ROUTE_PACKET_HEADER_SIZE + route_packet.body@.len()) as usize,
                    max: RELAY_PACKET_MAX_PAYLOAD,
                },
            ),
            ROUTE_PACKET_HEADER_SIZE + route_packet.body@.len() <= RELAY_PACKET_MAX_PAYLOAD ==> (r matches Ok(
                p,
            ) && p.packet_type == RelayPacketType::Route && p.flags == 0 && p.stream_id == stream_id
                && p.sequence == sequence && p.payload@ == route_packet_bytes(
                route_packet.packet_id,
                route_packet.hop_index,
                route_packet.body@,
            ) + zeros((RELAY_PACKET_MAX_PAYLOAD - ROUTE_PACKET_HEADER_SIZE
                - route_packet.body@.len()) as nat)),
    {
        let mut payload = match route_packet.encode() {
            Ok(p) => p,
            Err(e) => return Err(RelayPacketError::InvalidRoutePacket(e)),
        };
        if payload.len() > RELAY_PACKET_MAX_PAYLOAD {
            return Err(
                RelayPacketError::PayloadTooLarge {
                    got: payload.len(),
                    max: RELAY_PACKET_MAX_PAYLOAD,
                },
            );
        }
        let pad = RELAY_PACKET_MAX_PAYLOAD - payload.len();
        push_zeros(&mut payload, pad);
        Self::new(RelayPacketType::Route, 0, stream_id, sequence, payload)
    }

    /// The route packet a route relay packet carries.
    pub fn route_packet(&self) -> (r: Result<LayeredRoutePacket, RelayPacketError>)
        ensures
            self.packet_type != RelayPacketType::Route ==> r == Err::<
                LayeredRoutePacket,
                RelayPacketError,
            >(RelayPacketError::UnknownType(packet_type_code(self.packet_type))),
            self.packet_type == RelayPacketType::Route ==> match r {
                Ok(p) => route_payload_parse(self.payload@) == Ok::<
                    (u64, u8, Seq<u8>),
                    RelayPacketError,
                >((p.packet_id, p.hop_index, p.body@)),
                Err(e) => route_payload_parse(self.payload@) == Err::<
                    (u64, u8, Seq<u8>),
                    RelayPacketError,
                >(e),
            },
    {
        if self.packet_type != RelayPacketType::Route {
            return Err(RelayPacketError::UnknownType(self.packet_type.to_u8()));
        }
        let header_len = ROUTE_PACKET_HEADER_SIZE;
        if self.payload.len() < header_len {
            return Err(
                RelayPacketError::InvalidRoutePacket(
                    RouteLayerError::InvalidLength {
                        declared: header_len,
                        available: self.payload.len(),
                    },
                ),
            );
        }
        let declared = read_u16_be(self.payload.as_slice(), 6) as usize;
        let total = header_len + declared;
        if total > self.payload.len() {
            return Err(
                RelayPacketError::InvalidRoutePacket(
                    RouteLayerError::InvalidLength { declared: total, available: self.payload.len() },
                ),
            );
        }
        let prefix = copy_range(self.payload.as_slice(), 0, total);
        assert(prefix@ =~= self.payload@.take(total as int));
        match LayeredRoutePacket::decode(prefix.as_slice()) {
            Ok(p) => Ok(p),
            Err(e) => Err(RelayPacketError::InvalidRoutePacket(e)),
        }
    }

    /// The secure cell a shard packet carries, header-checked but not decrypted.
    pub fn shard_cell(&self) -> (r: Result<SecureShardCell, RelayPacketError>)
        ensures
            self.packet_type != RelayPacketType::Shard ==> r == Err::<
                SecureShardCell,
                RelayPacketError,
            >(RelayPacketError::UnknownType(packet_type_code(self.packet_type))),
            self.packet_type == RelayPacketType::Shard && self.payload@.len()
                != APP_CELL_PAYLOAD_SIZE ==> r == Err::<SecureShardCell, RelayPacketError>(
                RelayPacketError::InvalidShardPayloadLength {
                    got: self.payload@.len() as usize,
                    expected: APP_CELL_PAYLOAD_SIZE,
                },
            ),
            self.packet_type == RelayPacketType::Shard && self.payload@.len()
                == APP_CELL_PAYLOAD_SIZE ==> match r {
                Ok(c) => cell_bytes(c) == self.payload@ && header_check(c) is Ok,
                Err(e) => exists|c: SecureShardCell|
                    cell_bytes(c) == self.payload@ && #[trigger] header_check(c) is Err && e
                        == RelayPacketError::InvalidShardCell(header_check(c)->Err_0),
            },
    {
        if self.packet_type != RelayPacketType::Shard {
            return Err(RelayPacketError::UnknownType(self.packet_type.to_u8()));
        }
        if self.payload.len() != APP_CELL_PAYLOAD_SIZE {
            return Err(
                RelayPacketError::InvalidShardPayloadLength {
                    got: self.payload.len(),
                    expected: APP_CELL_PAYLOAD_SIZE,
                },
            );
        }
        let mut bytes = [0u8; 1200];
        crate::bytes::fill_array(&mut bytes, self.payload.as_slice(), 0);
        assert(self.payload@.subrange(0, 1200) =~= self.payload@);
        match SecureShardCell::from_app_cell_bytes(&bytes) {
            Ok(c) => Ok(c),
            Err(e) => Err(RelayPacketError::InvalidShardCell(e)),
        }
    }

    pub fn encode(&self) -> (r: Result<Vec<u8>, RelayPacketError>)
        ensures
            self.payload@.len() > RELAY_PACKET_MAX_PAYLOAD ==> r == Err::<Vec<u8>, RelayPacketError>(
                RelayPacketError::PayloadTooLarge {
                    got: self.payload@.len() as usize,
                    max: RELAY_PACKET_MAX_PAYLOAD,
                },
            ),
            self.payload@.len() <= RELAY_PACKET_MAX_PAYLOAD ==> (r matches Ok(b) && b@
                == relay_packet_bytes(
                self.packet_type,
                self.flags,
                self.stream_id,
                self.sequence,
                self.payload@,
            )),
    {
        if self.payload.len() > RELAY_PACKET_MAX_PAYLOAD {
            return Err(
                RelayPacketError::PayloadTooLarge {
                    got: self.payload.len(),
                    max: RELAY_PACKET_MAX_PAYLOAD,
                },
            );
        }
        let mut out: Vec<u8> = Vec::new();
        push_all(&mut out, &RELAY_PACKET_MAGIC);
        out.push(RELAY_PACKET_VERSION);
        out.push(self.packet_type.to_u8());
        out.push(self.flags);
        out.push(0);
        push_u16_be(&mut out, self.payload.len() as u16);
        out.push(0);
        out.push(0);
        push_u64_be(&mut out, self.stream_id);
        push_u64_be(&mut out, self.sequence);
        push_all(&mut out, self.payload.as_slice());
        assert(out@ =~= relay_packet_bytes(
            self.packet_type,
            self.flags,
            self.stream_id,
            self.sequence,
            self.payload@,
        ));
        Ok(out)
    }

    pub fn decode(bytes: &[u8]) -> (r: Result<Self, RelayPacketError>)
        ensures
            relay_result_model(r) == relay_packet_parse(bytes@),
    {
        if bytes.len() < RELAY_PACKET_HEADER_SIZE {
            return Err(
                RelayPacketError::InvalidLength { got: bytes.len(), min: RELAY_PACKET_HEADER_SIZE },
            );
        }
        if !has_magic(bytes, &RELAY_PACKET_MAGIC) {
            return Err(RelayPacketError::InvalidMagic);
        }
        if bytes[4] != RELAY_PACKET_VERSION {
            return Err(RelayPacketError::UnsupportedVersion(bytes[4]));
        }
        let packet_type = RelayPacketType::try_from_u8(bytes[5])?;
        let flags = bytes[6];
        if bytes[7] != 0 || bytes[10] != 0 || bytes[11] != 0 {
            return Err(RelayPacketError::InvalidReservedBytes);
        }
        let payload_len = read_u16_be(bytes, 8) as usize;
        let available = bytes.len() - RELAY_PACKET_HEADER_SIZE;
        if payload_len != available {
            return Err(RelayPacketError::InvalidPayloadLength { declared: payload_len, available });
        }
        if payload_len > RELAY_PACKET_MAX_PAYLOAD {
            return Err(
                RelayPacketError::PayloadTooLarge { got: payload_len, max: RELAY_PACKET_MAX_PAYLOAD },
            );
        }
        let stream_id = read_u64_be(bytes, 12);
        let sequence = read_u64_be(bytes, 20);
        let payload = copy_range(bytes, RELAY_PACKET_HEADER_SIZE, bytes.len());
        Ok(Self { packet_type, flags, stream_id, sequence, payload })
    }
}

} // verus!
