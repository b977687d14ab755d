//! The UDP datagram boundary of the lite node: a datagram is either one
//! exact encrypted app cell, or a relay packet whose typed payload (a shard
//! cell or a route packet) is intact.
use vstd::prelude::*;
use crate::framing::APP_CELL_PAYLOAD_SIZE;
use crate::relay_handler::{RelayDecision, RelayHandlerError, RelayPacketHandler, route_outcome, shard_outcome};
use crate::relay_packet::{
    RELAY_PACKET_MAX_BYTES, RelayPacket, RelayPacketError, RelayPacketType, packet_type_code, relay_model,
    relay_packet_parse, route_payload_parse,
};
use crate::secure_cell::{SecureCellError, SecureShardCell, cell_bytes, header_check};

verus! {

#[derive(Debug, Clone, PartialEq, Eq)]
pub enum SecureUdpError {
    InvalidLength { got: usize, expected: usize },
    InvalidCell(SecureCellError),
}

/// Reads one UDP payload as an exact encrypted app cell.
pub fn parse_secure_app_datagram(buf: &[u8]) -> (r: Result<SecureShardCell, SecureUdpError>)
    ensures
        buf@.len() != APP_CELL_PAYLOAD_SIZE ==> r == Err::<SecureShardCell, SecureUdpError>(
            SecureUdpError::InvalidLength { got: buf@.len() as usize, expected: APP_CELL_PAYLOAD_SIZE },
        ),
        buf@.len() == APP_CELL_PAYLOAD_SIZE ==> match r {
            Ok(c) => cell_bytes(c) == buf@ && header_check(c) is Ok,
            Err(e) => exists|c: SecureShardCell|
                cell_bytes(c) == buf@ && #[trigger] header_check(c) is Err && e == SecureUdpError::InvalidCell(
                    header_check(c)->Err_0,
                ),
        },
{
    if buf.len() != APP_CELL_PAYLOAD_SIZE {
        return Err(SecureUdpError::InvalidLength { got: buf.len(), expected: APP_CELL_PAYLOAD_SIZE });
    }
    let mut bytes = [0u8; 1200];
    crate::bytes::fill_array(&mut bytes, buf, 0);
    assert(buf@.subrange(0, 1200) =~= buf@);
    match SecureShardCell::from_app_cell_bytes(&bytes) {
        Ok(c) => Ok(c),
        Err(e) => Err(SecureUdpError::InvalidCell(e)),
    }
}

#[derive(Debug, Clone, PartialEq, Eq)]
pub enum SecureRelayUdpError {
    InvalidLength { got: usize, max: usize },
    InvalidPacket(RelayPacketError),
    Handler(RelayHandlerError),
}

/// Whether the typed payload of a decoded relay packet is intact: a shard
/// packet's payload is an exact app cell whose header checks, a route
/// packet's payload parses as a route packet.
pub open spec fn payload_check(p: RelayPacket) -> Result<(), RelayPacketError> {
    if p.packet_type == RelayPacketType::Shard {
        if p.payload@.len() != APP_CELL_PAYLOAD_SIZE {
            Err(
                RelayPacketError::InvalidShardPayloadLength {
                    got: p.payload@.len() as usize,
                    expected: APP_CELL_PAYLOAD_SIZE,
                },
            )
        } else {
            Ok(())
        }
    } else if p.packet_type == RelayPacketType::Route {
        match route_payload_parse(p.payload@) {
            Ok(_) => Ok(()),
            Err(e) => Err(e),
        }
    } else {
        Err(RelayPacketError::UnknownType(packet_type_code(p.packet_type)))
    }
}

/// Reads one UDP payload as a relay packet carrying a shard cell or a route
/// packet.
pub fn parse_secure_relay_datagram(buf: &[u8]) -> (r: Result<RelayPacket, SecureRelayUdpError>)
    ensures
        buf@.len() > RELAY_PACKET_MAX_BYTES ==> r == Err::<RelayPacket, SecureRelayUdpError>(
            SecureRelayUdpError::InvalidLength { got: buf@.len() as usize, max: RELAY_PACKET_MAX_BYTES },
        ),
        buf@.len() <= RELAY_PACKET_MAX_BYTES ==> match relay_packet_parse(buf@) {
            Err(e) => r == Err::<RelayPacket, SecureRelayUdpError>(SecureRelayUdpError::InvalidPacket(e)),
            Ok(m) => match r {
                Ok(p) => relay_model(p) == m && payload_check(p) is Ok && (p.packet_type
                    == RelayPacketType::Shard ==> exists|c: SecureShardCell|
                    cell_bytes(c) == p.payload@ && #[trigger] header_check(c) is Ok),
                Err(SecureRelayUdpError::InvalidPacket(e)) => exists|p: RelayPacket|
                    relay_model(p) == m && (payload_check(p) == Err::<(), RelayPacketError>(e) || (p.packet_type
                        == RelayPacketType::Shard && payload_check(p) is Ok && exists|c: SecureShardCell|
                        cell_bytes(c) == p.payload@ && #[trigger] header_check(c) is Err && e
                            == RelayPacketError::InvalidShardCell(header_check(c)->Err_0))),
                Err(_) => false,
            },
        },
{
    if buf.len() > RELAY_PACKET_MAX_BYTES {
        return Err(SecureRelayUdpError::InvalidLength { got: buf.len(), max: RELAY_PACKET_MAX_BYTES });
    }
    let packet = match RelayPacket::decode(buf) {
        Ok(p) => p,
        Err(e) => return Err(SecureRelayUdpError::InvalidPacket(e)),
    };
    match packet.packet_type {
        RelayPacketType::Shard => {
            if let Err(e) = packet.shard_cell() {
                return Err(SecureRelayUdpError::InvalidPacket(e));
            }
        },
        RelayPacketType::Route => {
            if let Err(e) = packet.route_packet() {
                return Err(SecureRelayUdpError::InvalidPacket(e));
            }
        },
        _ => {
            return Err(
                SecureRelayUdpError::InvalidPacket(RelayPacketError::UnknownType(packet.packet_type.to_u8())),
            );
        },
    }
    Ok(packet)
}

/// What the relay handler's contract says of processing `p`.
pub open spec fn handled(
    before: RelayPacketHandler,
    p: RelayPacket,
    r: Result<RelayDecision, RelayHandlerError>,
    after: RelayPacketHandler,
) -> bool {
    &&& p.packet_type == RelayPacketType::Shard ==> shard_outcome(before, p, r, after)
    &&& p.packet_type == RelayPacketType::Route ==> route_outcome(before, p, r, after)
}

/// Reads a relay datagram and hands the packet to the relay handler.
pub fn process_secure_relay_datagram(handler: &mut RelayPacketHandler, buf: &[u8]) -> (r: Result<
    RelayDecision,
    SecureRelayUdpError,
>)
    requires
        old(handler).wf(),
    ensures
        final(handler).wf(),
        final(handler).window_size() == old(handler).window_size(),
        buf@.len() > RELAY_PACKET_MAX_BYTES ==> r == Err::<RelayDecision, SecureRelayUdpError>(
            SecureRelayUdpError::InvalidLength { got: buf@.len() as usize, max: RELAY_PACKET_MAX_BYTES },
        ) && *final(handler) == *old(handler),
        buf@.len() <= RELAY_PACKET_MAX_BYTES && relay_packet_parse(buf@) is Err ==> r == Err::<
            RelayDecision,
            SecureRelayUdpError,
        >(SecureRelayUdpError::InvalidPacket(relay_packet_parse(buf@)->Err_0)) && *final(handler) == *old(handler),
        buf@.len() <= RELAY_PACKET_MAX_BYTES && relay_packet_parse(buf@) is Ok ==> match r {
            Ok(d) => exists|p: RelayPacket|
                relay_model(p) == relay_packet_parse(buf@)->Ok_0 && payload_check(p) is Ok && #[trigger] handled(
                    *old(handler),
                    p,
                    Ok::<RelayDecision, RelayHandlerError>(d),
                    *final(handler),
                ),
            Err(SecureRelayUdpError::Handler(e)) => exists|p: RelayPacket|
                relay_model(p) == relay_packet_parse(buf@)->Ok_0 && payload_check(p) is Ok && #[trigger] handled(
                    *old(handler),
                    p,
                    Err::<RelayDecision, RelayHandlerError>(e),
                    *final(handler),
                ),
            Err(SecureRelayUdpError::InvalidPacket(_)) => *final(handler) == *old(handler),
            Err(SecureRelayUdpError::InvalidLength { .. }) => false,
        },
{
    let packet = match parse_secure_relay_datagram(buf) {
        Ok(p) => p,
        Err(e) => return Err(e),
    };
    let ghost p0 = packet;
    let ghost h0 = *handler;
    let res = handler.process(packet);
    assert(handled(h0, p0, res, *handler));
    match res {
        Ok(d) => Ok(d),
        Err(e) => Err(SecureRelayUdpError::Handler(e)),
    }
}

} // verus!
