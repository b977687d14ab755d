use chronos::relay_packet::{
    RelayErrorCode, RelayPacket, RelayPacketError, RelayPacketType, RELAY_PACKET_MAX_BYTES,
    RELAY_PACKET_MAX_PAYLOAD,
};
use chronos::route_layer::{build_layered_route_packet, RouteCommand, RouteHopSecret, RouteLayerError};
use chronos::secure_cell::{derive_link_key, SecureCellError, SecureShardCell};

fn cell() -> SecureShardCell {
    let key = derive_link_key(&[0x77u8; 32], &[0x88u8; 16]).expect("key");
    SecureShardCell::encrypt(&key, [0x88; 16], 12, 0, b"relay packet shard").expect("cell")
}

#[test]
fn relay_packet_round_trips_shard_cell() {
    let cell = cell();
    let packet = RelayPacket::shard(55, 66, &cell).expect("packet");
    let encoded = packet.encode().expect("encode");
    assert_eq!(encoded.len(), RELAY_PACKET_MAX_BYTES);

    let decoded = RelayPacket::decode(&encoded).expect("decode");
    assert_eq!(decoded.stream_id, 55);
    assert_eq!(decoded.sequence, 66);
    assert_eq!(decoded.shard_cell().expect("cell"), cell);
}

#[test]
fn relay_packet_round_trips_typed_error_code() {
    let packet = RelayPacket::error_code(99, 100, RelayErrorCode::NoRoute).expect("error");
    let encoded = packet.encode().expect("encode");
    let decoded = RelayPacket::decode(&encoded).expect("decode");
    assert_eq!(
        decoded.decode_error_code().expect("code"),
        RelayErrorCode::NoRoute
    );
}

#[test]
fn relay_packet_matches_documented_minimal_vector() {
    let packet = RelayPacket::data(1, 2, vec![1, 2, 3]).expect("packet");
    let encoded = packet.encode().expect("encode");
    let hex = encoded
        .iter()
        .map(|b| format!("{b:02x}"))
        .collect::<String>();
    assert_eq!(
        hex,
        "43525037010600000003000000000000000000010000000000000002010203"
    );
}

#[test]
fn relay_packet_round_trips_data_packet() {
    let packet = RelayPacket::data(12, 34, b"delivered route payload".to_vec()).expect("data");
    let encoded = packet.encode().expect("encode");
    let decoded = RelayPacket::decode(&encoded).expect("decode");
    assert_eq!(decoded, packet);
    assert_eq!(decoded.packet_type, RelayPacketType::Data);
}

#[test]
fn relay_route_packet_is_padded_to_constant_payload_size() {
    let secrets = vec![RouteHopSecret([1u8; 32])];
    let commands = vec![RouteCommand::deliver_local()];
    let route = build_layered_route_packet(78, &secrets, &commands, b"x").expect("route");
    let packet = RelayPacket::route(88, 100, &route).expect("relay route");
    assert_eq!(packet.payload.len(), RELAY_PACKET_MAX_PAYLOAD);
    assert_eq!(
        packet.encode().expect("encode").len(),
        RELAY_PACKET_MAX_BYTES
    );
    assert_eq!(packet.route_packet().expect("route packet"), route);
}

#[test]
fn relay_packet_round_trips_route_packet() {
    let secrets = vec![RouteHopSecret([1u8; 32]), RouteHopSecret([2u8; 32])];
    let commands = vec![RouteCommand::forward(10), RouteCommand::deliver_local()];
    let route =
        build_layered_route_packet(77, &secrets, &commands, b"route payload").expect("route");
    let packet = RelayPacket::route(88, 99, &route).expect("relay route");
    let encoded = packet.encode().expect("encode");
    let decoded = RelayPacket::decode(&encoded).expect("decode");
    assert_eq!(decoded.packet_type, RelayPacketType::Route);
    assert_eq!(decoded.route_packet().expect("route packet"), route);
}

#[test]
fn relay_packet_rejects_bad_magic() {
    let packet =
        RelayPacket::new(RelayPacketType::Hello, 0, 1, 2, b"hello".to_vec()).expect("packet");
    let mut encoded = packet.encode().expect("encode");
    encoded[0] = b'X';
    assert_eq!(
        RelayPacket::decode(&encoded),
        Err(RelayPacketError::InvalidMagic)
    );
}

#[test]
fn relay_packet_rejects_payload_length_mismatch() {
    let packet =
        RelayPacket::new(RelayPacketType::Ack, 0, 1, 2, b"ok".to_vec()).expect("packet");
    let mut encoded = packet.encode().expect("encode");
    encoded[9] = 3;
    assert_eq!(
        RelayPacket::decode(&encoded),
        Err(RelayPacketError::InvalidPayloadLength {
            declared: 3,
            available: 2,
        })
    );
}

#[test]
fn relay_packet_rejects_non_shard_cell_extraction() {
    let packet =
        RelayPacket::new(RelayPacketType::Hello, 0, 1, 2, b"hello".to_vec()).expect("packet");
    assert_eq!(
        packet.shard_cell(),
        Err(RelayPacketError::UnknownType(RelayPacketType::Hello.to_u8()))
    );
}

#[test]
fn relay_packet_decode_reports_each_header_error() {
    assert_eq!(
        RelayPacket::decode(&[0u8; 10]),
        Err(RelayPacketError::InvalidLength { got: 10, min: 28 })
    );
    let packet = RelayPacket::data(1, 2, vec![9]).expect("packet");
    let good = packet.encode().expect("encode");
    let mut bad = good.clone();
    bad[4] = 2;
    assert_eq!(RelayPacket::decode(&bad), Err(RelayPacketError::UnsupportedVersion(2)));
    let mut bad = good.clone();
    bad[5] = 7;
    assert_eq!(RelayPacket::decode(&bad), Err(RelayPacketError::UnknownType(7)));
    let mut bad = good.clone();
    bad[11] = 1;
    assert_eq!(RelayPacket::decode(&bad), Err(RelayPacketError::InvalidReservedBytes));
    let mut oversized = vec![0u8; 28 + 1201];
    oversized[..12].copy_from_slice(&good[..12]);
    oversized[8] = (1201u16 >> 8) as u8;
    oversized[9] = (1201u16 & 0xff) as u8;
    assert_eq!(
        RelayPacket::decode(&oversized),
        Err(RelayPacketError::PayloadTooLarge { got: 1201, max: 1200 })
    );
}

#[test]
fn relay_packet_refuses_oversized_payloads_and_reads_codes() {
    assert_eq!(
        RelayPacket::data(1, 1, vec![0u8; 1201]),
        Err(RelayPacketError::PayloadTooLarge { got: 1201, max: 1200 })
    );
    let ack = RelayPacket::ack(3, 4).expect("ack");
    assert_eq!(ack.payload, b"OK");
    assert_eq!(ack.packet_type, RelayPacketType::Ack);
    assert_eq!(
        ack.decode_error_code(),
        Err(RelayPacketError::UnknownType(3))
    );
    let raw = RelayPacket::error(1, 1, &[42]).expect("error");
    assert_eq!(raw.decode_error_code(), Err(RelayPacketError::UnknownErrorCode(42)));
    let long = RelayPacket::error(1, 1, &[1, 2]).expect("error");
    assert_eq!(
        long.decode_error_code(),
        Err(RelayPacketError::InvalidPayloadLength { declared: 1, available: 2 })
    );
    for (code, value) in [
        (RelayErrorCode::MalformedPacket, 1u8),
        (RelayErrorCode::Drop, 10),
        (RelayErrorCode::Internal, 255),
    ] {
        assert_eq!(code.to_u8(), value);
        assert_eq!(RelayErrorCode::try_from_u8(value), Ok(code));
    }
    assert_eq!(RelayPacketType::try_from_u8(6), Ok(RelayPacketType::Data));
    assert_eq!(RelayPacketType::try_from_u8(0), Err(RelayPacketError::UnknownType(0)));
}

#[test]
fn relay_shard_payloads_are_checked_before_use() {
    let short = RelayPacket::new(RelayPacketType::Shard, 0, 1, 1, vec![0u8; 10]).expect("packet");
    assert_eq!(
        short.shard_cell(),
        Err(RelayPacketError::InvalidShardPayloadLength { got: 10, expected: 1200 })
    );
    let zeros = RelayPacket::new(RelayPacketType::Shard, 0, 1, 1, vec![0u8; 1200]).expect("packet");
    assert_eq!(
        zeros.shard_cell(),
        Err(RelayPacketError::InvalidShardCell(SecureCellError::InvalidMagic))
    );
    let data = RelayPacket::data(1, 1, vec![]).expect("data");
    assert_eq!(data.route_packet(), Err(RelayPacketError::UnknownType(6)));
    let route = RelayPacket::new(RelayPacketType::Route, 0, 1, 1, vec![0u8; 4]).expect("route");
    assert_eq!(
        route.route_packet(),
        Err(RelayPacketError::InvalidRoutePacket(RouteLayerError::InvalidLength {
            declared: 16,
            available: 4
        }))
    );
}
