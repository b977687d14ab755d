use chronos::relay_handler::{RelayDecision, RelayHandlerError, RelayPacketHandler};
use chronos::relay_packet::{RelayPacket, RelayPacketError, RelayPacketType};
use chronos::route_layer::{
    build_layered_route_packet, RouteCommand, RouteHopSecret, RouteLayerError,
};
use chronos::secure_cell::{derive_link_key, ReplayError, SecureShardCell};

fn test_cell(seq: u64) -> SecureShardCell {
    let key = derive_link_key(&[0x31u8; 32], &[0x13u8; 16]).expect("key");
    SecureShardCell::encrypt(&key, [0x13; 16], seq, 0, b"relay handler cell").expect("cell")
}

#[test]
fn handler_forwards_valid_shard_and_generates_ack() {
    let cell = test_cell(7);
    let packet = RelayPacket::shard(42, 7, &cell).expect("packet");
    let mut handler = RelayPacketHandler::new(16).expect("handler");

    let decision = handler.process(packet.clone()).expect("decision");
    match decision {
        RelayDecision::ForwardShard { packet: fwd, ack } => {
            assert_eq!(fwd, packet);
            assert_eq!(ack.packet_type, RelayPacketType::Ack);
            assert_eq!(ack.stream_id, 42);
            assert_eq!(ack.sequence, 7);
            assert_eq!(ack.payload, b"OK");
        }
        other => panic!("unexpected decision: {other:?}"),
    }
}

#[test]
fn handler_rejects_duplicate_relay_sequence_per_stream() {
    let cell = test_cell(8);
    let packet = RelayPacket::shard(7, 8, &cell).expect("packet");
    let mut handler = RelayPacketHandler::new(16).expect("handler");
    handler.process(packet.clone()).expect("first packet");

    assert_eq!(
        handler.process(packet),
        Err(RelayHandlerError::Replay(ReplayError::Duplicate { seq: 8 }))
    );
}

#[test]
fn handler_allows_same_sequence_on_different_streams() {
    let cell = test_cell(9);
    let packet_a = RelayPacket::shard(1, 9, &cell).expect("packet a");
    let packet_b = RelayPacket::shard(2, 9, &cell).expect("packet b");
    let mut handler = RelayPacketHandler::new(16).expect("handler");

    assert!(handler.process(packet_a).is_ok());
    assert!(handler.process(packet_b).is_ok());
}

#[test]
fn handler_forwards_valid_route_packet() {
    let secrets = vec![RouteHopSecret([1u8; 32]), RouteHopSecret([2u8; 32])];
    let commands = vec![RouteCommand::forward(10), RouteCommand::deliver_local()];
    let route = build_layered_route_packet(901, &secrets, &commands, b"route").expect("route");
    let packet = RelayPacket::route(77, 88, &route).expect("packet");
    let mut handler = RelayPacketHandler::new(16).expect("handler");
    match handler.process(packet.clone()).expect("decision") {
        RelayDecision::ForwardRoute { packet: fwd, ack } => {
            assert_eq!(fwd, packet);
            assert_eq!(ack.packet_type, RelayPacketType::Ack);
            assert_eq!(ack.stream_id, 77);
            assert_eq!(ack.sequence, 88);
        }
        other => panic!("unexpected decision: {other:?}"),
    }
}

#[test]
fn handler_rejects_duplicate_route_packet_id() {
    let secrets = vec![RouteHopSecret([3u8; 32]), RouteHopSecret([4u8; 32])];
    let commands = vec![RouteCommand::forward(10), RouteCommand::deliver_local()];
    let route = build_layered_route_packet(902, &secrets, &commands, b"route").expect("route");
    let packet_a = RelayPacket::route(77, 1, &route).expect("packet a");
    let packet_b = RelayPacket::route(77, 2, &route).expect("packet b");
    let mut handler = RelayPacketHandler::new(16).expect("handler");
    handler.process(packet_a).expect("first");
    assert_eq!(
        handler.process(packet_b),
        Err(RelayHandlerError::Route(RouteLayerError::Replay {
            packet_id: 902,
            hop_index: 0,
        }))
    );
}

#[test]
fn handler_rejects_unsupported_packet_type() {
    let packet =
        RelayPacket::new(RelayPacketType::Hello, 0, 1, 1, b"hello".to_vec()).expect("hello");
    let mut handler = RelayPacketHandler::new(16).expect("handler");
    assert_eq!(
        handler.process(packet),
        Err(RelayHandlerError::UnsupportedType(RelayPacketType::Hello))
    );
}

#[test]
fn handler_rejects_bad_window_size_and_malformed_shards() {
    assert_eq!(
        RelayPacketHandler::new(0).err(),
        Some(ReplayError::InvalidWindowSize(0))
    );
    assert_eq!(
        RelayPacketHandler::new(129).err(),
        Some(ReplayError::InvalidWindowSize(129))
    );
    let mut handler = RelayPacketHandler::default();
    let short = RelayPacket::new(RelayPacketType::Shard, 0, 5, 1, vec![0u8; 10]).expect("short");
    assert_eq!(
        handler.process(short),
        Err(RelayHandlerError::Packet(RelayPacketError::InvalidShardPayloadLength {
            got: 10,
            expected: 1200,
        }))
    );
}

#[test]
fn handler_reports_stale_sequences_and_accepts_in_window() {
    let mut handler = RelayPacketHandler::new(4).expect("handler");
    let cell = test_cell(1);
    for seq in [10u64, 8, 9] {
        let packet = RelayPacket::shard(3, seq, &cell).expect("packet");
        assert!(handler.process(packet).is_ok());
    }
    let stale = RelayPacket::shard(3, 6, &cell).expect("packet");
    assert_eq!(
        handler.process(stale),
        Err(RelayHandlerError::Replay(ReplayError::Stale { seq: 6, highest_seen: 10 }))
    );
    let error_from = RelayHandlerError::from(RelayPacketError::InvalidMagic);
    assert_eq!(error_from, RelayHandlerError::Packet(RelayPacketError::InvalidMagic));
}
