use chronos::route_layer::{
    build_layered_route_packet, peel_route_layer, LayeredRoutePacket, RouteCommand,
    RouteCommandKind, RouteHopSecret, RouteLayerError, RouteLayerProcessor, RouteReplayCache,
    SingleUseReplyBlock,
};
use std::time::Duration;

fn secrets() -> Vec<RouteHopSecret> {
    vec![
        RouteHopSecret([1u8; 32]),
        RouteHopSecret([2u8; 32]),
        RouteHopSecret([3u8; 32]),
    ]
}

fn commands() -> Vec<RouteCommand> {
    vec![
        RouteCommand::forward(10),
        RouteCommand::forward(20),
        RouteCommand::deliver_local(),
    ]
}

#[test]
fn layered_route_peels_in_order_to_payload_with_blinded_packet_ids() {
    let packet = build_layered_route_packet(99, &secrets(), &commands(), b"terminal payload")
        .expect("build");
    let first = peel_route_layer(&packet, 0, &secrets()[0]).expect("hop 0");
    assert_eq!(first.command.next_stream_id, 10);
    assert!(first.payload.is_none());

    let second_packet = first.next_packet.expect("next packet");
    assert_ne!(second_packet.packet_id, packet.packet_id);
    let second = peel_route_layer(&second_packet, 1, &secrets()[1]).expect("hop 1");
    assert_eq!(second.command.next_stream_id, 20);

    let third_packet = second.next_packet.expect("next packet");
    assert_ne!(third_packet.packet_id, second_packet.packet_id);
    let third = peel_route_layer(&third_packet, 2, &secrets()[2]).expect("hop 2");
    assert_eq!(third.command.kind(), RouteCommandKind::DeliverLocal);
    assert_eq!(third.payload.expect("payload"), b"terminal payload");
}

#[test]
fn route_packet_serializes_for_relay_payloads() {
    let packet =
        build_layered_route_packet(199, &secrets(), &commands(), b"payload").expect("build");
    let encoded = packet.encode().expect("encode");
    let decoded = LayeredRoutePacket::decode(&encoded).expect("decode");
    assert_eq!(decoded, packet);
}

#[test]
fn route_processor_rejects_replay() {
    let packet =
        build_layered_route_packet(299, &secrets(), &commands(), b"payload").expect("build");
    let mut processor = RouteLayerProcessor::new();
    processor
        .peel_once(&packet, 0, &secrets()[0])
        .expect("first peel");
    assert_eq!(
        processor.peel_once(&packet, 0, &secrets()[0]),
        Err(RouteLayerError::Replay {
            packet_id: packet.packet_id,
            hop_index: packet.hop_index,
        })
    );
}

#[test]
fn route_replay_cache_expires_entries() {
    let packet =
        build_layered_route_packet(300, &secrets(), &commands(), b"payload").expect("build");
    let mut cache = RouteReplayCache::with_limits(16, Duration::from_secs(0));
    cache.observe(&packet).expect("first observe");
    assert_eq!(cache.len(), 1);
    cache
        .observe(&packet)
        .expect("expired replay is accepted again");
    assert_eq!(cache.len(), 1);
}

#[test]
fn route_replay_cache_evicts_oldest_when_bounded() {
    let mut cache = RouteReplayCache::with_limits(2, Duration::from_secs(3600));
    let p1 = build_layered_route_packet(301, &secrets(), &commands(), b"one").expect("p1");
    let p2 = build_layered_route_packet(302, &secrets(), &commands(), b"two").expect("p2");
    let p3 = build_layered_route_packet(303, &secrets(), &commands(), b"three").expect("p3");
    cache.observe(&p1).expect("p1");
    cache.observe(&p2).expect("p2");
    cache.observe(&p3).expect("p3 evicts p1");
    assert_eq!(cache.len(), 2);
    cache
        .observe(&p1)
        .expect("p1 was evicted and is accepted again");
}

#[test]
fn single_use_reply_block_seals_once() {
    let mut surb = SingleUseReplyBlock::new(399, secrets(), commands());
    let packet = surb.seal_reply(b"reply payload").expect("first use");
    let first = peel_route_layer(&packet, 0, &secrets()[0]).expect("hop 0");
    assert!(first.next_packet.is_some());
    assert_eq!(
        surb.seal_reply(b"second"),
        Err(RouteLayerError::ReplyBlockAlreadyUsed)
    );
}

#[test]
fn route_command_drop_is_enforced() {
    let cmds = vec![RouteCommand::drop()];
    let secs = vec![RouteHopSecret([9u8; 32])];
    let packet = build_layered_route_packet(499, &secs, &cmds, b"drop me").expect("build");
    assert_eq!(
        peel_route_layer(&packet, 0, &secs[0]),
        Err(RouteLayerError::DropCommand)
    );
}

#[test]
fn layered_route_rejects_tampering() {
    let mut packet =
        build_layered_route_packet(100, &secrets(), &commands(), b"payload").expect("build");
    let last = packet.body.len() - 1;
    packet.body[last] ^= 0x80;
    assert_eq!(
        peel_route_layer(&packet, 0, &secrets()[0]),
        Err(RouteLayerError::AuthenticationFailed)
    );
}

#[test]
fn layered_route_rejects_wrong_hop_secret() {
    let packet =
        build_layered_route_packet(101, &secrets(), &commands(), b"payload").expect("build");
    assert_eq!(
        peel_route_layer(&packet, 0, &secrets()[1]),
        Err(RouteLayerError::AuthenticationFailed)
    );
}

#[test]
fn layered_route_rejects_out_of_order_peel() {
    let packet =
        build_layered_route_packet(102, &secrets(), &commands(), b"payload").expect("build");
    assert_eq!(
        peel_route_layer(&packet, 1, &secrets()[0]),
        Err(RouteLayerError::HopIndexMismatch {
            expected: 1,
            got: 0,
        })
    );
}

#[test]
fn route_build_rejects_bad_shapes_and_oversized_onions() {
    assert_eq!(
        build_layered_route_packet(1, &[], &[], b"x"),
        Err(RouteLayerError::EmptyRoute)
    );
    assert_eq!(
        build_layered_route_packet(1, &secrets(), &commands()[..2], b"x"),
        Err(RouteLayerError::TooManyHops { got: 2, max: 3 })
    );
    assert_eq!(
        build_layered_route_packet(1, &secrets(), &commands(), &[0u8; 2049]),
        Err(RouteLayerError::BodyTooLarge { got: 2049, max: 2048 })
    );
    // 3 hops: the outermost layer wraps payload + 2 * 66 bytes.
    assert_eq!(
        build_layered_route_packet(1, &secrets(), &commands(), &[0u8; 2000]),
        Err(RouteLayerError::BodyTooLarge { got: 2066, max: 2048 })
    );
    let ok = build_layered_route_packet(7, &secrets(), &commands(), &[5u8; 100]).expect("fits");
    assert_eq!(ok.body.len(), 100 + 3 * 66);
    assert_eq!(ok.hop_index, 0);
    assert_eq!(ok.packet_id, 7);
}

#[test]
fn route_packet_decode_reports_each_header_error() {
    assert_eq!(
        LayeredRoutePacket::decode(&[0u8; 3]),
        Err(RouteLayerError::InvalidLength { declared: 16, available: 3 })
    );
    let packet = LayeredRoutePacket { packet_id: 5, hop_index: 2, body: vec![1, 2, 3] };
    let mut encoded = packet.encode().expect("encode");
    assert_eq!(encoded.len(), 19);
    assert_eq!(&encoded[..4], b"RTP7");
    assert_eq!(LayeredRoutePacket::decode(&encoded), Ok(packet));
    encoded[4] = 9;
    assert_eq!(
        LayeredRoutePacket::decode(&encoded),
        Err(RouteLayerError::UnsupportedVersion(9))
    );
    encoded[4] = 1;
    encoded.push(0);
    assert_eq!(
        LayeredRoutePacket::decode(&encoded),
        Err(RouteLayerError::InvalidLength { declared: 3, available: 4 })
    );
    encoded[0] = b'X';
    assert_eq!(LayeredRoutePacket::decode(&encoded), Err(RouteLayerError::InvalidMagic));
    let big = LayeredRoutePacket { packet_id: 0, hop_index: 0, body: vec![0u8; 2049] };
    assert_eq!(big.encode(), Err(RouteLayerError::BodyTooLarge { got: 2049, max: 2048 }));
}

#[test]
fn route_command_kinds_follow_low_flag_bits() {
    assert_eq!(RouteCommand::forward(3).kind(), RouteCommandKind::Forward);
    assert_eq!(RouteCommand::deliver_local().kind(), RouteCommandKind::DeliverLocal);
    assert_eq!(RouteCommand::drop().kind(), RouteCommandKind::Drop);
    assert_eq!(RouteCommand::reply(4).kind(), RouteCommandKind::Reply);
    let c = RouteCommand { next_stream_id: 0, flags: 0xFD };
    assert_eq!(c.kind(), RouteCommandKind::DeliverLocal);
}

#[test]
fn reply_command_delivers_payload_to_reply_stream() {
    let secs = vec![RouteHopSecret([4u8; 32])];
    let packet =
        build_layered_route_packet(5, &secs, &[RouteCommand::reply(77)], b"answer").expect("build");
    let peeled = peel_route_layer(&packet, 0, &secs[0]).expect("peel");
    assert_eq!(peeled.command.next_stream_id, 77);
    assert_eq!(peeled.payload.expect("payload"), b"answer");
    assert!(peeled.next_packet.is_none());
}

#[test]
fn replay_cache_zero_capacity_keeps_one_entry() {
    let mut cache = RouteReplayCache::with_limits(0, Duration::from_secs(60));
    assert!(cache.is_empty());
    let p1 = LayeredRoutePacket { packet_id: 1, hop_index: 0, body: vec![] };
    let p2 = LayeredRoutePacket { packet_id: 2, hop_index: 0, body: vec![] };
    cache.observe(&p1).expect("p1");
    cache.observe(&p2).expect("p2");
    assert_eq!(cache.len(), 1);
    assert_eq!(
        cache.observe(&p2),
        Err(RouteLayerError::Replay { packet_id: 2, hop_index: 0 })
    );
    cache.observe(&p1).expect("p1 forgotten");
}
