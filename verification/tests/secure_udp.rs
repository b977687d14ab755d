use chronos::framing::APP_CELL_PAYLOAD_SIZE;
use chronos::relay_handler::{RelayDecision, RelayPacketHandler};
use chronos::relay_packet::{RelayPacket, RelayPacketError, RELAY_PACKET_MAX_BYTES};
use chronos::secure_cell::{derive_link_key, SecureShardCell};
use chronos::secure_udp::{
    parse_secure_app_datagram, parse_secure_relay_datagram, process_secure_relay_datagram,
    SecureRelayUdpError, SecureUdpError,
};

fn cell() -> SecureShardCell {
    let key = derive_link_key(&[0x5Au8; 32], &[0xA5u8; 16]).expect("key");
    SecureShardCell::encrypt(&key, [0xA5; 16], 3, 0, b"udp cell").expect("cell")
}

#[test]
fn parse_rejects_wrong_length_datagrams() {
    assert_eq!(
        parse_secure_app_datagram(&[0u8; 16]),
        Err(SecureUdpError::InvalidLength { got: 16, expected: APP_CELL_PAYLOAD_SIZE })
    );
}

#[test]
fn parse_rejects_oversized_relay_datagrams() {
    let oversized = vec![0u8; RELAY_PACKET_MAX_BYTES + 1];
    assert_eq!(
        parse_secure_relay_datagram(&oversized),
        Err(SecureRelayUdpError::InvalidLength {
            got: RELAY_PACKET_MAX_BYTES + 1,
            max: RELAY_PACKET_MAX_BYTES,
        })
    );
}

#[test]
fn app_datagram_round_trips_a_cell() {
    let c = cell();
    let bytes = c.to_app_cell_bytes();
    assert_eq!(parse_secure_app_datagram(&bytes).expect("parse"), c);
}

#[test]
fn relay_datagram_with_cell_is_forwarded() {
    let packet = RelayPacket::shard(9, 3, &cell()).expect("packet");
    let bytes = packet.encode().expect("encode");
    assert_eq!(parse_secure_relay_datagram(&bytes).expect("parse"), packet);
    let mut handler = RelayPacketHandler::new(8).expect("handler");
    match process_secure_relay_datagram(&mut handler, &bytes).expect("decision") {
        RelayDecision::ForwardShard { packet: fwd, .. } => assert_eq!(fwd, packet),
        other => panic!("unexpected decision: {other:?}"),
    }
}

#[test]
fn relay_datagram_of_other_type_is_refused() {
    let ack = RelayPacket::ack(1, 2).expect("ack");
    let bytes = ack.encode().expect("encode");
    assert!(matches!(
        parse_secure_relay_datagram(&bytes),
        Err(SecureRelayUdpError::InvalidPacket(RelayPacketError::UnknownType(_)))
    ));
}
