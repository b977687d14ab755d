use chronos::handshake_protocol::{HandshakeError, HandshakePacket, HandshakePacketType};
use chronos::pow_admission::PowChallenge;

#[test]
fn handshake_packet_round_trips_and_rejects_bad_magic() {
    let packet = HandshakePacket::new(HandshakePacketType::Error, b"ERR".to_vec()).expect("p");
    let encoded = packet.encode().expect("enc");
    assert_eq!(HandshakePacket::decode(&encoded).expect("dec"), packet);
    let mut bad = encoded;
    bad[0] = b'X';
    assert_eq!(HandshakePacket::decode(&bad), Err(HandshakeError::InvalidMagic));
}

#[test]
fn handshake_pow_challenge_round_trips() {
    let challenge = PowChallenge {
        relay_id: [0xA5; 16],
        unix_window: 12345,
        difficulty_zero_bits: 8,
        token: [0x5A; 32],
    };
    let packet = HandshakePacket::pow_challenge(&challenge).expect("challenge packet");
    let decoded = HandshakePacket::decode(&packet.encode().expect("encode"))
        .expect("decode")
        .decode_pow_challenge()
        .expect("decode challenge");
    assert_eq!(decoded, challenge);
    let solution = HandshakePacket::pow_solution(vec![1, 2, 3]).expect("solution");
    assert_eq!(solution.packet_type, HandshakePacketType::PowSolution);
}

#[test]
fn handshake_packet_wire_format() {
    let packet = HandshakePacket::new(HandshakePacketType::ClientKeyShare, vec![9, 8]).unwrap();
    assert_eq!(packet.encode().unwrap(), vec![b'C', b'H', b'S', b'7', 1, 2, 1, 0, 0, 2, 9, 8]);
}

#[test]
fn handshake_decode_reports_each_check() {
    assert_eq!(
        HandshakePacket::decode(&[0u8; 9]),
        Err(HandshakeError::InvalidLength { declared: 10, available: 9 })
    );
    let good = HandshakePacket::new(HandshakePacketType::Error, vec![1]).unwrap().encode().unwrap();
    let mut v = good.clone();
    v[4] = 2;
    assert_eq!(HandshakePacket::decode(&v), Err(HandshakeError::UnsupportedVersion(2)));
    let mut t = good.clone();
    t[5] = 7;
    assert_eq!(HandshakePacket::decode(&t), Err(HandshakeError::UnknownPacketType(7)));
    let mut s = good.clone();
    s[6] = 99;
    assert_eq!(HandshakePacket::decode(&s), Err(HandshakeError::UnsupportedSuite(99)));
    let mut r = good.clone();
    r[7] = 3;
    assert_eq!(
        HandshakePacket::decode(&r),
        Err(HandshakeError::InvalidLength { declared: 0, available: 3 })
    );
    let mut long = good.clone();
    long.push(0);
    assert_eq!(
        HandshakePacket::decode(&long),
        Err(HandshakeError::InvalidLength { declared: 1, available: 2 })
    );
}

#[test]
fn handshake_rejects_oversized_payload_and_wrong_challenge_type() {
    assert_eq!(
        HandshakePacket::new(HandshakePacketType::Error, vec![0u8; 65536]),
        Err(HandshakeError::PayloadTooLarge { got: 65536, max: 65535 })
    );
    let p = HandshakePacket::new(HandshakePacketType::Error, vec![0u8; 60]).unwrap();
    assert_eq!(
        p.decode_pow_challenge(),
        Err(HandshakeError::WrongPacketType {
            expected: HandshakePacketType::PowChallenge,
            got: HandshakePacketType::Error
        })
    );
    let short = HandshakePacket::new(HandshakePacketType::PowChallenge, vec![0u8; 59]).unwrap();
    assert_eq!(
        short.decode_pow_challenge(),
        Err(HandshakeError::InvalidLength { declared: 60, available: 59 })
    );
}
