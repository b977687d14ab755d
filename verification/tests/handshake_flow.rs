use chronos::crypto::IdentitySigningKey;
use chronos::handshake::X25519NodeSecret;
use chronos::handshake_protocol::{
    client_begin_handshake, client_key_share, client_verify_server_confirm, server_accept_handshake, HandshakeError,
    HandshakePacket, HandshakePacketType, HandshakePublicKeys,
};
use chronos::hybrid_route::{complete_route_encapsulation, MlKem768RouteKeypair};
use chronos::key_store::{classify_key_set, KeySetPresence, NodeKeyMaterial};

fn server_keys() -> NodeKeyMaterial {
    NodeKeyMaterial {
        x25519: X25519NodeSecret::from_bytes([0xA7; 32]),
        ml_kem_768: MlKem768RouteKeypair::from_seed_bytes([0xB8; 64]),
        identity_signing: IdentitySigningKey::from_bytes(&[0xC7; 32]),
    }
}

fn client_x() -> X25519NodeSecret {
    X25519NodeSecret::from_bytes([0xC9; 32])
}

#[test]
fn handshake_establishes_same_route_secret_and_confirms() {
    let server_keys = server_keys();
    let server_hello = HandshakePublicKeys::from_node_keys(&server_keys).to_server_hello_packet().expect("hello");
    let (client_share, client_state) = client_begin_handshake(&server_hello, &client_x()).expect("client begin");
    let (confirm, server_state) =
        server_accept_handshake(&server_hello, &client_share, &server_keys).expect("server");

    assert_eq!(client_state.route_secret, server_state.route_secret);
    client_verify_server_confirm(&client_state, &confirm).expect("confirm");
}

#[test]
fn handshake_rejects_downgraded_suite_in_confirm() {
    let server_keys = server_keys();
    let mut server_hello = HandshakePublicKeys::from_node_keys(&server_keys).to_server_hello_packet().expect("hello");
    let (client_share, client_state) = client_begin_handshake(&server_hello, &client_x()).expect("client begin");
    server_hello.suite = 99;
    assert!(matches!(
        server_accept_handshake(&server_hello, &client_share, &server_keys),
        Err(HandshakeError::UnsupportedSuite(99))
    ));
    let bad_confirm = HandshakePacket::new(HandshakePacketType::ServerKeyConfirm, vec![0u8; 32]).expect("bad confirm");
    assert_eq!(client_verify_server_confirm(&client_state, &bad_confirm), Err(HandshakeError::KeyConfirmationFailed));
}

#[test]
fn security_handshake_rejects_unsigned_server_hello() {
    let server_keys = server_keys();
    let unsigned = HandshakePublicKeys::unsigned_for_tests(
        server_keys.x25519.public(),
        server_keys.ml_kem_768.encapsulation_key.clone(),
    )
    .to_server_hello_packet()
    .expect("unsigned hello");

    assert!(
        client_begin_handshake(&unsigned, &client_x()).is_err(),
        "CHS7 accepted an unsigned ServerHello; ephemeral server shares must be identity-authenticated"
    );
}

#[test]
fn handshake_rejects_unexpected_identity() {
    let server_keys = server_keys();
    let hello = HandshakePublicKeys::from_node_keys(&server_keys).to_server_hello_packet().expect("hello");
    assert!(matches!(
        HandshakePublicKeys::from_server_hello_packet_for_identity(&hello, &[0xEE; 32]),
        Err(HandshakeError::IdentityMismatch)
    ));
}

#[test]
fn handshake_rejects_trailing_garbage_in_key_packets() {
    let server_keys = server_keys();
    let mut server_hello = HandshakePublicKeys::from_node_keys(&server_keys).to_server_hello_packet().expect("hello");
    server_hello.payload.push(0);
    assert!(matches!(
        HandshakePublicKeys::from_server_hello_packet(&server_hello),
        Err(HandshakeError::InvalidLength { .. })
    ));
}

#[test]
fn handshake_rejects_wrong_confirm_packet_type() {
    let server_keys = server_keys();
    let server_hello = HandshakePublicKeys::from_node_keys(&server_keys).to_server_hello_packet().expect("hello");
    let (_, client_state) = client_begin_handshake(&server_hello, &client_x()).expect("client begin");
    let wrong = HandshakePacket::new(HandshakePacketType::Error, b"no".to_vec()).expect("wrong");
    assert_eq!(
        client_verify_server_confirm(&client_state, &wrong),
        Err(HandshakeError::WrongPacketType {
            expected: HandshakePacketType::ServerKeyConfirm,
            got: HandshakePacketType::Error,
        })
    );
}

#[test]
fn server_hello_carries_the_identity_key_and_is_accepted_for_it() {
    let server_keys = server_keys();
    let keys = HandshakePublicKeys::from_node_keys(&server_keys);
    let identity = ed25519_dalek::SigningKey::from_bytes(&[0xC7; 32]).verifying_key().to_bytes();
    assert_eq!(keys.identity_public, identity);
    let hello = keys.to_server_hello_packet().expect("hello");
    assert_eq!(hello.payload.len(), 32 + 1184 + 32 + 64);
    let parsed = HandshakePublicKeys::from_server_hello_packet_for_identity(&hello, &identity).expect("parsed");
    assert_eq!(parsed.ml_kem_public, server_keys.ml_kem_768.encapsulation_key);
    // a flipped signature bit is refused
    let mut tampered = hello.clone();
    let last = tampered.payload.len() - 1;
    tampered.payload[last] ^= 1;
    assert_eq!(
        HandshakePublicKeys::from_server_hello_packet(&tampered).err(),
        Some(HandshakeError::InvalidSignature)
    );
}

#[test]
fn server_rejects_short_client_share() {
    let server_keys = server_keys();
    let hello = HandshakePublicKeys::from_node_keys(&server_keys).to_server_hello_packet().expect("hello");
    let share = HandshakePacket::new(HandshakePacketType::ClientKeyShare, vec![0u8; 10]).expect("share");
    assert_eq!(
        server_accept_handshake(&hello, &share, &server_keys).err(),
        Some(HandshakeError::InvalidLength { declared: 1120, available: 10 })
    );
}

#[test]
fn key_set_presence_is_classified() {
    assert_eq!(classify_key_set([false, false, false]), KeySetPresence::Absent);
    assert_eq!(classify_key_set([true, true, true]), KeySetPresence::Complete);
    assert_eq!(classify_key_set([true, false, true]), KeySetPresence::Partial);
    let keys = NodeKeyMaterial::generate().expect("keys");
    let again = MlKem768RouteKeypair::from_seed_bytes(keys.ml_kem_768.to_seed_bytes());
    assert_eq!(again.encapsulation_key, keys.ml_kem_768.encapsulation_key);
}

#[test]
fn key_material_is_made_from_and_gives_back_its_secrets() {
    let keys = NodeKeyMaterial::from_secret_bytes([0xA7; 32], [0xB8; 64], [0xC7; 32]);
    let (x, seed, identity) = keys.secret_bytes();
    assert_eq!(x, [0xA7; 32]);
    assert_eq!(seed, [0xB8; 64]);
    assert_eq!(identity, [0xC7; 32]);
    assert_eq!(
        keys.ml_kem_768.encapsulation_key,
        MlKem768RouteKeypair::from_seed_bytes([0xB8; 64]).encapsulation_key
    );
    assert_eq!(
        keys.identity_signing.verifying_key_bytes(),
        ed25519_dalek::SigningKey::from_bytes(&[0xC7; 32]).verifying_key().to_bytes()
    );
    let generated = NodeKeyMaterial::generate().expect("keys");
    let (gx, gseed, gid) = generated.secret_bytes();
    let rebuilt = NodeKeyMaterial::from_secret_bytes(gx, gseed, gid);
    assert_eq!(rebuilt.ml_kem_768.encapsulation_key, generated.ml_kem_768.encapsulation_key);
    assert_eq!(rebuilt.x25519.public(), generated.x25519.public());
    assert_eq!(
        rebuilt.identity_signing.verifying_key_bytes(),
        generated.identity_signing.verifying_key_bytes()
    );
}

#[test]
fn client_key_share_carries_the_encapsulation() {
    let encapsulation = complete_route_encapsulation(
        [0x3C; 1088],
        [0x5A; 32],
        &client_x(),
        X25519NodeSecret::from_bytes([0xA7; 32]).public(),
        b"hello-bytes",
    )
    .expect("complete");
    assert_eq!(encapsulation.ml_kem_ciphertext, [0x3C; 1088]);
    let sender_public = encapsulation.sender_x25519_public.0;
    let route_secret = encapsulation.route_secret.clone();
    let (share, state) = client_key_share(b"hello-bytes", encapsulation).expect("share");
    assert_eq!(share.packet_type, HandshakePacketType::ClientKeyShare);
    assert_eq!(&share.payload[..32], &sender_public[..]);
    assert_eq!(&share.payload[32..], &[0x3C; 1088][..]);
    assert_eq!(state.route_secret, route_secret);
}
