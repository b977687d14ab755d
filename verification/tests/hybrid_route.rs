use chronos::handshake::X25519NodeSecret;
use chronos::hybrid_route::{encapsulate_route_secret, HybridRouteError, MlKem768RouteKeypair};
use chronos::route_layer::{build_layered_route_packet, peel_route_layer, RouteCommand};

#[test]
fn hybrid_mlkem_x25519_route_secret_matches_on_both_sides() {
    let receiver_mlkem = MlKem768RouteKeypair::generate();
    let sender_x = X25519NodeSecret::from_bytes([0x51; 32]);
    let receiver_x = X25519NodeSecret::from_bytes([0x52; 32]);
    let context = b"route-hop-0/session-123";

    let init = encapsulate_route_secret(&receiver_mlkem.encapsulation_key, &sender_x, receiver_x.public(), context)
        .expect("encapsulate");
    let recv = receiver_mlkem
        .decapsulate_route_secret(&init.ml_kem_ciphertext, init.sender_x25519_public, &receiver_x, context)
        .expect("decapsulate");

    assert_eq!(init.route_secret, recv);
}

#[test]
fn hybrid_route_secret_can_drive_route_layer() {
    let receiver_mlkem = MlKem768RouteKeypair::generate();
    let sender_x = X25519NodeSecret::from_bytes([0x61; 32]);
    let receiver_x = X25519NodeSecret::from_bytes([0x62; 32]);
    let context = b"single-hop-route";
    let init = encapsulate_route_secret(&receiver_mlkem.encapsulation_key, &sender_x, receiver_x.public(), context)
        .expect("encapsulate");
    let recv_secret = receiver_mlkem
        .decapsulate_route_secret(&init.ml_kem_ciphertext, init.sender_x25519_public, &receiver_x, context)
        .expect("decapsulate");

    let command = [RouteCommand { next_stream_id: 7, flags: 1 }];
    let packet = build_layered_route_packet(777, &[init.route_secret], &command, b"hybrid payload")
        .expect("route packet");
    let peeled = peel_route_layer(&packet, 0, &recv_secret).expect("peel");
    assert_eq!(peeled.payload.expect("payload"), b"hybrid payload");
}

#[test]
fn hybrid_route_context_domain_separates_secrets() {
    let receiver_mlkem = MlKem768RouteKeypair::generate();
    let sender_x = X25519NodeSecret::from_bytes([0x71; 32]);
    let receiver_x = X25519NodeSecret::from_bytes([0x72; 32]);

    let a = encapsulate_route_secret(&receiver_mlkem.encapsulation_key, &sender_x, receiver_x.public(), b"context-a")
        .expect("a");
    let b = receiver_mlkem
        .decapsulate_route_secret(&a.ml_kem_ciphertext, a.sender_x25519_public, &receiver_x, b"context-b")
        .expect("b");

    assert_ne!(a.route_secret, b);
}

#[test]
fn seed_round_trips_and_determines_the_encapsulation_key() {
    let kp = MlKem768RouteKeypair::generate();
    let again = MlKem768RouteKeypair::from_seed_bytes(kp.to_seed_bytes());
    assert_eq!(again.to_seed_bytes(), kp.to_seed_bytes());
    assert_eq!(again.encapsulation_key, kp.encapsulation_key);
    let other = MlKem768RouteKeypair::from_seed_bytes([9u8; 64]);
    assert_ne!(other.encapsulation_key, kp.encapsulation_key);
}

#[test]
fn malformed_encapsulation_key_is_refused() {
    let sender_x = X25519NodeSecret::from_bytes([0x71; 32]);
    let receiver_x = X25519NodeSecret::from_bytes([0x72; 32]);
    let r = encapsulate_route_secret(&[0xFF; 1184], &sender_x, receiver_x.public(), b"ctx");
    assert!(matches!(r, Err(HybridRouteError::InvalidEncapsulationKey)));
}
