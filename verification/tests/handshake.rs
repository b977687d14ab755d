use chronos::handshake::X25519NodeSecret;
use chronos::secure_cell::SecureShardCell;

#[test]
fn x25519_peers_derive_same_link_secret() {
    let alice = X25519NodeSecret::from_bytes([0xA1; 32]);
    let bob = X25519NodeSecret::from_bytes([0xB2; 32]);

    let alice_secret = alice.diffie_hellman(bob.public());
    let bob_secret = bob.diffie_hellman(alice.public());

    assert_eq!(alice_secret, bob_secret);
    assert_ne!(alice_secret.0, [0u8; 32]);
}

#[test]
fn x25519_derived_cell_key_encrypts_between_peers() {
    let alice = X25519NodeSecret::from_bytes([0x11; 32]);
    let bob = X25519NodeSecret::from_bytes([0x22; 32]);
    let route_tag = [0x33; 16];

    let alice_key = alice.diffie_hellman(bob.public()).derive_cell_key(&route_tag).expect("alice key");
    let bob_key = bob.diffie_hellman(alice.public()).derive_cell_key(&route_tag).expect("bob key");
    assert_eq!(alice_key, bob_key);

    let cell = SecureShardCell::encrypt(&alice_key, route_tag, 1, 0, b"x25519 link cell").expect("encrypt");
    assert_eq!(cell.decrypt(&bob_key).expect("decrypt"), b"x25519 link cell");
}

#[test]
fn route_tag_context_separates_cell_keys() {
    let alice = X25519NodeSecret::from_bytes([0x44; 32]);
    let bob = X25519NodeSecret::from_bytes([0x55; 32]);
    let shared = alice.diffie_hellman(bob.public());

    let key_a = shared.derive_cell_key(&[1u8; 16]).expect("key a");
    let key_b = shared.derive_cell_key(&[2u8; 16]).expect("key b");
    assert_ne!(key_a, key_b);
}

#[test]
fn node_secret_bytes_round_trip_and_public_key_is_rfc7748() {
    // RFC 7748 section 6.1 test vector (Alice).
    let sk: [u8; 32] = [
        0x77, 0x07, 0x6d, 0x0a, 0x73, 0x18, 0xa5, 0x7d, 0x3c, 0x16, 0xc1, 0x72, 0x51, 0xb2, 0x66, 0x45,
        0xdf, 0x4c, 0x2f, 0x87, 0xeb, 0xc0, 0x99, 0x2a, 0xb1, 0x77, 0xfb, 0xa5, 0x1d, 0xb9, 0x2c, 0x2a,
    ];
    let pk: [u8; 32] = [
        0x85, 0x20, 0xf0, 0x09, 0x89, 0x30, 0xa7, 0x54, 0x74, 0x8b, 0x7d, 0xdc, 0xb4, 0x3e, 0xf7, 0x5a,
        0x0d, 0xbf, 0x3a, 0x0d, 0x26, 0x38, 0x1a, 0xf4, 0xeb, 0xa4, 0xa9, 0x8e, 0xaa, 0x9b, 0x4e, 0x6a,
    ];
    let s = X25519NodeSecret::from_bytes(sk);
    assert_eq!(s.to_bytes(), sk);
    assert_eq!(s.public().0, pk);
}
