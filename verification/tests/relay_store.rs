use ed25519_dalek::Signer;
use chronos::directory::{DirectoryStoreError, RelayRecordError, SignedRecordError};
use chronos::relay_store::{
    record_message, sign_record, verify_record_at, DirectoryStore, RelayRecord, SignedRelayRecord,
};
use chronos::crypto::IdentitySigningKey;

const NOW: u64 = 1_700_000_000;
const MAX_LIFETIME: u64 = 300;

fn record(expiry: u64) -> RelayRecord {
    RelayRecord {
        node_id: "n1".into(),
        address: "127.0.0.1:7".parse().expect("address"),
        x25519_public: [1; 32],
        ml_kem_public_hash: [2; 32],
        expires_at_unix: expiry,
    }
}

fn signed_record(expiry: u64) -> SignedRelayRecord {
    let signing = IdentitySigningKey::from_bytes(&[7u8; 32]);
    sign_record(
        RelayRecord {
            node_id: "n1".into(),
            address: "127.0.0.1:1".parse().expect("address"),
            x25519_public: [0x11; 32],
            ml_kem_public_hash: [0x22; 32],
            expires_at_unix: expiry,
        },
        "n1",
        &signing,
    )
}

#[test]
fn signed_record_verifies_and_detects_tampering() {
    let signing = IdentitySigningKey::from_bytes(&[7u8; 32]);
    let mut signed = sign_record(record(20), "n1", &signing);
    assert!(verify_record_at(&signed, 10, 30).is_ok());
    signed.record.expires_at_unix = 21;
    assert_eq!(verify_record_at(&signed, 10, 30), Err(SignedRecordError::InvalidSignature));
}

#[test]
fn signed_record_requires_matching_relay_identity_and_freshness() {
    let signing = IdentitySigningKey::from_bytes(&[8u8; 32]);
    let mut signed = sign_record(record(10), "n1", &signing);
    signed.signer_id = "other".into();
    assert_eq!(verify_record_at(&signed, 1, 30), Err(SignedRecordError::SignerDoesNotMatchNodeId));
    let expired = sign_record(record(10), "n1", &signing);
    assert!(matches!(
        verify_record_at(&expired, 10, 30),
        Err(SignedRecordError::Record(RelayRecordError::Expired { .. }))
    ));
}

#[test]
fn expired_zero_material_and_signer_mismatch_are_rejected_at_ingestion() {
    let mut store = DirectoryStore::new();
    assert!(matches!(
        store.upsert_signed(signed_record(NOW), NOW, MAX_LIFETIME),
        Err(SignedRecordError::Record(RelayRecordError::Expired { .. }))
    ));

    let signing = IdentitySigningKey::from_bytes(&[9u8; 32]);
    let mut zero = signed_record(NOW + 1);
    zero.record.x25519_public = [0; 32];
    let zero = sign_record(zero.record, "n1", &signing);
    assert!(matches!(
        store.upsert_signed(zero, NOW, MAX_LIFETIME),
        Err(SignedRecordError::Record(RelayRecordError::ZeroX25519PublicKey))
    ));

    let mut mismatch = signed_record(NOW + 1);
    mismatch.signer_id = "other".to_string();
    assert_eq!(store.upsert_signed(mismatch, NOW, MAX_LIFETIME), Err(SignedRecordError::SignerDoesNotMatchNodeId));
}

#[test]
fn record_message_is_length_prefixed() {
    let msg = record_message(&record(5), "n1");
    let mut expected = b"chronos-dir-record-v3".to_vec();
    for field in [&b"n1"[..], b"n1", b"127.0.0.1:7", &[1u8; 32], &[2u8; 32]] {
        expected.extend_from_slice(&(field.len() as u32).to_be_bytes());
        expected.extend_from_slice(field);
    }
    expected.extend_from_slice(&5u64.to_be_bytes());
    assert_eq!(msg, expected);
}

#[test]
fn material_and_freshness_checks() {
    let mut r = record(100);
    assert_eq!(r.validate_public_material(), Ok(()));
    r.ml_kem_public_hash = [0; 32];
    assert_eq!(r.validate_public_material(), Err(RelayRecordError::ZeroMlKemPublicKeyHash));
    r.node_id = String::new();
    assert_eq!(r.validate_public_material(), Err(RelayRecordError::EmptyNodeId));
    let r = record(100);
    assert_eq!(r.validate_freshness(100, 5), Err(RelayRecordError::Expired { expires_at_unix: 100, now_unix: 100 }));
    assert_eq!(
        r.validate_freshness(50, 10),
        Err(RelayRecordError::ExcessiveLifetime { expires_at_unix: 100, max_expires_at_unix: 60 })
    );
    assert_eq!(r.validate_freshness(u64::MAX - 1, u64::MAX).is_err(), true);
    assert_eq!(r.validate_freshness(99, u64::MAX), Ok(()));
}

#[test]
fn store_lookup_prune_and_counts() {
    let mut store = DirectoryStore::default();
    assert!(store.is_empty());
    store.upsert_signed(signed_record(NOW + 60), NOW, MAX_LIFETIME).expect("upsert");
    assert_eq!(store.len(), 1);
    assert_eq!(store.get("n1", NOW).expect("found").expires_at_unix, NOW + 60);
    assert_eq!(store.get_signed("n1", NOW).expect("signed").signer_id, "n1");
    assert!(store.get("n1", NOW + 60).is_none());
    assert!(store.get("n2", NOW).is_none());
    // a newer descriptor replaces the older one
    store.upsert_signed(signed_record(NOW + 120), NOW, MAX_LIFETIME).expect("upsert again");
    assert_eq!(store.len(), 1);
    assert_eq!(store.get("n1", NOW).expect("found").expires_at_unix, NOW + 120);
    store.prune_expired(NOW + 200);
    assert!(store.is_empty());
}

#[test]
fn signed_record_round_trip_persists_and_reverifies() {
    let mut store = DirectoryStore::new();
    store.upsert_signed(signed_record(NOW + 60), NOW, MAX_LIFETIME).expect("upsert signed");
    let bytes = store.to_file_bytes().expect("save");
    assert_eq!(&bytes[..8], b"CHDIR002");
    let loaded = DirectoryStore::from_file_bytes(&bytes, NOW, MAX_LIFETIME).expect("load");
    let signed = loaded.get_signed("n1", NOW).expect("signed record");
    assert_eq!(signed.record.x25519_public, [0x11; 32]);
    assert_eq!(signed.signer_id, "n1");
}

#[test]
fn tampered_signature_and_field_in_database_are_rejected() {
    let mut store = DirectoryStore::new();
    store.upsert_signed(signed_record(NOW + 60), NOW, MAX_LIFETIME).expect("upsert signed");
    let bytes = store.to_file_bytes().expect("save");
    let mut sig = bytes.clone();
    *sig.last_mut().expect("signature byte") ^= 1;
    assert!(matches!(
        DirectoryStore::from_file_bytes(&sig, NOW, MAX_LIFETIME),
        Err(DirectoryStoreError::SignedRecord(SignedRecordError::InvalidSignature))
    ));
    let mut field = bytes.clone();
    let at = field.windows(32).position(|w| w == [0x11; 32]).expect("x25519 field");
    field[at] ^= 1;
    assert!(matches!(
        DirectoryStore::from_file_bytes(&field, NOW, MAX_LIFETIME),
        Err(DirectoryStoreError::SignedRecord(SignedRecordError::InvalidSignature))
    ));
    let mut trailing = bytes.clone();
    trailing.push(0);
    assert_eq!(DirectoryStore::from_file_bytes(&trailing, NOW, MAX_LIFETIME).err(), Some(DirectoryStoreError::TrailingData));
    let truncated = &bytes[..bytes.len() - 1];
    assert_eq!(
        DirectoryStore::from_file_bytes(truncated, NOW, MAX_LIFETIME).err(),
        Some(DirectoryStoreError::Io("failed to fill whole buffer".to_string()))
    );
}

#[test]
fn legacy_and_foreign_formats_are_not_trusted() {
    assert_eq!(
        DirectoryStore::from_file_bytes(b"CHDIR001", NOW, MAX_LIFETIME).err(),
        Some(DirectoryStoreError::LegacyStrippedFormatRejected)
    );
    assert_eq!(
        DirectoryStore::from_file_bytes(b"CHDIR999\0\0\0\0", NOW, MAX_LIFETIME).err(),
        Some(DirectoryStoreError::InvalidMagic)
    );
    let empty = DirectoryStore::from_file_bytes(b"CHDIR002\0\0\0\0", NOW, MAX_LIFETIME).expect("empty store");
    assert!(empty.is_empty());
}

#[test]
fn signed_record_carries_the_signers_key_and_signature() {
    let dalek = ed25519_dalek::SigningKey::from_bytes(&[7u8; 32]);
    let signed = signed_record(NOW + 60);
    assert_eq!(signed.verifying_key, dalek.verifying_key().to_bytes());
    let message = record_message(&signed.record, "n1");
    assert_eq!(signed.signature, dalek.sign(&message).to_bytes());
}
