use chronos::directory::{DirectoryApiConfig, DirectoryApiError, DirectoryStoreError};
use chronos::directory_api::{command_address_token, execute_directory_command, parse_directory_command, DirectoryCommand};
use chronos::relay_store::{sign_record, DirectoryStore, RelayRecord, SignedRelayRecord};
use chronos::crypto::IdentitySigningKey;

fn handle(store: &mut DirectoryStore, line: &str, config: &DirectoryApiConfig, now: u64) -> Result<String, DirectoryApiError> {
    let address_ok = command_address_token(line).is_some_and(|t| looks_like_socket_address(&t));
    let command = parse_directory_command(line, config, address_ok)?;
    execute_directory_command(store, command, config, now)
}

fn looks_like_socket_address(t: &str) -> bool {
    t.rsplit_once(':').is_some_and(|(host, port)| !host.is_empty() && port.parse::<u16>().is_ok())
}

fn hex(bytes: &[u8]) -> String {
    bytes.iter().map(|byte| format!("{byte:02x}")).collect()
}

fn command_for(signed: &SignedRelayRecord) -> String {
    format!(
        "UPSERT_SIGNED {} {} {} {} {} {} {} {}",
        signed.record.node_id,
        signed.record.address,
        signed.record.expires_at_unix,
        hex(&signed.record.x25519_public),
        hex(&signed.record.ml_kem_public_hash),
        signed.signer_id,
        hex(&signed.verifying_key),
        hex(&signed.signature),
    )
}

fn signed_record() -> SignedRelayRecord {
    let signing = IdentitySigningKey::from_bytes(&[9; 32]);
    sign_record(
        RelayRecord {
            node_id: "n1".into(),
            address: "127.0.0.1:7000".parse().expect("address"),
            x25519_public: [1; 32],
            ml_kem_public_hash: [2; 32],
            expires_at_unix: 110,
        },
        "n1",
        &signing,
    )
}

#[test]
fn unsigned_upsert_is_rejected_by_default() {
    let mut store = DirectoryStore::new();
    assert_eq!(
        handle(&mut store, "UPSERT n1 127.0.0.1:7000 110", &DirectoryApiConfig::default(), 100),
        Err(DirectoryApiError::MutationDisabled)
    );
    assert_eq!(store.len(), 0);
}

#[test]
fn valid_signed_upsert_is_accepted_and_bad_signature_is_rejected() {
    let mut store = DirectoryStore::new();
    let signed = signed_record();
    assert_eq!(handle(&mut store, &command_for(&signed), &DirectoryApiConfig::default(), 100), Ok("OK\n".to_string()));
    assert_eq!(store.get("n1", 100).expect("record").x25519_public, [1; 32]);

    let mut tampered = signed;
    tampered.signature[0] ^= 1;
    assert_eq!(
        handle(&mut store, &command_for(&tampered), &DirectoryApiConfig::default(), 100),
        Err(DirectoryApiError::InvalidSignedRecord)
    );
}

#[test]
fn zero_key_material_and_remote_prune_are_rejected_by_default() {
    let signing = IdentitySigningKey::from_bytes(&[10; 32]);
    let bad = sign_record(
        RelayRecord {
            node_id: "n2".into(),
            address: "127.0.0.1:7001".parse().expect("address"),
            x25519_public: [0; 32],
            ml_kem_public_hash: [2; 32],
            expires_at_unix: 110,
        },
        "n2",
        &signing,
    );
    let mut store = DirectoryStore::new();
    assert_eq!(
        handle(&mut store, &command_for(&bad), &DirectoryApiConfig::default(), 100),
        Err(DirectoryApiError::InvalidSignedRecord)
    );
    assert_eq!(
        handle(&mut store, "PRUNE 100", &DirectoryApiConfig::default(), 100),
        Err(DirectoryApiError::RemotePruneDisabled)
    );
}

#[test]
fn plaintext_mutation_requires_explicit_development_config() {
    let mut store = DirectoryStore::new();
    let config = DirectoryApiConfig {
        allow_unsafe_plaintext_mutation: true,
        allow_remote_prune: true,
        max_record_lifetime_seconds: 60,
    };
    assert_eq!(
        handle(&mut store, "UPSERT dev 127.0.0.1:7002 110", &config, 100),
        Ok("OK UNSAFE_LOCAL_DEVELOPMENT\n".to_string())
    );
    assert_eq!(handle(&mut store, "PRUNE 110", &config, 100), Ok("OK 0\n".to_string()));
}

#[test]
fn get_reports_found_and_not_found() {
    let mut store = DirectoryStore::new();
    let signed = signed_record();
    handle(&mut store, &command_for(&signed), &DirectoryApiConfig::default(), 100).expect("upsert");
    assert_eq!(
        handle(&mut store, "GET n1 100\n", &DirectoryApiConfig::default(), 0),
        Ok("FOUND n1 127.0.0.1:7000 110\n".to_string())
    );
    assert_eq!(handle(&mut store, "GET n1 110", &DirectoryApiConfig::default(), 0), Ok("NOT_FOUND\n".to_string()));
    assert_eq!(handle(&mut store, "GET n9 1", &DirectoryApiConfig::default(), 0), Ok("NOT_FOUND\n".to_string()));
}

#[test]
fn malformed_lines_report_the_first_problem() {
    let mut store = DirectoryStore::new();
    let c = DirectoryApiConfig::default();
    assert_eq!(handle(&mut store, "", &c, 0), Err(DirectoryApiError::BadCommand));
    assert_eq!(handle(&mut store, "HELLO", &c, 0), Err(DirectoryApiError::BadCommand));
    assert_eq!(handle(&mut store, "GET n1", &c, 0), Err(DirectoryApiError::BadCommand));
    assert_eq!(handle(&mut store, "GET n1 x1", &c, 0), Err(DirectoryApiError::BadInteger));
    assert_eq!(handle(&mut store, "GET n1 1 extra", &c, 0), Err(DirectoryApiError::BadCommand));
    assert_eq!(
        handle(&mut store, "UPSERT_SIGNED n1 127.0.0.1:1 5 zz", &c, 0),
        Err(DirectoryApiError::BadHex)
    );
    assert_eq!(handle(&mut store, "UPSERT_SIGNED n1 127.0.0.1:1 -5", &c, 0), Err(DirectoryApiError::BadInteger));
}

#[test]
fn development_records_are_never_persisted() {
    let mut store = DirectoryStore::new();
    let config = DirectoryApiConfig {
        allow_unsafe_plaintext_mutation: true,
        allow_remote_prune: false,
        max_record_lifetime_seconds: 60,
    };
    let command = parse_directory_command("UPSERT local 127.0.0.1:1 200", &config, true).expect("parse");
    assert!(matches!(command, DirectoryCommand::UpsertUnsigned(_)));
    execute_directory_command(&mut store, command, &config, 100).expect("upsert");
    assert_eq!(store.to_file_bytes().err(), Some(DirectoryStoreError::UnsignedDevelopmentRecordsCannotPersist));
    assert_eq!(store.get("local", 100).expect("dev record").x25519_public, [0; 32]);
}

#[test]
fn bad_address_is_reported_before_later_tokens() {
    let config = DirectoryApiConfig {
        allow_unsafe_plaintext_mutation: true,
        allow_remote_prune: false,
        max_record_lifetime_seconds: 60,
    };
    let mut store = DirectoryStore::new();
    assert_eq!(handle(&mut store, "UPSERT n1 not-an-address notanumber", &config, 100), Err(DirectoryApiError::BadAddress));
    assert_eq!(handle(&mut store, "UPSERT_SIGNED n1 nope 5 zz", &config, 100), Err(DirectoryApiError::BadAddress));
    assert_eq!(handle(&mut store, "UPSERT n1 127.0.0.1:9 notanumber", &config, 100), Err(DirectoryApiError::BadInteger));
    assert_eq!(handle(&mut store, "UPSERT n1", &config, 100), Err(DirectoryApiError::BadCommand));
    assert_eq!(command_address_token("A B C D").as_deref(), Some("C"));
    assert_eq!(command_address_token("A B"), None);
}
