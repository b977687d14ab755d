//! The directory API's line commands: reading a command line into a
//! command, and carrying a command out on the store. A line is
//! `UPSERT_SIGNED <node_id> <address> <expires_unix> <x25519_hex_32>
//! <mlkem_hash_hex_32> <signer_id> <ed25519_public_hex_32>
//! <signature_hex_64>`, `GET <node_id> <now_unix>`, or, only where the
//! configuration allows them, the development `UPSERT <node_id> <address>
//! <expires_unix>` and `PRUNE <now_unix>`. The address token is kept as
//! text; checking that it is a socket address is the caller's part.
use vstd::prelude::*;
use vstd::string::{StringSliceAdditionalSpecFns, StringExecFns};
use vstd::utf8::encode_utf8;
use crate::directory::{hex_bytes, parse_hex_array, DirectoryApiConfig, DirectoryApiError};
use crate::relay_store::{
    live_records, live_signed, lookup, record_view, signed_record_check, DirectoryStore, RecordView, RelayRecord,
    SignedRelayRecord,
};
use crate::text::{ascii_chars, decimal, is_ascii_bytes, parse_uint, parse_uint_bytes, str_eq, string_from_ascii};
use crate::tokens::{split_tokens, split_whitespace_tokens};

verus! {

/// A directory command.
pub enum DirectoryCommand {
    UpsertSigned(SignedRelayRecord),
    UpsertUnsigned(RelayRecord),
    Get { node_id: String, now_unix: u64 },
    Prune { now_unix: u64 },
}

/// A directory command as plain values.
pub enum CommandView {
    UpsertSigned(RecordView),
    UpsertUnsigned { node_id: Seq<char>, address: Seq<char>, expires_at_unix: u64 },
    Get { node_id: Seq<char>, now_unix: u64 },
    Prune { now_unix: u64 },
}

pub open spec fn command_view(c: DirectoryCommand) -> CommandView {
    match c {
        DirectoryCommand::UpsertSigned(s) => CommandView::UpsertSigned(record_view(s)),
        DirectoryCommand::UpsertUnsigned(r) => CommandView::UpsertUnsigned {
            node_id: r.node_id@,
            address: r.address@,
            expires_at_unix: r.expires_at_unix,
        },
        DirectoryCommand::Get { node_id, now_unix } => CommandView::Get { node_id: node_id@, now_unix },
        DirectoryCommand::Prune { now_unix } => CommandView::Prune { now_unix },
    }
}

/// A token read as std reads a `u64`.
pub open spec fn u64_token(t: Seq<char>) -> Option<u64> {
    match parse_uint(encode_utf8(t), u64::MAX as nat) {
        Ok(v) => Some(v as u64),
        Err(_) => None,
    }
}

/// A token read as `n` bytes in hexadecimal.
pub open spec fn hex_token(t: Seq<char>, n: nat) -> Option<Seq<u8>> {
    hex_bytes(encode_utf8(t), n)
}

/// What reading a command's tokens gives: the first missing or malformed
/// token decides the error, an extra token is refused, and the development
/// commands are refused before their tokens are read unless allowed.
/// `address_ok` tells whether the third token reads as a socket address.
pub open spec fn parse_command(
    toks: Seq<Seq<char>>,
    allow_mutation: bool,
    allow_prune: bool,
    address_ok: bool,
) -> Result<
    CommandView,
    DirectoryApiError,
> {
    if toks.len() == 0 {
        Err(DirectoryApiError::BadCommand)
    } else if toks[0] == "UPSERT_SIGNED"@ {
        if toks.len() < 3 {
            Err(DirectoryApiError::BadCommand)
        } else if !address_ok {
            Err(DirectoryApiError::BadAddress)
        } else if toks.len() < 4 {
            Err(DirectoryApiError::BadCommand)
        } else if u64_token(toks[3]) is None {
            Err(DirectoryApiError::BadInteger)
        } else if toks.len() < 5 {
            Err(DirectoryApiError::BadCommand)
        } else if hex_token(toks[4], 32) is None {
            Err(DirectoryApiError::BadHex)
        } else if toks.len() < 6 {
            Err(DirectoryApiError::BadCommand)
        } else if hex_token(toks[5], 32) is None {
            Err(DirectoryApiError::BadHex)
        } else if toks.len() < 8 {
            Err(DirectoryApiError::BadCommand)
        } else if hex_token(toks[7], 32) is None {
            Err(DirectoryApiError::BadHex)
        } else if toks.len() < 9 {
            Err(DirectoryApiError::BadCommand)
        } else if hex_token(toks[8], 64) is None {
            Err(DirectoryApiError::BadHex)
        } else if toks.len() > 9 {
            Err(DirectoryApiError::BadCommand)
        } else {
            Ok(
                CommandView::UpsertSigned(
                    RecordView {
                        node_id: toks[1],
                        address: toks[2],
                        x25519_public: hex_token(toks[4], 32)->0,
                        ml_kem_public_hash: hex_token(toks[5], 32)->0,
                        expires_at_unix: u64_token(toks[3])->0,
                        signer_id: toks[6],
                        verifying_key: hex_token(toks[7], 32)->0,
                        signature: hex_token(toks[8], 64)->0,
                    },
                ),
            )
        }
    } else if toks[0] == "UPSERT"@ {
        if !allow_mutation {
            Err(DirectoryApiError::MutationDisabled)
        } else if toks.len() < 3 {
            Err(DirectoryApiError::BadCommand)
        } else if !address_ok {
            Err(DirectoryApiError::BadAddress)
        } else if toks.len() < 4 {
            Err(DirectoryApiError::BadCommand)
        } else if u64_token(toks[3]) is None {
            Err(DirectoryApiError::BadInteger)
        } else if toks.len() > 4 {
            Err(DirectoryApiError::BadCommand)
        } else {
            Ok(
                CommandView::UpsertUnsigned {
                    node_id: toks[1],
                    address: toks[2],
                    expires_at_unix: u64_token(toks[3])->0,
                },
            )
        }
    } else if toks[0] == "GET"@ {
        if toks.len() < 3 {
            Err(DirectoryApiError::BadCommand)
        } else if u64_token(toks[2]) is None {
            Err(DirectoryApiError::BadInteger)
        } else if toks.len() > 3 {
            Err(DirectoryApiError::BadCommand)
        } else {
            Ok(CommandView::Get { node_id: toks[1], now_unix: u64_token(toks[2])->0 })
        }
    } else if toks[0] == "PRUNE"@ {
        if !allow_prune {
            Err(DirectoryApiError::RemotePruneDisabled)
        } else if toks.len() < 2 {
            Err(DirectoryApiError::BadCommand)
        } else if u64_token(toks[1]) is None {
            Err(DirectoryApiError::BadInteger)
        } else if toks.len() > 2 {
            Err(DirectoryApiError::BadCommand)
        } else {
            Ok(CommandView::Prune { now_unix: u64_token(toks[1])->0 })
        }
    } else {
        Err(DirectoryApiError::BadCommand)
    }
}

fn u64_of_token(t: &String) -> (r: Option<u64>)
    ensures
        r == u64_token(t@),
{
    let b = t.as_str().as_bytes();
    match parse_uint_bytes(b, 0, b.len(), u64::MAX) {
        Ok(v) => {
            proof {
                assert(b@.subrange(0, b@.len() as int) =~= b@);
            }
            Some(v)
        },
        Err(_) => {
            proof {
                assert(b@.subrange(0, b@.len() as int) =~= b@);
            }
            None
        },
    }
}

/// The third token of a command line, where the upsert commands carry the
/// relay's address.
pub fn command_address_token(line: &str) -> (r: Option<String>)
    ensures
        split_tokens(line@).len() >= 3 ==> (r matches Some(t) && t@ == split_tokens(line@)[2]),
        split_tokens(line@).len() < 3 ==> r is None,
{
    let toks = split_whitespace_tokens(line);
    if toks.len() < 3 {
        None
    } else {
        Some(String::from_str(toks[2].as_str()))
    }
}

/// Reads a command line. Whether the address token reads as a socket
/// address is `address_ok` (the caller's verdict on the token that
/// `command_address_token` gives); the token itself is kept as it stands.
pub fn parse_directory_command(line: &str, config: &DirectoryApiConfig, address_ok: bool) -> (r: Result<
    DirectoryCommand,
    DirectoryApiError,
>)
    ensures
        match parse_command(
            split_tokens(line@),
            config.allow_unsafe_plaintext_mutation,
            config.allow_remote_prune,
            address_ok,
        ) {
            Ok(v) => r matches Ok(c) && command_view(c) == v,
            Err(e) => r matches Err(f) && f == e,
        },
        r matches Ok(DirectoryCommand::UpsertUnsigned(rec)) ==> rec.x25519_public@ == Seq::new(32, |i: int| 0u8)
            && rec.ml_kem_public_hash@ == Seq::new(32, |i: int| 0u8),
{
    let toks = split_whitespace_tokens(line);
    let ghost st = split_tokens(line@);
    if toks.len() == 0 {
        return Err(DirectoryApiError::BadCommand);
    }
    let n = toks.len();
    if str_eq(toks[0].as_str(), "UPSERT_SIGNED") {
        if n < 3 {
            return Err(DirectoryApiError::BadCommand);
        }
        if !address_ok {
            return Err(DirectoryApiError::BadAddress);
        }
        if n < 4 {
            return Err(DirectoryApiError::BadCommand);
        }
        let expires_at_unix = match u64_of_token(&toks[3]) {
            Some(v) => v,
            None => return Err(DirectoryApiError::BadInteger),
        };
        if n < 5 {
            return Err(DirectoryApiError::BadCommand);
        }
        let x25519_public = match parse_hex_array::<32>(toks[4].as_str()) {
            Ok(a) => a,
            Err(_) => return Err(DirectoryApiError::BadHex),
        };
        if n < 6 {
            return Err(DirectoryApiError::BadCommand);
        }
        let ml_kem_public_hash = match parse_hex_array::<32>(toks[5].as_str()) {
            Ok(a) => a,
            Err(_) => return Err(DirectoryApiError::BadHex),
        };
        if n < 8 {
            return Err(DirectoryApiError::BadCommand);
        }
        let verifying_key = match parse_hex_array::<32>(toks[7].as_str()) {
            Ok(a) => a,
            Err(_) => return Err(DirectoryApiError::BadHex),
        };
        if n < 9 {
            return Err(DirectoryApiError::BadCommand);
        }
        let signature = match parse_hex_array::<64>(toks[8].as_str()) {
            Ok(a) => a,
            Err(_) => return Err(DirectoryApiError::BadHex),
        };
        if n > 9 {
            return Err(DirectoryApiError::BadCommand);
        }
        let record = RelayRecord {
            node_id: String::from_str(toks[1].as_str()),
            address: String::from_str(toks[2].as_str()),
            x25519_public,
            ml_kem_public_hash,
            expires_at_unix,
        };
        let signed = SignedRelayRecord {
            record,
            signer_id: String::from_str(toks[6].as_str()),
            verifying_key,
            signature,
        };
        return Ok(DirectoryCommand::UpsertSigned(signed));
    }
    if str_eq(toks[0].as_str(), "UPSERT") {
        if !config.allow_unsafe_plaintext_mutation {
            return Err(DirectoryApiError::MutationDisabled);
        }
        if n < 3 {
            return Err(DirectoryApiError::BadCommand);
        }
        if !address_ok {
            return Err(DirectoryApiError::BadAddress);
        }
        if n < 4 {
            return Err(DirectoryApiError::BadCommand);
        }
        let expires_at_unix = match u64_of_token(&toks[3]) {
            Some(v) => v,
            None => return Err(DirectoryApiError::BadInteger),
        };
        if n > 4 {
            return Err(DirectoryApiError::BadCommand);
        }
        let record = RelayRecord {
            node_id: String::from_str(toks[1].as_str()),
            address: String::from_str(toks[2].as_str()),
            x25519_public: [0u8; 32],
            ml_kem_public_hash: [0u8; 32],
            expires_at_unix,
        };
        proof {
            assert(record.x25519_public@ =~= Seq::new(32, |i: int| 0u8));
            assert(record.ml_kem_public_hash@ =~= Seq::new(32, |i: int| 0u8));
        }
        return Ok(DirectoryCommand::UpsertUnsigned(record));
    }
    if str_eq(toks[0].as_str(), "GET") {
        if n < 3 {
            return Err(DirectoryApiError::BadCommand);
        }
        let now_unix = match u64_of_token(&toks[2]) {
            Some(v) => v,
            None => return Err(DirectoryApiError::BadInteger),
        };
        if n > 3 {
            return Err(DirectoryApiError::BadCommand);
        }
        return Ok(DirectoryCommand::Get { node_id: String::from_str(toks[1].as_str()), now_unix });
    }
    if str_eq(toks[0].as_str(), "PRUNE") {
        if !config.allow_remote_prune {
            return Err(DirectoryApiError::RemotePruneDisabled);
        }
        if n < 2 {
            return Err(DirectoryApiError::BadCommand);
        }
        let now_unix = match u64_of_token(&toks[1]) {
            Some(v) => v,
            None => return Err(DirectoryApiError::BadInteger),
        };
        if n > 2 {
            return Err(DirectoryApiError::BadCommand);
        }
        return Ok(DirectoryCommand::Prune { now_unix });
    }
    Err(DirectoryApiError::BadCommand)
}

/// The answer to a GET that finds a record: `FOUND <node_id> <address>
/// <expires_unix>` and a newline.
pub open spec fn found_text(node_id: Seq<char>, address: Seq<char>, expires_at_unix: u64) -> Seq<char> {
    "FOUND "@ + node_id + " "@ + address + " "@ + ascii_chars(decimal(expires_at_unix as nat)) + "\n"@
}

/// The answer to a PRUNE: `OK <records left>` and a newline.
pub open spec fn pruned_text(count: nat) -> Seq<char> {
    "OK "@ + ascii_chars(decimal(count)) + "\n"@
}

/// The store's record count as `len` reports it.
pub open spec fn capped_count(store: DirectoryStore) -> nat {
    if store.record_count() <= usize::MAX {
        store.record_count()
    } else {
        usize::MAX as nat
    }
}

/// Whether the store's records are as they were.
pub open spec fn store_unchanged(before: DirectoryStore, after: DirectoryStore) -> bool {
    after.signed_view() == before.signed_view() && after.unsigned_view() == before.unsigned_view()
}

fn decimal_string(n: u64) -> (r: String)
    ensures
        r@ == ascii_chars(decimal(n as nat)),
{
    let mut digits: Vec<u8> = Vec::new();
    crate::text::push_decimal_ascii(&mut digits, n);
    string_from_ascii(digits)
}

/// Carries out a command on the store. A signed upsert stores the record
/// only if it verifies at `now`; a development upsert needs the mutation
/// switch and an unexpired record; a GET looks up at its own time; a PRUNE
/// needs the prune switch.
pub fn execute_directory_command(
    store: &mut DirectoryStore,
    command: DirectoryCommand,
    config: &DirectoryApiConfig,
    now_unix: u64,
) -> (r: Result<String, DirectoryApiError>)
    ensures
        command matches DirectoryCommand::UpsertSigned(s) ==> if signed_record_check(
            s,
            now_unix,
            config.max_record_lifetime_seconds,
        ) is Err {
            r == Err::<String, DirectoryApiError>(DirectoryApiError::InvalidSignedRecord) && store_unchanged(
                *old(store),
                *final(store),
            )
        } else {
            &&& r matches Ok(t) && t@ == "OK\n"@
            &&& final(store).signed_view() == old(store).signed_view().insert(s.record.node_id@, s)
            &&& final(store).unsigned_view() == old(store).unsigned_view()
        },
        command matches DirectoryCommand::UpsertUnsigned(rec) ==> if !config.allow_unsafe_plaintext_mutation {
            r == Err::<String, DirectoryApiError>(DirectoryApiError::MutationDisabled) && store_unchanged(
                *old(store),
                *final(store),
            )
        } else if rec.expires_at_unix <= now_unix {
            r == Err::<String, DirectoryApiError>(DirectoryApiError::InvalidSignedRecord) && store_unchanged(
                *old(store),
                *final(store),
            )
        } else {
            &&& r matches Ok(t) && t@ == "OK UNSAFE_LOCAL_DEVELOPMENT\n"@
            &&& final(store).unsigned_view() == old(store).unsigned_view().insert(rec.node_id@, rec)
            &&& final(store).signed_view() == old(store).signed_view()
        },
        command matches DirectoryCommand::Get { node_id, now_unix: t } ==> store_unchanged(*old(store), *final(store))
            && match lookup(old(store).signed_view(), old(store).unsigned_view(), node_id@, t) {
            Some(rec) => r matches Ok(a) && a@ == found_text(rec.node_id@, rec.address@, rec.expires_at_unix),
            None => r matches Ok(a) && a@ == "NOT_FOUND\n"@,
        },
        command matches DirectoryCommand::Prune { now_unix: t } ==> if !config.allow_remote_prune {
            r == Err::<String, DirectoryApiError>(DirectoryApiError::RemotePruneDisabled) && store_unchanged(
                *old(store),
                *final(store),
            )
        } else {
            &&& final(store).signed_view() == live_signed(old(store).signed_view(), t)
            &&& final(store).unsigned_view() == live_records(old(store).unsigned_view(), t)
            &&& r matches Ok(a) && a@ == pruned_text(capped_count(*final(store)))
        },
{
    match command {
        DirectoryCommand::UpsertSigned(signed) => {
            if crate::relay_store::verify_record_at(&signed, now_unix, config.max_record_lifetime_seconds).is_err() {
                return Err(DirectoryApiError::InvalidSignedRecord);
            }
            match store.upsert_signed(signed, now_unix, config.max_record_lifetime_seconds) {
                Ok(()) => Ok(String::from_str("OK\n")),
                Err(_) => Err(DirectoryApiError::InvalidSignedRecord),
            }
        },
        DirectoryCommand::UpsertUnsigned(record) => {
            if !config.allow_unsafe_plaintext_mutation {
                return Err(DirectoryApiError::MutationDisabled);
            }
            if record.expires_at_unix <= now_unix {
                return Err(DirectoryApiError::InvalidSignedRecord);
            }
            store.upsert_unsigned_for_local_development_only(record);
            Ok(String::from_str("OK UNSAFE_LOCAL_DEVELOPMENT\n"))
        },
        DirectoryCommand::Get { node_id, now_unix: t } => {
            match store.get(node_id.as_str(), t) {
                Some(record) => {
                    let mut out = String::from_str("FOUND ");
                    out.append(record.node_id.as_str());
                    out.append(" ");
                    out.append(record.address.as_str());
                    out.append(" ");
                    let digits = decimal_string(record.expires_at_unix);
                    out.append(digits.as_str());
                    out.append("\n");
                    Ok(out)
                },
                None => Ok(String::from_str("NOT_FOUND\n")),
            }
        },
        DirectoryCommand::Prune { now_unix: t } => {
            if !config.allow_remote_prune {
                return Err(DirectoryApiError::RemotePruneDisabled);
            }
            store.prune_expired(t);
            let n = store.len();
            let mut out = String::from_str("OK ");
            let digits = decimal_string(n as u64);
            out.append(digits.as_str());
            out.append("\n");
            Ok(out)
        },
    }
}

} // verus!
