//! Ed25519-authenticated relay records and the local directory store that
//! holds them. A record's socket address is carried in its text form; the
//! signed message and the stored bytes use that text.
use vstd::prelude::*;
use vstd::string::StringSliceAdditionalSpecFns;
use vstd::utf8::encode_utf8;
use crate::bytes::{all_zero, push_all, push_u32_be, push_u64_be, u32_be, u64_be};
use crate::crypto::{
    ed25519_public_key_accepted, ed25519_public_output, ed25519_signature_accepted, ed25519_signature_output,
    ed25519_verify, IdentitySigningKey,
};
use crate::directory::{DirectoryStoreError, RelayRecordError, SignedRecordError};
use crate::text::{ascii_chars, str_eq, string_from_ascii, string_from_utf8};
use crate::bytes::{copy_range, fill_array, read_u32_be, read_u64_be, u32_at, u64_at};
use vstd::utf8::{decode_utf8, valid_utf8};

verus! {

/// `"chronos-dir-record-v3"` as bytes.
pub open spec fn record_label() -> Seq<u8> {
    seq![
        0x63u8, 0x68, 0x72, 0x6f, 0x6e, 0x6f, 0x73, 0x2d, 0x64, 0x69, 0x72, 0x2d, 0x72, 0x65, 0x63,
        0x6f, 0x72, 0x64, 0x2d, 0x76, 0x33,
    ]
}

fn record_label_bytes() -> (r: Vec<u8>)
    ensures
        r@ == record_label(),
{
    let r: Vec<u8> = vec![
        0x63u8, 0x68, 0x72, 0x6f, 0x6e, 0x6f, 0x73, 0x2d, 0x64, 0x69, 0x72, 0x2d, 0x72, 0x65, 0x63,
        0x6f, 0x72, 0x64, 0x2d, 0x76, 0x33,
    ];
    assert(r@ =~= record_label());
    r
}

/// A relay's published descriptor.
#[derive(Debug, Clone, PartialEq, Eq)]
pub struct RelayRecord {
    pub node_id: String,
    /// The relay's socket address, as text (`ip:port`).
    pub address: String,
    pub x25519_public: [u8; 32],
    /// SHA-256 digest of the advertised ML-KEM public key.
    pub ml_kem_public_hash: [u8; 32],
    pub expires_at_unix: u64,
}

/// A descriptor with the relay's signature over it.
#[derive(Debug, Clone, PartialEq, Eq)]
pub struct SignedRelayRecord {
    pub record: RelayRecord,
    /// Must be the record's node id: a relay signs its own descriptor.
    pub signer_id: String,
    pub verifying_key: [u8; 32],
    pub signature: [u8; 64],
}

/// Whether every byte is zero.
pub open spec fn all_zero_bytes(b: Seq<u8>) -> bool {
    forall|i: int| 0 <= i < b.len() ==> b[i] == 0
}

/// A signed record as plain values.
pub struct RecordView {
    pub node_id: Seq<char>,
    pub address: Seq<char>,
    pub x25519_public: Seq<u8>,
    pub ml_kem_public_hash: Seq<u8>,
    pub expires_at_unix: u64,
    pub signer_id: Seq<char>,
    pub verifying_key: Seq<u8>,
    pub signature: Seq<u8>,
}

pub open spec fn record_view(s: SignedRelayRecord) -> RecordView {
    RecordView {
        node_id: s.record.node_id@,
        address: s.record.address@,
        x25519_public: s.record.x25519_public@,
        ml_kem_public_hash: s.record.ml_kem_public_hash@,
        expires_at_unix: s.record.expires_at_unix,
        signer_id: s.signer_id@,
        verifying_key: s.verifying_key@,
        signature: s.signature@,
    }
}

/// The first check of a record's public material that fails, if any: the
/// node id must be non-empty and neither key all zeros.
pub open spec fn material_check(node_id: Seq<char>, x25519_public: Seq<u8>, ml_kem_public_hash: Seq<u8>) -> Result<
    (),
    RelayRecordError,
> {
    if node_id.len() == 0 {
        Err(RelayRecordError::EmptyNodeId)
    } else if all_zero_bytes(x25519_public) {
        Err(RelayRecordError::ZeroX25519PublicKey)
    } else if all_zero_bytes(ml_kem_public_hash) {
        Err(RelayRecordError::ZeroMlKemPublicKeyHash)
    } else {
        Ok(())
    }
}

/// Whether a record expiring at `expires_at_unix` is live at `now` and
/// expires within `max_lifetime` of it.
pub open spec fn freshness_check(expires_at_unix: u64, now_unix: u64, max_lifetime_seconds: u64) -> Result<
    (),
    RelayRecordError,
> {
    let max_expires_at_unix = now_unix.saturating_add(max_lifetime_seconds);
    if expires_at_unix <= now_unix {
        Err(RelayRecordError::Expired { expires_at_unix, now_unix })
    } else if expires_at_unix > max_expires_at_unix {
        Err(RelayRecordError::ExcessiveLifetime { expires_at_unix, max_expires_at_unix })
    } else {
        Ok(())
    }
}

/// A field of the signed message: its length (32-bit, big-endian) and bytes.
pub open spec fn message_field(b: Seq<u8>) -> Seq<u8> {
    u32_be(b.len() as u32) + b
}

/// The message a relay signs: a label, then the signer, node id, address,
/// X25519 key and ML-KEM key hash as length-prefixed fields, then the
/// expiry (big-endian).
pub open spec fn record_message_of(
    node_id: Seq<char>,
    address: Seq<char>,
    x25519_public: Seq<u8>,
    ml_kem_public_hash: Seq<u8>,
    expires_at_unix: u64,
    signer_id: Seq<u8>,
) -> Seq<u8> {
    record_label() + message_field(signer_id) + message_field(encode_utf8(node_id)) + message_field(
        encode_utf8(address),
    ) + message_field(x25519_public) + message_field(ml_kem_public_hash) + u64_be(expires_at_unix)
}

pub open spec fn record_message_bytes(r: RelayRecord, signer_id: Seq<u8>) -> Seq<u8> {
    record_message_of(r.node_id@, r.address@, r.x25519_public@, r.ml_kem_public_hash@, r.expires_at_unix, signer_id)
}

/// What verifying a signed record at `now` gives: the signer must be the
/// node, the material and freshness must pass, and the signature must
/// verify under the carried key.
#[verifier::opaque]
pub open spec fn view_check(v: RecordView, now_unix: u64, max_lifetime_seconds: u64) -> Result<(), SignedRecordError> {
    if v.signer_id != v.node_id {
        Err(SignedRecordError::SignerDoesNotMatchNodeId)
    } else if material_check(v.node_id, v.x25519_public, v.ml_kem_public_hash) is Err {
        Err(SignedRecordError::Record(material_check(v.node_id, v.x25519_public, v.ml_kem_public_hash)->Err_0))
    } else if freshness_check(v.expires_at_unix, now_unix, max_lifetime_seconds) is Err {
        Err(SignedRecordError::Record(freshness_check(v.expires_at_unix, now_unix, max_lifetime_seconds)->Err_0))
    } else if !ed25519_public_key_accepted(v.verifying_key) {
        Err(SignedRecordError::InvalidSignature)
    } else if !ed25519_signature_accepted(
        v.verifying_key,
        record_message_of(
            v.node_id,
            v.address,
            v.x25519_public,
            v.ml_kem_public_hash,
            v.expires_at_unix,
            encode_utf8(v.signer_id),
        ),
        v.signature,
    ) {
        Err(SignedRecordError::InvalidSignature)
    } else {
        Ok(())
    }
}

pub open spec fn signed_record_check(s: SignedRelayRecord, now_unix: u64, max_lifetime_seconds: u64) -> Result<
    (),
    SignedRecordError,
> {
    view_check(record_view(s), now_unix, max_lifetime_seconds)
}

impl RelayRecord {
    /// The node id must be non-empty and neither key may be all zeros.
    pub fn validate_public_material(&self) -> (r: Result<(), RelayRecordError>)
        ensures
            r == material_check(self.node_id@, self.x25519_public@, self.ml_kem_public_hash@),
    {
        if self.node_id.as_str().is_empty() {
            return Err(RelayRecordError::EmptyNodeId);
        }
        if all_zero(&self.x25519_public, 0, 32) {
            return Err(RelayRecordError::ZeroX25519PublicKey);
        }
        if all_zero(&self.ml_kem_public_hash, 0, 32) {
            return Err(RelayRecordError::ZeroMlKemPublicKeyHash);
        }
        Ok(())
    }

    /// The record must expire after `now` and no later than
    /// `now + max_lifetime` (saturating).
    pub fn validate_freshness(&self, now_unix: u64, max_lifetime_seconds: u64) -> (r: Result<(), RelayRecordError>)
        ensures
            r == freshness_check(self.expires_at_unix, now_unix, max_lifetime_seconds),
    {
        if self.expires_at_unix <= now_unix {
            return Err(RelayRecordError::Expired { expires_at_unix: self.expires_at_unix, now_unix });
        }
        let max_expires_at_unix = now_unix.saturating_add(max_lifetime_seconds);
        if self.expires_at_unix > max_expires_at_unix {
            return Err(RelayRecordError::ExcessiveLifetime { expires_at_unix: self.expires_at_unix, max_expires_at_unix });
        }
        Ok(())
    }
}

fn push_field(out: &mut Vec<u8>, field: &[u8])
    ensures
        final(out)@ == old(out)@ + message_field(field@),
{
    push_u32_be(out, field.len() as u32);
    push_all(out, field);
    assert(final(out)@ =~= old(out)@ + message_field(field@));
}

/// The message a relay signs over its record.
pub fn record_message(record: &RelayRecord, signer_id: &str) -> (r: Vec<u8>)
    ensures
        r@ == record_message_bytes(*record, signer_id.spec_bytes()),
{
    let mut message = record_label_bytes();
    push_field(&mut message, signer_id.as_bytes());
    push_field(&mut message, record.node_id.as_str().as_bytes());
    push_field(&mut message, record.address.as_str().as_bytes());
    push_field(&mut message, &record.x25519_public);
    push_field(&mut message, &record.ml_kem_public_hash);
    push_u64_be(&mut message, record.expires_at_unix);
    assert(message@ =~= record_message_bytes(*record, signer_id.spec_bytes()));
    message
}

/// Signs a record as `signer_id` with an Ed25519 key.
pub fn sign_record(record: RelayRecord, signer_id: &str, signing_key: &IdentitySigningKey) -> (r: SignedRelayRecord)
    ensures
        r.record == record,
        r.signer_id@ == signer_id@,
        r.verifying_key@ == ed25519_public_output(signing_key.secret_bytes()),
        r.signature@ == ed25519_signature_output(
            signing_key.secret_bytes(),
            record_message_bytes(record, signer_id.spec_bytes()),
        ),
{
    let message = record_message(&record, signer_id);
    let signature = signing_key.sign(message.as_slice());
    let verifying_key = signing_key.verifying_key_bytes();
    SignedRelayRecord { record, signer_id: String::from_str(signer_id), verifying_key, signature }
}

/// Checks a signed record at `now`: signer, material, freshness, signature.
pub fn verify_record_at(signed: &SignedRelayRecord, now_unix: u64, max_lifetime_seconds: u64) -> (r: Result<
    (),
    SignedRecordError,
>)
    ensures
        r == signed_record_check(*signed, now_unix, max_lifetime_seconds),
{
    reveal(view_check);
    if !str_eq(signed.signer_id.as_str(), signed.record.node_id.as_str()) {
        return Err(SignedRecordError::SignerDoesNotMatchNodeId);
    }
    match signed.record.validate_public_material() {
        Ok(()) => {},
        Err(e) => return Err(SignedRecordError::Record(e)),
    }
    match signed.record.validate_freshness(now_unix, max_lifetime_seconds) {
        Ok(()) => {},
        Err(e) => return Err(SignedRecordError::Record(e)),
    }
    let message = record_message(&signed.record, signed.signer_id.as_str());
    match ed25519_verify(&signed.verifying_key, message.as_slice(), &signed.signature) {
        None => Err(SignedRecordError::InvalidSignature),
        Some(false) => Err(SignedRecordError::InvalidSignature),
        Some(true) => Ok(()),
    }
}

/// No two signed records share a node id.
pub open spec fn signed_ids_distinct(s: Seq<SignedRelayRecord>) -> bool {
    forall|i: int, j: int| 0 <= i < j < s.len() ==> s[i].record.node_id@ != s[j].record.node_id@
}

/// No two records share a node id.
pub open spec fn record_ids_distinct(s: Seq<RelayRecord>) -> bool {
    forall|i: int, j: int| 0 <= i < j < s.len() ==> s[i].node_id@ != s[j].node_id@
}

/// The signed records by node id.
pub open spec fn signed_map(s: Seq<SignedRelayRecord>) -> Map<Seq<char>, SignedRelayRecord> {
    Map::new(
        |k: Seq<char>| exists|i: int| 0 <= i < s.len() && s[i].record.node_id@ == k,
        |k: Seq<char>| s[choose|i: int| 0 <= i < s.len() && s[i].record.node_id@ == k],
    )
}

/// The records by node id.
pub open spec fn record_map(s: Seq<RelayRecord>) -> Map<Seq<char>, RelayRecord> {
    Map::new(
        |k: Seq<char>| exists|i: int| 0 <= i < s.len() && s[i].node_id@ == k,
        |k: Seq<char>| s[choose|i: int| 0 <= i < s.len() && s[i].node_id@ == k],
    )
}

/// What a lookup of `id` at `now` finds: the signed record's descriptor if
/// there is one (and only if it is live), else a live development record.
pub open spec fn lookup(
    signed: Map<Seq<char>, SignedRelayRecord>,
    unsigned: Map<Seq<char>, RelayRecord>,
    id: Seq<char>,
    now_unix: u64,
) -> Option<RelayRecord> {
    if signed.dom().contains(id) {
        if signed[id].record.expires_at_unix > now_unix {
            Some(signed[id].record)
        } else {
            None
        }
    } else if unsigned.dom().contains(id) && unsigned[id].expires_at_unix > now_unix {
        Some(unsigned[id])
    } else {
        None
    }
}

/// The entries of a map that are live at `now`.
pub open spec fn live_signed(m: Map<Seq<char>, SignedRelayRecord>, now_unix: u64) -> Map<Seq<char>, SignedRelayRecord> {
    Map::new(|k: Seq<char>| m.dom().contains(k) && m[k].record.expires_at_unix > now_unix, |k: Seq<char>| m[k])
}

/// The entries of a map that are live at `now`.
pub open spec fn live_records(m: Map<Seq<char>, RelayRecord>, now_unix: u64) -> Map<Seq<char>, RelayRecord> {
    Map::new(|k: Seq<char>| m.dom().contains(k) && m[k].expires_at_unix > now_unix, |k: Seq<char>| m[k])
}

proof fn lemma_signed_map_at(s: Seq<SignedRelayRecord>, i: int)
    requires
        signed_ids_distinct(s),
        0 <= i < s.len(),
    ensures
        signed_map(s).dom().contains(s[i].record.node_id@),
        signed_map(s)[s[i].record.node_id@] == s[i],
{
    let k = s[i].record.node_id@;
    assert(exists|j: int| 0 <= j < s.len() && s[j].record.node_id@ == k);
    let j = choose|j: int| 0 <= j < s.len() && s[j].record.node_id@ == k;
    assert(j == i);
}

proof fn lemma_record_map_at(s: Seq<RelayRecord>, i: int)
    requires
        record_ids_distinct(s),
        0 <= i < s.len(),
    ensures
        record_map(s).dom().contains(s[i].node_id@),
        record_map(s)[s[i].node_id@] == s[i],
{
    let k = s[i].node_id@;
    assert(exists|j: int| 0 <= j < s.len() && s[j].node_id@ == k);
    let j = choose|j: int| 0 <= j < s.len() && s[j].node_id@ == k;
    assert(j == i);
}

/// Replacing the record at a node id's index, or appending a record with a
/// new node id, is an insertion into the map.
proof fn lemma_signed_map_upsert(s: Seq<SignedRelayRecord>, t: Seq<SignedRelayRecord>, v: SignedRelayRecord)
    requires
        signed_ids_distinct(s),
        (exists|i: int| 0 <= i < s.len() && s[i].record.node_id@ == v.record.node_id@ && t == s.update(i, v))
            || ((forall|i: int| 0 <= i < s.len() ==> s[i].record.node_id@ != v.record.node_id@) && t == s.push(v)),
    ensures
        signed_ids_distinct(t),
        signed_map(t) == signed_map(s).insert(v.record.node_id@, v),
{
    let k = v.record.node_id@;
    assert(signed_ids_distinct(t));
    assert forall|x: Seq<char>| #[trigger] signed_map(t).dom().contains(x) == signed_map(s).insert(k, v).dom().contains(x) by {
        if signed_map(t).dom().contains(x) {
            let j = choose|j: int| 0 <= j < t.len() && t[j].record.node_id@ == x;
            if x != k {
                assert(0 <= j < s.len() && s[j].record.node_id@ == x);
            }
        }
        if signed_map(s).dom().contains(x) && x != k {
            let j = choose|j: int| 0 <= j < s.len() && s[j].record.node_id@ == x;
            assert(0 <= j < t.len() && t[j].record.node_id@ == x);
        }
        if x == k {
            if t.len() > s.len() {
                assert(t[s.len() as int].record.node_id@ == x);
            } else {
                let i = choose|i: int| 0 <= i < s.len() && s[i].record.node_id@ == k && t == s.update(i, v);
                assert(t[i].record.node_id@ == x);
            }
        }
    }
    assert forall|x: Seq<char>| #[trigger] signed_map(t).dom().contains(x) implies signed_map(t)[x]
        == signed_map(s).insert(k, v)[x] by {
        let j = choose|j: int| 0 <= j < t.len() && t[j].record.node_id@ == x;
        lemma_signed_map_at(t, j);
        if x != k {
            assert(s[j] == t[j]);
            lemma_signed_map_at(s, j);
        }
    }
    assert(signed_map(t) =~= signed_map(s).insert(k, v));
}

/// Replacing the record at a node id's index, or appending a record with a
/// new node id, is an insertion into the map.
proof fn lemma_record_map_upsert(s: Seq<RelayRecord>, t: Seq<RelayRecord>, v: RelayRecord)
    requires
        record_ids_distinct(s),
        (exists|i: int| 0 <= i < s.len() && s[i].node_id@ == v.node_id@ && t == s.update(i, v))
            || ((forall|i: int| 0 <= i < s.len() ==> s[i].node_id@ != v.node_id@) && t == s.push(v)),
    ensures
        record_ids_distinct(t),
        record_map(t) == record_map(s).insert(v.node_id@, v),
{
    let k = v.node_id@;
    assert(record_ids_distinct(t));
    assert forall|x: Seq<char>| #[trigger] record_map(t).dom().contains(x) == record_map(s).insert(k, v).dom().contains(x) by {
        if record_map(t).dom().contains(x) {
            let j = choose|j: int| 0 <= j < t.len() && t[j].node_id@ == x;
            if x != k {
                assert(0 <= j < s.len() && s[j].node_id@ == x);
            }
        }
        if record_map(s).dom().contains(x) && x != k {
            let j = choose|j: int| 0 <= j < s.len() && s[j].node_id@ == x;
            assert(0 <= j < t.len() && t[j].node_id@ == x);
        }
        if x == k {
            if t.len() > s.len() {
                assert(t[s.len() as int].node_id@ == x);
            } else {
                let i = choose|i: int| 0 <= i < s.len() && s[i].node_id@ == k && t == s.update(i, v);
                assert(t[i].node_id@ == x);
            }
        }
    }
    assert forall|x: Seq<char>| #[trigger] record_map(t).dom().contains(x) implies record_map(t)[x]
        == record_map(s).insert(k, v)[x] by {
        let j = choose|j: int| 0 <= j < t.len() && t[j].node_id@ == x;
        lemma_record_map_at(t, j);
        if x != k {
            assert(s[j] == t[j]);
            lemma_record_map_at(s, j);
        }
    }
    assert(record_map(t) =~= record_map(s).insert(k, v));
}

/// Signed relay records keyed by node id, and, apart from them, records
/// added on an explicit local-development path that are never persisted.
pub struct DirectoryStore {
    signed_records: Vec<SignedRelayRecord>,
    development_unsigned_records: Vec<RelayRecord>,
}

impl DirectoryStore {
    #[verifier::type_invariant]
    spec fn ids_distinct(&self) -> bool {
        signed_ids_distinct(self.signed_records@) && record_ids_distinct(self.development_unsigned_records@)
    }

    /// The signed records by node id.
    pub closed spec fn signed_view(&self) -> Map<Seq<char>, SignedRelayRecord> {
        signed_map(self.signed_records@)
    }

    /// The development records by node id.
    pub closed spec fn unsigned_view(&self) -> Map<Seq<char>, RelayRecord> {
        record_map(self.development_unsigned_records@)
    }

    /// How many records the store holds, signed and development.
    pub closed spec fn record_count(&self) -> nat {
        self.signed_records@.len() + self.development_unsigned_records@.len()
    }

    /// The signed records in storage order.
    pub closed spec fn signed_seq(&self) -> Seq<SignedRelayRecord> {
        self.signed_records@
    }

    pub fn new() -> (r: Self)
        ensures
            r.signed_view() == Map::<Seq<char>, SignedRelayRecord>::empty(),
            r.unsigned_view() == Map::<Seq<char>, RelayRecord>::empty(),
            r.record_count() == 0,
    {
        let r = Self { signed_records: Vec::new(), development_unsigned_records: Vec::new() };
        assert(r.signed_view() =~= Map::<Seq<char>, SignedRelayRecord>::empty());
        assert(r.unsigned_view() =~= Map::<Seq<char>, RelayRecord>::empty());
        r
    }

    fn find_signed(&self, node_id: &str) -> (r: Option<usize>)
        ensures
            r matches Some(i) ==> i < self.signed_records@.len() && self.signed_records@[i as int].record.node_id@
                == node_id@,
            r is None ==> forall|i: int|
                0 <= i < self.signed_records@.len() ==> self.signed_records@[i].record.node_id@ != node_id@,
    {
        let mut i: usize = 0;
        while i < self.signed_records.len()
            invariant
                i <= self.signed_records@.len(),
                forall|j: int| 0 <= j < i ==> self.signed_records@[j].record.node_id@ != node_id@,
            decreases self.signed_records@.len() - i,
        {
            if str_eq(self.signed_records[i].record.node_id.as_str(), node_id) {
                return Some(i);
            }
            i = i + 1;
        }
        None
    }

    fn find_unsigned(&self, node_id: &str) -> (r: Option<usize>)
        ensures
            r matches Some(i) ==> i < self.development_unsigned_records@.len()
                && self.development_unsigned_records@[i as int].node_id@ == node_id@,
            r is None ==> forall|i: int|
                0 <= i < self.development_unsigned_records@.len() ==> self.development_unsigned_records@[i].node_id@
                    != node_id@,
    {
        let mut i: usize = 0;
        while i < self.development_unsigned_records.len()
            invariant
                i <= self.development_unsigned_records@.len(),
                forall|j: int| 0 <= j < i ==> self.development_unsigned_records@[j].node_id@ != node_id@,
            decreases self.development_unsigned_records@.len() - i,
        {
            if str_eq(self.development_unsigned_records[i].node_id.as_str(), node_id) {
                return Some(i);
            }
            i = i + 1;
        }
        None
    }

    /// Verifies a signed record at `now` and, if it passes, stores it under
    /// its node id (replacing any earlier one).
    pub fn upsert_signed(&mut self, signed: SignedRelayRecord, now_unix: u64, max_lifetime_seconds: u64) -> (r: Result<
        (),
        SignedRecordError,
    >)
        ensures
            r == signed_record_check(signed, now_unix, max_lifetime_seconds),
            r is Ok ==> final(self).signed_view() == old(self).signed_view().insert(signed.record.node_id@, signed),
            r is Err ==> final(self).signed_view() == old(self).signed_view(),
            final(self).unsigned_view() == old(self).unsigned_view(),
            final(self).has_development_records() == old(self).has_development_records(),
    {
        proof {
            use_type_invariant(&*self);
        }
        let checked = verify_record_at(&signed, now_unix, max_lifetime_seconds);
        if checked.is_err() {
            return checked;
        }
        proof {
            let u: () = checked->Ok_0;
            assert(u == ());
            assert(checked == Ok::<(), SignedRecordError>(u));
        }
        let ghost before = self.signed_records@;
        let found = self.find_signed(signed.record.node_id.as_str());
        let mut records: Vec<SignedRelayRecord> = Vec::new();
        std::mem::swap(&mut records, &mut self.signed_records);
        match found {
            Some(i) => {
                records.set(i, signed);
                proof {
                    assert(records@ == before.update(i as int, signed));
                    lemma_signed_map_upsert(before, records@, signed);
                }
            },
            None => {
                records.push(signed);
                proof {
                    lemma_signed_map_upsert(before, records@, signed);
                }
            },
        }
        self.signed_records = records;
        Ok(())
    }

    /// Stores a development record under its node id (replacing any earlier
    /// one); such records are never persisted.
    pub(crate) fn upsert_unsigned_for_local_development_only(&mut self, record: RelayRecord)
        ensures
            final(self).unsigned_view() == old(self).unsigned_view().insert(record.node_id@, record),
            final(self).signed_view() == old(self).signed_view(),
    {
        proof {
            use_type_invariant(&*self);
        }
        let ghost before = self.development_unsigned_records@;
        let found = self.find_unsigned(record.node_id.as_str());
        let mut records: Vec<RelayRecord> = Vec::new();
        std::mem::swap(&mut records, &mut self.development_unsigned_records);
        match found {
            Some(i) => {
                records.set(i, record);
                proof {
                    assert(records@ == before.update(i as int, record));
                    lemma_record_map_upsert(before, records@, record);
                }
            },
            None => {
                records.push(record);
                proof {
                    lemma_record_map_upsert(before, records@, record);
                }
            },
        }
        self.development_unsigned_records = records;
    }

    /// The live descriptor of a node: the signed record's if there is one,
    /// else a development record's.
    pub fn get(&self, node_id: &str, now_unix: u64) -> (r: Option<&RelayRecord>)
        ensures
            match r {
                Some(x) => lookup(self.signed_view(), self.unsigned_view(), node_id@, now_unix) == Some(*x),
                None => lookup(self.signed_view(), self.unsigned_view(), node_id@, now_unix) is None,
            },
    {
        proof {
            use_type_invariant(self);
        }
        match self.find_signed(node_id) {
            Some(i) => {
                proof {
                    lemma_signed_map_at(self.signed_records@, i as int);
                }
                let rec = &self.signed_records[i].record;
                if rec.expires_at_unix > now_unix {
                    Some(rec)
                } else {
                    None
                }
            },
            None => {
                assert(!self.signed_view().dom().contains(node_id@));
                match self.find_unsigned(node_id) {
                    Some(j) => {
                        proof {
                            lemma_record_map_at(self.development_unsigned_records@, j as int);
                        }
                        let rec = &self.development_unsigned_records[j];
                        if rec.expires_at_unix > now_unix {
                            Some(rec)
                        } else {
                            None
                        }
                    },
                    None => {
                        assert(!self.unsigned_view().dom().contains(node_id@));
                        None
                    },
                }
            },
        }
    }

    /// The live signed record of a node.
    pub fn get_signed(&self, node_id: &str, now_unix: u64) -> (r: Option<&SignedRelayRecord>)
        ensures
            match r {
                Some(x) => self.signed_view().dom().contains(node_id@) && self.signed_view()[node_id@] == *x
                    && x.record.expires_at_unix > now_unix,
                None => !(self.signed_view().dom().contains(node_id@) && self.signed_view()[node_id@].record.expires_at_unix
                    > now_unix),
            },
    {
        proof {
            use_type_invariant(self);
        }
        match self.find_signed(node_id) {
            Some(i) => {
                proof {
                    lemma_signed_map_at(self.signed_records@, i as int);
                }
                let signed = &self.signed_records[i];
                if signed.record.expires_at_unix > now_unix {
                    Some(signed)
                } else {
                    None
                }
            },
            None => {
                assert(!self.signed_view().dom().contains(node_id@));
                None
            },
        }
    }

    /// Drops every record, signed or development, that has expired at `now`.
    pub fn prune_expired(&mut self, now_unix: u64)
        ensures
            final(self).signed_view() == live_signed(old(self).signed_view(), now_unix),
            final(self).unsigned_view() == live_records(old(self).unsigned_view(), now_unix),
    {
        proof {
            use_type_invariant(&*self);
        }
        let ghost old_signed = self.signed_records@;
        let ghost old_unsigned = self.development_unsigned_records@;
        let mut signed_rest: Vec<SignedRelayRecord> = Vec::new();
        std::mem::swap(&mut signed_rest, &mut self.signed_records);
        let kept = keep_live_signed(signed_rest, now_unix);
        self.signed_records = kept;
        let mut unsigned_rest: Vec<RelayRecord> = Vec::new();
        std::mem::swap(&mut unsigned_rest, &mut self.development_unsigned_records);
        let kept_unsigned = keep_live_records(unsigned_rest, now_unix);
        self.development_unsigned_records = kept_unsigned;
    }

    /// The number of records, signed and development.
    pub fn len(&self) -> (r: usize)
        ensures
            r == if self.record_count() <= usize::MAX { self.record_count() } else { usize::MAX as nat },
    {
        match self.signed_records.len().checked_add(self.development_unsigned_records.len()) {
            Some(n) => n,
            None => usize::MAX,
        }
    }

    /// The signed records, in storage order.
    pub fn signed_records(&self) -> (r: &Vec<SignedRelayRecord>)
        ensures
            r@ == self.signed_seq(),
    {
        &self.signed_records
    }

    pub fn is_empty(&self) -> (r: bool)
        ensures
            r == (self.record_count() == 0),
    {
        self.signed_records.len() == 0 && self.development_unsigned_records.len() == 0
    }
}

impl Default for DirectoryStore {
    fn default() -> (r: Self)
        ensures
            r.signed_view() == Map::<Seq<char>, SignedRelayRecord>::empty(),
            r.unsigned_view() == Map::<Seq<char>, RelayRecord>::empty(),
            r.record_count() == 0,
    {
        Self::new()
    }
}

/// The live records of a vector, by node id.
fn keep_live_signed(records: Vec<SignedRelayRecord>, now_unix: u64) -> (r: Vec<SignedRelayRecord>)
    requires
        signed_ids_distinct(records@),
    ensures
        signed_ids_distinct(r@),
        signed_map(r@) == live_signed(signed_map(records@), now_unix),
{
    let ghost all = records@;
    let mut rest = records;
    let mut kept: Vec<SignedRelayRecord> = Vec::new();
    let ghost mut m: int = 0;
    proof {
        assert(signed_map(kept@) =~= live_signed(signed_map(all.subrange(0, 0)), now_unix));
    }
    while rest.len() > 0
        invariant
            0 <= m <= all.len(),
            rest@ == all.subrange(m, all.len() as int),
            signed_ids_distinct(all),
            signed_ids_distinct(kept@),
            forall|j: int| 0 <= j < kept@.len() ==> exists|p: int| 0 <= p < m && #[trigger] all[p] == #[trigger] kept@[j],
            signed_map(kept@) == live_signed(signed_map(all.subrange(0, m)), now_unix),
        decreases rest@.len(),
    {
        let x = rest.remove(0);
        proof {
            assert(x == all[m]);
            let done = all.subrange(0, m);
            let done2 = all.subrange(0, m + 1);
            assert(done2 == done.push(x));
            assert(signed_ids_distinct(done));
            assert forall|i: int| 0 <= i < done.len() implies done[i].record.node_id@ != x.record.node_id@ by {
                assert(done[i] == all[i]);
            }
            lemma_signed_map_upsert(done, done2, x);
        }
        let ghost prev = kept@;
        if x.record.expires_at_unix > now_unix {
            proof {
                assert forall|i: int| 0 <= i < prev.len() implies prev[i].record.node_id@ != x.record.node_id@ by {
                    let p = choose|p: int| 0 <= p < m && #[trigger] all[p] == prev[i];
                }
            }
            kept.push(x);
            proof {
                lemma_signed_map_upsert(prev, kept@, x);
                assert(signed_map(kept@) =~= live_signed(signed_map(all.subrange(0, m + 1)), now_unix));
            }
        } else {
            proof {
                assert(signed_map(kept@) =~= live_signed(signed_map(all.subrange(0, m + 1)), now_unix));
            }
        }
        proof {
            m = m + 1;
            assert(rest@ =~= all.subrange(m, all.len() as int));
        }
    }
    proof {
        assert(all.subrange(0, m) =~= all);
    }
    kept
}

/// The live records of a vector, by node id.
fn keep_live_records(records: Vec<RelayRecord>, now_unix: u64) -> (r: Vec<RelayRecord>)
    requires
        record_ids_distinct(records@),
    ensures
        record_ids_distinct(r@),
        record_map(r@) == live_records(record_map(records@), now_unix),
{
    let ghost all = records@;
    let mut rest = records;
    let mut kept: Vec<RelayRecord> = Vec::new();
    let ghost mut m: int = 0;
    proof {
        assert(record_map(kept@) =~= live_records(record_map(all.subrange(0, 0)), now_unix));
    }
    while rest.len() > 0
        invariant
            0 <= m <= all.len(),
            rest@ == all.subrange(m, all.len() as int),
            record_ids_distinct(all),
            record_ids_distinct(kept@),
            forall|j: int| 0 <= j < kept@.len() ==> exists|p: int| 0 <= p < m && #[trigger] all[p] == #[trigger] kept@[j],
            record_map(kept@) == live_records(record_map(all.subrange(0, m)), now_unix),
        decreases rest@.len(),
    {
        let x = rest.remove(0);
        proof {
            assert(x == all[m]);
            let done = all.subrange(0, m);
            let done2 = all.subrange(0, m + 1);
            assert(done2 == done.push(x));
            assert(record_ids_distinct(done));
            assert forall|i: int| 0 <= i < done.len() implies done[i].node_id@ != x.node_id@ by {
                assert(done[i] == all[i]);
            }
            lemma_record_map_upsert(done, done2, x);
        }
        let ghost prev = kept@;
        if x.expires_at_unix > now_unix {
            proof {
                assert forall|i: int| 0 <= i < prev.len() implies prev[i].node_id@ != x.node_id@ by {
                    let p = choose|p: int| 0 <= p < m && #[trigger] all[p] == prev[i];
                }
            }
            kept.push(x);
            proof {
                lemma_record_map_upsert(prev, kept@, x);
                assert(record_map(kept@) =~= live_records(record_map(all.subrange(0, m + 1)), now_unix));
            }
        } else {
            proof {
                assert(record_map(kept@) =~= live_records(record_map(all.subrange(0, m + 1)), now_unix));
            }
        }
        proof {
            m = m + 1;
            assert(rest@ =~= all.subrange(m, all.len() as int));
        }
    }
    proof {
        assert(all.subrange(0, m) =~= all);
    }
    kept
}

/// `"CHDIR002"` as bytes.
pub open spec fn store_magic_v2() -> Seq<u8> {
    seq![
        0x43u8, 0x48, 0x44, 0x49, 0x52, 0x30, 0x30, 0x32,
    ]
}

fn store_magic_v2_bytes() -> (r: Vec<u8>)
    ensures
        r@ == store_magic_v2(),
{
    let r: Vec<u8> = vec![
        0x43u8, 0x48, 0x44, 0x49, 0x52, 0x30, 0x30, 0x32,
    ];
    assert(r@ =~= store_magic_v2());
    r
}

/// `"CHDIR001"` as bytes.
pub open spec fn store_magic_v1() -> Seq<u8> {
    seq![
        0x43u8, 0x48, 0x44, 0x49, 0x52, 0x30, 0x30, 0x31,
    ]
}

fn store_magic_v1_bytes() -> (r: Vec<u8>)
    ensures
        r@ == store_magic_v1(),
{
    let r: Vec<u8> = vec![
        0x43u8, 0x48, 0x44, 0x49, 0x52, 0x30, 0x30, 0x31,
    ];
    assert(r@ =~= store_magic_v1());
    r
}

/// `"failed to fill whole buffer"` as bytes.
pub open spec fn eof_message() -> Seq<u8> {
    seq![
        0x66u8, 0x61, 0x69, 0x6c, 0x65, 0x64, 0x20, 0x74, 0x6f, 0x20, 0x66, 0x69, 0x6c, 0x6c, 0x20,
        0x77, 0x68, 0x6f, 0x6c, 0x65, 0x20, 0x62, 0x75, 0x66, 0x66, 0x65, 0x72,
    ]
}

fn eof_message_bytes() -> (r: Vec<u8>)
    ensures
        r@ == eof_message(),
{
    let r: Vec<u8> = vec![
        0x66u8, 0x61, 0x69, 0x6c, 0x65, 0x64, 0x20, 0x74, 0x6f, 0x20, 0x66, 0x69, 0x6c, 0x6c, 0x20,
        0x77, 0x68, 0x6f, 0x6c, 0x65, 0x20, 0x62, 0x75, 0x66, 0x66, 0x65, 0x72,
    ];
    assert(r@ =~= eof_message());
    r
}


/// The longest string field a store file may hold, in bytes.
pub const MAX_DIRECTORY_STRING_BYTES: usize = 4096;

/// A string field of the store file: its UTF-8 length (32-bit, big-endian)
/// and bytes.
pub open spec fn str_field(s: Seq<char>) -> Seq<u8> {
    u32_be(encode_utf8(s).len() as u32) + encode_utf8(s)
}

/// A signed record in the store file: node id, address, X25519 key, ML-KEM
/// key hash, expiry, signer, verifying key, signature.
pub open spec fn view_bytes(v: RecordView) -> Seq<u8> {
    str_field(v.node_id) + str_field(v.address) + v.x25519_public + v.ml_kem_public_hash + u64_be(v.expires_at_unix)
        + str_field(v.signer_id) + v.verifying_key + v.signature
}

pub open spec fn views_bytes(vs: Seq<RecordView>) -> Seq<u8>
    decreases vs.len(),
{
    if vs.len() == 0 {
        seq![]
    } else {
        views_bytes(vs.drop_last()) + view_bytes(vs.last())
    }
}

/// The store file: the version-2 magic, the record count (32-bit,
/// big-endian) and the records.
pub open spec fn store_file_bytes(vs: Seq<RecordView>) -> Seq<u8> {
    store_magic_v2() + u32_be(vs.len() as u32) + views_bytes(vs)
}

/// Whether a record's strings fit the 32-bit length fields.
pub open spec fn strings_fit(v: RecordView) -> bool {
    &&& encode_utf8(v.node_id).len() <= u32::MAX
    &&& encode_utf8(v.address).len() <= u32::MAX
    &&& encode_utf8(v.signer_id).len() <= u32::MAX
}

/// The records of a sequence as plain values.
pub open spec fn views_of(s: Seq<SignedRelayRecord>) -> Seq<RecordView> {
    Seq::new(s.len(), |i: int| record_view(s[i]))
}

fn push_str_field(out: &mut Vec<u8>, s: &str) -> (r: bool)
    ensures
        r == (encode_utf8(s@).len() <= u32::MAX),
        r ==> final(out)@ == old(out)@ + str_field(s@),
{
    let b = s.as_bytes();
    if b.len() > 0xffff_ffffusize {
        return false;
    }
    push_u32_be(out, b.len() as u32);
    push_all(out, b);
    assert(final(out)@ =~= old(out)@ + str_field(s@));
    true
}

fn push_record(out: &mut Vec<u8>, signed: &SignedRelayRecord) -> (r: bool)
    ensures
        r == strings_fit(record_view(*signed)),
        r ==> final(out)@ == old(out)@ + view_bytes(record_view(*signed)),
{
    let ghost start = out@;
    if !push_str_field(out, signed.record.node_id.as_str()) {
        return false;
    }
    if !push_str_field(out, signed.record.address.as_str()) {
        return false;
    }
    push_all(out, &signed.record.x25519_public);
    push_all(out, &signed.record.ml_kem_public_hash);
    push_u64_be(out, signed.record.expires_at_unix);
    if !push_str_field(out, signed.signer_id.as_str()) {
        return false;
    }
    push_all(out, &signed.verifying_key);
    push_all(out, &signed.signature);
    assert(out@ =~= start + view_bytes(record_view(*signed)));
    true
}

impl DirectoryStore {
    /// Whether development records are held.
    pub closed spec fn has_development_records(&self) -> bool {
        self.development_unsigned_records@.len() > 0
    }

    /// The bytes of the store file. Development records are never
    /// persisted; a string too long for its length field is refused.
    pub fn to_file_bytes(&self) -> (r: Result<Vec<u8>, DirectoryStoreError>)
        ensures
            signed_ids_distinct(self.signed_seq()),
            self.signed_view() == signed_map(self.signed_seq()),
            self.has_development_records() ==> r == Err::<Vec<u8>, DirectoryStoreError>(
                DirectoryStoreError::UnsignedDevelopmentRecordsCannotPersist,
            ),
            !self.has_development_records() && (forall|i: int|
                0 <= i < self.signed_seq().len() ==> #[trigger] strings_fit(record_view(self.signed_seq()[i])))
                ==> (r matches Ok(b) && b@ == store_file_bytes(views_of(self.signed_seq()))),
            !self.has_development_records() && !(forall|i: int|
                0 <= i < self.signed_seq().len() ==> #[trigger] strings_fit(record_view(self.signed_seq()[i])))
                ==> r == Err::<Vec<u8>, DirectoryStoreError>(DirectoryStoreError::InvalidRecordEncoding),
    {
        proof {
            use_type_invariant(self);
        }
        if self.development_unsigned_records.len() > 0 {
            return Err(DirectoryStoreError::UnsignedDevelopmentRecordsCannotPersist);
        }
        let ghost views = views_of(self.signed_records@);
        let mut out = store_magic_v2_bytes();
        push_u32_be(&mut out, self.signed_records.len() as u32);
        let mut i: usize = 0;
        while i < self.signed_records.len()
            invariant
                i <= self.signed_records@.len(),
                self.development_unsigned_records@.len() == 0,
                signed_ids_distinct(self.signed_records@),
                views == views_of(self.signed_records@),
                out@ == store_magic_v2() + u32_be(self.signed_records@.len() as u32) + views_bytes(views.take(i as int)),
                forall|j: int| 0 <= j < i ==> #[trigger] strings_fit(record_view(self.signed_records@[j])),
            decreases self.signed_records@.len() - i,
        {
            if !push_record(&mut out, &self.signed_records[i]) {
                assert(!strings_fit(record_view(self.signed_seq()[i as int])));
                return Err(DirectoryStoreError::InvalidRecordEncoding);
            }
            proof {
                assert(views.take(i + 1).drop_last() =~= views.take(i as int));
                assert(views.take(i + 1).last() == record_view(self.signed_records@[i as int]));
            }
            i = i + 1;
        }
        proof {
            assert(views.take(i as int) =~= views);
        }
        Ok(out)
    }
}

/// Why a store file could not be read: it ended early (std's short-read I/O
/// error), or it was refused with an error.
pub enum LoadFault {
    Truncated,
    Refused(DirectoryStoreError),
}

/// A string field at `pos`: at most 4096 bytes of UTF-8.
pub open spec fn read_str_at(b: Seq<u8>, pos: int) -> Result<(Seq<char>, int), LoadFault> {
    if b.len() - pos < 4 {
        Err(LoadFault::Truncated)
    } else {
        let n = u32_at(b, pos) as int;
        if n > MAX_DIRECTORY_STRING_BYTES {
            Err(LoadFault::Refused(DirectoryStoreError::InvalidRecordEncoding))
        } else if b.len() - (pos + 4) < n {
            Err(LoadFault::Truncated)
        } else if !valid_utf8(b.subrange(pos + 4, pos + 4 + n)) {
            Err(LoadFault::Refused(DirectoryStoreError::InvalidRecordEncoding))
        } else {
            Ok((decode_utf8(b.subrange(pos + 4, pos + 4 + n)), pos + 4 + n))
        }
    }
}

/// The fixed-size fields after the node id and address: X25519 key, ML-KEM
/// key hash, expiry.
pub open spec fn read_keys_at(b: Seq<u8>, pos: int) -> Result<(Seq<u8>, Seq<u8>, u64, int), LoadFault> {
    if b.len() - pos < 72 {
        Err(LoadFault::Truncated)
    } else {
        Ok((b.subrange(pos, pos + 32), b.subrange(pos + 32, pos + 64), u64_at(b, pos + 64), pos + 72))
    }
}

/// A signed record at `pos`, and where the next one starts.
#[verifier::opaque]
pub open spec fn read_record_at(b: Seq<u8>, pos: int) -> Result<(RecordView, int), LoadFault> {
    match read_str_at(b, pos) {
        Err(e) => Err(e),
        Ok((node_id, p1)) => match read_str_at(b, p1) {
            Err(e) => Err(e),
            Ok((address, p2)) => match read_keys_at(b, p2) {
                Err(e) => Err(e),
                Ok((x, mk, exp, p3)) => match read_str_at(b, p3) {
                    Err(e) => Err(e),
                    Ok((signer_id, p4)) => if b.len() - p4 < 96 {
                        Err(LoadFault::Truncated)
                    } else {
                        Ok(
                            (
                                RecordView {
                                    node_id,
                                    address,
                                    x25519_public: x,
                                    ml_kem_public_hash: mk,
                                    expires_at_unix: exp,
                                    signer_id,
                                    verifying_key: b.subrange(p4, p4 + 32),
                                    signature: b.subrange(p4 + 32, p4 + 96),
                                },
                                p4 + 96,
                            ),
                        )
                    },
                },
            },
        },
    }
}

/// Reads `remaining` records from `pos`, verifying each at `now` and
/// storing it under its node id in `acc`.
pub open spec fn load_records(
    b: Seq<u8>,
    pos: int,
    remaining: nat,
    acc: Map<Seq<char>, RecordView>,
    now_unix: u64,
    max_lifetime_seconds: u64,
) -> Result<(Map<Seq<char>, RecordView>, int), LoadFault>
    decreases remaining,
{
    if remaining == 0 {
        Ok((acc, pos))
    } else {
        match read_record_at(b, pos) {
            Err(e) => Err(e),
            Ok((v, next)) => if view_check(v, now_unix, max_lifetime_seconds) is Err {
                Err(LoadFault::Refused(DirectoryStoreError::SignedRecord(view_check(v, now_unix, max_lifetime_seconds)->Err_0)))
            } else {
                load_records(b, next, (remaining - 1) as nat, acc.insert(v.node_id, v), now_unix, max_lifetime_seconds)
            },
        }
    }
}

/// What loading a store file gives: the legacy format and foreign magic
/// are refused, every record must verify, and nothing may follow the last.
pub open spec fn load_file(b: Seq<u8>, now_unix: u64, max_lifetime_seconds: u64) -> Result<Map<Seq<char>, RecordView>, LoadFault> {
    if b.len() < 8 {
        Err(LoadFault::Truncated)
    } else if b.subrange(0, 8) == store_magic_v1() {
        Err(LoadFault::Refused(DirectoryStoreError::LegacyStrippedFormatRejected))
    } else if b.subrange(0, 8) != store_magic_v2() {
        Err(LoadFault::Refused(DirectoryStoreError::InvalidMagic))
    } else if b.len() < 12 {
        Err(LoadFault::Truncated)
    } else {
        match load_records(b, 12, u32_at(b, 8) as nat, Map::empty(), now_unix, max_lifetime_seconds) {
            Err(e) => Err(e),
            Ok((m, end)) => if end < b.len() {
                Err(LoadFault::Refused(DirectoryStoreError::TrailingData))
            } else {
                Ok(m)
            },
        }
    }
}

fn read_str(b: &[u8], pos: usize) -> (r: Result<(String, usize), LoadFault>)
    requires
        pos <= b@.len(),
    ensures
        match read_str_at(b@, pos as int) {
            Ok((s, p)) => r matches Ok((t, q)) && t@ == s && q == p,
            Err(e) => r == Err::<(String, usize), LoadFault>(e),
        },
{
    if b.len() - pos < 4 {
        return Err(LoadFault::Truncated);
    }
    let n = read_u32_be(b, pos) as usize;
    if n > MAX_DIRECTORY_STRING_BYTES {
        return Err(LoadFault::Refused(DirectoryStoreError::InvalidRecordEncoding));
    }
    if b.len() - (pos + 4) < n {
        return Err(LoadFault::Truncated);
    }
    let bytes = copy_range(b, pos + 4, pos + 4 + n);
    match string_from_utf8(bytes) {
        Ok(s) => Ok((s, pos + 4 + n)),
        Err(_) => Err(LoadFault::Refused(DirectoryStoreError::InvalidRecordEncoding)),
    }
}

fn read_record(b: &[u8], pos: usize) -> (r: Result<(SignedRelayRecord, usize), LoadFault>)
    requires
        pos <= b@.len(),
    ensures
        match read_record_at(b@, pos as int) {
            Ok((v, p)) => r matches Ok((s, q)) && record_view(s) == v && q == p,
            Err(e) => r == Err::<(SignedRelayRecord, usize), LoadFault>(e),
        },
        r matches Ok((s, q)) ==> q <= b@.len(),
{
    reveal(read_record_at);
    let (node_id, p1) = match read_str(b, pos) {
        Ok(x) => x,
        Err(e) => return Err(e),
    };
    let (address, p2) = match read_str(b, p1) {
        Ok(x) => x,
        Err(e) => return Err(e),
    };
    if b.len() - p2 < 72 {
        return Err(LoadFault::Truncated);
    }
    let mut x25519_public = [0u8; 32];
    fill_array(&mut x25519_public, b, p2);
    let mut ml_kem_public_hash = [0u8; 32];
    fill_array(&mut ml_kem_public_hash, b, p2 + 32);
    let expires_at_unix = read_u64_be(b, p2 + 64);
    let p3 = p2 + 72;
    let (signer_id, p4) = match read_str(b, p3) {
        Ok(x) => x,
        Err(e) => return Err(e),
    };
    if b.len() - p4 < 96 {
        return Err(LoadFault::Truncated);
    }
    let mut verifying_key = [0u8; 32];
    fill_array(&mut verifying_key, b, p4);
    let mut signature = [0u8; 64];
    fill_array(&mut signature, b, p4 + 32);
    let signed = SignedRelayRecord {
        record: RelayRecord { node_id, address, x25519_public, ml_kem_public_hash, expires_at_unix },
        signer_id,
        verifying_key,
        signature,
    };
    Ok((signed, p4 + 96))
}

impl DirectoryStore {
    /// The signed records by node id, as plain values.
    pub open spec fn model_view(&self) -> Map<Seq<char>, RecordView> {
        Map::new(
            |k: Seq<char>| self.signed_view().dom().contains(k),
            |k: Seq<char>| record_view(self.signed_view()[k]),
        )
    }

    /// Reads a store file's bytes: only version-2 files of signed records
    /// are accepted, and each record is verified again at `now`.
    pub fn from_file_bytes(bytes: &[u8], now_unix: u64, max_lifetime_seconds: u64) -> (r: Result<
        DirectoryStore,
        DirectoryStoreError,
    >)
        ensures
            match load_file(bytes@, now_unix, max_lifetime_seconds) {
                Ok(m) => r matches Ok(st) && st.model_view() == m && !st.has_development_records(),
                Err(LoadFault::Truncated) => r matches Err(DirectoryStoreError::Io(msg)) && msg@ == ascii_chars(
                    eof_message(),
                ),
                Err(LoadFault::Refused(e)) => r == Err::<DirectoryStore, DirectoryStoreError>(e),
            },
    {
        match Self::load(bytes, now_unix, max_lifetime_seconds) {
            Ok(st) => Ok(st),
            Err(LoadFault::Truncated) => {
                let m = eof_message_bytes();
                proof {
                    assert(crate::text::is_ascii_bytes(m@));
                }
                Err(DirectoryStoreError::Io(string_from_ascii(m)))
            },
            Err(LoadFault::Refused(e)) => Err(e),
        }
    }

    #[verifier::rlimit(40)]
    fn load(bytes: &[u8], now_unix: u64, max_lifetime_seconds: u64) -> (r: Result<DirectoryStore, LoadFault>)
        ensures
            match load_file(bytes@, now_unix, max_lifetime_seconds) {
                Ok(m) => r matches Ok(st) && st.model_view() == m && !st.has_development_records(),
                Err(e) => r == Err::<DirectoryStore, LoadFault>(e),
            },
    {
        if bytes.len() < 8 {
            return Err(LoadFault::Truncated);
        }
        let magic = copy_range(bytes, 0, 8);
        let v1 = store_magic_v1_bytes();
        if crate::bytes::bytes_equal(magic.as_slice(), v1.as_slice()) {
            return Err(LoadFault::Refused(DirectoryStoreError::LegacyStrippedFormatRejected));
        }
        let v2 = store_magic_v2_bytes();
        if !crate::bytes::bytes_equal(magic.as_slice(), v2.as_slice()) {
            return Err(LoadFault::Refused(DirectoryStoreError::InvalidMagic));
        }
        if bytes.len() < 12 {
            return Err(LoadFault::Truncated);
        }
        let count = read_u32_be(bytes, 8);
        let mut store = Self::new();
        let mut pos: usize = 12;
        let mut i: u32 = 0;
        proof {
            assert(store.model_view() =~= Map::<Seq<char>, RecordView>::empty());
        }
        while i < count
            invariant
                i <= count,
                count == u32_at(bytes@, 8),
                bytes@.len() >= 12,
                bytes@.subrange(0, 8) != store_magic_v1(),
                bytes@.subrange(0, 8) == store_magic_v2(),
                pos <= bytes@.len(),
                !store.has_development_records(),
                load_records(bytes@, 12, count as nat, Map::empty(), now_unix, max_lifetime_seconds) == load_records(
                    bytes@,
                    pos as int,
                    (count - i) as nat,
                    store.model_view(),
                    now_unix,
                    max_lifetime_seconds,
                ),
            decreases count - i,
        {
            let ghost before = store.model_view();
            let (signed, next) = match read_record(bytes, pos) {
                Ok(x) => x,
                Err(e) => return Err(e),
            };
            let ghost v = record_view(signed);
            match store.upsert_signed(signed, now_unix, max_lifetime_seconds) {
                Ok(()) => {},
                Err(e) => return Err(LoadFault::Refused(DirectoryStoreError::SignedRecord(e))),
            }
            proof {
                assert(store.model_view() =~= before.insert(v.node_id, v));
            }
            pos = next;
            i = i + 1;
        }
        if pos < bytes.len() {
            return Err(LoadFault::Refused(DirectoryStoreError::TrailingData));
        }
        Ok(store)
    }
}

/// The map a sequence of records gives when each is stored under its node
/// id in order.
pub open spec fn fold_views(vs: Seq<RecordView>) -> Map<Seq<char>, RecordView>
    decreases vs.len(),
{
    if vs.len() == 0 {
        Map::empty()
    } else {
        fold_views(vs.drop_last()).insert(vs.last().node_id, vs.last())
    }
}

/// Whether a record fits the store file's limits and has the field sizes of
/// a signed record.
pub open spec fn storable(v: RecordView) -> bool {
    &&& encode_utf8(v.node_id).len() <= MAX_DIRECTORY_STRING_BYTES
    &&& encode_utf8(v.address).len() <= MAX_DIRECTORY_STRING_BYTES
    &&& encode_utf8(v.signer_id).len() <= MAX_DIRECTORY_STRING_BYTES
    &&& v.x25519_public.len() == 32
    &&& v.ml_kem_public_hash.len() == 32
    &&& v.verifying_key.len() == 32
    &&& v.signature.len() == 64
}

proof fn lemma_u32_at_concat(p: Seq<u8>, v: u32, rest: Seq<u8>)
    ensures
        u32_at(p + u32_be(v) + rest, p.len() as int) == v,
{
    let b = p + u32_be(v) + rest;
    crate::bytes::lemma_u32_round_trip(v);
    assert(b[p.len() as int] == u32_be(v)[0]);
    assert(b[p.len() as int + 1] == u32_be(v)[1]);
    assert(b[p.len() as int + 2] == u32_be(v)[2]);
    assert(b[p.len() as int + 3] == u32_be(v)[3]);
}

proof fn lemma_u64_at_concat(p: Seq<u8>, v: u64, rest: Seq<u8>)
    ensures
        u64_at(p + u64_be(v) + rest, p.len() as int) == v,
{
    let b = p + u64_be(v) + rest;
    crate::bytes::lemma_u64_round_trip(v);
    assert forall|i: int| 0 <= i < 8 implies b[p.len() as int + i] == u64_be(v)[i] by {}
    assert(b[p.len() as int + 0] == u64_be(v)[0]);
}

proof fn lemma_read_str(p: Seq<u8>, s: Seq<char>, rest: Seq<u8>)
    requires
        encode_utf8(s).len() <= MAX_DIRECTORY_STRING_BYTES,
    ensures
        read_str_at(p + str_field(s) + rest, p.len() as int) == Ok::<(Seq<char>, int), LoadFault>(
            (s, p.len() as int + 4 + encode_utf8(s).len()),
        ),
{
    broadcast use vstd::utf8::encode_utf8_valid_utf8, vstd::utf8::encode_utf8_decode_utf8;

    let e = encode_utf8(s);
    let n = e.len();
    let b = p + str_field(s) + rest;
    assert(b =~= p + u32_be(n as u32) + (e + rest));
    lemma_u32_at_concat(p, n as u32, e + rest);
    assert(b.subrange(p.len() as int + 4, p.len() as int + 4 + n) =~= e);
}

#[verifier::rlimit(100)]
#[verifier::spinoff_prover]
proof fn lemma_read_record(p: Seq<u8>, v: RecordView, rest: Seq<u8>)
    requires
        storable(v),
    ensures
        read_record_at(p + view_bytes(v) + rest, p.len() as int) == Ok::<(RecordView, int), LoadFault>(
            (v, p.len() as int + view_bytes(v).len()),
        ),
{
    reveal(read_record_at);
    let b = p + view_bytes(v) + rest;
    let tail4 = v.verifying_key + v.signature + rest;
    let tail3 = str_field(v.signer_id) + tail4;
    let keys = v.x25519_public + v.ml_kem_public_hash + u64_be(v.expires_at_unix);
    let tail2 = keys + tail3;
    let tail1 = str_field(v.address) + tail2;
    assert(b =~= p + str_field(v.node_id) + tail1);
    lemma_read_str(p, v.node_id, tail1);
    let p1 = p + str_field(v.node_id);
    assert(b =~= p1 + str_field(v.address) + tail2);
    lemma_read_str(p1, v.address, tail2);
    let p2 = p1 + str_field(v.address);
    assert(b.subrange(p2.len() as int, p2.len() as int + 32) =~= v.x25519_public);
    assert(b.subrange(p2.len() as int + 32, p2.len() as int + 64) =~= v.ml_kem_public_hash);
    assert(b =~= (p2 + v.x25519_public + v.ml_kem_public_hash) + u64_be(v.expires_at_unix) + tail3);
    lemma_u64_at_concat(p2 + v.x25519_public + v.ml_kem_public_hash, v.expires_at_unix, tail3);
    let p3 = p2 + keys;
    assert(b =~= p3 + str_field(v.signer_id) + tail4);
    lemma_read_str(p3, v.signer_id, tail4);
    let p4 = p3 + str_field(v.signer_id);
    assert(b.subrange(p4.len() as int, p4.len() as int + 32) =~= v.verifying_key);
    assert(b.subrange(p4.len() as int + 32, p4.len() as int + 96) =~= v.signature);
    assert(p4.len() as int + 96 == p.len() as int + view_bytes(v).len());
}

proof fn lemma_views_bytes_split(vs: Seq<RecordView>, k: int)
    requires
        0 <= k <= vs.len(),
    ensures
        views_bytes(vs) == views_bytes(vs.take(k)) + views_bytes(vs.skip(k)),
    decreases vs.len(),
{
    if k == vs.len() {
        assert(vs.take(k) =~= vs);
        assert(vs.skip(k) =~= Seq::<RecordView>::empty());
        assert(views_bytes(vs) + seq![] =~= views_bytes(vs));
    } else {
        let dl = vs.drop_last();
        lemma_views_bytes_split(dl, k);
        assert(dl.take(k) =~= vs.take(k));
        assert(vs.skip(k).drop_last() =~= dl.skip(k));
        assert(vs.skip(k).last() == vs.last());
        assert(views_bytes(vs) =~= views_bytes(vs.take(k)) + views_bytes(vs.skip(k)));
    }
}

proof fn lemma_views_bytes_first(vs: Seq<RecordView>, k: int)
    requires
        0 <= k < vs.len(),
    ensures
        views_bytes(vs.skip(k)) == view_bytes(vs[k]) + views_bytes(vs.skip(k + 1)),
{
    let t = vs.skip(k);
    lemma_views_bytes_split(t, 1);
    assert(t.take(1).drop_last() =~= Seq::<RecordView>::empty());
    assert(t.take(1).last() == vs[k]);
    assert(views_bytes(Seq::<RecordView>::empty()) == Seq::<u8>::empty());
    assert(views_bytes(t.take(1)) =~= view_bytes(vs[k]));
    assert(t.skip(1) =~= vs.skip(k + 1));
}

#[verifier::rlimit(100)]
#[verifier::spinoff_prover]
proof fn lemma_load_from(vs: Seq<RecordView>, k: int, now_unix: u64, max_lifetime_seconds: u64)
    requires
        0 <= k <= vs.len(),
        vs.len() <= u32::MAX,
        forall|i: int| 0 <= i < vs.len() ==> #[trigger] storable(vs[i]),
        forall|i: int| 0 <= i < vs.len() ==> #[trigger] view_check(vs[i], now_unix, max_lifetime_seconds) is Ok,
    ensures
        load_records(
            store_file_bytes(vs),
            12 + views_bytes(vs.take(k)).len() as int,
            (vs.len() - k) as nat,
            fold_views(vs.take(k)),
            now_unix,
            max_lifetime_seconds,
        ) == Ok::<(Map<Seq<char>, RecordView>, int), LoadFault>((fold_views(vs), store_file_bytes(vs).len() as int)),
    decreases vs.len() - k,
{
    let b = store_file_bytes(vs);
    lemma_views_bytes_split(vs, k);
    if k == vs.len() {
        assert(vs.take(k) =~= vs);
        assert(vs.skip(k) =~= Seq::<RecordView>::empty());
    } else {
        lemma_views_bytes_first(vs, k);
        let pre = store_magic_v2() + u32_be(vs.len() as u32) + views_bytes(vs.take(k));
        let rest = views_bytes(vs.skip(k + 1));
        assert(b =~= pre + view_bytes(vs[k]) + rest);
        lemma_read_record(pre, vs[k], rest);
        assert(vs.take(k + 1).drop_last() =~= vs.take(k));
        assert(vs.take(k + 1).last() == vs[k]);
        lemma_views_bytes_split(vs.take(k + 1), k);
        assert(vs.take(k + 1).take(k) =~= vs.take(k));
        assert(vs.take(k + 1).skip(k) =~= seq![vs[k]]);
        assert(seq![vs[k]].drop_last() =~= Seq::<RecordView>::empty());
        assert(seq![vs[k]].last() == vs[k]);
        assert(views_bytes(Seq::<RecordView>::empty()) == Seq::<u8>::empty());
        assert(views_bytes(seq![vs[k]]) =~= view_bytes(vs[k]));
        lemma_load_from(vs, k + 1, now_unix, max_lifetime_seconds);
    }
}

/// A store file written from records that fit its limits and verify at
/// `now` loads back as those records, each stored under its node id in
/// order (a later record replaces an earlier one with the same id).
pub proof fn lemma_store_file_round_trip(vs: Seq<RecordView>, now_unix: u64, max_lifetime_seconds: u64)
    requires
        vs.len() <= u32::MAX,
        forall|i: int| 0 <= i < vs.len() ==> #[trigger] storable(vs[i]),
        forall|i: int| 0 <= i < vs.len() ==> #[trigger] view_check(vs[i], now_unix, max_lifetime_seconds) is Ok,
    ensures
        load_file(store_file_bytes(vs), now_unix, max_lifetime_seconds) == Ok::<Map<Seq<char>, RecordView>, LoadFault>(
            fold_views(vs),
        ),
{
    let b = store_file_bytes(vs);
    lemma_load_from(vs, 0, now_unix, max_lifetime_seconds);
    assert(vs.take(0) =~= Seq::<RecordView>::empty());
    assert(b.subrange(0, 8) =~= store_magic_v2());
    assert(store_magic_v2()[7] != store_magic_v1()[7]);
    assert(b =~= store_magic_v2() + u32_be(vs.len() as u32) + views_bytes(vs));
    lemma_u32_at_concat(store_magic_v2(), vs.len() as u32, views_bytes(vs));
    crate::bytes::lemma_u32_round_trip(vs.len() as u32);
}

/// The records of a sequence with distinct node ids, by node id, as plain
/// values.
pub open spec fn model_of(s: Seq<SignedRelayRecord>) -> Map<Seq<char>, RecordView> {
    Map::new(|k: Seq<char>| signed_map(s).dom().contains(k), |k: Seq<char>| record_view(signed_map(s)[k]))
}

proof fn lemma_fold_views_of(s: Seq<SignedRelayRecord>)
    requires
        signed_ids_distinct(s),
    ensures
        fold_views(views_of(s)) == model_of(s),
    decreases s.len(),
{
    if s.len() == 0 {
        assert(model_of(s) =~= Map::<Seq<char>, RecordView>::empty());
    } else {
        let dl = s.drop_last();
        assert(signed_ids_distinct(dl));
        lemma_fold_views_of(dl);
        assert(views_of(s).drop_last() =~= views_of(dl));
        assert forall|i: int| 0 <= i < dl.len() implies dl[i].record.node_id@ != s.last().record.node_id@ by {
            assert(dl[i] == s[i]);
        }
        assert(s =~= dl.push(s.last()));
        lemma_signed_map_upsert(dl, s, s.last());
        assert(model_of(s) =~= model_of(dl).insert(s.last().record.node_id@, record_view(s.last())));
    }
}

/// Saving signed records with distinct node ids and loading the bytes back
/// at a time when every record still verifies gives the same records.
pub proof fn lemma_store_save_load(s: Seq<SignedRelayRecord>, now_unix: u64, max_lifetime_seconds: u64)
    requires
        signed_ids_distinct(s),
        s.len() <= u32::MAX,
        forall|i: int| 0 <= i < s.len() ==> #[trigger] storable(record_view(s[i])),
        forall|i: int|
            0 <= i < s.len() ==> #[trigger] view_check(record_view(s[i]), now_unix, max_lifetime_seconds) is Ok,
    ensures
        load_file(store_file_bytes(views_of(s)), now_unix, max_lifetime_seconds) == Ok::<
            Map<Seq<char>, RecordView>,
            LoadFault,
        >(model_of(s)),
{
    let vs = views_of(s);
    assert forall|i: int| 0 <= i < vs.len() implies #[trigger] storable(vs[i]) by {
        assert(vs[i] == record_view(s[i]));
    }
    assert forall|i: int| 0 <= i < vs.len() implies #[trigger] view_check(vs[i], now_unix, max_lifetime_seconds) is Ok by {
        assert(vs[i] == record_view(s[i]));
    }
    lemma_store_file_round_trip(vs, now_unix, max_lifetime_seconds);
    lemma_fold_views_of(s);
}

/// A stored signed record is what a lookup finds while it is live, whatever
/// development records hold.
pub proof fn lemma_upsert_then_lookup(
    signed: Map<Seq<char>, SignedRelayRecord>,
    unsigned: Map<Seq<char>, RelayRecord>,
    s: SignedRelayRecord,
    now_unix: u64,
)
    requires
        s.record.expires_at_unix > now_unix,
    ensures
        lookup(signed.insert(s.record.node_id@, s), unsigned, s.record.node_id@, now_unix) == Some(s.record),
{
}

} // verus!
