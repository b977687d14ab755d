//! Directory control-plane values: the regional quorum mesh layout, the
//! consensus vote and certificate records, and the API's configuration and
//! error values.
use vstd::prelude::*;
use vstd::string::{StringExecFns, StringSliceAdditionalSpecFns};

verus! {

/// One continent's validator quorum.
pub struct RegionalSuperQuorum {
    pub region_id: usize,
    pub continent_name: String,
    pub total_validators: usize,
    pub active_signatures: usize,
}

impl RegionalSuperQuorum {
    /// A quorum of `size` validators with no signatures yet.
    pub fn new(id: usize, name: &str, size: usize) -> (r: Self)
        ensures
            r.region_id == id,
            r.continent_name@ == name@,
            r.total_validators == size,
            r.active_signatures == 0,
    {
        Self { region_id: id, continent_name: String::from_str(name), total_validators: size, active_signatures: 0 }
    }
}

/// Two thirds of `total` validators, rounded down: the signatures a region
/// needs.
pub open spec fn required_majority(total: nat) -> nat {
    (total * 2) / 3
}

/// Records that `failed_nodes` of the quorum's validators did not sign (the
/// signatures left are the validators less the failures, floored at zero)
/// and tells whether the region still reached its two-thirds majority.
pub fn apply_failed_nodes(q: &mut RegionalSuperQuorum, failed_nodes: usize) -> (ok: bool)
    requires
        old(q).total_validators * 2 <= usize::MAX,
    ensures
        final(q).active_signatures == if old(q).total_validators >= failed_nodes {
            (old(q).total_validators - failed_nodes) as usize
        } else {
            0usize
        },
        final(q).total_validators == old(q).total_validators,
        final(q).region_id == old(q).region_id,
        final(q).continent_name == old(q).continent_name,
        ok == (final(q).active_signatures >= required_majority(old(q).total_validators as nat)),
{
    q.active_signatures = q.total_validators.saturating_sub(failed_nodes);
    let required = (q.total_validators * 2) / 3;
    q.active_signatures >= required
}

/// Global consensus holds when at least seven of the ten regions reached
/// their majority.
pub fn global_consensus(successful_regions: usize) -> (ok: bool)
    ensures
        ok == (successful_regions >= 7),
{
    successful_regions >= 7
}

/// The two-tier mesh: regional quorums and the transparency logs roots are
/// published to.
pub struct HierarchicalBftMesh {
    pub regional_quorums: Vec<RegionalSuperQuorum>,
    pub ct_log_endpoints: Vec<String>,
}

/// The ten regions of the mesh, in order.
pub open spec fn continent(i: int) -> Seq<char> {
    if i == 0 {
        "Europe West (Hetzner/OVH)"@
    } else if i == 1 {
        "Europe East (DE-CIX/AMS-IX)"@
    } else if i == 2 {
        "North America East (NYIIX)"@
    } else if i == 3 {
        "North America West (Equinix SV)"@
    } else if i == 4 {
        "East Asia (Tokyo JPNAP)"@
    } else if i == 5 {
        "Southeast Asia (Singapore SGIX)"@
    } else if i == 6 {
        "Oceania (Sydney SGIX)"@
    } else if i == 7 {
        "South America (São Paulo IX.br)"@
    } else if i == 8 {
        "Africa (Johannesburg NAP)"@
    } else {
        "Middle East (Dubai IX)"@
    }
}

fn continent_name(i: usize) -> (r: &'static str)
    requires
        i < 10,
    ensures
        r@ == continent(i as int),
{
    if i == 0 {
        "Europe West (Hetzner/OVH)"
    } else if i == 1 {
        "Europe East (DE-CIX/AMS-IX)"
    } else if i == 2 {
        "North America East (NYIIX)"
    } else if i == 3 {
        "North America West (Equinix SV)"
    } else if i == 4 {
        "East Asia (Tokyo JPNAP)"
    } else if i == 5 {
        "Southeast Asia (Singapore SGIX)"
    } else if i == 6 {
        "Oceania (Sydney SGIX)"
    } else if i == 7 {
        "South America (São Paulo IX.br)"
    } else if i == 8 {
        "Africa (Johannesburg NAP)"
    } else {
        "Middle East (Dubai IX)"
    }
}

impl HierarchicalBftMesh {
    /// Ten regions of 100 validators (ids 1 to 10) and two CT logs.
    pub fn new() -> (r: Self)
        ensures
            r.regional_quorums@.len() == 10,
            forall|i: int|
                0 <= i < 10 ==> (#[trigger] r.regional_quorums@[i]).region_id == i + 1
                    && r.regional_quorums@[i].continent_name@ == continent(i)
                    && r.regional_quorums@[i].total_validators == 100
                    && r.regional_quorums@[i].active_signatures == 0,
            r.ct_log_endpoints@.len() == 2,
            r.ct_log_endpoints@[0]@ == "https://ct.googleapis.com/logs/chronos_2026/"@,
            r.ct_log_endpoints@[1]@ == "https://ct.cloudflare.com/logs/chronos_nimbus/"@,
    {
        let mut quorums: Vec<RegionalSuperQuorum> = Vec::new();
        let mut i: usize = 0;
        while i < 10
            invariant
                i <= 10,
                quorums@.len() == i,
                forall|j: int|
                    0 <= j < i ==> (#[trigger] quorums@[j]).region_id == j + 1 && quorums@[j].continent_name@
                        == continent(j) && quorums@[j].total_validators == 100
                        && quorums@[j].active_signatures == 0,
            decreases 10 - i,
        {
            quorums.push(RegionalSuperQuorum::new(i + 1, continent_name(i), 100));
            i = i + 1;
        }
        let mut logs: Vec<String> = Vec::new();
        logs.push(String::from_str("https://ct.googleapis.com/logs/chronos_2026/"));
        logs.push(String::from_str("https://ct.cloudflare.com/logs/chronos_nimbus/"));
        Self { regional_quorums: quorums, ct_log_endpoints: logs }
    }
}

/// A validator's identity and Ed25519 key.
#[derive(Debug, Clone, PartialEq, Eq)]
pub struct ValidatorPublicKey {
    pub validator_id: String,
    pub verifying_key: [u8; 32],
}

/// A validator's signature over a record digest.
#[derive(Debug, Clone, PartialEq, Eq)]
pub struct DirectoryVote {
    pub validator_id: String,
    pub signature: [u8; 64],
}

/// The record digest a quorum signed and who signed it.
#[derive(Debug, Clone, PartialEq, Eq)]
pub struct QuorumCertificate {
    pub record_digest: [u8; 32],
    pub signer_ids: Vec<String>,
}

#[derive(Debug, Clone, PartialEq, Eq)]
pub enum ConsensusStoreError {
    UnknownValidator(String),
    InvalidSignature(String),
    DuplicateVote(String),
    InsufficientQuorum { got: usize, need: usize },
}

#[derive(Debug, Clone, PartialEq, Eq)]
pub enum RelayRecordError {
    EmptyNodeId,
    ZeroX25519PublicKey,
    ZeroMlKemPublicKeyHash,
    Expired { expires_at_unix: u64, now_unix: u64 },
    ExcessiveLifetime { expires_at_unix: u64, max_expires_at_unix: u64 },
}

#[derive(Debug, Clone, PartialEq, Eq)]
pub enum SignedRecordError {
    SignerDoesNotMatchNodeId,
    InvalidSignature,
    Record(RelayRecordError),
}

#[derive(Debug, Clone, PartialEq, Eq)]
pub enum DirectoryStoreError {
    Io(String),
    InvalidMagic,
    LegacyStrippedFormatRejected,
    InvalidRecordEncoding,
    TrailingData,
    SignedRecord(SignedRecordError),
    UnsignedDevelopmentRecordsCannotPersist,
}

/// What the directory API lets a caller do.
#[derive(Debug, Clone, PartialEq, Eq, Structural)]
pub struct DirectoryApiConfig {
    pub allow_unsafe_plaintext_mutation: bool,
    pub allow_remote_prune: bool,
    pub max_record_lifetime_seconds: u64,
}

impl Default for DirectoryApiConfig {
    /// No plaintext mutation, no remote prune, records live at most a day.
    fn default() -> (r: Self)
        ensures
            !r.allow_unsafe_plaintext_mutation,
            !r.allow_remote_prune,
            r.max_record_lifetime_seconds == 86_400,
    {
        Self { allow_unsafe_plaintext_mutation: false, allow_remote_prune: false, max_record_lifetime_seconds: 86_400 }
    }
}

#[derive(Debug, Clone, PartialEq, Eq)]
pub enum DirectoryApiError {
    BadCommand,
    BadAddress,
    BadInteger,
    BadHex,
    MutationDisabled,
    RemotePruneDisabled,
    InvalidSignedRecord,
    Io(String),
}

/// The value of a hexadecimal digit, if it is one.
pub open spec fn nibble_value(b: u8) -> Option<u8> {
    if 48 <= b <= 57 {
        Some((b - 48) as u8)
    } else if 97 <= b <= 102 {
        Some((b - 87) as u8)
    } else if 65 <= b <= 70 {
        Some((b - 55) as u8)
    } else {
        None
    }
}

/// The value of a hexadecimal digit, if it is one.
pub fn hex_nibble(byte: u8) -> (r: Option<u8>)
    ensures
        r == nibble_value(byte),
{
    if 48 <= byte && byte <= 57 {
        Some(byte - 48)
    } else if 97 <= byte && byte <= 102 {
        Some(byte - 87)
    } else if 65 <= byte && byte <= 70 {
        Some(byte - 55)
    } else {
        None
    }
}

/// `2 * n` hexadecimal digits read as `n` bytes, high nibble first.
pub open spec fn hex_bytes(s: Seq<u8>, n: nat) -> Option<Seq<u8>> {
    if s.len() != 2 * n {
        None
    } else if exists|i: int| 0 <= i < s.len() && (#[trigger] nibble_value(s[i])) is None {
        None
    } else {
        Some(
            Seq::new(
                n,
                |i: int| (nibble_value(s[2 * i])->0 * 16 + nibble_value(s[2 * i + 1])->0) as u8,
            ),
        )
    }
}

/// Reads exactly `2 * N` hexadecimal digits as `N` bytes.
pub fn parse_hex_array<const N: usize>(text: &str) -> (r: Result<[u8; N], DirectoryApiError>)
    requires
        2 * N <= usize::MAX,
    ensures
        match hex_bytes(text.spec_bytes(), N as nat) {
            Some(b) => r matches Ok(a) && a@ == b,
            None => r == Err::<[u8; N], DirectoryApiError>(DirectoryApiError::BadHex),
        },
{
    let input = text.as_bytes();
    if input.len() != 2 * N {
        return Err(DirectoryApiError::BadHex);
    }
    let mut output = [0u8; N];
    let mut index: usize = 0;
    while index < N
        invariant
            index <= N,
            2 * N <= usize::MAX,
            input@ == text.spec_bytes(),
            input@.len() == 2 * N,
            output@.len() == N,
            forall|k: int| 0 <= k < 2 * index ==> (#[trigger] nibble_value(input@[k])) is Some,
            forall|k: int|
                0 <= k < index ==> #[trigger] output@[k] == (nibble_value(input@[2 * k])->0 * 16 + nibble_value(
                    input@[2 * k + 1],
                )->0) as u8,
        decreases N - index,
    {
        let high = match hex_nibble(input[index * 2]) {
            Some(h) => h,
            None => return Err(DirectoryApiError::BadHex),
        };
        let low = match hex_nibble(input[index * 2 + 1]) {
            Some(l) => l,
            None => return Err(DirectoryApiError::BadHex),
        };
        assert(high < 16 && low < 16);
        let v = (high << 4) | low;
        assert(v == high * 16 + low) by (bit_vector)
            requires
                high < 16,
                low < 16,
                v == (high << 4u8) | low,
        ;
        output[index] = v;
        index = index + 1;
    }
    assert(output@ =~= hex_bytes(input@, N as nat)->0);
    Ok(output)
}

} // verus!
