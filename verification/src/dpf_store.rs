//! The lite node's private-information-retrieval store: bucket queries and
//! their wire form, epoch snapshots of staged shard buckets, XOR evaluation
//! of a query against a snapshot, and two-server point-function shares.
use vstd::prelude::*;
use std::time::{Duration, Instant};
use crate::bytes::{push_all, push_u32_be, push_u64_be, read_u32_be, read_u64_be, u32_be, u32_at, u64_be, u64_at, lemma_u32_round_trip, lemma_u64_round_trip};
use crate::text::{ascii_chars, decimal, is_ascii_bytes, lemma_ascii_concat, lemma_decimal_ascii, push_ascii, push_decimal_ascii, string_from_ascii};
use crate::time::{duration_as_nanos, duration_from_secs, duration_nanos, instant_duration_since, instant_now};

verus! {

pub const SNAPSHOT_MAGIC: [u8; 8] = [0x43, 0x48, 0x44, 0x50, 0x46, 0x30, 0x30, 0x31];
pub const QUERY_MAGIC: [u8; 8] = [0x43, 0x48, 0x44, 0x51, 0x50, 0x30, 0x30, 0x31];

/// `"INVALID_DPF_QUERY_MAGIC"` as bytes.
pub open spec fn msg_bad_query_magic() -> Seq<u8> {
    seq![
        0x49u8, 0x4e, 0x56, 0x41, 0x4c, 0x49, 0x44, 0x5f, 0x44, 0x50, 0x46, 0x5f, 0x51, 0x55, 0x45,
        0x52, 0x59, 0x5f, 0x4d, 0x41, 0x47, 0x49, 0x43,
    ]
}

fn msg_bad_query_magic_bytes() -> (r: Vec<u8>)
    ensures
        r@ == msg_bad_query_magic(),
        is_ascii_bytes(r@),
{
    let r: Vec<u8> = vec![
        0x49u8, 0x4e, 0x56, 0x41, 0x4c, 0x49, 0x44, 0x5f, 0x44, 0x50, 0x46, 0x5f, 0x51, 0x55, 0x45,
        0x52, 0x59, 0x5f, 0x4d, 0x41, 0x47, 0x49, 0x43,
    ];
    assert(r@ =~= msg_bad_query_magic());
    r
}

/// `"INVALID_DPF_QUERY_LENGTH"` as bytes.
pub open spec fn msg_bad_query_length() -> Seq<u8> {
    seq![
        0x49u8, 0x4e, 0x56, 0x41, 0x4c, 0x49, 0x44, 0x5f, 0x44, 0x50, 0x46, 0x5f, 0x51, 0x55, 0x45,
        0x52, 0x59, 0x5f, 0x4c, 0x45, 0x4e, 0x47, 0x54, 0x48,
    ]
}

fn msg_bad_query_length_bytes() -> (r: Vec<u8>)
    ensures
        r@ == msg_bad_query_length(),
        is_ascii_bytes(r@),
{
    let r: Vec<u8> = vec![
        0x49u8, 0x4e, 0x56, 0x41, 0x4c, 0x49, 0x44, 0x5f, 0x44, 0x50, 0x46, 0x5f, 0x51, 0x55, 0x45,
        0x52, 0x59, 0x5f, 0x4c, 0x45, 0x4e, 0x47, 0x54, 0x48,
    ];
    assert(r@ =~= msg_bad_query_length());
    r
}

/// `"EPOCH_NOT_FOUND"` as bytes.
pub open spec fn msg_epoch_not_found() -> Seq<u8> {
    seq![
        0x45u8, 0x50, 0x4f, 0x43, 0x48, 0x5f, 0x4e, 0x4f, 0x54, 0x5f, 0x46, 0x4f, 0x55, 0x4e, 0x44,
    ]
}

fn msg_epoch_not_found_bytes() -> (r: Vec<u8>)
    ensures
        r@ == msg_epoch_not_found(),
        is_ascii_bytes(r@),
{
    let r: Vec<u8> = vec![
        0x45u8, 0x50, 0x4f, 0x43, 0x48, 0x5f, 0x4e, 0x4f, 0x54, 0x5f, 0x46, 0x4f, 0x55, 0x4e, 0x44,
    ];
    assert(r@ =~= msg_epoch_not_found());
    r
}

/// `"PIR_SNAPSHOT_ROOT_MISMATCH"` as bytes.
pub open spec fn msg_root_mismatch() -> Seq<u8> {
    seq![
        0x50u8, 0x49, 0x52, 0x5f, 0x53, 0x4e, 0x41, 0x50, 0x53, 0x48, 0x4f, 0x54, 0x5f, 0x52, 0x4f,
        0x4f, 0x54, 0x5f, 0x4d, 0x49, 0x53, 0x4d, 0x41, 0x54, 0x43, 0x48,
    ]
}

fn msg_root_mismatch_bytes() -> (r: Vec<u8>)
    ensures
        r@ == msg_root_mismatch(),
        is_ascii_bytes(r@),
{
    let r: Vec<u8> = vec![
        0x50u8, 0x49, 0x52, 0x5f, 0x53, 0x4e, 0x41, 0x50, 0x53, 0x48, 0x4f, 0x54, 0x5f, 0x52, 0x4f,
        0x4f, 0x54, 0x5f, 0x4d, 0x49, 0x53, 0x4d, 0x41, 0x54, 0x43, 0x48,
    ];
    assert(r@ =~= msg_root_mismatch());
    r
}

/// `"0x99AA_"` as bytes.
pub open spec fn root_prefix() -> Seq<u8> {
    seq![
        0x30u8, 0x78, 0x39, 0x39, 0x41, 0x41, 0x5f,
    ]
}

fn root_prefix_bytes() -> (r: Vec<u8>)
    ensures
        r@ == root_prefix(),
        is_ascii_bytes(r@),
{
    let r: Vec<u8> = vec![
        0x30u8, 0x78, 0x39, 0x39, 0x41, 0x41, 0x5f,
    ];
    assert(r@ =~= root_prefix());
    r
}

/// `"_EF"` as bytes.
pub open spec fn root_suffix() -> Seq<u8> {
    seq![
        0x5fu8, 0x45, 0x46,
    ]
}

fn root_suffix_bytes() -> (r: Vec<u8>)
    ensures
        r@ == root_suffix(),
        is_ascii_bytes(r@),
{
    let r: Vec<u8> = vec![
        0x5fu8, 0x45, 0x46,
    ];
    assert(r@ =~= root_suffix());
    r
}

/// A query: the epoch and the bucket indices whose XOR is asked for.
#[derive(Debug, Clone, PartialEq, Eq)]
pub struct DpfQueryRequest {
    pub epoch_id: u64,
    pub bucket_indices: Vec<u64>,
}

/// The big-endian bytes of each index in turn.
pub open spec fn indices_bytes(idx: Seq<u64>) -> Seq<u8>
    decreases idx.len(),
{
    if idx.len() == 0 {
        Seq::empty()
    } else {
        indices_bytes(idx.drop_last()) + u64_be(idx.last())
    }
}

/// The wire form of a query: magic, epoch, count, indices.
pub open spec fn query_bytes(epoch_id: u64, idx: Seq<u64>) -> Seq<u8> {
    QUERY_MAGIC@ + u64_be(epoch_id) + u32_be(idx.len() as u32) + indices_bytes(idx)
}

proof fn lemma_indices_bytes(idx: Seq<u64>)
    ensures
        indices_bytes(idx).len() == 8 * idx.len(),
        forall|i: int| 0 <= i < idx.len() ==> #[trigger] u64_at(indices_bytes(idx), 8 * i) == idx[i],
    decreases idx.len(),
{
    if idx.len() > 0 {
        lemma_indices_bytes(idx.drop_last());
        let p = indices_bytes(idx.drop_last());
        lemma_u64_round_trip(idx.last());
        assert forall|i: int| 0 <= i < idx.len() implies #[trigger] u64_at(indices_bytes(idx), 8 * i) == idx[i] by {
            if i < idx.len() - 1 {
                assert(u64_at(indices_bytes(idx), 8 * i) == u64_at(p, 8 * i));
            } else {
                assert(u64_at(indices_bytes(idx), 8 * i) == u64_at(u64_be(idx.last()), 0));
            }
        }
    }
}

/// What decoding a query yields, or its error message.
pub open spec fn query_parse(b: Seq<u8>) -> Result<(u64, Seq<u64>), Seq<u8>> {
    if b.len() < 20 || b.subrange(0, 8) != QUERY_MAGIC@ {
        Err(msg_bad_query_magic())
    } else if b.len() != 20 + 8 * u32_at(b, 16) {
        Err(msg_bad_query_length())
    } else {
        Ok((u64_at(b, 8), Seq::new(u32_at(b, 16) as nat, |i: int| u64_at(b, 20 + 8 * i))))
    }
}

impl DpfQueryRequest {
    /// The wire form of the query.
    pub fn encode(&self) -> (r: Vec<u8>)
        ensures
            r@ == query_bytes(self.epoch_id, self.bucket_indices@),
    {
        let mut out: Vec<u8> = Vec::new();
        push_all(&mut out, &QUERY_MAGIC);
        push_u64_be(&mut out, self.epoch_id);
        push_u32_be(&mut out, self.bucket_indices.len() as u32);
        let ghost start = out@;
        let mut i: usize = 0;
        assert(self.bucket_indices@.take(0) =~= Seq::<u64>::empty());
        while i < self.bucket_indices.len()
            invariant
                i <= self.bucket_indices@.len(),
                out@ == start + indices_bytes(self.bucket_indices@.take(i as int)),
            decreases self.bucket_indices@.len() - i,
        {
            push_u64_be(&mut out, self.bucket_indices[i]);
            assert(self.bucket_indices@.take(i + 1).drop_last() =~= self.bucket_indices@.take(i as int));
            i = i + 1;
        }
        assert(self.bucket_indices@.take(self.bucket_indices@.len() as int) =~= self.bucket_indices@);
        assert(out@ =~= query_bytes(self.epoch_id, self.bucket_indices@));
        out
    }

    /// Reads a query, checking the magic and that the length matches the count.
    pub fn decode(bytes: &[u8]) -> (r: Result<Self, String>)
        ensures
            match query_parse(bytes@) {
                Ok((e, idx)) => r matches Ok(q) && q.epoch_id == e && q.bucket_indices@ == idx,
                Err(m) => r matches Err(s) && s@ == ascii_chars(m),
            },
    {
        if bytes.len() < 20 || !crate::bytes::has_prefix(bytes, &QUERY_MAGIC) {
            return Err(string_from_ascii(msg_bad_query_magic_bytes()));
        }
        let epoch_id = read_u64_be(bytes, 8);
        let count = read_u32_be(bytes, 16);
        let expected: u64 = 20 + (count as u64) * 8;
        if bytes.len() as u64 != expected {
            return Err(string_from_ascii(msg_bad_query_length_bytes()));
        }
        let mut bucket_indices: Vec<u64> = Vec::new();
        let mut i: usize = 0;
        while i < count as usize
            invariant
                i <= count,
                bytes@.len() == 20 + 8 * count,
                bytes@.len() <= usize::MAX,
                bucket_indices@.len() == i,
                forall|j: int| 0 <= j < i ==> #[trigger] bucket_indices@[j] == u64_at(bytes@, 20 + 8 * j),
            decreases count - i,
        {
            assert(20 + 8 * i + 8 <= bytes@.len()) by (nonlinear_arith)
                requires
                    i < count,
                    bytes@.len() == 20 + 8 * count,
                bytes@.len() <= usize::MAX,
            ;
            bucket_indices.push(read_u64_be(bytes, 20 + 8 * i));
            i = i + 1;
        }
        let ghost want = Seq::new(count as nat, |j: int| u64_at(bytes@, 20 + 8 * j));
        assert(bucket_indices@ =~= want);
        Ok(Self { epoch_id, bucket_indices })
    }
}

/// Decoding an encoded query gives it back.
pub proof fn lemma_query_round_trip(epoch_id: u64, idx: Seq<u64>)
    requires
        idx.len() <= u32::MAX,
    ensures
        query_parse(query_bytes(epoch_id, idx)) == Ok::<(u64, Seq<u64>), Seq<u8>>((epoch_id, idx)),
{
    let b = query_bytes(epoch_id, idx);
    lemma_u64_round_trip(epoch_id);
    lemma_u32_round_trip(idx.len() as u32);
    lemma_indices_bytes(idx);
    assert(b.subrange(0, 8) =~= QUERY_MAGIC@);
    assert(u64_at(b, 8) == u64_at(u64_be(epoch_id), 0));
    assert(u32_at(b, 16) == u32_at(u32_be(idx.len() as u32), 0));
    let parsed = Seq::new(u32_at(b, 16) as nat, |i: int| u64_at(b, 20 + 8 * i));
    assert forall|i: int| 0 <= i < idx.len() implies parsed[i] == idx[i] by {
        assert(u64_at(b, 20 + 8 * i) == u64_at(indices_bytes(idx), 8 * i));
    }
    assert(parsed =~= idx);
}


/// One server's share of a point function: a bit per domain index.
#[derive(Debug, Clone, PartialEq, Eq)]
pub struct DpfPointShare {
    pub bits: Vec<u8>,
}

/// One xorshift step of the share generator.
pub open spec fn xorshift(s: u64) -> u64 {
    let s1 = s ^ (s >> 12u64);
    let s2 = s1 ^ (s1 << 25u64);
    s2 ^ (s2 >> 27u64)
}

/// The generator state after `n` steps from `seed`.
pub open spec fn xorshift_state(seed: u64, n: nat) -> u64
    decreases n,
{
    if n == 0 {
        seed
    } else {
        xorshift(xorshift_state(seed, (n - 1) as nat))
    }
}

/// The share bit a generator state gives: the low bit of its product with
/// the xorshift* multiplier.
pub open spec fn share_bit(s: u64) -> u8 {
    ((((s as nat * 0x2545_F491_4F6C_DD1D) % 0x1_0000_0000_0000_0000) as u64) & 1u64) as u8
}

fn xorshift_exec(s: u64) -> (r: u64)
    ensures
        r == xorshift(s),
{
    let mut state = s;
    state = state ^ (state >> 12u64);
    state = state ^ (state << 25u64);
    state = state ^ (state >> 27u64);
    state
}

/// Two shares over `domain_size` indices that agree everywhere but at
/// `index` (when it is in the domain); both are the same pseudo-random bits
/// drawn from `seed`.
pub fn generate_two_server_point_function(index: usize, domain_size: usize, seed: u64) -> (r: (
    DpfPointShare,
    DpfPointShare,
))
    ensures
        r.0.bits@.len() == domain_size,
        r.1.bits@.len() == domain_size,
        forall|i: int| 0 <= i < domain_size ==> #[trigger] r.0.bits@[i] == share_bit(xorshift_state(seed, (i + 1) as nat)),
        forall|i: int|
            0 <= i < domain_size ==> #[trigger] r.1.bits@[i] == if i == index {
                r.0.bits@[i] ^ 1u8
            } else {
                r.0.bits@[i]
            },
{
    let mut state = seed;
    let mut a: Vec<u8> = Vec::new();
    let mut b: Vec<u8> = Vec::new();
    let mut i: usize = 0;
    while i < domain_size
        invariant
            i <= domain_size,
            state == xorshift_state(seed, i as nat),
            a@.len() == i,
            b@.len() == i,
            forall|j: int| 0 <= j < i ==> #[trigger] a@[j] == share_bit(xorshift_state(seed, (j + 1) as nat)),
            forall|j: int| 0 <= j < i ==> #[trigger] b@[j] == a@[j],
        decreases domain_size - i,
    {
        state = xorshift_exec(state);
        let bit = (state.wrapping_mul(0x2545_F491_4F6C_DD1D) & 1) as u8;
        assert(bit == share_bit(state));
        a.push(bit);
        b.push(bit);
        i = i + 1;
    }
    if index < domain_size {
        let v = b[index] ^ 1;
        b.set(index, v);
    }
    (DpfPointShare { bits: a }, DpfPointShare { bits: b })
}

/// The bitwise XOR of two shares, over the shorter of the two.
pub fn combine_point_shares(a: &DpfPointShare, b: &DpfPointShare) -> (r: Vec<u8>)
    ensures
        r@.len() == if a.bits@.len() <= b.bits@.len() { a.bits@.len() } else { b.bits@.len() },
        forall|i: int| 0 <= i < r@.len() ==> #[trigger] r@[i] == a.bits@[i] ^ b.bits@[i],
{
    let n = if a.bits.len() <= b.bits.len() { a.bits.len() } else { b.bits.len() };
    let mut out: Vec<u8> = Vec::new();
    let mut i: usize = 0;
    while i < n
        invariant
            i <= n <= a.bits@.len(),
            n <= b.bits@.len(),
            out@.len() == i,
            forall|j: int| 0 <= j < i ==> #[trigger] out@[j] == a.bits@[j] ^ b.bits@[j],
        decreases n - i,
    {
        out.push(a.bits[i] ^ b.bits[i]);
        i = i + 1;
    }
    out
}

/// Combining the two shares of a point function gives the indicator of its
/// index: 1 there, 0 everywhere else.
pub proof fn lemma_point_shares_combine_to_indicator(a: Seq<u8>, b: Seq<u8>, index: int)
    requires
        a.len() == b.len(),
        forall|i: int| 0 <= i < b.len() ==> #[trigger] b[i] == if i == index { a[i] ^ 1u8 } else { a[i] },
    ensures
        forall|i: int| 0 <= i < a.len() ==> #[trigger] (a[i] ^ b[i]) == if i == index { 1u8 } else { 0u8 },
{
    assert forall|i: int| 0 <= i < a.len() implies #[trigger] (a[i] ^ b[i]) == if i == index { 1u8 } else { 0u8 } by {
        crate::gf28::lemma_xor_zero(a[i]);
        crate::gf28::lemma_xor_assoc(a[i], a[i], 1u8);
        crate::gf28::lemma_xor_zero(1u8);
    }
}
/// `"Epoch #"` as bytes.
pub open spec fn summary_prefix() -> Seq<u8> {
    seq![
        0x45u8, 0x70, 0x6f, 0x63, 0x68, 0x20, 0x23,
    ]
}

fn summary_prefix_bytes() -> (r: Vec<u8>)
    ensures
        r@ == summary_prefix(),
        is_ascii_bytes(r@),
{
    let r: Vec<u8> = vec![
        0x45u8, 0x70, 0x6f, 0x63, 0x68, 0x20, 0x23,
    ];
    assert(r@ =~= summary_prefix());
    r
}

/// `": Merkle Root "` as bytes.
pub open spec fn summary_root() -> Seq<u8> {
    seq![
        0x3au8, 0x20, 0x4d, 0x65, 0x72, 0x6b, 0x6c, 0x65, 0x20, 0x52, 0x6f, 0x6f, 0x74, 0x20,
    ]
}

fn summary_root_bytes() -> (r: Vec<u8>)
    ensures
        r@ == summary_root(),
        is_ascii_bytes(r@),
{
    let r: Vec<u8> = vec![
        0x3au8, 0x20, 0x4d, 0x65, 0x72, 0x6b, 0x6c, 0x65, 0x20, 0x52, 0x6f, 0x6f, 0x74, 0x20,
    ];
    assert(r@ =~= summary_root());
    r
}

/// `" across "` as bytes.
pub open spec fn summary_across() -> Seq<u8> {
    seq![
        0x20u8, 0x61, 0x63, 0x72, 0x6f, 0x73, 0x73, 0x20,
    ]
}

fn summary_across_bytes() -> (r: Vec<u8>)
    ensures
        r@ == summary_across(),
        is_ascii_bytes(r@),
{
    let r: Vec<u8> = vec![
        0x20u8, 0x61, 0x63, 0x72, 0x6f, 0x73, 0x73, 0x20,
    ];
    assert(r@ =~= summary_across());
    r
}

/// `" buckets"` as bytes.
pub open spec fn summary_buckets() -> Seq<u8> {
    seq![
        0x20u8, 0x62, 0x75, 0x63, 0x6b, 0x65, 0x74, 0x73,
    ]
}

fn summary_buckets_bytes() -> (r: Vec<u8>)
    ensures
        r@ == summary_buckets(),
        is_ascii_bytes(r@),
{
    let r: Vec<u8> = vec![
        0x20u8, 0x62, 0x75, 0x63, 0x6b, 0x65, 0x74, 0x73,
    ];
    assert(r@ =~= summary_buckets());
    r
}

/// A response: the XOR of the asked buckets and the snapshot's root label.
#[derive(Debug, Clone, PartialEq, Eq)]
pub struct DpfQueryResponse {
    pub xor_result: Vec<u8>,
    pub merkle_root_hash: String,
}

/// A frozen epoch: its root label and its shard buckets by index.
pub struct EpochSnapshotMatrix {
    pub epoch_id: u64,
    pub merkle_root_hash: String,
    pub shard_buckets: Vec<(u64, Vec<u8>)>,
}

/// The data stored under `idx`: the first entry with that index.
pub open spec fn bucket_of(buckets: Seq<(u64, Vec<u8>)>, idx: u64) -> Option<Seq<u8>>
    decreases buckets.len(),
{
    if buckets.len() == 0 {
        None
    } else {
        match bucket_of(buckets.drop_last(), idx) {
            Some(d) => Some(d),
            None => if buckets.last().0 == idx {
                Some(buckets.last().1@)
            } else {
                None
            },
        }
    }
}

/// The size of a query result.
pub open spec fn result_len() -> nat {
    4096
}

/// The XOR of the buckets named by `mask` (missing ones skipped), over the
/// first 4096 bytes, zero-padded.
pub open spec fn query_xor(buckets: Seq<(u64, Vec<u8>)>, mask: Seq<u64>) -> Seq<u8>
    decreases mask.len(),
{
    if mask.len() == 0 {
        Seq::new(result_len(), |i: int| 0u8)
    } else {
        let prev = query_xor(buckets, mask.drop_last());
        match bucket_of(buckets, mask.last()) {
            None => prev,
            Some(d) => Seq::new(result_len(), |i: int| if i < d.len() { prev[i] ^ d[i] } else { prev[i] }),
        }
    }
}

/// The snapshot kept for `epoch`: the first one with that id.
pub open spec fn snapshot_of(snaps: Seq<EpochSnapshotMatrix>, epoch: u64) -> Option<EpochSnapshotMatrix>
    decreases snaps.len(),
{
    if snaps.len() == 0 {
        None
    } else {
        match snapshot_of(snaps.drop_last(), epoch) {
            Some(s) => Some(s),
            None => if snaps.last().epoch_id == epoch {
                Some(snaps.last())
            } else {
                None
            },
        }
    }
}

proof fn lemma_bucket_of_prefix(buckets: Seq<(u64, Vec<u8>)>, n: int, idx: u64)
    requires
        0 <= n < buckets.len(),
        bucket_of(buckets.take(n), idx) is None,
    ensures
        bucket_of(buckets.take(n + 1), idx) == if buckets[n].0 == idx {
            Some(buckets[n].1@)
        } else {
            None::<Seq<u8>>
        },
{
    assert(buckets.take(n + 1).drop_last() =~= buckets.take(n));
}

proof fn lemma_bucket_of_found(buckets: Seq<(u64, Vec<u8>)>, n: int, m: int, idx: u64)
    requires
        0 <= n <= m <= buckets.len(),
        bucket_of(buckets.take(n), idx) is Some,
    ensures
        bucket_of(buckets.take(m), idx) == bucket_of(buckets.take(n), idx),
    decreases m - n,
{
    if m > n {
        lemma_bucket_of_found(buckets, n, m - 1, idx);
        assert(buckets.take(m).drop_last() =~= buckets.take(m - 1));
    }
}

/// Finds the bucket stored under `idx`.
fn find_bucket(buckets: &Vec<(u64, Vec<u8>)>, idx: u64) -> (r: Option<usize>)
    ensures
        match r {
            Some(p) => p < buckets@.len() && bucket_of(buckets@, idx) == Some(buckets@[p as int].1@),
            None => bucket_of(buckets@, idx) is None,
        },
{
    let mut i: usize = 0;
    assert(buckets@.take(0) =~= Seq::<(u64, Vec<u8>)>::empty());
    while i < buckets.len()
        invariant
            i <= buckets@.len(),
            bucket_of(buckets@.take(i as int), idx) is None,
        decreases buckets@.len() - i,
    {
        proof {
            lemma_bucket_of_prefix(buckets@, i as int, idx);
        }
        if buckets[i].0 == idx {
            proof {
                lemma_bucket_of_found(buckets@, i + 1, buckets@.len() as int, idx);
                assert(buckets@.take(buckets@.len() as int) =~= buckets@);
            }
            return Some(i);
        }
        i = i + 1;
    }
    assert(buckets@.take(buckets@.len() as int) =~= buckets@);
    None
}

proof fn lemma_snapshot_of_prefix(snaps: Seq<EpochSnapshotMatrix>, n: int, epoch: u64)
    requires
        0 <= n < snaps.len(),
        snapshot_of(snaps.take(n), epoch) is None,
    ensures
        snapshot_of(snaps.take(n + 1), epoch) == if snaps[n].epoch_id == epoch {
            Some(snaps[n])
        } else {
            None::<EpochSnapshotMatrix>
        },
{
    assert(snaps.take(n + 1).drop_last() =~= snaps.take(n));
}

proof fn lemma_snapshot_of_found(snaps: Seq<EpochSnapshotMatrix>, n: int, m: int, epoch: u64)
    requires
        0 <= n <= m <= snaps.len(),
        snapshot_of(snaps.take(n), epoch) is Some,
    ensures
        snapshot_of(snaps.take(m), epoch) == snapshot_of(snaps.take(n), epoch),
    decreases m - n,
{
    if m > n {
        lemma_snapshot_of_found(snaps, n, m - 1, epoch);
        assert(snaps.take(m).drop_last() =~= snaps.take(m - 1));
    }
}

/// Finds the snapshot of `epoch`.
fn find_snapshot(snaps: &Vec<EpochSnapshotMatrix>, epoch: u64) -> (r: Option<usize>)
    ensures
        match r {
            Some(p) => p < snaps@.len() && snapshot_of(snaps@, epoch) == Some(snaps@[p as int]),
            None => snapshot_of(snaps@, epoch) is None,
        },
{
    let mut i: usize = 0;
    assert(snaps@.take(0) =~= Seq::<EpochSnapshotMatrix>::empty());
    while i < snaps.len()
        invariant
            i <= snaps@.len(),
            snapshot_of(snaps@.take(i as int), epoch) is None,
        decreases snaps@.len() - i,
    {
        proof {
            lemma_snapshot_of_prefix(snaps@, i as int, epoch);
        }
        if snaps[i].epoch_id == epoch {
            proof {
                lemma_snapshot_of_found(snaps@, i + 1, snaps@.len() as int, epoch);
                assert(snaps@.take(snaps@.len() as int) =~= snaps@);
            }
            return Some(i);
        }
        i = i + 1;
    }
    assert(snaps@.take(snaps@.len() as int) =~= snaps@);
    None
}

/// XORs the buckets named by `mask` into a 4096-byte result.
fn xor_buckets(buckets: &Vec<(u64, Vec<u8>)>, mask: &[u64]) -> (r: Vec<u8>)
    ensures
        r@ == query_xor(buckets@, mask@),
{
    let mut out: Vec<u8> = Vec::new();
    crate::bytes::push_zeros(&mut out, 4096);
    assert(mask@.take(0) =~= Seq::<u64>::empty());
    assert(out@ =~= query_xor(buckets@, mask@.take(0)));
    let mut m: usize = 0;
    while m < mask.len()
        invariant
            m <= mask@.len(),
            out@ == query_xor(buckets@, mask@.take(m as int)),
            out@.len() == 4096,
        decreases mask@.len() - m,
    {
        let ghost prev = out@;
        assert(mask@.take(m + 1).drop_last() =~= mask@.take(m as int));
        if let Some(p) = find_bucket(buckets, mask[m]) {
            let bucket = &buckets[p].1;
            let n = if bucket.len() < 4096 { bucket.len() } else { 4096 };
            let mut i: usize = 0;
            while i < n
                invariant
                    i <= n <= 4096,
                    n <= bucket@.len(),
                    n == if bucket@.len() < 4096 { bucket@.len() } else { 4096 },
                    out@.len() == 4096,
                    forall|j: int| 0 <= j < i ==> #[trigger] out@[j] == prev[j] ^ bucket@[j],
                    forall|j: int| i <= j < 4096 ==> #[trigger] out@[j] == prev[j],
                decreases n - i,
            {
                let v = out[i] ^ bucket[i];
                out.set(i, v);
                i = i + 1;
            }
            assert(out@ =~= query_xor(buckets@, mask@.take(m + 1)));
        } else {
            assert(out@ =~= query_xor(buckets@, mask@.take(m + 1)));
        }
        m = m + 1;
    }
    assert(mask@.take(mask@.len() as int) =~= mask@);
    out
}

/// The length of the text `"{index}:{len},"` summed over the staged buckets,
/// which the root label is made from.
pub open spec fn hash_input_len(staged: Seq<(u64, Vec<u8>)>) -> nat
    decreases staged.len(),
{
    if staged.len() == 0 {
        0
    } else {
        hash_input_len(staged.drop_last()) + decimal(staged.last().0 as nat).len() + 1 + decimal(
            staged.last().1@.len(),
        ).len() + 1
    }
}

/// The root label of a snapshot: `0x99AA_{epoch}_{42 * hash input length}_EF`.
pub open spec fn root_label(epoch: u64, staged: Seq<(u64, Vec<u8>)>) -> Seq<u8> {
    root_prefix() + decimal(epoch as nat) + seq![0x5fu8] + decimal(hash_input_len(staged) * 42) + root_suffix()
}

/// The snapshots with `s` stored under its epoch: it replaces the first one
/// of that epoch, or is added.
pub open spec fn snapshots_insert(snaps: Seq<EpochSnapshotMatrix>, s: EpochSnapshotMatrix) -> Seq<EpochSnapshotMatrix> {
    if exists|p: int| 0 <= p < snaps.len() && (#[trigger] snaps[p]).epoch_id == s.epoch_id {
        let p = choose|p: int|
            0 <= p < snaps.len() && (#[trigger] snaps[p]).epoch_id == s.epoch_id && forall|q: int|
                0 <= q < p ==> (#[trigger] snaps[q]).epoch_id != s.epoch_id;
        snaps.update(p, s)
    } else {
        snaps.push(s)
    }
}

/// The staging buffer with `data` stored under `index`: it replaces the
/// first entry of that index, or is added.
pub open spec fn staged_insert(staged: Seq<(u64, Vec<u8>)>, index: u64, data: Vec<u8>) -> Seq<(u64, Vec<u8>)> {
    if exists|p: int| 0 <= p < staged.len() && (#[trigger] staged[p]).0 == index {
        let p = choose|p: int|
            0 <= p < staged.len() && (#[trigger] staged[p]).0 == index && forall|q: int|
                0 <= q < p ==> (#[trigger] staged[q]).0 != index;
        staged.update(p, (index, data))
    } else {
        staged.push((index, data))
    }
}

fn decimal_len(n: u64) -> (r: usize)
    ensures
        r == decimal(n as nat).len(),
{
    let mut t: Vec<u8> = Vec::new();
    push_decimal_ascii(&mut t, n);
    t.len()
}

impl EpochSnapshotMatrix {
    /// `"Epoch #{epoch}: Merkle Root {root} across {n} buckets"`.
    pub fn get_summary(&self) -> (r: String)
        ensures
            r@ == ascii_chars(summary_prefix() + decimal(self.epoch_id as nat) + summary_root())
                + self.merkle_root_hash@ + ascii_chars(
                summary_across() + decimal(self.shard_buckets@.len()) + summary_buckets(),
            ),
    {
        let mut head = summary_prefix_bytes();
        push_decimal_ascii(&mut head, self.epoch_id);
        let r = summary_root_bytes();
        push_ascii(&mut head, r.as_slice());
        let mut tail = summary_across_bytes();
        push_decimal_ascii(&mut tail, self.shard_buckets.len() as u64);
        let b = summary_buckets_bytes();
        push_ascii(&mut tail, b.as_slice());
        let mut out = string_from_ascii(head);
        out.append(self.merkle_root_hash.as_str());
        let t = string_from_ascii(tail);
        out.append(t.as_str());
        out
    }
}

/// A store node: staged buckets, committed epoch snapshots, and the epoch
/// clock.
pub struct DpfStorageRelayEngine {
    pub staging_buffer: Vec<(u64, Vec<u8>)>,
    pub active_snapshots: Vec<EpochSnapshotMatrix>,
    pub current_epoch: u64,
    pub epoch_duration: Duration,
    pub last_snapshot_time: Instant,
}

impl DpfStorageRelayEngine {
    /// An empty store at epoch 1 with 60-second epochs.
    pub fn new() -> (r: Self)
        ensures
            r.staging_buffer@.len() == 0,
            r.active_snapshots@.len() == 0,
            r.current_epoch == 1,
            duration_nanos(r.epoch_duration) == 60_000_000_000,
    {
        Self {
            staging_buffer: Vec::new(),
            active_snapshots: Vec::new(),
            current_epoch: 1,
            epoch_duration: duration_from_secs(60),
            last_snapshot_time: instant_now(),
        }
    }

    /// Stages `shard_data` under `index`, replacing what was staged there.
    pub fn push_shard_to_staging(&mut self, index: u64, shard_data: Vec<u8>)
        ensures
            final(self).staging_buffer@ == staged_insert(old(self).staging_buffer@, index, shard_data),
            final(self).active_snapshots@ == old(self).active_snapshots@,
            final(self).current_epoch == old(self).current_epoch,
    {
        let ghost before = self.staging_buffer@;
        let mut i: usize = 0;
        while i < self.staging_buffer.len()
            invariant
                i <= self.staging_buffer@.len(),
                self.staging_buffer@ == before,
                before == old(self).staging_buffer@,
                self.active_snapshots@ == old(self).active_snapshots@,
                self.current_epoch == old(self).current_epoch,
                forall|q: int| 0 <= q < i ==> (#[trigger] self.staging_buffer@[q]).0 != index,
            decreases self.staging_buffer@.len() - i,
        {
            if self.staging_buffer[i].0 == index {
                proof {
                    assert(before[i as int].0 == index);
                    assert(0 <= i < before.len() && (before[i as int]).0 == index && forall|q: int|
                        0 <= q < i ==> (#[trigger] before[q]).0 != index);
                    let p = choose|p: int|
                        0 <= p < before.len() && (#[trigger] before[p]).0 == index && forall|q: int|
                            0 <= q < p ==> (#[trigger] before[q]).0 != index;
                    if p > i {
                        assert(before[i as int].0 != index);
                    }
                    assert(p == i);
                }
                self.staging_buffer.set(i, (index, shard_data));
                return;
            }
            i = i + 1;
        }
        self.staging_buffer.push((index, shard_data));
    }

    /// Freezes the staged buckets into a snapshot of the current epoch once
    /// the epoch has run its time (or when there is no snapshot yet), and
    /// gives its root label.
    pub fn commit_epoch_snapshot(&mut self) -> (r: Option<String>)
        requires
            old(self).current_epoch < u64::MAX,
            hash_input_len(old(self).staging_buffer@) * 42 <= usize::MAX,
        ensures
            old(self).active_snapshots@.len() == 0 ==> r is Some,
            r is None ==> final(self).staging_buffer@ == old(self).staging_buffer@ && final(self).active_snapshots@
                == old(self).active_snapshots@ && final(self).current_epoch == old(self).current_epoch,
            r matches Some(h) ==> {
                &&& h@ == ascii_chars(root_label(old(self).current_epoch, old(self).staging_buffer@))
                &&& final(self).staging_buffer@.len() == 0
                &&& final(self).current_epoch == old(self).current_epoch + 1
                &&& exists|s: EpochSnapshotMatrix|
                    s.epoch_id == old(self).current_epoch && s.merkle_root_hash@ == h@ && s.shard_buckets@
                        == old(self).staging_buffer@ && final(self).active_snapshots@ == #[trigger] snapshots_insert(
                        old(self).active_snapshots@,
                        s,
                    )
            },
    {
        let now = instant_now();
        let elapsed = instant_duration_since(&now, &self.last_snapshot_time);
        let due = duration_as_nanos(&elapsed) >= duration_as_nanos(&self.epoch_duration)
            || self.active_snapshots.len() == 0;
        if !due {
            return None;
        }
        let mut buckets: Vec<(u64, Vec<u8>)> = Vec::new();
        std::mem::swap(&mut buckets, &mut self.staging_buffer);
        let ghost staged = buckets@;
        let mut hash_len: usize = 0;
        let mut i: usize = 0;
        assert(staged.take(0) =~= Seq::<(u64, Vec<u8>)>::empty());
        while i < buckets.len()
            invariant
                i <= buckets@.len(),
                staged == buckets@,
                hash_len == hash_input_len(staged.take(i as int)),
                hash_input_len(staged) * 42 <= usize::MAX,
            decreases buckets@.len() - i,
        {
            proof {
                assert(staged.take(i + 1).drop_last() =~= staged.take(i as int));
                lemma_hash_input_len_prefix(staged, i + 1);
            }
            let a = decimal_len(buckets[i].0);
            let b = decimal_len(buckets[i].1.len() as u64);
            hash_len = hash_len + a + 1 + b + 1;
            i = i + 1;
        }
        assert(staged.take(staged.len() as int) =~= staged);
        let mut label = root_prefix_bytes();
        push_decimal_ascii(&mut label, self.current_epoch);
        label.push(0x5f);
        proof {
            lemma_decimal_ascii(self.current_epoch as nat);
            lemma_ascii_concat(root_prefix() + decimal(self.current_epoch as nat), seq![0x5fu8]);
        }
        push_decimal_ascii(&mut label, (hash_len * 42) as u64);
        let sfx = root_suffix_bytes();
        push_ascii(&mut label, sfx.as_slice());
        assert(label@ =~= root_label(self.current_epoch, staged));
        let label_copy = crate::bytes::copy_range(label.as_slice(), 0, label.len());
        assert(label_copy@ =~= label@);
        let root = string_from_ascii(label);
        let snapshot = EpochSnapshotMatrix {
            epoch_id: self.current_epoch,
            merkle_root_hash: root,
            shard_buckets: buckets,
        };
        let ghost snap = snapshot;
        insert_snapshot(&mut self.active_snapshots, snapshot);
        self.current_epoch = self.current_epoch + 1;
        self.last_snapshot_time = now;
        Some(string_from_ascii(label_copy))
    }

    /// Takes in a snapshot read back from storage: it replaces the snapshot
    /// of its epoch (or is added), and the epoch clock moves past its epoch.
    pub fn install_snapshot(&mut self, snapshot: EpochSnapshotMatrix)
        requires
            snapshot.epoch_id < u64::MAX,
        ensures
            final(self).active_snapshots@ == snapshots_insert(old(self).active_snapshots@, snapshot),
            final(self).current_epoch == if old(self).current_epoch > snapshot.epoch_id + 1 {
                old(self).current_epoch as int
            } else {
                snapshot.epoch_id + 1
            },
            final(self).staging_buffer@ == old(self).staging_buffer@,
    {
        let next = snapshot.epoch_id + 1;
        if next > self.current_epoch {
            self.current_epoch = next;
        }
        insert_snapshot(&mut self.active_snapshots, snapshot);
    }

    /// The XOR of the buckets a request names in its epoch's snapshot.
    pub fn evaluate_dpf_query_request(&self, request: &DpfQueryRequest) -> (r: Result<DpfQueryResponse, String>)
        ensures
            match snapshot_of(self.active_snapshots@, request.epoch_id) {
                None => r matches Err(e) && e@ == ascii_chars(msg_epoch_not_found()),
                Some(s) => r matches Ok(resp) && resp.xor_result@ == query_xor(
                    s.shard_buckets@,
                    request.bucket_indices@,
                ) && resp.merkle_root_hash@ == s.merkle_root_hash@,
            },
    {
        match self.evaluate_dpf_query(request.epoch_id, request.bucket_indices.as_slice()) {
            Ok((xor_result, merkle_root_hash)) => Ok(DpfQueryResponse { xor_result, merkle_root_hash }),
            Err(e) => Err(e),
        }
    }

    /// The XOR of the buckets named by `dpf_query_mask` in the snapshot of
    /// `target_epoch`, with that snapshot's root label.
    pub fn evaluate_dpf_query(&self, target_epoch: u64, dpf_query_mask: &[u64]) -> (r: Result<(Vec<u8>, String), String>)
        ensures
            match snapshot_of(self.active_snapshots@, target_epoch) {
                None => r matches Err(e) && e@ == ascii_chars(msg_epoch_not_found()),
                Some(s) => r matches Ok((x, h)) && x@ == query_xor(s.shard_buckets@, dpf_query_mask@) && h@
                    == s.merkle_root_hash@,
            },
    {
        match find_snapshot(&self.active_snapshots, target_epoch) {
            Some(p) => {
                let snapshot = &self.active_snapshots[p];
                let x = xor_buckets(&snapshot.shard_buckets, dpf_query_mask);
                Ok((x, snapshot.merkle_root_hash.clone()))
            },
            None => Err(string_from_ascii(msg_epoch_not_found_bytes())),
        }
    }
}

impl Default for DpfStorageRelayEngine {
    fn default() -> (r: Self)
        ensures
            r.staging_buffer@.len() == 0,
            r.active_snapshots@.len() == 0,
            r.current_epoch == 1,
            duration_nanos(r.epoch_duration) == 60_000_000_000,
    {
        Self::new()
    }
}

proof fn lemma_hash_input_len_prefix(staged: Seq<(u64, Vec<u8>)>, n: int)
    requires
        0 <= n <= staged.len(),
    ensures
        hash_input_len(staged.take(n)) <= hash_input_len(staged),
    decreases staged.len() - n,
{
    if n < staged.len() {
        lemma_hash_input_len_prefix(staged, n + 1);
        assert(staged.take(n + 1).drop_last() =~= staged.take(n));
    } else {
        assert(staged.take(n) =~= staged);
    }
}

/// Stores a snapshot under its epoch.
fn insert_snapshot(snaps: &mut Vec<EpochSnapshotMatrix>, s: EpochSnapshotMatrix)
    ensures
        final(snaps)@ == snapshots_insert(old(snaps)@, s),
{
    let ghost before = snaps@;
    let sid = s.epoch_id;
    let mut i: usize = 0;
    while i < snaps.len()
        invariant
            i <= snaps@.len(),
            snaps@ == before,
            before == old(snaps)@,
            sid == s.epoch_id,
            forall|q: int| 0 <= q < i ==> (#[trigger] snaps@[q]).epoch_id != sid,
        decreases snaps@.len() - i,
    {
        if snaps[i].epoch_id == sid {
            proof {
                assert(before[i as int].epoch_id == sid);
                assert(0 <= i < before.len() && (before[i as int]).epoch_id == sid && forall|q: int|
                    0 <= q < i ==> (#[trigger] before[q]).epoch_id != sid);
                let p = choose|p: int|
                    0 <= p < before.len() && (#[trigger] before[p]).epoch_id == sid && forall|q: int|
                        0 <= q < p ==> (#[trigger] before[q]).epoch_id != sid;
                if p > i {
                    assert(before[i as int].epoch_id != sid);
                }
                assert(p == i);
            }
            snaps.set(i, s);
            return;
        }
        i = i + 1;
    }
    snaps.push(s);
}

/// The indices among the first `n` whose share bit is 1, in order.
pub open spec fn share_mask(bits: Seq<u8>, n: nat) -> Seq<u64>
    decreases n,
{
    if n == 0 {
        Seq::empty()
    } else if bits[n - 1] == 1 {
        share_mask(bits, (n - 1) as nat).push((n - 1) as u64)
    } else {
        share_mask(bits, (n - 1) as nat)
    }
}

/// The indices where a share's bit is 1.
fn share_indices(share: &DpfPointShare) -> (r: Vec<u64>)
    ensures
        r@ == share_mask(share.bits@, share.bits@.len()),
{
    let mut out: Vec<u64> = Vec::new();
    let mut i: usize = 0;
    while i < share.bits.len()
        invariant
            i <= share.bits@.len(),
            out@ == share_mask(share.bits@, i as nat),
        decreases share.bits@.len() - i,
    {
        if share.bits[i] == 1 {
            out.push(i as u64);
        }
        i = i + 1;
    }
    out
}

/// The bytewise XOR of two equally long results.
pub open spec fn xor_seq(a: Seq<u8>, b: Seq<u8>) -> Seq<u8> {
    Seq::new(a.len(), |i: int| a[i] ^ b[i])
}

/// Asks two servers for the XOR of the buckets each share selects in
/// `epoch_id` and XORs the answers; the servers must hold the same snapshot.
pub fn evaluate_two_server_pir(
    left: &DpfStorageRelayEngine,
    right: &DpfStorageRelayEngine,
    epoch_id: u64,
    left_share: &DpfPointShare,
    right_share: &DpfPointShare,
) -> (r: Result<Vec<u8>, String>)
    ensures
        match (snapshot_of(left.active_snapshots@, epoch_id), snapshot_of(right.active_snapshots@, epoch_id)) {
            (Some(l), Some(rt)) => if l.merkle_root_hash@ != rt.merkle_root_hash@ {
                r matches Err(e) && e@ == ascii_chars(msg_root_mismatch())
            } else {
                r matches Ok(v) && v@ == xor_seq(
                    query_xor(l.shard_buckets@, share_mask(left_share.bits@, left_share.bits@.len())),
                    query_xor(rt.shard_buckets@, share_mask(right_share.bits@, right_share.bits@.len())),
                )
            },
            _ => r matches Err(e) && e@ == ascii_chars(msg_epoch_not_found()),
        },
{
    let left_indices = share_indices(left_share);
    let right_indices = share_indices(right_share);
    let (left_res, left_root) = match left.evaluate_dpf_query(epoch_id, left_indices.as_slice()) {
        Ok(x) => x,
        Err(e) => return Err(e),
    };
    let (right_res, right_root) = match right.evaluate_dpf_query(epoch_id, right_indices.as_slice()) {
        Ok(x) => x,
        Err(e) => return Err(e),
    };
    if left_root != right_root {
        return Err(string_from_ascii(msg_root_mismatch_bytes()));
    }
    proof {
        lemma_query_xor_len(snapshot_of(left.active_snapshots@, epoch_id)->0.shard_buckets@, left_indices@);
        lemma_query_xor_len(snapshot_of(right.active_snapshots@, epoch_id)->0.shard_buckets@, right_indices@);
    }
    let n = if left_res.len() >= right_res.len() { left_res.len() } else { right_res.len() };
    let mut combined: Vec<u8> = Vec::new();
    crate::bytes::push_zeros(&mut combined, n);
    let mut i: usize = 0;
    while i < left_res.len()
        invariant
            i <= left_res@.len() == 4096,
            right_res@.len() == 4096,
            n == 4096,
            combined@.len() == n,
            forall|j: int| 0 <= j < i ==> #[trigger] combined@[j] == left_res@[j],
            forall|j: int| i <= j < n ==> #[trigger] combined@[j] == 0,
        decreases left_res@.len() - i,
    {
        let v = combined[i] ^ left_res[i];
        proof {
            crate::gf28::lemma_xor_zero(left_res@[i as int]);
        }
        combined.set(i, v);
        i = i + 1;
    }
    let mut j: usize = 0;
    while j < right_res.len()
        invariant
            j <= right_res@.len() == 4096,
            left_res@.len() == 4096,
            combined@.len() == 4096,
            forall|q: int| 0 <= q < j ==> #[trigger] combined@[q] == left_res@[q] ^ right_res@[q],
            forall|q: int| j <= q < 4096 ==> #[trigger] combined@[q] == left_res@[q],
        decreases right_res@.len() - j,
    {
        let v = combined[j] ^ right_res[j];
        combined.set(j, v);
        j = j + 1;
    }
    assert(combined@ =~= xor_seq(left_res@, right_res@));
    Ok(combined)
}

proof fn lemma_query_xor_len(buckets: Seq<(u64, Vec<u8>)>, mask: Seq<u64>)
    ensures
        query_xor(buckets, mask).len() == result_len(),
    decreases mask.len(),
{
    if mask.len() > 0 {
        lemma_query_xor_len(buckets, mask.drop_last());
    }
}

/// What two shares that differ only at `t` reconstruct over `n` indices:
/// the bytes of bucket `t` (zero-padded to the result size) once `t < n`,
/// and zeros before.
pub open spec fn target_bytes(buckets: Seq<(u64, Vec<u8>)>, t: int, n: nat) -> Seq<u8> {
    Seq::new(
        result_len(),
        |j: int|
            if t < n {
                match bucket_of(buckets, t as u64) {
                    Some(d) => crate::gf28::byte_at(d, j),
                    None => 0u8,
                }
            } else {
                0u8
            },
    )
}

proof fn lemma_flip_bit(x: u8)
    ensures
        x == 1 ==> x ^ 1u8 == 0,
        x == 0 ==> x ^ 1u8 == 1,
{
    assert((x == 1 ==> x ^ 1u8 == 0) && (x == 0 ==> x ^ 1u8 == 1)) by (bit_vector);
}

proof fn lemma_xor_cancel(x: u8, y: u8, d: u8)
    ensures
        (x ^ d) ^ (y ^ d) == x ^ y,
        (x ^ d) ^ y == (x ^ y) ^ d,
        x ^ (y ^ d) == (x ^ y) ^ d,
{
    crate::gf28::lemma_xor_swap4(x, d, y, d);
    crate::gf28::lemma_xor_zero(d);
    crate::gf28::lemma_xor_zero(x ^ y);
    crate::gf28::lemma_xor_assoc(x, d, y);
    crate::gf28::lemma_xor_comm(d, y);
    crate::gf28::lemma_xor_assoc(x, y, d);
}

/// Two-server retrieval recovers the target: when both servers hold the
/// same buckets and the shares differ only at `t` (whose bit is 0 or 1),
/// XORing the two answers gives bucket `t`, zero-padded.
pub proof fn lemma_pir_recovers_target(buckets: Seq<(u64, Vec<u8>)>, a: Seq<u8>, b: Seq<u8>, t: int)
    requires
        a.len() == b.len(),
        0 <= t < a.len(),
        a[t] == 0 || a[t] == 1,
        forall|i: int| 0 <= i < b.len() ==> #[trigger] b[i] == if i == t { a[i] ^ 1u8 } else { a[i] },
    ensures
        xor_seq(query_xor(buckets, share_mask(a, a.len())), query_xor(buckets, share_mask(b, b.len())))
            == target_bytes(buckets, t, a.len()),
{
    lemma_pir_prefix(buckets, a, b, t, a.len());
}

proof fn lemma_pir_prefix(buckets: Seq<(u64, Vec<u8>)>, a: Seq<u8>, b: Seq<u8>, t: int, n: nat)
    requires
        a.len() == b.len(),
        n <= a.len(),
        0 <= t < a.len(),
        a[t] == 0 || a[t] == 1,
        forall|i: int| 0 <= i < b.len() ==> #[trigger] b[i] == if i == t { a[i] ^ 1u8 } else { a[i] },
    ensures
        xor_seq(query_xor(buckets, share_mask(a, n)), query_xor(buckets, share_mask(b, n))) == target_bytes(
            buckets,
            t,
            n,
        ),
    decreases n,
{
    let x = query_xor(buckets, share_mask(a, n));
    let y = query_xor(buckets, share_mask(b, n));
    lemma_query_xor_len(buckets, share_mask(a, n));
    lemma_query_xor_len(buckets, share_mask(b, n));
    if n == 0 {
        assert forall|j: int| 0 <= j < result_len() implies xor_seq(x, y)[j] == target_bytes(buckets, t, n)[j] by {
            crate::gf28::lemma_xor_zero(0u8);
        }
        assert(xor_seq(x, y) =~= target_bytes(buckets, t, n));
    } else {
        let m = (n - 1) as nat;
        lemma_pir_prefix(buckets, a, b, t, m);
        let px = query_xor(buckets, share_mask(a, m));
        let py = query_xor(buckets, share_mask(b, m));
        lemma_query_xor_len(buckets, share_mask(a, m));
        lemma_query_xor_len(buckets, share_mask(b, m));
        let i = m as int;
        let bk = bucket_of(buckets, i as u64);
        assert(share_mask(a, n) == if a[i] == 1 { share_mask(a, m).push(i as u64) } else { share_mask(a, m) });
        assert(share_mask(b, n) == if b[i] == 1 { share_mask(b, m).push(i as u64) } else { share_mask(b, m) });
        if a[i] == 1 {
            assert(share_mask(a, n).drop_last() =~= share_mask(a, m));
        }
        if b[i] == 1 {
            assert(share_mask(b, n).drop_last() =~= share_mask(b, m));
        }
        assert forall|j: int| 0 <= j < result_len() implies #[trigger] xor_seq(x, y)[j] == target_bytes(buckets, t, n)[j] by {
            assert(xor_seq(px, py)[j] == target_bytes(buckets, t, m)[j]);
            match bk {
                None => {
                    assert(x[j] == px[j]);
                    assert(y[j] == py[j]);
                },
                Some(d) => {
                    if j < d.len() {
                        lemma_xor_cancel(px[j], py[j], d[j]);
                        crate::gf28::lemma_xor_zero(d[j]);
                        if i == t {
                            crate::gf28::lemma_xor_zero(px[j]);
                            assert(px[j] ^ py[j] == 0u8);
                            lemma_flip_bit(a[i]);
                        }
                    } else {
                        assert(x[j] == px[j]);
                        assert(y[j] == py[j]);
                    }
                },
            }
        }
        assert(xor_seq(x, y) =~= target_bytes(buckets, t, n));
    }
}

proof fn lemma_snapshot_of_first(snaps: Seq<EpochSnapshotMatrix>, e: u64, p: int)
    requires
        0 <= p < snaps.len(),
        snaps[p].epoch_id == e,
        forall|q: int| 0 <= q < p ==> (#[trigger] snaps[q]).epoch_id != e,
    ensures
        snapshot_of(snaps, e) == Some(snaps[p]),
    decreases snaps.len(),
{
    if p < snaps.len() - 1 {
        lemma_snapshot_of_first(snaps.drop_last(), e, p);
    } else {
        lemma_snapshot_of_none(snaps.drop_last(), e);
    }
}

proof fn lemma_snapshot_of_none(snaps: Seq<EpochSnapshotMatrix>, e: u64)
    requires
        forall|q: int| 0 <= q < snaps.len() ==> (#[trigger] snaps[q]).epoch_id != e,
    ensures
        snapshot_of(snaps, e) is None,
    decreases snaps.len(),
{
    if snaps.len() > 0 {
        lemma_snapshot_of_none(snaps.drop_last(), e);
    }
}

/// A snapshot stored under its epoch is the one a lookup of that epoch
/// finds.
pub proof fn lemma_committed_snapshot_is_found(snaps: Seq<EpochSnapshotMatrix>, s: EpochSnapshotMatrix)
    ensures
        snapshot_of(snapshots_insert(snaps, s), s.epoch_id) == Some(s),
{
    let e = s.epoch_id;
    if exists|p: int| 0 <= p < snaps.len() && (#[trigger] snaps[p]).epoch_id == e {
        let w = choose|p: int| 0 <= p < snaps.len() && (#[trigger] snaps[p]).epoch_id == e;
        lemma_first_match_exists(snaps, e, w);
        let p = choose|p: int|
            0 <= p < snaps.len() && (#[trigger] snaps[p]).epoch_id == e && forall|q: int|
                0 <= q < p ==> (#[trigger] snaps[q]).epoch_id != e;
        let u = snaps.update(p, s);
        assert forall|q: int| 0 <= q < p implies (#[trigger] u[q]).epoch_id != e by {
            assert(u[q] == snaps[q]);
        }
        lemma_snapshot_of_first(u, e, p);
    } else {
        let u = snaps.push(s);
        assert forall|q: int| 0 <= q < snaps.len() implies (#[trigger] u[q]).epoch_id != e by {
            assert(u[q] == snaps[q]);
        }
        lemma_snapshot_of_first(u, e, snaps.len() as int);
    }
}

proof fn lemma_first_match_exists(snaps: Seq<EpochSnapshotMatrix>, e: u64, w: int)
    requires
        0 <= w < snaps.len(),
        snaps[w].epoch_id == e,
    ensures
        exists|p: int|
            0 <= p < snaps.len() && (#[trigger] snaps[p]).epoch_id == e && forall|q: int|
                0 <= q < p ==> (#[trigger] snaps[q]).epoch_id != e,
    decreases w,
{
    if exists|q: int| 0 <= q < w && (#[trigger] snaps[q]).epoch_id == e {
        let q = choose|q: int| 0 <= q < w && (#[trigger] snaps[q]).epoch_id == e;
        lemma_first_match_exists(snaps, e, q);
    } else {
        assert(forall|q: int| 0 <= q < w ==> (#[trigger] snaps[q]).epoch_id != e);
    }
}
} // verus!
