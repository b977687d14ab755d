//! The snapshot file format of the DPF storage relay: one epoch's root
//! label and buckets, written as length-prefixed fields behind a magic.
use vstd::prelude::*;
use vstd::utf8::{decode_utf8, encode_utf8, valid_utf8};
use crate::bytes::{
    copy_range, has_prefix, lemma_u32_round_trip, lemma_u64_round_trip, push_all, push_u32_be, push_u64_be,
    read_u32_be, read_u64_be, u32_at, u32_be, u64_at, u64_be,
};
use crate::dpf_store::{EpochSnapshotMatrix, SNAPSHOT_MAGIC};
use crate::text::{ascii_chars, is_ascii_bytes, string_from_ascii, string_from_utf8};

verus! {

/// `"INVALID_SNAPSHOT_MAGIC"` as bytes.
pub open spec fn msg_bad_snapshot_magic() -> Seq<u8> {
    seq![
        0x49u8, 0x4e, 0x56, 0x41, 0x4c, 0x49, 0x44, 0x5f, 0x53, 0x4e, 0x41, 0x50, 0x53, 0x48, 0x4f,
        0x54, 0x5f, 0x4d, 0x41, 0x47, 0x49, 0x43,
    ]
}

fn msg_bad_snapshot_magic_bytes() -> (r: Vec<u8>)
    ensures
        r@ == msg_bad_snapshot_magic(),
        is_ascii_bytes(r@),
{
    let r: Vec<u8> = vec![
        0x49u8, 0x4e, 0x56, 0x41, 0x4c, 0x49, 0x44, 0x5f, 0x53, 0x4e, 0x41, 0x50, 0x53, 0x48, 0x4f,
        0x54, 0x5f, 0x4d, 0x41, 0x47, 0x49, 0x43,
    ];
    assert(r@ =~= msg_bad_snapshot_magic());
    r
}

/// `"failed to fill whole buffer"` as bytes: a file that ends before a field does.
pub open spec fn msg_truncated_snapshot() -> Seq<u8> {
    seq![
        0x66u8, 0x61, 0x69, 0x6c, 0x65, 0x64, 0x20, 0x74, 0x6f, 0x20, 0x66, 0x69, 0x6c, 0x6c, 0x20,
        0x77, 0x68, 0x6f, 0x6c, 0x65, 0x20, 0x62, 0x75, 0x66, 0x66, 0x65, 0x72,
    ]
}

fn msg_truncated_snapshot_bytes() -> (r: Vec<u8>)
    ensures
        r@ == msg_truncated_snapshot(),
        is_ascii_bytes(r@),
{
    let r: Vec<u8> = vec![
        0x66u8, 0x61, 0x69, 0x6c, 0x65, 0x64, 0x20, 0x74, 0x6f, 0x20, 0x66, 0x69, 0x6c, 0x6c, 0x20,
        0x77, 0x68, 0x6f, 0x6c, 0x65, 0x20, 0x62, 0x75, 0x66, 0x66, 0x65, 0x72,
    ];
    assert(r@ =~= msg_truncated_snapshot());
    r
}

/// The buckets as plain values.
pub open spec fn bucket_views(b: Seq<(u64, Vec<u8>)>) -> Seq<(u64, Seq<u8>)> {
    b.map_values(|e: (u64, Vec<u8>)| (e.0, e.1@))
}

/// One bucket in a snapshot file: its index, the length of its data (as a
/// `u32`) and the data.
pub open spec fn bucket_record(idx: u64, data: Seq<u8>) -> Seq<u8> {
    u64_be(idx) + u32_be(data.len() as u32) + data
}

/// The bucket records one after another.
pub open spec fn records_bytes(r: Seq<(u64, Seq<u8>)>) -> Seq<u8>
    decreases r.len(),
{
    if r.len() == 0 {
        Seq::empty()
    } else {
        records_bytes(r.drop_last()) + bucket_record(r.last().0, r.last().1)
    }
}

/// The file of a snapshot: the magic, the epoch, the length of the root
/// label's UTF-8 bytes and those bytes, the number of buckets and the
/// buckets. Lengths and the count are written as `u32`.
pub open spec fn snapshot_bytes(s: EpochSnapshotMatrix) -> Seq<u8> {
    let root = encode_utf8(s.merkle_root_hash@);
    SNAPSHOT_MAGIC@ + u64_be(s.epoch_id) + u32_be(root.len() as u32) + root + u32_be(
        s.shard_buckets@.len() as u32,
    ) + records_bytes(bucket_views(s.shard_buckets@))
}

/// Why a snapshot file is refused: it ends before a field does, it does not
/// start with the magic, or the root label is not UTF-8.
#[derive(Debug, Clone, Copy, PartialEq, Eq)]
pub enum SnapshotFault {
    Truncated,
    BadMagic,
    InvalidRoot,
}

/// Reading `n` bucket records from `pos`: the records and where they end,
/// or nothing when the bytes end first.
pub open spec fn records_parse(b: Seq<u8>, pos: int, n: nat) -> Option<(Seq<(u64, Seq<u8>)>, int)>
    decreases n,
{
    if n == 0 {
        Some((Seq::empty(), pos))
    } else {
        match records_parse(b, pos, (n - 1) as nat) {
            None => None,
            Some((recs, p)) => if p + 12 > b.len() || p + 12 + u32_at(b, p + 8) > b.len() {
                None
            } else {
                Some(
                    (
                        recs.push((u64_at(b, p), b.subrange(p + 12, p + 12 + u32_at(b, p + 8)))),
                        p + 12 + u32_at(b, p + 8),
                    ),
                )
            },
        }
    }
}

/// What a snapshot file holds: its epoch, the root label's bytes and the
/// bucket records in file order; or why it is refused. Bytes after the last
/// record are not read.
pub open spec fn snapshot_layout(b: Seq<u8>) -> Result<(u64, Seq<u8>, Seq<(u64, Seq<u8>)>), SnapshotFault> {
    if b.len() < 8 {
        Err(SnapshotFault::Truncated)
    } else if b.subrange(0, 8) != SNAPSHOT_MAGIC@ {
        Err(SnapshotFault::BadMagic)
    } else if b.len() < 20 || b.len() < 20 + u32_at(b, 16) {
        Err(SnapshotFault::Truncated)
    } else if !valid_utf8(b.subrange(20, 20 + u32_at(b, 16))) {
        Err(SnapshotFault::InvalidRoot)
    } else if b.len() < 24 + u32_at(b, 16) {
        Err(SnapshotFault::Truncated)
    } else {
        match records_parse(b, 24 + u32_at(b, 16), u32_at(b, 20 + u32_at(b, 16)) as nat) {
            None => Err(SnapshotFault::Truncated),
            Some((recs, _)) => Ok((u64_at(b, 8), b.subrange(20, 20 + u32_at(b, 16)), recs)),
        }
    }
}

/// The buckets with `data` stored under `idx`: it replaces the first bucket
/// of that index, or is added.
pub open spec fn records_insert(b: Seq<(u64, Seq<u8>)>, idx: u64, data: Seq<u8>) -> Seq<(u64, Seq<u8>)> {
    if exists|p: int| 0 <= p < b.len() && (#[trigger] b[p]).0 == idx {
        let p = choose|p: int|
            0 <= p < b.len() && (#[trigger] b[p]).0 == idx && forall|q: int| 0 <= q < p ==> (#[trigger] b[q]).0 != idx;
        b.update(p, (idx, data))
    } else {
        b.push((idx, data))
    }
}

/// The buckets a file's records make: each record in turn stored under its
/// index, so a later record of an index replaces an earlier one.
pub open spec fn buckets_from_records(r: Seq<(u64, Seq<u8>)>) -> Seq<(u64, Seq<u8>)>
    decreases r.len(),
{
    if r.len() == 0 {
        Seq::empty()
    } else {
        records_insert(buckets_from_records(r.drop_last()), r.last().0, r.last().1)
    }
}

/// Stores `data` under `idx`, replacing the first bucket of that index.
fn insert_record(buckets: &mut Vec<(u64, Vec<u8>)>, idx: u64, data: Vec<u8>)
    ensures
        bucket_views(final(buckets)@) == records_insert(bucket_views(old(buckets)@), idx, data@),
{
    let ghost before = bucket_views(buckets@);
    let mut i: usize = 0;
    while i < buckets.len()
        invariant
            i <= buckets@.len(),
            buckets@ == old(buckets)@,
            before == bucket_views(buckets@),
            forall|q: int| 0 <= q < i ==> (#[trigger] before[q]).0 != idx,
        decreases buckets@.len() - i,
    {
        if buckets[i].0 == idx {
            proof {
                assert(before[i as int].0 == idx);
                let p = choose|p: int|
                    0 <= p < before.len() && (#[trigger] before[p]).0 == idx && forall|q: int|
                        0 <= q < p ==> (#[trigger] before[q]).0 != idx;
                if p > i {
                    assert(before[i as int].0 != idx);
                }
                assert(p == i);
            }
            buckets.set(i, (idx, data));
            proof {
                assert(bucket_views(buckets@) =~= before.update(i as int, (idx, data@)));
            }
            return;
        }
        i = i + 1;
    }
    buckets.push((idx, data));
    assert(bucket_views(buckets@) =~= before.push((idx, data@)));
}

impl EpochSnapshotMatrix {
    /// The snapshot's file bytes.
    pub fn to_snapshot_bytes(&self) -> (r: Vec<u8>)
        ensures
            r@ == snapshot_bytes(*self),
    {
        let mut out: Vec<u8> = Vec::new();
        push_all(&mut out, &SNAPSHOT_MAGIC);
        push_u64_be(&mut out, self.epoch_id);
        let root = self.merkle_root_hash.as_str().as_bytes();
        push_u32_be(&mut out, root.len() as u32);
        push_all(&mut out, root);
        push_u32_be(&mut out, self.shard_buckets.len() as u32);
        let ghost head = out@;
        let ghost views = bucket_views(self.shard_buckets@);
        let mut i: usize = 0;
        assert(views.take(0) =~= Seq::<(u64, Seq<u8>)>::empty());
        while i < self.shard_buckets.len()
            invariant
                i <= self.shard_buckets@.len(),
                views == bucket_views(self.shard_buckets@),
                out@ == head + records_bytes(views.take(i as int)),
            decreases self.shard_buckets@.len() - i,
        {
            let idx = self.shard_buckets[i].0;
            let data = self.shard_buckets[i].1.as_slice();
            push_u64_be(&mut out, idx);
            push_u32_be(&mut out, data.len() as u32);
            push_all(&mut out, data);
            proof {
                assert(views.take(i + 1).drop_last() =~= views.take(i as int));
                assert(views.take(i + 1).last() == views[i as int]);
            }
            i = i + 1;
        }
        assert(views.take(views.len() as int) =~= views);
        assert(out@ =~= snapshot_bytes(*self));
        out
    }
}

/// One more record parsed: the record at the end of the first `n`.
proof fn lemma_records_parse_step(b: Seq<u8>, pos: int, n: nat)
    requires
        records_parse(b, pos, n) is Some,
    ensures
        ({
            let (recs, p) = records_parse(b, pos, n)->Some_0;
            records_parse(b, pos, n + 1) == if p + 12 > b.len() || p + 12 + u32_at(b, p + 8) > b.len() {
                None::<(Seq<(u64, Seq<u8>)>, int)>
            } else {
                Some(
                    (
                        recs.push((u64_at(b, p), b.subrange(p + 12, p + 12 + u32_at(b, p + 8)))),
                        p + 12 + u32_at(b, p + 8),
                    ),
                )
            }
        }),
{
    assert(((n + 1) - 1) as nat == n);
}

/// Records cannot be read past the end once reading them has failed.
proof fn lemma_records_parse_none(b: Seq<u8>, pos: int, n: nat, m: nat)
    requires
        records_parse(b, pos, n) is None,
        n <= m,
    ensures
        records_parse(b, pos, m) is None,
    decreases m - n,
{
    if n < m {
        lemma_records_parse_none(b, pos, n, (m - 1) as nat);
        assert(((m - 1) as nat + 1) as nat == m);
        assert(records_parse(b, pos, m) == match records_parse(b, pos, (m - 1) as nat) {
            None => None::<(Seq<(u64, Seq<u8>)>, int)>,
            Some(_) => records_parse(b, pos, m),
        });
    }
}

/// Where the first `n` records end lies within the bytes, past `pos`.
proof fn lemma_records_parse_end(b: Seq<u8>, pos: int, n: nat)
    requires
        0 <= pos <= b.len(),
        records_parse(b, pos, n) is Some,
    ensures
        pos <= records_parse(b, pos, n)->Some_0.1 <= b.len(),
        records_parse(b, pos, n)->Some_0.0.len() == n,
    decreases n,
{
    if n > 0 {
        lemma_records_parse_end(b, pos, (n - 1) as nat);
    }
}

impl EpochSnapshotMatrix {
    /// Reads a snapshot file: the magic, the epoch, the root label (which
    /// must be UTF-8) and the buckets, a later bucket of an index replacing
    /// an earlier one. Bytes after the last bucket are not read.
    pub fn from_snapshot_bytes(bytes: &[u8]) -> (r: Result<EpochSnapshotMatrix, String>)
        ensures
            match snapshot_layout(bytes@) {
                Err(SnapshotFault::Truncated) => r matches Err(e) && e@ == ascii_chars(msg_truncated_snapshot()),
                Err(SnapshotFault::BadMagic) => r matches Err(e) && e@ == ascii_chars(msg_bad_snapshot_magic()),
                Err(SnapshotFault::InvalidRoot) => r is Err,
                Ok((epoch, root, recs)) => r matches Ok(s) && s.epoch_id == epoch && s.merkle_root_hash@
                    == decode_utf8(root) && bucket_views(s.shard_buckets@) == buckets_from_records(recs),
            },
    {
        let b = bytes;
        if b.len() < 8 {
            return Err(string_from_ascii(msg_truncated_snapshot_bytes()));
        }
        if !has_prefix(b, &SNAPSHOT_MAGIC) {
            return Err(string_from_ascii(msg_bad_snapshot_magic_bytes()));
        }
        if b.len() < 20 {
            return Err(string_from_ascii(msg_truncated_snapshot_bytes()));
        }
        let epoch_id = read_u64_be(b, 8);
        let root_len = read_u32_be(b, 16) as usize;
        if b.len() - 20 < root_len {
            return Err(string_from_ascii(msg_truncated_snapshot_bytes()));
        }
        let root = copy_range(b, 20, 20 + root_len);
        let merkle_root_hash = match string_from_utf8(root) {
            Ok(text) => text,
            Err(message) => return Err(message),
        };
        if b.len() - 20 - root_len < 4 {
            return Err(string_from_ascii(msg_truncated_snapshot_bytes()));
        }
        let count = read_u32_be(b, 20 + root_len);
        let start: usize = 24 + root_len;
        let mut pos: usize = start;
        let mut buckets: Vec<(u64, Vec<u8>)> = Vec::new();
        let ghost mut recs: Seq<(u64, Seq<u8>)> = Seq::empty();
        let mut k: u32 = 0;
        assert(b@.subrange(0, 8) == SNAPSHOT_MAGIC@);
        while k < count
            invariant
                b@ == bytes@,
                k <= count,
                start == 24 + root_len,
                merkle_root_hash@ == decode_utf8(b@.subrange(20, 20 + root_len)),
                records_parse(b@, start as int, count as nat) is None ==> snapshot_layout(b@) == Err::<
                    (u64, Seq<u8>, Seq<(u64, Seq<u8>)>),
                    SnapshotFault,
                >(SnapshotFault::Truncated),
                records_parse(b@, start as int, count as nat) matches Some((rs, _)) ==> snapshot_layout(b@) == Ok::<
                    (u64, Seq<u8>, Seq<(u64, Seq<u8>)>),
                    SnapshotFault,
                >((epoch_id, b@.subrange(20, 20 + root_len), rs)),
                start <= pos <= b@.len(),
                records_parse(b@, start as int, k as nat) == Some((recs, pos as int)),
                bucket_views(buckets@) == buckets_from_records(recs),
            decreases count - k,
        {
            proof {
                lemma_records_parse_step(b@, start as int, k as nat);
            }
            if b.len() - pos < 12 {
                proof {
                    lemma_records_parse_none(b@, start as int, (k + 1) as nat, count as nat);
                }
                return Err(string_from_ascii(msg_truncated_snapshot_bytes()));
            }
            let idx = read_u64_be(b, pos);
            let len = read_u32_be(b, pos + 8) as usize;
            if b.len() - pos - 12 < len {
                proof {
                    lemma_records_parse_none(b@, start as int, (k + 1) as nat, count as nat);
                }
                return Err(string_from_ascii(msg_truncated_snapshot_bytes()));
            }
            let data = copy_range(b, pos + 12, pos + 12 + len);
            proof {
                assert(recs.push((idx, data@)).drop_last() =~= recs);
                recs = recs.push((idx, data@));
            }
            insert_record(&mut buckets, idx, data);
            pos = pos + 12 + len;
            k = k + 1;
        }
        Ok(EpochSnapshotMatrix { epoch_id, merkle_root_hash, shard_buckets: buckets })
    }
}

/// Every bucket's data fits a `u32` length field.
pub open spec fn record_lengths_fit(r: Seq<(u64, Seq<u8>)>) -> bool {
    forall|i: int| 0 <= i < r.len() ==> (#[trigger] r[i]).1.len() <= u32::MAX
}

/// The records of a prefix are a prefix of the records.
proof fn lemma_records_bytes_prefix(r: Seq<(u64, Seq<u8>)>, k: int)
    requires
        0 <= k <= r.len(),
    ensures
        records_bytes(r) == records_bytes(r.take(k)) + records_bytes(r).subrange(
            records_bytes(r.take(k)).len() as int,
            records_bytes(r).len() as int,
        ),
    decreases r.len(),
{
    if k == r.len() {
        assert(r.take(k) =~= r);
        assert(records_bytes(r).subrange(records_bytes(r).len() as int, records_bytes(r).len() as int)
            =~= Seq::<u8>::empty());
        assert(records_bytes(r) =~= records_bytes(r) + Seq::<u8>::empty());
    } else {
        let init = r.drop_last();
        lemma_records_bytes_prefix(init, k);
        assert(init.take(k) =~= r.take(k));
        let a = records_bytes(r.take(k));
        let whole = records_bytes(r);
        assert(whole == records_bytes(init) + bucket_record(r.last().0, r.last().1));
        assert(whole =~= a + whole.subrange(a.len() as int, whole.len() as int));
    }
}

/// Reading back the first `k` of records written after a header `h`.
proof fn lemma_records_parse_bytes(h: Seq<u8>, r: Seq<(u64, Seq<u8>)>, k: nat)
    requires
        k <= r.len(),
        record_lengths_fit(r),
    ensures
        records_parse(h + records_bytes(r), h.len() as int, k) == Some(
            (r.take(k as int), (h.len() + records_bytes(r.take(k as int)).len()) as int),
        ),
    decreases k,
{
    let b = h + records_bytes(r);
    if k == 0 {
        assert(r.take(0) =~= Seq::<(u64, Seq<u8>)>::empty());
    } else {
        let j = (k - 1) as nat;
        lemma_records_parse_bytes(h, r, j);
        let prev = r.take(j as int);
        let cur = r.take(k as int);
        assert(cur.drop_last() =~= prev);
        assert(cur.last() == r[j as int]);
        let (idx, data) = r[j as int];
        assert(data.len() <= u32::MAX);
        let rec = bucket_record(idx, data);
        assert(records_bytes(cur) == records_bytes(prev) + rec);
        lemma_records_bytes_prefix(r, k as int);
        let p: int = (h.len() + records_bytes(prev).len()) as int;
        let rest = records_bytes(r).subrange(records_bytes(cur).len() as int, records_bytes(r).len() as int);
        assert(b =~= h + records_bytes(prev) + rec + rest);
        assert(b.subrange(p, p + rec.len() as int) =~= rec);
        lemma_u64_round_trip(idx);
        lemma_u32_round_trip(data.len() as u32);
        assert(u64_at(b, p) == u64_at(rec, 0));
        assert(u64_at(rec, 0) == u64_at(u64_be(idx), 0));
        assert(u32_at(b, p + 8) == u32_at(rec, 8));
        assert(u32_at(rec, 8) == u32_at(u32_be(data.len() as u32), 0));
        assert(b.subrange(p + 12, p + 12 + data.len() as int) =~= data);
        lemma_records_parse_step(b, h.len() as int, j);
        assert(cur =~= prev.push((idx, data)));
    }
}

/// With distinct indices, storing the records in turn gives them back.
proof fn lemma_buckets_from_distinct_records(r: Seq<(u64, Seq<u8>)>)
    requires
        forall|i: int, j: int| 0 <= i < j < r.len() ==> (#[trigger] r[i]).0 != (#[trigger] r[j]).0,
    ensures
        buckets_from_records(r) == r,
    decreases r.len(),
{
    if r.len() > 0 {
        let init = r.drop_last();
        lemma_buckets_from_distinct_records(init);
        assert(!exists|p: int| 0 <= p < init.len() && (#[trigger] init[p]).0 == r.last().0) by {
            assert forall|p: int| 0 <= p < init.len() implies (#[trigger] init[p]).0 != r.last().0 by {
                assert(init[p] == r[p]);
            }
        }
        assert(init.push((r.last().0, r.last().1)) =~= r);
    }
}

/// The snapshot file round trip: reading the bytes `to_snapshot_bytes`
/// writes for a snapshot whose bucket indices are distinct (as a map holds
/// them) and whose lengths and count fit their `u32` fields gives back its
/// epoch, its root label and its buckets in order.
pub proof fn lemma_snapshot_round_trip(s: EpochSnapshotMatrix)
    requires
        encode_utf8(s.merkle_root_hash@).len() <= u32::MAX,
        s.shard_buckets@.len() <= u32::MAX,
        forall|i: int| 0 <= i < s.shard_buckets@.len() ==> (#[trigger] s.shard_buckets@[i]).1@.len() <= u32::MAX,
        forall|i: int, j: int|
            0 <= i < j < s.shard_buckets@.len() ==> (#[trigger] s.shard_buckets@[i]).0 != (#[trigger] s.shard_buckets@[j]).0,
    ensures
        snapshot_layout(snapshot_bytes(s)) matches Ok((epoch, root, recs)) && epoch == s.epoch_id && decode_utf8(root)
            == s.merkle_root_hash@ && buckets_from_records(recs) == bucket_views(s.shard_buckets@),
{
    broadcast use vstd::utf8::encode_utf8_valid_utf8, vstd::utf8::encode_utf8_decode_utf8;

    let root = encode_utf8(s.merkle_root_hash@);
    let views = bucket_views(s.shard_buckets@);
    let rl: int = root.len() as int;
    let n: nat = s.shard_buckets@.len();
    let h = SNAPSHOT_MAGIC@ + u64_be(s.epoch_id) + u32_be(rl as u32) + root + u32_be(n as u32);
    let b = snapshot_bytes(s);
    assert(b =~= h + records_bytes(views));
    lemma_u64_round_trip(s.epoch_id);
    lemma_u32_round_trip(rl as u32);
    lemma_u32_round_trip(n as u32);
    assert(b.subrange(0, 8) =~= SNAPSHOT_MAGIC@);
    assert(u64_at(b, 8) == u64_at(u64_be(s.epoch_id), 0));
    assert(u32_at(b, 16) == u32_at(u32_be(rl as u32), 0));
    assert(b.subrange(20, 20 + rl) =~= root);
    assert(u32_at(b, 20 + rl) == u32_at(u32_be(n as u32), 0));
    assert(valid_utf8(root));
    assert(record_lengths_fit(views)) by {
        assert forall|i: int| 0 <= i < views.len() implies (#[trigger] views[i]).1.len() <= u32::MAX by {
            assert(views[i] == (s.shard_buckets@[i].0, s.shard_buckets@[i].1@));
        }
    }
    lemma_records_parse_bytes(h, views, n);
    assert(views.take(n as int) =~= views);
    assert forall|i: int, j: int| 0 <= i < j < views.len() implies (#[trigger] views[i]).0 != (#[trigger] views[j]).0 by {
        assert(views[i].0 == s.shard_buckets@[i].0);
        assert(views[j].0 == s.shard_buckets@[j].0);
    }
    lemma_buckets_from_distinct_records(views);
}

} // verus!
