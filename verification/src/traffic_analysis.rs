//! Traffic-shape measurements over packet observations: synthetic
//! constant-rate traces, length and timing regularity, and a CSV form.
use vstd::prelude::*;
use vstd::string::StringSliceAdditionalSpecFns;
use crate::text::{
    ascii_chars, decimal, is_ascii_bytes, lemma_ascii_concat, parse_error_message, parse_error_message_bytes,
    parse_uint, parse_uint_bytes, push_decimal_ascii, string_from_ascii, ParseUintError, scan_digits,
};

verus! {

/// One packet seen on the wire: when, and how long.
#[derive(Debug, Clone, Copy, PartialEq, Eq, Structural)]
pub struct PacketObservation {
    pub timestamp_micros: u64,
    pub length_bytes: usize,
}

/// `packet_count` packets of `length_bytes` bytes, one every `interval_micros`.
pub fn synthesize_constant_rate_trace(packet_count: usize, interval_micros: u64, length_bytes: usize) -> (r: Vec<
    PacketObservation,
>)
    requires
        packet_count > 0 ==> (packet_count - 1) * interval_micros <= u64::MAX,
    ensures
        r@.len() == packet_count,
        forall|i: int|
            0 <= i < packet_count ==> #[trigger] r@[i] == (PacketObservation {
                timestamp_micros: (i * interval_micros) as u64,
                length_bytes,
            }),
{
    let mut out: Vec<PacketObservation> = Vec::new();
    let mut idx: usize = 0;
    while idx < packet_count
        invariant
            idx <= packet_count,
            packet_count > 0 ==> (packet_count - 1) * interval_micros <= u64::MAX,
            out@.len() == idx,
            forall|i: int|
                0 <= i < idx ==> #[trigger] out@[i] == (PacketObservation {
                    timestamp_micros: (i * interval_micros) as u64,
                    length_bytes,
                }),
        decreases packet_count - idx,
    {
        assert(idx * interval_micros <= (packet_count - 1) * interval_micros) by (nonlinear_arith)
            requires
                idx <= packet_count - 1,
        ;
        let ts = idx as u64 * interval_micros;
        out.push(PacketObservation { timestamp_micros: ts, length_bytes });
        idx = idx + 1;
    }
    out
}

/// The gap before packet `i + 1`, zero if the clock went backwards.
pub open spec fn interval_at(obs: Seq<PacketObservation>, i: int) -> u64 {
    if obs[i + 1].timestamp_micros >= obs[i].timestamp_micros {
        (obs[i + 1].timestamp_micros - obs[i].timestamp_micros) as u64
    } else {
        0
    }
}

/// The gaps between consecutive packets.
pub open spec fn intervals(obs: Seq<PacketObservation>) -> Seq<u64> {
    Seq::new(gap_count(obs.len()), |i: int| interval_at(obs, i))
}

/// How many gaps `n` packets have.
pub open spec fn gap_count(n: nat) -> nat {
    if n == 0 {
        0
    } else {
        (n - 1) as nat
    }
}

/// The gaps between consecutive packets.
pub fn observation_intervals(observations: &[PacketObservation]) -> (r: Vec<u64>)
    ensures
        r@ == intervals(observations@),
{
    let mut out: Vec<u64> = Vec::new();
    let mut i: usize = 1;
    while i < observations.len()
        invariant
            1 <= i,
            i <= observations@.len() || (observations@.len() == 0 && i == 1),
            out@.len() == i - 1,
            forall|j: int| 0 <= j < i - 1 ==> #[trigger] out@[j] == interval_at(observations@, j),
        decreases observations@.len() - i,
    {
        let dt = observations[i].timestamp_micros.saturating_sub(observations[i - 1].timestamp_micros);
        out.push(dt);
        i = i + 1;
    }
    if observations.len() > 0 {
        assert(i == observations@.len());
    }
    assert(intervals(observations@).len() == gap_count(observations@.len()));
    assert(out@.len() == gap_count(observations@.len()));
    assert forall|j: int| 0 <= j < out@.len() implies out@[j] == intervals(observations@)[j] by {}
    assert(out@ =~= intervals(observations@));
    out
}

/// Whether `v` occurs among the first `n` lengths.
pub open spec fn length_seen(obs: Seq<PacketObservation>, n: int, v: usize) -> bool {
    exists|j: int| 0 <= j < n && (#[trigger] obs[j]).length_bytes == v
}

/// How many distinct lengths occur among the first `n` packets.
pub open spec fn distinct_lengths(obs: Seq<PacketObservation>, n: nat) -> nat
    decreases n,
{
    if n == 0 {
        0
    } else {
        distinct_lengths(obs, (n - 1) as nat) + if length_seen(obs, n - 1, obs[n - 1].length_bytes) {
            0nat
        } else {
            1nat
        }
    }
}

/// The integer measurements of a trace.
#[derive(Debug, Clone, Copy, PartialEq, Eq, Structural)]
pub struct TrafficShape {
    pub packet_count: usize,
    pub unique_lengths: usize,
    pub max_interval_jitter_micros: u64,
    pub constant_length: bool,
    pub constant_interval: bool,
}

/// The largest and smallest of a non-empty sequence of gaps.
pub open spec fn seq_max(s: Seq<u64>) -> u64
    decreases s.len(),
{
    if s.len() <= 1 {
        if s.len() == 0 { 0 } else { s[0] }
    } else {
        let m = seq_max(s.drop_last());
        if s.last() > m { s.last() } else { m }
    }
}

pub open spec fn seq_min(s: Seq<u64>) -> u64
    decreases s.len(),
{
    if s.len() <= 1 {
        if s.len() == 0 { 0 } else { s[0] }
    } else {
        let m = seq_min(s.drop_last());
        if s.last() < m { s.last() } else { m }
    }
}

proof fn lemma_min_le_max(s: Seq<u64>)
    ensures
        seq_min(s) <= seq_max(s),
    decreases s.len(),
{
    if s.len() > 1 {
        lemma_min_le_max(s.drop_last());
    }
}

/// The spread between the longest and shortest gap (0 with fewer than two
/// packets).
pub open spec fn jitter(obs: Seq<PacketObservation>) -> u64 {
    let iv = intervals(obs);
    if iv.len() == 0 {
        0
    } else {
        (seq_max(iv) - seq_min(iv)) as u64
    }
}

/// Counts, distinct lengths and timing spread of a trace.
pub fn observation_shape(observations: &[PacketObservation]) -> (r: TrafficShape)
    ensures
        r.packet_count == observations@.len(),
        r.unique_lengths == distinct_lengths(observations@, observations@.len()),
        r.max_interval_jitter_micros == jitter(observations@),
        r.constant_length == (r.unique_lengths <= 1),
        r.constant_interval == (r.max_interval_jitter_micros == 0),
{
    let ghost obs = observations@;
    let mut unique: usize = 0;
    let mut i: usize = 0;
    while i < observations.len()
        invariant
            i <= obs.len(),
            obs == observations@,
            unique == distinct_lengths(obs, i as nat),
            unique <= i,
        decreases obs.len() - i,
    {
        let v = observations[i].length_bytes;
        let mut seen = false;
        let mut j: usize = 0;
        while j < i
            invariant
                j <= i < obs.len(),
                obs == observations@,
                v == obs[i as int].length_bytes,
                seen == length_seen(obs, j as int, v),
            decreases i - j,
        {
            if observations[j].length_bytes == v {
                seen = true;
            }
            proof {
                if seen && !length_seen(obs, j as int, v) {
                    assert(obs[j as int].length_bytes == v);
                }
                if length_seen(obs, j + 1, v) && !length_seen(obs, j as int, v) {
                    let w = choose|w: int| 0 <= w < j + 1 && (#[trigger] obs[w]).length_bytes == v;
                    assert(w == j);
                }
            }
            j = j + 1;
        }
        if !seen {
            unique = unique + 1;
        }
        i = i + 1;
    }
    let iv = observation_intervals(observations);
    let mut jit: u64 = 0;
    if iv.len() > 0 {
        let mut lo = iv[0];
        let mut hi = iv[0];
        let mut t: usize = 1;
        assert(iv@.take(1) =~= seq![iv@[0]]);
        while t < iv.len()
            invariant
                1 <= t <= iv@.len(),
                lo == seq_min(iv@.take(t as int)),
                hi == seq_max(iv@.take(t as int)),
            decreases iv@.len() - t,
        {
            assert(iv@.take(t + 1).drop_last() =~= iv@.take(t as int));
            if iv[t] < lo {
                lo = iv[t];
            }
            if iv[t] > hi {
                hi = iv[t];
            }
            t = t + 1;
        }
        assert(iv@.take(iv@.len() as int) =~= iv@);
        proof {
            lemma_min_le_max(iv@);
        }
        jit = hi - lo;
    }
    TrafficShape {
        packet_count: observations.len(),
        unique_lengths: unique,
        max_interval_jitter_micros: jit,
        constant_length: unique <= 1,
        constant_interval: jit == 0,
    }
}

/// `"timestamp_micros,length_bytes"` as bytes.
pub open spec fn csv_header() -> Seq<u8> {
    seq![
        0x74u8, 0x69, 0x6d, 0x65, 0x73, 0x74, 0x61, 0x6d, 0x70, 0x5f, 0x6d, 0x69, 0x63, 0x72, 0x6f,
        0x73, 0x2c, 0x6c, 0x65, 0x6e, 0x67, 0x74, 0x68, 0x5f, 0x62, 0x79, 0x74, 0x65, 0x73,
    ]
}

fn csv_header_bytes() -> (r: Vec<u8>)
    ensures
        r@ == csv_header(),
        is_ascii_bytes(r@),
{
    let r: Vec<u8> = vec![
        0x74u8, 0x69, 0x6d, 0x65, 0x73, 0x74, 0x61, 0x6d, 0x70, 0x5f, 0x6d, 0x69, 0x63, 0x72, 0x6f,
        0x73, 0x2c, 0x6c, 0x65, 0x6e, 0x67, 0x74, 0x68, 0x5f, 0x62, 0x79, 0x74, 0x65, 0x73,
    ];
    assert(r@ =~= csv_header());
    r
}

/// `"invalid csv line "` as bytes.
pub open spec fn msg_invalid_csv_line() -> Seq<u8> {
    seq![
        0x69u8, 0x6e, 0x76, 0x61, 0x6c, 0x69, 0x64, 0x20, 0x63, 0x73, 0x76, 0x20, 0x6c, 0x69, 0x6e,
        0x65, 0x20,
    ]
}

fn msg_invalid_csv_line_bytes() -> (r: Vec<u8>)
    ensures
        r@ == msg_invalid_csv_line(),
        is_ascii_bytes(r@),
{
    let r: Vec<u8> = vec![
        0x69u8, 0x6e, 0x76, 0x61, 0x6c, 0x69, 0x64, 0x20, 0x63, 0x73, 0x76, 0x20, 0x6c, 0x69, 0x6e,
        0x65, 0x20,
    ];
    assert(r@ =~= msg_invalid_csv_line());
    r
}

/// The CSV form: a header line, then `timestamp,length` per packet.
pub open spec fn csv_rows(obs: Seq<PacketObservation>) -> Seq<u8>
    decreases obs.len(),
{
    if obs.len() == 0 {
        csv_header().push(0x0a)
    } else {
        csv_rows(obs.drop_last()) + decimal(obs.last().timestamp_micros as nat) + seq![0x2cu8] + decimal(
            obs.last().length_bytes as nat,
        ) + seq![0x0au8]
    }
}

/// Writes the trace as CSV with a header line.
pub fn observations_to_csv(observations: &[PacketObservation]) -> (r: String)
    ensures
        r@ == ascii_chars(csv_rows(observations@)),
{
    let mut out = csv_header_bytes();
    out.push(0x0a);
    let mut i: usize = 0;
    assert(observations@.take(0) =~= Seq::<PacketObservation>::empty());
    while i < observations.len()
        invariant
            i <= observations@.len(),
            out@ == csv_rows(observations@.take(i as int)),
            is_ascii_bytes(out@),
        decreases observations@.len() - i,
    {
        let o = observations[i];
        let ghost before = out@;
        push_decimal_ascii(&mut out, o.timestamp_micros);
        out.push(0x2c);
        proof {
            lemma_ascii_concat(before + decimal(o.timestamp_micros as nat), seq![0x2cu8]);
        }
        push_decimal_ascii(&mut out, o.length_bytes as u64);
        let ghost mid = out@;
        out.push(0x0a);
        proof {
            lemma_ascii_concat(mid, seq![0x0au8]);
            assert(observations@.take(i + 1).drop_last() =~= observations@.take(i as int));
        }
        assert(out@ =~= csv_rows(observations@.take(i + 1)));
        i = i + 1;
    }
    assert(observations@.take(observations@.len() as int) =~= observations@);
    string_from_ascii(out)
}

/// Length of the whitespace character encoded at `i`, or 0 (`str::trim`'s
/// notion of whitespace, on UTF-8 bytes).
pub open spec fn ws_len_at(s: Seq<u8>, i: int) -> nat {
    if 0 <= i < s.len() && (s[i] == 0x20 || (0x09 <= s[i] <= 0x0d)) {
        1
    } else if 0 <= i && i + 2 <= s.len() && s[i] == 0xc2 && (s[i + 1] == 0x85 || s[i + 1] == 0xa0) {
        2
    } else if 0 <= i && i + 3 <= s.len() && is_ws3(s[i], s[i + 1], s[i + 2]) {
        3
    } else {
        0
    }
}

/// The three-byte encodings of Unicode whitespace.
pub open spec fn is_ws3(a: u8, b: u8, c: u8) -> bool {
    ||| a == 0xe1 && b == 0x9a && c == 0x80
    ||| a == 0xe2 && b == 0x80 && ((0x80 <= c <= 0x8a) || c == 0xa8 || c == 0xa9 || c == 0xaf)
    ||| a == 0xe2 && b == 0x81 && c == 0x9f
    ||| a == 0xe3 && b == 0x80 && c == 0x80
}

/// Length of the whitespace character encoded just before `j`, or 0.
pub open spec fn ws_len_before(s: Seq<u8>, j: int) -> nat {
    if 1 <= j <= s.len() && (s[j - 1] == 0x20 || (0x09 <= s[j - 1] <= 0x0d)) {
        1
    } else if 2 <= j <= s.len() && s[j - 2] == 0xc2 && (s[j - 1] == 0x85 || s[j - 1] == 0xa0) {
        2
    } else if 3 <= j <= s.len() && is_ws3(s[j - 3], s[j - 2], s[j - 1]) {
        3
    } else {
        0
    }
}

pub open spec fn trim_start(s: Seq<u8>) -> Seq<u8>
    decreases s.len(),
{
    if s.len() > 0 && ws_len_at(s, 0) > 0 {
        trim_start(s.skip(ws_len_at(s, 0) as int))
    } else {
        s
    }
}

pub open spec fn trim_end(s: Seq<u8>) -> Seq<u8>
    decreases s.len(),
{
    if ws_len_before(s, s.len() as int) > 0 {
        trim_end(s.take(s.len() - ws_len_before(s, s.len() as int)))
    } else {
        s
    }
}

/// The line without leading and trailing whitespace.
pub open spec fn trim(s: Seq<u8>) -> Seq<u8> {
    trim_end(trim_start(s))
}

fn ws_len_at_exec(b: &[u8], i: usize) -> (r: usize)
    ensures
        r == ws_len_at(b@, i as int),
{
    let n = b.len();
    if i < n && (b[i] == 0x20 || (0x09 <= b[i] && b[i] <= 0x0d)) {
        1
    } else if i < n && n - i >= 2 && b[i] == 0xc2 && (b[i + 1] == 0x85 || b[i + 1] == 0xa0) {
        2
    } else if i < n && n - i >= 3 && is_ws3_exec(b[i], b[i + 1], b[i + 2]) {
        3
    } else {
        0
    }
}

fn is_ws3_exec(a: u8, b: u8, c: u8) -> (r: bool)
    ensures
        r == is_ws3(a, b, c),
{
    (a == 0xe1 && b == 0x9a && c == 0x80) || (a == 0xe2 && b == 0x80 && ((0x80 <= c && c <= 0x8a) || c
        == 0xa8 || c == 0xa9 || c == 0xaf)) || (a == 0xe2 && b == 0x81 && c == 0x9f) || (a == 0xe3 && b
        == 0x80 && c == 0x80)
}

fn ws_len_before_exec(b: &[u8], j: usize) -> (r: usize)
    requires
        j <= b@.len(),
    ensures
        r == ws_len_before(b@, j as int),
{
    if j >= 1 && (b[j - 1] == 0x20 || (0x09 <= b[j - 1] && b[j - 1] <= 0x0d)) {
        1
    } else if j >= 2 && b[j - 2] == 0xc2 && (b[j - 1] == 0x85 || b[j - 1] == 0xa0) {
        2
    } else if j >= 3 && is_ws3_exec(b[j - 3], b[j - 2], b[j - 1]) {
        3
    } else {
        0
    }
}

proof fn lemma_ws_len_at_shift(s: Seq<u8>, a: int, i: int)
    requires
        0 <= a <= s.len(),
        0 <= i,
    ensures
        ws_len_at(s.skip(a), i) == ws_len_at(s, a + i),
{
}

/// The bounds of the line `b` trimmed of whitespace at both ends.
#[verifier::rlimit(50)]
fn trim_bounds(b: &[u8]) -> (r: (usize, usize))
    ensures
        r.0 <= r.1 <= b@.len(),
        b@.subrange(r.0 as int, r.1 as int) == trim(b@),
{
    let mut s: usize = 0;
    assert(b@.skip(0) =~= b@);
    while s < b.len() && ws_len_at_exec(b, s) > 0
        invariant
            s <= b@.len(),
            trim_start(b@) == trim_start(b@.skip(s as int)),
        decreases b@.len() - s,
    {
        let w = ws_len_at_exec(b, s);
        proof {
            let t = b@.skip(s as int);
            lemma_ws_len_at_shift(b@, s as int, 0);
            assert(t.skip(w as int) =~= b@.skip(s + w));
        }
        s = s + w;
    }
    proof {
        if s < b@.len() {
            lemma_ws_len_at_shift(b@, s as int, 0);
        }
    }
    let ghost ts = b@.skip(s as int);
    assert(trim_start(b@) == ts);
    let mut e: usize = b.len();
    assert(ts.take(ts.len() as int) =~= ts);
    while e > s && ws_len_before_exec(b, e) > 0 && ws_len_before_exec(b, e) <= e - s
        invariant
            s <= e <= b@.len(),
            ts == b@.skip(s as int),
            trim_end(ts) == trim_end(b@.subrange(s as int, e as int)),
        decreases e,
    {
        let w = ws_len_before_exec(b, e);
        proof {
            let t = b@.subrange(s as int, e as int);
            assert(ws_len_before(t, t.len() as int) == w);
            assert(t.take(t.len() - w) =~= b@.subrange(s as int, e - w));
        }
        e = e - w;
    }
    proof {
        let t = b@.subrange(s as int, e as int);
        if e > s {
            assert(ws_len_before(t, t.len() as int) == 0 || ws_len_before(t, t.len() as int) > t.len());
            assert(ws_len_before(t, t.len() as int) <= t.len());
        } else {
            assert(t.len() == 0);
        }
    }
    (s, e)
}


/// Where the line starting at `i` ends: the next `\n`, or the end.
pub open spec fn next_newline(s: Seq<u8>, i: int) -> int
    decreases s.len() - i,
{
    if i >= s.len() || i < 0 {
        s.len() as int
    } else if s[i] == 0x0a {
        i
    } else {
        next_newline(s, i + 1)
    }
}

proof fn lemma_next_newline_bounds(s: Seq<u8>, i: int)
    requires
        0 <= i,
    ensures
        i <= next_newline(s, i) || i > s.len(),
        next_newline(s, i) <= s.len(),
        next_newline(s, i) < s.len() ==> s[next_newline(s, i)] == 0x0a,
    decreases s.len() - i,
{
    if i < s.len() && s[i] != 0x0a {
        lemma_next_newline_bounds(s, i + 1);
    }
}

/// The lines from byte `i` on, as `str::lines` cuts them: at each `\n`,
/// dropping one `\r` before it; no empty line after a final `\n`.
pub open spec fn lines_from(s: Seq<u8>, i: int) -> Seq<Seq<u8>>
    decreases s.len() - i,
{
    if i >= s.len() || i < 0 {
        Seq::empty()
    } else {
        let e = next_newline(s, i);
        if e >= s.len() || e < i {
            seq![s.subrange(i, s.len() as int)]
        } else {
            let raw = s.subrange(i, e);
            let line = if raw.len() > 0 && raw.last() == 0x0d {
                raw.drop_last()
            } else {
                raw
            };
            seq![line] + lines_from(s, e + 1)
        }
    }
}

/// Index of the first `,` at or after `i`, or the length.
pub open spec fn first_comma(s: Seq<u8>, i: int) -> int
    decreases s.len() - i,
{
    if i >= s.len() || i < 0 {
        s.len() as int
    } else if s[i] == 0x2c {
        i
    } else {
        first_comma(s, i + 1)
    }
}

proof fn lemma_first_comma_bounds(s: Seq<u8>, i: int)
    requires
        0 <= i <= s.len(),
    ensures
        i <= first_comma(s, i) <= s.len(),
        first_comma(s, i) < s.len() ==> s[first_comma(s, i)] == 0x2c,
    decreases s.len() - i,
{
    if i < s.len() && s[i] != 0x2c {
        lemma_first_comma_bounds(s, i + 1);
    }
}

/// What line `line_no` contributes: nothing (the header, or a blank line),
/// a packet, or the error that stops the parse.
pub open spec fn line_outcome(line: Seq<u8>, line_no: nat) -> Option<Result<PacketObservation, Seq<u8>>> {
    if (line_no == 0 && trim(line) == csv_header()) || trim(line).len() == 0 {
        None
    } else {
        let c = first_comma(line, 0);
        if c >= line.len() {
            Some(Err(msg_invalid_csv_line() + decimal(line_no)))
        } else {
            match parse_uint(line.subrange(0, c), u64::MAX as nat) {
                Err(e) => Some(Err(parse_error_message(e))),
                Ok(ts) => match parse_uint(line.subrange(c + 1, line.len() as int), usize::MAX as nat) {
                    Err(e) => Some(Err(parse_error_message(e))),
                    Ok(len) => Some(
                        Ok(PacketObservation { timestamp_micros: ts as u64, length_bytes: len as usize }),
                    ),
                },
            }
        }
    }
}

/// The packets of the lines, or the first line's error.
pub open spec fn parse_rows(lines: Seq<Seq<u8>>) -> Result<Seq<PacketObservation>, Seq<u8>>
    decreases lines.len(),
{
    if lines.len() == 0 {
        Ok(Seq::empty())
    } else {
        match parse_rows(lines.drop_last()) {
            Err(e) => Err(e),
            Ok(v) => match line_outcome(lines.last(), (lines.len() - 1) as nat) {
                None => Ok(v),
                Some(Err(e)) => Err(e),
                Some(Ok(o)) => Ok(v.push(o)),
            },
        }
    }
}

fn range_equals(b: &[u8], s: usize, e: usize, want: &[u8]) -> (r: bool)
    requires
        s <= e <= b@.len(),
    ensures
        r == (b@.subrange(s as int, e as int) == want@),
{
    if e - s != want.len() {
        return false;
    }
    let mut i: usize = 0;
    while i < want.len()
        invariant
            i <= want@.len() == e - s,
            s <= e <= b@.len(),
            forall|j: int| 0 <= j < i ==> #[trigger] b@[s + j] == want@[j],
        decreases want@.len() - i,
    {
        if b[s + i] != want[i] {
            assert(b@.subrange(s as int, e as int)[i as int] != want@[i as int]);
            return false;
        }
        i = i + 1;
    }
    assert forall|j: int| 0 <= j < want@.len() implies b@.subrange(s as int, e as int)[j] == want@[j] by {
        assert(b@[s + j] == want@[j]);
    }
    assert(b@.subrange(s as int, e as int) =~= want@);
    true
}

/// Reads one non-skipped line into a packet, or gives its error.
fn parse_line(line: &[u8], line_no: usize) -> (r: Option<Result<PacketObservation, String>>)
    ensures
        match line_outcome(line@, line_no as nat) {
            None => r is None,
            Some(Ok(o)) => r == Some(Ok::<PacketObservation, String>(o)),
            Some(Err(m)) => r matches Some(Err(e)) && e@ == ascii_chars(m),
        },
{
    let (ts0, te0) = trim_bounds(line);
    let header = csv_header_bytes();
    if (line_no == 0 && range_equals(line, ts0, te0, header.as_slice())) || te0 == ts0 {
        return None;
    }
    let mut c: usize = 0;
    while c < line.len() && line[c] != 0x2c
        invariant
            c <= line@.len(),
            first_comma(line@, 0) == first_comma(line@, c as int),
        decreases line@.len() - c,
    {
        c = c + 1;
    }
    proof {
        lemma_first_comma_bounds(line@, c as int);
    }
    if c >= line.len() {
        let mut m = msg_invalid_csv_line_bytes();
        push_decimal_ascii(&mut m, line_no as u64);
        return Some(Err(string_from_ascii(m)));
    }
    let ts = match parse_uint_bytes(line, 0, c, u64::MAX) {
        Ok(v) => v,
        Err(e) => return Some(Err(string_from_ascii(parse_error_message_bytes(e)))),
    };
    let len = match parse_uint_bytes(line, c + 1, line.len(), usize::MAX as u64) {
        Ok(v) => v,
        Err(e) => return Some(Err(string_from_ascii(parse_error_message_bytes(e)))),
    };
    Some(Ok(PacketObservation { timestamp_micros: ts, length_bytes: len as usize }))
}

/// Reads a trace back from its CSV form; a header line and blank lines are
/// skipped.
pub fn observations_from_csv(csv: &str) -> (r: Result<Vec<PacketObservation>, String>)
    ensures
        match parse_rows(lines_from(csv.spec_bytes(), 0)) {
            Ok(v) => r matches Ok(w) && w@ == v,
            Err(m) => r matches Err(e) && e@ == ascii_chars(m),
        },
{
    let b = csv.as_bytes();
    let ghost all = b@;
    let mut out: Vec<PacketObservation> = Vec::new();
    let mut pos: usize = 0;
    let mut line_no: usize = 0;
    let ghost mut done: Seq<Seq<u8>> = Seq::empty();
    while pos < b.len()
        invariant
            all == b@,
            all == csv.spec_bytes(),
            pos <= b@.len(),
            lines_from(all, 0) == done + lines_from(all, pos as int),
            parse_rows(done) == Ok::<Seq<PacketObservation>, Seq<u8>>(out@),
            line_no == done.len(),
            line_no <= pos,
        decreases b@.len() - pos,
    {
        let mut e: usize = pos;
        while e < b.len() && b[e] != 0x0a
            invariant
                pos <= e <= b@.len(),
                next_newline(b@, pos as int) == next_newline(b@, e as int),
            decreases b@.len() - e,
        {
            e = e + 1;
        }
        proof {
            lemma_next_newline_bounds(b@, e as int);
        }
        let mut le = e;
        if e < b.len() && le > pos && b[le - 1] == 0x0d {
            le = le - 1;
        }
        let line = crate::bytes::copy_range(b, pos, le);
        let ghost line_view = line@;
        proof {
            let raw = b@.subrange(pos as int, e as int);
            if e < b@.len() {
                if raw.len() > 0 && raw.last() == 0x0d {
                    assert(raw.drop_last() =~= line_view);
                } else {
                    assert(raw =~= line_view);
                }
                assert(lines_from(b@, pos as int) == seq![line_view] + lines_from(b@, e + 1));
            } else {
                assert(lines_from(b@, pos as int) == seq![line_view]);
                assert(lines_from(b@, b@.len() as int) == Seq::<Seq<u8>>::empty());
            }
        }
        let ghost next_done = done.push(line_view);
        assert(next_done.drop_last() =~= done);
        match parse_line(line.as_slice(), line_no) {
            None => {},
            Some(Ok(o)) => {
                out.push(o);
            },
            Some(Err(m)) => {
                proof {
                    let rest = lines_from(all, if e < b@.len() { e + 1 } else { b@.len() as int });
                    assert(next_done.last() == line_view);
                    assert(parse_rows(next_done) == Err::<Seq<PacketObservation>, Seq<u8>>(line_outcome(line_view, line_no as nat)->0->Err_0));
                    lemma_parse_rows_err_prefix(next_done, rest);
                    assert(lines_from(all, 0) == next_done + rest);
                    assert(all == csv.spec_bytes());
                }
                return Err(m);
            },
        }
        proof {
            done = next_done;
        }
        if e < b.len() {
            pos = e + 1;
        } else {
            pos = b.len();
        }
        assert(lines_from(all, 0) == done + lines_from(all, pos as int));
        line_no = line_no + 1;
    }
    proof {
        assert(lines_from(all, pos as int) == Seq::<Seq<u8>>::empty());
        assert(done + Seq::<Seq<u8>>::empty() =~= done);
    }
    Ok(out)
}

/// An error in a prefix of the lines is the error of all of them.
proof fn lemma_parse_rows_err_prefix(pre: Seq<Seq<u8>>, rest: Seq<Seq<u8>>)
    requires
        parse_rows(pre) is Err,
    ensures
        parse_rows(pre + rest) == parse_rows(pre),
    decreases rest.len(),
{
    if rest.len() > 0 {
        lemma_parse_rows_err_prefix(pre, rest.drop_last());
        assert((pre + rest).drop_last() =~= pre + rest.drop_last());
    } else {
        assert(pre + rest =~= pre);
    }
}


/// One CSV data line: `timestamp,length`.
pub open spec fn csv_line(o: PacketObservation) -> Seq<u8> {
    decimal(o.timestamp_micros as nat) + seq![0x2cu8] + decimal(o.length_bytes as nat)
}

/// The data lines of a trace, each followed by a newline.
pub open spec fn csv_body(obs: Seq<PacketObservation>) -> Seq<u8>
    decreases obs.len(),
{
    if obs.len() == 0 {
        Seq::empty()
    } else {
        csv_body(obs.drop_last()) + csv_line(obs.last()) + seq![0x0au8]
    }
}

proof fn lemma_csv_rows_split(obs: Seq<PacketObservation>)
    ensures
        csv_rows(obs) == csv_header().push(0x0a) + csv_body(obs),
    decreases obs.len(),
{
    if obs.len() > 0 {
        lemma_csv_rows_split(obs.drop_last());
        assert(csv_rows(obs) =~= csv_header().push(0x0a) + csv_body(obs));
    } else {
        assert(csv_rows(obs) =~= csv_header().push(0x0a) + csv_body(obs));
    }
}

proof fn lemma_next_newline_shift(s: Seq<u8>, i: int, j: int)
    requires
        0 <= i,
        0 <= j,
        i + j <= s.len(),
    ensures
        next_newline(s, i + j) == i + next_newline(s.skip(i), j),
    decreases s.len() - (i + j),
{
    if i + j < s.len() && s[i + j] != 0x0a {
        lemma_next_newline_shift(s, i, j + 1);
    }
}

proof fn lemma_lines_shift(s: Seq<u8>, i: int)
    requires
        0 <= i <= s.len(),
    ensures
        lines_from(s, i) == lines_from(s.skip(i), 0),
    decreases s.len() - i,
{
    let t = s.skip(i);
    if i < s.len() {
        lemma_next_newline_shift(s, i, 0);
        lemma_next_newline_bounds(s, i);
        lemma_next_newline_bounds(t, 0);
        let e = next_newline(s, i);
        if e < s.len() {
            assert(s.subrange(i, e) =~= t.subrange(0, e - i));
            lemma_lines_shift(s, e + 1);
            lemma_lines_shift(t, e - i + 1);
            assert(s.skip(e + 1) =~= t.skip(e - i + 1));
        } else {
            assert(s.subrange(i, s.len() as int) =~= t.subrange(0, t.len() as int));
        }
    }
}

proof fn lemma_next_newline_prefix(x: Seq<u8>, y: Seq<u8>, i: int)
    requires
        0 <= i <= x.len(),
        next_newline(x, i) < x.len(),
    ensures
        next_newline(x + y, i) == next_newline(x, i),
    decreases x.len() - i,
{
    if i < x.len() && x[i] != 0x0a {
        lemma_next_newline_prefix(x, y, i + 1);
    }
}

/// The lines of text made of whole lines followed by more text are those
/// whole lines followed by the lines of the rest.
proof fn lemma_lines_concat(x: Seq<u8>, y: Seq<u8>)
    requires
        x.len() == 0 || x.last() == 0x0a,
    ensures
        lines_from(x + y, 0) == lines_from(x, 0) + lines_from(y, 0),
    decreases x.len(),
{
    if x.len() == 0 {
        assert(x + y =~= y);
    } else {
        lemma_next_newline_bounds(x, 0);
        let e = next_newline(x, 0);
        assert(e < x.len()) by {
            if e >= x.len() {
                lemma_no_newline_before(x, 0, x.len() - 1);
            }
        }
        lemma_next_newline_prefix(x, y, 0);
        let rest = x.skip(e + 1);
        assert(rest.len() == 0 || rest.last() == 0x0a);
        lemma_lines_concat(rest, y);
        lemma_lines_shift(x + y, e + 1);
        lemma_lines_shift(x, e + 1);
        assert((x + y).skip(e + 1) =~= rest + y);
        assert((x + y).subrange(0, e) =~= x.subrange(0, e));
        assert(lines_from(x + y, 0) == seq![lines_from(x, 0)[0]] + lines_from(x + y, e + 1));
        assert(lines_from(x, 0) == seq![lines_from(x, 0)[0]] + lines_from(x, e + 1));
        assert(lines_from(x + y, 0) =~= lines_from(x, 0) + lines_from(y, 0));
    }
}

proof fn lemma_no_newline_before(x: Seq<u8>, i: int, k: int)
    requires
        0 <= i <= k < x.len(),
        x[k] == 0x0a,
    ensures
        next_newline(x, i) <= k,
    decreases k - i,
{
    if x[i] != 0x0a {
        lemma_no_newline_before(x, i + 1, k);
    }
}

proof fn lemma_decimal_digits(n: nat)
    ensures
        forall|i: int| 0 <= i < decimal(n).len() ==> 48 <= #[trigger] decimal(n)[i] <= 57,
        decimal(n).len() >= 1,
    decreases n,
{
    if n >= 10 {
        lemma_decimal_digits(n / 10);
    }
}

proof fn lemma_parse_decimal(n: nat, max: nat)
    requires
        n <= max,
    ensures
        parse_uint(decimal(n), max) == Ok::<nat, ParseUintError>(n),
{
    lemma_scan_decimal(n, max);
    lemma_decimal_digits(n);
}

proof fn lemma_scan_decimal(n: nat, max: nat)
    requires
        n <= max,
    ensures
        scan_digits(decimal(n), max) == Ok::<nat, ParseUintError>(n),
    decreases n,
{
    let d = decimal(n);
    if n < 10 {
        assert(d.drop_last() =~= Seq::<u8>::empty());
    } else {
        lemma_scan_decimal(n / 10, max);
        assert(d.drop_last() =~= decimal(n / 10));
        assert((n / 10) * 10 + n % 10 == n);
    }
}

proof fn lemma_comma_after_digits(a: Seq<u8>, b: Seq<u8>, i: int)
    requires
        0 <= i <= a.len(),
        forall|k: int| 0 <= k < a.len() ==> 48 <= #[trigger] a[k] <= 57,
    ensures
        first_comma(a + seq![0x2cu8] + b, i) == a.len(),
    decreases a.len() - i,
{
    let s = a + seq![0x2cu8] + b;
    if i < a.len() {
        assert(s[i] == a[i]);
        lemma_comma_after_digits(a, b, i + 1);
    } else {
        assert(s[i] == 0x2c);
    }
}

/// A data line is neither blank nor a header, and reads back as the packet.
proof fn lemma_csv_line_outcome(o: PacketObservation, line_no: nat)
    requires
        line_no >= 1,
    ensures
        line_outcome(csv_line(o), line_no) == Some(Ok::<PacketObservation, Seq<u8>>(o)),
{
    let a = decimal(o.timestamp_micros as nat);
    let b = decimal(o.length_bytes as nat);
    let s = csv_line(o);
    lemma_decimal_digits(o.timestamp_micros as nat);
    lemma_decimal_digits(o.length_bytes as nat);
    assert(s[0] == a[0]);
    assert(s.last() == b.last());
    assert(ws_len_at(s, 0) == 0);
    assert(trim_start(s) == s);
    if s.len() >= 2 {
        let x = s[s.len() - 2];
        assert(x == 0x2c || (48 <= x <= 57)) by {
            if s.len() - 2 < a.len() {
                assert(x == a[s.len() - 2]);
            } else if s.len() - 2 == a.len() {
                assert(x == 0x2c);
            } else {
                assert(x == b[s.len() - 2 - a.len() - 1]);
            }
        }
    }
    if s.len() >= 3 {
        let x = s[s.len() - 3];
        assert(x == 0x2c || (48 <= x <= 57)) by {
            if s.len() - 3 < a.len() {
                assert(x == a[s.len() - 3]);
            } else if s.len() - 3 == a.len() {
                assert(x == 0x2c);
            } else {
                assert(x == b[s.len() - 3 - a.len() - 1]);
            }
        }
    }
    assert(ws_len_before(s, s.len() as int) == 0);
    assert(trim(s) == s);
    lemma_comma_after_digits(a, b, 0);
    assert(s.subrange(0, a.len() as int) =~= a);
    assert(s.subrange(a.len() as int + 1, s.len() as int) =~= b);
    lemma_parse_decimal(o.timestamp_micros as nat, u64::MAX as nat);
    lemma_parse_decimal(o.length_bytes as nat, usize::MAX as nat);
}

/// The data lines of a trace, one per packet.
pub open spec fn csv_lines(obs: Seq<PacketObservation>) -> Seq<Seq<u8>> {
    obs.map_values(|o: PacketObservation| csv_line(o))
}

proof fn lemma_body_lines(obs: Seq<PacketObservation>)
    ensures
        lines_from(csv_body(obs), 0) == csv_lines(obs),
    decreases obs.len(),
{
    if obs.len() > 0 {
        let init = obs.drop_last();
        lemma_body_lines(init);
        let b0 = csv_body(init);
        let l = csv_line(obs.last());
        let tail = l + seq![0x0au8];
        assert(b0.len() == 0 || b0.last() == 0x0a) by {
            if init.len() > 0 {
                assert(b0.last() == 0x0a);
            }
        }
        lemma_lines_concat(b0, tail);
        lemma_decimal_digits(obs.last().timestamp_micros as nat);
        lemma_decimal_digits(obs.last().length_bytes as nat);
        assert(forall|k: int| 0 <= k < l.len() ==> #[trigger] l[k] != 0x0a) by {
            let a = decimal(obs.last().timestamp_micros as nat);
            let b = decimal(obs.last().length_bytes as nat);
            assert forall|k: int| 0 <= k < l.len() implies #[trigger] l[k] != 0x0a by {
                if k < a.len() {
                    assert(l[k] == a[k]);
                } else if k > a.len() {
                    assert(l[k] == b[k - a.len() - 1]);
                }
            }
        }
        lemma_single_line(l);
        assert(csv_body(obs) == b0 + tail) by {
            assert(csv_body(obs) =~= b0 + tail);
        }
        assert(csv_lines(obs) =~= csv_lines(init) + seq![l]);
    } else {
        assert(csv_lines(obs) =~= Seq::<Seq<u8>>::empty());
    }
}

proof fn lemma_single_line(l: Seq<u8>)
    requires
        forall|k: int| 0 <= k < l.len() ==> #[trigger] l[k] != 0x0a,
        l.len() >= 1,
        l.last() != 0x0d,
    ensures
        lines_from(l + seq![0x0au8], 0) == seq![l],
{
    let s = l + seq![0x0au8];
    lemma_newline_at_end(l, 0);
    assert(s.subrange(0, l.len() as int) =~= l);
    assert(lines_from(s, l.len() as int + 1) == Seq::<Seq<u8>>::empty());
    assert(seq![l] + Seq::<Seq<u8>>::empty() =~= seq![l]);
}

proof fn lemma_newline_at_end(l: Seq<u8>, i: int)
    requires
        0 <= i <= l.len(),
        forall|k: int| 0 <= k < l.len() ==> #[trigger] l[k] != 0x0a,
    ensures
        next_newline(l + seq![0x0au8], i) == l.len(),
    decreases l.len() - i,
{
    let s = l + seq![0x0au8];
    if i < l.len() {
        assert(s[i] == l[i]);
        lemma_newline_at_end(l, i + 1);
    } else {
        assert(s[i] == 0x0a);
    }
}

proof fn lemma_parse_rows_data(obs: Seq<PacketObservation>)
    ensures
        parse_rows(seq![csv_header()] + csv_lines(obs)) == Ok::<Seq<PacketObservation>, Seq<u8>>(obs),
    decreases obs.len(),
{
    let lines = seq![csv_header()] + csv_lines(obs);
    if obs.len() == 0 {
        assert(lines =~= seq![csv_header()]);
        assert(lines.drop_last() =~= Seq::<Seq<u8>>::empty());
        lemma_header_trim();
        assert(line_outcome(csv_header(), 0) is None);
        assert(parse_rows(lines.drop_last()) == Ok::<Seq<PacketObservation>, Seq<u8>>(Seq::empty()));
        assert(obs =~= Seq::<PacketObservation>::empty());
    } else {
        lemma_parse_rows_data(obs.drop_last());
        assert(lines.drop_last() =~= seq![csv_header()] + csv_lines(obs.drop_last()));
        assert(lines.last() == csv_line(obs.last()));
        lemma_csv_line_outcome(obs.last(), obs.len());
        assert(parse_rows(lines.drop_last()) == Ok::<Seq<PacketObservation>, Seq<u8>>(obs.drop_last()));
        assert(line_outcome(lines.last(), (lines.len() - 1) as nat) == Some(Ok::<PacketObservation, Seq<u8>>(obs.last())));
        assert(obs.drop_last().push(obs.last()) =~= obs);
    }
}

proof fn lemma_header_trim()
    ensures
        trim(csv_header()) == csv_header(),
{
    let h = csv_header();
    assert(ws_len_at(h, 0) == 0);
    assert(ws_len_before(h, h.len() as int) == 0);
}

/// Reading back the CSV a trace was written as gives the trace.
pub proof fn lemma_csv_round_trip(obs: Seq<PacketObservation>)
    ensures
        parse_rows(lines_from(csv_rows(obs), 0)) == Ok::<Seq<PacketObservation>, Seq<u8>>(obs),
{
    lemma_csv_rows_split(obs);
    let h = csv_header().push(0x0a);
    lemma_lines_concat(h, csv_body(obs));
    assert(forall|k: int| 0 <= k < csv_header().len() ==> #[trigger] csv_header()[k] != 0x0a);
    lemma_single_line(csv_header());
    assert(h =~= csv_header() + seq![0x0au8]);
    lemma_body_lines(obs);
    lemma_parse_rows_data(obs);
}

/// Every byte of a written trace is ASCII.
proof fn lemma_csv_rows_ascii(obs: Seq<PacketObservation>)
    ensures
        is_ascii_bytes(csv_rows(obs)),
    decreases obs.len(),
{
    if obs.len() == 0 {
        assert(is_ascii_bytes(csv_header().push(0x0a)));
    } else {
        let init = obs.drop_last();
        let o = obs.last();
        lemma_csv_rows_ascii(init);
        crate::text::lemma_decimal_ascii(o.timestamp_micros as nat);
        crate::text::lemma_decimal_ascii(o.length_bytes as nat);
        let a = csv_rows(init) + decimal(o.timestamp_micros as nat);
        lemma_ascii_concat(csv_rows(init), decimal(o.timestamp_micros as nat));
        assert(is_ascii_bytes(seq![0x2cu8]));
        assert(is_ascii_bytes(seq![0x0au8]));
        lemma_ascii_concat(a, seq![0x2cu8]);
        lemma_ascii_concat(a + seq![0x2cu8], decimal(o.length_bytes as nat));
        lemma_ascii_concat(a + seq![0x2cu8] + decimal(o.length_bytes as nat), seq![0x0au8]);
    }
}

/// The CSV round trip on text: reading the text that `observations_to_csv`
/// writes for a trace gives that trace back.
pub proof fn lemma_csv_text_round_trip(obs: Seq<PacketObservation>, text: &str)
    requires
        text@ == ascii_chars(csv_rows(obs)),
    ensures
        parse_rows(lines_from(text.spec_bytes(), 0)) == Ok::<Seq<PacketObservation>, Seq<u8>>(obs),
{
    lemma_csv_rows_ascii(obs);
    crate::text::lemma_ascii_str_bytes(text, csv_rows(obs));
    lemma_csv_round_trip(obs);
}

} // verus!
