//! Integer measurements for traffic-analysis experiments: gap and length
//! histograms, flow latencies, and a single-hop adaptive-mix simulation that
//! records when each real packet leaves and what goes on the wire.
use vstd::prelude::*;
use crate::mix_policy::{is_flush, AdaptiveMixDecision, AdaptiveMixer, MixProfile, mixer_step, profile_config, ticked_wait, zero_telemetry};
use crate::traffic_analysis::{PacketObservation, interval_at};

verus! {

/// Ingress and egress time of one logical packet.
#[derive(Debug, Clone, Copy, PartialEq, Eq, Structural)]
pub struct FlowTimingPair {
    pub packet_id: u64,
    pub ingress_us: u64,
    pub egress_us: u64,
}

/// The bin of value `v` among `bins` bins of width `width`; the last bin
/// takes everything beyond.
pub open spec fn clamp_bin(q: int, bins: nat) -> int {
    if q < bins - 1 {
        q
    } else {
        bins - 1
    }
}

/// How many of the first `n` gaps fall into bin `b`.
pub open spec fn interval_count(obs: Seq<PacketObservation>, width: u64, bins: nat, n: nat, b: int) -> nat
    decreases n,
{
    if n == 0 {
        0
    } else {
        interval_count(obs, width, bins, (n - 1) as nat, b) + if clamp_bin(
            (interval_at(obs, n - 1) / width) as int,
            bins,
        ) == b {
            1nat
        } else {
            0nat
        }
    }
}

proof fn lemma_interval_count_le(obs: Seq<PacketObservation>, width: u64, bins: nat, n: nat, b: int)
    ensures
        interval_count(obs, width, bins, n, b) <= n,
    decreases n,
{
    if n > 0 {
        lemma_interval_count_le(obs, width, bins, (n - 1) as nat, b);
    }
}

/// The number of gaps between `n` packets.
pub open spec fn gaps(n: nat) -> nat {
    if n == 0 {
        0
    } else {
        (n - 1) as nat
    }
}

/// Histogram of the gaps between packets in bins of `bin_width_us`
/// microseconds; the last bin takes the longer gaps. With a zero width all
/// bins stay empty.
pub fn interval_histogram(observations: &[PacketObservation], bin_width_us: u64, bins: usize) -> (r: Vec<u64>)
    requires
        bins == 0 ==> bin_width_us == 0 || observations@.len() < 2,
    ensures
        r@.len() == if bins == 0 { 1 } else { bins },
        forall|b: int|
            0 <= b < r@.len() ==> #[trigger] r@[b] == if bin_width_us == 0 {
                0
            } else {
                interval_count(observations@, bin_width_us, bins as nat, gaps(observations@.len()), b)
            },
{
    let nb = if bins == 0 { 1 } else { bins };
    let mut hist: Vec<u64> = Vec::new();
    let mut z: usize = 0;
    while z < nb
        invariant
            z <= nb,
            hist@.len() == z,
            forall|b: int| 0 <= b < z ==> #[trigger] hist@[b] == 0,
        decreases nb - z,
    {
        hist.push(0);
        z = z + 1;
    }
    if bin_width_us == 0 {
        return hist;
    }
    let ghost obs = observations@;
    let mut w: usize = 1;
    while w < observations.len()
        invariant
            1 <= w,
            w <= obs.len() || (obs.len() == 0 && w == 1),
            obs == observations@,
            bin_width_us > 0,
            bins == 0 ==> obs.len() < 2,
            hist@.len() == nb,
            nb == if bins == 0 { 1 } else { bins },
            forall|b: int| 0 <= b < nb ==> #[trigger] hist@[b] == interval_count(obs, bin_width_us, bins as nat, (w - 1) as nat, b),
        decreases obs.len() - w,
    {
        let dt = observations[w].timestamp_micros.saturating_sub(observations[w - 1].timestamp_micros);
        assert(dt == interval_at(obs, w - 1));
        let q = dt / bin_width_us;
        let idx: usize = if q < (bins - 1) as u64 { q as usize } else { bins - 1 };
        assert(idx as int == clamp_bin((dt / bin_width_us) as int, bins as nat));
        proof {
            lemma_interval_count_le(obs, bin_width_us, bins as nat, (w - 1) as nat, idx as int);
        }
        let v = hist[idx].saturating_add(1);
        hist.set(idx, v);
        w = w + 1;
    }
    if observations.len() > 0 {
        assert(w == observations@.len());
    }
    hist
}

/// How many of the first `n` packets fall into length bin `b`.
pub open spec fn length_count(obs: Seq<PacketObservation>, max_len: nat, bins: nat, n: nat, b: int) -> nat
    decreases n,
{
    if n == 0 {
        0
    } else {
        length_count(obs, max_len, bins, (n - 1) as nat, b) + if clamp_bin(
            (sat_mul_usize(obs[n - 1].length_bytes as nat, bins) / (max_len + 1)) as int,
            bins,
        ) == b {
            1nat
        } else {
            0nat
        }
    }
}

/// `a * b` saturated at `usize::MAX`.
pub open spec fn sat_mul_usize(a: nat, b: nat) -> nat {
    if a * b > usize::MAX {
        usize::MAX as nat
    } else {
        a * b
    }
}

proof fn lemma_length_count_le(obs: Seq<PacketObservation>, max_len: nat, bins: nat, n: nat, b: int)
    ensures
        length_count(obs, max_len, bins, n, b) <= n,
    decreases n,
{
    if n > 0 {
        lemma_length_count_le(obs, max_len, bins, (n - 1) as nat, b);
    }
}

/// Histogram of packet lengths over `bins` equal bins up to `max_len`
/// (taken as at least 1); longer packets land in the last bin.
pub fn length_histogram(observations: &[PacketObservation], max_len: usize, bins: usize) -> (r: Vec<u64>)
    requires
        bins == 0 ==> observations@.len() == 0,
        max_len < usize::MAX,
    ensures
        r@.len() == if bins == 0 { 1 } else { bins },
        forall|b: int|
            0 <= b < r@.len() ==> #[trigger] r@[b] == length_count(
                observations@,
                if max_len == 0 { 1 } else { max_len as nat },
                bins as nat,
                observations@.len(),
                b,
            ),
{
    let nb = if bins == 0 { 1 } else { bins };
    let ml = if max_len == 0 { 1 } else { max_len };
    let mut hist: Vec<u64> = Vec::new();
    let mut z: usize = 0;
    while z < nb
        invariant
            z <= nb,
            hist@.len() == z,
            forall|b: int| 0 <= b < z ==> #[trigger] hist@[b] == 0,
        decreases nb - z,
    {
        hist.push(0);
        z = z + 1;
    }
    let ghost obs = observations@;
    let mut i: usize = 0;
    while i < observations.len()
        invariant
            i <= obs.len(),
            obs == observations@,
            bins == 0 ==> obs.len() == 0,
            ml >= 1,
            ml < usize::MAX,
            hist@.len() == nb,
            nb == if bins == 0 { 1 } else { bins },
            forall|b: int| 0 <= b < nb ==> #[trigger] hist@[b] == length_count(obs, ml as nat, bins as nat, i as nat, b),
        decreases obs.len() - i,
    {
        let prod = match observations[i].length_bytes.checked_mul(bins) {
            Some(p) => p,
            None => usize::MAX,
        };
        assert(prod == sat_mul_usize(obs[i as int].length_bytes as nat, bins as nat));
        let q = prod / (ml + 1);
        let idx: usize = if q < bins - 1 { q } else { bins - 1 };
        proof {
            lemma_length_count_le(obs, ml as nat, bins as nat, i as nat, idx as int);
        }
        let v = hist[idx].saturating_add(1);
        hist.set(idx, v);
        i = i + 1;
    }
    hist
}

/// Time each packet spent between ingress and egress (0 if egress came
/// first).
pub fn latencies_us(pairs: &[FlowTimingPair]) -> (r: Vec<u64>)
    ensures
        r@.len() == pairs@.len(),
        forall|i: int|
            0 <= i < pairs@.len() ==> #[trigger] r@[i] == if pairs@[i].egress_us >= pairs@[i].ingress_us {
                (pairs@[i].egress_us - pairs@[i].ingress_us) as u64
            } else {
                0
            },
{
    let mut out: Vec<u64> = Vec::new();
    let mut i: usize = 0;
    while i < pairs.len()
        invariant
            i <= pairs@.len(),
            out@.len() == i,
            forall|j: int|
                0 <= j < i ==> #[trigger] out@[j] == if pairs@[j].egress_us >= pairs@[j].ingress_us {
                    (pairs@[j].egress_us - pairs@[j].ingress_us) as u64
                } else {
                    0
                },
        decreases pairs@.len() - i,
    {
        out.push(pairs[i].egress_us.saturating_sub(pairs[i].ingress_us));
        i = i + 1;
    }
    out
}

/// `t` with `x` added `n` times, each addition saturating.
pub open spec fn sat_add_times(t: u64, x: u64, n: nat) -> u64
    decreases n,
{
    if n == 0 {
        t
    } else {
        let p = sat_add_times(t, x, (n - 1) as nat);
        if p + x > u64::MAX {
            u64::MAX
        } else {
            (p + x) as u64
        }
    }
}

/// `a * b` saturated at `u64::MAX`.
pub open spec fn sat_mul_u64(a: u64, b: u64) -> u64 {
    if a * b > u64::MAX {
        u64::MAX
    } else {
        (a * b) as u64
    }
}

/// The timing pairs of a flushed batch: each pending packet leaves at
/// `egress_us`.
pub open spec fn flushed(pending: Seq<(u64, u64)>, egress_us: u64) -> Seq<FlowTimingPair> {
    pending.map_values(|p: (u64, u64)| FlowTimingPair { packet_id: p.0, ingress_us: p.1, egress_us })
}

/// `n` packets of `len` bytes on the wire at `ts`.
pub open spec fn wire(n: nat, ts: u64, len: usize) -> Seq<PacketObservation> {
    Seq::new(n, |i: int| PacketObservation { timestamp_micros: ts, length_bytes: len })
}

/// How many cover cells a cover flush of `n` real packets emits: what
/// brings the batch to the effective K, and at least one.
pub open spec fn cover_count(mixer: AdaptiveMixer, n: nat) -> nat {
    let c = mixer.config.spec_cover_cells_needed(n as int);
    if c < 1 {
        1
    } else {
        c as nat
    }
}

/// Milliseconds as microseconds, saturating.
fn ms_to_us(ms: u64) -> (r: u64)
    ensures
        r == sat_mul_u64(ms, 1000),
{
    match ms.checked_mul(1000) {
        Some(v) => v,
        None => u64::MAX,
    }
}

/// Emits what a flush decision sends at `now_ms`: every pending real packet,
/// and after a cover flush the cover cells; a hold sends nothing.
fn apply_flush(
    decision: AdaptiveMixDecision,
    mixer: &AdaptiveMixer,
    pending: &mut Vec<(u64, u64)>,
    pairs: &mut Vec<FlowTimingPair>,
    egress: &mut Vec<PacketObservation>,
    total_bytes: &mut u64,
    now_ms: u64,
    packet_len: usize,
    cover_len: usize,
)
    ensures
        ({
            let egress_us = sat_mul_u64(now_ms, 1000);
            let n = old(pending)@.len();
            match decision {
                AdaptiveMixDecision::Hold | AdaptiveMixDecision::EmergencyHold => {
                    &&& final(pending)@ == old(pending)@
                    &&& final(pairs)@ == old(pairs)@
                    &&& final(egress)@ == old(egress)@
                    &&& *final(total_bytes) == *old(total_bytes)
                },
                AdaptiveMixDecision::CoverTrafficBackfill => {
                    &&& final(pending)@.len() == 0
                    &&& final(pairs)@ == old(pairs)@ + flushed(old(pending)@, egress_us)
                    &&& final(egress)@ == old(egress)@ + wire(n, egress_us, packet_len) + wire(
                        cover_count(*mixer, n),
                        egress_us,
                        cover_len,
                    )
                    &&& *final(total_bytes) == sat_add_times(
                        sat_add_times(*old(total_bytes), packet_len as u64, n),
                        cover_len as u64,
                        cover_count(*mixer, n),
                    )
                },
                _ => {
                    &&& final(pending)@.len() == 0
                    &&& final(pairs)@ == old(pairs)@ + flushed(old(pending)@, egress_us)
                    &&& final(egress)@ == old(egress)@ + wire(n, egress_us, packet_len)
                    &&& *final(total_bytes) == sat_add_times(*old(total_bytes), packet_len as u64, n)
                },
            }
        }),
{
    let egress_us = ms_to_us(now_ms);
    if decision == AdaptiveMixDecision::Hold || decision == AdaptiveMixDecision::EmergencyHold {
        return;
    }
    let ghost p0 = pending@;
    let ghost pairs0 = pairs@;
    let ghost egress0 = egress@;
    let ghost total0 = *total_bytes;
    let real_n = pending.len();
    let mut i: usize = 0;
    while i < real_n
        invariant
            i <= real_n == p0.len(),
            pending@ == p0,
            pairs@ == pairs0 + flushed(p0.take(i as int), egress_us),
            egress@ == egress0 + wire(i as nat, egress_us, packet_len),
            *total_bytes == sat_add_times(total0, packet_len as u64, i as nat),
        decreases real_n - i,
    {
        let (id, ing) = pending[i];
        pairs.push(FlowTimingPair { packet_id: id, ingress_us: ing, egress_us });
        egress.push(PacketObservation { timestamp_micros: egress_us, length_bytes: packet_len });
        *total_bytes = total_bytes.saturating_add(packet_len as u64);
        assert(flushed(p0.take(i + 1), egress_us) =~= flushed(p0.take(i as int), egress_us).push(
            FlowTimingPair { packet_id: id, ingress_us: ing, egress_us },
        ));
        assert(wire((i + 1) as nat, egress_us, packet_len) =~= wire(i as nat, egress_us, packet_len).push(
            PacketObservation { timestamp_micros: egress_us, length_bytes: packet_len },
        ));
        i = i + 1;
    }
    assert(p0.take(real_n as int) =~= p0);
    pending.clear();
    if decision == AdaptiveMixDecision::CoverTrafficBackfill {
        let needed = mixer.config.cover_cells_needed(real_n);
        let cover_n = if needed < 1 { 1 } else { needed };
        let ghost egress1 = egress@;
        let ghost total1 = *total_bytes;
        let mut c: usize = 0;
        while c < cover_n
            invariant
                c <= cover_n,
                egress@ == egress1 + wire(c as nat, egress_us, cover_len),
                *total_bytes == sat_add_times(total1, cover_len as u64, c as nat),
            decreases cover_n - c,
        {
            egress.push(PacketObservation { timestamp_micros: egress_us, length_bytes: cover_len });
            *total_bytes = total_bytes.saturating_add(cover_len as u64);
            assert(wire((c + 1) as nat, egress_us, cover_len) =~= wire(c as nat, egress_us, cover_len).push(
                PacketObservation { timestamp_micros: egress_us, length_bytes: cover_len },
            ));
            c = c + 1;
        }
        assert(egress@ =~= egress0 + wire(real_n as nat, egress_us, packet_len) + wire(
            cover_n as nat,
            egress_us,
            cover_len,
        ));
    }
}

/// What a simulated mix run produced: the real packets' timing pairs, the
/// packets on the wire, byte counts, and the mixer at the end (with its
/// telemetry).
pub struct MixSimulation {
    pub pairs: Vec<FlowTimingPair>,
    pub egress: Vec<PacketObservation>,
    pub total_bytes: u64,
    pub payload_bytes: u64,
    pub mixer: AdaptiveMixer,
}

proof fn lemma_sat_mul_mono(a: u64, b: u64)
    requires
        a <= b,
    ensures
        sat_mul_u64(a, 1000) <= sat_mul_u64(b, 1000),
{
    assert(a * 1000 <= b * 1000) by (nonlinear_arith)
        requires
            a <= b,
    ;
}

/// The invariant of a simulation in progress at time `now_us`: the pairs
/// are packets `0..` in order, each left no earlier than it came; the
/// pending packets follow them, all arrived by `now_us`.
pub open spec fn simulation_ok(pairs: Seq<FlowTimingPair>, pending: Seq<(u64, u64)>, now_us: u64) -> bool {
    &&& forall|i: int|
        0 <= i < pairs.len() ==> (#[trigger] pairs[i]).packet_id == i && pairs[i].ingress_us <= pairs[i].egress_us
            && pairs[i].egress_us <= now_us
    &&& forall|j: int|
        0 <= j < pending.len() ==> (#[trigger] pending[j]).0 == pairs.len() + j && pending[j].1 <= now_us
}

proof fn lemma_flush_keeps_ok(pairs: Seq<FlowTimingPair>, pending: Seq<(u64, u64)>, now_us: u64)
    requires
        simulation_ok(pairs, pending, now_us),
    ensures
        simulation_ok(pairs + flushed(pending, now_us), Seq::empty(), now_us),
{
    let p2 = pairs + flushed(pending, now_us);
    assert forall|i: int| 0 <= i < p2.len() implies (#[trigger] p2[i]).packet_id == i && p2[i].ingress_us
        <= p2[i].egress_us && p2[i].egress_us <= now_us by {
        if i >= pairs.len() {
            assert(p2[i] == flushed(pending, now_us)[i - pairs.len()]);
            assert(pending[i - pairs.len()].0 == pairs.len() + (i - pairs.len()));
        }
    }
}

/// What `apply_flush` makes of the pending packets, the pairs, the wire and
/// the byte total on decision `d` at `now_ms`, with `m` the mixer after the
/// decision.
pub open spec fn flush_effect(
    d: AdaptiveMixDecision,
    m: AdaptiveMixer,
    pending: Seq<(u64, u64)>,
    pairs: Seq<FlowTimingPair>,
    egress: Seq<PacketObservation>,
    total: u64,
    now_ms: u64,
    packet_len: usize,
    cover_len: usize,
) -> (Seq<(u64, u64)>, Seq<FlowTimingPair>, Seq<PacketObservation>, u64) {
    let us = sat_mul_u64(now_ms, 1000);
    let n = pending.len();
    match d {
        AdaptiveMixDecision::Hold | AdaptiveMixDecision::EmergencyHold => (pending, pairs, egress, total),
        AdaptiveMixDecision::CoverTrafficBackfill => (
            Seq::empty(),
            pairs + flushed(pending, us),
            egress + wire(n, us, packet_len) + wire(cover_count(m, n), us, cover_len),
            sat_add_times(sat_add_times(total, packet_len as u64, n), cover_len as u64, cover_count(m, n)),
        ),
        _ => (
            Seq::empty(),
            pairs + flushed(pending, us),
            egress + wire(n, us, packet_len),
            sat_add_times(total, packet_len as u64, n),
        ),
    }
}

/// `x` added `n` times to `t` is `t + n * x` while that fits a `u64`.
proof fn lemma_sat_add_times_exact(t: u64, x: u64, n: nat)
    requires
        t + n * x <= u64::MAX,
    ensures
        sat_add_times(t, x, n) == t + n * x,
    decreases n,
{
    if n > 0 {
        let m = (n - 1) as nat;
        assert(t + m * x <= t + n * x && t + m * x + x == t + n * x) by (nonlinear_arith)
            requires
                m + 1 == n,
        ;
        lemma_sat_add_times_exact(t, x, m);
        assert(sat_add_times(t, x, n) == t + m * x + x);
    } else {
        assert(n * x == 0) by (nonlinear_arith)
            requires
                n == 0,
        ;
    }
}

/// A cover flush of `n` real packets sends `max(1, K - n)` cover cells, `K`
/// being the mixer's effective target: below `K`, real plus cover cells
/// make exactly `K`; at or above it, one cover cell goes out.
pub proof fn lemma_cover_flush_fills_to_k(m: AdaptiveMixer, n: nat)
    ensures
        cover_count(m, n) == if m.config.spec_effective_target_k() - n >= 1 {
            m.config.spec_effective_target_k() - n
        } else {
            1
        },
        n < m.config.spec_effective_target_k() ==> n + cover_count(m, n) == m.config.spec_effective_target_k(),
        n >= m.config.spec_effective_target_k() ==> cover_count(m, n) == 1,
{
}

/// What a cover flush puts on the wire: every pending real packet, then
/// `max(1, K - n)` cover cells, all at the flush time; below `K` the wire
/// gains exactly `K` cells. Nothing stays pending, each real packet gets its
/// timing pair, and the byte total grows by the real and cover bytes while
/// that fits a `u64`.
pub proof fn lemma_cover_flush_wire(
    m: AdaptiveMixer,
    pending: Seq<(u64, u64)>,
    pairs: Seq<FlowTimingPair>,
    egress: Seq<PacketObservation>,
    total: u64,
    now_ms: u64,
    packet_len: usize,
    cover_len: usize,
)
    ensures
        ({
            let f = flush_effect(
                AdaptiveMixDecision::CoverTrafficBackfill,
                m,
                pending,
                pairs,
                egress,
                total,
                now_ms,
                packet_len,
                cover_len,
            );
            let n = pending.len();
            let k = m.config.spec_effective_target_k();
            let c: int = if k - n >= 1 {
                k - n
            } else {
                1
            };
            &&& f.0.len() == 0
            &&& f.1.len() == pairs.len() + n
            &&& f.1.take(pairs.len() as int) == pairs
            &&& forall|i: int| 0 <= i < n ==> (#[trigger] f.1[pairs.len() + i]).packet_id == pending[i].0
                && f.1[pairs.len() + i].ingress_us == pending[i].1
            &&& f.2.len() == egress.len() + n + c
            &&& n < k ==> f.2.len() == egress.len() + k
            &&& f.2.take(egress.len() as int) == egress
            &&& forall|i: int|
                egress.len() <= i < f.2.len() ==> (#[trigger] f.2[i]).timestamp_micros == sat_mul_u64(now_ms, 1000)
            &&& forall|i: int| egress.len() <= i < egress.len() + n ==> (#[trigger] f.2[i]).length_bytes == packet_len
            &&& forall|i: int|
                egress.len() + n <= i < f.2.len() ==> (#[trigger] f.2[i]).length_bytes == cover_len
            &&& total + n * packet_len + c * cover_len <= u64::MAX ==> f.3 == total + n * packet_len + c
                * cover_len
        }),
{
    let n = pending.len();
    let c = cover_count(m, n);
    let us = sat_mul_u64(now_ms, 1000);
    let f = flush_effect(
        AdaptiveMixDecision::CoverTrafficBackfill,
        m,
        pending,
        pairs,
        egress,
        total,
        now_ms,
        packet_len,
        cover_len,
    );
    assert(f.1.take(pairs.len() as int) =~= pairs);
    assert(f.2.take(egress.len() as int) =~= egress);
    assert forall|i: int| egress.len() <= i < egress.len() + n implies (#[trigger] f.2[i]).length_bytes == packet_len
        && f.2[i].timestamp_micros == us by {
        assert(f.2[i] == wire(n, us, packet_len)[i - egress.len()]);
    }
    assert forall|i: int| egress.len() + n <= i < f.2.len() implies (#[trigger] f.2[i]).length_bytes == cover_len
        && f.2[i].timestamp_micros == us by {
        assert(f.2[i] == wire(c, us, cover_len)[i - egress.len() - n]);
    }
    let t1 = total + n * packet_len;
    if total + n * packet_len + c * cover_len <= u64::MAX {
        assert(0 <= c * cover_len) by (nonlinear_arith);
        lemma_sat_add_times_exact(total, packet_len as u64, n);
        lemma_sat_add_times_exact(t1 as u64, cover_len as u64, c);
    }
}

/// What the other decisions do: a hold sends nothing and keeps every
/// packet pending; a full- or reduced-threshold flush sends every pending
/// real packet at the flush time and no cover cell, and the byte total grows
/// by the real bytes while that fits a `u64`.
pub proof fn lemma_plain_flush_wire(
    d: AdaptiveMixDecision,
    m: AdaptiveMixer,
    pending: Seq<(u64, u64)>,
    pairs: Seq<FlowTimingPair>,
    egress: Seq<PacketObservation>,
    total: u64,
    now_ms: u64,
    packet_len: usize,
    cover_len: usize,
)
    requires
        d != AdaptiveMixDecision::CoverTrafficBackfill,
    ensures
        ({
            let f = flush_effect(d, m, pending, pairs, egress, total, now_ms, packet_len, cover_len);
            let n = pending.len();
            &&& !is_flush(d) ==> f == (pending, pairs, egress, total)
            &&& is_flush(d) ==> {
                &&& f.0.len() == 0
                &&& f.1.len() == pairs.len() + n
                &&& f.1.take(pairs.len() as int) == pairs
                &&& forall|i: int| 0 <= i < n ==> (#[trigger] f.1[pairs.len() + i]).packet_id == pending[i].0
                    && f.1[pairs.len() + i].ingress_us == pending[i].1
                &&& f.2.len() == egress.len() + n
                &&& f.2.take(egress.len() as int) == egress
                &&& forall|i: int|
                    egress.len() <= i < f.2.len() ==> (#[trigger] f.2[i]).length_bytes == packet_len
                        && f.2[i].timestamp_micros == sat_mul_u64(now_ms, 1000)
                &&& total + n * packet_len <= u64::MAX ==> f.3 == total + n * packet_len
            }
        }),
{
    let n = pending.len();
    let f = flush_effect(d, m, pending, pairs, egress, total, now_ms, packet_len, cover_len);
    if is_flush(d) {
        assert(f.1.take(pairs.len() as int) =~= pairs);
        assert(f.2.take(egress.len() as int) =~= egress);
        assert forall|i: int| egress.len() <= i < f.2.len() implies (#[trigger] f.2[i]).length_bytes == packet_len
            && f.2[i].timestamp_micros == sat_mul_u64(now_ms, 1000) by {
            assert(f.2[i] == wire(n, sat_mul_u64(now_ms, 1000), packet_len)[i - egress.len()]);
        }
        if total + n * packet_len <= u64::MAX {
            lemma_sat_add_times_exact(total, packet_len as u64, n);
        }
    }
}

/// A mix run in progress: the mixer, the pending packets (id, arrival in
/// microseconds), the timing pairs, the wire, the bytes sent, the clock in
/// milliseconds and how many real packets have arrived.
pub type MixRun = (AdaptiveMixer, Seq<(u64, u64)>, Seq<FlowTimingPair>, Seq<PacketObservation>, u64, u64, nat);

/// The arrival half of a step: the next real packet, if any is left,
/// joins the pending ones and the mixer decides.
pub open spec fn mix_arrival(s: MixRun, arrivals: nat, packet_len: usize, cover_len: usize) -> MixRun {
    if s.6 < arrivals {
        let pend = s.1.push((s.6 as u64, sat_mul_u64(s.5, 1000)));
        let step = mixer_step(s.0, s.0.batch_size.saturating_add(1), s.0.wait_ms);
        let f = flush_effect(step.0, step.1, pend, s.2, s.3, s.4, s.5, packet_len, cover_len);
        (step.1, f.0, f.1, f.2, f.3, s.5, s.6 + 1)
    } else {
        s
    }
}

/// The clock half of a step: the clock advances by the inter-arrival time
/// (1 ms once all packets have arrived) and the mixer decides.
pub open spec fn mix_tick(s: MixRun, arrivals: nat, inter_arrival_ms: u64, packet_len: usize, cover_len: usize) -> MixRun {
    let delta: u64 = if s.6 < arrivals {
        if inter_arrival_ms < 1 {
            1
        } else {
            inter_arrival_ms
        }
    } else {
        1
    };
    let now = s.5.saturating_add(delta);
    let step = mixer_step(s.0, s.0.batch_size, ticked_wait(s.0, delta));
    let f = flush_effect(step.0, step.1, s.1, s.2, s.3, s.4, now, packet_len, cover_len);
    (step.1, f.0, f.1, f.2, f.3, now, s.6)
}

/// One step of a run: an arrival, then a clock tick.
pub open spec fn mix_iteration(s: MixRun, arrivals: nat, inter_arrival_ms: u64, packet_len: usize, cover_len: usize) -> MixRun {
    mix_tick(mix_arrival(s, arrivals, packet_len, cover_len), arrivals, inter_arrival_ms, packet_len, cover_len)
}

/// The run from `s` for at most `fuel` steps, stopping once every real
/// packet has arrived and none is pending.
pub open spec fn mix_run(s: MixRun, arrivals: nat, inter_arrival_ms: u64, packet_len: usize, cover_len: usize, fuel: nat) -> MixRun
    decreases fuel,
{
    if fuel == 0 || !(s.6 < arrivals || s.1.len() > 0) {
        s
    } else {
        mix_run(mix_iteration(s, arrivals, inter_arrival_ms, packet_len, cover_len), arrivals, inter_arrival_ms, packet_len, cover_len, (fuel - 1) as nat)
    }
}

/// The whole run of `simulate_adaptive_mix_trace`: a fresh mixer of the
/// profile and a step budget of `1000 * arrivals + 10000`.
pub open spec fn mix_simulation(profile: MixProfile, arrivals: nat, inter_arrival_ms: u64, packet_len: usize, cover_len: usize) -> MixRun {
    let m = AdaptiveMixer { config: profile_config(profile), batch_size: 0, wait_ms: 0, telemetry: zero_telemetry() };
    mix_run((m, Seq::empty(), Seq::empty(), Seq::empty(), 0, 0, 0), arrivals, inter_arrival_ms, packet_len, cover_len, arrivals * 1000 + 10000)
}

/// What stays true through a run of a profile's mixer: the mixer holds
/// exactly the pending packets, its wait is below the profile's limit, and
/// no more packets are pending than have arrived.
pub open spec fn run_ok(s: MixRun, profile: MixProfile, arrivals: nat) -> bool {
    &&& s.0.config == profile_config(profile)
    &&& s.0.batch_size == s.1.len()
    &&& s.0.wait_ms < profile_config(profile).max_wait_ms
    &&& s.1.len() <= s.6 <= arrivals
    &&& arrivals <= usize::MAX
}

/// The work left in a run: each packet still to arrive weighs one more
/// than the longest wait, and a pending batch weighs what is left of its
/// wait.
pub open spec fn run_measure(s: MixRun, profile: MixProfile, arrivals: nat) -> int {
    let w = profile_config(profile).max_wait_ms as int;
    (arrivals - s.6) * (w + 1) + if s.1.len() > 0 {
        w - s.0.wait_ms
    } else {
        0
    }
}

proof fn lemma_decision_keeps(m: AdaptiveMixer, batch: usize, wait: u64, profile: MixProfile)
    requires
        m.config == profile_config(profile),
    ensures
        ({
            let st = mixer_step(m, batch, wait);
            &&& st.1.config == m.config
            &&& is_flush(st.0) ==> st.1.batch_size == 0 && st.1.wait_ms == 0
            &&& !is_flush(st.0) ==> st.1.batch_size == batch && st.1.wait_ms == wait && wait < m.config.max_wait_ms
            &&& (st.0 == AdaptiveMixDecision::Hold || st.0 == AdaptiveMixDecision::EmergencyHold) <==> !is_flush(st.0)
        }),
{
}

/// One step of a run keeps `run_ok` and lowers the work left.
proof fn lemma_iteration_progress(s: MixRun, profile: MixProfile, arrivals: nat, ia: u64, plen: usize, clen: usize)
    requires
        run_ok(s, profile, arrivals),
        s.6 < arrivals || s.1.len() > 0,
    ensures
        run_ok(mix_iteration(s, arrivals, ia, plen, clen), profile, arrivals),
        run_measure(mix_iteration(s, arrivals, ia, plen, clen), profile, arrivals) < run_measure(s, profile, arrivals),
{
    let w = profile_config(profile).max_wait_ms;
    assert(1 <= w <= 200);
    let s1 = mix_arrival(s, arrivals, plen, clen);
    if s.6 < arrivals {
        lemma_decision_keeps(s.0, s.0.batch_size.saturating_add(1), s.0.wait_ms, profile);
    }
    assert(run_ok(s1, profile, arrivals));
    let delta: u64 = if s1.6 < arrivals {
        if ia < 1 {
            1
        } else {
            ia
        }
    } else {
        1
    };
    lemma_decision_keeps(s1.0, s1.0.batch_size, ticked_wait(s1.0, delta), profile);
    let s2 = mix_iteration(s, arrivals, ia, plen, clen);
    assert(s2 == mix_tick(s1, arrivals, ia, plen, clen));
    assert(run_ok(s2, profile, arrivals));
    let a = arrivals - s.6;
    let t0: int = if s.1.len() > 0 { w - s.0.wait_ms } else { 0 };
    let t2: int = if s2.1.len() > 0 { w - s2.0.wait_ms } else { 0 };
    if s.6 < arrivals {
        assert(s2.6 == s.6 + 1);
        assert(0 <= t2 <= w);
        assert((a - 1) * (w + 1) + t2 < a * (w + 1) + t0) by (nonlinear_arith)
            requires
                0 <= t2 <= w,
                0 <= t0,
        ;
    } else {
        assert(s1 == s);
        assert(delta == 1);
        assert(s.1.len() > 0);
    }
}

/// A run with more steps than the work left ends with every real packet
/// arrived and none pending.
proof fn lemma_run_finishes(s: MixRun, profile: MixProfile, arrivals: nat, ia: u64, plen: usize, clen: usize, fuel: nat)
    requires
        run_ok(s, profile, arrivals),
        fuel > run_measure(s, profile, arrivals),
    ensures
        mix_run(s, arrivals, ia, plen, clen, fuel).6 == arrivals,
        mix_run(s, arrivals, ia, plen, clen, fuel).1.len() == 0,
    decreases fuel,
{
    if s.6 < arrivals || s.1.len() > 0 {
        assert(run_measure(s, profile, arrivals) >= 0) by (nonlinear_arith)
            requires
                s.6 <= arrivals,
                profile_config(profile).max_wait_ms >= 1,
                s.0.wait_ms < profile_config(profile).max_wait_ms,
        ;
        lemma_iteration_progress(s, profile, arrivals, ia, plen, clen);
        lemma_run_finishes(mix_iteration(s, arrivals, ia, plen, clen), profile, arrivals, ia, plen, clen, (fuel - 1) as nat);
    }
}

/// The step budget always suffices: a whole simulation ends with every
/// real packet arrived and sent.
pub proof fn lemma_simulation_completes(profile: MixProfile, arrivals: nat, ia: u64, plen: usize, clen: usize)
    requires
        arrivals * 1000 + 10000 <= usize::MAX,
    ensures
        mix_simulation(profile, arrivals, ia, plen, clen).6 == arrivals,
        mix_simulation(profile, arrivals, ia, plen, clen).1.len() == 0,
{
    let m = AdaptiveMixer { config: profile_config(profile), batch_size: 0, wait_ms: 0, telemetry: zero_telemetry() };
    let s: MixRun = (m, Seq::empty(), Seq::empty(), Seq::empty(), 0, 0, 0);
    let w = profile_config(profile).max_wait_ms;
    assert(1 <= w <= 200);
    assert(run_ok(s, profile, arrivals));
    assert(arrivals * (w + 1) < arrivals * 1000 + 10000) by (nonlinear_arith)
        requires
            w <= 200,
    ;
    lemma_run_finishes(s, profile, arrivals, ia, plen, clen, arrivals * 1000 + 10000);
}

/// Runs one mix of `profile` over `real_packets` packets arriving every
/// `inter_arrival_ms` (then idle 1 ms ticks) until every packet has left or
/// a step budget runs out.
pub fn simulate_adaptive_mix_trace(
    profile: MixProfile,
    real_packets: usize,
    inter_arrival_ms: u64,
    packet_len: usize,
    cover_len: usize,
) -> (r: MixSimulation)
    requires
        real_packets * packet_len <= usize::MAX,
        real_packets * 1000 + 10000 <= usize::MAX,
    ensures
        r.payload_bytes == real_packets * packet_len,
        r.mixer.config == profile_config(profile),
        r.pairs@.len() == real_packets,
        forall|i: int|
            0 <= i < r.pairs@.len() ==> (#[trigger] r.pairs@[i]).packet_id == i && r.pairs@[i].ingress_us
                <= r.pairs@[i].egress_us,
        r.egress@.len() >= r.pairs@.len(),
        ({
            let fin = mix_simulation(profile, real_packets as nat, inter_arrival_ms, packet_len, cover_len);
            &&& r.mixer == fin.0
            &&& r.pairs@ == fin.2
            &&& r.egress@ == fin.3
            &&& r.total_bytes == fin.4
        }),
{
    let cfg = profile.config();
    let mut mixer = AdaptiveMixer::new(cfg);
    let mut pairs: Vec<FlowTimingPair> = Vec::new();
    let mut egress: Vec<PacketObservation> = Vec::new();
    let mut pending: Vec<(u64, u64)> = Vec::new();
    let mut now_ms: u64 = 0;
    let mut next_id: u64 = 0;
    let mut real_sent: usize = 0;
    let mut total_bytes: u64 = 0;
    let payload_bytes = (real_packets * packet_len) as u64;
    let budget = real_packets * 1000 + 10000;
    let mut safety: usize = 0;
    let ghost fin = mix_simulation(profile, real_packets as nat, inter_arrival_ms, packet_len, cover_len);
    assert(mixer == (AdaptiveMixer { config: profile_config(profile), batch_size: 0, wait_ms: 0, telemetry: zero_telemetry() }));
    assert(pending@ =~= Seq::<(u64, u64)>::empty());
    assert(pairs@ =~= Seq::<FlowTimingPair>::empty());
    assert(egress@ =~= Seq::<PacketObservation>::empty());
    while real_sent < real_packets || pending.len() > 0
        invariant_except_break
            safety <= budget,
            mix_run(
                (mixer, pending@, pairs@, egress@, total_bytes, now_ms, real_sent as nat),
                real_packets as nat,
                inter_arrival_ms,
                packet_len,
                cover_len,
                (budget - safety) as nat,
            ) == fin,
        invariant
            budget == real_packets * 1000 + 10000,
            budget <= usize::MAX,
            real_sent <= real_packets,
            next_id == real_sent,
            pairs@.len() + pending@.len() == real_sent,
            egress@.len() >= pairs@.len(),
            mixer.config == profile_config(profile),
            simulation_ok(pairs@, pending@, sat_mul_u64(now_ms, 1000)),
            fin == mix_simulation(profile, real_packets as nat, inter_arrival_ms, packet_len, cover_len),
        ensures
            (mixer, pending@, pairs@, egress@, total_bytes, now_ms, real_sent as nat) == fin,
        decreases budget - safety,
    {
        let ghost s0: MixRun = (mixer, pending@, pairs@, egress@, total_bytes, now_ms, real_sent as nat);
        safety = safety + 1;
        if safety > budget {
            break;
        }
        assert(mix_run(s0, real_packets as nat, inter_arrival_ms, packet_len, cover_len, (budget - (safety - 1)) as nat)
            == mix_run(mix_iteration(s0, real_packets as nat, inter_arrival_ms, packet_len, cover_len), real_packets as nat,
            inter_arrival_ms, packet_len, cover_len, (budget - safety) as nat));
        if real_sent < real_packets {
            let ingress_us = ms_to_us(now_ms);
            let ghost pend0 = pending@;
            pending.push((next_id, ingress_us));
            assert(pending@[pend0.len() as int] == (next_id, ingress_us));
            next_id = next_id + 1;
            real_sent = real_sent + 1;
            let decision = mixer.push_packet();
            let ghost pairs0 = pairs@;
            let ghost pend1 = pending@;
            apply_flush(
                decision,
                &mixer,
                &mut pending,
                &mut pairs,
                &mut egress,
                &mut total_bytes,
                now_ms,
                packet_len,
                cover_len,
            );
            proof {
                if decision != AdaptiveMixDecision::Hold && decision != AdaptiveMixDecision::EmergencyHold {
                    lemma_flush_keeps_ok(pairs0, pend1, sat_mul_u64(now_ms, 1000));
                    assert(pending@ =~= Seq::<(u64, u64)>::empty());
                }
            }
        }
        let ghost s1: MixRun = (mixer, pending@, pairs@, egress@, total_bytes, now_ms, real_sent as nat);
        assert(s1 == mix_arrival(s0, real_packets as nat, packet_len, cover_len));
        let step: u64 = if real_sent < real_packets {
            if inter_arrival_ms < 1 { 1 } else { inter_arrival_ms }
        } else {
            1
        };
        let prev_ms = now_ms;
        now_ms = now_ms.saturating_add(step);
        proof {
            lemma_sat_mul_mono(prev_ms, now_ms);
        }
        let decision = mixer.tick(step);
        let ghost pairs0 = pairs@;
        let ghost pend1 = pending@;
        apply_flush(
            decision,
            &mixer,
            &mut pending,
            &mut pairs,
            &mut egress,
            &mut total_bytes,
            now_ms,
            packet_len,
            cover_len,
        );
        proof {
            if decision != AdaptiveMixDecision::Hold && decision != AdaptiveMixDecision::EmergencyHold {
                lemma_flush_keeps_ok(pairs0, pend1, sat_mul_u64(now_ms, 1000));
                assert(pending@ =~= Seq::<(u64, u64)>::empty());
            }
        }
        assert((mixer, pending@, pairs@, egress@, total_bytes, now_ms, real_sent as nat) == mix_tick(
            s1,
            real_packets as nat,
            inter_arrival_ms,
            packet_len,
            cover_len,
        ));
    }
    proof {
        lemma_simulation_completes(profile, real_packets as nat, inter_arrival_ms, packet_len, cover_len);
    }
    MixSimulation { pairs, egress, total_bytes, payload_bytes, mixer }
}

} // verus!
