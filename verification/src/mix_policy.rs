//! Load-aware mix batching: when to flush a batch, when to hold it and when
//! to pad it with cover cells, with client profiles and running telemetry.
use vstd::prelude::*;

verus! {

/// What the mixer does with the current batch.
#[derive(Debug, Clone, Copy, PartialEq, Eq, Structural)]
pub enum AdaptiveMixDecision {
    /// The batch reached the target size; flush real traffic only.
    FullThreshold,
    /// The wait budget ran out with a usable partial batch; flush it.
    ReducedThreshold,
    /// The wait budget ran out with too little traffic; pad with cover cells.
    CoverTrafficBackfill,
    /// Neither size nor latency asks for a flush yet.
    Hold,
    /// Hold on an empty batch (no cover emitted this tick).
    EmergencyHold,
}

/// Client-facing latency / anonymity profile.
#[derive(Debug, Clone, Copy, PartialEq, Eq, Structural)]
pub enum MixProfile {
    Fast,
    Normal,
    HighAnonymity,
}

/// Parameters of the flush decision.
#[derive(Debug, Clone, Copy, PartialEq, Eq, Structural)]
pub struct AdaptiveMixConfig {
    /// Target batch size K for a full-threshold flush.
    pub target_k: usize,
    /// Smallest number of real packets for a reduced flush.
    pub min_batch_size: usize,
    /// Longest time a batch is held before flushing or covering.
    pub max_wait_ms: u64,
    /// Numerator of the reduced-threshold fraction of `target_k`.
    pub reduced_fraction_num: usize,
    /// Denominator of the reduced-threshold fraction of `target_k`.
    pub reduced_fraction_den: usize,
    /// Whether underfilled timeout flushes are padded with cover.
    pub cover_when_underfilled: bool,
    /// Observed ingress rate in milli-packets per second; 0 turns adaptation off.
    pub adaptive_rate_factor_bps: u64,
}

/// The configuration that each profile stands for.
pub open spec fn profile_config(p: MixProfile) -> AdaptiveMixConfig {
    match p {
        MixProfile::Fast => AdaptiveMixConfig {
            target_k: 64,
            min_batch_size: 8,
            max_wait_ms: 20,
            reduced_fraction_num: 1,
            reduced_fraction_den: 4,
            cover_when_underfilled: true,
            adaptive_rate_factor_bps: 0,
        },
        MixProfile::Normal => AdaptiveMixConfig {
            target_k: 256,
            min_batch_size: 16,
            max_wait_ms: 50,
            reduced_fraction_num: 1,
            reduced_fraction_den: 10,
            cover_when_underfilled: true,
            adaptive_rate_factor_bps: 0,
        },
        MixProfile::HighAnonymity => AdaptiveMixConfig {
            target_k: 1024,
            min_batch_size: 64,
            max_wait_ms: 200,
            reduced_fraction_num: 1,
            reduced_fraction_den: 8,
            cover_when_underfilled: true,
            adaptive_rate_factor_bps: 0,
        },
    }
}

impl MixProfile {
    pub fn config(self) -> (c: AdaptiveMixConfig)
        ensures
            c == profile_config(self),
    {
        match self {
            MixProfile::Fast => AdaptiveMixConfig {
                target_k: 64,
                min_batch_size: 8,
                max_wait_ms: 20,
                reduced_fraction_num: 1,
                reduced_fraction_den: 4,
                cover_when_underfilled: true,
                adaptive_rate_factor_bps: 0,
            },
            MixProfile::Normal => AdaptiveMixConfig {
                target_k: 256,
                min_batch_size: 16,
                max_wait_ms: 50,
                reduced_fraction_num: 1,
                reduced_fraction_den: 10,
                cover_when_underfilled: true,
                adaptive_rate_factor_bps: 0,
            },
            MixProfile::HighAnonymity => AdaptiveMixConfig {
                target_k: 1024,
                min_batch_size: 64,
                max_wait_ms: 200,
                reduced_fraction_num: 1,
                reduced_fraction_den: 8,
                cover_when_underfilled: true,
                adaptive_rate_factor_bps: 0,
            },
        }
    }
}

/// Profiles that favour anonymity have a larger K and a longer wait budget.
pub proof fn lemma_profiles_order_by_anonymity()
    ensures
        profile_config(MixProfile::Fast).target_k < profile_config(MixProfile::Normal).target_k,
        profile_config(MixProfile::Normal).target_k < profile_config(
            MixProfile::HighAnonymity,
        ).target_k,
        profile_config(MixProfile::Fast).max_wait_ms <= profile_config(
            MixProfile::Normal,
        ).max_wait_ms,
        profile_config(MixProfile::Normal).max_wait_ms <= profile_config(
            MixProfile::HighAnonymity,
        ).max_wait_ms,
{
}

impl Default for AdaptiveMixConfig {
    fn default() -> (c: Self)
        ensures
            c == profile_config(MixProfile::Normal),
    {
        MixProfile::Normal.config()
    }
}

pub open spec fn max_int(a: int, b: int) -> int {
    if a >= b {
        a
    } else {
        b
    }
}

pub open spec fn min_int(a: int, b: int) -> int {
    if a <= b {
        a
    } else {
        b
    }
}

/// `a * b`, saturated at `bound`.
pub open spec fn saturating_product(a: int, b: int, bound: int) -> int {
    if a * b > bound {
        bound
    } else {
        a * b
    }
}

/// Whether a decision flushes the batch (and starts a new one).
pub open spec fn is_flush(d: AdaptiveMixDecision) -> bool {
    d == AdaptiveMixDecision::FullThreshold || d == AdaptiveMixDecision::ReducedThreshold
        || d == AdaptiveMixDecision::CoverTrafficBackfill
}

impl AdaptiveMixConfig {
    /// `max(min_batch_size, target_k * num / max(den, 1))`, capped at `target_k`.
    pub open spec fn spec_reduced_threshold(self) -> int {
        let den = max_int(self.reduced_fraction_den as int, 1);
        let product = saturating_product(
            self.target_k as int,
            self.reduced_fraction_num as int,
            usize::MAX as int,
        );
        min_int(max_int(product / den, self.min_batch_size as int), self.target_k as int)
    }

    /// Packets expected over the wait budget at the configured rate.
    pub open spec fn spec_expected_arrivals(self) -> int {
        let wait = max_int(self.max_wait_ms as int, 1);
        let product = saturating_product(
            self.adaptive_rate_factor_bps as int,
            wait,
            u64::MAX as int,
        );
        ((product / 1_000_000) as u64) as usize as int
    }

    /// K after rate adaptation: `max(target_k, 1)` without adaptation; otherwise
    /// the expected arrivals, bounded by `target_k` above and by
    /// `max(min_batch_size, 1)` below.
    pub open spec fn spec_effective_target_k(self) -> int {
        if self.adaptive_rate_factor_bps == 0 {
            max_int(self.target_k as int, 1)
        } else {
            let expected = self.spec_expected_arrivals();
            if expected >= self.target_k {
                self.target_k as int
            } else if expected <= self.min_batch_size {
                max_int(self.min_batch_size as int, 1)
            } else {
                expected
            }
        }
    }

    pub open spec fn spec_decide(self, batch: int, wait_ms: int) -> AdaptiveMixDecision {
        if batch >= self.spec_effective_target_k() {
            AdaptiveMixDecision::FullThreshold
        } else if wait_ms < self.max_wait_ms {
            if batch == 0 {
                AdaptiveMixDecision::EmergencyHold
            } else {
                AdaptiveMixDecision::Hold
            }
        } else if batch == 0 {
            if self.cover_when_underfilled {
                AdaptiveMixDecision::CoverTrafficBackfill
            } else {
                AdaptiveMixDecision::EmergencyHold
            }
        } else if batch >= self.spec_reduced_threshold() {
            AdaptiveMixDecision::ReducedThreshold
        } else if self.cover_when_underfilled {
            AdaptiveMixDecision::CoverTrafficBackfill
        } else {
            AdaptiveMixDecision::ReducedThreshold
        }
    }

    /// Cover cells that bring the batch up to the effective K, or 0.
    pub open spec fn spec_cover_cells_needed(self, batch: int) -> int {
        max_int(self.spec_effective_target_k() - batch, 0)
    }

    pub fn production_defaults() -> (c: Self)
        ensures
            c == (AdaptiveMixConfig {
                target_k: 25_000,
                min_batch_size: 256,
                max_wait_ms: 50,
                reduced_fraction_num: 1,
                reduced_fraction_den: 10,
                cover_when_underfilled: true,
                adaptive_rate_factor_bps: 0,
            }),
    {
        Self {
            target_k: 25_000,
            min_batch_size: 256,
            max_wait_ms: 50,
            reduced_fraction_num: 1,
            reduced_fraction_den: 10,
            cover_when_underfilled: true,
            adaptive_rate_factor_bps: 0,
        }
    }

    /// Smallest batch that qualifies as a reduced-threshold flush.
    pub fn reduced_threshold(&self) -> (r: usize)
        ensures
            r == self.spec_reduced_threshold(),
    {
        let den: usize = if self.reduced_fraction_den == 0 {
            1
        } else {
            self.reduced_fraction_den
        };
        let product: usize = match self.target_k.checked_mul(self.reduced_fraction_num) {
            Some(p) => p,
            None => usize::MAX,
        };
        let raw: usize = product / den;
        let lifted: usize = if raw >= self.min_batch_size {
            raw
        } else {
            self.min_batch_size
        };
        if lifted <= self.target_k {
            lifted
        } else {
            self.target_k
        }
    }

    /// Effective K after optional rate adaptation.
    pub fn effective_target_k(&self) -> (k: usize)
        ensures
            k == self.spec_effective_target_k(),
    {
        if self.adaptive_rate_factor_bps == 0 {
            return if self.target_k >= 1 {
                self.target_k
            } else {
                1
            };
        }
        let wait_ms: u64 = if self.max_wait_ms >= 1 {
            self.max_wait_ms
        } else {
            1
        };
        let product: u64 = match self.adaptive_rate_factor_bps.checked_mul(wait_ms) {
            Some(p) => p,
            None => u64::MAX,
        };
        let expected: usize = (product / 1_000_000) as usize;
        if expected >= self.target_k {
            self.target_k
        } else if expected <= self.min_batch_size {
            if self.min_batch_size >= 1 {
                self.min_batch_size
            } else {
                1
            }
        } else {
            expected
        }
    }

    /// Decide whether to flush, hold, or emit cover for the current batch.
    pub fn decide(&self, current_batch_size: usize, wait_time_ms: u64) -> (d: AdaptiveMixDecision)
        ensures
            d == self.spec_decide(current_batch_size as int, wait_time_ms as int),
    {
        let k = self.effective_target_k();
        if current_batch_size >= k {
            return AdaptiveMixDecision::FullThreshold;
        }
        if wait_time_ms < self.max_wait_ms {
            return if current_batch_size == 0 {
                AdaptiveMixDecision::EmergencyHold
            } else {
                AdaptiveMixDecision::Hold
            };
        }
        if current_batch_size == 0 {
            return if self.cover_when_underfilled {
                AdaptiveMixDecision::CoverTrafficBackfill
            } else {
                AdaptiveMixDecision::EmergencyHold
            };
        }
        if current_batch_size >= self.reduced_threshold() {
            AdaptiveMixDecision::ReducedThreshold
        } else if self.cover_when_underfilled {
            AdaptiveMixDecision::CoverTrafficBackfill
        } else {
            AdaptiveMixDecision::ReducedThreshold
        }
    }

    /// How many cover cells bring the batch up to the effective K.
    pub fn cover_cells_needed(&self, current_batch_size: usize) -> (n: usize)
        ensures
            n == self.spec_cover_cells_needed(current_batch_size as int),
    {
        let k = self.effective_target_k();
        k.saturating_sub(current_batch_size)
    }
}

/// A batch of at least the effective K is always flushed in full, and a
/// full-threshold flush happens only then.
pub proof fn lemma_full_threshold_iff_target_reached(cfg: AdaptiveMixConfig, batch: int, wait_ms: int)
    ensures
        (cfg.spec_decide(batch, wait_ms) == AdaptiveMixDecision::FullThreshold) <==> batch
            >= cfg.spec_effective_target_k(),
{
}

/// Within the wait budget a batch below K is never flushed.
pub proof fn lemma_no_flush_before_timeout(cfg: AdaptiveMixConfig, batch: int, wait_ms: int)
    requires
        batch < cfg.spec_effective_target_k(),
        wait_ms < cfg.max_wait_ms,
    ensures
        !is_flush(cfg.spec_decide(batch, wait_ms)),
{
}

/// Cover backfill brings a batch below K exactly up to K.
pub proof fn lemma_cover_fills_to_target(cfg: AdaptiveMixConfig, batch: int)
    requires
        0 <= batch <= cfg.spec_effective_target_k(),
    ensures
        batch + cfg.spec_cover_cells_needed(batch) == cfg.spec_effective_target_k(),
{
}

/// Rate adaptation never leaves K at zero unless `target_k` is zero, and
/// never raises it above `max(target_k, min_batch_size, 1)`.
pub proof fn lemma_effective_target_k_bounds(cfg: AdaptiveMixConfig)
    ensures
        cfg.target_k > 0 ==> cfg.spec_effective_target_k() >= 1,
        cfg.spec_effective_target_k() <= max_int(
            max_int(cfg.target_k as int, cfg.min_batch_size as int),
            1,
        ),
        cfg.spec_effective_target_k() >= 0,
{
}

/// Running telemetry: flush counts by reason, holds, packet totals.
#[derive(Debug, Clone, Copy, PartialEq, Eq, Structural)]
pub struct MixTelemetry {
    pub flushes_full: u64,
    pub flushes_reduced: u64,
    pub flushes_cover: u64,
    pub holds: u64,
    pub total_real_packets_flushed: u64,
    pub total_cover_packets_emitted: u64,
    pub max_batch_seen: usize,
    pub last_flush_batch_size: usize,
    pub last_flush_wait_ms: u64,
}

pub open spec fn zero_telemetry() -> MixTelemetry {
    MixTelemetry {
        flushes_full: 0,
        flushes_reduced: 0,
        flushes_cover: 0,
        holds: 0,
        total_real_packets_flushed: 0,
        total_cover_packets_emitted: 0,
        max_batch_seen: 0,
        last_flush_batch_size: 0,
        last_flush_wait_ms: 0,
    }
}

impl Default for MixTelemetry {
    fn default() -> (t: Self)
        ensures
            t == zero_telemetry(),
    {
        MixTelemetry {
            flushes_full: 0,
            flushes_reduced: 0,
            flushes_cover: 0,
            holds: 0,
            total_real_packets_flushed: 0,
            total_cover_packets_emitted: 0,
            max_batch_seen: 0,
            last_flush_batch_size: 0,
            last_flush_wait_ms: 0,
        }
    }
}

/// The telemetry after recording one decision; every counter saturates.
pub open spec fn telemetry_after(
    t: MixTelemetry,
    d: AdaptiveMixDecision,
    batch: usize,
    wait_ms: u64,
    cover: usize,
) -> MixTelemetry {
    let counted = match d {
        AdaptiveMixDecision::FullThreshold => MixTelemetry {
            flushes_full: t.flushes_full.saturating_add(1),
            total_real_packets_flushed: t.total_real_packets_flushed.saturating_add(batch as u64),
            last_flush_batch_size: batch,
            last_flush_wait_ms: wait_ms,
            ..t
        },
        AdaptiveMixDecision::ReducedThreshold => MixTelemetry {
            flushes_reduced: t.flushes_reduced.saturating_add(1),
            total_real_packets_flushed: t.total_real_packets_flushed.saturating_add(batch as u64),
            last_flush_batch_size: batch,
            last_flush_wait_ms: wait_ms,
            ..t
        },
        AdaptiveMixDecision::CoverTrafficBackfill => MixTelemetry {
            flushes_cover: t.flushes_cover.saturating_add(1),
            total_real_packets_flushed: t.total_real_packets_flushed.saturating_add(batch as u64),
            total_cover_packets_emitted: t.total_cover_packets_emitted.saturating_add(
                cover as u64,
            ),
            last_flush_batch_size: batch,
            last_flush_wait_ms: wait_ms,
            ..t
        },
        _ => MixTelemetry { holds: t.holds.saturating_add(1), ..t },
    };
    if batch > t.max_batch_seen {
        MixTelemetry { max_batch_seen: batch, ..counted }
    } else {
        counted
    }
}

impl MixTelemetry {
    pub fn record_decision(
        &mut self,
        decision: AdaptiveMixDecision,
        batch_size: usize,
        wait_ms: u64,
        cover_emitted: usize,
    )
        ensures
            *final(self) == telemetry_after(*old(self), decision, batch_size, wait_ms, cover_emitted),
    {
        match decision {
            AdaptiveMixDecision::FullThreshold => {
                self.flushes_full = self.flushes_full.saturating_add(1);
                self.total_real_packets_flushed = self.total_real_packets_flushed.saturating_add(
                    batch_size as u64,
                );
                self.last_flush_batch_size = batch_size;
                self.last_flush_wait_ms = wait_ms;
            },
            AdaptiveMixDecision::ReducedThreshold => {
                self.flushes_reduced = self.flushes_reduced.saturating_add(1);
                self.total_real_packets_flushed = self.total_real_packets_flushed.saturating_add(
                    batch_size as u64,
                );
                self.last_flush_batch_size = batch_size;
                self.last_flush_wait_ms = wait_ms;
            },
            AdaptiveMixDecision::CoverTrafficBackfill => {
                self.flushes_cover = self.flushes_cover.saturating_add(1);
                self.total_real_packets_flushed = self.total_real_packets_flushed.saturating_add(
                    batch_size as u64,
                );
                self.total_cover_packets_emitted = self.total_cover_packets_emitted.saturating_add(
                    cover_emitted as u64,
                );
                self.last_flush_batch_size = batch_size;
                self.last_flush_wait_ms = wait_ms;
            },
            AdaptiveMixDecision::Hold | AdaptiveMixDecision::EmergencyHold => {
                self.holds = self.holds.saturating_add(1);
            },
        }
        if batch_size > self.max_batch_seen {
            self.max_batch_seen = batch_size;
        }
    }
}

/// Recording a decision never lowers a counter, and exactly one of the four
/// decision counters moves (unless it is already saturated).
pub proof fn lemma_telemetry_monotone(
    t: MixTelemetry,
    d: AdaptiveMixDecision,
    batch: usize,
    wait_ms: u64,
    cover: usize,
)
    ensures
        ({
            let u = telemetry_after(t, d, batch, wait_ms, cover);
            &&& u.flushes_full >= t.flushes_full
            &&& u.flushes_reduced >= t.flushes_reduced
            &&& u.flushes_cover >= t.flushes_cover
            &&& u.holds >= t.holds
            &&& u.total_real_packets_flushed >= t.total_real_packets_flushed
            &&& u.total_cover_packets_emitted >= t.total_cover_packets_emitted
            &&& u.max_batch_seen >= t.max_batch_seen
            &&& u.max_batch_seen >= batch
            &&& (u.flushes_full - t.flushes_full) + (u.flushes_reduced - t.flushes_reduced) + (
            u.flushes_cover - t.flushes_cover) + (u.holds - t.holds) <= 1
        }),
{
}

/// `x + 1`, staying at `u64::MAX`.
pub open spec fn bump(x: u64) -> u64 {
    if x < u64::MAX {
        (x + 1) as u64
    } else {
        x
    }
}

/// Recording a decision moves exactly the counter it names, by one (staying
/// at the maximum): a full-threshold flush counts in `flushes_full`, a
/// reduced-threshold flush in `flushes_reduced`, a cover flush in
/// `flushes_cover` (with its cover cells), and either hold in `holds`; the
/// other three counters keep their values, a hold leaves the flush totals
/// and the last flush as they were, and a flush records its batch and wait.
pub proof fn lemma_decision_counts_in_its_counter(
    t: MixTelemetry,
    d: AdaptiveMixDecision,
    batch: usize,
    wait_ms: u64,
    cover: usize,
)
    ensures
        ({
            let u = telemetry_after(t, d, batch, wait_ms, cover);
            &&& u.flushes_full == if d == AdaptiveMixDecision::FullThreshold {
                bump(t.flushes_full)
            } else {
                t.flushes_full
            }
            &&& u.flushes_reduced == if d == AdaptiveMixDecision::ReducedThreshold {
                bump(t.flushes_reduced)
            } else {
                t.flushes_reduced
            }
            &&& u.flushes_cover == if d == AdaptiveMixDecision::CoverTrafficBackfill {
                bump(t.flushes_cover)
            } else {
                t.flushes_cover
            }
            &&& u.holds == if d == AdaptiveMixDecision::Hold || d == AdaptiveMixDecision::EmergencyHold {
                bump(t.holds)
            } else {
                t.holds
            }
            &&& u.total_cover_packets_emitted == if d == AdaptiveMixDecision::CoverTrafficBackfill {
                if t.total_cover_packets_emitted + cover > u64::MAX {
                    u64::MAX
                } else {
                    (t.total_cover_packets_emitted + cover) as u64
                }
            } else {
                t.total_cover_packets_emitted
            }
            &&& u.total_real_packets_flushed == if is_flush(d) {
                if t.total_real_packets_flushed + batch > u64::MAX {
                    u64::MAX
                } else {
                    (t.total_real_packets_flushed + batch) as u64
                }
            } else {
                t.total_real_packets_flushed
            }
            &&& is_flush(d) ==> u.last_flush_batch_size == batch && u.last_flush_wait_ms == wait_ms
            &&& !is_flush(d) ==> u.last_flush_batch_size == t.last_flush_batch_size && u.last_flush_wait_ms
                == t.last_flush_wait_ms
            &&& u.max_batch_seen == if batch > t.max_batch_seen {
                batch
            } else {
                t.max_batch_seen
            }
        }),
{
}

/// A mixer: configuration, the current batch's size and age, and telemetry.
#[derive(Debug, Clone, PartialEq, Eq, Structural)]
pub struct AdaptiveMixer {
    pub config: AdaptiveMixConfig,
    pub batch_size: usize,
    pub wait_ms: u64,
    pub telemetry: MixTelemetry,
}

/// The decision the mixer takes on a batch of `batch` packets aged `wait`
/// milliseconds, and the mixer after it.
pub open spec fn mixer_step(m: AdaptiveMixer, batch: usize, wait: u64) -> (
    AdaptiveMixDecision,
    AdaptiveMixer,
) {
    let d = m.config.spec_decide(batch as int, wait as int);
    let cover: usize = if d == AdaptiveMixDecision::CoverTrafficBackfill {
        m.config.spec_cover_cells_needed(batch as int) as usize
    } else {
        0
    };
    let telemetry = telemetry_after(m.telemetry, d, batch, wait, cover);
    if is_flush(d) {
        (d, AdaptiveMixer { config: m.config, batch_size: 0, wait_ms: 0, telemetry })
    } else {
        (d, AdaptiveMixer { config: m.config, batch_size: batch, wait_ms: wait, telemetry })
    }
}

/// The batch age after `tick(delta)`: it advances while there is traffic or
/// cover is enabled.
pub open spec fn ticked_wait(m: AdaptiveMixer, delta_ms: u64) -> u64 {
    if m.batch_size > 0 || m.config.cover_when_underfilled {
        m.wait_ms.saturating_add(delta_ms)
    } else {
        m.wait_ms
    }
}

impl AdaptiveMixer {
    pub fn new(config: AdaptiveMixConfig) -> (m: Self)
        ensures
            m == (AdaptiveMixer { config, batch_size: 0, wait_ms: 0, telemetry: zero_telemetry() }),
    {
        Self { config, batch_size: 0, wait_ms: 0, telemetry: MixTelemetry::default() }
    }

    pub fn with_profile(profile: MixProfile) -> (m: Self)
        ensures
            m == (AdaptiveMixer {
                config: profile_config(profile),
                batch_size: 0,
                wait_ms: 0,
                telemetry: zero_telemetry(),
            }),
    {
        Self::new(profile.config())
    }

    fn settle(&mut self) -> (d: AdaptiveMixDecision)
        requires
            old(self).config.spec_cover_cells_needed(old(self).batch_size as int) <= usize::MAX,
        ensures
            (d, *final(self)) == mixer_step(*old(self), old(self).batch_size, old(self).wait_ms),
    {
        let decision = self.config.decide(self.batch_size, self.wait_ms);
        let cover: usize = if decision == AdaptiveMixDecision::CoverTrafficBackfill {
            self.config.cover_cells_needed(self.batch_size)
        } else {
            0
        };
        self.telemetry.record_decision(decision, self.batch_size, self.wait_ms, cover);
        if decision == AdaptiveMixDecision::FullThreshold || decision
            == AdaptiveMixDecision::ReducedThreshold || decision
            == AdaptiveMixDecision::CoverTrafficBackfill {
            self.batch_size = 0;
            self.wait_ms = 0;
        }
        decision
    }

    /// Advance virtual time by `delta_ms` and re-evaluate the batch.
    pub fn tick(&mut self, delta_ms: u64) -> (d: AdaptiveMixDecision)
        ensures
            (d, *final(self)) == mixer_step(
                *old(self),
                old(self).batch_size,
                ticked_wait(*old(self), delta_ms),
            ),
    {
        if self.batch_size > 0 || self.config.cover_when_underfilled {
            self.wait_ms = self.wait_ms.saturating_add(delta_ms);
        }
        proof {
            lemma_effective_target_k_bounds(self.config);
        }
        self.settle()
    }

    /// Enqueue one real packet into the current batch and re-evaluate.
    pub fn push_packet(&mut self) -> (d: AdaptiveMixDecision)
        ensures
            (d, *final(self)) == mixer_step(
                *old(self),
                old(self).batch_size.saturating_add(1),
                old(self).wait_ms,
            ),
    {
        self.batch_size = self.batch_size.saturating_add(1);
        proof {
            lemma_effective_target_k_bounds(self.config);
        }
        self.settle()
    }
}

/// After any step the mixer never holds a batch that has reached the
/// effective K: the batch is either empty or below K, and the configuration
/// is unchanged.
pub proof fn lemma_mixer_step_keeps_batch_below_target(m: AdaptiveMixer, batch: usize, wait: u64)
    ensures
        ({
            let next = mixer_step(m, batch, wait).1;
            &&& next.batch_size == 0 || next.batch_size < next.config.spec_effective_target_k()
            &&& next.config == m.config
        }),
{
}

} // verus!
