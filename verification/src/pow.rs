//! A local proof-of-work filter model: a three-epoch Bloom-style nonce
//! filter and an engine that checks SHA-256 work over adjacent 30-second
//! windows. Retry-cookie mode fails closed without caller-provided key
//! material.
use vstd::prelude::*;
use std::time::{Duration, Instant};
use vstd::string::StringSliceAdditionalSpecFns;
use crate::bytes::{push_all, push_u64_be, u64_be, u64_of};
use crate::crypto::{sha256, sha256_output};
use crate::time::{duration_as_nanos, duration_nanos, instant_duration_since, instant_now};

verus! {

/// The number of 64-bit words in each epoch's bit array.
pub const FILTER_WORDS_PER_ARRAY: usize = 87_381;

/// The `u64` read little-endian at offset `at` of `s`.
pub open spec fn u64_le_at(s: Seq<u8>, at: int) -> u64 {
    u64_of(s[at + 7], s[at + 6], s[at + 5], s[at + 4], s[at + 3], s[at + 2], s[at + 1], s[at])
}

/// The `k`-th filter bit of a nonce digest: the `k`-th little-endian word of
/// the digest, taken as a `usize`, modulo the number of bits in an array.
pub open spec fn bloom_position(digest: Seq<u8>, k: int, words: nat) -> int {
    ((u64_le_at(digest, 8 * k) as usize) as int) % ((words * 64) as int)
}

/// The mask of bit `b` within its word.
pub open spec fn bit_mask(b: int) -> u64 {
    1u64 << ((b % 64) as u64)
}

/// Whether bit `b` of a bit array is set.
pub open spec fn bit_is_set(words: Seq<u64>, b: int) -> bool {
    words[b / 64] & bit_mask(b) != 0
}

/// The bit array with bit `b` set.
pub open spec fn with_bit(words: Seq<u64>, b: int) -> Seq<u64> {
    words.update(b / 64, words[b / 64] | bit_mask(b))
}

/// The bit array after setting the three bits of a nonce digest, in order.
pub open spec fn with_nonce_bits(words: Seq<u64>, digest: Seq<u8>, n: nat) -> Seq<u64> {
    with_bit(
        with_bit(with_bit(words, bloom_position(digest, 0, n)), bloom_position(digest, 1, n)),
        bloom_position(digest, 2, n),
    )
}

/// Whether a nonce digest is new to a bit array: at least one of its three
/// bits was clear when it was reached.
pub open spec fn nonce_is_new(words: Seq<u64>, digest: Seq<u8>, n: nat) -> bool {
    let w1 = with_bit(words, bloom_position(digest, 0, n));
    let w2 = with_bit(w1, bloom_position(digest, 1, n));
    !(bit_is_set(words, bloom_position(digest, 0, n)) && bit_is_set(w1, bloom_position(digest, 1, n))
        && bit_is_set(w2, bloom_position(digest, 2, n)))
}

/// In-memory Bloom-style nonce filter with three rotating epoch arrays.
pub struct SramCuckooBloomFilter {
    pub sram_bit_arrays: [Vec<u64>; 3],
    pub words_per_array: usize,
    pub current_epoch_idx: usize,
    pub last_rotation_time: Instant,
}

impl SramCuckooBloomFilter {
    /// Every array has `words_per_array` words, the bit count fits a `usize`,
    /// and the epoch index names an array.
    pub open spec fn wf(&self) -> bool {
        &&& 0 < self.words_per_array
        &&& self.words_per_array * 64 <= usize::MAX
        &&& self.current_epoch_idx < 3
        &&& forall|i: int| 0 <= i < 3 ==> #[trigger] self.sram_bit_arrays[i]@.len() == self.words_per_array
    }

    /// The bit array of the current epoch.
    pub open spec fn current_words(&self) -> Seq<u64> {
        self.sram_bit_arrays[self.current_epoch_idx as int]@
    }

    pub fn new() -> (r: Self)
        ensures
            r.wf(),
            r.words_per_array == FILTER_WORDS_PER_ARRAY,
            r.current_epoch_idx == 0,
            forall|i: int, j: int|
                0 <= i < 3 && 0 <= j < FILTER_WORDS_PER_ARRAY ==> #[trigger] r.sram_bit_arrays[i]@[j] == 0,
    {
        let words_per_array = FILTER_WORDS_PER_ARRAY;
        let a0 = zero_words(words_per_array);
        let a1 = zero_words(words_per_array);
        let a2 = zero_words(words_per_array);
        Self {
            sram_bit_arrays: [a0, a1, a2],
            words_per_array,
            current_epoch_idx: 0,
            last_rotation_time: instant_now(),
        }
    }

    /// Whether `next` is `prev` moved on by one epoch: the index advances,
    /// the array after it (the oldest) is cleared, the others are kept.
    pub open spec fn epoch_advanced(prev: &Self, next: &Self) -> bool {
        let c = (prev.current_epoch_idx + 1) % 3;
        let oldest = (c + 1) % 3;
        &&& next.current_epoch_idx == c
        &&& next.words_per_array == prev.words_per_array
        &&& next.sram_bit_arrays[oldest as int]@ == Seq::new(prev.words_per_array as nat, |j: int| 0u64)
        &&& forall|i: int|
            0 <= i < 3 && i != oldest ==> #[trigger] next.sram_bit_arrays[i]@ == prev.sram_bit_arrays[i]@
    }

    /// Once 30 seconds have passed since the last rotation, moves to the
    /// next epoch, clears the oldest array and restarts the timer. Whether
    /// the time has passed depends on the clock: either nothing changes or
    /// the filter has moved on by one epoch.
    pub fn rotate_epoch_if_needed(&mut self)
        requires
            old(self).wf(),
        ensures
            final(self).wf(),
            *final(self) == *old(self) || Self::epoch_advanced(old(self), final(self)),
    {
        let now = instant_now();
        let elapsed = instant_duration_since(&now, &self.last_rotation_time);
        let restart = instant_now();
        self.rotate_epoch_after(elapsed, restart);
    }

    /// The rotation decision for a measured time since the last rotation:
    /// from 30 seconds on, the filter moves on by one epoch and its timer
    /// restarts at `now`; before that nothing changes.
    pub fn rotate_epoch_after(&mut self, elapsed: Duration, now: Instant)
        requires
            old(self).wf(),
        ensures
            final(self).wf(),
            duration_nanos(elapsed) >= 30_000_000_000 ==> Self::epoch_advanced(old(self), final(self))
                && final(self).last_rotation_time == now,
            duration_nanos(elapsed) < 30_000_000_000 ==> *final(self) == *old(self),
    {
        if duration_as_nanos(&elapsed) >= 30_000_000_000u128 {
            self.advance_epoch();
            self.last_rotation_time = now;
        }
    }

    fn advance_epoch(&mut self)
        requires
            old(self).wf(),
        ensures
            final(self).wf(),
            Self::epoch_advanced(old(self), final(self)),
            final(self).last_rotation_time == old(self).last_rotation_time,
    {
        let c = (self.current_epoch_idx + 1) % 3;
        self.current_epoch_idx = c;
        let oldest = (c + 1) % 3;
        let zeros = zero_words(self.words_per_array);
        assert(zeros@ =~= Seq::new(self.words_per_array as nat, |j: int| 0u64));
        self.sram_bit_arrays[oldest] = zeros;
    }

    /// Sets the nonce's three bits in the current epoch's array; true when
    /// at least one of them was clear, so the nonce has not been seen.
    pub fn check_and_insert_nonce(&mut self, nonce: &str) -> (r: bool)
        requires
            old(self).wf(),
        ensures
            final(self).wf(),
            ({
                let digest = sha256_output(nonce.spec_bytes());
                let n = old(self).words_per_array as nat;
                &&& r == nonce_is_new(old(self).current_words(), digest, n)
                &&& final(self).current_words() == with_nonce_bits(old(self).current_words(), digest, n)
            }),
            final(self).words_per_array == old(self).words_per_array,
            final(self).current_epoch_idx == old(self).current_epoch_idx,
            final(self).last_rotation_time == old(self).last_rotation_time,
            forall|i: int|
                0 <= i < 3 && i != old(self).current_epoch_idx ==> #[trigger] final(self).sram_bit_arrays[i]@
                    == old(self).sram_bit_arrays[i]@,
    {
        let digest = sha256(nonce.as_bytes());
        let bits = self.words_per_array * 64;
        let ghost n = self.words_per_array as nat;
        let p0 = (read_u64_le(&digest, 0) as usize) % bits;
        let p1 = (read_u64_le(&digest, 8) as usize) % bits;
        let p2 = (read_u64_le(&digest, 16) as usize) % bits;
        let c = self.current_epoch_idx;
        let ghost w0 = self.sram_bit_arrays[c as int]@;
        let s0 = self.set_bit(c, p0);
        let s1 = self.set_bit(c, p1);
        let s2 = self.set_bit(c, p2);
        !(s0 && s1 && s2)
    }

    /// Sets bit `b` of array `c`; returns whether it was already set.
    fn set_bit(&mut self, c: usize, b: usize) -> (was_set: bool)
        requires
            old(self).wf(),
            c < 3,
            b < old(self).words_per_array * 64,
        ensures
            final(self).wf(),
            was_set == bit_is_set(old(self).sram_bit_arrays[c as int]@, b as int),
            final(self).sram_bit_arrays[c as int]@ == with_bit(old(self).sram_bit_arrays[c as int]@, b as int),
            final(self).words_per_array == old(self).words_per_array,
            final(self).current_epoch_idx == old(self).current_epoch_idx,
            final(self).last_rotation_time == old(self).last_rotation_time,
            forall|i: int| 0 <= i < 3 && i != c ==> #[trigger] final(self).sram_bit_arrays[i]@
                == old(self).sram_bit_arrays[i]@,
    {
        let word = b / 64;
        let shift = (b % 64) as u64;
        let mask = 1u64 << shift;
        assert(mask == bit_mask(b as int));
        let old_word = self.sram_bit_arrays[c][word];
        self.sram_bit_arrays[c][word] = old_word | mask;
        old_word & mask != 0
    }
}

impl Default for SramCuckooBloomFilter {
    fn default() -> (r: Self)
        ensures
            r.wf(),
            r.words_per_array == FILTER_WORDS_PER_ARRAY,
            r.current_epoch_idx == 0,
            forall|i: int, j: int|
                0 <= i < 3 && 0 <= j < FILTER_WORDS_PER_ARRAY ==> #[trigger] r.sram_bit_arrays[i]@[j] == 0,
    {
        Self::new()
    }
}

/// A vector of `n` zero words.
fn zero_words(n: usize) -> (r: Vec<u64>)
    ensures
        r@.len() == n,
        forall|j: int| 0 <= j < n ==> #[trigger] r@[j] == 0,
{
    let mut r: Vec<u64> = Vec::new();
    let mut i: usize = 0;
    while i < n
        invariant
            i <= n,
            r@.len() == i,
            forall|j: int| 0 <= j < i ==> #[trigger] r@[j] == 0,
        decreases n - i,
    {
        r.push(0);
        i = i + 1;
    }
    r
}

/// The `u64` read little-endian at `at`.
fn read_u64_le(b: &[u8], at: usize) -> (r: u64)
    requires
        at + 8 <= b@.len(),
    ensures
        r == u64_le_at(b@, at as int),
{
    let len = b.len();
    assert(at + 7 < len);
    ((b[at + 7] as u64) << 56u64) | ((b[at + 6] as u64) << 48u64) | ((b[at + 5] as u64) << 40u64) | ((
    b[at + 4] as u64) << 32u64) | ((b[at + 3] as u64) << 24u64) | ((b[at + 2] as u64) << 16u64) | ((
    b[at + 1] as u64) << 8u64) | (b[at] as u64)
}

/// `"STATELESS_COOKIE:"` as bytes.
pub open spec fn cookie_prefix() -> Seq<u8> {
    seq![
        0x53u8, 0x54, 0x41, 0x54, 0x45, 0x4c, 0x45, 0x53, 0x53, 0x5f, 0x43, 0x4f, 0x4f, 0x4b, 0x49,
        0x45, 0x3a,
    ]
}

fn cookie_prefix_bytes() -> (r: Vec<u8>)
    ensures
        r@ == cookie_prefix(),
{
    let r: Vec<u8> = vec![
        0x53u8, 0x54, 0x41, 0x54, 0x45, 0x4c, 0x45, 0x53, 0x53, 0x5f, 0x43, 0x4f, 0x4f, 0x4b, 0x49,
        0x45, 0x3a,
    ];
    assert(r@ =~= cookie_prefix());
    r
}


/// The leading zero bits of `s` from index `i` on.
pub open spec fn leading_zero_bits_from(s: Seq<u8>, i: int) -> nat
    decreases s.len() - i,
{
    if i < 0 || i >= s.len() {
        0
    } else if s[i] == 0 {
        8 + leading_zero_bits_from(s, i + 1)
    } else {
        s[i].leading_zeros() as nat
    }
}

/// The number of zero bits before the first set bit of `s`, most
/// significant bit of the first byte first.
pub open spec fn leading_zero_bits(s: Seq<u8>) -> nat {
    leading_zero_bits_from(s, 0)
}

/// The work digest of a nonce for one time window: SHA-256 over the relay
/// key, the window (big-endian) and the nonce.
pub open spec fn pow_digest(relay_pubkey: Seq<u8>, window: u64, nonce: Seq<u8>) -> Seq<u8> {
    sha256_output(relay_pubkey + u64_be(window) + nonce)
}

/// Whether a nonce carries enough work for one window.
pub open spec fn window_passes(relay_pubkey: Seq<u8>, window: u64, nonce: Seq<u8>, difficulty: u32) -> bool {
    leading_zero_bits(pow_digest(relay_pubkey, window, nonce)) >= difficulty
}

/// Whether a nonce carries enough work for the 30-second window of the
/// timestamp or either neighbouring window.
pub open spec fn pow_passes(relay_pubkey: Seq<u8>, unix_timestamp_sec: u64, nonce: Seq<u8>, difficulty: u32) -> bool {
    let w = unix_timestamp_sec / 30;
    ||| window_passes(relay_pubkey, w, nonce, difficulty)
    ||| window_passes(relay_pubkey, w.saturating_sub(1), nonce, difficulty)
    ||| window_passes(relay_pubkey, w.saturating_add(1), nonce, difficulty)
}

/// A lowercase hexadecimal digit.
pub open spec fn hex_digit(v: u8) -> u8 {
    if v < 10 {
        (0x30 + v) as u8
    } else {
        (0x61 + v - 10) as u8
    }
}

/// A byte in lowercase hexadecimal without leading zeros.
pub open spec fn hex_lower(b: u8) -> Seq<u8> {
    if b < 16 {
        seq![hex_digit(b)]
    } else {
        seq![hex_digit(b / 16), hex_digit(b % 16)]
    }
}

/// The retry cookie: the prefix and the first byte of SHA-256 over the key
/// and the nonce, in hexadecimal.
pub open spec fn cookie_text(key: Seq<u8>, nonce: Seq<u8>) -> Seq<u8> {
    cookie_prefix() + hex_lower(sha256_output(key + nonce)[0])
}

/// Whether `after` is `before` with a nonce's bits set in the current epoch.
pub open spec fn nonce_recorded(before: &SramCuckooBloomFilter, after: &SramCuckooBloomFilter, digest: Seq<u8>) -> bool {
    &&& after.wf()
    &&& after.words_per_array == before.words_per_array
    &&& after.current_epoch_idx == before.current_epoch_idx
    &&& after.last_rotation_time == before.last_rotation_time
    &&& after.current_words() == with_nonce_bits(before.current_words(), digest, before.words_per_array as nat)
    &&& forall|i: int|
        0 <= i < 3 && i != before.current_epoch_idx ==> #[trigger] after.sram_bit_arrays[i]@
            == before.sram_bit_arrays[i]@
}

/// The filter before admission, after the clock-driven rotation.
pub open spec fn rotation_outcome(before: &SramCuckooBloomFilter, after: &SramCuckooBloomFilter) -> bool {
    after.wf() && (*after == *before || SramCuckooBloomFilter::epoch_advanced(before, after))
}

/// Local filter model with optional caller-provided retry-cookie key material.
pub struct PoWVerificationEngine {
    pub difficulty_zero_bits: u32,
    pub sram_filter: SramCuckooBloomFilter,
    pub is_table_full_stateless_mode: bool,
    retry_cookie_key: Option<[u8; 32]>,
}

impl PoWVerificationEngine {
    /// The number of leading zero bits a nonce's digest needs.
    pub closed spec fn difficulty(&self) -> u32 {
        self.difficulty_zero_bits
    }

    /// The nonce filter.
    pub closed spec fn filter(&self) -> SramCuckooBloomFilter {
        self.sram_filter
    }

    /// Whether admitted nonces are answered with a retry cookie.
    pub closed spec fn stateless_mode(&self) -> bool {
        self.is_table_full_stateless_mode
    }
    /// The retry-cookie key the engine was made with, if any.
    pub closed spec fn cookie_key(&self) -> Option<[u8; 32]> {
        self.retry_cookie_key
    }

    /// What admitting a nonce gives, once the filter stands at `mid`: the
    /// work check, then the replay check (which records the nonce), then
    /// the answer for the engine's mode; `after` is the filter afterwards.
    pub open spec fn admission(
        &self,
        mid: &SramCuckooBloomFilter,
        relay_pubkey: Seq<u8>,
        unix_timestamp_sec: u64,
        nonce: Seq<u8>,
        r: Result<String, &'static str>,
        after: &SramCuckooBloomFilter,
    ) -> bool {
        if !pow_passes(relay_pubkey, unix_timestamp_sec, nonce, self.difficulty()) {
            r == Err::<String, &'static str>("POW_INVALID") && *after == *mid
        } else {
            let digest = sha256_output(nonce);
            &&& nonce_recorded(mid, after, digest)
            &&& if !nonce_is_new(mid.current_words(), digest, mid.words_per_array as nat) {
                r == Err::<String, &'static str>("REPLAY_DETECTED")
            } else if self.stateless_mode() {
                match self.cookie_key() {
                    None => r == Err::<String, &'static str>("RETRY_COOKIE_KEY_UNAVAILABLE"),
                    Some(k) => r matches Ok(s) && s@ == crate::text::ascii_chars(cookie_text(k@, nonce)),
                }
            } else {
                r matches Ok(s) && s@ == "POW_VALID_ADMITTED"@
            }
        }
    }

    /// An engine without retry-cookie key material.
    pub fn new(default_difficulty: u32) -> (r: Self)
        ensures
            r.difficulty() == default_difficulty,
            r.filter().wf(),
            r.filter().words_per_array == FILTER_WORDS_PER_ARRAY,
            r.filter().current_epoch_idx == 0,
            forall|i: int, j: int|
                0 <= i < 3 && 0 <= j < FILTER_WORDS_PER_ARRAY ==> #[trigger] r.filter().sram_bit_arrays[i]@[j]
                    == 0,
            !r.stateless_mode(),
            r.cookie_key() == None::<[u8; 32]>,
    {
        Self {
            difficulty_zero_bits: default_difficulty,
            sram_filter: SramCuckooBloomFilter::new(),
            is_table_full_stateless_mode: false,
            retry_cookie_key: None,
        }
    }

    /// An engine with caller-provided retry-cookie key material.
    pub fn with_retry_cookie_key(default_difficulty: u32, retry_cookie_key: [u8; 32]) -> (r: Self)
        ensures
            r.difficulty() == default_difficulty,
            r.filter().wf(),
            r.filter().words_per_array == FILTER_WORDS_PER_ARRAY,
            r.filter().current_epoch_idx == 0,
            forall|i: int, j: int|
                0 <= i < 3 && 0 <= j < FILTER_WORDS_PER_ARRAY ==> #[trigger] r.filter().sram_bit_arrays[i]@[j]
                    == 0,
            !r.stateless_mode(),
            r.cookie_key() == Some(retry_cookie_key),
    {
        let base = Self::new(default_difficulty);
        Self { retry_cookie_key: Some(retry_cookie_key), ..base }
    }

    /// Above 10,000 requests per second the difficulty is 24 bits (and
    /// stateless mode starts above 50,000); otherwise it is 16 bits.
    pub fn auto_scale_difficulty(&mut self, arrival_rate_req_sec: u64)
        ensures
            final(self).difficulty() == if arrival_rate_req_sec > 10_000 { 24u32 } else { 16u32 },
            final(self).stateless_mode() == (arrival_rate_req_sec > 50_000),
            final(self).filter() == old(self).filter(),
            final(self).cookie_key() == old(self).cookie_key(),
    {
        if arrival_rate_req_sec > 10_000 {
            self.difficulty_zero_bits = 24;
            self.is_table_full_stateless_mode = arrival_rate_req_sec > 50_000;
        } else {
            self.difficulty_zero_bits = 16;
            self.is_table_full_stateless_mode = false;
        }
    }

    /// Rotates the filter if its epoch has run out (which depends on the
    /// clock), then admits the nonce as `admission` says.
    pub fn verify_client_nonce(&mut self, relay_pubkey: &str, unix_timestamp_sec: u64, nonce: &str) -> (r: Result<
        String,
        &'static str,
    >)
        requires
            old(self).filter().wf(),
        ensures
            final(self).difficulty() == old(self).difficulty(),
            final(self).stateless_mode() == old(self).stateless_mode(),
            final(self).cookie_key() == old(self).cookie_key(),
            final(self).filter().wf(),
            exists|mid: SramCuckooBloomFilter|
                #[trigger] rotation_outcome(&old(self).filter(), &mid) && old(self).admission(
                    &mid,
                    relay_pubkey.spec_bytes(),
                    unix_timestamp_sec,
                    nonce.spec_bytes(),
                    r,
                    &final(self).filter(),
                ),
    {
        self.sram_filter.rotate_epoch_if_needed();
        let ghost mid = self.sram_filter;
        assert(rotation_outcome(&old(self).filter(), &mid));
        let pk = relay_pubkey.as_bytes();
        let nb = nonce.as_bytes();
        let d = self.difficulty_zero_bits;
        let current_window = unix_timestamp_sec / 30;
        let pow_passed = window_passes_exec(pk, current_window, nb, d) || window_passes_exec(
            pk,
            current_window.saturating_sub(1),
            nb,
            d,
        ) || window_passes_exec(pk, current_window.saturating_add(1), nb, d);
        if !pow_passed {
            return Err("POW_INVALID");
        }
        if !self.sram_filter.check_and_insert_nonce(nonce) {
            return Err("REPLAY_DETECTED");
        }
        if self.is_table_full_stateless_mode {
            let retry_cookie_key = match self.retry_cookie_key {
                Some(k) => k,
                None => return Err("RETRY_COOKIE_KEY_UNAVAILABLE"),
            };
            let mut input: Vec<u8> = Vec::new();
            push_all(&mut input, &retry_cookie_key);
            push_all(&mut input, nb);
            let digest = sha256(input.as_slice());
            let mut text = cookie_prefix_bytes();
            push_hex_lower(&mut text, digest[0]);
            proof {
                assert(text@ == cookie_text(retry_cookie_key@, nonce.spec_bytes()));
                assert(crate::text::is_ascii_bytes(text@)) by {
                    assert forall|i: int| 0 <= i < text@.len() implies #[trigger] text@[i] < 128 by {
                        if i >= 17 {
                            assert(text@[i] == hex_lower(digest@[0])[i - 17]);
                        }
                    }
                }
            }
            return Ok(crate::text::string_from_ascii(text));
        }
        Ok(String::from_str("POW_VALID_ADMITTED"))
    }
}

/// Whether a nonce carries enough work for one window.
fn window_passes_exec(relay_pubkey: &[u8], window: u64, nonce: &[u8], difficulty: u32) -> (r: bool)
    ensures
        r == window_passes(relay_pubkey@, window, nonce@, difficulty),
{
    let mut input: Vec<u8> = Vec::new();
    push_all(&mut input, relay_pubkey);
    push_u64_be(&mut input, window);
    push_all(&mut input, nonce);
    let digest = sha256(input.as_slice());
    leading_zero_bits_exec(&digest) >= difficulty
}

/// The leading zero bits of a byte string.
fn leading_zero_bits_exec(bytes: &[u8]) -> (r: u32)
    requires
        bytes@.len() <= 32,
    ensures
        r == leading_zero_bits(bytes@),
{
    broadcast use vstd::std_specs::bits::axiom_u8_leading_zeros;

    let mut out: u32 = 0;
    let mut i: usize = 0;
    while i < bytes.len()
        invariant
            i <= bytes@.len() <= 32,
            out == 8 * i,
            out + leading_zero_bits_from(bytes@, i as int) == leading_zero_bits(bytes@),
        decreases bytes@.len() - i,
    {
        if bytes[i] == 0 {
            out = out + 8;
            i = i + 1;
        } else {
            return out + bytes[i].leading_zeros();
        }
    }
    out
}

/// Appends a byte in lowercase hexadecimal without leading zeros.
fn push_hex_lower(out: &mut Vec<u8>, b: u8)
    ensures
        final(out)@ == old(out)@ + hex_lower(b),
{
    if b < 16 {
        out.push(hex_digit_exec(b));
    } else {
        out.push(hex_digit_exec(b / 16));
        out.push(hex_digit_exec(b % 16));
    }
    assert(final(out)@ =~= old(out)@ + hex_lower(b));
}

fn hex_digit_exec(v: u8) -> (r: u8)
    requires
        v < 16,
    ensures
        r == hex_digit(v),
{
    if v < 10 {
        0x30 + v
    } else {
        0x61 + v - 10
    }
}

/// Setting bit `b` sets it, and keeps the array's length.
proof fn lemma_with_bit_sets(words: Seq<u64>, b: int)
    requires
        0 <= b < words.len() * 64,
    ensures
        with_bit(words, b).len() == words.len(),
        bit_is_set(with_bit(words, b), b),
{
    let s = (b % 64) as u64;
    let x = words[b / 64];
    assert(s < 64 ==> (x | (1u64 << s)) & (1u64 << s) != 0) by (bit_vector);
}

/// Setting bit `b` keeps every bit that was set.
proof fn lemma_with_bit_keeps(words: Seq<u64>, b: int, c: int)
    requires
        0 <= b < words.len() * 64,
        0 <= c < words.len() * 64,
        bit_is_set(words, c),
    ensures
        bit_is_set(with_bit(words, b), c),
{
    if b / 64 == c / 64 {
        let x = words[b / 64];
        let m = bit_mask(b);
        let mc = bit_mask(c);
        assert(x & mc != 0 ==> (x | m) & mc != 0) by (bit_vector);
    }
}

/// Setting a bit that is already set changes nothing.
proof fn lemma_with_bit_idem(words: Seq<u64>, b: int)
    requires
        0 <= b < words.len() * 64,
        bit_is_set(words, b),
    ensures
        with_bit(words, b) == words,
{
    let s = (b % 64) as u64;
    let x = words[b / 64];
    assert(s < 64 ==> (x & (1u64 << s) != 0 ==> (x | (1u64 << s)) == x)) by (bit_vector);
    assert(with_bit(words, b) =~= words);
}

/// A nonce whose bits have just been set is no longer new, and setting its
/// bits again leaves the array as it is: a second presentation of a nonce in
/// the same epoch is reported as a replay.
pub proof fn lemma_inserted_nonce_is_replay(words: Seq<u64>, digest: Seq<u8>, n: nat)
    requires
        n > 0,
        words.len() == n,
        digest.len() >= 24,
    ensures
        !nonce_is_new(with_nonce_bits(words, digest, n), digest, n),
        with_nonce_bits(with_nonce_bits(words, digest, n), digest, n) == with_nonce_bits(words, digest, n),
{
    let p0 = bloom_position(digest, 0, n);
    let p1 = bloom_position(digest, 1, n);
    let p2 = bloom_position(digest, 2, n);
    let w1 = with_bit(words, p0);
    lemma_with_bit_sets(words, p0);
    let w2 = with_bit(w1, p1);
    lemma_with_bit_sets(w1, p1);
    lemma_with_bit_keeps(w1, p1, p0);
    let w3 = with_bit(w2, p2);
    lemma_with_bit_sets(w2, p2);
    lemma_with_bit_keeps(w2, p2, p0);
    lemma_with_bit_keeps(w2, p2, p1);
    lemma_with_bit_idem(w3, p0);
    lemma_with_bit_idem(w3, p1);
    lemma_with_bit_idem(w3, p2);
}

} // verus!
