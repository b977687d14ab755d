//! Proof-of-work admission for handshakes: stateless challenges bound to a
//! server secret, SHA-256 work verification, and a bounded replay cache.
use vstd::prelude::*;
use std::time::{Duration, Instant};
use crate::bytes::{bytes_equal, push_all, push_u32_be, push_u64_be, u32_be, u64_be};
use crate::crypto::{sha256, sha256_output};
use crate::time::{duration_as_nanos, duration_nanos, instant_duration_since, instant_now};

verus! {

#[derive(Debug, Clone, PartialEq, Eq)]
pub struct PowChallenge {
    pub relay_id: [u8; 16],
    pub unix_window: u64,
    pub difficulty_zero_bits: u32,
    pub token: [u8; 32],
}

#[derive(Debug, Clone, PartialEq, Eq, Structural)]
pub enum PowAdmissionError {
    InvalidDifficulty,
    InvalidServerSecret,
    InvalidNonce,
    Replay,
}

/// `b"chronos-v7-pow-token"`.
pub open spec fn pow_token_label() -> Seq<u8> {
    seq![
        0x63u8, 0x68, 0x72, 0x6f, 0x6e, 0x6f, 0x73, 0x2d, 0x76, 0x37, 0x2d, 0x70, 0x6f, 0x77, 0x2d,
        0x74, 0x6f, 0x6b, 0x65, 0x6e,
    ]
}

/// `b"chronos-v7-pow-admission"`.
pub open spec fn pow_admission_label() -> Seq<u8> {
    seq![
        0x63u8, 0x68, 0x72, 0x6f, 0x6e, 0x6f, 0x73, 0x2d, 0x76, 0x37, 0x2d, 0x70, 0x6f, 0x77, 0x2d,
        0x61, 0x64, 0x6d, 0x69, 0x73, 0x73, 0x69, 0x6f, 0x6e,
    ]
}

/// The bytes hashed into a challenge token.
pub open spec fn token_preimage(
    relay_id: Seq<u8>,
    unix_window: u64,
    difficulty: u32,
    client_id: Seq<u8>,
    server_secret: Seq<u8>,
) -> Seq<u8> {
    pow_token_label() + relay_id + u64_be(unix_window) + u32_be(difficulty) + client_id
        + server_secret
}

/// The bytes hashed when checking the work of `nonce` on a challenge.
pub open spec fn work_preimage(c: PowChallenge, nonce: Seq<u8>) -> Seq<u8> {
    pow_admission_label() + c.relay_id@ + u64_be(c.unix_window) + u32_be(c.difficulty_zero_bits)
        + c.token@ + nonce
}

/// The number of leading zero bits of a byte string.
pub open spec fn leading_zero_bits(s: Seq<u8>) -> nat
    decreases s.len(),
{
    if s.len() == 0 {
        0
    } else if s[0] == 0 {
        8 + leading_zero_bits(s.drop_first())
    } else {
        s[0].leading_zeros() as nat
    }
}

/// What `verify(nonce)` answers: a difficulty above 255 is refused; otherwise
/// the work digest must start with at least `difficulty` zero bits.
pub open spec fn pow_verdict(c: PowChallenge, nonce: Seq<u8>) -> Result<(), PowAdmissionError> {
    if c.difficulty_zero_bits > 255 {
        Err(PowAdmissionError::InvalidDifficulty)
    } else if leading_zero_bits(sha256_output(work_preimage(c, nonce))) >= c.difficulty_zero_bits {
        Ok(())
    } else {
        Err(PowAdmissionError::InvalidNonce)
    }
}

/// Whether every byte of `s` is zero.
pub open spec fn all_zero_bytes(s: Seq<u8>) -> bool {
    forall|i: int| 0 <= i < s.len() ==> s[i] == 0
}

fn pow_token_label_bytes() -> (r: Vec<u8>)
    ensures
        r@ == pow_token_label(),
{
    let r: Vec<u8> = vec![
        0x63u8, 0x68, 0x72, 0x6f, 0x6e, 0x6f, 0x73, 0x2d, 0x76, 0x37, 0x2d, 0x70, 0x6f, 0x77, 0x2d,
        0x74, 0x6f, 0x6b, 0x65, 0x6e,
    ];
    assert(r@ =~= pow_token_label());
    r
}

fn pow_admission_label_bytes() -> (r: Vec<u8>)
    ensures
        r@ == pow_admission_label(),
{
    let r: Vec<u8> = vec![
        0x63u8, 0x68, 0x72, 0x6f, 0x6e, 0x6f, 0x73, 0x2d, 0x76, 0x37, 0x2d, 0x70, 0x6f, 0x77, 0x2d,
        0x61, 0x64, 0x6d, 0x69, 0x73, 0x73, 0x69, 0x6f, 0x6e,
    ];
    assert(r@ =~= pow_admission_label());
    r
}

fn is_all_zero(s: &[u8]) -> (r: bool)
    ensures
        r == all_zero_bytes(s@),
{
    let mut i: usize = 0;
    while i < s.len()
        invariant
            i <= s@.len(),
            forall|j: int| 0 <= j < i ==> s@[j] == 0,
        decreases s@.len() - i,
    {
        if s[i] != 0 {
            return false;
        }
        i = i + 1;
    }
    true
}

proof fn lemma_leading_zero_bits_bound(s: Seq<u8>)
    ensures
        leading_zero_bits(s) <= 8 * s.len(),
    decreases s.len(),
{
    if s.len() > 0 {
        lemma_leading_zero_bits_bound(s.drop_first());
        if s[0] != 0 {
            vstd::std_specs::bits::axiom_u8_leading_zeros(s[0]);
        }
    }
}

/// Counts the leading zero bits of `bytes`.
fn count_leading_zero_bits(bytes: &[u8]) -> (r: u32)
    requires
        bytes@.len() <= 1024,
    ensures
        r == leading_zero_bits(bytes@),
{
    let mut out: u32 = 0;
    let mut i: usize = 0;
    assert(bytes@.subrange(0, bytes@.len() as int) =~= bytes@);
    while i < bytes.len()
        invariant
            i <= bytes@.len() <= 1024,
            out == 8 * i,
            leading_zero_bits(bytes@) == out + leading_zero_bits(bytes@.subrange(
                i as int,
                bytes@.len() as int,
            )),
        decreases bytes@.len() - i,
    {
        let rest = Ghost(bytes@.subrange(i as int, bytes@.len() as int));
        assert(rest@.drop_first() =~= bytes@.subrange(i + 1, bytes@.len() as int));
        let b = bytes[i];
        if b != 0 {
            proof {
                vstd::std_specs::bits::axiom_u8_leading_zeros(b);
                lemma_leading_zero_bits_bound(rest@.drop_first());
            }
            return out + b.leading_zeros();
        }
        out = out + 8;
        i = i + 1;
    }
    assert(bytes@.subrange(bytes@.len() as int, bytes@.len() as int) =~= Seq::<u8>::empty());
    out
}

impl PowChallenge {
    /// A challenge whose token is the SHA-256 of the relay id, window,
    /// difficulty, client id and server secret. A difficulty above 255, and
    /// empty or all-zero server key material, are refused.
    pub fn new_stateless(
        relay_id: [u8; 16],
        unix_window: u64,
        difficulty_zero_bits: u32,
        client_id: &[u8],
        server_secret: &[u8],
    ) -> (r: Result<Self, PowAdmissionError>)
        ensures
            difficulty_zero_bits > 255 ==> r == Err::<Self, PowAdmissionError>(
                PowAdmissionError::InvalidDifficulty,
            ),
            difficulty_zero_bits <= 255 && (server_secret@.len() == 0 || all_zero_bytes(
                server_secret@,
            )) ==> r == Err::<Self, PowAdmissionError>(PowAdmissionError::InvalidServerSecret),
            difficulty_zero_bits <= 255 && server_secret@.len() > 0 && !all_zero_bytes(
                server_secret@,
            ) ==> (r matches Ok(c) && c.relay_id == relay_id && c.unix_window == unix_window
                && c.difficulty_zero_bits == difficulty_zero_bits && c.token@ == sha256_output(
                token_preimage(
                    relay_id@,
                    unix_window,
                    difficulty_zero_bits,
                    client_id@,
                    server_secret@,
                ),
            )),
    {
        if difficulty_zero_bits > 255 {
            return Err(PowAdmissionError::InvalidDifficulty);
        }
        if server_secret.len() == 0 || is_all_zero(server_secret) {
            return Err(PowAdmissionError::InvalidServerSecret);
        }
        let mut msg = pow_token_label_bytes();
        push_all(&mut msg, &relay_id);
        push_u64_be(&mut msg, unix_window);
        push_u32_be(&mut msg, difficulty_zero_bits);
        push_all(&mut msg, client_id);
        push_all(&mut msg, server_secret);
        let token = sha256(msg.as_slice());
        Ok(Self { relay_id, unix_window, difficulty_zero_bits, token })
    }

    /// Checks the work of `nonce`: see `pow_verdict`.
    pub fn verify(&self, nonce: &[u8]) -> (r: Result<(), PowAdmissionError>)
        ensures
            r == pow_verdict(*self, nonce@),
    {
        if self.difficulty_zero_bits > 255 {
            return Err(PowAdmissionError::InvalidDifficulty);
        }
        let mut msg = pow_admission_label_bytes();
        push_all(&mut msg, &self.relay_id);
        push_u64_be(&mut msg, self.unix_window);
        push_u32_be(&mut msg, self.difficulty_zero_bits);
        push_all(&mut msg, &self.token);
        push_all(&mut msg, nonce);
        let digest = sha256(msg.as_slice());
        if count_leading_zero_bits(&digest) >= self.difficulty_zero_bits {
            Ok(())
        } else {
            Err(PowAdmissionError::InvalidNonce)
        }
    }
}

/// Tries the nonces `0, 1, ...` (each as 8 big-endian bytes) below
/// `max_iters` and returns the first that `verify` accepts.
pub fn solve_pow_for_tests(challenge: &PowChallenge, max_iters: u64) -> (r: Option<Vec<u8>>)
    ensures
        match r {
            Some(nonce) => exists|i: u64|
                i < max_iters && nonce@ == u64_be(i) && pow_verdict(*challenge, u64_be(i)) is Ok
                    && forall|j: u64| j < i ==> #[trigger] pow_verdict(*challenge, u64_be(j)) is Err,
            None => forall|j: u64| j < max_iters ==> #[trigger] pow_verdict(*challenge, u64_be(j)) is Err,
        },
{
    let mut i: u64 = 0;
    while i < max_iters
        invariant
            i <= max_iters,
            forall|j: u64| j < i ==> #[trigger] pow_verdict(*challenge, u64_be(j)) is Err,
        decreases max_iters - i,
    {
        let mut nonce: Vec<u8> = Vec::new();
        push_u64_be(&mut nonce, i);
        assert(nonce@ =~= u64_be(i));
        if challenge.verify(nonce.as_slice()).is_ok() {
            return Some(nonce);
        }
        i = i + 1;
    }
    None
}

/// One admitted work proof: its key (token then nonce) and when it was
/// admitted, in nanoseconds since the cache was made.
pub type PowEntry = (Seq<u8>, u128);

/// Whether an entry admitted at `seen_at` has lived at least `ttl` at `now`.
pub open spec fn pow_entry_expired(seen_at: u128, now: u128, ttl: u128) -> bool {
    (if now >= seen_at {
        now - seen_at
    } else {
        0
    }) >= ttl
}

/// The entries left after dropping expired ones from the front (the oldest).
pub open spec fn pow_prune_front(entries: Seq<PowEntry>, now: u128, ttl: u128) -> Seq<PowEntry>
    decreases entries.len(),
{
    if entries.len() > 0 && pow_entry_expired(entries[0].1, now, ttl) {
        pow_prune_front(entries.drop_first(), now, ttl)
    } else {
        entries
    }
}

/// Whether `entries` holds the key `key`.
pub open spec fn pow_remembers(entries: Seq<PowEntry>, key: Seq<u8>) -> bool {
    exists|i: int| 0 <= i < entries.len() && #[trigger] entries[i].0 == key
}

/// No key occurs twice.
pub open spec fn pow_keys_distinct(entries: Seq<PowEntry>) -> bool {
    forall|i: int, j: int| 0 <= i < j < entries.len() ==> #[trigger] entries[i].0 != #[trigger] entries[j].0
}

/// The newest `max` entries (all of them when there are at most `max`).
pub open spec fn pow_keep_newest(entries: Seq<PowEntry>, max: nat) -> Seq<PowEntry> {
    if entries.len() > max {
        entries.subrange(entries.len() - max, entries.len() as int)
    } else {
        entries
    }
}

/// One admission of `nonce` for challenge `c` at time `now`: expired entries
/// are forgotten first; a key still remembered is a replay; otherwise the
/// work is checked, and when it holds the key is remembered and the oldest
/// entries beyond the capacity are forgotten.
pub open spec fn pow_admitted(
    entries: Seq<PowEntry>,
    ttl: u128,
    capacity: nat,
    c: PowChallenge,
    nonce: Seq<u8>,
    now: u128,
    r: Result<(), PowAdmissionError>,
    after: Seq<PowEntry>,
) -> bool {
    let pruned = pow_prune_front(entries, now, ttl);
    let key = c.token@ + nonce;
    if pow_remembers(pruned, key) {
        r == Err::<(), PowAdmissionError>(PowAdmissionError::Replay) && after == pruned
    } else {
        match pow_verdict(c, nonce) {
            Err(e) => r == Err::<(), PowAdmissionError>(e) && after == pruned,
            Ok(()) => r == Ok::<(), PowAdmissionError>(()) && after == pow_keep_newest(
                pruned.push((key, now)),
                capacity,
            ),
        }
    }
}

/// A bounded, expiring memory of admitted work proofs.
#[derive(Debug)]
pub struct PowAdmissionCache {
    epoch: Instant,
    ttl_nanos: u128,
    max_entries: usize,
    seen: Vec<(Vec<u8>, u128)>,
}

pub open spec fn entry_view(e: (Vec<u8>, u128)) -> PowEntry {
    (e.0@, e.1)
}

impl PowAdmissionCache {
    /// The remembered keys with their admission times, oldest first.
    pub closed spec fn entries(&self) -> Seq<PowEntry> {
        self.seen@.map_values(|e: (Vec<u8>, u128)| entry_view(e))
    }

    /// The largest number of entries kept.
    pub closed spec fn capacity(&self) -> nat {
        self.max_entries as nat
    }

    /// How long an entry is remembered, in nanoseconds.
    pub closed spec fn ttl(&self) -> u128 {
        self.ttl_nanos
    }

    #[verifier::type_invariant]
    closed spec fn wf(&self) -> bool {
        &&& pow_keys_distinct(self.entries())
        &&& self.seen@.len() <= self.max_entries
        &&& self.max_entries >= 1
    }

    /// A cache of at most `max(max_entries, 1)` entries that live for `ttl`.
    pub fn new(max_entries: usize, ttl: Duration) -> (r: Self)
        ensures
            r.entries() == Seq::<PowEntry>::empty(),
            r.capacity() == if max_entries == 0 {
                1
            } else {
                max_entries as nat
            },
            r.ttl() == duration_nanos(ttl),
    {
        let r = Self {
            epoch: instant_now(),
            ttl_nanos: duration_as_nanos(&ttl),
            max_entries: if max_entries == 0 {
                1
            } else {
                max_entries
            },
            seen: Vec::new(),
        };
        assert(r.entries() =~= Seq::<PowEntry>::empty());
        r
    }

    pub fn len(&self) -> (n: usize)
        ensures
            n == self.entries().len(),
    {
        self.seen.len()
    }

    pub fn is_empty(&self) -> (b: bool)
        ensures
            b == (self.entries().len() == 0),
    {
        self.seen.len() == 0
    }

    fn remembers_key(&self, key: &[u8]) -> (r: bool)
        ensures
            r == pow_remembers(self.entries(), key@),
    {
        let mut i: usize = 0;
        while i < self.seen.len()
            invariant
                i <= self.seen@.len(),
                forall|j: int| 0 <= j < i ==> #[trigger] self.entries()[j].0 != key@,
            decreases self.seen@.len() - i,
        {
            if bytes_equal(self.seen[i].0.as_slice(), key) {
                assert(self.entries()[i as int].0 == key@);
                return true;
            }
            i = i + 1;
        }
        false
    }

    /// Admit `nonce` for `challenge` at `now` nanoseconds after the cache was
    /// made; see `pow_admitted`.
    pub fn verify_and_insert_at(&mut self, challenge: &PowChallenge, nonce: &[u8], now: u128) -> (r:
        Result<(), PowAdmissionError>)
        ensures
            final(self).capacity() == old(self).capacity(),
            final(self).ttl() == old(self).ttl(),
            pow_admitted(
                old(self).entries(),
                old(self).ttl(),
                old(self).capacity(),
                *challenge,
                nonce@,
                now,
                r,
                final(self).entries(),
            ),
    {
        proof {
            use_type_invariant(&*self);
        }
        let mut seen: Vec<(Vec<u8>, u128)> = Vec::new();
        std::mem::swap(&mut seen, &mut self.seen);
        let ghost start = seen@.map_values(|e: (Vec<u8>, u128)| entry_view(e));
        // Forget the expired prefix.
        while seen.len() > 0 && expired_at(seen[0].1, now, self.ttl_nanos)
            invariant
                pow_prune_front(start, now, self.ttl_nanos) == pow_prune_front(
                    seen@.map_values(|e: (Vec<u8>, u128)| entry_view(e)),
                    now,
                    self.ttl_nanos,
                ),
                seen@.len() <= start.len(),
                start.len() <= self.max_entries,
                pow_keys_distinct(seen@.map_values(|e: (Vec<u8>, u128)| entry_view(e))),
            decreases seen@.len(),
        {
            let ghost before = seen@;
            seen.remove(0);
            assert(seen@.map_values(|e: (Vec<u8>, u128)| entry_view(e)) =~= before.map_values(
                |e: (Vec<u8>, u128)| entry_view(e),
            ).drop_first());
        }
        let ghost pruned = seen@.map_values(|e: (Vec<u8>, u128)| entry_view(e));
        assert(pow_prune_front(pruned, now, self.ttl_nanos) == pruned);
        let mut key: Vec<u8> = Vec::new();
        push_all(&mut key, &challenge.token);
        push_all(&mut key, nonce);
        self.seen = seen;
        assert(self.entries() == pruned);
        if self.remembers_key(key.as_slice()) {
            return Err(PowAdmissionError::Replay);
        }
        if let Err(e) = challenge.verify(nonce) {
            return Err(e);
        }
        let mut seen: Vec<(Vec<u8>, u128)> = Vec::new();
        std::mem::swap(&mut seen, &mut self.seen);
        let ghost key_view = key@;
        seen.push((key, now));
        let ghost pushed = seen@.map_values(|e: (Vec<u8>, u128)| entry_view(e));
        assert(pushed =~= pruned.push((key_view, now)));
        assert(pow_keys_distinct(pushed)) by {
            assert forall|i: int, j: int| 0 <= i < j < pushed.len() implies #[trigger] pushed[i].0
                != #[trigger] pushed[j].0 by {
                if j == pushed.len() - 1 {
                    assert(pushed[i] == pruned[i]);
                }
            }
        }
        while seen.len() > self.max_entries
            invariant
                pow_keep_newest(pushed, self.max_entries as nat) == pow_keep_newest(
                    seen@.map_values(|e: (Vec<u8>, u128)| entry_view(e)),
                    self.max_entries as nat,
                ),
                pow_keys_distinct(seen@.map_values(|e: (Vec<u8>, u128)| entry_view(e))),
                self.max_entries >= 1,
            decreases seen@.len(),
        {
            let ghost before = seen@.map_values(|e: (Vec<u8>, u128)| entry_view(e));
            seen.remove(0);
            let ghost after = seen@.map_values(|e: (Vec<u8>, u128)| entry_view(e));
            assert(after =~= before.drop_first());
            assert(before.subrange(before.len() - self.max_entries, before.len() as int)
                =~= after.subrange(after.len() - self.max_entries, after.len() as int));
        }
        assert(pow_keep_newest(seen@.map_values(|e: (Vec<u8>, u128)| entry_view(e)), self.max_entries as nat)
            == seen@.map_values(|e: (Vec<u8>, u128)| entry_view(e)));
        self.seen = seen;
        Ok(())
    }

    /// Admit `nonce` for `challenge` at the current time; see `pow_admitted`.
    pub fn verify_and_insert(&mut self, challenge: &PowChallenge, nonce: &[u8]) -> (r: Result<
        (),
        PowAdmissionError,
    >)
        ensures
            final(self).capacity() == old(self).capacity(),
            final(self).ttl() == old(self).ttl(),
            exists|now: u128|
                #[trigger] pow_admitted(
                    old(self).entries(),
                    old(self).ttl(),
                    old(self).capacity(),
                    *challenge,
                    nonce@,
                    now,
                    r,
                    final(self).entries(),
                ),
    {
        let elapsed = instant_duration_since(&instant_now(), &self.epoch);
        let now = duration_as_nanos(&elapsed);
        self.verify_and_insert_at(challenge, nonce, now)
    }
}

fn expired_at(seen_at: u128, now: u128, ttl: u128) -> (r: bool)
    ensures
        r == pow_entry_expired(seen_at, now, ttl),
{
    let age = if now >= seen_at {
        now - seen_at
    } else {
        0
    };
    age >= ttl
}

/// A nonce admitted once is refused as a replay until its entry expires or
/// is pushed out: admitting the same work again at a time at which the entry
/// has not expired answers `Replay` when the capacity kept it.
pub proof fn lemma_admission_refuses_replay(
    entries: Seq<PowEntry>,
    ttl: u128,
    capacity: nat,
    c: PowChallenge,
    nonce: Seq<u8>,
    now: u128,
    after: Seq<PowEntry>,
    later: u128,
    r2: Result<(), PowAdmissionError>,
    after2: Seq<PowEntry>,
)
    requires
        capacity >= 1,
        pow_admitted(entries, ttl, capacity, c, nonce, now, Ok(()), after),
        pow_admitted(after, ttl, capacity, c, nonce, later, r2, after2),
        later >= now,
        later - now < ttl,
    ensures
        r2 == Err::<(), PowAdmissionError>(PowAdmissionError::Replay),
{
    let pruned = pow_prune_front(entries, now, ttl);
    let key = c.token@ + nonce;
    let pushed = pruned.push((key, now));
    assert(pushed[pushed.len() - 1] == (key, now));
    let kept = pow_keep_newest(pushed, capacity);
    assert(kept.len() >= 1 && kept[kept.len() - 1] == (key, now));
    lemma_pow_prune_keeps_fresh(kept, later, ttl, kept.len() - 1);
}

/// Pruning at `now` keeps every entry at or after one that has not expired,
/// provided entry times are ordered; here only the last entry matters.
proof fn lemma_pow_prune_keeps_fresh(entries: Seq<PowEntry>, now: u128, ttl: u128, k: int)
    requires
        0 <= k < entries.len(),
        k == entries.len() - 1,
        !pow_entry_expired(entries[k].1, now, ttl),
    ensures
        pow_remembers(pow_prune_front(entries, now, ttl), entries[k].0),
    decreases entries.len(),
{
    if entries.len() > 0 && pow_entry_expired(entries[0].1, now, ttl) {
        assert(k > 0);
        let rest = entries.drop_first();
        assert(rest[k - 1] == entries[k]);
        lemma_pow_prune_keeps_fresh(rest, now, ttl, k - 1);
    } else {
        assert(entries[k].0 == entries[k].0);
    }
}

} // verus!
