//! A session key ratchet with two triggers: a packet-count threshold and an
//! elapsed-time threshold. Each step replaces the secret with SHA-256 over
//! the secret and a fixed label.
use vstd::prelude::*;
use std::time::{Duration, Instant};
use crate::bytes::{push_all, push_u64_be, u64_be};
use crate::crypto::{sha256, sha256_output};
use crate::time::{duration_as_nanos, duration_from_secs, duration_nanos, instant_duration_since, instant_now};

verus! {

/// `"chronos_v7_ratchet_step"` as bytes.
pub open spec fn ratchet_label() -> Seq<u8> {
    seq![
        0x63u8, 0x68, 0x72, 0x6f, 0x6e, 0x6f, 0x73, 0x5f, 0x76, 0x37, 0x5f, 0x72, 0x61, 0x74, 0x63,
        0x68, 0x65, 0x74, 0x5f, 0x73, 0x74, 0x65, 0x70,
    ]
}

fn ratchet_label_bytes() -> (r: Vec<u8>)
    ensures
        r@ == ratchet_label(),
{
    let r: Vec<u8> = vec![
        0x63u8, 0x68, 0x72, 0x6f, 0x6e, 0x6f, 0x73, 0x5f, 0x76, 0x37, 0x5f, 0x72, 0x61, 0x74, 0x63,
        0x68, 0x65, 0x74, 0x5f, 0x73, 0x74, 0x65, 0x70,
    ];
    assert(r@ =~= ratchet_label());
    r
}

/// The secret after one ratchet step.
pub open spec fn ratchet_step(secret: Seq<u8>) -> Seq<u8> {
    sha256_output(secret + ratchet_label())
}

/// The tag that follows `tag` at sequence number `seq` under `secret`: the
/// first 16 bytes of SHA-256 over the secret, the tag and the sequence
/// number (big-endian).
pub open spec fn evolved_tag(secret: Seq<u8>, tag: Seq<u8>, seq: u64) -> Seq<u8> {
    sha256_output(secret + tag + u64_be(seq)).take(16)
}

pub struct SessionKeyRatchet {
    pub current_secret: [u8; 32],
    pub packet_sequence_count: u64,
    pub epoch_start_time: Instant,
    pub volume_threshold: u64,
    pub temporal_threshold: Duration,
}

impl SessionKeyRatchet {
    /// Whether `next` is `prev` after one ratchet step: the secret is
    /// stepped, the packet count restarts, the thresholds are kept.
    pub open spec fn ratcheted(prev: &Self, next: &Self) -> bool {
        &&& next.current_secret@ == ratchet_step(prev.current_secret@)
        &&& next.packet_sequence_count == 0
        &&& next.volume_threshold == prev.volume_threshold
        &&& next.temporal_threshold == prev.temporal_threshold
    }

    /// A ratchet at `initial_secret`, stepping every 65,536 packets or 60
    /// seconds.
    pub fn new(initial_secret: [u8; 32]) -> (r: Self)
        ensures
            r.current_secret == initial_secret,
            r.packet_sequence_count == 0,
            r.volume_threshold == 65536,
            duration_nanos(r.temporal_threshold) == 60_000_000_000,
    {
        Self {
            current_secret: initial_secret,
            packet_sequence_count: 0,
            epoch_start_time: instant_now(),
            volume_threshold: 65536,
            temporal_threshold: duration_from_secs(60),
        }
    }

    /// Steps the secret when the packet count has reached its threshold or
    /// the epoch has lasted its time (which depends on the clock); returns
    /// whether it stepped. A count at the threshold always steps.
    pub fn check_and_ratchet(&mut self) -> (r: bool)
        ensures
            r ==> Self::ratcheted(old(self), final(self)),
            !r ==> *final(self) == *old(self) && old(self).packet_sequence_count < old(self).volume_threshold,
            old(self).packet_sequence_count >= old(self).volume_threshold ==> r,
    {
        let volume_exceeded = self.packet_sequence_count >= self.volume_threshold;
        let now = instant_now();
        let elapsed = instant_duration_since(&now, &self.epoch_start_time);
        let temporal_exceeded = duration_as_nanos(&elapsed) >= duration_as_nanos(&self.temporal_threshold);
        if volume_exceeded || temporal_exceeded {
            let mut input: Vec<u8> = Vec::new();
            push_all(&mut input, &self.current_secret);
            let label = ratchet_label_bytes();
            push_all(&mut input, label.as_slice());
            self.current_secret = sha256(input.as_slice());
            self.packet_sequence_count = 0;
            self.epoch_start_time = instant_now();
            true
        } else {
            false
        }
    }

    /// Counts a packet, steps the secret if a threshold is reached, and
    /// returns the next tag under the (possibly stepped) secret.
    pub fn evolve_tag(&mut self, current_tag: &[u8; 16], seq: u64) -> (r: [u8; 16])
        requires
            old(self).packet_sequence_count < u64::MAX,
        ensures
            ({
                let counted = (old(self).packet_sequence_count + 1) as u64;
                ||| counted < old(self).volume_threshold && final(self).current_secret == old(self).current_secret
                    && final(self).packet_sequence_count == counted && final(self).volume_threshold
                    == old(self).volume_threshold && final(self).temporal_threshold
                    == old(self).temporal_threshold && final(self).epoch_start_time
                    == old(self).epoch_start_time
                ||| Self::ratcheted(old(self), final(self))
            }),
            old(self).packet_sequence_count + 1 >= old(self).volume_threshold ==> Self::ratcheted(
                old(self),
                final(self),
            ),
            r@ == evolved_tag(final(self).current_secret@, current_tag@, seq),
    {
        self.packet_sequence_count = self.packet_sequence_count + 1;
        self.check_and_ratchet();
        let mut input: Vec<u8> = Vec::new();
        push_all(&mut input, &self.current_secret);
        push_all(&mut input, current_tag);
        push_u64_be(&mut input, seq);
        let full_hash = sha256(input.as_slice());
        let mut next_tag = [0u8; 16];
        crate::bytes::fill_array(&mut next_tag, &full_hash, 0);
        assert(next_tag@ =~= full_hash@.take(16));
        next_tag
    }
}

} // verus!
