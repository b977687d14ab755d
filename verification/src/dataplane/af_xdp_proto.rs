//! AF_XDP prototype boundary: the ring cursors, behind compiler fences, and
//! the plan of a UMEM area.
use vstd::prelude::*;
use vstd::string::StringSliceAdditionalSpecFns;
use std::sync::atomic::{AtomicU32, Ordering};
use vstd::arithmetic::power2::{lemma_pow2_unfold, pow2};
use crate::dataplane::{choose_data_plane, compiler_fence_seq_cst, mode_for_engine, DataPlaneMode};

verus! {

#[derive(Debug, Clone, PartialEq, Eq)]
pub struct AfXdpPlan {
    pub enabled: bool,
    pub umem_frames: usize,
    pub frame_size: usize,
}

#[derive(Debug)]
pub struct AfXdpRingCursor {
    producer: AtomicU32,
    consumer: AtomicU32,
    mask: u32,
}

/// The smallest power of two at least `n`.
fn next_power_of_two(n: u32) -> (p: u32)
    requires
        1 <= n <= 0x8000_0000,
    ensures
        exists|e: nat| p == pow2(e),
        p >= n,
        p == 1 || p / 2 < n,
{
    let mut p: u32 = 1;
    let ghost mut e: nat = 0;
    proof {
        vstd::arithmetic::power2::lemma_pow2(0);
        vstd::arithmetic::power::lemma_pow0(2);
    }
    while p < n
        invariant
            p == pow2(e),
            p >= 1,
            1 <= n <= 0x8000_0000,
            p == 1 || p / 2 < n,
        decreases 0x1_0000_0000 - p,
    {
        proof {
            lemma_pow2_unfold(e + 1);
        }
        p = p * 2;
        proof {
            e = e + 1;
        }
    }
    p
}

impl AfXdpRingCursor {
    /// The index mask: one less than the ring size.
    pub closed spec fn mask(&self) -> u32 {
        self.mask
    }

    /// A ring of `max(ring_entries, 2)` rounded up to a power of two.
    pub fn new(ring_entries: u32) -> (c: Self)
        requires
            ring_entries <= 0x8000_0000,
        ensures
            exists|e: nat| c.mask() + 1 == pow2(e),
            c.mask() + 1 >= ring_entries,
            c.mask() + 1 >= 2,
            (c.mask() + 1) / 2 < if ring_entries >= 2 {
                ring_entries
            } else {
                2
            },
    {
        let wanted: u32 = if ring_entries >= 2 {
            ring_entries
        } else {
            2
        };
        let entries = next_power_of_two(wanted);
        Self { producer: AtomicU32::new(0), consumer: AtomicU32::new(0), mask: entries - 1 }
    }

    /// Takes the next producer slot: the ticket drawn from the shared counter,
    /// masked to the ring. The counter is shared, so which ticket is not
    /// stated; the slot always lies inside the ring.
    pub fn reserve_producer_slot(&self) -> (slot: u32)
        ensures
            exists|ticket: u32| slot == ticket & self.mask(),
            slot <= self.mask(),
    {
        compiler_fence_seq_cst();
        let ticket = self.producer.fetch_add(1, Ordering::AcqRel);
        let mask = self.mask;
        let slot = ticket & mask;
        assert(ticket & mask <= mask) by (bit_vector);
        compiler_fence_seq_cst();
        assert(slot == ticket & self.mask());
        slot
    }

    pub fn publish_consumer_completion(&self, completed: u32) {
        compiler_fence_seq_cst();
        self.consumer.store(completed, Ordering::Release);
        compiler_fence_seq_cst();
    }

    /// The producer counter, read from shared memory.
    pub fn producer(&self) -> u32 {
        self.producer.load(Ordering::Acquire)
    }

    /// The consumer counter, read from shared memory.
    pub fn consumer(&self) -> u32 {
        self.consumer.load(Ordering::Acquire)
    }
}

/// A UMEM area of `max(umem_mb, 1)` MiB in 4 KiB frames, enabled when the
/// preferred engine selects AF_XDP.
pub fn plan_af_xdp(interface: &str, preferred_engine: &str, umem_mb: usize) -> (p: AfXdpPlan)
    requires
        umem_mb * 1048576 <= usize::MAX,
    ensures
        p.enabled == (mode_for_engine(preferred_engine.spec_bytes())
            == DataPlaneMode::AfXdpPrototype),
        p.frame_size == 4096,
        p.umem_frames == (if umem_mb >= 1 {
            umem_mb as int
        } else {
            1
        }) * 256,
{
    let probe = choose_data_plane(interface, preferred_engine);
    let frame_size: usize = 4096;
    let mb: usize = if umem_mb >= 1 {
        umem_mb
    } else {
        1
    };
    let bytes: usize = mb * 1024 * 1024;
    assert(bytes / 4096 == mb * 256) by (nonlinear_arith)
        requires
            bytes == mb * 1024 * 1024,
    ;
    AfXdpPlan {
        enabled: probe.mode == DataPlaneMode::AfXdpPrototype,
        umem_frames: bytes / frame_size,
        frame_size,
    }
}

} // verus!
