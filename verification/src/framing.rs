//! Fixed wire-budget constants and a prototype UMEM descriptor.
//!
//! The descriptor models memory layout only; it is kept separate from
//! protocol cryptography.
use vstd::prelude::*;
use std::sync::atomic::{AtomicU8, Ordering};

verus! {

pub const WIRE_DATAGRAM_SIZE: usize = 1280;
pub const APP_CELL_PAYLOAD_SIZE: usize = 1200;
pub const SIMD_SCRATCHPAD_SIZE: usize = 2808;

/// A UMEM frame: the datagram, a scratchpad, and a lifecycle byte shared with
/// the I/O engine (0 = free / fill ring, 1 = receive processing, 2 = egress
/// in progress).
pub struct UmemFrameDescriptor {
    pub wire_datagram: [u8; WIRE_DATAGRAM_SIZE],
    pub simd_scratchpad: [u8; SIMD_SCRATCHPAD_SIZE],
    pub lifecycle_state: AtomicU8,
    pub _padding: [u8; 7],
}

impl UmemFrameDescriptor {
    /// A zeroed, free frame.
    pub fn new() -> (d: Self)
        ensures
            forall|i: int| 0 <= i < WIRE_DATAGRAM_SIZE ==> d.wire_datagram@[i] == 0,
            forall|i: int| 0 <= i < SIMD_SCRATCHPAD_SIZE ==> d.simd_scratchpad@[i] == 0,
            forall|i: int| 0 <= i < 7 ==> d._padding@[i] == 0,
    {
        Self {
            wire_datagram: [0u8; 1280],
            simd_scratchpad: [0u8; 2808],
            lifecycle_state: AtomicU8::new(0),
            _padding: [0u8; 7],
        }
    }

    /// Marks the frame as handed to the egress engine (lifecycle byte 2).
    /// The byte lives in an atomic whose value Verus does not see; the
    /// frame's data is left as it was.
    pub fn submit_to_egress_iouring(&mut self)
        ensures
            final(self).wire_datagram == old(self).wire_datagram,
            final(self).simd_scratchpad == old(self).simd_scratchpad,
            final(self)._padding == old(self)._padding,
    {
        self.lifecycle_state.store(2, Ordering::Release);
    }

    /// Marks the frame free again once its completion entry arrived
    /// (lifecycle byte 0); the frame's data is left as it was.
    pub fn on_iouring_cqe_received(&mut self)
        ensures
            final(self).wire_datagram == old(self).wire_datagram,
            final(self).simd_scratchpad == old(self).simd_scratchpad,
            final(self)._padding == old(self)._padding,
    {
        self.lifecycle_state.store(0, Ordering::Release);
    }

    /// Whether the lifecycle byte reads free. The byte is shared with the I/O
    /// engine, so nothing is stated of the answer.
    pub fn is_safe_for_fill_ring(&self) -> bool {
        self.lifecycle_state.load(Ordering::Acquire) == 0
    }
}

impl Default for UmemFrameDescriptor {
    fn default() -> (d: Self)
        ensures
            forall|i: int| 0 <= i < WIRE_DATAGRAM_SIZE ==> d.wire_datagram@[i] == 0,
    {
        Self::new()
    }
}

} // verus!
