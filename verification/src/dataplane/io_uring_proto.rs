//! io_uring prototype boundary: the submission tail and completion head,
//! behind compiler fences, and the plan of registered buffers.
use vstd::prelude::*;
use vstd::string::StringSliceAdditionalSpecFns;
use std::sync::atomic::{AtomicU32, Ordering};
use crate::dataplane::{choose_data_plane, compiler_fence_seq_cst, mode_for_engine, DataPlaneMode};

verus! {

#[derive(Debug, Clone, PartialEq, Eq)]
pub struct IoUringPlan {
    pub enabled: bool,
    pub registered_buffers: usize,
    pub sqpoll: bool,
}

/// The shared queue indices; each read is of shared memory and is not
/// stated.
#[derive(Debug)]
pub struct IoUringQueueCursor {
    sq_tail: AtomicU32,
    cq_head: AtomicU32,
}

impl IoUringQueueCursor {
    pub fn new() -> (c: Self) {
        Self { sq_tail: AtomicU32::new(0), cq_head: AtomicU32::new(0) }
    }

    pub fn publish_submission_tail(&self, tail: u32) {
        compiler_fence_seq_cst();
        self.sq_tail.store(tail, Ordering::Release);
        compiler_fence_seq_cst();
    }

    pub fn observe_submission_tail(&self) -> u32 {
        compiler_fence_seq_cst();
        self.sq_tail.load(Ordering::Acquire)
    }

    pub fn advance_completion_head(&self, head: u32) {
        compiler_fence_seq_cst();
        self.cq_head.store(head, Ordering::Release);
        compiler_fence_seq_cst();
    }

    pub fn observe_completion_head(&self) -> u32 {
        compiler_fence_seq_cst();
        self.cq_head.load(Ordering::Acquire)
    }
}

impl Default for IoUringQueueCursor {
    fn default() -> (c: Self) {
        Self::new()
    }
}

/// io_uring with SQ polling is enabled when the preferred engine selects it;
/// at least one buffer is registered.
pub fn plan_io_uring(interface: &str, preferred_engine: &str, buffers: usize) -> (p: IoUringPlan)
    ensures
        p.enabled == (mode_for_engine(preferred_engine.spec_bytes())
            == DataPlaneMode::IoUringPrototype),
        p.sqpoll == p.enabled,
        p.registered_buffers == if buffers == 0 {
            1
        } else {
            buffers
        },
{
    let probe = choose_data_plane(interface, preferred_engine);
    IoUringPlan {
        enabled: probe.mode == DataPlaneMode::IoUringPrototype,
        registered_buffers: if buffers == 0 {
            1
        } else {
            buffers
        },
        sqpoll: probe.mode == DataPlaneMode::IoUringPrototype,
    }
}

} // verus!
