//! Data-plane selection and the ring / queue cursor boundaries of the
//! AF_XDP and io_uring prototypes.
pub mod af_xdp_proto;
pub mod io_uring_proto;
pub mod ring_model;

use vstd::prelude::*;
use vstd::string::StringSliceAdditionalSpecFns;
use crate::bytes::bytes_equal;
use std::sync::atomic::{compiler_fence, Ordering};

verus! {

#[derive(Debug, Clone, Copy, PartialEq, Eq, Structural)]
pub enum DataPlaneMode {
    StandardUdp,
    AfXdpPrototype,
    IoUringPrototype,
}

pub struct DataPlaneProbe {
    pub mode: DataPlaneMode,
}

/// `"af_xdp"`, `"af_xdp_zero_copy"`, `"io_uring"`, `"io_uring_sqpoll"` as bytes.
pub open spec fn af_xdp_name() -> Seq<u8> {
    seq![0x61u8, 0x66, 0x5f, 0x78, 0x64, 0x70]
}

pub open spec fn af_xdp_zero_copy_name() -> Seq<u8> {
    seq![0x61u8, 0x66, 0x5f, 0x78, 0x64, 0x70, 0x5f, 0x7a, 0x65, 0x72, 0x6f, 0x5f, 0x63, 0x6f, 0x70, 0x79]
}

pub open spec fn io_uring_name() -> Seq<u8> {
    seq![0x69u8, 0x6f, 0x5f, 0x75, 0x72, 0x69, 0x6e, 0x67]
}

pub open spec fn io_uring_sqpoll_name() -> Seq<u8> {
    seq![0x69u8, 0x6f, 0x5f, 0x75, 0x72, 0x69, 0x6e, 0x67, 0x5f, 0x73, 0x71, 0x70, 0x6f, 0x6c, 0x6c]
}

/// The mode an engine name selects: the AF_XDP names select the AF_XDP
/// prototype, the io_uring names the io_uring prototype, anything else UDP.
pub open spec fn mode_for_engine(name: Seq<u8>) -> DataPlaneMode {
    if name == af_xdp_name() || name == af_xdp_zero_copy_name() {
        DataPlaneMode::AfXdpPrototype
    } else if name == io_uring_name() || name == io_uring_sqpoll_name() {
        DataPlaneMode::IoUringPrototype
    } else {
        DataPlaneMode::StandardUdp
    }
}

/// Picks the data plane for the preferred engine; the interface is not consulted.
pub fn choose_data_plane(_interface: &str, preferred: &str) -> (p: DataPlaneProbe)
    ensures
        p.mode == mode_for_engine(preferred.spec_bytes()),
{
    let name = preferred.as_bytes();
    let af: [u8; 6] = [0x61, 0x66, 0x5f, 0x78, 0x64, 0x70];
    let af_zc: [u8; 16] = [
        0x61, 0x66, 0x5f, 0x78, 0x64, 0x70, 0x5f, 0x7a, 0x65, 0x72, 0x6f, 0x5f, 0x63, 0x6f, 0x70, 0x79,
    ];
    let io: [u8; 8] = [0x69, 0x6f, 0x5f, 0x75, 0x72, 0x69, 0x6e, 0x67];
    let io_sq: [u8; 15] = [
        0x69, 0x6f, 0x5f, 0x75, 0x72, 0x69, 0x6e, 0x67, 0x5f, 0x73, 0x71, 0x70, 0x6f, 0x6c, 0x6c,
    ];
    assert(af@ =~= af_xdp_name());
    assert(af_zc@ =~= af_xdp_zero_copy_name());
    assert(io@ =~= io_uring_name());
    assert(io_sq@ =~= io_uring_sqpoll_name());
    if bytes_equal(name, &af) || bytes_equal(name, &af_zc) {
        DataPlaneProbe { mode: DataPlaneMode::AfXdpPrototype }
    } else if bytes_equal(name, &io) || bytes_equal(name, &io_sq) {
        DataPlaneProbe { mode: DataPlaneMode::IoUringPrototype }
    } else {
        DataPlaneProbe { mode: DataPlaneMode::StandardUdp }
    }
}

/// Calls `std::sync::atomic::compiler_fence` with sequentially consistent
/// ordering. It only restrains compiler reordering; nothing is stated.
#[verifier::external_body]
pub(crate) fn compiler_fence_seq_cst() {
    compiler_fence(Ordering::SeqCst);
}

} // verus!
