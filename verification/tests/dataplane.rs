use chronos::dataplane::af_xdp_proto::{plan_af_xdp, AfXdpRingCursor};
use chronos::dataplane::io_uring_proto::{plan_io_uring, IoUringQueueCursor};
use chronos::dataplane::ring_model::{
    transition_outcome, DescriptorLifecycle, DescriptorState, DescriptorTransitionError,
};
use chronos::dataplane::{choose_data_plane, DataPlaneMode};
use chronos::framing::{UmemFrameDescriptor, WIRE_DATAGRAM_SIZE};

#[test]
fn descriptor_cannot_be_double_claimed() {
    let d = DescriptorLifecycle::new();
    assert_eq!(d.claim_for_rx(), Ok(()));
    assert!(d.claim_for_rx().is_err());
}

#[test]
fn descriptor_walks_the_full_lifecycle() {
    let d = DescriptorLifecycle::default();
    assert_eq!(d.state(), DescriptorState::Free);
    assert_eq!(
        d.submit_for_tx(),
        Err(DescriptorTransitionError::WrongState {
            expected: DescriptorState::RxOwned,
            actual: DescriptorState::Free,
        })
    );
    d.claim_for_rx().unwrap();
    assert_eq!(d.state(), DescriptorState::RxOwned);
    d.submit_for_tx().unwrap();
    assert_eq!(d.state(), DescriptorState::TxOwned);
    assert_eq!(
        d.claim_for_rx(),
        Err(DescriptorTransitionError::WrongState {
            expected: DescriptorState::Free,
            actual: DescriptorState::TxOwned,
        })
    );
    d.complete_tx().unwrap();
    assert_eq!(d.state(), DescriptorState::Free);
    assert_eq!(DescriptorState::TxOwned.code(), 2);
}

#[test]
fn engine_names_select_data_planes() {
    assert_eq!(choose_data_plane("eth0", "af_xdp").mode, DataPlaneMode::AfXdpPrototype);
    assert_eq!(choose_data_plane("eth0", "af_xdp_zero_copy").mode, DataPlaneMode::AfXdpPrototype);
    assert_eq!(choose_data_plane("eth0", "io_uring").mode, DataPlaneMode::IoUringPrototype);
    assert_eq!(choose_data_plane("eth0", "io_uring_sqpoll").mode, DataPlaneMode::IoUringPrototype);
    assert_eq!(choose_data_plane("eth0", "AF_XDP").mode, DataPlaneMode::StandardUdp);
    assert_eq!(choose_data_plane("eth0", "").mode, DataPlaneMode::StandardUdp);
}

#[test]
fn af_xdp_plan_and_ring_mask() {
    let plan = plan_af_xdp("eth0", "af_xdp", 0);
    assert!(plan.enabled);
    assert_eq!(plan.frame_size, 4096);
    assert_eq!(plan.umem_frames, 256);
    assert_eq!(plan_af_xdp("eth0", "udp", 3).umem_frames, 768);
    assert!(!plan_af_xdp("eth0", "udp", 3).enabled);

    let ring = AfXdpRingCursor::new(5);
    let slots: Vec<u32> = (0..10).map(|_| ring.reserve_producer_slot()).collect();
    assert_eq!(slots, vec![0, 1, 2, 3, 4, 5, 6, 7, 0, 1]);
    assert_eq!(ring.producer(), 10);
    ring.publish_consumer_completion(7);
    assert_eq!(ring.consumer(), 7);
    let tiny = AfXdpRingCursor::new(0);
    assert_eq!((tiny.reserve_producer_slot(), tiny.reserve_producer_slot(), tiny.reserve_producer_slot()), (0, 1, 0));
}

#[test]
fn io_uring_plan_and_cursors() {
    let plan = plan_io_uring("eth0", "io_uring_sqpoll", 0);
    assert!(plan.enabled && plan.sqpoll);
    assert_eq!(plan.registered_buffers, 1);
    let off = plan_io_uring("eth0", "af_xdp", 64);
    assert!(!off.enabled && !off.sqpoll);
    assert_eq!(off.registered_buffers, 64);

    let q = IoUringQueueCursor::default();
    q.publish_submission_tail(12);
    q.advance_completion_head(4);
    assert_eq!(q.observe_submission_tail(), 12);
    assert_eq!(q.observe_completion_head(), 4);
}

#[test]
fn umem_frame_lifecycle_flag() {
    let mut frame = UmemFrameDescriptor::new();
    assert_eq!(frame.wire_datagram.len(), WIRE_DATAGRAM_SIZE);
    assert!(frame.wire_datagram.iter().all(|b| *b == 0));
    assert!(frame.is_safe_for_fill_ring());
    frame.submit_to_egress_iouring();
    assert!(!frame.is_safe_for_fill_ring());
    frame.on_iouring_cqe_received();
    assert!(frame.is_safe_for_fill_ring());
}

#[test]
fn transition_outcome_reports_the_byte_found() {
    assert_eq!(transition_outcome(DescriptorState::Free, Ok(0)), Ok(()));
    assert_eq!(
        transition_outcome(DescriptorState::RxOwned, Err(2)),
        Err(DescriptorTransitionError::WrongState {
            expected: DescriptorState::RxOwned,
            actual: DescriptorState::TxOwned,
        })
    );
    assert_eq!(
        transition_outcome(DescriptorState::TxOwned, Err(9)),
        Err(DescriptorTransitionError::WrongState {
            expected: DescriptorState::TxOwned,
            actual: DescriptorState::Free,
        })
    );
}
