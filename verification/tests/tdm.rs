use chronos::tdm::{TdmCellKind, TdmPlanError, TdmScheduler, TDM_MAX_EPOCH_SLOTS};
use std::time::Duration;

#[test]
fn tdm_scheduler_fills_idle_slots_with_cover() {
    let s = TdmScheduler::new(Duration::from_millis(5), true);
    let plan = s.plan_epoch(4, 2).expect("plan");
    assert_eq!(plan.len(), 4);
    assert_eq!(plan[0].kind, TdmCellKind::Data);
    assert_eq!(plan[1].kind, TdmCellKind::Data);
    assert_eq!(plan[2].kind, TdmCellKind::Cover);
    assert_eq!(plan[3].send_after, Duration::from_millis(15));
}

#[test]
fn tdm_scheduler_rejects_unbounded_epoch_allocations() {
    let scheduler = TdmScheduler::new(Duration::from_millis(1), false);
    assert_eq!(
        scheduler.plan_epoch(TDM_MAX_EPOCH_SLOTS + 1, 0),
        Err(TdmPlanError::TooManySlots {
            got: TDM_MAX_EPOCH_SLOTS + 1,
            max: TDM_MAX_EPOCH_SLOTS,
        })
    );
}

#[test]
fn tdm_scheduler_can_skip_cover_when_disabled() {
    let s = TdmScheduler::new(Duration::from_millis(1), false);
    let plan = s.plan_epoch(8, 3).expect("plan");
    assert_eq!(plan.len(), 3);
    assert!(plan.iter().all(|slot| slot.kind == TdmCellKind::Data));
}

#[test]
fn tdm_slots_are_numbered_and_spaced_by_width() {
    let s = TdmScheduler::new(Duration::from_micros(250), true);
    let plan = s.plan_epoch(6, 10).expect("plan");
    assert_eq!(plan.len(), 6);
    for (i, slot) in plan.iter().enumerate() {
        assert_eq!(slot.slot_index, i as u64);
        assert_eq!(slot.kind, TdmCellKind::Data);
        assert_eq!(slot.send_after, Duration::from_micros(250 * i as u64));
    }
}

#[test]
fn tdm_epoch_at_the_limit_is_accepted_and_saturates() {
    let s = TdmScheduler::new(Duration::MAX, false);
    let plan = s.plan_epoch(TDM_MAX_EPOCH_SLOTS, 2).expect("plan");
    assert_eq!(plan.len(), 2);
    assert_eq!(plan[0].send_after, Duration::ZERO);
    assert_eq!(plan[1].send_after, Duration::MAX);
    let empty = s.plan_epoch(0, 5).expect("plan");
    assert!(empty.is_empty());
}
