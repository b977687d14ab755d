//! Deterministic time-slot planning: which slots of an epoch carry data and
//! which carry cover, and when each is sent. Nothing here sleeps or sends.
use vstd::prelude::*;
use std::time::Duration;
use crate::time::{duration_nanos, duration_saturating_mul, max_duration_nanos};

verus! {

#[derive(Debug, Clone, Copy, PartialEq, Eq, Structural)]
pub enum TdmCellKind {
    Data,
    Cover,
}

/// Upper bound for one planning call; larger epochs are planned in chunks.
pub const TDM_MAX_EPOCH_SLOTS: u64 = 1_000_000;

#[derive(Debug, Clone, Copy, PartialEq, Eq, Structural)]
pub enum TdmPlanError {
    TooManySlots { got: u64, max: u64 },
}

#[derive(Debug, Clone, Copy, PartialEq, Eq)]
pub struct TdmSlot {
    pub slot_index: u64,
    pub send_after: Duration,
    pub kind: TdmCellKind,
}

#[derive(Debug, Clone, Copy, PartialEq, Eq)]
pub struct TdmScheduler {
    slot_width: Duration,
    cover_when_idle: bool,
}

/// `width * index` nanoseconds, saturated at `Duration::MAX`.
pub open spec fn slot_offset_nanos(width: nat, index: int) -> nat {
    if width * index <= max_duration_nanos() {
        (width * index) as nat
    } else {
        max_duration_nanos()
    }
}

/// The number of slots an epoch plan holds: every slot when idle slots carry
/// cover, otherwise only the data slots.
pub open spec fn planned_slot_count(epoch_slots: u64, data_cells: u64, cover: bool) -> int {
    if cover || data_cells >= epoch_slots {
        epoch_slots as int
    } else {
        data_cells as int
    }
}

pub open spec fn slot_kind(index: int, data_cells: u64) -> TdmCellKind {
    if index < data_cells {
        TdmCellKind::Data
    } else {
        TdmCellKind::Cover
    }
}

impl TdmScheduler {
    /// The slot width in nanoseconds.
    pub closed spec fn width_nanos(&self) -> nat {
        duration_nanos(self.slot_width)
    }

    /// Whether idle slots are filled with cover.
    pub closed spec fn covers_idle(&self) -> bool {
        self.cover_when_idle
    }

    pub fn new(slot_width: Duration, cover_when_idle: bool) -> (s: Self)
        ensures
            s.width_nanos() == duration_nanos(slot_width),
            s.covers_idle() == cover_when_idle,
    {
        Self { slot_width, cover_when_idle }
    }

    /// Plans one epoch: slot `i` carries data for `i < data_cells`, cover
    /// after that when enabled, and is sent `i` slot widths after the start.
    pub fn plan_epoch(&self, epoch_slots: u64, data_cells: u64) -> (r: Result<
        Vec<TdmSlot>,
        TdmPlanError,
    >)
        ensures
            match r {
                Err(e) => epoch_slots > TDM_MAX_EPOCH_SLOTS && e == (TdmPlanError::TooManySlots {
                    got: epoch_slots,
                    max: TDM_MAX_EPOCH_SLOTS,
                }),
                Ok(plan) => {
                    &&& epoch_slots <= TDM_MAX_EPOCH_SLOTS
                    &&& plan.len() == planned_slot_count(
                        epoch_slots,
                        data_cells,
                        self.covers_idle(),
                    )
                    &&& forall|i: int|
                        #![trigger plan@[i]]
                        0 <= i < plan.len() ==> {
                            &&& plan@[i].slot_index == i
                            &&& plan@[i].kind == slot_kind(i, data_cells)
                            &&& duration_nanos(plan@[i].send_after) == slot_offset_nanos(
                                self.width_nanos(),
                                i,
                            )
                        }
                },
            },
    {
        if epoch_slots > TDM_MAX_EPOCH_SLOTS {
            return Err(TdmPlanError::TooManySlots { got: epoch_slots, max: TDM_MAX_EPOCH_SLOTS });
        }
        let mut slots: Vec<TdmSlot> = Vec::new();
        let mut slot_index: u64 = 0;
        while slot_index < epoch_slots
            invariant_except_break
                slot_index <= epoch_slots,
                slots.len() == slot_index,
                !self.cover_when_idle ==> slot_index <= data_cells,
            invariant
                epoch_slots <= TDM_MAX_EPOCH_SLOTS,
                slots.len() <= slot_index,
                slot_index <= epoch_slots,
                forall|i: int|
                    #![trigger slots@[i]]
                    0 <= i < slots.len() ==> {
                        &&& slots@[i].slot_index == i
                        &&& slots@[i].kind == slot_kind(i, data_cells)
                        &&& duration_nanos(slots@[i].send_after) == slot_offset_nanos(
                            self.width_nanos(),
                            i,
                        )
                    },
            ensures
                slots.len() == planned_slot_count(epoch_slots, data_cells, self.cover_when_idle),
            decreases epoch_slots - slot_index,
        {
            let kind = if slot_index < data_cells {
                TdmCellKind::Data
            } else if self.cover_when_idle {
                TdmCellKind::Cover
            } else {
                break ;
            };
            let factor: u32 = slot_index as u32;
            assert(factor == slot_index);
            let send_after = duration_saturating_mul(self.slot_width, factor);
            let ghost before = slots@;
            slots.push(TdmSlot { slot_index, send_after, kind });
            assert(forall|i: int| 0 <= i < before.len() ==> slots@[i] == before[i]);
            slot_index = slot_index + 1;
        }
        Ok(slots)
    }
}

} // verus!
