//! A clock that reports microseconds, for code that must run without std's
//! clock; `ManualClock` is a settable one for deterministic use.
use vstd::prelude::*;

verus! {

/// A source of the current time in microseconds.
pub trait Clock {
    fn now_micros(&self) -> u64;
}

/// A clock that reports whatever it was set to.
pub struct ManualClock {
    pub micros: u64,
}

impl Clock for ManualClock {
    fn now_micros(&self) -> (r: u64)
        ensures
            r == self.micros,
    {
        self.micros
    }
}

} // verus!
