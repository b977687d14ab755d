//! Descriptor ownership lifecycle: Free -> RxOwned -> TxOwned -> Free, kept in
//! one atomic byte and advanced only by compare-and-exchange.
use vstd::prelude::*;
use std::sync::atomic::{AtomicU8, Ordering};

verus! {

#[derive(Debug, Clone, Copy, PartialEq, Eq, Structural)]
pub enum DescriptorState {
    Free,
    RxOwned,
    TxOwned,
}

#[derive(Debug, Clone, Copy, PartialEq, Eq, Structural)]
pub enum DescriptorTransitionError {
    WrongState { expected: DescriptorState, actual: DescriptorState },
}

/// The byte that stands for each state.
pub open spec fn state_code(s: DescriptorState) -> u8 {
    match s {
        DescriptorState::Free => 0,
        DescriptorState::RxOwned => 1,
        DescriptorState::TxOwned => 2,
    }
}

/// The state a byte stands for; unknown bytes read as free.
pub open spec fn state_of_code(v: u8) -> DescriptorState {
    if v == 1 {
        DescriptorState::RxOwned
    } else if v == 2 {
        DescriptorState::TxOwned
    } else {
        DescriptorState::Free
    }
}

impl DescriptorState {
    pub fn code(self) -> (v: u8)
        ensures
            v == state_code(self),
    {
        match self {
            DescriptorState::Free => 0,
            DescriptorState::RxOwned => 1,
            DescriptorState::TxOwned => 2,
        }
    }
}

fn decode(v: u8) -> (s: DescriptorState)
    ensures
        s == state_of_code(v),
{
    if v == 1 {
        DescriptorState::RxOwned
    } else if v == 2 {
        DescriptorState::TxOwned
    } else {
        DescriptorState::Free
    }
}

/// Decoding a state's byte gives the state back.
pub proof fn lemma_state_code_round_trip(s: DescriptorState)
    ensures
        state_of_code(state_code(s)) == s,
{
}

/// Calls `AtomicU8::compare_exchange` with acquire-release ordering on
/// success and acquire on failure. As std documents, it returns `Ok` with the
/// previous value when that value was `current` (and then stores `new`), and
/// `Err` with the previous value otherwise. Which of the two happens depends
/// on the other threads and is not stated.
#[verifier::external_body]
fn atomic_compare_exchange(a: &AtomicU8, current: u8, new: u8) -> (r: Result<u8, u8>)
    ensures
        match r {
            Ok(v) => v == current,
            Err(v) => v != current,
        },
{
    a.compare_exchange(current, new, Ordering::AcqRel, Ordering::Acquire)
}

/// A descriptor's ownership state, shared between threads.
pub struct DescriptorLifecycle {
    state: AtomicU8,
}

impl DescriptorLifecycle {
    /// A free descriptor.
    pub fn new() -> (d: Self) {
        let free = DescriptorState::Free.code();
        Self { state: AtomicU8::new(free) }
    }

    /// The current state. It is read from shared memory, so nothing is
    /// stated of which state it is.
    pub fn state(&self) -> DescriptorState {
        decode(self.state.load(Ordering::Acquire))
    }

    /// Free -> RxOwned.
    pub fn claim_for_rx(&self) -> (r: Result<(), DescriptorTransitionError>)
        ensures
            transition_reported(r, DescriptorState::Free),
    {
        self.transition(DescriptorState::Free, DescriptorState::RxOwned)
    }

    /// RxOwned -> TxOwned.
    pub fn submit_for_tx(&self) -> (r: Result<(), DescriptorTransitionError>)
        ensures
            transition_reported(r, DescriptorState::RxOwned),
    {
        self.transition(DescriptorState::RxOwned, DescriptorState::TxOwned)
    }

    /// TxOwned -> Free.
    pub fn complete_tx(&self) -> (r: Result<(), DescriptorTransitionError>)
        ensures
            transition_reported(r, DescriptorState::TxOwned),
    {
        self.transition(DescriptorState::TxOwned, DescriptorState::Free)
    }

    fn transition(&self, expected: DescriptorState, next: DescriptorState) -> (r: Result<
        (),
        DescriptorTransitionError,
    >)
        ensures
            transition_reported(r, expected),
    {
        let want = expected.code();
        let to = next.code();
        let observed = atomic_compare_exchange(&self.state, want, to);
        transition_outcome(expected, observed)
    }
}

/// What a transition from `expected` reports for the outcome of its
/// compare-and-exchange: success when the byte was swapped, else the byte
/// found, decoded, beside the expected state.
pub fn transition_outcome(expected: DescriptorState, observed: Result<u8, u8>) -> (r: Result<
    (),
    DescriptorTransitionError,
>)
    ensures
        r == match observed {
            Ok(_) => Ok(()),
            Err(v) => Err(
                DescriptorTransitionError::WrongState { expected, actual: state_of_code(v) },
            ),
        },
{
    match observed {
        Ok(_) => Ok(()),
        Err(actual) => Err(
            DescriptorTransitionError::WrongState { expected, actual: decode(actual) },
        ),
    }
}

/// A transition either succeeds, or reports the expected state and a
/// different byte found in its place (decoded; a byte that is no state's
/// code reads as free).
pub open spec fn transition_reported(
    r: Result<(), DescriptorTransitionError>,
    expected: DescriptorState,
) -> bool {
    match r {
        Ok(()) => true,
        Err(DescriptorTransitionError::WrongState { expected: e, actual }) => e == expected
            && exists|v: u8| v != state_code(expected) && actual == state_of_code(v),
    }
}

impl Default for DescriptorLifecycle {
    fn default() -> (d: Self) {
        Self::new()
    }
}

} // verus!
