use std::cell::Cell;
use std::collections::TryReserveError;

use mdream::budget::{
    reserve_accounted, reserve_accounted_with, reserve_vec_accounted, reserve_vec_accounted_with, ReserveStrategy,
};
use mdream::StreamingError;

/// Records whether it was asked to allocate, and never allocates.
struct Refuse<'a> {
    called: &'a Cell<bool>,
}

impl<T> ReserveStrategy<T> for Refuse<'_> {
    fn reserve(&self, _value: &mut Vec<T>, _additional: usize) -> Result<(), TryReserveError> {
        self.called.set(true);
        unreachable!()
    }
}

/// Reserves what is asked and then much more, as a generous allocator may.
struct Overshoot;

impl<T> ReserveStrategy<T> for Overshoot {
    fn reserve(&self, value: &mut Vec<T>, additional: usize) -> Result<(), TryReserveError> {
        value.try_reserve_exact(additional)?;
        value.reserve(64);
        Ok(())
    }
}

/// Asks the allocator for an impossible amount.
struct Impossible;

impl<T> ReserveStrategy<T> for Impossible {
    fn reserve(&self, value: &mut Vec<T>, _additional: usize) -> Result<(), TryReserveError> {
        value.try_reserve_exact(usize::MAX)
    }
}

#[test]
fn requested_capacity_is_charged_before_allocating() {
    let called = Cell::new(false);
    let mut value: Vec<u8> = Vec::new();
    let error = reserve_accounted_with(&mut value, 1, 0, 0, &Refuse { called: &called }).unwrap_err();

    assert_eq!(error, StreamingError::BufferLimitExceeded);
    assert!(!called.get());
    assert_eq!(value.capacity(), 0);
}

#[test]
fn allocator_over_capacity_is_reconciled_and_dropped() {
    let mut value: Vec<u8> = Vec::new();
    let error = reserve_accounted_with(&mut value, 1, 0, 8, &Overshoot).unwrap_err();

    assert_eq!(error, StreamingError::BufferLimitExceeded);
    assert_eq!(value.capacity(), 0);
}

#[test]
fn allocation_failure_and_capacity_overflow_are_distinct() {
    let mut value: Vec<u8> = Vec::new();
    let allocation_error = reserve_accounted_with(&mut value, 1, 0, usize::MAX, &Impossible).unwrap_err();
    assert_eq!(allocation_error, StreamingError::AllocationFailed);

    let overflow = reserve_accounted(&mut value, isize::MAX as usize + 1, 0, usize::MAX).unwrap_err();
    assert_eq!(overflow, StreamingError::CapacityOverflow);
}

#[test]
fn vector_capacity_is_charged_and_reconciled() {
    let called = Cell::new(false);
    let mut value = Vec::<usize>::new();
    let error = reserve_vec_accounted_with(&mut value, 1, 0, 0, &Refuse { called: &called }).unwrap_err();
    assert_eq!(error, StreamingError::BufferLimitExceeded);
    assert!(!called.get());

    let mut value = Vec::<u8>::new();
    let error = reserve_vec_accounted_with(&mut value, 1, 0, 8, &Overshoot).unwrap_err();
    assert_eq!(error, StreamingError::BufferLimitExceeded);
    assert_eq!(value.capacity(), 0);

    let mut value = Vec::<usize>::new();
    let overflow = reserve_vec_accounted(&mut value, isize::MAX as usize, 0, usize::MAX).unwrap_err();
    assert_eq!(overflow, StreamingError::CapacityOverflow);
}

#[test]
fn a_refused_allocation_is_reported_as_allocation_failed() {
    assert_eq!(
        mdream::budget::settle_after_reserve(false, 0, 0, 0, usize::MAX),
        Err(mdream::types::StreamingError::AllocationFailed)
    );
    assert_eq!(mdream::budget::settle_after_reserve(true, 4, 4, 8, 8), Ok(()));
    assert_eq!(
        mdream::budget::settle_after_reserve(true, 4, 4, 9, 8),
        Err(mdream::types::StreamingError::BufferLimitExceeded)
    );
}
