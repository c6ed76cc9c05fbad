use vstd::prelude::*;
use std::sync::Mutex;
use std::sync::MutexGuard;
use std::sync::TryLockError;
use crate::error::LockError;

verus! {

/// `std::sync::Mutex`, the protected cell of a level. Nothing is known of what it
/// holds: other threads may change it between any two looks. Nothing here waits
/// for one: std leaves open what a wait does when the waiting thread holds the
/// cell itself, so waiting is left to the caller of the library.
#[verifier::external_type_specification]
#[verifier::external_body]
#[verifier::reject_recursive_types(T)]
pub struct ExMutex<T: ?Sized>(Mutex<T>);

/// `std::sync::MutexGuard`, the exclusive accessor to a locked cell. The cell is
/// released when the guard goes out of scope.
#[verifier::external_type_specification]
#[verifier::external_body]
#[verifier::reject_recursive_types(T)]
pub struct ExMutexGuard<'a, T: ?Sized + 'a>(MutexGuard<'a, T>);

/// `Mutex::new`: a cell, unlocked, that holds `data`. Nothing is claimed of it.
#[verifier::external_body]
pub(crate) fn new_cell<D>(data: D) -> (cell: Mutex<D>) {
    Mutex::new(data)
}

/// `Mutex::try_lock`: takes the cell if it is free, without waiting. std documents
/// no panic and no wait for it, whoever holds the cell. std's two failures are
/// passed on one for one; the guard inside a poison error is dropped, which leaves
/// the cell unlocked. Claimed: an error, if there is one, is `Poisoned` or
/// `WouldBlock`.
#[verifier::external_body]
pub(crate) fn try_lock_cell<'a, D>(cell: &'a Mutex<D>) -> (r: Result<
    MutexGuard<'a, D>,
    LockError,
>)
    ensures
        r matches Err(e) ==> e == LockError::Poisoned || e == LockError::WouldBlock,
{
    match cell.try_lock() {
        Ok(guard) => Ok(guard),
        Err(TryLockError::Poisoned(_)) => Err(LockError::Poisoned),
        Err(TryLockError::WouldBlock) => Err(LockError::WouldBlock),
    }
}

/// `DerefMut::deref_mut` of a guard: the protected data, for as long as the guard
/// is borrowed. Nothing is claimed of the data.
#[verifier::external_body]
pub(crate) fn guard_data<'a, 'b, D>(guard: &'b mut MutexGuard<'a, D>) -> (data: &'b mut D) {
    &mut **guard
}

} // verus!
