use vstd::prelude::*;
use crate::id::LevelId;

verus! {

/// Why a lock was not taken, or a join not admitted.
#[derive(Clone, Copy, PartialEq, Eq, Structural, Debug)]
pub enum LockError {
    /// The level asked for is not below the level that is held (for a join: the
    /// level held is neither the base level nor above it). Nothing was locked and
    /// nothing waited for.
    OrderViolation { attempted: LevelId, held: LevelId },
    /// An earlier holder ended abnormally while it held the lock. What the lock
    /// protects may be half-changed; it is not handed out.
    Poisoned,
    /// The lock is held elsewhere right now. Only a try reports this.
    WouldBlock,
}

/// The result of a call that was refused because the order does not allow it.
pub open spec fn refused<T>(attempted: LevelId, held: LevelId) -> Result<T, LockError> {
    Err(LockError::OrderViolation { attempted, held })
}

} // verus!
