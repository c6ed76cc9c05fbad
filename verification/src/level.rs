use vstd::prelude::*;
use std::sync::Mutex;
use std::sync::MutexGuard;
use crate::cell::{new_cell, try_lock_cell};
use crate::error::LockError;
use crate::id::LevelId;
use crate::order::Order;

verus! {

/// A lock level: an identity in the declared order, and one protected cell.
pub trait LockLevel {
    /// What the cell protects.
    type Data;

    /// The identity of this level.
    spec fn id_spec(&self) -> LevelId;

    /// The identity of this level.
    fn id(&self) -> (id: LevelId)
        ensures
            id == self.id_spec(),
    ;

    /// Takes the cell if it is free, without waiting. Fails when the cell is held,
    /// by this thread or another, or poisoned.
    ///
    /// This reaches the cell directly. It is what a handle uses; a caller that
    /// uses it itself holds the cell outside the order.
    fn try_lock(&self) -> (r: Result<MutexGuard<'_, Self::Data>, LockError>)
        ensures
            r matches Err(e) ==> e == LockError::Poisoned || e == LockError::WouldBlock,
    ;
}

/// Decides whether a level may be taken by a thread that holds `HigherLock`.
pub trait LockLevelBelow<HigherLock> {
    /// Whether this level is below `higher`.
    spec fn below_spec(&self, higher: &HigherLock) -> bool;

    /// Whether this level is below `higher`.
    fn below(&self, higher: &HigherLock) -> (r: bool)
        ensures
            r == self.below_spec(higher),
    ;
}

/// A level of the order with the data it protects. Several cells may stand at one
/// level; a thread never holds two of them at once, since no level is below
/// itself.
#[verifier::reject_recursive_types(D)]
pub struct Level<D> {
    id: LevelId,
    cell: Mutex<D>,
}

impl<D> Level<D> {
    /// A cell at the level `id` that protects `data`.
    pub fn new(id: LevelId, data: D) -> (level: Level<D>)
        ensures
            level.id_spec() == id,
    {
        Level { id, cell: new_cell(data) }
    }

    /// The cell itself, for a caller that wants to wait for it.
    ///
    /// Waiting is not done in this library. A thread that waits for a cell it
    /// holds may never return, and that a thread holds none but the cells of its
    /// chain rests on how the program starts its threads. Whoever waits asks
    /// [`Handle::permit`](crate::handle::Handle::permit) first and hands the answer
    /// of the cell to [`Locks::with`](crate::handle::Locks::with).
    pub fn cell(&self) -> (cell: &Mutex<D>) {
        &self.cell
    }
}

impl<D> LockLevel for Level<D> {
    type Data = D;

    closed spec fn id_spec(&self) -> LevelId {
        self.id
    }

    fn id(&self) -> (id: LevelId) {
        self.id
    }

    fn try_lock(&self) -> (r: Result<MutexGuard<'_, D>, LockError>) {
        try_lock_cell(&self.cell)
    }
}

/// The main level: the top of the hierarchy. It protects nothing, every defined
/// level is below it, and it is below none. It keeps the declared order, closed to
/// further declarations, and the first handle of a program is made from it.
pub struct MainLevel {
    order: Order,
}

impl MainLevel {
    /// The order this hierarchy goes by.
    pub closed spec fn order_spec(&self) -> Order {
        self.order
    }

    /// The main level over `order`. The order is final from here on.
    pub fn new(order: Order) -> (main: MainLevel)
        ensures
            main.order_spec() == order,
    {
        MainLevel { order }
    }

    /// The order this hierarchy goes by.
    pub fn order(&self) -> (order: &Order)
        ensures
            *order == self.order_spec(),
    {
        &self.order
    }
}

} // verus!
