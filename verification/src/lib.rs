//! Lock levels in a declared order, and handles that let a thread take locks only
//! downward through it.
//!
//! An [`Order`] defines levels and records, one by one, which level is below
//! which; it refuses any fact that would close a cycle. A [`MainLevel`] closes the
//! order and stands at its top. A [`Handle`] proves that the running thread holds
//! a level; under it a [`Level`] below can be taken, a callback run under a handle
//! for that level, and the level released again. What a thread holds is therefore
//! always a chain that goes strictly down the order, and two threads can never
//! each hold what the other takes next. [`LockedJoinHandle`] puts the joining of
//! threads under the same order.
//!
//! Nothing here waits. [`Locks::try_with`] takes a level whose cell is free.
//! A caller that waits for a cell asks [`Handle::permit`] first, waits, and hands
//! the cell's answer to [`Locks::with`]; so does a caller that waits for a thread,
//! with [`LockedJoinHandle::join`].

pub mod cell;
pub mod error;
pub mod handle;
pub mod id;
pub mod laws;
pub mod level;
pub mod order;
pub mod prelude;
pub mod relation;
pub mod threads;

pub use crate::error::LockError;
pub use crate::handle::{Handle, Locks};
pub use crate::id::LevelId;
pub use crate::level::{Level, LockLevel, LockLevelBelow, MainLevel};
pub use crate::order::{Order, OrderError};
pub use crate::threads::{enter, LockedJoinHandle};
