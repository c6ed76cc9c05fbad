pub use crate::error::LockError;
pub use crate::handle::{Handle, Locks};
pub use crate::id::LevelId;
pub use crate::level::{Level, LockLevel, LockLevelBelow, MainLevel};
pub use crate::order::{Order, OrderError};
pub use crate::threads::{enter, LockedJoinHandle};
