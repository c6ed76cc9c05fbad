use vstd::prelude::*;
use crate::error::{refused, LockError};
use crate::handle::Handle;
use crate::id::LevelId;
use crate::order::Order;

verus! {

/// `handle` is what a thread that starts at `base` under `order` begins with: it
/// stands at `base`, goes by `order`, and holds nothing above.
pub open spec fn fresh(handle: Handle, order: Order, base: LevelId) -> bool {
    &&& handle.level() == base
    &&& handle.order() == order
    &&& handle.path() == seq![base]
    &&& handle.wf()
}

/// `body` was run once, with the handle of a thread that starts at `base` under
/// `order`, and returned `t`.
pub open spec fn started<T, F: FnOnce(&mut Handle) -> T>(
    body: F,
    order: Order,
    base: LevelId,
    t: T,
) -> bool {
    exists|handle: &mut Handle|
        fresh(*handle, order, base) && #[trigger] body.ensures((handle,), t)
}

/// Runs the body of a thread that starts at `base`: `body` gets a fresh handle at
/// that level, and the handle is gone when it returns.
///
/// This is the whole of what a newly started thread runs. Called on a thread that
/// holds locks it would hand that thread a second chain; the caller answers for
/// starting the thread, and for giving it the order of the thread that starts it.
pub fn enter<F, T>(order: &Order, base: LevelId, body: F) -> (t: T) where
    F: FnOnce(&mut Handle) -> T,

    requires
        forall|handle: &mut Handle| fresh(*handle, *order, base) ==> body.requires((handle,)),
    ensures
        started(body, *order, base, t),
{
    let mut handle = Handle::start(order, base);
    let t = body(&mut handle);
    assert(started(body, *order, base, t));
    t
}

/// A thread's join object behind the order: it is given up only to a handle that
/// stands at the base level the thread was started at, or above it.
///
/// A thread may wait for levels up to its base. A joiner that holds a level below
/// the base could hold what the thread waits for while it waits for the thread;
/// such a joiner is turned away.
#[verifier::reject_recursive_types(J)]
pub struct LockedJoinHandle<J> {
    base: LevelId,
    join_handle: J,
}

impl<J> LockedJoinHandle<J> {
    /// The level the thread was started at.
    pub closed spec fn base(&self) -> LevelId {
        self.base
    }

    /// The join object that is guarded.
    pub closed spec fn inner(&self) -> J {
        self.join_handle
    }

    /// Guards `join_handle`, the join object of a thread started at `base`.
    pub fn new(base: LevelId, join_handle: J) -> (guarded: LockedJoinHandle<J>)
        ensures
            guarded.base() == base,
            guarded.inner() == join_handle,
    {
        LockedJoinHandle { base, join_handle }
    }

    /// Gives up the join object to `handle` if it stands at the base level or above
    /// it by its order; otherwise returns the violation, with the base level as the
    /// one attempted. The caller then waits on the join object; this call itself
    /// does not wait.
    pub fn join(self, handle: &mut Handle) -> (r: Result<J, LockError>)
        ensures
            *final(handle) == *old(handle),
            old(handle).order().admits(self.base(), old(handle).level()) ==> r == Ok::<J, LockError>(
                self.inner(),
            ),
            !old(handle).order().admits(self.base(), old(handle).level()) ==> r == refused::<J>(
                self.base(),
                old(handle).level(),
            ),
    {
        if handle.rules().is_admitted(self.base, handle.held()) {
            Ok(self.join_handle)
        } else {
            Err(LockError::OrderViolation { attempted: self.base, held: handle.held() })
        }
    }
}

} // verus!
