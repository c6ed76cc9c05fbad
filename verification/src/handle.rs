use vstd::prelude::*;
use std::sync::MutexGuard;
use crate::cell::guard_data;
use crate::error::{refused, LockError};
use crate::id::LevelId;
use crate::level::{LockLevel, LockLevelBelow, MainLevel};
use crate::order::Order;

verus! {

/// The proof that the running thread holds a level, and so may take any level
/// declared below it.
///
/// When the program runs, a handle holds the identity of that level and a
/// reference to the order it goes by, nothing else. It cannot be copied or sent to
/// another thread, and the handle for a level taken exists only inside the
/// callback that works under that level. While the callback runs, the handle it
/// came from is borrowed and cannot be used: the levels a thread holds always form
/// one chain, each below the one before, all judged by one order. In proofs every
/// handle carries that chain as its path, and keeps it a chain of its order.
pub struct Handle<'a> {
    held: LevelId,
    order: &'a Order,
    path: Ghost<Seq<LevelId>>,
    thread_bound: core::marker::PhantomData<std::rc::Rc<()>>,
}

/// `cb` was run once, with `child` as its handle and with the data of a locked
/// cell, and returned `t`.
spec fn worked<D, T, F: FnOnce(&mut Handle, &mut D) -> T>(
    cb: F,
    child: Handle,
    t: T,
) -> bool {
    exists|handle: &mut Handle, data: &mut D|
        *handle == child && #[trigger] cb.ensures((handle, data), t)
}

impl<'a> Handle<'a> {
    /// The level this handle stands for.
    pub closed spec fn level(&self) -> LevelId {
        self.held
    }

    /// The order this handle goes by.
    pub closed spec fn order(&self) -> Order {
        *self.order
    }

    /// The levels the thread holds, outermost first; the last is the level of this
    /// handle.
    pub closed spec fn path(&self) -> Seq<LevelId> {
        self.path@
    }

    /// What every handle keeps: its order is well formed, and its path ends at its
    /// level and is a chain of its order.
    #[verifier::type_invariant]
    pub open spec fn wf(&self) -> bool {
        &&& self.order().wf()
        &&& self.path().len() >= 1
        &&& self.path().last() == self.level()
        &&& self.order().chain(self.path())
    }

    /// This handle is what taking `level` under `parent` gives: it stands at
    /// `level`, goes by the same order, and its path is the parent's with `level`
    /// added.
    pub open spec fn follows(&self, parent: Handle, level: LevelId) -> bool {
        &&& self.level() == level
        &&& self.order() == parent.order()
        &&& self.path() == parent.path().push(level)
        &&& self.wf()
    }

    /// The handle for the main level, from which every other level can be taken.
    ///
    /// A program makes it once, at its start, on the thread that will use it. A
    /// second one would let a thread that holds locks start again from the top;
    /// nothing here can see that, so the caller answers for it.
    pub fn new(main: &'a MainLevel) -> (handle: Handle<'a>)
        ensures
            handle.level() == LevelId::main_spec(),
            handle.order() == main.order_spec(),
            handle.path() == seq![LevelId::main_spec()],
            handle.wf(),
    {
        Handle::start(main.order(), LevelId::main())
    }

    /// A handle at `level` with nothing held above it, for the callers in this
    /// crate that open a scope for it.
    pub(crate) fn start(order: &'a Order, level: LevelId) -> (handle: Handle<'a>)
        ensures
            handle.level() == level,
            handle.order() == *order,
            handle.path() == seq![level],
            handle.wf(),
    {
        proof {
            use_type_invariant(order);
        }
        let path: Ghost<Seq<LevelId>> = Ghost(Seq::empty().push(level));
        Handle { held: level, order, path, thread_bound: core::marker::PhantomData }
    }

    /// The handle for `level` taken under this one.
    fn child(&self, level: LevelId) -> (handle: Handle<'a>)
        requires
            self.order().below(level, self.level()),
        ensures
            handle.follows(*self, level),
    {
        proof {
            use_type_invariant(self);
        }
        let path: Ghost<Seq<LevelId>> = Ghost(self.path@.push(level));
        proof {
            assert forall|i: int| 0 <= i < path@.len() - 1 implies #[trigger] self.order().link(
                path@,
                i,
            ) by {
                if i < self.path@.len() - 1 {
                    assert(self.order().link(self.path@, i));
                }
            }
        }
        Handle { held: level, order: self.order, path, thread_bound: core::marker::PhantomData }
    }

    /// The level this handle stands for.
    pub fn held(&self) -> (id: LevelId)
        ensures
            id == self.level(),
    {
        self.held
    }

    /// The order this handle goes by.
    pub fn rules(&self) -> (order: &Order)
        ensures
            *order == self.order(),
    {
        self.order
    }

    /// Whether the order lets this handle take `level`: `Ok`, or the violation with
    /// both levels named. This is asked before a cell is touched.
    pub fn permit(&self, level: LevelId) -> (r: Result<(), LockError>)
        ensures
            self.order().below(level, self.level()) ==> r == Ok::<(), LockError>(()),
            !self.order().below(level, self.level()) ==> r == refused::<()>(level, self.level()),
    {
        if level.below(self) {
            Ok(())
        } else {
            Err(LockError::OrderViolation { attempted: level, held: self.held })
        }
    }

    /// The second half of an acquisition: runs `cb` under `child` with the data of
    /// the cell that was locked, or passes the cell's error on.
    fn work<D, T, F>(
        child: Handle<'_>,
        locked: Result<MutexGuard<'_, D>, LockError>,
        cb: F,
    ) -> (r: Result<T, LockError>) where F: FnOnce(&mut Handle, &mut D) -> T
        requires
            forall|handle: &mut Handle, data: &mut D|
                *handle == child ==> cb.requires((handle, data)),
        ensures
            match locked {
                Ok(_) => (r matches Ok(t) && worked(cb, child, t)),
                Err(e) => r == Err::<T, LockError>(e),
            },
    {
        match locked {
            Ok(mut guard) => {
                let mut under = child;
                let data = guard_data(&mut guard);
                let t = cb(&mut under, data);
                assert(worked(cb, child, t));
                Ok(t)
            },
            Err(e) => Err(e),
        }
    }
}

/// A level's identity against a handle: the handle's order decides.
impl<'a> LockLevelBelow<Handle<'a>> for LevelId {
    open spec fn below_spec(&self, higher: &Handle<'a>) -> bool {
        higher.order().below(*self, higher.level())
    }

    fn below(&self, higher: &Handle<'a>) -> (r: bool) {
        higher.order.is_below(*self, higher.held)
    }
}

/// What a handle can do with a level: take it, work under it, and release it.
pub trait Locks<Lock: LockLevel>: Sized {
    /// The level that is held.
    spec fn held_spec(&self) -> LevelId;

    /// The order that decides.
    spec fn order_spec(&self) -> Order;

    /// Whether `child` is what taking `level` under this handle gives.
    spec fn leads_to(&self, child: Handle, level: LevelId) -> bool;

    /// Works under `other`, given what its cell answered to the caller's lock.
    ///
    /// `other` must be below the level held, by the main level's standing or by a
    /// declaration of its own; if it is not, the violation is returned with both
    /// levels named, and a guard that came with the call is dropped, which
    /// releases the cell. Otherwise, if the cell was locked, `cb` runs with a
    /// handle at that level and the protected data, and the cell is released when
    /// `cb` returns; the result is what `cb` returned. If the cell reported an
    /// error, `cb` is not run and the error is passed on: a poisoned cell is never
    /// worked on.
    fn with<T, F>(
        &mut self,
        other: &Lock,
        locked: Result<MutexGuard<'_, Lock::Data>, LockError>,
        cb: F,
    ) -> (r: Result<T, LockError>) where F: FnOnce(&mut Handle, &mut Lock::Data) -> T
        requires
            forall|handle: &mut Handle, data: &mut Lock::Data|
                old(self).leads_to(*handle, other.id_spec()) ==> cb.requires((handle, data)),
        ensures
            *final(self) == *old(self),
            !old(self).order_spec().below(other.id_spec(), old(self).held_spec()) ==> r
                == refused::<T>(other.id_spec(), old(self).held_spec()),
            old(self).order_spec().below(other.id_spec(), old(self).held_spec()) ==> match locked {
                Ok(_) => (r matches Ok(t) && exists|handle: &mut Handle, data: &mut Lock::Data|
                    old(self).leads_to(*handle, other.id_spec()) && #[trigger] cb.ensures(
                        (handle, data),
                        t,
                    )),
                Err(e) => r == Err::<T, LockError>(e),
            },
    ;

    /// Takes `other` if its cell is free, and runs `cb` under it; never waits.
    ///
    /// The order is asked first: if `other` is not below the level held, nothing is
    /// locked and the violation is returned. Otherwise the cell of `other` is
    /// tried. If it was free, `cb` runs with a handle at that level and the
    /// protected data, and the cell is released when `cb` returns. If it is held,
    /// the result is `WouldBlock`; if it is poisoned, `Poisoned`; `cb` did not run.
    fn try_with<T, F>(&mut self, other: &Lock, cb: F) -> (r: Result<T, LockError>) where
        F: FnOnce(&mut Handle, &mut Lock::Data) -> T,

        requires
            forall|handle: &mut Handle, data: &mut Lock::Data|
                old(self).leads_to(*handle, other.id_spec()) ==> cb.requires((handle, data)),
        ensures
            *final(self) == *old(self),
            !old(self).order_spec().below(other.id_spec(), old(self).held_spec()) ==> r
                == refused::<T>(other.id_spec(), old(self).held_spec()),
            old(self).order_spec().below(other.id_spec(), old(self).held_spec()) ==> match r {
                Ok(t) => exists|handle: &mut Handle, data: &mut Lock::Data|
                    old(self).leads_to(*handle, other.id_spec()) && #[trigger] cb.ensures(
                        (handle, data),
                        t,
                    ),
                Err(e) => e == LockError::Poisoned || e == LockError::WouldBlock,
            },
    ;
}

impl<'a, Lock: LockLevel> Locks<Lock> for Handle<'a> {
    open spec fn held_spec(&self) -> LevelId {
        self.level()
    }

    open spec fn order_spec(&self) -> Order {
        self.order()
    }

    open spec fn leads_to(&self, child: Handle, level: LevelId) -> bool {
        child.follows(*self, level)
    }

    fn with<T, F>(
        &mut self,
        other: &Lock,
        locked: Result<MutexGuard<'_, Lock::Data>, LockError>,
        cb: F,
    ) -> (r: Result<T, LockError>) where F: FnOnce(&mut Handle, &mut Lock::Data) -> T {
        let level = other.id();
        if !level.below(&*self) {
            return Err(LockError::OrderViolation { attempted: level, held: self.held });
        }
        let child = self.child(level);
        Handle::work(child, locked, cb)
    }

    fn try_with<T, F>(&mut self, other: &Lock, cb: F) -> (r: Result<T, LockError>) where
        F: FnOnce(&mut Handle, &mut Lock::Data) -> T,
    {
        let level = other.id();
        if !level.below(&*self) {
            return Err(LockError::OrderViolation { attempted: level, held: self.held });
        }
        let child = self.child(level);
        let locked = other.try_lock();
        Handle::work(child, locked, cb)
    }
}

} // verus!
