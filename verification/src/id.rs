use vstd::prelude::*;

verus! {

/// The identity of a lock level.
///
/// Two levels are the same level exactly when their identities are equal; what a
/// level protects plays no part in it. Index 0 is the main level, the top of every
/// hierarchy; an [`Order`](crate::order::Order) hands out the others, counting
/// from 1.
#[derive(Clone, Copy, PartialEq, Eq, Structural, Debug, Hash)]
pub struct LevelId {
    pub index: usize,
}

impl LevelId {
    /// The identity of the main level.
    pub open spec fn main_spec() -> LevelId {
        LevelId { index: 0 }
    }

    /// Whether this is the main level.
    pub open spec fn is_main_spec(&self) -> bool {
        self.index == 0
    }

    /// The identity of the main level.
    pub fn main() -> (id: LevelId)
        ensures
            id == Self::main_spec(),
    {
        LevelId { index: 0 }
    }

    /// Whether this is the main level.
    pub fn is_main(&self) -> (r: bool)
        ensures
            r == self.is_main_spec(),
            r == (*self == Self::main_spec()),
    {
        self.index == 0
    }
}

} // verus!
