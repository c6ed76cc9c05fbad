use vstd::prelude::*;
use crate::id::LevelId;
use crate::relation::{
    acyclic, climbs, lemma_climbs_step, lemma_closed_holds_climbs, lemma_empty_acyclic,
    lemma_insert_keeps_acyclic, rising, step,
};

verus! {

/// Why a declaration was turned down.
#[derive(Clone, Copy, PartialEq, Eq, Structural, Debug)]
pub enum OrderError {
    /// The level named here was not defined by this order. The main level never is:
    /// every defined level is below it without a declaration.
    Undefined(LevelId),
    /// A level cannot be declared below itself.
    Reflexive,
    /// This fact was declared before.
    Duplicate,
    /// The higher level can already be reached upward to the lower one, so the fact
    /// would close a cycle.
    Cyclic,
}

/// A declared order over lock levels: the levels it has defined, and the facts
/// "this level is below that one", each declared on its own.
///
/// The facts are exactly what was declared. Nothing is derived from them; they are
/// only kept free of cycles, so that no chain of acquisitions can come back to a
/// level it already holds.
pub struct Order {
    count: usize,
    edges: Vec<(LevelId, LevelId)>,
}

impl View for Order {
    type V = Set<(LevelId, LevelId)>;

    /// The declared facts, each a pair `(lower, higher)`.
    closed spec fn view(&self) -> Set<(LevelId, LevelId)> {
        self.edges@.to_set()
    }
}

/// How many entries of `marks` are set.
spec fn trues(marks: Seq<bool>) -> nat
    decreases marks.len(),
{
    if marks.len() == 0 {
        0
    } else {
        trues(marks.drop_last()) + if marks.last() {
            1nat
        } else {
            0nat
        }
    }
}

proof fn lemma_trues_bound(marks: Seq<bool>)
    ensures
        trues(marks) <= marks.len(),
    decreases marks.len(),
{
    if marks.len() > 0 {
        lemma_trues_bound(marks.drop_last());
    }
}

proof fn lemma_trues_set(marks: Seq<bool>, k: int)
    requires
        0 <= k < marks.len(),
        !marks[k],
    ensures
        trues(marks.update(k, true)) == trues(marks) + 1,
    decreases marks.len(),
{
    let next = marks.update(k, true);
    if k == marks.len() - 1 {
        assert(next.drop_last() =~= marks.drop_last());
    } else {
        assert(next.drop_last() =~= marks.drop_last().update(k, true));
        lemma_trues_set(marks.drop_last(), k);
    }
}

/// The level with this identity has its mark set; the mark of level `n` stands at
/// place `n - 1`.
spec fn marked(marks: Seq<bool>, id: LevelId) -> bool {
    1 <= id.index <= marks.len() && marks[id.index - 1]
}

/// Every mark that is set belongs to a level that can be reached from `from`.
spec fn sound(edges: Set<(LevelId, LevelId)>, from: LevelId, marks: Seq<bool>) -> bool {
    forall|id: LevelId| #[trigger] marked(marks, id) ==> climbs(edges, from, id)
}

/// The first `upto` facts add nothing to the marks: where the lower level is `from`
/// or marked, the higher one is marked.
spec fn settled(edges: Seq<(LevelId, LevelId)>, from: LevelId, marks: Seq<bool>, upto: int) -> bool {
    forall|j: int|
        0 <= j < upto && ((#[trigger] edges[j]).0 == from || marked(marks, edges[j].0)) ==> marked(
            marks,
            edges[j].1,
        )
}

impl Order {
    /// How many levels this order has defined. They are numbered from 1.
    pub closed spec fn levels(&self) -> nat {
        self.count as nat
    }

    /// Whether `id` is one of the levels this order has defined.
    pub open spec fn defines(&self, id: LevelId) -> bool {
        1 <= id.index <= self.levels()
    }

    /// What every order keeps: facts only between levels it has defined, and no
    /// cycle among them.
    #[verifier::type_invariant]
    pub open spec fn wf(&self) -> bool {
        &&& forall|lower: LevelId, higher: LevelId| #[trigger]
            self@.contains((lower, higher)) ==> self.defines(lower) && self.defines(higher)
        &&& acyclic(self@)
    }

    /// Whether `lower` may be taken by a thread that holds `higher`: `lower` is a
    /// defined level, and `higher` is the main level or `lower` was declared below
    /// it.
    pub open spec fn below(&self, lower: LevelId, higher: LevelId) -> bool {
        self.defines(lower) && (higher.is_main_spec() || self@.contains((lower, higher)))
    }

    /// Whether a thread that holds `held` stands at `base` or above it: the two are
    /// the same level, or `base` may be taken under `held`.
    pub open spec fn admits(&self, base: LevelId, held: LevelId) -> bool {
        held == base || self.below(base, held)
    }

    /// In the sequence `held`, the level at place `i + 1` may be taken under the
    /// level at place `i`.
    pub open spec fn link(&self, held: Seq<LevelId>, i: int) -> bool {
        self.below(held[i + 1], held[i])
    }

    /// `held` can be the levels one thread holds at one moment, outermost first:
    /// each may be taken under the one before it.
    pub open spec fn chain(&self, held: Seq<LevelId>) -> bool {
        forall|i: int| 0 <= i < held.len() - 1 ==> #[trigger] self.link(held, i)
    }

    /// What becomes of a declaration of `lower` below `higher`.
    pub open spec fn verdict(&self, lower: LevelId, higher: LevelId) -> Result<(), OrderError> {
        if !self.defines(lower) {
            Err(OrderError::Undefined(lower))
        } else if !self.defines(higher) {
            Err(OrderError::Undefined(higher))
        } else if lower == higher {
            Err(OrderError::Reflexive)
        } else if self@.contains((lower, higher)) {
            Err(OrderError::Duplicate)
        } else if climbs(self@, higher, lower) {
            Err(OrderError::Cyclic)
        } else {
            Ok(())
        }
    }

    /// In a well-formed order a climb starts and ends at defined levels.
    pub proof fn lemma_climbs_defined(&self, from: LevelId, to: LevelId)
        requires
            self.wf(),
            climbs(self@, from, to),
        ensures
            self.defines(from),
            self.defines(to),
    {
        let p = choose|p: Seq<LevelId>| #[trigger]
            rising(self@, p) && p.first() == from && p.last() == to;
        assert(step(self@, p, 0));
        assert(step(self@, p, p.len() - 2));
    }

    /// An order with no level and no fact.
    pub fn new() -> (order: Order)
        ensures
            order.levels() == 0,
            order@ == Set::<(LevelId, LevelId)>::empty(),
            order.wf(),
    {
        let edges: Vec<(LevelId, LevelId)> = Vec::new();
        proof {
            lemma_empty_acyclic();
            assert(edges@.to_set() =~= Set::<(LevelId, LevelId)>::empty());
        }
        Order { count: 0, edges }
    }

    /// How many levels this order has defined.
    pub fn count(&self) -> (n: usize)
        ensures
            n == self.levels(),
    {
        self.count
    }

    /// Defines a new level, distinct from every other, with nothing declared of it.
    pub fn define_level(&mut self) -> (id: LevelId)
        requires
            old(self).levels() < usize::MAX,
        ensures
            final(self).levels() == old(self).levels() + 1,
            id.index == final(self).levels(),
            !old(self).defines(id),
            final(self).defines(id),
            final(self)@ == old(self)@,
            final(self).wf(),
    {
        proof {
            use_type_invariant(&*self);
        }
        self.count = self.count + 1;
        LevelId { index: self.count }
    }

    /// Whether `id` is one of the levels this order has defined.
    pub fn is_defined(&self, id: LevelId) -> (r: bool)
        ensures
            r == self.defines(id),
    {
        1 <= id.index && id.index <= self.count
    }

    /// Whether `lower` was declared below `higher`.
    pub fn is_declared(&self, lower: LevelId, higher: LevelId) -> (r: bool)
        ensures
            r == self@.contains((lower, higher)),
    {
        let mut i: usize = 0;
        while i < self.edges.len()
            invariant
                i <= self.edges.len(),
                forall|j: int| 0 <= j < i ==> self.edges@[j] != (lower, higher),
            decreases self.edges.len() - i,
        {
            let e = self.edges[i];
            if e.0.index == lower.index && e.1.index == higher.index {
                assert(self.edges@[i as int] == (lower, higher));
                assert(self.edges@.contains((lower, higher)));
                return true;
            }
            i = i + 1;
        }
        assert(!self.edges@.contains((lower, higher)));
        false
    }

    /// Whether `lower` may be taken by a thread that holds `higher`.
    pub fn is_below(&self, lower: LevelId, higher: LevelId) -> (r: bool)
        ensures
            r == self.below(lower, higher),
    {
        if !self.is_defined(lower) {
            false
        } else if higher.is_main() {
            true
        } else {
            self.is_declared(lower, higher)
        }
    }

    /// One pass over the facts: marks each level declared above `from` or above a
    /// marked level, and says whether a mark was added.
    fn sweep(&self, from: LevelId, marks: &mut Vec<bool>) -> (grew: bool)
        requires
            self.wf(),
            old(marks).len() == self.levels(),
            sound(self@, from, old(marks)@),
        ensures
            final(marks).len() == self.levels(),
            sound(self@, from, final(marks)@),
            grew ==> trues(final(marks)@) > trues(old(marks)@),
            !grew ==> final(marks)@ == old(marks)@ && settled(
                self.edges@,
                from,
                final(marks)@,
                self.edges@.len() as int,
            ),
    {
        let ghost before = marks@;
        let mut grew = false;
        let mut i: usize = 0;
        while i < self.edges.len()
            invariant
                i <= self.edges.len(),
                self.wf(),
                marks.len() == self.levels(),
                sound(self@, from, marks@),
                grew ==> trues(marks@) > trues(before),
                !grew ==> marks@ == before && settled(self.edges@, from, marks@, i as int),
            decreases self.edges.len() - i,
        {
            let e = self.edges[i];
            let lower = e.0;
            let higher = e.1;
            assert(self.edges@.contains(self.edges@[i as int]));
            assert(self@.contains((lower, higher)));
            let reached = lower.index == from.index || marks[lower.index - 1];
            if reached && !marks[higher.index - 1] {
                let ghost prior = marks@;
                proof {
                    if lower.index != from.index {
                        assert(marked(prior, lower));
                    }
                    lemma_climbs_step(self@, from, lower, higher);
                    lemma_trues_set(prior, higher.index - 1);
                }
                marks.set(higher.index - 1, true);
                assert forall|id: LevelId| #[trigger] marked(marks@, id) implies climbs(
                    self@,
                    from,
                    id,
                ) by {
                    if id != higher {
                        assert(marked(prior, id));
                    }
                }
                grew = true;
            }
            i = i + 1;
        }
        grew
    }

    /// The levels that can be reached upward from `from`, as marks: the mark of
    /// level `n` stands at place `n - 1`.
    fn marks_above(&self, from: LevelId) -> (marks: Vec<bool>)
        requires
            self.wf(),
        ensures
            marks.len() == self.levels(),
            forall|id: LevelId| #[trigger] marked(marks@, id) <==> climbs(self@, from, id),
    {
        let mut marks: Vec<bool> = Vec::new();
        let mut k: usize = 0;
        while k < self.count
            invariant
                k <= self.count,
                marks.len() == k,
                forall|v: int| 0 <= v < k ==> !marks@[v],
            decreases self.count - k,
        {
            marks.push(false);
            k = k + 1;
        }
        loop
            invariant
                self.wf(),
                marks.len() == self.levels(),
                sound(self@, from, marks@),
            ensures
                marks.len() == self.levels(),
                sound(self@, from, marks@),
                settled(self.edges@, from, marks@, self.edges@.len() as int),
            decreases self.levels() - trues(marks@),
        {
            proof {
                lemma_trues_bound(marks@);
            }
            let grew = self.sweep(from, &mut marks);
            proof {
                lemma_trues_bound(marks@);
            }
            if !grew {
                break ;
            }
        }
        proof {
            let closed = Set::new(|id: LevelId| marked(marks@, id));
            assert forall|u: LevelId, v: LevelId|
                #![trigger self@.contains((u, v))]
                self@.contains((u, v)) && (u == from || closed.contains(u)) implies closed.contains(
                v,
            ) by {
                let j = choose|j: int| 0 <= j < self.edges@.len() && self.edges@[j] == (u, v);
                assert(self.edges@[j].0 == u);
                assert(self.edges@[j].1 == v);
            }
            assert forall|id: LevelId| climbs(self@, from, id) implies #[trigger] marked(
                marks@,
                id,
            ) by {
                lemma_closed_holds_climbs(self@, from, closed, id);
            }
        }
        marks
    }

    /// Whether `to` can be reached from `from` by one or more declared steps upward.
    pub fn leads_up(&self, from: LevelId, to: LevelId) -> (r: bool)
        ensures
            r == climbs(self@, from, to),
    {
        proof {
            use_type_invariant(self);
            if climbs(self@, from, to) {
                self.lemma_climbs_defined(from, to);
            }
        }
        if !self.is_defined(to) {
            return false;
        }
        let marks = self.marks_above(from);
        assert(marked(marks@, to) <==> climbs(self@, from, to));
        marks[to.index - 1]
    }

    /// Declares `lower` below `higher`.
    ///
    /// The fact is recorded unless one of the two levels is not defined here, the
    /// two are the same level, the fact was declared before, or `lower` can already
    /// be reached upward from `higher`. A declaration that is turned down changes
    /// nothing.
    pub fn declare(&mut self, lower: LevelId, higher: LevelId) -> (r: Result<(), OrderError>)
        ensures
            r == old(self).verdict(lower, higher),
            final(self).levels() == old(self).levels(),
            r is Ok ==> final(self)@ == old(self)@.insert((lower, higher)),
            r is Err ==> final(self)@ == old(self)@,
            final(self).wf(),
    {
        proof {
            use_type_invariant(&*self);
        }
        if !self.is_defined(lower) {
            return Err(OrderError::Undefined(lower));
        }
        if !self.is_defined(higher) {
            return Err(OrderError::Undefined(higher));
        }
        if lower.index == higher.index {
            return Err(OrderError::Reflexive);
        }
        if self.is_declared(lower, higher) {
            return Err(OrderError::Duplicate);
        }
        if self.leads_up(higher, lower) {
            return Err(OrderError::Cyclic);
        }
        // The facts are taken out while the new one is added, so that the order
        // is well formed at every step on the way.
        let ghost before = self.edges@;
        let mut edges: Vec<(LevelId, LevelId)> = Vec::new();
        proof {
            lemma_empty_acyclic();
            assert(edges@.to_set() =~= Set::<(LevelId, LevelId)>::empty());
            lemma_insert_keeps_acyclic(before.to_set(), lower, higher);
            before.lemma_push_to_set_commute((lower, higher));
        }
        core::mem::swap(&mut self.edges, &mut edges);
        edges.push((lower, higher));
        core::mem::swap(&mut self.edges, &mut edges);
        Ok(())
    }

    /// Whether a thread that holds `held` stands at `base` or above it.
    pub fn is_admitted(&self, base: LevelId, held: LevelId) -> (r: bool)
        ensures
            r == self.admits(base, held),
    {
        held.index == base.index || self.is_below(base, held)
    }
}

} // verus!
