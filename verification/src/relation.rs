use vstd::prelude::*;
use crate::id::LevelId;

verus! {

/// The level at place `i` of `p` is declared below the one that follows it. A pair
/// `(lower, higher)` in `edges` is one declared fact "lower is below higher".
pub open spec fn step(edges: Set<(LevelId, LevelId)>, p: Seq<LevelId>, i: int) -> bool {
    edges.contains((p[i], p[i + 1]))
}

/// `p` walks upward through `edges`: it has at least two levels, and each one is
/// declared below the next.
pub open spec fn rising(edges: Set<(LevelId, LevelId)>, p: Seq<LevelId>) -> bool {
    &&& p.len() >= 2
    &&& forall|i: int| 0 <= i < p.len() - 1 ==> #[trigger] step(edges, p, i)
}

/// `to` can be reached from `from` by one or more declared steps upward.
pub open spec fn climbs(edges: Set<(LevelId, LevelId)>, from: LevelId, to: LevelId) -> bool {
    exists|p: Seq<LevelId>| #[trigger] rising(edges, p) && p.first() == from && p.last() == to
}

/// No level can be reached from itself: the declared facts admit no cycle, and in
/// particular no level is declared below itself.
pub open spec fn acyclic(edges: Set<(LevelId, LevelId)>) -> bool {
    forall|x: LevelId| !climbs(edges, x, x)
}

/// `to` is `from` itself or can be reached from it.
pub open spec fn reaches(edges: Set<(LevelId, LevelId)>, from: LevelId, to: LevelId) -> bool {
    from == to || climbs(edges, from, to)
}

/// Without a declared fact there is no climb, and so no cycle.
pub proof fn lemma_empty_acyclic()
    ensures
        acyclic(Set::<(LevelId, LevelId)>::empty()),
{
    let none = Set::<(LevelId, LevelId)>::empty();
    assert forall|x: LevelId| !climbs(none, x, x) by {
        if climbs(none, x, x) {
            let p = choose|p: Seq<LevelId>| #[trigger]
                rising(none, p) && p.first() == x && p.last() == x;
            assert(step(none, p, 0));
        }
    }
}

/// One declared fact is a climb of one step.
pub proof fn lemma_edge_climbs(edges: Set<(LevelId, LevelId)>, a: LevelId, b: LevelId)
    requires
        edges.contains((a, b)),
    ensures
        climbs(edges, a, b),
{
    let p = seq![a, b];
    assert forall|i: int| 0 <= i < p.len() - 1 implies #[trigger] step(edges, p, i) by {
        assert(i == 0);
    }
    assert(rising(edges, p));
    assert(p.first() == a && p.last() == b);
}

/// A climb can be extended by one declared step.
pub proof fn lemma_climbs_step(
    edges: Set<(LevelId, LevelId)>,
    a: LevelId,
    b: LevelId,
    c: LevelId,
)
    requires
        reaches(edges, a, b),
        edges.contains((b, c)),
    ensures
        climbs(edges, a, c),
{
    if a == b {
        lemma_edge_climbs(edges, b, c);
    } else {
        let p = choose|p: Seq<LevelId>| #[trigger]
            rising(edges, p) && p.first() == a && p.last() == b;
        let q = p.push(c);
        assert forall|i: int| 0 <= i < q.len() - 1 implies #[trigger] step(edges, q, i) by {
            if i < p.len() - 1 {
                assert(step(edges, p, i));
            }
        }
        assert(rising(edges, q));
        assert(q.first() == a && q.last() == c);
    }
}

/// Climbs compose.
pub proof fn lemma_climbs_trans(
    edges: Set<(LevelId, LevelId)>,
    a: LevelId,
    b: LevelId,
    c: LevelId,
)
    requires
        climbs(edges, a, b),
        climbs(edges, b, c),
    ensures
        climbs(edges, a, c),
{
    let p = choose|p: Seq<LevelId>| #[trigger]
        rising(edges, p) && p.first() == a && p.last() == b;
    let q = choose|q: Seq<LevelId>| #[trigger]
        rising(edges, q) && q.first() == b && q.last() == c;
    let r = p + q.skip(1);
    assert forall|i: int| 0 <= i < r.len() - 1 implies #[trigger] step(edges, r, i) by {
        if i < p.len() - 1 {
            assert(step(edges, p, i));
        } else {
            let k = i - p.len() + 1;
            assert(step(edges, q, k));
            assert(r[i] == q[k]);
            assert(r[i + 1] == q[k + 1]);
        }
    }
    assert(rising(edges, r));
    assert(r.first() == a && r.last() == c);
}

/// Declaring more facts removes no climb.
pub proof fn lemma_climbs_grows(
    edges: Set<(LevelId, LevelId)>,
    more: Set<(LevelId, LevelId)>,
    a: LevelId,
    b: LevelId,
)
    requires
        climbs(edges, a, b),
        edges.subset_of(more),
    ensures
        climbs(more, a, b),
{
    let p = choose|p: Seq<LevelId>| #[trigger]
        rising(edges, p) && p.first() == a && p.last() == b;
    assert forall|i: int| 0 <= i < p.len() - 1 implies #[trigger] step(more, p, i) by {
        assert(step(edges, p, i));
    }
    assert(rising(more, p));
}

/// Where a path through the facts with `(a, b)` added leads, seen from the facts
/// without it: either the path needs no new step, or it passes from its start up to
/// `a` and from `b` up to its end.
proof fn lemma_split_at_new_edge(
    edges: Set<(LevelId, LevelId)>,
    a: LevelId,
    b: LevelId,
    p: Seq<LevelId>,
)
    requires
        rising(edges.insert((a, b)), p),
    ensures
        climbs(edges, p.first(), p.last()) || (reaches(edges, p.first(), a) && reaches(
            edges,
            b,
            p.last(),
        )),
    decreases p.len(),
{
    let more = edges.insert((a, b));
    let n = p.len() as int;
    let y = p[n - 2];
    let z = p[n - 1];
    assert(step(more, p, n - 2));
    if n == 2 {
        if edges.contains((y, z)) {
            lemma_edge_climbs(edges, y, z);
        }
    } else {
        let q = p.drop_last();
        assert forall|i: int| 0 <= i < q.len() - 1 implies #[trigger] step(more, q, i) by {
            assert(step(more, p, i));
        }
        assert(rising(more, q));
        assert(q.first() == p.first());
        assert(q.last() == y);
        lemma_split_at_new_edge(edges, a, b, q);
        if edges.contains((y, z)) {
            if climbs(edges, q.first(), y) {
                lemma_climbs_step(edges, q.first(), y, z);
            } else {
                lemma_climbs_step(edges, b, y, z);
            }
        }
    }
}

/// A fact `(a, b)` between two different levels can be added without making a
/// cycle, provided `a` cannot already be reached from `b`.
pub proof fn lemma_insert_keeps_acyclic(edges: Set<(LevelId, LevelId)>, a: LevelId, b: LevelId)
    requires
        acyclic(edges),
        a != b,
        !climbs(edges, b, a),
    ensures
        acyclic(edges.insert((a, b))),
{
    let more = edges.insert((a, b));
    assert forall|x: LevelId| !climbs(more, x, x) by {
        if climbs(more, x, x) {
            let p = choose|p: Seq<LevelId>| #[trigger]
                rising(more, p) && p.first() == x && p.last() == x;
            lemma_split_at_new_edge(edges, a, b, p);
            if !climbs(edges, x, x) {
                if b != x && x != a {
                    lemma_climbs_trans(edges, b, x, a);
                }
            }
        }
    }
}

/// Adding `(a, b)` where `a` can already be reached from `b` closes a cycle.
pub proof fn lemma_insert_closes_cycle(edges: Set<(LevelId, LevelId)>, a: LevelId, b: LevelId)
    requires
        reaches(edges, b, a),
    ensures
        !acyclic(edges.insert((a, b))),
{
    let more = edges.insert((a, b));
    if b != a {
        lemma_climbs_grows(edges, more, b, a);
    }
    lemma_climbs_step(more, b, a, b);
    assert(climbs(more, b, b));
}

/// Every level on a path that starts at `start` lies in a set that holds what is
/// declared above `start` and is closed under declared steps upward.
pub proof fn lemma_closed_holds_climbs(
    edges: Set<(LevelId, LevelId)>,
    start: LevelId,
    closed: Set<LevelId>,
    to: LevelId,
)
    requires
        forall|u: LevelId, v: LevelId|
            #![trigger edges.contains((u, v))]
            edges.contains((u, v)) && (u == start || closed.contains(u)) ==> closed.contains(v),
        climbs(edges, start, to),
    ensures
        closed.contains(to),
{
    let p = choose|p: Seq<LevelId>| #[trigger]
        rising(edges, p) && p.first() == start && p.last() == to;
    lemma_closed_holds_path(edges, start, closed, p, p.len() - 1);
}

proof fn lemma_closed_holds_path(
    edges: Set<(LevelId, LevelId)>,
    start: LevelId,
    closed: Set<LevelId>,
    p: Seq<LevelId>,
    k: int,
)
    requires
        forall|u: LevelId, v: LevelId|
            #![trigger edges.contains((u, v))]
            edges.contains((u, v)) && (u == start || closed.contains(u)) ==> closed.contains(v),
        rising(edges, p),
        p.first() == start,
        1 <= k < p.len(),
    ensures
        closed.contains(p[k]),
    decreases k,
{
    assert(step(edges, p, k - 1));
    if k > 1 {
        lemma_closed_holds_path(edges, start, closed, p, k - 1);
    }
}

} // verus!
