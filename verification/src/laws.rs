use vstd::prelude::*;
use crate::handle::Handle;
use crate::id::LevelId;
use crate::order::{Order, OrderError};
use crate::relation::{
    acyclic, climbs, lemma_climbs_trans, lemma_edge_climbs, lemma_insert_closes_cycle,
    lemma_insert_keeps_acyclic,
};

verus! {

/// No level is declared below itself, and no two levels are declared below each
/// other.
pub proof fn law_irreflexive_and_asymmetric(order: Order, a: LevelId, b: LevelId)
    requires
        order.wf(),
        order@.contains((a, b)),
    ensures
        a != b,
        !order@.contains((b, a)),
{
    lemma_edge_climbs(order@, a, b);
    if order@.contains((b, a)) {
        lemma_edge_climbs(order@, b, a);
        lemma_climbs_trans(order@, a, b, a);
    }
}

/// A declaration between two defined levels is turned down as reflexive or cyclic
/// exactly when recording it would leave the facts with a cycle.
pub proof fn law_refusal_is_exact(order: Order, lower: LevelId, higher: LevelId)
    requires
        order.wf(),
        order.defines(lower),
        order.defines(higher),
    ensures
        (order.verdict(lower, higher) == Err::<(), OrderError>(OrderError::Reflexive)
            || order.verdict(lower, higher) == Err::<(), OrderError>(OrderError::Cyclic))
            <==> !acyclic(order@.insert((lower, higher))),
{
    if lower == higher || climbs(order@, higher, lower) {
        if order@.contains((lower, higher)) {
            law_irreflexive_and_asymmetric(order, lower, higher);
            lemma_edge_climbs(order@, lower, higher);
            lemma_climbs_trans(order@, lower, higher, lower);
        }
        lemma_insert_closes_cycle(order@, lower, higher);
    } else if order@.contains((lower, higher)) {
        assert(order@.insert((lower, higher)) =~= order@);
    } else {
        lemma_insert_keeps_acyclic(order@, lower, higher);
    }
}

/// Being below is not inherited. With `x` declared below `y` and `y` below `z`, a
/// thread that holds `z` may take `x` if `x` was itself declared below `z`, and
/// not otherwise.
pub proof fn law_not_transitive(order: Order, x: LevelId, y: LevelId, z: LevelId)
    requires
        order.wf(),
        order@.contains((x, y)),
        order@.contains((y, z)),
    ensures
        order.below(x, z) == order@.contains((x, z)),
{
}

/// Two levels with nothing declared between them, in either direction, cannot be
/// taken one under the other, whichever comes first.
pub proof fn law_unordered_levels_exclude(order: Order, x: LevelId, y: LevelId)
    requires
        order.wf(),
        !x.is_main_spec(),
        !y.is_main_spec(),
        !order@.contains((x, y)),
        !order@.contains((y, x)),
    ensures
        !order.below(x, y),
        !order.below(y, x),
{
}

/// Every step down a declared path is permitted: where each level of `path` is
/// declared below the one before it, the levels can be taken in that sequence,
/// starting from a handle at the first of them.
pub proof fn law_declared_path_is_a_chain(order: Order, path: Seq<LevelId>)
    requires
        order.wf(),
        forall|i: int| 0 <= i < path.len() - 1 ==> order@.contains((#[trigger] path[i + 1], path[i])),
    ensures
        order.chain(path),
{
    assert forall|i: int| 0 <= i < path.len() - 1 implies #[trigger] order.link(path, i) by {
        assert(order@.contains((path[i + 1], path[i])));
    }
}

/// Along a chain that does not start at the main level, a level taken later can
/// be reached upward to every level taken before it.
proof fn lemma_chain_climbs(order: Order, held: Seq<LevelId>, i: int, j: int)
    requires
        order.wf(),
        order.chain(held),
        0 <= i < j < held.len(),
        !held[i].is_main_spec(),
    ensures
        climbs(order@, held[j], held[i]),
    decreases j - i,
{
    assert(order.link(held, j - 1));
    if j == i + 1 {
        lemma_edge_climbs(order@, held[j], held[i]);
    } else {
        assert(order.link(held, j - 2));
        lemma_edge_climbs(order@, held[j], held[j - 1]);
        lemma_chain_climbs(order, held, i, j - 1);
        lemma_climbs_trans(order@, held[j], held[j - 1], held[i]);
    }
}

/// The levels a thread holds are strictly decreasing: no level occurs twice in a
/// chain, so no thread waits for a lock it holds itself.
pub proof fn law_chain_never_repeats(order: Order, held: Seq<LevelId>, i: int, j: int)
    requires
        order.wf(),
        order.chain(held),
        0 <= i < j < held.len(),
    ensures
        held[i] != held[j],
{
    assert(order.link(held, j - 1));
    if !held[i].is_main_spec() {
        lemma_chain_climbs(order, held, i, j);
    }
}

/// A level that a handle may take is none of the levels its thread holds: no
/// thread asks for a lock at a level it is already working under.
pub proof fn law_taken_level_is_not_held(handle: Handle, level: LevelId)
    requires
        handle.wf(),
        handle.order().below(level, handle.level()),
    ensures
        !handle.path().contains(level),
{
    let order = handle.order();
    let held = handle.path();
    let longer = held.push(level);
    assert forall|i: int| 0 <= i < longer.len() - 1 implies #[trigger] order.link(longer, i) by {
        if i < held.len() - 1 {
            assert(order.link(held, i));
        }
    }
    if held.contains(level) {
        let i = choose|i: int| 0 <= i < held.len() && held[i] == level;
        law_chain_never_repeats(order, longer, i, longer.len() - 1);
    }
}

/// Two threads cannot each hold what the other takes next: if one chain holds a
/// level and goes on to a second, no chain holds the second and goes on to the
/// first.
pub proof fn law_no_crossed_chains(
    order: Order,
    first: Seq<LevelId>,
    second: Seq<LevelId>,
    i: int,
    j: int,
    k: int,
    l: int,
)
    requires
        order.wf(),
        order.chain(first),
        order.chain(second),
        0 <= i < j < first.len(),
        0 <= k < l < second.len(),
        first[i] == second[l],
    ensures
        first[j] != second[k],
{
    assert(order.link(first, j - 1));
    assert(order.link(second, l - 1));
    if first[j] == second[k] {
        lemma_chain_climbs(order, second, k, l);
        if !first[i].is_main_spec() {
            lemma_chain_climbs(order, first, i, j);
            lemma_climbs_trans(order@, first[j], first[i], first[j]);
        }
    }
}

/// A join is admitted to a handle at the base level and to one the base level is
/// below, and refused to one that stands below the base level.
pub proof fn law_join_from_above_only(order: Order, base: LevelId, held: LevelId)
    requires
        order.wf(),
    ensures
        held == base || order.below(base, held) ==> order.admits(base, held),
        order.below(held, base) ==> !order.admits(base, held),
{
    if order.below(held, base) && !base.is_main_spec() {
        law_irreflexive_and_asymmetric(order, held, base);
    }
}

/// A thread started at the main level is joined from the main level only.
pub proof fn law_join_of_main_thread(order: Order, held: LevelId)
    ensures
        order.admits(LevelId::main_spec(), held) == held.is_main_spec(),
{
}

} // verus!
