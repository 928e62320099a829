//! The first phase never gives up on a cube that twists have made of the
//! solved cube: some path into the subgroup is always within its reach.
use super::heuristic_laws::{lemma_chain_is_route, lemma_inverse_is_move_sequence};
use super::phase::Phase;
use super::tables::{is_move_sequence, is_route};
use super::{g1_estimate, g1_phase, in_g1};
use crate::cube::algs::{Turn, Twist};
use crate::cube::canonical::{canonical_form, lemma_all_twists_merge_within, lemma_canonical_form};
use crate::cube::cubie::{Corner, Edge};
use crate::cube::laws::{
    lemma_algorithm_then_inverse, lemma_applied_first, lemma_applied_wf, lemma_twisted_wf,
    reversed_inverse,
};
use crate::cube::validity::{flip_count, twist_sum};
use crate::cube::CubeState;
use vstd::prelude::*;

verus! {

/// The twists of `route` up to the first cube at the goal.
pub open spec fn cut_at_goal(phase: Phase, s: CubeState, route: Seq<Twist>) -> Seq<Twist>
    decreases route.len(),
{
    if (phase.goal)(s) || route.len() == 0 {
        Seq::empty()
    } else {
        seq![route[0]] + cut_at_goal(phase, s.twisted(route[0]), route.drop_first())
    }
}

/// A route that ends at the goal, cut at the first cube at the goal, is a
/// path of the phase, and no longer.
pub proof fn lemma_cut_at_goal(phase: Phase, s: CubeState, prev: Option<Turn>, route: Seq<Twist>)
    requires
        is_route(phase.moveset, prev, route),
        (phase.goal)(s.applied(route)),
    ensures
        phase.solves(s, prev, cut_at_goal(phase, s, route)),
        cut_at_goal(phase, s, route).len() <= route.len(),
    decreases route.len(),
{
    if (phase.goal)(s) {
    } else if route.len() == 0 {
        assert(s.applied(route) == s);
    } else {
        lemma_applied_first(s, route);
        lemma_cut_at_goal(phase, s.twisted(route[0]), Some(route[0].turn), route.drop_first());
        let rest = cut_at_goal(phase, s.twisted(route[0]), route.drop_first());
        let path = cut_at_goal(phase, s, route);
        assert(path[0] == route[0]);
        assert(path.drop_first() =~= rest);
    }
}

/// The corner twists add up to two for each corner at most.
proof fn lemma_twist_sum_bound(corners: Seq<Corner>)
    ensures
        twist_sum(corners) <= 2 * corners.len(),
    decreases corners.len(),
{
    if corners.len() > 0 {
        lemma_twist_sum_bound(corners.drop_last());
    }
}

/// No more edges are flipped than there are edges.
proof fn lemma_flip_count_bound(edges: Seq<Edge>)
    ensures
        flip_count(edges) <= edges.len(),
    decreases edges.len(),
{
    if edges.len() > 0 {
        lemma_flip_count_bound(edges.drop_last());
    }
}

/// The estimate of the first phase fits in a byte for every table, on cubes
/// of twelve edges and eight corners.
pub proof fn lemma_g1_estimate_bound(s: CubeState, table: Seq<u8>)
    requires
        s.wf(),
    ensures
        g1_estimate(s, table) <= 255,
{
    lemma_twist_sum_bound(s.corners);
    lemma_flip_count_bound(s.edges);
}

/// A path of the first phase from a cube of twelve edges and eight corners
/// costs at most its number of twists, the number of twists made before it,
/// and 255.
proof fn lemma_g1_cost_bound(table: Seq<u8>, s: CubeState, g: int, path: Seq<Twist>)
    requires
        s.wf(),
    ensures
        g1_phase(table).cost(s, g, path) <= g + path.len() + 255,
    decreases path.len(),
{
    lemma_g1_estimate_bound(s, table);
    if path.len() > 0 {
        lemma_twisted_wf(s, path[0]);
        lemma_g1_cost_bound(table, s.twisted(path[0]), g + 1, path.drop_first());
    }
}

/// Whatever the orientation table holds, the first phase finds a path from
/// every cube that twists have made of the solved cube: undoing the twists
/// is a way into the subgroup, and so is its canonical form, which the
/// search can follow.
pub proof fn lemma_first_phase_reaches(table: Seq<u8>, made_by: Seq<Twist>)
    requires
        is_move_sequence(made_by),
        made_by.len() + 256 < usize::MAX,
    ensures
        !g1_phase(table).out_of_reach(CubeState::solved().applied(made_by)),
{
    let phase = g1_phase(table);
    let solved = CubeState::solved();
    let s = solved.applied(made_by);
    let back = reversed_inverse(made_by);
    let route = canonical_form(back);
    lemma_applied_wf(solved, made_by);
    lemma_algorithm_then_inverse(solved, made_by);
    lemma_inverse_is_move_sequence(made_by);
    lemma_all_twists_merge_within();
    lemma_canonical_form(Twist::all(), back, s);
    lemma_chain_is_route(Twist::all(), None, route);
    assert(in_g1(solved));
    lemma_cut_at_goal(phase, s, None, route);
    let path = cut_at_goal(phase, s, route);
    lemma_g1_cost_bound(table, s, 0, path);
    assert(phase.viable(s, 0, usize::MAX - 1, None, path));
}

} // verus!
