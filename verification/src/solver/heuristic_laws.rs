//! What the tables are worth as estimates: the orientation table never says
//! more twists than a way into the subgroup takes, and the permutation table
//! never says more than a route to the solved cube takes.
use super::permutation::{
    lehmer_code, lemma_factoradic_bound, lemma_lehmer_code_is_factoradic,
    lemma_small_factorials,
};
use super::phase::{lemma_solves_reaches_goal, Phase};
use super::tables::{
    is_move_sequence, is_route, least_depth, lemma_coordinate_in_range,
    lemma_solved_coordinate, orientation_reached, orientation_table_after,
    permutation_table_after, reaches, UNREACHED,
};
use super::{
    corner_ids, g1_moves, g1_phase, in_g1, permutation_coordinate, solved_estimate, solved_phase,
    PERMUTATION_COUNT,
};
use crate::cube::algs::{is_canonical, Turn, TurnDir, Twist};
use crate::cube::canonical::{canonical_form, is_sequence_of, lemma_canonical_form, merges_within};
use crate::cube::coordinate_laws::{
    lemma_coordinate_after_twist, lemma_orientations_tell_coordinate, same_orientations,
};
use crate::cube::laws::{lemma_algorithm_then_inverse, lemma_applied_wf, reversed_inverse};
use crate::cube::validity::{lemma_applied_keeps_legal, lemma_solved_is_legal};
use crate::cube::CubeState;
use vstd::prelude::*;

verus! {

/// The depth found is at most any number below `rounds` that `hit` holds
/// of.
pub proof fn lemma_least_depth_at_most(hit: spec_fn(nat) -> bool, rounds: nat, n: nat)
    requires
        n < rounds,
        rounds <= 255,
        hit(n),
    ensures
        least_depth(hit, rounds) <= n,
    decreases rounds,
{
    if rounds > n + 1 {
        lemma_least_depth_at_most(hit, (rounds - 1) as nat, n);
    } else {
        lemma_least_depth_range(hit, n);
    }
}

/// A depth found in `rounds` rounds is below `rounds`.
pub proof fn lemma_least_depth_range(hit: spec_fn(nat) -> bool, rounds: nat)
    requires
        rounds <= 255,
    ensures
        least_depth(hit, rounds) == UNREACHED || least_depth(hit, rounds) < rounds,
    decreases rounds,
{
    if rounds > 0 {
        lemma_least_depth_range(hit, (rounds - 1) as nat);
    }
}

/// Legal cubes with the same orientation coordinate have the same
/// coordinate after the same twists.
pub proof fn lemma_coordinate_after_twists(a: CubeState, b: CubeState, alg: Seq<Twist>)
    requires
        a.is_legal(),
        b.is_legal(),
        a.orientation_coordinate() == b.orientation_coordinate(),
    ensures
        a.applied(alg).orientation_coordinate() == b.applied(alg).orientation_coordinate(),
    decreases alg.len(),
{
    if alg.len() > 0 {
        let front = alg.drop_last();
        lemma_coordinate_after_twists(a, b, front);
        lemma_applied_keeps_legal(a, front);
        lemma_applied_keeps_legal(b, front);
        lemma_coordinate_after_twist(a.applied(front), b.applied(front), alg.last());
    }
}

/// A cube in the subgroup has orientation coordinate 0.
pub proof fn lemma_subgroup_coordinate(s: CubeState)
    requires
        s.wf(),
        in_g1(s),
    ensures
        s.orientation_coordinate() == 0,
{
    let solved = CubeState::solved();
    assert(same_orientations(s, solved));
    lemma_orientations_tell_coordinate(s, solved);
    lemma_solved_coordinate();
}

/// Undoing a sequence of the eighteen twists takes a sequence of the
/// eighteen twists.
pub proof fn lemma_inverse_is_move_sequence(path: Seq<Twist>)
    requires
        is_move_sequence(path),
    ensures
        is_move_sequence(reversed_inverse(path)),
{
    let back = reversed_inverse(path);
    assert forall|i: int| 0 <= i < back.len() implies Twist::all().contains(#[trigger] back[i]) by {
        let t = path[path.len() - 1 - i];
        assert(Twist::all().contains(t));
        let k = choose|k: int| 0 <= k < Twist::all().len() && Twist::all()[k] == t;
        // the inverse of the twist at k stands at k too, or two places off
        let j = if k % 3 == 0 {
            k + 2
        } else if k % 3 == 2 {
            k - 2
        } else {
            k
        };
        assert(Twist::all()[j] == t.inverted());
    }
}

/// The orientation table never overestimates: from a legal cube no
/// sequence of fewer than 255 of the eighteen twists leads into the subgroup
/// in fewer twists than the table's entry for the cube.
pub proof fn lemma_orientation_table_never_overestimates(c: CubeState, path: Seq<Twist>)
    requires
        c.is_legal(),
        is_move_sequence(path),
        path.len() < 255,
        in_g1(c.applied(path)),
    ensures
        0 <= c.orientation_coordinate() < orientation_table_after(255).len(),
        orientation_table_after(255)[c.orientation_coordinate()] <= path.len(),
{
    let goal = c.applied(path);
    let back = reversed_inverse(path);
    let x = c.orientation_coordinate();
    lemma_coordinate_in_range(c);
    lemma_applied_keeps_legal(c, path);
    lemma_subgroup_coordinate(goal);
    lemma_solved_coordinate();
    lemma_solved_is_legal();
    lemma_algorithm_then_inverse(c, path);
    lemma_coordinate_after_twists(CubeState::solved(), goal, back);
    lemma_inverse_is_move_sequence(path);
    assert(orientation_reached(path.len(), x)) by {
        assert(is_move_sequence(back) && back.len() == path.len() && CubeState::solved().applied(
            back,
        ).orientation_coordinate() == x);
    }
    lemma_least_depth_at_most(|n: nat| orientation_reached(n, x), 255, path.len());
}


/// Whether each twist of `path` is in `moveset` and each but the first may
/// follow the one before it.
pub open spec fn is_chain(moveset: Seq<Twist>, path: Seq<Twist>) -> bool {
    is_sequence_of(moveset, path) && is_canonical(path)
}

/// Whether the move set holds the inverse of each of its twists.
pub open spec fn has_inverses(moveset: Seq<Twist>) -> bool {
    forall|t: Twist| moveset.contains(t) ==> moveset.contains(#[trigger] t.inverted())
}

/// A route is a chain.
pub proof fn lemma_route_is_chain(moveset: Seq<Twist>, prev: Option<Turn>, path: Seq<Twist>)
    requires
        is_route(moveset, prev, path),
    ensures
        is_chain(moveset, path),
        path.len() > 0 ==> Turn::may_follow(prev, path[0].turn),
    decreases path.len(),
{
    if path.len() > 0 {
        let rest = path.drop_first();
        lemma_route_is_chain(moveset, Some(path[0].turn), rest);
        assert forall|i: int| 0 <= i < path.len() implies moveset.contains(#[trigger] path[i]) by {
            if i > 0 {
                assert(rest[i - 1] == path[i]);
            }
        }
        assert forall|i: int, j: int|
            #![trigger path[i], path[j]]
            0 <= i && j == i + 1 && j < path.len() implies Turn::may_follow(
            Some(path[i].turn),
            path[j].turn,
        ) by {
            if i == 0 {
                assert(rest[0] == path[1]);
            } else {
                assert(rest[i - 1] == path[i] && rest[j - 1] == path[j]);
            }
        }
    }
}

/// A chain is a route, after any face that its first twist may follow.
pub proof fn lemma_chain_is_route(moveset: Seq<Twist>, prev: Option<Turn>, path: Seq<Twist>)
    requires
        is_chain(moveset, path),
        path.len() > 0 ==> Turn::may_follow(prev, path[0].turn),
    ensures
        is_route(moveset, prev, path),
    decreases path.len(),
{
    if path.len() > 0 {
        let rest = path.drop_first();
        assert forall|i: int| 0 <= i < rest.len() implies moveset.contains(#[trigger] rest[i]) by {
            assert(rest[i] == path[i + 1]);
        }
        assert forall|i: int, j: int|
            #![trigger rest[i], rest[j]]
            0 <= i && j == i + 1 && j < rest.len() implies Turn::may_follow(
            Some(rest[i].turn),
            rest[j].turn,
        ) by {
            assert(rest[i] == path[i + 1] && rest[j] == path[j + 1]);
        }
        if rest.len() > 0 {
            assert(rest[0] == path[1]);
            assert(Turn::may_follow(Some(path[0].turn), path[1].turn));
        }
        assert(moveset.contains(path[0]));
        lemma_chain_is_route(moveset, Some(path[0].turn), rest);
    }
}

/// Undoing a sequence of twists of a move set that holds their inverses
/// takes a sequence of twists of that move set.
pub proof fn lemma_inverse_within(moveset: Seq<Twist>, path: Seq<Twist>)
    requires
        is_sequence_of(moveset, path),
        has_inverses(moveset),
    ensures
        is_sequence_of(moveset, reversed_inverse(path)),
{
    let back = reversed_inverse(path);
    assert forall|i: int| 0 <= i < back.len() implies moveset.contains(#[trigger] back[i]) by {
        assert(moveset.contains(path[path.len() - 1 - i]));
    }
}

/// The ten twists of the subgroup hold the inverse of each of them.
pub proof fn lemma_subgroup_has_inverses()
    ensures
        has_inverses(g1_moves()),
{
    let m = g1_moves();
    assert forall|t: Twist| m.contains(t) implies m.contains(#[trigger] t.inverted()) by {
        let k = choose|k: int| 0 <= k < m.len() && m[k] == t;
        let j = if k == 0 || k == 3 {
            k + 2
        } else if k == 2 || k == 5 {
            k - 2
        } else {
            k
        };
        assert(m[j] == t.inverted());
    }
}

/// The corner-permutation coordinate of every cube lies in the table.
pub proof fn lemma_permutation_coordinate_in_range(c: CubeState)
    requires
        c.wf(),
    ensures
        permutation_coordinate(c) < PERMUTATION_COUNT,
{
    lemma_lehmer_code_is_factoradic(corner_ids(c));
    lemma_factoradic_bound(lehmer_code(corner_ids(c)));
    lemma_small_factorials();
}

/// Two of the ten twists of the subgroup that turn one face amount to no
/// turn or to one of the ten.
pub proof fn lemma_subgroup_merges_within()
    ensures
        merges_within(g1_moves()),
{
    let m = g1_moves();
    assert forall|t: Twist| #[trigger] m.contains(t) implies t.dir != TurnDir::Identity by {
        let k = choose|k: int| 0 <= k < m.len() && m[k] == t;
    }
    assert forall|a: Twist, b: Twist|
        #[trigger] m.contains(a) && #[trigger] m.contains(b) && a.turn == b.turn implies a.dir.plus(
        b.dir,
    ) == TurnDir::Identity || m.contains(Twist { turn: a.turn, dir: a.dir.plus(b.dir) }) by {
        let i = choose|i: int| 0 <= i < m.len() && m[i] == a;
        let j = choose|j: int| 0 <= j < m.len() && m[j] == b;
        let sum = Twist { turn: a.turn, dir: a.dir.plus(b.dir) };
        if sum.dir != TurnDir::Identity {
            // half turns of the side faces cancel; turns of U and of D add up
            let base: int = if a.turn == Turn::U {
                0
            } else {
                3
            };
            let k = base + sum.dir.quarters() - 1;
            assert(a.turn == Turn::U || a.turn == Turn::D);
            assert(m[k] == sum);
        }
    }
}

/// The permutation table holds for each coordinate the least number of
/// twists of the subgroup that lead to it from the solved cube, in
/// whatever order: no sequence of fewer than 255 such twists is shorter than
/// the entry of the coordinate it leads to.
pub proof fn lemma_permutation_table_is_least(path: Seq<Twist>)
    requires
        is_sequence_of(g1_moves(), path),
        path.len() < 255,
    ensures
        permutation_coordinate(CubeState::solved().applied(path)) < permutation_table_after(
            255,
        ).len(),
        permutation_table_after(255)[permutation_coordinate(
            CubeState::solved().applied(path),
        ) as int] <= path.len(),
{
    let solved = CubeState::solved();
    let route = canonical_form(path);
    let x = permutation_coordinate(solved.applied(path)) as int;
    lemma_applied_wf(solved, path);
    lemma_permutation_coordinate_in_range(solved.applied(path));
    lemma_subgroup_merges_within();
    lemma_canonical_form(g1_moves(), path, solved);
    lemma_chain_is_route(g1_moves(), None, route);
    assert(reaches(solved, None, route.len(), x)) by {
        assert(is_route(g1_moves(), None, route) && permutation_coordinate(solved.applied(route))
            == x);
    }
    lemma_least_depth_at_most(|n: nat| reaches(solved, None, n, x), 255, route.len());
}

/// The permutation table never overestimates: no sequence of fewer than
/// 255 twists of the subgroup leads from a cube to the solved cube in fewer
/// twists than the table's entry for the cube.
pub proof fn lemma_permutation_table_never_overestimates(c: CubeState, path: Seq<Twist>)
    requires
        c.wf(),
        is_sequence_of(g1_moves(), path),
        path.len() < 255,
        c.applied(path) == CubeState::solved(),
    ensures
        0 <= permutation_coordinate(c) < permutation_table_after(255).len(),
        permutation_table_after(255)[permutation_coordinate(c) as int] <= path.len(),
{
    let back = reversed_inverse(path);
    lemma_subgroup_has_inverses();
    lemma_inverse_within(g1_moves(), path);
    lemma_algorithm_then_inverse(c, path);
    lemma_permutation_table_is_least(back);
}

/// A path of a phase is a route over its move set.
pub proof fn lemma_path_is_route(phase: Phase, s: CubeState, prev: Option<Turn>, path: Seq<Twist>)
    requires
        phase.solves(s, prev, path),
    ensures
        is_route(phase.moveset, prev, path),
    decreases path.len(),
{
    if path.len() > 0 {
        lemma_path_is_route(phase, s.twisted(path[0]), Some(path[0].turn), path.drop_first());
    }
}

/// The estimate of the second phase, read from the table as it is built,
/// is at most the number of twists of any path of that phase to the solved
/// cube.
pub proof fn lemma_solved_estimate_never_overestimates(
    table: Seq<u8>,
    s: CubeState,
    path: Seq<Twist>,
)
    requires
        s.wf(),
        solved_phase(table).solves(s, None, path),
        path.len() < 255,
    ensures
        solved_estimate(s, permutation_table_after(255)) <= path.len(),
{
    let phase = solved_phase(table);
    lemma_path_is_route(phase, s, None, path);
    lemma_route_is_chain(phase.moveset, None, path);
    lemma_solves_reaches_goal(phase, s, None, path);
    lemma_permutation_table_never_overestimates(s, path);
}

/// The entry of the orientation table as it is built is at most the number
/// of twists of any path of the first phase from a legal cube into the
/// subgroup.
pub proof fn lemma_pattern_estimate_never_overestimates(
    table: Seq<u8>,
    s: CubeState,
    path: Seq<Twist>,
)
    requires
        s.is_legal(),
        g1_phase(table).solves(s, None, path),
        path.len() < 255,
    ensures
        orientation_table_after(255)[s.orientation_coordinate()] <= path.len(),
{
    let phase = g1_phase(table);
    lemma_path_is_route(phase, s, None, path);
    lemma_route_is_chain(phase.moveset, None, path);
    lemma_solves_reaches_goal(phase, s, None, path);
    lemma_orientation_table_never_overestimates(s, path);
}

} // verus!
