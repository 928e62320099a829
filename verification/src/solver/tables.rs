//! Building the two pattern databases.
use super::{
    corner_permutation_coordinate, g1_moves, g1_moveset, permutation_coordinate, LookupTable,
    ORIENTATION_COUNT, PERMUTATION_COUNT,
};
use crate::cube::algs::{lemma_allowed_members, Turn, Twist};
use crate::cube::canonical::is_sequence_of;
use crate::cube::laws::{lemma_applied_first, lemma_twist_then_inverse};
use crate::cube::{Cube, CubeState};
use std::collections::VecDeque;
use vstd::prelude::*;

verus! {

/// The entry of a coordinate that the search has not reached.
pub const UNREACHED: u8 = 255;

/// Whether `path` is a sequence of twists of `moveset` in which the first
/// may follow a twist of face `prev` and every other the one before it.
pub open spec fn is_route(moveset: Seq<Twist>, prev: Option<Turn>, path: Seq<Twist>) -> bool
    decreases path.len(),
{
    path.len() == 0 || {
        &&& moveset.contains(path[0])
        &&& Turn::may_follow(prev, path[0].turn)
        &&& is_route(moveset, Some(path[0].turn), path.drop_first())
    }
}

/// Whether some route of exactly `n` twists of the subgroup leads from cube
/// `s`, reached by a twist of face `prev`, to a cube whose corner
/// permutation has the given coordinate.
pub open spec fn reaches(s: CubeState, prev: Option<Turn>, n: nat, coordinate: int) -> bool {
    exists|path: Seq<Twist>|
        #[trigger] is_route(g1_moves(), prev, path) && path.len() == n && permutation_coordinate(
            s.applied(path),
        ) == coordinate
}

/// The least number below `rounds` that `hit` holds of, or [`UNREACHED`]
/// where it holds of none.
pub open spec fn least_depth(hit: spec_fn(nat) -> bool, rounds: nat) -> u8
    decreases rounds,
{
    if rounds == 0 {
        UNREACHED
    } else {
        let earlier = least_depth(hit, (rounds - 1) as nat);
        if earlier != UNREACHED {
            earlier
        } else if hit((rounds - 1) as nat) {
            (rounds - 1) as u8
        } else {
            UNREACHED
        }
    }
}

/// The least number of twists below `rounds` in which a route from the
/// solved cube reaches the coordinate, or [`UNREACHED`] where none does.
pub open spec fn first_depth(coordinate: int, rounds: nat) -> u8 {
    least_depth(|n: nat| reaches(CubeState::solved(), None, n, coordinate), rounds)
}

/// The corner-permutation table after the routes of fewer than `rounds`
/// twists have been followed.
pub open spec fn permutation_table_after(rounds: nat) -> Seq<u8> {
    Seq::new(PERMUTATION_COUNT as nat, |i: int| first_depth(i, rounds))
}

/// An entry after a round at `depth`: the depth where it was unreached and
/// the round has hit it, the old entry otherwise.
pub open spec fn filled(entry: u8, depth: u8, hit: bool) -> u8 {
    if entry == UNREACHED && hit {
        depth
    } else {
        entry
    }
}

/// Whether one of the first `upto` twists of `moves`, followed by a route of
/// `n` twists, leads from `s` to the coordinate.
pub open spec fn reaches_via(
    s: CubeState,
    moves: Seq<Twist>,
    upto: int,
    n: nat,
    coordinate: int,
) -> bool {
    exists|k: int|
        0 <= k < upto && #[trigger] reaches(s.twisted(moves[k]), Some(moves[k].turn), n, coordinate)
}

/// A route of at least one twist is an allowed first twist and a route from
/// where it leads.
proof fn lemma_reaches_by_first_twist(s: CubeState, prev: Option<Turn>, n: nat, coordinate: int)
    requires
        n > 0,
    ensures
        reaches(s, prev, n, coordinate) <==> reaches_via(
            s,
            Twist::allowed(g1_moves(), prev),
            Twist::allowed(g1_moves(), prev).len() as int,
            (n - 1) as nat,
            coordinate,
        ),
{
    let moves = Twist::allowed(g1_moves(), prev);
    if reaches(s, prev, n, coordinate) {
        let path = choose|path: Seq<Twist>|
            #[trigger] is_route(g1_moves(), prev, path) && path.len() == n
                && permutation_coordinate(s.applied(path)) == coordinate;
        lemma_allowed_members(g1_moves(), prev, path[0]);
        let k = choose|k: int| 0 <= k < moves.len() && moves[k] == path[0];
        lemma_applied_first(s, path);
        assert(is_route(g1_moves(), Some(moves[k].turn), path.drop_first()));
        assert(reaches(s.twisted(moves[k]), Some(moves[k].turn), (n - 1) as nat, coordinate));
    }
    if reaches_via(s, moves, moves.len() as int, (n - 1) as nat, coordinate) {
        let k = choose|k: int|
            0 <= k < moves.len() && #[trigger] reaches(
                s.twisted(moves[k]),
                Some(moves[k].turn),
                (n - 1) as nat,
                coordinate,
            );
        let rest = choose|rest: Seq<Twist>|
            #[trigger] is_route(g1_moves(), Some(moves[k].turn), rest) && rest.len() == n - 1
                && permutation_coordinate(s.twisted(moves[k]).applied(rest)) == coordinate;
        let path = seq![moves[k]] + rest;
        assert(moves.contains(moves[k]));
        lemma_allowed_members(g1_moves(), prev, moves[k]);
        assert(path.drop_first() =~= rest);
        lemma_applied_first(s, path);
        assert(is_route(g1_moves(), prev, path));
    }
}

/// The only route of no twists leads to the cube itself.
proof fn lemma_reaches_at_once(s: CubeState, prev: Option<Turn>, coordinate: int)
    ensures
        reaches(s, prev, 0, coordinate) <==> permutation_coordinate(s) == coordinate,
{
    if permutation_coordinate(s) == coordinate {
        assert(is_route(g1_moves(), prev, Seq::<Twist>::empty()));
        assert(s.applied(Seq::<Twist>::empty()) == s);
    }
    if reaches(s, prev, 0, coordinate) {
        let path = choose|path: Seq<Twist>|
            #[trigger] is_route(g1_moves(), prev, path) && path.len() == 0
                && permutation_coordinate(s.applied(path)) == coordinate;
        assert(s.applied(path) == s);
    }
}

/// One round of the search at `depth`, below a cube reached by `move_count`
/// twists, the last of face `prev_turn`: every unreached entry whose
/// coordinate a route of `depth - move_count` twists leads to is set to
/// `depth`. Nothing else changes.
pub fn permutation_table_compute(
    cube: &mut Cube,
    depth: u8,
    move_count: u8,
    prev_turn: Option<Turn>,
    table: &mut Vec<u8>,
)
    requires
        old(table)@.len() == PERMUTATION_COUNT,
        move_count <= depth < UNREACHED,
    ensures
        final(cube)@ == old(cube)@,
        final(table)@.len() == PERMUTATION_COUNT,
        forall|i: int|
            0 <= i < PERMUTATION_COUNT ==> #[trigger] final(table)@[i] == filled(
                old(table)@[i],
                depth,
                reaches(old(cube)@, prev_turn, (depth - move_count) as nat, i),
            ),
    decreases depth - move_count,
{
    let ghost start = cube@;
    let ghost before = table@;
    if move_count == depth {
        let i = corner_permutation_coordinate(cube);
        if table[i] == UNREACHED {
            table[i] = depth;
        }
        proof {
            assert forall|k: int| 0 <= k < PERMUTATION_COUNT implies #[trigger] table@[k]
                == filled(before[k], depth, reaches(start, prev_turn, 0, k)) by {
                lemma_reaches_at_once(start, prev_turn, k);
            }
        }
        return ;
    }
    let ghost n = (depth - move_count - 1) as nat;
    let moveset = g1_moveset();
    let moves = Twist::allowed_moves_from_moveset(moveset.as_slice(), prev_turn);
    let mut m: usize = 0;
    while m < moves.len()
        invariant
            m <= moves.len(),
            move_count < depth < UNREACHED,
            n == depth - move_count - 1,
            cube@ == start,
            start.wf(),
            table@.len() == PERMUTATION_COUNT,
            forall|i: int|
                0 <= i < PERMUTATION_COUNT ==> #[trigger] table@[i] == filled(
                    before[i],
                    depth,
                    reaches_via(start, moves@, m as int, n, i),
                ),
        decreases moves.len() - m,
    {
        let twist = moves[m];
        let ghost so_far = table@;
        cube.twist(twist);
        permutation_table_compute(cube, depth, move_count + 1, Some(twist.turn), table);
        cube.twist(twist.inverse());
        proof {
            lemma_twist_then_inverse(start, twist);
            assert forall|i: int| 0 <= i < PERMUTATION_COUNT implies #[trigger] table@[i]
                == filled(before[i], depth, reaches_via(start, moves@, m + 1, n, i)) by {
                let hit = reaches(
                    start.twisted(moves@[m as int]),
                    Some(moves@[m as int].turn),
                    n,
                    i,
                );
                assert(table@[i] == filled(so_far[i], depth, hit));
                if reaches_via(start, moves@, m as int, n, i) {
                    let k = choose|k: int|
                        0 <= k < m && #[trigger] reaches(
                            start.twisted(moves@[k]),
                            Some(moves@[k].turn),
                            n,
                            i,
                        );
                    assert(0 <= k < m + 1);
                }
                if reaches_via(start, moves@, m + 1, n, i) {
                    let k = choose|k: int|
                        0 <= k < m + 1 && #[trigger] reaches(
                            start.twisted(moves@[k]),
                            Some(moves@[k].turn),
                            n,
                            i,
                        );
                    if k < m {
                        assert(reaches_via(start, moves@, m as int, n, i));
                    }
                }
            }
        }
        m += 1;
    }
    proof {
        assert forall|i: int| 0 <= i < PERMUTATION_COUNT implies #[trigger] table@[i] == filled(
            before[i],
            depth,
            reaches(start, prev_turn, (depth - move_count) as nat, i),
        ) by {
            lemma_reaches_by_first_twist(start, prev_turn, (depth - move_count) as nat, i);
        }
    }
}

/// Whether some entry of the table is still unreached.
fn has_unreached(table: &Vec<u8>) -> (b: bool)
    ensures
        b == table@.contains(UNREACHED),
{
    let mut i: usize = 0;
    while i < table.len()
        invariant
            i <= table.len(),
            forall|k: int| 0 <= k < i ==> table@[k] != UNREACHED,
        decreases table.len() - i,
    {
        if table[i] == UNREACHED {
            return true;
        }
        i += 1;
    }
    false
}

/// A depth that has been found stays as it is in later rounds.
pub proof fn lemma_least_depth_stays(hit: spec_fn(nat) -> bool, rounds: nat, later: nat)
    requires
        rounds <= later,
        least_depth(hit, rounds) != UNREACHED,
    ensures
        least_depth(hit, later) == least_depth(hit, rounds),
    decreases later - rounds,
{
    if rounds < later {
        lemma_least_depth_stays(hit, rounds, (later - 1) as nat);
    }
}

/// Where `hit` holds of no number below `rounds`, no depth is found.
pub proof fn lemma_least_depth_none(hit: spec_fn(nat) -> bool, rounds: nat)
    requires
        forall|n: nat| n < rounds ==> !#[trigger] hit(n),
    ensures
        least_depth(hit, rounds) == UNREACHED,
    decreases rounds,
{
    if rounds > 0 {
        lemma_least_depth_none(hit, (rounds - 1) as nat);
    }
}

/// Where `hit` holds of `depth` and of no smaller number, `depth` is the
/// depth found in any greater number of rounds.
pub proof fn lemma_least_depth_is(hit: spec_fn(nat) -> bool, rounds: nat, depth: nat)
    requires
        depth < rounds,
        depth < UNREACHED,
        hit(depth),
        forall|n: nat| n < depth ==> !#[trigger] hit(n),
    ensures
        least_depth(hit, rounds) == depth,
    decreases rounds,
{
    if rounds == depth + 1 {
        lemma_least_depth_none(hit, depth);
    } else {
        lemma_least_depth_is(hit, (rounds - 1) as nat, depth);
    }
}

/// Builds the corner-permutation table by iterative deepening from the
/// solved cube with the ten twists of the subgroup: each entry is the least
/// number of twists, below 255, in which a route reaches its coordinate. No
/// sequence of such twists in another order reaches it in fewer. The result
/// is `None` where some coordinate is reached by no such route.
pub fn compute_permutation_table() -> (r: Option<LookupTable>)
    ensures
        match r {
            Some(table) => table@ == permutation_table_after(255) && !table@.contains(UNREACHED),
            None => permutation_table_after(255).contains(UNREACHED),
        },
{
    let mut cube = Cube::new_solved();
    let mut table = vec![UNREACHED; 40320];
    let mut depth: u8 = 0;
    proof {
        assert(table@ =~= permutation_table_after(0));
    }
    let mut unreached = has_unreached(&table);
    while unreached && depth < UNREACHED
        invariant
            cube@ == CubeState::solved(),
            table@ == permutation_table_after(depth as nat),
            unreached == table@.contains(UNREACHED),
        decreases UNREACHED - depth,
    {
        permutation_table_compute(&mut cube, depth, 0, None, &mut table);
        depth += 1;
        proof {
            assert(table@ =~= permutation_table_after(depth as nat));
        }
        unreached = has_unreached(&table);
    }
    if unreached {
        return None;
    }
    proof {
        assert forall|i: int| 0 <= i < PERMUTATION_COUNT implies first_depth(i, 255)
            == #[trigger] table@[i] by {
            assert(table@[i] != UNREACHED);
            lemma_least_depth_stays(
                |n: nat| reaches(CubeState::solved(), None, n, i),
                depth as nat,
                255,
            );
        }
        assert(table@ =~= permutation_table_after(255));
    }
    Some(LookupTable(table))
}


/// Whether every twist of `path` is one of the eighteen twists.
pub open spec fn is_move_sequence(path: Seq<Twist>) -> bool {
    is_sequence_of(Twist::all(), path)
}

/// Whether some sequence of exactly `n` of the eighteen twists leads from
/// the solved cube to a cube with the given orientation coordinate.
pub open spec fn orientation_reached(n: nat, coordinate: int) -> bool {
    exists|path: Seq<Twist>|
        #[trigger] is_move_sequence(path) && path.len() == n && CubeState::solved().applied(
            path,
        ).orientation_coordinate() == coordinate
}

/// The least number of twists below `rounds` that lead from the solved cube
/// to the orientation coordinate, or [`UNREACHED`] where none do.
pub open spec fn orientation_depth(coordinate: int, rounds: nat) -> u8 {
    least_depth(|n: nat| orientation_reached(n, coordinate), rounds)
}

/// The orientation table where sequences of fewer than `rounds` twists
/// count.
pub open spec fn orientation_table_after(rounds: nat) -> Seq<u8> {
    Seq::new(ORIENTATION_COUNT as nat, |i: int| orientation_depth(i, rounds))
}

/// How many entries are unreached.
pub open spec fn unreached_count(table: Seq<u8>) -> nat
    decreases table.len(),
{
    if table.len() == 0 {
        0
    } else {
        unreached_count(table.drop_last()) + if table.last() == UNREACHED {
            1nat
        } else {
            0nat
        }
    }
}

/// Reaching an entry leaves one unreached entry less.
proof fn lemma_one_less_unreached(table: Seq<u8>, i: int, depth: u8)
    requires
        0 <= i < table.len(),
        table[i] == UNREACHED,
        depth != UNREACHED,
    ensures
        unreached_count(table.update(i, depth)) + 1 == unreached_count(table),
    decreases table.len(),
{
    let after = table.update(i, depth);
    if i == table.len() - 1 {
        assert(after.drop_last() =~= table.drop_last());
    } else {
        assert(after.drop_last() =~= table.drop_last().update(i, depth));
        lemma_one_less_unreached(table.drop_last(), i, depth);
    }
}

/// The orientation coordinate of the cube that a twist makes of `c`.
pub open spec fn step(c: CubeState, t: Twist) -> int {
    c.twisted(t).orientation_coordinate()
}

/// Whether the search is done with a coordinate: whatever one of the
/// eighteen twists makes of a legal cube with that coordinate has been
/// reached, in at most one twist more.
pub open spec fn closed(table: Seq<u8>, x: int) -> bool {
    forall|c: CubeState, t: Twist|
        c.is_legal() && c.orientation_coordinate() == x && Twist::all().contains(t) ==> {
            &&& 0 <= #[trigger] step(c, t) < table.len()
            &&& table[step(c, t)] != UNREACHED
            &&& table[step(c, t)] <= table[x] + 1
        }
}

/// Whether a cube with the coordinate waits in the queue.
pub open spec fn in_queue(queue: Seq<(Cube, u8)>, x: int) -> bool {
    exists|k: int| 0 <= k < queue.len() && (#[trigger] queue[k]).0@.orientation_coordinate() == x
}

/// What holds of the queue of the breadth-first search: each cube in it has
/// been reached from the solved cube by the twists of its path, its entry
/// holds the length of the path, and it waits with the number of twists that
/// its neighbours take.
pub open spec fn queue_ok(queue: Seq<(Cube, u8)>, paths: Seq<Seq<Twist>>, table: Seq<u8>) -> bool {
    &&& paths.len() == queue.len()
    &&& forall|k: int|
        0 <= k < queue.len() ==> {
            &&& (#[trigger] queue[k]).0@ == CubeState::solved().applied(paths[k])
            &&& is_move_sequence(paths[k])
            &&& queue[k].1 == paths[k].len() + 1
            &&& queue[k].1 < UNREACHED
            &&& table[queue[k].0@.orientation_coordinate()] == queue[k].1 - 1
        }
}

/// The cubes wait in the order of their depths, none before `level` and
/// none more than one after it.
pub open spec fn queue_in_order(queue: Seq<(Cube, u8)>, level: u8) -> bool {
    &&& forall|k: int| 0 <= k < queue.len() ==> level <= (#[trigger] queue[k]).1 <= level + 1
    &&& forall|j: int, k: int|
        0 <= j <= k < queue.len() ==> (#[trigger] queue[j]).1 <= (#[trigger] queue[k]).1
}

/// Every entry that has been reached holds the length of some sequence of
/// twists that leads to its coordinate, and none is above `level`.
pub open spec fn entries_witnessed(table: Seq<u8>, level: u8) -> bool {
    forall|x: int|
        0 <= x < table.len() && #[trigger] table[x] != UNREACHED ==> orientation_reached(
            table[x] as nat,
            x,
        ) && table[x] <= level
}

/// Every coordinate that has been reached in fewer than 254 twists, but
/// perhaps `but`, is closed or waits in the queue.
pub open spec fn frontier_ok(table: Seq<u8>, queue: Seq<(Cube, u8)>, but: int) -> bool {
    forall|x: int|
        0 <= x < table.len() && #[trigger] table[x] != UNREACHED && table[x] < UNREACHED - 1 && x
            != but ==> closed(table, x) || in_queue(queue, x)
}

/// A closed coordinate stays closed where an unreached entry is reached.
proof fn lemma_closed_stays(table: Seq<u8>, x: int, y: int, depth: u8)
    requires
        0 <= x < table.len(),
        0 <= y < table.len(),
        table[x] != UNREACHED,
        table[y] == UNREACHED,
        closed(table, x),
    ensures
        closed(table.update(y, depth), x),
{
    let after = table.update(y, depth);
    assert forall|c: CubeState, t: Twist|
        c.is_legal() && c.orientation_coordinate() == x && Twist::all().contains(t) implies {
        &&& 0 <= #[trigger] step(c, t) < after.len()
        &&& after[step(c, t)] != UNREACHED
        &&& after[step(c, t)] <= after[x] + 1
    } by {
        assert(table[step(c, t)] != UNREACHED);
    }
}

/// The coordinate of every cube lies in the table.
pub proof fn lemma_coordinate_in_range(c: CubeState)
    ensures
        0 <= c.orientation_coordinate() < ORIENTATION_COUNT,
{
    crate::cube::coordinate_laws::lemma_coordinate_parts(c);
}

/// A cube that a move sequence makes of the solved cube is legal.
proof fn lemma_reached_is_legal(path: Seq<Twist>)
    ensures
        CubeState::solved().applied(path).is_legal(),
{
    crate::cube::validity::lemma_solved_is_legal();
    crate::cube::validity::lemma_applied_keeps_legal(CubeState::solved(), path);
}

/// What the search has done for a cube with coordinate `x` holds for every
/// legal cube with that coordinate: the coordinate is closed.
proof fn lemma_close(table: Seq<u8>, here: CubeState, x: int, depth: u8)
    requires
        table.len() == ORIENTATION_COUNT,
        here.is_legal(),
        here.orientation_coordinate() == x,
        table[x] == depth - 1,
        forall|k: int|
            0 <= k < 18 ==> table[#[trigger] step(here, Twist::all()[k])] != UNREACHED
                && table[step(here, Twist::all()[k])] <= depth,
    ensures
        closed(table, x),
{
    assert forall|c: CubeState, t: Twist|
        c.is_legal() && c.orientation_coordinate() == x && Twist::all().contains(t) implies {
        &&& 0 <= #[trigger] step(c, t) < table.len()
        &&& table[step(c, t)] != UNREACHED
        &&& table[step(c, t)] <= table[x] + 1
    } by {
        crate::cube::coordinate_laws::lemma_coordinate_after_twist(c, here, t);
        lemma_coordinate_in_range(c.twisted(t));
        let k = choose|k: int| 0 <= k < Twist::all().len() && Twist::all()[k] == t;
        assert(step(c, t) == step(here, Twist::all()[k]));
    }
}

/// In a table whose reached coordinates are closed, every coordinate that a
/// move sequence of `n` twists leads to has been reached, with an entry of
/// at most `n`.
proof fn lemma_closed_table_is_least(table: Seq<u8>, n: nat, x: int)
    requires
        table.len() == ORIENTATION_COUNT,
        table[0] == 0,
        frontier_ok(table, Seq::<(Cube, u8)>::empty(), -1),
        n < UNREACHED,
        orientation_reached(n, x),
    ensures
        0 <= x < ORIENTATION_COUNT,
        table[x] != UNREACHED,
        table[x] <= n,
    decreases n,
{
    let path = choose|path: Seq<Twist>|
        #[trigger] is_move_sequence(path) && path.len() == n && CubeState::solved().applied(
            path,
        ).orientation_coordinate() == x;
    lemma_coordinate_in_range(CubeState::solved().applied(path));
    if n == 0 {
        lemma_solved_coordinate();
        assert(CubeState::solved().applied(path) == CubeState::solved());
    } else {
        let front = path.drop_last();
        let t = path.last();
        let before = CubeState::solved().applied(front);
        let y = before.orientation_coordinate();
        assert(is_move_sequence(front)) by {
            assert forall|i: int| 0 <= i < front.len() implies Twist::all().contains(
                #[trigger] front[i],
            ) by {
                assert(front[i] == path[i]);
            }
        }
        assert(orientation_reached((n - 1) as nat, y));
        lemma_closed_table_is_least(table, (n - 1) as nat, y);
        lemma_reached_is_legal(front);
        assert(table[y] != UNREACHED && table[y] < UNREACHED - 1);
        assert(!in_queue(Seq::<(Cube, u8)>::empty(), y));
        assert(closed(table, y));
        assert(Twist::all().contains(path[n - 1]));
        assert(step(before, t) == x);
    }
}

/// A table of witnessed entries whose reached coordinates are closed holds
/// for each coordinate the least number of twists that lead to it.
proof fn lemma_closed_table_is_exact(table: Seq<u8>, level: u8)
    requires
        table.len() == ORIENTATION_COUNT,
        table[0] == 0,
        entries_witnessed(table, level),
        frontier_ok(table, Seq::<(Cube, u8)>::empty(), -1),
    ensures
        table == orientation_table_after(255),
{
    assert forall|x: int| 0 <= x < ORIENTATION_COUNT implies #[trigger] table[x]
        == orientation_depth(x, 255) by {
        let hit = |n: nat| orientation_reached(n, x);
        if table[x] == UNREACHED {
            assert forall|n: nat| n < 255 implies !#[trigger] hit(n) by {
                if orientation_reached(n, x) {
                    lemma_closed_table_is_least(table, n, x);
                }
            }
            lemma_least_depth_none(hit, 255);
        } else {
            let depth = table[x] as nat;
            assert(hit(depth));
            assert forall|n: nat| n < depth implies !#[trigger] hit(n) by {
                if orientation_reached(n, x) {
                    lemma_closed_table_is_least(table, n, x);
                }
            }
            lemma_least_depth_is(hit, 255, depth);
        }
    }
    assert(table =~= orientation_table_after(255));
}

/// Builds the orientation table by a breadth-first search from the solved
/// cube with all eighteen twists: each entry is the least number of twists,
/// below 255, that lead from the solved cube to a cube with its coordinate.
/// The result is `None` where some coordinate is reached by no such number
/// of twists.
pub fn compute_orientation_lookup_table() -> (r: Option<LookupTable>)
    ensures
        match r {
            Some(table) => table@ == orientation_table_after(255) && !table@.contains(UNREACHED),
            None => orientation_table_after(255).contains(UNREACHED),
        },
{
    let mut table = vec![UNREACHED; 4478976];
    let mut dequeue: VecDeque<(Cube, u8)> = VecDeque::new();
    let cube = Cube::new_solved();
    let orient = cube.get_orientation();
    proof {
        assert(CubeState::solved().applied(Seq::<Twist>::empty()) == CubeState::solved());
        lemma_solved_coordinate();
    }
    table[orient] = 0;
    dequeue.push_back((cube, 1));
    let ghost mut paths: Seq<Seq<Twist>> = seq![Seq::<Twist>::empty()];
    let ghost mut level: u8 = 1;
    proof {
        assert(orientation_reached(0, 0)) by {
            assert(is_move_sequence(Seq::<Twist>::empty()));
        }
        assert(in_queue(dequeue@, 0)) by {
            assert(dequeue@[0].0@.orientation_coordinate() == 0);
        }
    }
    let all = Twist::all_twists();
    while dequeue.len() > 0
        invariant
            all@ == Twist::all(),
            table@.len() == ORIENTATION_COUNT,
            table@[0] == 0,
            queue_ok(dequeue@, paths, table@),
            queue_in_order(dequeue@, level),
            entries_witnessed(table@, level),
            frontier_ok(table@, dequeue@, -1),
        decreases unreached_count(table@) + dequeue@.len(),
    {
        let ghost path = paths[0];
        let ghost waiting = dequeue@.len();
        let ghost unreached = unreached_count(table@);
        let ghost queue_before = dequeue@;
        let (mut cube, depth) = dequeue.pop_front().unwrap();
        let ghost here = cube@;
        let ghost x0 = here.orientation_coordinate();
        proof {
            paths = paths.subrange(1, paths.len() as int);
            assert(queue_before[0].1 == depth);
            assert forall|k: int| 0 <= k < dequeue@.len() implies depth <= (
            #[trigger] dequeue@[k]).1 <= depth + 1 by {
                assert(dequeue@[k] == queue_before[k + 1]);
                assert(queue_before[0].1 <= queue_before[k + 1].1);
            }
            assert forall|j: int, k: int| 0 <= j <= k < dequeue@.len() implies (
            #[trigger] dequeue@[j]).1 <= (#[trigger] dequeue@[k]).1 by {
                assert(dequeue@[j] == queue_before[j + 1]);
                assert(dequeue@[k] == queue_before[k + 1]);
            }
            assert forall|k: int| 0 <= k < dequeue@.len() implies {
                &&& (#[trigger] dequeue@[k]).0@ == CubeState::solved().applied(paths[k])
                &&& is_move_sequence(paths[k])
                &&& dequeue@[k].1 == paths[k].len() + 1
                &&& dequeue@[k].1 < UNREACHED
                &&& table@[dequeue@[k].0@.orientation_coordinate()] == dequeue@[k].1 - 1
            } by {
                assert(dequeue@[k] == queue_before[k + 1]);
            }
            assert forall|x: int|
                0 <= x < table@.len() && #[trigger] table@[x] != UNREACHED && table@[x]
                    < UNREACHED - 1 && x != x0 implies closed(table@, x) || in_queue(
                dequeue@,
                x,
            ) by {
                if !closed(table@, x) {
                    let k = choose|k: int|
                        0 <= k < queue_before.len() && (
                        #[trigger] queue_before[k]).0@.orientation_coordinate() == x;
                    assert(k != 0);
                    assert(dequeue@[k - 1] == queue_before[k]);
                }
            }
            level = depth;
            lemma_reached_is_legal(path);
            lemma_coordinate_in_range(here);
        }
        let mut t: usize = 0;
        while t < 18
            invariant
                t <= 18,
                all@ == Twist::all(),
                table@.len() == ORIENTATION_COUNT,
                table@[0] == 0,
                queue_ok(dequeue@, paths, table@),
                queue_in_order(dequeue@, depth),
                level == depth,
                entries_witnessed(table@, depth),
                frontier_ok(table@, dequeue@, x0),
                cube@ == here,
                here == CubeState::solved().applied(path),
                here.is_legal(),
                is_move_sequence(path),
                x0 == here.orientation_coordinate(),
                0 <= x0 < ORIENTATION_COUNT,
                table@[x0] == depth - 1,
                depth == path.len() + 1,
                depth < UNREACHED,
                unreached_count(table@) + dequeue@.len() < unreached + waiting,
                forall|k: int|
                    0 <= k < t ==> table@[#[trigger] step(here, Twist::all()[k])] != UNREACHED
                        && table@[step(here, Twist::all()[k])] <= depth,
            decreases 18 - t,
        {
            let twist = all[t];
            cube.twist(twist);
            let orient = cube.get_orientation();
            let ghost table_before = table@;
            let ghost queue_now = dequeue@;
            let ghost old_paths = paths;
            proof {
                lemma_coordinate_in_range(here.twisted(twist));
            }
            if table[orient] == UNREACHED {
                proof {
                    lemma_one_less_unreached(table@, orient as int, depth);
                    crate::cube::alg_laws::lemma_applied_push(CubeState::solved(), path, twist);
                    assert(is_move_sequence(path.push(twist))) by {
                        let longer = path.push(twist);
                        assert forall|i: int| 0 <= i < longer.len() implies Twist::all().contains(
                            #[trigger] longer[i],
                        ) by {
                            if i < path.len() {
                                assert(longer[i] == path[i]);
                            }
                        }
                    }
                    assert(orientation_reached(depth as nat, orient as int));
                }
                table[orient] = depth;
                if depth < UNREACHED - 1 {
                    dequeue.push_back((cube, depth + 1));
                    proof {
                        paths = paths.push(path.push(twist));
                    }
                }
                proof {
                    assert forall|x: int|
                        0 <= x < table@.len() && #[trigger] table@[x] != UNREACHED && table@[x]
                            < UNREACHED - 1 && x != x0 implies closed(table@, x) || in_queue(
                        dequeue@,
                        x,
                    ) by {
                        if x == orient {
                            assert(dequeue@[dequeue@.len() - 1].0@.orientation_coordinate() == x);
                        } else {
                            assert(table_before[x] == table@[x]);
                            if closed(table_before, x) {
                                lemma_closed_stays(table_before, x, orient as int, depth);
                            } else {
                                let k = choose|k: int|
                                    0 <= k < queue_now.len() && (
                                    #[trigger] queue_now[k]).0@.orientation_coordinate() == x;
                                assert(dequeue@[k] == queue_now[k]);
                            }
                        }
                    }
                    assert forall|k: int| 0 <= k < dequeue@.len() implies {
                        &&& (#[trigger] dequeue@[k]).0@ == CubeState::solved().applied(paths[k])
                        &&& is_move_sequence(paths[k])
                        &&& dequeue@[k].1 == paths[k].len() + 1
                        &&& dequeue@[k].1 < UNREACHED
                        &&& table@[dequeue@[k].0@.orientation_coordinate()] == dequeue@[k].1 - 1
                    } by {
                        if k < queue_now.len() {
                            assert(dequeue@[k] == queue_now[k]);
                            lemma_coordinate_in_range(queue_now[k].0@);
                            assert(table_before[queue_now[k].0@.orientation_coordinate()]
                                != UNREACHED);
                            assert(paths[k] == old_paths[k]);
                        } else {
                            assert(dequeue@[k] == (cube, (depth + 1) as u8));
                            assert(paths[k] == path.push(twist));
                            assert(cube@ == CubeState::solved().applied(path.push(twist)));
                        }
                    }
                    assert forall|j: int, k: int| 0 <= j <= k < dequeue@.len() implies (
                    #[trigger] dequeue@[j]).1 <= (#[trigger] dequeue@[k]).1 by {
                        if k < queue_now.len() {
                            assert(dequeue@[j] == queue_now[j]);
                            assert(dequeue@[k] == queue_now[k]);
                        } else if j < queue_now.len() {
                            assert(dequeue@[j] == queue_now[j]);
                        }
                    }
                    assert forall|k: int| 0 <= k < dequeue@.len() implies depth <= (
                    #[trigger] dequeue@[k]).1 <= depth + 1 by {
                        if k < queue_now.len() {
                            assert(dequeue@[k] == queue_now[k]);
                        }
                    }
                }
            }
            proof {
                assert(step(here, Twist::all()[t as int]) == orient);
                assert forall|k: int| 0 <= k < t + 1 implies table@[#[trigger] step(
                    here,
                    Twist::all()[k],
                )] != UNREACHED && table@[step(here, Twist::all()[k])] <= depth by {
                    lemma_coordinate_in_range(here.twisted(Twist::all()[k]));
                    if k < t {
                        assert(table_before[step(here, Twist::all()[k])] != UNREACHED);
                        assert(table@[step(here, Twist::all()[k])] == table_before[step(
                            here,
                            Twist::all()[k],
                        )]);
                    } else {
                        assert(step(here, Twist::all()[k]) == orient);
                        if table_before[orient as int] != UNREACHED {
                            assert(table_before[orient as int] <= depth);
                        }
                    }
                }
            }
            cube.twist(twist.inverse());
            proof {
                lemma_twist_then_inverse(here, twist);
            }
            t += 1;
        }
        proof {
            lemma_close(table@, here, x0, depth);
        }
    }
    proof {
        assert(dequeue@ =~= Seq::<(Cube, u8)>::empty());
        lemma_closed_table_is_exact(table@, level);
    }
    if has_unreached(&table) {
        return None;
    }
    Some(LookupTable(table))
}

/// The solved cube has orientation coordinate 0.
pub proof fn lemma_solved_coordinate()
    ensures
        CubeState::solved().orientation_coordinate() == 0,
{
    let s = CubeState::solved();
    assert(s.corner_digits() =~= seq![0int, 0, 0, 0, 0, 0, 0]);
    assert(s.edge_digits() =~= seq![0int, 0, 0, 0, 0, 0, 0, 0, 0, 0, 0]);
    lemma_zero_digits(s.corner_digits(), 3);
    lemma_zero_digits(s.edge_digits(), 2);
}

/// The number whose digits are all zero is zero.
proof fn lemma_zero_digits(digits: Seq<int>, base: int)
    requires
        forall|i: int| 0 <= i < digits.len() ==> #[trigger] digits[i] == 0,
    ensures
        crate::cube::weighted(digits, base) == 0,
    decreases digits.len(),
{
    if digits.len() > 0 {
        let rest = digits.drop_first();
        assert forall|i: int| 0 <= i < rest.len() implies #[trigger] rest[i] == 0 by {
            assert(rest[i] == digits[i + 1]);
        }
        lemma_zero_digits(digits.drop_first(), base);
    }
}

} // verus!
