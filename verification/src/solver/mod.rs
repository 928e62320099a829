//! The two-phase solver and what it searches with: the goal of each phase,
//! the estimates drawn from the pattern databases, and the iterative
//! deepening search.
pub mod heuristic_laws;
pub mod permutation;
pub mod permutation_laws;
pub mod phase;
pub mod reach_laws;
pub mod storage;
pub mod tables;

pub use self::permutation::encode_permutation;

use self::permutation::{lehmer_rank, lemma_small_factorials};
use self::phase::{
    lemma_dead_end_below, lemma_first_viable_is_chosen, lemma_position, lemma_solves_reaches_goal,
    position, tried_before, Phase,
};
use crate::cube::algs::{lemma_allowed_members, Algorithm, Turn, TurnDir, Twist};
use crate::cube::cubie::{CornerOrientation, EdgeId};
use crate::cube::laws::{lemma_applied_concat, lemma_applied_first, lemma_twist_then_inverse};
use crate::cube::validity::{flip_count, twist_sum};
use crate::cube::{Cube, CubeState};
use vstd::prelude::*;
use vstd::slice::slice_to_vec;

verus! {

/// A pattern database: for each value of a coordinate, a number of twists.
#[derive(Debug)]
pub struct LookupTable(pub Vec<u8>);

impl View for LookupTable {
    type V = Seq<u8>;

    open spec fn view(&self) -> Seq<u8> {
        self.0@
    }
}

/// The number of orientation coordinates, `3^7 * 2^11`.
pub const ORIENTATION_COUNT: usize = 4478976;

/// The number of corner permutations, `8!`.
pub const PERMUTATION_COUNT: usize = 40320;

/// The numbers of the corner cubies, slot by slot.
pub open spec fn corner_ids(s: CubeState) -> Seq<usize> {
    Seq::new(s.corners.len(), |i: int| s.corners[i].id.index() as usize)
}

/// The corner-permutation coordinate: the rank of the permutation of the
/// corner cubies.
pub open spec fn permutation_coordinate(s: CubeState) -> nat {
    lehmer_rank(corner_ids(s))
}

/// Whether an edge cubie belongs to the middle layer.
pub open spec fn is_middle_edge(id: EdgeId) -> bool {
    id == EdgeId::BO || id == EdgeId::BR || id == EdgeId::GR || id == EdgeId::GO
}

/// Whether the cube is in the subgroup that the second phase works in: no
/// edge flipped, no corner twisted, and the four middle-layer slots hold
/// middle-layer edges.
pub open spec fn in_g1(s: CubeState) -> bool {
    &&& forall|i: int| 0 <= i < 12 ==> !(#[trigger] s.edges[i]).flipped
    &&& forall|i: int| 4 <= i < 8 ==> is_middle_edge((#[trigger] s.edges[i]).id)
    &&& forall|i: int|
        0 <= i < 8 ==> (#[trigger] s.corners[i]).orientation == CornerOrientation::Zero
}

/// The larger of two numbers.
pub open spec fn larger(a: int, b: int) -> int {
    if a >= b {
        a
    } else {
        b
    }
}

/// The estimate of the first phase: the largest of a third of the sum of
/// the corner orientations, a third of the number of flipped edges, and the
/// entry of the orientation table for the cube's orientation coordinate.
pub open spec fn g1_estimate(s: CubeState, table: Seq<u8>) -> nat {
    larger(
        larger(twist_sum(s.corners) as int / 3, flip_count(s.edges) as int / 3),
        table[s.orientation_coordinate()] as int,
    ) as nat
}

/// The estimate of the second phase: the entry of the permutation table for
/// the cube's corner-permutation coordinate.
pub open spec fn solved_estimate(s: CubeState, table: Seq<u8>) -> nat {
    table[permutation_coordinate(s) as int] as nat
}

/// The ten twists that keep a cube in the subgroup of the second phase:
/// every turn of `U` and `D`, and the half turns of the side faces.
pub open spec fn g1_moves() -> Seq<Twist> {
    seq![
        Twist { turn: Turn::U, dir: TurnDir::One },
        Twist { turn: Turn::U, dir: TurnDir::Two },
        Twist { turn: Turn::U, dir: TurnDir::Prime },
        Twist { turn: Turn::D, dir: TurnDir::One },
        Twist { turn: Turn::D, dir: TurnDir::Two },
        Twist { turn: Turn::D, dir: TurnDir::Prime },
        Twist { turn: Turn::F, dir: TurnDir::Two },
        Twist { turn: Turn::B, dir: TurnDir::Two },
        Twist { turn: Turn::L, dir: TurnDir::Two },
        Twist { turn: Turn::R, dir: TurnDir::Two },
    ]
}

/// The first phase: reach the subgroup, with all eighteen twists.
pub open spec fn g1_phase(orientation_table: Seq<u8>) -> Phase {
    Phase {
        goal: |s: CubeState| in_g1(s),
        estimate: |s: CubeState| g1_estimate(s, orientation_table),
        moveset: Twist::all(),
    }
}

/// The second phase: reach the solved cube, with the ten twists of the
/// subgroup.
pub open spec fn solved_phase(permutation_table: Seq<u8>) -> Phase {
    Phase {
        goal: |s: CubeState| s == CubeState::solved(),
        estimate: |s: CubeState| solved_estimate(s, permutation_table),
        moveset: g1_moves(),
    }
}

/// A third of the sum of the corner orientations.
pub fn corner_orientation_heuristic(cube: &Cube) -> (h: usize)
    ensures
        h == twist_sum(cube@.corners) / 3,
{
    let mut sum: usize = 0;
    let mut i: usize = 0;
    while i < 8
        invariant
            i <= 8,
            sum == twist_sum(cube@.corners.take(i as int)),
            sum <= 2 * i,
        decreases 8 - i,
    {
        proof {
            assert(cube@.corners.take(i as int + 1).drop_last() =~= cube@.corners.take(i as int));
        }
        sum += cube.corners[i].orientation.value();
        i += 1;
    }
    proof {
        assert(cube@.corners.take(8) =~= cube@.corners);
    }
    sum / 3
}

/// A third of the number of flipped edges.
pub fn edge_orientation_heuristic(cube: &Cube) -> (h: usize)
    ensures
        h == flip_count(cube@.edges) / 3,
{
    let mut sum: usize = 0;
    let mut i: usize = 0;
    while i < 12
        invariant
            i <= 12,
            sum == flip_count(cube@.edges.take(i as int)),
            sum <= i,
        decreases 12 - i,
    {
        proof {
            assert(cube@.edges.take(i as int + 1).drop_last() =~= cube@.edges.take(i as int));
        }
        if cube.edges[i].flipped {
            sum += 1;
        }
        i += 1;
    }
    proof {
        assert(cube@.edges.take(12) =~= cube@.edges);
    }
    sum / 3
}

/// The entry of the orientation table for the cube.
pub fn pattern_heuristic(cube: &Cube, orientation_table: &LookupTable) -> (h: usize)
    requires
        orientation_table@.len() == ORIENTATION_COUNT,
    ensures
        h == orientation_table@[cube@.orientation_coordinate()],
{
    orientation_table.0[cube.get_orientation()] as usize
}

/// The estimate of the first phase.
pub fn g1_heuristic(cube: &Cube, orientation_table: &LookupTable) -> (h: usize)
    requires
        orientation_table@.len() == ORIENTATION_COUNT,
    ensures
        h == g1_estimate(cube@, orientation_table@),
{
    let a = corner_orientation_heuristic(cube);
    let b = edge_orientation_heuristic(cube);
    let c = pattern_heuristic(cube, orientation_table);
    let ab = if a >= b {
        a
    } else {
        b
    };
    if ab >= c {
        ab
    } else {
        c
    }
}

/// The corner-permutation coordinate of the cube, below `8! = 40320`.
pub fn corner_permutation_coordinate(cube: &Cube) -> (coordinate: usize)
    ensures
        coordinate == permutation_coordinate(cube@),
        coordinate < PERMUTATION_COUNT,
{
    let mut ids = [0usize;8];
    let mut i: usize = 0;
    while i < 8
        invariant
            i <= 8,
            forall|k: int| 0 <= k < i ==> ids@[k] == corner_ids(cube@)[k],
        decreases 8 - i,
    {
        ids[i] = cube.corners[i].id.idx();
        i += 1;
    }
    proof {
        assert(ids@ =~= corner_ids(cube@));
        lemma_small_factorials();
    }
    encode_permutation(&ids)
}

/// The estimate of the second phase.
pub fn solved_heuristic(cube: &Cube, permutation_table: &LookupTable) -> (h: usize)
    requires
        permutation_table@.len() == PERMUTATION_COUNT,
    ensures
        h == solved_estimate(cube@, permutation_table@),
{
    let i = corner_permutation_coordinate(cube);
    permutation_table.0[i] as usize
}

/// Whether the cube is in the subgroup that the second phase works in.
pub fn is_g1(cube: &Cube) -> (b: bool)
    ensures
        b == in_g1(cube@),
{
    let mut i: usize = 0;
    while i < 12
        invariant
            i <= 12,
            forall|k: int| 0 <= k < i ==> !(#[trigger] cube@.edges[k]).flipped,
            forall|k: int| 4 <= k < 8 && k < i ==> is_middle_edge((#[trigger] cube@.edges[k]).id),
        decreases 12 - i,
    {
        let edge = cube.edges[i];
        if edge.flipped {
            return false;
        }
        if 4 <= i && i < 8 {
            let middle = match edge.id {
                EdgeId::BO | EdgeId::BR | EdgeId::GR | EdgeId::GO => true,
                _ => false,
            };
            if !middle {
                return false;
            }
        }
        i += 1;
    }
    let mut k: usize = 0;
    while k < 8
        invariant
            k <= 8,
            forall|j: int|
                0 <= j < k ==> (#[trigger] cube@.corners[j]).orientation
                    == CornerOrientation::Zero,
        decreases 8 - k,
    {
        if cube.corners[k].orientation != CornerOrientation::Zero {
            return false;
        }
        k += 1;
    }
    true
}

/// What a phase of the search works with: the test for its goal, its
/// estimate of how far a cube is from the goal, and the twists it may use.
pub struct GroupInfo<C: Fn(&Cube) -> bool, H: Fn(&Cube) -> usize> {
    pub check: C,
    pub heuristic: H,
    pub moveset: Vec<Twist>,
}

impl<C: Fn(&Cube) -> bool, H: Fn(&Cube) -> usize> GroupInfo<C, H> {
    /// The goal test and the estimate can be called on every cube, and what
    /// each returns depends on the cube alone.
    pub open spec fn wf(&self) -> bool {
        &&& forall|c: &Cube| #[trigger] call_requires(self.check, (c,))
        &&& forall|c: &Cube| #[trigger] call_requires(self.heuristic, (c,))
        &&& forall|c: &Cube, a: bool, b: bool|
            #[trigger] call_ensures(self.check, (c,), a) && #[trigger] call_ensures(
                self.check,
                (c,),
                b,
            ) ==> a == b
        &&& forall|c: &Cube, a: usize, b: usize|
            #[trigger] call_ensures(self.heuristic, (c,), a) && #[trigger] call_ensures(
                self.heuristic,
                (c,),
                b,
            ) ==> a == b
    }

    /// The goal test and the estimate can be called on every cube and return
    /// what `phase` says, and the move set is that of `phase`.
    pub open spec fn implements(&self, phase: Phase) -> bool {
        &&& forall|c: &Cube| #[trigger] call_requires(self.check, (c,))
        &&& forall|c: &Cube| #[trigger] call_requires(self.heuristic, (c,))
        &&& forall|c: &Cube, b: bool|
            #[trigger] call_ensures(self.check, (c,), b) ==> b == (phase.goal)(c@)
        &&& forall|c: &Cube, h: usize|
            #[trigger] call_ensures(self.heuristic, (c,), h) ==> h == (phase.estimate)(c@)
        &&& self.moveset@ == phase.moveset
    }

    /// Whether the goal test accepts the cube with state `s`.
    pub open spec fn goal(&self, s: CubeState) -> bool {
        exists|c: Cube| c@ == s && #[trigger] call_ensures(self.check, (&c,), true)
    }

    /// Whether the estimate for the cube with state `s` can be `h`.
    pub open spec fn estimates(&self, s: CubeState, h: usize) -> bool {
        exists|c: Cube| c@ == s && #[trigger] call_ensures(self.heuristic, (&c,), h)
    }

    /// The estimate for the cube with state `s`.
    pub open spec fn estimate(&self, s: CubeState) -> nat {
        (choose|h: usize| self.estimates(s, h)) as nat
    }

    /// The phase as a mathematical value.
    pub open spec fn phase(&self) -> Phase {
        Phase {
            goal: |s: CubeState| self.goal(s),
            estimate: |s: CubeState| self.estimate(s),
            moveset: self.moveset@,
        }
    }

    /// A well-formed descriptor implements its own phase.
    pub proof fn lemma_implements_phase(&self)
        requires
            self.wf(),
        ensures
            self.implements(self.phase()),
    {
        let phase = self.phase();
        assert forall|c: &Cube, b: bool| #[trigger]
            call_ensures(self.check, (c,), b) implies b == (phase.goal)(c@) by {
            if b {
                assert(c@ == c@ && call_ensures(self.check, (&*c,), true));
            } else if self.goal(c@) {
                let d = choose|d: Cube| d@ == c@ && #[trigger] call_ensures(
                    self.check,
                    (&d,),
                    true,
                );
                lemma_cube_is_its_view(d, *c);
            }
        }
        assert forall|c: &Cube, h: usize| #[trigger]
            call_ensures(self.heuristic, (c,), h) implies h == (phase.estimate)(c@) by {
            assert(c@ == c@ && call_ensures(self.heuristic, (&*c,), h));
            assert(self.estimates(c@, h));
            let k = choose|k: usize| self.estimates(c@, k);
            let d = choose|d: Cube| d@ == c@ && #[trigger] call_ensures(self.heuristic, (&d,), k);
            lemma_cube_is_its_view(d, *c);
        }
    }

    /// The twists of the move set whose face may follow `prev`.
    pub fn allowed_moves(&self, prev: Option<Turn>) -> (moves: Vec<Twist>)
        ensures
            moves@ == Twist::allowed(self.moveset@, prev),
    {
        Twist::allowed_moves_from_moveset(self.moveset.as_slice(), prev)
    }
}

/// Two cubes with the same state are the same cube.
pub proof fn lemma_cube_is_its_view(a: Cube, b: Cube)
    requires
        a@ == b@,
    ensures
        a == b,
{
    assert(a.edges =~= b.edges);
    assert(a.corners =~= b.corners);
}

/// The ten twists that keep a cube in the subgroup of the second phase.
pub fn g1_moveset() -> (moves: [Twist; 10])
    ensures
        moves@ == g1_moves(),
{
    [
        Twist::new(Turn::U, TurnDir::One),
        Twist::new(Turn::U, TurnDir::Two),
        Twist::new(Turn::U, TurnDir::Prime),
        Twist::new(Turn::D, TurnDir::One),
        Twist::new(Turn::D, TurnDir::Two),
        Twist::new(Turn::D, TurnDir::Prime),
        Twist::new(Turn::F, TurnDir::Two),
        Twist::new(Turn::B, TurnDir::Two),
        Twist::new(Turn::L, TurnDir::Two),
        Twist::new(Turn::R, TurnDir::Two),
    ]
}

/// How a bounded search ended: at the goal, or with the least cost above
/// the bound that it met.
#[derive(PartialEq, Eq, Structural, Copy, Clone, Debug)]
enum DfsResult {
    Found,
    Excess(usize),
}

/// The twists that a search has added to `before` to give `after`, in the
/// order in which they are made: the search adds the last twist first.
pub open spec fn path_added(before: Seq<Twist>, after: Seq<Twist>) -> Seq<Twist> {
    after.subrange(before.len() as int, after.len() as int).reverse()
}

/// The search below one cube, no deeper than the bound allows. `cube` has
/// been reached by `g` twists, the last of face `prev_turn`. Where a path to
/// the goal costs no more than `bound`, the first such path in the order of
/// the move set is found: its twists are made on `cube` and added to
/// `solution`, last twist first. Otherwise `cube` and `solution` are left
/// as they were, and the result holds the least cost above `bound` that the
/// search met: no path to the goal costs less.
fn dfs<C: Fn(&Cube) -> bool, H: Fn(&Cube) -> usize>(
    cube: &mut Cube,
    g: usize,
    bound: usize,
    prev_turn: Option<Turn>,
    g_info: &GroupInfo<C, H>,
    solution: &mut Vec<Twist>,
    Ghost(phase): Ghost<Phase>,
) -> (r: DfsResult)
    requires
        g_info.implements(phase),
        bound < usize::MAX,
    ensures
        match r {
            DfsResult::Found => {
                let path = path_added(old(solution)@, final(solution)@);
                &&& old(solution)@.is_prefix_of(final(solution)@)
                &&& phase.first_viable(old(cube)@, g as int, bound as int, prev_turn, path)
                &&& final(cube)@ == old(cube)@.applied(path)
            },
            DfsResult::Excess(v) => {
                &&& final(cube)@ == old(cube)@
                &&& final(solution)@ == old(solution)@
                &&& v > bound
                &&& phase.dead_end(old(cube)@, g as int, v - 1, prev_turn)
            },
        },
    decreases bound + 1 - g,
{
    let ghost start = cube@;
    let ghost found = solution@;
    let h = (g_info.heuristic)(&*cube);
    let f = g.saturating_add(h);
    if f > bound {
        proof {
            assert forall|path: Seq<Twist>| !#[trigger] phase.viable(
                start,
                g as int,
                f - 1,
                prev_turn,
                path,
            ) by {
                self::phase::lemma_cost_at_least_here(phase, start, g as int, path);
            }
        }
        return DfsResult::Excess(f);
    }
    if (g_info.check)(&*cube) {
        proof {
            assert(path_added(found, found) =~= Seq::<Twist>::empty());
            assert forall|other: Seq<Twist>| #[trigger]
                phase.viable(start, g as int, bound as int, prev_turn, other) implies other
                == Seq::<Twist>::empty() by {
                self::phase::lemma_goal_needs_no_twist(phase, start, prev_turn, other);
            }
        }
        return DfsResult::Found;
    }
    let mut min_excess = usize::MAX;
    let moves = g_info.allowed_moves(prev_turn);
    let mut i: usize = 0;
    let mut is_found = false;
    while i < moves.len()
        invariant_except_break
            cube@ == start,
            solution@ == found,
            !is_found,
        invariant
            i <= moves.len(),
            g_info.implements(phase),
            g + h <= bound < usize::MAX,
            h == (phase.estimate)(start),
            !(phase.goal)(start),
            start.wf(),
            moves@ == Twist::allowed(phase.moveset, prev_turn),
            min_excess > bound,
            forall|k: int|
                0 <= k < i ==> phase.dead_end(
                    start.twisted(#[trigger] moves@[k]),
                    g + 1,
                    min_excess - 1,
                    Some(moves@[k].turn),
                ),
        ensures
            is_found ==> {
                &&& found.is_prefix_of(solution@)
                &&& phase.first_viable(
                    start,
                    g as int,
                    bound as int,
                    prev_turn,
                    path_added(found, solution@),
                )
                &&& cube@ == start.applied(path_added(found, solution@))
            },
            !is_found ==> cube@ == start && solution@ == found && i == moves.len(),
        decreases moves.len() - i,
    {
        let twist = moves[i];
        cube.twist(twist);
        let t = dfs(cube, g + 1, bound, Some(twist.turn), g_info, solution, Ghost(phase));
        match t {
            DfsResult::Found => {
                let ghost below = path_added(found, solution@);
                let ghost reached = solution@;
                solution.push(twist);
                proof {
                    let path = path_added(found, solution@);
                    let n = found.len() as int;
                    assert(found =~= reached.subrange(0, n));
                    assert(solution@.subrange(n, solution@.len() as int) =~= reached.subrange(
                        n,
                        reached.len() as int,
                    ).push(twist));
                    assert(path =~= seq![twist] + below);
                    assert(path.drop_first() =~= below);
                    assert(path[0] == twist);
                    assert(moves@[i as int] == twist);
                    assert(moves@.contains(twist));
                    lemma_allowed_members(phase.moveset, prev_turn, twist);
                    lemma_applied_first(start, path);
                    assert(phase.solves(start, prev_turn, path));
                    assert(phase.cost(start, g as int, path) <= bound);
                    assert(found =~= solution@.subrange(0, n));
                    assert forall|other: Seq<Twist>| #[trigger]
                        phase.viable(start, g as int, bound as int, prev_turn, other) implies other
                        == path || tried_before(phase.moveset, prev_turn, path, other) by {
                        // no twist before this one leads anywhere, so every
                        // other path starts with this twist or a later one
                        let first = other[0];
                        lemma_allowed_members(phase.moveset, prev_turn, first);
                        lemma_position(moves@, first);
                        lemma_position(moves@, twist);
                        let j = position(moves@, first);
                        let at = position(moves@, twist);
                        assert(phase.viable(
                            start.twisted(first),
                            g + 1,
                            bound as int,
                            Some(first.turn),
                            other.drop_first(),
                        ));
                        if j < i {
                            lemma_dead_end_below(
                                phase,
                                start.twisted(moves@[j]),
                                g + 1,
                                min_excess - 1,
                                bound as int,
                                Some(moves@[j].turn),
                            );
                        }
                        if at < i {
                            lemma_dead_end_below(
                                phase,
                                start.twisted(moves@[at]),
                                g + 1,
                                min_excess - 1,
                                bound as int,
                                Some(moves@[at].turn),
                            );
                            assert(phase.viable(
                                start.twisted(twist),
                                g + 1,
                                bound as int,
                                Some(twist.turn),
                                below,
                            ));
                        }
                        assert(at == i);
                        if first == twist {
                            assert(other.drop_first() == below || tried_before(
                                phase.moveset,
                                Some(twist.turn),
                                below,
                                other.drop_first(),
                            ));
                            if other.drop_first() == below {
                                assert(other =~= path);
                            }
                        }
                    }
                }
                is_found = true;
                break ;
            },
            DfsResult::Excess(v) => {
                if v < min_excess {
                    proof {
                        assert forall|k: int| 0 <= k < i implies phase.dead_end(
                            start.twisted(#[trigger] moves@[k]),
                            g + 1,
                            v - 1,
                            Some(moves@[k].turn),
                        ) by {
                            lemma_dead_end_below(
                                phase,
                                start.twisted(moves@[k]),
                                g + 1,
                                min_excess - 1,
                                v - 1,
                                Some(moves@[k].turn),
                            );
                        }
                    }
                    min_excess = v;
                } else {
                    proof {
                        lemma_dead_end_below(
                            phase,
                            start.twisted(twist),
                            g + 1,
                            v - 1,
                            min_excess - 1,
                            Some(twist.turn),
                        );
                    }
                }
            },
        }
        cube.twist(twist.inverse());
        proof {
            lemma_twist_then_inverse(start, twist);
        }
        i += 1;
    }
    if is_found {
        return DfsResult::Found;
    }
    proof {
        assert forall|path: Seq<Twist>| !#[trigger] phase.viable(
            start,
            g as int,
            min_excess - 1,
            prev_turn,
            path,
        ) by {
            if phase.viable(start, g as int, min_excess - 1, prev_turn, path) {
                let first = path[0];
                lemma_allowed_members(phase.moveset, prev_turn, first);
                let k = choose|k: int| 0 <= k < moves@.len() && moves@[k] == first;
                assert(phase.dead_end(
                    start.twisted(moves@[k]),
                    g + 1,
                    min_excess - 1,
                    Some(moves@[k].turn),
                ));
                assert(phase.viable(
                    start.twisted(first),
                    g + 1,
                    min_excess - 1,
                    Some(first.turn),
                    path.drop_first(),
                ));
            }
        }
    }
    DfsResult::Excess(min_excess)
}

/// The twists of `v` in reverse order.
fn reversed(v: &Vec<Twist>) -> (r: Vec<Twist>)
    ensures
        r@ == v@.reverse(),
{
    let mut r: Vec<Twist> = Vec::new();
    let mut i: usize = v.len();
    while i > 0
        invariant
            i <= v.len(),
            r@.len() == v.len() - i,
            forall|k: int| 0 <= k < r@.len() ==> r@[k] == v@[v.len() - 1 - k],
        decreases i,
    {
        i -= 1;
        r.push(v[i]);
    }
    assert(r@ =~= v@.reverse());
    r
}

/// The search of one phase for a descriptor that implements `phase`:
/// bounded searches with a bound that starts at the estimate for `cube` and
/// rises to the least cost that the search before met above it.
fn search<C: Fn(&Cube) -> bool, H: Fn(&Cube) -> usize>(
    cube: &mut Cube,
    g_info: &GroupInfo<C, H>,
    Ghost(phase): Ghost<Phase>,
) -> (r: Option<Algorithm>)
    requires
        g_info.implements(phase),
    ensures
        match r {
            Some(alg) => {
                &&& phase.chosen(old(cube)@, alg@)
                &&& final(cube)@ == old(cube)@.applied(alg@)
                &&& (phase.goal)(final(cube)@)
            },
            None => final(cube)@ == old(cube)@,
        },
        r is None <==> phase.out_of_reach(old(cube)@) && !(phase.goal)(old(cube)@),
        (phase.goal)(old(cube)@) ==> (r matches Some(alg) && alg@ == Seq::<Twist>::empty()),
{
    let ghost start = cube@;
    let first = (g_info.heuristic)(&*cube);
    if first == usize::MAX {
        proof {
            assert forall|path: Seq<Twist>| !#[trigger] phase.viable(
                start,
                0,
                usize::MAX - 1,
                None,
                path,
            ) by {
                self::phase::lemma_cost_at_least_here(phase, start, 0, path);
            }
        }
        if (g_info.check)(&*cube) {
            proof {
                assert forall|other: Seq<Twist>| #[trigger]
                    phase.cheapest(start, other) implies other == Seq::<Twist>::empty() by {
                    self::phase::lemma_goal_needs_no_twist(phase, start, None, other);
                }
            }
            return Some(Algorithm::new(Vec::new()));
        }
        return None;
    }
    let mut bound = first;
    let mut solution: Vec<Twist> = Vec::new();
    proof {
        assert forall|path: Seq<Twist>| !#[trigger] phase.viable(
            start,
            0,
            bound - 1,
            None,
            path,
        ) by {
            self::phase::lemma_cost_at_least_here(phase, start, 0, path);
        }
    }
    let mut is_found = false;
    loop
        invariant_except_break
            cube@ == start,
            solution@ == Seq::<Twist>::empty(),
            !is_found,
        invariant
            g_info.implements(phase),
            bound < usize::MAX,
            phase.dead_end(start, 0, bound - 1, None),
        ensures
            is_found ==> {
                &&& phase.first_viable(start, 0, bound as int, None, solution@.reverse())
                &&& cube@ == start.applied(solution@.reverse())
            },
            !is_found ==> cube@ == start && phase.out_of_reach(start),
        decreases usize::MAX - bound,
    {
        let result = dfs(cube, 0, bound, None, g_info, &mut solution, Ghost(phase));
        match result {
            DfsResult::Found => {
                proof {
                    assert(solution@.reverse() =~= path_added(Seq::<Twist>::empty(), solution@))
                        by {
                        assert(solution@.subrange(0, solution@.len() as int) =~= solution@);
                    }
                }
                is_found = true;
                break ;
            },
            DfsResult::Excess(v) => {
                if v == usize::MAX {
                    break ;
                }
                bound = v;
            },
        }
    }
    if !is_found {
        proof {
            if (phase.goal)(start) {
                assert(phase.viable(start, 0, usize::MAX - 1, None, Seq::<Twist>::empty()));
            }
        }
        return None;
    }
    let twists = reversed(&solution);
    proof {
        let path = twists@;
        lemma_solves_reaches_goal(phase, start, None, path);
        lemma_first_viable_is_chosen(phase, start, bound as int, path);
        self::phase::lemma_goal_needs_no_twist(phase, start, None, path);
        assert(phase.viable(start, 0, usize::MAX - 1, None, path));
    }
    Some(Algorithm::new(twists))
}

/// The search of one phase: iterative deepening on the cost of a path, from
/// the estimate for `cube` upwards. A path is found where `cube` is at the
/// goal or some path to the goal costs less than `usize::MAX`. It is a
/// cheapest path, and of the cheapest paths the one that takes the earliest
/// twist of the move set wherever they part; its twists have been made on
/// `cube`, which is then at the goal. Where no path is found, `cube` is as
/// it was.
pub fn group_solver<C: Fn(&Cube) -> bool, H: Fn(&Cube) -> usize>(
    cube: &mut Cube,
    g_info: &GroupInfo<C, H>,
) -> (r: Option<Algorithm>)
    requires
        g_info.wf(),
    ensures
        match r {
            Some(alg) => {
                &&& g_info.phase().chosen(old(cube)@, alg@)
                &&& final(cube)@ == old(cube)@.applied(alg@)
                &&& g_info.goal(final(cube)@)
            },
            None => final(cube)@ == old(cube)@,
        },
        r is None <==> g_info.phase().out_of_reach(old(cube)@) && !g_info.goal(old(cube)@),
        g_info.goal(old(cube)@) ==> (r matches Some(alg) && alg@ == Seq::<Twist>::empty()),
{
    proof {
        g_info.lemma_implements_phase();
    }
    search(cube, g_info, Ghost(g_info.phase()))
}

/// Whether the first `k` twists of `alg` are the path that the first phase
/// settles on from `s`, and the rest the path that the second phase settles
/// on from where they lead.
pub open spec fn splits_into_phases(
    orientation_table: Seq<u8>,
    permutation_table: Seq<u8>,
    s: CubeState,
    alg: Seq<Twist>,
    k: int,
) -> bool {
    &&& 0 <= k <= alg.len()
    &&& g1_phase(orientation_table).chosen(s, alg.take(k))
    &&& solved_phase(permutation_table).chosen(s.applied(alg.take(k)), alg.skip(k))
}

/// Between the two phases the cube is in the subgroup: the twists of the
/// first phase alone lead there.
pub proof fn lemma_phases_meet_in_subgroup(
    orientation_table: Seq<u8>,
    permutation_table: Seq<u8>,
    s: CubeState,
    alg: Seq<Twist>,
    k: int,
)
    requires
        splits_into_phases(orientation_table, permutation_table, s, alg, k),
    ensures
        in_g1(s.applied(alg.take(k))),
{
    lemma_solves_reaches_goal(g1_phase(orientation_table), s, None, alg.take(k));
}

/// Whether `first` is the path that the first phase settles on from `s`,
/// after which the second phase finds the solved cube out of reach.
pub open spec fn stops_after_first_phase(
    orientation_table: Seq<u8>,
    permutation_table: Seq<u8>,
    s: CubeState,
    first: Seq<Twist>,
) -> bool {
    &&& g1_phase(orientation_table).chosen(s, first)
    &&& solved_phase(permutation_table).out_of_reach(s.applied(first))
}

/// Solves the cube in two phases: first into the subgroup, with all
/// eighteen twists and the orientation table; then to the solved cube, with
/// the ten twists of the subgroup and the permutation table. The result is
/// the twists of both phases, of each the path that its search settles on,
/// and `cube` is solved. Where a phase finds its goal out of reach, the
/// result is `None`, and `cube` is as that phase met it.
pub fn solver(
    cube: &mut Cube,
    orientation_table: &LookupTable,
    permutation_table: &LookupTable,
) -> (r: Option<Algorithm>)
    requires
        orientation_table@.len() == ORIENTATION_COUNT,
        permutation_table@.len() == PERMUTATION_COUNT,
    ensures
        match r {
            Some(alg) => {
                &&& exists|k: int| #[trigger]
                    splits_into_phases(
                        orientation_table@,
                        permutation_table@,
                        old(cube)@,
                        alg@,
                        k,
                    )
                &&& final(cube)@ == old(cube)@.applied(alg@)
                &&& final(cube)@ == CubeState::solved()
            },
            None => {
                ||| final(cube)@ == old(cube)@ && g1_phase(orientation_table@).out_of_reach(
                    old(cube)@,
                )
                ||| exists|first: Seq<Twist>|
                    final(cube)@ == old(cube)@.applied(first) && #[trigger] stops_after_first_phase(
                        orientation_table@,
                        permutation_table@,
                        old(cube)@,
                        first,
                    )
            },
        },
{
    let ghost start = cube@;
    let ghost phase1 = g1_phase(orientation_table@);
    let ghost phase2 = solved_phase(permutation_table@);
    let all = Twist::all_twists();
    let g1_estimator = |c: &Cube| -> (h: usize)
        ensures
            h == g1_estimate(c@, orientation_table@),
        { g1_heuristic(c, orientation_table) };
    let g1_info = GroupInfo {
        check: is_g1,
        heuristic: g1_estimator,
        moveset: slice_to_vec(all.as_slice()),
    };
    let found = search(cube, &g1_info, Ghost(phase1));
    let mut alg = match found {
        Some(alg) => alg,
        None => {
            return None;
        },
    };
    let ghost first = alg@;
    let moves = g1_moveset();
    let solved_estimator = |c: &Cube| -> (h: usize)
        ensures
            h == solved_estimate(c@, permutation_table@),
        { solved_heuristic(c, permutation_table) };
    let solved_test = |c: &Cube| -> (b: bool)
        ensures
            b == (c@ == CubeState::solved()),
        { c.is_solved() };
    let solved_info = GroupInfo {
        check: solved_test,
        heuristic: solved_estimator,
        moveset: slice_to_vec(moves.as_slice()),
    };
    let found2 = search(cube, &solved_info, Ghost(phase2));
    let mut alg2 = match found2 {
        Some(alg2) => alg2,
        None => {
            proof {
                assert(stops_after_first_phase(
                    orientation_table@,
                    permutation_table@,
                    start,
                    first,
                ));
            }
            return None;
        },
    };
    let ghost second = alg2@;
    alg.append(&mut alg2);
    proof {
        let k = first.len() as int;
        assert(alg@.take(k) =~= first);
        assert(alg@.skip(k) =~= second);
        lemma_applied_concat(start, first, second);
        assert(splits_into_phases(orientation_table@, permutation_table@, start, alg@, k));
    }
    Some(alg)
}

} // verus!
