//! What a phase of the search looks for: the paths that reach its goal, and
//! what they cost.
use crate::cube::algs::{Turn, Twist};
use crate::cube::laws::lemma_applied_first;
use crate::cube::CubeState;
use vstd::prelude::*;

verus! {

/// A phase of the search as a mathematical value: which cubes are at the
/// goal, the estimate of how far a cube is from it, and the twists that may
/// be used.
pub struct Phase {
    pub goal: spec_fn(CubeState) -> bool,
    pub estimate: spec_fn(CubeState) -> nat,
    pub moveset: Seq<Twist>,
}

/// The place of the first `t` in `moves`, or the length of `moves` where it
/// holds no `t`.
pub open spec fn position(moves: Seq<Twist>, t: Twist) -> int
    decreases moves.len(),
{
    if moves.len() == 0 || moves[0] == t {
        0
    } else {
        1 + position(moves.drop_first(), t)
    }
}

/// Whether the search tries path `p` before path `q`, from a cube reached by
/// a twist of face `prev`: where the two part, the twist of `p` comes before
/// that of `q` among the twists of `moveset` that are allowed there.
pub open spec fn tried_before(
    moveset: Seq<Twist>,
    prev: Option<Turn>,
    p: Seq<Twist>,
    q: Seq<Twist>,
) -> bool
    decreases p.len(),
{
    &&& p.len() > 0
    &&& q.len() > 0
    &&& {
        let moves = Twist::allowed(moveset, prev);
        ||| position(moves, p[0]) < position(moves, q[0])
        ||| p[0] == q[0] && tried_before(moveset, Some(p[0].turn), p.drop_first(), q.drop_first())
    }
}

/// The first `t` stands at its position, and no `t` before it.
pub proof fn lemma_position(moves: Seq<Twist>, t: Twist)
    ensures
        0 <= position(moves, t) <= moves.len(),
        forall|k: int| 0 <= k < position(moves, t) ==> #[trigger] moves[k] != t,
        position(moves, t) < moves.len() ==> moves[position(moves, t)] == t,
        moves.contains(t) ==> position(moves, t) < moves.len(),
    decreases moves.len(),
{
    if moves.len() == 0 || moves[0] == t {
    } else {
        let rest = moves.drop_first();
        lemma_position(rest, t);
        assert forall|k: int| 0 <= k < position(moves, t) implies #[trigger] moves[k] != t by {
            if k > 0 {
                assert(rest[k - 1] == moves[k]);
            }
        }
        if moves.contains(t) {
            let i = choose|i: int| 0 <= i < moves.len() && moves[i] == t;
            assert(rest[i - 1] == t);
        }
    }
}

impl Phase {
    /// Whether `path` is a path of the search from cube `s`, reached by a
    /// twist of face `prev`, to the goal: `s` is at the goal and the path
    /// is empty, or `s` is not at the goal, the first twist is one of the
    /// move set whose face may follow `prev`, and the rest is such a path
    /// from the cube that the first twist gives.
    pub open spec fn solves(self, s: CubeState, prev: Option<Turn>, path: Seq<Twist>) -> bool
        decreases path.len(),
    {
        if path.len() == 0 {
            (self.goal)(s)
        } else {
            &&& !(self.goal)(s)
            &&& self.moveset.contains(path[0])
            &&& Turn::may_follow(prev, path[0].turn)
            &&& self.solves(s.twisted(path[0]), Some(path[0].turn), path.drop_first())
        }
    }

    /// The cost of `path` from cube `s`, reached after `g` twists: the
    /// largest sum, over the cubes on the path, of the number of twists made
    /// so far and the estimate for that cube.
    pub open spec fn cost(self, s: CubeState, g: int, path: Seq<Twist>) -> int
        decreases path.len(),
    {
        let here = g + (self.estimate)(s);
        if path.len() == 0 {
            here
        } else {
            let later = self.cost(s.twisted(path[0]), g + 1, path.drop_first());
            if here >= later {
                here
            } else {
                later
            }
        }
    }

    /// Whether `path` is a path to the goal that costs no more than `bound`.
    pub open spec fn viable(
        self,
        s: CubeState,
        g: int,
        bound: int,
        prev: Option<Turn>,
        path: Seq<Twist>,
    ) -> bool {
        self.solves(s, prev, path) && self.cost(s, g, path) <= bound
    }

    /// No path to the goal costs as little as `bound`.
    pub open spec fn dead_end(self, s: CubeState, g: int, bound: int, prev: Option<Turn>) -> bool {
        forall|path: Seq<Twist>| !#[trigger] self.viable(s, g, bound, prev, path)
    }

    /// Whether `path` is the path that the search finds within `bound`:
    /// the one that costs no more than `bound` and is tried before every
    /// other that does.
    pub open spec fn first_viable(
        self,
        s: CubeState,
        g: int,
        bound: int,
        prev: Option<Turn>,
        path: Seq<Twist>,
    ) -> bool {
        &&& self.viable(s, g, bound, prev, path)
        &&& forall|other: Seq<Twist>| #[trigger]
            self.viable(s, g, bound, prev, other) ==> other == path || tried_before(
                self.moveset,
                prev,
                path,
                other,
            )
    }

    /// Whether `path` is the path that the search settles on from `s`: a
    /// cheapest path to the goal, and the one tried before every other.
    pub open spec fn chosen(self, s: CubeState, path: Seq<Twist>) -> bool {
        &&& self.cheapest(s, path)
        &&& forall|other: Seq<Twist>| #[trigger]
            self.cheapest(s, other) ==> other == path || tried_before(
                self.moveset,
                None,
                path,
                other,
            )
    }

    /// Whether `path` is a cheapest path to the goal from `s`, with no twist
    /// made before.
    pub open spec fn cheapest(self, s: CubeState, path: Seq<Twist>) -> bool {
        &&& self.solves(s, None, path)
        &&& self.dead_end(s, 0, self.cost(s, 0, path) - 1, None)
    }

    /// No path to the goal from `s` costs less than the largest number that
    /// the search can count to.
    pub open spec fn out_of_reach(self, s: CubeState) -> bool {
        self.dead_end(s, 0, usize::MAX - 1, None)
    }
}

/// A path to the goal ends at the goal.
pub proof fn lemma_solves_reaches_goal(
    phase: Phase,
    s: CubeState,
    prev: Option<Turn>,
    path: Seq<Twist>,
)
    requires
        phase.solves(s, prev, path),
    ensures
        (phase.goal)(s.applied(path)),
    decreases path.len(),
{
    if path.len() > 0 {
        lemma_applied_first(s, path);
        lemma_solves_reaches_goal(
            phase,
            s.twisted(path[0]),
            Some(path[0].turn),
            path.drop_first(),
        );
    }
}

/// From a cube at the goal the only path to the goal is the empty one.
pub proof fn lemma_goal_needs_no_twist(
    phase: Phase,
    s: CubeState,
    prev: Option<Turn>,
    path: Seq<Twist>,
)
    requires
        phase.solves(s, prev, path),
    ensures
        (phase.goal)(s) ==> path == Seq::<Twist>::empty(),
{
    if (phase.goal)(s) {
        assert(path =~= Seq::<Twist>::empty());
    }
}

/// A path costs at least the number of twists made before it plus the
/// estimate for the cube it starts from.
pub proof fn lemma_cost_at_least_here(phase: Phase, s: CubeState, g: int, path: Seq<Twist>)
    ensures
        phase.cost(s, g, path) >= g + (phase.estimate)(s),
{
}

/// Where nothing is viable within a bound, nothing is viable within a
/// smaller one.
pub proof fn lemma_dead_end_below(
    phase: Phase,
    s: CubeState,
    g: int,
    bound: int,
    smaller: int,
    prev: Option<Turn>,
)
    requires
        phase.dead_end(s, g, bound, prev),
        smaller <= bound,
    ensures
        phase.dead_end(s, g, smaller, prev),
{
    assert forall|path: Seq<Twist>| !#[trigger] phase.viable(s, g, smaller, prev, path) by {
        assert(!phase.viable(s, g, bound, prev, path));
    }
}

/// A cheapest path costs no more than any other path to the goal.
pub proof fn lemma_cheapest_is_cheapest(
    phase: Phase,
    s: CubeState,
    path: Seq<Twist>,
    other: Seq<Twist>,
)
    requires
        phase.cheapest(s, path),
        phase.solves(s, None, other),
    ensures
        phase.cost(s, 0, path) <= phase.cost(s, 0, other),
{
    if phase.cost(s, 0, other) < phase.cost(s, 0, path) {
        assert(phase.viable(s, 0, phase.cost(s, 0, path) - 1, None, other));
    }
}

/// Of two paths at most one is tried before the other.
pub proof fn lemma_tried_before_one_way(
    moveset: Seq<Twist>,
    prev: Option<Turn>,
    p: Seq<Twist>,
    q: Seq<Twist>,
)
    requires
        tried_before(moveset, prev, p, q),
    ensures
        !tried_before(moveset, prev, q, p),
    decreases p.len(),
{
    if p[0] == q[0] {
        lemma_tried_before_one_way(moveset, Some(p[0].turn), p.drop_first(), q.drop_first());
    }
}

/// The search settles on one path only.
pub proof fn lemma_chosen_is_unique(phase: Phase, s: CubeState, p: Seq<Twist>, q: Seq<Twist>)
    requires
        phase.chosen(s, p),
        phase.chosen(s, q),
    ensures
        p == q,
{
    if p != q {
        assert(phase.cheapest(s, p) && phase.cheapest(s, q));
        lemma_tried_before_one_way(phase.moveset, None, p, q);
    }
}

/// Where a path is the first within a bound below which nothing is viable,
/// it is the path that the search settles on.
pub proof fn lemma_first_viable_is_chosen(phase: Phase, s: CubeState, bound: int, path: Seq<Twist>)
    requires
        phase.first_viable(s, 0, bound, None, path),
        phase.dead_end(s, 0, bound - 1, None),
    ensures
        phase.chosen(s, path),
{
    assert(!phase.viable(s, 0, bound - 1, None, path));
    lemma_dead_end_below(phase, s, 0, bound - 1, phase.cost(s, 0, path) - 1, None);
    assert forall|other: Seq<Twist>| #[trigger] phase.cheapest(s, other) implies other == path
        || tried_before(phase.moveset, None, path, other) by {
        assert(!phase.viable(s, 0, phase.cost(s, 0, other) - 1, None, path));
        assert(phase.viable(s, 0, bound, None, other));
    }
}

} // verus!
