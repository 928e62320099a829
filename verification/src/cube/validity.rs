//! What twists never change: the cubies stay the same twelve edges and
//! eight corners, the corner twists add up to a multiple of three, the
//! number of flipped edges stays even, and the edges are arranged with the
//! same parity as the corners.
use super::algs::{Turn, TurnDir, Twist};
use super::cubie::{Corner, Edge};
use super::laws::{
    corner_source, edge_source, lemma_ring_turned_slotwise, lemma_sources_differ,
    lemma_twisted_slotwise, ring_within,
};
use super::parity::{
    all_distinct, is_odd, lemma_counting_up_is_even, lemma_ring_turned_parity,
};
use super::{
    all_differ, corner_ring, corner_slots, edge_ring, edge_slots, ring_flipped, ring_turned,
    ring_twisted, CubeState,
};
use vstd::prelude::*;

verus! {

/// The sum of the corner orientations, in clockwise thirds.
pub open spec fn twist_sum(corners: Seq<Corner>) -> nat
    decreases corners.len(),
{
    if corners.len() == 0 {
        0
    } else {
        twist_sum(corners.drop_last()) + corners.last().orientation.thirds() as nat
    }
}

/// The number of flipped edges.
pub open spec fn flip_count(edges: Seq<Edge>) -> nat
    decreases edges.len(),
{
    if edges.len() == 0 {
        0
    } else {
        flip_count(edges.drop_last()) + if edges.last().flipped {
            1nat
        } else {
            0nat
        }
    }
}

/// The numbers of the edge cubies, slot by slot.
pub open spec fn edge_numbers(s: CubeState) -> Seq<int> {
    Seq::new(s.edges.len(), |i: int| s.edges[i].id.index())
}

/// The numbers of the corner cubies, slot by slot.
pub open spec fn corner_numbers(s: CubeState) -> Seq<int> {
    Seq::new(s.corners.len(), |i: int| s.corners[i].id.index())
}

impl CubeState {
    /// Whether no edge cubie and no corner cubie is there twice.
    pub open spec fn has_distinct_cubies(self) -> bool {
        &&& forall|i: int, j: int|
            0 <= i < j < self.edges.len() ==> (#[trigger] self.edges[i]).id != (
            #[trigger] self.edges[j]).id
        &&& forall|i: int, j: int|
            0 <= i < j < self.corners.len() ==> (#[trigger] self.corners[i]).id != (
            #[trigger] self.corners[j]).id
    }

    /// Whether the orientations are such as twists of a solved cube give:
    /// the corner twists add up to a multiple of three, and the number of
    /// flipped edges is even.
    pub open spec fn is_oriented(self) -> bool {
        twist_sum(self.corners) % 3 == 0 && flip_count(self.edges) % 2 == 0
    }

    /// Whether the arrangement of the edges and that of the corners are
    /// both even or both odd.
    pub open spec fn has_matching_parities(self) -> bool {
        is_odd(edge_numbers(self)) == is_odd(corner_numbers(self))
    }

    /// Whether the cube keeps what twists never change.
    pub open spec fn is_legal(self) -> bool {
        &&& self.wf()
        &&& self.has_distinct_cubies()
        &&& self.is_oriented()
        &&& self.has_matching_parities()
    }
}

/// Putting another corner into a slot changes the sum by the difference of
/// the two orientations.
proof fn lemma_twist_sum_update(c: Seq<Corner>, i: int, v: Corner)
    requires
        0 <= i < c.len(),
    ensures
        twist_sum(c.update(i, v)) == twist_sum(c) - c[i].orientation.thirds()
            + v.orientation.thirds(),
    decreases c.len(),
{
    if i == c.len() - 1 {
        assert(c.update(i, v).drop_last() =~= c.drop_last());
    } else {
        assert(c.update(i, v).drop_last() =~= c.drop_last().update(i, v));
        lemma_twist_sum_update(c.drop_last(), i, v);
    }
}

/// Putting another edge into a slot changes the count by the difference of
/// the two flips.
proof fn lemma_flip_count_update(e: Seq<Edge>, i: int, v: Edge)
    requires
        0 <= i < e.len(),
    ensures
        flip_count(e.update(i, v)) == flip_count(e) - bit(e[i]) + bit(v),
    decreases e.len(),
{
    if i == e.len() - 1 {
        assert(e.update(i, v).drop_last() =~= e.drop_last());
    } else {
        assert(e.update(i, v).drop_last() =~= e.drop_last().update(i, v));
        lemma_flip_count_update(e.drop_last(), i, v);
    }
}

/// 1 for a flipped edge, 0 for another.
spec fn bit(e: Edge) -> int {
    if e.flipped {
        1
    } else {
        0
    }
}

/// The sum after four slots have been filled anew, one after the other.
proof fn lemma_twist_sum_four_updates(
    s: Seq<Corner>,
    ring: (int, int, int, int),
    w: Corner,
    x: Corner,
    y: Corner,
    z: Corner,
)
    requires
        all_differ(ring),
        ring_within(ring, s.len()),
    ensures
        twist_sum(s.update(ring.0, w).update(ring.1, x).update(ring.2, y).update(ring.3, z))
            == twist_sum(s) - s[ring.0].orientation.thirds() - s[ring.1].orientation.thirds()
            - s[ring.2].orientation.thirds() - s[ring.3].orientation.thirds()
            + w.orientation.thirds() + x.orientation.thirds() + y.orientation.thirds()
            + z.orientation.thirds(),
{
    let (a, b, c, d) = ring;
    let s1 = s.update(a, w);
    let s2 = s1.update(b, x);
    let s3 = s2.update(c, y);
    lemma_twist_sum_update(s, a, w);
    lemma_twist_sum_update(s1, b, x);
    lemma_twist_sum_update(s2, c, y);
    lemma_twist_sum_update(s3, d, z);
}

/// The count after four slots have been filled anew, one after the other.
proof fn lemma_flip_count_four_updates(
    s: Seq<Edge>,
    ring: (int, int, int, int),
    w: Edge,
    x: Edge,
    y: Edge,
    z: Edge,
)
    requires
        all_differ(ring),
        ring_within(ring, s.len()),
    ensures
        flip_count(s.update(ring.0, w).update(ring.1, x).update(ring.2, y).update(ring.3, z))
            == flip_count(s) - bit(s[ring.0]) - bit(s[ring.1]) - bit(s[ring.2]) - bit(s[ring.3])
            + bit(w) + bit(x) + bit(y) + bit(z),
{
    let (a, b, c, d) = ring;
    let s1 = s.update(a, w);
    let s2 = s1.update(b, x);
    let s3 = s2.update(c, y);
    lemma_flip_count_update(s, a, w);
    lemma_flip_count_update(s1, b, x);
    lemma_flip_count_update(s2, c, y);
    lemma_flip_count_update(s3, d, z);
}

/// Carrying the corners of a ring round leaves the sum of the twists.
proof fn lemma_ring_turned_twist_sum(s: Seq<Corner>, ring: (int, int, int, int), dir: TurnDir)
    requires
        all_differ(ring),
        ring_within(ring, s.len()),
    ensures
        twist_sum(ring_turned(s, ring, dir)) == twist_sum(s),
{
    let (a, b, c, d) = ring;
    match dir {
        TurnDir::Identity => {},
        TurnDir::One => {
            lemma_twist_sum_four_updates(s, (b, c, d, a), s[a], s[b], s[c], s[d]);
        },
        TurnDir::Two => {
            lemma_twist_sum_four_updates(s, (a, c, b, d), s[c], s[a], s[d], s[b]);
        },
        TurnDir::Prime => {
            lemma_twist_sum_four_updates(s, (c, b, a, d), s[d], s[c], s[b], s[a]);
        },
    }
}

/// Carrying the edges of a ring round leaves the number of flips.
proof fn lemma_ring_turned_flip_count(s: Seq<Edge>, ring: (int, int, int, int), dir: TurnDir)
    requires
        all_differ(ring),
        ring_within(ring, s.len()),
    ensures
        flip_count(ring_turned(s, ring, dir)) == flip_count(s),
{
    let (a, b, c, d) = ring;
    match dir {
        TurnDir::Identity => {},
        TurnDir::One => {
            lemma_flip_count_four_updates(s, (b, c, d, a), s[a], s[b], s[c], s[d]);
        },
        TurnDir::Two => {
            lemma_flip_count_four_updates(s, (a, c, b, d), s[c], s[a], s[d], s[b]);
        },
        TurnDir::Prime => {
            lemma_flip_count_four_updates(s, (c, b, a, d), s[d], s[c], s[b], s[a]);
        },
    }
}

/// How much more a corner is twisted after `n` more thirds, less `n`: 0, or
/// -3 where the twists wrap round.
#[verifier::opaque]
spec fn wrap(c: Corner, n: int) -> int {
    c.twisted_by(n).orientation.thirds() - c.orientation.thirds() - n
}

/// Twisting a corner by one or two thirds more wraps round at most once.
proof fn lemma_wrap(c: Corner, n: int)
    requires
        n == 1 || n == 2,
    ensures
        wrap(c, n) == 0 || wrap(c, n) == -3,
        c.twisted_by(n).orientation.thirds() == c.orientation.thirds() + n + wrap(c, n),
{
    reveal(wrap);
}

/// Adding six and taking threes away leaves the remainder by three.
proof fn lemma_threes(before: int, after: int, w: int)
    requires
        after == before + 6 + w,
        w == 0 || w == -3 || w == -6 || w == -9 || w == -12,
    ensures
        after % 3 == before % 3,
{
}

/// Adding or taking away twos leaves the remainder by two.
proof fn lemma_twos(before: int, after: int, w: int)
    requires
        after == before + w,
        w == 4 || w == 2 || w == 0 || w == -2 || w == -4,
    ensures
        after % 2 == before % 2,
{
}

/// Twisting the corners of a ring changes the sum by a multiple of three.
proof fn lemma_ring_twisted_twist_sum(s: Seq<Corner>, ring: (int, int, int, int))
    requires
        all_differ(ring),
        ring_within(ring, s.len()),
    ensures
        twist_sum(ring_twisted(s, ring)) % 3 == twist_sum(s) % 3,
{
    let (a, b, c, d) = ring;
    let ta = s[a].twisted_by(2);
    let tb = s[b].twisted_by(1);
    let tc = s[c].twisted_by(2);
    let td = s[d].twisted_by(1);
    lemma_twist_sum_four_updates(s, ring, ta, tb, tc, td);
    lemma_wrap(s[a], 2);
    lemma_wrap(s[b], 1);
    lemma_wrap(s[c], 2);
    lemma_wrap(s[d], 1);
    let before = twist_sum(s) as int;
    let after = twist_sum(s.update(a, ta).update(b, tb).update(c, tc).update(d, td)) as int;
    let w = wrap(s[a], 2) + wrap(s[b], 1) + wrap(s[c], 2) + wrap(s[d], 1);
    lemma_threes(before, after, w);
}

/// Turning the edges of a ring over changes the count by an even number.
proof fn lemma_ring_flipped_flip_count(s: Seq<Edge>, ring: (int, int, int, int))
    requires
        all_differ(ring),
        ring_within(ring, s.len()),
    ensures
        flip_count(ring_flipped(s, ring)) % 2 == flip_count(s) % 2,
{
    let (a, b, c, d) = ring;
    lemma_flip_count_four_updates(
        s,
        ring,
        s[a].turned_over(),
        s[b].turned_over(),
        s[c].turned_over(),
        s[d].turned_over(),
    );
    let before = flip_count(s) as int;
    let after = flip_count(ring_flipped(s, ring)) as int;
    let w = bit(s[a].turned_over()) - bit(s[a]) + bit(s[b].turned_over()) - bit(s[b]) + bit(
        s[c].turned_over(),
    ) - bit(s[c]) + bit(s[d].turned_over()) - bit(s[d]);
    lemma_twos(before, after, w);
}

/// A twist of one face keeps the orientations such as twists give.
#[verifier::rlimit(50)]
proof fn lemma_face_twist_keeps_orientation(c: CubeState, face: Turn, dir: TurnDir)
    requires
        c.wf(),
    ensures
        twist_sum(c.twisted(Twist { turn: face, dir }).corners) % 3 == twist_sum(c.corners) % 3,
        flip_count(c.twisted(Twist { turn: face, dir }).edges) % 2 == flip_count(c.edges) % 2,
{
    let er = edge_slots(edge_ring(face));
    let cr = corner_slots(corner_ring(face));
    let moved = c.carried(face, dir);
    lemma_ring_turned_twist_sum(c.corners, cr, dir);
    lemma_ring_turned_flip_count(c.edges, er, dir);
    lemma_ring_twisted_twist_sum(moved.corners, cr);
    lemma_ring_flipped_flip_count(moved.edges, er);
}

/// A twist keeps the orientations such as twists give.
pub proof fn lemma_twist_keeps_orientation(c: CubeState, t: Twist)
    requires
        c.wf(),
        c.is_oriented(),
    ensures
        c.twisted(t).is_oriented(),
{
    lemma_face_twist_keeps_orientation(c, t.turn, t.dir);
}

/// A twist keeps the cubies distinct.
#[verifier::rlimit(50)]
pub proof fn lemma_twist_keeps_cubies(c: CubeState, t: Twist)
    requires
        c.wf(),
        c.has_distinct_cubies(),
    ensures
        c.twisted(t).has_distinct_cubies(),
{
    let after = c.twisted(t);
    lemma_twisted_slotwise(c, t);
    assert forall|i: int, j: int| 0 <= i < j < after.edges.len() implies (
    #[trigger] after.edges[i]).id != (#[trigger] after.edges[j]).id by {
        lemma_sources_differ(t, i, j);
        let a = edge_source(t, i);
        let b = edge_source(t, j);
        if a < b {
            assert(c.edges[a].id != c.edges[b].id);
        } else {
            assert(c.edges[b].id != c.edges[a].id);
        }
    }
    assert forall|i: int, j: int| 0 <= i < j < after.corners.len() implies (
    #[trigger] after.corners[i]).id != (#[trigger] after.corners[j]).id by {
        lemma_sources_differ(t, i, j);
        let a = corner_source(t, i);
        let b = corner_source(t, j);
        if a < b {
            assert(c.corners[a].id != c.corners[b].id);
        } else {
            assert(c.corners[b].id != c.corners[a].id);
        }
    }
}

/// The numbers of distinct cubies are distinct.
proof fn lemma_numbers_distinct(c: CubeState)
    requires
        c.has_distinct_cubies(),
    ensures
        all_distinct(edge_numbers(c)),
        all_distinct(corner_numbers(c)),
{
    let e = edge_numbers(c);
    assert forall|i: int, j: int| 0 <= i < j < e.len() implies #[trigger] e[i]
        != #[trigger] e[j] by {
        assert(c.edges[i].id != c.edges[j].id);
    }
    let k = corner_numbers(c);
    assert forall|i: int, j: int| 0 <= i < j < k.len() implies #[trigger] k[i]
        != #[trigger] k[j] by {
        assert(c.corners[i].id != c.corners[j].id);
    }
}

/// A twist changes the parity of the edges and that of the corners alike.
#[verifier::rlimit(50)]
pub proof fn lemma_twist_keeps_parities(c: CubeState, t: Twist)
    requires
        c.wf(),
        c.has_distinct_cubies(),
        c.has_matching_parities(),
    ensures
        c.twisted(t).has_matching_parities(),
{
    let after = c.twisted(t);
    let er = edge_slots(edge_ring(t.turn));
    let cr = corner_slots(corner_ring(t.turn));
    lemma_twisted_slotwise(c, t);
    lemma_numbers_distinct(c);
    lemma_ring_turned_slotwise(edge_numbers(c), er, t.dir);
    lemma_ring_turned_slotwise(corner_numbers(c), cr, t.dir);
    assert(edge_numbers(after) =~= ring_turned(edge_numbers(c), er, t.dir)) by {
        assert forall|i: int| 0 <= i < 12 implies edge_numbers(after)[i] == ring_turned(
            edge_numbers(c),
            er,
            t.dir,
        )[i] by {
            assert(after.edges[i].id == c.edges[edge_source(t, i)].id);
        }
    }
    assert(corner_numbers(after) =~= ring_turned(corner_numbers(c), cr, t.dir)) by {
        assert forall|i: int| 0 <= i < 8 implies corner_numbers(after)[i] == ring_turned(
            corner_numbers(c),
            cr,
            t.dir,
        )[i] by {
            assert(after.corners[i].id == c.corners[corner_source(t, i)].id);
        }
    }
    lemma_ring_turned_parity(edge_numbers(c), er, t.dir);
    lemma_ring_turned_parity(corner_numbers(c), cr, t.dir);
}

/// The solved cube is legal.
pub proof fn lemma_solved_is_legal()
    ensures
        CubeState::solved().is_legal(),
{
    let s = CubeState::solved();
    reveal_with_fuel(twist_sum, 10);
    reveal_with_fuel(flip_count, 14);
    assert(twist_sum(s.corners) == 0);
    assert(flip_count(s.edges) == 0);
    lemma_counting_up_is_even(edge_numbers(s));
    lemma_counting_up_is_even(corner_numbers(s));
}

/// A twist of a legal cube gives a legal cube.
pub proof fn lemma_twist_keeps_legal(c: CubeState, t: Twist)
    requires
        c.is_legal(),
    ensures
        c.twisted(t).is_legal(),
{
    lemma_twisted_slotwise(c, t);
    lemma_twist_keeps_cubies(c, t);
    lemma_twist_keeps_orientation(c, t);
    lemma_twist_keeps_parities(c, t);
}

/// Twists of a legal cube give a legal cube: every cube that twists make of
/// the solved cube is legal.
pub proof fn lemma_applied_keeps_legal(c: CubeState, alg: Seq<Twist>)
    requires
        c.is_legal(),
    ensures
        c.applied(alg).is_legal(),
    decreases alg.len(),
{
    if alg.len() > 0 {
        lemma_applied_keeps_legal(c, alg.drop_last());
        lemma_twist_keeps_legal(c.applied(alg.drop_last()), alg.last());
    }
}

} // verus!
