//! What holds of the turn engine for every cube: twists can be undone, turns
//! of one face add up, and turns of opposite faces commute.
use super::algs::{Turn, TurnDir, Twist};
use super::cubie::{Corner, Edge};
use super::{
    all_differ, corner_ring, corner_slots, edge_ring, edge_slots, ring_flipped, ring_turned,
    ring_twisted, CubeState,
};
use vstd::prelude::*;

verus! {

/// The twists of `alg` undone one by one, last first.
pub open spec fn reversed_inverse(alg: Seq<Twist>) -> Seq<Twist> {
    Seq::new(alg.len(), |i: int| alg[alg.len() - 1 - i].inverted())
}

/// A twist leaves the number of slots as it is.
pub proof fn lemma_twisted_wf(c: CubeState, t: Twist)
    requires
        c.wf(),
    ensures
        c.twisted(t).wf(),
{
}

/// A sequence of twists leaves the number of slots as it is.
pub proof fn lemma_applied_wf(c: CubeState, alg: Seq<Twist>)
    requires
        c.wf(),
    ensures
        c.applied(alg).wf(),
    decreases alg.len(),
{
    if alg.len() > 0 {
        lemma_applied_wf(c, alg.drop_last());
        lemma_twisted_wf(c.applied(alg.drop_last()), alg.last());
    }
}

/// Applying no twist leaves any cube as it is; the solved cube stays solved.
pub proof fn lemma_apply_nothing(c: CubeState)
    ensures
        c.applied(Seq::empty()) == c,
{
}

/// Applying one sequence after another is applying the two joined.
pub proof fn lemma_applied_concat(c: CubeState, a: Seq<Twist>, b: Seq<Twist>)
    ensures
        c.applied(a + b) == c.applied(a).applied(b),
    decreases b.len(),
{
    if b.len() == 0 {
        assert(a + b =~= a);
    } else {
        assert((a + b).drop_last() =~= a + b.drop_last());
        assert((a + b).last() == b.last());
        lemma_applied_concat(c, a, b.drop_last());
    }
}

/// Applying a single twist as a sequence is that twist.
pub proof fn lemma_applied_one(c: CubeState, t: Twist)
    ensures
        c.applied(seq![t]) == c.twisted(t),
{
    assert(seq![t].drop_last() =~= Seq::<Twist>::empty());
    assert(c.applied(seq![t].drop_last()) == c);
}

/// Applying a sequence is applying its first twist and then the rest.
pub proof fn lemma_applied_first(c: CubeState, alg: Seq<Twist>)
    requires
        alg.len() > 0,
    ensures
        c.applied(alg) == c.twisted(alg[0]).applied(alg.drop_first()),
{
    assert(alg =~= seq![alg[0]] + alg.drop_first());
    lemma_applied_concat(c, seq![alg[0]], alg.drop_first());
    lemma_applied_one(c, alg[0]);
}

/// The slot numbers of a ring lie in a sequence of length `n`.
pub open spec fn ring_within(ring: (int, int, int, int), n: nat) -> bool {
    let (a, b, c, d) = ring;
    0 <= a < n && 0 <= b < n && 0 <= c < n && 0 <= d < n
}

/// No slot of one ring is a slot of the other.
spec fn rings_apart(r1: (int, int, int, int), r2: (int, int, int, int)) -> bool {
    let (a, b, c, d) = r1;
    let (e, f, g, h) = r2;
    a != e && a != f && a != g && a != h && b != e && b != f && b != g && b != h && c != e && c
        != f && c != g && c != h && d != e && d != f && d != g && d != h
}

/// Whether `i` is one of the four slots of the ring.
pub open spec fn on_ring(ring: (int, int, int, int), i: int) -> bool {
    i == ring.0 || i == ring.1 || i == ring.2 || i == ring.3
}

/// The slot whose content a turn by `dir` carries to slot `i`.
pub open spec fn ring_source(ring: (int, int, int, int), dir: TurnDir, i: int) -> int {
    let (a, b, c, d) = ring;
    match dir {
        TurnDir::Identity => i,
        TurnDir::One => if i == a {
            d
        } else if i == b {
            a
        } else if i == c {
            b
        } else if i == d {
            c
        } else {
            i
        },
        TurnDir::Two => if i == a {
            c
        } else if i == b {
            d
        } else if i == c {
            a
        } else if i == d {
            b
        } else {
            i
        },
        TurnDir::Prime => if i == a {
            b
        } else if i == b {
            c
        } else if i == c {
            d
        } else if i == d {
            a
        } else {
            i
        },
    }
}

/// How many clockwise thirds a quarter turn twists the corner that it
/// leaves in slot `i`.
pub open spec fn ring_thirds(ring: (int, int, int, int), i: int) -> int {
    if i == ring.0 || i == ring.2 {
        2
    } else if i == ring.1 || i == ring.3 {
        1
    } else {
        0
    }
}

/// Whether `dir` is a quarter turn, either way.
pub open spec fn is_quarter(dir: TurnDir) -> bool {
    dir == TurnDir::One || dir == TurnDir::Prime
}

/// What a twist by `dir` leaves in edge slot `i`, where `flips` says whether
/// a quarter turn of the face turns its edges over.
spec fn edge_after(
    s: Seq<Edge>,
    ring: (int, int, int, int),
    dir: TurnDir,
    flips: bool,
    i: int,
) -> Edge {
    let e = s[ring_source(ring, dir, i)];
    if flips && is_quarter(dir) && on_ring(ring, i) {
        e.turned_over()
    } else {
        e
    }
}

/// What a twist by `dir` leaves in corner slot `i`, where `twists` says
/// whether a quarter turn of the face twists its corners.
spec fn corner_after(
    s: Seq<Corner>,
    ring: (int, int, int, int),
    dir: TurnDir,
    twists: bool,
    i: int,
) -> Corner {
    let c = s[ring_source(ring, dir, i)];
    if twists && is_quarter(dir) && on_ring(ring, i) {
        c.twisted_by(ring_thirds(ring, i))
    } else {
        c
    }
}

/// What a twist by `dir` does to the edges of a ring, where `flips` says
/// whether a quarter turn of the face turns its edges over.
#[verifier::opaque]
spec fn edges_turned(s: Seq<Edge>, ring: (int, int, int, int), dir: TurnDir, flips: bool) -> Seq<
    Edge,
> {
    let moved = ring_turned(s, ring, dir);
    if flips && is_quarter(dir) {
        ring_flipped(moved, ring)
    } else {
        moved
    }
}

/// What a twist by `dir` does to the corners of a ring, where `twists` says
/// whether a quarter turn of the face twists its corners.
#[verifier::opaque]
spec fn corners_turned(
    s: Seq<Corner>,
    ring: (int, int, int, int),
    dir: TurnDir,
    twists: bool,
) -> Seq<Corner> {
    let moved = ring_turned(s, ring, dir);
    if twists && is_quarter(dir) {
        ring_twisted(moved, ring)
    } else {
        moved
    }
}

/// The edges after a twist, slot by slot.
proof fn lemma_edges_turned_slotwise(
    s: Seq<Edge>,
    ring: (int, int, int, int),
    dir: TurnDir,
    flips: bool,
)
    requires
        all_differ(ring),
        ring_within(ring, s.len()),
    ensures
        edges_turned(s, ring, dir, flips).len() == s.len(),
        forall|i: int|
            0 <= i < s.len() ==> #[trigger] edges_turned(s, ring, dir, flips)[i] == edge_after(
                s,
                ring,
                dir,
                flips,
                i,
            ),
{
    reveal(edges_turned);
}

/// The corners after a twist, slot by slot.
proof fn lemma_corners_turned_slotwise(
    s: Seq<Corner>,
    ring: (int, int, int, int),
    dir: TurnDir,
    twists: bool,
)
    requires
        all_differ(ring),
        ring_within(ring, s.len()),
    ensures
        corners_turned(s, ring, dir, twists).len() == s.len(),
        forall|i: int|
            0 <= i < s.len() ==> #[trigger] corners_turned(s, ring, dir, twists)[i]
                == corner_after(s, ring, dir, twists, i),
{
    reveal(corners_turned);
}

/// The source of a slot is a slot, on the ring exactly if the slot is.
proof fn lemma_source_within(ring: (int, int, int, int), dir: TurnDir, i: int, n: nat)
    requires
        ring_within(ring, n),
        0 <= i < n,
    ensures
        0 <= ring_source(ring, dir, i) < n,
        on_ring(ring, i) == on_ring(ring, ring_source(ring, dir, i)),
{
}

#[verifier::rlimit(50)]

/// Two twists of one ring do to the edges what one twist by the sum of the
/// directions does.
proof fn lemma_edges_turned_twice(
    s: Seq<Edge>,
    ring: (int, int, int, int),
    d1: TurnDir,
    d2: TurnDir,
    flips: bool,
)
    requires
        all_differ(ring),
        ring_within(ring, s.len()),
    ensures
        edges_turned(edges_turned(s, ring, d1, flips), ring, d2, flips) == edges_turned(
            s,
            ring,
            d1.plus(d2),
            flips,
        ),
{
    let m = edges_turned(s, ring, d1, flips);
    let l = edges_turned(m, ring, d2, flips);
    let r = edges_turned(s, ring, d1.plus(d2), flips);
    lemma_edges_turned_slotwise(s, ring, d1, flips);
    lemma_edges_turned_slotwise(m, ring, d2, flips);
    lemma_edges_turned_slotwise(s, ring, d1.plus(d2), flips);
    assert forall|i: int| 0 <= i < s.len() implies l[i] == r[i] by {
        let j = ring_source(ring, d2, i);
        lemma_source_within(ring, d2, i, s.len());
        assert(l[i] == edge_after(m, ring, d2, flips, i));
        assert(m[j] == edge_after(s, ring, d1, flips, j));
        assert(r[i] == edge_after(s, ring, d1.plus(d2), flips, i));
        assert(ring_source(ring, d1, j) == ring_source(ring, d1.plus(d2), i));
    }
    assert(l =~= r);
}

/// Corner twists add up modulo three.
proof fn lemma_corner_twists(c: Corner)
    ensures
        c.twisted_by(1).twisted_by(2) == c,
        c.twisted_by(2).twisted_by(1) == c,
        c.twisted_by(1).twisted_by(1) == c.twisted_by(2),
        c.twisted_by(2).twisted_by(2) == c.twisted_by(1),
{
}

#[verifier::rlimit(50)]

/// Two twists of one ring do to the corners what one twist by the sum of
/// the directions does.
proof fn lemma_corners_turned_twice(
    s: Seq<Corner>,
    ring: (int, int, int, int),
    d1: TurnDir,
    d2: TurnDir,
    twists: bool,
)
    requires
        all_differ(ring),
        ring_within(ring, s.len()),
    ensures
        corners_turned(corners_turned(s, ring, d1, twists), ring, d2, twists) == corners_turned(
            s,
            ring,
            d1.plus(d2),
            twists,
        ),
{
    let m = corners_turned(s, ring, d1, twists);
    let l = corners_turned(m, ring, d2, twists);
    let r = corners_turned(s, ring, d1.plus(d2), twists);
    lemma_corners_turned_slotwise(s, ring, d1, twists);
    lemma_corners_turned_slotwise(m, ring, d2, twists);
    lemma_corners_turned_slotwise(s, ring, d1.plus(d2), twists);
    assert forall|i: int| 0 <= i < s.len() implies l[i] == r[i] by {
        let j = ring_source(ring, d2, i);
        lemma_source_within(ring, d2, i, s.len());
        lemma_source_within(ring, d1, j, s.len());
        let k = ring_source(ring, d1, j);
        lemma_corner_twists(s[k]);
        assert(l[i] == corner_after(m, ring, d2, twists, i));
        assert(m[j] == corner_after(s, ring, d1, twists, j));
        assert(r[i] == corner_after(s, ring, d1.plus(d2), twists, i));
        assert(k == ring_source(ring, d1.plus(d2), i));
    }
    assert(l =~= r);
}

/// Twists of rings that share no slot do not disturb each other's sources.
proof fn lemma_sources_apart(
    r1: (int, int, int, int),
    d1: TurnDir,
    r2: (int, int, int, int),
    d2: TurnDir,
    i: int,
)
    requires
        all_differ(r1),
        all_differ(r2),
        rings_apart(r1, r2),
    ensures
        ring_source(r1, d1, ring_source(r2, d2, i)) == ring_source(r2, d2, ring_source(r1, d1, i)),
        on_ring(r1, ring_source(r2, d2, i)) == on_ring(r1, i),
        on_ring(r2, ring_source(r1, d1, i)) == on_ring(r2, i),
        on_ring(r1, i) ==> ring_source(r2, d2, i) == i,
        on_ring(r2, i) ==> ring_source(r1, d1, i) == i,
        on_ring(r1, i) ==> ring_thirds(r1, ring_source(r2, d2, i)) == ring_thirds(r1, i),
        on_ring(r2, i) ==> ring_thirds(r2, ring_source(r1, d1, i)) == ring_thirds(r2, i),
{
}

#[verifier::rlimit(50)]

/// Twists of rings that share no slot can be exchanged, for the edges.
proof fn lemma_edges_turned_apart(
    s: Seq<Edge>,
    r1: (int, int, int, int),
    d1: TurnDir,
    f1: bool,
    r2: (int, int, int, int),
    d2: TurnDir,
    f2: bool,
)
    requires
        all_differ(r1),
        all_differ(r2),
        rings_apart(r1, r2),
        ring_within(r1, s.len()),
        ring_within(r2, s.len()),
    ensures
        edges_turned(edges_turned(s, r1, d1, f1), r2, d2, f2) == edges_turned(
            edges_turned(s, r2, d2, f2),
            r1,
            d1,
            f1,
        ),
{
    let m1 = edges_turned(s, r1, d1, f1);
    let m2 = edges_turned(s, r2, d2, f2);
    let l = edges_turned(m1, r2, d2, f2);
    let r = edges_turned(m2, r1, d1, f1);
    lemma_edges_turned_slotwise(s, r1, d1, f1);
    lemma_edges_turned_slotwise(s, r2, d2, f2);
    lemma_edges_turned_slotwise(m1, r2, d2, f2);
    lemma_edges_turned_slotwise(m2, r1, d1, f1);
    assert forall|i: int| 0 <= i < s.len() implies l[i] == r[i] by {
        lemma_source_within(r2, d2, i, s.len());
        lemma_source_within(r1, d1, i, s.len());
        lemma_sources_apart(r1, d1, r2, d2, i);
        assert(l[i] == edge_after(m1, r2, d2, f2, i));
        assert(r[i] == edge_after(m2, r1, d1, f1, i));
        assert(m1[ring_source(r2, d2, i)] == edge_after(s, r1, d1, f1, ring_source(r2, d2, i)));
        assert(m2[ring_source(r1, d1, i)] == edge_after(s, r2, d2, f2, ring_source(r1, d1, i)));
    }
    assert(l =~= r);
}

#[verifier::rlimit(50)]

/// Twists of rings that share no slot can be exchanged, for the corners.
proof fn lemma_corners_turned_apart(
    s: Seq<Corner>,
    r1: (int, int, int, int),
    d1: TurnDir,
    f1: bool,
    r2: (int, int, int, int),
    d2: TurnDir,
    f2: bool,
)
    requires
        all_differ(r1),
        all_differ(r2),
        rings_apart(r1, r2),
        ring_within(r1, s.len()),
        ring_within(r2, s.len()),
    ensures
        corners_turned(corners_turned(s, r1, d1, f1), r2, d2, f2) == corners_turned(
            corners_turned(s, r2, d2, f2),
            r1,
            d1,
            f1,
        ),
{
    let m1 = corners_turned(s, r1, d1, f1);
    let m2 = corners_turned(s, r2, d2, f2);
    let l = corners_turned(m1, r2, d2, f2);
    let r = corners_turned(m2, r1, d1, f1);
    lemma_corners_turned_slotwise(s, r1, d1, f1);
    lemma_corners_turned_slotwise(s, r2, d2, f2);
    lemma_corners_turned_slotwise(m1, r2, d2, f2);
    lemma_corners_turned_slotwise(m2, r1, d1, f1);
    assert forall|i: int| 0 <= i < s.len() implies l[i] == r[i] by {
        lemma_source_within(r2, d2, i, s.len());
        lemma_source_within(r1, d1, i, s.len());
        lemma_sources_apart(r1, d1, r2, d2, i);
        assert(l[i] == corner_after(m1, r2, d2, f2, i));
        assert(r[i] == corner_after(m2, r1, d1, f1, i));
        assert(m1[ring_source(r2, d2, i)] == corner_after(
            s,
            r1,
            d1,
            f1,
            ring_source(r2, d2, i),
        ));
        assert(m2[ring_source(r1, d1, i)] == corner_after(
            s,
            r2,
            d2,
            f2,
            ring_source(r1, d1, i),
        ));
    }
    assert(l =~= r);
}

/// Whether a quarter turn of `face` turns its edges over.
pub open spec fn flips_edges(face: Turn) -> bool {
    face == Turn::F || face == Turn::B
}

/// Whether a quarter turn of `face` twists its corners.
pub open spec fn twists_corners(face: Turn) -> bool {
    face != Turn::U && face != Turn::D
}

/// A twist, slot ring by slot ring.
proof fn lemma_twisted_by_rings(c: CubeState, t: Twist)
    ensures
        c.twisted(t).edges == edges_turned(
            c.edges,
            edge_slots(edge_ring(t.turn)),
            t.dir,
            flips_edges(t.turn),
        ),
        c.twisted(t).corners == corners_turned(
            c.corners,
            corner_slots(corner_ring(t.turn)),
            t.dir,
            twists_corners(t.turn),
        ),
        all_differ(edge_slots(edge_ring(t.turn))),
        all_differ(corner_slots(corner_ring(t.turn))),
        ring_within(edge_slots(edge_ring(t.turn)), 12),
        ring_within(corner_slots(corner_ring(t.turn)), 8),
        rings_apart(edge_slots(edge_ring(t.turn)), edge_slots(edge_ring(t.turn.opposite()))),
        rings_apart(
            corner_slots(corner_ring(t.turn)),
            corner_slots(corner_ring(t.turn.opposite())),
        ),
{
    reveal(edges_turned);
    reveal(corners_turned);
}

/// The edge slot whose cubie a twist carries to slot `i`.
pub open spec fn edge_source(t: Twist, i: int) -> int {
    ring_source(edge_slots(edge_ring(t.turn)), t.dir, i)
}

/// The corner slot whose cubie a twist carries to slot `i`.
pub open spec fn corner_source(t: Twist, i: int) -> int {
    ring_source(corner_slots(corner_ring(t.turn)), t.dir, i)
}

/// Whether a twist turns over the edge that it leaves in slot `i`.
pub open spec fn edge_turns_over(t: Twist, i: int) -> bool {
    flips_edges(t.turn) && is_quarter(t.dir) && on_ring(edge_slots(edge_ring(t.turn)), i)
}

/// By how many clockwise thirds a twist twists the corner that it leaves in
/// slot `i`.
pub open spec fn corner_twist(t: Twist, i: int) -> int {
    if twists_corners(t.turn) && is_quarter(t.dir) {
        ring_thirds(corner_slots(corner_ring(t.turn)), i)
    } else {
        0
    }
}

/// Carrying a ring round, slot by slot: each slot gets what its source slot
/// held.
pub proof fn lemma_ring_turned_slotwise<T>(s: Seq<T>, ring: (int, int, int, int), dir: TurnDir)
    requires
        all_differ(ring),
        ring_within(ring, s.len()),
    ensures
        ring_turned(s, ring, dir).len() == s.len(),
        forall|i: int|
            0 <= i < s.len() ==> #[trigger] ring_turned(s, ring, dir)[i] == s[ring_source(
                ring,
                dir,
                i,
            )],
{
}

/// What a twist leaves in an edge slot: the cubie of the source slot,
/// turned over where the twist turns it over.
pub open spec fn edge_left(c: CubeState, t: Twist, i: int) -> Edge {
    let from = c.edges[edge_source(t, i)];
    Edge { id: from.id, flipped: from.flipped != edge_turns_over(t, i) }
}

/// What a twist leaves in a corner slot: the cubie of the source slot,
/// twisted by what the twist twists it.
pub open spec fn corner_left(c: CubeState, t: Twist, i: int) -> Corner {
    c.corners[corner_source(t, i)].twisted_by(corner_twist(t, i))
}

/// The slotwise description holds of a cube whose edges and corners are
/// what the rings of the twist make of those of `c`.
#[verifier::rlimit(50)]
proof fn lemma_rings_slotwise(c: CubeState, t: Twist, after: CubeState)
    requires
        c.wf(),
        after.edges == edges_turned(
            c.edges,
            edge_slots(edge_ring(t.turn)),
            t.dir,
            flips_edges(t.turn),
        ),
        after.corners == corners_turned(
            c.corners,
            corner_slots(corner_ring(t.turn)),
            t.dir,
            twists_corners(t.turn),
        ),
        all_differ(edge_slots(edge_ring(t.turn))),
        all_differ(corner_slots(corner_ring(t.turn))),
        ring_within(edge_slots(edge_ring(t.turn)), 12),
        ring_within(corner_slots(corner_ring(t.turn)), 8),
    ensures
        after.wf(),
        forall|i: int|
            0 <= i < 12 ==> 0 <= edge_source(t, i) < 12 && #[trigger] after.edges[i] == edge_left(
                c,
                t,
                i,
            ),
        forall|i: int|
            0 <= i < 8 ==> 0 <= corner_source(t, i) < 8 && #[trigger] after.corners[i]
                == corner_left(c, t, i),
{
    let er = edge_slots(edge_ring(t.turn));
    let cr = corner_slots(corner_ring(t.turn));
    lemma_edges_turned_slotwise(c.edges, er, t.dir, flips_edges(t.turn));
    lemma_corners_turned_slotwise(c.corners, cr, t.dir, twists_corners(t.turn));
    assert forall|i: int| 0 <= i < 12 implies 0 <= edge_source(t, i) < 12
        && #[trigger] after.edges[i] == edge_left(c, t, i) by {
        lemma_source_within(er, t.dir, i, 12);
        assert(after.edges[i] == edge_after(c.edges, er, t.dir, flips_edges(t.turn), i));
    }
    assert forall|i: int| 0 <= i < 8 implies 0 <= corner_source(t, i) < 8
        && #[trigger] after.corners[i] == corner_left(c, t, i) by {
        lemma_source_within(cr, t.dir, i, 8);
        assert(after.corners[i] == corner_after(c.corners, cr, t.dir, twists_corners(t.turn), i));
        lemma_corner_untwisted(c.corners[corner_source(t, i)]);
    }
}

/// A corner twisted by nothing is as it was.
proof fn lemma_corner_untwisted(c: Corner)
    ensures
        c.twisted_by(0) == c,
{
}

/// A twist, slot by slot: each slot gets the cubie of its source slot, and
/// the cubie is turned over or twisted by what the twist does in that slot.
#[verifier::rlimit(50)]
pub proof fn lemma_twisted_slotwise(c: CubeState, t: Twist)
    requires
        c.wf(),
    ensures
        c.twisted(t).wf(),
        forall|i: int|
            0 <= i < 12 ==> 0 <= edge_source(t, i) < 12 && #[trigger] c.twisted(t).edges[i]
                == edge_left(c, t, i),
        forall|i: int|
            0 <= i < 8 ==> 0 <= corner_source(t, i) < 8 && #[trigger] c.twisted(t).corners[i]
                == corner_left(c, t, i),
{
    lemma_twisted_by_rings(c, t);
    lemma_rings_slotwise(c, t, c.twisted(t));
}

/// No two slots get their cubie from the same slot.
pub proof fn lemma_sources_differ(t: Twist, i: int, j: int)
    requires
        i != j,
    ensures
        edge_source(t, i) != edge_source(t, j),
        corner_source(t, i) != corner_source(t, j),
{
}

/// A twist followed by its inverse leaves every cube as it was.
pub proof fn lemma_twist_then_inverse(c: CubeState, t: Twist)
    requires
        c.wf(),
    ensures
        c.twisted(t).twisted(t.inverted()) == c,
{
    lemma_same_face_combines(c, t, t.inverted());
    assert(t.combined(t.inverted()).unwrap() == (Twist { turn: t.turn, dir: TurnDir::Identity }));
    lemma_identity_twist(c, t.turn);
}

/// An algorithm followed by its twists undone in reverse order leaves every
/// cube as it was.
pub proof fn lemma_algorithm_then_inverse(c: CubeState, alg: Seq<Twist>)
    requires
        c.wf(),
    ensures
        c.applied(alg).applied(reversed_inverse(alg)) == c,
    decreases alg.len(),
{
    if alg.len() == 0 {
        assert(reversed_inverse(alg) =~= Seq::<Twist>::empty());
    } else {
        let front = alg.drop_last();
        let t = alg.last();
        let mid = c.applied(front);
        lemma_applied_wf(c, front);
        // undoing starts with the last twist, then undoes the front
        assert(reversed_inverse(alg) =~= seq![t.inverted()] + reversed_inverse(front));
        lemma_applied_concat(mid.twisted(t), seq![t.inverted()], reversed_inverse(front));
        lemma_applied_one(mid.twisted(t), t.inverted());
        lemma_twist_then_inverse(mid, t);
        lemma_algorithm_then_inverse(c, front);
    }
}

/// A twist by no turn leaves every cube as it was.
pub proof fn lemma_identity_twist(c: CubeState, face: Turn)
    ensures
        c.twisted(Twist { turn: face, dir: TurnDir::Identity }) == c,
{
}

/// Two twists of one face amount to one twist of it by the sum of the two
/// directions.
pub proof fn lemma_same_face_combines(c: CubeState, a: Twist, b: Twist)
    requires
        c.wf(),
        a.turn == b.turn,
    ensures
        c.twisted(a).twisted(b) == c.twisted(a.combined(b).unwrap()),
{
    let ab = a.combined(b).unwrap();
    lemma_twisted_by_rings(c, a);
    lemma_twisted_by_rings(c.twisted(a), b);
    lemma_twisted_by_rings(c, ab);
    lemma_edges_turned_twice(
        c.edges,
        edge_slots(edge_ring(a.turn)),
        a.dir,
        b.dir,
        flips_edges(a.turn),
    );
    lemma_corners_turned_twice(
        c.corners,
        corner_slots(corner_ring(a.turn)),
        a.dir,
        b.dir,
        twists_corners(a.turn),
    );
}

/// Twists of opposite faces can be exchanged.
pub proof fn lemma_opposite_faces_commute(c: CubeState, a: Twist, b: Twist)
    requires
        c.wf(),
        b.turn == a.turn.opposite(),
    ensures
        c.twisted(a).twisted(b) == c.twisted(b).twisted(a),
{
    lemma_twisted_by_rings(c, a);
    lemma_twisted_by_rings(c, b);
    lemma_twisted_by_rings(c.twisted(a), b);
    lemma_twisted_by_rings(c.twisted(b), a);
    lemma_edges_turned_apart(
        c.edges,
        edge_slots(edge_ring(a.turn)),
        a.dir,
        flips_edges(a.turn),
        edge_slots(edge_ring(b.turn)),
        b.dir,
        flips_edges(b.turn),
    );
    lemma_corners_turned_apart(
        c.corners,
        corner_slots(corner_ring(a.turn)),
        a.dir,
        twists_corners(a.turn),
        corner_slots(corner_ring(b.turn)),
        b.dir,
        twists_corners(b.turn),
    );
}

} // verus!
