//! What the orientation coordinate tells of a cube: on cubes oriented as
//! twists orient them, it tells every flip and every twist, and so it tells
//! the coordinate after any further twist.
use super::algs::Twist;
use super::cubie::{Corner, Edge};
use super::laws::lemma_twisted_slotwise;
use super::validity::{flip_count, twist_sum};
use super::{power, weighted, CubeState};
use vstd::prelude::*;

verus! {

/// Whether the two cubes have the same flip in every edge slot and the same
/// twist in every corner slot.
pub open spec fn same_orientations(a: CubeState, b: CubeState) -> bool {
    &&& forall|i: int| 0 <= i < 12 ==> (#[trigger] a.edges[i]).flipped == b.edges[i].flipped
    &&& forall|i: int|
        0 <= i < 8 ==> (#[trigger] a.corners[i]).orientation == b.corners[i].orientation
}

/// Whether every digit is at least 0 and below `base`.
pub open spec fn digits_below(digits: Seq<int>, base: int) -> bool {
    forall|i: int| 0 <= i < digits.len() ==> 0 <= #[trigger] digits[i] < base
}

/// A number has one sequence of digits of a given length.
pub proof fn lemma_weighted_unique(a: Seq<int>, b: Seq<int>, base: int)
    requires
        base >= 2,
        a.len() == b.len(),
        digits_below(a, base),
        digits_below(b, base),
        weighted(a, base) == weighted(b, base),
    ensures
        a == b,
    decreases a.len(),
{
    if a.len() > 0 {
        let ra = a.drop_first();
        let rb = b.drop_first();
        assert forall|i: int| 0 <= i < ra.len() implies 0 <= #[trigger] ra[i] < base by {
            assert(ra[i] == a[i + 1]);
        }
        assert forall|i: int| 0 <= i < rb.len() implies 0 <= #[trigger] rb[i] < base by {
            assert(rb[i] == b[i + 1]);
        }
        let wa = weighted(ra, base);
        let wb = weighted(rb, base);
        assert(a[0] == b[0] && wa == wb) by (nonlinear_arith)
            requires
                a[0] + base * wa == b[0] + base * wb,
                0 <= a[0] < base,
                0 <= b[0] < base,
        ;
        lemma_weighted_unique(ra, rb, base);
        assert(a =~= seq![a[0]] + ra);
        assert(b =~= seq![b[0]] + rb);
    }
}

/// The corner part of the coordinate is below 3^7 and the edge part below
/// 2^11.
pub proof fn lemma_coordinate_parts(s: CubeState)
    ensures
        digits_below(s.corner_digits(), 3),
        digits_below(s.edge_digits(), 2),
        0 <= weighted(s.corner_digits(), 3) < 2187,
        0 <= weighted(s.edge_digits(), 2) < 2048,
{
    super::lemma_weighted_bound(s.corner_digits(), 3);
    super::lemma_weighted_bound(s.edge_digits(), 2);
    reveal_with_fuel(power, 12);
}

/// Corners that are twisted alike in every slot but the first differ in
/// their sums by what the first slots differ.
proof fn lemma_twist_sum_but_first(a: Seq<Corner>, b: Seq<Corner>)
    requires
        a.len() == b.len(),
        a.len() >= 1,
        forall|i: int| 1 <= i < a.len() ==> (#[trigger] a[i]).orientation == b[i].orientation,
    ensures
        twist_sum(a) - a[0].orientation.thirds() == twist_sum(b) - b[0].orientation.thirds(),
    decreases a.len(),
{
    if a.len() == 1 {
        reveal_with_fuel(twist_sum, 2);
    } else {
        assert(a[a.len() - 1].orientation == b[a.len() - 1].orientation);
        lemma_twist_sum_but_first(a.drop_last(), b.drop_last());
    }
}

/// Edges that are flipped alike in every slot but the first differ in their
/// counts by what the first slots differ.
proof fn lemma_flip_count_but_first(a: Seq<Edge>, b: Seq<Edge>)
    requires
        a.len() == b.len(),
        a.len() >= 1,
        forall|i: int| 1 <= i < a.len() ==> (#[trigger] a[i]).flipped == b[i].flipped,
    ensures
        flip_count(a) - (if a[0].flipped {
            1int
        } else {
            0int
        }) == flip_count(b) - (if b[0].flipped {
            1int
        } else {
            0int
        }),
    decreases a.len(),
{
    if a.len() == 1 {
        reveal_with_fuel(flip_count, 2);
    } else {
        assert(a[a.len() - 1].flipped == b[a.len() - 1].flipped);
        lemma_flip_count_but_first(a.drop_last(), b.drop_last());
    }
}

/// Cubes oriented as twists orient them that have the same coordinate are
/// oriented alike in every slot.
pub proof fn lemma_coordinate_tells_orientations(a: CubeState, b: CubeState)
    requires
        a.wf(),
        b.wf(),
        a.is_oriented(),
        b.is_oriented(),
        a.orientation_coordinate() == b.orientation_coordinate(),
    ensures
        same_orientations(a, b),
{
    lemma_coordinate_parts(a);
    lemma_coordinate_parts(b);
    let ca = weighted(a.corner_digits(), 3);
    let cb = weighted(b.corner_digits(), 3);
    let ea = weighted(a.edge_digits(), 2);
    let eb = weighted(b.edge_digits(), 2);
    assert(ca == cb && ea == eb);
    lemma_weighted_unique(a.corner_digits(), b.corner_digits(), 3);
    lemma_weighted_unique(a.edge_digits(), b.edge_digits(), 2);
    assert forall|i: int| 1 <= i < 8 implies (#[trigger] a.corners[i]).orientation
        == b.corners[i].orientation by {
        assert(a.corner_digits()[i - 1] == a.corners[i].orientation.thirds());
        assert(b.corner_digits()[i - 1] == b.corners[i].orientation.thirds());
    }
    assert forall|i: int| 1 <= i < 12 implies (#[trigger] a.edges[i]).flipped
        == b.edges[i].flipped by {
        assert(a.edge_digits()[i - 1] == if a.edges[i].flipped {
            1int
        } else {
            0int
        });
        assert(b.edge_digits()[i - 1] == if b.edges[i].flipped {
            1int
        } else {
            0int
        });
    }
    lemma_twist_sum_but_first(a.corners, b.corners);
    lemma_flip_count_but_first(a.edges, b.edges);
    assert(a.corners[0].orientation == b.corners[0].orientation);
    assert(a.edges[0].flipped == b.edges[0].flipped);
}

/// Cubes that are oriented alike are oriented alike after the same twist.
pub proof fn lemma_twist_keeps_same_orientations(a: CubeState, b: CubeState, t: Twist)
    requires
        a.wf(),
        b.wf(),
        same_orientations(a, b),
    ensures
        same_orientations(a.twisted(t), b.twisted(t)),
{
    lemma_twisted_slotwise(a, t);
    lemma_twisted_slotwise(b, t);
}

/// Cubes that are oriented alike have the same coordinate.
pub proof fn lemma_orientations_tell_coordinate(a: CubeState, b: CubeState)
    requires
        a.wf(),
        b.wf(),
        same_orientations(a, b),
    ensures
        a.orientation_coordinate() == b.orientation_coordinate(),
{
    assert(a.corner_digits() =~= b.corner_digits());
    assert(a.edge_digits() =~= b.edge_digits());
}

/// The coordinate after a twist depends on the coordinate before it alone,
/// on cubes oriented as twists orient them.
pub proof fn lemma_coordinate_after_twist(a: CubeState, b: CubeState, t: Twist)
    requires
        a.wf(),
        b.wf(),
        a.is_oriented(),
        b.is_oriented(),
        a.orientation_coordinate() == b.orientation_coordinate(),
    ensures
        a.twisted(t).orientation_coordinate() == b.twisted(t).orientation_coordinate(),
{
    lemma_coordinate_tells_orientations(a, b);
    lemma_twist_keeps_same_orientations(a, b, t);
    lemma_twisted_slotwise(a, t);
    lemma_twisted_slotwise(b, t);
    lemma_orientations_tell_coordinate(a.twisted(t), b.twisted(t));
}

} // verus!
