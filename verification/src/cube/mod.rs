//! The cube state and its turn engine.
pub mod alg_laws;
pub mod algs;
pub mod canonical;
pub mod coordinate_laws;
pub mod cubie;
pub mod laws;
pub mod parity;
pub mod stickers;
pub mod validity;

use self::algs::{Algorithm, ConstAlgorithm, Turn, TurnDir, Twist};
use self::cubie::{Corner, CornerId, CornerOrientation, CornerPos, Edge, EdgeId, EdgePos};
use vstd::prelude::*;

verus! {

/// The cube: which edge cubie sits in each of the twelve edge slots and which
/// corner cubie in each of the eight corner slots, each with its orientation.
/// The arrays are indexed by [`EdgePos`] and [`CornerPos`].
#[derive(Clone, Copy, Debug)]
pub struct Cube {
    pub edges: [Edge; 12],
    pub corners: [Corner; 8],
}

/// The cube as a mathematical value: the contents of the edge slots and of
/// the corner slots, in slot order.
#[verifier::ext_equal]
pub struct CubeState {
    pub edges: Seq<Edge>,
    pub corners: Seq<Corner>,
}

impl View for Cube {
    type V = CubeState;

    open spec fn view(&self) -> CubeState {
        CubeState { edges: self.edges@, corners: self.corners@ }
    }
}

/// The sequence `s` after the content of slot `a` has moved to `b`, that of
/// `b` to `c`, that of `c` to `d` and that of `d` to `a`.
pub open spec fn cycled<T>(s: Seq<T>, a: int, b: int, c: int, d: int) -> Seq<T> {
    s.update(b, s[a]).update(c, s[b]).update(d, s[c]).update(a, s[d])
}

/// The sequence `s` after the four slots of a ring have been carried round
/// by `dir`: one step for a quarter turn, two for a half turn, three (one
/// step back) for a quarter turn back.
pub open spec fn ring_turned<T>(s: Seq<T>, ring: (int, int, int, int), dir: TurnDir) -> Seq<T> {
    let (a, b, c, d) = ring;
    match dir {
        TurnDir::Identity => s,
        TurnDir::One => cycled(s, a, b, c, d),
        TurnDir::Two => s.update(a, s[c]).update(c, s[a]).update(b, s[d]).update(d, s[b]),
        TurnDir::Prime => cycled(s, d, c, b, a),
    }
}

/// No two of the four slot numbers are the same.
pub open spec fn all_differ(ring: (int, int, int, int)) -> bool {
    let (a, b, c, d) = ring;
    a != b && a != c && a != d && b != c && b != d && c != d
}

/// The four edge slots on a face, clockwise as seen from outside that face.
pub open spec fn edge_ring(face: Turn) -> (EdgePos, EdgePos, EdgePos, EdgePos) {
    match face {
        Turn::U => (EdgePos::UB, EdgePos::UR, EdgePos::UF, EdgePos::UL),
        Turn::D => (EdgePos::DF, EdgePos::DR, EdgePos::DB, EdgePos::DL),
        Turn::F => (EdgePos::UF, EdgePos::FR, EdgePos::DF, EdgePos::FL),
        Turn::B => (EdgePos::UB, EdgePos::BL, EdgePos::DB, EdgePos::BR),
        Turn::L => (EdgePos::UL, EdgePos::FL, EdgePos::DL, EdgePos::BL),
        Turn::R => (EdgePos::UR, EdgePos::BR, EdgePos::DR, EdgePos::FR),
    }
}

/// The four corner slots on a face, clockwise as seen from outside that
/// face. On a side face the ring starts at the upper corner that a quarter
/// turn twists counter-clockwise.
pub open spec fn corner_ring(face: Turn) -> (CornerPos, CornerPos, CornerPos, CornerPos) {
    match face {
        Turn::U => (CornerPos::UBL, CornerPos::UBR, CornerPos::UFR, CornerPos::UFL),
        Turn::D => (CornerPos::DFL, CornerPos::DFR, CornerPos::DBR, CornerPos::DBL),
        Turn::F => (CornerPos::UFL, CornerPos::UFR, CornerPos::DFR, CornerPos::DFL),
        Turn::B => (CornerPos::UBR, CornerPos::UBL, CornerPos::DBL, CornerPos::DBR),
        Turn::L => (CornerPos::UBL, CornerPos::UFL, CornerPos::DFL, CornerPos::DBL),
        Turn::R => (CornerPos::UFR, CornerPos::UBR, CornerPos::DBR, CornerPos::DFR),
    }
}

/// The slot numbers of a ring of edge slots.
pub open spec fn edge_slots(ring: (EdgePos, EdgePos, EdgePos, EdgePos)) -> (int, int, int, int) {
    (ring.0.index(), ring.1.index(), ring.2.index(), ring.3.index())
}

/// The slot numbers of a ring of corner slots.
pub open spec fn corner_slots(ring: (CornerPos, CornerPos, CornerPos, CornerPos)) -> (
    int,
    int,
    int,
    int,
) {
    (ring.0.index(), ring.1.index(), ring.2.index(), ring.3.index())
}

/// The edges after those in the four slots of `ring` have been turned over.
pub open spec fn ring_flipped(s: Seq<Edge>, ring: (int, int, int, int)) -> Seq<Edge> {
    let (a, b, c, d) = ring;
    s.update(a, s[a].turned_over()).update(b, s[b].turned_over()).update(
        c,
        s[c].turned_over(),
    ).update(d, s[d].turned_over())
}

/// The corners after those in the first and third slot of `ring` have been
/// twisted counter-clockwise and those in the second and fourth clockwise.
pub open spec fn ring_twisted(s: Seq<Corner>, ring: (int, int, int, int)) -> Seq<Corner> {
    let (a, b, c, d) = ring;
    s.update(a, s[a].twisted_by(2)).update(b, s[b].twisted_by(1)).update(
        c,
        s[c].twisted_by(2),
    ).update(d, s[d].twisted_by(1))
}

/// The number whose digits in base `base` are `digits`, lowest first.
pub open spec fn weighted(digits: Seq<int>, base: int) -> int
    decreases digits.len(),
{
    if digits.len() == 0 {
        0
    } else {
        digits[0] + base * weighted(digits.drop_first(), base)
    }
}

/// `base` to the power `n`.
pub open spec fn power(base: int, n: nat) -> int
    decreases n,
{
    if n == 0 {
        1
    } else {
        base * power(base, (n - 1) as nat)
    }
}

/// A number of `n` digits in base `base` is below `base` to the power `n`.
pub proof fn lemma_weighted_bound(digits: Seq<int>, base: int)
    requires
        base >= 1,
        forall|i: int| 0 <= i < digits.len() ==> 0 <= #[trigger] digits[i] < base,
    ensures
        0 <= weighted(digits, base) < power(base, digits.len()),
    decreases digits.len(),
{
    if digits.len() > 0 {
        let rest = digits.drop_first();
        assert forall|i: int| 0 <= i < rest.len() implies 0 <= #[trigger] rest[i] < base by {
            assert(rest[i] == digits[i + 1]);
        }
        lemma_weighted_bound(rest, base);
        let w = weighted(rest, base);
        let p = power(base, rest.len());
        assert(base * w <= base * (p - 1)) by (nonlinear_arith)
            requires
                base >= 1,
                w <= p - 1,
        ;
        assert(base * w >= 0) by (nonlinear_arith)
            requires
                base >= 1,
                w >= 0,
        ;
        assert(base * (p - 1) == base * p - base) by (nonlinear_arith);
    }
}

impl CubeState {
    /// Twelve edge slots and eight corner slots.
    pub open spec fn wf(self) -> bool {
        self.edges.len() == 12 && self.corners.len() == 8
    }

    /// Every cubie in its home slot, none flipped or twisted.
    pub open spec fn solved() -> CubeState {
        CubeState {
            edges: seq![
                Edge { id: EdgeId::WB, flipped: false },
                Edge { id: EdgeId::WR, flipped: false },
                Edge { id: EdgeId::WG, flipped: false },
                Edge { id: EdgeId::WO, flipped: false },
                Edge { id: EdgeId::BO, flipped: false },
                Edge { id: EdgeId::BR, flipped: false },
                Edge { id: EdgeId::GR, flipped: false },
                Edge { id: EdgeId::GO, flipped: false },
                Edge { id: EdgeId::YG, flipped: false },
                Edge { id: EdgeId::YR, flipped: false },
                Edge { id: EdgeId::YB, flipped: false },
                Edge { id: EdgeId::YO, flipped: false },
            ],
            corners: seq![
                Corner { id: CornerId::WBO, orientation: CornerOrientation::Zero },
                Corner { id: CornerId::WBR, orientation: CornerOrientation::Zero },
                Corner { id: CornerId::WGR, orientation: CornerOrientation::Zero },
                Corner { id: CornerId::WGO, orientation: CornerOrientation::Zero },
                Corner { id: CornerId::YGO, orientation: CornerOrientation::Zero },
                Corner { id: CornerId::YGR, orientation: CornerOrientation::Zero },
                Corner { id: CornerId::YBR, orientation: CornerOrientation::Zero },
                Corner { id: CornerId::YBO, orientation: CornerOrientation::Zero },
            ],
        }
    }

    /// The cube after the cubies on `face` have been carried round by `dir`,
    /// their orientations untouched.
    pub open spec fn carried(self, face: Turn, dir: TurnDir) -> CubeState {
        CubeState {
            edges: ring_turned(self.edges, edge_slots(edge_ring(face)), dir),
            corners: ring_turned(self.corners, corner_slots(corner_ring(face)), dir),
        }
    }

    /// The cube after the orientations on `face` have been corrected for a
    /// quarter turn of it: on `F` and `B` the four edges are turned over; on
    /// every side face the corners are twisted; on `U` and `D` nothing
    /// changes.
    pub open spec fn corrected(self, face: Turn) -> CubeState {
        CubeState {
            edges: if face == Turn::F || face == Turn::B {
                ring_flipped(self.edges, edge_slots(edge_ring(face)))
            } else {
                self.edges
            },
            corners: if face == Turn::U || face == Turn::D {
                self.corners
            } else {
                ring_twisted(self.corners, corner_slots(corner_ring(face)))
            },
        }
    }

    /// The cube after one twist: the cubies on the face are carried round,
    /// and after a quarter turn either way their orientations are corrected.
    pub open spec fn twisted(self, t: Twist) -> CubeState {
        let moved = self.carried(t.turn, t.dir);
        if t.dir == TurnDir::One || t.dir == TurnDir::Prime {
            moved.corrected(t.turn)
        } else {
            moved
        }
    }

    /// The orientations of the corners in slots 1 to 7, as clockwise thirds.
    /// That of slot 0 follows from them on a cube that twists have made.
    pub open spec fn corner_digits(self) -> Seq<int> {
        Seq::new(7, |i: int| self.corners[i + 1].orientation.thirds())
    }

    /// For each of the edges in slots 1 to 11, 1 if it is flipped and 0 if
    /// not. That of slot 0 follows from them on a cube that twists have made.
    pub open spec fn edge_digits(self) -> Seq<int> {
        Seq::new(
            11,
            |i: int|
                if self.edges[i + 1].flipped {
                    1int
                } else {
                    0int
                },
        )
    }

    /// The orientation coordinate: the corner orientations as a number in
    /// base 3, plus 3^7 times the edge flips as a number in base 2.
    pub open spec fn orientation_coordinate(self) -> int {
        weighted(self.corner_digits(), 3) + 2187 * weighted(self.edge_digits(), 2)
    }

    /// The cube after the twists of `alg`, first to last.
    pub open spec fn applied(self, alg: Seq<Twist>) -> CubeState
        decreases alg.len(),
    {
        if alg.len() == 0 {
            self
        } else {
            self.applied(alg.drop_last()).twisted(alg.last())
        }
    }
}

impl Cube {
    /// The solved cube.
    pub fn new_solved() -> (cube: Cube)
        ensures
            cube@ == CubeState::solved(),
            cube@.is_legal(),
    {
        let cube = Self { edges: Self::solved_edges(), corners: Self::solved_corners() };
        assert(cube@.edges =~= CubeState::solved().edges);
        assert(cube@.corners =~= CubeState::solved().corners);
        proof {
            self::validity::lemma_solved_is_legal();
        }
        cube
    }

    /// The edge array of the solved cube.
    pub fn solved_edges() -> (edges: [Edge; 12])
        ensures
            edges@ == CubeState::solved().edges,
    {
        [
            Edge { id: EdgeId::WB, flipped: false },
            Edge { id: EdgeId::WR, flipped: false },
            Edge { id: EdgeId::WG, flipped: false },
            Edge { id: EdgeId::WO, flipped: false },
            Edge { id: EdgeId::BO, flipped: false },
            Edge { id: EdgeId::BR, flipped: false },
            Edge { id: EdgeId::GR, flipped: false },
            Edge { id: EdgeId::GO, flipped: false },
            Edge { id: EdgeId::YG, flipped: false },
            Edge { id: EdgeId::YR, flipped: false },
            Edge { id: EdgeId::YB, flipped: false },
            Edge { id: EdgeId::YO, flipped: false },
        ]
    }

    /// The corner array of the solved cube.
    pub fn solved_corners() -> (corners: [Corner; 8])
        ensures
            corners@ == CubeState::solved().corners,
    {
        [
            Corner { id: CornerId::WBO, orientation: CornerOrientation::Zero },
            Corner { id: CornerId::WBR, orientation: CornerOrientation::Zero },
            Corner { id: CornerId::WGR, orientation: CornerOrientation::Zero },
            Corner { id: CornerId::WGO, orientation: CornerOrientation::Zero },
            Corner { id: CornerId::YGO, orientation: CornerOrientation::Zero },
            Corner { id: CornerId::YGR, orientation: CornerOrientation::Zero },
            Corner { id: CornerId::YBR, orientation: CornerOrientation::Zero },
            Corner { id: CornerId::YBO, orientation: CornerOrientation::Zero },
        ]
    }

    /// Whether every cubie is in its home slot, not flipped and not twisted.
    pub fn is_solved(&self) -> (b: bool)
        ensures
            b == (self@ == CubeState::solved()),
    {
        let edges = Self::solved_edges();
        let corners = Self::solved_corners();
        let mut i: usize = 0;
        while i < 12
            invariant
                i <= 12,
                edges@ == CubeState::solved().edges,
                forall|j: int| 0 <= j < i ==> self.edges@[j] == edges@[j],
            decreases 12 - i,
        {
            if self.edges[i] != edges[i] {
                return false;
            }
            i += 1;
        }
        let mut k: usize = 0;
        while k < 8
            invariant
                k <= 8,
                corners@ == CubeState::solved().corners,
                forall|j: int| 0 <= j < k ==> self.corners@[j] == corners@[j],
            decreases 8 - k,
        {
            if self.corners[k] != corners[k] {
                return false;
            }
            k += 1;
        }
        assert(self@.edges =~= CubeState::solved().edges);
        assert(self@.corners =~= CubeState::solved().corners);
        true
    }

    /// Applies the twists of `alg`, first to last.
    pub fn apply_algorithm(&mut self, alg: &Algorithm)
        ensures
            final(self)@ == old(self)@.applied(alg@),
            old(self)@.is_legal() ==> final(self)@.is_legal(),
    {
        let mut i: usize = 0;
        while i < alg.twists.len()
            invariant
                i <= alg.twists.len(),
                self@ == old(self)@.applied(alg@.take(i as int)),
            decreases alg.twists.len() - i,
        {
            proof {
                assert(alg@.take(i as int + 1).drop_last() =~= alg@.take(i as int));
            }
            self.twist(alg.twists[i]);
            i += 1;
        }
        proof {
            assert(alg@.take(i as int) =~= alg@);
            if old(self)@.is_legal() {
                self::validity::lemma_applied_keeps_legal(old(self)@, alg@);
            }
        }
    }

    /// Applies the twists of `alg`, first to last.
    pub fn apply_const_algorithm<const N: usize>(&mut self, alg: ConstAlgorithm<N>)
        ensures
            final(self)@ == old(self)@.applied(alg.twists@),
            old(self)@.is_legal() ==> final(self)@.is_legal(),
    {
        let mut i: usize = 0;
        while i < N
            invariant
                i <= N,
                self@ == old(self)@.applied(alg.twists@.take(i as int)),
            decreases N - i,
        {
            proof {
                assert(alg.twists@.take(i as int + 1).drop_last() =~= alg.twists@.take(i as int));
            }
            self.twist(alg.twists[i]);
            i += 1;
        }
        proof {
            assert(alg.twists@.take(i as int) =~= alg.twists@);
            if old(self)@.is_legal() {
                self::validity::lemma_applied_keeps_legal(old(self)@, alg.twists@);
            }
        }
    }

    /// The orientation coordinate of the cube, below 3^7 * 2^11 = 4478976.
    /// It depends on how the cubies are oriented, not on which they are.
    pub fn get_orientation(&self) -> (coordinate: usize)
        ensures
            coordinate == self@.orientation_coordinate(),
            coordinate < 4478976,
    {
        let ghost cd = self@.corner_digits();
        let ghost ed = self@.edge_digits();
        let mut corner_orient: usize = 0;
        let mut i: usize = 8;
        proof {
            assert(cd.subrange(7, 7) =~= Seq::<int>::empty());
            reveal_with_fuel(power, 8);
        }
        while i > 1
            invariant
                1 <= i <= 8,
                cd == self@.corner_digits(),
                corner_orient == weighted(cd.subrange(i - 1, 7), 3),
                corner_orient < power(3, (8 - i) as nat),
            decreases i,
        {
            i -= 1;
            proof {
                let tail = cd.subrange(i - 1, 7);
                assert(tail.drop_first() =~= cd.subrange(i as int, 7));
                assert(tail[0] == self.corners@[i as int].orientation.thirds());
                reveal_with_fuel(power, 8);
            }
            corner_orient = corner_orient * 3 + self.corners[i].orientation.value();
        }
        let mut edge_orient: usize = 0;
        let mut k: usize = 12;
        proof {
            assert(ed.subrange(11, 11) =~= Seq::<int>::empty());
            reveal_with_fuel(power, 12);
        }
        while k > 1
            invariant
                1 <= k <= 12,
                ed == self@.edge_digits(),
                edge_orient == weighted(ed.subrange(k - 1, 11), 2),
                edge_orient < power(2, (12 - k) as nat),
            decreases k,
        {
            k -= 1;
            proof {
                let tail = ed.subrange(k - 1, 11);
                assert(tail.drop_first() =~= ed.subrange(k as int, 11));
                reveal_with_fuel(power, 12);
            }
            edge_orient = edge_orient * 2 + if self.edges[k].flipped {
                1
            } else {
                0
            };
        }
        proof {
            assert(cd.subrange(0, 7) =~= cd);
            assert(ed.subrange(0, 11) =~= ed);
            reveal_with_fuel(power, 12);
        }
        corner_orient + edge_orient * 2187
    }

    /// Carries the cubies on a face round by the direction of `twist`, and
    /// after a quarter turn either way corrects their orientations.
    #[verifier::rlimit(50)]
    pub fn twist(&mut self, twist: Twist)
        ensures
            final(self)@ == old(self)@.twisted(twist),
            old(self)@.is_legal() ==> final(self)@.is_legal(),
    {
        let should_correct_orientation = match twist.dir {
            TurnDir::One => true,
            TurnDir::Two => false,
            TurnDir::Prime => true,
            TurnDir::Identity => {
                proof {
                    if self@.is_legal() {
                        self::validity::lemma_twist_keeps_legal(self@, twist);
                    }
                }
                return ;
            },
        };
        match twist.turn {
            Turn::U => {
                self.cycle_edges(twist.dir, EdgePos::UB, EdgePos::UR, EdgePos::UF, EdgePos::UL);
                self.cycle_corners(
                    twist.dir,
                    CornerPos::UBL,
                    CornerPos::UBR,
                    CornerPos::UFR,
                    CornerPos::UFL,
                );
            },
            Turn::D => {
                self.cycle_edges(twist.dir, EdgePos::DF, EdgePos::DR, EdgePos::DB, EdgePos::DL);
                self.cycle_corners(
                    twist.dir,
                    CornerPos::DFL,
                    CornerPos::DFR,
                    CornerPos::DBR,
                    CornerPos::DBL,
                );
            },
            Turn::F => {
                self.cycle_edges(twist.dir, EdgePos::UF, EdgePos::FR, EdgePos::DF, EdgePos::FL);
                self.cycle_corners(
                    twist.dir,
                    CornerPos::UFL,
                    CornerPos::UFR,
                    CornerPos::DFR,
                    CornerPos::DFL,
                );
                if should_correct_orientation {
                    self.flip_edges(EdgePos::UF, EdgePos::FR, EdgePos::DF, EdgePos::FL);
                    self.corner_correction(
                        CornerPos::UFL,
                        CornerPos::UFR,
                        CornerPos::DFR,
                        CornerPos::DFL,
                    );
                }
            },
            Turn::B => {
                self.cycle_edges(twist.dir, EdgePos::UB, EdgePos::BL, EdgePos::DB, EdgePos::BR);
                self.cycle_corners(
                    twist.dir,
                    CornerPos::UBL,
                    CornerPos::DBL,
                    CornerPos::DBR,
                    CornerPos::UBR,
                );
                if should_correct_orientation {
                    self.flip_edges(EdgePos::UB, EdgePos::BL, EdgePos::DB, EdgePos::BR);
                    self.corner_correction(
                        CornerPos::UBR,
                        CornerPos::UBL,
                        CornerPos::DBL,
                        CornerPos::DBR,
                    );
                }
            },
            Turn::L => {
                self.cycle_edges(twist.dir, EdgePos::UL, EdgePos::FL, EdgePos::DL, EdgePos::BL);
                self.cycle_corners(
                    twist.dir,
                    CornerPos::UBL,
                    CornerPos::UFL,
                    CornerPos::DFL,
                    CornerPos::DBL,
                );
                if should_correct_orientation {
                    self.corner_correction(
                        CornerPos::UBL,
                        CornerPos::UFL,
                        CornerPos::DFL,
                        CornerPos::DBL,
                    );
                }
            },
            Turn::R => {
                self.cycle_edges(twist.dir, EdgePos::UR, EdgePos::BR, EdgePos::DR, EdgePos::FR);
                self.cycle_corners(
                    twist.dir,
                    CornerPos::UFR,
                    CornerPos::UBR,
                    CornerPos::DBR,
                    CornerPos::DFR,
                );
                if should_correct_orientation {
                    self.corner_correction(
                        CornerPos::UFR,
                        CornerPos::UBR,
                        CornerPos::DBR,
                        CornerPos::DFR,
                    );
                }
            },
        }
        assert(self@ =~= old(self)@.twisted(twist));
        proof {
            if old(self)@.is_legal() {
                self::validity::lemma_twist_keeps_legal(old(self)@, twist);
            }
        }
    }

    /// Carries the edges in the ring `a`, `b`, `c`, `d` round by `dir`.
    fn cycle_edges(&mut self, dir: TurnDir, a: EdgePos, b: EdgePos, c: EdgePos, d: EdgePos)
        requires
            all_differ(edge_slots((a, b, c, d))),
        ensures
            final(self).corners == old(self).corners,
            final(self).edges@ == ring_turned(old(self).edges@, edge_slots((a, b, c, d)), dir),
    {
        match dir {
            TurnDir::One => self.cycle_edges_right(a, b, c, d),
            TurnDir::Two => self.swap_opposite_edges(a, b, c, d),
            TurnDir::Prime => self.cycle_edges_left(a, b, c, d),
            TurnDir::Identity => {},
        }
    }

    /// Carries the corners in the ring `a`, `b`, `c`, `d` round by `dir`.
    fn cycle_corners(
        &mut self,
        dir: TurnDir,
        a: CornerPos,
        b: CornerPos,
        c: CornerPos,
        d: CornerPos,
    )
        requires
            all_differ(corner_slots((a, b, c, d))),
        ensures
            final(self).edges == old(self).edges,
            final(self).corners@ == ring_turned(
                old(self).corners@,
                corner_slots((a, b, c, d)),
                dir,
            ),
    {
        match dir {
            TurnDir::One => self.cycle_corners_right(a, b, c, d),
            TurnDir::Two => self.swap_opposite_corners(a, b, c, d),
            TurnDir::Prime => self.cycle_corners_left(a, b, c, d),
            TurnDir::Identity => {},
        }
    }

    /// Exchanges the edges in two slots.
    fn swap_edges(&mut self, a: EdgePos, b: EdgePos)
        ensures
            final(self).corners == old(self).corners,
            final(self).edges@ == old(self).edges@.update(
                a.index(),
                old(self).edges@[b.index()],
            ).update(b.index(), old(self).edges@[a.index()]),
    {
        let tmp = self.edges[a.idx()];
        self.edges[a.idx()] = self.edges[b.idx()];
        self.edges[b.idx()] = tmp;
    }

    /// Exchanges the corners in two slots.
    fn swap_corners(&mut self, a: CornerPos, b: CornerPos)
        ensures
            final(self).edges == old(self).edges,
            final(self).corners@ == old(self).corners@.update(
                a.index(),
                old(self).corners@[b.index()],
            ).update(b.index(), old(self).corners@[a.index()]),
    {
        let tmp = self.corners[a.idx()];
        self.corners[a.idx()] = self.corners[b.idx()];
        self.corners[b.idx()] = tmp;
    }

    /// Exchanges the edges in `a` and `c`, and those in `b` and `d`.
    fn swap_opposite_edges(&mut self, a: EdgePos, b: EdgePos, c: EdgePos, d: EdgePos)
        requires
            all_differ(edge_slots((a, b, c, d))),
        ensures
            final(self).corners == old(self).corners,
            final(self).edges@ == ring_turned(
                old(self).edges@,
                edge_slots((a, b, c, d)),
                TurnDir::Two,
            ),
    {
        self.swap_edges(a, c);
        self.swap_edges(b, d);
    }

    /// Exchanges the corners in `a` and `c`, and those in `b` and `d`.
    fn swap_opposite_corners(&mut self, a: CornerPos, b: CornerPos, c: CornerPos, d: CornerPos)
        requires
            all_differ(corner_slots((a, b, c, d))),
        ensures
            final(self).edges == old(self).edges,
            final(self).corners@ == ring_turned(
                old(self).corners@,
                corner_slots((a, b, c, d)),
                TurnDir::Two,
            ),
    {
        self.swap_corners(a, c);
        self.swap_corners(b, d);
    }

    /// Moves the edge in `a` to `b`, that in `b` to `c`, that in `c` to `d`
    /// and that in `d` to `a`.
    fn cycle_edges_right(&mut self, a: EdgePos, b: EdgePos, c: EdgePos, d: EdgePos)
        requires
            all_differ(edge_slots((a, b, c, d))),
        ensures
            final(self).corners == old(self).corners,
            final(self).edges@ == ring_turned(
                old(self).edges@,
                edge_slots((a, b, c, d)),
                TurnDir::One,
            ),
    {
        let tmp = self.edges[d.idx()];
        self.edges[d.idx()] = self.edges[c.idx()];
        self.edges[c.idx()] = self.edges[b.idx()];
        self.edges[b.idx()] = self.edges[a.idx()];
        self.edges[a.idx()] = tmp;
    }

    /// Moves the corner in `a` to `b`, that in `b` to `c`, that in `c` to
    /// `d` and that in `d` to `a`.
    fn cycle_corners_right(&mut self, a: CornerPos, b: CornerPos, c: CornerPos, d: CornerPos)
        requires
            all_differ(corner_slots((a, b, c, d))),
        ensures
            final(self).edges == old(self).edges,
            final(self).corners@ == ring_turned(
                old(self).corners@,
                corner_slots((a, b, c, d)),
                TurnDir::One,
            ),
    {
        let tmp = self.corners[d.idx()];
        self.corners[d.idx()] = self.corners[c.idx()];
        self.corners[c.idx()] = self.corners[b.idx()];
        self.corners[b.idx()] = self.corners[a.idx()];
        self.corners[a.idx()] = tmp;
    }

    /// Moves the edge in `a` to `d`, that in `d` to `c`, that in `c` to `b`
    /// and that in `b` to `a`.
    fn cycle_edges_left(&mut self, a: EdgePos, b: EdgePos, c: EdgePos, d: EdgePos)
        requires
            all_differ(edge_slots((a, b, c, d))),
        ensures
            final(self).corners == old(self).corners,
            final(self).edges@ == ring_turned(
                old(self).edges@,
                edge_slots((a, b, c, d)),
                TurnDir::Prime,
            ),
    {
        let tmp = self.edges[a.idx()];
        self.edges[a.idx()] = self.edges[b.idx()];
        self.edges[b.idx()] = self.edges[c.idx()];
        self.edges[c.idx()] = self.edges[d.idx()];
        self.edges[d.idx()] = tmp;
    }

    /// Moves the corner in `a` to `d`, that in `d` to `c`, that in `c` to
    /// `b` and that in `b` to `a`.
    fn cycle_corners_left(&mut self, a: CornerPos, b: CornerPos, c: CornerPos, d: CornerPos)
        requires
            all_differ(corner_slots((a, b, c, d))),
        ensures
            final(self).edges == old(self).edges,
            final(self).corners@ == ring_turned(
                old(self).corners@,
                corner_slots((a, b, c, d)),
                TurnDir::Prime,
            ),
    {
        let tmp = self.corners[a.idx()];
        self.corners[a.idx()] = self.corners[b.idx()];
        self.corners[b.idx()] = self.corners[c.idx()];
        self.corners[c.idx()] = self.corners[d.idx()];
        self.corners[d.idx()] = tmp;
    }

    /// Turns over the edges in the four slots.
    fn flip_edges(&mut self, a: EdgePos, b: EdgePos, c: EdgePos, d: EdgePos)
        requires
            all_differ(edge_slots((a, b, c, d))),
        ensures
            final(self).corners == old(self).corners,
            final(self).edges@ == ring_flipped(old(self).edges@, edge_slots((a, b, c, d))),
    {
        self.edges[a.idx()].flip();
        self.edges[b.idx()].flip();
        self.edges[c.idx()].flip();
        self.edges[d.idx()].flip();
    }

    /// Twists the corners of a side face after a quarter turn of it. Seen
    /// with the turned face in front and U on top, `a` is the upper left
    /// slot, `b` the upper right, `c` the lower right and `d` the lower left.
    fn corner_correction(&mut self, a: CornerPos, b: CornerPos, c: CornerPos, d: CornerPos)
        requires
            all_differ(corner_slots((a, b, c, d))),
        ensures
            final(self).edges == old(self).edges,
            final(self).corners@ == ring_twisted(old(self).corners@, corner_slots((a, b, c, d))),
    {
        self.corners[a.idx()].twist_counterclockwise();
        self.corners[b.idx()].twist_clockwise();
        self.corners[c.idx()].twist_counterclockwise();
        self.corners[d.idx()].twist_clockwise();
    }
}

} // verus!
