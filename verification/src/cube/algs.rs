//! Moves and move sequences: faces, directions, twists, and algorithms in
//! standard cube notation.
use rand::rngs::ThreadRng;
use rand::seq::IteratorRandom;
use vstd::prelude::*;
use vstd::string::StringExecFns;

verus! {

/// A face of the cube that can be turned.
#[derive(Eq, PartialEq, Structural, Clone, Copy, Debug)]
pub enum Turn {
    U,
    L,
    F,
    R,
    B,
    D,
}

impl Turn {
    /// The face on the other side of the cube.
    pub open spec fn opposite(self) -> Turn {
        match self {
            Turn::U => Turn::D,
            Turn::D => Turn::U,
            Turn::L => Turn::R,
            Turn::R => Turn::L,
            Turn::F => Turn::B,
            Turn::B => Turn::F,
        }
    }

    /// `U`, `R` and `F`: of two opposite faces, the one that comes first when
    /// both are turned one after the other.
    pub open spec fn is_primary(self) -> bool {
        self == Turn::U || self == Turn::R || self == Turn::F
    }

    /// The letter that names the face in notation.
    pub open spec fn letter(self) -> char {
        match self {
            Turn::U => 'U',
            Turn::D => 'D',
            Turn::F => 'F',
            Turn::B => 'B',
            Turn::L => 'L',
            Turn::R => 'R',
        }
    }

    /// The face that a character names, if it names one.
    pub open spec fn of_char(c: char) -> Option<Turn> {
        if c == 'U' {
            Some(Turn::U)
        } else if c == 'D' {
            Some(Turn::D)
        } else if c == 'F' {
            Some(Turn::F)
        } else if c == 'B' {
            Some(Turn::B)
        } else if c == 'L' {
            Some(Turn::L)
        } else if c == 'R' {
            Some(Turn::R)
        } else {
            None
        }
    }

    /// The face that a character names, if it names one.
    pub fn from_char(c: char) -> (r: Option<Turn>)
        ensures
            r == Turn::of_char(c),
    {
        match c {
            'U' => Some(Turn::U),
            'D' => Some(Turn::D),
            'F' => Some(Turn::F),
            'B' => Some(Turn::B),
            'L' => Some(Turn::L),
            'R' => Some(Turn::R),
            _ => None,
        }
    }

    /// The letter that names the face.
    pub fn to_char(&self) -> (c: char)
        ensures
            c == self.letter(),
    {
        match self {
            Turn::U => 'U',
            Turn::D => 'D',
            Turn::F => 'F',
            Turn::B => 'B',
            Turn::L => 'L',
            Turn::R => 'R',
        }
    }

    /// Whether `other` is the face on the other side of the cube.
    pub fn is_opposite(&self, other: Turn) -> (r: bool)
        ensures
            r == (other == self.opposite()),
    {
        match (*self, other) {
            (Turn::U, Turn::D) | (Turn::D, Turn::U) | (Turn::L, Turn::R) | (Turn::R, Turn::L) | (
                Turn::F,
                Turn::B,
            ) | (Turn::B, Turn::F) => true,
            _ => false,
        }
    }

    /// Whether a turn of face `next` may follow a turn of face `prev` in a
    /// canonical sequence. After no turn anything may come. After a primary
    /// face any other face may come. After a secondary face neither that face
    /// nor its opposite may come, so that of two commuting turns only the
    /// order primary-then-secondary is kept.
    pub open spec fn may_follow(prev: Option<Turn>, next: Turn) -> bool {
        match prev {
            None => true,
            Some(p) => next != p && (p.is_primary() || next != p.opposite()),
        }
    }

    /// Decides [`Turn::may_follow`].
    pub fn allowed_after(prev: Option<Turn>, next: Turn) -> (r: bool)
        ensures
            r == Turn::may_follow(prev, next),
    {
        match prev {
            None => true,
            Some(p) => match p {
                Turn::U | Turn::R | Turn::F => next != p,
                Turn::L => next != Turn::L && next != Turn::R,
                Turn::B => next != Turn::B && next != Turn::F,
                Turn::D => next != Turn::D && next != Turn::U,
            },
        }
    }
}

impl Default for Turn {
    fn default() -> (r: Turn)
        ensures
            r == Turn::U,
    {
        Turn::U
    }
}

/// How far a face is turned, in clockwise quarter turns.
#[derive(Clone, Copy, PartialEq, Eq, Structural, Debug)]
pub enum TurnDir {
    Identity,
    One,
    Two,
    Prime,
}

impl TurnDir {
    /// The number of clockwise quarter turns, `0..4`.
    pub open spec fn quarters(self) -> int {
        match self {
            TurnDir::Identity => 0,
            TurnDir::One => 1,
            TurnDir::Two => 2,
            TurnDir::Prime => 3,
        }
    }

    /// The direction that amounts to `n` clockwise quarter turns.
    pub open spec fn from_quarters(n: int) -> TurnDir {
        if n % 4 == 0 {
            TurnDir::Identity
        } else if n % 4 == 1 {
            TurnDir::One
        } else if n % 4 == 2 {
            TurnDir::Two
        } else {
            TurnDir::Prime
        }
    }

    /// One turn after the other: the quarter turns add up modulo four.
    pub open spec fn plus(self, rhs: TurnDir) -> TurnDir {
        TurnDir::from_quarters(self.quarters() + rhs.quarters())
    }

    /// The direction that undoes this one.
    pub open spec fn reversed(self) -> TurnDir {
        match self {
            TurnDir::Identity => TurnDir::Identity,
            TurnDir::One => TurnDir::Prime,
            TurnDir::Two => TurnDir::Two,
            TurnDir::Prime => TurnDir::One,
        }
    }

    /// The direction that a character stands for, if it stands for one: a
    /// blank or `1` for a quarter turn, `2` for a half turn, an apostrophe or
    /// `3` for a quarter turn back, `0` for no turn.
    pub open spec fn of_char(c: char) -> Option<TurnDir> {
        if c == '0' {
            Some(TurnDir::Identity)
        } else if c == ' ' || c == '1' {
            Some(TurnDir::One)
        } else if c == '2' {
            Some(TurnDir::Two)
        } else if c == '\'' || c == '3' {
            Some(TurnDir::Prime)
        } else {
            None
        }
    }

    /// What notation writes after the face letter: nothing for a quarter
    /// turn, `2` for a half turn, an apostrophe for a quarter turn back, `0`
    /// for no turn.
    pub open spec fn suffix(self) -> Seq<char> {
        match self {
            TurnDir::Identity => seq!['0'],
            TurnDir::One => Seq::empty(),
            TurnDir::Two => seq!['2'],
            TurnDir::Prime => seq!['\''],
        }
    }

    /// The number of clockwise quarter turns.
    pub fn as_u8(self) -> (n: u8)
        ensures
            n == self.quarters(),
    {
        match self {
            TurnDir::Identity => 0,
            TurnDir::One => 1,
            TurnDir::Two => 2,
            TurnDir::Prime => 3,
        }
    }

    /// The direction that amounts to `v` clockwise quarter turns.
    pub fn from_u8(v: u8) -> (d: TurnDir)
        ensures
            d == TurnDir::from_quarters(v as int),
    {
        match v % 4 {
            0 => TurnDir::Identity,
            1 => TurnDir::One,
            2 => TurnDir::Two,
            _ => TurnDir::Prime,
        }
    }

    /// The direction that a character stands for, if it stands for one.
    pub fn from_char(c: char) -> (r: Option<TurnDir>)
        ensures
            r == TurnDir::of_char(c),
    {
        match c {
            '0' => Some(TurnDir::Identity),
            ' ' | '1' => Some(TurnDir::One),
            '2' => Some(TurnDir::Two),
            '\'' | '3' => Some(TurnDir::Prime),
            _ => None,
        }
    }
}

impl Default for TurnDir {
    fn default() -> (r: TurnDir)
        ensures
            r == TurnDir::Identity,
    {
        TurnDir::Identity
    }
}

impl core::ops::Add for TurnDir {
    type Output = TurnDir;

    fn add(self, rhs: TurnDir) -> (r: TurnDir) {
        TurnDir::from_u8(self.as_u8() + rhs.as_u8())
    }
}

impl vstd::std_specs::ops::AddSpecImpl for TurnDir {
    open spec fn obeys_add_spec() -> bool {
        true
    }

    open spec fn add_req(self, rhs: TurnDir) -> bool {
        true
    }

    open spec fn add_spec(self, rhs: TurnDir) -> TurnDir {
        self.plus(rhs)
    }
}

/// One move: a face and how far it is turned.
#[derive(Clone, Copy, PartialEq, Eq, Structural, Debug)]
pub struct Twist {
    pub turn: Turn,
    pub dir: TurnDir,
}

impl Twist {
    /// The twist that undoes this one: the same face, turned back.
    pub open spec fn inverted(self) -> Twist {
        Twist { turn: self.turn, dir: self.dir.reversed() }
    }

    /// This twist followed by `other`, as one twist, where both turn the
    /// same face.
    pub open spec fn combined(self, other: Twist) -> Option<Twist> {
        if self.turn == other.turn {
            Some(Twist { turn: self.turn, dir: self.dir.plus(other.dir) })
        } else {
            None
        }
    }

    /// The twist in notation: the face letter, then the direction's suffix.
    pub open spec fn notation(self) -> Seq<char> {
        seq![self.turn.letter()] + self.dir.suffix()
    }

    /// A twist of `turn` by `dir`.
    pub fn new(turn: Turn, dir: TurnDir) -> (t: Twist)
        ensures
            t == (Twist { turn, dir }),
    {
        Self { turn, dir }
    }

    /// The twist that undoes this one.
    pub fn inverse(self) -> (t: Twist)
        ensures
            t == self.inverted(),
    {
        match self {
            Twist { turn, dir: TurnDir::Identity } => Twist { turn, dir: TurnDir::Identity },
            Twist { turn, dir: TurnDir::One } => Twist { turn, dir: TurnDir::Prime },
            Twist { turn, dir: TurnDir::Two } => Twist { turn, dir: TurnDir::Two },
            Twist { turn, dir: TurnDir::Prime } => Twist { turn, dir: TurnDir::One },
        }
    }

    /// This twist followed by `other`, as one twist, where both turn the same
    /// face.
    pub fn try_add(self, other: Twist) -> (r: Option<Twist>)
        ensures
            r == self.combined(other),
    {
        if self.turn != other.turn {
            return None;
        }
        Some(Twist { turn: self.turn, dir: self.dir + other.dir })
    }

    /// The eighteen twists that move anything: each face, by a quarter turn,
    /// a half turn and a quarter turn back.
    pub open spec fn all() -> Seq<Twist> {
        seq![
            Twist { turn: Turn::U, dir: TurnDir::One },
            Twist { turn: Turn::U, dir: TurnDir::Two },
            Twist { turn: Turn::U, dir: TurnDir::Prime },
            Twist { turn: Turn::D, dir: TurnDir::One },
            Twist { turn: Turn::D, dir: TurnDir::Two },
            Twist { turn: Turn::D, dir: TurnDir::Prime },
            Twist { turn: Turn::F, dir: TurnDir::One },
            Twist { turn: Turn::F, dir: TurnDir::Two },
            Twist { turn: Turn::F, dir: TurnDir::Prime },
            Twist { turn: Turn::B, dir: TurnDir::One },
            Twist { turn: Turn::B, dir: TurnDir::Two },
            Twist { turn: Turn::B, dir: TurnDir::Prime },
            Twist { turn: Turn::L, dir: TurnDir::One },
            Twist { turn: Turn::L, dir: TurnDir::Two },
            Twist { turn: Turn::L, dir: TurnDir::Prime },
            Twist { turn: Turn::R, dir: TurnDir::One },
            Twist { turn: Turn::R, dir: TurnDir::Two },
            Twist { turn: Turn::R, dir: TurnDir::Prime },
        ]
    }

    /// The eighteen twists that move anything, face by face.
    pub fn all_twists() -> (r: [Twist; 18])
        ensures
            r@ == Twist::all(),
    {
        [
            Twist { turn: Turn::U, dir: TurnDir::One },
            Twist { turn: Turn::U, dir: TurnDir::Two },
            Twist { turn: Turn::U, dir: TurnDir::Prime },
            Twist { turn: Turn::D, dir: TurnDir::One },
            Twist { turn: Turn::D, dir: TurnDir::Two },
            Twist { turn: Turn::D, dir: TurnDir::Prime },
            Twist { turn: Turn::F, dir: TurnDir::One },
            Twist { turn: Turn::F, dir: TurnDir::Two },
            Twist { turn: Turn::F, dir: TurnDir::Prime },
            Twist { turn: Turn::B, dir: TurnDir::One },
            Twist { turn: Turn::B, dir: TurnDir::Two },
            Twist { turn: Turn::B, dir: TurnDir::Prime },
            Twist { turn: Turn::L, dir: TurnDir::One },
            Twist { turn: Turn::L, dir: TurnDir::Two },
            Twist { turn: Turn::L, dir: TurnDir::Prime },
            Twist { turn: Turn::R, dir: TurnDir::One },
            Twist { turn: Turn::R, dir: TurnDir::Two },
            Twist { turn: Turn::R, dir: TurnDir::Prime },
        ]
    }

    /// The twists of `moveset`, in order, whose face may follow `prev`.
    pub open spec fn allowed(moveset: Seq<Twist>, prev: Option<Turn>) -> Seq<Twist> {
        moveset.filter(|m: Twist| Turn::may_follow(prev, m.turn))
    }

    /// The twists among the eighteen whose face may follow `prev`.
    pub fn allowed_moves(prev: Option<Turn>) -> (moves: Vec<Twist>)
        ensures
            moves@ == Twist::allowed(Twist::all(), prev),
    {
        let all = Self::all_twists();
        Self::allowed_moves_from_moveset(all.as_slice(), prev)
    }

    /// The twists of `moveset`, in order, whose face may follow `prev`.
    pub fn allowed_moves_from_moveset(moveset: &[Twist], prev: Option<Turn>) -> (moves: Vec<Twist>)
        ensures
            moves@ == Twist::allowed(moveset@, prev),
    {
        let ghost keep = |m: Twist| Turn::may_follow(prev, m.turn);
        let mut moves: Vec<Twist> = Vec::new();
        let mut i: usize = 0;
        proof {
            reveal(Seq::filter);
        }
        while i < moveset.len()
            invariant
                i <= moveset.len(),
                keep == (|m: Twist| Turn::may_follow(prev, m.turn)),
                moves@ == moveset@.take(i as int).filter(keep),
            decreases moveset.len() - i,
        {
            let m = moveset[i];
            proof {
                reveal(Seq::filter);
                assert(moveset@.take(i as int + 1).drop_last() =~= moveset@.take(i as int));
            }
            if Turn::allowed_after(prev, m.turn) {
                moves.push(m);
            }
            i += 1;
        }
        proof {
            assert(moveset@.take(i as int) =~= moveset@);
        }
        moves
    }

    /// The twist in notation.
    pub fn to_string(&self) -> (s: String)
        ensures
            s@ == self.notation(),
    {
        let mut s = String::new();
        proof {
            reveal_strlit("U");
            reveal_strlit("D");
            reveal_strlit("F");
            reveal_strlit("B");
            reveal_strlit("L");
            reveal_strlit("R");
            reveal_strlit("");
            reveal_strlit("2");
            reveal_strlit("'");
            reveal_strlit("0");
        }
        let turn_str = match self.turn {
            Turn::U => "U",
            Turn::D => "D",
            Turn::F => "F",
            Turn::B => "B",
            Turn::L => "L",
            Turn::R => "R",
        };
        let dir_str = match self.dir {
            TurnDir::One => "",
            TurnDir::Two => "2",
            TurnDir::Prime => "'",
            TurnDir::Identity => "0",
        };
        s.append(turn_str);
        s.append(dir_str);
        assert(s@ =~= self.notation());
        s
    }
}

impl Default for Twist {
    fn default() -> (t: Twist)
        ensures
            t == (Twist { turn: Turn::U, dir: TurnDir::Identity }),
    {
        Twist { turn: Turn::U, dir: TurnDir::Identity }
    }
}

/// A twist is among the allowed ones exactly if it is in the move set and
/// its face may follow `prev`.
pub proof fn lemma_allowed_members(moveset: Seq<Twist>, prev: Option<Turn>, t: Twist)
    ensures
        Twist::allowed(moveset, prev).contains(t) <==> moveset.contains(t) && Turn::may_follow(
            prev,
            t.turn,
        ),
{
    let keep = |m: Twist| Turn::may_follow(prev, m.turn);
    let kept = moveset.filter(keep);
    if kept.contains(t) {
        moveset.lemma_filter_contains_rev(keep, t);
        let i = choose|i: int| 0 <= i < kept.len() && kept[i] == t;
        moveset.lemma_filter_pred(keep, i);
    }
    if moveset.contains(t) && Turn::may_follow(prev, t.turn) {
        let i = choose|i: int| 0 <= i < moveset.len() && moveset[i] == t;
        moveset.lemma_filter_contains(keep, i);
    }
}

/// A sequence of twists, applied first to last.
#[derive(PartialEq, Eq, Debug)]
pub struct Algorithm {
    pub twists: Vec<Twist>,
}

impl View for Algorithm {
    type V = Seq<Twist>;

    open spec fn view(&self) -> Seq<Twist> {
        self.twists@
    }
}

/// What reading one more character does to the twists read so far: a face
/// letter starts a quarter turn of that face; a direction character sets the
/// direction of the twist read last, if there is one; a blank and any other
/// character change nothing.
pub open spec fn parse_step(acc: Seq<Twist>, c: char) -> Seq<Twist> {
    if c == ' ' {
        acc
    } else if let Some(turn) = Turn::of_char(c) {
        acc.push(Twist { turn, dir: TurnDir::One })
    } else if let Some(dir) = TurnDir::of_char(c) {
        if acc.len() > 0 {
            acc.update(acc.len() - 1, Twist { turn: acc.last().turn, dir })
        } else {
            acc
        }
    } else {
        acc
    }
}

/// The twists that a text in cube notation stands for.
pub open spec fn parsed(text: Seq<char>) -> Seq<Twist>
    decreases text.len(),
{
    if text.len() == 0 {
        Seq::empty()
    } else {
        parse_step(parsed(text.drop_last()), text.last())
    }
}

/// The twists in notation, separated by single blanks.
pub open spec fn formatted(alg: Seq<Twist>) -> Seq<char>
    decreases alg.len(),
{
    if alg.len() == 0 {
        Seq::empty()
    } else if alg.len() == 1 {
        alg[0].notation()
    } else {
        formatted(alg.drop_last()) + seq![' '] + alg.last().notation()
    }
}

/// The twists `acc` after `t` has been added to the twist at `at`, which
/// turns the same face: the two become one twist, and where they cancel the
/// twist at `at` leaves the sequence.
pub open spec fn merged_at(acc: Seq<Twist>, at: int, t: Twist) -> Seq<Twist> {
    let dir = acc[at].dir.plus(t.dir);
    if dir == TurnDir::Identity {
        acc.remove(at)
    } else {
        acc.update(at, Twist { turn: t.turn, dir })
    }
}

/// What taking in one more twist does to the simplified twists so far. A
/// twist by no turn is dropped. A twist of the face turned last is merged
/// into the last twist. A twist of the face turned before last is merged
/// into that twist where the last twist turns the opposite face, past which
/// it can be moved. Any other twist is appended.
pub open spec fn absorb(acc: Seq<Twist>, t: Twist) -> Seq<Twist> {
    let n = acc.len() as int;
    if t.dir == TurnDir::Identity {
        acc
    } else if n >= 1 && acc[n - 1].turn == t.turn {
        merged_at(acc, n - 1, t)
    } else if n >= 2 && acc[n - 2].turn == t.turn && acc[n - 1].turn == t.turn.opposite() {
        merged_at(acc, n - 2, t)
    } else {
        acc.push(t)
    }
}

/// The twists of `alg` taken in one by one, first to last.
pub open spec fn simplified(alg: Seq<Twist>) -> Seq<Twist>
    decreases alg.len(),
{
    if alg.len() == 0 {
        Seq::empty()
    } else {
        absorb(simplified(alg.drop_last()), alg.last())
    }
}

impl Algorithm {
    /// The algorithm of the given twists.
    pub fn new(twists: Vec<Twist>) -> (alg: Algorithm)
        ensures
            alg.twists == twists,
    {
        Self { twists }
    }

    /// Reads an algorithm in cube notation. Characters that are neither a
    /// face letter nor a direction are passed over.
    pub fn from_str(str: &str) -> (alg: Algorithm)
        ensures
            alg@ == parsed(str@),
    {
        let mut twists: Vec<Twist> = Vec::new();
        let ghost mut read: int = 0;
        for c in it: str.chars()
            invariant
                it.seq() == str@,
                read == it.index(),
                twists@ == parsed(str@.take(read)),
        {
            proof {
                assert(str@.take(read + 1).drop_last() =~= str@.take(read));
                read = read + 1;
            }
            if c != ' ' {
                if let Some(t) = Turn::from_char(c) {
                    twists.push(Twist::new(t, TurnDir::One));
                } else if let Some(d) = TurnDir::from_char(c) {
                    let n = twists.len();
                    if n > 0 {
                        twists[n - 1].dir = d;
                    }
                }
            }
        }
        proof {
            assert(str@.take(read) =~= str@);
        }
        Self { twists }
    }

    /// Moves the twists of `other` to the end of this algorithm.
    pub fn append(&mut self, other: &mut Self)
        ensures
            final(self)@ == old(self)@ + old(other)@,
            final(other)@ == Seq::<Twist>::empty(),
    {
        self.twists.append(&mut other.twists);
    }

    /// Shortens the algorithm without changing what it does to a cube:
    /// twists of one face that follow each other, or that are kept apart only
    /// by a twist of the opposite face, become one twist or none.
    pub fn simplify(&mut self)
        ensures
            final(self)@ == simplified(old(self)@),
    {
        let mut simplified: Vec<Twist> = Vec::new();
        let mut i: usize = 0;
        while i < self.twists.len()
            invariant
                i <= self.twists.len(),
                simplified@ == self::simplified(self.twists@.take(i as int)),
            decreases self.twists.len() - i,
        {
            let twist = self.twists[i];
            proof {
                assert(self.twists@.take(i as int + 1).drop_last() =~= self.twists@.take(i as int));
            }
            i += 1;
            if twist.dir == TurnDir::Identity {
                continue ;
            }
            let mut push_twist = true;
            let len = simplified.len();
            let ghost before = simplified@;
            if len >= 1 {
                let last = simplified[len - 1];
                let last_turn = last.turn;
                if let Some(added) = last.try_add(twist) {
                    if added.dir == TurnDir::Identity {
                        simplified.pop();
                        assert(simplified@ =~= before.remove(len - 1));
                    } else {
                        simplified[len - 1] = added;
                    }
                    push_twist = false;
                } else if len >= 2 {
                    let second_last = simplified[len - 2];
                    if second_last.turn.is_opposite(last_turn) {
                        if let Some(added) = second_last.try_add(twist) {
                            if added.dir == TurnDir::Identity {
                                simplified.remove(len - 2);
                            } else {
                                simplified[len - 2] = added;
                            }
                            push_twist = false;
                        }
                    }
                }
            }
            if push_twist {
                simplified.push(twist);
            }
        }
        proof {
            assert(self.twists@.take(i as int) =~= self.twists@);
        }
        self.twists = simplified;
    }

    /// The algorithm in cube notation, the twists separated by single blanks.
    pub fn to_string(&self) -> (s: String)
        ensures
            s@ == formatted(self@),
    {
        let mut s = String::new();
        let mut i: usize = 0;
        while i < self.twists.len()
            invariant
                i <= self.twists.len(),
                s@ == formatted(self@.take(i as int)),
            decreases self.twists.len() - i,
        {
            proof {
                reveal_strlit(" ");
                assert(self@.take(i as int + 1).drop_last() =~= self@.take(i as int));
            }
            if i > 0 {
                s.append(" ");
            }
            let t = self.twists[i].to_string();
            s.append(t.as_str());
            i += 1;
        }
        proof {
            assert(self@.take(i as int) =~= self@);
        }
        s
    }
}

/// The thread-local random number generator of the `rand` crate. Nothing is
/// known of the numbers it gives.
#[verifier::external_type_specification]
#[verifier::external_body]
pub struct ExThreadRng(ThreadRng);

/// Calls `rand::seq::IteratorRandom::choose` on the twists of `moves`. The
/// crate documents that it returns one element of the sequence, picked
/// uniformly at random, and `None` only where the sequence is empty. Which
/// element comes back is not stated.
#[verifier::external_body]
fn choose_twist(rng: &mut ThreadRng, moves: &Vec<Twist>) -> (picked: Option<Twist>)
    ensures
        moves@.len() > 0 ==> picked is Some,
        picked matches Some(t) ==> moves@.contains(t),
{
    moves.iter().copied().choose(rng)
}

/// Whatever face was turned last, some twist may follow.
pub proof fn lemma_some_twist_allowed(prev: Option<Turn>)
    ensures
        Twist::allowed(Twist::all(), prev).len() > 0,
{
    let next = if prev == Some(Turn::U) {
        Twist { turn: Turn::D, dir: TurnDir::One }
    } else if prev == Some(Turn::D) {
        Twist { turn: Turn::F, dir: TurnDir::One }
    } else {
        Twist { turn: Turn::U, dir: TurnDir::One }
    };
    assert(Twist::all()[0] == Twist { turn: Turn::U, dir: TurnDir::One });
    assert(Twist::all()[3] == Twist { turn: Turn::D, dir: TurnDir::One });
    assert(Twist::all()[6] == Twist { turn: Turn::F, dir: TurnDir::One });
    assert(Twist::all().contains(next));
    lemma_allowed_members(Twist::all(), prev, next);
}

/// Whether each twist but the first may follow the one before it: no two
/// twists next to each other turn the same face, and a twist of `D`, `L` or
/// `B` is not followed by one of the opposite face.
pub open spec fn is_canonical(alg: Seq<Twist>) -> bool {
    forall|i: int, j: int|
        #![trigger alg[i], alg[j]]
        0 <= i && j == i + 1 && j < alg.len() ==> Turn::may_follow(Some(alg[i].turn), alg[j].turn)
}

impl Twist {
    /// One of the eighteen twists whose face may follow `prev_turn`, picked
    /// at random.
    pub fn new_random(rng: &mut ThreadRng, prev_turn: Option<Turn>) -> (t: Twist)
        ensures
            Twist::all().contains(t),
            Turn::may_follow(prev_turn, t.turn),
    {
        let moves = Self::allowed_moves(prev_turn);
        proof {
            lemma_some_twist_allowed(prev_turn);
        }
        let t = choose_twist(rng, &moves).unwrap();
        proof {
            lemma_allowed_members(Twist::all(), prev_turn, t);
        }
        t
    }
}

impl Algorithm {
    /// A random scramble of `length` twists, each one of the eighteen
    /// twists and each but the first one that may follow the twist before
    /// it.
    pub fn new_random(rng: &mut ThreadRng, length: usize) -> (alg: Algorithm)
        ensures
            alg@.len() == length,
            forall|i: int| 0 <= i < alg@.len() ==> Twist::all().contains(#[trigger] alg@[i]),
            is_canonical(alg@),
    {
        let mut twists: Vec<Twist> = Vec::new();
        let mut prev_turn: Option<Turn> = None;
        let mut i: usize = 0;
        while i < length
            invariant
                i <= length,
                twists@.len() == i,
                forall|k: int|
                    0 <= k < twists@.len() ==> Twist::all().contains(#[trigger] twists@[k]),
                is_canonical(twists@),
                prev_turn == if i == 0 {
                    None
                } else {
                    Some(twists@[i - 1].turn)
                },
            decreases length - i,
        {
            let twist = Twist::new_random(rng, prev_turn);
            twists.push(twist);
            prev_turn = Some(twist.turn);
            i += 1;
        }
        Self { twists }
    }
}

/// An algorithm whose number of twists is part of its type.
#[derive(Clone, Copy, Debug)]
pub struct ConstAlgorithm<const N: usize> {
    pub twists: [Twist; N],
}

/// Reading more characters never takes a twist away.
pub proof fn lemma_parsed_prefix_len(text: Seq<char>, n: int)
    requires
        0 <= n <= text.len(),
    ensures
        parsed(text.take(n)).len() <= parsed(text).len(),
    decreases text.len() - n,
{
    if n == text.len() {
        assert(text.take(n) =~= text);
    } else {
        lemma_parsed_prefix_len(text, n + 1);
        assert(text.take(n + 1).drop_last() =~= text.take(n));
    }
}

impl<const N: usize> ConstAlgorithm<N> {
    /// Reads an algorithm of exactly `N` twists in cube notation.
    pub fn from_str(s: &str) -> (alg: Self)
        requires
            parsed(s@).len() == N,
        ensures
            alg.twists@ == parsed(s@),
    {
        let mut twists = [Twist { turn: Turn::U, dir: TurnDir::Identity };N];
        let mut len: usize = 0;
        let ghost mut read: int = 0;
        for c in it: s.chars()
            invariant
                it.seq() == s@,
                read == it.index(),
                parsed(s@).len() == N,
                len == parsed(s@.take(read)).len(),
                forall|i: int| 0 <= i < len ==> twists@[i] == parsed(s@.take(read))[i],
        {
            proof {
                assert(s@.take(read + 1).drop_last() =~= s@.take(read));
                lemma_parsed_prefix_len(s@, read + 1);
                read = read + 1;
            }
            if c != ' ' {
                if let Some(t) = Turn::from_char(c) {
                    twists[len] = Twist::new(t, TurnDir::One);
                    len += 1;
                } else if let Some(d) = TurnDir::from_char(c) {
                    if len > 0 {
                        twists[len - 1].dir = d;
                    }
                }
            }
        }
        proof {
            assert(s@.take(read) =~= s@);
            assert(twists@ =~= parsed(s@));
        }
        Self { twists }
    }

    /// The same twists as an algorithm of any length.
    pub fn to_algorithm(&self) -> (alg: Algorithm)
        ensures
            alg@ == self.twists@,
    {
        let mut twists: Vec<Twist> = Vec::with_capacity(N);
        let mut i: usize = 0;
        while i < N
            invariant
                i <= N,
                twists@ == self.twists@.take(i as int),
            decreases N - i,
        {
            twists.push(self.twists[i]);
            assert(twists@ =~= self.twists@.take(i as int + 1));
            i += 1;
        }
        assert(twists@ =~= self.twists@);
        Algorithm { twists }
    }
}

/// The twists read so far, `acc`, after the characters of `text` have been
/// read too.
pub open spec fn parsed_on(acc: Seq<Twist>, text: Seq<char>) -> Seq<Twist>
    decreases text.len(),
{
    if text.len() == 0 {
        acc
    } else {
        parse_step(parsed_on(acc, text.drop_last()), text.last())
    }
}

/// Reading two texts joined is reading the first and going on with the
/// second.
pub proof fn lemma_parsed_concat(head: Seq<char>, tail: Seq<char>)
    ensures
        parsed(head + tail) == parsed_on(parsed(head), tail),
    decreases tail.len(),
{
    if tail.len() == 0 {
        assert(head + tail =~= head);
    } else {
        lemma_parsed_concat(head, tail.drop_last());
        assert((head + tail).drop_last() =~= head + tail.drop_last());
    }
}

impl ConstAlgorithm<20> {
    /// The superflip: every edge turned over in its home slot.
    #[verifier::rlimit(50)]
    pub fn superflip() -> (alg: ConstAlgorithm<20>)
        ensures
            alg.twists@ == parsed("U R2 F B R B2 R U2 L B2 R U' D' R2 F R' L B2 U2 F2"@),
    {
        proof {
            reveal_strlit("U R2 F B R B2 R U2 L B2 R U' D' R2 F R' L B2 U2 F2");
            reveal_strlit("U R2 F B R B2 R U2 L B2 R");
            reveal_strlit(" U' D' R2 F R' L B2 U2 F2");
            assert("U R2 F B R B2 R U2 L B2 R U' D' R2 F R' L B2 U2 F2"@
                =~= "U R2 F B R B2 R U2 L B2 R"@ + " U' D' R2 F R' L B2 U2 F2"@);
            lemma_parsed_concat("U R2 F B R B2 R U2 L B2 R"@, " U' D' R2 F R' L B2 U2 F2"@);
            assert(parsed("U R2 F B R B2 R U2 L B2 R"@).len() == 11) by {
                reveal_with_fuel(parsed, 27);
            }
            assert(parsed_on(
                parsed("U R2 F B R B2 R U2 L B2 R"@),
                " U' D' R2 F R' L B2 U2 F2"@,
            ).len() == 20) by {
                reveal_with_fuel(parsed_on, 27);
            }
        }
        ConstAlgorithm::from_str("U R2 F B R B2 R U2 L B2 R U' D' R2 F R' L B2 U2 F2")
    }
}

impl ConstAlgorithm<14> {
    /// The J permutation of the last layer.
    #[verifier::rlimit(50)]
    pub fn j_perm() -> (alg: ConstAlgorithm<14>)
        ensures
            alg.twists@ == parsed("R U R' F' R U R' U' R' F R2 U' R' U'"@),
    {
        proof {
            reveal_strlit("R U R' F' R U R' U' R' F R2 U' R' U'");
            reveal_with_fuel(parsed, 38);
        }
        ConstAlgorithm::from_str("R U R' F' R U R' U' R' F R2 U' R' U'")
    }

    /// The T permutation of the last layer.
    #[verifier::rlimit(50)]
    pub fn t_perm() -> (alg: ConstAlgorithm<14>)
        ensures
            alg.twists@ == parsed("R U R' U' R' F R2 U' R' U' R U R' F'"@),
    {
        proof {
            reveal_strlit("R U R' U' R' F R2 U' R' U' R U R' F'");
            reveal_with_fuel(parsed, 38);
        }
        ConstAlgorithm::from_str("R U R' U' R' F R2 U' R' U' R U R' F'")
    }
}

impl ConstAlgorithm<11> {
    /// The Ua permutation of the last layer.
    #[verifier::rlimit(50)]
    pub fn ua_perm() -> (alg: ConstAlgorithm<11>)
        ensures
            alg.twists@ == parsed("R U' R U R U R U' R' U' R2"@),
    {
        proof {
            reveal_strlit("R U' R U R U R U' R' U' R2");
            reveal_with_fuel(parsed, 28);
        }
        ConstAlgorithm::from_str("R U' R U R U R U' R' U' R2")
    }
}

} // verus!
