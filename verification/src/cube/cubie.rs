//! The pieces of the cube: sticker colours, the identity of each edge and
//! corner cubie, the slots they can occupy, and their orientation.
use vstd::prelude::*;

verus! {

/// A sticker colour.
#[derive(PartialEq, Eq, Structural, Copy, Clone, Debug)]
pub enum Color {
    White,
    Orange,
    Green,
    Red,
    Blue,
    Yellow,
}

impl Color {
    /// The upper-case initial that stands for the colour in a drawing.
    pub open spec fn letter(self) -> char {
        match self {
            Color::White => 'W',
            Color::Orange => 'O',
            Color::Green => 'G',
            Color::Red => 'R',
            Color::Blue => 'B',
            Color::Yellow => 'Y',
        }
    }

    /// The upper-case initial of the colour.
    pub fn to_char(&self) -> (c: char)
        ensures
            c == self.letter(),
    {
        match self {
            Color::White => 'W',
            Color::Orange => 'O',
            Color::Green => 'G',
            Color::Red => 'R',
            Color::Blue => 'B',
            Color::Yellow => 'Y',
        }
    }

    /// The colour's letter as a text of one character.
    pub fn as_str(&self) -> (s: &'static str)
        ensures
            s@ == seq![self.letter()],
    {
        proof {
            reveal_strlit("W");
            reveal_strlit("O");
            reveal_strlit("G");
            reveal_strlit("R");
            reveal_strlit("B");
            reveal_strlit("Y");
        }
        let s = match self {
            Color::White => "W",
            Color::Orange => "O",
            Color::Green => "G",
            Color::Red => "R",
            Color::Blue => "B",
            Color::Yellow => "Y",
        };
        assert(s@ =~= seq![self.letter()]);
        s
    }
}

/// Which edge cubie: named by its two colours. The order of the variants is
/// the numbering that the pattern databases are built on.
#[derive(Copy, Clone, PartialEq, Eq, Structural, Debug)]
pub enum EdgeId {
    WB,
    WR,
    WG,
    WO,
    BO,
    BR,
    GR,
    GO,
    YG,
    YR,
    YB,
    YO,
}

impl EdgeId {
    /// Position of the variant in the declaration order, `0..12`.
    pub open spec fn index(self) -> int {
        match self {
            EdgeId::WB => 0,
            EdgeId::WR => 1,
            EdgeId::WG => 2,
            EdgeId::WO => 3,
            EdgeId::BO => 4,
            EdgeId::BR => 5,
            EdgeId::GR => 6,
            EdgeId::GO => 7,
            EdgeId::YG => 8,
            EdgeId::YR => 9,
            EdgeId::YB => 10,
            EdgeId::YO => 11,
        }
    }

    /// Position of the variant in the declaration order.
    pub fn idx(self) -> (i: usize)
        ensures
            i == self.index(),
    {
        match self {
            EdgeId::WB => 0,
            EdgeId::WR => 1,
            EdgeId::WG => 2,
            EdgeId::WO => 3,
            EdgeId::BO => 4,
            EdgeId::BR => 5,
            EdgeId::GR => 6,
            EdgeId::GO => 7,
            EdgeId::YG => 8,
            EdgeId::YR => 9,
            EdgeId::YB => 10,
            EdgeId::YO => 11,
        }
    }

    /// The two colours of the cubie: first the one that shows on the U or D
    /// face (or, for a middle-layer edge, on F or B) when the edge is home
    /// and not flipped, then the other.
    pub open spec fn color_pair(self) -> (Color, Color) {
        match self {
            EdgeId::WB => (Color::White, Color::Blue),
            EdgeId::WR => (Color::White, Color::Red),
            EdgeId::WG => (Color::White, Color::Green),
            EdgeId::WO => (Color::White, Color::Orange),
            EdgeId::BO => (Color::Blue, Color::Orange),
            EdgeId::BR => (Color::Blue, Color::Red),
            EdgeId::GR => (Color::Green, Color::Red),
            EdgeId::GO => (Color::Green, Color::Orange),
            EdgeId::YG => (Color::Yellow, Color::Green),
            EdgeId::YR => (Color::Yellow, Color::Red),
            EdgeId::YB => (Color::Yellow, Color::Blue),
            EdgeId::YO => (Color::Yellow, Color::Orange),
        }
    }

    /// The two colours of the cubie.
    pub fn colors(&self) -> (c: (Color, Color))
        ensures
            c == self.color_pair(),
    {
        match self {
            EdgeId::WB => (Color::White, Color::Blue),
            EdgeId::WR => (Color::White, Color::Red),
            EdgeId::WG => (Color::White, Color::Green),
            EdgeId::WO => (Color::White, Color::Orange),
            EdgeId::BO => (Color::Blue, Color::Orange),
            EdgeId::BR => (Color::Blue, Color::Red),
            EdgeId::GR => (Color::Green, Color::Red),
            EdgeId::GO => (Color::Green, Color::Orange),
            EdgeId::YG => (Color::Yellow, Color::Green),
            EdgeId::YR => (Color::Yellow, Color::Red),
            EdgeId::YB => (Color::Yellow, Color::Blue),
            EdgeId::YO => (Color::Yellow, Color::Orange),
        }
    }
}

/// A slot that holds an edge. The order of the variants is the order of the
/// cube's edge array.
#[derive(Copy, Clone, PartialEq, Eq, Structural, Debug)]
pub enum EdgePos {
    UB,
    UR,
    UF,
    UL,
    BL,
    BR,
    FR,
    FL,
    DF,
    DR,
    DB,
    DL,
}

impl EdgePos {
    /// Position of the slot in the cube's edge array, `0..12`.
    pub open spec fn index(self) -> int {
        match self {
            EdgePos::UB => 0,
            EdgePos::UR => 1,
            EdgePos::UF => 2,
            EdgePos::UL => 3,
            EdgePos::BL => 4,
            EdgePos::BR => 5,
            EdgePos::FR => 6,
            EdgePos::FL => 7,
            EdgePos::DF => 8,
            EdgePos::DR => 9,
            EdgePos::DB => 10,
            EdgePos::DL => 11,
        }
    }

    /// Position of the slot in the cube's edge array.
    pub fn idx(self) -> (i: usize)
        ensures
            i == self.index(),
    {
        match self {
            EdgePos::UB => 0,
            EdgePos::UR => 1,
            EdgePos::UF => 2,
            EdgePos::UL => 3,
            EdgePos::BL => 4,
            EdgePos::BR => 5,
            EdgePos::FR => 6,
            EdgePos::FL => 7,
            EdgePos::DF => 8,
            EdgePos::DR => 9,
            EdgePos::DB => 10,
            EdgePos::DL => 11,
        }
    }
}

/// A slot that holds a corner. The order of the variants is the order of
/// the cube's corner array.
#[derive(Copy, Clone, PartialEq, Eq, Structural, Debug)]
pub enum CornerPos {
    UBL,
    UBR,
    UFR,
    UFL,
    DFL,
    DFR,
    DBR,
    DBL,
}

impl CornerPos {
    /// Position of the slot in the cube's corner array, `0..8`.
    pub open spec fn index(self) -> int {
        match self {
            CornerPos::UBL => 0,
            CornerPos::UBR => 1,
            CornerPos::UFR => 2,
            CornerPos::UFL => 3,
            CornerPos::DFL => 4,
            CornerPos::DFR => 5,
            CornerPos::DBR => 6,
            CornerPos::DBL => 7,
        }
    }

    /// Position of the slot in the cube's corner array.
    pub fn idx(self) -> (i: usize)
        ensures
            i == self.index(),
    {
        match self {
            CornerPos::UBL => 0,
            CornerPos::UBR => 1,
            CornerPos::UFR => 2,
            CornerPos::UFL => 3,
            CornerPos::DFL => 4,
            CornerPos::DFR => 5,
            CornerPos::DBR => 6,
            CornerPos::DBL => 7,
        }
    }
}

/// Which corner cubie: named by its three colours. The order of the variants
/// is the numbering that the pattern databases are built on.
#[derive(Copy, Clone, PartialEq, Eq, Structural, Debug)]
pub enum CornerId {
    WBO,
    WBR,
    WGR,
    WGO,
    YGO,
    YGR,
    YBR,
    YBO,
}

impl CornerId {
    /// Position of the variant in the declaration order, `0..8`.
    pub open spec fn index(self) -> int {
        match self {
            CornerId::WBO => 0,
            CornerId::WBR => 1,
            CornerId::WGR => 2,
            CornerId::WGO => 3,
            CornerId::YGO => 4,
            CornerId::YGR => 5,
            CornerId::YBR => 6,
            CornerId::YBO => 7,
        }
    }

    pub fn idx(self) -> (i: usize)
        ensures
            i == self.index(),
    {
        match self {
            CornerId::WBO => 0,
            CornerId::WBR => 1,
            CornerId::WGR => 2,
            CornerId::WGO => 3,
            CornerId::YGO => 4,
            CornerId::YGR => 5,
            CornerId::YBR => 6,
            CornerId::YBO => 7,
        }
    }

    /// The three colours of the cubie, starting from white or yellow and
    /// going clockwise round the corner.
    pub open spec fn color_triple(self) -> (Color, Color, Color) {
        match self {
            CornerId::WBO => (Color::White, Color::Orange, Color::Blue),
            CornerId::WBR => (Color::White, Color::Blue, Color::Red),
            CornerId::WGR => (Color::White, Color::Red, Color::Green),
            CornerId::WGO => (Color::White, Color::Green, Color::Orange),
            CornerId::YGO => (Color::Yellow, Color::Orange, Color::Green),
            CornerId::YGR => (Color::Yellow, Color::Green, Color::Red),
            CornerId::YBR => (Color::Yellow, Color::Red, Color::Blue),
            CornerId::YBO => (Color::Yellow, Color::Blue, Color::Orange),
        }
    }

    /// The three colours of the cubie, clockwise from white or yellow.
    pub fn colors(&self) -> (c: (Color, Color, Color))
        ensures
            c == self.color_triple(),
    {
        match self {
            CornerId::WBO => (Color::White, Color::Orange, Color::Blue),
            CornerId::WBR => (Color::White, Color::Blue, Color::Red),
            CornerId::WGR => (Color::White, Color::Red, Color::Green),
            CornerId::WGO => (Color::White, Color::Green, Color::Orange),
            CornerId::YGO => (Color::Yellow, Color::Orange, Color::Green),
            CornerId::YGR => (Color::Yellow, Color::Green, Color::Red),
            CornerId::YBR => (Color::Yellow, Color::Red, Color::Blue),
            CornerId::YBO => (Color::Yellow, Color::Blue, Color::Orange),
        }
    }
}

/// An edge cubie in some slot, and whether it sits there flipped.
#[derive(Copy, Clone, PartialEq, Eq, Structural, Debug)]
pub struct Edge {
    pub id: EdgeId,
    pub flipped: bool,
}

impl Edge {
    /// The same cubie turned over.
    pub open spec fn turned_over(self) -> Edge {
        Edge { id: self.id, flipped: !self.flipped }
    }

    /// Turns the edge over.
    pub fn flip(&mut self)
        ensures
            *final(self) == old(self).turned_over(),
    {
        self.flipped = !self.flipped;
    }
}

/// How far a corner is twisted clockwise away from having its white or
/// yellow sticker on the U or D face.
#[derive(Copy, Clone, PartialEq, Eq, Structural, Debug)]
pub enum CornerOrientation {
    Zero,
    One,
    Two,
}

impl CornerOrientation {
    /// The number of clockwise thirds of a turn, `0..3`.
    pub open spec fn thirds(self) -> int {
        match self {
            CornerOrientation::Zero => 0,
            CornerOrientation::One => 1,
            CornerOrientation::Two => 2,
        }
    }

    /// The orientation that stands for `n` clockwise thirds of a turn.
    pub open spec fn from_thirds(n: int) -> CornerOrientation {
        if n % 3 == 0 {
            CornerOrientation::Zero
        } else if n % 3 == 1 {
            CornerOrientation::One
        } else {
            CornerOrientation::Two
        }
    }

    /// The number of clockwise thirds of a turn.
    pub fn value(self) -> (n: usize)
        ensures
            n == self.thirds(),
    {
        match self {
            CornerOrientation::Zero => 0,
            CornerOrientation::One => 1,
            CornerOrientation::Two => 2,
        }
    }
}

/// A corner cubie in some slot, and how it is twisted there.
#[derive(Copy, Clone, PartialEq, Eq, Structural, Debug)]
pub struct Corner {
    pub id: CornerId,
    pub orientation: CornerOrientation,
}

impl Corner {
    /// The same cubie twisted by `n` more clockwise thirds of a turn.
    pub open spec fn twisted_by(self, n: int) -> Corner {
        Corner {
            id: self.id,
            orientation: CornerOrientation::from_thirds(self.orientation.thirds() + n),
        }
    }

    /// Twists the corner by a third of a turn clockwise.
    pub fn twist_clockwise(&mut self)
        ensures
            *final(self) == old(self).twisted_by(1),
    {
        self.orientation =
        match self.orientation {
            CornerOrientation::Zero => CornerOrientation::One,
            CornerOrientation::One => CornerOrientation::Two,
            CornerOrientation::Two => CornerOrientation::Zero,
        }
    }

    /// Twists the corner by a third of a turn counter-clockwise.
    pub fn twist_counterclockwise(&mut self)
        ensures
            *final(self) == old(self).twisted_by(2),
    {
        self.orientation =
        match self.orientation {
            CornerOrientation::Zero => CornerOrientation::Two,
            CornerOrientation::One => CornerOrientation::Zero,
            CornerOrientation::Two => CornerOrientation::One,
        }
    }
}

} // verus!
