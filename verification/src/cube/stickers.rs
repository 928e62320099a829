//! The colours that show on the faces of a cube, sticker by sticker, and the
//! drawing of the cube as an unfolded net.
use super::cubie::{Color, Corner, CornerPos, Edge, EdgePos};
use super::{Cube, CubeState};
use vstd::prelude::*;
use vstd::string::StringExecFns;

verus! {

/// A face of the cube as it is looked at. The nine stickers of a face are
/// numbered row by row, `0` to `8`, with `4` the centre.
#[derive(PartialEq, Eq, Structural, Copy, Clone, Debug)]
pub enum Face {
    Up,
    Left,
    Front,
    Right,
    Back,
    Down,
}

impl Face {
    /// The colour of the centre of the face, which never moves.
    pub open spec fn color(self) -> Color {
        match self {
            Face::Up => Color::White,
            Face::Left => Color::Orange,
            Face::Front => Color::Green,
            Face::Right => Color::Red,
            Face::Back => Color::Blue,
            Face::Down => Color::Yellow,
        }
    }

    /// The colour of the centre of the face.
    pub fn face_color(&self) -> (c: Color)
        ensures
            c == self.color(),
    {
        match self {
            Face::Up => Color::White,
            Face::Left => Color::Orange,
            Face::Front => Color::Green,
            Face::Right => Color::Red,
            Face::Back => Color::Blue,
            Face::Down => Color::Yellow,
        }
    }

    /// The corner slots that show at stickers 0, 2, 6 and 8 of the face, each
    /// with the place of the sticker on the corner: 0 for the place on the U
    /// or D face, 1 for the next place clockwise round the corner, 2 for the
    /// one after.
    pub open spec fn corners(self) -> Seq<(CornerPos, int)> {
        match self {
            Face::Up => seq![
                (CornerPos::UBL, 0),
                (CornerPos::UBR, 0),
                (CornerPos::UFL, 0),
                (CornerPos::UFR, 0),
            ],
            Face::Left => seq![
                (CornerPos::UBL, 1),
                (CornerPos::UFL, 2),
                (CornerPos::DBL, 2),
                (CornerPos::DFL, 1),
            ],
            Face::Front => seq![
                (CornerPos::UFL, 1),
                (CornerPos::UFR, 2),
                (CornerPos::DFL, 2),
                (CornerPos::DFR, 1),
            ],
            Face::Right => seq![
                (CornerPos::UFR, 1),
                (CornerPos::UBR, 2),
                (CornerPos::DFR, 2),
                (CornerPos::DBR, 1),
            ],
            Face::Back => seq![
                (CornerPos::UBR, 1),
                (CornerPos::UBL, 2),
                (CornerPos::DBR, 2),
                (CornerPos::DBL, 1),
            ],
            Face::Down => seq![
                (CornerPos::DFL, 0),
                (CornerPos::DFR, 0),
                (CornerPos::DBL, 0),
                (CornerPos::DBR, 0),
            ],
        }
    }

    /// The edge slots that show at stickers 1, 3, 5 and 7 of the face, each
    /// with the side of the edge that shows: `false` for the side on the U or
    /// D face (in the middle layer, on the F or B face), `true` for the
    /// other.
    pub open spec fn edges(self) -> Seq<(EdgePos, bool)> {
        match self {
            Face::Up => seq![
                (EdgePos::UB, false),
                (EdgePos::UL, false),
                (EdgePos::UR, false),
                (EdgePos::UF, false),
            ],
            Face::Left => seq![
                (EdgePos::UL, true),
                (EdgePos::BL, true),
                (EdgePos::FL, true),
                (EdgePos::DL, true),
            ],
            Face::Front => seq![
                (EdgePos::UF, true),
                (EdgePos::FL, false),
                (EdgePos::FR, false),
                (EdgePos::DF, true),
            ],
            Face::Right => seq![
                (EdgePos::UR, true),
                (EdgePos::FR, true),
                (EdgePos::BR, true),
                (EdgePos::DR, true),
            ],
            Face::Back => seq![
                (EdgePos::UB, true),
                (EdgePos::BR, false),
                (EdgePos::BL, false),
                (EdgePos::DB, true),
            ],
            Face::Down => seq![
                (EdgePos::DF, false),
                (EdgePos::DL, false),
                (EdgePos::DR, false),
                (EdgePos::DB, false),
            ],
        }
    }
}

/// The colour that an edge shows on the given side of its slot: its first
/// colour where the side asked for is the one that its flip puts it on, its
/// second colour otherwise.
pub open spec fn edge_sticker(edge: Edge, side: bool) -> Color {
    if edge.flipped == side {
        edge.id.color_pair().0
    } else {
        edge.id.color_pair().1
    }
}

/// The colour that a corner shows at the given place of its slot: its
/// colours, taken clockwise, moved on by its twist.
pub open spec fn corner_sticker(corner: Corner, place: int) -> Color {
    let (c0, c1, c2) = corner.id.color_triple();
    let k = (place + 3 - corner.orientation.thirds()) % 3;
    if k == 0 {
        c0
    } else if k == 1 {
        c1
    } else {
        c2
    }
}

impl CubeState {
    /// The colour that shows at a sticker of a face.
    pub open spec fn sticker(self, face: Face, sticker: int) -> Color {
        if sticker == 4 {
            face.color()
        } else if sticker % 2 == 0 {
            let (pos, place) = face.corners()[if sticker == 0 {
                0int
            } else if sticker == 2 {
                1int
            } else if sticker == 6 {
                2int
            } else {
                3int
            }];
            corner_sticker(self.corners[pos.index()], place)
        } else {
            let (pos, side) = face.edges()[sticker / 2];
            edge_sticker(self.edges[pos.index()], side)
        }
    }

    /// The letters of one row of a face, left to right.
    pub open spec fn face_row(self, face: Face, row: int) -> Seq<char> {
        seq![
            self.sticker(face, 3 * row).letter(),
            self.sticker(face, 3 * row + 1).letter(),
            self.sticker(face, 3 * row + 2).letter(),
        ]
    }

    /// A line of the net that holds one row of one face, indented by the
    /// width of a face and a blank.
    pub open spec fn lone_line(self, face: Face, row: int) -> Seq<char> {
        seq![' ', ' ', ' ', ' '] + self.face_row(face, row) + seq!['\n']
    }

    /// A line of the net that holds one row of each side face: left, front,
    /// right, back, each followed by a blank.
    pub open spec fn band_line(self, row: int) -> Seq<char> {
        self.face_row(Face::Left, row) + seq![' '] + self.face_row(Face::Front, row) + seq![' ']
            + self.face_row(Face::Right, row) + seq![' '] + self.face_row(Face::Back, row)
            + seq![' '] + seq!['\n']
    }

    /// The cube drawn as a net: the upper face on top, the four side faces in
    /// a band, the lower face below.
    pub open spec fn net(self) -> Seq<char> {
        self.lone_line(Face::Up, 0) + self.lone_line(Face::Up, 1) + self.lone_line(Face::Up, 2)
            + self.band_line(0) + self.band_line(1) + self.band_line(2) + self.lone_line(
            Face::Down,
            0,
        ) + self.lone_line(Face::Down, 1) + self.lone_line(Face::Down, 2)
    }
}

impl Cube {
    /// The letter of the colour that shows at a sticker of a face.
    pub fn get_color(&self, face: Face, sticker: usize) -> (c: char)
        requires
            sticker < 9,
        ensures
            c == self@.sticker(face, sticker as int).letter(),
    {
        match face {
            Face::Up => self.get_face_color(Face::Up, sticker),
            Face::Down => self.get_face_color(Face::Down, sticker),
            Face::Front => self.get_face_color(Face::Front, sticker),
            Face::Back => self.get_face_color(Face::Back, sticker),
            Face::Left => self.get_face_color(Face::Left, sticker),
            Face::Right => self.get_face_color(Face::Right, sticker),
        }
    }

    /// The colour that shows at a sticker of a face.
    pub fn sticker_color(&self, face: Face, sticker: usize) -> (c: Color)
        requires
            sticker < 9,
        ensures
            c == self@.sticker(face, sticker as int),
    {
        match (face, sticker) {
            (Face::Up, 0) => self.get_corner_sticker(CornerPos::UBL, 0),
            (Face::Up, 2) => self.get_corner_sticker(CornerPos::UBR, 0),
            (Face::Up, 6) => self.get_corner_sticker(CornerPos::UFL, 0),
            (Face::Up, 8) => self.get_corner_sticker(CornerPos::UFR, 0),
            (Face::Up, 1) => self.get_edge_sticker(EdgePos::UB, false),
            (Face::Up, 3) => self.get_edge_sticker(EdgePos::UL, false),
            (Face::Up, 5) => self.get_edge_sticker(EdgePos::UR, false),
            (Face::Up, 7) => self.get_edge_sticker(EdgePos::UF, false),
            (Face::Left, 0) => self.get_corner_sticker(CornerPos::UBL, 1),
            (Face::Left, 2) => self.get_corner_sticker(CornerPos::UFL, 2),
            (Face::Left, 6) => self.get_corner_sticker(CornerPos::DBL, 2),
            (Face::Left, 8) => self.get_corner_sticker(CornerPos::DFL, 1),
            (Face::Left, 1) => self.get_edge_sticker(EdgePos::UL, true),
            (Face::Left, 3) => self.get_edge_sticker(EdgePos::BL, true),
            (Face::Left, 5) => self.get_edge_sticker(EdgePos::FL, true),
            (Face::Left, 7) => self.get_edge_sticker(EdgePos::DL, true),
            (Face::Front, 0) => self.get_corner_sticker(CornerPos::UFL, 1),
            (Face::Front, 2) => self.get_corner_sticker(CornerPos::UFR, 2),
            (Face::Front, 6) => self.get_corner_sticker(CornerPos::DFL, 2),
            (Face::Front, 8) => self.get_corner_sticker(CornerPos::DFR, 1),
            (Face::Front, 1) => self.get_edge_sticker(EdgePos::UF, true),
            (Face::Front, 3) => self.get_edge_sticker(EdgePos::FL, false),
            (Face::Front, 5) => self.get_edge_sticker(EdgePos::FR, false),
            (Face::Front, 7) => self.get_edge_sticker(EdgePos::DF, true),
            (Face::Right, 0) => self.get_corner_sticker(CornerPos::UFR, 1),
            (Face::Right, 2) => self.get_corner_sticker(CornerPos::UBR, 2),
            (Face::Right, 6) => self.get_corner_sticker(CornerPos::DFR, 2),
            (Face::Right, 8) => self.get_corner_sticker(CornerPos::DBR, 1),
            (Face::Right, 1) => self.get_edge_sticker(EdgePos::UR, true),
            (Face::Right, 3) => self.get_edge_sticker(EdgePos::FR, true),
            (Face::Right, 5) => self.get_edge_sticker(EdgePos::BR, true),
            (Face::Right, 7) => self.get_edge_sticker(EdgePos::DR, true),
            (Face::Back, 0) => self.get_corner_sticker(CornerPos::UBR, 1),
            (Face::Back, 2) => self.get_corner_sticker(CornerPos::UBL, 2),
            (Face::Back, 6) => self.get_corner_sticker(CornerPos::DBR, 2),
            (Face::Back, 8) => self.get_corner_sticker(CornerPos::DBL, 1),
            (Face::Back, 1) => self.get_edge_sticker(EdgePos::UB, true),
            (Face::Back, 3) => self.get_edge_sticker(EdgePos::BR, false),
            (Face::Back, 5) => self.get_edge_sticker(EdgePos::BL, false),
            (Face::Back, 7) => self.get_edge_sticker(EdgePos::DB, true),
            (Face::Down, 0) => self.get_corner_sticker(CornerPos::DFL, 0),
            (Face::Down, 2) => self.get_corner_sticker(CornerPos::DFR, 0),
            (Face::Down, 6) => self.get_corner_sticker(CornerPos::DBL, 0),
            (Face::Down, 8) => self.get_corner_sticker(CornerPos::DBR, 0),
            (Face::Down, 1) => self.get_edge_sticker(EdgePos::DF, false),
            (Face::Down, 3) => self.get_edge_sticker(EdgePos::DL, false),
            (Face::Down, 5) => self.get_edge_sticker(EdgePos::DR, false),
            (Face::Down, 7) => self.get_edge_sticker(EdgePos::DB, false),
            (face, _) => face.face_color(),
        }
    }

    /// The letter of the colour that shows at a sticker of a face.
    pub fn get_face_color(&self, face: Face, sticker: usize) -> (c: char)
        requires
            sticker < 9,
        ensures
            c == self@.sticker(face, sticker as int).letter(),
    {
        self.sticker_color(face, sticker).to_char()
    }

    /// The colour that the edge in slot `pos` shows on the given side of the
    /// slot: `false` for the side on the U or D face (in the middle layer, on
    /// the F or B face), `true` for the other.
    pub fn get_edge_sticker(&self, pos: EdgePos, sticker_flip: bool) -> (c: Color)
        ensures
            c == edge_sticker(self@.edges[pos.index()], sticker_flip),
    {
        let edge = self.edges[pos.idx()];
        let (color1, color2) = edge.id.colors();
        if edge.flipped == sticker_flip {
            color1
        } else {
            color2
        }
    }

    /// The colour that the corner in slot `pos` shows at the given place of
    /// the slot: 0 for the place on the U or D face, 1 for the next place
    /// clockwise, 2 for the one after.
    pub fn get_corner_sticker(&self, pos: CornerPos, sticker_orient: usize) -> (c: Color)
        requires
            sticker_orient < 3,
        ensures
            c == corner_sticker(self@.corners[pos.index()], sticker_orient as int),
    {
        let corner = self.corners[pos.idx()];
        let (color1, color2, color3) = corner.id.colors();
        let colors = [color1, color2, color3];
        let twist_offset = corner.orientation.value();
        colors[(sticker_orient + 3 - twist_offset) % 3]
    }

    /// Appends the three letters of a row of a face to `out`.
    fn push_row(&self, out: &mut String, face: Face, row: usize)
        requires
            row < 3,
        ensures
            final(out)@ == old(out)@ + self@.face_row(face, row as int),
    {
        let mut col: usize = 0;
        assert(self@.face_row(face, row as int).take(0) =~= Seq::<char>::empty());
        while col < 3
            invariant
                col <= 3,
                row < 3,
                out@ == old(out)@ + self@.face_row(face, row as int).take(col as int),
            decreases 3 - col,
        {
            let color = self.sticker_color(face, row * 3 + col);
            out.append(color.as_str());
            assert(self@.face_row(face, row as int).take(col as int + 1)
                =~= self@.face_row(face, row as int).take(col as int) + seq![color.letter()]);
            col += 1;
        }
        assert(self@.face_row(face, row as int).take(3) =~= self@.face_row(face, row as int));
    }

    /// Appends a line of the net that holds one row of one face.
    fn push_lone_line(&self, out: &mut String, face: Face, row: usize)
        requires
            row < 3,
        ensures
            final(out)@ == old(out)@ + self@.lone_line(face, row as int),
    {
        proof {
            reveal_strlit("    ");
            reveal_strlit("\n");
        }
        out.append("    ");
        self.push_row(out, face, row);
        out.append("\n");
        assert(out@ =~= old(out)@ + self@.lone_line(face, row as int));
    }

    /// Appends a line of the net that holds one row of each side face.
    fn push_band_line(&self, out: &mut String, row: usize)
        requires
            row < 3,
        ensures
            final(out)@ == old(out)@ + self@.band_line(row as int),
    {
        proof {
            reveal_strlit(" ");
            reveal_strlit("\n");
        }
        self.push_row(out, Face::Left, row);
        out.append(" ");
        self.push_row(out, Face::Front, row);
        out.append(" ");
        self.push_row(out, Face::Right, row);
        out.append(" ");
        self.push_row(out, Face::Back, row);
        out.append(" ");
        out.append("\n");
        assert(out@ =~= old(out)@ + self@.band_line(row as int));
    }

    /// The cube drawn as a net of letters.
    pub fn to_string(&self) -> (s: String)
        ensures
            s@ == self@.net(),
    {
        let mut s = String::new();
        self.push_lone_line(&mut s, Face::Up, 0);
        self.push_lone_line(&mut s, Face::Up, 1);
        self.push_lone_line(&mut s, Face::Up, 2);
        self.push_band_line(&mut s, 0);
        self.push_band_line(&mut s, 1);
        self.push_band_line(&mut s, 2);
        self.push_lone_line(&mut s, Face::Down, 0);
        self.push_lone_line(&mut s, Face::Down, 1);
        self.push_lone_line(&mut s, Face::Down, 2);
        assert(s@ =~= self@.net());
        s
    }
}

} // verus!
