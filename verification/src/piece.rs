use vstd::prelude::*;

verus! {

/// The seven tetrominoes.
#[derive(Debug, Clone, Copy, PartialEq, Eq, Structural)]
pub enum Piece {
    I,
    L,
    J,
    S,
    Z,
    T,
    O,
}

/// A plain RGB colour, as the renderer draws it.
#[derive(Debug, Clone, Copy, PartialEq, Eq, Structural)]
pub struct Color {
    pub r: u8,
    pub g: u8,
    pub b: u8,
}

/// The four cells of a piece, as (row, column) offsets from its position.
pub type Cells = [(i32, i32); 4];

/// The identifier of each piece: 1..=7 in the order I, L, J, S, Z, T, O.
pub open spec fn piece_id(p: Piece) -> int {
    match p {
        Piece::I => 1,
        Piece::L => 2,
        Piece::J => 3,
        Piece::S => 4,
        Piece::Z => 5,
        Piece::T => 6,
        Piece::O => 7,
    }
}

/// The piece with a given identifier, if there is one.
pub open spec fn piece_of_id(id: int) -> Option<Piece> {
    if id == 1 {
        Some(Piece::I)
    } else if id == 2 {
        Some(Piece::L)
    } else if id == 3 {
        Some(Piece::J)
    } else if id == 4 {
        Some(Piece::S)
    } else if id == 5 {
        Some(Piece::Z)
    } else if id == 6 {
        Some(Piece::T)
    } else if id == 7 {
        Some(Piece::O)
    } else {
        None
    }
}

/// The display colour of each piece.
pub open spec fn piece_color(p: Piece) -> Color {
    match p {
        Piece::I => Color { r: 0, g: 240, b: 240 },
        Piece::L => Color { r: 240, g: 160, b: 0 },
        Piece::J => Color { r: 0, g: 0, b: 240 },
        Piece::S => Color { r: 0, g: 240, b: 0 },
        Piece::Z => Color { r: 240, g: 0, b: 0 },
        Piece::T => Color { r: 160, g: 0, b: 240 },
        Piece::O => Color { r: 240, g: 240, b: 0 },
    }
}

/// The cells a piece occupies when it appears, in its spawn orientation.
pub open spec fn spawn_shape(p: Piece) -> Seq<(i32, i32)> {
    match p {
        Piece::I => seq![(1i32, 0i32), (1, 1), (1, 2), (1, 3)],
        Piece::T => seq![(0i32, 1i32), (1, 0), (1, 1), (1, 2)],
        Piece::J => seq![(0i32, 0i32), (1, 0), (1, 1), (1, 2)],
        Piece::L => seq![(0i32, 2i32), (1, 0), (1, 1), (1, 2)],
        Piece::S => seq![(0i32, 1i32), (0, 2), (1, 0), (1, 1)],
        Piece::Z => seq![(0i32, 0i32), (0, 1), (1, 1), (1, 2)],
        Piece::O => seq![(0i32, 1i32), (0, 2), (1, 1), (1, 2)],
    }
}

/// The largest row or column offset a piece's bounding box allows: the I piece
/// turns in a 4x4 box, the others in a 3x3 box.
pub open spec fn box_max(p: Piece) -> int {
    if p == Piece::I {
        3
    } else {
        2
    }
}

/// `k - v` fits in an `i32`.
pub open spec fn reflect_fits(v: i32, k: int) -> bool {
    k - v <= i32::MAX
}

/// Every row offset can be reflected in the piece's box without overflow.
pub open spec fn rows_reflect(cells: Seq<(i32, i32)>, p: Piece) -> bool {
    forall|i: int| 0 <= i < cells.len() ==> reflect_fits(#[trigger] cells[i].0, box_max(p))
}

/// Every column offset can be reflected in the piece's box without overflow.
pub open spec fn cols_reflect(cells: Seq<(i32, i32)>, p: Piece) -> bool {
    forall|i: int| 0 <= i < cells.len() ==> reflect_fits(#[trigger] cells[i].1, box_max(p))
}

/// A quarter turn clockwise of one cell inside a box with largest offset `k`.
pub open spec fn cw_cell(rc: (i32, i32), k: int) -> (i32, i32) {
    (rc.1, (k - rc.0) as i32)
}

/// A quarter turn counter-clockwise of one cell inside a box with largest offset `k`.
pub open spec fn ccw_cell(rc: (i32, i32), k: int) -> (i32, i32) {
    ((k - rc.1) as i32, rc.0)
}

/// A half turn of one cell inside a box with largest offset `k`.
pub open spec fn flip_cell(rc: (i32, i32), k: int) -> (i32, i32) {
    ((k - rc.0) as i32, (k - rc.1) as i32)
}

/// The cells after a clockwise turn. The O piece does not turn.
pub open spec fn rotated_cw(cells: Seq<(i32, i32)>, p: Piece) -> Seq<(i32, i32)> {
    if p == Piece::O {
        cells
    } else {
        cells.map_values(|rc: (i32, i32)| cw_cell(rc, box_max(p)))
    }
}

/// The cells after a counter-clockwise turn. The O piece does not turn.
pub open spec fn rotated_ccw(cells: Seq<(i32, i32)>, p: Piece) -> Seq<(i32, i32)> {
    if p == Piece::O {
        cells
    } else {
        cells.map_values(|rc: (i32, i32)| ccw_cell(rc, box_max(p)))
    }
}

/// The cells after a half turn. The O piece does not turn.
pub open spec fn rotated_180(cells: Seq<(i32, i32)>, p: Piece) -> Seq<(i32, i32)> {
    if p == Piece::O {
        cells
    } else {
        cells.map_values(|rc: (i32, i32)| flip_cell(rc, box_max(p)))
    }
}

/// Wall-kick offsets (x, y) of the I piece for a turn from state `from` to state `to`.
pub open spec fn i_kicks(from: u8, to: u8) -> Seq<(i32, i32)> {
    if from == 0 && to == 1 {
        seq![(0i32, 0i32), (-2i32, 0), (1, 0), (-2i32, -1i32), (1, 2)]
    } else if from == 1 && to == 0 {
        seq![(0i32, 0i32), (2, 0), (-1i32, 0), (2, 1), (-1i32, -2i32)]
    } else if from == 1 && to == 2 {
        seq![(0i32, 0i32), (-1i32, 0), (2, 0), (-1i32, 2), (2, -1i32)]
    } else if from == 2 && to == 1 {
        seq![(0i32, 0i32), (1, 0), (-2i32, 0), (1, -2i32), (-2i32, 1)]
    } else if from == 2 && to == 3 {
        seq![(0i32, 0i32), (2, 0), (-1i32, 0), (2, 1), (-1i32, -2i32)]
    } else if from == 3 && to == 2 {
        seq![(0i32, 0i32), (-2i32, 0), (1, 0), (-2i32, -1i32), (1, 2)]
    } else if from == 3 && to == 0 {
        seq![(0i32, 0i32), (1, 0), (-2i32, 0), (1, -2i32), (-2i32, 1)]
    } else if from == 0 && to == 3 {
        seq![(0i32, 0i32), (-1i32, 0), (2, 0), (-1i32, 2), (2, -1i32)]
    } else {
        seq![(0i32, 0i32), (0, 0), (0, 0), (0, 0), (0, 0)]
    }
}

/// Wall-kick offsets (x, y) of the J, L, S, T and Z pieces.
pub open spec fn jlstz_kicks(from: u8, to: u8) -> Seq<(i32, i32)> {
    if from == 0 && to == 1 {
        seq![(0i32, 0i32), (-1i32, 0), (-1i32, 1), (0, -2i32), (-1i32, -2i32)]
    } else if from == 1 && to == 0 {
        seq![(0i32, 0i32), (1, 0), (1, -1i32), (0, 2), (1, 2)]
    } else if from == 1 && to == 2 {
        seq![(0i32, 0i32), (1, 0), (1, -1i32), (0, 2), (1, 2)]
    } else if from == 2 && to == 1 {
        seq![(0i32, 0i32), (-1i32, 0), (-1i32, 1), (0, -2i32), (-1i32, -2i32)]
    } else if from == 2 && to == 3 {
        seq![(0i32, 0i32), (1, 0), (1, 1), (0, -2i32), (1, -2i32)]
    } else if from == 3 && to == 2 {
        seq![(0i32, 0i32), (-1i32, 0), (-1i32, -1i32), (0, 2), (-1i32, 2)]
    } else if from == 3 && to == 0 {
        seq![(0i32, 0i32), (-1i32, 0), (-1i32, -1i32), (0, 2), (-1i32, 2)]
    } else if from == 0 && to == 3 {
        seq![(0i32, 0i32), (1, 0), (1, 1), (0, -2i32), (1, -2i32)]
    } else {
        seq![(0i32, 0i32), (0, 0), (0, 0), (0, 0), (0, 0)]
    }
}

/// The wall kicks tried, in order, when `p` turns from state `from` to state `to`.
pub open spec fn kick_table(p: Piece, from: u8, to: u8) -> Seq<(i32, i32)> {
    if p == Piece::O {
        seq![(0i32, 0i32), (0, 0), (0, 0), (0, 0), (0, 0)]
    } else if p == Piece::I {
        i_kicks(from, to)
    } else {
        jlstz_kicks(from, to)
    }
}

/// The SRS offsets of the J, L, S, T and Z pieces in rotation state 1
/// (pointing right) and 3 (pointing left); states 0 and 2 have none.
pub open spec fn jlstz_offsets(state: u8) -> Seq<(int, int)> {
    if state == 1 {
        seq![(0int, 0int), (1, 0), (1, -1), (0, 2), (1, 2)]
    } else if state == 3 {
        seq![(0int, 0int), (-1, 0), (-1, -1), (0, 2), (-1, 2)]
    } else {
        seq![(0int, 0int), (0, 0), (0, 0), (0, 0), (0, 0)]
    }
}

/// The SRS offsets of the I piece in each rotation state.
pub open spec fn i_offsets(state: u8) -> Seq<(int, int)> {
    if state == 0 {
        seq![(0int, 0int), (-1, 0), (2, 0), (-1, 0), (2, 0)]
    } else if state == 1 {
        seq![(-1int, 0int), (0, 0), (0, 0), (0, 1), (0, -2)]
    } else if state == 2 {
        seq![(-1int, 1int), (1, 1), (-2, 1), (1, 0), (-2, 0)]
    } else {
        seq![(0int, 1int), (0, 1), (0, 1), (0, -1), (0, 2)]
    }
}

/// The SRS offsets of a piece in a rotation state; the O piece has none.
pub open spec fn srs_offsets(p: Piece, state: u8) -> Seq<(int, int)> {
    if p == Piece::O {
        seq![(0int, 0int), (0, 0), (0, 0), (0, 0), (0, 0)]
    } else if p == Piece::I {
        i_offsets(state)
    } else {
        jlstz_offsets(state)
    }
}

/// The `i`-th kick of a quarter turn from `a` to `b` is the difference of
/// the two states' `i`-th offsets, shifted so that the first kick is none.
pub open spec fn srs_kick(p: Piece, a: u8, b: u8, i: int) -> (int, int) {
    let oa = srs_offsets(p, a);
    let ob = srs_offsets(p, b);
    (oa[i].0 - ob[i].0 - (oa[0].0 - ob[0].0), oa[i].1 - ob[i].1 - (oa[0].1 - ob[0].1))
}

/// Every quarter turn's kick list follows from the rotation states'
/// offsets: kick `i` of a turn from `a` to `b` is offset `i` of `a` less
/// offset `i` of `b`, taken relative to the first. So turning back undoes
/// each kick, and for J, L, S, T and Z the kicks out of (or into) states 1
/// and 3 are the same whichever way the piece turns.
pub proof fn lemma_kicks_follow_offsets(p: Piece, a: u8, b: u8)
    requires
        a < 4,
        b == (a + 1) % 4 || b == (a + 3) % 4,
    ensures
        kick_table(p, a, b).len() == 5,
        forall|i: int|
            0 <= i < 5 ==> (#[trigger] kick_table(p, a, b)[i]).0 == srs_kick(p, a, b, i).0
                && kick_table(p, a, b)[i].1 == srs_kick(p, a, b, i).1,
{
}

/// Turning back undoes each kick: the kicks from `b` to `a` are those from
/// `a` to `b`, negated.
pub proof fn lemma_kicks_antisymmetric(p: Piece, a: u8, b: u8, i: int)
    requires
        a < 4,
        b == (a + 1) % 4 || b == (a + 3) % 4,
        0 <= i < 5,
    ensures
        kick_table(p, b, a)[i].0 == -kick_table(p, a, b)[i].0,
        kick_table(p, b, a)[i].1 == -kick_table(p, a, b)[i].1,
{
    lemma_kicks_follow_offsets(p, a, b);
    lemma_kicks_follow_offsets(p, b, a);
}

impl Piece {
    /// The piece with identifier `id` (1..=7), if any.
    pub fn from_id(id: i32) -> (r: Option<Piece>)
        ensures
            r == piece_of_id(id as int),
    {
        match id {
            1 => Some(Piece::I),
            2 => Some(Piece::L),
            3 => Some(Piece::J),
            4 => Some(Piece::S),
            5 => Some(Piece::Z),
            6 => Some(Piece::T),
            7 => Some(Piece::O),
            _ => None,
        }
    }

    /// The piece's display colour.
    pub fn color(self) -> (c: Color)
        ensures
            c == piece_color(self),
    {
        match self {
            Piece::I => Color { r: 0, g: 240, b: 240 },
            Piece::L => Color { r: 240, g: 160, b: 0 },
            Piece::J => Color { r: 0, g: 0, b: 240 },
            Piece::S => Color { r: 0, g: 240, b: 0 },
            Piece::Z => Color { r: 240, g: 0, b: 0 },
            Piece::T => Color { r: 160, g: 0, b: 240 },
            Piece::O => Color { r: 240, g: 240, b: 0 },
        }
    }

    /// The cells the piece occupies when it spawns.
    pub fn spawn_cells(self) -> (c: Cells)
        ensures
            c@ == spawn_shape(self),
    {
        let c: Cells = match self {
            Piece::I => [(1, 0), (1, 1), (1, 2), (1, 3)],
            Piece::T => [(0, 1), (1, 0), (1, 1), (1, 2)],
            Piece::J => [(0, 0), (1, 0), (1, 1), (1, 2)],
            Piece::L => [(0, 2), (1, 0), (1, 1), (1, 2)],
            Piece::S => [(0, 1), (0, 2), (1, 0), (1, 1)],
            Piece::Z => [(0, 0), (0, 1), (1, 1), (1, 2)],
            Piece::O => [(0, 1), (0, 2), (1, 1), (1, 2)],
        };
        assert(c@ =~= spawn_shape(self));
        c
    }

    /// The cells after a clockwise quarter turn inside the piece's box.
    pub fn rotate_cw(cells: &Cells, piece: Piece) -> (out: Cells)
        requires
            piece != Piece::O ==> rows_reflect(cells@, piece),
        ensures
            out@ == rotated_cw(cells@, piece),
    {
        match piece {
            Piece::O => *cells,
            _ => {
                let k: i32 = if piece == Piece::I {
                    3
                } else {
                    2
                };
                assert(reflect_fits(cells@[0].0, box_max(piece)));
                assert(reflect_fits(cells@[1].0, box_max(piece)));
                assert(reflect_fits(cells@[2].0, box_max(piece)));
                assert(reflect_fits(cells@[3].0, box_max(piece)));
                let out: Cells = [
                    (cells[0].1, k - cells[0].0),
                    (cells[1].1, k - cells[1].0),
                    (cells[2].1, k - cells[2].0),
                    (cells[3].1, k - cells[3].0),
                ];
                assert(out@ =~= rotated_cw(cells@, piece));
                out
            },
        }
    }

    /// The cells after a counter-clockwise quarter turn inside the piece's box.
    pub fn rotate_ccw(cells: &Cells, piece: Piece) -> (out: Cells)
        requires
            piece != Piece::O ==> cols_reflect(cells@, piece),
        ensures
            out@ == rotated_ccw(cells@, piece),
    {
        match piece {
            Piece::O => *cells,
            _ => {
                let k: i32 = if piece == Piece::I {
                    3
                } else {
                    2
                };
                assert(reflect_fits(cells@[0].1, box_max(piece)));
                assert(reflect_fits(cells@[1].1, box_max(piece)));
                assert(reflect_fits(cells@[2].1, box_max(piece)));
                assert(reflect_fits(cells@[3].1, box_max(piece)));
                let out: Cells = [
                    (k - cells[0].1, cells[0].0),
                    (k - cells[1].1, cells[1].0),
                    (k - cells[2].1, cells[2].0),
                    (k - cells[3].1, cells[3].0),
                ];
                assert(out@ =~= rotated_ccw(cells@, piece));
                out
            },
        }
    }

    /// The cells after a half turn inside the piece's box.
    pub fn flip_180(cells: &Cells, piece: Piece) -> (out: Cells)
        requires
            piece != Piece::O ==> rows_reflect(cells@, piece) && cols_reflect(cells@, piece),
        ensures
            out@ == rotated_180(cells@, piece),
    {
        match piece {
            Piece::O => *cells,
            _ => {
                let k: i32 = if piece == Piece::I {
                    3
                } else {
                    2
                };
                assert(reflect_fits(cells@[0].0, box_max(piece)));
                assert(reflect_fits(cells@[1].0, box_max(piece)));
                assert(reflect_fits(cells@[2].0, box_max(piece)));
                assert(reflect_fits(cells@[3].0, box_max(piece)));
                assert(reflect_fits(cells@[0].1, box_max(piece)));
                assert(reflect_fits(cells@[1].1, box_max(piece)));
                assert(reflect_fits(cells@[2].1, box_max(piece)));
                assert(reflect_fits(cells@[3].1, box_max(piece)));
                let out: Cells = [
                    (k - cells[0].0, k - cells[0].1),
                    (k - cells[1].0, k - cells[1].1),
                    (k - cells[2].0, k - cells[2].1),
                    (k - cells[3].0, k - cells[3].1),
                ];
                assert(out@ =~= rotated_180(cells@, piece));
                out
            },
        }
    }

    /// The super-rotation-system wall kicks, as (x, y) offsets, to try in order
    /// for a turn of `piece` from rotation state `from` to state `to`.
    pub fn get_kick_offsets(piece: Piece, from: u8, to: u8) -> (k: [(i32, i32); 5])
        ensures
            k@ == kick_table(piece, from, to),
    {
        let k: [(i32, i32); 5] = match piece {
            Piece::O => [(0, 0); 5],
            Piece::I => {
                if from == 0 && to == 1 {
                    [(0, 0), (-2, 0), (1, 0), (-2, -1), (1, 2)]
                } else if from == 1 && to == 0 {
                    [(0, 0), (2, 0), (-1, 0), (2, 1), (-1, -2)]
                } else if from == 1 && to == 2 {
                    [(0, 0), (-1, 0), (2, 0), (-1, 2), (2, -1)]
                } else if from == 2 && to == 1 {
                    [(0, 0), (1, 0), (-2, 0), (1, -2), (-2, 1)]
                } else if from == 2 && to == 3 {
                    [(0, 0), (2, 0), (-1, 0), (2, 1), (-1, -2)]
                } else if from == 3 && to == 2 {
                    [(0, 0), (-2, 0), (1, 0), (-2, -1), (1, 2)]
                } else if from == 3 && to == 0 {
                    [(0, 0), (1, 0), (-2, 0), (1, -2), (-2, 1)]
                } else if from == 0 && to == 3 {
                    [(0, 0), (-1, 0), (2, 0), (-1, 2), (2, -1)]
                } else {
                    [(0, 0); 5]
                }
            },
            _ => {
                if from == 0 && to == 1 {
                    [(0, 0), (-1, 0), (-1, 1), (0, -2), (-1, -2)]
                } else if from == 1 && to == 0 {
                    [(0, 0), (1, 0), (1, -1), (0, 2), (1, 2)]
                } else if from == 1 && to == 2 {
                    [(0, 0), (1, 0), (1, -1), (0, 2), (1, 2)]
                } else if from == 2 && to == 1 {
                    [(0, 0), (-1, 0), (-1, 1), (0, -2), (-1, -2)]
                } else if from == 2 && to == 3 {
                    [(0, 0), (1, 0), (1, 1), (0, -2), (1, -2)]
                } else if from == 3 && to == 2 {
                    [(0, 0), (-1, 0), (-1, -1), (0, 2), (-1, 2)]
                } else if from == 3 && to == 0 {
                    [(0, 0), (-1, 0), (-1, -1), (0, 2), (-1, 2)]
                } else if from == 0 && to == 3 {
                    [(0, 0), (1, 0), (1, 1), (0, -2), (1, -2)]
                } else {
                    [(0, 0); 5]
                }
            },
        };
        assert(k@ =~= kick_table(piece, from, to));
        k
    }
}

} // verus!
