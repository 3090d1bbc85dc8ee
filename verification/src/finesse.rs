use crate::piece::{spawn_shape, Piece};
use vstd::prelude::*;

verus! {

/// One finesse table: for each target column 0..=9, the least number of
/// inputs that brings a freshly spawned piece (column 3, rotation 0) to that
/// column in a given rotation, or `None` where the column cannot be reached.
pub type FinTable = [Option<usize>; 10];

/// The O piece, which does not rotate.
pub open spec fn o_rot0() -> Seq<Option<usize>> {
    seq![Some(2usize), Some(2), Some(1), Some(0), Some(1), Some(2), Some(2), Some(1), None, None]
}

/// The I piece in rotation 0.
pub open spec fn i_rot0() -> Seq<Option<usize>> {
    seq![Some(1usize), Some(2), Some(1), Some(0), Some(1), Some(2), Some(1), None, None, None]
}

/// The I piece in rotation 1.
pub open spec fn i_rot1() -> Seq<Option<usize>> {
    seq![Some(2usize), Some(3), Some(2), Some(1), Some(2), Some(3), Some(2), Some(2), None, None]
}

/// The I piece in rotation 2.
pub open spec fn i_rot2() -> Seq<Option<usize>> {
    seq![Some(2usize), Some(3), Some(2), Some(1), Some(2), Some(3), Some(2), None, None, None]
}

/// The I piece in rotation 3.
pub open spec fn i_rot3() -> Seq<Option<usize>> {
    seq![Some(2usize), Some(3), Some(2), Some(1), Some(2), Some(3), Some(2), Some(3), Some(2), None]
}

/// The three-wide pieces (T, J, L, S, Z) in rotation 0.
pub open spec fn three_wide_rot0() -> Seq<Option<usize>> {
    seq![Some(1usize), Some(2), Some(1), Some(0), Some(1), Some(2), Some(2), Some(1), None, None]
}

/// The three-wide pieces in rotations 1 and 2.
pub open spec fn three_wide_rot12() -> Seq<Option<usize>> {
    seq![Some(2usize), Some(3), Some(2), Some(1), Some(2), Some(3), Some(3), Some(2), None, None]
}

/// The three-wide pieces in rotation 3.
pub open spec fn three_wide_rot3() -> Seq<Option<usize>> {
    seq![Some(2usize), Some(3), Some(2), Some(1), Some(2), Some(3), Some(3), Some(2), Some(2), None]
}

/// The finesse table for a piece in rotation state `rotation` (taken modulo 4).
pub open spec fn finesse_table(piece: Piece, rotation: u8) -> Seq<Option<usize>> {
    let r = rotation % 4;
    if piece == Piece::O {
        o_rot0()
    } else if piece == Piece::I {
        if r == 0 {
            i_rot0()
        } else if r == 1 {
            i_rot1()
        } else if r == 2 {
            i_rot2()
        } else {
            i_rot3()
        }
    } else {
        if r == 0 {
            three_wide_rot0()
        } else if r == 3 {
            three_wide_rot3()
        } else {
            three_wide_rot12()
        }
    }
}

/// The least number of inputs to place `piece` in `target_col` with rotation
/// `target_rotation`, or `None` where the table has no entry.
pub open spec fn finesse_cost(piece: Piece, target_col: int, target_rotation: u8) -> Option<usize> {
    if 0 <= target_col < 10 {
        finesse_table(piece, target_rotation)[target_col]
    } else {
        None
    }
}

fn table_o_rot0() -> (t: FinTable)
    ensures
        t@ == o_rot0(),
{
    let t: FinTable = [Some(2), Some(2), Some(1), Some(0), Some(1), Some(2), Some(2), Some(1), None, None];
    assert(t@ =~= o_rot0());
    t
}

fn table_i(r: u8) -> (t: FinTable)
    requires
        r < 4,
    ensures
        r == 0 ==> t@ == i_rot0(),
        r == 1 ==> t@ == i_rot1(),
        r == 2 ==> t@ == i_rot2(),
        r == 3 ==> t@ == i_rot3(),
{
    if r == 0 {
        let t: FinTable = [Some(1), Some(2), Some(1), Some(0), Some(1), Some(2), Some(1), None, None, None];
        assert(t@ =~= i_rot0());
        t
    } else if r == 1 {
        let t: FinTable = [Some(2), Some(3), Some(2), Some(1), Some(2), Some(3), Some(2), Some(2), None, None];
        assert(t@ =~= i_rot1());
        t
    } else if r == 2 {
        let t: FinTable = [Some(2), Some(3), Some(2), Some(1), Some(2), Some(3), Some(2), None, None, None];
        assert(t@ =~= i_rot2());
        t
    } else {
        let t: FinTable = [Some(2), Some(3), Some(2), Some(1), Some(2), Some(3), Some(2), Some(3), Some(2), None];
        assert(t@ =~= i_rot3());
        t
    }
}

fn table_three_wide(r: u8) -> (t: FinTable)
    requires
        r < 4,
    ensures
        r == 0 ==> t@ == three_wide_rot0(),
        (r == 1 || r == 2) ==> t@ == three_wide_rot12(),
        r == 3 ==> t@ == three_wide_rot3(),
{
    if r == 0 {
        let t: FinTable = [Some(1), Some(2), Some(1), Some(0), Some(1), Some(2), Some(2), Some(1), None, None];
        assert(t@ =~= three_wide_rot0());
        t
    } else if r == 3 {
        let t: FinTable = [Some(2), Some(3), Some(2), Some(1), Some(2), Some(3), Some(3), Some(2), Some(2), None];
        assert(t@ =~= three_wide_rot3());
        t
    } else {
        let t: FinTable = [Some(2), Some(3), Some(2), Some(1), Some(2), Some(3), Some(3), Some(2), None, None];
        assert(t@ =~= three_wide_rot12());
        t
    }
}

/// The finesse table of `piece` in rotation state `rotation` (modulo 4).
/// The J, L, S, T and Z pieces share their tables.
pub fn get_table(piece: Piece, rotation: u8) -> (t: FinTable)
    ensures
        t@ == finesse_table(piece, rotation),
{
    let r = rotation & 3;
    assert(r == rotation % 4 && r < 4) by (bit_vector)
        requires
            r == rotation & 3,
    ;
    match piece {
        Piece::O => table_o_rot0(),
        Piece::I => table_i(r),
        _ => table_three_wide(r),
    }
}

/// The least number of inputs needed to place `piece` at `target_col` in
/// `target_rotation`, or `None` for a column outside the board or one the
/// table does not cover.
pub fn lookup_finesse(piece: Piece, target_col: usize, target_rotation: u8) -> (r: Option<usize>)
    ensures
        r == finesse_cost(piece, target_col as int, target_rotation),
{
    if target_col >= 10 {
        return None;
    }
    let t = get_table(piece, target_rotation);
    t[target_col]
}

/// Spawning is free: every piece sits at column 3, rotation 0, with no input.
pub proof fn lemma_spawn_needs_no_input(piece: Piece)
    ensures
        finesse_cost(piece, 3, 0) == Some(0usize),
{
}

/// Rotation states repeat every four turns.
pub proof fn lemma_rotation_is_modulo_four(piece: Piece, col: int, rotation: u8)
    requires
        rotation < 252,
    ensures
        finesse_cost(piece, col, rotation) == finesse_cost(piece, col, (rotation + 4) as u8),
{
}

/// The O piece's cost does not depend on the rotation asked for.
pub proof fn lemma_o_ignores_rotation(col: int, r1: u8, r2: u8)
    ensures
        finesse_cost(Piece::O, col, r1) == finesse_cost(Piece::O, col, r2),
{
}

/// No placement needs more than three inputs.
pub proof fn lemma_cost_at_most_three(piece: Piece, col: int, rotation: u8)
    ensures
        finesse_cost(piece, col, rotation) matches Some(n) ==> n <= 3,
{
    if 0 <= col < 10 {
        let t = finesse_table(piece, rotation);
        assert(t[col] matches Some(n) ==> n <= 3);
    }
}

/// The smallest column offset of a piece's spawn cells.
pub open spec fn spawn_min_col(p: Piece) -> int {
    let s = spawn_shape(p);
    let a = if s[0].1 < s[1].1 { s[0].1 as int } else { s[1].1 as int };
    let b = if s[2].1 < s[3].1 { s[2].1 as int } else { s[3].1 as int };
    if a < b { a } else { b }
}

/// The largest column offset of a piece's spawn cells.
pub open spec fn spawn_max_col(p: Piece) -> int {
    let s = spawn_shape(p);
    let a = if s[0].1 > s[1].1 { s[0].1 as int } else { s[1].1 as int };
    let b = if s[2].1 > s[3].1 { s[2].1 as int } else { s[3].1 as int };
    if a > b { a } else { b }
}

/// In the spawn orientation, the cost of a column follows from how far it is
/// from the spawn column 3 and from the walls: the spawn column is free, a
/// column next to it or against a wall takes one input (a tap, or one
/// auto-shift to the wall), every other column the piece can reach takes
/// two, and a column past the right wall cannot be reached. The walls are
/// where the spawn cells touch column 0 or column 9.
pub proof fn lemma_flat_costs(p: Piece, col: int)
    requires
        0 <= col < 10,
    ensures
        ({
            let left = -spawn_min_col(p);
            let right = 9 - spawn_max_col(p);
            finesse_cost(p, col, 0) == if col == 3 {
                Some(0usize)
            } else if col == 2 || col == 4 || col == left || col == right {
                Some(1usize)
            } else if left <= col <= right {
                Some(2usize)
            } else {
                None
            }
        }),
{
}

/// A half turn costs one input more than the spawn orientation at every
/// column, for every piece that turns.
pub proof fn lemma_half_turn_costs_one_more(p: Piece, col: int)
    requires
        p != Piece::O,
        0 <= col < 10,
    ensures
        finesse_cost(p, col, 2) == match finesse_cost(p, col, 0) {
            Some(n) => Some((n + 1) as usize),
            None => None::<usize>,
        },
{
}

} // verus!
