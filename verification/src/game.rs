use crate::finesse::{finesse_cost, lemma_cost_at_most_three, lookup_finesse};
use crate::piece::{box_max, piece_id, piece_of_id, spawn_shape, Cells, Piece};
use rand::seq::SliceRandom;
use std::collections::VecDeque;
use vstd::prelude::*;

verus! {

/// One row of the playfield, left to right; a filled cell remembers the piece
/// whose colour it shows.
pub type Row = [Option<Piece>; 10];

/// The playfield: 23 rows, top to bottom, of 10 cells each.
pub type Grid = [[Option<Piece>; 10]; 23];

/// The state of one game, as the rules see it: the playfield, the queue of
/// upcoming pieces, the falling piece, and the running statistics. Timers in
/// real time (auto-shift charge, repeat and soft-drop timers, gravity) are
/// kept by the caller, which is told through `timer_reset_pending` when they
/// restart.
pub struct GameState {
    pub grid: Grid,
    pub bag_queue: VecDeque<i32>,
    pub active_piece: Option<Piece>,
    pub active_cells: Cells,
    pub active_pos: (i32, i32),
    pub locking: bool,
    pub rotation_state: u8,
    pub level: i32,
    pub das_direction: Option<i32>,
    pub soft_dropping: bool,
    pub infinite_sdf: bool,
    pub last_clear: u32,
    pub score: u64,
    pub drop_points: u32,
    pub combo: i32,
    pub b2b: i32,
    pub last_action_was_rotation: bool,
    pub last_action_used_kicks: bool,
    pub last_spin_piece: Option<Piece>,
    pub last_spin_mini: bool,
    pub hold_piece: Option<Piece>,
    pub hold_used: bool,
    pub total_lines: u32,
    pub was_soft_dropped: bool,
    pub finesse_input_count: u32,
    pub finesse_faults: u32,
    pub finesse_pieces_placed: u32,
    pub finesse_perfect_pieces: u32,
    pub total_keys_pressed: u32,
    pub singles: u32,
    pub doubles: u32,
    pub triples: u32,
    pub quads: u32,
    pub total_spins: u32,
    pub max_b2b: i32,
    pub max_combo: i32,
    /// Set whenever a new piece comes into play, when the auto-shift and
    /// soft-drop timers that the caller keeps restart from zero.
    pub timer_reset_pending: bool,
}

/// The mathematical model of a `GameState`: the same fields, with the
/// playfield as rows of cells, the queue as a sequence and the piece's cells
/// as a sequence.
#[verifier::ext_equal]
pub struct GameView {
    pub grid: Seq<Seq<Option<Piece>>>,
    pub bag_queue: Seq<i32>,
    pub active_piece: Option<Piece>,
    pub active_cells: Seq<(i32, i32)>,
    pub active_pos: (i32, i32),
    pub locking: bool,
    pub rotation_state: u8,
    pub level: i32,
    pub das_direction: Option<i32>,
    pub soft_dropping: bool,
    pub infinite_sdf: bool,
    pub last_clear: u32,
    pub score: u64,
    pub drop_points: u32,
    pub combo: i32,
    pub b2b: i32,
    pub last_action_was_rotation: bool,
    pub last_action_used_kicks: bool,
    pub last_spin_piece: Option<Piece>,
    pub last_spin_mini: bool,
    pub hold_piece: Option<Piece>,
    pub hold_used: bool,
    pub total_lines: u32,
    pub was_soft_dropped: bool,
    pub finesse_input_count: u32,
    pub finesse_faults: u32,
    pub finesse_pieces_placed: u32,
    pub finesse_perfect_pieces: u32,
    pub total_keys_pressed: u32,
    pub singles: u32,
    pub doubles: u32,
    pub triples: u32,
    pub quads: u32,
    pub total_spins: u32,
    pub max_b2b: i32,
    pub max_combo: i32,
    pub timer_reset_pending: bool,
}

impl View for GameState {
    type V = GameView;

    open spec fn view(&self) -> GameView {
        GameView {
            grid: model(self.grid),
            bag_queue: self.bag_queue@,
            active_piece: self.active_piece,
            active_cells: self.active_cells@,
            active_pos: self.active_pos,
            locking: self.locking,
            rotation_state: self.rotation_state,
            level: self.level,
            das_direction: self.das_direction,
            soft_dropping: self.soft_dropping,
            infinite_sdf: self.infinite_sdf,
            last_clear: self.last_clear,
            score: self.score,
            drop_points: self.drop_points,
            combo: self.combo,
            b2b: self.b2b,
            last_action_was_rotation: self.last_action_was_rotation,
            last_action_used_kicks: self.last_action_used_kicks,
            last_spin_piece: self.last_spin_piece,
            last_spin_mini: self.last_spin_mini,
            hold_piece: self.hold_piece,
            hold_used: self.hold_used,
            total_lines: self.total_lines,
            was_soft_dropped: self.was_soft_dropped,
            finesse_input_count: self.finesse_input_count,
            finesse_faults: self.finesse_faults,
            finesse_pieces_placed: self.finesse_pieces_placed,
            finesse_perfect_pieces: self.finesse_perfect_pieces,
            total_keys_pressed: self.total_keys_pressed,
            singles: self.singles,
            doubles: self.doubles,
            triples: self.triples,
            quads: self.quads,
            total_spins: self.total_spins,
            max_b2b: self.max_b2b,
            max_combo: self.max_combo,
            timer_reset_pending: self.timer_reset_pending,
        }
    }
}

// ---------------------------------------------------------------------------
// The playfield
// ---------------------------------------------------------------------------

/// A row with no filled cell.
pub open spec fn empty_row() -> Seq<Option<Piece>> {
    Seq::new(10, |c: int| None::<Piece>)
}

/// The playfield of a new game.
pub open spec fn empty_grid() -> Seq<Seq<Option<Piece>>> {
    Seq::new(23, |r: int| empty_row())
}

/// 23 rows of 10 cells each.
pub open spec fn shaped(m: Seq<Seq<Option<Piece>>>) -> bool {
    &&& m.len() == 23
    &&& forall|r: int| 0 <= r < 23 ==> (#[trigger] m[r]).len() == 10
}

/// The cell at (r, c) is on the board and empty.
pub open spec fn free_at(m: Seq<Seq<Option<Piece>>>, r: int, c: int) -> bool {
    0 <= r < 23 && 0 <= c < 10 && m[r][c] is None
}

/// The cell at (r, c) is off the board or filled: what counts as a blocked
/// corner for spin detection.
pub open spec fn blocked_at(m: Seq<Seq<Option<Piece>>>, r: int, c: int) -> bool {
    !(0 <= r < 23 && 0 <= c < 10) || m[r][c] is Some
}

/// The four cells, moved to position (r, c), are all on the board and empty.
pub open spec fn fits(m: Seq<Seq<Option<Piece>>>, cells: Seq<(i32, i32)>, r: int, c: int) -> bool {
    forall|i: int| 0 <= i < 4 ==> free_at(m, r + (#[trigger] cells[i]).0, c + cells[i].1)
}

/// The four cells, moved to position (r, c), are all on the board.
pub open spec fn on_board(cells: Seq<(i32, i32)>, r: int, c: int) -> bool {
    forall|i: int|
        0 <= i < 4 ==> 0 <= r + (#[trigger] cells[i]).0 < 23 && 0 <= c + cells[i].1 < 10
}

/// Every offset lies within the box 0..=k.
pub open spec fn in_box(cells: Seq<(i32, i32)>, k: int) -> bool {
    forall|i: int|
        0 <= i < 4 ==> 0 <= (#[trigger] cells[i]).0 <= k && 0 <= cells[i].1 <= k
}

/// One of the four cells, moved to `pos`, lands on (r, c).
pub open spec fn covers(cells: Seq<(i32, i32)>, pos: (i32, i32), r: int, c: int) -> bool {
    exists|i: int| 0 <= i < 4 && pos.0 + (#[trigger] cells[i]).0 == r && pos.1 + cells[i].1 == c
}

/// The playfield with the piece's cells filled in.
pub open spec fn place_piece(
    m: Seq<Seq<Option<Piece>>>,
    cells: Seq<(i32, i32)>,
    pos: (i32, i32),
    p: Piece,
) -> Seq<Seq<Option<Piece>>> {
    Seq::new(
        23,
        |r: int|
            Seq::new(
                10,
                |c: int|
                    if covers(cells, pos, r, c) {
                        Some(p)
                    } else {
                        m[r][c]
                    },
            ),
    )
}

/// Every cell of the row is filled.
pub open spec fn row_full(row: Seq<Option<Piece>>) -> bool {
    forall|c: int| 0 <= c < 10 ==> (#[trigger] row[c]) is Some
}

/// The rows that are not full, in their order.
pub open spec fn kept_rows(rows: Seq<Seq<Option<Piece>>>) -> Seq<Seq<Option<Piece>>>
    decreases rows.len(),
{
    if rows.len() == 0 {
        seq![]
    } else {
        let k = kept_rows(rows.drop_last());
        if row_full(rows.last()) {
            k
        } else {
            k.push(rows.last())
        }
    }
}

/// How many full rows the playfield holds.
#[verifier::opaque]
pub open spec fn full_row_count(m: Seq<Seq<Option<Piece>>>) -> nat {
    (m.len() - kept_rows(m).len()) as nat
}

/// The playfield after its full rows are removed: the other rows keep their
/// order and sink to the bottom, and empty rows fill the top.
#[verifier::opaque]
pub open spec fn clear_full_rows(m: Seq<Seq<Option<Piece>>>) -> Seq<Seq<Option<Piece>>> {
    let k = kept_rows(m);
    Seq::new((m.len() - k.len()) as nat, |r: int| empty_row()) + k
}

/// No cell of the playfield is filled.
#[verifier::opaque]
pub open spec fn board_empty(m: Seq<Seq<Option<Piece>>>) -> bool {
    forall|r: int, c: int| 0 <= r < 23 && 0 <= c < 10 ==> (#[trigger] m[r][c]) is None
}

/// How many rows a piece at (r, c) can fall before it rests.
pub open spec fn fall_distance(m: Seq<Seq<Option<Piece>>>, cells: Seq<(i32, i32)>, r: int, c: int) -> nat
    decreases 23 - r,
{
    if r < 23 && fits(m, cells, r + 1, c) {
        1 + fall_distance(m, cells, r + 1, c)
    } else {
        0
    }
}

impl GameView {
    /// The invariant every game state keeps: a 23 by 10 playfield, a rotation
    /// state below 4, and a falling piece whose cells lie inside its bounding
    /// box and on the board.
    pub open spec fn wf(self) -> bool {
        &&& shaped(self.grid)
        &&& self.active_cells.len() == 4
        &&& self.rotation_state < 4
        &&& self.active_piece matches Some(p) ==> {
            &&& in_box(self.active_cells, box_max(p))
            &&& on_board(self.active_cells, self.active_pos.0 as int, self.active_pos.1 as int)
        }
    }

    /// The falling piece fits after moving `dc` columns.
    pub open spec fn can_shift(self, dc: int) -> bool {
        self.active_piece is Some && fits(
            self.grid,
            self.active_cells,
            self.active_pos.0 as int,
            self.active_pos.1 + dc,
        )
    }

    /// The state after the piece moves `dc` columns.
    pub open spec fn shifted(self, dc: int) -> GameView {
        GameView {
            active_pos: (self.active_pos.0, (self.active_pos.1 + dc) as i32),
            last_action_was_rotation: false,
            ..self
        }
    }

    /// The falling piece fits one row lower.
    pub open spec fn can_fall(self) -> bool {
        self.active_piece is Some && fits(
            self.grid,
            self.active_cells,
            self.active_pos.0 + 1,
            self.active_pos.1 as int,
        )
    }

    /// The state after the piece moves one row down.
    pub open spec fn fallen(self) -> GameView {
        GameView {
            active_pos: ((self.active_pos.0 + 1) as i32, self.active_pos.1),
            last_action_was_rotation: false,
            ..self
        }
    }

    /// How many rows the falling piece can drop.
    pub open spec fn drop_rows(self) -> nat {
        fall_distance(
            self.grid,
            self.active_cells,
            self.active_pos.0 as int,
            self.active_pos.1 as int,
        )
    }

    /// The position at which the falling piece would come to rest.
    pub open spec fn ghost_pos(self) -> Option<(i32, i32)> {
        if self.active_piece is Some {
            Some(((self.active_pos.0 + self.drop_rows()) as i32, self.active_pos.1))
        } else {
            None
        }
    }

    /// The falling piece overlaps the stack or the walls: the game is lost.
    pub open spec fn game_over(self) -> bool {
        self.active_piece is Some && !fits(
            self.grid,
            self.active_cells,
            self.active_pos.0 as int,
            self.active_pos.1 as int,
        )
    }

    /// The T-spin test: (is a T-spin, is a mini T-spin). Three of the four
    /// corners around a T piece that last moved by rotation must be blocked; it
    /// is a mini unless both corners of the pair that the rotation state picks
    /// are blocked: the lower pair in state 0, the right pair in state 1, the
    /// upper pair in state 2 and the left pair in state 3.
    #[verifier::opaque]
    pub open spec fn tspin(self) -> (bool, bool) {
        if self.active_piece != Some(Piece::T) || !self.last_action_was_rotation {
            (false, false)
        } else {
            let r0 = self.active_pos.0 as int;
            let c0 = self.active_pos.1 as int;
            let a = blocked_at(self.grid, r0, c0);
            let b = blocked_at(self.grid, r0, c0 + 2);
            let c = blocked_at(self.grid, r0 + 2, c0);
            let d = blocked_at(self.grid, r0 + 2, c0 + 2);
            let count = (if a { 1int } else { 0 }) + (if b { 1int } else { 0 }) + (if c { 1int } else { 0 }) + (
            if d { 1int } else { 0 });
            if count < 3 {
                (false, false)
            } else {
                let (f1, f2) = if self.rotation_state == 0 {
                    (c, d)
                } else if self.rotation_state == 1 {
                    (b, d)
                } else if self.rotation_state == 2 {
                    (a, b)
                } else {
                    (a, c)
                };
                (true, (if f1 { 1int } else { 0 }) + (if f2 { 1int } else { 0 }) < 2)
            }
        }
    }

    /// The spin test: a T piece spins by the T-spin test; any other piece that
    /// last moved by rotation and can move neither left, right nor up spins as
    /// a mini.
    #[verifier::opaque]
    pub open spec fn spin(self) -> Option<(Piece, bool)> {
        match self.active_piece {
            None => None,
            Some(p) => if !self.last_action_was_rotation {
                None
            } else if p == Piece::T {
                if self.tspin().0 {
                    Some((Piece::T, self.tspin().1))
                } else {
                    None
                }
            } else {
                let r0 = self.active_pos.0 as int;
                let c0 = self.active_pos.1 as int;
                if !fits(self.grid, self.active_cells, r0, c0 - 1) && !fits(
                    self.grid,
                    self.active_cells,
                    r0,
                    c0 + 1,
                ) && !fits(self.grid, self.active_cells, r0 - 1, c0) {
                    Some((p, true))
                } else {
                    None
                }
            },
        }
    }
}

// ---------------------------------------------------------------------------
// Spawning and the piece queue
// ---------------------------------------------------------------------------

/// A shuffled bag: the identifiers 1 to 7, each exactly once, in some order.
pub open spec fn is_seven_bag(fill: Seq<i32>) -> bool {
    fill.to_multiset() =~= seq![1i32, 2, 3, 4, 5, 6, 7].to_multiset()
}

/// The queue after it is topped up with `fill` when it holds fewer than 7 ids.
pub open spec fn refilled(bag: Seq<i32>, fill: Seq<i32>) -> Seq<i32> {
    if bag.len() < 7 {
        bag + fill
    } else {
        bag
    }
}

/// The state after the piece with identifier `id` comes into play.
pub open spec fn spawn_id(v: GameView, id: i32) -> GameView {
    match piece_of_id(id as int) {
        None => GameView { active_piece: None, ..v },
        Some(p) => GameView {
            active_piece: Some(p),
            active_cells: spawn_shape(p),
            active_pos: (0, 3),
            locking: false,
            rotation_state: 0,
            das_direction: None,
            timer_reset_pending: true,
            was_soft_dropped: false,
            hold_used: false,
            drop_points: 0,
            ..v
        },
    }
}

/// The state after the next piece is taken from the queue, the queue having
/// been topped up with `fill` if it ran short.
pub open spec fn spawn_next(v: GameView, fill: Seq<i32>) -> GameView {
    let b = refilled(v.bag_queue, fill);
    spawn_id(GameView { bag_queue: b.drop_first(), ..v }, b[0])
}

/// A new game: an empty playfield and queue, level 1, nothing in play.
pub open spec fn initial_view() -> GameView {
    GameView {
        grid: empty_grid(),
        bag_queue: seq![],
        active_piece: None,
        active_cells: seq![(0i32, 0i32), (0, 0), (0, 0), (0, 0)],
        active_pos: (0, 0),
        locking: false,
        rotation_state: 0,
        level: 1,
        das_direction: None,
        soft_dropping: false,
        infinite_sdf: false,
        last_clear: 0,
        score: 0,
        drop_points: 0,
        combo: 0,
        b2b: 0,
        last_action_was_rotation: false,
        last_action_used_kicks: false,
        last_spin_piece: None,
        last_spin_mini: false,
        hold_piece: None,
        hold_used: false,
        total_lines: 0,
        was_soft_dropped: false,
        finesse_input_count: 0,
        finesse_faults: 0,
        finesse_pieces_placed: 0,
        finesse_perfect_pieces: 0,
        total_keys_pressed: 0,
        singles: 0,
        doubles: 0,
        triples: 0,
        quads: 0,
        total_spins: 0,
        max_b2b: 0,
        max_combo: 0,
        timer_reset_pending: false,
    }
}

/// `rand::seq::SliceRandom::shuffle` with the thread's generator: puts the
/// identifiers in a random order. The contract claims only that the result
/// holds the same identifiers, each as often as before; which order comes
/// out is left open.
#[verifier::external_body]
fn shuffle_ids(bag: &mut [i32; 7])
    ensures
        final(bag)@.to_multiset() == old(bag)@.to_multiset(),
{
    bag.shuffle(&mut rand::thread_rng());
}

impl GameState {
    /// A new game with an empty playfield and queue.
    pub fn new() -> (g: GameState)
        ensures
            g@ == initial_view(),
            g@.wf(),
    {
        let g = GameState {
            grid: [[None; 10]; 23],
            bag_queue: VecDeque::new(),
            active_piece: None,
            active_cells: [(0, 0); 4],
            active_pos: (0, 0),
            locking: false,
            rotation_state: 0,
            level: 1,
            das_direction: None,
            soft_dropping: false,
            infinite_sdf: false,
            last_clear: 0,
            score: 0,
            drop_points: 0,
            combo: 0,
            b2b: 0,
            last_action_was_rotation: false,
            last_action_used_kicks: false,
            last_spin_piece: None,
            last_spin_mini: false,
            hold_piece: None,
            hold_used: false,
            total_lines: 0,
            was_soft_dropped: false,
            finesse_input_count: 0,
            finesse_faults: 0,
            finesse_pieces_placed: 0,
            finesse_perfect_pieces: 0,
            total_keys_pressed: 0,
            singles: 0,
            doubles: 0,
            triples: 0,
            quads: 0,
            total_spins: 0,
            max_b2b: 0,
            max_combo: 0,
            timer_reset_pending: false,
        };
        proof {
            lemma_model(g.grid);
        }
        assert forall|r: int| 0 <= r < 23 implies g@.grid[r] =~= empty_row() by {
            assert(g.grid[r]@ =~= empty_row());
        }
        assert(g@.grid =~= empty_grid());
        assert(g@.active_cells =~= seq![(0i32, 0i32), (0, 0), (0, 0), (0, 0)]);
        g
    }

    /// Starts over with a new game.
    pub fn reset(&mut self)
        ensures
            final(self)@ == initial_view(),
    {
        *self = Self::new();
    }
}


impl GameState {
    proof fn lemma_grid_view(&self)
        ensures
            shaped(self@.grid),
            forall|r: int, c: int|
                0 <= r < 23 && 0 <= c < 10 ==> #[trigger] self@.grid[r][c] == self.grid[r][c],
    {
        lemma_model(self.grid);
    }

    /// Is the cell at (r, c) on the board and empty?
    fn free_cell(&self, r: i32, c: i32) -> (b: bool)
        ensures
            b == free_at(self@.grid, r as int, c as int),
    {
        proof {
            self.lemma_grid_view();
        }
        if r < 0 || r >= 23 || c < 0 || c >= 10 {
            false
        } else {
            self.grid[r as usize][c as usize].is_none()
        }
    }

    /// Is the cell at (r, c) off the board or filled?
    fn corner_filled(&self, r: i32, c: i32) -> (b: bool)
        ensures
            b == blocked_at(self@.grid, r as int, c as int),
    {
        proof {
            self.lemma_grid_view();
        }
        if r < 0 || r >= 23 || c < 0 || c >= 10 {
            true
        } else {
            self.grid[r as usize][c as usize].is_some()
        }
    }

    /// Would `cells`, placed at `pos`, lie on the board and on empty cells only?
    pub fn cells_valid_at(&self, cells: &Cells, pos: (i32, i32)) -> (b: bool)
        requires
            forall|i: int|
                0 <= i < 4 ==> i32::MIN <= pos.0 + (#[trigger] cells@[i]).0 <= i32::MAX && i32::MIN
                    <= pos.1 + cells@[i].1 <= i32::MAX,
        ensures
            b == fits(self@.grid, cells@, pos.0 as int, pos.1 as int),
    {
        let mut i: usize = 0;
        while i < 4
            invariant
                0 <= i <= 4,
                forall|j: int|
                    0 <= j < 4 ==> i32::MIN <= pos.0 + (#[trigger] cells@[j]).0 <= i32::MAX
                        && i32::MIN <= pos.1 + cells@[j].1 <= i32::MAX,
                forall|j: int|
                    0 <= j < i ==> free_at(
                        self@.grid,
                        pos.0 + (#[trigger] cells@[j]).0,
                        pos.1 + cells@[j].1,
                    ),
            decreases 4 - i,
        {
            let (dr, dc) = cells[i];
            assert(cells@[i as int] == (dr, dc));
            let r = pos.0 + dr;
            let c = pos.1 + dc;
            if !self.free_cell(r, c) {
                return false;
            }
            i += 1;
        }
        true
    }

    /// For a piece lying on the board at (r, c): does it fit one row lower?
    /// Rows past the bottom and filled cells block it.
    fn fits_below(&self, r: i32, c: i32) -> (b: bool)
        requires
            self@.active_cells.len() == 4,
            on_board(self@.active_cells, r as int, c as int),
        ensures
            b == fits(self@.grid, self@.active_cells, r + 1, c as int),
    {
        proof {
            self.lemma_grid_view();
        }
        let mut i: usize = 0;
        while i < 4
            invariant
                0 <= i <= 4,
                self@.active_cells.len() == 4,
                on_board(self@.active_cells, r as int, c as int),
                shaped(self@.grid),
                forall|rr: int, cc: int|
                    0 <= rr < 23 && 0 <= cc < 10 ==> #[trigger] self@.grid[rr][cc]
                        == self.grid[rr][cc],
                forall|j: int|
                    0 <= j < i ==> free_at(
                        self@.grid,
                        r + 1 + (#[trigger] self@.active_cells[j]).0,
                        c + self@.active_cells[j].1,
                    ),
            decreases 4 - i,
        {
            let (dr, dc) = self.active_cells[i];
            assert(self@.active_cells[i as int] == (dr, dc));
            let nr = r + dr + 1;
            let cc = c + dc;
            if nr >= 23 || self.grid[nr as usize][cc as usize].is_some() {
                return false;
            }
            i += 1;
        }
        true
    }

    /// Moves the falling piece `dc` columns if it fits there; reports whether it moved.
    pub fn try_move(&mut self, dc: i32) -> (moved: bool)
        requires
            old(self)@.wf(),
            old(self)@.active_piece is Some ==> forall|i: int|
                0 <= i < 4 ==> i32::MIN <= old(self)@.active_pos.1 + (
                #[trigger] old(self)@.active_cells[i]).1 + dc <= i32::MAX,
        ensures
            moved == old(self)@.can_shift(dc as int),
            final(self)@ == if moved {
                old(self)@.shifted(dc as int)
            } else {
                old(self)@
            },
            final(self)@.wf(),
    {
        if self.active_piece.is_none() {
            return false;
        }
        let ghost v = self@;
        let mut i: usize = 0;
        while i < 4
            invariant
                0 <= i <= 4,
                self@ == v,
                v.wf(),
                v.active_piece is Some,
                forall|j: int|
                    0 <= j < 4 ==> i32::MIN <= v.active_pos.1 + (#[trigger] v.active_cells[j]).1
                        + dc <= i32::MAX,
                forall|j: int|
                    0 <= j < i ==> free_at(
                        v.grid,
                        v.active_pos.0 + (#[trigger] v.active_cells[j]).0,
                        v.active_pos.1 + dc + v.active_cells[j].1,
                    ),
            decreases 4 - i,
        {
            let (dr, dc_cell) = self.active_cells[i];
            assert(v.active_cells[i as int] == (dr, dc_cell));
            let r = self.active_pos.0 + dr;
            let c = self.active_pos.1 + dc_cell + dc;
            if !self.free_cell(r, c) {
                return false;
            }
            i += 1;
        }
        assert(fits(v.grid, v.active_cells, v.active_pos.0 as int, v.active_pos.1 + dc));
        assert(0 <= v.active_pos.1 + dc + v.active_cells[0].1 < 10);
        self.active_pos.1 = self.active_pos.1 + dc;
        self.last_action_was_rotation = false;
        true
    }

    /// Moves the falling piece one row down if it fits there; reports whether it moved.
    pub fn try_move_down(&mut self) -> (moved: bool)
        requires
            old(self)@.wf(),
        ensures
            moved == old(self)@.can_fall(),
            final(self)@ == if moved {
                old(self)@.fallen()
            } else {
                old(self)@
            },
            final(self)@.wf(),
    {
        if self.active_piece.is_none() {
            return false;
        }
        if !self.fits_below(self.active_pos.0, self.active_pos.1) {
            return false;
        }
        assert(0 <= self.active_pos.0 + 1 + self@.active_cells[0].0 < 23);
        self.active_pos.0 = self.active_pos.0 + 1;
        self.last_action_was_rotation = false;
        true
    }

    /// Has the falling piece nowhere to stand: does it overlap the stack or the walls?
    pub fn is_game_over(&self) -> (b: bool)
        requires
            self@.wf(),
        ensures
            b == self@.game_over(),
    {
        if self.active_piece.is_some() {
            !self.cells_valid_at(&self.active_cells, self.active_pos)
        } else {
            false
        }
    }

    /// The T-spin test: (is a T-spin, is a mini T-spin).
    pub fn check_tspin(&self) -> (t: (bool, bool))
        requires
            self@.wf(),
        ensures
            t == self@.tspin(),
    {
        reveal(GameView::tspin);
        let piece = match self.active_piece {
            Some(p) => p,
            None => return (false, false),
        };
        if piece != Piece::T || !self.last_action_was_rotation {
            return (false, false);
        }
        assert(0 <= self.active_pos.0 + self@.active_cells[0].0 < 23);
        assert(0 <= self.active_pos.1 + self@.active_cells[0].1 < 10);
        let r0 = self.active_pos.0;
        let c0 = self.active_pos.1;
        let a = self.corner_filled(r0, c0);
        let b = self.corner_filled(r0, c0 + 2);
        let c = self.corner_filled(r0 + 2, c0);
        let d = self.corner_filled(r0 + 2, c0 + 2);
        let count: u32 = (if a { 1u32 } else { 0 }) + (if b { 1u32 } else { 0 }) + (if c { 1u32 } else { 0 }) + (
        if d { 1u32 } else { 0 });
        if count < 3 {
            return (false, false);
        }
        let front = match self.rotation_state {
            0 => [c, d],
            1 => [b, d],
            2 => [a, b],
            _ => [a, c],
        };
        let front_count: u32 = (if front[0] { 1u32 } else { 0 }) + (if front[1] { 1u32 } else { 0 });
        (true, front_count < 2)
    }

    /// The spin test for the falling piece: `Some((piece, is_mini))` when it spun in.
    pub fn check_spin(&self) -> (s: Option<(Piece, bool)>)
        requires
            self@.wf(),
        ensures
            s == self@.spin(),
    {
        reveal(GameView::spin);
        let piece = match self.active_piece {
            Some(p) => p,
            None => return None,
        };
        if !self.last_action_was_rotation {
            return None;
        }
        if piece == Piece::T {
            let (is_tspin, is_mini) = self.check_tspin();
            if is_tspin {
                return Some((Piece::T, is_mini));
            }
            return None;
        }
        assert(0 <= self.active_pos.0 + self@.active_cells[0].0 < 23);
        assert(0 <= self.active_pos.1 + self@.active_cells[0].1 < 10);
        let immobile = !self.cells_valid_at(
            &self.active_cells,
            (self.active_pos.0, self.active_pos.1 - 1),
        ) && !self.cells_valid_at(&self.active_cells, (self.active_pos.0, self.active_pos.1 + 1))
            && !self.cells_valid_at(&self.active_cells, (self.active_pos.0 - 1, self.active_pos.1));
        if immobile {
            Some((piece, true))
        } else {
            None
        }
    }

    /// Where the falling piece would come to rest if dropped, or `None` with no piece.
    pub fn compute_ghost_pos(&self) -> (g: Option<(i32, i32)>)
        requires
            self@.wf(),
        ensures
            g == self@.ghost_pos(),
    {
        if self.active_piece.is_none() {
            return None;
        }
        let mut gp = self.active_pos;
        while self.fits_below(gp.0, gp.1)
            invariant
                self@.wf(),
                self@.active_piece is Some,
                gp.1 == self.active_pos.1,
                self.active_pos.0 <= gp.0,
                on_board(self@.active_cells, gp.0 as int, gp.1 as int),
                self@.drop_rows() == (gp.0 - self.active_pos.0) + fall_distance(
                    self@.grid,
                    self@.active_cells,
                    gp.0 as int,
                    gp.1 as int,
                ),
            decreases 23 - gp.0,
        {
            assert(0 <= gp.0 + self@.active_cells[0].0 < 23);
            gp.0 = gp.0 + 1;
        }
        Some(gp)
    }
}


// ---------------------------------------------------------------------------
// Locking a piece: placing, clearing, scoring
// ---------------------------------------------------------------------------

/// The rows of an array playfield.
#[verifier::opaque]
pub open spec fn model(g: Grid) -> Seq<Seq<Option<Piece>>> {
    g@.map_values(|row: Row| row@)
}

/// The model of an array playfield has 23 rows of 10 cells, row by row.
pub proof fn lemma_model(g: Grid)
    ensures
        shaped(model(g)),
        forall|r: int| 0 <= r < 23 ==> #[trigger] model(g)[r] == g[r]@,
        forall|r: int, c: int| 0 <= r < 23 && 0 <= c < 10 ==> #[trigger] model(g)[r][c] == g[r][c],
{
    reveal(model);
    assert forall|r: int| 0 <= r < 23 implies (#[trigger] model(g)[r]).len() == 10 by {
        assert(model(g)[r] == g[r]@);
    }
    assert forall|r: int, c: int| 0 <= r < 23 && 0 <= c < 10 implies #[trigger] model(g)[r][c]
        == g[r][c] by {
        assert(model(g)[r] == g[r]@);
    }
}

/// Points for a clear before the level and back-to-back factors: T-spins
/// (mini or not) score 400, 800, 1200, 1600 for 0 to 3 lines; other clears
/// 0, 100, 300, 500, 800 for 0 to 4 lines.
#[verifier::opaque]
pub open spec fn base_score(is_tspin: bool, cleared: int) -> int {
    if is_tspin {
        if cleared == 0 {
            400
        } else if cleared == 1 {
            800
        } else if cleared == 2 {
            1200
        } else {
            1600
        }
    } else {
        if cleared == 1 {
            100
        } else if cleared == 2 {
            300
        } else if cleared == 3 {
            500
        } else if cleared == 4 {
            800
        } else {
            0
        }
    }
}

/// The combo bonus `combo * 50 * level`, computed in `i32`, taken as a `u64`.
#[verifier::opaque]
pub open spec fn combo_bonus(combo: int, level: int) -> int {
    (combo * 50 * level) as u64 as int
}

/// `combo * 50 * level` can be computed in `i32` without overflow.
#[verifier::opaque]
pub open spec fn combo_bonus_fits(combo: int, level: int) -> bool {
    &&& i32::MIN <= combo * 50 <= i32::MAX
    &&& i32::MIN <= combo * 50 * level <= i32::MAX
}

/// The finesse cost the table gives for a piece locking at column `col` in
/// rotation state `rotation`; a negative column has none.
#[verifier::opaque]
pub open spec fn optimal_inputs(piece: Piece, col: i32, rotation: u8) -> Option<usize> {
    if col >= 0 {
        finesse_cost(piece, col as int, rotation)
    } else {
        None
    }
}

/// (pieces placed, perfect pieces, faults) after a piece locks: a
/// soft-dropped piece, or one at a place the table does not cover, counts as
/// perfect; otherwise inputs beyond the optimum count as faults. With no
/// piece nothing changes.
#[verifier::opaque]
pub open spec fn finesse_update(
    piece: Option<Piece>,
    soft_dropped: bool,
    col: i32,
    rotation: u8,
    inputs: u32,
    placed: u32,
    perfect: u32,
    faults: u32,
) -> (int, int, int) {
    match piece {
        None => (placed as int, perfect as int, faults as int),
        Some(p) => if soft_dropped {
            (placed + 1, perfect + 1, faults as int)
        } else {
            match optimal_inputs(p, col, rotation) {
                Some(opt) => if inputs == opt {
                    (placed + 1, perfect + 1, faults as int)
                } else if inputs > opt {
                    (placed + 1, perfect as int, faults + inputs - opt)
                } else {
                    (placed + 1, perfect as int, faults as int)
                },
                None => (placed + 1, perfect + 1, faults as int),
            }
        },
    }
}

/// `x + 1` when `cond` holds, else `x`.
pub open spec fn bumped(x: u32, cond: bool) -> u32 {
    if cond {
        (x + 1) as u32
    } else {
        x
    }
}

/// (combo, longest combo, back-to-back, longest back-to-back) after a lock
/// that clears `cleared` lines: a clear extends the combo, a lock without one
/// ends it; a special clear (spin or four lines) extends the back-to-back
/// chain, an ordinary clear ends it, and a lock without a clear leaves it.
pub open spec fn chains_after(
    combo: i32,
    max_combo: i32,
    b2b: i32,
    max_b2b: i32,
    cleared: int,
    special: bool,
) -> (i32, i32, i32, i32) {
    let c: int = if cleared > 0 {
        combo + 1
    } else {
        0
    };
    let b: int = if cleared > 0 {
        if special {
            b2b + 1
        } else {
            0
        }
    } else {
        b2b as int
    };
    (
        c as i32,
        if max_combo >= c {
            max_combo
        } else {
            c as i32
        },
        b as i32,
        if max_b2b >= b {
            max_b2b
        } else {
            b as i32
        },
    )
}

/// The points of a lock: the scaled clear points, the combo bonus, 3500 for a
/// perfect clear, and the drop points.
#[verifier::opaque]
pub open spec fn lock_score(base: int, level: i32, b2b: i32, combo: i32, perfect: bool, drop: u32) -> int {
    scaled_score(base, level as int, b2b > 1) + combo_bonus(combo as int, level as int) + (if perfect {
        3500int
    } else {
        0
    }) + drop
}

/// `base * level`, times 1.5 during a back-to-back chain, and never below 0.
#[verifier::opaque]
pub open spec fn scaled_score(base: int, level: int, b2b_bonus: bool) -> int {
    let prod = base * level;
    if prod <= 0 {
        0
    } else if b2b_bonus {
        prod * 3 / 2
    } else {
        prod
    }
}

impl GameView {
    /// The playfield with the falling piece placed into it.
    #[verifier::opaque]
    pub open spec fn placed_grid(self) -> Seq<Seq<Option<Piece>>> {
        match self.active_piece {
            Some(p) => place_piece(self.grid, self.active_cells, self.active_pos, p),
            None => self.grid,
        }
    }

    /// How many lines locking the falling piece clears.
    #[verifier::opaque]
    pub open spec fn lines_to_clear(self) -> nat {
        full_row_count(self.placed_grid())
    }

    /// The piece that spun in, if any.
    pub open spec fn spin_piece(self) -> Option<Piece> {
        match self.spin() {
            Some((p, _)) => Some(p),
            None => None,
        }
    }

    /// Whether the spin counts as a mini: a spin of a piece other than T that
    /// clears three or more lines does not.
    pub open spec fn spin_mini(self) -> bool {
        match self.spin() {
            Some((p, m)) => if p != Piece::T && self.lines_to_clear() >= 3 {
                false
            } else {
                m
            },
            None => false,
        }
    }

    /// A T-spin, mini or not.
    pub open spec fn is_tspin(self) -> bool {
        self.spin_piece() == Some(Piece::T)
    }

    /// A spin or a four-line clear: what keeps a back-to-back chain going.
    pub open spec fn is_special(self) -> bool {
        self.spin_piece() is Some || self.lines_to_clear() == 4
    }

    /// (combo, longest combo, back-to-back, longest back-to-back) after the lock.
    pub open spec fn chains(self) -> (i32, i32, i32, i32) {
        chains_after(
            self.combo,
            self.max_combo,
            self.b2b,
            self.max_b2b,
            self.lines_to_clear() as int,
            self.is_special(),
        )
    }

    /// Whether the playfield is empty once the lock's lines are cleared.
    pub open spec fn perfect_clear(self) -> bool {
        board_empty(clear_full_rows(self.placed_grid()))
    }

    /// All the points the lock earns, drop points included.
    pub open spec fn earned(self) -> int {
        lock_score(
            base_score(self.is_tspin(), self.lines_to_clear() as int),
            self.level,
            self.chains().2,
            self.chains().0,
            self.perfect_clear(),
            self.drop_points,
        )
    }

    /// (pieces placed, perfect pieces, faults) after the lock.
    pub open spec fn finesse_after(self) -> (int, int, int) {
        finesse_update(
            self.active_piece,
            self.was_soft_dropped,
            self.active_pos.1,
            self.rotation_state,
            self.finesse_input_count,
            self.finesse_pieces_placed,
            self.finesse_perfect_pieces,
            self.finesse_faults,
        )
    }

    /// Locking the piece overflows no counter.
    pub open spec fn lock_fits(self) -> bool {
        let cleared = self.lines_to_clear();
        let fin = self.finesse_after();
        &&& self.spin() is Some ==> self.total_spins < u32::MAX
        &&& cleared == 1 ==> self.singles < u32::MAX
        &&& cleared == 2 ==> self.doubles < u32::MAX
        &&& cleared == 3 ==> self.triples < u32::MAX
        &&& cleared == 4 ==> self.quads < u32::MAX
        &&& cleared > 0 ==> self.combo < i32::MAX
        &&& cleared > 0 && self.is_special() ==> self.b2b < i32::MAX
        &&& combo_bonus_fits(self.chains().0 as int, self.level as int)
        &&& self.score + self.earned() <= u64::MAX
        &&& self.total_lines + cleared <= u32::MAX
        &&& fin.0 <= u32::MAX
        &&& fin.1 <= u32::MAX
        &&& fin.2 <= u32::MAX
    }

    /// The state after the falling piece locks, before the next one comes:
    /// the piece joins the stack, full rows clear, and the score, level,
    /// combo, back-to-back, spin and finesse statistics update.
    pub open spec fn settled(self) -> GameView {
        let cleared = self.lines_to_clear();
        let fin = self.finesse_after();
        let chains = self.chains();
        let total_lines = self.total_lines + cleared;
        GameView {
            grid: clear_full_rows(self.placed_grid()),
            active_piece: None,
            total_spins: bumped(self.total_spins, self.spin() is Some),
            singles: bumped(self.singles, cleared == 1),
            doubles: bumped(self.doubles, cleared == 2),
            triples: bumped(self.triples, cleared == 3),
            quads: bumped(self.quads, cleared == 4),
            combo: chains.0,
            max_combo: chains.1,
            b2b: chains.2,
            max_b2b: chains.3,
            score: (self.score + self.earned()) as u64,
            total_lines: total_lines as u32,
            level: level_for(total_lines),
            last_clear: cleared as u32,
            last_spin_piece: self.spin_piece(),
            last_spin_mini: self.spin_mini(),
            last_action_was_rotation: false,
            finesse_pieces_placed: fin.0 as u32,
            finesse_perfect_pieces: fin.1 as u32,
            finesse_faults: fin.2 as u32,
            finesse_input_count: 0,
            ..self
        }
    }
}

/// The first `n` rows that are not full, extended by one more row.
proof fn lemma_kept_rows_step(m: Seq<Seq<Option<Piece>>>, n: int)
    requires
        0 <= n < m.len(),
    ensures
        kept_rows(m.take(n + 1)) == if row_full(m[n]) {
            kept_rows(m.take(n))
        } else {
            kept_rows(m.take(n)).push(m[n])
        },
{
    assert(m.take(n + 1).drop_last() =~= m.take(n));
    assert(m.take(n + 1).last() == m[n]);
}

/// No kept row is full, and there are never more kept rows than rows.
proof fn lemma_kept_rows_props(m: Seq<Seq<Option<Piece>>>)
    ensures
        kept_rows(m).len() <= m.len(),
        forall|i: int| 0 <= i < kept_rows(m).len() ==> !row_full(#[trigger] kept_rows(m)[i]),
        forall|i: int|
            0 <= i < kept_rows(m).len() ==> exists|j: int|
                0 <= j < m.len() && #[trigger] kept_rows(m)[i] == m[j],
    decreases m.len(),
{
    if m.len() > 0 {
        lemma_kept_rows_props(m.drop_last());
        let k = kept_rows(m.drop_last());
        assert forall|i: int| 0 <= i < kept_rows(m).len() implies exists|j: int|
            0 <= j < m.len() && #[trigger] kept_rows(m)[i] == m[j] by {
            if i < k.len() {
                let j = choose|j: int| 0 <= j < m.drop_last().len() && k[i] == m.drop_last()[j];
                assert(m[j] == m.drop_last()[j]);
            } else {
                assert(kept_rows(m)[i] == m[m.len() - 1]);
            }
        }
    }
}

fn row_is_full(row: &Row) -> (b: bool)
    ensures
        b == row_full(row@),
{
    let mut c: usize = 0;
    while c < 10
        invariant
            0 <= c <= 10,
            forall|j: int| 0 <= j < c ==> (#[trigger] row@[j]) is Some,
        decreases 10 - c,
    {
        if row[c].is_none() {
            return false;
        }
        c += 1;
    }
    true
}

fn grid_is_empty(g: &Grid) -> (b: bool)
    ensures
        b == board_empty(model(*g)),
{
    reveal(board_empty);
    proof {
        lemma_model(*g);
    }
    let mut r: usize = 0;
    while r < 23
        invariant
            0 <= r <= 23,
            forall|rr: int, cc: int|
                0 <= rr < r && 0 <= cc < 10 ==> (#[trigger] model(*g)[rr][cc]) is None,
        decreases 23 - r,
    {
        let mut c: usize = 0;
        while c < 10
            invariant
                0 <= c <= 10,
                0 <= r < 23,
                forall|rr: int, cc: int|
                    0 <= rr < r && 0 <= cc < 10 ==> (#[trigger] model(*g)[rr][cc]) is None,
                forall|cc: int| 0 <= cc < c ==> (#[trigger] model(*g)[r as int][cc]) is None,
            decreases 10 - c,
        {
            proof {
                lemma_model(*g);
            }
            if g[r][c].is_some() {
                reveal(board_empty);
                return false;
            }
            c += 1;
        }
        r += 1;
    }
    true
}

/// Removes the full rows of `g`, letting the rows above sink; returns how many.
fn clear_lines(g: &mut Grid) -> (cleared: u32)
    ensures
        model(*final(g)) == clear_full_rows(model(*old(g))),
        cleared == full_row_count(model(*old(g))),
{
    let ghost m0 = model(*g);
    proof {
        lemma_model(*g);
    }
    reveal(clear_full_rows);
    reveal(full_row_count);
    let mut cleared: u32 = 0;
    let mut row: usize = 0;
    while row < 23
        invariant
            0 <= row <= 23,
            m0 == model(*old(g)),
            m0.len() == 23,
            forall|r: int| 0 <= r < 23 ==> #[trigger] m0[r] == old(g)[r]@,
            cleared <= row,
            forall|r: int| row <= r < 23 ==> (#[trigger] g[r]) == old(g)[r],
            kept_rows(m0.take(row as int)).len() + cleared == row,
            forall|r: int| 0 <= r < cleared ==> (#[trigger] g[r])@ == empty_row(),
            forall|r: int|
                cleared <= r < row ==> (#[trigger] g[r])@ == kept_rows(m0.take(row as int))[r
                    - cleared],
        decreases 23 - row,
    {
        proof {
            lemma_kept_rows_step(m0, row as int);
            assert(m0[row as int] == old(g)[row as int]@);
        }
        if row_is_full(&g[row]) {
            let ghost prev = *g;
            let mut r = row;
            while r > 0
                invariant
                    0 <= r <= row < 23,
                    forall|k: int| r < k <= row ==> (#[trigger] g[k]) == prev[k - 1],
                    forall|k: int| 0 <= k <= r ==> (#[trigger] g[k]) == prev[k],
                    forall|k: int| row < k < 23 ==> (#[trigger] g[k]) == prev[k],
                decreases r,
            {
                g[r] = g[r - 1];
                r -= 1;
            }
            g[0] = [None; 10];
            assert(g[0]@ =~= empty_row());
            cleared += 1;
        }
        row += 1;
    }
    proof {
        lemma_model(*g);
        assert(m0.take(23) =~= m0);
        let k = kept_rows(m0);
        assert(model(*g) =~= clear_full_rows(m0)) by {
            assert forall|r: int| 0 <= r < 23 implies #[trigger] model(*g)[r] == clear_full_rows(
                m0,
            )[r] by {
                if r < cleared {
                    assert(clear_full_rows(m0)[r] == empty_row());
                } else {
                    assert(clear_full_rows(m0)[r] == k[r - cleared]);
                }
            }
        }
    }
    cleared
}

/// The points of a clear scaled by the level, times 1.5 in a back-to-back
/// chain, floored at 0. `base * level` is a multiple of 100 and below 2^43,
/// so this integer form is exact.
fn scaled_points(base: u64, level: i32, b2b_bonus: bool) -> (e: u64)
    requires
        base <= 1600,
    ensures
        e == scaled_score(base as int, level as int, b2b_bonus),
{
    reveal(scaled_score);
    assert(-1600 * 2147483648 <= base * level <= 1600 * 2147483647) by (nonlinear_arith)
        requires
            base <= 1600,
            i32::MIN <= level <= i32::MAX,
    ;
    let prod: i64 = base as i64 * level as i64;
    if prod <= 0 {
        0
    } else if b2b_bonus {
        (prod * 3 / 2) as u64
    } else {
        prod as u64
    }
}

/// The base points of a clear. A mini T-spin scores as a T-spin, since the
/// mini table is only consulted for clears that are not T-spins.
fn base_points(is_tspin: bool, is_mini: bool, cleared: u32) -> (b: u64)
    requires
        is_mini ==> is_tspin,
    ensures
        b == base_score(is_tspin, cleared as int),
        b <= 1600,
{
    reveal(base_score);
    if is_tspin {
        match cleared {
            0 => 400,
            1 => 800,
            2 => 1200,
            3 => 1600,
            _ => 1600,
        }
    } else if is_mini {
        match cleared {
            0 => 100,
            1 => 200,
            2 => 400,
            _ => 400,
        }
    } else {
        match cleared {
            0 => 0,
            1 => 100,
            2 => 300,
            3 => 500,
            4 => 800,
            _ => 0,
        }
    }
}

fn bump_if(x: u32, cond: bool) -> (y: u32)
    requires
        cond ==> x < u32::MAX,
    ensures
        y == bumped(x, cond),
{
    if cond {
        x + 1
    } else {
        x
    }
}

fn next_chains(combo: i32, max_combo: i32, b2b: i32, max_b2b: i32, cleared: u32, special: bool) -> (r: (
    i32,
    i32,
    i32,
    i32,
))
    requires
        cleared > 0 ==> combo < i32::MAX,
        cleared > 0 && special ==> b2b < i32::MAX,
    ensures
        r == chains_after(combo, max_combo, b2b, max_b2b, cleared as int, special),
{
    let c = if cleared > 0 {
        combo + 1
    } else {
        0
    };
    let mc = if max_combo < c {
        c
    } else {
        max_combo
    };
    let b = if special && cleared > 0 {
        b2b + 1
    } else if cleared > 0 && !special {
        0
    } else {
        b2b
    };
    let mb = if max_b2b < b {
        b
    } else {
        max_b2b
    };
    (c, mc, b, mb)
}

proof fn lemma_scores_nonnegative(base: int, level: int, b2b_bonus: bool, combo: int)
    requires
        base >= 0,
    ensures
        scaled_score(base, level, b2b_bonus) >= 0,
        combo_bonus(combo, level) >= 0,
{
    reveal(scaled_score);
    reveal(combo_bonus);
    if base * level > 0 && b2b_bonus {
        assert(base * level * 3 / 2 >= 0) by (nonlinear_arith)
            requires
                base * level > 0,
        ;
    }
}

/// The points of a lock.
fn lock_points(base: u64, level: i32, b2b: i32, combo: i32, perfect: bool, drop: u32) -> (e: u64)
    requires
        base <= 1600,
        combo_bonus_fits(combo as int, level as int),
        lock_score(base as int, level, b2b, combo, perfect, drop) <= u64::MAX,
    ensures
        e == lock_score(base as int, level, b2b, combo, perfect, drop),
{
    reveal(lock_score);
    proof {
        lemma_scores_nonnegative(base as int, level as int, b2b > 1, combo as int);
    }
    let mut earned: u64 = scaled_points(base, level, b2b > 1);
    earned += combo_points_of(combo, level);
    if perfect {
        earned += 3500;
    }
    earned += drop as u64;
    earned
}

/// (pieces placed, perfect pieces, faults) after a piece locks.
fn finesse_counts(
    piece: Option<Piece>,
    soft_dropped: bool,
    col: i32,
    rotation: u8,
    inputs: u32,
    placed: u32,
    perfect: u32,
    faults: u32,
) -> (r: (u32, u32, u32))
    requires
        ({
            let f = finesse_update(piece, soft_dropped, col, rotation, inputs, placed, perfect, faults);
            f.0 <= u32::MAX && f.1 <= u32::MAX && f.2 <= u32::MAX
        }),
    ensures
        ({
            let f = finesse_update(piece, soft_dropped, col, rotation, inputs, placed, perfect, faults);
            r == (f.0 as u32, f.1 as u32, f.2 as u32)
        }),
{
    reveal(finesse_update);
    reveal(optimal_inputs);
    match piece {
        None => (placed, perfect, faults),
        Some(p) => {
            if soft_dropped {
                (placed + 1, perfect + 1, faults)
            } else {
                let optimal = if col >= 0 {
                    lookup_finesse(p, col as usize, rotation)
                } else {
                    None
                };
                match optimal {
                    Some(opt) => {
                        proof {
                            lemma_cost_at_most_three(p, col as int, rotation);
                        }
                        let opt32 = opt as u32;
                        if inputs == opt32 {
                            (placed + 1, perfect + 1, faults)
                        } else if inputs > opt32 {
                            (placed + 1, perfect, faults + (inputs - opt32))
                        } else {
                            (placed + 1, perfect, faults)
                        }
                    },
                    None => (placed + 1, perfect + 1, faults),
                }
            }
        },
    }
}

/// The level reached after `total` lines: one more for every ten lines.
#[verifier::opaque]
pub open spec fn level_for(total: int) -> i32 {
    (1 + total / 10) as i32
}

fn level_for_lines(total: u32) -> (level: i32)
    ensures
        level == level_for(total as int),
{
    reveal(level_for);
    1 + (total / 10) as i32
}

/// The combo bonus `combo * 50 * level` as a `u64`.
fn combo_points_of(combo: i32, level: i32) -> (e: u64)
    requires
        combo_bonus_fits(combo as int, level as int),
    ensures
        e == combo_bonus(combo as int, level as int),
{
    reveal(combo_bonus_fits);
    reveal(combo_bonus);
    (combo * 50 * level) as u64
}

impl GameState {
    /// Places the falling piece into the playfield.
    fn place_active(&mut self, piece: Piece)
        requires
            old(self)@.wf(),
            old(self)@.active_piece == Some(piece),
        ensures
            final(self)@ == (GameView {
                grid: place_piece(
                    old(self)@.grid,
                    old(self)@.active_cells,
                    old(self)@.active_pos,
                    piece,
                ),
                ..old(self)@
            }),
    {
        let ghost v = self@;
        let ghost g0 = self.grid;
        proof {
            self.lemma_grid_view();
        }
        let mut i: usize = 0;
        while i < 4
            invariant
                0 <= i <= 4,
                v.wf(),
                v.active_piece == Some(piece),
                self@ == (GameView { grid: self@.grid, ..v }),
                v.grid == model(g0),
                forall|rr: int, cc: int|
                    0 <= rr < 23 && 0 <= cc < 10 ==> #[trigger] self.grid[rr][cc] == if exists|j: int|
                        0 <= j < i && v.active_pos.0 + (#[trigger] v.active_cells[j]).0 == rr
                            && v.active_pos.1 + v.active_cells[j].1 == cc {
                        Some(piece)
                    } else {
                        g0[rr][cc]
                    },
            decreases 4 - i,
        {
            let (dr, dc) = self.active_cells[i];
            assert(v.active_cells[i as int] == (dr, dc));
            let r = self.active_pos.0 + dr;
            let c = self.active_pos.1 + dc;
            if 0 <= r && r < 23 && 0 <= c && c < 10 {
                let mut row = self.grid[r as usize];
                row[c as usize] = Some(piece);
                self.grid[r as usize] = row;
            }
            i += 1;
        }
        proof {
            lemma_model(self.grid);
            lemma_model(g0);
            assert forall|r: int| 0 <= r < 23 implies #[trigger] self@.grid[r] =~= place_piece(
                v.grid,
                v.active_cells,
                v.active_pos,
                piece,
            )[r] by {
                assert forall|c: int| 0 <= c < 10 implies #[trigger] self@.grid[r][c] == place_piece(
                    v.grid,
                    v.active_cells,
                    v.active_pos,
                    piece,
                )[r][c] by {
                    assert(self@.grid[r] == self.grid[r]@);
                    assert(v.grid[r] == g0[r]@);
                    if covers(v.active_cells, v.active_pos, r, c) {
                        let j = choose|j: int|
                            0 <= j < 4 && v.active_pos.0 + (#[trigger] v.active_cells[j]).0 == r
                                && v.active_pos.1 + v.active_cells[j].1 == c;
                    }
                }
            }
            assert(self@.grid =~= place_piece(v.grid, v.active_cells, v.active_pos, piece));
        }
    }
}


impl GameState {
    /// Places the falling piece and clears full rows; returns the number of
    /// rows cleared and whether the playfield is left empty.
    fn place_and_clear(&mut self) -> (res: (u32, bool))
        requires
            old(self)@.wf(),
        ensures
            final(self)@ == (GameView {
                grid: clear_full_rows(old(self)@.placed_grid()),
                active_piece: None,
                ..old(self)@
            }),
            res.0 == old(self)@.lines_to_clear(),
            res.1 == board_empty(clear_full_rows(old(self)@.placed_grid())),
            res.0 <= 23,
            shaped(final(self)@.grid),
    {
        let ghost v = self@;
        reveal(GameView::placed_grid);
        reveal(GameView::lines_to_clear);
        if let Some(piece) = self.active_piece {
            self.place_active(piece);
        }
        assert(self@.grid == v.placed_grid());
        self.active_piece = None;
        let cleared = clear_lines(&mut self.grid);
        proof {
            lemma_kept_rows_props(v.placed_grid());
            reveal(full_row_count);
        }
        let perfect_clear = grid_is_empty(&self.grid);
        proof {
            self.lemma_grid_view();
        }
        (cleared, perfect_clear)
    }

    /// The first half of a lock: detects the spin, places the piece, clears
    /// the full rows and counts them. Returns (lines cleared, perfect clear,
    /// spin piece, spin is a mini, is a T-spin, mini flag before the line
    /// count adjusts it).
    #[verifier::spinoff_prover]
    fn settle_board(&mut self) -> (r: (u32, bool, Option<Piece>, bool, bool, bool))
        requires
            old(self)@.wf(),
            old(self)@.spin() is Some ==> old(self).total_spins < u32::MAX,
            old(self)@.lines_to_clear() == 1 ==> old(self).singles < u32::MAX,
            old(self)@.lines_to_clear() == 2 ==> old(self).doubles < u32::MAX,
            old(self)@.lines_to_clear() == 3 ==> old(self).triples < u32::MAX,
            old(self)@.lines_to_clear() == 4 ==> old(self).quads < u32::MAX,
        ensures
            final(self)@ == (GameView {
                grid: clear_full_rows(old(self)@.placed_grid()),
                active_piece: None,
                total_spins: bumped(old(self)@.total_spins, old(self)@.spin() is Some),
                singles: bumped(old(self)@.singles, old(self)@.lines_to_clear() == 1),
                doubles: bumped(old(self)@.doubles, old(self)@.lines_to_clear() == 2),
                triples: bumped(old(self)@.triples, old(self)@.lines_to_clear() == 3),
                quads: bumped(old(self)@.quads, old(self)@.lines_to_clear() == 4),
                ..old(self)@
            }),
            shaped(final(self)@.grid),
            r.0 == old(self)@.lines_to_clear(),
            r.1 == old(self)@.perfect_clear(),
            r.2 == old(self)@.spin_piece(),
            r.3 == old(self)@.spin_mini(),
            r.4 == old(self)@.is_tspin(),
            r.5 ==> r.4,
            r.0 <= 23,
    {
        let spin = self.check_spin();
        let (spin_piece, mut spin_mini) = match spin {
            Some((p, mini)) => (Some(p), mini),
            None => (None, false),
        };
        let is_tspin = match spin_piece {
            Some(Piece::T) => true,
            _ => false,
        };
        let is_mini = spin_mini && is_tspin;
        let (cleared, perfect_clear) = self.place_and_clear();
        let total_spins = bump_if(self.total_spins, spin_piece.is_some());
        let singles = bump_if(self.singles, cleared == 1);
        let doubles = bump_if(self.doubles, cleared == 2);
        let triples = bump_if(self.triples, cleared == 3);
        let quads = bump_if(self.quads, cleared == 4);
        self.total_spins = total_spins;
        self.singles = singles;
        self.doubles = doubles;
        self.triples = triples;
        self.quads = quads;
        if spin_piece.is_some() && !is_tspin && cleared >= 3 {
            spin_mini = false;
        }
        (cleared, perfect_clear, spin_piece, spin_mini, is_tspin, is_mini)
    }

    /// The second half of a lock: the combo and back-to-back chains, the
    /// score, the level, the record of the lock and the finesse statistics.
    fn settle_score(
        &mut self,
        base: u64,
        cleared: u32,
        perfect_clear: bool,
        special: bool,
        spin_piece: Option<Piece>,
        spin_mini: bool,
        locked_piece: Option<Piece>,
        locked_rotation: u8,
    )
        requires
            base <= 1600,
            cleared > 0 ==> old(self).combo < i32::MAX,
            cleared > 0 && special ==> old(self).b2b < i32::MAX,
            ({
                let ch = chains_after(
                    old(self).combo,
                    old(self).max_combo,
                    old(self).b2b,
                    old(self).max_b2b,
                    cleared as int,
                    special,
                );
                &&& combo_bonus_fits(ch.0 as int, old(self).level as int)
                &&& old(self).score + lock_score(
                    base as int,
                    old(self).level,
                    ch.2,
                    ch.0,
                    perfect_clear,
                    old(self).drop_points,
                ) <= u64::MAX
            }),
            old(self).total_lines + cleared <= u32::MAX,
            ({
                let f = finesse_update(
                    locked_piece,
                    old(self).was_soft_dropped,
                    old(self).active_pos.1,
                    locked_rotation,
                    old(self).finesse_input_count,
                    old(self).finesse_pieces_placed,
                    old(self).finesse_perfect_pieces,
                    old(self).finesse_faults,
                );
                f.0 <= u32::MAX && f.1 <= u32::MAX && f.2 <= u32::MAX
            }),
        ensures
            ({
                let ch = chains_after(
                    old(self).combo,
                    old(self).max_combo,
                    old(self).b2b,
                    old(self).max_b2b,
                    cleared as int,
                    special,
                );
                let f = finesse_update(
                    locked_piece,
                    old(self).was_soft_dropped,
                    old(self).active_pos.1,
                    locked_rotation,
                    old(self).finesse_input_count,
                    old(self).finesse_pieces_placed,
                    old(self).finesse_perfect_pieces,
                    old(self).finesse_faults,
                );
                let total = old(self).total_lines + cleared;
                final(self)@ == (GameView {
                    combo: ch.0,
                    max_combo: ch.1,
                    b2b: ch.2,
                    max_b2b: ch.3,
                    score: (old(self).score + lock_score(
                        base as int,
                        old(self).level,
                        ch.2,
                        ch.0,
                        perfect_clear,
                        old(self).drop_points,
                    )) as u64,
                    total_lines: total as u32,
                    level: level_for(total),
                    last_clear: cleared,
                    last_spin_piece: spin_piece,
                    last_spin_mini: spin_mini,
                    last_action_was_rotation: false,
                    finesse_pieces_placed: f.0 as u32,
                    finesse_perfect_pieces: f.1 as u32,
                    finesse_faults: f.2 as u32,
                    finesse_input_count: 0,
                    ..old(self)@
                })
            }),
    {
        let (combo, max_combo, b2b, max_b2b) = next_chains(
            self.combo,
            self.max_combo,
            self.b2b,
            self.max_b2b,
            cleared,
            special,
        );
        self.combo = combo;
        self.max_combo = max_combo;
        self.b2b = b2b;
        self.max_b2b = max_b2b;
        let earned = lock_points(base, self.level, self.b2b, self.combo, perfect_clear, self.drop_points);
        self.score = self.score + earned;
        self.total_lines = self.total_lines + cleared;
        self.level = level_for_lines(self.total_lines);
        self.last_clear = cleared;
        self.last_spin_piece = spin_piece;
        self.last_spin_mini = spin_mini;
        self.last_action_was_rotation = false;
        let (placed, perfect, faults) = finesse_counts(
            locked_piece,
            self.was_soft_dropped,
            self.active_pos.1,
            locked_rotation,
            self.finesse_input_count,
            self.finesse_pieces_placed,
            self.finesse_perfect_pieces,
            self.finesse_faults,
        );
        self.finesse_pieces_placed = placed;
        self.finesse_perfect_pieces = perfect;
        self.finesse_faults = faults;
        self.finesse_input_count = 0;
    }

    /// Locks the falling piece into the playfield and scores the lock; no
    /// new piece comes yet.
    fn settle(&mut self)
        requires
            old(self)@.wf(),
            old(self)@.lock_fits(),
        ensures
            final(self)@ == old(self)@.settled(),
            final(self)@.wf(),
    {
        let ghost v = self@;
        let locked_piece = self.active_piece;
        let locked_rotation = self.rotation_state;
        let (cleared, perfect_clear, spin_piece, spin_mini, is_tspin, is_mini) = self.settle_board();
        let base = base_points(is_tspin, is_mini, cleared);
        let special = spin_piece.is_some() || cleared == 4;
        assert(special == v.is_special());
        self.settle_score(
            base,
            cleared,
            perfect_clear,
            special,
            spin_piece,
            spin_mini,
            locked_piece,
            locked_rotation,
        );
        assert(self@ == v.settled());
    }

    /// Appends a freshly shuffled bag of the seven piece identifiers to the queue.
    pub fn fill_bag(&mut self)
        ensures
            exists|fill: Seq<i32>|
                #![trigger is_seven_bag(fill)]
                is_seven_bag(fill) && final(self)@ == (GameView {
                    bag_queue: old(self)@.bag_queue + fill,
                    ..old(self)@
                }),
    {
        let mut bag: [i32; 7] = [1, 2, 3, 4, 5, 6, 7];
        assert(bag@ =~= seq![1i32, 2, 3, 4, 5, 6, 7]);
        shuffle_ids(&mut bag);
        let ghost v = self@;
        let mut i: usize = 0;
        while i < 7
            invariant
                0 <= i <= 7,
                self@ == (GameView { bag_queue: self@.bag_queue, ..v }),
                self@.bag_queue =~= v.bag_queue + bag@.take(i as int),
            decreases 7 - i,
        {
            self.bag_queue.push_back(bag[i]);
            assert(bag@.take(i + 1) =~= bag@.take(i as int).push(bag@[i as int]));
            i += 1;
        }
        assert(bag@.take(7) =~= bag@);
        assert(is_seven_bag(bag@));
    }

    /// Puts the piece with identifier `id` into play, if `id` names one.
    fn spawn_with_id(&mut self, id: i32)
        ensures
            final(self)@ == spawn_id(old(self)@, id),
    {
        self.active_piece = Piece::from_id(id);
        if let Some(piece) = self.active_piece {
            self.active_cells = piece.spawn_cells();
            self.active_pos = (0, 3);
            self.locking = false;
            self.rotation_state = 0;
            self.das_direction = None;
            self.timer_reset_pending = true;
            self.was_soft_dropped = false;
            self.hold_used = false;
            self.drop_points = 0;
        }
    }

    /// Takes the next identifier from the queue, topping it up first with a
    /// new bag when fewer than seven remain.
    #[verifier::rlimit(30)]
    fn next_id(&mut self) -> (id: i32)
        ensures
            exists|fill: Seq<i32>|
                #![trigger is_seven_bag(fill)]
                is_seven_bag(fill) && id == refilled(old(self)@.bag_queue, fill)[0] && final(self)@
                    == (GameView {
                    bag_queue: refilled(old(self)@.bag_queue, fill).drop_first(),
                    ..old(self)@
                }),
    {
        let ghost v = self@;
        let ghost mut fill: Seq<i32> = seq![1i32, 2, 3, 4, 5, 6, 7];
        assert(is_seven_bag(fill));
        if self.bag_queue.len() < 7 {
            self.fill_bag();
            proof {
                fill = choose|f: Seq<i32>|
                    #![trigger is_seven_bag(f)]
                    is_seven_bag(f) && self@ == (GameView { bag_queue: v.bag_queue + f, ..v });
            }
        }
        assert(self@.bag_queue == refilled(v.bag_queue, fill));
        proof {
            fill.to_multiset_ensures();
            seq![1i32, 2, 3, 4, 5, 6, 7].to_multiset_ensures();
            assert(fill.len() == 7);
        }
        let id = match self.bag_queue.pop_front() {
            Some(x) => x,
            None => {
                return 0;
            },
        };
        assert(self@.bag_queue =~= refilled(v.bag_queue, fill).drop_first());
        assert(is_seven_bag(fill));
        id
    }

    /// Takes the next piece from the queue, topping the queue up with a new
    /// bag first when fewer than seven ids remain, and puts it into play at
    /// column 3 in its spawn orientation.
    pub fn spawn_random_piece(&mut self)
        requires
            old(self)@.wf(),
        ensures
            exists|fill: Seq<i32>|
                #![trigger is_seven_bag(fill)]
                is_seven_bag(fill) && final(self)@ == spawn_next(old(self)@, fill),
            final(self)@.wf(),
    {
        let ghost v = self@;
        let id = self.next_id();
        let ghost fill = choose|fill: Seq<i32>|
            #![trigger is_seven_bag(fill)]
            is_seven_bag(fill) && id == refilled(v.bag_queue, fill)[0] && self@ == (GameView {
                bag_queue: refilled(v.bag_queue, fill).drop_first(),
                ..v
            });
        self.spawn_with_id(id);
        proof {
            lemma_spawn_shape_fits(id);
        }
        assert(self@ == spawn_next(v, fill));
    }

    /// Locks the falling piece, clears and scores, then brings in the next piece.
    pub fn lock_piece(&mut self)
        requires
            old(self)@.wf(),
            old(self)@.lock_fits(),
        ensures
            exists|fill: Seq<i32>|
                #![trigger is_seven_bag(fill)]
                is_seven_bag(fill) && final(self)@ == spawn_next(old(self)@.settled(), fill),
            final(self)@.wf(),
    {
        self.settle();
        self.spawn_random_piece();
    }
}


/// Every spawn shape lies in its piece's box and on the board at column 3.
proof fn lemma_spawn_shape_fits(id: i32)
    ensures
        piece_of_id(id as int) matches Some(p) ==> {
            &&& spawn_shape(p).len() == 4
            &&& in_box(spawn_shape(p), box_max(p))
            &&& on_board(spawn_shape(p), 0, 3)
        },
{
}

// ---------------------------------------------------------------------------
// Holding, dropping and gravity
// ---------------------------------------------------------------------------

/// The column `j` steps from `c` in direction `dc`.
pub open spec fn col_after(c: int, dc: int, j: int) -> int {
    if dc > 0 {
        c + j
    } else {
        c - j
    }
}

impl GameView {
    /// Holding is allowed once per piece, and only with a piece in play.
    pub open spec fn can_hold(self) -> bool {
        !self.hold_used && self.active_piece is Some
    }

    /// The falling piece put into an empty hold slot, before the next piece
    /// comes.
    pub open spec fn stashed(self) -> GameView {
        GameView {
            hold_used: true,
            hold_piece: self.active_piece,
            active_piece: None,
            was_soft_dropped: false,
            ..self
        }
    }

    /// The falling piece swapped with the held piece `held`, which comes in
    /// at the top in its spawn orientation.
    pub open spec fn swapped(self, held: Piece) -> GameView {
        GameView {
            hold_used: true,
            hold_piece: self.active_piece,
            active_piece: Some(held),
            active_cells: spawn_shape(held),
            active_pos: (0, 3),
            locking: false,
            rotation_state: 0,
            das_direction: None,
            timer_reset_pending: true,
            soft_dropping: false,
            was_soft_dropped: false,
            last_action_was_rotation: false,
            ..self
        }
    }

    /// The falling piece moved down as far as it goes, two points earned per
    /// row.
    pub open spec fn dropped(self) -> GameView {
        GameView {
            active_pos: ((self.active_pos.0 + self.drop_rows()) as i32, self.active_pos.1),
            drop_points: (self.drop_points + 2 * self.drop_rows()) as u32,
            ..self
        }
    }

    /// A hard drop overflows no counter.
    pub open spec fn hard_drop_fits(self) -> bool {
        self.drop_points + 2 * self.drop_rows() <= u32::MAX && self.dropped().lock_fits()
    }

    /// The falling piece soft-dropped to the floor, one point per row, with
    /// soft dropping over.
    pub open spec fn sunk(self) -> GameView {
        GameView {
            active_pos: ((self.active_pos.0 + self.drop_rows()) as i32, self.active_pos.1),
            last_action_was_rotation: if self.drop_rows() > 0 {
                false
            } else {
                self.last_action_was_rotation
            },
            drop_points: (self.drop_points + self.drop_rows()) as u32,
            soft_dropping: false,
            ..self
        }
    }

    /// Shifting in direction `dc` moves the piece `k` columns: it fits at
    /// each of the first `k` columns on the way, and not at the next.
    pub open spec fn shift_stops_at(self, dc: int, k: int) -> bool {
        let r = self.active_pos.0 as int;
        let c = self.active_pos.1 as int;
        &&& 0 <= k
        &&& forall|j: int|
            1 <= j <= k ==> #[trigger] fits(self.grid, self.active_cells, r, col_after(c, dc, j))
        &&& !fits(self.grid, self.active_cells, r, col_after(c, dc, k + 1))
    }
}

/// A piece that can fall comes to rest at a place where it fits.
proof fn lemma_fall_distance_fits(m: Seq<Seq<Option<Piece>>>, cells: Seq<(i32, i32)>, r: int, c: int)
    requires
        fall_distance(m, cells, r, c) > 0,
    ensures
        fits(m, cells, r + fall_distance(m, cells, r, c), c),
    decreases 23 - r,
{
    if fall_distance(m, cells, r + 1, c) > 0 {
        lemma_fall_distance_fits(m, cells, r + 1, c);
    }
}

/// A piece at row `r` falls at most to the bottom row.
proof fn lemma_fall_distance_bound(m: Seq<Seq<Option<Piece>>>, cells: Seq<(i32, i32)>, r: int, c: int)
    ensures
        r <= 23 ==> fall_distance(m, cells, r, c) <= 23 - r,
        r > 23 ==> fall_distance(m, cells, r, c) == 0,
    decreases 23 - r,
{
    if r < 23 {
        lemma_fall_distance_bound(m, cells, r + 1, c);
    }
}

/// A piece that fits lies on the board.
pub(crate) proof fn lemma_fits_on_board(m: Seq<Seq<Option<Piece>>>, cells: Seq<(i32, i32)>, r: int, c: int)
    requires
        fits(m, cells, r, c),
    ensures
        on_board(cells, r, c),
{
    assert forall|i: int| 0 <= i < 4 implies 0 <= r + (#[trigger] cells[i]).0 < 23 && 0 <= c
        + cells[i].1 < 10 by {
        assert(free_at(m, r + cells[i].0, c + cells[i].1));
    }
}

impl GameState {
    /// Holds the falling piece: into an empty slot, after which the next
    /// piece comes; or in exchange for the held piece, which comes in at the
    /// top. Only once per piece, and only with a piece in play.
    pub fn hold_piece(&mut self)
        requires
            old(self)@.wf(),
        ensures
            final(self)@.wf(),
            !old(self)@.can_hold() ==> final(self)@ == old(self)@,
            old(self)@.can_hold() ==> match old(self)@.hold_piece {
                None => exists|fill: Seq<i32>|
                    #![trigger is_seven_bag(fill)]
                    is_seven_bag(fill) && final(self)@ == spawn_next(old(self)@.stashed(), fill),
                Some(h) => final(self)@ == old(self)@.swapped(h),
            },
    {
        if self.hold_used || self.active_piece.is_none() {
            return;
        }
        let ghost v = self@;
        self.hold_used = true;
        let current = self.active_piece;
        self.active_piece = None;
        match self.hold_piece {
            None => {
                self.hold_piece = current;
                self.was_soft_dropped = false;
                assert(self@ == v.stashed());
                self.spawn_random_piece();
            },
            Some(held) => {
                self.hold_piece = current;
                self.active_piece = Some(held);
                self.active_cells = held.spawn_cells();
                self.active_pos = (0, 3);
                self.locking = false;
                self.rotation_state = 0;
                self.das_direction = None;
                self.timer_reset_pending = true;
                self.soft_dropping = false;
                self.was_soft_dropped = false;
                self.last_action_was_rotation = false;
                proof {
                    lemma_spawn_shape_fits(piece_id(held) as i32);
                }
                assert(self@ == v.swapped(held));
            },
        }
    }

    /// Drops the falling piece as far as it goes, two points per row, and
    /// locks it; the next piece comes.
    pub fn hard_drop(&mut self)
        requires
            old(self)@.wf(),
            old(self)@.active_piece is Some ==> old(self)@.hard_drop_fits(),
        ensures
            final(self)@.wf(),
            old(self)@.active_piece is None ==> final(self)@ == old(self)@,
            old(self)@.active_piece is Some ==> exists|fill: Seq<i32>|
                #![trigger is_seven_bag(fill)]
                is_seven_bag(fill) && final(self)@ == spawn_next(old(self)@.dropped().settled(), fill),
    {
        let ghost v = self@;
        let gp = match self.compute_ghost_pos() {
            Some(p) => p,
            None => return,
        };
        proof {
            lemma_fall_distance_bound(
                v.grid,
                v.active_cells,
                v.active_pos.0 as int,
                v.active_pos.1 as int,
            );
            assert(0 <= v.active_pos.0 + v.active_cells[0].0 < 23);
            assert(0 <= v.active_cells[0].0 <= 3);
        }
        let rows = gp.0 - self.active_pos.0;
        proof {
            if v.drop_rows() > 0 {
                lemma_fall_distance_fits(
                    v.grid,
                    v.active_cells,
                    v.active_pos.0 as int,
                    v.active_pos.1 as int,
                );
                lemma_fits_on_board(
                    v.grid,
                    v.active_cells,
                    v.active_pos.0 + v.drop_rows(),
                    v.active_pos.1 as int,
                );
            }
        }
        self.active_pos = gp;
        self.drop_points = self.drop_points + (rows as u32) * 2;
        assert(self@ == v.dropped());
        self.lock_piece();
    }

    /// One step of gravity: a piece already resting locks and the next
    /// comes; otherwise the piece falls a row, or, when it cannot, starts to
    /// rest.
    pub fn gravity_step(&mut self)
        requires
            old(self)@.wf(),
            old(self)@.locking ==> old(self)@.lock_fits(),
        ensures
            final(self)@.wf(),
            old(self)@.locking ==> exists|fill: Seq<i32>|
                #![trigger is_seven_bag(fill)]
                is_seven_bag(fill) && final(self)@ == spawn_next(old(self)@.settled(), fill),
            !old(self)@.locking && old(self)@.can_fall() ==> final(self)@ == old(self)@.fallen(),
            !old(self)@.locking && old(self)@.active_piece is Some && !old(self)@.can_fall()
                ==> final(self)@ == (GameView { locking: true, ..old(self)@ }),
            !old(self)@.locking && old(self)@.active_piece is None ==> final(self)@ == old(self)@,
    {
        if self.locking {
            self.lock_piece();
        } else if self.active_piece.is_some() {
            if !self.try_move_down() {
                self.locking = true;
            }
        }
    }

    /// Whether a new piece has come into play since the last call, when the
    /// caller's auto-shift and soft-drop timers restart; the flag is cleared.
    pub fn take_timer_reset(&mut self) -> (pending: bool)
        ensures
            pending == old(self).timer_reset_pending,
            final(self)@ == (GameView { timer_reset_pending: false, ..old(self)@ }),
    {
        let pending = self.timer_reset_pending;
        self.timer_reset_pending = false;
        pending
    }

    /// Whether soft drop applies this tick: soft dropping with a piece in
    /// play. When it does, the piece counts as soft-dropped.
    pub fn soft_drop_active(&mut self) -> (b: bool)
        ensures
            b == (old(self).soft_dropping && old(self).active_piece is Some),
            final(self)@ == if b {
                GameView { was_soft_dropped: true, ..old(self)@ }
            } else {
                old(self)@
            },
    {
        if self.soft_dropping && self.active_piece.is_some() {
            self.was_soft_dropped = true;
            true
        } else {
            false
        }
    }

    /// One row of soft drop: the piece falls a row for one point, or, when
    /// it cannot, soft dropping stops.
    pub fn soft_drop_step(&mut self) -> (moved: bool)
        requires
            old(self)@.wf(),
            old(self).drop_points < u32::MAX,
        ensures
            final(self)@.wf(),
            moved == old(self)@.can_fall(),
            final(self)@ == if moved {
                GameView { drop_points: (old(self).drop_points + 1) as u32, ..old(self)@.fallen() }
            } else {
                GameView { soft_dropping: false, ..old(self)@ }
            },
    {
        if self.try_move_down() {
            self.drop_points = self.drop_points + 1;
            true
        } else {
            self.soft_dropping = false;
            false
        }
    }

    /// Soft drop at infinite speed: the piece falls to the floor, one point
    /// per row, and soft dropping stops.
    pub fn soft_drop_to_floor(&mut self)
        requires
            old(self)@.wf(),
            old(self).active_piece is Some,
            old(self).drop_points + old(self)@.drop_rows() <= u32::MAX,
        ensures
            final(self)@.wf(),
            final(self)@ == old(self)@.sunk(),
    {
        let ghost v = self@;
        let ghost mut k: int = 0;
        loop
            invariant
                self@.wf(),
                0 <= k,
                v.drop_points + v.drop_rows() <= u32::MAX,
                v.active_piece is Some,
                v.wf(),
                self@ == (GameView {
                    active_pos: ((v.active_pos.0 + k) as i32, v.active_pos.1),
                    last_action_was_rotation: if k > 0 {
                        false
                    } else {
                        v.last_action_was_rotation
                    },
                    drop_points: (v.drop_points + k) as u32,
                    ..v
                }),
                v.drop_rows() == k + self@.drop_rows(),
            ensures
                self@.wf(),
                self@.drop_rows() == 0,
                self@ == (GameView {
                    active_pos: ((v.active_pos.0 + k) as i32, v.active_pos.1),
                    last_action_was_rotation: if k > 0 {
                        false
                    } else {
                        v.last_action_was_rotation
                    },
                    drop_points: (v.drop_points + k) as u32,
                    ..v
                }),
                v.drop_rows() == k,
            decreases 23 - self.active_pos.0,
        {
            let ghost before = self@;
            proof {
                if before.active_piece is Some {
                    assert(0 <= before.active_pos.0 + before.active_cells[0].0 < 23);
                    assert(0 <= before.active_cells[0].0);
                }
            }
            proof {
                lemma_fall_distance_bound(
                    v.grid,
                    v.active_cells,
                    v.active_pos.0 as int,
                    v.active_pos.1 as int,
                );
                assert(0 <= v.active_pos.0 + v.active_cells[0].0 < 23);
                assert(0 <= v.active_cells[0].0 <= 3);
                assert(before.active_pos.0 == v.active_pos.0 + k);
            }
            if !self.try_move_down() {
                assert(self@.drop_rows() == 0);
                break;
            }
            proof {
                assert(before.drop_rows() == 1 + self@.drop_rows());
                k = k + 1;
            }
            self.drop_points = self.drop_points + 1;
        }
        self.soft_dropping = false;
    }

    /// Shifts the falling piece in direction `dc` (1 right, -1 left) as far
    /// as it goes.
    pub fn shift_to_wall(&mut self, dc: i32)
        requires
            old(self)@.wf(),
            dc == 1 || dc == -1,
        ensures
            final(self)@.wf(),
            old(self)@.active_piece is None ==> final(self)@ == old(self)@,
            old(self)@.active_piece is Some ==> exists|k: int|
                old(self)@.shift_stops_at(dc as int, k) && final(self)@ == if k == 0 {
                    old(self)@
                } else {
                    old(self)@.shifted(col_after(0, dc as int, k))
                },
    {
        let ghost v = self@;
        if self.active_piece.is_none() {
            return;
        }
        let ghost mut k: int = 0;
        loop
            invariant
                self@.wf(),
                v.active_piece is Some,
                dc == 1 || dc == -1,
                0 <= k,
                forall|j: int|
                    1 <= j <= k ==> #[trigger] fits(
                        v.grid,
                        v.active_cells,
                        v.active_pos.0 as int,
                        col_after(v.active_pos.1 as int, dc as int, j),
                    ),
                self@ == if k == 0 {
                    v
                } else {
                    v.shifted(col_after(0, dc as int, k))
                },
            ensures
                self@.wf(),
                v.shift_stops_at(dc as int, k),
                self@ == if k == 0 {
                    v
                } else {
                    v.shifted(col_after(0, dc as int, k))
                },
            decreases if dc > 0 {
                20 - self.active_pos.1
            } else {
                self.active_pos.1 + 20
            },
        {
            assert(0 <= self.active_pos.1 + self@.active_cells[0].1 < 10);
            assert(0 <= self@.active_cells[0].1);
            let ghost before = self@;
            let ghost r = v.active_pos.0 as int;
            let ghost c = v.active_pos.1 as int;
            proof {
                if k > 0 {
                    assert(fits(v.grid, v.active_cells, r, col_after(c, dc as int, k)));
                    lemma_fits_on_board(v.grid, v.active_cells, r, col_after(c, dc as int, k));
                    assert(0 <= col_after(c, dc as int, k) + v.active_cells[0].1 < 10);
                }
                assert(before.active_pos.1 == col_after(c, dc as int, k));
                assert(before.active_pos.0 == r);
            }
            if !self.try_move(dc) {
                assert(!fits(v.grid, v.active_cells, r, col_after(c, dc as int, k + 1)));
                break;
            }
            proof {
                assert(fits(v.grid, v.active_cells, r, col_after(c, dc as int, k + 1)));
                k = k + 1;
                assert(self@ == v.shifted(col_after(0, dc as int, k)));
            }
        }
    }
}

// ---------------------------------------------------------------------------
// Laws of play
// ---------------------------------------------------------------------------

proof fn lemma_kept_rows_of_unfull(m: Seq<Seq<Option<Piece>>>)
    requires
        forall|r: int| 0 <= r < m.len() ==> !row_full(#[trigger] m[r]),
    ensures
        kept_rows(m) == m,
    decreases m.len(),
{
    if m.len() > 0 {
        let d = m.drop_last();
        assert forall|r: int| 0 <= r < d.len() implies !row_full(#[trigger] d[r]) by {
            assert(d[r] == m[r]);
        }
        lemma_kept_rows_of_unfull(d);
        assert(!row_full(m[m.len() - 1]));
        assert(d.push(m.last()) =~= m);
    }
}

/// After a lock no row of the playfield is full: every full row is cleared.
pub proof fn lemma_lock_leaves_no_full_row(v: GameView)
    requires
        v.wf(),
    ensures
        full_row_count(v.settled().grid) == 0,
        forall|r: int| 0 <= r < 23 ==> !row_full(#[trigger] v.settled().grid[r]),
{
    let m = v.placed_grid();
    let k = kept_rows(m);
    lemma_kept_rows_props(m);
    reveal(clear_full_rows);
    reveal(full_row_count);
    let g = clear_full_rows(m);
    reveal(GameView::placed_grid);
    assert(m.len() == 23);
    assert forall|r: int| 0 <= r < g.len() implies !row_full(#[trigger] g[r]) by {
        let e = (m.len() - k.len()) as int;
        if r < e {
            assert(g[r] == empty_row());
            assert(empty_row()[0] is None);
        } else {
            assert(g[r] == k[r - e]);
        }
    }
    lemma_kept_rows_of_unfull(g);
}

/// A lock never lowers the score.
pub proof fn lemma_lock_keeps_score(v: GameView)
    requires
        v.wf(),
        v.lock_fits(),
    ensures
        v.settled().score >= v.score,
{
    reveal(base_score);
    reveal(lock_score);
    let b = base_score(v.is_tspin(), v.lines_to_clear() as int);
    lemma_scores_nonnegative(b, v.level as int, v.chains().2 > 1, v.chains().0 as int);
    assert(v.earned() >= 0);
}

/// A lock takes the falling piece out of play; a lock that clears lines
/// extends the combo, one that clears none ends it; the longest chains
/// recorded never shrink.
pub proof fn lemma_lock_chains(v: GameView)
    requires
        v.lock_fits(),
    ensures
        v.lines_to_clear() == 0 ==> v.settled().combo == 0,
        v.lines_to_clear() > 0 ==> v.settled().combo == v.combo + 1,
        v.settled().max_combo >= v.max_combo,
        v.settled().max_b2b >= v.max_b2b,
        v.settled().active_piece is None,
{
}

proof fn lemma_fall_distance_rests(m: Seq<Seq<Option<Piece>>>, cells: Seq<(i32, i32)>, r: int, c: int)
    requires
        cells.len() == 4,
        forall|i: int| 0 <= i < 4 ==> 0 <= (#[trigger] cells[i]).0,
    ensures
        !fits(m, cells, r + fall_distance(m, cells, r, c) + 1, c),
    decreases 23 - r,
{
    if r < 23 && fits(m, cells, r + 1, c) {
        lemma_fall_distance_rests(m, cells, r + 1, c);
    } else if r >= 23 {
        assert(!free_at(m, r + 1 + cells[0].0, c + cells[0].1));
    }
}

/// A hard drop leaves the piece where it can fall no further, at the ghost
/// position.
pub proof fn lemma_drop_rests(v: GameView)
    requires
        v.wf(),
        v.active_piece is Some,
    ensures
        !v.dropped().can_fall(),
        v.ghost_pos() == Some(v.dropped().active_pos),
{
    lemma_fall_distance_bound(v.grid, v.active_cells, v.active_pos.0 as int, v.active_pos.1 as int);
    lemma_fall_distance_rests(v.grid, v.active_cells, v.active_pos.0 as int, v.active_pos.1 as int);
    assert(0 <= v.active_pos.0 + v.active_cells[0].0 < 23);
    assert(0 <= v.active_cells[0].0);
}

/// After a swap with the held piece, holding again does nothing until the
/// piece locks.
pub proof fn lemma_hold_once_per_piece(v: GameView, held: Piece)
    ensures
        !v.swapped(held).can_hold(),
{
}

// ---------------------------------------------------------------------------
// The seven-bag
// ---------------------------------------------------------------------------

/// The queue and the identifiers drawn after `n` spawns from queue `q`, spawn
/// number `i` topping the queue up with `fills[i]` when it runs short.
pub open spec fn draws(q: Seq<i32>, fills: Seq<Seq<i32>>, n: nat) -> (Seq<i32>, Seq<i32>)
    decreases n,
{
    if n == 0 {
        (q, Seq::<i32>::empty())
    } else {
        let prev = draws(q, fills, (n - 1) as nat);
        let b = refilled(prev.0, fills[n - 1]);
        (b.drop_first(), prev.1.push(b[0]))
    }
}

/// Bags one after another.
pub open spec fn concat_bags(bags: Seq<Seq<i32>>) -> Seq<i32>
    decreases bags.len(),
{
    if bags.len() == 0 {
        Seq::<i32>::empty()
    } else {
        concat_bags(bags.drop_last()) + bags.last()
    }
}

proof fn lemma_seven_bag_len(f: Seq<i32>)
    requires
        is_seven_bag(f),
    ensures
        f.len() == 7,
{
    f.to_multiset_ensures();
    seq![1i32, 2, 3, 4, 5, 6, 7].to_multiset_ensures();
}

proof fn lemma_concat_bags_len(bags: Seq<Seq<i32>>)
    requires
        forall|i: int| 0 <= i < bags.len() ==> (#[trigger] bags[i]).len() == 7,
    ensures
        concat_bags(bags).len() == 7 * bags.len(),
    decreases bags.len(),
{
    if bags.len() > 0 {
        let d = bags.drop_last();
        assert forall|i: int| 0 <= i < d.len() implies (#[trigger] d[i]).len() == 7 by {
            assert(d[i] == bags[i]);
        }
        lemma_concat_bags_len(d);
    }
}

proof fn lemma_concat_bags_block(bags: Seq<Seq<i32>>, j: int)
    requires
        forall|i: int| 0 <= i < bags.len() ==> (#[trigger] bags[i]).len() == 7,
        0 <= j < bags.len(),
    ensures
        concat_bags(bags).subrange(7 * j, 7 * j + 7) == bags[j],
    decreases bags.len(),
{
    let d = bags.drop_last();
    assert forall|i: int| 0 <= i < d.len() implies (#[trigger] d[i]).len() == 7 by {
        assert(d[i] == bags[i]);
    }
    lemma_concat_bags_len(d);
    if j < bags.len() - 1 {
        lemma_concat_bags_block(d, j);
        assert(d[j] == bags[j]);
        assert(concat_bags(bags).subrange(7 * j, 7 * j + 7) =~= concat_bags(d).subrange(
            7 * j,
            7 * j + 7,
        ));
    } else {
        assert(concat_bags(bags).subrange(7 * j, 7 * j + 7) =~= bags.last());
    }
}

proof fn lemma_draws_follow_bags(fills: Seq<Seq<i32>>, n: nat) -> (bags: Seq<Seq<i32>>)
    requires
        n <= fills.len(),
        forall|i: int| 0 <= i < fills.len() ==> is_seven_bag(#[trigger] fills[i]),
    ensures
        forall|i: int| 0 <= i < bags.len() ==> is_seven_bag(#[trigger] bags[i]),
        forall|i: int| 0 <= i < bags.len() ==> (#[trigger] bags[i]).len() == 7,
        concat_bags(bags).len() >= n,
        draws(Seq::<i32>::empty(), fills, n).1 == concat_bags(bags).take(n as int),
        draws(Seq::<i32>::empty(), fills, n).0 == concat_bags(bags).skip(n as int),
    decreases n,
{
    if n == 0 {
        let bags = Seq::<Seq<i32>>::empty();
        assert(concat_bags(bags).take(0) =~= Seq::<i32>::empty());
        assert(concat_bags(bags).skip(0) =~= Seq::<i32>::empty());
        bags
    } else {
        let prev_bags = lemma_draws_follow_bags(fills, (n - 1) as nat);
        let prev = draws(Seq::<i32>::empty(), fills, (n - 1) as nat);
        let f = fills[n - 1];
        lemma_seven_bag_len(f);
        lemma_concat_bags_len(prev_bags);
        if prev.0.len() < 7 {
            let bags = prev_bags.push(f);
            assert(bags.drop_last() =~= prev_bags);
            let c = concat_bags(bags);
            assert(c == concat_bags(prev_bags) + f);
            assert forall|i: int| 0 <= i < bags.len() implies is_seven_bag(#[trigger] bags[i]) by {
                if i < prev_bags.len() {
                    assert(bags[i] == prev_bags[i]);
                }
            }
            assert forall|i: int| 0 <= i < bags.len() implies (#[trigger] bags[i]).len() == 7 by {
                if i < prev_bags.len() {
                    assert(bags[i] == prev_bags[i]);
                } else {
                    lemma_seven_bag_len(bags[i]);
                }
            }
            let b = refilled(prev.0, f);
            assert(b =~= c.skip(n - 1));
            assert(draws(Seq::<i32>::empty(), fills, n).1 =~= c.take(n as int));
            assert(draws(Seq::<i32>::empty(), fills, n).0 =~= c.skip(n as int));
            bags
        } else {
            let c = concat_bags(prev_bags);
            let b = refilled(prev.0, f);
            assert(b == c.skip(n - 1));
            assert(draws(Seq::<i32>::empty(), fills, n).1 =~= c.take(n as int));
            assert(draws(Seq::<i32>::empty(), fills, n).0 =~= c.skip(n as int));
            prev_bags
        }
    }
}

/// From a new game's empty queue, the pieces come in groups of seven, each
/// group holding every piece once, whatever order each bag was shuffled in.
pub proof fn lemma_pieces_come_in_bags(fills: Seq<Seq<i32>>, n: nat, j: int)
    requires
        n <= fills.len(),
        forall|i: int| 0 <= i < fills.len() ==> is_seven_bag(#[trigger] fills[i]),
        0 <= j,
        7 * j + 7 <= n,
    ensures
        is_seven_bag(draws(Seq::<i32>::empty(), fills, n).1.subrange(7 * j, 7 * j + 7)),
{
    let bags = lemma_draws_follow_bags(fills, n);
    lemma_concat_bags_len(bags);
    assert(j < bags.len());
    lemma_concat_bags_block(bags, j);
    let ids = draws(Seq::<i32>::empty(), fills, n).1;
    assert(ids.subrange(7 * j, 7 * j + 7) =~= concat_bags(bags).subrange(7 * j, 7 * j + 7));
    assert(is_seven_bag(bags[j]));
}

// ---------------------------------------------------------------------------
// Counting filled cells
// ---------------------------------------------------------------------------

/// The number of filled cells of a row.
pub open spec fn row_count(row: Seq<Option<Piece>>) -> nat
    decreases row.len(),
{
    if row.len() == 0 {
        0
    } else {
        row_count(row.drop_last()) + if row.last() is Some {
            1nat
        } else {
            0nat
        }
    }
}

/// The number of filled cells of a playfield.
pub open spec fn filled_count(m: Seq<Seq<Option<Piece>>>) -> nat
    decreases m.len(),
{
    if m.len() == 0 {
        0
    } else {
        filled_count(m.drop_last()) + row_count(m.last())
    }
}

/// The four cells, placed at `pos`, are four different cells.
pub open spec fn distinct_cells(cells: Seq<(i32, i32)>) -> bool {
    forall|i: int, j: int|
        0 <= i < j < 4 ==> #[trigger] cells[i] != #[trigger] cells[j]
}

proof fn lemma_row_count_set(row: Seq<Option<Piece>>, c: int, p: Piece)
    requires
        0 <= c < row.len(),
        row[c] is None,
    ensures
        row_count(row.update(c, Some(p))) == row_count(row) + 1,
    decreases row.len(),
{
    let u = row.update(c, Some(p));
    if c == row.len() - 1 {
        assert(u.drop_last() =~= row.drop_last());
    } else {
        assert(u.drop_last() =~= row.drop_last().update(c, Some(p)));
        lemma_row_count_set(row.drop_last(), c, p);
    }
}

proof fn lemma_row_count_bounds(row: Seq<Option<Piece>>)
    ensures
        row_count(row) <= row.len(),
        row_count(row) == row.len() ==> forall|c: int| 0 <= c < row.len() ==> (#[trigger] row[c]) is Some,
        (forall|c: int| 0 <= c < row.len() ==> (#[trigger] row[c]) is Some) ==> row_count(row)
            == row.len(),
        (forall|c: int| 0 <= c < row.len() ==> (#[trigger] row[c]) is None) ==> row_count(row)
            == 0,
    decreases row.len(),
{
    if row.len() > 0 {
        let d = row.drop_last();
        lemma_row_count_bounds(d);
        assert forall|c: int| 0 <= c < d.len() implies d[c] == row[c] by {}
    }
}

proof fn lemma_row_count_grows(a: Seq<Option<Piece>>, b: Seq<Option<Piece>>)
    requires
        a.len() == b.len(),
        forall|c: int| 0 <= c < a.len() ==> (#[trigger] a[c]) is Some ==> b[c] is Some,
    ensures
        row_count(a) <= row_count(b),
    decreases a.len(),
{
    if a.len() > 0 {
        let da = a.drop_last();
        let db = b.drop_last();
        assert forall|c: int| 0 <= c < da.len() && (#[trigger] da[c]) is Some implies db[c] is Some by {
            assert(da[c] == a[c]);
            assert(db[c] == b[c]);
        }
        lemma_row_count_grows(da, db);
        assert(a.last() == a[a.len() - 1]);
    }
}

proof fn lemma_filled_update(m: Seq<Seq<Option<Piece>>>, r: int, row: Seq<Option<Piece>>)
    requires
        0 <= r < m.len(),
    ensures
        filled_count(m.update(r, row)) + row_count(m[r]) == filled_count(m) + row_count(row),
    decreases m.len(),
{
    let u = m.update(r, row);
    if r == m.len() - 1 {
        assert(u.drop_last() =~= m.drop_last());
    } else {
        assert(u.drop_last() =~= m.drop_last().update(r, row));
        lemma_filled_update(m.drop_last(), r, row);
    }
}

proof fn lemma_filled_concat(a: Seq<Seq<Option<Piece>>>, b: Seq<Seq<Option<Piece>>>)
    ensures
        filled_count(a + b) == filled_count(a) + filled_count(b),
    decreases b.len(),
{
    if b.len() == 0 {
        assert(a + b =~= a);
    } else {
        assert((a + b).drop_last() =~= a + b.drop_last());
        lemma_filled_concat(a, b.drop_last());
    }
}

proof fn lemma_filled_empty_rows(n: nat)
    ensures
        filled_count(Seq::new(n, |r: int| empty_row())) == 0,
    decreases n,
{
    if n > 0 {
        let m = Seq::new(n, |r: int| empty_row());
        assert(m.drop_last() =~= Seq::new((n - 1) as nat, |r: int| empty_row()));
        lemma_filled_empty_rows((n - 1) as nat);
        lemma_row_count_bounds(empty_row());
    }
}

/// Clearing keeps the cells of the rows that are not full: ten cells leave
/// with each full row.
proof fn lemma_filled_kept(m: Seq<Seq<Option<Piece>>>)
    requires
        forall|r: int| 0 <= r < m.len() ==> (#[trigger] m[r]).len() == 10,
    ensures
        filled_count(kept_rows(m)) + 10 * (m.len() - kept_rows(m).len()) == filled_count(m),
        kept_rows(m).len() <= m.len(),
    decreases m.len(),
{
    if m.len() > 0 {
        let d = m.drop_last();
        assert forall|r: int| 0 <= r < d.len() implies (#[trigger] d[r]).len() == 10 by {
            assert(d[r] == m[r]);
        }
        lemma_filled_kept(d);
        let last = m.last();
        assert(last == m[m.len() - 1]);
        lemma_row_count_bounds(last);
        if !row_full(last) {
            let k = kept_rows(d);
            assert(k.push(last).drop_last() =~= k);
        }
    }
}

/// The number of full rows after adding cells to rows none of which was
/// full is at most the number of cells added.
proof fn lemma_new_full_rows(m: Seq<Seq<Option<Piece>>>, m2: Seq<Seq<Option<Piece>>>)
    requires
        m.len() == m2.len(),
        forall|r: int| 0 <= r < m.len() ==> (#[trigger] m[r]).len() == 10 && m2[r].len() == 10,
        forall|r: int| 0 <= r < m.len() ==> !row_full(#[trigger] m[r]),
        forall|r: int, c: int|
            0 <= r < m.len() && 0 <= c < 10 ==> (#[trigger] m[r][c]) is Some ==> m2[r][c] is Some,
    ensures
        m2.len() - kept_rows(m2).len() + filled_count(m) <= filled_count(m2),
    decreases m.len(),
{
    if m.len() > 0 {
        let d = m.drop_last();
        let d2 = m2.drop_last();
        assert forall|r: int| 0 <= r < d.len() implies (#[trigger] d[r]).len() == 10 && d2[r].len()
            == 10 && !row_full(d[r]) by {
            assert(d[r] == m[r]);
            assert(d2[r] == m2[r]);
        }
        assert forall|r: int, c: int|
            0 <= r < d.len() && 0 <= c < 10 && (#[trigger] d[r][c]) is Some implies d2[r][c] is Some by {
            assert(d[r] == m[r]);
            assert(d2[r] == m2[r]);
        }
        assert forall|r: int| 0 <= r < d2.len() implies (#[trigger] d2[r]).len() == 10 by {
            assert(d2[r] == m2[r]);
            assert(m[r].len() == 10);
        }
        lemma_new_full_rows(d, d2);
        lemma_filled_kept(d2);
        let a = m.last();
        let b = m2.last();
        assert(a == m[m.len() - 1]);
        assert(b == m2[m.len() - 1]);
        assert forall|c: int| 0 <= c < a.len() && (#[trigger] a[c]) is Some implies b[c] is Some by {
            assert(a[c] == m[m.len() - 1][c]);
        }
        lemma_row_count_grows(a, b);
        lemma_row_count_bounds(a);
        lemma_row_count_bounds(b);
        assert(!row_full(a));
        if row_full(b) {
            assert(row_count(b) == 10);
            assert(row_count(a) != 10);
        } else {
            let k = kept_rows(d2);
            assert(k.push(b).drop_last() =~= k);
        }
    }
}

/// The cell of a piece at `pos` given by its `i`-th offset.
pub open spec fn cell_at(cells: Seq<(i32, i32)>, pos: (i32, i32), i: int) -> (int, int) {
    (pos.0 + cells[i].0, pos.1 + cells[i].1)
}

/// The playfield with the first `k` cells of the piece filled in.
pub open spec fn place_first(
    m: Seq<Seq<Option<Piece>>>,
    cells: Seq<(i32, i32)>,
    pos: (i32, i32),
    p: Piece,
    k: nat,
) -> Seq<Seq<Option<Piece>>>
    decreases k,
{
    if k == 0 {
        m
    } else {
        let g = place_first(m, cells, pos, p, (k - 1) as nat);
        let rc = cell_at(cells, pos, k - 1);
        g.update(rc.0, g[rc.0].update(rc.1, Some(p)))
    }
}

proof fn lemma_place_first(
    m: Seq<Seq<Option<Piece>>>,
    cells: Seq<(i32, i32)>,
    pos: (i32, i32),
    p: Piece,
    k: nat,
)
    requires
        shaped(m),
        cells.len() == 4,
        k <= 4,
        fits(m, cells, pos.0 as int, pos.1 as int),
        distinct_cells(cells),
    ensures
        shaped(place_first(m, cells, pos, p, k)),
        filled_count(place_first(m, cells, pos, p, k)) == filled_count(m) + k,
        forall|r: int, c: int|
            0 <= r < 23 && 0 <= c < 10 ==> #[trigger] place_first(m, cells, pos, p, k)[r][c]
                == if exists|i: int| 0 <= i < k && cell_at(cells, pos, i) == (r, c) {
                Some(p)
            } else {
                m[r][c]
            },
    decreases k,
{
    if k > 0 {
        let k1 = (k - 1) as nat;
        lemma_place_first(m, cells, pos, p, k1);
        let g = place_first(m, cells, pos, p, k1);
        let rc = cell_at(cells, pos, k - 1);
        let r = rc.0;
        let c = rc.1;
        assert(free_at(m, pos.0 + cells[k - 1].0, pos.1 + cells[k - 1].1));
        assert(!exists|i: int| 0 <= i < k1 && cell_at(cells, pos, i) == (r, c)) by {
            if exists|i: int| 0 <= i < k1 && cell_at(cells, pos, i) == (r, c) {
                let i = choose|i: int| 0 <= i < k1 && cell_at(cells, pos, i) == (r, c);
                assert(cells[i] != cells[k - 1]);
            }
        }
        assert(g[r][c] is None);
        let row = g[r].update(c, Some(p));
        lemma_row_count_set(g[r], c, p);
        lemma_filled_update(g, r, row);
        let g2 = g.update(r, row);
        assert(g2 == place_first(m, cells, pos, p, k));
        assert forall|rr: int, cc: int|
            0 <= rr < 23 && 0 <= cc < 10 implies #[trigger] g2[rr][cc] == if exists|i: int|
                0 <= i < k && cell_at(cells, pos, i) == (rr, cc) {
                Some(p)
            } else {
                m[rr][cc]
            } by {
            if rr == r && cc == c {
                assert(cell_at(cells, pos, k - 1) == (rr, cc));
            } else {
                assert(g2[rr][cc] == g[rr][cc]);
                if exists|i: int| 0 <= i < k && cell_at(cells, pos, i) == (rr, cc) {
                    let i = choose|i: int| 0 <= i < k && cell_at(cells, pos, i) == (rr, cc);
                    assert(i < k1);
                }
            }
        }
    }
}

/// Placing four different free cells fills four more cells.
proof fn lemma_place_adds_four(
    m: Seq<Seq<Option<Piece>>>,
    cells: Seq<(i32, i32)>,
    pos: (i32, i32),
    p: Piece,
)
    requires
        shaped(m),
        cells.len() == 4,
        fits(m, cells, pos.0 as int, pos.1 as int),
        distinct_cells(cells),
    ensures
        filled_count(place_piece(m, cells, pos, p)) == filled_count(m) + 4,
{
    lemma_place_first(m, cells, pos, p, 4);
    let g = place_first(m, cells, pos, p, 4);
    let pp = place_piece(m, cells, pos, p);
    assert forall|r: int| 0 <= r < 23 implies #[trigger] pp[r] =~= g[r] by {
        assert forall|c: int| 0 <= c < 10 implies pp[r][c] == g[r][c] by {
            if covers(cells, pos, r, c) {
                let i = choose|i: int|
                    0 <= i < 4 && pos.0 + (#[trigger] cells[i]).0 == r && pos.1 + cells[i].1 == c;
                assert(cell_at(cells, pos, i) == (r, c));
            } else {
                if exists|i: int| 0 <= i < 4 && cell_at(cells, pos, i) == (r, c) {
                    let i = choose|i: int| 0 <= i < 4 && cell_at(cells, pos, i) == (r, c);
                    assert(pos.0 + cells[i].0 == r && pos.1 + cells[i].1 == c);
                }
            }
        }
    }
    assert(pp =~= g);
}

/// A lock of a piece that lies on four different free cells fills four cells,
/// and ten cells leave with each line it clears; when no row was full
/// before, it clears at most four lines.
pub proof fn lemma_lock_counts_cells(v: GameView)
    requires
        v.wf(),
        v.active_piece is Some,
        fits(v.grid, v.active_cells, v.active_pos.0 as int, v.active_pos.1 as int),
        distinct_cells(v.active_cells),
    ensures
        filled_count(v.settled().grid) + 10 * v.lines_to_clear() == filled_count(v.grid) + 4,
        v.settled().last_clear == v.lines_to_clear(),
        (forall|r: int| 0 <= r < 23 ==> !row_full(#[trigger] v.grid[r])) ==> v.lines_to_clear() <= 4,
{
    reveal(GameView::placed_grid);
    reveal(GameView::lines_to_clear);
    reveal(full_row_count);
    reveal(clear_full_rows);
    let p = v.active_piece->Some_0;
    let m = v.grid;
    let pm = place_piece(m, v.active_cells, v.active_pos, p);
    lemma_place_adds_four(m, v.active_cells, v.active_pos, p);
    assert(v.placed_grid() == pm);
    assert forall|r: int| 0 <= r < pm.len() implies (#[trigger] pm[r]).len() == 10 by {}
    lemma_filled_kept(pm);
    let k = kept_rows(pm);
    lemma_filled_empty_rows((pm.len() - k.len()) as nat);
    lemma_filled_concat(Seq::new((pm.len() - k.len()) as nat, |r: int| empty_row()), k);
    assert(v.settled().grid == clear_full_rows(pm));
    if forall|r: int| 0 <= r < 23 ==> !row_full(#[trigger] v.grid[r]) {
        assert forall|r: int, c: int|
            0 <= r < m.len() && 0 <= c < 10 && (#[trigger] m[r][c]) is Some implies pm[r][c] is Some by {}
        assert forall|r: int| 0 <= r < m.len() implies (#[trigger] m[r]).len() == 10 && pm[r].len()
            == 10 by {}
        lemma_new_full_rows(m, pm);
    }
}

/// A hard drop moves the piece to its ghost position, earning two points
/// for each row it falls, and then locks it.
pub proof fn lemma_hard_drop_is_ghost_then_lock(v: GameView)
    requires
        v.wf(),
        v.active_piece is Some,
    ensures
        v.ghost_pos() is Some,
        v.dropped() == (GameView {
            active_pos: v.ghost_pos()->Some_0,
            drop_points: (v.drop_points + 2 * (v.ghost_pos()->Some_0.0 - v.active_pos.0)) as u32,
            ..v
        }),
{
    lemma_fall_distance_bound(v.grid, v.active_cells, v.active_pos.0 as int, v.active_pos.1 as int);
    assert(0 <= v.active_pos.0 + v.active_cells[0].0 < 23);
    assert(0 <= v.active_cells[0].0);
}

// ---------------------------------------------------------------------------
// Counters far from their limits
// ---------------------------------------------------------------------------

/// Every counter is far below the point where a lock or a drop could
/// overflow it.
pub open spec fn far_from_limits(v: GameView) -> bool {
    &&& v.score <= 0x4000_0000_0000_0000u64
    &&& v.total_lines <= 0x4000_0000u32
    &&& v.drop_points <= 0x4000_0000u32
    &&& 0 <= v.combo <= 1000
    &&& 0 <= v.b2b <= 0x4000_0000i32
    &&& 0 <= v.level <= 10000
    &&& v.total_spins <= 0x4000_0000u32
    &&& v.singles <= 0x4000_0000u32
    &&& v.doubles <= 0x4000_0000u32
    &&& v.triples <= 0x4000_0000u32
    &&& v.quads <= 0x4000_0000u32
    &&& v.finesse_input_count < 0x4000_0000u32
    &&& v.finesse_pieces_placed <= 0x4000_0000u32
    &&& v.finesse_perfect_pieces <= 0x4000_0000u32
    &&& v.finesse_faults <= 0x4000_0000u32
    &&& v.total_keys_pressed < 0x4000_0000u32
}

proof fn lemma_far_lock_fits(v: GameView)
    requires
        v.wf(),
        far_from_limits(v) || (far_from_limits(
            GameView { drop_points: 0, total_keys_pressed: 0, ..v },
        ) && v.drop_points <= 0x8000_0000u32),
    ensures
        v.lock_fits(),
{
    reveal(GameView::lines_to_clear);
    reveal(full_row_count);
    reveal(GameView::placed_grid);
    reveal(lock_score);
    reveal(scaled_score);
    reveal(combo_bonus);
    reveal(combo_bonus_fits);
    reveal(base_score);
    reveal(finesse_update);
    reveal(optimal_inputs);
    lemma_kept_rows_props(v.placed_grid());
    assert(v.placed_grid().len() == 23);
    let cleared = v.lines_to_clear();
    assert(cleared <= 23);
    let ch = v.chains();
    assert(0 <= ch.0 <= 1001);
    let lv = v.level as int;
    assert(0 <= ch.0 * 50 <= 50050) by (nonlinear_arith)
        requires
            0 <= ch.0 <= 1001,
    ;
    assert(0 <= ch.0 * 50 * lv <= 500500000) by (nonlinear_arith)
        requires
            0 <= ch.0 <= 1001,
            0 <= lv <= 10000,
    ;
    let b = base_score(v.is_tspin(), cleared as int);
    assert(0 <= b <= 1600);
    assert(0 <= b * lv <= 16000000) by (nonlinear_arith)
        requires
            0 <= b <= 1600,
            0 <= lv <= 10000,
    ;
    assert(scaled_score(b, lv, ch.2 > 1) <= 24000000);
    assert(v.earned() <= 24000000 + 500500000 + 3500 + 0x8000_0000);
    if let Some(p) = v.active_piece {
        lemma_cost_at_most_three(p, v.active_pos.1 as int, v.rotation_state);
    }
}

impl GameState {
    /// Whether every counter is far below the point where a lock, a drop or
    /// a key press could overflow it; when it is, locking, dropping and
    /// every key command stay within the counters' range.
    pub fn far_from_limits(&self) -> (b: bool)
        requires
            self@.wf(),
        ensures
            b == far_from_limits(self@),
            b ==> self@.lock_fits(),
            b ==> (self@.active_piece is Some ==> self@.hard_drop_fits()),
            b ==> (GameView { total_keys_pressed: (self.total_keys_pressed + 1) as u32, ..self@ }).active_piece is Some ==> (GameView {
                total_keys_pressed: (self.total_keys_pressed + 1) as u32,
                ..self@
            }).hard_drop_fits(),
            b ==> self.drop_points + self@.drop_rows() <= u32::MAX,
    {
        let b = self.score <= 0x4000_0000_0000_0000u64 && self.total_lines <= 0x4000_0000u32
            && self.drop_points <= 0x4000_0000u32 && 0 <= self.combo && self.combo <= 1000 && 0
            <= self.b2b && self.b2b <= 0x4000_0000i32 && 0 <= self.level && self.level <= 10000
            && self.total_spins <= 0x4000_0000u32 && self.singles <= 0x4000_0000u32 && self.doubles
            <= 0x4000_0000u32 && self.triples <= 0x4000_0000u32 && self.quads <= 0x4000_0000u32
            && self.finesse_input_count < 0x4000_0000u32 && self.finesse_pieces_placed
            <= 0x4000_0000u32 && self.finesse_perfect_pieces <= 0x4000_0000u32
            && self.finesse_faults <= 0x4000_0000u32 && self.total_keys_pressed < 0x4000_0000u32;
        proof {
            if b {
                let v = self@;
                lemma_far_lock_fits(v);
                lemma_fall_distance_bound(
                    v.grid,
                    v.active_cells,
                    v.active_pos.0 as int,
                    v.active_pos.1 as int,
                );
                if v.active_piece is Some {
                    assert(0 <= v.active_pos.0 + v.active_cells[0].0 < 23);
                    assert(0 <= v.active_cells[0].0);
                    assert(v.drop_rows() <= 26);
                    let d = v.dropped();
                    if v.drop_rows() > 0 {
                        lemma_fall_distance_fits(
                            v.grid,
                            v.active_cells,
                            v.active_pos.0 as int,
                            v.active_pos.1 as int,
                        );
                        lemma_fits_on_board(
                            v.grid,
                            v.active_cells,
                            v.active_pos.0 + v.drop_rows(),
                            v.active_pos.1 as int,
                        );
                    }
                    assert(d.wf());
                    assert(far_from_limits(GameView { drop_points: 0, total_keys_pressed: 0, ..d }));
                    lemma_far_lock_fits(d);
                    let w = GameView { total_keys_pressed: (self.total_keys_pressed + 1) as u32, ..v };
                    let dw = w.dropped();
                    assert(dw.wf());
                    assert(far_from_limits(GameView { drop_points: 0, total_keys_pressed: 0, ..dw }));
                    lemma_far_lock_fits(dw);
                }
            }
        }
        b
    }
}

// ---------------------------------------------------------------------------
// Laws of scoring, spins and fresh pieces
// ---------------------------------------------------------------------------

/// The points a lock earns, for every state it can lock from: a clear of
/// 1, 2, 3 or 4 lines without a T-spin is worth 100, 300, 500 or 800 times
/// the level; a T-spin (mini or not) is worth 400, 800, 1200 or 1600 times
/// the level for 0, 1, 2 or 3 or more lines; a back-to-back chain longer
/// than one after the lock makes that half as much again. On top come 50
/// times the combo after the lock times the level, 3500 for a perfect clear,
/// and the drop points; the score rises by all of it.
pub proof fn lemma_lock_points(v: GameView)
    requires
        v.wf(),
        v.lock_fits(),
        v.level >= 1,
        v.combo >= 0,
    ensures
        ({
            let n = v.lines_to_clear();
            let lv = v.level as int;
            let raw: int = if v.is_tspin() {
                if n == 0 {
                    400
                } else if n == 1 {
                    800
                } else if n == 2 {
                    1200
                } else {
                    1600
                }
            } else {
                if n == 1 {
                    100
                } else if n == 2 {
                    300
                } else if n == 3 {
                    500
                } else if n == 4 {
                    800
                } else {
                    0
                }
            };
            let clear_points = if v.chains().2 > 1 {
                raw * lv * 3 / 2
            } else {
                raw * lv
            };
            let total = clear_points + v.chains().0 * 50 * lv + (if v.perfect_clear() {
                3500int
            } else {
                0
            }) + v.drop_points;
            &&& v.earned() == total
            &&& v.settled().score == v.score + total
        }),
{
    reveal(lock_score);
    reveal(scaled_score);
    reveal(base_score);
    reveal(combo_bonus);
    reveal(combo_bonus_fits);
    let n = v.lines_to_clear();
    let lv = v.level as int;
    let b = base_score(v.is_tspin(), n as int);
    assert(b >= 0);
    assert(b * lv >= 0) by (nonlinear_arith)
        requires
            b >= 0,
            lv >= 1,
    ;
    let c = v.chains().0 as int;
    assert(c >= 0);
    assert(c * 50 * lv >= 0) by (nonlinear_arith)
        requires
            c >= 0,
            lv >= 1,
    ;
    lemma_lock_keeps_score(v);
}

/// The T-spin test in terms of the four corners around the T's 3x3 box at
/// (r, c): a T that last moved by turning, with at least three of the corners
/// (r, c), (r, c + 2), (r + 2, c), (r + 2, c + 2) off the board or filled, is
/// a T-spin. It is a full T-spin when both corners of one pair are blocked:
/// on the right, (r, c + 2) and (r + 2, c + 2), when the T points right (state
/// 1); on the left, (r, c) and (r + 2, c), when it points left (state 3); the
/// lower pair in state 0 and the upper pair in state 2. Otherwise it is a
/// mini. Any other piece or move is no T-spin.
pub proof fn lemma_tspin_corners(v: GameView)
    requires
        v.rotation_state < 4,
    ensures
        ({
            let r = v.active_pos.0 as int;
            let c = v.active_pos.1 as int;
            let tl = blocked_at(v.grid, r, c);
            let tr = blocked_at(v.grid, r, c + 2);
            let bl = blocked_at(v.grid, r + 2, c);
            let br = blocked_at(v.grid, r + 2, c + 2);
            let count = (if tl { 1int } else { 0 }) + (if tr { 1int } else { 0 }) + (if bl {
                1int
            } else {
                0
            }) + (if br { 1int } else { 0 });
            let full = if v.rotation_state == 1 {
                tr && br
            } else if v.rotation_state == 3 {
                tl && bl
            } else if v.rotation_state == 0 {
                bl && br
            } else {
                tl && tr
            };
            v.tspin() == if v.active_piece == Some(Piece::T) && v.last_action_was_rotation
                && count >= 3 {
                (true, !full)
            } else {
                (false, false)
            }
        }),
{
    reveal(GameView::tspin);
}

/// A piece brought into play, by a spawn or by a swap with the held piece,
/// does not rest: it is not locking, sits at column 3 of the top row in its
/// spawn orientation, and holds its spawn cells.
pub proof fn lemma_fresh_piece_not_resting(v: GameView, held: Piece, id: i32)
    ensures
        !v.swapped(held).locking,
        v.swapped(held).active_piece == Some(held),
        v.swapped(held).active_pos == (0i32, 3i32),
        v.swapped(held).rotation_state == 0,
        v.swapped(held).active_cells == spawn_shape(held),
        v.swapped(held).hold_piece == v.active_piece,
        piece_of_id(id as int) is Some ==> {
            &&& !spawn_id(v, id).locking
            &&& spawn_id(v, id).active_piece == piece_of_id(id as int)
            &&& spawn_id(v, id).active_pos == (0i32, 3i32)
            &&& spawn_id(v, id).rotation_state == 0
        },
{
}

} // verus!
