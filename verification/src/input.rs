//! Key presses during play: which command a key gives under the player's
//! bindings, turning the piece with wall kicks, and what each command does
//! to the game. What only the window can do (full screen, vsync, quitting)
//! and the timers kept in real time are left to the caller, which is told
//! through the returned effect.
use crate::game::{fits, in_box, is_seven_bag, lemma_fits_on_board, spawn_next, GameState, GameView};
use crate::piece::{
    box_max, ccw_cell, cw_cell, flip_cell, kick_table, rotated_180, rotated_ccw, rotated_cw, Piece,
};
use crate::settings::{eq_ignore_ascii_case, key_fits, named_key_name, Key, KeyBindings, NamedKey};
use crate::text::same_text;
use vstd::prelude::*;

verus! {

// ---------------------------------------------------------------------------
// Turning the piece
// ---------------------------------------------------------------------------

/// The rotation state after a quarter turn.
pub open spec fn turn_target(state: u8, clockwise: bool) -> u8 {
    if clockwise {
        ((state + 1) % 4) as u8
    } else {
        ((state + 3) % 4) as u8
    }
}

/// The cells after a quarter turn.
pub open spec fn turn_cells(cells: Seq<(i32, i32)>, p: Piece, clockwise: bool) -> Seq<(i32, i32)> {
    if clockwise {
        rotated_cw(cells, p)
    } else {
        rotated_ccw(cells, p)
    }
}

/// Where a kick (x to the right, y up) moves a piece at `pos`.
pub open spec fn kick_pos(pos: (i32, i32), kick: (i32, i32)) -> (int, int) {
    (pos.0 - kick.1, pos.1 + kick.0)
}

/// Kick `k` is the first of the list at which the cells fit.
pub open spec fn is_first_fit(
    m: Seq<Seq<Option<Piece>>>,
    cells: Seq<(i32, i32)>,
    pos: (i32, i32),
    kicks: Seq<(i32, i32)>,
    k: int,
) -> bool {
    &&& 0 <= k < kicks.len()
    &&& fits(m, cells, kick_pos(pos, kicks[k]).0, kick_pos(pos, kicks[k]).1)
    &&& forall|j: int|
        0 <= j < k ==> !fits(
            m,
            cells,
            kick_pos(pos, #[trigger] kicks[j]).0,
            kick_pos(pos, kicks[j]).1,
        )
}

impl GameView {
    /// The piece turned to `cells` in rotation state `state` at `pos`.
    pub open spec fn turned(
        self,
        cells: Seq<(i32, i32)>,
        state: u8,
        pos: (int, int),
        kicked: bool,
    ) -> GameView {
        GameView {
            active_cells: cells,
            active_pos: (pos.0 as i32, pos.1 as i32),
            rotation_state: state,
            last_action_was_rotation: true,
            last_action_used_kicks: kicked,
            ..self
        }
    }

    /// A quarter turn with wall kicks: the turned cells are tried at each kick
    /// of the piece's table in order, and the first place where they fit is
    /// taken; none when no place fits or no piece is in play.
    pub open spec fn rotation(self, clockwise: bool) -> Option<GameView> {
        match self.active_piece {
            None => None,
            Some(p) => {
                let to = turn_target(self.rotation_state, clockwise);
                let cells = turn_cells(self.active_cells, p, clockwise);
                let kicks = kick_table(p, self.rotation_state, to);
                if exists|k: int| is_first_fit(self.grid, cells, self.active_pos, kicks, k) {
                    let k = choose|k: int| is_first_fit(self.grid, cells, self.active_pos, kicks, k);
                    Some(self.turned(cells, to, kick_pos(self.active_pos, kicks[k]), k > 0))
                } else {
                    None
                }
            },
        }
    }

    /// A half turn in place, without kicks; none when the turned cells do
    /// not fit or no piece is in play.
    pub open spec fn flip(self) -> Option<GameView> {
        match self.active_piece {
            None => None,
            Some(p) => {
                let cells = rotated_180(self.active_cells, p);
                if fits(self.grid, cells, self.active_pos.0 as int, self.active_pos.1 as int) {
                    Some(
                        self.turned(
                            cells,
                            ((self.rotation_state + 2) % 4) as u8,
                            (self.active_pos.0 as int, self.active_pos.1 as int),
                            false,
                        ),
                    )
                } else {
                    None
                }
            },
        }
    }
}

proof fn lemma_first_fit_unique(
    m: Seq<Seq<Option<Piece>>>,
    cells: Seq<(i32, i32)>,
    pos: (i32, i32),
    kicks: Seq<(i32, i32)>,
    a: int,
    b: int,
)
    requires
        is_first_fit(m, cells, pos, kicks, a),
        is_first_fit(m, cells, pos, kicks, b),
    ensures
        a == b,
{
    if a < b {
        assert(!fits(m, cells, kick_pos(pos, kicks[a]).0, kick_pos(pos, kicks[a]).1));
    } else if b < a {
        assert(!fits(m, cells, kick_pos(pos, kicks[b]).0, kick_pos(pos, kicks[b]).1));
    }
}

/// Every kick moves a piece at most two cells each way.
proof fn lemma_kicks_small(p: Piece, from: u8, to: u8)
    ensures
        kick_table(p, from, to).len() == 5,
        forall|i: int|
            0 <= i < 5 ==> -2 <= (#[trigger] kick_table(p, from, to)[i]).0 <= 2 && -2
                <= kick_table(p, from, to)[i].1 <= 2,
{
}

/// Turning keeps the cells inside the piece's box.
proof fn lemma_turns_stay_in_box(cells: Seq<(i32, i32)>, p: Piece)
    requires
        cells.len() == 4,
        in_box(cells, box_max(p)),
    ensures
        rotated_cw(cells, p).len() == 4,
        rotated_ccw(cells, p).len() == 4,
        rotated_180(cells, p).len() == 4,
        in_box(rotated_cw(cells, p), box_max(p)),
        in_box(rotated_ccw(cells, p), box_max(p)),
        in_box(rotated_180(cells, p), box_max(p)),
{
    let k = box_max(p);
    assert forall|i: int| 0 <= i < 4 implies 0 <= (#[trigger] rotated_cw(cells, p)[i]).0 <= k
        && 0 <= rotated_cw(cells, p)[i].1 <= k by {
        if p != Piece::O {
            assert(rotated_cw(cells, p)[i] == cw_cell(cells[i], k));
        }
    }
    assert forall|i: int| 0 <= i < 4 implies 0 <= (#[trigger] rotated_ccw(cells, p)[i]).0 <= k
        && 0 <= rotated_ccw(cells, p)[i].1 <= k by {
        if p != Piece::O {
            assert(rotated_ccw(cells, p)[i] == ccw_cell(cells[i], k));
        }
    }
    assert forall|i: int| 0 <= i < 4 implies 0 <= (#[trigger] rotated_180(cells, p)[i]).0 <= k
        && 0 <= rotated_180(cells, p)[i].1 <= k by {
        if p != Piece::O {
            assert(rotated_180(cells, p)[i] == flip_cell(cells[i], k));
        }
    }
}

impl GameState {
    /// Turns the falling piece a quarter, clockwise or not, trying the wall
    /// kicks in order; reports whether it turned.
    pub fn try_rotate(&mut self, clockwise: bool) -> (turned: bool)
        requires
            old(self)@.wf(),
        ensures
            final(self)@.wf(),
            match old(self)@.rotation(clockwise) {
                Some(g) => turned && final(self)@ == g,
                None => !turned && final(self)@ == old(self)@,
            },
    {
        let ghost v = self@;
        let piece = match self.active_piece {
            Some(p) => p,
            None => return false,
        };
        let from = self.rotation_state;
        let to: u8 = if clockwise {
            (from + 1) % 4
        } else {
            (from + 3) % 4
        };
        proof {
            lemma_turns_stay_in_box(v.active_cells, piece);
        }
        let new_cells = if clockwise {
            Piece::rotate_cw(&self.active_cells, piece)
        } else {
            Piece::rotate_ccw(&self.active_cells, piece)
        };
        let kicks = Piece::get_kick_offsets(piece, from, to);
        proof {
            lemma_kicks_small(piece, from, to);
            assert(0 <= v.active_pos.0 + v.active_cells[0].0 < 23);
            assert(0 <= v.active_pos.1 + v.active_cells[0].1 < 10);
        }
        let mut i: usize = 0;
        while i < 5
            invariant
                0 <= i <= 5,
                self@ == v,
                old(self)@ == v,
                v.wf(),
                v.active_piece == Some(piece),
                from == v.rotation_state,
                to == turn_target(from, clockwise),
                new_cells@ == turn_cells(v.active_cells, piece, clockwise),
                kicks@ == kick_table(piece, from, to),
                new_cells@.len() == 4,
                in_box(new_cells@, box_max(piece)),
                -3 <= v.active_pos.0 < 23,
                -3 <= v.active_pos.1 < 10,
                forall|j: int|
                    0 <= j < 5 ==> -2 <= (#[trigger] kicks@[j]).0 <= 2 && -2 <= kicks@[j].1 <= 2,
                forall|j: int|
                    0 <= j < i ==> !fits(
                        v.grid,
                        new_cells@,
                        kick_pos(v.active_pos, #[trigger] kicks@[j]).0,
                        kick_pos(v.active_pos, kicks@[j]).1,
                    ),
            decreases 5 - i,
        {
            let (dx, dy) = kicks[i];
            assert(kicks@[i as int] == (dx, dy));
            let test_pos = (self.active_pos.0 - dy, self.active_pos.1 + dx);
            if self.cells_valid_at(&new_cells, test_pos) {
                self.active_cells = new_cells;
                self.active_pos = test_pos;
                self.rotation_state = to;
                self.last_action_was_rotation = true;
                self.last_action_used_kicks = i > 0;
                proof {
                    lemma_fits_on_board(v.grid, new_cells@, test_pos.0 as int, test_pos.1 as int);
                    let to_s = turn_target(v.rotation_state, clockwise);
                    let cells = turn_cells(v.active_cells, piece, clockwise);
                    let kk = kick_table(piece, v.rotation_state, to_s);
                    assert(is_first_fit(v.grid, cells, v.active_pos, kk, i as int));
                    let k2 = choose|k: int| is_first_fit(v.grid, cells, v.active_pos, kk, k);
                    lemma_first_fit_unique(v.grid, cells, v.active_pos, kk, i as int, k2);
                    assert(self@ == v.turned(cells, to, kick_pos(v.active_pos, kk[i as int]), i > 0));
                    assert(v.rotation(clockwise) == Some(self@));
                }
                assert(old(self)@.rotation(clockwise) == Some(self@));
                return true;
            }
            i += 1;
        }
        proof {
            let to_s = turn_target(v.rotation_state, clockwise);
            let cells = turn_cells(v.active_cells, piece, clockwise);
            let kk = kick_table(piece, v.rotation_state, to_s);
            assert forall|k: int| !is_first_fit(v.grid, cells, v.active_pos, kk, k) by {
                if 0 <= k < 5 {
                    assert(!fits(
                        v.grid,
                        cells,
                        kick_pos(v.active_pos, kk[k]).0,
                        kick_pos(v.active_pos, kk[k]).1,
                    ));
                }
            }
        }
        false
    }

    /// Turns the falling piece half a turn in place if it fits there;
    /// reports whether it turned.
    pub fn try_flip(&mut self) -> (turned: bool)
        requires
            old(self)@.wf(),
        ensures
            final(self)@.wf(),
            match old(self)@.flip() {
                Some(g) => turned && final(self)@ == g,
                None => !turned && final(self)@ == old(self)@,
            },
    {
        let ghost v = self@;
        let piece = match self.active_piece {
            Some(p) => p,
            None => return false,
        };
        proof {
            lemma_turns_stay_in_box(v.active_cells, piece);
        }
        let new_cells = Piece::flip_180(&self.active_cells, piece);
        proof {
            assert(0 <= v.active_pos.0 + v.active_cells[0].0 < 23);
            assert(0 <= v.active_pos.1 + v.active_cells[0].1 < 10);
        }
        if self.cells_valid_at(&new_cells, self.active_pos) {
            proof {
                lemma_fits_on_board(
                    v.grid,
                    new_cells@,
                    v.active_pos.0 as int,
                    v.active_pos.1 as int,
                );
            }
            self.active_cells = new_cells;
            self.rotation_state = (self.rotation_state + 2) % 4;
            self.last_action_was_rotation = true;
            self.last_action_used_kicks = false;
            true
        } else {
            false
        }
    }
}

// ---------------------------------------------------------------------------
// Keys and commands
// ---------------------------------------------------------------------------

/// What a key event asks of the game.
#[derive(Debug, Clone, Copy, PartialEq, Eq, Structural)]
pub enum KeyCommand {
    MoveLeft,
    MoveRight,
    SoftDrop,
    HardDrop,
    Hold,
    RotateCcw,
    RotateCw,
    Rotate180,
    ToggleFullscreen,
    ToggleVsync,
    SpawnPiece,
    Exit,
    ReleaseLeft,
    ReleaseRight,
    ReleaseSoftDrop,
    Ignore,
}

/// What the caller is to do after a key event: nothing; restart the
/// auto-shift charge and repeat timer; restart the soft-drop timer; cut the
/// auto-shift charge by the delay after a drop or turn; switch full screen;
/// switch vsync; or quit.
#[derive(Debug, Clone, Copy, PartialEq, Eq, Structural)]
pub enum KeyEffect {
    Nothing,
    ResetAutoShift,
    ResetSoftDropTimer,
    ApplyDcd,
    ToggleFullscreen,
    ToggleVsync,
    Exit,
}

/// The command of a key event: a press is checked against the bindings in
/// the order move left, move right, soft drop, hard drop, hold, turn
/// counter-clockwise, turn clockwise, half turn, then F11, F5, F1 and
/// Escape; a release is checked against move left, move right and soft
/// drop.
pub open spec fn command_of(b: KeyBindings, key: Key, pressed: bool) -> KeyCommand {
    if pressed {
        if key_fits(key, b.key_move_left@) {
            KeyCommand::MoveLeft
        } else if key_fits(key, b.key_move_right@) {
            KeyCommand::MoveRight
        } else if key_fits(key, b.key_soft_drop@) {
            KeyCommand::SoftDrop
        } else if key_fits(key, b.key_hard_drop@) {
            KeyCommand::HardDrop
        } else if key_fits(key, b.key_hold@) {
            KeyCommand::Hold
        } else if key_fits(key, b.key_rotate_ccw@) {
            KeyCommand::RotateCcw
        } else if key_fits(key, b.key_rotate_cw@) {
            KeyCommand::RotateCw
        } else if key_fits(key, b.key_rotate_180@) {
            KeyCommand::Rotate180
        } else {
            match key {
                Key::Named(NamedKey::F11) => KeyCommand::ToggleFullscreen,
                Key::Named(NamedKey::F5) => KeyCommand::ToggleVsync,
                Key::Named(NamedKey::F1) => KeyCommand::SpawnPiece,
                Key::Named(NamedKey::Escape) => KeyCommand::Exit,
                _ => KeyCommand::Ignore,
            }
        }
    } else {
        if key_fits(key, b.key_move_left@) {
            KeyCommand::ReleaseLeft
        } else if key_fits(key, b.key_move_right@) {
            KeyCommand::ReleaseRight
        } else if key_fits(key, b.key_soft_drop@) {
            KeyCommand::ReleaseSoftDrop
        } else {
            KeyCommand::Ignore
        }
    }
}

fn fits_binding(key: &Key, binding: &String) -> (r: bool)
    ensures
        r == key_fits(*key, binding@),
{
    match key {
        Key::Character(s) => crate::settings::same_ignoring_ascii_case(s.as_str(), binding.as_str()),
        Key::Named(k) => {
            let name = crate::settings::key_to_string(key);
            assert(name@ == named_key_name(*k));
            same_text(binding.as_str(), name.as_str())
        },
        Key::Other => false,
    }
}

/// The command a key event gives under the bindings.
pub fn key_command(bindings: &KeyBindings, key: &Key, pressed: bool) -> (c: KeyCommand)
    ensures
        c == command_of(*bindings, *key, pressed),
{
    if pressed {
        if fits_binding(key, &bindings.key_move_left) {
            KeyCommand::MoveLeft
        } else if fits_binding(key, &bindings.key_move_right) {
            KeyCommand::MoveRight
        } else if fits_binding(key, &bindings.key_soft_drop) {
            KeyCommand::SoftDrop
        } else if fits_binding(key, &bindings.key_hard_drop) {
            KeyCommand::HardDrop
        } else if fits_binding(key, &bindings.key_hold) {
            KeyCommand::Hold
        } else if fits_binding(key, &bindings.key_rotate_ccw) {
            KeyCommand::RotateCcw
        } else if fits_binding(key, &bindings.key_rotate_cw) {
            KeyCommand::RotateCw
        } else if fits_binding(key, &bindings.key_rotate_180) {
            KeyCommand::Rotate180
        } else {
            match key {
                Key::Named(NamedKey::F11) => KeyCommand::ToggleFullscreen,
                Key::Named(NamedKey::F5) => KeyCommand::ToggleVsync,
                Key::Named(NamedKey::F1) => KeyCommand::SpawnPiece,
                Key::Named(NamedKey::Escape) => KeyCommand::Exit,
                _ => KeyCommand::Ignore,
            }
        }
    } else {
        if fits_binding(key, &bindings.key_move_left) {
            KeyCommand::ReleaseLeft
        } else if fits_binding(key, &bindings.key_move_right) {
            KeyCommand::ReleaseRight
        } else if fits_binding(key, &bindings.key_soft_drop) {
            KeyCommand::ReleaseSoftDrop
        } else {
            KeyCommand::Ignore
        }
    }
}

// ---------------------------------------------------------------------------
// What each command does
// ---------------------------------------------------------------------------

impl GameView {
    /// A press counted towards finesse and towards all keys pressed.
    pub open spec fn counted(self) -> GameView {
        GameView {
            finesse_input_count: (self.finesse_input_count + 1) as u32,
            total_keys_pressed: (self.total_keys_pressed + 1) as u32,
            ..self
        }
    }

    /// A press of the move key for direction `dir`: counted; when the
    /// auto-shift direction changes, one step that way if the piece fits
    /// there, and the new direction.
    pub open spec fn move_pressed(self, dir: i32) -> GameView {
        let g = self.counted();
        if self.das_direction != Some(dir) {
            let m = if g.can_shift(dir as int) {
                g.shifted(dir as int)
            } else {
                g
            };
            GameView { das_direction: Some(dir), ..m }
        } else {
            g
        }
    }

    /// The release of the move key for direction `dir`: auto-shift in that
    /// direction stops.
    pub open spec fn move_released(self, dir: i32) -> GameView {
        if self.das_direction == Some(dir) {
            GameView { das_direction: None, ..self }
        } else {
            self
        }
    }
}

/// No counter overflows under the command.
pub open spec fn command_fits(g: GameView, c: KeyCommand) -> bool {
    match c {
        KeyCommand::MoveLeft | KeyCommand::MoveRight | KeyCommand::RotateCcw
        | KeyCommand::RotateCw | KeyCommand::Rotate180 => g.finesse_input_count < u32::MAX
            && g.total_keys_pressed < u32::MAX,
        KeyCommand::HardDrop => g.total_keys_pressed < u32::MAX && (g.active_piece is Some ==> (
        GameView { total_keys_pressed: (g.total_keys_pressed + 1) as u32, ..g }).hard_drop_fits()),
        _ => true,
    }
}

/// What the caller is to do after the command.
pub open spec fn effect_of(g: GameView, c: KeyCommand) -> KeyEffect {
    match c {
        KeyCommand::MoveLeft => if g.das_direction != Some(-1i32) {
            KeyEffect::ResetAutoShift
        } else {
            KeyEffect::Nothing
        },
        KeyCommand::MoveRight => if g.das_direction != Some(1i32) {
            KeyEffect::ResetAutoShift
        } else {
            KeyEffect::Nothing
        },
        KeyCommand::SoftDrop | KeyCommand::ReleaseSoftDrop => KeyEffect::ResetSoftDropTimer,
        KeyCommand::HardDrop => KeyEffect::ApplyDcd,
        KeyCommand::RotateCcw => if g.counted().rotation(false) is Some {
            KeyEffect::ApplyDcd
        } else {
            KeyEffect::Nothing
        },
        KeyCommand::RotateCw => if g.counted().rotation(true) is Some {
            KeyEffect::ApplyDcd
        } else {
            KeyEffect::Nothing
        },
        KeyCommand::Rotate180 => if g.counted().flip() is Some {
            KeyEffect::ApplyDcd
        } else {
            KeyEffect::Nothing
        },
        KeyCommand::ToggleFullscreen => KeyEffect::ToggleFullscreen,
        KeyCommand::ToggleVsync => KeyEffect::ToggleVsync,
        KeyCommand::Exit => KeyEffect::Exit,
        _ => KeyEffect::Nothing,
    }
}

/// The state `after` the command is one the command can leave behind from
/// `g`: the next piece, where one comes, is drawn from some shuffled bag.
pub open spec fn command_result(g: GameView, c: KeyCommand, after: GameView) -> bool {
    match c {
        KeyCommand::MoveLeft => after == g.move_pressed(-1i32),
        KeyCommand::MoveRight => after == g.move_pressed(1i32),
        KeyCommand::SoftDrop => after == (GameView { soft_dropping: true, ..g }),
        KeyCommand::HardDrop => {
            let h = GameView { total_keys_pressed: (g.total_keys_pressed + 1) as u32, ..g };
            if h.active_piece is None {
                after == h
            } else {
                exists|fill: Seq<i32>|
                    #![trigger is_seven_bag(fill)]
                    is_seven_bag(fill) && after == spawn_next(h.dropped().settled(), fill)
            }
        },
        KeyCommand::Hold => {
            let h = GameView { finesse_input_count: 0, ..g };
            if !h.can_hold() {
                after == h
            } else {
                match h.hold_piece {
                    None => exists|fill: Seq<i32>|
                        #![trigger is_seven_bag(fill)]
                        is_seven_bag(fill) && after == spawn_next(h.stashed(), fill),
                    Some(held) => after == h.swapped(held),
                }
            }
        },
        KeyCommand::RotateCcw => match g.counted().rotation(false) {
            Some(n) => after == n,
            None => after == g.counted(),
        },
        KeyCommand::RotateCw => match g.counted().rotation(true) {
            Some(n) => after == n,
            None => after == g.counted(),
        },
        KeyCommand::Rotate180 => match g.counted().flip() {
            Some(n) => after == n,
            None => after == g.counted(),
        },
        KeyCommand::SpawnPiece => exists|fill: Seq<i32>|
            #![trigger is_seven_bag(fill)]
            is_seven_bag(fill) && after == spawn_next(g, fill),
        KeyCommand::ReleaseLeft => after == g.move_released(-1i32),
        KeyCommand::ReleaseRight => after == g.move_released(1i32),
        KeyCommand::ReleaseSoftDrop => after == (GameView { soft_dropping: false, ..g }),
        _ => after == g,
    }
}

impl GameState {
    fn press_move(&mut self, dir: i32) -> (e: KeyEffect)
        requires
            old(self)@.wf(),
            dir == 1 || dir == -1,
            old(self).finesse_input_count < u32::MAX,
            old(self).total_keys_pressed < u32::MAX,
        ensures
            final(self)@.wf(),
            final(self)@ == old(self)@.move_pressed(dir),
            e == if old(self).das_direction != Some(dir) {
                KeyEffect::ResetAutoShift
            } else {
                KeyEffect::Nothing
            },
    {
        self.finesse_input_count = self.finesse_input_count + 1;
        self.total_keys_pressed = self.total_keys_pressed + 1;
        let changes = match self.das_direction {
            Some(d) => d != dir,
            None => true,
        };
        if changes {
            proof {
                if self@.active_piece is Some {
                    assert(0 <= self@.active_pos.1 + self@.active_cells[0].1 < 10);
                    assert(forall|i: int|
                        0 <= i < 4 ==> 0 <= self@.active_pos.1 + (#[trigger] self@.active_cells[i]).1
                            < 10);
                }
            }
            self.try_move(dir);
            self.das_direction = Some(dir);
            KeyEffect::ResetAutoShift
        } else {
            KeyEffect::Nothing
        }
    }

    fn press_turn(&mut self, command: KeyCommand) -> (e: KeyEffect)
        requires
            old(self)@.wf(),
            command == KeyCommand::RotateCcw || command == KeyCommand::RotateCw || command
                == KeyCommand::Rotate180,
            old(self).finesse_input_count < u32::MAX,
            old(self).total_keys_pressed < u32::MAX,
        ensures
            final(self)@.wf(),
            command_result(old(self)@, command, final(self)@),
            e == effect_of(old(self)@, command),
    {
        self.finesse_input_count = self.finesse_input_count + 1;
        self.total_keys_pressed = self.total_keys_pressed + 1;
        let turned = match command {
            KeyCommand::RotateCcw => self.try_rotate(false),
            KeyCommand::RotateCw => self.try_rotate(true),
            _ => self.try_flip(),
        };
        if turned {
            KeyEffect::ApplyDcd
        } else {
            KeyEffect::Nothing
        }
    }

    /// Carries out a key command and says what is left for the caller to do.
    pub fn apply_command(&mut self, command: KeyCommand) -> (e: KeyEffect)
        requires
            old(self)@.wf(),
            command_fits(old(self)@, command),
        ensures
            final(self)@.wf(),
            command_result(old(self)@, command, final(self)@),
            e == effect_of(old(self)@, command),
    {
        match command {
            KeyCommand::MoveLeft => self.press_move(-1),
            KeyCommand::MoveRight => self.press_move(1),
            KeyCommand::SoftDrop => {
                self.soft_dropping = true;
                KeyEffect::ResetSoftDropTimer
            },
            KeyCommand::HardDrop => {
                self.total_keys_pressed = self.total_keys_pressed + 1;
                self.hard_drop();
                KeyEffect::ApplyDcd
            },
            KeyCommand::Hold => {
                self.finesse_input_count = 0;
                self.hold_piece();
                KeyEffect::Nothing
            },
            KeyCommand::RotateCcw | KeyCommand::RotateCw | KeyCommand::Rotate180 => {
                self.press_turn(command)
            },
            KeyCommand::ToggleFullscreen => KeyEffect::ToggleFullscreen,
            KeyCommand::ToggleVsync => KeyEffect::ToggleVsync,
            KeyCommand::SpawnPiece => {
                self.spawn_random_piece();
                KeyEffect::Nothing
            },
            KeyCommand::Exit => KeyEffect::Exit,
            KeyCommand::ReleaseLeft => {
                if self.das_direction == Some(-1i32) {
                    self.das_direction = None;
                }
                KeyEffect::Nothing
            },
            KeyCommand::ReleaseRight => {
                if self.das_direction == Some(1i32) {
                    self.das_direction = None;
                }
                KeyEffect::Nothing
            },
            KeyCommand::ReleaseSoftDrop => {
                self.soft_dropping = false;
                KeyEffect::ResetSoftDropTimer
            },
            KeyCommand::Ignore => KeyEffect::Nothing,
        }
    }
}

/// A key pressed (or released) during play: the command it gives under the
/// bindings is carried out, and what is left for the caller is returned.
pub fn handle_key_event(
    game: &mut GameState,
    key: &Key,
    pressed: bool,
    bindings: &KeyBindings,
) -> (e: KeyEffect)
    requires
        old(game)@.wf(),
        command_fits(old(game)@, command_of(*bindings, *key, pressed)),
    ensures
        final(game)@.wf(),
        command_result(old(game)@, command_of(*bindings, *key, pressed), final(game)@),
        e == effect_of(old(game)@, command_of(*bindings, *key, pressed)),
{
    let command = key_command(bindings, key, pressed);
    game.apply_command(command)
}

// ---------------------------------------------------------------------------
// Laws of turning
// ---------------------------------------------------------------------------

/// For cells inside the piece's box: a counter-clockwise turn undoes a
/// clockwise one and the other way round, two quarter turns make a half
/// turn, and two half turns give the cells back.
pub proof fn lemma_turns_compose(cells: Seq<(i32, i32)>, p: Piece)
    requires
        cells.len() == 4,
        in_box(cells, box_max(p)),
    ensures
        rotated_ccw(rotated_cw(cells, p), p) == cells,
        rotated_cw(rotated_ccw(cells, p), p) == cells,
        rotated_cw(rotated_cw(cells, p), p) == rotated_180(cells, p),
        rotated_180(rotated_180(cells, p), p) == cells,
{
    lemma_turns_stay_in_box(cells, p);
    let k = box_max(p);
    if p != Piece::O {
        assert(rotated_ccw(rotated_cw(cells, p), p) =~= cells) by {
            assert forall|i: int| 0 <= i < 4 implies rotated_ccw(rotated_cw(cells, p), p)[i]
                == cells[i] by {
                assert(rotated_cw(cells, p)[i] == cw_cell(cells[i], k));
            }
        }
        assert(rotated_cw(rotated_ccw(cells, p), p) =~= cells) by {
            assert forall|i: int| 0 <= i < 4 implies rotated_cw(rotated_ccw(cells, p), p)[i]
                == cells[i] by {
                assert(rotated_ccw(cells, p)[i] == ccw_cell(cells[i], k));
            }
        }
        assert(rotated_cw(rotated_cw(cells, p), p) =~= rotated_180(cells, p)) by {
            assert forall|i: int| 0 <= i < 4 implies rotated_cw(rotated_cw(cells, p), p)[i]
                == rotated_180(cells, p)[i] by {
                assert(rotated_cw(cells, p)[i] == cw_cell(cells[i], k));
            }
        }
        assert(rotated_180(rotated_180(cells, p), p) =~= cells) by {
            assert forall|i: int| 0 <= i < 4 implies rotated_180(rotated_180(cells, p), p)[i]
                == cells[i] by {
                assert(rotated_180(cells, p)[i] == flip_cell(cells[i], k));
            }
        }
    }
}

/// Every kick list starts with no kick: a turn that fits in place stays in
/// place and does not count as kicked.
pub proof fn lemma_first_kick_is_none(p: Piece, from: u8, to: u8)
    ensures
        kick_table(p, from, to)[0] == (0i32, 0i32),
{
}

/// Turning with a kick keeps the piece on the board and out of the stack.
pub proof fn lemma_turn_lands_free(v: GameView, clockwise: bool)
    requires
        v.wf(),
        v.rotation(clockwise) is Some,
    ensures
        fits(
            v.grid,
            v.rotation(clockwise)->Some_0.active_cells,
            v.rotation(clockwise)->Some_0.active_pos.0 as int,
            v.rotation(clockwise)->Some_0.active_pos.1 as int,
        ),
{
    let p = v.active_piece->Some_0;
    let to = turn_target(v.rotation_state, clockwise);
    let cells = turn_cells(v.active_cells, p, clockwise);
    let kicks = kick_table(p, v.rotation_state, to);
    let k = choose|k: int| is_first_fit(v.grid, cells, v.active_pos, kicks, k);
    lemma_kicks_small(p, v.rotation_state, to);
    lemma_turns_stay_in_box(v.active_cells, p);
    let kp = kick_pos(v.active_pos, kicks[k]);
    assert(fits(v.grid, cells, kp.0, kp.1));
    lemma_fits_on_board(v.grid, cells, kp.0, kp.1);
    assert(0 <= kp.0 + cells[0].0 < 23);
    assert(0 <= kp.1 + cells[0].1 < 10);
    assert(0 <= cells[0].0 <= 3 && 0 <= cells[0].1 <= 3);
}

} // verus!
