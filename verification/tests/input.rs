use tetrino::game::GameState;
use tetrino::input::{handle_key_event, key_command, KeyCommand, KeyEffect};
use tetrino::piece::Piece;
use tetrino::settings::{Key, KeyBindings, NamedKey};

fn with_piece(p: Piece) -> GameState {
    let mut g = GameState::new();
    g.active_piece = Some(p);
    g.active_cells = p.spawn_cells();
    g.active_pos = (0, 3);
    g
}

fn ch(s: &str) -> Key {
    Key::Character(s.to_string())
}

#[test]
fn commands_from_default_bindings() {
    let b = KeyBindings::default();
    assert_eq!(key_command(&b, &ch("a"), true), KeyCommand::MoveLeft);
    assert_eq!(key_command(&b, &ch("D"), true), KeyCommand::MoveRight);
    assert_eq!(key_command(&b, &ch("s"), true), KeyCommand::SoftDrop);
    assert_eq!(key_command(&b, &Key::Named(NamedKey::Space), true), KeyCommand::HardDrop);
    assert_eq!(key_command(&b, &ch("f"), true), KeyCommand::Hold);
    assert_eq!(key_command(&b, &ch("j"), true), KeyCommand::RotateCcw);
    assert_eq!(key_command(&b, &ch("l"), true), KeyCommand::RotateCw);
    assert_eq!(key_command(&b, &ch("k"), true), KeyCommand::Rotate180);
    assert_eq!(key_command(&b, &Key::Named(NamedKey::F11), true), KeyCommand::ToggleFullscreen);
    assert_eq!(key_command(&b, &Key::Named(NamedKey::F5), true), KeyCommand::ToggleVsync);
    assert_eq!(key_command(&b, &Key::Named(NamedKey::F1), true), KeyCommand::SpawnPiece);
    assert_eq!(key_command(&b, &Key::Named(NamedKey::Escape), true), KeyCommand::Exit);
    assert_eq!(key_command(&b, &ch("x"), true), KeyCommand::Ignore);
    assert_eq!(key_command(&b, &ch("a"), false), KeyCommand::ReleaseLeft);
    assert_eq!(key_command(&b, &ch("d"), false), KeyCommand::ReleaseRight);
    assert_eq!(key_command(&b, &ch("s"), false), KeyCommand::ReleaseSoftDrop);
    assert_eq!(key_command(&b, &ch("j"), false), KeyCommand::Ignore);
}

#[test]
fn move_keys_and_auto_shift() {
    let b = KeyBindings::default();
    let mut g = with_piece(Piece::O);
    assert_eq!(handle_key_event(&mut g, &ch("a"), true, &b), KeyEffect::ResetAutoShift);
    assert_eq!(g.active_pos, (0, 2));
    assert_eq!(g.das_direction, Some(-1));
    // Held down: the key repeats, but the piece only moves by auto-shift.
    assert_eq!(handle_key_event(&mut g, &ch("a"), true, &b), KeyEffect::Nothing);
    assert_eq!(g.active_pos, (0, 2));
    assert_eq!(g.finesse_input_count, 2);
    assert_eq!(g.total_keys_pressed, 2);
    assert_eq!(handle_key_event(&mut g, &ch("d"), false, &b), KeyEffect::Nothing);
    assert_eq!(g.das_direction, Some(-1));
    assert_eq!(handle_key_event(&mut g, &ch("a"), false, &b), KeyEffect::Nothing);
    assert_eq!(g.das_direction, None);
}

#[test]
fn rotation_keys() {
    let b = KeyBindings::default();
    let mut g = with_piece(Piece::T);
    assert_eq!(handle_key_event(&mut g, &ch("l"), true, &b), KeyEffect::ApplyDcd);
    assert_eq!(g.rotation_state, 1);
    assert_eq!(g.active_cells, [(1, 2), (0, 1), (1, 1), (2, 1)]);
    assert!(g.last_action_was_rotation);
    assert!(!g.last_action_used_kicks);
    assert_eq!(handle_key_event(&mut g, &ch("j"), true, &b), KeyEffect::ApplyDcd);
    assert_eq!(g.rotation_state, 0);
    assert_eq!(g.active_cells, Piece::T.spawn_cells());
    assert_eq!(handle_key_event(&mut g, &ch("k"), true, &b), KeyEffect::ApplyDcd);
    assert_eq!(g.rotation_state, 2);
    assert_eq!(g.finesse_input_count, 3);
}

#[test]
fn rotation_uses_a_kick_at_the_wall() {
    // A vertical I piece against the left wall turns back with a kick.
    let mut g = with_piece(Piece::I);
    assert!(g.try_rotate(true));
    assert_eq!(g.rotation_state, 1);
    g.shift_to_wall(-1);
    let col = g.active_pos.1;
    assert!(g.try_rotate(true));
    assert_eq!(g.rotation_state, 2);
    assert!(g.last_action_used_kicks);
    assert!(g.active_pos.1 > col);
}

#[test]
fn blocked_rotation_changes_nothing() {
    let b = KeyBindings::default();
    let mut g = with_piece(Piece::O);
    for r in 0..23 {
        for c in 0..10 {
            if !(r <= 1 && (c == 4 || c == 5)) {
                g.grid[r][c] = Some(Piece::Z);
            }
        }
    }
    let cells = g.active_cells;
    // The O piece turns in place.
    assert_eq!(handle_key_event(&mut g, &ch("l"), true, &b), KeyEffect::ApplyDcd);
    assert_eq!(g.active_cells, cells);
    let mut g = with_piece(Piece::T);
    for r in 0..23 {
        for c in 0..10 {
            if !(r == 1 && (3..=5).contains(&c)) && !(r == 0 && c == 4) {
                g.grid[r][c] = Some(Piece::Z);
            }
        }
    }
    assert_eq!(handle_key_event(&mut g, &ch("l"), true, &b), KeyEffect::Nothing);
    assert_eq!(g.rotation_state, 0);
    assert_eq!(g.active_cells, Piece::T.spawn_cells());
    assert_eq!(g.finesse_input_count, 1);
}

#[test]
fn other_keys() {
    let b = KeyBindings::default();
    let mut g = with_piece(Piece::O);
    assert_eq!(handle_key_event(&mut g, &ch("s"), true, &b), KeyEffect::ResetSoftDropTimer);
    assert!(g.soft_dropping);
    assert_eq!(handle_key_event(&mut g, &ch("s"), false, &b), KeyEffect::ResetSoftDropTimer);
    assert!(!g.soft_dropping);
    assert_eq!(
        handle_key_event(&mut g, &Key::Named(NamedKey::F11), true, &b),
        KeyEffect::ToggleFullscreen
    );
    assert_eq!(handle_key_event(&mut g, &Key::Named(NamedKey::F5), true, &b), KeyEffect::ToggleVsync);
    assert_eq!(handle_key_event(&mut g, &Key::Named(NamedKey::Escape), true, &b), KeyEffect::Exit);
    assert_eq!(handle_key_event(&mut g, &Key::Named(NamedKey::Space), true, &b), KeyEffect::ApplyDcd);
    assert_eq!(g.grid[22][4], Some(Piece::O));
    assert_eq!(g.total_keys_pressed, 1);
    g.finesse_input_count = 5;
    assert_eq!(handle_key_event(&mut g, &ch("f"), true, &b), KeyEffect::Nothing);
    assert_eq!(g.finesse_input_count, 0);
    assert!(g.hold_piece.is_some());
}
