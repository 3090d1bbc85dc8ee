use tetrino::finesse::lookup_finesse;
use tetrino::game::GameState;
use tetrino::piece::Piece;

fn with_piece(p: Piece) -> GameState {
    let mut g = GameState::new();
    g.active_piece = Some(p);
    g.active_cells = p.spawn_cells();
    g.active_pos = (0, 3);
    g
}

#[test]
fn new_game_is_empty() {
    let g = GameState::new();
    assert!(g.grid.iter().all(|row| row.iter().all(|c| c.is_none())));
    assert!(g.bag_queue.is_empty());
    assert_eq!(g.active_piece, None);
    assert_eq!(g.level, 1);
    assert_eq!(g.score, 0);
    assert!(!g.is_game_over());
}

#[test]
fn first_seven_pieces_are_one_of_each() {
    let mut g = GameState::new();
    let mut seen = Vec::new();
    for _ in 0..7 {
        g.spawn_random_piece();
        let p = g.active_piece.unwrap();
        assert!(!seen.contains(&p));
        seen.push(p);
        assert_eq!(g.active_pos, (0, 3));
        assert_eq!(g.active_cells, p.spawn_cells());
        assert_eq!(g.rotation_state, 0);
    }
    assert_eq!(seen.len(), 7);
}

#[test]
fn queue_is_topped_up_below_seven() {
    let mut g = GameState::new();
    g.spawn_random_piece();
    assert_eq!(g.bag_queue.len(), 6);
    g.spawn_random_piece();
    assert_eq!(g.bag_queue.len(), 12);
    let mut ids: Vec<i32> = g.bag_queue.iter().copied().skip(5).collect();
    ids.sort();
    assert_eq!(ids, vec![1, 2, 3, 4, 5, 6, 7]);
}

#[test]
fn moving_stops_at_walls() {
    let mut g = with_piece(Piece::O);
    assert!(g.try_move(-1));
    assert_eq!(g.active_pos, (0, 2));
    g.shift_to_wall(-1);
    assert_eq!(g.active_pos, (0, -1));
    assert!(!g.try_move(-1));
    g.shift_to_wall(1);
    assert_eq!(g.active_pos, (0, 7));
    assert!(!g.try_move(1));
}

#[test]
fn ghost_and_hard_drop() {
    let mut g = with_piece(Piece::O);
    assert_eq!(g.compute_ghost_pos(), Some((21, 3)));
    g.hard_drop();
    assert_eq!(g.grid[21][4], Some(Piece::O));
    assert_eq!(g.grid[21][5], Some(Piece::O));
    assert_eq!(g.grid[22][4], Some(Piece::O));
    assert_eq!(g.grid[22][5], Some(Piece::O));
    assert_eq!(g.score, 42);
    assert_eq!(g.last_clear, 0);
    assert_eq!(g.combo, 0);
    assert!(g.active_piece.is_some());
    assert_eq!(g.drop_points, 0);
}

#[test]
fn single_line_clear_scores() {
    let mut g = with_piece(Piece::I);
    for c in 0..10 {
        if !(3..=6).contains(&c) {
            g.grid[22][c] = Some(Piece::Z);
        }
    }
    g.grid[21][0] = Some(Piece::S);
    g.hard_drop();
    assert_eq!(g.last_clear, 1);
    assert_eq!(g.singles, 1);
    assert_eq!(g.total_lines, 1);
    assert_eq!(g.combo, 1);
    assert_eq!(g.max_combo, 1);
    assert_eq!(g.b2b, 0);
    // 100 for the single, 50 for the combo, 42 for 21 rows of hard drop.
    assert_eq!(g.score, 192);
    assert_eq!(g.grid[22][0], Some(Piece::S));
    assert!(g.grid[22][1..].iter().all(|c| c.is_none()));
    assert!(g.grid[21].iter().all(|c| c.is_none()));
}

#[test]
fn perfect_clear_bonus() {
    let mut g = with_piece(Piece::I);
    for c in 0..10 {
        if !(3..=6).contains(&c) {
            g.grid[22][c] = Some(Piece::Z);
        }
    }
    g.hard_drop();
    assert_eq!(g.last_clear, 1);
    // 100 + 50 + 3500 + 42.
    assert_eq!(g.score, 3692);
}

#[test]
fn level_follows_lines() {
    let mut g = with_piece(Piece::O);
    g.total_lines = 19;
    g.lock_piece();
    assert_eq!(g.level, 2);
    let mut g = with_piece(Piece::O);
    g.total_lines = 20;
    g.lock_piece();
    assert_eq!(g.level, 3);
}

#[test]
fn holding_pieces() {
    let mut g = GameState::new();
    g.spawn_random_piece();
    let first = g.active_piece.unwrap();
    g.hold_piece();
    assert_eq!(g.hold_piece, Some(first));
    let second = g.active_piece.unwrap();
    // Spawning the next piece frees the hold again.
    assert!(!g.hold_used);
    g.hold_piece();
    assert_eq!(g.active_piece, Some(first));
    assert_eq!(g.hold_piece, Some(second));
    assert!(g.hold_used);
    g.hold_piece();
    assert_eq!(g.active_piece, Some(first));
    assert_eq!(g.hold_piece, Some(second));
}

#[test]
fn gravity_falls_then_rests_then_locks() {
    let mut g = with_piece(Piece::O);
    g.gravity_step();
    assert_eq!(g.active_pos, (1, 3));
    g.active_pos = (21, 3);
    g.gravity_step();
    assert!(g.locking);
    assert_eq!(g.active_pos, (21, 3));
    g.gravity_step();
    assert_eq!(g.grid[22][4], Some(Piece::O));
    assert!(g.active_piece.is_some());
    assert!(!g.locking);
}

#[test]
fn soft_drop_steps_and_floor() {
    let mut g = with_piece(Piece::T);
    g.soft_dropping = true;
    assert!(g.soft_drop_active());
    assert!(g.was_soft_dropped);
    assert!(g.soft_drop_step());
    assert_eq!(g.active_pos, (1, 3));
    assert_eq!(g.drop_points, 1);
    g.soft_drop_to_floor();
    assert_eq!(g.active_pos, (21, 3));
    assert_eq!(g.drop_points, 21);
    assert!(!g.soft_dropping);
    assert!(!g.soft_drop_step());
}

#[test]
fn game_over_when_spawn_blocked() {
    let mut g = with_piece(Piece::O);
    assert!(!g.is_game_over());
    g.grid[0][4] = Some(Piece::I);
    assert!(g.is_game_over());
}

#[test]
fn tspin_detection() {
    // A T pointing down (state 2) in a slot with three corners filled.
    let mut g = GameState::new();
    g.active_piece = Some(Piece::T);
    g.active_cells = Piece::flip_180(&Piece::T.spawn_cells(), Piece::T);
    g.rotation_state = 2;
    g.active_pos = (20, 0);
    g.last_action_was_rotation = true;
    g.grid[20][0] = Some(Piece::O);
    g.grid[22][0] = Some(Piece::O);
    g.grid[22][2] = Some(Piece::O);
    assert_eq!(g.check_tspin(), (true, true));
    g.grid[20][2] = Some(Piece::O);
    assert_eq!(g.check_tspin(), (true, false));
    assert_eq!(g.check_spin(), Some((Piece::T, false)));
    g.last_action_was_rotation = false;
    assert_eq!(g.check_tspin(), (false, false));
    assert_eq!(g.check_spin(), None);
}

#[test]
fn finesse_counts_on_lock() {
    let mut g = with_piece(Piece::O);
    g.finesse_input_count = 0;
    g.lock_piece();
    assert_eq!(g.finesse_pieces_placed, 1);
    assert_eq!(g.finesse_perfect_pieces, 1);
    assert_eq!(g.finesse_faults, 0);
    assert_eq!(lookup_finesse(Piece::O, 3, 0), Some(0));
    assert_eq!(lookup_finesse(Piece::O, 0, 0), Some(2));
    assert_eq!(lookup_finesse(Piece::O, 10, 0), None);
    let mut g = with_piece(Piece::O);
    g.finesse_input_count = 3;
    g.lock_piece();
    assert_eq!(g.finesse_faults, 3);
    assert_eq!(g.finesse_perfect_pieces, 0);
}

#[test]
fn bags_are_shuffled() {
    // Ten bags in a row all in identifier order would mean no shuffling.
    let mut g = GameState::new();
    let mut in_order = 0;
    for _ in 0..10 {
        let mut ids = Vec::new();
        for _ in 0..7 {
            g.spawn_random_piece();
            ids.push(tetrino::packet::piece_to_u8(g.active_piece.unwrap()));
        }
        let mut sorted = ids.clone();
        sorted.sort();
        assert_eq!(sorted, vec![1, 2, 3, 4, 5, 6, 7]);
        if ids == sorted {
            in_order += 1;
        }
    }
    assert!(in_order < 10);
}

#[test]
fn timer_reset_flag() {
    let mut g = GameState::new();
    assert!(!g.take_timer_reset());
    g.spawn_random_piece();
    assert!(g.take_timer_reset());
    assert!(!g.take_timer_reset());
}

fn filled(g: &GameState) -> usize {
    g.grid.iter().map(|row| row.iter().filter(|c| c.is_some()).count()).sum()
}

#[test]
fn lock_adds_four_cells_less_ten_per_line() {
    let mut g = with_piece(Piece::I);
    for c in 0..10 {
        if !(3..=6).contains(&c) {
            g.grid[22][c] = Some(Piece::Z);
        }
    }
    g.grid[21][0] = Some(Piece::S);
    g.grid[20][9] = Some(Piece::S);
    let before = filled(&g);
    g.hard_drop();
    assert_eq!(g.last_clear, 1);
    assert_eq!(filled(&g), before + 4 - 10);
    let mut g = with_piece(Piece::O);
    let before = filled(&g);
    g.hard_drop();
    assert_eq!(filled(&g), before + 4);
}

#[test]
fn hard_drop_matches_ghost_then_lock() {
    let mut a = with_piece(Piece::T);
    a.grid[15][4] = Some(Piece::I);
    let mut b = with_piece(Piece::T);
    b.grid[15][4] = Some(Piece::I);
    let gp = b.compute_ghost_pos().unwrap();
    b.drop_points += 2 * (gp.0 - b.active_pos.0) as u32;
    b.active_pos = gp;
    a.hard_drop();
    b.lock_piece();
    assert_eq!(a.grid, b.grid);
    assert_eq!(a.score, b.score);
    assert_eq!(gp, (13, 3));
}

#[test]
fn limits_guard() {
    let mut g = with_piece(Piece::O);
    assert!(g.far_from_limits());
    g.score = u64::MAX - 10;
    assert!(!g.far_from_limits());
    let mut g = with_piece(Piece::O);
    g.total_keys_pressed = u32::MAX;
    assert!(!g.far_from_limits());
}
