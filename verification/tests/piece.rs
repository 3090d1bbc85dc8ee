use tetrino::finesse::lookup_finesse;
use tetrino::piece::{Color, Piece};

const ALL: [Piece; 7] = [Piece::I, Piece::L, Piece::J, Piece::S, Piece::Z, Piece::T, Piece::O];

#[test]
fn pieces_by_id() {
    for (i, p) in ALL.iter().enumerate() {
        assert_eq!(Piece::from_id(i as i32 + 1), Some(*p));
    }
    assert_eq!(Piece::from_id(0), None);
    assert_eq!(Piece::from_id(8), None);
    assert_eq!(Piece::from_id(-1), None);
}

#[test]
fn piece_colours_and_shapes() {
    assert_eq!(Piece::T.color(), Color { r: 160, g: 0, b: 240 });
    assert_eq!(Piece::I.spawn_cells(), [(1, 0), (1, 1), (1, 2), (1, 3)]);
    assert_eq!(Piece::O.spawn_cells(), [(0, 1), (0, 2), (1, 1), (1, 2)]);
}

#[test]
fn turns_compose() {
    for p in ALL {
        let c = p.spawn_cells();
        assert_eq!(Piece::rotate_ccw(&Piece::rotate_cw(&c, p), p), c);
        assert_eq!(Piece::rotate_cw(&Piece::rotate_ccw(&c, p), p), c);
        assert_eq!(Piece::rotate_cw(&Piece::rotate_cw(&c, p), p), Piece::flip_180(&c, p));
        assert_eq!(Piece::flip_180(&Piece::flip_180(&c, p), p), c);
    }
    // A T turned clockwise points right.
    assert_eq!(
        Piece::rotate_cw(&Piece::T.spawn_cells(), Piece::T),
        [(1, 2), (0, 1), (1, 1), (2, 1)]
    );
}

#[test]
fn kicks_start_in_place() {
    for p in ALL {
        for from in 0..4u8 {
            for to in [(from + 1) % 4, (from + 3) % 4] {
                assert_eq!(Piece::get_kick_offsets(p, from, to)[0], (0, 0));
            }
        }
    }
    assert_eq!(
        Piece::get_kick_offsets(Piece::T, 0, 1),
        [(0, 0), (-1, 0), (-1, 1), (0, -2), (-1, -2)]
    );
    assert_eq!(
        Piece::get_kick_offsets(Piece::I, 0, 1),
        [(0, 0), (-2, 0), (1, 0), (-2, -1), (1, 2)]
    );
}

#[test]
fn finesse_tables() {
    for p in ALL {
        // The spawn position and orientation need no input.
        assert_eq!(lookup_finesse(p, 3, 0), Some(0));
        assert_eq!(lookup_finesse(p, 3, 4), Some(0));
    }
    assert_eq!(lookup_finesse(Piece::O, 8, 0), None);
    assert_eq!(lookup_finesse(Piece::O, 2, 1), lookup_finesse(Piece::O, 2, 0));
}
