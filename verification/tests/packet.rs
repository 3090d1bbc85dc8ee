use tetrino::packet::{
    color_to_cell, cell_to_color, delivery, frame_payload, next_frame, piece_from_u8, piece_to_u8,
    PacketType, Reliability,
};
use tetrino::piece::{Color, Piece};

#[test]
fn framing_prefixes_little_endian_length() {
    let f = frame_payload(&[7, 8, 9]);
    assert_eq!(f, vec![3, 0, 7, 8, 9]);
    let big = vec![1u8; 300];
    let f = frame_payload(&big);
    assert_eq!(f[0], 44);
    assert_eq!(f[1], 1);
    assert_eq!(f.len(), 302);
}

#[test]
fn framing_length_wraps_past_u16() {
    let big = vec![0u8; 65536 + 5];
    let f = frame_payload(&big);
    assert_eq!(f[0], 5);
    assert_eq!(f[1], 0);
    assert_eq!(f.len(), 65536 + 7);
}

#[test]
fn next_frame_needs_whole_frame() {
    assert_eq!(next_frame(&[]), None);
    assert_eq!(next_frame(&[3]), None);
    assert_eq!(next_frame(&[3, 0, 1, 2]), None);
    assert_eq!(next_frame(&[3, 0, 1, 2, 3]), Some(3));
    assert_eq!(next_frame(&[0, 0]), Some(0));
}

#[test]
fn frames_read_back_in_order() {
    let mut buf = frame_payload(&[10, 20]);
    buf.extend_from_slice(&frame_payload(&[30, 40, 50]));
    let n = next_frame(&buf).unwrap();
    assert_eq!(&buf[2..2 + n], &[10, 20]);
    let rest = &buf[2 + n..];
    let m = next_frame(rest).unwrap();
    assert_eq!(&rest[2..2 + m], &[30, 40, 50]);
    assert_eq!(rest.len(), 2 + m);
}

#[test]
fn delivery_channels() {
    assert_eq!(delivery(PacketType::Input), Reliability::Unreliable);
    assert_eq!(delivery(PacketType::StateSnapshot), Reliability::Unreliable);
    assert_eq!(delivery(PacketType::Ping), Reliability::Unreliable);
    assert_eq!(delivery(PacketType::GarbageSend), Reliability::Reliable);
    assert_eq!(delivery(PacketType::GarbageReceive), Reliability::Reliable);
    assert_eq!(delivery(PacketType::GameStart), Reliability::Reliable);
    assert_eq!(delivery(PacketType::GameOver), Reliability::Reliable);
    assert_eq!(delivery(PacketType::PieceLock), Reliability::Reliable);
    assert_eq!(delivery(PacketType::Chat), Reliability::Reliable);
    assert_eq!(delivery(PacketType::SyncRequest), Reliability::Reliable);
}

#[test]
fn piece_bytes_roundtrip() {
    let all = [Piece::I, Piece::L, Piece::J, Piece::S, Piece::Z, Piece::T, Piece::O];
    for (i, p) in all.iter().enumerate() {
        assert_eq!(piece_to_u8(*p), (i + 1) as u8);
        assert_eq!(piece_from_u8(piece_to_u8(*p)), Some(*p));
    }
    assert_eq!(piece_from_u8(0), None);
    assert_eq!(piece_from_u8(8), None);
    assert_eq!(piece_to_u8(Piece::T), 6);
}

#[test]
fn cell_colours() {
    assert_eq!(color_to_cell(Color { r: 0, g: 0, b: 0 }), 0);
    assert_eq!(color_to_cell(Color { r: 160, g: 0, b: 240 }), 6);
    assert_eq!(color_to_cell(Color { r: 1, g: 2, b: 3 }), 0);
    assert_eq!(cell_to_color(0), None);
    assert_eq!(cell_to_color(9), None);
    assert_eq!(cell_to_color(1), Some(Color { r: 0, g: 240, b: 240 }));
    for p in [Piece::I, Piece::L, Piece::J, Piece::S, Piece::Z, Piece::T, Piece::O] {
        assert_eq!(cell_to_color(color_to_cell(p.color())), Some(p.color()));
        assert_eq!(color_to_cell(p.color()), piece_to_u8(p));
    }
}
