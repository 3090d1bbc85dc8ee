//! What two players exchange: the kinds of packet, the channel each goes on,
//! the plain packet bodies, the one-byte forms of pieces and cell colours, and
//! the framing of a serialized packet: two little-endian length bytes, then
//! the payload.
use crate::piece::{piece_color, piece_id, piece_of_id, Color, Piece};
use vstd::prelude::*;

verus! {

/// The channel a packet goes on.
#[derive(Debug, Clone, Copy, PartialEq, Eq, Structural)]
pub enum Reliability {
    Unreliable,
    Reliable,
}

/// The kinds of packet, in the order of their one-byte tags.
#[derive(Debug, Clone, Copy, PartialEq, Eq, Structural)]
pub enum PacketType {
    Input,
    StateSnapshot,
    GarbageSend,
    GarbageReceive,
    GameStart,
    GameOver,
    PieceLock,
    Chat,
    Ping,
    SyncRequest,
}

/// Inputs, snapshots and pings may be lost; everything else must arrive.
pub open spec fn delivery_of(t: PacketType) -> Reliability {
    match t {
        PacketType::Input | PacketType::StateSnapshot | PacketType::Ping => Reliability::Unreliable,
        _ => Reliability::Reliable,
    }
}

/// The channel a kind of packet goes on.
pub fn delivery(packet_type: PacketType) -> (r: Reliability)
    ensures
        r == delivery_of(packet_type),
{
    match packet_type {
        PacketType::Input | PacketType::StateSnapshot | PacketType::Ping => Reliability::Unreliable,
        PacketType::GarbageSend
        | PacketType::GarbageReceive
        | PacketType::GameStart
        | PacketType::GameOver
        | PacketType::PieceLock
        | PacketType::Chat
        | PacketType::SyncRequest => Reliability::Reliable,
    }
}

/// A key action of the sending player.
#[derive(Debug, Clone, Copy, PartialEq, Eq, Structural)]
pub enum InputAction {
    MoveLeft,
    MoveRight,
    SoftDropStart,
    SoftDropStop,
    HardDrop,
    RotateCW,
    RotateCCW,
    Rotate180,
    Hold,
}

/// One key action, numbered and stamped.
#[derive(Debug, Clone, Copy, PartialEq, Eq, Structural)]
pub struct InputPacket {
    pub sequence: u16,
    pub action: InputAction,
    pub timestamp_ms: u64,
}

/// Garbage rows sent to the other player.
#[derive(Debug, Clone, Copy, PartialEq, Eq, Structural)]
pub struct GarbagePacket {
    pub lines: u32,
    pub source_piece: u8,
    pub sender_id: u8,
}

/// The mode a game is played in.
#[derive(Debug, Clone, Copy, PartialEq, Eq, Structural)]
pub enum GameMode {
    Sprint40L,
    Blitz,
    Custom,
}

/// A piece that locked, and what its lock scored.
#[derive(Debug, Clone, Copy, PartialEq, Eq)]
pub struct PieceLockPacket {
    pub piece: u8,
    pub rotation: u8,
    pub pos: (i32, i32),
    pub lines_cleared: u32,
    pub score_earned: u64,
    pub is_tspin: bool,
    pub is_mini: bool,
    pub combo: i32,
    pub b2b: i32,
}

/// A chat message.
#[derive(Debug, Clone)]
pub struct ChatPacket {
    pub sender_id: u8,
    pub message: String,
}

/// A ping, to measure the round trip.
#[derive(Debug, Clone, Copy, PartialEq, Eq, Structural)]
pub struct PingPacket {
    pub ping_id: u32,
    pub sent_ms: u64,
}

// ---------------------------------------------------------------------------
// Framing
// ---------------------------------------------------------------------------

/// The frame of a payload: its length modulo 65536 as two little-endian
/// bytes, then the payload itself.
pub open spec fn frame_of(payload: Seq<u8>) -> Seq<u8> {
    let n = payload.len() % 65536;
    seq![(n % 256) as u8, (n / 256) as u8] + payload
}

/// The payload length that the first frame of `buf` announces, if the buffer
/// holds the whole frame: two length bytes and that many more.
pub open spec fn frame_len(buf: Seq<u8>) -> Option<nat> {
    if buf.len() < 2 {
        None
    } else {
        let n = (buf[0] as nat) + (buf[1] as nat) * 256;
        if buf.len() < 2 + n {
            None
        } else {
            Some(n)
        }
    }
}

/// Frames a serialized packet for the stream.
pub fn frame_payload(payload: &[u8]) -> (buf: Vec<u8>)
    ensures
        buf@ == frame_of(payload@),
{
    let n = payload.len() % 65536;
    let lo = (n % 256) as u8;
    let hi = (n / 256) as u8;
    let mut buf: Vec<u8> = Vec::new();
    buf.push(lo);
    buf.push(hi);
    let mut i: usize = 0;
    while i < payload.len()
        invariant
            0 <= i <= payload.len(),
            buf@ == seq![lo, hi] + payload@.take(i as int),
        decreases payload.len() - i,
    {
        buf.push(payload[i]);
        assert(payload@.take(i + 1) =~= payload@.take(i as int).push(payload@[i as int]));
        i += 1;
    }
    assert(payload@.take(payload.len() as int) =~= payload@);
    buf
}

/// The payload length of the first frame in `buf`, if the whole frame is
/// there; its payload is `buf[2..2 + len]`.
pub fn next_frame(buf: &[u8]) -> (r: Option<usize>)
    ensures
        match r {
            Some(n) => frame_len(buf@) == Some(n as nat),
            None => frame_len(buf@) is None,
        },
{
    if buf.len() < 2 {
        return None;
    }
    let n = (buf[0] as usize) + (buf[1] as usize) * 256;
    if buf.len() - 2 < n {
        return None;
    }
    Some(n)
}

/// A payload framed and followed by any bytes comes back whole from the
/// front of the buffer, as long as its length fits in the two length bytes.
pub proof fn lemma_frame_roundtrip(payload: Seq<u8>, more: Seq<u8>)
    requires
        payload.len() < 65536,
    ensures
        frame_len(frame_of(payload) + more) == Some(payload.len()),
        (frame_of(payload) + more).subrange(2, 2 + payload.len() as int) == payload,
        (frame_of(payload) + more).skip(2 + payload.len() as int) == more,
{
    let buf = frame_of(payload) + more;
    let n = payload.len();
    assert(buf[0] as nat + buf[1] as nat * 256 == n);
    assert(buf.subrange(2, 2 + n as int) =~= payload);
    assert(buf.skip(2 + n as int) =~= more);
}

// ---------------------------------------------------------------------------
// One-byte forms
// ---------------------------------------------------------------------------

/// The byte that stands for a piece: its identifier, 1 to 7.
pub fn piece_to_u8(piece: Piece) -> (b: u8)
    ensures
        b == piece_id(piece),
{
    match piece {
        Piece::I => 1,
        Piece::L => 2,
        Piece::J => 3,
        Piece::S => 4,
        Piece::Z => 5,
        Piece::T => 6,
        Piece::O => 7,
    }
}

/// The piece a byte stands for, if any.
pub fn piece_from_u8(id: u8) -> (p: Option<Piece>)
    ensures
        p == piece_of_id(id as int),
{
    match id {
        1 => Some(Piece::I),
        2 => Some(Piece::L),
        3 => Some(Piece::J),
        4 => Some(Piece::S),
        5 => Some(Piece::Z),
        6 => Some(Piece::T),
        7 => Some(Piece::O),
        _ => None,
    }
}

/// Reading back the byte of a piece gives the piece.
pub proof fn lemma_piece_byte_roundtrip(p: Piece)
    ensures
        piece_of_id(piece_id(p)) == Some(p),
        1 <= piece_id(p) <= 7,
{
}

/// The byte of a cell colour: 0 for black or any colour no piece has, else
/// the identifier of the piece with that colour.
pub open spec fn cell_of_color(c: Color) -> u8 {
    if c == piece_color(Piece::I) {
        1
    } else if c == piece_color(Piece::L) {
        2
    } else if c == piece_color(Piece::J) {
        3
    } else if c == piece_color(Piece::S) {
        4
    } else if c == piece_color(Piece::Z) {
        5
    } else if c == piece_color(Piece::T) {
        6
    } else if c == piece_color(Piece::O) {
        7
    } else {
        0
    }
}

/// The byte for a cell's colour.
pub fn color_to_cell(color: Color) -> (b: u8)
    ensures
        b == cell_of_color(color),
{
    if color.r == 0 && color.g == 0 && color.b == 0 {
        return 0;
    }
    if color.r == 0 && color.g == 240 && color.b == 240 {
        1
    } else if color.r == 240 && color.g == 160 && color.b == 0 {
        2
    } else if color.r == 0 && color.g == 0 && color.b == 240 {
        3
    } else if color.r == 0 && color.g == 240 && color.b == 0 {
        4
    } else if color.r == 240 && color.g == 0 && color.b == 0 {
        5
    } else if color.r == 160 && color.g == 0 && color.b == 240 {
        6
    } else if color.r == 240 && color.g == 240 && color.b == 0 {
        7
    } else {
        0
    }
}

/// The colour a cell byte stands for: none for 0 or any byte above 7.
pub fn cell_to_color(cell: u8) -> (c: Option<Color>)
    ensures
        c == (match piece_of_id(cell as int) {
            Some(p) => Some(piece_color(p)),
            None => None,
        }),
{
    match cell {
        1 => Some(Color { r: 0, g: 240, b: 240 }),
        2 => Some(Color { r: 240, g: 160, b: 0 }),
        3 => Some(Color { r: 0, g: 0, b: 240 }),
        4 => Some(Color { r: 0, g: 240, b: 0 }),
        5 => Some(Color { r: 240, g: 0, b: 0 }),
        6 => Some(Color { r: 160, g: 0, b: 240 }),
        7 => Some(Color { r: 240, g: 240, b: 0 }),
        _ => None,
    }
}

/// A piece's colour turns into its identifier and back.
pub proof fn lemma_cell_color_roundtrip(p: Piece)
    ensures
        cell_of_color(piece_color(p)) == piece_id(p),
        piece_of_id(cell_of_color(piece_color(p)) as int) == Some(p),
{
}

} // verus!
