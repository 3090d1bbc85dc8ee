//! The rules of a falling-block puzzle game: pieces and their rotations, the
//! playfield and its scoring, finesse tables, multiplayer garbage, room codes,
//! packet framing and key bindings.
pub mod piece;
pub mod finesse;
pub mod game;
pub mod text;
pub mod network;
pub mod modes;
pub mod packet;
pub mod settings;
pub mod menu;
pub mod graphics;
pub mod profile;
pub mod join;
pub mod lobby;
pub mod input;
