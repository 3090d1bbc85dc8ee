//! Blitz: score as much as possible in two minutes.
use crate::game::GameState;
use crate::text::{decimal, decimal_string};
use vstd::prelude::*;

verus! {

/// How long a blitz game lasts, in milliseconds.
pub const DURATION_MS: u128 = 120000;

/// The game is over once two minutes of play have passed; `elapsed_ms` is
/// the time played so far, pauses left out.
pub fn check_game_over(elapsed_ms: u128) -> (over: bool)
    ensures
        over == (elapsed_ms >= DURATION_MS),
{
    elapsed_ms >= DURATION_MS
}

/// The score, in decimal.
pub fn primary_stat(game: &GameState) -> (s: String)
    ensures
        s@ == decimal(game.score as nat),
{
    decimal_string(game.score)
}

} // verus!
