//! Versus: two players, each sending garbage rows to the other.
use crate::game::GameState;
use crate::text::{decimal, decimal_string};
use vstd::prelude::*;

verus! {

/// The garbage a clear sends before bonuses: a full T-spin sends two rows per
/// line; other clears, mini T-spins among them, send 0, 1, 2 or 4 rows for
/// one to four lines.
pub open spec fn garbage_base(lines_cleared: u32, is_tspin: bool, is_mini: bool) -> int {
    if is_tspin && !is_mini {
        if lines_cleared == 1 {
            2
        } else if lines_cleared == 2 {
            4
        } else if lines_cleared == 3 {
            6
        } else {
            0
        }
    } else {
        if lines_cleared == 2 {
            1
        } else if lines_cleared == 3 {
            2
        } else if lines_cleared == 4 {
            4
        } else {
            0
        }
    }
}

/// All the garbage a clear sends: the base, one more for a back-to-back
/// four-line clear or T-spin clear, half the combo up to five, and ten for a
/// perfect clear.
pub open spec fn garbage(
    lines_cleared: u32,
    is_tspin: bool,
    is_mini: bool,
    b2b: i32,
    combo: i32,
    perfect_clear: bool,
) -> int {
    let b2b_bonus = if b2b > 1 && lines_cleared > 0 && (lines_cleared == 4 || is_tspin) {
        1int
    } else {
        0
    };
    let combo_bonus = if combo >= 2 {
        if combo / 2 < 5 {
            (combo / 2) as int
        } else {
            5
        }
    } else {
        0
    };
    let pc_bonus = if perfect_clear {
        10int
    } else {
        0
    };
    garbage_base(lines_cleared, is_tspin, is_mini) + b2b_bonus + combo_bonus + pc_bonus
}

/// The number of garbage rows a clear sends to the opponent.
pub fn calculate_garbage(
    lines_cleared: u32,
    is_tspin: bool,
    is_mini: bool,
    b2b: i32,
    combo: i32,
    perfect_clear: bool,
) -> (g: u32)
    ensures
        g == garbage(lines_cleared, is_tspin, is_mini, b2b, combo, perfect_clear),
        g <= 22,
{
    let base: u32 = if is_tspin && !is_mini {
        match lines_cleared {
            1 => 2,
            2 => 4,
            3 => 6,
            _ => 0,
        }
    } else {
        match lines_cleared {
            1 => 0,
            2 => 1,
            3 => 2,
            4 => 4,
            _ => 0,
        }
    };
    let b2b_bonus: u32 = if b2b > 1 && lines_cleared > 0 && (lines_cleared == 4 || is_tspin) {
        1
    } else {
        0
    };
    let combo_bonus: u32 = if combo >= 2 {
        let half = combo / 2;
        if half < 5 {
            half as u32
        } else {
            5
        }
    } else {
        0
    };
    let pc_bonus: u32 = if perfect_clear {
        10
    } else {
        0
    };
    base + b2b_bonus + combo_bonus + pc_bonus
}

/// A versus game does not end by itself.
pub fn check_game_over(_game: &GameState) -> (over: bool)
    ensures
        !over,
{
    false
}

/// The score, in decimal.
pub fn primary_stat(game: &GameState) -> (s: String)
    ensures
        s@ == decimal(game.score as nat),
{
    decimal_string(game.score)
}

} // verus!
