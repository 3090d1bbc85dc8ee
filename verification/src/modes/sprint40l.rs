//! Sprint: clear forty lines as fast as possible.
use crate::game::GameState;
use crate::text::{decimal, push_char, push_decimal};
use vstd::prelude::*;

verus! {

/// The game is over once forty lines are cleared.
pub fn check_game_over(game: &GameState) -> (over: bool)
    ensures
        over == (game.total_lines >= 40),
{
    game.total_lines >= 40
}

/// The decimal form of `n` padded with zeros on the left to `width` digits.
pub open spec fn padded(n: nat, width: nat) -> Seq<char> {
    let d = decimal(n);
    if d.len() < width {
        Seq::new((width - d.len()) as nat, |i: int| '0') + d
    } else {
        d
    }
}

/// The time as minutes, seconds and milliseconds: `mm:ss.mmm`.
pub open spec fn time_text(ms: nat) -> Seq<char> {
    padded(ms / 60000, 2) + seq![':'] + padded((ms % 60000) / 1000, 2) + seq!['.'] + padded(
        ms % 1000,
        3,
    )
}

proof fn lemma_decimal_len(n: nat)
    ensures
        n < 10 ==> decimal(n).len() == 1,
        10 <= n < 100 ==> decimal(n).len() == 2,
        n >= 100 ==> decimal(n).len() >= 3,
    decreases n,
{
    if n >= 10 {
        lemma_decimal_len(n / 10);
    }
}

fn push_padded(s: &mut String, n: u128, width: u128)
    requires
        width == 2 || width == 3,
    ensures
        final(s)@ == old(s)@ + padded(n as nat, width as nat),
{
    proof {
        lemma_decimal_len(n as nat);
    }
    let ghost d = decimal(n as nat);
    if width == 3 && n < 10 {
        push_char(s, '0');
        push_char(s, '0');
        assert(Seq::new(2, |i: int| '0') =~= seq!['0', '0']);
    } else if n < 10 || (width == 3 && n < 100) {
        push_char(s, '0');
        assert(Seq::new(1, |i: int| '0') =~= seq!['0']);
    }
    push_decimal(s, n);
    assert(final(s)@ =~= old(s)@ + padded(n as nat, width as nat));
}

/// The time played, `elapsed_ms` milliseconds with pauses left out, as
/// `mm:ss.mmm`.
pub fn primary_stat(elapsed_ms: u128) -> (s: String)
    ensures
        s@ == time_text(elapsed_ms as nat),
{
    let mins = elapsed_ms / 60000;
    let secs = (elapsed_ms % 60000) / 1000;
    let millis = elapsed_ms % 1000;
    let mut s = String::new();
    push_padded(&mut s, mins, 2);
    push_char(&mut s, ':');
    push_padded(&mut s, secs, 2);
    push_char(&mut s, '.');
    push_padded(&mut s, millis, 3);
    assert(s@ =~= time_text(elapsed_ms as nat));
    s
}

} // verus!
