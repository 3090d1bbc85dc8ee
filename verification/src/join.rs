//! The join screen: a room code typed in, and what joining with it gives.
use crate::network::{decode_result, decode_room_code, is_whitespace, trim_end, trim_start};
use crate::text::chars_of;
use vstd::prelude::*;

verus! {

/// The join screen's state: the code typed so far, and the error of the
/// last attempt, if it failed.
#[derive(Debug, Clone)]
pub struct JoinState {
    pub code: String,
    pub error_message: Option<String>,
}

impl Default for JoinState {
    fn default() -> (s: Self)
        ensures
            s.code@ == Seq::<char>::empty(),
            s.error_message is None,
    {
        JoinState { code: String::new(), error_message: None }
    }
}

/// What the join screen asks for: nothing, going back, or joining the host
/// at an address with a room code.
#[derive(Debug, Clone)]
pub enum JoinAction {
    Nothing,
    Back,
    Join(String, String),
}

proof fn lemma_trim_end_keeps_first(t: Seq<char>)
    requires
        t.len() > 0,
        !is_whitespace(t[0]),
    ensures
        trim_end(t).len() > 0,
    decreases t.len(),
{
    if is_whitespace(t.last()) {
        assert(t.len() > 1);
        assert(t.drop_last()[0] == t[0]);
        lemma_trim_end_keeps_first(t.drop_last());
    }
}

fn is_blank(s: &str) -> (b: bool)
    ensures
        b == (trim_end(trim_start(s@)).len() == 0),
{
    let cs = chars_of(s);
    let mut i: usize = 0;
    assert(cs@.skip(0) =~= cs@);
    while i < cs.len()
        invariant
            0 <= i <= cs.len(),
            cs@ == s@,
            forall|j: int| 0 <= j < i ==> is_whitespace(#[trigger] cs@[j]),
            trim_start(s@) == trim_start(cs@.skip(i as int)),
        decreases cs.len() - i,
    {
        assert(cs@.skip(i as int).drop_first() =~= cs@.skip(i + 1));
        if !crate::network::is_whitespace_char(cs[i]) {
            assert(trim_start(s@) == cs@.skip(i as int));
            assert(trim_start(s@).len() > 0);
            assert(!is_whitespace(trim_start(s@)[0]));
            proof {
                lemma_trim_end_keeps_first(trim_start(s@));
            }
            assert(trim_end(trim_start(s@)).len() > 0);
            return false;
        }
        i += 1;
    }
    assert(cs@.skip(cs.len() as int).len() == 0);
    true
}

impl JoinState {
    /// Joining with the typed code: with nothing but white space typed,
    /// nothing happens; else the code is decoded, and gives the address and
    /// room code to join, or the error to show.
    pub fn submit(&mut self) -> (a: JoinAction)
        ensures
            final(self).code == old(self).code,
            trim_end(trim_start(old(self).code@)).len() == 0 ==> a is Nothing
                && final(self).error_message == old(self).error_message,
            trim_end(trim_start(old(self).code@)).len() > 0 ==> match decode_result(
                old(self).code@,
            ) {
                Ok((ip, room)) => final(self).error_message == old(self).error_message && (
                a matches JoinAction::Join(i, r) && i@ == ip && r@ == room),
                Err(e) => a is Nothing && (final(self).error_message matches Some(m) && m@ == e),
            },
    {
        if is_blank(self.code.as_str()) {
            return JoinAction::Nothing;
        }
        match decode_room_code(self.code.as_str()) {
            Ok((ip, room_code)) => JoinAction::Join(ip, room_code),
            Err(e) => {
                self.error_message = Some(e);
                JoinAction::Nothing
            },
        }
    }
}

} // verus!
