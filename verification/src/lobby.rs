//! The host's lobby: the rules switched on for the game and a fresh room
//! code.
use rand::Rng;
use vstd::prelude::*;

verus! {

/// What the lobby asks for.
#[derive(Debug, Clone, Copy, PartialEq, Eq, Structural)]
pub enum LobbyAction {
    Nothing,
    Back,
    Start,
}

/// `rand::Rng::gen_range` on `0..n` with the thread's generator: an index
/// below `n`, drawn at random. It panics on an empty range, which `n > 0`
/// rules out.
#[verifier::external_body]
fn random_below(n: usize) -> (i: usize)
    requires
        n > 0,
    ensures
        i < n,
{
    rand::thread_rng().gen_range(0..n)
}

/// The characters a room code is drawn from: capital letters without I and
/// O, and the digits 2 to 9.
pub open spec fn room_code_alphabet() -> Seq<char> {
    seq![
        'A', 'B', 'C', 'D', 'E', 'F', 'G', 'H', 'J', 'K', 'L', 'M', 'N', 'P', 'Q', 'R', 'S',
        'T', 'U', 'V', 'W', 'X', 'Y', 'Z', '2', '3', '4', '5', '6', '7', '8', '9',
    ]
}

/// The room code spelled by alphabet positions: the character at each
/// position, in order.
pub fn room_code_from_indices(idx: &[usize]) -> (s: String)
    requires
        forall|i: int| 0 <= i < idx.len() ==> idx[i] < 32,
    ensures
        s@.len() == idx.len(),
        forall|i: int| 0 <= i < idx.len() ==> s@[i] == room_code_alphabet()[idx[i] as int],
{
    let alphabet = [
        'A', 'B', 'C', 'D', 'E', 'F', 'G', 'H', 'J', 'K', 'L', 'M', 'N', 'P', 'Q', 'R', 'S',
        'T', 'U', 'V', 'W', 'X', 'Y', 'Z', '2', '3', '4', '5', '6', '7', '8', '9',
    ];
    assert(alphabet@ =~= room_code_alphabet());
    let mut s = String::new();
    let mut k: usize = 0;
    while k < idx.len()
        invariant
            0 <= k <= idx.len(),
            alphabet@ == room_code_alphabet(),
            forall|i: int| 0 <= i < idx.len() ==> idx[i] < 32,
            s@.len() == k,
            forall|i: int| 0 <= i < k ==> s@[i] == room_code_alphabet()[idx[i] as int],
        decreases idx.len() - k,
    {
        let c = alphabet[idx[k]];
        crate::text::push_char(&mut s, c);
        k += 1;
    }
    s
}

/// A fresh room code: four alphabet positions drawn at random, spelled out.
pub fn generate_room_code() -> (s: String)
    ensures
        s@.len() == 4,
        forall|i: int| 0 <= i < 4 ==> room_code_alphabet().contains(#[trigger] s@[i]),
{
    let mut idx: Vec<usize> = Vec::new();
    while idx.len() < 4
        invariant
            idx.len() <= 4,
            forall|i: int| 0 <= i < idx.len() ==> idx[i] < 32,
        decreases 4 - idx.len(),
    {
        idx.push(random_below(32));
    }
    let s = room_code_from_indices(idx.as_slice());
    assert forall|i: int| 0 <= i < 4 implies room_code_alphabet().contains(#[trigger] s@[i]) by {
        assert(room_code_alphabet()[idx[i] as int] == s@[i]);
    }
    s
}

} // verus!
