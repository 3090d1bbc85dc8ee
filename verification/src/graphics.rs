//! The pause menu's buttons, by their place in the list.
use vstd::prelude::*;

verus! {

/// What the pause menu asks for.
#[derive(Debug, Clone, Copy, PartialEq, Eq, Structural)]
pub enum PauseAction {
    Nothing,
    Continue,
    Retry,
    ExitToMenu,
}

/// The action of the pause button under the pointer, given its place in the
/// list (Continue, Retry, Exit to Menu); none when no button is under it.
pub fn pause_action_for(index: Option<usize>) -> (a: PauseAction)
    ensures
        a == (match index {
            Some(0) => PauseAction::Continue,
            Some(1) => PauseAction::Retry,
            Some(2) => PauseAction::ExitToMenu,
            _ => PauseAction::Nothing,
        }),
{
    match index {
        Some(0) => PauseAction::Continue,
        Some(1) => PauseAction::Retry,
        Some(2) => PauseAction::ExitToMenu,
        _ => PauseAction::Nothing,
    }
}

} // verus!
