//! The profile screen.
use vstd::prelude::*;

verus! {

/// What the profile screen asks for.
#[derive(Debug, Clone, Copy, PartialEq, Eq, Structural)]
pub enum ProfileAction {
    Nothing,
    Back,
}

} // verus!
