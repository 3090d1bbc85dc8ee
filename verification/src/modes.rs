//! The game modes: when a game ends and the figure shown for it.
pub mod blitz;
pub mod custom;
pub mod sprint40l;
pub mod versus;
