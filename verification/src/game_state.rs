//! The mode of the game.

use vstd::prelude::*;

verus! {

/// Whether the game runs in turns, and whether what is in sight has to be
/// computed anew.
#[derive(Copy, Clone, Debug, PartialEq, Eq, Structural)]
pub struct GameState {
    pub is_turn_based: bool,
    pub fov_needs_update: bool,
}

impl Default for GameState {
    fn default() -> (s: GameState)
        ensures
            s == GameState::initial(),
    {
        GameState { is_turn_based: false, fov_needs_update: true }
    }
}

impl GameState {
    /// The state at the start of a game: real time, sight not yet computed.
    pub open spec fn initial() -> GameState {
        GameState { is_turn_based: false, fov_needs_update: true }
    }

    /// Puts the state back to that of the start of a game.
    pub fn reset(&mut self)
        ensures
            *final(self) == GameState::initial(),
    {
        *self = GameState { is_turn_based: false, fov_needs_update: true };
    }
}

} // verus!
