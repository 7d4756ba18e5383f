use vstd::prelude::*;
use crate::game_state::GameState;
use crate::health::Health;

verus! {

/// Hit points of a new base.
pub const BASE_HEALTH: i32 = 20;

/// Decides what becomes of the game after the health of the base has
/// changed: with no hit points left the game is over, else it goes on in
/// the stage it is in.
pub fn base_destroy(health: &Health) -> (next: Option<GameState>)
    ensures
        next == if health.depleted() {
            Some(GameState::GameOver)
        } else {
            None
        },
{
    if health.current <= 0 {
        Some(GameState::GameOver)
    } else {
        None
    }
}

} // verus!
