use vstd::prelude::*;

verus! {

/// The stage that a game is in.
#[derive(Debug, Clone, Copy, PartialEq, Eq, Hash, Structural)]
pub enum GameState {
    LoadingMap,
    Playing,
    Paused,
    GameOver,
}

} // verus!
