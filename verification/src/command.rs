use vstd::prelude::*;

verus! {

/// What the engine can be told: the passing of time, and what the player
/// asks for.
#[derive(Clone, Copy, Debug, PartialEq, Eq, Structural)]
pub enum Command {
    /// One tick of the timer.
    Tick,
    /// Move the piece one step to the left.
    MoveLeft,
    /// Move the piece one step to the right.
    MoveRight,
    /// Move the piece to the left as far as it goes.
    MoveLeftHard,
    /// Move the piece to the right as far as it goes.
    MoveRightHard,
    /// Turn the piece a quarter turn clockwise.
    RotateCw,
    /// Turn the piece a quarter turn counter-clockwise.
    RotateCcw,
    /// Turn the piece a half turn.
    Flip,
    /// Let the piece fall fast from now on.
    SoftDrop,
    /// Let the piece fall as far as it can, and lock it.
    HardDrop,
    /// Pause the game, or resume it.
    PauseToggle,
    /// Start a new game.
    NewGame,
}

/// What the host is to do after a command.
#[derive(Clone, Copy, Debug, PartialEq, Eq, Structural)]
pub enum Reaction {
    /// Nothing more: the command has been dealt with.
    Consumed,
    /// Tell the player that the game is paused.
    Paused,
    /// Tell the player that the game is over.
    GameOver,
}

} // verus!
