use vstd::prelude::*;

verus! {

/// What can go wrong while setting up or playing a game.
#[derive(Debug, PartialEq, Eq)]
pub enum GameError {
    /// A piece was dropped into a column that is out of range or full.
    InvalidColumn,
    /// The players and their colors are not in one-to-one correspondence.
    InvalidConfiguration,
    /// `start` or `resume` was called out of the lifecycle's order.
    LifecycleViolation,
    /// A color's label does not fit in the configured column width.
    RenderingError,
    /// A player gave up instead of choosing a column; the message is its own.
    PlayerFailure(String),
}

} // verus!
