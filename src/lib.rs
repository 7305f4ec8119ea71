//! A connect-N board game engine: a gravity-fed grid with run detection
//! along rows, columns and both diagonal directions, and a turn-based game
//! driven by interchangeable players.

pub mod announce;
pub mod board;
pub mod color;
pub mod error;
pub mod game;
pub mod player;
pub mod render;

pub use announce::{announcement, join_names};
pub use board::{Board, Line};
pub use color::Color;
pub use error::GameError;
pub use game::{Game, Outcome, AMOUNT_TO_WIN};
pub use player::{AIPlayer, ChoiceError, Player, TerminalPlayer};
