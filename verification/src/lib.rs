//! A rules engine for Othello/Reversi on the fixed 8 x 8 board: move
//! validation, piece flipping, turn alternation, end-of-game detection and
//! scoring. The `rules` module gives the mathematical model of the game and
//! the `game` module the executable engine, verified against that model.

pub mod game;
pub mod rules;

pub use game::Coordinate;
pub use game::Direction;
pub use game::Game;
pub use game::MoveError;
pub use game::Player;
