//! The engine of a short memory-training game: a randomly generated
//! arrangement of black and white stones on a square board is shown for a
//! limited time, the player rebuilds it from memory, and the reproduction is
//! scored. This crate holds the game-session engine — board generation,
//! placement rules, scoring, cursor-to-cell mapping and the round state
//! machine — with machine-checked contracts; drawing and input collection
//! belong to a surrounding shell.

pub mod cell;
pub mod generate;
pub mod grid;
pub mod hit;
pub mod score;
pub mod session;
pub mod toggle;

pub use cell::Cell;
pub use grid::Grid;
pub use score::Score;
pub use session::{RoundState, Session, SessionConfig};
