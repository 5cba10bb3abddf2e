//! Rules and state transitions for a Tetris-like falling-blocks game.
//!
//! The library owns the board, the active piece, level progression and
//! scoring; the platform owns input, timing, output and randomness, which it
//! hands in through [`RandomSource`] and receives through [`TetrisEvents`].

use vstd::prelude::*;

pub mod board;
pub mod color;
pub mod events;
pub mod features;
pub mod game;
pub mod level;
pub mod piece;
pub mod spawn;

pub use color::{Block, Rgb8};
pub use events::{Lcg32, NoopEvents, RandomSource, TetrisEvents};
pub use features::{Feature, FeatureFlags};
pub use game::{CellView, Game, GameView, Layer, MoveSuggestion, TickResult};
pub use level::LevelState;
pub use piece::{Piece, PieceKind, Rotation};

verus! {

/// Maximum number of cells a Tetris-like piece can occupy.
pub const MAX_PIECE_CELLS: usize = 8;

} // verus!
