//! Core engine of a grid-based mine-detection puzzle: a square board of
//! cells, mine placement, neighbor counting, flood-fill reveal of safe
//! regions, and marking. All board logic is verified; rendering and the
//! interactive input loop live outside this crate and only call in.

pub mod board;
pub mod cells;
pub mod grid;

pub use board::BoardView;
pub use board::Game;
pub use cells::Cell;
pub use cells::CellState;
pub use cells::GameError;
pub use cells::Outcome;
