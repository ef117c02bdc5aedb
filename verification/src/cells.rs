//! Cell records: the per-cell state machine, game outcomes, errors, and the
//! glyph each cell shows when the board is rendered.

use vstd::prelude::*;

verus! {

/// The visible face of one square: still covered, uncovered with the number
/// of mines in its neighborhood, or flagged by the player.
#[derive(Clone, Copy, Debug, PartialEq, Eq, Structural)]
pub enum CellState {
    Hidden,
    Visible(usize),
    Marker,
}

/// One square of the grid. `is_mine` is fixed at board creation; only
/// `state` changes afterwards.
#[derive(Clone, Copy, Debug, PartialEq, Eq, Structural)]
pub struct Cell {
    pub state: CellState,
    pub is_mine: bool,
}

/// The result of revealing a cell: the game goes on, or a mine was hit.
#[derive(Clone, Copy, Debug, PartialEq, Eq, Structural)]
pub enum Outcome {
    Continue,
    Loss,
}

/// Errors the engine reports: a bad constructor argument, or a coordinate
/// outside the grid.
#[derive(Clone, Copy, Debug, PartialEq, Eq, Structural)]
pub enum GameError {
    InvalidConfiguration,
    OutOfBounds,
}

/// The digit glyph for a revealed cell with `n` neighboring mines,
/// 1 <= n <= 8.
pub open spec fn digit_glyph(n: usize) -> char {
    if n == 1 {
        '1'
    } else if n == 2 {
        '2'
    } else if n == 3 {
        '3'
    } else if n == 4 {
        '4'
    } else if n == 5 {
        '5'
    } else if n == 6 {
        '6'
    } else if n == 7 {
        '7'
    } else {
        '8'
    }
}

/// The glyph a cell shows: '*' for a mine when mines are being shown,
/// otherwise 'X' for a hidden cell, '?' for a marked one, and a blank or a
/// digit for a revealed one.
pub open spec fn spec_glyph(c: Cell, show_mines: bool) -> char {
    if show_mines && c.is_mine {
        '*'
    } else {
        match c.state {
            CellState::Hidden => 'X',
            CellState::Marker => '?',
            CellState::Visible(n) => if n == 0 {
                ' '
            } else {
                digit_glyph(n)
            },
        }
    }
}

/// What marking does to a cell's state: a hidden cell becomes marked, a
/// marked cell becomes hidden again, a revealed cell is left alone.
pub open spec fn spec_toggle(s: CellState) -> CellState {
    match s {
        CellState::Hidden => CellState::Marker,
        CellState::Marker => CellState::Hidden,
        CellState::Visible(n) => CellState::Visible(n),
    }
}

/// A cell the player has just marked shows the marker glyph: whenever a
/// cell's state is `Marker` and mines are not being shown, its glyph is '?'.
pub proof fn lemma_marked_cell_glyph(c: Cell)
    requires
        c.state is Marker,
    ensures
        spec_glyph(c, false) == '?',
{
}

} // verus!
