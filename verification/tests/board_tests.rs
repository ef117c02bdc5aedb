use minesweeper::CellState;
use minesweeper::Game;
use minesweeper::GameError;
use minesweeper::Outcome;

fn fresh(gridsize: usize, mines: Vec<usize>) -> Game {
    Game::with_mines(gridsize, &mines).unwrap()
}

#[test]
fn new_board_all_hidden_and_zero_moves() {
    let g = fresh(3, vec![4]);
    for i in 0..3 {
        for j in 0..3 {
            assert_eq!(g.cell_state(i, j).unwrap(), CellState::Hidden);
            assert_eq!(g.cell_glyph(i, j).unwrap(), 'X');
        }
    }
    assert_eq!(g.move_count(), 0);
    assert_eq!(g.gridsize(), 3);
}

#[test]
fn random_board_all_hidden_and_zero_moves() {
    let g = Game::new(4, 5).unwrap();
    for i in 0..4 {
        for j in 0..4 {
            assert_eq!(g.cell_state(i, j).unwrap(), CellState::Hidden);
        }
    }
    assert_eq!(g.move_count(), 0);
}

#[test]
fn reveal_nonmine_shows_neighbor_count() {
    // 3x3 board, the only mine in the center (1,1): revealing the corner
    // (0,0) shows one diagonal mine and floods no further.
    let mut g = fresh(3, vec![4]);
    assert_eq!(g.select_cell(0, 0).unwrap(), Outcome::Continue);
    assert_eq!(g.cell_state(0, 0).unwrap(), CellState::Visible(1));
    assert_eq!(g.cell_glyph(0, 0).unwrap(), '1');
    for i in 0..3 {
        for j in 0..3 {
            if (i, j) != (0, 0) {
                assert_eq!(g.cell_state(i, j).unwrap(), CellState::Hidden);
            }
        }
    }
}

#[test]
fn reveal_mine_loses_and_keeps_cell_hidden() {
    let mut g = fresh(3, vec![4]);
    assert_eq!(g.select_cell(1, 1).unwrap(), Outcome::Loss);
    assert_eq!(g.cell_state(1, 1).unwrap(), CellState::Hidden);
    for i in 0..3 {
        for j in 0..3 {
            assert_eq!(g.cell_state(i, j).unwrap(), CellState::Hidden);
        }
    }
    assert_eq!(g.move_count(), 1);
}

#[test]
fn flood_fills_whole_board_without_mines() {
    let mut g = fresh(3, vec![]);
    assert_eq!(g.select_cell(0, 0).unwrap(), Outcome::Continue);
    for i in 0..3 {
        for j in 0..3 {
            assert_eq!(g.cell_state(i, j).unwrap(), CellState::Visible(0));
            assert_eq!(g.cell_glyph(i, j).unwrap(), ' ');
        }
    }
    assert_eq!(g.move_count(), 1);
}

#[test]
fn single_cell_board_reveals_clean() {
    let mut g = fresh(1, vec![]);
    assert_eq!(g.select_cell(0, 0).unwrap(), Outcome::Continue);
    assert_eq!(g.cell_state(0, 0).unwrap(), CellState::Visible(0));
    assert_eq!(g.cell_glyph(0, 0).unwrap(), ' ');
}

#[test]
fn flood_stops_at_positive_counts() {
    // 4x4 board with one mine in the far corner (3,3): flooding from
    // (0,0) reveals everything, the cells near the mine with their counts.
    let mut g = fresh(4, vec![15]);
    assert_eq!(g.select_cell(0, 0).unwrap(), Outcome::Continue);
    assert_eq!(g.cell_state(2, 2).unwrap(), CellState::Visible(1));
    assert_eq!(g.cell_state(2, 3).unwrap(), CellState::Visible(1));
    assert_eq!(g.cell_state(3, 2).unwrap(), CellState::Visible(1));
    assert_eq!(g.cell_state(3, 3).unwrap(), CellState::Hidden);
    assert_eq!(g.cell_state(0, 0).unwrap(), CellState::Visible(0));
    assert_eq!(g.cell_state(1, 3).unwrap(), CellState::Visible(0));
}

#[test]
fn toggle_mark_sets_and_clears_marker() {
    let mut g = fresh(3, vec![4]);
    g.toggle_mark(1, 1).unwrap();
    assert_eq!(g.cell_state(1, 1).unwrap(), CellState::Marker);
    assert_eq!(g.cell_glyph(1, 1).unwrap(), '?');
    g.toggle_mark(1, 1).unwrap();
    assert_eq!(g.cell_state(1, 1).unwrap(), CellState::Hidden);
    assert_eq!(g.cell_glyph(1, 1).unwrap(), 'X');
    assert_eq!(g.move_count(), 0);
}

#[test]
fn toggle_mark_leaves_revealed_cells_alone() {
    let mut g = fresh(3, vec![4]);
    g.select_cell(0, 0).unwrap();
    assert_eq!(g.cell_state(0, 0).unwrap(), CellState::Visible(1));
    g.toggle_mark(0, 0).unwrap();
    assert_eq!(g.cell_state(0, 0).unwrap(), CellState::Visible(1));
}

#[test]
fn reveal_after_mark_proceeds_as_normal_reveal() {
    let mut g = fresh(3, vec![4]);
    g.toggle_mark(0, 0).unwrap();
    assert_eq!(g.cell_state(0, 0).unwrap(), CellState::Marker);
    assert_eq!(g.select_cell(0, 0).unwrap(), Outcome::Continue);
    assert_eq!(g.cell_state(0, 0).unwrap(), CellState::Visible(1));
}

#[test]
fn marker_blocks_flood_fill() {
    let mut g = fresh(3, vec![]);
    g.toggle_mark(2, 2).unwrap();
    assert_eq!(g.select_cell(0, 0).unwrap(), Outcome::Continue);
    for i in 0..3 {
        for j in 0..3 {
            if (i, j) == (2, 2) {
                assert_eq!(g.cell_state(i, j).unwrap(), CellState::Marker);
            } else {
                assert_eq!(g.cell_state(i, j).unwrap(), CellState::Visible(0));
            }
        }
    }
}

#[test]
fn move_count_rises_once_per_reveal_whatever_the_outcome() {
    let mut g = fresh(3, vec![4]);
    assert_eq!(g.move_count(), 0);
    g.toggle_mark(2, 2).unwrap();
    assert_eq!(g.move_count(), 0);
    assert_eq!(g.select_cell(0, 0).unwrap(), Outcome::Continue);
    assert_eq!(g.move_count(), 1);
    assert_eq!(g.select_cell(0, 1).unwrap(), Outcome::Continue);
    assert_eq!(g.move_count(), 2);
    assert_eq!(g.select_cell(1, 1).unwrap(), Outcome::Loss);
    assert_eq!(g.move_count(), 3);
    assert!(g.select_cell(7, 7).is_err());
    assert_eq!(g.move_count(), 3);
}

#[test]
fn out_of_bounds_coordinates_are_rejected() {
    let mut g = fresh(3, vec![4]);
    assert_eq!(g.select_cell(3, 0), Err(GameError::OutOfBounds));
    assert_eq!(g.select_cell(0, 3), Err(GameError::OutOfBounds));
    assert_eq!(g.toggle_mark(9, 9), Err(GameError::OutOfBounds));
    assert_eq!(g.cell_state(3, 3), Err(GameError::OutOfBounds));
    assert_eq!(g.cell_glyph(0, 5), Err(GameError::OutOfBounds));
    assert_eq!(g.move_count(), 0);
    for i in 0..3 {
        for j in 0..3 {
            assert_eq!(g.cell_state(i, j).unwrap(), CellState::Hidden);
        }
    }
}

#[test]
fn invalid_configurations_are_rejected() {
    assert_eq!(Game::new(0, 0).err().unwrap(), GameError::InvalidConfiguration);
    assert_eq!(Game::new(2, 5).err().unwrap(), GameError::InvalidConfiguration);
    assert_eq!(
        Game::with_mines(0, &vec![]).err().unwrap(),
        GameError::InvalidConfiguration
    );
    assert_eq!(
        Game::with_mines(2, &vec![4]).err().unwrap(),
        GameError::InvalidConfiguration
    );
    assert_eq!(
        Game::with_mines(2, &vec![0, 1, 2, 3, 0]).err().unwrap(),
        GameError::InvalidConfiguration
    );
    assert!(Game::new(2, 4).is_ok());
}

#[test]
fn random_mines_land_on_the_board() {
    // A full 1x1 board: the single draw must land on the only cell, so
    // revealing it must lose.
    let mut g = Game::new(1, 1).unwrap();
    assert_eq!(g.cell_state(0, 0).unwrap(), CellState::Hidden);
    assert_eq!(g.select_cell(0, 0).unwrap(), Outcome::Loss);
}

#[test]
fn random_mines_stay_within_requested_count() {
    let mut g = Game::new(3, 2).unwrap();
    g.set_show_mines(true);
    let mut shown = 0;
    for i in 0..3 {
        for j in 0..3 {
            if g.cell_glyph(i, j).unwrap() == '*' {
                shown += 1;
            }
        }
    }
    assert!(shown <= 2);
    assert!(shown >= 1);
}

#[test]
fn duplicate_draws_place_one_mine() {
    let mut g = fresh(2, vec![3, 3]);
    g.set_show_mines(true);
    let mut shown = 0;
    for i in 0..2 {
        for j in 0..2 {
            if g.cell_glyph(i, j).unwrap() == '*' {
                shown += 1;
            }
        }
    }
    assert_eq!(shown, 1);
    assert_eq!(g.cell_glyph(1, 1).unwrap(), '*');
}

#[test]
fn glyphs_show_digits_for_positive_counts() {
    // 2x2 board with mines at (0,1) and (1,0): the corner (0,0) touches
    // both, plus the mine-free diagonal, so it shows '2'.
    let mut g = fresh(2, vec![1, 2]);
    assert_eq!(g.select_cell(0, 0).unwrap(), Outcome::Continue);
    assert_eq!(g.cell_state(0, 0).unwrap(), CellState::Visible(2));
    assert_eq!(g.cell_glyph(0, 0).unwrap(), '2');
}

#[test]
fn neighbor_count_covers_all_eight_neighbors() {
    // 3x3 board with every cell but the center mined: the center counts 8.
    let mut g = fresh(3, vec![0, 1, 2, 3, 5, 6, 7, 8]);
    assert_eq!(g.select_cell(1, 1).unwrap(), Outcome::Continue);
    assert_eq!(g.cell_state(1, 1).unwrap(), CellState::Visible(8));
    assert_eq!(g.cell_glyph(1, 1).unwrap(), '8');
}

#[test]
fn neighbor_count_excludes_the_cell_itself() {
    // A mined cell that touches no other mine: with mines shown before any
    // reveal, count_nbrs of the mine cell itself must be 0, not 1.
    let g = fresh(3, vec![0]);
    assert_eq!(g.count_nbrs(0, 0), 0);
    assert_eq!(g.count_nbrs(1, 1), 1);
    assert_eq!(g.count_nbrs(2, 2), 0);
}

#[test]
fn show_mines_changes_glyphs_only() {
    let mut g = fresh(2, vec![0]);
    assert_eq!(g.cell_glyph(0, 0).unwrap(), 'X');
    g.set_show_mines(true);
    assert_eq!(g.cell_glyph(0, 0).unwrap(), '*');
    assert_eq!(g.cell_glyph(1, 1).unwrap(), 'X');
    assert_eq!(g.cell_state(0, 0).unwrap(), CellState::Hidden);
    g.set_show_mines(false);
    assert_eq!(g.cell_glyph(0, 0).unwrap(), 'X');
}

#[test]
fn update_cells_reveals_without_counting_a_move() {
    let mut g = fresh(3, vec![4]);
    g.update_cells(0, 0);
    assert_eq!(g.cell_state(0, 0).unwrap(), CellState::Visible(1));
    assert_eq!(g.move_count(), 0);
}
