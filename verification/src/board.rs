//! The board engine: construction with random or explicit mine placement,
//! neighbor counting, the flood-fill reveal, marking, and rendering queries.

use vstd::prelude::*;
use crate::cells::Cell;
use crate::cells::CellState;
use crate::cells::GameError;
use crate::cells::Outcome;
use crate::cells::spec_glyph;
use crate::cells::spec_toggle;
use crate::grid::adjacent;
use crate::grid::cell_index;
use crate::grid::entered;
use crate::grid::flood_result;
use crate::grid::in_bounds;
use crate::grid::lemma_cell_index_bound;
use crate::grid::lemma_cell_index_injective;
use crate::grid::lemma_entered_becomes_visible;
use crate::grid::lemma_nbr_mines_framing;
use crate::grid::lemma_num_concealed_update;
use crate::grid::lemma_num_mines_update;
use crate::grid::lemma_reaches_step;
use crate::grid::mine_at;
use crate::grid::nbr_mines;
use crate::grid::num_concealed;
use crate::grid::num_mines;
use crate::grid::reaches;
use crate::grid::state_at;

verus! {

/// The mathematical content of a board: its side length, its flat row-major
/// sequence of cells, the number of reveal moves made, and whether mines
/// are being shown.
pub ghost struct BoardView {
    pub gridsize: nat,
    pub cells: Seq<Cell>,
    pub moves: nat,
    pub show_mines: bool,
}

/// A well-formed board: a positive side length, exactly gridsize * gridsize
/// cells, and every revealed cell showing the true count of mines around
/// it.
pub open spec fn wf_view(v: BoardView) -> bool {
    &&& v.gridsize >= 1
    &&& v.cells.len() == v.gridsize * v.gridsize
    &&& forall|a: int, b: int|
        in_bounds(v.gridsize, a, b) ==> ((#[trigger] state_at(
            v.cells,
            v.gridsize,
            a,
            b,
        )) matches CellState::Visible(m) ==> m == nbr_mines(v.cells, v.gridsize, a, b))
}

/// One game of the mine-detection puzzle on a square grid.
pub struct Game {
    gridsize: usize,
    grid: Vec<Cell>,
    moves: usize,
    show_mines: bool,
}

impl View for Game {
    type V = BoardView;

    closed spec fn view(&self) -> BoardView {
        BoardView {
            gridsize: self.gridsize as nat,
            cells: self.grid@,
            moves: self.moves as nat,
            show_mines: self.show_mines,
        }
    }
}

/// Relies on rand::random_range: a uniform draw from the non-empty range
/// 0..n is below n.
#[verifier::external_body]
fn random_below(n: usize) -> (r: usize)
    requires
        n > 0,
    ensures
        r < n,
{
    rand::random_range(0..n)
}

impl Game {
    /// A well-formed board.
    pub open spec fn wf(&self) -> bool {
        wf_view(self@)
    }

    /// Whether a draw sequence is a valid mine placement for a gs-by-gs
    /// board: the side is positive, no more draws than cells, every draw a
    /// cell position.
    pub open spec fn valid_mine_placement(gridsize: nat, draws: Seq<usize>) -> bool {
        &&& gridsize >= 1
        &&& draws.len() <= gridsize * gridsize
        &&& forall|t: int| 0 <= t < draws.len() ==> #[trigger] draws[t] < gridsize * gridsize
    }

    /// Builds a board with every cell hidden and a mine in exactly the
    /// cells whose row-major positions occur in `mine_cells`; duplicates
    /// place one mine, so at most `mine_cells.len()` cells hold one.
    pub fn with_mines(gridsize: usize, mine_cells: &Vec<usize>) -> (r: Result<Game, GameError>)
        requires
            gridsize * gridsize <= usize::MAX,
        ensures
            (r is Ok) <==> Self::valid_mine_placement(gridsize as nat, mine_cells@),
            (r is Err) ==> r == Err::<Game, GameError>(GameError::InvalidConfiguration),
            r matches Ok(g) ==> {
                &&& g.wf()
                &&& g@.gridsize == gridsize
                &&& g@.moves == 0
                &&& g@.show_mines == false
                &&& forall|a: int, b: int|
                    in_bounds(g@.gridsize, a, b) ==> #[trigger] state_at(
                        g@.cells,
                        g@.gridsize,
                        a,
                        b,
                    ) is Hidden
                &&& forall|k: int|
                    0 <= k < g@.cells.len() ==> ((#[trigger] g@.cells[k].is_mine)
                        <==> mine_cells@.contains(k as usize))
                &&& num_mines(g@.cells) <= mine_cells@.len()
            },
    {
        if gridsize == 0 {
            return Err(GameError::InvalidConfiguration);
        }
        let n = gridsize * gridsize;
        if mine_cells.len() > n {
            return Err(GameError::InvalidConfiguration);
        }
        let mut t: usize = 0;
        while t < mine_cells.len()
            invariant
                t <= mine_cells.len(),
                gridsize >= 1,
                n == gridsize * gridsize,
                mine_cells@.len() <= n,
                forall|s: int| 0 <= s < t ==> #[trigger] mine_cells@[s] < n,
            decreases mine_cells.len() - t,
        {
            if mine_cells[t] >= n {
                return Err(GameError::InvalidConfiguration);
            }
            t += 1;
        }
        let mut grid: Vec<Cell> = Vec::new();
        let mut k: usize = 0;
        while k < n
            invariant
                k <= n,
                grid@.len() == k,
                forall|s: int|
                    0 <= s < k ==> #[trigger] grid@[s] == (Cell {
                        state: CellState::Hidden,
                        is_mine: false,
                    }),
            decreases n - k,
        {
            grid.push(Cell { state: CellState::Hidden, is_mine: false });
            k += 1;
        }
        proof {
            lemma_num_mines_empty_layout(grid@);
        }
        let mut t: usize = 0;
        while t < mine_cells.len()
            invariant
                t <= mine_cells.len(),
                grid@.len() == n,
                forall|t2: int| 0 <= t2 < mine_cells.len() ==> #[trigger] mine_cells@[t2] < n,
                forall|s: int| 0 <= s < n ==> (#[trigger] grid@[s].state) is Hidden,
                forall|s: int|
                    0 <= s < n ==> ((#[trigger] grid@[s].is_mine) <==> mine_cells@.subrange(
                        0,
                        t as int,
                    ).contains(s as usize)),
                num_mines(grid@) <= t,
            decreases mine_cells.len() - t,
        {
            let p = mine_cells[t];
            let ghost prev = grid@;
            grid.set(p, Cell { state: CellState::Hidden, is_mine: true });
            proof {
                lemma_num_mines_update(
                    prev,
                    p as int,
                    Cell { state: CellState::Hidden, is_mine: true },
                );
                assert(mine_cells@.subrange(0, t + 1) =~= mine_cells@.subrange(0, t as int).push(
                    mine_cells@[t as int],
                ));
                assert forall|s: int|
                    0 <= s < n implies ((#[trigger] grid@[s].is_mine) <==> mine_cells@.subrange(
                    0,
                    t + 1,
                ).contains(s as usize)) by {
                    let sub = mine_cells@.subrange(0, t as int);
                    let sub2 = mine_cells@.subrange(0, t + 1);
                    if grid@[s].is_mine {
                        if s == p {
                            assert(sub2[t as int] == p);
                        } else {
                            let w = choose|w: int| 0 <= w < sub.len() && sub[w] == s as usize;
                            assert(sub2[w] == s as usize);
                        }
                    } else {
                        if sub2.contains(s as usize) {
                            let w = choose|w: int| 0 <= w < sub2.len() && sub2[w] == s as usize;
                            if w < t {
                                assert(sub[w] == s as usize);
                            }
                        }
                    }
                }
            }
            t += 1;
        }
        proof {
            assert(mine_cells@.subrange(0, mine_cells@.len() as int) =~= mine_cells@);
        }
        let g = Game { gridsize, grid, moves: 0, show_mines: false };
        proof {
            assert forall|a: int, b: int| in_bounds(g@.gridsize, a, b) implies #[trigger] state_at(
                g@.cells,
                g@.gridsize,
                a,
                b,
            ) is Hidden by {
                lemma_cell_index_bound(g@.gridsize, a, b);
            }
        }
        Ok(g)
    }

    /// Creates a board of gridsize-by-gridsize hidden cells and draws
    /// `mines` uniform random cell positions, placing a mine at each.
    /// Draws are independent, so duplicates may leave fewer than `mines`
    /// distinct mines.
    pub fn new(gridsize: usize, mines: usize) -> (r: Result<Game, GameError>)
        requires
            gridsize * gridsize <= usize::MAX,
        ensures
            (r is Ok) <==> (gridsize >= 1 && mines <= gridsize * gridsize),
            (r is Err) ==> r == Err::<Game, GameError>(GameError::InvalidConfiguration),
            r matches Ok(g) ==> {
                &&& g.wf()
                &&& g@.gridsize == gridsize
                &&& g@.moves == 0
                &&& g@.show_mines == false
                &&& forall|a: int, b: int|
                    in_bounds(g@.gridsize, a, b) ==> #[trigger] state_at(
                        g@.cells,
                        g@.gridsize,
                        a,
                        b,
                    ) is Hidden
                &&& num_mines(g@.cells) <= mines
            },
    {
        if gridsize == 0 {
            return Err(GameError::InvalidConfiguration);
        }
        let n = gridsize * gridsize;
        if mines > n {
            return Err(GameError::InvalidConfiguration);
        }
        proof {
            assert(n >= 1) by (nonlinear_arith)
                requires
                    gridsize >= 1,
                    n == gridsize * gridsize,
            ;
        }
        let mut draws: Vec<usize> = Vec::new();
        let mut k: usize = 0;
        while k < mines
            invariant
                k <= mines,
                n >= 1,
                draws@.len() == k,
                forall|t: int| 0 <= t < k ==> #[trigger] draws@[t] < n,
            decreases mines - k,
        {
            let d = random_below(n);
            draws.push(d);
            k += 1;
        }
        match Self::with_mines(gridsize, &draws) {
            Ok(g) => Ok(g),
            Err(_) => unreached(),
        }
    }

    /// The row-major position of in-bounds cell (i, j) in the flat vector.
    fn flat_index(&self, i: usize, j: usize) -> (r: usize)
        requires
            self.wf(),
            in_bounds(self@.gridsize, i as int, j as int),
        ensures
            r as int == cell_index(self@.gridsize, i as int, j as int),
            r < self@.cells.len(),
    {
        proof {
            lemma_cell_index_bound(self@.gridsize, i as int, j as int);
        }
        let n = self.grid.len();
        assert(i as int * self@.gridsize + j < n);
        i * self.gridsize + j
    }

    /// Whether in-bounds cell (i, j) holds a mine.
    fn mine_in_cell(&self, i: usize, j: usize) -> (r: bool)
        requires
            self.wf(),
            in_bounds(self@.gridsize, i as int, j as int),
        ensures
            r == mine_at(self@.cells, self@.gridsize, i as int, j as int),
    {
        let idx = self.flat_index(i, j);
        self.grid[idx].is_mine
    }

    /// Counts the mines among the up-to-8 cells adjacent to (i, j), clipped
    /// at the grid boundary; the cell itself is not counted.
    pub fn count_nbrs(&self, i: usize, j: usize) -> (r: usize)
        requires
            self.wf(),
            in_bounds(self@.gridsize, i as int, j as int),
        ensures
            r == nbr_mines(self@.cells, self@.gridsize, i as int, j as int),
            r <= 8,
    {
        let gs = self.gridsize;
        let mut cnt: usize = 0;
        if i > 0 && j > 0 && self.mine_in_cell(i - 1, j - 1) {
            cnt += 1;
        }
        if i > 0 && self.mine_in_cell(i - 1, j) {
            cnt += 1;
        }
        if i > 0 && j + 1 < gs && self.mine_in_cell(i - 1, j + 1) {
            cnt += 1;
        }
        if j > 0 && self.mine_in_cell(i, j - 1) {
            cnt += 1;
        }
        if j + 1 < gs && self.mine_in_cell(i, j + 1) {
            cnt += 1;
        }
        if i + 1 < gs && j > 0 && self.mine_in_cell(i + 1, j - 1) {
            cnt += 1;
        }
        if i + 1 < gs && self.mine_in_cell(i + 1, j) {
            cnt += 1;
        }
        if i + 1 < gs && j + 1 < gs && self.mine_in_cell(i + 1, j + 1) {
            cnt += 1;
        }
        cnt
    }

    /// The side length of the board.
    pub fn gridsize(&self) -> (r: usize)
        ensures
            r == self@.gridsize,
    {
        self.gridsize
    }

    /// How many reveal moves have been made so far.
    pub fn move_count(&self) -> (r: usize)
        ensures
            r == self@.moves,
    {
        self.moves
    }

    /// Turns the display of mines on or off; nothing else changes.
    pub fn set_show_mines(&mut self, show: bool)
        requires
            old(self).wf(),
        ensures
            final(self).wf(),
            final(self)@ == (BoardView { show_mines: show, ..old(self)@ }),
    {
        self.show_mines = show;
    }

    /// The state of cell (i, j), or `OutOfBounds` if (i, j) is not on the
    /// grid.
    pub fn cell_state(&self, i: usize, j: usize) -> (r: Result<CellState, GameError>)
        requires
            self.wf(),
        ensures
            (r is Err) <==> !in_bounds(self@.gridsize, i as int, j as int),
            (r is Err) ==> r == Err::<CellState, GameError>(GameError::OutOfBounds),
            in_bounds(self@.gridsize, i as int, j as int) ==> r == Ok::<CellState, GameError>(
                state_at(self@.cells, self@.gridsize, i as int, j as int),
            ),
    {
        if i >= self.gridsize || j >= self.gridsize {
            return Err(GameError::OutOfBounds);
        }
        let idx = self.flat_index(i, j);
        Ok(self.grid[idx].state)
    }

    /// The glyph cell (i, j) shows when the board is rendered, or
    /// `OutOfBounds` if (i, j) is not on the grid.
    pub fn cell_glyph(&self, i: usize, j: usize) -> (r: Result<char, GameError>)
        requires
            self.wf(),
        ensures
            (r is Err) <==> !in_bounds(self@.gridsize, i as int, j as int),
            (r is Err) ==> r == Err::<char, GameError>(GameError::OutOfBounds),
            in_bounds(self@.gridsize, i as int, j as int) ==> r == Ok::<char, GameError>(
                spec_glyph(
                    self@.cells[cell_index(self@.gridsize, i as int, j as int)],
                    self@.show_mines,
                ),
            ),
    {
        if i >= self.gridsize || j >= self.gridsize {
            return Err(GameError::OutOfBounds);
        }
        let idx = self.flat_index(i, j);
        let c = self.grid[idx];
        if self.show_mines && c.is_mine {
            return Ok('*');
        }
        match c.state {
            CellState::Hidden => Ok('X'),
            CellState::Marker => Ok('?'),
            CellState::Visible(x) => {
                if x == 0 {
                    Ok(' ')
                } else {
                    let ch = match x {
                        1 => '1',
                        2 => '2',
                        3 => '3',
                        4 => '4',
                        5 => '5',
                        6 => '6',
                        7 => '7',
                        _ => '8',
                    };
                    Ok(ch)
                }
            },
        }
    }

    /// Toggles the player's marker on cell (i, j): a hidden cell becomes
    /// marked, a marked cell becomes hidden again, and a revealed cell is
    /// left alone. The move count does not change.
    pub fn toggle_mark(&mut self, i: usize, j: usize) -> (r: Result<(), GameError>)
        requires
            old(self).wf(),
        ensures
            final(self).wf(),
            (r is Err) <==> !in_bounds(old(self)@.gridsize, i as int, j as int),
            (r is Err) ==> r == Err::<(), GameError>(GameError::OutOfBounds) && final(self)@ == old(
                self,
            )@,
            (r is Ok) ==> {
                &&& final(self)@.gridsize == old(self)@.gridsize
                &&& final(self)@.moves == old(self)@.moves
                &&& final(self)@.show_mines == old(self)@.show_mines
                &&& final(self)@.cells == old(self)@.cells.update(
                    cell_index(old(self)@.gridsize, i as int, j as int),
                    (Cell {
                        state: spec_toggle(
                            state_at(old(self)@.cells, old(self)@.gridsize, i as int, j as int),
                        ),
                        is_mine: mine_at(old(self)@.cells, old(self)@.gridsize, i as int, j as int),
                    }),
                )
            },
    {
        if i >= self.gridsize || j >= self.gridsize {
            return Err(GameError::OutOfBounds);
        }
        let idx = self.flat_index(i, j);
        let c = self.grid[idx];
        let toggled = match c.state {
            CellState::Hidden => CellState::Marker,
            CellState::Marker => CellState::Hidden,
            CellState::Visible(x) => CellState::Visible(x),
        };
        self.grid.set(idx, Cell { state: toggled, is_mine: c.is_mine });
        proof {
            let gs = old(self)@.gridsize;
            assert forall|a: int, b: int|
                in_bounds(gs, a, b) implies ((#[trigger] state_at(
                self@.cells,
                gs,
                a,
                b,
            )) matches CellState::Visible(m) ==> m == nbr_mines(self@.cells, gs, a, b)) by {
                lemma_cell_index_bound(gs, a, b);
                lemma_cell_index_bound(gs, i as int, j as int);
                lemma_cell_index_injective(gs, a, b, i as int, j as int);
                lemma_nbr_mines_framing(self@.cells, old(self)@.cells, gs, a, b);
                if cell_index(gs, a, b) == cell_index(gs, i as int, j as int) {
                    assert(state_at(old(self)@.cells, gs, i as int, j as int) == c.state);
                } else {
                    assert(state_at(self@.cells, gs, a, b) == state_at(old(self)@.cells, gs, a, b));
                }
            }
        }
        Ok(())
    }

    /// Appends in-bounds cell (na, nb) to the reveal worklist if it is
    /// still hidden, given that the flood fill has entered the adjacent
    /// cell (pa, pb), found it free of neighboring mines, and revealed it.
    fn push_neighbor(
        &self,
        stack: &mut Vec<(usize, usize)>,
        na: usize,
        nb: usize,
        Ghost(pre): Ghost<Seq<Cell>>,
        Ghost(i0): Ghost<int>,
        Ghost(j0): Ghost<int>,
        Ghost(pa): Ghost<int>,
        Ghost(pb): Ghost<int>,
    )
        requires
            self.wf(),
            pre.len() == self@.gridsize * self@.gridsize,
            in_bounds(self@.gridsize, na as int, nb as int),
            in_bounds(self@.gridsize, pa, pb),
            adjacent(pa, pb, na as int, nb as int),
            entered(pre, self@.gridsize, i0, j0, pa, pb),
            !(state_at(pre, self@.gridsize, pa, pb) is Visible),
            nbr_mines(pre, self@.gridsize, pa, pb) == 0,
            state_at(self@.cells, self@.gridsize, na as int, nb as int) is Hidden ==> state_at(
                pre,
                self@.gridsize,
                na as int,
                nb as int,
            ) is Hidden,
            forall|t: int|
                0 <= t < old(stack)@.len() ==> (in_bounds(
                    self@.gridsize,
                    (#[trigger] old(stack)@[t]).0 as int,
                    old(stack)@[t].1 as int,
                ) && entered(
                    pre,
                    self@.gridsize,
                    i0,
                    j0,
                    old(stack)@[t].0 as int,
                    old(stack)@[t].1 as int,
                )),
        ensures
            final(stack)@ == old(stack)@ || final(stack)@ == old(stack)@.push((na, nb)),
            final(stack)@.len() <= old(stack)@.len() + 1,
            forall|x: (usize, usize)|
                old(stack)@.contains(x) ==> #[trigger] final(stack)@.contains(x),
            state_at(self@.cells, self@.gridsize, na as int, nb as int) is Hidden
                ==> final(stack)@.contains((na, nb)),
            !(state_at(self@.cells, self@.gridsize, na as int, nb as int) is Hidden)
                ==> final(stack)@ == old(stack)@,
            forall|t: int|
                0 <= t < final(stack)@.len() ==> (in_bounds(
                    self@.gridsize,
                    (#[trigger] final(stack)@[t]).0 as int,
                    final(stack)@[t].1 as int,
                ) && entered(
                    pre,
                    self@.gridsize,
                    i0,
                    j0,
                    final(stack)@[t].0 as int,
                    final(stack)@[t].1 as int,
                )),
    {
        let idx = self.flat_index(na, nb);
        match self.grid[idx].state {
            CellState::Hidden => {
                proof {
                    let gs = self@.gridsize;
                    let n = choose|n: nat| reaches(pre, gs, i0, j0, pa, pb, n);
                    lemma_reaches_step(pre, gs, i0, j0, pa, pb, na as int, nb as int, n);
                }
                stack.push((na, nb));
                proof {
                    assert forall|x: (usize, usize)|
                        old(stack)@.contains(x) implies #[trigger] stack@.contains(x) by {
                        let t = choose|t: int|
                            0 <= t < old(stack)@.len() && old(stack)@[t] == x;
                        assert(stack@[t] == x);
                    }
                    assert(stack@[stack@.len() - 1] == (na, nb));
                    assert(stack@.contains((na, nb)));
                }
            },
            _ => {},
        }
    }

    /// Reveals cell (i, j): sets it visible with its neighbor count and,
    /// whenever a newly revealed cell has no mine around it, spreads to
    /// each adjacent hidden cell, until no cell is pending. Marked cells
    /// block the spread; the move count does not change.
    pub fn update_cells(&mut self, i: usize, j: usize)
        requires
            old(self).wf(),
            in_bounds(old(self)@.gridsize, i as int, j as int),
        ensures
            final(self).wf(),
            final(self)@.gridsize == old(self)@.gridsize,
            final(self)@.moves == old(self)@.moves,
            final(self)@.show_mines == old(self)@.show_mines,
            flood_result(
                old(self)@.cells,
                final(self)@.cells,
                old(self)@.gridsize,
                i as int,
                j as int,
            ),
    {
        let ghost gs: nat = self@.gridsize;
        let ghost pre: Seq<Cell> = self@.cells;
        let ghost i0: int = i as int;
        let ghost j0: int = j as int;
        let ghost moves0: nat = self@.moves;
        let ghost sm0: bool = self@.show_mines;
        let mut stack: Vec<(usize, usize)> = Vec::new();
        stack.push((i, j));
        proof {
            assert(reaches(pre, gs, i0, j0, i0, j0, 0));
            assert(stack@[0] == (i, j));
            assert(stack@.contains((i, j)));
        }
        while stack.len() != 0
            invariant
                self.wf(),
                self@.gridsize == gs,
                self@.moves == moves0,
                self@.show_mines == sm0,
                in_bounds(gs, i0, j0),
                i0 == i as int,
                j0 == j as int,
                pre.len() == gs * gs,
                self@.cells.len() == gs * gs,
                forall|k: int|
                    0 <= k < pre.len() ==> #[trigger] self@.cells[k].is_mine == pre[k].is_mine,
                forall|t: int|
                    0 <= t < stack@.len() ==> (in_bounds(
                        gs,
                        (#[trigger] stack@[t]).0 as int,
                        stack@[t].1 as int,
                    ) && entered(pre, gs, i0, j0, stack@[t].0 as int, stack@[t].1 as int)),
                forall|a: int, b: int|
                    #![trigger cell_index(gs, a, b)]
                    in_bounds(gs, a, b) ==> (state_at(self@.cells, gs, a, b) == state_at(
                        pre,
                        gs,
                        a,
                        b,
                    ) || (entered(pre, gs, i0, j0, a, b) && state_at(self@.cells, gs, a, b)
                        == CellState::Visible(nbr_mines(pre, gs, a, b) as usize))),
                state_at(self@.cells, gs, i0, j0) is Visible || stack@.contains((i, j)),
                forall|p: int, q: int, c: int, d: int|
                    #![trigger state_at(self@.cells, gs, p, q), adjacent(p, q, c, d)]
                    (in_bounds(gs, p, q) && state_at(self@.cells, gs, p, q) is Visible && !(
                    state_at(pre, gs, p, q) is Visible) && nbr_mines(pre, gs, p, q) == 0
                        && adjacent(p, q, c, d) && in_bounds(gs, c, d) && state_at(
                        pre,
                        gs,
                        c,
                        d,
                    ) is Hidden) ==> (state_at(self@.cells, gs, c, d) is Visible
                        || stack@.contains((c as usize, d as usize))),
            decreases 9 * num_concealed(self@.cells) + stack@.len(),
        {
            let ghost stack0 = stack@;
            let ghost cells0 = self@.cells;
            let top = stack.pop().unwrap();
            let a = top.0;
            let b = top.1;
            proof {
                assert(stack0[stack0.len() - 1] == top);
                assert(in_bounds(gs, a as int, b as int));
                assert(entered(pre, gs, i0, j0, a as int, b as int));
            }
            let idx = self.flat_index(a, b);
            let cur = self.grid[idx];
            match cur.state {
                CellState::Visible(_) => {
                    proof {
                        if !(state_at(self@.cells, gs, i0, j0) is Visible) {
                            lemma_pop_contains(stack0, (i, j));
                        }
                        assert forall|p: int, q: int, c: int, d: int|
                            (in_bounds(gs, p, q) && (#[trigger] state_at(
                                self@.cells,
                                gs,
                                p,
                                q,
                            )) is Visible && !(state_at(pre, gs, p, q) is Visible) && nbr_mines(
                                pre,
                                gs,
                                p,
                                q,
                            ) == 0 && #[trigger] adjacent(p, q, c, d) && in_bounds(gs, c, d)
                                && state_at(pre, gs, c, d) is Hidden) implies (state_at(
                            self@.cells,
                            gs,
                            c,
                            d,
                        ) is Visible || stack@.contains((c as usize, d as usize))) by {
                            if !(state_at(self@.cells, gs, c, d) is Visible) {
                                assert(stack0.contains((c as usize, d as usize)));
                                lemma_pop_contains(stack0, (c as usize, d as usize));
                                if (c as usize, d as usize) == top {
                                    assert(state_at(self@.cells, gs, c, d) == cur.state);
                                }
                            }
                        }
                    }
                },
                _ => {
                    let cnt = self.count_nbrs(a, b);
                    proof {
                        lemma_nbr_mines_framing(self@.cells, pre, gs, a as int, b as int);
                        assert(state_at(cells0, gs, a as int, b as int) == cur.state);
                        assert(state_at(pre, gs, a as int, b as int) == cur.state);
                    }
                    let newcell = Cell { state: CellState::Visible(cnt), is_mine: cur.is_mine };
                    self.grid.set(idx, newcell);
                    proof {
                        lemma_num_concealed_update(cells0, idx as int, newcell);
                        lemma_set_cell_pointwise(
                            cells0,
                            self@.cells,
                            gs,
                            a as int,
                            b as int,
                            newcell,
                        );
                        assert(cnt == nbr_mines(pre, gs, a as int, b as int));
                        assert((nbr_mines(pre, gs, a as int, b as int) as usize) == cnt);
                        assert forall|aa: int, bb: int|
                            in_bounds(gs, aa, bb) implies ((#[trigger] state_at(
                            self@.cells,
                            gs,
                            aa,
                            bb,
                        )) matches CellState::Visible(m) ==> m == nbr_mines(
                            self@.cells,
                            gs,
                            aa,
                            bb,
                        )) by {
                            lemma_cell_index_bound(gs, aa, bb);
                            lemma_nbr_mines_framing(self@.cells, cells0, gs, aa, bb);
                            if !(aa == a as int && bb == b as int) {
                                assert(state_at(self@.cells, gs, aa, bb) == state_at(
                                    cells0,
                                    gs,
                                    aa,
                                    bb,
                                ));
                            }
                        }
                        assert forall|aa: int, bb: int|
                            #![trigger cell_index(gs, aa, bb)]
                            in_bounds(gs, aa, bb) implies (state_at(self@.cells, gs, aa, bb)
                            == state_at(pre, gs, aa, bb) || (entered(pre, gs, i0, j0, aa, bb)
                            && state_at(self@.cells, gs, aa, bb) == CellState::Visible(
                            nbr_mines(pre, gs, aa, bb) as usize,
                        ))) by {
                            lemma_cell_index_bound(gs, aa, bb);
                        }
                    }
                    if cnt == 0 {
                        if a > 0 && b > 0 {
                            self.push_neighbor(
                                &mut stack,
                                a - 1,
                                b - 1,
                                Ghost(pre),
                                Ghost(i0),
                                Ghost(j0),
                                Ghost(a as int),
                                Ghost(b as int),
                            );
                        }
                        if a > 0 {
                            self.push_neighbor(
                                &mut stack,
                                a - 1,
                                b,
                                Ghost(pre),
                                Ghost(i0),
                                Ghost(j0),
                                Ghost(a as int),
                                Ghost(b as int),
                            );
                        }
                        if a > 0 && b + 1 < self.gridsize {
                            self.push_neighbor(
                                &mut stack,
                                a - 1,
                                b + 1,
                                Ghost(pre),
                                Ghost(i0),
                                Ghost(j0),
                                Ghost(a as int),
                                Ghost(b as int),
                            );
                        }
                        if b > 0 {
                            self.push_neighbor(
                                &mut stack,
                                a,
                                b - 1,
                                Ghost(pre),
                                Ghost(i0),
                                Ghost(j0),
                                Ghost(a as int),
                                Ghost(b as int),
                            );
                        }
                        if b + 1 < self.gridsize {
                            self.push_neighbor(
                                &mut stack,
                                a,
                                b + 1,
                                Ghost(pre),
                                Ghost(i0),
                                Ghost(j0),
                                Ghost(a as int),
                                Ghost(b as int),
                            );
                        }
                        if a + 1 < self.gridsize && b > 0 {
                            self.push_neighbor(
                                &mut stack,
                                a + 1,
                                b - 1,
                                Ghost(pre),
                                Ghost(i0),
                                Ghost(j0),
                                Ghost(a as int),
                                Ghost(b as int),
                            );
                        }
                        if a + 1 < self.gridsize {
                            self.push_neighbor(
                                &mut stack,
                                a + 1,
                                b,
                                Ghost(pre),
                                Ghost(i0),
                                Ghost(j0),
                                Ghost(a as int),
                                Ghost(b as int),
                            );
                        }
                        if a + 1 < self.gridsize && b + 1 < self.gridsize {
                            self.push_neighbor(
                                &mut stack,
                                a + 1,
                                b + 1,
                                Ghost(pre),
                                Ghost(i0),
                                Ghost(j0),
                                Ghost(a as int),
                                Ghost(b as int),
                            );
                        }
                    }
                    proof {
                        if !(state_at(self@.cells, gs, i0, j0) is Visible) {
                            lemma_pop_contains(stack0, (i, j));
                        }
                        assert forall|p: int, q: int, c: int, d: int|
                            (in_bounds(gs, p, q) && (#[trigger] state_at(
                                self@.cells,
                                gs,
                                p,
                                q,
                            )) is Visible && !(state_at(pre, gs, p, q) is Visible) && nbr_mines(
                                pre,
                                gs,
                                p,
                                q,
                            ) == 0 && #[trigger] adjacent(p, q, c, d) && in_bounds(gs, c, d)
                                && state_at(pre, gs, c, d) is Hidden) implies (state_at(
                            self@.cells,
                            gs,
                            c,
                            d,
                        ) is Visible || stack@.contains((c as usize, d as usize))) by {
                            lemma_cell_index_bound(gs, c, d);
                            lemma_cell_index_bound(gs, p, q);
                            if !(state_at(self@.cells, gs, c, d) is Visible) {
                                assert(state_at(self@.cells, gs, c, d) == state_at(pre, gs, c, d));
                                if p == a as int && q == b as int {
                                    assert(state_at(self@.cells, gs, c, d) is Hidden);
                                    assert(stack@.contains((c as usize, d as usize)));
                                } else {
                                    assert(state_at(cells0, gs, p, q) == state_at(
                                        self@.cells,
                                        gs,
                                        p,
                                        q,
                                    ));
                                    assert(stack0.contains((c as usize, d as usize)));
                                    lemma_pop_contains(stack0, (c as usize, d as usize));
                                    if (c as usize, d as usize) == top {
                                        assert(state_at(cells0, gs, c, d) == cur.state);
                                    }
                                }
                            }
                        }
                    }
                },
            }
        }
        proof {
            assert forall|a2: int, b2: int|
                in_bounds(gs, a2, b2) implies {
                &&& #[trigger] mine_at(self@.cells, gs, a2, b2) == mine_at(pre, gs, a2, b2)
                &&& (entered(pre, gs, i0, j0, a2, b2) ==> state_at(self@.cells, gs, a2, b2)
                    == CellState::Visible(nbr_mines(pre, gs, a2, b2) as usize))
                &&& (!entered(pre, gs, i0, j0, a2, b2) ==> state_at(self@.cells, gs, a2, b2)
                    == state_at(pre, gs, a2, b2))
            } by {
                lemma_cell_index_bound(gs, a2, b2);
                if entered(pre, gs, i0, j0, a2, b2) {
                    let n = choose|n: nat| reaches(pre, gs, i0, j0, a2, b2, n);
                    lemma_entered_becomes_visible(pre, self@.cells, gs, i0, j0, a2, b2, n);
                    if state_at(self@.cells, gs, a2, b2) == state_at(pre, gs, a2, b2) {
                        assert(state_at(old(self)@.cells, gs, a2, b2) == state_at(pre, gs, a2, b2));
                    }
                }
            }
            assert(flood_result(pre, self@.cells, gs, i0, j0));
        }
    }

    /// Reveals cell (i, j) as one move of the player: the move count rises
    /// by one whatever the outcome; hitting a mine loses the game and
    /// leaves every cell exactly as it was; otherwise the cell and, through
    /// zero-count cells, its surroundings are revealed and the game goes
    /// on. An out-of-range coordinate is rejected and costs no move.
    pub fn select_cell(&mut self, i: usize, j: usize) -> (r: Result<Outcome, GameError>)
        requires
            old(self).wf(),
            old(self)@.moves < usize::MAX,
        ensures
            final(self).wf(),
            (r is Err) <==> !in_bounds(old(self)@.gridsize, i as int, j as int),
            (r is Err) ==> r == Err::<Outcome, GameError>(GameError::OutOfBounds) && final(self)@
                == old(self)@,
            (r is Ok) ==> final(self)@.moves == old(self)@.moves + 1 && final(self)@.gridsize
                == old(self)@.gridsize && final(self)@.show_mines == old(self)@.show_mines,
            (r == Ok::<Outcome, GameError>(Outcome::Loss)) <==> (in_bounds(
                old(self)@.gridsize,
                i as int,
                j as int,
            ) && mine_at(old(self)@.cells, old(self)@.gridsize, i as int, j as int)),
            (r == Ok::<Outcome, GameError>(Outcome::Loss)) ==> final(self)@.cells == old(
                self,
            )@.cells,
            (r == Ok::<Outcome, GameError>(Outcome::Continue)) <==> (in_bounds(
                old(self)@.gridsize,
                i as int,
                j as int,
            ) && !mine_at(old(self)@.cells, old(self)@.gridsize, i as int, j as int)),
            (r == Ok::<Outcome, GameError>(Outcome::Continue)) ==> flood_result(
                old(self)@.cells,
                final(self)@.cells,
                old(self)@.gridsize,
                i as int,
                j as int,
            ),
            (r == Ok::<Outcome, GameError>(Outcome::Continue)) ==> state_at(
                final(self)@.cells,
                old(self)@.gridsize,
                i as int,
                j as int,
            ) == CellState::Visible(
                nbr_mines(old(self)@.cells, old(self)@.gridsize, i as int, j as int) as usize,
            ),
    {
        if i >= self.gridsize || j >= self.gridsize {
            return Err(GameError::OutOfBounds);
        }
        self.moves = self.moves + 1;
        let idx = self.flat_index(i, j);
        if self.grid[idx].is_mine {
            return Ok(Outcome::Loss);
        }
        self.update_cells(i, j);
        proof {
            let gs = old(self)@.gridsize;
            assert(reaches(old(self)@.cells, gs, i as int, j as int, i as int, j as int, 0));
            assert(entered(old(self)@.cells, gs, i as int, j as int, i as int, j as int));
            lemma_cell_index_bound(gs, i as int, j as int);
        }
        Ok(Outcome::Continue)
    }
}

/// Popping the last element of a worklist keeps every other element: an
/// element of the old list is still there, or it was the popped one.
proof fn lemma_pop_contains(s: Seq<(usize, usize)>, x: (usize, usize))
    requires
        s.len() > 0,
        s.contains(x),
    ensures
        s.subrange(0, s.len() - 1).contains(x) || x == s[s.len() - 1],
{
    let t = choose|t: int| 0 <= t < s.len() && s[t] == x;
    if t < s.len() - 1 {
        assert(s.subrange(0, s.len() - 1)[t] == x);
    }
}

/// Replacing the cell at (ti, tj) changes that cell and no other.
proof fn lemma_set_cell_pointwise(cells0: Seq<Cell>, cells1: Seq<Cell>, gs: nat, ti: int, tj: int, c: Cell)
    requires
        cells0.len() == gs * gs,
        in_bounds(gs, ti, tj),
        cells1 == cells0.update(cell_index(gs, ti, tj), c),
    ensures
        cells1.len() == cells0.len(),
        state_at(cells1, gs, ti, tj) == c.state,
        mine_at(cells1, gs, ti, tj) == c.is_mine,
        forall|a: int, b: int|
            #![trigger cell_index(gs, a, b)]
            (in_bounds(gs, a, b) && !(a == ti && b == tj)) ==> (state_at(cells1, gs, a, b)
                == state_at(cells0, gs, a, b) && mine_at(cells1, gs, a, b) == mine_at(
                cells0,
                gs,
                a,
                b,
            )),
        forall|k: int|
            0 <= k < cells0.len() ==> #[trigger] cells1[k].is_mine == (if k == cell_index(
                gs,
                ti,
                tj,
            ) {
                c.is_mine
            } else {
                cells0[k].is_mine
            }),
{
    lemma_cell_index_bound(gs, ti, tj);
    assert forall|a: int, b: int|
        (in_bounds(gs, a, b) && !(a == ti && b == tj)) implies (state_at(cells1, gs, a, b)
        == state_at(cells0, gs, a, b) && mine_at(cells1, gs, a, b) == mine_at(
        cells0,
        gs,
        a,
        b,
    )) by {
        lemma_cell_index_bound(gs, a, b);
        lemma_cell_index_injective(gs, a, b, ti, tj);
    }
}

/// A layout of all-hidden, mine-free cells has no mines.
proof fn lemma_num_mines_empty_layout(cells: Seq<Cell>)
    requires
        forall|s: int|
            0 <= s < cells.len() ==> #[trigger] cells[s] == (Cell {
                state: CellState::Hidden,
                is_mine: false,
            }),
    ensures
        num_mines(cells) == 0,
    decreases cells.len(),
{
    if cells.len() > 0 {
        lemma_num_mines_empty_layout(cells.drop_first());
    }
}

} // verus!
