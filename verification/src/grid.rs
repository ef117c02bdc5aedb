//! The mathematical model of the square grid: row-major indexing, bounds,
//! the Moore neighborhood and its mine count, flood-fill reachability, and
//! counting functions used for termination and for bounding mine placement.

use vstd::prelude::*;
use crate::cells::Cell;
use crate::cells::CellState;

verus! {

/// Whether (i, j) is a cell of a gs-by-gs grid.
pub open spec fn in_bounds(gs: nat, i: int, j: int) -> bool {
    0 <= i < gs && 0 <= j < gs
}

/// The canonical row-major position of cell (i, j) in the flat sequence.
pub open spec fn cell_index(gs: nat, i: int, j: int) -> int {
    i * gs + j
}

/// The state of cell (i, j).
pub open spec fn state_at(cells: Seq<Cell>, gs: nat, i: int, j: int) -> CellState {
    cells[cell_index(gs, i, j)].state
}

/// Whether cell (i, j) holds a mine.
pub open spec fn mine_at(cells: Seq<Cell>, gs: nat, i: int, j: int) -> bool {
    cells[cell_index(gs, i, j)].is_mine
}

/// 1 if (i, j) is a cell of the grid and holds a mine, else 0.
pub open spec fn mine_ind(cells: Seq<Cell>, gs: nat, i: int, j: int) -> int {
    if in_bounds(gs, i, j) && mine_at(cells, gs, i, j) {
        1
    } else {
        0
    }
}

/// The number of mines among the up-to-8 cells adjacent to (i, j), clipped
/// to the grid boundary. The cell itself is not counted.
pub open spec fn nbr_mines(cells: Seq<Cell>, gs: nat, i: int, j: int) -> int {
    mine_ind(cells, gs, i - 1, j - 1) + mine_ind(cells, gs, i - 1, j) + mine_ind(
        cells,
        gs,
        i - 1,
        j + 1,
    ) + mine_ind(cells, gs, i, j - 1) + mine_ind(cells, gs, i, j + 1) + mine_ind(
        cells,
        gs,
        i + 1,
        j - 1,
    ) + mine_ind(cells, gs, i + 1, j) + mine_ind(cells, gs, i + 1, j + 1)
}

/// Whether two distinct cells touch horizontally, vertically or diagonally
/// (Moore neighborhood).
pub open spec fn adjacent(i1: int, j1: int, i2: int, j2: int) -> bool {
    i1 - i2 <= 1 && i2 - i1 <= 1 && j1 - j2 <= 1 && j2 - j1 <= 1 && !(i1 == i2 && j1 == j2)
}

/// Whether the flood fill started at (i0, j0) on the pre-reveal board
/// `cells` enters cell (a, b) within `n` propagation steps. The target
/// itself is always entered; propagation passes from an entered, not yet
/// visible cell with zero neighboring mines to each adjacent hidden cell.
pub open spec fn reaches(
    cells: Seq<Cell>,
    gs: nat,
    i0: int,
    j0: int,
    a: int,
    b: int,
    n: nat,
) -> bool
    decreases n,
{
    if a == i0 && b == j0 {
        true
    } else if n == 0 {
        false
    } else {
        exists|p: int, q: int|
            #[trigger] adjacent(p, q, a, b) && reaches(cells, gs, i0, j0, p, q, (n - 1) as nat)
                && in_bounds(gs, p, q) && !(state_at(cells, gs, p, q) is Visible) && nbr_mines(
                cells,
                gs,
                p,
                q,
            ) == 0 && in_bounds(gs, a, b) && state_at(cells, gs, a, b) is Hidden
    }
}

/// Whether the flood fill started at (i0, j0) enters cell (a, b) at all.
pub open spec fn entered(cells: Seq<Cell>, gs: nat, i0: int, j0: int, a: int, b: int) -> bool {
    exists|n: nat| reaches(cells, gs, i0, j0, a, b, n)
}

/// How a board's cells look after a reveal at (i0, j0): every cell the
/// flood fill enters shows the number of mines around it, every other cell
/// is unchanged, and no mine moves.
pub open spec fn flood_result(pre: Seq<Cell>, post: Seq<Cell>, gs: nat, i0: int, j0: int) -> bool {
    &&& post.len() == pre.len()
    &&& forall|a: int, b: int|
        #![trigger cell_index(gs, a, b)]
        in_bounds(gs, a, b) ==> {
            &&& mine_at(post, gs, a, b) == mine_at(pre, gs, a, b)
            &&& (entered(pre, gs, i0, j0, a, b) ==> state_at(post, gs, a, b) == CellState::Visible(
                nbr_mines(pre, gs, a, b) as usize,
            ))
            &&& (!entered(pre, gs, i0, j0, a, b) ==> state_at(post, gs, a, b) == state_at(
                pre,
                gs,
                a,
                b,
            ))
        }
}

/// The number of cells of `cells` that are not yet visible.
pub open spec fn num_concealed(cells: Seq<Cell>) -> nat
    decreases cells.len(),
{
    if cells.len() == 0 {
        0
    } else {
        (if cells[0].state is Visible {
            0nat
        } else {
            1nat
        }) + num_concealed(cells.drop_first())
    }
}

/// The number of cells of `cells` that hold a mine.
pub open spec fn num_mines(cells: Seq<Cell>) -> nat
    decreases cells.len(),
{
    if cells.len() == 0 {
        0
    } else {
        (if cells[0].is_mine {
            1nat
        } else {
            0nat
        }) + num_mines(cells.drop_first())
    }
}

/// A cell's row-major position lies inside the flat sequence.
pub proof fn lemma_cell_index_bound(gs: nat, i: int, j: int)
    by (nonlinear_arith)
    requires
        in_bounds(gs, i, j),
    ensures
        0 <= cell_index(gs, i, j) < gs * gs,
{
}

/// Row-major indexing is injective on the grid: equal positions mean equal
/// coordinates.
pub proof fn lemma_cell_index_injective(gs: nat, i1: int, j1: int, i2: int, j2: int)
    by (nonlinear_arith)
    requires
        in_bounds(gs, i1, j1),
        in_bounds(gs, i2, j2),
    ensures
        cell_index(gs, i1, j1) == cell_index(gs, i2, j2) ==> (i1 == i2 && j1 == j2),
{
}

/// Replacing one cell changes `num_concealed` exactly by the difference of
/// the two cells' concealment.
pub proof fn lemma_num_concealed_update(cells: Seq<Cell>, k: int, c: Cell)
    requires
        0 <= k < cells.len(),
    ensures
        num_concealed(cells.update(k, c)) == num_concealed(cells) - (if cells[k].state is Visible {
            0int
        } else {
            1int
        }) + (if c.state is Visible {
            0int
        } else {
            1int
        }),
    decreases cells.len(),
{
    let cells2 = cells.update(k, c);
    if k == 0 {
        assert(cells2.drop_first() =~= cells.drop_first());
    } else {
        assert(cells2.drop_first() =~= cells.drop_first().update(k - 1, c));
        lemma_num_concealed_update(cells.drop_first(), k - 1, c);
    }
}

/// Replacing one cell changes `num_mines` exactly by the difference of the
/// two cells' mine bits.
pub proof fn lemma_num_mines_update(cells: Seq<Cell>, k: int, c: Cell)
    requires
        0 <= k < cells.len(),
    ensures
        num_mines(cells.update(k, c)) == num_mines(cells) - (if cells[k].is_mine {
            1int
        } else {
            0int
        }) + (if c.is_mine {
            1int
        } else {
            0int
        }),
    decreases cells.len(),
{
    let cells2 = cells.update(k, c);
    if k == 0 {
        assert(cells2.drop_first() =~= cells.drop_first());
    } else {
        assert(cells2.drop_first() =~= cells.drop_first().update(k - 1, c));
        lemma_num_mines_update(cells.drop_first(), k - 1, c);
    }
}

/// The neighbor count reads only the mine bits: two boards with the same
/// mines agree on it.
pub proof fn lemma_nbr_mines_framing(c1: Seq<Cell>, c2: Seq<Cell>, gs: nat, i: int, j: int)
    requires
        c1.len() == gs * gs,
        c2.len() == gs * gs,
        forall|k: int| 0 <= k < c1.len() ==> c1[k].is_mine == #[trigger] c2[k].is_mine,
        in_bounds(gs, i, j),
    ensures
        nbr_mines(c1, gs, i, j) == nbr_mines(c2, gs, i, j),
{
    assert forall|a: int, b: int|
        in_bounds(gs, a, b) implies #[trigger] mine_at(c1, gs, a, b) == mine_at(
        c2,
        gs,
        a,
        b,
    ) by {
        lemma_cell_index_bound(gs, a, b);
    }
}

/// One propagation step: from an entered, not yet visible, zero-count cell
/// the flood fill enters each adjacent hidden cell.
pub proof fn lemma_reaches_step(
    cells: Seq<Cell>,
    gs: nat,
    i0: int,
    j0: int,
    p: int,
    q: int,
    a: int,
    b: int,
    n: nat,
)
    requires
        reaches(cells, gs, i0, j0, p, q, n),
        in_bounds(gs, p, q),
        !(state_at(cells, gs, p, q) is Visible),
        nbr_mines(cells, gs, p, q) == 0,
        adjacent(p, q, a, b),
        in_bounds(gs, a, b),
        state_at(cells, gs, a, b) is Hidden,
    ensures
        entered(cells, gs, i0, j0, a, b),
{
    if a == i0 && b == j0 {
        assert(reaches(cells, gs, i0, j0, a, b, 0));
    } else {
        let m: nat = n + 1;
        assert((m - 1) as nat == n);
        assert(reaches(cells, gs, i0, j0, a, b, m));
    }
}

/// Flood-fill correctness, one step from the target: when a reveal at a
/// not-yet-visible cell (i0, j0) with no mine around it is done, every
/// adjacent cell that was hidden is now visible with its own count. Chains
/// of zero-count cells follow by `lemma_reaches_step`.
pub proof fn lemma_flood_reveals_neighbors(
    pre: Seq<Cell>,
    post: Seq<Cell>,
    gs: nat,
    i0: int,
    j0: int,
    c: int,
    d: int,
)
    requires
        flood_result(pre, post, gs, i0, j0),
        in_bounds(gs, i0, j0),
        in_bounds(gs, c, d),
        !(state_at(pre, gs, i0, j0) is Visible),
        nbr_mines(pre, gs, i0, j0) == 0,
        adjacent(i0, j0, c, d),
        state_at(pre, gs, c, d) is Hidden,
    ensures
        state_at(post, gs, c, d) == CellState::Visible(nbr_mines(pre, gs, c, d) as usize),
{
    assert(reaches(pre, gs, i0, j0, i0, j0, 0));
    lemma_reaches_step(pre, gs, i0, j0, i0, j0, c, d, 0);
    lemma_cell_index_bound(gs, c, d);
}

/// Completeness of a finished flood fill: if the target is visible and
/// every newly revealed zero-count cell has spread to each of its hidden
/// neighbors, then every entered cell is visible.
pub proof fn lemma_entered_becomes_visible(
    pre: Seq<Cell>,
    post: Seq<Cell>,
    gs: nat,
    i0: int,
    j0: int,
    a: int,
    b: int,
    n: nat,
)
    requires
        pre.len() == gs * gs,
        post.len() == pre.len(),
        in_bounds(gs, i0, j0),
        state_at(post, gs, i0, j0) is Visible,
        forall|p: int, q: int, c: int, d: int|
            #![trigger state_at(post, gs, p, q), adjacent(p, q, c, d)]
            (in_bounds(gs, p, q) && state_at(post, gs, p, q) is Visible && !(state_at(
                pre,
                gs,
                p,
                q,
            ) is Visible) && nbr_mines(pre, gs, p, q) == 0 && adjacent(p, q, c, d) && in_bounds(
                gs,
                c,
                d,
            ) && state_at(pre, gs, c, d) is Hidden) ==> state_at(post, gs, c, d) is Visible,
        reaches(pre, gs, i0, j0, a, b, n),
    ensures
        state_at(post, gs, a, b) is Visible,
    decreases n,
{
    if a == i0 && b == j0 {
    } else {
        let (p, q) = choose|p: int, q: int|
            #[trigger] adjacent(p, q, a, b) && reaches(pre, gs, i0, j0, p, q, (n - 1) as nat)
                && in_bounds(gs, p, q) && !(state_at(pre, gs, p, q) is Visible) && nbr_mines(
                pre,
                gs,
                p,
                q,
            ) == 0 && in_bounds(gs, a, b) && state_at(pre, gs, a, b) is Hidden;
        lemma_entered_becomes_visible(pre, post, gs, i0, j0, p, q, (n - 1) as nat);
    }
}

} // verus!
