use vstd::prelude::*;

use crate::grid::{all_dead, cell, in_grid, lemma_same_cells_equal, set_cell, Grid, SIDE};

verus! {

/// 1 when `(r, c)` lies on the grid and holds a live cell, else 0.
/// Positions off the grid count as dead: the grid does not wrap.
pub open spec fn live_at(g: Grid, r: int, c: int) -> int {
    if in_grid(r, c) && cell(g, r, c) == 1 {
        1
    } else {
        0
    }
}

/// Number of live cells among the eight positions around `(r, c)`.
pub open spec fn live_neighbors(g: Grid, r: int, c: int) -> int {
    live_at(g, r - 1, c - 1) + live_at(g, r - 1, c) + live_at(g, r - 1, c + 1) + live_at(g, r, c - 1)
        + live_at(g, r, c + 1) + live_at(g, r + 1, c - 1) + live_at(g, r + 1, c) + live_at(
        g,
        r + 1,
        c + 1,
    )
}

/// The value of `(r, c)` one generation after `g`: a live cell survives with two or
/// three live neighbors, a dead cell is born with exactly three, every other cell is dead.
pub open spec fn next_cell(g: Grid, r: int, c: int) -> u8 {
    let n = live_neighbors(g, r, c);
    if cell(g, r, c) == 1 {
        if n == 2 || n == 3 {
            1
        } else {
            0
        }
    } else {
        if n == 3 {
            1
        } else {
            0
        }
    }
}

/// `h` is the generation that follows `g`.
pub open spec fn is_next_generation(h: Grid, g: Grid) -> bool {
    forall|r: int, c: int| in_grid(r, c) ==> #[trigger] cell(h, r, c) == next_cell(g, r, c)
}

/// A grid has only one next generation.
pub proof fn lemma_next_generation_unique(h1: Grid, h2: Grid, g: Grid)
    requires
        is_next_generation(h1, g),
        is_next_generation(h2, g),
    ensures
        h1 == h2,
{
    assert forall|r: int, c: int| in_grid(r, c) implies #[trigger] cell(h1, r, c) == cell(h2, r, c) by {
        assert(cell(h1, r, c) == next_cell(g, r, c));
        assert(cell(h2, r, c) == next_cell(g, r, c));
    }
    lemma_same_cells_equal(h1, h2);
}

/// 1 when `(r + dr, c + dc)` lies on the grid and is live, else 0.
fn live_at_offset(g: &Grid, r: usize, c: usize, dr: i8, dc: i8) -> (n: u8)
    requires
        r < 5,
        c < 5,
        -1 <= dr <= 1,
        -1 <= dc <= 1,
    ensures
        n == live_at(*g, r + dr, c + dc),
{
    let rr: i32 = r as i32 + dr as i32;
    let cc: i32 = c as i32 + dc as i32;
    if rr < 0 || rr >= 5 || cc < 0 || cc >= 5 {
        0
    } else if g[rr as usize][cc as usize] == 1 {
        assert(cell(*g, rr as int, cc as int) == 1);
        1
    } else {
        assert(cell(*g, rr as int, cc as int) != 1);
        0
    }
}

/// Counts the live neighbors of `(r, c)`.
pub fn count_live_neighbors(g: &Grid, r: usize, c: usize) -> (n: u8)
    requires
        r < 5,
        c < 5,
    ensures
        n == live_neighbors(*g, r as int, c as int),
        n <= 8,
{
    live_at_offset(g, r, c, -1, -1) + live_at_offset(g, r, c, -1, 0) + live_at_offset(g, r, c, -1, 1)
        + live_at_offset(g, r, c, 0, -1) + live_at_offset(g, r, c, 0, 1) + live_at_offset(
        g,
        r,
        c,
        1,
        -1,
    ) + live_at_offset(g, r, c, 1, 0) + live_at_offset(g, r, c, 1, 1)
}

/// Replaces the grid by its next generation. Every neighbor count is taken from a
/// copy of the grid as it stood before the call.
pub fn step(board: &mut Grid)
    ensures
        is_next_generation(*final(board), *old(board)),
{
    let prev: Grid = *board;
    for row in 0..SIDE
        invariant
            forall|i: int, j: int|
                in_grid(i, j) && i < row ==> #[trigger] cell(*board, i, j) == next_cell(prev, i, j),
    {
        for col in 0..SIDE
            invariant
                row < 5,
                forall|i: int, j: int|
                    in_grid(i, j) && (i < row || (i == row && j < col)) ==> #[trigger] cell(
                        *board,
                        i,
                        j,
                    ) == next_cell(prev, i, j),
        {
            let n = count_live_neighbors(&prev, row, col);
            let alive = prev[row][col] == 1;
            assert(alive == (cell(prev, row as int, col as int) == 1));
            let v: u8 = if alive {
                if n == 2 || n == 3 {
                    1
                } else {
                    0
                }
            } else if n == 3 {
                1
            } else {
                0
            };
            set_cell(board, row, col, v);
        }
    }
}

/// Reports whether the grid has nothing left to show: true exactly when every cell is 0.
pub fn is_stalled(board: &Grid) -> (r: bool)
    ensures
        r == all_dead(*board),
{
    for row in 0..SIDE
        invariant
            forall|i: int, j: int| in_grid(i, j) && i < row ==> #[trigger] cell(*board, i, j) == 0,
    {
        for col in 0..SIDE
            invariant
                row < 5,
                forall|i: int, j: int|
                    in_grid(i, j) && (i < row || (i == row && j < col)) ==> #[trigger] cell(
                        *board,
                        i,
                        j,
                    ) == 0,
        {
            if board[row][col] != 0 {
                assert(cell(*board, row as int, col as int) != 0);
                return false;
            }
            assert(cell(*board, row as int, col as int) == 0);
        }
    }
    true
}

/// No cell is born on a grid without live cells: the generation after an all-dead
/// grid is all-dead.
pub proof fn lemma_dead_grid_stays_dead(g: Grid, h: Grid)
    requires
        all_dead(g),
        is_next_generation(h, g),
    ensures
        all_dead(h),
{
    assert forall|r: int, c: int| in_grid(r, c) implies #[trigger] cell(h, r, c) == 0 by {
        assert(cell(h, r, c) == next_cell(g, r, c));
        assert forall|dr: int, dc: int| #[trigger] live_at(g, r + dr, c + dc) == 0 by {
            if in_grid(r + dr, c + dc) {
                assert(cell(g, r + dr, c + dc) == 0);
            }
        }
        assert(live_neighbors(g, r, c) == 0) by {
            assert(live_at(g, r + -1, c + -1) == 0);
            assert(live_at(g, r + -1, c + 0) == 0);
            assert(live_at(g, r + -1, c + 1) == 0);
            assert(live_at(g, r + 0, c + -1) == 0);
            assert(live_at(g, r + 0, c + 1) == 0);
            assert(live_at(g, r + 1, c + -1) == 0);
            assert(live_at(g, r + 1, c + 0) == 0);
            assert(live_at(g, r + 1, c + 1) == 0);
        }
    }
}

/// Every cell that is live in the next generation had two or three live neighbors,
/// and one that was not live before had exactly three; every neighbor count lies
/// between 0 and 8.
pub proof fn lemma_survival_and_birth(g: Grid, h: Grid, r: int, c: int)
    requires
        is_next_generation(h, g),
        in_grid(r, c),
    ensures
        0 <= live_neighbors(g, r, c) <= 8,
        cell(h, r, c) == 1 ==> live_neighbors(g, r, c) == 2 || live_neighbors(g, r, c) == 3,
        cell(h, r, c) == 1 && cell(g, r, c) != 1 ==> live_neighbors(g, r, c) == 3,
{
    assert(cell(h, r, c) == next_cell(g, r, c));
}

/// Once the grid is all-dead, every later generation is all-dead too, so the stall
/// test, which holds exactly on all-dead grids, holds again after every further step.
pub proof fn lemma_stall_persists(gens: Seq<Grid>)
    requires
        gens.len() > 0,
        all_dead(gens[0]),
        forall|i: int| 0 <= i < gens.len() - 1 ==> is_next_generation(#[trigger] gens[i + 1], gens[i]),
    ensures
        forall|i: int| 0 <= i < gens.len() ==> all_dead(#[trigger] gens[i]),
    decreases gens.len(),
{
    if gens.len() > 1 {
        let prefix = gens.drop_last();
        assert forall|i: int| 0 <= i < prefix.len() - 1 implies is_next_generation(
            #[trigger] prefix[i + 1],
            prefix[i],
        ) by {
            assert(is_next_generation(gens[i + 1], gens[i]));
        }
        lemma_stall_persists(prefix);
        let last = gens.len() - 1;
        assert(all_dead(prefix[last - 1]));
        assert(is_next_generation(gens[last - 1 + 1], gens[last - 1]));
        lemma_dead_grid_stays_dead(gens[last - 1], gens[last]);
        assert forall|i: int| 0 <= i < gens.len() implies all_dead(#[trigger] gens[i]) by {
            if i < last {
                assert(gens[i] == prefix[i]);
            }
        }
    }
}

} // verus!
