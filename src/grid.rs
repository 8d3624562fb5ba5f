use vstd::prelude::*;

verus! {

/// The 5×5 LED image: row-major, one `u8` per cell, 1 for lit and 0 for dark.
pub type Grid = [[u8; 5]; 5];

/// Side length of the grid.
pub const SIDE: usize = 5;

/// `(r, c)` names a cell of the grid.
pub open spec fn in_grid(r: int, c: int) -> bool {
    0 <= r < 5 && 0 <= c < 5
}

/// The value held at `(r, c)`.
pub open spec fn cell(g: Grid, r: int, c: int) -> u8 {
    g[r][c]
}

/// Every cell holds 0 or 1.
pub open spec fn is_binary(g: Grid) -> bool {
    forall|r: int, c: int| in_grid(r, c) ==> (#[trigger] cell(g, r, c) == 0 || cell(g, r, c) == 1)
}

/// Every cell holds 0.
pub open spec fn all_dead(g: Grid) -> bool {
    forall|r: int, c: int| in_grid(r, c) ==> #[trigger] cell(g, r, c) == 0
}

/// The flipped value of one cell: 0 becomes 1, anything else becomes 0.
pub open spec fn flip(v: u8) -> u8 {
    if v == 0 {
        1
    } else {
        0
    }
}

/// `h` is `g` with every cell flipped.
pub open spec fn is_complement_of(h: Grid, g: Grid) -> bool {
    forall|r: int, c: int| in_grid(r, c) ==> #[trigger] cell(h, r, c) == flip(cell(g, r, c))
}

/// Two grids agree on every cell.
pub open spec fn same_cells(a: Grid, b: Grid) -> bool {
    forall|r: int, c: int| in_grid(r, c) ==> #[trigger] cell(a, r, c) == cell(b, r, c)
}

/// Grids that agree on every cell are equal.
pub proof fn lemma_same_cells_equal(a: Grid, b: Grid)
    requires
        same_cells(a, b),
    ensures
        a == b,
{
    assert forall|r: int| 0 <= r < 5 implies a[r] == b[r] by {
        assert forall|c: int| 0 <= c < 5 implies a[r][c] == b[r][c] by {
            assert(cell(a, r, c) == cell(b, r, c));
        }
        assert(a[r] =~= b[r]);
    }
    assert(a =~= b);
}

/// Writes `v` into cell `(r, c)` and leaves every other cell as it was.
pub fn set_cell(g: &mut Grid, r: usize, c: usize, v: u8)
    requires
        r < 5,
        c < 5,
    ensures
        cell(*final(g), r as int, c as int) == v,
        forall|i: int, j: int|
            in_grid(i, j) && (i != r || j != c) ==> #[trigger] cell(*final(g), i, j) == cell(
                *old(g),
                i,
                j,
            ),
{
    let mut row = g[r];
    row[c] = v;
    g[r] = row;
}

/// Flips every cell of the grid in place.
pub fn complement_board(board: &mut Grid)
    ensures
        is_complement_of(*final(board), *old(board)),
        is_binary(*final(board)),
{
    let ghost before = *board;
    for row in 0..SIDE
        invariant
            forall|i: int, j: int|
                in_grid(i, j) ==> #[trigger] cell(*board, i, j) == if i < row {
                    flip(cell(before, i, j))
                } else {
                    cell(before, i, j)
                },
    {
        for col in 0..SIDE
            invariant
                row < 5,
                forall|i: int, j: int|
                    in_grid(i, j) ==> #[trigger] cell(*board, i, j) == if i < row || (i == row
                        && j < col) {
                        flip(cell(before, i, j))
                    } else {
                        cell(before, i, j)
                    },
        {
            let current = board[row][col];
            assert(cell(*board, row as int, col as int) == current);
            set_cell(board, row, col, if current == 0 { 1 } else { 0 });
        }
    }
}

/// Complementing twice gives back the grid one started from.
pub proof fn lemma_complement_involutive(g: Grid, h: Grid, k: Grid)
    requires
        is_binary(g),
        is_complement_of(h, g),
        is_complement_of(k, h),
    ensures
        k == g,
{
    assert forall|r: int, c: int| in_grid(r, c) implies #[trigger] cell(k, r, c) == cell(g, r, c) by {
        assert(cell(k, r, c) == flip(cell(h, r, c)));
        assert(cell(h, r, c) == flip(cell(g, r, c)));
    }
    lemma_same_cells_equal(k, g);
}

} // verus!
