use vstd::prelude::*;

use crate::grid::{cell, in_grid, is_binary, lemma_same_cells_equal, set_cell, Grid, SIDE};

verus! {

/// A source of random bytes, one per call. Nothing is promised of the values.
pub trait RandomSource {
    fn next_byte(&mut self) -> u8;
}

#[verifier::external_type_specification]
#[verifier::external_body]
pub struct ExRng(microbit::hal::Rng);

/// Relies on `nrf_hal_common::rng::Rng::random_u8`: one byte from the hardware
/// random number generator.
#[verifier::external_body]
fn draw_byte(rng: &mut microbit::hal::Rng) -> u8 {
    rng.random_u8()
}

impl RandomSource for microbit::hal::Rng {
    fn next_byte(&mut self) -> u8 {
        draw_byte(self)
    }
}

/// Cell value for a random byte: live at or above the middle of the byte range.
pub open spec fn cell_of_byte(b: u8) -> u8 {
    if b >= 128 {
        1
    } else {
        0
    }
}

/// Turns one random byte into a cell value.
pub fn cell_from_byte(b: u8) -> (v: u8)
    ensures
        v == cell_of_byte(b),
{
    if b >= 128 {
        1
    } else {
        0
    }
}

/// Cell `(r, c)` of `g` holds the value of byte `5 * r + c`: the bytes fill the grid
/// row by row.
pub open spec fn filled_from(g: Grid, bytes: Seq<u8>) -> bool {
    forall|r: int, c: int| in_grid(r, c) ==> #[trigger] cell(g, r, c) == cell_of_byte(bytes[5 * r + c])
}

/// Overwrites every cell from `bytes`, read row by row, one byte per cell.
pub fn fill_from_bytes(board: &mut Grid, bytes: &Vec<u8>)
    requires
        bytes@.len() == 25,
    ensures
        filled_from(*final(board), bytes@),
{
    for row in 0..SIDE
        invariant
            bytes@.len() == 25,
            forall|i: int, j: int|
                in_grid(i, j) && i < row ==> #[trigger] cell(*board, i, j) == cell_of_byte(
                    bytes@[5 * i + j],
                ),
    {
        for col in 0..SIDE
            invariant
                row < 5,
                bytes@.len() == 25,
                forall|i: int, j: int|
                    in_grid(i, j) && (i < row || (i == row && j < col)) ==> #[trigger] cell(
                        *board,
                        i,
                        j,
                    ) == cell_of_byte(bytes@[5 * i + j]),
        {
            set_cell(board, row, col, cell_from_byte(bytes[5 * row + col]));
        }
    }
}

/// Draws 25 bytes from `rng` and overwrites every cell from them, row by row.
/// Returns the bytes drawn, in the order they were drawn.
pub fn randomize_board<R: RandomSource>(board: &mut Grid, rng: &mut R) -> (drawn: Vec<u8>)
    ensures
        drawn@.len() == 25,
        filled_from(*final(board), drawn@),
        is_binary(*final(board)),
{
    let mut drawn: Vec<u8> = Vec::new();
    for _i in 0..25usize
        invariant
            drawn@.len() == _i,
    {
        drawn.push(rng.next_byte());
    }
    fill_from_bytes(board, &drawn);
    drawn
}

/// Grids filled from the same bytes are equal, whatever they held before.
pub proof fn lemma_fill_determined(g1: Grid, g2: Grid, bytes: Seq<u8>)
    requires
        filled_from(g1, bytes),
        filled_from(g2, bytes),
    ensures
        g1 == g2,
{
    assert forall|r: int, c: int| in_grid(r, c) implies #[trigger] cell(g1, r, c) == cell(g2, r, c) by {
        assert(cell(g1, r, c) == cell_of_byte(bytes[5 * r + c]));
        assert(cell(g2, r, c) == cell_of_byte(bytes[5 * r + c]));
    }
    lemma_same_cells_equal(g1, g2);
}

} // verus!
