//! Row-major cell indexing shared by every two-dimensional buffer.

use vstd::prelude::*;
use vstd::arithmetic::div_mod::lemma_fundamental_div_mod_converse;

verus! {

/// Cell `(x, y)` of a row-major grid `width` cells wide sits at
/// `y * width + x`, inside the grid, and that index gives `x` and `y` back.
pub proof fn lemma_cell_index(width: int, height: int, x: int, y: int)
    requires
        0 <= x < width,
        0 <= y < height,
    ensures
        0 <= y * width + x < width * height,
        (y * width + x) / width == y,
        (y * width + x) % width == x,
{
    assert(0 <= y * width) by (nonlinear_arith)
        requires
            0 <= y,
            0 < width,
    ;
    assert(y * width + x < width * height) by (nonlinear_arith)
        requires
            0 <= x < width,
            0 <= y < height,
    ;
    lemma_fundamental_div_mod_converse(y * width + x, width, y, x);
}

/// A grid of `height` rows grows by `width` cells with each row.
pub proof fn lemma_next_row(width: int, y: int)
    ensures
        (y + 1) * width == y * width + width,
{
    assert((y + 1) * width == y * width + width) by (nonlinear_arith);
}

} // verus!
