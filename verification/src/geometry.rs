//! The layout of a grid in memory: rows one after the other, the top row
//! first, each row from left to right.

use vstd::prelude::*;
use vstd::arithmetic::div_mod::{
    lemma_fundamental_div_mod, lemma_fundamental_div_mod_converse, lemma_mod_bound,
};

verus! {

/// The row of the cell with index `i` in a grid of width `w`.
pub open spec fn row_of(w: int, i: int) -> int {
    i / w
}

/// The column of the cell with index `i` in a grid of width `w`.
pub open spec fn col_of(w: int, i: int) -> int {
    i % w
}

/// The index of column `x` in row `y` lies in that row and that column.
pub proof fn lemma_coordinates(w: int, x: int, y: int)
    requires
        0 <= x < w,
    ensures
        row_of(w, y * w + x) == y,
        col_of(w, y * w + x) == x,
{
    lemma_fundamental_div_mod_converse(y * w + x, w, y, x);
}

/// A cell of the grid has an index of the grid, and that index names the
/// cell's column and row.
pub proof fn lemma_index_of_cell(w: int, h: int, x: int, y: int)
    requires
        0 <= x < w,
        0 <= y < h,
    ensures
        0 <= y * w,
        0 <= y * w + x < w * h,
        y * w + w <= w * h,
        row_of(w, y * w + x) == y,
        col_of(w, y * w + x) == x,
{
    lemma_coordinates(w, x, y);
    assert(0 <= y * w) by (nonlinear_arith)
        requires
            0 <= y,
            0 < w,
    ;
    assert((y + 1) * w <= h * w) by (nonlinear_arith)
        requires
            y + 1 <= h,
            0 < w,
    ;
    assert((y + 1) * w == y * w + w) by (nonlinear_arith);
    assert(h * w == w * h) by (nonlinear_arith);
}

/// An index of the grid names a cell of the grid: its column and its row lie
/// within the grid, and they give the index back.
pub proof fn lemma_cell_of_index(w: int, h: int, i: int)
    requires
        0 < w,
        0 <= i < w * h,
    ensures
        0 <= col_of(w, i) < w,
        0 <= row_of(w, i) < h,
        i == row_of(w, i) * w + col_of(w, i),
{
    lemma_fundamental_div_mod(i, w);
    lemma_mod_bound(i, w);
    let q = i / w;
    let m = i % w;
    assert(q * w == w * q) by (nonlinear_arith);
    assert(0 <= q < h) by (nonlinear_arith)
        requires
            0 < w,
            0 <= m < w,
            0 <= w * q + m < w * h,
    ;
}

} // verus!
