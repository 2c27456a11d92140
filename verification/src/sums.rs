use vstd::prelude::*;

use crate::matrix::GridView;

verus! {

/// Sum of the samples of row `y` in columns `x0 .. x1`.
pub open spec fn row_sum(g: GridView, y: int, x0: int, x1: int) -> int
    decreases x1 - x0,
{
    if x1 <= x0 {
        0
    } else {
        row_sum(g, y, x0, x1 - 1) + g.px(x1 - 1, y)
    }
}

/// Sum of the samples of column `x` in rows `y0 .. y1`.
pub open spec fn col_sum(g: GridView, x: int, y0: int, y1: int) -> int
    decreases y1 - y0,
{
    if y1 <= y0 {
        0
    } else {
        col_sum(g, x, y0, y1 - 1) + g.px(x, y1 - 1)
    }
}

/// Sum of the samples in the rectangle of columns `x0 .. x1` and rows
/// `y0 .. y1`.
pub open spec fn rect_sum(g: GridView, x0: int, x1: int, y0: int, y1: int) -> int
    decreases y1 - y0,
{
    if y1 <= y0 {
        0
    } else {
        rect_sum(g, x0, x1, y0, y1 - 1) + row_sum(g, y1 - 1, x0, x1)
    }
}

/// A row segment of samples sums to a value between 0 and 255 per cell.
pub proof fn lemma_row_sum_bounds(g: GridView, y: int, x0: int, x1: int)
    ensures
        0 <= row_sum(g, y, x0, x1),
        row_sum(g, y, x0, x1) <= 255 * (if x1 >= x0 { x1 - x0 } else { 0 }),
    decreases x1 - x0,
{
    if x1 > x0 {
        lemma_row_sum_bounds(g, y, x0, x1 - 1);
    }
}

/// A column segment of samples sums to a value between 0 and 255 per cell.
pub proof fn lemma_col_sum_bounds(g: GridView, x: int, y0: int, y1: int)
    ensures
        0 <= col_sum(g, x, y0, y1),
        col_sum(g, x, y0, y1) <= 255 * (if y1 >= y0 { y1 - y0 } else { 0 }),
    decreases y1 - y0,
{
    if y1 > y0 {
        lemma_col_sum_bounds(g, x, y0, y1 - 1);
    }
}

/// A rectangle of samples sums to a value between 0 and 255 per cell.
pub proof fn lemma_rect_sum_bounds(g: GridView, x0: int, x1: int, y0: int, y1: int)
    requires
        x0 <= x1,
        y0 <= y1,
    ensures
        0 <= rect_sum(g, x0, x1, y0, y1),
        rect_sum(g, x0, x1, y0, y1) <= 255 * ((x1 - x0) * (y1 - y0)),
    decreases y1 - y0,
{
    if y1 > y0 {
        lemma_rect_sum_bounds(g, x0, x1, y0, y1 - 1);
        lemma_row_sum_bounds(g, y1 - 1, x0, x1);
        assert(255 * ((x1 - x0) * (y1 - y0 - 1)) + 255 * (x1 - x0) == 255 * ((x1 - x0) * (y1
            - y0))) by (nonlinear_arith);
    } else {
        assert(255 * ((x1 - x0) * 0) == 0) by (nonlinear_arith);
    }
}

} // verus!
