use vstd::prelude::*;

use crate::matrix::{GridView, PixelMatrix};
use crate::sums::{lemma_rect_sum_bounds, rect_sum, row_sum};
use vstd::arithmetic::div_mod::{
    lemma_div_is_ordered, lemma_div_multiples_vanish, lemma_div_pos_is_pos,
    lemma_fundamental_div_mod_converse,
};
use vstd::arithmetic::mul::{lemma_mul_inequality, lemma_mul_nonnegative};

verus! {

/// First source column (or row) covered by canonical cell `c` when a span of
/// `n` samples is reduced to 32 cells by area averaging.
pub open spec fn box_lo(c: int, n: int) -> int {
    (c * n) / 32
}

/// One past the last source column (or row) covered by canonical cell `c`;
/// always strictly beyond `box_lo`, so every cell averages at least one
/// sample.
pub open spec fn box_hi(c: int, n: int) -> int {
    let a = ((c + 1) * n) / 32;
    if a > box_lo(c, n) + 1 {
        a
    } else {
        box_lo(c, n) + 1
    }
}

pub proof fn lemma_box_bounds(c: int, n: int)
    requires
        0 <= c < 32,
        n >= 1,
    ensures
        0 <= box_lo(c, n),
        box_lo(c, n) + 1 <= box_hi(c, n),
        box_hi(c, n) <= n,
    decreases 0int,
{
    lemma_mul_nonnegative(c, n);
    lemma_div_pos_is_pos(c * n, 32);
    // box_lo(c, n) <= n - 1
    lemma_mul_inequality(c, 31, n);
    assert(31 * n <= 32 * n - 1);
    lemma_div_is_ordered(c * n, 32 * n - 1, 32);
    lemma_fundamental_div_mod_converse(32 * n - 1, 32, n - 1, 31);
    // ((c + 1) * n) / 32 <= n
    lemma_mul_inequality(c + 1, 32, n);
    lemma_div_is_ordered((c + 1) * n, 32 * n, 32);
    lemma_div_multiples_vanish(n, 32);
}

/// The area-averaged sample of canonical cell `(u, v)`: the mean of the
/// source rectangle that the cell covers.
pub open spec fn resized(g: GridView, u: int, v: int) -> int {
    let x0 = box_lo(u, g.width as int);
    let x1 = box_hi(u, g.width as int);
    let y0 = box_lo(v, g.height as int);
    let y1 = box_hi(v, g.height as int);
    rect_sum(g, x0, x1, y0, y1) / ((x1 - x0) * (y1 - y0))
}

/// Reduces the image to the canonical 32 x 32 grid by area averaging; cell
/// `(u, v)` lands at flat index `v * 32 + u`.
pub fn resize32(m: &PixelMatrix) -> (r: Vec<i64>)
    requires
        m.wf(),
        m@.width >= 1,
        m@.height >= 1,
    ensures
        r@.len() == 1024,
        forall|k: int|
            0 <= k < 1024 ==> #[trigger] r@[k] == resized(m@, k % 32, k / 32) && 0 <= r@[k] <= 255,
{
    let w: usize = m.width();
    let h: usize = m.height();
    let n: usize = m.data_len();
    let mut r: Vec<i64> = Vec::new();
    let mut v: usize = 0;
    while v < 32
        invariant
            v <= 32,
            r@.len() == v * 32,
            m.wf(),
            m@.width == w,
            m@.height == h,
            1 <= w,
            1 <= h,
            n == m@.data.len(),
            forall|k: int|
                0 <= k < r@.len() ==> #[trigger] r@[k] == resized(m@, k % 32, k / 32) && 0 <= r@[k]
                    <= 255,
        decreases 32 - v,
    {
        proof {
            lemma_box_bounds(v as int, h as int);
            assert((v as int + 1) * (h as int) <= 32 * 0xffff_ffff_ffff_ffffu128) by (nonlinear_arith)
                requires
                    0 <= v < 32,
                    h <= 0xffff_ffff_ffff_ffffu128,
            ;
        }
        let y0: usize = ((v as u128 * h as u128) / 32) as usize;
        let a_y: u128 = ((v as u128 + 1) * h as u128) / 32;
        let y1: usize = if a_y > y0 as u128 + 1 {
            a_y as usize
        } else {
            y0 + 1
        };
        assert(y0 == box_lo(v as int, h as int) && y1 == box_hi(v as int, h as int));
        let mut u: usize = 0;
        while u < 32
            invariant
                u <= 32,
                v < 32,
                r@.len() == v * 32 + u,
                m.wf(),
                m@.width == w,
                m@.height == h,
                1 <= w,
                1 <= h,
                n == m@.data.len(),
                y0 == box_lo(v as int, h as int),
                y1 == box_hi(v as int, h as int),
                0 <= y0 < y1 <= h,
                forall|k: int|
                    0 <= k < r@.len() ==> #[trigger] r@[k] == resized(m@, k % 32, k / 32) && 0
                        <= r@[k] <= 255,
            decreases 32 - u,
        {
            proof {
                lemma_box_bounds(u as int, w as int);
                assert((u as int + 1) * (w as int) <= 32 * 0xffff_ffff_ffff_ffffu128)
                    by (nonlinear_arith)
                    requires
                        0 <= u < 32,
                        w <= 0xffff_ffff_ffff_ffffu128,
                ;
            }
            let x0: usize = ((u as u128 * w as u128) / 32) as usize;
            let a_x: u128 = ((u as u128 + 1) * w as u128) / 32;
            let x1: usize = if a_x > x0 as u128 + 1 {
                a_x as usize
            } else {
                x0 + 1
            };
            assert(x0 == box_lo(u as int, w as int) && x1 == box_hi(u as int, w as int));
            proof {
                assert(0 <= (x1 - x0) * (y1 - y0) && (x1 - x0) * (y1 - y0) <= w as int * h as int)
                    by (nonlinear_arith)
                    requires
                        0 <= x0 < x1 <= w as int,
                        0 <= y0 < y1 <= h as int,
                ;
                assert(w as int * h as int == m@.width * m@.height);
            }
            let mut acc: u128 = 0;
            let mut y: usize = y0;
            while y < y1
                invariant
                    y0 <= y <= y1,
                    m.wf(),
                    m@.width == w,
                    m@.height == h,
                    n == m@.data.len(),
                    0 <= x0 < x1 <= w,
                    0 <= y0 < y1 <= h,
                    (x1 - x0) * (y1 - y0) <= w as int * h as int,
                    w as int * h as int == n,
                    acc == rect_sum(m@, x0 as int, x1 as int, y0 as int, y as int),
                decreases y1 - y,
            {
                let mut x: usize = x0;
                while x < x1
                    invariant
                        x0 <= x <= x1,
                        y0 <= y < y1,
                        m.wf(),
                        m@.width == w,
                        m@.height == h,
                        n == m@.data.len(),
                        0 <= x0 < x1 <= w,
                        0 <= y0 < y1 <= h,
                        (x1 - x0) * (y1 - y0) <= w as int * h as int,
                        w as int * h as int == n,
                        acc == rect_sum(m@, x0 as int, x1 as int, y0 as int, y as int) + row_sum(
                            m@,
                            y as int,
                            x0 as int,
                            x as int,
                        ),
                    decreases x1 - x,
                {
                    proof {
                        lemma_rect_sum_bounds(m@, x0 as int, x1 as int, y0 as int, y as int);
                        crate::sums::lemma_row_sum_bounds(m@, y as int, x0 as int, x as int);
                        assert(255 * ((x1 - x0) * (y - y0)) + 255 * (x - x0) <= 255 * (n as int))
                            by (nonlinear_arith)
                            requires
                                0 <= x0 <= x < x1,
                                0 <= y0 <= y < y1,
                                (x1 - x0) * (y1 - y0) <= n as int,
                        ;
                    }
                    let p: u8 = m.at(x, y);
                    acc = acc + p as u128;
                    x += 1;
                }
                y += 1;
            }
            proof {
                assert(1 <= (x1 - x0) as int * (y1 - y0) as int) by (nonlinear_arith)
                    requires
                        1 <= (x1 - x0) as int,
                        1 <= (y1 - y0) as int,
                ;
            }
            let count: u128 = (x1 - x0) as u128 * (y1 - y0) as u128;
            proof {
                lemma_rect_sum_bounds(m@, x0 as int, x1 as int, y0 as int, y1 as int);
                assert(count > 0);
                lemma_div_is_ordered(acc as int, 255 * count as int, count as int);
                lemma_div_multiples_vanish(255, count as int);
                assert(count * 255 == 255 * count) by (nonlinear_arith);
            }
            let q: u128 = acc / count;
            r.push(q as i64);
            proof {
                let k = v as int * 32 + u as int;
                lemma_fundamental_div_mod_converse(k, 32, v as int, u as int);
                assert(r@[k] == resized(m@, u as int, v as int));
            }
            u += 1;
        }
        v += 1;
    }
    r
}

} // verus!
