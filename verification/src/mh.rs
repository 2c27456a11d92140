use vstd::prelude::*;

use crate::matrix::{GridView, PixelMatrix};
use crate::median::{median_of, spec_median};
use crate::sums::{col_sum, lemma_col_sum_bounds, lemma_row_sum_bounds, rect_sum, row_sum};
use crate::MHImageHashArgs;
use vstd::arithmetic::div_mod::{
    lemma_div_is_ordered, lemma_div_multiples_vanish, lemma_fundamental_div_mod_converse,
};

verus! {

/// First cell covered by a blur window of radius `rad` centred at `c`.
pub open spec fn win_lo(c: int, rad: int) -> int {
    if c >= rad {
        c - rad
    } else {
        0
    }
}

/// One past the last cell covered by a blur window of radius `rad` centred
/// at `c`, in a span of `n` cells.
pub open spec fn win_hi(c: int, rad: int, n: int) -> int {
    if c + rad + 1 <= n {
        c + rad + 1
    } else {
        n
    }
}

/// The horizontal box-blur response at `(x, y)`: the mean over the clamped
/// window of radius `rad` in row `y`.
pub open spec fn blur_h_px(g: GridView, rad: int, x: int, y: int) -> int {
    let lo = win_lo(x, rad);
    let hi = win_hi(x, rad, g.width as int);
    row_sum(g, y, lo, hi) / (hi - lo)
}

/// The grid of horizontal box-blur responses.
pub open spec fn blur_h_grid(g: GridView, rad: int) -> GridView {
    GridView {
        width: g.width,
        height: g.height,
        data: Seq::new(
            g.width * g.height,
            |k: int| blur_h_px(g, rad, k % g.width as int, k / g.width as int) as u8,
        ),
    }
}

/// The vertical box-blur response at `(x, y)`: the mean over the clamped
/// window of radius `rad` in column `x`.
pub open spec fn blur_v_px(g: GridView, rad: int, x: int, y: int) -> int {
    let lo = win_lo(y, rad);
    let hi = win_hi(y, rad, g.height as int);
    col_sum(g, x, lo, hi) / (hi - lo)
}

/// The grid of vertical box-blur responses.
pub open spec fn blur_v_grid(g: GridView, rad: int) -> GridView {
    GridView {
        width: g.width,
        height: g.height,
        data: Seq::new(
            g.width * g.height,
            |k: int| blur_v_px(g, rad, k % g.width as int, k / g.width as int) as u8,
        ),
    }
}

/// The separable box blur of radius `rad`: a horizontal pass followed by a
/// vertical pass.
pub open spec fn blur_grid(g: GridView, rad: int) -> GridView {
    blur_v_grid(blur_h_grid(g, rad), rad)
}

/// The absolute difference of two samples.
pub open spec fn absdiff(a: u8, b: u8) -> u8 {
    if a >= b {
        (a - b) as u8
    } else {
        (b - a) as u8
    }
}

/// The gradient-response map: the cellwise absolute difference of two
/// blurred grids of adjacent scales, approximating a Laplacian-of-Gaussian
/// response.
pub open spec fn dog_grid(a: GridView, b: GridView) -> GridView {
    GridView {
        width: a.width,
        height: a.height,
        data: Seq::new(a.width * a.height, |k: int| absdiff(a.data[k], b.data[k])),
    }
}

/// The aggregate response of the non-overlapping 16 x 16 block with block
/// coordinates `(bx, by)`: the mean absolute response over its cells.
pub open spec fn block_val(g: GridView, bx: int, by: int) -> int {
    rect_sum(g, bx * 16, bx * 16 + 16, by * 16, by * 16 + 16) / 256
}

/// All block responses of a map, row-major over whole blocks.
pub open spec fn block_vals_seq(g: GridView) -> Seq<i64> {
    Seq::new(
        (g.width / 16) * (g.height / 16),
        |i: int| block_val(g, i % (g.width / 16) as int, i / (g.width / 16) as int) as i64,
    )
}

/// One bit per block of a gradient-response map: set exactly when the block
/// response is strictly greater than the median block response of the map.
pub open spec fn map_bits(g: GridView) -> Seq<bool> {
    let vals = block_vals_seq(g);
    if vals.len() == 0 {
        Seq::empty()
    } else {
        let med = spec_median(vals);
        Seq::new(vals.len(), |i: int| vals[i] > med)
    }
}

/// The smaller image dimension; blur radii never grow beyond it.
pub open spec fn grid_cap(g: GridView) -> int {
    if g.width <= g.height {
        g.width as int
    } else {
        g.height as int
    }
}

/// The blur radius of scale `k`: radii start at 2 and grow geometrically by
/// `alpha`, by at least one cell per scale, clamped to the smaller image
/// dimension.
pub open spec fn radius_at(alpha_q8: int, cap: int, k: int) -> int
    decreases k,
{
    if k <= 0 {
        if 2 <= cap {
            2
        } else {
            cap
        }
    } else {
        let prev = radius_at(alpha_q8, cap, k - 1);
        let grown = if (prev * alpha_q8) / 256 >= prev + 1 {
            (prev * alpha_q8) / 256
        } else {
            prev + 1
        };
        if grown <= cap {
            grown
        } else {
            cap
        }
    }
}

pub proof fn lemma_radius_bounds(alpha_q8: int, cap: int, k: int)
    requires
        cap >= 1,
        k >= 0,
    ensures
        1 <= radius_at(alpha_q8, cap, k) <= cap,
    decreases k,
{
    if k > 0 {
        lemma_radius_bounds(alpha_q8, cap, k - 1);
    }
}

/// How many scale levels the `level` parameter asks for, capped at 64; each
/// level adds one gradient map beyond the first.
pub open spec fn num_levels(level_q8: int) -> int {
    if level_q8 / 256 < 64 {
        level_q8 / 256
    } else {
        64
    }
}

/// The number of gradient-response maps combined into the hash.
pub open spec fn num_maps(level_q8: int) -> int {
    num_levels(level_q8) + 1
}

/// The gradient-response map of scale `k`: the difference of the blurs at
/// radii `k + 1` and `k`.
pub open spec fn dog_at(g: GridView, alpha_q8: int, k: int) -> GridView {
    dog_grid(
        blur_grid(g, radius_at(alpha_q8, grid_cap(g), k + 1)),
        blur_grid(g, radius_at(alpha_q8, grid_cap(g), k)),
    )
}

/// The bits of the first `j` gradient maps, concatenated in increasing
/// scale order, each map's blocks row-major.
pub open spec fn bits_upto(g: GridView, alpha_q8: int, j: int) -> Seq<bool>
    decreases j,
{
    if j <= 0 {
        Seq::empty()
    } else {
        bits_upto(g, alpha_q8, j - 1) + map_bits(dog_at(g, alpha_q8, j - 1))
    }
}

/// All hash bits of a grid under the given parameters.
pub open spec fn mh_bits(g: GridView, alpha_q8: int, level_q8: int) -> Seq<bool> {
    bits_upto(g, alpha_q8, num_maps(level_q8))
}

/// The value of the byte that holds bits `8j .. 8j + t` of the bit stream,
/// most significant bit first; bits beyond the stream are zero padding.
pub open spec fn byte_bits(bits: Seq<bool>, j: int, t: int) -> int
    decreases t,
{
    if t <= 0 {
        0
    } else {
        2 * byte_bits(bits, j, t - 1) + (if 8 * j + (t - 1) < bits.len() && bits[8 * j + (t - 1)] {
            1int
        } else {
            0int
        })
    }
}

pub proof fn lemma_byte_bits_bound(bits: Seq<bool>, j: int, t: int)
    requires
        0 <= t <= 8,
    ensures
        0 <= byte_bits(bits, j, t) < 256,
{
    lemma_byte_bits_bound_rec(bits, j, t);
    lemma_pow2_small_le(t);
}

proof fn lemma_pow2_small_le(t: int)
    requires
        t <= 8,
    ensures
        pow2_small(t) <= 256,
    decreases 8 - t,
{
    if t < 8 {
        lemma_pow2_small_le(t + 1);
    } else if t == 8 {
        assert(pow2_small(0) == 1);
        assert(pow2_small(1) == 2);
        assert(pow2_small(2) == 4);
        assert(pow2_small(3) == 8);
        assert(pow2_small(4) == 16);
        assert(pow2_small(5) == 32);
        assert(pow2_small(6) == 64);
        assert(pow2_small(7) == 128);
        assert(pow2_small(8) == 256);
    }
}

proof fn lemma_byte_bits_bound_rec(bits: Seq<bool>, j: int, t: int)
    requires
        0 <= t <= 8,
    ensures
        0 <= byte_bits(bits, j, t),
        byte_bits(bits, j, t) < pow2_small(t),
    decreases t,
{
    if t > 0 {
        lemma_byte_bits_bound_rec(bits, j, t - 1);
    }
}

/// Two to the power `t`, for the small exponents byte packing needs.
pub open spec fn pow2_small(t: int) -> int
    decreases t,
{
    if t <= 0 {
        1
    } else {
        2 * pow2_small(t - 1)
    }
}

/// Packs a bit stream into bytes, eight bits per byte, most significant bit
/// first, the last byte padded with zero bits.
pub open spec fn pack_bits(bits: Seq<bool>) -> Seq<u8> {
    Seq::new((bits.len() + 7) / 8, |j: int| byte_bits(bits, j, 8) as u8)
}

/// The multi-resolution hash of a grid: the packed block-threshold bits of
/// all gradient-response maps.
pub open spec fn spec_mh_hash(g: GridView, alpha_q8: int, level_q8: int) -> Seq<u8> {
    pack_bits(mh_bits(g, alpha_q8, level_q8))
}

/// The byte length of the multi-resolution hash; it depends only on the
/// image dimensions and the `level` parameter.
pub open spec fn spec_mh_len(w: int, h: int, level_q8: int) -> int {
    (num_maps(level_q8) * ((w / 16) * (h / 16)) + 7) / 8
}

/// Every gradient map of `g` contributes one bit per whole 16 x 16 block.
pub proof fn lemma_bits_upto_len(g: GridView, alpha_q8: int, j: int)
    requires
        j >= 0,
    ensures
        bits_upto(g, alpha_q8, j).len() == j * ((g.width / 16) * (g.height / 16)),
    decreases j,
{
    if j > 0 {
        lemma_bits_upto_len(g, alpha_q8, j - 1);
        let d = dog_at(g, alpha_q8, j - 1);
        assert(d.width == g.width && d.height == g.height);
        assert(map_bits(d).len() == (g.width / 16) * (g.height / 16));
        assert((j - 1) * ((g.width / 16) * (g.height / 16)) + (g.width / 16) * (g.height / 16) == j
            * ((g.width / 16) * (g.height / 16))) by (nonlinear_arith);
    } else {
        assert(0 * ((g.width / 16) * (g.height / 16)) == 0) by (nonlinear_arith);
    }
}

/// Horizontal pass of the separable box blur.
fn blur_pass_h(m: &PixelMatrix, rad: usize) -> (r: PixelMatrix)
    requires
        m.wf(),
        m@.width >= 1,
        m@.height >= 1,
    ensures
        r.wf(),
        r@ == blur_h_grid(m@, rad as int),
{
    let w: usize = m.width();
    let h: usize = m.height();
    let mut data: Vec<u8> = Vec::new();
    let mut y: usize = 0;
    while y < h
        invariant
            y <= h,
            m.wf(),
            m@.width == w,
            m@.height == h,
            1 <= w,
            1 <= h,
            data@.len() == y * w,
            forall|k: int|
                0 <= k < data@.len() ==> #[trigger] data@[k] == blur_h_px(
                    m@,
                    rad as int,
                    k % w as int,
                    k / w as int,
                ) as u8,
        decreases h - y,
    {
        let mut x: usize = 0;
        while x < w
            invariant
                x <= w,
                y < h,
                m.wf(),
                m@.width == w,
                m@.height == h,
                1 <= w,
                1 <= h,
                data@.len() == y * w + x,
                forall|k: int|
                    0 <= k < data@.len() ==> #[trigger] data@[k] == blur_h_px(
                        m@,
                        rad as int,
                        k % w as int,
                        k / w as int,
                    ) as u8,
            decreases w - x,
        {
            let lo: usize = if x >= rad {
                x - rad
            } else {
                0
            };
            let hi128: u128 = x as u128 + rad as u128 + 1;
            let hi: usize = if hi128 <= w as u128 {
                hi128 as usize
            } else {
                w
            };
            assert(lo == win_lo(x as int, rad as int));
            assert(hi == win_hi(x as int, rad as int, w as int));
            assert(lo <= x < hi <= w);
            let mut acc: u128 = 0;
            let mut xx: usize = lo;
            while xx < hi
                invariant
                    lo <= xx <= hi,
                    hi <= w,
                    y < h,
                    m.wf(),
                    m@.width == w,
                    m@.height == h,
                    acc == row_sum(m@, y as int, lo as int, xx as int),
                decreases hi - xx,
            {
                proof {
                    lemma_row_sum_bounds(m@, y as int, lo as int, xx as int);
                }
                let p: u8 = m.at(xx, y);
                acc = acc + p as u128;
                xx += 1;
            }
            let cnt: u128 = (hi - lo) as u128;
            proof {
                lemma_row_sum_bounds(m@, y as int, lo as int, hi as int);
                lemma_div_is_ordered(acc as int, 255 * cnt as int, cnt as int);
                lemma_div_multiples_vanish(255, cnt as int);
                assert(cnt as int * 255 == 255 * cnt as int) by (nonlinear_arith);
            }
            let q: u128 = acc / cnt;
            data.push(q as u8);
            proof {
                let k = y as int * w as int + x as int;
                lemma_fundamental_div_mod_converse(k, w as int, y as int, x as int);
            }
            x += 1;
        }
        proof {
            assert((y as int + 1) * w as int == y as int * w as int + w as int)
                by (nonlinear_arith);
        }
        y += 1;
    }
    proof {
        assert(h as int * w as int == w as int * h as int) by (nonlinear_arith);
    }
    let r = PixelMatrix::from_parts(w, h, data);
    proof {
        assert(r@.data =~= blur_h_grid(m@, rad as int).data);
        assert(r@ == blur_h_grid(m@, rad as int));
    }
    r
}

/// Vertical pass of the separable box blur.
fn blur_pass_v(m: &PixelMatrix, rad: usize) -> (r: PixelMatrix)
    requires
        m.wf(),
        m@.width >= 1,
        m@.height >= 1,
    ensures
        r.wf(),
        r@ == blur_v_grid(m@, rad as int),
{
    let w: usize = m.width();
    let h: usize = m.height();
    let mut data: Vec<u8> = Vec::new();
    let mut y: usize = 0;
    while y < h
        invariant
            y <= h,
            m.wf(),
            m@.width == w,
            m@.height == h,
            1 <= w,
            1 <= h,
            data@.len() == y * w,
            forall|k: int|
                0 <= k < data@.len() ==> #[trigger] data@[k] == blur_v_px(
                    m@,
                    rad as int,
                    k % w as int,
                    k / w as int,
                ) as u8,
        decreases h - y,
    {
        let mut x: usize = 0;
        while x < w
            invariant
                x <= w,
                y < h,
                m.wf(),
                m@.width == w,
                m@.height == h,
                1 <= w,
                1 <= h,
                data@.len() == y * w + x,
                forall|k: int|
                    0 <= k < data@.len() ==> #[trigger] data@[k] == blur_v_px(
                        m@,
                        rad as int,
                        k % w as int,
                        k / w as int,
                    ) as u8,
            decreases w - x,
        {
            let lo: usize = if y >= rad {
                y - rad
            } else {
                0
            };
            let hi128: u128 = y as u128 + rad as u128 + 1;
            let hi: usize = if hi128 <= h as u128 {
                hi128 as usize
            } else {
                h
            };
            assert(lo == win_lo(y as int, rad as int));
            assert(hi == win_hi(y as int, rad as int, h as int));
            assert(lo <= y < hi <= h);
            let mut acc: u128 = 0;
            let mut yy: usize = lo;
            while yy < hi
                invariant
                    lo <= yy <= hi,
                    hi <= h,
                    x < w,
                    m.wf(),
                    m@.width == w,
                    m@.height == h,
                    acc == col_sum(m@, x as int, lo as int, yy as int),
                decreases hi - yy,
            {
                proof {
                    lemma_col_sum_bounds(m@, x as int, lo as int, yy as int);
                }
                let p: u8 = m.at(x, yy);
                acc = acc + p as u128;
                yy += 1;
            }
            let cnt: u128 = (hi - lo) as u128;
            proof {
                lemma_col_sum_bounds(m@, x as int, lo as int, hi as int);
                lemma_div_is_ordered(acc as int, 255 * cnt as int, cnt as int);
                lemma_div_multiples_vanish(255, cnt as int);
                assert(cnt as int * 255 == 255 * cnt as int) by (nonlinear_arith);
            }
            let q: u128 = acc / cnt;
            data.push(q as u8);
            proof {
                let k = y as int * w as int + x as int;
                lemma_fundamental_div_mod_converse(k, w as int, y as int, x as int);
            }
            x += 1;
        }
        proof {
            assert((y as int + 1) * w as int == y as int * w as int + w as int)
                by (nonlinear_arith);
        }
        y += 1;
    }
    proof {
        assert(h as int * w as int == w as int * h as int) by (nonlinear_arith);
    }
    let r = PixelMatrix::from_parts(w, h, data);
    proof {
        assert(r@.data =~= blur_v_grid(m@, rad as int).data);
        assert(r@ == blur_v_grid(m@, rad as int));
    }
    r
}

/// The separable box blur of radius `rad`.
fn blur_of(m: &PixelMatrix, rad: usize) -> (r: PixelMatrix)
    requires
        m.wf(),
        m@.width >= 1,
        m@.height >= 1,
    ensures
        r.wf(),
        r@ == blur_grid(m@, rad as int),
        r@.width == m@.width,
        r@.height == m@.height,
{
    let bh = blur_pass_h(m, rad);
    blur_pass_v(&bh, rad)
}

/// The cellwise absolute difference of two equally sized maps.
fn dog_of(a: &PixelMatrix, b: &PixelMatrix) -> (r: PixelMatrix)
    requires
        a.wf(),
        b.wf(),
        a@.width == b@.width,
        a@.height == b@.height,
    ensures
        r.wf(),
        r@ == dog_grid(a@, b@),
{
    let n: usize = a.data_len();
    let mut data: Vec<u8> = Vec::new();
    let mut k: usize = 0;
    while k < n
        invariant
            k <= n,
            a.wf(),
            b.wf(),
            a@.width == b@.width,
            a@.height == b@.height,
            n == a@.data.len(),
            data@.len() == k,
            forall|i: int|
                0 <= i < k ==> #[trigger] data@[i] == absdiff(a@.data[i], b@.data[i]),
        decreases n - k,
    {
        let pa: u8 = a.at_flat(k);
        let pb: u8 = b.at_flat(k);
        let d: u8 = if pa >= pb {
            pa - pb
        } else {
            pb - pa
        };
        data.push(d);
        k += 1;
    }
    let w: usize = a.width();
    let h: usize = a.height();
    let r = PixelMatrix::from_parts(w, h, data);
    proof {
        assert(r@.data =~= dog_grid(a@, b@).data);
        assert(r@ == dog_grid(a@, b@));
    }
    r
}

/// The mean absolute response of one 16 x 16 block.
fn block_mean(m: &PixelMatrix, bx: usize, by: usize) -> (r: i64)
    requires
        m.wf(),
        (bx + 1) * 16 <= m@.width,
        (by + 1) * 16 <= m@.height,
    ensures
        r == block_val(m@, bx as int, by as int),
        0 <= r <= 255,
{
    let w: usize = m.width();
    let h: usize = m.height();
    proof {
        assert(bx as int * 16 + 16 == (bx + 1) as int * 16) by (nonlinear_arith);
        assert(by as int * 16 + 16 == (by + 1) as int * 16) by (nonlinear_arith);
    }
    let x0: usize = bx * 16;
    let y0: usize = by * 16;
    let mut acc: u64 = 0;
    let mut y: usize = y0;
    while y < y0 + 16
        invariant
            y0 <= y <= y0 + 16,
            m.wf(),
            m@.width == w,
            m@.height == h,
            x0 == bx * 16,
            y0 == by * 16,
            x0 + 16 <= w,
            y0 + 16 <= h,
            acc == rect_sum(m@, x0 as int, x0 as int + 16, y0 as int, y as int),
            acc <= 4080 * (y - y0),
        decreases y0 + 16 - y,
    {
        let mut x: usize = x0;
        while x < x0 + 16
            invariant
                x0 <= x <= x0 + 16,
                y0 <= y < y0 + 16,
                m.wf(),
                m@.width == w,
                m@.height == h,
                x0 + 16 <= w,
                y0 + 16 <= h,
                acc == rect_sum(m@, x0 as int, x0 as int + 16, y0 as int, y as int) + row_sum(
                    m@,
                    y as int,
                    x0 as int,
                    x as int,
                ),
                acc <= 4080 * (y - y0) + 255 * (x - x0),
            decreases x0 + 16 - x,
        {
            let p: u8 = m.at(x, y);
            proof {
                assert(acc <= 65280);
            }
            acc = acc + p as u64;
            x += 1;
        }
        y += 1;
    }
    proof {
        lemma_div_is_ordered(acc as int, 65280, 256);
    }
    let q: u64 = acc / 256;
    q as i64
}

/// All block responses of a map, row-major.
fn block_vals(m: &PixelMatrix) -> (vals: Vec<i64>)
    requires
        m.wf(),
    ensures
        vals@ == block_vals_seq(m@),
{
    let w: usize = m.width();
    let h: usize = m.height();
    let nbw: usize = w / 16;
    let nbh: usize = h / 16;
    let mut vals: Vec<i64> = Vec::new();
    let mut by: usize = 0;
    while by < nbh
        invariant
            by <= nbh,
            m.wf(),
            m@.width == w,
            m@.height == h,
            nbw == w as int / 16,
            nbh == h as int / 16,
            vals@.len() == by * nbw,
            forall|i: int|
                0 <= i < vals@.len() ==> #[trigger] vals@[i] == block_val(
                    m@,
                    i % nbw as int,
                    i / nbw as int,
                ) as i64,
        decreases nbh - by,
    {
        let mut bx: usize = 0;
        while bx < nbw
            invariant
                bx <= nbw,
                by < nbh,
                m.wf(),
                m@.width == w,
                m@.height == h,
                nbw == w as int / 16,
                nbh == h as int / 16,
                vals@.len() == by * nbw + bx,
                forall|i: int|
                    0 <= i < vals@.len() ==> #[trigger] vals@[i] == block_val(
                        m@,
                        i % nbw as int,
                        i / nbw as int,
                    ) as i64,
            decreases nbw - bx,
        {
            proof {
                vstd::arithmetic::div_mod::lemma_fundamental_div_mod(w as int, 16);
                vstd::arithmetic::div_mod::lemma_fundamental_div_mod(h as int, 16);
                assert((bx + 1) as int * 16 <= nbw as int * 16) by (nonlinear_arith)
                    requires
                        bx < nbw,
                ;
                assert((by + 1) as int * 16 <= nbh as int * 16) by (nonlinear_arith)
                    requires
                        by < nbh,
                ;
                assert(nbw as int * 16 <= w as int) by (nonlinear_arith)
                    requires
                        nbw == w as int / 16,
                        w as int == 16 * (w as int / 16) + w as int % 16,
                        w as int % 16 >= 0,
                ;
                assert(nbh as int * 16 <= h as int) by (nonlinear_arith)
                    requires
                        nbh == h as int / 16,
                        h as int == 16 * (h as int / 16) + h as int % 16,
                        h as int % 16 >= 0,
                ;
            }
            let v: i64 = block_mean(m, bx, by);
            vals.push(v);
            proof {
                let i = by as int * nbw as int + bx as int;
                lemma_fundamental_div_mod_converse(i, nbw as int, by as int, bx as int);
            }
            bx += 1;
        }
        proof {
            assert((by as int + 1) * nbw as int == by as int * nbw as int + nbw as int)
                by (nonlinear_arith);
        }
        by += 1;
    }
    proof {
        assert(nbh as int * nbw as int == nbw as int * nbh as int) by (nonlinear_arith);
        assert(vals@ =~= block_vals_seq(m@));
    }
    vals
}

/// Packs a bit stream into bytes, most significant bit first.
fn pack(bits: &Vec<bool>) -> (r: Vec<u8>)
    ensures
        r@ == pack_bits(bits@),
{
    let n: usize = bits.len();
    let nb128: u128 = (n as u128 + 7) / 8;
    let nb: usize = nb128 as usize;
    proof {
        lemma_div_is_ordered(n as int + 7, 8 * (n as int) + 8, 8);
        lemma_div_multiples_vanish(n as int + 1, 8);
        assert(8 * (n as int + 1) == 8 * (n as int) + 8);
        assert(nb as int == (n as int + 7) / 8);
    }
    let mut r: Vec<u8> = Vec::new();
    let mut j: usize = 0;
    while j < nb
        invariant
            j <= nb,
            n == bits@.len(),
            nb as int == (n as int + 7) / 8,
            r@.len() == j,
            forall|jj: int| 0 <= jj < j ==> #[trigger] r@[jj] == byte_bits(bits@, jj, 8) as u8,
        decreases nb - j,
    {
        let mut b: u32 = 0;
        let mut t: usize = 0;
        while t < 8
            invariant
                t <= 8,
                j < nb,
                n == bits@.len(),
                nb as int == (n as int + 7) / 8,
                b == byte_bits(bits@, j as int, t as int),
                b < 256,
            decreases 8 - t,
        {
            proof {
                lemma_byte_bits_bound(bits@, j as int, t as int);
                lemma_byte_bits_bound(bits@, j as int, t as int + 1);
            }
            let idx128: u128 = 8 * j as u128 + t as u128;
            let bit: u32 = if idx128 < n as u128 && bits[idx128 as usize] {
                1
            } else {
                0
            };
            b = 2 * b + bit;
            t += 1;
        }
        r.push(b as u8);
        j += 1;
    }
    proof {
        assert(r@ =~= pack_bits(bits@));
    }
    r
}

/// Computes the multi-resolution (Marr-Hildreth style) perceptual hash of an
/// image: blur the image at a geometric ladder of scales, take the absolute
/// difference of adjacent scales as gradient-response maps, threshold each
/// map's 16 x 16 block means against the map's median, and pack the
/// resulting bits, maps in increasing scale order, most significant bit
/// first.
pub fn mh_hash_matrix(m: &PixelMatrix, args: &MHImageHashArgs) -> (r: Vec<u8>)
    requires
        m.wf(),
        m@.width >= 1,
        m@.height >= 1,
        args.valid(),
    ensures
        r@ == spec_mh_hash(m@, args.alpha_q8 as int, args.level_q8 as int),
        r@.len() == spec_mh_len(m@.width as int, m@.height as int, args.level_q8 as int),
{
    let w: usize = m.width();
    let h: usize = m.height();
    let cap: usize = if w <= h {
        w
    } else {
        h
    };
    assert(cap as int == grid_cap(m@));
    let lvl_u: u64 = args.level_q8 as u64;
    let nl64: u64 = lvl_u / 256;
    let nl: usize = if nl64 < 64 {
        nl64 as usize
    } else {
        64
    };
    assert(nl as int == num_levels(args.level_q8 as int));
    let n_maps: usize = nl + 1;
    // the ladder of blur radii, one more than the number of maps
    let mut radii: Vec<usize> = Vec::new();
    let mut k: usize = 0;
    while k < n_maps + 1
        invariant
            k <= n_maps + 1,
            n_maps <= 65,
            cap >= 1,
            cap as int == grid_cap(m@),
            args.alpha_q8 > 256,
            radii@.len() == k,
            forall|i: int|
                0 <= i < k ==> #[trigger] radii@[i] == radius_at(
                    args.alpha_q8 as int,
                    cap as int,
                    i,
                ) && 1 <= radii@[i] <= cap,
        decreases n_maps + 1 - k,
    {
        if k == 0 {
            let r0: usize = if 2 <= cap {
                2
            } else {
                cap
            };
            radii.push(r0);
        } else {
            let prev: usize = radii[k - 1];
            proof {
                assert(prev as int * args.alpha_q8 as int <= 0xffff_ffff_ffff_ffffu128
                    * 0x7fff_ffff_ffff_ffffu128) by (nonlinear_arith)
                    requires
                        0 <= prev as int <= 0xffff_ffff_ffff_ffffu128,
                        0 <= args.alpha_q8 as int <= 0x7fff_ffff_ffff_ffffu128,
                ;
            }
            let grown128: u128 = (prev as u128 * args.alpha_q8 as u128) / 256;
            let step128: u128 = prev as u128 + 1;
            let g128: u128 = if grown128 >= step128 {
                grown128
            } else {
                step128
            };
            let nxt: usize = if g128 <= cap as u128 {
                g128 as usize
            } else {
                cap
            };
            proof {
                lemma_radius_bounds(args.alpha_q8 as int, cap as int, k as int);
                assert(prev as int * args.alpha_q8 as int >= 0) by (nonlinear_arith)
                    requires
                        prev as int >= 0,
                        args.alpha_q8 as int >= 0,
                ;
                assert(nxt as int == radius_at(args.alpha_q8 as int, cap as int, k as int));
            }
            radii.push(nxt);
        }
        k += 1;
    }
    // gradient maps between adjacent scales
    let mut prev_b = blur_of(m, radii[0]);
    let mut bits: Vec<bool> = Vec::new();
    let mut mi: usize = 0;
    while mi < n_maps
        invariant
            mi <= n_maps,
            n_maps <= 65,
            m.wf(),
            m@.width == w,
            m@.height == h,
            1 <= w,
            1 <= h,
            cap as int == grid_cap(m@),
            args.alpha_q8 > 256,
            radii@.len() == n_maps + 1,
            forall|i: int|
                0 <= i < n_maps + 1 ==> #[trigger] radii@[i] == radius_at(
                    args.alpha_q8 as int,
                    cap as int,
                    i,
                ) && 1 <= radii@[i] <= cap,
            prev_b.wf(),
            prev_b@ == blur_grid(m@, radius_at(args.alpha_q8 as int, cap as int, mi as int)),
            prev_b@.width == w,
            prev_b@.height == h,
            bits@ == bits_upto(m@, args.alpha_q8 as int, mi as int),
        decreases n_maps - mi,
    {
        let next_b = blur_of(m, radii[mi + 1]);
        let d = dog_of(&next_b, &prev_b);
        proof {
            assert(d@ == dog_at(m@, args.alpha_q8 as int, mi as int));
        }
        let vals = block_vals(&d);
        let ghost bits_before = bits@;
        if vals.len() > 0 {
            let med: i64 = median_of(&vals);
            let nv: usize = vals.len();
            let mut i: usize = 0;
            while i < nv
                invariant
                    i <= nv,
                    nv == vals@.len(),
                    med == spec_median(vals@),
                    bits@.len() == bits_before.len() + i,
                    bits@.subrange(0, bits_before.len() as int) == bits_before,
                    forall|kk: int|
                        bits_before.len() <= kk < bits@.len() ==> #[trigger] bits@[kk] == (vals@[kk
                            - bits_before.len()] > med),
                decreases nv - i,
            {
                bits.push(vals[i] > med);
                proof {
                    assert(bits@.subrange(0, bits_before.len() as int) =~= bits_before);
                }
                i += 1;
            }
        }
        proof {
            assert(bits@ =~= bits_before + map_bits(d@));
            assert(bits@ == bits_upto(m@, args.alpha_q8 as int, mi as int + 1));
        }
        prev_b = next_b;
        mi += 1;
    }
    let r = pack(&bits);
    proof {
        lemma_bits_upto_len(m@, args.alpha_q8 as int, n_maps as int);
        assert(r@.len() == spec_mh_len(w as int, h as int, args.level_q8 as int));
    }
    r
}

} // verus!
