use vstd::prelude::*;

use crate::matrix::{GridView, PixelMatrix};
use crate::median::{median_of, spec_median};
use crate::resize::{resize32, resized};
use vstd::arithmetic::div_mod::lemma_fundamental_div_mod_converse;

verus! {

/// Quarter-wave cosine table: cos(k * pi / 64) in Q15 fixed point,
/// for k in 0 ..= 32.
pub open spec fn cos_q15(k: int) -> int {
    if k == 0 {
        32768
    } else if k == 1 {
        32729
    } else if k == 2 {
        32610
    } else if k == 3 {
        32413
    } else if k == 4 {
        32138
    } else if k == 5 {
        31786
    } else if k == 6 {
        31357
    } else if k == 7 {
        30853
    } else if k == 8 {
        30274
    } else if k == 9 {
        29622
    } else if k == 10 {
        28899
    } else if k == 11 {
        28106
    } else if k == 12 {
        27246
    } else if k == 13 {
        26320
    } else if k == 14 {
        25330
    } else if k == 15 {
        24279
    } else if k == 16 {
        23170
    } else if k == 17 {
        22006
    } else if k == 18 {
        20788
    } else if k == 19 {
        19520
    } else if k == 20 {
        18205
    } else if k == 21 {
        16846
    } else if k == 22 {
        15447
    } else if k == 23 {
        14010
    } else if k == 24 {
        12540
    } else if k == 25 {
        11039
    } else if k == 26 {
        9512
    } else if k == 27 {
        7962
    } else if k == 28 {
        6393
    } else if k == 29 {
        4808
    } else if k == 30 {
        3212
    } else if k == 31 {
        1608
    } else {
        0
    }
}

/// Cosine over a full period: cos(k * pi / 64) in Q15 fixed point, folded
/// onto the quarter-wave table, for k in 0 .. 128.
pub open spec fn cosq(k: int) -> int {
    if k <= 32 {
        cos_q15(k)
    } else if k <= 64 {
        -cos_q15(64 - k)
    } else if k <= 96 {
        -cos_q15(k - 64)
    } else {
        cos_q15(128 - k)
    }
}

fn cos_q15_exec(k: u64) -> (r: i64)
    requires
        k <= 32,
    ensures
        r == cos_q15(k as int),
{
    if k == 0 {
        32768
    } else if k == 1 {
        32729
    } else if k == 2 {
        32610
    } else if k == 3 {
        32413
    } else if k == 4 {
        32138
    } else if k == 5 {
        31786
    } else if k == 6 {
        31357
    } else if k == 7 {
        30853
    } else if k == 8 {
        30274
    } else if k == 9 {
        29622
    } else if k == 10 {
        28899
    } else if k == 11 {
        28106
    } else if k == 12 {
        27246
    } else if k == 13 {
        26320
    } else if k == 14 {
        25330
    } else if k == 15 {
        24279
    } else if k == 16 {
        23170
    } else if k == 17 {
        22006
    } else if k == 18 {
        20788
    } else if k == 19 {
        19520
    } else if k == 20 {
        18205
    } else if k == 21 {
        16846
    } else if k == 22 {
        15447
    } else if k == 23 {
        14010
    } else if k == 24 {
        12540
    } else if k == 25 {
        11039
    } else if k == 26 {
        9512
    } else if k == 27 {
        7962
    } else if k == 28 {
        6393
    } else if k == 29 {
        4808
    } else if k == 30 {
        3212
    } else if k == 31 {
        1608
    } else {
        0
    }
}

fn cosq_exec(k: u64) -> (r: i64)
    requires
        k < 128,
    ensures
        r == cosq(k as int),
        -32768 <= r <= 32768,
{
    if k <= 32 {
        cos_q15_exec(k)
    } else if k <= 64 {
        -cos_q15_exec(64 - k)
    } else if k <= 96 {
        -cos_q15_exec(k - 64)
    } else {
        cos_q15_exec(128 - k)
    }
}

/// The first `n` terms of the 1-D DCT along row `y` at frequency `u`:
/// sum over x of s[y * 32 + x] * cos((2x + 1) * u * pi / 64).
pub open spec fn dct_row_sum(s: Seq<i64>, y: int, u: int, n: int) -> int
    decreases n,
{
    if n <= 0 {
        0
    } else {
        dct_row_sum(s, y, u, n - 1) + s[y * 32 + (n - 1)] * cosq(((2 * (n - 1) + 1) * u) % 128)
    }
}

/// The first `n` terms of the column DCT at column frequency `u` and row
/// frequency `v`, applied to the row-transformed image.
pub open spec fn dct_coef_sum(s: Seq<i64>, u: int, v: int, n: int) -> int
    decreases n,
{
    if n <= 0 {
        0
    } else {
        dct_coef_sum(s, u, v, n - 1) + dct_row_sum(s, n - 1, u, 32) * cosq(
            ((2 * (n - 1) + 1) * v) % 128,
        )
    }
}

/// The 2-D DCT coefficient of the canonical 32 x 32 image at column
/// frequency `u` and row frequency `v`.
pub open spec fn dct_coef(s: Seq<i64>, u: int, v: int) -> int {
    dct_coef_sum(s, u, v, 32)
}

/// Row pass of the separable 2-D DCT; entry `y * 32 + u` holds the row DCT
/// of row `y` at frequency `u`.
fn dct_pass1(s: &Vec<i64>) -> (a: Vec<i64>)
    requires
        s@.len() == 1024,
        forall|k: int| 0 <= k < 1024 ==> 0 <= #[trigger] s@[k] <= 255,
    ensures
        a@.len() == 1024,
        forall|k: int|
            0 <= k < 1024 ==> #[trigger] a@[k] == dct_row_sum(s@, k / 32, k % 32, 32)
                && -267386880 <= a@[k] <= 267386880,
{
    let mut a: Vec<i64> = Vec::new();
    let mut y: usize = 0;
    while y < 32
        invariant
            y <= 32,
            a@.len() == y * 32,
            s@.len() == 1024,
            forall|k: int| 0 <= k < 1024 ==> 0 <= #[trigger] s@[k] <= 255,
            forall|k: int|
                0 <= k < a@.len() ==> #[trigger] a@[k] == dct_row_sum(s@, k / 32, k % 32, 32)
                    && -267386880 <= a@[k] <= 267386880,
        decreases 32 - y,
    {
        let mut u: usize = 0;
        while u < 32
            invariant
                u <= 32,
                y < 32,
                a@.len() == y * 32 + u,
                s@.len() == 1024,
                forall|k: int| 0 <= k < 1024 ==> 0 <= #[trigger] s@[k] <= 255,
                forall|k: int|
                    0 <= k < a@.len() ==> #[trigger] a@[k] == dct_row_sum(s@, k / 32, k % 32, 32)
                        && -267386880 <= a@[k] <= 267386880,
            decreases 32 - u,
        {
            let mut acc: i64 = 0;
            let mut x: usize = 0;
            while x < 32
                invariant
                    x <= 32,
                    y < 32,
                    u < 32,
                    s@.len() == 1024,
                    forall|k: int| 0 <= k < 1024 ==> 0 <= #[trigger] s@[k] <= 255,
                    acc == dct_row_sum(s@, y as int, u as int, x as int),
                    -8355840 * x <= acc <= 8355840 * x,
                decreases 32 - x,
            {
                proof {
                    assert((2 * (x as int) + 1) * (u as int) < 2048) by (nonlinear_arith)
                        requires
                            x < 32,
                            u < 32,
                    ;
                }
                let arg: u64 = ((2 * x as u64 + 1) * u as u64) % 128;
                let c: i64 = cosq_exec(arg);
                let idx: usize = y * 32 + x;
                proof {
                    assert(idx < 1024) by (nonlinear_arith)
                        requires
                            y < 32,
                            x < 32,
                            idx == y * 32 + x,
                    ;
                    assert(-8355840 <= s@[idx as int] * c <= 8355840) by (nonlinear_arith)
                        requires
                            0 <= s@[idx as int] <= 255,
                            -32768 <= c <= 32768,
                    ;
                    assert(arg == ((2 * (x as int) + 1) * (u as int)) % 128);
                }
                acc = acc + s[idx] * c;
                x += 1;
            }
            a.push(acc);
            proof {
                let k = y as int * 32 + u as int;
                lemma_fundamental_div_mod_converse(k, 32, y as int, u as int);
            }
            u += 1;
        }
        y += 1;
    }
    a
}

/// Column pass of the separable 2-D DCT over the row-transformed image
/// `a`; entry `v * 32 + u` holds the full 2-D coefficient at `(u, v)`.
fn dct_pass2(a: &Vec<i64>, Ghost(s): Ghost<Seq<i64>>) -> (c: Vec<i64>)
    requires
        a@.len() == 1024,
        s.len() == 1024,
        forall|k: int|
            0 <= k < 1024 ==> #[trigger] a@[k] == dct_row_sum(s, k / 32, k % 32, 32) && -267386880
                <= a@[k] <= 267386880,
    ensures
        c@.len() == 1024,
        forall|k: int| 0 <= k < 1024 ==> #[trigger] c@[k] == dct_coef(s, k % 32, k / 32),
{
    let mut c: Vec<i64> = Vec::new();
    let mut v: usize = 0;
    while v < 32
        invariant
            v <= 32,
            c@.len() == v * 32,
            a@.len() == 1024,
            s.len() == 1024,
            forall|k: int|
                0 <= k < 1024 ==> #[trigger] a@[k] == dct_row_sum(s, k / 32, k % 32, 32)
                    && -267386880 <= a@[k] <= 267386880,
            forall|k: int| 0 <= k < c@.len() ==> #[trigger] c@[k] == dct_coef(s, k % 32, k / 32),
        decreases 32 - v,
    {
        let mut u: usize = 0;
        while u < 32
            invariant
                u <= 32,
                v < 32,
                c@.len() == v * 32 + u,
                a@.len() == 1024,
                s.len() == 1024,
                forall|k: int|
                    0 <= k < 1024 ==> #[trigger] a@[k] == dct_row_sum(s, k / 32, k % 32, 32)
                        && -267386880 <= a@[k] <= 267386880,
                forall|k: int|
                    0 <= k < c@.len() ==> #[trigger] c@[k] == dct_coef(s, k % 32, k / 32),
            decreases 32 - u,
        {
            let mut acc: i64 = 0;
            let mut x: usize = 0;
            while x < 32
                invariant
                    x <= 32,
                    v < 32,
                    u < 32,
                    a@.len() == 1024,
                    s.len() == 1024,
                    forall|k: int|
                        0 <= k < 1024 ==> #[trigger] a@[k] == dct_row_sum(s, k / 32, k % 32, 32)
                            && -267386880 <= a@[k] <= 267386880,
                    acc == dct_coef_sum(s, u as int, v as int, x as int),
                    -8761733283840 * x <= acc <= 8761733283840 * x,
                decreases 32 - x,
            {
                proof {
                    assert((2 * (x as int) + 1) * (v as int) < 2048) by (nonlinear_arith)
                        requires
                            x < 32,
                            v < 32,
                    ;
                }
                let arg: u64 = ((2 * x as u64 + 1) * v as u64) % 128;
                let cc: i64 = cosq_exec(arg);
                let idx: usize = x * 32 + u;
                proof {
                    let k = x as int * 32 + u as int;
                    assert(k < 1024) by (nonlinear_arith)
                        requires
                            x < 32,
                            u < 32,
                            k == x as int * 32 + u as int,
                    ;
                    lemma_fundamental_div_mod_converse(k, 32, x as int, u as int);
                    assert(-8761733283840 <= a@[k] * cc <= 8761733283840) by (nonlinear_arith)
                        requires
                            -267386880 <= a@[k] <= 267386880,
                            -32768 <= cc <= 32768,
                    ;
                    assert(arg == ((2 * (x as int) + 1) * (v as int)) % 128);
                }
                acc = acc + a[idx] * cc;
                x += 1;
            }
            c.push(acc);
            proof {
                let k = v as int * 32 + u as int;
                lemma_fundamental_div_mod_converse(k, 32, v as int, u as int);
            }
            u += 1;
        }
        v += 1;
    }
    c
}

/// The 64 selected coefficients as a sequence: the row-major 8 x 8
/// low-frequency block without its DC term, padded with the next coefficient
/// of the top row so exactly 64 values are chosen.
pub open spec fn selected_vals(s: Seq<i64>) -> Seq<i64> {
    Seq::new(
        64,
        |i: int|
            if i < 63 {
                dct_coef(s, (i + 1) % 8, (i + 1) / 8) as i64
            } else {
                dct_coef(s, 8, 0) as i64
            },
    )
}

/// One hash bit per selected coefficient: bit `i` is set exactly when
/// coefficient `i` is strictly greater than the median `med`. The first `n`
/// bits of the hash.
pub open spec fn hash_bits(vals: Seq<i64>, med: i64, n: int) -> u64
    decreases n,
{
    if n <= 0 {
        0u64
    } else {
        if vals[n - 1] > med {
            hash_bits(vals, med, n - 1) | (1u64 << ((n - 1) as u64))
        } else {
            hash_bits(vals, med, n - 1)
        }
    }
}

/// Bits of the hash beyond the first `n` are zero.
proof fn lemma_hash_bit_high(vals: Seq<i64>, med: i64, n: int, i: int)
    requires
        0 <= n <= i < 64,
    ensures
        (hash_bits(vals, med, n) >> (i as u64)) & 1 == 0u64,
    decreases n,
{
    let iu = i as u64;
    if n <= 0 {
        assert((0u64 >> iu) & 1 == 0u64) by (bit_vector);
    } else {
        lemma_hash_bit_high(vals, med, n - 1, i);
        let h = hash_bits(vals, med, n - 1);
        let k = (n - 1) as u64;
        if vals[n - 1] > med {
            assert(((h | (1u64 << k)) >> iu) & 1 == (h >> iu) & 1) by (bit_vector)
                requires
                    iu < 64,
                    k < 64,
                    iu != k,
            ;
        }
    }
}

/// The fixed bit order of the DCT hash: bit `i` of the hash reads exactly
/// whether selected coefficient `i` lies strictly above the median.
pub proof fn lemma_hash_bit(vals: Seq<i64>, med: i64, n: int, i: int)
    requires
        0 <= i < n <= 64,
    ensures
        (hash_bits(vals, med, n) >> (i as u64)) & 1 == (if vals[i] > med {
            1u64
        } else {
            0u64
        }),
    decreases n,
{
    let h = hash_bits(vals, med, n - 1);
    let k = (n - 1) as u64;
    let iu = i as u64;
    if i == n - 1 {
        lemma_hash_bit_high(vals, med, n - 1, i);
        if vals[n - 1] > med {
            assert(((h | (1u64 << k)) >> k) & 1 == 1u64) by (bit_vector)
                requires
                    k < 64,
            ;
        }
    } else {
        lemma_hash_bit(vals, med, n - 1, i);
        if vals[n - 1] > med {
            assert(((h | (1u64 << k)) >> iu) & 1 == (h >> iu) & 1) by (bit_vector)
                requires
                    iu < 64,
                    k < 64,
                    iu != k,
            ;
        }
    }
}

/// The DCT hash of the canonical 32 x 32 image `s`.
pub open spec fn spec_dct_hash_small(s: Seq<i64>) -> u64 {
    hash_bits(selected_vals(s), spec_median(selected_vals(s)), 64)
}

/// The canonical 32 x 32 reduction of a grid, flattened row-major.
pub open spec fn resized_seq(g: GridView) -> Seq<i64> {
    Seq::new(1024, |k: int| resized(g, k % 32, k / 32) as i64)
}

/// The 64-bit DCT perceptual hash of a grid.
pub open spec fn spec_dct_hash(g: GridView) -> u64 {
    spec_dct_hash_small(resized_seq(g))
}

/// The hash's external bit contract: bit `i` of the DCT hash of a grid is
/// set exactly when selected coefficient `i` of its canonical reduction lies
/// strictly above the coefficients' median.
pub proof fn lemma_dct_hash_bit_order(g: GridView, i: int)
    requires
        0 <= i < 64,
    ensures
        (spec_dct_hash(g) >> (i as u64)) & 1 == (if selected_vals(resized_seq(g))[i]
            > spec_median(selected_vals(resized_seq(g))) {
            1u64
        } else {
            0u64
        }),
{
    let vals = selected_vals(resized_seq(g));
    lemma_hash_bit(vals, spec_median(vals), 64, i);
}

/// Picks the 64 coefficients out of the full coefficient matrix `c`.
fn select64(c: &Vec<i64>, Ghost(s): Ghost<Seq<i64>>) -> (vals: Vec<i64>)
    requires
        c@.len() == 1024,
        s.len() == 1024,
        forall|k: int| 0 <= k < 1024 ==> #[trigger] c@[k] == dct_coef(s, k % 32, k / 32),
    ensures
        vals@.len() == 64,
        vals@ == selected_vals(s),
{
    let mut vals: Vec<i64> = Vec::new();
    let mut i: usize = 1;
    while i < 64
        invariant
            1 <= i <= 64,
            vals@.len() == i - 1,
            c@.len() == 1024,
            s.len() == 1024,
            forall|k: int| 0 <= k < 1024 ==> #[trigger] c@[k] == dct_coef(s, k % 32, k / 32),
            forall|j: int| 0 <= j < i - 1 ==> #[trigger] vals@[j] == selected_vals(s)[j],
        decreases 64 - i,
    {
        let idx: usize = (i / 8) * 32 + (i % 8);
        proof {
            let k = (i as int / 8) * 32 + (i as int % 8);
            assert(0 <= i as int % 8 < 8);
            assert(0 <= i as int / 8 < 8) by (nonlinear_arith)
                requires
                    1 <= i < 64,
            ;
            assert(k < 1024) by (nonlinear_arith)
                requires
                    0 <= i as int / 8 < 8,
                    0 <= i as int % 8 < 8,
                    k == (i as int / 8) * 32 + (i as int % 8),
            ;
            lemma_fundamental_div_mod_converse(k, 32, i as int / 8, i as int % 8);
        }
        vals.push(c[idx]);
        i += 1;
    }
    vals.push(c[8]);
    proof {
        assert(c@[8] == dct_coef(s, 8int % 32, 8int / 32));
        assert(vals@ =~= selected_vals(s));
    }
    vals
}

/// Turns the selected coefficients and their median into the 64-bit hash.
fn bits64(vals: &Vec<i64>, med: i64) -> (h: u64)
    requires
        vals@.len() == 64,
    ensures
        h == hash_bits(vals@, med, 64),
{
    let mut h: u64 = 0;
    let mut i: usize = 0;
    while i < 64
        invariant
            i <= 64,
            vals@.len() == 64,
            h == hash_bits(vals@, med, i as int),
        decreases 64 - i,
    {
        if vals[i] > med {
            h = h | (1u64 << (i as u64));
        }
        i += 1;
    }
    h
}

/// Computes the 64-bit DCT perceptual hash of an image: reduce to the
/// canonical 32 x 32 grid by area averaging, apply the 2-D DCT, select the
/// 64 low-frequency coefficients (DC dropped, one padding coefficient
/// added), and set one bit per coefficient strictly above their median.
pub fn dct_hash_matrix(m: &PixelMatrix) -> (h: u64)
    requires
        m.wf(),
        m@.width >= 1,
        m@.height >= 1,
    ensures
        h == spec_dct_hash(m@),
{
    let s = resize32(m);
    proof {
        assert(s@ =~= resized_seq(m@));
    }
    let a = dct_pass1(&s);
    let c = dct_pass2(&a, Ghost(s@));
    let vals = select64(&c, Ghost(s@));
    let med = median_of(&vals);
    bits64(&vals, med)
}

} // verus!
