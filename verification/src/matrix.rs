use vstd::prelude::*;

verus! {

/// Mathematical model of a grayscale image: a flat, row-major sequence of
/// luminance samples together with its dimensions.
pub struct GridView {
    pub width: nat,
    pub height: nat,
    pub data: Seq<u8>,
}

impl GridView {
    /// A grid is well formed when the sample sequence covers exactly
    /// `width * height` cells.
    pub open spec fn wf(self) -> bool {
        self.data.len() == self.width * self.height
    }

    /// The luminance sample of the cell in column `x` of row `y`.
    pub open spec fn px(self, x: int, y: int) -> u8 {
        self.data[y * self.width + x]
    }
}

/// A grayscale image held as one row-major vector of luminance samples.
pub struct PixelMatrix {
    width: usize,
    height: usize,
    data: Vec<u8>,
}

impl View for PixelMatrix {
    type V = GridView;

    closed spec fn view(&self) -> GridView {
        GridView { width: self.width as nat, height: self.height as nat, data: self.data@ }
    }
}

impl PixelMatrix {
    pub open spec fn wf(self) -> bool {
        self@.wf()
    }

    pub fn width(&self) -> (r: usize)
        ensures
            r == self@.width,
    {
        self.width
    }

    pub fn height(&self) -> (r: usize)
        ensures
            r == self@.height,
    {
        self.height
    }

    /// Builds a matrix from its dimensions and row-major samples; rejects a
    /// sample vector whose length does not match the dimensions.
    pub fn new(width: usize, height: usize, data: Vec<u8>) -> (r: Option<PixelMatrix>)
        ensures
            match r {
                Some(m) => {
                    &&& m.wf()
                    &&& m@.width == width
                    &&& m@.height == height
                    &&& m@.data == data@
                },
                None => data@.len() != width * height,
            },
    {
        if width == 0 || height == 0 {
            proof {
                assert(width as int * height as int == 0) by (nonlinear_arith)
                    requires width == 0 || height == 0;
            }
            if data.len() == 0 {
                Some(PixelMatrix { width, height, data })
            } else {
                None
            }
        } else {
            let q: usize = data.len() / width;
            let rem: usize = data.len() % width;
            proof {
                vstd::arithmetic::div_mod::lemma_fundamental_div_mod(
                    data@.len() as int,
                    width as int,
                );
            }
            proof {
                if data@.len() == width as int * height as int {
                    assert(width as int * height as int == height as int * width as int)
                        by (nonlinear_arith);
                    vstd::arithmetic::div_mod::lemma_fundamental_div_mod_converse(
                        data@.len() as int,
                        width as int,
                        height as int,
                        0,
                    );
                }
            }
            if q == height && rem == 0 {
                Some(PixelMatrix { width, height, data })
            } else {
                None
            }
        }
    }

    /// Crate-internal constructor for stages that build a matrix whose
    /// length is known to match its dimensions.
    pub(crate) fn from_parts(width: usize, height: usize, data: Vec<u8>) -> (r: PixelMatrix)
        requires
            data@.len() == width as int * height as int,
        ensures
            r.wf(),
            r@.width == width,
            r@.height == height,
            r@.data == data@,
    {
        PixelMatrix { width, height, data }
    }

    /// The sample at flat row-major index `k`.
    pub fn at_flat(&self, k: usize) -> (p: u8)
        requires
            k < self@.data.len(),
        ensures
            p == self@.data[k as int],
    {
        self.data[k]
    }

    pub fn data_len(&self) -> (n: usize)
        ensures
            n == self@.data.len(),
    {
        self.data.len()
    }

    /// The sample in column `x` of row `y`.
    pub fn at(&self, x: usize, y: usize) -> (p: u8)
        requires
            self.wf(),
            x < self@.width,
            y < self@.height,
        ensures
            p == self@.px(x as int, y as int),
    {
        let n: usize = self.data.len();
        proof {
            let w = self@.width as int;
            let h = self@.height as int;
            vstd::arithmetic::mul::lemma_mul_inequality(y as int + 1, h, w);
            assert((y as int + 1) * w == y as int * w + w) by (nonlinear_arith);
            assert(h * w == w * h) by (nonlinear_arith);
            vstd::arithmetic::mul::lemma_mul_nonnegative(y as int, w);
        }
        let idx: usize = y * self.width + x;
        self.data[idx]
    }
}

} // verus!
