//! Perceptual image fingerprints: a 64-bit DCT hash and a variable-length
//! multi-resolution gradient hash, both computed over an integer model of a
//! grayscale image.

use vstd::prelude::*;

pub mod codec;
pub mod dct;
pub mod matrix;
pub mod median;
pub mod mh;
pub mod resize;
pub mod sums;

use crate::matrix::GridView;

verus! {

/// The ways a hashing operation can fail.
#[derive(Clone, Copy, Debug, PartialEq, Eq, Structural)]
pub enum HashError {
    /// The image source is missing, unreadable, corrupt, or not a supported
    /// format.
    DecodeError,
    /// A hashing parameter lies outside its admissible range.
    InvalidParameter,
    /// Staging in-memory bytes through a temporary file failed.
    IoError,
}

/// Parameters of the multi-resolution hash, held in Q8 fixed point (a value
/// of 256 stands for 1.0): `alpha_q8` is the geometric ratio between
/// successive blur-kernel scales and must exceed 1.0; `level_q8` sets how
/// many scales are combined and must not be negative.
#[derive(Clone, Copy, Debug, PartialEq, Eq, Structural)]
pub struct MHImageHashArgs {
    pub alpha_q8: i64,
    pub level_q8: i64,
}

impl MHImageHashArgs {
    /// Parameters are admissible when `alpha` exceeds 1.0 and `level` is not
    /// negative.
    pub open spec fn valid(self) -> bool {
        self.alpha_q8 > 256 && self.level_q8 >= 0
    }

    pub fn is_valid(&self) -> (b: bool)
        ensures
            b == self.valid(),
    {
        self.alpha_q8 > 256 && self.level_q8 >= 0
    }
}

impl Default for MHImageHashArgs {
    /// The default parameters: `alpha` of 2.0 and `level` of 1.0.
    fn default() -> (r: Self)
        ensures
            r.alpha_q8 == 512,
            r.level_q8 == 256,
            r.valid(),
    {
        MHImageHashArgs { alpha_q8: 512, level_q8: 256 }
    }
}

/// A grid a hash can be computed over: well formed with at least one pixel
/// in each direction.
pub open spec fn hashable(g: GridView) -> bool {
    g.wf() && g.width >= 1 && g.height >= 1
}

/// Computes the 64-bit DCT perceptual hash of the image file at `path`. Any
/// returned hash is the DCT hash of the grayscale grid the codec decoded;
/// every failure is a decode failure.
pub fn dct_imagehash(path: &str) -> (r: Result<u64, HashError>)
    ensures
        match r {
            Ok(hv) => exists|g: GridView| hashable(g) && hv == #[trigger] dct::spec_dct_hash(g),
            Err(e) => e == HashError::DecodeError,
        },
{
    let m = match codec::load_luma(path) {
        Ok(m) => m,
        Err(_) => {
            return Err(HashError::DecodeError);
        },
    };
    let hv = dct::dct_hash_matrix(&m);
    proof {
        assert(hashable(m@) && hv == dct::spec_dct_hash(m@));
    }
    Ok(hv)
}

/// Computes the 64-bit DCT perceptual hash of an in-memory image. The bytes
/// are staged through a uniquely named temporary file, written and flushed
/// before decoding and removed on every path, success or failure.
pub fn dct_imagehash_from_memory(data: &[u8]) -> (r: Result<u64, HashError>)
    ensures
        match r {
            Ok(hv) => exists|g: GridView| hashable(g) && hv == #[trigger] dct::spec_dct_hash(g),
            Err(e) => e == HashError::DecodeError || e == HashError::IoError,
        },
{
    let mut f = match codec::temp_file_new() {
        Ok(f) => f,
        Err(_) => {
            return Err(HashError::IoError);
        },
    };
    if codec::temp_file_write_all(&mut f, data).is_err() {
        return Err(HashError::IoError);
    }
    if codec::temp_file_sync(&f).is_err() {
        return Err(HashError::IoError);
    }
    let path = match codec::temp_file_path(&f) {
        Some(p) => p,
        None => {
            return Err(HashError::IoError);
        },
    };
    let result = dct_imagehash(path.as_str());
    match codec::temp_file_close(f) {
        Ok(_) => result,
        Err(_) => Err(HashError::IoError),
    }
}

/// Computes the multi-resolution perceptual hash of the image file at
/// `path`. Parameters are checked before any work begins: the call fails
/// with `InvalidParameter` exactly when they are out of range. Any returned
/// hash is the multi-resolution hash of the decoded grayscale grid, and its
/// length follows the length formula over that grid's dimensions.
pub fn mh_imagehash(path: &str, args: &MHImageHashArgs) -> (r: Result<Vec<u8>, HashError>)
    ensures
        !args.valid() <==> r == Err::<Vec<u8>, HashError>(HashError::InvalidParameter),
        match r {
            Ok(v) => exists|g: GridView|
                hashable(g) && v@ == #[trigger] mh::spec_mh_hash(
                    g,
                    args.alpha_q8 as int,
                    args.level_q8 as int,
                ) && v@.len() == mh::spec_mh_len(
                    g.width as int,
                    g.height as int,
                    args.level_q8 as int,
                ),
            Err(e) => e == HashError::InvalidParameter || e == HashError::DecodeError,
        },
{
    if !args.is_valid() {
        return Err(HashError::InvalidParameter);
    }
    let m = match codec::load_luma(path) {
        Ok(m) => m,
        Err(_) => {
            return Err(HashError::DecodeError);
        },
    };
    let v = mh::mh_hash_matrix(&m, args);
    proof {
        assert(hashable(m@) && v@ == mh::spec_mh_hash(
            m@,
            args.alpha_q8 as int,
            args.level_q8 as int,
        ));
    }
    Ok(v)
}

/// Computes the multi-resolution perceptual hash of an in-memory image.
/// Parameters are checked before any I/O begins; the bytes are then staged
/// through a uniquely named temporary file, written and flushed before
/// decoding and removed on every path, success or failure.
pub fn mh_imagehash_from_memory(data: &[u8], args: &MHImageHashArgs) -> (r: Result<
    Vec<u8>,
    HashError,
>)
    ensures
        !args.valid() <==> r == Err::<Vec<u8>, HashError>(HashError::InvalidParameter),
        match r {
            Ok(v) => exists|g: GridView|
                hashable(g) && v@ == #[trigger] mh::spec_mh_hash(
                    g,
                    args.alpha_q8 as int,
                    args.level_q8 as int,
                ) && v@.len() == mh::spec_mh_len(
                    g.width as int,
                    g.height as int,
                    args.level_q8 as int,
                ),
            Err(e) => e == HashError::InvalidParameter || e == HashError::DecodeError || e
                == HashError::IoError,
        },
{
    if !args.is_valid() {
        return Err(HashError::InvalidParameter);
    }
    let mut f = match codec::temp_file_new() {
        Ok(f) => f,
        Err(_) => {
            return Err(HashError::IoError);
        },
    };
    if codec::temp_file_write_all(&mut f, data).is_err() {
        return Err(HashError::IoError);
    }
    if codec::temp_file_sync(&f).is_err() {
        return Err(HashError::IoError);
    }
    let path = match codec::temp_file_path(&f) {
        Some(p) => p,
        None => {
            return Err(HashError::IoError);
        },
    };
    let result = mh_imagehash(path.as_str(), args);
    match codec::temp_file_close(f) {
        Ok(_) => result,
        Err(_) => Err(HashError::IoError),
    }
}

/// Determinism: the DCT hash is a pure function of the decoded pixel grid;
/// two computations over the same grid always yield the same hash.
pub proof fn lemma_dct_hash_deterministic(a: GridView, b: GridView)
    requires
        a == b,
    ensures
        dct::spec_dct_hash(a) == dct::spec_dct_hash(b),
{
}

/// Length consistency: for every grid, the multi-resolution hash has
/// exactly the length of the length formula, which reads only the grid's
/// dimensions and the level parameter — never the pixels or `alpha`.
pub proof fn lemma_mh_hash_len(g: GridView, alpha_q8: int, level_q8: int)
    requires
        level_q8 >= 0,
    ensures
        mh::spec_mh_hash(g, alpha_q8, level_q8).len() == mh::spec_mh_len(
            g.width as int,
            g.height as int,
            level_q8,
        ),
{
    mh::lemma_bits_upto_len(g, alpha_q8, mh::num_maps(level_q8));
}

} // verus!

