use std::io::Cursor;
use std::io::Write;

use image::{DynamicImage, GrayImage, Luma};
use phash::dct::dct_hash_matrix;
use phash::matrix::PixelMatrix;
use phash::mh::mh_hash_matrix;
use phash::{
    dct_imagehash, dct_imagehash_from_memory, mh_imagehash, mh_imagehash_from_memory, HashError,
    MHImageHashArgs,
};

/// A smooth synthetic scene with a broad low-frequency spectrum, so the
/// selected DCT coefficients sit far from their median.
fn scene_a(w: u32, h: u32) -> DynamicImage {
    let img = GrayImage::from_fn(w, h, |x, y| {
        let fx = x as f64 / w as f64;
        let fy = y as f64 / h as f64;
        let v = 127.0 + 55.0 * (6.2832 * 1.3 * fx).sin() * (6.2832 * 0.9 * fy).cos()
            + 35.0 * (6.2832 * (2.2 * fx + 1.7 * fy)).sin()
            + 25.0 * (6.2832 * 3.1 * fx).cos()
            + 18.0 * (6.2832 * 4.3 * fy).sin()
            + 15.0 * (6.2832 * (1.1 * fx - 2.9 * fy)).cos();
        Luma([v.clamp(0.0, 255.0) as u8])
    });
    DynamicImage::ImageLuma8(img)
}

/// A structurally different scene: other orientations and frequencies.
fn scene_b(w: u32, h: u32) -> DynamicImage {
    let img = GrayImage::from_fn(w, h, |x, y| {
        let fx = x as f64 / w as f64;
        let fy = y as f64 / h as f64;
        let v = 127.0 + 60.0 * (6.2832 * (4.0 * fx - 3.0 * fy)).sin()
            + 40.0 * (6.2832 * 2.7 * fy).cos()
            + 25.0 * (6.2832 * (0.8 * fx + 5.1 * fy)).sin()
            + 18.0 * (6.2832 * 6.3 * fx).cos();
        Luma([v.clamp(0.0, 255.0) as u8])
    });
    DynamicImage::ImageLuma8(img)
}

fn png_bytes(img: &DynamicImage) -> Vec<u8> {
    let mut buf = Cursor::new(Vec::new());
    img.write_to(&mut buf, image::ImageFormat::Png).unwrap();
    buf.into_inner()
}

fn jpeg_bytes(img: &DynamicImage, quality: u8) -> Vec<u8> {
    let mut buf = Cursor::new(Vec::new());
    let enc = image::codecs::jpeg::JpegEncoder::new_with_quality(&mut buf, quality);
    img.write_with_encoder(enc).unwrap();
    buf.into_inner()
}

fn hamming(a: u64, b: u64) -> u32 {
    (a ^ b).count_ones()
}

/// Writes bytes to a temp file and returns the handle; the path stays valid
/// while the handle lives.
fn temp_image(bytes: &[u8]) -> tempfile::NamedTempFile {
    let mut f = tempfile::NamedTempFile::new().unwrap();
    f.write_all(bytes).unwrap();
    f.as_file().sync_all().unwrap();
    f
}

#[test]
fn dct_deterministic_from_memory() {
    let bytes = png_bytes(&scene_a(256, 256));
    let h1 = dct_imagehash_from_memory(&bytes).unwrap();
    let h2 = dct_imagehash_from_memory(&bytes).unwrap();
    assert_eq!(h1, h2);
}

#[test]
fn dct_size_invariance() {
    let big = scene_a(256, 256);
    let small = big.resize_exact(160, 160, image::imageops::FilterType::Triangle);
    let h1 = dct_imagehash_from_memory(&png_bytes(&big)).unwrap();
    let h2 = dct_imagehash_from_memory(&png_bytes(&small)).unwrap();
    assert!(hamming(h1, h2) <= 10, "distance {}", hamming(h1, h2));
}

#[test]
fn dct_sensitivity() {
    let h1 = dct_imagehash_from_memory(&png_bytes(&scene_a(256, 256))).unwrap();
    let h2 = dct_imagehash_from_memory(&png_bytes(&scene_b(256, 256))).unwrap();
    assert!(hamming(h1, h2) >= 20, "distance {}", hamming(h1, h2));
}

#[test]
fn dct_path_equals_bytes() {
    let bytes = png_bytes(&scene_a(128, 96));
    let f = temp_image(&bytes);
    let from_path = dct_imagehash(f.path().to_str().unwrap()).unwrap();
    let from_bytes = dct_imagehash_from_memory(&bytes).unwrap();
    assert_eq!(from_path, from_bytes);
}

#[test]
fn dct_png_vs_jpeg_quality_90() {
    let img = scene_a(512, 512);
    let h_png = dct_imagehash_from_memory(&png_bytes(&img)).unwrap();
    let h_jpg = dct_imagehash_from_memory(&jpeg_bytes(&img, 90)).unwrap();
    assert!(hamming(h_png, h_jpg) <= 10, "distance {}", hamming(h_png, h_jpg));
}

#[test]
fn dct_unrelated_images_far_apart() {
    let h1 = dct_imagehash_from_memory(&png_bytes(&scene_a(512, 512))).unwrap();
    let h2 = dct_imagehash_from_memory(&png_bytes(&scene_b(512, 512))).unwrap();
    assert!(hamming(h1, h2) >= 20, "distance {}", hamming(h1, h2));
}

#[test]
fn dct_missing_file() {
    let r = dct_imagehash("/nonexistent/path.png");
    assert_eq!(r, Err(HashError::DecodeError));
}

#[test]
fn dct_garbage_bytes() {
    let r = dct_imagehash_from_memory(b"this is not an image at all");
    assert_eq!(r, Err(HashError::DecodeError));
}

#[test]
fn dct_exact_value_on_fixed_matrix() {
    let mut data: Vec<u8> = Vec::new();
    for y in 0usize..64 {
        for x in 0usize..64 {
            data.push(((x * x + 3 * y * y + (7 * x * y) / (1 + y)) % 256) as u8);
        }
    }
    let m = PixelMatrix::new(64, 64, data).unwrap();
    assert_eq!(dct_hash_matrix(&m), 0x807bfc557e10c4ea);
}

#[test]
fn dct_distinct_matrices_differ() {
    let a = PixelMatrix::new(64, 64, vec![10u8; 4096]).unwrap();
    let mut data: Vec<u8> = Vec::new();
    for y in 0usize..64 {
        for x in 0usize..64 {
            data.push(((x * 4) ^ (y * 4)) as u8);
        }
    }
    let b = PixelMatrix::new(64, 64, data).unwrap();
    assert_ne!(dct_hash_matrix(&a), dct_hash_matrix(&b));
}

#[test]
fn mh_length_consistent_across_calls() {
    let bytes = png_bytes(&scene_a(128, 128));
    let args = MHImageHashArgs::default();
    let v1 = mh_imagehash_from_memory(&bytes, &args).unwrap();
    let v2 = mh_imagehash_from_memory(&bytes, &args).unwrap();
    assert_eq!(v1.len(), v2.len());
    assert_eq!(v1, v2);
}

#[test]
fn mh_length_follows_formula() {
    // 64 x 64 with level 1.0: two maps of 4 x 4 blocks, 32 bits, 4 bytes.
    let m = PixelMatrix::new(64, 64, vec![100u8; 4096]).unwrap();
    let v = mh_hash_matrix(&m, &MHImageHashArgs::default());
    assert_eq!(v.len(), 4);
    // 100 x 50 with level 1.0: two maps of 6 x 3 blocks, 36 bits, 5 bytes.
    let m2 = PixelMatrix::new(100, 50, vec![7u8; 5000]).unwrap();
    let v2 = mh_hash_matrix(&m2, &MHImageHashArgs::default());
    assert_eq!(v2.len(), 5);
}

#[test]
fn mh_exact_value_on_fixed_matrix() {
    let mut data: Vec<u8> = Vec::new();
    for y in 0usize..48 {
        for x in 0usize..48 {
            if ((x / 12) + (y / 12)) % 2 == 0 {
                data.push(((x * 17 + y * 3) % 256) as u8);
            } else {
                data.push(((255usize.wrapping_sub(x * 11 + y * 29)) % 256) as u8);
            }
        }
    }
    let m = PixelMatrix::new(48, 48, data).unwrap();
    let v = mh_hash_matrix(&m, &MHImageHashArgs::default());
    assert_eq!(v, vec![116u8, 66, 0]);
}

#[test]
fn mh_exact_value_on_rectangular_matrix() {
    let mut data: Vec<u8> = Vec::new();
    for y in 0usize..50 {
        for x in 0usize..100 {
            data.push(((x * x + 3 * y * y + (7 * x * y) / (1 + y)) % 256) as u8);
        }
    }
    let m = PixelMatrix::new(100, 50, data).unwrap();
    let v = mh_hash_matrix(&m, &MHImageHashArgs::default());
    assert_eq!(v, vec![130u8, 79, 224, 19, 64]);
}

#[test]
fn mh_rejects_alpha_of_one() {
    let args = MHImageHashArgs { alpha_q8: 256, level_q8: 256 };
    let r = mh_imagehash("/nonexistent/path.png", &args);
    assert_eq!(r, Err(HashError::InvalidParameter));
}

#[test]
fn mh_rejects_alpha_below_one() {
    // alpha of 0.5
    let args = MHImageHashArgs { alpha_q8: 128, level_q8: 256 };
    let r = mh_imagehash("/nonexistent/path.png", &args);
    assert_eq!(r, Err(HashError::InvalidParameter));
}

#[test]
fn mh_rejects_negative_level() {
    let args = MHImageHashArgs { alpha_q8: 512, level_q8: -1 };
    let bytes = png_bytes(&scene_a(64, 64));
    let r = mh_imagehash_from_memory(&bytes, &args);
    assert_eq!(r, Err(HashError::InvalidParameter));
}

#[test]
fn mh_missing_file() {
    let r = mh_imagehash("/nonexistent/path.png", &MHImageHashArgs::default());
    assert_eq!(r, Err(HashError::DecodeError));
}

#[test]
fn mh_path_equals_bytes() {
    let bytes = png_bytes(&scene_b(96, 96));
    let f = temp_image(&bytes);
    let args = MHImageHashArgs::default();
    let from_path = mh_imagehash(f.path().to_str().unwrap(), &args).unwrap();
    let from_bytes = mh_imagehash_from_memory(&bytes, &args).unwrap();
    assert_eq!(from_path, from_bytes);
}

#[test]
fn default_args_are_two_and_one() {
    let args = MHImageHashArgs::default();
    assert_eq!(args.alpha_q8, 512);
    assert_eq!(args.level_q8, 256);
}

#[test]
fn mh_more_levels_give_longer_hash() {
    // level 3.0 asks for four maps instead of two.
    let m = PixelMatrix::new(64, 64, vec![100u8; 4096]).unwrap();
    let long = mh_hash_matrix(&m, &MHImageHashArgs { alpha_q8: 512, level_q8: 768 });
    // four maps of 16 blocks: 64 bits, 8 bytes.
    assert_eq!(long.len(), 8);
}
