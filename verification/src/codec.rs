use vstd::prelude::*;

use crate::matrix::PixelMatrix;

verus! {

#[verifier::external_type_specification]
#[verifier::external_body]
pub struct ExDynamicImage(image::DynamicImage);

/// An opaque handle to a uniquely named temporary file of the tempfile
/// crate; the file is removed when the handle is closed or dropped.
#[verifier::external_body]
pub struct TempFileHandle {
    inner: tempfile::NamedTempFile,
}

/// Relies on image::ImageReader::open, with_guessed_format and decode:
/// reads the file at `path`, determines the image format from its content,
/// and decodes it. What comes back depends on the filesystem, so nothing is
/// assumed of the outcome.
#[verifier::external_body]
fn open_image(path: &str) -> (r: Result<image::DynamicImage, ()>) {
    match image::ImageReader::open(std::path::Path::new(path)) {
        Ok(reader) => match reader.with_guessed_format() {
            Ok(known) => known.decode().map_err(|_| ()),
            Err(_) => Err(()),
        },
        Err(_) => Err(()),
    }
}

/// Relies on DynamicImage::to_luma8 and on ImageBuffer::dimensions and
/// ImageBuffer::into_raw: the grayscale projection of a decoded image, as
/// its dimensions and its row-major luminance samples. The stated dimensions
/// are checked against the buffer length in verified code before use.
#[verifier::external_body]
fn image_to_luma(img: &image::DynamicImage) -> (r: (u32, u32, Vec<u8>)) {
    let g = img.to_luma8();
    let (w, h) = g.dimensions();
    (w, h, g.into_raw())
}

/// Relies on tempfile::NamedTempFile::new: creates a fresh, uniquely named
/// temporary file, removed when the value is closed or dropped.
#[verifier::external_body]
pub(crate) fn temp_file_new() -> (r: Result<TempFileHandle, ()>) {
    tempfile::NamedTempFile::new().map(|f| TempFileHandle { inner: f }).map_err(|_| ())
}

/// Relies on std::io::Write::write_all for NamedTempFile: on success the
/// whole buffer has been written to the file.
#[verifier::external_body]
pub(crate) fn temp_file_write_all(f: &mut TempFileHandle, data: &[u8]) -> (r: Result<(), ()>) {
    std::io::Write::write_all(&mut f.inner, data).map_err(|_| ())
}

/// Relies on File::sync_all through NamedTempFile::as_file: flushes
/// the written bytes to durable storage.
#[verifier::external_body]
pub(crate) fn temp_file_sync(f: &TempFileHandle) -> (r: Result<(), ()>) {
    f.inner.as_file().sync_all().map_err(|_| ())
}

/// Relies on NamedTempFile::path and str conversion: the location of the
/// temporary file, when that path is valid UTF-8.
#[verifier::external_body]
pub(crate) fn temp_file_path(f: &TempFileHandle) -> (r: Option<String>) {
    f.inner.path().to_str().map(|s| s.to_string())
}

/// Relies on NamedTempFile::close: removes the temporary file and reports
/// failure to do so; dropping the value also removes the file, so the file
/// never outlives its handle.
#[verifier::external_body]
pub(crate) fn temp_file_close(f: TempFileHandle) -> (r: Result<(), ()>) {
    f.inner.close().map_err(|_| ())
}

/// Decodes the image file at `path` into a grayscale pixel matrix at native
/// resolution; fails when the file is missing, unreadable or not a supported
/// format, or when the decoder hands back a buffer that does not match its
/// stated dimensions.
pub(crate) fn load_luma(path: &str) -> (r: Result<PixelMatrix, ()>)
    ensures
        match r {
            Ok(m) => m.wf() && m@.width >= 1 && m@.height >= 1,
            Err(e) => true,
        },
{
    let img = match open_image(path) {
        Ok(i) => i,
        Err(_) => {
            return Err(());
        },
    };
    let (w32, h32, data) = image_to_luma(&img);
    let w: usize = w32 as usize;
    let h: usize = h32 as usize;
    if w == 0 || h == 0 {
        return Err(());
    }
    match PixelMatrix::new(w, h, data) {
        Some(m) => Ok(m),
        None => Err(()),
    }
}

} // verus!
