//! Decoding tile images and encoding quilts, through the `image` crate.
//! The pipeline's rasters live in memory as plain RGBA sample buffers; only
//! the byte-level decoding and PNG encoding are delegated.

use vstd::prelude::*;

use crate::raster::Raster;
use crate::QuiltError;

verus! {

/// What decoding a byte string as an image and converting it to RGBA
/// yields: width, height and raw samples, or nothing when the bytes are not
/// a decodable image. Decoding depends on the bytes alone.
pub uninterp spec fn rgba_decoding(bytes: Seq<u8>) -> Option<(nat, nat, Seq<u8>)>;

/// What encoding an RGBA raster of the given dimensions as PNG yields: the
/// byte stream, or nothing when the encoder rejects the image (a zero or
/// oversized dimension). Both the outcome and the bytes are a function of
/// the raster alone.
pub uninterp spec fn png_encoding(width: nat, height: nat, pixels: Seq<u8>) -> Option<Seq<u8>>;

/// Relies on image::load_from_memory and DynamicImage::to_rgba8: the
/// decoded buffer is row-major from the top-left, four samples (RGBA) per
/// pixel, exactly `width * height` pixels; the outcome depends on the bytes
/// alone.
#[verifier::external_body]
fn decode_rgba(bytes: &Vec<u8>) -> (r: Option<Raster>)
    ensures
        match r {
            Some(img) => {
                &&& rgba_decoding(bytes@) == Some(
                    (img.width as nat, img.height as nat, img.pixels@),
                )
                &&& img.wf()
            },
            None => rgba_decoding(bytes@) is None,
        },
{
    match image::load_from_memory(bytes) {
        Ok(img) => {
            let rgba = img.to_rgba8();
            let width = rgba.width() as usize;
            let height = rgba.height() as usize;
            Some(Raster { width, height, pixels: rgba.into_raw() })
        },
        Err(_) => None,
    }
}

/// Relies on RgbaImage::from_raw and ImageBuffer::write_to with the PNG
/// format: an exact-length buffer is always accepted, and encoding to an
/// in-memory cursor succeeds or fails deterministically in the raster
/// alone, with the bytes a function of it too.
#[verifier::external_body]
fn encode_png(width: usize, height: usize, pixels: &Vec<u8>) -> (r: Option<Vec<u8>>)
    requires
        pixels@.len() == 4 * (width * height),
        width <= u32::MAX,
        height <= u32::MAX,
    ensures
        match r {
            Some(b) => png_encoding(width as nat, height as nat, pixels@) == Some(b@),
            None => png_encoding(width as nat, height as nat, pixels@) is None,
        },
{
    let buf = match image::RgbaImage::from_raw(width as u32, height as u32, pixels.clone()) {
        Some(b) => b,
        None => return None,
    };
    let mut out = std::io::Cursor::new(Vec::new());
    match buf.write_to(&mut out, image::ImageFormat::Png) {
        Ok(()) => Some(out.into_inner()),
        Err(_) => None,
    }
}

/// Decode one tile's file bytes into an RGBA raster. A tile that cannot be
/// decoded is fatal for the whole composition, reported as an error.
pub fn decode_tile(bytes: &Vec<u8>) -> (r: Result<Raster, QuiltError>)
    ensures
        match r {
            Ok(img) => {
                &&& img.wf()
                &&& rgba_decoding(bytes@) == Some(
                    (img.width as nat, img.height as nat, img.pixels@),
                )
            },
            Err(e) => e == QuiltError::TileDecode && rgba_decoding(bytes@) is None,
        },
{
    match decode_rgba(bytes) {
        Some(img) => Ok(img),
        None => Err(QuiltError::TileDecode),
    }
}

/// Encode a composed quilt as PNG bytes, ready to be written to its
/// sequentially numbered output file.
pub fn encode_quilt(q: &Raster) -> (r: Result<Vec<u8>, QuiltError>)
    requires
        q.wf(),
        q.width <= u32::MAX,
        q.height <= u32::MAX,
    ensures
        match r {
            Ok(b) => png_encoding(q.width as nat, q.height as nat, q.pixels@) == Some(b@),
            Err(e) => e == QuiltError::PngEncode && png_encoding(
                q.width as nat,
                q.height as nat,
                q.pixels@,
            ) is None,
        },
{
    match encode_png(q.width, q.height, &q.pixels) {
        Some(b) => Ok(b),
        None => Err(QuiltError::PngEncode),
    }
}

} // verus!
