use vstd::prelude::*;

use crate::art::{cells_match, rgba_cells, HalfCell};

verus! {

// ── Decoding and resampling, done by the `image` crate ────────────────────

/// Calls `image::load_from_memory` and converts the result with
/// `DynamicImage::to_rgba8` and `ImageBuffer::into_raw` into width, height
/// and RGBA bytes, or `None` when the bytes do not decode. Nothing is
/// claimed of the result: decoding consults hooks that any code in the
/// process may register, and an image that is already RGBA is cloned with
/// whatever buffer it holds, which `ImageBuffer::from_raw` lets be longer
/// than the pixels need; `picture_from_rgba` checks the length.
#[verifier::external_body]
fn decode_rgba(bytes: &[u8]) -> (r: Option<(u32, u32, Vec<u8>)>) {
    match image::load_from_memory(bytes) {
        Ok(img) => {
            let rgba = img.to_rgba8();
            let (w, h) = rgba.dimensions();
            Some((w, h, rgba.into_raw()))
        },
        Err(_) => None,
    }
}

/// Calls `image::imageops::resize` with `FilterType::Lanczos3` on the
/// picture (wrapped by `RgbaImage::from_raw`) and unwraps the result with
/// `into_raw`; `None` when `from_raw` refuses the buffer.
/// Claimed: `from_raw` accepts a buffer of exactly `4 * w * h` bytes, so the
/// result is there, and it holds `4 * new_w * new_h` bytes (`resize` builds
/// its output with `ImageBuffer::new(new_w, new_h)`). The pixels themselves
/// are not claimed: the filter runs in floating point, whose `sin` may differ
/// between platforms and calls. The sizes of the intermediate and final
/// buffers must fit a `usize`, or `ImageBuffer::new` panics.
#[verifier::external_body]
fn lanczos_resize(rgba: &Vec<u8>, w: u32, h: u32, new_w: u32, new_h: u32) -> (out: Option<Vec<u8>>)
    requires
        rgba@.len() == 4 * w * h,
        4 * w * new_h <= usize::MAX,
        4 * new_w * new_h <= usize::MAX,
    ensures
        out is Some,
        out->0@.len() == 4 * new_w * new_h,
{
    match image::RgbaImage::from_raw(w, h, rgba.clone()) {
        Some(img) => Some(image::imageops::resize(&img, new_w, new_h, image::imageops::FilterType::Lanczos3).into_raw()),
        None => None,
    }
}

// ── Pictures ──────────────────────────────────────────────────────────────

/// A straight-alpha RGBA picture, row by row, four bytes a pixel.
pub struct Picture {
    pub width: u32,
    pub height: u32,
    pub rgba: Vec<u8>,
}

impl Picture {
    /// The buffer holds exactly the picture's pixels.
    pub open spec fn wf(&self) -> bool {
        self.rgba@.len() == 4 * self.width * self.height
    }
}

/// The picture of `w` by `h` pixels that decoded RGBA bytes describe:
/// `None` unless the buffer holds exactly the picture's pixels.
pub fn picture_from_rgba(w: u32, h: u32, rgba: Vec<u8>) -> (r: Option<Picture>)
    ensures
        r is Some <==> rgba@.len() == 4 * w * h,
        r matches Some(p) ==> p.width == w && p.height == h && p.rgba@ == rgba@,
{
    let n = rgba.len() as u128;
    let (wl, hl) = (w as u128, h as u128);
    proof {
        assert(wl * hl <= 0xffff_ffff_ffff_ffffu128) by (nonlinear_arith)
            requires
                wl <= 0xffff_ffffu128,
                hl <= 0xffff_ffffu128,
        ;
        assert(4 * w * h == 4 * (w * h)) by (nonlinear_arith);
    }
    if n == 4 * (wl * hl) {
        Some(Picture { width: w, height: h, rgba })
    } else {
        None
    }
}

/// Decodes an image file (PNG) into a picture; `None` when the bytes do not
/// decode, or decode to a buffer that does not hold exactly the picture's
/// pixels.
pub fn decode_picture(bytes: &[u8]) -> (p: Option<Picture>)
    ensures
        p matches Some(pic) ==> pic.wf(),
{
    match decode_rgba(bytes) {
        Some((w, h, rgba)) => picture_from_rgba(w, h, rgba),
        None => None,
    }
}

/// The cells of each terminal row.
pub open spec fn cell_rows(rows: Seq<Vec<HalfCell>>) -> Seq<Seq<HalfCell>> {
    rows.map_values(|r: Vec<HalfCell>| r@)
}

/// A height rounded up to an even number of pixel rows, so rows pair up.
pub open spec fn even_rows(h: int) -> int {
    if h % 2 != 0 {
        h + 1
    } else {
        h
    }
}

/// Resamples a picture to `width` columns and `scaled_height` pixel rows
/// (rounded up to even) and packs it into terminal rows of half-block cells:
/// half as many rows as pixel rows, `width` cells each, every cell packing
/// two pixels of the resampled picture as `cells_match` describes.
pub fn image_to_halfblock(pic: &Picture, width: u32, scaled_height: u32) -> (rows: Vec<Vec<HalfCell>>)
    requires
        pic.wf(),
        scaled_height < u32::MAX,
        4 * pic.width * even_rows(scaled_height as int) <= usize::MAX,
        4 * width * even_rows(scaled_height as int) <= usize::MAX,
    ensures
        exists|data: Seq<u8>|
            data.len() == 4 * width * even_rows(scaled_height as int) && #[trigger] cells_match(
                cell_rows(rows@),
                data,
                width as int,
                even_rows(scaled_height as int),
                false,
            ),
{
    let new_h = if scaled_height % 2 != 0 {
        scaled_height + 1
    } else {
        scaled_height
    };
    let resized = lanczos_resize(&pic.rgba, pic.width, pic.height, width, new_h).unwrap();
    let rows = rgba_cells(&resized, width, new_h);
    assert(cells_match(cell_rows(rows@), resized@, width as int, new_h as int, false));
    rows
}

} // verus!
