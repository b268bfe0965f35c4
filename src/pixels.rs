//! Counting the "magical red" pixels of a PNG image: those whose red value
//! exceeds the sum of their green and blue values.
use vstd::prelude::*;

verus! {

/// The pixel bytes (red, green, blue, row by row) of a PNG image whose
/// pixels are 8-bit RGB; `None` for bytes that are not such an image.
pub uninterp spec fn png_rgb8_of(bytes: Seq<u8>) -> Option<Seq<u8>>;

/// Relies on `image::load_from_memory_with_format` to decode a PNG, and on
/// `image::DynamicImage::as_rgb8` with `image::ImageBuffer::as_raw` for its
/// pixel bytes.
#[verifier::external_body]
fn png_rgb8(bytes: &[u8]) -> (r: Option<Vec<u8>>)
    ensures
        match r {
            Some(v) => png_rgb8_of(bytes@) == Some(v@),
            None => png_rgb8_of(bytes@) is None,
        },
{
    match image::load_from_memory_with_format(bytes, image::ImageFormat::Png) {
        Ok(img) => img.as_rgb8().map(|buf| buf.as_raw().clone()),
        Err(_) => None,
    }
}

/// Why an image could not be read.
#[derive(Clone, Copy, Debug, PartialEq, Eq, Structural)]
pub enum PixelError {
    /// The bytes are not a PNG image of 8-bit RGB pixels.
    NotRgbPng,
}

/// The pixel at `i` is magical red: its red value exceeds green plus blue.
pub open spec fn magic_red_at(px: Seq<u8>, i: int) -> bool {
    px[3 * i] as int > px[3 * i + 1] as int + px[3 * i + 2] as int
}

/// The number of magical red pixels among the first `n` pixels.
pub open spec fn magic_red_count(px: Seq<u8>, n: int) -> nat
    decreases n,
{
    if n <= 0 {
        0
    } else {
        magic_red_count(px, n - 1) + if magic_red_at(px, n - 1) {
            1nat
        } else {
            0nat
        }
    }
}

/// Counts the magical red pixels of pixel bytes, three to a pixel.
pub fn count_magic_red(px: &[u8]) -> (r: usize)
    ensures
        r == magic_red_count(px@, (px@.len() / 3) as int),
{
    let len = px.len();
    let n = len / 3;
    let mut count: usize = 0;
    let mut i: usize = 0;
    while i < n
        invariant
            len == px@.len(),
            n == px@.len() / 3,
            i <= n,
            count <= i,
            count == magic_red_count(px@, i as int),
        decreases n - i,
    {
        assert(3 * i + 2 < px@.len()) by (nonlinear_arith)
            requires
                i < n,
                n == px@.len() / 3,
        ;
        let red = px[3 * i] as u16;
        let rest = px[3 * i + 1] as u16 + px[3 * i + 2] as u16;
        if red > rest {
            count = count + 1;
        }
        i = i + 1;
    }
    count
}

/// Counts the magical red pixels of a PNG image.
pub fn num_red_pixels(png: &[u8]) -> (r: Result<usize, PixelError>)
    ensures
        match png_rgb8_of(png@) {
            Some(px) => r == Ok::<usize, PixelError>(magic_red_count(px, (px.len() / 3) as int) as usize),
            None => r == Err::<usize, PixelError>(PixelError::NotRgbPng),
        },
{
    match png_rgb8(png) {
        Some(px) => Ok(count_magic_red(px.as_slice())),
        None => Err(PixelError::NotRgbPng),
    }
}

} // verus!
