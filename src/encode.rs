use vstd::prelude::*;
use image::ImageEncoder;

verus! {

#[verifier::external_type_specification]
#[verifier::external_body]
pub struct ExImageError(image::ImageError);

/// The PNG file, 8-bit grayscale, of a `width` x `height` image whose
/// bytes are `pixels`, row-major, top row first.
pub uninterp spec fn gray_png(pixels: Seq<u8>, width: u32, height: u32) -> Seq<u8>;

/// Why a pixel buffer could not be framed as a PNG file.
#[derive(Clone, Copy, Debug, PartialEq, Eq, Structural)]
pub enum PngError {
    /// The buffer does not hold exactly one byte per pixel.
    BufferSize,
    /// A side of the image does not fit the format's 32-bit dimensions.
    TooLarge,
    /// The image has no pixels: a side is zero, which the format forbids.
    Empty,
}

/// Relies on `image::codecs::png::PngEncoder::write_image` with
/// `ColorType::L8`: on success it has written the grayscale PNG of the
/// buffer; it panics unless the buffer holds `width * height` bytes. The
/// underlying `png` writer refuses a zero width or height and nothing else
/// once the length matches, and writing into a `Vec` cannot fail.
#[verifier::external_body]
fn write_gray_png(pixels: &[u8], width: u32, height: u32) -> (r: Result<Vec<u8>, image::ImageError>)
    requires
        pixels@.len() == width * height,
    ensures
        r matches Ok(bytes) ==> bytes@ == gray_png(pixels@, width, height),
        width > 0 && height > 0 ==> r is Ok,
        width == 0 || height == 0 ==> r is Err,
{
    let mut out: Vec<u8> = Vec::new();
    let written = image::codecs::png::PngEncoder::new(&mut out).write_image(
        pixels,
        width,
        height,
        image::ColorType::L8,
    );
    written.map(|_| out)
}

/// Frames `pixels`, a row-major grayscale image of `edges.0` columns and
/// `edges.1` rows, as the bytes of a PNG file.
pub fn encode_png(pixels: &[u8], edges: (usize, usize)) -> (r: Result<Vec<u8>, PngError>)
    ensures
        pixels@.len() != edges.0 * edges.1 ==> r == Err::<Vec<u8>, PngError>(PngError::BufferSize),
        pixels@.len() == edges.0 * edges.1 && (edges.0 > u32::MAX || edges.1 > u32::MAX) ==> r
            == Err::<Vec<u8>, PngError>(PngError::TooLarge),
        pixels@.len() == edges.0 * edges.1 && edges.0 <= u32::MAX && edges.1 <= u32::MAX && (
        edges.0 == 0 || edges.1 == 0) ==> r == Err::<Vec<u8>, PngError>(PngError::Empty),
        pixels@.len() == edges.0 * edges.1 && 0 < edges.0 <= u32::MAX && 0 < edges.1 <= u32::MAX
            ==> r is Ok,
        r matches Ok(bytes) ==> pixels@.len() == edges.0 * edges.1 && edges.0 <= u32::MAX
            && edges.1 <= u32::MAX && bytes@ == gray_png(
            pixels@,
            edges.0 as u32,
            edges.1 as u32,
        ),
{
    let (width, height) = edges;
    let len = pixels.len();
    match width.checked_mul(height) {
        Some(n) => if len != n {
            return Err(PngError::BufferSize);
        },
        None => {
            return Err(PngError::BufferSize);
        },
    }
    if width > u32::MAX as usize || height > u32::MAX as usize {
        return Err(PngError::TooLarge);
    }
    match write_gray_png(pixels, width as u32, height as u32) {
        Ok(bytes) => Ok(bytes),
        Err(_) => Err(PngError::Empty),
    }
}

} // verus!
