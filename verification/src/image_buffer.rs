//! The pixel store behind [`crate::img::Img`]: an `image::ImageBuffer` of
//! 8-bit RGB pixels, reached only through the trusted items of this module.
use image::{ImageBuffer, Rgb};
use vstd::prelude::*;

verus! {

/// An 8-bit RGB colour: red, green, blue.
pub type Color = (u8, u8, u8);

/// An `image::ImageBuffer` of 8-bit RGB pixels, held in a private field and
/// described by `rgb_pixels` and `rgb_dims`.
#[verifier::external_body]
pub struct RgbBuffer {
    buf: ImageBuffer<Rgb<u8>, Vec<u8>>,
}

/// What an RGB image buffer holds: the colour at each in-bounds `(x, y)`.
pub uninterp spec fn rgb_pixels(buf: RgbBuffer) -> Map<(u32, u32), Color>;

/// The `(width, height)` an RGB image buffer was made with.
pub uninterp spec fn rgb_dims(buf: RgbBuffer) -> (u32, u32);

/// The coordinates inside a `width` x `height` grid.
pub open spec fn grid(width: u32, height: u32) -> Set<(u32, u32)> {
    Set::new(|p: (u32, u32)| p.0 < width && p.1 < height)
}

/// `ImageBuffer::new`: a `width` x `height` buffer whose samples are all zero.
/// It panics when `3 * width * height` samples do not fit in a `Vec<u8>`,
/// which the `requires` leaves out.
#[verifier::external_body]
pub(crate) fn buffer_new(width: u32, height: u32) -> (buf: RgbBuffer)
    requires
        3 * width * height <= isize::MAX,
    ensures
        rgb_dims(buf) == (width, height),
        rgb_pixels(buf) == Map::new(|p: (u32, u32)| grid(width, height).contains(p), |p: (u32, u32)| (0u8, 0u8, 0u8)),
{
    RgbBuffer { buf: ImageBuffer::new(width, height) }
}

/// `ImageBuffer::put_pixel`: writes `color` at `(x, y)` and leaves every other
/// pixel and the dimensions as they were. It panics out of bounds, which the
/// `requires` leaves out; in bounds it only overwrites three samples, so it
/// does not unwind.
#[verifier::external_body]
pub(crate) fn buffer_put_pixel(buf: &mut RgbBuffer, x: u32, y: u32, color: Color)
    requires
        x < rgb_dims(*old(buf)).0,
        y < rgb_dims(*old(buf)).1,
    ensures
        rgb_dims(*final(buf)) == rgb_dims(*old(buf)),
        rgb_pixels(*final(buf)) == rgb_pixels(*old(buf)).insert((x, y), color),
    no_unwind
{
    buf.buf.put_pixel(x, y, Rgb([color.0, color.1, color.2]))
}

/// `ImageBuffer::get_pixel`: the colour at `(x, y)`. It panics out of bounds,
/// which the `requires` leaves out.
#[verifier::external_body]
pub(crate) fn buffer_get_pixel(buf: &RgbBuffer, x: u32, y: u32) -> (color: Color)
    requires
        x < rgb_dims(*buf).0,
        y < rgb_dims(*buf).1,
    ensures
        color == rgb_pixels(*buf)[(x, y)],
{
    let p = buf.buf.get_pixel(x, y);
    (p[0], p[1], p[2])
}

/// `imageops::flip_vertical`: a new buffer of the same dimensions whose row
/// `y` is row `height - 1 - y` of the input.
#[verifier::external_body]
pub(crate) fn buffer_flip_vertical(buf: &RgbBuffer) -> (out: RgbBuffer)
    ensures
        rgb_dims(out) == rgb_dims(*buf),
        rgb_pixels(out) == Map::new(
            |p: (u32, u32)| grid(rgb_dims(*buf).0, rgb_dims(*buf).1).contains(p),
            |p: (u32, u32)| rgb_pixels(*buf)[(p.0, (rgb_dims(*buf).1 - 1 - p.1) as u32)],
        ),
{
    RgbBuffer { buf: image::imageops::flip_vertical(&buf.buf) }
}

/// The offset in a packed row-major RGB sample vector of channel `c` of the
/// pixel at `(x, y)` in an image `width` pixels wide.
pub open spec fn sample_index(width: u32, x: u32, y: u32, c: int) -> int {
    3 * (y * width + x) + c
}

/// The channel `c` (0 red, 1 green, 2 blue) of a colour.
pub open spec fn channel(color: Color, c: int) -> u8 {
    if c == 0 {
        color.0
    } else if c == 1 {
        color.1
    } else {
        color.2
    }
}

/// `ImageBuffer::into_raw`: the sample vector of the buffer, which holds the
/// pixels row by row from the top, three samples each (red, green, blue). A
/// buffer made by `from_raw` keeps any samples past the last pixel; what they
/// hold is not stated.
#[verifier::external_body]
pub(crate) fn buffer_into_raw(buf: RgbBuffer) -> (raw: Vec<u8>)
    ensures
        raw@.len() >= 3 * rgb_dims(buf).0 * rgb_dims(buf).1,
        forall|x: u32, y: u32, c: int|
                #![trigger sample_index(rgb_dims(buf).0, x, y, c)]
            x < rgb_dims(buf).0 && y < rgb_dims(buf).1 && 0 <= c < 3 ==> raw@[sample_index(rgb_dims(buf).0, x, y, c)]
                == channel(rgb_pixels(buf)[(x, y)], c),
{
    buf.buf.into_raw()
}

/// `ImageBuffer::from_raw`: the image whose samples are `data`, row by row
/// from the top, three per pixel; `None` when `data` holds fewer than
/// `3 * width * height` samples (or that count overflows `usize`).
#[verifier::external_body]
pub(crate) fn buffer_from_raw(width: u32, height: u32, data: Vec<u8>) -> (r: Option<RgbBuffer>)
    ensures
        r is Some <==> 3 * width * height <= data@.len(),
        r matches Some(buf) ==> {
            &&& rgb_dims(buf) == (width, height)
            &&& rgb_pixels(buf) == Map::new(
                |p: (u32, u32)| grid(width, height).contains(p),
                |p: (u32, u32)|
                    (
                        data@[sample_index(width, p.0, p.1, 0)],
                        data@[sample_index(width, p.0, p.1, 1)],
                        data@[sample_index(width, p.0, p.1, 2)],
                    ),
            )
        },
{
    ImageBuffer::from_raw(width, height, data).map(|buf| RgbBuffer { buf })
}

} // verus!
