//! Image file formats, done by the `image` crate: TGA decoding and PNG
//! encoding, both from bytes to bytes.
use image::codecs::png::PngEncoder;
use image::codecs::tga::TgaDecoder;
use image::{ImageDecoder, ImageEncoder};
use vstd::prelude::*;

verus! {

/// What `image`'s TGA decoder makes of the file `bytes`: `None` when it
/// refuses the header or the data; otherwise the width, the height, the bytes
/// per pixel and the channels per pixel of the decoded colour type, and the
/// decoded samples, row by row from the top.
pub uninterp spec fn tga_decoded(bytes: Seq<u8>) -> Option<(u32, u32, u8, u8, Seq<u8>)>;

/// Decodes the TGA file `bytes` with `TgaDecoder::new`, then
/// `ImageDecoder::dimensions`, `color_type` and `read_image` into a buffer of
/// `total_bytes` samples. The contract names the result: it claims only that
/// the result depends on `bytes` alone.
#[verifier::external_body]
pub(crate) fn decode_tga(bytes: &[u8]) -> (r: Option<(u32, u32, u8, u8, Vec<u8>)>)
    ensures
        match r {
            Some((w, h, b, c, d)) => tga_decoded(bytes@) == Some((w, h, b, c, d@)),
            None => tga_decoded(bytes@) is None,
        },
{
    let decoder = match TgaDecoder::new(std::io::Cursor::new(bytes)) {
        Ok(d) => d,
        Err(_) => return None,
    };
    let (w, h) = decoder.dimensions();
    let color = decoder.color_type();
    let mut samples = vec![0u8; decoder.total_bytes() as usize];
    match decoder.read_image(&mut samples) {
        Ok(()) => Some((w, h, color.bytes_per_pixel(), color.channel_count(), samples)),
        Err(_) => None,
    }
}

/// The PNG file that `image`'s `PngEncoder` (default compression and
/// filter) writes for 8-bit RGB `samples` of a `width` x `height` image;
/// `None` when it reports an error.
pub uninterp spec fn png_encoded(samples: Seq<u8>, width: u32, height: u32) -> Option<Seq<u8>>;

/// Encodes `samples` as an 8-bit RGB PNG with `PngEncoder::new` and
/// `ImageEncoder::write_image`, into memory. `write_image` panics unless
/// there are exactly `3 * width * height` samples, which the `requires`
/// leaves out. The contract names the result.
#[verifier::external_body]
pub(crate) fn encode_png(samples: &[u8], width: u32, height: u32) -> (r: Option<Vec<u8>>)
    requires
        samples@.len() == 3 * width * height,
    ensures
        match r {
            Some(out) => png_encoded(samples@, width, height) == Some(out@),
            None => png_encoded(samples@, width, height) is None,
        },
{
    let mut out: Vec<u8> = Vec::new();
    match PngEncoder::new(&mut out).write_image(samples, width, height, image::ExtendedColorType::Rgb8) {
        Ok(()) => Some(out),
        Err(_) => None,
    }
}

} // verus!
