//! A fixed-size RGB canvas with clipped writes and a vertical flip.
use crate::image_buffer::{
    buffer_flip_vertical, buffer_from_raw, buffer_get_pixel, buffer_into_raw, buffer_new, buffer_put_pixel, channel, grid,
    rgb_dims, rgb_pixels, sample_index, Color, RgbBuffer,
};
use crate::codec::{decode_tga, encode_png, png_encoded, tga_decoded};
use vstd::prelude::*;

verus! {

/// What an [`Img`] is: its size and the colour of every pixel inside it.
pub struct ImgView {
    pub width: u32,
    pub height: u32,
    pub pixels: Map<(u32, u32), Color>,
}

/// A `width` x `height` map that is black everywhere.
pub open spec fn blank_pixels(width: u32, height: u32) -> Map<(u32, u32), Color> {
    Map::new(|p: (u32, u32)| grid(width, height).contains(p), |p: (u32, u32)| (0u8, 0u8, 0u8))
}

impl ImgView {
    /// Every pixel of the grid, and nothing else, has a colour.
    pub open spec fn well_formed(self) -> bool {
        self.pixels.dom() == grid(self.width, self.height)
    }

    /// `(x, y)` lies on the canvas.
    pub open spec fn in_bounds(self, x: u32, y: u32) -> bool {
        x < self.width && y < self.height
    }

    /// The canvas after writing `color` at `(x, y)`; a write off the canvas
    /// changes nothing.
    pub open spec fn set(self, x: u32, y: u32, color: Color) -> ImgView {
        if self.in_bounds(x, y) {
            ImgView { pixels: self.pixels.insert((x, y), color), ..self }
        } else {
            self
        }
    }

    /// The canvas upside down: row `y` becomes row `height - 1 - y`.
    pub open spec fn flip_vertical(self) -> ImgView {
        ImgView {
            pixels: Map::new(
                |p: (u32, u32)| grid(self.width, self.height).contains(p),
                |p: (u32, u32)| self.pixels[(p.0, (self.height - 1 - p.1) as u32)],
            ),
            ..self
        }
    }
}

/// An RGB image of fixed size, black when made.
pub struct Img {
    buf: RgbBuffer,
    w: u32,
    h: u32,
}

impl View for Img {
    type V = ImgView;

    closed spec fn view(&self) -> ImgView {
        ImgView {
            width: self.w,
            height: self.h,
            pixels: Map::new(|p: (u32, u32)| grid(self.w, self.h).contains(p), |p: (u32, u32)| rgb_pixels(self.buf)[p]),
        }
    }
}

/// Every image has a colour at exactly the pixels of its grid.
pub proof fn lemma_view_well_formed(img: Img)
    ensures
        img@.well_formed(),
{
    assert(img@.pixels.dom() =~= grid(img@.width, img@.height));
}

impl Img {
    /// The fields agree with the buffer they describe.
    #[verifier::type_invariant]
    spec fn inv(&self) -> bool {
        &&& rgb_dims(self.buf) == (self.w, self.h)
        &&& rgb_pixels(self.buf).dom() == grid(self.w, self.h)
    }

    /// A black `w` x `h` image. Writing black at `(0, 0)` needs that pixel to
    /// exist, so both sides are positive; the samples must fit in memory.
    pub fn new(w: u32, h: u32) -> (img: Img)
        requires
            0 < w,
            0 < h,
            3 * w * h <= isize::MAX,
        ensures
            img@.width == w,
            img@.height == h,
            img@.pixels == blank_pixels(w, h),
    {
        let mut buf = buffer_new(w, h);
        buffer_put_pixel(&mut buf, 0, 0, (0, 0, 0));
        assert(rgb_pixels(buf) =~= blank_pixels(w, h));
        assert(rgb_pixels(buf).dom() =~= grid(w, h));
        let img = Img { buf, w, h };
        assert(img@.pixels =~= blank_pixels(w, h));
        img
    }

    /// Writes `color` at `(x, y)` when that pixel is on the image; otherwise
    /// does nothing.
    pub fn set(&mut self, x: u32, y: u32, color: Color)
        ensures
            final(self)@ == old(self)@.set(x, y, color),
            final(self)@.well_formed(),
    {
        proof {
            use_type_invariant(&*self);
        }
        let ghost before = self@;
        if x < self.w && y < self.h {
            assert(rgb_pixels(self.buf).insert((x, y), color).dom() =~= grid(self.w, self.h));
            buffer_put_pixel(&mut self.buf, x, y, color);
        }
        proof {
            use_type_invariant(&*self);
            assert(self@.pixels =~= before.set(x, y, color).pixels);
            lemma_view_well_formed(*self);
        }
    }

    /// Turns the image upside down.
    pub fn flip_vertical(&mut self)
        ensures
            final(self)@ == old(self)@.flip_vertical(),
            final(self)@.well_formed(),
    {
        proof {
            use_type_invariant(&*self);
        }
        let ghost before = self@;
        let flipped = buffer_flip_vertical(&self.buf);
        assert(rgb_pixels(flipped).dom() =~= grid(self.w, self.h));
        self.buf = flipped;
        proof {
            use_type_invariant(&*self);
            assert(self@.pixels =~= before.flip_vertical().pixels);
            lemma_view_well_formed(*self);
        }
    }

    /// The width in pixels.
    pub fn width(&self) -> (w: u32)
        ensures
            w == self@.width,
    {
        self.w
    }

    /// The height in pixels.
    pub fn height(&self) -> (h: u32)
        ensures
            h == self@.height,
    {
        self.h
    }

    /// The colour at `(x, y)`, which must lie on the image.
    pub fn get(&self, x: u32, y: u32) -> (color: Color)
        requires
            self@.in_bounds(x, y),
        ensures
            color == self@.pixels[(x, y)],
    {
        proof {
            use_type_invariant(self);
        }
        buffer_get_pixel(&self.buf, x, y)
    }

    /// The samples of the image, row by row from the top, three per pixel
    /// (red, green, blue). An image made by [`texture_from_raw`] from more
    /// samples than it needs keeps the extra ones at the end.
    pub fn into_raw(self) -> (raw: Vec<u8>)
        ensures
            raw@.len() >= 3 * self@.width * self@.height,
            forall|x: u32, y: u32, c: int|
                #![trigger sample_index(self@.width, x, y, c)]
                self@.in_bounds(x, y) && 0 <= c < 3 ==> raw@[sample_index(self@.width, x, y, c)]
                    == channel(self@.pixels[(x, y)], c),
    {
        proof {
            use_type_invariant(&self);
        }
        buffer_into_raw(self.buf)
    }
}

/// The colour at `(x, y)` of an image `width` pixels wide whose samples are
/// `data`, row by row from the top, three per pixel (red, green, blue).
pub open spec fn color_in(data: Seq<u8>, width: u32, x: u32, y: u32) -> Color {
    (data[sample_index(width, x, y, 0)], data[sample_index(width, x, y, 1)], data[sample_index(width, x, y, 2)])
}

/// `img` is the `width` x `height` image whose samples are `data`, row by row
/// from the top, three per pixel.
pub open spec fn image_of_samples(img: Img, width: u32, height: u32, data: Seq<u8>) -> bool {
    &&& img@.width == width
    &&& img@.height == height
    &&& forall|x: u32, y: u32| #![trigger img@.pixels[(x, y)]]
        x < width && y < height ==> img@.pixels[(x, y)] == color_in(data, width, x, y)
}

/// `r` is the image made from `data`, row by row from the top, three samples
/// per pixel: `None` when `data` is shorter than `3 * width * height`.
pub open spec fn made_from_samples(r: Option<Img>, width: u32, height: u32, data: Seq<u8>) -> bool {
    &&& r is Some <==> 3 * width * height <= data.len()
    &&& r matches Some(img) ==> image_of_samples(img, width, height, data)
}

/// An image (such as a decoded texture) made from its samples: `data` row by
/// row from the top, three per pixel (red, green, blue). `None` when `data`
/// is shorter than `3 * width * height`.
pub fn texture_from_raw(width: u32, height: u32, data: Vec<u8>) -> (r: Option<Img>)
    ensures
        made_from_samples(r, width, height, data@),
{
    match buffer_from_raw(width, height, data) {
        Some(buf) => {
            assert(rgb_pixels(buf).dom() =~= grid(width, height));
            Some(Img { buf, w: width, h: height })
        },
        None => None,
    }
}

/// The samples that make a texture of a decoded TGA image: its samples when
/// each channel is one byte, none otherwise.
pub open spec fn texture_samples(bytes_per_pixel: u8, channels: u8, samples: Seq<u8>) -> Seq<u8> {
    if bytes_per_pixel == channels {
        samples
    } else {
        Seq::empty()
    }
}

/// A decoded image with one byte per channel gives its samples to the
/// texture unchanged; one with wider channels gives none.
pub proof fn lemma_texture_samples_by_channel_width(bytes_per_pixel: u8, channels: u8, samples: Seq<u8>)
    ensures
        bytes_per_pixel == channels ==> texture_samples(bytes_per_pixel, channels, samples) == samples,
        bytes_per_pixel != channels ==> texture_samples(bytes_per_pixel, channels, samples).len() == 0,
{
}

/// The texture of a decoded TGA image of size `width` x `height` whose
/// colour type has `bytes_per_pixel` and `channels`: its samples read as RGB
/// when each channel is one byte. There must be enough of them for an RGB
/// image of that size (so none at all is enough only for an empty image).
pub fn texture_from_decoded(width: u32, height: u32, bytes_per_pixel: u8, channels: u8, samples: Vec<u8>) -> (img: Img)
    requires
        3 * width * height <= texture_samples(bytes_per_pixel, channels, samples@).len(),
    ensures
        image_of_samples(img, width, height, texture_samples(bytes_per_pixel, channels, samples@)),
{
    let data = if bytes_per_pixel == channels { samples } else { Vec::new() };
    texture_from_raw(width, height, data).unwrap()
}

/// The TGA file `bytes` decodes, into enough samples for an RGB texture of
/// its size.
pub open spec fn decodes_to_texture(bytes: Seq<u8>) -> bool {
    tga_decoded(bytes) matches Some((w, h, b, c, d)) && 3 * w * h <= texture_samples(b, c, d).len()
}

/// The RGB texture in the TGA file `bytes`, which must decode into enough
/// samples (see [`try_read_texture`] for a reader that tests this).
pub fn read_texture(bytes: &[u8]) -> (img: Img)
    requires
        decodes_to_texture(bytes@),
    ensures
        tga_decoded(bytes@) matches Some((w, h, b, c, d)) && image_of_samples(img, w, h, texture_samples(b, c, d)),
{
    let (w, h, b, c, d) = decode_tga(bytes).unwrap();
    texture_from_decoded(w, h, b, c, d)
}

/// The RGB texture in the TGA file `bytes`: `None` when the file does not
/// decode, or when its decoded samples (none, if a channel takes more than a
/// byte) are too few for an RGB image of its size.
pub fn try_read_texture(bytes: &[u8]) -> (r: Option<Img>)
    ensures
        r is Some <==> decodes_to_texture(bytes@),
        r matches Some(img) ==> (tga_decoded(bytes@) matches Some((w, h, b, c, d)) && image_of_samples(
            img,
            w,
            h,
            texture_samples(b, c, d),
        )),
{
    match decode_tga(bytes) {
        None => None,
        Some((w, h, b, c, d)) => {
            let n: usize = if b == c { d.len() } else { 0 };
            assert((w as u128) * (h as u128) <= 0xffff_ffff * 0xffff_ffff) by (nonlinear_arith)
                requires
                    w <= 0xffff_ffff,
                    h <= 0xffff_ffff,
            ;
            assert(texture_samples(b, c, d@).len() == n);
            assert(w * h * 3 == 3 * w * h) by (nonlinear_arith);
            if (w as u128) * (h as u128) * 3 <= n as u128 {
                Some(read_texture(bytes))
            } else {
                None
            }
        },
    }
}

/// The samples of the first `n` pixels of row `y`, three per pixel.
pub open spec fn row_samples(img: ImgView, y: u32, n: nat) -> Seq<u8>
    decreases n,
{
    if n == 0 {
        Seq::empty()
    } else {
        let c = img.pixels[((n - 1) as u32, y)];
        row_samples(img, y, (n - 1) as nat) + seq![c.0, c.1, c.2]
    }
}

/// The samples of the first `m` rows, row by row from the top.
pub open spec fn rows_samples(img: ImgView, m: nat) -> Seq<u8>
    decreases m,
{
    if m == 0 {
        Seq::empty()
    } else {
        rows_samples(img, (m - 1) as nat) + row_samples(img, (m - 1) as u32, img.width as nat)
    }
}

/// The samples of the whole image, row by row from the top, three per pixel
/// (red, green, blue).
pub open spec fn image_samples(img: ImgView) -> Seq<u8> {
    rows_samples(img, img.height as nat)
}

proof fn lemma_row_samples_len(img: ImgView, y: u32, n: nat)
    ensures
        row_samples(img, y, n).len() == 3 * n,
    decreases n,
{
    if n > 0 {
        lemma_row_samples_len(img, y, (n - 1) as nat);
    }
}

proof fn lemma_rows_samples_len(img: ImgView, m: nat)
    ensures
        rows_samples(img, m).len() == 3 * img.width * m,
    decreases m,
{
    if m > 0 {
        lemma_rows_samples_len(img, (m - 1) as nat);
        lemma_row_samples_len(img, (m - 1) as u32, img.width as nat);
        let w = img.width as int;
        assert(rows_samples(img, m).len() == rows_samples(img, (m - 1) as nat).len() + 3 * w);
        assert(3 * w * (m - 1) + 3 * w == 3 * w * m) by (nonlinear_arith);
    } else {
        assert(3 * img.width * m == 0) by (nonlinear_arith)
            requires
                m == 0,
        ;
    }
}

proof fn lemma_row_samples_at(img: ImgView, y: u32, n: nat, x: u32, c: int)
    requires
        x < n,
        0 <= c < 3,
    ensures
        row_samples(img, y, n)[3 * x + c] == channel(img.pixels[(x, y)], c),
    decreases n,
{
    lemma_row_samples_len(img, y, (n - 1) as nat);
    if x < n - 1 {
        lemma_row_samples_at(img, y, (n - 1) as nat, x, c);
    }
}

proof fn lemma_rows_samples_at(img: ImgView, m: nat, x: u32, y: u32, c: int)
    requires
        x < img.width,
        y < m,
        0 <= c < 3,
    ensures
        rows_samples(img, m)[sample_index(img.width, x, y, c)] == channel(img.pixels[(x, y)], c),
    decreases m,
{
    let w = img.width as int;
    let prev = (m - 1) as nat;
    lemma_rows_samples_len(img, prev);
    lemma_row_samples_len(img, prev as u32, img.width as nat);
    if y < m - 1 {
        assert(3 * (y * w + x) + c < 3 * w * prev) by (nonlinear_arith)
            requires
                x < w,
                y < prev,
                0 <= c < 3,
                0 <= x,
                0 <= y,
        ;
        lemma_rows_samples_at(img, prev, x, y, c);
    } else {
        assert(3 * (y * w + x) + c - 3 * w * prev == 3 * x + c) by (nonlinear_arith)
            requires
                y == prev,
        ;
        assert(3 * (y * w + x) + c >= 3 * w * prev) by (nonlinear_arith)
            requires
                y == prev,
                x >= 0,
                c >= 0,
        ;
        lemma_row_samples_at(img, prev as u32, img.width as nat, x, c);
    }
}

/// The samples of an image are packed row by row from the top, three per
/// pixel: the samples that [`Img::encode_png`] encodes hold channel `c` of
/// pixel `(x, y)` at [`sample_index`] `3 * (y * width + x) + c`, the offset
/// that [`Img::into_raw`] and [`texture_from_raw`] use.
pub proof fn lemma_image_samples_layout(img: ImgView, x: u32, y: u32, c: int)
    requires
        img.in_bounds(x, y),
        0 <= c < 3,
    ensures
        image_samples(img).len() == 3 * img.width * img.height,
        sample_index(img.width, x, y, c) == 3 * y * img.width + 3 * x + c,
        image_samples(img)[3 * y * img.width + 3 * x + c] == channel(img.pixels[(x, y)], c),
{
    lemma_rows_samples_len(img, img.height as nat);
    lemma_rows_samples_at(img, img.height as nat, x, y, c);
    assert(sample_index(img.width, x, y, c) == 3 * y * img.width + 3 * x + c) by (nonlinear_arith);
}

impl Img {
    /// The image as a PNG file (8-bit RGB): what the PNG encoder writes for
    /// its samples, row by row from the top; `None` when the encoder reports
    /// an error.
    pub fn encode_png(&self) -> (r: Option<Vec<u8>>)
        ensures
            match r {
                Some(out) => png_encoded(image_samples(self@), self@.width, self@.height) == Some(out@),
                None => png_encoded(image_samples(self@), self@.width, self@.height) is None,
            },
    {
        proof {
            use_type_invariant(self);
        }
        let w = self.w;
        let h = self.h;
        let mut samples: Vec<u8> = Vec::new();
        for y in 0..h
            invariant
                w == self@.width,
                h == self@.height,
                samples@ == rows_samples(self@, y as nat),
        {
            let ghost before = samples@;
            for x in 0..w
                invariant
                    w == self@.width,
                    h == self@.height,
                    y < h,
                    samples@ == before + row_samples(self@, y, x as nat),
            {
                let c = self.get(x, y);
                samples.push(c.0);
                samples.push(c.1);
                samples.push(c.2);
                assert(samples@ =~= before + row_samples(self@, y, (x + 1) as nat));
            }
        }
        proof {
            lemma_rows_samples_len(self@, h as nat);
        }
        encode_png(samples.as_slice(), w, h)
    }
}

/// Turning an image upside down twice gives it back.
pub proof fn lemma_flip_vertical_twice(img: ImgView)
    requires
        img.well_formed(),
    ensures
        img.flip_vertical().flip_vertical() == img,
{
    let once = img.flip_vertical();
    let twice = once.flip_vertical();
    assert forall|p: (u32, u32)| #[trigger] grid(img.width, img.height).contains(p) implies twice.pixels[p]
        == img.pixels[p] by {
        let q = (p.0, (img.height - 1 - p.1) as u32);
        assert(grid(img.width, img.height).contains(q));
    }
    assert(twice.pixels =~= img.pixels);
}

/// Turning an image upside down keeps its size and moves the colour at
/// `(x, y)` to `(x, height - 1 - y)`.
pub proof fn lemma_flip_vertical_moves_rows(img: ImgView, x: u32, y: u32)
    requires
        img.in_bounds(x, y),
    ensures
        img.flip_vertical().width == img.width,
        img.flip_vertical().height == img.height,
        img.flip_vertical().well_formed(),
        img.flip_vertical().pixels[(x, (img.height - 1 - y) as u32)] == img.pixels[(x, y)],
{
    assert(img.flip_vertical().pixels.dom() =~= grid(img.width, img.height));
    assert(grid(img.width, img.height).contains((x, (img.height - 1 - y) as u32)));
}

/// A new image is black at every pixel of its grid and has no others.
pub proof fn lemma_blank_is_black(width: u32, height: u32, x: u32, y: u32)
    ensures
        blank_pixels(width, height).dom() == grid(width, height),
        x < width && y < height ==> blank_pixels(width, height)[(x, y)] == (0u8, 0u8, 0u8),
{
    assert(blank_pixels(width, height).dom() =~= grid(width, height));
}

/// A pixel written on the image reads back as written; every other pixel
/// keeps its colour.
pub proof fn lemma_set_then_read(img: ImgView, x: u32, y: u32, color: Color, p: (u32, u32))
    requires
        img.well_formed(),
        img.pixels.dom().contains(p),
    ensures
        img.set(x, y, color).well_formed(),
        img.set(x, y, color).pixels[p] == if p == (x, y) { color } else { img.pixels[p] },
{
    if img.in_bounds(x, y) {
        assert(img.set(x, y, color).pixels.dom() =~= grid(img.width, img.height));
    }
}

} // verus!
