//! The image buffer a scene is rendered into.

use vstd::prelude::*;

use crate::math::colour::{col01, Colour};
use crate::math::fixed::tdiv;

verus! {

/// Errors that may occur around the [`Image`] struct when it is written
/// to disk: the parent directory is missing, could not be created, or
/// the encoder failed.
#[derive(Clone, Debug, PartialEq, Eq, Structural)]
pub enum Error {
    /// The parent directories did not exist.
    ParentNotFound,
    /// Failed to create the parent directories.
    FixDirs,
    /// Failed to encode or write the image file.
    ToPath,
}

/// Whether an image's buffer matches its dimensions, which lie within
/// the supported range.
pub open spec fn img_wf(img: Image) -> bool {
    &&& img.pixels@.len() == img.dims.0 as int * img.dims.1 as int
    &&& 1 <= img.dims.0 <= 4096
    &&& 1 <= img.dims.1 <= 4096
}

/// The pixel of an image at `(x, y)`.
pub open spec fn pix(img: Image, x: int, y: int) -> Colour {
    img.pixels@[y * img.dims.0 as int + x]
}

/// One 8-bit channel of an in-range fixed-point channel: the value
/// scaled to 255 and rounded to the nearest whole number.
pub open spec fn spec_byte_ch(c: int) -> int {
    tdiv(c * 255 + 32768, 65536)
}

/// Whether the four bytes of pixel `(x, row)` of the 8-bit output hold
/// the rounded channels of the image's pixel at `(x, h - 1 - row)`.
pub open spec fn rgba_ok(out: Seq<u8>, img: Image, x: int, row: int) -> bool {
    let c = pix(img, x, img.dims.1 as int - 1 - row);
    let base = 4 * (row * img.dims.0 as int + x);
    &&& 0 <= base
    &&& base + 3 < out.len()
    &&& out[base] == spec_byte_ch(c.r as int)
    &&& out[base + 1] == spec_byte_ch(c.g as int)
    &&& out[base + 2] == spec_byte_ch(c.b as int)
    &&& out[base + 3] == spec_byte_ch(c.a as int)
}

/// The Image represents a single dense row-major buffer of pixels.
#[derive(Debug)]
pub struct Image {
    /// The actual image data, row by row.
    pub pixels: Vec<Colour>,
    /// The dimensions of the image as `(width, height)`.
    pub dims: (u32, u32),
}

impl Image {
    /// Constructor for the Image that initializes it to all-zero pixels.
    pub fn new(dims: (u32, u32)) -> (r: Image)
        requires
            1 <= dims.0 <= 4096,
            1 <= dims.1 <= 4096,
        ensures
            img_wf(r),
            r.dims == dims,
            forall|i: int| 0 <= i < r.pixels@.len() ==> #[trigger] r.pixels@[i] == (Colour { r: 0i64, g: 0i64, b: 0i64, a: 0i64 }),
    {
        proof {
            assert(dims.0 as int * dims.1 as int <= 0x1000000) by (nonlinear_arith)
                requires
                    1 <= dims.0 <= 4096,
                    1 <= dims.1 <= 4096,
            {}
            assert(dims.0 as int * dims.1 as int >= 1) by (nonlinear_arith)
                requires
                    dims.0 >= 1,
                    dims.1 >= 1,
            {}
        }
        let total: usize = (dims.0 as usize) * (dims.1 as usize);
        let mut pixels: Vec<Colour> = Vec::new();
        let mut i: usize = 0;
        while i < total
            invariant
                0 <= i <= total,
                pixels@.len() == i as int,
                forall|j: int| 0 <= j < i as int ==> #[trigger] pixels@[j] == (Colour { r: 0i64, g: 0i64, b: 0i64, a: 0i64 }),
            decreases total - i,
        {
            pixels.push(Colour::zeroes());
            i = i + 1;
        }
        Image { pixels, dims }
    }

    /// The pixel at `(x, y)`.
    pub fn get(&self, x: u32, y: u32) -> (c: Colour)
        requires
            img_wf(*self),
            x < self.dims.0,
            y < self.dims.1,
        ensures
            c == pix(*self, x as int, y as int),
    {
        proof {
            lemma_pix_index(self.dims.0 as int, self.dims.1 as int, x as int, y as int);
        }
        *self.pixels.get((y as usize) * (self.dims.0 as usize) + (x as usize)).unwrap()
    }

    /// Replaces the pixel at `(x, y)`.
    pub fn set(&mut self, x: u32, y: u32, c: Colour)
        requires
            img_wf(*old(self)),
            x < old(self).dims.0,
            y < old(self).dims.1,
        ensures
            final(self).dims == old(self).dims,
            img_wf(*final(self)),
            final(self).pixels@ == old(self).pixels@.update(
                y as int * old(self).dims.0 as int + x as int,
                c,
            ),
    {
        proof {
            lemma_pix_index(self.dims.0 as int, self.dims.1 as int, x as int, y as int);
        }
        let idx: usize = (y as usize) * (self.dims.0 as usize) + (x as usize);
        self.pixels.set(idx, c);
    }

    /// The pixel at the written coordinate afterwards holds the written
    /// colour, every other pixel is unchanged.
    pub proof fn lemma_set_pix(pre: Image, post: Image, x: int, y: int, c: Colour)
        requires
            img_wf(pre),
            0 <= x < pre.dims.0 as int,
            0 <= y < pre.dims.1 as int,
            post.dims == pre.dims,
            post.pixels@ == pre.pixels@.update(y * pre.dims.0 as int + x, c),
        ensures
            pix(post, x, y) == c,
            forall|x2: int, y2: int|
                0 <= x2 < pre.dims.0 as int && 0 <= y2 < pre.dims.1 as int && !(x2 == x && y2 == y)
                    ==> pix(post, x2, y2) == pix(pre, x2, y2),
    {
        lemma_pix_index(pre.dims.0 as int, pre.dims.1 as int, x, y);
        assert forall|x2: int, y2: int|
            0 <= x2 < pre.dims.0 as int && 0 <= y2 < pre.dims.1 as int && !(x2 == x && y2
                == y) implies pix(post, x2, y2) == pix(pre, x2, y2) by {
            lemma_pix_index(pre.dims.0 as int, pre.dims.1 as int, x2, y2);
            lemma_pix_distinct(pre.dims.0 as int, x, y, x2, y2);
        }
    }

    /// Copies another image into this one at the given position; the
    /// copied rectangle must fit.
    pub fn move_into(&mut self, other: Image, position: (u32, u32))
        requires
            img_wf(*old(self)),
            img_wf(other),
            position.0 + other.dims.0 <= old(self).dims.0,
            position.1 + other.dims.1 <= old(self).dims.1,
        ensures
            img_wf(*final(self)),
            final(self).dims == old(self).dims,
            forall|x: int, y: int|
                0 <= x < old(self).dims.0 as int && 0 <= y < old(self).dims.1 as int ==> pix(
                    *final(self),
                    x,
                    y,
                ) == (if position.0 as int <= x < position.0 as int + other.dims.0 as int
                    && position.1 as int <= y < position.1 as int + other.dims.1 as int {
                    pix(other, x - position.0 as int, y - position.1 as int)
                } else {
                    pix(*old(self), x, y)
                }),
    {
        let ghost orig = *self;
        let mut oy: u32 = 0;
        while oy < other.dims.1
            invariant
                img_wf(*self),
                img_wf(other),
                self.dims == orig.dims,
                position.0 + other.dims.0 <= orig.dims.0,
                position.1 + other.dims.1 <= orig.dims.1,
                0 <= oy <= other.dims.1,
                forall|x: int, y: int|
                    0 <= x < orig.dims.0 as int && 0 <= y < orig.dims.1 as int ==> pix(
                        *self,
                        x,
                        y,
                    ) == (if position.0 as int <= x < position.0 as int + other.dims.0 as int
                        && position.1 as int <= y < position.1 as int + oy as int {
                        pix(other, x - position.0 as int, y - position.1 as int)
                    } else {
                        pix(orig, x, y)
                    }),
            decreases other.dims.1 - oy,
        {
            let mut ox: u32 = 0;
            while ox < other.dims.0
                invariant
                    img_wf(*self),
                    img_wf(other),
                    self.dims == orig.dims,
                    position.0 + other.dims.0 <= orig.dims.0,
                    position.1 + other.dims.1 <= orig.dims.1,
                    0 <= oy < other.dims.1,
                    0 <= ox <= other.dims.0,
                    forall|x: int, y: int|
                        0 <= x < orig.dims.0 as int && 0 <= y < orig.dims.1 as int ==> pix(
                            *self,
                            x,
                            y,
                        ) == (if (position.0 as int <= x < position.0 as int + other.dims.0 as int
                            && position.1 as int <= y < position.1 as int + oy as int) || (y
                            == position.1 as int + oy as int && position.0 as int <= x
                            < position.0 as int + ox as int) {
                            pix(other, x - position.0 as int, y - position.1 as int)
                        } else {
                            pix(orig, x, y)
                        }),
                decreases other.dims.0 - ox,
            {
                let c = other.get(ox, oy);
                let ghost pre = *self;
                self.set(position.0 + ox, position.1 + oy, c);
                proof {
                    Image::lemma_set_pix(
                        pre,
                        *self,
                        position.0 as int + ox as int,
                        position.1 as int + oy as int,
                        c,
                    );
                }
                ox = ox + 1;
            }
            oy = oy + 1;
        }
    }

    /// The number of pixels in this Image.
    pub fn len(&self) -> (r: usize)
        requires
            img_wf(*self),
        ensures
            r == self.pixels@.len(),
    {
        self.pixels.len()
    }

    /// The dimensions of this Image.
    pub fn dims(&self) -> (r: (u32, u32))
        ensures
            r == self.dims,
    {
        self.dims
    }

    /// The width of the image.
    pub fn width(&self) -> (r: u32)
        ensures
            r == self.dims.0,
    {
        self.dims.0
    }

    /// The height of the image.
    pub fn height(&self) -> (r: u32)
        ensures
            r == self.dims.1,
    {
        self.dims.1
    }

    /// The image as rows of 8-bit RGBA values, bottom row first (the
    /// renderer's row zero is the bottom of the picture); every pixel
    /// must already be clamped to `[0, 1]`.
    pub fn to_rgba8(&self) -> (r: Vec<u8>)
        requires
            img_wf(*self),
            forall|i: int| 0 <= i < self.pixels@.len() ==> col01(#[trigger] self.pixels@[i]),
        ensures
            r@.len() == 4 * self.pixels@.len(),
            forall|x: int, row: int|
                0 <= x < self.dims.0 as int && 0 <= row < self.dims.1 as int ==> #[trigger] rgba_ok(
                    r@,
                    *self,
                    x,
                    row,
                ),
    {
        let w = self.dims.0;
        let h = self.dims.1;
        let mut out: Vec<u8> = Vec::new();
        let mut row: u32 = 0;
        while row < h
            invariant
                img_wf(*self),
                forall|i: int| 0 <= i < self.pixels@.len() ==> col01(#[trigger] self.pixels@[i]),
                w == self.dims.0,
                h == self.dims.1,
                0 <= row <= h,
                out@.len() == 4 * (row as int) * (w as int),
                forall|x: int, ry: int|
                    0 <= x < w as int && 0 <= ry < row as int ==> #[trigger] rgba_ok(
                        out@,
                        *self,
                        x,
                        ry,
                    ),
            decreases h - row,
        {
            let mut x: u32 = 0;
            while x < w
                invariant
                    img_wf(*self),
                    forall|i: int|
                        0 <= i < self.pixels@.len() ==> col01(#[trigger] self.pixels@[i]),
                    w == self.dims.0,
                    h == self.dims.1,
                    0 <= row < h,
                    0 <= x <= w,
                    out@.len() == 4 * (row as int) * (w as int) + 4 * (x as int),
                    forall|xx: int, ry: int|
                        0 <= xx < w as int && 0 <= ry < row as int ==> #[trigger] rgba_ok(
                            out@,
                            *self,
                            xx,
                            ry,
                        ),
                    forall|xx: int|
                        0 <= xx < x as int ==> #[trigger] rgba_ok(out@, *self, xx, row as int),
                decreases w - x,
            {
                let c = self.get(x, h - 1 - row);
                proof {
                    lemma_pix_index(w as int, h as int, x as int, h as int - 1 - row as int);
                    assert(col01(c));
                }
                let ghost before = out@;
                out.push(byte_ch(c.r));
                out.push(byte_ch(c.g));
                out.push(byte_ch(c.b));
                out.push(byte_ch(c.a));
                proof {
                    assert(4 * ((row as int) * (w as int) + (x as int)) == 4 * (row as int) * (
                    w as int) + 4 * (x as int)) by (nonlinear_arith) {}
                    assert(rgba_ok(out@, *self, x as int, row as int));
                    assert forall|xx: int, ry: int|
                        0 <= xx < w as int && 0 <= ry < row as int implies #[trigger] rgba_ok(
                        out@,
                        *self,
                        xx,
                        ry,
                    ) by {
                        assert(rgba_ok(before, *self, xx, ry));
                    }
                    assert forall|xx: int| 0 <= xx < x as int + 1 implies #[trigger] rgba_ok(
                        out@,
                        *self,
                        xx,
                        row as int,
                    ) by {
                        if xx < x as int {
                            assert(rgba_ok(before, *self, xx, row as int));
                        }
                    }
                }
                x = x + 1;
            }
            proof {
                assert(4 * (row as int + 1) * (w as int) == 4 * (row as int) * (w as int) + 4 * (
                w as int)) by (nonlinear_arith) {}
            }
            row = row + 1;
        }
        proof {
            assert(4 * (h as int) * (w as int) == 4 * ((w as int) * (h as int)))
                by (nonlinear_arith) {}
        }
        out
    }
}

/// A pixel's flat index lies within the buffer, which fits comfortably
/// in a machine word.
pub proof fn lemma_pix_index(w: int, h: int, x: int, y: int)
    requires
        0 <= x < w,
        0 <= y < h,
        1 <= w <= 4096,
        1 <= h <= 4096,
    ensures
        0 <= y * w + x < w * h,
        w * h <= 0x1000000,
        0 <= y * w <= 0xfff000,
{
    assert(y * w + x < w * h) by (nonlinear_arith)
        requires
            0 <= x < w,
            0 <= y < h,
    {}
    assert(0 <= y * w <= 0xfff000) by (nonlinear_arith)
        requires
            0 <= y < h,
            1 <= w <= 4096,
            h <= 4096,
    {}
    assert(w * h <= 0x1000000) by (nonlinear_arith)
        requires
            1 <= w <= 4096,
            1 <= h <= 4096,
    {}
}

/// A flat buffer index splits into the coordinates of the pixel it
/// holds.
pub proof fn lemma_pix_of_index(img: Image, i: int)
    requires
        img_wf(img),
        0 <= i < img.pixels@.len(),
    ensures
        0 <= i % (img.dims.0 as int) < img.dims.0 as int,
        0 <= i / (img.dims.0 as int) < img.dims.1 as int,
        img.pixels@[i] == pix(img, i % (img.dims.0 as int), i / (img.dims.0 as int)),
{
    let w = img.dims.0 as int;
    let h = img.dims.1 as int;
    vstd::arithmetic::div_mod::lemma_fundamental_div_mod(i, w);
    assert(0 <= i % w < w) by (nonlinear_arith)
        requires
            w >= 1,
            i >= 0,
    {}
    assert(0 <= i / w < h) by (nonlinear_arith)
        requires
            i == w * (i / w) + i % w,
            i % w >= 0,
            0 <= i < w * h,
            w >= 1,
    {}
    assert((i / w) * w + i % w == i) by (nonlinear_arith)
        requires
            i == w * (i / w) + i % w,
    {}
}

/// Two images of the same dimensions whose pixels agree everywhere hold
/// the same buffer: in particular, a frame composed from bands equals
/// the frame rendered in one piece when their per-pixel values agree.
pub proof fn lemma_same_pixels_equal(a: Image, b: Image)
    requires
        img_wf(a),
        img_wf(b),
        a.dims == b.dims,
        forall|x: int, y: int|
            0 <= x < a.dims.0 as int && 0 <= y < a.dims.1 as int ==> #[trigger] pix(a, x, y) == pix(
                b,
                x,
                y,
            ),
    ensures
        a.pixels@ == b.pixels@,
{
    assert forall|i: int| 0 <= i < a.pixels@.len() implies a.pixels@[i] == b.pixels@[i] by {
        lemma_pix_of_index(a, i);
        lemma_pix_of_index(b, i);
        assert(pix(a, i % (a.dims.0 as int), i / (a.dims.0 as int)) == pix(
            b,
            i % (a.dims.0 as int),
            i / (a.dims.0 as int),
        ));
    }
    assert(a.pixels@ =~= b.pixels@);
}

/// Distinct pixel coordinates have distinct flat indices.
proof fn lemma_pix_distinct(w: int, x1: int, y1: int, x2: int, y2: int)
    requires
        0 <= x1 < w,
        0 <= x2 < w,
        0 <= y1,
        0 <= y2,
        !(x1 == x2 && y1 == y2),
    ensures
        y1 * w + x1 != y2 * w + x2,
{
    if y1 == y2 {
    } else {
        assert(y1 * w + x1 != y2 * w + x2) by (nonlinear_arith)
            requires
                0 <= x1 < w,
                0 <= x2 < w,
                y1 != y2,
        {}
    }
}

/// One 8-bit channel of an in-range fixed-point channel.
fn byte_ch(c: i64) -> (r: u8)
    requires
        0 <= c <= 65536,
    ensures
        r == spec_byte_ch(c as int),
{
    let v: i64 = crate::math::fixed::tdiv64(c * 255 + 32768, 65536);
    proof {
        crate::math::fixed::lemma_tdiv_magnitude(c as int * 255 + 32768, 65536);
        crate::math::fixed::lemma_tdiv_lt(c as int * 255 + 32768, 65536, 256);
    }
    v as u8
}

} // verus!
