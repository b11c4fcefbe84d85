//! Owned RGBA8 pixel buffers and the centred square crop.

use crate::error::IconError;
use vstd::prelude::*;

verus! {

/// Bytes per RGBA8 pixel.
pub const CHANNELS: usize = 4;

/// An owned `width` x `height` RGBA8 buffer: four bytes per pixel, row-major,
/// no padding between rows.
#[derive(Debug)]
pub struct PixelImage {
    pub width: u32,
    pub height: u32,
    pub pixels: Vec<u8>,
}

/// Index of channel `c` of the pixel at column `x`, row `y`, in a row-major
/// RGBA8 buffer that is `width` pixels wide.
pub open spec fn offset_of(width: int, x: int, y: int, c: int) -> int {
    (y * width + x) * 4 + c
}

/// Edge length of the largest square that fits into `width` x `height`.
pub open spec fn crop_edge(width: int, height: int) -> int {
    if width <= height {
        width
    } else {
        height
    }
}

/// Column of the source at which the centred square starts.
pub open spec fn crop_left(width: int, height: int) -> int {
    (width - crop_edge(width, height)) / 2
}

/// Row of the source at which the centred square starts.
pub open spec fn crop_top(width: int, height: int) -> int {
    (height - crop_edge(width, height)) / 2
}

/// The bytes of the centred square of a `width` x `height` buffer `src`.
pub open spec fn cropped_pixels(width: int, height: int, src: Seq<u8>) -> Seq<u8> {
    let edge = crop_edge(width, height);
    Seq::new(
        (edge * edge * 4) as nat,
        |i: int|
            src[offset_of(
                width,
                crop_left(width, height) + (i / 4) % edge,
                crop_top(width, height) + (i / 4) / edge,
                i % 4,
            )],
    )
}

impl PixelImage {
    /// The buffer holds exactly `width * height` pixels.
    pub open spec fn wf(&self) -> bool {
        self.pixels@.len() == self.width * self.height * 4
    }

    /// The image is well formed, square and has the given edge length.
    pub open spec fn is_square_of(&self, edge: int) -> bool {
        self.wf() && self.width == edge && self.height == edge
    }

    /// An image over `pixels`, provided they are exactly `width * height`
    /// pixels.
    pub fn new(width: u32, height: u32, pixels: Vec<u8>) -> (r: Option<PixelImage>)
        ensures
            r is Some <==> pixels@.len() == width * height * 4,
            r is Some ==> r->0.width == width && r->0.height == height && r->0.pixels == pixels
                && r->0.wf(),
    {
        let image = PixelImage { width, height, pixels };
        if image.holds_all_pixels() {
            Some(image)
        } else {
            None
        }
    }

    /// Whether the buffer holds exactly `width * height` pixels.
    pub fn holds_all_pixels(&self) -> (r: bool)
        ensures
            r == self.wf(),
    {
        let len: usize = self.pixels.len();
        if len % CHANNELS != 0 {
            return false;
        }
        let w: u64 = self.width as u64;
        let h: u64 = self.height as u64;
        proof {
            assert(w * h <= 0xffff_ffff * 0xffff_ffff) by (nonlinear_arith)
                requires
                    0 <= w <= 0xffff_ffff,
                    0 <= h <= 0xffff_ffff,
            ;
        }
        (len / CHANNELS) as u64 == w * h
    }

    /// Whether the image is a well-formed square of the given edge.
    pub fn is_square(&self, edge: u32) -> (r: bool)
        ensures
            r == self.is_square_of(edge as int),
    {
        self.width == edge && self.height == edge && self.holds_all_pixels()
    }

}

/// The four byte offsets of a pixel stay inside a buffer that holds the pixel.
pub proof fn lemma_offset_in_bounds(width: int, height: int, x: int, y: int, c: int)
    requires
        0 <= x < width,
        0 <= y < height,
        0 <= c < 4,
    ensures
        0 <= offset_of(width, x, y, c) < width * height * 4,
{
    assert(y * width + x < height * width) by (nonlinear_arith)
        requires
            0 <= x < width,
            0 <= y < height,
    ;
    assert(0 <= y * width) by (nonlinear_arith)
        requires
            0 <= y,
            0 < width,
    ;
    assert(height * width == width * height) by (nonlinear_arith);
}

/// The crop is centred: the square's edge is the shorter side, and channel
/// `c` of its pixel at column `x`, row `y`, is channel `c` of the source
/// pixel at column `(width - edge) / 2 + x`, row `(height - edge) / 2 + y`,
/// both offsets rounded down.
pub proof fn lemma_crop_is_centred(width: int, height: int, src: Seq<u8>, x: int, y: int, c: int)
    requires
        0 < width,
        0 < height,
        src.len() == width * height * 4,
        0 <= x < crop_edge(width, height),
        0 <= y < crop_edge(width, height),
        0 <= c < 4,
    ensures
        crop_edge(width, height) == if width <= height {
            width
        } else {
            height
        },
        cropped_pixels(width, height, src).len() == crop_edge(width, height) * crop_edge(
            width,
            height,
        ) * 4,
        0 <= offset_of(crop_edge(width, height), x, y, c) < cropped_pixels(
            width,
            height,
            src,
        ).len(),
        0 <= offset_of(
            width,
            (width - crop_edge(width, height)) / 2 + x,
            (height - crop_edge(width, height)) / 2 + y,
            c,
        ) < src.len(),
        cropped_pixels(width, height, src)[offset_of(crop_edge(width, height), x, y, c)]
            == src[offset_of(
            width,
            (width - crop_edge(width, height)) / 2 + x,
            (height - crop_edge(width, height)) / 2 + y,
            c,
        )],
{
    let e = crop_edge(width, height);
    let p = y * e + x;
    let i = offset_of(e, x, y, c);
    lemma_offset_in_bounds(e, e, x, y, c);
    lemma_offset_in_bounds(width, height, crop_left(width, height) + x, crop_top(width, height) + y, c);
    assert(0 <= e * e) by (nonlinear_arith)
        requires
            0 < e,
    ;
    assert(p % e == x && p / e == y) by (nonlinear_arith)
        requires
            p == y * e + x,
            0 <= x < e,
            0 <= y,
    ;
    assert(i / 4 == p && i % 4 == c);
}

/// Extracts the centred square whose edge is the shorter side of `src`.
///
/// The square starts at column `(width - edge) / 2` and row
/// `(height - edge) / 2`, both rounded down. An image without pixels is
/// rejected with `InvalidImage`.
pub fn square_crop(src: &PixelImage) -> (r: Result<PixelImage, IconError>)
    requires
        src.wf(),
    ensures
        (src.width == 0 || src.height == 0) <==> r is Err,
        r is Err ==> r == Err::<PixelImage, IconError>(IconError::InvalidImage),
        r is Ok ==> {
            let out = r->Ok_0;
            &&& out.is_square_of(crop_edge(src.width as int, src.height as int))
            &&& out.pixels@ == cropped_pixels(src.width as int, src.height as int, src.pixels@)
        },
{
    if src.width == 0 || src.height == 0 {
        return Err(IconError::InvalidImage);
    }
    let edge: u32 = if src.width <= src.height { src.width } else { src.height };
    let left: u32 = (src.width - edge) / 2;
    let top: u32 = (src.height - edge) / 2;
    let ghost w = src.width as int;
    let ghost h = src.height as int;
    let ghost e = edge as int;
    proof {
        assert(e * e <= w * h) by (nonlinear_arith)
            requires
                0 < e <= w,
                e <= h,
        ;
    }
    let e_us: usize = edge as usize;
    let w_us: usize = src.width as usize;
    let total: usize = src.pixels.len();
    let mut pixels: Vec<u8> = Vec::new();
    let mut y: usize = 0;
    while y < e_us
        invariant
            src.wf(),
            w == src.width,
            h == src.height,
            e == edge,
            e_us == edge,
            w_us == src.width,
            total == src.pixels@.len(),
            e == crop_edge(w, h),
            left == crop_left(w, h),
            top == crop_top(w, h),
            0 < e,
            e * e <= w * h,
            0 <= y <= e_us,
            pixels@.len() == y * e * 4,
            pixels@.len() <= e * e * 4,
            forall|i: int|
                0 <= i < pixels@.len() ==> pixels@[i] == cropped_pixels(w, h, src.pixels@)[i],
        decreases e_us - y,
    {
        let mut x: usize = 0;
        while x < e_us
            invariant
                src.wf(),
                w == src.width,
                h == src.height,
                e == edge,
                e_us == edge,
                w_us == src.width,
                total == src.pixels@.len(),
                e == crop_edge(w, h),
                left == crop_left(w, h),
                top == crop_top(w, h),
                0 < e,
                e * e <= w * h,
                0 <= y < e_us,
                0 <= x <= e_us,
                pixels@.len() == (y * e + x) * 4,
                pixels@.len() <= e * e * 4,
                forall|i: int|
                    0 <= i < pixels@.len() ==> pixels@[i] == cropped_pixels(w, h, src.pixels@)[i],
            decreases e_us - x,
        {
            proof {
                lemma_offset_in_bounds(w, h, left + x, top + y, 0);
                lemma_offset_in_bounds(w, h, left + x, top + y, 3);
                lemma_offset_in_bounds(e, e, x as int, y as int, 3);
                assert(0 <= (top + y) * w) by (nonlinear_arith)
                    requires
                        0 <= top + y,
                        0 < w,
                ;
                assert(w * h * 4 == src.pixels@.len());
                assert((top as usize + y) * w_us == (top + y) * w);
                assert(((top as usize + y) * w_us + (left as usize + x)) * 4 + 3 == offset_of(
                    w,
                    left + x,
                    top + y,
                    3,
                ));
            }
            let base: usize = ((top as usize + y) * w_us + (left as usize + x)) * CHANNELS;
            let ghost before = pixels@;
            let ghost p = y * e + x;
            pixels.push(src.pixels[base]);
            pixels.push(src.pixels[base + 1]);
            pixels.push(src.pixels[base + 2]);
            pixels.push(src.pixels[base + 3]);
            proof {
                assert(p % e == x && p / e == y) by (nonlinear_arith)
                    requires
                        p == y * e + x,
                        0 <= x < e,
                        0 <= y,
                ;
                assert forall|i: int| 0 <= i < pixels@.len() implies pixels@[i] == cropped_pixels(
                    w,
                    h,
                    src.pixels@,
                )[i] by {
                    if i >= before.len() {
                        assert(i / 4 == p);
                        assert(i % 4 == i - before.len());
                    }
                }
            }
            x = x + 1;
            proof {
                assert((y * e + x) * 4 <= e * e * 4) by (nonlinear_arith)
                    requires
                        0 <= y < e,
                        0 <= x <= e,
                ;
            }
        }
        y = y + 1;
        proof {
            assert((y - 1) * e + e == y * e) by (nonlinear_arith);
            assert(y * e * 4 <= e * e * 4) by (nonlinear_arith)
                requires
                    0 <= y <= e,
                    0 < e,
            ;
        }
    }
    proof {
        assert(pixels@.len() == e * e * 4) by (nonlinear_arith)
            requires
                pixels@.len() == y * e * 4,
                y == e,
        ;
        assert(pixels@ =~= cropped_pixels(w, h, src.pixels@));
    }
    Ok(PixelImage { width: edge, height: edge, pixels })
}

} // verus!
