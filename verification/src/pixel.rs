//! Pixel coordinates of the target image and their row-major enumeration.

use vstd::prelude::*;

verus! {

use vstd::arithmetic::div_mod::lemma_fundamental_div_mod;
use vstd::arithmetic::div_mod::lemma_fundamental_div_mod_converse;

/// One pixel coordinate: `x` is the row (counted from the top of the image,
/// `0 <= x < height`), `y` the column (`0 <= y < width`).  The RGBA bytes of
/// this pixel live at offset `4 * (x * width + y)` of the output buffer.
#[derive(Clone, Copy, PartialEq, Eq, Structural, Debug)]
pub struct Pixel {
    pub x: u32,
    pub y: u32,
}

impl Pixel {
    /// The pixel lies inside a `width` by `height` image.
    pub open spec fn in_frame(self, width: int, height: int) -> bool {
        self.x < height && self.y < width
    }

    /// First byte of this pixel's RGBA cell in the row-major output buffer.
    pub open spec fn offset(self, width: int) -> int {
        4 * (self.x * width + self.y)
    }
}

/// Every pixel of a `width` by `height` image, in row-major order: the pixel
/// at index `i` is row `i / width`, column `i % width`.
pub open spec fn all_pixels(width: int, height: int) -> Seq<Pixel> {
    Seq::new(
        (width * height) as nat,
        |i: int| Pixel { x: (i / width) as u32, y: (i % width) as u32 },
    )
}

/// The pixel of row `x` and column `y` stands at index `x * width + y` of the
/// row-major enumeration, and that index is in range.
pub proof fn lemma_all_pixels_index(width: int, height: int, x: int, y: int)
    requires
        0 <= x < height,
        0 <= y < width,
        height <= u32::MAX,
        width <= u32::MAX,
    ensures
        0 <= x * width + y < width * height,
        all_pixels(width, height)[x * width + y] == (Pixel { x: x as u32, y: y as u32 }),
{
    assert(0 <= x * width + y < width * height) by (nonlinear_arith)
        requires
            0 <= x < height,
            0 <= y < width,
    ;
    lemma_fundamental_div_mod_converse(x * width + y, width, x, y);
}

/// No pixel appears twice in the row-major enumeration.
pub proof fn lemma_all_pixels_distinct(width: int, height: int)
    requires
        0 <= width <= u32::MAX,
        0 <= height <= u32::MAX,
    ensures
        all_pixels(width, height).no_duplicates(),
{
    let s = all_pixels(width, height);
    assert forall|i: int, j: int| 0 <= i < s.len() && 0 <= j < s.len() && i != j implies s[i]
        != s[j] by {
        lemma_pixel_index_bounds(width, height, i);
        lemma_pixel_index_bounds(width, height, j);
        lemma_fundamental_div_mod(i, width);
        lemma_fundamental_div_mod(j, width);
    }
}

/// For an index `i` of the enumeration, row and column quotients stay inside
/// the frame, so the `u32` casts in `all_pixels` lose nothing.
proof fn lemma_pixel_index_bounds(width: int, height: int, i: int)
    requires
        0 <= width,
        0 <= height,
        0 <= i < width * height,
    ensures
        0 <= i / width < height,
        0 <= i % width < width,
        all_pixels(width, height)[i].in_frame(width, height),
{
    assert(width > 0) by (nonlinear_arith)
        requires
            0 <= width,
            0 <= i < width * height,
    ;
    lemma_fundamental_div_mod(i, width);
    assert(0 <= i % width < width) by (nonlinear_arith)
        requires
            width > 0,
    ;
    assert(0 <= i / width < height) by (nonlinear_arith)
        requires
            width > 0,
            0 <= i < width * height,
            i == width * (i / width) + i % width,
            0 <= i % width < width,
    ;
}

/// Every pixel of the row-major enumeration lies inside the frame.
pub proof fn lemma_all_pixels_in_frame(width: int, height: int)
    requires
        0 <= width,
        0 <= height,
    ensures
        forall|i: int|
            0 <= i < all_pixels(width, height).len() ==> (#[trigger] all_pixels(width, height)[i]).in_frame(
                width,
                height,
            ),
{
    assert forall|i: int| 0 <= i < all_pixels(width, height).len() implies (
    #[trigger] all_pixels(width, height)[i]).in_frame(width, height) by {
        lemma_pixel_index_bounds(width, height, i);
    }
}

/// Every in-frame pixel occurs in the row-major enumeration.
pub proof fn lemma_all_pixels_complete(width: int, height: int, p: Pixel)
    requires
        0 <= width <= u32::MAX,
        0 <= height <= u32::MAX,
        p.in_frame(width, height),
    ensures
        all_pixels(width, height).contains(p),
{
    lemma_all_pixels_index(width, height, p.x as int, p.y as int);
    assert(all_pixels(width, height)[p.x * width + p.y] == p);
}

/// Two different in-frame pixels own disjoint four-byte cells of the
/// buffer: one cell ends before the other begins.
pub proof fn lemma_offset_disjoint(width: int, height: int, p: Pixel, q: Pixel)
    requires
        p.in_frame(width, height),
        q.in_frame(width, height),
        p != q,
    ensures
        p.offset(width) + 4 <= q.offset(width) || q.offset(width) + 4 <= p.offset(width),
{
    let ip = (p.x as int) * width + (p.y as int);
    let iq = (q.x as int) * width + (q.y as int);
    if ip == iq {
        lemma_fundamental_div_mod_converse(ip, width, p.x as int, p.y as int);
        lemma_fundamental_div_mod_converse(iq, width, q.x as int, q.y as int);
        assert(p.x == q.x && p.y == q.y);
    }
}

/// Build the row-major list of every pixel of a `width` by `height` image.
pub fn enumerate_pixels(width: u32, height: u32) -> (pixels: Vec<Pixel>)
    requires
        (width as int) * (height as int) <= usize::MAX,
    ensures
        pixels@ == all_pixels(width as int, height as int),
{
    let ghost w: int = width as int;
    let ghost h: int = height as int;
    proof {
        assert(w * h >= 0) by (nonlinear_arith)
            requires
                w >= 0,
                h >= 0,
        ;
    }
    let mut pixels: Vec<Pixel> = Vec::new();
    let mut x: u32 = 0;
    while x < height
        invariant
            x <= height,
            w == width as int,
            h == height as int,
            w * h <= usize::MAX,
            pixels@.len() == x * w,
            pixels@ =~= all_pixels(w, h).subrange(0, x * w),
        decreases height - x,
    {
        let mut y: u32 = 0;
        proof {
            assert((x + 1) * w <= w * h) by (nonlinear_arith)
                requires
                    0 <= x < h,
                    0 <= w,
            ;
            assert(x * w + 0 == x * w);
        }
        while y < width
            invariant
                x < height,
                y <= width,
                w == width as int,
                h == height as int,
                w * h <= usize::MAX,
                (x + 1) * w <= w * h,
                pixels@.len() == x * w + y,
                pixels@ =~= all_pixels(w, h).subrange(0, x * w + y),
            decreases width - y,
        {
            let ghost i: int = x * w + y;
            proof {
                lemma_all_pixels_index(w, h, x as int, y as int);
                assert(i < (x + 1) * w) by (nonlinear_arith)
                    requires
                        i == x * w + y,
                        0 <= x,
                        y < w,
                ;
            }
            pixels.push(Pixel { x, y });
            y = y + 1;
            proof {
                assert(pixels@ =~= all_pixels(w, h).subrange(0, i + 1));
            }
        }
        x = x + 1;
        proof {
            assert(x * w == (x - 1) * w + w) by (nonlinear_arith);
        }
    }
    proof {
        assert(x == height);
        assert(all_pixels(w, h).subrange(0, h * w) =~= all_pixels(w, h)) by {
            assert(h * w == w * h) by (nonlinear_arith);
        }
        assert(x * w == h * w);
    }
    pixels
}

} // verus!
