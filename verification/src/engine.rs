//! The plasma engine: turning per-pixel color values into pixels, writing a
//! strip of the frame bottom-up, and putting strips into the frame.
//!
//! The wave interference formula that produces the color value of a pixel is
//! floating-point and lives in the driver; everything after it — the
//! channel derivation with its deliberate wraparound, the bottom-up layout
//! of a strip, the placement of strips into the frame — is verified here.

use vstd::arithmetic::div_mod::lemma_fundamental_div_mod;
use vstd::arithmetic::div_mod::lemma_fundamental_div_mod_converse;
use vstd::prelude::*;

use crate::lookup::MathLookup;

verus! {

/// One 4-channel 8-bit pixel.
#[derive(Clone, Copy, PartialEq, Eq, Structural, Debug)]
pub struct Pixel {
    pub r: u8,
    pub g: u8,
    pub b: u8,
    pub a: u8,
}

/// The pixel derived from a color value: the red channel is the doubled
/// color capped at 255, the green channel the color modulo 256, the blue
/// channel 255 minus the color modulo 256 — the doubling and the blue
/// channel wrap deliberately — and the alpha channel is opaque.
pub open spec fn pixel_spec(c: u32) -> Pixel {
    let doubled = (2 * (c as int)) % 0x1_0000_0000;
    Pixel {
        r: if doubled < 255 {
            doubled as u8
        } else {
            255u8
        },
        g: (c as int % 256) as u8,
        b: ((255 - c as int) % 256) as u8,
        a: 255u8,
    }
}

/// Derive the pixel for one color value.
pub fn pixel_of_color(color: u32) -> (p: Pixel)
    ensures
        p == pixel_spec(color),
{
    let doubled = color.wrapping_mul(2);
    let r = if doubled < 255 {
        doubled as u8
    } else {
        255u8
    };
    let g = (color % 256) as u8;
    let b = 255u8 - g;
    proof {
        let ci = color as int;
        lemma_fundamental_div_mod(ci, 256);
        lemma_fundamental_div_mod_converse(255 - ci, 256, -(ci / 256), 255 - ci % 256);
    }
    Pixel { r, g, b, a: 255 }
}

/// The content of a rendered strip, bottom-up: buffer row 0 holds the last
/// image row of the strip's vertical range.  `colors` is the full-frame
/// color grid, image row by image row.
pub open spec fn strip_pixels(colors: Seq<u32>, width: int, y_offset: int, y_height: int) -> Seq<
    Pixel,
> {
    Seq::new(
        (y_height * width) as nat,
        |i: int| pixel_spec(colors[(y_offset + y_height - 1 - i / width) * width + i % width]),
    )
}

/// Two cells of a row-major grid differ when their rows differ.
proof fn lemma_row_index_distinct(w: int, r1: int, c1: int, r2: int, c2: int)
    requires
        0 <= c1 < w,
        0 <= c2 < w,
        0 <= r1 < r2,
    ensures
        r1 * w + c1 < r2 * w + c2,
{
    assert(r1 * w + c1 < r2 * w + c2) by (nonlinear_arith)
        requires
            0 <= c1 < w,
            0 <= c2 < w,
            0 <= r1 < r2,
    ;
}

/// Determinism of the strip layout: a buffer in which every pixel of the
/// strip's range holds its derived value is the strip, however and in
/// whatever order its cells were written.
pub proof fn lemma_strip_filled(
    b: Seq<Pixel>,
    colors: Seq<u32>,
    width: int,
    y_offset: int,
    y_height: int,
)
    requires
        width > 0,
        y_height >= 0,
        y_offset >= 0,
        b.len() == y_height * width,
        colors.len() >= (y_offset + y_height) * width,
        forall|y: int, x: int|
            y_offset <= y < y_offset + y_height && 0 <= x < width
                ==> b[(y_height - 1 - (y - y_offset)) * width + x] == pixel_spec(
                #[trigger] colors[y * width + x],
            ),
    ensures
        b =~= strip_pixels(colors, width, y_offset, y_height),
{
    assert forall|i: int| 0 <= i < b.len() implies b[i] == strip_pixels(
        colors,
        width,
        y_offset,
        y_height,
    )[i] by {
        lemma_fundamental_div_mod(i, width);
        let r = i / width;
        let x = i % width;
        assert(0 <= r && r < y_height) by (nonlinear_arith)
            requires
                width > 0,
                i == r * width + x,
                0 <= x < width,
                0 <= i < y_height * width,
        ;
        let y = y_offset + y_height - 1 - r;
        assert(b[(y_height - 1 - (y - y_offset)) * width + x] == pixel_spec(
            colors[y * width + x],
        ));
        assert((y_height - 1 - (y - y_offset)) * width + x == i);
    }
}

/// The raster dimensions together with the lookup tables the driver's wave
/// evaluation reads.  Both are fixed at construction.
pub struct Plasma {
    width: u32,
    height: u32,
    ml: MathLookup,
}

impl Plasma {
    pub closed spec fn spec_width(&self) -> u32 {
        self.width
    }

    pub closed spec fn spec_height(&self) -> u32 {
        self.height
    }

    pub closed spec fn spec_math(&self) -> MathLookup {
        self.ml
    }

    pub open spec fn wf(&self) -> bool {
        self.spec_math().wf()
    }

    /// Constructs a new `Plasma` with fixed raster dimensions and the
    /// precomputed lookup tables.
    pub fn new(width: u32, height: u32, ml: MathLookup) -> (r: Plasma)
        requires
            ml.wf(),
        ensures
            r.wf(),
            r.spec_width() == width,
            r.spec_height() == height,
            r.spec_math() == ml,
    {
        Plasma { width, height, ml }
    }

    pub fn width(&self) -> (r: u32)
        ensures
            r == self.spec_width(),
    {
        self.width
    }

    pub fn height(&self) -> (r: u32)
        ensures
            r == self.spec_height(),
    {
        self.height
    }

    /// The shared read-only lookup tables.
    pub fn math(&self) -> (r: &MathLookup)
        ensures
            *r == self.spec_math(),
    {
        &self.ml
    }

    /// Render one strip into its own buffer, bottom-up: the pixel of image
    /// row `y` and column `x` lands in buffer row `y_height - (y - y_offset)
    /// - 1`.  `colors` is the full-frame grid of color values, one per
    /// pixel, produced by the driver's wave evaluation; identical inputs
    /// fill the buffer identically.
    pub fn render(&self, buf: &mut Vec<Pixel>, colors: &Vec<u32>, y_offset: u32, y_height: u32)
        requires
            old(buf)@.len() == y_height * self.spec_width(),
            colors@.len() == self.spec_width() * self.spec_height(),
            y_offset + y_height <= self.spec_height(),
        ensures
            final(buf)@ == strip_pixels(
                colors@,
                self.spec_width() as int,
                y_offset as int,
                y_height as int,
            ),
    {
        let w = self.width;
        let mut y: u32 = y_offset;
        while y < y_offset + y_height
            invariant
                w == self.spec_width(),
                buf@.len() == y_height * w,
                colors@.len() == w * self.spec_height(),
                y_offset + y_height <= self.spec_height(),
                y_offset <= y <= y_offset + y_height,
                forall|yy: int, xx: int|
                    y_offset <= yy < y && 0 <= xx < w ==> buf@[(y_height - 1 - (yy - y_offset)) * w
                        + xx] == pixel_spec(#[trigger] colors@[yy * w + xx]),
            decreases y_offset + y_height - y,
        {
            let row: usize = (y_height - (y - y_offset) - 1) as usize;
            let mut x: u32 = 0;
            while x < w
                invariant
                    w == self.spec_width(),
                    buf@.len() == y_height * w,
                    colors@.len() == w * self.spec_height(),
                    y_offset + y_height <= self.spec_height(),
                    y_offset <= y < y_offset + y_height,
                    row == y_height - (y - y_offset) - 1,
                    0 <= x <= w,
                    forall|yy: int, xx: int|
                        y_offset <= yy < y && 0 <= xx < w ==> buf@[(y_height - 1 - (yy
                            - y_offset)) * w + xx] == pixel_spec(#[trigger] colors@[yy * w + xx]),
                    forall|xx: int|
                        0 <= xx < x ==> buf@[row * w + xx] == pixel_spec(
                            #[trigger] colors@[y * w + xx],
                        ),
                decreases w - x,
            {
                proof {
                    assert(row * w + x < y_height * w) by (nonlinear_arith)
                        requires
                            0 <= row < y_height,
                            0 <= x < w,
                    ;
                    assert(y * w + x < w * self.spec_height()) by (nonlinear_arith)
                        requires
                            0 <= y < self.spec_height(),
                            0 <= x < w,
                    ;
                    assert(buf.len() <= usize::MAX);
                    assert(colors.len() <= usize::MAX);
                }
                let p_pos: usize = row * (w as usize) + (x as usize);
                let cidx: usize = (y as usize) * (w as usize) + (x as usize);
                let pix = pixel_of_color(colors[cidx]);
                buf[p_pos] = pix;
                proof {
                    assert forall|yy: int, xx: int|
                        y_offset <= yy < y && 0 <= xx < w implies buf@[(y_height - 1 - (yy
                        - y_offset)) * w + xx] == pixel_spec(#[trigger] colors@[yy * w + xx]) by {
                        let rr = y_height - 1 - (yy - y_offset);
                        assert(rr * w + xx < y_height * w) by (nonlinear_arith)
                            requires
                                0 <= xx < w,
                                0 <= rr < y_height,
                        ;
                        assert(yy * w + xx < w * self.spec_height()) by (nonlinear_arith)
                            requires
                                0 <= xx < w,
                                0 <= yy < self.spec_height(),
                        ;
                        lemma_row_index_distinct(w as int, row as int, x as int, rr, xx);
                    }
                    assert forall|xx: int| 0 <= xx <= x implies buf@[row * w + xx] == pixel_spec(
                        #[trigger] colors@[y * w + xx],
                    ) by {
                        assert(row * w + xx < y_height * w) by (nonlinear_arith)
                            requires
                                0 <= xx < w,
                                0 <= row < y_height,
                        ;
                        assert(y * w + xx < w * self.spec_height()) by (nonlinear_arith)
                            requires
                                0 <= xx < w,
                                0 <= y < self.spec_height(),
                        ;
                    }
                }
                x = x + 1;
            }
            y = y + 1;
        }
        proof {
            if y_height * self.spec_width() == 0 {
                assert(buf@ =~= strip_pixels(
                    colors@,
                    self.spec_width() as int,
                    y_offset as int,
                    y_height as int,
                ));
            } else {
                assert((y_offset + y_height) * self.spec_width() <= colors@.len())
                    by (nonlinear_arith)
                    requires
                        y_offset + y_height <= self.spec_height(),
                        self.spec_width() >= 0,
                        colors@.len() == self.spec_width() * self.spec_height(),
                ;
                lemma_strip_filled(
                    buf@,
                    colors@,
                    self.spec_width() as int,
                    y_offset as int,
                    y_height as int,
                );
            }
        }
    }

    /// Put one rendered strip into the frame.  A strip whose vertical range
    /// starts higher up the image lands later in the frame, so that the
    /// frame as a whole keeps the bottom-up order of a single full render:
    /// the strip's region starts at row `height - y_offset - y_height` of
    /// the frame.  Everything outside the region is untouched.
    pub fn assemble(&self, frame: &mut Vec<Pixel>, strip: &Vec<Pixel>, y_offset: u32, y_height: u32)
        requires
            old(frame)@.len() == self.spec_height() * self.spec_width(),
            strip@.len() == y_height * self.spec_width(),
            y_offset + y_height <= self.spec_height(),
        ensures
            final(frame)@.len() == old(frame)@.len(),
            forall|j: int|
                0 <= j < strip@.len() ==> final(frame)@[(self.spec_height() - y_offset - y_height)
                    * self.spec_width() + j] == #[trigger] strip@[j],
            forall|i: int|
                0 <= i < old(frame)@.len() && !((self.spec_height() - y_offset - y_height)
                    * self.spec_width() <= i < (self.spec_height() - y_offset)
                    * self.spec_width()) ==> final(frame)@[i] == #[trigger] old(frame)@[i],
    {
        let w = self.width;
        let h = self.height;
        proof {
            assert((h - y_offset - y_height) * w + y_height * w == (h - y_offset) * w
                && (h - y_offset) * w <= h * w) by (nonlinear_arith)
                requires
                    0 <= y_offset,
                    0 <= y_height,
                    y_offset + y_height <= h,
                    0 <= w,
            ;
            assert(frame.len() <= usize::MAX);
        }
        let base: usize = ((h - y_offset - y_height) as usize) * (w as usize);
        let mut j: usize = 0;
        while j < strip.len()
            invariant
                w == self.spec_width(),
                h == self.spec_height(),
                frame@.len() == h * w,
                strip@.len() == y_height * w,
                y_offset + y_height <= h,
                base == (h - y_offset - y_height) * w,
                base + strip@.len() == (h - y_offset) * w <= h * w,
                0 <= j <= strip@.len(),
                forall|k: int| 0 <= k < j ==> frame@[base + k] == #[trigger] strip@[k],
                forall|i: int|
                    0 <= i < frame@.len() && !(base <= i < base + strip@.len()) ==> frame@[i]
                        == #[trigger] old(frame)@[i],
            decreases strip@.len() - j,
        {
            proof {
                assert(frame.len() <= usize::MAX);
            }
            frame[base + j] = strip[j];
            j = j + 1;
        }
    }
}

/// Some strip of the family covers image row `y`.  `parts` lists the
/// `(y_offset, y_height)` of each strip.
pub open spec fn covers(parts: Seq<(int, int)>, y: int) -> bool {
    exists|p: int| 0 <= p < parts.len() && (#[trigger] parts[p]).0 <= y < parts[p].0 + parts[p].1
}

/// End-to-end equivalence: a frame assembled from any family of rendered
/// strips that together cover every image row equals the frame rendered as
/// one full-height strip.  `parts` lists the `(y_offset, y_height)` of each
/// strip.
pub proof fn lemma_frame_from_strips(
    frame: Seq<Pixel>,
    colors: Seq<u32>,
    width: int,
    height: int,
    parts: Seq<(int, int)>,
)
    requires
        width > 0,
        height >= 0,
        frame.len() == height * width,
        colors.len() == height * width,
        forall|p: int|
            0 <= p < parts.len() ==> 0 <= (#[trigger] parts[p]).0 && 0 <= parts[p].1
                && parts[p].0 + parts[p].1 <= height,
        forall|p: int|
            0 <= p < parts.len() ==> frame.subrange(
                (height - (#[trigger] parts[p]).0 - parts[p].1) * width,
                (height - parts[p].0) * width,
            ) == strip_pixels(colors, width, parts[p].0, parts[p].1),
        forall|y: int| 0 <= y < height ==> #[trigger] covers(parts, y),
    ensures
        frame =~= strip_pixels(colors, width, 0, height),
{
    assert forall|y: int, x: int| 0 <= y < height && 0 <= x < width implies frame[(height - 1 - y)
        * width + x] == pixel_spec(#[trigger] colors[y * width + x]) by {
        assert(covers(parts, y));
        let p = choose|p: int|
            0 <= p < parts.len() && (#[trigger] parts[p]).0 <= y < parts[p].0 + parts[p].1;
        assert(0 <= p < parts.len() && parts[p].0 <= y < parts[p].0 + parts[p].1);
        let yo = parts[p].0;
        let yh = parts[p].1;
        let rr = yh - 1 - (y - yo);
        let j = rr * width + x;
        assert(0 <= j < yh * width) by (nonlinear_arith)
            requires
                0 <= x < width,
                0 <= rr < yh,
                j == rr * width + x,
        ;
        let base = (height - yo - yh) * width;
        assert(0 <= base && (height - yo) * width <= height * width) by (nonlinear_arith)
            requires
                0 <= yo,
                0 <= yh,
                yo + yh <= height,
                width > 0,
                base == (height - yo - yh) * width,
        ;
        assert(frame.subrange(base, (height - yo) * width) == strip_pixels(colors, width, yo, yh));
        assert((height - yo) * width - base == yh * width) by (nonlinear_arith)
            requires
                base == (height - yo - yh) * width,
        ;
        assert(frame.subrange(base, (height - yo) * width)[j] == frame[base + j]);
        assert(frame[base + j] == strip_pixels(colors, width, yo, yh)[j]);
        lemma_fundamental_div_mod_converse(j, width, rr, x);
        assert(strip_pixels(colors, width, yo, yh)[j] == pixel_spec(colors[y * width + x]));
        assert((height - yo - yh) * width + j == (height - 1 - y) * width + x) by (nonlinear_arith)
            requires
                j == rr * width + x,
                rr == yh - 1 - (y - yo),
        ;
    }
    lemma_strip_filled(frame, colors, width, 0, height);
}

} // verus!
