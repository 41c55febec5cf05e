//! The pixel-buffer model: an image is its width, its height, and a flat
//! row-major RGBA byte buffer, four bytes per pixel. The puzzle worker owns
//! one such buffer per loaded picture; cropping takes a read-only copy of a
//! tile's footprint and never touches the source.

use vstd::prelude::*;
use vstd::arithmetic::div_mod::lemma_fundamental_div_mod_converse;

verus! {

/// An immutable pixel buffer: `pixels` holds `4 * width * height` bytes,
/// row-major, one `[r, g, b, a]` quadruple per pixel.
#[derive(Clone, Debug)]
pub struct Image {
    pub width: u32,
    pub height: u32,
    pub pixels: Vec<u8>,
}

impl Image {
    /// The buffer holds exactly four bytes for each of `width * height` pixels.
    pub open spec fn wf(self) -> bool {
        self.pixels@.len() == 4 * self.width * self.height
    }

    /// Byte `ch` (0..4) of the pixel at column `px`, row `py`.
    pub open spec fn spec_byte(self, px: int, py: int, ch: int) -> u8 {
        self.pixels@[byte_index(self.width as int, px, py, ch)]
    }
}

/// Every pixel is opaque black: channels 0, 0, 0 and alpha 255.
pub open spec fn all_black(img: Image) -> bool {
    forall|i: int| 0 <= i < img.pixels@.len()
        ==> img.pixels@[i] == (if i % 4 == 3 { 255u8 } else { 0u8 })
}

/// `piece` is the `w` x `h` rectangle of `src` whose top-left corner sits at
/// `(x, y)`: same bytes pixel for pixel, channel for channel.
pub open spec fn is_crop_of(piece: Image, src: Image, x: int, y: int, w: int, h: int) -> bool {
    &&& piece.width == w
    &&& piece.height == h
    &&& piece.pixels@.len() == 4 * w * h
    &&& forall|py: int, px: int, ch: int|
            0 <= py < h && 0 <= px < w && 0 <= ch < 4
            ==> #[trigger] piece.spec_byte(px, py, ch) == src.spec_byte(x + px, y + py, ch)
}

/// The flat byte index of channel `ch` of the pixel at column `px`, row
/// `py` of a buffer `w` pixels wide.
pub open spec fn byte_index(w: int, px: int, py: int, ch: int) -> int {
    4 * (py * w + px) + ch
}

/// The flat byte index of channel `ch` of the pixel at `(px, py)` stays
/// inside a well-formed `w` x `h` buffer.
proof fn lemma_byte_index_bounds(w: int, h: int, px: int, py: int, ch: int)
    requires
        0 <= px < w,
        0 <= py < h,
        0 <= ch < 4,
    ensures
        0 <= byte_index(w, px, py, ch),
        byte_index(w, px, py, ch) < 4 * w * h,
{
    assert(0 <= py * w + px && py * w + px < w * h) by (nonlinear_arith)
        requires 0 <= px < w && 0 <= py < h;
    assert(4 * (w * h) == 4 * w * h) by (nonlinear_arith);
}

/// Two pixel coordinates with the same flat byte index are the same
/// coordinate: the index map is injective.
proof fn lemma_byte_index_injective(w: int, p1: int, q1: int, c1: int, p2: int, q2: int, c2: int)
    requires
        w >= 1,
        0 <= p1 < w,
        0 <= p2 < w,
        0 <= c1 < 4,
        0 <= c2 < 4,
        0 <= q1,
        0 <= q2,
        byte_index(w, p1, q1, c1) == byte_index(w, p2, q2, c2),
    ensures
        q1 == q2,
        p1 == p2,
        c1 == c2,
{
    let k = byte_index(w, p1, q1, c1);
    assert(k == (q1 * w + p1) * 4 + c1);
    assert(k == (q2 * w + p2) * 4 + c2);
    lemma_fundamental_div_mod_converse(k, 4, q1 * w + p1, c1);
    lemma_fundamental_div_mod_converse(k, 4, q2 * w + p2, c2);
    let m = q1 * w + p1;
    lemma_fundamental_div_mod_converse(m, w, q1, p1);
    lemma_fundamental_div_mod_converse(m, w, q2, p2);
}

/// An all-hidden placeholder of the given dimensions: every pixel opaque black.
pub fn create_black_image(width: u32, height: u32) -> (r: Image)
    requires
        4 * (width as int) * (height as int) <= usize::MAX as int,
    ensures
        r.width == width,
        r.height == height,
        r.wf(),
        all_black(r),
{
    proof {
        assert(0 <= (width as int) * (height as int)
            && (width as int) * (height as int) <= 4 * (width as int) * (height as int))
            by (nonlinear_arith);
        assert(4 * ((width as int) * (height as int)) == 4 * (width as int) * (height as int))
            by (nonlinear_arith);
    }
    let count: usize = (width as usize) * (height as usize);
    let mut pixels: Vec<u8> = Vec::new();
    let mut k: usize = 0;
    while k < count
        invariant
            k <= count,
            count == (width as int) * (height as int),
            4 * count <= usize::MAX,
            pixels@.len() == 4 * k,
            forall|i: int| 0 <= i < pixels@.len()
                ==> pixels@[i] == (if i % 4 == 3 { 255u8 } else { 0u8 }),
        decreases count - k,
    {
        pixels.push(0);
        pixels.push(0);
        pixels.push(0);
        pixels.push(255);
        k = k + 1;
    }
    Image { width, height, pixels }
}

impl Image {
    /// A read-only crop: copy the `w` x `h` rectangle at `(x, y)` out of this
    /// image into a fresh buffer. The source is not changed.
    pub fn crop_imm(&self, x: u32, y: u32, w: u32, h: u32) -> (r: Image)
        requires
            self.wf(),
            x + w <= self.width,
            y + h <= self.height,
        ensures
            r.wf(),
            is_crop_of(r, *self, x as int, y as int, w as int, h as int),
    {
        let src_len = self.pixels.len();
        let ghost wi = w as int;
        let ghost hi = h as int;
        let mut out: Vec<u8> = Vec::new();
        let mut py: u32 = 0;
        while py < h
            invariant
                py <= h,
                self.wf(),
                x + w <= self.width,
                y + h <= self.height,
                src_len == self.pixels@.len(),
                out@.len() == 4 * ((py as int) * wi),
                wi == w as int,
                hi == h as int,
                forall|q: int, p: int, c: int|
                    0 <= q < hi && 0 <= p < wi && 0 <= c < 4
                        && #[trigger] byte_index(wi, p, q, c) < out@.len()
                    ==> out@[byte_index(wi, p, q, c)] == self.spec_byte(x + p, y + q, c),
            decreases h - py,
        {
            let mut px: u32 = 0;
            while px < w
                invariant
                    px <= w,
                    py < h,
                    self.wf(),
                    x + w <= self.width,
                    y + h <= self.height,
                    src_len == self.pixels@.len(),
                    out@.len() == 4 * ((py as int) * wi + px as int),
                    wi == w as int,
                    hi == h as int,
                    forall|q: int, p: int, c: int|
                        0 <= q < hi && 0 <= p < wi && 0 <= c < 4
                            && #[trigger] byte_index(wi, p, q, c) < out@.len()
                        ==> out@[byte_index(wi, p, q, c)] == self.spec_byte(x + p, y + q, c),
                decreases w - px,
            {
                proof {
                    lemma_byte_index_bounds(wi, hi, px as int, py as int, 0);
                    lemma_byte_index_bounds(
                        self.width as int, self.height as int,
                        x as int + px as int, y as int + py as int, 3,
                    );
                }
                let row: usize = (y + py) as usize;
                let col: usize = (x + px) as usize;
                let base: usize = 4 * (row * (self.width as usize) + col);
                let mut ch: usize = 0;
                while ch < 4
                    invariant
                        ch <= 4,
                        py < h,
                        px < w,
                        self.wf(),
                        x + w <= self.width,
                        y + h <= self.height,
                        src_len == self.pixels@.len(),
                        base == 4 * ((y as int + py as int) * self.width as int
                            + (x as int + px as int)),
                        base + 4 <= src_len,
                        out@.len() == 4 * ((py as int) * wi + px as int) + ch,
                        wi == w as int,
                        hi == h as int,
                        forall|q: int, p: int, c: int|
                            0 <= q < hi && 0 <= p < wi && 0 <= c < 4
                                && #[trigger] byte_index(wi, p, q, c) < out@.len()
                            ==> out@[byte_index(wi, p, q, c)] == self.spec_byte(x + p, y + q, c),
                    decreases 4 - ch,
                {
                    let ghost old_out = out@;
                    out.push(self.pixels[base + ch]);
                    proof {
                        let ko = old_out.len() as int;
                        assert(ko == byte_index(wi, px as int, py as int, ch as int));
                        assert forall|q: int, p: int, c: int|
                            0 <= q < hi && 0 <= p < wi && 0 <= c < 4
                                && #[trigger] byte_index(wi, p, q, c) < out@.len()
                            implies out@[byte_index(wi, p, q, c)]
                                == self.spec_byte(x + p, y + q, c) by {
                            let k = byte_index(wi, p, q, c);
                            lemma_byte_index_bounds(wi, hi, p, q, c);
                            if k < ko {
                                assert(out@[k] == old_out[k]);
                            } else {
                                assert(k == ko);
                                lemma_byte_index_injective(
                                    wi, p, q, c, px as int, py as int, ch as int,
                                );
                                assert(out@[k] == self.pixels@[base + ch as int]);
                                assert(base + ch as int
                                    == byte_index(self.width as int,
                                        x as int + p, y as int + q, c));
                            }
                        }
                    }
                    ch = ch + 1;
                }
                px = px + 1;
            }
            proof {
                assert(4 * ((py as int) * wi + wi) == 4 * ((py as int + 1) * wi))
                    by (nonlinear_arith);
            }
            py = py + 1;
        }
        let r = Image { width: w, height: h, pixels: out };
        proof {
            assert(4 * (hi * wi) == 4 * wi * hi) by (nonlinear_arith);
            assert(4 * wi * hi == 4 * (wi * hi)) by (nonlinear_arith);
            assert forall|pyy: int, pxx: int, chh: int|
                0 <= pyy < hi && 0 <= pxx < wi && 0 <= chh < 4
                implies #[trigger] r.spec_byte(pxx, pyy, chh)
                    == self.spec_byte(x + pxx, y + pyy, chh) by {
                lemma_byte_index_bounds(wi, hi, pxx, pyy, chh);
            }
        }
        r
    }
}

} // verus!
