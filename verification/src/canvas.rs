//! The pixel buffer of a description card (RGB, 1200 pixels wide) and its
//! encoding as PNG.

use vstd::prelude::*;
use crate::error::BotError;

verus! {

/// The width of a card in pixels.
pub const WIDTH: u32 = 1200;

/// The background colour of a card (each channel).
pub const PAPER_LEVEL: u8 = 248;

/// The largest encoded card the bot posts is one byte under this.
pub const MAX_CARD_BYTES: usize = 2_000_000;

/// An RGB pixel buffer, row by row, three bytes a pixel.
pub struct Canvas {
    pub pixels: Vec<u8>,
    pub height: u32,
}

/// The position of channel `ch` of pixel (`row`, `col`) in the buffer.
pub open spec fn pixel_index(row: int, col: int, ch: int) -> int {
    (row * 1200 + col) * 3 + ch
}

/// Whether a pixel lies in the rectangle with corner (`x`, `y`), width `w`
/// and height `h`.
pub open spec fn in_rect(row: int, col: int, x: int, y: int, w: int, h: int) -> bool {
    y <= row < y + h && x <= col < x + w
}

/// A straight alpha blend of one channel (`a` of 255 parts colour).
pub open spec fn blended(colour: u8, under: u8, a: u8) -> u8 {
    ((colour * a + under * (255 - a)) / 255) as u8
}

proof fn lemma_index_in_bounds(row: int, col: int, ch: int, height: int)
    by (nonlinear_arith)
    requires
        0 <= row < height,
        0 <= col < 1200,
        0 <= ch < 3,
    ensures
        0 <= pixel_index(row, col, ch) < 3600 * height,
{
}

proof fn lemma_index_distinct(r1: int, c1: int, k1: int, r2: int, c2: int, k2: int)
    by (nonlinear_arith)
    requires
        0 <= r1,
        0 <= c1 < 1200,
        0 <= k1 < 3,
        0 <= r2,
        0 <= c2 < 1200,
        0 <= k2 < 3,
        r1 != r2 || c1 != c2 || k1 != k2,
    ensures
        pixel_index(r1, c1, k1) != pixel_index(r2, c2, k2),
{
}

fn mix(top: u8, under: u8, a: u8) -> (m: u8)
    ensures
        m == blended(top, under, a),
{
    let t = top as u32;
    let u = under as u32;
    let al = a as u32;
    assert(t * al <= 255 * 255) by (nonlinear_arith)
        requires
            t <= 255,
            al <= 255,
    ;
    assert(u * (255 - al) <= 255 * 255) by (nonlinear_arith)
        requires
            u <= 255,
            al <= 255,
    ;
    assert((t * al + u * (255 - al)) / 255 <= 255) by (nonlinear_arith)
        requires
            t * al <= 255 * 255,
            u * (255 - al) <= 255 * 255,
            t <= 255,
            u <= 255,
            al <= 255,
    ;
    ((t * al + u * (255 - al)) / 255) as u8
}

impl Canvas {
    /// The buffer holds `height` rows of 1200 pixels, and its pixel count
    /// fits in a `u32`.
    pub open spec fn wf(&self) -> bool {
        &&& self.pixels@.len() == 3600 * self.height
        &&& 1200 * self.height <= u32::MAX
    }

    /// Channel `ch` of pixel (`row`, `col`).
    pub open spec fn pixel(&self, row: int, col: int, ch: int) -> u8 {
        self.pixels@[pixel_index(row, col, ch)]
    }

    /// A blank card of the given height.
    pub fn new(height: u32) -> (c: Canvas)
        requires
            1200 * height <= u32::MAX,
        ensures
            c.wf(),
            c.height == height,
            forall|i: int| 0 <= i < c.pixels@.len() ==> #[trigger] c.pixels@[i] == PAPER_LEVEL,
    {
        let n: u64 = (WIDTH * height) as u64 * 3;
        let mut pixels: Vec<u8> = Vec::new();
        let mut i: u64 = 0;
        while i < n
            invariant
                i <= n,
                n == 3600 * height,
                pixels@.len() == i,
                forall|j: int| 0 <= j < i ==> #[trigger] pixels@[j] == PAPER_LEVEL,
            decreases n - i,
        {
            pixels.push(PAPER_LEVEL);
            i = i + 1;
        }
        Canvas { pixels, height }
    }

    /// The position of the first channel of pixel (`row`, `col`).
    fn base_index(&self, row: u32, col: u32) -> (b: usize)
        requires
            self.wf(),
            row < self.height,
            col < 1200,
        ensures
            b == pixel_index(row as int, col as int, 0),
            b + 2 < self.pixels@.len() <= usize::MAX,
    {
        let len = self.pixels.len();
        proof {
            lemma_index_in_bounds(row as int, col as int, 2, self.height as int);
        }
        let v: u64 = (row as u64 * 1200 + col as u64) * 3;
        assert(v + 2 < len);
        v as usize
    }

    fn paint(&mut self, row: u32, col: u32, color: [u8; 3])
        requires
            old(self).wf(),
            row < old(self).height,
            col < 1200,
        ensures
            final(self).wf(),
            final(self).height == old(self).height,
            forall|r: int, c: int, k: int|
                0 <= r < old(self).height && 0 <= c < 1200 && 0 <= k < 3 ==> #[trigger] final(self).pixel(r, c, k) == if r == row && c == col {
                    color[k]
                } else {
                    old(self).pixel(r, c, k)
                },
    {
        proof {
            lemma_index_in_bounds(row as int, col as int, 2, self.height as int);
            lemma_index_in_bounds(row as int, col as int, 0, self.height as int);
        }
        let base = self.base_index(row, col);
        let ghost before = *self;
        self.pixels.set(base, color[0]);
        self.pixels.set(base + 1, color[1]);
        self.pixels.set(base + 2, color[2]);
        assert forall|r: int, c: int, k: int|
            0 <= r < before.height && 0 <= c < 1200 && 0 <= k < 3 implies #[trigger] self.pixel(
            r,
            c,
            k,
        ) == if r == row && c == col {
            color[k]
        } else {
            before.pixel(r, c, k)
        } by {
            lemma_index_in_bounds(r, c, k, before.height as int);
            if r != row || c != col {
                lemma_index_distinct(r, c, k, row as int, col as int, 0);
                lemma_index_distinct(r, c, k, row as int, col as int, 1);
                lemma_index_distinct(r, c, k, row as int, col as int, 2);
            } else {
                assert(pixel_index(r, c, k) == base + k);
            }
        }
    }

    /// Fills a rectangle with a colour, clipped to the card.
    pub fn rect(&mut self, x: u32, y: u32, w: u32, h: u32, color: [u8; 3])
        requires
            old(self).wf(),
            x + w <= u32::MAX,
            y + h <= u32::MAX,
        ensures
            final(self).wf(),
            final(self).height == old(self).height,
            forall|r: int, c: int, k: int|
                0 <= r < old(self).height && 0 <= c < 1200 && 0 <= k < 3 ==> #[trigger] final(self).pixel(r, c, k) == if in_rect(r, c, x as int, y as int, w as int, h as int) {
                    color[k]
                } else {
                    old(self).pixel(r, c, k)
                },
    {
        let ghost start = *self;
        let y_end = if y + h < self.height {
            y + h
        } else {
            self.height
        };
        let x_end = if x + w < WIDTH {
            x + w
        } else {
            WIDTH
        };
        let mut yy = y;
        while yy < y_end
            invariant
                self.wf(),
                self.height == start.height,
                y_end <= start.height,
                y_end <= y + h,
                x_end <= 1200,
                x_end <= x + w,
                y <= yy,
                x_end == 1200 || x_end == x + w,
                y_end == start.height || y_end == y + h,
                forall|r: int, c: int, k: int|
                    0 <= r < start.height && 0 <= c < 1200 && 0 <= k < 3 ==> #[trigger] self.pixel(
                        r,
                        c,
                        k,
                    ) == if in_rect(r, c, x as int, y as int, w as int, h as int) && r < yy {
                        color[k]
                    } else {
                        start.pixel(r, c, k)
                    },
            decreases y_end - yy,
        {
            let mut xx = x;
            while xx < x_end
                invariant
                    self.wf(),
                    self.height == start.height,
                    y <= yy < y_end,
                    y_end <= start.height,
                    y_end <= y + h,
                    x_end <= 1200,
                    x_end <= x + w,
                    x <= xx,
                    x_end == 1200 || x_end == x + w,
                    forall|r: int, c: int, k: int|
                        0 <= r < start.height && 0 <= c < 1200 && 0 <= k < 3 ==> #[trigger] self.pixel(
                            r,
                            c,
                            k,
                        ) == if in_rect(r, c, x as int, y as int, w as int, h as int) && (r < yy || (r
                            == yy && c < xx)) {
                            color[k]
                        } else {
                            start.pixel(r, c, k)
                        },
                decreases x_end - xx,
            {
                self.paint(yy, xx, color);
                xx = xx + 1;
            }
            yy = yy + 1;
        }
    }

    /// Blends a colour into a pixel with coverage `a` (of 255); pixels off the
    /// card are left alone.
    pub fn blend(&mut self, col: i32, row: i32, color: [u8; 3], a: u8)
        requires
            old(self).wf(),
        ensures
            final(self).wf(),
            final(self).height == old(self).height,
            forall|r: int, c: int, k: int|
                0 <= r < old(self).height && 0 <= c < 1200 && 0 <= k < 3 ==> #[trigger] final(self).pixel(r, c, k) == if r == row && c == col {
                    blended(color[k], old(self).pixel(r, c, k), a)
                } else {
                    old(self).pixel(r, c, k)
                },
    {
        if col < 0 || col >= 1200 || row < 0 || row >= self.height as i32 {
            return;
        }
        let r = row as u32;
        let c = col as u32;
        proof {
            lemma_index_in_bounds(r as int, c as int, 2, self.height as int);
            lemma_index_in_bounds(r as int, c as int, 0, self.height as int);
        }
        let base = self.base_index(r, c);
        proof {
            lemma_index_in_bounds(r as int, c as int, 1, self.height as int);
        }
        let m0 = mix(color[0], self.pixels[base], a);
        let m1 = mix(color[1], self.pixels[base + 1], a);
        let m2 = mix(color[2], self.pixels[base + 2], a);
        let mixed: [u8; 3] = [m0, m1, m2];
        assert(base + 1 == pixel_index(r as int, c as int, 1));
        assert(base + 2 == pixel_index(r as int, c as int, 2));
        self.paint(r, c, mixed);
    }

    /// Whether the pixel column `col` is background from row `row - 2` to row
    /// `row + 3` (clipped to the card), so an underline there would not touch
    /// the ink of a glyph.
    pub open spec fn clear_below(&self, col: int, row: int) -> bool {
        forall|r: int|
            row - 2 <= r <= row + 3 && r < self.height && 0 <= r ==> #[trigger] self.paper_at(r, col)
    }

    /// Whether pixel (`r`, `col`) lies on the card and shows the background.
    pub open spec fn paper_at(&self, r: int, col: int) -> bool {
        col < 1200 && self.pixel(r, col, 0) == PAPER_LEVEL && self.pixel(r, col, 1) == PAPER_LEVEL
            && self.pixel(r, col, 2) == PAPER_LEVEL
    }
}

impl Canvas {
    /// Whether an underline may be drawn at pixel column `col` below row
    /// `row`: the column is background from two rows above to three rows
    /// below (within the card).
    pub fn underline_clear(&self, col: u32, row: u32) -> (r: bool)
        requires
            self.wf(),
            self.height > 0,
            row + 3 <= u32::MAX,
        ensures
            r == self.clear_below(col as int, row as int),
    {
        let low = if row >= 2 {
            row - 2
        } else {
            0
        };
        let high = if row + 3 < self.height - 1 {
            row + 3
        } else {
            self.height - 1
        };
        let mut y = low;
        while y <= high
            invariant
                self.wf(),
                self.height > 0,
                low == (if row >= 2 { row - 2 } else { 0 }),
                high < self.height,
                high <= row + 3,
                high == row + 3 || high == self.height - 1,
                low <= y,
                y <= high + 1 || y == low,
                forall|r: int| low <= r < y ==> #[trigger] self.paper_at(r, col as int),
            decreases high + 1 - y,
        {
            if col >= WIDTH {
                assert(!self.clear_below(col as int, row as int)) by {
                    assert(row - 2 <= y <= row + 3 && y < self.height);
                    let _ = self.paper_at(y as int, col as int);
                }
                return false;
            }
            proof {
                lemma_index_in_bounds(y as int, col as int, 0, self.height as int);
                lemma_index_in_bounds(y as int, col as int, 2, self.height as int);
            }
            let base = self.base_index(y, col);
            assert(base == pixel_index(y as int, col as int, 0));
            assert(base + 1 == pixel_index(y as int, col as int, 1));
            assert(base + 2 == pixel_index(y as int, col as int, 2));
            if !(self.pixels[base] == PAPER_LEVEL && self.pixels[base + 1] == PAPER_LEVEL
                && self.pixels[base + 2] == PAPER_LEVEL) {
                assert(!self.clear_below(col as int, row as int)) by {
                    assert(row - 2 <= y <= row + 3 && y < self.height);
                    let _ = self.paper_at(y as int, col as int);
                }
                return false;
            }
            y = y + 1;
        }
        assert forall|r: int|
            row - 2 <= r <= row + 3 && r < self.height && 0 <= r implies #[trigger] self.paper_at(
            r,
            col as int,
        ) by {
            assert(low <= r < y);
        }
        true
    }

    /// Draws one pixel column of a link underline (two rows from `row` down),
    /// unless that would touch glyph ink.
    pub fn underline(&mut self, col: u32, row: u32, color: [u8; 3])
        requires
            old(self).wf(),
            old(self).height > 0,
            row + 3 <= u32::MAX,
            col + 1 <= u32::MAX,
        ensures
            final(self).wf(),
            final(self).height == old(self).height,
            forall|r: int, c: int, k: int|
                0 <= r < old(self).height && 0 <= c < 1200 && 0 <= k < 3 ==> #[trigger] final(self).pixel(r, c, k) == if old(self).clear_below(col as int, row as int) && in_rect(
                    r,
                    c,
                    col as int,
                    row as int,
                    1,
                    2,
                ) {
                    color[k]
                } else {
                    old(self).pixel(r, c, k)
                },
    {
        if self.underline_clear(col, row) {
            self.rect(col, row, 1, 2, color);
        }
    }
}

/// The PNG file (8-bit RGB) that the `png` crate encodes from a pixel
/// buffer of the given size, or `None` when it reports an error.
pub uninterp spec fn png_rgb8(pixels: Seq<u8>, width: int, height: int) -> Option<Seq<u8>>;

/// `png::Encoder` with 8-bit RGB colour: `write_header` then
/// `write_image_data`, the image ended when the writer is dropped. The
/// contract claims only that the file is a function of the pixels and size.
#[verifier::external_body]
fn encode_png(pixels: &[u8], width: u32, height: u32) -> (r: Option<Vec<u8>>)
    ensures
        match r {
            Some(b) => png_rgb8(pixels@, width as int, height as int) == Some(b@),
            None => png_rgb8(pixels@, width as int, height as int) is None,
        },
{
    let mut bytes = Vec::new();
    {
        let mut enc = png::Encoder::new(&mut bytes, width, height);
        enc.set_color(png::ColorType::Rgb);
        enc.set_depth(png::BitDepth::Eight);
        enc.write_header().ok()?.write_image_data(pixels).ok()?;
    }
    Some(bytes)
}

/// The PNG file of a card, if it encodes and is under the size limit.
pub open spec fn card_png(pixels: Seq<u8>, height: int) -> Result<Seq<u8>, BotError> {
    match png_rgb8(pixels, 1200, height) {
        None => Err(BotError::ImageEncoding),
        Some(b) => if b.len() < 2_000_000 {
            Ok(b)
        } else {
            Err(BotError::CardTooLarge)
        },
    }
}

impl Canvas {
    /// Encodes the card as PNG; images must stay under two million bytes.
    pub fn png(self) -> (r: Result<Vec<u8>, BotError>)
        ensures
            match card_png(self.pixels@, self.height as int) {
                Ok(b) => r matches Ok(v) && v@ == b,
                Err(e) => r == Err::<Vec<u8>, BotError>(e),
            },
    {
        match encode_png(self.pixels.as_slice(), WIDTH, self.height) {
            None => Err(BotError::ImageEncoding),
            Some(b) => if b.len() < MAX_CARD_BYTES {
                Ok(b)
            } else {
                Err(BotError::CardTooLarge)
            },
        }
    }
}

} // verus!
