//! The picture of a preview: an opaque RGB buffer, rectangles and glyphs drawn into it.

use vstd::prelude::*;

verus! {

/// Width of a preview in pixels.
pub const WIDTH: usize = 1200;

/// Height of a preview in pixels.
pub const HEIGHT: usize = 630;

/// Bytes in the buffer of a preview: three for each pixel.
pub const BUFFER_LEN: usize = 2268000;

/// The page background.
pub const BG_R: u8 = 0x0a;

pub const BG_G: u8 = 0x0c;

pub const BG_B: u8 = 0x10;

/// An opaque colour.
#[derive(Clone, Copy, PartialEq, Eq, Structural)]
pub struct Rgb {
    pub r: u8,
    pub g: u8,
    pub b: u8,
}

/// `over` laid on `under` with the opacity `alpha`, rounded down.
pub open spec fn mixed(over: u8, under: u8, alpha: u8) -> u8 {
    ((over * alpha + under * (255 - alpha)) / 255) as u8
}

proof fn lemma_mixed_range(over: u8, under: u8, alpha: u8)
    ensures
        0 <= over * alpha,
        0 <= under * (255 - alpha),
        over * alpha + under * (255 - alpha) <= 255 * 255,
        0 <= (over * alpha + under * (255 - alpha)) / 255 <= 255,
        alpha == 255 ==> mixed(over, under, alpha) == over,
        alpha == 0 ==> mixed(over, under, alpha) == under,
{
    assert(0 <= over * alpha <= 255 * alpha && 0 <= under * (255 - alpha) <= 255 * (255 - alpha))
        by (nonlinear_arith)
        requires
            0 <= over <= 255,
            0 <= under <= 255,
            0 <= alpha <= 255,
    ;
    if alpha == 0 {
        assert(over * alpha == 0 && under * (255 - alpha) == 255 * under) by (nonlinear_arith)
            requires
                alpha == 0,
        ;
    }
    if alpha == 255 {
        assert(over * alpha == 255 * over && under * (255 - alpha) == 0) by (nonlinear_arith)
            requires
                alpha == 255,
        ;
    }
}

/// Blends one colour channel over a background channel.
pub fn apply_alpha_channel(fg: u8, bg: u8, alpha: u8) -> (r: u8)
    ensures
        r == mixed(fg, bg, alpha),
{
    proof {
        lemma_mixed_range(fg, bg, alpha);
    }
    if alpha == 255 {
        return fg;
    }
    let a: u16 = alpha as u16;
    let over: u16 = fg as u16;
    let under: u16 = bg as u16;
    let x: u16 = over * a;
    let y: u16 = under * (255 - a);
    ((x + y) / 255) as u8
}

impl Rgb {
    /// The colour with the given channels.
    pub fn new(r: u8, g: u8, b: u8) -> (c: Rgb)
        ensures
            c == (Rgb { r, g, b }),
    {
        Rgb { r, g, b }
    }

    /// The colour laid on the page background with the opacity `alpha`.
    pub open spec fn fade(self, alpha: u8) -> Rgb {
        Rgb {
            r: mixed(self.r, BG_R, alpha),
            g: mixed(self.g, BG_G, alpha),
            b: mixed(self.b, BG_B, alpha),
        }
    }

    /// Blends toward the page background, channel by channel.
    pub fn faded(self, alpha_factor: u8) -> (c: Rgb)
        ensures
            c == self.fade(alpha_factor),
    {
        Rgb {
            r: apply_alpha_channel(self.r, BG_R, alpha_factor),
            g: apply_alpha_channel(self.g, BG_G, alpha_factor),
            b: apply_alpha_channel(self.b, BG_B, alpha_factor),
        }
    }

    /// The channels in the order in which the buffer holds them.
    pub open spec fn channel(self, i: int) -> u8 {
        if i == 0 {
            self.r
        } else if i == 1 {
            self.g
        } else {
            self.b
        }
    }
}

/// A colour that is wholly opaque does not fade, and one without opacity is the background.
pub proof fn law_fading_ends(c: Rgb)
    ensures
        c.fade(255) == c,
        c.fade(0) == (Rgb { r: BG_R, g: BG_G, b: BG_B }),
{
    lemma_mixed_range(c.r, BG_R, 255);
    lemma_mixed_range(c.g, BG_G, 255);
    lemma_mixed_range(c.b, BG_B, 255);
    lemma_mixed_range(c.r, BG_R, 0);
    lemma_mixed_range(c.g, BG_G, 0);
    lemma_mixed_range(c.b, BG_B, 0);
}

/// The column of the pixel that byte `i` of the buffer belongs to.
pub open spec fn column(i: int) -> int {
    (i / 3) % (WIDTH as int)
}

/// The row of the pixel that byte `i` of the buffer belongs to.
pub open spec fn row(i: int) -> int {
    (i / 3) / (WIDTH as int)
}

/// A rectangle of pixels.
#[derive(Clone, Copy)]
pub struct Rect {
    pub x: usize,
    pub y: usize,
    pub w: usize,
    pub h: usize,
}

impl Rect {
    /// Whether the pixel at column `x` and row `y` lies in the rectangle.
    pub open spec fn covers(self, x: int, y: int) -> bool {
        self.x <= x < self.x + self.w && self.y <= y < self.y + self.h
    }
}

/// The buffer with a rectangle painted over.
pub open spec fn filled(pixels: Seq<u8>, rect: Rect, color: Rgb) -> Seq<u8> {
    Seq::new(
        pixels.len(),
        |i: int|
            if rect.covers(column(i), row(i)) {
                color.channel(i % 3)
            } else {
                pixels[i]
            },
    )
}

/// The buffer of a blank page.
pub open spec fn blank_pixels() -> Seq<u8> {
    Seq::new(BUFFER_LEN as nat, |i: int| (Rgb { r: BG_R, g: BG_G, b: BG_B }).channel(i % 3))
}

/// A blank page.
pub fn blank() -> (r: Vec<u8>)
    ensures
        r@ == blank_pixels(),
{
    let mut out: Vec<u8> = Vec::with_capacity(BUFFER_LEN);
    let mut n: usize = 0;
    while n < WIDTH * HEIGHT
        invariant
            n <= WIDTH * HEIGHT,
            out@.len() == 3 * n,
            forall|i: int|
                0 <= i < 3 * n ==> #[trigger] out@[i] == (Rgb { r: BG_R, g: BG_G, b: BG_B }).channel(
                    i % 3,
                ),
        decreases WIDTH * HEIGHT - n,
    {
        out.push(BG_R);
        out.push(BG_G);
        out.push(BG_B);
        n = n + 1;
    }
    assert(out@ =~= blank_pixels());
    out
}

proof fn lemma_at(x: int, y: int, c: int)
    requires
        0 <= x < WIDTH,
        0 <= y < HEIGHT,
        0 <= c < 3,
    ensures
        0 <= (y * WIDTH + x) * 3 + c < BUFFER_LEN,
        column((y * WIDTH + x) * 3 + c) == x,
        row((y * WIDTH + x) * 3 + c) == y,
        ((y * WIDTH + x) * 3 + c) % 3 == c,
{
}

proof fn lemma_place(i: int)
    requires
        0 <= i < BUFFER_LEN,
    ensures
        0 <= column(i) < WIDTH,
        0 <= row(i) < HEIGHT,
        (row(i) * WIDTH + column(i)) * 3 + i % 3 == i,
{
}

/// Writes one pixel.
fn set_pixel(pixels: &mut Vec<u8>, x: usize, y: usize, color: Rgb)
    requires
        old(pixels)@.len() == BUFFER_LEN,
        x < WIDTH,
        y < HEIGHT,
    ensures
        final(pixels)@.len() == BUFFER_LEN,
        forall|i: int|
            0 <= i < BUFFER_LEN ==> #[trigger] final(pixels)@[i] == (if column(i) == x && row(i) == y {
                color.channel(i % 3)
            } else {
                old(pixels)@[i]
            }),
{
    let idx: usize = (y * WIDTH + x) * 3;
    proof {
        lemma_at(x as int, y as int, 0);
        lemma_at(x as int, y as int, 1);
        lemma_at(x as int, y as int, 2);
    }
    pixels.set(idx, color.r);
    pixels.set(idx + 1, color.g);
    pixels.set(idx + 2, color.b);
    proof {
        assert forall|i: int| 0 <= i < BUFFER_LEN implies #[trigger] pixels@[i] == (if column(i) == x
            && row(i) == y {
            color.channel(i % 3)
        } else {
            old(pixels)@[i]
        }) by {
            lemma_place(i);
        }
    }
}

/// Paints a rectangle; what lies outside the picture is cut off.
pub fn fill_rect(pixels: &mut Vec<u8>, rect: Rect, color: Rgb)
    requires
        old(pixels)@.len() == BUFFER_LEN,
    ensures
        final(pixels)@ == filled(old(pixels)@, rect, color),
{
    let x_end: usize = if rect.x.saturating_add(rect.w) < WIDTH {
        rect.x.saturating_add(rect.w)
    } else {
        WIDTH
    };
    let y_end: usize = if rect.y.saturating_add(rect.h) < HEIGHT {
        rect.y.saturating_add(rect.h)
    } else {
        HEIGHT
    };
    let ghost before = pixels@;
    let mut y: usize = rect.y;
    while y < y_end
        invariant
            before.len() == BUFFER_LEN,
            pixels@.len() == BUFFER_LEN,
            rect.y <= y,
            y_end <= HEIGHT,
            x_end <= WIDTH,
            x_end == WIDTH || x_end == rect.x + rect.w,
            x_end <= rect.x + rect.w,
            forall|i: int|
                0 <= i < BUFFER_LEN ==> #[trigger] pixels@[i] == (if rect.x <= column(i) < x_end
                    && rect.y <= row(i) < y && row(i) < y_end {
                    color.channel(i % 3)
                } else {
                    before[i]
                }),
        decreases y_end - y,
    {
        let mut x: usize = rect.x;
        while x < x_end
            invariant
                before.len() == BUFFER_LEN,
                pixels@.len() == BUFFER_LEN,
                rect.x <= x,
                rect.y <= y < y_end,
                y_end <= HEIGHT,
                x_end <= WIDTH,
                forall|i: int|
                    0 <= i < BUFFER_LEN ==> #[trigger] pixels@[i] == (if (rect.x <= column(i) < x_end
                        && rect.y <= row(i) < y) || (rect.x <= column(i) < x && column(i) < x_end
                        && row(i) == y) {
                        color.channel(i % 3)
                    } else {
                        before[i]
                    }),
            decreases x_end - x,
        {
            set_pixel(pixels, x, y, color);
            x = x + 1;
        }
        y = y + 1;
    }
    proof {
        assert forall|i: int| 0 <= i < BUFFER_LEN implies #[trigger] pixels@[i] == filled(
            before,
            rect,
            color,
        )[i] by {
            lemma_place(i);
        }
        assert(pixels@ =~= filled(before, rect, color));
    }
}

/// A position in the picture.
#[derive(Clone, Copy)]
pub struct Point {
    pub x: usize,
    pub y: usize,
}

/// A rasterized character: the coverage of each of its pixels, row by row, and where they lie
/// relative to the cursor.
pub struct CachedGlyph {
    pub width: usize,
    pub height: usize,
    pub xmin: i32,
    pub ymin: i32,
    pub advance_width: usize,
    pub bitmap: Vec<u8>,
}

impl CachedGlyph {
    /// The bitmap holds one byte for each pixel, and the measures fit the arithmetic of drawing.
    pub open spec fn wf(self) -> bool {
        &&& self.width <= i32::MAX
        &&& self.height <= i32::MAX
        &&& self.bitmap@.len() == self.width * self.height
    }

    /// The glyph with the given measures, if they belong together.
    pub fn new(
        width: usize,
        height: usize,
        xmin: i32,
        ymin: i32,
        advance_width: usize,
        bitmap: Vec<u8>,
    ) -> (r: Option<CachedGlyph>)
        ensures
            r matches Some(g) ==> g.wf() && g == (CachedGlyph {
                width,
                height,
                xmin,
                ymin,
                advance_width,
                bitmap,
            }),
            r is None ==> !(CachedGlyph { width, height, xmin, ymin, advance_width, bitmap }).wf(),
    {
        let limit: usize = i32::MAX as usize;
        let have: usize = bitmap.len();
        if width > limit || height > limit {
            return None;
        }
        match width.checked_mul(height) {
            None => {
                assert(width * height > have);
                None
            },
            Some(size) => if size == have {
                Some(CachedGlyph { width, height, xmin, ymin, advance_width, bitmap })
            } else {
                None
            },
        }
    }

    /// The coverage of the glyph's pixel at column `gx` and row `gy`; zero outside the bitmap.
    pub open spec fn coverage(self, gx: int, gy: int) -> u8 {
        if 0 <= gx < self.width && 0 <= gy < self.height {
            self.bitmap@[gy * self.width + gx]
        } else {
            0
        }
    }

    /// Whether another glyph has the same measures and the same pixels.
    pub open spec fn looks_like(self, other: CachedGlyph) -> bool {
        &&& self.width == other.width
        &&& self.height == other.height
        &&& self.xmin == other.xmin
        &&& self.ymin == other.ymin
        &&& self.advance_width == other.advance_width
        &&& self.bitmap@ == other.bitmap@
    }

    /// The column at which the glyph's bitmap starts when the cursor is at `x`.
    pub open spec fn left(self, x: int) -> int {
        x + self.xmin
    }

    /// The row at which the glyph's bitmap starts on a line of the given height at `y`: the
    /// baseline lies four pixels above the line's lower edge.
    pub open spec fn top(self, y: int, line_height: int) -> int {
        y + (line_height - 4) - self.height - self.ymin
    }
}

/// The buffer with a glyph drawn into it: each pixel takes the colour in the measure of the
/// glyph's coverage there.
pub open spec fn drawn(
    pixels: Seq<u8>,
    glyph: CachedGlyph,
    pos: Point,
    line_height: usize,
    color: Rgb,
) -> Seq<u8> {
    Seq::new(
        pixels.len(),
        |i: int|
            mixed(
                color.channel(i % 3),
                pixels[i],
                glyph.coverage(
                    column(i) - glyph.left(pos.x as int),
                    row(i) - glyph.top(pos.y as int, line_height as int),
                ),
            ),
    )
}

proof fn lemma_bitmap_index(gx: int, gy: int, width: int, height: int)
    requires
        0 <= gx < width,
        0 <= gy < height,
    ensures
        0 <= gy * width + gx < width * height,
        0 <= gy * width,
{
    assert(0 <= gy * width + gx < width * height && 0 <= gy * width) by (nonlinear_arith)
        requires
            0 <= gx < width,
            0 <= gy < height,
    ;
}

/// `v` moved into the range from zero to `high`.
fn clamp(v: i64, high: usize) -> (r: usize)
    requires
        high <= i32::MAX,
    ensures
        v <= 0 ==> r == 0,
        0 <= v <= high ==> r == v,
        v >= high ==> r == high,
{
    if v <= 0 {
        0
    } else if v >= high as i64 {
        high
    } else {
        v as usize
    }
}

/// Blends one pixel of a glyph into the picture.
fn blend_pixel(pixels: &mut Vec<u8>, x: usize, y: usize, color: Rgb, coverage: u8)
    requires
        old(pixels)@.len() == BUFFER_LEN,
        x < WIDTH,
        y < HEIGHT,
    ensures
        final(pixels)@.len() == BUFFER_LEN,
        forall|i: int|
            0 <= i < BUFFER_LEN ==> #[trigger] final(pixels)@[i] == (if column(i) == x && row(i) == y {
                mixed(color.channel(i % 3), old(pixels)@[i], coverage)
            } else {
                old(pixels)@[i]
            }),
{
    let idx: usize = (y * WIDTH + x) * 3;
    proof {
        lemma_at(x as int, y as int, 0);
        lemma_at(x as int, y as int, 1);
        lemma_at(x as int, y as int, 2);
    }
    let r: u8 = apply_alpha_channel(color.r, pixels[idx], coverage);
    let g: u8 = apply_alpha_channel(color.g, pixels[idx + 1], coverage);
    let b: u8 = apply_alpha_channel(color.b, pixels[idx + 2], coverage);
    let ghost before = pixels@;
    set_pixel(pixels, x, y, Rgb { r, g, b });
    proof {
        assert forall|i: int| 0 <= i < BUFFER_LEN implies #[trigger] pixels@[i] == (if column(i) == x
            && row(i) == y {
            mixed(color.channel(i % 3), before[i], coverage)
        } else {
            before[i]
        }) by {
            lemma_place(i);
        }
    }
}

/// Draws a glyph at the cursor `pos` on a line of the given height; what lies outside the picture
/// is cut off.
pub fn draw_glyph(
    pixels: &mut Vec<u8>,
    glyph: &CachedGlyph,
    pos: Point,
    line_height: usize,
    color: Rgb,
)
    requires
        old(pixels)@.len() == BUFFER_LEN,
        glyph.wf(),
        pos.x <= i32::MAX,
        pos.y <= i32::MAX,
        line_height <= i32::MAX,
    ensures
        final(pixels)@ == drawn(old(pixels)@, *glyph, pos, line_height, color),
{
    let glyph_x: i64 = pos.x as i64 + glyph.xmin as i64;
    let glyph_y: i64 = pos.y as i64 + (line_height as i64 - 4) - glyph.height as i64
        - glyph.ymin as i64;
    let gy_start: usize = clamp(-glyph_y, glyph.height);
    let gy_end: usize = clamp(HEIGHT as i64 - glyph_y, glyph.height);
    let gx_start: usize = clamp(-glyph_x, glyph.width);
    let gx_end: usize = clamp(WIDTH as i64 - glyph_x, glyph.width);
    let ghost before = pixels@;
    let size: usize = glyph.bitmap.len();
    let mut gy: usize = gy_start;
    while gy < gy_end
        invariant
            before.len() == BUFFER_LEN,
            pixels@.len() == BUFFER_LEN,
            glyph.wf(),
            size == glyph.bitmap@.len(),
            gy_start <= gy,
            gy_end <= glyph.height,
            gx_end <= glyph.width,
            glyph_x == glyph.left(pos.x as int),
            glyph_y == glyph.top(pos.y as int, line_height as int),
            -0x2_0000_0000 < glyph_x < 0x2_0000_0000,
            -0x2_0000_0000 < glyph_y < 0x2_0000_0000,
            gy_start < gy_end ==> glyph_y + gy_start >= 0 && glyph_y + gy_end <= HEIGHT,
            gx_start < gx_end ==> glyph_x + gx_start >= 0 && glyph_x + gx_end <= WIDTH,
            forall|i: int|
                0 <= i < BUFFER_LEN ==> #[trigger] pixels@[i] == (if gx_start <= column(i) - glyph_x
                    < gx_end && gy_start <= row(i) - glyph_y < gy {
                    mixed(
                        color.channel(i % 3),
                        before[i],
                        glyph.coverage(column(i) - glyph_x, row(i) - glyph_y),
                    )
                } else {
                    before[i]
                }),
        decreases gy_end - gy,
    {
        let py: usize = (glyph_y + gy as i64) as usize;
        let mut gx: usize = gx_start;
        while gx < gx_end
            invariant
                before.len() == BUFFER_LEN,
                pixels@.len() == BUFFER_LEN,
                glyph.wf(),
                size == glyph.bitmap@.len(),
                gx_start <= gx,
                gx <= gx_end || gx == gx_start,
                gy_start <= gy < gy_end,
                gy_end <= glyph.height,
                gx_end <= glyph.width,
                py == glyph_y + gy,
                py < HEIGHT,
                -0x2_0000_0000 < glyph_x < 0x2_0000_0000,
                gx_start < gx_end ==> glyph_x + gx_start >= 0 && glyph_x + gx_end <= WIDTH,
                forall|i: int|
                    0 <= i < BUFFER_LEN ==> #[trigger] pixels@[i] == (if gx_start <= column(i)
                        - glyph_x < gx_end && gy_start <= row(i) - glyph_y < gy || (gx_start
                        <= column(i) - glyph_x < gx && row(i) - glyph_y == gy) {
                        mixed(
                            color.channel(i % 3),
                            before[i],
                            glyph.coverage(column(i) - glyph_x, row(i) - glyph_y),
                        )
                    } else {
                        before[i]
                    }),
            decreases gx_end - gx,
        {
            proof {
                lemma_bitmap_index(gx as int, gy as int, glyph.width as int, glyph.height as int);
                assert(glyph.bitmap@.len() == glyph.width * glyph.height);
            }
            let coverage: u8 = glyph.bitmap[gy * glyph.width + gx];
            let px: usize = (glyph_x + gx as i64) as usize;
            blend_pixel(pixels, px, py, color, coverage);
            gx = gx + 1;
        }
        gy = gy + 1;
    }
    proof {
        let want = drawn(before, *glyph, pos, line_height, color);
        assert forall|i: int| 0 <= i < BUFFER_LEN implies #[trigger] pixels@[i] == want[i] by {
            lemma_place(i);
            lemma_mixed_range(color.channel(i % 3), before[i], 0);
        }
        assert(pixels@ =~= want);
    }
}

/// The pixel at column `x` and row `y`.
pub open spec fn pixel_at(pixels: Seq<u8>, x: int, y: int) -> Rgb {
    let i = (y * 1200 + x) * 3;
    Rgb { r: pixels[i], g: pixels[i + 1], b: pixels[i + 2] }
}

/// A mixture lies between its two colours, as near to each as the opacity says, rounded down.
pub proof fn law_mixtures_lie_between(over: u8, under: u8, alpha: u8)
    ensures
        255 * mixed(over, under, alpha) <= over * alpha + under * (255 - alpha) < 255 * mixed(
            over,
            under,
            alpha,
        ) + 255,
        mixed(over, under, 255) == over,
        mixed(over, under, 0) == under,
        mixed(over, over, alpha) == over,
{
    lemma_mixed_range(over, under, alpha);
    lemma_mixed_range(over, under, 255);
    lemma_mixed_range(over, under, 0);
    assert(over * alpha + over * (255 - alpha) == 255 * over) by (nonlinear_arith);
}

/// A page is 1200 pixels wide and 630 pixels high, and blank it is of one colour.
pub proof fn law_blank_pages_have_one_colour(x: int, y: int)
    requires
        0 <= x < 1200,
        0 <= y < 630,
    ensures
        blank_pixels().len() == 3 * 1200 * 630,
        pixel_at(blank_pixels(), x, y) == (Rgb { r: 0x0a, g: 0x0c, b: 0x10 }),
{
    lemma_at(x, y, 0);
    lemma_at(x, y, 1);
    lemma_at(x, y, 2);
}

/// A rectangle colours the pixels in it and leaves all others alone.
pub proof fn law_rectangles_colour_what_they_cover(
    pixels: Seq<u8>,
    rect: Rect,
    color: Rgb,
    x: int,
    y: int,
)
    requires
        pixels.len() == BUFFER_LEN,
        0 <= x < 1200,
        0 <= y < 630,
    ensures
        filled(pixels, rect, color).len() == pixels.len(),
        pixel_at(filled(pixels, rect, color), x, y) == (if rect.x <= x && x - rect.x < rect.w
            && rect.y <= y && y - rect.y < rect.h {
            color
        } else {
            pixel_at(pixels, x, y)
        }),
{
    lemma_at(x, y, 0);
    lemma_at(x, y, 1);
    lemma_at(x, y, 2);
}

/// A glyph is drawn with its left edge `xmin` right of the cursor and its lower edge `ymin` above
/// the baseline, which lies four pixels above the lower edge of the line. It colours a pixel where
/// it covers it wholly, leaves it alone where it does not cover it, and mixes the two between.
pub proof fn law_glyphs_colour_what_they_cover(
    pixels: Seq<u8>,
    glyph: CachedGlyph,
    pos: Point,
    line_height: usize,
    color: Rgb,
    x: int,
    y: int,
)
    requires
        pixels.len() == BUFFER_LEN,
        glyph.wf(),
        0 <= x < 1200,
        0 <= y < 630,
    ensures
        drawn(pixels, glyph, pos, line_height, color).len() == pixels.len(),
        ({
            let gx = x - (pos.x + glyph.xmin);
            let baseline = pos.y + line_height - 4;
            let gy = y - (baseline - glyph.ymin - glyph.height);
            let before = pixel_at(pixels, x, y);
            let after = pixel_at(drawn(pixels, glyph, pos, line_height, color), x, y);
            if 0 <= gx < glyph.width && 0 <= gy < glyph.height {
                let coverage = glyph.bitmap@[gy * glyph.width + gx];
                &&& after.r == mixed(color.r, before.r, coverage)
                &&& after.g == mixed(color.g, before.g, coverage)
                &&& after.b == mixed(color.b, before.b, coverage)
                &&& coverage == 255 ==> after == color
                &&& coverage == 0 ==> after == before
            } else {
                after == before
            }
        }),
{
    lemma_at(x, y, 0);
    lemma_at(x, y, 1);
    lemma_at(x, y, 2);
    let before = pixel_at(pixels, x, y);
    law_mixtures_lie_between(color.r, before.r, 0);
    law_mixtures_lie_between(color.g, before.g, 0);
    law_mixtures_lie_between(color.b, before.b, 0);
    law_mixtures_lie_between(color.r, before.r, 255);
    law_mixtures_lie_between(color.g, before.g, 255);
    law_mixtures_lie_between(color.b, before.b, 255);
}

} // verus!
