//! Drawing a preview.

use vstd::prelude::*;
use vstd::string::*;
use crate::canvas::{blank, fill_rect, CachedGlyph, Point, Rect, Rgb, HEIGHT, WIDTH};
use crate::glyphs::{measure_text_width, render_text, render_text_right_aligned, render_text_sized, FontSize, GlyphCache, TextSpec, LINE_HEIGHT, PADDING_X};
use crate::preview::{plan_preview, CodeRow, PreviewPlan, Run};
use crate::state::AppState;
use crate::styled::{MdLine, MdSpan, MUTED_B, MUTED_G, MUTED_R};

verus! {

/// The space left free above a listing.
pub const PADDING_Y: usize = 14;

/// The column at which line numbers end.
pub const NUMBER_END: usize = 52;

/// The column at which listed lines start.
pub const CONTENT_X: usize = 68;

/// The space left free at the sides of a markdown preview.
pub const MD_PADDING_X: usize = 40;

/// The space left free above and below a markdown preview.
pub const MD_PADDING_Y: usize = 32;

/// How far a block quote moves what it holds.
pub const QUOTE_INDENT: usize = 16;

/// The deepest nesting of block quotes that positions can be computed for.
pub const MAX_QUOTE_DEPTH: usize = 0x100_0000;

/// The deepest nesting of block quotes at which every line can be drawn.
pub const DRAWABLE_DEPTH: usize = 70;

/// Rules and the borders of quotes.
pub const BORDER_R: u8 = 0x27;

pub const BORDER_G: u8 = 0x2b;

pub const BORDER_B: u8 = 0x33;

/// The background of code blocks.
pub const PANEL2_R: u8 = 0x0f;

pub const PANEL2_G: u8 = 0x14;

pub const PANEL2_B: u8 = 0x1b;

/// The background of inline code.
pub const PANEL_R: u8 = 0x16;

pub const PANEL_G: u8 = 0x1b;

pub const PANEL_B: u8 = 0x22;

/// The colour of rules and borders.
pub open spec fn border() -> Rgb {
    Rgb { r: BORDER_R, g: BORDER_G, b: BORDER_B }
}

/// The background of code blocks.
pub open spec fn code_panel() -> Rgb {
    Rgb { r: PANEL2_R, g: PANEL2_G, b: PANEL2_B }
}

/// The background of inline code.
pub open spec fn inline_panel() -> Rgb {
    Rgb { r: PANEL_R, g: PANEL_G, b: PANEL_B }
}

/// How opaque line `k` of `count` lines is: where more would follow, the last three fade out.
pub open spec fn opacity(k: int, count: int, has_more: bool) -> u8 {
    if has_more && count - k == 3 {
        200
    } else if has_more && count - k == 2 {
        140
    } else if has_more && count - k < 2 {
        80
    } else {
        255
    }
}

fn line_opacity(k: usize, count: usize, has_more: bool) -> (r: u8)
    requires
        k < count,
    ensures
        r == opacity(k as int, count as int, has_more),
{
    let left: usize = count - k;
    if !has_more || left > 3 {
        255
    } else if left == 3 {
        200
    } else if left == 2 {
        140
    } else {
        80
    }
}

// Listings.

/// The picture after the runs of a listed line were set from column `x` on.
pub open spec fn runs_set(
    glyphs: Map<u64, CachedGlyph>,
    pixels: Seq<u8>,
    x: int,
    y: usize,
    runs: Seq<crate::preview::RunView>,
    alpha: u8,
) -> Seq<u8>
    decreases runs.len(),
{
    if runs.len() == 0 {
        pixels
    } else {
        let next = crate::glyphs::plain_set(
            glyphs,
            pixels,
            runs[0].text,
            Point { x: x as usize, y },
            runs[0].color.fade(alpha),
        );
        runs_set(glyphs, next.0, next.1, y, runs.drop_first(), alpha)
    }
}

/// The picture after row `k` of `count` rows was set: its number, unfaded, and its runs.
pub open spec fn row_set(
    glyphs: Map<u64, CachedGlyph>,
    pixels: Seq<u8>,
    row: crate::preview::RowView,
    k: int,
    count: int,
    has_more: bool,
) -> Seq<u8> {
    let y = (PADDING_Y + k * LINE_HEIGHT) as usize;
    let numbered = crate::glyphs::plain_set(
        glyphs,
        pixels,
        row.number,
        crate::glyphs::right_aligned(glyphs, row.number, Point { x: NUMBER_END, y }),
        crate::styled::muted(),
    ).0;
    runs_set(glyphs, numbered, CONTENT_X as int, y, row.runs, opacity(k, count, has_more))
}

/// The picture with the first `n` rows.
pub open spec fn rows_set(
    glyphs: Map<u64, CachedGlyph>,
    rows: Seq<crate::preview::RowView>,
    has_more: bool,
    n: nat,
) -> Seq<u8>
    decreases n,
{
    if n == 0 {
        crate::canvas::blank_pixels()
    } else {
        row_set(
            glyphs,
            rows_set(glyphs, rows, has_more, (n - 1) as nat),
            rows[n - 1],
            n - 1,
            rows.len() as int,
            has_more,
        )
    }
}

/// The picture of a listing; where more would follow, dots stand below it.
pub open spec fn code_picture(
    glyphs: Map<u64, CachedGlyph>,
    rows: Seq<crate::preview::RowView>,
    has_more: bool,
) -> Seq<u8> {
    let p = rows_set(glyphs, rows, has_more, rows.len());
    if has_more {
        crate::glyphs::plain_set(
            glyphs,
            p,
            "..."@,
            Point { x: CONTENT_X, y: (PADDING_Y + rows.len() * LINE_HEIGHT) as usize },
            crate::styled::muted(),
        ).0
    } else {
        p
    }
}

/// Whether the glyphs for a row are there.
pub open spec fn row_ready(glyphs: Map<u64, CachedGlyph>, row: crate::preview::RowView) -> bool {
    &&& crate::glyphs::ready(glyphs, row.number, FontSize::Base)
    &&& forall|j: int|
        0 <= j < row.runs.len() ==> crate::glyphs::ready(
            glyphs,
            (#[trigger] row.runs[j]).text,
            FontSize::Base,
        )
}

/// Sets the runs of a listed line.
pub fn render_highlighted_regions(
    pixels: &mut Vec<u8>,
    cache: &GlyphCache,
    runs: &Vec<Run>,
    start_x: usize,
    y_offset: usize,
    alpha_factor: u8,
)
    requires
        old(pixels)@.len() == crate::canvas::BUFFER_LEN,
        crate::glyphs::glyphs_wf(cache@),
        forall|j: int|
            0 <= j < runs@.len() ==> crate::glyphs::ready(
                cache@,
                (#[trigger] runs@[j]).text@,
                FontSize::Base,
            ),
        y_offset <= i32::MAX,
    ensures
        final(pixels)@ == runs_set(
            cache@,
            old(pixels)@,
            start_x as int,
            y_offset,
            crate::preview::run_views(runs@),
            alpha_factor,
        ),
        final(pixels)@.len() == crate::canvas::BUFFER_LEN,
{
    let ghost v = crate::preview::run_views(runs@);
    let ghost want = runs_set(cache@, pixels@, start_x as int, y_offset, v, alpha_factor);
    let mut cursor_x: usize = start_x;
    let mut i: usize = 0;
    assert(v.skip(0) =~= v);
    while i < runs.len()
        invariant
            v == crate::preview::run_views(runs@),
            v.len() == runs@.len(),
            pixels@.len() == crate::canvas::BUFFER_LEN,
            crate::glyphs::glyphs_wf(cache@),
            forall|j: int|
                0 <= j < runs@.len() ==> crate::glyphs::ready(
                    cache@,
                    (#[trigger] runs@[j]).text@,
                    FontSize::Base,
                ),
            y_offset <= i32::MAX,
            i <= runs@.len(),
            want == runs_set(
                cache@,
                pixels@,
                cursor_x as int,
                y_offset,
                v.skip(i as int),
                alpha_factor,
            ),
        decreases runs@.len() - i,
    {
        proof {
            assert(v.skip(i as int)[0] == runs@[i as int]@);
            assert(v.skip(i as int).drop_first() =~= v.skip(i + 1));
        }
        let run: &Run = &runs[i];
        cursor_x =
        render_text(
            pixels,
            cache,
            run.text.as_str(),
            Point { x: cursor_x, y: y_offset },
            run.color.faded(alpha_factor),
        );
        i = i + 1;
    }
}

/// Draws a listing.
fn draw_code(rows: &Vec<CodeRow>, has_more: bool, cache: &GlyphCache) -> (r: Vec<u8>)
    requires
        rows@.len() <= crate::preview::MAX_LINES,
        crate::glyphs::glyphs_wf(cache@),
        forall|k: int| 0 <= k < rows@.len() ==> row_ready(cache@, (#[trigger] rows@[k])@),
        crate::glyphs::ready(cache@, "..."@, FontSize::Base),
    ensures
        r@ == code_picture(cache@, crate::preview::row_views(rows@), has_more),
        r@.len() == crate::canvas::BUFFER_LEN,
{
    let ghost v = crate::preview::row_views(rows@);
    let mut pixels: Vec<u8> = blank();
    let count: usize = rows.len();
    let mut i: usize = 0;
    while i < count
        invariant
            v == crate::preview::row_views(rows@),
            v.len() == rows@.len(),
            count == rows@.len(),
            count <= crate::preview::MAX_LINES,
            i <= count,
            pixels@.len() == crate::canvas::BUFFER_LEN,
            crate::glyphs::glyphs_wf(cache@),
            forall|k: int| 0 <= k < rows@.len() ==> row_ready(cache@, (#[trigger] rows@[k])@),
            pixels@ == rows_set(cache@, v, has_more, i as nat),
        decreases count - i,
    {
        let y_offset: usize = PADDING_Y + i * LINE_HEIGHT;
        let row: &CodeRow = &rows[i];
        proof {
            assert(v[i as int] == row@);
            assert(row_ready(cache@, row@));
            assert forall|j: int| 0 <= j < row.runs@.len() implies crate::glyphs::ready(
                cache@,
                (#[trigger] row.runs@[j]).text@,
                FontSize::Base,
            ) by {
                assert(row@.runs[j] == row.runs@[j]@);
            }
        }
        render_text_right_aligned(
            &mut pixels,
            cache,
            row.number.as_str(),
            Point { x: NUMBER_END, y: y_offset },
            Rgb::new(MUTED_R, MUTED_G, MUTED_B),
        );
        render_highlighted_regions(
            &mut pixels,
            cache,
            &row.runs,
            CONTENT_X,
            y_offset,
            line_opacity(i, count, has_more),
        );
        i = i + 1;
    }
    if has_more {
        render_text(
            &mut pixels,
            cache,
            "...",
            Point { x: CONTENT_X, y: PADDING_Y + count * LINE_HEIGHT },
            Rgb::new(MUTED_R, MUTED_G, MUTED_B),
        );
    }
    pixels
}

// Markdown.

/// How many lines fit below row `y`, from the first one on.
pub open spec fn visible_lines(lines: Seq<crate::styled::LineView>, y: int) -> int
    decreases lines.len(),
{
    if lines.len() == 0 || y + lines[0].line_height > HEIGHT - MD_PADDING_Y {
        0
    } else {
        1 + visible_lines(lines.drop_first(), y + lines[0].line_height)
    }
}

/// The row at which line `n` starts.
pub open spec fn line_top(lines: Seq<crate::styled::LineView>, n: nat) -> int
    decreases n,
{
    if n == 0 {
        MD_PADDING_Y as int
    } else {
        line_top(lines, (n - 1) as nat) + lines[n - 1].line_height
    }
}

/// The column at which a line starts that is in `depth` block quotes.
pub open spec fn quote_x(depth: int) -> int {
    MD_PADDING_X + depth * QUOTE_INDENT
}

/// Whether a line has a background, a rule or an underline as wide as the page.
pub open spec fn spans_page(line: crate::styled::LineView) -> bool {
    line.is_code_block || line.is_rule || line.has_underline
}

/// Whether a line can be drawn: what is as wide as the page must start left of the right margin,
/// or right of the page, where none of it is seen.
pub open spec fn line_drawable(line: crate::styled::LineView) -> bool {
    &&& line.blockquote_depth <= MAX_QUOTE_DEPTH
    &&& spans_page(line) ==> quote_x(line.blockquote_depth as int) + MD_PADDING_X <= WIDTH
        || quote_x(line.blockquote_depth as int) >= WIDTH
}

/// Whether all the lines that fit can be drawn.
pub open spec fn drawable(lines: Seq<crate::styled::LineView>) -> bool {
    forall|i: int|
        0 <= i < visible_lines(lines, MD_PADDING_Y as int) ==> line_drawable(#[trigger] lines[i])
}

/// The picture with the borders of `n` block quotes.
pub open spec fn borders_set(pixels: Seq<u8>, y: usize, h: usize, n: nat, alpha: u8) -> Seq<u8>
    decreases n,
{
    if n == 0 {
        pixels
    } else {
        crate::canvas::filled(
            borders_set(pixels, y, h, (n - 1) as nat, alpha),
            Rect { x: quote_x(n - 1) as usize, y, w: 3, h },
            border().fade(alpha),
        )
    }
}

/// The distance from column `x` to the right margin, none where it is right of that.
pub open spec fn wide(x: int) -> int {
    if x + MD_PADDING_X <= WIDTH {
        WIDTH - x - MD_PADDING_X
    } else {
        0
    }
}

/// A rectangle from column `x` to the right margin.
pub open spec fn wide_rect(x: int, y: int, h: int) -> Rect {
    Rect { x: x as usize, y: y as usize, w: wide(x) as usize, h: h as usize }
}

/// How a span is set.
pub open spec fn span_text(span: crate::styled::SpanView, x: int, y: usize, h: usize, alpha: u8) -> TextSpec {
    TextSpec {
        pos: Point { x: x as usize, y },
        color: span.color.fade(alpha),
        font_size: span.font_size,
        line_height: h,
        max_x: (WIDTH - MD_PADDING_X) as usize,
    }
}

/// The picture with the background of a span, where it has one.
pub open spec fn span_panel(
    glyphs: Map<u64, CachedGlyph>,
    pixels: Seq<u8>,
    span: crate::styled::SpanView,
    x: int,
    y: usize,
    h: usize,
    alpha: u8,
) -> Seq<u8> {
    if span.has_bg {
        crate::canvas::filled(
            pixels,
            Rect {
                x: (if x > 3 {
                    x - 3
                } else {
                    0
                }) as usize,
                y: (y + 2) as usize,
                w: crate::glyphs::moved(
                    crate::glyphs::text_width(glyphs, span.text, span.font_size),
                    6,
                ) as usize,
                h: (if h > 4 {
                    h - 4
                } else {
                    0
                }) as usize,
            },
            inline_panel().fade(alpha),
        )
    } else {
        pixels
    }
}

/// The picture after spans were set from column `x` on.
pub open spec fn spans_set(
    glyphs: Map<u64, CachedGlyph>,
    pixels: Seq<u8>,
    x: int,
    y: usize,
    h: usize,
    spans: Seq<crate::styled::SpanView>,
    alpha: u8,
) -> Seq<u8>
    decreases spans.len(),
{
    if spans.len() == 0 {
        pixels
    } else {
        let next = crate::glyphs::text_set(
            glyphs,
            span_panel(glyphs, pixels, spans[0], x, y, h, alpha),
            x,
            spans[0].text,
            span_text(spans[0], x, y, h, alpha),
        );
        spans_set(glyphs, next.0, next.1, y, h, spans.drop_first(), alpha)
    }
}

/// The picture after a line was drawn: the borders of its quotes, its background, its rule or its
/// text, and its underline.
pub open spec fn line_set(
    glyphs: Map<u64, CachedGlyph>,
    pixels: Seq<u8>,
    line: crate::styled::LineView,
    y: usize,
    alpha: u8,
) -> Seq<u8> {
    let h = line.line_height;
    let x = quote_x(line.blockquote_depth as int);
    let quoted = borders_set(pixels, y, h, line.blockquote_depth as nat, alpha);
    let backed = if line.is_code_block {
        crate::canvas::filled(quoted, wide_rect(x, y as int, h as int), code_panel().fade(alpha))
    } else {
        quoted
    };
    let written = if line.is_rule {
        crate::canvas::filled(backed, wide_rect(x, y + h / 2, 3), border().fade(alpha))
    } else {
        spans_set(
            glyphs,
            backed,
            if line.is_code_block {
                x + 16
            } else {
                x
            },
            y,
            h,
            line.spans,
            alpha,
        )
    };
    if line.has_underline {
        crate::canvas::filled(written, wide_rect(x, y + h - 2, 1), border().fade(alpha))
    } else {
        written
    }
}

/// The picture with the first `n` of the `count` lines that fit.
pub open spec fn lines_set(
    glyphs: Map<u64, CachedGlyph>,
    lines: Seq<crate::styled::LineView>,
    count: int,
    n: nat,
) -> Seq<u8>
    decreases n,
{
    if n == 0 {
        crate::canvas::blank_pixels()
    } else {
        line_set(
            glyphs,
            lines_set(glyphs, lines, count, (n - 1) as nat),
            lines[n - 1],
            line_top(lines, (n - 1) as nat) as usize,
            opacity(n - 1, count, count < lines.len()),
        )
    }
}

/// The picture of styled markdown; where not all lines fit, dots stand below those that do.
pub open spec fn markdown_picture(
    glyphs: Map<u64, CachedGlyph>,
    lines: Seq<crate::styled::LineView>,
) -> Seq<u8> {
    let count = visible_lines(lines, MD_PADDING_Y as int);
    let p = lines_set(glyphs, lines, count, count as nat);
    if count < lines.len() {
        crate::glyphs::plain_set(
            glyphs,
            p,
            "..."@,
            Point { x: MD_PADDING_X, y: line_top(lines, count as nat) as usize },
            crate::styled::muted(),
        ).0
    } else {
        p
    }
}

/// Whether the glyphs for a line are there.
pub open spec fn line_ready(glyphs: Map<u64, CachedGlyph>, line: crate::styled::LineView) -> bool {
    forall|j: int|
        0 <= j < line.spans.len() ==> crate::glyphs::ready(
            glyphs,
            (#[trigger] line.spans[j]).text,
            line.spans[j].font_size,
        )
}

/// Counts the lines that fit.
fn count_visible(lines: &Vec<MdLine>) -> (r: usize)
    requires
        crate::styled::lines_fit(crate::styled::line_views(lines@)),
    ensures
        r == visible_lines(crate::styled::line_views(lines@), MD_PADDING_Y as int),
        r <= lines@.len(),
        forall|n: int|
            0 <= n <= r ==> MD_PADDING_Y <= #[trigger] line_top(
                crate::styled::line_views(lines@),
                n as nat,
            ) <= HEIGHT - MD_PADDING_Y,
{
    let ghost v = crate::styled::line_views(lines@);
    let mut y: usize = MD_PADDING_Y;
    let mut i: usize = 0;
    assert(v.skip(0) =~= v);
    loop
        invariant
            v == crate::styled::line_views(lines@),
            v.len() == lines@.len(),
            crate::styled::lines_fit(v),
            i <= lines@.len(),
            MD_PADDING_Y <= y <= HEIGHT - MD_PADDING_Y,
            y == line_top(v, i as nat),
            visible_lines(v, MD_PADDING_Y as int) == i + visible_lines(v.skip(i as int), y as int),
            forall|n: int|
                0 <= n <= i ==> MD_PADDING_Y <= #[trigger] line_top(v, n as nat) <= HEIGHT
                    - MD_PADDING_Y,
        decreases lines@.len() - i,
    {
        if i >= lines.len() {
            return i;
        }
        let height: usize = lines[i].line_height;
        proof {
            assert(v[i as int] == lines@[i as int]@);
            assert(crate::styled::line_fits(v[i as int]));
            assert(v.skip(i as int)[0] == v[i as int]);
            assert(v.skip(i as int).drop_first() =~= v.skip(i + 1));
        }
        if y + height > HEIGHT - MD_PADDING_Y {
            return i;
        }
        y = y + height;
        i = i + 1;
    }
}

/// Whether the lines that fit can be drawn.
fn can_draw(lines: &Vec<MdLine>) -> (r: bool)
    requires
        crate::styled::lines_fit(crate::styled::line_views(lines@)),
    ensures
        r == drawable(crate::styled::line_views(lines@)),
{
    let ghost v = crate::styled::line_views(lines@);
    let count: usize = count_visible(lines);
    let mut i: usize = 0;
    while i < count
        invariant
            v == crate::styled::line_views(lines@),
            v.len() == lines@.len(),
            count == visible_lines(v, MD_PADDING_Y as int),
            count <= lines@.len(),
            i <= count,
            forall|k: int| 0 <= k < i ==> line_drawable(#[trigger] v[k]),
        decreases count - i,
    {
        let line: &MdLine = &lines[i];
        assert(v[i as int] == line@);
        if line.blockquote_depth > MAX_QUOTE_DEPTH {
            assert(!line_drawable(v[i as int]));
            return false;
        }
        let x: usize = MD_PADDING_X + line.blockquote_depth * QUOTE_INDENT;
        if (line.is_code_block || line.is_rule || line.has_underline) && x + MD_PADDING_X > WIDTH
            && x < WIDTH {
            assert(!line_drawable(v[i as int]));
            return false;
        }
        i = i + 1;
    }
    true
}

/// Draws the spans of a line.
fn draw_spans(
    pixels: &mut Vec<u8>,
    cache: &GlyphCache,
    spans: &Vec<MdSpan>,
    start_x: usize,
    y: usize,
    line_height: usize,
    alpha: u8,
)
    requires
        old(pixels)@.len() == crate::canvas::BUFFER_LEN,
        crate::glyphs::glyphs_wf(cache@),
        forall|j: int|
            0 <= j < spans@.len() ==> crate::glyphs::ready(
                cache@,
                (#[trigger] spans@[j]).text@,
                spans@[j].font_size,
            ),
        y <= HEIGHT,
        line_height <= HEIGHT,
    ensures
        final(pixels)@ == spans_set(
            cache@,
            old(pixels)@,
            start_x as int,
            y,
            line_height,
            crate::styled::span_views(spans@),
            alpha,
        ),
        final(pixels)@.len() == crate::canvas::BUFFER_LEN,
{
    let ghost v = crate::styled::span_views(spans@);
    let ghost want = spans_set(cache@, pixels@, start_x as int, y, line_height, v, alpha);
    let mut cursor_x: usize = start_x;
    let mut i: usize = 0;
    assert(v.skip(0) =~= v);
    while i < spans.len()
        invariant
            v == crate::styled::span_views(spans@),
            v.len() == spans@.len(),
            pixels@.len() == crate::canvas::BUFFER_LEN,
            crate::glyphs::glyphs_wf(cache@),
            forall|j: int|
                0 <= j < spans@.len() ==> crate::glyphs::ready(
                    cache@,
                    (#[trigger] spans@[j]).text@,
                    spans@[j].font_size,
                ),
            y <= HEIGHT,
            line_height <= HEIGHT,
            i <= spans@.len(),
            want == spans_set(
                cache@,
                pixels@,
                cursor_x as int,
                y,
                line_height,
                v.skip(i as int),
                alpha,
            ),
        decreases spans@.len() - i,
    {
        let span: &MdSpan = &spans[i];
        proof {
            assert(v.skip(i as int)[0] == span@);
            assert(v.skip(i as int).drop_first() =~= v.skip(i + 1));
        }
        let ghost before = pixels@;
        if span.has_bg {
            let width: usize = measure_text_width(cache, span.text.as_str(), span.font_size);
            fill_rect(
                pixels,
                Rect {
                    x: cursor_x.saturating_sub(3),
                    y: y + 2,
                    w: width.saturating_add(6),
                    h: line_height.saturating_sub(4),
                },
                Rgb::new(PANEL_R, PANEL_G, PANEL_B).faded(alpha),
            );
        }
        assert(pixels@ == span_panel(
            cache@,
            before,
            span@,
            cursor_x as int,
            y,
            line_height,
            alpha,
        ));
        cursor_x =
        render_text_sized(
            pixels,
            cache,
            span.text.as_str(),
            TextSpec {
                pos: Point { x: cursor_x, y },
                color: span.color.faded(alpha),
                font_size: span.font_size,
                line_height,
                max_x: WIDTH - MD_PADDING_X,
            },
        );
        i = i + 1;
    }
}

/// Draws a line of markdown.
fn draw_line(pixels: &mut Vec<u8>, cache: &GlyphCache, line: &MdLine, y: usize, alpha: u8)
    requires
        old(pixels)@.len() == crate::canvas::BUFFER_LEN,
        crate::glyphs::glyphs_wf(cache@),
        crate::styled::line_fits(line@),
        line_drawable(line@),
        line_ready(cache@, line@),
        y <= HEIGHT,
    ensures
        final(pixels)@ == line_set(cache@, old(pixels)@, line@, y, alpha),
        final(pixels)@.len() == crate::canvas::BUFFER_LEN,
{
    let height: usize = line.line_height;
    let content_x: usize = MD_PADDING_X + line.blockquote_depth * QUOTE_INDENT;
    let width: usize = if content_x + MD_PADDING_X <= WIDTH {
        WIDTH - content_x - MD_PADDING_X
    } else {
        0
    };
    let ghost before = pixels@;
    let mut depth: usize = 0;
    while depth < line.blockquote_depth
        invariant
            depth <= line.blockquote_depth,
            line.blockquote_depth <= MAX_QUOTE_DEPTH,
            pixels@.len() == crate::canvas::BUFFER_LEN,
            pixels@ == borders_set(before, y, height, depth as nat, alpha),
        decreases line.blockquote_depth - depth,
    {
        fill_rect(
            pixels,
            Rect { x: MD_PADDING_X + depth * QUOTE_INDENT, y, w: 3, h: height },
            Rgb::new(BORDER_R, BORDER_G, BORDER_B).faded(alpha),
        );
        depth = depth + 1;
    }
    if line.is_code_block {
        fill_rect(
            pixels,
            Rect { x: content_x, y, w: width, h: height },
            Rgb::new(PANEL2_R, PANEL2_G, PANEL2_B).faded(alpha),
        );
    }
    if line.is_rule {
        fill_rect(
            pixels,
            Rect { x: content_x, y: y + height / 2, w: width, h: 3 },
            Rgb::new(BORDER_R, BORDER_G, BORDER_B).faded(alpha),
        );
    } else {
        let text_x: usize = if line.is_code_block {
            content_x + 16
        } else {
            content_x
        };
        proof {
            assert forall|j: int| 0 <= j < line.spans@.len() implies crate::glyphs::ready(
                cache@,
                (#[trigger] line.spans@[j]).text@,
                line.spans@[j].font_size,
            ) by {
                assert(line@.spans[j] == line.spans@[j]@);
            }
        }
        draw_spans(pixels, cache, &line.spans, text_x, y, height, alpha);
    }
    if line.has_underline {
        fill_rect(
            pixels,
            Rect { x: content_x, y: y + height - 2, w: width, h: 1 },
            Rgb::new(BORDER_R, BORDER_G, BORDER_B).faded(alpha),
        );
    }
}

/// Draws styled markdown.
pub fn generate_markdown_preview(lines: &Vec<MdLine>, cache: &GlyphCache) -> (r: Vec<u8>)
    requires
        crate::glyphs::glyphs_wf(cache@),
        crate::styled::lines_fit(crate::styled::line_views(lines@)),
        drawable(crate::styled::line_views(lines@)),
        forall|k: int| 0 <= k < lines@.len() ==> line_ready(cache@, (#[trigger] lines@[k])@),
        crate::glyphs::ready(cache@, "..."@, FontSize::Base),
    ensures
        r@ == markdown_picture(cache@, crate::styled::line_views(lines@)),
        r@.len() == crate::canvas::BUFFER_LEN,
{
    let ghost v = crate::styled::line_views(lines@);
    let count: usize = count_visible(lines);
    let has_more: bool = count < lines.len();
    let mut pixels: Vec<u8> = blank();
    let mut y: usize = MD_PADDING_Y;
    let mut i: usize = 0;
    while i < count
        invariant
            v == crate::styled::line_views(lines@),
            v.len() == lines@.len(),
            count == visible_lines(v, MD_PADDING_Y as int),
            count <= lines@.len(),
            has_more == (count < v.len()),
            crate::glyphs::glyphs_wf(cache@),
            crate::styled::lines_fit(v),
            drawable(v),
            forall|k: int| 0 <= k < lines@.len() ==> line_ready(cache@, (#[trigger] lines@[k])@),
            forall|n: int|
                0 <= n <= count ==> MD_PADDING_Y <= #[trigger] line_top(v, n as nat) <= HEIGHT
                    - MD_PADDING_Y,
            i <= count,
            y == line_top(v, i as nat),
            y <= HEIGHT,
            pixels@.len() == crate::canvas::BUFFER_LEN,
            pixels@ == lines_set(cache@, v, count as int, i as nat),
        decreases count - i,
    {
        let line: &MdLine = &lines[i];
        proof {
            assert(v[i as int] == line@);
            assert(line_drawable(v[i as int]));
            assert(crate::styled::line_fits(v[i as int]));
            assert(line_top(v, (i + 1) as nat) <= HEIGHT - MD_PADDING_Y);
        }
        draw_line(&mut pixels, cache, line, y, line_opacity(i, count, has_more));
        y = y + line.line_height;
        i = i + 1;
    }
    if has_more {
        render_text(
            &mut pixels,
            cache,
            "...",
            Point { x: MD_PADDING_X, y },
            Rgb::new(MUTED_R, MUTED_G, MUTED_B),
        );
    }
    pixels
}

// Glyphs.

/// The texts of a listed row, with the sizes that they are set in.
pub open spec fn row_texts(row: crate::preview::RowView) -> Seq<(Seq<char>, FontSize)> {
    seq![(row.number, FontSize::Base)] + row.runs.map_values(
        |r: crate::preview::RunView| (r.text, FontSize::Base),
    )
}

/// The texts of some rows.
pub open spec fn rows_texts(rows: Seq<crate::preview::RowView>) -> Seq<(Seq<char>, FontSize)>
    decreases rows.len(),
{
    if rows.len() == 0 {
        seq![]
    } else {
        rows_texts(rows.drop_last()) + row_texts(rows.last())
    }
}

/// The texts of a styled line, with the sizes that they are set in.
pub open spec fn line_texts(line: crate::styled::LineView) -> Seq<(Seq<char>, FontSize)> {
    line.spans.map_values(|s: crate::styled::SpanView| (s.text, s.font_size))
}

/// The texts of some styled lines.
pub open spec fn lines_texts(lines: Seq<crate::styled::LineView>) -> Seq<(Seq<char>, FontSize)>
    decreases lines.len(),
{
    if lines.len() == 0 {
        seq![]
    } else {
        lines_texts(lines.drop_last()) + line_texts(lines.last())
    }
}

/// The texts that a preview may set, with their sizes.
pub open spec fn plan_texts(plan: crate::preview::PlanView) -> Seq<(Seq<char>, FontSize)> {
    match plan {
        crate::preview::PlanView::Blank => seq![],
        crate::preview::PlanView::Code { rows, .. } => rows_texts(rows).push(
            ("..."@, FontSize::Base),
        ),
        crate::preview::PlanView::Markdown { lines } => lines_texts(lines).push(
            ("..."@, FontSize::Base),
        ),
    }
}

/// Whether a preview may need a glyph.
pub open spec fn plan_needs(plan: crate::preview::PlanView, ch: char, size: FontSize) -> bool {
    exists|i: int|
        0 <= i < plan_texts(plan).len() && (#[trigger] plan_texts(plan)[i]).1 == size
            && crate::glyphs::needs_glyph(plan_texts(plan)[i].0, ch)
}

/// Whether all glyphs that a preview may need are there.
pub open spec fn plan_ready(
    glyphs: Map<u64, CachedGlyph>,
    plan: crate::preview::PlanView,
) -> bool {
    forall|ch: char, size: FontSize| #[trigger]
        plan_needs(plan, ch, size) ==> crate::glyphs::has_glyph(glyphs, ch, size)
}

/// The characters of some texts.
pub open spec fn sized_views(v: Seq<(&str, FontSize)>) -> Seq<(Seq<char>, FontSize)> {
    v.map_values(|t: (&str, FontSize)| (t.0@, t.1))
}

proof fn lemma_sized_push(v: Seq<(&str, FontSize)>, t: (&str, FontSize))
    ensures
        sized_views(v.push(t)) == sized_views(v).push((t.0@, t.1)),
{
    assert(sized_views(v.push(t)) =~= sized_views(v).push((t.0@, t.1)));
}

fn row_texts_of<'a>(rows: &'a Vec<CodeRow>) -> (r: Vec<(&'a str, FontSize)>)
    ensures
        sized_views(r@) == rows_texts(crate::preview::row_views(rows@)),
{
    let ghost v = crate::preview::row_views(rows@);
    let mut out: Vec<(&'a str, FontSize)> = Vec::new();
    let mut i: usize = 0;
    assert(v.take(0) =~= seq![]);
    assert(sized_views(out@) =~= seq![]);
    while i < rows.len()
        invariant
            v == crate::preview::row_views(rows@),
            v.len() == rows@.len(),
            i <= rows@.len(),
            sized_views(out@) == rows_texts(v.take(i as int)),
        decreases rows@.len() - i,
    {
        let row: &'a CodeRow = &rows[i];
        let ghost before = sized_views(out@);
        let ghost more = row_texts(row@);
        proof {
            assert(v[i as int] == row@);
            assert(v.take(i + 1).drop_last() =~= v.take(i as int));
        }
        out.push((row.number.as_str(), FontSize::Base));
        assert(more[0] == (row.number@, FontSize::Base));
        let mut j: usize = 0;
        assert(sized_views(out@) =~= before + more.take(1));
        while j < row.runs.len()
            invariant
                more == row_texts(row@),
                j <= row.runs@.len(),
                more.len() == row.runs@.len() + 1,
                sized_views(out@) == before + more.take(j + 1),
            decreases row.runs@.len() - j,
        {
            let ghost so_far = out@;
            out.push((row.runs[j].text.as_str(), FontSize::Base));
            proof {
                assert(row@.runs[j as int] == row.runs@[j as int]@);
                assert(more[j + 1] == (row.runs@[j as int].text@, FontSize::Base));
                assert(sized_views(out@) =~= sized_views(so_far).push(more[j + 1]));
                assert((before + more.take(j + 1)).push(more[j + 1]) =~= before + more.take(j + 2));
            }
            j = j + 1;
        }
        assert(more.take(j + 1) =~= more);
        i = i + 1;
    }
    assert(v.take(i as int) =~= v);
    out
}

fn line_texts_of<'a>(lines: &'a Vec<MdLine>) -> (r: Vec<(&'a str, FontSize)>)
    ensures
        sized_views(r@) == lines_texts(crate::styled::line_views(lines@)),
{
    let ghost v = crate::styled::line_views(lines@);
    let mut out: Vec<(&'a str, FontSize)> = Vec::new();
    let mut i: usize = 0;
    assert(v.take(0) =~= seq![]);
    assert(sized_views(out@) =~= seq![]);
    while i < lines.len()
        invariant
            v == crate::styled::line_views(lines@),
            v.len() == lines@.len(),
            i <= lines@.len(),
            sized_views(out@) == lines_texts(v.take(i as int)),
        decreases lines@.len() - i,
    {
        let line: &'a MdLine = &lines[i];
        let ghost before = sized_views(out@);
        let ghost more = line_texts(line@);
        proof {
            assert(v[i as int] == line@);
            assert(v.take(i + 1).drop_last() =~= v.take(i as int));
        }
        let mut j: usize = 0;
        assert(sized_views(out@) =~= before + more.take(0));
        while j < line.spans.len()
            invariant
                more == line_texts(line@),
                j <= line.spans@.len(),
                more.len() == line.spans@.len(),
                sized_views(out@) == before + more.take(j as int),
            decreases line.spans@.len() - j,
        {
            let ghost so_far = out@;
            out.push((line.spans[j].text.as_str(), line.spans[j].font_size));
            proof {
                assert(line@.spans[j as int] == line.spans@[j as int]@);
                assert(more[j as int] == (
                    line.spans@[j as int].text@,
                    line.spans@[j as int].font_size,
                ));
                assert(sized_views(out@) =~= sized_views(so_far).push(more[j as int]));
                assert((before + more.take(j as int)).push(more[j as int]) =~= before + more.take(
                    j + 1,
                ));
            }
            j = j + 1;
        }
        assert(more.take(j as int) =~= more);
        i = i + 1;
    }
    assert(v.take(i as int) =~= v);
    out
}

/// The texts that a preview may set, with their sizes.
fn texts_of<'a>(plan: &'a PreviewPlan) -> (r: Vec<(&'a str, FontSize)>)
    ensures
        sized_views(r@) == plan_texts(plan@),
{
    match plan {
        PreviewPlan::Blank => {
            let out: Vec<(&'a str, FontSize)> = Vec::new();
            assert(sized_views(out@) =~= seq![]);
            out
        },
        PreviewPlan::Code { rows, .. } => {
            let mut out: Vec<(&'a str, FontSize)> = row_texts_of(rows);
            proof {
                lemma_sized_push(out@, ("...", FontSize::Base));
            }
            out.push(("...", FontSize::Base));
            out
        },
        PreviewPlan::Markdown { lines } => {
            let mut out: Vec<(&'a str, FontSize)> = line_texts_of(lines);
            proof {
                lemma_sized_push(out@, ("...", FontSize::Base));
            }
            out.push(("...", FontSize::Base));
            out
        },
    }
}

/// Whether some characters are those whose glyphs a preview may need and that are not cached.
pub open spec fn are_missing(
    glyphs: Map<u64, CachedGlyph>,
    plan: crate::preview::PlanView,
    missing: Seq<(char, FontSize)>,
) -> bool {
    forall|ch: char, size: FontSize| #[trigger]
        missing.contains((ch, size)) <==> plan_needs(plan, ch, size) && !crate::glyphs::has_glyph(
            glyphs,
            ch,
            size,
        )
}

/// Lists the glyphs that a preview may need and that are not cached yet.
pub fn missing_glyphs(plan: &PreviewPlan, cache: &GlyphCache) -> (r: Vec<(char, FontSize)>)
    ensures
        are_missing(cache@, plan@, r@),
{
    let texts: Vec<(&str, FontSize)> = texts_of(plan);
    let ghost v = plan_texts(plan@);
    let mut out: Vec<(char, FontSize)> = Vec::new();
    let mut i: usize = 0;
    assert(texts@.len() == v.len());
    while i < texts.len()
        invariant
            v == plan_texts(plan@),
            v == sized_views(texts@),
            v.len() == texts@.len(),
            i <= texts@.len(),
            forall|ch: char, size: FontSize| #[trigger]
                out@.contains((ch, size)) <==> !crate::glyphs::has_glyph(cache@, ch, size)
                    && exists|k: int|
                    0 <= k < i && (#[trigger] v[k]).1 == size && crate::glyphs::needs_glyph(
                        v[k].0,
                        ch,
                    ),
        decreases texts@.len() - i,
    {
        let (text, size): (&str, FontSize) = texts[i];
        let list: Vec<char> = cache.missing(text, size);
        let ghost before = out@;
        proof {
            assert(v[i as int] == (text@, size));
            assert(list@.take(0) =~= seq![]);
        }
        let mut j: usize = 0;
        while j < list.len()
            invariant
                j <= list@.len(),
                out@.len() == before.len() + j,
                forall|k: int| 0 <= k < before.len() ==> out@[k] == #[trigger] before[k],
                forall|k: int| 0 <= k < j ==> out@[before.len() + k] == (#[trigger] list@[k], size),
            decreases list@.len() - j,
        {
            out.push((list[j], size));
            j = j + 1;
        }
        proof {
            assert forall|ch: char, s: FontSize| #[trigger]
                out@.contains((ch, s)) <==> !crate::glyphs::has_glyph(cache@, ch, s) && exists|
                k: int,
            |
                0 <= k < i + 1 && (#[trigger] v[k]).1 == s && crate::glyphs::needs_glyph(v[k].0, ch) by {
                if out@.contains((ch, s)) {
                    let n = choose|n: int| 0 <= n < out@.len() && out@[n] == (ch, s);
                    if n < before.len() {
                        assert(before[n] == (ch, s));
                        assert(before.contains((ch, s)));
                    } else {
                        let k = n - before.len();
                        assert(list@[k] == ch);
                        assert(list@.contains(ch));
                        assert(v[i as int].1 == s);
                    }
                }
                if !crate::glyphs::has_glyph(cache@, ch, s) && exists|k: int|
                    0 <= k < i + 1 && (#[trigger] v[k]).1 == s && crate::glyphs::needs_glyph(
                        v[k].0,
                        ch,
                    ) {
                    let k = choose|k: int|
                        0 <= k < i + 1 && (#[trigger] v[k]).1 == s && crate::glyphs::needs_glyph(
                            v[k].0,
                            ch,
                        );
                    if k < i {
                        assert(before.contains((ch, s)));
                        let n = choose|n: int| 0 <= n < before.len() && before[n] == (ch, s);
                        assert(out@[n] == before[n]);
                    } else {
                        assert(list@.contains(ch));
                        let n = choose|n: int| 0 <= n < list@.len() && list@[n] == ch;
                        assert(out@[before.len() + n] == (list@[n], s));
                    }
                }
            }
        }
        i = i + 1;
    }
    out
}

proof fn lemma_row_texts(rows: Seq<crate::preview::RowView>, k: int, j: int)
    requires
        0 <= k < rows.len(),
        0 <= j < row_texts(rows[k]).len(),
    ensures
        rows_texts(rows).contains(row_texts(rows[k])[j]),
    decreases rows.len(),
{
    let head = rows_texts(rows.drop_last());
    let last = row_texts(rows.last());
    if k < rows.len() - 1 {
        lemma_row_texts(rows.drop_last(), k, j);
        let n = choose|n: int| 0 <= n < head.len() && head[n] == row_texts(rows[k])[j];
        assert((head + last)[n] == head[n]);
    } else {
        assert((head + last)[head.len() + j] == last[j]);
    }
}

proof fn lemma_line_texts(lines: Seq<crate::styled::LineView>, k: int, j: int)
    requires
        0 <= k < lines.len(),
        0 <= j < line_texts(lines[k]).len(),
    ensures
        lines_texts(lines).contains(line_texts(lines[k])[j]),
    decreases lines.len(),
{
    let head = lines_texts(lines.drop_last());
    let last = line_texts(lines.last());
    if k < lines.len() - 1 {
        lemma_line_texts(lines.drop_last(), k, j);
        let n = choose|n: int| 0 <= n < head.len() && head[n] == line_texts(lines[k])[j];
        assert((head + last)[n] == head[n]);
    } else {
        assert((head + last)[head.len() + j] == last[j]);
    }
}

proof fn lemma_text_ready(
    glyphs: Map<u64, CachedGlyph>,
    plan: crate::preview::PlanView,
    text: Seq<char>,
    size: FontSize,
)
    requires
        plan_ready(glyphs, plan),
        plan_texts(plan).contains((text, size)),
    ensures
        crate::glyphs::ready(glyphs, text, size),
{
    let i = choose|i: int|
        0 <= i < plan_texts(plan).len() && plan_texts(plan)[i] == (text, size);
    assert forall|ch: char| #[trigger] crate::glyphs::needs_glyph(
        text,
        ch,
    ) implies crate::glyphs::has_glyph(glyphs, ch, size) by {
        assert(plan_texts(plan)[i].1 == size);
        assert(plan_needs(plan, ch, size));
    }
}

proof fn lemma_dots_ready(glyphs: Map<u64, CachedGlyph>, plan: crate::preview::PlanView)
    requires
        plan_ready(glyphs, plan),
        plan !is Blank,
    ensures
        crate::glyphs::ready(glyphs, "..."@, FontSize::Base),
{
    let texts = plan_texts(plan);
    assert(texts[texts.len() - 1] == ("..."@, FontSize::Base));
    assert(texts.contains(("..."@, FontSize::Base)));
    lemma_text_ready(glyphs, plan, "..."@, FontSize::Base);
}

proof fn lemma_rows_ready(
    glyphs: Map<u64, CachedGlyph>,
    plan: crate::preview::PlanView,
    rows: Seq<crate::preview::RowView>,
    k: int,
)
    requires
        plan_ready(glyphs, plan),
        plan matches crate::preview::PlanView::Code { rows: r, .. } && r == rows,
        0 <= k < rows.len(),
    ensures
        row_ready(glyphs, rows[k]),
{
    let row = rows[k];
    let texts = rows_texts(rows);
    let dots = ("..."@, FontSize::Base);
    assert forall|j: int| 0 <= j < row_texts(row).len() implies crate::glyphs::ready(
        glyphs,
        (#[trigger] row_texts(row)[j]).0,
        FontSize::Base,
    ) by {
        lemma_row_texts(rows, k, j);
        let n = choose|n: int| 0 <= n < texts.len() && texts[n] == row_texts(row)[j];
        assert(texts.push(dots)[n] == texts[n]);
        assert(plan_texts(plan).contains(row_texts(row)[j]));
        assert(row_texts(row)[j].1 == FontSize::Base);
        lemma_text_ready(glyphs, plan, row_texts(row)[j].0, FontSize::Base);
    }
    assert(row_texts(row)[0].0 == row.number);
    assert forall|j: int| 0 <= j < row.runs.len() implies crate::glyphs::ready(
        glyphs,
        (#[trigger] row.runs[j]).text,
        FontSize::Base,
    ) by {
        assert(row_texts(row)[j + 1].0 == row.runs[j].text);
    }
}

proof fn lemma_lines_ready(
    glyphs: Map<u64, CachedGlyph>,
    plan: crate::preview::PlanView,
    lines: Seq<crate::styled::LineView>,
    k: int,
)
    requires
        plan_ready(glyphs, plan),
        plan matches crate::preview::PlanView::Markdown { lines: l } && l == lines,
        0 <= k < lines.len(),
    ensures
        line_ready(glyphs, lines[k]),
{
    let line = lines[k];
    let texts = lines_texts(lines);
    let dots = ("..."@, FontSize::Base);
    assert forall|j: int| 0 <= j < line.spans.len() implies crate::glyphs::ready(
        glyphs,
        (#[trigger] line.spans[j]).text,
        line.spans[j].font_size,
    ) by {
        lemma_line_texts(lines, k, j);
        let t = line_texts(line)[j];
        assert(t == (line.spans[j].text, line.spans[j].font_size));
        let n = choose|n: int| 0 <= n < texts.len() && texts[n] == t;
        assert(texts.push(dots)[n] == texts[n]);
        assert(plan_texts(plan).contains(t));
        lemma_text_ready(glyphs, plan, t.0, t.1);
    }
}

/// Once the glyphs that were missing are cached, a preview can be drawn.
pub proof fn law_missing_glyphs_suffice(
    before: Map<u64, CachedGlyph>,
    after: Map<u64, CachedGlyph>,
    plan: crate::preview::PlanView,
    missing: Seq<(char, FontSize)>,
)
    requires
        are_missing(before, plan, missing),
        before.dom().subset_of(after.dom()),
        forall|i: int|
            0 <= i < missing.len() ==> crate::glyphs::has_glyph(
                after,
                (#[trigger] missing[i]).0,
                missing[i].1,
            ),
    ensures
        plan_ready(after, plan),
{
    assert forall|ch: char, size: FontSize| #[trigger]
        plan_needs(plan, ch, size) implies crate::glyphs::has_glyph(after, ch, size) by {
        if crate::glyphs::has_glyph(before, ch, size) {
            assert(after.dom().contains(crate::glyphs::glyph_key(ch, size)));
        } else {
            assert(missing.contains((ch, size)));
        }
    }
}

// Images.

/// How much work goes into making a PNG file small.
#[derive(Clone, Copy, PartialEq, Eq, Structural)]
pub enum PngCompression {
    NoCompression,
    Fastest,
    Fast,
    Balanced,
    High,
}

/// How a picture is stored in a PNG file. The color type and the number of bits for each sample
/// are the numbers that stand in the file.
#[derive(Clone, Copy, PartialEq, Eq, Structural)]
pub struct PngFormat {
    pub color_type: u8,
    pub bit_depth: u8,
    pub compression: PngCompression,
}

impl PngFormat {
    /// The samples of one pixel: gray, or red, green and blue, each with or without opacity.
    pub open spec fn samples(self) -> int {
        match self.color_type {
            0 => 1,
            2 => 3,
            4 => 2,
            6 => 4,
            _ => 0,
        }
    }
}

/// The format of previews: opaque, with eight bits for each of red, green and blue, and quick to
/// make.
pub open spec fn preview_format() -> PngFormat {
    PngFormat { color_type: 2, bit_depth: 8, compression: PngCompression::Fastest }
}

/// A picture as a PNG file.
pub uninterp spec fn png_file(pixels: Seq<u8>, width: u32, height: u32, format: PngFormat) -> Seq<
    u8,
>;

/// Encodes a picture (`png::Encoder`) of whole bytes in the given format.
#[verifier::external_body]
fn encode_png(pixels: &Vec<u8>, width: u32, height: u32, format: PngFormat) -> (r: Vec<u8>)
    requires
        0 < width,
        0 < height,
        format.samples() > 0,
        format.bit_depth == 8 || format.bit_depth == 16,
        pixels@.len() == format.samples() * (format.bit_depth / 8) * width * height,
    ensures
        r@ == png_file(pixels@, width, height, format),
{
    let mut file = Vec::new();
    let mut encoder = png::Encoder::new(&mut file, width, height);
    encoder.set_color(png::ColorType::from_u8(format.color_type).expect("a color type"));
    encoder.set_depth(png::BitDepth::from_u8(format.bit_depth).expect("a bit depth"));
    encoder.set_compression(match format.compression {
        PngCompression::NoCompression => png::Compression::NoCompression,
        PngCompression::Fastest => png::Compression::Fastest,
        PngCompression::Fast => png::Compression::Fast,
        PngCompression::Balanced => png::Compression::Balanced,
        PngCompression::High => png::Compression::High,
    });
    let mut writer = encoder.write_header().expect("a header is written to memory");
    writer.write_image_data(pixels).expect("the data of a picture is written to memory");
    drop(writer);
    file
}

/// The file of a preview with the given picture.
pub open spec fn preview_file(pixels: Seq<u8>) -> Seq<u8> {
    png_file(pixels, WIDTH as u32, HEIGHT as u32, preview_format())
}

/// The picture of a preview.
pub open spec fn plan_picture(
    glyphs: Map<u64, CachedGlyph>,
    plan: crate::preview::PlanView,
) -> Seq<u8> {
    match plan {
        crate::preview::PlanView::Blank => crate::canvas::blank_pixels(),
        crate::preview::PlanView::Code { rows, has_more } => code_picture(glyphs, rows, has_more),
        crate::preview::PlanView::Markdown { lines } => markdown_picture(glyphs, lines),
    }
}

/// Whether a preview can be drawn.
pub open spec fn plan_drawable(plan: crate::preview::PlanView) -> bool {
    match plan {
        crate::preview::PlanView::Markdown { lines } => drawable(lines),
        _ => true,
    }
}

/// Draws a preview. There is no picture where a glyph is missing, or where quotes nest so deeply
/// that a background or rule would start in the right margin.
pub fn draw_plan(plan: &PreviewPlan, cache: &GlyphCache) -> (r: Option<Vec<u8>>)
    requires
        crate::preview::plan_fits(plan@),
        crate::glyphs::glyphs_wf(cache@),
    ensures
        r is Some <==> plan_ready(cache@, plan@) && plan_drawable(plan@),
        r matches Some(pixels) ==> pixels@ == plan_picture(cache@, plan@) && pixels@.len()
            == crate::canvas::BUFFER_LEN,
{
    let missing: Vec<(char, FontSize)> = missing_glyphs(plan, cache);
    if missing.len() > 0 {
        proof {
            let (ch, size) = missing@[0];
            assert(missing@.contains((ch, size)));
            assert(plan_needs(plan@, ch, size));
        }
        return None;
    }
    proof {
        assert forall|ch: char, size: FontSize| #[trigger]
            plan_needs(plan@, ch, size) implies crate::glyphs::has_glyph(cache@, ch, size) by {
            assert(!missing@.contains((ch, size)));
        }
    }
    match plan {
        PreviewPlan::Blank => Some(blank()),
        PreviewPlan::Code { rows, has_more } => {
            proof {
                lemma_dots_ready(cache@, plan@);
                let v = crate::preview::row_views(rows@);
                assert forall|k: int| 0 <= k < rows@.len() implies row_ready(
                    cache@,
                    (#[trigger] rows@[k])@,
                ) by {
                    lemma_rows_ready(cache@, plan@, v, k);
                    assert(v[k] == rows@[k]@);
                }
            }
            Some(draw_code(rows, *has_more, cache))
        },
        PreviewPlan::Markdown { lines } => {
            if !can_draw(lines) {
                return None;
            }
            proof {
                lemma_dots_ready(cache@, plan@);
                let v = crate::styled::line_views(lines@);
                assert forall|k: int| 0 <= k < lines@.len() implies line_ready(
                    cache@,
                    (#[trigger] lines@[k])@,
                ) by {
                    lemma_lines_ready(cache@, plan@, v, k);
                    assert(v[k] == lines@[k]@);
                }
            }
            Some(generate_markdown_preview(lines, cache))
        },
    }
}

/// Draws a preview and encodes it. There is none where it cannot be drawn.
pub fn generate_preview_with_cache(plan: &PreviewPlan, cache: &GlyphCache) -> (r: Option<Vec<u8>>)
    requires
        crate::preview::plan_fits(plan@),
        crate::glyphs::glyphs_wf(cache@),
    ensures
        r is Some <==> plan_ready(cache@, plan@) && plan_drawable(plan@),
        r matches Some(file) ==> file@ == preview_file(plan_picture(cache@, plan@)),
{
    match draw_plan(plan, cache) {
        Some(pixels) => {
            let format: PngFormat = PngFormat {
                color_type: 2,
                bit_depth: 8,
                compression: PngCompression::Fastest,
            };
            Some(encode_png(&pixels, WIDTH as u32, HEIGHT as u32, format))
        },
        None => None,
    }
}

/// Generates the preview image of a paste from cached glyphs.
///
/// There is no image where a glyph is missing; [`plan_preview`] and [`missing_glyphs`] tell which
/// ones to cache first.
pub fn generate_preview(
    state: &AppState,
    content: &str,
    extension: Option<&str>,
    cache: &GlyphCache,
) -> (r: Option<Vec<u8>>)
    requires
        crate::glyphs::glyphs_wf(cache@),
    ensures
        ({
            let plan = crate::preview::preview_plan(
                *state,
                content@,
                crate::state::text_of(extension),
            );
            &&& r is Some <==> plan_ready(cache@, plan) && plan_drawable(plan)
            &&& r matches Some(file) ==> file@ == preview_file(plan_picture(cache@, plan))
        }),
{
    generate_preview_with_cache(&plan_preview(state, content, extension), cache)
}

proof fn lemma_same_runs(
    a: Map<u64, CachedGlyph>,
    b: Map<u64, CachedGlyph>,
    pixels: Seq<u8>,
    x: int,
    y: usize,
    runs: Seq<crate::preview::RunView>,
    alpha: u8,
)
    requires
        forall|j: int|
            0 <= j < runs.len() ==> crate::glyphs::ready(
                crate::glyphs::shared(a, b),
                (#[trigger] runs[j]).text,
                FontSize::Base,
            ),
    ensures
        runs_set(a, pixels, x, y, runs, alpha) == runs_set(b, pixels, x, y, runs, alpha),
    decreases runs.len(),
{
    if runs.len() > 0 {
        let pos = Point { x: x as usize, y };
        let color = runs[0].color.fade(alpha);
        crate::glyphs::lemma_same_text(
            a,
            b,
            pixels,
            pos.x as int,
            runs[0].text,
            crate::glyphs::plain_text(pos, color),
        );
        let next = crate::glyphs::plain_set(a, pixels, runs[0].text, pos, color);
        assert forall|j: int| 0 <= j < runs.drop_first().len() implies crate::glyphs::ready(
            crate::glyphs::shared(a, b),
            (#[trigger] runs.drop_first()[j]).text,
            FontSize::Base,
        ) by {
            assert(runs.drop_first()[j] == runs[j + 1]);
        }
        lemma_same_runs(a, b, next.0, next.1, y, runs.drop_first(), alpha);
    }
}

proof fn lemma_same_rows(
    a: Map<u64, CachedGlyph>,
    b: Map<u64, CachedGlyph>,
    rows: Seq<crate::preview::RowView>,
    has_more: bool,
    n: nat,
)
    requires
        n <= rows.len(),
        forall|k: int|
            0 <= k < rows.len() ==> row_ready(crate::glyphs::shared(a, b), #[trigger] rows[k]),
    ensures
        rows_set(a, rows, has_more, n) == rows_set(b, rows, has_more, n),
    decreases n,
{
    if n > 0 {
        lemma_same_rows(a, b, rows, has_more, (n - 1) as nat);
        let row = rows[n - 1];
        let y = (PADDING_Y + (n - 1) * LINE_HEIGHT) as usize;
        let end = Point { x: NUMBER_END, y };
        let before = rows_set(a, rows, has_more, (n - 1) as nat);
        crate::glyphs::lemma_same_width(a, b, row.number, FontSize::Base);
        let pos = crate::glyphs::right_aligned(a, row.number, end);
        let color = crate::styled::muted();
        crate::glyphs::lemma_same_text(
            a,
            b,
            before,
            pos.x as int,
            row.number,
            crate::glyphs::plain_text(pos, color),
        );
        let numbered = crate::glyphs::plain_set(a, before, row.number, pos, color).0;
        lemma_same_runs(
            a,
            b,
            numbered,
            CONTENT_X as int,
            y,
            row.runs,
            opacity(n - 1, rows.len() as int, has_more),
        );
    }
}

proof fn lemma_same_spans(
    a: Map<u64, CachedGlyph>,
    b: Map<u64, CachedGlyph>,
    pixels: Seq<u8>,
    x: int,
    y: usize,
    h: usize,
    spans: Seq<crate::styled::SpanView>,
    alpha: u8,
)
    requires
        forall|j: int|
            0 <= j < spans.len() ==> crate::glyphs::ready(
                crate::glyphs::shared(a, b),
                (#[trigger] spans[j]).text,
                spans[j].font_size,
            ),
    ensures
        spans_set(a, pixels, x, y, h, spans, alpha) == spans_set(b, pixels, x, y, h, spans, alpha),
    decreases spans.len(),
{
    if spans.len() > 0 {
        let span = spans[0];
        crate::glyphs::lemma_same_width(a, b, span.text, span.font_size);
        let panel = span_panel(a, pixels, span, x, y, h, alpha);
        let spec = span_text(span, x, y, h, alpha);
        crate::glyphs::lemma_same_text(a, b, panel, x, span.text, spec);
        let next = crate::glyphs::text_set(a, panel, x, span.text, spec);
        assert forall|j: int| 0 <= j < spans.drop_first().len() implies crate::glyphs::ready(
            crate::glyphs::shared(a, b),
            (#[trigger] spans.drop_first()[j]).text,
            spans.drop_first()[j].font_size,
        ) by {
            assert(spans.drop_first()[j] == spans[j + 1]);
        }
        lemma_same_spans(a, b, next.0, next.1, y, h, spans.drop_first(), alpha);
    }
}

proof fn lemma_same_line(
    a: Map<u64, CachedGlyph>,
    b: Map<u64, CachedGlyph>,
    pixels: Seq<u8>,
    line: crate::styled::LineView,
    y: usize,
    alpha: u8,
)
    requires
        line_ready(crate::glyphs::shared(a, b), line),
    ensures
        line_set(a, pixels, line, y, alpha) == line_set(b, pixels, line, y, alpha),
{
    let h = line.line_height;
    let x = quote_x(line.blockquote_depth as int);
    let quoted = borders_set(pixels, y, h, line.blockquote_depth as nat, alpha);
    let backed = if line.is_code_block {
        crate::canvas::filled(quoted, wide_rect(x, y as int, h as int), code_panel().fade(alpha))
    } else {
        quoted
    };
    lemma_same_spans(
        a,
        b,
        backed,
        if line.is_code_block {
            x + 16
        } else {
            x
        },
        y,
        h,
        line.spans,
        alpha,
    );
}

proof fn lemma_same_lines(
    a: Map<u64, CachedGlyph>,
    b: Map<u64, CachedGlyph>,
    lines: Seq<crate::styled::LineView>,
    count: int,
    n: nat,
)
    requires
        n <= lines.len(),
        forall|k: int|
            0 <= k < lines.len() ==> line_ready(crate::glyphs::shared(a, b), #[trigger] lines[k]),
    ensures
        lines_set(a, lines, count, n) == lines_set(b, lines, count, n),
    decreases n,
{
    if n > 0 {
        lemma_same_lines(a, b, lines, count, (n - 1) as nat);
        lemma_same_line(
            a,
            b,
            lines_set(a, lines, count, (n - 1) as nat),
            lines[n - 1],
            line_top(lines, (n - 1) as nat) as usize,
            opacity(n - 1, count, count < lines.len()),
        );
    }
}

proof fn lemma_visible_lines(lines: Seq<crate::styled::LineView>, y: int)
    ensures
        0 <= visible_lines(lines, y) <= lines.len(),
    decreases lines.len(),
{
    if lines.len() > 0 {
        lemma_visible_lines(lines.drop_first(), y + lines[0].line_height);
    }
}

/// Whether two caches hold the same glyphs for all that a preview may need.
pub open spec fn same_glyphs(
    a: Map<u64, CachedGlyph>,
    b: Map<u64, CachedGlyph>,
    plan: crate::preview::PlanView,
) -> bool {
    forall|ch: char, size: FontSize| #[trigger]
        plan_needs(plan, ch, size) ==> crate::glyphs::glyph_of(a, ch, size).looks_like(
            crate::glyphs::glyph_of(b, ch, size),
        )
}

/// A preview looks the same with any cache that has the glyphs it may need: what else is cached
/// does not show.
pub proof fn law_spare_glyphs_do_not_show(
    a: Map<u64, CachedGlyph>,
    b: Map<u64, CachedGlyph>,
    plan: crate::preview::PlanView,
)
    requires
        plan_ready(a, plan),
        plan_ready(b, plan),
        same_glyphs(a, b, plan),
    ensures
        plan_picture(a, plan) == plan_picture(b, plan),
{
    let both = crate::glyphs::shared(a, b);
    assert forall|ch: char, size: FontSize| #[trigger]
        plan_needs(plan, ch, size) implies crate::glyphs::has_glyph(both, ch, size) by {
        assert(crate::glyphs::has_glyph(a, ch, size));
        assert(crate::glyphs::has_glyph(b, ch, size));
    }
    if plan !is Blank {
        lemma_dots_ready(both, plan);
    }
    match plan {
        crate::preview::PlanView::Blank => {},
        crate::preview::PlanView::Code { rows, has_more } => {
            assert forall|k: int| 0 <= k < rows.len() implies row_ready(
                both,
                #[trigger] rows[k],
            ) by {
                lemma_rows_ready(both, plan, rows, k);
            }
            lemma_same_rows(a, b, rows, has_more, rows.len());
            let pos = Point { x: CONTENT_X, y: (PADDING_Y + rows.len() * LINE_HEIGHT) as usize };
            crate::glyphs::lemma_same_text(
                a,
                b,
                rows_set(a, rows, has_more, rows.len()),
                pos.x as int,
                "..."@,
                crate::glyphs::plain_text(pos, crate::styled::muted()),
            );
        },
        crate::preview::PlanView::Markdown { lines } => {
            assert forall|k: int| 0 <= k < lines.len() implies line_ready(
                both,
                #[trigger] lines[k],
            ) by {
                lemma_lines_ready(both, plan, lines, k);
            }
            let count = visible_lines(lines, MD_PADDING_Y as int);
            lemma_visible_lines(lines, MD_PADDING_Y as int);
            lemma_same_lines(a, b, lines, count, count as nat);
            let pos = Point { x: MD_PADDING_X, y: line_top(lines, count as nat) as usize };
            crate::glyphs::lemma_same_text(
                a,
                b,
                lines_set(a, lines, count, count as nat),
                pos.x as int,
                "..."@,
                crate::glyphs::plain_text(pos, crate::styled::muted()),
            );
        },
    }
}

/// Whether all the glyphs that are cached are those of a font.
pub open spec fn is_of_font(
    glyphs: Map<u64, CachedGlyph>,
    font: spec_fn(char, FontSize) -> CachedGlyph,
) -> bool {
    forall|ch: char, size: FontSize| #[trigger]
        crate::glyphs::has_glyph(glyphs, ch, size) ==> crate::glyphs::glyph_of(
            glyphs,
            ch,
            size,
        ).looks_like(font(ch, size))
}

/// A cache that holds glyphs of a font still does when another glyph of the font is added.
pub proof fn law_added_glyphs_are_of_the_font(
    glyphs: Map<u64, CachedGlyph>,
    font: spec_fn(char, FontSize) -> CachedGlyph,
    ch: char,
    size: FontSize,
    glyph: CachedGlyph,
)
    requires
        is_of_font(glyphs, font),
        glyph.looks_like(font(ch, size)),
    ensures
        is_of_font(glyphs.insert(crate::glyphs::glyph_key(ch, size), glyph), font),
{
    let after = glyphs.insert(crate::glyphs::glyph_key(ch, size), glyph);
    assert forall|c: char, s: FontSize| #[trigger]
        crate::glyphs::has_glyph(after, c, s) implies crate::glyphs::glyph_of(
        after,
        c,
        s,
    ).looks_like(font(c, s)) by {
        if crate::glyphs::glyph_key(c, s) == crate::glyphs::glyph_key(ch, size) {
            crate::glyphs::law_glyph_keys_are_distinct(c, s, ch, size);
        } else {
            assert(crate::glyphs::has_glyph(glyphs, c, s));
        }
    }
}

/// Once the glyphs that a preview may need are cached, its picture depends on the font only: what
/// else was cached, and when, does not show.
pub proof fn law_pictures_depend_on_the_font(
    a: Map<u64, CachedGlyph>,
    b: Map<u64, CachedGlyph>,
    font: spec_fn(char, FontSize) -> CachedGlyph,
    plan: crate::preview::PlanView,
)
    requires
        plan_ready(a, plan),
        plan_ready(b, plan),
        is_of_font(a, font),
        is_of_font(b, font),
    ensures
        plan_picture(a, plan) == plan_picture(b, plan),
{
    assert forall|ch: char, size: FontSize| #[trigger]
        plan_needs(plan, ch, size) implies crate::glyphs::glyph_of(a, ch, size).looks_like(
        crate::glyphs::glyph_of(b, ch, size),
    ) by {
        assert(crate::glyphs::has_glyph(a, ch, size));
        assert(crate::glyphs::has_glyph(b, ch, size));
    }
    law_spare_glyphs_do_not_show(a, b, plan);
}

/// The preview of a paste that is listed depends only on the lines that it shows, each as far as
/// it is looked at, on whether more would follow, and on the font: later lines, the tails of long
/// lines and what the cache already holds do not show.
pub proof fn law_preview_depends_on_what_it_shows(
    state: AppState,
    one: Seq<char>,
    other: Seq<char>,
    extension: Option<Seq<char>>,
    a: Map<u64, CachedGlyph>,
    b: Map<u64, CachedGlyph>,
    font: spec_fn(char, FontSize) -> CachedGlyph,
)
    requires
        !crate::highlighter::names_markdown(extension),
        crate::preview::listed_alike(one, other),
        plan_ready(a, crate::preview::preview_plan(state, one, extension)),
        plan_ready(b, crate::preview::preview_plan(state, other, extension)),
        is_of_font(a, font),
        is_of_font(b, font),
    ensures
        plan_drawable(crate::preview::preview_plan(state, one, extension)),
        plan_drawable(crate::preview::preview_plan(state, other, extension)),
        preview_file(plan_picture(a, crate::preview::preview_plan(state, one, extension)))
            == preview_file(plan_picture(b, crate::preview::preview_plan(state, other, extension))),
{
    crate::preview::law_listing_depends_on_shown_lines(state, one, other, extension);
    law_pictures_depend_on_the_font(
        a,
        b,
        font,
        crate::preview::preview_plan(state, one, extension),
    );
}

/// The preview of a paste can be drawn where no more than [`DRAWABLE_DEPTH`] block quotes are ever
/// open in what is looked at of it.
pub proof fn law_shallow_quotes_can_be_drawn(
    state: AppState,
    content: Seq<char>,
    extension: Option<Seq<char>>,
)
    requires
        crate::styled::nests_within(
            crate::events::document_events(crate::preview::looked_at(content)),
            0,
            DRAWABLE_DEPTH as int,
        ),
    ensures
        plan_drawable(crate::preview::preview_plan(state, content, extension)),
{
    let events = crate::events::document_events(crate::preview::looked_at(content));
    crate::styled::law_lines_are_no_deeper_than_the_document(state, events, DRAWABLE_DEPTH as int);
    let lines = crate::styled::styled_lines(state, events);
    lemma_visible_lines(lines, MD_PADDING_Y as int);
}

/// The preview of markdown in which no more than [`DRAWABLE_DEPTH`] block quotes are ever open can
/// be drawn, and is the same when the content is first cut to what a preview looks at, whatever
/// else is cached.
pub proof fn law_markdown_preview_of_the_start(
    state: AppState,
    content: Seq<char>,
    extension: Option<Seq<char>>,
    a: Map<u64, CachedGlyph>,
    b: Map<u64, CachedGlyph>,
    font: spec_fn(char, FontSize) -> CachedGlyph,
)
    requires
        crate::highlighter::names_markdown(extension),
        crate::styled::nests_within(
            crate::events::document_events(crate::preview::looked_at(content)),
            0,
            DRAWABLE_DEPTH as int,
        ),
        plan_ready(a, crate::preview::preview_plan(state, content, extension)),
        plan_ready(b, crate::preview::preview_plan(state, content, extension)),
        is_of_font(a, font),
        is_of_font(b, font),
    ensures
        plan_drawable(crate::preview::preview_plan(state, content, extension)),
        plan_ready(
            b,
            crate::preview::preview_plan(state, crate::preview::looked_at(content), extension),
        ),
        preview_file(plan_picture(a, crate::preview::preview_plan(state, content, extension)))
            == preview_file(
            plan_picture(
                b,
                crate::preview::preview_plan(state, crate::preview::looked_at(content), extension),
            ),
        ),
{
    let plan = crate::preview::preview_plan(state, content, extension);
    law_shallow_quotes_can_be_drawn(state, content, extension);
    crate::preview::law_markdown_preview_ignores_the_rest(state, content, extension);
    law_pictures_depend_on_the_font(a, b, font, plan);
}

/// Whether some glyphs are those of a font for the given characters.
pub open spec fn are_rasterized(
    more: Seq<(char, FontSize, CachedGlyph)>,
    font: spec_fn(char, FontSize) -> CachedGlyph,
    missing: Seq<(char, FontSize)>,
) -> bool {
    &&& more.len() == missing.len()
    &&& forall|i: int|
        0 <= i < more.len() ==> (#[trigger] more[i]).0 == missing[i].0 && more[i].1 == missing[i].1
            && more[i].2.looks_like(font(more[i].0, more[i].1))
}

proof fn lemma_added_glyphs(
    glyphs: Map<u64, CachedGlyph>,
    font: spec_fn(char, FontSize) -> CachedGlyph,
    more: Seq<(char, FontSize, CachedGlyph)>,
)
    requires
        is_of_font(glyphs, font),
        forall|i: int|
            0 <= i < more.len() ==> (#[trigger] more[i]).2.looks_like(font(more[i].0, more[i].1)),
    ensures
        is_of_font(crate::glyphs::with_glyphs(glyphs, more), font),
        glyphs.dom().subset_of(crate::glyphs::with_glyphs(glyphs, more).dom()),
        forall|i: int|
            0 <= i < more.len() ==> crate::glyphs::has_glyph(
                crate::glyphs::with_glyphs(glyphs, more),
                (#[trigger] more[i]).0,
                more[i].1,
            ),
    decreases more.len(),
{
    if more.len() > 0 {
        let rest = more.drop_first();
        assert forall|i: int| 0 <= i < rest.len() implies (#[trigger] rest[i]).2.looks_like(
            font(rest[i].0, rest[i].1),
        ) by {
            assert(rest[i] == more[i + 1]);
        }
        lemma_added_glyphs(glyphs, font, rest);
        let before = crate::glyphs::with_glyphs(glyphs, rest);
        let after = crate::glyphs::with_glyphs(glyphs, more);
        let (ch, size, glyph) = more[0];
        law_added_glyphs_are_of_the_font(before, font, ch, size, glyph);
        assert forall|i: int| 0 <= i < more.len() implies crate::glyphs::has_glyph(
            after,
            (#[trigger] more[i]).0,
            more[i].1,
        ) by {
            if i > 0 {
                assert(rest[i - 1] == more[i]);
            }
        }
    }
}

/// A cache with glyphs of a font holds all that a preview may need once the missing ones are
/// rasterized and added, and still only glyphs of the font.
pub proof fn law_filled_caches_are_ready(
    glyphs: Map<u64, CachedGlyph>,
    font: spec_fn(char, FontSize) -> CachedGlyph,
    plan: crate::preview::PlanView,
    missing: Seq<(char, FontSize)>,
    more: Seq<(char, FontSize, CachedGlyph)>,
)
    requires
        is_of_font(glyphs, font),
        are_missing(glyphs, plan, missing),
        are_rasterized(more, font, missing),
    ensures
        plan_ready(crate::glyphs::with_glyphs(glyphs, more), plan),
        is_of_font(crate::glyphs::with_glyphs(glyphs, more), font),
{
    let after = crate::glyphs::with_glyphs(glyphs, more);
    lemma_added_glyphs(glyphs, font, more);
    assert forall|i: int| 0 <= i < missing.len() implies crate::glyphs::has_glyph(
        after,
        (#[trigger] missing[i]).0,
        missing[i].1,
    ) by {
        assert(more[i].0 == missing[i].0);
    }
    law_missing_glyphs_suffice(glyphs, after, plan, missing);
}

/// The preview of a paste that is listed depends only on the lines that it shows, each as far as
/// it is looked at, on whether more would follow, and on the font, whatever glyphs of the font
/// were cached before the missing ones were added.
pub proof fn law_filled_caches_show_the_same_listing(
    state: AppState,
    one: Seq<char>,
    other: Seq<char>,
    extension: Option<Seq<char>>,
    font: spec_fn(char, FontSize) -> CachedGlyph,
    a: Map<u64, CachedGlyph>,
    missing_a: Seq<(char, FontSize)>,
    more_a: Seq<(char, FontSize, CachedGlyph)>,
    b: Map<u64, CachedGlyph>,
    missing_b: Seq<(char, FontSize)>,
    more_b: Seq<(char, FontSize, CachedGlyph)>,
)
    requires
        !crate::highlighter::names_markdown(extension),
        crate::preview::listed_alike(one, other),
        is_of_font(a, font),
        are_missing(a, crate::preview::preview_plan(state, one, extension), missing_a),
        are_rasterized(more_a, font, missing_a),
        is_of_font(b, font),
        are_missing(b, crate::preview::preview_plan(state, other, extension), missing_b),
        are_rasterized(more_b, font, missing_b),
    ensures
        ({
            let p = crate::preview::preview_plan(state, one, extension);
            let q = crate::preview::preview_plan(state, other, extension);
            let full_a = crate::glyphs::with_glyphs(a, more_a);
            let full_b = crate::glyphs::with_glyphs(b, more_b);
            &&& plan_ready(full_a, p) && plan_drawable(p)
            &&& plan_ready(full_b, q) && plan_drawable(q)
            &&& preview_file(plan_picture(full_a, p)) == preview_file(plan_picture(full_b, q))
        }),
{
    let p = crate::preview::preview_plan(state, one, extension);
    let q = crate::preview::preview_plan(state, other, extension);
    law_filled_caches_are_ready(a, font, p, missing_a, more_a);
    law_filled_caches_are_ready(b, font, q, missing_b, more_b);
    law_preview_depends_on_what_it_shows(
        state,
        one,
        other,
        extension,
        crate::glyphs::with_glyphs(a, more_a),
        crate::glyphs::with_glyphs(b, more_b),
        font,
    );
}

/// The preview of markdown in which no more than [`DRAWABLE_DEPTH`] block quotes are ever open can
/// be drawn, and is the same when the content is first cut to what a preview looks at, whatever
/// glyphs of the font were cached before the missing ones were added.
pub proof fn law_filled_caches_show_the_same_markdown(
    state: AppState,
    content: Seq<char>,
    extension: Option<Seq<char>>,
    font: spec_fn(char, FontSize) -> CachedGlyph,
    a: Map<u64, CachedGlyph>,
    missing_a: Seq<(char, FontSize)>,
    more_a: Seq<(char, FontSize, CachedGlyph)>,
    b: Map<u64, CachedGlyph>,
    missing_b: Seq<(char, FontSize)>,
    more_b: Seq<(char, FontSize, CachedGlyph)>,
)
    requires
        crate::highlighter::names_markdown(extension),
        crate::styled::nests_within(
            crate::events::document_events(crate::preview::looked_at(content)),
            0,
            DRAWABLE_DEPTH as int,
        ),
        is_of_font(a, font),
        are_missing(a, crate::preview::preview_plan(state, content, extension), missing_a),
        are_rasterized(more_a, font, missing_a),
        is_of_font(b, font),
        are_missing(
            b,
            crate::preview::preview_plan(state, crate::preview::looked_at(content), extension),
            missing_b,
        ),
        are_rasterized(more_b, font, missing_b),
    ensures
        ({
            let p = crate::preview::preview_plan(state, content, extension);
            let q = crate::preview::preview_plan(
                state,
                crate::preview::looked_at(content),
                extension,
            );
            let full_a = crate::glyphs::with_glyphs(a, more_a);
            let full_b = crate::glyphs::with_glyphs(b, more_b);
            &&& plan_ready(full_a, p) && plan_drawable(p)
            &&& plan_ready(full_b, q) && plan_drawable(q)
            &&& preview_file(plan_picture(full_a, p)) == preview_file(plan_picture(full_b, q))
        }),
{
    let p = crate::preview::preview_plan(state, content, extension);
    crate::preview::law_markdown_preview_ignores_the_rest(state, content, extension);
    law_filled_caches_are_ready(a, font, p, missing_a, more_a);
    law_filled_caches_are_ready(b, font, p, missing_b, more_b);
    law_markdown_preview_of_the_start(
        state,
        content,
        extension,
        crate::glyphs::with_glyphs(a, more_a),
        crate::glyphs::with_glyphs(b, more_b),
        font,
    );
}

/// How wide some spans are together.
pub open spec fn spans_width(
    glyphs: Map<u64, CachedGlyph>,
    spans: Seq<crate::styled::SpanView>,
) -> int
    decreases spans.len(),
{
    if spans.len() == 0 {
        0
    } else {
        spans_width(glyphs, spans.drop_last()) + crate::glyphs::text_width(
            glyphs,
            spans.last().text,
            spans.last().font_size,
        )
    }
}

proof fn lemma_spans_width_front(
    glyphs: Map<u64, CachedGlyph>,
    span: crate::styled::SpanView,
    rest: Seq<crate::styled::SpanView>,
)
    ensures
        spans_width(glyphs, seq![span] + rest) == crate::glyphs::text_width(
            glyphs,
            span.text,
            span.font_size,
        ) + spans_width(glyphs, rest),
        0 <= spans_width(glyphs, rest),
    decreases rest.len(),
{
    let all = seq![span] + rest;
    if rest.len() == 0 {
        assert(all.drop_last() =~= seq![]);
        assert(spans_width(glyphs, seq![]) == 0);
    } else {
        lemma_spans_width_front(glyphs, span, rest.drop_last());
        crate::glyphs::law_widths_add_up(
            glyphs,
            rest.last().text,
            seq![],
            ' ',
            rest.last().font_size,
        );
        crate::glyphs::lemma_width_is_counted(glyphs, rest.last().text, rest.last().font_size);
        assert(all.drop_last() =~= seq![span] + rest.drop_last());
    }
}

/// The spans of a line stand side by side: setting some spans and then others is setting all of
/// them, where the others start as far right as the first ones are wide, left of the margin.
pub proof fn law_spans_stand_side_by_side(
    glyphs: Map<u64, CachedGlyph>,
    pixels: Seq<u8>,
    x: int,
    y: usize,
    h: usize,
    a: Seq<crate::styled::SpanView>,
    b: Seq<crate::styled::SpanView>,
    alpha: u8,
)
    requires
        0 <= x,
        x + spans_width(glyphs, a) <= WIDTH - MD_PADDING_X,
    ensures
        spans_set(glyphs, pixels, x, y, h, a + b, alpha) == spans_set(
            glyphs,
            spans_set(glyphs, pixels, x, y, h, a, alpha),
            x + spans_width(glyphs, a),
            y,
            h,
            b,
            alpha,
        ),
    decreases a.len(),
{
    if a.len() == 0 {
        assert(a + b =~= b);
    } else {
        let span = a[0];
        let rest = a.drop_first();
        assert(seq![span] + rest =~= a);
        lemma_spans_width_front(glyphs, span, rest);
        crate::glyphs::lemma_width_is_counted(glyphs, span.text, span.font_size);
        assert((a + b).drop_first() =~= rest + b);
        assert((a + b)[0] == span);
        let panel = span_panel(glyphs, pixels, span, x, y, h, alpha);
        let spec = span_text(span, x, y, h, alpha);
        crate::glyphs::law_text_ends_where_its_width_says(glyphs, panel, x, span.text, spec);
        let next = crate::glyphs::text_set(glyphs, panel, x, span.text, spec);
        law_spans_stand_side_by_side(glyphs, next.0, next.1, y, h, rest, b, alpha);
    }
}

/// A span that is split into two of the same style looks the same.
pub proof fn law_split_spans_look_the_same(
    glyphs: Map<u64, CachedGlyph>,
    pixels: Seq<u8>,
    x: int,
    y: usize,
    h: usize,
    span: crate::styled::SpanView,
    a: Seq<char>,
    b: Seq<char>,
    alpha: u8,
)
    requires
        span.text == a + b,
        !span.has_bg,
        0 <= x,
    ensures
        spans_set(
            glyphs,
            pixels,
            x,
            y,
            h,
            seq![
                crate::styled::SpanView { text: a, ..span },
                crate::styled::SpanView { text: b, ..span },
            ],
            alpha,
        ) == spans_set(glyphs, pixels, x, y, h, seq![span], alpha),
{
    let one = crate::styled::SpanView { text: a, ..span };
    let two = crate::styled::SpanView { text: b, ..span };
    let spec = span_text(span, x, y, h, alpha);
    let both = seq![one, two];
    assert(both.drop_first() =~= seq![two]);
    assert(seq![two].drop_first() =~= seq![]);
    assert(seq![span].drop_first() =~= seq![]);
    let first = crate::glyphs::text_set(glyphs, pixels, x, a, spec);
    crate::glyphs::law_text_is_set_in_parts(glyphs, pixels, x, a, b, spec);
    crate::glyphs::lemma_start_does_not_matter(
        glyphs,
        pixels,
        x,
        a,
        span_text(one, x, y, h, alpha),
        spec,
    );
    crate::glyphs::lemma_start_does_not_matter(
        glyphs,
        first.0,
        first.1,
        b,
        span_text(two, first.1, y, h, alpha),
        spec,
    );
    let second = crate::glyphs::text_set(glyphs, first.0, first.1, b, spec);
    let whole = crate::glyphs::text_set(glyphs, pixels, x, span.text, spec);
    assert(spans_set(glyphs, second.0, second.1, y, h, seq![], alpha) == second.0);
    assert(spans_set(glyphs, whole.0, whole.1, y, h, seq![], alpha) == whole.0);
    assert(spans_set(glyphs, first.0, first.1, y, h, seq![two], alpha) == second.0);
    assert(spans_set(glyphs, pixels, x, y, h, both, alpha) == second.0);
    assert(spans_set(glyphs, pixels, x, y, h, seq![span], alpha) == whole.0);
}

/// How wide some runs are together.
pub open spec fn runs_width(
    glyphs: Map<u64, CachedGlyph>,
    runs: Seq<crate::preview::RunView>,
) -> int
    decreases runs.len(),
{
    if runs.len() == 0 {
        0
    } else {
        crate::glyphs::text_width(glyphs, runs[0].text, FontSize::Base) + runs_width(
            glyphs,
            runs.drop_first(),
        )
    }
}

proof fn lemma_runs_width(glyphs: Map<u64, CachedGlyph>, runs: Seq<crate::preview::RunView>)
    ensures
        0 <= runs_width(glyphs, runs),
    decreases runs.len(),
{
    if runs.len() > 0 {
        crate::glyphs::lemma_width_is_counted(glyphs, runs[0].text, FontSize::Base);
        lemma_runs_width(glyphs, runs.drop_first());
    }
}

/// The runs of a listed line stand side by side: setting some runs and then others is setting all
/// of them, where the others start as far right as the first ones are wide, left of the margin.
pub proof fn law_runs_stand_side_by_side(
    glyphs: Map<u64, CachedGlyph>,
    pixels: Seq<u8>,
    x: int,
    y: usize,
    a: Seq<crate::preview::RunView>,
    b: Seq<crate::preview::RunView>,
    alpha: u8,
)
    requires
        0 <= x,
        x + runs_width(glyphs, a) <= WIDTH - PADDING_X,
    ensures
        runs_set(glyphs, pixels, x, y, a + b, alpha) == runs_set(
            glyphs,
            runs_set(glyphs, pixels, x, y, a, alpha),
            x + runs_width(glyphs, a),
            y,
            b,
            alpha,
        ),
    decreases a.len(),
{
    if a.len() == 0 {
        assert(a + b =~= b);
    } else {
        let rest = a.drop_first();
        lemma_runs_width(glyphs, rest);
        crate::glyphs::lemma_width_is_counted(glyphs, a[0].text, FontSize::Base);
        assert((a + b).drop_first() =~= rest + b);
        assert((a + b)[0] == a[0]);
        let pos = Point { x: x as usize, y };
        let color = a[0].color.fade(alpha);
        let spec = crate::glyphs::plain_text(pos, color);
        crate::glyphs::law_text_ends_where_its_width_says(glyphs, pixels, x, a[0].text, spec);
        let next = crate::glyphs::plain_set(glyphs, pixels, a[0].text, pos, color);
        law_runs_stand_side_by_side(glyphs, next.0, next.1, y, rest, b, alpha);
    }
}

/// A run is set as its text, in its colour, mixed with that of the page in the measure of its
/// opacity.
pub proof fn law_runs_are_set_as_text(
    glyphs: Map<u64, CachedGlyph>,
    pixels: Seq<u8>,
    x: usize,
    y: usize,
    run: crate::preview::RunView,
    alpha: u8,
)
    ensures
        runs_set(glyphs, pixels, x as int, y, seq![run], alpha) == crate::glyphs::text_set(
            glyphs,
            pixels,
            x as int,
            run.text,
            TextSpec {
                pos: Point { x, y },
                color: Rgb {
                    r: crate::canvas::mixed(run.color.r, 0x0a, alpha),
                    g: crate::canvas::mixed(run.color.g, 0x0c, alpha),
                    b: crate::canvas::mixed(run.color.b, 0x10, alpha),
                },
                font_size: FontSize::Base,
                line_height: 22,
                max_x: 1184,
            },
        ).0,
{
    assert(seq![run].drop_first() =~= seq![]);
    let color = run.color.fade(alpha);
    let next = crate::glyphs::plain_set(glyphs, pixels, run.text, Point { x, y }, color);
    assert(runs_set(glyphs, next.0, next.1, y, seq![], alpha) == next.0);
}

/// The picture of a listing grows row by row: the number of a row is never faded, its runs are
/// where more would follow and it is among the last three.
pub proof fn law_rows_are_set_one_by_one(
    glyphs: Map<u64, CachedGlyph>,
    rows: Seq<crate::preview::RowView>,
    has_more: bool,
    k: nat,
)
    requires
        k < rows.len() <= 25,
    ensures
        ({
            let y = (14 + 22 * k) as usize;
            let row = rows[k as int];
            let width = crate::glyphs::text_width(glyphs, row.number, FontSize::Base);
            let start = Point {
                x: (if width <= 52 {
                    52 - width
                } else {
                    0
                }) as usize,
                y,
            };
            let alpha = if has_more && k + 3 == rows.len() {
                200u8
            } else if has_more && k + 2 == rows.len() {
                140u8
            } else if has_more && k + 1 == rows.len() {
                80u8
            } else {
                255u8
            };
            rows_set(glyphs, rows, has_more, k + 1) == runs_set(
                glyphs,
                crate::glyphs::plain_set(
                    glyphs,
                    rows_set(glyphs, rows, has_more, k),
                    row.number,
                    start,
                    Rgb { r: 0x9e, g: 0xa7, b: 0xb3 },
                ).0,
                68,
                y,
                row.runs,
                alpha,
            )
        }),
        rows_set(glyphs, rows, has_more, 0) == crate::canvas::blank_pixels(),
{
}

proof fn lemma_more_rows(
    glyphs: Map<u64, CachedGlyph>,
    rows: Seq<crate::preview::RowView>,
    row: crate::preview::RowView,
    n: nat,
)
    requires
        n <= rows.len(),
    ensures
        rows_set(glyphs, rows.push(row), false, n) == rows_set(glyphs, rows, false, n),
    decreases n,
{
    if n > 0 {
        lemma_more_rows(glyphs, rows, row, (n - 1) as nat);
        assert(rows.push(row)[n - 1] == rows[n - 1]);
    }
}

/// Listed lines stand below each other, 22 pixels apart: one more line changes the picture by its
/// number, which ends at column 52, and by its runs from column 68 on.
pub proof fn law_rows_stand_below_each_other(
    glyphs: Map<u64, CachedGlyph>,
    rows: Seq<crate::preview::RowView>,
    row: crate::preview::RowView,
)
    requires
        rows.len() < 25,
    ensures
        code_picture(glyphs, seq![], false) == crate::canvas::blank_pixels(),
        ({
            let y = (14 + 22 * rows.len()) as usize;
            let width = crate::glyphs::text_width(glyphs, row.number, FontSize::Base);
            let start = Point {
                x: (if width <= 52 {
                    52 - width
                } else {
                    0
                }) as usize,
                y,
            };
            let muted = Rgb { r: 0x9e, g: 0xa7, b: 0xb3 };
            let before = code_picture(glyphs, rows, false);
            let numbered = crate::glyphs::plain_set(glyphs, before, row.number, start, muted).0;
            code_picture(glyphs, rows.push(row), false) == runs_set(
                glyphs,
                numbered,
                68,
                y,
                row.runs,
                255,
            )
        }),
{
    lemma_more_rows(glyphs, rows, row, rows.len());
    assert(rows.push(row)[rows.len() as int] == row);
}

proof fn lemma_rows_before_the_last_three(
    glyphs: Map<u64, CachedGlyph>,
    rows: Seq<crate::preview::RowView>,
    n: nat,
)
    requires
        n + 3 <= rows.len(),
    ensures
        rows_set(glyphs, rows, true, n) == rows_set(glyphs, rows, false, n),
    decreases n,
{
    if n > 0 {
        lemma_rows_before_the_last_three(glyphs, rows, (n - 1) as nat);
    }
}

/// Where more would follow, the last three lines fade out and dots stand below them; the lines
/// before are not changed by that.
pub proof fn law_longer_listings_fade_out(
    glyphs: Map<u64, CachedGlyph>,
    rows: Seq<crate::preview::RowView>,
)
    requires
        3 <= rows.len() <= 25,
    ensures
        rows_set(glyphs, rows, true, (rows.len() - 3) as nat) == rows_set(
            glyphs,
            rows,
            false,
            (rows.len() - 3) as nat,
        ),
        opacity(rows.len() - 3, rows.len() as int, true) == 200,
        opacity(rows.len() - 2, rows.len() as int, true) == 140,
        opacity(rows.len() - 1, rows.len() as int, true) == 80,
        forall|k: int| opacity(k, rows.len() as int, false) == 255,
        code_picture(glyphs, rows, true) == crate::glyphs::plain_set(
            glyphs,
            rows_set(glyphs, rows, true, rows.len()),
            "..."@,
            Point { x: 68, y: (14 + 22 * rows.len()) as usize },
            Rgb { r: 0x9e, g: 0xa7, b: 0xb3 },
        ).0,
{
    lemma_rows_before_the_last_three(glyphs, rows, (rows.len() - 3) as nat);
}

/// How high some lines are together.
pub open spec fn lines_height(lines: Seq<crate::styled::LineView>) -> int
    decreases lines.len(),
{
    if lines.len() == 0 {
        0
    } else {
        lines_height(lines.drop_last()) + lines.last().line_height
    }
}

proof fn lemma_height_front(line: crate::styled::LineView, rest: Seq<crate::styled::LineView>)
    ensures
        lines_height(seq![line] + rest) == line.line_height + lines_height(rest),
        0 <= lines_height(rest),
    decreases rest.len(),
{
    let all = seq![line] + rest;
    if rest.len() == 0 {
        assert(all.drop_last() =~= seq![]);
        assert(lines_height(seq![]) == 0);
    } else {
        lemma_height_front(line, rest.drop_last());
        assert(all.drop_last() =~= seq![line] + rest.drop_last());
    }
}

/// As many lines of markdown are drawn as fit between the margins of 32 pixels: those are not
/// higher than the page, and one more would be.
pub proof fn law_lines_are_drawn_while_they_fit(lines: Seq<crate::styled::LineView>, y: int)
    requires
        y <= 598,
    ensures
        ({
            let n = visible_lines(lines, y);
            &&& 0 <= n <= lines.len()
            &&& y + lines_height(lines.take(n)) <= 598
            &&& n < lines.len() ==> y + lines_height(lines.take(n + 1)) > 598
        }),
    decreases lines.len(),
{
    let n = visible_lines(lines, y);
    lemma_visible_lines(lines, y);
    assert(lines.take(0) =~= seq![]);
    assert(lines_height(seq![]) == 0);
    if lines.len() > 0 {
        let rest = lines.drop_first();
        if y + lines[0].line_height > 598 {
            assert(lines.take(1) =~= seq![lines[0]] + seq![]);
            lemma_height_front(lines[0], seq![]);
        } else {
            law_lines_are_drawn_while_they_fit(rest, y + lines[0].line_height);
            assert(lines.take(n) =~= seq![lines[0]] + rest.take(n - 1));
            lemma_height_front(lines[0], rest.take(n - 1));
            if n < lines.len() {
                assert(lines.take(n + 1) =~= seq![lines[0]] + rest.take(n));
                lemma_height_front(lines[0], rest.take(n));
            }
        }
    }
}

proof fn lemma_all_visible(lines: Seq<crate::styled::LineView>, y: int)
    requires
        y + lines_height(lines) <= 598,
    ensures
        visible_lines(lines, y) == lines.len(),
    decreases lines.len(),
{
    if lines.len() > 0 {
        let rest = lines.drop_first();
        assert(seq![lines[0]] + rest =~= lines);
        lemma_height_front(lines[0], rest);
        lemma_all_visible(rest, y + lines[0].line_height);
    }
}

proof fn lemma_top_is_height(lines: Seq<crate::styled::LineView>, n: nat)
    requires
        n <= lines.len(),
    ensures
        line_top(lines, n) == 32 + lines_height(lines.take(n as int)),
    decreases n,
{
    if n > 0 {
        lemma_top_is_height(lines, (n - 1) as nat);
        assert(lines.take(n as int).drop_last() =~= lines.take(n - 1));
        assert(lines.take(n as int).last() == lines[n - 1]);
    } else {
        assert(lines.take(0) =~= seq![]);
    }
}

proof fn lemma_more_lines(
    glyphs: Map<u64, CachedGlyph>,
    lines: Seq<crate::styled::LineView>,
    line: crate::styled::LineView,
    n: nat,
)
    requires
        n <= lines.len(),
    ensures
        lines_set(glyphs, lines.push(line), lines.len() as int + 1, n) == lines_set(
            glyphs,
            lines,
            lines.len() as int,
            n,
        ),
    decreases n,
{
    if n > 0 {
        lemma_more_lines(glyphs, lines, line, (n - 1) as nat);
        assert(lines.push(line)[n - 1] == lines[n - 1]);
        lemma_top_is_height(lines, (n - 1) as nat);
        lemma_top_is_height(lines.push(line), (n - 1) as nat);
        assert(lines.push(line).take(n - 1) =~= lines.take(n - 1));
    }
}

/// Lines of markdown stand below each other, each as high as it is: one more line that fits changes
/// the picture by that line alone, right below the others.
pub proof fn law_markdown_lines_stand_below_each_other(
    glyphs: Map<u64, CachedGlyph>,
    lines: Seq<crate::styled::LineView>,
    line: crate::styled::LineView,
)
    requires
        32 + lines_height(lines) + line.line_height <= 598,
    ensures
        markdown_picture(glyphs, seq![]) == crate::canvas::blank_pixels(),
        markdown_picture(glyphs, lines.push(line)) == line_set(
            glyphs,
            markdown_picture(glyphs, lines),
            line,
            (32 + lines_height(lines)) as usize,
            255,
        ),
{
    let all = lines.push(line);
    assert(all.drop_last() =~= lines);
    lemma_all_visible(lines, 32);
    lemma_all_visible(all, 32);
    lemma_more_lines(glyphs, lines, line, lines.len());
    lemma_top_is_height(all, lines.len());
    assert(all.take(lines.len() as int) =~= lines);
    assert(all[lines.len() as int] == line);
}

/// Each quote around a line has a border of three columns at its left edge, 16 columns right of
/// that of the quote around it, and nothing else.
pub proof fn law_quotes_have_borders(
    pixels: Seq<u8>,
    y: usize,
    h: usize,
    n: nat,
    alpha: u8,
    px: int,
    py: int,
)
    requires
        pixels.len() == crate::canvas::BUFFER_LEN,
        n <= MAX_QUOTE_DEPTH,
        0 <= px < 1200,
        0 <= py < 630,
    ensures
        borders_set(pixels, y, h, n, alpha).len() == pixels.len(),
        crate::canvas::pixel_at(borders_set(pixels, y, h, n, alpha), px, py) == (if y <= py && py - y
            < h && exists|i: int| 0 <= i < n && #[trigger] border_covers(i, px) {
            (Rgb { r: 0x27, g: 0x2b, b: 0x33 }).fade(alpha)
        } else {
            crate::canvas::pixel_at(pixels, px, py)
        }),
    decreases n,
{
    if n > 0 {
        law_quotes_have_borders(pixels, y, h, (n - 1) as nat, alpha, px, py);
        let before = borders_set(pixels, y, h, (n - 1) as nat, alpha);
        let rect = Rect { x: quote_x(n - 1) as usize, y, w: 3, h };
        crate::canvas::law_rectangles_colour_what_they_cover(
            before,
            rect,
            border().fade(alpha),
            px,
            py,
        );
        assert(border_covers(n - 1, px) == (rect.x <= px && px - rect.x < rect.w));
        if exists|i: int| 0 <= i < n && #[trigger] border_covers(i, px) {
            let i = choose|i: int| 0 <= i < n && #[trigger] border_covers(i, px);
            if i < n - 1 {
                assert(0 <= i < n - 1 && border_covers(i, px));
            }
        }
        if exists|i: int| 0 <= i < n - 1 && #[trigger] border_covers(i, px) {
            let i = choose|i: int| 0 <= i < n - 1 && #[trigger] border_covers(i, px);
            assert(0 <= i < n && border_covers(i, px));
        }
    }
}

/// Whether the border of quote `i` covers a column.
pub open spec fn border_covers(i: int, px: int) -> bool {
    40 + 16 * i <= px < 43 + 16 * i
}

/// A code block has a background from column 40 to column 1160, a rule a bar of three rows in its
/// middle, and a large heading a line of one row above its lower edge, all 16 columns further right
/// for each quote around them; the page with the borders of the quotes is not changed elsewhere.
pub proof fn law_backgrounds_and_rules_are_drawn(
    glyphs: Map<u64, CachedGlyph>,
    pixels: Seq<u8>,
    line: crate::styled::LineView,
    y: usize,
    alpha: u8,
    px: int,
    py: int,
)
    requires
        pixels.len() == crate::canvas::BUFFER_LEN,
        line.spans.len() == 0,
        line.blockquote_depth <= 70,
        2 <= line.line_height,
        y + line.line_height <= 630,
        0 <= px < 1200,
        0 <= py < 630,
    ensures
        ({
            let h = line.line_height;
            let inside = 40 + 16 * line.blockquote_depth <= px < 1160;
            crate::canvas::pixel_at(line_set(glyphs, pixels, line, y, alpha), px, py) == (if inside
                && line.has_underline && py == y + h - 2 {
                (Rgb { r: 0x27, g: 0x2b, b: 0x33 }).fade(alpha)
            } else if inside && line.is_rule && y + h / 2 <= py < y + h / 2 + 3 {
                (Rgb { r: 0x27, g: 0x2b, b: 0x33 }).fade(alpha)
            } else if inside && line.is_code_block && y <= py < y + h {
                (Rgb { r: 0x0f, g: 0x14, b: 0x1b }).fade(alpha)
            } else {
                crate::canvas::pixel_at(
                    borders_set(pixels, y, h, line.blockquote_depth as nat, alpha),
                    px,
                    py,
                )
            })
        }),
{
    let h = line.line_height;
    let x = 40 + 16 * line.blockquote_depth;
    let back = wide_rect(x, y as int, h as int);
    let bar = wide_rect(x, y + h / 2, 3);
    let under = wide_rect(x, y + h - 2, 1);
    assert(quote_x(line.blockquote_depth as int) == x);
    let quoted = borders_set(pixels, y, h, line.blockquote_depth as nat, alpha);
    law_quotes_have_borders(pixels, y, h, line.blockquote_depth as nat, alpha, px, py);
    crate::canvas::law_rectangles_colour_what_they_cover(
        quoted,
        back,
        code_panel().fade(alpha),
        px,
        py,
    );
    let backed = if line.is_code_block {
        crate::canvas::filled(quoted, back, code_panel().fade(alpha))
    } else {
        quoted
    };
    crate::canvas::law_rectangles_colour_what_they_cover(
        backed,
        bar,
        border().fade(alpha),
        px,
        py,
    );
    let written = if line.is_rule {
        crate::canvas::filled(backed, bar, border().fade(alpha))
    } else {
        backed
    };
    assert(line.is_rule || spans_set(
        glyphs,
        backed,
        if line.is_code_block {
            x + 16
        } else {
            x
        },
        y,
        h,
        line.spans,
        alpha,
    ) == backed);
    crate::canvas::law_rectangles_colour_what_they_cover(
        written,
        under,
        border().fade(alpha),
        px,
        py,
    );
}

/// The line under a large heading is drawn last, and changes nothing but its one row.
pub proof fn law_underlines_are_drawn_last(
    glyphs: Map<u64, CachedGlyph>,
    pixels: Seq<u8>,
    line: crate::styled::LineView,
    y: usize,
    alpha: u8,
)
    requires
        line.has_underline,
        line.blockquote_depth <= 70,
        2 <= line.line_height,
        y + line.line_height <= 630,
    ensures
        line_set(glyphs, pixels, line, y, alpha) == crate::canvas::filled(
            line_set(
                glyphs,
                pixels,
                crate::styled::LineView { has_underline: false, ..line },
                y,
                alpha,
            ),
            Rect {
                x: (40 + 16 * line.blockquote_depth) as usize,
                y: (y + line.line_height - 2) as usize,
                w: (1120 - 16 * line.blockquote_depth) as usize,
                h: 1,
            },
            (Rgb { r: 0x27, g: 0x2b, b: 0x33 }).fade(alpha),
        ),
{
}

/// The text of a line is set on top of its borders and its background, from column 40 on, 16
/// columns further right for each quote around it and for a code block.
pub proof fn law_text_is_set_on_its_background(
    glyphs: Map<u64, CachedGlyph>,
    pixels: Seq<u8>,
    line: crate::styled::LineView,
    y: usize,
    alpha: u8,
)
    requires
        !line.is_rule,
        !line.has_underline,
    ensures
        line_set(glyphs, pixels, line, y, alpha) == spans_set(
            glyphs,
            line_set(
                glyphs,
                pixels,
                crate::styled::LineView { spans: seq![], ..line },
                y,
                alpha,
            ),
            40 + 16 * line.blockquote_depth + (if line.is_code_block {
                16int
            } else {
                0int
            }),
            y,
            line.line_height,
            line.spans,
            alpha,
        ),
{
    let bare = crate::styled::LineView { spans: seq![], ..line };
    let h = line.line_height;
    let x = quote_x(line.blockquote_depth as int);
    let quoted = borders_set(pixels, y, h, line.blockquote_depth as nat, alpha);
    let backed = if line.is_code_block {
        crate::canvas::filled(quoted, wide_rect(x, y as int, h as int), code_panel().fade(alpha))
    } else {
        quoted
    };
    assert(spans_set(
        glyphs,
        backed,
        if line.is_code_block {
            x + 16
        } else {
            x
        },
        y,
        h,
        bare.spans,
        alpha,
    ) == backed);
}

/// A span without a background is set as its text, in its size and in its colour, mixed with that
/// of the page in the measure of its opacity.
pub proof fn law_faded_spans_are_set_as_text(
    glyphs: Map<u64, CachedGlyph>,
    pixels: Seq<u8>,
    x: usize,
    y: usize,
    h: usize,
    span: crate::styled::SpanView,
    alpha: u8,
)
    requires
        !span.has_bg,
    ensures
        spans_set(glyphs, pixels, x as int, y, h, seq![span], alpha) == crate::glyphs::text_set(
            glyphs,
            pixels,
            x as int,
            span.text,
            TextSpec {
                pos: Point { x, y },
                color: Rgb {
                    r: crate::canvas::mixed(span.color.r, 0x0a, alpha),
                    g: crate::canvas::mixed(span.color.g, 0x0c, alpha),
                    b: crate::canvas::mixed(span.color.b, 0x10, alpha),
                },
                font_size: span.font_size,
                line_height: h,
                max_x: 1160,
            },
        ).0,
{
    assert(seq![span].drop_first() =~= seq![]);
    let spec = span_text(span, x as int, y, h, alpha);
    let next = crate::glyphs::text_set(glyphs, pixels, x as int, span.text, spec);
    assert(spans_set(glyphs, next.0, next.1, y, h, seq![], alpha) == next.0);
}

/// A span is set as its text, in its colour and its size; inline code has a background, three
/// columns wider than the text on either side and two rows lower than the line at either edge.
pub proof fn law_spans_are_set_as_text(
    glyphs: Map<u64, CachedGlyph>,
    pixels: Seq<u8>,
    x: usize,
    y: usize,
    h: usize,
    span: crate::styled::SpanView,
    px: int,
    py: int,
)
    requires
        pixels.len() == crate::canvas::BUFFER_LEN,
        3 <= x,
        x + crate::glyphs::text_width(glyphs, span.text, span.font_size) + 6 <= usize::MAX,
        4 <= h,
        y + h <= 630,
        0 <= px < 1200,
        0 <= py < 630,
    ensures
        ({
            let panel = span_panel(glyphs, pixels, span, x as int, y, h, 255);
            let width = crate::glyphs::text_width(glyphs, span.text, span.font_size);
            &&& spans_set(glyphs, pixels, x as int, y, h, seq![span], 255)
                == crate::glyphs::text_set(
                glyphs,
                panel,
                x as int,
                span.text,
                TextSpec {
                    pos: Point { x, y },
                    color: span.color,
                    font_size: span.font_size,
                    line_height: h,
                    max_x: 1160,
                },
            ).0
            &&& crate::canvas::pixel_at(panel, px, py) == (if span.has_bg && x - 3 <= px < x + width
                + 3 && y + 2 <= py < y + h - 2 {
                Rgb { r: 0x16, g: 0x1b, b: 0x22 }
            } else {
                crate::canvas::pixel_at(pixels, px, py)
            })
        }),
{
    crate::canvas::law_fading_ends(span.color);
    crate::canvas::law_fading_ends(inline_panel());
    crate::glyphs::lemma_width_is_counted(glyphs, span.text, span.font_size);
    let panel = span_panel(glyphs, pixels, span, x as int, y, h, 255);
    let width = crate::glyphs::text_width(glyphs, span.text, span.font_size);
    assert(seq![span].drop_first() =~= seq![]);
    let spec = span_text(span, x as int, y, h, 255);
    let next = crate::glyphs::text_set(glyphs, panel, x as int, span.text, spec);
    assert(spans_set(glyphs, next.0, next.1, y, h, seq![], 255) == next.0);
    let rect = Rect {
        x: (x - 3) as usize,
        y: (y + 2) as usize,
        w: (width + 6) as usize,
        h: (h - 4) as usize,
    };
    crate::canvas::law_rectangles_colour_what_they_cover(
        pixels,
        rect,
        inline_panel(),
        px,
        py,
    );
}

proof fn lemma_lines_before_the_last_three(
    glyphs: Map<u64, CachedGlyph>,
    lines: Seq<crate::styled::LineView>,
    count: int,
    n: nat,
)
    requires
        n + 3 <= count <= lines.len(),
        32 + lines_height(lines.take(count)) <= 598,
    ensures
        lines_set(glyphs, lines, count, n) == markdown_picture(glyphs, lines.take(n as int)),
        32 + lines_height(lines.take(n as int)) <= 598,
    decreases n,
{
    lemma_heights_grow(lines, n as int, count);
    let start = lines.take(n as int);
    lemma_all_visible(start, 32);
    if n > 0 {
        lemma_lines_before_the_last_three(glyphs, lines, count, (n - 1) as nat);
        assert(start.drop_last() =~= lines.take(n - 1));
        assert(start =~= lines.take(n - 1).push(lines[n - 1]));
        lemma_top_is_height(lines, (n - 1) as nat);
        law_markdown_lines_stand_below_each_other(glyphs, lines.take(n - 1), lines[n - 1]);
    } else {
        assert(start =~= seq![]);
    }
}

proof fn lemma_heights_grow(lines: Seq<crate::styled::LineView>, n: int, m: int)
    requires
        0 <= n <= m <= lines.len(),
    ensures
        lines_height(lines.take(n)) <= lines_height(lines.take(m)),
    decreases m - n,
{
    if n < m {
        lemma_heights_grow(lines, n, m - 1);
        assert(lines.take(m).drop_last() =~= lines.take(m - 1));
    }
}

/// Where not all lines of markdown fit, the last three that do fade out and dots stand below them;
/// the lines before are drawn as if nothing followed.
pub proof fn law_longer_markdown_fades_out(
    glyphs: Map<u64, CachedGlyph>,
    lines: Seq<crate::styled::LineView>,
)
    requires
        3 <= visible_lines(lines, 32) < lines.len(),
    ensures
        ({
            let n = visible_lines(lines, 32);
            let top = |k: int| (32 + lines_height(lines.take(k))) as usize;
            let p = markdown_picture(glyphs, lines.take(n - 3));
            let a = line_set(glyphs, p, lines[n - 3], top(n - 3), 200);
            let b = line_set(glyphs, a, lines[n - 2], top(n - 2), 140);
            let c = line_set(glyphs, b, lines[n - 1], top(n - 1), 80);
            markdown_picture(glyphs, lines) == crate::glyphs::plain_set(
                glyphs,
                c,
                "..."@,
                Point { x: 40, y: top(n) },
                Rgb { r: 0x9e, g: 0xa7, b: 0xb3 },
            ).0
        }),
{
    let n = visible_lines(lines, 32);
    law_lines_are_drawn_while_they_fit(lines, 32);
    lemma_lines_before_the_last_three(glyphs, lines, n, (n - 3) as nat);
    lemma_top_is_height(lines, (n - 3) as nat);
    lemma_top_is_height(lines, (n - 2) as nat);
    lemma_top_is_height(lines, (n - 1) as nat);
    lemma_top_is_height(lines, n as nat);
    assert(lines_set(glyphs, lines, n, (n - 2) as nat) == line_set(
        glyphs,
        lines_set(glyphs, lines, n, (n - 3) as nat),
        lines[n - 3],
        line_top(lines, (n - 3) as nat) as usize,
        200,
    ));
    assert(lines_set(glyphs, lines, n, (n - 1) as nat) == line_set(
        glyphs,
        lines_set(glyphs, lines, n, (n - 2) as nat),
        lines[n - 2],
        line_top(lines, (n - 2) as nat) as usize,
        140,
    ));
    assert(lines_set(glyphs, lines, n, n as nat) == line_set(
        glyphs,
        lines_set(glyphs, lines, n, (n - 1) as nat),
        lines[n - 1],
        line_top(lines, (n - 1) as nat) as usize,
        80,
    ));
}

/// The file of a preview is a PNG file of 1200 by 630 pixels, opaque and with eight bits for each of
/// red, green and blue, of what the preview shows.
pub proof fn law_files_show_their_plan(
    glyphs: Map<u64, CachedGlyph>,
    plan: crate::preview::PlanView,
)
    ensures
        preview_file(plan_picture(glyphs, plan)) == png_file(
            match plan {
                crate::preview::PlanView::Blank => crate::canvas::blank_pixels(),
                crate::preview::PlanView::Code { rows, has_more } => code_picture(
                    glyphs,
                    rows,
                    has_more,
                ),
                crate::preview::PlanView::Markdown { lines } => markdown_picture(glyphs, lines),
            },
            1200,
            630,
            PngFormat { color_type: 2, bit_depth: 8, compression: PngCompression::Fastest },
        ),
{
}

} // verus!
