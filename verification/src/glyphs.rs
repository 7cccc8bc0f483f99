//! Text in a preview: cached glyphs, how wide a text is, and how it is drawn.

use std::collections::HashMap;

use vstd::prelude::*;
use vstd::std_specs::hash::*;
use vstd::std_specs::iter::*;
use vstd::string::*;
use crate::canvas::{draw_glyph, CachedGlyph, Point, Rgb, WIDTH};

verus! {

broadcast use vstd::std_specs::hash::group_hash_axioms;

/// The sizes in which text is set.
#[derive(Clone, Copy, PartialEq, Eq, Structural)]
pub enum FontSize {
    Base,
    H1,
    H2,
    H3,
    Code,
}

impl FontSize {
    /// A number for each size.
    pub open spec fn code(self) -> u64 {
        match self {
            FontSize::Base => 0,
            FontSize::H1 => 1,
            FontSize::H2 => 2,
            FontSize::H3 => 3,
            FontSize::Code => 4,
        }
    }

    fn to_code(self) -> (r: u64)
        ensures
            r == self.code(),
    {
        match self {
            FontSize::Base => 0,
            FontSize::H1 => 1,
            FontSize::H2 => 2,
            FontSize::H3 => 3,
            FontSize::Code => 4,
        }
    }

    /// The size in tenths of a pixel: 14 for plain text, 28, 21 and 17.5 for the first three
    /// levels of headings, 12 for code.
    pub fn tenths(self) -> (r: u32)
        ensures
            r == (match self {
                FontSize::Base => 140u32,
                FontSize::H1 => 280u32,
                FontSize::H2 => 210u32,
                FontSize::H3 => 175u32,
                FontSize::Code => 120u32,
            }),
    {
        match self {
            FontSize::Base => 140,
            FontSize::H1 => 280,
            FontSize::H2 => 210,
            FontSize::H3 => 175,
            FontSize::Code => 120,
        }
    }
}

/// The height of a line of plain text.
pub const LINE_HEIGHT: usize = 22;

/// The space left free at the sides of a listing.
pub const PADDING_X: usize = 16;

/// Columns that a tab takes, in spaces.
pub const TAB_WIDTH: usize = 4;

/// The number of glyphs above which the cache starts over.
pub const GLYPH_CACHE_MAX_GLYPHS: usize = 4096;

/// The number under which the glyph of a character in a size is cached.
pub open spec fn glyph_key(ch: char, size: FontSize) -> u64 {
    (ch as u64 * 8 + size.code()) as u64
}

fn key_of(ch: char, size: FontSize) -> (r: u64)
    ensures
        r == glyph_key(ch, size),
{
    ch as u64 * 8 + size.to_code()
}

/// No two characters, and no two sizes of a character, share a cached glyph.
pub proof fn law_glyph_keys_are_distinct(a: char, s: FontSize, b: char, t: FontSize)
    requires
        glyph_key(a, s) == glyph_key(b, t),
    ensures
        a == b,
        s == t,
{
}

/// The rasterized glyphs, kept across previews.
pub struct GlyphCache {
    glyphs: HashMap<u64, CachedGlyph>,
}

impl View for GlyphCache {
    type V = Map<u64, CachedGlyph>;

    closed spec fn view(&self) -> Map<u64, CachedGlyph> {
        self.glyphs@
    }
}

/// Every cached glyph is well formed.
pub open spec fn glyphs_wf(glyphs: Map<u64, CachedGlyph>) -> bool {
    forall|k: u64| #[trigger] glyphs.contains_key(k) ==> glyphs[k].wf()
}

/// Whether the glyph of `ch` is there.
pub open spec fn has_glyph(glyphs: Map<u64, CachedGlyph>, ch: char, size: FontSize) -> bool {
    glyphs.contains_key(glyph_key(ch, size))
}

/// The glyph of `ch`.
pub open spec fn glyph_of(glyphs: Map<u64, CachedGlyph>, ch: char, size: FontSize) -> CachedGlyph {
    glyphs[glyph_key(ch, size)]
}

/// Whether setting `text` reads the glyph of `ch`: every character but the tab, and the space,
/// whose width a tab takes.
pub open spec fn needs_glyph(text: Seq<char>, ch: char) -> bool {
    ch == ' ' || (ch != '\t' && text.contains(ch))
}

/// Whether all the glyphs that `text` needs are there.
pub open spec fn ready(glyphs: Map<u64, CachedGlyph>, text: Seq<char>, size: FontSize) -> bool {
    forall|ch: char| #[trigger] needs_glyph(text, ch) ==> has_glyph(glyphs, ch, size)
}

/// Some glyphs, with more of them added; of several for one character and size the first counts.
pub open spec fn with_glyphs(
    glyphs: Map<u64, CachedGlyph>,
    more: Seq<(char, FontSize, CachedGlyph)>,
) -> Map<u64, CachedGlyph>
    decreases more.len(),
{
    if more.len() == 0 {
        glyphs
    } else {
        let (ch, size, glyph) = more[0];
        with_glyphs(glyphs, more.drop_first()).insert(glyph_key(ch, size), glyph)
    }
}

impl GlyphCache {
    /// A cache without glyphs.
    pub fn new() -> (r: GlyphCache)
        ensures
            r@ == Map::<u64, CachedGlyph>::empty(),
            glyphs_wf(r@),
    {
        GlyphCache { glyphs: HashMap::new() }
    }

    /// Starts over when more than [`GLYPH_CACHE_MAX_GLYPHS`] glyphs are cached.
    pub fn limit(&mut self)
        requires
            glyphs_wf(old(self)@),
        ensures
            glyphs_wf(final(self)@),
            final(self)@ == (if old(self)@.len() > GLYPH_CACHE_MAX_GLYPHS {
                Map::<u64, CachedGlyph>::empty()
            } else {
                old(self)@
            }),
    {
        if self.glyphs.len() > GLYPH_CACHE_MAX_GLYPHS {
            self.glyphs.clear();
        }
    }

    /// Caches the glyph of a character in a size.
    pub fn insert(&mut self, ch: char, size: FontSize, glyph: CachedGlyph)
        requires
            glyphs_wf(old(self)@),
            glyph.wf(),
        ensures
            glyphs_wf(final(self)@),
            final(self)@ == old(self)@.insert(glyph_key(ch, size), glyph),
    {
        self.glyphs.insert(key_of(ch, size), glyph);
    }

    /// Caches some glyphs; of several for one character and size the first counts.
    pub fn insert_all(&mut self, more: Vec<(char, FontSize, CachedGlyph)>)
        requires
            glyphs_wf(old(self)@),
            forall|i: int| 0 <= i < more@.len() ==> (#[trigger] more@[i]).2.wf(),
        ensures
            glyphs_wf(final(self)@),
            final(self)@ == with_glyphs(old(self)@, more@),
    {
        let ghost before = self@;
        let ghost all = more@;
        let mut rest: Vec<(char, FontSize, CachedGlyph)> = more;
        assert(all.take(all.len() as int) =~= all);
        assert(all.skip(all.len() as int) =~= seq![]);
        while rest.len() > 0
            invariant
                rest@.len() <= all.len(),
                rest@ == all.take(rest@.len() as int),
                forall|i: int| 0 <= i < all.len() ==> (#[trigger] all[i]).2.wf(),
                glyphs_wf(self@),
                self@ == with_glyphs(before, all.skip(rest@.len() as int)),
            decreases rest@.len(),
        {
            let ghost n = rest@.len() as int;
            assert(rest@.last() == all[n - 1]);
            assert(all.skip(n - 1).drop_first() =~= all.skip(n));
            assert(all.take(n).drop_last() =~= all.take(n - 1));
            if let Some((ch, size, glyph)) = rest.pop() {
                self.insert(ch, size, glyph);
            }
        }
        assert(all.skip(0) =~= all);
    }

    /// Whether the glyph of a character is cached.
    pub fn contains(&self, ch: char, size: FontSize) -> (r: bool)
        ensures
            r == has_glyph(self@, ch, size),
    {
        self.glyphs.contains_key(&key_of(ch, size))
    }

    /// The cached glyph of a character.
    pub fn glyph(&self, ch: char, size: FontSize) -> (r: Option<&CachedGlyph>)
        ensures
            r matches Some(g) ==> has_glyph(self@, ch, size) && *g == glyph_of(self@, ch, size),
            r is None ==> !has_glyph(self@, ch, size),
    {
        self.glyphs.get(&key_of(ch, size))
    }

    /// The characters whose glyphs `text` still needs, each once.
    pub fn missing(&self, text: &str, size: FontSize) -> (r: Vec<char>)
        ensures
            r@.no_duplicates(),
            forall|ch: char| #[trigger]
                r@.contains(ch) <==> needs_glyph(text@, ch) && !has_glyph(self@, ch, size),
    {
        let mut out: Vec<char> = Vec::new();
        if !self.contains(' ', size) {
            out.push(' ');
            assert(out@[0] == ' ');
        }
        assert(text@.skip(0) =~= text@);
        assert(text@.take(0) =~= Seq::<char>::empty());
        assert forall|ch: char| #[trigger] out@.contains(ch) <==> needs_glyph(text@.take(0), ch)
            && !has_glyph(self@, ch, size) by {}
        let mut it = text.chars();
        let ghost mut n: int = 0;
        loop
            invariant
                0 <= n <= text@.len(),
                IteratorSpec::remaining(&it) == text@.skip(n),
                out@.no_duplicates(),
                forall|ch: char| #[trigger]
                    out@.contains(ch) <==> needs_glyph(text@.take(n), ch) && !has_glyph(
                        self@,
                        ch,
                        size,
                    ),
            decreases text@.len() - n,
        {
            match it.next() {
                None => {
                    assert(text@.take(n) =~= text@);
                    return out;
                },
                Some(c) => {
                    let ghost before = out@;
                    proof {
                        assert(c == text@[n]);
                        assert(text@.skip(n).drop_first() =~= text@.skip(n + 1));
                        assert(text@.take(n + 1) =~= text@.take(n).push(c));
                    }
                    if c != '\t' && !self.contains(c, size) && !holds_char(&out, c) {
                        out.push(c);
                    }
                    proof {
                        assert forall|ch: char| #[trigger] out@.contains(ch) <==> needs_glyph(
                            text@.take(n + 1),
                            ch,
                        ) && !has_glyph(self@, ch, size) by {
                            lemma_push_contains(text@.take(n), c, ch);
                            if out@ != before {
                                lemma_push_contains(before, c, ch);
                            }
                            assert(before.contains(ch) <==> needs_glyph(text@.take(n), ch)
                                && !has_glyph(self@, ch, size));
                        }
                        n = n + 1;
                    }
                },
            }
        }
    }
}

proof fn lemma_push_contains(s: Seq<char>, c: char, ch: char)
    ensures
        s.push(c).contains(ch) <==> s.contains(ch) || ch == c,
{
    if s.contains(ch) {
        let i = choose|i: int| 0 <= i < s.len() && s[i] == ch;
        assert(s.push(c)[i] == ch);
    }
    assert(s.push(c)[s.len() as int] == c);
    if s.push(c).contains(ch) && ch != c {
        let i = choose|i: int| 0 <= i < s.push(c).len() && s.push(c)[i] == ch;
        assert(s[i] == ch);
    }
}

fn holds_char(v: &Vec<char>, c: char) -> (r: bool)
    ensures
        r == v@.contains(c),
{
    let mut i: usize = 0;
    while i < v.len()
        invariant
            i <= v@.len(),
            forall|j: int| 0 <= j < i ==> v@[j] != c,
        decreases v@.len() - i,
    {
        if v[i] == c {
            return true;
        }
        i = i + 1;
    }
    false
}

/// The cursor moved by `step`; it stops at the largest column that can be counted.
pub open spec fn moved(cursor: int, step: int) -> int {
    if cursor + step > usize::MAX {
        usize::MAX as int
    } else {
        cursor + step
    }
}

/// How far a character moves the cursor: a tab by the width of [`TAB_WIDTH`] spaces.
pub open spec fn advance(glyphs: Map<u64, CachedGlyph>, ch: char, size: FontSize) -> int {
    if ch == '\t' {
        moved(0, glyph_of(glyphs, ' ', size).advance_width * TAB_WIDTH)
    } else {
        glyph_of(glyphs, ch, size).advance_width as int
    }
}

/// The width of a text.
pub open spec fn text_width(glyphs: Map<u64, CachedGlyph>, text: Seq<char>, size: FontSize) -> int
    decreases text.len(),
{
    if text.len() == 0 {
        0
    } else {
        moved(text_width(glyphs, text.drop_last(), size), advance(glyphs, text.last(), size))
    }
}

/// Measures a text whose glyphs are cached.
pub fn measure_text_width(cache: &GlyphCache, text: &str, size: FontSize) -> (r: usize)
    requires
        ready(cache@, text@, size),
    ensures
        r == text_width(cache@, text@, size),
{
    let mut width: usize = 0;
    let mut it = text.chars();
    let ghost mut n: int = 0;
    assert(text@.skip(0) =~= text@);
    assert(text@.take(0) =~= Seq::<char>::empty());
    loop
        invariant
            0 <= n <= text@.len(),
            IteratorSpec::remaining(&it) == text@.skip(n),
            ready(cache@, text@, size),
            width == text_width(cache@, text@.take(n), size),
        decreases text@.len() - n,
    {
        match it.next() {
            None => {
                assert(text@.take(n) =~= text@);
                return width;
            },
            Some(c) => {
                proof {
                    assert(c == text@[n]);
                    assert(text@.contains(c));
                    assert(needs_glyph(text@, ' '));
                    assert(needs_glyph(text@, c) || c == '\t');
                    assert(text@.skip(n).drop_first() =~= text@.skip(n + 1));
                    assert(text@.take(n + 1).drop_last() =~= text@.take(n));
                    n = n + 1;
                }
                width = width.saturating_add(glyph_advance(cache, c, size));
            },
        }
    }
}

/// How far a character whose glyph is cached moves the cursor.
pub fn glyph_advance(cache: &GlyphCache, ch: char, size: FontSize) -> (r: usize)
    requires
        has_glyph(cache@, if ch == '\t' { ' ' } else { ch }, size),
    ensures
        r == advance(cache@, ch, size),
{
    let read: char = if ch == '\t' {
        ' '
    } else {
        ch
    };
    match cache.glyph(read, size) {
        Some(glyph) => if ch == '\t' {
            match glyph.advance_width.checked_mul(TAB_WIDTH) {
                Some(step) => step,
                None => usize::MAX,
            }
        } else {
            glyph.advance_width
        },
        None => 0,
    }
}

/// Where and how a text is set.
#[derive(Clone, Copy)]
pub struct TextSpec {
    pub pos: Point,
    pub color: Rgb,
    pub font_size: FontSize,
    pub line_height: usize,
    /// The column from which on nothing is drawn.
    pub max_x: usize,
}

/// The picture and the cursor after a text was set at `cursor`.
///
/// A tab only moves the cursor. Any other character is drawn and moves the cursor, unless the
/// cursor has reached the last column: then the text ends there.
pub open spec fn text_set(
    glyphs: Map<u64, CachedGlyph>,
    pixels: Seq<u8>,
    cursor: int,
    text: Seq<char>,
    spec: TextSpec,
) -> (Seq<u8>, int)
    decreases text.len(),
{
    if text.len() == 0 {
        (pixels, cursor)
    } else {
        let ch = text[0];
        let next = moved(cursor, advance(glyphs, ch, spec.font_size));
        if ch == '\t' {
            text_set(glyphs, pixels, next, text.drop_first(), spec)
        } else if cursor >= spec.max_x {
            (pixels, cursor)
        } else {
            let glyph = glyph_of(glyphs, ch, spec.font_size);
            let painted = crate::canvas::drawn(
                pixels,
                glyph,
                Point { x: cursor as usize, y: spec.pos.y },
                spec.line_height,
                spec.color,
            );
            text_set(glyphs, painted, next, text.drop_first(), spec)
        }
    }
}

/// Sets a text whose glyphs are cached and returns the cursor after it.
pub fn render_text_sized(
    pixels: &mut Vec<u8>,
    cache: &GlyphCache,
    text: &str,
    spec: TextSpec,
) -> (r: usize)
    requires
        old(pixels)@.len() == crate::canvas::BUFFER_LEN,
        glyphs_wf(cache@),
        ready(cache@, text@, spec.font_size),
        spec.max_x <= i32::MAX,
        spec.pos.y <= i32::MAX,
        spec.line_height <= i32::MAX,
    ensures
        (final(pixels)@, r as int) == text_set(
            cache@,
            old(pixels)@,
            spec.pos.x as int,
            text@,
            spec,
        ),
        final(pixels)@.len() == crate::canvas::BUFFER_LEN,
{
    let mut cursor_x: usize = spec.pos.x;
    let mut it = text.chars();
    let ghost mut n: int = 0;
    let ghost goal = text_set(cache@, pixels@, spec.pos.x as int, text@, spec);
    assert(text@.skip(0) =~= text@);
    loop
        invariant
            0 <= n <= text@.len(),
            IteratorSpec::remaining(&it) == text@.skip(n),
            pixels@.len() == crate::canvas::BUFFER_LEN,
            glyphs_wf(cache@),
            ready(cache@, text@, spec.font_size),
            spec.max_x <= i32::MAX,
            spec.pos.y <= i32::MAX,
            spec.line_height <= i32::MAX,
            goal == text_set(cache@, old(pixels)@, spec.pos.x as int, text@, spec),
            goal == text_set(cache@, pixels@, cursor_x as int, text@.skip(n), spec),
        decreases text@.len() - n,
    {
        match it.next() {
            None => {
                return cursor_x;
            },
            Some(ch) => {
                proof {
                    assert(ch == text@[n]);
                    assert(text@.contains(ch));
                    assert(needs_glyph(text@, ' '));
                    assert(needs_glyph(text@, ch) || ch == '\t');
                    assert(text@.skip(n).drop_first() =~= text@.skip(n + 1));
                    n = n + 1;
                }
                if ch == '\t' {
                    cursor_x = cursor_x.saturating_add(glyph_advance(cache, ch, spec.font_size));
                } else {
                    if cursor_x >= spec.max_x {
                        return cursor_x;
                    }
                    match cache.glyph(ch, spec.font_size) {
                        Some(glyph) => {
                            draw_glyph(
                                pixels,
                                glyph,
                                Point { x: cursor_x, y: spec.pos.y },
                                spec.line_height,
                                spec.color,
                            );
                            cursor_x = cursor_x.saturating_add(glyph.advance_width);
                        },
                        None => {
                            assert(false);
                        },
                    }
                }
            },
        }
    }
}

/// How plain text is set.
pub open spec fn plain_text(pos: Point, color: Rgb) -> TextSpec {
    TextSpec {
        pos,
        color,
        font_size: FontSize::Base,
        line_height: LINE_HEIGHT,
        max_x: (WIDTH - PADDING_X) as usize,
    }
}

/// The picture after plain text was set, and the cursor after it.
pub open spec fn plain_set(
    glyphs: Map<u64, CachedGlyph>,
    pixels: Seq<u8>,
    text: Seq<char>,
    pos: Point,
    color: Rgb,
) -> (Seq<u8>, int) {
    text_set(glyphs, pixels, pos.x as int, text, plain_text(pos, color))
}

/// Sets plain text and returns the cursor after it.
pub fn render_text(
    pixels: &mut Vec<u8>,
    cache: &GlyphCache,
    text: &str,
    pos: Point,
    color: Rgb,
) -> (r: usize)
    requires
        old(pixels)@.len() == crate::canvas::BUFFER_LEN,
        glyphs_wf(cache@),
        ready(cache@, text@, FontSize::Base),
        pos.y <= i32::MAX,
    ensures
        (final(pixels)@, r as int) == plain_set(cache@, old(pixels)@, text@, pos, color),
        final(pixels)@.len() == crate::canvas::BUFFER_LEN,
{
    render_text_sized(
        pixels,
        cache,
        text,
        TextSpec {
            pos,
            color,
            font_size: FontSize::Base,
            line_height: LINE_HEIGHT,
            max_x: WIDTH - PADDING_X,
        },
    )
}

/// Where plain text starts that ends at `pos`.
pub open spec fn right_aligned(glyphs: Map<u64, CachedGlyph>, text: Seq<char>, pos: Point) -> Point {
    let width = text_width(glyphs, text, FontSize::Base);
    Point {
        x: (if width > pos.x {
            0
        } else {
            pos.x - width
        }) as usize,
        y: pos.y,
    }
}

/// Sets plain text so that it ends at `pos`.
pub fn render_text_right_aligned(
    pixels: &mut Vec<u8>,
    cache: &GlyphCache,
    text: &str,
    pos: Point,
    color: Rgb,
)
    requires
        old(pixels)@.len() == crate::canvas::BUFFER_LEN,
        glyphs_wf(cache@),
        ready(cache@, text@, FontSize::Base),
        pos.y <= i32::MAX,
    ensures
        final(pixels)@ == plain_set(
            cache@,
            old(pixels)@,
            text@,
            right_aligned(cache@, text@, pos),
            color,
        ).0,
        final(pixels)@.len() == crate::canvas::BUFFER_LEN,
{
    let total_width: usize = measure_text_width(cache, text, FontSize::Base);
    let start_x: usize = pos.x.saturating_sub(total_width);
    render_text(pixels, cache, text, Point { x: start_x, y: pos.y }, color);
}

/// The glyphs that two caches share.
pub open spec fn shared(a: Map<u64, CachedGlyph>, b: Map<u64, CachedGlyph>) -> Map<
    u64,
    CachedGlyph,
> {
    a.restrict(a.dom().intersect(b.dom()).filter(|k: u64| a[k].looks_like(b[k])))
}

proof fn lemma_shared(
    a: Map<u64, CachedGlyph>,
    b: Map<u64, CachedGlyph>,
    text: Seq<char>,
    ch: char,
    size: FontSize,
)
    requires
        ready(shared(a, b), text, size),
        text.contains(ch),
    ensures
        advance(a, ch, size) == advance(b, ch, size),
        ch != '\t' ==> glyph_of(a, ch, size).looks_like(glyph_of(b, ch, size)),
{
    assert(needs_glyph(text, ' '));
    assert(has_glyph(shared(a, b), ' ', size));
    assert(needs_glyph(text, ch) || ch == '\t');
    assert(ch != '\t' ==> has_glyph(shared(a, b), ch, size));
}

proof fn lemma_ready_part(
    glyphs: Map<u64, CachedGlyph>,
    text: Seq<char>,
    from: int,
    to: int,
    size: FontSize,
)
    requires
        ready(glyphs, text, size),
        0 <= from <= to <= text.len(),
    ensures
        ready(glyphs, text.subrange(from, to), size),
{
    let part = text.subrange(from, to);
    assert forall|ch: char| #[trigger] needs_glyph(part, ch) implies has_glyph(glyphs, ch, size) by {
        if ch != ' ' {
            let i = choose|i: int| 0 <= i < part.len() && part[i] == ch;
            assert(text[from + i] == ch);
        }
        assert(needs_glyph(text, ch));
    }
}

/// A text is as wide in one cache as in another with the same glyphs for it.
pub proof fn lemma_same_width(
    a: Map<u64, CachedGlyph>,
    b: Map<u64, CachedGlyph>,
    text: Seq<char>,
    size: FontSize,
)
    requires
        ready(shared(a, b), text, size),
    ensures
        text_width(a, text, size) == text_width(b, text, size),
    decreases text.len(),
{
    if text.len() > 0 {
        lemma_ready_part(shared(a, b), text, 0, text.len() - 1, size);
        assert(text.subrange(0, text.len() - 1) =~= text.drop_last());
        lemma_same_width(a, b, text.drop_last(), size);
        assert(text.contains(text.last()));
        lemma_shared(a, b, text, text.last(), size);
    }
}

/// A text is set with one cache as with another with the same glyphs for it.
pub proof fn lemma_same_text(
    a: Map<u64, CachedGlyph>,
    b: Map<u64, CachedGlyph>,
    pixels: Seq<u8>,
    cursor: int,
    text: Seq<char>,
    spec: TextSpec,
)
    requires
        ready(shared(a, b), text, spec.font_size),
    ensures
        text_set(a, pixels, cursor, text, spec) == text_set(b, pixels, cursor, text, spec),
    decreases text.len(),
{
    if text.len() > 0 {
        let size = spec.font_size;
        let ch = text[0];
        assert(text.contains(ch));
        lemma_shared(a, b, text, ch, size);
        lemma_ready_part(shared(a, b), text, 1, text.len() as int, size);
        assert(text.subrange(1, text.len() as int) =~= text.drop_first());
        let next = moved(cursor, advance(a, ch, size));
        if ch == '\t' {
            lemma_same_text(a, b, pixels, next, text.drop_first(), spec);
        } else if cursor < spec.max_x {
            let pos = Point { x: cursor as usize, y: spec.pos.y };
            let one = glyph_of(a, ch, size);
            let other = glyph_of(b, ch, size);
            let painted = crate::canvas::drawn(pixels, one, pos, spec.line_height, spec.color);
            assert forall|gx: int, gy: int| #[trigger]
                one.coverage(gx, gy) == other.coverage(gx, gy) by {}
            assert(painted =~= crate::canvas::drawn(
                pixels,
                other,
                pos,
                spec.line_height,
                spec.color,
            ));
            lemma_same_text(a, b, painted, next, text.drop_first(), spec);
        }
    }
}

/// The width of a text can be counted.
pub proof fn lemma_width_is_counted(glyphs: Map<u64, CachedGlyph>, text: Seq<char>, size: FontSize)
    ensures
        0 <= text_width(glyphs, text, size) <= usize::MAX,
    decreases text.len(),
{
    if text.len() > 0 {
        lemma_width_is_counted(glyphs, text.drop_last(), size);
    }
}

/// The width of a text is that of its parts together, as far as it can be counted: a text in two
/// parts is as wide as both, a character as its glyph moves the cursor, and a tab as four spaces.
pub proof fn law_widths_add_up(
    glyphs: Map<u64, CachedGlyph>,
    a: Seq<char>,
    b: Seq<char>,
    c: char,
    size: FontSize,
)
    ensures
        text_width(glyphs, seq![], size) == 0,
        text_width(glyphs, a + b, size) == (if text_width(glyphs, a, size) + text_width(
            glyphs,
            b,
            size,
        ) <= usize::MAX {
            text_width(glyphs, a, size) + text_width(glyphs, b, size)
        } else {
            usize::MAX as int
        }),
        c != '\t' ==> text_width(glyphs, seq![c], size) == glyph_of(glyphs, c, size).advance_width,
        text_width(glyphs, seq!['\t'], size) == text_width(
            glyphs,
            seq![' ', ' ', ' ', ' '],
            size,
        ),
    decreases b.len(),
{
    lemma_width_is_counted(glyphs, a, size);
    lemma_width_is_counted(glyphs, b, size);
    if b.len() == 0 {
        assert(a + b =~= a);
    } else {
        law_widths_add_up(glyphs, a, b.drop_last(), c, size);
        lemma_width_is_counted(glyphs, b.drop_last(), size);
        assert((a + b).drop_last() =~= a + b.drop_last());
        assert((a + b).last() == b.last());
    }
    assert(text_width(glyphs, seq![], size) == 0);
    assert(seq![c].drop_last() =~= seq![]);
    assert(seq!['\t'].drop_last() =~= seq![]);
    assert(seq![' '].drop_last() =~= seq![]);
    assert(seq![' '].last() == ' ');
    assert(seq![' ', ' '].drop_last() =~= seq![' ']);
    assert(seq![' ', ' ', ' '].drop_last() =~= seq![' ', ' ']);
    assert(seq![' ', ' ', ' ', ' '].drop_last() =~= seq![' ', ' ', ' ']);
    assert(text_width(glyphs, seq![' '], size) == moved(0, advance(glyphs, ' ', size)));
    assert(text_width(glyphs, seq![' ', ' '], size) == moved(
        text_width(glyphs, seq![' '], size),
        advance(glyphs, ' ', size),
    ));
    assert(text_width(glyphs, seq![' ', ' ', ' '], size) == moved(
        text_width(glyphs, seq![' ', ' '], size),
        advance(glyphs, ' ', size),
    ));
    assert(text_width(glyphs, seq![' ', ' ', ' ', ' '], size) == moved(
        text_width(glyphs, seq![' ', ' ', ' '], size),
        advance(glyphs, ' ', size),
    ));
}

/// Text that starts at the margin or right of it is not seen.
pub proof fn law_nothing_is_set_in_the_margin(
    glyphs: Map<u64, CachedGlyph>,
    pixels: Seq<u8>,
    cursor: int,
    text: Seq<char>,
    spec: TextSpec,
)
    requires
        cursor >= spec.max_x,
    ensures
        text_set(glyphs, pixels, cursor, text, spec).0 == pixels,
    decreases text.len(),
{
    if text.len() > 0 && text[0] == '\t' {
        let next = moved(cursor, advance(glyphs, '\t', spec.font_size));
        law_nothing_is_set_in_the_margin(glyphs, pixels, next, text.drop_first(), spec);
    }
}

/// Setting a text in two parts is setting it whole: the second part starts where the first one
/// ended.
pub proof fn law_text_is_set_in_parts(
    glyphs: Map<u64, CachedGlyph>,
    pixels: Seq<u8>,
    cursor: int,
    a: Seq<char>,
    b: Seq<char>,
    spec: TextSpec,
)
    ensures
        ({
            let first = text_set(glyphs, pixels, cursor, a, spec);
            text_set(glyphs, pixels, cursor, a + b, spec).0 == text_set(
                glyphs,
                first.0,
                first.1,
                b,
                spec,
            ).0
        }),
    decreases a.len(),
{
    if a.len() == 0 {
        assert(a + b =~= b);
    } else {
        assert((a + b).drop_first() =~= a.drop_first() + b);
        assert((a + b)[0] == a[0]);
        let next = moved(cursor, advance(glyphs, a[0], spec.font_size));
        if a[0] == '\t' {
            law_text_is_set_in_parts(glyphs, pixels, next, a.drop_first(), b, spec);
        } else if cursor >= spec.max_x {
            law_nothing_is_set_in_the_margin(glyphs, pixels, cursor, b, spec);
        } else {
            let painted = crate::canvas::drawn(
                pixels,
                glyph_of(glyphs, a[0], spec.font_size),
                Point { x: cursor as usize, y: spec.pos.y },
                spec.line_height,
                spec.color,
            );
            law_text_is_set_in_parts(glyphs, painted, next, a.drop_first(), b, spec);
        }
    }
}

/// A character is set as its glyph at the cursor; a tab is not seen. Either moves the cursor by
/// its width.
pub proof fn law_characters_are_set_as_glyphs(
    glyphs: Map<u64, CachedGlyph>,
    pixels: Seq<u8>,
    cursor: int,
    c: char,
    spec: TextSpec,
)
    requires
        0 <= cursor < spec.max_x,
        cursor + text_width(glyphs, seq![c], spec.font_size) <= usize::MAX,
    ensures
        text_set(glyphs, pixels, cursor, seq![c], spec) == (
            if c == '\t' {
                pixels
            } else {
                crate::canvas::drawn(
                    pixels,
                    glyph_of(glyphs, c, spec.font_size),
                    Point { x: cursor as usize, y: spec.pos.y },
                    spec.line_height,
                    spec.color,
                )
            },
            cursor + text_width(glyphs, seq![c], spec.font_size),
        ),
{
    assert(seq![c].drop_first() =~= seq![]);
    assert(seq![c].drop_last() =~= seq![]);
    assert(text_width(glyphs, seq![], spec.font_size) == 0);
    let next = moved(cursor, advance(glyphs, c, spec.font_size));
    let painted = crate::canvas::drawn(
        pixels,
        glyph_of(glyphs, c, spec.font_size),
        Point { x: cursor as usize, y: spec.pos.y },
        spec.line_height,
        spec.color,
    );
    assert(text_set(glyphs, pixels, next, seq![], spec) == (pixels, next));
    assert(text_set(glyphs, painted, next, seq![], spec) == (painted, next));
}

/// A text that stays left of the margin ends as far right of its start as it is wide.
pub proof fn law_text_ends_where_its_width_says(
    glyphs: Map<u64, CachedGlyph>,
    pixels: Seq<u8>,
    cursor: int,
    text: Seq<char>,
    spec: TextSpec,
)
    requires
        0 <= cursor,
        cursor + text_width(glyphs, text, spec.font_size) <= spec.max_x < usize::MAX,
    ensures
        text_set(glyphs, pixels, cursor, text, spec).1 == cursor + text_width(
            glyphs,
            text,
            spec.font_size,
        ),
    decreases text.len(),
{
    let size = spec.font_size;
    if text.len() > 0 {
        let c = text[0];
        let rest = text.drop_first();
        assert(seq![c] + rest =~= text);
        law_widths_add_up(glyphs, seq![c], rest, c, size);
        lemma_width_is_counted(glyphs, seq![c], size);
        lemma_width_is_counted(glyphs, rest, size);
        assert(seq![c].drop_last() =~= seq![]);
        assert(text_width(glyphs, seq![c], size) == moved(0, advance(glyphs, c, size)));
        let next = moved(cursor, advance(glyphs, c, size));
        assert(next == cursor + text_width(glyphs, seq![c], size));
        if c == '\t' {
            law_text_ends_where_its_width_says(glyphs, pixels, next, rest, spec);
        } else if cursor < spec.max_x {
            let painted = crate::canvas::drawn(
                pixels,
                glyph_of(glyphs, c, size),
                Point { x: cursor as usize, y: spec.pos.y },
                spec.line_height,
                spec.color,
            );
            law_text_ends_where_its_width_says(glyphs, painted, next, rest, spec);
        }
    }
}

/// Where a text is set depends on the cursor, not on the column that was meant for its start.
pub proof fn lemma_start_does_not_matter(
    glyphs: Map<u64, CachedGlyph>,
    pixels: Seq<u8>,
    cursor: int,
    text: Seq<char>,
    one: TextSpec,
    other: TextSpec,
)
    requires
        one == (TextSpec { pos: Point { x: one.pos.x, y: other.pos.y }, ..other }),
    ensures
        text_set(glyphs, pixels, cursor, text, one) == text_set(
            glyphs,
            pixels,
            cursor,
            text,
            other,
        ),
    decreases text.len(),
{
    if text.len() > 0 {
        let c = text[0];
        let next = moved(cursor, advance(glyphs, c, one.font_size));
        if c == '\t' {
            lemma_start_does_not_matter(glyphs, pixels, next, text.drop_first(), one, other);
        } else if cursor < one.max_x {
            let painted = crate::canvas::drawn(
                pixels,
                glyph_of(glyphs, c, one.font_size),
                Point { x: cursor as usize, y: one.pos.y },
                one.line_height,
                one.color,
            );
            lemma_start_does_not_matter(glyphs, painted, next, text.drop_first(), one, other);
        }
    }
}

/// Text that is aligned to the right ends where it should, as far as there is room for it left of
/// that.
pub proof fn law_aligned_text_ends_at_its_position(
    glyphs: Map<u64, CachedGlyph>,
    pixels: Seq<u8>,
    text: Seq<char>,
    pos: Point,
    color: Rgb,
)
    requires
        text_width(glyphs, text, FontSize::Base) <= pos.x <= 1184,
    ensures
        ({
            let start = right_aligned(glyphs, text, pos);
            &&& start.x + text_width(glyphs, text, FontSize::Base) == pos.x
            &&& start.y == pos.y
            &&& plain_set(glyphs, pixels, text, start, color).1 == pos.x
        }),
{
    let start = right_aligned(glyphs, text, pos);
    lemma_width_is_counted(glyphs, text, FontSize::Base);
    law_text_ends_where_its_width_says(
        glyphs,
        pixels,
        start.x as int,
        text,
        plain_text(start, color),
    );
}

} // verus!
