//! Markdown as styled lines, the form in which a preview shows it.

use pulldown_cmark::Event;
use vstd::prelude::*;
use vstd::string::*;
use crate::canvas::Rgb;
use crate::events::{event_element, event_number, event_shape, event_text, parse_document, Element, Shape};
use crate::glyphs::{FontSize, LINE_HEIGHT};
use crate::lines::{split_lines, trim_line_ending, truncate_line_bytes};
use crate::listing::format_number;
use crate::state::{resolve_syntax, AppState};
use crate::syntax::{highlight_lines, Region};
use crate::text::{first_word, split};

verus! {

/// Muted text.
pub const MUTED_R: u8 = 0x9e;

pub const MUTED_G: u8 = 0xa7;

pub const MUTED_B: u8 = 0xb3;

/// Ordinary text.
pub const FG_R: u8 = 0xf0;

pub const FG_G: u8 = 0xf3;

pub const FG_B: u8 = 0xf6;

/// Links.
pub const ACCENT_R: u8 = 0x71;

pub const ACCENT_G: u8 = 0xb7;

pub const ACCENT_B: u8 = 0xff;

/// The most bytes of a line of code that are shown.
pub const PREVIEW_MAX_LINE_BYTES: usize = 1024;

/// The number of styled lines after which no more are made.
pub const MD_PREVIEW_MAX_LINES: usize = 60;

/// The height of a line of code.
pub const CODE_LINE_HEIGHT: usize = 20;

/// The height of a horizontal rule.
pub const RULE_HEIGHT: usize = 24;

/// The colour of muted text.
pub open spec fn muted() -> Rgb {
    Rgb { r: MUTED_R, g: MUTED_G, b: MUTED_B }
}

/// The colour of ordinary text.
pub open spec fn foreground() -> Rgb {
    Rgb { r: FG_R, g: FG_G, b: FG_B }
}

/// The colour of links.
pub open spec fn accent() -> Rgb {
    Rgb { r: ACCENT_R, g: ACCENT_G, b: ACCENT_B }
}

/// A piece of text in one style.
pub struct MdSpan {
    pub text: String,
    pub color: Rgb,
    pub font_size: FontSize,
    /// Whether the span has the background of inline code.
    pub has_bg: bool,
}

/// What an [`MdSpan`] shows.
pub struct SpanView {
    pub text: Seq<char>,
    pub color: Rgb,
    pub font_size: FontSize,
    pub has_bg: bool,
}

impl View for MdSpan {
    type V = SpanView;

    open spec fn view(&self) -> SpanView {
        SpanView {
            text: self.text@,
            color: self.color,
            font_size: self.font_size,
            has_bg: self.has_bg,
        }
    }
}

/// What some spans show.
pub open spec fn span_views(v: Seq<MdSpan>) -> Seq<SpanView> {
    v.map_values(|s: MdSpan| s@)
}

/// A line of a markdown preview.
pub struct MdLine {
    pub spans: Vec<MdSpan>,
    pub line_height: usize,
    /// Whether a rule is drawn under the line, as under the larger headings.
    pub has_underline: bool,
    /// Whether the line has the background of a code block.
    pub is_code_block: bool,
    /// How many block quotes the line is in.
    pub blockquote_depth: usize,
    /// Whether the line is a horizontal rule.
    pub is_rule: bool,
}

/// What an [`MdLine`] shows.
#[verifier::ext_equal]
pub struct LineView {
    pub spans: Seq<SpanView>,
    pub line_height: usize,
    pub has_underline: bool,
    pub is_code_block: bool,
    pub blockquote_depth: usize,
    pub is_rule: bool,
}

impl View for MdLine {
    type V = LineView;

    open spec fn view(&self) -> LineView {
        LineView {
            spans: span_views(self.spans@),
            line_height: self.line_height,
            has_underline: self.has_underline,
            is_code_block: self.is_code_block,
            blockquote_depth: self.blockquote_depth,
            is_rule: self.is_rule,
        }
    }
}

/// What some lines show.
pub open spec fn line_views(v: Seq<MdLine>) -> Seq<LineView> {
    v.map_values(|l: MdLine| l@)
}

/// A span of plain text.
pub open spec fn plain_span(text: Seq<char>, color: Rgb) -> SpanView {
    SpanView { text, color, font_size: FontSize::Base, has_bg: false }
}

/// A span of inline code.
pub open spec fn inline_code(text: Seq<char>) -> SpanView {
    SpanView { text, color: foreground(), font_size: FontSize::Code, has_bg: true }
}

/// A span in a code block.
pub open spec fn block_code(text: Seq<char>, color: Rgb) -> SpanView {
    SpanView { text, color, font_size: FontSize::Code, has_bg: false }
}

/// A line of ordinary height.
pub open spec fn text_line(spans: Seq<SpanView>, depth: usize) -> LineView {
    LineView {
        spans,
        line_height: LINE_HEIGHT,
        has_underline: false,
        is_code_block: false,
        blockquote_depth: depth,
        is_rule: false,
    }
}

/// A line of a code block.
pub open spec fn code_line(spans: Seq<SpanView>, depth: usize) -> LineView {
    LineView {
        spans,
        line_height: CODE_LINE_HEIGHT,
        has_underline: false,
        is_code_block: true,
        blockquote_depth: depth,
        is_rule: false,
    }
}

/// A horizontal rule.
pub open spec fn rule_line(depth: usize) -> LineView {
    LineView {
        spans: seq![],
        line_height: RULE_HEIGHT,
        has_underline: false,
        is_code_block: false,
        blockquote_depth: depth,
        is_rule: true,
    }
}

/// The text size of a heading of the given level.
pub open spec fn heading_size(level: u8) -> FontSize {
    if level == 1 {
        FontSize::H1
    } else if level == 2 {
        FontSize::H2
    } else if level == 3 {
        FontSize::H3
    } else {
        FontSize::Base
    }
}

/// The line height of a heading of the given level.
pub open spec fn heading_height(level: u8) -> usize {
    if level == 1 {
        44
    } else if level == 2 {
        36
    } else if level == 3 {
        30
    } else {
        LINE_HEIGHT
    }
}

/// A span as it stands in a heading of the given level; headings of the lowest level are muted.
pub open spec fn heading_span(span: SpanView, level: u8) -> SpanView {
    SpanView {
        text: span.text,
        color: if level == 6 {
            muted()
        } else {
            span.color
        },
        font_size: heading_size(level),
        has_bg: span.has_bg,
    }
}

/// A heading; the two largest are underlined.
pub open spec fn heading_line(spans: Seq<SpanView>, level: u8, depth: usize) -> LineView {
    LineView {
        spans: spans.map_values(|s: SpanView| heading_span(s, level)),
        line_height: heading_height(level),
        has_underline: level <= 2,
        is_code_block: false,
        blockquote_depth: depth,
        is_rule: false,
    }
}

/// The spans of a highlighted line of code; regions without text are left out.
pub open spec fn region_spans(regions: Seq<crate::syntax::RegionView>) -> Seq<SpanView>
    decreases regions.len(),
{
    if regions.len() == 0 {
        seq![]
    } else {
        let last = regions.last();
        let text = crate::lines::line_text(last.text);
        region_spans(regions.drop_last()) + (if text.len() > 0 {
            seq![block_code(text, Rgb { r: last.r, g: last.g, b: last.b })]
        } else {
            seq![]
        })
    }
}

/// The spans of a line of code.
pub open spec fn code_spans(
    line: Seq<char>,
    regions: Option<Seq<crate::syntax::RegionView>>,
) -> Seq<SpanView> {
    match regions {
        Some(v) => region_spans(v),
        None => seq![block_code(crate::lines::line_text(line), foreground())],
    }
}

/// Lines, each cut to what a preview looks at.
pub open spec fn cut_lines(v: Seq<Seq<char>>) -> Seq<Seq<char>> {
    v.map_values(|l: Seq<char>| crate::lines::fitted(l, PREVIEW_MAX_LINE_BYTES as int))
}

/// How many lines are still made when there are `have` already.
pub open spec fn room(have: nat) -> int {
    if have > MD_PREVIEW_MAX_LINES {
        0
    } else {
        MD_PREVIEW_MAX_LINES + 1 - have
    }
}

/// The first lines of some lines, at most `n`.
pub open spec fn at_most(v: Seq<Seq<char>>, n: int) -> Seq<Seq<char>> {
    if v.len() <= n {
        v
    } else {
        v.take(n)
    }
}

/// The styled lines of a code block, where `have` lines came before it.
pub open spec fn code_block_lines(
    state: AppState,
    code: Seq<char>,
    lang: Option<Seq<char>>,
    depth: usize,
    have: nat,
) -> Seq<LineView> {
    let shown = cut_lines(at_most(crate::lines::lines(code), room(have)));
    Seq::new(
        shown.len(),
        |k: int|
            code_line(
                code_spans(
                    shown[k],
                    match state.syntax_for(lang) {
                        Some(index) => crate::syntax::line_regions(
                            state.syntax_set@,
                            index as int,
                            state.theme,
                            shown,
                            k,
                        ),
                        None => None,
                    },
                ),
                depth,
            ),
    )
}

/// What is known in the middle of a document.
#[verifier::ext_equal]
pub struct StylingView {
    /// The finished lines.
    pub lines: Seq<LineView>,
    /// The spans of the line that is not finished.
    pub spans: Seq<SpanView>,
    pub in_heading: bool,
    pub depth: usize,
    pub in_code: bool,
    pub code_lang: Option<Seq<char>>,
    pub code_text: Seq<char>,
    pub in_link: bool,
    pub list_indent: usize,
    /// The number of the next item, in an ordered list.
    pub next_number: Option<u64>,
    /// Whether a blank line comes before the next block.
    pub need_gap: bool,
}

impl StylingView {
    /// The start of a document.
    pub open spec fn start() -> StylingView {
        StylingView {
            lines: seq![],
            spans: seq![],
            in_heading: false,
            depth: 0,
            in_code: false,
            code_lang: None,
            code_text: seq![],
            in_link: false,
            list_indent: 0,
            next_number: None,
            need_gap: false,
        }
    }

    /// One more line.
    pub open spec fn with_line(self, line: LineView) -> StylingView {
        StylingView { lines: self.lines.push(line), ..self }
    }

    /// A blank line where one is due and `wanted`.
    pub open spec fn with_gap(self, wanted: bool) -> StylingView {
        if self.need_gap && wanted {
            self.with_line(text_line(seq![], 0))
        } else {
            self
        }
    }

    /// The line that is not finished, finished.
    pub open spec fn with_line_end(self) -> StylingView {
        StylingView {
            lines: self.lines.push(text_line(self.spans, self.depth)),
            spans: seq![],
            ..self
        }
    }

    /// The line that is not finished, finished if it holds anything.
    pub open spec fn with_block_end(self) -> StylingView {
        if self.spans.len() > 0 {
            self.with_line_end()
        } else {
            self
        }
    }

    /// One more span.
    pub open spec fn with_span(self, span: SpanView) -> StylingView {
        StylingView { spans: self.spans.push(span), ..self }
    }

    /// The colour of text here: links stand out, quoted text other than headings is muted.
    pub open spec fn text_color(self) -> Rgb {
        if self.in_link {
            accent()
        } else if self.depth > 0 && !self.in_heading {
            muted()
        } else {
            foreground()
        }
    }

    /// Text in one colour, its parts on lines of their own.
    pub open spec fn with_parts(self, parts: Seq<Seq<char>>, color: Rgb) -> StylingView
        decreases parts.len(),
    {
        if parts.len() == 0 {
            self
        } else {
            let before = self.with_parts(parts.drop_last(), color);
            let here = if parts.len() > 1 {
                before.with_line_end()
            } else {
                before
            };
            if parts.last().len() > 0 {
                here.with_span(plain_span(parts.last(), color))
            } else {
                here
            }
        }
    }

    /// What a list item starts with: its indentation and its number or a bullet.
    pub open spec fn bullet(self) -> Seq<char> {
        spaces(2 * (if self.list_indent > 0 {
            self.list_indent - 1
        } else {
            0
        })) + (match self.next_number {
            Some(n) => crate::listing::decimal(n as nat) + ". "@,
            None => "\u{2022} "@,
        })
    }

    /// What an event that starts an element changes.
    pub open spec fn started(self, e: crate::events::EventView) -> StylingView {
        match e.element {
            Element::Heading(_) => StylingView {
                in_heading: true,
                need_gap: false,
                spans: seq![],
                ..self.with_gap(true)
            },
            Element::Paragraph => StylingView {
                need_gap: false,
                spans: seq![],
                ..self.with_gap(true)
            },
            Element::BlockQuote => StylingView {
                depth: (self.depth + 1) as usize,
                need_gap: false,
                ..self.with_gap(self.depth == 0)
            },
            Element::CodeBlock => StylingView {
                in_code: true,
                code_lang: crate::markdown::code_language(e.text),
                code_text: seq![],
                need_gap: false,
                ..self.with_gap(true)
            },
            Element::List => StylingView {
                next_number: e.number,
                list_indent: (self.list_indent + 1) as usize,
                need_gap: false,
                ..self.with_gap(self.list_indent == 0)
            },
            Element::Item => StylingView {
                spans: seq![plain_span(self.bullet(), muted())],
                next_number: match self.next_number {
                    Some(n) => Some(
                        if n == u64::MAX {
                            n
                        } else {
                            (n + 1) as u64
                        },
                    ),
                    None => None,
                },
                ..self
            },
            Element::Link => StylingView { in_link: true, ..self },
            Element::Image => self,
            Element::Other => self,
        }
    }

    /// What an event that ends an element changes.
    pub open spec fn ended(self, state: AppState, e: crate::events::EventView) -> StylingView {
        match e.element {
            Element::Heading(level) => StylingView {
                lines: self.lines.push(heading_line(self.spans, level, self.depth)),
                spans: seq![],
                in_heading: false,
                need_gap: true,
                ..self
            },
            Element::Paragraph => StylingView { need_gap: true, ..self.with_block_end() },
            Element::BlockQuote => StylingView {
                depth: (if self.depth > 0 {
                    self.depth - 1
                } else {
                    0
                }) as usize,
                need_gap: true,
                ..self
            },
            Element::CodeBlock => StylingView {
                lines: self.lines + code_block_lines(
                    state,
                    self.code_text,
                    self.code_lang,
                    self.depth,
                    self.lines.len(),
                ),
                in_code: false,
                code_lang: None,
                need_gap: true,
                ..self
            },
            Element::List => StylingView {
                list_indent: (if self.list_indent > 0 {
                    self.list_indent - 1
                } else {
                    0
                }) as usize,
                next_number: None,
                need_gap: self.need_gap || self.list_indent <= 1,
                ..self
            },
            Element::Item => self.with_block_end(),
            Element::Link => StylingView { in_link: false, ..self },
            Element::Image => self,
            Element::Other => self,
        }
    }

    /// What an event changes.
    pub open spec fn after(self, state: AppState, e: crate::events::EventView) -> StylingView {
        match e.shape {
            Shape::Start => self.started(e),
            Shape::End => self.ended(state, e),
            Shape::Text => if self.in_code {
                StylingView { code_text: self.code_text + e.text, ..self }
            } else {
                self.with_parts(crate::text::pieces(e.text, '\n'), self.text_color())
            },
            Shape::Code => self.with_span(inline_code(e.text)),
            Shape::SoftBreak => self.with_span(plain_span(" "@, foreground())),
            Shape::HardBreak => self.with_line_end(),
            Shape::Rule => StylingView {
                need_gap: true,
                ..self.with_gap(true).with_line(rule_line(self.depth))
            },
            Shape::Html => self,
            Shape::InlineHtml => self,
            Shape::Other => self,
        }
    }

    /// What some events change; nothing more is read once there are enough lines.
    pub open spec fn after_all(self, state: AppState, events: Seq<Event<'static>>) -> StylingView
        decreases events.len(),
    {
        if events.len() == 0 || self.lines.len() > MD_PREVIEW_MAX_LINES {
            self
        } else {
            self.after(state, crate::events::event_view(events[0])).after_all(
                state,
                events.drop_first(),
            )
        }
    }
}

/// A number of spaces.
pub open spec fn spaces(n: int) -> Seq<char> {
    Seq::new(
        (if n > 0 {
            n
        } else {
            0
        }) as nat,
        |i: int| ' ',
    )
}

/// The styled lines of a document's events.
pub open spec fn styled_lines(state: AppState, events: Seq<Event<'static>>) -> Seq<LineView> {
    StylingView::start().after_all(state, events).with_block_end().lines
}

impl MdSpan {
    /// A span of plain text.
    pub fn new(text: String, color: Rgb) -> (r: MdSpan)
        ensures
            r@ == plain_span(text@, color),
    {
        MdSpan { text, color, font_size: FontSize::Base, has_bg: false }
    }

    /// A span of text in another size.
    pub fn sized(text: String, color: Rgb, font_size: FontSize) -> (r: MdSpan)
        ensures
            r@ == (SpanView { text: text@, color, font_size, has_bg: false }),
    {
        MdSpan { text, color, font_size, has_bg: false }
    }

    /// A span of inline code.
    pub fn code(text: String) -> (r: MdSpan)
        ensures
            r@ == inline_code(text@),
    {
        MdSpan {
            text,
            color: Rgb::new(FG_R, FG_G, FG_B),
            font_size: FontSize::Code,
            has_bg: true,
        }
    }
}

impl MdLine {
    /// A blank line.
    pub fn empty() -> (r: MdLine)
        ensures
            r@ == text_line(seq![], 0),
    {
        MdLine::text(Vec::new())
    }

    /// A line of ordinary height.
    pub fn text(spans: Vec<MdSpan>) -> (r: MdLine)
        ensures
            r@ == text_line(span_views(spans@), 0),
    {
        MdLine {
            spans,
            line_height: LINE_HEIGHT,
            has_underline: false,
            is_code_block: false,
            blockquote_depth: 0,
            is_rule: false,
        }
    }
}

/// The state of styling a document.
pub struct Styling {
    pub lines: Vec<MdLine>,
    pub spans: Vec<MdSpan>,
    pub in_heading: bool,
    pub depth: usize,
    pub in_code: bool,
    pub code_lang: Option<String>,
    pub code_text: String,
    pub in_link: bool,
    pub list_indent: usize,
    pub next_number: Option<u64>,
    pub need_gap: bool,
}

impl View for Styling {
    type V = StylingView;

    open spec fn view(&self) -> StylingView {
        StylingView {
            lines: line_views(self.lines@),
            spans: span_views(self.spans@),
            in_heading: self.in_heading,
            depth: self.depth,
            in_code: self.in_code,
            code_lang: crate::config::value_of(self.code_lang),
            code_text: self.code_text@,
            in_link: self.in_link,
            list_indent: self.list_indent,
            next_number: self.next_number,
            need_gap: self.need_gap,
        }
    }
}

impl Styling {
    /// The start of a document.
    pub fn new() -> (r: Styling)
        ensures
            r@ == StylingView::start(),
    {
        let r = Styling {
            lines: Vec::new(),
            spans: Vec::new(),
            in_heading: false,
            depth: 0,
            in_code: false,
            code_lang: None,
            code_text: String::new(),
            in_link: false,
            list_indent: 0,
            next_number: None,
            need_gap: false,
        };
        assert(r@ =~= StylingView::start());
        r
    }

    fn push_line(&mut self, line: MdLine)
        ensures
            final(self)@ == old(self)@.with_line(line@),
    {
        self.lines.push(line);
        assert(self@ =~= old(self)@.with_line(line@));
    }

    fn gap(&mut self, wanted: bool)
        ensures
            final(self)@ == old(self)@.with_gap(wanted),
    {
        if self.need_gap && wanted {
            self.push_line(MdLine::empty());
        }
    }

    fn take_spans(&mut self) -> (r: Vec<MdSpan>)
        ensures
            span_views(r@) == old(self)@.spans,
            final(self)@ == (StylingView { spans: seq![], ..old(self)@ }),
    {
        let mut spans: Vec<MdSpan> = Vec::new();
        std::mem::swap(&mut spans, &mut self.spans);
        assert(self@ =~= StylingView { spans: seq![], ..old(self)@ });
        spans
    }

    fn end_line(&mut self)
        ensures
            final(self)@ == old(self)@.with_line_end(),
    {
        let spans: Vec<MdSpan> = self.take_spans();
        let mut line: MdLine = MdLine::text(spans);
        line.blockquote_depth = self.depth;
        self.push_line(line);
        assert(self@ =~= old(self)@.with_line_end());
    }

    fn end_block(&mut self)
        ensures
            final(self)@ == old(self)@.with_block_end(),
    {
        assert(self@.spans.len() == self.spans@.len());
        if self.spans.len() > 0 {
            self.end_line();
        }
    }

    fn push_span(&mut self, span: MdSpan)
        ensures
            final(self)@ == old(self)@.with_span(span@),
    {
        self.spans.push(span);
        assert(self@ =~= old(self)@.with_span(span@));
    }

    fn color(&self) -> (r: Rgb)
        ensures
            r == self@.text_color(),
    {
        if self.in_link {
            Rgb::new(ACCENT_R, ACCENT_G, ACCENT_B)
        } else if self.depth > 0 && !self.in_heading {
            Rgb::new(MUTED_R, MUTED_G, MUTED_B)
        } else {
            Rgb::new(FG_R, FG_G, FG_B)
        }
    }

    fn push_text(&mut self, text: &str)
        ensures
            final(self)@ == old(self)@.with_parts(
                crate::text::pieces(text@, '\n'),
                old(self)@.text_color(),
            ),
    {
        let color: Rgb = self.color();
        let parts: Vec<&str> = split(text, '\n');
        let ghost v = crate::text::pieces(text@, '\n');
        let ghost before = self@;
        let mut i: usize = 0;
        proof {
            assert(v.take(0) =~= seq![]);
            assert(parts@.len() == crate::text::texts(parts@).len());
        }
        while i < parts.len()
            invariant
                v == crate::text::texts(parts@),
                v.len() == parts@.len(),
                i <= parts@.len(),
                self@ == before.with_parts(v.take(i as int), color),
            decreases parts@.len() - i,
        {
            proof {
                assert(v[i as int] == parts@[i as int]@);
                assert(v.take(i + 1).drop_last() =~= v.take(i as int));
            }
            if i > 0 {
                self.end_line();
            }
            let part: &str = parts[i];
            if !part.is_empty() {
                self.push_span(MdSpan::new(part.to_owned(), color));
            }
            i = i + 1;
        }
        assert(v.take(i as int) =~= v);
    }

    fn bullet(&self) -> (r: String)
        ensures
            r@ == self@.bullet(),
    {
        let mut out = String::new();
        let mut i: usize = 1;
        assert(spaces(0) =~= seq![]);
        while i < self.list_indent
            invariant
                1 <= i,
                i <= self.list_indent || i == 1,
                out@ == spaces(2 * (i - 1)),
            decreases self.list_indent - i,
        {
            out.push(' ');
            out.push(' ');
            assert(out@ =~= spaces(2 * i));
            i = i + 1;
        }
        match self.next_number {
            Some(n) => {
                let number: String = format_number(n);
                out.append(number.as_str());
                out.append(". ");
            },
            None => {
                out.append("\u{2022} ");
            },
        }
        assert(out@ =~= self@.bullet());
        out
    }

    fn start_item(&mut self)
        ensures
            final(self)@ == old(self)@.started(
                crate::events::EventView {
                    shape: Shape::Start,
                    element: Element::Item,
                    text: seq![],
                    number: None,
                },
            ),
    {
        let text: String = self.bullet();
        self.spans = Vec::new();
        self.push_span(MdSpan::new(text, Rgb::new(MUTED_R, MUTED_G, MUTED_B)));
        if let Some(n) = self.next_number {
            self.next_number = Some(n.saturating_add(1));
        }
        assert(self@.spans =~= seq![plain_span(old(self)@.bullet(), muted())]);
    }

    fn start(&mut self, element: Element, text: &str, number: Option<u64>)
        requires
            old(self).depth < usize::MAX,
            old(self).list_indent < usize::MAX,
        ensures
            final(self)@ == old(self)@.started(
                crate::events::EventView { shape: Shape::Start, element, text: text@, number },
            ),
    {
        let ghost want = self@.started(
            crate::events::EventView { shape: Shape::Start, element, text: text@, number },
        );
        match element {
            Element::Heading(_) => {
                self.gap(true);
                self.in_heading = true;
                self.need_gap = false;
                self.spans = Vec::new();
            },
            Element::Paragraph => {
                self.gap(true);
                self.need_gap = false;
                self.spans = Vec::new();
            },
            Element::BlockQuote => {
                self.gap(self.depth == 0);
                self.depth = self.depth + 1;
                self.need_gap = false;
            },
            Element::CodeBlock => {
                self.gap(true);
                self.in_code = true;
                let word: &str = first_word(text);
                self.code_lang =
                if word.is_empty() {
                    None
                } else {
                    Some(word.to_owned())
                };
                self.code_text = String::new();
                self.need_gap = false;
            },
            Element::List => {
                self.gap(self.list_indent == 0);
                self.next_number = number;
                self.list_indent = self.list_indent + 1;
                self.need_gap = false;
            },
            Element::Item => {
                self.start_item();
            },
            Element::Link => {
                self.in_link = true;
            },
            Element::Image => {},
            Element::Other => {},
        }
        assert(self@ =~= want);
    }

    fn end_heading(&mut self, level: u8)
        ensures
            final(self)@ == (StylingView {
                lines: old(self)@.lines.push(
                    heading_line(old(self)@.spans, level, old(self)@.depth),
                ),
                spans: seq![],
                in_heading: false,
                need_gap: true,
                ..old(self)@
            }),
    {
        let (font_size, line_height): (FontSize, usize) = if level == 1 {
            (FontSize::H1, 44)
        } else if level == 2 {
            (FontSize::H2, 36)
        } else if level == 3 {
            (FontSize::H3, 30)
        } else {
            (FontSize::Base, LINE_HEIGHT)
        };
        let ghost before = self@.spans;
        let mut spans: Vec<MdSpan> = self.take_spans();
        let mut i: usize = 0;
        assert(before.len() == spans@.len());
        while i < spans.len()
            invariant
                i <= spans@.len(),
                spans@.len() == before.len(),
                font_size == heading_size(level),
                forall|k: int| 0 <= k < i ==> (#[trigger] spans@[k])@ == heading_span(before[k], level),
                forall|k: int| i <= k < spans@.len() ==> (#[trigger] spans@[k])@ == before[k],
            decreases spans@.len() - i,
        {
            let span: &mut MdSpan = &mut spans[i];
            span.font_size = font_size;
            if level == 6 {
                span.color = Rgb::new(MUTED_R, MUTED_G, MUTED_B);
            }
            i = i + 1;
        }
        let line = MdLine {
            spans,
            line_height,
            has_underline: level <= 2,
            is_code_block: false,
            blockquote_depth: self.depth,
            is_rule: false,
        };
        assert(line@.spans =~= heading_line(before, level, self.depth).spans);
        self.push_line(line);
        self.in_heading = false;
        self.need_gap = true;
    }

    fn end(&mut self, state: &AppState, element: Element)
        ensures
            final(self)@ == old(self)@.ended(
                *state,
                crate::events::EventView {
                    shape: Shape::End,
                    element,
                    text: seq![],
                    number: None,
                },
            ),
    {
        let ghost want = self@.ended(
            *state,
            crate::events::EventView { shape: Shape::End, element, text: seq![], number: None },
        );
        match element {
            Element::Heading(level) => {
                self.end_heading(level);
            },
            Element::Paragraph => {
                self.end_block();
                self.need_gap = true;
            },
            Element::BlockQuote => {
                self.depth = self.depth.saturating_sub(1);
                self.need_gap = true;
            },
            Element::CodeBlock => {
                self.in_code = false;
                let lang: Option<&str> = match &self.code_lang {
                    Some(l) => Some(l.as_str()),
                    None => None,
                };
                render_code_block_to_md_lines(
                    state,
                    self.code_text.as_str(),
                    lang,
                    self.depth,
                    &mut self.lines,
                );
                self.code_lang = None;
                self.need_gap = true;
            },
            Element::List => {
                self.list_indent = self.list_indent.saturating_sub(1);
                self.next_number = None;
                if self.list_indent == 0 {
                    self.need_gap = true;
                }
            },
            Element::Item => {
                self.end_block();
            },
            Element::Link => {
                self.in_link = false;
            },
            Element::Image => {},
            Element::Other => {},
        }
        assert(self@ =~= want);
    }

    fn rule(&mut self)
        ensures
            final(self)@ == (StylingView {
                need_gap: true,
                ..old(self)@.with_gap(true).with_line(rule_line(old(self)@.depth))
            }),
    {
        self.gap(true);
        let mut line: MdLine = MdLine::empty();
        line.is_rule = true;
        line.line_height = RULE_HEIGHT;
        line.blockquote_depth = self.depth;
        assert(line@ =~= rule_line(self.depth));
        self.push_line(line);
        self.need_gap = true;
    }

    /// Takes one event into account.
    pub fn step(&mut self, state: &AppState, event: &Event<'static>)
        requires
            old(self).depth < usize::MAX,
            old(self).list_indent < usize::MAX,
        ensures
            final(self)@ == old(self)@.after(*state, crate::events::event_view(*event)),
            final(self).depth <= old(self).depth + 1,
            final(self).list_indent <= old(self).list_indent + 1,
    {
        let ghost e = crate::events::event_view(*event);
        let ghost want = self@.after(*state, e);
        match event_shape(event) {
            Shape::Start => {
                let text: String = event_text(event);
                self.start(event_element(event), text.as_str(), event_number(event));
            },
            Shape::End => {
                self.end(state, event_element(event));
            },
            Shape::Text => {
                let text: String = event_text(event);
                if self.in_code {
                    self.code_text.append(text.as_str());
                } else {
                    self.push_text(text.as_str());
                    proof {
                        lemma_parts_keep(
                            old(self)@,
                            crate::text::pieces(text@, '\n'),
                            old(self)@.text_color(),
                        );
                    }
                }
            },
            Shape::Code => {
                self.push_span(MdSpan::code(event_text(event)));
            },
            Shape::SoftBreak => {
                self.push_span(MdSpan::new(" ".to_owned(), Rgb::new(FG_R, FG_G, FG_B)));
            },
            Shape::HardBreak => {
                self.end_line();
            },
            Shape::Rule => {
                self.rule();
            },
            Shape::Html => {},
            Shape::InlineHtml => {},
            Shape::Other => {},
        }
        assert(self@ =~= want);
        assert(self.depth == self@.depth && self.list_indent == self@.list_indent);
    }
}

proof fn lemma_parts_keep(s: StylingView, parts: Seq<Seq<char>>, color: Rgb)
    ensures
        s.with_parts(parts, color).depth == s.depth,
        s.with_parts(parts, color).list_indent == s.list_indent,
    decreases parts.len(),
{
    if parts.len() > 0 {
        lemma_parts_keep(s, parts.drop_last(), color);
    }
}

/// A line is at least as high as its underline needs and no higher than the largest heading.
pub open spec fn line_fits(line: LineView) -> bool {
    2 <= line.line_height <= 44
}

/// Whether all lines fit.
pub open spec fn lines_fit(v: Seq<LineView>) -> bool {
    forall|i: int| 0 <= i < v.len() ==> line_fits(#[trigger] v[i])
}

proof fn lemma_push_fits(v: Seq<LineView>, line: LineView)
    requires
        lines_fit(v),
        line_fits(line),
    ensures
        lines_fit(v.push(line)),
{
    assert forall|i: int| 0 <= i < v.push(line).len() implies line_fits(
        #[trigger] v.push(line)[i],
    ) by {
        if i < v.len() {
            assert(v.push(line)[i] == v[i]);
        }
    }
}

proof fn lemma_parts_fit(s: StylingView, parts: Seq<Seq<char>>, color: Rgb)
    requires
        lines_fit(s.lines),
    ensures
        lines_fit(s.with_parts(parts, color).lines),
    decreases parts.len(),
{
    if parts.len() > 0 {
        lemma_parts_fit(s, parts.drop_last(), color);
        let before = s.with_parts(parts.drop_last(), color);
        lemma_push_fits(before.lines, text_line(before.spans, before.depth));
    }
}

proof fn lemma_after_fits(s: StylingView, state: AppState, e: crate::events::EventView)
    requires
        lines_fit(s.lines),
    ensures
        lines_fit(s.after(state, e).lines),
{
    lemma_push_fits(s.lines, text_line(seq![], 0));
    lemma_push_fits(s.lines, text_line(s.spans, s.depth));
    match e.shape {
        Shape::End => match e.element {
            Element::Heading(level) => {
                lemma_push_fits(s.lines, heading_line(s.spans, level, s.depth));
            },
            Element::CodeBlock => {
                let more = code_block_lines(
                    state,
                    s.code_text,
                    s.code_lang,
                    s.depth,
                    s.lines.len(),
                );
                assert forall|i: int| 0 <= i < (s.lines + more).len() implies line_fits(
                    #[trigger] (s.lines + more)[i],
                ) by {
                    if i < s.lines.len() {
                        assert((s.lines + more)[i] == s.lines[i]);
                    } else {
                        assert((s.lines + more)[i] == more[i - s.lines.len()]);
                    }
                }
            },
            _ => {},
        },
        Shape::Text => {
            lemma_parts_fit(s, crate::text::pieces(e.text, '\n'), s.text_color());
        },
        Shape::Rule => {
            lemma_push_fits(s.with_gap(true).lines, rule_line(s.depth));
        },
        _ => {},
    }
}

proof fn lemma_after_all_fits(s: StylingView, state: AppState, events: Seq<Event<'static>>)
    requires
        lines_fit(s.lines),
    ensures
        lines_fit(s.after_all(state, events).lines),
    decreases events.len(),
{
    if events.len() > 0 && s.lines.len() <= MD_PREVIEW_MAX_LINES {
        let e = crate::events::event_view(events[0]);
        lemma_after_fits(s, state, e);
        lemma_after_all_fits(s.after(state, e), state, events.drop_first());
    }
}

/// Every styled line of a document has a height that a preview can draw.
pub proof fn law_styled_lines_fit(state: AppState, events: Seq<Event<'static>>)
    ensures
        lines_fit(styled_lines(state, events)),
{
    let start = StylingView::start();
    assert(lines_fit(start.lines));
    lemma_after_all_fits(start, state, events);
    let end = start.after_all(state, events);
    lemma_push_fits(end.lines, text_line(end.spans, end.depth));
}

/// However long a code block is, it makes no more lines than there is room for.
pub proof fn law_code_blocks_are_capped(
    state: AppState,
    code: Seq<char>,
    lang: Option<Seq<char>>,
    depth: usize,
    have: nat,
)
    ensures
        have > MD_PREVIEW_MAX_LINES ==> code_block_lines(state, code, lang, depth, have).len() == 0,
        have <= MD_PREVIEW_MAX_LINES ==> have + code_block_lines(
            state,
            code,
            lang,
            depth,
            have,
        ).len() <= MD_PREVIEW_MAX_LINES + 1,
{
}

/// Makes the spans of a line of code from its regions.
pub fn style_code_line(line: &str, regions: &Option<Vec<Region>>) -> (r: Vec<MdSpan>)
    ensures
        match regions {
            Some(v) => span_views(r@) == code_spans(line@, Some(crate::syntax::region_views(v@))),
            None => span_views(r@) == code_spans(line@, None),
        },
{
    let mut spans: Vec<MdSpan> = Vec::new();
    match regions {
        Some(v) => {
            let ghost all = crate::syntax::region_views(v@);
            let mut i: usize = 0;
            assert(all.take(0) =~= seq![]);
            assert(span_views(spans@) =~= seq![]);
            while i < v.len()
                invariant
                    all == crate::syntax::region_views(v@),
                    all.len() == v@.len(),
                    i <= v@.len(),
                    span_views(spans@) == region_spans(all.take(i as int)),
                decreases v@.len() - i,
            {
                let ghost before = span_views(spans@);
                proof {
                    assert(all[i as int] == v@[i as int]@);
                    assert(all.take(i + 1).drop_last() =~= all.take(i as int));
                }
                let region: &Region = &v[i];
                let text: &str = trim_line_ending(region.text.as_str());
                if !text.is_empty() {
                    spans.push(
                        MdSpan::sized(
                            text.to_owned(),
                            Rgb::new(region.r, region.g, region.b),
                            FontSize::Code,
                        ),
                    );
                    assert(span_views(spans@) =~= before + seq![
                        block_code(
                            text@,
                            Rgb { r: region.r, g: region.g, b: region.b },
                        ),
                    ]);
                } else {
                    assert(before + seq![] =~= before);
                }
                i = i + 1;
            }
            assert(all.take(i as int) =~= all);
        },
        None => {
            spans.push(
                MdSpan::sized(
                    trim_line_ending(line).to_owned(),
                    Rgb::new(FG_R, FG_G, FG_B),
                    FontSize::Code,
                ),
            );
            assert(span_views(spans@) =~= code_spans(line@, None));
        },
    }
    spans
}

/// The first lines of a text, at most `max`, each cut to what a preview looks at.
pub fn first_lines<'a>(text: &'a str, max: usize) -> (r: Vec<&'a str>)
    ensures
        crate::text::texts(r@) == cut_lines(at_most(crate::lines::lines(text@), max as int)),
{
    let all: Vec<&'a str> = split_lines(text);
    let ghost v = crate::lines::lines(text@);
    let mut out: Vec<&'a str> = Vec::new();
    let mut i: usize = 0;
    proof {
        assert(all@.len() == crate::text::texts(all@).len());
    }
    while i < all.len() && i < max
        invariant
            v == crate::text::texts(all@),
            v.len() == all@.len(),
            i <= all@.len(),
            i <= max,
            out@.len() == i,
            forall|k: int|
                0 <= k < i ==> (#[trigger] out@[k])@ == crate::lines::fitted(
                    v[k],
                    PREVIEW_MAX_LINE_BYTES as int,
                ),
        decreases all@.len() - i,
    {
        assert(v[i as int] == all@[i as int]@);
        out.push(truncate_line_bytes(all[i], PREVIEW_MAX_LINE_BYTES));
        i = i + 1;
    }
    assert(crate::text::texts(out@) =~= cut_lines(at_most(v, max as int)));
    out
}

/// Appends the lines of a code block, highlighted where its language selects a syntax.
pub fn render_code_block_to_md_lines(
    state: &AppState,
    code: &str,
    lang: Option<&str>,
    blockquote_depth: usize,
    lines: &mut Vec<MdLine>,
)
    ensures
        line_views(final(lines)@) == line_views(old(lines)@) + code_block_lines(
            *state,
            code@,
            crate::state::text_of(lang),
            blockquote_depth,
            old(lines)@.len(),
        ),
{
    let have: usize = lines.len();
    let space: usize = if have > MD_PREVIEW_MAX_LINES {
        0
    } else {
        MD_PREVIEW_MAX_LINES + 1 - have
    };
    let shown: Vec<&str> = first_lines(code, space);
    let ghost v = crate::text::texts(shown@);
    let ghost before = line_views(lines@);
    let ghost want = code_block_lines(
        *state,
        code@,
        crate::state::text_of(lang),
        blockquote_depth,
        lines@.len(),
    );
    let regions: Option<Vec<Option<Vec<Region>>>> = match resolve_syntax(state, lang) {
        Some(index) => Some(highlight_lines(&state.syntax_set, index, &state.theme, &shown)),
        None => None,
    };
    let none: Option<Vec<Region>> = None;
    let mut i: usize = 0;
    assert(before + want.take(0) =~= before);
    while i < shown.len()
        invariant
            v == crate::text::texts(shown@),
            v.len() == shown@.len(),
            want.len() == v.len(),
            i <= shown@.len(),
            none is None,
            regions matches Some(all) ==> all@.len() == v.len(),
            forall|k: int|
                0 <= k < v.len() ==> #[trigger] want[k] == code_line(
                    code_spans(
                        v[k],
                        match state.syntax_for(crate::state::text_of(lang)) {
                            Some(index) => crate::syntax::line_regions(
                                state.syntax_set@,
                                index as int,
                                state.theme,
                                v,
                                k,
                            ),
                            None => None,
                        },
                    ),
                    blockquote_depth,
                ),
            regions is Some == (state.syntax_for(crate::state::text_of(lang)) is Some),
            regions matches Some(all) ==> forall|k: int|
                0 <= k < v.len() ==> crate::syntax::regions_are(
                    #[trigger] all@[k],
                    crate::syntax::line_regions(
                        state.syntax_set@,
                        state.syntax_for(crate::state::text_of(lang))->0 as int,
                        state.theme,
                        v,
                        k,
                    ),
                ),
            line_views(lines@) == before + want.take(i as int),
        decreases shown@.len() - i,
    {
        assert(v[i as int] == shown@[i as int]@);
        let spans: Vec<MdSpan> = match &regions {
            Some(all) => {
                assert(crate::syntax::regions_are(
                    all@[i as int],
                    crate::syntax::line_regions(
                        state.syntax_set@,
                        state.syntax_for(crate::state::text_of(lang))->0 as int,
                        state.theme,
                        v,
                        i as int,
                    ),
                ));
                style_code_line(shown[i], &all[i])
            },
            None => style_code_line(shown[i], &none),
        };
        let line = MdLine {
            spans,
            line_height: CODE_LINE_HEIGHT,
            has_underline: false,
            is_code_block: true,
            blockquote_depth,
            is_rule: false,
        };
        assert(line@ =~= want[i as int]);
        let ghost so_far = line_views(lines@);
        lines.push(line);
        proof {
            assert(line_views(lines@) =~= so_far.push(line@));
            assert((before + want.take(i as int)).push(want[i as int]) =~= before + want.take(i + 1));
        }
        i = i + 1;
    }
    assert(want.take(i as int) =~= want);
}

/// Styles the events of a document.
pub fn style_events(state: &AppState, events: &Vec<Event<'static>>) -> (r: Vec<MdLine>)
    ensures
        line_views(r@) == styled_lines(*state, events@),
        lines_fit(line_views(r@)),
{
    let mut styling: Styling = Styling::new();
    let mut i: usize = 0;
    let ghost want = StylingView::start().after_all(*state, events@);
    assert(events@.skip(0) =~= events@);
    while i < events.len() && styling.lines.len() <= MD_PREVIEW_MAX_LINES
        invariant
            i <= events@.len(),
            styling.depth <= i,
            styling.list_indent <= i,
            want == StylingView::start().after_all(*state, events@),
            want == styling@.after_all(*state, events@.skip(i as int)),
            styling@.lines.len() == styling.lines@.len(),
        decreases events@.len() - i,
    {
        proof {
            assert(events@.skip(i as int)[0] == events@[i as int]);
            assert(events@.skip(i as int).drop_first() =~= events@.skip(i + 1));
        }
        styling.step(state, &events[i]);
        i = i + 1;
    }
    styling.end_block();
    proof {
        law_styled_lines_fit(*state, events@);
    }
    styling.lines
}

/// Parses markdown and styles it for a preview.
pub fn markdown_to_styled_lines(state: &AppState, content: &str) -> (r: Vec<MdLine>)
    ensures
        line_views(r@) == styled_lines(*state, crate::events::document_events(content@)),
        lines_fit(line_views(r@)),
{
    style_events(state, &parse_document(content))
}

/// How many block quotes are open after an event, where `depth` were open before it.
pub open spec fn depth_after(depth: int, e: crate::events::EventView) -> int {
    if e.element != Element::BlockQuote {
        depth
    } else if e.shape == Shape::Start {
        depth + 1
    } else if e.shape == Shape::End && depth > 0 {
        depth - 1
    } else {
        depth
    }
}

/// Whether never more than `max` block quotes are open, where `depth` are open at the start.
pub open spec fn nests_within(events: Seq<Event<'static>>, depth: int, max: int) -> bool
    decreases events.len(),
{
    &&& depth <= max
    &&& events.len() > 0 ==> nests_within(
        events.drop_first(),
        depth_after(depth, crate::events::event_view(events[0])),
        max,
    )
}

/// Whether no line is in more than `max` block quotes.
pub open spec fn lines_within(lines: Seq<LineView>, max: int) -> bool {
    forall|k: int| 0 <= k < lines.len() ==> (#[trigger] lines[k]).blockquote_depth <= max
}

proof fn lemma_parts_within(s: StylingView, parts: Seq<Seq<char>>, color: Rgb, max: int)
    requires
        lines_within(s.lines, max),
        s.depth <= max,
    ensures
        lines_within(s.with_parts(parts, color).lines, max),
        s.with_parts(parts, color).depth == s.depth,
    decreases parts.len(),
{
    if parts.len() > 0 {
        lemma_parts_within(s, parts.drop_last(), color, max);
    }
}

proof fn lemma_event_within(
    s: StylingView,
    state: AppState,
    e: crate::events::EventView,
    max: int,
)
    requires
        lines_within(s.lines, max),
        0 <= s.depth <= max,
        depth_after(s.depth as int, e) <= max < usize::MAX,
    ensures
        lines_within(s.after(state, e).lines, max),
        s.after(state, e).depth == depth_after(s.depth as int, e),
{
    if e.shape == Shape::Text && !s.in_code {
        lemma_parts_within(s, crate::text::pieces(e.text, '\n'), s.text_color(), max);
    }
}

proof fn lemma_events_within(
    s: StylingView,
    state: AppState,
    events: Seq<Event<'static>>,
    max: int,
)
    requires
        lines_within(s.lines, max),
        nests_within(events, s.depth as int, max),
        max < usize::MAX,
    ensures
        lines_within(s.after_all(state, events).with_block_end().lines, max),
    decreases events.len(),
{
    let end = s.after_all(state, events);
    if events.len() == 0 || s.lines.len() > MD_PREVIEW_MAX_LINES {
        assert(end == s);
    } else {
        let e = crate::events::event_view(events[0]);
        assert(nests_within(events.drop_first(), depth_after(s.depth as int, e), max));
        lemma_event_within(s, state, e, max);
        lemma_events_within(s.after(state, e), state, events.drop_first(), max);
    }
}

/// A styled line is in no more block quotes than are open anywhere in the document.
pub proof fn law_lines_are_no_deeper_than_the_document(
    state: AppState,
    events: Seq<Event<'static>>,
    max: int,
)
    requires
        nests_within(events, 0, max),
        max < usize::MAX,
    ensures
        lines_within(styled_lines(state, events), max),
{
    lemma_events_within(StylingView::start(), state, events, max);
}

/// The texts of some spans, one behind the other.
pub open spec fn spans_text(spans: Seq<SpanView>) -> Seq<char>
    decreases spans.len(),
{
    if spans.len() == 0 {
        seq![]
    } else {
        spans_text(spans.drop_last()) + spans.last().text
    }
}

/// The texts of some lines, one behind the other.
pub open spec fn lines_text(lines: Seq<LineView>) -> Seq<char>
    decreases lines.len(),
{
    if lines.len() == 0 {
        seq![]
    } else {
        lines_text(lines.drop_last()) + spans_text(lines.last().spans)
    }
}

/// All text that was styled so far.
pub open spec fn styled_text(s: StylingView) -> Seq<char> {
    lines_text(s.lines) + spans_text(s.spans)
}

proof fn lemma_line_text_added(s: StylingView, line: LineView)
    ensures
        lines_text(s.lines.push(line)) == lines_text(s.lines) + spans_text(line.spans),
        spans_text(seq![]) == Seq::<char>::empty(),
        styled_text(s.with_line(text_line(seq![], 0))) == styled_text(s),
        styled_text(s.with_line_end()) == styled_text(s),
        styled_text(s.with_block_end()) == styled_text(s),
        styled_text(s.with_gap(true)) == styled_text(s),
        styled_text(s.with_gap(false)) == styled_text(s),
{
    assert(s.lines.push(line).drop_last() =~= s.lines);
    assert(spans_text(seq![]) =~= Seq::<char>::empty());
    let blank = text_line(seq![], 0);
    assert(s.lines.push(blank).drop_last() =~= s.lines);
    assert(lines_text(s.lines.push(blank)) =~= lines_text(s.lines));
    let end = text_line(s.spans, s.depth);
    assert(s.lines.push(end).drop_last() =~= s.lines);
    assert(styled_text(s.with_line_end()) =~= styled_text(s));
}

proof fn lemma_span_text_added(s: StylingView, span: SpanView)
    ensures
        styled_text(s.with_span(span)) == styled_text(s) + span.text,
{
    assert(s.spans.push(span).drop_last() =~= s.spans);
    assert(styled_text(s.with_span(span)) =~= styled_text(s) + span.text);
}

proof fn lemma_parts_text(s: StylingView, parts: Seq<Seq<char>>, color: Rgb)
    ensures
        styled_text(s.with_parts(parts, color)) == styled_text(s) + crate::lines::joined(parts),
        parts.len() > 0 ==> s.with_parts(parts, color).lines.len() == s.lines.len() + parts.len()
            - 1,
    decreases parts.len(),
{
    if parts.len() == 0 {
        assert(styled_text(s) + crate::lines::joined(parts) =~= styled_text(s));
    } else {
        lemma_parts_text(s, parts.drop_last(), color);
        let before = s.with_parts(parts.drop_last(), color);
        let here = if parts.len() > 1 {
            before.with_line_end()
        } else {
            before
        };
        lemma_line_text_added(before, text_line(seq![], 0));
        if parts.last().len() > 0 {
            lemma_span_text_added(here, plain_span(parts.last(), color));
        } else {
            assert(crate::lines::joined(parts) =~= crate::lines::joined(parts.drop_last()));
        }
        assert(styled_text(s) + crate::lines::joined(parts.drop_last()) + parts.last()
            =~= styled_text(s) + (crate::lines::joined(parts.drop_last()) + parts.last()));
    }
}

/// Styling keeps the text of a document: text outside of code blocks goes to the end of what was
/// styled so far, without its line feeds, each of which ends a line; inline code goes there as it
/// is and a soft break as a space. In a code block text is collected. Breaks, rules, links, lists,
/// quotes and the ends of blocks add no text and take none away.
pub proof fn law_styling_keeps_text(s: StylingView, state: AppState, e: crate::events::EventView)
    ensures
        e.shape == Shape::Text && !s.in_code ==> {
            let parts = crate::text::pieces(e.text, '\n');
            let after = s.after(state, e);
            &&& styled_text(after) == styled_text(s) + crate::lines::joined(parts)
            &&& after.lines.len() == s.lines.len() + parts.len() - 1
        },
        e.shape == Shape::Text && s.in_code ==> s.after(state, e).code_text == s.code_text + e.text
            && styled_text(s.after(state, e)) == styled_text(s),
        e.shape == Shape::Code ==> styled_text(s.after(state, e)) == styled_text(s) + e.text,
        e.shape == Shape::SoftBreak ==> styled_text(s.after(state, e)) == styled_text(s) + seq![' '],
        e.shape == Shape::HardBreak || e.shape == Shape::Rule || e.shape == Shape::Html || e.shape
            == Shape::InlineHtml || e.shape == Shape::Other ==> styled_text(s.after(state, e))
            == styled_text(s),
        e.shape == Shape::Start && (e.element == Element::Link || e.element == Element::Image
            || e.element == Element::BlockQuote || e.element == Element::List || e.element
            == Element::CodeBlock || e.element == Element::Other) ==> styled_text(s.after(state, e))
            == styled_text(s),
        e.shape == Shape::Start && s.spans.len() == 0 && (e.element == Element::Paragraph
            || e.element is Heading) ==> styled_text(s.after(state, e))
            == styled_text(s),
        e.shape == Shape::End && e.element != Element::CodeBlock ==> styled_text(s.after(state, e))
            == styled_text(s),
{
    reveal_strlit(" ");
    assert(" "@ =~= seq![' ']);
    lemma_line_text_added(s, rule_line(s.depth));
    lemma_line_text_added(s, text_line(seq![], 0));
    if e.shape == Shape::Text && !s.in_code {
        lemma_parts_text(s, crate::text::pieces(e.text, '\n'), s.text_color());
        lemma_pieces_are_some(e.text, '\n');
    }
    lemma_span_text_added(s, inline_code(e.text));
    lemma_span_text_added(s, plain_span(" "@, foreground()));
    let gapped = s.with_gap(true);
    lemma_line_text_added(gapped, rule_line(s.depth));
    assert(lines_text(gapped.lines.push(rule_line(s.depth))) =~= lines_text(gapped.lines));
    if s.spans.len() == 0 {
        assert(s.spans =~= seq![]);
    }
    if e.shape == Shape::End {
        if let Element::Heading(level) = e.element {
            let line = heading_line(s.spans, level, s.depth);
            lemma_line_text_added(s, line);
            lemma_heading_text(s.spans, level);
            assert(styled_text(s.after(state, e)) =~= styled_text(s));
        }
    }
}

proof fn lemma_pieces_are_some(s: Seq<char>, c: char)
    ensures
        crate::text::pieces(s, c).len() > 0,
{
}

proof fn lemma_heading_text(spans: Seq<SpanView>, level: u8)
    ensures
        spans_text(spans.map_values(|s: SpanView| heading_span(s, level))) == spans_text(spans),
    decreases spans.len(),
{
    let made = spans.map_values(|s: SpanView| heading_span(s, level));
    if spans.len() > 0 {
        lemma_heading_text(spans.drop_last(), level);
        assert(made.drop_last() =~= spans.drop_last().map_values(
            |s: SpanView| heading_span(s, level),
        ));
    }
}

/// The colour of text tells what it is: links stand out, quoted text other than headings is muted,
/// and all other text has the colour of the page.
pub proof fn law_text_has_its_colour(s: StylingView, state: AppState, e: crate::events::EventView)
    requires
        e.shape == Shape::Text,
        !s.in_code,
        e.text.len() > 0,
        !e.text.contains('\n'),
    ensures
        s.after(state, e).spans == s.spans.push(
            SpanView {
                text: e.text,
                color: if s.in_link {
                    Rgb { r: 0x71, g: 0xb7, b: 0xff }
                } else if s.depth > 0 && !s.in_heading {
                    Rgb { r: 0x9e, g: 0xa7, b: 0xb3 }
                } else {
                    Rgb { r: 0xf0, g: 0xf3, b: 0xf6 }
                },
                font_size: FontSize::Base,
                has_bg: false,
            },
        ),
        s.after(state, e).lines == s.lines,
{
    crate::text::law_pieces_lie_between(e.text, '\n', seq![]);
    let parts = crate::text::pieces(e.text, '\n');
    assert(parts.drop_last() =~= seq![]);
    assert(s.with_parts(seq![], s.text_color()) == s);
}

/// A heading is one line of its own, the larger the higher its level; the two largest are
/// underlined and the smallest is muted.
pub proof fn law_headings_have_their_sizes(
    s: StylingView,
    state: AppState,
    e: crate::events::EventView,
    level: u8,
)
    requires
        e.shape == Shape::End,
        e.element == Element::Heading(level),
    ensures
        ({
            let after = s.after(state, e);
            let line = after.lines.last();
            &&& after.lines.len() == s.lines.len() + 1
            &&& after.lines.drop_last() == s.lines
            &&& after.spans.len() == 0
            &&& line.spans.len() == s.spans.len()
            &&& line.blockquote_depth == s.depth
            &&& !line.is_code_block && !line.is_rule
            &&& line.has_underline == (level == 1 || level == 2 || level == 0)
            &&& line.line_height == (if level == 1 {
                44usize
            } else if level == 2 {
                36
            } else if level == 3 {
                30
            } else {
                22
            })
            &&& forall|i: int|
                0 <= i < s.spans.len() ==> {
                    &&& (#[trigger] line.spans[i]).text == s.spans[i].text
                    &&& line.spans[i].has_bg == s.spans[i].has_bg
                    &&& line.spans[i].color == (if level == 6 {
                        Rgb { r: 0x9e, g: 0xa7, b: 0xb3 }
                    } else {
                        s.spans[i].color
                    })
                    &&& line.spans[i].font_size == (if level == 1 {
                        FontSize::H1
                    } else if level == 2 {
                        FontSize::H2
                    } else if level == 3 {
                        FontSize::H3
                    } else {
                        FontSize::Base
                    })
                }
        }),
{
    assert(s.after(state, e).lines.drop_last() =~= s.lines);
}

/// A paragraph or list item that holds anything ends in a line of its own, in as many quotes as it
/// stands in; a rule is a line of its own too.
pub proof fn law_blocks_end_in_lines(s: StylingView, state: AppState, e: crate::events::EventView)
    ensures
        e.shape == Shape::End && (e.element == Element::Paragraph || e.element == Element::Item)
            && s.spans.len() > 0 ==> {
            let after = s.after(state, e);
            &&& after.lines.drop_last() == s.lines
            &&& after.lines.last().spans == s.spans
            &&& after.lines.last().blockquote_depth == s.depth
            &&& after.lines.last().line_height == 22
            &&& !after.lines.last().is_code_block && !after.lines.last().is_rule
                && !after.lines.last().has_underline
            &&& after.spans.len() == 0
        },
        e.shape == Shape::HardBreak ==> {
            let after = s.after(state, e);
            &&& after.lines.drop_last() == s.lines
            &&& after.lines.last().spans == s.spans
            &&& after.spans.len() == 0
        },
        e.shape == Shape::Rule ==> {
            let after = s.after(state, e);
            &&& after.lines.last().is_rule
            &&& after.lines.last().blockquote_depth == s.depth
            &&& after.lines.len() == s.lines.len() + (if s.need_gap {
                2int
            } else {
                1int
            })
        },
{
    let line = text_line(s.spans, s.depth);
    assert(s.lines.push(line).drop_last() =~= s.lines);
}

/// Quotes nest, links begin and end, and list items start with a bullet or with their number, two
/// spaces further in for each list around theirs, and are counted up.
pub proof fn law_lists_and_quotes_are_tracked(
    s: StylingView,
    state: AppState,
    e: crate::events::EventView,
)
    ensures
        e.shape == Shape::Start && e.element == Element::BlockQuote && s.depth < usize::MAX
            ==> s.after(state, e).depth == s.depth + 1,
        e.shape == Shape::End && e.element == Element::BlockQuote && s.depth > 0 ==> s.after(
            state,
            e,
        ).depth == s.depth - 1,
        e.shape == Shape::Start && e.element == Element::Link ==> s.after(state, e).in_link,
        e.shape == Shape::End && e.element == Element::Link ==> !s.after(state, e).in_link,
        e.shape == Shape::Start && e.element == Element::List ==> s.after(state, e).next_number
            == e.number && (s.list_indent < usize::MAX ==> s.after(state, e).list_indent
            == s.list_indent + 1),
        e.shape == Shape::End && e.element == Element::List && s.list_indent > 0 ==> s.after(
            state,
            e,
        ).list_indent == s.list_indent - 1,
        e.shape == Shape::Start && e.element == Element::Item ==> {
            let after = s.after(state, e);
            let text = after.spans[0].text;
            let indent = if s.list_indent > 0 {
                2 * (s.list_indent - 1)
            } else {
                0
            };
            &&& after.spans.len() == 1
            &&& text.len() >= indent
            &&& forall|i: int| 0 <= i < indent ==> #[trigger] text[i] == ' '
            &&& s.next_number matches Some(n) ==> text.skip(indent) == crate::listing::decimal(
                n as nat,
            ) + seq!['.', ' '] && (n < u64::MAX ==> after.next_number == Some((n + 1) as u64))
            &&& s.next_number is None ==> text.skip(indent) == seq!['\u{2022}', ' ']
                && after.next_number is None
        },
{
    reveal_strlit(". ");
    reveal_strlit("\u{2022} ");
    assert(". "@ =~= seq!['.', ' ']);
    assert("\u{2022} "@ =~= seq!['\u{2022}', ' ']);
    let indent = if s.list_indent > 0 {
        2 * (s.list_indent - 1)
    } else {
        0
    };
    let text = s.bullet();
    match s.next_number {
        Some(n) => {
            assert(text.skip(indent) =~= crate::listing::decimal(n as nat) + ". "@);
        },
        None => {
            assert(text.skip(indent) =~= "\u{2022} "@);
        },
    }
}

/// A code block has a line for each line of its code, as long as there is room for them, in order;
/// a line that cannot be highlighted is shown as it is, without its line ending and as far as it is
/// looked at.
pub proof fn law_code_blocks_keep_their_lines(
    state: AppState,
    code: Seq<char>,
    lang: Option<Seq<char>>,
    depth: usize,
    have: nat,
    k: int,
)
    requires
        0 <= k < code_block_lines(state, code, lang, depth, have).len(),
    ensures
        ({
            let made = code_block_lines(state, code, lang, depth, have);
            let all = crate::lines::lines(code);
            let start = crate::lines::fitted(all[k], PREVIEW_MAX_LINE_BYTES as int);
            &&& have <= 60 ==> made.len() == (if all.len() <= 61 - have {
                all.len() as int
            } else {
                61 - have
            })
            &&& made[k].is_code_block
            &&& made[k].blockquote_depth == depth
            &&& made[k].line_height == 20
            &&& state.syntax_for(lang) is None ==> made[k].spans == seq![
                SpanView {
                    text: crate::lines::line_text(start),
                    color: Rgb { r: 0xf0, g: 0xf3, b: 0xf6 },
                    font_size: FontSize::Code,
                    has_bg: false,
                },
            ]
            &&& state.syntax_for(lang) matches Some(index) ==> {
                let looked_at = all.take(made.len() as int).map_values(
                    |l: Seq<char>| crate::lines::fitted(l, 1024),
                );
                let regions = crate::syntax::line_regions(
                    state.syntax_set@,
                    index as int,
                    state.theme,
                    looked_at,
                    k,
                );
                &&& regions matches Some(v) ==> made[k].spans == region_spans(v)
                &&& regions is None ==> made[k].spans == seq![
                    block_code(
                        crate::lines::line_text(start),
                        Rgb { r: 0xf0, g: 0xf3, b: 0xf6 },
                    ),
                ]
            }
        }),
{
    let all = crate::lines::lines(code);
    let made = code_block_lines(state, code, lang, depth, have);
    let shown = cut_lines(at_most(all, room(have)));
    assert(all.take(made.len() as int).map_values(|l: Seq<char>| crate::lines::fitted(l, 1024))
        =~= shown);
}

/// The regions of a highlighted line keep their texts, without line endings, in order and in their
/// colours; those that are empty are left out.
pub proof fn law_regions_keep_their_texts(
    regions: Seq<crate::syntax::RegionView>,
    next: crate::syntax::RegionView,
)
    ensures
        ({
            let text = crate::lines::line_text(next.text);
            region_spans(regions.push(next)) == (if text.len() > 0 {
                region_spans(regions).push(
                    SpanView {
                        text,
                        color: Rgb { r: next.r, g: next.g, b: next.b },
                        font_size: FontSize::Code,
                        has_bg: false,
                    },
                )
            } else {
                region_spans(regions)
            })
        }),
        region_spans(seq![]) == Seq::<SpanView>::empty(),
{
    assert(regions.push(next).drop_last() =~= regions);
    let text = crate::lines::line_text(next.text);
    let span = block_code(text, Rgb { r: next.r, g: next.g, b: next.b });
    assert(region_spans(regions) + seq![span] =~= region_spans(regions).push(span));
    assert(region_spans(regions) + seq![] =~= region_spans(regions));
}

/// A document is styled event by event, in order, until there are more than sixty lines; what is
/// left at its end makes up a last line.
pub proof fn law_documents_are_styled_in_order(
    s: StylingView,
    state: AppState,
    a: Seq<Event<'static>>,
    b: Seq<Event<'static>>,
    e: Event<'static>,
)
    ensures
        s.after_all(state, a + b) == s.after_all(state, a).after_all(state, b),
        s.lines.len() <= 60 ==> s.after_all(state, seq![e]) == s.after(
            state,
            crate::events::event_view(e),
        ),
        s.lines.len() > 60 ==> s.after_all(state, a) == s,
        ({
            let end = StylingView::start().after_all(state, a);
            if end.spans.len() > 0 {
                styled_lines(state, a) == end.lines.push(styled_lines(state, a).last())
                    && styled_lines(state, a).last().spans == end.spans
            } else {
                styled_lines(state, a) == end.lines
            }
        }),
    decreases a.len(),
{
    assert(seq![e].drop_first() =~= seq![]);
    let once = s.after(state, crate::events::event_view(e));
    assert(once.after_all(state, seq![]) == once);
    if a.len() == 0 {
        assert(a + b =~= b);
    } else {
        assert((a + b).drop_first() =~= a.drop_first() + b);
        assert((a + b)[0] == a[0]);
        let next = s.after(state, crate::events::event_view(a[0]));
        if s.lines.len() <= MD_PREVIEW_MAX_LINES {
            law_documents_are_styled_in_order(next, state, a.drop_first(), b, e);
        }
    }
}

/// Inline code has its own size and background. A heading and a code block begin and end with
/// their events; a code block is read in the language that its fence names, and its lines come
/// behind all others, in as many quotes as it stands in.
pub proof fn law_code_and_headings_are_tracked(
    s: StylingView,
    state: AppState,
    e: crate::events::EventView,
)
    ensures
        e.shape == Shape::Code ==> s.after(state, e).spans == s.spans.push(
            SpanView {
                text: e.text,
                color: Rgb { r: 0xf0, g: 0xf3, b: 0xf6 },
                font_size: FontSize::Code,
                has_bg: true,
            },
        ) && s.after(state, e).lines == s.lines,
        e.shape == Shape::Start && e.element is Heading ==> s.after(state, e).in_heading,
        e.shape == Shape::End && e.element is Heading ==> !s.after(state, e).in_heading,
        e.shape == Shape::Start && e.element == Element::CodeBlock ==> {
            let after = s.after(state, e);
            &&& after.in_code
            &&& after.code_text.len() == 0
            &&& after.code_lang == crate::markdown::code_language(e.text)
        },
        e.shape == Shape::End && e.element == Element::CodeBlock ==> {
            let after = s.after(state, e);
            &&& !after.in_code
            &&& after.lines == s.lines + code_block_lines(
                state,
                s.code_text,
                s.code_lang,
                s.depth,
                s.lines.len(),
            )
        },
{
}

/// A blank line comes before a block that follows another one, and none before the first.
pub proof fn law_blocks_are_set_apart(s: StylingView, state: AppState, e: crate::events::EventView)
    requires
        e.shape == Shape::Start,
        e.element == Element::Paragraph || e.element is Heading || e.element == Element::CodeBlock
            || (e.element == Element::BlockQuote && s.depth == 0) || (e.element == Element::List
            && s.list_indent == 0),
    ensures
        s.need_gap ==> s.after(state, e).lines == s.lines.push(
            s.after(state, e).lines.last(),
        ) && s.after(state, e).lines.last().spans.len() == 0,
        !s.need_gap ==> s.after(state, e).lines == s.lines,
        !s.after(state, e).need_gap,
        !StylingView::start().need_gap,
{
}

/// What ends is followed by a blank line before the next block: paragraphs, headings, quotes, code
/// blocks, rules, and lists that stand in no other list.
pub proof fn law_blocks_ask_for_a_gap(s: StylingView, state: AppState, e: crate::events::EventView)
    requires
        (e.shape == Shape::End && (e.element == Element::Paragraph || e.element is Heading
            || e.element == Element::BlockQuote || e.element == Element::CodeBlock || (e.element
            == Element::List && s.list_indent <= 1))) || e.shape == Shape::Rule,
    ensures
        s.after(state, e).need_gap,
{
}

} // verus!
