//! Markdown as a stream of events.

use pulldown_cmark::{CodeBlockKind, Event, Options, Parser, Tag, TagEnd};
use vstd::prelude::*;

verus! {

/// One markdown event (`pulldown_cmark::Event`).
#[verifier::external_type_specification]
#[verifier::external_body]
pub struct ExEvent<'a>(Event<'a>);

/// Which variant of the event type an event is.
#[derive(Clone, Copy, PartialEq, Eq, Structural)]
pub enum Shape {
    Start,
    End,
    Text,
    Code,
    Html,
    InlineHtml,
    SoftBreak,
    HardBreak,
    Rule,
    Other,
}

/// The elements that the renderers tell apart.
#[derive(Clone, Copy, PartialEq, Eq, Structural)]
pub enum Element {
    Heading(u8),
    Paragraph,
    BlockQuote,
    CodeBlock,
    List,
    Item,
    Link,
    Image,
    Other,
}

/// What the renderers read of an event.
pub struct EventView {
    pub shape: Shape,
    /// The element that the event starts or ends; `Other` for every other event.
    pub element: Element,
    /// The text, code or markup of the event, the target of a link or image that it starts, or
    /// the info string of the fenced code block that it starts; otherwise empty.
    pub text: Seq<char>,
    /// The number of the first item, for the start of an ordered list.
    pub number: Option<u64>,
}

/// What an event holds.
pub uninterp spec fn event_view(event: Event<'static>) -> EventView;

/// Which extensions of markdown are understood.
#[derive(Clone, Copy, PartialEq, Eq, Structural)]
pub struct Grammar {
    pub tables: bool,
    pub footnotes: bool,
    pub strikethrough: bool,
    pub task_lists: bool,
    pub smart_punctuation: bool,
    pub heading_attributes: bool,
}

/// The extensions that pastes are read with. The page and the preview of a paste share them.
/// Attributes of headings are left out, because an author could make them run a script.
pub open spec fn paste_grammar() -> Grammar {
    Grammar {
        tables: true,
        footnotes: true,
        strikethrough: true,
        task_lists: true,
        smart_punctuation: true,
        heading_attributes: false,
    }
}

/// The events of a markdown document.
pub uninterp spec fn parsed_events(source: Seq<char>, grammar: Grammar) -> Seq<Event<'static>>;

/// The events of a paste.
pub open spec fn document_events(source: Seq<char>) -> Seq<Event<'static>> {
    parsed_events(source, paste_grammar())
}

/// Reads which variant an event is (`pulldown_cmark::Event`).
#[verifier::external_body]
pub(crate) fn event_shape(event: &Event<'static>) -> (r: Shape)
    ensures
        r == event_view(*event).shape,
{
    match event {
        Event::Start(_) => Shape::Start,
        Event::End(_) => Shape::End,
        Event::Text(_) => Shape::Text,
        Event::Code(_) => Shape::Code,
        Event::Html(_) => Shape::Html,
        Event::InlineHtml(_) => Shape::InlineHtml,
        Event::SoftBreak => Shape::SoftBreak,
        Event::HardBreak => Shape::HardBreak,
        Event::Rule => Shape::Rule,
        _ => Shape::Other,
    }
}

/// Reads the element that an event starts or ends (`pulldown_cmark::Tag`, `TagEnd`).
#[verifier::external_body]
pub(crate) fn event_element(event: &Event<'static>) -> (r: Element)
    ensures
        r == event_view(*event).element,
{
    let tag = match event {
        Event::Start(tag) => tag.to_end(),
        Event::End(tag) => *tag,
        _ => return Element::Other,
    };
    match tag {
        TagEnd::Heading(level) => Element::Heading(level as u8), TagEnd::Paragraph => Element::Paragraph,
        TagEnd::BlockQuote(_) => Element::BlockQuote, TagEnd::CodeBlock => Element::CodeBlock,
        TagEnd::List(_) => Element::List, TagEnd::Item => Element::Item,
        TagEnd::Link => Element::Link, TagEnd::Image => Element::Image,
        _ => Element::Other,
    }
}

/// Reads the number of the first item of the list that an event starts (`pulldown_cmark::Tag`).
#[verifier::external_body]
pub(crate) fn event_number(event: &Event<'static>) -> (r: Option<u64>)
    ensures
        r == event_view(*event).number,
{
    match event {
        Event::Start(Tag::List(first)) => *first,
        _ => None,
    }
}

/// Reads the text, code, markup, link target or info string of an event.
#[verifier::external_body]
pub(crate) fn event_text(event: &Event<'static>) -> (r: String)
    ensures
        r@ == event_view(*event).text,
{
    match event {
        Event::Text(text) | Event::Code(text) | Event::Html(text) | Event::InlineHtml(text) => text.to_string(),
        Event::Start(Tag::Link { dest_url, .. } | Tag::Image { dest_url, .. }) => dest_url.to_string(),
        Event::Start(Tag::CodeBlock(CodeBlockKind::Fenced(info))) => info.to_string(),
        _ => String::new(),
    }
}

/// Parses a markdown document with the given extensions (`pulldown_cmark::Parser::new_ext`).
#[verifier::external_body]
fn parse_with(source: &str, grammar: Grammar) -> (r: Vec<Event<'static>>)
    ensures
        r@ == parsed_events(source@, grammar),
{
    let mut options = Options::empty();
    options.set(Options::ENABLE_TABLES, grammar.tables);
    options.set(Options::ENABLE_FOOTNOTES, grammar.footnotes);
    options.set(Options::ENABLE_STRIKETHROUGH, grammar.strikethrough);
    options.set(Options::ENABLE_TASKLISTS, grammar.task_lists);
    options.set(Options::ENABLE_SMART_PUNCTUATION, grammar.smart_punctuation);
    options.set(Options::ENABLE_HEADING_ATTRIBUTES, grammar.heading_attributes);
    Parser::new_ext(source, options).map(|event| event.into_static()).collect()
}

/// Parses a paste.
pub fn parse_document(source: &str) -> (r: Vec<Event<'static>>)
    ensures
        r@ == document_events(source@),
{
    parse_with(
        source,
        Grammar {
            tables: true,
            footnotes: true,
            strikethrough: true,
            task_lists: true,
            smart_punctuation: true,
            heading_attributes: false,
        },
    )
}

} // verus!
