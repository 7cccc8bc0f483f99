//! Markdown as HTML that cannot carry a script: raw HTML becomes text, links keep only safe
//! targets, and code blocks are rendered by the highlighter.

use pulldown_cmark::{Event, Tag};
use vstd::prelude::*;
use vstd::string::*;
use crate::events::{event_element, event_shape, event_text, parse_document, Element, Shape};
use crate::highlighter::render_markdown_code_block;
use crate::links::{is_safe_markdown_url, sanitize_markdown_url};
use crate::state::AppState;
use crate::text::first_word;

verus! {

/// An event as it goes into the HTML.
pub enum HtmlEvent {
    /// An event of the document, as it is.
    Keep(Event<'static>),
    /// Plain text, which is escaped.
    Text(String),
    /// Finished HTML.
    Html(String),
    /// The start of a link or image, with another target.
    Retarget(Event<'static>, String),
}

/// What an [`HtmlEvent`] holds.
pub enum HtmlEventView {
    Keep(Event<'static>),
    Text(Seq<char>),
    Html(Seq<char>),
    Retarget(Event<'static>, Seq<char>),
}

impl View for HtmlEvent {
    type V = HtmlEventView;

    open spec fn view(&self) -> HtmlEventView {
        match self {
            HtmlEvent::Keep(event) => HtmlEventView::Keep(*event),
            HtmlEvent::Text(text) => HtmlEventView::Text(text@),
            HtmlEvent::Html(html) => HtmlEventView::Html(html@),
            HtmlEvent::Retarget(event, url) => HtmlEventView::Retarget(*event, url@),
        }
    }
}

/// What some events hold.
pub open spec fn html_views(v: Seq<HtmlEvent>) -> Seq<HtmlEventView> {
    v.map_values(|e: HtmlEvent| e@)
}

/// The HTML of some events.
pub uninterp spec fn events_html(events: Seq<HtmlEventView>) -> Seq<char>;

/// Writes events as HTML (`pulldown_cmark::html::push_html`): kept events as they are, texts as
/// text events, finished HTML as HTML events, and starts of links and images with the target
/// that is given for them.
#[verifier::external_body]
fn push_html(events: Vec<HtmlEvent>) -> (r: String)
    ensures
        r@ == events_html(html_views(events@)),
{
    let mut html = String::new();
    pulldown_cmark::html::push_html(&mut html, events.into_iter().map(|event| match event {
        HtmlEvent::Keep(event) => event,
        HtmlEvent::Text(text) => Event::Text(text.into()),
        HtmlEvent::Html(html) => Event::Html(html.into()),
        HtmlEvent::Retarget(Event::Start(Tag::Link { link_type, title, id, .. }), url) =>
            Event::Start(Tag::Link { link_type, dest_url: url.into(), title, id }),
        HtmlEvent::Retarget(Event::Start(Tag::Image { link_type, title, id, .. }), url) =>
            Event::Start(Tag::Image { link_type, dest_url: url.into(), title, id }),
        HtmlEvent::Retarget(event, _) => event,
    }));
    html
}

/// Whether an event starts a code block.
pub open spec fn opens_code(event: Event<'static>) -> bool {
    let v = crate::events::event_view(event);
    v.shape == Shape::Start && v.element == Element::CodeBlock
}

/// Whether an event ends a code block.
pub open spec fn closes_code(event: Event<'static>) -> bool {
    let v = crate::events::event_view(event);
    v.shape == Shape::End && v.element == Element::CodeBlock
}

/// Whether an event starts a link or an image.
pub open spec fn opens_link(event: Event<'static>) -> bool {
    let v = crate::events::event_view(event);
    v.shape == Shape::Start && (v.element == Element::Link || v.element == Element::Image)
}

/// Whether an event is raw HTML.
pub open spec fn is_raw_html(event: Event<'static>) -> bool {
    let v = crate::events::event_view(event);
    v.shape == Shape::Html || v.shape == Shape::InlineHtml
}

/// The number of events up to the end of the code block that they are in, its end included.
pub open spec fn code_len(events: Seq<Event<'static>>) -> int
    decreases events.len(),
{
    if events.len() == 0 {
        0
    } else if closes_code(events[0]) {
        1
    } else {
        1 + code_len(events.drop_first())
    }
}

/// The texts in some events, put one after the other.
pub open spec fn texts_in(events: Seq<Event<'static>>) -> Seq<char>
    decreases events.len(),
{
    if events.len() == 0 {
        seq![]
    } else {
        let v = crate::events::event_view(events.last());
        texts_in(events.drop_last()) + (if v.shape == Shape::Text {
            v.text
        } else {
            seq![]
        })
    }
}

/// The language in the info string of a code block: its first word, if it has one.
pub open spec fn code_language(info: Seq<char>) -> Option<Seq<char>> {
    let word = crate::text::leading_word(info);
    if word.len() == 0 {
        None
    } else {
        Some(word)
    }
}

/// The code blocks of a document: the language and the code of each.
pub open spec fn code_blocks(events: Seq<Event<'static>>) -> Seq<(Option<Seq<char>>, Seq<char>)>
    decreases events.len(),
{
    if events.len() == 0 {
        seq![]
    } else if opens_code(events[0]) {
        let rest = events.drop_first();
        let n = code_len(rest);
        let block = (
            code_language(crate::events::event_view(events[0]).text),
            texts_in(rest.take(n)),
        );
        if 0 <= n <= rest.len() {
            seq![block] + code_blocks(rest.skip(n))
        } else {
            seq![block]
        }
    } else {
        code_blocks(events.drop_first())
    }
}

/// An event outside code blocks, made safe: raw HTML becomes text, an unsafe link target `#`.
pub open spec fn made_safe(event: Event<'static>) -> HtmlEventView {
    let v = crate::events::event_view(event);
    if is_raw_html(event) {
        HtmlEventView::Text(v.text)
    } else if opens_link(event) && !crate::links::is_safe(v.text) {
        HtmlEventView::Retarget(event, "#"@)
    } else {
        HtmlEventView::Keep(event)
    }
}

/// The events of a document, made safe, with the HTML of its code blocks put in their places.
pub open spec fn sanitized(events: Seq<Event<'static>>, blocks: Seq<Seq<char>>) -> Seq<
    HtmlEventView,
>
    decreases events.len(),
{
    if events.len() == 0 {
        seq![]
    } else if opens_code(events[0]) {
        let rest = events.drop_first();
        let n = code_len(rest);
        if 0 <= n <= rest.len() {
            seq![HtmlEventView::Html(blocks[0])] + sanitized(rest.skip(n), blocks.drop_first())
        } else {
            seq![HtmlEventView::Html(blocks[0])]
        }
    } else {
        seq![made_safe(events[0])] + sanitized(events.drop_first(), blocks)
    }
}

/// Whether an event can go into the HTML of a document whose code blocks have the given HTML:
/// finished HTML is that of a code block, and every link target is safe.
pub open spec fn is_harmless(event: HtmlEventView, blocks: Seq<Seq<char>>) -> bool {
    match event {
        HtmlEventView::Keep(e) => !is_raw_html(e) && (opens_link(e) ==> crate::links::is_safe(
            crate::events::event_view(e).text,
        )),
        HtmlEventView::Text(_) => true,
        HtmlEventView::Html(html) => blocks.contains(html),
        HtmlEventView::Retarget(_, url) => crate::links::is_safe(url),
    }
}

proof fn lemma_code_len(events: Seq<Event<'static>>)
    ensures
        0 <= code_len(events) <= events.len(),
    decreases events.len(),
{
    if events.len() > 0 {
        lemma_code_len(events.drop_first());
    }
}

/// Whatever a document holds, what is handed on to be written as HTML has no raw HTML of its
/// author, only text in its place, and no unsafe link target: the only HTML in it is that of the
/// rendered code blocks.
pub proof fn law_no_markup_gets_through(events: Seq<Event<'static>>, blocks: Seq<Seq<char>>)
    requires
        blocks.len() == code_blocks(events).len(),
    ensures
        forall|i: int|
            0 <= i < sanitized(events, blocks).len() ==> is_harmless(
                #[trigger] sanitized(events, blocks)[i],
                blocks,
            ),
    decreases events.len(),
{
    if events.len() > 0 {
        let out = sanitized(events, blocks);
        if opens_code(events[0]) {
            let rest = events.drop_first();
            let n = code_len(rest);
            lemma_code_len(rest);
            let tail = blocks.drop_first();
            law_no_markup_gets_through(rest.skip(n), tail);
            assert(blocks.contains(blocks[0]));
            assert forall|i: int| 0 <= i < out.len() implies is_harmless(
                #[trigger] out[i],
                blocks,
            ) by {
                if i > 0 {
                    let e = sanitized(rest.skip(n), tail)[i - 1];
                    assert(out[i] == e);
                    assert(is_harmless(e, tail));
                    if e is Html {
                        let k = choose|k: int| 0 <= k < tail.len() && tail[k] == e->Html_0;
                        assert(blocks[k + 1] == tail[k]);
                    }
                }
            }
        } else {
            law_no_markup_gets_through(events.drop_first(), blocks);
            crate::links::lemma_fragment_is_safe();
            assert forall|i: int| 0 <= i < out.len() implies is_harmless(
                #[trigger] out[i],
                blocks,
            ) by {
                if i > 0 {
                    assert(out[i] == sanitized(events.drop_first(), blocks)[i - 1]);
                }
            }
        }
    }
}

/// A document without raw HTML, code blocks and unsafe links goes into the HTML unchanged.
pub proof fn law_safe_documents_are_kept(events: Seq<Event<'static>>, blocks: Seq<Seq<char>>)
    requires
        forall|i: int|
            0 <= i < events.len() ==> !opens_code(#[trigger] events[i]) && !is_raw_html(events[i])
                && (opens_link(events[i]) ==> crate::links::is_safe(
                crate::events::event_view(events[i]).text,
            )),
    ensures
        sanitized(events, blocks) == events.map_values(
            |e: Event<'static>| HtmlEventView::Keep(e),
        ),
    decreases events.len(),
{
    let want = events.map_values(|e: Event<'static>| HtmlEventView::Keep(e));
    if events.len() > 0 {
        let rest = events.drop_first();
        assert forall|i: int| 0 <= i < rest.len() implies !opens_code(#[trigger] rest[i])
            && !is_raw_html(rest[i]) && (opens_link(rest[i]) ==> crate::links::is_safe(
            crate::events::event_view(rest[i]).text,
        )) by {
            assert(rest[i] == events[i + 1]);
        }
        law_safe_documents_are_kept(rest, blocks);
        assert(!opens_code(events[0]));
    }
    assert(sanitized(events, blocks) =~= want);
}

/// Makes an event outside code blocks safe.
pub fn sanitize_event(event: Event<'static>) -> (r: HtmlEvent)
    ensures
        r@ == made_safe(event),
{
    let shape: Shape = event_shape(&event);
    if shape == Shape::Html || shape == Shape::InlineHtml {
        return HtmlEvent::Text(event_text(&event));
    }
    let element: Element = event_element(&event);
    if shape == Shape::Start && (element == Element::Link || element == Element::Image) {
        let target: String = event_text(&event);
        if !is_safe_markdown_url(target.as_str()) {
            return HtmlEvent::Retarget(event, sanitize_markdown_url(target));
        }
    }
    HtmlEvent::Keep(event)
}

/// Whether `f` may return `html` for a code block.
pub open spec fn renders<F: Fn(Option<&str>, &str) -> String>(
    f: F,
    block: (Option<Seq<char>>, Seq<char>),
    html: Seq<char>,
) -> bool {
    exists|lang: Option<&str>, code: &str, r: String|
        crate::state::text_of(lang) == block.0 && code@ == block.1 && r@ == html
            && #[trigger] call_ensures(f, (lang, code), r)
}

/// Whether `f` may return these texts for the code blocks of a document, in order.
pub open spec fn renders_all<F: Fn(Option<&str>, &str) -> String>(
    f: F,
    blocks: Seq<(Option<Seq<char>>, Seq<char>)>,
    html: Seq<Seq<char>>,
) -> bool {
    html.len() == blocks.len() && forall|k: int|
        0 <= k < html.len() ==> renders(f, blocks[k], #[trigger] html[k])
}

/// Turns the order of some events around.
fn reversed(events: Vec<Event<'static>>) -> (r: Vec<Event<'static>>)
    ensures
        r@ == events@.reverse(),
{
    let mut rest: Vec<Event<'static>> = events;
    let mut out: Vec<Event<'static>> = Vec::new();
    let ghost all = events@;
    loop
        invariant
            rest@.len() + out@.len() == all.len(),
            rest@ == all.take(rest@.len() as int),
            forall|i: int| 0 <= i < out@.len() ==> #[trigger] out@[i] == all[all.len() - 1 - i],
            all == events@,
        decreases rest@.len(),
    {
        match rest.pop() {
            None => {
                assert(out@ =~= all.reverse());
                return out;
            },
            Some(event) => {
                out.push(event);
            },
        }
    }
}

/// Takes the next of some events that are kept last one first.
fn next_event(stack: &mut Vec<Event<'static>>) -> (r: Option<Event<'static>>)
    ensures
        r is None ==> old(stack)@.reverse().len() == 0,
        r matches Some(event) ==> old(stack)@.reverse().len() > 0 && event == old(
            stack,
        )@.reverse()[0] && final(stack)@.reverse() == old(stack)@.reverse().drop_first(),
        r is None ==> final(stack)@ == old(stack)@,
{
    let r = stack.pop();
    proof {
        if r is Some {
            assert(stack@.reverse() =~= old(stack)@.reverse().drop_first());
        }
    }
    r
}

/// The rest of a code block: its texts, put one after the other. The events, which are kept last
/// one first, are taken up to and with the end of the block.
fn take_code(events: &mut Vec<Event<'static>>) -> (r: String)
    ensures
        final(events)@.reverse() == old(events)@.reverse().skip(
            code_len(old(events)@.reverse()),
        ),
        r@ == texts_in(old(events)@.reverse().take(code_len(old(events)@.reverse()))),
{
    let ghost all = events@.reverse();
    let ghost mut n: int = 0;
    let mut code = String::new();
    proof {
        assert(all.skip(0) =~= all);
        assert(all.take(0) =~= seq![]);
    }
    loop
        invariant
            all == old(events)@.reverse(),
            0 <= n <= all.len(),
            events@.reverse() == all.skip(n),
            code@ == texts_in(all.take(n)),
            code_len(all) == n + code_len(all.skip(n)),
        decreases all.len() - n,
    {
        match next_event(events) {
            None => {
                return code;
            },
            Some(event) => {
                proof {
                    assert(event == all[n]);
                    assert(all.skip(n).drop_first() =~= all.skip(n + 1));
                    assert(all.take(n + 1).drop_last() =~= all.take(n));
                }
                let shape: Shape = event_shape(&event);
                if shape == Shape::Text {
                    code.append(event_text(&event).as_str());
                } else {
                    assert(code@ + seq![] =~= code@);
                    if shape == Shape::End && event_element(&event) == Element::CodeBlock {
                        return code;
                    }
                }
                proof {
                    n = n + 1;
                }
            },
        }
    }
}

/// Makes the events of a document safe, rendering its code blocks with `render_code_block`.
pub fn sanitize_events<F: Fn(Option<&str>, &str) -> String>(
    events: Vec<Event<'static>>,
    render_code_block: F,
) -> (r: Vec<HtmlEvent>)
    requires
        forall|lang: Option<&str>, code: &str| call_requires(render_code_block, (lang, code)),
    ensures
        exists|blocks: Seq<Seq<char>>| #[trigger]
            renders_all(render_code_block, code_blocks(events@), blocks) && html_views(r@)
                == sanitized(events@, blocks),
{
    let ghost all = events@;
    let mut out: Vec<HtmlEvent> = Vec::new();
    let ghost mut n: int = 0;
    let ghost mut blocks: Seq<Seq<char>> = seq![];
    let ghost mut found: Seq<(Option<Seq<char>>, Seq<char>)> = seq![];
    let mut stack: Vec<Event<'static>> = reversed(events);
    proof {
        assert(all.skip(0) =~= all);
        assert(stack@.reverse() =~= all);
        assert(code_blocks(all) =~= found + code_blocks(all));
        assert forall|tail: Seq<Seq<char>>|
            sanitized(all, blocks + tail) == html_views(out@) + #[trigger] sanitized(
                all.skip(0),
                tail,
            ) by {
            assert(blocks + tail =~= tail);
            assert(html_views(out@) + sanitized(all, tail) =~= sanitized(all, tail));
        }
    }
    loop
        invariant
            forall|lang: Option<&str>, code: &str| call_requires(render_code_block, (lang, code)),
            all == events@,
            0 <= n <= all.len(),
            stack@.reverse() == all.skip(n),
            code_blocks(all) == found + code_blocks(all.skip(n)),
            renders_all(render_code_block, found, blocks),
            forall|tail: Seq<Seq<char>>|
                sanitized(all, blocks + tail) == html_views(out@) + #[trigger] sanitized(
                    all.skip(n),
                    tail,
                ),
        decreases all.len() - n,
    {
        let ghost before = html_views(out@);
        let ghost here = all.skip(n);
        match next_event(&mut stack) {
            None => {
                proof {
                    assert(here =~= seq![]);
                    assert(code_blocks(all) =~= found);
                    assert(blocks + seq![] =~= blocks);
                    assert(before + sanitized(here, seq![]) =~= before);
                }
                return out;
            },
            Some(event) => {
                proof {
                    assert(event == all[n]);
                    assert(here.drop_first() =~= all.skip(n + 1));
                }
                if event_shape(&event) == Shape::Start && event_element(&event)
                    == Element::CodeBlock {
                    let info: String = event_text(&event);
                    let word: &str = first_word(info.as_str());
                    let lang: Option<&str> = if word.is_empty() {
                        None
                    } else {
                        Some(word)
                    };
                    let code: String = take_code(&mut stack);
                    let html: String = render_code_block(lang, code.as_str());
                    proof {
                        let rest = all.skip(n + 1);
                        let m = code_len(rest);
                        lemma_code_len(rest);
                        let block = (crate::state::text_of(lang), code@);
                        assert(rest.skip(m) =~= all.skip(n + 1 + m));
                        assert(code_blocks(here) == seq![block] + code_blocks(rest.skip(m)));
                        assert(found + (seq![block] + code_blocks(rest.skip(m))) =~= found.push(block)
                            + code_blocks(rest.skip(m)));
                        assert(renders(render_code_block, block, html@));
                        let more = blocks.push(html@);
                        let also = found.push(block);
                        assert forall|k: int| 0 <= k < more.len() implies renders(
                            render_code_block,
                            also[k],
                            #[trigger] more[k],
                        ) by {
                            if k < blocks.len() {
                                assert(more[k] == blocks[k]);
                                assert(also[k] == found[k]);
                            }
                        }
                        let after = before.push(HtmlEventView::Html(html@));
                        assert forall|tail: Seq<Seq<char>>|
                            sanitized(all, more + tail) == after + #[trigger] sanitized(
                                rest.skip(m),
                                tail,
                            ) by {
                            let longer = seq![html@] + tail;
                            assert(more + tail =~= blocks + longer);
                            assert(longer.drop_first() =~= tail);
                            assert(sanitized(here, longer) == seq![HtmlEventView::Html(html@)]
                                + sanitized(rest.skip(m), tail));
                            assert(before + (seq![HtmlEventView::Html(html@)] + sanitized(
                                rest.skip(m),
                                tail,
                            )) =~= after + sanitized(rest.skip(m), tail));
                        }
                        blocks = more;
                        found = also;
                        n = n + 1 + m;
                    }
                    out.push(HtmlEvent::Html(html));
                    assert(html_views(out@) =~= before.push(HtmlEventView::Html(html@)));
                } else {
                    let safe: HtmlEvent = sanitize_event(event);
                    out.push(safe);
                    proof {
                        let after = before.push(made_safe(event));
                        assert(html_views(out@) =~= after);
                        let rest = all.skip(n + 1);
                        assert forall|tail: Seq<Seq<char>>|
                            sanitized(all, blocks + tail) == after + #[trigger] sanitized(
                                rest,
                                tail,
                            ) by {
                            assert(sanitized(here, tail) == seq![made_safe(event)] + sanitized(
                                rest,
                                tail,
                            ));
                            assert(before + (seq![made_safe(event)] + sanitized(rest, tail))
                                =~= after + sanitized(rest, tail));
                        }
                        n = n + 1;
                    }
                }
            },
        }
    }
}

/// The HTML of a markdown document whose code blocks have the given HTML.
pub open spec fn document_html(content: Seq<char>, blocks: Seq<Seq<char>>) -> Seq<char> {
    events_html(sanitized(crate::events::document_events(content), blocks))
}

/// Renders markdown to HTML, with code blocks rendered by `render_code_block`.
pub fn render_markdown_with<F: Fn(Option<&str>, &str) -> String>(
    content: &str,
    render_code_block: F,
) -> (r: String)
    requires
        forall|lang: Option<&str>, code: &str| call_requires(render_code_block, (lang, code)),
    ensures
        exists|blocks: Seq<Seq<char>>| #[trigger]
            renders_all(
                render_code_block,
                code_blocks(crate::events::document_events(content@)),
                blocks,
            ) && r@ == document_html(content@, blocks),
{
    push_html(sanitize_events(parse_document(content), render_code_block))
}

/// The HTML of the code blocks of a document.
pub open spec fn blocks_html(
    state: AppState,
    blocks: Seq<(Option<Seq<char>>, Seq<char>)>,
) -> Seq<Seq<char>> {
    blocks.map_values(
        |b: (Option<Seq<char>>, Seq<char>)|
            crate::highlighter::code_block_html(state, b.0, b.1),
    )
}

/// Renders markdown to HTML, with highlighted code blocks.
pub fn render_markdown(state: &AppState, content: &str) -> (r: String)
    ensures
        r@ == document_html(
            content@,
            blocks_html(*state, code_blocks(crate::events::document_events(content@))),
        ),
{
    let render = |lang: Option<&str>, code: &str| -> (html: String)
        ensures
            html@ == crate::highlighter::code_block_html(
                *state,
                crate::state::text_of(lang),
                code@,
            ),
        { render_markdown_code_block(state, lang, code) };
    let r: String = render_markdown_with(content, render);
    proof {
        let found = code_blocks(crate::events::document_events(content@));
        let blocks = choose|blocks: Seq<Seq<char>>| #[trigger]
            renders_all(render, found, blocks) && r@ == document_html(content@, blocks);
        assert forall|k: int| 0 <= k < blocks.len() implies #[trigger] blocks[k] == blocks_html(
            *state,
            found,
        )[k] by {
            assert(renders(render, found[k], blocks[k]));
        }
        assert(blocks =~= blocks_html(*state, found));
    }
    r
}

/// The text of some events is that of each of them, one behind the other.
pub proof fn law_texts_add_up(a: Seq<Event<'static>>, b: Seq<Event<'static>>, e: Event<'static>)
    ensures
        texts_in(a + b) == texts_in(a) + texts_in(b),
        texts_in(seq![e]) == (if crate::events::event_view(e).shape == Shape::Text {
            crate::events::event_view(e).text
        } else {
            seq![]
        }),
    decreases b.len(),
{
    assert(seq![e].drop_last() =~= seq![]);
    assert(texts_in(seq![]) =~= seq![]);
    assert(texts_in(seq![e]) =~= (if crate::events::event_view(e).shape == Shape::Text {
        crate::events::event_view(e).text
    } else {
        seq![]
    }));
    if b.len() == 0 {
        assert(a + b =~= a);
        assert(texts_in(a) + texts_in(b) =~= texts_in(a));
    } else {
        law_texts_add_up(a, b.drop_last(), e);
        assert((a + b).drop_last() =~= a + b.drop_last());
        assert((a + b).last() == b.last());
        assert(texts_in(a + b) =~= texts_in(a) + texts_in(b));
    }
}

proof fn lemma_code_len_is(inner: Seq<Event<'static>>, close: Event<'static>, rest: Seq<Event<'static>>)
    requires
        forall|i: int| 0 <= i < inner.len() ==> !closes_code(#[trigger] inner[i]),
        closes_code(close),
    ensures
        code_len(inner + seq![close] + rest) == inner.len() + 1,
    decreases inner.len(),
{
    let all = inner + seq![close] + rest;
    if inner.len() == 0 {
        assert(all[0] == close);
    } else {
        assert(all[0] == inner[0]);
        assert(all.drop_first() =~= inner.drop_first() + seq![close] + rest);
        assert forall|i: int| 0 <= i < inner.drop_first().len() implies !closes_code(
            #[trigger] inner.drop_first()[i],
        ) by {
            assert(inner.drop_first()[i] == inner[i + 1]);
        }
        lemma_code_len_is(inner.drop_first(), close, rest);
    }
}

/// A code block is rendered as a whole, from the text in it and the language that it names, and
/// takes the place of its events; what comes behind it is not touched by it.
pub proof fn law_code_blocks_are_replaced(
    open: Event<'static>,
    inner: Seq<Event<'static>>,
    close: Event<'static>,
    rest: Seq<Event<'static>>,
    html: Seq<char>,
    blocks: Seq<Seq<char>>,
)
    requires
        opens_code(open),
        forall|i: int| 0 <= i < inner.len() ==> !closes_code(#[trigger] inner[i]),
        closes_code(close),
    ensures
        code_blocks(seq![open] + inner + seq![close] + rest) == seq![
            (
                code_language(crate::events::event_view(open).text),
                texts_in(inner),
            ),
        ] + code_blocks(rest),
        sanitized(seq![open] + inner + seq![close] + rest, seq![html] + blocks) == seq![
            HtmlEventView::Html(html),
        ] + sanitized(rest, blocks),
{
    let all = seq![open] + inner + seq![close] + rest;
    let tail = inner + seq![close] + rest;
    assert(all.drop_first() =~= tail);
    assert(all[0] == open);
    lemma_code_len_is(inner, close, rest);
    let n = inner.len() as int + 1;
    assert(tail.skip(n) =~= rest);
    assert(tail.take(n) =~= inner + seq![close]);
    law_texts_add_up(inner, seq![close], close);
    assert(texts_in(inner) + seq![] =~= texts_in(inner));
    assert((seq![html] + blocks).drop_first() =~= blocks);
}

/// Outside of code blocks each event is handed on by itself: raw HTML as the text that it is, a
/// link or image with an unsafe target with the target `#`, and everything else as it is.
pub proof fn law_other_events_are_handed_on(
    event: Event<'static>,
    rest: Seq<Event<'static>>,
    blocks: Seq<Seq<char>>,
)
    requires
        !opens_code(event),
    ensures
        ({
            let v = crate::events::event_view(event);
            let raw = v.shape == Shape::Html || v.shape == Shape::InlineHtml;
            let link = v.shape == Shape::Start && (v.element == Element::Link || v.element
                == Element::Image);
            &&& code_blocks(seq![event] + rest) == code_blocks(rest)
            &&& sanitized(seq![event] + rest, blocks) == seq![
                if raw {
                    HtmlEventView::Text(v.text)
                } else if link && crate::links::kept_target(v.text) != v.text {
                    HtmlEventView::Retarget(event, crate::links::kept_target(v.text))
                } else {
                    HtmlEventView::Keep(event)
                },
            ] + sanitized(rest, blocks)
        }),
{
    let all = seq![event] + rest;
    assert(all[0] == event);
    assert(all.drop_first() =~= rest);
    crate::links::lemma_fragment_is_safe();
}

/// The language of a code block is the first word of what stands behind its fence.
pub proof fn law_fences_name_the_language(a: Seq<char>, word: Seq<char>, b: Seq<char>)
    requires
        forall|i: int| 0 <= i < a.len() ==> crate::chars::is_white(#[trigger] a[i]),
        forall|i: int| 0 <= i < word.len() ==> !crate::chars::is_white(#[trigger] word[i]),
        b.len() > 0 ==> crate::chars::is_white(b[0]),
        word.len() > 0,
    ensures
        code_language(a + word + b) == Some(word),
        code_language(a) is None,
{
    crate::text::law_first_word_ends_at_white_space(a, word, b);
    crate::text::law_first_word_ends_at_white_space(a, seq![], seq![]);
    assert(a + seq![] + seq![] =~= a);
}

/// Each code block of a document is rendered by itself, in the order in which they come.
pub proof fn law_each_block_is_rendered(
    state: AppState,
    blocks: Seq<(Option<Seq<char>>, Seq<char>)>,
    k: int,
)
    requires
        0 <= k < blocks.len(),
    ensures
        blocks_html(state, blocks).len() == blocks.len(),
        blocks_html(state, blocks)[k] == crate::highlighter::code_block_html(
            state,
            blocks[k].0,
            blocks[k].1,
        ),
{
}

/// A code block lies between the events that start and end it.
pub proof fn law_events_bound_code_blocks(event: Event<'static>)
    ensures
        opens_code(event) <==> crate::events::event_view(event).shape == Shape::Start
            && crate::events::event_view(event).element == Element::CodeBlock,
        closes_code(event) <==> crate::events::event_view(event).shape == Shape::End
            && crate::events::event_view(event).element == Element::CodeBlock,
{
}

} // verus!
