//! What a client asked for: a page, or plain text.

use vstd::prelude::*;
use vstd::string::*;
use crate::text::{contains, same, starts_with};

verus! {

/// The headers of a request: for each lower-case name its first value, as far as that is text.
pub struct RequestHeaders {
    pub entries: Vec<(String, String)>,
}

/// The characters of some headers.
pub open spec fn header_views(v: Seq<(String, String)>) -> Seq<(Seq<char>, Seq<char>)> {
    v.map_values(|e: (String, String)| (e.0@, e.1@))
}

impl View for RequestHeaders {
    type V = Seq<(Seq<char>, Seq<char>)>;

    open spec fn view(&self) -> Seq<(Seq<char>, Seq<char>)> {
        header_views(self.entries@)
    }
}

/// The value of the first header of the given name.
pub open spec fn header(headers: Seq<(Seq<char>, Seq<char>)>, name: Seq<char>) -> Option<Seq<char>>
    decreases headers.len(),
{
    if headers.len() == 0 {
        None
    } else if headers[0].0 == name {
        Some(headers[0].1)
    } else {
        header(headers.drop_first(), name)
    }
}

/// Looks up a header by its lower-case name.
pub fn header_value<'a>(headers: &'a RequestHeaders, name: &str) -> (r: Option<&'a str>)
    ensures
        crate::state::text_of(r) == header(headers@, name@),
{
    let ghost v = headers@;
    let mut i: usize = 0;
    assert(v.skip(0) =~= v);
    while i < headers.entries.len()
        invariant
            v == headers@,
            v.len() == headers.entries@.len(),
            i <= headers.entries@.len(),
            header(v, name@) == header(v.skip(i as int), name@),
        decreases headers.entries@.len() - i,
    {
        proof {
            assert(v.skip(i as int)[0] == v[i as int]);
            assert(v[i as int] == (
                headers.entries@[i as int].0@,
                headers.entries@[i as int].1@,
            ));
            assert(v.skip(i as int).drop_first() =~= v.skip(i + 1));
        }
        if same(headers.entries[i].0.as_str(), name) {
            return Some(headers.entries[i].1.as_str());
        }
        i = i + 1;
    }
    None
}

/// Whether the headers ask for HTML.
pub open spec fn asks_for_html(headers: Seq<(Seq<char>, Seq<char>)>) -> bool {
    match header(headers, "accept"@) {
        Some(accept) => crate::text::occurs_in("text/html"@, accept),
        None => false,
    }
}

/// Whether the client asked for HTML. Browsers name `text/html` in `Accept`; command-line clients
/// send `*/*` or nothing, and get plain text.
pub fn wants_html(headers: &RequestHeaders) -> (r: bool)
    ensures
        r == asks_for_html(headers@),
{
    match header_value(headers, "accept") {
        Some(accept) => contains(accept, "text/html"),
        None => false,
    }
}

/// The plain text that goes with an HTML response, for clients that did not ask for HTML.
#[derive(Clone)]
pub struct PlainAlternate(pub String);

/// What becomes of a response.
#[derive(Clone, Copy, PartialEq, Eq, Structural)]
pub enum Negotiated {
    /// It is sent as it is.
    AsIs,
    /// It is sent with `Vary: accept`.
    Marked,
    /// Its plain-text alternate is sent in its place, with `Vary: accept`.
    PlainText,
}

/// Whether a content type is one that is negotiated.
pub open spec fn is_negotiable(content_type: Option<Seq<char>>) -> bool {
    match content_type {
        Some(ct) => "text/html"@.is_prefix_of(ct) || "text/plain"@.is_prefix_of(ct),
        None => false,
    }
}

/// What becomes of a response with the given content type.
pub open spec fn negotiated(
    wants_html: bool,
    content_type: Option<Seq<char>>,
    has_alternate: bool,
) -> Negotiated {
    if !is_negotiable(content_type) {
        Negotiated::AsIs
    } else if !wants_html && has_alternate {
        Negotiated::PlainText
    } else {
        Negotiated::Marked
    }
}

/// Decides what becomes of a response with the given content type.
pub fn negotiate(wants_html: bool, content_type: Option<&str>, has_alternate: bool) -> (r:
    Negotiated)
    ensures
        r == (if !is_negotiable(crate::state::text_of(content_type)) {
            Negotiated::AsIs
        } else if !wants_html && has_alternate {
            Negotiated::PlainText
        } else {
            Negotiated::Marked
        }),
        r == negotiated(wants_html, crate::state::text_of(content_type), has_alternate),
{
    let negotiable: bool = match content_type {
        Some(ct) => starts_with(ct, "text/html") || starts_with(ct, "text/plain"),
        None => false,
    };
    if !negotiable {
        return Negotiated::AsIs;
    }
    if !wants_html && has_alternate {
        return Negotiated::PlainText;
    }
    Negotiated::Marked
}

/// The first header of a name counts, whatever others come before and behind it.
pub proof fn law_first_header_counts(
    before: Seq<(Seq<char>, Seq<char>)>,
    name: Seq<char>,
    value: Seq<char>,
    behind: Seq<(Seq<char>, Seq<char>)>,
)
    requires
        forall|i: int| 0 <= i < before.len() ==> (#[trigger] before[i]).0 != name,
    ensures
        header(before, name) is None,
        header(before + seq![(name, value)] + behind, name) == Some(value),
    decreases before.len(),
{
    let all = before + seq![(name, value)] + behind;
    if before.len() == 0 {
        assert(all[0] == (name, value));
    } else {
        assert(before[0].0 != name);
        assert forall|i: int| 0 <= i < before.drop_first().len() implies (
        #[trigger] before.drop_first()[i]).0 != name by {
            assert(before.drop_first()[i] == before[i + 1]);
        }
        law_first_header_counts(before.drop_first(), name, value, behind);
        assert(all[0] == before[0]);
        assert(all.drop_first() =~= before.drop_first() + seq![(name, value)] + behind);
    }
}

/// A client gets HTML where it names `text/html` anywhere in what it accepts, and only there.
pub proof fn law_html_is_sent_to_those_who_accept_it(
    headers: Seq<(Seq<char>, Seq<char>)>,
    before: Seq<char>,
    behind: Seq<char>,
)
    ensures
        header(headers, "accept"@) == Some(before + "text/html"@ + behind) ==> asks_for_html(headers),
        asks_for_html(headers) ==> exists|a: Seq<char>, b: Seq<char>|
            header(headers, "accept"@) == Some(#[trigger] (a + "text/html"@ + b)),
{
    let p = "text/html"@;
    let s = before + p + behind;
    let n = before.len() as int;
    assert(s.skip(n).subrange(0, p.len() as int) =~= p);
    assert(p.is_prefix_of(s.skip(n)));
    if asks_for_html(headers) {
        let accept = header(headers, "accept"@)->0;
        let i = choose|i: int| 0 <= i <= accept.len() && #[trigger] p.is_prefix_of(accept.skip(i));
        let a = accept.take(i);
        let b = accept.skip(i + p.len());
        assert(accept.skip(i).subrange(0, p.len() as int) =~= p);
        assert(a + p + b =~= accept);
    }
}

/// Only HTML and plain text depend on what the client accepts. A client that asks for HTML gets
/// the page; another one gets the plain text where there is any.
pub proof fn law_plain_text_is_for_those_who_do_not_want_html(
    wants_html: bool,
    content_type: Seq<char>,
    rest: Seq<char>,
    has_alternate: bool,
)
    ensures
        negotiated(wants_html, None, has_alternate) == Negotiated::AsIs,
        negotiated(wants_html, Some(content_type), has_alternate) == Negotiated::PlainText
            ==> !wants_html && has_alternate,
        negotiated(true, Some("text/html"@ + rest), has_alternate) == Negotiated::Marked,
        negotiated(true, Some("text/plain"@ + rest), has_alternate) == Negotiated::Marked,
        negotiated(false, Some("text/html"@ + rest), true) == Negotiated::PlainText,
        negotiated(false, Some("text/html"@ + rest), false) == Negotiated::Marked,
        negotiated(false, Some("text/plain"@ + rest), true) == Negotiated::PlainText,
        negotiated(false, Some("text/plain"@ + rest), false) == Negotiated::Marked,
        negotiated(wants_html, Some(content_type), has_alternate) != Negotiated::AsIs ==> (exists|
            r: Seq<char>,
        |
            content_type == #[trigger] ("text/html"@ + r)) || (exists|r: Seq<char>|
            content_type == #[trigger] ("text/plain"@ + r)),
{
    let html = "text/html"@;
    let plain = "text/plain"@;
    assert((html + rest).subrange(0, html.len() as int) =~= html);
    assert((plain + rest).subrange(0, plain.len() as int) =~= plain);
    if html.is_prefix_of(content_type) {
        assert(content_type.subrange(0, html.len() as int) == html);
        assert(html + content_type.skip(html.len() as int) =~= content_type);
    } else if plain.is_prefix_of(content_type) {
        assert(content_type.subrange(0, plain.len() as int) == plain);
        assert(plain + content_type.skip(plain.len() as int) =~= content_type);
    }
}

} // verus!
