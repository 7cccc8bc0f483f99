//! How requests are answered, as far as that takes no look at the database.

use vstd::prelude::*;
use vstd::std_specs::iter::*;
use vstd::string::*;
use crate::chars::Class;
use crate::db::sanitize_form;
use crate::highlighter::{detect_language_fast, is_markdown, render_paste_html, LanguageDetection};
use crate::markdown::render_markdown;
use crate::response::{header_value, wants_html, RequestHeaders};
use crate::state::{normalized_token, resolve_syntax, AppState, CreatePasteForm};
use crate::text::{split_at_first, starts_with, trim, trim_end_matches, trim_start};

verus! {

/// The characters that cannot be part of a URL.
pub open spec fn is_ascii_control(c: char) -> bool {
    c <= '\u{1f}' || c == '\u{7f}'
}

/// Whether content is a single web address, white space around it aside.
pub open spec fn names_url(content: Seq<char>) -> bool {
    let t = crate::text::trimmed(content);
    &&& crate::config::has_web_scheme(t)
    &&& forall|i: int| 0 <= i < t.len() ==> !is_ascii_control(#[trigger] t[i])
}

/// Whether the content of a paste is a URL, to which the paste then redirects.
pub fn is_url(content: &str) -> (r: bool)
    ensures
        r == names_url(content@),
{
    let trimmed: &str = trim(content);
    if !starts_with(trimmed, "http://") && !starts_with(trimmed, "https://") {
        return false;
    }
    let mut it = trimmed.chars();
    let ghost mut n: int = 0;
    assert(trimmed@.skip(0) =~= trimmed@);
    loop
        invariant
            trimmed@ == crate::text::trimmed(content@),
            crate::config::has_web_scheme(trimmed@),
            0 <= n <= trimmed@.len(),
            IteratorSpec::remaining(&it) == trimmed@.skip(n),
            forall|i: int| 0 <= i < n ==> !is_ascii_control(#[trigger] trimmed@[i]),
        decreases trimmed@.len() - n,
    {
        match it.next() {
            None => {
                return true;
            },
            Some(c) => {
                proof {
                    assert(c == trimmed@[n]);
                    assert(trimmed@.skip(n).drop_first() =~= trimmed@.skip(n + 1));
                    n = n + 1;
                }
                if c <= '\u{1f}' || c == '\u{7f}' {
                    return false;
                }
            },
        }
    }
}

/// Whether content that starts with `head` may be a URL.
pub open spec fn may_name_url(head: Seq<char>) -> bool {
    let t = crate::text::trimmed_start(head);
    crate::lines::size(t) >= 4 ==> "http"@.is_prefix_of(t)
}

/// Tells from the first characters of a paste's content whether it may be a URL.
pub fn head_may_be_url(head: &str) -> (r: bool)
    ensures
        r == may_name_url(head@),
{
    let trimmed: &str = trim_start(head);
    if trimmed.as_bytes().len() >= 4 {
        starts_with(trimmed, "http")
    } else {
        true
    }
}

/// The start of some content.
pub open spec fn head_of(content: Seq<char>, n: int) -> Seq<char> {
    if content.len() <= n {
        content
    } else {
        content.take(n)
    }
}

/// No URL is overlooked: however few characters of it are seen, they may be those of a URL.
pub proof fn law_head_admits_every_url(content: Seq<char>, n: int)
    requires
        0 <= n,
        names_url(content),
    ensures
        may_name_url(head_of(content, n)),
{
    let class = Class::NotWhite;
    let head = head_of(content, n);
    let start = crate::text::trimmed_start(content);
    let t = crate::text::trimmed(content);
    let p = crate::text::first_pos(content, class);
    crate::text::lemma_first_pos(content, class);
    crate::text::lemma_last_end(start, class);
    reveal_strlit("http://");
    reveal_strlit("https://");
    reveal_strlit("http");
    assert(t.len() >= 7);
    assert(t[0] == 'h' && t[1] == 't' && t[2] == 't' && t[3] == 'p') by {
        if "http://"@.is_prefix_of(t) {
            assert("http://"@ =~= t.subrange(0, 7));
            assert(t[0] == "http://"@[0] && t[1] == "http://"@[1] && t[2] == "http://"@[2] && t[3]
                == "http://"@[3]);
        } else {
            assert("https://"@ =~= t.subrange(0, 8));
            assert(t[0] == "https://"@[0] && t[1] == "https://"@[1] && t[2] == "https://"@[2]
                && t[3] == "https://"@[3]);
        }
    }
    assert forall|i: int| 0 <= i < 4 implies content[p + i] == t[i] by {
        assert(start[i] == t[i]);
    }
    if p >= head.len() {
        crate::text::lemma_first_pos_is(head, class, head.len() as int);
        assert(crate::text::trimmed_start(head) =~= seq![]);
        assert(vstd::utf8::encode_utf8(seq![]).len() == 0);
    } else {
        assert forall|i: int| 0 <= i < p implies !class.has_char(#[trigger] head[i]) by {
            assert(head[i] == content[i]);
        }
        crate::text::lemma_first_pos_is(head, class, p);
        let seen = crate::text::trimmed_start(head);
        assert(seen =~= content.subrange(p, head.len() as int));
        assert forall|i: int| 0 <= i < 4 && i < seen.len() implies #[trigger] seen[i] == t[i] by {
            assert(content[p + i] == t[i]);
        }
        if seen.len() < 4 {
            assert(vstd::utf8::is_ascii_chars(seen)) by {
                assert forall|i: int| 0 <= i < seen.len() implies '\0' <= #[trigger] seen[i]
                    <= '\u{7f}' by {
                    assert(seen[i] == t[i]);
                }
            }
            vstd::utf8::is_ascii_chars_encode_utf8(seen);
        } else {
            assert("http"@ =~= seen.subrange(0, 4));
        }
    }
}

/// The part of a header before its first comma, white space around it dropped.
pub open spec fn first_listed(value: Seq<char>) -> Seq<char> {
    crate::text::trimmed(value.take(crate::text::first_pos(value, Class::Is(','))))
}

/// What a proxy says in a header: the first of the values listed there.
pub open spec fn forwarded(headers: Seq<(Seq<char>, Seq<char>)>, name: Seq<char>) -> Option<
    Seq<char>,
> {
    match crate::response::header(headers, name) {
        Some(value) => Some(first_listed(value)),
        None => None,
    }
}

/// Reads what a proxy says in a header.
pub fn forwarded_header<'a>(headers: &'a RequestHeaders, name: &str) -> (r: Option<&'a str>)
    ensures
        crate::state::text_of(r) == forwarded(headers@, name@),
{
    match header_value(headers, name) {
        Some(value) => Some(trim(split_at_first(value, Class::Is(',')).0)),
        None => None,
    }
}

/// A value, or another one where there is none.
pub open spec fn value_or(v: Option<Seq<char>>, other: Seq<char>) -> Seq<char> {
    match v {
        Some(s) => s,
        None => other,
    }
}

/// The host under which a request says that the server is reached.
pub open spec fn named_host(headers: Seq<(Seq<char>, Seq<char>)>) -> Seq<char> {
    value_or(
        forwarded(headers, "x-forwarded-host"@),
        value_or(crate::response::header(headers, "host"@), "localhost"@),
    )
}

/// The address under which the server is reached, without a slash at its end: the configured one,
/// or else what the request says.
pub open spec fn origin(base_url: Option<Seq<char>>, headers: Seq<(Seq<char>, Seq<char>)>) -> Seq<
    char,
> {
    match base_url {
        Some(base) => base,
        None => value_or(forwarded(headers, "x-forwarded-proto"@), "http"@) + "://"@ + named_host(
            headers,
        ) + crate::text::without_back(
            value_or(forwarded(headers, "x-forwarded-prefix"@), ""@),
            '/',
        ),
    }
}

/// Finds out under which address the server is reached.
pub fn request_origin(base_url: Option<&str>, headers: &RequestHeaders) -> (r: String)
    ensures
        r@ == origin(crate::state::text_of(base_url), headers@),
{
    if let Some(base) = base_url {
        return base.to_owned();
    }
    let host: &str = match forwarded_header(headers, "x-forwarded-host") {
        Some(host) => host,
        None => match header_value(headers, "host") {
            Some(host) => host,
            None => "localhost",
        },
    };
    let proto: &str = match forwarded_header(headers, "x-forwarded-proto") {
        Some(proto) => proto,
        None => "http",
    };
    let prefix: &str = match forwarded_header(headers, "x-forwarded-prefix") {
        Some(prefix) => prefix,
        None => "",
    };
    let mut out = String::new();
    out.append(proto);
    out.append("://");
    out.append(host);
    out.append(trim_end_matches(prefix, '/'));
    assert(out@ =~= origin(crate::state::text_of(base_url), headers@));
    out
}

/// With a configured address, what a client sends has no influence on the addresses that it is
/// given.
pub proof fn law_configured_address_is_authoritative(
    base: Seq<char>,
    headers: Seq<(Seq<char>, Seq<char>)>,
    others: Seq<(Seq<char>, Seq<char>)>,
)
    ensures
        origin(Some(base), headers) == base,
        origin(Some(base), headers) == origin(Some(base), others),
{
}

/// Whether a text ends in a slash.
pub open spec fn ends_in_slash(s: Seq<char>) -> bool {
    s.len() > 0 && s.last() == '/'
}

/// The address under which the server is reached does not end in a slash, where the configured
/// one does not, or where none is configured and the request names a host that does not.
pub proof fn law_origin_has_no_slash_at_its_end(
    base_url: Option<Seq<char>>,
    headers: Seq<(Seq<char>, Seq<char>)>,
)
    requires
        base_url matches Some(base) ==> !ends_in_slash(base),
        base_url is None ==> named_host(headers).len() > 0 && !ends_in_slash(named_host(headers)),
    ensures
        !ends_in_slash(origin(base_url, headers)),
{
    if base_url is None {
        let prefix = value_or(forwarded(headers, "x-forwarded-prefix"@), ""@);
        let kept = crate::text::without_back(prefix, '/');
        crate::text::lemma_last_end(prefix, Class::IsNot('/'));
        let all = origin(base_url, headers);
        if kept.len() > 0 {
            assert(all.last() == kept.last());
        } else {
            assert(all.last() == named_host(headers).last());
        }
    }
}

/// The address of a paste.
pub open spec fn paste_url(
    base_url: Option<Seq<char>>,
    headers: Seq<(Seq<char>, Seq<char>)>,
    id: Seq<char>,
) -> Seq<char> {
    origin(base_url, headers) + "/"@ + id
}

/// Builds the address of a paste.
pub fn build_paste_url(base_url: Option<&str>, headers: &RequestHeaders, id: &str) -> (r: String)
    ensures
        r@ == paste_url(crate::state::text_of(base_url), headers@, id@),
{
    let mut out: String = request_origin(base_url, headers);
    out.append("/");
    out.append(id);
    out
}

/// The usage notes for command-line clients.
pub open spec fn usage_text(origin: Seq<char>) -> Seq<char> {
    "rustbin \u{2014} minimalist pastebin and URL shortener\n\nCreate a paste:    curl -F 'file=@example.txt' "@
        + origin + "/\nWith expiry:       curl -F 'file=@example.txt' -F 'expires_in=3600' "@
        + origin
        + "/\n                   (expires_in: positive seconds or 'never')\nRead a paste:      curl "@
        + origin + "/<id>\nShorten a URL:     echo 'https://example.com' | curl -F 'file=@-' "@
        + origin + "/\n\nIn a browser, "@ + origin
        + "/<id> renders with line links; add an extension\n("@ + origin
        + "/<id>.rs) to pick the syntax; "@ + origin + "/<id>/raw is plain text.\n"@
}

/// The usage notes that a request is answered with.
pub open spec fn usage_for(
    base_url: Option<Seq<char>>,
    headers: Seq<(Seq<char>, Seq<char>)>,
) -> Seq<char> {
    usage_text(origin(base_url, headers))
}

/// Writes the usage notes for command-line clients.
pub fn cli_usage_text(base_url: Option<&str>, headers: &RequestHeaders) -> (r: String)
    ensures
        r@ == usage_text(origin(crate::state::text_of(base_url), headers@)),
        r@ == usage_for(crate::state::text_of(base_url), headers@),
{
    let origin: String = request_origin(base_url, headers);
    let mut out: String =
        "rustbin \u{2014} minimalist pastebin and URL shortener\n\nCreate a paste:    curl -F 'file=@example.txt' ".to_owned();
    out.append(origin.as_str());
    out.append("/\nWith expiry:       curl -F 'file=@example.txt' -F 'expires_in=3600' ");
    out.append(origin.as_str());
    out.append(
        "/\n                   (expires_in: positive seconds or 'never')\nRead a paste:      curl ",
    );
    out.append(origin.as_str());
    out.append("/<id>\nShorten a URL:     echo 'https://example.com' | curl -F 'file=@-' ");
    out.append(origin.as_str());
    out.append("/\n\nIn a browser, ");
    out.append(origin.as_str());
    out.append("/<id> renders with line links; add an extension\n(");
    out.append(origin.as_str());
    out.append("/<id>.rs) to pick the syntax; ");
    out.append(origin.as_str());
    out.append("/<id>/raw is plain text.\n");
    out
}

/// The extension under which a paste is cached: one that selects markdown or a syntax.
pub open spec fn cached_extension(state: AppState, extension: Option<Seq<char>>) -> Option<
    Seq<char>,
> {
    match extension {
        None => None,
        Some(e) => match crate::state::normal_token(e) {
            None => None,
            Some(t) => if crate::highlighter::names_markdown(Some(t)) || state.syntax_for(
                Some(t),
            ) is Some {
                Some(t)
            } else {
                None
            },
        },
    }
}

/// The key under which a rendered paste is cached.
pub open spec fn cache_key(state: AppState, id: Seq<char>, extension: Option<Seq<char>>) -> Seq<
    char,
> {
    match cached_extension(state, extension) {
        Some(t) => id + ":"@ + t,
        None => id,
    }
}

/// Makes the key under which a rendered paste is cached. Extensions that change nothing share the
/// key of the paste without an extension.
pub fn render_cache_key(state: &AppState, id: &str, extension: Option<&str>) -> (r: String)
    ensures
        r@ == cache_key(*state, id@, crate::state::text_of(extension)),
{
    let mut key: String = id.to_owned();
    if let Some(e) = extension {
        if let Some(token) = normalized_token(e) {
            if is_markdown(Some(token.as_str())) || resolve_syntax(
                state,
                Some(token.as_str()),
            ).is_some() {
                key.append(":");
                key.append(token.as_str());
            }
        }
    }
    key
}

/// Whether an extension does not start with a dot, white space before it aside.
pub open spec fn is_dotless(extension: Option<Seq<char>>) -> bool {
    match extension {
        Some(e) => {
            let t = crate::text::trimmed(e);
            t.len() > 0 ==> t[0] != '.'
        },
        None => true,
    }
}

proof fn lemma_cached_extension(state: AppState, extension: Option<Seq<char>>)
    requires
        is_dotless(extension),
    ensures
        match cached_extension(state, extension) {
            Some(t) => {
                &&& crate::highlighter::names_markdown(extension)
                    == crate::highlighter::names_markdown(Some(t))
                &&& state.syntax_for(extension) == state.syntax_for(Some(t))
            },
            None => !crate::highlighter::names_markdown(extension) && state.syntax_for(
                extension,
            ) is None,
        },
{
    reveal_strlit("md");
    reveal_strlit("markdown");
    reveal_strlit("mdown");
    reveal_strlit("mkd");
    reveal_strlit("mkdn");
    if extension is Some {
        let e = extension->0;
        let class = Class::NotWhite;
        let start = crate::text::trimmed_start(e);
        let b = crate::text::trimmed(e);
        crate::text::lemma_first_pos(e, class);
        crate::text::lemma_last_end(start, class);
        if b.len() > 0 {
            assert(start[0] == e[crate::text::first_pos(e, class)]);
            assert(b[0] == start[0]);
            crate::text::lemma_first_pos_is(b, Class::IsNot('.'), 0);
            assert(b.skip(0) =~= b);
            let t = crate::text::lowered(b);
            assert(crate::state::normal_token(e) == Some(t));
            assert(t[0] == crate::chars::lower(b[0]));
            assert(t.last() == crate::chars::lower(b.last()));
            crate::text::lemma_first_pos_is(t, class, 0);
            assert(t.skip(0) =~= t);
            crate::text::lemma_last_end_is(t, class, t.len() as int);
            assert(t.take(t.len() as int) =~= t);
            assert(crate::text::trimmed(t) == t);
            assert(crate::text::lowered(t) =~= t);
            crate::state::law_normal_token_is_stable(e);
        } else {
            crate::text::lemma_first_pos(b, Class::IsNot('.'));
            assert(crate::text::without_front(b, '.').len() == 0);
            assert(crate::text::lowered(b).len() == 0);
        }
    }
}

proof fn lemma_colon_splits(a: Seq<char>, x: Seq<char>, b: Seq<char>, y: Seq<char>)
    requires
        !a.contains(':'),
        !b.contains(':'),
        a + seq![':'] + x == b + seq![':'] + y,
    ensures
        a == b,
        x == y,
{
    let s = a + seq![':'] + x;
    let t = b + seq![':'] + y;
    if a.len() < b.len() {
        assert(t[a.len() as int] == b[a.len() as int]);
        assert(s[a.len() as int] == ':');
        assert(b.contains(b[a.len() as int]));
    }
    if b.len() < a.len() {
        assert(s[b.len() as int] == a[b.len() as int]);
        assert(t[b.len() as int] == ':');
        assert(a.contains(a[b.len() as int]));
    }
    assert(a =~= s.take(a.len() as int));
    assert(b =~= t.take(b.len() as int));
    assert(x =~= s.skip(a.len() as int + 1));
    assert(y =~= t.skip(b.len() as int + 1));
}

/// Pastes share a cache key only where they are the same paste, shown in the same way.
pub proof fn law_cache_keys_do_not_clash(
    state: AppState,
    a: Seq<char>,
    x: Option<Seq<char>>,
    b: Seq<char>,
    y: Option<Seq<char>>,
)
    requires
        !a.contains(':'),
        !b.contains(':'),
        is_dotless(x),
        is_dotless(y),
        cache_key(state, a, x) == cache_key(state, b, y),
    ensures
        a == b,
        crate::highlighter::names_markdown(x) == crate::highlighter::names_markdown(y),
        state.syntax_for(x) == state.syntax_for(y),
{
    lemma_cached_extension(state, x);
    lemma_cached_extension(state, y);
    reveal_strlit(":");
    assert(":"@ =~= seq![':']);
    match (cached_extension(state, x), cached_extension(state, y)) {
        (Some(s), Some(t)) => {
            lemma_colon_splits(a, s, b, t);
        },
        (Some(s), None) => {
            let key = a + seq![':'] + s;
            assert(key[a.len() as int] == ':');
            assert(b.contains(':'));
        },
        (None, Some(t)) => {
            let key = b + seq![':'] + t;
            assert(key[b.len() as int] == ':');
            assert(a.contains(':'));
        },
        (None, None) => {},
    }
}

/// Two ways to show one paste share a cache key only where they are the same, whatever its id.
pub proof fn law_one_paste_has_one_key_for_each_way(
    state: AppState,
    id: Seq<char>,
    x: Option<Seq<char>>,
    y: Option<Seq<char>>,
)
    requires
        is_dotless(x),
        is_dotless(y),
        cache_key(state, id, x) == cache_key(state, id, y),
    ensures
        crate::highlighter::names_markdown(x) == crate::highlighter::names_markdown(y),
        state.syntax_for(x) == state.syntax_for(y),
{
    lemma_cached_extension(state, x);
    lemma_cached_extension(state, y);
    reveal_strlit(":");
    match (cached_extension(state, x), cached_extension(state, y)) {
        (Some(s), Some(t)) => {
            let n = id.len() as int + 1;
            assert(s =~= cache_key(state, id, x).skip(n));
            assert(t =~= cache_key(state, id, y).skip(n));
        },
        (Some(s), None) => {
            assert(cache_key(state, id, x).len() > id.len());
        },
        (None, Some(t)) => {
            assert(cache_key(state, id, y).len() > id.len());
        },
        (None, None) => {},
    }
}

/// The HTML of a paste's content: rendered markdown, or a listing.
pub open spec fn content_html(state: AppState, extension: Option<Seq<char>>, content: Seq<char>) -> Seq<
    char,
> {
    if crate::highlighter::names_markdown(extension) {
        crate::markdown::document_html(
            content,
            crate::markdown::blocks_html(
                state,
                crate::markdown::code_blocks(crate::events::document_events(content)),
            ),
        )
    } else {
        crate::highlighter::paste_html(state, extension, content)
    }
}

/// Renders the content of a paste.
pub fn render_content(state: &AppState, extension: Option<&str>, content: &str) -> (r: String)
    ensures
        r@ == content_html(*state, crate::state::text_of(extension), content@),
{
    if is_markdown(extension) {
        render_markdown(state, content)
    } else {
        render_paste_html(state, extension, content)
    }
}

/// Two extensions without a dot before them under which a paste has the same cache key give it the
/// same HTML, so that a cached page is the right one for both.
pub proof fn law_cached_pages_are_right(
    state: AppState,
    id: Seq<char>,
    x: Option<Seq<char>>,
    y: Option<Seq<char>>,
    content: Seq<char>,
)
    requires
        is_dotless(x),
        is_dotless(y),
        cache_key(state, id, x) == cache_key(state, id, y),
    ensures
        content_html(state, x, content) == content_html(state, y, content),
{
    law_one_paste_has_one_key_for_each_way(state, id, x, y);
}

/// What is known of the language of a form: nothing for a URL, which is never shown.
pub open spec fn form_detection(
    state: AppState,
    form: crate::extractors::FormView,
) -> crate::highlighter::DetectionView {
    if form.content is Some && names_url(form.content->0) {
        crate::highlighter::DetectionView::Resolved(None)
    } else {
        crate::highlighter::detected(
            state,
            form.filename,
            match form.content {
                Some(c) => crate::lines::size(c),
                None => 0,
            },
        )
    }
}

/// Detects the language of a new paste, as far as that takes no look at its content.
pub fn detect_form_language(state: &AppState, form: &CreatePasteForm) -> (r: LanguageDetection)
    ensures
        r@ == form_detection(*state, form@),
{
    let filename: Option<&str> = match &form.filename {
        Some(f) => Some(f.as_str()),
        None => None,
    };
    match &form.content {
        Some(c) => {
            if is_url(c.as_str()) {
                return LanguageDetection::Resolved(None);
            }
            detect_language_fast(state, filename, c.as_str())
        },
        None => {
            proof {
                reveal_strlit("");
                assert(""@ =~= seq![]);
                assert(vstd::utf8::encode_utf8(""@).len() == 0);
            }
            detect_language_fast(state, filename, "")
        },
    }
}

/// A form whose language was detected, ready to be stored.
pub struct Submission {
    pub form: CreatePasteForm,
    /// Where the paste redirects, if it is a URL.
    pub destination: Option<String>,
}

/// Where a paste with the given content redirects.
pub open spec fn destination_of(content: Option<Seq<char>>) -> Option<Seq<char>> {
    match content {
        Some(c) => if names_url(c) {
            Some(crate::text::trimmed(c))
        } else {
            None
        },
        None => None,
    }
}

/// A form with the language that was detected, tidied.
pub open spec fn completed(
    form: crate::extractors::FormView,
    language: Option<Seq<char>>,
) -> crate::extractors::FormView {
    crate::db::sanitized_form((crate::extractors::FormView { language, ..form }))
}

/// Completes a form with the language that was detected.
pub fn complete_form(form: CreatePasteForm, language: Option<String>) -> (r: Submission)
    ensures
        r.form@ == crate::db::sanitized_form(
            (crate::extractors::FormView { language: crate::db::opt(language), ..form@ }),
        ),
        r.form@ == completed(form@, crate::db::opt(language)),
        crate::db::opt(r.destination) == (match form@.content {
            Some(c) => if names_url(c) {
                Some(crate::text::trimmed(c))
            } else {
                None
            },
            None => None,
        }),
        crate::db::opt(r.destination) == destination_of(form@.content),
{
    let content_is_url: bool = match &form.content {
        Some(c) => is_url(c.as_str()),
        None => false,
    };
    let ghost before = form@;
    let mut filled: CreatePasteForm = form;
    filled.language = language;
    let form: CreatePasteForm = sanitize_form(filled);
    let destination: Option<String> = if content_is_url {
        match &form.content {
            Some(c) => {
                proof {
                    lemma_trimmed_without_returns(before.content->0);
                }
                Some(trim(c.as_str()).to_owned())
            },
            None => None,
        }
    } else {
        None
    };
    Submission { form, destination }
}

proof fn lemma_trimmed_without_returns(s: Seq<char>)
    ensures
        crate::text::trimmed(crate::text::without_back(s, '\r')) == crate::text::trimmed(s),
{
    let class = Class::NotWhite;
    let n = crate::text::last_end(s, Class::IsNot('\r'));
    crate::text::lemma_last_end(s, Class::IsNot('\r'));
    let u = s.take(n);
    let p = crate::text::first_pos(s, class);
    crate::text::lemma_first_pos(s, class);
    if p >= n {
        assert(p == s.len()) by {
            if p < s.len() {
                assert(!Class::IsNot('\r').has_char(s[p]));
            }
        }
        assert forall|i: int| 0 <= i < u.len() implies !class.has_char(#[trigger] u[i]) by {
            assert(u[i] == s[i]);
        }
        crate::text::lemma_first_pos_is(u, class, n);
        assert(u.skip(n) =~= seq![]);
        assert(s.skip(p) =~= seq![]);
    } else {
        assert forall|i: int| 0 <= i < p implies !class.has_char(#[trigger] u[i]) by {
            assert(u[i] == s[i]);
        }
        crate::text::lemma_first_pos_is(u, class, p);
        let a = s.skip(p);
        let b = u.skip(p);
        let e = crate::text::last_end(a, class);
        crate::text::lemma_last_end(a, class);
        assert(e <= n - p) by {
            if e > n - p {
                assert(a[e - 1] == s[p + e - 1]);
                assert(!Class::IsNot('\r').has_char(s[p + e - 1]));
            }
        }
        assert(e > 0 ==> b[e - 1] == a[e - 1]);
        assert forall|i: int| e <= i < b.len() implies !class.has_char(#[trigger] b[i]) by {
            assert(b[i] == a[i]);
        }
        crate::text::lemma_last_end_is(b, class, e);
        assert(b.take(e) =~= a.take(e));
    }
}

/// How a new paste is answered.
pub enum CreateReply {
    /// A page that shows the short address and where it leads.
    UrlPage { location: String, destination: String },
    /// The browser is sent to the paste.
    SeeOther { location: String },
    /// The address of the paste, as plain text.
    Created { location: String, body: String },
}

/// What a [`CreateReply`] says.
pub enum CreateReplyView {
    UrlPage { location: Seq<char>, destination: Seq<char> },
    SeeOther { location: Seq<char> },
    Created { location: Seq<char>, body: Seq<char> },
}

impl View for CreateReply {
    type V = CreateReplyView;

    open spec fn view(&self) -> CreateReplyView {
        match self {
            CreateReply::UrlPage { location, destination } => CreateReplyView::UrlPage {
                location: location@,
                destination: destination@,
            },
            CreateReply::SeeOther { location } => CreateReplyView::SeeOther {
                location: location@,
            },
            CreateReply::Created { location, body } => CreateReplyView::Created {
                location: location@,
                body: body@,
            },
        }
    }
}

/// How a new paste is answered: a browser that filled in the page's form gets a page or is sent
/// on, any other client gets the address.
pub open spec fn create_reply_for(
    location: Seq<char>,
    from_browser: bool,
    html: bool,
    destination: Option<Seq<char>>,
) -> CreateReplyView {
    if from_browser && html {
        match destination {
            Some(d) => CreateReplyView::UrlPage { location, destination: d },
            None => CreateReplyView::SeeOther { location },
        }
    } else {
        CreateReplyView::Created { location, body: location + "\n"@ }
    }
}

/// How a request that created a paste is answered.
pub open spec fn reply_to_form(
    base_url: Option<Seq<char>>,
    headers: Seq<(Seq<char>, Seq<char>)>,
    id: Seq<char>,
    from_browser: bool,
    destination: Option<Seq<char>>,
) -> CreateReplyView {
    create_reply_for(
        paste_url(base_url, headers, id),
        from_browser,
        crate::response::asks_for_html(headers),
        destination,
    )
}

/// Answers a request that created the paste `id`.
pub fn create_reply(
    base_url: Option<&str>,
    headers: &RequestHeaders,
    id: &str,
    from_browser: bool,
    destination: Option<String>,
) -> (r: CreateReply)
    ensures
        r@ == create_reply_for(
            paste_url(crate::state::text_of(base_url), headers@, id@),
            from_browser,
            crate::response::asks_for_html(headers@),
            crate::db::opt(destination),
        ),
        r@ == reply_to_form(
            crate::state::text_of(base_url),
            headers@,
            id@,
            from_browser,
            crate::db::opt(destination),
        ),
{
    let location: String = build_paste_url(base_url, headers, id);
    if from_browser && wants_html(headers) {
        return match destination {
            Some(destination) => CreateReply::UrlPage { location, destination },
            None => CreateReply::SeeOther { location },
        };
    }
    let mut body: String = location.clone();
    body.append("\n");
    CreateReply::Created { location, body }
}

/// An address with a web scheme and without control characters is a URL, with white space around
/// it or not, and redirects to itself; a text with another start or with a control character in it
/// is none.
pub proof fn law_web_addresses_redirect(a: Seq<char>, rest: Seq<char>, b: Seq<char>, t: Seq<char>)
    requires
        forall|i: int| 0 <= i < a.len() ==> crate::chars::is_white(#[trigger] a[i]),
        forall|i: int| 0 <= i < b.len() ==> crate::chars::is_white(#[trigger] b[i]),
        rest.len() > 0 ==> !crate::chars::is_white(rest.last()),
        t.len() > 0 ==> !crate::chars::is_white(t[0]) && !crate::chars::is_white(t.last()),
    ensures
        (forall|i: int| 0 <= i < rest.len() ==> !is_ascii_control(#[trigger] rest[i])) ==> {
            &&& destination_of(Some(a + ("http://"@ + rest) + b)) == Some("http://"@ + rest)
            &&& destination_of(Some(a + ("https://"@ + rest) + b)) == Some("https://"@ + rest)
        },
        (exists|i: int| 0 <= i < t.len() && is_ascii_control(#[trigger] t[i])) ==> destination_of(
            Some(a + t + b),
        ) is None,
        destination_of(Some(a + t + b)) is Some ==> (exists|r: Seq<char>|
            t == #[trigger] ("http://"@ + r)) || (exists|r: Seq<char>|
            t == #[trigger] ("https://"@ + r)),
        destination_of(None) is None,
{
    reveal_strlit("http://");
    reveal_strlit("https://");
    let p = "http://"@;
    let q = "https://"@;
    crate::text::law_white_space_is_trimmed(a, p + rest, b);
    crate::text::law_white_space_is_trimmed(a, q + rest, b);
    crate::text::law_white_space_is_trimmed(a, t, b);
    assert((p + rest).subrange(0, 7) =~= p);
    assert((q + rest).subrange(0, 8) =~= q);
    if forall|i: int| 0 <= i < rest.len() ==> !is_ascii_control(#[trigger] rest[i]) {
        assert forall|i: int| 0 <= i < (p + rest).len() implies !is_ascii_control(
            #[trigger] (p + rest)[i],
        ) by {
            if i >= 7 {
                assert((p + rest)[i] == rest[i - 7]);
            }
        }
        assert forall|i: int| 0 <= i < (q + rest).len() implies !is_ascii_control(
            #[trigger] (q + rest)[i],
        ) by {
            if i >= 8 {
                assert((q + rest)[i] == rest[i - 8]);
            }
        }
    }
    if p.is_prefix_of(t) {
        assert(t.subrange(0, 7) == p);
        assert(t =~= p + t.skip(7));
    }
    if q.is_prefix_of(t) {
        assert(t.subrange(0, 8) == q);
        assert(t =~= q + t.skip(8));
    }
}

/// Of the values that proxies list in a header the first one counts, without white space around
/// it.
pub proof fn law_first_proxy_counts(
    a: Seq<char>,
    value: Seq<char>,
    b: Seq<char>,
    others: Seq<char>,
)
    requires
        forall|i: int| 0 <= i < a.len() ==> crate::chars::is_white(#[trigger] a[i]),
        forall|i: int| 0 <= i < b.len() ==> crate::chars::is_white(#[trigger] b[i]),
        value.len() > 0 ==> !crate::chars::is_white(value[0]) && !crate::chars::is_white(
            value.last(),
        ),
        !value.contains(','),
    ensures
        first_listed(a + value + b) == value,
        first_listed(a + value + b + seq![','] + others) == value,
{
    let class = Class::Is(',');
    let t = a + value + b;
    let s = t + seq![','] + others;
    let n = t.len() as int;
    assert forall|i: int| 0 <= i < n implies !class.has_char(#[trigger] t[i]) by {
        if i < a.len() {
            assert(t[i] == a[i]);
        } else if i < a.len() + value.len() {
            assert(value.contains(value[i - a.len()]));
        } else {
            assert(t[i] == b[i - a.len() - value.len()]);
        }
    }
    assert forall|i: int| 0 <= i < n implies !class.has_char(#[trigger] s[i]) by {
        assert(s[i] == t[i]);
    }
    crate::text::lemma_first_pos_is(t, class, n);
    crate::text::lemma_first_pos_is(s, class, n);
    assert(t.take(n) =~= t);
    assert(s.take(n) =~= t);
    crate::text::law_white_space_is_trimmed(a, value, b);
}

/// Without a configured address the server is reached under what the proxy says, or else under
/// the host that the client names, or else under `localhost`; the scheme is what the proxy says,
/// or else `http`; and the path is what the proxy says, or else none.
pub proof fn law_addresses_are_put_together(
    headers: Seq<(Seq<char>, Seq<char>)>,
    proto: Seq<char>,
    host: Seq<char>,
    prefix: Seq<char>,
    id: Seq<char>,
)
    requires
        prefix.len() > 0 ==> prefix.last() != '/',
        forwarded(headers, "x-forwarded-proto"@) == Some(proto) || (forwarded(
            headers,
            "x-forwarded-proto"@,
        ) is None && proto == "http"@),
        forwarded(headers, "x-forwarded-host"@) == Some(host) || (forwarded(
            headers,
            "x-forwarded-host"@,
        ) is None && (crate::response::header(headers, "host"@) == Some(host) || (
        crate::response::header(headers, "host"@) is None && host == "localhost"@))),
        forwarded(headers, "x-forwarded-prefix"@) == Some(prefix) || forwarded(
            headers,
            "x-forwarded-prefix"@,
        ) == Some(prefix + seq!['/']) || (forwarded(headers, "x-forwarded-prefix"@) is None
            && prefix.len() == 0),
    ensures
        origin(None, headers) == proto + seq![':', '/', '/'] + host + prefix,
        paste_url(None, headers, id) == proto + seq![':', '/', '/'] + host + prefix + seq!['/'] + id,
        paste_url(Some(prefix), headers, id) == prefix + seq!['/'] + id,
{
    reveal_strlit("://");
    reveal_strlit("/");
    reveal_strlit("");
    assert("://"@ =~= seq![':', '/', '/']);
    assert("/"@ =~= seq!['/']);
    let class = Class::IsNot('/');
    crate::text::lemma_last_end_is(prefix, class, prefix.len() as int);
    assert(prefix.take(prefix.len() as int) =~= prefix);
    let more = prefix + seq!['/'];
    if prefix.len() > 0 {
        assert(more[prefix.len() - 1] == prefix.last());
    }
    crate::text::lemma_last_end_is(more, class, prefix.len() as int);
    assert(more.take(prefix.len() as int) =~= prefix);
    assert(""@ =~= seq![]);
    if prefix.len() == 0 {
        assert(prefix =~= ""@);
    }
}

/// The usage notes name the address of the server wherever a command or a page is shown.
#[verifier::spinoff_prover]
#[verifier::rlimit(60)]
pub proof fn law_usage_notes_name_the_address(origin: Seq<char>)
    ensures
        crate::text::occurs_in("curl -F 'file=@example.txt' "@ + origin + "/\n"@, usage_text(origin)),
        crate::text::occurs_in("-F 'expires_in=3600' "@ + origin + "/\n"@, usage_text(origin)),
        crate::text::occurs_in("curl "@ + origin + "/<id>\n"@, usage_text(origin)),
        crate::text::occurs_in(origin + "/<id>/raw is plain text.\n"@, usage_text(origin)),
{
    let t1 = "rustbin \u{2014} minimalist pastebin and URL shortener\n\nCreate a paste:    curl -F 'file=@example.txt' "@;
    let t2 = "/\nWith expiry:       curl -F 'file=@example.txt' -F 'expires_in=3600' "@;
    let t3 = "/\n                   (expires_in: positive seconds or 'never')\nRead a paste:      curl "@;
    let t4 = "/<id>\nShorten a URL:     echo 'https://example.com' | curl -F 'file=@-' "@;
    let t5 = "/\n\nIn a browser, "@;
    let t6 = "/<id> renders with line links; add an extension\n("@;
    let t7 = "/<id>.rs) to pick the syntax; "@;
    let t8 = "/<id>/raw is plain text.\n"@;
    reveal_strlit("rustbin \u{2014} minimalist pastebin and URL shortener\n\nCreate a paste:    curl -F 'file=@example.txt' ");
    reveal_strlit("/\nWith expiry:       curl -F 'file=@example.txt' -F 'expires_in=3600' ");
    reveal_strlit(
        "/\n                   (expires_in: positive seconds or 'never')\nRead a paste:      curl ",
    );
    reveal_strlit("/<id>\nShorten a URL:     echo 'https://example.com' | curl -F 'file=@-' ");
    reveal_strlit("curl -F 'file=@example.txt' ");
    reveal_strlit("-F 'expires_in=3600' ");
    reveal_strlit("curl ");
    reveal_strlit("/\n");
    reveal_strlit("/<id>\n");
    let o = origin;
    let whole = usage_text(origin);
    let p1 = "curl -F 'file=@example.txt' "@ + o + "/\n"@;
    let a1 = t1.take(t1.len() - "curl -F 'file=@example.txt' "@.len());
    let b1 = t2.skip(2) + o + t3 + o + t4 + o + t5 + o + t6 + o + t7 + o + t8;
    assert(whole =~= a1 + p1 + b1);
    crate::text::law_occurrences_have_surroundings(p1, a1, b1, whole);
    let p2 = "-F 'expires_in=3600' "@ + o + "/\n"@;
    let a2 = t1 + o + t2.take(t2.len() - "-F 'expires_in=3600' "@.len());
    let b2 = t3.skip(2) + o + t4 + o + t5 + o + t6 + o + t7 + o + t8;
    assert(whole =~= a2 + p2 + b2);
    crate::text::law_occurrences_have_surroundings(p2, a2, b2, whole);
    let p3 = "curl "@ + o + "/<id>\n"@;
    let a3 = t1 + o + t2 + o + t3.take(t3.len() - "curl "@.len());
    let b3 = t4.skip(6) + o + t5 + o + t6 + o + t7 + o + t8;
    assert(whole =~= a3 + p3 + b3);
    crate::text::law_occurrences_have_surroundings(p3, a3, b3, whole);
    let p4 = o + t8;
    let a4 = t1 + o + t2 + o + t3 + o + t4 + o + t5 + o + t6 + o + t7;
    assert(whole =~= a4 + p4 + seq![]);
    crate::text::law_occurrences_have_surroundings(p4, a4, seq![], whole);
}

/// Extensions that come to the same token share a cache key, and an extension that changes nothing
/// shares that of the paste alone.
pub proof fn law_equal_views_share_a_key(
    state: AppState,
    id: Seq<char>,
    x: Seq<char>,
    y: Seq<char>,
)
    ensures
        crate::state::normal_token(x) == crate::state::normal_token(y) ==> cache_key(
            state,
            id,
            Some(x),
        ) == cache_key(state, id, Some(y)),
        is_dotless(Some(x)) && !crate::highlighter::names_markdown(Some(x)) && state.syntax_for(
            Some(x),
        ) is None ==> cache_key(state, id, Some(x)) == id,
        cache_key(state, id, None) == id,
        id.is_prefix_of(cache_key(state, id, Some(x))),
{
    if is_dotless(Some(x)) {
        lemma_cached_extension(state, Some(x));
    }
    match cached_extension(state, Some(x)) {
        Some(t) => {
            assert((id + ":"@ + t).subrange(0, id.len() as int) =~= id);
        },
        None => {
            assert(id.subrange(0, id.len() as int) =~= id);
        },
    }
}

/// A paste that redirects has no language, whatever its file name; the language of another one is
/// told by its file name.
pub proof fn law_redirects_have_no_language(
    state: AppState,
    form: crate::extractors::FormView,
    content: Seq<char>,
)
    requires
        form.content == Some(content),
    ensures
        destination_of(form.content) is Some ==> form_detection(state, form)
            == crate::highlighter::DetectionView::Resolved(None),
        destination_of(form.content) is None ==> form_detection(state, form)
            == crate::highlighter::detected(state, form.filename, crate::lines::size(content)),
{
}

/// Every client is told the address of its paste. A page is shown to browsers that used the form
/// of the page and want HTML: the paste, or where it leads. Others get the address on a line of its
/// own.
pub proof fn law_clients_are_told_the_address(
    location: Seq<char>,
    from_browser: bool,
    html: bool,
    destination: Option<Seq<char>>,
)
    ensures
        match create_reply_for(location, from_browser, html, destination) {
            CreateReplyView::UrlPage { location: l, destination: d } => l == location
                && destination == Some(d) && from_browser && html,
            CreateReplyView::SeeOther { location: l } => l == location && destination is None
                && from_browser && html,
            CreateReplyView::Created { location: l, body } => l == location && body == location
                + seq!['\n'] && !(from_browser && html),
        },
{
    reveal_strlit("\n");
    assert("\n"@ =~= seq!['\n']);
}

/// A paste that is shown without a syntax and is not markdown reads as its lines, each with its
/// number before it.
pub proof fn law_plain_pastes_read_as_they_are(
    state: AppState,
    extension: Option<Seq<char>>,
    content: Seq<char>,
)
    requires
        content.len() > 0,
        !crate::highlighter::names_markdown(extension),
        state.syntax_for(extension) is None || crate::lines::size(content)
            > state.highlight_max_bytes,
    ensures
        crate::html::reads_as(
            content_html(state, extension, content),
            crate::listing::numbered(
                1,
                crate::lines::lines(content).map_values(
                    |l: Seq<char>| crate::lines::line_text(l),
                ),
            ),
        ),
{
    crate::state::law_large_content_has_no_syntax(state, extension, crate::lines::size(content));
    crate::listing::law_plain_listings_read_as_the_paste(content);
}

/// The address in an answer to a form and in the usage notes is that of the server: configured, it
/// is the same whatever the client sends.
pub proof fn law_answers_name_the_server(
    base: Seq<char>,
    headers: Seq<(Seq<char>, Seq<char>)>,
    id: Seq<char>,
    from_browser: bool,
    destination: Option<Seq<char>>,
)
    ensures
        ({
            let location = match reply_to_form(Some(base), headers, id, from_browser, destination) {
                CreateReplyView::UrlPage { location, .. } => location,
                CreateReplyView::SeeOther { location } => location,
                CreateReplyView::Created { location, .. } => location,
            };
            location == base + seq!['/'] + id
        }),
        reply_to_form(Some(base), headers, id, from_browser, destination) is Created <==> !(
        from_browser && crate::response::asks_for_html(headers)),
        reply_to_form(Some(base), headers, id, from_browser, destination) is UrlPage ==> destination
            is Some,
        ({
            let location = match reply_to_form(None, headers, id, from_browser, destination) {
                CreateReplyView::UrlPage { location, .. } => location,
                CreateReplyView::SeeOther { location } => location,
                CreateReplyView::Created { location, .. } => location,
            };
            location == origin(None, headers) + seq!['/'] + id
        }),
        crate::text::occurs_in("curl "@ + base + "/<id>\n"@, usage_for(Some(base), headers)),
        crate::text::occurs_in(
            "curl "@ + origin(None, headers) + "/<id>\n"@,
            usage_for(None, headers),
        ),
{
    reveal_strlit("/");
    assert("/"@ =~= seq!['/']);
    law_usage_notes_name_the_address(base);
    law_usage_notes_name_the_address(origin(None, headers));
}

/// A completed form has the language that was detected, tidied, and keeps everything else that was
/// given.
pub proof fn law_completed_forms_have_the_language(
    form: crate::extractors::FormView,
    a: Seq<char>,
    t: Seq<char>,
    b: Seq<char>,
    content: Seq<char>,
)
    requires
        forall|i: int| 0 <= i < a.len() ==> crate::chars::is_white(#[trigger] a[i]),
        forall|i: int| 0 <= i < b.len() ==> crate::chars::is_white(#[trigger] b[i]),
        t.len() > 0 ==> !crate::chars::is_white(t[0]) && !crate::chars::is_white(t.last()),
        form.content == Some(content),
        content.len() > 0,
        content.last() != '\r',
    ensures
        completed(form, Some(a + t + b)).language == Some(crate::text::lowered(t)),
        completed(form, None).language is None,
        completed(form, Some(a)).content == Some(content),
        completed(form, None).content == Some(content),
        form.expires_in == Some(a + t + b) ==> completed(form, None).expires_in == Some(t),
        completed(form, Some(a)).from_browser == form.from_browser,
{
    let filled = crate::extractors::FormView { language: Some(a + t + b), ..form };
    let bare = crate::extractors::FormView { language: None, ..form };
    let other = crate::extractors::FormView { language: Some(a), ..form };
    assert(content + seq![] =~= content);
    crate::db::law_forms_are_tidied(filled, a, t, b, content, seq![]);
    crate::db::law_forms_are_tidied(bare, a, t, b, content, seq![]);
    crate::db::law_forms_are_tidied(other, a, t, b, content, seq![]);
}

/// A markdown paste without code blocks, raw HTML and unsafe links is written as HTML just as it
/// was parsed, in full.
pub proof fn law_plain_markdown_is_written_as_parsed(
    state: AppState,
    extension: Option<Seq<char>>,
    content: Seq<char>,
)
    requires
        crate::highlighter::names_markdown(extension),
        ({
            let events = crate::events::parsed_events(
                content,
                crate::events::Grammar {
                    tables: true,
                    footnotes: true,
                    strikethrough: true,
                    task_lists: true,
                    smart_punctuation: true,
                    heading_attributes: false,
                },
            );
            forall|i: int|
                0 <= i < events.len() ==> !crate::markdown::opens_code(#[trigger] events[i])
                    && !crate::markdown::is_raw_html(events[i]) && (crate::markdown::opens_link(
                    events[i],
                ) ==> crate::links::is_safe(crate::events::event_view(events[i]).text))
        }),
    ensures
        ({
            let events = crate::events::parsed_events(
                content,
                crate::events::Grammar {
                    tables: true,
                    footnotes: true,
                    strikethrough: true,
                    task_lists: true,
                    smart_punctuation: true,
                    heading_attributes: false,
                },
            );
            content_html(state, extension, content) == crate::markdown::events_html(
                events.map_values(
                    |e: pulldown_cmark::Event<'static>| crate::markdown::HtmlEventView::Keep(e),
                ),
            )
        }),
{
    let events = crate::events::document_events(content);
    crate::markdown::law_safe_documents_are_kept(
        events,
        crate::markdown::blocks_html(state, crate::markdown::code_blocks(events)),
    );
}

/// A markdown paste that is one code block is written as that block, rendered.
pub proof fn law_code_in_markdown_is_highlighted(
    state: AppState,
    extension: Option<Seq<char>>,
    content: Seq<char>,
    open: pulldown_cmark::Event<'static>,
    inner: Seq<pulldown_cmark::Event<'static>>,
    close: pulldown_cmark::Event<'static>,
    rest: Seq<pulldown_cmark::Event<'static>>,
)
    requires
        crate::highlighter::names_markdown(extension),
        crate::events::document_events(content) == seq![open] + inner + seq![close] + rest,
        crate::markdown::opens_code(open),
        forall|i: int| 0 <= i < inner.len() ==> !crate::markdown::closes_code(#[trigger] inner[i]),
        crate::markdown::closes_code(close),
    ensures
        content_html(state, extension, content) == crate::markdown::events_html(
            seq![
                crate::markdown::HtmlEventView::Html(
                    crate::highlighter::code_block_html(
                        state,
                        crate::markdown::code_language(crate::events::event_view(open).text),
                        crate::markdown::texts_in(inner),
                    ),
                ),
            ] + crate::markdown::sanitized(
                rest,
                crate::markdown::blocks_html(state, crate::markdown::code_blocks(rest)),
            ),
        ),
{
    let lang = crate::markdown::code_language(crate::events::event_view(open).text);
    let code = crate::markdown::texts_in(inner);
    let html = crate::highlighter::code_block_html(state, lang, code);
    let later = crate::markdown::blocks_html(state, crate::markdown::code_blocks(rest));
    crate::markdown::law_code_blocks_are_replaced(open, inner, close, rest, html, later);
    let events = crate::events::document_events(content);
    assert(crate::markdown::blocks_html(state, crate::markdown::code_blocks(events)) =~= seq![html]
        + later);
}

/// The control characters of ASCII are those before the space and the last one.
pub proof fn law_ascii_has_33_control_characters(c: char)
    ensures
        is_ascii_control(c) <==> (c as u32 <= 31 || c as u32 == 127),
{
}

/// The start of a text tells that it is no URL where it is long enough and begins otherwise.
pub proof fn law_other_starts_are_no_urls(a: Seq<char>, t: Seq<char>)
    requires
        forall|i: int| 0 <= i < a.len() ==> crate::chars::is_white(#[trigger] a[i]),
        t.len() >= 4,
        !crate::chars::is_white(t[0]),
    ensures
        may_name_url(a + t) <==> t.take(4) == seq!['h', 't', 't', 'p'],
{
    reveal_strlit("http");
    assert("http"@ =~= seq!['h', 't', 't', 'p']);
    let s = a + t;
    let class = Class::NotWhite;
    let n = a.len() as int;
    assert forall|i: int| 0 <= i < n implies !class.has_char(#[trigger] s[i]) by {
        assert(s[i] == a[i]);
    }
    assert(s[n] == t[0]);
    crate::text::lemma_first_pos_is(s, class, n);
    assert(s.skip(n) =~= t);
    crate::text::lemma_encode_len(t);
    assert(t.subrange(0, 4) =~= t.take(4));
}

} // verus!
