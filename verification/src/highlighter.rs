//! Pastes as HTML: highlighted listings, rendered markdown, and the language that a paste is in.

use syntect::highlighting::Theme;
use syntect::parsing::SyntaxSet;
use vstd::prelude::*;
use vstd::string::*;
use crate::lines::{split_lines, trim_line_ending};
use crate::listing::{push_escaped_html, render_lines_chunked, render_plain_lines};
use crate::state::{normalized_token, resolve_syntax, syntax_for_rendering, AppState};
use crate::syntax::{highlight_lines, render_regions, Region, SyntaxInfo};
use crate::text::{rsplit_once, same, split, to_ascii_lowercase, trim};

verus! {

/// Whether a file extension or language name stands for markdown.
pub open spec fn names_markdown(extension: Option<Seq<char>>) -> bool {
    match extension {
        Some(e) => {
            let name = crate::text::lowered(crate::text::trimmed(e));
            name == "md"@ || name == "markdown"@ || name == "mdown"@ || name == "mkd"@ || name
                == "mkdn"@
        },
        None => false,
    }
}

/// Whether a file extension or language name stands for markdown.
pub fn is_markdown(extension: Option<&str>) -> (r: bool)
    ensures
        r == names_markdown(crate::state::text_of(extension)),
{
    match extension {
        Some(e) => {
            let name: String = to_ascii_lowercase(trim(e));
            same(name.as_str(), "md") || same(name.as_str(), "markdown") || same(
                name.as_str(),
                "mdown",
            ) || same(name.as_str(), "mkd") || same(name.as_str(), "mkdn")
        },
        None => false,
    }
}

/// The HTML of a line with the given regions: coloured, or as it is where it could not be
/// highlighted.
pub open spec fn coloured_line(line: Seq<char>, regions: Option<Seq<crate::syntax::RegionView>>) -> Seq<
    char,
> {
    match regions {
        Some(v) => match crate::syntax::regions_html(v) {
            Some(html) => html,
            None => crate::listing::plain_line(line),
        },
        None => crate::listing::plain_line(line),
    }
}

/// The lines of a text as HTML, highlighted in the syntax at `index`.
pub open spec fn coloured_lines(
    set: SyntaxSet,
    index: int,
    theme: Theme,
    all: Seq<Seq<char>>,
) -> Seq<Seq<char>> {
    Seq::new(
        all.len(),
        |k: int|
            coloured_line(all[k], crate::syntax::line_regions(set, index, theme, all, k)),
    )
}

/// Renders a line of a listing from its regions.
pub fn render_line(line: &str, regions: &Option<Vec<Region>>) -> (r: String)
    ensures
        match regions {
            Some(v) => r@ == coloured_line(line@, Some(crate::syntax::region_views(v@))),
            None => r@ == coloured_line(line@, None),
        },
{
    if let Some(v) = regions {
        if let Some(html) = render_regions(v) {
            return html;
        }
    }
    let mut html = String::new();
    push_escaped_html(&mut html, trim_line_ending(line));
    assert(html@ =~= crate::listing::plain_line(line@));
    html
}

/// The HTML view of a paste.
pub open spec fn paste_html(state: AppState, extension: Option<Seq<char>>, content: Seq<char>) -> Seq<
    char,
> {
    let all = crate::lines::lines(content);
    match state.syntax_to_render(extension, crate::lines::size(content)) {
        Some(index) => crate::listing::listing_html(
            content,
            coloured_lines(state.syntax_set@, index as int, state.theme, all),
        ),
        None => crate::listing::listing_html(
            content,
            all.map_values(|l: Seq<char>| crate::listing::plain_line(l)),
        ),
    }
}

/// Renders a paste's full HTML view: every line numbered and anchored, highlighted where the
/// extension selects a syntax and the content is not too large.
pub fn render_paste_html(state: &AppState, extension: Option<&str>, content: &str) -> (r: String)
    ensures
        r@ == paste_html(*state, crate::state::text_of(extension), content@),
{
    match syntax_for_rendering(state, extension, content) {
        Some(index) => {
            let all: Vec<&str> = split_lines(content);
            let ghost v = crate::lines::lines(content@);
            let regions: Vec<Option<Vec<Region>>> = highlight_lines(
                &state.syntax_set,
                index,
                &state.theme,
                &all,
            );
            let ghost want = coloured_lines(state.syntax_set@, index as int, state.theme, v);
            let mut inner: Vec<String> = Vec::new();
            let mut i: usize = 0;
            assert(all@.len() == crate::text::texts(all@).len());
            while i < all.len()
                invariant
                    v == crate::text::texts(all@),
                    v.len() == all@.len(),
                    regions@.len() == all@.len(),
                    want == coloured_lines(state.syntax_set@, index as int, state.theme, v),
                    i <= all@.len(),
                    inner@.len() == i,
                    forall|k: int|
                        0 <= k < all@.len() ==> crate::syntax::regions_are(
                            #[trigger] regions@[k],
                            crate::syntax::line_regions(
                                state.syntax_set@,
                                index as int,
                                state.theme,
                                v,
                                k,
                            ),
                        ),
                    forall|k: int| 0 <= k < i ==> (#[trigger] inner@[k])@ == want[k],
                decreases all@.len() - i,
            {
                proof {
                    assert(v[i as int] == all@[i as int]@);
                    assert(crate::syntax::regions_are(
                        regions@[i as int],
                        crate::syntax::line_regions(
                            state.syntax_set@,
                            index as int,
                            state.theme,
                            v,
                            i as int,
                        ),
                    ));
                }
                let html: String = render_line(all[i], &regions[i]);
                inner.push(html);
                i = i + 1;
            }
            assert(crate::listing::strings(inner@) =~= want);
            render_lines_chunked(content, &inner)
        },
        None => {
            let inner: Vec<String> = render_plain_lines(content);
            assert(crate::listing::strings(inner@).len() == inner@.len());
            render_lines_chunked(content, &inner)
        },
    }
}

/// The HTML of a line of a code block: coloured, or escaped where it could not be highlighted.
pub open spec fn code_line(line: Seq<char>, regions: Option<Seq<crate::syntax::RegionView>>) -> Seq<
    char,
> {
    match regions {
        Some(v) => match crate::syntax::regions_html(v) {
            Some(html) => html,
            None => crate::listing::escaped(line),
        },
        None => crate::listing::escaped(line),
    }
}

/// The lines of a code block as HTML, highlighted in the syntax at `index`.
pub open spec fn code_lines(set: SyntaxSet, index: int, theme: Theme, all: Seq<Seq<char>>) -> Seq<
    Seq<char>,
> {
    Seq::new(
        all.len(),
        |k: int| code_line(all[k], crate::syntax::line_regions(set, index, theme, all, k)),
    )
}

/// The start tag of a code block.
pub open spec fn code_open(lang: Option<Seq<char>>) -> Seq<char> {
    match lang {
        Some(l) => "<pre><code class=\"language-"@ + crate::listing::escaped(l) + "\">"@,
        None => "<pre><code>"@,
    }
}

/// The HTML of a code block in markdown.
pub open spec fn code_block_html(state: AppState, lang: Option<Seq<char>>, code: Seq<char>) -> Seq<
    char,
> {
    code_open(lang) + (match state.syntax_to_render(lang, crate::lines::size(code)) {
        Some(index) => crate::lines::joined(
            code_lines(state.syntax_set@, index as int, state.theme, crate::lines::lines(code)),
        ),
        None => crate::listing::escaped(code),
    }) + "</code></pre>\n"@
}

/// Appends a line of a code block, rendered from its regions.
pub fn push_code_line(html: &mut String, line: &str, regions: &Option<Vec<Region>>)
    ensures
        match regions {
            Some(v) => final(html)@ == old(html)@ + code_line(
                line@,
                Some(crate::syntax::region_views(v@)),
            ),
            None => final(html)@ == old(html)@ + code_line(line@, None),
        },
{
    if let Some(v) = regions {
        if let Some(line_html) = render_regions(v) {
            html.append(line_html.as_str());
            return ;
        }
    }
    push_escaped_html(html, line);
}

/// Appends the lines of a code block, highlighted in the syntax at `index`.
fn push_code_lines(html: &mut String, state: &AppState, index: usize, code: &str)
    requires
        index < crate::syntax::syntax_names(state.syntax_set@).len(),
    ensures
        final(html)@ == old(html)@ + crate::lines::joined(
            code_lines(state.syntax_set@, index as int, state.theme, crate::lines::lines(code@)),
        ),
{
    let all: Vec<&str> = split_lines(code);
    let ghost v = crate::lines::lines(code@);
    let ghost want = code_lines(state.syntax_set@, index as int, state.theme, v);
    let regions: Vec<Option<Vec<Region>>> = highlight_lines(
        &state.syntax_set,
        index,
        &state.theme,
        &all,
    );
    let ghost before = html@;
    let mut i: usize = 0;
    proof {
        assert(all@.len() == crate::text::texts(all@).len());
        assert(want.take(0) =~= seq![]);
        assert(before + crate::lines::joined(seq![]) =~= before);
    }
    while i < all.len()
        invariant
            before == old(html)@,
            v == crate::text::texts(all@),
            v.len() == all@.len(),
            want.len() == v.len(),
            regions@.len() == all@.len(),
            want == code_lines(state.syntax_set@, index as int, state.theme, v),
            i <= all@.len(),
            forall|k: int|
                0 <= k < all@.len() ==> crate::syntax::regions_are(
                    #[trigger] regions@[k],
                    crate::syntax::line_regions(
                        state.syntax_set@,
                        index as int,
                        state.theme,
                        v,
                        k,
                    ),
                ),
            html@ == before + crate::lines::joined(want.take(i as int)),
        decreases all@.len() - i,
    {
        let ghost so_far = crate::lines::joined(want.take(i as int));
        proof {
            assert(v[i as int] == all@[i as int]@);
            assert(crate::syntax::regions_are(
                regions@[i as int],
                crate::syntax::line_regions(
                    state.syntax_set@,
                    index as int,
                    state.theme,
                    v,
                    i as int,
                ),
            ));
            assert(want.take(i + 1).drop_last() =~= want.take(i as int));
        }
        push_code_line(html, all[i], &regions[i]);
        assert((before + so_far) + want[i as int] =~= before + (so_far + want[i as int]));
        i = i + 1;
    }
    assert(want.take(i as int) =~= want);
}

/// Renders a code block in markdown: highlighted where its language selects a syntax and it is
/// not too large, else escaped.
pub fn render_markdown_code_block(state: &AppState, lang: Option<&str>, code: &str) -> (r: String)
    ensures
        r@ == code_block_html(*state, crate::state::text_of(lang), code@),
{
    let mut html = String::new();
    match lang {
        Some(l) => {
            html.append("<pre><code class=\"language-");
            push_escaped_html(&mut html, l);
            html.append("\">");
        },
        None => {
            html.append("<pre><code>");
        },
    }
    assert(html@ =~= code_open(crate::state::text_of(lang)));
    match syntax_for_rendering(state, lang, code) {
        Some(index) => {
            push_code_lines(&mut html, state, index, code);
        },
        None => {
            push_escaped_html(&mut html, code);
        },
    }
    html.append("</code></pre>\n");
    html
}

/// What is known of the language of a new paste.
pub enum LanguageDetection {
    /// The language was found, or there is none to be found.
    Resolved(Option<String>),
    /// The content has to be classified; [`classify_language`] judges the outcome.
    NeedsClassifier,
}

/// What a [`LanguageDetection`] says.
pub enum DetectionView {
    Resolved(Option<Seq<char>>),
    NeedsClassifier,
}

impl View for LanguageDetection {
    type V = DetectionView;

    open spec fn view(&self) -> DetectionView {
        match self {
            LanguageDetection::Resolved(language) => DetectionView::Resolved(
                crate::config::value_of(*language),
            ),
            LanguageDetection::NeedsClassifier => DetectionView::NeedsClassifier,
        }
    }
}

/// The extension in a file name, in the form under which syntaxes are looked up.
pub open spec fn extension_in(filename: Option<Seq<char>>) -> Option<Seq<char>> {
    match filename {
        None => None,
        Some(name) => match crate::text::last_split(name, '.') {
            None => None,
            Some((_, extension)) => crate::state::normal_token(extension),
        },
    }
}

/// Reads the extension in a file name, in lower case.
pub fn filename_extension(filename: Option<&str>) -> (r: Option<String>)
    ensures
        crate::config::value_of(r) == extension_in(crate::state::text_of(filename)),
{
    match filename {
        None => None,
        Some(name) => match rsplit_once(name, '.') {
            None => None,
            Some((_, extension)) => normalized_token(extension),
        },
    }
}

/// What the file name and the size of a paste tell about its language.
pub open spec fn detected(state: AppState, filename: Option<Seq<char>>, size: nat) -> DetectionView {
    match extension_in(filename) {
        Some(extension) => DetectionView::Resolved(
            if state.syntax_for(Some(extension)) is Some {
                Some(extension)
            } else {
                None
            },
        ),
        None => if size > state.classifier_max_bytes {
            DetectionView::Resolved(None)
        } else {
            DetectionView::NeedsClassifier
        },
    }
}

/// Detects the language of a paste as far as that takes no look at its content: by the extension
/// of its file name, or not at all where the content is too large to be classified.
pub fn detect_language_fast(state: &AppState, filename: Option<&str>, content: &str) -> (r:
    LanguageDetection)
    ensures
        r@ == detected(*state, crate::state::text_of(filename), crate::lines::size(content@)),
{
    if let Some(extension) = filename_extension(filename) {
        if resolve_syntax(state, Some(extension.as_str())).is_some() {
            return LanguageDetection::Resolved(Some(extension));
        }
        return LanguageDetection::Resolved(None);
    }
    if content.as_bytes().len() > state.classifier_max_bytes {
        return LanguageDetection::Resolved(None);
    }
    LanguageDetection::NeedsClassifier
}

/// The first of some candidates, white space around them dropped, that selects a syntax.
pub open spec fn first_known(state: AppState, candidates: Seq<Seq<char>>) -> Option<Seq<char>>
    decreases candidates.len(),
{
    if candidates.len() == 0 {
        None
    } else {
        let name = crate::text::trimmed(candidates[0]);
        if name.len() > 0 && state.syntax_for(Some(name)) is Some {
            Some(name)
        } else {
            first_known(state, candidates.drop_first())
        }
    }
}

/// The language of a paste for which the classifier found some candidates, one on each line.
pub open spec fn classified(state: AppState, candidates: Option<Seq<char>>) -> Option<Seq<char>> {
    match candidates {
        Some(c) => first_known(state, crate::text::pieces(c, '\n')),
        None => None,
    }
}

/// Judges what the content classifier found: of its candidates, one on each line, the first one
/// that selects a syntax is the language of the paste.
pub fn classify_language(state: &AppState, candidates: Option<&str>) -> (r: Option<String>)
    ensures
        crate::config::value_of(r) == (match candidates {
            Some(c) => first_known(*state, crate::text::pieces(c@, '\n')),
            None => None,
        }),
        crate::config::value_of(r) == classified(*state, crate::state::text_of(candidates)),
{
    let listed: &str = match candidates {
        Some(c) => c,
        None => return None,
    };
    let all: Vec<&str> = split(listed, '\n');
    let ghost v = crate::text::pieces(listed@, '\n');
    let mut i: usize = 0;
    proof {
        assert(v.skip(0) =~= v);
        assert(all@.len() == crate::text::texts(all@).len());
    }
    while i < all.len()
        invariant
            v == crate::text::texts(all@),
            v.len() == all@.len(),
            i <= all@.len(),
            candidates is Some,
            v == crate::text::pieces(candidates->0@, '\n'),
            first_known(*state, v) == first_known(*state, v.skip(i as int)),
        decreases all@.len() - i,
    {
        proof {
            assert(v[i as int] == all@[i as int]@);
            assert(v.skip(i as int)[0] == v[i as int]);
            assert(v.skip(i as int).drop_first() =~= v.skip(i + 1));
        }
        let extension: &str = trim(all[i]);
        if !extension.is_empty() && resolve_syntax(state, Some(extension)).is_some() {
            return Some(extension.to_owned());
        }
        i = i + 1;
    }
    None
}

/// A detected language always selects a syntax.
pub proof fn law_detected_language_is_known(state: AppState, candidates: Seq<Seq<char>>)
    ensures
        first_known(state, candidates) matches Some(name) ==> state.syntax_for(Some(name)) is Some,
    decreases candidates.len(),
{
    if candidates.len() > 0 {
        law_detected_language_is_known(state, candidates.drop_first());
    }
}

/// The name under which a syntax is stored with a paste.
pub open spec fn stored_language(names: crate::syntax::SyntaxNames) -> Seq<char> {
    if names.file_extensions.len() > 0 {
        names.file_extensions[0]
    } else {
        names.name
    }
}

/// The name under which a syntax is stored with a paste leads back to it, or to a later syntax that
/// shares it; it is a file extension wherever the syntax has one.
pub proof fn law_stored_languages_lead_back(names: crate::syntax::SyntaxNames)
    ensures
        crate::state::has_token(names, crate::text::lowered(stored_language(names))),
        names.file_extensions.len() > 0 ==> stored_language(names) == names.file_extensions[0],
        names.file_extensions.len() == 0 ==> stored_language(names) == names.name,
{
    if names.file_extensions.len() > 0 {
        assert(names.file_extensions[0] == stored_language(names));
    }
}

/// The name under which a syntax is stored with a paste: its first file extension, or its name
/// where it has none.
pub fn stored_language_for_syntax(syntax: &SyntaxInfo) -> (r: String)
    ensures
        r@ == (if syntax@.file_extensions.len() > 0 {
            syntax@.file_extensions[0]
        } else {
            syntax@.name
        }),
        r@ == stored_language(syntax@),
{
    if syntax.file_extensions.len() > 0 {
        syntax.file_extensions[0].clone()
    } else {
        syntax.name.clone()
    }
}

/// Whether a text could be a file extension: not empty, without a dot and without white space.
pub open spec fn is_plain_extension(e: Seq<char>) -> bool {
    &&& e.len() > 0
    &&& forall|i: int| 0 <= i < e.len() ==> #[trigger] e[i] != '.' && !crate::chars::is_white(e[i])
}

/// What stands behind the last dot of a file name decides, in lower case, whatever dots stand
/// before it: it is the extension, and the language where it selects a syntax.
pub proof fn law_last_extension_decides(
    state: AppState,
    stem: Seq<char>,
    extension: Seq<char>,
    size: nat,
)
    requires
        is_plain_extension(extension),
    ensures
        extension_in(Some(stem + seq!['.'] + extension)) == Some(crate::text::lowered(extension)),
        state.syntax_for(Some(crate::text::lowered(extension))) is Some ==> detected(
            state,
            Some(stem + seq!['.'] + extension),
            size,
        ) == DetectionView::Resolved(Some(crate::text::lowered(extension))),
        state.syntax_for(Some(crate::text::lowered(extension))) is None ==> detected(
            state,
            Some(stem + seq!['.'] + extension),
            size,
        ) == DetectionView::Resolved(None),
{
    crate::text::law_split_at_the_last(stem, '.', extension);
    crate::text::law_white_space_is_trimmed(seq![], extension, seq![]);
    assert(seq![] + extension + seq![] =~= extension);
    crate::text::law_only_copies_are_dropped(extension, '.');
    let f = crate::text::without_front(extension, '.');
    if f.len() < extension.len() {
        assert(extension[0] == '.');
    }
    assert(extension.subrange(extension.len() - f.len(), extension.len() as int) =~= extension);
    assert(f == extension);
}

/// A file name without a dot, or none at all, tells nothing: the content is left to the classifier,
/// unless it is too large for that.
pub proof fn law_names_without_extension_tell_nothing(
    state: AppState,
    filename: Option<Seq<char>>,
    size: nat,
)
    requires
        filename matches Some(name) ==> !name.contains('.'),
    ensures
        extension_in(filename) is None,
        size <= state.classifier_max_bytes ==> detected(state, filename, size)
            == DetectionView::NeedsClassifier,
        size > state.classifier_max_bytes ==> detected(state, filename, size)
            == DetectionView::Resolved(None),
{
    if let Some(name) = filename {
        crate::text::law_split_at_the_last(seq![], '.', name);
    }
}

/// The first candidate that selects a syntax is the language: none before it does, and where none
/// at all does there is no language.
pub proof fn law_first_known_candidate_wins(state: AppState, candidates: Seq<Seq<char>>)
    ensures
        first_known(state, candidates) is None <==> forall|i: int|
            0 <= i < candidates.len() ==> crate::text::trimmed(#[trigger] candidates[i]).len() == 0
                || state.syntax_for(Some(crate::text::trimmed(candidates[i]))) is None,
        first_known(state, candidates) matches Some(name) ==> exists|i: int|
            {
                &&& 0 <= i < candidates.len()
                &&& crate::text::trimmed(#[trigger] candidates[i]) == name
                &&& name.len() > 0
                &&& state.syntax_for(Some(name)) is Some
                &&& forall|j: int|
                    0 <= j < i ==> crate::text::trimmed(#[trigger] candidates[j]).len() == 0
                        || state.syntax_for(Some(crate::text::trimmed(candidates[j]))) is None
            },
    decreases candidates.len(),
{
    if candidates.len() > 0 {
        let rest = candidates.drop_first();
        law_first_known_candidate_wins(state, rest);
        let name = crate::text::trimmed(candidates[0]);
        if name.len() > 0 && state.syntax_for(Some(name)) is Some {
            assert(crate::text::trimmed(candidates[0]) == name);
        } else {
            assert forall|i: int| 0 <= i < rest.len() implies #[trigger] rest[i] == candidates[i
                + 1] by {}
            if first_known(state, rest) is None {
                assert forall|i: int| 0 <= i < candidates.len() implies crate::text::trimmed(
                    #[trigger] candidates[i],
                ).len() == 0 || state.syntax_for(Some(crate::text::trimmed(candidates[i]))) is None by {
                    if i > 0 {
                        assert(rest[i - 1] == candidates[i]);
                    }
                }
            } else {
                let found = first_known(state, rest)->0;
                let i = choose|i: int|
                    {
                        &&& 0 <= i < rest.len()
                        &&& crate::text::trimmed(#[trigger] rest[i]) == found
                        &&& found.len() > 0
                        &&& state.syntax_for(Some(found)) is Some
                        &&& forall|j: int|
                            0 <= j < i ==> crate::text::trimmed(#[trigger] rest[j]).len() == 0
                                || state.syntax_for(Some(crate::text::trimmed(rest[j]))) is None
                    };
                assert(candidates[i + 1] == rest[i]);
                assert forall|j: int| 0 <= j < i + 1 implies crate::text::trimmed(
                    #[trigger] candidates[j],
                ).len() == 0 || state.syntax_for(Some(crate::text::trimmed(candidates[j]))) is None by {
                    if j > 0 {
                        assert(rest[j - 1] == candidates[j]);
                    }
                }
            }
        }
    }
}

/// What stands for line `k` of some code: the HTML of its regions, or the escaped line where there
/// is none.
pub open spec fn piece_of_code(
    set: SyntaxSet,
    index: int,
    theme: Theme,
    all: Seq<Seq<char>>,
    k: int,
) -> Seq<char> {
    let regions = crate::syntax::line_regions(set, index, theme, all, k);
    if regions is Some && crate::syntax::regions_html(regions->0) is Some {
        crate::syntax::regions_html(regions->0)->0
    } else {
        crate::listing::escaped(all[k])
    }
}

proof fn lemma_joined_prefix(v: Seq<Seq<char>>, k: int)
    requires
        0 <= k <= v.len(),
    ensures
        crate::lines::joined(v.take(k)).is_prefix_of(crate::lines::joined(v)),
    decreases v.len(),
{
    let head = crate::lines::joined(v.take(k));
    if k == v.len() {
        assert(v.take(k) =~= v);
        assert(head.subrange(0, head.len() as int) =~= head);
    } else {
        lemma_joined_prefix(v.drop_last(), k);
        assert(v.drop_last().take(k) =~= v.take(k));
        let most = crate::lines::joined(v.drop_last());
        let all = most + v.last();
        assert(all.subrange(0, head.len() as int) =~= most.subrange(0, head.len() as int));
    }
}

/// Every line of a highlighted code block is in its HTML, behind all lines before it and before
/// all lines behind it.
pub proof fn law_code_blocks_show_every_line(
    state: AppState,
    lang: Option<Seq<char>>,
    code: Seq<char>,
    k: int,
)
    requires
        state.syntax_to_render(lang, crate::lines::size(code)) is Some,
        0 <= k < crate::lines::lines(code).len(),
    ensures
        ({
            let index = state.syntax_to_render(lang, crate::lines::size(code))->0 as int;
            let all = crate::lines::lines(code);
            let pieces = Seq::new(
                all.len(),
                |i: int| piece_of_code(state.syntax_set@, index, state.theme, all, i),
            );
            &&& code_block_html(state, lang, code) == code_open(lang) + crate::lines::joined(pieces)
                + "</code></pre>\n"@
            &&& pieces.len() == all.len()
            &&& (code_open(lang) + crate::lines::joined(pieces.take(k)) + pieces[k]).is_prefix_of(
                code_block_html(state, lang, code),
            )
        }),
{
    let index = state.syntax_to_render(lang, crate::lines::size(code))->0 as int;
    let all = crate::lines::lines(code);
    let pieces = Seq::new(
        all.len(),
        |i: int| piece_of_code(state.syntax_set@, index, state.theme, all, i),
    );
    assert(code_lines(state.syntax_set@, index, state.theme, all) =~= pieces);
    assert(pieces.take(k + 1).drop_last() =~= pieces.take(k));
    let upto = crate::lines::joined(pieces.take(k + 1));
    lemma_joined_prefix(pieces, k + 1);
    let open = code_open(lang);
    let whole = code_block_html(state, lang, code);
    assert(open + crate::lines::joined(pieces.take(k)) + pieces[k] =~= open + upto);
    assert(whole.subrange(0, (open + upto).len() as int) =~= open + upto) by {
        let inside = crate::lines::joined(pieces);
        assert(inside.subrange(0, upto.len() as int) == upto);
    }
}

/// A code block in which no line can be highlighted holds its code, escaped.
pub proof fn law_plain_code_is_kept(
    state: AppState,
    lang: Option<Seq<char>>,
    code: Seq<char>,
)
    requires
        state.syntax_to_render(lang, crate::lines::size(code)) matches Some(index) ==> forall|k: int|
            0 <= k < crate::lines::lines(code).len() ==> #[trigger] crate::syntax::line_regions(
                state.syntax_set@,
                index as int,
                state.theme,
                crate::lines::lines(code),
                k,
            ) is None,
    ensures
        code_block_html(state, lang, code) == code_open(lang) + crate::listing::escaped(code)
            + "</code></pre>\n"@,
{
    if let Some(index) = state.syntax_to_render(lang, crate::lines::size(code)) {
        let all = crate::lines::lines(code);
        let v = code_lines(state.syntax_set@, index as int, state.theme, all);
        assert forall|k: int| 0 <= k < all.len() implies #[trigger] v[k]
            == crate::listing::escaped(all[k]) by {
            assert(crate::syntax::line_regions(
                state.syntax_set@,
                index as int,
                state.theme,
                all,
                k,
            ) is None);
        }
        lemma_escaped_lines(all, v);
        crate::lines::law_lines_make_up_the_text(code);
    }
}

proof fn lemma_escaped_lines(all: Seq<Seq<char>>, v: Seq<Seq<char>>)
    requires
        v.len() == all.len(),
        forall|k: int| 0 <= k < all.len() ==> #[trigger] v[k] == crate::listing::escaped(all[k]),
    ensures
        crate::lines::joined(v) == crate::listing::escaped(crate::lines::joined(all)),
    decreases all.len(),
{
    if all.len() > 0 {
        assert forall|k: int| 0 <= k < all.drop_last().len() implies #[trigger] v.drop_last()[k]
            == crate::listing::escaped(all.drop_last()[k]) by {
            assert(v[k] == crate::listing::escaped(all[k]));
        }
        lemma_escaped_lines(all.drop_last(), v.drop_last());
        assert(v[v.len() - 1] == crate::listing::escaped(all[all.len() - 1]));
        crate::listing::law_escaping_is_piecewise(
            crate::lines::joined(all.drop_last()),
            all.last(),
        );
    }
}

/// Five names stand for markdown, in any case of letters and with white space around them.
pub proof fn law_five_names_stand_for_markdown(a: Seq<char>, t: Seq<char>, b: Seq<char>)
    requires
        forall|i: int| 0 <= i < a.len() ==> crate::chars::is_white(#[trigger] a[i]),
        forall|i: int| 0 <= i < b.len() ==> crate::chars::is_white(#[trigger] b[i]),
        t.len() > 0 ==> !crate::chars::is_white(t[0]) && !crate::chars::is_white(t.last()),
    ensures
        names_markdown(Some(a + t + b)) <==> {
            let low = crate::text::lowered(t);
            ||| low == seq!['m', 'd']
            ||| low == seq!['m', 'a', 'r', 'k', 'd', 'o', 'w', 'n']
            ||| low == seq!['m', 'd', 'o', 'w', 'n']
            ||| low == seq!['m', 'k', 'd']
            ||| low == seq!['m', 'k', 'd', 'n']
        },
        !names_markdown(None),
{
    reveal_strlit("md");
    reveal_strlit("markdown");
    reveal_strlit("mdown");
    reveal_strlit("mkd");
    reveal_strlit("mkdn");
    assert("md"@ =~= seq!['m', 'd']);
    assert("markdown"@ =~= seq!['m', 'a', 'r', 'k', 'd', 'o', 'w', 'n']);
    assert("mdown"@ =~= seq!['m', 'd', 'o', 'w', 'n']);
    assert("mkd"@ =~= seq!['m', 'k', 'd']);
    assert("mkdn"@ =~= seq!['m', 'k', 'd', 'n']);
    crate::text::law_white_space_is_trimmed(a, t, b);
}

proof fn lemma_code_opens(lang: Option<Seq<char>>)
    ensures
        crate::html::reads_as(code_open(lang), seq![]),
        crate::html::reads_as("</code></pre>\n"@, seq!['\n']),
{
    reveal_strlit("<pre><code class=\"language-");
    reveal_strlit("\">");
    reveal_strlit("<pre><code>");
    reveal_strlit("</code></pre>\n");
    let pre = seq!['<', 'p', 'r', 'e', '>'];
    crate::html::lemma_tag(pre);
    let end_code = seq!['<', '/', 'c', 'o', 'd', 'e', '>'];
    let end_pre = seq!['<', '/', 'p', 'r', 'e', '>'];
    crate::html::lemma_tag(end_code);
    crate::html::lemma_tag(end_pre);
    crate::html::lemma_reads_plain(seq!['\n']);
    crate::html::lemma_reads_both(end_code, seq![], end_pre, seq![]);
    crate::html::lemma_reads_both(end_code + end_pre, seq![] + seq![], seq!['\n'], seq!['\n']);
    assert("</code></pre>\n"@ =~= end_code + end_pre + seq!['\n']);
    assert(seq![] + seq![] + seq!['\n'] =~= seq!['\n']);
    assert(seq![] + seq![] =~= Seq::<char>::empty());
    match lang {
        Some(l) => {
            let name = crate::listing::escaped(l);
            crate::listing::law_escaped_text_is_inert(l);
            let code = "<pre><code class=\"language-"@.skip(5) + name + "\">"@;
            let open = "<pre><code class=\"language-"@.skip(5);
            assert forall|i: int| 0 <= i < code.len() - 1 implies #[trigger] code[i] != '>' by {
                if i < open.len() {
                    assert(code[i] == open[i]);
                } else if i < open.len() + name.len() {
                    assert(code[i] == name[i - open.len()]);
                }
            }
            crate::html::lemma_tag(code);
            crate::html::lemma_reads_both(pre, seq![], code, seq![]);
            assert(code_open(lang) =~= pre + code);
        },
        None => {
            let code = seq!['<', 'c', 'o', 'd', 'e', '>'];
            crate::html::lemma_tag(code);
            crate::html::lemma_reads_both(pre, seq![], code, seq![]);
            assert(code_open(lang) =~= pre + code);
        },
    }
}

/// Read as HTML, a code block in which no line can be highlighted is its code.
pub proof fn law_plain_code_reads_as_the_code(
    state: AppState,
    lang: Option<Seq<char>>,
    code: Seq<char>,
)
    requires
        state.syntax_to_render(lang, crate::lines::size(code)) matches Some(index) ==> forall|k: int|
            0 <= k < crate::lines::lines(code).len() ==> #[trigger] crate::syntax::line_regions(
                state.syntax_set@,
                index as int,
                state.theme,
                crate::lines::lines(code),
                k,
            ) is None,
    ensures
        crate::html::reads_as(code_block_html(state, lang, code), code + seq!['\n']),
{
    law_plain_code_is_kept(state, lang, code);
    lemma_code_opens(lang);
    crate::listing::law_escaped_text_reads_as_the_text(code);
    let open = code_open(lang);
    let inner = crate::listing::escaped(code);
    crate::html::lemma_reads_both(open, seq![], inner, code);
    crate::html::lemma_reads_both(open + inner, seq![] + code, "</code></pre>\n"@, seq!['\n']);
    assert(seq![] + code + seq!['\n'] =~= code + seq!['\n']);
}

/// Read as HTML, a highlighted code block is what its lines read as, one behind the other.
pub proof fn law_code_blocks_read_as_their_lines(
    state: AppState,
    lang: Option<Seq<char>>,
    code: Seq<char>,
    texts: Seq<Seq<char>>,
)
    requires
        state.syntax_to_render(lang, crate::lines::size(code)) is Some,
        texts.len() == crate::lines::lines(code).len(),
        forall|k: int|
            0 <= k < texts.len() ==> crate::html::reads_as(
                piece_of_code(
                    state.syntax_set@,
                    state.syntax_to_render(lang, crate::lines::size(code))->0 as int,
                    state.theme,
                    crate::lines::lines(code),
                    k,
                ),
                #[trigger] texts[k],
            ),
    ensures
        crate::html::reads_as(
            code_block_html(state, lang, code),
            crate::lines::joined(texts) + seq!['\n'],
        ),
{
    let index = state.syntax_to_render(lang, crate::lines::size(code))->0 as int;
    let all = crate::lines::lines(code);
    let v = code_lines(state.syntax_set@, index, state.theme, all);
    assert forall|k: int| 0 <= k < v.len() implies crate::html::reads_as(
        #[trigger] v[k],
        texts[k],
    ) by {
        assert(crate::html::reads_as(
            piece_of_code(state.syntax_set@, index, state.theme, all, k),
            texts[k],
        ));
    }
    lemma_joined_reads_as(v, texts);
    lemma_code_opens(lang);
    let open = code_open(lang);
    let inner = crate::lines::joined(v);
    let text = crate::lines::joined(texts);
    crate::html::lemma_reads_both(open, seq![], inner, text);
    crate::html::lemma_reads_both(open + inner, seq![] + text, "</code></pre>\n"@, seq!['\n']);
    assert(seq![] + text + seq!['\n'] =~= text + seq!['\n']);
}

proof fn lemma_joined_reads_as(v: Seq<Seq<char>>, texts: Seq<Seq<char>>)
    requires
        v.len() == texts.len(),
        forall|k: int| 0 <= k < v.len() ==> crate::html::reads_as(#[trigger] v[k], texts[k]),
    ensures
        crate::html::reads_as(crate::lines::joined(v), crate::lines::joined(texts)),
    decreases v.len(),
{
    if v.len() == 0 {
        crate::html::lemma_reads_nothing();
    } else {
        assert forall|k: int| 0 <= k < v.drop_last().len() implies crate::html::reads_as(
            #[trigger] v.drop_last()[k],
            texts.drop_last()[k],
        ) by {
            assert(crate::html::reads_as(v[k], texts[k]));
        }
        lemma_joined_reads_as(v.drop_last(), texts.drop_last());
        assert(crate::html::reads_as(v[v.len() - 1], texts[v.len() - 1]));
        crate::html::lemma_reads_both(
            crate::lines::joined(v.drop_last()),
            crate::lines::joined(texts.drop_last()),
            v.last(),
            texts.last(),
        );
    }
}

/// What stands for line `k` of a listed paste: the HTML of its regions, or the escaped line
/// without its line ending where there is none.
pub open spec fn piece_of_listing(
    set: SyntaxSet,
    index: int,
    theme: Theme,
    all: Seq<Seq<char>>,
    k: int,
) -> Seq<char> {
    let regions = crate::syntax::line_regions(set, index, theme, all, k);
    if regions is Some && crate::syntax::regions_html(regions->0) is Some {
        crate::syntax::regions_html(regions->0)->0
    } else {
        crate::listing::escaped(crate::lines::line_text(all[k]))
    }
}

/// Every line of a highlighted paste is in its listing, with its number and its anchor, and read
/// as HTML the listing is what its lines read as, each with its number before it.
pub proof fn law_highlighted_pastes_show_every_line(
    state: AppState,
    extension: Option<Seq<char>>,
    content: Seq<char>,
    texts: Seq<Seq<char>>,
    k: int,
)
    requires
        state.syntax_to_render(extension, crate::lines::size(content)) is Some,
        texts.len() == crate::lines::lines(content).len(),
        0 <= k < crate::lines::lines(content).len(),
    ensures
        ({
            let index = state.syntax_to_render(extension, crate::lines::size(content))->0 as int;
            let all = crate::lines::lines(content);
            let number = crate::listing::decimal((k + 1) as nat);
            &&& crate::text::occurs_in(
                "<code id=L"@ + number + "><a href=#L"@ + number + ">"@ + number + "</a>"@
                    + piece_of_listing(state.syntax_set@, index, state.theme, all, k) + "</code>"@,
                paste_html(state, extension, content),
            )
            &&& (forall|i: int|
                0 <= i < all.len() ==> crate::html::reads_as(
                    piece_of_listing(state.syntax_set@, index, state.theme, all, i),
                    #[trigger] texts[i],
                )) ==> crate::html::reads_as(
                paste_html(state, extension, content),
                crate::listing::numbered(1, texts),
            )
        }),
{
    let index = state.syntax_to_render(extension, crate::lines::size(content))->0 as int;
    let all = crate::lines::lines(content);
    let inner = coloured_lines(state.syntax_set@, index, state.theme, all);
    assert forall|i: int| 0 <= i < all.len() implies #[trigger] inner[i] == piece_of_listing(
        state.syntax_set@,
        index,
        state.theme,
        all,
        i,
    ) by {}
    crate::listing::law_every_line_is_anchored(content, inner, k);
    if forall|i: int|
        0 <= i < all.len() ==> crate::html::reads_as(
            piece_of_listing(state.syntax_set@, index, state.theme, all, i),
            #[trigger] texts[i],
        ) {
        assert forall|i: int| 0 <= i < inner.len() implies crate::html::reads_as(
            #[trigger] inner[i],
            texts[i],
        ) by {
            assert(crate::html::reads_as(
                piece_of_listing(state.syntax_set@, index, state.theme, all, i),
                texts[i],
            ));
        }
        crate::listing::law_listings_read_as_their_lines(content, inner, texts);
    }
}

/// The candidates of the classifier are tried line by line: the first line decides where it names a
/// language that selects a syntax, else what follows it does.
pub proof fn law_candidates_are_tried_line_by_line(
    state: AppState,
    first: Seq<char>,
    rest: Seq<char>,
)
    requires
        !first.contains('\n'),
    ensures
        ({
            let name = crate::text::trimmed(first);
            let known = name.len() > 0 && state.syntax_for(Some(name)) is Some;
            &&& classified(state, Some(first + seq!['\n'] + rest)) == (if known {
                Some(name)
            } else {
                classified(state, Some(rest))
            })
            &&& classified(state, Some(first)) == (if known {
                Some(name)
            } else {
                None
            })
        }),
        classified(state, None) is None,
{
    crate::text::law_pieces_lie_between(first, '\n', rest);
    let all = seq![first] + crate::text::pieces(rest, '\n');
    assert(all[0] == first);
    assert(all.drop_first() =~= crate::text::pieces(rest, '\n'));
    assert(seq![first].drop_first() =~= seq![]);
    assert(first_known(state, seq![]) is None);
}

/// A code block names its language, where it has one, in its start tag.
pub proof fn law_code_blocks_name_their_language(
    state: AppState,
    lang: Seq<char>,
    code: Seq<char>,
)
    ensures
        ("<pre><code class=\"language-"@ + crate::listing::escaped(lang) + "\">"@).is_prefix_of(
            code_block_html(state, Some(lang), code),
        ),
        "<pre><code>"@.is_prefix_of(code_block_html(state, None, code)),
        "</code></pre>\n"@.is_suffix_of(code_block_html(state, Some(lang), code)),
        "</code></pre>\n"@.is_suffix_of(code_block_html(state, None, code)),
{
    let a = code_block_html(state, Some(lang), code);
    let p = "<pre><code class=\"language-"@ + crate::listing::escaped(lang) + "\">"@;
    assert(a.subrange(0, p.len() as int) =~= p);
    let b = code_block_html(state, None, code);
    let q = "<pre><code>"@;
    assert(b.subrange(0, q.len() as int) =~= q);
    let e = "</code></pre>\n"@;
    assert(a.subrange(a.len() - e.len(), a.len() as int) =~= e);
    assert(b.subrange(b.len() - e.len(), b.len() as int) =~= e);
}

} // verus!
