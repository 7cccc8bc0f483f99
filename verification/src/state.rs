//! What the server knows about syntaxes and limits, and the records that it works on.

use syntect::highlighting::Theme;
use syntect::parsing::SyntaxSet;
use vstd::hash_map::StringHashMap;
use vstd::prelude::*;
use vstd::string::*;
use crate::config::Config;
use crate::error::AppError;
use crate::scheme::{convert_scheme, is_convertible, parse_scheme, shallow};
use crate::syntax::{count_syntaxes, list_syntaxes, read_dump, SyntaxInfo, Syntaxes};
use crate::text::{to_ascii_lowercase, trim, trim_start_matches};

verus! {

/// The outcome of handling a request.
pub type AppResult<T> = Result<T, AppError>;

/// What rendering a paste depends on.
pub struct AppState {
    pub syntax_set: Syntaxes,
    /// The index of the syntax for each lower-case name and file extension.
    pub syntax_index_by_token: StringHashMap<usize>,
    pub theme: Theme,
    /// The largest content that is handed to the language classifier.
    pub classifier_max_bytes: usize,
    /// The largest content that is highlighted.
    pub highlight_max_bytes: usize,
    /// The largest rendered page that is cached.
    pub render_cache_max_entry_bytes: usize,
    /// The address under which pastes are reached, where it is configured.
    pub base_url: Option<String>,
}

/// The fields of a form that creates a paste.
#[derive(Debug)]
pub struct CreatePasteForm {
    pub expires_in: Option<String>,
    pub filename: Option<String>,
    pub language: Option<String>,
    pub content: Option<String>,
    pub from_browser: bool,
}

impl Default for CreatePasteForm {
    fn default() -> (r: CreatePasteForm)
        ensures
            r == (CreatePasteForm {
                expires_in: None,
                filename: None,
                language: None,
                content: None,
                from_browser: false,
            }),
    {
        CreatePasteForm {
            expires_in: None,
            filename: None,
            language: None,
            content: None,
            from_browser: false,
        }
    }
}

/// What is read of a paste before its content is.
#[derive(Debug)]
pub struct PasteMeta {
    pub id: String,
    pub language: Option<String>,
    /// The first characters of the content.
    pub head: String,
}

/// The characters of an optional text.
pub open spec fn text_of(v: Option<&str>) -> Option<Seq<char>> {
    match v {
        Some(s) => Some(s@),
        None => None,
    }
}

/// A token in the form under which syntaxes are looked up: without white space around it and dots
/// before it, in lower case; none where nothing is left.
pub open spec fn normal_token(token: Seq<char>) -> Option<Seq<char>> {
    let t = crate::text::without_front(crate::text::trimmed(token), '.');
    if t.len() == 0 {
        None
    } else {
        Some(crate::text::lowered(t))
    }
}

/// Brings a file extension or language name into the form under which syntaxes are looked up.
pub fn normalized_token(token: &str) -> (r: Option<String>)
    ensures
        crate::config::value_of(r) == normal_token(token@),
{
    let t: &str = trim_start_matches(trim(token), '.');
    if t.is_empty() {
        None
    } else {
        Some(to_ascii_lowercase(t))
    }
}

/// The map with the file extensions of syntax `index` added.
pub open spec fn with_extensions(
    map: Map<Seq<char>, usize>,
    extensions: Seq<Seq<char>>,
    index: usize,
) -> Map<Seq<char>, usize>
    decreases extensions.len(),
{
    if extensions.len() == 0 {
        map
    } else {
        with_extensions(map, extensions.drop_last(), index).insert(
            crate::text::lowered(extensions.last()),
            index,
        )
    }
}

/// The index of the syntax for each lower-case name and file extension; where several syntaxes
/// share one, the last of them has it.
pub open spec fn syntax_index(names: Seq<crate::syntax::SyntaxNames>) -> Map<Seq<char>, usize>
    decreases names.len(),
{
    if names.len() == 0 {
        Map::empty()
    } else {
        let index = (names.len() - 1) as usize;
        with_extensions(
            syntax_index(names.drop_last()).insert(
                crate::text::lowered(names.last().name),
                index,
            ),
            names.last().file_extensions,
            index,
        )
    }
}

/// The syntax that a file extension or language name selects.
pub open spec fn selected_syntax(
    map: Map<Seq<char>, usize>,
    count: nat,
    extension: Option<Seq<char>>,
) -> Option<usize> {
    match extension {
        None => None,
        Some(e) => match normal_token(e) {
            None => None,
            Some(t) => if map.contains_key(t) && map[t] < count {
                Some(map[t])
            } else {
                None
            },
        },
    }
}

/// Maps the lower-case names and file extensions of all syntaxes to their indices.
pub fn build_syntax_index_map(set: &SyntaxSet) -> (r: StringHashMap<usize>)
    ensures
        r@ == syntax_index(crate::syntax::syntax_names(*set)),
{
    let list: Vec<SyntaxInfo> = list_syntaxes(set);
    let ghost names = crate::syntax::syntax_names(*set);
    let mut mapping: StringHashMap<usize> = StringHashMap::new();
    let mut index: usize = 0;
    proof {
        assert(names.take(0) =~= seq![]);
        assert(list@.len() == names.len());
    }
    while index < list.len()
        invariant
            list@.map_values(|s: SyntaxInfo| s@) == names,
            list@.len() == names.len(),
            index <= list@.len(),
            mapping@ == syntax_index(names.take(index as int)),
        decreases list@.len() - index,
    {
        let syntax: &SyntaxInfo = &list[index];
        let ghost before = mapping@;
        proof {
            assert(names[index as int] == list@[index as int]@);
            assert(names.take(index + 1).drop_last() =~= names.take(index as int));
        }
        mapping.insert(to_ascii_lowercase(syntax.name.as_str()), index);
        let ghost start = mapping@;
        let ghost extensions = syntax@.file_extensions;
        let mut i: usize = 0;
        assert(extensions.take(0) =~= seq![]);
        while i < syntax.file_extensions.len()
            invariant
                extensions == syntax@.file_extensions,
                extensions.len() == syntax.file_extensions@.len(),
                i <= extensions.len(),
                mapping@ == with_extensions(start, extensions.take(i as int), index),
            decreases extensions.len() - i,
        {
            proof {
                assert(extensions.take(i + 1).drop_last() =~= extensions.take(i as int));
                assert(extensions[i as int] == syntax.file_extensions@[i as int]@);
            }
            mapping.insert(to_ascii_lowercase(syntax.file_extensions[i].as_str()), index);
            i = i + 1;
        }
        assert(extensions.take(i as int) =~= extensions);
        index = index + 1;
    }
    assert(names.take(names.len() as int) =~= names);
    mapping
}

proof fn lemma_with_extensions(
    map: Map<Seq<char>, usize>,
    extensions: Seq<Seq<char>>,
    index: usize,
)
    ensures
        forall|t: Seq<char>| #[trigger]
            with_extensions(map, extensions, index).contains_key(t) ==> (map.contains_key(t)
                && with_extensions(map, extensions, index)[t] == map[t]) || with_extensions(
                map,
                extensions,
                index,
            )[t] == index,
        forall|t: Seq<char>| #[trigger]
            map.contains_key(t) ==> with_extensions(map, extensions, index).contains_key(t),
        forall|k: int|
            0 <= k < extensions.len() ==> with_extensions(map, extensions, index).contains_key(
                crate::text::lowered(#[trigger] extensions[k]),
            ),
        forall|k: int|
            0 <= k < extensions.len() ==> with_extensions(
                map,
                extensions,
                index,
            )[crate::text::lowered(#[trigger] extensions[k])] == index,
    decreases extensions.len(),
{
    if extensions.len() > 0 {
        lemma_with_extensions(map, extensions.drop_last(), index);
        let all = with_extensions(map, extensions, index);
        let head = with_extensions(map, extensions.drop_last(), index);
        assert forall|k: int| 0 <= k < extensions.len() implies all.contains_key(
            crate::text::lowered(#[trigger] extensions[k]),
        ) && all[crate::text::lowered(extensions[k])] == index by {
            if k < extensions.len() - 1 {
                assert(extensions.drop_last()[k] == extensions[k]);
            }
        }
    }
}

/// Every syntax can be found by its name and by each of its file extensions, in any case, and
/// what is found is always one of the loaded syntaxes.
pub proof fn law_index_is_complete(names: Seq<crate::syntax::SyntaxNames>)
    requires
        names.len() <= usize::MAX,
    ensures
        forall|t: Seq<char>| #[trigger]
            syntax_index(names).contains_key(t) ==> syntax_index(names)[t] < names.len(),
        forall|k: int|
            0 <= k < names.len() ==> syntax_index(names).contains_key(
                crate::text::lowered((#[trigger] names[k]).name),
            ),
        forall|k: int, e: int|
            0 <= k < names.len() && 0 <= e < names[k].file_extensions.len() ==> syntax_index(
                names,
            ).contains_key(crate::text::lowered(#[trigger] names[k].file_extensions[e])),
    decreases names.len(),
{
    if names.len() > 0 {
        let rest = names.drop_last();
        law_index_is_complete(rest);
        let index = (names.len() - 1) as usize;
        let named = syntax_index(rest).insert(crate::text::lowered(names.last().name), index);
        let extensions = names.last().file_extensions;
        lemma_with_extensions(named, extensions, index);
        let all = syntax_index(names);
        assert(all == with_extensions(named, extensions, index));
        assert forall|t: Seq<char>| #[trigger] all.contains_key(t) implies all[t] < names.len() by {
            if named.contains_key(t) && all[t] == named[t] {
                if named[t] != index {
                    assert(syntax_index(rest).contains_key(t));
                }
            }
        }
        assert forall|k: int| 0 <= k < names.len() implies all.contains_key(
            crate::text::lowered((#[trigger] names[k]).name),
        ) by {
            if k < rest.len() {
                assert(rest[k] == names[k]);
                assert(syntax_index(rest).contains_key(crate::text::lowered(rest[k].name)));
            }
            assert(named.contains_key(crate::text::lowered(names[k].name)));
        }
        assert forall|k: int, e: int|
            0 <= k < names.len() && 0 <= e < names[k].file_extensions.len() implies all.contains_key(
            crate::text::lowered(#[trigger] names[k].file_extensions[e]),
        ) by {
            if k < rest.len() {
                assert(rest[k] == names[k]);
                assert(syntax_index(rest).contains_key(
                    crate::text::lowered(rest[k].file_extensions[e]),
                ));
                assert(named.contains_key(crate::text::lowered(names[k].file_extensions[e])));
            }
        }
    }
}

/// Normalizing a token a second time changes nothing, unless the first time bared white space
/// that had stood behind a dot.
pub proof fn law_normal_token_is_stable(token: Seq<char>)
    requires
        normal_token(token) matches Some(t) && !crate::chars::is_white(t[0]),
    ensures
        normal_token(normal_token(token)->0) == normal_token(token),
{
    let class = crate::chars::Class::NotWhite;
    let dot = crate::chars::Class::IsNot('.');
    let a = crate::text::trimmed_start(token);
    let b = crate::text::trimmed(token);
    let p = crate::text::first_pos(b, dot);
    crate::text::lemma_last_end(a, class);
    crate::text::lemma_first_pos(b, dot);
    let t = crate::text::without_front(b, '.');
    let l = crate::text::lowered(t);
    assert(l == normal_token(token)->0);
    assert(t[0] == b[p]);
    assert(t[t.len() - 1] == b[b.len() - 1]);
    assert(b[b.len() - 1] == a[b.len() - 1]);
    assert(l[0] == crate::chars::lower(t[0]));
    assert(l[l.len() - 1] == crate::chars::lower(t[t.len() - 1]));
    crate::text::lemma_first_pos_is(l, class, 0);
    assert(l.skip(0) =~= l);
    crate::text::lemma_last_end_is(l, class, l.len() as int);
    assert(l.take(l.len() as int) =~= l);
    crate::text::lemma_first_pos_is(l, dot, 0);
    assert(crate::text::lowered(l) =~= l);
}

/// Reads the syntax definitions from a binary dump that syntect wrote.
pub fn load_syntaxes(dump: &[u8]) -> (r: Result<Syntaxes, String>)
    requires
        crate::syntax::is_intact(dump@),
    ensures
        r matches Ok(set) ==> set@ == crate::syntax::dumped_syntaxes(dump@),
        r matches Err(e) ==> "failed to load syntaxes: "@.is_prefix_of(e@),
{
    match read_dump(dump) {
        Ok(set) => Ok(Syntaxes::new(set)),
        Err(error) => {
            let mut message: String = "failed to load syntaxes: ".to_owned();
            message.append(error.as_str());
            Err(message)
        },
    }
}

/// Reads the theme from a colour scheme.
///
/// A scheme whose brackets nest too deeply, or with a colour that cannot be computed, is refused
/// before anything else is made of it.
pub fn load_theme(text: &str) -> (r: Result<Theme, String>)
    ensures
        r matches Ok(theme) ==> crate::scheme::is_shallow(text@) && (crate::scheme::scheme_in(
            text@,
        ) matches Ok(scheme) && crate::scheme::convertible(crate::scheme::scheme_colours(scheme))
            && theme == crate::scheme::scheme_theme(scheme)),
        (r matches Err(e) && e@ == "theme is nested too deeply"@)
            <==> !crate::scheme::is_shallow(text@),
        crate::scheme::is_shallow(text@) ==> (crate::scheme::scheme_in(text@) matches Err(error)
            ==> (r matches Err(e) && e@ == "failed to parse theme: "@ + error)),
        (r matches Err(e) && "failed to parse theme: "@.is_prefix_of(e@))
            ==> crate::scheme::is_shallow(text@) && crate::scheme::scheme_in(text@) is Err,
        (r matches Err(e) && e@ == "theme has a color that cannot be computed"@)
            <==> crate::scheme::is_shallow(text@) && (crate::scheme::scheme_in(
            text@,
        ) matches Ok(scheme) && !crate::scheme::convertible(crate::scheme::scheme_colours(scheme))),
        crate::scheme::is_shallow(text@) && (crate::scheme::scheme_in(text@) matches Ok(scheme)
            && crate::scheme::convertible(crate::scheme::scheme_colours(scheme))) && r is Err
            ==> "failed to convert theme: "@.is_prefix_of(r->Err_0@),
{
    proof {
        reveal_strlit("theme is nested too deeply");
        reveal_strlit("theme has a color that cannot be computed");
        reveal_strlit("failed to parse theme: ");
        reveal_strlit("failed to convert theme: ");
        assert("theme is nested too deeply"@[6] == 'i');
        assert("theme has a color that cannot be computed"@[6] == 'h');
        assert("failed to parse theme: "@[10] == 'p');
        assert("failed to convert theme: "@[10] == 'c');
    }
    if !shallow(text) {
        let message: String = "theme is nested too deeply".to_owned();
        assert(message@[0] == 't');
        return Err(message);
    }
    match parse_scheme(text) {
        Ok(scheme) => {
            if !is_convertible(&scheme) {
                let message: String = "theme has a color that cannot be computed".to_owned();
                assert(message@[0] == 't');
                assert(message@[6] == 'h');
                return Err(message);
            }
            match convert_scheme(scheme) {
                Ok(theme) => Ok(theme),
                Err(error) => {
                    let mut message: String = "failed to convert theme: ".to_owned();
                    message.append(error.as_str());
                    assert(message@[0] == 'f');
                    assert(message@[10] == 'c');
                    Err(message)
                },
            }
        },
        Err(error) => {
            let mut message: String = "failed to parse theme: ".to_owned();
            message.append(error.as_str());
            assert(message@[0] == 'f');
            Err(message)
        },
    }
}

impl AppState {
    /// The state for some syntaxes, a theme and the limits in the settings.
    pub fn new(syntax_set: Syntaxes, theme: Theme, config: &Config) -> (r: AppState)
        ensures
            r.syntax_set == syntax_set,
            r.theme == theme,
            r.syntax_index_by_token@ == syntax_index(crate::syntax::syntax_names(syntax_set@)),
            r.classifier_max_bytes == config.classifier_max_bytes,
            r.highlight_max_bytes == config.highlight_max_bytes,
            r.render_cache_max_entry_bytes == config.render_cache_max_entry_bytes,
            crate::config::value_of(r.base_url) == crate::config::value_of(config.base_url),
    {
        let syntax_index_by_token: StringHashMap<usize> = build_syntax_index_map(syntax_set.inner());
        let base_url: Option<String> = match &config.base_url {
            Some(base) => Some(base.clone()),
            None => None,
        };
        AppState {
            syntax_set,
            syntax_index_by_token,
            theme,
            classifier_max_bytes: config.classifier_max_bytes,
            highlight_max_bytes: config.highlight_max_bytes,
            render_cache_max_entry_bytes: config.render_cache_max_entry_bytes,
            base_url,
        }
    }

    /// The syntax that a file extension or language name selects.
    pub open spec fn syntax_for(self, extension: Option<Seq<char>>) -> Option<usize> {
        selected_syntax(
            self.syntax_index_by_token@,
            crate::syntax::syntax_names(self.syntax_set@).len(),
            extension,
        )
    }

    /// The syntax that content of `size` bytes is rendered in: none for content that is too large
    /// to highlight.
    pub open spec fn syntax_to_render(self, extension: Option<Seq<char>>, size: nat) -> Option<
        usize,
    > {
        if size > self.highlight_max_bytes {
            None
        } else {
            self.syntax_for(extension)
        }
    }
}

/// Looks up the syntax for a file extension or language name.
pub fn resolve_syntax(state: &AppState, extension: Option<&str>) -> (r: Option<usize>)
    ensures
        r == state.syntax_for(text_of(extension)),
        r matches Some(index) ==> index < crate::syntax::syntax_names(state.syntax_set@).len(),
{
    match extension {
        None => None,
        Some(e) => match normalized_token(e) {
            None => None,
            Some(token) => match state.syntax_index_by_token.get(token.as_str()) {
                None => None,
                Some(index) => if *index < count_syntaxes(state.syntax_set.inner()) {
                    Some(*index)
                } else {
                    None
                },
            },
        },
    }
}

/// Looks up the syntax in which content is rendered.
pub fn syntax_for_rendering(state: &AppState, extension: Option<&str>, content: &str) -> (r: Option<
    usize,
>)
    ensures
        r == state.syntax_to_render(text_of(extension), crate::lines::size(content@)),
        r matches Some(index) ==> index < crate::syntax::syntax_names(state.syntax_set@).len(),
{
    if content.as_bytes().len() > state.highlight_max_bytes {
        return None;
    }
    resolve_syntax(state, extension)
}

/// Whether a syntax has a token as its name or as one of its file extensions, in any case.
pub open spec fn has_token(names: crate::syntax::SyntaxNames, token: Seq<char>) -> bool {
    crate::text::lowered(names.name) == token || exists|e: int|
        0 <= e < names.file_extensions.len() && crate::text::lowered(
            #[trigger] names.file_extensions[e],
        ) == token
}

proof fn lemma_with_extensions_is(
    map: Map<Seq<char>, usize>,
    extensions: Seq<Seq<char>>,
    index: usize,
    t: Seq<char>,
)
    ensures
        ({
            let all = with_extensions(map, extensions, index);
            if exists|e: int|
                0 <= e < extensions.len() && crate::text::lowered(#[trigger] extensions[e]) == t {
                all.contains_key(t) && all[t] == index
            } else {
                all.contains_key(t) == map.contains_key(t) && (map.contains_key(t) ==> all[t]
                    == map[t])
            }
        }),
    decreases extensions.len(),
{
    if extensions.len() > 0 {
        let head = extensions.drop_last();
        lemma_with_extensions_is(map, head, index, t);
        if exists|e: int|
            0 <= e < extensions.len() && crate::text::lowered(#[trigger] extensions[e]) == t {
            let e = choose|e: int|
                0 <= e < extensions.len() && crate::text::lowered(#[trigger] extensions[e]) == t;
            if e < head.len() {
                assert(head[e] == extensions[e]);
            }
        } else {
            assert(crate::text::lowered(extensions[extensions.len() - 1]) != t);
            assert forall|e: int| 0 <= e < head.len() implies crate::text::lowered(
                #[trigger] head[e],
            ) != t by {
                assert(head[e] == extensions[e]);
            }
        }
    }
}

/// A token leads to a syntax that has it as its name or as a file extension, and of several to the
/// last; one that no syntax has leads nowhere.
pub proof fn law_tokens_lead_to_the_last_syntax(
    names: Seq<crate::syntax::SyntaxNames>,
    token: Seq<char>,
)
    requires
        names.len() <= usize::MAX,
    ensures
        syntax_index(names).contains_key(token) <==> exists|k: int|
            0 <= k < names.len() && has_token(#[trigger] names[k], token),
        syntax_index(names).contains_key(token) ==> {
            let k = syntax_index(names)[token] as int;
            &&& 0 <= k < names.len()
            &&& has_token(names[k], token)
            &&& forall|j: int| k < j < names.len() ==> !has_token(#[trigger] names[j], token)
        },
    decreases names.len(),
{
    if names.len() > 0 {
        let rest = names.drop_last();
        law_tokens_lead_to_the_last_syntax(rest, token);
        let index = (names.len() - 1) as usize;
        let last = names.last();
        let named = syntax_index(rest).insert(crate::text::lowered(last.name), index);
        lemma_with_extensions_is(named, last.file_extensions, index, token);
        let all = syntax_index(names);
        assert(all == with_extensions(named, last.file_extensions, index));
        assert(names[names.len() - 1] == last);
        if has_token(last, token) {
            assert(all.contains_key(token) && all[token] == index);
        } else {
            assert forall|k: int| 0 <= k < rest.len() implies #[trigger] names[k] == rest[k] by {}
            assert(all.contains_key(token) == syntax_index(rest).contains_key(token));
            if all.contains_key(token) {
                let k = syntax_index(rest)[token] as int;
                assert(all[token] == k);
                assert(has_token(rest[k], token));
                assert(names[k] == rest[k]);
                assert forall|j: int| k < j < names.len() implies !has_token(
                    #[trigger] names[j],
                    token,
                ) by {
                    if j < rest.len() {
                        assert(rest[j] == names[j]);
                    }
                }
            } else {
                assert forall|k: int| 0 <= k < names.len() implies !has_token(
                    #[trigger] names[k],
                    token,
                ) by {
                    if k < rest.len() {
                        assert(rest[k] == names[k]);
                    }
                }
            }
        }
        if exists|k: int| 0 <= k < names.len() && has_token(#[trigger] names[k], token) {
            let k = choose|k: int| 0 <= k < names.len() && has_token(#[trigger] names[k], token);
            if k < rest.len() {
                assert(rest[k] == names[k]);
            }
        }
    }
}

/// White space around a token, dots before it and its case do not matter.
pub proof fn law_tokens_are_normalized(
    a: Seq<char>,
    dots: Seq<char>,
    t: Seq<char>,
    b: Seq<char>,
)
    requires
        forall|i: int| 0 <= i < a.len() ==> crate::chars::is_white(#[trigger] a[i]),
        forall|i: int| 0 <= i < b.len() ==> crate::chars::is_white(#[trigger] b[i]),
        forall|i: int| 0 <= i < dots.len() ==> #[trigger] dots[i] == '.',
        t.len() > 0,
        t[0] != '.',
        !crate::chars::is_white(t[0]),
        !crate::chars::is_white(t.last()),
    ensures
        normal_token(a + dots + t + b) == Some(crate::text::lowered(t)),
        normal_token(a + dots + b) is None,
{
    let inside = dots + t;
    assert(inside.last() == t.last());
    assert(inside[0] == '.' || inside[0] == t[0]);
    crate::text::law_white_space_is_trimmed(a, inside, b);
    assert(a + dots + t + b =~= a + inside + b);
    let n = dots.len() as int;
    let class = crate::chars::Class::IsNot('.');
    assert forall|i: int| 0 <= i < n implies !class.has_char(#[trigger] inside[i]) by {
        assert(inside[i] == dots[i]);
    }
    assert(inside[n] == t[0]);
    crate::text::lemma_first_pos_is(inside, class, n);
    assert(inside.skip(n) =~= t);
    if dots.len() > 0 {
        assert(dots[0] == '.');
        assert(dots[dots.len() - 1] == '.');
    }
    crate::text::law_white_space_is_trimmed(a, dots, b);
    crate::text::lemma_first_pos_is(dots, class, n);
    assert(dots.skip(n).len() == 0);
}

/// Content that is too large is rendered without a syntax, other content in the syntax that its
/// extension selects; without an extension there is none.
pub proof fn law_large_content_has_no_syntax(
    state: AppState,
    extension: Option<Seq<char>>,
    size: nat,
)
    ensures
        size > state.highlight_max_bytes ==> state.syntax_to_render(extension, size) is None,
        size <= state.highlight_max_bytes ==> state.syntax_to_render(extension, size)
            == state.syntax_for(extension),
        state.syntax_to_render(None, size) is None,
{
}

/// An extension selects the last syntax that has it as its name or as a file extension, in any
/// case and with white space around it and dots before it.
pub proof fn law_extensions_select_syntaxes(state: AppState, token: Seq<char>, extension: Seq<char>)
    requires
        state.syntax_index_by_token@ == syntax_index(
            crate::syntax::syntax_names(state.syntax_set@),
        ),
        crate::syntax::syntax_names(state.syntax_set@).len() <= usize::MAX,
        normal_token(extension) == Some(token),
    ensures
        ({
            let names = crate::syntax::syntax_names(state.syntax_set@);
            match state.syntax_for(Some(extension)) {
                Some(k) => k < names.len() && has_token(names[k as int], token) && forall|j: int|
                    k < j < names.len() ==> !has_token(#[trigger] names[j], token),
                None => forall|j: int|
                    0 <= j < names.len() ==> !has_token(#[trigger] names[j], token),
            }
        }),
{
    law_tokens_lead_to_the_last_syntax(crate::syntax::syntax_names(state.syntax_set@), token);
}

} // verus!
