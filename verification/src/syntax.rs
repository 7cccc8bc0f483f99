//! Syntax highlighting: the syntaxes that are loaded and the lines that they colour.

use syntect::dumps::from_uncompressed_data;
use syntect::easy::HighlightLines;
use syntect::highlighting::{Style, Theme};
use syntect::html::{append_highlighted_html_for_styled_line, IncludeBackground};
use syntect::parsing::SyntaxSet;
use vstd::prelude::*;

verus! {

/// The loaded syntax definitions (`syntect::parsing::SyntaxSet`).
#[verifier::external_type_specification]
#[verifier::external_body]
pub struct ExSyntaxSet(SyntaxSet);

/// A colour theme (`syntect::highlighting::Theme`).
#[verifier::external_type_specification]
#[verifier::external_body]
pub struct ExTheme(Theme);

/// How one region of a line looks (`syntect::highlighting::Style`).
#[verifier::external_type_specification]
#[verifier::external_body]
pub struct ExStyle(Style);

/// A highlighter in the middle of a text (`syntect::easy::HighlightLines`).
#[verifier::external_type_specification]
#[verifier::external_body]
pub struct ExHighlightLines<'a>(HighlightLines<'a>);

/// The names by which one syntax can be asked for.
pub struct SyntaxInfo {
    pub name: String,
    pub file_extensions: Vec<String>,
}

/// The characters of a [`SyntaxInfo`].
pub struct SyntaxNames {
    pub name: Seq<char>,
    pub file_extensions: Seq<Seq<char>>,
}

impl View for SyntaxInfo {
    type V = SyntaxNames;

    open spec fn view(&self) -> SyntaxNames {
        SyntaxNames {
            name: self.name@,
            file_extensions: self.file_extensions@.map_values(|e: String| e@),
        }
    }
}

/// The syntaxes of a set, in order.
pub uninterp spec fn syntax_names(set: SyntaxSet) -> Seq<SyntaxNames>;

/// Lists the syntaxes of a set (`SyntaxSet::syntaxes`).
///
/// The list holds, in the order of the set, the name and the file extensions of every syntax.
#[verifier::external_body]
pub(crate) fn list_syntaxes(set: &SyntaxSet) -> (r: Vec<SyntaxInfo>)
    ensures
        r@.map_values(|s: SyntaxInfo| s@) == syntax_names(*set),
{
    set.syntaxes().iter().map(|s| SyntaxInfo { name: s.name.clone(), file_extensions: s.file_extensions.clone() }).collect()
}

/// One coloured region of a line.
pub struct Region {
    pub style: Style,
    pub r: u8,
    pub g: u8,
    pub b: u8,
    pub text: String,
}

/// What a [`Region`] shows.
pub struct RegionView {
    pub style: Style,
    pub r: u8,
    pub g: u8,
    pub b: u8,
    pub text: Seq<char>,
}

impl View for Region {
    type V = RegionView;

    open spec fn view(&self) -> RegionView {
        RegionView { style: self.style, r: self.r, g: self.g, b: self.b, text: self.text@ }
    }
}

/// What some regions show.
pub open spec fn region_views(v: Seq<Region>) -> Seq<RegionView> {
    v.map_values(|x: Region| x@)
}

/// Counts the syntaxes of a set (`SyntaxSet::syntaxes`).
#[verifier::external_body]
pub(crate) fn count_syntaxes(set: &SyntaxSet) -> (r: usize)
    ensures
        r == syntax_names(*set).len(),
{
    set.syntaxes().len()
}

/// The longest line, in bytes, that is highlighted.
pub const HIGHLIGHT_MAX_LINE_BYTES: usize = 262144;

/// Whether a line is highlighted.
pub open spec fn is_short(line: Seq<char>) -> bool {
    crate::lines::size(line) <= HIGHLIGHT_MAX_LINE_BYTES
}

/// Whether, for the whole run of the program, text can be highlighted with every syntax of a set:
/// its contexts can be read, with room for their scope names in the one table that syntect keeps,
/// there is one to start with, each of them leads only to others of the set, and all patterns
/// compile, also with each reference in them replaced by any text of up to
/// [`HIGHLIGHT_MAX_LINE_BYTES`] bytes.
pub uninterp spec fn is_usable(set: SyntaxSet) -> bool;

/// Whether a dump is what syntect writes of a set (`syntect::dumps::dump_to_uncompressed_file`).
pub uninterp spec fn is_dump_of(dump: Seq<u8>, set: SyntaxSet) -> bool;

/// The syntaxes in a binary dump.
pub uninterp spec fn dumped_syntaxes(dump: Seq<u8>) -> SyntaxSet;

/// Whether a dump is what syntect writes of a set that can be used.
pub open spec fn is_intact(dump: Seq<u8>) -> bool {
    exists|set: SyntaxSet| is_usable(set) && #[trigger] is_dump_of(dump, set)
}

/// Reads a binary dump of syntax definitions (`syntect::dumps::from_uncompressed_data`), or says
/// why it cannot be read.
///
/// The dump must be one that syntect wrote: the lengths in it are taken at their word, and one
/// that no memory can hold stops the program. What is read is then fixed by the bytes, and can be
/// used as the set that was written could. Whether they can be read is not fixed: syntect keeps
/// one table of scope names for the whole program, and a full table refuses a dump that an empty
/// one takes.
#[verifier::external_body]
pub(crate) fn read_dump(dump: &[u8]) -> (r: Result<SyntaxSet, String>)
    requires
        is_intact(dump@),
    ensures
        r matches Ok(set) ==> set == dumped_syntaxes(dump@),
        r matches Ok(set) ==> is_dump_of(dump@, set) && is_usable(set),
{
    from_uncompressed_data(dump).map_err(|error| error.to_string())
}

/// Syntax definitions that text can be highlighted with.
pub struct Syntaxes {
    set: SyntaxSet,
}

impl View for Syntaxes {
    type V = SyntaxSet;

    closed spec fn view(&self) -> SyntaxSet {
        self.set
    }
}

impl Syntaxes {
    #[verifier::type_invariant]
    spec fn wf(self) -> bool {
        is_usable(self.set)
    }

    /// The syntax definitions in a set that can be used.
    pub fn new(set: SyntaxSet) -> (r: Syntaxes)
        requires
            is_usable(set),
        ensures
            r@ == set,
    {
        Syntaxes { set }
    }

    /// The set of syntax definitions.
    pub fn inner(&self) -> (r: &SyntaxSet)
        ensures
            *r == self@,
            is_usable(self@),
    {
        proof {
            use_type_invariant(self);
        }
        &self.set
    }
}

/// A highlighter at the start of a text in the syntax at `index` of a set.
pub uninterp spec fn fresh_highlighter(
    set: SyntaxSet,
    index: int,
    theme: Theme,
) -> HighlightLines<'static>;

/// What highlighting one line gives: the highlighter afterwards, and the regions, unless the line
/// could not be highlighted.
pub uninterp spec fn highlighted(h: HighlightLines<'_>, line: Seq<char>, set: SyntaxSet) -> (
    HighlightLines<'static>,
    Option<Seq<RegionView>>,
);

/// The highlighter after some lines; it does not read those that are too long.
pub open spec fn highlighter_after(
    set: SyntaxSet,
    index: int,
    theme: Theme,
    done: Seq<Seq<char>>,
) -> HighlightLines<'static>
    decreases done.len(),
{
    if done.len() == 0 {
        fresh_highlighter(set, index, theme)
    } else if !is_short(done.last()) {
        highlighter_after(set, index, theme, done.drop_last())
    } else {
        highlighted(highlighter_after(set, index, theme, done.drop_last()), done.last(), set).0
    }
}

/// Whether a highlighter was made for a syntax of `set` and has read only lines with that set that
/// are not too long.
pub open spec fn made_for(h: HighlightLines<'_>, set: SyntaxSet) -> bool {
    exists|index: int, theme: Theme, done: Seq<Seq<char>>|
        0 <= index < syntax_names(set).len() && h == #[trigger] highlighter_after(
            set,
            index,
            theme,
            done,
        )
}

/// The regions of line `n` of some lines that are highlighted one after the other; a line that is
/// too long has none.
pub open spec fn line_regions(
    set: SyntaxSet,
    index: int,
    theme: Theme,
    all: Seq<Seq<char>>,
    n: int,
) -> Option<Seq<RegionView>> {
    if is_short(all[n]) {
        highlighted(highlighter_after(set, index, theme, all.take(n)), all[n], set).1
    } else {
        None
    }
}

/// Starts highlighting a text in the syntax at `index` (`HighlightLines::new`).
///
/// The highlighter is fixed by the syntax and the theme. The set must be one that can be used:
/// the contexts of a syntax are read when it is first used, and stop the program where they are
/// damaged.
#[verifier::external_body]
pub(crate) fn new_highlighter<'a>(set: &SyntaxSet, index: usize, theme: &'a Theme) -> (r:
    HighlightLines<'a>)
    requires
        index < syntax_names(*set).len(),
        is_usable(*set),
    ensures
        r == fresh_highlighter(*set, index as int, *theme),
{
    HighlightLines::new(&set.syntaxes()[index], theme)
}

/// Highlights the next line of a text (`HighlightLines::highlight_line`).
///
/// The regions and the highlighter's next state are fixed by its state, the line and the set. A
/// highlighter may read lines only with the set that its syntax came from, which must be one that
/// can be used: a pattern that does not compile stops the program when it is first tried. Patterns
/// may take up text of a line, so that none of the lines may be too long.
#[verifier::external_body]
pub(crate) fn highlight_line(h: &mut HighlightLines<'_>, line: &str, set: &SyntaxSet) -> (r: Option<
    Vec<Region>,
>)
    requires
        made_for(*old(h), *set),
        is_usable(*set),
        is_short(line@),
    ensures
        *final(h) == highlighted(*old(h), line@, *set).0,
        r matches Some(v) ==> highlighted(*old(h), line@, *set).1 == Some(region_views(v@)),
        r is None ==> highlighted(*old(h), line@, *set).1 is None,
{
    let regions = h.highlight_line(line, set).ok()?;
    Some(regions.into_iter().map(|(style, text)| Region {
        style, r: style.foreground.r, g: style.foreground.g, b: style.foreground.b, text: text.to_string() }).collect())
}

/// The HTML of some regions.
pub uninterp spec fn regions_html(regions: Seq<RegionView>) -> Option<Seq<char>>;

/// Renders regions to HTML (`syntect::html::append_highlighted_html_for_styled_line`), each with
/// its colours but without a background, or fails.
#[verifier::external_body]
pub(crate) fn render_regions(regions: &Vec<Region>) -> (r: Option<String>)
    ensures
        r matches Some(html) ==> regions_html(region_views(regions@)) == Some(html@),
        r is None ==> regions_html(region_views(regions@)) is None,
{
    let styled: Vec<(Style, &str)> = regions.iter().map(|x| (x.style, x.text.as_str())).collect();
    let mut html = String::new();
    append_highlighted_html_for_styled_line(&styled, IncludeBackground::No, &mut html).ok()?;
    Some(html)
}

/// Highlights all lines of a text, in order, in the syntax at `index`; lines that are too long are
/// passed over.
pub fn highlight_lines(set: &Syntaxes, index: usize, theme: &Theme, all: &Vec<&str>) -> (r: Vec<
    Option<Vec<Region>>,
>)
    requires
        index < syntax_names(set@).len(),
    ensures
        r@.len() == all@.len(),
        forall|k: int|
            0 <= k < all@.len() ==> regions_are(
                #[trigger] r@[k],
                line_regions(set@, index as int, *theme, crate::text::texts(all@), k),
            ),
{
    let ghost v = crate::text::texts(all@);
    let inner: &SyntaxSet = set.inner();
    let mut h = new_highlighter(inner, index, theme);
    let mut out: Vec<Option<Vec<Region>>> = Vec::new();
    let mut i: usize = 0;
    assert(v.take(0) =~= seq![]);
    while i < all.len()
        invariant
            *inner == set@,
            is_usable(set@),
            index < syntax_names(set@).len(),
            v == crate::text::texts(all@),
            v.len() == all@.len(),
            i <= all@.len(),
            out@.len() == i,
            h == highlighter_after(set@, index as int, *theme, v.take(i as int)),
            forall|k: int|
                0 <= k < i ==> regions_are(
                    #[trigger] out@[k],
                    line_regions(set@, index as int, *theme, v, k),
                ),
        decreases all@.len() - i,
    {
        proof {
            assert(v[i as int] == all@[i as int]@);
            assert(v.take(i + 1).drop_last() =~= v.take(i as int));
        }
        let line: &str = all[i];
        if line.as_bytes().len() > HIGHLIGHT_MAX_LINE_BYTES {
            out.push(None);
        } else {
            let regions = highlight_line(&mut h, line, inner);
            out.push(regions);
        }
        i = i + 1;
    }
    out
}

/// Whether some regions are the expected ones.
pub open spec fn regions_are(r: Option<Vec<Region>>, expected: Option<Seq<RegionView>>) -> bool {
    match r {
        Some(v) => expected == Some(region_views(v@)),
        None => expected is None,
    }
}

/// Highlighting goes on from line to line: the highlighter starts afresh, each line is highlighted
/// by what it has become after the lines before, and a line that is too long leaves it as it is.
pub proof fn law_highlighting_goes_on(
    set: SyntaxSet,
    index: int,
    theme: Theme,
    all: Seq<Seq<char>>,
    states: Seq<HighlightLines<'static>>,
    k: int,
)
    requires
        states.len() == all.len() + 1,
        states[0] == fresh_highlighter(set, index, theme),
        forall|i: int|
            0 <= i < all.len() ==> #[trigger] states[i + 1] == (if crate::lines::size(all[i])
                <= HIGHLIGHT_MAX_LINE_BYTES {
                highlighted(states[i], all[i], set).0
            } else {
                states[i]
            }),
        0 <= k < all.len(),
    ensures
        line_regions(set, index, theme, all, k) == (if crate::lines::size(all[k])
            <= HIGHLIGHT_MAX_LINE_BYTES {
            highlighted(states[k], all[k], set).1
        } else {
            None
        }),
{
    lemma_states(set, index, theme, all, states, k);
}

proof fn lemma_states(
    set: SyntaxSet,
    index: int,
    theme: Theme,
    all: Seq<Seq<char>>,
    states: Seq<HighlightLines<'static>>,
    k: int,
)
    requires
        states.len() == all.len() + 1,
        states[0] == fresh_highlighter(set, index, theme),
        forall|i: int|
            0 <= i < all.len() ==> #[trigger] states[i + 1] == (if crate::lines::size(all[i])
                <= HIGHLIGHT_MAX_LINE_BYTES {
                highlighted(states[i], all[i], set).0
            } else {
                states[i]
            }),
        0 <= k <= all.len(),
    ensures
        highlighter_after(set, index, theme, all.take(k)) == states[k],
    decreases k,
{
    if k > 0 {
        lemma_states(set, index, theme, all, states, k - 1);
        assert(all.take(k).drop_last() =~= all.take(k - 1));
        assert(all.take(k).last() == all[k - 1]);
        assert(states[(k - 1) + 1] == states[k]);
    }
}

} // verus!
