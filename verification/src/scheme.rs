//! Colour schemes: the colours that they hold, and the themes that are made of them.

use sublime_color_scheme::parser::{parse_color, Adjuster, Color};
use sublime_color_scheme::{parse_color_scheme, ColorScheme};
use syntect::highlighting::Theme;
use vstd::prelude::*;
use vstd::std_specs::iter::*;
use vstd::string::*;
use vstd::utf8::*;
use crate::chars::utf8_width;
use crate::text::same;

verus! {

// The text of a scheme.

/// The deepest nesting of brackets in the text of a colour scheme.
pub const MAX_NESTING: usize = 128;

/// Where in the text of a colour scheme a character stands.
#[derive(Clone, Copy, PartialEq, Eq, Structural)]
pub enum Place {
    /// Among the values.
    Code,
    /// Behind a slash that may start a comment.
    Slash,
    /// In a comment that ends with the line.
    Line,
    /// In a comment that ends with a star and a slash.
    Block,
    /// Behind a star in such a comment.
    Star,
    /// In a string between two of these quotes.
    Quoted(char),
    /// Behind a backslash in such a string.
    Escaped(char),
}

/// Where the character behind `c` stands.
pub open spec fn place_after(place: Place, c: char) -> Place {
    match place {
        Place::Code => if c == '"' || c == '\'' {
            Place::Quoted(c)
        } else if c == '/' {
            Place::Slash
        } else {
            Place::Code
        },
        Place::Slash => if c == '/' {
            Place::Line
        } else if c == '*' {
            Place::Block
        } else {
            Place::Code
        },
        Place::Line => if c == '\n' {
            Place::Code
        } else {
            Place::Line
        },
        Place::Block => if c == '*' {
            Place::Star
        } else {
            Place::Block
        },
        Place::Star => if c == '/' {
            Place::Code
        } else if c == '*' {
            Place::Star
        } else {
            Place::Block
        },
        Place::Quoted(q) => if c == '\\' {
            Place::Escaped(q)
        } else if c == q {
            Place::Code
        } else {
            Place::Quoted(q)
        },
        Place::Escaped(q) => Place::Quoted(q),
    }
}

/// Finds out where the character behind `c` stands.
fn next_place(place: Place, c: char) -> (r: Place)
    ensures
        r == place_after(place, c),
{
    match place {
        Place::Code => if c == '"' || c == '\'' {
            Place::Quoted(c)
        } else if c == '/' {
            Place::Slash
        } else {
            Place::Code
        },
        Place::Slash => if c == '/' {
            Place::Line
        } else if c == '*' {
            Place::Block
        } else {
            Place::Code
        },
        Place::Line => if c == '\n' {
            Place::Code
        } else {
            Place::Line
        },
        Place::Block => if c == '*' {
            Place::Star
        } else {
            Place::Block
        },
        Place::Star => if c == '/' {
            Place::Code
        } else if c == '*' {
            Place::Star
        } else {
            Place::Block
        },
        Place::Quoted(q) => if c == '\\' {
            Place::Escaped(q)
        } else if c == q {
            Place::Code
        } else {
            Place::Quoted(q)
        },
        Place::Escaped(q) => Place::Quoted(q),
    }
}

/// Where the character behind a text stands.
pub open spec fn place_behind(s: Seq<char>) -> Place
    decreases s.len(),
{
    if s.len() == 0 {
        Place::Code
    } else {
        place_after(place_behind(s.drop_last()), s.last())
    }
}

/// How many brackets are open behind a text; those in strings and comments do not count.
pub open spec fn open_behind(s: Seq<char>) -> nat
    decreases s.len(),
{
    if s.len() == 0 {
        0
    } else {
        let before = open_behind(s.drop_last());
        let c = s.last();
        if place_behind(s.drop_last()) != Place::Code {
            before
        } else if c == '[' || c == '{' {
            before + 1
        } else if (c == ']' || c == '}') && before > 0 {
            (before - 1) as nat
        } else {
            before
        }
    }
}

/// Whether never more than [`MAX_NESTING`] brackets are open in the text of a colour scheme.
pub open spec fn is_shallow(s: Seq<char>) -> bool {
    forall|n: int| 0 <= n <= s.len() ==> open_behind(#[trigger] s.take(n)) <= MAX_NESTING
}

/// Measures how deeply the brackets in the text of a colour scheme nest.
pub fn shallow(s: &str) -> (r: bool)
    ensures
        r == is_shallow(s@),
{
    let mut place: Place = Place::Code;
    let mut open: usize = 0;
    let mut it = s.chars();
    let ghost mut n: int = 0;
    assert(s@.skip(0) =~= s@);
    loop
        invariant
            0 <= n <= s@.len(),
            IteratorSpec::remaining(&it) == s@.skip(n),
            place == place_behind(s@.take(n)),
            open == open_behind(s@.take(n)),
            open <= MAX_NESTING,
            forall|k: int| 0 <= k <= n ==> open_behind(#[trigger] s@.take(k)) <= MAX_NESTING,
        decreases s@.len() - n,
    {
        match it.next() {
            None => {
                return true;
            },
            Some(c) => {
                proof {
                    assert(c == s@.skip(n)[0]);
                    assert(s@.take(n + 1).drop_last() =~= s@.take(n));
                    assert(s@.take(n + 1).last() == c);
                    assert(s@.skip(n).drop_first() =~= s@.skip(n + 1));
                }
                if place == Place::Code {
                    if c == '[' || c == '{' {
                        open = open + 1;
                    } else if (c == ']' || c == '}') && open > 0 {
                        open = open - 1;
                    }
                }
                place = next_place(place, c);
                proof {
                    n = n + 1;
                }
                if open > MAX_NESTING {
                    assert(open_behind(s@.take(n)) > MAX_NESTING);
                    return false;
                }
            },
        }
    }
}

/// A colour scheme as its file has it (`sublime_color_scheme::ColorScheme`).
#[verifier::external_type_specification]
#[verifier::external_body]
pub struct ExColorScheme(ColorScheme);

/// The colour scheme in a text.
pub uninterp spec fn scheme_in(text: Seq<char>) -> Result<ColorScheme, Seq<char>>;

/// Parses a colour scheme (`sublime_color_scheme::parse_color_scheme`), or says why it is none.
///
/// The brackets in it must not nest too deeply: the parser goes down one call for each that is
/// open.
#[verifier::external_body]
pub(crate) fn parse_scheme(text: &str) -> (r: Result<ColorScheme, String>)
    requires
        is_shallow(text@),
    ensures
        r matches Ok(scheme) ==> scheme_in(text@) matches Ok(s) && s == scheme,
        r matches Err(error) ==> scheme_in(text@) matches Err(e) && e == error@,
{
    parse_color_scheme(text).map_err(|error| error.to_string())
}

/// The colours of a colour scheme, as they are written in it.
pub struct SchemeColours {
    /// The variables, by their names.
    pub variables: Map<Seq<char>, Seq<char>>,
    /// The settings for the whole scheme: their names and values.
    pub globals: Set<(Seq<char>, Seq<char>)>,
    /// The foreground and the background of each rule.
    pub rules: Seq<(Option<Seq<char>>, Option<Seq<char>>)>,
}

/// The colours of a colour scheme.
pub uninterp spec fn scheme_colours(scheme: ColorScheme) -> SchemeColours;

/// The characters of some names and values.
pub open spec fn pairs(v: Seq<(String, String)>) -> Seq<(Seq<char>, Seq<char>)> {
    v.map_values(|x: (String, String)| (x.0@, x.1@))
}

/// The values by their names; the last one of a name counts.
pub open spec fn by_name(v: Seq<(Seq<char>, Seq<char>)>) -> Map<Seq<char>, Seq<char>>
    decreases v.len(),
{
    if v.len() == 0 {
        Map::empty()
    } else {
        by_name(v.drop_last()).insert(v.last().0, v.last().1)
    }
}

/// The characters of the colours of some rules.
pub open spec fn rule_views(v: Seq<RuleColours>) -> Seq<(Option<Seq<char>>, Option<Seq<char>>)> {
    v.map_values(|x: RuleColours| x@)
}

/// Lists the variables of a colour scheme (the field `variables` of
/// `sublime_color_scheme::ColorScheme`), in any order and each of them once; a scheme may have
/// none.
#[verifier::external_body]
pub(crate) fn list_variables(scheme: &ColorScheme) -> (r: Vec<(String, String)>)
    ensures
        by_name(pairs(r@)) == scheme_colours(*scheme).variables,
{
    scheme.variables.iter().flatten().map(|(name, value)| (name.clone(), value.clone())).collect()
}

/// Lists the settings for a whole colour scheme (the field `globals` of
/// `sublime_color_scheme::ColorScheme`), in any order.
#[verifier::external_body]
pub(crate) fn list_globals(scheme: &ColorScheme) -> (r: Vec<(String, String)>)
    ensures
        pairs(r@).to_set() == scheme_colours(*scheme).globals,
{
    scheme.globals.iter().map(|(name, value)| (name.clone(), value.clone())).collect()
}

/// The colours that one rule sets.
pub struct RuleColours {
    pub foreground: Option<String>,
    pub background: Option<String>,
}

impl View for RuleColours {
    type V = (Option<Seq<char>>, Option<Seq<char>>);

    open spec fn view(&self) -> (Option<Seq<char>>, Option<Seq<char>>) {
        (crate::config::value_of(self.foreground), crate::config::value_of(self.background))
    }
}

/// Lists the colours of the rules of a colour scheme (the field `rules` of
/// `sublime_color_scheme::ColorScheme`), in order.
#[verifier::external_body]
pub(crate) fn list_rules(scheme: &ColorScheme) -> (r: Vec<RuleColours>)
    ensures
        rule_views(r@) == scheme_colours(*scheme).rules,
{
    scheme.rules.iter().map(|rule| RuleColours { foreground: rule.foreground.clone(), background: rule.background.clone() }).collect()
}

// Colours.

/// The most brackets that are opened in one colour.
pub const MAX_BRACKETS: usize = 64;

/// The deepest that variables and colours in colours are followed.
pub const MAX_DEPTH: usize = 64;

/// The most colours that are computed for one.
pub const MAX_COMPUTED: usize = 1000;

/// A colour that was parsed (`sublime_color_scheme::parser::Color`).
#[verifier::external_type_specification]
#[verifier::external_body]
pub struct ExColor(Color);

/// How a colour is written.
#[derive(Clone, Copy, PartialEq, Eq, Structural)]
pub enum ColourKind {
    Hex,
    HexAlpha,
    Rgb,
    Rgba,
    Hsl,
    Hsla,
    Hwb,
    Named,
    Variable,
    Expression,
}

/// A colour that another one is computed from, and whether that one is to have a contrast to it.
pub struct Part<'a> {
    pub colour: &'a Color,
    pub contrast: bool,
}

/// What a [`Part`] holds.
pub struct PartView {
    pub colour: Color,
    pub contrast: bool,
}

impl<'a> View for Part<'a> {
    type V = PartView;

    open spec fn view(&self) -> PartView {
        PartView { colour: *self.colour, contrast: self.contrast }
    }
}

/// What an optional part holds.
pub open spec fn part_view(part: Option<Part<'_>>) -> Option<PartView> {
    match part {
        Some(p) => Some(p@),
        None => None,
    }
}

/// What some optional parts hold.
pub open spec fn part_views(v: Seq<Option<Part<'_>>>) -> Seq<Option<PartView>> {
    v.map_values(|x: Option<Part<'_>>| part_view(x))
}

/// What a colour holds: the digits of a hexadecimal one, the name of a variable, and what an
/// expression is computed from, in the order in which that is done: its first colour, and for each
/// adjuster the colour that it names, if it names one.
pub struct ColourView {
    pub kind: ColourKind,
    pub text: Seq<char>,
    pub parts: Seq<Option<PartView>>,
}

/// What a colour holds.
pub uninterp spec fn colour_view(colour: Color) -> ColourView;

/// The colour in a text.
pub uninterp spec fn colour_in(text: Seq<char>) -> Option<Color>;

/// How many brackets are opened in a text.
pub open spec fn brackets(s: Seq<char>) -> nat
    decreases s.len(),
{
    if s.len() == 0 {
        0
    } else if s.last() == '(' {
        brackets(s.drop_last()) + 1
    } else {
        brackets(s.drop_last())
    }
}

/// Parses a colour (`sublime_color_scheme::parser::parse_color`), or fails.
///
/// Not too many brackets may be opened in it: the parser goes down one call for each.
#[verifier::external_body]
fn parse_colour(text: &str) -> (r: Option<Color>)
    requires
        brackets(text@) <= MAX_BRACKETS,
    ensures
        r == colour_in(text@),
{
    parse_color(text).ok()
}

/// Reads which variant a colour is (`sublime_color_scheme::parser::Color`).
#[verifier::external_body]
fn colour_kind(colour: &Color) -> (r: ColourKind)
    ensures
        r == colour_view(*colour).kind,
{
    match colour {
        Color::Hex(_) => ColourKind::Hex,
        Color::HexAlpha(_) => ColourKind::HexAlpha,
        Color::RGB(..) => ColourKind::Rgb,
        Color::RGBA(..) => ColourKind::Rgba,
        Color::HSL(..) => ColourKind::Hsl,
        Color::HSLA(..) => ColourKind::Hsla,
        Color::HWB(..) => ColourKind::Hwb,
        Color::Named(_) => ColourKind::Named,
        Color::Variable(_) => ColourKind::Variable,
        Color::Expression(..) => ColourKind::Expression,
    }
}

/// Reads the digits of a hexadecimal colour or the name of a variable
/// (`sublime_color_scheme::parser::Color`); other colours have no text.
#[verifier::external_body]
fn colour_text(colour: &Color) -> (r: String)
    ensures
        r@ == colour_view(*colour).text,
{
    match colour {
        Color::Hex(text) => text.clone(),
        Color::HexAlpha(text) => text.clone(),
        Color::Variable(text) => text.clone(),
        _ => String::new(),
    }
}

/// Lists what an expression is computed from: its first colour, and for each adjuster the colour
/// that it names, if it names one (`sublime_color_scheme::parser::Adjuster`); other colours have
/// no parts.
#[verifier::external_body]
fn colour_parts(colour: &Color) -> (r: Vec<Option<Part<'_>>>)
    ensures
        part_views(r@) == colour_view(*colour).parts,
{
    match colour {
        Color::Expression(first, adjusters) => std::iter::once(Some(Part { colour: first.as_ref(), contrast: false })).chain(adjusters.iter().map(|a| match a {
            Adjuster::Blend(c, ..) => Some(Part { colour: c, contrast: false }),
            Adjuster::BlendAlpha(c, ..) => Some(Part { colour: c, contrast: false }),
            Adjuster::MinContrast(c, ..) => Some(Part { colour: c, contrast: true }),
            Adjuster::Alpha(..) => None,
            Adjuster::Saturation(..) => None,
            Adjuster::Lightness(..) => None,
        })).collect(),
        _ => Vec::new(),
    }
}

/// What comes of computing a colour.
#[derive(Clone, Copy, PartialEq, Eq, Structural)]
pub enum Outcome {
    /// It cannot be computed.
    Stuck,
    /// It is not a colour.
    Fails,
    /// It is computed, and this many more may be.
    Done(usize),
}

/// Whether a character is a hexadecimal digit.
pub open spec fn is_hex_digit(c: char) -> bool {
    '0' <= c <= '9' || 'a' <= c <= 'f' || 'A' <= c <= 'F'
}

/// How many bytes a character takes.
pub open spec fn width(c: char) -> int {
    encode_scalar(c as u32).len() as int
}

/// What comes of reading numbers of one byte each from a text, where `left` more may be computed:
/// nothing where a character would be cut in two, and the first one that is no digit ends it.
pub open spec fn single_digits(s: Seq<char>, left: usize) -> Outcome
    decreases s.len(),
{
    if s.len() == 0 {
        Outcome::Done(left)
    } else if width(s[0]) > 1 {
        Outcome::Stuck
    } else if !is_hex_digit(s[0]) {
        Outcome::Fails
    } else {
        single_digits(s.drop_first(), left)
    }
}

/// What comes of reading numbers of two bytes each from a text, where `left` more may be computed.
pub open spec fn double_digits(s: Seq<char>, left: usize) -> Outcome
    decreases s.len(),
{
    if s.len() == 0 {
        Outcome::Done(left)
    } else if width(s[0]) > 2 {
        Outcome::Stuck
    } else if width(s[0]) == 2 || s.len() == 1 {
        Outcome::Fails
    } else if width(s[1]) > 1 {
        Outcome::Stuck
    } else if !is_hex_digit(s[0]) || !is_hex_digit(s[1]) {
        Outcome::Fails
    } else {
        double_digits(s.skip(2), left)
    }
}

/// What comes of computing a hexadecimal colour of three numbers, or of four with its opacity.
pub open spec fn hexadecimal(s: Seq<char>, opacity: bool, left: usize) -> Outcome {
    let size = crate::lines::size(s);
    let numbers = if opacity {
        4nat
    } else {
        3nat
    };
    if size == numbers {
        single_digits(s, left)
    } else if size == 2 * numbers {
        double_digits(s, left)
    } else {
        Outcome::Fails
    }
}

/// What comes of computing the colour in a text, going `depth` deep and computing no more than
/// `budget` colours.
pub open spec fn computed_text(
    variables: Map<Seq<char>, Seq<char>>,
    s: Seq<char>,
    depth: usize,
    budget: usize,
) -> Outcome
    decreases depth, 1nat, 0nat,
{
    if brackets(s) > MAX_BRACKETS {
        Outcome::Stuck
    } else {
        match colour_in(s) {
            None => Outcome::Fails,
            Some(colour) => computed(variables, colour, depth, budget),
        }
    }
}

/// What comes of computing a colour: a variable is followed, and an expression is computed from
/// all of its parts.
pub open spec fn computed(
    variables: Map<Seq<char>, Seq<char>>,
    colour: Color,
    depth: usize,
    budget: usize,
) -> Outcome
    decreases depth, 0nat, 0nat,
{
    if depth == 0 || budget == 0 {
        Outcome::Stuck
    } else {
        let v = colour_view(colour);
        let left = (budget - 1) as usize;
        let next = (depth - 1) as usize;
        match v.kind {
            ColourKind::Hex => hexadecimal(v.text, false, left),
            ColourKind::HexAlpha => hexadecimal(v.text, true, left),
            ColourKind::Variable => if variables.contains_key(v.text) {
                computed_text(variables, variables[v.text], next, left)
            } else {
                Outcome::Fails
            },
            ColourKind::Expression => computed_parts(variables, v.parts, next, left),
            _ => Outcome::Done(left),
        }
    }
}

/// What comes of computing some parts, one after the other. A contrast is not looked for: whether
/// there is a colour that has it, and the search for it ends, is not known.
pub open spec fn computed_parts(
    variables: Map<Seq<char>, Seq<char>>,
    parts: Seq<Option<PartView>>,
    depth: usize,
    budget: usize,
) -> Outcome
    decreases depth, 2nat, parts.len(),
{
    if parts.len() == 0 {
        Outcome::Done(budget)
    } else {
        match parts[0] {
            None => computed_parts(variables, parts.drop_first(), depth, budget),
            Some(part) => match computed(variables, part.colour, depth, budget) {
                Outcome::Done(left) => if part.contrast {
                    Outcome::Stuck
                } else {
                    computed_parts(variables, parts.drop_first(), depth, left)
                },
                other => other,
            },
        }
    }
}

/// Whether computing the colour in a text comes to an end, with a colour or without one.
pub open spec fn resolves(variables: Map<Seq<char>, Seq<char>>, s: Seq<char>) -> bool {
    computed_text(variables, s, MAX_DEPTH, MAX_COMPUTED) != Outcome::Stuck
}

/// The settings for a whole colour scheme that are colours.
pub open spec fn colour_settings() -> Seq<Seq<char>> {
    seq![
        "foreground"@,
        "background"@,
        "caret"@,
        "line_highlight"@,
        "misspelling"@,
        "minimap_border"@,
        "accent"@,
        "bracket_contents_foreground"@,
        "brackets_foreground"@,
        "brackets_background"@,
        "tags_foreground"@,
        "highlight"@,
        "find_highlight"@,
        "find_highlight_foreground"@,
        "gutter"@,
        "gutter_foreground"@,
        "selection"@,
        "selection_foreground"@,
        "selection_border"@,
        "inactive_selection"@,
        "inactive_selection_foreground"@,
        "guide"@,
        "active_guide"@,
        "stack_guide"@,
        "shadow"@,
    ]
}

/// Whether computing an optional colour comes to an end.
pub open spec fn resolves_if_any(
    variables: Map<Seq<char>, Seq<char>>,
    s: Option<Seq<char>>,
) -> bool {
    s matches Some(colour) ==> resolves(variables, colour)
}

/// Whether computing the colours of a scheme comes to an end.
pub open spec fn convertible(c: SchemeColours) -> bool {
    &&& forall|g: (Seq<char>, Seq<char>)| #[trigger]
        c.globals.contains(g) && colour_settings().contains(g.0) ==> resolves(c.variables, g.1)
    &&& forall|i: int|
        0 <= i < c.rules.len() ==> resolves_if_any(c.variables, (#[trigger] c.rules[i]).0)
            && resolves_if_any(c.variables, c.rules[i].1)
}

/// A variable that refers to itself cannot be computed, however deep it is followed and however
/// many colours may be computed.
pub proof fn law_circles_do_not_resolve(
    variables: Map<Seq<char>, Seq<char>>,
    name: Seq<char>,
    colour: Color,
    depth: usize,
    budget: usize,
)
    requires
        variables.contains_key(name),
        colour_in(variables[name]) == Some(colour),
        colour_view(colour).kind == ColourKind::Variable,
        colour_view(colour).text == name,
    ensures
        computed(variables, colour, depth, budget) == Outcome::Stuck,
    decreases depth,
{
    if depth > 0 && budget > 0 {
        law_circles_do_not_resolve(
            variables,
            name,
            colour,
            (depth - 1) as usize,
            (budget - 1) as usize,
        );
    }
}

/// The theme that a colour scheme describes.
pub uninterp spec fn scheme_theme(scheme: ColorScheme) -> Theme;

/// Makes a theme of a colour scheme (`Theme::try_from`), or says why it cannot be one.
///
/// Computing its colours must come to an end: a hexadecimal number is cut without regard to the
/// bounds of characters, variables and expressions are followed however deep they go and however
/// often, and a contrast that no colour has is looked for without end. The theme is fixed by the
/// scheme. Whether there is one is not: its scope names go into a table that syntect keeps for the
/// whole program, and a full table refuses a theme that an empty one takes.
#[verifier::external_body]
pub(crate) fn convert_scheme(scheme: ColorScheme) -> (r: Result<Theme, String>)
    requires
        convertible(scheme_colours(scheme)),
    ensures
        r matches Ok(theme) ==> theme == scheme_theme(scheme),
{
    Theme::try_from(scheme).map_err(|error| error.to_string())
}

/// Counts the brackets that are opened in a text, unless there are more than [`MAX_BRACKETS`].
fn few_brackets(s: &str) -> (r: bool)
    ensures
        r == (brackets(s@) <= MAX_BRACKETS),
{
    let mut count: usize = 0;
    let mut it = s.chars();
    let ghost mut n: int = 0;
    assert(s@.skip(0) =~= s@);
    loop
        invariant
            0 <= n <= s@.len(),
            IteratorSpec::remaining(&it) == s@.skip(n),
            count == brackets(s@.take(n)),
            count <= MAX_BRACKETS,
        decreases s@.len() - n,
    {
        match it.next() {
            None => {
                assert(s@.take(n) =~= s@);
                return true;
            },
            Some(c) => {
                proof {
                    assert(c == s@.skip(n)[0]);
                    assert(s@.take(n + 1).drop_last() =~= s@.take(n));
                    assert(s@.skip(n).drop_first() =~= s@.skip(n + 1));
                    lemma_brackets_grow(s@, n + 1);
                    n = n + 1;
                }
                if c == '(' {
                    if count == MAX_BRACKETS {
                        return false;
                    }
                    count = count + 1;
                }
            },
        }
    }
}

proof fn lemma_brackets_grow(s: Seq<char>, n: int)
    requires
        0 <= n <= s.len(),
    ensures
        brackets(s.take(n)) <= brackets(s),
    decreases s.len() - n,
{
    if n < s.len() {
        lemma_brackets_grow(s, n + 1);
        assert(s.take(n + 1).drop_last() =~= s.take(n));
    } else {
        assert(s.take(n) =~= s);
    }
}

/// Whether `c` is a hexadecimal digit.
fn hex_digit(c: char) -> (r: bool)
    ensures
        r == is_hex_digit(c),
{
    ('0' <= c && c <= '9') || ('a' <= c && c <= 'f') || ('A' <= c && c <= 'F')
}

/// The characters of a text.
fn chars_of(s: &str) -> (r: Vec<char>)
    ensures
        r@ == s@,
{
    let mut out: Vec<char> = Vec::new();
    let mut it = s.chars();
    let ghost mut n: int = 0;
    assert(s@.skip(0) =~= s@);
    loop
        invariant
            0 <= n <= s@.len(),
            IteratorSpec::remaining(&it) == s@.skip(n),
            out@ == s@.take(n),
        decreases s@.len() - n,
    {
        match it.next() {
            None => {
                assert(s@.take(n) =~= s@);
                return out;
            },
            Some(c) => {
                proof {
                    assert(c == s@.skip(n)[0]);
                    assert(s@.take(n + 1) =~= s@.take(n).push(c));
                    assert(s@.skip(n).drop_first() =~= s@.skip(n + 1));
                    n = n + 1;
                }
                out.push(c);
            },
        }
    }
}

/// Reads numbers of one byte each.
fn read_single_digits(v: &Vec<char>, left: usize) -> (r: Outcome)
    ensures
        r == single_digits(v@, left),
{
    let mut i: usize = 0;
    assert(v@.skip(0) =~= v@);
    while i < v.len()
        invariant
            i <= v@.len(),
            single_digits(v@, left) == single_digits(v@.skip(i as int), left),
        decreases v@.len() - i,
    {
        let c: char = v[i];
        assert(v@.skip(i as int)[0] == c);
        if utf8_width(c) > 1 {
            return Outcome::Stuck;
        }
        if !hex_digit(c) {
            return Outcome::Fails;
        }
        assert(v@.skip(i as int).drop_first() =~= v@.skip(i + 1));
        i = i + 1;
    }
    Outcome::Done(left)
}

/// Reads numbers of two bytes each.
fn read_double_digits(v: &Vec<char>, left: usize) -> (r: Outcome)
    ensures
        r == double_digits(v@, left),
{
    let mut i: usize = 0;
    assert(v@.skip(0) =~= v@);
    while i < v.len()
        invariant
            i <= v@.len(),
            double_digits(v@, left) == double_digits(v@.skip(i as int), left),
        decreases v@.len() - i,
    {
        let first: char = v[i];
        let w: usize = utf8_width(first);
        assert(v@.skip(i as int)[0] == first);
        if w > 2 {
            return Outcome::Stuck;
        }
        if w == 2 || i + 1 == v.len() {
            return Outcome::Fails;
        }
        let second: char = v[i + 1];
        assert(v@.skip(i as int)[1] == second);
        if utf8_width(second) > 1 {
            return Outcome::Stuck;
        }
        if !hex_digit(first) || !hex_digit(second) {
            return Outcome::Fails;
        }
        assert(v@.skip(i as int).skip(2) =~= v@.skip(i + 2));
        i = i + 2;
    }
    Outcome::Done(left)
}

/// Reads a hexadecimal colour of three numbers, or of four with its opacity; `left` more colours
/// may be computed.
pub fn read_hexadecimal(s: &str, opacity: bool, left: usize) -> (r: Outcome)
    ensures
        r == hexadecimal(s@, opacity, left),
{
    let size: usize = s.as_bytes().len();
    let numbers: usize = if opacity {
        4
    } else {
        3
    };
    if size == numbers {
        read_single_digits(&chars_of(s), left)
    } else if size == 2 * numbers {
        read_double_digits(&chars_of(s), left)
    } else {
        Outcome::Fails
    }
}

/// Looks up a value by its name; the last one of a name counts.
pub fn find_value<'a>(v: &'a Vec<(String, String)>, name: &str) -> (r: Option<&'a str>)
    ensures
        r matches Some(s) ==> by_name(pairs(v@)).contains_key(name@) && by_name(pairs(v@))[name@]
            == s@,
        r is None ==> !by_name(pairs(v@)).contains_key(name@),
{
    let ghost list = pairs(v@);
    let ghost all = by_name(list);
    let mut i: usize = v.len();
    assert(list.take(list.len() as int) =~= list);
    while i > 0
        invariant
            list == pairs(v@),
            all == by_name(list),
            i <= v@.len(),
            all.contains_key(name@) == by_name(list.take(i as int)).contains_key(name@),
            all.contains_key(name@) ==> all[name@] == by_name(list.take(i as int))[name@],
        decreases i,
    {
        proof {
            assert(list.take(i as int).drop_last() =~= list.take(i - 1));
            assert(list[i - 1] == (v@[i - 1].0@, v@[i - 1].1@));
        }
        i = i - 1;
        if same(v[i].0.as_str(), name) {
            return Some(v[i].1.as_str());
        }
    }
    assert(list.take(0) =~= seq![]);
    None
}

/// Finds out what comes of computing the colour in a text.
fn compute_text(
    variables: &Vec<(String, String)>,
    s: &str,
    depth: usize,
    budget: usize,
) -> (r: Outcome)
    ensures
        r == computed_text(by_name(pairs(variables@)), s@, depth, budget),
    decreases depth, 1nat, 0nat,
{
    if !few_brackets(s) {
        return Outcome::Stuck;
    }
    match parse_colour(s) {
        None => Outcome::Fails,
        Some(colour) => compute(variables, &colour, depth, budget),
    }
}

/// Finds out what comes of computing a colour.
fn compute(variables: &Vec<(String, String)>, colour: &Color, depth: usize, budget: usize) -> (r:
    Outcome)
    ensures
        r == computed(by_name(pairs(variables@)), *colour, depth, budget),
    decreases depth, 0nat, 0nat,
{
    if depth == 0 || budget == 0 {
        return Outcome::Stuck;
    }
    let left: usize = budget - 1;
    match colour_kind(colour) {
        ColourKind::Hex => read_hexadecimal(colour_text(colour).as_str(), false, left),
        ColourKind::HexAlpha => read_hexadecimal(colour_text(colour).as_str(), true, left),
        ColourKind::Variable => match find_value(variables, colour_text(colour).as_str()) {
            Some(value) => compute_text(variables, value, depth - 1, left),
            None => Outcome::Fails,
        },
        ColourKind::Expression => {
            let parts: Vec<Option<Part<'_>>> = colour_parts(colour);
            assert(part_views(parts@).skip(0) =~= part_views(parts@));
            compute_parts(variables, &parts, 0, depth - 1, left)
        },
        _ => Outcome::Done(left),
    }
}

/// Finds out what comes of computing the parts from `i` on.
fn compute_parts(
    variables: &Vec<(String, String)>,
    parts: &Vec<Option<Part<'_>>>,
    i: usize,
    depth: usize,
    budget: usize,
) -> (r: Outcome)
    requires
        i <= parts@.len(),
    ensures
        r == computed_parts(
            by_name(pairs(variables@)),
            part_views(parts@).skip(i as int),
            depth,
            budget,
        ),
    decreases depth, 2nat, parts@.len() - i,
{
    let ghost rest = part_views(parts@).skip(i as int);
    if i == parts.len() {
        return Outcome::Done(budget);
    }
    assert(rest[0] == part_view(parts@[i as int]));
    assert(rest.drop_first() =~= part_views(parts@).skip(i + 1));
    match &parts[i] {
        None => compute_parts(variables, parts, i + 1, depth, budget),
        Some(part) => match compute(variables, part.colour, depth, budget) {
            Outcome::Done(left) => if part.contrast {
                Outcome::Stuck
            } else {
                compute_parts(variables, parts, i + 1, depth, left)
            },
            Outcome::Stuck => Outcome::Stuck,
            Outcome::Fails => Outcome::Fails,
        },
    }
}

/// Whether computing the colour in a text comes to an end.
fn text_resolves(variables: &Vec<(String, String)>, s: &str) -> (r: bool)
    ensures
        r == resolves(by_name(pairs(variables@)), s@),
{
    match compute_text(variables, s, MAX_DEPTH, MAX_COMPUTED) {
        Outcome::Stuck => false,
        _ => true,
    }
}

/// Whether computing an optional colour comes to an end.
fn optional_resolves(variables: &Vec<(String, String)>, s: &Option<String>) -> (r: bool)
    ensures
        r == resolves_if_any(by_name(pairs(variables@)), crate::config::value_of(*s)),
{
    match s {
        None => true,
        Some(text) => text_resolves(variables, text.as_str()),
    }
}

/// Whether a setting for a whole colour scheme is a colour.
fn is_colour_setting(name: &str) -> (r: bool)
    ensures
        r == colour_settings().contains(name@),
{
    let all: Vec<&str> = vec![
        "foreground",
        "background",
        "caret",
        "line_highlight",
        "misspelling",
        "minimap_border",
        "accent",
        "bracket_contents_foreground",
        "brackets_foreground",
        "brackets_background",
        "tags_foreground",
        "highlight",
        "find_highlight",
        "find_highlight_foreground",
        "gutter",
        "gutter_foreground",
        "selection",
        "selection_foreground",
        "selection_border",
        "inactive_selection",
        "inactive_selection_foreground",
        "guide",
        "active_guide",
        "stack_guide",
        "shadow",
    ];
    assert(crate::text::texts(all@) =~= colour_settings());
    let mut i: usize = 0;
    while i < all.len()
        invariant
            crate::text::texts(all@) == colour_settings(),
            all@.len() == colour_settings().len(),
            i <= all@.len(),
            forall|k: int| 0 <= k < i ==> (#[trigger] colour_settings()[k]) != name@,
        decreases all@.len() - i,
    {
        assert(crate::text::texts(all@)[i as int] == all@[i as int]@);
        if same(all[i], name) {
            return true;
        }
        i = i + 1;
    }
    false
}

/// Whether computing the colours of a scheme comes to an end, given its variables, its settings
/// and the colours of its rules.
pub fn colours_resolve(
    variables: &Vec<(String, String)>,
    globals: &Vec<(String, String)>,
    rules: &Vec<RuleColours>,
) -> (r: bool)
    ensures
        r == convertible(
            (SchemeColours {
                variables: by_name(pairs(variables@)),
                globals: pairs(globals@).to_set(),
                rules: rule_views(rules@),
            }),
        ),
{
    let ghost map = by_name(pairs(variables@));
    let ghost list = pairs(globals@);
    let ghost views = rule_views(rules@);
    let ghost c = SchemeColours { variables: map, globals: list.to_set(), rules: views };
    let mut i: usize = 0;
    while i < globals.len()
        invariant
            map == by_name(pairs(variables@)),
            list == pairs(globals@),
            c == (SchemeColours { variables: map, globals: list.to_set(), rules: rule_views(rules@) }),
            i <= globals@.len(),
            forall|k: int|
                0 <= k < i && colour_settings().contains((#[trigger] list[k]).0) ==> resolves(
                    map,
                    list[k].1,
                ),
        decreases globals@.len() - i,
    {
        assert(list[i as int] == (globals@[i as int].0@, globals@[i as int].1@));
        if is_colour_setting(globals[i].0.as_str()) && !text_resolves(
            variables,
            globals[i].1.as_str(),
        ) {
            assert(c.globals.contains(list[i as int]));
            assert(!convertible(c));
            return false;
        }
        i = i + 1;
    }
    assert forall|g: (Seq<char>, Seq<char>)| #[trigger]
        list.to_set().contains(g) && colour_settings().contains(g.0) implies resolves(
        map,
        g.1,
    ) by {
        let k = choose|k: int| 0 <= k < list.len() && #[trigger] list[k] == g;
        assert(list[k] == g);
    }
    let mut j: usize = 0;
    while j < rules.len()
        invariant
            map == by_name(pairs(variables@)),
            c == (SchemeColours { variables: map, globals: pairs(globals@).to_set(), rules: views }),
            views == rule_views(rules@),
            j <= rules@.len(),
            forall|k: int|
                0 <= k < j ==> resolves_if_any(map, (#[trigger] views[k]).0) && resolves_if_any(
                    map,
                    views[k].1,
                ),
        decreases rules@.len() - j,
    {
        assert(views[j as int] == rules@[j as int]@);
        if !optional_resolves(variables, &rules[j].foreground) || !optional_resolves(
            variables,
            &rules[j].background,
        ) {
            assert(c.rules[j as int] == views[j as int]);
            assert(!convertible(c));
            return false;
        }
        j = j + 1;
    }
    true
}

/// Whether computing the colours of a scheme comes to an end.
pub(crate) fn is_convertible(scheme: &ColorScheme) -> (r: bool)
    ensures
        r == convertible(scheme_colours(*scheme)),
{
    colours_resolve(&list_variables(scheme), &list_globals(scheme), &list_rules(scheme))
}

/// Hexadecimal colours of three or six digits, or of four or eight with their opacity, are colours.
pub proof fn law_hexadecimal_digits_are_colours(s: Seq<char>, opacity: bool, left: usize)
    requires
        forall|i: int| 0 <= i < s.len() ==> is_hex_digit(#[trigger] s[i]),
    ensures
        !opacity && (s.len() == 3 || s.len() == 6) ==> hexadecimal(s, opacity, left)
            == Outcome::Done(left),
        opacity && (s.len() == 4 || s.len() == 8) ==> hexadecimal(s, opacity, left)
            == Outcome::Done(left),
        !opacity && s.len() != 3 && s.len() != 6 ==> hexadecimal(s, opacity, left)
            == Outcome::Fails,
        opacity && s.len() != 4 && s.len() != 8 ==> hexadecimal(s, opacity, left) == Outcome::Fails,
{
    lemma_digits_are_bytes(s);
    lemma_digits_are_read(s, left);
}

proof fn lemma_digits_are_bytes(s: Seq<char>)
    requires
        forall|i: int| 0 <= i < s.len() ==> is_hex_digit(#[trigger] s[i]),
    ensures
        crate::lines::size(s) == s.len(),
    decreases s.len(),
{
    if s.len() > 0 {
        assert(is_hex_digit(s[0]));
        assert(encode_scalar(s[0] as u32).len() == 1);
        assert forall|i: int| 0 <= i < s.drop_first().len() implies is_hex_digit(
            #[trigger] s.drop_first()[i],
        ) by {
            assert(s.drop_first()[i] == s[i + 1]);
        }
        lemma_digits_are_bytes(s.drop_first());
    }
}

proof fn lemma_digits_are_read(s: Seq<char>, left: usize)
    requires
        forall|i: int| 0 <= i < s.len() ==> is_hex_digit(#[trigger] s[i]),
    ensures
        single_digits(s, left) == Outcome::Done(left),
        s.len() % 2 == 0 ==> double_digits(s, left) == Outcome::Done(left),
    decreases s.len(),
{
    if s.len() > 0 {
        assert(is_hex_digit(s[0]));
        assert(width(s[0]) == 1);
        assert forall|i: int| 0 <= i < s.drop_first().len() implies is_hex_digit(
            #[trigger] s.drop_first()[i],
        ) by {
            assert(s.drop_first()[i] == s[i + 1]);
        }
        lemma_digits_are_read(s.drop_first(), left);
        if s.len() > 1 {
            assert(is_hex_digit(s[1]));
            assert(width(s[1]) == 1);
            assert forall|i: int| 0 <= i < s.skip(2).len() implies is_hex_digit(
                #[trigger] s.skip(2)[i],
            ) by {
                assert(s.skip(2)[i] == s[i + 2]);
            }
            lemma_digits_are_read(s.skip(2), left);
        }
    }
}

/// A variable is what it stands for, one step deeper; one that is not defined is no colour. Colours
/// that are written as numbers or names are computed at once.
pub proof fn law_variables_are_followed(
    variables: Map<Seq<char>, Seq<char>>,
    colour: Color,
    depth: usize,
    budget: usize,
)
    requires
        0 < depth,
        0 < budget,
    ensures
        colour_view(colour).kind == ColourKind::Variable && !variables.contains_key(
            colour_view(colour).text,
        ) ==> computed(variables, colour, depth, budget) == Outcome::Fails,
        colour_view(colour).kind == ColourKind::Variable && variables.contains_key(
            colour_view(colour).text,
        ) ==> computed(variables, colour, depth, budget) == computed_text(
            variables,
            variables[colour_view(colour).text],
            (depth - 1) as usize,
            (budget - 1) as usize,
        ),
        colour_view(colour).kind == ColourKind::Rgb || colour_view(colour).kind
            == ColourKind::Named ==> computed(variables, colour, depth, budget) == Outcome::Done(
            (budget - 1) as usize,
        ),
{
}

proof fn lemma_place_stays(a: Seq<char>, body: Seq<char>, place: Place)
    requires
        place_behind(a) == place,
        place != Place::Code,
        forall|i: int| 0 <= i < body.len() ==> place_after(place, #[trigger] body[i]) == place,
    ensures
        place_behind(a + body) == place,
        open_behind(a + body) == open_behind(a),
    decreases body.len(),
{
    if body.len() == 0 {
        assert(a + body =~= a);
    } else {
        let head = body.drop_last();
        assert forall|i: int| 0 <= i < head.len() implies place_after(place, #[trigger] head[i])
            == place by {
            assert(head[i] == body[i]);
        }
        lemma_place_stays(a, head, place);
        assert((a + body).drop_last() =~= a + head);
        assert((a + body).last() == body[body.len() - 1]);
    }
}

/// Brackets nest: one that opens adds to those that are open, and one that closes takes one away.
/// Those in strings and comments do not count, and behind a string or a comment it goes on as
/// before it.
pub proof fn law_only_brackets_among_values_nest(
    a: Seq<char>,
    q: char,
    body: Seq<char>,
)
    requires
        place_behind(a) == Place::Code,
        q == '"' || q == '\'',
    ensures
        open_behind(a.push('[')) == open_behind(a) + 1,
        open_behind(a.push('{')) == open_behind(a) + 1,
        open_behind(a) > 0 ==> open_behind(a.push(']')) == open_behind(a) - 1 && open_behind(
            a.push('}'),
        ) == open_behind(a) - 1,
        place_behind(a.push('[')) == Place::Code,
        (forall|i: int| 0 <= i < body.len() ==> #[trigger] body[i] != q && body[i] != '\\') ==> {
            let s = a + seq![q] + body + seq![q];
            place_behind(s) == Place::Code && open_behind(s) == open_behind(a)
        },
        (forall|i: int| 0 <= i < body.len() ==> #[trigger] body[i] != '\n') ==> {
            let s = a + seq!['/', '/'] + body + seq!['\n'];
            place_behind(s) == Place::Code && open_behind(s) == open_behind(a)
        },
        (forall|i: int| 0 <= i < body.len() ==> #[trigger] body[i] != '*') ==> {
            let s = a + seq!['/', '*'] + body + seq!['*', '/'];
            place_behind(s) == Place::Code && open_behind(s) == open_behind(a)
        },
        place_behind(seq![]) == Place::Code,
        open_behind(seq![]) == 0,
{
    assert(a.push('[').drop_last() =~= a);
    assert(a.push('{').drop_last() =~= a);
    assert(a.push(']').drop_last() =~= a);
    assert(a.push('}').drop_last() =~= a);
    assert(a.push(q).drop_last() =~= a);
    assert(a + seq![q] =~= a.push(q));
    if forall|i: int| 0 <= i < body.len() ==> #[trigger] body[i] != q && body[i] != '\\' {
        lemma_place_stays(a.push(q), body, Place::Quoted(q));
        let s = a + seq![q] + body + seq![q];
        assert(s.drop_last() =~= a.push(q) + body);
        assert(s.last() == q);
    }
    let slash = a.push('/');
    assert(slash.drop_last() =~= a);
    assert(slash.last() == '/');
    assert(place_behind(slash) == Place::Slash);
    assert(open_behind(slash) == open_behind(a));
    if forall|i: int| 0 <= i < body.len() ==> #[trigger] body[i] != '\n' {
        let open = slash.push('/');
        assert(open.drop_last() =~= slash);
        assert(open.last() == '/');
        assert(place_behind(open) == Place::Line);
        lemma_place_stays(open, body, Place::Line);
        let s = a + seq!['/', '/'] + body + seq!['\n'];
        assert(s.drop_last() =~= open + body);
        assert(s.last() == '\n');
    }
    if forall|i: int| 0 <= i < body.len() ==> #[trigger] body[i] != '*' {
        let open = slash.push('*');
        assert(open.drop_last() =~= slash);
        assert(open.last() == '*');
        assert(place_behind(open) == Place::Block);
        lemma_place_stays(open, body, Place::Block);
        let s = a + seq!['/', '*'] + body + seq!['*', '/'];
        let t = open + body;
        assert(s.drop_last() =~= t.push('*'));
        assert(t.push('*').drop_last() =~= t);
        assert(t.push('*').last() == '*');
        assert(place_behind(t.push('*')) == Place::Star);
        assert(open_behind(t.push('*')) == open_behind(a));
        assert(s.last() == '/');
    }
}

/// A text of up to 128 characters does not nest too deeply, whatever they are.
pub proof fn law_few_brackets_are_shallow(s: Seq<char>)
    requires
        s.len() <= 128,
    ensures
        is_shallow(s),
{
    assert forall|n: int| 0 <= n <= s.len() implies open_behind(#[trigger] s.take(n))
        <= MAX_NESTING by {
        lemma_open_is_bounded(s.take(n));
    }
}

proof fn lemma_open_is_bounded(s: Seq<char>)
    ensures
        open_behind(s) <= s.len(),
    decreases s.len(),
{
    if s.len() > 0 {
        lemma_open_is_bounded(s.drop_last());
    }
}

/// What is no colour at all, and what is a plain one, resolves; the last value of a name counts.
pub proof fn law_plain_colours_resolve(
    variables: Map<Seq<char>, Seq<char>>,
    s: Seq<char>,
    v: Seq<(Seq<char>, Seq<char>)>,
    name: Seq<char>,
    value: Seq<char>,
)
    ensures
        brackets(s) <= 64 && colour_in(s) is None ==> resolves(variables, s),
        brackets(s) <= 64 && (colour_in(s) matches Some(c) && (colour_view(c).kind
            == ColourKind::Named || colour_view(c).kind == ColourKind::Rgb || colour_view(c).kind
            == ColourKind::Hsl)) ==> resolves(variables, s),
        by_name(v.push((name, value))).contains_key(name),
        by_name(v.push((name, value)))[name] == value,
        !by_name(seq![]).contains_key(name),
{
    assert(v.push((name, value)).drop_last() =~= v);
}

/// The hexadecimal digits are those from 0 to 9 and the letters from A to F, in either case.
pub proof fn law_sixteen_digits(c: char)
    ensures
        is_hex_digit(c) <==> (48 <= c as u32 <= 57 || 65 <= c as u32 <= 70 || 97 <= c as u32 <= 102),
{
}

} // verus!
