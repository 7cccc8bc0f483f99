//! What the preview image of a paste shows.

use vstd::prelude::*;
use vstd::string::*;
use crate::canvas::Rgb;
use crate::highlighter::is_markdown;
use crate::lines::{trim_line_ending, truncate_for_render};
use crate::listing::format_number;
use crate::state::{resolve_syntax, AppState};
use crate::styled::{first_lines, markdown_to_styled_lines, MdLine, FG_B, FG_G, FG_R};
use crate::syntax::{highlight_lines, Region};

verus! {

/// The most lines that a listing shows.
pub const MAX_LINES: usize = 25;

/// The most bytes of markdown that are looked at.
pub const PREVIEW_MD_MAX_BYTES: usize = 65536;

/// The most lines of markdown that are looked at.
pub const PREVIEW_MD_MAX_LINES: usize = 480;

/// A piece of a listed line in one colour.
pub struct Run {
    pub text: String,
    pub color: Rgb,
}

/// What a [`Run`] shows.
pub struct RunView {
    pub text: Seq<char>,
    pub color: Rgb,
}

impl View for Run {
    type V = RunView;

    open spec fn view(&self) -> RunView {
        RunView { text: self.text@, color: self.color }
    }
}

/// What some runs show.
pub open spec fn run_views(v: Seq<Run>) -> Seq<RunView> {
    v.map_values(|x: Run| x@)
}

/// A line of a listing.
pub struct CodeRow {
    pub number: String,
    pub runs: Vec<Run>,
}

/// What a [`CodeRow`] shows.
#[verifier::ext_equal]
pub struct RowView {
    pub number: Seq<char>,
    pub runs: Seq<RunView>,
}

impl View for CodeRow {
    type V = RowView;

    open spec fn view(&self) -> RowView {
        RowView { number: self.number@, runs: run_views(self.runs@) }
    }
}

/// What some rows show.
pub open spec fn row_views(v: Seq<CodeRow>) -> Seq<RowView> {
    v.map_values(|x: CodeRow| x@)
}

/// What a preview shows.
pub enum PreviewPlan {
    /// Nothing.
    Blank,
    /// The first lines of a listing, and whether more would follow.
    Code { rows: Vec<CodeRow>, has_more: bool },
    /// Styled markdown.
    Markdown { lines: Vec<MdLine> },
}

/// What a [`PreviewPlan`] holds.
pub enum PlanView {
    Blank,
    Code { rows: Seq<RowView>, has_more: bool },
    Markdown { lines: Seq<crate::styled::LineView> },
}

impl View for PreviewPlan {
    type V = PlanView;

    open spec fn view(&self) -> PlanView {
        match self {
            PreviewPlan::Blank => PlanView::Blank,
            PreviewPlan::Code { rows, has_more } => PlanView::Code {
                rows: row_views(rows@),
                has_more: *has_more,
            },
            PreviewPlan::Markdown { lines } => PlanView::Markdown {
                lines: crate::styled::line_views(lines@),
            },
        }
    }
}

/// The runs of a listed line.
pub open spec fn line_runs(
    line: Seq<char>,
    regions: Option<Seq<crate::syntax::RegionView>>,
) -> Seq<RunView> {
    match regions {
        Some(v) => v.map_values(
            |x: crate::syntax::RegionView|
                RunView {
                    text: crate::lines::line_text(x.text),
                    color: Rgb { r: x.r, g: x.g, b: x.b },
                },
        ),
        None => seq![
            RunView { text: crate::lines::line_text(line), color: crate::styled::foreground() },
        ],
    }
}

/// The lines of a paste that a listing looks at: one more than it shows.
pub open spec fn listed_lines(content: Seq<char>) -> Seq<Seq<char>> {
    crate::styled::cut_lines(
        crate::styled::at_most(crate::lines::lines(content), MAX_LINES + 1),
    )
}

/// How many lines a listing shows.
pub open spec fn shown_count(content: Seq<char>) -> int {
    if listed_lines(content).len() > MAX_LINES {
        MAX_LINES as int
    } else {
        listed_lines(content).len() as int
    }
}

/// The lines of a listing.
pub open spec fn listed_rows(
    state: AppState,
    content: Seq<char>,
    extension: Option<Seq<char>>,
) -> Seq<RowView> {
    let all = listed_lines(content);
    Seq::new(
        shown_count(content) as nat,
        |k: int|
            RowView {
                number: crate::listing::decimal((k + 1) as nat),
                runs: line_runs(
                    all[k],
                    match state.syntax_for(extension) {
                        Some(index) => crate::syntax::line_regions(
                            state.syntax_set@,
                            index as int,
                            state.theme,
                            all,
                            k,
                        ),
                        None => None,
                    },
                ),
            },
    )
}

/// The start of markdown that a preview looks at.
pub open spec fn looked_at(content: Seq<char>) -> Seq<char> {
    crate::lines::shortened(content, PREVIEW_MD_MAX_BYTES as int, PREVIEW_MD_MAX_LINES as int)
}

/// What the preview of a paste shows.
pub open spec fn preview_plan(
    state: AppState,
    content: Seq<char>,
    extension: Option<Seq<char>>,
) -> PlanView {
    if content.len() == 0 {
        PlanView::Blank
    } else if crate::highlighter::names_markdown(extension) {
        PlanView::Markdown {
            lines: crate::styled::styled_lines(
                state,
                crate::events::document_events(looked_at(content)),
            ),
        }
    } else {
        PlanView::Code {
            rows: listed_rows(state, content, extension),
            has_more: listed_lines(content).len() > MAX_LINES,
        }
    }
}

/// A listing has no more rows than a preview shows, and the lines of markdown have heights that
/// it can draw.
pub open spec fn plan_fits(plan: PlanView) -> bool {
    match plan {
        PlanView::Blank => true,
        PlanView::Code { rows, .. } => rows.len() <= MAX_LINES,
        PlanView::Markdown { lines } => crate::styled::lines_fit(lines),
    }
}

/// Makes the runs of a listed line from its regions.
pub fn runs_of(line: &str, regions: &Option<Vec<Region>>) -> (r: Vec<Run>)
    ensures
        match regions {
            Some(v) => run_views(r@) == line_runs(line@, Some(crate::syntax::region_views(v@))),
            None => run_views(r@) == line_runs(line@, None),
        },
{
    let mut runs: Vec<Run> = Vec::new();
    match regions {
        Some(v) => {
            let mut i: usize = 0;
            while i < v.len()
                invariant
                    i <= v@.len(),
                    runs@.len() == i,
                    forall|k: int|
                        0 <= k < i ==> (#[trigger] runs@[k])@ == (RunView {
                            text: crate::lines::line_text(v@[k].text@),
                            color: Rgb { r: v@[k].r, g: v@[k].g, b: v@[k].b },
                        }),
                decreases v@.len() - i,
            {
                let region: &Region = &v[i];
                runs.push(
                    Run {
                        text: trim_line_ending(region.text.as_str()).to_owned(),
                        color: Rgb::new(region.r, region.g, region.b),
                    },
                );
                i = i + 1;
            }
            assert(run_views(runs@) =~= line_runs(
                line@,
                Some(crate::syntax::region_views(v@)),
            ));
        },
        None => {
            runs.push(
                Run {
                    text: trim_line_ending(line).to_owned(),
                    color: Rgb::new(FG_R, FG_G, FG_B),
                },
            );
            assert(run_views(runs@) =~= line_runs(line@, None));
        },
    }
    runs
}

/// Lists the first lines of a paste, highlighted where the extension selects a syntax.
fn list_rows(state: &AppState, content: &str, extension: Option<&str>) -> (r: (Vec<CodeRow>, bool))
    ensures
        row_views(r.0@) == listed_rows(*state, content@, crate::state::text_of(extension)),
        r.1 == (listed_lines(content@).len() > MAX_LINES),
{
    let all: Vec<&str> = first_lines(content, MAX_LINES + 1);
    let ghost v = listed_lines(content@);
    let ghost e = crate::state::text_of(extension);
    let ghost want = listed_rows(*state, content@, e);
    assert(v == crate::text::texts(all@));
    assert(all@.len() == v.len());
    let has_more: bool = all.len() > MAX_LINES;
    let visible: usize = if has_more {
        MAX_LINES
    } else {
        all.len()
    };
    let regions: Option<Vec<Option<Vec<Region>>>> = match resolve_syntax(state, extension) {
        Some(index) => Some(highlight_lines(&state.syntax_set, index, &state.theme, &all)),
        None => None,
    };
    let none: Option<Vec<Region>> = None;
    let mut rows: Vec<CodeRow> = Vec::new();
    let mut i: usize = 0;
    while i < visible
        invariant
            v == crate::text::texts(all@),
            v.len() == all@.len(),
            visible <= v.len(),
            visible <= MAX_LINES,
            want.len() == visible,
            e == crate::state::text_of(extension),
            i <= visible,
            none is None,
            rows@.len() == i,
            regions matches Some(x) ==> x@.len() == v.len(),
            regions is Some == (state.syntax_for(e) is Some),
            regions matches Some(x) ==> forall|k: int|
                0 <= k < v.len() ==> crate::syntax::regions_are(
                    #[trigger] x@[k],
                    crate::syntax::line_regions(
                        state.syntax_set@,
                        state.syntax_for(e)->0 as int,
                        state.theme,
                        v,
                        k,
                    ),
                ),
            forall|k: int|
                0 <= k < visible ==> #[trigger] want[k] == (RowView {
                    number: crate::listing::decimal((k + 1) as nat),
                    runs: line_runs(
                        v[k],
                        match state.syntax_for(e) {
                            Some(index) => crate::syntax::line_regions(
                                state.syntax_set@,
                                index as int,
                                state.theme,
                                v,
                                k,
                            ),
                            None => None,
                        },
                    ),
                }),
            forall|k: int| 0 <= k < i ==> (#[trigger] rows@[k])@ == want[k],
        decreases visible - i,
    {
        assert(v[i as int] == all@[i as int]@);
        let runs: Vec<Run> = match &regions {
            Some(x) => {
                assert(crate::syntax::regions_are(
                    x@[i as int],
                    crate::syntax::line_regions(
                        state.syntax_set@,
                        state.syntax_for(e)->0 as int,
                        state.theme,
                        v,
                        i as int,
                    ),
                ));
                runs_of(all[i], &x[i])
            },
            None => runs_of(all[i], &none),
        };
        let row = CodeRow { number: format_number((i + 1) as u64), runs };
        assert(row@ =~= want[i as int]);
        rows.push(row);
        i = i + 1;
    }
    assert(row_views(rows@) =~= want);
    (rows, has_more)
}

/// Decides what the preview of a paste shows.
pub fn plan_preview(state: &AppState, content: &str, extension: Option<&str>) -> (r: PreviewPlan)
    ensures
        r@ == preview_plan(*state, content@, crate::state::text_of(extension)),
        plan_fits(r@),
{
    if content.is_empty() {
        return PreviewPlan::Blank;
    }
    if is_markdown(extension) {
        let (start, _) = truncate_for_render(content, PREVIEW_MD_MAX_BYTES, PREVIEW_MD_MAX_LINES);
        return PreviewPlan::Markdown { lines: markdown_to_styled_lines(state, start) };
    }
    let (rows, has_more) = list_rows(state, content, extension);
    PreviewPlan::Code { rows, has_more }
}

/// Whether two pastes show the same lines in a listing, each as far as it is looked at, and
/// whether both or neither have more lines than that.
pub open spec fn listed_alike(a: Seq<char>, b: Seq<char>) -> bool {
    let x = crate::lines::lines(a);
    let y = crate::lines::lines(b);
    &&& crate::styled::cut_lines(crate::styled::at_most(x, MAX_LINES as int))
        == crate::styled::cut_lines(crate::styled::at_most(y, MAX_LINES as int))
    &&& (x.len() > MAX_LINES) == (y.len() > MAX_LINES)
}

proof fn lemma_listed_lines(s: Seq<char>)
    ensures
        listed_lines(s).take(shown_count(s)) == crate::styled::cut_lines(
            crate::styled::at_most(crate::lines::lines(s), MAX_LINES as int),
        ),
        (listed_lines(s).len() > MAX_LINES) == (crate::lines::lines(s).len() > MAX_LINES),
        0 <= shown_count(s) <= listed_lines(s).len(),
{
    assert(listed_lines(s).take(shown_count(s)) =~= crate::styled::cut_lines(
        crate::styled::at_most(crate::lines::lines(s), MAX_LINES as int),
    ));
}

/// A listing depends only on the lines that it shows, each as far as it is looked at, and on
/// whether more would follow.
pub proof fn law_listing_depends_on_shown_lines(
    state: AppState,
    a: Seq<char>,
    b: Seq<char>,
    extension: Option<Seq<char>>,
)
    requires
        !crate::highlighter::names_markdown(extension),
        listed_alike(a, b),
    ensures
        listed_rows(state, a, extension) == listed_rows(state, b, extension),
        preview_plan(state, a, extension) == preview_plan(state, b, extension),
{
    lemma_listed_lines(a);
    lemma_listed_lines(b);
    crate::lines::law_line_count(a);
    crate::lines::law_line_count(b);
    let x = listed_lines(a);
    let y = listed_lines(b);
    let n = shown_count(a);
    assert(x.take(n).len() == n);
    assert(y.take(shown_count(b)).len() == shown_count(b));
    assert(n == shown_count(b));
    let rows = listed_rows(state, a, extension);
    let others = listed_rows(state, b, extension);
    assert forall|k: int| 0 <= k < n implies #[trigger] rows[k] == others[k] by {
        assert(x.take(n)[k] == y.take(n)[k]);
        assert(x[k] == y[k]);
        assert(x.take(k) =~= x.take(n).take(k));
        assert(y.take(k) =~= y.take(n).take(k));
    }
    assert(rows =~= others);
}

/// The preview of markdown is the same when the content is first cut to what a preview looks at.
pub proof fn law_markdown_preview_ignores_the_rest(
    state: AppState,
    content: Seq<char>,
    extension: Option<Seq<char>>,
)
    requires
        crate::highlighter::names_markdown(extension),
    ensures
        preview_plan(state, looked_at(content), extension) == preview_plan(
            state,
            content,
            extension,
        ),
{
    let max_bytes = PREVIEW_MD_MAX_BYTES as int;
    let max_lines = PREVIEW_MD_MAX_LINES as int;
    crate::lines::law_shortened_is_stable(content, max_bytes, max_lines);
    crate::lines::law_shortened_keeps_something(content, max_bytes, max_lines);
}

/// A listing shows the first 25 lines of a paste, or all of them where there are no more, each with
/// its number; without a syntax a line is shown as it is, without its line ending and as far as it
/// is looked at. Whether more would follow is whether there are more than 25.
pub proof fn law_listings_show_numbered_lines(
    state: AppState,
    content: Seq<char>,
    extension: Option<Seq<char>>,
    k: int,
)
    requires
        content.len() > 0,
        !crate::highlighter::names_markdown(extension),
        0 <= k < 25,
        k < crate::lines::lines(content).len(),
    ensures
        preview_plan(state, content, extension) matches PlanView::Code { rows, has_more } && {
            let all = crate::lines::lines(content);
            let start = crate::lines::fitted(all[k], 1024);
            &&& rows.len() == (if all.len() <= 25 {
                all.len() as int
            } else {
                25
            })
            &&& has_more == (all.len() > 25)
            &&& rows[k].number == crate::listing::decimal((k + 1) as nat)
            &&& state.syntax_for(extension) is None ==> rows[k].runs == seq![
                RunView {
                    text: crate::lines::line_text(start),
                    color: Rgb { r: 0xf0, g: 0xf3, b: 0xf6 },
                },
            ]
            &&& state.syntax_for(extension) matches Some(index) ==> rows[k].runs == line_runs(
                start,
                crate::syntax::line_regions(
                    state.syntax_set@,
                    index as int,
                    state.theme,
                    (if all.len() <= 26 {
                        all
                    } else {
                        all.take(26)
                    }).map_values(|l: Seq<char>| crate::lines::fitted(l, 1024)),
                    k,
                ),
            )
        },
{
}

/// The runs of a highlighted line are its regions, in order, each in its colour and without a line
/// ending.
pub proof fn law_runs_are_regions(line: Seq<char>, regions: Seq<crate::syntax::RegionView>, i: int)
    requires
        0 <= i < regions.len(),
    ensures
        line_runs(line, Some(regions)).len() == regions.len(),
        line_runs(line, Some(regions))[i].text == crate::lines::line_text(regions[i].text),
        line_runs(line, Some(regions))[i].color == (Rgb {
            r: regions[i].r,
            g: regions[i].g,
            b: regions[i].b,
        }),
{
}

/// An empty paste has a blank preview, and markdown one of its styled lines.
pub proof fn law_previews_show_what_the_paste_is(
    state: AppState,
    content: Seq<char>,
    extension: Option<Seq<char>>,
)
    ensures
        content.len() == 0 ==> preview_plan(state, content, extension) == PlanView::Blank,
        content.len() > 0 ==> (preview_plan(state, content, extension) is Markdown
            <==> crate::highlighter::names_markdown(extension)),
        content.len() > 0 ==> preview_plan(state, content, extension) !is Blank,
        preview_plan(state, content, extension) matches PlanView::Markdown { lines } ==> lines
            == crate::styled::styled_lines(
            state,
            crate::events::document_events(crate::lines::shortened(content, 65536, 480)),
        ),
{
}

} // verus!
