//! How a paste is shown: which steps a request takes, and what each outcome leads to.
//!
//! The steps that take a look at the database, the cache or the clock are left to the caller.
//! It carries out the action that it is given and hands back the answer, until there is a reply.

use vstd::prelude::*;
use vstd::string::*;
use crate::cache::Rendered;
use crate::db::split_paste_ref;
use crate::error::AppError;
use crate::handlers::{head_may_be_url, is_url, render_cache_key};
use crate::state::{AppResult, AppState, PasteMeta};
use crate::text::trim;

verus! {

/// What a request waits for.
#[derive(Clone, Copy, PartialEq, Eq, Structural)]
pub enum Stage {
    /// What is known of the paste before its content is read.
    Meta,
    /// The content, to see whether it is a URL.
    UrlContent,
    /// The content, to send it as it is.
    PlainContent,
    /// The first look into the cache.
    Cache,
    /// The lock on the cache key.
    Lock,
    /// The second look into the cache.
    CacheAgain,
    /// The content, to render it.
    RenderContent,
    /// The rendered paste.
    Render,
    /// Nothing more.
    Done,
}

/// What a request is answered with.
pub enum Reply {
    /// The request fails.
    Fail(AppError),
    /// The client is sent to a URL.
    Redirect(String),
    /// The content is sent as plain text.
    Plain(String),
    /// A page or image is sent, and cached under the key, if there is one.
    Show(Rendered, Option<String>),
}

/// What a [`Reply`] holds.
pub enum ReplyView {
    Fail(crate::error::ErrorView),
    Redirect(Seq<char>),
    Plain(Seq<char>),
    Show(crate::cache::RenderedView, Option<Seq<char>>),
}

impl View for Reply {
    type V = ReplyView;

    open spec fn view(&self) -> ReplyView {
        match self {
            Reply::Fail(e) => ReplyView::Fail(e@),
            Reply::Redirect(url) => ReplyView::Redirect(url@),
            Reply::Plain(content) => ReplyView::Plain(content@),
            Reply::Show(rendered, key) => ReplyView::Show(rendered@, crate::db::opt(*key)),
        }
    }
}

/// What is to be done next.
pub enum Action {
    /// Read what is known of the paste with this id.
    LoadMeta { id: String },
    /// Read the content of the paste with this id.
    LoadContent { id: String },
    /// Look into the cache.
    LookUp { key: String },
    /// Wait for the lock on the key, and hold it until the reply.
    Lock { key: String },
    /// Render the content.
    Render { extension: Option<String>, content: String },
    /// Send the reply.
    Send(Reply),
}

/// What an [`Action`] holds.
pub enum ActionView {
    LoadMeta { id: Seq<char> },
    LoadContent { id: Seq<char> },
    LookUp { key: Seq<char> },
    Lock { key: Seq<char> },
    Render { extension: Option<Seq<char>>, content: Seq<char> },
    Send(ReplyView),
}

impl View for Action {
    type V = ActionView;

    open spec fn view(&self) -> ActionView {
        match self {
            Action::LoadMeta { id } => ActionView::LoadMeta { id: id@ },
            Action::LoadContent { id } => ActionView::LoadContent { id: id@ },
            Action::LookUp { key } => ActionView::LookUp { key: key@ },
            Action::Lock { key } => ActionView::Lock { key: key@ },
            Action::Render { extension, content } => ActionView::Render {
                extension: crate::db::opt(*extension),
                content: content@,
            },
            Action::Send(reply) => ActionView::Send(reply@),
        }
    }
}

/// What an action led to.
pub enum Answer {
    Meta(Option<PasteMeta>),
    Content(Option<String>),
    Cached(Option<Rendered>),
    Locked,
    /// The rendered paste, or nothing where rendering failed.
    Rendered(Option<Rendered>),
}

/// What is known of a paste.
pub struct MetaView {
    pub id: Seq<char>,
    pub language: Option<Seq<char>>,
    pub head: Seq<char>,
}

impl View for PasteMeta {
    type V = MetaView;

    open spec fn view(&self) -> MetaView {
        MetaView { id: self.id@, language: crate::db::opt(self.language), head: self.head@ }
    }
}

/// What an [`Answer`] holds.
pub enum AnswerView {
    Meta(Option<MetaView>),
    Content(Option<Seq<char>>),
    Cached(Option<crate::cache::RenderedView>),
    Locked,
    Rendered(Option<crate::cache::RenderedView>),
}

impl View for Answer {
    type V = AnswerView;

    open spec fn view(&self) -> AnswerView {
        match self {
            Answer::Meta(meta) => AnswerView::Meta(
                match meta {
                    Some(m) => Some(m@),
                    None => None,
                },
            ),
            Answer::Content(content) => AnswerView::Content(crate::db::opt(*content)),
            Answer::Cached(rendered) => AnswerView::Cached(
                match rendered {
                    Some(r) => Some(r@),
                    None => None,
                },
            ),
            Answer::Locked => AnswerView::Locked,
            Answer::Rendered(rendered) => AnswerView::Rendered(
                match rendered {
                    Some(r) => Some(r@),
                    None => None,
                },
            ),
        }
    }
}

/// Which view of a paste is asked for.
#[derive(Clone, Copy, PartialEq, Eq, Structural)]
pub enum Wanted {
    /// The page in a browser.
    Page,
    /// The content, by a client that does not ask for HTML.
    Plain,
    /// The preview image.
    Preview,
}

/// Whether an answer is one that the stage waits for. A page is rendered to HTML and a preview to
/// an image.
pub open spec fn awaits(stage: Stage, answer: AnswerView) -> bool {
    match stage {
        Stage::Meta => answer is Meta,
        Stage::UrlContent => answer is Content,
        Stage::PlainContent => answer is Content,
        Stage::Cache => answer is Cached,
        Stage::Lock => answer is Locked,
        Stage::CacheAgain => answer is Cached,
        Stage::RenderContent => answer is Content,
        Stage::Render => answer is Rendered,
        Stage::Done => false,
    }
}

/// A request for a view of a paste.
pub struct ShowPaste {
    pub paste_ref: String,
    pub wanted: Wanted,
    pub stage: Stage,
    pub id: String,
    pub language: Option<String>,
    pub content: Option<String>,
}

/// What a [`ShowPaste`] holds.
pub struct ShowView {
    pub paste_ref: Seq<char>,
    pub wanted: Wanted,
    pub stage: Stage,
    pub id: Seq<char>,
    pub language: Option<Seq<char>>,
    pub content: Option<Seq<char>>,
}

impl View for ShowPaste {
    type V = ShowView;

    open spec fn view(&self) -> ShowView {
        ShowView {
            paste_ref: self.paste_ref@,
            wanted: self.wanted,
            stage: self.stage,
            id: self.id@,
            language: crate::db::opt(self.language),
            content: crate::db::opt(self.content),
        }
    }
}

/// The answer for a paste that does not exist or has expired.
pub open spec fn not_found() -> ReplyView {
    ReplyView::Fail(crate::error::ErrorView::NotFound("Paste not found."@))
}

/// The complaint about a paste that could not be rendered.
pub open spec fn render_failure(wanted: Wanted) -> ReplyView {
    ReplyView::Fail(
        crate::error::ErrorView::InternalMessage(
            if wanted == Wanted::Preview {
                "preview generation failed"@
            } else {
                "rendering failed"@
            },
        ),
    )
}

/// The number of bytes of a rendered page, or zero for an image, which is cached whatever its
/// size.
pub open spec fn counted_size(rendered: crate::cache::RenderedView) -> nat {
    match rendered {
        crate::cache::RenderedView::Page(html) => crate::lines::size(html),
        crate::cache::RenderedView::Image(_) => 0,
    }
}

impl ShowView {
    /// The start of a request.
    pub open spec fn start(paste_ref: Seq<char>, wanted: Wanted) -> ShowView {
        ShowView {
            paste_ref,
            wanted,
            stage: Stage::Meta,
            id: seq![],
            language: None,
            content: None,
        }
    }

    /// The first action: to read what is known of the paste.
    pub open spec fn first_action(self) -> ActionView {
        ActionView::LoadMeta { id: crate::db::paste_ref_parts(self.paste_ref).0 }
    }

    /// The extension that decides how the paste is shown: that of the reference, or else the
    /// language that is stored with the paste.
    pub open spec fn extension(self) -> Option<Seq<char>> {
        match crate::db::paste_ref_parts(self.paste_ref).1 {
            Some(e) => Some(e),
            None => self.language,
        }
    }

    /// The key under which the view is cached.
    pub open spec fn key(self, state: AppState) -> Seq<char> {
        crate::handlers::cache_key(state, self.id, self.extension())
    }

    /// The request moved to another stage.
    pub open spec fn at(self, stage: Stage) -> ShowView {
        ShowView { stage, ..self }
    }

    /// The end of the request.
    pub open spec fn reply(self, reply: ReplyView) -> (ShowView, ActionView) {
        (self.at(Stage::Done), ActionView::Send(reply))
    }

    /// Reads the content for the given stage.
    pub open spec fn load(self, stage: Stage) -> (ShowView, ActionView) {
        (self.at(stage), ActionView::LoadContent { id: self.id })
    }

    /// What follows once it is clear that the paste does not redirect.
    pub open spec fn shown(self, state: AppState) -> (ShowView, ActionView) {
        if self.wanted == Wanted::Plain {
            match self.content {
                Some(c) => self.reply(ReplyView::Plain(c)),
                None => self.load(Stage::PlainContent),
            }
        } else {
            (self.at(Stage::Cache), ActionView::LookUp { key: self.key(state) })
        }
    }

    /// Renders the content.
    pub open spec fn render(self, content: Seq<char>) -> (ShowView, ActionView) {
        (
            self.at(Stage::Render),
            ActionView::Render { extension: self.extension(), content },
        )
    }

    /// What follows once the paste is known. Previews never redirect; the others do where the
    /// start of the content admits a URL and the content is one.
    pub open spec fn with_meta(self, state: AppState, meta: Option<MetaView>) -> (
        ShowView,
        ActionView,
    ) {
        match meta {
            None => self.reply(not_found()),
            Some(m) => {
                let known = ShowView { id: m.id, language: m.language, ..self };
                if self.wanted != Wanted::Preview && crate::handlers::may_name_url(m.head) {
                    known.load(Stage::UrlContent)
                } else {
                    known.shown(state)
                }
            },
        }
    }

    /// What follows once the content is read.
    pub open spec fn with_content(self, state: AppState, content: Option<Seq<char>>) -> (
        ShowView,
        ActionView,
    ) {
        match content {
            None => self.reply(not_found()),
            Some(c) => match self.stage {
                Stage::UrlContent => if crate::handlers::names_url(c) {
                    self.reply(ReplyView::Redirect(crate::text::trimmed(c)))
                } else {
                    (ShowView { content: Some(c), ..self }).shown(state)
                },
                Stage::PlainContent => self.reply(ReplyView::Plain(c)),
                _ => self.render(c),
            },
        }
    }

    /// What follows a look into the cache: what is there is sent; after the first miss the key is
    /// locked, after the second one the paste is rendered.
    pub open spec fn with_cached(
        self,
        state: AppState,
        rendered: Option<crate::cache::RenderedView>,
    ) -> (ShowView, ActionView) {
        match rendered {
            Some(r) => self.reply(ReplyView::Show(r, None)),
            None => if self.stage == Stage::Cache {
                (self.at(Stage::Lock), ActionView::Lock { key: self.key(state) })
            } else {
                match self.content {
                    Some(c) => self.render(c),
                    None => self.load(Stage::RenderContent),
                }
            },
        }
    }

    /// What follows rendering: the view is sent, and cached unless it is too large.
    pub open spec fn with_rendered(
        self,
        state: AppState,
        rendered: Option<crate::cache::RenderedView>,
    ) -> (ShowView, ActionView) {
        match rendered {
            None => self.reply(render_failure(self.wanted)),
            Some(r) => self.reply(
                ReplyView::Show(
                    r,
                    if counted_size(r) <= state.render_cache_max_entry_bytes {
                        Some(self.key(state))
                    } else {
                        None
                    },
                ),
            ),
        }
    }

    /// What follows an answer.
    pub open spec fn answered(self, state: AppState, answer: AnswerView) -> (ShowView, ActionView) {
        match answer {
            AnswerView::Meta(meta) => self.with_meta(state, meta),
            AnswerView::Content(content) => self.with_content(state, content),
            AnswerView::Cached(rendered) => self.with_cached(state, rendered),
            AnswerView::Locked => (
                self.at(Stage::CacheAgain),
                ActionView::LookUp { key: self.key(state) },
            ),
            AnswerView::Rendered(rendered) => self.with_rendered(state, rendered),
        }
    }
}

impl ShowPaste {
    /// Starts a request.
    pub fn new(paste_ref: String, wanted: Wanted) -> (r: (ShowPaste, Action))
        ensures
            r.0@ == ShowView::start(paste_ref@, wanted),
            r.1@ == ShowView::start(paste_ref@, wanted).first_action(),
    {
        let id: String = split_paste_ref(paste_ref.as_str()).0.to_owned();
        let show = ShowPaste {
            paste_ref,
            wanted,
            stage: Stage::Meta,
            id: String::new(),
            language: None,
            content: None,
        };
        assert(show@.id =~= seq![]);
        (show, Action::LoadMeta { id })
    }

    /// The extension that decides how the paste is shown.
    pub fn extension(&self) -> (r: Option<&str>)
        ensures
            crate::state::text_of(r) == self@.extension(),
    {
        match split_paste_ref(self.paste_ref.as_str()).1 {
            Some(e) => Some(e),
            None => match &self.language {
                Some(l) => Some(l.as_str()),
                None => None,
            },
        }
    }

    /// Whether the request waits for this answer.
    pub fn expects(&self, answer: &Answer) -> (r: bool)
        ensures
            r == awaits(self.stage, answer@),
    {
        match (self.stage, answer) {
            (Stage::Meta, Answer::Meta(_)) => true,
            (Stage::UrlContent, Answer::Content(_)) => true,
            (Stage::PlainContent, Answer::Content(_)) => true,
            (Stage::Cache, Answer::Cached(_)) => true,
            (Stage::Lock, Answer::Locked) => true,
            (Stage::CacheAgain, Answer::Cached(_)) => true,
            (Stage::RenderContent, Answer::Content(_)) => true,
            (Stage::Render, Answer::Rendered(_)) => true,
            _ => false,
        }
    }

    fn key(&self, state: &AppState) -> (r: String)
        ensures
            r@ == self@.key(*state),
    {
        render_cache_key(state, self.id.as_str(), self.extension())
    }

    fn reply(self, reply: Reply) -> (r: (ShowPaste, Action))
        ensures
            (r.0@, r.1@) == self@.reply(reply@),
    {
        (ShowPaste { stage: Stage::Done, ..self }, Action::Send(reply))
    }

    fn load(self, stage: Stage) -> (r: (ShowPaste, Action))
        ensures
            (r.0@, r.1@) == self@.load(stage),
    {
        let id: String = self.id.clone();
        (ShowPaste { stage, ..self }, Action::LoadContent { id })
    }

    fn not_found(self) -> (r: (ShowPaste, Action))
        ensures
            (r.0@, r.1@) == self@.reply(not_found()),
    {
        self.reply(Reply::Fail(AppError::NotFound("Paste not found.".to_owned())))
    }

    fn shown(self, state: &AppState) -> (r: (ShowPaste, Action))
        ensures
            (r.0@, r.1@) == self@.shown(*state),
    {
        if self.wanted == Wanted::Plain {
            if let Some(c) = &self.content {
                let content: String = c.clone();
                return self.reply(Reply::Plain(content));
            }
            return self.load(Stage::PlainContent);
        }
        let key: String = self.key(state);
        (ShowPaste { stage: Stage::Cache, ..self }, Action::LookUp { key })
    }

    fn render(self, content: String) -> (r: (ShowPaste, Action))
        ensures
            (r.0@, r.1@) == self@.render(content@),
    {
        let extension: Option<String> = match self.extension() {
            Some(e) => Some(e.to_owned()),
            None => None,
        };
        (ShowPaste { stage: Stage::Render, ..self }, Action::Render { extension, content })
    }

    fn with_meta(self, state: &AppState, meta: Option<PasteMeta>) -> (r: (ShowPaste, Action))
        ensures
            (r.0@, r.1@) == self@.answered(*state, Answer::Meta(meta)@),
    {
        match meta {
            None => self.not_found(),
            Some(m) => {
                let redirects: bool = self.wanted != Wanted::Preview && head_may_be_url(
                    m.head.as_str(),
                );
                let known = ShowPaste { id: m.id, language: m.language, ..self };
                if redirects {
                    known.load(Stage::UrlContent)
                } else {
                    known.shown(state)
                }
            },
        }
    }

    fn with_content(self, state: &AppState, content: Option<String>) -> (r: (ShowPaste, Action))
        requires
            awaits(self.stage, Answer::Content(content)@),
        ensures
            (r.0@, r.1@) == self@.answered(*state, Answer::Content(content)@),
    {
        match content {
            None => self.not_found(),
            Some(c) => {
                if self.stage == Stage::UrlContent {
                    if is_url(c.as_str()) {
                        return self.reply(Reply::Redirect(trim(c.as_str()).to_owned()));
                    }
                    return (ShowPaste { content: Some(c), ..self }).shown(state);
                }
                if self.stage == Stage::PlainContent {
                    return self.reply(Reply::Plain(c));
                }
                self.render(c)
            },
        }
    }

    fn with_cached(self, state: &AppState, rendered: Option<Rendered>) -> (r: (ShowPaste, Action))
        requires
            awaits(self.stage, Answer::Cached(rendered)@),
        ensures
            (r.0@, r.1@) == self@.answered(*state, Answer::Cached(rendered)@),
    {
        match rendered {
            Some(found) => self.reply(Reply::Show(found, None)),
            None => {
                if self.stage == Stage::Cache {
                    let key: String = self.key(state);
                    return (ShowPaste { stage: Stage::Lock, ..self }, Action::Lock { key });
                }
                if let Some(c) = &self.content {
                    let content: String = c.clone();
                    return self.render(content);
                }
                self.load(Stage::RenderContent)
            },
        }
    }

    fn with_rendered(self, state: &AppState, rendered: Option<Rendered>) -> (r: (ShowPaste, Action))
        ensures
            (r.0@, r.1@) == self@.answered(*state, Answer::Rendered(rendered)@),
    {
        match rendered {
            None => {
                let message: String = if self.wanted == Wanted::Preview {
                    "preview generation failed".to_owned()
                } else {
                    "rendering failed".to_owned()
                };
                self.reply(Reply::Fail(AppError::InternalMessage(message)))
            },
            Some(made) => {
                let size: usize = match &made {
                    Rendered::Page(html) => html.as_str().as_bytes().len(),
                    Rendered::Image(_) => 0,
                };
                let key: Option<String> = if size <= state.render_cache_max_entry_bytes {
                    Some(self.key(state))
                } else {
                    None
                };
                self.reply(Reply::Show(made, key))
            },
        }
    }

    /// Decides what follows an answer.
    pub fn answer(self, state: &AppState, answer: Answer) -> (r: (ShowPaste, Action))
        requires
            awaits(self.stage, answer@),
        ensures
            (r.0@, r.1@) == self@.answered(*state, answer@),
    {
        match answer {
            Answer::Meta(meta) => self.with_meta(state, meta),
            Answer::Content(content) => self.with_content(state, content),
            Answer::Cached(rendered) => self.with_cached(state, rendered),
            Answer::Locked => {
                let key: String = self.key(state);
                (ShowPaste { stage: Stage::CacheAgain, ..self }, Action::LookUp { key })
            },
            Answer::Rendered(rendered) => self.with_rendered(state, rendered),
        }
    }
}

/// The answer to a request for the raw content of a paste.
pub open spec fn raw_reply(content: Option<Seq<char>>) -> ReplyView {
    match content {
        Some(c) => ReplyView::Plain(c),
        None => not_found(),
    }
}

/// Answers a request for the raw content of a paste.
pub fn raw_content(content: Option<String>) -> (r: AppResult<String>)
    ensures
        r matches Ok(text) ==> raw_reply(crate::db::opt(content)) == ReplyView::Plain(text@),
        r matches Err(e) ==> raw_reply(crate::db::opt(content)) == ReplyView::Fail(e@),
        match content {
            Some(c) => r matches Ok(text) && text@ == c@,
            None => r matches Err(e) && ReplyView::Fail(e@) == not_found(),
        },
{
    match content {
        Some(c) => Ok(c),
        None => Err(AppError::NotFound("Paste not found.".to_owned())),
    }
}

/// Whether an action gets an answer that the stage waits for.
pub open spec fn suits(stage: Stage, action: ActionView) -> bool {
    match action {
        ActionView::LoadMeta { .. } => stage == Stage::Meta,
        ActionView::LoadContent { .. } => stage == Stage::UrlContent || stage == Stage::PlainContent
            || stage == Stage::RenderContent,
        ActionView::LookUp { .. } => stage == Stage::Cache || stage == Stage::CacheAgain,
        ActionView::Lock { .. } => stage == Stage::Lock,
        ActionView::Render { .. } => stage == Stage::Render,
        ActionView::Send(_) => stage == Stage::Done,
    }
}

/// The stages in the order in which a request goes through them.
pub open spec fn rank(stage: Stage) -> int {
    match stage {
        Stage::Meta => 0,
        Stage::UrlContent => 1,
        Stage::PlainContent => 2,
        Stage::Cache => 3,
        Stage::Lock => 4,
        Stage::CacheAgain => 5,
        Stage::RenderContent => 6,
        Stage::Render => 7,
        Stage::Done => 8,
    }
}

/// Every request comes to an end: each answer moves it on, and the next action is one whose answer
/// it then waits for.
pub proof fn law_requests_end(show: ShowView, state: AppState, answer: AnswerView)
    requires
        awaits(show.stage, answer),
    ensures
        rank(show.stage) < rank(show.answered(state, answer).0.stage) <= 8,
        suits(
            show.answered(state, answer).0.stage,
            show.answered(state, answer).1,
        ),
{
}

/// A paste that does not exist, has expired or is deleted meanwhile is answered as not found.
pub proof fn law_missing_pastes_are_not_found(show: ShowView, state: AppState)
    ensures
        awaits(show.stage, AnswerView::Meta(None)) ==> show.answered(
            state,
            AnswerView::Meta(None),
        ).1 == ActionView::Send(not_found()),
        awaits(show.stage, AnswerView::Content(None)) ==> show.answered(
            state,
            AnswerView::Content(None),
        ).1 == ActionView::Send(not_found()),
{
}

/// A paste that holds a URL redirects there, for browsers and command-line clients alike, however
/// much white space stands before it.
pub proof fn law_url_pastes_redirect(
    state: AppState,
    paste_ref: Seq<char>,
    wanted: Wanted,
    meta: MetaView,
    content: Seq<char>,
    seen: int,
)
    requires
        wanted != Wanted::Preview,
        0 <= seen,
        meta.head == crate::handlers::head_of(content, seen),
        crate::handlers::names_url(content),
    ensures
        ({
            let first = ShowView::start(paste_ref, wanted).answered(
                state,
                AnswerView::Meta(Some(meta)),
            );
            let second = first.0.answered(state, AnswerView::Content(Some(content)));
            &&& first.1 == ActionView::LoadContent { id: meta.id }
            &&& second.1 == ActionView::Send(ReplyView::Redirect(crate::text::trimmed(content)))
        }),
{
    crate::handlers::law_head_admits_every_url(content, seen);
}

/// A client that does not ask for HTML gets the content of a paste as it is, unless that is a URL.
pub proof fn law_plain_clients_get_the_content(
    state: AppState,
    paste_ref: Seq<char>,
    meta: MetaView,
    content: Seq<char>,
)
    requires
        !crate::handlers::names_url(content),
    ensures
        ({
            let first = ShowView::start(paste_ref, Wanted::Plain).answered(
                state,
                AnswerView::Meta(Some(meta)),
            );
            let second = first.0.answered(state, AnswerView::Content(Some(content)));
            &&& first.1 == ActionView::LoadContent { id: meta.id }
            &&& second.1 == ActionView::Send(ReplyView::Plain(content))
        }),
{
}

/// An extension in the reference decides how a paste is shown, whatever language is stored with
/// it; without one, the stored language does.
pub proof fn law_language_hint_wins(show: ShowView, id: Seq<char>, extension: Seq<char>)
    requires
        id.len() > 0,
        extension.len() > 0,
        !extension.contains('.'),
    ensures
        show.paste_ref == id + seq!['.'] + extension ==> show.extension() == Some(extension)
            && show.first_action() == (ActionView::LoadMeta { id }),
        show.paste_ref == id && !id.contains('.') ==> show.extension() == show.language
            && show.first_action() == (ActionView::LoadMeta { id }),
{
    crate::db::law_reference_is_split_again(id, extension);
    if !id.contains('.') {
        crate::db::law_plain_id_is_kept(id);
    }
}

/// What is in the cache is sent as it is, at the first look or at the second.
pub proof fn law_cached_views_are_sent(
    show: ShowView,
    state: AppState,
    rendered: crate::cache::RenderedView,
)
    requires
        show.stage == Stage::Cache || show.stage == Stage::CacheAgain,
    ensures
        show.answered(state, AnswerView::Cached(Some(rendered))).1 == ActionView::Send(
            ReplyView::Show(rendered, None),
        ),
{
}

/// A view is cached under the key under which it was looked up, and rendered with the extension
/// that the key was made for.
pub proof fn law_views_are_cached_where_they_are_looked_up(
    show: ShowView,
    state: AppState,
    answer: AnswerView,
)
    requires
        awaits(show.stage, answer),
        show.stage != Stage::Meta,
    ensures
        show.answered(state, answer).0.key(state) == show.key(state),
        match show.answered(state, answer).1 {
            ActionView::LookUp { key } => key == show.key(state),
            ActionView::Lock { key } => key == show.key(state),
            ActionView::Render { extension, .. } => extension == show.extension(),
            ActionView::Send(ReplyView::Show(_, Some(key))) => key == show.key(state),
            _ => true,
        },
{
}

/// A request after some answers, and what it was told to do: first of all to read what is known of
/// the paste, and then one thing after each answer.
pub open spec fn run_of(
    state: AppState,
    paste_ref: Seq<char>,
    wanted: Wanted,
    answers: Seq<AnswerView>,
) -> (ShowView, Seq<ActionView>)
    decreases answers.len(),
{
    if answers.len() == 0 {
        let show = ShowView::start(paste_ref, wanted);
        (show, seq![show.first_action()])
    } else {
        let before = run_of(state, paste_ref, wanted, answers.drop_last());
        let next = before.0.answered(state, answers.last());
        (next.0, before.1.push(next.1))
    }
}

/// Whether each answer is one that the request waits for when it comes.
pub open spec fn are_awaited(
    state: AppState,
    paste_ref: Seq<char>,
    wanted: Wanted,
    answers: Seq<AnswerView>,
) -> bool {
    forall|i: int|
        0 <= i < answers.len() ==> awaits(
            (#[trigger] run_of(state, paste_ref, wanted, answers.take(i))).0.stage,
            answers[i],
        )
}

/// Whether an action does with the content of a paste only what the content allows: it is rendered
/// and sent as it is, and redirects to what it holds.
pub open spec fn is_faithful(action: ActionView, content: Seq<char>) -> bool {
    match action {
        ActionView::Render { content: c, .. } => c == content,
        ActionView::Send(ReplyView::Plain(c)) => c == content,
        ActionView::Send(ReplyView::Redirect(url)) => url == crate::text::trimmed(content)
            && crate::handlers::names_url(content),
        _ => true,
    }
}

proof fn lemma_runs_are_faithful(
    state: AppState,
    paste_ref: Seq<char>,
    wanted: Wanted,
    answers: Seq<AnswerView>,
    content: Seq<char>,
)
    requires
        are_awaited(state, paste_ref, wanted, answers),
        forall|i: int|
            0 <= i < answers.len() ==> (#[trigger] answers[i] matches AnswerView::Content(Some(c))
                ==> c == content),
    ensures
        ({
            let run = run_of(state, paste_ref, wanted, answers);
            &&& run.1.len() == answers.len() + 1
            &&& run.0.wanted == wanted
            &&& run.0.content matches Some(c) ==> c == content
            &&& forall|i: int| 0 <= i < run.1.len() ==> is_faithful(#[trigger] run.1[i], content)
        }),
    decreases answers.len(),
{
    if answers.len() > 0 {
        let head = answers.drop_last();
        assert forall|i: int| 0 <= i < head.len() implies awaits(
            (#[trigger] run_of(state, paste_ref, wanted, head.take(i))).0.stage,
            head[i],
        ) by {
            assert(head.take(i) =~= answers.take(i));
            assert(awaits(
                run_of(state, paste_ref, wanted, answers.take(i)).0.stage,
                answers[i],
            ));
        }
        assert forall|i: int| 0 <= i < head.len() implies (#[trigger] head[i] matches AnswerView::Content(
            Some(c),
        ) ==> c == content) by {
            assert(head[i] == answers[i]);
        }
        lemma_runs_are_faithful(state, paste_ref, wanted, head, content);
        let last = answers.len() - 1;
        assert(answers.take(last) =~= head);
        assert(awaits(run_of(state, paste_ref, wanted, answers.take(last)).0.stage, answers[last]));
        assert(answers[last] == answers.last());
    }
}

/// What is rendered, sent as plain text or redirected to is what is stored: in a run in which the
/// paste always reads as `content`, no action works on anything else, whenever it was read.
pub proof fn law_stored_content_is_shown(
    state: AppState,
    paste_ref: Seq<char>,
    wanted: Wanted,
    answers: Seq<AnswerView>,
    content: Seq<char>,
    i: int,
)
    requires
        are_awaited(state, paste_ref, wanted, answers),
        forall|i: int|
            0 <= i < answers.len() ==> (#[trigger] answers[i] matches AnswerView::Content(Some(c))
                ==> c == content),
        0 <= i <= answers.len(),
    ensures
        ({
            let actions = run_of(state, paste_ref, wanted, answers).1;
            &&& actions.len() == answers.len() + 1
            &&& actions[i] matches ActionView::Render { content: c, .. } ==> c == content && wanted
                != Wanted::Plain
            &&& actions[i] matches ActionView::Send(ReplyView::Plain(c)) ==> c == content && wanted
                == Wanted::Plain
            &&& actions[i] matches ActionView::Send(ReplyView::Redirect(url)) ==> url
                == crate::text::trimmed(content) && crate::handlers::names_url(content) && wanted
                != Wanted::Preview
        }),
    decreases answers.len(),
{
    lemma_runs_are_faithful(state, paste_ref, wanted, answers, content);
    let actions = run_of(state, paste_ref, wanted, answers).1;
    assert(is_faithful(actions[i], content));
    lemma_wanted(state, paste_ref, wanted, answers, i);
}

proof fn lemma_wanted(
    state: AppState,
    paste_ref: Seq<char>,
    wanted: Wanted,
    answers: Seq<AnswerView>,
    i: int,
)
    requires
        are_awaited(state, paste_ref, wanted, answers),
        0 <= i <= answers.len(),
    ensures
        ({
            let run = run_of(state, paste_ref, wanted, answers);
            &&& run.1.len() == answers.len() + 1
            &&& run.0.wanted == wanted
            &&& run.0.stage == Stage::PlainContent ==> wanted == Wanted::Plain
            &&& run.0.stage == Stage::UrlContent ==> wanted != Wanted::Preview
            &&& rank(run.0.stage) >= 3 && run.0.stage != Stage::Done ==> wanted != Wanted::Plain
            &&& run.1[i] matches ActionView::Render { .. } ==> wanted != Wanted::Plain
            &&& run.1[i] matches ActionView::Send(ReplyView::Plain(_)) ==> wanted == Wanted::Plain
            &&& run.1[i] matches ActionView::Send(ReplyView::Redirect(_)) ==> wanted
                != Wanted::Preview
        }),
    decreases answers.len(),
{
    if answers.len() > 0 {
        let head = answers.drop_last();
        assert forall|j: int| 0 <= j < head.len() implies awaits(
            (#[trigger] run_of(state, paste_ref, wanted, head.take(j))).0.stage,
            head[j],
        ) by {
            assert(head.take(j) =~= answers.take(j));
            assert(awaits(
                run_of(state, paste_ref, wanted, answers.take(j)).0.stage,
                answers[j],
            ));
        }
        let last = answers.len() - 1;
        lemma_wanted(
            state,
            paste_ref,
            wanted,
            head,
            if i <= last {
                i
            } else {
                last
            },
        );
        assert(answers.take(last) =~= head);
        assert(awaits(run_of(state, paste_ref, wanted, answers.take(last)).0.stage, answers[last]));
        assert(answers[last] == answers.last());
    }
}

/// What a request is told to do for a page or a preview that is not in the cache: to look into the
/// cache, to lock the key, to look again, to read the content unless it has been read, to render
/// it, and to send the outcome, which is cached unless it is too large.
pub proof fn law_uncached_views_are_rendered(
    state: AppState,
    paste_ref: Seq<char>,
    wanted: Wanted,
    meta: MetaView,
    content: Seq<char>,
    rendered: crate::cache::RenderedView,
)
    requires
        wanted != Wanted::Plain,
        wanted == Wanted::Preview || !crate::handlers::names_url(content),
    ensures
        ({
            let looked = wanted == Wanted::Page && crate::handlers::may_name_url(meta.head);
            let extension = match crate::db::paste_ref_parts(paste_ref).1 {
                Some(e) => Some(e),
                None => meta.language,
            };
            let key = crate::handlers::cache_key(state, meta.id, extension);
            let load = ActionView::LoadContent { id: meta.id };
            let read = AnswerView::Content(Some(content));
            let before = if looked {
                seq![AnswerView::Meta(Some(meta)), read]
            } else {
                seq![AnswerView::Meta(Some(meta))]
            };
            let after = if looked {
                seq![]
            } else {
                seq![read]
            };
            let answers = before + seq![
                AnswerView::Cached(None),
                AnswerView::Locked,
                AnswerView::Cached(None),
            ] + after + seq![AnswerView::Rendered(Some(rendered))];
            let run = run_of(state, paste_ref, wanted, answers);
            &&& are_awaited(state, paste_ref, wanted, answers)
            &&& run.0.stage == Stage::Done
            &&& run.1 == seq![
                ActionView::LoadMeta { id: crate::db::paste_ref_parts(paste_ref).0 },
            ] + (if looked {
                seq![load]
            } else {
                seq![]
            }) + seq![
                ActionView::LookUp { key },
                ActionView::Lock { key },
                ActionView::LookUp { key },
            ] + (if looked {
                seq![]
            } else {
                seq![load]
            }) + seq![
                ActionView::Render { extension, content },
                ActionView::Send(
                    ReplyView::Show(
                        rendered,
                        if rendered matches crate::cache::RenderedView::Page(html)
                            && crate::lines::size(html) > state.render_cache_max_entry_bytes {
                            None
                        } else {
                            Some(key)
                        },
                    ),
                ),
            ]
        }),
{
    let looked = wanted == Wanted::Page && crate::handlers::may_name_url(meta.head);
    let read = AnswerView::Content(Some(content));
    let extension = match crate::db::paste_ref_parts(paste_ref).1 {
        Some(e) => Some(e),
        None => meta.language,
    };
    let key = crate::handlers::cache_key(state, meta.id, extension);
    let load = ActionView::LoadContent { id: meta.id };
    let first = ActionView::LoadMeta { id: crate::db::paste_ref_parts(paste_ref).0 };
    let shown = if rendered matches crate::cache::RenderedView::Page(html) && crate::lines::size(html)
        > state.render_cache_max_entry_bytes {
        None
    } else {
        Some(key)
    };
    let all = if looked {
        seq![
            AnswerView::Meta(Some(meta)),
            read,
            AnswerView::Cached(None),
            AnswerView::Locked,
            AnswerView::Cached(None),
            AnswerView::Rendered(Some(rendered)),
        ]
    } else {
        seq![
            AnswerView::Meta(Some(meta)),
            AnswerView::Cached(None),
            AnswerView::Locked,
            AnswerView::Cached(None),
            read,
            AnswerView::Rendered(Some(rendered)),
        ]
    };
    let before = if looked {
        seq![AnswerView::Meta(Some(meta)), read]
    } else {
        seq![AnswerView::Meta(Some(meta))]
    };
    let after = if looked {
        seq![]
    } else {
        seq![read]
    };
    let answers = before + seq![
        AnswerView::Cached(None),
        AnswerView::Locked,
        AnswerView::Cached(None),
    ] + after + seq![AnswerView::Rendered(Some(rendered))];
    assert(answers =~= all);
    let s0 = ShowView::start(paste_ref, wanted);
    let known = ShowView { id: meta.id, language: meta.language, ..s0 };
    let kept = if looked {
        ShowView { content: Some(content), ..known }
    } else {
        known
    };
    let stages = if looked {
        seq![
            s0,
            known.at(Stage::UrlContent),
            kept.at(Stage::Cache),
            kept.at(Stage::Lock),
            kept.at(Stage::CacheAgain),
            kept.at(Stage::Render),
            kept.at(Stage::Done),
        ]
    } else {
        seq![
            s0,
            kept.at(Stage::Cache),
            kept.at(Stage::Lock),
            kept.at(Stage::CacheAgain),
            kept.at(Stage::RenderContent),
            kept.at(Stage::Render),
            kept.at(Stage::Done),
        ]
    };
    let actions = if looked {
        seq![
            first,
            load,
            ActionView::LookUp { key },
            ActionView::Lock { key },
            ActionView::LookUp { key },
            ActionView::Render { extension, content },
            ActionView::Send(ReplyView::Show(rendered, shown)),
        ]
    } else {
        seq![
            first,
            ActionView::LookUp { key },
            ActionView::Lock { key },
            ActionView::LookUp { key },
            load,
            ActionView::Render { extension, content },
            ActionView::Send(ReplyView::Show(rendered, shown)),
        ]
    };
    assert(known.extension() == extension);
    assert(kept.extension() == extension);
    assert forall|i: int| 0 <= i < 6 implies #[trigger] stages[i].answered(state, all[i]) == (
        stages[i + 1],
        actions[i + 1],
    ) by {
        if i == 0 {
            assert(s0.answered(state, all[0]) == (stages[1], actions[1]));
        } else if i == 1 {
            assert(stages[1].answered(state, all[1]) == (stages[2], actions[2]));
        } else if i == 2 {
            assert(stages[2].answered(state, all[2]) == (stages[3], actions[3]));
        } else if i == 3 {
            assert(stages[3].answered(state, all[3]) == (stages[4], actions[4]));
        } else if i == 4 {
            assert(stages[4].answered(state, all[4]) == (stages[5], actions[5]));
        } else {
            assert(stages[5].answered(state, all[5]) == (stages[6], actions[6]));
        }
    }
    lemma_run(state, paste_ref, wanted, all, stages, actions, 6);
    assert(all.take(6) =~= all);
    assert(actions.take(7) =~= actions);
    assert forall|i: int| 0 <= i < all.len() implies awaits(
        (#[trigger] run_of(state, paste_ref, wanted, all.take(i))).0.stage,
        all[i],
    ) by {
        lemma_run(state, paste_ref, wanted, all, stages, actions, i);
        assert(awaits(stages[i].stage, all[i]));
    }
    assert(actions =~= seq![first] + (if looked {
        seq![load]
    } else {
        seq![]
    }) + seq![
        ActionView::LookUp { key },
        ActionView::Lock { key },
        ActionView::LookUp { key },
    ] + (if looked {
        seq![]
    } else {
        seq![load]
    }) + seq![
        ActionView::Render { extension, content },
        ActionView::Send(ReplyView::Show(rendered, shown)),
    ]);
}

proof fn lemma_run(
    state: AppState,
    paste_ref: Seq<char>,
    wanted: Wanted,
    answers: Seq<AnswerView>,
    stages: Seq<ShowView>,
    actions: Seq<ActionView>,
    n: int,
)
    requires
        stages.len() == answers.len() + 1,
        actions.len() == answers.len() + 1,
        stages[0] == ShowView::start(paste_ref, wanted),
        actions[0] == stages[0].first_action(),
        forall|i: int|
            0 <= i < answers.len() ==> #[trigger] stages[i].answered(state, answers[i]) == (
                stages[i + 1],
                actions[i + 1],
            ),
        0 <= n <= answers.len(),
    ensures
        run_of(state, paste_ref, wanted, answers.take(n)) == (stages[n], actions.take(n + 1)),
    decreases n,
{
    if n == 0 {
        assert(answers.take(0) =~= seq![]);
        assert(actions.take(1) =~= seq![actions[0]]);
    } else {
        lemma_run(state, paste_ref, wanted, answers, stages, actions, n - 1);
        assert(answers.take(n).drop_last() =~= answers.take(n - 1));
        assert(answers.take(n).last() == answers[n - 1]);
        assert(stages[n - 1].answered(state, answers[n - 1]) == (stages[n], actions[n]));
        assert(actions.take(n).push(actions[n]) =~= actions.take(n + 1));
    }
}

/// A paste that is stored reads back: asked for as plain text or raw, it is what was given, but for
/// carriage returns at its very end.
pub proof fn law_pastes_are_read_back(
    state: AppState,
    form: crate::extractors::FormView,
    id: Seq<char>,
    now: i64,
    paste_ref: Seq<char>,
    head: Seq<char>,
    content: Seq<char>,
)
    requires
        form.content == Some(content),
        content.len() > 0,
        content.last() != '\r',
        !crate::handlers::names_url(content),
        crate::db::prepared(crate::db::sanitized_form(form), id, now) is Ok,
    ensures
        ({
            let stored = crate::db::prepared(crate::db::sanitized_form(form), id, now)->Ok_0;
            let meta = MetaView { id: stored.id, language: stored.language, head };
            let answers = seq![
                AnswerView::Meta(Some(meta)),
                AnswerView::Content(Some(stored.content)),
            ];
            &&& run_of(state, paste_ref, Wanted::Plain, answers).1.last() == ActionView::Send(
                ReplyView::Plain(content),
            )
            &&& raw_reply(Some(stored.content)) == ReplyView::Plain(content)
        }),
{
    let stored = crate::db::prepared(crate::db::sanitized_form(form), id, now)->Ok_0;
    crate::db::law_stored_pastes_hold_the_form(crate::db::sanitized_form(form), id, now);
    crate::db::law_content_is_stored_as_given(form);
    let meta = MetaView { id: stored.id, language: stored.language, head };
    let answers = seq![
        AnswerView::Meta(Some(meta)),
        AnswerView::Content(Some(stored.content)),
    ];
    law_plain_clients_get_the_content(state, paste_ref, meta, content);
    assert(answers.drop_last() =~= seq![AnswerView::Meta(Some(meta))]);
    assert(answers.drop_last().drop_last() =~= seq![]);
    let start = run_of(state, paste_ref, Wanted::Plain, seq![]);
    let first = run_of(state, paste_ref, Wanted::Plain, answers.drop_last());
    assert(first.0 == start.0.answered(state, AnswerView::Meta(Some(meta))).0);
}

/// A paste that cannot be rendered is answered with an error of the server, and one that is not
/// there with one of the client.
pub proof fn law_failures_are_reported(show: ShowView, state: AppState)
    requires
        show.stage == Stage::Render,
    ensures
        show.answered(state, AnswerView::Rendered(None)).1 matches ActionView::Send(
            ReplyView::Fail(e),
        ) && e.status() == 500 && e == crate::error::ErrorView::InternalMessage(
            if show.wanted == Wanted::Preview {
                "preview generation failed"@
            } else {
                "rendering failed"@
            },
        ),
        not_found() matches ReplyView::Fail(e) && e.status() == 404 && e
            == crate::error::ErrorView::NotFound("Paste not found."@),
{
}

} // verus!
