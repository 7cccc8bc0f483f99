use std::sync::Arc;

use rustbin::cache::Rendered;
use rustbin::config::{Config, EnvVars};
use rustbin::error::AppError;
use rustbin::show::{raw_content, Action, Answer, Reply, ShowPaste, Wanted};
use rustbin::state::{AppState, PasteMeta};
use rustbin::syntax::Syntaxes;
use syntect::highlighting::ThemeSet;
use syntect::parsing::SyntaxSet;

fn small_state() -> AppState {
    let config = Config::from_vars(EnvVars {
        database_url: None,
        base_url: None,
        host: None,
        port: None,
        max_paste_size: None,
        classifier_max_bytes: None,
        highlight_max_bytes: None,
        render_cache_max_entry_bytes: Some("5".to_string()),
        render_cache_capacity: None,
        cleanup_interval: None,
        db_min_connections: None,
        db_max_connections: None,
    })
    .ok()
    .unwrap();
    AppState::new(
        Syntaxes::new(SyntaxSet::load_defaults_newlines()),
        ThemeSet::load_defaults().themes["InspiredGitHub"].clone(),
        &config,
    )
}

fn meta(head: &str) -> Answer {
    Answer::Meta(Some(PasteMeta {
        id: "abc".to_string(),
        language: Some("py".to_string()),
        head: head.to_string(),
    }))
}

fn content(text: &str) -> Answer {
    Answer::Content(Some(text.to_string()))
}

fn page(text: &str) -> Rendered {
    Rendered::Page(Arc::new(text.to_string()))
}

fn described(action: &Action) -> String {
    match action {
        Action::LoadMeta { id } => format!("meta {id}"),
        Action::LoadContent { id } => format!("content {id}"),
        Action::LookUp { key } => format!("look up {key}"),
        Action::Lock { key } => format!("lock {key}"),
        Action::Render { extension, content } => {
            format!("render {content} as {}", extension.clone().unwrap_or_default())
        }
        Action::Send(Reply::Fail(AppError::NotFound(m))) => format!("not found: {m}"),
        Action::Send(Reply::Fail(AppError::InternalMessage(m))) => format!("internal: {m}"),
        Action::Send(Reply::Fail(_)) => "another error".to_string(),
        Action::Send(Reply::Redirect(url)) => format!("redirect {url}"),
        Action::Send(Reply::Plain(text)) => format!("plain {text}"),
        Action::Send(Reply::Show(Rendered::Page(html), key)) => {
            format!("page {html}, cached as {}", key.clone().unwrap_or("nothing".to_string()))
        }
        Action::Send(Reply::Show(Rendered::Image(png), key)) => {
            format!("{} bytes, cached as {}", png.len(), key.clone().unwrap_or_default())
        }
    }
}

fn run(paste_ref: &str, wanted: Wanted, answers: Vec<Answer>) -> Vec<String> {
    let state = small_state();
    let (mut show, action) = ShowPaste::new(paste_ref.to_string(), wanted);
    let mut seen = vec![described(&action)];
    for answer in answers {
        assert!(show.expects(&answer));
        let (next, action) = show.answer(&state, answer);
        show = next;
        seen.push(described(&action));
    }
    assert!(!show.expects(&Answer::Locked) || seen.last().unwrap().starts_with("lock"));
    seen
}

#[test]
fn missing_pastes_are_not_found() {
    assert_eq!(
        run("abc.rs", Wanted::Page, vec![Answer::Meta(None)]),
        ["meta abc", "not found: Paste not found."]
    );
    assert_eq!(
        run("abc", Wanted::Plain, vec![meta("x = 1"), Answer::Content(None)]),
        ["meta abc", "content abc", "not found: Paste not found."]
    );
}

#[test]
fn url_pastes_redirect() {
    for wanted in [Wanted::Page, Wanted::Plain] {
        assert_eq!(
            run("abc", wanted, vec![meta("http"), content(" http://x\n")]),
            ["meta abc", "content abc", "redirect http://x"]
        );
    }
}

#[test]
fn previews_of_url_pastes_do_not_redirect() {
    assert_eq!(
        run("abc", Wanted::Preview, vec![meta("http")]),
        ["meta abc", "look up abc:py"]
    );
}

#[test]
fn plain_clients_get_the_content() {
    assert_eq!(
        run("abc", Wanted::Plain, vec![meta("x = 1"), content("x = 1")]),
        ["meta abc", "content abc", "plain x = 1"]
    );
    assert_eq!(
        run("abc", Wanted::Plain, vec![meta("http"), content("https is good")]),
        ["meta abc", "content abc", "plain https is good"]
    );
}

#[test]
fn cached_pages_are_sent() {
    assert_eq!(
        run(
            "abc",
            Wanted::Page,
            vec![meta("x = 1"), Answer::Cached(Some(page("P")))]
        ),
        ["meta abc", "look up abc:py", "page P, cached as nothing"]
    );
}

#[test]
fn uncached_pages_are_rendered_under_a_lock() {
    assert_eq!(
        run(
            "abc.rs",
            Wanted::Page,
            vec![
                meta("x = 1"),
                Answer::Cached(None),
                Answer::Locked,
                Answer::Cached(None),
                content("x = 1"),
                Answer::Rendered(Some(page("12345"))),
            ]
        ),
        [
            "meta abc",
            "look up abc:rs",
            "lock abc:rs",
            "look up abc:rs",
            "content abc",
            "render x = 1 as rs",
            "page 12345, cached as abc:rs",
        ]
    );
}

#[test]
fn second_look_can_find_the_page() {
    assert_eq!(
        run(
            "abc",
            Wanted::Page,
            vec![
                meta("x = 1"),
                Answer::Cached(None),
                Answer::Locked,
                Answer::Cached(Some(page("P"))),
            ]
        )
        .last()
        .unwrap(),
        "page P, cached as nothing"
    );
}

#[test]
fn content_is_read_once_and_large_pages_are_not_cached() {
    assert_eq!(
        run(
            "abc",
            Wanted::Page,
            vec![
                meta("http"),
                content("httpd"),
                Answer::Cached(None),
                Answer::Locked,
                Answer::Cached(None),
                Answer::Rendered(Some(page("123456"))),
            ]
        ),
        [
            "meta abc",
            "content abc",
            "look up abc:py",
            "lock abc:py",
            "look up abc:py",
            "render httpd as py",
            "page 123456, cached as nothing",
        ]
    );
}

#[test]
fn previews_are_always_cached() {
    assert_eq!(
        run(
            "abc",
            Wanted::Preview,
            vec![
                meta("x"),
                Answer::Cached(None),
                Answer::Locked,
                Answer::Cached(None),
                content("x"),
                Answer::Rendered(Some(Rendered::Image(Arc::new(vec![0; 9])))),
            ]
        )
        .last()
        .unwrap(),
        "9 bytes, cached as abc:py"
    );
}

#[test]
fn failed_rendering_is_reported() {
    for (wanted, message) in [
        (Wanted::Page, "internal: rendering failed"),
        (Wanted::Preview, "internal: preview generation failed"),
    ] {
        let seen = run(
            "abc",
            wanted,
            vec![
                meta("x = 1"),
                Answer::Cached(None),
                Answer::Locked,
                Answer::Cached(None),
                content("x = 1"),
                Answer::Rendered(None),
            ],
        );
        assert_eq!(seen.last().unwrap(), message);
    }
}

#[test]
fn raw_content_is_sent_or_not_found() {
    assert_eq!(raw_content(Some("x".to_string())).ok().unwrap(), "x");
    match raw_content(None) {
        Err(AppError::NotFound(m)) => assert_eq!(m, "Paste not found."),
        _ => panic!("a missing paste was found"),
    }
}
