use rustbin::config::{Config, EnvVars};
use rustbin::handlers::{
    build_paste_url, cli_usage_text, complete_form, create_reply, detect_form_language,
    forwarded_header, head_may_be_url, is_url, render_cache_key, render_content, request_origin,
    CreateReply,
};
use rustbin::highlighter::LanguageDetection;
use rustbin::response::{header_value, RequestHeaders};
use rustbin::state::{AppState, CreatePasteForm};
use rustbin::syntax::Syntaxes;
use syntect::highlighting::ThemeSet;
use syntect::parsing::SyntaxSet;

fn some(text: &str) -> Option<String> {
    Some(text.to_string())
}

fn headers(entries: &[(&str, &str)]) -> RequestHeaders {
    RequestHeaders {
        entries: entries
            .iter()
            .map(|(n, v)| (n.to_string(), v.to_string()))
            .collect(),
    }
}

fn plain_state() -> AppState {
    let config = Config::from_vars(EnvVars {
        database_url: None,
        base_url: None,
        host: None,
        port: None,
        max_paste_size: None,
        classifier_max_bytes: None,
        highlight_max_bytes: None,
        render_cache_max_entry_bytes: None,
        render_cache_capacity: None,
        cleanup_interval: None,
        db_min_connections: None,
        db_max_connections: None,
    })
    .ok()
    .unwrap();
    AppState::new(
        Syntaxes::new(SyntaxSet::load_defaults_newlines()),
        ThemeSet::load_defaults().themes["InspiredGitHub"].clone(),
        &config,
    )
}

#[test]
fn urls_are_recognized() {
    assert!(is_url("https://example.com"));
    assert!(is_url(" \n http://example.com/a b \r\n"));
    assert!(!is_url("http://a\nhttp://b"));
    assert!(!is_url("http://a\u{7f}"));
    assert!(!is_url("HTTP://a"));
    assert!(!is_url("http:/a"));
    assert!(!is_url("see http://a"));
    assert!(!is_url(""));
}

#[test]
fn heads_admit_urls() {
    assert!(head_may_be_url("http"));
    assert!(head_may_be_url("htt"));
    assert!(head_may_be_url("  \n"));
    assert!(head_may_be_url(""));
    assert!(!head_may_be_url("fn main() {}"));
    assert!(!head_may_be_url("\u{e9}\u{e9}"));
    for spaces in 0..40 {
        let content = format!("{}https://example.com", " ".repeat(spaces));
        let head: String = content.chars().take(16).collect();
        assert!(is_url(&content) && head_may_be_url(&head), "{spaces}");
    }
}

#[test]
fn headers_are_looked_up_by_name() {
    let h = headers(&[("host", "a"), ("host", "b"), ("x-forwarded-for", " 1 , 2")]);
    assert_eq!(header_value(&h, "host"), Some("a"));
    assert_eq!(header_value(&h, "Host"), None);
    assert_eq!(forwarded_header(&h, "x-forwarded-for"), Some("1"));
    assert_eq!(forwarded_header(&h, "x-forwarded-host"), None);
}

#[test]
fn origins_follow_the_proxy() {
    assert_eq!(request_origin(None, &headers(&[])), "http://localhost");
    assert_eq!(
        request_origin(None, &headers(&[("host", "h:1")])),
        "http://h:1"
    );
    let proxied = headers(&[
        ("host", "h:1"),
        ("x-forwarded-host", "bin.example.com, inner"),
        ("x-forwarded-proto", "https,http"),
        ("x-forwarded-prefix", "/p"),
    ]);
    assert_eq!(request_origin(None, &proxied), "https://bin.example.com/p");
    assert_eq!(build_paste_url(None, &proxied, "id"), "https://bin.example.com/p/id");
}

#[test]
fn origins_do_not_end_in_a_slash() {
    let bare = headers(&[("host", "example.com"), ("x-forwarded-prefix", "/")]);
    assert_eq!(request_origin(None, &bare), "http://example.com");
    assert_eq!(build_paste_url(None, &bare, "id"), "http://example.com/id");
    let deep = headers(&[("host", "example.com"), ("x-forwarded-prefix", "/a/b//")]);
    assert_eq!(request_origin(None, &deep), "http://example.com/a/b");
    assert_eq!(build_paste_url(None, &deep, "id"), "http://example.com/a/b/id");
}

#[test]
fn configured_address_wins() {
    let spoofed = headers(&[("x-forwarded-host", "evil.example.com")]);
    assert_eq!(
        request_origin(Some("https://bin.example.com"), &spoofed),
        "https://bin.example.com"
    );
    assert_eq!(
        build_paste_url(Some("https://bin.example.com"), &spoofed, "id"),
        "https://bin.example.com/id"
    );
}

#[test]
fn usage_notes_are_exact() {
    let text = cli_usage_text(Some("O"), &headers(&[]));
    assert_eq!(
        text,
        "rustbin — minimalist pastebin and URL shortener\n\
         \n\
         Create a paste:    curl -F 'file=@example.txt' O/\n\
         With expiry:       curl -F 'file=@example.txt' -F 'expires_in=3600' O/\n\
         \x20                  (expires_in: positive seconds or 'never')\n\
         Read a paste:      curl O/<id>\n\
         Shorten a URL:     echo 'https://example.com' | curl -F 'file=@-' O/\n\
         \n\
         In a browser, O/<id> renders with line links; add an extension\n\
         (O/<id>.rs) to pick the syntax; O/<id>/raw is plain text.\n"
    );
}

#[test]
fn cache_keys_fold_what_changes_nothing() {
    let state = plain_state();
    let key = |e| render_cache_key(&state, "id", e);
    assert_eq!(key(None), "id");
    assert_eq!(key(Some("nonsense")), "id");
    assert_eq!(key(Some("")), "id");
    assert_eq!(key(Some("RS")), "id:rs");
    assert_eq!(key(Some(" rs ")), "id:rs");
    assert_eq!(key(Some("mkdn")), "id:mkdn");
    assert_ne!(key(Some("rs")), key(Some("py")));
    // One id has one key for each way to show it, also where it holds a colon.
    let odd = |e| render_cache_key(&state, "id:rs", e);
    assert_eq!(odd(None), "id:rs");
    assert_eq!(odd(Some("rs")), "id:rs:rs");
    assert_eq!(odd(Some("py")), "id:rs:py");
}

#[test]
fn equal_cache_keys_mean_equal_pages() {
    let state = plain_state();
    let content = "# T\n// x\n";
    for (a, b) in [("RS", " rs"), ("MD", "md"), ("nonsense", "gibberish")] {
        assert_eq!(
            render_cache_key(&state, "id", Some(a)),
            render_cache_key(&state, "id", Some(b))
        );
        assert_eq!(
            render_content(&state, Some(a), content),
            render_content(&state, Some(b), content)
        );
    }
    assert!(render_content(&state, Some("md"), content).starts_with("<h1>T</h1>"));
    assert!(render_content(&state, Some("rs"), content).starts_with("<div class=\"code-grid\">"));
}

fn form(filename: Option<&str>, content: Option<&str>) -> CreatePasteForm {
    CreatePasteForm {
        expires_in: None,
        filename: filename.map(str::to_string),
        language: None,
        content: content.map(str::to_string),
        from_browser: false,
    }
}

#[test]
fn languages_of_urls_are_not_detected() {
    let state = plain_state();
    let known = |f: CreatePasteForm| match detect_form_language(&state, &f) {
        LanguageDetection::Resolved(l) => l.unwrap_or("none".to_string()),
        LanguageDetection::NeedsClassifier => "classifier".to_string(),
    };
    assert_eq!(known(form(Some("a.rs"), Some("http://x"))), "none");
    assert_eq!(known(form(Some("a.rs"), Some("x"))), "rs");
    assert_eq!(known(form(None, Some("x"))), "classifier");
    assert_eq!(known(form(None, None)), "classifier");
}

#[test]
fn completed_forms_know_their_destination() {
    let done = complete_form(form(Some(" a "), Some(" http://x \r\r")), some(" RS "));
    assert_eq!(done.destination, some("http://x"));
    assert_eq!(done.form.content, some(" http://x "));
    assert_eq!(done.form.filename, some("a"));
    assert_eq!(done.form.language, some("rs"));
    assert_eq!(done.form.expires_in, some("never"));
    let done = complete_form(form(None, Some("x")), None);
    assert_eq!(done.destination, None);
    assert_eq!(done.form.language, None);
}

#[test]
fn replies_suit_the_client() {
    let browser = headers(&[("accept", "text/html")]);
    let curl = headers(&[("accept", "*/*")]);
    let base = Some("https://b");
    match create_reply(base, &browser, "id", true, some("http://x")) {
        CreateReply::UrlPage {
            location,
            destination,
        } => assert_eq!((location.as_str(), destination.as_str()), ("https://b/id", "http://x")),
        _ => panic!("no page for a URL"),
    }
    match create_reply(base, &browser, "id", true, None) {
        CreateReply::SeeOther { location } => assert_eq!(location, "https://b/id"),
        _ => panic!("a browser was not sent on"),
    }
    for (h, from_browser) in [(&curl, true), (&browser, false)] {
        match create_reply(base, h, "id", from_browser, some("http://x")) {
            CreateReply::Created { location, body } => {
                assert_eq!(location, "https://b/id");
                assert_eq!(body, "https://b/id\n");
            }
            _ => panic!("a client was not given the address"),
        }
    }
}
