use std::time::SystemTime;

use rustbin::db::{
    new_paste, parse_expiry, parse_expiry_at, prepare_paste, sanitize_form, split_paste_ref,
};
use rustbin::error::AppError;
use rustbin::state::CreatePasteForm;

fn some(text: &str) -> Option<String> {
    Some(text.to_string())
}

fn form(content: &str) -> CreatePasteForm {
    CreatePasteForm {
        expires_in: None,
        filename: None,
        language: None,
        content: some(content),
        from_browser: false,
    }
}

fn seconds_now() -> i64 {
    SystemTime::now()
        .duration_since(SystemTime::UNIX_EPOCH)
        .unwrap()
        .as_secs() as i64
}

#[test]
fn references_are_split_at_the_last_dot() {
    assert_eq!(split_paste_ref("abc123.rs"), ("abc123", Some("rs")));
    assert_eq!(split_paste_ref("abc123"), ("abc123", None));
    assert_eq!(split_paste_ref("a.b.c"), ("a.b", Some("c")));
    assert_eq!(split_paste_ref(".rs"), (".rs", None));
    assert_eq!(split_paste_ref("abc."), ("abc.", None));
    assert_eq!(split_paste_ref(""), ("", None));
}

#[test]
fn forms_are_brought_into_shape() {
    let mut raw = form("a\r\n\r\r");
    raw.expires_in = some(" 60 ");
    raw.filename = some(" x.RS ");
    raw.language = some(" RuSt ");
    raw.from_browser = true;
    let form = sanitize_form(raw);
    assert_eq!(form.expires_in, some("60"));
    assert_eq!(form.filename, some("x.RS"));
    assert_eq!(form.language, some("rust"));
    assert_eq!(form.content, some("a\r\n"));
    assert!(form.from_browser);
    let again = sanitize_form(CreatePasteForm {
        expires_in: form.expires_in.clone(),
        filename: form.filename.clone(),
        language: form.language.clone(),
        content: form.content.clone(),
        from_browser: form.from_browser,
    });
    assert_eq!(again.expires_in, form.expires_in);
    assert_eq!(again.filename, form.filename);
    assert_eq!(again.language, form.language);
    assert_eq!(again.content, form.content);

    let empty = sanitize_form(CreatePasteForm::default());
    assert_eq!(empty.expires_in, some("never"));
    assert_eq!(empty.filename, None);
    assert_eq!(empty.language, None);
    assert_eq!(empty.content, None);
    assert!(!empty.from_browser);
}

#[test]
fn expiry_is_never_or_a_lifetime() {
    assert_eq!(parse_expiry_at("never", 5), Some(None));
    assert_eq!(parse_expiry_at("", 5), Some(None));
    assert_eq!(parse_expiry_at("3600", 5), Some(Some(3605)));
    assert_eq!(parse_expiry_at("+1", 5), Some(Some(6)));
    assert_eq!(parse_expiry_at("24h", 5), Some(Some(86405)));
    assert_eq!(parse_expiry_at("0", 5), None);
    assert_eq!(parse_expiry_at("0h", 5), None);
    assert_eq!(parse_expiry_at("-1", 5), None);
    assert_eq!(parse_expiry_at("1d", 5), None);
    assert_eq!(parse_expiry_at("h", 5), None);
    assert_eq!(parse_expiry_at("Never", 5), None);
    assert_eq!(
        parse_expiry_at("9223372036854775807", 0),
        Some(Some(i64::MAX))
    );
    assert_eq!(parse_expiry_at("9223372036854775807", 1), None);
    assert_eq!(parse_expiry_at("9223372036854775808", -10), None);
    assert_eq!(parse_expiry_at("9223372036854775807h", -10), None);
}

#[test]
fn expiry_counts_from_now() {
    let before = seconds_now();
    let at = parse_expiry("100").unwrap().unwrap();
    let after = seconds_now();
    assert!(before + 100 <= at && at <= after + 100);
    assert_eq!(parse_expiry("never"), Some(None));
    assert_eq!(parse_expiry("soon"), None);
    // So long a lifetime ends before time does, whatever the clock shows; a longer one may not.
    assert!(matches!(parse_expiry("9223340036854775807"), Some(Some(_))));
    assert_eq!(parse_expiry("9223372036854775807"), None);
}

#[test]
fn new_pastes_expire_after_their_lifetime() {
    for (lifetime, seconds) in [("1", 1), ("24h", 86400), ("9223340036854775807", 9223340036854775807)] {
        let mut raw = form("x");
        raw.expires_in = some(lifetime);
        let paste = new_paste(raw).ok().unwrap();
        assert_eq!(paste.expires_at, Some(paste.created_at + seconds));
        assert!((seconds_now() - paste.created_at).abs() < 60);
    }
}

#[test]
fn empty_pastes_are_refused() {
    for raw in [form(""), CreatePasteForm::default()] {
        match prepare_paste(raw, "id".to_string(), 0) {
            Err(AppError::UnprocessableEntity(m)) => assert_eq!(m, "Can't paste empty input!"),
            _ => panic!("an empty paste was not refused"),
        }
    }
}

#[test]
fn wrong_expiries_are_refused() {
    let mut raw = form("x");
    raw.expires_in = some("tomorrow");
    match new_paste(raw) {
        Err(AppError::BadRequest(m)) => assert_eq!(m, "Invalid expiry option."),
        _ => panic!("a wrong expiry was not refused"),
    }
}

#[test]
fn prepared_pastes_hold_what_the_form_asks_for() {
    let mut raw = form("x");
    raw.expires_in = some("7");
    raw.language = some("rs");
    let paste = prepare_paste(raw, "the-id".to_string(), 100).ok().unwrap();
    assert_eq!(paste.id, "the-id");
    assert_eq!(paste.language, some("rs"));
    assert_eq!(paste.content, "x");
    assert_eq!(paste.created_at, 100);
    assert_eq!(paste.expires_at, Some(107));
}

#[test]
fn new_pastes_get_an_id_and_a_time() {
    let before = seconds_now();
    let one = new_paste(form("x")).ok().unwrap();
    let two = new_paste(form("x")).ok().unwrap();
    assert_eq!(one.id.len(), 10);
    assert!(one
        .id
        .chars()
        .all(|c| c.is_ascii_alphanumeric() || c == '_' || c == '-'));
    assert_ne!(one.id, two.id);
    assert!(before <= one.created_at && one.created_at <= seconds_now());
    assert_eq!(one.expires_at, None);
    assert_eq!(split_paste_ref(&one.id), (one.id.as_str(), None));
}

#[test]
fn errors_have_status_codes() {
    assert_eq!(AppError::NotFound(String::new()).status(), 404);
    assert_eq!(AppError::UnprocessableEntity(String::new()).status(), 422);
    assert_eq!(AppError::BadRequest(String::new()).status(), 400);
    assert_eq!(AppError::InternalMessage(String::new()).status(), 500);
}

#[test]
fn new_pastes_are_live() {
    for (lifetime, seconds) in [("1", 1), ("2h", 7200)] {
        let mut raw = form("x");
        raw.expires_in = some(lifetime);
        let paste = new_paste(raw).ok().unwrap();
        assert_eq!(paste.expires_at, Some(paste.created_at + seconds));
    }
}
