use rustbin::response::{negotiate, wants_html, Negotiated, PlainAlternate, RequestHeaders};

fn accept(value: &str) -> RequestHeaders {
    RequestHeaders {
        entries: vec![("accept".to_string(), value.to_string())],
    }
}

#[test]
fn browser_accept_wants_html() {
    assert!(wants_html(&accept(
        "text/html,application/xhtml+xml,application/xml;q=0.9,*/*;q=0.8"
    )));
}

#[test]
fn curl_default_accept_gets_plain_text() {
    assert!(!wants_html(&accept("*/*")));
}

#[test]
fn missing_accept_gets_plain_text() {
    assert!(!wants_html(&RequestHeaders { entries: vec![] }));
}

#[test]
fn only_text_is_negotiated() {
    assert_eq!(
        negotiate(false, Some("image/png"), true) == Negotiated::AsIs,
        true
    );
    assert!(negotiate(false, None, true) == Negotiated::AsIs);
    assert!(negotiate(false, Some("text/html; charset=utf-8"), true) == Negotiated::PlainText);
    assert!(negotiate(true, Some("text/html; charset=utf-8"), true) == Negotiated::Marked);
    assert!(negotiate(false, Some("text/plain"), false) == Negotiated::Marked);
    assert!(negotiate(false, Some("application/text/html"), true) == Negotiated::AsIs);
}

#[test]
fn plain_alternate_carries_its_text() {
    let alternate = PlainAlternate("text".to_string());
    assert_eq!(alternate.clone().0, "text");
}
