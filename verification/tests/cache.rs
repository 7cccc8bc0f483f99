use std::sync::Arc;

use rustbin::cache::{RenderCache, Rendered};

fn page(text: &str) -> Rendered {
    Rendered::Page(Arc::new(text.to_string()))
}

fn text(found: Option<Rendered>) -> Option<String> {
    match found {
        Some(Rendered::Page(html)) => Some(html.as_str().to_string()),
        Some(Rendered::Image(_)) => Some("an image".to_string()),
        None => None,
    }
}

#[test]
fn stored_pages_are_found() {
    let mut cache = RenderCache::new(2);
    assert_eq!(text(cache.get("a")), None);
    cache.put("a".to_string(), page("1"));
    assert_eq!(text(cache.get("a")), Some("1".to_string()));
    cache.put("a".to_string(), page("2"));
    assert_eq!(text(cache.get("a")), Some("2".to_string()));
    assert_eq!(text(cache.get("b")), None);
}

#[test]
fn least_recently_used_page_leaves_first() {
    let mut cache = RenderCache::new(2);
    cache.put("a".to_string(), page("1"));
    cache.put("b".to_string(), page("2"));
    // Looking `a` up makes `b` the one that was not used for longest.
    assert_eq!(text(cache.get("a")), Some("1".to_string()));
    cache.put("c".to_string(), page("3"));
    assert_eq!(text(cache.get("b")), None);
    assert_eq!(text(cache.get("a")), Some("1".to_string()));
    assert_eq!(text(cache.get("c")), Some("3".to_string()));
}

#[test]
fn storing_a_known_key_evicts_nothing() {
    let mut cache = RenderCache::new(2);
    cache.put("a".to_string(), page("1"));
    cache.put("b".to_string(), page("2"));
    cache.put("a".to_string(), page("3"));
    assert_eq!(text(cache.get("b")), Some("2".to_string()));
    assert_eq!(text(cache.get("a")), Some("3".to_string()));
}

#[test]
fn shared_views_point_to_the_same_value() {
    let image = Rendered::Image(Arc::new(vec![1, 2, 3]));
    match (image.shared(), &image) {
        (Rendered::Image(a), Rendered::Image(b)) => assert!(Arc::ptr_eq(&a, b)),
        _ => panic!("the view changed its kind"),
    }
    assert_eq!(text(Some(page("x").shared())), Some("x".to_string()));
}
