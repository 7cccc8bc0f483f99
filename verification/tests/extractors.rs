use rustbin::error::AppError;
use rustbin::extractors::{apply_field, field_kind, finish_form, set_content, FieldKind};
use rustbin::state::CreatePasteForm;

fn some(text: &str) -> Option<String> {
    Some(text.to_string())
}

fn filled(fields: &[(&str, Option<&str>, &str)]) -> CreatePasteForm {
    let mut form = CreatePasteForm::default();
    for (name, filename, value) in fields {
        apply_field(
            &mut form,
            field_kind(name),
            filename.map(|f| f.to_string()),
            value.to_string(),
        );
    }
    form
}

#[test]
fn field_names_are_told_apart() {
    assert!(field_kind("file") == FieldKind::File);
    assert!(field_kind("content") == FieldKind::Content);
    assert!(field_kind("expires_in") == FieldKind::ExpiresIn);
    assert!(field_kind("File") == FieldKind::Other);
    assert!(field_kind("") == FieldKind::Other);
}

#[test]
fn uploads_bring_their_file_name() {
    let form = filled(&[("file", Some("main.rs"), "fn main() {}")]);
    assert_eq!(form.filename, some("main.rs"));
    assert_eq!(form.content, some("fn main() {}"));
    assert!(!form.from_browser);
    assert_eq!(form.expires_in, None);
}

#[test]
fn browser_forms_are_recognized() {
    let form = filled(&[
        ("content", None, "text"),
        ("expires_in", None, "60"),
        ("other", None, "ignored"),
    ]);
    assert!(form.from_browser);
    assert_eq!(form.content, some("text"));
    assert_eq!(form.expires_in, some("60"));
    assert_eq!(form.filename, None);
}

#[test]
fn empty_uploads_discard_nothing() {
    let form = filled(&[("content", None, "text"), ("file", Some("a.rs"), "")]);
    assert_eq!(form.content, some("text"));
    assert_eq!(form.filename, None);
    let form = filled(&[("file", Some("a.rs"), ""), ("content", None, "text")]);
    assert_eq!(form.content, some("text"));
    assert_eq!(form.filename, None);
    let form = filled(&[("file", Some("a.rs"), "one"), ("content", None, "two")]);
    assert_eq!(form.content, some("two"));
    assert_eq!(form.filename, some("a.rs"));
}

#[test]
fn empty_content_is_kept_where_there_is_no_other() {
    let mut form = CreatePasteForm::default();
    set_content(&mut form, String::new());
    assert_eq!(form.content, some(""));
    set_content(&mut form, "x".to_string());
    set_content(&mut form, String::new());
    assert_eq!(form.content, some("x"));
}

#[test]
fn forms_without_content_are_refused() {
    match finish_form(filled(&[("expires_in", None, "60")])) {
        Err(AppError::BadRequest(m)) => assert_eq!(m, "Missing multipart file field `file`."),
        _ => panic!("a form without content was not refused"),
    }
    assert!(finish_form(filled(&[("file", None, "")])).is_ok());
}
