//! The form that creates a paste, field by field.

use vstd::prelude::*;
use vstd::string::*;
use crate::error::AppError;
use crate::state::{AppResult, CreatePasteForm};
use crate::text::same;

verus! {

/// The fields that a form is read for.
#[derive(Clone, Copy, PartialEq, Eq, Structural)]
pub enum FieldKind {
    /// `file`: an upload, with a file name.
    File,
    /// `content`: the text field of the page in a browser.
    Content,
    /// `expires_in`: the lifetime.
    ExpiresIn,
    /// Any other field, which is skipped.
    Other,
}

/// What the field of the given name is.
pub open spec fn kind_of(name: Seq<char>) -> FieldKind {
    if name == "file"@ {
        FieldKind::File
    } else if name == "content"@ {
        FieldKind::Content
    } else if name == "expires_in"@ {
        FieldKind::ExpiresIn
    } else {
        FieldKind::Other
    }
}

/// Tells what the field of the given name is.
pub fn field_kind(name: &str) -> (r: FieldKind)
    ensures
        r == kind_of(name@),
{
    if same(name, "file") {
        FieldKind::File
    } else if same(name, "content") {
        FieldKind::Content
    } else if same(name, "expires_in") {
        FieldKind::ExpiresIn
    } else {
        FieldKind::Other
    }
}

/// What a form holds.
pub struct FormView {
    pub expires_in: Option<Seq<char>>,
    pub filename: Option<Seq<char>>,
    pub language: Option<Seq<char>>,
    pub content: Option<Seq<char>>,
    pub from_browser: bool,
}

impl View for CreatePasteForm {
    type V = FormView;

    open spec fn view(&self) -> FormView {
        FormView {
            expires_in: crate::db::opt(self.expires_in),
            filename: crate::db::opt(self.filename),
            language: crate::db::opt(self.language),
            content: crate::db::opt(self.content),
            from_browser: self.from_browser,
        }
    }
}

/// A field of a form.
pub struct FieldView {
    pub kind: FieldKind,
    pub filename: Option<Seq<char>>,
    pub value: Seq<char>,
}

impl FormView {
    /// An empty form.
    pub open spec fn start() -> FormView {
        FormView {
            expires_in: None,
            filename: None,
            language: None,
            content: None,
            from_browser: false,
        }
    }

    /// The form with content, unless that is empty and there is some already.
    pub open spec fn with_content(self, value: Seq<char>) -> FormView {
        if value.len() > 0 || self.content is None {
            FormView { content: Some(value), ..self }
        } else {
            self
        }
    }

    /// The form after a field.
    pub open spec fn after(self, field: FieldView) -> FormView {
        match field.kind {
            FieldKind::File => FormView {
                filename: if field.value.len() > 0 {
                    field.filename
                } else {
                    self.filename
                },
                ..self.with_content(field.value)
            },
            FieldKind::Content => FormView {
                from_browser: true,
                ..self.with_content(field.value)
            },
            FieldKind::ExpiresIn => FormView { expires_in: Some(field.value), ..self },
            FieldKind::Other => self,
        }
    }

    /// The form after some fields.
    pub open spec fn after_all(self, fields: Seq<FieldView>) -> FormView
        decreases fields.len(),
    {
        if fields.len() == 0 {
            self
        } else {
            self.after_all(fields.drop_last()).after(fields.last())
        }
    }
}

/// Assigns content, but never lets an empty value overwrite content that is there already.
pub fn set_content(form: &mut CreatePasteForm, value: String)
    ensures
        final(form)@ == old(form)@.with_content(value@),
{
    if !value.as_str().is_empty() || form.content.is_none() {
        form.content = Some(value);
    }
}

/// Takes a field into a form.
pub fn apply_field(
    form: &mut CreatePasteForm,
    kind: FieldKind,
    filename: Option<String>,
    value: String,
)
    ensures
        final(form)@ == old(form)@.after(
            FieldView { kind, filename: crate::db::opt(filename), value: value@ },
        ),
{
    match kind {
        FieldKind::File => {
            if !value.as_str().is_empty() {
                form.filename = filename;
            }
            set_content(form, value);
        },
        FieldKind::Content => {
            form.from_browser = true;
            set_content(form, value);
        },
        FieldKind::ExpiresIn => {
            form.expires_in = Some(value);
        },
        FieldKind::Other => {},
    }
}

/// Whether a form can be taken: some field of it carried content.
pub open spec fn is_complete(form: FormView) -> bool {
    form.content is Some
}

/// Ends a form: without content it is refused.
pub fn finish_form(form: CreatePasteForm) -> (r: AppResult<CreatePasteForm>)
    ensures
        r matches Ok(f) ==> f == form && form@.content is Some,
        r matches Err(e) ==> form@.content is None && e@ == crate::error::ErrorView::BadRequest(
            "Missing multipart file field `file`."@,
        ),
        r is Ok <==> is_complete(form@),
{
    if form.content.is_none() {
        return Err(AppError::BadRequest("Missing multipart file field `file`.".to_owned()));
    }
    Ok(form)
}

/// Whether a field carries content.
pub open spec fn carries_content(field: FieldView) -> bool {
    field.kind == FieldKind::File || field.kind == FieldKind::Content
}

/// The last content among some fields that is not empty; failing that, empty content, if there
/// is a field for it.
pub open spec fn given_content(fields: Seq<FieldView>) -> Option<Seq<char>>
    decreases fields.len(),
{
    if fields.len() == 0 {
        None
    } else {
        let before = given_content(fields.drop_last());
        let last = fields.last();
        if carries_content(last) && (last.value.len() > 0 || before is None) {
            Some(last.value)
        } else {
            before
        }
    }
}

/// The content of a form is the last one given that is not empty, in whatever order the fields
/// come.
pub proof fn law_content_is_the_last_given(fields: Seq<FieldView>)
    ensures
        FormView::start().after_all(fields).content == given_content(fields),
    decreases fields.len(),
{
    if fields.len() > 0 {
        law_content_is_the_last_given(fields.drop_last());
    }
}

/// An empty field never takes content away: if any field gave content, the form has some.
pub proof fn law_content_is_never_lost(fields: Seq<FieldView>, i: int)
    requires
        0 <= i < fields.len(),
        carries_content(fields[i]),
        fields[i].value.len() > 0,
    ensures
        FormView::start().after_all(fields).content matches Some(content) && content.len() > 0,
    decreases fields.len(),
{
    if i < fields.len() - 1 {
        law_content_is_never_lost(fields.drop_last(), i);
    }
}

/// A form has a file name only from an upload that was not empty.
pub proof fn law_filename_comes_with_content(fields: Seq<FieldView>)
    ensures
        FormView::start().after_all(fields).filename is Some ==> exists|i: int|
            0 <= i < fields.len() && (#[trigger] fields[i]).kind == FieldKind::File
                && fields[i].value.len() > 0 && fields[i].filename
                == FormView::start().after_all(fields).filename,
    decreases fields.len(),
{
    if fields.len() > 0 {
        law_filename_comes_with_content(fields.drop_last());
        let before = FormView::start().after_all(fields.drop_last());
        let after = FormView::start().after_all(fields);
        if after.filename is Some {
            if fields.last().kind == FieldKind::File && fields.last().value.len() > 0 {
                assert(fields[fields.len() - 1] == fields.last());
            } else {
                let i = choose|i: int|
                    0 <= i < fields.drop_last().len() && (#[trigger] fields.drop_last()[i]).kind
                        == FieldKind::File && fields.drop_last()[i].value.len() > 0
                        && fields.drop_last()[i].filename == before.filename;
                assert(fields[i] == fields.drop_last()[i]);
            }
        }
    }
}

/// Each field changes its own part of a form: the last `expires_in` counts, a form comes from a
/// browser where it has a `content` field, the file name is that of the last upload that is not
/// empty, and other fields change nothing.
pub proof fn law_fields_fill_the_form(fields: Seq<FieldView>, field: FieldView)
    ensures
        ({
            let before = FormView::start().after_all(fields);
            let after = FormView::start().after_all(fields.push(field));
            &&& field.kind == FieldKind::Other ==> after == before
            &&& after.expires_in == (if field.kind == FieldKind::ExpiresIn {
                Some(field.value)
            } else {
                before.expires_in
            })
            &&& after.from_browser == (before.from_browser || field.kind == FieldKind::Content)
            &&& after.filename == (if field.kind == FieldKind::File && field.value.len() > 0 {
                field.filename
            } else {
                before.filename
            })
            &&& after.language == before.language
            &&& FormView::start().after_all(seq![]) == (FormView {
                expires_in: None,
                filename: None,
                language: None,
                content: None,
                from_browser: false,
            })
        }),
{
    assert(fields.push(field).drop_last() =~= fields);
}

/// The fields of a form are told by their names.
pub proof fn law_names_tell_fields(name: Seq<char>)
    ensures
        kind_of("file"@) == FieldKind::File,
        kind_of("content"@) == FieldKind::Content,
        kind_of("expires_in"@) == FieldKind::ExpiresIn,
        name != "file"@ && name != "content"@ && name != "expires_in"@ ==> kind_of(name)
            == FieldKind::Other,
{
    reveal_strlit("file");
    reveal_strlit("content");
    reveal_strlit("expires_in");
    assert("file"@.len() == 4);
    assert("content"@.len() == 7);
    assert("expires_in"@.len() == 10);
}

/// A form is taken where any of its fields carries content, even empty content, and only there.
pub proof fn law_forms_need_content(fields: Seq<FieldView>)
    ensures
        is_complete(FormView::start().after_all(fields)) <==> exists|i: int|
            0 <= i < fields.len() && carries_content(#[trigger] fields[i]),
    decreases fields.len(),
{
    if fields.len() > 0 {
        let head = fields.drop_last();
        law_forms_need_content(head);
        assert(fields[fields.len() - 1] == fields.last());
        if exists|i: int| 0 <= i < fields.len() && carries_content(#[trigger] fields[i]) {
            let i = choose|i: int| 0 <= i < fields.len() && carries_content(#[trigger] fields[i]);
            if i < head.len() {
                assert(head[i] == fields[i]);
            }
        }
        if exists|i: int| 0 <= i < head.len() && carries_content(#[trigger] head[i]) {
            let i = choose|i: int| 0 <= i < head.len() && carries_content(#[trigger] head[i]);
            assert(fields[i] == head[i]);
        }
    }
}

} // verus!
