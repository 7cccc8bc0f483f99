//! What a request can fail with.

use vstd::prelude::*;
use vstd::string::*;

verus! {

/// Why a request was refused or could not be served.
#[derive(Debug)]
pub enum AppError {
    /// There is no such paste.
    NotFound(String),
    /// The request was understood but holds nothing to store.
    UnprocessableEntity(String),
    /// The request is malformed.
    BadRequest(String),
    /// Something else went wrong; the text says what.
    InternalMessage(String),
}

/// What an [`AppError`] says.
pub enum ErrorView {
    NotFound(Seq<char>),
    UnprocessableEntity(Seq<char>),
    BadRequest(Seq<char>),
    InternalMessage(Seq<char>),
}

impl View for AppError {
    type V = ErrorView;

    open spec fn view(&self) -> ErrorView {
        match self {
            AppError::NotFound(m) => ErrorView::NotFound(m@),
            AppError::UnprocessableEntity(m) => ErrorView::UnprocessableEntity(m@),
            AppError::BadRequest(m) => ErrorView::BadRequest(m@),
            AppError::InternalMessage(m) => ErrorView::InternalMessage(m@),
        }
    }
}

impl ErrorView {
    /// The status code that answers the error.
    pub open spec fn status(self) -> u16 {
        match self {
            ErrorView::NotFound(_) => 404,
            ErrorView::UnprocessableEntity(_) => 422,
            ErrorView::BadRequest(_) => 400,
            ErrorView::InternalMessage(_) => 500,
        }
    }
}

/// What the client did wrong is answered with a status from 400 to 499, what went wrong in the
/// server with one from 500 on, and each kind of error has its own.
pub proof fn law_statuses_tell_errors_apart(a: ErrorView, b: ErrorView)
    ensures
        a is InternalMessage <==> 500 <= a.status(),
        400 <= a.status() < 600,
        a.status() == b.status() ==> (a is NotFound <==> b is NotFound) && (a is BadRequest
            <==> b is BadRequest) && (a is UnprocessableEntity <==> b is UnprocessableEntity),
        a is NotFound ==> a.status() == 404,
        a is BadRequest ==> a.status() == 400,
        a is UnprocessableEntity ==> a.status() == 422,
{
}

impl AppError {
    /// The status code that answers the error.
    pub fn status(&self) -> (r: u16)
        ensures
            r == (match self {
                AppError::NotFound(_) => 404u16,
                AppError::UnprocessableEntity(_) => 422u16,
                AppError::BadRequest(_) => 400u16,
                AppError::InternalMessage(_) => 500u16,
            }),
            r == self@.status(),
    {
        match self {
            AppError::NotFound(_) => 404,
            AppError::UnprocessableEntity(_) => 422,
            AppError::BadRequest(_) => 400,
            AppError::InternalMessage(_) => 500,
        }
    }
}

} // verus!
