//! The error taxonomy that the admin surface and the assignment engine
//! report.

use vstd::prelude::*;

verus! {

/// A request-level failure.  `NotFound` names a missing entity,
/// `BadRequest` a validation failure, `EvaluationError` a script that failed
/// to evaluate or returned a non-boolean, `ParseError` a malformed tracking
/// string.
#[derive(Debug)]
pub enum HttpError {
    InternalServerError(String),
    NotFound(String),
    Forbidden(String),
    BadRequest(String),
    NoContent(String),
    EvaluationError(String),
    ParseError(String),
}

impl HttpError {
    /// The error's message text.
    pub fn message(&self) -> (r: &str)
        ensures
            r@ == match self {
                HttpError::InternalServerError(m) => m@,
                HttpError::NotFound(m) => m@,
                HttpError::Forbidden(m) => m@,
                HttpError::BadRequest(m) => m@,
                HttpError::NoContent(m) => m@,
                HttpError::EvaluationError(m) => m@,
                HttpError::ParseError(m) => m@,
            },
    {
        match self {
            HttpError::InternalServerError(m) => m.as_str(),
            HttpError::NotFound(m) => m.as_str(),
            HttpError::Forbidden(m) => m.as_str(),
            HttpError::BadRequest(m) => m.as_str(),
            HttpError::NoContent(m) => m.as_str(),
            HttpError::EvaluationError(m) => m.as_str(),
            HttpError::ParseError(m) => m.as_str(),
        }
    }
}

/// A message built from up to three pieces; error texts use it.
pub fn join3(a: &str, b: &str, c: &str) -> (r: String)
    ensures
        r@ == a@ + b@ + c@,
{
    let mut out = String::new();
    out.append(a);
    out.append(b);
    out.append(c);
    assert(out@ =~= a@ + b@ + c@);
    out
}

} // verus!
