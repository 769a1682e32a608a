//! The HTTP statuses with which the service answers.

use vstd::prelude::*;

verus! {

/// An HTTP status that a handler of the service answers with.
#[derive(Clone, Copy, Debug, PartialEq, Eq, Structural)]
pub enum StatusCode {
    Success,
    SeeOther,
    BadRequest,
    Unauthorized,
    NotFound,
    MethodNotAllowed,
    InternalServerError,
}

/// The numeric code of each status.
pub open spec fn status_number(s: StatusCode) -> u16 {
    match s {
        StatusCode::Success => 200,
        StatusCode::SeeOther => 303,
        StatusCode::BadRequest => 400,
        StatusCode::Unauthorized => 401,
        StatusCode::NotFound => 404,
        StatusCode::MethodNotAllowed => 405,
        StatusCode::InternalServerError => 500,
    }
}

impl StatusCode {
    /// The numeric code, as HTTP writes it.
    pub fn as_u16(&self) -> (n: u16)
        ensures
            n == status_number(*self),
    {
        match self {
            StatusCode::Success => 200,
            StatusCode::SeeOther => 303,
            StatusCode::BadRequest => 400,
            StatusCode::Unauthorized => 401,
            StatusCode::NotFound => 404,
            StatusCode::MethodNotAllowed => 405,
            StatusCode::InternalServerError => 500,
        }
    }
}

} // verus!
