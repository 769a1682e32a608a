//! What the service reads of an HTTP request besides its body.

use vstd::prelude::*;

verus! {

/// The method and the path of a request.
pub struct RequestHead {
    pub method: String,
    pub path: String,
}

/// The body of a request as the service received it: unreadable, readable
/// but not the expected JSON value, or that value.
pub enum RequestBody<T> {
    Unreadable,
    Malformed,
    Parsed(T),
}

} // verus!
