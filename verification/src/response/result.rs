//! What a successful response reports.

use vstd::prelude::*;

use crate::common::status_code::StatusCode;
use crate::response::Response;

verus! {

/// What was sent for a successful response.
#[derive(Debug)]
pub struct Data {
    /// Size of the response body
    pub content_length: usize,
    /// Status code of the response
    pub status_code: StatusCode,
}

impl Data {
    /// The body size (0 when unknown) and status code of a response.
    pub fn from_response<R>(response: &Response<R>) -> (r: Data)
        ensures
            r.content_length == match response.data_length_spec() {
                Some(l) => l,
                None => 0,
            },
            r.status_code.0 == response.status_spec(),
    {
        let content_length = match response.data_length() {
            Some(l) => l,
            None => 0,
        };
        Data { content_length, status_code: response.status_code() }
    }
}

} // verus!
