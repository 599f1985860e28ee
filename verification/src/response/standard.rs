//! The most used standard responses.

use vstd::prelude::*;
use vstd::string::StringSliceAdditionalSpecFns;

use crate::common::connection_header::{value_name, ConnectionValue};
use crate::common::header::Header;
use crate::common::status_code::StatusCode;
use crate::response::util::optional_pairs;

verus! {

/// Most used standard HTTP responses, ordered by status code.
#[derive(Clone, Copy, Debug, Hash, Eq, Ord, PartialEq, PartialOrd, Structural)]
pub enum Standard {
    /// 100 Continue
    Continue100,
    /// 200 OK
    Ok200,
    /// 201 Created
    Created201,
    /// 204 No Content
    NoContent204,
    /// 400 Bad Request
    BadRequest400,
    /// 404 Not Found
    NotFound404,
    /// 405 Method Not Allowed
    MethodNotAllowed405,
    /// 408 Request Timeout
    RequestTimeout408,
    /// 413 Payload Too Large
    PayloadTooLarge413,
    /// 414 URI Too Long
    UriTooLong414,
    /// 417 Expectation Failed
    ExpectationFailed417,
    /// 431 Request Header Fields Too Large
    RequestHeaderFieldsTooLarge431,
    /// 500 Internal Server Error
    InternalServerError500,
    /// 501 Not Implemented
    NotImplemented501,
    /// 505 HTTP Version Not Supported
    HttpVersionNotSupported505,
}

/// The status code of a standard response.
pub open spec fn standard_code(s: Standard) -> u16 {
    match s {
        Standard::Continue100 => 100,
        Standard::Ok200 => 200,
        Standard::Created201 => 201,
        Standard::NoContent204 => 204,
        Standard::BadRequest400 => 400,
        Standard::NotFound404 => 404,
        Standard::MethodNotAllowed405 => 405,
        Standard::RequestTimeout408 => 408,
        Standard::PayloadTooLarge413 => 413,
        Standard::UriTooLong414 => 414,
        Standard::ExpectationFailed417 => 417,
        Standard::RequestHeaderFieldsTooLarge431 => 431,
        Standard::InternalServerError500 => 500,
        Standard::NotImplemented501 => 501,
        Standard::HttpVersionNotSupported505 => 505,
    }
}

/// The standard response of a status code, when there is one.
pub open spec fn standard_for(code: u16) -> Option<Standard> {
    match code {
        200 => Some(Standard::Ok200),
        404 => Some(Standard::NotFound404),
        204 => Some(Standard::NoContent204),
        201 => Some(Standard::Created201),
        100 => Some(Standard::Continue100),
        400 => Some(Standard::BadRequest400),
        500 => Some(Standard::InternalServerError500),
        405 => Some(Standard::MethodNotAllowed405),
        408 => Some(Standard::RequestTimeout408),
        413 => Some(Standard::PayloadTooLarge413),
        414 => Some(Standard::UriTooLong414),
        417 => Some(Standard::ExpectationFailed417),
        431 => Some(Standard::RequestHeaderFieldsTooLarge431),
        501 => Some(Standard::NotImplemented501),
        505 => Some(Standard::HttpVersionNotSupported505),
        _ => None,
    }
}

/// The headers a standard response carries: `Connection: close` for 408, none otherwise.
pub open spec fn standard_headers_spec(code: u16) -> Option<Seq<(Seq<u8>, Seq<u8>)>> {
    if code == 408 {
        Some(seq![("Connection".spec_bytes(), value_name(ConnectionValue::Close))])
    } else {
        None
    }
}

impl Standard {
    /// The default headers for a status code (see [`standard_headers_spec`]).
    pub fn headers(status_code: StatusCode) -> (r: Option<Vec<Header>>)
        ensures
            optional_pairs(r) == standard_headers_spec(status_code.0),
    {
        if status_code.0 == 408 {
            let mut v: Vec<Header> = Vec::new();
            v.push(ConnectionValue::Close.to_header());
            assert(crate::response::util::header_pairs(v@) =~= seq![("Connection".spec_bytes(), value_name(ConnectionValue::Close))]);
            Some(v)
        } else {
            None
        }
    }

    /// The status code of this standard response.
    pub fn status_code(&self) -> (r: StatusCode)
        ensures
            r.0 == standard_code(*self),
    {
        let code: u16 = match self {
            Standard::Continue100 => 100,
            Standard::Ok200 => 200,
            Standard::Created201 => 201,
            Standard::NoContent204 => 204,
            Standard::BadRequest400 => 400,
            Standard::NotFound404 => 404,
            Standard::MethodNotAllowed405 => 405,
            Standard::RequestTimeout408 => 408,
            Standard::PayloadTooLarge413 => 413,
            Standard::UriTooLong414 => 414,
            Standard::ExpectationFailed417 => 417,
            Standard::RequestHeaderFieldsTooLarge431 => 431,
            Standard::InternalServerError500 => 500,
            Standard::NotImplemented501 => 501,
            Standard::HttpVersionNotSupported505 => 505,
        };
        StatusCode(code)
    }

    /// The standard response of a status code; `Err` when it has none.
    pub fn try_from_status(status_code: StatusCode) -> (r: Result<Standard, ()>)
        ensures
            r == match standard_for(status_code.0) {
                Some(s) => Ok::<Standard, ()>(s),
                None => Err(()),
            },
    {
        match status_code.0 {
            200 => Ok(Standard::Ok200),
            404 => Ok(Standard::NotFound404),
            204 => Ok(Standard::NoContent204),
            201 => Ok(Standard::Created201),
            100 => Ok(Standard::Continue100),
            400 => Ok(Standard::BadRequest400),
            500 => Ok(Standard::InternalServerError500),
            405 => Ok(Standard::MethodNotAllowed405),
            408 => Ok(Standard::RequestTimeout408),
            413 => Ok(Standard::PayloadTooLarge413),
            414 => Ok(Standard::UriTooLong414),
            417 => Ok(Standard::ExpectationFailed417),
            431 => Ok(Standard::RequestHeaderFieldsTooLarge431),
            501 => Ok(Standard::NotImplemented501),
            505 => Ok(Standard::HttpVersionNotSupported505),
            _ => Err(()),
        }
    }

    /// The standard response of a status code given as a number; `Err` when it has none.
    pub fn try_from_u16(value: u16) -> (r: Result<Standard, ()>)
        ensures
            r == match standard_for(value) {
                Some(s) => Ok::<Standard, ()>(s),
                None => Err(()),
            },
    {
        Standard::try_from_status(StatusCode(value))
    }
}

impl From<Standard> for StatusCode {
    fn from(value: Standard) -> (r: StatusCode)
        ensures
            r.0 == standard_code(value),
    {
        value.status_code()
    }
}

impl vstd::std_specs::convert::FromSpecImpl<Standard> for StatusCode {
    open spec fn obeys_from_spec() -> bool {
        true
    }

    open spec fn from_spec(value: Standard) -> StatusCode {
        StatusCode(standard_code(value))
    }
}

/// A standard response's status code leads back to it.
pub proof fn lemma_standard_code_roundtrip(s: Standard)
    ensures
        standard_for(standard_code(s)) == Some(s),
{
}

/// A status code that has a standard response is that response's code.
pub proof fn lemma_standard_for_code(code: u16)
    ensures
        standard_for(code) matches Some(s) ==> standard_code(s) == code,
{
}

} // verus!
