//! Request methods.

use vstd::prelude::*;
use vstd::string::StringSliceAdditionalSpecFns;

use crate::text::{ascii_as_str, ascii_chars, bytes_eq, check_ascii, is_ascii_bytes};

verus! {

broadcast use vstd::string::is_ascii_spec_bytes;

/// HTTP request methods (RFC 7231 and RFC 5789).
#[derive(Debug, Clone, PartialEq, Eq, Hash)]
pub enum Method {
    /// `GET`
    Get,
    /// `HEAD`
    Head,
    /// `POST`
    Post,
    /// `PUT`
    Put,
    /// `DELETE`
    Delete,
    /// `CONNECT`
    Connect,
    /// `OPTIONS`
    Options,
    /// `TRACE`
    Trace,
    /// `PATCH`
    Patch,
    /// A method not standardized by the IETF; its name if it is ASCII
    NonStandard(Option<String>),
}

/// `m` is the method named by the bytes `b`.
pub open spec fn method_named(m: Method, b: Seq<u8>) -> bool {
    if b == "GET".spec_bytes() {
        m is Get
    } else if b == "HEAD".spec_bytes() {
        m is Head
    } else if b == "POST".spec_bytes() {
        m is Post
    } else if b == "PUT".spec_bytes() {
        m is Put
    } else if b == "DELETE".spec_bytes() {
        m is Delete
    } else if b == "CONNECT".spec_bytes() {
        m is Connect
    } else if b == "OPTIONS".spec_bytes() {
        m is Options
    } else if b == "TRACE".spec_bytes() {
        m is Trace
    } else if b == "PATCH".spec_bytes() {
        m is Patch
    } else {
        match m {
            Method::NonStandard(Some(s)) => is_ascii_bytes(b) && s@ == ascii_chars(b),
            Method::NonStandard(None) => !is_ascii_bytes(b),
            _ => false,
        }
    }
}

/// The name of a method as `as_str` gives it.
pub open spec fn method_name_spec(m: Method) -> Seq<char> {
    match m {
        Method::Get => "GET"@,
        Method::Head => "HEAD"@,
        Method::Post => "POST"@,
        Method::Put => "PUT"@,
        Method::Delete => "DELETE"@,
        Method::Connect => "CONNECT"@,
        Method::Options => "OPTIONS"@,
        Method::Trace => "TRACE"@,
        Method::Patch => "PATCH"@,
        Method::NonStandard(Some(s)) => s@,
        Method::NonStandard(None) => "None"@,
    }
}

impl Method {
    /// The method named by `b`.
    pub fn from_bytes(b: &[u8]) -> (r: Method)
        ensures
            method_named(r, b@),
    {
        if bytes_eq(b, "GET".as_bytes()) {
            Method::Get
        } else if bytes_eq(b, "HEAD".as_bytes()) {
            Method::Head
        } else if bytes_eq(b, "POST".as_bytes()) {
            Method::Post
        } else if bytes_eq(b, "PUT".as_bytes()) {
            Method::Put
        } else if bytes_eq(b, "DELETE".as_bytes()) {
            Method::Delete
        } else if bytes_eq(b, "CONNECT".as_bytes()) {
            Method::Connect
        } else if bytes_eq(b, "OPTIONS".as_bytes()) {
            Method::Options
        } else if bytes_eq(b, "TRACE".as_bytes()) {
            Method::Trace
        } else if bytes_eq(b, "PATCH".as_bytes()) {
            Method::Patch
        } else {
            match check_ascii(b) {
                Ok(()) => Method::NonStandard(Some(ascii_as_str(b).to_owned())),
                Err(_) => Method::NonStandard(None),
            }
        }
    }

    /// The method name as `&str` (`None` for a non-standard method without ASCII name).
    pub fn as_str(&self) -> (r: &str)
        ensures
            r@ == method_name_spec(*self),
    {
        match self {
            Method::Get => "GET",
            Method::Head => "HEAD",
            Method::Post => "POST",
            Method::Put => "PUT",
            Method::Delete => "DELETE",
            Method::Connect => "CONNECT",
            Method::Options => "OPTIONS",
            Method::Trace => "TRACE",
            Method::Patch => "PATCH",
            Method::NonStandard(Some(s)) => s.as_str(),
            Method::NonStandard(None) => "None",
        }
    }

    /// `true` for `GET`.
    pub fn is_get(&self) -> (r: bool)
        ensures
            r == (*self is Get),
    {
        matches!(self, Method::Get)
    }

    /// `true` for `HEAD`.
    pub fn is_head(&self) -> (r: bool)
        ensures
            r == (*self is Head),
    {
        matches!(self, Method::Head)
    }

    /// `true` for `PUT`.
    pub fn is_put(&self) -> (r: bool)
        ensures
            r == (*self is Put),
    {
        matches!(self, Method::Put)
    }
}

impl std::str::FromStr for Method {
    type Err = ();

    fn from_str(s: &str) -> (r: Result<Method, ()>)
        ensures
            r matches Ok(m) && method_named(m, s.spec_bytes()),
    {
        Ok(Method::from_bytes(s.as_bytes()))
    }
}

} // verus!
