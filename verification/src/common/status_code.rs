//! Status codes and their reason phrases.

use vstd::prelude::*;

verus! {

/// Status code of a request or response.
#[derive(Clone, Copy, Debug, PartialEq, Eq, Structural, PartialOrd, Ord, Hash)]
pub struct StatusCode(pub u16);

/// The default reason phrase of a status code ("Unknown" for codes without one).
pub open spec fn reason_phrase_spec(code: u16) -> Seq<char> {
    match code {
            100 => "Continue"@,
            101 => "Switching Protocols"@,
            102 => "Processing"@,
            103 => "Early Hints"@,
            200 => "OK"@,
            201 => "Created"@,
            202 => "Accepted"@,
            203 => "Non-Authoritative Information"@,
            204 => "No Content"@,
            205 => "Reset Content"@,
            206 => "Partial Content"@,
            207 => "Multi-Status"@,
            208 => "Already Reported"@,
            226 => "IM Used"@,
            300 => "Multiple Choices"@,
            301 => "Moved Permanently"@,
            302 => "Found"@,
            303 => "See Other"@,
            304 => "Not Modified"@,
            305 => "Use Proxy"@,
            307 => "Temporary Redirect"@,
            308 => "Permanent Redirect"@,
            400 => "Bad Request"@,
            401 => "Unauthorized"@,
            402 => "Payment Required"@,
            403 => "Forbidden"@,
            404 => "Not Found"@,
            405 => "Method Not Allowed"@,
            406 => "Not Acceptable"@,
            407 => "Proxy Authentication Required"@,
            408 => "Request Timeout"@,
            409 => "Conflict"@,
            410 => "Gone"@,
            411 => "Length Required"@,
            412 => "Precondition Failed"@,
            413 => "Content Too Large"@,
            414 => "URI Too Long"@,
            415 => "Unsupported Media Type"@,
            416 => "Range Not Satisfiable"@,
            417 => "Expectation Failed"@,
            421 => "Misdirected Request"@,
            422 => "Unprocessable Content"@,
            423 => "Locked"@,
            424 => "Failed Dependency"@,
            425 => "Too Early"@,
            426 => "Upgrade Required"@,
            428 => "Precondition Required"@,
            429 => "Too Many Requests"@,
            431 => "Request Header Fields Too Large"@,
            451 => "Unavailable For Legal Reasons"@,
            500 => "Internal Server Error"@,
            501 => "Not Implemented"@,
            502 => "Bad Gateway"@,
            503 => "Service Unavailable"@,
            504 => "Gateway Timeout"@,
            505 => "HTTP Version Not Supported"@,
            506 => "Variant Also Negotiates"@,
            507 => "Insufficient Storage"@,
            508 => "Loop Detected"@,
            510 => "Not Extended"@,
            511 => "Network Authentication Required"@,
            _ => "Unknown"@,
    }
}

impl StatusCode {
    /// Returns the default reason phrase for this status code.
    /// For example the status code 404 corresponds to "Not Found".
    pub fn default_reason_phrase(&self) -> (r: &'static str)
        ensures
            r@ == reason_phrase_spec(self.0),
    {
        match self.0 {
            100 => "Continue",
            101 => "Switching Protocols",
            102 => "Processing",
            103 => "Early Hints",
            200 => "OK",
            201 => "Created",
            202 => "Accepted",
            203 => "Non-Authoritative Information",
            204 => "No Content",
            205 => "Reset Content",
            206 => "Partial Content",
            207 => "Multi-Status",
            208 => "Already Reported",
            226 => "IM Used",
            300 => "Multiple Choices",
            301 => "Moved Permanently",
            302 => "Found",
            303 => "See Other",
            304 => "Not Modified",
            305 => "Use Proxy",
            307 => "Temporary Redirect",
            308 => "Permanent Redirect",
            400 => "Bad Request",
            401 => "Unauthorized",
            402 => "Payment Required",
            403 => "Forbidden",
            404 => "Not Found",
            405 => "Method Not Allowed",
            406 => "Not Acceptable",
            407 => "Proxy Authentication Required",
            408 => "Request Timeout",
            409 => "Conflict",
            410 => "Gone",
            411 => "Length Required",
            412 => "Precondition Failed",
            413 => "Content Too Large",
            414 => "URI Too Long",
            415 => "Unsupported Media Type",
            416 => "Range Not Satisfiable",
            417 => "Expectation Failed",
            421 => "Misdirected Request",
            422 => "Unprocessable Content",
            423 => "Locked",
            424 => "Failed Dependency",
            425 => "Too Early",
            426 => "Upgrade Required",
            428 => "Precondition Required",
            429 => "Too Many Requests",
            431 => "Request Header Fields Too Large",
            451 => "Unavailable For Legal Reasons",
            500 => "Internal Server Error",
            501 => "Not Implemented",
            502 => "Bad Gateway",
            503 => "Service Unavailable",
            504 => "Gateway Timeout",
            505 => "HTTP Version Not Supported",
            506 => "Variant Also Negotiates",
            507 => "Insufficient Storage",
            508 => "Loop Detected",
            510 => "Not Extended",
            511 => "Network Authentication Required",
            _ => "Unknown",
        }
    }
}

/// Every default reason phrase is ASCII text of at most 31 characters.
pub proof fn lemma_reason_phrase_short(code: u16)
    ensures
        reason_phrase_spec(code).len() <= 31,
        vstd::utf8::is_ascii_chars(reason_phrase_spec(code)),
{
    reveal_strlit("Continue");
    reveal_strlit("Switching Protocols");
    reveal_strlit("Processing");
    reveal_strlit("Early Hints");
    reveal_strlit("OK");
    reveal_strlit("Created");
    reveal_strlit("Accepted");
    reveal_strlit("Non-Authoritative Information");
    reveal_strlit("No Content");
    reveal_strlit("Reset Content");
    reveal_strlit("Partial Content");
    reveal_strlit("Multi-Status");
    reveal_strlit("Already Reported");
    reveal_strlit("IM Used");
    reveal_strlit("Multiple Choices");
    reveal_strlit("Moved Permanently");
    reveal_strlit("Found");
    reveal_strlit("See Other");
    reveal_strlit("Not Modified");
    reveal_strlit("Use Proxy");
    reveal_strlit("Temporary Redirect");
    reveal_strlit("Permanent Redirect");
    reveal_strlit("Bad Request");
    reveal_strlit("Unauthorized");
    reveal_strlit("Payment Required");
    reveal_strlit("Forbidden");
    reveal_strlit("Not Found");
    reveal_strlit("Method Not Allowed");
    reveal_strlit("Not Acceptable");
    reveal_strlit("Proxy Authentication Required");
    reveal_strlit("Request Timeout");
    reveal_strlit("Conflict");
    reveal_strlit("Gone");
    reveal_strlit("Length Required");
    reveal_strlit("Precondition Failed");
    reveal_strlit("Content Too Large");
    reveal_strlit("URI Too Long");
    reveal_strlit("Unsupported Media Type");
    reveal_strlit("Range Not Satisfiable");
    reveal_strlit("Expectation Failed");
    reveal_strlit("Misdirected Request");
    reveal_strlit("Unprocessable Content");
    reveal_strlit("Locked");
    reveal_strlit("Failed Dependency");
    reveal_strlit("Too Early");
    reveal_strlit("Upgrade Required");
    reveal_strlit("Precondition Required");
    reveal_strlit("Too Many Requests");
    reveal_strlit("Request Header Fields Too Large");
    reveal_strlit("Unavailable For Legal Reasons");
    reveal_strlit("Internal Server Error");
    reveal_strlit("Not Implemented");
    reveal_strlit("Bad Gateway");
    reveal_strlit("Service Unavailable");
    reveal_strlit("Gateway Timeout");
    reveal_strlit("HTTP Version Not Supported");
    reveal_strlit("Variant Also Negotiates");
    reveal_strlit("Insufficient Storage");
    reveal_strlit("Loop Detected");
    reveal_strlit("Not Extended");
    reveal_strlit("Network Authentication Required");
    reveal_strlit("Unknown");
}

impl From<u16> for StatusCode {
    fn from(code: u16) -> (r: StatusCode)
        ensures
            r == StatusCode(code),
    {
        StatusCode(code)
    }
}

impl vstd::std_specs::convert::FromSpecImpl<u16> for StatusCode {
    open spec fn obeys_from_spec() -> bool {
        true
    }

    open spec fn from_spec(code: u16) -> StatusCode {
        StatusCode(code)
    }
}

} // verus!
