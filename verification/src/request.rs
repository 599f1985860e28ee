//! What a request is made of once its head was read: the decisions on its
//! body, and what answering it changes in the response.

use vstd::prelude::*;
use vstd::string::StringSliceAdditionalSpecFns;

use crate::client::{IoFailure, ReadError};
use crate::common::connection_header::{
    bits_have, connection_header_spec, value_bit, ConnectionHeader, ConnectionParse, ConnectionValue,
};
use crate::common::content_type::{content_type_lookup_spec, content_type_readable, ContentType};
use crate::common::header::Header;
use crate::common::header_data::{select_field, HeaderData};
use crate::common::http_version::HttpVersion;
use crate::common::method::Method;
use crate::decimal::parse_usize_spec;
use crate::response::standard::Standard;
use crate::response::util::{header_pairs, update_optional_header, upsert_optional};
use crate::response::Response;

verus! {

broadcast use vstd::string::is_ascii_spec_bytes;

/// Error that can happen when building a request.
#[derive(Clone, Copy, Debug, PartialEq, Eq, Structural)]
pub enum CreateError {
    /// The body does not have the announced `Content-Length`
    ContentLength,
    /// The client sent an `Expect` header that is not `100-continue`
    Expect,
    /// Reading the body failed
    IoError(IoFailure),
}

/// The error a connection reports for a request that could not be built.
pub open spec fn create_error_spec(err: CreateError, version: HttpVersion) -> ReadError {
    match err {
        CreateError::ContentLength => ReadError::HttpProtocol(version, Standard::BadRequest400),
        CreateError::IoError(e) => ReadError::ReadIoError(e),
        CreateError::Expect => ReadError::ExpectationFailed(version),
    }
}

/// The error a connection reports for a request that could not be built.
pub fn read_error_from_create(err: CreateError, version: HttpVersion) -> (r: ReadError)
    ensures
        r == create_error_spec(err, version),
{
    match err {
        CreateError::ContentLength => ReadError::HttpProtocol(version, Standard::BadRequest400),
        CreateError::IoError(e) => ReadError::ReadIoError(e),
        CreateError::Expect => ReadError::ExpectationFailed(version),
    }
}

/// How the body of a request is read from the connection.
#[derive(Clone, Copy, Debug, PartialEq, Eq, Structural)]
pub enum BodyKind {
    /// The whole rest of the stream (protocol upgrade)
    Upgrade,
    /// No body
    Empty,
    /// `length` bytes read into a buffer at once; on a connection that
    /// closes, one more byte is asked for to check that none follows
    Buffered { length: usize, connection_close: bool },
    /// Exactly this many bytes, read as they are asked for
    Limited(usize),
    /// Chunked transfer encoding
    Chunked,
}

/// The first header of `ps` with field `name` (ignoring case).
pub open spec fn first_pair(ps: Seq<(Seq<u8>, Seq<u8>)>, name: Seq<u8>) -> Option<(Seq<u8>, Seq<u8>)> {
    let s = select_field(ps, name);
    if s.len() == 0 {
        None
    } else {
        Some(s[0])
    }
}

/// The values of the first `Connection` header, when it can be read.
pub open spec fn connection_bits(ps: Seq<(Seq<u8>, Seq<u8>)>) -> Option<u8> {
    match first_pair(ps, "Connection".spec_bytes()) {
        Some((_, v)) => match connection_header_spec(v) {
            ConnectionParse::Values(b) => Some(b),
            _ => None,
        },
        None => None,
    }
}

/// The headers of a request can be read without fault: its first
/// `Connection` and `Content-Type` headers can be read.
pub open spec fn request_headers_readable(ps: Seq<(Seq<u8>, Seq<u8>)>) -> bool {
    &&& (first_pair(ps, "Connection".spec_bytes()) matches Some((_, v)) ==> connection_header_spec(v) != ConnectionParse::Unreadable)
    &&& (first_pair(ps, "Content-Type".spec_bytes()) matches Some((_, v)) ==> content_type_readable(v))
}

/// Tells whether the headers of a request can be read (see [`request_headers_readable`]).
pub fn request_headers_readable_check(headers: &[Header]) -> (r: bool)
    ensures
        r == request_headers_readable(header_pairs(headers@)),
{
    let copy = crate::response::util::duplicate_headers(headers);
    let data = HeaderData::new(copy);
    proof {
        reveal_strlit("Connection");
        reveal_strlit("Content-Type");
    }
    let connection_ok = match data.header_first("Connection".as_bytes()) {
        Some(h) => match crate::common::connection_header::read_connection_list(h.value.as_bytes()) {
            ConnectionParse::Unreadable => false,
            _ => true,
        },
        None => true,
    };
    let content_type_ok = match data.header_first("Content-Type".as_bytes()) {
        Some(h) => crate::common::content_type::content_type_readable_check(h.value.as_bytes()),
        None => true,
    };
    connection_ok && content_type_ok
}

/// The content type of a request: that of its first `Content-Type` header.
pub open spec fn request_content_type(ps: Seq<(Seq<u8>, Seq<u8>)>) -> Option<ContentType> {
    match first_pair(ps, "Content-Type".spec_bytes()) {
        Some((_, v)) => content_type_lookup_spec(v),
        None => None,
    }
}

/// The body of a request, decided from its headers: the content length,
/// whether a `100 Continue` is owed, and how the body is read.
///
/// With `Transfer-Encoding` or `Connection: upgrade`, `Content-Length` is
/// ignored. An `Expect` header other than `100-continue` is refused. An
/// upgrade keeps the whole stream; a length of 0 means no body; a length up
/// to `buf_size` without `Expect` is read into a buffer; a larger one is
/// read as asked for; without length, `Transfer-Encoding` means chunked,
/// and otherwise there is no body.
pub open spec fn body_plan_spec(ps: Seq<(Seq<u8>, Seq<u8>)>, buf_size: usize) -> Result<(Option<usize>, bool, BodyKind), CreateError> {
    let te = first_pair(ps, "Transfer-Encoding".spec_bytes()) is Some;
    let conn = connection_bits(ps);
    let upgrade = conn matches Some(b) && bits_have(b, ConnectionValue::Upgrade);
    let close = conn matches Some(b) && bits_have(b, ConnectionValue::Close);
    let cl = if upgrade || te {
        None
    } else {
        match first_pair(ps, "Content-Length".spec_bytes()) {
            Some((_, v)) => parse_usize_spec(v),
            None => None,
        }
    };
    let expect = match first_pair(ps, "Expect".spec_bytes()) {
        Some((_, v)) => if v == "100-continue".spec_bytes() { Some(true) } else { None },
        None => Some(false),
    };
    match expect {
        None => Err(CreateError::Expect),
        Some(e) => Ok((
            cl,
            e,
            if upgrade {
                BodyKind::Upgrade
            } else if cl is Some {
                let n = cl->0;
                if n == 0 {
                    BodyKind::Empty
                } else if n <= buf_size && !e {
                    BodyKind::Buffered { length: n, connection_close: close }
                } else {
                    BodyKind::Limited(n)
                }
            } else if te {
                BodyKind::Chunked
            } else {
                BodyKind::Empty
            },
        )),
    }
}

/// A request once its head was read: everything but the connection's streams.
#[derive(Debug)]
pub struct RequestInfo {
    connection_header: Option<ConnectionHeader>,
    content_type: Option<ContentType>,
    content_length: Option<usize>,
    expect_continue: bool,
    headers: HeaderData,
    http_version: HttpVersion,
    method: Method,
    path: String,
    secure: bool,
}

impl RequestInfo {
    /// The values of the request's `Connection` header, as it stands.
    pub closed spec fn connection_spec(&self) -> Option<u8> {
        match self.connection_header {
            Some(h) => Some(h.bits_spec()),
            None => None,
        }
    }

    /// The length of the body, when known.
    pub closed spec fn content_length_spec(&self) -> Option<usize> {
        self.content_length
    }

    /// The content type of the body, when known.
    pub closed spec fn content_type_spec(&self) -> Option<ContentType> {
        self.content_type
    }

    /// A `100 Continue` is owed before the body is read.
    pub closed spec fn expect_spec(&self) -> bool {
        self.expect_continue
    }

    /// The headers sent by the client.
    pub closed spec fn pairs(&self) -> Seq<(Seq<u8>, Seq<u8>)> {
        self.headers.pairs()
    }

    /// The HTTP version the request is answered in.
    pub closed spec fn version_spec(&self) -> HttpVersion {
        self.http_version
    }

    /// The method.
    pub closed spec fn method_spec(&self) -> Method {
        self.method
    }

    /// The requested resource.
    pub closed spec fn path_spec(&self) -> Seq<char> {
        self.path@
    }

    /// The request came over TLS.
    pub closed spec fn secure_spec(&self) -> bool {
        self.secure
    }

    /// Builds a request from its head, and decides how its body is read
    /// (see [`body_plan_spec`]).
    pub fn create(
        buf_size: usize,
        headers: Vec<Header>,
        method: Method,
        path: String,
        secure: bool,
        version: HttpVersion,
    ) -> (r: Result<(RequestInfo, BodyKind), CreateError>)
        requires
            request_headers_readable(header_pairs(headers@)),
        ensures
            match (r, body_plan_spec(header_pairs(headers@), buf_size)) {
                (Ok((info, kind)), Ok((cl, e, k))) => {
                    &&& info.content_length_spec() == cl
                    &&& info.expect_spec() == e
                    &&& kind == k
                    &&& info.connection_spec() == connection_bits(header_pairs(headers@))
                    &&& info.content_type_spec() == request_content_type(header_pairs(headers@))
                    &&& info.pairs() == header_pairs(headers@)
                    &&& info.version_spec() == version
                    &&& info.method_spec() == method
                    &&& info.path_spec() == path@
                    &&& info.secure_spec() == secure
                },
                (Err(e1), Err(e2)) => e1 == e2,
                _ => false,
            },
    {
        let ghost ps = header_pairs(headers@);
        let headers = HeaderData::new(headers);
        proof {
            reveal_strlit("Transfer-Encoding");
            reveal_strlit("Connection");
            reveal_strlit("Content-Length");
            reveal_strlit("Content-Type");
            reveal_strlit("Expect");
        }
        let is_transfer_encoding = headers.header_first("Transfer-Encoding".as_bytes()).is_some();
        let connection_header = match headers.header_first("Connection".as_bytes()) {
            Some(h) => match ConnectionHeader::parse(h.value.as_bytes()) {
                Ok(c) => Some(c),
                Err(_) => None,
            },
            None => None,
        };
        let (is_upgrade, is_close) = match &connection_header {
            Some(c) => (c.contains(ConnectionValue::Upgrade), c.contains(ConnectionValue::Close)),
            None => (false, false),
        };
        let content_length = if is_upgrade || is_transfer_encoding {
            None
        } else {
            match headers.header_first("Content-Length".as_bytes()) {
                Some(h) => crate::decimal::parse_usize(h.value.as_bytes()),
                None => None,
            }
        };
        let expect_continue = match headers.header_first("Expect".as_bytes()) {
            Some(h) => {
                if h.value.eq_bytes("100-continue".as_bytes()) {
                    true
                } else {
                    return Err(CreateError::Expect);
                }
            },
            None => false,
        };
        let kind = if is_upgrade {
            BodyKind::Upgrade
        } else if let Some(n) = content_length {
            if n == 0 {
                BodyKind::Empty
            } else if n <= buf_size && !expect_continue {
                BodyKind::Buffered { length: n, connection_close: is_close }
            } else {
                BodyKind::Limited(n)
            }
        } else if is_transfer_encoding {
            BodyKind::Chunked
        } else {
            BodyKind::Empty
        };
        let content_type = match headers.header_first("Content-Type".as_bytes()) {
            Some(h) => crate::common::content_type::content_type_lookup(h.value.as_bytes()),
            None => None,
        };
        Ok((
            RequestInfo {
                connection_header,
                content_type,
                content_length,
                expect_continue,
                headers,
                http_version: version,
                method,
                path,
                secure,
            },
            kind,
        ))
    }
}

/// Whether the request asks for a protocol upgrade in its `Connection` header.
pub open spec fn asks_upgrade(ps: Seq<(Seq<u8>, Seq<u8>)>) -> bool {
    connection_bits(ps) matches Some(b) && bits_have(b, ConnectionValue::Upgrade)
}

/// A request is refused exactly when it has an `Expect` header other than
/// `100-continue`; a `100 Continue` is owed exactly when it asks for one.
pub proof fn lemma_body_plan_expect(ps: Seq<(Seq<u8>, Seq<u8>)>, buf_size: usize)
    ensures
        body_plan_spec(ps, buf_size) is Err <==> (first_pair(ps, "Expect".spec_bytes()) matches Some((_, v))
            && v != "100-continue".spec_bytes()),
        body_plan_spec(ps, buf_size) is Err ==> body_plan_spec(ps, buf_size) == Err::<(Option<usize>, bool, BodyKind), _>(
            CreateError::Expect,
        ),
        body_plan_spec(ps, buf_size) matches Ok((_, e, _)) ==> (e <==> first_pair(ps, "Expect".spec_bytes()) is Some),
{
}

/// With a `Transfer-Encoding` header and no upgrade, the body is read
/// chunked and any `Content-Length` is ignored.
pub proof fn lemma_body_plan_chunked(ps: Seq<(Seq<u8>, Seq<u8>)>, buf_size: usize)
    requires
        first_pair(ps, "Transfer-Encoding".spec_bytes()) is Some,
        !asks_upgrade(ps),
    ensures
        body_plan_spec(ps, buf_size) matches Ok((cl, _, kind)) ==> cl is None && kind == BodyKind::Chunked,
{
}

/// An upgrade keeps the whole rest of the stream, whatever the lengths say.
pub proof fn lemma_body_plan_upgrade(ps: Seq<(Seq<u8>, Seq<u8>)>, buf_size: usize)
    requires
        asks_upgrade(ps),
    ensures
        body_plan_spec(ps, buf_size) matches Ok((cl, _, kind)) ==> cl is None && kind == BodyKind::Upgrade,
{
}

/// Without `Transfer-Encoding` or upgrade, a `Content-Length` of `n` bytes
/// decides: no body for 0, a buffer for a short body without `Expect`, and
/// exactly `n` bytes read as asked for otherwise.
pub proof fn lemma_body_plan_length(ps: Seq<(Seq<u8>, Seq<u8>)>, buf_size: usize, n: usize)
    requires
        first_pair(ps, "Transfer-Encoding".spec_bytes()) is None,
        !asks_upgrade(ps),
        first_pair(ps, "Content-Length".spec_bytes()) matches Some((_, v)) && parse_usize_spec(v) == Some(n),
    ensures
        body_plan_spec(ps, buf_size) matches Ok((cl, e, kind)) ==> {
            &&& cl == Some(n)
            &&& n == 0 ==> kind == BodyKind::Empty
            &&& (0 < n <= buf_size && !e) ==> (kind matches BodyKind::Buffered { length, .. } && length == n)
            &&& (n > 0 && (n > buf_size || e)) ==> kind == BodyKind::Limited(n)
        },
{
}

/// Without `Transfer-Encoding`, upgrade or a readable `Content-Length`, a
/// request has no body.
pub proof fn lemma_body_plan_no_length(ps: Seq<(Seq<u8>, Seq<u8>)>, buf_size: usize)
    requires
        first_pair(ps, "Transfer-Encoding".spec_bytes()) is None,
        !asks_upgrade(ps),
        !(first_pair(ps, "Content-Length".spec_bytes()) matches Some((_, v)) && parse_usize_spec(v) is Some),
    ensures
        body_plan_spec(ps, buf_size) matches Ok((cl, _, kind)) ==> cl is None && kind == BodyKind::Empty,
{
}

} // verus!

verus! {

/// What reading a buffered body gives: an error when fewer bytes than the
/// length came, or, on a connection that closes, a different number.
pub open spec fn buffered_length_spec(read: usize, content_length: usize, connection_close: bool) -> Result<(), CreateError> {
    if read < content_length || (read != content_length && connection_close) {
        Err(CreateError::ContentLength)
    } else {
        Ok(())
    }
}

/// Checks the number of body bytes read into the buffer (see [`buffered_length_spec`]).
pub fn check_buffered_length(read: usize, content_length: usize, connection_close: bool) -> (r: Result<(), CreateError>)
    ensures
        r == buffered_length_spec(read, content_length, connection_close),
{
    if read < content_length || (read != content_length && connection_close) {
        Err(CreateError::ContentLength)
    } else {
        Ok(())
    }
}

/// The response's header list and the version after answering a request
/// whose `Connection` header is `conn`: a request that closes gets
/// `Connection: close`; one that keeps alive gets `Connection: keep-alive`,
/// and HTTP/1.0 is answered in HTTP/1.1 then.
pub open spec fn respond_headers_spec(
    conn: Option<u8>,
    version: HttpVersion,
    hs: Option<Seq<(Seq<u8>, Seq<u8>)>>,
) -> (Option<Seq<(Seq<u8>, Seq<u8>)>>, HttpVersion) {
    match conn {
        Some(b) => if bits_have(b, ConnectionValue::Close) {
            (upsert_optional(hs, "Connection".spec_bytes(), "close".spec_bytes(), false), version)
        } else if bits_have(b, ConnectionValue::KeepAlive) {
            (
                upsert_optional(hs, "Connection".spec_bytes(), "keep-alive".spec_bytes(), false),
                if version == HttpVersion::Version1_0 { HttpVersion::Version1_1 } else { version },
            )
        } else {
            (hs, version)
        },
        None => (hs, version),
    }
}

impl RequestInfo {
    /// The request's `Connection` header.
    pub fn connection_header(&self) -> (r: Option<&ConnectionHeader>)
        ensures
            match r {
                Some(h) => self.connection_spec() == Some(h.bits_spec()),
                None => self.connection_spec() is None,
            },
    {
        match &self.connection_header {
            Some(h) => Some(h),
            None => None,
        }
    }

    /// The length of the body in bytes, when known.
    pub fn content_length(&self) -> (r: Option<usize>)
        ensures
            r == self.content_length_spec(),
    {
        self.content_length
    }

    /// The content type of the body, when it is one this library knows.
    pub fn content_type(&self) -> (r: Option<ContentType>)
        ensures
            r == self.content_type_spec(),
    {
        self.content_type
    }

    /// A `100 Continue` is owed before the body is read.
    pub fn expect_continue(&self) -> (r: bool)
        ensures
            r == self.expect_spec(),
    {
        self.expect_continue
    }

    /// Whether a `100 Continue` is to be sent now; it is owed once at most:
    /// after this call none is owed any more, so a second call gives `false`.
    pub fn take_continue(&mut self) -> (r: bool)
        ensures
            r == old(self).expect_spec(),
            !final(self).expect_spec(),
            final(self).connection_spec() == old(self).connection_spec(),
            final(self).content_length_spec() == old(self).content_length_spec(),
            final(self).content_type_spec() == old(self).content_type_spec(),
            final(self).pairs() == old(self).pairs(),
            final(self).version_spec() == old(self).version_spec(),
            final(self).method_spec() == old(self).method_spec(),
            final(self).path_spec() == old(self).path_spec(),
            final(self).secure_spec() == old(self).secure_spec(),
    {
        let owed = self.expect_continue;
        self.expect_continue = false;
        owed
    }

    /// Up to `limit` headers with field `field` (see [`HeaderData::header`]).
    pub fn header(&self, field: &[u8], limit: Option<usize>) -> (r: Option<Vec<&Header>>)
        ensures
            ({
                let all = select_field(self.pairs(), field@);
                let n = match limit {
                    Some(l) => if l < all.len() { l as int } else { all.len() as int },
                    None => all.len() as int,
                };
                if all.len() == 0 {
                    r is None
                } else {
                    r matches Some(v) && crate::common::header_data::ref_pairs(v@) == all.take(n)
                }
            }),
    {
        self.headers.header(field, limit)
    }

    /// The first header with field `field`.
    pub fn header_first(&self, field: &[u8]) -> (r: Option<&Header>)
        ensures
            ({
                let all = select_field(self.pairs(), field@);
                if all.len() == 0 {
                    r is None
                } else {
                    r matches Some(h) && (h.field@, h.value@) == all[0]
                }
            }),
    {
        self.headers.header_first(field)
    }

    /// The last header with field `field`.
    pub fn header_last(&self, field: &[u8]) -> (r: Option<&Header>)
        ensures
            ({
                let all = select_field(self.pairs(), field@);
                if all.len() == 0 {
                    r is None
                } else {
                    r matches Some(h) && (h.field@, h.value@) == all.last()
                }
            }),
    {
        self.headers.header_last(field)
    }

    /// All headers sent by the client.
    pub fn headers(&self) -> (r: &[Header])
        ensures
            header_pairs(r@) == self.pairs(),
    {
        self.headers.headers()
    }

    /// The headers, for lookups by field.
    pub fn header_data(&self) -> (r: &HeaderData)
        ensures
            r.pairs() == self.pairs(),
    {
        &self.headers
    }

    /// The HTTP version the request is answered in.
    pub fn http_version(&self) -> (r: HttpVersion)
        ensures
            r == self.version_spec(),
    {
        self.http_version
    }

    /// The method requested.
    pub fn method(&self) -> (r: &Method)
        ensures
            *r == self.method_spec(),
    {
        &self.method
    }

    /// The resource requested.
    pub fn url(&self) -> (r: &str)
        ensures
            r@ == self.path_spec(),
    {
        self.path.as_str()
    }

    /// The request came over TLS.
    pub fn secure(&self) -> (r: bool)
        ensures
            r == self.secure_spec(),
    {
        self.secure
    }

    /// Sets the request's `Connection` header to the single value given, or removes it.
    pub fn set_connection_header(&mut self, connection_header: Option<ConnectionValue>)
        ensures
            final(self).connection_spec() == match connection_header {
                Some(v) => Some(value_bit(v)),
                None => None,
            },
            final(self).expect_spec() == old(self).expect_spec(),
            final(self).content_length_spec() == old(self).content_length_spec(),
            final(self).content_type_spec() == old(self).content_type_spec(),
            final(self).pairs() == old(self).pairs(),
            final(self).version_spec() == old(self).version_spec(),
            final(self).method_spec() == old(self).method_spec(),
            final(self).path_spec() == old(self).path_spec(),
            final(self).secure_spec() == old(self).secure_spec(),
    {
        self.connection_header = match connection_header {
            Some(v) => Some(ConnectionHeader::from_value(v)),
            None => None,
        };
    }

    /// Sets the `Connection` header of the response to what the request
    /// asked for, and the version to answer in (see [`respond_headers_spec`]).
    pub fn respond_update_headers<R>(&mut self, response: &mut Response<R>)
        ensures
            ({
                let (hs, v) = respond_headers_spec(old(self).connection_spec(), old(self).version_spec(), old(response).header_list());
                final(response).header_list() == hs && final(self).version_spec() == v
            }),
            final(response).status_spec() == old(response).status_spec(),
            final(response).data_spec() == old(response).data_spec(),
            final(response).data_length_spec() == old(response).data_length_spec(),
            final(response).filter_set() == old(response).filter_set(),
            final(response).threshold_spec() == old(response).threshold_spec(),
            final(self).connection_spec() == old(self).connection_spec(),
            final(self).expect_spec() == old(self).expect_spec(),
            final(self).content_length_spec() == old(self).content_length_spec(),
            final(self).content_type_spec() == old(self).content_type_spec(),
            final(self).pairs() == old(self).pairs(),
            final(self).method_spec() == old(self).method_spec(),
            final(self).path_spec() == old(self).path_spec(),
            final(self).secure_spec() == old(self).secure_spec(),
    {
        let (close, keep_alive) = match &self.connection_header {
            Some(c) => (c.contains(ConnectionValue::Close), c.contains(ConnectionValue::KeepAlive)),
            None => (false, false),
        };
        if close {
            let h = ConnectionValue::Close.to_header();
            update_optional_header(response.headers_mut(), h, false);
        } else if keep_alive {
            let h = ConnectionValue::KeepAlive.to_header();
            update_optional_header(response.headers_mut(), h, false);
            if self.http_version.ordinal() == 1 {
                self.http_version = HttpVersion::Version1_1;
            }
        }
    }
}

} // verus!
