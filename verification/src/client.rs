//! Reading requests from a connection: the request line, the header block,
//! and what a connection does after a request or an error.

use vstd::prelude::*;

use crate::common::connection_header::{bits_have, bits_values, ConnectionHeader, ConnectionValue};
use crate::common::http_version::HttpVersion;
use crate::common::method::{method_named, Method};
use crate::response::standard::Standard;
use crate::text::{find_byte, lemma_find_byte_is, lemma_find_byte_props};

verus! {

/// The kinds of failed reads that the connection logic tells apart.
#[derive(Clone, Copy, Debug, PartialEq, Eq, Structural)]
pub enum IoFailure {
    /// The operation timed out
    TimedOut,
    /// The operation would have blocked
    WouldBlock,
    /// The other side closed the pipe
    BrokenPipe,
    /// The other side aborted the connection
    ConnectionAborted,
    /// The other side refused the connection
    ConnectionRefused,
    /// The other side reset the connection
    ConnectionReset,
    /// Any other failure
    Other,
}

/// Failures that mean the client went away while it was answered; they are not reported.
pub open spec fn client_closing_spec(kind: IoFailure) -> bool {
    !(kind is Other)
}

/// Tells whether a failure while answering only means that the client went away.
pub fn is_client_closing(kind: IoFailure) -> (r: bool)
    ensures
        r == client_closing_spec(kind),
{
    match kind {
        IoFailure::Other => false,
        _ => true,
    }
}

/// Error that can happen when reading a request.
#[derive(Clone, Copy, Debug, PartialEq, Eq, Structural)]
pub enum ReadError {
    /// The client sent an unrecognized `Expect` header
    ExpectationFailed(HttpVersion),
    /// A header line could not be read
    Header(HttpVersion),
    /// The request breaks the protocol; answered with the standard response
    HttpProtocol(HttpVersion, Standard),
    /// The HTTP version is missing or not supported
    HttpVersion(Option<HttpVersion>),
    /// Reading from the connection failed
    ReadIoError(IoFailure),
    /// The request line is malformed
    RequestLine,
    /// A byte or line the protocol does not allow
    RfcViolation,
    /// The connection timed out
    WouldBlock,
}

/// Bytes allowed in the parts of a request line.
pub open spec fn request_line_byte(b: u8) -> bool {
    (63 <= b <= 126) || (36 <= b <= 59) || b == 61 || b == 33
}

/// The position of the second space of a line whose first space is at `s1`.
pub open spec fn second_space(line: Seq<u8>, s1: int) -> int {
    s1 + 1 + find_byte(line.skip(s1 + 1), 32u8)
}

/// A request line is `method SP path SP version`: it starts with no space,
/// method and path are not empty, no two spaces follow each other up to the
/// first byte of the version, and every byte up to that one is a space or an
/// allowed byte. The version is whatever follows the second space.
pub open spec fn request_line_parts(line: Seq<u8>) -> Result<(Seq<u8>, Seq<u8>, Seq<u8>), ReadError> {
    let s1 = find_byte(line, 32u8);
    let s2 = second_space(line, s1);
    let scanned = if s2 + 2 < line.len() { s2 + 2 } else { line.len() as int };
    if line.len() > 0 && line[0] != 32u8 && s1 < line.len() && s2 < line.len() && s1 + 1 < s2
        && (s2 + 1 < line.len() ==> line[s2 + 1] != 32u8)
        && (forall|i: int| 0 <= i < scanned ==> #[trigger] line[i] == 32u8 || request_line_byte(line[i])) {
        Ok((
            line.take(s1),
            line.subrange(s1 + 1, s2),
            if s2 + 1 < line.len() { line.skip(s2 + 1) } else { line },
        ))
    } else {
        Err(ReadError::RequestLine)
    }
}

/// What reading a request line gives: method bytes, path and version, or the error.
/// Versions after 1.1 are refused, as are those that cannot be read.
pub open spec fn request_line_spec(line: Seq<u8>) -> Result<(Seq<u8>, Seq<u8>, HttpVersion), ReadError> {
    match request_line_parts(line) {
        Err(e) => Err(e),
        Ok((m, p, v)) => match HttpVersion::parse_spec(v) {
            Ok(ver) => if ver.rank() <= 2 {
                Ok((m, p, ver))
            } else {
                Err(ReadError::HttpVersion(Some(ver)))
            },
            Err(_) => Err(ReadError::HttpVersion(None)),
        },
    }
}

/// The bytes a request line allows in its method and path: the visible
/// ASCII bytes but for `"`, `#`, `<` and `>`.
pub open spec fn method_or_path_byte(b: u8) -> bool {
    b == 33 || (36 <= b && b <= 59) || b == 61 || (63 <= b && b <= 126)
}

/// The bytes of `HTTP/1.1`.
pub open spec fn http_1_1_bytes() -> Seq<u8> {
    seq![72u8, 84u8, 84u8, 80u8, 47u8, 49u8, 46u8, 49u8]
}

/// The request line `method SP path SP HTTP/1.1`.
pub open spec fn http_1_1_line(method: Seq<u8>, path: Seq<u8>) -> Seq<u8> {
    method + seq![32u8] + path + seq![32u8] + http_1_1_bytes()
}

/// Where the first space of `method SP rest` is, and what follows it, for
/// a method without spaces.
proof fn lemma_first_space_after(method: Seq<u8>, rest: Seq<u8>)
    requires
        forall|i: int| 0 <= i < method.len() ==> #[trigger] method[i] != 32u8,
    ensures
        find_byte(method + seq![32u8] + rest, 32u8) == method.len(),
        (method + seq![32u8] + rest).skip(method.len() as int + 1) == rest,
{
    let line = method + seq![32u8] + rest;
    assert forall|j: int| 0 <= j < method.len() implies #[trigger] line[j] != 32u8 by {
        assert(line[j] == method[j]);
    }
    lemma_find_byte_is(line, 32u8, method.len() as int);
    assert(line.skip(method.len() as int + 1) =~= rest);
}

/// A request line whose method and path are made of allowed bytes (`&`,
/// `%`, `=`, `?` and the like included) is read as that method, that path
/// and HTTP/1.1.
pub proof fn lemma_request_line_accepted(method: Seq<u8>, path: Seq<u8>)
    requires
        method.len() > 0,
        path.len() > 0,
        forall|i: int| 0 <= i < method.len() ==> method_or_path_byte(#[trigger] method[i]),
        forall|i: int| 0 <= i < path.len() ==> method_or_path_byte(#[trigger] path[i]),
    ensures
        request_line_spec(http_1_1_line(method, path)) == Ok::<_, ReadError>((method, path, HttpVersion::Version1_1)),
{
    let line = http_1_1_line(method, path);
    let rest = path + seq![32u8] + http_1_1_bytes();
    assert(line =~= method + seq![32u8] + rest);
    assert forall|i: int| 0 <= i < method.len() implies #[trigger] method[i] != 32u8 by {
        assert(method_or_path_byte(method[i]));
    }
    assert forall|i: int| 0 <= i < path.len() implies #[trigger] path[i] != 32u8 by {
        assert(method_or_path_byte(path[i]));
    }
    lemma_first_space_after(method, rest);
    lemma_first_space_after(path, http_1_1_bytes());
    let s1 = method.len() as int;
    let s2 = s1 + 1 + path.len();
    assert(second_space(line, s1) == s2);
    assert forall|i: int| 0 <= i < s2 + 2 implies #[trigger] line[i] == 32u8 || request_line_byte(line[i]) by {
        if i < s1 {
            assert(line[i] == method[i]);
            assert(method_or_path_byte(method[i]));
        } else if i == s1 {
        } else if i < s2 {
            assert(line[i] == path[i - s1 - 1]);
            assert(method_or_path_byte(path[i - s1 - 1]));
        } else if i == s2 {
        } else {
            assert(line[i] == 72u8);
        }
    }
    assert(line.take(s1) =~= method);
    assert(line.subrange(s1 + 1, s2) =~= path);
    assert(line.skip(s2 + 1) =~= http_1_1_bytes());
    let v = http_1_1_bytes();
    assert(v.take(5) =~= seq![72u8, 84u8, 84u8, 80u8, 47u8]);
    assert(v.skip(5) =~= seq![49u8, 46u8, 49u8]);
}

/// A request line with a byte that is not allowed in its method or path
/// (such as `"`, `#`, `<`, `>` or a control byte) is refused.
pub proof fn lemma_request_line_refused(method: Seq<u8>, path: Seq<u8>)
    requires
        method.len() > 0,
        path.len() > 0,
        forall|i: int| 0 <= i < method.len() ==> #[trigger] method[i] != 32u8,
        forall|i: int| 0 <= i < path.len() ==> #[trigger] path[i] != 32u8,
        (exists|i: int| 0 <= i < method.len() && !method_or_path_byte(#[trigger] method[i]))
            || (exists|i: int| 0 <= i < path.len() && !method_or_path_byte(#[trigger] path[i])),
    ensures
        request_line_spec(http_1_1_line(method, path)) == Err::<(Seq<u8>, Seq<u8>, HttpVersion), _>(ReadError::RequestLine),
{
    let line = http_1_1_line(method, path);
    let rest = path + seq![32u8] + http_1_1_bytes();
    assert(line =~= method + seq![32u8] + rest);
    lemma_first_space_after(method, rest);
    lemma_first_space_after(path, http_1_1_bytes());
    let s1 = method.len() as int;
    let s2 = s1 + 1 + path.len();
    assert(second_space(line, s1) == s2);
    if exists|i: int| 0 <= i < method.len() && !method_or_path_byte(#[trigger] method[i]) {
        let i = choose|i: int| 0 <= i < method.len() && !method_or_path_byte(#[trigger] method[i]);
        assert(line[i] == method[i]);
        assert(!(line[i] == 32u8 || request_line_byte(line[i])));
    } else {
        let i = choose|i: int| 0 <= i < path.len() && !method_or_path_byte(#[trigger] path[i]);
        assert(line[s1 + 1 + i] == path[i]);
        assert(!(line[s1 + 1 + i] == 32u8 || request_line_byte(line[s1 + 1 + i])));
    }
}

/// The index of the first space at or after `from`, or the length.
fn find_space(line: &[u8], from: usize) -> (r: usize)
    requires
        from <= line@.len(),
    ensures
        r == from + find_byte(line@.skip(from as int), 32u8),
        from <= r <= line@.len(),
{
    let mut i = from;
    while i < line.len() && line[i] != 32u8
        invariant
            from <= i <= line@.len(),
            forall|j: int| from <= j < i ==> #[trigger] line@[j] != 32u8,
        decreases line@.len() - i,
    {
        i += 1;
    }
    proof {
        let t = line@.skip(from as int);
        assert forall|j: int| 0 <= j < i - from implies #[trigger] t[j] != 32u8 by {
            assert(t[j] == line@[from + j]);
        }
        lemma_find_byte_is(t, 32u8, i - from);
    }
    i
}

/// Parses the request line of a request, e.g. `GET / HTTP/1.1`, up to HTTP/1.1
/// (see [`request_line_spec`]).
pub fn parse_request_line(line: &[u8]) -> (r: Result<(Method, &[u8], HttpVersion), ReadError>)
    ensures
        match (r, request_line_spec(line@)) {
            (Ok((m, p, v)), Ok((mb, pb, vs))) => method_named(m, mb) && p@ == pb && v == vs,
            (Err(e1), Err(e2)) => e1 == e2,
            _ => false,
        },
{
    let len = line.len();
    proof {
        assert(line@.skip(0) =~= line@);
    }
    if len == 0 || line[0] == 32u8 {
        return Err(ReadError::RequestLine);
    }
    let s1 = find_space(line, 0);
    if s1 >= len {
        return Err(ReadError::RequestLine);
    }
    let s2 = find_space(line, s1 + 1);
    if s2 >= len || s2 == s1 + 1 {
        return Err(ReadError::RequestLine);
    }
    if s2 + 1 < len && line[s2 + 1] == 32u8 {
        return Err(ReadError::RequestLine);
    }
    let scanned = if s2 + 1 < len { s2 + 2 } else { len };
    let mut i: usize = 0;
    while i < scanned
        invariant
            0 <= i <= scanned <= line@.len(),
            forall|j: int| 0 <= j < i ==> #[trigger] line@[j] == 32u8 || request_line_byte(line@[j]),
            len == line@.len(),
            s1 == find_byte(line@, 32u8),
            s2 == second_space(line@, s1 as int),
            s1 < len,
            s2 < len,
            scanned == (if s2 + 2 < len { s2 + 2 } else { len as int }),
        decreases scanned - i,
    {
        let b = line[i];
        if !(b == 32u8 || (b >= 63 && b <= 126) || (b >= 36 && b <= 59) || b == 61 || b == 33) {
            assert(!(line@[i as int] == 32u8 || request_line_byte(line@[i as int])));
            assert(request_line_parts(line@) is Err);
            return Err(ReadError::RequestLine);
        }
        i += 1;
    }
    assert(request_line_parts(line@) is Ok);
    let method = Method::from_bytes(&line[0..s1]);
    let path = &line[s1 + 1..s2];
    let version_bytes = if s2 + 1 < len { &line[s2 + 1..len] } else { line };
    assert(line@.take(s1 as int) =~= line@.subrange(0, s1 as int));
    assert(version_bytes@ =~= if s2 + 1 < len { line@.skip(s2 + 1) } else { line@ });
    match HttpVersion::parse(version_bytes) {
        Ok(ver) => {
            if ver.ordinal() <= 2 {
                Ok((method, path, ver))
            } else {
                Err(ReadError::HttpVersion(Some(ver)))
            }
        },
        Err(_) => Err(ReadError::HttpVersion(None)),
    }
}

} // verus!

verus! {

/// The standard response sent to a client when reading its request failed.
#[derive(Clone, Copy, Debug, PartialEq, Eq, Structural)]
pub struct ErrorReply {
    /// The standard response to send
    pub status: Standard,
    /// The version to answer with (HTTP/1.0 when none)
    pub version: Option<HttpVersion>,
    /// Only the head is sent
    pub do_not_send_body: bool,
}

/// What a connection answers to a failed read, and the error it reports then:
/// a timeout is answered with 408 and reported as `WouldBlock`; a malformed
/// request line or a protocol violation with 400; a bad header with 400 in the
/// request's version; a protocol error with its own response; an unsupported
/// version with 505; an unknown expectation with the head of 417. Other
/// failed reads, and `WouldBlock`, are not answered.
pub open spec fn error_reply_spec(err: ReadError) -> (Option<ErrorReply>, ReadError) {
    match err {
        ReadError::ReadIoError(IoFailure::TimedOut) | ReadError::ReadIoError(IoFailure::WouldBlock) => (
            Some(ErrorReply { status: Standard::RequestTimeout408, version: None, do_not_send_body: false }),
            ReadError::WouldBlock,
        ),
        ReadError::RequestLine | ReadError::RfcViolation => (
            Some(ErrorReply { status: Standard::BadRequest400, version: None, do_not_send_body: false }),
            err,
        ),
        ReadError::Header(v) => (
            Some(ErrorReply { status: Standard::BadRequest400, version: Some(v), do_not_send_body: false }),
            err,
        ),
        ReadError::HttpProtocol(v, s) => (
            Some(ErrorReply { status: s, version: Some(v), do_not_send_body: false }),
            err,
        ),
        ReadError::HttpVersion(_) => (
            Some(ErrorReply { status: Standard::HttpVersionNotSupported505, version: None, do_not_send_body: false }),
            err,
        ),
        ReadError::ExpectationFailed(v) => (
            Some(ErrorReply { status: Standard::ExpectationFailed417, version: Some(v), do_not_send_body: true }),
            err,
        ),
        ReadError::ReadIoError(_) | ReadError::WouldBlock => (None, err),
    }
}

/// Decides the answer to a failed read (see [`error_reply_spec`]).
pub fn request_error_handler(err: ReadError) -> (r: (Option<ErrorReply>, ReadError))
    ensures
        r == error_reply_spec(err),
{
    match err {
        ReadError::ReadIoError(IoFailure::TimedOut) | ReadError::ReadIoError(IoFailure::WouldBlock) => (
            Some(ErrorReply { status: Standard::RequestTimeout408, version: None, do_not_send_body: false }),
            ReadError::WouldBlock,
        ),
        ReadError::RequestLine | ReadError::RfcViolation => (
            Some(ErrorReply { status: Standard::BadRequest400, version: None, do_not_send_body: false }),
            err,
        ),
        ReadError::Header(v) => (
            Some(ErrorReply { status: Standard::BadRequest400, version: Some(v), do_not_send_body: false }),
            err,
        ),
        ReadError::HttpProtocol(v, s) => (
            Some(ErrorReply { status: s, version: Some(v), do_not_send_body: false }),
            err,
        ),
        ReadError::HttpVersion(_) => (
            Some(ErrorReply { status: Standard::HttpVersionNotSupported505, version: None, do_not_send_body: false }),
            err,
        ),
        ReadError::ExpectationFailed(v) => (
            Some(ErrorReply { status: Standard::ExpectationFailed417, version: Some(v), do_not_send_body: true }),
            err,
        ),
        ReadError::ReadIoError(_) | ReadError::WouldBlock => (None, err),
    }
}

/// What a connection does after reading a request: whether no request will
/// follow, and whether the request is marked `Connection: close`.
///
/// The first value of the request's `Connection` header decides: `close`
/// closes; `upgrade` closes (without marking) unless `keep-alive` is also
/// there; `keep-alive` on HTTP/1.0 keeps the connection when TCP keep-alive
/// is on. Otherwise HTTP/1.0 and older close, and newer versions close when
/// TCP keep-alive is off.
pub open spec fn connection_after_spec(bits: Option<u8>, version: HttpVersion, tcp_keep_alive: bool) -> (bool, bool) {
    let by_version = if version.rank() <= 1 {
        (true, true)
    } else if !tcp_keep_alive {
        (true, true)
    } else {
        (false, false)
    };
    match bits {
        Some(b) => {
            let vals = bits_values(b);
            if vals.len() > 0 && vals[0] == ConnectionValue::Close {
                (true, true)
            } else if vals.len() > 0 && vals[0] == ConnectionValue::Upgrade {
                if !bits_have(b, ConnectionValue::KeepAlive) {
                    (true, false)
                } else {
                    (false, false)
                }
            } else if vals.len() > 0 && vals[0] == ConnectionValue::KeepAlive && version == HttpVersion::Version1_0 {
                if !tcp_keep_alive {
                    (true, true)
                } else {
                    (false, false)
                }
            } else {
                by_version
            }
        },
        None => by_version,
    }
}

/// A `Connection: close` closes the connection and marks the request,
/// whatever else the header holds and whatever the version.
pub proof fn lemma_connection_close_closes(bits: u8, version: HttpVersion, tcp_keep_alive: bool)
    requires
        bits_have(bits, ConnectionValue::Close),
    ensures
        connection_after_spec(Some(bits), version, tcp_keep_alive) == (true, true),
{
    assert(bits_values(bits)[0] == ConnectionValue::Close);
}

/// Without a `Connection` header, HTTP/1.0 and older close the connection,
/// and later versions keep it exactly when TCP keep-alive is on.
pub proof fn lemma_connection_by_version(version: HttpVersion, tcp_keep_alive: bool)
    ensures
        version.rank() <= 1 ==> connection_after_spec(None, version, tcp_keep_alive) == (true, true),
        version.rank() >= 2 && tcp_keep_alive ==> connection_after_spec(None, version, tcp_keep_alive) == (false, false),
        version.rank() >= 2 && !tcp_keep_alive ==> connection_after_spec(None, version, tcp_keep_alive) == (true, true),
{
}

/// From HTTP/1.1 on, a `Connection` header without `close` or `upgrade`
/// (such as `keep-alive`) decides as no header does: the connection stays
/// open exactly when TCP keep-alive is on.
pub proof fn lemma_connection_keep_alive_as_none(bits: u8, version: HttpVersion, tcp_keep_alive: bool)
    requires
        version.rank() >= 2,
        !bits_have(bits, ConnectionValue::Close),
        !bits_have(bits, ConnectionValue::Upgrade),
    ensures
        connection_after_spec(Some(bits), version, tcp_keep_alive) == connection_after_spec(None, version, tcp_keep_alive),
        tcp_keep_alive ==> connection_after_spec(Some(bits), version, tcp_keep_alive) == (false, false),
{
    assert(bits_values(bits).len() == 0 || bits_values(bits)[0] == ConnectionValue::KeepAlive);
}

/// An HTTP/1.0 `Connection: keep-alive` (without `close` or `upgrade`) keeps
/// the connection open when TCP keep-alive is on, and closes it otherwise.
pub proof fn lemma_connection_keep_alive_http_1_0(bits: u8, tcp_keep_alive: bool)
    requires
        bits_have(bits, ConnectionValue::KeepAlive),
        !bits_have(bits, ConnectionValue::Close),
        !bits_have(bits, ConnectionValue::Upgrade),
    ensures
        connection_after_spec(Some(bits), HttpVersion::Version1_0, tcp_keep_alive) == (!tcp_keep_alive, !tcp_keep_alive),
{
    assert(bits_values(bits)[0] == ConnectionValue::KeepAlive);
}

/// `Connection: upgrade` (without `close`) closes the connection after the
/// request, without marking it, unless `keep-alive` is also asked for.
pub proof fn lemma_connection_upgrade(bits: u8, version: HttpVersion, tcp_keep_alive: bool)
    requires
        bits_have(bits, ConnectionValue::Upgrade),
        !bits_have(bits, ConnectionValue::Close),
    ensures
        connection_after_spec(Some(bits), version, tcp_keep_alive) == if bits_have(bits, ConnectionValue::KeepAlive) {
            (false, false)
        } else {
            (true, false)
        },
{
    assert(bits_values(bits)[0] == ConnectionValue::Upgrade);
}

/// Decides what the connection does after a request (see [`connection_after_spec`]).
pub fn connection_after_request(
    connection: Option<&ConnectionHeader>,
    version: HttpVersion,
    tcp_keep_alive: bool,
) -> (r: (bool, bool))
    ensures
        r == connection_after_spec(
            match connection {
                Some(h) => Some(h.bits_spec()),
                None => None,
            },
            version,
            tcp_keep_alive,
        ),
{
    let old_version = version.ordinal() <= 1;
    let by_version = if old_version {
        (true, true)
    } else if !tcp_keep_alive {
        (true, true)
    } else {
        (false, false)
    };
    match connection {
        Some(h) => {
            let mut it = h.iter();
            match it.next() {
                Some(ConnectionValue::Close) => (true, true),
                Some(ConnectionValue::Upgrade) => {
                    if !h.contains(ConnectionValue::KeepAlive) {
                        (true, false)
                    } else {
                        (false, false)
                    }
                },
                Some(ConnectionValue::KeepAlive) => {
                    if version.ordinal() == 1 {
                        if !tcp_keep_alive {
                            (true, true)
                        } else {
                            (false, false)
                        }
                    } else {
                        by_version
                    }
                },
                None => by_version,
            }
        },
        None => by_version,
    }
}

} // verus!

verus! {

/// What can happen on a connection after a call for the next request.
pub enum RunEvent {
    /// Reading a request failed
    ReadFailed,
    /// A request was read with this `Connection` value set, HTTP version and
    /// keep-alive setting
    RequestRead { connection: Option<u8>, version: HttpVersion, tcp_keep_alive: bool },
}

/// Whether the connection is closed after `event`, starting closed or not.
pub open spec fn run_step(closed: bool, event: RunEvent) -> bool {
    match event {
        RunEvent::ReadFailed => true,
        RunEvent::RequestRead { connection, version, tcp_keep_alive } => closed
            || connection_after_spec(connection, version, tcp_keep_alive).0,
    }
}

/// Whether the connection is closed after the events in turn.
pub open spec fn run_after(closed: bool, events: Seq<RunEvent>) -> bool
    decreases events.len(),
{
    if events.len() == 0 {
        closed
    } else {
        run_after(run_step(closed, events[0]), events.drop_first())
    }
}

/// A closed connection stays closed, whatever happens next: no request is
/// read from it again.
pub proof fn lemma_closed_stays_closed(events: Seq<RunEvent>)
    ensures
        run_after(true, events),
    decreases events.len(),
{
    if events.len() > 0 {
        lemma_closed_stays_closed(events.drop_first());
    }
}

/// A failed read closes the connection, and so does a request that asks
/// for `Connection: close`, or an HTTP/1.0 (or older) request without a
/// `Connection` header.
pub proof fn lemma_what_closes(closed: bool, bits: u8, version: HttpVersion, tcp_keep_alive: bool)
    ensures
        run_step(closed, RunEvent::ReadFailed),
        bits_have(bits, ConnectionValue::Close) ==> run_step(
            closed,
            RunEvent::RequestRead { connection: Some(bits), version, tcp_keep_alive },
        ),
        version.rank() <= 1 ==> run_step(
            closed,
            RunEvent::RequestRead { connection: None, version, tcp_keep_alive },
        ),
{
    if bits_have(bits, ConnectionValue::Close) {
        assert(bits_values(bits)[0] == ConnectionValue::Close);
    }
}

/// What a connection knows between two requests: whether no request will
/// follow. Once it is closed it stays closed: no method reopens it.
#[derive(Debug)]
pub struct ConnectionRun {
    closed: bool,
}

impl ConnectionRun {
    /// No request will follow on this connection.
    pub closed spec fn is_closed(&self) -> bool {
        self.closed
    }

    /// A connection before its first request.
    pub fn new() -> (r: ConnectionRun)
        ensures
            !r.is_closed(),
    {
        ConnectionRun { closed: false }
    }

    /// Whether another request is to be read: not after a closing one.
    pub fn wants_request(&self) -> (r: bool)
        ensures
            r == !self.is_closed(),
    {
        !self.closed
    }

    /// Reading a request failed: no request follows.
    pub fn read_failed(&mut self)
        ensures
            final(self).is_closed() == run_step(old(self).is_closed(), RunEvent::ReadFailed),
    {
        self.closed = true;
    }

    /// A request was read: decides (see [`connection_after_spec`]) whether
    /// requests follow, and gives whether the request is to be marked
    /// `Connection: close`.
    pub fn request_read(&mut self, connection: Option<&ConnectionHeader>, version: HttpVersion, tcp_keep_alive: bool) -> (r: bool)
        ensures
            ({
                let (close, mark) = connection_after_spec(
                    match connection {
                        Some(h) => Some(h.bits_spec()),
                        None => None,
                    },
                    version,
                    tcp_keep_alive,
                );
                &&& final(self).is_closed() == run_step(
                    old(self).is_closed(),
                    RunEvent::RequestRead {
                        connection: match connection {
                            Some(h) => Some(h.bits_spec()),
                            None => None,
                        },
                        version,
                        tcp_keep_alive,
                    },
                )
                &&& r == (close && mark)
            }),
    {
        let (close, mark) = connection_after_request(connection, version, tcp_keep_alive);
        if close {
            self.closed = true;
        }
        close && mark
    }
}

} // verus!

verus! {

/// What reading the head of a request has gathered so far.
#[derive(Debug)]
pub struct RequestHeadReader {
    rest: usize,
    request_line: Option<(Method, String, HttpVersion)>,
    headers: Vec<crate::common::header::Header>,
}

/// The head reader's budget, request line (method bytes are not kept, the
/// path as text) and header list, as a caller sees them.
pub open spec fn head_line_ok(m: Method, path: Seq<char>, v: HttpVersion, line: Seq<u8>) -> bool {
    match request_line_spec(line) {
        Ok((mb, pb, vs)) => method_named(m, mb) && path == crate::text::ascii_chars(pb) && v == vs,
        Err(_) => false,
    }
}

impl RequestHeadReader {
    /// The bytes the rest of the head may still take.
    pub closed spec fn rest_spec(&self) -> usize {
        self.rest
    }

    /// The version of the request line, once it was read.
    pub closed spec fn version_spec(&self) -> Option<HttpVersion> {
        match self.request_line {
            Some((_, _, v)) => Some(v),
            None => None,
        }
    }

    /// The method of the request line, once it was read.
    pub closed spec fn method_spec(&self) -> Option<Method> {
        match self.request_line {
            Some((m, _, _)) => Some(m),
            None => None,
        }
    }

    /// The path of the request line, once it was read.
    pub closed spec fn path_spec(&self) -> Option<Seq<char>> {
        match self.request_line {
            Some((_, p, _)) => Some(p@),
            None => None,
        }
    }

    /// The headers read so far.
    pub closed spec fn headers_spec(&self) -> Seq<(Seq<u8>, Seq<u8>)> {
        crate::response::util::header_pairs(self.headers@)
    }

    /// A reader for a head of at most `header_max_size` bytes (line ends not counted).
    pub fn new(header_max_size: usize) -> (r: RequestHeadReader)
        ensures
            r.rest_spec() == header_max_size,
            r.version_spec() is None,
            r.method_spec() is None,
            r.path_spec() is None,
            r.headers_spec() == Seq::<(Seq<u8>, Seq<u8>)>::empty(),
    {
        let r = RequestHeadReader { rest: header_max_size, request_line: None, headers: Vec::new() };
        assert(r.headers_spec() =~= Seq::<(Seq<u8>, Seq<u8>)>::empty());
        r
    }

    /// Takes in the outcome of reading the next line; `Ok(true)` once the
    /// empty line that ends the head was read.
    ///
    /// For the request line: a line over the length limit is answered with
    /// 414, an empty line is a timeout, a line over the budget is answered
    /// with 431, otherwise the line is read (see [`request_line_spec`]).
    /// For a header line: an empty line ends the head, a line over the budget
    /// is answered with 431, a line that is no header is a header error;
    /// otherwise the header is kept. Each line is taken from the budget.
    pub fn feed(&mut self, line: Result<Vec<u8>, ReadError>) -> (r: Result<bool, ReadError>)
        ensures
            old(self).version_spec() is None ==> match line {
                Err(ReadError::HttpProtocol(v, Standard::RequestHeaderFieldsTooLarge431)) =>
                    r == Err::<bool, ReadError>(ReadError::HttpProtocol(v, Standard::UriTooLong414)),
                Err(e) => r == Err::<bool, ReadError>(e),
                Ok(l) => if l@.len() == 0 {
                    r == Err::<bool, ReadError>(ReadError::ReadIoError(IoFailure::TimedOut))
                } else if old(self).rest_spec() < l@.len() {
                    r == Err::<bool, ReadError>(ReadError::HttpProtocol(
                        HttpVersion::Version1_0,
                        Standard::RequestHeaderFieldsTooLarge431,
                    ))
                } else {
                    match request_line_spec(l@) {
                        Err(e) => r == Err::<bool, ReadError>(e),
                        Ok(_) => {
                            &&& r == Ok::<bool, ReadError>(false)
                            &&& final(self).rest_spec() == old(self).rest_spec() - l@.len()
                            &&& final(self).version_spec() matches Some(v)
                            &&& final(self).method_spec() matches Some(m)
                            &&& final(self).path_spec() matches Some(p)
                            &&& head_line_ok(m, p, v, l@)
                            &&& final(self).headers_spec() == old(self).headers_spec()
                        },
                    }
                },
            },
            old(self).version_spec() matches Some(v) ==> {
                &&& final(self).version_spec() == old(self).version_spec()
                &&& final(self).method_spec() == old(self).method_spec()
                &&& final(self).path_spec() == old(self).path_spec()
                &&& match line {
                    Err(e) => r == Err::<bool, ReadError>(e),
                    Ok(l) => if l@.len() == 0 {
                        r == Ok::<bool, ReadError>(true) && final(self).headers_spec() == old(self).headers_spec()
                    } else if old(self).rest_spec() < l@.len() {
                        r == Err::<bool, ReadError>(ReadError::HttpProtocol(v, Standard::RequestHeaderFieldsTooLarge431))
                    } else {
                        match crate::common::header::header_line_spec(l@) {
                            Err(_) => r == Err::<bool, ReadError>(ReadError::Header(v)),
                            Ok(pair) => {
                                &&& r == Ok::<bool, ReadError>(false)
                                &&& final(self).rest_spec() == old(self).rest_spec() - l@.len()
                                &&& final(self).headers_spec() == old(self).headers_spec().push(pair)
                            },
                        }
                    },
                }
            },
    {
        match &self.request_line {
            None => {
                let l = match line {
                    Err(ReadError::HttpProtocol(v, Standard::RequestHeaderFieldsTooLarge431)) => {
                        return Err(ReadError::HttpProtocol(v, Standard::UriTooLong414));
                    },
                    Err(e) => {
                        return Err(e);
                    },
                    Ok(l) => l,
                };
                if l.len() == 0 {
                    return Err(ReadError::ReadIoError(IoFailure::TimedOut));
                }
                if self.rest < l.len() {
                    return Err(ReadError::HttpProtocol(
                        HttpVersion::Version1_0,
                        Standard::RequestHeaderFieldsTooLarge431,
                    ));
                }
                let parsed = parse_request_line(l.as_slice());
                let (method, path, version) = match parsed {
                    Err(e) => {
                        return Err(e);
                    },
                    Ok(t) => t,
                };
                proof {
                    let s1 = find_byte(l@, 32u8);
                    let s2 = second_space(l@, s1);
                    assert(request_line_parts(l@) is Ok);
                    lemma_find_byte_props(l@, 32u8);
                    assert(0 <= s1 && s1 + 1 < s2 && s2 < l@.len());
                    let scanned = if s2 + 2 < l@.len() { s2 + 2 } else { l@.len() as int };
                    assert(forall|i: int| 0 <= i < scanned ==> #[trigger] l@[i] == 32u8 || request_line_byte(l@[i]));
                    assert(path@ == l@.subrange(s1 + 1, s2));
                    lemma_find_byte_props(l@.skip(s1 + 1), 32u8);
                    assert forall|i: int| 0 <= i < path@.len() implies #[trigger] path@[i] < 128 by {
                        assert(path@[i] == l@[s1 + 1 + i]);
                        assert(l@.skip(s1 + 1)[i] == l@[s1 + 1 + i]);
                        assert(l@[s1 + 1 + i] == 32u8 || request_line_byte(l@[s1 + 1 + i]));
                    }
                }
                let path = crate::text::ascii_as_str(path).to_owned();
                self.rest = self.rest - l.len();
                self.request_line = Some((method, path, version));
                Ok(false)
            },
            Some((_, _, version)) => {
                let version = *version;
                let l = line?;
                if l.len() == 0 {
                    return Ok(true);
                }
                if self.rest < l.len() {
                    return Err(ReadError::HttpProtocol(version, Standard::RequestHeaderFieldsTooLarge431));
                }
                match crate::common::header::Header::parse_line(l.as_slice()) {
                    Ok(h) => {
                        self.rest = self.rest - l.len();
                        self.headers.push(h);
                        Ok(false)
                    },
                    Err(_) => Err(ReadError::Header(version)),
                }
            },
        }
    }

    /// The method, path, version and headers of a head that was read in full.
    pub fn into_parts(self) -> (r: Option<(Method, String, HttpVersion, Vec<crate::common::header::Header>)>)
        ensures
            match self.version_spec() {
                None => r is None,
                Some(v) => r matches Some((m, p, ver, hs)) && Some(m) == self.method_spec()
                    && Some(p@) == self.path_spec() && ver == v
                    && crate::response::util::header_pairs(hs@) == self.headers_spec(),
            },
    {
        match self.request_line {
            Some((m, p, v)) => Some((m, p, v, self.headers)),
            None => None,
        }
    }
}

} // verus!

verus! {

/// Bytes a line of the head may not hold: control bytes other than CR and tab, and DEL.
pub open spec fn forbidden_line_byte(b: u8) -> bool {
    (b != 13 && b < 32 && b != 9) || b == 127
}

/// A blank byte: space or tab.
pub open spec fn blank_byte(b: u8) -> bool {
    b == 32 || b == 9
}

/// Bytes are gathered in blocks of this size; the line length is checked
/// whenever a block is full and when the line ends.
pub open spec fn line_block() -> nat {
    256
}

/// The state of reading one line: the bytes of the current block, the line
/// so far, the length counted so far, and whether only blanks were seen.
pub struct ScanView {
    /// Bytes of the block being filled
    pub pending: Seq<u8>,
    /// The line so far
    pub out: Seq<u8>,
    /// Length counted against the limit
    pub limit: nat,
    /// Only blanks were seen so far
    pub space_only: bool,
}

/// The state before the first byte of a line.
pub open spec fn scan_start() -> ScanView {
    ScanView { pending: seq![], out: seq![], limit: 0, space_only: true }
}

/// The error for a line over the length limit.
pub open spec fn line_too_long() -> ReadError {
    ReadError::HttpProtocol(HttpVersion::Version1_0, Standard::RequestHeaderFieldsTooLarge431)
}

/// One step of reading a line with length limit `max`: the state after
/// taking the byte `b` (`None`: the end of the input), and the outcome when
/// the line is over.
///
/// LF ends the line (without a CR just before it in the same block); the end
/// of the input ends it too, the unfinished block left out. A forbidden byte,
/// or a line of blanks only, is a protocol violation; a line whose counted
/// length reaches `max` is too long.
pub open spec fn scan_step(st: ScanView, b: Option<u8>, max: nat) -> (ScanView, Option<Result<Seq<u8>, ReadError>>) {
    match b {
        None => {
            let so = st.space_only && st.pending.len() != 0;
            (
                ScanView { space_only: so, ..st },
                Some(if so { Err(ReadError::RfcViolation) } else { Ok(st.out) }),
            )
        },
        Some(c) => if c == 10 {
            let cr = st.pending.len() > 0 && st.pending.last() == 13;
            let n: int = if cr { st.pending.len() - 1 } else { st.pending.len() as int };
            let so = if !cr && st.pending.len() == 0 { false } else { st.space_only };
            let limit = st.limit + n;
            if limit >= max {
                (st, Some(Err(line_too_long())))
            } else {
                let out = st.out + st.pending.take(n);
                (
                    ScanView { pending: seq![], out, limit: limit as nat, space_only: so },
                    Some(if so { Err(ReadError::RfcViolation) } else { Ok(out) }),
                )
            }
        } else if forbidden_line_byte(c) {
            (st, Some(Err(ReadError::RfcViolation)))
        } else {
            let so = st.space_only && blank_byte(c);
            let p = st.pending.push(c);
            if p.len() == line_block() {
                let limit = st.limit + line_block();
                if limit >= max {
                    (st, Some(Err(line_too_long())))
                } else {
                    (ScanView { pending: seq![], out: st.out + p, limit: limit as nat, space_only: so }, None)
                }
            } else {
                (ScanView { pending: p, space_only: so, ..st }, None)
            }
        },
    }
}

/// Feeding bytes one after the other until the line is over.
pub open spec fn scan_feed(st: ScanView, bytes: Seq<u8>, max: nat) -> (ScanView, Option<Result<Seq<u8>, ReadError>>)
    decreases bytes.len(),
{
    if bytes.len() == 0 {
        (st, None)
    } else {
        let (st2, o) = scan_step(st, Some(bytes[0]), max);
        if o is Some {
            (st2, o)
        } else {
            scan_feed(st2, bytes.drop_first(), max)
        }
    }
}

/// Reads one line of a request head, a byte at a time (see [`scan_step`]).
#[derive(Debug)]
pub struct LineScanner {
    pending: Vec<u8>,
    out: Vec<u8>,
    limit: usize,
    space_only: bool,
    max: usize,
}

impl LineScanner {
    /// The state of the scanner.
    pub closed spec fn state(&self) -> ScanView {
        ScanView { pending: self.pending@, out: self.out@, limit: self.limit as nat, space_only: self.space_only }
    }

    /// The length limit of a line.
    pub closed spec fn max_spec(&self) -> usize {
        self.max
    }

    /// The scanner's state is one it can go on from.
    pub closed spec fn wf(&self) -> bool {
        &&& self.limit <= self.max
        &&& self.max <= usize::MAX - 256
        &&& self.pending@.len() < 256
    }

    /// A scanner for a line of less than `max` bytes (line end not counted).
    pub fn new(max: usize) -> (r: LineScanner)
        requires
            max <= usize::MAX - 256,
        ensures
            r.wf(),
            r.state() == scan_start(),
            r.max_spec() == max,
    {
        let r = LineScanner { pending: Vec::new(), out: Vec::new(), limit: 0, space_only: true, max };
        assert(r.state().pending =~= Seq::<u8>::empty());
        assert(r.state().out =~= Seq::<u8>::empty());
        r
    }

    /// Takes the next byte (`None`: the input ended); gives the outcome once the line is over.
    pub fn push(&mut self, b: Option<u8>) -> (r: Option<Result<Vec<u8>, ReadError>>)
        requires
            old(self).wf(),
        ensures
            final(self).wf(),
            final(self).max_spec() == old(self).max_spec(),
            ({
                let (st, o) = scan_step(old(self).state(), b, old(self).max_spec() as nat);
                &&& final(self).state() == st
                &&& match (r, o) {
                    (None, None) => true,
                    (Some(Ok(v)), Some(Ok(w))) => v@ == w,
                    (Some(Err(e1)), Some(Err(e2))) => e1 == e2,
                    _ => false,
                }
            }),
    {
        match b {
            None => {
                let so = self.space_only && self.pending.len() != 0;
                self.space_only = so;
                if so {
                    Some(Err(ReadError::RfcViolation))
                } else {
                    Some(Ok(crate::text::copy_range(self.out.as_slice(), 0, self.out.len())))
                }
            },
            Some(c) => {
                if c == 10 {
                    let len = self.pending.len();
                    let cr = len > 0 && self.pending[len - 1] == 13;
                    let n = if cr { len - 1 } else { len };
                    let so = if !cr && len == 0 { false } else { self.space_only };
                    let limit = self.limit + n;
                    if limit >= self.max {
                        return Some(Err(ReadError::HttpProtocol(
                            HttpVersion::Version1_0,
                            Standard::RequestHeaderFieldsTooLarge431,
                        )));
                    }
                    let ghost old_out = self.out@;
                    crate::text::append_bytes(&mut self.out, &self.pending.as_slice()[0..n]);
                    assert(self.out@ =~= old_out + old(self).pending@.take(n as int));
                    self.pending = Vec::new();
                    self.limit = limit;
                    self.space_only = so;
                    assert(self.state().pending =~= Seq::<u8>::empty());
                    if so {
                        Some(Err(ReadError::RfcViolation))
                    } else {
                        Some(Ok(crate::text::copy_range(self.out.as_slice(), 0, self.out.len())))
                    }
                } else if (c != 13 && c < 32 && c != 9) || c == 127 {
                    Some(Err(ReadError::RfcViolation))
                } else {
                    let so = self.space_only && (c == 32 || c == 9);
                    if self.pending.len() == 255 {
                        let limit = self.limit + 256;
                        if limit >= self.max {
                            return Some(Err(ReadError::HttpProtocol(
                                HttpVersion::Version1_0,
                                Standard::RequestHeaderFieldsTooLarge431,
                            )));
                        }
                        let ghost old_out = self.out@;
                        crate::text::append_bytes(&mut self.out, self.pending.as_slice());
                        self.out.push(c);
                        assert(self.out@ =~= old_out + old(self).pending@.push(c));
                        self.pending = Vec::new();
                        self.limit = limit;
                        self.space_only = so;
                        assert(self.state().pending =~= Seq::<u8>::empty());
                        None
                    } else {
                        self.pending.push(c);
                        self.space_only = so;
                        None
                    }
                }
            },
        }
    }
}

/// Only blanks in `s`.
pub open spec fn all_blank(s: Seq<u8>) -> bool {
    forall|i: int| 0 <= i < s.len() ==> #[trigger] blank_byte(s[i])
}

/// Bytes that go on a line without ending it or breaking it.
pub open spec fn plain_line_bytes(s: Seq<u8>) -> bool {
    forall|i: int| 0 <= i < s.len() ==> !forbidden_line_byte(#[trigger] s[i]) && s[i] != 10 && s[i] != 13
}

proof fn lemma_scan_plain_prefix(st: ScanView, line: Seq<u8>, rest: Seq<u8>, max: nat)
    requires
        st.pending.len() + line.len() < 256,
        plain_line_bytes(line),
    ensures
        scan_feed(st, line + rest, max) == scan_feed(
            ScanView {
                pending: st.pending + line,
                space_only: st.space_only && all_blank(line),
                ..st
            },
            rest,
            max,
        ),
    decreases line.len(),
{
    if line.len() == 0 {
        assert(line + rest =~= rest);
        assert(st.pending + line =~= st.pending);
    } else {
        let c = line[0];
        assert((line + rest)[0] == c);
        assert((line + rest).drop_first() =~= line.drop_first() + rest);
        let st2 = ScanView { pending: st.pending.push(c), space_only: st.space_only && blank_byte(c), ..st };
        assert(scan_step(st, Some(c), max) == (st2, None::<Result<Seq<u8>, ReadError>>));
        assert forall|i: int| 0 <= i < line.drop_first().len() implies !forbidden_line_byte(#[trigger] line.drop_first()[i])
            && line.drop_first()[i] != 10 && line.drop_first()[i] != 13 by {
            assert(line.drop_first()[i] == line[i + 1]);
        }
        lemma_scan_plain_prefix(st2, line.drop_first(), rest, max);
        assert(st2.pending + line.drop_first() =~= st.pending + line);
        assert((st.space_only && blank_byte(c)) && all_blank(line.drop_first()) <==> st.space_only && all_blank(line)) by {
            if all_blank(line) {
                assert forall|i: int| 0 <= i < line.drop_first().len() implies #[trigger] blank_byte(line.drop_first()[i]) by {
                    assert(line.drop_first()[i] == line[i + 1]);
                }
            }
            if blank_byte(c) && all_blank(line.drop_first()) {
                assert forall|i: int| 0 <= i < line.len() implies #[trigger] blank_byte(line[i]) by {
                    if i > 0 {
                        assert(line[i] == line.drop_first()[i - 1]);
                    }
                }
            }
        }
    }
}

/// Feeding a full block of plain bytes from an empty pending part moves the
/// block to the output and counts it against the limit.
proof fn lemma_scan_block(st: ScanView, block: Seq<u8>, rest: Seq<u8>, max: nat)
    requires
        st.pending.len() == 0,
        block.len() == 256,
        plain_line_bytes(block),
        st.limit + 256 < max,
    ensures
        scan_feed(st, block + rest, max) == scan_feed(
            ScanView {
                pending: seq![],
                out: st.out + block,
                limit: (st.limit + 256) as nat,
                space_only: st.space_only && all_blank(block),
            },
            rest,
            max,
        ),
{
    let head = block.take(255);
    let c = block[255];
    assert forall|i: int| 0 <= i < head.len() implies !forbidden_line_byte(#[trigger] head[i]) && head[i] != 10
        && head[i] != 13 by {
        assert(head[i] == block[i]);
    }
    assert(head + (seq![c] + rest) =~= block + rest);
    lemma_scan_plain_prefix(st, head, seq![c] + rest, max);
    let st1 = ScanView { pending: st.pending + head, space_only: st.space_only && all_blank(head), ..st };
    assert(st.pending + head =~= head);
    assert(head.push(c) =~= block);
    let st2 = ScanView {
        pending: seq![],
        out: st.out + block,
        limit: (st.limit + 256) as nat,
        space_only: st1.space_only && blank_byte(c),
    };
    assert(!forbidden_line_byte(c) && c != 10 && c != 13);
    assert(scan_step(st1, Some(c), max) == (st2, None::<Result<Seq<u8>, ReadError>>));
    assert((seq![c] + rest)[0] == c);
    assert((seq![c] + rest).drop_first() =~= rest);
    assert(st1.space_only && blank_byte(c) <==> st.space_only && all_blank(block)) by {
        if all_blank(block) {
            assert forall|i: int| 0 <= i < head.len() implies #[trigger] blank_byte(head[i]) by {
                assert(head[i] == block[i]);
            }
        }
        if all_blank(head) && blank_byte(c) {
            assert forall|i: int| 0 <= i < block.len() implies #[trigger] blank_byte(block[i]) by {
                if i < 255 {
                    assert(block[i] == head[i]);
                }
            }
        }
    }
}

/// A plain line fed from an empty pending part, followed by CR LF, is read
/// back after what was gathered before, when it stays under the limit and
/// its CR does not end a block.
proof fn lemma_scan_line_from(st: ScanView, line: Seq<u8>, max: nat)
    requires
        st.pending.len() == 0,
        plain_line_bytes(line),
        st.limit + line.len() < max,
        line.len() % 256 != 255,
        !(st.space_only && all_blank(line)),
    ensures
        scan_feed(st, line + seq![13u8, 10u8], max).1 == Some(Ok::<Seq<u8>, ReadError>(st.out + line)),
    decreases line.len(),
{
    if line.len() < 255 {
        lemma_scan_plain_prefix(st, line, seq![13u8, 10u8], max);
        let st1 = ScanView { pending: st.pending + line, space_only: st.space_only && all_blank(line), ..st };
        assert(st.pending + line =~= line);
        let st2 = ScanView { pending: line.push(13u8), space_only: false, ..st1 };
        assert(scan_step(st1, Some(13u8), max) == (st2, None::<Result<Seq<u8>, ReadError>>));
        assert(seq![13u8, 10u8].drop_first() =~= seq![10u8]);
        assert(seq![10u8].drop_first() =~= Seq::<u8>::empty());
        assert(line.push(13u8).take(line.len() as int) =~= line);
        assert(seq![13u8, 10u8][0] == 13u8);
        assert(scan_feed(st1, seq![13u8, 10u8], max) == scan_feed(st2, seq![10u8], max));
        assert(line.push(13u8).last() == 13u8);
        assert(scan_step(st2, Some(10u8), max).1 == Some(Ok::<Seq<u8>, ReadError>(st.out + line)));
        assert(scan_feed(st2, seq![10u8], max).1 == scan_step(st2, Some(10u8), max).1);
    } else {
        let block = line.take(256);
        let tail = line.skip(256);
        assert forall|i: int| 0 <= i < block.len() implies !forbidden_line_byte(#[trigger] block[i]) && block[i] != 10
            && block[i] != 13 by {
            assert(block[i] == line[i]);
        }
        assert forall|i: int| 0 <= i < tail.len() implies !forbidden_line_byte(#[trigger] tail[i]) && tail[i] != 10
            && tail[i] != 13 by {
            assert(tail[i] == line[i + 256]);
        }
        assert(block + (tail + seq![13u8, 10u8]) =~= line + seq![13u8, 10u8]);
        lemma_scan_block(st, block, tail + seq![13u8, 10u8], max);
        let st2 = ScanView {
            pending: seq![],
            out: st.out + block,
            limit: (st.limit + 256) as nat,
            space_only: st.space_only && all_blank(block),
        };
        assert(!(st2.space_only && all_blank(tail))) by {
            if st.space_only && all_blank(block) && all_blank(tail) {
                assert forall|i: int| 0 <= i < line.len() implies #[trigger] blank_byte(line[i]) by {
                    if i < 256 {
                        assert(line[i] == block[i]);
                    } else {
                        assert(line[i] == tail[i - 256]);
                    }
                }
            }
        }
        assert(tail.len() % 256 == line.len() % 256) by (nonlinear_arith)
            requires
                tail.len() == line.len() - 256,
                line.len() >= 256,
        ;
        lemma_scan_line_from(st2, tail, max);
        assert(st.out + block + tail =~= st.out + line);
    }
}

/// A line with no control bytes and not only blanks, shorter than `max`,
/// followed by CR LF, is read back as it is, unless its CR is the last byte
/// of a block of 256.
pub proof fn lemma_scan_reads_line(line: Seq<u8>, max: nat)
    requires
        line.len() < max,
        line.len() % 256 != 255,
        plain_line_bytes(line),
        !all_blank(line),
    ensures
        scan_feed(scan_start(), line + seq![13u8, 10u8], max).1 == Some(Ok::<Seq<u8>, ReadError>(line)),
{
    lemma_scan_line_from(scan_start(), line, max);
    assert(Seq::<u8>::empty() + line =~= line);
}

} // verus!

verus! {

/// A request line made of a method, a path (both of allowed bytes, not
/// empty) and a version up to HTTP/1.1, joined by single spaces, reads back
/// as them.
pub proof fn lemma_request_line_roundtrip(m: Seq<u8>, p: Seq<u8>, v: HttpVersion)
    requires
        m.len() > 0,
        p.len() > 0,
        forall|i: int| 0 <= i < m.len() ==> #[trigger] request_line_byte(m[i]),
        forall|i: int| 0 <= i < p.len() ==> #[trigger] request_line_byte(p[i]),
        v.rank() <= 2,
    ensures
        request_line_spec(m + seq![32u8] + p + seq![32u8] + crate::common::http_version::text_bytes(v.header_spec()))
            == Ok::<(Seq<u8>, Seq<u8>, HttpVersion), ReadError>((m, p, v)),
{
    let h = crate::common::http_version::text_bytes(v.header_spec());
    crate::common::http_version::lemma_version_text_roundtrip(v);
    let line = m + seq![32u8] + p + seq![32u8] + h;
    let s1 = m.len() as int;
    let s2 = s1 + 1 + p.len();
    assert forall|j: int| 0 <= j < s1 implies #[trigger] line[j] != 32u8 by {
        assert(line[j] == m[j]);
        assert(request_line_byte(m[j]));
    }
    assert(line[s1] == 32u8);
    lemma_find_byte_is(line, 32u8, s1);
    let rest = line.skip(s1 + 1);
    assert forall|j: int| 0 <= j < p.len() implies #[trigger] rest[j] != 32u8 by {
        assert(rest[j] == p[j]);
        assert(request_line_byte(p[j]));
    }
    assert(rest[p.len() as int] == 32u8);
    lemma_find_byte_is(rest, 32u8, p.len() as int);
    assert(second_space(line, s1) == s2);
    assert(line[s2 + 1] == h[0]);
    assert forall|i: int| 0 <= i < s2 + 2 implies #[trigger] line[i] == 32u8 || request_line_byte(line[i]) by {
        if i < s1 {
            assert(line[i] == m[i]);
        } else if s1 < i < s2 {
            assert(line[i] == p[i - s1 - 1]);
        }
    }
    assert(line.take(s1) =~= m);
    assert(line.subrange(s1 + 1, s2) =~= p);
    assert(line.skip(s2 + 1) =~= h);
}

} // verus!
