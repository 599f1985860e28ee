use tiny_http::client::{IoFailure, ReadError};
use tiny_http::common::connection_header::ConnectionValue;
use tiny_http::common::content_type::ContentType;
use tiny_http::common::header::Header;
use tiny_http::common::http_version::HttpVersion;
use tiny_http::common::method::Method;
use tiny_http::common::status_code::StatusCode;
use tiny_http::request::{check_buffered_length, read_error_from_create, BodyKind, CreateError, RequestInfo};
use tiny_http::response::standard::Standard;
use tiny_http::response::Response;

fn headers(list: &[(&str, &str)]) -> Vec<Header> {
    list.iter().map(|(f, v)| Header::from_bytes(f.as_bytes(), v.as_bytes()).unwrap()).collect()
}

fn create(list: &[(&str, &str)]) -> Result<(RequestInfo, BodyKind), CreateError> {
    RequestInfo::create(1024, headers(list), Method::Post, String::from("/"), false, HttpVersion::Version1_1)
}

#[test]
fn body_plans() {
    let (info, kind) = create(&[("Content-Length", "10")]).unwrap();
    assert_eq!(kind, BodyKind::Buffered { length: 10, connection_close: false });
    assert_eq!(info.content_length(), Some(10));
    assert!(!info.expect_continue());

    let (_, kind) = create(&[("Content-Length", "10"), ("Connection", "close")]).unwrap();
    assert_eq!(kind, BodyKind::Buffered { length: 10, connection_close: true });

    let (info, kind) = create(&[("Content-Length", "10"), ("Expect", "100-continue")]).unwrap();
    assert_eq!(kind, BodyKind::Limited(10));
    assert!(info.expect_continue());

    assert_eq!(create(&[("Expect", "something")]).unwrap_err(), CreateError::Expect);

    let (_, kind) = create(&[("Content-Length", "5000")]).unwrap();
    assert_eq!(kind, BodyKind::Limited(5000));

    let (info, kind) = create(&[("Transfer-Encoding", "chunked"), ("Content-Length", "10")]).unwrap();
    assert_eq!(kind, BodyKind::Chunked);
    assert_eq!(info.content_length(), None);

    let (_, kind) = create(&[("Connection", "Upgrade"), ("Content-Length", "10")]).unwrap();
    assert_eq!(kind, BodyKind::Upgrade);

    let (_, kind) = create(&[("Content-Length", "0")]).unwrap();
    assert_eq!(kind, BodyKind::Empty);
    let (_, kind) = create(&[]).unwrap();
    assert_eq!(kind, BodyKind::Empty);

    let (info, _) = create(&[("content-type", "application/json")]).unwrap();
    assert_eq!(info.content_type(), Some(ContentType::ApplicationJson));
    assert_eq!(info.url(), "/");
    assert_eq!(info.method(), &Method::Post);
    assert_eq!(info.http_version(), HttpVersion::Version1_1);
    assert!(!info.secure());
}

#[test]
fn buffered_lengths() {
    assert_eq!(check_buffered_length(10, 10, false), Ok(()));
    assert_eq!(check_buffered_length(11, 10, false), Ok(()));
    assert_eq!(check_buffered_length(11, 10, true), Err(CreateError::ContentLength));
    assert_eq!(check_buffered_length(9, 10, false), Err(CreateError::ContentLength));
}

#[test]
fn create_errors_map() {
    let v = HttpVersion::Version1_1;
    assert_eq!(read_error_from_create(CreateError::ContentLength, v), ReadError::HttpProtocol(v, Standard::BadRequest400));
    assert_eq!(read_error_from_create(CreateError::Expect, v), ReadError::ExpectationFailed(v));
    assert_eq!(read_error_from_create(CreateError::IoError(IoFailure::Other), v), ReadError::ReadIoError(IoFailure::Other));
}

#[test]
fn respond_updates_headers() {
    let (mut info, _) = RequestInfo::create(
        1024,
        headers(&[("Connection", "keep-alive")]),
        Method::Get,
        String::from("/"),
        false,
        HttpVersion::Version1_0,
    )
    .unwrap();
    let mut response = Response::from_str("x");
    info.respond_update_headers(&mut response);
    assert_eq!(info.http_version(), HttpVersion::Version1_1);
    let hs = response.headers().unwrap();
    assert_eq!(hs.len(), 2);
    assert_eq!(hs[1].to_string(), "Connection: keep-alive");

    info.set_connection_header(Some(ConnectionValue::Close));
    let mut response = Response::empty(StatusCode(408));
    info.respond_update_headers(&mut response);
    let hs = response.headers().unwrap();
    assert_eq!(hs.len(), 1);
    assert_eq!(hs[0].to_string(), "Connection: close");

    info.set_connection_header(None);
    let mut response = Response::empty(StatusCode(200));
    info.respond_update_headers(&mut response);
    assert!(response.headers().is_none());
}

#[test]
fn request_header_lookups() {
    let (mut info, _) = create(&[("X-A", "1"), ("x-a", "2")]).unwrap();
    assert_eq!(info.header(b"X-A", None).unwrap().len(), 2);
    assert_eq!(info.header_first(b"x-A").unwrap().value.as_str(), "1");
    assert_eq!(info.header_last(b"x-A").unwrap().value.as_str(), "2");
    assert_eq!(info.headers().len(), 2);
    assert!(info.connection_header().is_none());
    assert!(!info.take_continue());
    assert!(!info.expect_continue());
}

#[test]
fn must_be_send() {
    #![allow(dead_code)]
    fn f<T: Send>(_: &T) {}
    fn bar(rq: &RequestInfo) {
        f(rq);
    }
}

#[test]
fn unreadable_request_headers_are_told_apart() {
    assert!(tiny_http::request::request_headers_readable_check(&headers(&[("Connection", "close")])));
    assert!(tiny_http::request::request_headers_readable_check(&headers(&[("Content-Type", "text/plain; charset=utf8")])));
    assert!(!tiny_http::request::request_headers_readable_check(&headers(&[("Content-Type", "text/plain;")])));
    assert!(!tiny_http::request::request_headers_readable_check(&headers(&[("Connection", "close, ,x")])));
    // only the first header of a field counts
    assert!(tiny_http::request::request_headers_readable_check(&headers(&[
        ("Content-Type", "text/plain"),
        ("Content-Type", "text/plain;"),
    ])));
}

#[test]
fn continue_is_owed_once() {
    let (mut info, _) = create(&[("Content-Length", "10"), ("Expect", "100-continue")]).unwrap();
    assert!(info.expect_continue());
    assert!(info.take_continue());
    assert!(!info.take_continue());
    assert!(!info.expect_continue());
}
