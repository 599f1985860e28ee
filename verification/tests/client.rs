use tiny_http::client::ConnectionRun;
use tiny_http::client::{
    connection_after_request, parse_request_line, request_error_handler, ErrorReply, IoFailure,
    LineScanner, ReadError, RequestHeadReader,
};
use tiny_http::common::connection_header::ConnectionHeader;
use tiny_http::common::http_version::HttpVersion;
use tiny_http::common::method::Method;
use tiny_http::response::standard::Standard;

#[test]
fn parse_request_line_test() {
    let (method, path, ver) = parse_request_line(&b"GET /hello HTTP/1.1"[..]).unwrap();

    assert!(method == Method::Get);
    assert!(path == b"/hello");
    assert!(ver == HttpVersion::Version1_1);

    assert!(parse_request_line(&b"GET /hello"[..]).is_err());
    assert!(parse_request_line(&b"qsd qsd qsd"[..]).is_err());
    assert!(parse_request_line(&b" GET /hello HTTP/1.1"[..]).is_err());
    assert!(parse_request_line(&b"GET /hello HTTP/1.1 "[..]).is_err());
    assert!(parse_request_line(&b"GET   /hello HTTP/1.1"[..]).is_err());
    assert!(parse_request_line(&b"GET /hello   HTTP/1.1"[..]).is_err());

    assert!(parse_request_line(&b"GET /favicon.ico HTTP/1.1"[..]).is_ok());
    assert!(parse_request_line(&b"GET /hello?q=1 HTTP/1.1"[..]).is_ok());
    assert!(parse_request_line(&b"GET /hello?q=1#local HTTP/1.1"[..]).is_err());
    assert!(parse_request_line(&b"GET https://localhost:8080/index.html HTTP/1.1"[..]).is_ok());
    assert!(parse_request_line(&b"OPTIONS * HTTP/1.1"[..]).is_ok());

    let (method, _, _) = parse_request_line(&b"loGET /hello HTTP/1.1"[..]).unwrap();
    assert_eq!(method, Method::NonStandard(Some("loGET".parse().unwrap())));
}

#[test]
fn request_line_errors() {
    assert_eq!(parse_request_line(b"GET / HTTP/2").unwrap_err(), ReadError::HttpVersion(Some(HttpVersion::Version2)));
    assert_eq!(parse_request_line(b"GET / HTTP/9.9").unwrap_err(), ReadError::HttpVersion(None));
    assert_eq!(parse_request_line(b"GET / ").unwrap_err(), ReadError::HttpVersion(None));
    assert_eq!(parse_request_line(b"").unwrap_err(), ReadError::RequestLine);
    assert_eq!(parse_request_line(b"HEAD /x HTTP/1.0 trailing").unwrap_err(), ReadError::HttpVersion(None));
}

#[test]
fn error_replies() {
    let (reply, err) = request_error_handler(ReadError::ReadIoError(IoFailure::TimedOut));
    assert_eq!(reply, Some(ErrorReply { status: Standard::RequestTimeout408, version: None, do_not_send_body: false }));
    assert_eq!(err, ReadError::WouldBlock);
    let (reply, err) = request_error_handler(ReadError::ExpectationFailed(HttpVersion::Version1_1));
    assert_eq!(reply.unwrap().status, Standard::ExpectationFailed417);
    assert!(reply.unwrap().do_not_send_body);
    assert_eq!(err, ReadError::ExpectationFailed(HttpVersion::Version1_1));
    let (reply, _) = request_error_handler(ReadError::HttpVersion(None));
    assert_eq!(reply.unwrap().status, Standard::HttpVersionNotSupported505);
    let (reply, _) = request_error_handler(ReadError::ReadIoError(IoFailure::Other));
    assert!(reply.is_none());
    let (reply, _) = request_error_handler(ReadError::Header(HttpVersion::Version1_0));
    assert_eq!(reply.unwrap().version, Some(HttpVersion::Version1_0));
}

#[test]
fn connection_decisions() {
    let close = ConnectionHeader::parse(b"close").unwrap();
    let upgrade = ConnectionHeader::parse(b"Upgrade").unwrap();
    let upgrade_keep = ConnectionHeader::parse(b"upgrade, keep-alive").unwrap();
    let keep = ConnectionHeader::parse(b"keep-alive").unwrap();
    let v10 = HttpVersion::Version1_0;
    let v11 = HttpVersion::Version1_1;
    assert_eq!(connection_after_request(Some(&close), v11, true), (true, true));
    assert_eq!(connection_after_request(Some(&upgrade), v11, true), (true, false));
    assert_eq!(connection_after_request(Some(&upgrade_keep), v11, true), (false, false));
    assert_eq!(connection_after_request(Some(&keep), v10, true), (false, false));
    assert_eq!(connection_after_request(Some(&keep), v10, false), (true, true));
    assert_eq!(connection_after_request(Some(&keep), HttpVersion::Version0_9, true), (true, true));
    assert_eq!(connection_after_request(None, v10, true), (true, true));
    assert_eq!(connection_after_request(None, v11, true), (false, false));
    assert_eq!(connection_after_request(None, v11, false), (true, true));
}

fn scan(bytes: &[u8], max: usize) -> Option<Result<Vec<u8>, ReadError>> {
    let mut s = LineScanner::new(max);
    for b in bytes {
        if let Some(r) = s.push(Some(*b)) {
            return Some(r);
        }
    }
    s.push(None)
}

#[test]
fn line_scanning() {
    assert_eq!(scan(b"Host: x\r\n", 2048), Some(Ok(b"Host: x".to_vec())));
    assert_eq!(scan(b"Host: x\n", 2048), Some(Ok(b"Host: x".to_vec())));
    assert_eq!(scan(b"\r\n", 2048), Some(Ok(Vec::new())));
    assert_eq!(scan(b"  \n", 2048), Some(Err(ReadError::RfcViolation)));
    assert_eq!(scan(b"a\x01b\r\n", 2048), Some(Err(ReadError::RfcViolation)));
    assert_eq!(
        scan(b"abcdef\r\n", 4),
        Some(Err(ReadError::HttpProtocol(HttpVersion::Version1_0, Standard::RequestHeaderFieldsTooLarge431)))
    );
    assert_eq!(scan(b"", 2048), Some(Ok(Vec::new())));
    let long = vec![b'a'; 300];
    let mut line = long.clone();
    line.extend_from_slice(b"\r\n");
    assert_eq!(scan(&line, 2048), Some(Ok(long)));
}

#[test]
fn long_lines_read_back_but_at_block_ends() {
    for n in [256usize, 300, 510, 512, 600, 1000] {
        let text = vec![b'x'; n];
        let mut line = text.clone();
        line.extend_from_slice(b"\r\n");
        assert_eq!(scan(&line, 2048), Some(Ok(text)), "{n}");
    }
    // a CR that ends a block of 256 bytes stays in the line
    let text = vec![b'x'; 255];
    let mut line = text.clone();
    line.extend_from_slice(b"\r\n");
    let mut with_cr = text.clone();
    with_cr.push(b'\r');
    assert_eq!(scan(&line, 2048), Some(Ok(with_cr)));
}

#[test]
fn request_head_reading() {
    let mut head = RequestHeadReader::new(8192);
    assert_eq!(head.feed(Ok(b"GET /a HTTP/1.1".to_vec())), Ok(false));
    assert_eq!(head.feed(Ok(b"Host: x".to_vec())), Ok(false));
    assert_eq!(head.feed(Ok(b"Bad Header".to_vec())), Err(ReadError::Header(HttpVersion::Version1_1)));
    assert_eq!(head.feed(Ok(Vec::new())), Ok(true));
    let (m, p, v, hs) = head.into_parts().unwrap();
    assert_eq!(m, Method::Get);
    assert_eq!(p, "/a");
    assert_eq!(v, HttpVersion::Version1_1);
    assert_eq!(hs.len(), 1);

    let mut head = RequestHeadReader::new(8192);
    assert_eq!(
        head.feed(Err(ReadError::HttpProtocol(HttpVersion::Version1_0, Standard::RequestHeaderFieldsTooLarge431))),
        Err(ReadError::HttpProtocol(HttpVersion::Version1_0, Standard::UriTooLong414))
    );
    let mut head = RequestHeadReader::new(8192);
    assert_eq!(head.feed(Ok(Vec::new())), Err(ReadError::ReadIoError(IoFailure::TimedOut)));
    let mut head = RequestHeadReader::new(10);
    assert_eq!(
        head.feed(Ok(b"GET /abcdef HTTP/1.1".to_vec())),
        Err(ReadError::HttpProtocol(HttpVersion::Version1_0, Standard::RequestHeaderFieldsTooLarge431))
    );
    let mut head = RequestHeadReader::new(20);
    assert_eq!(head.feed(Ok(b"GET /a HTTP/1.0".to_vec())), Ok(false));
    assert_eq!(
        head.feed(Ok(b"Host: abcdef".to_vec())),
        Err(ReadError::HttpProtocol(HttpVersion::Version1_0, Standard::RequestHeaderFieldsTooLarge431))
    );
}

#[test]
fn no_request_after_a_closing_one() {
    let mut run = ConnectionRun::new();
    assert!(run.wants_request());
    assert!(!run.request_read(None, HttpVersion::Version1_1, true));
    assert!(run.wants_request());
    let close = ConnectionHeader::parse(b"close").unwrap();
    assert!(run.request_read(Some(&close), HttpVersion::Version1_1, true));
    assert!(!run.wants_request());
    // later requests cannot reopen it
    assert!(!run.request_read(None, HttpVersion::Version1_1, true));
    assert!(!run.wants_request());

    let mut run = ConnectionRun::new();
    assert!(run.request_read(None, HttpVersion::Version1_0, true));
    assert!(!run.wants_request());

    let mut run = ConnectionRun::new();
    run.read_failed();
    assert!(!run.wants_request());
}
