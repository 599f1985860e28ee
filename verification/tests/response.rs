use tiny_http::common::range_header::RangeOutcome;
use std::str::FromStr;

use tiny_http::common::header::{Header, HeaderError, HeaderField};
use tiny_http::common::http_version::HttpVersion;
use tiny_http::common::status_code::StatusCode;
use tiny_http::response::date::date_header;
use tiny_http::response::transfer_encoding::TransferEncoding;
use tiny_http::response::util::{write_message_header, HeaderFieldSet};
use tiny_http::response::Response;

fn build_date_header() -> Header {
    date_header(1_700_000_000)
}

#[test]
fn response_test_filter_header() -> Result<(), HeaderError> {
    let mut set = HeaderFieldSet::new();
    set.insert(HeaderField::from_str("Server")?);
    assert!(set.contains(&HeaderField::from_str("server")?));

    let mut filter = HeaderFieldSet::new();
    filter.insert(HeaderField::from_str("Date")?);
    let writer = write_message_header(
        HttpVersion::Version1_1,
        200.into(),
        &[build_date_header(), Header::from_str("Server: tiny-http").unwrap()],
        &None,
        &Some(filter),
    );
    let s = String::from_utf8(writer).expect("no utf8");
    assert!(s.contains("Server:"), "{}", s);
    assert!(s.contains("Date:"), "{}", s);

    let mut filter = HeaderFieldSet::new();
    filter.insert(HeaderField::from_str("Server")?);
    let writer = write_message_header(
        HttpVersion::Version1_1,
        200.into(),
        &[build_date_header(), Header::from_str("Server: tiny-http").unwrap()],
        &None,
        &Some(filter),
    );
    let s = String::from_utf8(writer).expect("no utf8");
    assert!(!s.contains("Server:"), "{}", s);
    Ok(())
}

#[test]
fn util_test_filter_header() -> Result<(), HeaderError> {
    let mut set = HeaderFieldSet::new();
    set.insert(HeaderField::from_str("Server")?);
    assert!(set.contains(&HeaderField::from_str("server")?));

    let mut filter = HeaderFieldSet::new();
    filter.insert(HeaderField::from_bytes(b"Date")?);
    let writer = write_message_header(
        HttpVersion::Version1_1,
        StatusCode(200),
        &[],
        &Some(vec![build_date_header(), Header::from_bytes(b"Server", b"tiny-http").unwrap()]),
        &Some(filter),
    );
    let s = String::from_utf8(writer).expect("no utf8");
    assert!(s.contains("Server:"), "{}", s);
    assert!(s.contains("Date:"), "{}", s);

    let mut filter = HeaderFieldSet::new();
    filter.insert(HeaderField::from_str("Server")?);
    let writer = write_message_header(
        HttpVersion::Version1_1,
        StatusCode(200),
        &[],
        &Some(vec![build_date_header(), Header::from_str("Server: tiny-http").unwrap()]),
        &Some(filter),
    );
    let s = String::from_utf8(writer).expect("no utf8");
    assert!(!s.contains("Server:"), "{}", s);
    Ok(())
}

#[test]
fn response_test_with_header() -> Result<(), HeaderError> {
    let mut response = Response::empty(StatusCode(200));
    response = response.with_header(Header::from_str("Content-Type: text/plain")?)?;
    assert!(Header::from_str("BlaBla").is_err());
    let result = response.with_header(Header::from_str("Connection: close")?);
    assert!(result.is_err());
    Ok(())
}

#[test]
fn mod_test_with_header() -> Result<(), HeaderError> {
    let mut response = Response::empty(StatusCode(200));
    response = response.with_header(Header::from_str("Content-Type: text/plain")?)?;
    assert!(Header::from_str("BlaBla").is_err());
    let result = response.with_header(Header::from_str("Connection: close")?);
    assert!(result.is_err());
    Ok(())
}

#[test]
fn response_test_with_headers() -> Result<(), HeaderError> {
    let mut response = Response::empty(StatusCode(200));
    response = response.with_headers(Vec::from([
        Header::from_str("Content-Type: text/plain")?,
        Header::from_str("Content-Length: 100")?,
    ]))?;
    let result = response.with_headers(Vec::from([
        Header::from_str("Content-Type: text/plain")?,
        Header::from_str("Connection: close")?,
    ]));
    assert!(result.is_err());
    Ok(())
}

#[test]
fn mod_test_with_headers() -> Result<(), HeaderError> {
    let mut response = Response::empty(StatusCode(200));
    response = response.with_headers(Vec::from([
        Header::from_str("Content-Type: text/plain")?,
        Header::from_str("Content-Length: 100")?,
    ]))?;
    assert_eq!(response.data_length(), Some(100));
    let result = response.with_headers(Vec::from([
        Header::from_str("Content-Type: text/plain")?,
        Header::from_str("Connection: close")?,
    ]));
    assert!(result.is_err());
    Ok(())
}

#[test]
fn test_add_content_length_header() {
    let mut response = Response::from_status(StatusCode(200));
    response.add_header(Header::from_bytes(b"Content-Length", b"123456").unwrap()).unwrap();
    assert_eq!(response.data_length().unwrap(), 123_456_usize);
}

#[test]
fn test_add_header() {
    let mut response = Response::from_status(StatusCode(200));

    for header in [
        Header::from_bytes(b"Content-Type", b"application/json").unwrap(),
        Header::from_bytes(b"Content-Type", b"application/binary").unwrap(),
        Header::from_bytes(b"X-Sample-Header", b"test").unwrap(),
        Header::from_bytes(b"X-Sample-Header", b"test").unwrap(),
    ] {
        response.add_header(header.clone()).unwrap();

        if header.field.equiv("Content-Type") {
            let count = response.headers().unwrap().iter().filter(|h| h.field == header.field).count();
            assert_eq!(count, 1, "count: {count} header: {header:?}");

            let count = response
                .headers()
                .unwrap()
                .iter()
                .filter(|h| h.field == header.field && h.value == header.value)
                .count();
            assert_eq!(count, 1, "count: {count} header: {header:?}");
        } else {
            let count = response
                .headers()
                .unwrap()
                .iter()
                .filter(|h| {
                    let _a = h.field.as_str().to_owned();
                    let _b = header.field.as_str().to_owned();
                    h.field == header.field && h.value == header.value
                })
                .count();
            assert!(count >= 1, "count: {}, header: {:?}", count, header);
        }
    }
}

#[test]
fn add_header_errors() {
    let mut response = Response::empty(StatusCode(200));
    assert_eq!(
        response.add_header(Header::from_bytes(b"Content-Length", b"12a").unwrap()),
        Err(HeaderError::Format)
    );
    assert_eq!(
        response.add_header(Header::from_bytes(b"upgrade", b"x").unwrap()),
        Err(HeaderError::NonModifiable)
    );
    assert_eq!(response.filter_header(HeaderField::from_str("DATE").unwrap()), Err(HeaderError::NonModifiable));
    assert_eq!(response.filter_header(HeaderField::from_str("Trailer").unwrap()), Err(HeaderError::NonModifiable));
    assert_eq!(response.filter_header(HeaderField::from_str("X-Secret").unwrap()), Ok(()));
    assert_eq!(response.data_length(), Some(0));
}

#[test]
fn response_constructors() {
    let r = Response::from_data(vec![1, 2, 3]);
    assert_eq!(r.data_length(), Some(3));
    assert_eq!(r.status_code(), StatusCode(200));
    let r = Response::from_string(String::from("hé"));
    assert_eq!(r.data_length(), Some(3));
    assert_eq!(r.headers().unwrap()[0].to_string(), "Content-Type: text/plain; charset=utf8");
    let r = Response::from_str("abc").with_status_code(StatusCode(201)).with_chunked_threshold(5);
    assert_eq!(r.status_code(), StatusCode(201));
    assert_eq!(r.chunked_threshold(), 5);
    assert_eq!(Response::from_slice(b"xy").chunked_threshold(), 32768);
    let r = Response::from_status(StatusCode(404));
    assert_eq!(r.data_length(), Some(9));
    let r = Response::new(
        StatusCode(202),
        vec![Header::from_bytes(b"Connection", b"close").unwrap(), Header::from_bytes(b"Content-Length", b"7").unwrap()],
        std::io::empty(),
        None,
        Some(vec![Header::from_bytes(b"X-A", b"1").unwrap()]),
    );
    assert_eq!(r.data_length(), Some(7));
    assert_eq!(r.headers().unwrap().len(), 1);
    assert_eq!(r.status_code(), StatusCode(202));
}

#[test]
fn message_heads() {
    let date = build_date_header();
    let response = Response::from_str("hello");
    let te = response.transfer_encoding(HttpVersion::Version1_1, None, false);
    assert_eq!(te, Some(TransferEncoding::Identity));
    let (head, send_body) = response.message_head(&date, HttpVersion::Version1_1, te, None, false, None);
    let expected = format!(
        "HTTP/1.1 200 OK\r\n{}\r\nServer: tiny-http\r\nContent-Length: 5\r\nContent-Type: text/plain; charset=utf8\r\n\r\n",
        date.to_string()
    );
    assert_eq!(String::from_utf8(head).unwrap(), expected);
    assert!(send_body);

    let big = Response::from_data(vec![0; 40000]);
    assert_eq!(big.transfer_encoding(HttpVersion::Version1_1, None, false), Some(TransferEncoding::Chunked));
    assert_eq!(big.transfer_encoding(HttpVersion::Version1_0, None, false), Some(TransferEncoding::Identity));
    assert_eq!(big.transfer_encoding(HttpVersion::Version1_1, None, true), None);

    let empty = Response::empty(StatusCode(204));
    let (head, send_body) = empty.message_head(&date, HttpVersion::Version1_1, None, None, false, Some("websocket"));
    let text = String::from_utf8(head).unwrap();
    assert!(text.starts_with("HTTP/1.1 204 No Content\r\n"));
    assert!(text.contains("Connection: upgrade\r\nUpgrade: websocket\r\n"));
    assert!(!send_body);

    let head_only = Response::from_str("abc");
    let (head, send_body) = head_only.message_head(&date, HttpVersion::Version1_0, Some(TransferEncoding::Identity), None, true, None);
    let text = String::from_utf8(head).unwrap();
    assert!(!text.contains("Content-Length"));
    assert!(!text.contains("Content-Type"));
    assert!(!send_body);
}

#[test]
fn transfer_encoding_preferences() {
    let r = Response::from_str("abc");
    let prefs = vec![b"gzip".to_vec(), b"chunked".to_vec()];
    assert_eq!(r.transfer_encoding(HttpVersion::Version1_1, Some(&prefs), false), Some(TransferEncoding::Chunked));
    let prefs = vec![b"gzip".to_vec()];
    assert_eq!(r.transfer_encoding(HttpVersion::Version1_1, Some(&prefs), false), Some(TransferEncoding::Identity));
    assert_eq!(TransferEncoding::parse(b"IDENTITY"), Ok(TransferEncoding::Identity));
}

#[test]
fn default_response_is_empty_ok() {
    let r: Response<std::io::Cursor<Vec<u8>>> = Response::default();
    assert_eq!(r.status_code(), StatusCode(200));
    assert_eq!(r.data_length(), None);
    assert!(r.headers().is_none());
    assert!(r.into_reader().is_none());
}

#[test]
fn cloned_responses_keep_head() {
    let r = tiny_http::response::standard::Standard::response(&tiny_http::response::standard::Standard::NotFound404);
    let c = r.clone();
    assert_eq!(c.status_code(), StatusCode(404));
    assert_eq!(c.data_length(), r.data_length());
    assert_eq!(c.headers().map(|h| h.len()), r.headers().map(|h| h.len()));
    let mut body = String::new();
    std::io::Read::read_to_string(&mut c.into_reader().unwrap(), &mut body).unwrap();
    assert_eq!(body, "Not Found");

    let e = Response::empty(StatusCode(204)).with_header("X-A: b".parse().unwrap()).unwrap();
    let c = e.clone();
    assert_eq!(c.status_code(), StatusCode(204));
    assert_eq!(c.data_length(), Some(0));
    assert_eq!(c.headers().unwrap()[0].to_string(), e.headers().unwrap()[0].to_string());
}

#[test]
fn http_0_9_responses_have_no_head() {
    let response = Response::from_string(String::from("hello"));
    let te = response.transfer_encoding(HttpVersion::Version0_9, None, false);
    assert_eq!(te, Some(TransferEncoding::Identity));
    let (head, send_body) = response.message_head(&build_date_header(), HttpVersion::Version0_9, te, None, false, None);
    assert!(head.is_empty());
    assert!(send_body);
}

#[test]
fn constructor_bodies() {
    let mut body = Vec::new();
    std::io::Read::read_to_end(&mut Response::from_data(vec![1u8, 2, 3]).into_reader().unwrap(), &mut body).unwrap();
    assert_eq!(body, vec![1u8, 2, 3]);
    let mut text = String::new();
    std::io::Read::read_to_string(&mut Response::from_string(String::from("héllo")).into_reader().unwrap(), &mut text).unwrap();
    assert_eq!(text, "héllo");
    let mut text = String::new();
    std::io::Read::read_to_string(&mut Response::from_str("abc").into_reader().unwrap(), &mut text).unwrap();
    assert_eq!(text, "abc");
    let mut body = Vec::new();
    std::io::Read::read_to_end(&mut Response::from_slice(b"xy").into_reader().unwrap(), &mut body).unwrap();
    assert_eq!(body, b"xy");
}

#[test]
fn range_outcomes_applied() {
    let mut r = Response::new(StatusCode(200), vec![], std::io::Cursor::new(vec![0u8; 10]), Some(10), None);
    r.apply_range(RangeOutcome::Partial { first: 5, last: 9 });
    assert_eq!(r.status_code(), StatusCode(206));
    let h = r.headers().unwrap().last().unwrap();
    assert_eq!(h.to_string(), "Content-Range: bytes 5-9/10");

    let mut r = Response::new(StatusCode(200), vec![], std::io::Cursor::new(vec![0u8; 10]), Some(10), None);
    r.apply_range(RangeOutcome::Unsatisfied);
    assert_eq!(r.status_code(), StatusCode(416));
    assert!(r.headers().unwrap().last().unwrap().to_string().starts_with("Content-Range: bytes "));
}
