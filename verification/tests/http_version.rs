use tiny_http::common::http_version::{HttpVersion, HttpVersionError};
use tiny_http::common::status_code::StatusCode;

#[test]
fn test_parse_http_version() {
    let table = [
        ("HTTP/0.9", Some(HttpVersion::Version0_9)),
        ("HTTP/1.0", Some(HttpVersion::Version1_0)),
        ("HTTP/1.1", Some(HttpVersion::Version1_1)),
        ("HTTP/2", Some(HttpVersion::Version2)),
        ("HTTP/2.0", Some(HttpVersion::Version2)),
        ("HTTP/3", Some(HttpVersion::Version3)),
        ("HTTP/3.0", Some(HttpVersion::Version3)),
        ("0.9", Some(HttpVersion::Version0_9)),
        ("1.0", Some(HttpVersion::Version1_0)),
        ("1.1", Some(HttpVersion::Version1_1)),
        ("2", Some(HttpVersion::Version2)),
        ("2.0", Some(HttpVersion::Version2)),
        ("3", Some(HttpVersion::Version3)),
        ("3.0", Some(HttpVersion::Version3)),
        ("HTTP/0.8", None),
        ("HTTP/1.2", None),
        ("HTTP/2.1", None),
        ("HTTP1.1", None),
        ("1", None),
        ("HTTP 1.1", None),
        (" HTTP1.1", None),
        ("111", None),
    ];

    for entry in table {
        let v = HttpVersion::parse(ascii::AsciiStr::from_ascii(entry.0).unwrap().as_bytes());
        if let Some(src_v) = entry.1 {
            assert!(v.is_ok(), "[{}] error", src_v.number());
            assert_eq!(v.unwrap(), src_v);
        } else {
            assert!(v.is_err());
        }
    }
}

#[test]
fn http_version_texts() {
    assert_eq!(HttpVersion::Version1_1.header(), "HTTP/1.1");
    assert_eq!(HttpVersion::Version2.header(), "HTTP/2");
    assert_eq!(HttpVersion::Version0_9.number(), "0.9");
    assert!(HttpVersion::Version1_0 < HttpVersion::Version1_1);
    assert_eq!(HttpVersion::from_numbers(1, 2), Err(HttpVersionError(1, 2)));
    assert_eq!(HttpVersionError(1, 2).message_bytes(), b"unsupported HTTP/1.2".to_vec());
    assert_eq!(HttpVersionError(4, 0).message_bytes(), b"unsupported HTTP/4".to_vec());
}

#[test]
fn biggest_reasonphrase_len_test() {
    for n in 100..600 {
        let status_code = StatusCode(n);
        assert!(
            status_code.default_reason_phrase().len() <= 31,
            "write_message_header needs adjustment for longer phrase: {}",
            status_code.default_reason_phrase().len()
        );
    }
}

#[test]
fn reason_phrase_examples() {
    assert_eq!(StatusCode(404).default_reason_phrase(), "Not Found");
    assert_eq!(StatusCode(999).default_reason_phrase(), "Unknown");
    assert_eq!(StatusCode::from(201u16), StatusCode(201));
}
