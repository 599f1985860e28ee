use std::str::FromStr;

use tiny_http::common::header::{
    field_byte_range_check, field_value_byte_range_check, header_forbidden, Header, HeaderError,
    HeaderField, HeaderFieldValue,
};
use tiny_http::common::header_data::HeaderData;
use tiny_http::response::date::date_header;

#[test]
fn field_converter_byte_range_check_test() {
    assert!(HeaderField::from_bytes(b"user@host").is_err());
    assert!("user@host".parse::<HeaderField>().is_err());
    assert!(HeaderField::from_bytes(&b"user@host"[..]).is_err());
    assert!(HeaderField::from_bytes(ascii::AsciiStr::from_ascii("user@host").unwrap().as_bytes()).is_err());
    assert!(HeaderField::from_bytes(ascii::AsciiString::from_ascii("user@host").unwrap().as_bytes()).is_err());
}

#[test]
fn field_value_converter_byte_range_check_test() {
    assert!(HeaderFieldValue::from_bytes(b"\n").is_err());
    assert!("\n".parse::<HeaderFieldValue>().is_err());
    assert!(HeaderFieldValue::from_bytes(&b"\n"[..]).is_err());
    assert!(HeaderFieldValue::from_bytes(ascii::AsciiStr::from_ascii("\n").unwrap().as_bytes()).is_err());
    assert!(HeaderFieldValue::from_bytes(ascii::AsciiString::from_ascii("\n").unwrap().as_bytes()).is_err());
}

#[test]
fn field_byte_range_check_test() {
    let field_ok_array = &[
        "Host",
        "HOST",
        "host",
        "User-Agent",
        "Upgrade-Insecure-Requests",
        "X_CUSTOM_HEADER",
        "$X_CUSTOM_HEADER",
    ];
    for s in field_ok_array {
        assert!(field_byte_range_check(s.as_bytes()).is_ok(), "field: {}", s);
    }

    let field_err_array = &[
        "\"Host\"",
        "HOST:",
        "user@host",
        "User-(Mozilla-Agent",
        "User-Mozilla)-Agent",
        "Upgrade-Insecure-Requests;",
        "Upgrade-Insecure-Requests,",
        "{$X_CUSTOM_HEADER",
        "$X_CUSTOM_HEADER}",
        "Host\rHost: localhost",
        "Host\0",
        "Host\n",
        "Host\\",
        "Host<user",
        "Host>user",
        "Host=user",
        "Host/user",
        "User-[Mozilla-Agent",
        "User-Mozilla]-Agent",
        "Host?",
        " Host",
        "\tHost",
        "\tHost",
    ];
    for s in field_err_array {
        assert!(field_byte_range_check(s.as_bytes()).is_err(), "field: {}", s);
    }
}

#[test]
fn field_value_byte_range_check_test() {
    let value_ok_array = &[
        "Mozilla/5.0 (X11; Linux x86_64; rv:109.0) Gecko/20100101 Firefox/115.0",
        "Mozilla/5.0 (X11; Linux x86_64; rv:109.0)\tGecko/20100101 Firefox/115.0",
        "text/html,application/xhtml+xml,application/xml;q=0.9,image/avif,image/webp,*/*;q=0.8",
    ];
    for s in value_ok_array {
        assert!(field_value_byte_range_check(s.as_bytes()).is_ok(), "value: {}", s);
    }

    let value_err_array = &[
        "Mozilla/5.0 (X11; Linux x86_64; rv:109.0) Gecko/20100101 Firefox/115.0\r",
        "Mozilla/5.0 (X11; Linux x86_64; rv:109.0) Gecko/20100101 Firefox/115.0\n",
        "Mozilla/5.0 (X11; Linux x86_64; rv:109.0) Gecko/20100101 Firefox/115.0\0",
    ];
    for s in value_err_array {
        assert!(field_value_byte_range_check(s.as_bytes()).is_err(), "value: {}", s);
    }

    for b in [8_u8, 31, 127] {
        assert!(field_value_byte_range_check(&[b]).is_err(), "value: {:X}", b);
    }
}

#[test]
fn formats_date_correctly_test() {
    let header = date_header(420_895_020);
    assert_eq!(header.value.as_str(), "Wed, 04 May 1983 11:17:00 GMT");
    assert!(header.field.equiv("Date"));
}

#[test]
fn header_forbidden_lc_test() {
    for h in header_forbidden() {
        assert_eq!(h, &h.to_lowercase());
    }
}

#[test]
fn header_try_from_ascii_test() {
    let s = ascii::AsciiStr::from_ascii("Content-Type: text/html").unwrap();
    let header: Header = Header::parse_line(s.as_bytes()).unwrap();

    assert!(header.field.equiv("content-type"));
    assert!(header.value.as_str() == "text/html");
}

#[test]
fn header_with_doublecolon_try_from_ascii_test() {
    let s = ascii::AsciiStr::from_ascii("Time: 20: 34").unwrap();
    let header: Header = Header::parse_line(s.as_bytes()).unwrap();

    assert!(header.field.equiv("time"));
    assert!(header.value.as_str() == "20: 34");
}

#[test]
fn parse_header_test() {
    let s = "Content-Type: text/html";
    let header: Header = s.parse().unwrap();

    assert!(header.field.equiv("content-type"));
    assert!(header.value.as_str() == "text/html");

    assert_eq!(&header.to_string(), s);

    assert!("hello world".parse::<Header>().is_err());
}

#[test]
fn parse_header_with_doublecolon_test() {
    let header: Header = "Time: 20: 34".parse().unwrap();

    assert!(header.field.equiv("time"));
    assert!(header.value.as_str() == "20: 34");
}

#[test]
fn strict_headers_test() {
    assert!("Transfer-Encoding : chunked".parse::<Header>().is_err());
    assert!(" Transfer-Encoding: chunked".parse::<Header>().is_err());
    assert!("Transfer Encoding: chunked".parse::<Header>().is_err());
    assert!(" Transfer\tEncoding : chunked".parse::<Header>().is_err());
    assert!("Transfer-Encoding: chunked".parse::<Header>().is_ok());
    assert!("Transfer-Encoding: chunked ".parse::<Header>().is_ok());
    assert!("Transfer-Encoding:   chunked ".parse::<Header>().is_ok());
}

#[test]
fn strict_headers_try_from_ascii_test() {
    for s in [
        "Transfer-Encoding : chunked",
        " Transfer-Encoding: chunked",
        "Transfer Encoding: chunked",
        " Transfer\tEncoding : chunked",
    ] {
        let header = Header::parse_line(ascii::AsciiStr::from_ascii(s).unwrap().as_bytes());
        assert!(header.is_err(), "{} should not convert", s);
    }

    for s in ["Transfer-Encoding: chunked", "Transfer-Encoding: chunked ", "Transfer-Encoding:   chunked "] {
        let header = Header::parse_line(ascii::AsciiStr::from_ascii(s).unwrap().as_bytes());
        assert!(header.is_ok(), "{} should convert", s);
    }
}

fn sample_headers() -> Vec<Header> {
    vec![
        Header::from_bytes(b"Host", b"localhost").unwrap(),
        Header::from_bytes(b"Content-Length", b"69").unwrap(),
        Header::from_bytes(b"Content-Type", b"text/html").unwrap(),
        Header::from_bytes(b"X-Data", b"1").unwrap(),
        Header::from_bytes(b"x-data", b"2").unwrap(),
        Header::from_bytes(b"X-Data", b"3").unwrap(),
    ]
}

#[test]
fn header_header_data_test() {
    let data = HeaderData::new(sample_headers());

    assert_eq!(data.headers().len(), 6);

    let r1 = data.header(b"X-Data", Some(2));
    let r2 = data.header(b"X-Data", Some(2));
    assert_eq!(r1, r2);

    assert_eq!(r1.unwrap().len(), 2);
    assert_eq!(r2.unwrap().len(), 2);

    let r3 = data.header(b"content-type", None);
    let r3 = r3.unwrap();
    assert_eq!(r3.len(), 1);
    assert_eq!(r3[0].field.as_bytes(), b"Content-Type");

    let r4 = data.header(b"X-Data", None);
    assert_eq!(r4.unwrap().len(), 3);
}

#[test]
fn header_data_header_data_test() {
    let data = HeaderData::new(sample_headers());
    assert_eq!(data.headers().len(), 6);
    assert_eq!(data.header(b"X-Data", Some(2)).unwrap().len(), 2);
    assert_eq!(data.header(b"X-DATA", None).unwrap().len(), 3);
    assert_eq!(data.header(b"Not-Exist", None), None);
    assert_eq!(data.header_first(b"x-data").unwrap().value.as_str(), "1");
    assert_eq!(data.header_last(b"x-data").unwrap().value.as_str(), "3");
    assert_eq!(data.header(b"Host", Some(0)).unwrap().len(), 0);
}

#[test]
fn header_line_roundtrip_example() {
    let header = Header::from_bytes(b"X-Trace", b"a: b").unwrap();
    let line = header.to_string();
    assert_eq!(line, "X-Trace: a: b");
    let back: Header = line.parse().unwrap();
    assert_eq!(back.field.as_str(), "X-Trace");
    assert_eq!(back.value.as_str(), "a: b");
}

#[test]
fn header_error_variants() {
    assert_eq!(Header::parse_line(b"NoColon").unwrap_err(), HeaderError::Format);
    assert_eq!(Header::parse_line(b"Ends:").unwrap_err(), HeaderError::Format);
    assert_eq!(HeaderFieldValue::from_bytes(b"a\xffb").unwrap_err(), HeaderError::Ascii(1));
    assert_eq!(HeaderField::from_bytes(b"a\xffb").unwrap_err(), HeaderError::Range);
    assert_eq!(HeaderField::from_bytes(b"a b").unwrap_err(), HeaderError::Range);
    assert_eq!(HeaderFieldValue::from_bytes(b"\x01").unwrap_err(), HeaderError::Range);
    assert!(Header::is_modifieable(&HeaderField::from_str("Transfer-ENCODING").unwrap()));
    assert!(!Header::is_modifieable(&HeaderField::from_str("Content-Type").unwrap()));
}

#[test]
fn field_names_are_tokens() {
    for s in ["|", "~", "X|Y", "a~b", "!#$%&'*+-.^_`|~"] {
        assert!(field_byte_range_check(s.as_bytes()).is_ok(), "{s}");
    }
    assert_eq!(field_byte_range_check(b""), Err(HeaderError::Range));
    assert!(HeaderField::from_bytes(b"").is_err());
}

#[test]
fn header_values_lose_surrounding_blanks() {
    let h: Header = "Content-Length: 5 ".parse().unwrap();
    assert_eq!(h.value.as_str(), "5");
    let h: Header = "X-A:\t a b \t".parse().unwrap();
    assert_eq!(h.value.as_str(), "a b");
    let h: Header = "X-A:   ".parse().unwrap();
    assert_eq!(h.value.as_str(), "");
}
