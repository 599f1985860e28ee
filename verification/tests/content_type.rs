use tiny_http::common::content_type::{content_type_lookup, content_types, ContentType};
use tiny_http::common::header::{Header, HeaderField};

#[test]
fn content_types_test() {
    let names = content_types();
    assert!(!names.is_empty());
    for (n, mt) in names.iter().enumerate() {
        assert_eq!(
            ContentType::from_bytes(mt.as_bytes()).unwrap(),
            ContentType::from_index(n).unwrap(),
            "problem: n = {n} mt = {mt}"
        );
    }
}

#[test]
fn content_type_lookup_test() {
    let names = content_types();
    assert!(!names.is_empty());
    for mt in names {
        assert!(content_type_lookup(mt.as_bytes()).is_some());
    }
}

#[test]
fn content_type_header_test() {
    assert_eq!(
        ContentType::ApplicationGzip.to_header(),
        "Content-Type: application/gzip".parse::<Header>().unwrap()
    );
}

#[test]
fn from_to_header_field_test() {
    assert_eq!(
        ContentType::ApplicationJson.to_header().field,
        "Content-Type".parse::<HeaderField>().unwrap()
    );
}

#[test]
fn try_from_header_test() {
    assert_eq!(
        ContentType::ApplicationGzip.to_header(),
        "Content-Type: application/gzip".parse().unwrap()
    );

    assert_eq!(
        ContentType::from_header(&"Content-Type: text/plain".parse::<Header>().unwrap()).unwrap(),
        ContentType::TextPlain
    );

    assert_eq!(
        ContentType::from_header(&"Content-Type: text/plain; charset=utf8".parse::<Header>().unwrap())
            .unwrap(),
        ContentType::TextPlainUtf8
    );

    assert_eq!(
        ContentType::from_header(&"Content-Type: text/plain; charset=iso8859-1".parse::<Header>().unwrap())
            .unwrap(),
        ContentType::TextPlain
    );

    assert_eq!(
        ContentType::from_header(&"Content-Type: text/plain; charset=utf-8".parse::<Header>().unwrap())
            .unwrap(),
        ContentType::TextPlainUtf8
    );

    assert_eq!(
        ContentType::from_header(&"Content-Type: application/gzip; charset=utf-8".parse::<Header>().unwrap())
            .unwrap(),
        ContentType::ApplicationGzip
    );
}

#[test]
fn content_type_lookup_with_field_and_case() {
    assert_eq!(content_type_lookup(b"Content-Type: TEXT/HTML"), Some(ContentType::TextHtml));
    assert_eq!(content_type_lookup(b"content-type:text/csv"), Some(ContentType::TextCsv));
    assert_eq!(content_type_lookup(b"text/html;charset=UTF-8"), Some(ContentType::TextHtmlUtf8));
    assert_eq!(content_type_lookup(b"text/unknown"), None);
    assert!(ContentType::from_header(&"Accept: text/plain".parse::<Header>().unwrap()).is_err());
}

#[test]
fn content_type_names_and_positions() {
    assert_eq!(ContentType::TextPlainUtf8.as_str(), "text/plain; charset=utf8");
    assert_eq!(ContentType::ApplicationGzip.index(), 0);
    assert_eq!(ContentType::from_index(content_types().len()), None);
}
