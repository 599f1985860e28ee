use std::str::FromStr;

use tiny_http::common::header::Header;
use tiny_http::common::header_data::HeaderData;
use tiny_http::common::http_version::HttpVersion;
use tiny_http::common::method::Method;
use tiny_http::common::range_header::{
    content_range_for, create_ranges, is_content_range_unsatisfied, mark_unsatisfied,
    range_content_length, range_plan, ByteRange, RangeHeader, RangeOutcome, RangeUnit,
};
use tiny_http::common::status_code::StatusCode;
use tiny_http::response::result::Data;
use tiny_http::response::Response;

fn open_end(first: isize) -> ByteRange {
    ByteRange { complete_length: None, first_pos: Some(first), is_unsatisfied: false, last_pos: None }
}

fn suffix(last: isize) -> ByteRange {
    ByteRange { complete_length: None, first_pos: None, is_unsatisfied: false, last_pos: Some(last) }
}

#[test]
fn byte_range_test() {
    let values = ["0-499", "500-999", "-500", "9500-", " 0 - 499 ", " 500 - 999 ", " - 500 ", " 9500 - "];
    let results = [
        ByteRange::new(0, 499),
        ByteRange::new(500, 999),
        suffix(-500),
        open_end(9500),
        ByteRange::new(0, 499),
        ByteRange::new(500, 999),
        suffix(-500),
        open_end(9500),
    ];
    for v in values.iter().enumerate() {
        assert_eq!(ByteRange::parse(v.1.as_bytes()).unwrap(), results[v.0], "v: {}", v.1);
    }
}

#[test]
fn byte_range_to_string_test() {
    let ranges = [
        ByteRange::new(0, 499),
        ByteRange::new(500, 999),
        suffix(-500),
        open_end(9500),
        ByteRange::new(0, 499),
        ByteRange::new(500, 999),
        suffix(-500),
        open_end(9500),
        ByteRange { complete_length: Some(22222), first_pos: Some(9500), is_unsatisfied: false, last_pos: Some(9999) },
        ByteRange { complete_length: Some(22222), first_pos: None, is_unsatisfied: false, last_pos: Some(9999) },
        ByteRange { complete_length: Some(22222), first_pos: Some(9500), is_unsatisfied: false, last_pos: None },
        ByteRange { complete_length: Some(1111), first_pos: None, is_unsatisfied: true, last_pos: None },
    ];
    let results = [
        "0-499",
        "500-999",
        "-500",
        "9500-",
        "0-499",
        "500-999",
        "-500",
        "9500-",
        "9500-9999/22222",
        "0-9999/22222",
        "9500-22221/22222",
        "*/1111",
    ];
    for v in ranges.iter().enumerate() {
        let s = v.1.to_string();
        assert_eq!(&s, results[v.0], "s: {}", &s);
    }
}

#[test]
fn range_header_range_test() {
    let values = [
        "0-499",
        "500-999",
        "-500",
        "9500-",
        "0-0,-1",
        "0-999,4500-5499,-1000",
        " 0-999, 4500-5499, -1000",
        "500-600,601-999",
        "500-700,601-999",
    ];
    let results = [
        vec![ByteRange::new(0, 499)],
        vec![ByteRange::new(500, 999)],
        vec![suffix(-500)],
        vec![open_end(9500)],
        vec![ByteRange::new(0, 0), suffix(-1)],
        vec![ByteRange::new(0, 999), ByteRange::new(4500, 5499), suffix(-1000)],
        vec![ByteRange::new(0, 999), ByteRange::new(4500, 5499), suffix(-1000)],
        vec![ByteRange::new(500, 600), ByteRange::new(601, 999)],
        vec![ByteRange::new(500, 700), ByteRange::new(601, 999)],
    ];
    for v in values.iter().enumerate() {
        let header = Header::parse_line(format!("Range: bytes={}", v.1).as_bytes()).unwrap();
        let range_header =
            RangeHeader::parse(header.value.as_bytes()).unwrap_or_else(|()| panic!("v: {:?}", v));
        assert_eq!(range_header.range_unit, RangeUnit::Bytes);
        assert_eq!(range_header.ranges, results[v.0]);
    }
}

#[test]
fn range_header_overflow_test() {
    let values = [usize::MAX.to_string(), String::from("-") + &usize::MAX.to_string()];
    for v in values.iter().enumerate() {
        let header = Header::parse_line(format!("Range: bytes={}", v.1).as_bytes()).unwrap();
        let range_header =
            RangeHeader::parse(header.value.as_bytes()).unwrap_or_else(|()| panic!("v: {:?}", v));
        assert_eq!(range_header.range_unit, RangeUnit::Bytes);
        assert!(range_header.ranges[0].is_unsatisfied);
    }
}

#[test]
fn range_header_content_range_test() {
    let values = ["0-499/*", "500-999/31923", "-500/*", "9500-/*", "0-0/*", " 0-999 / *", "*/34738", " * / 34738 "];
    let results = [
        ByteRange { complete_length: None, first_pos: Some(0), is_unsatisfied: false, last_pos: Some(499) },
        ByteRange { complete_length: Some(31923), first_pos: Some(500), is_unsatisfied: false, last_pos: Some(999) },
        suffix(-500),
        open_end(9500),
        ByteRange { complete_length: None, first_pos: Some(0), is_unsatisfied: false, last_pos: Some(0) },
        ByteRange { complete_length: None, first_pos: Some(0), is_unsatisfied: false, last_pos: Some(999) },
        ByteRange { complete_length: Some(34738), first_pos: None, is_unsatisfied: true, last_pos: None },
        ByteRange { complete_length: Some(34738), first_pos: None, is_unsatisfied: true, last_pos: None },
    ];
    for v in values.iter().enumerate() {
        let header = Header::parse_line(format!("Content-Range:  bytes  {}", v.1).as_bytes()).unwrap();
        let range_header =
            RangeHeader::parse(header.value.as_bytes()).unwrap_or_else(|()| panic!("v: {:?}", v));
        assert_eq!(range_header.range_unit, RangeUnit::Bytes);
        assert_eq!(range_header.ranges[0], results[v.0]);
    }
}

#[test]
fn range_unit_convert_test() {
    for p in [("bytes", RangeUnit::Bytes), ("none", RangeUnit::NoRanges)] {
        assert_eq!(RangeUnit::parse(p.0.as_bytes()).unwrap(), p.1);
        assert_eq!(RangeUnit::parse(p.0.as_bytes()).unwrap(), p.1);

        let header = Header::from_str(&(String::from("Accept-Ranges: ") + p.0)).unwrap();
        assert_eq!(RangeUnit::parse(header.value.as_bytes()).unwrap(), p.1);
    }
}

#[test]
fn range_unit_to_string_test() {
    for p in [("bytes", RangeUnit::Bytes), ("none", RangeUnit::NoRanges)] {
        assert_eq!(p.1.to_string(), p.0);
    }
}

#[test]
fn byte_range_setters() {
    let mut r = ByteRange::new(1, 2);
    r.set_complete_length(Some(10));
    assert_eq!(r.complete_length, Some(10));
    r.set_unsatisfied();
    assert!(r.is_unsatisfied);
    assert_eq!(r.to_string(), "*/10");
}

#[test]
fn byte_range_roundtrip_example() {
    let r = ByteRange { complete_length: Some(100), first_pos: Some(5), is_unsatisfied: false, last_pos: Some(9) };
    assert_eq!(ByteRange::parse(r.to_string().as_bytes()).unwrap(), r);
}

#[test]
fn range_header_texts() {
    let h = RangeHeader::parse(b"bytes=0-0,-1").unwrap();
    assert_eq!(h.to_bytes(), b"bytes 0-0,--1".to_vec());
    let none = RangeHeader::parse(b"none").unwrap();
    assert_eq!(none.range_unit, RangeUnit::NoRanges);
    assert_eq!(none.to_bytes(), b"none".to_vec());
    assert!(RangeHeader::parse(b"items=1-2").is_err());
    let c = content_range_for(0, 9, Some(20));
    assert_eq!(c.content_range_bytes(), b"bytes 0-9/20".to_vec());
}

#[test]
fn range_content_lengths() {
    assert_eq!(range_content_length(&content_range_for(10, 19, Some(100))), Some(10));
    let unsat = mark_unsatisfied(None);
    assert_eq!(range_content_length(&unsat), Some(0));
    assert!(is_content_range_unsatisfied(&Some(unsat)));
    assert!(!is_content_range_unsatisfied(&None));
    let open = RangeHeader { range_unit: RangeUnit::Bytes, ranges: vec![open_end(3)] };
    assert_eq!(range_content_length(&open), None);
    let marked = mark_unsatisfied(Some(content_range_for(1, 2, None)));
    assert!(marked.ranges[0].is_unsatisfied);
    assert_eq!(marked.ranges[0].first_pos, Some(1));
    let big = content_range_for(usize::MAX, usize::MAX, None);
    assert_eq!(big.ranges[0].first_pos, Some(isize::MAX));
}

#[test]
fn range_plans() {
    let v11 = HttpVersion::Version1_1;
    let ok = StatusCode(200);
    let one = |r: ByteRange| RangeHeader { range_unit: RangeUnit::Bytes, ranges: vec![r] };
    assert_eq!(range_plan(v11, ok, Some(&one(ByteRange::new(0, 9))), Some(100)), Some(RangeOutcome::Partial { first: 0, last: 9 }));
    assert_eq!(range_plan(v11, ok, Some(&one(suffix(-10))), Some(100)), Some(RangeOutcome::Partial { first: 90, last: 99 }));
    assert_eq!(range_plan(v11, ok, Some(&one(open_end(95))), Some(100)), Some(RangeOutcome::Partial { first: 95, last: 99 }));
    // a last position past the end selects the remainder
    assert_eq!(range_plan(v11, ok, Some(&one(ByteRange::new(0, 100))), Some(100)), Some(RangeOutcome::Partial { first: 0, last: 99 }));
    assert_eq!(range_plan(v11, ok, Some(&one(ByteRange::new(5, 20))), Some(10)), Some(RangeOutcome::Partial { first: 5, last: 9 }));
    assert_eq!(range_plan(v11, ok, Some(&one(ByteRange::new(10, 20))), Some(10)), Some(RangeOutcome::Unsatisfied));
    assert_eq!(range_plan(v11, ok, Some(&one(open_end(100))), Some(100)), Some(RangeOutcome::Unsatisfied));
    assert_eq!(range_plan(v11, ok, None, Some(100)), None);
    assert_eq!(range_plan(HttpVersion::Version1_0, ok, Some(&one(ByteRange::new(0, 9))), Some(100)), None);
    assert_eq!(range_plan(v11, StatusCode(404), Some(&one(ByteRange::new(0, 9))), Some(100)), None);
    let none = RangeHeader { range_unit: RangeUnit::NoRanges, ranges: vec![] };
    assert_eq!(range_plan(v11, ok, Some(&none), Some(100)), None);
    let two = RangeHeader { range_unit: RangeUnit::Bytes, ranges: vec![ByteRange::new(0, 1), ByteRange::new(3, 4)] };
    assert_eq!(range_plan(v11, ok, Some(&two), Some(100)), Some(RangeOutcome::Unsatisfied));
}

#[test]
fn request_ranges() {
    let headers = HeaderData::new(vec![
        Header::from_bytes(b"range", b"bytes=0-9").unwrap(),
        Header::from_bytes(b"Content-Range", b"bytes 0-9/20").unwrap(),
    ]);
    let (put, get) = create_ranges(HttpVersion::Version1_1, &Method::Get, &headers);
    assert!(put.is_none());
    assert_eq!(get.unwrap().ranges, vec![ByteRange::new(0, 9)]);
    let (put, get) = create_ranges(HttpVersion::Version1_1, &Method::Put, &headers);
    assert!(get.is_none());
    assert_eq!(put.unwrap().ranges[0].complete_length, Some(20));
    let (put, get) = create_ranges(HttpVersion::Version1_0, &Method::Get, &headers);
    assert!(put.is_none() && get.is_none());
    let (put, get) = create_ranges(HttpVersion::Version1_1, &Method::Post, &headers);
    assert!(put.is_none() && get.is_none());
}

fn answer_range(range: &[u8], response: &mut Response<std::io::Cursor<Vec<u8>>>) {
    let headers = HeaderData::new(vec![Header::from_bytes(b"Range", range).unwrap()]);
    let (_, get) = create_ranges(HttpVersion::Version1_1, &Method::Get, &headers);
    let outcome = range_plan(HttpVersion::Version1_1, response.status_code(), get.as_ref(), response.data_length());
    response.apply_range(outcome.unwrap());
}

#[test]
fn range_answer_has_the_range_length() {
    let mut response = Response::new(StatusCode(200), vec![], std::io::Cursor::new((0u8..10).collect()), Some(10), None);
    answer_range(b"bytes=0-4", &mut response);
    assert_eq!(response.status_code(), StatusCode(206));
    assert_eq!(response.headers().unwrap().len(), 1);
    assert_eq!(response.headers().unwrap()[0].to_string(), "Content-Range: bytes 0-4/10");
    assert_eq!(Data::from_response(&response).content_length, 5);
    assert_eq!(response.body_skip(), Some(0));

    let mut response = Response::new(StatusCode(200), vec![], std::io::Cursor::new((0u8..10).collect()), Some(10), None);
    answer_range(b"bytes=5-", &mut response);
    assert_eq!(response.headers().unwrap()[0].to_string(), "Content-Range: bytes 5-9/10");
    assert_eq!(response.data_length(), Some(5));
    assert_eq!(response.body_skip(), Some(5));
}

#[test]
fn several_ranges_on_a_bare_response_are_refused() {
    let mut response = Response::from_data(vec![0u8; 10]);
    assert!(response.headers().is_none());
    answer_range(b"bytes=0-1,3-4", &mut response);
    assert_eq!(response.status_code(), StatusCode(416));
    assert_eq!(response.headers().unwrap().len(), 1);
    assert_eq!(response.headers().unwrap()[0].to_string(), "Content-Range: bytes */*");
    assert_eq!(response.data_length(), Some(0));
}
