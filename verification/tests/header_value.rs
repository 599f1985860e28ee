use std::str::FromStr;

use tiny_http::common::header::HeaderFieldValue;
use tiny_http::util::header_value::{header_value_items, HeaderItem, WeightParam};

/// The weight of an item as a server reads it: the first weight text that
/// reads as a number, 1.0 without one.
fn weight(item: &HeaderItem) -> f32 {
    for p in &item.params {
        match p {
            WeightParam::Short => panic!("parameter too short"),
            WeightParam::Other => {}
            WeightParam::Weight(text) => {
                if let Ok(v) = f32::from_str(std::str::from_utf8(text).unwrap()) {
                    return v;
                }
            }
        }
    }
    1.0
}

#[test]
#[allow(clippy::float_cmp)]
fn test_parse_header() {
    let hfv = "text/html, text/plain; q=1.5 , image/png ; q=2.0".parse::<HeaderFieldValue>().unwrap();
    let result = header_value_items(hfv.as_bytes());

    assert_eq!(result.len(), 3);
    assert_eq!(result[0].value, b"text/html");
    assert_eq!(weight(&result[0]), 1.0);
    assert_eq!(result[1].value, b"text/plain");
    assert_eq!(weight(&result[1]), 1.5);
    assert_eq!(result[2].value, b"image/png");
    assert_eq!(weight(&result[2]), 2.0);
}

#[test]
fn header_value_items_keep_parameters_in_order() {
    let items = header_value_items(b" gzip ;level=1; q= 0.5 \t,, chunked;x");
    assert_eq!(items.len(), 3);
    assert_eq!(items[0].value, b"gzip");
    assert_eq!(items[0].params.len(), 2);
    assert!(matches!(items[0].params[0], WeightParam::Other));
    match &items[0].params[1] {
        WeightParam::Weight(t) => assert_eq!(t, b"0.5"),
        other => panic!("unexpected {other:?}"),
    }
    assert_eq!(items[1].value, b"");
    assert!(items[1].params.is_empty());
    assert_eq!(items[2].value, b"chunked");
    assert!(matches!(items[2].params[0], WeightParam::Short));
}

#[test]
fn header_value_items_of_empty_value() {
    let items = header_value_items(b"");
    assert_eq!(items.len(), 1);
    assert_eq!(items[0].value, b"");
    assert!(items[0].params.is_empty());
}

#[test]
fn header_value_items_unreadable_weight_falls_back() {
    let items = header_value_items(b"deflate; q=abc; q=0.25");
    assert_eq!(items.len(), 1);
    assert_eq!(weight(&items[0]), 0.25);
}
