use tiny_http::decimal::{i128_to_decimal, parse_isize, parse_usize, u128_to_decimal};

#[test]
fn number_to_bytes_bench_test() {
    assert_eq!(u128_to_decimal(1), b"1");
    let numbers = [(32486usize, 5), (19739, 5), (12, 2), (329, 3), (2401, 4), (0, 1), (10_737_418_240, 11)];
    for n in numbers {
        let b = u128_to_decimal(n.0 as u128);
        assert_eq!(b.len(), n.1);
        assert_eq!(std::str::from_utf8(&b).unwrap().parse::<usize>().unwrap(), n.0);
    }
}

#[test]
fn decimal_text_reads_back() {
    for n in [0usize, 7, 10, 99, 1000, 123_456_789, usize::MAX] {
        let text = u128_to_decimal(n as u128);
        assert_eq!(text, n.to_string().as_bytes());
        assert_eq!(parse_usize(&text), Some(n));
    }
}

#[test]
fn parse_usize_like_std() {
    for s in ["", "+", "-1", "12a", "+12", "007", "18446744073709551616", "18446744073709551615", " 1"] {
        assert_eq!(parse_usize(s.as_bytes()), s.parse::<usize>().ok(), "{s}");
    }
}

#[test]
fn parse_isize_like_std() {
    for s in ["", "-", "-0", "+5", "-9223372036854775808", "9223372036854775807", "9223372036854775808", "-9223372036854775809", "1-"] {
        assert_eq!(parse_isize(s.as_bytes()), s.parse::<isize>().ok(), "{s}");
    }
}

#[test]
fn signed_decimal_text() {
    assert_eq!(i128_to_decimal(-500), b"-500");
    assert_eq!(i128_to_decimal(0), b"0");
    assert_eq!(i128_to_decimal(42), b"42");
}
