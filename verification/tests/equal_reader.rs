use tiny_http::util::equal_reader::{discard_window, read_window};
use std::io::{Cursor, Read};

use tiny_http::util::equal_reader::EqualReader;

fn read_all<R: Read>(reader: &mut EqualReader<R>) -> Vec<u8> {
    let mut out = Vec::new();
    let mut buf = [0u8; 3];
    loop {
        let n = reader.read(&mut buf).unwrap();
        if n == 0 {
            break;
        }
        out.extend_from_slice(&buf[..n]);
    }
    out
}

#[test]
fn test_limit() {
    let mut org_reader = Cursor::new("hello world".to_string().into_bytes());

    {
        let mut equal_reader = EqualReader::new(org_reader.by_ref(), 5);
        let string = String::from_utf8(read_all(&mut equal_reader)).unwrap();
        assert_eq!(string, "hello");
    }

    let mut string = String::new();
    org_reader.read_to_string(&mut string).unwrap();
    assert_eq!(string, " world");
}

#[test]
fn test_equal_reader_drop() {
    let data = b"hello world";
    let reader = Cursor::new(data);

    let mut equal_reader = EqualReader::new(reader.clone(), 5);
    let string = String::from_utf8(read_all(&mut equal_reader)).unwrap();
    assert_eq!(string, "hello");
    assert_eq!(read_all(&mut equal_reader).len(), 0);

    let mut equal_reader = EqualReader::new(reader.clone(), data.len() + 1);
    assert_eq!(read_all(&mut equal_reader).len(), data.len());

    let equal_reader = EqualReader::new(reader.clone(), data.len() + 1);
    assert_eq!(equal_reader.size(), data.len() + 1);

    let mut equal_reader = EqualReader::new(reader.clone(), 0);
    assert_eq!(read_all(&mut equal_reader).len(), 0);
}

#[test]
fn test_not_enough() {
    let mut org_reader = Cursor::new("hello world".to_string().into_bytes());

    {
        let mut equal_reader = EqualReader::new(org_reader.by_ref(), 5);
        let mut vec = [0];
        assert_eq!(equal_reader.read(&mut vec).unwrap(), 1);
        assert_eq!(vec[0], b'h');
        assert!(equal_reader.discard_rest().is_none());
    }

    let mut string = String::new();
    org_reader.read_to_string(&mut string).unwrap();
    assert_eq!(string, " world");
}

#[test]
fn discard_reports_early_end() {
    let mut org_reader = Cursor::new(b"abc".to_vec());
    let mut equal_reader = EqualReader::new(&mut org_reader, 10);
    assert!(matches!(equal_reader.discard_rest(), Some(Ok(()))));
    assert_eq!(equal_reader.size(), 7);
}

#[test]
fn read_windows() {
    assert_eq!(read_window(3, 10), 3);
    assert_eq!(read_window(10, 3), 3);
    assert_eq!(read_window(0, 3), 0);
    assert_eq!(discard_window(1000), 256);
    assert_eq!(discard_window(7), 7);
}

#[test]
fn reads_are_taken_into_account() {
    let mut r = EqualReader::new(Cursor::new(vec![1u8, 2, 3]), 10);
    assert_eq!(r.take_read(4, Ok(3)).unwrap(), 3);
    assert_eq!(r.size(), 7);
    assert!(r.take_read(4, Err(std::io::Error::new(std::io::ErrorKind::Other, "x"))).is_err());
    assert_eq!(r.size(), 7);
    assert!(r.take_discarded(4, Ok(2)).is_none());
    assert_eq!(r.size(), 5);
    assert!(matches!(r.take_discarded(4, Ok(0)), Some(Ok(()))));
    assert_eq!(r.size(), 5);
    assert!(matches!(r.take_discarded(4, Err(std::io::Error::new(std::io::ErrorKind::Other, "x"))), Some(Err(_))));
}

#[test]
fn read_hands_at_most_the_window_to_the_inner_reader() {
    let mut inner = Cursor::new(vec![7u8; 10]);
    let mut r = EqualReader::new(&mut inner, 4);
    let mut buf = [0u8; 8];
    assert_eq!(r.read(&mut buf).unwrap(), 4);
    assert_eq!(buf, [7, 7, 7, 7, 0, 0, 0, 0]);
    assert_eq!(r.read(&mut buf).unwrap(), 0);
    assert_eq!(inner.position(), 4);
}
