use tiny_http::common::connection_header::{ConnectionHeader, ConnectionValue};

fn header_of(values: &[ConnectionValue]) -> ConnectionHeader {
    let mut bits = 0u8;
    for v in values {
        bits |= v.bit();
    }
    ConnectionHeader::from_bits(bits)
}

fn collect(h: &ConnectionHeader) -> Vec<ConnectionValue> {
    let mut it = h.iter();
    let mut v = Vec::new();
    while let Some(cv) = it.next() {
        v.push(cv);
    }
    v
}

#[test]
fn connection_header_cmp_eq() {
    let ch_1 = header_of(&[ConnectionValue::KeepAlive, ConnectionValue::Upgrade, ConnectionValue::Close]);
    let ch_2 = header_of(&[ConnectionValue::KeepAlive, ConnectionValue::Upgrade, ConnectionValue::Close]);
    assert_eq!(ch_1, ch_2);

    let ch_2 = header_of(&[ConnectionValue::KeepAlive]);
    assert_eq!(ch_1, ch_2);

    let ch_1 = header_of(&[ConnectionValue::Close]);
    let ch_2 = header_of(&[ConnectionValue::Upgrade]);
    assert_ne!(ch_1, ch_2);
}

#[test]
fn connection_header_value_cmp_eq() {
    let ch = header_of(&[ConnectionValue::KeepAlive, ConnectionValue::Upgrade, ConnectionValue::Close]);
    assert_eq!(ch, ConnectionValue::KeepAlive);
    assert_eq!(ch, ConnectionValue::Upgrade);
    assert_eq!(ch, ConnectionValue::Close);

    let ch = header_of(&[ConnectionValue::KeepAlive]);
    assert_eq!(ch, ConnectionValue::KeepAlive);
    assert_ne!(ch, ConnectionValue::Upgrade);
    assert_ne!(ch, ConnectionValue::Close);

    let ch = header_of(&[ConnectionValue::Close]);
    assert_ne!(ch, ConnectionValue::KeepAlive);
    assert_ne!(ch, ConnectionValue::Upgrade);
    assert_eq!(ch, ConnectionValue::Close);

    let ch = header_of(&[ConnectionValue::Upgrade]);
    assert_ne!(ch, ConnectionValue::KeepAlive);
    assert_eq!(ch, ConnectionValue::Upgrade);
    assert_ne!(ch, ConnectionValue::Close);
}

#[test]
fn connection_header_to_header_test() {
    let ch = header_of(&[ConnectionValue::KeepAlive, ConnectionValue::Upgrade, ConnectionValue::Close]);
    assert_eq!(&ch.to_header().to_string(), "Connection: close, upgrade, keep-alive");

    let ch = header_of(&[ConnectionValue::Close]);
    assert_eq!(&ch.to_header().to_string(), "Connection: close");

    let ch = header_of(&[ConnectionValue::KeepAlive, ConnectionValue::Upgrade]);
    assert_eq!(&ch.to_header().to_string(), "Connection: upgrade, keep-alive");

    let ch = ConnectionHeader::from_bits(0);
    assert_eq!(&ch.to_header().to_string(), "Connection: ");
}

#[test]
fn connection_header_iterator_test() {
    let result = Vec::from([ConnectionValue::Close, ConnectionValue::Upgrade, ConnectionValue::KeepAlive]);

    let h = ConnectionHeader::from_bits(0);
    assert!(collect(&h).is_empty());

    let h = header_of(&[ConnectionValue::KeepAlive, ConnectionValue::Upgrade, ConnectionValue::Close]);
    assert_eq!(collect(&h), result);

    let h = header_of(&[ConnectionValue::KeepAlive, ConnectionValue::Close]);
    assert_eq!(collect(&h), [ConnectionValue::Close, ConnectionValue::KeepAlive]);

    let h = header_of(&[ConnectionValue::Upgrade]);
    assert_eq!(collect(&h), result[1..2]);

    let h = header_of(&[ConnectionValue::Close, ConnectionValue::Upgrade, ConnectionValue::KeepAlive]);
    assert_eq!(collect(&h), result);
}

#[test]
fn connection_header_parse_values() {
    let h = ConnectionHeader::parse(b"keep-alive, Upgrade").unwrap();
    assert_eq!(h.values(), vec![ConnectionValue::Upgrade, ConnectionValue::KeepAlive]);
    assert!(ConnectionHeader::parse(b"keep-alive, foo").is_err());
    assert_eq!(ConnectionValue::parse(b"CLOSE"), Ok(ConnectionValue::Close));
    assert!(ConnectionValue::parse(b"closed").is_err());
}

#[test]
fn connection_header_values_match_iteration() {
    for bits in 0u8..8 {
        let h = ConnectionHeader::from_bits(bits);
        assert_eq!(h.values(), collect(&h));
    }
}
