use std::time::Duration;

use tiny_http::socket_config::SocketConfig;

#[test]
fn socket_config_defaults() {
    let c = SocketConfig::default();
    assert!(c.no_delay);
    assert_eq!(c.read_timeout, Duration::from_secs(10));
    assert_eq!(c.write_timeout, Duration::from_secs(10));
    assert_eq!(c.linger, None);
    assert!(c.tcp_keep_alive);
    assert_eq!(c.tcp_keepalive_interval, None);
    assert_eq!(c.tcp_keepalive_time, Duration::from_secs(5));
    let d = c.clone();
    assert_eq!(d.read_timeout, c.read_timeout);
}
