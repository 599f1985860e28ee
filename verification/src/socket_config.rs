//! Settings of the TCP sockets of a server.

use vstd::prelude::*;

verus! {

/// The duration of `secs` whole seconds, as `std::time::Duration::from_secs`
/// makes it.
pub uninterp spec fn duration_of_secs(secs: u64) -> std::time::Duration;

/// A duration of `secs` seconds.
///
/// Calls `std::time::Duration::from_secs`, which builds the duration from
/// the number of seconds alone (and never fails): the result is claimed to
/// be `duration_of_secs(secs)`, the same for the same number.
#[verifier::external_body]
fn duration_from_secs(secs: u64) -> (r: std::time::Duration)
    ensures
        r == duration_of_secs(secs),
{
    std::time::Duration::from_secs(secs)
}

/// Settings of a TCP socket.
///
/// Defaults: keep-alive on, no linger, no delay, read and write timeout of
/// 10 s, keep-alive time of 5 s, no keep-alive interval.
#[derive(Debug)]
pub struct SocketConfig {
    /// `SO_LINGER`, in seconds
    pub linger: Option<std::time::Duration>,
    /// `TCP_NODELAY`
    pub no_delay: bool,
    /// Read timeout (none when zero)
    pub read_timeout: std::time::Duration,
    /// `SO_KEEPALIVE`; the other keep-alive settings act only with it
    pub tcp_keep_alive: bool,
    /// Keep-alive interval, in seconds
    pub tcp_keepalive_interval: Option<std::time::Duration>,
    /// Keep-alive time, in seconds
    pub tcp_keepalive_time: std::time::Duration,
    /// Write timeout (none when zero)
    pub write_timeout: std::time::Duration,
}

impl Clone for SocketConfig {
    fn clone(&self) -> (r: SocketConfig)
        ensures
            r == *self,
    {
        SocketConfig {
            linger: self.linger,
            no_delay: self.no_delay,
            read_timeout: self.read_timeout,
            tcp_keep_alive: self.tcp_keep_alive,
            tcp_keepalive_interval: self.tcp_keepalive_interval,
            tcp_keepalive_time: self.tcp_keepalive_time,
            write_timeout: self.write_timeout,
        }
    }
}

impl Default for SocketConfig {
    fn default() -> (r: SocketConfig)
        ensures
            r.linger is None,
            r.no_delay,
            r.tcp_keep_alive,
            r.tcp_keepalive_interval is None,
            r.read_timeout == duration_of_secs(10),
            r.write_timeout == duration_of_secs(10),
            r.tcp_keepalive_time == duration_of_secs(5),
    {
        SocketConfig {
            linger: None,
            no_delay: true,
            read_timeout: duration_from_secs(10),
            tcp_keep_alive: true,
            tcp_keepalive_interval: None,
            tcp_keepalive_time: duration_from_secs(5),
            write_timeout: duration_from_secs(10),
        }
    }
}

} // verus!
