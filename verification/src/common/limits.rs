//! Limits used when reading requests.

use vstd::prelude::*;

verus! {

/// Default maximum of concurrent client connections
pub const CONNECTION_LIMIT_DEFAULT: u16 = 200;

/// Default size of the buffer a small request body is read into
pub const CONTENT_BUFFER_SIZE_DEFAULT: usize = 1024;

/// Default limit of the length of a header line
pub const HEADER_LINE_LEN_DEFAULT: usize = 2048;

/// Default limit of the size of a request head
pub const HEADER_MAX_SIZE_DEFAULT: usize = 8192;

/// Size of the blocks a discarded body is read in
pub const EQUAL_READER_BUF_SIZE: usize = 256;

/// Size of the blocks a header line is gathered in
pub const HEADER_READER_BUF_SIZE: usize = 256;

/// Limits of request handling.
#[derive(Copy, Clone, Debug, Eq, PartialEq, Structural)]
pub struct Config {
    /// Allowed concurrent client connections
    pub connection_limit: u16,
    /// Size of the buffer a small request body is read into
    pub content_buffer_size: usize,
    /// Allowed length of a header line
    pub header_line_len: usize,
    /// Allowed size of a request head
    pub header_max_size: usize,
}

impl Default for Config {
    fn default() -> (r: Config)
        ensures
            r == (Config {
                connection_limit: CONNECTION_LIMIT_DEFAULT,
                content_buffer_size: CONTENT_BUFFER_SIZE_DEFAULT,
                header_line_len: HEADER_LINE_LEN_DEFAULT,
                header_max_size: HEADER_MAX_SIZE_DEFAULT,
            }),
    {
        Config {
            connection_limit: CONNECTION_LIMIT_DEFAULT,
            content_buffer_size: CONTENT_BUFFER_SIZE_DEFAULT,
            header_line_len: HEADER_LINE_LEN_DEFAULT,
            header_max_size: HEADER_MAX_SIZE_DEFAULT,
        }
    }
}

} // verus!
