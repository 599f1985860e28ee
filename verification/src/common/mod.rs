//! Protocol values shared by requests and responses.

pub mod connection_header;
pub mod content_type;
pub mod header;
pub mod header_data;
pub mod http_version;
pub mod limits;
pub mod method;
pub mod range_header;
pub mod status_code;
