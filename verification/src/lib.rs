//! A small HTTP/1.x server library whose protocol logic (request-line and
//! header parsing, connection and range handling, response framing) is
//! specified and proved with Verus.

pub mod client;
pub mod common;
pub mod decimal;
pub mod request;
pub mod response;
pub mod server;
pub mod socket_config;
pub mod text;
pub mod util;


