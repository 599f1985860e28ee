//! Helpers around the connection's streams.

pub mod equal_reader;
pub mod header_value;
pub mod task_pool;
