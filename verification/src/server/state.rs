//! The available server states.

use vstd::prelude::*;

use crate::server::State;

verus! {

/// A server whose requests are handled by several threads
#[derive(Debug)]
pub struct MultiThreaded;

impl State for MultiThreaded {}

/// A server that waits for a request handler
#[derive(Debug)]
pub struct NeedRequestHandler;

impl State for NeedRequestHandler {}

/// A server whose listener threads handle requests
#[derive(Debug)]
pub struct Running;

impl State for Running {}

/// A server whose requests are handled by one thread
#[derive(Debug)]
pub struct SingleThreaded;

impl State for SingleThreaded {}

} // verus!
