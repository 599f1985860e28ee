//! The states a server goes through.

pub mod state;

use vstd::prelude::*;

verus! {

/// The states of a server implement this trait.
pub trait State {}

} // verus!

verus! {

/// What waiting for the end of a running server does next.
#[derive(Clone, Copy, Debug, PartialEq, Eq, Structural)]
pub enum ExitAction {
    /// Keep waiting for the worker threads
    Wait,
    /// Stop the server gracefully, clear the exit request, keep waiting
    StopGracefully,
    /// Stop the server and wait no more (exit asked for a second time)
    StopNow,
}

/// One decision while waiting for the end of a server: an exit request
/// stops the server gracefully the first time and ungracefully the second.
/// Gives the action and whether the stop so far is graceful.
pub fn exit_step(is_graceful: bool, force_exit: bool) -> (r: (ExitAction, bool))
    ensures
        r == if !force_exit {
            (ExitAction::Wait, is_graceful)
        } else if is_graceful {
            (ExitAction::StopNow, false)
        } else {
            (ExitAction::StopGracefully, true)
        },
{
    if !force_exit {
        (ExitAction::Wait, is_graceful)
    } else if is_graceful {
        (ExitAction::StopNow, false)
    } else {
        (ExitAction::StopGracefully, true)
    }
}

/// Seconds the listener thread gets to finish after a graceful stop
pub const GRACEFUL_LISTENER_SECS: u64 = 5;

/// How long the end of a server waits for its listener thread: after a
/// graceful stop, `GRACEFUL_LISTENER_SECS` seconds (`Some`); otherwise the
/// graceful timeout the server was configured with (`None`).
pub fn listener_wait_secs(is_graceful: bool) -> (r: Option<u64>)
    ensures
        r == if is_graceful { Some(GRACEFUL_LISTENER_SECS) } else { None },
{
    if is_graceful {
        Some(GRACEFUL_LISTENER_SECS)
    } else {
        None
    }
}

/// Worker threads a multi-threaded server starts: at least two.
pub fn worker_threads_multi(configured: u8) -> (r: u8)
    ensures
        r == if configured <= 1 { 2 } else { configured },
{
    if configured <= 1 {
        2
    } else {
        configured
    }
}

} // verus!
