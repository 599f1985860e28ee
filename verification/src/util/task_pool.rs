//! The decisions of the pool of threads that read requests from connections.

use vstd::prelude::*;

verus! {

/// Threads the pool keeps at least
pub const MIN_THREADS: usize = 4;

/// Idle threads the pool keeps at least
pub const MIN_IDLE_THREADS: usize = 1;

/// Milliseconds an idle thread above the minimum waits for a task before it ends
pub const IDLE_TIME_MILLIS: u64 = 5000;

/// A new task gets a thread of its own when no thread is idle, or when more
/// tasks wait than there are threads; otherwise it is queued.
pub fn spawn_needs_thread(threads_idle: usize, queue_len: usize, threads_total: usize) -> (r: bool)
    ensures
        r == (threads_idle == 0 || queue_len > threads_total),
{
    threads_idle == 0 || queue_len > threads_total
}

/// How an idle thread waits for a task.
#[derive(Clone, Copy, Debug, PartialEq, Eq, Structural)]
pub enum WorkerWait {
    /// Until a task comes (the pool is at its minimum size)
    Forever,
    /// For the idle time at most
    Timeout,
}

/// Threads up to the minimum wait without limit; others wait for the idle time.
pub fn worker_wait(threads_total: usize) -> (r: WorkerWait)
    ensures
        r == if threads_total <= MIN_THREADS { WorkerWait::Forever } else { WorkerWait::Timeout },
{
    if threads_total <= MIN_THREADS {
        WorkerWait::Forever
    } else {
        WorkerWait::Timeout
    }
}

/// Whether an idle thread ends after its wait: when the pool stops, or when
/// its wait timed out, enough threads remain, and no task waits.
pub open spec fn worker_exits_spec(received: bool, run: bool, threads_idle: usize, threads_total: usize, queue_empty: bool) -> bool {
    !received && (!run || (!(threads_idle <= MIN_IDLE_THREADS || threads_total <= MIN_THREADS) && queue_empty))
}

/// Decides whether an idle thread ends after its wait (see [`worker_exits_spec`]).
pub fn worker_exits(received: bool, run: bool, threads_idle: usize, threads_total: usize, queue_empty: bool) -> (r: bool)
    ensures
        r == worker_exits_spec(received, run, threads_idle, threads_total, queue_empty),
{
    if received {
        false
    } else if !run {
        true
    } else if threads_idle <= MIN_IDLE_THREADS || threads_total <= MIN_THREADS {
        false
    } else {
        queue_empty
    }
}

/// The pool never shrinks below its minimum: a thread of a pool at its
/// minimum size ends only when the pool stops.
pub proof fn lemma_pool_keeps_minimum(received: bool, run: bool, threads_idle: usize, threads_total: usize, queue_empty: bool)
    requires
        threads_total <= MIN_THREADS,
        run,
    ensures
        !worker_exits_spec(received, run, threads_idle, threads_total, queue_empty),
{
}

/// What changes the number of threads of a running pool: a thread starts
/// (for a task, or to reach the minimum), or an idle thread's wait ends.
pub enum PoolEvent {
    /// A thread was started and counted
    ThreadStarted,
    /// An idle thread's wait ended, with what it saw then
    WaitEnded { received: bool, threads_idle: usize, queue_empty: bool },
}

/// The number of threads after `event`, from `total` threads, while the pool
/// runs or not: a started thread is counted, a thread that ends is not.
pub open spec fn pool_step(total: int, run: bool, event: PoolEvent) -> int {
    match event {
        PoolEvent::ThreadStarted => total + 1,
        PoolEvent::WaitEnded { received, threads_idle, queue_empty } => {
            if worker_exits_spec(received, run, threads_idle, total as usize, queue_empty) {
                total - 1
            } else {
                total
            }
        },
    }
}

/// The number of threads after the events in turn.
pub open spec fn pool_after(total: int, run: bool, events: Seq<PoolEvent>) -> int
    decreases events.len(),
{
    if events.len() == 0 {
        total
    } else {
        pool_after(pool_step(total, run, events[0]), run, events.drop_first())
    }
}

/// The events of `n` threads started one after the other.
pub open spec fn starts(n: nat) -> Seq<PoolEvent> {
    Seq::new(n, |i: int| PoolEvent::ThreadStarted)
}

/// While the pool runs, idling never takes it below its minimum, whatever
/// threads start and whatever the waits see.
pub proof fn lemma_running_pool_keeps_minimum(total: int, events: Seq<PoolEvent>)
    requires
        MIN_THREADS <= total,
    ensures
        pool_after(total, true, events) >= MIN_THREADS,
    decreases events.len(),
{
    if events.len() > 0 {
        let next = pool_step(total, true, events[0]);
        assert(next >= MIN_THREADS);
        lemma_running_pool_keeps_minimum(next, events.drop_first());
    }
}

/// Each thread started is counted while it runs: `n` starts on top of
/// `total` threads give `total + n`.
pub proof fn lemma_started_threads_counted(total: int, n: nat)
    ensures
        pool_after(total, true, starts(n)) == total + n,
    decreases n,
{
    if n > 0 {
        assert(starts(n).drop_first() =~= starts((n - 1) as nat));
        lemma_started_threads_counted(total + 1, (n - 1) as nat);
    }
}

} // verus!
