use tiny_http::server::{exit_step, listener_wait_secs, worker_threads_multi, ExitAction};
use tiny_http::util::task_pool::{
    spawn_needs_thread, worker_exits, worker_wait, WorkerWait, MIN_IDLE_THREADS, MIN_THREADS,
};

#[test]
fn exit_steps() {
    assert_eq!(exit_step(false, false), (ExitAction::Wait, false));
    assert_eq!(exit_step(true, false), (ExitAction::Wait, true));
    // a first signal stops gracefully, a second one stops waiting
    let (a, graceful) = exit_step(false, true);
    assert_eq!((a, graceful), (ExitAction::StopGracefully, true));
    assert_eq!(exit_step(graceful, true), (ExitAction::StopNow, false));
}

#[test]
fn multi_threaded_server_has_two_workers_at_least() {
    assert_eq!(worker_threads_multi(0), 2);
    assert_eq!(worker_threads_multi(1), 2);
    assert_eq!(worker_threads_multi(2), 2);
    assert_eq!(worker_threads_multi(8), 8);
}

#[test]
fn pool_spawns_threads_when_busy() {
    assert!(spawn_needs_thread(0, 0, 4));
    assert!(!spawn_needs_thread(1, 3, 4));
    assert!(spawn_needs_thread(1, 5, 4));
}

#[test]
fn pool_waits() {
    assert_eq!(worker_wait(MIN_THREADS), WorkerWait::Forever);
    assert_eq!(worker_wait(MIN_THREADS + 1), WorkerWait::Timeout);
}

#[test]
fn pool_keeps_its_minimum() {
    for idle in 0..6 {
        for total in 0..=MIN_THREADS {
            for received in [false, true] {
                for queue_empty in [false, true] {
                    assert!(!worker_exits(received, true, idle, total, queue_empty));
                }
            }
        }
    }
    // above the minimum an idle thread with nothing to do ends
    assert!(worker_exits(false, true, MIN_IDLE_THREADS + 1, MIN_THREADS + 1, true));
    assert!(!worker_exits(false, true, MIN_IDLE_THREADS + 1, MIN_THREADS + 1, false));
    // a stopping pool ends its threads
    assert!(worker_exits(false, false, 0, 1, false));
}

#[test]
fn listener_waits() {
    assert_eq!(listener_wait_secs(true), Some(5));
    assert_eq!(listener_wait_secs(false), None);
}
