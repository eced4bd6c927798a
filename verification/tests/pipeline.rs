//! Ingestion queue backpressure and lifecycle idempotence.

use wifisnipe::lifecycle::Lifecycle;
use wifisnipe::queue::{LineQueue, QUEUE_CAPACITY};

#[test]
fn queue_is_fifo() {
    let mut q = LineQueue::new();
    q.push("one".to_string()).unwrap();
    q.push("two".to_string()).unwrap();
    q.push("three".to_string()).unwrap();
    assert_eq!(q.pop(), Some("one".to_string()));
    assert_eq!(q.pop(), Some("two".to_string()));
    assert_eq!(q.pop(), Some("three".to_string()));
    assert_eq!(q.pop(), None);
}

#[test]
fn queue_pop_on_empty_is_none() {
    let mut q = LineQueue::new();
    assert!(q.is_empty());
    assert_eq!(q.pop(), None);
}

#[test]
fn queue_reports_backpressure_when_full() {
    let mut q = LineQueue::new();
    for i in 0..QUEUE_CAPACITY {
        assert!(q.push(format!("line {i}")).is_ok());
    }
    assert_eq!(q.len(), QUEUE_CAPACITY);
    // The 256th push is rejected and hands the line back.
    assert_eq!(q.push("overflow".to_string()), Err("overflow".to_string()));
    assert_eq!(q.len(), QUEUE_CAPACITY);
    // Draining one slot makes room again.
    assert_eq!(q.pop(), Some("line 0".to_string()));
    assert!(q.push("overflow".to_string()).is_ok());
}

#[test]
fn start_twice_reports_already_running() {
    let mut l = Lifecycle::new();
    assert!(!l.is_running());
    // First start spawns (reports "was not running")...
    assert_eq!(l.start(), false);
    assert!(l.is_running());
    // ...the second does not spawn a second pipeline.
    assert_eq!(l.start(), true);
    assert!(l.is_running());
}

#[test]
fn stop_is_idempotent() {
    let mut l = Lifecycle::new();
    // Stopping a stopped system has nothing to do.
    assert_eq!(l.stop(), true);
    assert_eq!(l.start(), false);
    // Stopping a running system raises the flag once.
    assert_eq!(l.stop(), false);
    assert!(l.should_stop());
    // The reader acknowledges; stopping again reports already stopped.
    l.acknowledge_stop();
    assert!(!l.is_running());
    assert_eq!(l.stop(), true);
}

#[test]
fn start_after_stop_cycle_spawns_again() {
    let mut l = Lifecycle::new();
    assert_eq!(l.start(), false);
    l.stop();
    l.acknowledge_stop();
    assert_eq!(l.start(), false);
    assert!(!l.should_stop());
}
