//! Tests of the monitoring logic against hand-written capability mocks.

use std::cell::RefCell;

use memwatch::monitor::bytes_to_megabytes;
use memwatch::monitor::exceeds_threshold;
use memwatch::monitor::monitor_cycle;
use memwatch::monitor::monitor_processes;
use memwatch::monitor::signal_code_for;
use memwatch::monitor::signal_from_string;
use memwatch::monitor::EnumerateError;
use memwatch::monitor::InspectError;
use memwatch::monitor::MemoryChecker;
use memwatch::monitor::ProcDir;

/// A process directory that reports a fixed pid list, and can be told to
/// fail a given number of leading calls.
struct FixedProcDir {
    pids: Vec<i32>,
    failures_left: usize,
    calls: usize,
}

impl FixedProcDir {
    fn with_pids(pids: Vec<i32>) -> Self {
        FixedProcDir { pids, failures_left: 0, calls: 0 }
    }
}

impl ProcDir for FixedProcDir {
    fn find_processes(
        &mut self,
        pids: &mut Vec<i32>,
        _starting_with: &str,
    ) -> Result<(), EnumerateError> {
        self.calls += 1;
        if self.failures_left > 0 {
            self.failures_left -= 1;
            return Err(EnumerateError::Unavailable);
        }
        pids.clear();
        for pid in self.pids.iter() {
            pids.push(*pid);
        }
        Ok(())
    }
}

/// A memory checker that reports a fixed usage for every pid and records
/// each delivered signal.
struct FixedChecker {
    memory: Result<u64, InspectError>,
    kills: RefCell<Vec<(i32, i32)>>,
}

impl FixedChecker {
    fn with_memory(memory: u64) -> Self {
        FixedChecker { memory: Ok(memory), kills: RefCell::new(Vec::new()) }
    }
}

impl MemoryChecker for FixedChecker {
    fn get_memory(&mut self, _pid: i32) -> Result<u64, InspectError> {
        self.memory
    }

    fn kill(&self, pid: i32, signal: i32) {
        self.kills.borrow_mut().push((pid, signal));
    }
}

#[test]
fn test_signal_from_string() {
    assert_eq!(signal_from_string("SIGUSR1"), Some(libc::SIGUSR1));
    assert_eq!(signal_from_string("SIGUSR2"), Some(libc::SIGUSR2));
    assert_eq!(signal_from_string("SIGTERM"), Some(libc::SIGTERM));
    assert_eq!(signal_from_string("SIGKILL"), Some(libc::SIGKILL));
    assert_eq!(signal_from_string("UNKNOWN"), None);
}

#[test]
fn test_signal_code_fallback() {
    assert_eq!(signal_code_for("SIGKILL"), libc::SIGKILL);
    assert_eq!(signal_code_for("SIGHUP"), libc::SIGTERM);
    assert_eq!(signal_code_for(""), libc::SIGTERM);
    assert_eq!(signal_code_for("sigusr1"), libc::SIGTERM);
}

#[test]
fn test_bytes_to_megabytes() {
    assert_eq!(bytes_to_megabytes(1048576), 1); // 1 MB
    assert_eq!(bytes_to_megabytes(2097152), 2); // 2 MB
    assert_eq!(bytes_to_megabytes(0), 0); // 0 MB
}

#[test]
fn test_threshold_boundary() {
    // usage equal to the threshold never triggers; one byte above does
    assert!(!exceeds_threshold(1024, 1024));
    assert!(exceeds_threshold(1025, 1024));
    assert!(!exceeds_threshold(0, 0));
    assert!(exceeds_threshold(1, 0));
    assert!(!exceeds_threshold(u64::MAX, u64::MAX));
}

#[test]
fn test_monitor_processes_no_processes() {
    let mut mock_proc_dir = FixedProcDir::with_pids(Vec::new());
    let mut mock_memory_checker = FixedChecker::with_memory(0);
    let mut pids = Vec::new();
    let mut usages = Vec::new();
    let mut victims = Vec::new();

    let result = monitor_processes(
        &mut mock_proc_dir,
        &mut mock_memory_checker,
        &mut pids,
        &mut usages,
        &mut victims,
        "non_existent_process",
        1024 * 1024,
        2,
        "SIGTERM",
        true,
    );

    assert!(
        result.is_ok(),
        "Expected monitor_processes to handle no processes gracefully"
    );
    assert!(mock_memory_checker.kills.borrow().is_empty());
}

#[test]
fn test_monitor_processes_with_none_exceeding_threshold() {
    let mut mock_proc_dir = FixedProcDir::with_pids(vec![123]);
    let mut mock_memory_checker = FixedChecker::with_memory(2 * 1024 * 1024);
    let mut pids = Vec::new();
    let mut usages = Vec::new();
    let mut victims = Vec::new();

    let result = monitor_processes(
        &mut mock_proc_dir,
        &mut mock_memory_checker,
        &mut pids,
        &mut usages,
        &mut victims,
        "non_existent_process",
        4 * 1024 * 1024,
        2,
        "SIGTERM",
        true,
    );

    assert!(
        result.is_ok(),
        "Expected monitor_processes to handle no processes exceeding the threshold gracefully"
    );
    assert_eq!(mock_memory_checker.kills.borrow().len(), 0);
}

#[test]
fn test_monitor_processes_with_single_process_exceeding_threshold() {
    let mut mock_proc_dir = FixedProcDir::with_pids(vec![123]);
    let mut mock_memory_checker = FixedChecker::with_memory(5 * 1024 * 1024);
    let mut pids = Vec::new();
    let mut usages = Vec::new();
    let mut victims = Vec::new();

    let result = monitor_processes(
        &mut mock_proc_dir,
        &mut mock_memory_checker,
        &mut pids,
        &mut usages,
        &mut victims,
        "non_existent_process",
        4 * 1024 * 1024,
        2,
        "SIGTERM",
        true,
    );

    assert!(result.is_ok(), "Expected monitor_processes to handle a single process exceeding the threshold gracefully");
    assert_eq!(*mock_memory_checker.kills.borrow(), vec![(123, libc::SIGTERM)]);
}

#[test]
fn scenario_no_matches_cycle_is_quiet() {
    // no process matches: zero pids checked, no signal sent, the loop may go on
    let mut dir = FixedProcDir::with_pids(Vec::new());
    let mut checker = FixedChecker::with_memory(0);
    let mut pids = Vec::new();
    let mut usages = Vec::new();
    let mut victims = Vec::new();

    for _ in 0..3 {
        let stats = monitor_cycle(
            &mut dir,
            &mut checker,
            &mut pids,
            &mut usages,
            &mut victims,
            "nothing",
            1024,
            libc::SIGTERM,
        )
        .expect("a quiet cycle must succeed");
        assert_eq!(stats.checked, 0);
        assert_eq!(stats.signaled, 0);
        assert!(stats.enumerate_error.is_none());
    }
    assert!(checker.kills.borrow().is_empty());
}

#[test]
fn scenario_below_threshold_sends_nothing() {
    let mut dir = FixedProcDir::with_pids(vec![321]);
    let mut checker = FixedChecker::with_memory(1024);
    let mut pids = Vec::new();
    let mut usages = Vec::new();
    let mut victims = Vec::new();

    let stats = monitor_cycle(
        &mut dir,
        &mut checker,
        &mut pids,
        &mut usages,
        &mut victims,
        "p",
        4096,
        libc::SIGTERM,
    )
    .expect("a cycle under the threshold must succeed");
    assert_eq!(stats.checked, 1);
    assert_eq!(stats.signaled, 0);
    assert!(checker.kills.borrow().is_empty());
}

#[test]
fn scenario_over_threshold_sends_term_once_per_cycle() {
    let mut dir = FixedProcDir::with_pids(vec![321]);
    let mut checker = FixedChecker::with_memory(5000);
    let mut pids = Vec::new();
    let mut usages = Vec::new();
    let mut victims = Vec::new();
    let signal_code = signal_code_for("SIGTERM");

    for cycle in 1..=3 {
        let stats = monitor_cycle(
            &mut dir,
            &mut checker,
            &mut pids,
            &mut usages,
            &mut victims,
            "p",
            4096,
            signal_code,
        )
        .expect("an over-threshold cycle must still succeed");
        assert_eq!(stats.checked, 1);
        assert_eq!(stats.signaled, 1);
        // exactly one TERM per cycle in which the process stays over
        assert_eq!(checker.kills.borrow().len(), cycle);
    }
    for kill in checker.kills.borrow().iter() {
        assert_eq!(*kill, (321, libc::SIGTERM));
    }
}

#[test]
fn scenario_enumeration_failure_is_absorbed() {
    // one failing enumeration: the cycle still completes, reports the
    // error, and the next cycle resumes normally
    let mut dir = FixedProcDir::with_pids(vec![77]);
    dir.failures_left = 1;
    let mut checker = FixedChecker::with_memory(10);
    let mut pids = Vec::new();
    let mut usages = Vec::new();
    let mut victims = Vec::new();

    let first = monitor_cycle(
        &mut dir,
        &mut checker,
        &mut pids,
        &mut usages,
        &mut victims,
        "p",
        1000,
        libc::SIGTERM,
    )
    .expect("an enumeration failure must not abort the cycle");
    assert_eq!(first.enumerate_error, Some(EnumerateError::Unavailable));
    assert_eq!(first.checked, 0);

    let second = monitor_cycle(
        &mut dir,
        &mut checker,
        &mut pids,
        &mut usages,
        &mut victims,
        "p",
        1000,
        libc::SIGTERM,
    )
    .expect("the next cycle must resume normally");
    assert!(second.enumerate_error.is_none());
    assert_eq!(second.checked, 1);
    assert_eq!(dir.calls, 2);
}

#[test]
fn scenario_inspection_failure_aborts_cycle() {
    let mut dir = FixedProcDir::with_pids(vec![11]);
    let mut checker = FixedChecker::with_memory(0);
    checker.memory = Err(InspectError::Unreadable);
    let mut pids = Vec::new();
    let mut usages = Vec::new();
    let mut victims = Vec::new();

    let result = monitor_cycle(
        &mut dir,
        &mut checker,
        &mut pids,
        &mut usages,
        &mut victims,
        "p",
        1000,
        libc::SIGTERM,
    );
    assert_eq!(result.unwrap_err(), InspectError::Unreadable);
    assert!(checker.kills.borrow().is_empty());
}

#[test]
fn repeated_cycles_do_not_grow_buffers() {
    // buffer capacity after many cycles equals capacity after one
    let mut dir = FixedProcDir::with_pids(vec![1, 2, 3, 4, 5]);
    let mut checker = FixedChecker::with_memory(9999);
    let mut pids = Vec::new();
    let mut usages = Vec::new();
    let mut victims = Vec::new();

    monitor_cycle(
        &mut dir,
        &mut checker,
        &mut pids,
        &mut usages,
        &mut victims,
        "p",
        10,
        libc::SIGTERM,
    )
    .expect("cycle");
    let caps = (pids.capacity(), usages.capacity(), victims.capacity());

    for _ in 0..50 {
        monitor_cycle(
            &mut dir,
            &mut checker,
            &mut pids,
            &mut usages,
            &mut victims,
            "p",
            10,
            libc::SIGTERM,
        )
        .expect("cycle");
    }
    assert_eq!((pids.capacity(), usages.capacity(), victims.capacity()), caps);
}
