//! Which processes held a socket, and when.

use flowlens::history::{AttributionHistory, StartTimes, HISTORY_CAPACITY, HISTORY_RETENTION};
use flowlens::net::{IpAddr, LocalSocket, TransportProtocol};
use flowlens::proc_table::{ProcEntry, ProcInfo};
use flowlens::time::rfc3339;

const IP: IpAddr = IpAddr::V4(0xc000_020a);
const TCP: TransportProtocol = TransportProtocol::Tcp;

/// 2026-08-01T00:00:00Z, in nanoseconds since 1970.
const MIDNIGHT: i128 = 1_785_542_400_000_000_000;
const SECOND: i128 = 1_000_000_000;
const MINUTE: i128 = 60 * SECOND;

fn t(minutes: i128) -> i128 {
    MIDNIGHT + minutes * MINUTE
}

fn socket(port: u16) -> LocalSocket {
    LocalSocket {
        ip: IP,
        port,
        protocol: TCP,
    }
}

fn info(pid: u32, name: &str) -> ProcInfo {
    ProcInfo {
        pid,
        name: Some(name.to_string()),
        path: None,
    }
}

fn entry(port: u16, info: &ProcInfo) -> ProcEntry {
    ProcEntry {
        socket: socket(port),
        info: info.clone(),
    }
}

fn default_history() -> AttributionHistory {
    AttributionHistory::default()
}

#[test]
fn times_of_these_tests_count_from_midnight() {
    assert_eq!(rfc3339(t(0)), "2026-08-01T00:00:00+00:00");
}

#[test]
fn interval_opens_closes_and_reopens_per_generation() {
    let mut history = AttributionHistory::new(15 * MINUTE, 16);
    let server = info(7, "server");
    history.update(t(0), &vec![entry(49_152, &server)]);
    // Open interval: any time after valid_from hits.
    assert_eq!(history.lookup(socket(49_152), t(5)).len(), 1);
    // Disappears -> closed at t(6); the closing instant itself still hits, later does not.
    history.update(t(6), &vec![]);
    assert_eq!(history.lookup(socket(49_152), t(6)).len(), 1);
    assert!(history.lookup(socket(49_152), t(7)).is_empty());
    // Reappears -> a new interval opens (simplified semantics: the old one is replaced).
    history.update(t(10), &vec![entry(49_152, &server)]);
    assert!(history.lookup(socket(49_152), t(7)).is_empty());
    assert_eq!(history.lookup(socket(49_152), t(12)).len(), 1);
}

#[test]
fn multiple_pids_on_one_socket_are_all_candidates() {
    let mut history = default_history();
    let first = info(7, "alpha");
    let second = info(8, "beta");
    history.update(t(0), &vec![entry(443, &first), entry(443, &second)]);
    let found = history.lookup(socket(443), t(1));
    assert_eq!(found.len(), 2);
    assert!(found.iter().any(|process| process.pid == 7));
    assert!(found.iter().any(|process| process.pid == 8));
}

#[test]
fn retention_prunes_only_closed_intervals() {
    let mut history = AttributionHistory::new(15 * MINUTE, 64);
    let gone = info(7, "gone");
    let alive = info(8, "alive");
    history.update(t(0), &vec![entry(10_000, &gone), entry(10_001, &alive)]);
    // gone closes at t(1); alive stays open.
    history.update(t(1), &vec![entry(10_001, &alive)]);
    // Both survive within the 15-minute retention.
    history.update(t(15), &vec![entry(10_001, &alive)]);
    assert_eq!(history.len(), 2);
    // t(17): gone's valid_to = t(1), 16 minutes ago -> pruned; alive stays (open).
    history.update(t(17), &vec![entry(10_001, &alive)]);
    assert_eq!(history.len(), 1);
    assert_eq!(history.lookup(socket(10_001), t(17)).len(), 1);
}

#[test]
fn capacity_evicts_oldest_closed_interval_first() {
    let mut history = AttributionHistory::new(15 * MINUTE, 2);
    let a = info(7, "a");
    let b = info(8, "b");
    let c = info(9, "c");
    history.update(t(0), &vec![entry(10, &a), entry(11, &b)]);
    // a closes at t(1); b stays.
    history.update(t(1), &vec![entry(11, &b)]);
    // c opens at t(2) -> over capacity; a, closed earliest, is evicted.
    history.update(t(2), &vec![entry(11, &b), entry(12, &c)]);
    assert_eq!(history.len(), 2);
    assert!(history.lookup(socket(10), t(0)).is_empty());
    assert_eq!(history.lookup(socket(11), t(2)).len(), 1);
    assert_eq!(history.lookup(socket(12), t(2)).len(), 1);
}

#[test]
fn start_time_gate_rejects_unverifiable_or_later_processes() {
    let mut history = default_history();
    let started = StartTimes {
        known: vec![(4_000, t(0))],
    };
    // The process was there before the traffic.
    let own = info(4_000, "self");
    let now = t(1);
    history.update(now, &vec![entry(20_000, &own)]);
    assert_eq!(
        history.lookup_verified(socket(20_000), now + SECOND, &started).len(),
        1
    );
    // Traffic seen before the process started (a fabricated past interval) -> rejected.
    let past = MIDNIGHT - 9_000_000 * MINUTE;
    let past_info = info(4_000, "past");
    history.update(past, &vec![entry(20_001, &past_info)]);
    assert!(history.lookup_verified(socket(20_001), past + SECOND, &started).is_empty());
    assert_eq!(history.lookup(socket(20_001), past + SECOND).len(), 1);
    // No start time is known -> rejected.
    let ghost = info(u32::MAX, "ghost");
    history.update(now, &vec![entry(20_002, &ghost)]);
    assert!(history.lookup_verified(socket(20_002), now, &started).is_empty());
    assert_eq!(history.lookup(socket(20_002), now).len(), 1);
}

#[test]
fn a_process_that_started_with_the_traffic_is_kept() {
    let mut history = AttributionHistory::new(HISTORY_RETENTION, HISTORY_CAPACITY);
    let started = StartTimes {
        known: vec![(7, t(3)), (8, t(3) + 1)],
    };
    history.update(t(0), &vec![entry(80, &info(7, "on time")), entry(80, &info(8, "late"))]);
    let found = history.lookup_verified(socket(80), t(3), &started);
    assert_eq!(found.len(), 1);
    assert_eq!(found[0].pid, 7);
    assert_eq!(found[0].name.as_deref(), Some("on time"));
}

#[test]
fn an_interval_seen_again_stays_one_interval() {
    let mut history = default_history();
    let server = info(7, "server");
    for minute in 0..4 {
        history.update(t(minute), &vec![entry(443, &server)]);
    }
    assert_eq!(history.len(), 1);
    assert!(history.lookup(socket(443), t(0) - 1).is_empty());
    assert_eq!(history.lookup(socket(443), t(0)).len(), 1);
    assert!(history.lookup(socket(444), t(2)).is_empty());
}
