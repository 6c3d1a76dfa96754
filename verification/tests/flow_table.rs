//! What is known of connections, and when it is forgotten.

use flowlens::flow_table::{
    entry_of, FlowEntry, FlowKey, FlowTable, DEFAULT_FLOW_TABLE_CAPACITY,
    MAX_NO_DOMAIN_PARSE_ATTEMPTS, MAX_TTI_SECONDS,
};
use flowlens::net::IpAddr;
use std::time::{Duration, Instant};

/// Lets some time pass.
fn wait(time: Duration) {
    let start = Instant::now();
    while start.elapsed() < time {
        std::hint::spin_loop();
    }
}

/// Build a test FlowKey (distinguished by the suffix).
fn key(suffix: u8) -> FlowKey {
    FlowKey {
        local_ip: IpAddr::V4(u32::from_be_bytes([192, 0, 2, 10])),
        local_port: 10_000 + u16::from(suffix),
        peer_ip: IpAddr::V4(u32::from_be_bytes([198, 51, 100, suffix])),
        peer_port: 443,
    }
}

#[test]
fn empty_table_lookup_returns_none() {
    let table = FlowTable::new();
    assert!(table.lookup(&key(1)).is_none());
}

#[test]
fn insert_resolved_then_lookup_returns_entry() {
    let mut table = FlowTable::new();
    let k = key(1);
    table.insert_resolved(k.clone(), "example.com".to_string());

    match table.lookup(&k) {
        Some(FlowEntry::Resolved(d)) => assert_eq!(d.as_str(), "example.com"),
        other => panic!("expected a domain, got {other:?}"),
    }
}

#[test]
fn insert_no_domain_then_lookup_returns_no_domain() {
    let mut table = FlowTable::new();
    let k = key(2);
    table.insert_no_domain(k.clone());

    assert!(matches!(
        table.lookup(&k),
        Some(FlowEntry::NoDomain { attempts: 1 })
    ));
}

#[test]
fn no_domain_entry_tracks_bounded_parse_attempts() {
    let mut table = FlowTable::new();
    let k = key(3);
    table.insert_no_domain(k.clone());

    assert!(matches!(
        table.lookup(&k),
        Some(FlowEntry::NoDomain { attempts: 1 })
    ));
    table.record_no_domain_attempt(k.clone());
    assert!(matches!(
        table.lookup(&k),
        Some(FlowEntry::NoDomain { attempts: 2 })
    ));
    table.record_no_domain_attempt(k.clone());
    table.record_no_domain_attempt(k.clone());
    assert!(matches!(
        table.lookup(&k),
        Some(FlowEntry::NoDomain {
            attempts: MAX_NO_DOMAIN_PARSE_ATTEMPTS
        })
    ));
    table.record_no_domain_attempt(k.clone());
    assert!(matches!(
        table.lookup(&k),
        Some(FlowEntry::NoDomain {
            attempts: MAX_NO_DOMAIN_PARSE_ATTEMPTS
        })
    ));
}

#[test]
fn idle_entry_expires_after_tti() {
    let mut table = FlowTable::with_capacity_and_tti(100, 0, 75_000_000);
    let k = key(4);
    table.insert_resolved(k.clone(), "example.com".to_string());
    assert!(table.lookup(&k).is_some());

    wait(Duration::from_millis(120));
    table.run_pending_tasks();

    assert!(table.lookup(&k).is_none(), "an idle entry is forgotten");
}

#[test]
fn accessed_entries_reset_idle_timer() {
    // TTI=500ms; each access refreshes the idle timer, so three consecutive 100ms sleeps (< 500ms) should all hit.
    let mut table = FlowTable::with_capacity_and_tti(100, 0, 500_000_000);
    let k = key(5);
    table.insert_resolved(k.clone(), "example.com".to_string());

    wait(Duration::from_millis(100));
    assert!(table.lookup(&k).is_some(), "found at first");
    wait(Duration::from_millis(100));
    assert!(table.lookup(&k).is_some(), "a lookup restarts the timer");
    wait(Duration::from_millis(100));
    assert!(table.lookup(&k).is_some(), "still found");
}

#[test]
fn table_capacity_bounds_entry_count() {
    // moka uses W-TinyLFU; the requirement is only to bound the table
    // when full, not which entry gets evicted. Assert the count stays
    // within max_capacity rather than which key was evicted.
    let capacity = 8;
    let mut table = FlowTable::with_capacity_and_tti(capacity, 3600, 0);

    for i in 0..(capacity + 5) {
        table.insert_resolved(key(i as u8), "example.com".to_string());
    }
    table.run_pending_tasks();

    let count = table.entry_count();
    assert!(
        count <= capacity,
        "{count} entries in a table of {capacity}"
    );
}

#[test]
fn same_five_tuple_shares_entry() {
    let mut table = FlowTable::new();
    let k = key(7);
    table.insert_resolved(k.clone(), "example.com".to_string());

    for _ in 0..3 {
        let entry = table.lookup(&k).expect("written before");
        match entry {
            FlowEntry::Resolved(d) => assert_eq!(d.as_str(), "example.com"),
            _ => panic!("expected a domain"),
        }
    }
}

#[test]
fn different_five_tuples_are_distinct_entries() {
    let mut table = FlowTable::new();
    table.insert_resolved(key(10), "a.com".to_string());
    table.insert_resolved(key(11), "b.com".to_string());

    match table.lookup(&key(10)) {
        Some(FlowEntry::Resolved(d)) => assert_eq!(d.as_str(), "a.com"),
        _ => panic!("expected a.com"),
    }
    match table.lookup(&key(11)) {
        Some(FlowEntry::Resolved(d)) => assert_eq!(d.as_str(), "b.com"),
        _ => panic!("expected b.com"),
    }
}

#[test]
fn default_table_is_constructible() {
    let _table = FlowTable::default();
}

#[test]
fn attempts_count_up_only_after_a_first_one() {
    let mut table = FlowTable::with_capacity(DEFAULT_FLOW_TABLE_CAPACITY);
    table.record_no_domain_attempt(key(20));
    assert!(table.lookup(&key(20)).is_none());

    table.insert_resolved(key(21), "example.com".to_string());
    table.record_no_domain_attempt(key(21));
    match table.lookup(&key(21)) {
        Some(FlowEntry::Resolved(domain)) => assert_eq!(domain, "example.com"),
        other => panic!("expected a domain, got {other:?}"),
    }
}

#[test]
fn a_later_domain_replaces_what_was_known() {
    let mut table = FlowTable::new();
    table.insert_no_domain(key(22));
    table.insert_resolved(key(22), "late.example".to_string());
    match table.lookup(&key(22)) {
        Some(FlowEntry::Resolved(domain)) => assert_eq!(domain, "late.example"),
        other => panic!("expected a domain, got {other:?}"),
    }
}

#[test]
fn longest_idle_timeout_is_accepted() {
    let mut table = FlowTable::with_capacity_and_tti(8, MAX_TTI_SECONDS, 0);
    let key = key(1);
    table.insert_no_domain(key.clone());
    assert!(table.lookup(&key).is_some());
}

#[test]
fn cached_values_are_names_or_attempts() {
    assert!(entry_of(None).is_none());
    assert!(matches!(entry_of(Some((None, 2))), Some(FlowEntry::NoDomain { attempts: 2 })));
    assert!(matches!(
        entry_of(Some((Some("example.com".to_string()), 0))),
        Some(FlowEntry::Resolved(domain)) if domain == "example.com"
    ));
}

#[test]
fn entries_are_no_more_than_connections_learned_of() {
    let mut table = FlowTable::new();
    assert_eq!(table.entry_count(), 0);
    for _ in 0..5 {
        table.insert_no_domain(key(1));
        table.insert_resolved(key(2), "example.com".to_string());
        table.run_pending_tasks();
        assert_eq!(table.entry_count(), 2);
    }
}
