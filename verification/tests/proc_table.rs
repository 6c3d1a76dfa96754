//! Who owns which socket, and how the table that says so is kept fresh.

use flowlens::net::{IpAddr, LocalSocket, SocketAddr, TransportProtocol};
use flowlens::process_name::PathStyle;
use flowlens::proc_table::{
    ListenerRecord, LookupMissReason, LookupMissSample, LookupOutcome, ProcInfo, ProcTable,
    RefreshSlot, LOOKUP_MISS_SAMPLE_LIMIT,
};
use flowlens::refresh::{
    request_refresh_min_interval, RefreshThrottle, RefreshWake, REQUEST_INTERVAL,
};

const SECOND: u128 = 1_000_000_000;
const NOW: u128 = 1_000 * SECOND;

const LOCALHOST_V4: u32 = 0x7f00_0001;
const LOCALHOST_V6: u128 = 1;

fn record(
    ip: IpAddr,
    port: u16,
    protocol: TransportProtocol,
    pid: u32,
    path: &str,
) -> ListenerRecord {
    record_with_name(ip, port, protocol, pid, "", path)
}

fn record_with_name(
    ip: IpAddr,
    port: u16,
    protocol: TransportProtocol,
    pid: u32,
    name: &str,
    path: &str,
) -> ListenerRecord {
    ListenerRecord {
        socket: SocketAddr { ip, port },
        protocol,
        pid,
        name: name.to_string(),
        path: path.to_string(),
        path_style: PathStyle::Unix,
    }
}

fn lookup(table: &ProcTable, ip: IpAddr, port: u16, protocol: TransportProtocol) -> Option<&ProcInfo> {
    table.lookup_at(LocalSocket { ip, port, protocol }, NOW)
}

fn lookup_outcome(
    table: &ProcTable,
    ip: IpAddr,
    port: u16,
    protocol: TransportProtocol,
) -> LookupOutcome<'_> {
    table.lookup_outcome_at(LocalSocket { ip, port, protocol }, NOW)
}

fn mapped(v4: u32) -> IpAddr {
    IpAddr::V6((0xffff << 32) | u128::from(v4))
}

/// A table and the worker that refreshes it, one scan after the other.
struct Background {
    table: ProcTable,
    throttle: RefreshThrottle,
    refresh: u128,
    /// What the scans give.
    scans: Vec<Result<Vec<ListenerRecord>, String>>,
    queries: usize,
}

impl Background {
    fn spawn_using(
        refresh: u128,
        min_request_interval: u128,
        scans: Vec<Result<Vec<ListenerRecord>, String>>,
    ) -> Background {
        let mut background = Background {
            table: ProcTable::default(),
            throttle: RefreshThrottle::new(min_request_interval),
            refresh,
            scans,
            queries: 0,
        };
        background.table.accept_requests();
        background.run_refresh();
        background
    }

    fn run_refresh(&mut self) {
        self.table.record_refresh_start();
        self.queries += 1;
        let result = if self.scans.is_empty() {
            Ok(Vec::new())
        } else {
            self.scans.remove(0)
        };
        let _ = self.table.finish_refresh(result, NOW, self.refresh, 1_000_000);
    }

    fn wake(&mut self, wake: RefreshWake) {
        if self.throttle.admits(wake, NOW) {
            self.run_refresh();
        }
        self.table.take_request();
    }

    /// Serves the requests that wait.
    fn serve_requests(&mut self) {
        while self.table.take_request() {
            self.wake(RefreshWake::Requested);
        }
    }
}

#[test]
fn initial_success_is_visible_when_startup_returns() {
    let ip = IpAddr::V4(LOCALHOST_V4);
    let background = Background::spawn_using(
        5 * SECOND,
        SECOND,
        vec![Ok(vec![record(ip, 443, TransportProtocol::Tcp, 7, "/usr/bin/curl")])],
    );

    assert_eq!(
        lookup(&background.table, ip, 443, TransportProtocol::Tcp).map(|process| process.pid),
        Some(7)
    );
}

#[test]
fn startup_queries_once_before_the_first_refresh_interval() {
    let mut background = Background::spawn_using(5 * SECOND, SECOND, vec![]);
    background.serve_requests();

    assert_eq!(background.queries, 1);
}

#[test]
fn initial_failure_allows_background_recovery() {
    let ip = IpAddr::V4(LOCALHOST_V4);
    let mut background = Background::spawn_using(
        5 * SECOND,
        SECOND,
        vec![
            Err("listeners unavailable".to_string()),
            Ok(vec![record(ip, 443, TransportProtocol::Tcp, 7, "/usr/bin/curl")]),
        ],
    );

    assert!(!background.table.is_fresh_at(NOW));
    assert!(lookup(&background.table, ip, 443, TransportProtocol::Tcp).is_none());

    background.wake(RefreshWake::Periodic);

    assert!(background.table.is_fresh_at(NOW));
    assert_eq!(
        lookup(&background.table, ip, 443, TransportProtocol::Tcp).map(|process| process.pid),
        Some(7)
    );
}

#[test]
fn refresh_request_triggers_one_background_refresh() {
    let mut background = Background::spawn_using(60 * SECOND, SECOND, vec![]);

    assert!(background.table.request_refresh());
    background.serve_requests();

    assert_eq!(background.queries, 2);
    let diagnostics = background.table.diagnostics_snapshot();
    assert_eq!(diagnostics.counters.refresh_requests, 1);
    assert_eq!(diagnostics.counters.refresh_actual, 2);
    assert_eq!(diagnostics.counters.refresh_success, 2);
    assert_eq!(diagnostics.counters.refresh_failure, 0);
}

#[test]
fn burst_refresh_requests_are_coalesced() {
    let mut background = Background::spawn_using(60 * SECOND, SECOND, vec![]);

    assert!(background.table.request_refresh());
    assert!(!background.table.request_refresh());
    background.serve_requests();

    assert_eq!(background.queries, 2);
    let diagnostics = background.table.diagnostics_snapshot();
    assert_eq!(diagnostics.counters.refresh_requests, 2);
    assert_eq!(diagnostics.counters.refresh_actual, 2);
}

#[test]
fn requested_refreshes_are_rate_limited() {
    let mut background = Background::spawn_using(60 * SECOND, SECOND, vec![]);
    background.wake(RefreshWake::Requested);
    background.wake(RefreshWake::Requested);

    assert_eq!(background.queries, 2);
}

#[test]
fn periodic_refresh_continues_after_requested_refresh() {
    let mut background = Background::spawn_using(60 * SECOND, SECOND, vec![]);
    background.wake(RefreshWake::Requested);
    background.wake(RefreshWake::Periodic);

    assert_eq!(background.queries, 3);
}

#[test]
fn refresh_failure_keeps_snapshot_and_records_failure_duration() {
    let ip = IpAddr::V4(LOCALHOST_V4);
    let mut background = Background::spawn_using(
        60 * SECOND,
        SECOND,
        vec![
            Ok(vec![record(ip, 443, TransportProtocol::Tcp, 7, "/usr/bin/curl")]),
            Err("listeners unavailable".to_string()),
        ],
    );

    assert!(background.table.request_refresh());
    background.serve_requests();

    assert_eq!(
        lookup(&background.table, ip, 443, TransportProtocol::Tcp).map(|process| process.pid),
        Some(7)
    );
    let diagnostics = background.table.diagnostics_snapshot();
    assert_eq!(diagnostics.counters.refresh_actual, 2);
    assert_eq!(diagnostics.counters.refresh_success, 1);
    assert_eq!(diagnostics.counters.refresh_failure, 1);
    assert!(
        diagnostics.counters.refresh_duration_nanos
            >= diagnostics.counters.last_refresh_duration_nanos
    );
    assert!(diagnostics.counters.last_refresh_duration_nanos > 0);
}

fn socket_443(ip: IpAddr) -> LocalSocket {
    LocalSocket {
        ip,
        port: 443,
        protocol: TransportProtocol::Tcp,
    }
}

#[test]
fn injected_records_match_address_port_and_protocol() {
    let ip = IpAddr::v4(192, 0, 2, 10);
    let table = ProcTable::from_records(&vec![
        record(ip, 443, TransportProtocol::Tcp, 7, "/usr/bin/curl"),
        record(ip, 443, TransportProtocol::Udp, 8, "/usr/bin/quiche"),
    ]);

    assert_eq!(
        lookup(&table, ip, 443, TransportProtocol::Tcp).map(|p| p.pid),
        Some(7)
    );
    assert_eq!(
        lookup(&table, ip, 443, TransportProtocol::Udp).map(|p| p.pid),
        Some(8)
    );
    assert!(lookup(&table, ip, 80, TransportProtocol::Tcp).is_none());
}

#[test]
fn injected_records_support_ipv4_and_ipv6() {
    let ipv4 = IpAddr::V4(LOCALHOST_V4);
    let ipv6 = IpAddr::V6(LOCALHOST_V6);
    let table = ProcTable::from_records(&vec![
        record(ipv4, 8080, TransportProtocol::Tcp, 10, "/opt/server4"),
        record(ipv6, 5353, TransportProtocol::Udp, 11, "/opt/server6"),
    ]);

    assert_eq!(
        lookup(&table, ipv4, 8080, TransportProtocol::Tcp)
            .map(|p| p.pid),
        Some(10)
    );
    assert_eq!(
        lookup(&table, ipv6, 5353, TransportProtocol::Udp)
            .map(|p| p.pid),
        Some(11)
    );
}

#[test]
fn ipv4_wildcard_listener_matches_concrete_address() {
    let local_ip = IpAddr::v4(192, 0, 2, 10);
    let table = ProcTable::from_records(&vec![record(
        IpAddr::V4(0),
        8080,
        TransportProtocol::Tcp,
        7,
        "/opt/server",
    )]);

    assert_eq!(
        lookup(&table, local_ip, 8080, TransportProtocol::Tcp)
            .map(|process| process.pid),
        Some(7)
    );
}

#[test]
fn ipv6_wildcard_listener_matches_concrete_address() {
    let local_ip = IpAddr::V6(0x2001_0db8_0000_0000_0000_0000_0000_0010);
    let table = ProcTable::from_records(&vec![record(
        IpAddr::V6(0),
        8080,
        TransportProtocol::Tcp,
        7,
        "/opt/server",
    )]);

    assert_eq!(
        lookup(&table, local_ip, 8080, TransportProtocol::Tcp)
            .map(|process| process.pid),
        Some(7)
    );
}

#[test]
fn ipv4_lookup_matches_ipv4_mapped_ipv6_socket() {
    let local_ip = IpAddr::v4(186, 241, 106, 205);
    let mapped_ip = mapped(u32::from_be_bytes([186, 241, 106, 205]));
    let table = ProcTable::from_records(&vec![record(
        mapped_ip,
        51102,
        TransportProtocol::Tcp,
        2027468,
        "/app/sui",
    )]);

    assert_eq!(
        lookup(&table, local_ip, 51102, TransportProtocol::Tcp)
            .map(|process| process.pid),
        Some(2027468)
    );
}

#[test]
fn ipv4_mapped_records_and_hits_are_counted() {
    let local_ip = IpAddr::v4(186, 241, 106, 205);
    let mapped_ip = mapped(u32::from_be_bytes([186, 241, 106, 205]));
    let mut table = ProcTable::default();
    table
        .refresh_at(
            Ok(vec![record(
                mapped_ip,
                51102,
                TransportProtocol::Tcp,
                2027468,
                "/app/sui",
            )]),
            NOW,
            SECOND,
        )
        .unwrap();

    let diagnostics = table.diagnostics_snapshot();
    assert_eq!(diagnostics.counters.refresh_records, 1);
    assert_eq!(diagnostics.counters.refresh_v4_mapped_records, 1);

    match lookup_outcome(&table, local_ip, 51102, TransportProtocol::Tcp) {
        LookupOutcome::Hit { process, v4_mapped } => {
            assert_eq!(process.pid, 2027468);
            assert!(v4_mapped);
        }
        LookupOutcome::Ambiguous { .. } => panic!("expected hit, got ambiguous"),
        LookupOutcome::Miss(reason) => panic!("expected hit, got {reason:?}"),
    }
    table.record_lookup_hit(true);

    let diagnostics = table.diagnostics_snapshot();
    assert_eq!(diagnostics.counters.lookup_hits, 1);
    assert_eq!(diagnostics.counters.lookup_v4_mapped_hits, 1);
}

#[test]
fn lookup_miss_reasons_are_counted_separately() {
    let ip = IpAddr::V4(LOCALHOST_V4);
    let mut table = ProcTable::default();
    table
        .refresh_at(Ok(Vec::new()), NOW, SECOND)
        .unwrap();

    match lookup_outcome(&table, ip, 443, TransportProtocol::Tcp) {
        LookupOutcome::Miss(reason) => table.record_lookup_miss_bytes(reason, 10),
        LookupOutcome::Ambiguous { .. } => panic!("empty table should not be ambiguous"),
        LookupOutcome::Hit { .. } => panic!("empty table should not match"),
    }

    table
        .refresh_at(
            Ok(vec![
                record(ip, 443, TransportProtocol::Tcp, 7, "/usr/bin/server-a"),
                record(ip, 443, TransportProtocol::Tcp, 8, "/usr/bin/server-b"),
            ]),
            NOW,
            SECOND,
        )
        .unwrap();
    match lookup_outcome(&table, ip, 443, TransportProtocol::Tcp) {
        LookupOutcome::Ambiguous { .. } => {
            table.record_lookup_miss_bytes(LookupMissReason::Ambiguous, 20)
        }
        LookupOutcome::Miss(reason) => table.record_lookup_miss_bytes(reason, 20),
        LookupOutcome::Hit { .. } => panic!("ambiguous table should not match"),
    }

    table.max_age = 0;
    table.refreshed_at = Some(NOW - 1);
    match lookup_outcome(&table, ip, 443, TransportProtocol::Tcp) {
        LookupOutcome::Ambiguous { .. } => {
            panic!("expired table should be stale, not ambiguous")
        }
        LookupOutcome::Miss(reason) => table.record_lookup_miss_bytes(reason, 30),
        LookupOutcome::Hit { .. } => panic!("stale table should not match"),
    }

    let diagnostics = table.diagnostics_snapshot();
    assert_eq!(diagnostics.counters.lookup_misses, 3);
    assert_eq!(diagnostics.counters.lookup_no_candidate, 1);
    assert_eq!(diagnostics.counters.lookup_ambiguous, 1);
    assert_eq!(diagnostics.counters.lookup_stale, 1);
    assert_eq!(diagnostics.counters.lookup_no_candidate_bytes, 10);
    assert_eq!(diagnostics.counters.lookup_ambiguous_bytes, 20);
    assert_eq!(diagnostics.counters.lookup_stale_bytes, 30);
}

#[test]
fn lookup_miss_samples_are_bounded_deduplicated_and_drained() {
    let mut table = ProcTable::default();
    let local_ip = IpAddr::v4(186, 241, 106, 205);
    let peer_ip = IpAddr::v4(101, 204, 221, 33);
    let local_socket = LocalSocket {
        ip: local_ip,
        port: 51102,
        protocol: TransportProtocol::Tcp,
    };

    table.record_lookup_miss_sample(LookupMissReason::NoCandidate, local_socket, peer_ip, 6041);
    table.record_lookup_miss_sample(LookupMissReason::NoCandidate, local_socket, peer_ip, 6041);
    for peer_port in 6042..6055 {
        table.record_lookup_miss_sample(
            LookupMissReason::NoCandidate,
            LocalSocket {
                port: peer_port,
                ..local_socket
            },
            peer_ip,
            peer_port,
        );
    }

    let diagnostics = table.diagnostics_snapshot();
    assert_eq!(
        diagnostics.lookup_miss_samples.len(),
        LOOKUP_MISS_SAMPLE_LIMIT
    );
    assert_eq!(
        diagnostics.lookup_miss_samples[0],
        LookupMissSample {
            reason: LookupMissReason::NoCandidate,
            local_socket,
            peer_ip,
            peer_port: 6041,
        }
    );

    let diagnostics = table.diagnostics_snapshot();
    assert!(diagnostics.lookup_miss_samples.is_empty());
}

#[test]
fn concrete_address_takes_priority_over_wildcard_listener() {
    let local_ip = IpAddr::v4(192, 0, 2, 10);
    let table = ProcTable::from_records(&vec![
        record(
            IpAddr::V4(0),
            8080,
            TransportProtocol::Tcp,
            7,
            "/opt/wildcard-server",
        ),
        record(
            local_ip,
            8080,
            TransportProtocol::Tcp,
            8,
            "/opt/specific-server",
        ),
    ]);

    assert_eq!(
        lookup(&table, local_ip, 8080, TransportProtocol::Tcp)
            .map(|process| process.pid),
        Some(8)
    );
}

#[test]
fn duplicate_candidates_for_one_pid_are_attributed() {
    let ip = IpAddr::V4(LOCALHOST_V4);
    let table = ProcTable::from_records(&vec![
        record(ip, 443, TransportProtocol::Tcp, 7, "/usr/bin/curl"),
        record(ip, 443, TransportProtocol::Tcp, 7, "/usr/bin/curl"),
    ]);

    assert_eq!(
        lookup(&table, ip, 443, TransportProtocol::Tcp).map(|p| p.pid),
        Some(7)
    );
}

#[test]
fn candidates_for_different_pids_are_ambiguous() {
    let ip = IpAddr::V4(LOCALHOST_V4);
    let table = ProcTable::from_records(&vec![
        record(ip, 443, TransportProtocol::Tcp, 7, "/usr/bin/server-a"),
        record(ip, 443, TransportProtocol::Tcp, 8, "/usr/bin/server-b"),
    ]);

    assert!(lookup(&table, ip, 443, TransportProtocol::Tcp).is_none());
}

#[test]
fn process_display_name_uses_executable_file_name() {
    let ip = IpAddr::V4(LOCALHOST_V4);
    let table = ProcTable::from_records(&vec![record_with_name(
        ip,
        443,
        TransportProtocol::Tcp,
        7,
        "backend-name",
        "/usr/bin/curl",
    )]);

    let process = lookup(&table, ip, 443, TransportProtocol::Tcp)
        .expect("injected listener should match");
    assert_eq!(process.name.as_deref(), Some("curl"));
}

#[test]
fn process_observation_includes_executable_path() {
    let ip = IpAddr::V4(LOCALHOST_V4);
    let table =
        ProcTable::from_records(&vec![record(ip, 443, TransportProtocol::Tcp, 7, "/usr/bin/curl")]);

    let process = lookup(&table, ip, 443, TransportProtocol::Tcp)
        .expect("injected listener should match");

    assert_eq!(process.path.as_deref(), Some("/usr/bin/curl"));
}

#[test]
fn missing_process_name_uses_executable_file_name() {
    let ip = IpAddr::V4(LOCALHOST_V4);
    let table = ProcTable::from_records(&vec![record_with_name(
        ip,
        443,
        TransportProtocol::Tcp,
        7,
        "",
        "/usr/bin/curl",
    )]);

    let process = lookup(&table, ip, 443, TransportProtocol::Tcp)
        .expect("PID attribution should survive a missing process name");
    assert_eq!(process.name.as_deref(), Some("curl"));
}

#[test]
fn windows_executable_is_named_without_its_directory() {
    let ip = IpAddr::v4(192, 0, 2, 10);
    let mut line = record(ip, 443, TransportProtocol::Tcp, 7, r"C:\x\app.exe");
    line.path_style = PathStyle::Windows;
    let table = ProcTable::from_records(&vec![line]);
    assert_eq!(table.entries[0].info.name.as_deref(), Some("app.exe"));
    assert_eq!(table.entries[0].info.path.as_deref(), Some(r"C:\x\app.exe"));
}

#[test]
fn missing_executable_path_uses_listener_process_name() {
    let ip = IpAddr::V4(LOCALHOST_V4);
    let table = ProcTable::from_records(&vec![record_with_name(
        ip,
        443,
        TransportProtocol::Tcp,
        7,
        "curl",
        "",
    )]);

    let process = lookup(&table, ip, 443, TransportProtocol::Tcp)
        .expect("PID attribution should survive a missing executable path");
    assert_eq!(process.name.as_deref(), Some("curl"));
}

#[test]
fn missing_executable_path_has_no_display_name() {
    let ip = IpAddr::V4(LOCALHOST_V4);
    let table = ProcTable::from_records(&vec![record(ip, 443, TransportProtocol::Tcp, 7, "")]);

    let process = lookup(&table, ip, 443, TransportProtocol::Tcp)
        .expect("PID attribution should survive a missing path");
    assert!(process.name.is_none());
    assert!(process.path.is_none());
}

#[test]
fn failed_refresh_keeps_last_success_until_snapshot_expires() {
    let started_at = NOW;
    let refresh = 5 * SECOND;
    let ip = IpAddr::V4(LOCALHOST_V4);
    let mut table = ProcTable::default();
    table
        .refresh_at(
            Ok(vec![record(
                ip,
                443,
                TransportProtocol::Tcp,
                7,
                "/usr/bin/curl",
            )]),
            started_at,
            refresh,
        )
        .unwrap();

    let error = table
        .refresh_at(
            Err("listeners unavailable".to_string()),
            started_at + refresh,
            refresh,
        )
        .unwrap_err();
    table
        .refresh_at(
            Err("listeners still unavailable".to_string()),
            started_at + refresh * 2,
            refresh,
        )
        .unwrap_err();

    assert_eq!(error, "listeners unavailable");
    assert_eq!(
        table.lookup_at(socket_443(ip), started_at + refresh * 2)
            .map(|process| process.pid),
        Some(7)
    );
    assert!(
        table.lookup_at(socket_443(ip), started_at + refresh * 2 + 1)
            .is_none()
    );
}

#[test]
fn process_data_freshness_uses_the_last_successful_refresh() {
    let started_at = NOW;
    let refresh = 5 * SECOND;
    let mut table = ProcTable::default();
    table
        .refresh_at(Ok(Vec::new()), started_at, refresh)
        .unwrap();

    assert!(table.is_fresh_at(started_at + refresh * 2));
    assert!(!table.is_fresh_at(started_at + refresh * 2 + 1));
}

#[test]
fn successful_refresh_replaces_expired_snapshot() {
    let started_at = NOW;
    let refresh = 5 * SECOND;
    let ip = IpAddr::V4(LOCALHOST_V4);
    let mut table = ProcTable::default();
    table
        .refresh_at(
            Ok(vec![record(
                ip,
                443,
                TransportProtocol::Tcp,
                7,
                "/usr/bin/old-server",
            )]),
            started_at,
            refresh,
        )
        .unwrap();
    let recovered_at = started_at + refresh * 3;

    assert!(
        table.lookup_at(socket_443(ip), recovered_at)
            .is_none()
    );

    table
        .refresh_at(
            Ok(vec![record(
                ip,
                443,
                TransportProtocol::Tcp,
                8,
                "/usr/bin/new-server",
            )]),
            recovered_at,
            refresh,
        )
        .unwrap();

    assert_eq!(
        table.lookup_at(socket_443(ip), recovered_at)
            .map(|process| process.pid),
        Some(8)
    );
}

#[test]
fn ambiguous_owners_are_all_named() {
    let ip = IpAddr::V4(LOCALHOST_V4);
    let table = ProcTable::from_records(&vec![
        record(ip, 443, TransportProtocol::Tcp, 7, "/usr/bin/server-a"),
        record(ip, 443, TransportProtocol::Tcp, 8, "/usr/bin/server-b"),
        record(ip, 443, TransportProtocol::Tcp, 7, "/usr/bin/server-a"),
    ]);
    match lookup_outcome(&table, ip, 443, TransportProtocol::Tcp) {
        LookupOutcome::Ambiguous { processes } => {
            let pids: Vec<u32> = processes.iter().map(|process| process.pid).collect();
            assert_eq!(pids, vec![7, 8]);
        }
        LookupOutcome::Hit { .. } => panic!("two processes own the socket"),
        LookupOutcome::Miss(reason) => panic!("expected two processes, got {reason:?}"),
    }
}

#[test]
fn requests_wait_only_for_someone_who_refreshes() {
    let mut table = ProcTable::default();
    assert!(!table.request_refresh());
    assert_eq!(table.refresh, RefreshSlot::Absent);
    assert_eq!(table.counters.refresh_requests, 1);

    table.accept_requests();
    assert!(table.request_refresh());
    assert_eq!(table.refresh, RefreshSlot::Full);
    assert!(table.take_request());
    assert!(!table.take_request());
}

#[test]
fn requests_come_at_most_once_a_second() {
    assert_eq!(request_refresh_min_interval(5 * SECOND), REQUEST_INTERVAL);
    assert_eq!(request_refresh_min_interval(SECOND / 4), SECOND / 4);

    let mut throttle = RefreshThrottle::new(SECOND);
    assert!(throttle.admits(RefreshWake::Requested, NOW));
    assert!(!throttle.admits(RefreshWake::Requested, NOW + SECOND - 1));
    assert!(throttle.admits(RefreshWake::Periodic, NOW + SECOND - 1));
    assert!(throttle.admits(RefreshWake::Requested, NOW + SECOND));
}

#[test]
fn generation_counts_successful_refreshes() {
    let mut table = ProcTable::default();
    assert_eq!(table.generation(), 0);
    assert_eq!(table.refresh_at(Ok(Vec::new()), NOW, SECOND), Ok(()));
    assert_eq!(table.generation(), 1);
    assert_eq!(
        table.refresh_at(Err("gone".to_string()), NOW, SECOND),
        Err("gone".to_string())
    );
    assert_eq!(table.generation(), 1);
}

#[test]
fn flows_without_a_socket_are_counted_apart() {
    let mut table = ProcTable::default();
    table.record_no_local_socket();
    table.record_lookup_hit(false);
    assert_eq!(table.counters.no_local_socket, 1);
    assert_eq!(table.counters.lookup_hits, 1);
    assert_eq!(table.counters.lookup_v4_mapped_hits, 0);
}
