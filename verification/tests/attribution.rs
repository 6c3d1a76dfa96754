//! Charging traffic to the processes that own its sockets.

use flowlens::attribution::{
    Clock, ConnectionKey, PendingAttribution, PendingAttributor, ProbeState, SharedProcTable,
    PENDING_ATTRIBUTION_MAX_PROBE_ATTEMPTS, PENDING_ATTRIBUTION_PROBE_RETRY_INTERVAL,
    PENDING_ATTRIBUTION_WINDOW,
};
use flowlens::capture::Flow;
use flowlens::history::StartTimes;
use flowlens::net::{Direction, IpAddr, LocalSocket, SocketAddr, TransportProtocol};
use flowlens::proc_table::{ProcEntry, ProcInfo, ProcTable};
use flowlens::process_probe::{
    ConnectionMatch, ProbeProcess, ProbeRequestId, ProbeRequestOutcome, ProbeResult, ProcessProbe,
};
use flowlens::process_detail::{EvidenceSet, ProcessDetails};
use flowlens::stats::{Evidence, ObservedProcess, ProcFlowKey, Stats, StatsEntry};
use flowlens::traffic::{Channel, ProcessIdentity, Tally, TrafficTotals};

const MILLISECOND: u128 = 1_000_000;
const SECOND: u128 = 1_000 * MILLISECOND;
const STARTED: u128 = 1_000 * SECOND;

/// 2026-07-17T08:00:00Z, in nanoseconds since 1970.
const OBSERVED_AT: i128 = 1_784_275_200_000_000_000;

/// A process whose start, before all traffic, is known.
const KNOWN_PID: u32 = 4_321;

fn observed_at() -> i128 {
    OBSERVED_AT
}

fn clock(now: u128) -> Clock {
    Clock {
        now,
        read_at: now,
        wall: OBSERVED_AT,
    }
}

fn start_times() -> StartTimes {
    StartTimes {
        known: vec![(KNOWN_PID, OBSERVED_AT - 1)],
    }
}

fn shared(table: ProcTable) -> SharedProcTable {
    SharedProcTable {
        table,
        poisoned: false,
    }
}

fn insert_for_test(
    table: &mut ProcTable,
    ip: IpAddr,
    port: u16,
    protocol: TransportProtocol,
    pid: u32,
    name: &str,
    path: Option<&str>,
) {
    table.refreshed_at = Some(STARTED);
    table.generation = table.generation.wrapping_add(1);
    table.max_age = u128::MAX;
    table.record_count += 1;
    table.entries.push(ProcEntry {
        socket: LocalSocket { ip, port, protocol },
        info: ProcInfo {
            pid,
            name: Some(name.to_string()),
            path: path.map(|path| path.to_string()),
        },
    });
}

fn address(ip: IpAddr, port: u16) -> SocketAddr {
    SocketAddr { ip, port }
}

fn socket_flow(local_ip: IpAddr, local_port: u16, peer_port: u16, bytes: u64) -> Flow {
    Flow {
        direction: Direction::Outbound,
        peer: IpAddr::v4(198, 51, 100, 5),
        peer_port: Some(peer_port),
        bytes,
        local_socket: Some(LocalSocket {
            ip: local_ip,
            port: local_port,
            protocol: TransportProtocol::Tcp,
        }),
        peer_local_socket: None,
        domain: None,
    }
}

/// Bytes in both directions.
#[derive(Clone, Copy, Debug, PartialEq)]
struct Sum {
    recv: u64,
    sent: u64,
}

impl Sum {
    fn total(&self) -> u64 {
        self.recv + self.sent
    }
}

/// What the library says of one process.
struct Row {
    pid: u32,
    exclusive: Sum,
    shared: Sum,
    shared_with: Vec<u32>,
    evidence: Vec<&'static str>,
    flows: Vec<(ProcFlowKey, Sum)>,
    last_seen: i128,
    mixed: bool,
}

impl Row {
    fn sent(&self) -> u64 {
        self.exclusive.sent + self.shared.sent
    }

    fn is_mixed(&self) -> bool {
        self.mixed
    }
}

/// The ledger, summed up.
struct Snapshot {
    in_bytes: u64,
    out_bytes: u64,
    exclusive: Sum,
    shared: Sum,
    system: Sum,
    unattributed: Sum,
    processes: Vec<Row>,
}

impl Snapshot {
    fn total(&self) -> u64 {
        self.exclusive.total() + self.shared.total() + self.system.total() + self.unattributed.total()
    }
}

fn sum(channel: Channel) -> Sum {
    Sum {
        recv: channel.inbound,
        sent: channel.outbound,
    }
}

/// The summary and the lists, with the details of each process.
fn snapshot_of(stats: &Stats) -> Snapshot {
    let mut totals = TrafficTotals::new();
    totals.add_entries(&stats.entries);
    let listed = totals.snapshot(10, 0, true);
    let mut details = ProcessDetails::new();
    details.add_entries(&stats.entries);
    for row in &listed.processes {
        if let ProcessIdentity::Process(process) = &row.key {
            let detail = details.get(process).expect("a listed process has details");
            assert_eq!(detail.tally(), row.tally);
        }
    }
    Snapshot {
        in_bytes: listed.in_bytes,
        out_bytes: listed.out_bytes,
        exclusive: sum(listed.attribution.exclusive),
        shared: sum(listed.attribution.shared),
        system: sum(listed.attribution.system),
        unattributed: sum(listed.attribution.unattributed),
        processes: details
            .processes
            .iter()
            .map(|detail| Row {
                pid: detail.process.pid,
                exclusive: sum(detail.exclusive),
                shared: sum(detail.shared),
                shared_with: detail.shared_with.clone(),
                evidence: detail.evidence.labels(),
                flows: detail
                    .top_flows(10)
                    .iter()
                    .map(|flow| {
                        let sum = Sum { recv: flow.tally.inbound, sent: flow.tally.outbound };
                        (flow.key, sum)
                    })
                    .collect(),
                last_seen: detail.last_seen,
                mixed: detail.is_mixed(),
            })
            .collect(),
    }
}

fn active(request_id: ProbeRequestId, accept_results: bool) -> ProbeState {
    ProbeState {
        active_request: Some(request_id),
        attempts: 1,
        next_retry_at: STARTED,
        exhausted: false,
        accept_results,
    }
}

#[test]
fn probe_cooldown_does_not_queue_a_request() {
    let local_ip = IpAddr::v4(192, 0, 2, 10);
    let socket = LocalSocket {
        ip: local_ip,
        port: 49_152,
        protocol: TransportProtocol::Tcp,
    };
    let mut attributor = PendingAttributor::with_probe(SECOND, 8, ProcessProbe::new());
    let started = STARTED;

    attributor.ensure_probe(socket, started);
    let request_id = attributor
        .probe_state
        .get(socket)
        .expect("the socket is probed")
        .active_request
        .expect("initial request is active");
    let mut stats = Stats::new();
    attributor.apply_probe_result(
        &mut stats,
        ProbeResult::NotFound { request_id, socket },
        started,
    );

    let probe = attributor.probe.as_mut().expect("probe exists");
    assert_eq!(probe.take_requests().len(), 1);
    probe.deliver(vec![ProbeResult::NotFound { request_id, socket }]);
    probe.drain_results();

    attributor.ensure_probe(
        socket,
        started + PENDING_ATTRIBUTION_PROBE_RETRY_INTERVAL / 2,
    );
    assert!(attributor.probe.as_mut().expect("probe exists").take_requests().is_empty());
    assert_eq!(attributor.snapshot().counters.probe_request_queued, 1);
}

#[test]
fn late_probe_result_is_counted_when_pending_was_finalized() {
    let local_ip = IpAddr::v4(192, 0, 2, 10);
    let socket = LocalSocket {
        ip: local_ip,
        port: 49_152,
        protocol: TransportProtocol::Tcp,
    };
    let mut probe = ProcessProbe::new();
    let request_id = match probe.request(socket) {
        ProbeRequestOutcome::Queued(request_id) => request_id,
        outcome => panic!("unexpected probe request outcome: {outcome:?}"),
    };
    let mut attributor = PendingAttributor::new(SECOND, 8);
    attributor.probe = Some(probe);
    attributor.probe_state.insert(
        socket,
        active(request_id, false),
    );

    attributor.apply_probe_result(
        &mut Stats::new(),
        ProbeResult::Unique {
            request_id,
            socket,
            process: ProbeProcess {
                pid: 7,
                name: None,
                path: None,
            },
        },
        STARTED,
    );

    let snapshot = attributor.snapshot();
    assert_eq!(snapshot.counters.probe_result_unique, 1);
    assert_eq!(snapshot.counters.probe_result_late, 1);
    assert_eq!(snapshot.counters.probe_result_dropped, 1);
}

#[test]
fn connection_matches_only_attribute_matching_pending_peers() {
    let local = IpAddr::v4(192, 0, 2, 10);
    let first_peer = address(IpAddr::v4(198, 51, 100, 5), 443);
    let second_peer = address(IpAddr::v4(198, 51, 100, 6), 443);
    let socket = LocalSocket {
        ip: local,
        port: 49_152,
        protocol: TransportProtocol::Tcp,
    };
    let observed_at = observed_at();
    let mut probe = ProcessProbe::new();
    let request_id = match probe.request_for_peers(socket, vec![first_peer, second_peer]) {
        ProbeRequestOutcome::Queued(request_id) => request_id,
        outcome => panic!("unexpected probe request outcome: {outcome:?}"),
    };
    let mut attributor = PendingAttributor::new(SECOND, 8);
    attributor.probe = Some(probe);
    for (peer, bytes) in [(first_peer, 40), (second_peer, 60)] {
        attributor.pending.push(PendingAttribution {
            candidates: Vec::new(),
            connection: ConnectionKey {
                local_socket: socket,
                peer_ip: peer.ip,
                peer_port: peer.port,
                direction: Direction::Outbound,
            },
            bytes,
            observed_at,
            pending_since: STARTED,
        });
    }
    attributor.probe_state.insert(
        socket,
        active(request_id, true),
    );

    attributor.apply_probe_result(
        &mut Stats::new(),
        ProbeResult::ConnectionMatches {
            request_id,
            socket,
            matches: vec![ConnectionMatch {
                peer: first_peer,
                process: ProbeProcess {
                    pid: 7,
                    name: Some("curl".to_string()),
                    path: None,
                },
            }],
        },
        STARTED,
    );

    assert_eq!(attributor.pending_bytes(), 60);
    assert_eq!(attributor.pending.len(), 1);
    assert_eq!(
        attributor.pending.first().unwrap().connection.peer_ip,
        second_peer.ip
    );
    assert_eq!(attributor.snapshot().counters.probe_result_unique, 1);
}

#[test]
fn continued_flow_is_pending_then_attributed_after_a_new_proc_table() {
    let local_ip = IpAddr::v4(192, 0, 2, 10);
    let mut proc_table = shared(ProcTable::default());
    let mut stats = Stats::new();
    let mut attributor = PendingAttributor::default();
    let started = STARTED;

    attributor.record_flow(
        &mut stats,
        socket_flow(local_ip, 49_152, 443, 40),
        &mut proc_table,
        clock(started),
        observed_at(),
        &start_times(),
    );
    assert_eq!(snapshot_of(&stats).out_bytes, 40);
    assert!(snapshot_of(&stats).processes.is_empty());
    assert_eq!(attributor.pending_bytes(), 40);

    insert_for_test(
            &mut proc_table.table,
        local_ip,
        49_152,
        TransportProtocol::Tcp,
        7,
        "curl",
        Some("/usr/bin/curl"),
    );
    attributor.record_flow(
        &mut stats,
        socket_flow(local_ip, 49_152, 443, 60),
        &mut proc_table,
        clock(started + 10 * MILLISECOND),
        observed_at() + 10_000_000,
        &start_times(),
    );

    let snapshot = snapshot_of(&stats);
    let process = snapshot
        .processes
        .iter()
        .find(|process| process.pid == 7)
        .unwrap();
    assert_eq!(snapshot.out_bytes, 100);
    assert_eq!(process.sent(), 100);
    assert_eq!(process.flows.len(), 1);
    assert_eq!(process.flows[0].0.remote_port, 443);
    assert_eq!(process.flows[0].1.sent, 100);
    assert_eq!(
        process.last_seen,
        observed_at() + 10_000_000
    );
    assert_eq!(attributor.pending_bytes(), 0);
}

#[test]
fn short_flow_times_out_to_unattributed() {
    let local_ip = IpAddr::v4(192, 0, 2, 10);
    let mut proc_table = shared(ProcTable::default());
    let mut stats = Stats::new();
    let mut attributor = PendingAttributor::default();
    let started = STARTED;

    attributor.record_flow(
        &mut stats,
        socket_flow(local_ip, 49_152, 443, 40),
        &mut proc_table,
        clock(started),
        observed_at(),
        &start_times(),
    );
    attributor.advance(
        &mut stats,
        &mut proc_table,
        clock(started + PENDING_ATTRIBUTION_WINDOW),
        &start_times(),
    );

    let snapshot = snapshot_of(&stats);
    assert_eq!(snapshot.out_bytes, 40);
    assert!(snapshot.processes.is_empty());
    assert_eq!(snapshot.unattributed.sent, 40);
    assert_eq!(attributor.snapshot().counters.pending_expired_bytes, 40);
}

#[test]
fn delayed_attribution_uses_the_original_observation_time_for_last_seen() {
    let local_ip = IpAddr::v4(192, 0, 2, 10);
    let mut proc_table = shared(ProcTable::default());
    let mut stats = Stats::new();
    let mut attributor = PendingAttributor::default();
    let started = STARTED;

    attributor.record_flow(
        &mut stats,
        socket_flow(local_ip, 49_152, 443, 40),
        &mut proc_table,
        clock(started),
        observed_at(),
        &start_times(),
    );
    insert_for_test(
            &mut proc_table.table,
        local_ip,
        49_152,
        TransportProtocol::Tcp,
        7,
        "curl",
        None,
    );
    attributor.advance(
        &mut stats,
        &mut proc_table,
        clock(started + 500 * MILLISECOND),
        &start_times(),
    );

    let snapshot = snapshot_of(&stats);
    assert_eq!(snapshot.processes[0].pid, 7);
    assert_eq!(snapshot.processes[0].last_seen, observed_at());
    assert_eq!(snapshot.processes[0].flows.len(), 1);
    assert_eq!(snapshot.processes[0].flows[0].0.remote_port, 443);
    assert_eq!(snapshot.processes[0].flows[0].1.sent, 40);
}

#[test]
fn ambiguous_same_port_becomes_shared_when_pending_expires() {
    let local_ip = IpAddr::v4(192, 0, 2, 10);
    let mut table = ProcTable::default();
    for (pid, name) in [(7, "server-a"), (8, "server-b")] {
        insert_for_test(
            &mut table,
            local_ip,
            443,
            TransportProtocol::Tcp,
            pid,
            name,
            None,
        );
    }
    let mut proc_table = shared(table);
    let mut stats = Stats::new();
    let mut attributor = PendingAttributor::default();
    let started = STARTED;

    attributor.record_flow(
        &mut stats,
        socket_flow(local_ip, 443, 49_152, 40),
        &mut proc_table,
        clock(started),
        observed_at(),
        &start_times(),
    );
    attributor.advance(
        &mut stats,
        &mut proc_table,
        clock(started + PENDING_ATTRIBUTION_WINDOW),
        &start_times(),
    );

    let snapshot = snapshot_of(&stats);
    // Final ambiguity -> shared attribution: both candidates get the full
    // 40 B (inclusive projection), the record layer counts shared 40 B
    // once, unattributed is 0.
    assert_eq!(snapshot.processes.len(), 2);
    for process in snapshot.processes.iter() {
        assert_eq!(process.shared.sent, 40);
        assert_eq!(process.exclusive.sent, 0);
        assert_eq!(process.sent(), 40);
        assert!(process.is_mixed());
        assert_eq!(process.shared_with.len(), 1);
        assert_eq!(process.flows.len(), 1);
        assert_eq!(process.flows[0].0.local.port, 443);
        assert_eq!(process.flows[0].0.remote_port, 49_152);
        assert_eq!(process.flows[0].1.sent, 40);
    }
    let summary = &snapshot;
    assert_eq!(summary.shared.sent, 40);
    assert_eq!(summary.unattributed.total(), 0);
    assert_eq!(summary.total(), snapshot.in_bytes + snapshot.out_bytes);
}

#[test]
fn vanished_socket_is_recovered_from_history() {
    let local_ip = IpAddr::v4(192, 0, 2, 10);
    let mut table = ProcTable::default();
    // Use the current test process's PID: alive and started before the
    // flow's observation time, so it passes the start-time hard gate.
    insert_for_test(
            &mut table,
        local_ip,
        49_152,
        TransportProtocol::Tcp,
        KNOWN_PID,
        "flowlens-test",
        None,
    );
    let mut proc_table = shared(table);
    let mut stats = Stats::new();
    let mut attributor = PendingAttributor::default();
    let started = STARTED;

    // Populate the interval log from the previous generation, then drop
    // the socket from the current table.
    attributor
        .history
        .update(observed_at(), &proc_table.table.entries);
    proc_table = shared(ProcTable::default());

    attributor.record_flow(
        &mut stats,
        socket_flow(local_ip, 49_152, 443, 40),
        &mut proc_table,
        clock(started),
        observed_at(),
        &start_times(),
    );
    attributor.advance(
        &mut stats,
        &mut proc_table,
        clock(started + PENDING_ATTRIBUTION_WINDOW),
        &start_times(),
    );

    let snapshot = snapshot_of(&stats);
    assert_eq!(snapshot.processes.len(), 1);
    let process = &snapshot.processes[0];
    assert_eq!(process.pid, KNOWN_PID);
    assert_eq!(process.exclusive.sent, 40);
    assert_eq!(process.evidence, vec!["history"]);
    assert_eq!(process.flows.len(), 1);
    assert_eq!(process.flows[0].0.remote_port, 443);
    assert_eq!(process.flows[0].1.sent, 40);
    assert_eq!(snapshot.unattributed.total(), 0);
    assert_eq!(
        snapshot.total(),
        snapshot.in_bytes + snapshot.out_bytes
    );
}

#[test]
fn history_candidate_with_unverifiable_pid_is_refused() {
    let local_ip = IpAddr::v4(192, 0, 2, 10);
    let mut table = ProcTable::default();
    insert_for_test(
            &mut table,
        local_ip,
        49_152,
        TransportProtocol::Tcp,
        u32::MAX,
        "ghost",
        None,
    );
    let mut proc_table = shared(table);
    let mut stats = Stats::new();
    let mut attributor = PendingAttributor::default();
    let started = STARTED;

    attributor
        .history
        .update(observed_at(), &proc_table.table.entries);
    proc_table = shared(ProcTable::default());

    attributor.record_flow(
        &mut stats,
        socket_flow(local_ip, 49_152, 443, 40),
        &mut proc_table,
        clock(started),
        observed_at(),
        &start_times(),
    );
    attributor.advance(
        &mut stats,
        &mut proc_table,
        clock(started + PENDING_ATTRIBUTION_WINDOW),
        &start_times(),
    );

    let snapshot = snapshot_of(&stats);
    assert!(snapshot.processes.is_empty());
    assert_eq!(snapshot.unattributed.sent, 40);
}

#[test]
fn conservation_identity_holds_across_all_channels() {
    let local_ip = IpAddr::v4(192, 0, 2, 10);
    let mut table = ProcTable::default();
    insert_for_test(
            &mut table,
        local_ip,
        8443,
        TransportProtocol::Tcp,
        7,
        "solo",
        None,
    );
    for (pid, name) in [(9, "alpha"), (10, "beta")] {
        insert_for_test(
            &mut table,
            local_ip,
            9443,
            TransportProtocol::Tcp,
            pid,
            name,
            None,
        );
    }
    let mut proc_table = shared(table);
    let mut stats = Stats::new();
    let mut attributor = PendingAttributor::default();
    let started = STARTED;

    // Exclusive: unique hit.
    attributor.record_flow(
        &mut stats,
        socket_flow(local_ip, 8443, 5001, 100),
        &mut proc_table,
        clock(started),
        observed_at(),
        &start_times(),
    );
    // Shared: ambiguous candidates, shared attribution after the window expires.
    attributor.record_flow(
        &mut stats,
        socket_flow(local_ip, 9443, 5002, 40),
        &mut proc_table,
        clock(started),
        observed_at(),
        &start_times(),
    );
    // System: no local socket (ICMP-like).
    attributor.record_flow(
        &mut stats,
        Flow {
            direction: Direction::Outbound,
            peer: IpAddr::v4(198, 51, 100, 9),
            peer_port: None,
            bytes: 10,
            local_socket: None,
            peer_local_socket: None,
            domain: None,
        },
        &mut proc_table,
        clock(started),
        observed_at(),
        &start_times(),
    );
    // Unattributed: no candidates and timed out.
    attributor.record_flow(
        &mut stats,
        socket_flow(local_ip, 10443, 5003, 5),
        &mut proc_table,
        clock(started),
        observed_at(),
        &start_times(),
    );
    attributor.advance(
        &mut stats,
        &mut proc_table,
        clock(started + PENDING_ATTRIBUTION_WINDOW),
        &start_times(),
    );

    let snapshot = snapshot_of(&stats);
    let summary = &snapshot;
    assert_eq!(summary.exclusive.sent, 100);
    assert_eq!(summary.shared.sent, 40);
    assert_eq!(summary.system.sent, 10);
    assert_eq!(summary.unattributed.sent, 5);
    // Conservation: the four-channel record-layer total == interface bytes (no loopback double endpoint).
    assert_eq!(summary.total(), 155);
    assert_eq!(summary.total(), snapshot.in_bytes + snapshot.out_bytes);
    // Shared-byte projection: both candidates get +40 each, but the record layer counts 40 once.
    let shared_procs: Vec<&Row> = snapshot
        .processes
        .iter()
        .filter(|process| process.is_mixed())
        .collect();
    assert_eq!(shared_procs.len(), 2);
    assert!(
        shared_procs
            .iter()
            .all(|process| process.shared.sent == 40)
    );
}

#[test]
fn failed_refresh_and_stale_proc_table_do_not_falsely_attribute_pending_traffic() {
    let local_ip = IpAddr::v4(192, 0, 2, 10);
    let mut table = ProcTable::default();
    insert_for_test(
            &mut table,
        local_ip,
        49_152,
        TransportProtocol::Tcp,
        7,
        "curl",
        None,
    );
    table.max_age = 0;
    table.refreshed_at = Some(STARTED - 1);
    let _ = table.refresh_at(Err("listeners unavailable".to_string()), STARTED, SECOND);
    let mut proc_table = shared(table);
    let mut stats = Stats::new();
    let mut attributor = PendingAttributor::default();
    let started = STARTED;

    attributor.record_flow(
        &mut stats,
        socket_flow(local_ip, 49_152, 443, 40),
        &mut proc_table,
        clock(started),
        observed_at(),
        &start_times(),
    );
    attributor.advance(
        &mut stats,
        &mut proc_table,
        clock(started + PENDING_ATTRIBUTION_WINDOW),
        &start_times(),
    );

    let snapshot = snapshot_of(&stats);
    assert!(snapshot.processes.is_empty());
    assert_eq!(snapshot.unattributed.sent, 40);
}

#[test]
fn pending_capacity_overflow_finalizes_oldest_traffic_without_losing_totals() {
    let local_ip = IpAddr::v4(192, 0, 2, 10);
    let mut proc_table = shared(ProcTable::default());
    let mut stats = Stats::new();
    let mut attributor = PendingAttributor::new(SECOND, 1);
    let started = STARTED;

    attributor.record_flow(
        &mut stats,
        socket_flow(local_ip, 49_152, 443, 40),
        &mut proc_table,
        clock(started),
        observed_at(),
        &start_times(),
    );
    attributor.record_flow(
        &mut stats,
        socket_flow(local_ip, 49_153, 443, 60),
        &mut proc_table,
        clock(started + 1 * MILLISECOND),
        observed_at() + 1_000_000,
        &start_times(),
    );

    let snapshot = snapshot_of(&stats);
    assert_eq!(snapshot.out_bytes, 100);
    assert_eq!(snapshot.unattributed.sent, 40);
    assert_eq!(attributor.pending_bytes(), 60);
    assert_eq!(attributor.snapshot().counters.pending_capacity_bytes, 40);
    attributor.advance(
        &mut stats,
        &mut proc_table,
        clock(started + SECOND + 1 * MILLISECOND),
        &start_times(),
    );
    assert_eq!(snapshot_of(&stats).unattributed.sent, 100);
}

#[test]
fn same_connection_merges_pending_records_without_consuming_capacity() {
    let local_ip = IpAddr::v4(192, 0, 2, 10);
    let mut proc_table = shared(ProcTable::default());
    let mut stats = Stats::new();
    let mut attributor = PendingAttributor::new(SECOND, 1);
    let started = STARTED;

    attributor.record_flow(
        &mut stats,
        socket_flow(local_ip, 49_152, 443, 40),
        &mut proc_table,
        clock(started),
        observed_at(),
        &start_times(),
    );
    attributor.record_flow(
        &mut stats,
        socket_flow(local_ip, 49_152, 443, 60),
        &mut proc_table,
        clock(started + 1 * MILLISECOND),
        observed_at() + 1_000_000,
        &start_times(),
    );

    let snapshot = snapshot_of(&stats);
    assert_eq!(snapshot.out_bytes, 100);
    assert!(snapshot.processes.is_empty());
    assert_eq!(attributor.pending_bytes(), 100);
}

#[test]
fn reused_local_port_with_a_different_peer_port_keeps_distinct_pending_records() {
    let local_ip = IpAddr::v4(192, 0, 2, 10);
    let mut proc_table = shared(ProcTable::default());
    let mut stats = Stats::new();
    let mut attributor = PendingAttributor::new(SECOND, 1);
    let started = STARTED;

    attributor.record_flow(
        &mut stats,
        socket_flow(local_ip, 49_152, 443, 40),
        &mut proc_table,
        clock(started),
        observed_at(),
        &start_times(),
    );
    attributor.record_flow(
        &mut stats,
        socket_flow(local_ip, 49_152, 444, 60),
        &mut proc_table,
        clock(started + 1 * MILLISECOND),
        observed_at() + 1_000_000,
        &start_times(),
    );

    let snapshot = snapshot_of(&stats);
    assert_eq!(snapshot.out_bytes, 100);
    assert!(snapshot.processes.is_empty());
    assert_eq!(snapshot.unattributed.sent, 40);
    assert_eq!(attributor.pending_bytes(), 60);
}

#[test]
fn exclusive_tcp_flow_appears_on_the_process_connection_table() {
    let local_ip = IpAddr::v4(192, 0, 2, 10);
    let mut table = ProcTable::default();
    insert_for_test(
            &mut table,
        local_ip,
        49_152,
        TransportProtocol::Tcp,
        7,
        "curl",
        Some("/usr/bin/curl"),
    );
    let mut proc_table = shared(table);
    let mut stats = Stats::new();
    let mut attributor = PendingAttributor::default();

    attributor.record_flow(
        &mut stats,
        socket_flow(local_ip, 49_152, 443, 40),
        &mut proc_table,
        clock(STARTED),
        observed_at(),
        &start_times(),
    );

    let snapshot = snapshot_of(&stats);
    let process = &snapshot.processes[0];
    assert_eq!(process.flows.len(), 1);
    let flow = &process.flows[0];
    assert_eq!(flow.0.local.ip, local_ip);
    assert_eq!(flow.0.local.port, 49_152);
    assert_eq!(flow.0.remote_ip, IpAddr::v4(198, 51, 100, 5));
    assert_eq!(flow.0.remote_port, 443);
    assert_eq!(flow.0.local.protocol, TransportProtocol::Tcp);
    assert_eq!((flow.1.recv, flow.1.sent), (0, 40));
}

#[test]
fn exclusive_same_five_tuple_accumulates_on_the_connection_table() {
    let local_ip = IpAddr::v4(192, 0, 2, 10);
    let mut table = ProcTable::default();
    insert_for_test(
            &mut table,
        local_ip,
        49_152,
        TransportProtocol::Tcp,
        7,
        "curl",
        None,
    );
    let mut proc_table = shared(table);
    let mut stats = Stats::new();
    let mut attributor = PendingAttributor::default();
    let started = STARTED;

    attributor.record_flow(
        &mut stats,
        socket_flow(local_ip, 49_152, 443, 40),
        &mut proc_table,
        clock(started),
        observed_at(),
        &start_times(),
    );
    attributor.record_flow(
        &mut stats,
        socket_flow(local_ip, 49_152, 443, 60),
        &mut proc_table,
        clock(started),
        observed_at(),
        &start_times(),
    );

    let snapshot = snapshot_of(&stats);
    let flows = &snapshot.processes[0].flows;
    assert_eq!(flows.len(), 1);
    assert_eq!((flows[0].1.recv, flows[0].1.sent), (0, 100));
}

#[test]
fn exclusive_different_five_tuples_are_separate_connection_rows() {
    let local_ip = IpAddr::v4(192, 0, 2, 10);
    let mut table = ProcTable::default();
    insert_for_test(
            &mut table,
        local_ip,
        49_152,
        TransportProtocol::Tcp,
        7,
        "curl",
        None,
    );
    let mut proc_table = shared(table);
    let mut stats = Stats::new();
    let mut attributor = PendingAttributor::default();
    let started = STARTED;

    attributor.record_flow(
        &mut stats,
        socket_flow(local_ip, 49_152, 443, 40),
        &mut proc_table,
        clock(started),
        observed_at(),
        &start_times(),
    );
    attributor.record_flow(
        &mut stats,
        socket_flow(local_ip, 49_152, 80, 25),
        &mut proc_table,
        clock(started),
        observed_at(),
        &start_times(),
    );

    let mut ports = snapshot_of(&stats).processes[0]
        .flows
        .iter()
        .map(|flow| flow.0.remote_port)
        .collect::<Vec<_>>();
    ports.sort_unstable();
    assert_eq!(ports, vec![80, 443]);
}

#[test]
fn traffic_without_a_local_socket_does_not_create_connection_rows() {
    let mut proc_table = shared(ProcTable::default());
    let mut stats = Stats::new();
    let mut attributor = PendingAttributor::default();
    attributor.record_flow(
        &mut stats,
        Flow {
            direction: Direction::Outbound,
            peer: IpAddr::v4(198, 51, 100, 9),
            peer_port: None,
            bytes: 10,
            local_socket: None,
            peer_local_socket: None,
            domain: None,
        },
        &mut proc_table,
        clock(STARTED),
        observed_at(),
        &start_times(),
    );
    let snapshot = snapshot_of(&stats);
    assert!(snapshot.processes.is_empty());
    assert_eq!(snapshot.system.sent, 10);
}

#[test]
fn traffic_without_a_peer_port_does_not_create_connection_rows() {
    let local_ip = IpAddr::v4(192, 0, 2, 10);
    let mut table = ProcTable::default();
    insert_for_test(
            &mut table,
        local_ip,
        49_152,
        TransportProtocol::Tcp,
        7,
        "curl",
        None,
    );
    let mut proc_table = shared(table);
    let mut stats = Stats::new();
    let mut attributor = PendingAttributor::default();
    attributor.record_flow(
        &mut stats,
        Flow {
            direction: Direction::Outbound,
            peer: IpAddr::v4(198, 51, 100, 5),
            peer_port: None,
            bytes: 10,
            local_socket: Some(LocalSocket {
                ip: local_ip,
                port: 49_152,
                protocol: TransportProtocol::Tcp,
            }),
            peer_local_socket: None,
            domain: None,
        },
        &mut proc_table,
        clock(STARTED),
        observed_at(),
        &start_times(),
    );
    let snapshot = snapshot_of(&stats);
    assert!(snapshot.processes.is_empty());
    assert_eq!(snapshot.unattributed.sent, 10);
}

#[test]
fn probe_unique_settlement_records_the_pending_connection() {
    let local_ip = IpAddr::v4(192, 0, 2, 10);
    let socket = LocalSocket {
        ip: local_ip,
        port: 49_152,
        protocol: TransportProtocol::Tcp,
    };
    let mut probe = ProcessProbe::new();
    let request_id = match probe.request(socket) {
        ProbeRequestOutcome::Queued(request_id) => request_id,
        outcome => panic!("unexpected probe request outcome: {outcome:?}"),
    };
    let mut attributor = PendingAttributor::new(SECOND, 8);
    attributor.probe = Some(probe);
    attributor.pending.push(PendingAttribution {
        candidates: Vec::new(),
        connection: ConnectionKey {
            local_socket: socket,
            peer_ip: IpAddr::v4(198, 51, 100, 5),
            peer_port: 443,
            direction: Direction::Outbound,
        },
        bytes: 40,
        observed_at: observed_at(),
        pending_since: STARTED,
    });
    attributor.probe_state.insert(
        socket,
        active(request_id, true),
    );
    let mut stats = Stats::new();
    attributor.apply_probe_result(
        &mut stats,
        ProbeResult::Unique {
            request_id,
            socket,
            process: ProbeProcess {
                pid: 7,
                name: Some("curl".to_string()),
                path: None,
            },
        },
        STARTED,
    );
    let snapshot = snapshot_of(&stats);
    let process = &snapshot.processes[0];
    assert_eq!(process.pid, 7);
    assert_eq!(process.flows.len(), 1);
    assert_eq!(process.flows[0].0.remote_port, 443);
    assert_eq!(process.flows[0].1.sent, 40);
}

#[test]
fn probe_connection_matches_records_only_the_matched_pending_connection() {
    let local = IpAddr::v4(192, 0, 2, 10);
    let first_peer = address(IpAddr::v4(198, 51, 100, 5), 443);
    let second_peer = address(IpAddr::v4(198, 51, 100, 6), 443);
    let socket = LocalSocket {
        ip: local,
        port: 49_152,
        protocol: TransportProtocol::Tcp,
    };
    let mut probe = ProcessProbe::new();
    let request_id = match probe.request_for_peers(socket, vec![first_peer, second_peer]) {
        ProbeRequestOutcome::Queued(request_id) => request_id,
        outcome => panic!("unexpected probe request outcome: {outcome:?}"),
    };
    let mut attributor = PendingAttributor::new(SECOND, 8);
    attributor.probe = Some(probe);
    for (peer, bytes) in [(first_peer, 40), (second_peer, 60)] {
        attributor.pending.push(PendingAttribution {
            candidates: Vec::new(),
            connection: ConnectionKey {
                local_socket: socket,
                peer_ip: peer.ip,
                peer_port: peer.port,
                direction: Direction::Outbound,
            },
            bytes,
            observed_at: observed_at(),
            pending_since: STARTED,
        });
    }
    attributor.probe_state.insert(
        socket,
        active(request_id, true),
    );
    let mut stats = Stats::new();
    attributor.apply_probe_result(
        &mut stats,
        ProbeResult::ConnectionMatches {
            request_id,
            socket,
            matches: vec![ConnectionMatch {
                peer: first_peer,
                process: ProbeProcess {
                    pid: 7,
                    name: Some("curl".to_string()),
                    path: None,
                },
            }],
        },
        STARTED,
    );
    let snapshot = snapshot_of(&stats);
    let process = &snapshot.processes[0];
    assert_eq!(process.flows.len(), 1);
    assert_eq!(process.flows[0].0.remote_ip, first_peer.ip);
    assert_eq!(process.flows[0].1.sent, 40);
    assert_eq!(attributor.pending.len(), 1);
}

#[test]
fn zero_pending_capacity_does_not_record_connection_rows() {
    let local_ip = IpAddr::v4(192, 0, 2, 10);
    let mut proc_table = shared(ProcTable::default());
    let mut stats = Stats::new();
    let mut attributor = PendingAttributor::new(SECOND, 0);
    attributor.record_flow(
        &mut stats,
        socket_flow(local_ip, 49_152, 443, 40),
        &mut proc_table,
        clock(STARTED),
        observed_at(),
        &start_times(),
    );
    let snapshot = snapshot_of(&stats);
    assert!(snapshot.processes.is_empty());
    assert_eq!(snapshot.unattributed.sent, 40);
}

#[test]
fn both_local_endpoints_record_swapped_connection_rows() {
    let left_ip = IpAddr::v4(192, 0, 2, 10);
    let right_ip = IpAddr::v4(192, 0, 2, 11);
    let mut table = ProcTable::default();
    insert_for_test(
            &mut table,
        left_ip,
        49_152,
        TransportProtocol::Tcp,
        7,
        "left",
        None,
    );
    insert_for_test(
            &mut table,
        right_ip,
        80,
        TransportProtocol::Tcp,
        8,
        "right",
        None,
    );
    let mut proc_table = shared(table);
    let mut stats = Stats::new();
    let mut attributor = PendingAttributor::default();
    attributor.record_flow(
        &mut stats,
        Flow {
            direction: Direction::Outbound,
            peer: right_ip,
            peer_port: Some(80),
            bytes: 40,
            local_socket: Some(LocalSocket {
                ip: left_ip,
                port: 49_152,
                protocol: TransportProtocol::Tcp,
            }),
            peer_local_socket: Some(LocalSocket {
                ip: right_ip,
                port: 80,
                protocol: TransportProtocol::Tcp,
            }),
            domain: None,
        },
        &mut proc_table,
        clock(STARTED),
        observed_at(),
        &start_times(),
    );
    let snapshot = snapshot_of(&stats);
    let left = snapshot
        .processes
        .iter()
        .find(|process| process.pid == 7)
        .unwrap();
    let right = snapshot
        .processes
        .iter()
        .find(|process| process.pid == 8)
        .unwrap();
    assert_eq!(left.flows.len(), 1);
    assert_eq!(left.flows[0].0.local.ip, left_ip);
    assert_eq!(left.flows[0].0.remote_ip, right_ip);
    assert_eq!((left.flows[0].1.recv, left.flows[0].1.sent), (0, 40));
    assert_eq!(right.flows.len(), 1);
    assert_eq!(right.flows[0].0.local.ip, right_ip);
    assert_eq!(right.flows[0].0.remote_ip, left_ip);
    assert_eq!((right.flows[0].1.recv, right.flows[0].1.sent), (40, 0));
}

/// Serves the waiting requests with one answer each.
fn answer_requests(attributor: &mut PendingAttributor, answer: fn(ProbeRequestId, LocalSocket) -> ProbeResult) -> usize {
    let probe = attributor.probe.as_mut().expect("probe exists");
    let requests = probe.take_requests();
    let count = requests.len();
    let results = requests.iter().map(|request| answer(request.id, request.socket)).collect();
    probe.deliver(results);
    count
}

fn not_found(request_id: ProbeRequestId, socket: LocalSocket) -> ProbeResult {
    ProbeResult::NotFound { request_id, socket }
}

fn owned_by_curl(request_id: ProbeRequestId, socket: LocalSocket) -> ProbeResult {
    ProbeResult::Unique {
        request_id,
        socket,
        process: ProbeProcess {
            pid: 7,
            name: Some("curl".to_string()),
            path: None,
        },
    }
}

#[test]
fn pending_traffic_is_probed_and_the_answer_charges_it() {
    let local_ip = IpAddr::v4(192, 0, 2, 10);
    let mut proc_table = shared(ProcTable::default());
    let mut stats = Stats::new();
    let mut attributor = PendingAttributor::with_probe(2 * SECOND, 8, ProcessProbe::new());
    attributor.record_flow(
        &mut stats,
        socket_flow(local_ip, 49_152, 443, 40),
        &mut proc_table,
        clock(STARTED),
        observed_at(),
        &start_times(),
    );
    assert_eq!(answer_requests(&mut attributor, owned_by_curl), 1);
    attributor.advance(
        &mut stats,
        &mut proc_table,
        clock(STARTED + MILLISECOND),
        &start_times(),
    );
    let snapshot = snapshot_of(&stats);
    assert_eq!(snapshot.processes.len(), 1);
    assert_eq!(snapshot.processes[0].pid, 7);
    assert_eq!(snapshot.processes[0].exclusive.sent, 40);
    assert_eq!(snapshot.processes[0].evidence, vec!["probe"]);
    assert_eq!(attributor.pending_bytes(), 0);
    assert_eq!(attributor.counters.probe_unique_pending_bytes, 40);
}

#[test]
fn a_socket_is_probed_only_so_often() {
    let local_ip = IpAddr::v4(192, 0, 2, 10);
    let mut proc_table = shared(ProcTable::default());
    let mut stats = Stats::new();
    let mut attributor = PendingAttributor::with_probe(60 * SECOND, 8, ProcessProbe::new());
    let mut requests = 0;
    let mut now = STARTED;
    for _ in 0..20 {
        attributor.record_flow(
            &mut stats,
            socket_flow(local_ip, 49_152, 443, 1),
            &mut proc_table,
            clock(now),
            observed_at(),
            &start_times(),
        );
        requests += answer_requests(&mut attributor, not_found);
        now += PENDING_ATTRIBUTION_PROBE_RETRY_INTERVAL;
    }
    // Both the request and an answer that finds nobody count as attempts.
    assert_eq!(requests, 2);
    let socket = socket_flow(local_ip, 49_152, 443, 1).local_socket.unwrap();
    let state = attributor.probe_state.get(socket).expect("the socket was probed");
    assert!(state.exhausted);
    assert!(state.attempts >= PENDING_ATTRIBUTION_MAX_PROBE_ATTEMPTS);
    assert_eq!(attributor.pending_bytes(), 20);
}

#[test]
fn poisoned_table_charges_nobody() {
    let local_ip = IpAddr::v4(192, 0, 2, 10);
    let mut table = ProcTable::default();
    insert_for_test(&mut table, local_ip, 49_152, TransportProtocol::Tcp, 7, "curl", None);
    let mut proc_table = SharedProcTable {
        table,
        poisoned: true,
    };
    let mut stats = Stats::new();
    let mut attributor = PendingAttributor::new(SECOND, 8);
    attributor.record_flow(
        &mut stats,
        socket_flow(local_ip, 49_152, 443, 40),
        &mut proc_table,
        clock(STARTED),
        observed_at(),
        &start_times(),
    );
    assert!(snapshot_of(&stats).processes.is_empty());
    assert_eq!(attributor.pending_bytes(), 40);
}

#[test]
fn a_tick_without_a_flow_settles_what_has_waited() {
    let local_ip = IpAddr::v4(192, 0, 2, 10);
    let mut proc_table = shared(ProcTable::default());
    let mut stats = Stats::new();
    let mut attributor = PendingAttributor::default();
    assert!(attributor.can_take(&Some(socket_flow(local_ip, 49_152, 443, 40))));
    attributor.process_next(
        &mut stats,
        Some(socket_flow(local_ip, 49_152, 443, 40)),
        &mut proc_table,
        clock(STARTED),
        observed_at(),
        &start_times(),
    );
    assert!(attributor.has_pending(socket_flow(local_ip, 49_152, 443, 40).local_socket.unwrap()));
    attributor.process_next(
        &mut stats,
        None,
        &mut proc_table,
        clock(STARTED + PENDING_ATTRIBUTION_WINDOW),
        observed_at(),
        &start_times(),
    );
    assert_eq!(snapshot_of(&stats).unattributed.sent, 40);
    assert_eq!(attributor.snapshot().records, 0);
    assert!(attributor.can_take(&None));
}

#[test]
fn start_times_are_wanted_for_logged_processes() {
    let local_ip = IpAddr::v4(192, 0, 2, 10);
    let mut table = ProcTable::default();
    insert_for_test(&mut table, local_ip, 80, TransportProtocol::Tcp, 7, "a", None);
    insert_for_test(&mut table, local_ip, 81, TransportProtocol::Tcp, 8, "b", None);
    let mut proc_table = shared(table);
    let mut attributor = PendingAttributor::default();
    assert!(attributor.logged_pids().is_empty());
    attributor.advance(&mut Stats::new(), &mut proc_table, clock(STARTED), &start_times());
    let mut pids = attributor.logged_pids();
    pids.sort_unstable();
    assert_eq!(pids, vec![7, 8]);
}

#[test]
fn room_is_left_for_what_each_count_can_grow_by() {
    let local_ip = IpAddr::v4(192, 0, 2, 10);
    let mut attributor = PendingAttributor::with_probe(SECOND, 8, ProcessProbe::new());
    let most = Some(socket_flow(local_ip, 49_152, 443, u64::MAX));
    assert!(attributor.can_take(&most));
    let mut both_local = socket_flow(local_ip, 49_152, 443, u64::MAX);
    both_local.peer_local_socket = both_local.local_socket;
    assert!(!attributor.can_take(&Some(both_local)));

    let mut proc_table = shared(ProcTable::default());
    attributor.record_flow(
        &mut Stats::new(),
        socket_flow(local_ip, 49_152, 443, 40),
        &mut proc_table,
        clock(STARTED),
        observed_at(),
        &start_times(),
    );
    assert!(!attributor.can_take(&most));
    assert!(attributor.can_take(&Some(socket_flow(local_ip, 49_153, 443, u64::MAX - 40))));
    attributor.counters.pending_expired_bytes = u64::MAX - 40;
    assert!(attributor.can_take(&None));
    attributor.counters.pending_expired_bytes = u64::MAX - 39;
    assert!(!attributor.can_take(&None));
    attributor.counters.pending_expired_bytes = 0;

    answer_requests(&mut attributor, not_found);
    attributor.counters.probe_not_found_pending_bytes = u64::MAX - 40;
    attributor.counters.probe_unavailable_pending_bytes = u64::MAX;
    assert!(attributor.can_take(&None));
    attributor.counters.probe_not_found_pending_bytes = u64::MAX - 39;
    assert!(!attributor.can_take(&None));
}

#[test]
fn interface_totals_are_what_is_charged_or_waits() {
    let local_ip = IpAddr::v4(192, 0, 2, 10);
    let mut table = ProcTable::default();
    insert_for_test(&mut table, local_ip, 80, TransportProtocol::Tcp, 7, "a", None);
    let mut proc_table = shared(table);
    let mut stats = Stats::new();
    let mut attributor = PendingAttributor::default();
    let mut inbound = socket_flow(local_ip, 80, 443, 5);
    inbound.direction = Direction::Inbound;
    let mut between = socket_flow(local_ip, 80, 81, 7);
    between.peer = local_ip;
    between.peer_local_socket = Some(LocalSocket {
        ip: local_ip,
        port: 81,
        protocol: TransportProtocol::Tcp,
    });
    for flow in [socket_flow(local_ip, 49_152, 443, 40), inbound, between] {
        attributor.process_next(
            &mut stats,
            Some(flow),
            &mut proc_table,
            clock(STARTED),
            observed_at(),
            &start_times(),
        );
        let snapshot = snapshot_of(&stats);
        assert_eq!(
            snapshot.in_bytes + snapshot.out_bytes,
            snapshot.total() + attributor.snapshot().bytes
        );
    }
    let snapshot = snapshot_of(&stats);
    assert_eq!((snapshot.in_bytes, snapshot.out_bytes), (12, 47));
    assert_eq!(attributor.pending_bytes(), 47);
}

#[test]
fn queued_traffic_merges_or_makes_room() {
    let item = |port: u16, bytes: u64, at: i128, since: u128| PendingAttribution {
        connection: ConnectionKey {
            local_socket: LocalSocket {
                ip: IpAddr::v4(192, 0, 2, 10),
                port,
                protocol: TransportProtocol::Tcp,
            },
            peer_ip: IpAddr::v4(198, 51, 100, 5),
            peer_port: 443,
            direction: Direction::Outbound,
        },
        bytes,
        observed_at: at,
        candidates: Vec::new(),
        pending_since: since,
    };
    let mut stats = Stats::new();
    let mut nothing_waits = PendingAttributor::new(SECOND, 0);
    assert!(!nothing_waits.push_pending(&mut stats, item(1, 10, 5, 6), &start_times()));
    assert_eq!(snapshot_of(&stats).unattributed.sent, 10);
    assert_eq!(nothing_waits.counters.pending_capacity_bytes, 10);

    let mut stats = Stats::new();
    let mut attributor = PendingAttributor::new(SECOND, 2);
    assert!(attributor.push_pending(&mut stats, item(1, 10, 5, 6), &start_times()));
    assert!(attributor.push_pending(&mut stats, item(2, 20, 5, 6), &start_times()));
    assert!(attributor.push_pending(&mut stats, item(1, 1, 8, 9), &start_times()));
    assert_eq!(attributor.pending.len(), 2);
    assert_eq!(attributor.pending[0], item(1, 11, 8, 6));
    assert_eq!(snapshot_of(&stats).total(), 0);
    assert!(attributor.push_pending(&mut stats, item(3, 30, 8, 9), &start_times()));
    assert_eq!(attributor.pending, vec![item(2, 20, 5, 6), item(3, 30, 8, 9)]);
    assert_eq!(snapshot_of(&stats).unattributed.sent, 11);
    assert_eq!(attributor.counters.pending_capacity_bytes, 11);
}

#[test]
fn details_of_a_process_add_up() {
    let process = |pid: u32, name: &str| ObservedProcess {
        pid,
        name: Some(name.to_string()),
        path: None,
    };
    let flow = |port: u16| ProcFlowKey {
        local: LocalSocket {
            ip: IpAddr::v4(192, 0, 2, 10),
            port: 80,
            protocol: TransportProtocol::Tcp,
        },
        remote_ip: IpAddr::v4(198, 51, 100, 5),
        remote_port: port,
    };
    let mut details = ProcessDetails::new();
    assert!(details.get(&process(7, "a")).is_none());
    details.add_entries(&vec![
        StatsEntry::Exclusive {
            process: process(7, "a"),
            direction: Direction::Outbound,
            bytes: 10,
            observed_at: 3,
            evidence: Evidence::Snapshot,
            flow: flow(1),
        },
        StatsEntry::Shared {
            candidates: vec![process(7, "a"), process(8, "b"), process(9, "c")],
            direction: Direction::Inbound,
            bytes: 20,
            observed_at: 5,
            flow: flow(2),
        },
        StatsEntry::Exclusive {
            process: process(7, "a"),
            direction: Direction::Inbound,
            bytes: 4,
            observed_at: 2,
            evidence: Evidence::History,
            flow: flow(1),
        },
        StatsEntry::Shared {
            candidates: vec![process(8, "b"), process(7, "a")],
            direction: Direction::Inbound,
            bytes: 1,
            observed_at: 4,
            flow: flow(2),
        },
        StatsEntry::System { direction: Direction::Inbound, bytes: 99, observed_at: 9 },
        StatsEntry::Unattributed { direction: Direction::Inbound, bytes: 99, observed_at: 9 },
    ]);
    assert_eq!(details.processes.len(), 3);
    let first = details.get(&process(7, "a")).unwrap();
    assert_eq!(first.exclusive, Channel { inbound: 4, outbound: 10 });
    assert_eq!(first.shared, Channel { inbound: 21, outbound: 0 });
    assert_eq!(first.shared_with, vec![8, 9]);
    assert_eq!(first.evidence, EvidenceSet { snapshot: true, probe: false, history: true });
    assert_eq!(first.evidence.labels(), ["snapshot", "history"]);
    assert_eq!(first.tally(), Tally { inbound: 25, outbound: 10, last_seen: 5 });
    let flows = first.top_flows(10);
    assert_eq!(flows.len(), 2);
    assert_eq!(flows[0].key, flow(2));
    assert_eq!(flows[0].tally, Tally { inbound: 21, outbound: 0, last_seen: 5 });
    assert_eq!(flows[1].tally, Tally { inbound: 4, outbound: 10, last_seen: 3 });
    assert_eq!(first.top_flows(1).len(), 1);
    assert!(first.is_mixed());
    let third = details.get(&process(9, "c")).unwrap();
    assert_eq!(third.shared_with, vec![7, 8]);
    assert!(details.get(&process(9, "other")).is_none());
}
