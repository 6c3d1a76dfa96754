//! The workers between a capture and those who watch it.

use flowlens::attribution::{Clock, PendingAttributor, SharedProcTable, PENDING_ATTRIBUTION_WINDOW};
use flowlens::capture::Flow;
use flowlens::diagnostics::{DiagnosticsInputs, StatsDiagnostics};
use flowlens::history::StartTimes;
use flowlens::net::{Direction, IpAddr, LocalSocket, TransportProtocol};
use flowlens::pipeline::{
    kept_failure, latest_snapshot, observe_early_capture_failure, poll_capture_readiness,
    snapshot_for_publish, AfterHandOn, AfterRead, AfterWait, AggregateNext, AggregateWorker,
    Awaited, CaptureReadiness, CaptureWorker, ChannelEnd, FirstRead, HandedOn, PipelineError,
    Published, ReportSchedule, STOP_CHECK_INTERVAL,
};
use flowlens::proc_table::{ProcEntry, ProcInfo, ProcTable};
use flowlens::stats::Stats;
use flowlens::traffic::{Row, ProcessIdentity, TrafficSnapshot, TrafficTotals};
use std::collections::VecDeque;

const MILLISECOND: u128 = 1_000_000;
const SECOND: u128 = 1_000 * MILLISECOND;
const STARTED: u128 = 1_000 * SECOND;

/// 2026-07-15T08:00:00Z, in nanoseconds since 1970.
const WALL: i128 = 1_784_102_400_000_000_000;

fn flow(bytes: u64) -> Flow {
    Flow {
        direction: Direction::Inbound,
        peer: IpAddr::v4(127, 0, 0, 1),
        peer_port: None,
        bytes,
        local_socket: None,
        peer_local_socket: None,
        domain: None,
    }
}

fn tcp(ip: IpAddr, port: u16) -> LocalSocket {
    LocalSocket {
        ip,
        port,
        protocol: TransportProtocol::Tcp,
    }
}

fn insert_for_test(table: &mut ProcTable, socket: LocalSocket, pid: u32, name: &str, path: &str) {
    table.refreshed_at = Some(STARTED);
    table.generation = table.generation.wrapping_add(1);
    table.max_age = u128::MAX;
    table.record_count += 1;
    table.entries.push(ProcEntry {
        socket,
        info: ProcInfo {
            pid,
            name: Some(name.to_string()),
            path: Some(path.to_string()),
        },
    });
}

/// A channel of snapshots that holds so many.
struct Channel {
    queued: VecDeque<TrafficSnapshot>,
    capacity: usize,
    open: bool,
}

impl Channel {
    fn new(capacity: usize) -> Channel {
        Channel {
            queued: VecDeque::new(),
            capacity,
            open: true,
        }
    }

    fn try_send(&mut self, snapshot: TrafficSnapshot) -> Published {
        if !self.open {
            Published::Closed
        } else if self.queued.len() == self.capacity {
            Published::Full
        } else {
            self.queued.push_back(snapshot);
            Published::Taken
        }
    }
}

/// The second worker with a clock of its own.
struct Aggregate {
    worker: AggregateWorker,
    attributor: PendingAttributor,
    stats: Stats,
    totals: TrafficTotals,
    proc_table: SharedProcTable,
    now: u128,
    published_at: u128,
    failure: Option<PipelineError>,
}

impl Aggregate {
    fn new(table: ProcTable, interval: u128) -> Aggregate {
        Aggregate {
            worker: AggregateWorker::new(STARTED, interval),
            attributor: PendingAttributor::default(),
            stats: Stats::new(),
            totals: TrafficTotals::new(),
            proc_table: SharedProcTable {
                table,
                poisoned: false,
            },
            now: STARTED,
            published_at: STARTED,
            failure: None,
        }
    }

    fn clock(&self) -> Clock {
        Clock {
            now: self.now,
            read_at: self.now,
            wall: WALL,
        }
    }

    fn snapshot(&mut self) -> TrafficSnapshot {
        self.totals.add_entries(&self.stats.take_entries());
        let pending = self.attributor.pending_bytes();
        self.published_at = self.now;
        snapshot_for_publish(&self.totals, &mut self.proc_table, 10, pending, self.now, None).snapshot
    }

    /// One round; `flow` is there when the worker waits for one. Whether to go on.
    fn round(&mut self, channel: &mut Channel, flow: &mut Option<Flow>) -> bool {
        let started = StartTimes { known: Vec::new() };
        let clock = self.clock();
        let plan = self.worker.begin_round(
            &mut self.attributor,
            &mut self.stats,
            &mut self.proc_table,
            clock,
            &started,
        );
        if plan.publish_change {
            let snapshot = self.snapshot();
            let outcome = channel.try_send(snapshot);
            if let AggregateNext::End(failure) = self.worker.change_published(outcome, plan.has_pending) {
                self.failure = kept_failure(self.failure.take(), failure, false);
                return false;
            }
        }
        if plan.publish_snapshot {
            let snapshot = self.snapshot();
            let outcome = channel.try_send(snapshot);
            if let AggregateNext::End(failure) = self.worker.snapshot_published(outcome, self.now) {
                self.failure = kept_failure(self.failure.take(), failure, false);
                return false;
            }
            return true;
        }
        let awaited = match flow.take() {
            Some(flow) => Awaited::Flow(flow),
            None => {
                self.now += self.worker.wait(self.now);
                Awaited::Timeout
            }
        };
        if let AfterWait::Charge(flow) = self.worker.after_wait(awaited) {
            let clock = self.clock();
            self.attributor.record_flow(
                &mut self.stats,
                flow,
                &mut self.proc_table,
                clock,
                WALL,
                &started,
            );
        }
        true
    }

    /// Rounds until a snapshot is queued; how long that took.
    fn run_until_published(&mut self, channel: &mut Channel, mut flow: Option<Flow>) -> u128 {
        let before = self.now;
        while channel.queued.is_empty() {
            assert!(self.round(channel, &mut flow));
        }
        self.published_at - before
    }
}

fn row_of(snapshot: &TrafficSnapshot, pid: u32) -> &Row<ProcessIdentity> {
    snapshot
        .processes
        .iter()
        .find(|row| row.key.pid() == Some(pid))
        .unwrap()
}

fn no_entries() -> StatsDiagnostics {
    StatsDiagnostics {
        ip_promotions: 0,
        ip_demotions: 0,
        ip_evictions_heavy: 0,
        ip_evictions_rising: 0,
        ip_evictions_observation: 0,
        process_entries: 0,
        domain_entries: 0,
        inbound_ip_entries: 0,
        outbound_ip_entries: 0,
        inbound_heavy_ip_entries: 0,
        inbound_rising_ip_entries: 0,
        inbound_observation_ip_entries: 0,
        outbound_heavy_ip_entries: 0,
        outbound_rising_ip_entries: 0,
        outbound_observation_ip_entries: 0,
    }
}

fn snapshot(in_bytes: u64) -> TrafficSnapshot {
    let mut snapshot = TrafficTotals::new().snapshot(10, 0, false);
    snapshot.in_bytes = in_bytes;
    snapshot
}

#[test]
fn try_latest_returns_newest_queued_snapshot() {
    let queued = vec![snapshot(1), snapshot(2)];

    let latest = latest_snapshot(queued, ChannelEnd::Empty, None).unwrap().unwrap();

    assert_eq!(latest.in_bytes, 2);
    assert!(latest_snapshot::<TrafficSnapshot>(Vec::new(), ChannelEnd::Empty, None).unwrap().is_none());
}

#[test]
fn disconnected_snapshot_worker_takes_priority_over_queued_snapshot() {
    let error = match latest_snapshot(vec![snapshot(3)], ChannelEnd::Disconnected, None) {
        Err(error) => error,
        Ok(_) => panic!("worker disconnect should take priority"),
    };

    assert!(matches!(error, PipelineError::WorkerStopped("aggregate")));
}

#[test]
fn terminal_failure_takes_priority_over_queued_snapshot() {
    let failure = Some(PipelineError::Capture("pcap failed".to_string()));

    let error = match latest_snapshot(vec![snapshot(7)], ChannelEnd::Empty, failure) {
        Err(error) => error,
        Ok(_) => panic!("terminal failure should take priority"),
    };

    assert!(matches!(error, PipelineError::Capture(message) if message == "pcap failed"));
}

#[test]
fn capture_loop_continues_after_no_flow() {
    let mut worker = CaptureWorker::new();
    let mut stop = false;
    let mut calls = 0;
    let mut handed_on = Vec::new();

    while !stop {
        calls += 1;
        let result = match calls {
            1 => Ok(None),
            2 => Ok(Some(flow(99))),
            _ => {
                stop = true;
                Ok(None)
            }
        };
        match worker.after_read(result).1 {
            AfterRead::Read => {}
            AfterRead::HandOn(flow) => {
                handed_on.push(flow);
                assert!(matches!(worker.after_hand_on(HandedOn::Taken), AfterHandOn::Read));
            }
            AfterRead::Fail(error) => panic!("{error:?}"),
        }
    }

    assert_eq!(calls, 3);
    assert_eq!(handed_on[0].bytes, 99);
}

#[test]
fn aggregate_loop_publishes_snapshot_without_flow() {
    let mut aggregate = Aggregate::new(ProcTable::default(), 10 * MILLISECOND);
    let mut channel = Channel::new(2);

    let waited = aggregate.run_until_published(&mut channel, None);

    assert_eq!(waited, 10 * MILLISECOND);
    assert_eq!(channel.queued[0].in_bytes, 0);
}

#[test]
fn aggregate_snapshot_marks_uninitialized_process_data_stale() {
    let mut aggregate = Aggregate::new(ProcTable::default(), 10 * MILLISECOND);
    let mut channel = Channel::new(1);
    aggregate.run_until_published(&mut channel, None);

    assert!(!channel.queued[0].process_data_fresh);
}

#[test]
fn aggregate_snapshot_treats_a_poisoned_process_table_as_stale() {
    let mut table = ProcTable::default();
    table.refresh_at(Ok(Vec::new()), STARTED, SECOND).unwrap();
    let mut aggregate = Aggregate::new(table, 10 * MILLISECOND);
    aggregate.proc_table.poisoned = true;
    let mut channel = Channel::new(1);
    aggregate.run_until_published(&mut channel, None);

    assert!(!channel.queued[0].process_data_fresh);
}

#[test]
fn aggregate_loop_publishes_pending_state_transitions_without_waiting_for_regular_snapshot() {
    let local_ip = IpAddr::v4(192, 0, 2, 10);
    let mut aggregate = Aggregate::new(ProcTable::default(), 5 * SECOND);
    let mut channel = Channel::new(2);
    let sent = Flow {
        direction: Direction::Outbound,
        peer: IpAddr::v4(198, 51, 100, 5),
        peer_port: Some(443),
        bytes: 120,
        local_socket: Some(tcp(local_ip, 49_152)),
        peer_local_socket: None,
        domain: None,
    };

    let waited = aggregate.run_until_published(&mut channel, Some(sent));
    assert!(waited < 100 * MILLISECOND, "pending transition should publish immediately");
    let pending = channel.queued.pop_front().unwrap();
    assert_eq!(pending.pending_attribution_bytes, 120);

    let waited = aggregate.run_until_published(&mut channel, None);
    assert!(waited < PENDING_ATTRIBUTION_WINDOW * 2, "pending completion should publish immediately");
    let finalized = channel.queued.pop_front().unwrap();
    assert_eq!(finalized.pending_attribution_bytes, 0);
}

#[test]
fn aggregate_loop_does_not_block_when_snapshot_channel_is_full() {
    let mut aggregate = Aggregate::new(ProcTable::default(), 10 * MILLISECOND);
    let mut channel = Channel::new(1);
    channel.queued.push_back(snapshot(0));

    let mut none = None;
    for _ in 0..20 {
        assert!(aggregate.round(&mut channel, &mut none));
    }
    assert_eq!(channel.queued.len(), 1);
    assert!(aggregate.now >= STARTED + 30 * MILLISECOND);
    assert!(aggregate.failure.is_none());
}

#[test]
fn aggregate_loop_resolves_process_before_snapshot() {
    let local_ip = IpAddr::v4(192, 0, 2, 10);
    let mut table = ProcTable::default();
    insert_for_test(&mut table, tcp(local_ip, 443), 7, "curl", "/usr/bin/curl");
    let mut aggregate = Aggregate::new(table, 10 * MILLISECOND);
    let mut channel = Channel::new(2);
    let sent = Flow {
        direction: Direction::Outbound,
        peer: IpAddr::v4(198, 51, 100, 5),
        peer_port: Some(443),
        bytes: 120,
        local_socket: Some(tcp(local_ip, 443)),
        peer_local_socket: None,
        domain: None,
    };
    aggregate.run_until_published(&mut channel, Some(sent));
    let snapshot = channel.queued.pop_front().unwrap();

    assert_eq!(snapshot.processes.len(), 1);
    assert_eq!(snapshot.processes[0].key.pid(), Some(7));
    match &snapshot.processes[0].key {
        ProcessIdentity::Process(process) => {
            assert_eq!(process.name.as_deref(), Some("curl"));
            assert_eq!(process.path.as_deref(), Some("/usr/bin/curl"));
        }
        other => panic!("expected a process, got {other:?}"),
    }
    assert_eq!(snapshot.processes[0].tally.outbound, 120);
    assert!(snapshot.process_data_fresh);
    let diagnostics = aggregate.proc_table.table.diagnostics_snapshot();
    assert_eq!(diagnostics.counters.lookup_hits, 1);
    assert_eq!(diagnostics.counters.lookup_misses, 0);
}

#[test]
fn aggregate_loop_resolves_both_local_endpoints_for_loopback_flow() {
    let local_ip = IpAddr::v4(127, 0, 0, 1);
    let mut table = ProcTable::default();
    insert_for_test(&mut table, tcp(local_ip, 18_765), 18765, "python", "/usr/bin/python");
    insert_for_test(&mut table, tcp(local_ip, 49_152), 49152, "curl", "/usr/bin/curl");
    let mut aggregate = Aggregate::new(table, 10 * MILLISECOND);
    let mut channel = Channel::new(2);
    let sent = Flow {
        direction: Direction::Outbound,
        peer: local_ip,
        peer_port: Some(49_152),
        bytes: 120,
        local_socket: Some(tcp(local_ip, 18_765)),
        peer_local_socket: Some(tcp(local_ip, 49_152)),
        domain: None,
    };
    aggregate.run_until_published(&mut channel, Some(sent));
    let snapshot = channel.queued.pop_front().unwrap();
    let server = row_of(&snapshot, 18765).tally;
    let client = row_of(&snapshot, 49152).tally;

    assert_eq!(snapshot.in_bytes, 120);
    assert_eq!(snapshot.out_bytes, 120);
    assert_eq!((server.inbound, server.outbound), (0, 120));
    assert_eq!((client.inbound, client.outbound), (120, 0));
    let diagnostics = aggregate.proc_table.table.diagnostics_snapshot();
    assert_eq!(diagnostics.counters.lookup_hits, 2);
    assert_eq!(diagnostics.counters.lookup_misses, 0);
}

#[test]
fn continuous_traffic_yields_after_one_flow() {
    let mut aggregate = Aggregate::new(ProcTable::default(), SECOND);
    let clock = aggregate.clock();
    let mut calls = 0;
    let mut next_flow = || {
        calls += 1;
        Some(Flow {
            direction: Direction::Inbound,
            peer: IpAddr::v4(192, 0, 2, 1),
            peer_port: None,
            bytes: 64,
            local_socket: None,
            peer_local_socket: None,
            domain: None,
        })
    };

    aggregate.attributor.process_next(
        &mut aggregate.stats,
        next_flow(),
        &mut aggregate.proc_table,
        clock,
        WALL,
        &StartTimes { known: Vec::new() },
    );

    assert_eq!(calls, 1);
    assert_eq!(aggregate.snapshot().in_bytes, 64);
    let diagnostics = aggregate.proc_table.table.diagnostics_snapshot();
    assert_eq!(diagnostics.counters.no_local_socket, 1);
}

#[test]
fn first_read_is_announced_once() {
    let mut worker = CaptureWorker::new();
    assert!(matches!(worker.after_read(Ok(None)).0, Some(Ok(()))));
    assert!(worker.after_read(Ok(None)).0.is_none());

    let mut failing = CaptureWorker::new();
    let (announced, next) = failing.after_read(Err("permission denied".to_string()));
    match announced {
        Some(Err(error)) => assert_eq!(error.message(), "capture failed: permission denied"),
        other => panic!("expected a failure, got {other:?}"),
    }
    match next {
        AfterRead::Fail(error) => assert_eq!(error.message(), "capture failed: permission denied"),
        other => panic!("expected a failure, got {other:?}"),
    }
}

#[test]
fn a_flow_that_is_not_taken_is_tried_again() {
    let worker = CaptureWorker::new();
    match worker.after_hand_on(HandedOn::Full(flow(5))) {
        AfterHandOn::Retry(flow) => assert_eq!(flow.bytes, 5),
        other => panic!("expected the flow back, got {other:?}"),
    }
    assert!(matches!(worker.after_hand_on(HandedOn::Closed), AfterHandOn::End));
}

#[test]
fn only_the_first_failure_is_kept() {
    let first = PipelineError::Capture("first".to_string());
    let second = PipelineError::WorkerStopped("capture");
    assert!(kept_failure(None, first.clone(), true).is_none());
    let kept = kept_failure(None, first, false);
    match kept_failure(kept, second, false) {
        Some(error) => assert_eq!(error.message(), "capture failed: first"),
        None => panic!("a failure is kept"),
    }
}

#[test]
fn lost_watchers_and_captures_end_the_worker() {
    let mut aggregate = Aggregate::new(ProcTable::default(), 10 * MILLISECOND);
    let mut channel = Channel::new(1);
    channel.open = false;
    let mut none = None;
    while aggregate.round(&mut channel, &mut none) {}
    assert_eq!(
        aggregate.failure.unwrap().message(),
        "traffic pipeline worker stopped unexpectedly: snapshot consumer"
    );

    let worker = AggregateWorker::new(STARTED, SECOND);
    match worker.after_wait(Awaited::Closed) {
        AfterWait::End(error) => assert_eq!(
            error.message(),
            "traffic pipeline worker stopped unexpectedly: capture"
        ),
        other => panic!("expected the end, got {other:?}"),
    }
}

#[test]
fn waits_are_short_enough_to_stop() {
    let worker = AggregateWorker::new(STARTED, SECOND);
    assert_eq!(worker.wait(STARTED), STOP_CHECK_INTERVAL);
    assert_eq!(worker.wait(STARTED + SECOND - 7), 7);
    assert_eq!(worker.wait(STARTED + 2 * SECOND), 0);
}

#[test]
fn readiness_follows_the_first_read() {
    assert!(matches!(
        poll_capture_readiness(FirstRead::Succeeded, None),
        Some(Ok(CaptureReadiness::Ready))
    ));
    assert!(poll_capture_readiness(FirstRead::Nothing, None).is_none());
    assert!(matches!(
        observe_early_capture_failure(FirstRead::Nothing, None),
        Ok(CaptureReadiness::Waiting)
    ));
    assert!(matches!(
        observe_early_capture_failure(FirstRead::Disconnected, None),
        Err(PipelineError::WorkerStopped("capture"))
    ));
    let failed = PipelineError::Capture("gone".to_string());
    assert!(matches!(
        observe_early_capture_failure(FirstRead::Disconnected, Some(failed)),
        Err(PipelineError::Capture(message)) if message == "gone"
    ));
}

#[test]
fn diagnostics_come_with_a_snapshot_only_if_asked_for() {
    let mut aggregate = Aggregate::new(ProcTable::default(), SECOND);
    aggregate.proc_table.table.record_lookup_hit(false);
    let inputs = DiagnosticsInputs {
        pending: aggregate.attributor.snapshot(),
        stats: no_entries(),
        flow_table_entries: 3,
        pcap: None,
    };
    let plain = snapshot_for_publish(&aggregate.totals, &mut aggregate.proc_table, 10, 0, STARTED, None);
    assert!(plain.diagnostics.is_none());
    let full = snapshot_for_publish(
        &aggregate.totals,
        &mut aggregate.proc_table,
        10,
        0,
        STARTED,
        Some(&inputs),
    );
    let report = full.diagnostics.unwrap();
    assert_eq!(report.counters.lookup_hits, 1);
    aggregate.proc_table.poisoned = true;
    let poisoned = snapshot_for_publish(
        &aggregate.totals,
        &mut aggregate.proc_table,
        10,
        0,
        STARTED,
        Some(&inputs),
    );
    assert!(poisoned.diagnostics.is_none());
}

#[test]
fn reports_are_due_at_every_interval() {
    let mut schedule = ReportSchedule::new(100, 30);
    assert!(!schedule.is_due(129));
    assert!(schedule.is_due(130));
    assert!(schedule.is_due(150));
    schedule.reported(155);
    assert!(!schedule.is_due(184));
    assert!(schedule.is_due(185));
    assert_eq!(schedule.interval, 30);
}
