//! Reports of traffic, as plain text and as frames.

use flowlens::address_text::ip_to_text;
use flowlens::capture::Flow;
use flowlens::net::{Direction, IpAddr, LocalSocket, TransportProtocol};
use flowlens::report::{
    build_json_frame, fmt_elapsed, hostname, human_bytes, is_dated, plain_snapshot, truncate,
    JsonFrame,
};
use flowlens::stats::{Evidence, ObservedProcess, ProcFlowKey, Stats};
use flowlens::time::{instant_from_parts, rfc3339, split_instant, MAX_SECONDS, MIN_SECONDS};
use flowlens::traffic::{ProcessIdentity, TrafficSnapshot, TrafficTotals};

/// 2026-07-15T08:00:00Z, in nanoseconds since 1970.
const EIGHT: i128 = 1_784_102_400_000_000_000;
const SECOND: i128 = 1_000_000_000;

fn at(minutes: i128, seconds: i128) -> i128 {
    EIGHT + (60 * minutes + seconds) * SECOND
}

fn flow(direction: Direction, bytes: u64) -> Flow {
    flow_with_domain(direction, bytes, None)
}

fn flow_with_domain(direction: Direction, bytes: u64, domain: Option<String>) -> Flow {
    Flow {
        direction,
        peer: IpAddr::v4(127, 0, 0, 1),
        peer_port: None,
        bytes,
        local_socket: None,
        peer_local_socket: None,
        domain,
    }
}

fn connection() -> ProcFlowKey {
    ProcFlowKey::from_endpoint(
        LocalSocket {
            ip: IpAddr::v4(127, 0, 0, 1),
            port: 49_152,
            protocol: TransportProtocol::Tcp,
        },
        IpAddr::v4(127, 0, 0, 1),
        443,
    )
}

fn record_flow_at(stats: &mut Stats, flow: Flow, process: Option<ObservedProcess>, observed_at: i128) {
    stats.record_interface_flow(&flow, observed_at);
    stats.record_outbound_domain(&flow, observed_at);
    match process {
        Some(process) => stats.record_process_evidence(
            process,
            flow.direction,
            flow.bytes,
            observed_at,
            Evidence::Snapshot,
            connection(),
        ),
        None => stats.record_unattributed(flow.direction, flow.bytes, observed_at),
    }
}

fn snapshot_of(stats: &Stats) -> TrafficSnapshot {
    let mut totals = TrafficTotals::new();
    totals.add_entries(&stats.entries);
    totals.snapshot(10, 0, true)
}

fn plain(stats: &Stats) -> String {
    let snapshot = snapshot_of(stats);
    assert!(is_dated(&snapshot));
    plain_snapshot(
        "eth0",
        "test-host",
        "2026-07-15 07:00:00",
        3_661,
        "2026-07-15 08:01:01",
        &snapshot,
        10,
    )
}

fn frame(stats: &Stats) -> JsonFrame {
    let snapshot = snapshot_of(stats);
    assert!(is_dated(&snapshot));
    build_json_frame(
        "eth0",
        "test-host",
        "2026-07-15T07:00:00+00:00",
        "2026-07-15T08:01:01+00:00",
        3_661,
        &snapshot,
    )
}

fn curl() -> ObservedProcess {
    ObservedProcess {
        pid: 7,
        name: Some("curl".to_string()),
        path: Some("/usr/bin/curl".to_string()),
    }
}

#[test]
fn plain_snapshot_renders_process_path_and_last_seen() {
    let mut stats = Stats::new();
    record_flow_at(&mut stats, flow(Direction::Inbound, 40), Some(curl()), at(0, 0));

    let rendered = plain(&stats);

    assert!(rendered.contains("Process\tPID\tRecv\tSent\tTotal\tLast Seen\tPath"));
    assert!(
        rendered.contains("curl\t7\t40 B\t0 B\t40 B\t2026-07-15T08:00:00+00:00\t/usr/bin/curl")
    );
}

#[test]
fn plain_snapshot_renders_unattributed_traffic() {
    let mut stats = Stats::new();
    let observed_at = at(2, 0);
    record_flow_at(&mut stats, flow(Direction::Inbound, 40), None, observed_at);
    record_flow_at(&mut stats, flow(Direction::Outbound, 60), None, observed_at);

    let rendered = plain(&stats);

    assert!(rendered.contains(
        "<unattributed traffic>\t-\t40 B\t60 B\t100 B\t2026-07-15T08:02:00+00:00\t-"
    ));
}

#[test]
fn json_snapshot_renders_unattributed_traffic_as_null_identity() {
    let mut stats = Stats::new();
    let observed_at = at(2, 0);
    record_flow_at(&mut stats, flow(Direction::Inbound, 40), None, observed_at);
    record_flow_at(&mut stats, flow(Direction::Outbound, 60), None, observed_at);

    let frame = frame(&stats);
    let process = &frame.top_processes[0];

    assert!(process.pid.is_none());
    assert!(process.name.is_none());
    assert!(process.path.is_none());
    assert_eq!(process.last_seen, "2026-07-15T08:02:00+00:00");
    assert_eq!(process.recv, 40);
    assert_eq!(process.sent, 60);
    assert_eq!(process.total, 100);
}

#[test]
fn json_snapshot_renders_process_path_and_last_seen() {
    let mut stats = Stats::new();
    record_flow_at(&mut stats, flow(Direction::Outbound, 60), Some(curl()), at(1, 30));

    let frame = frame(&stats);
    let process = &frame.top_processes[0];

    assert_eq!(process.path.as_deref(), Some("/usr/bin/curl"));
    assert_eq!(process.last_seen, "2026-07-15T08:01:30+00:00");
}

#[test]
fn missing_process_name_and_path_keep_known_pid() {
    let mut stats = Stats::new();
    record_flow_at(
        &mut stats,
        flow(Direction::Inbound, 40),
        Some(ObservedProcess {
            pid: 7,
            name: None,
            path: None,
        }),
        at(3, 0),
    );

    let rendered = plain(&stats);
    assert!(rendered.contains("?\t7\t40 B\t0 B\t40 B\t2026-07-15T08:03:00+00:00\t-"));

    let frame = frame(&stats);
    let process = &frame.top_processes[0];
    assert_eq!(process.pid, Some(7));
    assert!(process.name.is_none());
    assert!(process.path.is_none());
}

#[test]
fn plain_snapshot_renders_ip_total_and_last_seen() {
    let mut stats = Stats::new();
    let observed_at = at(4, 0);
    record_flow_at(&mut stats, flow(Direction::Inbound, 40), None, observed_at);
    record_flow_at(&mut stats, flow(Direction::Outbound, 60), None, observed_at);

    let rendered = plain(&stats);

    assert!(rendered.contains("Top Inbound IPs (10)\nIP\tTotal\tLast Seen\n"));
    assert!(rendered.contains("127.0.0.1\t40 B\t2026-07-15T08:04:00+00:00\n"));
    assert!(rendered.contains("Top Outbound IPs (10)\nIP\tTotal\tLast Seen\n"));
    assert!(rendered.contains("127.0.0.1\t60 B\t2026-07-15T08:04:00+00:00\n"));
}

#[test]
fn json_snapshot_renders_ip_last_seen_without_removing_bytes() {
    let mut stats = Stats::new();
    record_flow_at(&mut stats, flow(Direction::Inbound, 40), None, at(4, 0));

    let frame = frame(&stats);
    let entry = &frame.top_inbound_ips[0];

    assert_eq!(entry.ip, "127.0.0.1");
    assert_eq!(entry.bytes, 40);
    assert_eq!(entry.last_seen, "2026-07-15T08:04:00+00:00");
}

#[test]
fn plain_snapshot_renders_top_hosts_section() {
    let mut stats = Stats::new();
    let host = "example.com".to_string();
    let observed_at = at(0, 0);
    record_flow_at(
        &mut stats,
        flow_with_domain(Direction::Outbound, 100, Some(host.clone())),
        None,
        observed_at,
    );
    record_flow_at(
        &mut stats,
        flow_with_domain(Direction::Inbound, 240, Some(host)),
        None,
        observed_at,
    );

    let rendered = plain(&stats);

    assert!(rendered.contains("Top Hosts (10)\n"));
    assert!(rendered.contains("Host\tIn\tOut\tTotal\tLast Seen\n"));
    assert!(rendered.contains("example.com\t240 B\t100 B\t340 B\t2026-07-15T08:00:00+00:00\n"));
}

#[test]
fn plain_snapshot_renders_empty_top_hosts_section() {
    let stats = Stats::new();
    let rendered = plain(&stats);

    // Section header and column row still appear when no domains observed.
    assert!(rendered.contains("Top Hosts (10)\n"));
    assert!(rendered.contains("Host\tIn\tOut\tTotal\tLast Seen\n"));
    // No domain data rows.
    assert!(!rendered.contains("example.com"));
}

#[test]
fn json_snapshot_renders_top_hosts_array() {
    let mut stats = Stats::new();
    let host = "example.com".to_string();
    let observed_at = at(0, 0);
    record_flow_at(
        &mut stats,
        flow_with_domain(Direction::Outbound, 100, Some(host.clone())),
        None,
        observed_at,
    );
    record_flow_at(
        &mut stats,
        flow_with_domain(Direction::Inbound, 240, Some(host)),
        None,
        observed_at,
    );

    let frame = frame(&stats);

    let top_hosts = &frame.top_hosts;
    assert_eq!(top_hosts.len(), 1);
    let entry = &top_hosts[0];
    assert_eq!(entry.host, "example.com");
    assert_eq!(entry.in_bytes, 240);
    assert_eq!(entry.out_bytes, 100);
    assert_eq!(entry.total_bytes, 340);
    // RFC 3339 (matches process/IP dimension's last_seen format).
    assert_eq!(entry.last_seen, "2026-07-15T08:00:00+00:00");
}

#[test]
fn json_snapshot_renders_empty_top_hosts_array() {
    let stats = Stats::new();
    let frame = frame(&stats);

    assert_eq!(frame.top_hosts.len(), 0);
    assert!(frame.top_hosts.is_empty());
}

#[test]
fn whole_report_of_an_idle_interface() {
    assert_eq!(
        plain(&Stats::new()),
        "flowlens\teth0\thost: test-host\tstarted: 2026-07-15 07:00:00\tuptime: 01:01:01\t\
         2026-07-15 08:01:01\n\n\
         Interface Traffic\nInbound\t0 B\nOutbound\t0 B\n\n\
         Top Processes (10)\nProcess\tPID\tRecv\tSent\tTotal\tLast Seen\tPath\n\
         \nTop Hosts (10)\nHost\tIn\tOut\tTotal\tLast Seen\n\
         \nTop Inbound IPs (10)\nIP\tTotal\tLast Seen\n\
         \nTop Outbound IPs (10)\nIP\tTotal\tLast Seen\n"
    );
}

#[test]
fn frame_carries_its_head() {
    let mut stats = Stats::new();
    record_flow_at(&mut stats, flow(Direction::Inbound, 40), Some(curl()), at(0, 0));
    let frame = frame(&stats);
    assert_eq!(frame.interface, "eth0");
    assert_eq!(frame.host, "test-host");
    assert_eq!(frame.started_at, "2026-07-15T07:00:00+00:00");
    assert_eq!(frame.now, "2026-07-15T08:01:01+00:00");
    assert_eq!(frame.uptime_secs, 3_661);
    assert_eq!(frame.in_bytes, 40);
    assert_eq!(frame.out_bytes, 0);
}

/// The text that floating point arithmetic gives.
fn float_text(n: u64) -> String {
    const KB: f64 = 1024.0;
    let value = n as f64;
    if value >= KB * KB * KB * KB {
        format!("{:.2} TB", value / (KB * KB * KB * KB))
    } else if value >= KB * KB * KB {
        format!("{:.2} GB", value / (KB * KB * KB))
    } else if value >= KB * KB {
        format!("{:.2} MB", value / (KB * KB))
    } else if value >= KB {
        format!("{:.2} KB", value / KB)
    } else {
        format!("{n} B")
    }
}

#[test]
fn byte_counts_are_shown_as_floating_point_would() {
    let mut samples: Vec<u64> = vec![0, 1, 1023, 1024, 1029, 1536, 1_048_576, u64::MAX, u64::MAX - 1];
    for shift in 0..64 {
        let power = 1u64 << shift;
        for offset in 0..40 {
            samples.push(power.wrapping_add(offset));
            samples.push(power.wrapping_sub(offset));
            samples.push(power.wrapping_add(offset * 5));
            samples.push(power.wrapping_mul(offset).wrapping_add(power >> 3));
        }
    }
    let mut state = 0x9e37_79b9_7f4a_7c15u64;
    for _ in 0..20_000 {
        state = state.wrapping_mul(6_364_136_223_846_793_005).wrapping_add(1_442_695_040_888_963_407);
        samples.push(state >> (state % 64));
    }
    for n in samples {
        assert_eq!(human_bytes(n), float_text(n), "{n}");
    }
}

#[test]
fn byte_counts_have_two_digits_behind_the_point() {
    assert_eq!(human_bytes(0), "0 B");
    assert_eq!(human_bytes(1_023), "1023 B");
    assert_eq!(human_bytes(1_024), "1.00 KB");
    assert_eq!(human_bytes(1_536), "1.50 KB");
    assert_eq!(human_bytes(1_572_864), "1.50 MB");
    assert_eq!(human_bytes(1_610_612_736), "1.50 GB");
    assert_eq!(human_bytes(1_649_267_441_664), "1.50 TB");
}

#[test]
fn time_spans_have_hours_minutes_and_seconds() {
    assert_eq!(fmt_elapsed(0), "00:00:00");
    assert_eq!(fmt_elapsed(59), "00:00:59");
    assert_eq!(fmt_elapsed(3_661), "01:01:01");
    assert_eq!(fmt_elapsed(360_000), "100:00:00");
}

#[test]
fn long_texts_end_in_an_ellipsis() {
    assert_eq!(truncate("short", 5), "short");
    assert_eq!(truncate("longer", 5), "longe\u{2026}");
    assert_eq!(truncate("\u{e9}\u{e8}\u{e0}", 2), "\u{e9}\u{e8}\u{2026}");
    assert_eq!(truncate("", 0), "");
    assert_eq!(truncate("x", 0), "\u{2026}");
}

#[test]
fn host_name_is_trimmed_text() {
    assert_eq!(hostname(&Some(b"  box.local\n".to_vec())), "box.local");
    assert_eq!(hostname(&Some(vec![0xff, 0xfe])), "unknown");
    assert_eq!(hostname(&None), "unknown");
    assert_eq!(hostname(&Some(Vec::new())), "");
}

#[test]
fn owners_have_names_and_numbers() {
    assert_eq!(ProcessIdentity::Process(curl()).display_name(), "curl");
    assert_eq!(ProcessIdentity::Process(curl()).pid(), Some(7));
    assert_eq!(ProcessIdentity::Unattributed.display_name(), "<unattributed traffic>");
    assert_eq!(ProcessIdentity::Unattributed.pid(), None);
}

#[test]
fn busiest_come_first_and_ties_keep_their_order() {
    let mut stats = Stats::new();
    for (pid, bytes) in [(1, 10), (2, 30), (3, 10), (2, 1), (4, 20)] {
        stats.record_process_evidence(
            ObservedProcess {
                pid,
                name: None,
                path: None,
            },
            Direction::Outbound,
            bytes,
            at(0, 0),
            Evidence::Probe,
            connection(),
        );
    }
    let mut totals = TrafficTotals::new();
    totals.add_entries(&stats.take_entries());
    assert!(stats.entries.is_empty());
    let order = |top_n: usize| -> Vec<Option<u32>> {
        totals.snapshot(top_n, 0, true).processes.iter().map(|row| row.key.pid()).collect()
    };
    assert_eq!(order(10), vec![Some(2), Some(4), Some(1), Some(3)]);
    assert_eq!(order(2), vec![Some(2), Some(4)]);
    assert!(order(0).is_empty());
    let listed: u64 = totals.snapshot(10, 0, true).processes.iter().map(|row| row.tally.total()).sum();
    assert_eq!(listed, 71);
}

#[test]
fn channels_add_up_and_shared_traffic_is_listed_for_each() {
    let mut stats = Stats::new();
    let process = |pid: u32| ObservedProcess {
        pid,
        name: None,
        path: None,
    };
    stats.record_process_evidence(
        process(1),
        Direction::Outbound,
        100,
        at(0, 0),
        Evidence::Snapshot,
        connection(),
    );
    stats.record_shared(vec![process(1), process(2)], Direction::Outbound, 40, at(0, 1), connection());
    stats.record_system(Direction::Inbound, 10, at(0, 2));
    stats.record_unattributed(Direction::Inbound, 5, at(0, 3));
    let snapshot = snapshot_of(&stats);
    let summary = snapshot.attribution;
    assert_eq!(summary.exclusive.outbound, 100);
    assert_eq!(summary.shared.outbound, 40);
    assert_eq!(summary.system.inbound, 10);
    assert_eq!(summary.unattributed.inbound, 5);
    let rows: Vec<(Option<u32>, u64)> = snapshot
        .processes
        .iter()
        .map(|row| (row.key.pid(), row.tally.total()))
        .collect();
    assert_eq!(rows, vec![(Some(1), 140), (Some(2), 40), (None, 5)]);
}

#[test]
fn snapshot_carries_pending_bytes_and_freshness() {
    let totals = TrafficTotals::new();
    let snapshot = totals.snapshot(5, 77, false);
    assert_eq!(snapshot.pending_attribution_bytes, 77);
    assert!(!snapshot.process_data_fresh);
    assert!(snapshot.processes.is_empty());
}

#[test]
fn addresses_are_written_as_usual() {
    for text in [
        "0.0.0.0", "127.0.0.1", "255.255.255.255", "192.0.2.10",
    ] {
        let v4: u32 = text
            .split('.')
            .fold(0, |ip, part| ip << 8 | part.parse::<u32>().unwrap());
        assert_eq!(ip_to_text(IpAddr::V4(v4)), text);
    }
    let v6 = |groups: [u16; 8]| -> IpAddr {
        IpAddr::V6(groups.iter().fold(0u128, |ip, group| ip << 16 | u128::from(*group)))
    };
    assert_eq!(ip_to_text(v6([0; 8])), "::");
    assert_eq!(ip_to_text(v6([0, 0, 0, 0, 0, 0, 0, 1])), "::1");
    assert_eq!(ip_to_text(v6([1, 0, 0, 0, 0, 0, 0, 0])), "1::");
    assert_eq!(ip_to_text(v6([0x2001, 0xdb8, 0, 0, 0, 0, 0, 0x10])), "2001:db8::10");
    assert_eq!(ip_to_text(v6([0x2001, 0, 0, 1, 0, 0, 0, 1])), "2001:0:0:1::1");
    assert_eq!(ip_to_text(v6([1, 0, 2, 0, 3, 0, 4, 0])), "1:0:2:0:3:0:4:0");
    assert_eq!(ip_to_text(v6([1, 0, 0, 2, 0, 0, 3, 4])), "1::2:0:0:3:4");
    assert_eq!(ip_to_text(v6([0xfe80, 0, 0, 0, 0xabcd, 0xef, 1, 2])), "fe80::abcd:ef:1:2");
    assert_eq!(ip_to_text(v6([0, 0, 0, 0, 0, 0xffff, 0xc000, 0x020a])), "::ffff:192.0.2.10");
}

#[test]
fn instants_are_written_in_utc() {
    assert_eq!(rfc3339(0), "1970-01-01T00:00:00+00:00");
    assert_eq!(rfc3339(-1), "1969-12-31T23:59:59.999999999+00:00");
    assert_eq!(rfc3339(EIGHT + 500_000_000), "2026-07-15T08:00:00.500+00:00");
    assert_eq!(split_instant(-1), (-1, 999_999_999));
    assert_eq!(instant_from_parts(-1, 999_999_999), Some(-1));
    assert_eq!(instant_from_parts(1, 5), Some(1_000_000_005));
    assert_eq!(instant_from_parts(i128::from(MAX_SECONDS) + 1, 0), None);
    assert_eq!(instant_from_parts(i128::from(MIN_SECONDS) - 1, 0), None);
    for seconds in [MIN_SECONDS, MAX_SECONDS] {
        let at = instant_from_parts(i128::from(seconds), 0).unwrap();
        assert!(!rfc3339(at).is_empty());
    }
}

#[test]
fn lines_beyond_the_calendar_are_told_apart() {
    let mut stats = Stats::new();
    record_flow_at(&mut stats, flow(Direction::Inbound, 40), None, i128::MAX);
    assert!(!is_dated(&snapshot_of(&stats)));
}
