//! Diagnostic reports.

use flowlens::attribution::{PendingAttributor, SharedProcTable};
use flowlens::diagnostics::{
    collect, default_output_path, miss_sample, DiagnosticsInputs, DiagnosticsMissSample,
    DiagnosticsRecord, DiagnosticsSnapshot, DiagnosticsWriter, PcapNumbers, StatsDiagnostics,
    SCHEMA_VERSION,
};
use flowlens::net::{IpAddr, LocalSocket, TransportProtocol};
use flowlens::proc_table::{LookupMissReason, LookupMissSample, ProcTable};

const STAMP: &str = "20260715T080000Z123456789";

fn inputs() -> DiagnosticsInputs {
    DiagnosticsInputs {
        pending: PendingAttributor::default().snapshot(),
        stats: StatsDiagnostics {
            ip_promotions: 1,
            ip_demotions: 2,
            ip_evictions_heavy: 3,
            ip_evictions_rising: 4,
            ip_evictions_observation: 5,
            process_entries: 6,
            domain_entries: 7,
            inbound_ip_entries: 8,
            outbound_ip_entries: 9,
            inbound_heavy_ip_entries: 10,
            inbound_rising_ip_entries: 11,
            inbound_observation_ip_entries: 12,
            outbound_heavy_ip_entries: 13,
            outbound_rising_ip_entries: 14,
            outbound_observation_ip_entries: 15,
        },
        flow_table_entries: 16,
        pcap: Some(PcapNumbers {
            received: 17,
            dropped: 18,
            if_dropped: 19,
        }),
    }
}

fn shared() -> SharedProcTable {
    SharedProcTable {
        table: ProcTable::default(),
        poisoned: false,
    }
}

fn snapshot_with(miss_samples: Vec<DiagnosticsMissSample>) -> DiagnosticsSnapshot {
    let mut snapshot = collect(&mut shared(), &inputs()).unwrap();
    snapshot.miss_samples = miss_samples;
    snapshot
}

#[test]
fn default_path_contains_timestamp_pid_and_log_extension() {
    let name = default_output_path(STAMP, 4_321);
    assert!(name.starts_with("flowlens-"));
    assert!(name.ends_with(".log"));
    assert!(name.contains("4321"));
    assert_eq!(name, "flowlens-20260715T080000Z123456789-4321.log");
}

#[test]
fn writer_emits_snapshot_then_miss_events_with_shared_sequence() {
    let mut writer = DiagnosticsWriter::new(STAMP, 4_321);
    let snapshot = snapshot_with(vec![DiagnosticsMissSample {
        reason: "ambiguous".to_string(),
        protocol: "tcp".to_string(),
        local: "192.0.2.1:1234".to_string(),
        peer: "198.51.100.2:443".to_string(),
    }]);

    let records = writer.write("2026-07-15T08:00:00+00:00", "eth0", &snapshot);

    assert_eq!(records.len(), 2);
    assert_eq!(records[0].kind(), "snapshot");
    assert_eq!(records[1].kind(), "lookup_miss_sample");
    match &records[0] {
        DiagnosticsRecord::Snapshot { header, miss_sample_count, .. } => {
            assert_eq!(header.seq, 1);
            assert_eq!(*miss_sample_count, 1);
        }
        other => panic!("expected the snapshot first, got {other:?}"),
    }
    match &records[1] {
        DiagnosticsRecord::LookupMissSample { header, sample } => {
            assert_eq!(header.seq, 1);
            assert_eq!(sample.reason, "ambiguous");
        }
        other => panic!("expected the missed lookup, got {other:?}"),
    }
}

#[test]
fn headers_name_the_run_and_count_the_reports() {
    let mut writer = DiagnosticsWriter::new(STAMP, 4_321);
    let snapshot = snapshot_with(Vec::new());
    for expected in 1..4 {
        let records = writer.write("2026-07-15T08:00:00+00:00", "eth0", &snapshot);
        assert_eq!(records.len(), 1);
        match &records[0] {
            DiagnosticsRecord::Snapshot { header, counters, gauges, ip, .. } => {
                assert_eq!(header.seq, expected);
                assert_eq!(header.schema_version, SCHEMA_VERSION);
                assert_eq!(header.run_id, "20260715T080000Z123456789-4321");
                assert_eq!(header.timestamp, "2026-07-15T08:00:00+00:00");
                assert_eq!(header.interface, "eth0");
                assert_eq!(*counters, snapshot.counters);
                assert_eq!(*gauges, snapshot.gauges);
                assert_eq!(*ip, snapshot.ip);
            }
            other => panic!("expected a snapshot, got {other:?}"),
        }
    }
}

#[test]
fn report_holds_the_counts_of_its_sources() {
    let mut table = shared();
    table.table.record_lookup_hit(true);
    table.table.record_lookup_miss_bytes(LookupMissReason::Stale, 30);
    table.table.record_refresh_result(true, 7_999_999);
    let report = collect(&mut table, &inputs()).unwrap();
    assert_eq!(report.counters.lookup_hits, 1);
    assert_eq!(report.counters.lookup_v4_mapped_hits, 1);
    assert_eq!(report.counters.lookup_stale, 1);
    assert_eq!(report.counters.lookup_stale_bytes, 30);
    assert_eq!(report.counters.refresh_success, 1);
    assert_eq!(report.counters.ip_promotions, 1);
    assert_eq!(report.counters.ip_evictions_observation, 5);
    assert_eq!(report.counters.pcap_received, 17);
    assert_eq!(report.counters.pcap_dropped, 18);
    assert_eq!(report.counters.pcap_if_dropped, 19);
    assert_eq!(report.gauges.process_entries, 6);
    assert_eq!(report.gauges.domain_entries, 7);
    assert_eq!(report.gauges.flow_table_entries, 16);
    assert_eq!(report.gauges.last_refresh_ms, 7);
    assert_eq!(report.ip.inbound_entries, 8);
    assert_eq!(report.ip.outbound_observation_entries, 15);

    let without_pcap = DiagnosticsInputs { pcap: None, ..inputs() };
    assert_eq!(collect(&mut table, &without_pcap).unwrap().counters.pcap_received, 0);
}

#[test]
fn samples_are_taken_out_and_told_in_words() {
    let mut table = shared();
    let sample = LookupMissSample {
        reason: LookupMissReason::NoCandidate,
        local_socket: LocalSocket {
            ip: IpAddr::v4(192, 0, 2, 1),
            port: 1_234,
            protocol: TransportProtocol::Udp,
        },
        peer_ip: IpAddr::V6(1),
        peer_port: 443,
    };
    table.table.record_lookup_miss_sample(
        sample.reason,
        sample.local_socket,
        sample.peer_ip,
        sample.peer_port,
    );
    let report = collect(&mut table, &inputs()).unwrap();
    assert_eq!(
        report.miss_samples,
        vec![DiagnosticsMissSample {
            reason: "no_candidate".to_string(),
            protocol: "udp".to_string(),
            local: "192.0.2.1:1234".to_string(),
            peer: "::1:443".to_string(),
        }]
    );
    assert_eq!(report.miss_samples[0], miss_sample(&sample));
    assert!(collect(&mut table, &inputs()).unwrap().miss_samples.is_empty());
}

#[test]
fn poisoned_table_gives_no_report() {
    let mut table = shared();
    table.poisoned = true;
    assert!(collect(&mut table, &inputs()).is_none());
}
