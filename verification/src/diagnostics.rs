//! What is reported of the workings of the capture and the attribution.

use vstd::prelude::*;
use vstd::string::*;

use crate::address_text::{ip_text, push_ip};
use crate::attribution::{PendingAttributionSnapshot, SharedProcTable};
use crate::net::{IpAddr, TransportProtocol};
use crate::proc_table::{LookupMissReason, LookupMissSample, ProcCounters, ProcDiagnosticsSnapshot};
use crate::text::{decimal, push_decimal};

verus! {

/// The version of the record format.
pub const SCHEMA_VERSION: u8 = 1;

/// What the traffic statistics report of themselves.
#[derive(Clone, Copy, Debug, PartialEq, Eq, Structural)]
pub struct StatsDiagnostics {
    pub ip_promotions: u64,
    pub ip_demotions: u64,
    pub ip_evictions_heavy: u64,
    pub ip_evictions_rising: u64,
    pub ip_evictions_observation: u64,
    pub process_entries: u64,
    pub domain_entries: u64,
    pub inbound_ip_entries: u64,
    pub outbound_ip_entries: u64,
    pub inbound_heavy_ip_entries: u64,
    pub inbound_rising_ip_entries: u64,
    pub inbound_observation_ip_entries: u64,
    pub outbound_heavy_ip_entries: u64,
    pub outbound_rising_ip_entries: u64,
    pub outbound_observation_ip_entries: u64,
}

/// What a capture reports of itself.
#[derive(Clone, Copy, Debug, PartialEq, Eq, Structural)]
pub struct PcapNumbers {
    pub received: u64,
    pub dropped: u64,
    pub if_dropped: u64,
}

/// What is reported besides the process table.
#[derive(Clone, Copy, Debug, PartialEq, Eq)]
pub struct DiagnosticsInputs {
    pub pending: PendingAttributionSnapshot,
    pub stats: StatsDiagnostics,
    pub flow_table_entries: u64,
    pub pcap: Option<PcapNumbers>,
}

/// Counts since the start.
#[derive(Clone, Copy, Debug, PartialEq, Eq, Structural)]
pub struct DiagnosticsCounters {
    pub lookup_hits: u64,
    pub lookup_misses: u64,
    pub lookup_no_candidate: u64,
    pub lookup_ambiguous: u64,
    pub lookup_stale: u64,
    pub lookup_no_candidate_bytes: u64,
    pub lookup_ambiguous_bytes: u64,
    pub lookup_stale_bytes: u64,
    pub lookup_v4_mapped_hits: u64,
    pub no_local_socket: u64,
    pub refresh_requests: u64,
    pub refresh_actual: u64,
    pub refresh_success: u64,
    pub refresh_failure: u64,
    pub refresh_records: u64,
    pub refresh_v4_mapped_records: u64,
    pub probe_request_queued: u64,
    pub probe_result_unique: u64,
    pub probe_result_not_found: u64,
    pub probe_result_ambiguous: u64,
    pub probe_result_unavailable: u64,
    pub probe_result_dropped: u64,
    pub probe_result_late: u64,
    pub probe_query_count: u64,
    pub probe_query_ms: u64,
    pub pending_expired_bytes: u64,
    pub pending_capacity_bytes: u64,
    pub probe_unique_pending_bytes: u64,
    pub probe_not_found_pending_bytes: u64,
    pub probe_ambiguous_pending_bytes: u64,
    pub probe_unavailable_pending_bytes: u64,
    pub ip_promotions: u64,
    pub ip_demotions: u64,
    pub ip_evictions_heavy: u64,
    pub ip_evictions_rising: u64,
    pub ip_evictions_observation: u64,
    pub pcap_received: u64,
    pub pcap_dropped: u64,
    pub pcap_if_dropped: u64,
}

/// Sizes at the moment.
#[derive(Clone, Copy, Debug, PartialEq, Eq, Structural)]
pub struct DiagnosticsGauges {
    pub flow_table_entries: u64,
    pub process_entries: u64,
    pub domain_entries: u64,
    pub last_refresh_ms: u64,
    pub pending_records: usize,
    pub pending_bytes: u64,
    pub probe_last_query_ms: u64,
}

/// Sizes of the lists of addresses at the moment.
#[derive(Clone, Copy, Debug, PartialEq, Eq, Structural)]
pub struct DiagnosticsIp {
    pub inbound_entries: u64,
    pub outbound_entries: u64,
    pub inbound_heavy_entries: u64,
    pub inbound_rising_entries: u64,
    pub inbound_observation_entries: u64,
    pub outbound_heavy_entries: u64,
    pub outbound_rising_entries: u64,
    pub outbound_observation_entries: u64,
}

/// A missed lookup in words.
#[derive(Debug, PartialEq, Eq)]
pub struct DiagnosticsMissSample {
    pub reason: String,
    pub protocol: String,
    pub local: String,
    pub peer: String,
}

/// A missed lookup in words, as a mathematical value.
pub ghost struct MissSampleView {
    pub reason: Seq<char>,
    pub protocol: Seq<char>,
    pub local: Seq<char>,
    pub peer: Seq<char>,
}

impl View for DiagnosticsMissSample {
    type V = MissSampleView;

    open spec fn view(&self) -> MissSampleView {
        MissSampleView {
            reason: self.reason@,
            protocol: self.protocol@,
            local: self.local@,
            peer: self.peer@,
        }
    }
}

/// The report of one moment.
#[derive(Debug, PartialEq, Eq)]
pub struct DiagnosticsSnapshot {
    pub counters: DiagnosticsCounters,
    pub gauges: DiagnosticsGauges,
    pub ip: DiagnosticsIp,
    pub miss_samples: Vec<DiagnosticsMissSample>,
}

/// The numbers of a capture; zeros without one.
pub open spec fn pcap_numbers(pcap: Option<PcapNumbers>) -> PcapNumbers {
    match pcap {
        Some(numbers) => numbers,
        None => PcapNumbers { received: 0, dropped: 0, if_dropped: 0 },
    }
}

/// The counts of a report.
pub open spec fn counters_of(proc: ProcCounters, inputs: DiagnosticsInputs) -> DiagnosticsCounters {
    let pcap = pcap_numbers(inputs.pcap);
    DiagnosticsCounters {
        lookup_hits: proc.lookup_hits,
        lookup_misses: proc.lookup_misses,
        lookup_no_candidate: proc.lookup_no_candidate,
        lookup_ambiguous: proc.lookup_ambiguous,
        lookup_stale: proc.lookup_stale,
        lookup_no_candidate_bytes: proc.lookup_no_candidate_bytes,
        lookup_ambiguous_bytes: proc.lookup_ambiguous_bytes,
        lookup_stale_bytes: proc.lookup_stale_bytes,
        lookup_v4_mapped_hits: proc.lookup_v4_mapped_hits,
        no_local_socket: proc.no_local_socket,
        refresh_requests: proc.refresh_requests,
        refresh_actual: proc.refresh_actual,
        refresh_success: proc.refresh_success,
        refresh_failure: proc.refresh_failure,
        refresh_records: proc.refresh_records,
        refresh_v4_mapped_records: proc.refresh_v4_mapped_records,
        probe_request_queued: inputs.pending.counters.probe_request_queued,
        probe_result_unique: inputs.pending.counters.probe_result_unique,
        probe_result_not_found: inputs.pending.counters.probe_result_not_found,
        probe_result_ambiguous: inputs.pending.counters.probe_result_ambiguous,
        probe_result_unavailable: inputs.pending.counters.probe_result_unavailable,
        probe_result_dropped: inputs.pending.counters.probe_result_dropped,
        probe_result_late: inputs.pending.counters.probe_result_late,
        probe_query_count: inputs.pending.probe_query_count,
        probe_query_ms: inputs.pending.probe_query_ms,
        pending_expired_bytes: inputs.pending.counters.pending_expired_bytes,
        pending_capacity_bytes: inputs.pending.counters.pending_capacity_bytes,
        probe_unique_pending_bytes: inputs.pending.counters.probe_unique_pending_bytes,
        probe_not_found_pending_bytes: inputs.pending.counters.probe_not_found_pending_bytes,
        probe_ambiguous_pending_bytes: inputs.pending.counters.probe_ambiguous_pending_bytes,
        probe_unavailable_pending_bytes: inputs.pending.counters.probe_unavailable_pending_bytes,
        ip_promotions: inputs.stats.ip_promotions,
        ip_demotions: inputs.stats.ip_demotions,
        ip_evictions_heavy: inputs.stats.ip_evictions_heavy,
        ip_evictions_rising: inputs.stats.ip_evictions_rising,
        ip_evictions_observation: inputs.stats.ip_evictions_observation,
        pcap_received: pcap.received,
        pcap_dropped: pcap.dropped,
        pcap_if_dropped: pcap.if_dropped,
    }
}

/// The sizes of a report.
pub open spec fn gauges_of(proc: ProcCounters, inputs: DiagnosticsInputs) -> DiagnosticsGauges {
    DiagnosticsGauges {
        flow_table_entries: inputs.flow_table_entries,
        process_entries: inputs.stats.process_entries,
        domain_entries: inputs.stats.domain_entries,
        last_refresh_ms: proc.last_refresh_duration_nanos / 1_000_000,
        pending_records: inputs.pending.records,
        pending_bytes: inputs.pending.bytes,
        probe_last_query_ms: inputs.pending.probe_last_query_ms,
    }
}

/// The sizes of the lists of addresses of a report.
pub open spec fn ip_of(inputs: DiagnosticsInputs) -> DiagnosticsIp {
    DiagnosticsIp {
        inbound_entries: inputs.stats.inbound_ip_entries,
        outbound_entries: inputs.stats.outbound_ip_entries,
        inbound_heavy_entries: inputs.stats.inbound_heavy_ip_entries,
        inbound_rising_entries: inputs.stats.inbound_rising_ip_entries,
        inbound_observation_entries: inputs.stats.inbound_observation_ip_entries,
        outbound_heavy_entries: inputs.stats.outbound_heavy_ip_entries,
        outbound_rising_entries: inputs.stats.outbound_rising_ip_entries,
        outbound_observation_entries: inputs.stats.outbound_observation_ip_entries,
    }
}

/// Why a lookup missed, in a word.
pub open spec fn reason_text(reason: LookupMissReason) -> Seq<char> {
    match reason {
        LookupMissReason::NoCandidate => "no_candidate"@,
        LookupMissReason::Ambiguous => "ambiguous"@,
        LookupMissReason::Stale => "stale"@,
    }
}

/// A transport protocol in a word.
pub open spec fn protocol_text(protocol: TransportProtocol) -> Seq<char> {
    match protocol {
        TransportProtocol::Tcp => "tcp"@,
        TransportProtocol::Udp => "udp"@,
    }
}

/// An address and a port with a colon between them.
pub open spec fn endpoint_text(ip: IpAddr, port: u16) -> Seq<char> {
    ip_text(ip) + seq![':'] + decimal(port as nat)
}

/// A missed lookup in words.
pub open spec fn sample_view(sample: LookupMissSample) -> MissSampleView {
    MissSampleView {
        reason: reason_text(sample.reason),
        protocol: protocol_text(sample.local_socket.protocol),
        local: endpoint_text(sample.local_socket.ip, sample.local_socket.port),
        peer: endpoint_text(sample.peer_ip, sample.peer_port),
    }
}

/// Missed lookups in words.
pub open spec fn sample_views(samples: Seq<LookupMissSample>) -> Seq<MissSampleView> {
    samples.map_values(|sample: LookupMissSample| sample_view(sample))
}

/// The words of missed lookups.
pub open spec fn told_views(samples: Seq<DiagnosticsMissSample>) -> Seq<MissSampleView> {
    samples.map_values(|sample: DiagnosticsMissSample| sample@)
}

fn endpoint_to_text(ip: IpAddr, port: u16) -> (text: String)
    ensures
        text@ == endpoint_text(ip, port),
{
    let mut text = String::new();
    push_ip(&mut text, ip);
    text.push(':');
    push_decimal(&mut text, port as u64);
    assert(text@ =~= endpoint_text(ip, port));
    text
}

/// A missed lookup in words.
pub fn miss_sample(sample: &LookupMissSample) -> (told: DiagnosticsMissSample)
    ensures
        told@ == sample_view(*sample),
{
    let reason = match sample.reason {
        LookupMissReason::NoCandidate => "no_candidate",
        LookupMissReason::Ambiguous => "ambiguous",
        LookupMissReason::Stale => "stale",
    };
    let protocol = match sample.local_socket.protocol {
        TransportProtocol::Tcp => "tcp",
        TransportProtocol::Udp => "udp",
    };
    DiagnosticsMissSample {
        reason: reason.to_owned(),
        protocol: protocol.to_owned(),
        local: endpoint_to_text(sample.local_socket.ip, sample.local_socket.port),
        peer: endpoint_to_text(sample.peer_ip, sample.peer_port),
    }
}

/// Whether a report is made of these parts.
pub open spec fn made_of(
    snapshot: DiagnosticsSnapshot,
    proc: ProcDiagnosticsSnapshot,
    inputs: DiagnosticsInputs,
) -> bool {
    &&& snapshot.counters == counters_of(proc.counters, inputs)
    &&& snapshot.gauges == gauges_of(proc.counters, inputs)
    &&& snapshot.ip == ip_of(inputs)
    &&& told_views(snapshot.miss_samples@) == sample_views(proc.lookup_miss_samples@)
}

fn counters_from(proc: &ProcCounters, inputs: &DiagnosticsInputs) -> (counters: DiagnosticsCounters)
    ensures
        counters == counters_of(*proc, *inputs),
{
    let pcap = match inputs.pcap {
        Some(numbers) => numbers,
        None => PcapNumbers { received: 0, dropped: 0, if_dropped: 0 },
    };
    DiagnosticsCounters {
        lookup_hits: proc.lookup_hits,
        lookup_misses: proc.lookup_misses,
        lookup_no_candidate: proc.lookup_no_candidate,
        lookup_ambiguous: proc.lookup_ambiguous,
        lookup_stale: proc.lookup_stale,
        lookup_no_candidate_bytes: proc.lookup_no_candidate_bytes,
        lookup_ambiguous_bytes: proc.lookup_ambiguous_bytes,
        lookup_stale_bytes: proc.lookup_stale_bytes,
        lookup_v4_mapped_hits: proc.lookup_v4_mapped_hits,
        no_local_socket: proc.no_local_socket,
        refresh_requests: proc.refresh_requests,
        refresh_actual: proc.refresh_actual,
        refresh_success: proc.refresh_success,
        refresh_failure: proc.refresh_failure,
        refresh_records: proc.refresh_records,
        refresh_v4_mapped_records: proc.refresh_v4_mapped_records,
        probe_request_queued: inputs.pending.counters.probe_request_queued,
        probe_result_unique: inputs.pending.counters.probe_result_unique,
        probe_result_not_found: inputs.pending.counters.probe_result_not_found,
        probe_result_ambiguous: inputs.pending.counters.probe_result_ambiguous,
        probe_result_unavailable: inputs.pending.counters.probe_result_unavailable,
        probe_result_dropped: inputs.pending.counters.probe_result_dropped,
        probe_result_late: inputs.pending.counters.probe_result_late,
        probe_query_count: inputs.pending.probe_query_count,
        probe_query_ms: inputs.pending.probe_query_ms,
        pending_expired_bytes: inputs.pending.counters.pending_expired_bytes,
        pending_capacity_bytes: inputs.pending.counters.pending_capacity_bytes,
        probe_unique_pending_bytes: inputs.pending.counters.probe_unique_pending_bytes,
        probe_not_found_pending_bytes: inputs.pending.counters.probe_not_found_pending_bytes,
        probe_ambiguous_pending_bytes: inputs.pending.counters.probe_ambiguous_pending_bytes,
        probe_unavailable_pending_bytes: inputs.pending.counters.probe_unavailable_pending_bytes,
        ip_promotions: inputs.stats.ip_promotions,
        ip_demotions: inputs.stats.ip_demotions,
        ip_evictions_heavy: inputs.stats.ip_evictions_heavy,
        ip_evictions_rising: inputs.stats.ip_evictions_rising,
        ip_evictions_observation: inputs.stats.ip_evictions_observation,
        pcap_received: pcap.received,
        pcap_dropped: pcap.dropped,
        pcap_if_dropped: pcap.if_dropped,
    }
}

/// The report of one moment, made of its parts.
pub fn from_parts(proc: &ProcDiagnosticsSnapshot, inputs: &DiagnosticsInputs) -> (snapshot:
    DiagnosticsSnapshot)
    ensures
        made_of(snapshot, *proc, *inputs),
{
    let counters = counters_from(&proc.counters, inputs);
    let gauges = DiagnosticsGauges {
        flow_table_entries: inputs.flow_table_entries,
        process_entries: inputs.stats.process_entries,
        domain_entries: inputs.stats.domain_entries,
        last_refresh_ms: proc.counters.last_refresh_duration_nanos / 1_000_000,
        pending_records: inputs.pending.records,
        pending_bytes: inputs.pending.bytes,
        probe_last_query_ms: inputs.pending.probe_last_query_ms,
    };
    let ip = DiagnosticsIp {
        inbound_entries: inputs.stats.inbound_ip_entries,
        outbound_entries: inputs.stats.outbound_ip_entries,
        inbound_heavy_entries: inputs.stats.inbound_heavy_ip_entries,
        inbound_rising_entries: inputs.stats.inbound_rising_ip_entries,
        inbound_observation_entries: inputs.stats.inbound_observation_ip_entries,
        outbound_heavy_entries: inputs.stats.outbound_heavy_ip_entries,
        outbound_rising_entries: inputs.stats.outbound_rising_ip_entries,
        outbound_observation_entries: inputs.stats.outbound_observation_ip_entries,
    };
    let mut miss_samples: Vec<DiagnosticsMissSample> = Vec::new();
    let mut i: usize = 0;
    while i < proc.lookup_miss_samples.len()
        invariant
            i <= proc.lookup_miss_samples@.len(),
            miss_samples@.len() == i,
            forall|k: int|
                0 <= k < i ==> (#[trigger] miss_samples@[k])@ == sample_view(
                    proc.lookup_miss_samples@[k],
                ),
        decreases proc.lookup_miss_samples@.len() - i,
    {
        miss_samples.push(miss_sample(&proc.lookup_miss_samples[i]));
        i += 1;
    }
    assert(told_views(miss_samples@) =~= sample_views(proc.lookup_miss_samples@));
    DiagnosticsSnapshot { counters, gauges, ip, miss_samples }
}

/// The report of one moment; none if a party failed while it held the process table. The
/// samples of the table are taken out.
pub fn collect(proc_table: &mut SharedProcTable, inputs: &DiagnosticsInputs) -> (snapshot: Option<
    DiagnosticsSnapshot,
>)
    ensures
        final(proc_table).poisoned == old(proc_table).poisoned,
        final(proc_table).table.same_owners(old(proc_table).table),
        final(proc_table).table.refresh == old(proc_table).table.refresh,
        final(proc_table).table.counters == old(proc_table).table.counters,
        old(proc_table).poisoned ==> snapshot is None && final(proc_table).table == old(
            proc_table,
        ).table,
        !old(proc_table).poisoned ==> {
            &&& snapshot matches Some(snapshot)
            &&& final(proc_table).table.lookup_miss_samples@.len() == 0
            &&& made_of(
                snapshot,
                ProcDiagnosticsSnapshot {
                    counters: old(proc_table).table.counters,
                    lookup_miss_samples: old(proc_table).table.lookup_miss_samples,
                },
                *inputs,
            )
        },
{
    if proc_table.poisoned {
        return None;
    }
    let proc = proc_table.table.diagnostics_snapshot();
    Some(from_parts(&proc, inputs))
}

/// What every record of a report starts with.
#[derive(Debug, PartialEq, Eq)]
pub struct RecordHeader {
    pub schema_version: u8,
    pub run_id: String,
    pub seq: u64,
    pub timestamp: String,
    pub interface: String,
}

/// What every record of a report starts with, as a mathematical value.
pub ghost struct HeaderView {
    pub schema_version: u8,
    pub run_id: Seq<char>,
    pub seq: u64,
    pub timestamp: Seq<char>,
    pub interface: Seq<char>,
}

impl View for RecordHeader {
    type V = HeaderView;

    open spec fn view(&self) -> HeaderView {
        HeaderView {
            schema_version: self.schema_version,
            run_id: self.run_id@,
            seq: self.seq,
            timestamp: self.timestamp@,
            interface: self.interface@,
        }
    }
}

/// A record of a report.
#[derive(Debug, PartialEq, Eq)]
pub enum DiagnosticsRecord {
    Snapshot {
        header: RecordHeader,
        counters: DiagnosticsCounters,
        gauges: DiagnosticsGauges,
        ip: DiagnosticsIp,
        miss_sample_count: usize,
    },
    LookupMissSample { header: RecordHeader, sample: DiagnosticsMissSample },
}

/// What the record of a kind is called.
pub open spec fn kind_text(record: DiagnosticsRecord) -> Seq<char> {
    match record {
        DiagnosticsRecord::Snapshot { .. } => "snapshot"@,
        DiagnosticsRecord::LookupMissSample { .. } => "lookup_miss_sample"@,
    }
}

impl DiagnosticsRecord {
    /// What the record of a kind is called.
    pub fn kind(&self) -> (kind: &'static str)
        ensures
            kind@ == kind_text(*self),
    {
        match self {
            DiagnosticsRecord::Snapshot { .. } => "snapshot",
            DiagnosticsRecord::LookupMissSample { .. } => "lookup_miss_sample",
        }
    }
}

/// Numbers the reports of a run.
#[derive(Debug)]
pub struct DiagnosticsWriter {
    pub run_id: String,
    pub sequence: u64,
}

/// A name with a time stamp and a process number.
pub open spec fn stamped(start: Seq<char>, stamp: Seq<char>, pid: u32, end: Seq<char>) -> Seq<char> {
    start + stamp + seq!['-'] + decimal(pid as nat) + end
}

fn stamped_name(start: &str, stamp: &str, pid: u32, end: &str) -> (name: String)
    ensures
        name@ == stamped(start@, stamp@, pid, end@),
{
    let mut name = start.to_owned();
    name.append(stamp);
    name.push('-');
    push_decimal(&mut name, pid as u64);
    name.append(end);
    assert(name@ =~= stamped(start@, stamp@, pid, end@));
    name
}

/// The file that reports go to unless told otherwise.
pub fn default_output_path(stamp: &str, pid: u32) -> (path: String)
    ensures
        path@ == stamped("flowlens-"@, stamp@, pid, ".log"@),
{
    stamped_name("flowlens-", stamp, pid, ".log")
}

/// Whether `records` are those of a report: the snapshot, then its missed lookups in their
/// order, all with the same header.
pub open spec fn records_of(
    records: Seq<DiagnosticsRecord>,
    header: HeaderView,
    snapshot: DiagnosticsSnapshot,
) -> bool {
    &&& records.len() == snapshot.miss_samples@.len() + 1
    &&& records[0] matches DiagnosticsRecord::Snapshot {
        header: first,
        counters,
        gauges,
        ip,
        miss_sample_count,
    }
    &&& first@ == header
    &&& counters == snapshot.counters
    &&& gauges == snapshot.gauges
    &&& ip == snapshot.ip
    &&& miss_sample_count == snapshot.miss_samples@.len()
    &&& forall|i: int|
        1 <= i < records.len() ==> tells_sample(
            #[trigger] records[i],
            header,
            snapshot.miss_samples@[i - 1]@,
        )
}

/// Whether a record tells of a missed lookup.
pub open spec fn tells_sample(
    record: DiagnosticsRecord,
    header: HeaderView,
    sample: MissSampleView,
) -> bool {
    &&& record matches DiagnosticsRecord::LookupMissSample { header: own, sample: told }
    &&& own@ == header
    &&& told@ == sample
}

impl DiagnosticsWriter {
    /// The writer of a run, before its first report.
    pub fn new(stamp: &str, pid: u32) -> (writer: Self)
        ensures
            writer.run_id@ == stamped(Seq::empty(), stamp@, pid, Seq::empty()),
            writer.sequence == 0,
    {
        let mut run_id = stamp.to_owned();
        run_id.push('-');
        push_decimal(&mut run_id, pid as u64);
        assert(run_id@ =~= stamped(Seq::empty(), stamp@, pid, Seq::empty()));
        DiagnosticsWriter { run_id, sequence: 0 }
    }

    fn header(&self, timestamp: &str, interface: &str) -> (header: RecordHeader)
        ensures
            header@ == (HeaderView {
                schema_version: SCHEMA_VERSION,
                run_id: self.run_id@,
                seq: self.sequence,
                timestamp: timestamp@,
                interface: interface@,
            }),
    {
        RecordHeader {
            schema_version: SCHEMA_VERSION,
            run_id: self.run_id.clone(),
            seq: self.sequence,
            timestamp: timestamp.to_owned(),
            interface: interface.to_owned(),
        }
    }

    /// The records of the next report: the snapshot, then its missed lookups, all under
    /// one number.
    pub fn write(&mut self, timestamp: &str, interface: &str, snapshot: &DiagnosticsSnapshot) -> (
        records: Vec<DiagnosticsRecord>)
        requires
            old(self).sequence < u64::MAX,
        ensures
            final(self).run_id == old(self).run_id,
            final(self).sequence == old(self).sequence + 1,
            records_of(
                records@,
                HeaderView {
                    schema_version: SCHEMA_VERSION,
                    run_id: old(self).run_id@,
                    seq: final(self).sequence,
                    timestamp: timestamp@,
                    interface: interface@,
                },
                *snapshot,
            ),
    {
        self.sequence = self.sequence + 1;
        let ghost header = HeaderView {
            schema_version: SCHEMA_VERSION,
            run_id: self.run_id@,
            seq: self.sequence,
            timestamp: timestamp@,
            interface: interface@,
        };
        let mut records: Vec<DiagnosticsRecord> = Vec::new();
        records.push(
            DiagnosticsRecord::Snapshot {
                header: self.header(timestamp, interface),
                counters: snapshot.counters,
                gauges: snapshot.gauges,
                ip: snapshot.ip,
                miss_sample_count: snapshot.miss_samples.len(),
            },
        );
        let ghost first = records@[0];
        let mut i: usize = 0;
        while i < snapshot.miss_samples.len()
            invariant
                i <= snapshot.miss_samples@.len(),
                self.run_id == old(self).run_id,
                self.sequence == old(self).sequence + 1,
                header == (HeaderView {
                    schema_version: SCHEMA_VERSION,
                    run_id: self.run_id@,
                    seq: self.sequence,
                    timestamp: timestamp@,
                    interface: interface@,
                }),
                records@.len() == i + 1,
                records@[0] == first,
                forall|k: int|
                    1 <= k < records@.len() ==> tells_sample(
                        #[trigger] records@[k],
                        header,
                        snapshot.miss_samples@[k - 1]@,
                    ),
            decreases snapshot.miss_samples@.len() - i,
        {
            let sample = &snapshot.miss_samples[i];
            records.push(
                DiagnosticsRecord::LookupMissSample {
                    header: self.header(timestamp, interface),
                    sample: DiagnosticsMissSample {
                        reason: sample.reason.clone(),
                        protocol: sample.protocol.clone(),
                        local: sample.local.clone(),
                        peer: sample.peer.clone(),
                    },
                },
            );
            i += 1;
        }
        records
    }
}

} // verus!
