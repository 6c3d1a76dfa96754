//! The capture of one interface: one result per packet, in both read modes.

use flowlens::capture::counters::CaptureCounters;
use flowlens::capture::parser::UnsupportedLink;
use flowlens::capture::source::{
    consume_pending_item, flow_table_capacity, CaptureReadMode, CaptureSource, CaptureStep,
    PendingCaptureItem, DEFAULT_DISPATCH_BATCH_SIZE, STATS_SAMPLE_INTERVAL,
};
use flowlens::capture::Flow;
use flowlens::domain_parse::DomainParser;
use flowlens::flow_table::{FlowTable, DEFAULT_FLOW_TABLE_CAPACITY};
use flowlens::net::IpAddr;
use flowlens::net::Direction;
use std::collections::VecDeque;

const ETHERNET: i32 = 1;

/// Why a read gave no result.
#[derive(Debug)]
enum ReadFailure {
    NoMorePackets,
    Link(UnsupportedLink),
}

/// A capture that reads its packets from a list.
struct Offline {
    source: CaptureSource<ExampleDomainParser>,
    frames: VecDeque<Vec<u8>>,
}

impl Offline {
    fn next(&mut self) -> Result<Option<Flow>, ReadFailure> {
        match self.source.next_step() {
            CaptureStep::Deliver(result) => result.map_err(ReadFailure::Link),
            CaptureStep::Read(CaptureReadMode::NextPacket) => {
                let frame = self.frames.pop_front().ok_or(ReadFailure::NoMorePackets)?;
                self.source.process_packet(&frame);
                self.source.take_result().map_err(ReadFailure::Link)
            }
            CaptureStep::Read(CaptureReadMode::Dispatch) => {
                let mut processed = 0;
                while processed < self.source.batch_size {
                    let Some(frame) = self.frames.pop_front() else {
                        break;
                    };
                    self.source.process_packet(&frame);
                    processed += 1;
                }
                self.source.batch_read(processed);
                self.source.take_result().map_err(ReadFailure::Link)
            }
        }
    }

    fn pcap_counters(&self) -> &CaptureCounters {
        &self.source.pcap_counters
    }
}

fn source_at(link_type: i32, read_mode: CaptureReadMode, is_offline: bool) -> CaptureSource<ExampleDomainParser> {
    CaptureSource::new(
        "offline-test".to_string(),
        link_type,
        local_ips(),
        ExampleDomainParser,
        FlowTable::with_capacity(1024),
        read_mode,
        is_offline,
        0,
    )
}

/// A capture of the given packets, read in the given mode.
fn offline_source(frames: &[Vec<u8>], read_mode: CaptureReadMode) -> Offline {
    Offline {
        source: source_at(ETHERNET, read_mode, true),
        frames: frames.iter().cloned().collect(),
    }
}

fn endpoints<T: Copy>(direction: Direction, local: T, remote: T) -> (T, T) {
    if direction == Direction::Outbound {
        (local, remote)
    } else {
        (remote, local)
    }
}

const LOCAL_V4: [u8; 4] = [192, 0, 2, 10];

const REMOTE_V4: [u8; 4] = [198, 51, 100, 5];

fn tcp_frame(direction: Direction, payload: &[u8]) -> Vec<u8> {
    let (source_port, destination_port) = endpoints(direction, 12_345u16, 443u16);
    let mut transport = Vec::new();
    transport.extend_from_slice(&source_port.to_be_bytes());
    transport.extend_from_slice(&destination_port.to_be_bytes());
    transport.extend_from_slice(&[0; 8]);
    transport.extend_from_slice(&[0x50, 2, 0, 0, 0, 0, 0, 0]);
    transport.extend_from_slice(payload);
    ipv4_ethernet_frame(direction, 6, &transport)
}

fn udp_frame(direction: Direction) -> Vec<u8> {
    let (source_port, destination_port) = endpoints(direction, 5_353u16, 53u16);
    let mut transport = Vec::new();
    transport.extend_from_slice(&source_port.to_be_bytes());
    transport.extend_from_slice(&destination_port.to_be_bytes());
    transport.extend_from_slice(&[0, 8, 0, 0]);
    ipv4_ethernet_frame(direction, 17, &transport)
}

fn ipv4_ethernet_frame(direction: Direction, protocol: u8, transport: &[u8]) -> Vec<u8> {
    let (source, destination) = endpoints(direction, LOCAL_V4, REMOTE_V4);
    let total_length = (20 + transport.len()) as u16;
    let mut packet = vec![0x45, 0];
    packet.extend_from_slice(&total_length.to_be_bytes());
    packet.extend_from_slice(&[0, 0, 0, 0, 64, protocol, 0, 0]);
    packet.extend_from_slice(&source);
    packet.extend_from_slice(&destination);
    packet.extend_from_slice(transport);
    let mut frame = vec![0, 1, 2, 3, 4, 5, 6, 7, 8, 9, 10, 11, 0x08, 0x00];
    frame.extend_from_slice(&packet);
    frame
}

fn non_local_ipv4_frame() -> Vec<u8> {
    // src/dst are both non-local -> NonLocal disposition (flow = None).
    // Well-formed UDP transport (protocol 17): etherparse needs a full
    // 8-byte UDP header; a truncated "TCP" frame would fail L4 parsing
    // and degrade to ParseError before the NonLocal check.
    let transport = vec![0x04, 0xd2, 0x01, 0xbb, 0, 8, 0, 0];
    let mut packet = vec![0x45, 0];
    packet.extend_from_slice(&((20 + transport.len()) as u16).to_be_bytes());
    packet.extend_from_slice(&[0, 0, 0, 0, 64, 17, 0, 0]);
    packet.extend_from_slice(&[203, 0, 113, 90]);
    packet.extend_from_slice(&[198, 51, 100, 90]);
    packet.extend_from_slice(&transport);
    let mut frame = vec![0, 1, 2, 3, 4, 5, 6, 7, 8, 9, 10, 11, 0x08, 0x00];
    frame.extend_from_slice(&packet);
    frame
}

fn arp_frame() -> Vec<u8> {
    // Not an IPv4/IPv6 ethertype -> NonIp disposition (flow = None).
    let mut frame = vec![0, 1, 2, 3, 4, 5, 6, 7, 8, 9, 10, 11, 0x08, 0x06];
    frame.extend_from_slice(&[0; 20]);
    frame
}

fn truncated_frame() -> Vec<u8> {
    // 8 zero bytes: too short for an Ethernet/IP frame. Etherparse rejects
    // it, producing the ParseError *disposition* (flow = None), which comes
    // out as Ok(None), not as an Err.
    vec![0; 8]
}

/// Deterministic parser: returns example.com for any non-empty outbound
/// TCP payload, else None. Verifies domain/flow-table parity.
#[derive(Clone)]
struct ExampleDomainParser;

impl DomainParser for ExampleDomainParser {
    fn parse_domain(&self, tcp_payload: &[u8]) -> Option<String> {
        (!tcp_payload.is_empty()).then_some("example.com".to_string())
    }
}

fn local_ips() -> Vec<IpAddr> {
    vec![IpAddr::V4(u32::from_be_bytes(LOCAL_V4))]
}

/// Compact projection of a `next()` result for exact cross-path equality.
#[derive(Clone, Debug, Eq, PartialEq)]
enum Trace {
    Flow(u64),
    Empty,
    Error,
}

fn trace_result(result: &Result<Option<Flow>, ReadFailure>) -> Trace {
    match result {
        Ok(Some(flow)) => Trace::Flow(flow.bytes),
        Ok(None) => Trace::Empty,
        Err(_) => Trace::Error,
    }
}

#[test]
fn dispatch_trace_matches_next_packet_on_mixed_frames() {
    let frames = vec![
        tcp_frame(
            Direction::Outbound,
            b"GET / HTTP/1.1\r\nHost: example.com\r\n\r\n",
        ),
        arp_frame(),
        udp_frame(Direction::Outbound),
        truncated_frame(),
        non_local_ipv4_frame(),
        tcp_frame(Direction::Inbound, b""),
        tcp_frame(Direction::Outbound, b"hello"),
    ];

    // Baseline: exactly one result per frame; read precisely N frames.
    let mut baseline_src = offline_source(&frames, CaptureReadMode::NextPacket);
    let baseline: Vec<Trace> = (0..frames.len())
        .map(|_| trace_result(&baseline_src.next()))
        .collect();

    // Dispatch: one result per frame plus one terminal Ok(None) at EOF
    // (dispatch reports EOF as a zero-count batch).
    let mut dispatch_src = offline_source(&frames, CaptureReadMode::Dispatch);
    let mut dispatch = Vec::new();
    while !dispatch_src.source.offline_exhausted {
        dispatch.push(trace_result(&dispatch_src.next()));
    }
    assert_eq!(
        dispatch.len(),
        frames.len() + 1,
        "frame results + terminal EOF"
    );
    assert_eq!(dispatch[..frames.len()], baseline[..], "per-packet parity");
    assert_eq!(dispatch[frames.len()], Trace::Empty, "EOF -> Ok(None)");
}

#[test]
fn dispatch_never_skips_ignored_packets() {
    // Only ignored traffic (ARP + non-local), interleaved with one flow.
    // The 3-byte payload TCP frame is 14+20+20+3 = 57 bytes on the wire.
    let frames = vec![
        arp_frame(),
        non_local_ipv4_frame(),
        tcp_frame(Direction::Outbound, b"GET"),
        arp_frame(),
    ];

    let mut source = offline_source(&frames, CaptureReadMode::Dispatch);
    let mut results = Vec::new();
    while !source.source.offline_exhausted {
        results.push(trace_result(&source.next()));
    }
    assert_eq!(
        results,
        vec![
            Trace::Empty,    // ARP -> Ok(None)
            Trace::Empty,    // non-local -> Ok(None)
            Trace::Flow(57), // flow
            Trace::Empty,    // ARP -> Ok(None)
            Trace::Empty,    // EOF -> Ok(None)
        ]
    );
}

#[test]
fn dispatch_surfaces_discarded_packets_in_position() {
    // A truncated frame is a ParseError *disposition*: it produces a flow
    // with no Flow (Ok(None)) exactly where the packet sat, on both paths.
    let frames = vec![
        tcp_frame(Direction::Outbound, b"one"),
        truncated_frame(),
        udp_frame(Direction::Outbound),
    ];

    let mut baseline_src = offline_source(&frames, CaptureReadMode::NextPacket);
    let baseline: Vec<Trace> = (0..frames.len())
        .map(|_| trace_result(&baseline_src.next()))
        .collect();

    let mut dispatch_src = offline_source(&frames, CaptureReadMode::Dispatch);
    let mut dispatch = Vec::new();
    while !dispatch_src.source.offline_exhausted {
        dispatch.push(trace_result(&dispatch_src.next()));
    }
    assert_eq!(dispatch[..frames.len()], baseline[..], "per-packet parity");
    assert_eq!(
        dispatch[..frames.len()],
        [
            Trace::Flow(57), // outbound TCP + 3-byte payload
            Trace::Empty,    // truncated frame -> Ok(None)
            Trace::Flow(42), // outbound UDP (14+20+8)
        ]
    );
}

#[test]
fn default_read_mode_is_dispatch() {
    assert_eq!(CaptureReadMode::default(), CaptureReadMode::Dispatch);
}

#[test]
fn pending_error_item_maps_to_a_single_error_result() {
    let mut pending = VecDeque::new();
    pending.push_back(PendingCaptureItem::Error(UnsupportedLink(999)));
    assert!(consume_pending_item(pending.pop_front().unwrap()).is_err());
}

#[test]
fn dispatch_empty_file_returns_empty_without_busy_waiting() {
    let frames: Vec<Vec<u8>> = Vec::new();

    let mut source = offline_source(&frames, CaptureReadMode::Dispatch);
    assert_eq!(trace_result(&source.next()), Trace::Empty);
    assert!(source.source.offline_exhausted, "empty file should be exhausted");
    assert!(source.source.pending.is_empty());
    // A second call must keep returning empty without re-entering pcap.
    assert_eq!(trace_result(&source.next()), Trace::Empty);
}

#[test]
fn dispatch_batch_size_is_bounded() {
    // More frames than the batch can hold: the queue never exceeds one
    // batch, and all packets are still surfaced one at a time.
    let frames: Vec<Vec<u8>> = (0..300)
        .map(|i| {
            if i % 2 == 0 {
                tcp_frame(Direction::Outbound, &[i as u8])
            } else {
                arp_frame()
            }
        })
        .collect();

    let mut source = offline_source(&frames, CaptureReadMode::Dispatch);
    let mut count_flows = 0;
    let mut count_empty = 0;
    let mut count_batches = 0;
    while !source.source.offline_exhausted {
        if source.source.pending.is_empty() {
            count_batches += 1;
        }
        match source.next() {
            Ok(Some(_)) => count_flows += 1,
            Ok(None) => count_empty += 1,
            Err(_) => panic!("unexpected parse error in bounded fixture"),
        }
        assert!(source.source.pending.len() <= source.source.batch_size);
    }
    assert_eq!(count_flows, 150);
    assert_eq!(count_empty, 150 + 1, "150 ignored + 1 EOF");
    assert!(count_batches >= 3, "300 frames / 128 batch -> >=3 fills");
}

#[test]
fn dispatch_records_stats_exactly_once_per_packet() {
    let frames = vec![
        tcp_frame(Direction::Outbound, b"a"),
        arp_frame(),
        truncated_frame(),
        non_local_ipv4_frame(),
    ];

    let mut source = offline_source(&frames, CaptureReadMode::Dispatch);
    while !source.source.offline_exhausted {
        let _ = source.next();
    }
    let counters = source.pcap_counters();
    assert_eq!(counters.packets_read, 4);
    assert_eq!(counters.flow_packets, 1);
    assert_eq!(counters.non_ip_packets, 1);
    assert_eq!(counters.non_local_ipv4_packets, 1);
    assert_eq!(counters.parse_error_packets, 1);
}

#[test]
fn dispatch_flow_table_domain_parity() {
    // Two outbound TCP frames on the same 5-tuple (same ports/ip), so
    // only the first triggers the domain parser; the second hits the
    // flow-table cache. A UDP frame has no domain.
    let frames = vec![
        tcp_frame(Direction::Outbound, b"first"),
        tcp_frame(Direction::Outbound, b"second"),
        udp_frame(Direction::Outbound),
    ];

    let mut baseline_src = offline_source(&frames, CaptureReadMode::NextPacket);
    let baseline_domains: Vec<Option<String>> = (0..frames.len())
        .map(|_| match baseline_src.next().ok().flatten() {
            Some(flow) => flow.domain.map(|d| d.to_string()),
            None => None,
        })
        .collect();

    let mut dispatch_src = offline_source(&frames, CaptureReadMode::Dispatch);
    let mut dispatch_domains = Vec::new();
    while !dispatch_src.source.offline_exhausted {
        match dispatch_src.next() {
            Ok(Some(flow)) => dispatch_domains.push(flow.domain.map(|d| d.to_string())),
            Ok(None) => dispatch_domains.push(None),
            Err(_) => dispatch_domains.push(None),
        }
    }
    dispatch_domains.pop(); // drop the EOF Ok(None)
    assert_eq!(dispatch_domains, baseline_domains, "domain results match");
    assert_eq!(
        dispatch_domains[0],
        Some("example.com".to_string()),
        "first outbound TCP payload resolves"
    );
    assert_eq!(
        dispatch_domains[1],
        Some("example.com".to_string()),
        "flow-table hit restores the domain"
    );
    assert_eq!(dispatch_domains[2], None, "UDP has no domain");
}

#[test]
fn next_packet_baseline_surfaces_eof_as_error_and_dispatch_as_empty() {
    let frames = vec![arp_frame()];

    let mut baseline_src = offline_source(&frames, CaptureReadMode::NextPacket);
    assert_eq!(
        trace_result(&baseline_src.next()),
        Trace::Empty,
        "ARP is ignored"
    );
    assert!(
        baseline_src.next().is_err(),
        "offline next_packet EOF -> Err(NoMorePackets)"
    );

    let mut dispatch_src = offline_source(&frames, CaptureReadMode::Dispatch);
    assert_eq!(
        trace_result(&dispatch_src.next()),
        Trace::Empty,
        "ARP is ignored"
    );
    assert_eq!(
        trace_result(&dispatch_src.next()),
        Trace::Empty,
        "dispatch EOF -> Ok(None)"
    );
}

#[test]
fn unsupported_link_type_gives_one_error_per_packet_and_counts_it() {
    let mut source = source_at(999, CaptureReadMode::Dispatch, true);
    source.process_packet(&arp_frame());
    source.process_packet(&arp_frame());
    source.batch_read(2);
    assert_eq!(source.pending.len(), 2);
    assert!(matches!(source.take_result(), Err(UnsupportedLink(999))));
    assert!(matches!(source.take_result(), Err(UnsupportedLink(999))));
    assert!(matches!(source.take_result(), Ok(None)));
    assert_eq!(source.pcap_counters.packets_read, 2);
    assert_eq!(source.pcap_counters.parse_error_packets, 2);
}

#[test]
fn quiet_interface_is_read_again() {
    let mut live = source_at(ETHERNET, CaptureReadMode::Dispatch, false);
    live.batch_read(0);
    assert!(!live.offline_exhausted);
    assert!(matches!(live.next_step(), CaptureStep::Read(CaptureReadMode::Dispatch)));

    let mut file = source_at(ETHERNET, CaptureReadMode::Dispatch, true);
    file.batch_read(0);
    assert!(file.offline_exhausted);
    assert!(matches!(file.next_step(), CaptureStep::Deliver(Ok(None))));
}

#[test]
fn statistics_are_due_once_a_second() {
    let mut source = source_at(ETHERNET, CaptureReadMode::Dispatch, false);
    assert!(!source.stats_due(STATS_SAMPLE_INTERVAL - 1));
    assert!(source.stats_due(STATS_SAMPLE_INTERVAL));
    assert!(!source.stats_due(STATS_SAMPLE_INTERVAL));
    assert!(!source.stats_due(0));
    assert!(source.stats_due(2 * STATS_SAMPLE_INTERVAL));
}

#[test]
fn zero_capacity_asks_for_the_default_one() {
    assert_eq!(flow_table_capacity(0), DEFAULT_FLOW_TABLE_CAPACITY);
    assert_eq!(flow_table_capacity(7), 7);
}

#[test]
fn new_capture_has_nothing_pending() {
    let source = source_at(ETHERNET, CaptureReadMode::NextPacket, true);
    assert_eq!(source.interface_name, "offline-test");
    assert!(source.pending.is_empty());
    assert_eq!(source.batch_size, DEFAULT_DISPATCH_BATCH_SIZE);
    assert_eq!(source.pcap_counters.local_ips, local_ips());
    assert_eq!(source.flow_table_entry_count(), 0);
}

#[test]
fn failed_batch_gives_no_results() {
    let mut source = source_at(ETHERNET, CaptureReadMode::Dispatch, false);
    let frame = tcp_frame(Direction::Outbound, b"");
    source.process_packet(&frame);
    source.process_packet(&frame);
    assert_eq!(source.pending.len(), 2);
    source.batch_failed();
    assert!(source.pending.is_empty());
    assert_eq!(source.pcap_counters.packets_read, 2);
    assert!(matches!(source.next_step(), CaptureStep::Read(CaptureReadMode::Dispatch)));
}

#[test]
fn no_more_connections_are_counted_than_were_learned_of() {
    let mut source = source_at(ETHERNET, CaptureReadMode::NextPacket, false);
    for _ in 0..3 {
        source.process_packet(&tcp_frame(Direction::Outbound, b"payload"));
        assert!(source.flow_table_entry_count() <= 1);
    }
    source.flow_table.run_pending_tasks();
    assert_eq!(source.flow_table_entry_count(), 1);
}
