//! What becomes of captured frames, and of the interfaces they are captured on.

use std::cell::Cell;

use flowlens::capture::counters::{
    CaptureCounters, NonLocalEndpointSample, NON_LOCAL_ENDPOINT_SAMPLE_INTERVAL,
    NON_LOCAL_ENDPOINT_SAMPLE_LIMIT,
};
use flowlens::capture::interfaces::{
    collect_local_ips_with_native, default_interface, format_interface_list,
    interface_catalog_from_devices, select_device, Device, InterfaceInfo, InterfaceLabelOrder,
};
use flowlens::capture::parser::{
    flow_key_from, parse, parse_uncached, parse_with_domain_parser_outcome, settle_domain,
    FlowParseOutcome,
    IpVersion, PacketDisposition, UnsupportedLink, LINKTYPE_ETHERNET, LINKTYPE_IPV4,
    LINKTYPE_IPV6, LINKTYPE_LINUX_SLL, LINKTYPE_LINUX_SLL2, LINKTYPE_LOOP, LINKTYPE_NULL,
    LINKTYPE_RAW, LINUX_DLT_RAW,
};
use flowlens::capture::Flow;
use flowlens::domain_parse::DomainParser;
use flowlens::flow_table::{FlowEntry, FlowTable, MAX_NO_DOMAIN_PARSE_ATTEMPTS};
use flowlens::net::{Direction, IpAddr, LocalSocket, TransportProtocol};
use flowlens::stats::{Evidence, ObservedProcess, ProcFlowKey, Stats};
use flowlens::traffic::{ProcessIdentity, TrafficTotals};

struct Linktype;

impl Linktype {
    const ETHERNET: i32 = LINKTYPE_ETHERNET;
    const RAW: i32 = LINKTYPE_RAW;
    const IPV4: i32 = LINKTYPE_IPV4;
    const IPV6: i32 = LINKTYPE_IPV6;
    const NULL: i32 = LINKTYPE_NULL;
    const LOOP: i32 = LINKTYPE_LOOP;
    const LINUX_SLL: i32 = LINKTYPE_LINUX_SLL;
    const LINUX_SLL2: i32 = LINKTYPE_LINUX_SLL2;
}

struct Ipv4Addr;

impl Ipv4Addr {
    fn new(a: u8, b: u8, c: u8, d: u8) -> u32 {
        u32::from_be_bytes([a, b, c, d])
    }
}

fn ip(text: &str) -> IpAddr {
    match text {
        "2001:db8::10" => IpAddr::V6(0x2001_0db8_0000_0000_0000_0000_0000_0010),
        "::1" => IpAddr::V6(1),
        dotted => {
            let octets: Vec<u8> = dotted.split('.').map(|octet| octet.parse().unwrap()).collect();
            IpAddr::v4(octets[0], octets[1], octets[2], octets[3])
        }
    }
}

fn discarded(disposition: PacketDisposition) -> FlowParseOutcome {
    FlowParseOutcome { disposition, flow: None }
}

fn parse_with_domain_parser<P: DomainParser>(
    link_type: i32,
    data: &[u8],
    local_ips: &Vec<IpAddr>,
    parser: &P,
    table: Option<&mut FlowTable>,
) -> Result<Option<Flow>, UnsupportedLink> {
    let outcome = match table {
        Some(table) => parse_with_domain_parser_outcome(link_type, data, local_ips, parser, table),
        None => parse_uncached(link_type, data, local_ips, parser),
    };
    outcome.map(|outcome| outcome.flow)
}

fn address_family(version: IpVersion) -> u32 {
    match version {
        IpVersion::V4 => 2,
        IpVersion::V6 => 10,
    }
}

fn device(name: &str, desc: Option<&str>) -> Device {
    Device {
        name: name.to_string(),
        desc: desc.map(str::to_string),
        addresses: Vec::new(),
        is_loopback: false,
    }
}

#[derive(Clone, Copy)]
struct ExpectedFlow {
    direction: Direction,
    peer: IpAddr,
    peer_port: u16,
    local_ip: IpAddr,
    local_port: u16,
    protocol: TransportProtocol,
    bytes: u64,
}

/// Test stub: records the call count with a configurable result.
///
/// Used by capture-layer seam tests to verify call timing and payload
/// pass-through.
struct RecordingParser {
    calls: Cell<usize>,
    result: Option<String>,
}

impl RecordingParser {
    fn new(result: Option<String>) -> Self {
        Self {
            calls: Cell::new(0),
            result,
        }
    }

    fn call_count(&self) -> usize {
        self.calls.get()
    }
}

impl DomainParser for RecordingParser {
    fn parse_domain(&self, _tcp_payload: &[u8]) -> Option<String> {
        self.calls.set(self.calls.get() + 1);
        self.result.clone()
    }
}

fn outbound_tcp_ethernet_frame(payload: &[u8]) -> Vec<u8> {
    tcp_ethernet_frame(Direction::Outbound, payload)
}

fn inbound_tcp_ethernet_frame(payload: &[u8]) -> Vec<u8> {
    tcp_ethernet_frame(Direction::Inbound, payload)
}

fn tcp_ethernet_frame(direction: Direction, payload: &[u8]) -> Vec<u8> {
    let mut transport = fixed_transport(TransportProtocol::Tcp, direction);
    transport.extend_from_slice(payload);
    let local = [192, 0, 2, 10];
    let remote = [198, 51, 100, 5];
    let (source, destination) = endpoints(direction, local, remote);
    let ip_packet = ipv4_packet_between(
        source,
        destination,
        ip_protocol(TransportProtocol::Tcp),
        (20 + transport.len()) as u16,
        &transport,
    );
    add_link_header(Linktype::ETHERNET, IpVersion::V4, ip_packet)
}

fn ipv4_frame(protocol: u8, total_length: u16, transport: &[u8]) -> Vec<u8> {
    let mut frame = vec![0, 1, 2, 3, 4, 5, 6, 7, 8, 9, 10, 11, 0x08, 0x00];
    frame.extend_from_slice(&ipv4_packet_between(
        [192, 0, 2, 10],
        [198, 51, 100, 5],
        protocol,
        total_length,
        transport,
    ));
    frame
}

fn fixed_ip_packet(version: IpVersion, protocol: TransportProtocol) -> (Vec<u8>, ExpectedFlow) {
    let direction = if protocol == TransportProtocol::Tcp {
        Direction::Inbound
    } else {
        Direction::Outbound
    };
    let transport = fixed_transport(protocol, direction);
    let (packet, local_ip, peer) = match version {
        IpVersion::V4 => {
            let local = [192, 0, 2, 10];
            let remote = [198, 51, 100, 5];
            let (source, destination) = endpoints(direction, local, remote);
            (
                ipv4_packet_between(
                    source,
                    destination,
                    ip_protocol(protocol),
                    (20 + transport.len()) as u16,
                    &transport,
                ),
                IpAddr::V4(u32::from_be_bytes(local)),
                IpAddr::V4(u32::from_be_bytes(remote)),
            )
        }
        IpVersion::V6 => {
            let local = [0x20, 1, 0x0d, 0xb8, 0, 0, 0, 0, 0, 0, 0, 0, 0, 0, 0, 0x10];
            let remote = [0x20, 1, 0x0d, 0xb8, 0, 0, 0, 0, 0, 0, 0, 0, 0, 0, 0, 5];
            let (source, destination) = endpoints(direction, local, remote);
            (
                ipv6_packet_between(source, destination, ip_protocol(protocol), &transport),
                IpAddr::V6(u128::from_be_bytes(local)),
                IpAddr::V6(u128::from_be_bytes(remote)),
            )
        }
    };
    let local_port = if protocol == TransportProtocol::Tcp {
        12_345
    } else {
        5_353
    };
    let peer_port = if protocol == TransportProtocol::Tcp {
        443
    } else {
        53
    };
    (
        packet,
        ExpectedFlow {
            direction,
            peer,
            peer_port,
            local_ip,
            local_port,
            protocol,
            bytes: 0,
        },
    )
}

fn fixed_transport(protocol: TransportProtocol, direction: Direction) -> Vec<u8> {
    let local_port = if protocol == TransportProtocol::Tcp {
        12_345_u16
    } else {
        5_353_u16
    };
    let remote_port = if protocol == TransportProtocol::Tcp {
        443_u16
    } else {
        53_u16
    };
    let (source_port, destination_port) = endpoints(direction, local_port, remote_port);
    let mut transport = Vec::new();
    transport.extend_from_slice(&source_port.to_be_bytes());
    transport.extend_from_slice(&destination_port.to_be_bytes());
    match protocol {
        TransportProtocol::Tcp => {
            transport.extend_from_slice(&[0; 8]);
            transport.extend_from_slice(&[0x50, 2, 0, 0, 0, 0, 0, 0]);
        }
        TransportProtocol::Udp => transport.extend_from_slice(&[0, 8, 0, 0]),
    }
    transport
}

fn endpoints<T: Copy>(direction: Direction, local: T, remote: T) -> (T, T) {
    if direction == Direction::Outbound {
        (local, remote)
    } else {
        (remote, local)
    }
}

fn ip_protocol(protocol: TransportProtocol) -> u8 {
    match protocol {
        TransportProtocol::Tcp => 6,
        TransportProtocol::Udp => 17,
    }
}

fn ipv4_packet_between(
    source: [u8; 4],
    destination: [u8; 4],
    protocol: u8,
    total_length: u16,
    transport: &[u8],
) -> Vec<u8> {
    let mut packet = vec![0x45, 0];
    packet.extend_from_slice(&total_length.to_be_bytes());
    packet.extend_from_slice(&[0, 0, 0, 0, 64, protocol, 0, 0]);
    packet.extend_from_slice(&source);
    packet.extend_from_slice(&destination);
    packet.extend_from_slice(transport);
    packet
}

fn ipv6_packet_between(
    source: [u8; 16],
    destination: [u8; 16],
    next_header: u8,
    transport: &[u8],
) -> Vec<u8> {
    let mut packet = vec![0x60, 0, 0, 0];
    packet.extend_from_slice(&(transport.len() as u16).to_be_bytes());
    packet.extend_from_slice(&[next_header, 64]);
    packet.extend_from_slice(&source);
    packet.extend_from_slice(&destination);
    packet.extend_from_slice(transport);
    packet
}

fn add_link_header(link_type: i32, version: IpVersion, packet: Vec<u8>) -> Vec<u8> {
    let ether_type = match version {
        IpVersion::V4 => [0x08, 0x00],
        IpVersion::V6 => [0x86, 0xdd],
    };
    let mut header = if link_type == Linktype::ETHERNET {
        let mut header = vec![0, 1, 2, 3, 4, 5, 6, 7, 8, 9, 10, 11];
        header.extend_from_slice(&ether_type);
        header
    } else if link_type == Linktype::NULL {
        address_family(version).to_ne_bytes().to_vec()
    } else if link_type == Linktype::LOOP {
        address_family(version).to_be_bytes().to_vec()
    } else if link_type == Linktype::LINUX_SLL {
        let mut header = vec![0, 0, 0, 1, 0, 6, 0, 1, 2, 3, 4, 5, 0, 0];
        header.extend_from_slice(&ether_type);
        header
    } else if link_type == Linktype::LINUX_SLL2 {
        let mut header = ether_type.to_vec();
        header.extend_from_slice(&[0, 0, 0, 0, 0, 1, 0, 1, 0, 6, 0, 1, 2, 3, 4, 5, 0, 0]);
        header
    } else {
        Vec::new()
    };
    header.extend_from_slice(&packet);
    header
}

fn set_sll_packet_type(packet: &mut [u8], link_type: i32, packet_type: u16) {
    if link_type == Linktype::LINUX_SLL {
        packet[..2].copy_from_slice(&packet_type.to_be_bytes());
    } else if link_type == Linktype::LINUX_SLL2 {
        packet[10] = packet_type as u8;
    }
}

fn assert_flow(flow: Flow, expected: ExpectedFlow) {
    assert!(flow.direction == expected.direction);
    assert_eq!(flow.peer, expected.peer);
    assert_eq!(flow.peer_port, Some(expected.peer_port));
    assert_eq!(flow.bytes, expected.bytes);
    let socket = flow.local_socket.expect("local socket");
    assert_eq!(socket.ip, expected.local_ip);
    assert_eq!(socket.port, expected.local_port);
    assert_eq!(socket.protocol, expected.protocol);
}

#[test]
fn mod_non_tcp_udp_flow_has_no_local_socket() {
    let local_ip = Ipv4Addr::new(192, 0, 2, 10);
    let local_ips = vec![IpAddr::V4(local_ip)];

    let icmp = parse(
        Linktype::ETHERNET,
        &ipv4_frame(1, 28, &[8, 0, 0, 0, 0, 0, 0, 0]),
        &local_ips,
    )
    .expect("supported data link")
    .expect("outbound ICMP flow");

    assert!(icmp.local_socket.is_none());
}

#[test]
fn capture_diagnostics_refreshes_samples_during_long_non_local_streams() {
    let mut counters = CaptureCounters::with_local_ips(&Vec::new());
    let initial = NonLocalEndpointSample {
        src: ip("10.0.0.1"),
        dst: ip("198.51.100.1"),
    };
    let later = NonLocalEndpointSample {
        src: ip("10.0.0.2"),
        dst: ip("198.51.100.2"),
    };

    for _ in 0..NON_LOCAL_ENDPOINT_SAMPLE_LIMIT {
        counters.record_packet(
            64,
            &discarded(PacketDisposition::NonLocal {
                version: IpVersion::V4,
                src: initial.src,
                dst: initial.dst,
            }),
        );
    }
    for _ in 0..NON_LOCAL_ENDPOINT_SAMPLE_INTERVAL {
        counters.record_packet(
            1_500,
            &discarded(PacketDisposition::NonLocal {
                version: IpVersion::V4,
                src: later.src,
                dst: later.dst,
            }),
        );
    }

    let snapshot = counters.diagnostics_snapshot();
    assert_eq!(
        snapshot.non_local_ipv4_samples.len(),
        NON_LOCAL_ENDPOINT_SAMPLE_LIMIT
    );
    assert!(snapshot.non_local_ipv4_samples.contains(&later));
}

#[test]
fn mod_flow_carries_optional_domain_field() {
    let flow = Flow {
        direction: Direction::Outbound,
        peer: IpAddr::V4(Ipv4Addr::new(192, 0, 2, 1)),
        peer_port: None,
        bytes: 0,
        local_socket: None,
        peer_local_socket: None,
        domain: Some("example.com".to_string()),
    };

    assert_eq!(flow.domain.as_deref(), Some("example.com"));
}

#[test]
fn mod_parsed_flow_defaults_to_no_domain() {
    let local_ip = Ipv4Addr::new(192, 0, 2, 10);
    let local_ips = vec![IpAddr::V4(local_ip)];

    let icmp = parse(
        Linktype::ETHERNET,
        &ipv4_frame(1, 28, &[8, 0, 0, 0, 0, 0, 0, 0]),
        &local_ips,
    )
    .expect("supported data link")
    .expect("outbound ICMP flow");

    assert!(icmp.domain.is_none());
}

#[test]
fn mod_outbound_tcp_packet_with_payload_invokes_domain_parser() {
    let parser = RecordingParser::new(Some("example.com".to_string()));
    let local_ips = vec![IpAddr::V4(Ipv4Addr::new(192, 0, 2, 10))];
    let packet = outbound_tcp_ethernet_frame(b"GET / HTTP/1.1\r\nHost: example.com\r\n\r\n");

    let flow =
        parse_with_domain_parser(Linktype::ETHERNET, &packet, &local_ips, &parser, None)
            .expect("supported data link")
            .expect("outbound TCP flow");

    assert_eq!(flow.direction, Direction::Outbound);
    assert_eq!(flow.domain.as_deref(), Some("example.com"));
    assert_eq!(parser.call_count(), 1);
}

#[test]
fn mod_inbound_tcp_packet_skips_domain_parser() {
    let parser = RecordingParser::new(Some("example.com".to_string()));
    let local_ips = vec![IpAddr::V4(Ipv4Addr::new(192, 0, 2, 10))];
    let packet = inbound_tcp_ethernet_frame(b"HTTP/1.1 200 OK\r\nContent-Length: 0\r\n\r\n");

    let flow =
        parse_with_domain_parser(Linktype::ETHERNET, &packet, &local_ips, &parser, None)
            .expect("supported data link")
            .expect("inbound TCP flow");

    assert_eq!(flow.direction, Direction::Inbound);
    assert!(flow.domain.is_none());
    assert_eq!(parser.call_count(), 0);
}

#[test]
fn mod_outbound_tcp_packet_without_payload_skips_domain_parser() {
    let parser = RecordingParser::new(Some("example.com".to_string()));
    let local_ips = vec![IpAddr::V4(Ipv4Addr::new(192, 0, 2, 10))];
    let packet = outbound_tcp_ethernet_frame(&[]);

    let flow =
        parse_with_domain_parser(Linktype::ETHERNET, &packet, &local_ips, &parser, None)
            .expect("supported data link")
            .expect("outbound TCP flow");

    assert_eq!(flow.direction, Direction::Outbound);
    assert!(flow.domain.is_none());
    assert_eq!(parser.call_count(), 0);
}

#[test]
fn mod_outbound_udp_packet_skips_domain_parser() {
    let parser = RecordingParser::new(Some("example.com".to_string()));
    let local_ips = vec![IpAddr::V4(Ipv4Addr::new(192, 0, 2, 10))];
    let (ip_packet, _) = fixed_ip_packet(IpVersion::V4, TransportProtocol::Udp);
    let packet = add_link_header(Linktype::ETHERNET, IpVersion::V4, ip_packet);

    let flow =
        parse_with_domain_parser(Linktype::ETHERNET, &packet, &local_ips, &parser, None)
            .expect("supported data link")
            .expect("outbound UDP flow");

    assert_eq!(flow.direction, Direction::Outbound);
    assert!(flow.domain.is_none());
    assert_eq!(parser.call_count(), 0);
}

#[test]
fn mod_outbound_tcp_payload_with_parser_returning_none_leaves_domain_unset() {
    let parser = RecordingParser::new(None);
    let local_ips = vec![IpAddr::V4(Ipv4Addr::new(192, 0, 2, 10))];
    let packet = outbound_tcp_ethernet_frame(b"\x16\x03\x01\x00\x00");

    let flow =
        parse_with_domain_parser(Linktype::ETHERNET, &packet, &local_ips, &parser, None)
            .expect("supported data link")
            .expect("outbound TCP flow");

    assert!(flow.domain.is_none());
    assert_eq!(parser.call_count(), 1);
}

// ── flow table + parser cooperation ─────────────────────────────

#[test]
fn mod_flow_table_hit_resolved_skips_parser_and_sets_domain() {
    // First packet: the parser returns "cached.example" -> the table stores Resolved.
    let mut table = FlowTable::new();
    let local_ips = vec![IpAddr::V4(Ipv4Addr::new(192, 0, 2, 10))];
    let packet = outbound_tcp_ethernet_frame(b"GET / HTTP/1.1\r\nHost: ignored\r\n\r\n");

    let first = parse_with_domain_parser(
        Linktype::ETHERNET,
        &packet,
        &local_ips,
        &RecordingParser::new(Some("cached.example".to_string())),
        Some(&mut table),
    )
    .expect("supported data link")
    .expect("outbound TCP flow");
    assert_eq!(first.domain.as_deref(), Some("cached.example"));

    // Second packet with the same 5-tuple: hits Resolved, skips the parser, returns the cached domain.
    let second_parser = RecordingParser::new(Some("would-not-be-used.com".to_string()));
    let flow = parse_with_domain_parser(
        Linktype::ETHERNET,
        &packet,
        &local_ips,
        &second_parser,
        Some(&mut table),
    )
    .expect("supported data link")
    .expect("outbound TCP flow");

    assert_eq!(flow.domain.as_deref(), Some("cached.example"));
    assert_eq!(second_parser.call_count(), 0, "命中 Resolved 不应调 parser");
}

#[test]
fn flow_table_hit_no_domain_retries_and_can_resolve() {
    // After the first parse fails, later payloads on the same 5-tuple should allow bounded retries.
    let parser = RecordingParser::new(Some("would-be.com".to_string()));
    let mut table = FlowTable::new();
    let local_ips = vec![IpAddr::V4(Ipv4Addr::new(192, 0, 2, 10))];
    let packet = outbound_tcp_ethernet_frame(b"\x16\x03\x01\x00\x00");

    // First packet's parse fails -> the table stores a one-attempt failure record.
    let first = parse_with_domain_parser(
        Linktype::ETHERNET,
        &packet,
        &local_ips,
        &RecordingParser::new(None),
        Some(&mut table),
    )
    .expect("supported data link")
    .expect("outbound TCP flow");
    assert!(first.domain.is_none());
    let key = flow_key_from(&first).expect("TCP flow has a 5-tuple key");
    assert!(matches!(
        table.lookup(&key),
        Some(FlowEntry::NoDomain { attempts: 1 })
    ));

    // Second packet, same 5-tuple: the parser is retried and succeeds.
    let flow = parse_with_domain_parser(
        Linktype::ETHERNET,
        &packet,
        &local_ips,
        &parser,
        Some(&mut table),
    )
    .expect("supported data link")
    .expect("outbound TCP flow");

    assert_eq!(flow.domain.as_deref(), Some("would-be.com"));
    assert_eq!(parser.call_count(), 1, "命中 NoDomain 且未达上限时应重试");
    assert!(matches!(
        table.lookup(&key),
        Some(FlowEntry::Resolved(domain))
            if domain == "would-be.com"
    ));
}

#[test]
fn flow_table_hit_no_domain_stops_after_retry_limit() {
    let parser = RecordingParser::new(None);
    let mut table = FlowTable::new();
    let local_ips = vec![IpAddr::V4(Ipv4Addr::new(192, 0, 2, 10))];
    let packet = outbound_tcp_ethernet_frame(b"\x16\x03\x01\x00\x00");

    for _ in 0..=MAX_NO_DOMAIN_PARSE_ATTEMPTS {
        let flow = parse_with_domain_parser(
            Linktype::ETHERNET,
            &packet,
            &local_ips,
            &parser,
            Some(&mut table),
        )
        .expect("supported data link")
        .expect("outbound TCP flow");
        assert!(flow.domain.is_none());
    }

    assert_eq!(
        parser.call_count(),
        usize::from(MAX_NO_DOMAIN_PARSE_ATTEMPTS),
        "达到 NoDomain 重试上限后应停止调用 parser"
    );
}

#[test]
fn mod_flow_table_miss_invokes_parser_and_populates_resolved() {
    let parser = RecordingParser::new(Some("first-packet.example".to_string()));
    let mut table = FlowTable::new();
    let local_ips = vec![IpAddr::V4(Ipv4Addr::new(192, 0, 2, 10))];
    let packet =
        outbound_tcp_ethernet_frame(b"GET / HTTP/1.1\r\nHost: first-packet.example\r\n\r\n");

    let flow = parse_with_domain_parser(
        Linktype::ETHERNET,
        &packet,
        &local_ips,
        &parser,
        Some(&mut table),
    )
    .expect("supported data link")
    .expect("outbound TCP flow");

    assert_eq!(flow.domain.as_deref(), Some("first-packet.example"));
    assert_eq!(parser.call_count(), 1);

    // The table should now hold Resolved.
    let key = flow_key_from(&flow).expect("TCP flow has a 5-tuple key");
    match table.lookup(&key) {
        Some(FlowEntry::Resolved(d)) => {
            assert_eq!(d.as_str(), "first-packet.example");
        }
        other => panic!("流表应写入 Resolved，得到 {other:?}"),
    }
}

#[test]
fn mod_flow_table_miss_with_parser_none_populates_no_domain() {
    let parser = RecordingParser::new(None);
    let mut table = FlowTable::new();
    let local_ips = vec![IpAddr::V4(Ipv4Addr::new(192, 0, 2, 10))];
    let packet = outbound_tcp_ethernet_frame(b"\x16\x03\x01\x00\x00");

    let flow = parse_with_domain_parser(
        Linktype::ETHERNET,
        &packet,
        &local_ips,
        &parser,
        Some(&mut table),
    )
    .expect("supported data link")
    .expect("outbound TCP flow");

    assert!(flow.domain.is_none());
    let key = flow_key_from(&flow).expect("TCP flow has a 5-tuple key");
    assert!(matches!(
        table.lookup(&key),
        Some(FlowEntry::NoDomain { attempts: 1 })
    ));
}

#[test]
fn mod_flow_table_distinct_five_tuples_are_independent() {
    // Two distinct connections (different peer IPs) should each get one first-packet parse.
    let parser = RecordingParser::new(Some("example.com".to_string()));
    let mut table = FlowTable::new();
    let local_ips = vec![IpAddr::V4(Ipv4Addr::new(192, 0, 2, 10))];
    let packet_a = outbound_tcp_ethernet_frame(b"GET / HTTP/1.1\r\nHost: example.com\r\n\r\n");

    // The second packet changes the peer IP (building a different 5-tuple).
    let mut transport = fixed_transport(TransportProtocol::Tcp, Direction::Outbound);
    transport.extend_from_slice(b"GET / HTTP/1.1\r\nHost: example.com\r\n\r\n");
    let packet_b = add_link_header(
        Linktype::ETHERNET,
        IpVersion::V4,
        ipv4_packet_between(
            [192, 0, 2, 10],
            [203, 0, 113, 99], // different peer IP
            ip_protocol(TransportProtocol::Tcp),
            (20 + transport.len()) as u16,
            &transport,
        ),
    );

    parse_with_domain_parser(
        Linktype::ETHERNET,
        &packet_a,
        &local_ips,
        &parser,
        Some(&mut table),
    )
    .expect("supported data link");
    parse_with_domain_parser(
        Linktype::ETHERNET,
        &packet_b,
        &local_ips,
        &parser,
        Some(&mut table),
    )
    .expect("supported data link");

    assert_eq!(parser.call_count(), 2, "两条不同连接应各自解析一次");
}

#[test]
fn mod_inbound_flow_looks_up_flow_table_to_restore_domain() {
    // Bidirectional accounting: after the outbound first packet fills
    // the table, the inbound reply looks the domain up so peer replies
    // accumulate into that domain's in_bytes; inbound does not parse the
    // payload (outbound perspective).
    let mut table = FlowTable::new();
    let local_ips = vec![IpAddr::V4(Ipv4Addr::new(192, 0, 2, 10))];

    let outbound = outbound_tcp_ethernet_frame(b"GET / HTTP/1.1\r\nHost: example.com\r\n\r\n");
    let outbound_flow = parse_with_domain_parser(
        Linktype::ETHERNET,
        &outbound,
        &local_ips,
        &RecordingParser::new(Some("example.com".to_string())),
        Some(&mut table),
    )
    .expect("supported data link")
    .expect("outbound TCP flow");
    assert_eq!(outbound_flow.domain.as_deref(), Some("example.com"));

    let inbound_parser = RecordingParser::new(Some("would-not-be-used.com".to_string()));
    let inbound = inbound_tcp_ethernet_frame(b"HTTP/1.1 200 OK\r\nContent-Length: 0\r\n\r\n");
    let inbound_flow = parse_with_domain_parser(
        Linktype::ETHERNET,
        &inbound,
        &local_ips,
        &inbound_parser,
        Some(&mut table),
    )
    .expect("supported data link")
    .expect("inbound TCP flow");

    assert_eq!(inbound_flow.direction, Direction::Inbound);
    assert_eq!(
        inbound_flow.domain.as_deref(),
        Some("example.com"),
        "Inbound 回包应查流表补 domain（双向统计）"
    );
    assert_eq!(inbound_parser.call_count(), 0, "Inbound 不应解析 payload");
}

#[test]
fn mod_unsupported_data_link_type_returns_an_error() {
    let error = match parse(999, &[], &Vec::new()) {
        Err(error) => error,
        Ok(_) => panic!("unsupported data link type was accepted"),
    };

    assert_eq!(error.message(), "Unsupported data link type: 999");
}

#[test]
fn mod_supported_link_types_parse_tcp_udp_ipv4_and_ipv6() {
    let local_v4 = IpAddr::V4(Ipv4Addr::new(192, 0, 2, 10));
    let local_v6 = ip("2001:db8::10");
    let local_ips = vec![local_v4, local_v6];
    let link_types = [
        (
            Linktype::ETHERNET,
            &[IpVersion::V4, IpVersion::V6][..],
        ),
        (Linktype::RAW, &[IpVersion::V4, IpVersion::V6][..]),
        (LINUX_DLT_RAW, &[IpVersion::V4, IpVersion::V6][..]),
        (Linktype::IPV4, &[IpVersion::V4][..]),
        (Linktype::IPV6, &[IpVersion::V6][..]),
        (Linktype::NULL, &[IpVersion::V4, IpVersion::V6][..]),
        (Linktype::LOOP, &[IpVersion::V4, IpVersion::V6][..]),
        (
            Linktype::LINUX_SLL,
            &[IpVersion::V4, IpVersion::V6][..],
        ),
        (
            Linktype::LINUX_SLL2,
            &[IpVersion::V4, IpVersion::V6][..],
        ),
    ];

    for (link_type, versions) in link_types {
        for version in versions {
            for protocol in [TransportProtocol::Tcp, TransportProtocol::Udp] {
                let (ip_packet, mut expected) = fixed_ip_packet(*version, protocol);
                let packet = add_link_header(link_type, *version, ip_packet);
                expected.bytes = packet.len() as u64;

                let flow = parse(link_type, &packet, &local_ips)
                    .expect("supported data link")
                    .expect("local flow");

                assert_flow(flow, expected);
            }
        }
    }
}

#[test]
fn mod_linux_dlt_raw_12_parses_raw_ip() {
    let (packet, mut expected) = fixed_ip_packet(IpVersion::V4, TransportProtocol::Udp);
    expected.bytes = packet.len() as u64;
    let local_ips = vec![expected.local_ip];

    let flow = parse(12, &packet, &local_ips)
        .expect("Linux DLT_RAW is supported")
        .expect("local raw IP flow");

    assert_flow(flow, expected);
}

#[test]
fn mod_linux_sll_local_outgoing_copy_is_ignored() {
    let local = [127, 0, 0, 1];
    let transport = fixed_transport(TransportProtocol::Tcp, Direction::Outbound);
    let ip_packet = ipv4_packet_between(
        local,
        local,
        ip_protocol(TransportProtocol::Tcp),
        (20 + transport.len()) as u16,
        &transport,
    );
    let local_ips = vec![IpAddr::V4(u32::from_be_bytes(local))];

    for link_type in [Linktype::LINUX_SLL, Linktype::LINUX_SLL2] {
        let mut outgoing = add_link_header(link_type, IpVersion::V4, ip_packet.clone());
        set_sll_packet_type(&mut outgoing, link_type, 4);
        let outgoing_flow =
            parse(link_type, &outgoing, &local_ips).expect("supported data link");
        assert!(outgoing_flow.is_none());

        let mut host = add_link_header(link_type, IpVersion::V4, ip_packet.clone());
        set_sll_packet_type(&mut host, link_type, 0);
        let host_flow = parse(link_type, &host, &local_ips)
            .expect("supported data link")
            .expect("host copy is retained");
        assert!(host_flow.peer_local_socket.is_some());
    }
}

#[test]
fn mod_linux_sll_remote_outgoing_copy_is_retained() {
    let local_ips = vec![ip("192.0.2.10")];

    for link_type in [Linktype::LINUX_SLL, Linktype::LINUX_SLL2] {
        let (payload, mut expected) = fixed_ip_packet(IpVersion::V4, TransportProtocol::Udp);
        let mut packet = add_link_header(link_type, IpVersion::V4, payload);
        set_sll_packet_type(&mut packet, link_type, 4);
        expected.bytes = packet.len() as u64;

        let flow = parse(link_type, &packet, &local_ips)
            .expect("supported data link")
            .expect("remote outgoing flow is retained");

        assert_flow(flow, expected);
    }
}

#[test]
fn mod_null_and_loop_accept_both_address_family_endiannesses() {
    let (payload, expected) = fixed_ip_packet(IpVersion::V4, TransportProtocol::Udp);
    let local_ips = vec![expected.local_ip];

    for link_type in [Linktype::NULL, Linktype::LOOP] {
        for family in [
            address_family(IpVersion::V4).to_be_bytes(),
            address_family(IpVersion::V4).to_le_bytes(),
        ] {
            let mut packet = family.to_vec();
            packet.extend_from_slice(&payload);
            let mut expected = expected;
            expected.bytes = packet.len() as u64;

            let flow = parse(link_type, &packet, &local_ips)
                .expect("supported data link")
                .expect("address family endian is accepted");

            assert_flow(flow, expected);
        }
    }
}

#[test]
fn mod_bytes_ignore_padding_after_ip_packet() {
    let (payload, mut expected) = fixed_ip_packet(IpVersion::V4, TransportProtocol::Udp);
    let local_ips = vec![expected.local_ip];
    let mut packet = add_link_header(Linktype::ETHERNET, IpVersion::V4, payload);
    expected.bytes = packet.len() as u64;
    packet.extend_from_slice(&[0; 16]);

    let flow = parse(Linktype::ETHERNET, &packet, &local_ips)
        .expect("supported data link")
        .expect("padded frame");

    assert_flow(flow, expected);
}

#[test]
fn mod_link_protocol_identifier_must_match_ip_payload() {
    let local_ips = vec![
        ip("192.0.2.10"),
        ip("2001:db8::10"),
    ];
    let mismatches = [
        (Linktype::IPV4, IpVersion::V4, IpVersion::V6),
        (Linktype::IPV6, IpVersion::V6, IpVersion::V4),
        (Linktype::NULL, IpVersion::V4, IpVersion::V6),
        (Linktype::NULL, IpVersion::V6, IpVersion::V4),
        (Linktype::LOOP, IpVersion::V4, IpVersion::V6),
        (Linktype::LOOP, IpVersion::V6, IpVersion::V4),
        (Linktype::LINUX_SLL, IpVersion::V4, IpVersion::V6),
        (Linktype::LINUX_SLL, IpVersion::V6, IpVersion::V4),
        (Linktype::LINUX_SLL2, IpVersion::V4, IpVersion::V6),
        (Linktype::LINUX_SLL2, IpVersion::V6, IpVersion::V4),
    ];

    for (link_type, advertised_version, payload_version) in mismatches {
        let (payload, _) = fixed_ip_packet(payload_version, TransportProtocol::Udp);
        let packet = add_link_header(link_type, advertised_version, payload);

        let flow = parse(link_type, &packet, &local_ips).expect("supported data link");

        assert!(flow.is_none());
    }
}

#[test]
fn mod_unsupported_link_protocol_identifier_is_ignored() {
    let local_ips = vec![ip("192.0.2.10")];
    let (payload, _) = fixed_ip_packet(IpVersion::V4, TransportProtocol::Udp);
    let mut null = 999_u32.to_ne_bytes().to_vec();
    null.extend_from_slice(&payload);
    let mut loop_packet = 999_u32.to_be_bytes().to_vec();
    loop_packet.extend_from_slice(&payload);
    let mut sll = vec![0, 0, 0, 1, 0, 6, 0, 1, 2, 3, 4, 5, 0, 0, 0x08, 0x06];
    sll.extend_from_slice(&payload);
    let mut sll2 = vec![
        0x08, 0x06, 0, 0, 0, 0, 0, 1, 0, 1, 0, 6, 0, 1, 2, 3, 4, 5, 0, 0,
    ];
    sll2.extend_from_slice(&payload);

    for (link_type, packet) in [
        (Linktype::NULL, null),
        (Linktype::LOOP, loop_packet),
        (Linktype::LINUX_SLL, sll),
        (Linktype::LINUX_SLL2, sll2),
    ] {
        let flow = parse(link_type, &packet, &local_ips).expect("supported data link");
        assert!(flow.is_none());
    }
}

#[test]
fn mod_traffic_not_belonging_to_the_host_is_ignored() {
    let packet = ipv4_packet_between(
        [198, 51, 100, 5],
        [203, 0, 113, 9],
        17,
        28,
        &[0, 53, 0x14, 0xe9, 0, 8, 0, 0],
    );
    let local_ips = vec![IpAddr::V4(Ipv4Addr::new(192, 0, 2, 10))];

    let flow =
        parse(Linktype::RAW, &packet, &local_ips).expect("supported raw data link");

    assert!(flow.is_none());
}

#[test]
fn mod_interface_labels_follow_platform_display_order() {
    let interface = InterfaceInfo {
        name: r"\Device\NPF_{1234}".to_string(),
        description: "Intel Ethernet Controller".to_string(),
        addresses: Vec::new(),
        is_default_route: false,
    };

    assert_eq!(
        interface.display_labels_for(InterfaceLabelOrder::NameFirst),
        (r"\Device\NPF_{1234}", Some("Intel Ethernet Controller")),
    );
    assert_eq!(
        interface.display_labels_for(InterfaceLabelOrder::DescriptionFirst),
        ("Intel Ethernet Controller", Some(r"\Device\NPF_{1234}")),
    );
}

#[test]
fn mod_interface_labels_fall_back_to_name_without_description() {
    let interface = InterfaceInfo {
        name: "eth0".to_string(),
        description: "No description".to_string(),
        addresses: Vec::new(),
        is_default_route: false,
    };

    assert_eq!(
        interface.display_labels_for(InterfaceLabelOrder::DescriptionFirst),
        ("eth0", None),
    );
}

#[test]
fn mod_interface_selection_accepts_current_number_or_full_name() {
    let by_number = select_device(
        "2",
        vec![
            device("eth0", Some("Wired Ethernet")),
            device(r"\Device\NPF_{1234}", Some("Npcap Adapter")),
        ],
    )
    .expect("current interface number");
    assert_eq!(by_number.name, r"\Device\NPF_{1234}");

    let by_name = select_device(
        r"\Device\NPF_{1234}",
        vec![
            device("eth0", Some("Wired Ethernet")),
            device(r"\Device\NPF_{1234}", Some("Npcap Adapter")),
        ],
    )
    .expect("full pcap device name");
    assert_eq!(by_name.name, r"\Device\NPF_{1234}");

    let numeric_name = select_device(
        "2",
        vec![
            device("eth0", None),
            device("lo", None),
            device("2", Some("Numeric device name")),
        ],
    )
    .expect("numeric full pcap device name");
    assert_eq!(numeric_name.name, "2");
}

#[test]
fn mod_invalid_interface_selection_returns_clear_errors() {
    for number in ["0", "3"] {
        let error = select_device(number, vec![device("eth0", None), device("lo", None)])
            .expect_err("invalid interface number");
        assert_eq!(
            error.message(),
            format!("Invalid interface number: {number} (choose 1-2)")
        );
    }

    let error = select_device("missing", vec![device("eth0", None)])
        .expect_err("missing interface name");
    assert_eq!(error.message(), "Interface not found: missing");
}

#[test]
fn parser_classifies_non_local_ipv4_and_malformed_frames() {
    let selected_local_ips = vec![IpAddr::V4(Ipv4Addr::new(203, 0, 113, 77))];
    let frame = outbound_tcp_ethernet_frame(b"");
    let parser = RecordingParser::new(None);

    let non_local = parse_uncached(Linktype::ETHERNET, &frame, &selected_local_ips, &parser)
        .expect("supported data link");
    assert_eq!(
        non_local.disposition,
        PacketDisposition::NonLocal {
            version: IpVersion::V4,
            src: IpAddr::V4(Ipv4Addr::new(192, 0, 2, 10)),
            dst: IpAddr::V4(Ipv4Addr::new(198, 51, 100, 5)),
        }
    );
    assert!(non_local.flow.is_none());

    let malformed = parse_uncached(Linktype::ETHERNET, &[0; 8], &selected_local_ips, &parser)
        .expect("supported data link");
    assert_eq!(malformed.disposition, PacketDisposition::ParseError);
    assert!(malformed.flow.is_none());

    let local_ips = vec![IpAddr::V4(Ipv4Addr::new(192, 0, 2, 10))];
    let accepted = parse_uncached(Linktype::ETHERNET, &frame, &local_ips, &parser)
        .expect("supported data link");
    assert_eq!(accepted.disposition, PacketDisposition::Accepted);
    assert!(accepted.flow.is_some());

    let mut counters = CaptureCounters::with_local_ips(&Vec::new());
    counters.record_packet(frame.len() as u64, &non_local);
    counters.record_packet(8, &malformed);
    counters.record_packet(frame.len() as u64, &accepted);

    assert_eq!(counters.packets_read, 3);
    assert_eq!(counters.parse_error_packets, 1);
    assert_eq!(counters.non_local_ipv4_packets, 1);
    assert_eq!(
        counters.diagnostics_snapshot().non_local_ipv4_samples,
        vec![NonLocalEndpointSample {
            src: IpAddr::V4(Ipv4Addr::new(192, 0, 2, 10)),
            dst: IpAddr::V4(Ipv4Addr::new(198, 51, 100, 5)),
        }]
    );
    assert_eq!(counters.flow_packets, 1);
    assert_eq!(
        counters.bytes_read,
        counters.parse_error_bytes + counters.non_local_ipv4_bytes + counters.flow_bytes
    );
}

#[test]
fn capture_diagnostics_snapshot_sorts_local_ips_and_bounds_non_local_samples() {
    let local_ips = vec![ip("2001:db8::10"), ip("192.0.2.10")];
    let mut counters = CaptureCounters::with_local_ips(&local_ips);

    for index in 0..(NON_LOCAL_ENDPOINT_SAMPLE_LIMIT + 3) {
        counters.record_packet(
            64,
            &discarded(PacketDisposition::NonLocal {
                version: IpVersion::V4,
                src: IpAddr::V4(Ipv4Addr::new(10, 0, 0, index as u8)),
                dst: IpAddr::V4(Ipv4Addr::new(198, 51, 100, 5)),
            }),
        );
    }

    let snapshot = counters.diagnostics_snapshot();
    assert_eq!(snapshot.local_ips, vec![ip("192.0.2.10"), ip("2001:db8::10")]);
    assert_eq!(
        snapshot.non_local_ipv4_samples.len(),
        NON_LOCAL_ENDPOINT_SAMPLE_LIMIT
    );
    assert_eq!(
        snapshot.non_local_ipv4_samples[0],
        NonLocalEndpointSample {
            src: IpAddr::V4(Ipv4Addr::new(10, 0, 0, 0)),
            dst: IpAddr::V4(Ipv4Addr::new(198, 51, 100, 5)),
        }
    );
    assert!(snapshot.non_local_ipv6_samples.is_empty());
}

#[test]
fn samples_are_replaced_in_turn_at_each_interval() {
    let mut counters = CaptureCounters::with_local_ips(&Vec::new());
    let packet = |index: u32| {
        discarded(PacketDisposition::NonLocal {
            version: IpVersion::V6,
            src: IpAddr::V6(u128::from(index)),
            dst: IpAddr::V6(7),
        })
    };
    let interval = NON_LOCAL_ENDPOINT_SAMPLE_INTERVAL as u32;
    for index in 1..=(2 * interval) {
        counters.record_packet(100, &packet(index));
    }
    let samples = counters.diagnostics_snapshot().non_local_ipv6_samples;
    let sources: Vec<IpAddr> = samples.iter().map(|sample| sample.src).collect();
    let expected: Vec<IpAddr> = [interval, 2 * interval, 3, 4, 5, 6, 7, 8]
        .iter()
        .map(|index| IpAddr::V6(u128::from(*index)))
        .collect();
    assert_eq!(sources, expected);
    assert_eq!(counters.non_local_ipv6_packets, u64::from(2 * interval));
    assert_eq!(counters.non_local_ipv6_bytes, u64::from(2 * interval) * 100);
}

#[test]
fn every_packet_is_counted_under_one_kind() {
    let mut counters = CaptureCounters::with_local_ips(&Vec::new());
    let non_local = |version| PacketDisposition::NonLocal {
        version,
        src: IpAddr::V4(1),
        dst: IpAddr::V4(2),
    };
    counters.record_packet(1, &discarded(PacketDisposition::Accepted));
    counters.record_packet(10, &discarded(PacketDisposition::ParseError));
    counters.record_packet(100, &discarded(PacketDisposition::NonIp));
    counters.record_packet(1_000, &discarded(non_local(IpVersion::V4)));
    counters.record_packet(10_000, &discarded(non_local(IpVersion::V6)));
    counters.record_packet(100_000, &discarded(PacketDisposition::DuplicateOutgoing));
    assert_eq!(counters.packets_read, 6);
    assert_eq!(counters.bytes_read, 111_111);
    assert_eq!((counters.flow_packets, counters.flow_bytes), (1, 1));
    assert_eq!((counters.parse_error_packets, counters.parse_error_bytes), (1, 10));
    assert_eq!((counters.non_ip_packets, counters.non_ip_bytes), (1, 100));
    assert_eq!((counters.non_local_ipv4_packets, counters.non_local_ipv4_bytes), (1, 1_000));
    assert_eq!((counters.non_local_ipv6_packets, counters.non_local_ipv6_bytes), (1, 10_000));
    assert_eq!(
        (counters.duplicate_outgoing_packets, counters.duplicate_outgoing_bytes),
        (1, 100_000)
    );
    counters.note_pcap_stats(5, 6, 7);
    assert_eq!((counters.received, counters.dropped, counters.if_dropped), (5, 6, 7));
}

fn charge(
    stats: &mut Stats,
    flow: &Flow,
    owners: &[(ObservedProcess, Direction, LocalSocket, IpAddr, u16)],
) {
    stats.record_interface_flow(flow, 0);
    stats.record_outbound_domain(flow, 0);
    for (process, direction, socket, peer, port) in owners {
        stats.record_process_evidence(
            process.clone(),
            *direction,
            flow.bytes,
            0,
            Evidence::Snapshot,
            ProcFlowKey::from_endpoint(*socket, *peer, *port),
        );
    }
}

fn process(pid: u32, name: &str) -> ObservedProcess {
    ObservedProcess {
        pid,
        name: Some(name.to_string()),
        path: Some(format!("/usr/bin/{name}")),
    }
}

fn bytes_of(totals: &TrafficTotals, pid: u32) -> (u64, u64) {
    let snapshot = totals.snapshot(10, 0, true);
    let row = snapshot
        .processes
        .iter()
        .find(|row| matches!(&row.key, ProcessIdentity::Process(process) if process.pid == pid))
        .unwrap();
    (row.tally.inbound, row.tally.outbound)
}

#[test]
fn mod_parsed_packets_keep_network_direction_through_interface_and_process_stats() {
    let local = [192, 0, 2, 10];
    let inbound_peer = [198, 51, 100, 5];
    let outbound_peer = [203, 0, 113, 9];
    let inbound_transport = fixed_transport(TransportProtocol::Tcp, Direction::Inbound);
    let outbound_transport = fixed_transport(TransportProtocol::Tcp, Direction::Outbound);
    let inbound = add_link_header(
        Linktype::ETHERNET,
        IpVersion::V4,
        ipv4_packet_between(
            inbound_peer,
            local,
            ip_protocol(TransportProtocol::Tcp),
            (20 + inbound_transport.len()) as u16,
            &inbound_transport,
        ),
    );
    let outbound = add_link_header(
        Linktype::ETHERNET,
        IpVersion::V4,
        ipv4_packet_between(
            local,
            outbound_peer,
            ip_protocol(TransportProtocol::Tcp),
            (20 + outbound_transport.len()) as u16,
            &outbound_transport,
        ),
    );
    let local_ips = vec![IpAddr::V4(u32::from_be_bytes(local))];
    let mut stats = Stats::new();

    let inbound_flow = parse(Linktype::ETHERNET, &inbound, &local_ips).unwrap().unwrap();
    let outbound_flow = parse(Linktype::ETHERNET, &outbound, &local_ips).unwrap().unwrap();
    assert!(matches!(inbound_flow.direction, Direction::Inbound));
    assert!(matches!(outbound_flow.direction, Direction::Outbound));

    for flow in [&inbound_flow, &outbound_flow] {
        let owner = (
            process(7, "wget"),
            flow.direction,
            flow.local_socket.unwrap(),
            flow.peer,
            flow.peer_port.unwrap(),
        );
        charge(&mut stats, flow, &[owner]);
    }
    let mut totals = TrafficTotals::new();
    totals.add_entries(&stats.take_entries());
    let snapshot = totals.snapshot(10, 0, true);

    assert_eq!(snapshot.in_bytes, inbound_flow.bytes);
    assert_eq!(snapshot.out_bytes, outbound_flow.bytes);
    assert_eq!(snapshot.inbound_ips[0].key, IpAddr::V4(u32::from_be_bytes(inbound_peer)));
    assert_eq!(snapshot.outbound_ips[0].key, IpAddr::V4(u32::from_be_bytes(outbound_peer)));
    assert_eq!(bytes_of(&totals, 7), (inbound_flow.bytes, outbound_flow.bytes));
}

#[test]
fn mod_local_tcp_response_accounts_source_as_sent_and_destination_as_recv() {
    let local = [127, 0, 0, 1];
    let server_port = 18_765_u16;
    let client_port = 49_152_u16;
    let mut transport = Vec::new();
    transport.extend_from_slice(&server_port.to_be_bytes());
    transport.extend_from_slice(&client_port.to_be_bytes());
    transport.extend_from_slice(&[0; 8]);
    transport.extend_from_slice(&[0x50, 0x10, 0, 0, 0, 0, 0, 0]);
    let packet = add_link_header(
        Linktype::ETHERNET,
        IpVersion::V4,
        ipv4_packet_between(
            local,
            local,
            ip_protocol(TransportProtocol::Tcp),
            (20 + transport.len()) as u16,
            &transport,
        ),
    );
    let local_ips = vec![IpAddr::V4(u32::from_be_bytes(local))];

    let flow = parse(Linktype::ETHERNET, &packet, &local_ips)
        .unwrap()
        .expect("local loopback flow");
    let source = flow.local_socket.expect("source local socket");
    let destination = flow.peer_local_socket.expect("destination local socket");
    assert_eq!(source.port, server_port);
    assert_eq!(destination.port, client_port);

    let bytes = flow.bytes;
    let mut stats = Stats::new();
    charge(
        &mut stats,
        &flow,
        &[
            (
                process(18765, "python"),
                Direction::Outbound,
                source,
                destination.ip,
                destination.port,
            ),
            (process(49152, "curl"), Direction::Inbound, destination, source.ip, source.port),
        ],
    );
    let mut totals = TrafficTotals::new();
    totals.add_entries(&stats.take_entries());
    let snapshot = totals.snapshot(10, 0, true);

    assert_eq!(snapshot.in_bytes, bytes);
    assert_eq!(snapshot.out_bytes, bytes);
    assert_eq!(bytes_of(&totals, 18765), (0, bytes));
    assert_eq!(bytes_of(&totals, 49152), (bytes, 0));
}

#[test]
fn mod_interface_list_has_numbers_descriptions_and_full_names() {
    let devices = vec![
        device("eth0", Some("Wired Ethernet")),
        device(r"\Device\NPF_{1234}", None),
    ];
    let catalog = interface_catalog_from_devices(&devices, Some("eth0"));

    let described_first = [
        "Available interfaces:\n",
        "  1. Wired Ethernet  [default route]\n",
        "     Name: eth0\n",
        "  2. \\Device\\NPF_{1234}\n",
        "\nUsage: flowlens <interface-or-number> [OPTIONS]\n",
        "Run flowlens --help for full usage\n",
    ]
    .join("");
    let named_first = [
        "Available interfaces:\n",
        "  1. eth0  [default route]\n",
        "     Description: Wired Ethernet\n",
        "  2. \\Device\\NPF_{1234}\n",
        "\nUsage: flowlens <interface-or-number> [OPTIONS]\n",
        "Run flowlens --help for full usage\n",
    ]
    .join("");
    assert_eq!(
        format_interface_list(&catalog, InterfaceLabelOrder::DescriptionFirst),
        described_first
    );
    assert_eq!(format_interface_list(&catalog, InterfaceLabelOrder::NameFirst), named_first);
}

#[test]
fn mod_interface_catalog_keeps_names_descriptions_and_default_marker() {
    let catalog = interface_catalog_from_devices(
        &vec![device("eth0", Some("Wired Ethernet")), device("lo", None)],
        Some("eth0"),
    );

    assert_eq!(catalog.len(), 2);
    assert_eq!(catalog[0].name, "eth0");
    assert_eq!(catalog[0].description, "Wired Ethernet");
    assert!(catalog[0].is_default_route);
    assert_eq!(catalog[1].description, "No description");
    assert!(!catalog[1].is_default_route);
}

#[test]
fn capture_interface_catalog_keeps_names_descriptions_and_default_marker() {
    let catalog = interface_catalog_from_devices(
        &vec![device("eth0", Some("Wired Ethernet")), device("lo", None)],
        Some("eth0"),
    );

    assert_eq!(catalog.len(), 2);
    assert_eq!(catalog[0].name, "eth0");
    assert_eq!(catalog[0].description, "Wired Ethernet");
    assert!(catalog[0].is_default_route);
    assert_eq!(catalog[1].description, "No description");
    assert!(!catalog[1].is_default_route);
    assert!(!interface_catalog_from_devices(&vec![device("lo", None)], None)[0].is_default_route);
}

#[test]
fn interface_catalog_retains_sorted_unique_ip_addresses() {
    let mut device = device("eth0", Some("Wired Ethernet"));
    device.addresses = vec![ip("2001:db8::10"), ip("192.0.2.10"), ip("192.0.2.10")];

    let catalog = interface_catalog_from_devices(&vec![device], None);

    assert_eq!(catalog[0].addresses, vec![ip("192.0.2.10"), ip("2001:db8::10")]);
}

#[test]
fn mod_local_ips_include_addresses_from_all_interfaces() {
    let mut eth0 = device("eth0", None);
    eth0.addresses.push(ip("192.0.2.10"));
    let any = device("any", Some("All interfaces"));
    let mut lo = device("lo", None);
    lo.addresses.push(ip("::1"));

    let local_ips = collect_local_ips_with_native(&vec![eth0, any, lo], &Vec::new());

    assert_eq!(local_ips, vec![ip("192.0.2.10"), ip("::1")]);
}

#[test]
fn local_ips_include_native_addresses_missing_from_pcap_devices() {
    let mut virtio = device(r"\Device\NPF_{virtio}", None);
    virtio.addresses.push(ip("100.127.185.26"));

    let local_ips = collect_local_ips_with_native(&vec![virtio], &vec![ip("10.11.12.31")]);

    assert!(local_ips.contains(&ip("100.127.185.26")));
    assert!(local_ips.contains(&ip("10.11.12.31")));
}

#[test]
fn no_interfaces_and_huge_numbers_are_told_apart() {
    let error = select_device("1", Vec::new()).expect_err("no interfaces");
    assert_eq!(error.message(), "Invalid interface number: 1 (no interfaces available)");
    let error = select_device("99999999999999999999999", vec![device("eth0", None)])
        .expect_err("number beyond any list");
    assert_eq!(
        error.message(),
        "Invalid interface number: 99999999999999999999999 (choose 1-1)"
    );
    for selector in ["", "+1", "1 ", "\u{0661}"] {
        let error = select_device(selector, vec![device("eth0", None)]).expect_err("no number");
        assert_eq!(error.message(), format!("Interface not found: {selector}"));
    }
    assert_eq!(select_device("001", vec![device("eth0", None)]).unwrap().name, "eth0");
}

#[test]
fn default_route_is_read_from_the_routing_table() {
    let heading = "Iface\tDestination\tGateway \tFlags\tRefCnt\tUse\tMetric\tMask\t\tMTU\tWindow\tIRTT\n";
    let route = |name: &str, destination: &str| {
        format!("{name}\t{destination}\t0101A8C0\t0003\t0\t0\t100\t00000000\t0\t0\t0\n")
    };
    let table = format!("{heading}{}{}", route("wlan0", "0001A8C0"), route("eth0", "00000000"));
    assert_eq!(default_interface(&table).as_deref(), Some("eth0"));
    let twice = format!("{heading}{}{}", route("ppp0", "0"), route("eth0", "00000000"));
    assert_eq!(default_interface(&twice).as_deref(), Some("ppp0"));
    let broken = format!("{heading}{}{}", route("bad0", "xyz"), route("eth0", "00000000"));
    assert_eq!(default_interface(&broken), None);
    let short = format!("{heading}short0 00000000\n{}", route("eth0", "00000000"));
    assert_eq!(default_interface(&short).as_deref(), Some("eth0"));
    let windows_lines = table.replace('\n', "\r\n");
    assert_eq!(default_interface(&windows_lines).as_deref(), Some("eth0"));
    assert_eq!(default_interface(heading), None);
    assert_eq!(default_interface(""), None);
    assert_eq!(default_interface(&route("eth0", "00000000")), None);
}

#[test]
fn capture_unsupported_data_link_type_returns_an_error() {
    let error = match parse(999, &[], &Vec::new()) {
        Err(error) => error,
        Ok(_) => panic!("unsupported data link type was accepted"),
    };

    assert_eq!(error.message(), "Unsupported data link type: 999");
}

#[test]
fn capture_linux_dlt_raw_12_parses_raw_ip() {
    let (packet, mut expected) = fixed_ip_packet(IpVersion::V4, TransportProtocol::Udp);
    expected.bytes = packet.len() as u64;
    let local_ips = vec![expected.local_ip];

    let flow = parse(12, &packet, &local_ips)
        .expect("Linux DLT_RAW is supported")
        .expect("local raw IP flow");

    assert_flow(flow, expected);
}

#[test]
fn capture_null_and_loop_accept_both_address_family_endiannesses() {
    let (payload, expected) = fixed_ip_packet(IpVersion::V4, TransportProtocol::Udp);
    let local_ips = vec![expected.local_ip];

    for link_type in [Linktype::NULL, Linktype::LOOP] {
        for family in [
            address_family(IpVersion::V4).to_be_bytes(),
            address_family(IpVersion::V4).to_le_bytes(),
        ] {
            let mut packet = family.to_vec();
            packet.extend_from_slice(&payload);
            let mut expected = expected;
            expected.bytes = packet.len() as u64;

            let flow = parse(link_type, &packet, &local_ips)
                .expect("supported data link")
                .expect("address family endian is accepted");

            assert_flow(flow, expected);
        }
    }
}

#[test]
fn capture_bytes_ignore_padding_after_ip_packet() {
    let (payload, mut expected) = fixed_ip_packet(IpVersion::V4, TransportProtocol::Udp);
    let local_ips = vec![expected.local_ip];
    let mut packet = add_link_header(Linktype::ETHERNET, IpVersion::V4, payload);
    expected.bytes = packet.len() as u64;
    packet.extend_from_slice(&[0; 16]);

    let flow = parse(Linktype::ETHERNET, &packet, &local_ips)
        .expect("supported data link")
        .expect("padded frame");

    assert_flow(flow, expected);
}

#[test]
fn capture_interface_labels_follow_platform_display_order() {
    let interface = InterfaceInfo {
        name: r"\Device\NPF_{1234}".to_string(),
        description: "Intel Ethernet Controller".to_string(),
        addresses: Vec::new(),
        is_default_route: false,
    };

    assert_eq!(
        interface.display_labels_for(InterfaceLabelOrder::NameFirst),
        (r"\Device\NPF_{1234}", Some("Intel Ethernet Controller")),
    );
    assert_eq!(
        interface.display_labels_for(InterfaceLabelOrder::DescriptionFirst),
        ("Intel Ethernet Controller", Some(r"\Device\NPF_{1234}")),
    );
}

#[test]
fn capture_interface_labels_fall_back_to_name_without_description() {
    let interface = InterfaceInfo {
        name: "eth0".to_string(),
        description: "No description".to_string(),
        addresses: Vec::new(),
        is_default_route: false,
    };

    assert_eq!(
        interface.display_labels_for(InterfaceLabelOrder::DescriptionFirst),
        ("eth0", None),
    );
}

#[test]
fn capture_interface_selection_accepts_current_number_or_full_name() {
    let by_number = select_device(
        "2",
        vec![
            device("eth0", Some("Wired Ethernet")),
            device(r"\Device\NPF_{1234}", Some("Npcap Adapter")),
        ],
    )
    .expect("current interface number");
    assert_eq!(by_number.name, r"\Device\NPF_{1234}");

    let by_name = select_device(
        r"\Device\NPF_{1234}",
        vec![
            device("eth0", Some("Wired Ethernet")),
            device(r"\Device\NPF_{1234}", Some("Npcap Adapter")),
        ],
    )
    .expect("full pcap device name");
    assert_eq!(by_name.name, r"\Device\NPF_{1234}");

    let numeric_name = select_device(
        "2",
        vec![
            device("eth0", None),
            device("lo", None),
            device("2", Some("Numeric device name")),
        ],
    )
    .expect("numeric full pcap device name");
    assert_eq!(numeric_name.name, "2");
}

#[test]
fn capture_invalid_interface_selection_returns_clear_errors() {
    for number in ["0", "3"] {
        let error = select_device(number, vec![device("eth0", None), device("lo", None)])
            .expect_err("invalid interface number");
        assert_eq!(
            error.message(),
            format!("Invalid interface number: {number} (choose 1-2)")
        );
    }

    let error = select_device("missing", vec![device("eth0", None)])
        .expect_err("missing interface name");
    assert_eq!(error.message(), "Interface not found: missing");
}

#[test]
fn what_the_table_says_decides_how_a_domain_is_found() {
    let flow = |direction: Direction| Flow {
        direction,
        peer: IpAddr::v4(198, 51, 100, 5),
        peer_port: Some(443),
        bytes: 60,
        local_socket: Some(LocalSocket {
            ip: IpAddr::v4(192, 0, 2, 10),
            port: 49_152,
            protocol: TransportProtocol::Tcp,
        }),
        peer_local_socket: None,
        domain: None,
    };
    let sent = flow(Direction::Outbound);
    let received = flow(Direction::Inbound);
    let key = flow_key_from(&sent).unwrap();
    let payload = Some(vec![1, 2, 3]);
    let known = || Some(FlowEntry::Resolved("known.example".to_string()));
    let parser = RecordingParser::new(Some("read.example".to_string()));
    let mut table = FlowTable::new();

    let found = settle_domain(&parser, &received, &payload, known(), &mut table);
    assert_eq!(found.as_deref(), Some("known.example"));
    assert_eq!(settle_domain(&parser, &received, &payload, None, &mut table), None);
    assert_eq!(settle_domain(&parser, &sent, &None, known(), &mut table), None);
    let found = settle_domain(&parser, &sent, &payload, known(), &mut table);
    assert_eq!(found.as_deref(), Some("known.example"));
    let given_up = FlowEntry::NoDomain { attempts: MAX_NO_DOMAIN_PARSE_ATTEMPTS };
    assert_eq!(settle_domain(&parser, &sent, &payload, Some(given_up), &mut table), None);
    assert_eq!(parser.calls.get(), 0);
    assert!(table.lookup(&key).is_none());

    let silent = RecordingParser::new(None);
    assert_eq!(settle_domain(&silent, &sent, &payload, None, &mut table), None);
    assert!(matches!(table.lookup(&key), Some(FlowEntry::NoDomain { attempts: 1 })));
    let earlier = Some(FlowEntry::NoDomain { attempts: 1 });
    assert_eq!(settle_domain(&silent, &sent, &payload, earlier, &mut table), None);
    assert!(matches!(table.lookup(&key), Some(FlowEntry::NoDomain { attempts: 2 })));
    let earlier = Some(FlowEntry::NoDomain { attempts: 2 });
    let found = settle_domain(&parser, &sent, &payload, earlier, &mut table);
    assert_eq!(found.as_deref(), Some("read.example"));
    assert!(matches!(
        table.lookup(&key),
        Some(FlowEntry::Resolved(domain)) if domain == "read.example"
    ));
}
