//! Frames to flows: what a captured frame says, and which traffic it is.

use etherparse::{NetHeaders, PacketHeaders, TransportHeader};
use vstd::prelude::*;
use vstd::string::*;

use crate::capture::Flow;
use crate::domain_parse::{may_read, reads, DomainParser};
use crate::flow_table::{
    one_more, FlowEntry, FlowKey, FlowKnowledge, FlowTable, MAX_NO_DOMAIN_PARSE_ATTEMPTS,
};
use crate::net::{Direction, IpAddr, LocalSocket, TransportProtocol};
use crate::text::{decimal, push_decimal, text_view};

verus! {

/// Data link types, by the numbers that packet capture gives them.
pub const LINKTYPE_NULL: i32 = 0;

pub const LINKTYPE_ETHERNET: i32 = 1;

pub const LINKTYPE_RAW: i32 = 101;

pub const LINKTYPE_LOOP: i32 = 108;

pub const LINKTYPE_LINUX_SLL: i32 = 113;

pub const LINKTYPE_IPV4: i32 = 228;

pub const LINKTYPE_IPV6: i32 = 229;

pub const LINKTYPE_LINUX_SLL2: i32 = 276;

/// The number that a live handle on Linux gives for raw packets.
pub const LINUX_DLT_RAW: i32 = 12;

/// How a frame starts.
#[derive(Clone, Copy, Debug, PartialEq, Eq, Structural)]
pub enum PacketFormat {
    Ethernet,
    Raw,
    Ipv4,
    Ipv6,
    Null,
    Loop,
    LinuxSll,
    LinuxSll2,
}

/// The version of the Internet Protocol.
#[derive(Clone, Copy, Debug, PartialEq, Eq, Structural)]
pub enum IpVersion {
    V4,
    V6,
}

/// What a Linux cooked capture says of the way of a packet.
#[derive(Clone, Copy, Debug, PartialEq, Eq, Structural)]
pub enum SllPacketType {
    Host,
    Outgoing,
    Other,
}

/// A data link type that no format is known for.
#[derive(Clone, Copy, Debug, PartialEq, Eq, Structural)]
pub struct UnsupportedLink(pub i32);

/// What becomes of a packet.
#[derive(Clone, Copy, Debug, PartialEq, Eq, Structural)]
pub enum PacketDisposition {
    Accepted,
    ParseError,
    NonIp,
    /// Neither end is local.
    NonLocal { version: IpVersion, src: IpAddr, dst: IpAddr },
    /// The outgoing copy of a packet between two local addresses.
    DuplicateOutgoing,
}

/// Where the packet starts in a frame without an Ethernet header, and what the
/// frame says of it.
#[derive(Clone, Copy, Debug, PartialEq, Eq, Structural)]
pub struct IpPayload {
    /// Where the packet starts.
    pub start: usize,
    pub expected_version: Option<IpVersion>,
    pub link_len: u64,
    pub sll_packet_type: Option<SllPacketType>,
}

/// The format of the frames of a data link type.
pub open spec fn format_of(link_type: i32) -> Option<PacketFormat> {
    if link_type == LINKTYPE_ETHERNET {
        Some(PacketFormat::Ethernet)
    } else if link_type == LINKTYPE_RAW || link_type == LINUX_DLT_RAW {
        Some(PacketFormat::Raw)
    } else if link_type == LINKTYPE_IPV4 {
        Some(PacketFormat::Ipv4)
    } else if link_type == LINKTYPE_IPV6 {
        Some(PacketFormat::Ipv6)
    } else if link_type == LINKTYPE_NULL {
        Some(PacketFormat::Null)
    } else if link_type == LINKTYPE_LOOP {
        Some(PacketFormat::Loop)
    } else if link_type == LINKTYPE_LINUX_SLL {
        Some(PacketFormat::LinuxSll)
    } else if link_type == LINKTYPE_LINUX_SLL2 {
        Some(PacketFormat::LinuxSll2)
    } else {
        None
    }
}

/// The format of the frames of a data link type.
pub fn packet_format(link_type: i32) -> (format: Result<PacketFormat, UnsupportedLink>)
    ensures
        format == match format_of(link_type) {
            Some(format) => Ok::<PacketFormat, UnsupportedLink>(format),
            None => Err::<PacketFormat, UnsupportedLink>(UnsupportedLink(link_type)),
        },
{
    if link_type == LINKTYPE_ETHERNET {
        Ok(PacketFormat::Ethernet)
    } else if link_type == LINKTYPE_RAW || link_type == LINUX_DLT_RAW {
        Ok(PacketFormat::Raw)
    } else if link_type == LINKTYPE_IPV4 {
        Ok(PacketFormat::Ipv4)
    } else if link_type == LINKTYPE_IPV6 {
        Ok(PacketFormat::Ipv6)
    } else if link_type == LINKTYPE_NULL {
        Ok(PacketFormat::Null)
    } else if link_type == LINKTYPE_LOOP {
        Ok(PacketFormat::Loop)
    } else if link_type == LINKTYPE_LINUX_SLL {
        Ok(PacketFormat::LinuxSll)
    } else if link_type == LINKTYPE_LINUX_SLL2 {
        Ok(PacketFormat::LinuxSll2)
    } else {
        Err(UnsupportedLink(link_type))
    }
}

/// The numeral of an integer, with a minus sign if it is negative.
pub open spec fn signed_decimal(value: int) -> Seq<char> {
    if value < 0 {
        seq!['-'] + decimal((-value) as nat)
    } else {
        decimal(value as nat)
    }
}

impl UnsupportedLink {
    /// The error in words.
    pub fn message(&self) -> (message: String)
        ensures
            message@ == "Unsupported data link type: "@ + signed_decimal(self.0 as int),
    {
        let mut message = "Unsupported data link type: ".to_owned();
        let value: i64 = self.0 as i64;
        if value < 0 {
            message.push('-');
            push_decimal(&mut message, (-value) as u64);
        } else {
            push_decimal(&mut message, value as u64);
        }
        assert(message@ =~= "Unsupported data link type: "@ + signed_decimal(self.0 as int));
        message
    }
}

/// What a cooked capture says of the way of a packet.
pub open spec fn way_of(packet_type: int) -> SllPacketType {
    if packet_type == 0 {
        SllPacketType::Host
    } else if packet_type == 4 {
        SllPacketType::Outgoing
    } else {
        SllPacketType::Other
    }
}

/// What a cooked capture says of the way of a packet.
pub fn sll_packet_type(packet_type: u16) -> (way: SllPacketType)
    ensures
        way == way_of(packet_type as int),
{
    match packet_type {
        0 => SllPacketType::Host,
        4 => SllPacketType::Outgoing,
        _ => SllPacketType::Other,
    }
}

/// The version that a packet's first four bits give.
pub open spec fn version_of(packet: Seq<u8>) -> Option<IpVersion> {
    if packet.len() == 0 {
        None
    } else if packet[0] / 16 == 4 {
        Some(IpVersion::V4)
    } else if packet[0] / 16 == 6 {
        Some(IpVersion::V6)
    } else {
        None
    }
}

/// The version that a packet's first four bits give.
pub fn ip_version(packet: &[u8]) -> (version: Option<IpVersion>)
    ensures
        version == version_of(packet@),
{
    if packet.len() == 0 {
        return None;
    }
    match packet[0] / 16 {
        4 => Some(IpVersion::V4),
        6 => Some(IpVersion::V6),
        _ => None,
    }
}

/// The version that an Ethernet type stands for.
pub open spec fn ether_version(ether_type: int) -> Option<IpVersion> {
    if ether_type == 0x0800 {
        Some(IpVersion::V4)
    } else if ether_type == 0x86dd {
        Some(IpVersion::V6)
    } else {
        None
    }
}

/// The version that an Ethernet type stands for.
pub fn ip_version_from_ether_type(ether_type: u16) -> (version: Option<IpVersion>)
    ensures
        version == ether_version(ether_type as int),
{
    match ether_type {
        0x0800 => Some(IpVersion::V4),
        0x86dd => Some(IpVersion::V6),
        _ => None,
    }
}

/// The version that an address family stands for; the systems number IPv6 differently.
pub open spec fn family_version(family: int) -> Option<IpVersion> {
    if family == 2 {
        Some(IpVersion::V4)
    } else if family == 10 || family == 23 || family == 24 || family == 28 || family == 30 {
        Some(IpVersion::V6)
    } else {
        None
    }
}

/// The version that an address family stands for.
pub fn ip_version_from_address_family(family: u32) -> (version: Option<IpVersion>)
    ensures
        version == family_version(family as int),
{
    match family {
        2 => Some(IpVersion::V4),
        10 | 23 | 24 | 28 | 30 => Some(IpVersion::V6),
        _ => None,
    }
}

/// The number that bytes spell, the most significant first.
pub open spec fn be_value(bytes: Seq<u8>) -> nat
    decreases bytes.len(),
{
    if bytes.len() == 0 {
        0
    } else {
        be_value(bytes.drop_last()) * 256 + bytes.last() as nat
    }
}

/// The version that a four byte family header stands for, in either byte order.
pub open spec fn header_version(header: Seq<u8>) -> Option<IpVersion> {
    let big = family_version(be_value(header) as int);
    if big is Some {
        big
    } else {
        family_version(be_value(header.reverse()) as int)
    }
}

/// The version that a four byte family header stands for, in either byte order.
pub fn ip_version_from_family_header(a: u8, b: u8, c: u8, d: u8) -> (version: Option<IpVersion>)
    ensures
        version == header_version(seq![a, b, c, d]),
{
    let big: u32 = ((a as u32 * 256 + b as u32) * 256 + c as u32) * 256 + d as u32;
    let little: u32 = ((d as u32 * 256 + c as u32) * 256 + b as u32) * 256 + a as u32;
    proof {
        lemma_be_value_four(a, b, c, d);
        lemma_be_value_four(d, c, b, a);
        assert(seq![a, b, c, d].reverse() =~= seq![d, c, b, a]);
    }
    match ip_version_from_address_family(big) {
        Some(version) => Some(version),
        None => ip_version_from_address_family(little),
    }
}

pub proof fn lemma_be_value_two(a: u8, b: u8)
    ensures
        be_value(seq![a, b]) == a * 256 + b,
{
    assert(seq![a, b].drop_last() =~= seq![a]);
    assert(seq![a].drop_last() =~= Seq::<u8>::empty());
    reveal_with_fuel(be_value, 3);
}

pub proof fn lemma_be_value_four(a: u8, b: u8, c: u8, d: u8)
    ensures
        be_value(seq![a, b, c, d]) == ((a * 256 + b) * 256 + c) * 256 + d,
{
    assert(seq![a, b, c, d].drop_last() =~= seq![a, b, c]);
    assert(seq![a, b, c].drop_last() =~= seq![a, b]);
    lemma_be_value_two(a, b);
    assert(be_value(seq![a, b, c]) == be_value(seq![a, b]) * 256 + c);
}

/// Where the packet starts in a frame, and what the frame says of it. A frame that
/// is too short, or that carries something else than IP, has none.
pub open spec fn payload_of(format: PacketFormat, data: Seq<u8>) -> Option<IpPayload> {
    let plain = |version: Option<IpVersion>|
        Some(
            IpPayload {
                start: 0,
                expected_version: version,
                link_len: 0,
                sll_packet_type: None,
            },
        );
    match format {
        PacketFormat::Raw => plain(None),
        PacketFormat::Ipv4 => plain(Some(IpVersion::V4)),
        PacketFormat::Ipv6 => plain(Some(IpVersion::V6)),
        PacketFormat::Null | PacketFormat::Loop => if data.len() < 4 {
            None
        } else {
            match header_version(data.take(4)) {
                Some(version) => Some(
                    IpPayload {
                        start: 4,
                        expected_version: Some(version),
                        link_len: 4,
                        sll_packet_type: None,
                    },
                ),
                None => None,
            }
        },
        PacketFormat::LinuxSll => if data.len() < 16 {
            None
        } else {
            match ether_version(be_value(data.subrange(14, 16)) as int) {
                Some(version) => Some(
                    IpPayload {
                        start: 16,
                        expected_version: Some(version),
                        link_len: 16,
                        sll_packet_type: Some(way_of(be_value(data.take(2)) as int)),
                    },
                ),
                None => None,
            }
        },
        PacketFormat::LinuxSll2 => if data.len() < 20 {
            None
        } else {
            match ether_version(be_value(data.take(2)) as int) {
                Some(version) => Some(
                    IpPayload {
                        start: 20,
                        expected_version: Some(version),
                        link_len: 20,
                        sll_packet_type: Some(way_of(data[10] as int)),
                    },
                ),
                None => None,
            }
        },
        PacketFormat::Ethernet => None,
    }
}

/// Where the packet starts in a frame, and what the frame says of it.
pub fn ip_payload(format: PacketFormat, data: &[u8]) -> (payload: Option<IpPayload>)
    ensures
        payload == payload_of(format, data@),
        payload matches Some(payload) ==> payload.start <= data@.len(),
{
    match format {
        PacketFormat::Raw => Some(
            IpPayload { start: 0, expected_version: None, link_len: 0, sll_packet_type: None },
        ),
        PacketFormat::Ipv4 => Some(
            IpPayload {
                start: 0,
                expected_version: Some(IpVersion::V4),
                link_len: 0,
                sll_packet_type: None,
            },
        ),
        PacketFormat::Ipv6 => Some(
            IpPayload {
                start: 0,
                expected_version: Some(IpVersion::V6),
                link_len: 0,
                sll_packet_type: None,
            },
        ),
        PacketFormat::Null | PacketFormat::Loop => {
            if data.len() < 4 {
                return None;
            }
            assert(data@.take(4) =~= seq![data@[0], data@[1], data@[2], data@[3]]);
            match ip_version_from_family_header(data[0], data[1], data[2], data[3]) {
                Some(version) => Some(
                    IpPayload {
                        start: 4,
                        expected_version: Some(version),
                        link_len: 4,
                        sll_packet_type: None,
                    },
                ),
                None => None,
            }
        },
        PacketFormat::LinuxSll => {
            if data.len() < 16 {
                return None;
            }
            let packet_type: u16 = data[0] as u16 * 256 + data[1] as u16;
            let ether_type: u16 = data[14] as u16 * 256 + data[15] as u16;
            proof {
                assert(data@.take(2) =~= seq![data@[0], data@[1]]);
                assert(data@.subrange(14, 16) =~= seq![data@[14], data@[15]]);
                lemma_be_value_two(data@[0], data@[1]);
                lemma_be_value_two(data@[14], data@[15]);
            }
            match ip_version_from_ether_type(ether_type) {
                Some(version) => Some(
                    IpPayload {
                        start: 16,
                        expected_version: Some(version),
                        link_len: 16,
                        sll_packet_type: Some(sll_packet_type(packet_type)),
                    },
                ),
                None => None,
            }
        },
        PacketFormat::LinuxSll2 => {
            if data.len() < 20 {
                return None;
            }
            let ether_type: u16 = data[0] as u16 * 256 + data[1] as u16;
            proof {
                assert(data@.take(2) =~= seq![data@[0], data@[1]]);
                lemma_be_value_two(data@[0], data@[1]);
            }
            match ip_version_from_ether_type(ether_type) {
                Some(version) => Some(
                    IpPayload {
                        start: 20,
                        expected_version: Some(version),
                        link_len: 20,
                        sll_packet_type: Some(sll_packet_type(data[10] as u16)),
                    },
                ),
                None => None,
            }
        },
        PacketFormat::Ethernet => None,
    }
}

/// The network header of a packet.
#[derive(Clone, Copy, Debug, PartialEq, Eq)]
pub enum NetHeader {
    /// The source, the destination and the length of the whole packet.
    Ipv4([u8; 4], [u8; 4], u16),
    /// The source, the destination and the length of what follows the header.
    Ipv6([u8; 16], [u8; 16], u16),
    /// None, or one of another protocol.
    Other,
}

/// The transport header of a packet.
#[derive(Clone, Copy, Debug, PartialEq, Eq, Structural)]
pub enum TransportPorts {
    /// The source and the destination port.
    Tcp(u16, u16),
    /// The source and the destination port.
    Udp(u16, u16),
    /// None, or one of another protocol.
    Other,
}

/// The headers of a packet, and what follows them.
#[derive(Debug, PartialEq, Eq)]
pub struct DecodedPacket {
    pub net: NetHeader,
    pub transport: TransportPorts,
    /// The lengths of the headers between the link and the network header.
    pub link_ext_lens: Vec<usize>,
    pub payload: Vec<u8>,
}

/// A network header as a mathematical value.
pub ghost enum NetView {
    Ipv4 { source: Seq<u8>, destination: Seq<u8>, total_len: u16 },
    Ipv6 { source: Seq<u8>, destination: Seq<u8>, payload_length: u16 },
    Other,
}

/// The headers of a packet, and what follows them, as mathematical values.
pub ghost struct DecodedView {
    pub net: NetView,
    pub transport: TransportPorts,
    pub link_ext_lens: Seq<usize>,
    pub payload: Seq<u8>,
}

impl View for NetHeader {
    type V = NetView;

    open spec fn view(&self) -> NetView {
        match *self {
            NetHeader::Ipv4(source, destination, total_len) => NetView::Ipv4 {
                source: source@,
                destination: destination@,
                total_len,
            },
            NetHeader::Ipv6(source, destination, payload_length) => NetView::Ipv6 {
                source: source@,
                destination: destination@,
                payload_length,
            },
            NetHeader::Other => NetView::Other,
        }
    }
}

impl View for DecodedPacket {
    type V = DecodedView;

    open spec fn view(&self) -> DecodedView {
        DecodedView {
            net: self.net@,
            transport: self.transport,
            link_ext_lens: self.link_ext_lens@,
            payload: self.payload@,
        }
    }
}

impl DecodedPacket {
    /// At most three headers stand between the link and the network header, of at
    /// most sixteen bytes each.
    pub open spec fn wf(self) -> bool {
        &&& self.link_ext_lens@.len() <= 3
        &&& forall|i: int|
            0 <= i < self.link_ext_lens@.len() ==> #[trigger] self.link_ext_lens@[i] <= 16
    }
}

/// Optional headers as mathematical values.
pub open spec fn decoded_view(decoded: Option<DecodedPacket>) -> Option<DecodedView> {
    match decoded {
        Some(decoded) => Some(decoded@),
        None => None,
    }
}

/// Whether headers, if there are any, are within their bounds.
pub open spec fn decoded_wf(decoded: Option<DecodedPacket>) -> bool {
    decoded matches Some(decoded) ==> decoded.wf()
}

/// The headers that `etherparse::PacketHeaders::from_ethernet_slice` reads, if it can.
pub uninterp spec fn ethernet_headers(frame: Seq<u8>) -> Option<DecodedView>;

/// The headers that `etherparse::PacketHeaders::from_ip_slice` reads, if it can.
pub uninterp spec fn ip_headers(packet: Seq<u8>) -> Option<DecodedView>;

/// Reads the headers of an Ethernet frame with
/// `etherparse::PacketHeaders::from_ethernet_slice`. What it reads depends on the
/// frame alone. It reads at most three link extension headers, and the longest
/// kind has sixteen bytes.
#[verifier::external_body]
fn read_ethernet(frame: &[u8]) -> (decoded: Option<DecodedPacket>)
    ensures
        decoded_view(decoded) == ethernet_headers(frame@),
        decoded_wf(decoded),
{
    let headers = PacketHeaders::from_ethernet_slice(frame).ok()?;
    Some(DecodedPacket {
        net: match headers.net {
            Some(NetHeaders::Ipv4(ip, _)) => NetHeader::Ipv4(ip.source, ip.destination, ip.total_len),
            Some(NetHeaders::Ipv6(ip, _)) => NetHeader::Ipv6(ip.source, ip.destination, ip.payload_length),
            _ => NetHeader::Other,
        },
        transport: match headers.transport {
            Some(TransportHeader::Tcp(tcp)) => TransportPorts::Tcp(tcp.source_port, tcp.destination_port),
            Some(TransportHeader::Udp(udp)) => TransportPorts::Udp(udp.source_port, udp.destination_port),
            _ => TransportPorts::Other,
        },
        link_ext_lens: headers.link_exts.iter().map(|ext| ext.header_len()).collect(),
        payload: headers.payload.slice().to_vec(),
    })
}

/// Reads the headers of an IP packet with `etherparse::PacketHeaders::from_ip_slice`.
/// What it reads depends on the packet alone.
#[verifier::external_body]
fn read_ip(packet: &[u8]) -> (decoded: Option<DecodedPacket>)
    ensures
        decoded_view(decoded) == ip_headers(packet@),
        decoded_wf(decoded),
{
    let headers = PacketHeaders::from_ip_slice(packet).ok()?;
    Some(DecodedPacket {
        net: match headers.net {
            Some(NetHeaders::Ipv4(ip, _)) => NetHeader::Ipv4(ip.source, ip.destination, ip.total_len),
            Some(NetHeaders::Ipv6(ip, _)) => NetHeader::Ipv6(ip.source, ip.destination, ip.payload_length),
            _ => NetHeader::Other,
        },
        transport: match headers.transport {
            Some(TransportHeader::Tcp(tcp)) => TransportPorts::Tcp(tcp.source_port, tcp.destination_port),
            Some(TransportHeader::Udp(udp)) => TransportPorts::Udp(udp.source_port, udp.destination_port),
            _ => TransportPorts::Other,
        },
        link_ext_lens: headers.link_exts.iter().map(|ext| ext.header_len()).collect(),
        payload: headers.payload.slice().to_vec(),
    })
}

/// What becomes of a frame, with the flow and the TCP payload if it is accepted.
#[derive(Debug)]
pub struct PayloadParseOutcome {
    pub disposition: PacketDisposition,
    pub parsed: Option<(Flow, Option<Vec<u8>>)>,
}

/// What becomes of a frame, as a mathematical value.
pub ghost struct OutcomeView {
    pub disposition: PacketDisposition,
    pub parsed: Option<(Flow, Option<Seq<u8>>)>,
}

impl View for PayloadParseOutcome {
    type V = OutcomeView;

    open spec fn view(&self) -> OutcomeView {
        OutcomeView {
            disposition: self.disposition,
            parsed: match self.parsed {
                Some((flow, Some(payload))) => Some((flow, Some(payload@))),
                Some((flow, None)) => Some((flow, None)),
                None => None,
            },
        }
    }
}

/// A discarded frame.
pub open spec fn discarded(disposition: PacketDisposition) -> OutcomeView {
    OutcomeView { disposition, parsed: None }
}

impl PayloadParseOutcome {
    /// A discarded frame.
    pub fn discarded(disposition: PacketDisposition) -> (outcome: Self)
        ensures
            outcome@ == discarded(disposition),
            outcome.parsed is None,
    {
        PayloadParseOutcome { disposition, parsed: None }
    }
}

/// The addresses of a packet, its length and its version.
pub ghost struct Endpoints {
    pub src: IpAddr,
    pub dst: IpAddr,
    pub ip_bytes: int,
    pub version: IpVersion,
}

/// The addresses and the length that a network header gives. The length of an
/// IPv6 packet does not count its header of forty bytes.
pub open spec fn endpoints_of(net: NetView) -> Option<Endpoints> {
    match net {
        NetView::Ipv4 { source, destination, total_len } => Some(
            Endpoints {
                src: IpAddr::V4(be_value(source) as u32),
                dst: IpAddr::V4(be_value(destination) as u32),
                ip_bytes: total_len as int,
                version: IpVersion::V4,
            },
        ),
        NetView::Ipv6 { source, destination, payload_length } => Some(
            Endpoints {
                src: IpAddr::V6(be_value(source) as u128),
                dst: IpAddr::V6(be_value(destination) as u128),
                ip_bytes: payload_length + 40,
                version: IpVersion::V6,
            },
        ),
        _ => None,
    }
}

/// The sum of header lengths.
pub open spec fn total_len(lens: Seq<usize>) -> nat
    decreases lens.len(),
{
    if lens.len() == 0 {
        0
    } else {
        total_len(lens.drop_last()) + lens.last() as nat
    }
}

/// The ports of a packet with the protocol that has them.
pub open spec fn ports_of(transport: TransportPorts) -> Option<(u16, u16, TransportProtocol)> {
    match transport {
        TransportPorts::Tcp(source, destination) => Some(
            (source, destination, TransportProtocol::Tcp),
        ),
        TransportPorts::Udp(source, destination) => Some(
            (source, destination, TransportProtocol::Udp),
        ),
        _ => None,
    }
}

/// The flow of a packet of which at least one end is local. It is outbound if the
/// source is local. Between two local ends both sockets are named.
pub open spec fn flow_of(
    ends: Endpoints,
    transport: TransportPorts,
    bytes: u64,
    local_ips: Seq<IpAddr>,
) -> Flow {
    let outbound = local_ips.contains(ends.src);
    let both = outbound && local_ips.contains(ends.dst);
    let ports = ports_of(transport);
    Flow {
        direction: if outbound {
            Direction::Outbound
        } else {
            Direction::Inbound
        },
        peer: if outbound {
            ends.dst
        } else {
            ends.src
        },
        peer_port: match ports {
            Some((source, destination, _)) => Some(
                if outbound {
                    destination
                } else {
                    source
                },
            ),
            None => None,
        },
        bytes,
        local_socket: match ports {
            Some((source, destination, protocol)) => Some(
                if outbound {
                    LocalSocket { ip: ends.src, port: source, protocol }
                } else {
                    LocalSocket { ip: ends.dst, port: destination, protocol }
                },
            ),
            None => None,
        },
        peer_local_socket: match ports {
            Some((_, destination, protocol)) if both => Some(
                LocalSocket { ip: ends.dst, port: destination, protocol },
            ),
            _ => None,
        },
        domain: None,
    }
}

/// What becomes of a packet whose headers have been read. Its bytes are those of
/// the link header, of Ethernet's extension headers, and of the IP packet; padding
/// behind it does not count.
pub open spec fn classified(
    format: PacketFormat,
    link_len: u64,
    sll_packet_type: Option<SllPacketType>,
    decoded: DecodedView,
    local_ips: Seq<IpAddr>,
) -> OutcomeView {
    match endpoints_of(decoded.net) {
        None => discarded(PacketDisposition::NonIp),
        Some(ends) => {
            let src_local = local_ips.contains(ends.src);
            let dst_local = local_ips.contains(ends.dst);
            let ext_len = if format == PacketFormat::Ethernet {
                total_len(decoded.link_ext_lens)
            } else {
                0
            };
            if src_local && dst_local && sll_packet_type == Some(SllPacketType::Outgoing) {
                discarded(PacketDisposition::DuplicateOutgoing)
            } else if !src_local && !dst_local {
                discarded(
                    PacketDisposition::NonLocal {
                        version: ends.version,
                        src: ends.src,
                        dst: ends.dst,
                    },
                )
            } else {
                OutcomeView {
                    disposition: PacketDisposition::Accepted,
                    parsed: Some(
                        (
                            flow_of(
                                ends,
                                decoded.transport,
                                (link_len + ext_len + ends.ip_bytes) as u64,
                                local_ips,
                            ),
                            if decoded.transport is Tcp && decoded.payload.len() > 0 {
                                Some(decoded.payload)
                            } else {
                                None
                            },
                        ),
                    ),
                }
            }
        },
    }
}

/// What becomes of a frame.
pub open spec fn frame_outcome(format: PacketFormat, data: Seq<u8>, local_ips: Seq<IpAddr>) -> OutcomeView {
    if format == PacketFormat::Ethernet {
        match ethernet_headers(data) {
            Some(decoded) => classified(format, 14, None, decoded, local_ips),
            None => discarded(PacketDisposition::ParseError),
        }
    } else {
        match payload_of(format, data) {
            None => discarded(PacketDisposition::NonIp),
            Some(payload) => {
                let packet = data.skip(payload.start as int);
                if payload.expected_version is Some && version_of(packet)
                    != payload.expected_version {
                    discarded(PacketDisposition::ParseError)
                } else {
                    match ip_headers(packet) {
                        Some(decoded) => classified(
                            format,
                            payload.link_len,
                            payload.sll_packet_type,
                            decoded,
                            local_ips,
                        ),
                        None => discarded(PacketDisposition::ParseError),
                    }
                }
            },
        }
    }
}

fn is_local(local_ips: &Vec<IpAddr>, ip: IpAddr) -> (local: bool)
    ensures
        local == local_ips@.contains(ip),
{
    let mut i: usize = 0;
    while i < local_ips.len()
        invariant
            i <= local_ips@.len(),
            forall|j: int| 0 <= j < i ==> #[trigger] local_ips@[j] != ip,
        decreases local_ips@.len() - i,
    {
        if local_ips[i] == ip {
            return true;
        }
        i += 1;
    }
    false
}

fn v4_from_octets(octets: [u8; 4]) -> (ip: IpAddr)
    ensures
        ip == IpAddr::V4(be_value(octets@) as u32),
{
    let value: u32 = ((octets[0] as u32 * 256 + octets[1] as u32) * 256 + octets[2] as u32) * 256
        + octets[3] as u32;
    proof {
        assert(octets@ =~= seq![octets@[0], octets@[1], octets@[2], octets@[3]]);
        lemma_be_value_four(octets@[0], octets@[1], octets@[2], octets@[3]);
    }
    IpAddr::V4(value)
}

proof fn lemma_be_value_bound(bytes: Seq<u8>)
    ensures
        be_value(bytes) < vstd::arithmetic::power::pow(256, bytes.len()),
    decreases bytes.len(),
{
    vstd::arithmetic::power::lemma_pow0(256);
    if bytes.len() > 0 {
        let shorter = bytes.drop_last();
        lemma_be_value_bound(shorter);
        vstd::arithmetic::power::lemma_pow1(256);
        vstd::arithmetic::power::lemma_pow_adds(256, shorter.len(), 1);
    }
}

fn v6_from_octets(octets: [u8; 16]) -> (ip: IpAddr)
    ensures
        ip == IpAddr::V6(be_value(octets@) as u128),
{
    let mut value: u128 = 0;
    let mut i: usize = 0;
    assert(octets@.take(0) =~= Seq::<u8>::empty());
    while i < 16
        invariant
            i <= 16,
            octets@.len() == 16,
            value == be_value(octets@.take(i as int)),
        decreases 16 - i,
    {
        proof {
            assert(octets@.take(i + 1).drop_last() =~= octets@.take(i as int));
            lemma_be_value_bound(octets@.take(i + 1));
            vstd::arithmetic::power::lemma_pow_increases(256, (i + 1) as nat, 16);
            lemma_pow_256_16();
        }
        value = value * 256 + octets[i] as u128;
        i += 1;
    }
    assert(octets@.take(16) =~= octets@);
    IpAddr::V6(value)
}

proof fn lemma_pow_256_16()
    ensures
        vstd::arithmetic::power::pow(256, 16) == 0x1_0000_0000_0000_0000_0000_0000_0000_0000,
{
    vstd::arithmetic::power::lemma_pow1(256);
    lemma_square_pow_256(1, 256);
    lemma_square_pow_256(2, 0x1_0000);
    lemma_square_pow_256(4, 0x1_0000_0000);
    lemma_square_pow_256(8, 0x1_0000_0000_0000_0000);
}

proof fn lemma_square_pow_256(n: nat, value: int)
    requires
        vstd::arithmetic::power::pow(256, n) == value,
    ensures
        vstd::arithmetic::power::pow(256, n + n) == value * value,
{
    vstd::arithmetic::power::lemma_pow_adds(256, n, n);
}

fn sum_lens(decoded: &DecodedPacket) -> (sum: u64)
    requires
        decoded.wf(),
    ensures
        sum == total_len(decoded.link_ext_lens@),
        sum <= 48,
{
    let mut sum: u64 = 0;
    let mut i: usize = 0;
    let ghost lens = decoded.link_ext_lens@;
    assert(lens.take(0) =~= Seq::<usize>::empty());
    while i < decoded.link_ext_lens.len()
        invariant
            decoded.wf(),
            lens == decoded.link_ext_lens@,
            i <= lens.len(),
            sum == total_len(lens.take(i as int)),
            sum <= 16 * i,
        decreases lens.len() - i,
    {
        assert(lens.take(i + 1).drop_last() =~= lens.take(i as int));
        assert(lens[i as int] <= 16);
        sum = sum + decoded.link_ext_lens[i] as u64;
        i += 1;
    }
    assert(lens.take(i as int) =~= lens);
    sum
}

/// What becomes of a packet whose headers have been read.
pub fn classify_packet(
    format: PacketFormat,
    link_len: u64,
    sll_packet_type: Option<SllPacketType>,
    decoded: DecodedPacket,
    local_ips: &Vec<IpAddr>,
) -> (outcome: PayloadParseOutcome)
    requires
        decoded.wf(),
        link_len <= 20,
    ensures
        outcome@ == classified(format, link_len, sll_packet_type, decoded@, local_ips@),
{
    let (src, dst, ip_bytes, version): (IpAddr, IpAddr, u64, IpVersion) = match decoded.net {
        NetHeader::Ipv4(source, destination, total_len) => (
            v4_from_octets(source),
            v4_from_octets(destination),
            total_len as u64,
            IpVersion::V4,
        ),
        NetHeader::Ipv6(source, destination, payload_length) => (
            v6_from_octets(source),
            v6_from_octets(destination),
            payload_length as u64 + 40,
            IpVersion::V6,
        ),
        _ => {
            return PayloadParseOutcome::discarded(PacketDisposition::NonIp);
        },
    };
    let link_ext_len: u64 = if format == PacketFormat::Ethernet {
        sum_lens(&decoded)
    } else {
        0
    };
    let bytes: u64 = link_len + link_ext_len + ip_bytes;
    let src_local = is_local(local_ips, src);
    let dst_local = is_local(local_ips, dst);
    let outgoing = match sll_packet_type {
        Some(way) => way == SllPacketType::Outgoing,
        None => false,
    };
    if src_local && dst_local && outgoing {
        return PayloadParseOutcome::discarded(PacketDisposition::DuplicateOutgoing);
    }
    let (direction, local_ip, peer) = if src_local {
        (Direction::Outbound, src, dst)
    } else if dst_local {
        (Direction::Inbound, dst, src)
    } else {
        return PayloadParseOutcome::discarded(PacketDisposition::NonLocal { version, src, dst });
    };
    let ports: Option<(u16, u16, TransportProtocol)> = match decoded.transport {
        TransportPorts::Tcp(source, destination) => Some(
            (source, destination, TransportProtocol::Tcp),
        ),
        TransportPorts::Udp(source, destination) => Some(
            (source, destination, TransportProtocol::Udp),
        ),
        _ => None,
    };
    let is_tcp = match decoded.transport {
        TransportPorts::Tcp(_, _) => true,
        _ => false,
    };
    let mut local_socket: Option<LocalSocket> = None;
    let mut peer_local_socket: Option<LocalSocket> = None;
    let mut peer_port: Option<u16> = None;
    if let Some((source, destination, protocol)) = ports {
        let (port, other): (u16, u16) = if src_local {
            (source, destination)
        } else {
            (destination, source)
        };
        local_socket = Some(LocalSocket { ip: local_ip, port, protocol });
        if src_local && dst_local {
            peer_local_socket = Some(LocalSocket { ip: dst, port: destination, protocol });
        }
        peer_port = Some(other);
    }
    let payload = if is_tcp && decoded.payload.len() > 0 {
        Some(decoded.payload)
    } else {
        None
    };
    PayloadParseOutcome {
        disposition: PacketDisposition::Accepted,
        parsed: Some(
            (
                Flow {
                    direction,
                    peer,
                    peer_port,
                    bytes,
                    local_socket,
                    peer_local_socket,
                    domain: None,
                },
                payload,
            ),
        ),
    }
}

/// What becomes of a frame, with the flow and the TCP payload if it is accepted.
pub fn parse_with_payload(link_type: i32, data: &[u8], local_ips: &Vec<IpAddr>) -> (outcome: Result<
    PayloadParseOutcome,
    UnsupportedLink,
>)
    ensures
        match format_of(link_type) {
            Some(format) => outcome matches Ok(outcome) && outcome@ == frame_outcome(
                format,
                data@,
                local_ips@,
            ),
            None => outcome == Err::<PayloadParseOutcome, UnsupportedLink>(
                UnsupportedLink(link_type),
            ),
        },
{
    let format = match packet_format(link_type) {
        Ok(format) => format,
        Err(error) => {
            return Err(error);
        },
    };
    if format == PacketFormat::Ethernet {
        return match read_ethernet(data) {
            Some(decoded) => Ok(classify_packet(format, 14, None, decoded, local_ips)),
            None => Ok(PayloadParseOutcome::discarded(PacketDisposition::ParseError)),
        };
    }
    let payload = match ip_payload(format, data) {
        Some(payload) => payload,
        None => {
            return Ok(PayloadParseOutcome::discarded(PacketDisposition::NonIp));
        },
    };
    let packet = vstd::slice::slice_subrange(data, payload.start, data.len());
    assert(packet@ =~= data@.skip(payload.start as int));
    if let Some(expected) = payload.expected_version {
        let matches = match ip_version(packet) {
            Some(version) => version == expected,
            None => false,
        };
        if !matches {
            return Ok(PayloadParseOutcome::discarded(PacketDisposition::ParseError));
        }
    }
    match read_ip(packet) {
        Some(decoded) => Ok(
            classify_packet(
                format,
                payload.link_len,
                payload.sll_packet_type,
                decoded,
                local_ips,
            ),
        ),
        None => Ok(PayloadParseOutcome::discarded(PacketDisposition::ParseError)),
    }
}

/// What becomes of a frame, with the flow if it is accepted.
#[derive(Debug)]
pub struct FlowParseOutcome {
    pub disposition: PacketDisposition,
    pub flow: Option<Flow>,
}

/// The flow of a frame, without its host name.
pub fn parse(link_type: i32, data: &[u8], local_ips: &Vec<IpAddr>) -> (flow: Result<
    Option<Flow>,
    UnsupportedLink,
>)
    ensures
        match format_of(link_type) {
            Some(format) => flow == Ok::<Option<Flow>, UnsupportedLink>(
                match frame_outcome(format, data@, local_ips@).parsed {
                    Some((flow, _)) => Some(flow),
                    None => None,
                },
            ),
            None => flow == Err::<Option<Flow>, UnsupportedLink>(UnsupportedLink(link_type)),
        },
{
    match parse_with_payload(link_type, data, local_ips) {
        Ok(outcome) => match outcome.parsed {
            Some((flow, _)) => Ok(Some(flow)),
            None => Ok(None),
        },
        Err(error) => Err(error),
    }
}

/// The connection of a TCP flow.
pub open spec fn key_of(flow: Flow) -> Option<FlowKey> {
    match (flow.local_socket, flow.peer_port) {
        (Some(socket), Some(peer_port)) => if socket.protocol == TransportProtocol::Tcp {
            Some(
                FlowKey {
                    local_ip: socket.ip,
                    local_port: socket.port,
                    peer_ip: flow.peer,
                    peer_port,
                },
            )
        } else {
            None
        },
        _ => None,
    }
}

/// The connection of a TCP flow.
pub fn flow_key_from(flow: &Flow) -> (key: Option<FlowKey>)
    ensures
        key == key_of(*flow),
{
    match (flow.local_socket, flow.peer_port) {
        (Some(socket), Some(peer_port)) => {
            if socket.protocol == TransportProtocol::Tcp {
                Some(
                    FlowKey {
                        local_ip: socket.ip,
                        local_port: socket.port,
                        peer_ip: flow.peer,
                        peer_port,
                    },
                )
            } else {
                None
            }
        },
        _ => None,
    }
}

/// What to do about the host name of an outbound packet.
#[derive(Debug, PartialEq, Eq)]
pub enum DomainPlan {
    /// The host name is known.
    Known(String),
    /// It has been looked for often enough.
    GiveUp,
    /// Look for it, after `earlier` attempts that failed.
    Read { earlier: u8 },
}

/// What to do about the host name, as a mathematical value.
pub ghost enum PlanView {
    Known(Seq<char>),
    GiveUp,
    Read { earlier: u8 },
}

impl View for DomainPlan {
    type V = PlanView;

    open spec fn view(&self) -> PlanView {
        match *self {
            DomainPlan::Known(domain) => PlanView::Known(domain@),
            DomainPlan::GiveUp => PlanView::GiveUp,
            DomainPlan::Read { earlier } => PlanView::Read { earlier },
        }
    }
}

/// What to do about the host name, given what is known of the connection.
pub open spec fn plan_for(known: Option<FlowKnowledge>) -> PlanView {
    match known {
        Some(FlowKnowledge::Resolved(domain)) => PlanView::Known(domain),
        Some(FlowKnowledge::NoDomain { attempts }) => if attempts < MAX_NO_DOMAIN_PARSE_ATTEMPTS {
            PlanView::Read { earlier: attempts }
        } else {
            PlanView::GiveUp
        },
        None => PlanView::Read { earlier: 0 },
    }
}

/// What is known of a connection, as a mathematical value.
pub open spec fn entry_view(entry: Option<FlowEntry>) -> Option<FlowKnowledge> {
    match entry {
        Some(entry) => Some(entry@),
        None => None,
    }
}

/// What to do about the host name, given what is known of the connection.
pub fn plan_domain(entry: Option<FlowEntry>) -> (plan: DomainPlan)
    ensures
        plan@ == plan_for(entry_view(entry)),
{
    match entry {
        Some(FlowEntry::Resolved(domain)) => DomainPlan::Known(domain),
        Some(FlowEntry::NoDomain { attempts }) => {
            if attempts < MAX_NO_DOMAIN_PARSE_ATTEMPTS {
                DomainPlan::Read { earlier: attempts }
            } else {
                DomainPlan::GiveUp
            }
        },
        None => DomainPlan::Read { earlier: 0 },
    }
}

/// The host name in what is known of a connection.
pub open spec fn name_in(known: Option<FlowKnowledge>) -> Option<Seq<char>> {
    match known {
        Some(FlowKnowledge::Resolved(domain)) => Some(domain),
        _ => None,
    }
}

/// The host name in what is known of a connection.
pub fn known_domain(entry: Option<FlowEntry>) -> (domain: Option<String>)
    ensures
        text_view(domain) == name_in(entry_view(entry)),
{
    match entry {
        Some(FlowEntry::Resolved(domain)) => Some(domain),
        _ => None,
    }
}

/// What is known of connections once a payload of one has been read.
pub open spec fn after_reading(
    before: Map<FlowKey, FlowKnowledge>,
    key: FlowKey,
    earlier: u8,
    read: Option<Seq<char>>,
) -> Map<FlowKey, FlowKnowledge> {
    match read {
        Some(domain) => before.insert(key, FlowKnowledge::Resolved(domain)),
        None => before.insert(key, FlowKnowledge::NoDomain { attempts: one_more(earlier) }),
    }
}

/// Notes what reading a payload gave, after `earlier` attempts that failed.
pub fn note_reading(flow_table: &mut FlowTable, key: FlowKey, earlier: u8, read: &Option<String>)
    ensures
        final(flow_table).continues(*old(flow_table)),
        final(flow_table)@ == after_reading(old(flow_table)@, key, earlier, text_view(*read)),
{
    match read {
        Some(domain) => {
            flow_table.insert_resolved(key, domain.clone());
        },
        None => {
            if earlier == 0 {
                flow_table.insert_no_domain(key);
            } else {
                flow_table.note_attempt(key, Some(FlowEntry::NoDomain { attempts: earlier }));
            }
        },
    }
}

/// Whether two flows differ at most in the host name.
pub open spec fn same_but_domain(left: Flow, right: Flow) -> bool {
    &&& left.direction == right.direction
    &&& left.peer == right.peer
    &&& left.peer_port == right.peer_port
    &&& left.bytes == right.bytes
    &&& left.local_socket == right.local_socket
    &&& left.peer_local_socket == right.peer_local_socket
}

/// Whether the table may have said this of a connection: nothing at any time, else
/// what was last learned.
pub open spec fn may_say(
    table: Map<FlowKey, FlowKnowledge>,
    key: FlowKey,
    said: Option<FlowKnowledge>,
) -> bool {
    said matches Some(said) ==> table.contains_key(key) && table[key] == said
}

/// Whether an accepted packet got this host name, and the table became `after`, given
/// what the table said of the connection. An inbound packet takes the name that the
/// table knows. An outbound one with a payload is read unless the table knows better.
pub open spec fn domain_given<P: DomainParser>(
    parser: P,
    before: Map<FlowKey, FlowKnowledge>,
    said: Option<FlowKnowledge>,
    flow: Flow,
    payload: Option<Seq<u8>>,
    domain: Option<Seq<char>>,
    after: Map<FlowKey, FlowKnowledge>,
) -> bool {
    match (flow.direction, payload, key_of(flow)) {
        (Direction::Inbound, _, Some(_)) => domain == name_in(said) && after == before,
        (Direction::Inbound, _, None) => domain is None && after == before,
        (Direction::Outbound, None, _) => domain is None && after == before,
        (Direction::Outbound, Some(payload), None) => may_read(parser, payload, domain) && after
            == before,
        (Direction::Outbound, Some(payload), Some(key)) => match plan_for(said) {
            PlanView::Known(known) => domain == Some(known) && after == before,
            PlanView::GiveUp => domain is None && after == before,
            PlanView::Read { earlier } => may_read(parser, payload, domain) && after
                == after_reading(before, key, earlier, domain),
        },
    }
}

/// Whether an accepted packet got this host name, and the table became `after`. What
/// the table said of the connection was last learned of it, or nothing.
pub open spec fn domain_found<P: DomainParser>(
    parser: P,
    before: Map<FlowKey, FlowKnowledge>,
    flow: Flow,
    payload: Option<Seq<u8>>,
    domain: Option<Seq<char>>,
    after: Map<FlowKey, FlowKnowledge>,
) -> bool {
    match key_of(flow) {
        None => domain_given(parser, before, None, flow, payload, domain, after),
        Some(key) => exists|said: Option<FlowKnowledge>|
            #[trigger] may_say(before, key, said) && domain_given(
                parser,
                before,
                said,
                flow,
                payload,
                domain,
                after,
            ),
    }
}

/// The bytes of an optional payload.
pub open spec fn payload_view(payload: Option<Vec<u8>>) -> Option<Seq<u8>> {
    match payload {
        Some(payload) => Some(payload@),
        None => None,
    }
}

/// The host name of an accepted packet, given what the table says of its connection. The
/// parser reads an outbound payload unless the host name is known or given up, and the
/// table learns what that gave.
pub fn settle_domain<P: DomainParser>(
    parser: &P,
    flow: &Flow,
    payload: &Option<Vec<u8>>,
    entry: Option<FlowEntry>,
    flow_table: &mut FlowTable,
) -> (domain: Option<String>)
    ensures
        final(flow_table).continues(*old(flow_table)),
        domain_given(
            *parser,
            old(flow_table)@,
            entry_view(entry),
            *flow,
            payload_view(*payload),
            text_view(domain),
            final(flow_table)@,
        ),
{
    let key = flow_key_from(flow);
    if flow.direction != Direction::Outbound {
        return match key {
            Some(_) => known_domain(entry),
            None => None,
        };
    }
    let payload = match payload {
        Some(payload) => payload,
        None => {
            return None;
        },
    };
    let bytes = payload.as_slice();
    match key {
        None => {
            let read = parser.parse_domain(bytes);
            assert(reads(*parser, bytes, read));
            read
        },
        Some(key) => match plan_domain(entry) {
            DomainPlan::Known(domain) => Some(domain),
            DomainPlan::GiveUp => None,
            DomainPlan::Read { earlier } => {
                let read = parser.parse_domain(bytes);
                assert(reads(*parser, bytes, read));
                note_reading(flow_table, key, earlier, &read);
                read
            },
        },
    }
}

/// What becomes of a frame, with the host name of its connection. The parser reads
/// a connection's payloads until it finds the name, a bounded number of times.
pub fn parse_with_domain_parser_outcome<P: DomainParser>(
    link_type: i32,
    data: &[u8],
    local_ips: &Vec<IpAddr>,
    parser: &P,
    flow_table: &mut FlowTable,
) -> (outcome: Result<FlowParseOutcome, UnsupportedLink>)
    ensures
        final(flow_table).continues(*old(flow_table)),
        match format_of(link_type) {
            None => outcome == Err::<FlowParseOutcome, UnsupportedLink>(
                UnsupportedLink(link_type),
            ) && final(flow_table)@ == old(flow_table)@,
            Some(format) => {
                let parsed = frame_outcome(format, data@, local_ips@);
                &&& outcome matches Ok(outcome)
                &&& outcome.disposition == parsed.disposition
                &&& match parsed.parsed {
                    None => outcome.flow is None && final(flow_table)@ == old(flow_table)@,
                    Some((flow, payload)) => {
                        &&& outcome.flow matches Some(found)
                        &&& same_but_domain(found, flow)
                        &&& domain_found(
                            *parser,
                            old(flow_table)@,
                            flow,
                            payload,
                            text_view(found.domain),
                            final(flow_table)@,
                        )
                    },
                }
            },
        },
{
    let parsed = match parse_with_payload(link_type, data, local_ips) {
        Ok(parsed) => parsed,
        Err(error) => {
            return Err(error);
        },
    };
    let disposition = parsed.disposition;
    let (mut flow, payload) = match parsed.parsed {
        Some((flow, payload)) => (flow, payload),
        None => {
            return Ok(FlowParseOutcome { disposition, flow: None });
        },
    };
    let key = flow_key_from(&flow);
    let asked = flow.direction != Direction::Outbound || payload.is_some();
    let entry = match key {
        Some(key) => if asked {
            flow_table.lookup(&key)
        } else {
            None
        },
        None => None,
    };
    proof {
        if let Some(key) = key {
            assert(may_say(flow_table@, key, entry_view(entry)));
        }
    }
    let domain = settle_domain(parser, &flow, &payload, entry, flow_table);
    flow.domain = domain;
    Ok(FlowParseOutcome { disposition, flow: Some(flow) })
}

/// What becomes of a frame, with the host name that its own payload gives.
pub fn parse_uncached<P: DomainParser>(
    link_type: i32,
    data: &[u8],
    local_ips: &Vec<IpAddr>,
    parser: &P,
) -> (outcome: Result<FlowParseOutcome, UnsupportedLink>)
    ensures
        match format_of(link_type) {
            None => outcome == Err::<FlowParseOutcome, UnsupportedLink>(
                UnsupportedLink(link_type),
            ),
            Some(format) => {
                let parsed = frame_outcome(format, data@, local_ips@);
                &&& outcome matches Ok(outcome)
                &&& outcome.disposition == parsed.disposition
                &&& match parsed.parsed {
                    None => outcome.flow is None,
                    Some((flow, payload)) => {
                        &&& outcome.flow matches Some(found)
                        &&& same_but_domain(found, flow)
                        &&& if flow.direction == Direction::Outbound && payload is Some {
                            may_read(*parser, payload->0, text_view(found.domain))
                        } else {
                            found.domain is None
                        }
                    },
                }
            },
        },
{
    let parsed = match parse_with_payload(link_type, data, local_ips) {
        Ok(parsed) => parsed,
        Err(error) => {
            return Err(error);
        },
    };
    let disposition = parsed.disposition;
    match parsed.parsed {
        Some((flow, payload)) => {
            let mut flow = flow;
            if flow.direction == Direction::Outbound {
                if let Some(payload) = payload {
                    let bytes = payload.as_slice();
                    let read = parser.parse_domain(bytes);
                    assert(reads(*parser, bytes, read));
                    flow.domain = read;
                }
            }
            Ok(FlowParseOutcome { disposition, flow: Some(flow) })
        },
        None => Ok(FlowParseOutcome { disposition, flow: None }),
    }
}

} // verus!
