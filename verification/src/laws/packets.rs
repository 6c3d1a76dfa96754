//! What a captured packet says of its endpoints, its size and its way.

use vstd::prelude::*;

use crate::capture::parser::{
    be_value, classified, endpoints_of, ethernet_headers, frame_outcome, ip_headers,
    lemma_be_value_four, lemma_be_value_two, payload_of, total_len, DecodedView,
    IpPayload, IpVersion, NetView, PacketDisposition, PacketFormat, SllPacketType, TransportPorts,
};
use crate::net::{Direction, IpAddr, LocalSocket, TransportProtocol};

verus! {

/// Bytes spell a number with the most significant first: each further byte moves those before
/// it up by eight bits.
pub proof fn lemma_most_significant_byte_first(bytes: Seq<u8>, next: u8)
    ensures
        be_value(Seq::<u8>::empty()) == 0,
        be_value(bytes.push(next)) == 256 * be_value(bytes) + next,
{
    assert(bytes.push(next).drop_last() =~= bytes);
}

/// The addresses of an IPv4 packet are the numbers that its header's octets spell, the source
/// from the source field and the destination from the destination field, and its size is the
/// whole length that the header gives. That of an IPv6 packet is the length that its header
/// gives and forty bytes more, for the header itself.
pub proof fn lemma_addresses_come_from_the_header(
    a: u8,
    b: u8,
    c: u8,
    d: u8,
    e: u8,
    f: u8,
    g: u8,
    h: u8,
    v6_source: Seq<u8>,
    v6_destination: Seq<u8>,
    length: u16,
)
    ensures
        endpoints_of(
            NetView::Ipv4 {
                source: seq![a, b, c, d],
                destination: seq![e, f, g, h],
                total_len: length,
            },
        ) matches Some(ends) && {
            &&& ends.src matches IpAddr::V4(src) && src == a * 0x100_0000 + b * 0x1_0000 + c * 0x100
                + d
            &&& ends.dst matches IpAddr::V4(dst) && dst == e * 0x100_0000 + f * 0x1_0000 + g * 0x100
                + h
            &&& ends.ip_bytes == length
            &&& ends.version == IpVersion::V4
        },
        endpoints_of(
            NetView::Ipv6 {
                source: v6_source,
                destination: v6_destination,
                payload_length: length,
            },
        ) matches Some(ends) && {
            &&& ends.src == IpAddr::V6(be_value(v6_source) as u128)
            &&& ends.dst == IpAddr::V6(be_value(v6_destination) as u128)
            &&& ends.ip_bytes == length + 40
            &&& ends.version == IpVersion::V6
        },
        endpoints_of(NetView::Other) is None,
{
    lemma_be_value_four(a, b, c, d);
    lemma_be_value_four(e, f, g, h);
}

/// A packet is accepted exactly if one of its addresses is local, unless it is the outgoing
/// copy of one between two local addresses. What is left out says why, with the addresses of a
/// packet that is not local.
pub proof fn lemma_local_packets_are_accepted(
    format: PacketFormat,
    link_len: u64,
    sll_packet_type: Option<SllPacketType>,
    decoded: DecodedView,
    local_ips: Seq<IpAddr>,
    src: IpAddr,
    dst: IpAddr,
)
    requires
        endpoints_of(decoded.net) matches Some(ends) && ends.src == src && ends.dst == dst,
    ensures
        ({
            let outcome = classified(format, link_len, sll_packet_type, decoded, local_ips);
            let copy = local_ips.contains(src) && local_ips.contains(dst) && sll_packet_type
                == Some(SllPacketType::Outgoing);
            let local = local_ips.contains(src) || local_ips.contains(dst);
            &&& outcome.parsed is Some <==> local && !copy
            &&& outcome.disposition == PacketDisposition::Accepted <==> local && !copy
            &&& outcome.disposition == PacketDisposition::DuplicateOutgoing <==> copy
            &&& !local ==> {
                &&& outcome.disposition matches PacketDisposition::NonLocal {
                    version,
                    src: from,
                    dst: to,
                }
                &&& from == src
                &&& to == dst
                &&& version == IpVersion::V4 <==> src is V4
            }
        }),
{
}

/// An accepted packet that has ports names a second local socket exactly if both its addresses
/// are local, whatever its transport: the destination address with the destination port and the
/// packet's transport. The first one is at its source if that is local, else at its
/// destination, with the port of that end; the peer is the other end with the other port.
pub proof fn lemma_sockets_of_an_accepted_packet(
    format: PacketFormat,
    link_len: u64,
    sll_packet_type: Option<SllPacketType>,
    decoded: DecodedView,
    local_ips: Seq<IpAddr>,
    src: IpAddr,
    dst: IpAddr,
    source_port: u16,
    destination_port: u16,
    protocol: TransportProtocol,
)
    requires
        classified(format, link_len, sll_packet_type, decoded, local_ips).parsed is Some,
        endpoints_of(decoded.net) matches Some(ends) && ends.src == src && ends.dst == dst,
        decoded.transport == match protocol {
            TransportProtocol::Tcp => TransportPorts::Tcp(source_port, destination_port),
            TransportProtocol::Udp => TransportPorts::Udp(source_port, destination_port),
        },
    ensures
        ({
            let outcome = classified(format, link_len, sll_packet_type, decoded, local_ips);
            let (flow, _) = outcome.parsed->0;
            let sender = LocalSocket { ip: src, port: source_port, protocol };
            let receiver = LocalSocket { ip: dst, port: destination_port, protocol };
            &&& flow.peer_local_socket is Some <==> local_ips.contains(src) && local_ips.contains(
                dst,
            )
            &&& flow.peer_local_socket matches Some(second) ==> second == receiver
            &&& local_ips.contains(src) ==> {
                &&& flow.direction == Direction::Outbound
                &&& flow.local_socket == Some(sender)
                &&& flow.peer == dst
                &&& flow.peer_port == Some(destination_port)
            }
            &&& !local_ips.contains(src) ==> {
                &&& local_ips.contains(dst)
                &&& flow.direction == Direction::Inbound
                &&& flow.local_socket == Some(receiver)
                &&& flow.peer == src
                &&& flow.peer_port == Some(source_port)
            }
            &&& flow.domain is None
        }),
{
}

/// An accepted packet without ports names no socket at all. Its peer is still the end that is
/// not its own.
pub proof fn lemma_packets_without_ports_have_no_socket(
    format: PacketFormat,
    link_len: u64,
    sll_packet_type: Option<SllPacketType>,
    decoded: DecodedView,
    local_ips: Seq<IpAddr>,
    src: IpAddr,
    dst: IpAddr,
)
    requires
        classified(format, link_len, sll_packet_type, decoded, local_ips).parsed is Some,
        endpoints_of(decoded.net) matches Some(ends) && ends.src == src && ends.dst == dst,
        decoded.transport == TransportPorts::Other,
    ensures
        ({
            let outcome = classified(format, link_len, sll_packet_type, decoded, local_ips);
            let (flow, payload) = outcome.parsed->0;
            &&& flow.local_socket is None
            &&& flow.peer_local_socket is None
            &&& flow.peer_port is None
            &&& payload is None
            &&& local_ips.contains(src) ==> flow.direction == Direction::Outbound && flow.peer == dst
            &&& !local_ips.contains(src) ==> flow.direction == Direction::Inbound && flow.peer == src
        }),
{
}

/// The bytes of an accepted packet are those of its link header, of the headers between that
/// and the network header on Ethernet, and of the packet itself. What is read for a host name
/// is the whole of what a TCP packet carries, and nothing else.
pub proof fn lemma_bytes_of_an_accepted_packet(
    format: PacketFormat,
    link_len: u64,
    sll_packet_type: Option<SllPacketType>,
    decoded: DecodedView,
    local_ips: Seq<IpAddr>,
)
    requires
        classified(format, link_len, sll_packet_type, decoded, local_ips).parsed is Some,
        link_len + total_len(decoded.link_ext_lens) + 0x1_0028 <= u64::MAX,
    ensures
        ({
            let outcome = classified(format, link_len, sll_packet_type, decoded, local_ips);
            let (flow, payload) = outcome.parsed->0;
            let between = if format == PacketFormat::Ethernet {
                total_len(decoded.link_ext_lens)
            } else {
                0
            };
            &&& decoded.net matches NetView::Ipv4 { total_len, .. } ==> flow.bytes == link_len
                + between + total_len
            &&& decoded.net matches NetView::Ipv6 { payload_length, .. } ==> flow.bytes == link_len
                + between + 40 + payload_length
            &&& payload is Some <==> decoded.transport is Tcp && decoded.payload.len() > 0
            &&& payload matches Some(payload) ==> payload == decoded.payload
        }),
{
}

/// The lengths of headers add up one by one.
pub proof fn lemma_header_lengths_add_up(lens: Seq<usize>, next: usize)
    ensures
        total_len(Seq::<usize>::empty()) == 0,
        total_len(lens.push(next)) == total_len(lens) + next,
{
    assert(lens.push(next).drop_last() =~= lens);
}

/// A raw frame is the packet, of either version; one of a link that carries a single version is
/// the packet too, and has to be of that version.
pub proof fn lemma_raw_frames_are_packets(data: Seq<u8>)
    ensures
        payload_of(PacketFormat::Raw, data) == Some(
            IpPayload { start: 0, expected_version: None, link_len: 0, sll_packet_type: None },
        ),
        payload_of(PacketFormat::Ipv4, data) == Some(
            IpPayload {
                start: 0,
                expected_version: Some(IpVersion::V4),
                link_len: 0,
                sll_packet_type: None,
            },
        ),
        payload_of(PacketFormat::Ipv6, data) == Some(
            IpPayload {
                start: 0,
                expected_version: Some(IpVersion::V6),
                link_len: 0,
                sll_packet_type: None,
            },
        ),
{
}

/// The four bytes before a loopback packet name its version: the number of an address family,
/// read in network byte order, or in the other one if that gives none. A frame with any other
/// number, or with fewer bytes, carries no packet.
pub proof fn lemma_family_header_names_the_version(format: PacketFormat, data: Seq<u8>)
    requires
        format == PacketFormat::Null || format == PacketFormat::Loop,
    ensures
        data.len() < 4 ==> payload_of(format, data) is None,
        data.len() >= 4 ==> ({
            let big = data[0] * 0x100_0000 + data[1] * 0x1_0000 + data[2] * 0x100 + data[3];
            let little = data[3] * 0x100_0000 + data[2] * 0x1_0000 + data[1] * 0x100 + data[0];
            let six = |n: int| n == 10 || n == 23 || n == 24 || n == 28 || n == 30;
            let read = if big == 2 || six(big) {
                big
            } else {
                little
            };
            &&& payload_of(format, data) is Some <==> read == 2 || six(read)
            &&& payload_of(format, data) matches Some(payload) ==> {
                &&& payload.start == 4
                &&& payload.link_len == 4
                &&& payload.sll_packet_type is None
                &&& payload.expected_version == if read == 2 {
                    Some(IpVersion::V4)
                } else {
                    Some(IpVersion::V6)
                }
            }
        }),
{
    if data.len() >= 4 {
        lemma_be_value_four(data[0], data[1], data[2], data[3]);
        lemma_be_value_four(data[3], data[2], data[1], data[0]);
        assert(data.take(4) =~= seq![data[0], data[1], data[2], data[3]]);
        assert(data.take(4).reverse() =~= seq![data[3], data[2], data[1], data[0]]);
    }
}

/// What a number says of the way of a packet in a cooked capture.
pub open spec fn way_numbered(number: int, way: SllPacketType) -> bool {
    &&& way == SllPacketType::Host <==> number == 0
    &&& way == SllPacketType::Outgoing <==> number == 4
}

/// A cooked frame has sixteen bytes before the packet: its type stands in the last two of them,
/// and the packet's way in the first two. Of the second version it has twenty: the type stands
/// in the first two, and the way in the eleventh. A frame of another type than IPv4 and IPv6,
/// or a shorter one, carries no packet.
pub proof fn lemma_cooked_header_names_type_and_way(data: Seq<u8>)
    ensures
        data.len() < 16 ==> payload_of(PacketFormat::LinuxSll, data) is None,
        data.len() >= 16 ==> ({
            let kind = data[14] * 0x100 + data[15];
            let payload = payload_of(PacketFormat::LinuxSll, data);
            &&& payload is Some <==> kind == 0x0800 || kind == 0x86dd
            &&& payload matches Some(payload) ==> {
                &&& payload.start == 16
                &&& payload.link_len == 16
                &&& payload.expected_version == if kind == 0x0800 {
                    Some(IpVersion::V4)
                } else {
                    Some(IpVersion::V6)
                }
                &&& payload.sll_packet_type matches Some(way) && way_numbered(
                    data[0] * 0x100 + data[1],
                    way,
                )
            }
        }),
        data.len() < 20 ==> payload_of(PacketFormat::LinuxSll2, data) is None,
        data.len() >= 20 ==> ({
            let kind = data[0] * 0x100 + data[1];
            let payload = payload_of(PacketFormat::LinuxSll2, data);
            &&& payload is Some <==> kind == 0x0800 || kind == 0x86dd
            &&& payload matches Some(payload) ==> {
                &&& payload.start == 20
                &&& payload.link_len == 20
                &&& payload.expected_version == if kind == 0x0800 {
                    Some(IpVersion::V4)
                } else {
                    Some(IpVersion::V6)
                }
                &&& payload.sll_packet_type matches Some(way) && way_numbered(data[10] as int, way)
            }
        }),
{
    if data.len() >= 16 {
        lemma_be_value_two(data[14], data[15]);
        lemma_be_value_two(data[0], data[1]);
        assert(data.subrange(14, 16) =~= seq![data[14], data[15]]);
        assert(data.take(2) =~= seq![data[0], data[1]]);
    }
}

/// A frame other than Ethernet's is judged by the packet behind its link header, whose bytes
/// are counted. If the packet's first four bits are not the version that the link header
/// announces, or its headers cannot be read, the frame is in error.
pub proof fn lemma_packet_behind_the_link_header_counts(
    format: PacketFormat,
    data: Seq<u8>,
    local_ips: Seq<IpAddr>,
    payload: IpPayload,
)
    requires
        format != PacketFormat::Ethernet,
        payload_of(format, data) == Some(payload),
    ensures
        ({
            let packet = data.skip(payload.start as int);
            let first = packet[0] / 16;
            let agrees = match payload.expected_version {
                Some(IpVersion::V4) => packet.len() > 0 && first == 4,
                Some(IpVersion::V6) => packet.len() > 0 && first == 6,
                None => true,
            };
            let outcome = frame_outcome(format, data, local_ips);
            &&& agrees && ip_headers(packet) is Some ==> outcome == classified(
                format,
                payload.link_len,
                payload.sll_packet_type,
                ip_headers(packet)->0,
                local_ips,
            )
            &&& !agrees || ip_headers(packet) is None ==> outcome.disposition
                == PacketDisposition::ParseError && outcome.parsed is None
        }),
{
}

/// An Ethernet frame is judged by its headers, and its link header counts fourteen bytes. One
/// whose headers cannot be read is in error; a frame of another format that carries no packet
/// is not one of IP.
pub proof fn lemma_frames_without_a_packet(
    format: PacketFormat,
    data: Seq<u8>,
    local_ips: Seq<IpAddr>,
)
    ensures
        ({
            let outcome = frame_outcome(format, data, local_ips);
            &&& format == PacketFormat::Ethernet && ethernet_headers(data) is Some ==> outcome
                == classified(format, 14, None, ethernet_headers(data)->0, local_ips)
            &&& format == PacketFormat::Ethernet && ethernet_headers(data) is None
                ==> outcome.disposition == PacketDisposition::ParseError && outcome.parsed is None
            &&& format != PacketFormat::Ethernet && payload_of(format, data) is None
                ==> outcome.disposition == PacketDisposition::NonIp && outcome.parsed is None
        }),
{
}

} // verus!
