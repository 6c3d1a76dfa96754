//! A reference count of captured frames, taken below the parsing of flows.

use vstd::prelude::*;
use vstd::slice::slice_subrange;
use vstd::string::*;

use crate::address_text::{ip_text, push_ip};
use crate::capture::interfaces::{device_names, select_name, selected, Device, SelectFailure};
use crate::capture::parser::{
    LINKTYPE_ETHERNET, LINKTYPE_IPV4, LINKTYPE_IPV6, LINKTYPE_LINUX_SLL, LINKTYPE_LINUX_SLL2,
    LINKTYPE_LOOP, LINKTYPE_NULL, LINKTYPE_RAW,
};
use crate::net::IpAddr;
use crate::text::{decimal, push_decimal};

verus! {

/// What the frames of an interval add up to.
#[derive(Clone, Copy, Debug, PartialEq, Eq, Structural)]
pub struct Totals {
    pub packets: u64,
    /// Bytes on the wire.
    pub bytes_wire: u64,
    /// Bytes that were captured.
    pub bytes_caplen: u64,
    /// Bytes of link header and IP packet, without padding.
    pub bytes_ip: u64,
    pub ipv4_packets: u64,
    pub ipv6_packets: u64,
    pub arp_packets: u64,
    pub other_packets: u64,
    /// Frames whose IP header does not fit them.
    pub ip_invalid_packets: u64,
}

/// What a frame is counted as.
pub ghost enum FrameCount {
    /// An IPv4 packet; with its link header it has so many bytes.
    Ipv4(int),
    /// An IPv6 packet; with its link header it has so many bytes.
    Ipv6(int),
    Arp,
    Other,
    Invalid,
}

/// Two bytes in network order.
pub open spec fn be16(bytes: Seq<u8>, at: int) -> int {
    bytes[at] * 0x100 + bytes[at + 1]
}

/// Four bytes in network order.
pub open spec fn be32(bytes: Seq<u8>) -> int {
    bytes[0] * 0x100_0000 + bytes[1] * 0x1_0000 + bytes[2] * 0x100 + bytes[3]
}

/// Four bytes in the reverse of network order.
pub open spec fn le32(bytes: Seq<u8>) -> int {
    bytes[3] * 0x100_0000 + bytes[2] * 0x1_0000 + bytes[1] * 0x100 + bytes[0]
}

/// What an Ethernet type and the bytes behind the link header are counted as.
pub open spec fn packet_count(ether_type: int, ip: Seq<u8>, link_len: int) -> FrameCount {
    if ether_type == 0x0800 {
        if ip.len() >= 20 && 20 <= be16(ip, 2) <= ip.len() {
            FrameCount::Ipv4(link_len + be16(ip, 2))
        } else {
            FrameCount::Invalid
        }
    } else if ether_type == 0x86dd {
        if ip.len() >= 40 && be16(ip, 4) + 40 <= ip.len() {
            FrameCount::Ipv6(link_len + be16(ip, 4) + 40)
        } else {
            FrameCount::Invalid
        }
    } else if ether_type == 0x0806 {
        FrameCount::Arp
    } else {
        FrameCount::Other
    }
}

/// Whether an address family is that of an IP version on some system.
pub open spec fn is_ip_family(family: int) -> bool {
    family == 2 || is_ipv6_family(family)
}

/// Whether an address family is that of IPv6 on some system.
pub open spec fn is_ipv6_family(family: int) -> bool {
    family == 10 || family == 23 || family == 24 || family == 28 || family == 30
}

/// The Ethernet type that an address family stands for; its bytes may be in either order.
pub open spec fn family_ether_type(header: Seq<u8>) -> int {
    let family = if is_ip_family(be32(header)) {
        be32(header)
    } else {
        le32(header)
    };
    if family == 2 {
        0x0800
    } else if is_ipv6_family(family) {
        0x86dd
    } else {
        0
    }
}

/// What a frame is counted as.
pub open spec fn frame_count(link_type: i32, data: Seq<u8>) -> FrameCount {
    if link_type == LINKTYPE_ETHERNET {
        if data.len() < 14 {
            FrameCount::Other
        } else {
            packet_count(be16(data, 12), data.skip(14), 14)
        }
    } else if link_type == LINKTYPE_NULL || link_type == LINKTYPE_LOOP {
        if data.len() < 4 {
            FrameCount::Other
        } else {
            packet_count(family_ether_type(data), data.skip(4), 4)
        }
    } else if link_type == LINKTYPE_RAW || link_type == LINKTYPE_IPV4 || link_type
        == LINKTYPE_IPV6 {
        if data.len() > 0 && data[0] / 16 == 4 {
            packet_count(0x0800, data, 0)
        } else {
            packet_count(0x86dd, data, 0)
        }
    } else if link_type == LINKTYPE_LINUX_SLL {
        if data.len() < 16 {
            FrameCount::Other
        } else {
            packet_count(be16(data, 14), data.skip(16), 16)
        }
    } else if link_type == LINKTYPE_LINUX_SLL2 {
        if data.len() < 20 {
            FrameCount::Other
        } else {
            packet_count(be16(data, 0), data.skip(20), 20)
        }
    } else {
        FrameCount::Other
    }
}

impl Totals {
    /// Every frame is counted once, and no more IP bytes than were captured.
    pub open spec fn wf(self) -> bool {
        &&& self.packets == self.ipv4_packets + self.ipv6_packets + self.arp_packets
            + self.other_packets + self.ip_invalid_packets
        &&& self.bytes_ip <= self.bytes_caplen
    }

    /// Whether one more frame fits the counters.
    pub open spec fn has_room(self, captured: nat, wire_len: u64) -> bool {
        &&& self.packets < u64::MAX
        &&& self.bytes_wire + wire_len <= u64::MAX
        &&& self.bytes_caplen + captured <= u64::MAX
    }

    /// The counts with one more frame.
    pub open spec fn with_frame(self, captured: nat, wire_len: u64, count: FrameCount) -> Self {
        let seen = Totals {
            packets: (self.packets + 1) as u64,
            bytes_wire: (self.bytes_wire + wire_len) as u64,
            bytes_caplen: (self.bytes_caplen + captured) as u64,
            ..self
        };
        seen.counted_as(count)
    }

    /// The counts with a frame counted under its kind.
    pub open spec fn counted_as(self, count: FrameCount) -> Self {
        match count {
            FrameCount::Ipv4(bytes) => Totals {
                ipv4_packets: (self.ipv4_packets + 1) as u64,
                bytes_ip: (self.bytes_ip + bytes) as u64,
                ..self
            },
            FrameCount::Ipv6(bytes) => Totals {
                ipv6_packets: (self.ipv6_packets + 1) as u64,
                bytes_ip: (self.bytes_ip + bytes) as u64,
                ..self
            },
            FrameCount::Arp => Totals { arp_packets: (self.arp_packets + 1) as u64, ..self },
            FrameCount::Other => Totals { other_packets: (self.other_packets + 1) as u64, ..self },
            FrameCount::Invalid => Totals {
                ip_invalid_packets: (self.ip_invalid_packets + 1) as u64,
                ..self
            },
        }
    }

    /// Nothing counted yet.
    pub fn new() -> (totals: Self)
        ensures
            totals.wf(),
            totals == (Totals {
                packets: 0,
                bytes_wire: 0,
                bytes_caplen: 0,
                bytes_ip: 0,
                ipv4_packets: 0,
                ipv6_packets: 0,
                arp_packets: 0,
                other_packets: 0,
                ip_invalid_packets: 0,
            }),
    {
        Totals {
            packets: 0,
            bytes_wire: 0,
            bytes_caplen: 0,
            bytes_ip: 0,
            ipv4_packets: 0,
            ipv6_packets: 0,
            arp_packets: 0,
            other_packets: 0,
            ip_invalid_packets: 0,
        }
    }

    /// Whether one more frame fits the counters.
    pub fn can_count(&self, captured: usize, wire_len: u64) -> (fits: bool)
        ensures
            fits == self.has_room(captured as nat, wire_len),
    {
        self.packets < u64::MAX && wire_len <= u64::MAX - self.bytes_wire && captured as u64
            <= u64::MAX - self.bytes_caplen
    }
}

fn read_be16(high: u8, low: u8) -> (value: u16)
    ensures
        value == high * 0x100 + low,
{
    high as u16 * 0x100 + low as u16
}

/// The Ethernet type that an address family stands for.
fn ether_type_of_family(a: u8, b: u8, c: u8, d: u8) -> (ether_type: u16)
    ensures
        ether_type == family_ether_type(seq![a, b, c, d]),
{
    let be: u32 = a as u32 * 0x100_0000 + b as u32 * 0x1_0000 + c as u32 * 0x100 + d as u32;
    let le: u32 = d as u32 * 0x100_0000 + c as u32 * 0x1_0000 + b as u32 * 0x100 + a as u32;
    let family: u32 = if be == 2 || be == 10 || be == 23 || be == 24 || be == 28 || be == 30 {
        be
    } else {
        le
    };
    if family == 2 {
        0x0800
    } else if family == 10 || family == 23 || family == 24 || family == 28 || family == 30 {
        0x86dd
    } else {
        0
    }
}

/// Counts a frame under its kind, by its Ethernet type and what is behind its link header.
pub fn count_ip(ether_type: u16, ip: &[u8], link_len: u64, totals: &mut Totals)
    requires
        old(totals).ipv4_packets < u64::MAX,
        old(totals).ipv6_packets < u64::MAX,
        old(totals).arp_packets < u64::MAX,
        old(totals).other_packets < u64::MAX,
        old(totals).ip_invalid_packets < u64::MAX,
        old(totals).bytes_ip + link_len + ip@.len() <= u64::MAX,
    ensures
        *final(totals) == old(totals).counted_as(
            packet_count(ether_type as int, ip@, link_len as int),
        ),
{
    if ether_type == 0x0800 {
        if ip.len() >= 20 {
            let total: u64 = read_be16(ip[2], ip[3]) as u64;
            if 20 <= total && total <= ip.len() as u64 {
                totals.ipv4_packets = totals.ipv4_packets + 1;
                totals.bytes_ip = totals.bytes_ip + (link_len + total);
                return;
            }
        }
        totals.ip_invalid_packets = totals.ip_invalid_packets + 1;
    } else if ether_type == 0x86dd {
        if ip.len() >= 40 {
            let total: u64 = read_be16(ip[4], ip[5]) as u64 + 40;
            if total <= ip.len() as u64 {
                totals.ipv6_packets = totals.ipv6_packets + 1;
                totals.bytes_ip = totals.bytes_ip + (link_len + total);
                return;
            }
        }
        totals.ip_invalid_packets = totals.ip_invalid_packets + 1;
    } else if ether_type == 0x0806 {
        totals.arp_packets = totals.arp_packets + 1;
    } else {
        totals.other_packets = totals.other_packets + 1;
    }
}

/// Counts a frame.
pub fn count_frame(link_type: i32, data: &[u8], wire_len: u64, totals: &mut Totals)
    requires
        old(totals).wf(),
        old(totals).has_room(data@.len(), wire_len),
    ensures
        final(totals).wf(),
        *final(totals) == old(totals).with_frame(
            data@.len(),
            wire_len,
            frame_count(link_type, data@),
        ),
{
    totals.packets = totals.packets + 1;
    totals.bytes_wire = totals.bytes_wire + wire_len;
    totals.bytes_caplen = totals.bytes_caplen + data.len() as u64;
    let header: usize = if link_type == LINKTYPE_ETHERNET {
        14
    } else if link_type == LINKTYPE_NULL || link_type == LINKTYPE_LOOP {
        4
    } else if link_type == LINKTYPE_RAW || link_type == LINKTYPE_IPV4 || link_type
        == LINKTYPE_IPV6 {
        0
    } else if link_type == LINKTYPE_LINUX_SLL {
        16
    } else if link_type == LINKTYPE_LINUX_SLL2 {
        20
    } else {
        totals.other_packets = totals.other_packets + 1;
        return;
    };
    if data.len() < header {
        totals.other_packets = totals.other_packets + 1;
        return;
    }
    let ether_type: u16 = if link_type == LINKTYPE_ETHERNET {
        read_be16(data[12], data[13])
    } else if link_type == LINKTYPE_NULL || link_type == LINKTYPE_LOOP {
        ether_type_of_family(data[0], data[1], data[2], data[3])
    } else if link_type == LINKTYPE_LINUX_SLL {
        read_be16(data[14], data[15])
    } else if link_type == LINKTYPE_LINUX_SLL2 {
        read_be16(data[0], data[1])
    } else if data.len() > 0 && data[0] / 16 == 4 {
        0x0800
    } else {
        0x86dd
    };
    let ip = slice_subrange(data, header, data.len());
    assert(ip@ =~= data@.skip(header as int));
    assert(data@.skip(0) =~= data@);
    count_ip(ether_type, ip, header as u64, totals);
}

/// The statistics of a capture since it was opened.
#[derive(Clone, Copy, Debug, PartialEq, Eq, Structural)]
pub struct CaptureStat {
    pub received: u32,
    pub dropped: u32,
    pub if_dropped: u32,
}

/// What the statistics of a capture grew by.
#[derive(Clone, Copy, Debug, PartialEq, Eq, Structural)]
pub struct StatDelta {
    pub dropped: u64,
    pub if_dropped: u64,
    pub received: u64,
}

/// How much a counter grew; nothing if it started over.
pub open spec fn growth(before: u32, after: u32) -> u64 {
    if after >= before {
        (after - before) as u64
    } else {
        0
    }
}

/// What the statistics of a capture grew by; nothing if either was not to be had.
pub fn stat_deltas(before: Option<CaptureStat>, after: Option<CaptureStat>) -> (delta: StatDelta)
    ensures
        delta == match (before, after) {
            (Some(before), Some(after)) => StatDelta {
                dropped: growth(before.dropped, after.dropped),
                if_dropped: growth(before.if_dropped, after.if_dropped),
                received: growth(before.received, after.received),
            },
            _ => StatDelta { dropped: 0, if_dropped: 0, received: 0 },
        },
{
    match (before, after) {
        (Some(before), Some(after)) => StatDelta {
            dropped: after.dropped.saturating_sub(before.dropped) as u64,
            if_dropped: after.if_dropped.saturating_sub(before.if_dropped) as u64,
            received: after.received.saturating_sub(before.received) as u64,
        },
        _ => StatDelta { dropped: 0, if_dropped: 0, received: 0 },
    }
}

/// Addresses with a comma between two.
pub open spec fn address_list(addresses: Seq<IpAddr>) -> Seq<char>
    decreases addresses.len(),
{
    if addresses.len() == 0 {
        Seq::empty()
    } else if addresses.len() == 1 {
        ip_text(addresses[0])
    } else {
        address_list(addresses.drop_last()) + seq![','] + ip_text(addresses.last())
    }
}

/// A line on a device: its number, name, description and addresses, separated by tabs.
pub open spec fn device_text(number: nat, device: Device) -> Seq<char> {
    decimal(number) + seq!['\t'] + device.name@ + seq!['\t'] + (match device.desc {
        Some(description) => description@,
        None => Seq::empty(),
    }) + seq!['\t'] + address_list(device.addresses@)
}

/// A line on a device: its number, name, description and addresses, separated by tabs.
pub fn device_line(number: u64, device: &Device) -> (line: String)
    ensures
        line@ == device_text(number as nat, *device),
{
    let mut line = String::new();
    push_decimal(&mut line, number);
    line.push('\t');
    line.append(device.name.as_str());
    line.push('\t');
    if let Some(description) = &device.desc {
        line.append(description.as_str());
    }
    line.push('\t');
    let ghost before = line@;
    let ghost addresses = device.addresses@;
    let mut i: usize = 0;
    assert(addresses.take(0) =~= Seq::<IpAddr>::empty());
    while i < device.addresses.len()
        invariant
            i <= addresses.len(),
            addresses == device.addresses@,
            line@ =~= before + address_list(addresses.take(i as int)),
        decreases addresses.len() - i,
    {
        if i > 0 {
            line.push(',');
        }
        push_ip(&mut line, device.addresses[i]);
        assert(addresses.take(i + 1).drop_last() =~= addresses.take(i as int));
        i += 1;
    }
    assert(addresses.take(i as int) =~= addresses);
    assert(line@ =~= device_text(number as nat, *device));
    line
}

/// What to say of a selector that selects no device.
pub open spec fn selector_fault(selector: Seq<char>, failure: SelectFailure) -> Seq<char> {
    match failure {
        SelectFailure::NotFound => "interface not found: "@ + selector,
        _ => "invalid interface number: "@ + selector,
    }
}

/// Where the device is that a selector selects: by name, else by its number from one.
pub fn resolve_device(selector: &str, devices: &Vec<Device>) -> (place: Result<usize, String>)
    ensures
        match selected(selector@, device_names(devices@)) {
            Ok(at) => place == Ok::<usize, String>(at as usize) && 0 <= at < devices@.len(),
            Err(failure) => place matches Err(message) && message@ == selector_fault(
                selector@,
                failure,
            ),
        },
{
    let mut names: Vec<String> = Vec::new();
    let mut i: usize = 0;
    while i < devices.len()
        invariant
            i <= devices@.len(),
            names@.len() == i,
            forall|k: int| 0 <= k < i ==> (#[trigger] names@[k])@ == devices@[k].name@,
        decreases devices@.len() - i,
    {
        names.push(devices[i].name.clone());
        i += 1;
    }
    assert(crate::capture::interfaces::name_views(names@) =~= device_names(devices@));
    match select_name(selector, &names) {
        Ok(at) => Ok(at),
        Err(error) => {
            let mut message = match error.failure {
                SelectFailure::NotFound => "interface not found: ".to_owned(),
                _ => "invalid interface number: ".to_owned(),
            };
            message.append(selector);
            Err(message)
        },
    }
}

/// Whether the interval since the last line is over, and whether that line is the last.
#[derive(Clone, Copy, Debug, PartialEq, Eq, Structural)]
pub struct EmitDecision {
    pub emit: bool,
    pub stop: bool,
}

/// Whether to write a line after `since_last` nanoseconds, and whether to stop then.
pub fn emit_decision(
    since_last: u128,
    interval_seconds: u64,
    uptime_seconds: u64,
    limit: Option<u64>,
) -> (decision: EmitDecision)
    ensures
        decision.emit == (since_last >= interval_seconds * 1_000_000_000),
        decision.stop == (decision.emit && limit is Some && uptime_seconds >= limit->0),
{
    let emit = since_last >= interval_seconds as u128 * 1_000_000_000;
    let stop = match limit {
        Some(limit) => emit && uptime_seconds >= limit,
        None => false,
    };
    EmitDecision { emit, stop }
}

} // verus!
