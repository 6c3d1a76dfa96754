//! Which interface is meant, what is counted on it, and how it is shown.

use vstd::prelude::*;

use crate::address_text::ip_text;
use crate::addresses::{before};
use crate::capture::counters::{
    kind_of, sampled, CaptureCounters, NonLocalEndpointSample, PacketKind,
};
use crate::capture::interfaces::{
    device_addresses, first_default_route, interface_entries, interface_entry, labels, place_of,
    selected, shows_device, Device, InterfaceLabelOrder, InterfaceView, SelectFailure,
};
use crate::capture::parser::{format_of, IpVersion, PacketDisposition, PacketFormat};
use crate::cli::{diagnostics_wanted, format_named, number_or, positive, Cli, NumberFault, OutputFormat};
use crate::laws::texts::lemma_numerals_are_read;
use crate::net::IpAddr;
use crate::pipeline::wait_for;
use crate::refcap::{address_list, frame_count, growth, packet_count, FrameCount, Totals};
use crate::scan::{digit_in, digits_value, natural, only_digits, words};
use crate::text::{decimal, text_view};

verus! {

proof fn lemma_place(names: Seq<Seq<char>>, name: Seq<char>, i: int)
    requires
        0 <= i <= names.len(),
        forall|earlier: int| 0 <= earlier < i ==> #[trigger] names[earlier] != name,
        i < names.len() ==> names[i] == name,
    ensures
        i < names.len() ==> place_of(names, name) == Some(i),
        i == names.len() ==> place_of(names, name) is None,
    decreases names.len(),
{
    if names.len() > 0 {
        let shorter = names.drop_last();
        if i < shorter.len() {
            assert(shorter[i] == names[i]);
            assert forall|earlier: int| 0 <= earlier < i implies #[trigger] shorter[earlier]
                != name by {
                assert(shorter[earlier] == names[earlier]);
            }
            lemma_place(shorter, name, i);
        } else {
            assert forall|earlier: int| 0 <= earlier < shorter.len() implies #[trigger] shorter[earlier]
                != name by {
                assert(shorter[earlier] == names[earlier]);
            }
            lemma_place(shorter, name, shorter.len() as int);
            if i == names.len() {
                assert(names[names.len() - 1] != name);
            }
        }
    }
}

/// A selector selects the first interface of that name, even if it is a number.
pub proof fn lemma_names_are_selected_first(selector: Seq<char>, names: Seq<Seq<char>>, i: int)
    requires
        0 <= i < names.len(),
        names[i] == selector,
        forall|earlier: int| 0 <= earlier < i ==> #[trigger] names[earlier] != selector,
    ensures
        selected(selector, names) == Ok::<int, SelectFailure>(i),
{
    lemma_place(names, selector, i);
}

/// A number that is no interface's name selects the interface at that place, counted from one.
/// One that no interface has, and any other text, is refused, with the number of interfaces if
/// there are any.
pub proof fn lemma_numbers_select_by_place(selector: Seq<char>, names: Seq<Seq<char>>, number: nat)
    requires
        forall|i: int| 0 <= i < names.len() ==> #[trigger] names[i] != selector,
    ensures
        selector == decimal(number) && 1 <= number <= names.len() ==> selected(selector, names)
            == Ok::<int, SelectFailure>(number - 1),
        selector == decimal(number) && names.len() == 0 ==> selected(selector, names) == Err::<
            int,
            SelectFailure,
        >(SelectFailure::NoInterfaces),
        selector == decimal(number) && names.len() > 0 && (number == 0 || number > names.len())
            ==> selected(selector, names) == Err::<int, SelectFailure>(
            SelectFailure::OutOfRange { count: names.len() as usize },
        ),
        (exists|i: int| 0 <= i < selector.len() && !('0' <= #[trigger] selector[i] <= '9'))
            || selector.len() == 0 ==> selected(selector, names) == Err::<int, SelectFailure>(
            SelectFailure::NotFound,
        ),
{
    lemma_place(names, selector, names.len() as int);
    if selector == decimal(number) {
        crate::laws::reports::lemma_numerals_read_back(number);
        assert(only_digits(selector)) by {
            assert forall|i: int| 0 <= i < selector.len() implies digit_in(
                #[trigger] selector[i],
                10,
            ) is Some by {
                assert('0' <= selector[i] <= '9');
            }
        }
        lemma_numerals_are_read(number, number);
        assert(digits_value(selector, 10) == Some(number)) by {
            assert('0' <= selector[0] <= '9');
        }
    }
    if exists|i: int| 0 <= i < selector.len() && !('0' <= #[trigger] selector[i] <= '9') {
        let i = choose|i: int| 0 <= i < selector.len() && !('0' <= #[trigger] selector[i] <= '9');
        assert(digit_in(selector[i], 10) is None);
        assert(!only_digits(selector));
    }
}

/// Whether a line of the routing table is that of a route other than the default one, or too
/// short for any.
pub open spec fn is_passed_over(route: Seq<char>) -> bool {
    words(route).len() < 11 || (natural(words(route)[1], 16, 0xffff_ffff) matches Some(destination)
        && destination != 0)
}

/// The default route is on the interface that the first word of its line names: the first line
/// of at least eleven words whose second is a hexadecimal zero. A line before it whose second
/// word is no number ends the search.
pub proof fn lemma_default_route_is_the_first_to_zero(routes: Seq<Seq<char>>, i: int)
    requires
        0 <= i <= routes.len(),
        forall|earlier: int| 0 <= earlier < i ==> is_passed_over(#[trigger] routes[earlier]),
        i < routes.len() ==> words(routes[i]).len() >= 11 && !(natural(
            words(routes[i])[1],
            16,
            0xffff_ffff,
        ) matches Some(destination) && destination != 0),
    ensures
        i == routes.len() ==> first_default_route(routes) is None,
        i < routes.len() && natural(words(routes[i])[1], 16, 0xffff_ffff) is None
            ==> first_default_route(routes) is None,
        i < routes.len() && natural(words(routes[i])[1], 16, 0xffff_ffff) == Some(0nat)
            ==> first_default_route(routes) == Some(words(routes[i])[0]),
    decreases routes.len(),
{
    if routes.len() > 0 && i > 0 {
        let rest = routes.drop_first();
        assert(is_passed_over(routes[0]));
        assert forall|earlier: int| 0 <= earlier < i - 1 implies is_passed_over(
            #[trigger] rest[earlier],
        ) by {
            assert(rest[earlier] == routes[earlier + 1]);
        }
        if i < routes.len() {
            assert(rest[i - 1] == routes[i]);
        }
        lemma_default_route_is_the_first_to_zero(rest, i - 1);
    }
}

/// An interface shows its device: the name, the description or a note that there is none, each
/// of its addresses once in ascending order, and whether the default route is on it.
pub proof fn lemma_interfaces_show_their_device(
    interface: InterfaceView,
    device: Device,
    default: Option<Seq<char>>,
)
    requires
        shows_device(interface, device, default),
    ensures
        interface.name == device.name@,
        device.desc matches Some(desc) ==> interface.description == desc@,
        device.desc is None ==> interface.description == "No description"@,
        forall|ip: IpAddr| #[trigger]
            interface.addresses.contains(ip) <==> device.addresses@.contains(ip),
        forall|i: int, j: int|
            0 <= i < j < interface.addresses.len() ==> before(
                #[trigger] interface.addresses[i],
                #[trigger] interface.addresses[j],
            ),
        interface.is_default_route <==> default == Some(device.name@),
{
}

/// Addresses are ordered by version, IPv4 first, and then by their number.
pub proof fn lemma_addresses_are_ordered(left: u32, right: u32, low: u128, high: u128)
    ensures
        before(IpAddr::V4(left), IpAddr::V4(right)) <==> left < right,
        before(IpAddr::V6(low), IpAddr::V6(high)) <==> low < high,
        before(IpAddr::V4(left), IpAddr::V6(high)),
        !before(IpAddr::V6(low), IpAddr::V4(right)),
{
}

/// The local addresses are those of all devices together.
pub proof fn lemma_local_addresses_are_those_of_all_devices(devices: Seq<Device>, ip: IpAddr)
    ensures
        device_addresses(devices).contains(ip) <==> exists|d: int|
            0 <= d < devices.len() && (#[trigger] devices[d]).addresses@.contains(ip),
    decreases devices.len(),
{
    if devices.len() > 0 {
        let shorter = devices.drop_last();
        lemma_local_addresses_are_those_of_all_devices(shorter, ip);
        let prior = device_addresses(shorter);
        let last = devices.last().addresses@;
        let whole = device_addresses(devices);
        assert(whole == prior + last);
        if whole.contains(ip) {
            let i = choose|i: int| 0 <= i < whole.len() && whole[i] == ip;
            if i < prior.len() {
                assert(prior[i] == ip);
                assert(prior.contains(ip));
                let d = choose|d: int|
                    0 <= d < shorter.len() && (#[trigger] shorter[d]).addresses@.contains(ip);
                assert(devices[d].addresses@.contains(ip));
            } else {
                assert(last[i - prior.len()] == ip);
                assert(devices[devices.len() - 1].addresses@.contains(ip));
            }
        }
        if exists|d: int|
            0 <= d < devices.len() && (#[trigger] devices[d]).addresses@.contains(ip) {
            let d = choose|d: int|
                0 <= d < devices.len() && (#[trigger] devices[d]).addresses@.contains(ip);
            if d < shorter.len() {
                assert(shorter[d].addresses@.contains(ip));
                let i = choose|i: int| 0 <= i < prior.len() && prior[i] == ip;
                assert(whole[i] == ip);
            } else {
                let i = choose|i: int| 0 <= i < last.len() && last[i] == ip;
                assert(whole[prior.len() + i] == ip);
            }
        }
    }
}

/// An interface is listed by its name, with its description below, or the other way round if
/// the description is to come first and there is one. A missing or empty description is not
/// shown.
pub proof fn lemma_interfaces_are_labelled(interface: InterfaceView)
    ensures
        ({
            let described = interface.description.len() > 0 && interface.description
                != "No description"@;
            &&& labels(interface, InterfaceLabelOrder::NameFirst) == (
                interface.name,
                if described {
                    Some(interface.description)
                } else {
                    None
                },
            )
            &&& described ==> labels(interface, InterfaceLabelOrder::DescriptionFirst) == (
                interface.description,
                Some(interface.name),
            )
            &&& !described ==> labels(interface, InterfaceLabelOrder::DescriptionFirst) == (
                interface.name,
                None::<Seq<char>>,
            )
        }),
{
}

/// The interfaces are listed in their order and numbered from one, and that with the default
/// route is marked.
pub proof fn lemma_interfaces_are_numbered(
    interfaces: Seq<InterfaceView>,
    next: InterfaceView,
    order: InterfaceLabelOrder,
)
    ensures
        interface_entries(Seq::<InterfaceView>::empty(), order).len() == 0,
        ({
            let (first, second) = labels(next, order);
            let line = "  "@ + decimal(interfaces.len() + 1) + ". "@ + first + (
            if next.is_default_route {
                "  [default route]"@
            } else {
                Seq::<char>::empty()
            }) + seq!['\n'];
            interface_entries(interfaces.push(next), order) == interface_entries(interfaces, order)
                + line + (match (second, order) {
                (None, _) => Seq::<char>::empty(),
                (Some(second), InterfaceLabelOrder::NameFirst) => "     Description: "@ + second
                    + seq!['\n'],
                (Some(second), InterfaceLabelOrder::DescriptionFirst) => "     Name: "@ + second
                    + seq!['\n'],
            })
        }),
{
    let whole = interfaces.push(next);
    let (first, second) = labels(next, order);
    let line = "  "@ + decimal(interfaces.len() + 1) + ". "@ + first + (if next.is_default_route {
        "  [default route]"@
    } else {
        Seq::<char>::empty()
    }) + seq!['\n'];
    assert(whole.drop_last() =~= interfaces);
    assert(whole.len() == interfaces.len() + 1);
    let entry = interface_entry(interfaces.len() + 1, next, order);
    assert(entry =~= line + (match (second, order) {
        (None, _) => Seq::<char>::empty(),
        (Some(second), InterfaceLabelOrder::NameFirst) => "     Description: "@ + second + seq!['\n'],
        (Some(second), InterfaceLabelOrder::DescriptionFirst) => "     Name: "@ + second + seq![
            '\n',
        ],
    }));
    assert(interface_entries(whole, order) =~= interface_entries(interfaces, order) + entry);
}

/// The number of a link tells how its frames are read.
pub proof fn lemma_links_by_number(link_type: i32)
    ensures
        format_of(link_type) == Some(PacketFormat::Ethernet) <==> link_type == 1,
        format_of(link_type) == Some(PacketFormat::Raw) <==> link_type == 101 || link_type == 12,
        format_of(link_type) == Some(PacketFormat::Ipv4) <==> link_type == 228,
        format_of(link_type) == Some(PacketFormat::Ipv6) <==> link_type == 229,
        format_of(link_type) == Some(PacketFormat::Null) <==> link_type == 0,
        format_of(link_type) == Some(PacketFormat::Loop) <==> link_type == 108,
        format_of(link_type) == Some(PacketFormat::LinuxSll) <==> link_type == 113,
        format_of(link_type) == Some(PacketFormat::LinuxSll2) <==> link_type == 276,
{
}

/// Each packet is counted under what became of it.
pub proof fn lemma_packets_are_counted_by_kind(src: IpAddr, dst: IpAddr)
    ensures
        kind_of(PacketDisposition::Accepted) == PacketKind::Flow,
        kind_of(PacketDisposition::ParseError) == PacketKind::ParseError,
        kind_of(PacketDisposition::NonIp) == PacketKind::NonIp,
        kind_of(PacketDisposition::NonLocal { version: IpVersion::V4, src, dst })
            == PacketKind::NonLocalIpv4,
        kind_of(PacketDisposition::NonLocal { version: IpVersion::V6, src, dst })
            == PacketKind::NonLocalIpv6,
        kind_of(PacketDisposition::DuplicateOutgoing) == PacketKind::DuplicateOutgoing,
{
}

/// A packet counts once and with its bytes under its own kind, and under no other; all packets
/// and bytes count in the sum.
pub proof fn lemma_counting_a_packet(
    before: CaptureCounters,
    bytes: u64,
    disposition: PacketDisposition,
    after: CaptureCounters,
)
    requires
        after.counted(before, bytes, disposition),
    ensures
        ({
            let one = |so: bool, was: u64, now: u64|
                now == if so {
                    was.wrapping_add(1)
                } else {
                    was
                };
            let some = |so: bool, was: u64, now: u64|
                now == if so {
                    was.wrapping_add(bytes)
                } else {
                    was
                };
            let flow = disposition == PacketDisposition::Accepted;
            let error = disposition == PacketDisposition::ParseError;
            let other = disposition == PacketDisposition::NonIp;
            let copy = disposition == PacketDisposition::DuplicateOutgoing;
            let four = disposition matches PacketDisposition::NonLocal {
                version: IpVersion::V4,
                ..
            };
            let six = disposition matches PacketDisposition::NonLocal {
                version: IpVersion::V6,
                ..
            };
            &&& one(true, before.packets_read, after.packets_read)
            &&& some(true, before.bytes_read, after.bytes_read)
            &&& one(flow, before.flow_packets, after.flow_packets)
            &&& some(flow, before.flow_bytes, after.flow_bytes)
            &&& one(error, before.parse_error_packets, after.parse_error_packets)
            &&& some(error, before.parse_error_bytes, after.parse_error_bytes)
            &&& one(other, before.non_ip_packets, after.non_ip_packets)
            &&& some(other, before.non_ip_bytes, after.non_ip_bytes)
            &&& one(four, before.non_local_ipv4_packets, after.non_local_ipv4_packets)
            &&& some(four, before.non_local_ipv4_bytes, after.non_local_ipv4_bytes)
            &&& one(six, before.non_local_ipv6_packets, after.non_local_ipv6_packets)
            &&& some(six, before.non_local_ipv6_bytes, after.non_local_ipv6_bytes)
            &&& one(copy, before.duplicate_outgoing_packets, after.duplicate_outgoing_packets)
            &&& some(copy, before.duplicate_outgoing_bytes, after.duplicate_outgoing_bytes)
            &&& one(four, before.ipv4_samples.seen, after.ipv4_samples.seen)
            &&& one(six, before.ipv6_samples.seen, after.ipv6_samples.seen)
            &&& !four ==> after.ipv4_samples == before.ipv4_samples
            &&& !six ==> after.ipv6_samples == before.ipv6_samples
            &&& disposition matches PacketDisposition::NonLocal { version, src, dst } ==> {
                let sample = NonLocalEndpointSample { src, dst };
                &&& version == IpVersion::V4 ==> after.ipv4_samples.kept@ == sampled(
                    before.ipv4_samples.kept@,
                    after.ipv4_samples.seen,
                    sample,
                )
                &&& version == IpVersion::V6 ==> after.ipv6_samples.kept@ == sampled(
                    before.ipv6_samples.kept@,
                    after.ipv6_samples.seen,
                    sample,
                )
            }
            &&& after.received == before.received
            &&& after.dropped == before.dropped
            &&& after.if_dropped == before.if_dropped
            &&& after.local_ips == before.local_ips
        }),
{
}

/// The first eight examples are kept in their order. Of the later ones every 4096th is kept, in
/// the place of one of the eight, each in turn.
pub proof fn lemma_examples_are_kept(
    kept: Seq<NonLocalEndpointSample>,
    seen: u64,
    sample: NonLocalEndpointSample,
)
    requires
        seen > 0,
    ensures
        seen <= 8 ==> sampled(kept, seen, sample) == kept.push(sample),
        seen > 8 && seen % 4096 != 0 ==> sampled(kept, seen, sample) == kept,
        seen > 8 && seen % 4096 == 0 ==> sampled(kept, seen, sample) == kept.update(
            (seen / 4096 - 1) % 8,
            sample,
        ),
{
}

/// A packet of IPv4 counts with the length in its header and that of the link header, if it has
/// a whole header and holds that length; one of IPv6 with the length of its payload and forty
/// bytes more. Anything else counts as ARP or as other.
pub proof fn lemma_packets_count_with_their_header_length(
    ether_type: int,
    ip: Seq<u8>,
    link_len: int,
)
    ensures
        ({
            let count = packet_count(ether_type, ip, link_len);
            let total = ip[2] * 0x100 + ip[3];
            let carried = ip[4] * 0x100 + ip[5];
            &&& ether_type == 0x0800 && ip.len() >= 20 && total >= 20 && total <= ip.len()
                ==> count == FrameCount::Ipv4(link_len + total)
            &&& ether_type == 0x0800 && (ip.len() < 20 || total < 20 || total > ip.len()) ==> count
                == FrameCount::Invalid
            &&& ether_type == 0x86dd && ip.len() >= 40 && carried + 40 <= ip.len() ==> count
                == FrameCount::Ipv6(link_len + carried + 40)
            &&& ether_type == 0x86dd && (ip.len() < 40 || carried + 40 > ip.len()) ==> count
                == FrameCount::Invalid
            &&& ether_type == 0x0806 ==> count == FrameCount::Arp
            &&& ether_type != 0x0800 && ether_type != 0x86dd && ether_type != 0x0806 ==> count
                == FrameCount::Other
        }),
{
}

/// The packet of a frame stands behind its link header, and the link header names its type; a
/// shorter frame, or one of another link, counts as other.
pub proof fn lemma_frames_are_counted_by_link(data: Seq<u8>)
    ensures
        data.len() < 14 ==> frame_count(1, data) == FrameCount::Other,
        data.len() >= 14 ==> frame_count(1, data) == packet_count(
            data[12] * 0x100 + data[13],
            data.skip(14),
            14,
        ),
        data.len() < 16 ==> frame_count(113, data) == FrameCount::Other,
        data.len() >= 16 ==> frame_count(113, data) == packet_count(
            data[14] * 0x100 + data[15],
            data.skip(16),
            16,
        ),
        data.len() < 20 ==> frame_count(276, data) == FrameCount::Other,
        data.len() >= 20 ==> frame_count(276, data) == packet_count(
            data[0] * 0x100 + data[1],
            data.skip(20),
            20,
        ),
        data.len() > 0 && data[0] / 16 == 4 ==> frame_count(101, data) == packet_count(
            0x0800,
            data,
            0,
        ),
        data.len() > 0 && data[0] / 16 != 4 ==> frame_count(101, data) == packet_count(
            0x86dd,
            data,
            0,
        ),
        frame_count(228, data) == frame_count(101, data),
        frame_count(229, data) == frame_count(101, data),
        frame_count(108, data) == frame_count(0, data),
        data.len() < 4 ==> frame_count(0, data) == FrameCount::Other,
        data.len() >= 4 ==> ({
            let big = data[0] * 0x100_0000 + data[1] * 0x1_0000 + data[2] * 0x100 + data[3];
            let little = data[3] * 0x100_0000 + data[2] * 0x1_0000 + data[1] * 0x100 + data[0];
            let six = |n: int| n == 10 || n == 23 || n == 24 || n == 28 || n == 30;
            let read = if big == 2 || six(big) {
                big
            } else {
                little
            };
            frame_count(0, data) == packet_count(
                if read == 2 {
                    0x0800
                } else if six(read) {
                    0x86dd
                } else {
                    0
                },
                data.skip(4),
                4,
            )
        }),
{
}

/// A frame counts once among all, with its captured and its whole length, and once under its
/// kind, with the bytes of its packet; under no other kind it counts.
pub proof fn lemma_counting_a_frame(before: Totals, captured: nat, wire_len: u64, count: FrameCount)
    requires
        before.has_room(captured, wire_len),
        before.wf(),
        count matches FrameCount::Ipv4(bytes) ==> 0 <= bytes <= captured,
        count matches FrameCount::Ipv6(bytes) ==> 0 <= bytes <= captured,
    ensures
        ({
            let after = before.with_frame(captured, wire_len, count);
            let one = |so: bool|
                if so {
                    1int
                } else {
                    0
                };
            &&& after.packets == before.packets + 1
            &&& after.bytes_wire == before.bytes_wire + wire_len
            &&& after.bytes_caplen == before.bytes_caplen + captured
            &&& after.ipv4_packets == before.ipv4_packets + one(count is Ipv4)
            &&& after.ipv6_packets == before.ipv6_packets + one(count is Ipv6)
            &&& after.arp_packets == before.arp_packets + one(count is Arp)
            &&& after.other_packets == before.other_packets + one(count is Other)
            &&& after.ip_invalid_packets == before.ip_invalid_packets + one(count is Invalid)
            &&& after.bytes_ip == before.bytes_ip + (match count {
                FrameCount::Ipv4(bytes) => bytes,
                FrameCount::Ipv6(bytes) => bytes,
                _ => 0,
            })
        }),
{
}

/// What a count has grown by, added to what it was, is what it is, unless it has been set back.
pub proof fn lemma_growth_is_the_difference(before: u32, after: u32)
    ensures
        after >= before ==> before + growth(before, after) == after,
        after < before ==> growth(before, after) == 0,
{
}

/// Addresses are listed in their order, with commas between them.
pub proof fn lemma_addresses_are_listed_with_commas(addresses: Seq<IpAddr>, next: IpAddr)
    ensures
        address_list(Seq::<IpAddr>::empty()).len() == 0,
        address_list(seq![next]) == ip_text(next),
        addresses.len() > 0 ==> address_list(addresses.push(next)) == address_list(addresses)
            + seq![','] + ip_text(next),
{
    assert(addresses.push(next).drop_last() =~= addresses);
}

/// A wait for the next report lasts until it is due, but never longer than a tenth of a second.
pub proof fn lemma_waits_are_short(next_snapshot: u128, now: u128)
    ensures
        wait_for(next_snapshot, now) <= 100_000_000,
        next_snapshot <= now ==> wait_for(next_snapshot, now) == 0,
        next_snapshot > now ==> now + wait_for(next_snapshot, now) <= next_snapshot,
        next_snapshot > now && wait_for(next_snapshot, now) < 100_000_000 ==> now + wait_for(
            next_snapshot,
            now,
        ) == next_snapshot,
{
}

/// A positive number is taken as it is written; zero, and what is no number, are refused.
/// Without a number the usual one is taken.
pub proof fn lemma_numbers_on_the_command_line(value: nat, usual: u64)
    requires
        value <= 0xffff_ffff_ffff_ffff,
    ensures
        value > 0 ==> positive(decimal(value)) == Ok::<u64, NumberFault>(value as u64),
        value == 0 ==> positive(decimal(value)) == Err::<u64, NumberFault>(NumberFault::Zero),
        positive(Seq::<char>::empty()) == Err::<u64, NumberFault>(NumberFault::NotANumber),
        number_or(None, usual) == Ok::<u64, NumberFault>(usual),
        number_or(Some(decimal(value)), usual) == positive(decimal(value)),
{
    lemma_numerals_are_read(value, 0xffff_ffff_ffff_ffff);
}

/// The output is plain unless JSON is asked for, and any other name is refused.
pub proof fn lemma_output_formats(name: Seq<char>)
    ensures
        format_named(None) == Some(OutputFormat::Plain),
        format_named(Some("plain"@)) == Some(OutputFormat::Plain),
        format_named(Some("json"@)) == Some(OutputFormat::Json),
        name != "plain"@ && name != "json"@ ==> format_named(Some(name)) is None,
{
    reveal_strlit("plain");
    reveal_strlit("json");
    assert("json"@ != "plain"@) by {
        assert("json"@.len() != "plain"@.len());
    }
}

/// Diagnostics are written where they are asked for; a place for them without asking for them
/// is refused.
pub proof fn lemma_diagnostics_on_the_command_line(cli: Cli)
    ensures
        cli.diagnostics ==> diagnostics_wanted(cli) == Some(
            Some(text_view(cli.diagnostics_output)),
        ),
        !cli.diagnostics && cli.diagnostics_output is Some ==> diagnostics_wanted(cli) is None,
        !cli.diagnostics && cli.diagnostics_output is None ==> diagnostics_wanted(cli) == Some(
            None::<Option<Seq<char>>>,
        ),
{
}

} // verus!
