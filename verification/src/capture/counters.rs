//! Counts of captured packets, and samples of those that belong to other hosts.

use vstd::prelude::*;

use crate::addresses::{lists_once, sorted_addresses};
use crate::capture::parser::{FlowParseOutcome, IpVersion, PacketDisposition};
use crate::net::IpAddr;

verus! {

/// How many pairs of foreign addresses are kept per IP version.
pub const NON_LOCAL_ENDPOINT_SAMPLE_LIMIT: usize = 8;

/// Once that many are kept, every so many packets one is replaced.
pub const NON_LOCAL_ENDPOINT_SAMPLE_INTERVAL: u64 = 4_096;

/// The addresses of a packet neither of whose ends is local.
#[derive(Clone, Copy, Debug, PartialEq, Eq, Structural)]
pub struct NonLocalEndpointSample {
    pub src: IpAddr,
    pub dst: IpAddr,
}

/// The local addresses and the samples at one moment.
#[derive(Debug)]
pub struct CaptureDiagnosticsSnapshot {
    pub local_ips: Vec<IpAddr>,
    pub non_local_ipv4_samples: Vec<NonLocalEndpointSample>,
    pub non_local_ipv6_samples: Vec<NonLocalEndpointSample>,
}

/// The samples of one IP version, with the number of packets they are taken from.
#[derive(Debug)]
pub struct NonLocalEndpointSamples {
    pub seen: u64,
    pub kept: Vec<NonLocalEndpointSample>,
}

/// The samples after one more packet, the `seen`-th: the first ones are kept, later
/// ones replace a kept one at each interval, in turn.
pub open spec fn sampled(
    kept: Seq<NonLocalEndpointSample>,
    seen: u64,
    sample: NonLocalEndpointSample,
) -> Seq<NonLocalEndpointSample> {
    if seen <= NON_LOCAL_ENDPOINT_SAMPLE_LIMIT {
        kept.push(sample)
    } else if seen % NON_LOCAL_ENDPOINT_SAMPLE_INTERVAL == 0 {
        kept.update(
            (seen / NON_LOCAL_ENDPOINT_SAMPLE_INTERVAL - 1)
                % (NON_LOCAL_ENDPOINT_SAMPLE_LIMIT as int),
            sample,
        )
    } else {
        kept
    }
}

impl NonLocalEndpointSamples {
    /// The first packets are all kept.
    pub open spec fn wf(self) -> bool {
        self.kept@.len() >= self.seen || self.kept@.len() >= NON_LOCAL_ENDPOINT_SAMPLE_LIMIT
    }

    /// As many are kept as there were packets, up to the limit.
    pub open spec fn bounded(self) -> bool {
        self.kept@.len() == if self.seen <= NON_LOCAL_ENDPOINT_SAMPLE_LIMIT {
            self.seen as nat
        } else {
            NON_LOCAL_ENDPOINT_SAMPLE_LIMIT as nat
        }
    }

    /// No packets yet.
    pub fn new() -> (samples: Self)
        ensures
            samples.wf(),
            samples.bounded(),
            samples.seen == 0,
            samples.kept@ == Seq::<NonLocalEndpointSample>::empty(),
    {
        NonLocalEndpointSamples { seen: 0, kept: Vec::new() }
    }

    /// One more packet.
    pub fn note(&mut self, sample: NonLocalEndpointSample)
        requires
            old(self).wf(),
        ensures
            final(self).wf(),
            final(self).seen == old(self).seen.wrapping_add(1),
            final(self).kept@ == sampled(old(self).kept@, final(self).seen, sample),
            old(self).bounded() && old(self).seen < u64::MAX ==> final(self).bounded(),
    {
        self.seen = self.seen.wrapping_add(1);
        if self.seen <= NON_LOCAL_ENDPOINT_SAMPLE_LIMIT as u64 {
            self.kept.push(sample);
        } else if self.seen % NON_LOCAL_ENDPOINT_SAMPLE_INTERVAL == 0 {
            let turn: u64 = self.seen / NON_LOCAL_ENDPOINT_SAMPLE_INTERVAL - 1;
            let index: usize = (turn % NON_LOCAL_ENDPOINT_SAMPLE_LIMIT as u64) as usize;
            self.kept.set(index, sample);
        }
    }
}

/// The kinds of packets that are counted apart.
#[derive(Clone, Copy, Debug, PartialEq, Eq, Structural)]
pub enum PacketKind {
    Flow,
    ParseError,
    NonIp,
    NonLocalIpv4,
    NonLocalIpv6,
    DuplicateOutgoing,
}

/// The kind that a packet is counted under.
pub open spec fn kind_of(disposition: PacketDisposition) -> PacketKind {
    match disposition {
        PacketDisposition::Accepted => PacketKind::Flow,
        PacketDisposition::ParseError => PacketKind::ParseError,
        PacketDisposition::NonIp => PacketKind::NonIp,
        PacketDisposition::NonLocal { version: IpVersion::V4, .. } => PacketKind::NonLocalIpv4,
        PacketDisposition::NonLocal { version: IpVersion::V6, .. } => PacketKind::NonLocalIpv6,
        PacketDisposition::DuplicateOutgoing => PacketKind::DuplicateOutgoing,
    }
}

/// What has been captured on an interface. All counts are cumulative and wrap.
#[derive(Debug)]
pub struct CaptureCounters {
    pub received: u64,
    pub dropped: u64,
    pub if_dropped: u64,
    pub packets_read: u64,
    pub bytes_read: u64,
    pub parse_error_packets: u64,
    pub parse_error_bytes: u64,
    pub non_ip_packets: u64,
    pub non_ip_bytes: u64,
    pub non_local_ipv4_packets: u64,
    pub non_local_ipv4_bytes: u64,
    pub non_local_ipv6_packets: u64,
    pub non_local_ipv6_bytes: u64,
    pub duplicate_outgoing_packets: u64,
    pub duplicate_outgoing_bytes: u64,
    pub flow_packets: u64,
    pub flow_bytes: u64,
    pub local_ips: Vec<IpAddr>,
    pub ipv4_samples: NonLocalEndpointSamples,
    pub ipv6_samples: NonLocalEndpointSamples,
}

/// Whether a sum of counts is the total, counting modulo 2^64.
pub open spec fn sums_to(parts: int, total: u64) -> bool {
    parts % 0x1_0000_0000_0000_0000 == total
}

impl CaptureCounters {
    /// The packets of a kind.
    pub open spec fn packets(self, kind: PacketKind) -> u64 {
        match kind {
            PacketKind::Flow => self.flow_packets,
            PacketKind::ParseError => self.parse_error_packets,
            PacketKind::NonIp => self.non_ip_packets,
            PacketKind::NonLocalIpv4 => self.non_local_ipv4_packets,
            PacketKind::NonLocalIpv6 => self.non_local_ipv6_packets,
            PacketKind::DuplicateOutgoing => self.duplicate_outgoing_packets,
        }
    }

    /// The bytes of the packets of a kind.
    pub open spec fn bytes(self, kind: PacketKind) -> u64 {
        match kind {
            PacketKind::Flow => self.flow_bytes,
            PacketKind::ParseError => self.parse_error_bytes,
            PacketKind::NonIp => self.non_ip_bytes,
            PacketKind::NonLocalIpv4 => self.non_local_ipv4_bytes,
            PacketKind::NonLocalIpv6 => self.non_local_ipv6_bytes,
            PacketKind::DuplicateOutgoing => self.duplicate_outgoing_bytes,
        }
    }

    /// The samples are in order.
    pub open spec fn wf(self) -> bool {
        self.ipv4_samples.wf() && self.ipv6_samples.wf()
    }

    /// The packets of all kinds.
    pub open spec fn packet_sum(self) -> int {
        self.flow_packets + self.parse_error_packets + self.non_ip_packets
            + self.non_local_ipv4_packets + self.non_local_ipv6_packets
            + self.duplicate_outgoing_packets
    }

    /// The bytes of the packets of all kinds.
    pub open spec fn byte_sum(self) -> int {
        self.flow_bytes + self.parse_error_bytes + self.non_ip_bytes + self.non_local_ipv4_bytes
            + self.non_local_ipv6_bytes + self.duplicate_outgoing_bytes
    }

    /// Every packet read, and every byte, is counted under exactly one kind.
    pub open spec fn balanced(self) -> bool {
        &&& sums_to(self.packet_sum(), self.packets_read)
        &&& sums_to(self.byte_sum(), self.bytes_read)
    }

    /// Whether what the capture itself reports, and the local addresses, are equal.
    pub open spec fn same_source(self, other: Self) -> bool {
        &&& self.received == other.received
        &&& self.dropped == other.dropped
        &&& self.if_dropped == other.if_dropped
        &&& self.local_ips == other.local_ips
    }

    /// Whether the counts of a kind are those of `before` with one more packet, if it
    /// is of that kind.
    pub open spec fn kind_counted(
        self,
        before: Self,
        kind: PacketKind,
        captured_bytes: u64,
        disposition: PacketDisposition,
    ) -> bool {
        if kind == kind_of(disposition) {
            &&& self.packets(kind) == before.packets(kind).wrapping_add(1)
            &&& self.bytes(kind) == before.bytes(kind).wrapping_add(captured_bytes)
        } else {
            &&& self.packets(kind) == before.packets(kind)
            &&& self.bytes(kind) == before.bytes(kind)
        }
    }

    /// Whether `self` is `before` with one more packet.
    pub open spec fn counted(
        self,
        before: Self,
        captured_bytes: u64,
        disposition: PacketDisposition,
    ) -> bool {
        &&& self.same_source(before)
        &&& self.packets_read == before.packets_read.wrapping_add(1)
        &&& self.bytes_read == before.bytes_read.wrapping_add(captured_bytes)
        &&& self.kind_counted(before, PacketKind::Flow, captured_bytes, disposition)
        &&& self.kind_counted(before, PacketKind::ParseError, captured_bytes, disposition)
        &&& self.kind_counted(before, PacketKind::NonIp, captured_bytes, disposition)
        &&& self.kind_counted(before, PacketKind::NonLocalIpv4, captured_bytes, disposition)
        &&& self.kind_counted(before, PacketKind::NonLocalIpv6, captured_bytes, disposition)
        &&& self.kind_counted(before, PacketKind::DuplicateOutgoing, captured_bytes, disposition)
        &&& match disposition {
            PacketDisposition::NonLocal { version, src, dst } => self.sampled(
                before,
                version,
                src,
                dst,
            ),
            _ => self.ipv4_samples == before.ipv4_samples && self.ipv6_samples
                == before.ipv6_samples,
        }
    }

    /// Whether the samples of `self` are those of `before` with one more packet.
    pub open spec fn sampled(
        self,
        before: Self,
        version: IpVersion,
        src: IpAddr,
        dst: IpAddr,
    ) -> bool {
        let sample = NonLocalEndpointSample { src, dst };
        match version {
            IpVersion::V4 => {
                &&& self.ipv4_samples.seen == before.ipv4_samples.seen.wrapping_add(1)
                &&& self.ipv4_samples.kept@ == sampled(
                    before.ipv4_samples.kept@,
                    self.ipv4_samples.seen,
                    sample,
                )
                &&& self.ipv6_samples == before.ipv6_samples
            },
            IpVersion::V6 => {
                &&& self.ipv6_samples.seen == before.ipv6_samples.seen.wrapping_add(1)
                &&& self.ipv6_samples.kept@ == sampled(
                    before.ipv6_samples.kept@,
                    self.ipv6_samples.seen,
                    sample,
                )
                &&& self.ipv4_samples == before.ipv4_samples
            },
        }
    }

    /// Whether every count is zero and nothing is sampled.
    pub open spec fn blank(self) -> bool {
        &&& self.received == 0 && self.dropped == 0 && self.if_dropped == 0
        &&& self.packets_read == 0 && self.bytes_read == 0
        &&& forall|kind: PacketKind| #[trigger] self.packets(kind) == 0
        &&& forall|kind: PacketKind| #[trigger] self.bytes(kind) == 0
        &&& self.ipv4_samples.seen == 0 && self.ipv4_samples.kept@.len() == 0
        &&& self.ipv6_samples.seen == 0 && self.ipv6_samples.kept@.len() == 0
    }

    /// Nothing captured yet, on a host with these addresses.
    pub fn with_local_ips(local_ips: &Vec<IpAddr>) -> (counters: Self)
        ensures
            counters.wf(),
            counters.blank(),
            counters.balanced(),
            lists_once(counters.local_ips@, local_ips@),
    {
        CaptureCounters {
            received: 0,
            dropped: 0,
            if_dropped: 0,
            packets_read: 0,
            bytes_read: 0,
            parse_error_packets: 0,
            parse_error_bytes: 0,
            non_ip_packets: 0,
            non_ip_bytes: 0,
            non_local_ipv4_packets: 0,
            non_local_ipv4_bytes: 0,
            non_local_ipv6_packets: 0,
            non_local_ipv6_bytes: 0,
            duplicate_outgoing_packets: 0,
            duplicate_outgoing_bytes: 0,
            flow_packets: 0,
            flow_bytes: 0,
            local_ips: sorted_addresses(local_ips),
            ipv4_samples: NonLocalEndpointSamples::new(),
            ipv6_samples: NonLocalEndpointSamples::new(),
        }
    }

    /// Counts a packet under its kind.
    pub fn record_packet(&mut self, captured_bytes: u64, outcome: &FlowParseOutcome)
        requires
            old(self).wf(),
        ensures
            final(self).wf(),
            final(self).counted(*old(self), captured_bytes, outcome.disposition),
    {
        self.packets_read = self.packets_read.wrapping_add(1);
        self.bytes_read = self.bytes_read.wrapping_add(captured_bytes);
        match outcome.disposition {
            PacketDisposition::Accepted => {
                self.flow_packets = self.flow_packets.wrapping_add(1);
                self.flow_bytes = self.flow_bytes.wrapping_add(captured_bytes);
            },
            PacketDisposition::ParseError => {
                self.parse_error_packets = self.parse_error_packets.wrapping_add(1);
                self.parse_error_bytes = self.parse_error_bytes.wrapping_add(captured_bytes);
            },
            PacketDisposition::NonIp => {
                self.non_ip_packets = self.non_ip_packets.wrapping_add(1);
                self.non_ip_bytes = self.non_ip_bytes.wrapping_add(captured_bytes);
            },
            PacketDisposition::NonLocal { version, src, dst } => {
                self.record_non_local_endpoint(version, src, dst);
                match version {
                    IpVersion::V4 => {
                        self.non_local_ipv4_packets = self.non_local_ipv4_packets.wrapping_add(1);
                        self.non_local_ipv4_bytes =
                        self.non_local_ipv4_bytes.wrapping_add(captured_bytes);
                    },
                    IpVersion::V6 => {
                        self.non_local_ipv6_packets = self.non_local_ipv6_packets.wrapping_add(1);
                        self.non_local_ipv6_bytes =
                        self.non_local_ipv6_bytes.wrapping_add(captured_bytes);
                    },
                }
            },
            PacketDisposition::DuplicateOutgoing => {
                self.duplicate_outgoing_packets = self.duplicate_outgoing_packets.wrapping_add(1);
                self.duplicate_outgoing_bytes =
                self.duplicate_outgoing_bytes.wrapping_add(captured_bytes);
            },
        }
    }

    /// Samples the addresses of a packet that belongs to other hosts.
    pub fn record_non_local_endpoint(&mut self, version: IpVersion, src: IpAddr, dst: IpAddr)
        requires
            old(self).wf(),
        ensures
            final(self).wf(),
            final(self).sampled(*old(self), version, src, dst),
            *final(self) == (CaptureCounters {
                ipv4_samples: final(self).ipv4_samples,
                ipv6_samples: final(self).ipv6_samples,
                ..*old(self)
            }),
    {
        let sample = NonLocalEndpointSample { src, dst };
        match version {
            IpVersion::V4 => self.ipv4_samples.note(sample),
            IpVersion::V6 => self.ipv6_samples.note(sample),
        }
    }

    /// Takes over what the capture itself reports.
    pub fn note_pcap_stats(&mut self, received: u32, dropped: u32, if_dropped: u32)
        ensures
            *final(self) == (CaptureCounters {
                received: received as u64,
                dropped: dropped as u64,
                if_dropped: if_dropped as u64,
                ..*old(self)
            }),
    {
        self.received = received as u64;
        self.dropped = dropped as u64;
        self.if_dropped = if_dropped as u64;
    }

    /// The local addresses and the samples at this moment.
    pub fn diagnostics_snapshot(&self) -> (snapshot: CaptureDiagnosticsSnapshot)
        ensures
            snapshot.local_ips@ == self.local_ips@,
            snapshot.non_local_ipv4_samples@ == self.ipv4_samples.kept@,
            snapshot.non_local_ipv6_samples@ == self.ipv6_samples.kept@,
    {
        let snapshot = CaptureDiagnosticsSnapshot {
            local_ips: self.local_ips.clone(),
            non_local_ipv4_samples: self.ipv4_samples.kept.clone(),
            non_local_ipv6_samples: self.ipv6_samples.kept.clone(),
        };
        assert(snapshot.local_ips@ =~= self.local_ips@);
        assert(snapshot.non_local_ipv4_samples@ =~= self.ipv4_samples.kept@);
        assert(snapshot.non_local_ipv6_samples@ =~= self.ipv6_samples.kept@);
        snapshot
    }
}

/// Every packet read, and every byte of it, stays counted under exactly one kind.
pub proof fn lemma_counting_stays_balanced(
    before: CaptureCounters,
    after: CaptureCounters,
    captured_bytes: u64,
    disposition: PacketDisposition,
)
    requires
        before.balanced(),
        after.counted(before, captured_bytes, disposition),
    ensures
        after.balanced(),
{
    let kind = kind_of(disposition);
    lemma_sum_grows(before.packet_sum(), before.packets_read, before.packets(kind), 1);
    lemma_sum_grows(before.byte_sum(), before.bytes_read, before.bytes(kind), captured_bytes);
    match kind {
        PacketKind::Flow => {},
        PacketKind::ParseError => {},
        PacketKind::NonIp => {},
        PacketKind::NonLocalIpv4 => {},
        PacketKind::NonLocalIpv6 => {},
        PacketKind::DuplicateOutgoing => {},
    }
    assert(after.packet_sum() == before.packet_sum() - before.packets(kind) + after.packets(kind));
    assert(after.byte_sum() == before.byte_sum() - before.bytes(kind) + after.bytes(kind));
}

/// Whether counters stand for a number of packets: every packet and every byte is counted
/// under one kind, and the samples of each IP version are as many as its packets of other
/// hosts, up to the limit.
pub open spec fn stands_for(counters: CaptureCounters, packets: nat) -> bool {
    &&& counters.balanced()
    &&& counters.ipv4_samples.bounded()
    &&& counters.ipv6_samples.bounded()
    &&& counters.ipv4_samples.seen == counters.non_local_ipv4_packets
    &&& counters.ipv6_samples.seen == counters.non_local_ipv6_packets
    &&& counters.ipv4_samples.seen <= packets
    &&& counters.ipv6_samples.seen <= packets
}

/// From the first packet on, and for as many as 64 bits count, the counters add up: the
/// packets read are those of the six kinds together, and so are the bytes; each list of
/// samples is as long as there are packets for it, up to the limit.
pub proof fn lemma_counters_of_a_run(
    counters: Seq<CaptureCounters>,
    packets: Seq<(u64, PacketDisposition)>,
)
    requires
        counters.len() == packets.len() + 1,
        packets.len() <= u64::MAX,
        counters[0].blank(),
        forall|i: int, j: int|
            #![trigger packets[i], counters[j]]
            0 <= i < packets.len() && j == i + 1 ==> counters[j].counted(
                counters[i],
                packets[i].0,
                packets[i].1,
            ),
    ensures
        stands_for(counters.last(), packets.len()),
    decreases packets.len(),
{
    if packets.len() == 0 {
        let first = counters[0];
        assert(first.packets(PacketKind::Flow) == 0 && first.bytes(PacketKind::Flow) == 0);
        assert(first.packets(PacketKind::ParseError) == 0 && first.bytes(PacketKind::ParseError)
            == 0);
        assert(first.packets(PacketKind::NonIp) == 0 && first.bytes(PacketKind::NonIp) == 0);
        assert(first.packets(PacketKind::NonLocalIpv4) == 0 && first.bytes(PacketKind::NonLocalIpv4)
            == 0);
        assert(first.packets(PacketKind::NonLocalIpv6) == 0 && first.bytes(PacketKind::NonLocalIpv6)
            == 0);
        assert(first.packets(PacketKind::DuplicateOutgoing) == 0 && first.bytes(
            PacketKind::DuplicateOutgoing,
        ) == 0);
    } else {
        let last = packets.len() - 1;
        let earlier = packets.drop_last();
        let before = counters.drop_last();
        assert forall|i: int, j: int|
            #![trigger earlier[i], before[j]]
            0 <= i < earlier.len() && j == i + 1 implies before[j].counted(
            before[i],
            earlier[i].0,
            earlier[i].1,
        ) by {
            assert(packets[i] == earlier[i] && counters[j] == before[j]);
        }
        lemma_counters_of_a_run(before, earlier);
        let (captured_bytes, disposition) = packets[last];
        assert(counters[last + 1].counted(counters[last], captured_bytes, disposition));
        lemma_counting_stays_balanced(
            counters[last],
            counters.last(),
            captured_bytes,
            disposition,
        );
    }
}

proof fn lemma_sum_grows(parts: int, total: u64, count: u64, more: u64)
    requires
        sums_to(parts, total),
    ensures
        sums_to(parts - count + count.wrapping_add(more), total.wrapping_add(more)),
{
    let q = parts / 0x1_0000_0000_0000_0000;
    assert(parts == q * 0x1_0000_0000_0000_0000 + total);
    let grown = parts - count + count.wrapping_add(more);
    let carries = if count + more > u64::MAX { 1int } else { 0int };
    let total_carries = if total + more > u64::MAX { 1int } else { 0int };
    assert(grown == (q - carries + total_carries) * 0x1_0000_0000_0000_0000 + total.wrapping_add(
        more,
    ));
}

} // verus!
