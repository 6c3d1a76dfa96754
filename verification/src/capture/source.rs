//! The capture of one interface: packets in, one result each out.
//!
//! Reading packets is up to the caller. `next_step` says whether a result is ready or
//! packets have to be read; each packet read goes through `process_packet`, and
//! `batch_read` closes the batch.

use std::collections::VecDeque;

use vstd::prelude::*;

use crate::capture::counters::CaptureCounters;
use crate::capture::parser::{
    domain_found, format_of, frame_outcome, parse_with_domain_parser_outcome, same_but_domain,
    FlowParseOutcome, PacketDisposition, UnsupportedLink,
};
use crate::capture::Flow;
use crate::domain_parse::DomainParser;
use crate::flow_table::{FlowKey, FlowKnowledge, FlowTable, DEFAULT_FLOW_TABLE_CAPACITY};
use crate::net::IpAddr;
use crate::text::text_view;

verus! {

/// How many packets are asked for at once.
pub const DEFAULT_DISPATCH_BATCH_SIZE: usize = 128;

/// How long statistics of the capture are good for, in nanoseconds.
pub const STATS_SAMPLE_INTERVAL: u128 = 1_000_000_000;

/// How packets are read.
#[derive(Clone, Copy, Debug, PartialEq, Eq, Structural)]
pub enum CaptureReadMode {
    /// One at a time.
    NextPacket,
    /// In batches.
    Dispatch,
}

impl Default for CaptureReadMode {
    fn default() -> (mode: Self)
        ensures
            mode == CaptureReadMode::Dispatch,
    {
        CaptureReadMode::Dispatch
    }
}

/// The result of one packet, waiting to be handed out.
#[derive(Debug)]
pub enum PendingCaptureItem {
    Flow(Flow),
    Ignored,
    Error(UnsupportedLink),
}

/// What to do for the next result.
#[derive(Debug)]
pub enum CaptureStep {
    /// Here it is.
    Deliver(Result<Option<Flow>, UnsupportedLink>),
    /// Read packets in this way, close the batch, then take a result.
    Read(CaptureReadMode),
}

/// The result that an item stands for.
pub open spec fn result_of(item: PendingCaptureItem) -> Result<Option<Flow>, UnsupportedLink> {
    match item {
        PendingCaptureItem::Flow(flow) => Ok(Some(flow)),
        PendingCaptureItem::Ignored => Ok(None),
        PendingCaptureItem::Error(error) => Err(error),
    }
}

/// The result that an item stands for.
pub fn consume_pending_item(item: PendingCaptureItem) -> (result: Result<
    Option<Flow>,
    UnsupportedLink,
>)
    ensures
        result == result_of(item),
{
    match item {
        PendingCaptureItem::Flow(flow) => Ok(Some(flow)),
        PendingCaptureItem::Ignored => Ok(None),
        PendingCaptureItem::Error(error) => Err(error),
    }
}

/// The capacity of the flow table: the default one for zero.
pub fn flow_table_capacity(requested: u64) -> (capacity: u64)
    ensures
        capacity == if requested == 0 {
            DEFAULT_FLOW_TABLE_CAPACITY
        } else {
            requested
        },
{
    if requested == 0 {
        DEFAULT_FLOW_TABLE_CAPACITY
    } else {
        requested
    }
}

/// What a packet is counted as.
pub open spec fn disposition_of(
    link_type: i32,
    data: Seq<u8>,
    local_ips: Seq<IpAddr>,
) -> PacketDisposition {
    match format_of(link_type) {
        Some(format) => frame_outcome(format, data, local_ips).disposition,
        None => PacketDisposition::ParseError,
    }
}

/// Whether `item` is the result of a packet, and reading it turned what is known of
/// connections from `before` into `after`.
pub open spec fn packet_result<P: DomainParser>(
    parser: P,
    link_type: i32,
    data: Seq<u8>,
    local_ips: Seq<IpAddr>,
    before: Map<FlowKey, FlowKnowledge>,
    item: PendingCaptureItem,
    after: Map<FlowKey, FlowKnowledge>,
) -> bool {
    match format_of(link_type) {
        None => item == PendingCaptureItem::Error(UnsupportedLink(link_type)) && after == before,
        Some(format) => match frame_outcome(format, data, local_ips).parsed {
            None => item == PendingCaptureItem::Ignored && after == before,
            Some((flow, payload)) => {
                &&& item matches PendingCaptureItem::Flow(found)
                &&& same_but_domain(found, flow)
                &&& domain_found(parser, before, flow, payload, text_view(found.domain), after)
            },
        },
    }
}

/// The capture of one interface.
pub struct CaptureSource<P> {
    pub interface_name: String,
    pub link_type: i32,
    pub local_ips: Vec<IpAddr>,
    pub domain_parser: P,
    pub flow_table: FlowTable,
    pub pcap_counters: CaptureCounters,
    /// When the statistics of the capture were last asked for.
    pub last_pcap_stats_sample: u128,
    /// The results of packets that were read, not yet handed out.
    pub pending: VecDeque<PendingCaptureItem>,
    pub read_mode: CaptureReadMode,
    pub batch_size: usize,
    /// Whether packets come from a file.
    pub is_offline: bool,
    /// Whether the file is at its end.
    pub offline_exhausted: bool,
}

impl<P: DomainParser> CaptureSource<P> {
    /// The counters and the flow table are in order.
    pub open spec fn wf(self) -> bool {
        self.pcap_counters.wf() && self.flow_table.wf()
    }

    /// Whether the fixed properties of two captures are equal.
    pub open spec fn same_capture(self, other: Self) -> bool {
        &&& self.interface_name == other.interface_name
        &&& self.link_type == other.link_type
        &&& self.local_ips == other.local_ips
        &&& self.domain_parser == other.domain_parser
        &&& self.flow_table.same_limits(other.flow_table)
        &&& self.read_mode == other.read_mode
        &&& self.batch_size == other.batch_size
        &&& self.is_offline == other.is_offline
    }

    /// The capture of an interface, with nothing read yet.
    pub fn new(
        interface_name: String,
        link_type: i32,
        local_ips: Vec<IpAddr>,
        domain_parser: P,
        flow_table: FlowTable,
        read_mode: CaptureReadMode,
        is_offline: bool,
        now: u128,
    ) -> (source: Self)
        requires
            flow_table.wf(),
        ensures
            source.wf(),
            source.interface_name == interface_name,
            source.link_type == link_type,
            source.local_ips == local_ips,
            source.domain_parser == domain_parser,
            source.flow_table == flow_table,
            source.pcap_counters.blank(),
            crate::addresses::lists_once(source.pcap_counters.local_ips@, local_ips@),
            source.last_pcap_stats_sample == now,
            source.pending@ == Seq::<PendingCaptureItem>::empty(),
            source.read_mode == read_mode,
            source.batch_size == DEFAULT_DISPATCH_BATCH_SIZE,
            source.is_offline == is_offline,
            !source.offline_exhausted,
    {
        let pcap_counters = CaptureCounters::with_local_ips(&local_ips);
        CaptureSource {
            interface_name,
            link_type,
            local_ips,
            domain_parser,
            flow_table,
            pcap_counters,
            last_pcap_stats_sample: now,
            pending: VecDeque::new(),
            read_mode,
            batch_size: DEFAULT_DISPATCH_BATCH_SIZE,
            is_offline,
            offline_exhausted: false,
        }
    }

    /// Hands out the result that has waited longest; none if none waits.
    pub fn take_result(&mut self) -> (result: Result<Option<Flow>, UnsupportedLink>)
        ensures
            old(self).pending@.len() == 0 ==> result == Ok::<Option<Flow>, UnsupportedLink>(None)
                && final(self).pending@ == old(self).pending@,
            old(self).pending@.len() > 0 ==> result == result_of(old(self).pending@[0])
                && final(self).pending@ == old(self).pending@.drop_first(),
            final(self).same_capture(*old(self)),
            final(self).flow_table == old(self).flow_table,
            final(self).pcap_counters == old(self).pcap_counters,
            final(self).last_pcap_stats_sample == old(self).last_pcap_stats_sample,
            final(self).offline_exhausted == old(self).offline_exhausted,
    {
        match self.pending.pop_front() {
            Some(item) => {
                assert(self.pending@ =~= old(self).pending@.drop_first());
                consume_pending_item(item)
            },
            None => Ok(None),
        }
    }

    /// What to do for the next result: results that wait come first, and a file that is
    /// at its end is not read again.
    pub fn next_step(&mut self) -> (step: CaptureStep)
        ensures
            final(self).same_capture(*old(self)),
            final(self).flow_table == old(self).flow_table,
            final(self).pcap_counters == old(self).pcap_counters,
            final(self).last_pcap_stats_sample == old(self).last_pcap_stats_sample,
            final(self).offline_exhausted == old(self).offline_exhausted,
            if old(self).pending@.len() > 0 {
                &&& step == CaptureStep::Deliver(result_of(old(self).pending@[0]))
                &&& final(self).pending@ == old(self).pending@.drop_first()
            } else if old(self).offline_exhausted {
                &&& step == CaptureStep::Deliver(Ok(None))
                &&& final(self).pending@ == old(self).pending@
            } else {
                &&& step == CaptureStep::Read(old(self).read_mode)
                &&& final(self).pending@ == old(self).pending@
            },
    {
        if self.pending.len() > 0 || self.offline_exhausted {
            CaptureStep::Deliver(self.take_result())
        } else {
            CaptureStep::Read(self.read_mode)
        }
    }

    /// Counts a packet and queues its one result.
    pub fn process_packet(&mut self, data: &[u8])
        requires
            old(self).wf(),
        ensures
            final(self).wf(),
            final(self).same_capture(*old(self)),
            final(self).last_pcap_stats_sample == old(self).last_pcap_stats_sample,
            final(self).offline_exhausted == old(self).offline_exhausted,
            final(self).pending@.len() == old(self).pending@.len() + 1,
            final(self).pending@.drop_last() == old(self).pending@,
            packet_result(
                old(self).domain_parser,
                old(self).link_type,
                data@,
                old(self).local_ips@,
                old(self).flow_table@,
                final(self).pending@.last(),
                final(self).flow_table@,
            ),
            final(self).pcap_counters.counted(
                old(self).pcap_counters,
                data@.len() as u64,
                disposition_of(old(self).link_type, data@, old(self).local_ips@),
            ),
    {
        let captured_bytes: u64 = data.len() as u64;
        match parse_with_domain_parser_outcome(
            self.link_type,
            data,
            &self.local_ips,
            &self.domain_parser,
            &mut self.flow_table,
        ) {
            Ok(outcome) => {
                self.pcap_counters.record_packet(captured_bytes, &outcome);
                match outcome.flow {
                    Some(flow) => self.pending.push_back(PendingCaptureItem::Flow(flow)),
                    None => self.pending.push_back(PendingCaptureItem::Ignored),
                }
            },
            Err(error) => {
                let outcome = FlowParseOutcome {
                    disposition: PacketDisposition::ParseError,
                    flow: None,
                };
                self.pcap_counters.record_packet(captured_bytes, &outcome);
                self.pending.push_back(PendingCaptureItem::Error(error));
            },
        }
        assert(self.pending@.drop_last() =~= old(self).pending@);
    }

    /// Closes a batch of `processed` packets. A file that gives no more packets is at its
    /// end; a quiet interface is not.
    pub fn batch_read(&mut self, processed: usize)
        ensures
            final(self).same_capture(*old(self)),
            final(self).flow_table == old(self).flow_table,
            final(self).pcap_counters == old(self).pcap_counters,
            final(self).last_pcap_stats_sample == old(self).last_pcap_stats_sample,
            final(self).pending@ == old(self).pending@,
            final(self).offline_exhausted == (old(self).offline_exhausted || (processed == 0
                && old(self).pending@.len() == 0 && old(self).is_offline)),
    {
        if processed == 0 && self.pending.len() == 0 && self.is_offline {
            self.offline_exhausted = true;
        }
    }

    /// Gives a batch up that could not be read to its end: what its packets gave so far is
    /// dropped, though they stay counted.
    pub fn batch_failed(&mut self)
        ensures
            final(self).same_capture(*old(self)),
            final(self).flow_table == old(self).flow_table,
            final(self).pcap_counters == old(self).pcap_counters,
            final(self).last_pcap_stats_sample == old(self).last_pcap_stats_sample,
            final(self).offline_exhausted == old(self).offline_exhausted,
            final(self).pending@ == Seq::<PendingCaptureItem>::empty(),
    {
        self.pending = VecDeque::new();
    }

    /// Whether the statistics of the capture are to be asked for, which is once a second
    /// at most.
    pub fn stats_due(&mut self, now: u128) -> (due: bool)
        ensures
            final(self).same_capture(*old(self)),
            final(self).flow_table == old(self).flow_table,
            final(self).pcap_counters == old(self).pcap_counters,
            final(self).pending@ == old(self).pending@,
            final(self).offline_exhausted == old(self).offline_exhausted,
            due == (now - old(self).last_pcap_stats_sample >= STATS_SAMPLE_INTERVAL),
            final(self).last_pcap_stats_sample == if due {
                now
            } else {
                old(self).last_pcap_stats_sample
            },
    {
        if now.saturating_sub(self.last_pcap_stats_sample) < STATS_SAMPLE_INTERVAL {
            return false;
        }
        self.last_pcap_stats_sample = now;
        true
    }

    /// About how many connections the flow table holds: no more than it ever learned of.
    pub fn flow_table_entry_count(&self) -> (count: u64)
        requires
            self.wf(),
        ensures
            self.flow_table@.dom().finite(),
            count <= self.flow_table@.dom().len(),
    {
        self.flow_table.entry_count()
    }
}

} // verus!
