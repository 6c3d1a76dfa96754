//! What holds across the library, proved of the models that the functions go by.

use vstd::prelude::*;

use crate::attribution::{
    accounted, endpoint_bytes, going, has_two_endpoints, taken_in, Pending,
};
use crate::capture::parser::{
    after_reading, classified, frame_outcome, may_say, plan_for, DecodedView, PacketDisposition,
    PacketFormat, PlanView, SllPacketType,
};
use crate::capture::Flow;
use crate::conservation::sent_if_local;
use crate::domain_parse_composite::{composite_domain, TLS_HANDSHAKE_CONTENT_TYPE};
use crate::domain_parse_http::http_domain;
use crate::domain_parse_tls::{extensions_domain, hides_name, tls_domain, ExtensionView};
use crate::flow_table::{FlowKey, FlowKnowledge, MAX_NO_DOMAIN_PARSE_ATTEMPTS};
use crate::history::{
    interval_of, scanned, updated, AttributionHistory, HistoryInterval,
    StartTimes,
};
use crate::net::{
    is_mapped_value, keys_of, mapped_v4, wildcard_spec, Direction, IpAddr, LocalSocket, SocketAddr,
};
use crate::proc_table::{
    lists, owners_of, record_socket, with_keys, with_owner, ListenerRecord, LookupMissReason,
    LookupOutcome, Owner, ProcEntry, ProcTable,
};
use crate::process_probe::ProbeView;
use crate::stats::{Booking, ObservedProcess};

pub mod answers;
pub mod details;
pub mod devices;
pub mod intake;
pub mod messages;
pub mod names;
pub mod order;
pub mod owners;
pub mod packets;
pub mod passing;
pub mod probing;
pub mod recovery;
pub mod reports;
pub mod scans;
pub mod sessions;
pub mod texts;
pub mod themes;
pub mod totals;
pub mod upkeep;

verus! {

/// A table whose last refresh is too old names nobody.
pub proof fn lemma_stale_table_names_nobody(
    table: ProcTable,
    socket: LocalSocket,
    now: u128,
    outcome: LookupOutcome<'_>,
)
    requires
        table.is_stale(now),
        table.finds(socket, now, outcome),
    ensures
        outcome == LookupOutcome::Miss(LookupMissReason::Stale),
{
}

/// A process on the very address goes before one that listens on any address.
pub proof fn lemma_exact_address_before_wildcard(table: ProcTable, socket: LocalSocket)
    requires
        table.candidates(socket).len() > 0,
    ensures
        table.lookup_candidates(socket) == table.candidates(socket),
{
}

/// Where nobody is on the very address, one that listens on any address is found.
pub proof fn lemma_wildcard_listener_is_found(table: ProcTable, socket: LocalSocket)
    requires
        table.candidates(socket).len() == 0,
    ensures
        table.lookup_candidates(socket) == table.candidates(
            socket.at_spec(wildcard_spec(socket.ip)),
        ),
{
}

proof fn lemma_with_owner_lists(owners: Seq<Owner>, owner: Owner, socket: LocalSocket, pid: u32)
    ensures
        lists(owners, socket, pid) ==> lists(with_owner(owners, owner), socket, pid),
        lists(with_owner(owners, owner), owner.socket, owner.pid),
{
    let grown = with_owner(owners, owner);
    if lists(owners, socket, pid) {
        let i = choose|i: int|
            0 <= i < owners.len() && (#[trigger] owners[i]).socket == socket && owners[i].pid
                == pid;
        assert(grown[i] == owners[i]);
    }
    if !lists(owners, owner.socket, owner.pid) {
        assert(grown[owners.len() as int] == owner);
    }
}

proof fn lemma_with_keys_lists(
    owners: Seq<Owner>,
    keys: Seq<(LocalSocket, bool)>,
    pid: u32,
    name: Option<Seq<char>>,
    path: Option<Seq<char>>,
    socket: LocalSocket,
    other: u32,
)
    ensures
        lists(owners, socket, other) ==> lists(
            with_keys(owners, keys, pid, name, path),
            socket,
            other,
        ),
        forall|i: int|
            0 <= i < keys.len() ==> lists(
                with_keys(owners, keys, pid, name, path),
                (#[trigger] keys[i]).0,
                pid,
            ),
    decreases keys.len(),
{
    if keys.len() > 0 {
        let shorter = keys.drop_last();
        let before = with_keys(owners, shorter, pid, name, path);
        let owner = Owner { socket: keys.last().0, pid, name, path };
        lemma_with_keys_lists(owners, shorter, pid, name, path, socket, other);
        lemma_with_owner_lists(before, owner, socket, other);
        assert forall|i: int| 0 <= i < keys.len() implies lists(
            with_keys(owners, keys, pid, name, path),
            (#[trigger] keys[i]).0,
            pid,
        ) by {
            if i < shorter.len() {
                assert(shorter[i] == keys[i]);
                lemma_with_owner_lists(before, owner, keys[i].0, pid);
            }
        }
    }
}

/// Every line of a scan is listed, under each socket that it is found by.
pub proof fn lemma_every_scan_line_is_listed(
    records: Seq<ListenerRecord>,
    line: int,
    key: int,
)
    requires
        0 <= line < records.len(),
        0 <= key < keys_of(record_socket(records[line])).len(),
    ensures
        lists(
            owners_of(records),
            keys_of(record_socket(records[line]))[key].0,
            records[line].pid,
        ),
    decreases records.len(),
{
    let record = records.last();
    let shorter = records.drop_last();
    let keys = keys_of(record_socket(records[line]));
    if line < shorter.len() {
        assert(shorter[line] == records[line]);
        lemma_every_scan_line_is_listed(shorter, line, key);
    }
    lemma_with_keys_lists(
        owners_of(shorter),
        keys_of(record_socket(record)),
        record.pid,
        crate::process_name::shown_name(record.path_style, record.name@, record.path@),
        crate::process_name::nonempty(record.path@),
        keys[key].0,
        records[line].pid,
    );
}

/// A process on an IPv4-mapped address is listed under the IPv4 address too.
pub proof fn lemma_mapped_listener_is_listed_under_ipv4(
    records: Seq<ListenerRecord>,
    line: int,
    mapped: u128,
)
    requires
        0 <= line < records.len(),
        records[line].socket.ip == IpAddr::V6(mapped),
        is_mapped_value(mapped),
    ensures
        lists(
            owners_of(records),
            record_socket(records[line]).at_spec(IpAddr::V4(mapped_v4(mapped) as u32)),
            records[line].pid,
        ),
{
    let keys = keys_of(record_socket(records[line]));
    assert(keys.len() == 2);
    lemma_every_scan_line_is_listed(records, line, 1);
}

/// What a scan shows has an open interval afterwards, however full the log is.
pub proof fn lemma_seen_pairing_stays_open(
    before: Seq<HistoryInterval>,
    entries: Seq<ProcEntry>,
    now: i128,
    cutoff: int,
    capacity: nat,
    after: Seq<HistoryInterval>,
    socket: LocalSocket,
    pid: u32,
)
    requires
        updated(before, entries, now, cutoff, capacity, after),
        scanned(entries, socket, pid) is Some,
    ensures
        interval_of(after, socket, pid) matches Some(interval) && interval.valid_to is None,
{
    assert(interval_of(after, socket, pid) is Some);
}

/// A pairing that the scan does not show any more is closed at the scan's time, or gone.
pub proof fn lemma_unseen_pairing_closes(
    before: Seq<HistoryInterval>,
    entries: Seq<ProcEntry>,
    now: i128,
    cutoff: int,
    capacity: nat,
    after: Seq<HistoryInterval>,
    socket: LocalSocket,
    pid: u32,
)
    requires
        updated(before, entries, now, cutoff, capacity, after),
        scanned(entries, socket, pid) is None,
        interval_of(before, socket, pid) matches Some(interval) && interval.valid_to is None,
    ensures
        interval_of(after, socket, pid) matches Some(interval) ==> interval.valid_to == Some(now),
{
    let kept = interval_of(after, socket, pid);
    assert(kept matches Some(interval) ==> interval.valid_to == Some(now));
}

/// A pairing that comes back starts a new interval; it is not taken for the old one.
pub proof fn lemma_reopened_pairing_starts_anew(
    before: Seq<HistoryInterval>,
    entries: Seq<ProcEntry>,
    now: i128,
    cutoff: int,
    capacity: nat,
    after: Seq<HistoryInterval>,
    socket: LocalSocket,
    pid: u32,
)
    requires
        updated(before, entries, now, cutoff, capacity, after),
        scanned(entries, socket, pid) is Some,
        interval_of(before, socket, pid) matches Some(interval) && interval.valid_to is Some,
    ensures
        interval_of(after, socket, pid) matches Some(interval) && interval.valid_from == now,
{
    assert(interval_of(after, socket, pid) is Some);
}

/// A process that started after the traffic was seen is never charged from the log.
pub proof fn lemma_later_process_is_not_recovered(
    history: AttributionHistory,
    socket: LocalSocket,
    at: int,
    started: StartTimes,
    i: int,
)
    requires
        0 <= i < history.verified_owners(socket, at, started).len(),
    ensures
        started.of(history.verified_owners(socket, at, started)[i].pid) matches Some(start) && start
            <= at,
        history.owners(socket, at).contains(history.verified_owners(socket, at, started)[i]),
{
    let known = |process: ObservedProcess|
        started.of(process.pid) matches Some(start) && start <= at;
    let owners = history.owners(socket, at);
    owners.lemma_filter_contains_rev(known, owners.filter(known)[i]);
    owners.lemma_filter_pred(known, i);
}

/// Of a connection the table says what was last learned of it, or nothing.
pub proof fn lemma_read_gives_back_the_last_write(
    table: Map<FlowKey, FlowKnowledge>,
    key: FlowKey,
    written: FlowKnowledge,
    said: Option<FlowKnowledge>,
)
    requires
        may_say(table.insert(key, written), key, said),
    ensures
        said is None || said == Some(written),
{
}

/// What is learned of a connection leaves all others alone.
pub proof fn lemma_connections_are_independent(
    before: Map<FlowKey, FlowKnowledge>,
    key: FlowKey,
    earlier: u8,
    read: Option<Seq<char>>,
    other: FlowKey,
)
    requires
        other != key,
    ensures
        after_reading(before, key, earlier, read).contains_key(other) == before.contains_key(other),
        before.contains_key(other) ==> after_reading(before, key, earlier, read)[other]
            == before[other],
{
}

/// After as many failed attempts as are made, the host name is not looked for any more.
pub proof fn lemma_attempts_are_bounded(attempts: u8)
    ensures
        plan_for(Some(FlowKnowledge::NoDomain { attempts })) == if attempts
            >= MAX_NO_DOMAIN_PARSE_ATTEMPTS {
            PlanView::GiveUp
        } else {
            PlanView::Read { earlier: attempts }
        },
{
}

/// Each failed attempt brings the end of the attempts nearer: what the table then says of
/// the connection plans the next attempt, or none.
pub proof fn lemma_failed_attempts_add_up(
    before: Map<FlowKey, FlowKnowledge>,
    key: FlowKey,
    earlier: u8,
)
    requires
        earlier < MAX_NO_DOMAIN_PARSE_ATTEMPTS,
    ensures
        plan_for(Some(after_reading(before, key, earlier, None)[key])) == if earlier + 1
            < MAX_NO_DOMAIN_PARSE_ATTEMPTS {
            PlanView::Read { earlier: (earlier + 1) as u8 }
        } else {
            PlanView::GiveUp
        },
{
}

/// A resolved connection keeps its host name whatever its later packets hold.
pub proof fn lemma_resolved_connection_is_not_read_again(domain: Seq<char>)
    ensures
        plan_for(Some(FlowKnowledge::Resolved(domain))) == PlanView::Known(domain),
{
}

/// A ClientHello that hides its host name gives none, whatever else it holds.
pub proof fn lemma_hidden_name_gives_none(extensions: Seq<ExtensionView>, i: int)
    requires
        0 <= i < extensions.len(),
        hides_name(extensions[i]),
    ensures
        extensions_domain(extensions) is None,
{
}

/// The first byte of a payload alone decides how it is read.
pub proof fn lemma_first_byte_decides(payload: Seq<u8>)
    requires
        payload.len() > 0,
    ensures
        payload[0] == TLS_HANDSHAKE_CONTENT_TYPE ==> composite_domain(payload) == tls_domain(
            payload,
        ),
        payload[0] != TLS_HANDSHAKE_CONTENT_TYPE ==> composite_domain(payload) == http_domain(
            payload,
        ),
{
}

/// A socket has one request under way at most: asking again changes nothing.
pub proof fn lemma_one_request_per_socket(
    probe: ProbeView,
    socket: LocalSocket,
    first: Seq<SocketAddr>,
    second: Seq<SocketAddr>,
)
    requires
        probe.outcome(socket) is Queued,
    ensures
        probe.requested(socket, first).outcome(socket) is InFlight,
        probe.requested(socket, first).requested(socket, second) == probe.requested(socket, first),
{
}

/// A frame is handed on exactly if it is counted as accepted.
pub proof fn lemma_accepted_frames_have_a_flow(
    format: PacketFormat,
    data: Seq<u8>,
    local_ips: Seq<IpAddr>,
)
    ensures
        frame_outcome(format, data, local_ips).parsed is Some <==> frame_outcome(
            format,
            data,
            local_ips,
        ).disposition == PacketDisposition::Accepted,
{
}

/// An accepted packet has a local end, and its flow is outbound exactly if its source is
/// local.
pub proof fn lemma_accepted_packets_are_local(
    format: PacketFormat,
    link_len: u64,
    sll_packet_type: Option<SllPacketType>,
    decoded: DecodedView,
    local_ips: Seq<IpAddr>,
)
    requires
        classified(format, link_len, sll_packet_type, decoded, local_ips).parsed is Some,
    ensures
        ({
            let ends = crate::capture::parser::endpoints_of(decoded.net)->0;
            let outcome = classified(format, link_len, sll_packet_type, decoded, local_ips);
            let (flow, _) = outcome.parsed->0;
            &&& local_ips.contains(ends.src) || local_ips.contains(ends.dst)
            &&& flow.direction == Direction::Outbound <==> local_ips.contains(ends.src)
            &&& flow.peer_local_socket is Some ==> local_ips.contains(ends.src)
                && local_ips.contains(ends.dst)
            &&& sent_if_local(Some(flow))
        }),
{
}

/// Of a packet between two local addresses that a cooked capture shows twice, only the
/// incoming copy counts.
pub proof fn lemma_local_packets_count_once(
    format: PacketFormat,
    link_len: u64,
    decoded: DecodedView,
    local_ips: Seq<IpAddr>,
)
    requires
        crate::capture::parser::endpoints_of(decoded.net) matches Some(ends) && local_ips.contains(
            ends.src,
        ) && local_ips.contains(ends.dst),
    ensures
        classified(
            format,
            link_len,
            Some(SllPacketType::Outgoing),
            decoded,
            local_ips,
        ).disposition == PacketDisposition::DuplicateOutgoing,
        classified(
            format,
            link_len,
            Some(SllPacketType::Host),
            decoded,
            local_ips,
        ).disposition == PacketDisposition::Accepted,
{
}

/// The bytes of one direction that the reads of a capture gave, at both ends.
pub open spec fn taken_in_by_all(flows: Seq<Option<Flow>>, way: Direction) -> nat
    decreases flows.len(),
{
    if flows.len() == 0 {
        0
    } else {
        taken_in_by_all(flows.drop_last(), way) + taken_in(flows.last(), way)
    }
}

/// No byte is lost and none is counted twice: after any number of reads, what is charged
/// to processes, to the system and to nobody, together with what still waits, is what the
/// flows carried.
pub proof fn lemma_every_byte_is_accounted_for(
    ledgers: Seq<Seq<Booking>>,
    waiting: Seq<Seq<Pending>>,
    flows: Seq<Option<Flow>>,
    way: Direction,
)
    requires
        ledgers.len() == flows.len() + 1,
        waiting.len() == flows.len() + 1,
        ledgers[0].len() == 0,
        waiting[0].len() == 0,
        forall|i: int|
            0 <= i < flows.len() ==> accounted(ledgers[i + 1], waiting[i + 1], way) == accounted(
                ledgers[i],
                waiting[i],
                way,
            ) + taken_in(#[trigger] flows[i], way),
    ensures
        accounted(ledgers.last(), waiting.last(), way) == taken_in_by_all(flows, way),
    decreases flows.len(),
{
    if flows.len() > 0 {
        let last = flows.len() - 1;
        let earlier = flows.drop_last();
        assert forall|i: int| 0 <= i < earlier.len() implies accounted(
            ledgers.drop_last()[i + 1],
            waiting.drop_last()[i + 1],
            way,
        ) == accounted(ledgers.drop_last()[i], waiting.drop_last()[i], way) + taken_in(
            #[trigger] earlier[i],
            way,
        ) by {
            assert(earlier[i] == flows[i]);
        }
        lemma_every_byte_is_accounted_for(
            ledgers.drop_last(),
            waiting.drop_last(),
            earlier,
            way,
        );
        assert(flows[last] == flows.last());
    }
}

/// Traffic with one local end is charged once, in its own direction. Traffic between two
/// local sockets is charged to each of them, as sent by one and received by the other.
pub proof fn lemma_each_local_end_is_charged_once(flow: Flow, way: Direction)
    ensures
        !has_two_endpoints(flow) ==> endpoint_bytes(flow, way) == going(
            flow.direction,
            flow.bytes,
            way,
        ),
        has_two_endpoints(flow) && flow.direction == Direction::Outbound ==> endpoint_bytes(
            flow,
            way,
        ) == flow.bytes,
{
}

} // verus!
