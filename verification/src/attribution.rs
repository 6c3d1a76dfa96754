//! Charging traffic to processes.
//!
//! Traffic whose socket has one known owner is charged at once. Other traffic
//! waits for a while: a probe may name the owner, or a later scan of the process
//! table. What is left when the wait is over is charged to the owners that the
//! interval log recovers, to several candidates together, or to nobody.
//!
//! Every observed byte ends in exactly one of four channels (exclusive, shared,
//! system, unattributed), and is counted as pending until then.

use vstd::prelude::*;

use crate::capture::Flow;
use crate::conservation::{
    crossed_by, crossed_in, lemma_answer_conserves, lemma_flow_crosses_once,
    lemma_time_only_charges,
};
use crate::history::{updated, AttributionHistory, StartTimes, HISTORY_CAPACITY, HISTORY_RETENTION};
use crate::net::{Direction, IpAddr, LocalSocket, SocketAddr};
use crate::proc_table::{
    with_sample, LookupMissReason, LookupMissSample, LookupOutcome, ProcCounters, ProcInfo,
    ProcTable, RefreshSlot,
};
use crate::process_probe::{
    ConnectionMatch, ProbeProcess, ProbeRequestId, ProbeRequestOutcome, ProbeResult, ProbeView,
    ProcessProbe,
};
use crate::socket_map::SocketMap;
use crate::stats::{
    charged_bytes, crossed_bytes, domain_booking, exclusive_booking, flow_key_of,
    interface_booking, lemma_charged_concat, lemma_charged_push, lemma_only_charges,
    unattributed_booking, Booking, Evidence,
    ObservedProcess, ProcFlowKey, Stats,
};
use crate::text::{clone_text, same_optional_text, text_view};

verus! {

/// How long traffic waits for its owner, in nanoseconds: one second.
pub const PENDING_ATTRIBUTION_WINDOW: u128 = 1_000_000_000;

/// How many connections wait for their owner at most.
pub const PENDING_ATTRIBUTION_CAPACITY: usize = 1_024;

/// How often a socket is probed at most.
pub const PENDING_ATTRIBUTION_MAX_PROBE_ATTEMPTS: u8 = 3;

/// How long to wait before a socket is probed again, in nanoseconds: 500 ms.
pub const PENDING_ATTRIBUTION_PROBE_RETRY_INTERVAL: u128 = 500_000_000;

/// The clock readings that an operation goes by.
#[derive(Clone, Copy, Debug, PartialEq, Eq, Structural)]
pub struct Clock {
    /// Monotonic nanoseconds, for waiting times.
    pub now: u128,
    /// Monotonic nanoseconds when the process table is read.
    pub read_at: u128,
    /// Wall clock nanoseconds, for the interval log.
    pub wall: i128,
}

/// A connection in one direction.
#[derive(Clone, Copy, Debug, PartialEq, Eq, Hash, Structural)]
pub struct ConnectionKey {
    pub local_socket: LocalSocket,
    pub peer_ip: IpAddr,
    pub peer_port: u16,
    pub direction: Direction,
}

/// Traffic of a connection that waits for its owner.
#[derive(Debug, PartialEq, Eq)]
pub struct PendingAttribution {
    pub connection: ConnectionKey,
    pub bytes: u64,
    pub observed_at: i128,
    /// The processes that owned the socket together when it was looked up.
    pub candidates: Vec<ObservedProcess>,
    pub pending_since: u128,
}

/// Pending traffic as a mathematical value.
pub ghost struct Pending {
    pub connection: ConnectionKey,
    pub bytes: u64,
    pub observed_at: i128,
    pub candidates: Seq<ObservedProcess>,
    pub pending_since: u128,
}

impl View for PendingAttribution {
    type V = Pending;

    open spec fn view(&self) -> Pending {
        Pending {
            connection: self.connection,
            bytes: self.bytes,
            observed_at: self.observed_at,
            candidates: self.candidates@,
            pending_since: self.pending_since,
        }
    }
}

/// How far the probing of a socket has got.
#[derive(Clone, Copy, Debug, PartialEq, Eq, Structural)]
pub struct ProbeState {
    pub active_request: Option<ProbeRequestId>,
    pub attempts: u8,
    pub next_retry_at: u128,
    /// The socket is not probed again.
    pub exhausted: bool,
    /// Whether an answer may still charge traffic.
    pub accept_results: bool,
}

/// What happened to probes and pending bytes.
#[derive(Clone, Copy, Debug, PartialEq, Eq, Structural)]
pub struct AttributionCounters {
    pub probe_request_queued: u64,
    pub probe_result_unique: u64,
    pub probe_result_not_found: u64,
    pub probe_result_ambiguous: u64,
    pub probe_result_unavailable: u64,
    pub probe_result_dropped: u64,
    pub probe_result_late: u64,
    pub pending_expired_bytes: u64,
    pub pending_capacity_bytes: u64,
    pub probe_unique_pending_bytes: u64,
    pub probe_not_found_pending_bytes: u64,
    pub probe_ambiguous_pending_bytes: u64,
    pub probe_unavailable_pending_bytes: u64,
}

/// The pending traffic, in numbers.
#[derive(Clone, Copy, Debug, PartialEq, Eq)]
pub struct PendingAttributionSnapshot {
    pub records: usize,
    pub bytes: u64,
    pub counters: AttributionCounters,
    pub probe_query_count: u64,
    pub probe_query_ms: u64,
    pub probe_last_query_ms: u64,
}

/// Traffic at one end of a connection.
pub struct EndpointObservation {
    pub socket: Option<LocalSocket>,
    pub direction: Direction,
    pub peer_ip: IpAddr,
    pub peer_port: Option<u16>,
    pub bytes: u64,
    pub observed_at: i128,
}

/// What a lookup says of the owner of a socket.
#[derive(Debug, PartialEq, Eq)]
pub enum LookupResolved {
    Exclusive(ObservedProcess),
    Ambiguous(Vec<ObservedProcess>),
    Miss,
}

/// The process table as several parties share it.
pub struct SharedProcTable {
    pub table: ProcTable,
    /// A party failed while it held the table, which is not used any more.
    pub poisoned: bool,
}

/// Charges traffic to processes, with what still waits for its owner.
pub struct PendingAttributor {
    pub pending: Vec<PendingAttribution>,
    pub window: u128,
    pub capacity: usize,
    pub last_generation: Option<u64>,
    pub history: AttributionHistory,
    pub probe: Option<ProcessProbe>,
    pub probe_state: SocketMap<ProbeState>,
    pub counters: AttributionCounters,
}

impl Pending {
    /// The socket whose owner is sought.
    pub open spec fn socket(self) -> LocalSocket {
        self.connection.local_socket
    }

    /// The other end of the connection.
    pub open spec fn peer(self) -> SocketAddr {
        SocketAddr { ip: self.connection.peer_ip, port: self.connection.peer_port }
    }

    /// The key under which the connection's traffic is charged.
    pub open spec fn flow_key(self) -> ProcFlowKey {
        flow_key_of(
            self.connection.local_socket,
            self.connection.peer_ip,
            self.connection.peer_port,
        )
    }

    /// The line that charges the traffic to one process.
    pub open spec fn charge(self, process: ObservedProcess, evidence: Evidence) -> Booking {
        exclusive_booking(
            process,
            self.connection.direction,
            self.bytes,
            self.observed_at,
            evidence,
            self.flow_key(),
        )
    }
}

impl ConnectionKey {
    /// The key under which the connection's traffic is charged.
    pub fn flow_key(&self) -> (key: ProcFlowKey)
        ensures
            key == flow_key_of(self.local_socket, self.peer_ip, self.peer_port),
    {
        ProcFlowKey::from_endpoint(self.local_socket, self.peer_ip, self.peer_port)
    }
}

/// The pending traffic of a list, as mathematical values.
pub open spec fn pending_views(pending: Seq<PendingAttribution>) -> Seq<Pending> {
    pending.map_values(|item: PendingAttribution| item@)
}

/// The bytes of pending traffic in a direction.
pub open spec fn waiting_bytes(pending: Seq<Pending>, way: Direction) -> nat
    decreases pending.len(),
{
    if pending.len() == 0 {
        0
    } else {
        waiting_bytes(pending.drop_last(), way) + if pending.last().connection.direction == way {
            pending.last().bytes as nat
        } else {
            0
        }
    }
}

/// The bytes of pending traffic that satisfies a condition.
pub open spec fn bytes_where(pending: Seq<Pending>, pick: spec_fn(Pending) -> bool) -> nat
    decreases pending.len(),
{
    if pending.len() == 0 {
        0
    } else {
        bytes_where(pending.drop_last(), pick) + if pick(pending.last()) {
            pending.last().bytes as nat
        } else {
            0
        }
    }
}

/// The bytes of all pending traffic.
pub open spec fn all_bytes(pending: Seq<Pending>) -> nat {
    bytes_where(pending, |item: Pending| true)
}

/// The bytes of a socket's pending traffic.
pub open spec fn socket_bytes(pending: Seq<Pending>, socket: LocalSocket) -> nat {
    bytes_where(pending, |item: Pending| item.socket() == socket)
}

/// Whether traffic of the socket is pending.
pub open spec fn waits_for(pending: Seq<Pending>, socket: LocalSocket) -> bool {
    exists|i: int| 0 <= i < pending.len() && (#[trigger] pending[i]).socket() == socket
}

/// No connection is pending twice.
pub open spec fn distinct_connections(pending: Seq<Pending>) -> bool {
    forall|i: int, j: int|
        #![trigger pending[i], pending[j]]
        0 <= i < j < pending.len() ==> pending[i].connection != pending[j].connection
}

/// A probed process as traffic is charged to it.
pub open spec fn observed(process: ProbeProcess) -> ObservedProcess {
    ObservedProcess { pid: process.pid, name: process.name, path: process.path }
}

/// A listed process as traffic is charged to it.
pub open spec fn observed_info(info: ProcInfo) -> ObservedProcess {
    ObservedProcess { pid: info.pid, name: info.name, path: info.path }
}

/// The owner that a list of matches gives for a peer: the first match.
pub open spec fn match_for(matches: Seq<ConnectionMatch>, peer: SocketAddr) -> Option<ProbeProcess>
    decreases matches.len(),
{
    if matches.len() == 0 {
        None
    } else if matches.first().peer == peer {
        Some(matches.first().process)
    } else {
        match_for(matches.drop_first(), peer)
    }
}

/// The owner that an answer names for pending traffic.
pub open spec fn named_owner(result: ProbeResult, item: Pending) -> Option<ProbeProcess> {
    match result {
        ProbeResult::Unique { socket, process, .. } => if item.socket() == socket {
            Some(process)
        } else {
            None
        },
        ProbeResult::ConnectionMatches { socket, matches, .. } => if item.socket() == socket {
            match_for(matches@, item.peer())
        } else {
            None
        },
        _ => None,
    }
}

/// The pending traffic for which an answer names no owner.
pub open spec fn still_waiting(pending: Seq<Pending>, result: ProbeResult) -> Seq<Pending> {
    pending.filter(|item: Pending| named_owner(result, item) is None)
}

/// The lines that charge pending traffic to the owners an answer names, in order.
pub open spec fn probe_bookings(pending: Seq<Pending>, result: ProbeResult) -> Seq<Booking>
    decreases pending.len(),
{
    if pending.len() == 0 {
        Seq::empty()
    } else {
        let prior = probe_bookings(pending.drop_last(), result);
        match named_owner(result, pending.last()) {
            Some(process) => prior.push(
                pending.last().charge(observed(process), Evidence::Probe),
            ),
            None => prior,
        }
    }
}

/// The bytes for which an answer names an owner.
pub open spec fn named_bytes(pending: Seq<Pending>, result: ProbeResult) -> nat {
    bytes_where(pending, |item: Pending| named_owner(result, item) is Some)
}

/// The candidates with further ones added, unless one with the same number and
/// path is among them.
pub open spec fn merged(current: Seq<ObservedProcess>, extra: Seq<ObservedProcess>) -> Seq<
    ObservedProcess,
>
    decreases extra.len(),
{
    if extra.len() == 0 {
        current
    } else {
        let prior = merged(current, extra.drop_last());
        if has_candidate(prior, extra.last()) {
            prior
        } else {
            prior.push(extra.last())
        }
    }
}

/// Whether a candidate with the same number and path is listed.
pub open spec fn has_candidate(listed: Seq<ObservedProcess>, candidate: ObservedProcess) -> bool {
    exists|i: int|
        0 <= i < listed.len() && (#[trigger] listed[i]).pid == candidate.pid && text_view(
            listed[i].path,
        ) == text_view(candidate.path)
}

/// By how much each count can grow.
pub ghost struct Growth {
    pub probe_request_queued: nat,
    pub probe_result_unique: nat,
    pub probe_result_not_found: nat,
    pub probe_result_ambiguous: nat,
    pub probe_result_unavailable: nat,
    pub probe_result_dropped: nat,
    pub probe_result_late: nat,
    pub pending_expired_bytes: nat,
    pub pending_capacity_bytes: nat,
    pub probe_unique_pending_bytes: nat,
    pub probe_not_found_pending_bytes: nat,
    pub probe_ambiguous_pending_bytes: nat,
    pub probe_unavailable_pending_bytes: nat,
}

impl Growth {
    /// No growth.
    pub open spec fn none() -> Self {
        AttributionCounters::zero_spec().amounts()
    }

    /// One growth after another.
    pub open spec fn plus(self, more: Self) -> Self {
        Growth {
            probe_request_queued: self.probe_request_queued + more.probe_request_queued,
            probe_result_unique: self.probe_result_unique + more.probe_result_unique,
            probe_result_not_found: self.probe_result_not_found + more.probe_result_not_found,
            probe_result_ambiguous: self.probe_result_ambiguous + more.probe_result_ambiguous,
            probe_result_unavailable: self.probe_result_unavailable + more.probe_result_unavailable,
            probe_result_dropped: self.probe_result_dropped + more.probe_result_dropped,
            probe_result_late: self.probe_result_late + more.probe_result_late,
            pending_expired_bytes: self.pending_expired_bytes + more.pending_expired_bytes,
            pending_capacity_bytes: self.pending_capacity_bytes + more.pending_capacity_bytes,
            probe_unique_pending_bytes: self.probe_unique_pending_bytes + more.probe_unique_pending_bytes,
            probe_not_found_pending_bytes: self.probe_not_found_pending_bytes + more.probe_not_found_pending_bytes,
            probe_ambiguous_pending_bytes: self.probe_ambiguous_pending_bytes + more.probe_ambiguous_pending_bytes,
            probe_unavailable_pending_bytes: self.probe_unavailable_pending_bytes + more.probe_unavailable_pending_bytes,
        }
    }

    /// Whether no count grows by more than in another growth.
    pub open spec fn at_most(self, other: Self) -> bool {
        &&& self.probe_request_queued <= other.probe_request_queued
        &&& self.probe_result_unique <= other.probe_result_unique
        &&& self.probe_result_not_found <= other.probe_result_not_found
        &&& self.probe_result_ambiguous <= other.probe_result_ambiguous
        &&& self.probe_result_unavailable <= other.probe_result_unavailable
        &&& self.probe_result_dropped <= other.probe_result_dropped
        &&& self.probe_result_late <= other.probe_result_late
        &&& self.pending_expired_bytes <= other.pending_expired_bytes
        &&& self.pending_capacity_bytes <= other.pending_capacity_bytes
        &&& self.probe_unique_pending_bytes <= other.probe_unique_pending_bytes
        &&& self.probe_not_found_pending_bytes <= other.probe_not_found_pending_bytes
        &&& self.probe_ambiguous_pending_bytes <= other.probe_ambiguous_pending_bytes
        &&& self.probe_unavailable_pending_bytes <= other.probe_unavailable_pending_bytes
    }
}

impl AttributionCounters {
    /// All counts at zero.
    pub open spec fn zero_spec() -> Self {
        AttributionCounters {
            probe_request_queued: 0,
            probe_result_unique: 0,
            probe_result_not_found: 0,
            probe_result_ambiguous: 0,
            probe_result_unavailable: 0,
            probe_result_dropped: 0,
            probe_result_late: 0,
            pending_expired_bytes: 0,
            pending_capacity_bytes: 0,
            probe_unique_pending_bytes: 0,
            probe_not_found_pending_bytes: 0,
            probe_ambiguous_pending_bytes: 0,
            probe_unavailable_pending_bytes: 0,
        }
    }

    /// All counts at zero.
    pub fn zero() -> (counters: Self)
        ensures
            counters == Self::zero_spec(),
    {
        AttributionCounters {
            probe_request_queued: 0,
            probe_result_unique: 0,
            probe_result_not_found: 0,
            probe_result_ambiguous: 0,
            probe_result_unavailable: 0,
            probe_result_dropped: 0,
            probe_result_late: 0,
            pending_expired_bytes: 0,
            pending_capacity_bytes: 0,
            probe_unique_pending_bytes: 0,
            probe_not_found_pending_bytes: 0,
            probe_ambiguous_pending_bytes: 0,
            probe_unavailable_pending_bytes: 0,
        }
    }

    /// Whether every count can grow by so much without overflow.
    pub open spec fn fit(self, growth: Growth) -> bool {
        &&& self.probe_request_queued + growth.probe_request_queued <= u64::MAX
        &&& self.probe_result_unique + growth.probe_result_unique <= u64::MAX
        &&& self.probe_result_not_found + growth.probe_result_not_found <= u64::MAX
        &&& self.probe_result_ambiguous + growth.probe_result_ambiguous <= u64::MAX
        &&& self.probe_result_unavailable + growth.probe_result_unavailable <= u64::MAX
        &&& self.probe_result_dropped + growth.probe_result_dropped <= u64::MAX
        &&& self.probe_result_late + growth.probe_result_late <= u64::MAX
        &&& self.pending_expired_bytes + growth.pending_expired_bytes <= u64::MAX
        &&& self.pending_capacity_bytes + growth.pending_capacity_bytes <= u64::MAX
        &&& self.probe_unique_pending_bytes + growth.probe_unique_pending_bytes <= u64::MAX
        &&& self.probe_not_found_pending_bytes + growth.probe_not_found_pending_bytes <= u64::MAX
        &&& self.probe_ambiguous_pending_bytes + growth.probe_ambiguous_pending_bytes <= u64::MAX
        &&& self.probe_unavailable_pending_bytes + growth.probe_unavailable_pending_bytes <= u64::MAX
    }

    /// Whether no count has grown by more than so much.
    pub open spec fn within(self, before: Self, growth: Growth) -> bool {
        &&& self.probe_request_queued <= before.probe_request_queued + growth.probe_request_queued
        &&& self.probe_result_unique <= before.probe_result_unique + growth.probe_result_unique
        &&& self.probe_result_not_found <= before.probe_result_not_found + growth.probe_result_not_found
        &&& self.probe_result_ambiguous <= before.probe_result_ambiguous + growth.probe_result_ambiguous
        &&& self.probe_result_unavailable <= before.probe_result_unavailable + growth.probe_result_unavailable
        &&& self.probe_result_dropped <= before.probe_result_dropped + growth.probe_result_dropped
        &&& self.probe_result_late <= before.probe_result_late + growth.probe_result_late
        &&& self.pending_expired_bytes <= before.pending_expired_bytes + growth.pending_expired_bytes
        &&& self.pending_capacity_bytes <= before.pending_capacity_bytes + growth.pending_capacity_bytes
        &&& self.probe_unique_pending_bytes <= before.probe_unique_pending_bytes + growth.probe_unique_pending_bytes
        &&& self.probe_not_found_pending_bytes <= before.probe_not_found_pending_bytes + growth.probe_not_found_pending_bytes
        &&& self.probe_ambiguous_pending_bytes <= before.probe_ambiguous_pending_bytes + growth.probe_ambiguous_pending_bytes
        &&& self.probe_unavailable_pending_bytes <= before.probe_unavailable_pending_bytes + growth.probe_unavailable_pending_bytes
    }

    /// The counts as amounts by which others can grow.
    pub open spec fn amounts(self) -> Growth {
        Growth {
            probe_request_queued: self.probe_request_queued as nat,
            probe_result_unique: self.probe_result_unique as nat,
            probe_result_not_found: self.probe_result_not_found as nat,
            probe_result_ambiguous: self.probe_result_ambiguous as nat,
            probe_result_unavailable: self.probe_result_unavailable as nat,
            probe_result_dropped: self.probe_result_dropped as nat,
            probe_result_late: self.probe_result_late as nat,
            pending_expired_bytes: self.pending_expired_bytes as nat,
            pending_capacity_bytes: self.pending_capacity_bytes as nat,
            probe_unique_pending_bytes: self.probe_unique_pending_bytes as nat,
            probe_not_found_pending_bytes: self.probe_not_found_pending_bytes as nat,
            probe_ambiguous_pending_bytes: self.probe_ambiguous_pending_bytes as nat,
            probe_unavailable_pending_bytes: self.probe_unavailable_pending_bytes as nat,
        }
    }

    /// The counts with one more answer that came for nothing.
    pub open spec fn with_dropped(self) -> Self {
        AttributionCounters {
            probe_result_dropped: (self.probe_result_dropped + 1) as u64,
            ..self
        }
    }

    /// The counts with one more answer that came too late.
    pub open spec fn with_late(self) -> Self {
        AttributionCounters {
            probe_result_late: (self.probe_result_late + 1) as u64,
            probe_result_dropped: (self.probe_result_dropped + 1) as u64,
            ..self
        }
    }
}

/// Whether a socket's state belongs to the request that is answered.
pub open spec fn answers_active(states: Map<LocalSocket, ProbeState>, result: ProbeResult) -> bool {
    states.contains_key(result.socket_spec()) && states[result.socket_spec()].active_request
        == Some(result.id_spec())
}

/// Whether an answer may charge traffic.
pub open spec fn accepted(states: Map<LocalSocket, ProbeState>, result: ProbeResult) -> bool {
    answers_active(states, result) && states[result.socket_spec()].accept_results
}

/// The counts after an answer, as far as they depend on its kind alone.
pub open spec fn counted(
    counters: AttributionCounters,
    pending: Seq<Pending>,
    result: ProbeResult,
    accept: bool,
) -> AttributionCounters {
    let bytes = socket_bytes(pending, result.socket_spec());
    match result {
        ProbeResult::Unique { .. } => AttributionCounters {
            probe_result_unique: (counters.probe_result_unique + 1) as u64,
            probe_unique_pending_bytes: (counters.probe_unique_pending_bytes + bytes) as u64,
            ..counters
        },
        ProbeResult::ConnectionMatches { matches, .. } => if accept {
            AttributionCounters {
                probe_result_unique: (counters.probe_result_unique + matches@.len()) as u64,
                probe_unique_pending_bytes: (counters.probe_unique_pending_bytes + named_bytes(
                    pending,
                    result,
                )) as u64,
                ..counters
            }
        } else {
            counters
        },
        ProbeResult::Ambiguous { .. } => AttributionCounters {
            probe_result_ambiguous: (counters.probe_result_ambiguous + 1) as u64,
            probe_ambiguous_pending_bytes: (counters.probe_ambiguous_pending_bytes + bytes) as u64,
            ..counters
        },
        ProbeResult::NotFound { .. } => AttributionCounters {
            probe_result_not_found: (counters.probe_result_not_found + 1) as u64,
            probe_not_found_pending_bytes: (counters.probe_not_found_pending_bytes + bytes) as u64,
            ..counters
        },
        ProbeResult::Unavailable { .. } => AttributionCounters {
            probe_result_unavailable: (counters.probe_result_unavailable + 1) as u64,
            probe_unavailable_pending_bytes: (counters.probe_unavailable_pending_bytes
                + bytes) as u64,
            ..counters
        },
    }
}

/// The counts after an answer.
pub open spec fn counters_after(
    counters: AttributionCounters,
    states: Map<LocalSocket, ProbeState>,
    pending: Seq<Pending>,
    result: ProbeResult,
) -> AttributionCounters {
    let kind = counted(counters, pending, result, accepted(states, result));
    if !answers_active(states, result) {
        kind.with_dropped()
    } else if accepted(states, result) {
        kind
    } else {
        let retried = result is Unique || result is ConnectionMatches;
        if retried && waits_for(pending, result.socket_spec()) {
            kind
        } else {
            kind.with_late()
        }
    }
}

/// A socket's state after an answer that settled nothing.
pub open spec fn backed_off(state: ProbeState, now: u128) -> ProbeState {
    if state.attempts >= PENDING_ATTRIBUTION_MAX_PROBE_ATTEMPTS {
        ProbeState { exhausted: true, ..state }
    } else {
        ProbeState {
            next_retry_at: (now + PENDING_ATTRIBUTION_PROBE_RETRY_INTERVAL) as u128,
            ..state
        }
    }
}

/// A state from which the socket is probed at once.
pub open spec fn fresh_state(now: u128) -> ProbeState {
    ProbeState {
        active_request: None,
        attempts: 0,
        next_retry_at: now,
        exhausted: false,
        accept_results: true,
    }
}

/// The sockets' states after an answer.
pub open spec fn states_after(
    states: Map<LocalSocket, ProbeState>,
    pending: Seq<Pending>,
    result: ProbeResult,
    now: u128,
) -> Map<LocalSocket, ProbeState> {
    let socket = result.socket_spec();
    if !answers_active(states, result) {
        states
    } else {
        let idle = ProbeState { active_request: None, ..states[socket] };
        let more = ProbeState { attempts: states[socket].attempts.saturating_add(1), ..idle };
        match result {
            ProbeResult::Unique { .. } | ProbeResult::ConnectionMatches { .. } => {
                if !idle.accept_results {
                    if waits_for(pending, socket) {
                        states.insert(socket, fresh_state(now))
                    } else {
                        states.remove(socket)
                    }
                } else if waits_for(still_waiting(pending, result), socket) {
                    states.insert(socket, backed_off(idle, now))
                } else {
                    states.remove(socket)
                }
            },
            _ => if !idle.accept_results {
                states.remove(socket)
            } else if result is Ambiguous {
                states.insert(socket, ProbeState { exhausted: true, ..idle })
            } else {
                states.insert(socket, backed_off(more, now))
            },
        }
    }
}

impl PendingAttributor {
    /// The pending traffic.
    pub open spec fn waiting(self) -> Seq<Pending> {
        pending_views(self.pending@)
    }

    /// No connection is pending twice, no more than the capacity are pending,
    /// and the parts are well formed.
    pub open spec fn wf(self) -> bool {
        &&& distinct_connections(self.waiting())
        &&& self.pending@.len() <= self.capacity
        &&& self.history.wf()
        &&& self.probe_state.wf()
        &&& self.probe matches Some(probe) ==> probe.wf()
    }

    /// The limits, the log and the table generation are the same.
    pub open spec fn same_setting(self, other: Self) -> bool {
        &&& self.window == other.window
        &&& self.capacity == other.capacity
        &&& self.history == other.history
        &&& self.last_generation == other.last_generation
    }
}

/// A part of the pending traffic has no more bytes than all of it.
pub proof fn lemma_bytes_bound(pending: Seq<Pending>, pick: spec_fn(Pending) -> bool)
    ensures
        bytes_where(pending, pick) <= all_bytes(pending),
    decreases pending.len(),
{
    if pending.len() > 0 {
        lemma_bytes_bound(pending.drop_last(), pick);
    }
}

/// A prefix of the pending traffic has no more bytes than all of it.
pub proof fn lemma_bytes_prefix(pending: Seq<Pending>, n: int, pick: spec_fn(Pending) -> bool)
    requires
        0 <= n <= pending.len(),
    ensures
        bytes_where(pending.take(n), pick) <= bytes_where(pending, pick),
    decreases pending.len(),
{
    if n == pending.len() {
        assert(pending.take(n) =~= pending);
    } else {
        lemma_bytes_prefix(pending.drop_last(), n, pick);
        assert(pending.drop_last().take(n) =~= pending.take(n));
    }
}

/// Charging what an answer names an owner for neither loses nor adds a byte.
pub proof fn lemma_probe_conserves(pending: Seq<Pending>, result: ProbeResult, way: Direction)
    ensures
        charged_bytes(probe_bookings(pending, result), way) + waiting_bytes(
            still_waiting(pending, result),
            way,
        ) == waiting_bytes(pending, way),
    decreases pending.len(),
{
    reveal(Seq::filter);
    if pending.len() > 0 {
        let shorter = pending.drop_last();
        lemma_probe_conserves(shorter, result, way);
        let prior = probe_bookings(shorter, result);
        match named_owner(result, pending.last()) {
            Some(process) => {
                lemma_charged_push(
                    prior,
                    pending.last().charge(observed(process), Evidence::Probe),
                    way,
                );
            },
            None => {
                let kept = still_waiting(shorter, result);
                assert(kept.push(pending.last()).drop_last() =~= kept);
            },
        }
    }
}

/// What an answer leaves pending has no more bytes than there were, and no
/// connection twice.
pub proof fn lemma_still_waiting(pending: Seq<Pending>, result: ProbeResult)
    requires
        distinct_connections(pending),
    ensures
        distinct_connections(still_waiting(pending, result)),
        all_bytes(still_waiting(pending, result)) <= all_bytes(pending),
        still_waiting(pending, result).len() <= pending.len(),
        forall|i: int|
            0 <= i < still_waiting(pending, result).len() ==> pending.contains(
                #[trigger] still_waiting(pending, result)[i],
            ),
    decreases pending.len(),
{
    reveal(Seq::filter);
    if pending.len() > 0 {
        let shorter = pending.drop_last();
        assert(distinct_connections(shorter));
        lemma_still_waiting(shorter, result);
        let part = still_waiting(shorter, result);
        let whole = still_waiting(pending, result);
        if whole.len() > part.len() {
            assert(whole.drop_last() =~= part);
        }
        assert forall|i: int| 0 <= i < whole.len() implies pending.contains(#[trigger] whole[i]) by {
            if i < part.len() {
                assert(shorter.contains(part[i]));
                let k = choose|k: int| 0 <= k < shorter.len() && shorter[k] == part[i];
                assert(pending[k] == whole[i]);
            } else {
                assert(pending[pending.len() - 1] == whole[i]);
            }
        }
        assert forall|i: int, j: int|
            #![trigger whole[i], whole[j]]
            0 <= i < j < whole.len() implies whole[i].connection != whole[j].connection by {
            if j < part.len() {
                assert(part[i].connection != part[j].connection);
            } else {
                assert(shorter.contains(part[i]));
                let k = choose|k: int| 0 <= k < shorter.len() && shorter[k] == part[i];
                assert(pending[k].connection != pending[pending.len() - 1].connection);
            }
        }
    }
}

/// An answer that names no owner leaves everything pending.
proof fn lemma_nothing_named(pending: Seq<Pending>, result: ProbeResult)
    requires
        !(result is Unique || result is ConnectionMatches),
    ensures
        still_waiting(pending, result) == pending,
        probe_bookings(pending, result) == Seq::<Booking>::empty(),
    decreases pending.len(),
{
    reveal(Seq::filter);
    if pending.len() > 0 {
        lemma_nothing_named(pending.drop_last(), result);
        assert(pending.drop_last().push(pending.last()) =~= pending);
    } else {
        assert(still_waiting(pending, result) =~= pending);
    }
}

fn clone_process(process: &ProbeProcess) -> (copy: ObservedProcess)
    ensures
        copy == observed(*process),
{
    ObservedProcess {
        pid: process.pid,
        name: clone_text(&process.name),
        path: clone_text(&process.path),
    }
}

fn clone_info(info: &ProcInfo) -> (copy: ObservedProcess)
    ensures
        copy == observed_info(*info),
{
    ObservedProcess { pid: info.pid, name: clone_text(&info.name), path: clone_text(&info.path) }
}

/// The owner of the connection to the pending traffic's peer, in a list of matches.
fn connection_process<'a>(item: &PendingAttribution, matches: &'a Vec<ConnectionMatch>) -> (owner:
    Option<&'a ProbeProcess>)
    ensures
        owner is Some == (match_for(matches@, item@.peer()) is Some),
        owner matches Some(owner) ==> match_for(matches@, item@.peer()) == Some(*owner),
{
    let peer = SocketAddr { ip: item.connection.peer_ip, port: item.connection.peer_port };
    let mut i: usize = 0;
    assert(matches@.skip(0) =~= matches@);
    while i < matches.len()
        invariant
            i <= matches@.len(),
            peer == item@.peer(),
            match_for(matches@, peer) == match_for(matches@.skip(i as int), peer),
        decreases matches@.len() - i,
    {
        assert(matches@.skip(i as int).drop_first() =~= matches@.skip(i + 1));
        if matches[i].peer == peer {
            return Some(&matches[i].process);
        }
        i += 1;
    }
    None
}

/// The owner that an answer names for pending traffic.
fn owner_in<'a>(result: &'a ProbeResult, item: &PendingAttribution) -> (owner: Option<
    &'a ProbeProcess,
>)
    ensures
        owner is Some == (named_owner(*result, item@) is Some),
        owner matches Some(owner) ==> named_owner(*result, item@) == Some(*owner),
{
    match result {
        ProbeResult::Unique { socket, process, .. } => {
            if item.connection.local_socket == *socket {
                Some(process)
            } else {
                None
            }
        },
        ProbeResult::ConnectionMatches { socket, matches, .. } => {
            if item.connection.local_socket == *socket {
                connection_process(item, matches)
            } else {
                None
            }
        },
        _ => None,
    }
}

/// Adds candidates, unless one with the same number and path is listed.
pub fn merge_candidates(current: &mut Vec<ObservedProcess>, extra: Vec<ObservedProcess>)
    ensures
        final(current)@ == merged(old(current)@, extra@),
{
    let ghost before = current@;
    let mut i: usize = 0;
    assert(extra@.take(0) =~= Seq::<ObservedProcess>::empty());
    while i < extra.len()
        invariant
            i <= extra@.len(),
            current@ == merged(before, extra@.take(i as int)),
        decreases extra@.len() - i,
    {
        assert(extra@.take(i + 1).drop_last() =~= extra@.take(i as int));
        let mut listed: bool = false;
        let mut k: usize = 0;
        while k < current.len()
            invariant
                k <= current@.len(),
                i < extra@.len(),
                listed == exists|j: int|
                    0 <= j < k && (#[trigger] current@[j]).pid == extra@[i as int].pid && text_view(
                        current@[j].path,
                    ) == text_view(extra@[i as int].path),
            decreases current@.len() - k,
        {
            if current[k].pid == extra[i].pid && same_optional_text(
                &current[k].path,
                &extra[i].path,
            ) {
                listed = true;
            }
            k += 1;
        }
        if !listed {
            current.push(extra[i].clone());
        }
        i += 1;
    }
    assert(extra@.take(i as int) =~= extra@);
}

impl Default for PendingAttributor {
    /// An attributor with the usual limits, without a probe.
    fn default() -> (attributor: Self)
        ensures
            attributor.wf(),
            attributor.pending@.len() == 0,
            attributor.window == PENDING_ATTRIBUTION_WINDOW,
            attributor.capacity == PENDING_ATTRIBUTION_CAPACITY,
            attributor.last_generation is None,
            attributor.history.intervals@.len() == 0,
            attributor.history.retention == HISTORY_RETENTION,
            attributor.history.capacity == HISTORY_CAPACITY,
            attributor.probe is None,
            attributor.probe_state@ == Map::<LocalSocket, ProbeState>::empty(),
            attributor.counters == AttributionCounters::zero_spec(),
    {
        PendingAttributor::new(PENDING_ATTRIBUTION_WINDOW, PENDING_ATTRIBUTION_CAPACITY)
    }
}

impl PendingAttributor {
    /// An attributor with its limits, without a probe.
    pub fn new(window: u128, capacity: usize) -> (attributor: Self)
        ensures
            attributor.wf(),
            attributor.pending@.len() == 0,
            attributor.window == window,
            attributor.capacity == capacity,
            attributor.last_generation is None,
            attributor.history.intervals@.len() == 0,
            attributor.history.retention == HISTORY_RETENTION,
            attributor.history.capacity == HISTORY_CAPACITY,
            attributor.probe is None,
            attributor.probe_state@ == Map::<LocalSocket, ProbeState>::empty(),
            attributor.counters == AttributionCounters::zero_spec(),
    {
        PendingAttributor {
            pending: Vec::new(),
            window,
            capacity,
            last_generation: None,
            history: AttributionHistory::new(HISTORY_RETENTION, HISTORY_CAPACITY),
            probe: None,
            probe_state: SocketMap::new(),
            counters: AttributionCounters::zero(),
        }
    }

    /// An attributor with its limits and a probe.
    pub fn with_probe(window: u128, capacity: usize, probe: ProcessProbe) -> (attributor: Self)
        requires
            probe.wf(),
        ensures
            attributor.wf(),
            attributor.pending@.len() == 0,
            attributor.window == window,
            attributor.capacity == capacity,
            attributor.last_generation is None,
            attributor.history.intervals@.len() == 0,
            attributor.history.retention == HISTORY_RETENTION,
            attributor.history.capacity == HISTORY_CAPACITY,
            attributor.probe == Some(probe),
            attributor.probe_state@ == Map::<LocalSocket, ProbeState>::empty(),
            attributor.counters == AttributionCounters::zero_spec(),
    {
        let mut attributor = Self::new(window, capacity);
        attributor.probe = Some(probe);
        attributor
    }

    /// The bytes of a socket's pending traffic.
    pub fn pending_bytes_for_socket(&self, socket: LocalSocket) -> (bytes: u64)
        requires
            all_bytes(self.waiting()) <= u64::MAX,
        ensures
            bytes == socket_bytes(self.waiting(), socket),
    {
        let ghost pick = |item: Pending| item.socket() == socket;
        let ghost waiting = self.waiting();
        let mut bytes: u64 = 0;
        let mut i: usize = 0;
        assert(waiting.take(0) =~= Seq::<Pending>::empty());
        while i < self.pending.len()
            invariant
                i <= self.pending@.len(),
                waiting == self.waiting(),
                all_bytes(waiting) <= u64::MAX,
                pick == (|item: Pending| item.socket() == socket),
                bytes == bytes_where(waiting.take(i as int), pick),
            decreases self.pending@.len() - i,
        {
            proof {
                assert(waiting.take(i + 1).drop_last() =~= waiting.take(i as int));
                lemma_bytes_prefix(waiting, i + 1, pick);
                lemma_bytes_bound(waiting, pick);
                assert(waiting[i as int] == self.pending@[i as int]@);
            }
            if self.pending[i].connection.local_socket == socket {
                bytes = bytes + self.pending[i].bytes;
            }
            i += 1;
        }
        assert(waiting.take(i as int) =~= waiting);
        bytes
    }

    /// The bytes for which an answer names an owner.
    fn pending_bytes_for_result(&self, result: &ProbeResult) -> (bytes: u64)
        requires
            all_bytes(self.waiting()) <= u64::MAX,
        ensures
            bytes == named_bytes(self.waiting(), *result),
    {
        let ghost pick = |item: Pending| named_owner(*result, item) is Some;
        let ghost waiting = self.waiting();
        let mut bytes: u64 = 0;
        let mut i: usize = 0;
        assert(waiting.take(0) =~= Seq::<Pending>::empty());
        while i < self.pending.len()
            invariant
                i <= self.pending@.len(),
                waiting == self.waiting(),
                all_bytes(waiting) <= u64::MAX,
                pick == (|item: Pending| named_owner(*result, item) is Some),
                bytes == bytes_where(waiting.take(i as int), pick),
            decreases self.pending@.len() - i,
        {
            proof {
                assert(waiting.take(i + 1).drop_last() =~= waiting.take(i as int));
                lemma_bytes_prefix(waiting, i + 1, pick);
                lemma_bytes_bound(waiting, pick);
                assert(waiting[i as int] == self.pending@[i as int]@);
            }
            if owner_in(result, &self.pending[i]).is_some() {
                bytes = bytes + self.pending[i].bytes;
            }
            i += 1;
        }
        assert(waiting.take(i as int) =~= waiting);
        bytes
    }

    /// Whether traffic of the socket is pending.
    pub fn has_pending(&self, socket: LocalSocket) -> (waits: bool)
        ensures
            waits == waits_for(self.waiting(), socket),
    {
        let mut i: usize = 0;
        while i < self.pending.len()
            invariant
                i <= self.pending@.len(),
                forall|j: int| 0 <= j < i ==> (#[trigger] self.waiting()[j]).socket() != socket,
            decreases self.pending@.len() - i,
        {
            assert(self.waiting()[i as int] == self.pending@[i as int]@);
            if self.pending[i].connection.local_socket == socket {
                return true;
            }
            i += 1;
        }
        false
    }

    /// Charges the pending traffic for which an answer names an owner.
    fn settle_named(&mut self, stats: &mut Stats, result: &ProbeResult)
        ensures
            final(self).waiting() == still_waiting(old(self).waiting(), *result),
            final(stats)@ == old(stats)@ + probe_bookings(old(self).waiting(), *result),
            final(self).same_setting(*old(self)),
            final(self).probe == old(self).probe,
            final(self).probe_state == old(self).probe_state,
            final(self).counters == old(self).counters,
    {
        let ghost waiting = self.waiting();
        let ghost keep = |item: Pending| named_owner(*result, item) is None;
        let mut queue: Vec<PendingAttribution> = Vec::new();
        std::mem::swap(&mut queue, &mut self.pending);
        let ghost mut done: int = 0;
        proof {
            reveal(Seq::filter);
            assert(waiting.take(0).filter(keep) =~= self.waiting());
            assert(pending_views(queue@) =~= waiting.skip(0));
            assert(probe_bookings(waiting.take(0), *result) =~= Seq::<Booking>::empty());
            assert(stats@ + Seq::<Booking>::empty() =~= stats@);
        }
        while queue.len() > 0
            invariant
                0 <= done <= waiting.len(),
                keep == (|item: Pending| named_owner(*result, item) is None),
                pending_views(queue@) == waiting.skip(done),
                self.waiting() == waiting.take(done).filter(keep),
                stats@ == old(stats)@ + probe_bookings(waiting.take(done), *result),
                self.same_setting(*old(self)),
                self.probe == old(self).probe,
                self.probe_state == old(self).probe_state,
                self.counters == old(self).counters,
            decreases queue@.len(),
        {
            let ghost rest = queue@;
            proof {
                reveal(Seq::filter);
                assert(pending_views(queue@).len() == queue@.len());
                assert(pending_views(queue@)[0] == waiting[done]);
                assert(waiting.take(done + 1).drop_last() =~= waiting.take(done));
            }
            let item = queue.remove(0);
            let owner = owner_in(result, &item);
            match owner {
                Some(process) => {
                    let ghost prior = probe_bookings(waiting.take(done), *result);
                    stats.record_process_evidence(
                        clone_process(process),
                        item.connection.direction,
                        item.bytes,
                        item.observed_at,
                        Evidence::Probe,
                        item.connection.flow_key(),
                    );
                    assert(stats@ =~= old(stats)@ + prior.push(
                        waiting[done].charge(observed(*process), Evidence::Probe),
                    ));
                },
                None => {
                    let ghost kept = self.waiting();
                    self.pending.push(item);
                    assert(self.waiting() =~= kept.push(waiting[done]));
                },
            }
            proof {
                assert(pending_views(queue@) =~= pending_views(rest).skip(1));
                assert(waiting.skip(done).skip(1) =~= waiting.skip(done + 1));
                done = done + 1;
            }
        }
        assert(pending_views(queue@).len() == 0);
        assert(waiting.take(done) =~= waiting);
    }

    /// Makes the socket probed again at once if its traffic is still pending, and
    /// counts the answer as late otherwise.
    fn reactivate_probe_for_pending(&mut self, socket: LocalSocket, now: u128)
        requires
            old(self).probe_state.wf(),
            old(self).probe_state@.contains_key(socket),
            old(self).counters.probe_result_late < u64::MAX,
            old(self).counters.probe_result_dropped < u64::MAX,
        ensures
            final(self).pending == old(self).pending,
            final(self).same_setting(*old(self)),
            final(self).probe == old(self).probe,
            final(self).probe_state.wf(),
            final(self).probe_state@ == (if waits_for(old(self).waiting(), socket) {
                old(self).probe_state@.insert(socket, fresh_state(now))
            } else {
                old(self).probe_state@.remove(socket)
            }),
            final(self).counters == (if waits_for(old(self).waiting(), socket) {
                old(self).counters
            } else {
                old(self).counters.with_late()
            }),
    {
        if self.has_pending(socket) {
            self.probe_state.insert(
                socket,
                ProbeState {
                    active_request: None,
                    attempts: 0,
                    next_retry_at: now,
                    exhausted: false,
                    accept_results: true,
                },
            );
        } else {
            self.count_late();
            self.probe_state.remove(socket);
        }
    }

    fn count_late(&mut self)
        requires
            old(self).counters.probe_result_late < u64::MAX,
            old(self).counters.probe_result_dropped < u64::MAX,
        ensures
            *final(self) == (PendingAttributor {
                counters: old(self).counters.with_late(),
                ..*old(self)
            }),
    {
        self.counters.probe_result_late = self.counters.probe_result_late + 1;
        self.counters.probe_result_dropped = self.counters.probe_result_dropped + 1;
    }

    fn count_dropped(&mut self)
        requires
            old(self).counters.probe_result_dropped < u64::MAX,
        ensures
            *final(self) == (PendingAttributor {
                counters: old(self).counters.with_dropped(),
                ..*old(self)
            }),
    {
        self.counters.probe_result_dropped = self.counters.probe_result_dropped + 1;
    }
}

/// Whether `after`, with the ledger `ledger_after`, is what applying a probe's
/// answer leaves: the traffic it names an owner for is charged, if the answer is
/// the one waited for and may still charge traffic.
pub open spec fn result_applied(
    before: PendingAttributor,
    ledger: Seq<Booking>,
    result: ProbeResult,
    now: u128,
    after: PendingAttributor,
    ledger_after: Seq<Booking>,
) -> bool {
    &&& after.same_setting(before)
    &&& after.probe == before.probe
    &&& after.waiting() == if accepted(before.probe_state@, result) {
        still_waiting(before.waiting(), result)
    } else {
        before.waiting()
    }
    &&& ledger_after == if accepted(before.probe_state@, result) {
        ledger + probe_bookings(before.waiting(), result)
    } else {
        ledger
    }
    &&& after.probe_state@ == states_after(
        before.probe_state@,
        before.waiting(),
        result,
        now,
    )
    &&& after.counters == counters_after(
        before.counters,
        before.probe_state@,
        before.waiting(),
        result,
    )
}

/// By how much an answer can raise the counts, where `bytes` wait on its socket.
pub open spec fn answer_growth(result: ProbeResult, bytes: nat) -> Growth {
    let any = Growth { probe_result_dropped: 1, probe_result_late: 1, ..Growth::none() };
    match result {
        ProbeResult::Unique { .. } => Growth {
            probe_result_unique: 1,
            probe_unique_pending_bytes: bytes,
            ..any
        },
        ProbeResult::ConnectionMatches { matches, .. } => Growth {
            probe_result_unique: matches@.len(),
            probe_unique_pending_bytes: bytes,
            ..any
        },
        ProbeResult::Ambiguous { .. } => Growth {
            probe_result_ambiguous: 1,
            probe_ambiguous_pending_bytes: bytes,
            ..any
        },
        ProbeResult::NotFound { .. } => Growth {
            probe_result_not_found: 1,
            probe_not_found_pending_bytes: bytes,
            ..any
        },
        ProbeResult::Unavailable { .. } => Growth {
            probe_result_unavailable: 1,
            probe_unavailable_pending_bytes: bytes,
            ..any
        },
    }
}

/// By how much an answer can raise the counts while this traffic is pending.
pub open spec fn result_growth(result: ProbeResult, pending: Seq<Pending>) -> Growth {
    answer_growth(result, socket_bytes(pending, result.socket_spec()))
}

/// A narrower condition picks no more bytes.
proof fn lemma_bytes_implied(
    pending: Seq<Pending>,
    narrow: spec_fn(Pending) -> bool,
    wide: spec_fn(Pending) -> bool,
)
    requires
        forall|item: Pending| #[trigger] narrow(item) ==> wide(item),
    ensures
        bytes_where(pending, narrow) <= bytes_where(pending, wide),
    decreases pending.len(),
{
    if pending.len() > 0 {
        lemma_bytes_implied(pending.drop_last(), narrow, wide);
    }
}

/// What an answer leaves pending has no more bytes of any kind than there were.
proof fn lemma_fewer_bytes(
    pending: Seq<Pending>,
    result: ProbeResult,
    pick: spec_fn(Pending) -> bool,
)
    ensures
        bytes_where(still_waiting(pending, result), pick) <= bytes_where(pending, pick),
    decreases pending.len(),
{
    reveal(Seq::filter);
    if pending.len() > 0 {
        lemma_fewer_bytes(pending.drop_last(), result, pick);
        let part = still_waiting(pending.drop_last(), result);
        let whole = still_waiting(pending, result);
        if whole.len() > part.len() {
            assert(whole.drop_last() =~= part);
        }
    }
}

proof fn lemma_counters_within(
    counters: AttributionCounters,
    states: Map<LocalSocket, ProbeState>,
    pending: Seq<Pending>,
    result: ProbeResult,
)
    requires
        counters.fit(result_growth(result, pending)),
    ensures
        counters_after(counters, states, pending, result).within(
            counters,
            result_growth(result, pending),
        ),
{
    lemma_bytes_implied(
        pending,
        |item: Pending| named_owner(result, item) is Some,
        |item: Pending| item.socket() == result.socket_spec(),
    );
}

impl PendingAttributor {
    /// Applies a probe's answer.
    pub fn apply_probe_result(&mut self, stats: &mut Stats, result: ProbeResult, now: u128)
        requires
            old(self).wf(),
            all_bytes(old(self).waiting()) <= u64::MAX,
            old(self).counters.fit(result_growth(result, old(self).waiting())),
            now + PENDING_ATTRIBUTION_PROBE_RETRY_INTERVAL <= u128::MAX,
        ensures
            final(self).wf(),
            result_applied(*old(self), old(stats)@, result, now, *final(self), final(stats)@),
            final(self).counters.within(
                old(self).counters,
                result_growth(result, old(self).waiting()),
            ),
            final(self).waiting().len() <= old(self).waiting().len(),
            all_bytes(final(self).waiting()) <= all_bytes(old(self).waiting()),
            forall|way: Direction|
                charged_bytes(final(stats)@, way) + waiting_bytes(final(self).waiting(), way)
                    == charged_bytes(old(stats)@, way) + #[trigger] waiting_bytes(
                    old(self).waiting(),
                    way,
                ),
            forall|way: Direction| #[trigger]
                crossed_bytes(final(stats)@, way) == crossed_bytes(old(stats)@, way),
    {
        let ghost before = *self;
        let ghost ledger = stats@;
        let ghost given = result;
        self.settle_probe_result(stats, result, now);
        proof {
            lemma_counters_within(before.counters, before.probe_state@, before.waiting(), given);
            assert forall|way: Direction| #[trigger]
                crossed_bytes(stats@, way) == crossed_bytes(ledger, way) by {
                lemma_answer_conserves(before, ledger, given, now, *self, stats@, way);
            }
            lemma_answer_conserves(
                before,
                ledger,
                given,
                now,
                *self,
                stats@,
                Direction::Inbound,
            );
        }
    }

    /// Charges what an answer names an owner for, and notes how far the probing has got.
    fn settle_probe_result(&mut self, stats: &mut Stats, result: ProbeResult, now: u128)
        requires
            old(self).wf(),
            all_bytes(old(self).waiting()) <= u64::MAX,
            old(self).counters.fit(result_growth(result, old(self).waiting())),
            now + PENDING_ATTRIBUTION_PROBE_RETRY_INTERVAL <= u128::MAX,
        ensures
            final(self).wf(),
            result_applied(*old(self), old(stats)@, result, now, *final(self), final(stats)@),
            forall|way: Direction|
                charged_bytes(final(stats)@, way) + waiting_bytes(final(self).waiting(), way)
                    == charged_bytes(old(stats)@, way) + #[trigger] waiting_bytes(
                    old(self).waiting(),
                    way,
                ),
    {
        let ghost waiting = self.waiting();
        proof {
            lemma_still_waiting(waiting, result);
            if !(result is Unique || result is ConnectionMatches) {
                lemma_nothing_named(waiting, result);
                assert(stats@ + Seq::<Booking>::empty() =~= stats@);
            }
            lemma_bytes_bound(waiting, |item: Pending| item.socket() == result.socket_spec());
            lemma_bytes_implied(
                waiting,
                |item: Pending| named_owner(result, item) is Some,
                |item: Pending| item.socket() == result.socket_spec(),
            );
            assert forall|way: Direction| accepted(self.probe_state@, result) implies charged_bytes(
                stats@ + probe_bookings(waiting, result),
                way,
            ) + waiting_bytes(still_waiting(waiting, result), way) == charged_bytes(stats@, way)
                + #[trigger] waiting_bytes(waiting, way) by {
                lemma_probe_conserves(waiting, result, way);
                lemma_charged_concat(stats@, probe_bookings(waiting, result), way);
            }
        }
        let socket = result.socket();
        let request_id = result.request_id();
        let bytes: u64 = self.pending_bytes_for_socket(socket);
        match &result {
            ProbeResult::Unique { .. } => {
                self.counters.probe_result_unique = self.counters.probe_result_unique + 1;
                self.counters.probe_unique_pending_bytes = self.counters.probe_unique_pending_bytes
                    + bytes;
            },
            ProbeResult::Ambiguous { .. } => {
                self.counters.probe_result_ambiguous = self.counters.probe_result_ambiguous + 1;
                self.counters.probe_ambiguous_pending_bytes =
                self.counters.probe_ambiguous_pending_bytes + bytes;
            },
            ProbeResult::NotFound { .. } => {
                self.counters.probe_result_not_found = self.counters.probe_result_not_found + 1;
                self.counters.probe_not_found_pending_bytes =
                self.counters.probe_not_found_pending_bytes + bytes;
            },
            ProbeResult::Unavailable { .. } => {
                self.counters.probe_result_unavailable = self.counters.probe_result_unavailable + 1;
                self.counters.probe_unavailable_pending_bytes =
                self.counters.probe_unavailable_pending_bytes + bytes;
            },
            ProbeResult::ConnectionMatches { .. } => {},
        }
        let mut state = match self.probe_state.get(socket) {
            Some(state) => state,
            None => {
                self.count_dropped();
                return;
            },
        };
        let is_active = match state.active_request {
            Some(active) => active == request_id,
            None => false,
        };
        if !is_active {
            self.count_dropped();
            return;
        }
        match &result {
            ProbeResult::Unique { .. } | ProbeResult::ConnectionMatches { .. } => {
                if !state.accept_results {
                    self.reactivate_probe_for_pending(socket, now);
                    return;
                }
                if let ProbeResult::ConnectionMatches { matches, .. } = &result {
                    let named: u64 = self.pending_bytes_for_result(&result);
                    self.counters.probe_result_unique = self.counters.probe_result_unique
                        + matches.len() as u64;
                    self.counters.probe_unique_pending_bytes =
                    self.counters.probe_unique_pending_bytes + named;
                }
                self.settle_named(stats, &result);
                if self.has_pending(socket) {
                    state.active_request = None;
                    if state.attempts >= PENDING_ATTRIBUTION_MAX_PROBE_ATTEMPTS {
                        state.exhausted = true;
                    } else {
                        state.next_retry_at = now + PENDING_ATTRIBUTION_PROBE_RETRY_INTERVAL;
                    }
                    self.probe_state.insert(socket, state);
                } else {
                    self.probe_state.remove(socket);
                }
            },
            ProbeResult::Ambiguous { .. } => {
                if state.accept_results {
                    state.active_request = None;
                    state.exhausted = true;
                    self.probe_state.insert(socket, state);
                } else {
                    self.count_late();
                    self.probe_state.remove(socket);
                }
            },
            ProbeResult::NotFound { .. } | ProbeResult::Unavailable { .. } => {
                if state.accept_results {
                    state.active_request = None;
                    state.attempts = state.attempts.saturating_add(1);
                    if state.attempts >= PENDING_ATTRIBUTION_MAX_PROBE_ATTEMPTS {
                        state.exhausted = true;
                    } else {
                        state.next_retry_at = now + PENDING_ATTRIBUTION_PROBE_RETRY_INTERVAL;
                    }
                    self.probe_state.insert(socket, state);
                } else {
                    self.count_late();
                    self.probe_state.remove(socket);
                }
            },
        }
    }
}

/// The processes that pending traffic is charged to when its wait is over: the
/// candidates from the process table if there were several, else the owners that
/// the interval log vouches for.
pub open spec fn final_candidates(item: Pending, history: AttributionHistory, started: StartTimes) -> Seq<
    ObservedProcess,
> {
    if item.candidates.len() >= 2 {
        item.candidates
    } else {
        history.verified_owners(item.socket(), item.observed_at as int, started)
    }
}

/// The line that charges pending traffic when its wait is over.
pub open spec fn settlement(item: Pending, history: AttributionHistory, started: StartTimes) -> Booking {
    let candidates = final_candidates(item, history, started);
    if candidates.len() == 0 {
        unattributed_booking(item.connection.direction, item.bytes, item.observed_at)
    } else if candidates.len() == 1 {
        item.charge(candidates[0], Evidence::History)
    } else {
        Booking::Shared {
            candidates,
            direction: item.connection.direction,
            bytes: item.bytes as nat,
            observed_at: item.observed_at as int,
            flow: item.flow_key(),
        }
    }
}

/// The states once traffic is no longer pending: an answer for a socket that lost
/// its last pending traffic charges nothing any more.
pub open spec fn muted(
    states: Map<LocalSocket, ProbeState>,
    gone: Seq<Pending>,
    left: Seq<Pending>,
) -> Map<LocalSocket, ProbeState> {
    Map::new(
        |socket: LocalSocket| states.contains_key(socket),
        |socket: LocalSocket|
            if waits_for(gone, socket) && !waits_for(left, socket) {
                ProbeState { accept_results: false, ..states[socket] }
            } else {
                states[socket]
            },
    )
}

/// Whether `after` is what charging the oldest pending traffic leaves.
pub open spec fn oldest_finalized(
    before: PendingAttributor,
    ledger: Seq<Booking>,
    capacity: bool,
    started: StartTimes,
    after: PendingAttributor,
    ledger_after: Seq<Booking>,
) -> bool {
    let item = before.waiting()[0];
    &&& after.same_setting(before)
    &&& after.probe == before.probe
    &&& after.waiting() == before.waiting().skip(1)
    &&& ledger_after == ledger.push(settlement(item, before.history, started))
    &&& after.probe_state@ == muted(
        before.probe_state@,
        seq![item],
        before.waiting().skip(1),
    )
    &&& after.counters == if capacity {
        AttributionCounters {
            pending_capacity_bytes: (before.counters.pending_capacity_bytes + item.bytes) as u64,
            ..before.counters
        }
    } else {
        AttributionCounters {
            pending_expired_bytes: (before.counters.pending_expired_bytes + item.bytes) as u64,
            ..before.counters
        }
    }
}

/// Whether traffic has waited long enough.
pub open spec fn is_overdue(item: Pending, now: u128, window: u128) -> bool {
    (if now > item.pending_since {
        now - item.pending_since
    } else {
        0
    }) >= window
}

/// How many of the oldest have all waited long enough.
pub open spec fn overdue(pending: Seq<Pending>, now: u128, window: u128) -> int
    decreases pending.len(),
{
    if pending.len() > 0 && is_overdue(pending[0], now, window) {
        1 + overdue(pending.skip(1), now, window)
    } else {
        0
    }
}

/// The lines that charge traffic whose wait is over, in order.
pub open spec fn settlements(
    items: Seq<Pending>,
    history: AttributionHistory,
    started: StartTimes,
) -> Seq<Booking> {
    items.map_values(|item: Pending| settlement(item, history, started))
}

/// Whether `after` is what charging the overdue traffic leaves.
pub open spec fn expired_finalized(
    before: PendingAttributor,
    ledger: Seq<Booking>,
    now: u128,
    started: StartTimes,
    after: PendingAttributor,
    ledger_after: Seq<Booking>,
) -> bool {
    let n = overdue(before.waiting(), now, before.window);
    let gone = before.waiting().take(n);
    let left = before.waiting().skip(n);
    &&& after.same_setting(before)
    &&& after.probe == before.probe
    &&& after.waiting() == left
    &&& ledger_after == ledger + settlements(gone, before.history, started)
    &&& after.probe_state@ == muted(before.probe_state@, gone, left)
    &&& after.counters == (AttributionCounters {
        pending_expired_bytes: (before.counters.pending_expired_bytes + all_bytes(gone)) as u64,
        ..before.counters
    })
}

/// Pending bytes add up over the oldest and the rest.
pub proof fn lemma_waiting_first(pending: Seq<Pending>, way: Direction)
    requires
        pending.len() > 0,
    ensures
        waiting_bytes(pending, way) == waiting_bytes(pending.skip(1), way) + if pending[0]
            .connection.direction == way {
            pending[0].bytes as nat
        } else {
            0
        },
    decreases pending.len(),
{
    if pending.len() > 1 {
        lemma_waiting_first(pending.drop_last(), way);
        assert(pending.drop_last().skip(1) =~= pending.skip(1).drop_last());
    } else {
        assert(pending.skip(1) =~= Seq::<Pending>::empty());
        assert(pending.drop_last() =~= Seq::<Pending>::empty());
    }
}

/// Pending bytes add up over the oldest and the rest.
pub proof fn lemma_bytes_first(pending: Seq<Pending>)
    requires
        pending.len() > 0,
    ensures
        all_bytes(pending) == all_bytes(pending.skip(1)) + pending[0].bytes,
    decreases pending.len(),
{
    if pending.len() > 1 {
        lemma_bytes_first(pending.drop_last());
        assert(pending.drop_last().skip(1) =~= pending.skip(1).drop_last());
    } else {
        assert(pending.skip(1) =~= Seq::<Pending>::empty());
        assert(pending.drop_last() =~= Seq::<Pending>::empty());
    }
}

/// Pending bytes add up over the first ones and the rest.
pub proof fn lemma_bytes_split(pending: Seq<Pending>, n: int)
    requires
        0 <= n <= pending.len(),
    ensures
        all_bytes(pending) == all_bytes(pending.take(n)) + all_bytes(pending.skip(n)),
    decreases pending.len() - n,
{
    if n == pending.len() {
        assert(pending.take(n) =~= pending);
        assert(pending.skip(n) =~= Seq::<Pending>::empty());
    } else {
        lemma_bytes_split(pending, n + 1);
        lemma_bytes_first(pending.skip(n));
        assert(pending.skip(n).skip(1) =~= pending.skip(n + 1));
        assert(pending.take(n + 1).drop_last() =~= pending.take(n));
    }
}

/// A chained split of the overdue ones.
proof fn lemma_overdue_step(pending: Seq<Pending>, n: int, now: u128, window: u128)
    requires
        0 <= n <= pending.len(),
        overdue(pending, now, window) == n + overdue(pending.skip(n), now, window),
        n < pending.len() && is_overdue(pending[n], now, window),
    ensures
        overdue(pending, now, window) == n + 1 + overdue(pending.skip(n + 1), now, window),
{
    assert(pending.skip(n)[0] == pending[n]);
    assert(pending.skip(n).skip(1) =~= pending.skip(n + 1));
}

proof fn lemma_muted_step(
    states: Map<LocalSocket, ProbeState>,
    pending: Seq<Pending>,
    n: int,
)
    requires
        0 <= n < pending.len(),
    ensures
        muted(
            muted(states, pending.take(n), pending.skip(n)),
            seq![pending[n]],
            pending.skip(n + 1),
        ) == muted(states, pending.take(n + 1), pending.skip(n + 1)),
{
    let first = muted(states, pending.take(n), pending.skip(n));
    let second = muted(first, seq![pending[n]], pending.skip(n + 1));
    let direct = muted(states, pending.take(n + 1), pending.skip(n + 1));
    assert forall|k: LocalSocket| #[trigger] second.contains_key(k) implies second[k]
        == direct[k] by {
        let gone = pending.take(n);
        let gone2 = pending.take(n + 1);
        let left = pending.skip(n);
        let left2 = pending.skip(n + 1);
        assert(gone2[n] == pending[n]);
        assert(left[0] == pending[n]);
        assert(seq![pending[n]][0] == pending[n]);
        if waits_for(gone, k) {
            let i = choose|i: int| 0 <= i < gone.len() && (#[trigger] gone[i]).socket() == k;
            assert(gone2[i] == gone[i]);
        }
        if waits_for(gone2, k) {
            let i = choose|i: int| 0 <= i < gone2.len() && (#[trigger] gone2[i]).socket() == k;
            if i < n {
                assert(gone[i] == gone2[i]);
            }
        }
        if waits_for(left2, k) {
            let i = choose|i: int| 0 <= i < left2.len() && (#[trigger] left2[i]).socket() == k;
            assert(left[i + 1] == left2[i]);
        }
        if waits_for(left, k) {
            let i = choose|i: int| 0 <= i < left.len() && (#[trigger] left[i]).socket() == k;
            if i > 0 {
                assert(left2[i - 1] == left[i]);
            }
        }
        if waits_for(seq![pending[n]], k) {
            let i = choose|i: int|
                0 <= i < 1 && (#[trigger] seq![pending[n]][i]).socket() == k;
            assert(pending[n].socket() == k);
        }
    }
    assert(second =~= direct);
}

impl PendingAttributor {
    /// Charges the oldest pending traffic, because the capacity is reached or
    /// because its wait is over.
    fn finalize_oldest(&mut self, stats: &mut Stats, capacity: bool, started: &StartTimes)
        requires
            old(self).wf(),
            old(self).pending@.len() > 0,
            capacity ==> old(self).counters.pending_capacity_bytes + old(self).waiting()[0].bytes
                <= u64::MAX,
            !capacity ==> old(self).counters.pending_expired_bytes + old(self).waiting()[0].bytes
                <= u64::MAX,
        ensures
            final(self).wf(),
            oldest_finalized(
                *old(self),
                old(stats)@,
                capacity,
                *started,
                *final(self),
                final(stats)@,
            ),
    {
        let ghost waiting = self.waiting();
        assert(waiting[0] == self.pending@[0]@);
        let item = self.pending.remove(0);
        proof {
            assert(self.waiting() =~= waiting.skip(1));
            assert forall|i: int, j: int|
                #![trigger self.waiting()[i], self.waiting()[j]]
                0 <= i < j < self.waiting().len() implies self.waiting()[i].connection
                != self.waiting()[j].connection by {
                assert(waiting[i + 1].connection != waiting[j + 1].connection);
            }
        }
        let socket = item.connection.local_socket;
        if capacity {
            self.counters.pending_capacity_bytes = self.counters.pending_capacity_bytes
                + item.bytes;
        } else {
            self.counters.pending_expired_bytes = self.counters.pending_expired_bytes + item.bytes;
        }
        let ghost lines = stats@;
        let mut candidates = if item.candidates.len() < 2 {
            self.history.lookup_verified(socket, item.observed_at, started)
        } else {
            item.candidates
        };
        assert(candidates@ == final_candidates(waiting[0], self.history, *started));
        let flow = item.connection.flow_key();
        let direction = item.connection.direction;
        if candidates.len() == 0 {
            stats.record_unattributed(direction, item.bytes, item.observed_at);
        } else if candidates.len() == 1 {
            let process = candidates.remove(0);
            stats.record_process_evidence(
                process,
                direction,
                item.bytes,
                item.observed_at,
                Evidence::History,
                flow,
            );
        } else {
            stats.record_shared(candidates, direction, item.bytes, item.observed_at, flow);
        }
        assert(stats@ == lines.push(settlement(waiting[0], self.history, *started)));
        let ghost states = self.probe_state@;
        let ghost gone = seq![waiting[0]];
        if !self.has_pending(socket) {
            if let Some(state) = self.probe_state.get(socket) {
                let mut state = state;
                state.accept_results = false;
                self.probe_state.insert(socket, state);
            }
        }
        proof {
            assert(gone[0].socket() == socket);
            assert forall|k: LocalSocket| waits_for(gone, k) implies k == socket by {
                let i = choose|i: int| 0 <= i < gone.len() && (#[trigger] gone[i]).socket() == k;
            }
            assert(self.probe_state@ =~= muted(states, gone, waiting.skip(1)));
        }
    }

    /// Charges the oldest pending traffic as long as its wait is over.
    fn finalize_expired(&mut self, stats: &mut Stats, now: u128, started: &StartTimes)
        requires
            old(self).wf(),
            old(self).counters.pending_expired_bytes + all_bytes(old(self).waiting()) <= u64::MAX,
        ensures
            final(self).wf(),
            expired_finalized(*old(self), old(stats)@, now, *started, *final(self), final(stats)@),
            0 <= overdue(old(self).waiting(), now, old(self).window) <= old(self).waiting().len(),
            forall|way: Direction|
                charged_bytes(final(stats)@, way) + waiting_bytes(final(self).waiting(), way)
                    == charged_bytes(old(stats)@, way) + #[trigger] waiting_bytes(
                    old(self).waiting(),
                    way,
                ),
    {
        let ghost waiting = self.waiting();
        let ghost states = self.probe_state@;
        let ghost window = self.window;
        let ghost mut n: int = 0;
        proof {
            assert(waiting.skip(0) =~= waiting);
            assert(settlements(waiting.take(0), self.history, *started) =~= Seq::<
                Booking,
            >::empty());
            assert(stats@ + Seq::<Booking>::empty() =~= stats@);
            assert(muted(states, waiting.take(0), waiting.skip(0)) =~= states);
            assert(waiting.take(0) =~= Seq::<Pending>::empty());
        }
        loop
            invariant_except_break
                self.wf(),
                0 <= n <= waiting.len(),
                waiting == old(self).waiting(),
                states == old(self).probe_state@,
                window == old(self).window,
                self.same_setting(*old(self)),
                self.probe == old(self).probe,
                self.waiting() == waiting.skip(n),
                stats@ == old(stats)@ + settlements(
                    waiting.take(n),
                    old(self).history,
                    *started,
                ),
                self.probe_state@ == muted(states, waiting.take(n), waiting.skip(n)),
                old(self).counters.pending_expired_bytes + all_bytes(waiting) <= u64::MAX,
                self.counters == (AttributionCounters {
                    pending_expired_bytes: (old(self).counters.pending_expired_bytes + all_bytes(
                        waiting.take(n),
                    )) as u64,
                    ..old(self).counters
                }),
                overdue(waiting, now, window) == n + overdue(waiting.skip(n), now, window),
                forall|way: Direction|
                    charged_bytes(stats@, way) + waiting_bytes(self.waiting(), way)
                        == charged_bytes(old(stats)@, way) + #[trigger] waiting_bytes(
                        waiting,
                        way,
                    ),
            ensures
                self.wf(),
                expired_finalized(*old(self), old(stats)@, now, *started, *self, stats@),
                0 <= overdue(waiting, now, window) <= waiting.len(),
                forall|way: Direction|
                    charged_bytes(stats@, way) + waiting_bytes(self.waiting(), way)
                        == charged_bytes(old(stats)@, way) + #[trigger] waiting_bytes(
                        waiting,
                        way,
                    ),
            decreases waiting.len() - n,
        {
            assert(self.waiting().len() == self.pending@.len());
            if self.pending.len() == 0 {
                assert(overdue(waiting.skip(n), now, window) == 0);
                break;
            }
            assert(self.waiting()[0] == self.pending@[0]@);
            assert(waiting.skip(n)[0] == waiting[n]);
            let waited: u128 = now.saturating_sub(self.pending[0].pending_since);
            if waited < self.window {
                assert(overdue(waiting.skip(n), now, window) == 0);
                break;
            }
            let ghost left = self.waiting();
            let ghost lines = stats@;
            proof {
                lemma_bytes_split(waiting, n);
                lemma_bytes_first(left);
                lemma_overdue_step(waiting, n, now, window);
                lemma_muted_step(states, waiting, n);
                assert(left.skip(1) =~= waiting.skip(n + 1));
                assert(waiting.take(n + 1).drop_last() =~= waiting.take(n));
                assert(settlements(waiting.take(n + 1), old(self).history, *started)
                    =~= settlements(waiting.take(n), old(self).history, *started).push(
                    settlement(waiting[n], old(self).history, *started),
                ));
            }
            self.finalize_oldest(stats, false, started);
            proof {
                assert(stats@ =~= old(stats)@ + settlements(
                    waiting.take(n + 1),
                    old(self).history,
                    *started,
                ));
                assert forall|way: Direction|
                    charged_bytes(stats@, way) + waiting_bytes(self.waiting(), way)
                        == charged_bytes(old(stats)@, way) + #[trigger] waiting_bytes(
                        waiting,
                        way,
                    ) by {
                    lemma_charged_push(
                        lines,
                        settlement(waiting[n], old(self).history, *started),
                        way,
                    );
                    lemma_waiting_first(left, way);
                }
                n = n + 1;
            }
        }
    }
}

/// What a lookup says of the owner of a socket, as a mathematical value.
pub ghost enum Resolution {
    Exclusive(ObservedProcess),
    Ambiguous(Seq<ObservedProcess>),
    Miss,
}

impl View for LookupResolved {
    type V = Resolution;

    open spec fn view(&self) -> Resolution {
        match *self {
            LookupResolved::Exclusive(process) => Resolution::Exclusive(process),
            LookupResolved::Ambiguous(candidates) => Resolution::Ambiguous(candidates@),
            LookupResolved::Miss => Resolution::Miss,
        }
    }
}

/// What the table says of the owner of a socket.
pub open spec fn resolution(table: ProcTable, socket: LocalSocket, read_at: u128) -> Resolution {
    let found = table.lookup_candidates(socket);
    if table.is_stale(read_at) || found.len() == 0 {
        Resolution::Miss
    } else if found.len() == 1 {
        Resolution::Exclusive(observed_info(found[0]))
    } else {
        Resolution::Ambiguous(found.map_values(|info: ProcInfo| observed_info(info)))
    }
}

/// Why the table names no single owner.
pub open spec fn miss_reason(table: ProcTable, socket: LocalSocket, read_at: u128) -> LookupMissReason {
    if table.is_stale(read_at) {
        LookupMissReason::Stale
    } else if table.lookup_candidates(socket).len() == 0 {
        LookupMissReason::NoCandidate
    } else {
        LookupMissReason::Ambiguous
    }
}

/// The table's counts after a lookup for `bytes` bytes; a miss may ask for a refresh.
pub open spec fn lookup_counters(
    table: ProcTable,
    socket: LocalSocket,
    request: bool,
    bytes: u64,
    read_at: u128,
) -> ProcCounters {
    if resolution(table, socket, read_at) is Exclusive {
        table.counters.with_hit(table.v4_mapped_aliases@.contains(table.lookup_key(socket)))
    } else {
        let missed = table.counters.with_miss(miss_reason(table, socket, read_at), bytes);
        if request {
            ProcCounters { refresh_requests: missed.refresh_requests.wrapping_add(1), ..missed }
        } else {
            missed
        }
    }
}

/// Whether `after` is the shared table once a socket has been looked up.
pub open spec fn looked_up(
    before: SharedProcTable,
    socket: LocalSocket,
    peer: Option<(IpAddr, u16)>,
    request: bool,
    bytes: u64,
    read_at: u128,
    after: SharedProcTable,
) -> bool {
    let missed = !(resolution(before.table, socket, read_at) is Exclusive);
    &&& after.poisoned == before.poisoned
    &&& before.poisoned ==> after == before
    &&& !before.poisoned ==> {
        &&& after.table.same_owners(before.table)
        &&& after.table.counters == lookup_counters(before.table, socket, request, bytes, read_at)
        &&& after.table.lookup_miss_samples@ == match peer {
            Some((peer_ip, peer_port)) if missed => with_sample(
                before.table.lookup_miss_samples@,
                LookupMissSample {
                    reason: miss_reason(before.table, socket, read_at),
                    local_socket: socket,
                    peer_ip,
                    peer_port,
                },
            ),
            _ => before.table.lookup_miss_samples@,
        }
        &&& after.table.refresh == if missed && request && before.table.refresh
            == RefreshSlot::Empty {
            RefreshSlot::Full
        } else {
            before.table.refresh
        }
    }
}

/// Looks up the owner of a socket, and counts what was found. With `peer`, a miss
/// is kept as an example; with `request_refresh`, it asks for a refresh. A
/// poisoned table says nothing.
pub fn lookup_process(
    proc_table: &mut SharedProcTable,
    socket: LocalSocket,
    peer: Option<(IpAddr, u16)>,
    request_refresh: bool,
    bytes: u64,
    read_at: u128,
) -> (resolved: Option<LookupResolved>)
    ensures
        resolved is None <==> old(proc_table).poisoned,
        resolved matches Some(resolved) ==> resolved@ == resolution(
            old(proc_table).table,
            socket,
            read_at,
        ),
        looked_up(
            *old(proc_table),
            socket,
            peer,
            request_refresh,
            bytes,
            read_at,
            *final(proc_table),
        ),
{
    if proc_table.poisoned {
        return None;
    }
    let ghost table = proc_table.table;
    let mut candidates: Vec<ObservedProcess> = Vec::new();
    let mut v4_mapped: bool = false;
    let mut missed: Option<LookupMissReason> = None;
    match proc_table.table.lookup_outcome_at(socket, read_at) {
        LookupOutcome::Hit { process, v4_mapped: mapped } => {
            candidates.push(clone_info(process));
            v4_mapped = mapped;
        },
        LookupOutcome::Ambiguous { processes } => {
            let ghost found = table.lookup_candidates(socket);
            let mut i: usize = 0;
            while i < processes.len()
                invariant
                    i <= processes@.len(),
                    crate::proc_table::refers_to(processes@, found),
                    candidates@.len() == i,
                    forall|j: int|
                        0 <= j < i ==> #[trigger] candidates@[j] == observed_info(found[j]),
                decreases processes@.len() - i,
            {
                candidates.push(clone_info(processes[i]));
                i += 1;
            }
            assert(candidates@ =~= found.map_values(|info: ProcInfo| observed_info(info)));
            missed = Some(LookupMissReason::Ambiguous);
        },
        LookupOutcome::Miss(reason) => {
            missed = Some(reason);
        },
    }
    match missed {
        None => {
            proc_table.table.record_lookup_hit(v4_mapped);
            Some(LookupResolved::Exclusive(candidates.remove(0)))
        },
        Some(reason) => {
            proc_table.table.record_lookup_miss_bytes(reason, bytes);
            if let Some((peer_ip, peer_port)) = peer {
                proc_table.table.record_lookup_miss_sample(reason, socket, peer_ip, peer_port);
            }
            if request_refresh {
                let _ = proc_table.table.request_refresh();
            }
            if candidates.len() > 0 {
                Some(LookupResolved::Ambiguous(candidates))
            } else {
                Some(LookupResolved::Miss)
            }
        },
    }
}

/// The peers of a socket's pending connections, each once, oldest first.
pub open spec fn peers_of(pending: Seq<Pending>, socket: LocalSocket) -> Seq<SocketAddr>
    decreases pending.len(),
{
    if pending.len() == 0 {
        Seq::empty()
    } else {
        let prior = peers_of(pending.drop_last(), socket);
        let last = pending.last();
        if last.socket() != socket || prior.contains(last.peer()) {
            prior
        } else {
            prior.push(last.peer())
        }
    }
}

/// The part of an attributor that probing changes.
pub ghost struct ProbeSide {
    pub states: Map<LocalSocket, ProbeState>,
    pub probe: Option<ProbeView>,
    pub queued: u64,
}

/// A socket's state after a request for it.
pub open spec fn requested_state(
    state: ProbeState,
    outcome: ProbeRequestOutcome,
    now: u128,
) -> ProbeState {
    let retry_at = (now + PENDING_ATTRIBUTION_PROBE_RETRY_INTERVAL) as u128;
    match outcome {
        ProbeRequestOutcome::Queued(id) => ProbeState {
            active_request: Some(id),
            attempts: state.attempts.saturating_add(1),
            next_retry_at: retry_at,
            accept_results: true,
            ..state
        },
        ProbeRequestOutcome::InFlight(id) => ProbeState {
            active_request: Some(id),
            next_retry_at: retry_at,
            accept_results: false,
            ..state
        },
        ProbeRequestOutcome::Unavailable => backed_off(
            ProbeState { attempts: state.attempts.saturating_add(1), ..state },
            now,
        ),
    }
}

impl ProbeSide {
    /// The socket's state, a fresh one if it has none.
    pub open spec fn state_of(self, socket: LocalSocket, now: u128) -> ProbeState {
        if self.states.contains_key(socket) {
            self.states[socket]
        } else {
            fresh_state(now)
        }
    }

    /// Probing as it stands after an attempt to probe a socket. A socket is left
    /// alone while a request is under way, after the last attempt, and until its
    /// next attempt is due.
    pub open spec fn probed(self, pending: Seq<Pending>, socket: LocalSocket, now: u128) -> ProbeSide {
        let state = self.state_of(socket, now);
        let noted = ProbeSide { states: self.states.insert(socket, state), ..self };
        if state.active_request is Some || state.exhausted || now < state.next_retry_at {
            noted
        } else if state.attempts >= PENDING_ATTRIBUTION_MAX_PROBE_ATTEMPTS {
            ProbeSide {
                states: self.states.insert(socket, ProbeState { exhausted: true, ..state }),
                ..self
            }
        } else {
            match self.probe {
                None => noted,
                Some(probe) => {
                    let outcome = probe.outcome(socket);
                    ProbeSide {
                        states: self.states.insert(
                            socket,
                            requested_state(state, outcome, now),
                        ),
                        probe: Some(probe.requested(socket, peers_of(pending, socket))),
                        queued: if outcome is Queued {
                            (self.queued + 1) as u64
                        } else {
                            self.queued
                        },
                    }
                },
            }
        }
    }

    /// Probing as it stands after attempts to probe sockets in turn.
    pub open spec fn probed_all(
        self,
        pending: Seq<Pending>,
        sockets: Seq<LocalSocket>,
        now: u128,
    ) -> ProbeSide
        decreases sockets.len(),
    {
        if sockets.len() == 0 {
            self
        } else {
            self.probed_all(pending, sockets.drop_last(), now).probed(pending, sockets.last(), now)
        }
    }
}

/// Whether the next attempt to probe is due.
pub open spec fn is_due(state: ProbeState, now: u128) -> bool {
    state.active_request is None && !state.exhausted && now >= state.next_retry_at
}

/// Whether the list holds the sockets whose next attempt is due, each once.
pub open spec fn due_sockets(
    states: Map<LocalSocket, ProbeState>,
    now: u128,
    sockets: Seq<LocalSocket>,
) -> bool {
    &&& sockets.no_duplicates()
    &&& forall|socket: LocalSocket| #[trigger]
        sockets.contains(socket) <==> states.contains_key(socket) && is_due(states[socket], now)
}

/// The states once idle sockets are dropped: a socket without pending traffic
/// stays only while a request is under way, and its answer charges nothing.
pub open spec fn tidied(states: Map<LocalSocket, ProbeState>, pending: Seq<Pending>) -> Map<
    LocalSocket,
    ProbeState,
> {
    Map::new(
        |socket: LocalSocket|
            states.contains_key(socket) && (waits_for(pending, socket)
                || states[socket].active_request is Some),
        |socket: LocalSocket|
            if waits_for(pending, socket) {
                states[socket]
            } else {
                ProbeState { accept_results: false, ..states[socket] }
            },
    )
}

/// Whether everything but probing is the same.
pub open spec fn same_traffic(before: PendingAttributor, after: PendingAttributor) -> bool {
    &&& after.same_setting(before)
    &&& after.pending == before.pending
    &&& after.counters == (AttributionCounters {
        probe_request_queued: after.counters.probe_request_queued,
        ..before.counters
    })
    &&& after.probe is Some <==> before.probe is Some
    &&& after.probe matches Some(probe) ==> {
        &&& probe.results == before.probe->0.results
        &&& probe.metrics == before.probe->0.metrics
    }
}

impl PendingAttributor {
    /// The part that probing changes.
    pub open spec fn side(self) -> ProbeSide {
        ProbeSide {
            states: self.probe_state@,
            probe: match self.probe {
                Some(probe) => Some(probe@),
                None => None,
            },
            queued: self.counters.probe_request_queued,
        }
    }

    /// The peers of a socket's pending connections, each once, oldest first.
    pub fn pending_peers_for_socket(&self, socket: LocalSocket) -> (peers: Vec<SocketAddr>)
        ensures
            peers@ == peers_of(self.waiting(), socket),
    {
        let ghost waiting = self.waiting();
        let mut peers: Vec<SocketAddr> = Vec::new();
        let mut i: usize = 0;
        assert(waiting.take(0) =~= Seq::<Pending>::empty());
        while i < self.pending.len()
            invariant
                i <= self.pending@.len(),
                waiting == self.waiting(),
                peers@ == peers_of(waiting.take(i as int), socket),
            decreases self.pending@.len() - i,
        {
            let connection = self.pending[i].connection;
            proof {
                assert(waiting[i as int] == self.pending@[i as int]@);
                assert(waiting.take(i + 1).drop_last() =~= waiting.take(i as int));
            }
            if connection.local_socket == socket {
                let peer = SocketAddr { ip: connection.peer_ip, port: connection.peer_port };
                let mut known: bool = false;
                let mut k: usize = 0;
                while k < peers.len()
                    invariant
                        k <= peers@.len(),
                        known == exists|j: int| 0 <= j < k && #[trigger] peers@[j] == peer,
                    decreases peers@.len() - k,
                {
                    if peers[k] == peer {
                        known = true;
                    }
                    k += 1;
                }
                assert(known == peers@.contains(peer));
                if !known {
                    peers.push(peer);
                }
            }
            i += 1;
        }
        assert(waiting.take(i as int) =~= waiting);
        peers
    }

    /// Probes a socket, unless a request is under way, the attempts are used up
    /// or the next one is not due yet.
    pub fn ensure_probe(&mut self, socket: LocalSocket, now: u128)
        requires
            old(self).wf(),
            old(self).counters.probe_request_queued < u64::MAX,
            now + PENDING_ATTRIBUTION_PROBE_RETRY_INTERVAL <= u128::MAX,
        ensures
            final(self).wf(),
            same_traffic(*old(self), *final(self)),
            final(self).side() == old(self).side().probed(old(self).waiting(), socket, now),
    {
        let mut state = match self.probe_state.get(socket) {
            Some(state) => state,
            None => ProbeState {
                active_request: None,
                attempts: 0,
                next_retry_at: now,
                exhausted: false,
                accept_results: true,
            },
        };
        if state.active_request.is_some() || state.exhausted || now < state.next_retry_at {
            self.probe_state.insert(socket, state);
            return;
        }
        if state.attempts >= PENDING_ATTRIBUTION_MAX_PROBE_ATTEMPTS {
            state.exhausted = true;
            self.probe_state.insert(socket, state);
            return;
        }
        let peers = self.pending_peers_for_socket(socket);
        let mut probe = match self.probe.take() {
            Some(probe) => probe,
            None => {
                self.probe_state.insert(socket, state);
                return;
            },
        };
        let outcome = probe.request_for_peers(socket, peers);
        self.probe = Some(probe);
        match outcome {
            ProbeRequestOutcome::Queued(request_id) => {
                self.counters.probe_request_queued = self.counters.probe_request_queued + 1;
                state.active_request = Some(request_id);
                state.attempts = state.attempts.saturating_add(1);
                state.next_retry_at = now + PENDING_ATTRIBUTION_PROBE_RETRY_INTERVAL;
                state.accept_results = true;
            },
            ProbeRequestOutcome::InFlight(request_id) => {
                state.active_request = Some(request_id);
                state.next_retry_at = now + PENDING_ATTRIBUTION_PROBE_RETRY_INTERVAL;
                state.accept_results = false;
            },
            ProbeRequestOutcome::Unavailable => {
                state.attempts = state.attempts.saturating_add(1);
                if state.attempts >= PENDING_ATTRIBUTION_MAX_PROBE_ATTEMPTS {
                    state.exhausted = true;
                } else {
                    state.next_retry_at = now + PENDING_ATTRIBUTION_PROBE_RETRY_INTERVAL;
                }
            },
        }
        self.probe_state.insert(socket, state);
    }
}

impl PendingAttributor {
    /// Forgets sockets without pending traffic and without a request under way.
    fn cleanup_idle_probe_state(&mut self)
        requires
            old(self).wf(),
        ensures
            final(self).wf(),
            final(self).pending == old(self).pending,
            final(self).same_setting(*old(self)),
            final(self).probe == old(self).probe,
            final(self).counters == old(self).counters,
            final(self).probe_state@ == tidied(old(self).probe_state@, old(self).waiting()),
    {
        let ghost states = self.probe_state@;
        let ghost waiting = self.waiting();
        let sockets = self.probe_state.sockets();
        let mut i: usize = 0;
        assert forall|k: int| 0 <= k < sockets@.len() implies states.contains_key(
            #[trigger] sockets@[k],
        ) by {
            assert(sockets@.contains(sockets@[k]));
        }
        while i < sockets.len()
            invariant
                i <= sockets@.len(),
                sockets@.no_duplicates(),
                forall|socket: LocalSocket| #[trigger]
                    sockets@.contains(socket) <==> states.contains_key(socket),
                waiting == old(self).waiting(),
                states == old(self).probe_state@,
                self.wf(),
                self.pending == old(self).pending,
                self.same_setting(*old(self)),
                self.probe == old(self).probe,
                self.counters == old(self).counters,
                forall|k: int|
                    0 <= k < i ==> {
                        &&& self.probe_state@.contains_key(#[trigger] sockets@[k]) <==> tidied(
                            states,
                            waiting,
                        ).contains_key(sockets@[k])
                        &&& self.probe_state@.contains_key(sockets@[k])
                            ==> self.probe_state@[sockets@[k]] == tidied(
                            states,
                            waiting,
                        )[sockets@[k]]
                    },
                forall|k: int|
                    i <= k < sockets@.len() ==> self.probe_state@.contains_key(
                        #[trigger] sockets@[k],
                    ) && self.probe_state@[sockets@[k]] == states[sockets@[k]],
                forall|socket: LocalSocket| #[trigger]
                    self.probe_state@.contains_key(socket) ==> states.contains_key(socket),
            decreases sockets@.len() - i,
        {
            let socket = sockets[i];
            assert(sockets@.contains(socket));
            assert(self.probe_state@.contains_key(sockets@[i as int]));
            if !self.has_pending(socket) {
                if let Some(state) = self.probe_state.get(socket) {
                    if state.active_request.is_some() {
                        let mut state = state;
                        state.accept_results = false;
                        self.probe_state.insert(socket, state);
                    } else {
                        self.probe_state.remove(socket);
                    }
                }
            }
            i += 1;
        }
        proof {
            let target = tidied(states, waiting);
            assert forall|k: LocalSocket| #[trigger]
                self.probe_state@.contains_key(k) == target.contains_key(k) by {
                if states.contains_key(k) {
                    assert(sockets@.contains(k));
                    let j = choose|j: int| 0 <= j < sockets@.len() && sockets@[j] == k;
                    assert(sockets@[j] == k);
                }
            }
            assert forall|k: LocalSocket| #[trigger]
                self.probe_state@.contains_key(k) implies self.probe_state@[k] == target[k] by {
                assert(sockets@.contains(k));
                let j = choose|j: int| 0 <= j < sockets@.len() && sockets@[j] == k;
                assert(sockets@[j] == k);
            }
            assert(self.probe_state@ =~= target);
        }
    }

    /// The sockets whose next attempt is due.
    fn due_for_probe(&self, now: u128) -> (due: Vec<LocalSocket>)
        requires
            self.wf(),
        ensures
            due_sockets(self.probe_state@, now, due@),
            due@.len() <= self.probe_state@.dom().len(),
    {
        let sockets = self.probe_state.sockets();
        let mut due: Vec<LocalSocket> = Vec::new();
        let mut i: usize = 0;
        while i < sockets.len()
            invariant
                self.wf(),
                i <= sockets@.len(),
                sockets@.no_duplicates(),
                forall|socket: LocalSocket| #[trigger]
                    sockets@.contains(socket) <==> self.probe_state@.contains_key(socket),
                due@.no_duplicates(),
                forall|k: int|
                    0 <= k < due@.len() ==> exists|j: int|
                        0 <= j < i && #[trigger] sockets@[j] == #[trigger] due@[k],
                forall|k: int|
                    0 <= k < due@.len() ==> self.probe_state@.contains_key(#[trigger] due@[k])
                        && is_due(self.probe_state@[due@[k]], now),
                forall|j: int|
                    0 <= j < i && is_due(self.probe_state@[#[trigger] sockets@[j]], now)
                        ==> due@.contains(sockets@[j]),
            decreases sockets@.len() - i,
        {
            let socket = sockets[i];
            assert(sockets@.contains(socket));
            let ghost before = due@;
            if let Some(state) = self.probe_state.get(socket) {
                if state.active_request.is_none() && !state.exhausted && now
                    >= state.next_retry_at {
                    due.push(socket);
                    proof {
                        assert forall|j: int| 0 <= j < i && is_due(
                            self.probe_state@[#[trigger] sockets@[j]],
                            now,
                        ) implies due@.contains(sockets@[j]) by {
                            assert(before.contains(sockets@[j]));
                            let m = choose|m: int|
                                0 <= m < before.len() && before[m] == sockets@[j];
                            assert(due@[m] == sockets@[j]);
                        }
                        assert(due@[before.len() as int] == socket);
                        assert forall|a: int, b: int|
                            0 <= a < due@.len() && 0 <= b < due@.len() && a != b implies due@[a]
                            != due@[b] by {
                            if a < before.len() && b < before.len() {
                                assert(before[a] != before[b]);
                            } else if a < before.len() {
                                let j = choose|j: int|
                                    0 <= j < i && #[trigger] sockets@[j] == before[a];
                                assert(sockets@[j] != sockets@[i as int]);
                            } else {
                                let j = choose|j: int|
                                    0 <= j < i && #[trigger] sockets@[j] == before[b];
                                assert(sockets@[j] != sockets@[i as int]);
                            }
                        }
                        assert forall|k: int| 0 <= k < due@.len() implies exists|j: int|
                            0 <= j < i + 1 && #[trigger] sockets@[j] == #[trigger] due@[k] by {
                            if k < before.len() {
                                let j = choose|j: int|
                                    0 <= j < i && #[trigger] sockets@[j] == before[k];
                                assert(sockets@[j] == due@[k]);
                            } else {
                                assert(sockets@[i as int] == due@[k]);
                            }
                        }
                    }
                }
            }
            i += 1;
        }
        proof {
            assert forall|socket: LocalSocket| #[trigger]
                due@.contains(socket) <==> self.probe_state@.contains_key(socket) && is_due(
                    self.probe_state@[socket],
                    now,
                ) by {
                if self.probe_state@.contains_key(socket) {
                    assert(sockets@.contains(socket));
                    let j = choose|j: int| 0 <= j < sockets@.len() && sockets@[j] == socket;
                    assert(sockets@[j] == socket);
                }
            }
            crate::socket_map::lemma_as_map_len(self.probe_state.slots@);
            due@.unique_seq_to_set();
            assert(due@.to_set().subset_of(self.probe_state@.dom()));
            vstd::set_lib::lemma_len_subset(due@.to_set(), self.probe_state@.dom());
        }
        due
    }

    /// Probes every socket whose next attempt is due, in some order.
    fn retry_due_probes(&mut self, now: u128)
        requires
            old(self).wf(),
            old(self).counters.probe_request_queued + old(self).probe_state@.dom().len()
                <= u64::MAX,
            now + PENDING_ATTRIBUTION_PROBE_RETRY_INTERVAL <= u128::MAX,
        ensures
            final(self).wf(),
            same_traffic(*old(self), *final(self)),
            final(self).counters.probe_request_queued <= old(self).counters.probe_request_queued
                + old(self).probe_state@.dom().len(),
            exists|order: Seq<LocalSocket>|
                {
                    &&& #[trigger] due_sockets(old(self).probe_state@, now, order)
                    &&& final(self).side() == old(self).side().probed_all(
                        old(self).waiting(),
                        order,
                        now,
                    )
                },
    {
        let due = self.due_for_probe(now);
        let mut i: usize = 0;
        assert(due@.take(0) =~= Seq::<LocalSocket>::empty());
        while i < due.len()
            invariant
                i <= due@.len(),
                due_sockets(old(self).probe_state@, now, due@),
                due@.len() <= old(self).probe_state@.dom().len(),
                old(self).counters.probe_request_queued + old(self).probe_state@.dom().len()
                    <= u64::MAX,
                now + PENDING_ATTRIBUTION_PROBE_RETRY_INTERVAL <= u128::MAX,
                self.wf(),
                same_traffic(*old(self), *self),
                self.counters.probe_request_queued <= old(self).counters.probe_request_queued + i,
                self.side() == old(self).side().probed_all(
                    old(self).waiting(),
                    due@.take(i as int),
                    now,
                ),
            decreases due@.len() - i,
        {
            assert(due@.take(i + 1).drop_last() =~= due@.take(i as int));
            self.ensure_probe(due[i], now);
            i += 1;
        }
        assert(due@.take(i as int) =~= due@);
    }
}

/// The pending traffic that the table names no single owner for; where it names
/// several, they become candidates.
pub open spec fn unresolved(pending: Seq<Pending>, table: ProcTable, read_at: u128) -> Seq<Pending>
    decreases pending.len(),
{
    if pending.len() == 0 {
        Seq::empty()
    } else {
        let prior = unresolved(pending.drop_last(), table, read_at);
        let last = pending.last();
        match resolution(table, last.socket(), read_at) {
            Resolution::Exclusive(_) => prior,
            Resolution::Ambiguous(found) => prior.push(
                Pending { candidates: merged(last.candidates, found), ..last },
            ),
            Resolution::Miss => prior.push(last),
        }
    }
}

/// The lines that charge pending traffic to the owners the table names.
pub open spec fn table_bookings(pending: Seq<Pending>, table: ProcTable, read_at: u128) -> Seq<
    Booking,
>
    decreases pending.len(),
{
    if pending.len() == 0 {
        Seq::empty()
    } else {
        let prior = table_bookings(pending.drop_last(), table, read_at);
        let last = pending.last();
        match resolution(table, last.socket(), read_at) {
            Resolution::Exclusive(process) => prior.push(last.charge(process, Evidence::Snapshot)),
            _ => prior,
        }
    }
}

/// The table's counts after a lookup for each piece of pending traffic.
pub open spec fn swept_counters(pending: Seq<Pending>, table: ProcTable, read_at: u128) -> ProcCounters
    decreases pending.len(),
{
    if pending.len() == 0 {
        table.counters
    } else {
        lookup_counters(
            ProcTable {
                counters: swept_counters(pending.drop_last(), table, read_at),
                ..table
            },
            pending.last().socket(),
            false,
            pending.last().bytes,
            read_at,
        )
    }
}

/// What the table leaves unresolved has each connection once, and together with
/// what it charges neither loses nor adds a byte.
pub proof fn lemma_unresolved(pending: Seq<Pending>, table: ProcTable, read_at: u128)
    requires
        distinct_connections(pending),
    ensures
        distinct_connections(unresolved(pending, table, read_at)),
        unresolved(pending, table, read_at).len() <= pending.len(),
        all_bytes(unresolved(pending, table, read_at)) <= all_bytes(pending),
        forall|way: Direction|
            charged_bytes(table_bookings(pending, table, read_at), way) + waiting_bytes(
                unresolved(pending, table, read_at),
                way,
            ) == #[trigger] waiting_bytes(pending, way),
        forall|i: int|
            0 <= i < unresolved(pending, table, read_at).len() ==> exists|j: int|
                0 <= j < pending.len() && (#[trigger] pending[j]).connection == (
                #[trigger] unresolved(pending, table, read_at)[i]).connection,
    decreases pending.len(),
{
    if pending.len() > 0 {
        let shorter = pending.drop_last();
        assert(distinct_connections(shorter));
        lemma_unresolved(shorter, table, read_at);
        let part = unresolved(shorter, table, read_at);
        let whole = unresolved(pending, table, read_at);
        let last = pending.last();
        if whole.len() > part.len() {
            assert(whole.drop_last() =~= part);
        }
        assert forall|i: int| 0 <= i < whole.len() implies exists|j: int|
            0 <= j < pending.len() && (#[trigger] pending[j]).connection == (
            #[trigger] whole[i]).connection by {
            if i < part.len() {
                assert(part[i] == whole[i]);
                let j = choose|j: int|
                    0 <= j < shorter.len() && (#[trigger] shorter[j]).connection
                        == part[i].connection;
                assert(pending[j].connection == whole[i].connection);
            } else {
                assert(pending[pending.len() - 1].connection == whole[i].connection);
            }
        }
        assert forall|i: int, j: int|
            #![trigger whole[i], whole[j]]
            0 <= i < j < whole.len() implies whole[i].connection != whole[j].connection by {
            if j < part.len() {
                assert(part[i].connection != part[j].connection);
            } else {
                assert(part[i] == whole[i]);
                let k = choose|k: int|
                    0 <= k < shorter.len() && (#[trigger] shorter[k]).connection
                        == part[i].connection;
                assert(pending[k].connection != pending[pending.len() - 1].connection);
            }
        }
        assert forall|way: Direction|
            charged_bytes(table_bookings(pending, table, read_at), way) + waiting_bytes(
                whole,
                way,
            ) == #[trigger] waiting_bytes(pending, way) by {
            let prior = table_bookings(shorter, table, read_at);
            assert(charged_bytes(prior, way) + waiting_bytes(part, way) == waiting_bytes(
                shorter,
                way,
            ));
            match resolution(table, last.socket(), read_at) {
                Resolution::Exclusive(process) => {
                    lemma_charged_push(prior, last.charge(process, Evidence::Snapshot), way);
                },
                _ => {},
            }
        }
    }
}

/// Whether `after` is what a look at the process table leaves. Nothing happens
/// unless the table is of a new generation. Then its owners enter the interval
/// log, and pending traffic is charged to the owners it names.
pub open spec fn generation_resolved(
    before: PendingAttributor,
    ledger: Seq<Booking>,
    shared: SharedProcTable,
    clock: Clock,
    after: PendingAttributor,
    ledger_after: Seq<Booking>,
    shared_after: SharedProcTable,
) -> bool {
    if shared.poisoned || before.last_generation == Some(shared.table.generation) {
        after == before && ledger_after == ledger && shared_after == shared
    } else {
        &&& after.window == before.window
        &&& after.capacity == before.capacity
        &&& after.probe == before.probe
        &&& after.probe_state == before.probe_state
        &&& after.counters == before.counters
        &&& after.last_generation == Some(shared.table.generation)
        &&& after.history.retention == before.history.retention
        &&& after.history.capacity == before.history.capacity
        &&& updated(
            before.history.intervals@,
            shared.table.entries@,
            clock.wall,
            clock.wall - before.history.retention,
            before.history.capacity as nat,
            after.history.intervals@,
        )
        &&& after.waiting() == unresolved(before.waiting(), shared.table, clock.read_at)
        &&& ledger_after == ledger + table_bookings(
            before.waiting(),
            shared.table,
            clock.read_at,
        )
        &&& !shared_after.poisoned
        &&& shared_after.table.same_owners(shared.table)
        &&& shared_after.table.refresh == shared.table.refresh
        &&& shared_after.table.lookup_miss_samples@ == shared.table.lookup_miss_samples@
        &&& shared_after.table.counters == swept_counters(
            before.waiting(),
            shared.table,
            clock.read_at,
        )
    }
}

/// Tables with the same owners resolve sockets alike.
proof fn lemma_same_resolution(
    left: ProcTable,
    right: ProcTable,
    socket: LocalSocket,
    bytes: u64,
    read_at: u128,
)
    requires
        left.same_owners(right),
    ensures
        resolution(left, socket, read_at) == resolution(right, socket, read_at),
        lookup_counters(left, socket, false, bytes, read_at) == lookup_counters(
            ProcTable { counters: left.counters, ..right },
            socket,
            false,
            bytes,
            read_at,
        ),
{
    let other = ProcTable { counters: left.counters, ..right };
    assert(left.lookup_key(socket) == right.lookup_key(socket));
    assert(other.lookup_key(socket) == right.lookup_key(socket));
    assert(left.lookup_candidates(socket) == right.lookup_candidates(socket));
    assert(other.lookup_candidates(socket) == right.lookup_candidates(socket));
    assert(left.is_stale(read_at) == right.is_stale(read_at));
    assert(other.is_stale(read_at) == right.is_stale(read_at));
}

impl PendingAttributor {
    /// Looks at the process table, and charges pending traffic to the owners it
    /// names if it is of a new generation.
    #[verifier::rlimit(40)]
    fn resolve_pending_on_generation_change(
        &mut self,
        stats: &mut Stats,
        proc_table: &mut SharedProcTable,
        clock: Clock,
    )
        requires
            old(self).wf(),
            i128::MIN <= clock.wall - old(self).history.retention <= i128::MAX,
        ensures
            final(self).wf(),
            generation_resolved(
                *old(self),
                old(stats)@,
                *old(proc_table),
                clock,
                *final(self),
                final(stats)@,
                *final(proc_table),
            ),
            all_bytes(final(self).waiting()) <= all_bytes(old(self).waiting()),
            forall|way: Direction|
                charged_bytes(final(stats)@, way) + waiting_bytes(final(self).waiting(), way)
                    == charged_bytes(old(stats)@, way) + #[trigger] waiting_bytes(
                    old(self).waiting(),
                    way,
                ),
    {
        if proc_table.poisoned {
            return;
        }
        let generation: u64 = proc_table.table.generation();
        if let Some(last) = self.last_generation {
            if last == generation {
                return;
            }
        }
        self.last_generation = Some(generation);
        self.history.update(clock.wall, &proc_table.table.entries);
        let ghost waiting = self.waiting();
        let ghost table = proc_table.table;
        let ghost read_at = clock.read_at;
        let mut queue: Vec<PendingAttribution> = Vec::new();
        std::mem::swap(&mut queue, &mut self.pending);
        let ghost mut done: int = 0;
        proof {
            assert(pending_views(queue@) =~= waiting.skip(0));
            assert(self.waiting() =~= unresolved(waiting.take(0), table, read_at));
            assert(table_bookings(waiting.take(0), table, read_at) =~= Seq::<Booking>::empty());
            assert(stats@ + Seq::<Booking>::empty() =~= stats@);
        }
        while queue.len() > 0
            invariant
                0 <= done <= waiting.len(),
                read_at == clock.read_at,
                table == old(proc_table).table,
                pending_views(queue@) == waiting.skip(done),
                self.waiting() == unresolved(waiting.take(done), table, read_at),
                stats@ == old(stats)@ + table_bookings(waiting.take(done), table, read_at),
                !proc_table.poisoned,
                proc_table.table.same_owners(table),
                proc_table.table.refresh == table.refresh,
                proc_table.table.lookup_miss_samples@ == table.lookup_miss_samples@,
                proc_table.table.counters == swept_counters(waiting.take(done), table, read_at),
                self.window == old(self).window,
                self.capacity == old(self).capacity,
                self.probe == old(self).probe,
                self.probe_state == old(self).probe_state,
                self.counters == old(self).counters,
                self.last_generation == Some(old(proc_table).table.generation),
                self.history.wf(),
                self.history.retention == old(self).history.retention,
                self.history.capacity == old(self).history.capacity,
                updated(
                    old(self).history.intervals@,
                    table.entries@,
                    clock.wall,
                    clock.wall - old(self).history.retention,
                    old(self).history.capacity as nat,
                    self.history.intervals@,
                ),
            decreases queue@.len(),
        {
            let ghost rest = queue@;
            proof {
                assert(pending_views(queue@).len() == queue@.len());
                assert(pending_views(queue@)[0] == waiting[done]);
                assert(waiting.take(done + 1).drop_last() =~= waiting.take(done));
                lemma_same_resolution(
                    proc_table.table,
                    table,
                    waiting[done].socket(),
                    waiting[done].bytes,
                    read_at,
                );
            }
            let item = queue.remove(0);
            assert(item@ == waiting[done]);
            let ghost kept = self.waiting();
            let ghost lines = stats@;
            let resolved = lookup_process(
                proc_table,
                item.connection.local_socket,
                None,
                false,
                item.bytes,
                clock.read_at,
            );
            match resolved {
                Some(LookupResolved::Exclusive(process)) => {
                    stats.record_process_evidence(
                        process,
                        item.connection.direction,
                        item.bytes,
                        item.observed_at,
                        Evidence::Snapshot,
                        item.connection.flow_key(),
                    );
                    assert(stats@ =~= old(stats)@ + table_bookings(
                        waiting.take(done),
                        table,
                        read_at,
                    ).push(waiting[done].charge(process, Evidence::Snapshot)));
                },
                Some(LookupResolved::Ambiguous(found)) => {
                    let mut item = item;
                    merge_candidates(&mut item.candidates, found);
                    self.pending.push(item);
                    assert(self.waiting() =~= kept.push(
                        Pending {
                            candidates: merged(waiting[done].candidates, found@),
                            ..waiting[done]
                        },
                    ));
                },
                _ => {
                    self.pending.push(item);
                    assert(self.waiting() =~= kept.push(waiting[done]));
                },
            }
            proof {
                assert(pending_views(queue@) =~= pending_views(rest).skip(1));
                assert(waiting.skip(done).skip(1) =~= waiting.skip(done + 1));
                done = done + 1;
            }
        }
        proof {
            assert(pending_views(queue@).len() == 0);
            assert(waiting.take(done) =~= waiting);
            lemma_unresolved(waiting, table, read_at);
            assert(self.pending@.len() == self.waiting().len());
            assert forall|way: Direction|
                charged_bytes(stats@, way) + waiting_bytes(self.waiting(), way) == charged_bytes(
                    old(stats)@,
                    way,
                ) + #[trigger] waiting_bytes(waiting, way) by {
                lemma_charged_concat(old(stats)@, table_bookings(waiting, table, read_at), way);
            }
        }
    }
}

/// Whether traffic of the connection is pending.
pub open spec fn waits_on(pending: Seq<Pending>, connection: ConnectionKey) -> bool {
    exists|i: int| 0 <= i < pending.len() && (#[trigger] pending[i]).connection == connection
}

/// Pending traffic together with more of the same connection. It has waited
/// since the first of it.
pub open spec fn absorbed(item: Pending, more: Pending) -> Pending {
    Pending {
        bytes: (item.bytes + more.bytes) as u64,
        observed_at: more.observed_at,
        candidates: merged(item.candidates, more.candidates),
        ..item
    }
}

/// Whether `after` is what adding traffic to the pending leaves. Without any
/// capacity it is charged to nobody at once. Traffic of a pending connection adds
/// to it. Otherwise the oldest makes room if the capacity is reached.
pub open spec fn pushed(
    before: PendingAttributor,
    ledger: Seq<Booking>,
    item: Pending,
    started: StartTimes,
    after: PendingAttributor,
    ledger_after: Seq<Booking>,
) -> bool {
    let waiting = before.waiting();
    &&& after.same_setting(before)
    &&& after.probe == before.probe
    &&& if before.capacity == 0 {
        &&& after.pending == before.pending
        &&& after.probe_state == before.probe_state
        &&& after.counters == (AttributionCounters {
            pending_capacity_bytes: (before.counters.pending_capacity_bytes + item.bytes) as u64,
            ..before.counters
        })
        &&& ledger_after == ledger.push(
            unattributed_booking(item.connection.direction, item.bytes, item.observed_at),
        )
    } else if waits_on(waiting, item.connection) {
        &&& forall|i: int|
            0 <= i < waiting.len() && (#[trigger] waiting[i]).connection == item.connection
                ==> after.waiting() == waiting.update(i, absorbed(waiting[i], item))
        &&& after.probe_state == before.probe_state
        &&& after.counters == before.counters
        &&& ledger_after == ledger
    } else if waiting.len() == before.capacity {
        &&& after.waiting() == waiting.skip(1).push(item)
        &&& after.probe_state@ == muted(before.probe_state@, seq![waiting[0]], waiting.skip(1))
        &&& after.counters == (AttributionCounters {
            pending_capacity_bytes: (before.counters.pending_capacity_bytes
                + waiting[0].bytes) as u64,
            ..before.counters
        })
        &&& ledger_after == ledger.push(settlement(waiting[0], before.history, started))
    } else {
        &&& after.waiting() == waiting.push(item)
        &&& after.probe_state == before.probe_state
        &&& after.counters == before.counters
        &&& ledger_after == ledger
    }
}

/// The bytes of one direction in an amount that goes the given way.
pub open spec fn going(direction: Direction, bytes: u64, way: Direction) -> nat {
    if direction == way {
        bytes as nat
    } else {
        0
    }
}

proof fn lemma_waiting_update(pending: Seq<Pending>, i: int, item: Pending, way: Direction)
    requires
        0 <= i < pending.len(),
        item.connection == pending[i].connection,
    ensures
        waiting_bytes(pending.update(i, item), way) + going(
            item.connection.direction,
            pending[i].bytes,
            way,
        ) == waiting_bytes(pending, way) + going(item.connection.direction, item.bytes, way),
        all_bytes(pending.update(i, item)) + pending[i].bytes == all_bytes(pending) + item.bytes,
    decreases pending.len(),
{
    let new = pending.update(i, item);
    if i == pending.len() - 1 {
        assert(new.drop_last() =~= pending.drop_last());
    } else {
        lemma_waiting_update(pending.drop_last(), i, item, way);
        assert(new.drop_last() =~= pending.drop_last().update(i, item));
    }
}

proof fn lemma_waiting_push(pending: Seq<Pending>, item: Pending, way: Direction)
    ensures
        waiting_bytes(pending.push(item), way) == waiting_bytes(pending, way) + going(
            item.connection.direction,
            item.bytes,
            way,
        ),
        all_bytes(pending.push(item)) == all_bytes(pending) + item.bytes,
{
    assert(pending.push(item).drop_last() =~= pending);
}

proof fn lemma_item_bound(pending: Seq<Pending>, i: int)
    requires
        0 <= i < pending.len(),
    ensures
        pending[i].bytes <= all_bytes(pending),
    decreases pending.len(),
{
    if i < pending.len() - 1 {
        lemma_item_bound(pending.drop_last(), i);
    }
}

impl PendingAttributor {
    /// Where traffic of the connection is pending.
    fn find_connection(&self, connection: ConnectionKey) -> (index: Option<usize>)
        ensures
            match index {
                Some(i) => i < self.pending@.len() && self.pending@[i as int].connection
                    == connection,
                None => !waits_on(self.waiting(), connection),
            },
    {
        let mut i: usize = 0;
        while i < self.pending.len()
            invariant
                i <= self.pending@.len(),
                forall|j: int|
                    0 <= j < i ==> (#[trigger] self.waiting()[j]).connection != connection,
            decreases self.pending@.len() - i,
        {
            assert(self.waiting()[i as int] == self.pending@[i as int]@);
            if self.pending[i].connection == connection {
                return Some(i);
            }
            i += 1;
        }
        None
    }

    /// Adds traffic to the pending. Says whether it waits.
    pub fn push_pending(&mut self, stats: &mut Stats, item: PendingAttribution, started: &StartTimes)
        -> (waits: bool)
        requires
            old(self).wf(),
            all_bytes(old(self).waiting()) + item.bytes <= u64::MAX,
            old(self).capacity == 0 ==> old(self).counters.pending_capacity_bytes + item.bytes
                <= u64::MAX,
            0 < old(self).capacity == old(self).waiting().len() ==> old(
                self,
            ).counters.pending_capacity_bytes + old(self).waiting()[0].bytes <= u64::MAX,
        ensures
            final(self).wf(),
            waits == (old(self).capacity > 0),
            pushed(*old(self), old(stats)@, item@, *started, *final(self), final(stats)@),
            final(self).counters.pending_capacity_bytes + all_bytes(final(self).waiting()) <= old(
                self,
            ).counters.pending_capacity_bytes + all_bytes(old(self).waiting()) + item.bytes,
            forall|way: Direction|
                charged_bytes(final(stats)@, way) + waiting_bytes(final(self).waiting(), way)
                    == charged_bytes(old(stats)@, way) + #[trigger] waiting_bytes(
                    old(self).waiting(),
                    way,
                ) + going(item.connection.direction, item.bytes, way),
    {
        let ghost waiting = self.waiting();
        let ghost lines = stats@;
        let ghost view = item@;
        if self.capacity == 0 {
            self.counters.pending_capacity_bytes = self.counters.pending_capacity_bytes
                + item.bytes;
            stats.record_unattributed(item.connection.direction, item.bytes, item.observed_at);
            proof {
                assert forall|way: Direction|
                    charged_bytes(stats@, way) + waiting_bytes(self.waiting(), way)
                        == charged_bytes(lines, way) + #[trigger] waiting_bytes(waiting, way)
                        + going(item.connection.direction, item.bytes, way) by {
                    lemma_charged_push(
                        lines,
                        unattributed_booking(
                            item.connection.direction,
                            item.bytes,
                            item.observed_at,
                        ),
                        way,
                    );
                }
            }
            return false;
        }
        match self.find_connection(item.connection) {
            Some(i) => {
                proof {
                    assert(waiting[i as int] == self.pending@[i as int]@);
                    lemma_item_bound(waiting, i as int);
                }
                let ghost listed = self.pending@;
                let bytes: u64 = self.pending[i].bytes + item.bytes;
                self.pending[i].bytes = bytes;
                self.pending[i].observed_at = item.observed_at;
                merge_candidates(&mut self.pending[i].candidates, item.candidates);
                proof {
                    let new = absorbed(waiting[i as int], view);
                    assert(self.waiting() =~= waiting.update(i as int, new));
                    assert forall|j: int|
                        0 <= j < waiting.len() && (#[trigger] waiting[j]).connection
                            == view.connection implies j == i by {
                        if j < i {
                            assert(waiting[j].connection != waiting[i as int].connection);
                        } else if i < j {
                            assert(waiting[i as int].connection != waiting[j].connection);
                        }
                    }
                    assert forall|a: int, b: int|
                        #![trigger self.waiting()[a], self.waiting()[b]]
                        0 <= a < b < self.waiting().len() implies self.waiting()[a].connection
                        != self.waiting()[b].connection by {
                        assert(waiting[a].connection != waiting[b].connection);
                    }
                    lemma_waiting_update(waiting, i as int, new, Direction::Inbound);
                    assert forall|way: Direction|
                        charged_bytes(stats@, way) + waiting_bytes(self.waiting(), way)
                            == charged_bytes(lines, way) + #[trigger] waiting_bytes(waiting, way)
                            + going(view.connection.direction, view.bytes, way) by {
                        lemma_waiting_update(waiting, i as int, new, way);
                    }
                }
                return true;
            },
            None => {},
        }
        if self.pending.len() == self.capacity {
            proof {
                lemma_item_bound(waiting, 0);
                lemma_bytes_first(waiting);
            }
            self.finalize_oldest(stats, true, started);
        }
        let ghost left = self.waiting();
        let ghost charged = stats@;
        proof {
            assert(left.len() < self.capacity);
            assert forall|j: int| 0 <= j < left.len() implies (#[trigger] left[j]).connection
                != view.connection by {
                if waiting.len() == self.capacity {
                    assert(left[j] == waiting[j + 1]);
                } else {
                    assert(left[j] == waiting[j]);
                }
            }
        }
        self.pending.push(item);
        proof {
            assert(self.waiting() =~= left.push(view));
            lemma_waiting_push(left, view, Direction::Inbound);
            assert forall|a: int, b: int|
                #![trigger self.waiting()[a], self.waiting()[b]]
                0 <= a < b < self.waiting().len() implies self.waiting()[a].connection
                != self.waiting()[b].connection by {
                assert(self.waiting()[a] == left[a]);
                if b < left.len() {
                    assert(left[a].connection != left[b].connection);
                }
            }
            assert forall|way: Direction|
                charged_bytes(stats@, way) + waiting_bytes(self.waiting(), way) == charged_bytes(
                    lines,
                    way,
                ) + #[trigger] waiting_bytes(waiting, way) + going(
                    view.connection.direction,
                    view.bytes,
                    way,
                ) by {
                lemma_waiting_push(left, view, way);
                if waiting.len() == self.capacity {
                    lemma_charged_push(
                        lines,
                        settlement(waiting[0], old(self).history, *started),
                        way,
                    );
                    lemma_waiting_first(waiting, way);
                }
            }
        }
        true
    }
}

/// The traffic of an endpoint as it waits, with the candidates that a lookup found.
pub open spec fn pending_item(
    observation: EndpointObservation,
    socket: LocalSocket,
    peer_port: u16,
    found: Resolution,
    now: u128,
) -> Pending {
    Pending {
        connection: ConnectionKey {
            local_socket: socket,
            peer_ip: observation.peer_ip,
            peer_port,
            direction: observation.direction,
        },
        bytes: observation.bytes,
        observed_at: observation.observed_at,
        candidates: match found {
            Resolution::Ambiguous(candidates) => candidates,
            _ => Seq::empty(),
        },
        pending_since: now,
    }
}

/// What the shared table says of the owner of a socket; a poisoned one says nothing.
pub open spec fn shared_resolution(
    shared: SharedProcTable,
    socket: LocalSocket,
    read_at: u128,
) -> Resolution {
    if shared.poisoned {
        Resolution::Miss
    } else {
        resolution(shared.table, socket, read_at)
    }
}

/// Whether `after` is what the traffic of an endpoint leaves. Without a socket it
/// is system traffic, without a peer port it is charged to nobody. With one known
/// owner it is charged at once. Otherwise it waits, and its socket is probed.
pub open spec fn endpoint_recorded(
    before: PendingAttributor,
    ledger: Seq<Booking>,
    shared: SharedProcTable,
    observation: EndpointObservation,
    clock: Clock,
    started: StartTimes,
    after: PendingAttributor,
    ledger_after: Seq<Booking>,
    shared_after: SharedProcTable,
) -> bool {
    match (observation.socket, observation.peer_port) {
        (None, _) => {
            &&& after == before
            &&& ledger_after == ledger.push(
                Booking::System {
                    direction: observation.direction,
                    bytes: observation.bytes as nat,
                    observed_at: observation.observed_at as int,
                },
            )
            &&& shared_after == if shared.poisoned {
                shared
            } else {
                SharedProcTable {
                    table: ProcTable {
                        counters: ProcCounters {
                            no_local_socket: shared.table.counters.no_local_socket.wrapping_add(1),
                            ..shared.table.counters
                        },
                        ..shared.table
                    },
                    ..shared
                }
            }
        },
        (Some(_), None) => {
            &&& after == before
            &&& ledger_after == ledger.push(
                unattributed_booking(
                    observation.direction,
                    observation.bytes,
                    observation.observed_at,
                ),
            )
            &&& shared_after == shared
        },
        (Some(socket), Some(peer_port)) => {
            let found = shared_resolution(shared, socket, clock.read_at);
            let item = pending_item(observation, socket, peer_port, found, clock.now);
            &&& looked_up(
                shared,
                socket,
                Some((observation.peer_ip, peer_port)),
                true,
                observation.bytes,
                clock.read_at,
                shared_after,
            )
            &&& match found {
                Resolution::Exclusive(process) => {
                    &&& after == before
                    &&& ledger_after == ledger.push(item.charge(process, Evidence::Snapshot))
                },
                _ => exists|mid: PendingAttributor|
                    {
                        &&& #[trigger] pushed(before, ledger, item, started, mid, ledger_after)
                        &&& if before.capacity == 0 {
                            after == mid
                        } else {
                            &&& same_traffic(mid, after)
                            &&& after.side() == mid.side().probed(
                                mid.waiting(),
                                socket,
                                clock.now,
                            )
                        }
                    },
            }
        },
    }
}

impl PendingAttributor {
    /// Charges the traffic of an endpoint, or lets it wait for its owner.
    fn record_endpoint(
        &mut self,
        stats: &mut Stats,
        observation: EndpointObservation,
        proc_table: &mut SharedProcTable,
        clock: Clock,
        started: &StartTimes,
    )
        requires
            old(self).wf(),
            all_bytes(old(self).waiting()) + observation.bytes <= u64::MAX,
            old(self).counters.probe_request_queued < u64::MAX,
            old(self).counters.pending_capacity_bytes + all_bytes(old(self).waiting())
                + observation.bytes <= u64::MAX,
            clock.now + PENDING_ATTRIBUTION_PROBE_RETRY_INTERVAL <= u128::MAX,
        ensures
            final(self).wf(),
            final(self).history == old(self).history,
            endpoint_recorded(
                *old(self),
                old(stats)@,
                *old(proc_table),
                observation,
                clock,
                *started,
                *final(self),
                final(stats)@,
                *final(proc_table),
            ),
            all_bytes(final(self).waiting()) <= all_bytes(old(self).waiting())
                + observation.bytes,
            final(self).counters.pending_capacity_bytes + all_bytes(final(self).waiting()) <= old(
                self,
            ).counters.pending_capacity_bytes + all_bytes(old(self).waiting())
                + observation.bytes,
            final(self).counters.within(
                old(self).counters,
                Growth {
                    probe_request_queued: 1,
                    pending_capacity_bytes: all_bytes(old(self).waiting()) + observation.bytes
                        as nat,
                    ..Growth::none()
                },
            ),
            forall|way: Direction|
                charged_bytes(final(stats)@, way) + waiting_bytes(final(self).waiting(), way)
                    == charged_bytes(old(stats)@, way) + #[trigger] waiting_bytes(
                    old(self).waiting(),
                    way,
                ) + going(observation.direction, observation.bytes, way),
    {
        let ghost lines = stats@;
        let ghost waiting = self.waiting();
        let socket = match observation.socket {
            Some(socket) => socket,
            None => {
                if !proc_table.poisoned {
                    proc_table.table.record_no_local_socket();
                }
                stats.record_system(
                    observation.direction,
                    observation.bytes,
                    observation.observed_at,
                );
                proof {
                    assert forall|way: Direction|
                        charged_bytes(stats@, way) + waiting_bytes(self.waiting(), way)
                            == charged_bytes(lines, way) + #[trigger] waiting_bytes(waiting, way)
                            + going(observation.direction, observation.bytes, way) by {
                        lemma_charged_push(lines, stats@.last(), way);
                    }
                }
                return;
            },
        };
        let peer_port: u16 = match observation.peer_port {
            Some(peer_port) => peer_port,
            None => {
                stats.record_unattributed(
                    observation.direction,
                    observation.bytes,
                    observation.observed_at,
                );
                proof {
                    assert forall|way: Direction|
                        charged_bytes(stats@, way) + waiting_bytes(self.waiting(), way)
                            == charged_bytes(lines, way) + #[trigger] waiting_bytes(waiting, way)
                            + going(observation.direction, observation.bytes, way) by {
                        lemma_charged_push(lines, stats@.last(), way);
                    }
                }
                return;
            },
        };
        let ghost found = shared_resolution(*proc_table, socket, clock.read_at);
        let ghost view = pending_item(observation, socket, peer_port, found, clock.now);
        let resolved = lookup_process(
            proc_table,
            socket,
            Some((observation.peer_ip, peer_port)),
            true,
            observation.bytes,
            clock.read_at,
        );
        let mut candidates: Vec<ObservedProcess> = Vec::new();
        match resolved {
            Some(LookupResolved::Exclusive(process)) => {
                stats.record_process_evidence(
                    process,
                    observation.direction,
                    observation.bytes,
                    observation.observed_at,
                    Evidence::Snapshot,
                    ProcFlowKey::from_endpoint(socket, observation.peer_ip, peer_port),
                );
                proof {
                    assert forall|way: Direction|
                        charged_bytes(stats@, way) + waiting_bytes(self.waiting(), way)
                            == charged_bytes(lines, way) + #[trigger] waiting_bytes(waiting, way)
                            + going(observation.direction, observation.bytes, way) by {
                        lemma_charged_push(lines, stats@.last(), way);
                    }
                }
                return;
            },
            Some(LookupResolved::Ambiguous(several)) => {
                candidates = several;
            },
            _ => {},
        }
        let item = PendingAttribution {
            connection: ConnectionKey {
                local_socket: socket,
                peer_ip: observation.peer_ip,
                peer_port,
                direction: observation.direction,
            },
            bytes: observation.bytes,
            observed_at: observation.observed_at,
            candidates,
            pending_since: clock.now,
        };
        proof {
            assert(item.candidates@ =~= view.candidates);
            assert(item@ == view);
            if waiting.len() > 0 {
                lemma_item_bound(waiting, 0);
            }
        }
        let ghost before = *self;
        let waits = self.push_pending(stats, item, started);
        let ghost mid = *self;
        assert(pushed(before, lines, view, *started, mid, stats@));
        if waits {
            self.ensure_probe(socket, clock.now);
        }
    }
}

/// Whether `after` is what applying a probe's answers in turn leaves.
pub open spec fn results_applied(
    before: PendingAttributor,
    ledger: Seq<Booking>,
    results: Seq<ProbeResult>,
    now: u128,
    after: PendingAttributor,
    ledger_after: Seq<Booking>,
) -> bool
    decreases results.len(),
{
    if results.len() == 0 {
        after == before && ledger_after == ledger
    } else {
        exists|mid: PendingAttributor, lines: Seq<Booking>|
            {
                &&& results_applied(before, ledger, results.drop_last(), now, mid, lines)
                &&& #[trigger] result_applied(
                    mid,
                    lines,
                    results.last(),
                    now,
                    after,
                    ledger_after,
                )
            }
    }
}

/// Whether `after` is the attributor once the probe's answers are taken out.
pub open spec fn drained(
    before: PendingAttributor,
    after: PendingAttributor,
    results: Seq<ProbeResult>,
) -> bool {
    &&& after.same_setting(before)
    &&& after.pending == before.pending
    &&& after.probe_state == before.probe_state
    &&& after.counters == before.counters
    &&& after.probe is Some <==> before.probe is Some
    &&& before.probe is None ==> results.len() == 0
    &&& before.probe matches Some(probe) ==> {
        let left = after.probe->0;
        &&& left.results@.len() == 0
        &&& left.queue == probe.queue
        &&& left.next_request_id == probe.next_request_id
        &&& left.connected == probe.connected
        &&& left.metrics == probe.metrics
        &&& if probe.connected {
            results == probe.results@ && left.in_flight == probe.in_flight
        } else {
            &&& left.in_flight@ == Map::<LocalSocket, ProbeRequestId>::empty()
            &&& crate::process_probe::abandoned(probe.results@, probe.in_flight.slots@, results)
        }
    }
}

/// Whether `after` is what forgetting idle sockets leaves.
pub open spec fn cleaned(before: PendingAttributor, after: PendingAttributor) -> bool {
    &&& after.same_setting(before)
    &&& after.pending == before.pending
    &&& after.probe == before.probe
    &&& after.counters == before.counters
    &&& after.probe_state@ == tidied(before.probe_state@, before.waiting())
}

/// Whether `after` is what probing the sockets that are due, in some order, leaves.
pub open spec fn retried(before: PendingAttributor, now: u128, after: PendingAttributor) -> bool {
    &&& same_traffic(before, after)
    &&& exists|order: Seq<LocalSocket>|
        {
            &&& #[trigger] due_sockets(before.probe_state@, now, order)
            &&& after.side() == before.side().probed_all(before.waiting(), order, now)
        }
}

/// Whether `after` is what the passing of time leaves: the probe's answers are
/// applied, overdue traffic is charged, the process table is looked at, idle
/// sockets are forgotten, and sockets are probed again.
pub open spec fn advanced(
    before: PendingAttributor,
    ledger: Seq<Booking>,
    shared: SharedProcTable,
    clock: Clock,
    started: StartTimes,
    after: PendingAttributor,
    ledger_after: Seq<Booking>,
    shared_after: SharedProcTable,
) -> bool {
    exists|
        results: Seq<ProbeResult>,
        a: PendingAttributor,
        b: PendingAttributor,
        b_lines: Seq<Booking>,
        c: PendingAttributor,
        c_lines: Seq<Booking>,
        d: PendingAttributor,
        e: PendingAttributor,
    |
        {
            &&& #[trigger] drained(before, a, results)
            &&& #[trigger] results_applied(a, ledger, results, clock.now, b, b_lines)
            &&& #[trigger] expired_finalized(b, b_lines, clock.now, started, c, c_lines)
            &&& #[trigger] generation_resolved(
                c,
                c_lines,
                shared,
                clock,
                d,
                ledger_after,
                shared_after,
            )
            &&& #[trigger] cleaned(d, e)
            &&& #[trigger] retried(e, clock.now, after)
        }
}

/// By how much a list of answers can raise the counts while this traffic is pending.
pub open spec fn results_growth(results: Seq<ProbeResult>, pending: Seq<Pending>) -> Growth
    decreases results.len(),
{
    if results.len() == 0 {
        Growth::none()
    } else {
        results_growth(results.drop_last(), pending).plus(result_growth(results.last(), pending))
    }
}

/// By how much the counts can grow if the worker is gone and its requests are given up.
pub open spec fn abandoned_growth(
    under_way: Seq<(LocalSocket, ProbeRequestId)>,
    pending: Seq<Pending>,
) -> Growth
    decreases under_way.len(),
{
    if under_way.len() == 0 {
        Growth::none()
    } else {
        abandoned_growth(under_way.drop_last(), pending).plus(
            Growth {
                probe_result_unavailable: 1,
                probe_unavailable_pending_bytes: socket_bytes(pending, under_way.last().0),
                probe_result_dropped: 1,
                probe_result_late: 1,
                ..Growth::none()
            },
        )
    }
}

/// Some of the answers raise the counts by no more than all.
proof fn lemma_growth_prefix(results: Seq<ProbeResult>, n: int, pending: Seq<Pending>)
    requires
        0 <= n <= results.len(),
    ensures
        results_growth(results.take(n), pending).at_most(results_growth(results, pending)),
    decreases results.len(),
{
    if n == results.len() {
        assert(results.take(n) =~= results);
    } else {
        let shorter = results.drop_last();
        lemma_growth_prefix(shorter, n, pending);
        assert(shorter.take(n) =~= results.take(n));
    }
}

/// Some of the requests under way raise the counts by no more than all.
proof fn lemma_abandoned_prefix(
    under_way: Seq<(LocalSocket, ProbeRequestId)>,
    n: int,
    pending: Seq<Pending>,
)
    requires
        0 <= n <= under_way.len(),
    ensures
        abandoned_growth(under_way.take(n), pending).at_most(abandoned_growth(under_way, pending)),
    decreases under_way.len(),
{
    if n == under_way.len() {
        assert(under_way.take(n) =~= under_way);
    } else {
        let shorter = under_way.drop_last();
        lemma_abandoned_prefix(shorter, n, pending);
        assert(shorter.take(n) =~= under_way.take(n));
    }
}

/// Requests that are given up raise the counts as unavailable answers do.
proof fn lemma_abandoned_results(
    first: Seq<ProbeResult>,
    under_way: Seq<(LocalSocket, ProbeRequestId)>,
    results: Seq<ProbeResult>,
    pending: Seq<Pending>,
)
    requires
        crate::process_probe::abandoned(first, under_way, results),
    ensures
        results_growth(results, pending) == results_growth(first, pending).plus(
            abandoned_growth(under_way, pending),
        ),
    decreases under_way.len(),
{
    if under_way.len() == 0 {
        assert(results.take(first.len() as int) =~= results);
    } else {
        let last = under_way.len() - 1;
        let fewer = results.drop_last();
        assert(fewer.take(first.len() as int) =~= results.take(first.len() as int));
        assert forall|j: int| 0 <= j < last implies crate::process_probe::gone(
            under_way.drop_last()[j],
            #[trigger] fewer[first.len() + j],
        ) by {
            assert(crate::process_probe::gone(under_way[j], results[first.len() + j]));
        }
        lemma_abandoned_results(first, under_way.drop_last(), fewer, pending);
        assert(crate::process_probe::gone(under_way[last], results[first.len() + last]));
    }
}

impl PendingAttributor {
    /// By how much the answers that are taken out of the probe next can raise the counts.
    pub open spec fn answers_growth(self) -> Growth {
        match self.probe {
            Some(probe) => {
                let given = results_growth(probe.results@, self.waiting());
                if probe.connected {
                    given
                } else {
                    given.plus(abandoned_growth(probe.in_flight.slots@, self.waiting()))
                }
            },
            None => Growth::none(),
        }
    }

    /// By how much the passing of time can raise the counts.
    pub open spec fn time_growth(self) -> Growth {
        self.answers_growth().plus(
            Growth {
                probe_request_queued: self.probe_state@.dom().len(),
                pending_expired_bytes: all_bytes(self.waiting()),
                ..Growth::none()
            },
        )
    }

    /// By how much the counts can rise once time has passed and the flow, if any, is taken in.
    pub open spec fn read_growth(self, flow: Option<Flow>) -> Growth {
        match flow {
            Some(flow) => self.time_growth().plus(
                Growth {
                    probe_request_queued: end_count(flow),
                    pending_capacity_bytes: all_bytes(self.waiting()) + read_bytes(Some(flow)),
                    ..Growth::none()
                },
            ),
            None => self.time_growth(),
        }
    }

    /// Whether no count can overflow while time passes and the flow, if any, is taken in.
    pub open spec fn has_room(self, flow: Option<Flow>) -> bool {
        &&& all_bytes(self.waiting()) + read_bytes(flow) <= u64::MAX
        &&& self.counters.fit(self.read_growth(flow))
    }

    /// Takes the probe's answers out.
    fn drain_probe(&mut self) -> (results: Vec<ProbeResult>)
        requires
            old(self).wf(),
        ensures
            final(self).wf(),
            drained(*old(self), *final(self), results@),
            results_growth(results@, old(self).waiting()) == old(self).answers_growth(),
    {
        match self.probe.take() {
            Some(probe) => {
                let mut probe = probe;
                let ghost first = probe.results@;
                let ghost slots = probe.in_flight.slots@;
                let results = probe.drain_results();
                proof {
                    if !probe.connected {
                        lemma_abandoned_results(first, slots, results@, old(self).waiting());
                    }
                }
                self.probe = Some(probe);
                results
            },
            None => {
                let results: Vec<ProbeResult> = Vec::new();
                results
            },
        }
    }

    /// Applies the probe's answers in turn.
    fn apply_probe_results(
        &mut self,
        stats: &mut Stats,
        results: Vec<ProbeResult>,
        now: u128,
    )
        requires
            old(self).wf(),
            all_bytes(old(self).waiting()) <= u64::MAX,
            old(self).counters.fit(results_growth(results@, old(self).waiting())),
            now + PENDING_ATTRIBUTION_PROBE_RETRY_INTERVAL <= u128::MAX,
        ensures
            final(self).wf(),
            results_applied(*old(self), old(stats)@, results@, now, *final(self), final(stats)@),
            final(self).history == old(self).history,
            all_bytes(final(self).waiting()) <= all_bytes(old(self).waiting()),
            final(self).counters.within(
                old(self).counters,
                results_growth(results@, old(self).waiting()),
            ),
            final(self).probe_state@.dom().subset_of(old(self).probe_state@.dom()),
            forall|way: Direction|
                charged_bytes(final(stats)@, way) + waiting_bytes(final(self).waiting(), way)
                    == charged_bytes(old(stats)@, way) + #[trigger] waiting_bytes(
                    old(self).waiting(),
                    way,
                ),
    {
        let ghost waiting = self.waiting();
        let ghost given = results@;
        let mut results = results;
        let ghost mut done: int = 0;
        proof {
            assert(given.skip(0) =~= given);
            assert(given.take(0) =~= Seq::<ProbeResult>::empty());
        }
        while results.len() > 0
            invariant
                0 <= done <= given.len(),
                results@ == given.skip(done),
                waiting == old(self).waiting(),
                all_bytes(waiting) <= u64::MAX,
                now + PENDING_ATTRIBUTION_PROBE_RETRY_INTERVAL <= u128::MAX,
                self.wf(),
                results_applied(
                    *old(self),
                    old(stats)@,
                    given.take(done),
                    now,
                    *self,
                    stats@,
                ),
                self.history == old(self).history,
                all_bytes(self.waiting()) <= all_bytes(waiting),
                forall|socket: LocalSocket| #[trigger]
                    socket_bytes(self.waiting(), socket) <= socket_bytes(waiting, socket),
                old(self).counters.fit(results_growth(given, waiting)),
                self.counters.within(old(self).counters, results_growth(given.take(done), waiting)),
                self.probe_state@.dom().subset_of(old(self).probe_state@.dom()),
                forall|way: Direction|
                    charged_bytes(stats@, way) + waiting_bytes(self.waiting(), way)
                        == charged_bytes(old(stats)@, way) + #[trigger] waiting_bytes(
                        waiting,
                        way,
                    ),
            decreases results@.len(),
        {
            let ghost before = *self;
            let ghost lines = stats@;
            proof {
                let next = given.take(done + 1);
                assert(next.drop_last() =~= given.take(done));
                assert(next.last() == results@[0]);
                lemma_growth_prefix(given, done + 1, waiting);
                let socket = results@[0].socket_spec();
                assert(socket_bytes(self.waiting(), socket) <= socket_bytes(waiting, socket));
                lemma_still_waiting(self.waiting(), results@[0]);
            }
            let result = results.remove(0);
            let ghost first = result;
            self.apply_probe_result(stats, result, now);
            proof {
                assert(results@ =~= given.skip(done + 1));
                assert(given.skip(done).skip(1) =~= given.skip(done + 1));
                let longer = given.take(done + 1);
                assert(longer.drop_last() =~= given.take(done));
                assert(longer.last() == first);
                assert(result_applied(before, lines, first, now, *self, stats@));
                assert forall|socket: LocalSocket| #[trigger]
                    socket_bytes(self.waiting(), socket) <= socket_bytes(waiting, socket) by {
                    lemma_fewer_bytes(
                        before.waiting(),
                        first,
                        |item: Pending| item.socket() == socket,
                    );
                    assert(socket_bytes(before.waiting(), socket) <= socket_bytes(
                        waiting,
                        socket,
                    ));
                }
                done = done + 1;
            }
        }
        assert(given.take(done) =~= given);
    }
}

/// The traffic of a flow at its own endpoint.
pub open spec fn own_endpoint(flow: Flow, observed_at: i128) -> EndpointObservation {
    EndpointObservation {
        socket: flow.local_socket,
        direction: flow.direction,
        peer_ip: flow.peer,
        peer_port: flow.peer_port,
        bytes: flow.bytes,
        observed_at,
    }
}

/// The traffic of a flow between two local sockets at the receiving endpoint.
pub open spec fn peer_endpoint(
    peer_socket: LocalSocket,
    local_socket: LocalSocket,
    bytes: u64,
    observed_at: i128,
) -> EndpointObservation {
    EndpointObservation {
        socket: Some(peer_socket),
        direction: Direction::Inbound,
        peer_ip: local_socket.ip,
        peer_port: Some(local_socket.port),
        bytes,
        observed_at,
    }
}

/// At how many ends a flow is charged.
pub open spec fn end_count(flow: Flow) -> nat {
    if has_two_endpoints(flow) {
        2
    } else {
        1
    }
}

/// The bytes that are charged for what a read gave, over its ends.
pub open spec fn read_bytes(flow: Option<Flow>) -> nat {
    match flow {
        Some(flow) => if has_two_endpoints(flow) {
            2 * flow.bytes as nat
        } else {
            flow.bytes as nat
        },
        None => 0,
    }
}

/// Whether a flow is charged at both its endpoints.
pub open spec fn has_two_endpoints(flow: Flow) -> bool {
    flow.peer_local_socket is Some && flow.local_socket is Some
}

/// The bytes of a flow that are charged in a direction, over its endpoints.
pub open spec fn endpoint_bytes(flow: Flow, way: Direction) -> nat {
    going(flow.direction, flow.bytes, way) + if has_two_endpoints(flow) {
        going(Direction::Inbound, flow.bytes, way)
    } else {
        0
    }
}

/// Whether `after` is what a flow leaves: time passes, the flow is booked on the
/// interface and for its host name, and its bytes are charged at its endpoints.
pub open spec fn flow_recorded(
    before: PendingAttributor,
    ledger: Seq<Booking>,
    shared: SharedProcTable,
    flow: Flow,
    clock: Clock,
    observed_at: i128,
    started: StartTimes,
    after: PendingAttributor,
    ledger_after: Seq<Booking>,
    shared_after: SharedProcTable,
) -> bool {
    exists|
        a: PendingAttributor,
        a_lines: Seq<Booking>,
        a_shared: SharedProcTable,
        b: PendingAttributor,
        b_lines: Seq<Booking>,
        b_shared: SharedProcTable,
    |
        {
            &&& #[trigger] advanced(
                before,
                ledger,
                shared,
                clock,
                started,
                a,
                a_lines,
                a_shared,
            )
            &&& #[trigger] endpoint_recorded(
                a,
                a_lines.push(interface_booking(flow, observed_at)).push(
                    domain_booking(flow, observed_at),
                ),
                a_shared,
                own_endpoint(flow, observed_at),
                clock,
                started,
                b,
                b_lines,
                b_shared,
            )
            &&& if has_two_endpoints(flow) {
                endpoint_recorded(
                    b,
                    b_lines,
                    b_shared,
                    peer_endpoint(
                        flow.peer_local_socket->0,
                        flow.local_socket->0,
                        flow.bytes,
                        observed_at,
                    ),
                    clock,
                    started,
                    after,
                    ledger_after,
                    shared_after,
                )
            } else {
                after == b && ledger_after == b_lines && shared_after == b_shared
            }
        }
}

proof fn lemma_tidied_domain(states: Map<LocalSocket, ProbeState>, pending: Seq<Pending>)
    ensures
        tidied(states, pending).dom().subset_of(states.dom()),
{
}

impl PendingAttributor {
    /// Lets time pass.
    pub fn advance(
        &mut self,
        stats: &mut Stats,
        proc_table: &mut SharedProcTable,
        clock: Clock,
        started: &StartTimes,
    )
        requires
            old(self).wf(),
            old(self).has_room(None),
            clock.now + PENDING_ATTRIBUTION_PROBE_RETRY_INTERVAL <= u128::MAX,
            i128::MIN <= clock.wall - old(self).history.retention <= i128::MAX,
        ensures
            final(self).wf(),
            advanced(
                *old(self),
                old(stats)@,
                *old(proc_table),
                clock,
                *started,
                *final(self),
                final(stats)@,
                *final(proc_table),
            ),
            final(self).counters.within(old(self).counters, old(self).time_growth()),
            all_bytes(final(self).waiting()) <= all_bytes(old(self).waiting()),
            forall|way: Direction|
                charged_bytes(final(stats)@, way) + waiting_bytes(final(self).waiting(), way)
                    == charged_bytes(old(stats)@, way) + #[trigger] waiting_bytes(
                    old(self).waiting(),
                    way,
                ),
            forall|way: Direction| #[trigger]
                crossed_bytes(final(stats)@, way) == crossed_bytes(old(stats)@, way),
    {
        let ghost before = *self;
        let ghost ledger = stats@;
        let ghost shared = *proc_table;
        let results = self.drain_probe();
        let ghost given = results@;
        let ghost a = *self;
        proof {
            crate::socket_map::lemma_as_map_len(self.probe_state.slots@);
        }
        self.apply_probe_results(stats, results, clock.now);
        let ghost b = *self;
        let ghost b_lines = stats@;
        self.finalize_expired(stats, clock.now, started);
        let ghost c = *self;
        let ghost c_lines = stats@;
        proof {
            let n = overdue(b.waiting(), clock.now, b.window);
            lemma_bytes_split(b.waiting(), n);
            assert(c.probe_state@.dom() =~= b.probe_state@.dom());
        }
        self.resolve_pending_on_generation_change(stats, proc_table, clock);
        let ghost d = *self;
        self.cleanup_idle_probe_state();
        let ghost e = *self;
        proof {
            lemma_tidied_domain(d.probe_state@, d.waiting());
            assert(e.probe_state@.dom().subset_of(before.probe_state@.dom()));
            vstd::set_lib::lemma_len_subset(e.probe_state@.dom(), before.probe_state@.dom());
        }
        self.retry_due_probes(clock.now);
        proof {
            assert(drained(before, a, given));
            assert(results_applied(a, ledger, given, clock.now, b, b_lines));
            assert(expired_finalized(b, b_lines, clock.now, *started, c, c_lines));
            assert(generation_resolved(c, c_lines, shared, clock, d, stats@, *proc_table));
            assert(cleaned(d, e));
            assert(retried(e, clock.now, *self));
            lemma_time_only_charges(
                before,
                ledger,
                shared,
                clock,
                *started,
                *self,
                stats@,
                *proc_table,
            );
            assert forall|way: Direction| #[trigger]
                crossed_bytes(stats@, way) == crossed_bytes(ledger, way) by {
                lemma_only_charges(ledger, stats@, way);
            }
        }
    }

    /// Takes a flow in. Whatever becomes of its bytes, what is charged and what
    /// waits together grow by exactly the bytes at its endpoints.
    pub fn record_flow(
        &mut self,
        stats: &mut Stats,
        flow: Flow,
        proc_table: &mut SharedProcTable,
        clock: Clock,
        observed_at: i128,
        started: &StartTimes,
    )
        requires
            old(self).wf(),
            old(self).has_room(Some(flow)),
            clock.now + PENDING_ATTRIBUTION_PROBE_RETRY_INTERVAL <= u128::MAX,
            i128::MIN <= clock.wall - old(self).history.retention <= i128::MAX,
        ensures
            final(self).wf(),
            flow_recorded(
                *old(self),
                old(stats)@,
                *old(proc_table),
                flow,
                clock,
                observed_at,
                *started,
                *final(self),
                final(stats)@,
                *final(proc_table),
            ),
            forall|way: Direction|
                charged_bytes(final(stats)@, way) + waiting_bytes(final(self).waiting(), way)
                    == charged_bytes(old(stats)@, way) + #[trigger] waiting_bytes(
                    old(self).waiting(),
                    way,
                ) + endpoint_bytes(flow, way),
            forall|way: Direction| #[trigger]
                crossed_bytes(final(stats)@, way) == crossed_bytes(old(stats)@, way) + crossed_by(
                    flow,
                    way,
                ),
    {
        let ghost before = *self;
        let ghost ledger = stats@;
        let ghost shared = *proc_table;
        let ghost waiting = self.waiting();
        self.advance(stats, proc_table, clock, started);
        let ghost a = *self;
        let ghost a_lines = stats@;
        let ghost a_shared = *proc_table;
        stats.record_interface_flow(&flow, observed_at);
        let ghost with_interface = stats@;
        stats.record_outbound_domain(&flow, observed_at);
        let ghost lines = stats@;
        proof {
            assert forall|way: Direction| charged_bytes(lines, way) == #[trigger] charged_bytes(
                a_lines,
                way,
            ) by {
                lemma_charged_push(a_lines, interface_booking(flow, observed_at), way);
                lemma_charged_push(with_interface, domain_booking(flow, observed_at), way);
            }
        }
        self.record_endpoint(
            stats,
            EndpointObservation {
                socket: flow.local_socket,
                direction: flow.direction,
                peer_ip: flow.peer,
                peer_port: flow.peer_port,
                bytes: flow.bytes,
                observed_at,
            },
            proc_table,
            clock,
            started,
        );
        let ghost b = *self;
        let ghost b_lines = stats@;
        let ghost b_shared = *proc_table;
        proof {
            assert(endpoint_recorded(
                a,
                lines,
                a_shared,
                own_endpoint(flow, observed_at),
                clock,
                *started,
                b,
                b_lines,
                b_shared,
            ));
        }
        if let Some(peer_socket) = flow.peer_local_socket {
            if let Some(local_socket) = flow.local_socket {
                self.record_endpoint(
                    stats,
                    EndpointObservation {
                        socket: Some(peer_socket),
                        direction: Direction::Inbound,
                        peer_ip: local_socket.ip,
                        peer_port: Some(local_socket.port),
                        bytes: flow.bytes,
                        observed_at,
                    },
                    proc_table,
                    clock,
                    started,
                );
            }
        }
        proof {
            assert(advanced(before, ledger, shared, clock, *started, a, a_lines, a_shared));
            assert forall|way: Direction|
                charged_bytes(stats@, way) + waiting_bytes(self.waiting(), way) == charged_bytes(
                    ledger,
                    way,
                ) + #[trigger] waiting_bytes(waiting, way) + endpoint_bytes(flow, way) by {
                assert(charged_bytes(a_lines, way) + waiting_bytes(a.waiting(), way)
                    == charged_bytes(ledger, way) + waiting_bytes(waiting, way));
                assert(charged_bytes(b_lines, way) + waiting_bytes(b.waiting(), way)
                    == charged_bytes(lines, way) + waiting_bytes(a.waiting(), way) + going(
                    flow.direction,
                    flow.bytes,
                    way,
                ));
                assert(waiting_bytes(b.waiting(), way) >= 0);
            }
            assert forall|way: Direction| #[trigger]
                crossed_bytes(stats@, way) == crossed_bytes(ledger, way) + crossed_by(
                    flow,
                    way,
                ) by {
                lemma_flow_crosses_once(
                    before,
                    ledger,
                    shared,
                    flow,
                    clock,
                    observed_at,
                    *started,
                    *self,
                    stats@,
                    *proc_table,
                    way,
                );
            }
        }
    }

    /// The bytes of all pending traffic.
    pub fn pending_bytes(&self) -> (bytes: u64)
        requires
            all_bytes(self.waiting()) <= u64::MAX,
        ensures
            bytes == all_bytes(self.waiting()),
    {
        let ghost pick = |item: Pending| true;
        let ghost waiting = self.waiting();
        let mut bytes: u64 = 0;
        let mut i: usize = 0;
        assert(waiting.take(0) =~= Seq::<Pending>::empty());
        while i < self.pending.len()
            invariant
                i <= self.pending@.len(),
                waiting == self.waiting(),
                all_bytes(waiting) <= u64::MAX,
                pick == (|item: Pending| true),
                bytes == bytes_where(waiting.take(i as int), pick),
            decreases self.pending@.len() - i,
        {
            proof {
                assert(waiting.take(i + 1).drop_last() =~= waiting.take(i as int));
                lemma_bytes_prefix(waiting, i + 1, pick);
                assert(waiting[i as int] == self.pending@[i as int]@);
            }
            bytes = bytes + self.pending[i].bytes;
            i += 1;
        }
        assert(waiting.take(i as int) =~= waiting);
        bytes
    }

    /// The pending traffic and the probe's work, in numbers.
    pub fn snapshot(&self) -> (snapshot: PendingAttributionSnapshot)
        requires
            all_bytes(self.waiting()) <= u64::MAX,
        ensures
            snapshot.records == self.pending@.len(),
            snapshot.bytes == all_bytes(self.waiting()),
            snapshot.counters == self.counters,
            match self.probe {
                Some(probe) => {
                    &&& snapshot.probe_query_count == probe.metrics.query_count
                    &&& snapshot.probe_query_ms == probe.metrics.query_duration_nanos / 1_000_000
                    &&& snapshot.probe_last_query_ms == probe.metrics.last_query_duration_nanos
                        / 1_000_000
                },
                None => {
                    &&& snapshot.probe_query_count == 0
                    &&& snapshot.probe_query_ms == 0
                    &&& snapshot.probe_last_query_ms == 0
                },
            },
    {
        let (count, total, last): (u64, u64, u64) = match &self.probe {
            Some(probe) => (
                probe.metrics.query_count,
                probe.metrics.query_duration_nanos / 1_000_000,
                probe.metrics.last_query_duration_nanos / 1_000_000,
            ),
            None => (0, 0, 0),
        };
        PendingAttributionSnapshot {
            records: self.pending.len(),
            bytes: self.pending_bytes(),
            counters: self.counters,
            probe_query_count: count,
            probe_query_ms: total,
            probe_last_query_ms: last,
        }
    }
}

/// By how much an answer can raise the counts, where `bytes` wait on its socket.
fn growth_by(result: &ProbeResult, bytes: u64) -> (growth: AttributionCounters)
    ensures
        growth.amounts() == answer_growth(*result, bytes as nat),
{
    let mut growth = AttributionCounters::zero();
    growth.probe_result_dropped = 1;
    growth.probe_result_late = 1;
    match result {
        ProbeResult::Unique { .. } => {
            growth.probe_result_unique = 1;
            growth.probe_unique_pending_bytes = bytes;
        },
        ProbeResult::ConnectionMatches { matches, .. } => {
            growth.probe_result_unique = matches.len() as u64;
            growth.probe_unique_pending_bytes = bytes;
        },
        ProbeResult::Ambiguous { .. } => {
            growth.probe_result_ambiguous = 1;
            growth.probe_ambiguous_pending_bytes = bytes;
        },
        ProbeResult::NotFound { .. } => {
            growth.probe_result_not_found = 1;
            growth.probe_not_found_pending_bytes = bytes;
        },
        ProbeResult::Unavailable { .. } => {
            growth.probe_result_unavailable = 1;
            growth.probe_unavailable_pending_bytes = bytes;
        },
    }
    growth
}

impl AttributionCounters {
    /// Whether every count can grow by so much.
    fn has_room_for(&self, by: &AttributionCounters) -> (room: bool)
        ensures
            room == self.fit(by.amounts()),
    {
        self.probe_request_queued <= u64::MAX - by.probe_request_queued
            && self.probe_result_unique <= u64::MAX - by.probe_result_unique
            && self.probe_result_not_found <= u64::MAX - by.probe_result_not_found
            && self.probe_result_ambiguous <= u64::MAX - by.probe_result_ambiguous
            && self.probe_result_unavailable <= u64::MAX - by.probe_result_unavailable
            && self.probe_result_dropped <= u64::MAX - by.probe_result_dropped
            && self.probe_result_late <= u64::MAX - by.probe_result_late
            && self.pending_expired_bytes <= u64::MAX - by.pending_expired_bytes
            && self.pending_capacity_bytes <= u64::MAX - by.pending_capacity_bytes
            && self.probe_unique_pending_bytes <= u64::MAX - by.probe_unique_pending_bytes
            && self.probe_not_found_pending_bytes <= u64::MAX - by.probe_not_found_pending_bytes
            && self.probe_ambiguous_pending_bytes <= u64::MAX - by.probe_ambiguous_pending_bytes
            && self.probe_unavailable_pending_bytes <= u64::MAX - by.probe_unavailable_pending_bytes
    }

    /// The counts after they have grown by so much.
    fn raise(&mut self, by: &AttributionCounters)
        requires
            old(self).fit(by.amounts()),
        ensures
            final(self).amounts() == old(self).amounts().plus(by.amounts()),
    {
        self.probe_request_queued = self.probe_request_queued + by.probe_request_queued;
        self.probe_result_unique = self.probe_result_unique + by.probe_result_unique;
        self.probe_result_not_found = self.probe_result_not_found + by.probe_result_not_found;
        self.probe_result_ambiguous = self.probe_result_ambiguous + by.probe_result_ambiguous;
        self.probe_result_unavailable = self.probe_result_unavailable + by.probe_result_unavailable;
        self.probe_result_dropped = self.probe_result_dropped + by.probe_result_dropped;
        self.probe_result_late = self.probe_result_late + by.probe_result_late;
        self.pending_expired_bytes = self.pending_expired_bytes + by.pending_expired_bytes;
        self.pending_capacity_bytes = self.pending_capacity_bytes + by.pending_capacity_bytes;
        self.probe_unique_pending_bytes = self.probe_unique_pending_bytes + by.probe_unique_pending_bytes;
        self.probe_not_found_pending_bytes = self.probe_not_found_pending_bytes + by.probe_not_found_pending_bytes;
        self.probe_ambiguous_pending_bytes = self.probe_ambiguous_pending_bytes + by.probe_ambiguous_pending_bytes;
        self.probe_unavailable_pending_bytes = self.probe_unavailable_pending_bytes + by.probe_unavailable_pending_bytes;
    }
}

impl PendingAttributor {
    /// The bytes of all pending traffic, if they fit 64 bits.
    fn checked_pending_bytes(&self) -> (bytes: Option<u64>)
        ensures
            bytes matches Some(bytes) ==> bytes == all_bytes(self.waiting()),
            bytes is None ==> all_bytes(self.waiting()) > u64::MAX,
    {
        let ghost pick = |item: Pending| true;
        let ghost waiting = self.waiting();
        let mut bytes: u64 = 0;
        let mut i: usize = 0;
        assert(waiting.take(0) =~= Seq::<Pending>::empty());
        while i < self.pending.len()
            invariant
                i <= self.pending@.len(),
                waiting == self.waiting(),
                pick == (|item: Pending| true),
                bytes == bytes_where(waiting.take(i as int), pick),
            decreases self.pending@.len() - i,
        {
            proof {
                assert(waiting.take(i + 1).drop_last() =~= waiting.take(i as int));
                lemma_bytes_prefix(waiting, i + 1, pick);
                assert(waiting[i as int] == self.pending@[i as int]@);
            }
            match bytes.checked_add(self.pending[i].bytes) {
                Some(sum) => {
                    bytes = sum;
                },
                None => {
                    return None;
                },
            }
            i += 1;
        }
        assert(waiting.take(i as int) =~= waiting);
        Some(bytes)
    }

    /// Raises counts by what the given answers can raise them, as far as that fits.
    fn raise_for_results(&self, most: &mut AttributionCounters, results: &Vec<ProbeResult>) -> (fits:
        bool)
        requires
            self.wf(),
            all_bytes(self.waiting()) <= u64::MAX,
        ensures
            fits == old(most).fit(results_growth(results@, self.waiting())),
            fits ==> final(most).amounts() == old(most).amounts().plus(
                results_growth(results@, self.waiting()),
            ),
    {
        let ghost start = *most;
        let ghost waiting = self.waiting();
        let mut i: usize = 0;
        assert(results@.take(0).len() == 0);
        while i < results.len()
            invariant
                i <= results@.len(),
                self.wf(),
                waiting == self.waiting(),
                all_bytes(waiting) <= u64::MAX,
                start == *old(most),
                most.amounts() == start.amounts().plus(
                    results_growth(results@.take(i as int), waiting),
                ),
            decreases results@.len() - i,
        {
            let result = &results[i];
            let bytes: u64 = self.pending_bytes_for_socket(result.socket());
            let growth = growth_by(result, bytes);
            proof {
                assert(results@.take(i + 1).drop_last() =~= results@.take(i as int));
                lemma_growth_prefix(results@, i + 1, waiting);
            }
            if !most.has_room_for(&growth) {
                return false;
            }
            most.raise(&growth);
            i += 1;
        }
        assert(results@.take(i as int) =~= results@);
        true
    }

    /// Raises counts by what giving up the requests under way can raise them, as far as that
    /// fits.
    fn raise_for_abandoned(
        &self,
        most: &mut AttributionCounters,
        under_way: &Vec<(LocalSocket, ProbeRequestId)>,
    ) -> (fits: bool)
        requires
            self.wf(),
            all_bytes(self.waiting()) <= u64::MAX,
        ensures
            fits == old(most).fit(abandoned_growth(under_way@, self.waiting())),
            fits ==> final(most).amounts() == old(most).amounts().plus(
                abandoned_growth(under_way@, self.waiting()),
            ),
    {
        let ghost start = *most;
        let ghost waiting = self.waiting();
        let mut i: usize = 0;
        assert(under_way@.take(0).len() == 0);
        while i < under_way.len()
            invariant
                i <= under_way@.len(),
                self.wf(),
                waiting == self.waiting(),
                all_bytes(waiting) <= u64::MAX,
                start == *old(most),
                most.amounts() == start.amounts().plus(
                    abandoned_growth(under_way@.take(i as int), waiting),
                ),
            decreases under_way@.len() - i,
        {
            let mut growth = AttributionCounters::zero();
            growth.probe_result_unavailable = 1;
            growth.probe_unavailable_pending_bytes = self.pending_bytes_for_socket(under_way[i].0);
            growth.probe_result_dropped = 1;
            growth.probe_result_late = 1;
            proof {
                assert(under_way@.take(i + 1).drop_last() =~= under_way@.take(i as int));
                lemma_abandoned_prefix(under_way@, i + 1, waiting);
            }
            if !most.has_room_for(&growth) {
                return false;
            }
            most.raise(&growth);
            i += 1;
        }
        assert(under_way@.take(i as int) =~= under_way@);
        true
    }

    /// Whether no count can overflow while time passes and the flow, if any, is taken in.
    pub fn can_take(&self, flow: &Option<Flow>) -> (room: bool)
        requires
            self.wf(),
        ensures
            room == self.has_room(*flow),
    {
        proof {
            crate::socket_map::lemma_as_map_len(self.probe_state.slots@);
        }
        let pending: u64 = match self.checked_pending_bytes() {
            Some(pending) => pending,
            None => {
                return false;
            },
        };
        let (ends, taken): (u64, u64) = match flow {
            Some(flow) => if flow.peer_local_socket.is_some() && flow.local_socket.is_some() {
                match flow.bytes.checked_mul(2) {
                    Some(taken) => (2, taken),
                    None => {
                        return false;
                    },
                }
            } else {
                (1, flow.bytes)
            },
            None => (0, 0),
        };
        let all: u64 = match pending.checked_add(taken) {
            Some(all) => all,
            None => {
                return false;
            },
        };
        let mut most = self.counters;
        if let Some(probe) = &self.probe {
            if !self.raise_for_results(&mut most, &probe.results) {
                return false;
            }
            if !probe.connected {
                if !self.raise_for_abandoned(&mut most, &probe.in_flight.slots) {
                    return false;
                }
            }
        }
        let mut rest = AttributionCounters::zero();
        rest.probe_request_queued = match (self.probe_state.len() as u64).checked_add(ends) {
            Some(queued) => queued,
            None => {
                return false;
            },
        };
        rest.pending_expired_bytes = pending;
        if flow.is_some() {
            rest.pending_capacity_bytes = all;
        }
        most.has_room_for(&rest)
    }

    /// The numbers of the processes that the interval log names.
    pub fn logged_pids(&self) -> (pids: Vec<u32>)
        ensures
            pids@.len() == self.history.intervals@.len(),
            forall|i: int|
                0 <= i < pids@.len() ==> #[trigger] pids@[i] == self.history.intervals@[i].pid,
    {
        let mut pids: Vec<u32> = Vec::new();
        let mut i: usize = 0;
        while i < self.history.intervals.len()
            invariant
                i <= self.history.intervals@.len(),
                pids@.len() == i,
                forall|k: int|
                    0 <= k < i ==> #[trigger] pids@[k] == self.history.intervals@[k].pid,
            decreases self.history.intervals@.len() - i,
        {
            pids.push(self.history.intervals[i].pid);
            i += 1;
        }
        pids
    }
}

/// The bytes of one direction that are charged or wait for their owner.
pub open spec fn accounted(lines: Seq<Booking>, waiting: Seq<Pending>, way: Direction) -> nat {
    charged_bytes(lines, way) + waiting_bytes(waiting, way)
}

/// The bytes of one direction that one read of the capture gave, at both ends.
pub open spec fn taken_in(flow: Option<Flow>, way: Direction) -> nat {
    match flow {
        Some(flow) => endpoint_bytes(flow, way),
        None => 0,
    }
}

impl PendingAttributor {
    /// Takes in what one read of the capture gave: a flow, or nothing but the passing of
    /// time.
    pub fn process_next(
        &mut self,
        stats: &mut Stats,
        flow: Option<Flow>,
        proc_table: &mut SharedProcTable,
        clock: Clock,
        observed_at: i128,
        started: &StartTimes,
    )
        requires
            old(self).wf(),
            old(self).has_room(flow),
            clock.now + PENDING_ATTRIBUTION_PROBE_RETRY_INTERVAL <= u128::MAX,
            i128::MIN <= clock.wall - old(self).history.retention <= i128::MAX,
        ensures
            final(self).wf(),
            match flow {
                Some(flow) => flow_recorded(
                    *old(self),
                    old(stats)@,
                    *old(proc_table),
                    flow,
                    clock,
                    observed_at,
                    *started,
                    *final(self),
                    final(stats)@,
                    *final(proc_table),
                ),
                None => advanced(
                    *old(self),
                    old(stats)@,
                    *old(proc_table),
                    clock,
                    *started,
                    *final(self),
                    final(stats)@,
                    *final(proc_table),
                ),
            },
            forall|way: Direction| #[trigger]
                accounted(final(stats)@, final(self).waiting(), way) == accounted(
                    old(stats)@,
                    old(self).waiting(),
                    way,
                ) + taken_in(flow, way),
            forall|way: Direction| #[trigger]
                crossed_bytes(final(stats)@, way) == crossed_bytes(old(stats)@, way) + crossed_in(
                    flow,
                    way,
                ),
    {
        match flow {
            Some(flow) => self.record_flow(stats, flow, proc_table, clock, observed_at, started),
            None => self.advance(stats, proc_table, clock, started),
        }
    }
}

} // verus!
