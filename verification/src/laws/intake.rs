//! How a flow enters the ledger, and what becomes of traffic whose owner is not known at once.

use vstd::prelude::*;

use crate::attribution::{
    advanced, endpoint_recorded, flow_recorded, has_two_endpoints, looked_up, observed_info,
    own_endpoint, peer_endpoint, pending_item, pushed, same_traffic, settlement,
    shared_resolution, waits_on, Clock, ConnectionKey, EndpointObservation,
    Pending, PendingAttributor, Resolution, SharedProcTable,
};
use crate::capture::Flow;
use crate::conservation::{lemma_endpoint_only_charges, lemma_time_only_charges};
use crate::history::StartTimes;
use crate::laws::owners::{
    answered_at, lemma_candidates_gather, lemma_key, lemma_listed, lemma_none_picked,
    lemma_one_picked, up_to_date,
};
use crate::net::{Direction, IpAddr, LocalSocket};
use crate::proc_table::{
    candidates_for, LookupMissReason, LookupMissSample, ProcEntry, ProcInfo,
    RefreshSlot,
};
use crate::stats::{
    domain_booking, interface_booking, Booking, Evidence, ObservedProcess, ProcFlowKey,
};
use crate::text::text_view;

verus! {

/// Traffic that is to wait while nothing may wait is nobody's at once, and its bytes count as
/// turned away.
pub proof fn lemma_without_room_traffic_is_nobodys(
    before: PendingAttributor,
    ledger: Seq<Booking>,
    item: Pending,
    started: StartTimes,
    after: PendingAttributor,
    ledger_after: Seq<Booking>,
)
    requires
        pushed(before, ledger, item, started, after, ledger_after),
        before.capacity == 0,
        before.counters.pending_capacity_bytes + item.bytes <= u64::MAX,
    ensures
        ledger_after == ledger.push(
            Booking::Unattributed {
                direction: item.connection.direction,
                bytes: item.bytes as nat,
                observed_at: item.observed_at as int,
            },
        ),
        after.waiting() == before.waiting(),
        after.counters.pending_capacity_bytes == before.counters.pending_capacity_bytes
            + item.bytes,
{
}

/// More traffic of a connection that waits already adds its bytes to what waits. The two have
/// waited since the first of them came, they were seen when the second was, and the candidates
/// of both are theirs. Nothing is charged.
pub proof fn lemma_traffic_of_a_connection_waits_together(
    before: PendingAttributor,
    ledger: Seq<Booking>,
    item: Pending,
    started: StartTimes,
    after: PendingAttributor,
    ledger_after: Seq<Booking>,
    i: int,
)
    requires
        pushed(before, ledger, item, started, after, ledger_after),
        before.capacity > 0,
        0 <= i < before.waiting().len(),
        before.waiting()[i].connection == item.connection,
        before.waiting()[i].bytes + item.bytes <= u64::MAX,
    ensures
        ledger_after == ledger,
        after.waiting().len() == before.waiting().len(),
        forall|j: int|
            0 <= j < before.waiting().len() && j != i ==> #[trigger] after.waiting()[j]
                == before.waiting()[j],
        after.waiting()[i].connection == item.connection,
        after.waiting()[i].bytes == before.waiting()[i].bytes + item.bytes,
        after.waiting()[i].observed_at == item.observed_at,
        after.waiting()[i].pending_since == before.waiting()[i].pending_since,
        before.waiting()[i].candidates.len() <= after.waiting()[i].candidates.len(),
        forall|c: int|
            0 <= c < before.waiting()[i].candidates.len()
                ==> #[trigger] after.waiting()[i].candidates[c] == before.waiting()[i].candidates[c],
        forall|x: int|
            0 <= x < item.candidates.len() ==> exists|c: int|
                0 <= c < after.waiting()[i].candidates.len() && (
                #[trigger] after.waiting()[i].candidates[c]).pid == (
                #[trigger] item.candidates[x]).pid && text_view(
                    after.waiting()[i].candidates[c].path,
                ) == text_view(item.candidates[x].path),
{
    let waiting = before.waiting();
    assert(waits_on(waiting, item.connection)) by {
        assert(waiting[i].connection == item.connection);
    }
    lemma_candidates_gather(waiting[i].candidates, item.candidates);
    let kept = after.waiting()[i].candidates;
    assert(kept == crate::attribution::merged(waiting[i].candidates, item.candidates));
    assert forall|x: int| 0 <= x < item.candidates.len() implies exists|c: int|
        0 <= c < kept.len() && (#[trigger] kept[c]).pid == (#[trigger] item.candidates[x]).pid
            && text_view(kept[c].path) == text_view(item.candidates[x].path) by {}
}

/// Traffic of a new connection waits behind all other. If that is one too many, the oldest is
/// charged as if its wait were over, and its bytes count as pushed out.
pub proof fn lemma_the_oldest_makes_room(
    before: PendingAttributor,
    ledger: Seq<Booking>,
    item: Pending,
    started: StartTimes,
    after: PendingAttributor,
    ledger_after: Seq<Booking>,
)
    requires
        pushed(before, ledger, item, started, after, ledger_after),
        before.capacity > 0,
        forall|i: int|
            0 <= i < before.waiting().len() ==> (#[trigger] before.waiting()[i]).connection
                != item.connection,
        before.waiting().len() <= before.capacity,
        before.waiting().len() > 0 ==> before.counters.pending_capacity_bytes
            + before.waiting()[0].bytes <= u64::MAX,
    ensures
        before.waiting().len() < before.capacity ==> {
            &&& after.waiting() == before.waiting().push(item)
            &&& ledger_after == ledger
            &&& after.counters == before.counters
        },
        before.waiting().len() == before.capacity ==> {
            &&& after.waiting().len() == before.waiting().len()
            &&& after.waiting().last() == item
            &&& forall|i: int|
                0 <= i < before.waiting().len() - 1 ==> #[trigger] after.waiting()[i]
                    == before.waiting()[i + 1]
            &&& ledger_after == ledger.push(
                settlement(before.waiting()[0], before.history, started),
            )
            &&& after.counters.pending_capacity_bytes == before.counters.pending_capacity_bytes
                + before.waiting()[0].bytes
        },
{
    assert(!waits_on(before.waiting(), item.connection));
}

/// Traffic without a socket is the system's, and traffic of a socket whose peer has no port is
/// nobody's. Both are booked at once with their direction, bytes and time.
pub proof fn lemma_traffic_without_a_connection(
    before: PendingAttributor,
    ledger: Seq<Booking>,
    shared: SharedProcTable,
    observation: EndpointObservation,
    clock: Clock,
    started: StartTimes,
    after: PendingAttributor,
    ledger_after: Seq<Booking>,
    shared_after: SharedProcTable,
)
    requires
        endpoint_recorded(
            before,
            ledger,
            shared,
            observation,
            clock,
            started,
            after,
            ledger_after,
            shared_after,
        ),
        observation.socket is None || observation.peer_port is None,
    ensures
        after == before,
        observation.socket is None ==> ledger_after == ledger.push(
            Booking::System {
                direction: observation.direction,
                bytes: observation.bytes as nat,
                observed_at: observation.observed_at as int,
            },
        ),
        observation.socket is Some ==> ledger_after == ledger.push(
            Booking::Unattributed {
                direction: observation.direction,
                bytes: observation.bytes as nat,
                observed_at: observation.observed_at as int,
            },
        ),
{
}

/// Traffic of a socket that the table gives exactly one owner is charged to that owner at once,
/// with its number, name and path, and with the traffic's direction, bytes, time and endpoints.
pub proof fn lemma_known_owner_is_charged_at_once(
    before: PendingAttributor,
    ledger: Seq<Booking>,
    shared: SharedProcTable,
    observation: EndpointObservation,
    clock: Clock,
    started: StartTimes,
    after: PendingAttributor,
    ledger_after: Seq<Booking>,
    shared_after: SharedProcTable,
    socket: LocalSocket,
    peer_port: u16,
    key: LocalSocket,
    only: int,
)
    requires
        endpoint_recorded(
            before,
            ledger,
            shared,
            observation,
            clock,
            started,
            after,
            ledger_after,
            shared_after,
        ),
        observation.socket == Some(socket),
        observation.peer_port == Some(peer_port),
        !shared.poisoned,
        up_to_date(shared.table, clock.read_at),
        answered_at(shared.table.entries@, socket, key),
        0 <= only < shared.table.entries@.len(),
        forall|e: int|
            0 <= e < shared.table.entries@.len() ==> ((
            #[trigger] shared.table.entries@[e]).socket == key <==> e == only),
    ensures
        after == before,
        ledger_after == ledger.push(
            Booking::Exclusive {
                process: ObservedProcess {
                    pid: shared.table.entries@[only].info.pid,
                    name: shared.table.entries@[only].info.name,
                    path: shared.table.entries@[only].info.path,
                },
                direction: observation.direction,
                bytes: observation.bytes as nat,
                observed_at: observation.observed_at as int,
                evidence: Evidence::Snapshot,
                flow: ProcFlowKey {
                    local: socket,
                    remote_ip: observation.peer_ip,
                    remote_port: peer_port,
                },
            },
        ),
{
    let entries = shared.table.entries@;
    lemma_key(shared.table, socket, key);
    lemma_one_picked(entries, |entry: ProcEntry| entry.socket == key, only);
    assert(candidates_for(entries, key) =~= seq![entries[only].info]);
}

proof fn lemma_candidates_of_new_traffic(
    shared: SharedProcTable,
    socket: LocalSocket,
    read_at: u128,
    key: LocalSocket,
) -> (candidates: Seq<ObservedProcess>)
    requires
        answered_at(shared.table.entries@, socket, key),
        !shared.poisoned && up_to_date(shared.table, read_at) ==> (forall|e: int|
            0 <= e < shared.table.entries@.len() ==> (#[trigger] shared.table.entries@[e]).socket
                != key) || (exists|first: int, second: int|
            0 <= first < second < shared.table.entries@.len() && (
            #[trigger] shared.table.entries@[first]).socket == key && (
            #[trigger] shared.table.entries@[second]).socket == key),
    ensures
        !(shared_resolution(shared, socket, read_at) is Exclusive),
        candidates == match shared_resolution(shared, socket, read_at) {
            Resolution::Ambiguous(found) => found,
            _ => Seq::empty(),
        },
        shared.poisoned || !up_to_date(shared.table, read_at) ==> candidates.len() == 0,
        !shared.poisoned && up_to_date(shared.table, read_at) ==> {
            &&& forall|e: int|
                0 <= e < shared.table.entries@.len() && (
                #[trigger] shared.table.entries@[e]).socket == key ==> candidates.contains(
                    ObservedProcess {
                        pid: shared.table.entries@[e].info.pid,
                        name: shared.table.entries@[e].info.name,
                        path: shared.table.entries@[e].info.path,
                    },
                )
            &&& forall|c: int|
                0 <= c < candidates.len() ==> exists|e: int|
                    0 <= e < shared.table.entries@.len() && (
                    #[trigger] shared.table.entries@[e]).socket == key
                        && shared.table.entries@[e].info.pid == (#[trigger] candidates[c]).pid
        },
{
    let table = shared.table;
    let entries = table.entries@;
    let found = shared_resolution(shared, socket, read_at);
    let candidates = match found {
        Resolution::Ambiguous(candidates) => candidates,
        _ => Seq::empty(),
    };
    let infos = candidates_for(entries, key);
    lemma_key(table, socket, key);
    lemma_listed(entries, key);
    if !shared.poisoned && up_to_date(table, read_at) {
        let pick = |entry: ProcEntry| entry.socket == key;
        if forall|e: int| 0 <= e < entries.len() ==> (#[trigger] entries[e]).socket != key {
            lemma_none_picked(entries, pick);
        } else {
            let (first, second) = choose|first: int, second: int|
                0 <= first < second < entries.len() && (#[trigger] entries[first]).socket == key && (
                #[trigger] entries[second]).socket == key;
            crate::laws::answers::lemma_two_picked(entries, pick, first, second);
        }
        let named = infos.map_values(|info: ProcInfo| observed_info(info));
        assert(candidates =~= named);
        assert forall|e: int|
            0 <= e < entries.len() && (#[trigger] entries[e]).socket
                == key implies candidates.contains(
            ObservedProcess {
                pid: entries[e].info.pid,
                name: entries[e].info.name,
                path: entries[e].info.path,
            },
        ) by {
            assert(infos.contains(entries[e].info));
            let x = choose|x: int| 0 <= x < infos.len() && infos[x] == entries[e].info;
            assert(named[x] == observed_info(entries[e].info));
        }
        assert forall|c: int| 0 <= c < candidates.len() implies exists|e: int|
            0 <= e < entries.len() && (#[trigger] entries[e]).socket == key && entries[e].info.pid
                == (#[trigger] candidates[c]).pid by {
            let e = choose|e: int|
                0 <= e < entries.len() && (#[trigger] entries[e]).socket == key && entries[e].info
                    == infos[c];
            assert(entries[e].info.pid == candidates[c].pid);
        }
    }
    candidates
}

/// Traffic of a socket that the table gives no owner or several waits, if there is room: as a
/// connection between the socket and its peer in its direction, with its bytes and its time,
/// from now on. Its candidates are the owners that the table gives, by number, name and path; a
/// table that gives none, is too old or is not to be used gives no candidates.
pub proof fn lemma_unsettled_traffic_waits(
    before: PendingAttributor,
    ledger: Seq<Booking>,
    shared: SharedProcTable,
    observation: EndpointObservation,
    clock: Clock,
    started: StartTimes,
    after: PendingAttributor,
    ledger_after: Seq<Booking>,
    shared_after: SharedProcTable,
    socket: LocalSocket,
    peer_port: u16,
    key: LocalSocket,
) -> (item: Pending)
    requires
        endpoint_recorded(
            before,
            ledger,
            shared,
            observation,
            clock,
            started,
            after,
            ledger_after,
            shared_after,
        ),
        observation.socket == Some(socket),
        observation.peer_port == Some(peer_port),
        answered_at(shared.table.entries@, socket, key),
        !shared.poisoned && up_to_date(shared.table, clock.read_at) ==> (forall|e: int|
            0 <= e < shared.table.entries@.len() ==> (#[trigger] shared.table.entries@[e]).socket
                != key) || (exists|first: int, second: int|
            0 <= first < second < shared.table.entries@.len() && (
            #[trigger] shared.table.entries@[first]).socket == key && (
            #[trigger] shared.table.entries@[second]).socket == key),
    ensures
        item.connection == (ConnectionKey {
            local_socket: socket,
            peer_ip: observation.peer_ip,
            peer_port,
            direction: observation.direction,
        }),
        item.bytes == observation.bytes,
        item.observed_at == observation.observed_at,
        item.pending_since == clock.now,
        shared.poisoned || !up_to_date(shared.table, clock.read_at) ==> item.candidates.len() == 0,
        !shared.poisoned && up_to_date(shared.table, clock.read_at) ==> {
            &&& forall|e: int|
                0 <= e < shared.table.entries@.len() && (
                #[trigger] shared.table.entries@[e]).socket == key ==> item.candidates.contains(
                    ObservedProcess {
                        pid: shared.table.entries@[e].info.pid,
                        name: shared.table.entries@[e].info.name,
                        path: shared.table.entries@[e].info.path,
                    },
                )
            &&& forall|c: int|
                0 <= c < item.candidates.len() ==> exists|e: int|
                    0 <= e < shared.table.entries@.len() && (
                    #[trigger] shared.table.entries@[e]).socket == key
                        && shared.table.entries@[e].info.pid == (#[trigger] item.candidates[c]).pid
        },
        exists|mid: PendingAttributor| #[trigger]
            pushed(before, ledger, item, started, mid, ledger_after) && mid.waiting()
                == after.waiting(),
{
    let found = shared_resolution(shared, socket, clock.read_at);
    let item = pending_item(observation, socket, peer_port, found, clock.now);
    let candidates = lemma_candidates_of_new_traffic(shared, socket, clock.read_at, key);
    assert(item.candidates == candidates);
    let mid = choose|mid: PendingAttributor|
        {
            &&& #[trigger] pushed(before, ledger, item, started, mid, ledger_after)
            &&& if before.capacity == 0 {
                after == mid
            } else {
                &&& same_traffic(mid, after)
                &&& after.side() == mid.side().probed(mid.waiting(), socket, clock.now)
            }
        };
    assert(mid.waiting() == after.waiting());
    item
}

/// A flow is booked once on the interface, with its direction, its peer and its bytes, and
/// whether it passes between two local sockets, and right behind that for its host name. Then
/// its bytes are charged at its own socket, in its direction and with its peer, and, if it
/// passes between two local sockets, at the other one as well, as received from the first.
/// Nothing that was in the ledger before changes. The result holds the place of the first line,
/// what was there when the flow came, and what its own end left.
pub proof fn lemma_flow_is_booked_and_charged(
    before: PendingAttributor,
    ledger: Seq<Booking>,
    shared: SharedProcTable,
    flow: Flow,
    clock: Clock,
    observed_at: i128,
    started: StartTimes,
    after: PendingAttributor,
    ledger_after: Seq<Booking>,
    shared_after: SharedProcTable,
) -> (steps: (
    int,
    PendingAttributor,
    SharedProcTable,
    PendingAttributor,
    Seq<Booking>,
    SharedProcTable,
))
    requires
        flow_recorded(
            before,
            ledger,
            shared,
            flow,
            clock,
            observed_at,
            started,
            after,
            ledger_after,
            shared_after,
        ),
    ensures
        ({
            let (k, came, came_shared, own, own_lines, own_shared) = steps;
            &&& ledger.len() <= k < ledger_after.len() - 1
            &&& forall|i: int| 0 <= i < ledger.len() ==> #[trigger] ledger_after[i] == ledger[i]
            &&& ledger_after[k] == (Booking::Interface {
                direction: flow.direction,
                peer: flow.peer,
                bytes: flow.bytes as nat,
                both_local: flow.peer_local_socket is Some,
                observed_at: observed_at as int,
            })
            &&& ledger_after[k + 1] == (Booking::Domain {
                domain: text_view(flow.domain),
                direction: flow.direction,
                bytes: flow.bytes as nat,
                observed_at: observed_at as int,
            })
            &&& endpoint_recorded(
                came,
                ledger_after.take(k + 2),
                came_shared,
                EndpointObservation {
                    socket: flow.local_socket,
                    direction: flow.direction,
                    peer_ip: flow.peer,
                    peer_port: flow.peer_port,
                    bytes: flow.bytes,
                    observed_at,
                },
                clock,
                started,
                own,
                own_lines,
                own_shared,
            )
            &&& flow.peer_local_socket is None || flow.local_socket is None ==> after == own
                && ledger_after == own_lines && shared_after == own_shared
            &&& flow.peer_local_socket is Some && flow.local_socket is Some ==> endpoint_recorded(
                own,
                own_lines,
                own_shared,
                EndpointObservation {
                    socket: flow.peer_local_socket,
                    direction: Direction::Inbound,
                    peer_ip: flow.local_socket->0.ip,
                    peer_port: Some(flow.local_socket->0.port),
                    bytes: flow.bytes,
                    observed_at,
                },
                clock,
                started,
                after,
                ledger_after,
                shared_after,
            )
        }),
{
    let (a, a_lines, a_shared, b, b_lines, b_shared) = choose|
        a: PendingAttributor,
        a_lines: Seq<Booking>,
        a_shared: SharedProcTable,
        b: PendingAttributor,
        b_lines: Seq<Booking>,
        b_shared: SharedProcTable,
    |
        {
            &&& #[trigger] advanced(
                before,
                ledger,
                shared,
                clock,
                started,
                a,
                a_lines,
                a_shared,
            )
            &&& #[trigger] endpoint_recorded(
                a,
                a_lines.push(interface_booking(flow, observed_at)).push(
                    domain_booking(flow, observed_at),
                ),
                a_shared,
                own_endpoint(flow, observed_at),
                clock,
                started,
                b,
                b_lines,
                b_shared,
            )
            &&& if has_two_endpoints(flow) {
                endpoint_recorded(
                    b,
                    b_lines,
                    b_shared,
                    peer_endpoint(
                        flow.peer_local_socket->0,
                        flow.local_socket->0,
                        flow.bytes,
                        observed_at,
                    ),
                    clock,
                    started,
                    after,
                    ledger_after,
                    shared_after,
                )
            } else {
                after == b && ledger_after == b_lines && shared_after == b_shared
            }
        };
    let lines = a_lines.push(interface_booking(flow, observed_at)).push(
        domain_booking(flow, observed_at),
    );
    lemma_time_only_charges(before, ledger, shared, clock, started, a, a_lines, a_shared);
    lemma_endpoint_only_charges(
        a,
        lines,
        a_shared,
        own_endpoint(flow, observed_at),
        clock,
        started,
        b,
        b_lines,
        b_shared,
    );
    if has_two_endpoints(flow) {
        lemma_endpoint_only_charges(
            b,
            b_lines,
            b_shared,
            peer_endpoint(
                flow.peer_local_socket->0,
                flow.local_socket->0,
                flow.bytes,
                observed_at,
            ),
            clock,
            started,
            after,
            ledger_after,
            shared_after,
        );
    }
    let k = a_lines.len() as int;
    assert(b_lines.take(lines.len() as int) == lines);
    assert(ledger_after.take(k + 2) =~= lines) by {
        if has_two_endpoints(flow) {
            assert(ledger_after.take(b_lines.len() as int) == b_lines);
            assert forall|i: int| 0 <= i < k + 2 implies #[trigger] ledger_after.take(k + 2)[i]
                == lines[i] by {
                assert(ledger_after.take(b_lines.len() as int)[i] == b_lines[i]);
                assert(b_lines.take(lines.len() as int)[i] == lines[i]);
            }
        }
    }
    assert(ledger_after[k] == ledger_after.take(k + 2)[k]);
    assert(ledger_after[k + 1] == ledger_after.take(k + 2)[k + 1]);
    assert(a_lines.take(ledger.len() as int) == ledger);
    assert forall|i: int| 0 <= i < ledger.len() implies #[trigger] ledger_after[i] == ledger[i] by {
        assert(ledger_after.take(k + 2)[i] == lines[i]);
        assert(a_lines.take(ledger.len() as int)[i] == a_lines[i]);
    }
    (k, a, a_shared, b, b_lines, b_shared)
}

/// A lookup for traffic counts as a hit exactly if the table names one owner, and else as a
/// miss of one kind: the table is too old, it has no owner, or it has several. A miss counts
/// the bytes under its kind, asks for a refresh, and is kept as an example unless it is kept
/// already or eight are.
pub proof fn lemma_lookups_are_counted(
    before: SharedProcTable,
    socket: LocalSocket,
    peer_ip: IpAddr,
    peer_port: u16,
    bytes: u64,
    read_at: u128,
    after: SharedProcTable,
    key: LocalSocket,
)
    requires
        looked_up(before, socket, Some((peer_ip, peer_port)), true, bytes, read_at, after),
        !before.poisoned,
        answered_at(before.table.entries@, socket, key),
    ensures
        ({
            let was = before.table.counters;
            let now = after.table.counters;
            let count = before.table.entries@.filter(|entry: ProcEntry| entry.socket == key).len();
            let stale = !up_to_date(before.table, read_at);
            let hit = !stale && count == 1;
            let none = !stale && count == 0;
            let several = !stale && count >= 2;
            let mapped = before.table.v4_mapped_aliases@.contains(key);
            let one = |so: bool, was: u64, now: u64|
                now == if so {
                    was.wrapping_add(1)
                } else {
                    was
                };
            let some = |so: bool, was: u64, now: u64|
                now == if so {
                    was.wrapping_add(bytes)
                } else {
                    was
                };
            &&& one(hit, was.lookup_hits, now.lookup_hits)
            &&& one(hit && mapped, was.lookup_v4_mapped_hits, now.lookup_v4_mapped_hits)
            &&& one(!hit, was.lookup_misses, now.lookup_misses)
            &&& one(stale, was.lookup_stale, now.lookup_stale)
            &&& some(stale, was.lookup_stale_bytes, now.lookup_stale_bytes)
            &&& one(none, was.lookup_no_candidate, now.lookup_no_candidate)
            &&& some(none, was.lookup_no_candidate_bytes, now.lookup_no_candidate_bytes)
            &&& one(several, was.lookup_ambiguous, now.lookup_ambiguous)
            &&& some(several, was.lookup_ambiguous_bytes, now.lookup_ambiguous_bytes)
            &&& one(!hit, was.refresh_requests, now.refresh_requests)
            &&& now.no_local_socket == was.no_local_socket
            &&& now.refresh_actual == was.refresh_actual
            &&& now.refresh_success == was.refresh_success
            &&& now.refresh_failure == was.refresh_failure
            &&& now.refresh_records == was.refresh_records
            &&& now.refresh_v4_mapped_records == was.refresh_v4_mapped_records
            &&& now.refresh_duration_nanos == was.refresh_duration_nanos
            &&& now.last_refresh_duration_nanos == was.last_refresh_duration_nanos
            &&& after.table.refresh == if !hit && before.table.refresh == RefreshSlot::Empty {
                RefreshSlot::Full
            } else {
                before.table.refresh
            }
            &&& hit ==> after.table.lookup_miss_samples@ == before.table.lookup_miss_samples@
            &&& !hit ==> ({
                let sample = LookupMissSample {
                    reason: if stale {
                        LookupMissReason::Stale
                    } else if none {
                        LookupMissReason::NoCandidate
                    } else {
                        LookupMissReason::Ambiguous
                    },
                    local_socket: socket,
                    peer_ip,
                    peer_port,
                };
                let kept = before.table.lookup_miss_samples@;
                after.table.lookup_miss_samples@ == if kept.len() < 8 && !kept.contains(sample) {
                    kept.push(sample)
                } else {
                    kept
                }
            })
        }),
{
    lemma_key(before.table, socket, key);
}

} // verus!
