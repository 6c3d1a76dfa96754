//! What the answers to probes do, and when a socket is probed.

use vstd::prelude::*;

use crate::attribution::{
    backed_off, bytes_where, counters_after, expired_finalized, match_for, muted, named_owner,
    overdue, peers_of, probe_bookings, requested_state, result_applied, settlement, socket_bytes,
    states_after, still_waiting, tidied, waits_for, AttributionCounters, Pending,
    PendingAttributor, ProbeSide, ProbeState,
};
use crate::history::StartTimes;
use crate::net::{LocalSocket, SocketAddr};
use crate::process_probe::{ConnectionMatch, ProbeProcess, ProbeRequestId, ProbeRequestOutcome, ProbeResult};
use crate::stats::{Booking, Evidence, ObservedProcess, ProcFlowKey};

verus! {

/// The line that charges pending traffic to a process that a probe named.
pub open spec fn probed_line(item: Pending, process: ProbeProcess) -> Booking {
    Booking::Exclusive {
        process: ObservedProcess { pid: process.pid, name: process.name, path: process.path },
        direction: item.connection.direction,
        bytes: item.bytes as nat,
        observed_at: item.observed_at as int,
        evidence: Evidence::Probe,
        flow: ProcFlowKey {
            local: item.connection.local_socket,
            remote_ip: item.connection.peer_ip,
            remote_port: item.connection.peer_port,
        },
    }
}

/// Whether a socket waits for the answer to the request with a number, and may use it.
pub open spec fn awaits(
    states: Map<LocalSocket, ProbeState>,
    socket: LocalSocket,
    id: ProbeRequestId,
) -> bool {
    &&& states.contains_key(socket)
    &&& states[socket].active_request == Some(id)
    &&& states[socket].accept_results
}

proof fn lemma_named_line(pending: Seq<Pending>, result: ProbeResult, i: int, process: ProbeProcess) -> (
    k: int)
    requires
        0 <= i < pending.len(),
        named_owner(result, pending[i]) == Some(process),
    ensures
        0 <= k < probe_bookings(pending, result).len(),
        probe_bookings(pending, result)[k] == probed_line(pending[i], process),
    decreases pending.len(),
{
    let shorter = pending.drop_last();
    if i < shorter.len() {
        assert(shorter[i] == pending[i]);
        lemma_named_line(shorter, result, i, process)
    } else {
        probe_bookings(shorter, result).len() as int
    }
}

proof fn lemma_nothing_else_is_charged(pending: Seq<Pending>, result: ProbeResult)
    ensures
        forall|k: int|
            0 <= k < probe_bookings(pending, result).len() ==> exists|i: int, process: ProbeProcess|
                0 <= i < pending.len() && named_owner(result, #[trigger] pending[i]) == Some(process)
                    && #[trigger] probed_line(pending[i], process) == #[trigger] probe_bookings(
                    pending,
                    result,
                )[k],
    decreases pending.len(),
{
    if pending.len() > 0 {
        let shorter = pending.drop_last();
        lemma_nothing_else_is_charged(shorter, result);
        let prior = probe_bookings(shorter, result);
        let whole = probe_bookings(pending, result);
        assert forall|k: int| 0 <= k < whole.len() implies exists|i: int, process: ProbeProcess|
            0 <= i < pending.len() && named_owner(result, #[trigger] pending[i]) == Some(process)
                && #[trigger] probed_line(pending[i], process) == #[trigger] whole[k] by {
            if k < prior.len() {
                assert(whole[k] == prior[k]);
                let (i, process) = choose|i: int, process: ProbeProcess|
                    0 <= i < shorter.len() && named_owner(result, #[trigger] shorter[i]) == Some(
                        process,
                    ) && #[trigger] probed_line(shorter[i], process) == prior[k];
                assert(pending[i] == shorter[i]);
                assert(probed_line(pending[i], process) == whole[k]);
            } else {
                let i = pending.len() - 1;
                let process = named_owner(result, pending[i])->0;
                assert(probed_line(pending[i], process) == whole[k]);
            }
        }
    }
}

/// If a probe names the one owner of a socket, and the answer is waited for, each piece of
/// traffic that waits on the socket is charged to that owner, with its number, name and path,
/// and waits no longer. The traffic of other sockets waits on as it was.
pub proof fn lemma_named_owner_is_charged(
    before: PendingAttributor,
    ledger: Seq<Booking>,
    id: ProbeRequestId,
    socket: LocalSocket,
    process: ProbeProcess,
    now: u128,
    after: PendingAttributor,
    ledger_after: Seq<Booking>,
)
    requires
        result_applied(
            before,
            ledger,
            ProbeResult::Unique { request_id: id, socket, process },
            now,
            after,
            ledger_after,
        ),
        awaits(before.probe_state@, socket, id),
    ensures
        forall|i: int|
            0 <= i < before.waiting().len() && (#[trigger] before.waiting()[i]).socket() == socket
                ==> ledger_after.contains(probed_line(before.waiting()[i], process)),
        forall|i: int|
            0 <= i < after.waiting().len() ==> (#[trigger] after.waiting()[i]).socket() != socket,
        forall|i: int|
            0 <= i < before.waiting().len() && (#[trigger] before.waiting()[i]).socket() != socket
                ==> after.waiting().contains(before.waiting()[i]),
        forall|k: int|
            0 <= k < ledger.len() ==> k < ledger_after.len() && #[trigger] ledger_after[k]
                == ledger[k],
        forall|k: int|
            ledger.len() <= k < ledger_after.len() ==> exists|i: int|
                0 <= i < before.waiting().len() && (#[trigger] before.waiting()[i]).socket()
                    == socket && probed_line(before.waiting()[i], process)
                    == #[trigger] ledger_after[k],
{
    let result = ProbeResult::Unique { request_id: id, socket, process };
    let pending = before.waiting();
    let left = |item: Pending| named_owner(result, item) is None;
    assert(after.waiting() == pending.filter(left));
    assert forall|i: int|
        0 <= i < pending.len() && (#[trigger] pending[i]).socket()
            == socket implies ledger_after.contains(probed_line(pending[i], process)) by {
        let k = lemma_named_line(pending, result, i, process);
        assert(ledger_after[ledger.len() + k] == probed_line(pending[i], process));
    }
    assert forall|i: int| 0 <= i < after.waiting().len() implies (
    #[trigger] after.waiting()[i]).socket() != socket by {
        pending.lemma_filter_pred(left, i);
    }
    assert forall|i: int|
        0 <= i < pending.len() && (#[trigger] pending[i]).socket()
            != socket implies after.waiting().contains(pending[i]) by {
        pending.lemma_filter_contains(left, i);
    }
    lemma_nothing_else_is_charged(pending, result);
    assert forall|k: int| ledger.len() <= k < ledger_after.len() implies exists|i: int|
        0 <= i < pending.len() && (#[trigger] pending[i]).socket() == socket && probed_line(
            pending[i],
            process,
        ) == #[trigger] ledger_after[k] by {
        let line = probe_bookings(pending, result)[k - ledger.len()];
        let (i, named) = choose|i: int, named: ProbeProcess|
            0 <= i < pending.len() && named_owner(result, #[trigger] pending[i]) == Some(named)
                && #[trigger] probed_line(pending[i], named) == line;
        assert(pending[i].socket() == socket);
    }
}

proof fn lemma_first_match(matches: Seq<ConnectionMatch>, peer: SocketAddr, m: int)
    requires
        0 <= m <= matches.len(),
        forall|earlier: int| 0 <= earlier < m ==> (#[trigger] matches[earlier]).peer != peer,
        m < matches.len() ==> matches[m].peer == peer,
    ensures
        m < matches.len() ==> match_for(matches, peer) == Some(matches[m].process),
        m == matches.len() ==> match_for(matches, peer) is None,
    decreases matches.len(),
{
    if matches.len() > 0 && m > 0 {
        let rest = matches.drop_first();
        assert(matches[0].peer != peer);
        assert forall|earlier: int| 0 <= earlier < m - 1 implies (
        #[trigger] rest[earlier]).peer != peer by {
            assert(rest[earlier] == matches[earlier + 1]);
        }
        if m < matches.len() {
            assert(rest[m - 1] == matches[m]);
        }
        lemma_first_match(rest, peer, m - 1);
    }
}

/// If a probe names the owners of single connections, and the answer is waited for, a piece of
/// traffic that waits on the socket is charged to the owner that the first match for its peer,
/// by address and port, names, and waits no longer. Traffic without a match waits on as it was,
/// and so does the traffic of other sockets.
pub proof fn lemma_matched_connection_is_charged(
    before: PendingAttributor,
    ledger: Seq<Booking>,
    id: ProbeRequestId,
    socket: LocalSocket,
    matches: Vec<ConnectionMatch>,
    now: u128,
    after: PendingAttributor,
    ledger_after: Seq<Booking>,
    i: int,
    m: int,
)
    requires
        result_applied(
            before,
            ledger,
            ProbeResult::ConnectionMatches { request_id: id, socket, matches },
            now,
            after,
            ledger_after,
        ),
        awaits(before.probe_state@, socket, id),
        0 <= i < before.pending@.len(),
        before.pending@[i].connection.local_socket == socket,
        0 <= m <= matches@.len(),
        forall|earlier: int|
            0 <= earlier < m ==> !((#[trigger] matches@[earlier]).peer.ip
                == before.pending@[i].connection.peer_ip && matches@[earlier].peer.port
                == before.pending@[i].connection.peer_port),
        m < matches@.len() ==> matches@[m].peer.ip == before.pending@[i].connection.peer_ip
            && matches@[m].peer.port == before.pending@[i].connection.peer_port,
    ensures
        m < matches@.len() ==> ledger_after.contains(
            probed_line(before.pending@[i]@, matches@[m].process),
        ) && !after.waiting().contains(before.pending@[i]@),
        m == matches@.len() ==> after.waiting().contains(before.pending@[i]@),
        forall|other: int|
            0 <= other < before.pending@.len()
                && (#[trigger] before.pending@[other]).connection.local_socket != socket
                ==> after.waiting().contains(before.pending@[other]@),
{
    let result = ProbeResult::ConnectionMatches { request_id: id, socket, matches };
    let pending = before.waiting();
    let item = pending[i];
    let left = |item: Pending| named_owner(result, item) is None;
    lemma_first_match(matches@, item.peer(), m);
    if m < matches@.len() {
        let k = lemma_named_line(pending, result, i, matches@[m].process);
        assert(ledger_after[ledger.len() + k] == probed_line(item, matches@[m].process));
        if after.waiting().contains(item) {
            let p: int = choose|p: int|
                0 <= p < after.waiting().len() && after.waiting()[p] == item;
            pending.lemma_filter_pred(left, p);
        }
    } else {
        pending.lemma_filter_contains(left, i);
    }
    assert forall|other: int|
        0 <= other < before.pending@.len()
            && (#[trigger] before.pending@[other]).connection.local_socket != socket
        implies after.waiting().contains(before.pending@[other]@) by {
        assert(left(pending[other]));
        pending.lemma_filter_contains(left, other);
    }
}

proof fn lemma_named_or_waiting(pending: Seq<Pending>, result: ProbeResult)
    ensures
        still_waiting(pending, result).len() + probe_bookings(pending, result).len()
            == pending.len(),
    decreases pending.len(),
{
    reveal(Seq::filter);
    if pending.len() > 0 {
        lemma_named_or_waiting(pending.drop_last(), result);
    }
}

/// An answer charges each piece of traffic that waited once, or leaves it waiting, and never
/// both: as many pieces wait less as there are new lines.
pub proof fn lemma_answers_charge_once(
    before: PendingAttributor,
    ledger: Seq<Booking>,
    result: ProbeResult,
    now: u128,
    after: PendingAttributor,
    ledger_after: Seq<Booking>,
)
    requires
        result_applied(before, ledger, result, now, after, ledger_after),
    ensures
        after.pending@.len() + ledger_after.len() == before.pending@.len() + ledger.len(),
{
    lemma_named_or_waiting(before.waiting(), result);
    assert(after.waiting().len() == after.pending@.len());
    assert(before.waiting().len() == before.pending@.len());
}

/// An answer that names nobody, that is not waited for, or that may not be used any more,
/// charges nothing and takes nothing from what waits.
pub proof fn lemma_other_answers_charge_nothing(
    before: PendingAttributor,
    ledger: Seq<Booking>,
    result: ProbeResult,
    now: u128,
    after: PendingAttributor,
    ledger_after: Seq<Booking>,
)
    requires
        result_applied(before, ledger, result, now, after, ledger_after),
        result is NotFound || result is Ambiguous || result is Unavailable || !awaits(
            before.probe_state@,
            result.socket_spec(),
            result.id_spec(),
        ),
    ensures
        after.waiting() == before.waiting(),
        ledger_after == ledger,
{
    let pending = before.waiting();
    if awaits(before.probe_state@, result.socket_spec(), result.id_spec()) {
        let left = |item: Pending| named_owner(result, item) is None;
        lemma_all_picked(pending, left);
        lemma_no_lines(pending, result);
        assert(ledger_after =~= ledger);
    }
}

pub(crate) proof fn lemma_all_picked<T>(items: Seq<T>, pick: spec_fn(T) -> bool)
    requires
        forall|i: int| 0 <= i < items.len() ==> pick(#[trigger] items[i]),
    ensures
        items.filter(pick) == items,
    decreases items.len(),
{
    reveal(Seq::filter);
    if items.len() > 0 {
        let shorter = items.drop_last();
        assert forall|i: int| 0 <= i < shorter.len() implies pick(#[trigger] shorter[i]) by {
            assert(shorter[i] == items[i]);
        }
        lemma_all_picked(shorter, pick);
        assert(pick(items[items.len() - 1]));
        assert(shorter.push(items.last()) =~= items);
    } else {
        assert(items.filter(pick) =~= items);
    }
}

proof fn lemma_no_lines(pending: Seq<Pending>, result: ProbeResult)
    requires
        result is NotFound || result is Ambiguous || result is Unavailable,
    ensures
        probe_bookings(pending, result).len() == 0,
    decreases pending.len(),
{
    if pending.len() > 0 {
        lemma_no_lines(pending.drop_last(), result);
    }
}

/// The answers' socket and number are those that they carry.
pub proof fn lemma_answers_carry_socket_and_number(
    id: ProbeRequestId,
    socket: LocalSocket,
    process: ProbeProcess,
    matches: Vec<ConnectionMatch>,
    candidate_count: usize,
    error: String,
)
    ensures
        forall|result: ProbeResult|
            result == (ProbeResult::Unique { request_id: id, socket, process }) || result == (
            ProbeResult::NotFound { request_id: id, socket }) || result == (
            ProbeResult::Ambiguous { request_id: id, socket, candidate_count }) || result == (
            ProbeResult::Unavailable { request_id: id, socket, error }) || result == (
            ProbeResult::ConnectionMatches { request_id: id, socket, matches })
                ==> #[trigger] result.socket_spec() == socket && result.id_spec() == id,
{
}

/// A socket that has been probed three times is given up; before that it is probed again half a
/// second later. Nothing else about it changes.
pub proof fn lemma_probing_is_given_up_after_three_attempts(state: ProbeState, now: u128)
    requires
        now + 500_000_000 <= u128::MAX,
    ensures
        ({
            let after = backed_off(state, now);
            &&& after.active_request == state.active_request
            &&& after.attempts == state.attempts
            &&& after.accept_results == state.accept_results
            &&& state.attempts >= 3 ==> after.exhausted && after.next_retry_at
                == state.next_retry_at
            &&& state.attempts < 3 ==> after.exhausted == state.exhausted && after.next_retry_at
                == now + 500_000_000
        }),
{
}

/// What an answer leaves of the probing of its socket, and that it touches no other socket. An
/// answer that is not waited for changes nothing. One that may not be used any more ends the
/// probing, or, if it named owners and traffic waits on the socket, starts it afresh. Of the
/// others, an ambiguous one ends the attempts; one that found nothing or failed counts as an
/// attempt; and one that named owners ends the probing if no traffic is left waiting, and else
/// is tried again.
pub proof fn lemma_probing_after_an_answer(
    states: Map<LocalSocket, ProbeState>,
    pending: Seq<Pending>,
    result: ProbeResult,
    now: u128,
    socket: LocalSocket,
    id: ProbeRequestId,
)
    requires
        result.socket_spec() == socket,
        result.id_spec() == id,
        now + 500_000_000 <= u128::MAX,
    ensures
        ({
            let after = states_after(states, pending, result, now);
            let was = states[socket];
            let active = states.contains_key(socket) && was.active_request == Some(id);
            let names = result is Unique || result is ConnectionMatches;
            let left = exists|i: int|
                0 <= i < pending.len() && (#[trigger] pending[i]).connection.local_socket == socket
                    && named_owner(result, pending[i]) is None;
            let any = exists|i: int|
                0 <= i < pending.len() && (#[trigger] pending[i]).connection.local_socket == socket;
            let tried = if was.attempts == 255 {
                255
            } else {
                was.attempts + 1
            };
            &&& forall|other: LocalSocket|
                other != socket ==> #[trigger] after.contains_key(other) == states.contains_key(
                    other,
                ) && after[other] == states[other]
            &&& !active ==> after == states
            &&& active && !was.accept_results && names && any ==> {
                &&& after.contains_key(socket)
                &&& after[socket].active_request is None
                &&& after[socket].attempts == 0
                &&& after[socket].next_retry_at == now
                &&& !after[socket].exhausted
                &&& after[socket].accept_results
            }
            &&& active && !was.accept_results && !(names && any) ==> !after.contains_key(socket)
            &&& active && was.accept_results && result is Ambiguous ==> {
                &&& after.contains_key(socket)
                &&& after[socket].active_request is None
                &&& after[socket].attempts == was.attempts
                &&& after[socket].exhausted
            }
            &&& active && was.accept_results && (result is NotFound || result is Unavailable) ==> {
                &&& after.contains_key(socket)
                &&& after[socket].active_request is None
                &&& after[socket].attempts == tried
                &&& tried >= 3 ==> after[socket].exhausted
                &&& tried < 3 ==> after[socket].exhausted == was.exhausted
                    && after[socket].next_retry_at == now + 500_000_000
            }
            &&& active && was.accept_results && names && !left ==> !after.contains_key(socket)
            &&& active && was.accept_results && names && left ==> {
                &&& after.contains_key(socket)
                &&& after[socket].active_request is None
                &&& after[socket].attempts == was.attempts
                &&& was.attempts >= 3 ==> after[socket].exhausted
                &&& was.attempts < 3 ==> after[socket].exhausted == was.exhausted
                    && after[socket].next_retry_at == now + 500_000_000
            }
        }),
{
    let kept = |item: Pending| named_owner(result, item) is None;
    let rest = still_waiting(pending, result);
    assert(rest == pending.filter(kept));
    if exists|i: int|
        0 <= i < pending.len() && (#[trigger] pending[i]).connection.local_socket == socket
            && named_owner(result, pending[i]) is None {
        let i = choose|i: int|
            0 <= i < pending.len() && (#[trigger] pending[i]).connection.local_socket == socket
                && named_owner(result, pending[i]) is None;
        pending.lemma_filter_contains(kept, i);
        let j = choose|j: int| 0 <= j < rest.len() && rest[j] == pending[i];
        assert(rest[j].socket() == socket);
        assert(waits_for(rest, socket));
    } else if waits_for(rest, socket) {
        let j = choose|j: int| 0 <= j < rest.len() && (#[trigger] rest[j]).socket() == socket;
        pending.lemma_filter_pred(kept, j);
        pending.lemma_filter_contains_rev(kept, rest[j]);
        let i = choose|i: int| 0 <= i < pending.len() && pending[i] == rest[j];
        assert(pending[i].connection.local_socket == socket);
    }
    if exists|i: int|
        0 <= i < pending.len() && (#[trigger] pending[i]).connection.local_socket == socket {
        let i = choose|i: int|
            0 <= i < pending.len() && (#[trigger] pending[i]).connection.local_socket == socket;
        assert(pending[i].socket() == socket);
    } else if waits_for(pending, socket) {
        let j = choose|j: int| 0 <= j < pending.len() && (#[trigger] pending[j]).socket() == socket;
        assert(pending[j].connection.local_socket == socket);
    }
}

/// What a request leaves of the probing of its socket. One that is queued counts as an attempt,
/// and its answer may be used; one that joins an earlier request does not count, and its answer
/// may not be used; one that comes to nothing counts as an attempt. The next attempt is due
/// half a second later, unless the last request came to nothing and was the third.
pub proof fn lemma_probing_after_a_request(
    state: ProbeState,
    outcome: ProbeRequestOutcome,
    now: u128,
)
    requires
        now + 500_000_000 <= u128::MAX,
        state.attempts < 3,
    ensures
        ({
            let after = requested_state(state, outcome, now);
            &&& outcome matches ProbeRequestOutcome::Queued(id) ==> {
                &&& after.active_request == Some(id)
                &&& after.attempts == state.attempts + 1
                &&& after.accept_results
                &&& after.next_retry_at == now + 500_000_000
                &&& after.exhausted == state.exhausted
            }
            &&& outcome matches ProbeRequestOutcome::InFlight(id) ==> {
                &&& after.active_request == Some(id)
                &&& after.attempts == state.attempts
                &&& !after.accept_results
                &&& after.next_retry_at == now + 500_000_000
                &&& after.exhausted == state.exhausted
            }
            &&& outcome is Unavailable ==> {
                &&& after.active_request == state.active_request
                &&& after.attempts == state.attempts + 1
                &&& after.accept_results == state.accept_results
                &&& state.attempts == 2 ==> after.exhausted
                &&& state.attempts < 2 ==> after.exhausted == state.exhausted
                    && after.next_retry_at == now + 500_000_000
            }
        }),
{
}

/// A socket is asked about only if no request for it is under way, it has not been given up,
/// its next attempt is due, and it has been probed fewer than three times; with three attempts
/// behind it it is given up. Asking goes to the probe with the peers that wait on the socket,
/// and touches no other socket.
pub proof fn lemma_sockets_are_probed_when_due(
    side: ProbeSide,
    pending: Seq<Pending>,
    socket: LocalSocket,
    now: u128,
)
    ensures
        ({
            let after = side.probed(pending, socket, now);
            let was = if side.states.contains_key(socket) {
                side.states[socket]
            } else {
                ProbeState {
                    active_request: None,
                    attempts: 0,
                    next_retry_at: now,
                    exhausted: false,
                    accept_results: true,
                }
            };
            let due = was.active_request is None && !was.exhausted && was.next_retry_at <= now;
            &&& after.states.contains_key(socket)
            &&& forall|other: LocalSocket|
                other != socket ==> #[trigger] after.states.contains_key(other)
                    == side.states.contains_key(other) && after.states[other] == side.states[other]
            &&& !due ==> after.states[socket] == was && after.probe == side.probe && after.queued
                == side.queued
            &&& due && was.attempts >= 3 ==> {
                &&& after.states[socket] == (ProbeState { exhausted: true, ..was })
                &&& after.probe == side.probe
                &&& after.queued == side.queued
            }
            &&& due && was.attempts < 3 && side.probe is None ==> {
                &&& after.states[socket] == was
                &&& after.probe is None
                &&& after.queued == side.queued
            }
            &&& due && was.attempts < 3 && side.probe is Some ==> {
                let outcome = side.probe->0.outcome(socket);
                &&& after.probe == Some(
                    side.probe->0.requested(socket, peers_of(pending, socket)),
                )
                &&& after.states[socket] == requested_state(was, outcome, now)
                &&& side.queued < u64::MAX ==> after.queued == side.queued + (if outcome is Queued {
                    1int
                } else {
                    0
                })
            }
        }),
{
}

/// The peers that a socket is asked about with are those of the traffic that waits on it, each
/// once.
pub proof fn lemma_peers_of_waiting_traffic(
    pending: Seq<Pending>,
    socket: LocalSocket,
    peer: SocketAddr,
)
    ensures
        peers_of(pending, socket).no_duplicates(),
        peers_of(pending, socket).contains(peer) <==> exists|i: int|
            0 <= i < pending.len() && (#[trigger] pending[i]).connection.local_socket == socket
                && pending[i].connection.peer_ip == peer.ip && pending[i].connection.peer_port
                == peer.port,
    decreases pending.len(),
{
    if pending.len() > 0 {
        let shorter = pending.drop_last();
        let last = pending.last();
        lemma_peers_of_waiting_traffic(shorter, socket, peer);
        let prior = peers_of(shorter, socket);
        let whole = peers_of(pending, socket);
        assert(pending[pending.len() - 1] == last);
        if exists|i: int|
            0 <= i < pending.len() && (#[trigger] pending[i]).connection.local_socket == socket
                && pending[i].connection.peer_ip == peer.ip && pending[i].connection.peer_port
                == peer.port {
            let i = choose|i: int|
                0 <= i < pending.len() && (#[trigger] pending[i]).connection.local_socket == socket
                    && pending[i].connection.peer_ip == peer.ip && pending[i].connection.peer_port
                    == peer.port;
            if i < shorter.len() {
                assert(shorter[i] == pending[i]);
                assert(prior.contains(peer));
                let j = choose|j: int| 0 <= j < prior.len() && prior[j] == peer;
                assert(whole[j] == peer);
            } else {
                assert(last.peer() == peer);
                if prior.contains(last.peer()) {
                    assert(whole == prior);
                } else {
                    assert(whole[prior.len() as int] == peer);
                }
            }
        }
        if whole.contains(peer) {
            let j = choose|j: int| 0 <= j < whole.len() && whole[j] == peer;
            if j < prior.len() {
                assert(prior[j] == peer);
                assert(prior.contains(peer));
                let i = choose|i: int|
                    0 <= i < shorter.len() && (#[trigger] shorter[i]).connection.local_socket
                        == socket && shorter[i].connection.peer_ip == peer.ip
                        && shorter[i].connection.peer_port == peer.port;
                assert(pending[i] == shorter[i]);
            } else {
                assert(pending[pending.len() - 1].connection.local_socket == socket);
            }
        }
    }
}

/// Once traffic is charged, the answer for a socket on which nothing waits any more may not be
/// used; the states of all other sockets stay as they were, and none comes or goes.
pub proof fn lemma_answers_for_settled_sockets_are_muted(
    states: Map<LocalSocket, ProbeState>,
    gone: Seq<Pending>,
    left: Seq<Pending>,
    socket: LocalSocket,
)
    ensures
        ({
            let after = muted(states, gone, left);
            let had = exists|i: int|
                0 <= i < gone.len() && (#[trigger] gone[i]).connection.local_socket == socket;
            let still = exists|i: int|
                0 <= i < left.len() && (#[trigger] left[i]).connection.local_socket == socket;
            &&& after.contains_key(socket) <==> states.contains_key(socket)
            &&& states.contains_key(socket) && !(had && !still) ==> after[socket] == states[socket]
            &&& states.contains_key(socket) && had && !still ==> {
                &&& !after[socket].accept_results
                &&& after[socket].active_request == states[socket].active_request
                &&& after[socket].attempts == states[socket].attempts
                &&& after[socket].next_retry_at == states[socket].next_retry_at
                &&& after[socket].exhausted == states[socket].exhausted
            }
        }),
{
    lemma_waits(gone, socket);
    lemma_waits(left, socket);
}

/// Once idle sockets are forgotten, those are left on which traffic waits, as they were, and
/// those with a request under way, whose answer may then not be used.
pub proof fn lemma_idle_sockets_are_forgotten(
    states: Map<LocalSocket, ProbeState>,
    pending: Seq<Pending>,
    socket: LocalSocket,
)
    ensures
        ({
            let after = tidied(states, pending);
            let still = exists|i: int|
                0 <= i < pending.len() && (#[trigger] pending[i]).connection.local_socket == socket;
            &&& after.contains_key(socket) <==> states.contains_key(socket) && (still
                || states[socket].active_request is Some)
            &&& states.contains_key(socket) && still ==> after[socket] == states[socket]
            &&& states.contains_key(socket) && !still && states[socket].active_request is Some ==> {
                &&& !after[socket].accept_results
                &&& after[socket].active_request == states[socket].active_request
                &&& after[socket].attempts == states[socket].attempts
                &&& after[socket].next_retry_at == states[socket].next_retry_at
                &&& after[socket].exhausted == states[socket].exhausted
            }
        }),
{
    lemma_waits(pending, socket);
}

proof fn lemma_waits(pending: Seq<Pending>, socket: LocalSocket)
    ensures
        waits_for(pending, socket) <==> exists|i: int|
            0 <= i < pending.len() && (#[trigger] pending[i]).connection.local_socket == socket,
{
    if waits_for(pending, socket) {
        let i = choose|i: int| 0 <= i < pending.len() && (#[trigger] pending[i]).socket() == socket;
        assert(pending[i].connection.local_socket == socket);
    }
    if exists|i: int|
        0 <= i < pending.len() && (#[trigger] pending[i]).connection.local_socket == socket {
        let i = choose|i: int|
            0 <= i < pending.len() && (#[trigger] pending[i]).connection.local_socket == socket;
        assert(pending[i].socket() == socket);
    }
}

/// The bytes that wait on a socket add up over the traffic that waits on it.
pub proof fn lemma_bytes_on_a_socket_add_up(pending: Seq<Pending>, item: Pending, socket: LocalSocket)
    ensures
        socket_bytes(Seq::<Pending>::empty(), socket) == 0,
        item.connection.local_socket == socket ==> socket_bytes(pending.push(item), socket)
            == socket_bytes(pending, socket) + item.bytes,
        item.connection.local_socket != socket ==> socket_bytes(pending.push(item), socket)
            == socket_bytes(pending, socket),
{
    assert(pending.push(item).drop_last() =~= pending);
}

/// Each answer is counted under its kind, with the bytes that waited on its socket, and under
/// no other kind. One that is not waited for is also counted as dropped, and one that came too
/// late as late and dropped.
pub proof fn lemma_answers_are_counted_by_kind(
    counters: AttributionCounters,
    states: Map<LocalSocket, ProbeState>,
    pending: Seq<Pending>,
    result: ProbeResult,
)
    requires
        !(result is ConnectionMatches),
        counters.probe_result_unique < u64::MAX,
        counters.probe_result_not_found < u64::MAX,
        counters.probe_result_ambiguous < u64::MAX,
        counters.probe_result_unavailable < u64::MAX,
        counters.probe_result_dropped < u64::MAX,
        counters.probe_result_late < u64::MAX,
        counters.probe_unique_pending_bytes + socket_bytes(pending, result.socket_spec())
            <= u64::MAX,
        counters.probe_not_found_pending_bytes + socket_bytes(pending, result.socket_spec())
            <= u64::MAX,
        counters.probe_ambiguous_pending_bytes + socket_bytes(pending, result.socket_spec())
            <= u64::MAX,
        counters.probe_unavailable_pending_bytes + socket_bytes(pending, result.socket_spec())
            <= u64::MAX,
    ensures
        ({
            let after = counters_after(counters, states, pending, result);
            let socket = result.socket_spec();
            let bytes = socket_bytes(pending, socket);
            let active = states.contains_key(socket) && states[socket].active_request == Some(
                result.id_spec(),
            );
            let usable = active && states[socket].accept_results;
            let again = result is Unique && waits_for(pending, socket);
            let one = |kind: bool|
                if kind {
                    1int
                } else {
                    0
                };
            let some = |kind: bool|
                if kind {
                    bytes as int
                } else {
                    0
                };
            &&& after.probe_result_unique == counters.probe_result_unique + one(result is Unique)
            &&& after.probe_unique_pending_bytes == counters.probe_unique_pending_bytes + some(
                result is Unique,
            )
            &&& after.probe_result_not_found == counters.probe_result_not_found + one(
                result is NotFound,
            )
            &&& after.probe_not_found_pending_bytes == counters.probe_not_found_pending_bytes
                + some(result is NotFound)
            &&& after.probe_result_ambiguous == counters.probe_result_ambiguous + one(
                result is Ambiguous,
            )
            &&& after.probe_ambiguous_pending_bytes == counters.probe_ambiguous_pending_bytes
                + some(result is Ambiguous)
            &&& after.probe_result_unavailable == counters.probe_result_unavailable + one(
                result is Unavailable,
            )
            &&& after.probe_unavailable_pending_bytes == counters.probe_unavailable_pending_bytes
                + some(result is Unavailable)
            &&& after.probe_result_late == counters.probe_result_late + one(
                active && !usable && !again,
            )
            &&& after.probe_result_dropped == counters.probe_result_dropped + one(
                !active || !usable && !again,
            )
            &&& after.probe_request_queued == counters.probe_request_queued
            &&& after.pending_expired_bytes == counters.pending_expired_bytes
            &&& after.pending_capacity_bytes == counters.pending_capacity_bytes
        }),
{
}

/// An answer that names the owners of single connections counts each match, and the bytes of
/// the connections that it matches, if it may be used. Else it counts as dropped, and as late
/// if it was waited for, unless traffic still waits on its socket.
pub proof fn lemma_matches_are_counted(
    counters: AttributionCounters,
    states: Map<LocalSocket, ProbeState>,
    pending: Seq<Pending>,
    id: ProbeRequestId,
    socket: LocalSocket,
    matches: Vec<ConnectionMatch>,
)
    requires
        counters.probe_result_unique + matches@.len() <= u64::MAX,
        counters.probe_result_dropped < u64::MAX,
        counters.probe_result_late < u64::MAX,
        counters.probe_unique_pending_bytes + bytes_where(
            pending,
            |item: Pending|
                item.connection.local_socket == socket && match_for(matches@, item.peer()) is Some,
        ) <= u64::MAX,
    ensures
        ({
            let result = ProbeResult::ConnectionMatches { request_id: id, socket, matches };
            let after = counters_after(counters, states, pending, result);
            let active = states.contains_key(socket) && states[socket].active_request == Some(id);
            let usable = active && states[socket].accept_results;
            let again = active && waits_for(pending, socket);
            let bytes = bytes_where(
                pending,
                |item: Pending|
                    item.connection.local_socket == socket && match_for(
                        matches@,
                        item.peer(),
                    ) is Some,
            );
            &&& usable ==> after == (AttributionCounters {
                probe_result_unique: (counters.probe_result_unique + matches@.len()) as u64,
                probe_unique_pending_bytes: (counters.probe_unique_pending_bytes + bytes) as u64,
                ..counters
            })
            &&& !usable && again ==> after == counters
            &&& !usable && !again ==> after == (AttributionCounters {
                probe_result_dropped: (counters.probe_result_dropped + 1) as u64,
                probe_result_late: (counters.probe_result_late + if active {
                    1int
                } else {
                    0
                }) as u64,
                ..counters
            })
        }),
{
    let result = ProbeResult::ConnectionMatches { request_id: id, socket, matches };
    let named = |item: Pending| named_owner(result, item) is Some;
    let matched = |item: Pending|
        item.connection.local_socket == socket && match_for(matches@, item.peer()) is Some;
    lemma_same_bytes(pending, named, matched);
}

proof fn lemma_same_bytes(
    pending: Seq<Pending>,
    first: spec_fn(Pending) -> bool,
    second: spec_fn(Pending) -> bool,
)
    requires
        forall|item: Pending| #[trigger] first(item) == second(item),
    ensures
        bytes_where(pending, first) == bytes_where(pending, second),
    decreases pending.len(),
{
    if pending.len() > 0 {
        lemma_same_bytes(pending.drop_last(), first, second);
        assert(first(pending.last()) == second(pending.last()));
    }
}

/// Traffic is charged when its wait is over: the oldest pieces that have waited for the window
/// or longer, up to the first that has not. They are charged in their order, and the rest waits
/// on.
pub proof fn lemma_overdue_traffic_is_charged_in_order(
    before: PendingAttributor,
    ledger: Seq<Booking>,
    now: u128,
    started: StartTimes,
    after: PendingAttributor,
    ledger_after: Seq<Booking>,
) -> (n: int)
    requires
        expired_finalized(before, ledger, now, started, after, ledger_after),
    ensures
        0 <= n <= before.waiting().len(),
        forall|i: int|
            0 <= i < n ==> now - (#[trigger] before.waiting()[i]).pending_since >= before.window
                || before.window == 0,
        n < before.waiting().len() ==> now - before.waiting()[n].pending_since < before.window
            && before.window > 0,
        ledger_after.len() == ledger.len() + n,
        forall|k: int| 0 <= k < ledger.len() ==> #[trigger] ledger_after[k] == ledger[k],
        forall|i: int|
            0 <= i < n ==> ledger_after[ledger.len() + i] == settlement(
                #[trigger] before.waiting()[i],
                before.history,
                started,
            ),
        after.waiting().len() == before.waiting().len() - n,
        forall|i: int|
            0 <= i < after.waiting().len() ==> #[trigger] after.waiting()[i]
                == before.waiting()[n + i],
{
    let n = overdue(before.waiting(), now, before.window);
    lemma_overdue(before.waiting(), now, before.window);
    assert forall|i: int| 0 <= i < n implies ledger_after[ledger.len() + i] == settlement(
        #[trigger] before.waiting()[i],
        before.history,
        started,
    ) by {
        assert(before.waiting().take(n)[i] == before.waiting()[i]);
    }
    n
}

proof fn lemma_overdue(pending: Seq<Pending>, now: u128, window: u128)
    ensures
        0 <= overdue(pending, now, window) <= pending.len(),
        forall|i: int|
            0 <= i < overdue(pending, now, window) ==> now - (#[trigger] pending[i]).pending_since
                >= window || window == 0,
        overdue(pending, now, window) < pending.len() ==> now - pending[overdue(
            pending,
            now,
            window,
        )].pending_since < window && window > 0,
    decreases pending.len(),
{
    if pending.len() > 0 && crate::attribution::is_overdue(pending[0], now, window) {
        let rest = pending.skip(1);
        lemma_overdue(rest, now, window);
        let n = overdue(rest, now, window);
        assert forall|i: int| 0 <= i < n + 1 implies now - (#[trigger] pending[i]).pending_since
            >= window || window == 0 by {
            if i > 0 {
                assert(rest[i - 1] == pending[i]);
            }
        }
        if n < rest.len() {
            assert(rest[n] == pending[n + 1]);
        }
    }
}

} // verus!
