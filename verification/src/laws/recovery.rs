//! What the interval log gives back of the scans that went into it.

use vstd::prelude::*;

use crate::attribution::{settlement, Pending};
use crate::history::{
    first_start, interval_of, lemma_interval_listed, scanned, updated,
    AttributionHistory, HistoryInterval, StartTimes,
};
use crate::net::LocalSocket;
use crate::proc_table::{ProcEntry, ProcInfo};
use crate::stats::{Booking, Evidence, ObservedProcess, ProcFlowKey};

verus! {

/// If an interval of a socket and a process holds the instant, the owners that are found for
/// the socket hold the process, with the number, the very name and the very path that the
/// interval has.
pub proof fn lemma_covering_interval_is_found(history: AttributionHistory, i: int, at: int) -> (
    c: int)
    requires
        0 <= i < history.intervals@.len(),
        history.intervals@[i].valid_from <= at,
        history.intervals@[i].valid_to matches Some(to) ==> at <= to,
    ensures
        0 <= c < history.owners(history.intervals@[i].socket, at).len(),
        history.owners(history.intervals@[i].socket, at)[c].pid == history.intervals@[i].pid,
        history.owners(history.intervals@[i].socket, at)[c].name == history.intervals@[i].name,
        history.owners(history.intervals@[i].socket, at)[c].path == history.intervals@[i].path,
{
    let log = history.intervals@;
    let socket = log[i].socket;
    let pick = |interval: HistoryInterval| interval.socket == socket && interval.covers(at);
    log.lemma_filter_contains(pick, i);
    let c = choose|c: int| 0 <= c < log.filter(pick).len() && log.filter(pick)[c] == log[i];
    assert(history.owners(socket, at)[c] == log[i].process());
    c
}

/// Every owner that is found for a socket and an instant has an interval of that socket that
/// holds the instant, from which it takes its number, name and path.
pub proof fn lemma_found_owner_has_an_interval(
    history: AttributionHistory,
    socket: LocalSocket,
    at: int,
    c: int,
) -> (i: int)
    requires
        0 <= c < history.owners(socket, at).len(),
    ensures
        0 <= i < history.intervals@.len(),
        history.intervals@[i].socket == socket,
        history.intervals@[i].valid_from <= at,
        history.intervals@[i].valid_to matches Some(to) ==> at <= to,
        history.owners(socket, at)[c].pid == history.intervals@[i].pid,
        history.owners(socket, at)[c].name == history.intervals@[i].name,
        history.owners(socket, at)[c].path == history.intervals@[i].path,
{
    let log = history.intervals@;
    let pick = |interval: HistoryInterval| interval.socket == socket && interval.covers(at);
    let picked = log.filter(pick);
    log.lemma_filter_contains_rev(pick, picked[c]);
    log.lemma_filter_pred(pick, c);
    let i = choose|i: int| 0 <= i < log.len() && log[i] == picked[c];
    i
}

proof fn lemma_last_line_counts(entries: Seq<ProcEntry>, e: int)
    requires
        0 <= e < entries.len(),
        forall|later: int|
            e < later < entries.len() ==> !((#[trigger] entries[later]).socket == entries[e].socket
                && entries[later].info.pid == entries[e].info.pid),
    ensures
        scanned(entries, entries[e].socket, entries[e].info.pid) == Some(entries[e].info),
    decreases entries.len(),
{
    let shorter = entries.drop_last();
    if e < shorter.len() {
        assert(shorter[e] == entries[e]);
        assert forall|later: int| e < later < shorter.len() implies !((
        #[trigger] shorter[later]).socket == shorter[e].socket && shorter[later].info.pid
            == shorter[e].info.pid) by {
            assert(shorter[later] == entries[later]);
        }
        lemma_last_line_counts(shorter, e);
        assert(!(entries[entries.len() - 1].socket == entries[e].socket
            && entries[entries.len() - 1].info.pid == entries[e].info.pid));
    }
}

proof fn lemma_not_shown(entries: Seq<ProcEntry>, socket: LocalSocket, pid: u32)
    requires
        forall|e: int|
            0 <= e < entries.len() ==> !((#[trigger] entries[e]).socket == socket
                && entries[e].info.pid == pid),
    ensures
        scanned(entries, socket, pid) is None,
    decreases entries.len(),
{
    if entries.len() > 0 {
        let shorter = entries.drop_last();
        assert forall|e: int| 0 <= e < shorter.len() implies !((#[trigger] shorter[e]).socket
            == socket && shorter[e].info.pid == pid) by {
            assert(shorter[e] == entries[e]);
        }
        lemma_not_shown(shorter, socket, pid);
        assert(!(entries[entries.len() - 1].socket == socket && entries[entries.len() - 1].info.pid
            == pid));
    }
}

/// Whether a scan shows a process on a socket, with what its last line for them says.
pub open spec fn shows(
    entries: Seq<ProcEntry>,
    socket: LocalSocket,
    pid: u32,
    info: ProcInfo,
) -> bool {
    exists|e: int|
        {
            &&& 0 <= e < entries.len()
            &&& (#[trigger] entries[e]).socket == socket
            &&& entries[e].info.pid == pid
            &&& entries[e].info == info
            &&& forall|later: int|
                e < later < entries.len() ==> !((#[trigger] entries[later]).socket == socket
                    && entries[later].info.pid == pid)
        }
}

/// Whether no line of a scan shows a process on a socket.
pub open spec fn omits(entries: Seq<ProcEntry>, socket: LocalSocket, pid: u32) -> bool {
    forall|e: int|
        0 <= e < entries.len() ==> !((#[trigger] entries[e]).socket == socket
            && entries[e].info.pid == pid)
}

proof fn lemma_shown(entries: Seq<ProcEntry>, socket: LocalSocket, pid: u32, info: ProcInfo)
    requires
        shows(entries, socket, pid, info),
    ensures
        scanned(entries, socket, pid) == Some(info),
{
    let e = choose|e: int|
        {
            &&& 0 <= e < entries.len()
            &&& (#[trigger] entries[e]).socket == socket
            &&& entries[e].info.pid == pid
            &&& entries[e].info == info
            &&& forall|later: int|
                e < later < entries.len() ==> !((#[trigger] entries[later]).socket == socket
                    && entries[later].info.pid == pid)
        };
    lemma_last_line_counts(entries, e);
}

/// A scan writes down what it shows: afterwards the socket's owners, from the time of the scan
/// on or, if the log had the pairing open, from the time at which that began, hold the process
/// with the name and path of the scan's last line for it.
pub proof fn lemma_scan_is_written_down(
    before: AttributionHistory,
    entries: Seq<ProcEntry>,
    now: i128,
    cutoff: int,
    after: AttributionHistory,
    socket: LocalSocket,
    pid: u32,
    info: ProcInfo,
    at: int,
) -> (c: int)
    requires
        updated(
            before.intervals@,
            entries,
            now,
            cutoff,
            before.capacity as nat,
            after.intervals@,
        ),
        shows(entries, socket, pid, info),
        match interval_of(before.intervals@, socket, pid) {
            Some(open) if open.valid_to is None => open.valid_from <= at,
            _ => now <= at,
        },
    ensures
        0 <= c < after.owners(socket, at).len(),
        after.owners(socket, at)[c].pid == pid,
        after.owners(socket, at)[c].name == info.name,
        after.owners(socket, at)[c].path == info.path,
{
    let log = after.intervals@;
    lemma_shown(entries, socket, pid, info);
    assert(interval_of(log, socket, pid) is Some);
    lemma_interval_listed(log, socket, pid);
    let interval = interval_of(log, socket, pid)->0;
    let i = choose|i: int| 0 <= i < log.len() && log[i] == interval;
    lemma_covering_interval_is_found(after, i, at)
}

/// A pairing that a scan does not show any more keeps the name and the path that it had, and
/// closes at the time of the scan if it was open: it is found for all times up to then, and for
/// none after it.
pub proof fn lemma_omitted_pairing_keeps_its_name(
    before: Seq<HistoryInterval>,
    entries: Seq<ProcEntry>,
    now: i128,
    cutoff: int,
    capacity: nat,
    after: Seq<HistoryInterval>,
    socket: LocalSocket,
    pid: u32,
)
    requires
        updated(before, entries, now, cutoff, capacity, after),
        omits(entries, socket, pid),
    ensures
        interval_of(after, socket, pid) matches Some(kept) ==> {
            &&& interval_of(before, socket, pid) matches Some(had) && {
                &&& kept.socket == had.socket
                &&& kept.pid == had.pid
                &&& kept.name == had.name
                &&& kept.path == had.path
                &&& kept.valid_from == had.valid_from
                &&& had.valid_to is None ==> kept.valid_to == Some(now)
                &&& had.valid_to is Some ==> kept.valid_to == had.valid_to
            }
        },
{
    lemma_not_shown(entries, socket, pid);
    lemma_interval_listed(before, socket, pid);
    let kept = interval_of(after, socket, pid);
}

/// After any number of scans, what the log holds of a socket and a process has the very name
/// and the very path that the last scan which showed the pairing gave.
pub proof fn lemma_last_scan_names_the_owner(
    logs: Seq<Seq<HistoryInterval>>,
    scans: Seq<Seq<ProcEntry>>,
    times: Seq<i128>,
    cutoffs: Seq<int>,
    capacity: nat,
    last: int,
    socket: LocalSocket,
    pid: u32,
    info: ProcInfo,
)
    requires
        logs.len() == scans.len() + 1,
        times.len() == scans.len(),
        cutoffs.len() == scans.len(),
        forall|k: int|
            0 <= k < scans.len() ==> updated(
                logs[k],
                #[trigger] scans[k],
                times[k],
                cutoffs[k],
                capacity,
                logs[k + 1],
            ),
        0 <= last < scans.len(),
        shows(scans[last], socket, pid, info),
        forall|k: int| last < k < scans.len() ==> omits(#[trigger] scans[k], socket, pid),
    ensures
        interval_of(logs.last(), socket, pid) matches Some(kept) ==> {
            &&& kept.pid == pid
            &&& kept.name == info.name
            &&& kept.path == info.path
        },
    decreases scans.len(),
{
    let n = scans.len() - 1;
    assert(updated(logs[n], scans[n], times[n], cutoffs[n], capacity, logs[n + 1]));
    if last == n {
        lemma_shown(scans[n], socket, pid, info);
        let kept = interval_of(logs[n + 1], socket, pid);
    } else {
        assert forall|k: int| 0 <= k < scans.drop_last().len() implies updated(
            logs.drop_last()[k],
            #[trigger] scans.drop_last()[k],
            times.drop_last()[k],
            cutoffs.drop_last()[k],
            capacity,
            logs.drop_last()[k + 1],
        ) by {
            assert(scans.drop_last()[k] == scans[k]);
        }
        assert forall|k: int| last < k < scans.drop_last().len() implies omits(
            #[trigger] scans.drop_last()[k],
            socket,
            pid,
        ) by {
            assert(scans.drop_last()[k] == scans[k]);
        }
        lemma_last_scan_names_the_owner(
            logs.drop_last(),
            scans.drop_last(),
            times.drop_last(),
            cutoffs.drop_last(),
            capacity,
            last,
            socket,
            pid,
            info,
        );
        assert(omits(scans[n], socket, pid));
        lemma_omitted_pairing_keeps_its_name(
            logs[n],
            scans[n],
            times[n],
            cutoffs[n],
            capacity,
            logs[n + 1],
            socket,
            pid,
        );
    }
}

proof fn lemma_first_start(known: Seq<(u32, i128)>, k: int)
    requires
        0 <= k < known.len(),
        forall|earlier: int| 0 <= earlier < k ==> (#[trigger] known[earlier]).0 != known[k].0,
    ensures
        first_start(known, known[k].0) == Some(known[k].1),
    decreases k,
{
    if k > 0 {
        let rest = known.drop_first();
        assert(known[0].0 != known[k].0);
        assert(rest[k - 1] == known[k]);
        assert forall|earlier: int| 0 <= earlier < k - 1 implies (#[trigger] rest[earlier]).0
            != rest[k - 1].0 by {
            assert(rest[earlier] == known[earlier + 1]);
        }
        lemma_first_start(rest, k - 1);
    }
}

/// An owner that the log finds, and whose start time is known to be no later than the traffic,
/// is recovered with its name and path.
pub proof fn lemma_earlier_process_is_recovered(
    history: AttributionHistory,
    i: int,
    at: int,
    started: StartTimes,
    k: int,
) -> (c: int)
    requires
        0 <= i < history.intervals@.len(),
        history.intervals@[i].valid_from <= at,
        history.intervals@[i].valid_to matches Some(to) ==> at <= to,
        0 <= k < started.known@.len(),
        started.known@[k].0 == history.intervals@[i].pid,
        forall|earlier: int|
            0 <= earlier < k ==> (#[trigger] started.known@[earlier]).0
                != history.intervals@[i].pid,
        started.known@[k].1 <= at,
    ensures
        0 <= c < history.verified_owners(history.intervals@[i].socket, at, started).len(),
        history.verified_owners(history.intervals@[i].socket, at, started)[c] == (ObservedProcess {
            pid: history.intervals@[i].pid,
            name: history.intervals@[i].name,
            path: history.intervals@[i].path,
        }),
{
    let socket = history.intervals@[i].socket;
    let owners = history.owners(socket, at);
    let known = |process: ObservedProcess|
        started.of(process.pid) matches Some(start) && start <= at;
    let o = lemma_covering_interval_is_found(history, i, at);
    lemma_first_start(started.known@, k);
    owners.lemma_filter_contains(known, o);
    let kept = owners.filter(known);
    let c = choose|c: int| 0 <= c < kept.len() && kept[c] == owners[o];
    c
}

/// When its wait is over, traffic with two or more candidates is booked as shared among them.
/// Any other goes by the owners that the log vouches for: to nobody without one, to the one
/// alone, or shared among several. The line has the traffic's direction, bytes, time and
/// endpoints.
pub proof fn lemma_settlement_follows_the_owners(
    item: Pending,
    history: AttributionHistory,
    started: StartTimes,
)
    ensures
        ({
            let owners = history.verified_owners(
                item.connection.local_socket,
                item.observed_at as int,
                started,
            );
            let flow = ProcFlowKey {
                local: item.connection.local_socket,
                remote_ip: item.connection.peer_ip,
                remote_port: item.connection.peer_port,
            };
            let line = settlement(item, history, started);
            let shared = |candidates: Seq<ObservedProcess>|
                Booking::Shared {
                    candidates,
                    direction: item.connection.direction,
                    bytes: item.bytes as nat,
                    observed_at: item.observed_at as int,
                    flow,
                };
            &&& item.candidates.len() >= 2 ==> line == shared(item.candidates)
            &&& item.candidates.len() < 2 && owners.len() >= 2 ==> line == shared(owners)
            &&& item.candidates.len() < 2 && owners.len() == 1 ==> line == (Booking::Exclusive {
                process: owners[0],
                direction: item.connection.direction,
                bytes: item.bytes as nat,
                observed_at: item.observed_at as int,
                evidence: Evidence::History,
                flow,
            })
            &&& item.candidates.len() < 2 && owners.len() == 0 ==> line == (Booking::Unattributed {
                direction: item.connection.direction,
                bytes: item.bytes as nat,
                observed_at: item.observed_at as int,
            })
        }),
{
}

} // verus!
