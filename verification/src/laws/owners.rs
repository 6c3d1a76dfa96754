//! What a look at the process table does to traffic that waits for its owner.

use vstd::prelude::*;

use crate::attribution::{
    generation_resolved, has_candidate, merged, observed_info, resolution, settlement,
    table_bookings, unresolved, Clock, Pending, PendingAttributor, Resolution, SharedProcTable,
};
use crate::history::{AttributionHistory, StartTimes};
use crate::net::{IpAddr, LocalSocket};
use crate::proc_table::{candidates_for, ProcEntry, ProcInfo, ProcTable};
use crate::stats::{Booking, Evidence, ObservedProcess, ProcFlowKey};
use crate::text::text_view;

verus! {

/// Whether the processes that the table lists at `key` are those that answer for a socket: the
/// socket's own, or, if the table lists nobody there, those on the unspecified address of its
/// family with its port and transport.
pub open spec fn answered_at(entries: Seq<ProcEntry>, socket: LocalSocket, key: LocalSocket) -> bool {
    if exists|e: int| 0 <= e < entries.len() && (#[trigger] entries[e]).socket == socket {
        key == socket
    } else {
        &&& key.port == socket.port
        &&& key.protocol == socket.protocol
        &&& match socket.ip {
            IpAddr::V4(_) => key.ip == IpAddr::V4(0),
            IpAddr::V6(_) => key.ip == IpAddr::V6(0),
        }
    }
}

/// Whether the table is one to go by: never refreshed, or not longer ago than its age limit.
pub open spec fn up_to_date(table: ProcTable, read_at: u128) -> bool {
    table.refreshed_at matches Some(at) ==> read_at - at <= table.max_age
}

pub(crate) proof fn lemma_none_picked<T>(items: Seq<T>, pick: spec_fn(T) -> bool)
    requires
        forall|i: int| 0 <= i < items.len() ==> !pick(#[trigger] items[i]),
    ensures
        items.filter(pick).len() == 0,
    decreases items.len(),
{
    reveal(Seq::filter);
    if items.len() > 0 {
        let shorter = items.drop_last();
        assert forall|i: int| 0 <= i < shorter.len() implies !pick(#[trigger] shorter[i]) by {
            assert(shorter[i] == items[i]);
        }
        lemma_none_picked(shorter, pick);
        assert(!pick(items[items.len() - 1]));
    }
}

pub(crate) proof fn lemma_one_picked<T>(items: Seq<T>, pick: spec_fn(T) -> bool, only: int)
    requires
        0 <= only < items.len(),
        forall|i: int| 0 <= i < items.len() ==> (pick(#[trigger] items[i]) <==> i == only),
    ensures
        items.filter(pick) == seq![items[only]],
    decreases items.len(),
{
    reveal(Seq::filter);
    let shorter = items.drop_last();
    assert forall|i: int| 0 <= i < shorter.len() implies (pick(#[trigger] shorter[i]) <==> i
        == only) by {
        assert(shorter[i] == items[i]);
    }
    assert(pick(items[items.len() - 1]) <==> items.len() - 1 == only);
    if only == items.len() - 1 {
        lemma_none_picked(shorter, pick);
        assert(items.filter(pick) =~= seq![items[only]]);
    } else {
        lemma_one_picked(shorter, pick, only);
    }
}

pub(crate) proof fn lemma_listed(entries: Seq<ProcEntry>, key: LocalSocket)
    ensures
        forall|e: int|
            0 <= e < entries.len() && (#[trigger] entries[e]).socket == key ==> candidates_for(
                entries,
                key,
            ).contains(entries[e].info),
        forall|c: int|
            0 <= c < candidates_for(entries, key).len() ==> exists|e: int|
                0 <= e < entries.len() && (#[trigger] entries[e]).socket == key && entries[e].info
                    == #[trigger] candidates_for(entries, key)[c],
{
    let pick = |entry: ProcEntry| entry.socket == key;
    let picked = entries.filter(pick);
    let found = candidates_for(entries, key);
    assert(found == picked.map_values(|entry: ProcEntry| entry.info));
    assert forall|e: int|
        0 <= e < entries.len() && (#[trigger] entries[e]).socket == key implies found.contains(
        entries[e].info,
    ) by {
        entries.lemma_filter_contains(pick, e);
        let c = choose|c: int| 0 <= c < picked.len() && picked[c] == entries[e];
        assert(found[c] == entries[e].info);
    }
    assert forall|c: int| 0 <= c < found.len() implies exists|e: int|
        0 <= e < entries.len() && (#[trigger] entries[e]).socket == key && entries[e].info
            == #[trigger] found[c] by {
        entries.lemma_filter_contains_rev(pick, picked[c]);
        entries.lemma_filter_pred(pick, c);
        let e = choose|e: int| 0 <= e < entries.len() && entries[e] == picked[c];
        assert(entries[e].socket == key && entries[e].info == found[c]);
    }
}

pub(crate) proof fn lemma_key(table: ProcTable, socket: LocalSocket, key: LocalSocket)
    requires
        answered_at(table.entries@, socket, key),
    ensures
        table.lookup_key(socket) == key,
{
    let entries = table.entries@;
    lemma_listed(entries, socket);
    if exists|e: int| 0 <= e < entries.len() && (#[trigger] entries[e]).socket == socket {
        let e = choose|e: int| 0 <= e < entries.len() && (#[trigger] entries[e]).socket == socket;
        assert(candidates_for(entries, socket).contains(entries[e].info));
    } else {
        lemma_none_picked(entries, |entry: ProcEntry| entry.socket == socket);
    }
}

/// Candidates that come later never push earlier ones out, each of them is listed by number and
/// path, and nobody else is.
pub proof fn lemma_candidates_gather(current: Seq<ObservedProcess>, extra: Seq<ObservedProcess>)
    ensures
        current.len() <= merged(current, extra).len(),
        forall|c: int|
            0 <= c < current.len() ==> #[trigger] merged(current, extra)[c] == current[c],
        forall|x: int|
            0 <= x < extra.len() ==> exists|c: int|
                0 <= c < merged(current, extra).len() && (#[trigger] merged(
                    current,
                    extra,
                )[c]).pid == (#[trigger] extra[x]).pid && text_view(
                    merged(current, extra)[c].path,
                ) == text_view(extra[x].path),
        forall|c: int|
            current.len() <= c < merged(current, extra).len() ==> extra.contains(
                #[trigger] merged(current, extra)[c],
            ),
    decreases extra.len(),
{
    if extra.len() > 0 {
        let shorter = extra.drop_last();
        let last = extra.last();
        lemma_candidates_gather(current, shorter);
        let prior = merged(current, shorter);
        let whole = merged(current, extra);
        assert forall|x: int| 0 <= x < extra.len() implies exists|c: int|
            0 <= c < whole.len() && (#[trigger] whole[c]).pid == (#[trigger] extra[x]).pid
                && text_view(whole[c].path) == text_view(extra[x].path) by {
            if x < shorter.len() {
                assert(shorter[x] == extra[x]);
                let c = choose|c: int|
                    0 <= c < prior.len() && (#[trigger] prior[c]).pid == shorter[x].pid
                        && text_view(prior[c].path) == text_view(shorter[x].path);
                assert(whole[c] == prior[c]);
            } else if has_candidate(prior, last) {
                let c = choose|c: int|
                    0 <= c < prior.len() && (#[trigger] prior[c]).pid == last.pid && text_view(
                        prior[c].path,
                    ) == text_view(last.path);
                assert(whole[c] == prior[c]);
            } else {
                assert(whole[prior.len() as int] == last);
            }
        }
        assert forall|c: int| current.len() <= c < whole.len() implies extra.contains(
            #[trigger] whole[c],
        ) by {
            if c < prior.len() {
                assert(prior[c] == whole[c]);
                let x = choose|x: int| 0 <= x < shorter.len() && shorter[x] == prior[c];
                assert(extra[x] == whole[c]);
            } else {
                assert(extra[extra.len() - 1] == whole[c]);
            }
        }
    }
}

proof fn lemma_left_waiting(pending: Seq<Pending>, table: ProcTable, read_at: u128, i: int) -> (k: int)
    requires
        0 <= i < pending.len(),
        !(resolution(table, pending[i].socket(), read_at) is Exclusive),
    ensures
        0 <= k < unresolved(pending, table, read_at).len(),
        unresolved(pending, table, read_at)[k] == match resolution(
            table,
            pending[i].socket(),
            read_at,
        ) {
            Resolution::Ambiguous(found) => Pending {
                candidates: merged(pending[i].candidates, found),
                ..pending[i]
            },
            _ => pending[i],
        },
    decreases pending.len(),
{
    let shorter = pending.drop_last();
    if i < shorter.len() {
        assert(shorter[i] == pending[i]);
        let k = lemma_left_waiting(shorter, table, read_at, i);
        k
    } else {
        unresolved(shorter, table, read_at).len() as int
    }
}

proof fn lemma_charged_by_table(pending: Seq<Pending>, table: ProcTable, read_at: u128, i: int) -> (
    k: int)
    requires
        0 <= i < pending.len(),
        resolution(table, pending[i].socket(), read_at) is Exclusive,
    ensures
        0 <= k < table_bookings(pending, table, read_at).len(),
        resolution(table, pending[i].socket(), read_at) matches Resolution::Exclusive(process)
            && table_bookings(pending, table, read_at)[k] == pending[i].charge(
            process,
            Evidence::Snapshot,
        ),
    decreases pending.len(),
{
    let shorter = pending.drop_last();
    if i < shorter.len() {
        assert(shorter[i] == pending[i]);
        let k = lemma_charged_by_table(shorter, table, read_at, i);
        k
    } else {
        table_bookings(shorter, table, read_at).len() as int
    }
}

proof fn lemma_owned_traffic_is_gone(
    pending: Seq<Pending>,
    table: ProcTable,
    read_at: u128,
    socket: LocalSocket,
)
    requires
        resolution(table, socket, read_at) is Exclusive,
    ensures
        forall|w: int|
            0 <= w < unresolved(pending, table, read_at).len() ==> (#[trigger] unresolved(
                pending,
                table,
                read_at,
            )[w]).socket() != socket,
    decreases pending.len(),
{
    if pending.len() > 0 {
        lemma_owned_traffic_is_gone(pending.drop_last(), table, read_at, socket);
    }
}

proof fn lemma_charged_or_waiting(pending: Seq<Pending>, table: ProcTable, read_at: u128)
    ensures
        unresolved(pending, table, read_at).len() + table_bookings(pending, table, read_at).len()
            == pending.len(),
    decreases pending.len(),
{
    if pending.len() > 0 {
        lemma_charged_or_waiting(pending.drop_last(), table, read_at);
    }
}

/// A look at the table of owners charges each piece of traffic that waited once, or leaves it
/// waiting, and never both: as many pieces wait less as there are new lines.
pub proof fn lemma_traffic_is_charged_once_or_waits(
    before: PendingAttributor,
    ledger: Seq<Booking>,
    shared: SharedProcTable,
    clock: Clock,
    after: PendingAttributor,
    ledger_after: Seq<Booking>,
    shared_after: SharedProcTable,
)
    requires
        generation_resolved(before, ledger, shared, clock, after, ledger_after, shared_after),
    ensures
        after.pending@.len() + ledger_after.len() == before.pending@.len() + ledger.len(),
{
    lemma_charged_or_waiting(before.waiting(), shared.table, clock.read_at);
    assert(after.waiting().len() == after.pending@.len());
    assert(before.waiting().len() == before.pending@.len());
}

/// Once a table of a new generation has been looked at, traffic whose socket the table gives
/// two or more owners still waits, as it was. Each of those owners is among its candidates, by
/// number and path; the candidates that it had are all still there, in their places; and nobody
/// else has joined them. So, when its wait is over, whatever the log says, its bytes are booked
/// as shared among all of them and never as nobody's.
pub proof fn lemma_several_owners_become_candidates(
    before: PendingAttributor,
    ledger: Seq<Booking>,
    shared: SharedProcTable,
    clock: Clock,
    after: PendingAttributor,
    ledger_after: Seq<Booking>,
    shared_after: SharedProcTable,
    i: int,
    key: LocalSocket,
    first: int,
    second: int,
) -> (k: int)
    requires
        generation_resolved(before, ledger, shared, clock, after, ledger_after, shared_after),
        !shared.poisoned,
        before.last_generation != Some(shared.table.generation),
        shared.table.wf(),
        up_to_date(shared.table, clock.read_at),
        0 <= i < before.pending@.len(),
        answered_at(shared.table.entries@, before.pending@[i].connection.local_socket, key),
        0 <= first < second < shared.table.entries@.len(),
        shared.table.entries@[first].socket == key,
        shared.table.entries@[second].socket == key,
    ensures
        0 <= k < after.pending@.len(),
        after.pending@[k].connection == before.pending@[i].connection,
        after.pending@[k].bytes == before.pending@[i].bytes,
        after.pending@[k].observed_at == before.pending@[i].observed_at,
        after.pending@[k].pending_since == before.pending@[i].pending_since,
        forall|e: int|
            0 <= e < shared.table.entries@.len() && (#[trigger] shared.table.entries@[e]).socket
                == key ==> exists|c: int|
                0 <= c < after.pending@[k].candidates@.len() && (
                #[trigger] after.pending@[k].candidates@[c]).pid
                    == shared.table.entries@[e].info.pid && text_view(
                    after.pending@[k].candidates@[c].path,
                ) == text_view(shared.table.entries@[e].info.path),
        before.pending@[i].candidates@.len() <= after.pending@[k].candidates@.len(),
        forall|c: int|
            0 <= c < before.pending@[i].candidates@.len()
                ==> #[trigger] after.pending@[k].candidates@[c] == before.pending@[i].candidates@[c],
        forall|c: int|
            before.pending@[i].candidates@.len() <= c < after.pending@[k].candidates@.len()
                ==> exists|e: int|
                0 <= e < shared.table.entries@.len() && (
                #[trigger] shared.table.entries@[e]).socket == key
                    && shared.table.entries@[e].info.pid == (
                #[trigger] after.pending@[k].candidates@[c]).pid
                    && shared.table.entries@[e].info.name == after.pending@[k].candidates@[c].name
                    && shared.table.entries@[e].info.path == after.pending@[k].candidates@[c].path,
        forall|history: AttributionHistory, started: StartTimes|
            #[trigger] settlement(after.pending@[k]@, history, started) == (Booking::Shared {
                candidates: after.pending@[k].candidates@,
                direction: before.pending@[i].connection.direction,
                bytes: before.pending@[i].bytes as nat,
                observed_at: before.pending@[i].observed_at as int,
                flow: ProcFlowKey {
                    local: before.pending@[i].connection.local_socket,
                    remote_ip: before.pending@[i].connection.peer_ip,
                    remote_port: before.pending@[i].connection.peer_port,
                },
            }),
{
    let table = shared.table;
    let entries = table.entries@;
    let item = before.waiting()[i];
    let found = candidates_for(entries, key);
    let named = found.map_values(|info: ProcInfo| observed_info(info));
    lemma_key(table, item.socket(), key);
    lemma_listed(entries, key);
    let a = choose|c: int| 0 <= c < found.len() && found[c] == entries[first].info;
    let b = choose|c: int| 0 <= c < found.len() && found[c] == entries[second].info;
    assert(found.contains(entries[first].info) && found.contains(entries[second].info));
    assert(entries[first].info.pid != entries[second].info.pid);
    assert(a != b);
    assert(resolution(table, item.socket(), clock.read_at) == Resolution::Ambiguous(named));
    let k = lemma_left_waiting(before.waiting(), table, clock.read_at, i);
    let left = after.waiting()[k];
    assert(left == after.pending@[k]@);
    lemma_candidates_gather(item.candidates, named);
    let kept = left.candidates;
    assert(kept == merged(item.candidates, named));
    assert forall|e: int|
        0 <= e < entries.len() && (#[trigger] entries[e]).socket == key implies exists|c: int|
        0 <= c < kept.len() && (#[trigger] kept[c]).pid == entries[e].info.pid && text_view(
            kept[c].path,
        ) == text_view(entries[e].info.path) by {
        assert(found.contains(entries[e].info));
        let x = choose|x: int| 0 <= x < found.len() && found[x] == entries[e].info;
        assert(named[x].pid == entries[e].info.pid && named[x].path == entries[e].info.path);
    }
    assert forall|c: int| item.candidates.len() <= c < kept.len() implies exists|e: int|
        0 <= e < entries.len() && (#[trigger] entries[e]).socket == key && entries[e].info.pid == (
        #[trigger] kept[c]).pid && entries[e].info.name == kept[c].name && entries[e].info.path
            == kept[c].path by {
        assert(named.contains(kept[c]));
        let x = choose|x: int| 0 <= x < named.len() && named[x] == kept[c];
        let e = choose|e: int|
            0 <= e < entries.len() && (#[trigger] entries[e]).socket == key && entries[e].info
                == found[x];
        assert(entries[e].info.pid == kept[c].pid);
    }
    let c1 = choose|c: int|
        0 <= c < kept.len() && (#[trigger] kept[c]).pid == entries[first].info.pid && text_view(
            kept[c].path,
        ) == text_view(entries[first].info.path);
    let c2 = choose|c: int|
        0 <= c < kept.len() && (#[trigger] kept[c]).pid == entries[second].info.pid && text_view(
            kept[c].path,
        ) == text_view(entries[second].info.path);
    assert(c1 != c2);
    assert(kept.len() >= 2);
    k
}

/// Once a table of a new generation has been looked at, traffic whose socket the table gives
/// exactly one owner is charged to that owner: the line names the process with its name and
/// path, and has the traffic's direction, bytes, time and endpoints. No traffic of that socket
/// waits any longer.
pub proof fn lemma_sole_owner_is_charged(
    before: PendingAttributor,
    ledger: Seq<Booking>,
    shared: SharedProcTable,
    clock: Clock,
    after: PendingAttributor,
    ledger_after: Seq<Booking>,
    shared_after: SharedProcTable,
    i: int,
    key: LocalSocket,
    only: int,
) -> (k: int)
    requires
        generation_resolved(before, ledger, shared, clock, after, ledger_after, shared_after),
        !shared.poisoned,
        before.last_generation != Some(shared.table.generation),
        up_to_date(shared.table, clock.read_at),
        0 <= i < before.pending@.len(),
        answered_at(shared.table.entries@, before.pending@[i].connection.local_socket, key),
        0 <= only < shared.table.entries@.len(),
        forall|e: int|
            0 <= e < shared.table.entries@.len() ==> ((
            #[trigger] shared.table.entries@[e]).socket == key <==> e == only),
    ensures
        ledger.len() <= k < ledger_after.len(),
        ledger_after[k] == (Booking::Exclusive {
            process: ObservedProcess {
                pid: shared.table.entries@[only].info.pid,
                name: shared.table.entries@[only].info.name,
                path: shared.table.entries@[only].info.path,
            },
            direction: before.pending@[i].connection.direction,
            bytes: before.pending@[i].bytes as nat,
            observed_at: before.pending@[i].observed_at as int,
            evidence: Evidence::Snapshot,
            flow: ProcFlowKey {
                local: before.pending@[i].connection.local_socket,
                remote_ip: before.pending@[i].connection.peer_ip,
                remote_port: before.pending@[i].connection.peer_port,
            },
        }),
        forall|w: int|
            0 <= w < after.pending@.len() ==> (
            #[trigger] after.pending@[w]).connection.local_socket
                != before.pending@[i].connection.local_socket,
{
    let table = shared.table;
    let entries = table.entries@;
    let item = before.waiting()[i];
    lemma_key(table, item.socket(), key);
    let pick = |entry: ProcEntry| entry.socket == key;
    lemma_one_picked(entries, pick, only);
    assert(candidates_for(entries, key) =~= seq![entries[only].info]);
    let k = lemma_charged_by_table(before.waiting(), table, clock.read_at, i);
    lemma_owned_traffic_is_gone(before.waiting(), table, clock.read_at, item.socket());
    assert forall|w: int| 0 <= w < after.pending@.len() implies (
    #[trigger] after.pending@[w]).connection.local_socket != item.socket() by {
        assert(after.waiting()[w] == after.pending@[w]@);
    }
    ledger.len() + k
}

/// Once a table of a new generation has been looked at, traffic whose socket the table gives no
/// owner waits on as it was; so does all traffic if the table is too old to go by.
pub proof fn lemma_unowned_traffic_waits_on(
    before: PendingAttributor,
    ledger: Seq<Booking>,
    shared: SharedProcTable,
    clock: Clock,
    after: PendingAttributor,
    ledger_after: Seq<Booking>,
    shared_after: SharedProcTable,
    i: int,
    key: LocalSocket,
) -> (k: int)
    requires
        generation_resolved(before, ledger, shared, clock, after, ledger_after, shared_after),
        !shared.poisoned,
        before.last_generation != Some(shared.table.generation),
        0 <= i < before.pending@.len(),
        answered_at(shared.table.entries@, before.pending@[i].connection.local_socket, key),
        up_to_date(shared.table, clock.read_at) ==> forall|e: int|
            0 <= e < shared.table.entries@.len() ==> (#[trigger] shared.table.entries@[e]).socket
                != key,
    ensures
        0 <= k < after.pending@.len(),
        after.pending@[k].connection == before.pending@[i].connection,
        after.pending@[k].bytes == before.pending@[i].bytes,
        after.pending@[k].observed_at == before.pending@[i].observed_at,
        after.pending@[k].pending_since == before.pending@[i].pending_since,
        after.pending@[k].candidates@ == before.pending@[i].candidates@,
{
    let table = shared.table;
    let item = before.waiting()[i];
    lemma_key(table, item.socket(), key);
    if up_to_date(table, clock.read_at) {
        lemma_none_picked(table.entries@, |entry: ProcEntry| entry.socket == key);
    }
    let k = lemma_left_waiting(before.waiting(), table, clock.read_at, i);
    assert(after.waiting()[k] == after.pending@[k]@);
    k
}

} // verus!
