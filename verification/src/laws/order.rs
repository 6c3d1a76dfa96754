//! What keeps its order.

use vstd::prelude::*;

use crate::attribution::{
    generation_resolved, named_owner, peers_of, result_applied, results_applied, still_waiting,
    table_bookings, unresolved, Clock, Pending, PendingAttributor, SharedProcTable,
};
use crate::history::{AttributionHistory, HistoryInterval};
use crate::net::{LocalSocket, SocketAddr};
use crate::proc_table::{candidates_for, ProcEntry, ProcTable};
use crate::process_detail::{details_of, detailed, DetailView};
use crate::process_probe::ProbeResult;
use crate::stats::{Booking, StatsEntry};
use crate::traffic::{added_up, IdentityView, TotalsView};

verus! {

proof fn lemma_places_before_picking<T>(
    items: Seq<T>,
    pick: spec_fn(T) -> bool,
    a: int,
    b: int,
) -> (places: (int, int))
    requires
        0 <= a < b < items.filter(pick).len(),
    ensures
        0 <= places.0 < places.1 < items.len(),
        items[places.0] == items.filter(pick)[a],
        items[places.1] == items.filter(pick)[b],
    decreases items.len(),
{
    reveal(Seq::filter);
    let shorter = items.drop_last();
    let part = shorter.filter(pick);
    if b < part.len() {
        let (i, j) = lemma_places_before_picking(shorter, pick, a, b);
        (i, j)
    } else {
        shorter.lemma_filter_contains_rev(pick, part[a]);
        let i = choose|i: int| 0 <= i < shorter.len() && shorter[i] == part[a];
        (i, items.len() - 1)
    }
}

/// The processes that the table gives for a socket stand in the order of its entries.
pub proof fn lemma_owners_stand_in_the_order_of_the_table(
    entries: Seq<ProcEntry>,
    socket: LocalSocket,
    a: int,
    b: int,
) -> (places: (int, int))
    requires
        0 <= a < b < candidates_for(entries, socket).len(),
    ensures
        0 <= places.0 < places.1 < entries.len(),
        entries[places.0].info == candidates_for(entries, socket)[a],
        entries[places.1].info == candidates_for(entries, socket)[b],
{
    lemma_places_before_picking(entries, |entry: ProcEntry| entry.socket == socket, a, b)
}

/// The owners that the log gives for a socket stand in the order of its intervals.
pub proof fn lemma_owners_stand_in_the_order_of_the_log(
    history: AttributionHistory,
    socket: LocalSocket,
    at: int,
    a: int,
    b: int,
) -> (places: (int, int))
    requires
        0 <= a < b < history.owners(socket, at).len(),
    ensures
        0 <= places.0 < places.1 < history.intervals@.len(),
        history.intervals@[places.0].pid == history.owners(socket, at)[a].pid,
        history.intervals@[places.1].pid == history.owners(socket, at)[b].pid,
{
    lemma_places_before_picking(
        history.intervals@,
        |interval: HistoryInterval| interval.socket == socket && interval.covers(at),
        a,
        b,
    )
}

/// Traffic that an answer leaves waiting waits in the order in which it did.
pub proof fn lemma_answers_keep_the_order_of_waiting(
    pending: Seq<Pending>,
    result: ProbeResult,
    a: int,
    b: int,
) -> (places: (int, int))
    requires
        0 <= a < b < still_waiting(pending, result).len(),
    ensures
        0 <= places.0 < places.1 < pending.len(),
        pending[places.0] == still_waiting(pending, result)[a],
        pending[places.1] == still_waiting(pending, result)[b],
{
    lemma_places_before_picking(
        pending,
        |item: Pending| named_owner(result, item) is None,
        a,
        b,
    )
}

proof fn lemma_place_left(pending: Seq<Pending>, table: ProcTable, read_at: u128, a: int) -> (i: int)
    requires
        0 <= a < unresolved(pending, table, read_at).len(),
    ensures
        0 <= i < pending.len(),
        pending[i].connection == unresolved(pending, table, read_at)[a].connection,
    decreases pending.len(),
{
    let shorter = pending.drop_last();
    if a < unresolved(shorter, table, read_at).len() {
        lemma_place_left(shorter, table, read_at, a)
    } else {
        pending.len() - 1
    }
}

proof fn lemma_places_left(
    pending: Seq<Pending>,
    table: ProcTable,
    read_at: u128,
    a: int,
    b: int,
) -> (places: (int, int))
    requires
        0 <= a < b < unresolved(pending, table, read_at).len(),
    ensures
        0 <= places.0 < places.1 < pending.len(),
        pending[places.0].connection == unresolved(pending, table, read_at)[a].connection,
        pending[places.1].connection == unresolved(pending, table, read_at)[b].connection,
    decreases pending.len(),
{
    let shorter = pending.drop_last();
    let part = unresolved(shorter, table, read_at);
    if b < part.len() {
        lemma_places_left(shorter, table, read_at, a, b)
    } else {
        let i = lemma_place_left(shorter, table, read_at, a);
        (i, pending.len() - 1)
    }
}

/// Traffic that a look at the process table leaves waiting waits in the order in which it did.
pub proof fn lemma_looks_keep_the_order_of_waiting(
    before: PendingAttributor,
    ledger: Seq<Booking>,
    shared: SharedProcTable,
    clock: Clock,
    after: PendingAttributor,
    ledger_after: Seq<Booking>,
    shared_after: SharedProcTable,
    a: int,
    b: int,
) -> (places: (int, int))
    requires
        generation_resolved(before, ledger, shared, clock, after, ledger_after, shared_after),
        0 <= a < b < after.waiting().len(),
    ensures
        0 <= places.0 < places.1 < before.waiting().len(),
        before.waiting()[places.0].connection == after.waiting()[a].connection,
        before.waiting()[places.1].connection == after.waiting()[b].connection,
{
    if shared.poisoned || before.last_generation == Some(shared.table.generation) {
        (a, b)
    } else {
        lemma_places_left(before.waiting(), shared.table, clock.read_at, a, b)
    }
}

/// The peers that a socket is asked about with stand in the order in which traffic began to
/// wait for them.
pub proof fn lemma_new_peers_come_last(pending: Seq<Pending>, item: Pending, socket: LocalSocket)
    ensures
        ({
            let peer = SocketAddr {
                ip: item.connection.peer_ip,
                port: item.connection.peer_port,
            };
            let before = peers_of(pending, socket);
            let after = peers_of(pending.push(item), socket);
            &&& item.connection.local_socket != socket || before.contains(peer) ==> after == before
            &&& item.connection.local_socket == socket && !before.contains(peer) ==> after
                == before.push(peer)
        }),
{
    assert(pending.push(item).drop_last() =~= pending);
}

/// Answers are applied in their order, each to what the ones before it left.
pub proof fn lemma_answers_are_applied_in_their_order(
    before: PendingAttributor,
    ledger: Seq<Booking>,
    first: ProbeResult,
    second: ProbeResult,
    now: u128,
    after: PendingAttributor,
    ledger_after: Seq<Booking>,
) -> (mid: (PendingAttributor, Seq<Booking>))
    requires
        results_applied(before, ledger, seq![first, second], now, after, ledger_after),
    ensures
        result_applied(before, ledger, first, now, mid.0, mid.1),
        result_applied(mid.0, mid.1, second, now, after, ledger_after),
{
    let both = seq![first, second];
    let (one, lines) = choose|one: PendingAttributor, lines: Seq<Booking>|
        {
            &&& results_applied(before, ledger, both.drop_last(), now, one, lines)
            &&& #[trigger] result_applied(one, lines, both.last(), now, after, ledger_after)
        };
    let single = both.drop_last();
    assert(single =~= seq![first]);
    let (none, start) = choose|none: PendingAttributor, start: Seq<Booking>|
        {
            &&& results_applied(before, ledger, single.drop_last(), now, none, start)
            &&& #[trigger] result_applied(none, start, single.last(), now, one, lines)
        };
    assert(single.drop_last().len() == 0);
    assert(none == before && start == ledger);
    (one, lines)
}

/// Ledger lines are added up in their order, each on top of those before it.
pub proof fn lemma_lines_are_added_up_in_their_order(
    start: TotalsView,
    details: Seq<(IdentityView, DetailView)>,
    entries: Seq<StatsEntry>,
    next: StatsEntry,
)
    ensures
        added_up(start, Seq::<StatsEntry>::empty()) == start,
        added_up(start, entries.push(next)) == added_up(start, entries).with_entry(next),
        details_of(details, Seq::<StatsEntry>::empty()) == details,
        details_of(details, entries.push(next)) == detailed(details_of(details, entries), next),
{
    assert(entries.push(next).drop_last() =~= entries);
}

proof fn lemma_place_charged(
    pending: Seq<Pending>,
    table: ProcTable,
    read_at: u128,
    a: int,
) -> (i: int)
    requires
        0 <= a < table_bookings(pending, table, read_at).len(),
    ensures
        0 <= i < pending.len(),
        table_bookings(pending, table, read_at)[a] matches Booking::Exclusive { flow, direction, .. }
            && flow.local == pending[i].connection.local_socket && flow.remote_ip
            == pending[i].connection.peer_ip && flow.remote_port == pending[i].connection.peer_port
            && direction == pending[i].connection.direction,
    decreases pending.len(),
{
    let shorter = pending.drop_last();
    if a < table_bookings(shorter, table, read_at).len() {
        lemma_place_charged(shorter, table, read_at, a)
    } else {
        pending.len() - 1
    }
}

proof fn lemma_places_charged(
    pending: Seq<Pending>,
    table: ProcTable,
    read_at: u128,
    a: int,
    b: int,
) -> (places: (int, int))
    requires
        0 <= a < b < table_bookings(pending, table, read_at).len(),
    ensures
        0 <= places.0 < places.1 < pending.len(),
        table_bookings(pending, table, read_at)[a] matches Booking::Exclusive { flow, .. }
            && flow.local == pending[places.0].connection.local_socket && flow.remote_ip
            == pending[places.0].connection.peer_ip && flow.remote_port
            == pending[places.0].connection.peer_port,
        table_bookings(pending, table, read_at)[b] matches Booking::Exclusive { flow, .. }
            && flow.local == pending[places.1].connection.local_socket && flow.remote_ip
            == pending[places.1].connection.peer_ip && flow.remote_port
            == pending[places.1].connection.peer_port,
    decreases pending.len(),
{
    let shorter = pending.drop_last();
    let part = table_bookings(shorter, table, read_at);
    if b < part.len() {
        lemma_places_charged(shorter, table, read_at, a, b)
    } else {
        let i = lemma_place_charged(shorter, table, read_at, a);
        (i, pending.len() - 1)
    }
}

/// Traffic that a look at the process table charges is charged in the order in which it waited,
/// and nothing else is charged.
pub proof fn lemma_looks_charge_in_the_order_of_waiting(
    before: PendingAttributor,
    ledger: Seq<Booking>,
    shared: SharedProcTable,
    clock: Clock,
    after: PendingAttributor,
    ledger_after: Seq<Booking>,
    shared_after: SharedProcTable,
    a: int,
    b: int,
) -> (places: (int, int))
    requires
        generation_resolved(before, ledger, shared, clock, after, ledger_after, shared_after),
        ledger.len() <= a < b < ledger_after.len(),
    ensures
        0 <= places.0 < places.1 < before.waiting().len(),
        ledger_after[a] matches Booking::Exclusive { flow, .. } && flow.local
            == before.waiting()[places.0].connection.local_socket && flow.remote_ip
            == before.waiting()[places.0].connection.peer_ip && flow.remote_port
            == before.waiting()[places.0].connection.peer_port,
        ledger_after[b] matches Booking::Exclusive { flow, .. } && flow.local
            == before.waiting()[places.1].connection.local_socket && flow.remote_ip
            == before.waiting()[places.1].connection.peer_ip && flow.remote_port
            == before.waiting()[places.1].connection.peer_port,
{
    let n = ledger.len() as int;
    lemma_places_charged(before.waiting(), shared.table, clock.read_at, a - n, b - n)
}

} // verus!
