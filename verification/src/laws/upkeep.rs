//! What regular upkeep keeps, drops and counts.

use vstd::prelude::*;

use crate::attribution::{
    due_sockets, generation_resolved, lookup_counters, oldest_finalized, retried, settlement,
    swept_counters, Clock, Pending, PendingAttributor, ProbeSide, SharedProcTable,
};
use crate::history::{
    interval_of, pruned, scanned, updated, HistoryInterval, StartTimes,
};
use crate::laws::answers::lemma_two_picked;
use crate::laws::owners::{
    answered_at, lemma_key, lemma_listed, lemma_none_picked, lemma_one_picked, up_to_date,
};
use crate::laws::recovery::omits;
use crate::net::LocalSocket;
use crate::proc_table::{
    candidates_for, LookupMissReason, LookupOutcome, ProcEntry, ProcInfo, ProcTable,
};
use crate::process_probe::{abandoned, ProbeRequestId, ProbeResult};
use crate::stats::Booking;
use crate::time::{is_instant, nanos_of, seconds_of};

verus! {

/// A lookup in a table that is too old says just that, and one that finds nobody says so.
pub proof fn lemma_lookup_finds_nobody(
    table: ProcTable,
    socket: LocalSocket,
    now: u128,
    outcome: LookupOutcome<'_>,
    key: LocalSocket,
)
    requires
        table.finds(socket, now, outcome),
        answered_at(table.entries@, socket, key),
    ensures
        !up_to_date(table, now) <==> outcome == LookupOutcome::Miss(LookupMissReason::Stale),
        outcome != LookupOutcome::Miss(LookupMissReason::Ambiguous),
        up_to_date(table, now) && (forall|e: int|
            0 <= e < table.entries@.len() ==> (#[trigger] table.entries@[e]).socket != key)
            ==> outcome == LookupOutcome::Miss(LookupMissReason::NoCandidate),
{
    lemma_key(table, socket, key);
    if forall|e: int|
        0 <= e < table.entries@.len() ==> (#[trigger] table.entries@[e]).socket != key {
        lemma_none_picked(table.entries@, |entry: ProcEntry| entry.socket == key);
    }
}

/// A lookup that finds one process names it with its number, name and path, and says whether it
/// was found under an alias.
pub proof fn lemma_lookup_finds_the_sole_owner(
    table: ProcTable,
    socket: LocalSocket,
    now: u128,
    outcome: LookupOutcome<'_>,
    key: LocalSocket,
    only: int,
)
    requires
        table.finds(socket, now, outcome),
        answered_at(table.entries@, socket, key),
        up_to_date(table, now),
        0 <= only < table.entries@.len(),
        forall|e: int|
            0 <= e < table.entries@.len() ==> ((#[trigger] table.entries@[e]).socket == key <==> e
                == only),
    ensures
        outcome matches LookupOutcome::Hit { process, v4_mapped } && process.pid
            == table.entries@[only].info.pid && process.name == table.entries@[only].info.name
            && process.path == table.entries@[only].info.path && v4_mapped
            == table.v4_mapped_aliases@.contains(key),
{
    lemma_key(table, socket, key);
    lemma_one_picked(table.entries@, |entry: ProcEntry| entry.socket == key, only);
    assert(candidates_for(table.entries@, key) =~= seq![table.entries@[only].info]);
}

/// A lookup that finds several processes gives all of them, and nobody else.
pub proof fn lemma_lookup_finds_several_owners(
    table: ProcTable,
    socket: LocalSocket,
    now: u128,
    outcome: LookupOutcome<'_>,
    key: LocalSocket,
    first: int,
    second: int,
) -> (found: Seq<ProcInfo>)
    requires
        table.finds(socket, now, outcome),
        answered_at(table.entries@, socket, key),
        up_to_date(table, now),
        0 <= first < second < table.entries@.len(),
        table.entries@[first].socket == key,
        table.entries@[second].socket == key,
    ensures
        outcome matches LookupOutcome::Ambiguous { processes } && processes@.len() == found.len()
            && forall|p: int| 0 <= p < found.len() ==> *(#[trigger] processes@[p]) == found[p],
        forall|e: int|
            0 <= e < table.entries@.len() && (#[trigger] table.entries@[e]).socket == key
                ==> found.contains(table.entries@[e].info),
        forall|p: int|
            0 <= p < found.len() ==> exists|e: int|
                0 <= e < table.entries@.len() && (#[trigger] table.entries@[e]).socket == key
                    && table.entries@[e].info == #[trigger] found[p],
{
    lemma_key(table, socket, key);
    lemma_listed(table.entries@, key);
    lemma_two_picked(table.entries@, |entry: ProcEntry| entry.socket == key, first, second);
    candidates_for(table.entries@, key)
}

/// One lookup counts as a hit exactly if the table names one owner, else as a miss of one kind
/// with its bytes; a miss asks for a refresh only where that is wanted.
pub proof fn lemma_one_lookup_is_counted(
    table: ProcTable,
    socket: LocalSocket,
    request: bool,
    bytes: u64,
    read_at: u128,
    key: LocalSocket,
)
    requires
        answered_at(table.entries@, socket, key),
    ensures
        ({
            let was = table.counters;
            let now = lookup_counters(table, socket, request, bytes, read_at);
            let count = table.entries@.filter(|entry: ProcEntry| entry.socket == key).len();
            let stale = !up_to_date(table, read_at);
            let hit = !stale && count == 1;
            let none = !stale && count == 0;
            let several = !stale && count >= 2;
            let one = |so: bool, was: u64, now: u64|
                now == if so {
                    was.wrapping_add(1)
                } else {
                    was
                };
            let some = |so: bool, was: u64, now: u64|
                now == if so {
                    was.wrapping_add(bytes)
                } else {
                    was
                };
            &&& one(hit, was.lookup_hits, now.lookup_hits)
            &&& one(!hit, was.lookup_misses, now.lookup_misses)
            &&& one(stale, was.lookup_stale, now.lookup_stale)
            &&& some(stale, was.lookup_stale_bytes, now.lookup_stale_bytes)
            &&& one(none, was.lookup_no_candidate, now.lookup_no_candidate)
            &&& some(none, was.lookup_no_candidate_bytes, now.lookup_no_candidate_bytes)
            &&& one(several, was.lookup_ambiguous, now.lookup_ambiguous)
            &&& some(several, was.lookup_ambiguous_bytes, now.lookup_ambiguous_bytes)
            &&& one(!hit && request, was.refresh_requests, now.refresh_requests)
        }),
{
    lemma_key(table, socket, key);
}

/// A look at the table for all waiting traffic looks up each piece once, with its own socket
/// and its own bytes, and asks for no refresh.
pub proof fn lemma_each_waiting_piece_is_looked_up_once(
    pending: Seq<Pending>,
    item: Pending,
    table: ProcTable,
    read_at: u128,
)
    ensures
        swept_counters(Seq::<Pending>::empty(), table, read_at) == table.counters,
        swept_counters(pending.push(item), table, read_at) == lookup_counters(
            ProcTable { counters: swept_counters(pending, table, read_at), ..table },
            item.connection.local_socket,
            false,
            item.bytes,
            read_at,
        ),
{
    assert(pending.push(item).drop_last() =~= pending);
}

/// A table of the generation that was last looked at is not looked at again, and neither is one
/// that somebody failed with. Any other is remembered, and neither its owners nor its requests
/// change.
pub proof fn lemma_each_generation_is_looked_at_once(
    before: PendingAttributor,
    ledger: Seq<Booking>,
    shared: SharedProcTable,
    clock: Clock,
    after: PendingAttributor,
    ledger_after: Seq<Booking>,
    shared_after: SharedProcTable,
)
    requires
        generation_resolved(before, ledger, shared, clock, after, ledger_after, shared_after),
    ensures
        shared.poisoned || before.last_generation == Some(shared.table.generation) ==> {
            &&& after == before
            &&& ledger_after == ledger
            &&& shared_after == shared
        },
        !shared.poisoned ==> {
            &&& after.last_generation == Some(shared.table.generation)
            &&& shared_after.table.entries == shared.table.entries
            &&& shared_after.table.generation == shared.table.generation
            &&& shared_after.table.refresh == shared.table.refresh
            &&& shared_after.table.lookup_miss_samples@ == shared.table.lookup_miss_samples@
        },
        after.window == before.window,
        after.capacity == before.capacity,
        after.probe_state == before.probe_state,
        after.counters == before.counters,
{
}

/// A scan opens an interval for each pairing that it shows and closes no other than those that
/// it does not show; what it leaves open is open from the time at which it began.
pub proof fn lemma_open_intervals_are_those_of_the_scan(
    before: Seq<HistoryInterval>,
    entries: Seq<ProcEntry>,
    now: i128,
    cutoff: int,
    capacity: nat,
    after: Seq<HistoryInterval>,
    socket: LocalSocket,
    pid: u32,
)
    requires
        updated(before, entries, now, cutoff, capacity, after),
    ensures
        (interval_of(after, socket, pid) matches Some(kept) && kept.valid_to is None) <==> scanned(
            entries,
            socket,
            pid,
        ) is Some,
        interval_of(after, socket, pid) matches Some(kept) ==> kept.valid_to is None
            ==> kept.valid_from == match interval_of(before, socket, pid) {
            Some(had) if had.valid_to is None => had.valid_from,
            _ => now,
        },
{
    let kept = interval_of(after, socket, pid);
}

/// A closed interval goes when it closed before the cutoff, and beyond the capacity those that
/// closed first go first. No other interval goes.
pub proof fn lemma_intervals_go_by_their_end(
    before: Seq<HistoryInterval>,
    entries: Seq<ProcEntry>,
    now: i128,
    cutoff: int,
    capacity: nat,
    after: Seq<HistoryInterval>,
    socket: LocalSocket,
    pid: u32,
    had: HistoryInterval,
)
    requires
        updated(before, entries, now, cutoff, capacity, after),
        omits(entries, socket, pid),
        interval_of(before, socket, pid) == Some(had),
    ensures
        ({
            let end = match had.valid_to {
                Some(to) => to,
                None => now,
            };
            let kept = interval_of(after, socket, pid);
            &&& end < cutoff ==> kept is None
            &&& end >= cutoff && after.len() < capacity ==> kept is Some
            &&& end >= cutoff && kept is None ==> after.len() >= capacity && forall|j: int|
                0 <= j < after.len() ==> ((#[trigger] after[j]).valid_to matches Some(to) ==> end
                    <= to)
        }),
{
    lemma_scan_omits(entries, socket, pid);
    let kept = interval_of(after, socket, pid);
}

proof fn lemma_scan_omits(entries: Seq<ProcEntry>, socket: LocalSocket, pid: u32)
    requires
        omits(entries, socket, pid),
    ensures
        scanned(entries, socket, pid) is None,
    decreases entries.len(),
{
    if entries.len() > 0 {
        let shorter = entries.drop_last();
        assert forall|e: int| 0 <= e < shorter.len() implies !((#[trigger] shorter[e]).socket
            == socket && shorter[e].info.pid == pid) by {
            assert(shorter[e] == entries[e]);
        }
        lemma_scan_omits(shorter, socket, pid);
        assert(!(entries[entries.len() - 1].socket == socket && entries[entries.len() - 1].info.pid
            == pid));
    }
}

/// Pruning drops what closed before the cutoff, keeps every open interval, adds nothing, and
/// beyond the capacity drops those that closed first.
pub proof fn lemma_pruning_goes_by_the_end(
    before: Seq<HistoryInterval>,
    cutoff: int,
    capacity: nat,
    after: Seq<HistoryInterval>,
    interval: HistoryInterval,
)
    requires
        pruned(before, cutoff, capacity, after),
    ensures
        after.contains(interval) ==> before.contains(interval) && (interval.valid_to matches Some(to)
            ==> to >= cutoff),
        before.contains(interval) && interval.valid_to is None ==> after.contains(interval),
        before.contains(interval) && interval.valid_to is Some && interval.valid_to->0 >= cutoff
            && !after.contains(interval) ==> {
            &&& after.len() >= capacity
            &&& forall|j: int|
                0 <= j < after.len() ==> ((#[trigger] after[j]).valid_to matches Some(to)
                    ==> interval.valid_to->0 <= to)
        },
{
    let keep = |interval: HistoryInterval| !interval.closed_before(cutoff);
    let kept = before.filter(keep);
    if after.contains(interval) {
        let i = choose|i: int| 0 <= i < after.len() && after[i] == interval;
        assert(kept.contains(after[i]));
        let k = choose|k: int| 0 <= k < kept.len() && kept[k] == interval;
        before.lemma_filter_contains_rev(keep, interval);
        before.lemma_filter_pred(keep, k);
    }
    if before.contains(interval) && keep(interval) {
        let i = choose|i: int| 0 <= i < before.len() && before[i] == interval;
        before.lemma_filter_contains(keep, i);
        let k = choose|k: int| 0 <= k < kept.len() && kept[k] == interval;
        assert(kept[k] == interval);
        if !after.contains(interval) {
            assert(kept.len() > capacity) by {
                if kept.len() <= capacity {
                    assert(after == kept);
                }
            }
            assert forall|j: int| 0 <= j < after.len() implies ((
            #[trigger] after[j]).valid_to matches Some(to) ==> interval.valid_to->0 <= to) by {
                assert(!after.contains(kept[k]));
            }
        }
    }
}

/// When the oldest piece of traffic is charged before its time, its line is that of the end of
/// its wait, its bytes count as pushed out or as run out, and the rest waits on in its order.
pub proof fn lemma_oldest_piece_is_charged(
    before: PendingAttributor,
    ledger: Seq<Booking>,
    capacity: bool,
    started: StartTimes,
    after: PendingAttributor,
    ledger_after: Seq<Booking>,
)
    requires
        oldest_finalized(before, ledger, capacity, started, after, ledger_after),
        before.waiting().len() > 0,
        before.counters.pending_capacity_bytes + before.waiting()[0].bytes <= u64::MAX,
        before.counters.pending_expired_bytes + before.waiting()[0].bytes <= u64::MAX,
    ensures
        ledger_after == ledger.push(settlement(before.waiting()[0], before.history, started)),
        after.waiting().len() == before.waiting().len() - 1,
        forall|i: int|
            0 <= i < after.waiting().len() ==> #[trigger] after.waiting()[i]
                == before.waiting()[i + 1],
        after.counters.pending_capacity_bytes == before.counters.pending_capacity_bytes + (
        if capacity {
            before.waiting()[0].bytes as int
        } else {
            0
        }),
        after.counters.pending_expired_bytes == before.counters.pending_expired_bytes + (if capacity {
            0
        } else {
            before.waiting()[0].bytes as int
        }),
{
}

proof fn lemma_probing_others(
    side: ProbeSide,
    pending: Seq<Pending>,
    sockets: Seq<LocalSocket>,
    now: u128,
    other: LocalSocket,
)
    requires
        !sockets.contains(other),
    ensures
        side.probed_all(pending, sockets, now).states.contains_key(other)
            == side.states.contains_key(other),
        side.states.contains_key(other) ==> side.probed_all(pending, sockets, now).states[other]
            == side.states[other],
    decreases sockets.len(),
{
    if sockets.len() > 0 {
        let shorter = sockets.drop_last();
        assert(!shorter.contains(other)) by {
            if shorter.contains(other) {
                let i = choose|i: int| 0 <= i < shorter.len() && shorter[i] == other;
                assert(sockets[i] == other);
            }
        }
        lemma_probing_others(side, pending, shorter, now, other);
        assert(sockets[sockets.len() - 1] != other);
    }
}

/// Only the sockets that are due are probed again: those without a request under way that have
/// not been given up and whose next attempt has come. The state of every other socket stays as
/// it was.
pub proof fn lemma_only_due_sockets_are_probed_again(
    before: PendingAttributor,
    now: u128,
    after: PendingAttributor,
    socket: LocalSocket,
)
    requires
        retried(before, now, after),
        before.probe_state@.contains_key(socket) ==> before.probe_state@[socket].active_request
            is Some || before.probe_state@[socket].exhausted || now
            < before.probe_state@[socket].next_retry_at,
    ensures
        after.waiting() == before.waiting(),
        after.probe_state@.contains_key(socket) == before.probe_state@.contains_key(socket),
        before.probe_state@.contains_key(socket) ==> after.probe_state@[socket]
            == before.probe_state@[socket],
{
    let order = choose|order: Seq<LocalSocket>|
        {
            &&& #[trigger] due_sockets(before.probe_state@, now, order)
            &&& after.side() == before.side().probed_all(before.waiting(), order, now)
        };
    assert(!order.contains(socket));
    lemma_probing_others(before.side(), before.waiting(), order, now, socket);
    assert(after.side().states == after.probe_state@);
}

/// If the worker is gone, the answers that came are given out, and behind them one for each
/// request under way, with its socket and its number: it could not be made.
pub proof fn lemma_open_requests_end_with_the_worker(
    first: Seq<ProbeResult>,
    under_way: Seq<(LocalSocket, ProbeRequestId)>,
    results: Seq<ProbeResult>,
)
    requires
        abandoned(first, under_way, results),
    ensures
        results.len() == first.len() + under_way.len(),
        forall|i: int| 0 <= i < first.len() ==> #[trigger] results[i] == first[i],
        forall|j: int|
            0 <= j < under_way.len() ==> ((#[trigger] results[first.len() + j]) matches
                ProbeResult::Unavailable { request_id, socket, error } && request_id
                == under_way[j].1 && socket == under_way[j].0 && error@
                == "process probe worker disconnected"@),
{
    assert forall|i: int| 0 <= i < first.len() implies #[trigger] results[i] == first[i] by {
        assert(results.take(first.len() as int)[i] == results[i]);
    }
}

/// An instant is its whole seconds and fewer than a billion nanoseconds, and lies in the
/// calendar if its seconds do.
pub proof fn lemma_instants_are_seconds_and_nanoseconds(at: int)
    ensures
        at == seconds_of(at) * 1_000_000_000 + nanos_of(at),
        0 <= nanos_of(at) < 1_000_000_000,
        is_instant(at) <==> -8_334_601_228_800 <= seconds_of(at) <= 8_210_266_876_799,
{
}

} // verus!
