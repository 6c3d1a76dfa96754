//! What crosses the interface is what is charged or waits for its owner.

use vstd::prelude::*;

use crate::attribution::{
    accounted, advanced, all_bytes, endpoint_recorded, expired_finalized, flow_recorded,
    generation_resolved, has_two_endpoints, lemma_probe_conserves, lemma_still_waiting,
    own_endpoint, peer_endpoint, probe_bookings, result_applied, results_applied, settlements,
    table_bookings, taken_in, waiting_bytes, Clock, EndpointObservation, Pending,
    PendingAttributor, SharedProcTable,
};
use crate::capture::Flow;
use crate::history::{AttributionHistory, StartTimes};
use crate::net::Direction;
use crate::proc_table::ProcTable;
use crate::process_probe::ProbeResult;
use crate::stats::{
    crossed_bytes, domain_booking, interface_booking, lemma_charged_concat, lemma_crossed_push,
    lemma_only_charges, only_charges, Booking, StatsEntry,
};
use crate::traffic::{added_up, bookings, lemma_channels_add_up, AttributionSummary, TotalsView};

verus! {

proof fn lemma_probe_bookings_charge(pending: Seq<Pending>, result: ProbeResult)
    ensures
        forall|i: int|
            0 <= i < probe_bookings(pending, result).len() ==> (#[trigger] probe_bookings(
                pending,
                result,
            )[i]).is_charge(),
    decreases pending.len(),
{
    if pending.len() > 0 {
        let prior = probe_bookings(pending.drop_last(), result);
        let lines = probe_bookings(pending, result);
        lemma_probe_bookings_charge(pending.drop_last(), result);
        assert forall|i: int| 0 <= i < lines.len() implies (#[trigger] lines[i]).is_charge() by {
            if i < prior.len() {
                assert(prior[i].is_charge());
            }
        }
    }
}

proof fn lemma_table_bookings_charge(pending: Seq<Pending>, table: ProcTable, read_at: u128)
    ensures
        forall|i: int|
            0 <= i < table_bookings(pending, table, read_at).len() ==> (#[trigger] table_bookings(
                pending,
                table,
                read_at,
            )[i]).is_charge(),
    decreases pending.len(),
{
    if pending.len() > 0 {
        let prior = table_bookings(pending.drop_last(), table, read_at);
        let lines = table_bookings(pending, table, read_at);
        lemma_table_bookings_charge(pending.drop_last(), table, read_at);
        assert forall|i: int| 0 <= i < lines.len() implies (#[trigger] lines[i]).is_charge() by {
            if i < prior.len() {
                assert(prior[i].is_charge());
            }
        }
    }
}

proof fn lemma_settlements_charge(
    items: Seq<Pending>,
    history: AttributionHistory,
    started: StartTimes,
)
    ensures
        forall|i: int|
            0 <= i < settlements(items, history, started).len() ==> (#[trigger] settlements(
                items,
                history,
                started,
            )[i]).is_charge(),
{
}

/// Applying a probe's answer loses no byte and adds none, crosses no interface, and leaves
/// no more waiting than there was.
pub proof fn lemma_answer_conserves(
    before: PendingAttributor,
    ledger: Seq<Booking>,
    result: ProbeResult,
    now: u128,
    after: PendingAttributor,
    ledger_after: Seq<Booking>,
    way: Direction,
)
    requires
        before.wf(),
        result_applied(before, ledger, result, now, after, ledger_after),
    ensures
        accounted(ledger_after, after.waiting(), way) == accounted(ledger, before.waiting(), way),
        crossed_bytes(ledger_after, way) == crossed_bytes(ledger, way),
        only_charges(ledger, ledger_after),
        after.waiting().len() <= before.waiting().len(),
        all_bytes(after.waiting()) <= all_bytes(before.waiting()),
{
    let lines = probe_bookings(before.waiting(), result);
    lemma_probe_bookings_charge(before.waiting(), result);
    lemma_still_waiting(before.waiting(), result);
    lemma_probe_conserves(before.waiting(), result, way);
    lemma_charged_concat(ledger, lines, way);
    assert((ledger + lines).take(ledger.len() as int) =~= ledger);
    assert(ledger.take(ledger.len() as int) =~= ledger);
    lemma_only_charges(ledger, ledger_after, way);
}

proof fn lemma_answers_only_charge(
    before: PendingAttributor,
    ledger: Seq<Booking>,
    results: Seq<ProbeResult>,
    now: u128,
    after: PendingAttributor,
    ledger_after: Seq<Booking>,
)
    requires
        results_applied(before, ledger, results, now, after, ledger_after),
    ensures
        only_charges(ledger, ledger_after),
    decreases results.len(),
{
    if results.len() == 0 {
        assert(ledger.take(ledger.len() as int) =~= ledger);
    } else {
        let (mid, lines) = choose|mid: PendingAttributor, lines: Seq<Booking>|
            {
                &&& results_applied(before, ledger, results.drop_last(), now, mid, lines)
                &&& #[trigger] result_applied(mid, lines, results.last(), now, after, ledger_after)
            };
        lemma_answers_only_charge(before, ledger, results.drop_last(), now, mid, lines);
        let more = probe_bookings(mid.waiting(), results.last());
        lemma_probe_bookings_charge(mid.waiting(), results.last());
        assert((lines + more).take(lines.len() as int) =~= lines);
        assert(lines.take(lines.len() as int) =~= lines);
        lemma_charges_chain(ledger, lines, ledger_after);
    }
}

proof fn lemma_charges_chain(first: Seq<Booking>, second: Seq<Booking>, third: Seq<Booking>)
    requires
        only_charges(first, second),
        only_charges(second, third),
    ensures
        only_charges(first, third),
{
    assert(third.take(first.len() as int) =~= second.take(first.len() as int));
    assert forall|i: int| first.len() <= i < third.len() implies (#[trigger] third[i]).is_charge() by {
        if i < second.len() {
            assert(third.take(second.len() as int)[i] == third[i]);
            assert(second[i].is_charge());
        }
    }
}

/// The passing of time books charges only.
pub proof fn lemma_time_only_charges(
    before: PendingAttributor,
    ledger: Seq<Booking>,
    shared: SharedProcTable,
    clock: Clock,
    started: StartTimes,
    after: PendingAttributor,
    ledger_after: Seq<Booking>,
    shared_after: SharedProcTable,
)
    requires
        advanced(before, ledger, shared, clock, started, after, ledger_after, shared_after),
    ensures
        only_charges(ledger, ledger_after),
{
    let (results, a, b, b_lines, c, c_lines, d, e) = choose|
        results: Seq<ProbeResult>,
        a: PendingAttributor,
        b: PendingAttributor,
        b_lines: Seq<Booking>,
        c: PendingAttributor,
        c_lines: Seq<Booking>,
        d: PendingAttributor,
        e: PendingAttributor,
    |
        {
            &&& #[trigger] crate::attribution::drained(before, a, results)
            &&& #[trigger] results_applied(a, ledger, results, clock.now, b, b_lines)
            &&& #[trigger] expired_finalized(b, b_lines, clock.now, started, c, c_lines)
            &&& #[trigger] generation_resolved(
                c,
                c_lines,
                shared,
                clock,
                d,
                ledger_after,
                shared_after,
            )
            &&& #[trigger] crate::attribution::cleaned(d, e)
            &&& #[trigger] crate::attribution::retried(e, clock.now, after)
        };
    lemma_answers_only_charge(a, ledger, results, clock.now, b, b_lines);
    let n = crate::attribution::overdue(b.waiting(), clock.now, b.window);
    let settled = settlements(b.waiting().take(n), b.history, started);
    lemma_settlements_charge(b.waiting().take(n), b.history, started);
    assert((b_lines + settled).take(b_lines.len() as int) =~= b_lines);
    lemma_charges_chain(ledger, b_lines, c_lines);
    let named = table_bookings(c.waiting(), shared.table, clock.read_at);
    lemma_table_bookings_charge(c.waiting(), shared.table, clock.read_at);
    assert((c_lines + named).take(c_lines.len() as int) =~= c_lines);
    assert(c_lines.take(c_lines.len() as int) =~= c_lines);
    lemma_charges_chain(ledger, c_lines, ledger_after);
}

/// The traffic of an endpoint books charges only.
pub proof fn lemma_endpoint_only_charges(
    before: PendingAttributor,
    ledger: Seq<Booking>,
    shared: SharedProcTable,
    observation: EndpointObservation,
    clock: Clock,
    started: StartTimes,
    after: PendingAttributor,
    ledger_after: Seq<Booking>,
    shared_after: SharedProcTable,
)
    requires
        endpoint_recorded(
            before,
            ledger,
            shared,
            observation,
            clock,
            started,
            after,
            ledger_after,
            shared_after,
        ),
    ensures
        only_charges(ledger, ledger_after),
{
    assert(ledger.take(ledger.len() as int) =~= ledger);
    if ledger_after.len() == ledger.len() + 1 {
        assert(ledger_after.take(ledger.len() as int) =~= ledger);
    }
}

/// The bytes that cross the interface with a flow, in a direction.
pub open spec fn crossed_by(flow: Flow, way: Direction) -> nat {
    if flow.direction == way || flow.peer_local_socket is Some {
        flow.bytes as nat
    } else {
        0
    }
}

/// A flow crosses the interface once; whatever it and the passing of time lead to, books
/// charges only.
pub proof fn lemma_flow_crosses_once(
    before: PendingAttributor,
    ledger: Seq<Booking>,
    shared: SharedProcTable,
    flow: Flow,
    clock: Clock,
    observed_at: i128,
    started: StartTimes,
    after: PendingAttributor,
    ledger_after: Seq<Booking>,
    shared_after: SharedProcTable,
    way: Direction,
)
    requires
        flow_recorded(
            before,
            ledger,
            shared,
            flow,
            clock,
            observed_at,
            started,
            after,
            ledger_after,
            shared_after,
        ),
    ensures
        crossed_bytes(ledger_after, way) == crossed_bytes(ledger, way) + crossed_by(flow, way),
{
    let (a, a_lines, a_shared, b, b_lines, b_shared) = choose|
        a: PendingAttributor,
        a_lines: Seq<Booking>,
        a_shared: SharedProcTable,
        b: PendingAttributor,
        b_lines: Seq<Booking>,
        b_shared: SharedProcTable,
    |
        {
            &&& #[trigger] advanced(
                before,
                ledger,
                shared,
                clock,
                started,
                a,
                a_lines,
                a_shared,
            )
            &&& #[trigger] endpoint_recorded(
                a,
                a_lines.push(interface_booking(flow, observed_at)).push(
                    domain_booking(flow, observed_at),
                ),
                a_shared,
                own_endpoint(flow, observed_at),
                clock,
                started,
                b,
                b_lines,
                b_shared,
            )
            &&& if has_two_endpoints(flow) {
                endpoint_recorded(
                    b,
                    b_lines,
                    b_shared,
                    peer_endpoint(
                        flow.peer_local_socket->0,
                        flow.local_socket->0,
                        flow.bytes,
                        observed_at,
                    ),
                    clock,
                    started,
                    after,
                    ledger_after,
                    shared_after,
                )
            } else {
                after == b && ledger_after == b_lines && shared_after == b_shared
            }
        };
    lemma_time_only_charges(before, ledger, shared, clock, started, a, a_lines, a_shared);
    lemma_only_charges(ledger, a_lines, way);
    let crossed = a_lines.push(interface_booking(flow, observed_at));
    let lines = crossed.push(domain_booking(flow, observed_at));
    lemma_crossed_push(a_lines, interface_booking(flow, observed_at), way);
    lemma_crossed_push(crossed, domain_booking(flow, observed_at), way);
    lemma_endpoint_only_charges(
        a,
        lines,
        a_shared,
        own_endpoint(flow, observed_at),
        clock,
        started,
        b,
        b_lines,
        b_shared,
    );
    lemma_only_charges(lines, b_lines, way);
    if has_two_endpoints(flow) {
        lemma_endpoint_only_charges(
            b,
            b_lines,
            b_shared,
            peer_endpoint(
                flow.peer_local_socket->0,
                flow.local_socket->0,
                flow.bytes,
                observed_at,
            ),
            clock,
            started,
            after,
            ledger_after,
            shared_after,
        );
        lemma_only_charges(b_lines, ledger_after, way);
    }
}

/// The bytes that cross the interface with what one read of the capture gave.
pub open spec fn crossed_in(flow: Option<Flow>, way: Direction) -> nat {
    match flow {
        Some(flow) => crossed_by(flow, way),
        None => 0,
    }
}

/// Whether a read gave nothing, or a flow as captures give them: one between two local
/// sockets is seen where it is sent.
pub open spec fn sent_if_local(flow: Option<Flow>) -> bool {
    flow matches Some(flow) ==> flow.peer_local_socket is Some ==> flow.local_socket is Some
        && flow.direction == Direction::Outbound
}

/// What crosses the interface with a flow is charged at its ends.
pub proof fn lemma_crossing_is_charged(flow: Option<Flow>, way: Direction)
    requires
        sent_if_local(flow),
    ensures
        crossed_in(flow, way) == taken_in(flow, way),
{
}

/// In each direction, what crossed the interface is what is charged to processes, to the
/// system and to nobody, together with what still waits: no byte is in two channels, and
/// none in none. This holds after any number of reads and answers, each of which adds to
/// both sides alike.
pub proof fn lemma_interface_totals_are_accounted_for(
    ledgers: Seq<Seq<Booking>>,
    waiting: Seq<Seq<Pending>>,
    flows: Seq<Option<Flow>>,
    way: Direction,
)
    requires
        ledgers.len() == flows.len() + 1,
        waiting.len() == flows.len() + 1,
        ledgers[0].len() == 0,
        waiting[0].len() == 0,
        forall|i: int| 0 <= i < flows.len() ==> sent_if_local(#[trigger] flows[i]),
        forall|i: int|
            0 <= i < flows.len() ==> {
                &&& accounted(ledgers[i + 1], waiting[i + 1], way) == accounted(
                    ledgers[i],
                    waiting[i],
                    way,
                ) + taken_in(#[trigger] flows[i], way)
                &&& crossed_bytes(ledgers[i + 1], way) == crossed_bytes(ledgers[i], way)
                    + crossed_in(flows[i], way)
            },
    ensures
        crossed_bytes(ledgers.last(), way) == accounted(ledgers.last(), waiting.last(), way),
    decreases flows.len(),
{
    if flows.len() > 0 {
        let last = flows.len() - 1;
        let earlier = flows.drop_last();
        let fewer = ledgers.drop_last();
        let before = waiting.drop_last();
        assert forall|i: int| 0 <= i < earlier.len() implies {
            &&& sent_if_local(earlier[i])
            &&& accounted(fewer[i + 1], before[i + 1], way) == accounted(fewer[i], before[i], way)
                + taken_in(#[trigger] earlier[i], way)
            &&& crossed_bytes(fewer[i + 1], way) == crossed_bytes(fewer[i], way) + crossed_in(
                earlier[i],
                way,
            )
        } by {
            assert(earlier[i] == flows[i]);
        }
        assert forall|i: int| 0 <= i < earlier.len() implies sent_if_local(#[trigger] earlier[i]) by {
            assert(earlier[i] == flows[i]);
        }
        lemma_interface_totals_are_accounted_for(fewer, before, earlier, way);
        assert(sent_if_local(flows[last]));
        lemma_crossing_is_charged(flows[last], way);
    }
}

/// What waits, waits in one direction or the other.
pub proof fn lemma_waiting_by_direction(pending: Seq<Pending>)
    ensures
        all_bytes(pending) == waiting_bytes(pending, Direction::Inbound) + waiting_bytes(
            pending,
            Direction::Outbound,
        ),
    decreases pending.len(),
{
    if pending.len() > 0 {
        lemma_waiting_by_direction(pending.drop_last());
    }
}

/// No traffic yet.
pub open spec fn no_totals() -> TotalsView {
    TotalsView {
        in_bytes: 0,
        out_bytes: 0,
        processes: Seq::empty(),
        hosts: Seq::empty(),
        inbound_ips: Seq::empty(),
        outbound_ips: Seq::empty(),
        attribution: AttributionSummary::none(),
    }
}

/// The interface totals add up what crossed it, as long as that fits 64 bits.
pub proof fn lemma_crossed_adds_up(entries: Seq<StatsEntry>, way: Direction)
    requires
        crossed_bytes(bookings(entries), way) <= u64::MAX,
    ensures
        added_up(no_totals(), entries).crossed(way) == crossed_bytes(bookings(entries), way),
    decreases entries.len(),
{
    if entries.len() > 0 {
        let earlier = entries.drop_last();
        assert(bookings(entries).drop_last() =~= bookings(earlier));
        assert(bookings(entries).last() == entries.last()@);
        lemma_crossed_adds_up(earlier, way);
    }
}

/// The summary of a ledger and what still waits make up the interface totals: exclusive,
/// shared, system, unattributed and pending bytes together are the bytes that were
/// received and sent, as long as they fit 64 bits.
pub proof fn lemma_summary_makes_up_the_totals(entries: Seq<StatsEntry>, waiting: Seq<Pending>)
    requires
        forall|way: Direction| #[trigger]
            crossed_bytes(bookings(entries), way) == accounted(bookings(entries), waiting, way),
        forall|way: Direction| #[trigger] crossed_bytes(bookings(entries), way) <= u64::MAX,
    ensures
        ({
            let totals = added_up(no_totals(), entries);
            &&& totals.in_bytes == totals.attribution.bytes(Direction::Inbound) + waiting_bytes(
                waiting,
                Direction::Inbound,
            )
            &&& totals.out_bytes == totals.attribution.bytes(Direction::Outbound) + waiting_bytes(
                waiting,
                Direction::Outbound,
            )
            &&& totals.in_bytes + totals.out_bytes == totals.attribution.bytes(Direction::Inbound)
                + totals.attribution.bytes(Direction::Outbound) + all_bytes(waiting)
        }),
{
    let inbound = Direction::Inbound;
    let outbound = Direction::Outbound;
    assert(crossed_bytes(bookings(entries), inbound) <= u64::MAX);
    assert(crossed_bytes(bookings(entries), outbound) <= u64::MAX);
    lemma_crossed_adds_up(entries, inbound);
    lemma_crossed_adds_up(entries, outbound);
    lemma_channels_add_up(no_totals(), entries, inbound);
    lemma_channels_add_up(no_totals(), entries, outbound);
    lemma_waiting_by_direction(waiting);
}

/// From an empty ledger on, whatever flows are taken in, however much time passes and
/// whatever answers come: the exclusive, shared, system and unattributed bytes of the
/// summary, with those that still wait, are the bytes received and sent, as long as they
/// fit 64 bits. A step that takes in no flow stands as `None`.
pub proof fn lemma_every_run_adds_up(
    ledgers: Seq<Seq<Booking>>,
    waiting: Seq<Seq<Pending>>,
    flows: Seq<Option<Flow>>,
    entries: Seq<StatsEntry>,
)
    requires
        ledgers.len() == flows.len() + 1,
        waiting.len() == flows.len() + 1,
        ledgers[0].len() == 0,
        waiting[0].len() == 0,
        forall|i: int| 0 <= i < flows.len() ==> sent_if_local(#[trigger] flows[i]),
        forall|i: int, way: Direction|
            #![trigger taken_in(flows[i], way)]
            0 <= i < flows.len() ==> {
                &&& accounted(ledgers[i + 1], waiting[i + 1], way) == accounted(
                    ledgers[i],
                    waiting[i],
                    way,
                ) + taken_in(flows[i], way)
                &&& crossed_bytes(ledgers[i + 1], way) == crossed_bytes(ledgers[i], way)
                    + crossed_in(flows[i], way)
            },
        bookings(entries) == ledgers.last(),
        forall|way: Direction| #[trigger] crossed_bytes(ledgers.last(), way) <= u64::MAX,
    ensures
        ({
            let totals = added_up(no_totals(), entries);
            totals.in_bytes + totals.out_bytes == totals.attribution.bytes(Direction::Inbound)
                + totals.attribution.bytes(Direction::Outbound) + all_bytes(waiting.last())
        }),
{
    assert forall|way: Direction| #[trigger]
        crossed_bytes(bookings(entries), way) == accounted(
            bookings(entries),
            waiting.last(),
            way,
        ) by {
        assert forall|i: int| 0 <= i < flows.len() implies {
            &&& accounted(ledgers[i + 1], waiting[i + 1], way) == accounted(
                ledgers[i],
                waiting[i],
                way,
            ) + taken_in(#[trigger] flows[i], way)
            &&& crossed_bytes(ledgers[i + 1], way) == crossed_bytes(ledgers[i], way) + crossed_in(
                flows[i],
                way,
            )
        } by {
            assert(taken_in(flows[i], way) >= 0);
        }
        lemma_interface_totals_are_accounted_for(ledgers, waiting, flows, way);
    }
    lemma_summary_makes_up_the_totals(entries, waiting.last());
}

} // verus!
