//! What the passing of time brings, step by step, and what each step leaves alone.

use vstd::prelude::*;

use crate::attribution::{
    advanced, cleaned, drained, expired_finalized, generation_resolved,
    oldest_finalized, pushed, result_applied, results_applied, retried, settlement, Clock, Pending,
    PendingAttributor, SharedProcTable,
};
use crate::history::StartTimes;
use crate::laws::probing::{
    awaits, lemma_named_owner_is_charged, lemma_overdue_traffic_is_charged_in_order, probed_line,
};
use crate::laws::upkeep::lemma_only_due_sockets_are_probed_again;
use crate::net::LocalSocket;
use crate::process_probe::{ProbeProcess, ProbeRequestId, ProbeResult};
use crate::stats::Booking;

verus! {

/// The steps of the passing of time: the attributor and the ledger after the answers of the
/// probe were taken out and applied, after overdue traffic was charged, after the process table
/// was looked at, and after idle sockets were forgotten.
pub ghost struct Steps {
    pub results: Seq<ProbeResult>,
    pub taken: PendingAttributor,
    pub answered: PendingAttributor,
    pub answered_lines: Seq<Booking>,
    pub settled: PendingAttributor,
    pub settled_lines: Seq<Booking>,
    pub looked: PendingAttributor,
    pub tidy: PendingAttributor,
}

/// Time passes in this order: the probe's answers are applied, overdue traffic is charged, the
/// process table is looked at, idle sockets are forgotten, and those that are due are probed.
pub proof fn lemma_steps_of_passing_time(
    before: PendingAttributor,
    ledger: Seq<Booking>,
    shared: SharedProcTable,
    clock: Clock,
    started: StartTimes,
    after: PendingAttributor,
    ledger_after: Seq<Booking>,
    shared_after: SharedProcTable,
) -> (steps: Steps)
    requires
        advanced(before, ledger, shared, clock, started, after, ledger_after, shared_after),
    ensures
        drained(before, steps.taken, steps.results),
        results_applied(
            steps.taken,
            ledger,
            steps.results,
            clock.now,
            steps.answered,
            steps.answered_lines,
        ),
        expired_finalized(
            steps.answered,
            steps.answered_lines,
            clock.now,
            started,
            steps.settled,
            steps.settled_lines,
        ),
        generation_resolved(
            steps.settled,
            steps.settled_lines,
            shared,
            clock,
            steps.looked,
            ledger_after,
            shared_after,
        ),
        cleaned(steps.looked, steps.tidy),
        retried(steps.tidy, clock.now, after),
{
    let (results, a, b, b_lines, c, c_lines, d, e) = choose|
        results: Seq<ProbeResult>,
        a: PendingAttributor,
        b: PendingAttributor,
        b_lines: Seq<Booking>,
        c: PendingAttributor,
        c_lines: Seq<Booking>,
        d: PendingAttributor,
        e: PendingAttributor,
    |
        {
            &&& #[trigger] drained(before, a, results)
            &&& #[trigger] results_applied(a, ledger, results, clock.now, b, b_lines)
            &&& #[trigger] expired_finalized(b, b_lines, clock.now, started, c, c_lines)
            &&& #[trigger] generation_resolved(
                c,
                c_lines,
                shared,
                clock,
                d,
                ledger_after,
                shared_after,
            )
            &&& #[trigger] cleaned(d, e)
            &&& #[trigger] retried(e, clock.now, after)
        };
    Steps {
        results,
        taken: a,
        answered: b,
        answered_lines: b_lines,
        settled: c,
        settled_lines: c_lines,
        looked: d,
        tidy: e,
    }
}

proof fn lemma_lines_stay(
    shared: SharedProcTable,
    clock: Clock,
    started: StartTimes,
    ledger_after: Seq<Booking>,
    shared_after: SharedProcTable,
    steps: Steps,
    line: Booking,
)
    requires
        expired_finalized(
            steps.answered,
            steps.answered_lines,
            clock.now,
            started,
            steps.settled,
            steps.settled_lines,
        ),
        generation_resolved(
            steps.settled,
            steps.settled_lines,
            shared,
            clock,
            steps.looked,
            ledger_after,
            shared_after,
        ),
    ensures
        steps.answered_lines.contains(line) ==> ledger_after.contains(line),
        steps.settled_lines.contains(line) ==> ledger_after.contains(line),
        steps.settled_lines.len() <= ledger_after.len(),
        forall|i: int|
            0 <= i < steps.settled_lines.len() ==> #[trigger] ledger_after[i]
                == steps.settled_lines[i],
{
    if steps.answered_lines.contains(line) {
        let i = choose|i: int| 0 <= i < steps.answered_lines.len() && steps.answered_lines[i] == line;
        assert(steps.settled_lines[i] == line);
        assert(ledger_after[i] == line);
    }
    if steps.settled_lines.contains(line) {
        let i = choose|i: int| 0 <= i < steps.settled_lines.len() && steps.settled_lines[i] == line;
        assert(ledger_after[i] == line);
    }
}

/// An answer that has come is applied before anything else: traffic on the socket is charged to
/// the owner that it names, even if its wait is over and whatever the process table says.
pub proof fn lemma_answers_come_first(
    before: PendingAttributor,
    ledger: Seq<Booking>,
    shared: SharedProcTable,
    clock: Clock,
    started: StartTimes,
    after: PendingAttributor,
    ledger_after: Seq<Booking>,
    shared_after: SharedProcTable,
    id: ProbeRequestId,
    socket: LocalSocket,
    process: ProbeProcess,
    i: int,
)
    requires
        advanced(before, ledger, shared, clock, started, after, ledger_after, shared_after),
        before.probe matches Some(probe) && probe.connected && probe.results@ == seq![
            ProbeResult::Unique { request_id: id, socket, process },
        ],
        awaits(before.probe_state@, socket, id),
        0 <= i < before.waiting().len(),
        before.waiting()[i].socket() == socket,
    ensures
        ledger_after.contains(probed_line(before.waiting()[i], process)),
{
    let steps = lemma_steps_of_passing_time(
        before,
        ledger,
        shared,
        clock,
        started,
        after,
        ledger_after,
        shared_after,
    );
    let result = ProbeResult::Unique { request_id: id, socket, process };
    assert(steps.results == seq![result]);
    let (mid, lines) = choose|mid: PendingAttributor, lines: Seq<Booking>|
        {
            &&& results_applied(
                steps.taken,
                ledger,
                steps.results.drop_last(),
                clock.now,
                mid,
                lines,
            )
            &&& #[trigger] result_applied(
                mid,
                lines,
                steps.results.last(),
                clock.now,
                steps.answered,
                steps.answered_lines,
            )
        };
    assert(steps.results.drop_last().len() == 0);
    assert(mid == steps.taken && lines == ledger);
    assert(mid.waiting() == before.waiting());
    lemma_named_owner_is_charged(
        mid,
        lines,
        id,
        socket,
        process,
        clock.now,
        steps.answered,
        steps.answered_lines,
    );
    let line = probed_line(before.waiting()[i], process);
    assert(mid.waiting()[i].socket() == socket);
    assert(steps.answered_lines.contains(line));
    lemma_lines_stay(shared, clock, started, ledger_after, shared_after, steps, line);
}

/// Without answers, overdue traffic is charged before the process table is looked at: by its
/// candidates and by the log as they were, even if the table would now name an owner.
pub proof fn lemma_overdue_traffic_does_not_wait_for_the_table(
    before: PendingAttributor,
    ledger: Seq<Booking>,
    shared: SharedProcTable,
    clock: Clock,
    started: StartTimes,
    after: PendingAttributor,
    ledger_after: Seq<Booking>,
    shared_after: SharedProcTable,
)
    requires
        advanced(before, ledger, shared, clock, started, after, ledger_after, shared_after),
        before.probe matches Some(probe) ==> probe.connected && probe.results@.len() == 0,
        before.waiting().len() > 0,
        clock.now - before.waiting()[0].pending_since >= before.window,
        before.window > 0,
    ensures
        ledger_after.len() > ledger.len(),
        ledger_after[ledger.len() as int] == settlement(
            before.waiting()[0],
            before.history,
            started,
        ),
{
    let steps = lemma_steps_of_passing_time(
        before,
        ledger,
        shared,
        clock,
        started,
        after,
        ledger_after,
        shared_after,
    );
    assert(steps.results.len() == 0);
    assert(steps.answered == steps.taken && steps.answered_lines == ledger);
    assert(steps.answered.waiting() == before.waiting());
    let n = lemma_overdue_traffic_is_charged_in_order(
        steps.answered,
        steps.answered_lines,
        clock.now,
        started,
        steps.settled,
        steps.settled_lines,
    );
    assert(n > 0);
    let line = settlement(before.waiting()[0], before.history, started);
    assert(steps.settled_lines[ledger.len() as int] == line);
    lemma_lines_stay(shared, clock, started, ledger_after, shared_after, steps, line);
}

/// Once time has passed, the table's generation is remembered, and probing goes on only for
/// sockets on which traffic waits or for which a request is under way.
pub proof fn lemma_idle_sockets_do_not_stay(
    before: PendingAttributor,
    ledger: Seq<Booking>,
    shared: SharedProcTable,
    clock: Clock,
    started: StartTimes,
    after: PendingAttributor,
    ledger_after: Seq<Booking>,
    shared_after: SharedProcTable,
    socket: LocalSocket,
)
    requires
        advanced(before, ledger, shared, clock, started, after, ledger_after, shared_after),
        forall|i: int|
            0 <= i < after.waiting().len() ==> (
            #[trigger] after.waiting()[i]).connection.local_socket != socket,
    ensures
        !shared.poisoned ==> after.last_generation == Some(shared.table.generation),
        after.probe_state@.contains_key(socket) ==> after.probe_state@[socket].active_request
            is Some && !after.probe_state@[socket].accept_results,
{
    let steps = lemma_steps_of_passing_time(
        before,
        ledger,
        shared,
        clock,
        started,
        after,
        ledger_after,
        shared_after,
    );
    assert(after.waiting() == steps.tidy.waiting());
    assert(steps.tidy.waiting() == steps.looked.waiting());
    crate::laws::probing::lemma_idle_sockets_are_forgotten(
        steps.looked.probe_state@,
        steps.looked.waiting(),
        socket,
    );
    lemma_only_due_sockets_are_probed_again(steps.tidy, clock.now, after, socket);
}

/// No step but the look at the process table touches the log or what is remembered of the
/// table, and none changes the limits.
pub proof fn lemma_steps_leave_the_rest_alone(
    before: PendingAttributor,
    ledger: Seq<Booking>,
    result: ProbeResult,
    item: Pending,
    now: u128,
    capacity: bool,
    started: StartTimes,
    results: Seq<ProbeResult>,
    after: PendingAttributor,
    ledger_after: Seq<Booking>,
)
    requires
        result_applied(before, ledger, result, now, after, ledger_after) || pushed(
            before,
            ledger,
            item,
            started,
            after,
            ledger_after,
        ) || expired_finalized(before, ledger, now, started, after, ledger_after)
            || oldest_finalized(before, ledger, capacity, started, after, ledger_after) || cleaned(
            before,
            after,
        ) || retried(before, now, after) || drained(before, after, results),
    ensures
        after.window == before.window,
        after.capacity == before.capacity,
        after.history == before.history,
        after.last_generation == before.last_generation,
{
}

/// Applying answers, charging overdue traffic and forgetting sockets leave the probe as it is;
/// taking out answers, forgetting sockets and probing leave what waits as it is.
pub proof fn lemma_traffic_and_probe_are_kept_apart(
    before: PendingAttributor,
    ledger: Seq<Booking>,
    result: ProbeResult,
    now: u128,
    started: StartTimes,
    results: Seq<ProbeResult>,
    after: PendingAttributor,
    ledger_after: Seq<Booking>,
)
    ensures
        result_applied(before, ledger, result, now, after, ledger_after) || expired_finalized(
            before,
            ledger,
            now,
            started,
            after,
            ledger_after,
        ) || cleaned(before, after) ==> after.probe == before.probe,
        drained(before, after, results) || cleaned(before, after) || retried(before, now, after)
            ==> after.waiting() == before.waiting(),
        drained(before, after, results) || cleaned(before, after) ==> after.counters
            == before.counters,
        drained(before, after, results) ==> after.probe_state == before.probe_state,
{
}

/// The answers that are taken out are those that have come, in their order; then the probe
/// holds none.
pub proof fn lemma_answers_are_taken_out_once(
    before: PendingAttributor,
    after: PendingAttributor,
    results: Seq<ProbeResult>,
)
    requires
        drained(before, after, results),
    ensures
        before.probe is None ==> after.probe is None && results.len() == 0,
        before.probe matches Some(probe) ==> {
            &&& after.probe matches Some(left) && left.results@.len() == 0 && left.queue
                == probe.queue && left.next_request_id == probe.next_request_id
            &&& probe.connected ==> results == probe.results@ && after.probe->0.in_flight
                == probe.in_flight
            &&& !probe.connected ==> results.len() == probe.results@.len()
                + probe.in_flight.slots@.len() && after.probe->0.in_flight@.dom() == Set::<
                LocalSocket,
            >::empty()
        },
{
}

} // verus!
