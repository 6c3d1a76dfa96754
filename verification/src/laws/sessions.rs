//! How one capture takes the place of another, and what is kept between packets.

use vstd::prelude::*;

use crate::attribution::SharedProcTable;
use crate::flow_table::{cache_key, knowledge, one_more, FlowKey, FlowKnowledge};
use crate::laws::devices::{lemma_names_are_selected_first, lemma_numbers_select_by_place};
use crate::net::LocalSocket;
use crate::pipeline::{
    fault_or, fault_text, readiness_heard, CaptureReadiness, FirstRead, PipelineError,
    PipelineFault,
};
use crate::proc_table::ProcCounters;
use crate::refresh::{whole_nanos, RefreshThrottle};
use crate::session::{interface_names, RankWindow, TrafficSession};
use crate::socket_map::{as_map, distinct_sockets};
use crate::text::decimal;

verus! {

/// Once the interface that was being opened is open, it is the one that is watched. What was
/// watched before is kept only while the new capture has not given a first result. The totals
/// start anew.
pub proof fn lemma_opened_interface_is_watched<H>(
    before: TrafficSession<H>,
    pipeline: H,
    readiness: CaptureReadiness,
    interface: String,
)
    requires
        before.pending == Some(interface),
    ensures
        ({
            let after = before.opened(pipeline, readiness);
            &&& after.active matches Some(active) && active.interface == interface
                && active.pipeline == pipeline
            &&& after.watched() == Some(interface@)
            &&& readiness == CaptureReadiness::Waiting ==> after.fallback == before.active
            &&& readiness == CaptureReadiness::Ready ==> after.fallback == before.fallback
            &&& after.pending is None
            &&& after.interfaces == before.interfaces
            &&& after.rank_window == RankWindow::Cumulative
        }),
{
}

/// If the new capture works, what was watched before is given up; if it fails, what was watched
/// before is watched again. Before anything is heard, and with nothing to go back to, all stays
/// as it is.
pub proof fn lemma_failed_capture_gives_way<H>(
    before: TrafficSession<H>,
    heard: Option<Result<CaptureReadiness, PipelineError>>,
)
    ensures
        ({
            let after = before.heard(heard);
            let back = before.active is Some && before.fallback is Some;
            &&& !back ==> after == before
            &&& heard is None ==> after == before
            &&& heard == Some(Ok::<CaptureReadiness, PipelineError>(CaptureReadiness::Waiting))
                ==> after == before
            &&& back && heard == Some(
                Ok::<CaptureReadiness, PipelineError>(CaptureReadiness::Ready),
            ) ==> after.active == before.active && after.fallback is None
            &&& back && (heard matches Some(Err(_))) ==> after.active == before.fallback
                && after.fallback is None
            &&& after.pending == before.pending
            &&& after.interfaces == before.interfaces
            &&& after.rank_window == before.rank_window
        }),
{
}

/// A capture works once its first read has succeeded, and does not if that has failed, or if
/// the worker is gone: then the failure that is kept tells why, if there is one.
pub proof fn lemma_readiness_by_the_first_read(error: PipelineError, failure: PipelineError)
    ensures
        readiness_heard(FirstRead::Succeeded, None) == Some(
            Ok::<CaptureReadiness, PipelineFault>(CaptureReadiness::Ready),
        ),
        readiness_heard(FirstRead::Failed(error), Some(failure)) == Some(
            Err::<CaptureReadiness, PipelineFault>(error@),
        ),
        readiness_heard(FirstRead::Nothing, Some(failure)) is None,
        readiness_heard(FirstRead::Disconnected, Some(failure)) == Some(
            Err::<CaptureReadiness, PipelineFault>(failure@),
        ),
        readiness_heard(FirstRead::Disconnected, None) == Some(
            Err::<CaptureReadiness, PipelineFault>(PipelineFault::WorkerStopped("capture"@)),
        ),
{
}

/// What a pipeline that does not work is said to suffer from.
pub proof fn lemma_faults_in_words(message: Seq<char>, worker: Seq<char>, failure: PipelineError)
    ensures
        fault_text(PipelineFault::Capture(message)) == "capture failed: "@ + message,
        fault_text(PipelineFault::WorkerStopped(worker))
            == "traffic pipeline worker stopped unexpectedly: "@ + worker,
        fault_or(Some(failure), worker) == failure@,
        fault_or(None, worker) == PipelineFault::WorkerStopped(worker),
{
}

/// The table counts as up to date if it has been refreshed, not longer ago than its age limit,
/// and nobody failed with it.
pub proof fn lemma_fresh_tables(shared: SharedProcTable, now: u128)
    ensures
        shared.fresh(now) <==> !shared.poisoned && (shared.table.refreshed_at matches Some(at) && now
            - at <= shared.table.max_age),
{
}

/// A refresh on request comes too soon exactly if the last one was less than the shortest
/// interval ago.
pub proof fn lemma_requests_that_come_too_soon(throttle: RefreshThrottle, now: u128)
    ensures
        throttle.last_requested_refresh is None ==> !throttle.too_soon(now),
        throttle.last_requested_refresh matches Some(last) ==> (throttle.too_soon(now) <==> now
            - last < throttle.min_interval && throttle.min_interval > 0),
{
}

/// A refresh that ends counts as a success or as a failure, with the time that it took, and
/// nothing else is counted.
pub proof fn lemma_refreshes_are_counted(before: ProcCounters, success: bool, duration: u128)
    requires
        duration <= u64::MAX,
    ensures
        ({
            let after = before.with_refresh(success, whole_nanos(duration));
            let nanos = duration as u64;
            &&& after.refresh_success == if success {
                before.refresh_success.wrapping_add(1)
            } else {
                before.refresh_success
            }
            &&& after.refresh_failure == if success {
                before.refresh_failure
            } else {
                before.refresh_failure.wrapping_add(1)
            }
            &&& after.refresh_duration_nanos == before.refresh_duration_nanos.wrapping_add(nanos)
            &&& after.last_refresh_duration_nanos == nanos
            &&& after == (ProcCounters {
                refresh_success: after.refresh_success,
                refresh_failure: after.refresh_failure,
                refresh_duration_nanos: after.refresh_duration_nanos,
                last_refresh_duration_nanos: after.last_refresh_duration_nanos,
                ..before
            })
        }),
{
}

/// Two connections are never taken for one.
pub proof fn lemma_connections_have_their_own_keys(left: FlowKey, right: FlowKey)
    ensures
        cache_key(left) == cache_key(right) <==> left == right,
{
}

/// What is kept of a connection is its host name, or how often that was looked for in vain;
/// that number stops at three.
pub proof fn lemma_what_is_kept_of_a_connection(domain: Seq<char>, attempts: u8)
    ensures
        knowledge((Some(domain), attempts)) == FlowKnowledge::Resolved(domain),
        knowledge((None, attempts)) == (FlowKnowledge::NoDomain { attempts }),
        attempts < 3 ==> one_more(attempts) == attempts + 1,
        attempts >= 3 ==> one_more(attempts) == 3,
{
}

/// A map from sockets holds what its slots hold.
pub proof fn lemma_slots_make_up_the_map<V>(slots: Seq<(LocalSocket, V)>, socket: LocalSocket)
    requires
        distinct_sockets(slots),
    ensures
        as_map(slots).contains_key(socket) <==> exists|i: int|
            0 <= i < slots.len() && (#[trigger] slots[i]).0 == socket,
        forall|i: int|
            0 <= i < slots.len() && (#[trigger] slots[i]).0 == socket ==> as_map(slots)[socket]
                == slots[i].1,
    decreases slots.len(),
{
    if slots.len() > 0 {
        let shorter = slots.drop_last();
        assert(distinct_sockets(shorter)) by {
            assert forall|i: int, j: int|
                #![trigger shorter[i], shorter[j]]
                0 <= i < j < shorter.len() implies shorter[i].0 != shorter[j].0 by {
                assert(slots[i].0 != slots[j].0);
            }
        }
        lemma_slots_make_up_the_map(shorter, socket);
        assert(slots[slots.len() - 1] == slots.last());
        if as_map(shorter).contains_key(socket) {
            let i = choose|i: int| 0 <= i < shorter.len() && (#[trigger] shorter[i]).0 == socket;
            assert(slots[i] == shorter[i]);
        }
        assert forall|i: int| 0 <= i < slots.len() && (#[trigger] slots[i]).0 == socket implies
            as_map(slots).contains_key(socket) && as_map(slots)[socket] == slots[i].1 by {
            if i < shorter.len() {
                assert(shorter[i] == slots[i]);
                assert(slots[i].0 != slots[slots.len() - 1].0);
            }
        }
    }
}

/// A selector that is the name of an interface chooses that name. One that is none, but the number of a place counted from one, chooses the name of the
/// interface there, if there is one.
pub proof fn lemma_interface_that_is_chosen<H>(
    session: TrafficSession<H>,
    selector: Seq<char>,
    place: int,
    number: nat,
)
    ensures
        0 <= place < session.interfaces@.len() && session.interfaces@[place].name@ == selector
            ==> session.chosen(selector) == Some(selector),
        (forall|i: int|
            0 <= i < session.interfaces@.len() ==> (#[trigger] session.interfaces@[i]).name@
                != selector) && selector == decimal(number) ==> if 1 <= number
            <= session.interfaces@.len() {
            session.chosen(selector) == Some(session.interfaces@[number - 1].name@)
        } else {
            session.chosen(selector) is None
        },
{
    let names = interface_names(session.interfaces@);
    if 0 <= place < names.len() && names[place] == selector {
        let first = lemma_first_of_a_name(names, selector, place);
        lemma_names_are_selected_first(selector, names, first);
        assert(names[first] == session.interfaces@[first].name@);
    }
    if (forall|i: int|
        0 <= i < session.interfaces@.len() ==> (#[trigger] session.interfaces@[i]).name@
            != selector) {
        assert forall|i: int| 0 <= i < names.len() implies #[trigger] names[i] != selector by {
            assert(names[i] == session.interfaces@[i].name@);
        }
        lemma_numbers_select_by_place(selector, names, number);
    }
}

proof fn lemma_first_of_a_name(names: Seq<Seq<char>>, name: Seq<char>, place: int) -> (first: int)
    requires
        0 <= place < names.len(),
        names[place] == name,
    ensures
        0 <= first <= place,
        names[first] == name,
        forall|earlier: int| 0 <= earlier < first ==> #[trigger] names[earlier] != name,
    decreases place,
{
    if exists|earlier: int| 0 <= earlier < place && #[trigger] names[earlier] == name {
        let earlier: int = choose|earlier: int|
            0 <= earlier < place && #[trigger] names[earlier] == name;
        lemma_first_of_a_name(names, name, earlier)
    } else {
        place
    }
}

} // verus!
