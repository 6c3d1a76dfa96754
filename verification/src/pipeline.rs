//! The decisions of the two workers between a capture and those who watch it.
//!
//! One worker reads packets and hands flows on, the other charges them and publishes
//! snapshots. Reading, handing on, publishing and waiting are up to the caller, who says
//! how each went and is told what comes next.

use vstd::prelude::*;
use vstd::string::*;

use crate::attribution::{
    advanced, all_bytes, Clock, PendingAttributor, SharedProcTable,
    PENDING_ATTRIBUTION_PROBE_RETRY_INTERVAL,
};
use crate::capture::Flow;
use crate::diagnostics::{collect, made_of, DiagnosticsInputs, DiagnosticsSnapshot};
use crate::history::StartTimes;
use crate::proc_table::ProcDiagnosticsSnapshot;
use crate::stats::Stats;
use crate::traffic::{host_rows, key_rows, process_rows, top, TrafficSnapshot, TrafficTotals};

verus! {

/// How often a worker looks whether it has to stop, in nanoseconds.
pub const STOP_CHECK_INTERVAL: u128 = 100_000_000;

/// How often a snapshot is published, in nanoseconds.
pub const SNAPSHOT_INTERVAL: u128 = 5_000_000_000;

/// How many flows may wait for the second worker.
pub const FLOW_CHANNEL_CAPACITY: usize = 8192;

/// How many snapshots may wait for those who watch.
pub const SNAPSHOT_CHANNEL_CAPACITY: usize = 2;

/// How long a new capture is watched for a failure, in nanoseconds.
pub const CAPTURE_EARLY_FAILURE_WINDOW: u128 = 50_000_000;

/// Why a pipeline does not work.
#[derive(Debug)]
pub enum PipelineError {
    /// The capture failed.
    Capture(String),
    /// A worker is gone.
    WorkerStopped(&'static str),
}

/// Why a pipeline does not work, as a mathematical value.
pub ghost enum PipelineFault {
    Capture(Seq<char>),
    WorkerStopped(Seq<char>),
}

impl View for PipelineError {
    type V = PipelineFault;

    open spec fn view(&self) -> PipelineFault {
        match *self {
            PipelineError::Capture(message) => PipelineFault::Capture(message@),
            PipelineError::WorkerStopped(worker) => PipelineFault::WorkerStopped(worker@),
        }
    }
}

impl Clone for PipelineError {
    fn clone(&self) -> (copy: Self)
        ensures
            copy == *self,
    {
        match self {
            PipelineError::Capture(message) => PipelineError::Capture(message.clone()),
            PipelineError::WorkerStopped(worker) => PipelineError::WorkerStopped(*worker),
        }
    }
}

/// What to say of a pipeline that does not work.
pub open spec fn fault_text(fault: PipelineFault) -> Seq<char> {
    match fault {
        PipelineFault::Capture(message) => "capture failed: "@ + message,
        PipelineFault::WorkerStopped(worker) => "traffic pipeline worker stopped unexpectedly: "@
            + worker,
    }
}

impl PipelineError {
    /// What to say of it.
    pub fn message(&self) -> (message: String)
        ensures
            message@ == fault_text(self@),
    {
        match self {
            PipelineError::Capture(detail) => {
                let mut message = "capture failed: ".to_owned();
                message.append(detail.as_str());
                message
            },
            PipelineError::WorkerStopped(worker) => {
                let mut message = "traffic pipeline worker stopped unexpectedly: ".to_owned();
                message.append(worker);
                message
            },
        }
    }
}

/// Whether a capture has given its first result.
#[derive(Clone, Copy, Debug, PartialEq, Eq, Structural)]
pub enum CaptureReadiness {
    Ready,
    Waiting,
}

/// What the first worker does after a read.
#[derive(Debug)]
pub enum AfterRead {
    /// Read again.
    Read,
    /// Hand a flow on.
    HandOn(Flow),
    /// End, with this failure unless it was asked to stop.
    Fail(PipelineError),
}

/// How handing a flow on went.
#[derive(Debug)]
pub enum HandedOn {
    Taken,
    /// Too many wait; the flow comes back.
    Full(Flow),
    /// Nobody takes flows any more.
    Closed,
}

/// What the first worker does after it tried to hand a flow on.
#[derive(Debug)]
pub enum AfterHandOn {
    /// Read again.
    Read,
    /// Wait, then try the same flow again unless asked to stop.
    Retry(Flow),
    /// End.
    End,
}

/// The first worker: reads flows and hands each on, none twice and none out of order.
#[derive(Debug)]
pub struct CaptureWorker {
    /// Whether the outcome of the first read was announced.
    pub announced: bool,
}

/// What the first worker does after a read.
pub open spec fn after_read_matches(
    result: Result<Option<Flow>, String>,
    next: AfterRead,
) -> bool {
    match result {
        Ok(None) => next is Read,
        Ok(Some(flow)) => next == AfterRead::HandOn(flow),
        Err(message) => next matches AfterRead::Fail(error) && error@ == PipelineFault::Capture(
            message@,
        ),
    }
}

/// Whether what is announced is the outcome of the first read.
pub open spec fn announcement_matches(
    announced: bool,
    result: Result<Option<Flow>, String>,
    announcement: Option<Result<(), PipelineError>>,
) -> bool {
    if announced {
        announcement is None
    } else {
        match result {
            Ok(_) => announcement == Some(Ok::<(), PipelineError>(())),
            Err(message) => announcement matches Some(Err(error)) && error@
                == PipelineFault::Capture(message@),
        }
    }
}

impl CaptureWorker {
    /// Before the first read.
    pub fn new() -> (worker: Self)
        ensures
            !worker.announced,
    {
        CaptureWorker { announced: false }
    }

    /// After a read: what to announce to those who wait for the first one, and what to do
    /// next.
    pub fn after_read(&mut self, result: Result<Option<Flow>, String>) -> (decision: (
        Option<Result<(), PipelineError>>,
        AfterRead,
    ))
        ensures
            final(self).announced,
            announcement_matches(old(self).announced, result, decision.0),
            after_read_matches(result, decision.1),
    {
        let first = !self.announced;
        self.announced = true;
        match result {
            Ok(flow) => {
                let announcement = if first {
                    Some(Ok(()))
                } else {
                    None
                };
                match flow {
                    Some(flow) => (announcement, AfterRead::HandOn(flow)),
                    None => (announcement, AfterRead::Read),
                }
            },
            Err(message) => {
                let error = PipelineError::Capture(message);
                let announcement = if first {
                    Some(Err(error.clone()))
                } else {
                    None
                };
                (announcement, AfterRead::Fail(error))
            },
        }
    }

    /// After trying to hand a flow on.
    pub fn after_hand_on(&self, outcome: HandedOn) -> (next: AfterHandOn)
        ensures
            next == match outcome {
                HandedOn::Taken => AfterHandOn::Read,
                HandedOn::Full(flow) => AfterHandOn::Retry(flow),
                HandedOn::Closed => AfterHandOn::End,
            },
    {
        match outcome {
            HandedOn::Taken => AfterHandOn::Read,
            HandedOn::Full(flow) => AfterHandOn::Retry(flow),
            HandedOn::Closed => AfterHandOn::End,
        }
    }
}

/// The failure to keep of one that comes up: the first, and none while stopping.
pub fn kept_failure(
    kept: Option<PipelineError>,
    failure: PipelineError,
    stopping: bool,
) -> (result: Option<PipelineError>)
    ensures
        result == if kept is None && !stopping {
            Some(failure)
        } else {
            kept
        },
{
    match kept {
        Some(kept) => Some(kept),
        None => {
            if stopping {
                None
            } else {
                Some(failure)
            }
        },
    }
}

/// How publishing a snapshot went.
#[derive(Clone, Copy, Debug, PartialEq, Eq, Structural)]
pub enum Published {
    Taken,
    /// Those who watch are behind; the snapshot is dropped.
    Full,
    /// Nobody watches any more.
    Closed,
}

/// What the second worker publishes in one round.
#[derive(Clone, Copy, Debug, PartialEq, Eq, Structural)]
pub struct RoundPlan {
    /// A snapshot now, because bytes started or ceased to wait for their owner.
    pub publish_change: bool,
    /// The regular snapshot.
    pub publish_snapshot: bool,
    /// Whether bytes wait for their owner.
    pub has_pending: bool,
}

/// How long the second worker waits for a flow.
pub open spec fn wait_for(next_snapshot: u128, now: u128) -> u128 {
    let left = if next_snapshot > now {
        (next_snapshot - now) as u128
    } else {
        0
    };
    if left < STOP_CHECK_INTERVAL {
        left
    } else {
        STOP_CHECK_INTERVAL
    }
}

/// What the second worker does next.
#[derive(Debug)]
pub enum AggregateNext {
    /// Go on with the round.
    GoOn,
    /// Start the next round.
    NextRound,
    /// End, with this failure unless it was asked to stop.
    End(PipelineError),
}

/// What came of waiting for a flow.
#[derive(Debug)]
pub enum Awaited {
    Flow(Flow),
    Timeout,
    /// The first worker is gone.
    Closed,
}

/// What the second worker does with what came of waiting.
#[derive(Debug)]
pub enum AfterWait {
    /// Charge the flow.
    Charge(Flow),
    NextRound,
    /// End, with this failure unless it was asked to stop or one is kept.
    End(PipelineError),
}

/// The second worker: when it publishes.
#[derive(Debug)]
pub struct AggregateWorker {
    /// When the next regular snapshot is due.
    pub next_snapshot: u128,
    /// Between two regular snapshots.
    pub interval: u128,
    /// Whether the last change that was published said that bytes wait.
    pub last_published_pending_nonempty: bool,
}

impl AggregateWorker {
    /// The first snapshot is due an interval from now.
    pub fn new(now: u128, interval: u128) -> (worker: Self)
        requires
            now + interval <= u128::MAX,
        ensures
            worker.next_snapshot == now + interval,
            worker.interval == interval,
            !worker.last_published_pending_nonempty,
    {
        AggregateWorker {
            next_snapshot: now + interval,
            interval,
            last_published_pending_nonempty: false,
        }
    }

    /// What to publish in this round.
    pub fn plan(&self, now: u128, pending_bytes: u64) -> (plan: RoundPlan)
        ensures
            plan.has_pending == (pending_bytes > 0),
            plan.publish_change == (plan.has_pending != self.last_published_pending_nonempty),
            plan.publish_snapshot == (now >= self.next_snapshot),
    {
        let has_pending = pending_bytes > 0;
        RoundPlan {
            publish_change: has_pending != self.last_published_pending_nonempty,
            publish_snapshot: now >= self.next_snapshot,
            has_pending,
        }
    }

    /// After publishing that bytes started or ceased to wait: a change that was not taken
    /// is published again.
    pub fn change_published(&mut self, outcome: Published, has_pending: bool) -> (next:
        AggregateNext)
        ensures
            final(self).next_snapshot == old(self).next_snapshot,
            final(self).interval == old(self).interval,
            final(self).last_published_pending_nonempty == if outcome == Published::Taken {
                has_pending
            } else {
                old(self).last_published_pending_nonempty
            },
            match outcome {
                Published::Closed => next matches AggregateNext::End(error) && error@
                    == PipelineFault::WorkerStopped("snapshot consumer"@),
                _ => next is GoOn,
            },
    {
        match outcome {
            Published::Taken => {
                self.last_published_pending_nonempty = has_pending;
                AggregateNext::GoOn
            },
            Published::Full => AggregateNext::GoOn,
            Published::Closed => AggregateNext::End(
                PipelineError::WorkerStopped("snapshot consumer"),
            ),
        }
    }

    /// After publishing the regular snapshot: one that was not taken is dropped, and the
    /// next is due an interval from now.
    pub fn snapshot_published(&mut self, outcome: Published, now: u128) -> (next: AggregateNext)
        requires
            now + old(self).interval <= u128::MAX,
        ensures
            final(self).interval == old(self).interval,
            final(self).last_published_pending_nonempty
                == old(self).last_published_pending_nonempty,
            match outcome {
                Published::Closed => {
                    &&& next matches AggregateNext::End(error)
                    &&& error@ == PipelineFault::WorkerStopped("snapshot consumer"@)
                    &&& final(self).next_snapshot == old(self).next_snapshot
                },
                _ => next is NextRound && final(self).next_snapshot == now + old(self).interval,
            },
    {
        match outcome {
            Published::Closed => AggregateNext::End(
                PipelineError::WorkerStopped("snapshot consumer"),
            ),
            _ => {
                self.next_snapshot = now + self.interval;
                AggregateNext::NextRound
            },
        }
    }

    /// How long to wait for a flow: until the next snapshot, or until it is time to look
    /// whether to stop.
    pub fn wait(&self, now: u128) -> (wait: u128)
        ensures
            wait == wait_for(self.next_snapshot, now),
    {
        let left: u128 = self.next_snapshot.saturating_sub(now);
        if left < STOP_CHECK_INTERVAL {
            left
        } else {
            STOP_CHECK_INTERVAL
        }
    }

    /// What to do with what came of waiting.
    pub fn after_wait(&self, awaited: Awaited) -> (next: AfterWait)
        ensures
            match awaited {
                Awaited::Flow(flow) => next == AfterWait::Charge(flow),
                Awaited::Timeout => next is NextRound,
                Awaited::Closed => next matches AfterWait::End(error) && error@
                    == PipelineFault::WorkerStopped("capture"@),
            },
    {
        match awaited {
            Awaited::Flow(flow) => AfterWait::Charge(flow),
            Awaited::Timeout => AfterWait::NextRound,
            Awaited::Closed => AfterWait::End(PipelineError::WorkerStopped("capture")),
        }
    }
}

impl AggregateWorker {
    /// Starts a round: traffic that has waited long enough is settled, then it is decided
    /// what to publish.
    pub fn begin_round(
        &self,
        attributor: &mut PendingAttributor,
        stats: &mut Stats,
        proc_table: &mut SharedProcTable,
        clock: Clock,
        started: &StartTimes,
    ) -> (plan: RoundPlan)
        requires
            old(attributor).wf(),
            old(attributor).has_room(None),
            clock.now + PENDING_ATTRIBUTION_PROBE_RETRY_INTERVAL <= u128::MAX,
            i128::MIN <= clock.wall - old(attributor).history.retention <= i128::MAX,
        ensures
            final(attributor).wf(),
            advanced(
                *old(attributor),
                old(stats)@,
                *old(proc_table),
                clock,
                *started,
                *final(attributor),
                final(stats)@,
                *final(proc_table),
            ),
            plan.has_pending == (all_bytes(final(attributor).waiting()) > 0),
            plan.publish_change == (plan.has_pending != self.last_published_pending_nonempty),
            plan.publish_snapshot == (clock.now >= self.next_snapshot),
    {
        attributor.advance(stats, proc_table, clock, started);
        self.plan(clock.now, attributor.pending_bytes())
    }
}

impl SharedProcTable {
    /// Whether the table is up to date; one that a party failed with is not.
    pub open spec fn fresh(self, now: u128) -> bool {
        !self.poisoned && (self.table.age(now) matches Some(age) && age <= self.table.max_age)
    }

    /// Whether the table is up to date; one that a party failed with is not.
    pub fn is_fresh_at(&self, now: u128) -> (fresh: bool)
        ensures
            fresh == self.fresh(now),
    {
        !self.poisoned && self.table.is_fresh_at(now)
    }
}

/// What those who watch are sent.
#[derive(Debug)]
pub struct Publication {
    pub snapshot: TrafficSnapshot,
    pub diagnostics: Option<DiagnosticsSnapshot>,
}

/// The snapshot to publish, with a diagnostic report if one is asked for and the process
/// table can be read.
pub fn snapshot_for_publish(
    totals: &TrafficTotals,
    proc_table: &mut SharedProcTable,
    top_n: usize,
    pending_attribution_bytes: u64,
    now: u128,
    diagnostics: Option<&DiagnosticsInputs>,
) -> (publication: Publication)
    ensures
        publication.snapshot.in_bytes == totals.in_bytes,
        publication.snapshot.out_bytes == totals.out_bytes,
        process_rows(publication.snapshot.processes@) == top(totals@.processes, top_n as nat),
        host_rows(publication.snapshot.outbound_domains@) == top(totals@.hosts, top_n as nat),
        key_rows(publication.snapshot.inbound_ips@) == top(totals@.inbound_ips, top_n as nat),
        key_rows(publication.snapshot.outbound_ips@) == top(totals@.outbound_ips, top_n as nat),
        publication.snapshot.attribution == totals.attribution,
        publication.snapshot.pending_attribution_bytes == pending_attribution_bytes,
        publication.snapshot.process_data_fresh == old(proc_table).fresh(now),
        final(proc_table).poisoned == old(proc_table).poisoned,
        final(proc_table).table.same_owners(old(proc_table).table),
        final(proc_table).table.refresh == old(proc_table).table.refresh,
        final(proc_table).table.counters == old(proc_table).table.counters,
        match diagnostics {
            Some(inputs) if !old(proc_table).poisoned => {
                &&& publication.diagnostics matches Some(report)
                &&& made_of(
                    report,
                    ProcDiagnosticsSnapshot {
                        counters: old(proc_table).table.counters,
                        lookup_miss_samples: old(proc_table).table.lookup_miss_samples,
                    },
                    *inputs,
                )
                &&& final(proc_table).table.lookup_miss_samples@.len() == 0
            },
            _ => publication.diagnostics is None && final(proc_table).table == old(
                proc_table,
            ).table,
        },
{
    let fresh = proc_table.is_fresh_at(now);
    let snapshot = totals.snapshot(top_n, pending_attribution_bytes, fresh);
    let diagnostics = match diagnostics {
        Some(inputs) => collect(proc_table, inputs),
        None => None,
    };
    Publication { snapshot, diagnostics }
}

/// Whether a channel that gave no more is only empty.
#[derive(Clone, Copy, Debug, PartialEq, Eq, Structural)]
pub enum ChannelEnd {
    Empty,
    Disconnected,
}

/// A fault, or the one of a worker that is gone.
pub open spec fn fault_or(failure: Option<PipelineError>, worker: Seq<char>) -> PipelineFault {
    match failure {
        Some(failure) => failure@,
        None => PipelineFault::WorkerStopped(worker),
    }
}

/// The latest of the snapshots that were received, unless the pipeline does not work.
pub fn latest_snapshot<S>(
    received: Vec<S>,
    end: ChannelEnd,
    failure: Option<PipelineError>,
) -> (latest: Result<Option<S>, PipelineError>)
    ensures
        match (end, failure) {
            (ChannelEnd::Empty, None) => latest == Ok::<Option<S>, PipelineError>(
                if received@.len() == 0 {
                    None
                } else {
                    Some(received@.last())
                },
            ),
            _ => latest matches Err(error) && error@ == fault_or(failure, "aggregate"@),
        },
{
    match failure {
        Some(failure) => Err(failure),
        None => match end {
            ChannelEnd::Empty => {
                let mut received = received;
                Ok(received.pop())
            },
            ChannelEnd::Disconnected => Err(PipelineError::WorkerStopped("aggregate")),
        },
    }
}

/// What was heard of the first read of a capture.
#[derive(Debug)]
pub enum FirstRead {
    Succeeded,
    Failed(PipelineError),
    /// Nothing yet.
    Nothing,
    /// Nothing, and the worker is gone.
    Disconnected,
}

/// Whether a capture works, by what was heard of its first read; `None` while nothing was.
pub open spec fn readiness_heard(
    heard: FirstRead,
    failure: Option<PipelineError>,
) -> Option<Result<CaptureReadiness, PipelineFault>> {
    match heard {
        FirstRead::Succeeded => Some(Ok(CaptureReadiness::Ready)),
        FirstRead::Failed(error) => Some(Err(error@)),
        FirstRead::Nothing => None,
        FirstRead::Disconnected => Some(Err(fault_or(failure, "capture"@))),
    }
}

/// A result with its error as a mathematical value.
pub open spec fn readiness_view(result: Result<CaptureReadiness, PipelineError>) -> Result<
    CaptureReadiness,
    PipelineFault,
> {
    match result {
        Ok(readiness) => Ok(readiness),
        Err(error) => Err(error@),
    }
}

/// Whether a capture works, by what was heard of its first read.
pub fn poll_capture_readiness(heard: FirstRead, failure: Option<PipelineError>) -> (readiness:
    Option<Result<CaptureReadiness, PipelineError>>)
    ensures
        match readiness_heard(heard, failure) {
            Some(expected) => readiness matches Some(readiness) && readiness_view(readiness)
                == expected,
            None => readiness is None,
        },
{
    match heard {
        FirstRead::Succeeded => Some(Ok(CaptureReadiness::Ready)),
        FirstRead::Failed(error) => Some(Err(error)),
        FirstRead::Nothing => None,
        FirstRead::Disconnected => match failure {
            Some(failure) => Some(Err(failure)),
            None => Some(Err(PipelineError::WorkerStopped("capture"))),
        },
    }
}

/// Whether a new capture works, after it was watched for a while: one of which nothing was
/// heard may still.
pub fn observe_early_capture_failure(heard: FirstRead, failure: Option<PipelineError>) -> (
    readiness: Result<CaptureReadiness, PipelineError>)
    ensures
        readiness_view(readiness) == match readiness_heard(heard, failure) {
            Some(expected) => expected,
            None => Ok(CaptureReadiness::Waiting),
        },
{
    match poll_capture_readiness(heard, failure) {
        Some(readiness) => readiness,
        None => Ok(CaptureReadiness::Waiting),
    }
}

/// When the next report is due, of those that are made at every interval.
#[derive(Clone, Copy, Debug, PartialEq, Eq, Structural)]
pub struct ReportSchedule {
    pub next: u128,
    pub interval: u128,
}

impl ReportSchedule {
    /// The first report is due an interval from now.
    pub fn new(now: u128, interval: u128) -> (schedule: Self)
        requires
            now + interval <= u128::MAX,
        ensures
            schedule.next == now + interval,
            schedule.interval == interval,
    {
        ReportSchedule { next: now + interval, interval }
    }

    /// Whether a report is due.
    pub fn is_due(&self, now: u128) -> (due: bool)
        ensures
            due == (now >= self.next),
    {
        now >= self.next
    }

    /// A report is done: the next one is due an interval from now, however long it took.
    pub fn reported(&mut self, now: u128)
        requires
            now + old(self).interval <= u128::MAX,
        ensures
            final(self).next == now + old(self).interval,
            final(self).interval == old(self).interval,
    {
        self.next = now + self.interval;
    }
}

} // verus!
