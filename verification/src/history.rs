//! The interval log: which process owned a socket, and when.
//!
//! The operating system only names the owner of a socket that is still open.
//! The log keeps, for every socket and process that a scan has ever paired, the
//! interval over which the pairing was seen, so that traffic of a socket that has
//! since closed can still be charged. A recovered process must have started no
//! later than the traffic was observed; one whose start time is unknown is refused.

use vstd::prelude::*;

use crate::net::LocalSocket;
use crate::proc_table::{ProcEntry, ProcInfo};
use crate::stats::ObservedProcess;
use crate::text::clone_text;

verus! {

/// How long a closed interval is kept, in nanoseconds: fifteen minutes.
pub const HISTORY_RETENTION: i128 = 900_000_000_000;

/// How many intervals the log holds before it evicts closed ones.
pub const HISTORY_CAPACITY: usize = 8192;

/// The time over which scans saw a process own a socket.
#[derive(Debug, PartialEq, Eq)]
pub struct HistoryInterval {
    pub socket: LocalSocket,
    pub pid: u32,
    pub valid_from: i128,
    /// Absent while the latest scan still shows the pairing.
    pub valid_to: Option<i128>,
    pub name: Option<String>,
    pub path: Option<String>,
}

/// The start times of processes, as far as they could be read.
pub struct StartTimes {
    pub known: Vec<(u32, i128)>,
}

/// The log of intervals, one for each socket and process.
pub struct AttributionHistory {
    pub intervals: Vec<HistoryInterval>,
    pub retention: i128,
    pub capacity: usize,
}

/// The first start time listed for a process.
pub open spec fn first_start(known: Seq<(u32, i128)>, pid: u32) -> Option<i128>
    decreases known.len(),
{
    if known.len() == 0 {
        None
    } else if known.first().0 == pid {
        Some(known.first().1)
    } else {
        first_start(known.drop_first(), pid)
    }
}

impl StartTimes {
    /// The start time of a process, if it is known.
    pub open spec fn of(self, pid: u32) -> Option<i128> {
        first_start(self.known@, pid)
    }

    /// The start time of a process, if it is known.
    pub fn get(&self, pid: u32) -> (started: Option<i128>)
        ensures
            started == self.of(pid),
    {
        let mut i: usize = 0;
        assert(self.known@.skip(0) =~= self.known@);
        while i < self.known.len()
            invariant
                i <= self.known@.len(),
                first_start(self.known@, pid) == first_start(self.known@.skip(i as int), pid),
            decreases self.known@.len() - i,
        {
            assert(self.known@.skip(i as int).drop_first() =~= self.known@.skip(i + 1));
            if self.known[i].0 == pid {
                return Some(self.known[i].1);
            }
            i += 1;
        }
        None
    }
}

impl HistoryInterval {
    /// Whether the interval is the one of this socket and process.
    pub open spec fn is_for(self, socket: LocalSocket, pid: u32) -> bool {
        self.socket == socket && self.pid == pid
    }

    /// Whether the interval holds the time.
    pub open spec fn covers(self, at: int) -> bool {
        self.valid_from <= at && (self.valid_to matches Some(to) ==> at <= to)
    }

    /// The process that the interval names.
    pub open spec fn process(self) -> ObservedProcess {
        ObservedProcess { pid: self.pid, name: self.name, path: self.path }
    }

    /// Whether the interval closed before the time.
    pub open spec fn closed_before(self, cutoff: int) -> bool {
        self.valid_to matches Some(to) && to < cutoff
    }
}

/// No socket and process have two intervals.
pub open spec fn distinct_intervals(log: Seq<HistoryInterval>) -> bool {
    forall|i: int, j: int|
        #![trigger log[i], log[j]]
        0 <= i < j < log.len() ==> !log[i].is_for(log[j].socket, log[j].pid)
}

/// The interval of a socket and a process.
pub open spec fn interval_of(log: Seq<HistoryInterval>, socket: LocalSocket, pid: u32) -> Option<
    HistoryInterval,
>
    decreases log.len(),
{
    if log.len() == 0 {
        None
    } else if log.last().is_for(socket, pid) {
        Some(log.last())
    } else {
        interval_of(log.drop_last(), socket, pid)
    }
}

/// What a scan says of a socket and a process: its last entry for them.
pub open spec fn scanned(entries: Seq<ProcEntry>, socket: LocalSocket, pid: u32) -> Option<ProcInfo>
    decreases entries.len(),
{
    if entries.len() == 0 {
        None
    } else if entries.last().socket == socket && entries.last().info.pid == pid {
        Some(entries.last().info)
    } else {
        scanned(entries.drop_last(), socket, pid)
    }
}

/// The interval of a socket and a process after a scan at `now`, before anything
/// is dropped: a pairing the scan shows keeps its open interval or opens a new
/// one, and an open interval the scan does not confirm closes.
pub open spec fn refreshed(
    before: Option<HistoryInterval>,
    seen: Option<ProcInfo>,
    now: i128,
    socket: LocalSocket,
    pid: u32,
) -> Option<HistoryInterval> {
    match seen {
        Some(info) => Some(
            HistoryInterval {
                socket,
                pid,
                valid_from: match before {
                    Some(interval) if interval.valid_to is None => interval.valid_from,
                    _ => now,
                },
                valid_to: None,
                name: info.name,
                path: info.path,
            },
        ),
        None => match before {
            Some(interval) if interval.valid_to is None => Some(
                HistoryInterval { valid_to: Some(now), ..interval },
            ),
            other => other,
        },
    }
}

/// What dropping old intervals leaves. Everything that closed before the cutoff
/// goes. Beyond the capacity closed intervals go, those that closed first before
/// the others, until the log fits or only open ones are left.
pub open spec fn pruned(
    before: Seq<HistoryInterval>,
    cutoff: int,
    capacity: nat,
    after: Seq<HistoryInterval>,
) -> bool {
    let kept = before.filter(|interval: HistoryInterval| !interval.closed_before(cutoff));
    &&& distinct_intervals(after)
    &&& forall|i: int| 0 <= i < after.len() ==> kept.contains(#[trigger] after[i])
    &&& forall|i: int, j: int|
        #![trigger kept[i], after[j]]
        0 <= i < kept.len() && !after.contains(kept[i]) && 0 <= j < after.len() ==> {
            &&& kept[i].valid_to is Some
            &&& after[j].valid_to matches Some(to) ==> kept[i].valid_to->0 <= to
        }
    &&& forall|i: int|
        0 <= i < kept.len() && (#[trigger] kept[i]).valid_to is None ==> after.contains(kept[i])
    &&& kept.len() <= capacity ==> after == kept
    &&& kept.len() > capacity ==> {
        ||| after.len() == capacity
        ||| after.len() > capacity && forall|j: int|
            0 <= j < after.len() ==> (#[trigger] after[j]).valid_to is None
    }
}

/// What a scan at some time leaves of a log, given the cutoff and the capacity.
pub open spec fn updated(
    before: Seq<HistoryInterval>,
    entries: Seq<ProcEntry>,
    now: i128,
    cutoff: int,
    capacity: nat,
    after: Seq<HistoryInterval>,
) -> bool {
    // Whatever is left is as the scan made it, and has not closed before the cutoff.
    &&& forall|socket: LocalSocket, pid: u32|
        #![trigger interval_of(after, socket, pid)]
        interval_of(after, socket, pid) matches Some(interval) ==> {
            &&& !interval.closed_before(cutoff)
            &&& refreshed(
                interval_of(before, socket, pid),
                scanned(entries, socket, pid),
                now,
                socket,
                pid,
            ) == Some(interval)
        }
    // Of what the scan made, an interval that has not closed before the cutoff is
    // missing only if it is closed, the log is full, and no closed interval that
    // is left closed earlier.
    &&& forall|socket: LocalSocket, pid: u32|
        #![trigger interval_of(after, socket, pid)]
        interval_of(after, socket, pid) is None ==> match refreshed(
            interval_of(before, socket, pid),
            scanned(entries, socket, pid),
            now,
            socket,
            pid,
        ) {
            Some(interval) => {
                ||| interval.closed_before(cutoff)
                ||| {
                    &&& interval.valid_to is Some
                    &&& after.len() >= capacity
                    &&& forall|j: int|
                        0 <= j < after.len() ==> ((#[trigger] after[j]).valid_to matches Some(to)
                            ==> interval.valid_to->0 <= to)
                }
            },
            None => true,
        }
    // Beyond the capacity only open intervals are left.
    &&& after.len() > capacity ==> forall|j: int|
        0 <= j < after.len() ==> (#[trigger] after[j]).valid_to is None
}

/// In a log without duplicates, a listed interval is the one of its socket and process.
pub proof fn lemma_interval_found(log: Seq<HistoryInterval>, i: int)
    requires
        distinct_intervals(log),
        0 <= i < log.len(),
    ensures
        interval_of(log, log[i].socket, log[i].pid) == Some(log[i]),
    decreases log.len(),
{
    let shorter = log.drop_last();
    if i < shorter.len() {
        assert(distinct_intervals(shorter));
        lemma_interval_found(shorter, i);
        assert(shorter[i] == log[i]);
        assert(!log[i].is_for(log[log.len() - 1].socket, log[log.len() - 1].pid));
    }
}

/// The interval of a socket and a process is listed, unless none is.
pub proof fn lemma_interval_listed(log: Seq<HistoryInterval>, socket: LocalSocket, pid: u32)
    ensures
        match interval_of(log, socket, pid) {
            Some(interval) => interval.is_for(socket, pid) && exists|i: int|
                0 <= i < log.len() && log[i] == interval,
            None => forall|i: int| 0 <= i < log.len() ==> !(#[trigger] log[i]).is_for(socket, pid),
        },
    decreases log.len(),
{
    if log.len() > 0 {
        let shorter = log.drop_last();
        lemma_interval_listed(shorter, socket, pid);
        if log.last().is_for(socket, pid) {
            assert(log[log.len() - 1] == log.last());
        } else {
            match interval_of(shorter, socket, pid) {
                Some(interval) => {
                    let i = choose|i: int| 0 <= i < shorter.len() && shorter[i] == interval;
                    assert(log[i] == interval);
                },
                None => {
                    assert forall|i: int| 0 <= i < log.len() implies !(#[trigger] log[i]).is_for(
                        socket,
                        pid,
                    ) by {
                        if i < shorter.len() {
                            assert(shorter[i] == log[i]);
                        }
                    }
                },
            }
        }
    }
}

proof fn lemma_remove_distinct(log: Seq<HistoryInterval>, v: int)
    requires
        distinct_intervals(log),
        0 <= v < log.len(),
    ensures
        distinct_intervals(log.remove(v)),
        forall|x: HistoryInterval|
            log.contains(x) && x != log[v] ==> #[trigger] log.remove(v).contains(x),
        forall|i: int|
            0 <= i < log.remove(v).len() ==> log.contains(#[trigger] log.remove(v)[i]),
{
    let rest = log.remove(v);
    assert forall|i: int, j: int|
        #![trigger rest[i], rest[j]]
        0 <= i < j < rest.len() implies !rest[i].is_for(rest[j].socket, rest[j].pid) by {
        let i2 = if i < v { i } else { i + 1 };
        let j2 = if j < v { j } else { j + 1 };
        assert(!log[i2].is_for(log[j2].socket, log[j2].pid));
    }
    assert forall|x: HistoryInterval| log.contains(x) && x != log[v] implies #[trigger] log.remove(
        v,
    ).contains(x) by {
        let i = choose|i: int| 0 <= i < log.len() && log[i] == x;
        let i2 = if i < v { i } else { i - 1 };
        assert(rest[i2] == x);
    }
    assert forall|i: int| 0 <= i < rest.len() implies log.contains(#[trigger] rest[i]) by {
        let i2 = if i < v { i } else { i + 1 };
        assert(log[i2] == rest[i]);
    }
}

proof fn lemma_interval_replaced(log: Seq<HistoryInterval>, v: int, value: HistoryInterval)
    requires
        distinct_intervals(log),
        0 <= v < log.len(),
        value.is_for(log[v].socket, log[v].pid),
    ensures
        distinct_intervals(log.update(v, value)),
        forall|socket: LocalSocket, pid: u32| #[trigger]
            interval_of(log.update(v, value), socket, pid) == if value.is_for(socket, pid) {
                Some(value)
            } else {
                interval_of(log, socket, pid)
            },
{
    let new = log.update(v, value);
    assert forall|i: int, j: int|
        #![trigger new[i], new[j]]
        0 <= i < j < new.len() implies !new[i].is_for(new[j].socket, new[j].pid) by {
        assert(!log[i].is_for(log[j].socket, log[j].pid));
    }
    assert forall|socket: LocalSocket, pid: u32| #[trigger]
        interval_of(new, socket, pid) == if value.is_for(socket, pid) {
            Some(value)
        } else {
            interval_of(log, socket, pid)
        } by {
        lemma_interval_listed(new, socket, pid);
        lemma_interval_listed(log, socket, pid);
        match interval_of(new, socket, pid) {
            Some(interval) => {
                let i = choose|i: int| 0 <= i < new.len() && new[i] == interval;
                lemma_interval_found(new, i);
                lemma_interval_found(log, i);
                if value.is_for(socket, pid) {
                    lemma_interval_found(new, v);
                }
            },
            None => {
                assert(!new[v].is_for(socket, pid));
                if interval_of(log, socket, pid) is Some {
                    let i = choose|i: int|
                        0 <= i < log.len() && log[i] == interval_of(log, socket, pid)->0;
                    assert(!new[i].is_for(socket, pid));
                }
            },
        }
    }
}

proof fn lemma_interval_appended(log: Seq<HistoryInterval>, value: HistoryInterval)
    requires
        distinct_intervals(log),
        forall|i: int|
            0 <= i < log.len() ==> !(#[trigger] log[i]).is_for(value.socket, value.pid),
    ensures
        distinct_intervals(log.push(value)),
        interval_of(log, value.socket, value.pid) is None,
        forall|socket: LocalSocket, pid: u32| #[trigger]
            interval_of(log.push(value), socket, pid) == if value.is_for(socket, pid) {
                Some(value)
            } else {
                interval_of(log, socket, pid)
            },
{
    lemma_interval_listed(log, value.socket, value.pid);
    assert(log.push(value).drop_last() =~= log);
}

/// The log with every open interval that the scan does not show closed at `now`.
spec fn confirmed(interval: HistoryInterval, entries: Seq<ProcEntry>, now: i128) -> HistoryInterval {
    if interval.valid_to is None && scanned(entries, interval.socket, interval.pid) is None {
        HistoryInterval { valid_to: Some(now), ..interval }
    } else {
        interval
    }
}

proof fn lemma_confirmed(
    log: Seq<HistoryInterval>,
    entries: Seq<ProcEntry>,
    now: i128,
    new: Seq<HistoryInterval>,
    socket: LocalSocket,
    pid: u32,
)
    requires
        new.len() == log.len(),
        forall|i: int|
            0 <= i < log.len() ==> #[trigger] new[i] == confirmed(log[i], entries, now),
    ensures
        interval_of(new, socket, pid) == match interval_of(log, socket, pid) {
            Some(interval) => Some(confirmed(interval, entries, now)),
            None => None,
        },
    decreases log.len(),
{
    if log.len() > 0 {
        assert(new.last() == confirmed(log.last(), entries, now));
        lemma_confirmed(log.drop_last(), entries, now, new.drop_last(), socket, pid);
    }
}

proof fn lemma_pruned_updated(
    before: Seq<HistoryInterval>,
    mid: Seq<HistoryInterval>,
    entries: Seq<ProcEntry>,
    now: i128,
    cutoff: int,
    capacity: nat,
    after: Seq<HistoryInterval>,
)
    requires
        distinct_intervals(mid),
        pruned(mid, cutoff, capacity, after),
        forall|socket: LocalSocket, pid: u32| #[trigger]
            interval_of(mid, socket, pid) == refreshed(
                interval_of(before, socket, pid),
                scanned(entries, socket, pid),
                now,
                socket,
                pid,
            ),
    ensures
        updated(before, entries, now, cutoff, capacity, after),
{
    broadcast use Seq::lemma_filter_pred, Seq::lemma_filter_contains;

    let keep = |interval: HistoryInterval| !interval.closed_before(cutoff);
    let kept = mid.filter(keep);
    lemma_filter_distinct(mid, keep);
    assert forall|socket: LocalSocket, pid: u32|
        #![trigger interval_of(after, socket, pid)]
        interval_of(after, socket, pid) is Some implies {
        &&& !interval_of(after, socket, pid)->0.closed_before(cutoff)
        &&& interval_of(mid, socket, pid) == interval_of(after, socket, pid)
    } by {
        let interval = interval_of(after, socket, pid)->0;
        lemma_interval_listed(after, socket, pid);
        let j = choose|j: int| 0 <= j < after.len() && after[j] == interval;
        assert(kept.contains(after[j]));
        let k = choose|k: int| 0 <= k < kept.len() && kept[k] == interval;
        assert(keep(kept[k]));
        assert(mid.contains(kept[k]));
        let m = choose|m: int| 0 <= m < mid.len() && mid[m] == interval;
        lemma_interval_found(mid, m);
    }
    assert forall|socket: LocalSocket, pid: u32|
        #![trigger interval_of(after, socket, pid)]
        interval_of(after, socket, pid) is None implies match interval_of(mid, socket, pid) {
        Some(interval) => {
            ||| interval.closed_before(cutoff)
            ||| {
                &&& interval.valid_to is Some
                &&& after.len() >= capacity
                &&& forall|j: int|
                    0 <= j < after.len() ==> ((#[trigger] after[j]).valid_to matches Some(to)
                        ==> interval.valid_to->0 <= to)
            }
        },
        None => true,
    } by {
        lemma_interval_listed(after, socket, pid);
        lemma_interval_listed(mid, socket, pid);
        if interval_of(mid, socket, pid) is Some {
            let interval = interval_of(mid, socket, pid)->0;
            if !interval.closed_before(cutoff) {
                let m = choose|m: int| 0 <= m < mid.len() && mid[m] == interval;
                assert(keep(mid[m]));
                assert(kept.contains(mid[m]));
                let k = choose|k: int| 0 <= k < kept.len() && kept[k] == interval;
                if after.contains(kept[k]) {
                    let j = choose|j: int| 0 <= j < after.len() && after[j] == kept[k];
                    assert(!after[j].is_for(socket, pid));
                }
                assert(!after.contains(kept[k]));
                assert(kept[k].valid_to is Some);
                assert forall|j: int| 0 <= j < after.len() implies ((
                #[trigger] after[j]).valid_to matches Some(to) ==> interval.valid_to->0 <= to) by {
                    assert(kept[k].valid_to is Some);
                }
            }
        }
    }
}

impl Default for AttributionHistory {
    /// An empty log with the usual limits.
    fn default() -> (history: Self)
        ensures
            history.wf(),
            history.intervals@.len() == 0,
            history.retention == HISTORY_RETENTION,
            history.capacity == HISTORY_CAPACITY,
    {
        AttributionHistory::new(HISTORY_RETENTION, HISTORY_CAPACITY)
    }
}

impl AttributionHistory {
    /// No socket and process have two intervals.
    pub open spec fn wf(self) -> bool {
        distinct_intervals(self.intervals@)
    }

    /// An empty log with its limits.
    pub fn new(retention: i128, capacity: usize) -> (history: Self)
        ensures
            history.wf(),
            history.intervals@.len() == 0,
            history.retention == retention,
            history.capacity == capacity,
    {
        AttributionHistory { intervals: Vec::new(), retention, capacity }
    }

    /// How many intervals the log holds.
    pub fn len(&self) -> (count: usize)
        ensures
            count == self.intervals@.len(),
    {
        self.intervals.len()
    }

    /// Where the interval of a socket and a process is listed.
    fn find(&self, socket: LocalSocket, pid: u32) -> (index: Option<usize>)
        ensures
            match index {
                Some(i) => i < self.intervals@.len() && self.intervals@[i as int].is_for(
                    socket,
                    pid,
                ),
                None => forall|i: int|
                    0 <= i < self.intervals@.len() ==> !(#[trigger] self.intervals@[i]).is_for(
                        socket,
                        pid,
                    ),
            },
    {
        let mut i: usize = 0;
        while i < self.intervals.len()
            invariant
                i <= self.intervals@.len(),
                forall|j: int|
                    0 <= j < i ==> !(#[trigger] self.intervals@[j]).is_for(socket, pid),
            decreases self.intervals@.len() - i,
        {
            if self.intervals[i].socket == socket && self.intervals[i].pid == pid {
                return Some(i);
            }
            i += 1;
        }
        None
    }

    /// The closed interval with the earliest end.
    fn earliest_closed(&self) -> (index: Option<usize>)
        ensures
            match index {
                Some(v) => {
                    &&& v < self.intervals@.len()
                    &&& self.intervals@[v as int].valid_to is Some
                    &&& forall|i: int|
                        0 <= i < self.intervals@.len() ==> ((
                        #[trigger] self.intervals@[i]).valid_to matches Some(to)
                            ==> self.intervals@[v as int].valid_to->0 <= to)
                },
                None => forall|i: int|
                    0 <= i < self.intervals@.len() ==> (
                    #[trigger] self.intervals@[i]).valid_to is None,
            },
    {
        let mut victim: Option<(usize, i128)> = None;
        let mut i: usize = 0;
        while i < self.intervals.len()
            invariant
                i <= self.intervals@.len(),
                match victim {
                    Some((v, end)) => {
                        &&& v < i
                        &&& self.intervals@[v as int].valid_to == Some(end)
                        &&& forall|j: int|
                            0 <= j < i ==> ((#[trigger] self.intervals@[j]).valid_to matches Some(
                                to,
                            ) ==> end <= to)
                    },
                    None => forall|j: int|
                        0 <= j < i ==> (#[trigger] self.intervals@[j]).valid_to is None,
                },
            decreases self.intervals@.len() - i,
        {
            if let Some(to) = self.intervals[i].valid_to {
                match victim {
                    Some((_, end)) => {
                        if to < end {
                            victim = Some((i, to));
                        }
                    },
                    None => {
                        victim = Some((i, to));
                    },
                }
            }
            i += 1;
        }
        match victim {
            Some((v, _)) => Some(v),
            None => None,
        }
    }

    /// Drops what closed more than the retention ago, and closed intervals beyond
    /// the capacity, those that closed first before the others. Open intervals stay.
    pub fn prune(&mut self, now: i128)
        requires
            old(self).wf(),
            i128::MIN <= now - old(self).retention <= i128::MAX,
        ensures
            final(self).wf(),
            final(self).retention == old(self).retention,
            final(self).capacity == old(self).capacity,
            pruned(
                old(self).intervals@,
                now - old(self).retention,
                old(self).capacity as nat,
                final(self).intervals@,
            ),
    {
        let cutoff: i128 = now - self.retention;
        let ghost before = self.intervals@;
        let ghost keep = |interval: HistoryInterval| !interval.closed_before(cutoff as int);
        let ghost mut done: int = 0;
        let mut i: usize = 0;
        proof {
            reveal(Seq::filter);
            assert(before.take(0).filter(keep) =~= Seq::<HistoryInterval>::empty());
            assert(before.skip(0) =~= before);
            assert(Seq::<HistoryInterval>::empty() + before =~= before);
        }
        while i < self.intervals.len()
            invariant
                keep == (|interval: HistoryInterval| !interval.closed_before(cutoff as int)),
                0 <= done <= before.len(),
                i == before.take(done).filter(keep).len(),
                self.intervals@ == before.take(done).filter(keep) + before.skip(done),
                self.retention == old(self).retention,
                self.capacity == old(self).capacity,
            decreases before.len() - done,
        {
            let expired = match self.intervals[i].valid_to {
                Some(to) => to < cutoff,
                None => false,
            };
            proof {
                assert(self.intervals@[i as int] == before[done]);
                reveal(Seq::filter);
                assert(before.take(done + 1).drop_last() =~= before.take(done));
            }
            if expired {
                let _ = self.intervals.remove(i);
            } else {
                i += 1;
            }
            proof {
                done = done + 1;
                assert(self.intervals@ =~= before.take(done).filter(keep) + before.skip(done));
            }
        }
        let ghost kept = before.filter(keep);
        proof {
            assert(before.skip(done).len() == 0);
            assert(before.take(done) =~= before);
            assert(self.intervals@ =~= kept);
            lemma_filter_distinct(before, keep);
            assert forall|x: HistoryInterval| kept.contains(x) == self.intervals@.contains(x) by {}
        }
        while self.intervals.len() > self.capacity
            invariant_except_break
                kept.len() <= self.capacity ==> self.intervals@ == kept,
                kept.len() > self.capacity ==> self.intervals@.len() >= self.capacity,
            invariant
                distinct_intervals(self.intervals@),
                forall|i: int|
                    0 <= i < self.intervals@.len() ==> kept.contains(#[trigger] self.intervals@[i]),
                forall|i: int, j: int|
                    #![trigger kept[i], self.intervals@[j]]
                    0 <= i < kept.len() && !self.intervals@.contains(kept[i]) && 0 <= j
                        < self.intervals@.len() ==> {
                        &&& kept[i].valid_to is Some
                        &&& self.intervals@[j].valid_to matches Some(to) ==> kept[i].valid_to->0
                            <= to
                    },
                forall|i: int|
                    0 <= i < kept.len() && (#[trigger] kept[i]).valid_to is None
                        ==> self.intervals@.contains(kept[i]),
                self.retention == old(self).retention,
                self.capacity == old(self).capacity,
            ensures
                kept.len() <= self.capacity ==> self.intervals@ == kept,
                kept.len() > self.capacity ==> {
                    ||| self.intervals@.len() == self.capacity
                    ||| self.intervals@.len() > self.capacity && forall|j: int|
                        0 <= j < self.intervals@.len() ==> (
                        #[trigger] self.intervals@[j]).valid_to is None
                },
            decreases self.intervals@.len(),
        {
            let victim = self.earliest_closed();
            match victim {
                Some(v) => {
                    let ghost full = self.intervals@;
                    proof {
                        lemma_remove_distinct(full, v as int);
                    }
                    let _ = self.intervals.remove(v);
                    proof {
                        let rest = self.intervals@;
                        assert(rest == full.remove(v as int));
                        assert forall|i: int, j: int|
                            #![trigger kept[i], rest[j]]
                            0 <= i < kept.len() && !rest.contains(kept[i]) && 0 <= j
                                < rest.len() implies {
                            &&& kept[i].valid_to is Some
                            &&& rest[j].valid_to matches Some(to) ==> kept[i].valid_to->0 <= to
                        } by {
                            assert(full.contains(rest[j]));
                            let j2 = choose|k: int| 0 <= k < full.len() && full[k] == rest[j];
                            if full.contains(kept[i]) {
                                assert(kept[i] == full[v as int]);
                            } else {
                                assert(full[j2] == rest[j]);
                            }
                        }
                        assert forall|i: int|
                            0 <= i < kept.len() && (
                            #[trigger] kept[i]).valid_to is None implies rest.contains(
                            kept[i],
                        ) by {
                            assert(full.contains(kept[i]));
                        }
                        assert forall|i: int| 0 <= i < rest.len() implies kept.contains(
                            #[trigger] rest[i],
                        ) by {
                            assert(full.contains(rest[i]));
                            let k = choose|k: int| 0 <= k < full.len() && full[k] == rest[i];
                            assert(kept.contains(full[k]));
                        }
                    }
                },
                None => {
                    break;
                },
            }
        }
    }

    /// Enters a scan made at `now` into the log, then drops old intervals.
    pub fn update(&mut self, now: i128, entries: &Vec<ProcEntry>)
        requires
            old(self).wf(),
            i128::MIN <= now - old(self).retention <= i128::MAX,
        ensures
            final(self).wf(),
            final(self).retention == old(self).retention,
            final(self).capacity == old(self).capacity,
            updated(
                old(self).intervals@,
                entries@,
                now,
                now - old(self).retention,
                old(self).capacity as nat,
                final(self).intervals@,
            ),
    {
        let ghost before = self.intervals@;
        let mut i: usize = 0;
        while i < entries.len()
            invariant
                i <= entries@.len(),
                distinct_intervals(self.intervals@),
                forall|socket: LocalSocket, pid: u32| #[trigger]
                    interval_of(self.intervals@, socket, pid) == (match scanned(
                        entries@.take(i as int),
                        socket,
                        pid,
                    ) {
                        Some(info) => refreshed(
                            interval_of(before, socket, pid),
                            Some(info),
                            now,
                            socket,
                            pid,
                        ),
                        None => interval_of(before, socket, pid),
                    }),
                self.retention == old(self).retention,
                self.capacity == old(self).capacity,
            decreases entries@.len() - i,
        {
            let entry = &entries[i];
            let ghost log = self.intervals@;
            let ghost socket = entry.socket;
            let ghost pid = entry.info.pid;
            proof {
                assert(entries@.take(i + 1).drop_last() =~= entries@.take(i as int));
            }
            match self.find(entry.socket, entry.info.pid) {
                Some(v) => {
                    proof {
                        lemma_interval_found(log, v as int);
                    }
                    if self.intervals[v].valid_to.is_some() {
                        self.intervals[v].valid_from = now;
                        self.intervals[v].valid_to = None;
                    }
                    self.intervals[v].name = clone_text(&entry.info.name);
                    self.intervals[v].path = clone_text(&entry.info.path);
                    proof {
                        let value = self.intervals@[v as int];
                        assert(self.intervals@ =~= log.update(v as int, value));
                        lemma_interval_replaced(log, v as int, value);
                    }
                },
                None => {
                    let value = HistoryInterval {
                        socket: entry.socket,
                        pid: entry.info.pid,
                        valid_from: now,
                        valid_to: None,
                        name: clone_text(&entry.info.name),
                        path: clone_text(&entry.info.path),
                    };
                    proof {
                        lemma_interval_appended(log, value);
                    }
                    self.intervals.push(value);
                },
            }
            i += 1;
        }
        assert(entries@.take(i as int) =~= entries@);
        let ghost opened = self.intervals@;
        let mut j: usize = 0;
        while j < self.intervals.len()
            invariant
                j <= self.intervals@.len(),
                self.intervals@.len() == opened.len(),
                forall|k: int|
                    0 <= k < j ==> #[trigger] self.intervals@[k] == confirmed(
                        opened[k],
                        entries@,
                        now,
                    ),
                forall|k: int| j <= k < opened.len() ==> #[trigger] self.intervals@[k] == opened[k],
                self.retention == old(self).retention,
                self.capacity == old(self).capacity,
            decreases self.intervals@.len() - j,
        {
            if self.intervals[j].valid_to.is_none() {
                let shown = shows(entries, self.intervals[j].socket, self.intervals[j].pid);
                if !shown {
                    self.intervals[j].valid_to = Some(now);
                }
            }
            j += 1;
        }
        let ghost mid = self.intervals@;
        proof {
            assert forall|a: int, b: int|
                #![trigger mid[a], mid[b]]
                0 <= a < b < mid.len() implies !mid[a].is_for(mid[b].socket, mid[b].pid) by {
                assert(!opened[a].is_for(opened[b].socket, opened[b].pid));
            }
            assert forall|socket: LocalSocket, pid: u32| #[trigger]
                interval_of(mid, socket, pid) == refreshed(
                    interval_of(before, socket, pid),
                    scanned(entries@, socket, pid),
                    now,
                    socket,
                    pid,
                ) by {
                lemma_confirmed(opened, entries@, now, mid, socket, pid);
                lemma_interval_listed(opened, socket, pid);
            }
        }
        self.prune(now);
        proof {
            lemma_pruned_updated(
                before,
                mid,
                entries@,
                now,
                now - self.retention,
                self.capacity as nat,
                self.intervals@,
            );
        }
    }

    /// The processes whose interval for the socket holds the time.
    pub open spec fn owners(self, socket: LocalSocket, at: int) -> Seq<ObservedProcess> {
        self.intervals@.filter(
            |interval: HistoryInterval| interval.socket == socket && interval.covers(at),
        ).map_values(|interval: HistoryInterval| interval.process())
    }

    /// Those owners that are known to have started no later than the time.
    pub open spec fn verified_owners(
        self,
        socket: LocalSocket,
        at: int,
        started: StartTimes,
    ) -> Seq<ObservedProcess> {
        self.owners(socket, at).filter(
            |process: ObservedProcess| started.of(process.pid) matches Some(start) && start <= at,
        )
    }

    /// The processes whose interval for the socket holds the time.
    pub fn lookup(&self, socket: LocalSocket, at: i128) -> (found: Vec<ObservedProcess>)
        ensures
            found@ == self.owners(socket, at as int),
    {
        let mut found: Vec<ObservedProcess> = Vec::new();
        let ghost pick = |interval: HistoryInterval|
            interval.socket == socket && interval.covers(at as int);
        let ghost name = |interval: HistoryInterval| interval.process();
        let mut i: usize = 0;
        proof {
            reveal(Seq::filter);
            assert(self.intervals@.take(0).filter(pick).map_values(name) =~= found@);
        }
        while i < self.intervals.len()
            invariant
                i <= self.intervals@.len(),
                pick == (|interval: HistoryInterval|
                    interval.socket == socket && interval.covers(at as int)),
                name == (|interval: HistoryInterval| interval.process()),
                found@ == self.intervals@.take(i as int).filter(pick).map_values(name),
            decreases self.intervals@.len() - i,
        {
            let interval = &self.intervals[i];
            proof {
                reveal(Seq::filter);
                assert(self.intervals@.take(i + 1).drop_last() =~= self.intervals@.take(i as int));
            }
            let ended = match interval.valid_to {
                Some(to) => to < at,
                None => false,
            };
            if interval.socket == socket && interval.valid_from <= at && !ended {
                found.push(
                    ObservedProcess {
                        pid: interval.pid,
                        name: clone_text(&interval.name),
                        path: clone_text(&interval.path),
                    },
                );
            }
            i += 1;
            assert(found@ =~= self.intervals@.take(i as int).filter(pick).map_values(name));
        }
        assert(self.intervals@.take(i as int) =~= self.intervals@);
        found
    }

    /// The processes whose interval for the socket holds the time and that are
    /// known to have started no later than it.
    pub fn lookup_verified(&self, socket: LocalSocket, at: i128, started: &StartTimes) -> (found:
        Vec<ObservedProcess>)
        ensures
            found@ == self.verified_owners(socket, at as int, *started),
    {
        let owners = self.lookup(socket, at);
        let mut found: Vec<ObservedProcess> = Vec::new();
        let ghost gate = |process: ObservedProcess|
            started.of(process.pid) matches Some(start) && start <= at;
        let mut i: usize = 0;
        proof {
            reveal(Seq::filter);
            assert(owners@.take(0).filter(gate) =~= found@);
        }
        while i < owners.len()
            invariant
                i <= owners@.len(),
                gate == (|process: ObservedProcess|
                    started.of(process.pid) matches Some(start) && start <= at),
                found@ == owners@.take(i as int).filter(gate),
            decreases owners@.len() - i,
        {
            proof {
                reveal(Seq::filter);
                assert(owners@.take(i + 1).drop_last() =~= owners@.take(i as int));
            }
            if let Some(start) = started.get(owners[i].pid) {
                if start <= at {
                    found.push(owners[i].clone());
                }
            }
            i += 1;
            assert(found@ =~= owners@.take(i as int).filter(gate));
        }
        assert(owners@.take(i as int) =~= owners@);
        assert(found@ =~= self.verified_owners(socket, at as int, *started));
        found
    }
}

/// Filtering a log without duplicates leaves no duplicates.
proof fn lemma_filter_distinct(log: Seq<HistoryInterval>, keep: spec_fn(HistoryInterval) -> bool)
    requires
        distinct_intervals(log),
    ensures
        distinct_intervals(log.filter(keep)),
        forall|i: int|
            0 <= i < log.filter(keep).len() ==> log.contains(#[trigger] log.filter(keep)[i]),
    decreases log.len(),
{
    reveal(Seq::filter);
    if log.len() > 0 {
        let shorter = log.drop_last();
        assert(distinct_intervals(shorter));
        lemma_filter_distinct(shorter, keep);
        let part = shorter.filter(keep);
        let whole = log.filter(keep);
        assert forall|i: int| 0 <= i < whole.len() implies log.contains(#[trigger] whole[i]) by {
            if i < part.len() {
                assert(shorter.contains(part[i]));
                let k = choose|k: int| 0 <= k < shorter.len() && shorter[k] == part[i];
                assert(log[k] == whole[i]);
            } else {
                assert(log[log.len() - 1] == whole[i]);
            }
        }
        assert forall|i: int, j: int|
            #![trigger whole[i], whole[j]]
            0 <= i < j < whole.len() implies !whole[i].is_for(whole[j].socket, whole[j].pid) by {
            if j < part.len() {
                assert(!part[i].is_for(part[j].socket, part[j].pid));
            } else {
                assert(shorter.contains(part[i]));
                let k = choose|k: int| 0 <= k < shorter.len() && shorter[k] == part[i];
                assert(!log[k].is_for(log[log.len() - 1].socket, log[log.len() - 1].pid));
            }
        }
    }
}

/// Whether the scan shows the process on the socket.
fn shows(entries: &Vec<ProcEntry>, socket: LocalSocket, pid: u32) -> (shown: bool)
    ensures
        shown == (scanned(entries@, socket, pid) is Some),
{
    let mut i: usize = 0;
    while i < entries.len()
        invariant
            i <= entries@.len(),
            scanned(entries@.take(i as int), socket, pid) is None,
        decreases entries@.len() - i,
    {
        assert(entries@.take(i + 1).drop_last() =~= entries@.take(i as int));
        if entries[i].socket == socket && entries[i].info.pid == pid {
            proof {
                lemma_scanned_prefix(entries@, i as int, socket, pid);
            }
            return true;
        }
        i += 1;
    }
    assert(entries@.take(i as int) =~= entries@);
    false
}

proof fn lemma_scanned_prefix(entries: Seq<ProcEntry>, i: int, socket: LocalSocket, pid: u32)
    requires
        0 <= i < entries.len(),
        entries[i].socket == socket,
        entries[i].info.pid == pid,
    ensures
        scanned(entries, socket, pid) is Some,
    decreases entries.len(),
{
    if i < entries.len() - 1 {
        lemma_scanned_prefix(entries.drop_last(), i, socket, pid);
    }
}

} // verus!
