//! What the ledger says of each process: how its traffic was charged, and on which
//! connections it went.

use vstd::prelude::*;

use crate::net::Direction;
use crate::stats::{Evidence, ObservedProcess, ProcFlowKey, StatsEntry};
use crate::traffic::{
    added_up, capped, charged, charged_each, key_rows, lemma_row_of, process_view, row_of,
    same_process, top, top_keys, Channel, IdentityView, Row, Tally, TotalsView,
};

verus! {

/// What the exclusive charges of a process rest on.
#[derive(Clone, Copy, Debug, PartialEq, Eq, Structural)]
pub struct EvidenceSet {
    pub snapshot: bool,
    pub probe: bool,
    pub history: bool,
}

/// How the traffic of one process was charged, and on which connections it went.
#[derive(Debug, PartialEq, Eq)]
pub struct ProcessDetail {
    pub process: ObservedProcess,
    /// Bytes charged to the process alone.
    pub exclusive: Channel,
    /// Bytes that others may have caused instead.
    pub shared: Channel,
    /// The numbers of those others, each once.
    pub shared_with: Vec<u32>,
    pub evidence: EvidenceSet,
    /// The connections, in the order in which they were first charged.
    pub flows: Vec<Row<ProcFlowKey>>,
    pub last_seen: i128,
}

/// How the traffic of one process was charged, as a mathematical value.
#[verifier::ext_equal]
pub ghost struct DetailView {
    pub exclusive: Channel,
    pub shared: Channel,
    pub shared_with: Seq<u32>,
    pub evidence: EvidenceSet,
    pub flows: Seq<(ProcFlowKey, Tally)>,
    pub last_seen: i128,
}

impl View for ProcessDetail {
    type V = (IdentityView, DetailView);

    open spec fn view(&self) -> (IdentityView, DetailView) {
        (
            process_view(self.process),
            DetailView {
                exclusive: self.exclusive,
                shared: self.shared,
                shared_with: self.shared_with@,
                evidence: self.evidence,
                flows: key_rows(self.flows@),
                last_seen: self.last_seen,
            },
        )
    }
}

impl EvidenceSet {
    /// With one more kind of evidence.
    pub open spec fn plus(self, evidence: Evidence) -> Self {
        match evidence {
            Evidence::Snapshot => EvidenceSet { snapshot: true, ..self },
            Evidence::Probe => EvidenceSet { probe: true, ..self },
            Evidence::History => EvidenceSet { history: true, ..self },
        }
    }

    fn note(self, evidence: Evidence) -> (set: Self)
        ensures
            set == self.plus(evidence),
    {
        match evidence {
            Evidence::Snapshot => EvidenceSet { snapshot: true, ..self },
            Evidence::Probe => EvidenceSet { probe: true, ..self },
            Evidence::History => EvidenceSet { history: true, ..self },
        }
    }

    /// The words for it, in the order of the attempts to find the owner.
    pub open spec fn words(self) -> Seq<Seq<char>> {
        (if self.snapshot {
            seq!["snapshot"@]
        } else {
            Seq::empty()
        }) + (if self.probe {
            seq!["probe"@]
        } else {
            Seq::empty()
        }) + (if self.history {
            seq!["history"@]
        } else {
            Seq::empty()
        })
    }

    /// The words for it, in the order of the attempts to find the owner.
    pub fn labels(&self) -> (labels: Vec<&'static str>)
        ensures
            labels@.map_values(|label: &'static str| label@) == self.words(),
    {
        let mut labels: Vec<&'static str> = Vec::new();
        if self.snapshot {
            labels.push("snapshot");
        }
        if self.probe {
            labels.push("probe");
        }
        if self.history {
            labels.push("history");
        }
        assert(labels@.map_values(|label: &'static str| label@) =~= self.words());
        labels
    }
}

/// The later of two instants.
pub open spec fn later(left: i128, right: i128) -> i128 {
    if right > left {
        right
    } else {
        left
    }
}

/// The numbers of the other candidates, each once, behind those already listed.
pub open spec fn joined(
    listed: Seq<u32>,
    candidates: Seq<ObservedProcess>,
    key: IdentityView,
) -> Seq<u32>
    decreases candidates.len(),
{
    if candidates.len() == 0 {
        listed
    } else {
        let before = joined(listed, candidates.drop_last(), key);
        let other = candidates.last();
        if process_view(other) == key || before.contains(other.pid) {
            before
        } else {
            before.push(other.pid)
        }
    }
}

impl DetailView {
    /// Nothing charged yet.
    pub open spec fn none(at: i128) -> Self {
        DetailView {
            exclusive: Channel::none(),
            shared: Channel::none(),
            shared_with: Seq::empty(),
            evidence: EvidenceSet { snapshot: false, probe: false, history: false },
            flows: Seq::empty(),
            last_seen: at,
        }
    }

    /// With bytes on a connection.
    pub open spec fn on_flow(
        self,
        way: Direction,
        bytes: u64,
        at: i128,
        flow: ProcFlowKey,
    ) -> Self {
        DetailView {
            flows: charged(self.flows, flow, way, bytes, at),
            last_seen: later(self.last_seen, at),
            ..self
        }
    }

    /// With bytes charged to the process alone.
    pub open spec fn with_exclusive(
        self,
        way: Direction,
        bytes: u64,
        at: i128,
        evidence: Evidence,
        flow: ProcFlowKey,
    ) -> Self {
        DetailView {
            exclusive: self.exclusive.plus(way, bytes),
            evidence: self.evidence.plus(evidence),
            ..self.on_flow(way, bytes, at, flow)
        }
    }

    /// With bytes charged to the process `key` and others together.
    pub open spec fn with_shared(
        self,
        key: IdentityView,
        candidates: Seq<ObservedProcess>,
        way: Direction,
        bytes: u64,
        at: i128,
        flow: ProcFlowKey,
    ) -> Self {
        DetailView {
            shared: self.shared.plus(way, bytes),
            shared_with: joined(self.shared_with, candidates, key),
            ..self.on_flow(way, bytes, at, flow)
        }
    }
}

/// The list with a line for a process, a new one at the end if there was none.
pub open spec fn opened(
    details: Seq<(IdentityView, DetailView)>,
    key: IdentityView,
    at: i128,
) -> Seq<(IdentityView, DetailView)> {
    match row_of(details, key) {
        Some(_) => details,
        None => details.push((key, DetailView::none(at))),
    }
}

/// What the list says of a process, if it has a line.
pub open spec fn detail_of(
    details: Seq<(IdentityView, DetailView)>,
    key: IdentityView,
) -> Option<DetailView> {
    match row_of(details, key) {
        Some(place) => Some(details[place].1),
        None => None,
    }
}

/// The list with another line for a process.
pub open spec fn replaced(
    details: Seq<(IdentityView, DetailView)>,
    key: IdentityView,
    detail: DetailView,
) -> Seq<(IdentityView, DetailView)> {
    match row_of(details, key) {
        Some(place) => details.update(place, (key, detail)),
        None => details.push((key, detail)),
    }
}

/// What the list says of a process, or the line that a first charge starts from.
pub open spec fn detail_or_none(
    details: Seq<(IdentityView, DetailView)>,
    key: IdentityView,
    at: i128,
) -> DetailView {
    match detail_of(details, key) {
        Some(detail) => detail,
        None => DetailView::none(at),
    }
}

/// The list with shared bytes for each of the first `count` candidates.
pub open spec fn shared_by_each(
    details: Seq<(IdentityView, DetailView)>,
    candidates: Seq<ObservedProcess>,
    count: nat,
    way: Direction,
    bytes: u64,
    at: i128,
    flow: ProcFlowKey,
) -> Seq<(IdentityView, DetailView)>
    decreases count,
{
    if count == 0 {
        details
    } else {
        let before = shared_by_each(
            details,
            candidates,
            (count - 1) as nat,
            way,
            bytes,
            at,
            flow,
        );
        let key = process_view(candidates[count - 1]);
        replaced(
            before,
            key,
            detail_or_none(before, key, at).with_shared(key, candidates, way, bytes, at, flow),
        )
    }
}

/// The list with one more line of the ledger.
pub open spec fn detailed(
    details: Seq<(IdentityView, DetailView)>,
    entry: StatsEntry,
) -> Seq<(IdentityView, DetailView)> {
    match entry {
        StatsEntry::Exclusive { process, direction, bytes, observed_at, evidence, flow } => {
            let key = process_view(process);
            replaced(
                details,
                key,
                detail_or_none(details, key, observed_at).with_exclusive(
                    direction,
                    bytes,
                    observed_at,
                    evidence,
                    flow,
                ),
            )
        },
        StatsEntry::Shared { candidates, direction, bytes, observed_at, flow } => shared_by_each(
            details,
            candidates@,
            candidates@.len(),
            direction,
            bytes,
            observed_at,
            flow,
        ),
        _ => details,
    }
}

/// The list of a ledger.
pub open spec fn details_of(
    start: Seq<(IdentityView, DetailView)>,
    entries: Seq<StatsEntry>,
) -> Seq<(IdentityView, DetailView)>
    decreases entries.len(),
{
    if entries.len() == 0 {
        start
    } else {
        detailed(details_of(start, entries.drop_last()), entries.last())
    }
}

fn charge_flow(
    rows: &mut Vec<Row<ProcFlowKey>>,
    key: ProcFlowKey,
    way: Direction,
    bytes: u64,
    at: i128,
)
    ensures
        key_rows(final(rows)@) == charged(key_rows(old(rows)@), key, way, bytes, at),
{
    let ghost views = key_rows(rows@);
    proof {
        lemma_row_of(views, key);
    }
    let mut i: usize = 0;
    while i < rows.len()
        invariant
            i <= rows@.len(),
            views == key_rows(rows@),
            views == key_rows(old(rows)@),
            forall|k: int| 0 <= k < i ==> (#[trigger] views[k]).0 != key,
        decreases rows@.len() - i,
    {
        assert(views[i as int] == (rows@[i as int].key, rows@[i as int].tally));
        if rows[i].key == key {
            proof {
                lemma_row_of(views, key);
            }
            let tally = rows[i].tally.add_bytes(way, bytes, at);
            rows[i].tally = tally;
            assert(key_rows(rows@) =~= charged(views, key, way, bytes, at));
            return;
        }
        i += 1;
    }
    let tally = Tally { inbound: 0, outbound: 0, last_seen: at }.add_bytes(way, bytes, at);
    rows.push(Row { key, tally });
    assert(key_rows(rows@) =~= charged(views, key, way, bytes, at));
}

fn lists(numbers: &Vec<u32>, number: u32) -> (listed: bool)
    ensures
        listed == numbers@.contains(number),
{
    let mut i: usize = 0;
    while i < numbers.len()
        invariant
            i <= numbers@.len(),
            forall|k: int| 0 <= k < i ==> #[trigger] numbers@[k] != number,
        decreases numbers@.len() - i,
    {
        if numbers[i] == number {
            return true;
        }
        i += 1;
    }
    false
}

fn join_others(listed: &mut Vec<u32>, candidates: &Vec<ObservedProcess>, process: &ObservedProcess)
    ensures
        final(listed)@ == joined(old(listed)@, candidates@, process_view(*process)),
{
    let ghost before = listed@;
    let ghost key = process_view(*process);
    let mut i: usize = 0;
    assert(candidates@.take(0).len() == 0);
    while i < candidates.len()
        invariant
            i <= candidates@.len(),
            key == process_view(*process),
            listed@ == joined(before, candidates@.take(i as int), key),
        decreases candidates@.len() - i,
    {
        assert(candidates@.take(i + 1).drop_last() =~= candidates@.take(i as int));
        if !same_process(&candidates[i], process) {
            let pid: u32 = candidates[i].pid;
            if !lists(listed, pid) {
                listed.push(pid);
            }
        }
        i += 1;
    }
    assert(candidates@.take(i as int) =~= candidates@);
}

impl ProcessDetail {
    fn note_flow(&mut self, way: Direction, bytes: u64, at: i128, flow: ProcFlowKey)
        ensures
            final(self).process == old(self).process,
            final(self)@.1 == old(self)@.1.on_flow(way, bytes, at, flow),
    {
        charge_flow(&mut self.flows, flow, way, bytes, at);
        if at > self.last_seen {
            self.last_seen = at;
        }
    }

    /// Whether others may have caused some of the traffic.
    pub fn is_mixed(&self) -> (mixed: bool)
        ensures
            mixed == (self.shared.inbound > 0 || self.shared.outbound > 0),
    {
        self.shared.inbound > 0 || self.shared.outbound > 0
    }

    /// All traffic of the process, and when it was last seen.
    pub open spec fn sum(self) -> Tally {
        self@.1.sum()
    }

    /// All traffic of the process, and when it was last seen.
    pub fn tally(&self) -> (tally: Tally)
        ensures
            tally == self.sum(),
    {
        Tally {
            inbound: self.exclusive.inbound.saturating_add(self.shared.inbound),
            outbound: self.exclusive.outbound.saturating_add(self.shared.outbound),
            last_seen: self.last_seen,
        }
    }

    /// The busiest connections.
    pub fn top_flows(&self, top_n: usize) -> (flows: Vec<Row<ProcFlowKey>>)
        ensures
            key_rows(flows@) == top(self@.1.flows, top_n as nat),
    {
        top_keys(&self.flows, top_n)
    }
}

impl DetailView {
    /// All traffic of the process, and when it was last seen.
    pub open spec fn sum(self) -> Tally {
        Tally {
            inbound: capped(self.exclusive.inbound, self.shared.inbound),
            outbound: capped(self.exclusive.outbound, self.shared.outbound),
            last_seen: self.last_seen,
        }
    }
}

/// What the ledger says of each process.
#[derive(Debug)]
pub struct ProcessDetails {
    pub processes: Vec<ProcessDetail>,
}

impl View for ProcessDetails {
    type V = Seq<(IdentityView, DetailView)>;

    open spec fn view(&self) -> Seq<(IdentityView, DetailView)> {
        self.processes@.map_values(|detail: ProcessDetail| detail@)
    }
}

impl ProcessDetails {
    /// Nothing charged yet.
    pub fn new() -> (details: Self)
        ensures
            details@ == Seq::<(IdentityView, DetailView)>::empty(),
    {
        let details = ProcessDetails { processes: Vec::new() };
        assert(details@ =~= Seq::<(IdentityView, DetailView)>::empty());
        details
    }

    /// Where the line of a process is.
    fn place_of(&self, process: &ObservedProcess) -> (place: Option<usize>)
        ensures
            match place {
                Some(place) => row_of(self@, process_view(*process)) == Some(place as int)
                    && place < self.processes@.len(),
                None => row_of(self@, process_view(*process)) is None,
            },
    {
        let ghost key = process_view(*process);
        proof {
            lemma_row_of(self@, key);
        }
        let mut i: usize = 0;
        while i < self.processes.len()
            invariant
                i <= self.processes@.len(),
                key == process_view(*process),
                forall|k: int| 0 <= k < i ==> (#[trigger] self@[k]).0 != key,
            decreases self.processes@.len() - i,
        {
            assert(self@[i as int] == self.processes@[i as int]@);
            if same_process(&self.processes[i].process, process) {
                proof {
                    lemma_row_of(self@, key);
                }
                return Some(i);
            }
            i += 1;
        }
        proof {
            lemma_row_of(self@, key);
        }
        None
    }

    /// What the ledger says of a process, if it was charged anything.
    pub fn get(&self, process: &ObservedProcess) -> (detail: Option<&ProcessDetail>)
        ensures
            match detail {
                Some(detail) => detail@.0 == process_view(*process) && detail_of(
                    self@,
                    process_view(*process),
                ) == Some(detail@.1),
                None => detail_of(self@, process_view(*process)) is None,
            },
    {
        proof {
            lemma_row_of(self@, process_view(*process));
        }
        match self.place_of(process) {
            Some(place) => {
                assert(self@[place as int] == self.processes@[place as int]@);
                Some(&self.processes[place])
            },
            None => None,
        }
    }

    /// Makes sure that a process has a line, and says where.
    fn open(&mut self, process: &ObservedProcess, at: i128) -> (place: usize)
        ensures
            final(self)@ == opened(old(self)@, process_view(*process), at),
            place < final(self).processes@.len(),
            row_of(final(self)@, process_view(*process)) == Some(place as int),
            final(self)@[place as int] == (
                process_view(*process),
                detail_or_none(old(self)@, process_view(*process), at),
            ),
            row_of(old(self)@, process_view(*process)) is None ==> place == old(self)@.len(),
    {
        let ghost key = process_view(*process);
        let ghost before = self@;
        proof {
            lemma_row_of(before, key);
        }
        match self.place_of(process) {
            Some(place) => {
                assert(self@[place as int] == self.processes@[place as int]@);
                place
            },
            None => {
                let place: usize = self.processes.len();
                self.processes.push(
                    ProcessDetail {
                        process: process.clone(),
                        exclusive: Channel { inbound: 0, outbound: 0 },
                        shared: Channel { inbound: 0, outbound: 0 },
                        shared_with: Vec::new(),
                        evidence: EvidenceSet { snapshot: false, probe: false, history: false },
                        flows: Vec::new(),
                        last_seen: at,
                    },
                );
                proof {
                    let line = self.processes@[place as int]@;
                    assert(line.1 =~= DetailView::none(at));
                    assert(self@ =~= before.push((key, DetailView::none(at))));
                    assert(self@.drop_last() =~= before);
                }
                place
            },
        }
    }

    fn charge_exclusive(
        &mut self,
        process: &ObservedProcess,
        way: Direction,
        bytes: u64,
        at: i128,
        evidence: Evidence,
        flow: ProcFlowKey,
    )
        ensures
            final(self)@ == replaced(
                old(self)@,
                process_view(*process),
                detail_or_none(old(self)@, process_view(*process), at).with_exclusive(
                    way,
                    bytes,
                    at,
                    evidence,
                    flow,
                ),
            ),
    {
        let ghost before = self@;
        let ghost key = process_view(*process);
        proof {
            lemma_row_of(before, key);
        }
        let place = self.open(process, at);
        let ghost with_line = self@;
        assert(self@[place as int] == self.processes@[place as int]@);
        let detail = &mut self.processes[place];
        detail.exclusive = detail.exclusive.add_bytes(way, bytes);
        detail.evidence = detail.evidence.note(evidence);
        detail.note_flow(way, bytes, at, flow);
        proof {
            let line = self.processes@[place as int]@;
            assert(line.1 =~= detail_or_none(before, key, at).with_exclusive(
                way,
                bytes,
                at,
                evidence,
                flow,
            ));
            assert(self@ =~= with_line.update(place as int, line));
            assert(self@ =~= replaced(before, key, line.1));
        }
    }

    fn charge_shared(
        &mut self,
        process: &ObservedProcess,
        candidates: &Vec<ObservedProcess>,
        way: Direction,
        bytes: u64,
        at: i128,
        flow: ProcFlowKey,
    )
        ensures
            final(self)@ == replaced(
                old(self)@,
                process_view(*process),
                detail_or_none(old(self)@, process_view(*process), at).with_shared(
                    process_view(*process),
                    candidates@,
                    way,
                    bytes,
                    at,
                    flow,
                ),
            ),
    {
        let ghost before = self@;
        let ghost key = process_view(*process);
        proof {
            lemma_row_of(before, key);
        }
        let place = self.open(process, at);
        let ghost with_line = self@;
        assert(self@[place as int] == self.processes@[place as int]@);
        let detail = &mut self.processes[place];
        detail.shared = detail.shared.add_bytes(way, bytes);
        join_others(&mut detail.shared_with, candidates, process);
        detail.note_flow(way, bytes, at, flow);
        proof {
            let line = self.processes@[place as int]@;
            assert(line.1 =~= detail_or_none(before, key, at).with_shared(
                key,
                candidates@,
                way,
                bytes,
                at,
                flow,
            ));
            assert(self@ =~= with_line.update(place as int, line));
            assert(self@ =~= replaced(before, key, line.1));
        }
    }

    /// Adds one line of the ledger.
    pub fn add_entry(&mut self, entry: &StatsEntry)
        ensures
            final(self)@ == detailed(old(self)@, *entry),
    {
        match entry {
            StatsEntry::Exclusive { process, direction, bytes, observed_at, evidence, flow } => {
                self.charge_exclusive(process, *direction, *bytes, *observed_at, *evidence, *flow);
            },
            StatsEntry::Shared { candidates, direction, bytes, observed_at, flow } => {
                let ghost before = self@;
                let mut i: usize = 0;
                while i < candidates.len()
                    invariant
                        i <= candidates@.len(),
                        self@ == shared_by_each(
                            before,
                            candidates@,
                            i as nat,
                            *direction,
                            *bytes,
                            *observed_at,
                            *flow,
                        ),
                    decreases candidates@.len() - i,
                {
                    self.charge_shared(
                        &candidates[i],
                        candidates,
                        *direction,
                        *bytes,
                        *observed_at,
                        *flow,
                    );
                    i += 1;
                }
            },
            _ => {},
        }
    }

    /// Adds lines of the ledger, in their order.
    pub fn add_entries(&mut self, entries: &Vec<StatsEntry>)
        ensures
            final(self)@ == details_of(old(self)@, entries@),
    {
        let ghost start = self@;
        let mut i: usize = 0;
        assert(entries@.take(0).len() == 0);
        while i < entries.len()
            invariant
                i <= entries@.len(),
                self@ == details_of(start, entries@.take(i as int)),
            decreases entries@.len() - i,
        {
            self.add_entry(&entries[i]);
            assert(entries@.take(i + 1).drop_last() =~= entries@.take(i as int));
            i += 1;
        }
        assert(entries@.take(i as int) =~= entries@);
    }
}

/// The counts of a key in a list, if it has a line.
pub open spec fn tally_of<V>(rows: Seq<(V, Tally)>, key: V) -> Option<Tally> {
    match row_of(rows, key) {
        Some(place) => Some(rows[place].1),
        None => None,
    }
}

/// Lists with the same keys have the lines of a key at the same place.
proof fn lemma_same_keys<V, T, U>(left: Seq<(V, T)>, right: Seq<(V, U)>, key: V)
    requires
        left.len() == right.len(),
        forall|i: int| 0 <= i < left.len() ==> (#[trigger] left[i]).0 == right[i].0,
    ensures
        row_of(left, key) == row_of(right, key),
    decreases left.len(),
{
    if left.len() > 0 {
        lemma_same_keys(left.drop_last(), right.drop_last(), key);
        assert(left[left.len() - 1].0 == right[right.len() - 1].0);
    }
}

/// More bytes for a key show on its line and on no other.
proof fn lemma_charged_line<V>(
    rows: Seq<(V, Tally)>,
    charged_key: V,
    way: Direction,
    bytes: u64,
    at: i128,
    key: V,
)
    ensures
        tally_of(charged(rows, charged_key, way, bytes, at), key) == if key == charged_key {
            Some(
                match tally_of(rows, key) {
                    Some(tally) => tally,
                    None => Tally::none(at),
                }.plus(way, bytes, at),
            )
        } else {
            tally_of(rows, key)
        },
{
    let after = charged(rows, charged_key, way, bytes, at);
    lemma_row_of(rows, charged_key);
    lemma_row_of(rows, key);
    match row_of(rows, charged_key) {
        Some(_) => {
            lemma_same_keys(rows, after, key);
        },
        None => {
            assert(after.drop_last() =~= rows);
        },
    }
}

/// A line that is replaced shows under its process and under no other.
proof fn lemma_replaced_line(
    details: Seq<(IdentityView, DetailView)>,
    replaced_key: IdentityView,
    detail: DetailView,
    key: IdentityView,
)
    ensures
        detail_of(replaced(details, replaced_key, detail), key) == if key == replaced_key {
            Some(detail)
        } else {
            detail_of(details, key)
        },
{
    let after = replaced(details, replaced_key, detail);
    lemma_row_of(details, replaced_key);
    lemma_row_of(details, key);
    match row_of(details, replaced_key) {
        Some(_) => {
            lemma_same_keys(details, after, key);
        },
        None => {
            assert(after.drop_last() =~= details);
        },
    }
}

/// Whether a list of traffic by process and the details say the same of a process.
pub open spec fn agree(
    rows: Seq<(IdentityView, Tally)>,
    details: Seq<(IdentityView, DetailView)>,
    key: IdentityView,
) -> bool {
    match (tally_of(rows, key), detail_of(details, key)) {
        (Some(tally), Some(detail)) => tally == detail.sum(),
        (None, None) => true,
        _ => false,
    }
}

proof fn lemma_shared_agrees(
    rows: Seq<(IdentityView, Tally)>,
    details: Seq<(IdentityView, DetailView)>,
    candidates: Seq<ObservedProcess>,
    count: nat,
    way: Direction,
    bytes: u64,
    at: i128,
    flow: ProcFlowKey,
    key: IdentityView,
)
    requires
        count <= candidates.len(),
        agree(rows, details, key),
    ensures
        agree(
            charged_each(rows, candidates.take(count as int), way, bytes, at),
            shared_by_each(details, candidates, count, way, bytes, at, flow),
            key,
        ),
    decreases count,
{
    if count > 0 {
        let fewer = (count - 1) as nat;
        lemma_shared_agrees(rows, details, candidates, fewer, way, bytes, at, flow, key);
        let taken = candidates.take(count as int);
        assert(taken.drop_last() =~= candidates.take(fewer as int));
        let charged_key = process_view(candidates[count - 1]);
        let rows_before = charged_each(rows, candidates.take(fewer as int), way, bytes, at);
        let before = shared_by_each(details, candidates, fewer, way, bytes, at, flow);
        lemma_charged_line(rows_before, charged_key, way, bytes, at, key);
        lemma_replaced_line(
            before,
            charged_key,
            detail_or_none(before, charged_key, at).with_shared(
                charged_key,
                candidates,
                way,
                bytes,
                at,
                flow,
            ),
            key,
        );
    }
}

/// The details of the processes and the list of traffic by process agree: they name the
/// same processes, and what a process was charged alone and together with others adds up
/// to what the list says of it.
pub proof fn lemma_details_agree_with_the_list(
    start: TotalsView,
    details: Seq<(IdentityView, DetailView)>,
    entries: Seq<StatsEntry>,
    key: IdentityView,
)
    requires
        key is Process,
        agree(start.processes, details, key),
    ensures
        agree(added_up(start, entries).processes, details_of(details, entries), key),
    decreases entries.len(),
{
    if entries.len() > 0 {
        let earlier = entries.drop_last();
        lemma_details_agree_with_the_list(start, details, earlier, key);
        let rows = added_up(start, earlier).processes;
        let before = details_of(details, earlier);
        match entries.last() {
            StatsEntry::Exclusive { process, direction, bytes, observed_at, evidence, flow } => {
                let charged_key = process_view(process);
                lemma_charged_line(rows, charged_key, direction, bytes, observed_at, key);
                lemma_replaced_line(
                    before,
                    charged_key,
                    detail_or_none(before, charged_key, observed_at).with_exclusive(
                        direction,
                        bytes,
                        observed_at,
                        evidence,
                        flow,
                    ),
                    key,
                );
            },
            StatsEntry::Shared { candidates, direction, bytes, observed_at, flow } => {
                assert(candidates@.take(candidates@.len() as int) =~= candidates@);
                lemma_shared_agrees(
                    rows,
                    before,
                    candidates@,
                    candidates@.len(),
                    direction,
                    bytes,
                    observed_at,
                    flow,
                    key,
                );
            },
            StatsEntry::Unattributed { direction, bytes, observed_at } => {
                lemma_charged_line(
                    rows,
                    IdentityView::Unattributed,
                    direction,
                    bytes,
                    observed_at,
                    key,
                );
            },
            _ => {},
        }
    }
}

/// The bytes of a list in one direction.
pub open spec fn row_bytes<V>(rows: Seq<(V, Tally)>, way: Direction) -> nat
    decreases rows.len(),
{
    if rows.len() == 0 {
        0
    } else {
        row_bytes(rows.drop_last(), way) + rows.last().1.bytes(way) as nat
    }
}

proof fn lemma_row_changed<V>(rows: Seq<(V, Tally)>, place: int, row: (V, Tally), way: Direction)
    requires
        0 <= place < rows.len(),
    ensures
        row_bytes(rows.update(place, row), way) + rows[place].1.bytes(way) == row_bytes(rows, way)
            + row.1.bytes(way),
        rows[place].1.bytes(way) <= row_bytes(rows, way),
    decreases rows.len(),
{
    let changed = rows.update(place, row);
    if place == rows.len() - 1 {
        assert(changed.drop_last() =~= rows.drop_last());
    } else {
        lemma_row_changed(rows.drop_last(), place, row, way);
        assert(changed.drop_last() =~= rows.drop_last().update(place, row));
    }
}

/// Bytes of one direction, as they count in a direction.
pub open spec fn counted(direction: Direction, bytes: u64, way: Direction) -> nat {
    if direction == way {
        bytes as nat
    } else {
        0
    }
}

proof fn lemma_charged_bytes_of_rows<V>(
    rows: Seq<(V, Tally)>,
    key: V,
    direction: Direction,
    bytes: u64,
    at: i128,
    way: Direction,
)
    requires
        row_bytes(rows, way) + counted(direction, bytes, way) <= u64::MAX,
    ensures
        row_bytes(charged(rows, key, direction, bytes, at), way) == row_bytes(rows, way) + counted(
            direction,
            bytes,
            way,
        ),
{
    lemma_row_of(rows, key);
    match row_of(rows, key) {
        Some(place) => {
            lemma_row_changed(
                rows,
                place,
                (key, rows[place].1.plus(direction, bytes, at)),
                way,
            );
        },
        None => {
            let after = charged(rows, key, direction, bytes, at);
            assert(after.drop_last() =~= rows);
        },
    }
}

/// The bytes of a shared charge that are listed for a process, over the first `count`
/// candidates.
pub open spec fn shared_to(
    candidates: Seq<ObservedProcess>,
    count: nat,
    bytes: nat,
    key: IdentityView,
) -> nat
    decreases count,
{
    if count == 0 {
        0
    } else {
        shared_to(candidates, (count - 1) as nat, bytes, key) + if process_view(
            candidates[count - 1],
        ) == key {
            bytes
        } else {
            0
        }
    }
}

/// The bytes that a line of the ledger lists for a process in a direction.
pub open spec fn charged_to(entry: StatsEntry, key: IdentityView, way: Direction) -> nat {
    match entry {
        StatsEntry::Exclusive { process, direction, bytes, .. } => if process_view(process) == key {
            counted(direction, bytes, way)
        } else {
            0
        },
        StatsEntry::Shared { candidates, direction, bytes, .. } => shared_to(
            candidates@,
            candidates@.len(),
            counted(direction, bytes, way),
            key,
        ),
        _ => 0,
    }
}

/// The bytes that a ledger lists for a process in a direction.
pub open spec fn process_bytes(entries: Seq<StatsEntry>, key: IdentityView, way: Direction) -> nat
    decreases entries.len(),
{
    if entries.len() == 0 {
        0
    } else {
        process_bytes(entries.drop_last(), key, way) + charged_to(entries.last(), key, way)
    }
}

/// Whether the channels and the connections of a process have these bytes.
pub open spec fn holds_bytes(
    details: Seq<(IdentityView, DetailView)>,
    key: IdentityView,
    way: Direction,
    bytes: nat,
) -> bool {
    match detail_of(details, key) {
        Some(detail) => {
            &&& detail.exclusive.bytes(way) + detail.shared.bytes(way) == bytes
            &&& row_bytes(detail.flows, way) == bytes
        },
        None => bytes == 0,
    }
}

proof fn lemma_shared_bytes(
    details: Seq<(IdentityView, DetailView)>,
    candidates: Seq<ObservedProcess>,
    count: nat,
    direction: Direction,
    bytes: u64,
    at: i128,
    flow: ProcFlowKey,
    key: IdentityView,
    way: Direction,
    before: nat,
)
    requires
        count <= candidates.len(),
        holds_bytes(details, key, way, before),
        before + shared_to(candidates, count, counted(direction, bytes, way), key) <= u64::MAX,
    ensures
        holds_bytes(
            shared_by_each(details, candidates, count, direction, bytes, at, flow),
            key,
            way,
            before + shared_to(candidates, count, counted(direction, bytes, way), key),
        ),
    decreases count,
{
    if count > 0 {
        let fewer = (count - 1) as nat;
        lemma_shared_bytes(
            details,
            candidates,
            fewer,
            direction,
            bytes,
            at,
            flow,
            key,
            way,
            before,
        );
        let list = shared_by_each(details, candidates, fewer, direction, bytes, at, flow);
        let charged_key = process_view(candidates[count - 1]);
        let detail = detail_or_none(list, charged_key, at);
        lemma_replaced_line(
            list,
            charged_key,
            detail.with_shared(charged_key, candidates, direction, bytes, at, flow),
            key,
        );
        if charged_key == key {
            lemma_charged_bytes_of_rows(detail.flows, flow, direction, bytes, at, way);
        }
    }
}

/// Every byte that a ledger lists for a process is in one of its two channels, and on one
/// of its connections, as long as they fit 64 bits.
pub proof fn lemma_bytes_of_a_process(entries: Seq<StatsEntry>, key: IdentityView, way: Direction)
    requires
        process_bytes(entries, key, way) <= u64::MAX,
    ensures
        holds_bytes(
            details_of(Seq::empty(), entries),
            key,
            way,
            process_bytes(entries, key, way),
        ),
    decreases entries.len(),
{
    if entries.len() > 0 {
        let earlier = entries.drop_last();
        lemma_bytes_of_a_process(earlier, key, way);
        let list = details_of(Seq::empty(), earlier);
        match entries.last() {
            StatsEntry::Exclusive { process, direction, bytes, observed_at, evidence, flow } => {
                let charged_key = process_view(process);
                let detail = detail_or_none(list, charged_key, observed_at);
                lemma_replaced_line(
                    list,
                    charged_key,
                    detail.with_exclusive(direction, bytes, observed_at, evidence, flow),
                    key,
                );
                if charged_key == key {
                    lemma_charged_bytes_of_rows(
                        detail.flows,
                        flow,
                        direction,
                        bytes,
                        observed_at,
                        way,
                    );
                }
            },
            StatsEntry::Shared { candidates, direction, bytes, observed_at, flow } => {
                lemma_shared_bytes(
                    list,
                    candidates@,
                    candidates@.len(),
                    direction,
                    bytes,
                    observed_at,
                    flow,
                    key,
                    way,
                    process_bytes(earlier, key, way),
                );
            },
            _ => {},
        }
    }
}

} // verus!
