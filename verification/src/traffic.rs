//! What the ledger adds up to: traffic by process, host name and address.

use vstd::prelude::*;

use crate::diagnostics::StatsDiagnostics;
use crate::net::{Direction, IpAddr};
use crate::stats::{charged_bytes, Booking, ObservedProcess, StatsEntry};
use crate::text::{same_optional_text, text_view};

verus! {

/// Traffic in both directions, and when it was last seen.
#[derive(Clone, Copy, Debug, PartialEq, Eq, Structural)]
pub struct Tally {
    pub inbound: u64,
    pub outbound: u64,
    pub last_seen: i128,
}

/// One line of a list: what the traffic belongs to, and how much it is.
#[derive(Debug, PartialEq, Eq)]
pub struct Row<K> {
    pub key: K,
    pub tally: Tally,
}

/// What traffic is charged to.
#[derive(Debug, PartialEq, Eq)]
pub enum ProcessIdentity {
    Process(ObservedProcess),
    /// An unknown owner.
    Unattributed,
}

/// What traffic is charged to, as a mathematical value.
pub ghost enum IdentityView {
    Process { pid: u32, name: Option<Seq<char>>, path: Option<Seq<char>> },
    Unattributed,
}

/// A process as a mathematical value.
pub open spec fn process_view(process: ObservedProcess) -> IdentityView {
    IdentityView::Process {
        pid: process.pid,
        name: text_view(process.name),
        path: text_view(process.path),
    }
}

impl View for ProcessIdentity {
    type V = IdentityView;

    open spec fn view(&self) -> IdentityView {
        match *self {
            ProcessIdentity::Process(process) => process_view(process),
            ProcessIdentity::Unattributed => IdentityView::Unattributed,
        }
    }
}

impl Clone for ProcessIdentity {
    fn clone(&self) -> (copy: Self)
        ensures
            copy == *self,
    {
        match self {
            ProcessIdentity::Process(process) => ProcessIdentity::Process(process.clone()),
            ProcessIdentity::Unattributed => ProcessIdentity::Unattributed,
        }
    }
}

/// Whether two processes are the same.
pub fn same_process(left: &ObservedProcess, right: &ObservedProcess) -> (same: bool)
    ensures
        same == (process_view(*left) == process_view(*right)),
{
    left.pid == right.pid && same_optional_text(&left.name, &right.name) && same_optional_text(
        &left.path,
        &right.path,
    )
}

impl ProcessIdentity {
    /// Whether two identities are the same.
    pub fn same(&self, other: &Self) -> (same: bool)
        ensures
            same == (self@ == other@),
    {
        match (self, other) {
            (ProcessIdentity::Process(left), ProcessIdentity::Process(right)) => same_process(
                left,
                right,
            ),
            (ProcessIdentity::Unattributed, ProcessIdentity::Unattributed) => true,
            _ => false,
        }
    }
}

/// Two numbers added up, as far as 64 bits reach.
pub open spec fn capped(left: u64, right: u64) -> u64 {
    if left + right > u64::MAX {
        u64::MAX
    } else {
        (left + right) as u64
    }
}

impl Tally {
    /// No traffic yet, last seen at some instant.
    pub open spec fn none(at: i128) -> Tally {
        Tally { inbound: 0, outbound: 0, last_seen: at }
    }

    /// With more bytes, seen at some instant.
    pub open spec fn plus(self, way: Direction, bytes: u64, at: i128) -> Tally {
        Tally {
            inbound: if way == Direction::Inbound {
                capped(self.inbound, bytes)
            } else {
                self.inbound
            },
            outbound: if way == Direction::Outbound {
                capped(self.outbound, bytes)
            } else {
                self.outbound
            },
            last_seen: if at > self.last_seen {
                at
            } else {
                self.last_seen
            },
        }
    }

    /// The bytes of one direction.
    pub open spec fn bytes(self, way: Direction) -> u64 {
        match way {
            Direction::Inbound => self.inbound,
            Direction::Outbound => self.outbound,
        }
    }

    /// The bytes of both directions.
    pub open spec fn both(self) -> u64 {
        capped(self.inbound, self.outbound)
    }

    /// The bytes of both directions.
    pub fn total(&self) -> (total: u64)
        ensures
            total == self.both(),
    {
        self.inbound.saturating_add(self.outbound)
    }

    /// With more bytes, seen at some instant.
    pub fn add_bytes(self, way: Direction, bytes: u64, at: i128) -> (tally: Tally)
        ensures
            tally == self.plus(way, bytes, at),
    {
        let last_seen: i128 = if at > self.last_seen {
            at
        } else {
            self.last_seen
        };
        match way {
            Direction::Inbound => Tally {
                inbound: self.inbound.saturating_add(bytes),
                outbound: self.outbound,
                last_seen,
            },
            Direction::Outbound => Tally {
                inbound: self.inbound,
                outbound: self.outbound.saturating_add(bytes),
                last_seen,
            },
        }
    }
}

/// Bytes in both directions.
#[derive(Clone, Copy, Debug, PartialEq, Eq, Structural)]
pub struct Channel {
    pub inbound: u64,
    pub outbound: u64,
}

impl Channel {
    /// No bytes.
    pub open spec fn none() -> Channel {
        Channel { inbound: 0, outbound: 0 }
    }

    /// With more bytes.
    pub open spec fn plus(self, way: Direction, bytes: u64) -> Channel {
        match way {
            Direction::Inbound => Channel { inbound: capped(self.inbound, bytes), ..self },
            Direction::Outbound => Channel { outbound: capped(self.outbound, bytes), ..self },
        }
    }

    /// The bytes of one direction.
    pub open spec fn bytes(self, way: Direction) -> u64 {
        match way {
            Direction::Inbound => self.inbound,
            Direction::Outbound => self.outbound,
        }
    }

    /// With more bytes.
    pub fn add_bytes(self, way: Direction, bytes: u64) -> (channel: Channel)
        ensures
            channel == self.plus(way, bytes),
    {
        match way {
            Direction::Inbound => Channel {
                inbound: self.inbound.saturating_add(bytes),
                outbound: self.outbound,
            },
            Direction::Outbound => Channel {
                inbound: self.inbound,
                outbound: self.outbound.saturating_add(bytes),
            },
        }
    }
}

/// What all traffic was charged to; every byte is in one channel.
#[derive(Clone, Copy, Debug, PartialEq, Eq, Structural)]
pub struct AttributionSummary {
    /// One process alone.
    pub exclusive: Channel,
    /// Several processes together, counted once.
    pub shared: Channel,
    /// No socket.
    pub system: Channel,
    /// An unknown owner.
    pub unattributed: Channel,
}

impl AttributionSummary {
    /// No bytes.
    pub open spec fn none() -> AttributionSummary {
        AttributionSummary {
            exclusive: Channel::none(),
            shared: Channel::none(),
            system: Channel::none(),
            unattributed: Channel::none(),
        }
    }

    /// The bytes of all channels in one direction.
    pub open spec fn bytes(self, way: Direction) -> nat {
        (self.exclusive.bytes(way) + self.shared.bytes(way) + self.system.bytes(way)
            + self.unattributed.bytes(way)) as nat
    }

    /// With one more line of the ledger.
    pub open spec fn with_entry(self, entry: StatsEntry) -> Self {
        match entry {
            StatsEntry::Exclusive { direction, bytes, .. } => AttributionSummary {
                exclusive: self.exclusive.plus(direction, bytes),
                ..self
            },
            StatsEntry::Shared { direction, bytes, .. } => AttributionSummary {
                shared: self.shared.plus(direction, bytes),
                ..self
            },
            StatsEntry::System { direction, bytes, .. } => AttributionSummary {
                system: self.system.plus(direction, bytes),
                ..self
            },
            StatsEntry::Unattributed { direction, bytes, .. } => AttributionSummary {
                unattributed: self.unattributed.plus(direction, bytes),
                ..self
            },
            _ => self,
        }
    }

    fn add_entry(&mut self, entry: &StatsEntry)
        ensures
            *final(self) == old(self).with_entry(*entry),
    {
        match entry {
            StatsEntry::Exclusive { direction, bytes, .. } => {
                self.exclusive = self.exclusive.add_bytes(*direction, *bytes);
            },
            StatsEntry::Shared { direction, bytes, .. } => {
                self.shared = self.shared.add_bytes(*direction, *bytes);
            },
            StatsEntry::System { direction, bytes, .. } => {
                self.system = self.system.add_bytes(*direction, *bytes);
            },
            StatsEntry::Unattributed { direction, bytes, .. } => {
                self.unattributed = self.unattributed.add_bytes(*direction, *bytes);
            },
            _ => {},
        }
    }
}

/// The first line of a key.
pub open spec fn row_of<V, T>(rows: Seq<(V, T)>, key: V) -> Option<int>
    decreases rows.len(),
{
    if rows.len() == 0 {
        None
    } else {
        match row_of(rows.drop_last(), key) {
            Some(place) => Some(place),
            None => if rows.last().0 == key {
                Some(rows.len() - 1)
            } else {
                None
            },
        }
    }
}

/// A list of processes with more bytes for each candidate.
pub open spec fn charged_each(
    rows: Seq<(IdentityView, Tally)>,
    candidates: Seq<ObservedProcess>,
    way: Direction,
    bytes: u64,
    at: i128,
) -> Seq<(IdentityView, Tally)>
    decreases candidates.len(),
{
    if candidates.len() == 0 {
        rows
    } else {
        charged(
            charged_each(rows, candidates.drop_last(), way, bytes, at),
            process_view(candidates.last()),
            way,
            bytes,
            at,
        )
    }
}

/// A list with more bytes for a key, on its line or on a new one at the end.
pub open spec fn charged<V>(
    rows: Seq<(V, Tally)>,
    key: V,
    way: Direction,
    bytes: u64,
    at: i128,
) -> Seq<(V, Tally)> {
    match row_of(rows, key) {
        Some(place) => rows.update(place, (key, rows[place].1.plus(way, bytes, at))),
        None => rows.push((key, Tally::none(at).plus(way, bytes, at))),
    }
}

/// The line of a key is the first that has it.
pub proof fn lemma_row_of<V, T>(rows: Seq<(V, T)>, key: V)
    ensures
        match row_of(rows, key) {
            Some(place) => {
                &&& 0 <= place < rows.len()
                &&& rows[place].0 == key
                &&& forall|i: int| 0 <= i < place ==> (#[trigger] rows[i]).0 != key
            },
            None => forall|i: int| 0 <= i < rows.len() ==> (#[trigger] rows[i]).0 != key,
        },
    decreases rows.len(),
{
    if rows.len() > 0 {
        let shorter = rows.drop_last();
        lemma_row_of(shorter, key);
        assert forall|i: int| 0 <= i < shorter.len() implies #[trigger] rows[i] == shorter[i] by {}
        if row_of(shorter, key) is None {
            assert forall|i: int| 0 <= i < rows.len() && (#[trigger] rows[i]).0 == key implies i
                == rows.len() - 1 by {
                if i < shorter.len() {
                    assert(shorter[i].0 != key);
                }
            }
        }
    }
}

/// The lines of processes, as mathematical values.
pub open spec fn process_rows(rows: Seq<Row<ProcessIdentity>>) -> Seq<(IdentityView, Tally)> {
    rows.map_values(|row: Row<ProcessIdentity>| (row.key@, row.tally))
}

/// The lines of host names, as mathematical values.
pub open spec fn host_rows(rows: Seq<Row<String>>) -> Seq<(Seq<char>, Tally)> {
    rows.map_values(|row: Row<String>| (row.key@, row.tally))
}

/// The lines of a list whose keys stand for themselves, as mathematical values.
pub open spec fn key_rows<K>(rows: Seq<Row<K>>) -> Seq<(K, Tally)> {
    rows.map_values(|row: Row<K>| (row.key, row.tally))
}

fn charge_process(
    rows: &mut Vec<Row<ProcessIdentity>>,
    key: ProcessIdentity,
    way: Direction,
    bytes: u64,
    at: i128,
)
    ensures
        process_rows(final(rows)@) == charged(process_rows(old(rows)@), key@, way, bytes, at),
{
    let ghost views = process_rows(rows@);
    proof {
        lemma_row_of(views, key@);
    }
    let mut i: usize = 0;
    while i < rows.len()
        invariant
            i <= rows@.len(),
            views == process_rows(rows@),
            views == process_rows(old(rows)@),
            forall|k: int| 0 <= k < i ==> (#[trigger] views[k]).0 != key@,
        decreases rows@.len() - i,
    {
        assert(views[i as int] == (rows@[i as int].key@, rows@[i as int].tally));
        if rows[i].key.same(&key) {
            proof {
                lemma_row_of(views, key@);
            }
            let tally = rows[i].tally.add_bytes(way, bytes, at);
            rows[i].tally = tally;
            assert(process_rows(rows@) =~= charged(views, key@, way, bytes, at));
            return;
        }
        i += 1;
    }
    let tally = Tally { inbound: 0, outbound: 0, last_seen: at }.add_bytes(way, bytes, at);
    let ghost id = key@;
    rows.push(Row { key, tally });
    assert(process_rows(rows@) =~= charged(views, id, way, bytes, at));
}

fn charge_candidates(
    rows: &mut Vec<Row<ProcessIdentity>>,
    candidates: &Vec<ObservedProcess>,
    way: Direction,
    bytes: u64,
    at: i128,
)
    ensures
        process_rows(final(rows)@) == charged_each(
            process_rows(old(rows)@),
            candidates@,
            way,
            bytes,
            at,
        ),
{
    let ghost views = process_rows(rows@);
    let mut i: usize = 0;
    assert(candidates@.take(0).len() == 0);
    while i < candidates.len()
        invariant
            i <= candidates@.len(),
            process_rows(rows@) == charged_each(views, candidates@.take(i as int), way, bytes, at),
        decreases candidates@.len() - i,
    {
        charge_process(rows, ProcessIdentity::Process(candidates[i].clone()), way, bytes, at);
        assert(candidates@.take(i + 1).drop_last() =~= candidates@.take(i as int));
        i += 1;
    }
    assert(candidates@.take(i as int) =~= candidates@);
}

fn charge_host(rows: &mut Vec<Row<String>>, key: &String, way: Direction, bytes: u64, at: i128)
    ensures
        host_rows(final(rows)@) == charged(host_rows(old(rows)@), key@, way, bytes, at),
{
    let ghost views = host_rows(rows@);
    proof {
        lemma_row_of(views, key@);
    }
    let mut i: usize = 0;
    while i < rows.len()
        invariant
            i <= rows@.len(),
            views == host_rows(rows@),
            views == host_rows(old(rows)@),
            forall|k: int| 0 <= k < i ==> (#[trigger] views[k]).0 != key@,
        decreases rows@.len() - i,
    {
        assert(views[i as int] == (rows@[i as int].key@, rows@[i as int].tally));
        if rows[i].key == *key {
            proof {
                lemma_row_of(views, key@);
            }
            let tally = rows[i].tally.add_bytes(way, bytes, at);
            rows[i].tally = tally;
            assert(host_rows(rows@) =~= charged(views, key@, way, bytes, at));
            return;
        }
        i += 1;
    }
    let tally = Tally { inbound: 0, outbound: 0, last_seen: at }.add_bytes(way, bytes, at);
    rows.push(Row { key: key.clone(), tally });
    assert(host_rows(rows@) =~= charged(views, key@, way, bytes, at));
}

fn charge_ip(rows: &mut Vec<Row<IpAddr>>, key: IpAddr, way: Direction, bytes: u64, at: i128)
    ensures
        key_rows(final(rows)@) == charged(key_rows(old(rows)@), key, way, bytes, at),
{
    let ghost views = key_rows(rows@);
    proof {
        lemma_row_of(views, key);
    }
    let mut i: usize = 0;
    while i < rows.len()
        invariant
            i <= rows@.len(),
            views == key_rows(rows@),
            views == key_rows(old(rows)@),
            forall|k: int| 0 <= k < i ==> (#[trigger] views[k]).0 != key,
        decreases rows@.len() - i,
    {
        assert(views[i as int] == (rows@[i as int].key, rows@[i as int].tally));
        if rows[i].key == key {
            proof {
                lemma_row_of(views, key);
            }
            let tally = rows[i].tally.add_bytes(way, bytes, at);
            rows[i].tally = tally;
            assert(key_rows(rows@) =~= charged(views, key, way, bytes, at));
            return;
        }
        i += 1;
    }
    let tally = Tally { inbound: 0, outbound: 0, last_seen: at }.add_bytes(way, bytes, at);
    rows.push(Row { key, tally });
    assert(key_rows(rows@) =~= charged(views, key, way, bytes, at));
}

/// What the lines of the ledger add up to.
#[derive(Debug)]
pub struct TrafficTotals {
    pub in_bytes: u64,
    pub out_bytes: u64,
    pub processes: Vec<Row<ProcessIdentity>>,
    pub hosts: Vec<Row<String>>,
    pub inbound_ips: Vec<Row<IpAddr>>,
    pub outbound_ips: Vec<Row<IpAddr>>,
    pub attribution: AttributionSummary,
}

/// What the lines of the ledger add up to, as a mathematical value.
#[verifier::ext_equal]
pub ghost struct TotalsView {
    pub in_bytes: u64,
    pub out_bytes: u64,
    pub processes: Seq<(IdentityView, Tally)>,
    pub hosts: Seq<(Seq<char>, Tally)>,
    pub inbound_ips: Seq<(IpAddr, Tally)>,
    pub outbound_ips: Seq<(IpAddr, Tally)>,
    pub attribution: AttributionSummary,
}

impl View for TrafficTotals {
    type V = TotalsView;

    open spec fn view(&self) -> TotalsView {
        TotalsView {
            in_bytes: self.in_bytes,
            out_bytes: self.out_bytes,
            processes: process_rows(self.processes@),
            hosts: host_rows(self.hosts@),
            inbound_ips: key_rows(self.inbound_ips@),
            outbound_ips: key_rows(self.outbound_ips@),
            attribution: self.attribution,
        }
    }
}

impl TotalsView {
    /// The bytes that crossed the interface in a direction.
    pub open spec fn crossed(self, way: Direction) -> u64 {
        match way {
            Direction::Inbound => self.in_bytes,
            Direction::Outbound => self.out_bytes,
        }
    }

    /// With bytes charged to an identity.
    pub open spec fn with_process(
        self,
        key: IdentityView,
        way: Direction,
        bytes: u64,
        at: i128,
    ) -> Self {
        TotalsView { processes: charged(self.processes, key, way, bytes, at), ..self }
    }

    /// With bytes that crossed the interface; those between two local sockets crossed it
    /// both ways.
    pub open spec fn with_interface(
        self,
        way: Direction,
        peer: IpAddr,
        bytes: u64,
        both_local: bool,
        at: i128,
    ) -> Self {
        TotalsView {
            in_bytes: if way == Direction::Inbound || both_local {
                capped(self.in_bytes, bytes)
            } else {
                self.in_bytes
            },
            out_bytes: if way == Direction::Outbound || both_local {
                capped(self.out_bytes, bytes)
            } else {
                self.out_bytes
            },
            inbound_ips: if way == Direction::Inbound {
                charged(self.inbound_ips, peer, way, bytes, at)
            } else {
                self.inbound_ips
            },
            outbound_ips: if way == Direction::Outbound {
                charged(self.outbound_ips, peer, way, bytes, at)
            } else {
                self.outbound_ips
            },
            ..self
        }
    }

    /// With the lists that one more line of the ledger makes. What several processes share
    /// is listed for each of them, and what belongs to no socket for none.
    pub open spec fn with_listed(self, entry: StatsEntry) -> Self {
        match entry {
            StatsEntry::Interface { direction, peer, bytes, both_local, observed_at } => {
                self.with_interface(direction, peer, bytes, both_local, observed_at)
            },
            StatsEntry::Domain { domain: None, .. } => self,
            StatsEntry::Domain { domain: Some(domain), direction, bytes, observed_at } => {
                TotalsView {
                    hosts: charged(self.hosts, domain@, direction, bytes, observed_at),
                    ..self
                }
            },
            StatsEntry::Exclusive { process, direction, bytes, observed_at, .. } => {
                self.with_process(process_view(process), direction, bytes, observed_at)
            },
            StatsEntry::Shared { candidates, direction, bytes, observed_at, .. } => TotalsView {
                processes: charged_each(
                    self.processes,
                    candidates@,
                    direction,
                    bytes,
                    observed_at,
                ),
                ..self
            },
            StatsEntry::System { .. } => self,
            StatsEntry::Unattributed { direction, bytes, observed_at } => self.with_process(
                IdentityView::Unattributed,
                direction,
                bytes,
                observed_at,
            ),
        }
    }

    /// With one more line of the ledger.
    pub open spec fn with_entry(self, entry: StatsEntry) -> Self {
        TotalsView {
            attribution: self.attribution.with_entry(entry),
            ..self.with_listed(entry)
        }
    }
}

/// Lines in the order of the ledger, added up.
pub open spec fn added_up(start: TotalsView, entries: Seq<StatsEntry>) -> TotalsView
    decreases entries.len(),
{
    if entries.len() == 0 {
        start
    } else {
        added_up(start, entries.drop_last()).with_entry(entries.last())
    }
}

impl TrafficTotals {
    /// No traffic yet.
    pub fn new() -> (totals: Self)
        ensures
            totals@ == (TotalsView {
                in_bytes: 0,
                out_bytes: 0,
                processes: Seq::empty(),
                hosts: Seq::empty(),
                inbound_ips: Seq::empty(),
                outbound_ips: Seq::empty(),
                attribution: AttributionSummary::none(),
            }),
    {
        let totals = TrafficTotals {
            in_bytes: 0,
            out_bytes: 0,
            processes: Vec::new(),
            hosts: Vec::new(),
            inbound_ips: Vec::new(),
            outbound_ips: Vec::new(),
            attribution: AttributionSummary {
                exclusive: Channel { inbound: 0, outbound: 0 },
                shared: Channel { inbound: 0, outbound: 0 },
                system: Channel { inbound: 0, outbound: 0 },
                unattributed: Channel { inbound: 0, outbound: 0 },
            },
        };
        assert(totals@ =~= TotalsView {
            in_bytes: 0,
            out_bytes: 0,
            processes: Seq::empty(),
            hosts: Seq::empty(),
            inbound_ips: Seq::empty(),
            outbound_ips: Seq::empty(),
            attribution: AttributionSummary::none(),
        });
        totals
    }

    /// Adds one line of the ledger.
    pub fn add_entry(&mut self, entry: &StatsEntry)
        ensures
            final(self)@ == old(self)@.with_entry(*entry),
    {
        self.attribution.add_entry(entry);
        match entry {
            StatsEntry::Interface { direction, peer, bytes, both_local, observed_at } => {
                if *direction == Direction::Inbound || *both_local {
                    self.in_bytes = self.in_bytes.saturating_add(*bytes);
                }
                if *direction == Direction::Outbound || *both_local {
                    self.out_bytes = self.out_bytes.saturating_add(*bytes);
                }
                match *direction {
                    Direction::Inbound => charge_ip(
                        &mut self.inbound_ips,
                        *peer,
                        *direction,
                        *bytes,
                        *observed_at,
                    ),
                    Direction::Outbound => charge_ip(
                        &mut self.outbound_ips,
                        *peer,
                        *direction,
                        *bytes,
                        *observed_at,
                    ),
                }
            },
            StatsEntry::Domain { domain, direction, bytes, observed_at } => {
                if let Some(domain) = domain {
                    charge_host(&mut self.hosts, domain, *direction, *bytes, *observed_at);
                }
            },
            StatsEntry::Exclusive { process, direction, bytes, observed_at, .. } => {
                charge_process(
                    &mut self.processes,
                    ProcessIdentity::Process(process.clone()),
                    *direction,
                    *bytes,
                    *observed_at,
                );
            },
            StatsEntry::Shared { candidates, direction, bytes, observed_at, .. } => {
                charge_candidates(
                    &mut self.processes,
                    candidates,
                    *direction,
                    *bytes,
                    *observed_at,
                );
            },
            StatsEntry::System { .. } => {},
            StatsEntry::Unattributed { direction, bytes, observed_at } => {
                charge_process(
                    &mut self.processes,
                    ProcessIdentity::Unattributed,
                    *direction,
                    *bytes,
                    *observed_at,
                );
            },
        }
    }

    /// Adds lines of the ledger, in their order.
    pub fn add_entries(&mut self, entries: &Vec<StatsEntry>)
        ensures
            final(self)@ == added_up(old(self)@, entries@),
    {
        let ghost start = self@;
        let mut i: usize = 0;
        assert(entries@.take(0).len() == 0);
        while i < entries.len()
            invariant
                i <= entries@.len(),
                self@ == added_up(start, entries@.take(i as int)),
            decreases entries@.len() - i,
        {
            self.add_entry(&entries[i]);
            assert(entries@.take(i + 1).drop_last() =~= entries@.take(i as int));
            i += 1;
        }
        assert(entries@.take(i as int) =~= entries@);
    }
}

/// A ranked list with one more line, behind those with at least as many bytes.
pub open spec fn ranked_in<V>(rows: Seq<(V, Tally)>, row: (V, Tally)) -> Seq<(V, Tally)>
    decreases rows.len(),
{
    if rows.len() == 0 || rows.last().1.both() >= row.1.both() {
        rows.push(row)
    } else {
        ranked_in(rows.drop_last(), row).push(rows.last())
    }
}

/// Lines by their bytes, the most first; equal ones in their order.
pub open spec fn ranked<V>(rows: Seq<(V, Tally)>) -> Seq<(V, Tally)>
    decreases rows.len(),
{
    if rows.len() == 0 {
        Seq::empty()
    } else {
        ranked_in(ranked(rows.drop_last()), rows.last())
    }
}

/// The first lines by their bytes.
pub open spec fn top<V>(rows: Seq<(V, Tally)>, top_n: nat) -> Seq<(V, Tally)> {
    let ranked = ranked(rows);
    if top_n < ranked.len() {
        ranked.take(top_n as int)
    } else {
        ranked
    }
}

/// Whether no line has more bytes than one before it.
pub open spec fn descending<V>(rows: Seq<(V, Tally)>) -> bool {
    forall|i: int, j: int|
        0 <= i <= j < rows.len() ==> (#[trigger] rows[i]).1.both() >= (#[trigger] rows[j]).1.both()
}

proof fn lemma_ranked_in<V>(rows: Seq<(V, Tally)>, row: (V, Tally))
    requires
        descending(rows),
    ensures
        descending(ranked_in(rows, row)),
        ranked_in(rows, row).to_multiset() == rows.to_multiset().insert(row),
        ranked_in(rows, row).len() == rows.len() + 1,
        forall|i: int|
            0 <= i < ranked_in(rows, row).len() ==> (#[trigger] ranked_in(rows, row)[i]) == row
                || rows.contains(ranked_in(rows, row)[i]),
    decreases rows.len(),
{
    broadcast use vstd::seq_lib::group_to_multiset_ensures;

    let result = ranked_in(rows, row);
    if rows.len() == 0 || rows.last().1.both() >= row.1.both() {
        assert(result == rows.push(row));
        assert forall|i: int| 0 <= i < result.len() implies (#[trigger] result[i]) == row
            || rows.contains(result[i]) by {
            if i < rows.len() {
                assert(rows[i] == result[i]);
            }
        }
    } else {
        let shorter = rows.drop_last();
        lemma_ranked_in(shorter, row);
        let inner = ranked_in(shorter, row);
        assert(rows =~= shorter.push(rows.last()));
        assert(result.to_multiset() =~= rows.to_multiset().insert(row));
        assert forall|i: int| 0 <= i < result.len() implies (#[trigger] result[i]) == row
            || rows.contains(result[i]) by {
            if i < inner.len() {
                assert(inner[i] == result[i]);
                if inner[i] != row {
                    let k = choose|k: int| 0 <= k < shorter.len() && shorter[k] == inner[i];
                    assert(rows[k] == inner[i]);
                }
            } else {
                assert(rows[rows.len() - 1] == result[i]);
            }
        }
        assert forall|i: int, j: int| 0 <= i <= j < result.len() implies (
        #[trigger] result[i]).1.both() >= (#[trigger] result[j]).1.both() by {
            if i < inner.len() {
                assert(inner[i] == result[i]);
                if inner[i] != row {
                    let k = choose|k: int| 0 <= k < shorter.len() && shorter[k] == inner[i];
                    assert(rows[k] == inner[i]);
                }
            }
            if j < inner.len() {
                assert(inner[j] == result[j]);
            }
        }
    }
}

/// Ranking lines puts the most bytes first and neither adds nor drops a line.
pub proof fn lemma_ranking<V>(rows: Seq<(V, Tally)>)
    ensures
        descending(ranked(rows)),
        ranked(rows).to_multiset() == rows.to_multiset(),
        ranked(rows).len() == rows.len(),
    decreases rows.len(),
{
    broadcast use vstd::seq_lib::group_to_multiset_ensures;

    if rows.len() > 0 {
        let shorter = rows.drop_last();
        lemma_ranking(shorter);
        lemma_ranked_in(ranked(shorter), rows.last());
        assert(rows =~= shorter.push(rows.last()));
    }
}

/// Lines picked by their places.
pub open spec fn picked<V>(rows: Seq<(V, Tally)>, places: Seq<usize>) -> Seq<(V, Tally)> {
    places.map_values(|place: usize| rows[place as int])
}

fn rank_place(tallies: &Vec<Tally>, places: &mut Vec<usize>, place: usize)
    requires
        place < tallies@.len(),
        forall|i: int| 0 <= i < old(places)@.len() ==> #[trigger] old(places)@[i] < tallies@.len(),
    ensures
        forall|i: int|
            0 <= i < final(places)@.len() ==> #[trigger] final(places)@[i] < tallies@.len(),
        picked(tally_rows(tallies@), final(places)@) == ranked_in(
            picked(tally_rows(tallies@), old(places)@),
            tally_rows(tallies@)[place as int],
        ),
    decreases old(places)@.len(),
{
    let ghost before = places@;
    let ghost rows = tally_rows(tallies@);
    let count: usize = places.len();
    if count == 0 || tallies[places[count - 1]].total() >= tallies[place].total() {
        places.push(place);
        assert(picked(rows, places@) =~= picked(rows, before).push(rows[place as int]));
    } else {
        let last: usize = places[count - 1];
        let _ = places.pop();
        assert(picked(rows, places@) =~= picked(rows, before).drop_last());
        rank_place(tallies, places, place);
        let ghost inner = places@;
        places.push(last);
        assert(picked(rows, places@) =~= picked(rows, inner).push(rows[last as int]));
    }
}

/// Counts as lines that stand for themselves.
pub open spec fn tally_rows(tallies: Seq<Tally>) -> Seq<(int, Tally)> {
    Seq::new(tallies.len(), |i: int| (i, tallies[i]))
}

/// The places of counts by their bytes.
fn rank_places(tallies: &Vec<Tally>) -> (places: Vec<usize>)
    ensures
        picked(tally_rows(tallies@), places@) == ranked(tally_rows(tallies@)),
        forall|i: int| 0 <= i < places@.len() ==> #[trigger] places@[i] < tallies@.len(),
{
    let ghost rows = tally_rows(tallies@);
    let mut places: Vec<usize> = Vec::new();
    let mut i: usize = 0;
    assert(picked(rows, places@) =~= ranked(rows.take(0)));
    while i < tallies.len()
        invariant
            i <= tallies@.len(),
            rows == tally_rows(tallies@),
            forall|k: int| 0 <= k < places@.len() ==> #[trigger] places@[k] < tallies@.len(),
            picked(rows, places@) == ranked(rows.take(i as int)),
        decreases tallies@.len() - i,
    {
        rank_place(tallies, &mut places, i);
        assert(rows.take(i + 1).drop_last() =~= rows.take(i as int));
        i += 1;
    }
    assert(rows.take(i as int) =~= rows);
    places
}

/// Ranking looks at the counts alone.
proof fn lemma_ranking_by_counts<V>(rows: Seq<(V, Tally)>, tallies: Seq<Tally>)
    requires
        tallies.len() == rows.len(),
        forall|i: int| 0 <= i < rows.len() ==> (#[trigger] rows[i]).1 == tallies[i],
    ensures
        ranked(rows).len() == ranked(tally_rows(tallies)).len(),
        forall|i: int|
            0 <= i < ranked(rows).len() ==> {
                let place = (#[trigger] ranked(tally_rows(tallies))[i]).0;
                0 <= place < rows.len() && ranked(rows)[i] == rows[place]
            },
    decreases rows.len(),
{
    lemma_ranking(rows);
    lemma_ranking(tally_rows(tallies));
    if rows.len() > 0 {
        let shorter = rows.drop_last();
        let fewer = tallies.drop_last();
        lemma_ranking_by_counts(shorter, fewer);
        let counts = tally_rows(tallies);
        assert(counts.drop_last() =~= tally_rows(fewer));
        lemma_ranking(shorter);
        lemma_ranking(tally_rows(fewer));
        assert forall|i: int| 0 <= i < ranked(shorter).len() implies {
            let place = (#[trigger] ranked(counts.drop_last())[i]).0;
            0 <= place < rows.len() && ranked(shorter)[i] == rows[place] && ranked(
                counts.drop_last(),
            )[i] == counts[place]
        } by {
            lemma_ranked_from(tally_rows(fewer), i);
        }
        lemma_ranked_in_by_counts(
            ranked(shorter),
            ranked(counts.drop_last()),
            rows,
            counts,
            rows.len() - 1,
        );
    }
}

/// Every ranked count stands for a place of the list.
proof fn lemma_ranked_from(counts: Seq<(int, Tally)>, i: int)
    requires
        forall|k: int| 0 <= k < counts.len() ==> (#[trigger] counts[k]).0 == k,
        0 <= i < ranked(counts).len(),
    ensures
        0 <= ranked(counts)[i].0 < counts.len(),
        counts[ranked(counts)[i].0] == ranked(counts)[i],
{
    broadcast use vstd::seq_lib::group_to_multiset_ensures;

    lemma_ranking(counts);
    let row = ranked(counts)[i];
    assert(ranked(counts).contains(row));
    assert(counts.to_multiset().count(row) > 0);
    assert(counts.contains(row));
    let k = choose|k: int| 0 <= k < counts.len() && counts[k] == row;
    assert(counts[k].0 == k);
}

proof fn lemma_ranked_in_by_counts<V>(
    rows: Seq<(V, Tally)>,
    counts: Seq<(int, Tally)>,
    all_rows: Seq<(V, Tally)>,
    all_counts: Seq<(int, Tally)>,
    place: int,
)
    requires
        rows.len() == counts.len(),
        all_rows.len() == all_counts.len(),
        forall|k: int|
            0 <= k < all_rows.len() ==> (#[trigger] all_counts[k]).0 == k && all_counts[k].1
                == all_rows[k].1,
        forall|i: int|
            0 <= i < rows.len() ==> {
                let at = (#[trigger] counts[i]).0;
                0 <= at < all_rows.len() && rows[i] == all_rows[at] && counts[i] == all_counts[at]
            },
        0 <= place < all_rows.len(),
    ensures
        ranked_in(rows, all_rows[place]).len() == ranked_in(counts, all_counts[place]).len(),
        forall|i: int|
            0 <= i < ranked_in(rows, all_rows[place]).len() ==> {
                let at = (#[trigger] ranked_in(counts, all_counts[place])[i]).0;
                0 <= at < all_rows.len() && ranked_in(rows, all_rows[place])[i] == all_rows[at]
                    && ranked_in(counts, all_counts[place])[i] == all_counts[at]
            },
    decreases rows.len(),
{
    assert(all_counts[place].0 == place);
    if rows.len() > 0 {
        let last = rows.len() - 1;
        assert(counts[last].0 == counts[last].0);
        assert(rows.last().1 == counts.last().1);
        if rows.last().1.both() < all_rows[place].1.both() {
            let fewer_rows = rows.drop_last();
            let fewer = counts.drop_last();
            assert forall|i: int| 0 <= i < fewer_rows.len() implies {
                let at = (#[trigger] fewer[i]).0;
                0 <= at < all_rows.len() && fewer_rows[i] == all_rows[at] && fewer[i]
                    == all_counts[at]
            } by {
                assert(fewer[i] == counts[i]);
            }
            lemma_ranked_in_by_counts(fewer_rows, fewer, all_rows, all_counts, place);
            let inner_rows = ranked_in(fewer_rows, all_rows[place]);
            let inner = ranked_in(fewer, all_counts[place]);
            let result_rows = ranked_in(rows, all_rows[place]);
            let result = ranked_in(counts, all_counts[place]);
            assert forall|i: int| 0 <= i < result_rows.len() implies {
                let at = (#[trigger] result[i]).0;
                0 <= at < all_rows.len() && result_rows[i] == all_rows[at] && result[i]
                    == all_counts[at]
            } by {
                if i < inner.len() {
                    assert(result[i] == inner[i]);
                    assert(result_rows[i] == inner_rows[i]);
                } else {
                    assert(result[i] == counts.last());
                    assert(counts[last] == counts.last());
                }
            }
        } else {
            let result_rows = ranked_in(rows, all_rows[place]);
            let result = ranked_in(counts, all_counts[place]);
            assert forall|i: int| 0 <= i < result_rows.len() implies {
                let at = (#[trigger] result[i]).0;
                0 <= at < all_rows.len() && result_rows[i] == all_rows[at] && result[i]
                    == all_counts[at]
            } by {
                if i < counts.len() {
                    assert(result[i] == counts[i]);
                    assert(result_rows[i] == rows[i]);
                }
            }
        }
    }
}

/// The first process lines by their bytes.
fn top_processes(rows: &Vec<Row<ProcessIdentity>>, top_n: usize) -> (best: Vec<Row<ProcessIdentity>>)
    ensures
        process_rows(best@) == top(process_rows(rows@), top_n as nat),
{
    let ghost views = process_rows(rows@);
    let mut tallies: Vec<Tally> = Vec::new();
    let mut i: usize = 0;
    while i < rows.len()
        invariant
            i <= rows@.len(),
            tallies@.len() == i,
            forall|k: int| 0 <= k < i ==> #[trigger] tallies@[k] == rows@[k].tally,
        decreases rows@.len() - i,
    {
        tallies.push(rows[i].tally);
        i += 1;
    }
    let places = rank_places(&tallies);
    let ghost counts = ranked(tally_rows(tallies@));
    proof {
        assert(counts.len() == places@.len());
        lemma_ranking_by_counts(views, tallies@);
    }
    let mut best: Vec<Row<ProcessIdentity>> = Vec::new();
    let mut j: usize = 0;
    while j < places.len() && j < top_n
        invariant
            j <= places@.len(),
            j <= top_n,
            counts == picked(tally_rows(tallies@), places@),
            counts == ranked(tally_rows(tallies@)),
            tallies@.len() == rows@.len(),
            views == process_rows(rows@),
            ranked(views).len() == places@.len(),
            forall|k: int| 0 <= k < places@.len() ==> #[trigger] places@[k] < tallies@.len(),
            forall|k: int|
                0 <= k < ranked(views).len() ==> {
                    let place = (#[trigger] counts[k]).0;
                    0 <= place < views.len() && ranked(views)[k] == views[place]
                },
            process_rows(best@) == ranked(views).take(j as int),
        decreases places@.len() - j,
    {
        let place: usize = places[j];
        let ghost before = best@;
        assert(counts[j as int] == tally_rows(tallies@)[place as int]);
        best.push(Row { key: rows[place].key.clone(), tally: rows[place].tally });
        assert(process_rows(best@) =~= process_rows(before).push(views[place as int]));
        assert(ranked(views).take(j + 1) =~= ranked(views).take(j as int).push(
            ranked(views)[j as int],
        ));
        j += 1;
    }
    assert(ranked(views).take(ranked(views).len() as int) =~= ranked(views));
    best
}

/// The first host lines by their bytes.
fn top_hosts(rows: &Vec<Row<String>>, top_n: usize) -> (best: Vec<Row<String>>)
    ensures
        host_rows(best@) == top(host_rows(rows@), top_n as nat),
{
    let ghost views = host_rows(rows@);
    let mut tallies: Vec<Tally> = Vec::new();
    let mut i: usize = 0;
    while i < rows.len()
        invariant
            i <= rows@.len(),
            tallies@.len() == i,
            forall|k: int| 0 <= k < i ==> #[trigger] tallies@[k] == rows@[k].tally,
        decreases rows@.len() - i,
    {
        tallies.push(rows[i].tally);
        i += 1;
    }
    let places = rank_places(&tallies);
    let ghost counts = ranked(tally_rows(tallies@));
    proof {
        assert(counts.len() == places@.len());
        lemma_ranking_by_counts(views, tallies@);
    }
    let mut best: Vec<Row<String>> = Vec::new();
    let mut j: usize = 0;
    while j < places.len() && j < top_n
        invariant
            j <= places@.len(),
            j <= top_n,
            counts == picked(tally_rows(tallies@), places@),
            counts == ranked(tally_rows(tallies@)),
            tallies@.len() == rows@.len(),
            views == host_rows(rows@),
            ranked(views).len() == places@.len(),
            forall|k: int| 0 <= k < places@.len() ==> #[trigger] places@[k] < tallies@.len(),
            forall|k: int|
                0 <= k < ranked(views).len() ==> {
                    let place = (#[trigger] counts[k]).0;
                    0 <= place < views.len() && ranked(views)[k] == views[place]
                },
            host_rows(best@) == ranked(views).take(j as int),
        decreases places@.len() - j,
    {
        let place: usize = places[j];
        let ghost before = best@;
        assert(counts[j as int] == tally_rows(tallies@)[place as int]);
        best.push(Row { key: rows[place].key.clone(), tally: rows[place].tally });
        assert(host_rows(best@) =~= host_rows(before).push(views[place as int]));
        assert(ranked(views).take(j + 1) =~= ranked(views).take(j as int).push(
            ranked(views)[j as int],
        ));
        j += 1;
    }
    assert(ranked(views).take(ranked(views).len() as int) =~= ranked(views));
    best
}

/// The first lines by their bytes.
pub(crate) fn top_keys<K: Copy>(rows: &Vec<Row<K>>, top_n: usize) -> (best: Vec<Row<K>>)
    ensures
        key_rows(best@) == top(key_rows(rows@), top_n as nat),
{
    let ghost views = key_rows(rows@);
    let mut tallies: Vec<Tally> = Vec::new();
    let mut i: usize = 0;
    while i < rows.len()
        invariant
            i <= rows@.len(),
            tallies@.len() == i,
            forall|k: int| 0 <= k < i ==> #[trigger] tallies@[k] == rows@[k].tally,
        decreases rows@.len() - i,
    {
        tallies.push(rows[i].tally);
        i += 1;
    }
    let places = rank_places(&tallies);
    let ghost counts = ranked(tally_rows(tallies@));
    proof {
        assert(counts.len() == places@.len());
        lemma_ranking_by_counts(views, tallies@);
    }
    let mut best: Vec<Row<K>> = Vec::new();
    let mut j: usize = 0;
    while j < places.len() && j < top_n
        invariant
            j <= places@.len(),
            j <= top_n,
            counts == picked(tally_rows(tallies@), places@),
            counts == ranked(tally_rows(tallies@)),
            tallies@.len() == rows@.len(),
            views == key_rows(rows@),
            ranked(views).len() == places@.len(),
            forall|k: int| 0 <= k < places@.len() ==> #[trigger] places@[k] < tallies@.len(),
            forall|k: int|
                0 <= k < ranked(views).len() ==> {
                    let place = (#[trigger] counts[k]).0;
                    0 <= place < views.len() && ranked(views)[k] == views[place]
                },
            key_rows(best@) == ranked(views).take(j as int),
        decreases places@.len() - j,
    {
        let place: usize = places[j];
        let ghost before = best@;
        assert(counts[j as int] == tally_rows(tallies@)[place as int]);
        best.push(Row { key: rows[place].key, tally: rows[place].tally });
        assert(key_rows(best@) =~= key_rows(before).push(views[place as int]));
        assert(ranked(views).take(j + 1) =~= ranked(views).take(j as int).push(
            ranked(views)[j as int],
        ));
        j += 1;
    }
    assert(ranked(views).take(ranked(views).len() as int) =~= ranked(views));
    best
}

/// The busiest processes, host names and addresses at one moment.
#[derive(Debug)]
pub struct TrafficSnapshot {
    pub in_bytes: u64,
    pub out_bytes: u64,
    pub processes: Vec<Row<ProcessIdentity>>,
    pub outbound_domains: Vec<Row<String>>,
    pub inbound_ips: Vec<Row<IpAddr>>,
    pub outbound_ips: Vec<Row<IpAddr>>,
    pub attribution: AttributionSummary,
    /// Bytes that are not charged to anyone yet.
    pub pending_attribution_bytes: u64,
    /// Whether the process table is up to date.
    pub process_data_fresh: bool,
}

impl TrafficTotals {
    /// How many lines the lists have. Every address has its line for as long as traffic is
    /// counted: none moves between tiers, and none makes room for another.
    pub fn diagnostics(&self) -> (numbers: StatsDiagnostics)
        ensures
            numbers == (StatsDiagnostics {
                ip_promotions: 0,
                ip_demotions: 0,
                ip_evictions_heavy: 0,
                ip_evictions_rising: 0,
                ip_evictions_observation: 0,
                process_entries: self@.processes.len() as u64,
                domain_entries: self@.hosts.len() as u64,
                inbound_ip_entries: self@.inbound_ips.len() as u64,
                outbound_ip_entries: self@.outbound_ips.len() as u64,
                inbound_heavy_ip_entries: 0,
                inbound_rising_ip_entries: 0,
                inbound_observation_ip_entries: 0,
                outbound_heavy_ip_entries: 0,
                outbound_rising_ip_entries: 0,
                outbound_observation_ip_entries: 0,
            }),
    {
        StatsDiagnostics {
            ip_promotions: 0,
            ip_demotions: 0,
            ip_evictions_heavy: 0,
            ip_evictions_rising: 0,
            ip_evictions_observation: 0,
            process_entries: self.processes.len() as u64,
            domain_entries: self.hosts.len() as u64,
            inbound_ip_entries: self.inbound_ips.len() as u64,
            outbound_ip_entries: self.outbound_ips.len() as u64,
            inbound_heavy_ip_entries: 0,
            inbound_rising_ip_entries: 0,
            inbound_observation_ip_entries: 0,
            outbound_heavy_ip_entries: 0,
            outbound_rising_ip_entries: 0,
            outbound_observation_ip_entries: 0,
        }
    }

    /// The busiest processes, host names and addresses.
    pub fn snapshot(
        &self,
        top_n: usize,
        pending_attribution_bytes: u64,
        process_data_fresh: bool,
    ) -> (snapshot: TrafficSnapshot)
        ensures
            snapshot.in_bytes == self.in_bytes,
            snapshot.out_bytes == self.out_bytes,
            process_rows(snapshot.processes@) == top(self@.processes, top_n as nat),
            host_rows(snapshot.outbound_domains@) == top(self@.hosts, top_n as nat),
            key_rows(snapshot.inbound_ips@) == top(self@.inbound_ips, top_n as nat),
            key_rows(snapshot.outbound_ips@) == top(self@.outbound_ips, top_n as nat),
            snapshot.attribution == self.attribution,
            snapshot.pending_attribution_bytes == pending_attribution_bytes,
            snapshot.process_data_fresh == process_data_fresh,
    {
        TrafficSnapshot {
            in_bytes: self.in_bytes,
            out_bytes: self.out_bytes,
            processes: top_processes(&self.processes, top_n),
            outbound_domains: top_hosts(&self.hosts, top_n),
            inbound_ips: top_keys(&self.inbound_ips, top_n),
            outbound_ips: top_keys(&self.outbound_ips, top_n),
            attribution: self.attribution,
            pending_attribution_bytes,
            process_data_fresh,
        }
    }
}

/// The ledger lines as mathematical values.
pub open spec fn bookings(entries: Seq<StatsEntry>) -> Seq<Booking> {
    entries.map_values(|entry: StatsEntry| entry@)
}

/// Every byte that the ledger charges is in exactly one channel of the summary, as long as
/// the sums fit 64 bits.
pub proof fn lemma_channels_add_up(start: TotalsView, entries: Seq<StatsEntry>, way: Direction)
    requires
        start.attribution.bytes(way) + charged_bytes(bookings(entries), way) <= u64::MAX,
    ensures
        added_up(start, entries).attribution.bytes(way) == start.attribution.bytes(way)
            + charged_bytes(bookings(entries), way),
    decreases entries.len(),
{
    if entries.len() > 0 {
        let earlier = entries.drop_last();
        let entry = entries.last();
        assert(bookings(entries).drop_last() =~= bookings(earlier));
        assert(bookings(entries).last() == entry@);
        lemma_channels_add_up(start, earlier, way);
    }
}

/// Traffic that several processes may have caused is listed for each of them.
pub proof fn lemma_shared_traffic_is_listed_for_each(
    rows: Seq<(IdentityView, Tally)>,
    candidates: Seq<ObservedProcess>,
    way: Direction,
    bytes: u64,
    at: i128,
    i: int,
)
    requires
        0 <= i < candidates.len(),
    ensures
        row_of(charged_each(rows, candidates, way, bytes, at), process_view(candidates[i]))
            is Some,
    decreases candidates.len(),
{
    let earlier = candidates.drop_last();
    let before = charged_each(rows, earlier, way, bytes, at);
    let after = charged_each(rows, candidates, way, bytes, at);
    let key = process_view(candidates[i]);
    lemma_row_of(before, key);
    lemma_row_of(before, process_view(candidates.last()));
    lemma_row_of(after, key);
    if i < earlier.len() {
        lemma_shared_traffic_is_listed_for_each(rows, earlier, way, bytes, at, i);
        assert(earlier[i] == candidates[i]);
        let place = row_of(before, key)->0;
        assert(after[place].0 == key);
    } else {
        match row_of(before, key) {
            Some(place) => {
                assert(after[place].0 == key);
            },
            None => {
                assert(after[before.len() as int].0 == key);
            },
        }
    }
}

} // verus!
