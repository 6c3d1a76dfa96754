//! Which process owns which local socket, as of the latest listener scan.

use vstd::prelude::*;

use crate::net::{
    is_ipv4_mapped, is_mapped, keys_of, socket_keys, wildcard_for, wildcard_spec, IpAddr,
    LocalSocket, SocketAddr, TransportProtocol,
};
use crate::process_name::{nonempty, nonempty_text, process_name, shown_name, PathStyle};
use crate::text::{clone_text, text_view};

verus! {

/// How many distinct samples of missed lookups are kept between two reports.
pub const LOOKUP_MISS_SAMPLE_LIMIT: usize = 8;

/// The longest duration, in nanoseconds: `u64::MAX` seconds and 999 999 999 ns.
pub const MAX_DURATION: u128 = 18_446_744_073_709_551_615_999_999_999;

/// A process that owns a socket.
#[derive(Debug, PartialEq, Eq)]
pub struct ProcInfo {
    pub pid: u32,
    pub name: Option<String>,
    pub path: Option<String>,
}

impl Clone for ProcInfo {
    fn clone(&self) -> (copy: Self)
        ensures
            copy == *self,
    {
        ProcInfo { pid: self.pid, name: clone_text(&self.name), path: clone_text(&self.path) }
    }
}

/// A socket and one process that owns it.
#[derive(Debug, PartialEq, Eq)]
pub struct ProcEntry {
    pub socket: LocalSocket,
    pub info: ProcInfo,
}

/// A table entry as a mathematical value.
pub ghost struct Owner {
    pub socket: LocalSocket,
    pub pid: u32,
    pub name: Option<Seq<char>>,
    pub path: Option<Seq<char>>,
}

impl View for ProcEntry {
    type V = Owner;

    open spec fn view(&self) -> Owner {
        Owner {
            socket: self.socket,
            pid: self.info.pid,
            name: text_view(self.info.name),
            path: text_view(self.info.path),
        }
    }
}

/// One line of a listener scan.
#[derive(Debug, PartialEq, Eq)]
pub struct ListenerRecord {
    pub socket: SocketAddr,
    pub protocol: TransportProtocol,
    pub pid: u32,
    pub name: String,
    pub path: String,
    /// How the system spells the path.
    pub path_style: PathStyle,
}

/// Why a lookup named no single process.
#[derive(Clone, Copy, Debug, PartialEq, Eq, Structural)]
pub enum LookupMissReason {
    NoCandidate,
    Ambiguous,
    Stale,
}

/// A missed lookup, kept as an example.
#[derive(Clone, Copy, Debug, PartialEq, Eq, Structural)]
pub struct LookupMissSample {
    pub reason: LookupMissReason,
    pub local_socket: LocalSocket,
    pub peer_ip: IpAddr,
    pub peer_port: u16,
}

/// What the table says of a socket.
pub enum LookupOutcome<'a> {
    /// One process owns it; `v4_mapped` if it was found under the IPv4 alias of a
    /// mapped address.
    Hit { process: &'a ProcInfo, v4_mapped: bool },
    /// Several processes own it.
    Ambiguous { processes: Vec<&'a ProcInfo> },
    Miss(LookupMissReason),
}

/// The one-place mailbox for refresh requests.
#[derive(Clone, Copy, Debug, PartialEq, Eq, Structural)]
pub enum RefreshSlot {
    /// Nobody refreshes the table.
    Absent,
    /// No request is waiting.
    Empty,
    /// A request is waiting.
    Full,
}

/// How often lookups and refreshes happened. The counts wrap around.
#[derive(Clone, Copy, Debug, PartialEq, Eq, Structural)]
pub struct ProcCounters {
    pub lookup_hits: u64,
    pub lookup_misses: u64,
    pub lookup_no_candidate: u64,
    pub lookup_ambiguous: u64,
    pub lookup_stale: u64,
    pub lookup_no_candidate_bytes: u64,
    pub lookup_ambiguous_bytes: u64,
    pub lookup_stale_bytes: u64,
    pub lookup_v4_mapped_hits: u64,
    pub no_local_socket: u64,
    pub refresh_requests: u64,
    pub refresh_actual: u64,
    pub refresh_success: u64,
    pub refresh_failure: u64,
    pub refresh_records: u64,
    pub refresh_v4_mapped_records: u64,
    pub refresh_duration_nanos: u64,
    pub last_refresh_duration_nanos: u64,
}

/// The counts and samples of a table, as reported.
#[derive(Debug, PartialEq, Eq)]
pub struct ProcDiagnosticsSnapshot {
    pub counters: ProcCounters,
    pub lookup_miss_samples: Vec<LookupMissSample>,
}

/// The owners of local sockets. Times are nanoseconds of one monotonic clock.
pub struct ProcTable {
    pub entries: Vec<ProcEntry>,
    pub v4_mapped_aliases: Vec<LocalSocket>,
    pub record_count: u64,
    pub v4_mapped_record_count: u64,
    pub refreshed_at: Option<u128>,
    pub generation: u64,
    pub max_age: u128,
    pub refresh: RefreshSlot,
    pub counters: ProcCounters,
    pub lookup_miss_samples: Vec<LookupMissSample>,
}

/// No process is listed twice for a socket.
pub open spec fn distinct_owners(entries: Seq<ProcEntry>) -> bool {
    forall|i: int, j: int|
        #![trigger entries[i], entries[j]]
        0 <= i < j < entries.len() ==> !(entries[i].socket == entries[j].socket
            && entries[i].info.pid == entries[j].info.pid)
}

/// Whether a process is listed for a socket.
pub open spec fn lists(owners: Seq<Owner>, socket: LocalSocket, pid: u32) -> bool {
    exists|i: int|
        0 <= i < owners.len() && (#[trigger] owners[i]).socket == socket && owners[i].pid == pid
}

/// The list with an owner added, unless the same process is listed for the socket.
pub open spec fn with_owner(owners: Seq<Owner>, owner: Owner) -> Seq<Owner> {
    if lists(owners, owner.socket, owner.pid) {
        owners
    } else {
        owners.push(owner)
    }
}

/// The list with a process added under each of the sockets.
pub open spec fn with_keys(
    owners: Seq<Owner>,
    keys: Seq<(LocalSocket, bool)>,
    pid: u32,
    name: Option<Seq<char>>,
    path: Option<Seq<char>>,
) -> Seq<Owner>
    decreases keys.len(),
{
    if keys.len() == 0 {
        owners
    } else {
        with_owner(
            with_keys(owners, keys.drop_last(), pid, name, path),
            Owner { socket: keys.last().0, pid, name, path },
        )
    }
}

/// The socket that a scan line is about.
pub open spec fn record_socket(record: ListenerRecord) -> LocalSocket {
    LocalSocket { ip: record.socket.ip, port: record.socket.port, protocol: record.protocol }
}

/// The owners that a scan lists: for every line its process under the line's
/// socket and, for an IPv4-mapped address, under the IPv4 alias. The first line
/// for a socket and a process counts.
pub open spec fn owners_of(records: Seq<ListenerRecord>) -> Seq<Owner>
    decreases records.len(),
{
    if records.len() == 0 {
        Seq::empty()
    } else {
        let record = records.last();
        with_keys(
            owners_of(records.drop_last()),
            keys_of(record_socket(record)),
            record.pid,
            shown_name(record.path_style, record.name@, record.path@),
            nonempty(record.path@),
        )
    }
}

/// Whether some scan line makes the socket an IPv4 alias.
pub open spec fn aliased(records: Seq<ListenerRecord>, socket: LocalSocket) -> bool {
    exists|i: int|
        0 <= i < records.len() && keys_of(record_socket(#[trigger] records[i])).contains(
            (socket, true),
        )
}

/// How many scan lines have an IPv4-mapped address.
pub open spec fn mapped_records(records: Seq<ListenerRecord>) -> nat
    decreases records.len(),
{
    if records.len() == 0 {
        0
    } else {
        mapped_records(records.drop_last()) + if is_mapped(records.last().socket.ip) {
            1nat
        } else {
            0
        }
    }
}

proof fn lemma_mapped_records(records: Seq<ListenerRecord>)
    ensures
        mapped_records(records) <= records.len(),
    decreases records.len(),
{
    if records.len() > 0 {
        lemma_mapped_records(records.drop_last());
    }
}

/// Twice a duration, up to the longest one.
pub open spec fn doubled(duration: u128) -> int {
    if 2 * duration > MAX_DURATION {
        MAX_DURATION as int
    } else {
        2 * duration
    }
}

impl ProcCounters {
    /// All counts at zero.
    pub fn zero() -> (counters: Self)
        ensures
            counters == Self::zero_spec(),
    {
        ProcCounters {
            lookup_hits: 0,
            lookup_misses: 0,
            lookup_no_candidate: 0,
            lookup_ambiguous: 0,
            lookup_stale: 0,
            lookup_no_candidate_bytes: 0,
            lookup_ambiguous_bytes: 0,
            lookup_stale_bytes: 0,
            lookup_v4_mapped_hits: 0,
            no_local_socket: 0,
            refresh_requests: 0,
            refresh_actual: 0,
            refresh_success: 0,
            refresh_failure: 0,
            refresh_records: 0,
            refresh_v4_mapped_records: 0,
            refresh_duration_nanos: 0,
            last_refresh_duration_nanos: 0,
        }
    }

    /// All counts at zero.
    pub open spec fn zero_spec() -> Self {
        ProcCounters {
            lookup_hits: 0,
            lookup_misses: 0,
            lookup_no_candidate: 0,
            lookup_ambiguous: 0,
            lookup_stale: 0,
            lookup_no_candidate_bytes: 0,
            lookup_ambiguous_bytes: 0,
            lookup_stale_bytes: 0,
            lookup_v4_mapped_hits: 0,
            no_local_socket: 0,
            refresh_requests: 0,
            refresh_actual: 0,
            refresh_success: 0,
            refresh_failure: 0,
            refresh_records: 0,
            refresh_v4_mapped_records: 0,
            refresh_duration_nanos: 0,
            last_refresh_duration_nanos: 0,
        }
    }

    /// The counts after a missed lookup that concerned `bytes` bytes.
    pub open spec fn with_miss(self, reason: LookupMissReason, bytes: u64) -> Self {
        let missed = ProcCounters { lookup_misses: self.lookup_misses.wrapping_add(1), ..self };
        match reason {
            LookupMissReason::NoCandidate => ProcCounters {
                lookup_no_candidate: self.lookup_no_candidate.wrapping_add(1),
                lookup_no_candidate_bytes: self.lookup_no_candidate_bytes.wrapping_add(bytes),
                ..missed
            },
            LookupMissReason::Ambiguous => ProcCounters {
                lookup_ambiguous: self.lookup_ambiguous.wrapping_add(1),
                lookup_ambiguous_bytes: self.lookup_ambiguous_bytes.wrapping_add(bytes),
                ..missed
            },
            LookupMissReason::Stale => ProcCounters {
                lookup_stale: self.lookup_stale.wrapping_add(1),
                lookup_stale_bytes: self.lookup_stale_bytes.wrapping_add(bytes),
                ..missed
            },
        }
    }

    /// The counts after a lookup that named one process.
    pub open spec fn with_hit(self, v4_mapped: bool) -> Self {
        ProcCounters {
            lookup_hits: self.lookup_hits.wrapping_add(1),
            lookup_v4_mapped_hits: if v4_mapped {
                self.lookup_v4_mapped_hits.wrapping_add(1)
            } else {
                self.lookup_v4_mapped_hits
            },
            ..self
        }
    }

    /// The counts after a refresh that took `nanos` nanoseconds.
    pub open spec fn with_refresh(self, success: bool, nanos: u64) -> Self {
        let timed = ProcCounters {
            refresh_duration_nanos: self.refresh_duration_nanos.wrapping_add(nanos),
            last_refresh_duration_nanos: nanos,
            ..self
        };
        if success {
            ProcCounters { refresh_success: self.refresh_success.wrapping_add(1), ..timed }
        } else {
            ProcCounters { refresh_failure: self.refresh_failure.wrapping_add(1), ..timed }
        }
    }
}

/// The samples after a miss: one more, unless it is listed or the list is full.
pub open spec fn with_sample(samples: Seq<LookupMissSample>, sample: LookupMissSample) -> Seq<
    LookupMissSample,
> {
    if samples.len() >= LOOKUP_MISS_SAMPLE_LIMIT || samples.contains(sample) {
        samples
    } else {
        samples.push(sample)
    }
}

/// The owners that a table lists, as mathematical values.
pub open spec fn owner_views(entries: Seq<ProcEntry>) -> Seq<Owner> {
    entries.map_values(|entry: ProcEntry| entry@)
}

/// The processes listed for a socket.
pub open spec fn candidates_for(entries: Seq<ProcEntry>, socket: LocalSocket) -> Seq<ProcInfo> {
    entries.filter(|entry: ProcEntry| entry.socket == socket).map_values(
        |entry: ProcEntry| entry.info,
    )
}

/// Whether a list of references refers to these processes.
pub open spec fn refers_to(refs: Seq<&ProcInfo>, processes: Seq<ProcInfo>) -> bool {
    &&& refs.len() == processes.len()
    &&& forall|i: int| 0 <= i < refs.len() ==> *(#[trigger] refs[i]) == processes[i]
}

fn is_listed(entries: &Vec<ProcEntry>, socket: LocalSocket, pid: u32) -> (listed: bool)
    ensures
        listed == lists(owner_views(entries@), socket, pid),
{
    let ghost views = owner_views(entries@);
    let mut i: usize = 0;
    while i < entries.len()
        invariant
            i <= entries@.len(),
            views == owner_views(entries@),
            forall|j: int|
                0 <= j < i ==> !((#[trigger] views[j]).socket == socket && views[j].pid == pid),
        decreases entries@.len() - i,
    {
        assert(views[i as int] == entries@[i as int]@);
        if entries[i].socket == socket && entries[i].info.pid == pid {
            return true;
        }
        i += 1;
    }
    false
}

fn holds_socket(sockets: &Vec<LocalSocket>, socket: LocalSocket) -> (held: bool)
    ensures
        held == sockets@.contains(socket),
{
    let mut i: usize = 0;
    while i < sockets.len()
        invariant
            i <= sockets@.len(),
            forall|j: int| 0 <= j < i ==> #[trigger] sockets@[j] != socket,
        decreases sockets@.len() - i,
    {
        if sockets[i] == socket {
            return true;
        }
        i += 1;
    }
    false
}

impl Default for ProcTable {
    /// A table that has never been refreshed, with nobody to refresh it.
    fn default() -> (table: Self)
        ensures
            table.wf(),
            table.entries@.len() == 0,
            table.v4_mapped_aliases@.len() == 0,
            table.record_count == 0,
            table.v4_mapped_record_count == 0,
            table.refreshed_at is None,
            table.generation == 0,
            table.max_age == 0,
            table.refresh == RefreshSlot::Absent,
            table.counters == ProcCounters::zero_spec(),
            table.lookup_miss_samples@.len() == 0,
    {
        ProcTable::new()
    }
}

impl ProcTable {
    /// No process is listed twice for a socket.
    pub open spec fn wf(self) -> bool {
        distinct_owners(self.entries@)
    }

    /// The processes listed for a socket.
    pub open spec fn candidates(self, socket: LocalSocket) -> Seq<ProcInfo> {
        candidates_for(self.entries@, socket)
    }

    /// How long ago the last successful refresh was.
    pub open spec fn age(self, now: u128) -> Option<int> {
        match self.refreshed_at {
            Some(at) => Some(if now > at { now - at } else { 0 }),
            None => None,
        }
    }

    /// Whether the last successful refresh is too old to go by.
    pub open spec fn is_stale(self, now: u128) -> bool {
        self.age(now) matches Some(age) && age > self.max_age
    }

    /// The socket whose owners a lookup considers: the one asked for if any
    /// process is listed for it, else the wildcard address with the same port.
    pub open spec fn lookup_key(self, socket: LocalSocket) -> LocalSocket {
        if self.candidates(socket).len() > 0 {
            socket
        } else {
            socket.at_spec(wildcard_spec(socket.ip))
        }
    }

    /// The processes that a lookup considers.
    pub open spec fn lookup_candidates(self, socket: LocalSocket) -> Seq<ProcInfo> {
        self.candidates(self.lookup_key(socket))
    }

    /// What a lookup of the socket finds.
    pub open spec fn finds(self, socket: LocalSocket, now: u128, outcome: LookupOutcome<'_>) -> bool {
        let found = self.lookup_candidates(socket);
        match outcome {
            LookupOutcome::Miss(LookupMissReason::Stale) => self.is_stale(now),
            LookupOutcome::Miss(LookupMissReason::NoCandidate) => !self.is_stale(now)
                && found.len() == 0,
            LookupOutcome::Miss(LookupMissReason::Ambiguous) => false,
            LookupOutcome::Hit { process, v4_mapped } => {
                &&& !self.is_stale(now)
                &&& found.len() == 1
                &&& *process == found[0]
                &&& v4_mapped == self.v4_mapped_aliases@.contains(self.lookup_key(socket))
            },
            LookupOutcome::Ambiguous { processes } => {
                &&& !self.is_stale(now)
                &&& found.len() >= 2
                &&& refers_to(processes@, found)
            },
        }
    }

    /// Everything but the counts and samples is the same.
    pub open spec fn same_owners(self, other: Self) -> bool {
        &&& self.entries == other.entries
        &&& self.v4_mapped_aliases == other.v4_mapped_aliases
        &&& self.record_count == other.record_count
        &&& self.v4_mapped_record_count == other.v4_mapped_record_count
        &&& self.refreshed_at == other.refreshed_at
        &&& self.generation == other.generation
        &&& self.max_age == other.max_age
    }

    /// A table that has never been refreshed, with nobody to refresh it.
    pub fn new() -> (table: Self)
        ensures
            table.wf(),
            table.entries@.len() == 0,
            table.v4_mapped_aliases@.len() == 0,
            table.record_count == 0,
            table.v4_mapped_record_count == 0,
            table.refreshed_at is None,
            table.generation == 0,
            table.max_age == 0,
            table.refresh == RefreshSlot::Absent,
            table.counters == ProcCounters::zero_spec(),
            table.lookup_miss_samples@.len() == 0,
    {
        ProcTable {
            entries: Vec::new(),
            v4_mapped_aliases: Vec::new(),
            record_count: 0,
            v4_mapped_record_count: 0,
            refreshed_at: None,
            generation: 0,
            max_age: 0,
            refresh: RefreshSlot::Absent,
            counters: ProcCounters::zero(),
            lookup_miss_samples: Vec::new(),
        }
    }

    /// The table that a scan spells.
    pub fn from_records(records: &Vec<ListenerRecord>) -> (table: Self)
        ensures
            table.wf(),
            owner_views(table.entries@) == owners_of(records@),
            forall|socket: LocalSocket| #[trigger]
                table.v4_mapped_aliases@.contains(socket) <==> aliased(records@, socket),
            table.record_count == records@.len(),
            table.v4_mapped_record_count == mapped_records(records@),
            table.refreshed_at is None,
            table.generation == 0,
            table.max_age == 0,
            table.refresh == RefreshSlot::Absent,
            table.counters == ProcCounters::zero_spec(),
            table.lookup_miss_samples@.len() == 0,
    {
        let mut table = ProcTable::new();
        assert(owner_views(table.entries@) =~= owners_of(records@.take(0)));
        let mut i: usize = 0;
        while i < records.len()
            invariant
                i <= records@.len(),
                distinct_owners(table.entries@),
                owner_views(table.entries@) == owners_of(records@.take(i as int)),
                forall|socket: LocalSocket| #[trigger]
                    table.v4_mapped_aliases@.contains(socket) <==> aliased(
                        records@.take(i as int),
                        socket,
                    ),
                table.record_count == i,
                table.v4_mapped_record_count == mapped_records(records@.take(i as int)),
                table.refreshed_at is None,
                table.generation == 0,
                table.max_age == 0,
                table.refresh == RefreshSlot::Absent,
                table.counters == ProcCounters::zero_spec(),
                table.lookup_miss_samples@.len() == 0,
            decreases records@.len() - i,
        {
            let record = &records[i];
            let ghost prior = records@.take(i as int);
            let ghost next = records@.take(i + 1);
            proof {
                assert(next.drop_last() =~= prior);
                lemma_mapped_records(prior);
            }
            table.record_count = table.record_count + 1;
            if is_ipv4_mapped(record.socket.ip) {
                table.v4_mapped_record_count = table.v4_mapped_record_count + 1;
            }
            let socket = LocalSocket {
                ip: record.socket.ip,
                port: record.socket.port,
                protocol: record.protocol,
            };
            let name = process_name(&record.name, &record.path, record.path_style);
            let path = nonempty_text(&record.path);
            let keys = socket_keys(socket);
            let ghost before = owner_views(table.entries@);
            let ghost aliases = table.v4_mapped_aliases@;
            let mut k: usize = 0;
            assert(keys@.take(0) =~= Seq::<(LocalSocket, bool)>::empty());
            while k < keys.len()
                invariant
                    k <= keys@.len(),
                    distinct_owners(table.entries@),
                    owner_views(table.entries@) == with_keys(
                        before,
                        keys@.take(k as int),
                        record.pid,
                        text_view(name),
                        text_view(path),
                    ),
                    forall|socket: LocalSocket| #[trigger]
                        table.v4_mapped_aliases@.contains(socket) <==> aliases.contains(socket)
                            || keys@.take(k as int).contains((socket, true)),
                    table.record_count == i + 1,
                    table.v4_mapped_record_count == mapped_records(next),
                    table.refreshed_at is None,
                    table.generation == 0,
                    table.max_age == 0,
                    table.refresh == RefreshSlot::Absent,
                    table.counters == ProcCounters::zero_spec(),
                    table.lookup_miss_samples@.len() == 0,
                decreases keys@.len() - k,
            {
                let key = keys[k].0;
                let ghost shorter = keys@.take(k as int);
                let ghost longer = keys@.take(k + 1);
                let ghost known = table.v4_mapped_aliases@;
                assert(longer.drop_last() =~= shorter);
                assert(longer =~= shorter.push(keys@[k as int]));
                if keys[k].1 && !holds_socket(&table.v4_mapped_aliases, key) {
                    table.v4_mapped_aliases.push(key);
                }
                proof {
                    assert forall|s: LocalSocket| #[trigger]
                        table.v4_mapped_aliases@.contains(s) <==> aliases.contains(s)
                            || longer.contains((s, true)) by {
                        if longer.contains((s, true)) {
                            let m = choose|m: int|
                                0 <= m < longer.len() && longer[m] == (s, true);
                            if m < shorter.len() {
                                assert(shorter[m] == (s, true));
                            }
                        }
                        if shorter.contains((s, true)) {
                            let m = choose|m: int|
                                0 <= m < shorter.len() && shorter[m] == (s, true);
                            assert(longer[m] == (s, true));
                        }
                        if keys@[k as int].1 && s == key {
                            assert(longer[k as int] == (s, true));
                        }
                        if table.v4_mapped_aliases@ != known {
                            assert(table.v4_mapped_aliases@ == known.push(key));
                            assert(known.push(key)[known.len() as int] == key);
                            if known.contains(s) {
                                let m = choose|m: int| 0 <= m < known.len() && known[m] == s;
                                assert(known.push(key)[m] == s);
                            }
                        }
                    }
                }
                if !is_listed(&table.entries, key, record.pid) {
                    let ghost listed = table.entries@;
                    let entry = ProcEntry {
                        socket: key,
                        info: ProcInfo {
                            pid: record.pid,
                            name: clone_text(&name),
                            path: clone_text(&path),
                        },
                    };
                    table.entries.push(entry);
                    proof {
                        assert(owner_views(table.entries@) =~= owner_views(listed).push(entry@));
                        assert forall|a: int, b: int|
                            #![trigger table.entries@[a], table.entries@[b]]
                            0 <= a < b < table.entries@.len() implies !(table.entries@[a].socket
                            == table.entries@[b].socket && table.entries@[a].info.pid
                            == table.entries@[b].info.pid) by {
                            assert(owner_views(listed)[a] == listed[a]@);
                            if b < listed.len() {
                                assert(!(listed[a].socket == listed[b].socket && listed[a].info.pid
                                    == listed[b].info.pid));
                            }
                        }
                    }
                }
                k += 1;
            }
            proof {
                assert(keys@.take(k as int) =~= keys@);
                assert forall|s: LocalSocket| #[trigger]
                    table.v4_mapped_aliases@.contains(s) <==> aliased(next, s) by {
                    if aliased(next, s) {
                        let m = choose|m: int|
                            0 <= m < next.len() && keys_of(
                                record_socket(#[trigger] next[m]),
                            ).contains((s, true));
                        if m < i {
                            assert(prior[m] == next[m]);
                        }
                    }
                    if aliased(prior, s) {
                        let m = choose|m: int|
                            0 <= m < prior.len() && keys_of(
                                record_socket(#[trigger] prior[m]),
                            ).contains((s, true));
                        assert(next[m] == prior[m]);
                    }
                    if keys@.contains((s, true)) {
                        assert(next[i as int] == record);
                    }
                }
            }
            i += 1;
        }
        assert(records@.take(i as int) =~= records@);
        table
    }

    /// Whether the last successful refresh is recent enough to go by.
    pub fn is_fresh_at(&self, now: u128) -> (fresh: bool)
        ensures
            fresh == (self.age(now) matches Some(age) && age <= self.max_age),
    {
        match self.refreshed_at {
            Some(at) => now.saturating_sub(at) <= self.max_age,
            None => false,
        }
    }

    /// How many times the table has been replaced, wrapping around.
    pub fn generation(&self) -> (generation: u64)
        ensures
            generation == self.generation,
    {
        self.generation
    }

    /// The processes listed for a socket.
    fn candidates_at(&self, socket: LocalSocket) -> (found: Vec<&ProcInfo>)
        ensures
            refers_to(found@, self.candidates(socket)),
    {
        let mut found: Vec<&ProcInfo> = Vec::new();
        let ghost pick = |entry: ProcEntry| entry.socket == socket;
        let ghost info = |entry: ProcEntry| entry.info;
        let mut i: usize = 0;
        proof {
            reveal(Seq::filter);
        }
        while i < self.entries.len()
            invariant
                i <= self.entries@.len(),
                pick == (|entry: ProcEntry| entry.socket == socket),
                info == (|entry: ProcEntry| entry.info),
                refers_to(found@, self.entries@.take(i as int).filter(pick).map_values(info)),
            decreases self.entries@.len() - i,
        {
            proof {
                reveal(Seq::filter);
                assert(self.entries@.take(i + 1).drop_last() =~= self.entries@.take(i as int));
            }
            if self.entries[i].socket == socket {
                found.push(&self.entries[i].info);
            }
            i += 1;
        }
        assert(self.entries@.take(i as int) =~= self.entries@);
        found
    }

    /// What the table says of a socket. A stale table says nothing; the socket's
    /// own owners go before those of the wildcard address.
    pub fn lookup_outcome_at(&self, socket: LocalSocket, now: u128) -> (outcome: LookupOutcome<'_>)
        ensures
            self.finds(socket, now, outcome),
    {
        if let Some(at) = self.refreshed_at {
            if now.saturating_sub(at) > self.max_age {
                return LookupOutcome::Miss(LookupMissReason::Stale);
            }
        }
        let mut key = socket;
        let mut found = self.candidates_at(socket);
        if found.len() == 0 {
            key = socket.at(wildcard_for(socket.ip));
            found = self.candidates_at(key);
        }
        if found.len() == 0 {
            return LookupOutcome::Miss(LookupMissReason::NoCandidate);
        }
        if found.len() != 1 {
            return LookupOutcome::Ambiguous { processes: found };
        }
        LookupOutcome::Hit {
            process: found[0],
            v4_mapped: holds_socket(&self.v4_mapped_aliases, key),
        }
    }

    /// The process that alone owns a socket.
    pub fn lookup_at(&self, socket: LocalSocket, now: u128) -> (process: Option<&ProcInfo>)
        ensures
            process is Some <==> !self.is_stale(now) && self.lookup_candidates(socket).len() == 1,
            process matches Some(process) ==> *process == self.lookup_candidates(socket)[0],
    {
        match self.lookup_outcome_at(socket, now) {
            LookupOutcome::Hit { process, .. } => Some(process),
            LookupOutcome::Ambiguous { .. } => None,
            LookupOutcome::Miss(_) => None,
        }
    }

    /// Counts a lookup that named one process.
    pub fn record_lookup_hit(&mut self, v4_mapped: bool)
        ensures
            final(self).same_owners(*old(self)),
            final(self).refresh == old(self).refresh,
            final(self).lookup_miss_samples == old(self).lookup_miss_samples,
            final(self).counters == old(self).counters.with_hit(v4_mapped),
    {
        self.counters.lookup_hits = self.counters.lookup_hits.wrapping_add(1);
        if v4_mapped {
            self.counters.lookup_v4_mapped_hits = self.counters.lookup_v4_mapped_hits.wrapping_add(
                1,
            );
        }
    }

    /// Counts a missed lookup that concerned `bytes` bytes.
    pub fn record_lookup_miss_bytes(&mut self, reason: LookupMissReason, bytes: u64)
        ensures
            final(self).same_owners(*old(self)),
            final(self).refresh == old(self).refresh,
            final(self).lookup_miss_samples == old(self).lookup_miss_samples,
            final(self).counters == old(self).counters.with_miss(reason, bytes),
    {
        let counters = self.counters;
        self.counters.lookup_misses = counters.lookup_misses.wrapping_add(1);
        match reason {
            LookupMissReason::NoCandidate => {
                self.counters.lookup_no_candidate = counters.lookup_no_candidate.wrapping_add(1);
                self.counters.lookup_no_candidate_bytes =
                counters.lookup_no_candidate_bytes.wrapping_add(bytes);
            },
            LookupMissReason::Ambiguous => {
                self.counters.lookup_ambiguous = counters.lookup_ambiguous.wrapping_add(1);
                self.counters.lookup_ambiguous_bytes =
                counters.lookup_ambiguous_bytes.wrapping_add(bytes);
            },
            LookupMissReason::Stale => {
                self.counters.lookup_stale = counters.lookup_stale.wrapping_add(1);
                self.counters.lookup_stale_bytes = counters.lookup_stale_bytes.wrapping_add(bytes);
            },
        }
    }

    /// Keeps a missed lookup as an example, unless it is kept already or enough are.
    pub fn record_lookup_miss_sample(
        &mut self,
        reason: LookupMissReason,
        local_socket: LocalSocket,
        peer_ip: IpAddr,
        peer_port: u16,
    )
        ensures
            final(self).same_owners(*old(self)),
            final(self).refresh == old(self).refresh,
            final(self).counters == old(self).counters,
            final(self).lookup_miss_samples@ == with_sample(
                old(self).lookup_miss_samples@,
                LookupMissSample { reason, local_socket, peer_ip, peer_port },
            ),
    {
        if self.lookup_miss_samples.len() >= LOOKUP_MISS_SAMPLE_LIMIT {
            return;
        }
        let sample = LookupMissSample { reason, local_socket, peer_ip, peer_port };
        let mut i: usize = 0;
        while i < self.lookup_miss_samples.len()
            invariant
                *self == *old(self),
                self.lookup_miss_samples@.len() < LOOKUP_MISS_SAMPLE_LIMIT,
                sample == (LookupMissSample { reason, local_socket, peer_ip, peer_port }),
                i <= self.lookup_miss_samples@.len(),
                forall|j: int| 0 <= j < i ==> #[trigger] self.lookup_miss_samples@[j] != sample,
            decreases self.lookup_miss_samples@.len() - i,
        {
            if self.lookup_miss_samples[i] == sample {
                return;
            }
            i += 1;
        }
        self.lookup_miss_samples.push(sample);
    }

    /// Counts traffic without a local socket.
    pub fn record_no_local_socket(&mut self)
        ensures
            final(self).same_owners(*old(self)),
            final(self).refresh == old(self).refresh,
            final(self).lookup_miss_samples == old(self).lookup_miss_samples,
            final(self).counters == (ProcCounters {
                no_local_socket: old(self).counters.no_local_socket.wrapping_add(1),
                ..old(self).counters
            }),
    {
        self.counters.no_local_socket = self.counters.no_local_socket.wrapping_add(1);
    }

    /// Counts a refresh that begins.
    pub fn record_refresh_start(&mut self)
        ensures
            final(self).same_owners(*old(self)),
            final(self).refresh == old(self).refresh,
            final(self).lookup_miss_samples == old(self).lookup_miss_samples,
            final(self).counters == (ProcCounters {
                refresh_actual: old(self).counters.refresh_actual.wrapping_add(1),
                ..old(self).counters
            }),
    {
        self.counters.refresh_actual = self.counters.refresh_actual.wrapping_add(1);
    }

    /// Counts a refresh that ended after `duration` nanoseconds.
    pub fn record_refresh_result(&mut self, success: bool, duration: u128)
        ensures
            final(self).same_owners(*old(self)),
            final(self).refresh == old(self).refresh,
            final(self).lookup_miss_samples == old(self).lookup_miss_samples,
            final(self).counters == old(self).counters.with_refresh(
                success,
                if duration > u64::MAX {
                    u64::MAX
                } else {
                    duration as u64
                },
            ),
    {
        let nanos: u64 = if duration > u64::MAX as u128 {
            u64::MAX
        } else {
            duration as u64
        };
        if success {
            self.counters.refresh_success = self.counters.refresh_success.wrapping_add(1);
        } else {
            self.counters.refresh_failure = self.counters.refresh_failure.wrapping_add(1);
        }
        self.counters.refresh_duration_nanos = self.counters.refresh_duration_nanos.wrapping_add(
            nanos,
        );
        self.counters.last_refresh_duration_nanos = nanos;
    }

    /// Reports the counts, and takes out the samples.
    pub fn diagnostics_snapshot(&mut self) -> (snapshot: ProcDiagnosticsSnapshot)
        ensures
            snapshot.counters == old(self).counters,
            snapshot.lookup_miss_samples == old(self).lookup_miss_samples,
            final(self).same_owners(*old(self)),
            final(self).refresh == old(self).refresh,
            final(self).counters == old(self).counters,
            final(self).lookup_miss_samples@.len() == 0,
    {
        let mut samples: Vec<LookupMissSample> = Vec::new();
        std::mem::swap(&mut samples, &mut self.lookup_miss_samples);
        ProcDiagnosticsSnapshot { counters: self.counters, lookup_miss_samples: samples }
    }

    /// Replaces the owners by those of a scan; a failed scan leaves the table as
    /// it was. A refreshed table stays usable for twice the refresh interval.
    pub fn refresh_at(
        &mut self,
        result: Result<Vec<ListenerRecord>, String>,
        refreshed_at: u128,
        refresh: u128,
    ) -> (outcome: Result<(), String>)
        requires
            refresh <= MAX_DURATION,
        ensures
            match result {
                Err(error) => outcome == Err::<(), String>(error) && *final(self) == *old(self),
                Ok(records) => {
                    &&& outcome is Ok
                    &&& final(self).wf()
                    &&& owner_views(final(self).entries@) == owners_of(records@)
                    &&& forall|socket: LocalSocket| #[trigger]
                        final(self).v4_mapped_aliases@.contains(socket) <==> aliased(
                            records@,
                            socket,
                        )
                    &&& final(self).record_count == records@.len()
                    &&& final(self).v4_mapped_record_count == mapped_records(records@)
                    &&& final(self).refreshed_at == Some(refreshed_at)
                    &&& final(self).generation == old(self).generation.wrapping_add(1)
                    &&& final(self).max_age == doubled(refresh)
                    &&& final(self).refresh == old(self).refresh
                    &&& final(self).lookup_miss_samples == old(self).lookup_miss_samples
                    &&& final(self).counters == (ProcCounters {
                        refresh_records: final(self).record_count,
                        refresh_v4_mapped_records: final(self).v4_mapped_record_count,
                        ..old(self).counters
                    })
                },
            },
    {
        let records = match result {
            Ok(records) => records,
            Err(error) => {
                return Err(error);
            },
        };
        let next = Self::from_records(&records);
        self.entries = next.entries;
        self.v4_mapped_aliases = next.v4_mapped_aliases;
        self.record_count = next.record_count;
        self.v4_mapped_record_count = next.v4_mapped_record_count;
        self.refreshed_at = Some(refreshed_at);
        self.generation = self.generation.wrapping_add(1);
        self.max_age = if refresh > MAX_DURATION / 2 {
            MAX_DURATION
        } else {
            2 * refresh
        };
        self.counters.refresh_records = self.record_count;
        self.counters.refresh_v4_mapped_records = self.v4_mapped_record_count;
        Ok(())
    }

    /// Asks for a refresh. One request waits at most; a further one is dropped.
    pub fn request_refresh(&mut self) -> (accepted: bool)
        ensures
            accepted == (old(self).refresh == RefreshSlot::Empty),
            final(self).same_owners(*old(self)),
            final(self).refresh == (if accepted {
                RefreshSlot::Full
            } else {
                old(self).refresh
            }),
            final(self).lookup_miss_samples == old(self).lookup_miss_samples,
            final(self).counters == (ProcCounters {
                refresh_requests: old(self).counters.refresh_requests.wrapping_add(1),
                ..old(self).counters
            }),
    {
        self.counters.refresh_requests = self.counters.refresh_requests.wrapping_add(1);
        if self.refresh == RefreshSlot::Empty {
            self.refresh = RefreshSlot::Full;
            true
        } else {
            false
        }
    }
}

} // verus!
