//! The accounting ledger: what was observed, and to whom each byte was charged.

use vstd::prelude::*;

use crate::capture::Flow;
use crate::net::{Direction, IpAddr, LocalSocket};
use crate::text::{clone_text, text_view};

verus! {

/// A process that traffic is charged to.
#[derive(Debug, PartialEq, Eq)]
pub struct ObservedProcess {
    pub pid: u32,
    pub name: Option<String>,
    pub path: Option<String>,
}

impl Clone for ObservedProcess {
    fn clone(&self) -> (copy: Self)
        ensures
            copy == *self,
    {
        ObservedProcess {
            pid: self.pid,
            name: clone_text(&self.name),
            path: clone_text(&self.path),
        }
    }
}

/// What an exclusive charge rests on.
#[derive(Clone, Copy, Debug, PartialEq, Eq, Structural)]
pub enum Evidence {
    /// The process table named the owner while the socket was open.
    Snapshot,
    /// A probe of the socket named the owner.
    Probe,
    /// The interval log recovered the owner after the socket had closed.
    History,
}

/// The endpoints of a connection of a local process.
#[derive(Clone, Copy, Debug, PartialEq, Eq, Hash, Structural)]
pub struct ProcFlowKey {
    pub local: LocalSocket,
    pub remote_ip: IpAddr,
    pub remote_port: u16,
}

/// The key of a connection between a local socket and a peer.
pub open spec fn flow_key_of(local: LocalSocket, remote_ip: IpAddr, remote_port: u16) -> ProcFlowKey {
    ProcFlowKey { local, remote_ip, remote_port }
}

impl ProcFlowKey {
    /// The key of a connection between a local socket and a peer.
    pub fn from_endpoint(local: LocalSocket, remote_ip: IpAddr, remote_port: u16) -> (key: Self)
        ensures
            key == flow_key_of(local, remote_ip, remote_port),
    {
        ProcFlowKey { local, remote_ip, remote_port }
    }
}

/// One line of the ledger.
#[derive(Debug, PartialEq, Eq)]
pub enum StatsEntry {
    /// Bytes that crossed the interface. Traffic between two local sockets
    /// (`both_local`) crosses it both ways.
    Interface {
        direction: Direction,
        peer: IpAddr,
        bytes: u64,
        both_local: bool,
        observed_at: i128,
    },
    /// The host name, if known, of the flow that carried the bytes.
    Domain { domain: Option<String>, direction: Direction, bytes: u64, observed_at: i128 },
    /// Bytes charged to one process alone.
    Exclusive {
        process: ObservedProcess,
        direction: Direction,
        bytes: u64,
        observed_at: i128,
        evidence: Evidence,
        flow: ProcFlowKey,
    },
    /// Bytes that any of several processes may have caused, counted once.
    Shared {
        candidates: Vec<ObservedProcess>,
        direction: Direction,
        bytes: u64,
        observed_at: i128,
        flow: ProcFlowKey,
    },
    /// Bytes that belong to no socket.
    System { direction: Direction, bytes: u64, observed_at: i128 },
    /// Bytes of a socket whose owner stayed unknown.
    Unattributed { direction: Direction, bytes: u64, observed_at: i128 },
}

/// A ledger line as a mathematical value.
pub ghost enum Booking {
    Interface {
        direction: Direction,
        peer: IpAddr,
        bytes: nat,
        both_local: bool,
        observed_at: int,
    },
    Domain { domain: Option<Seq<char>>, direction: Direction, bytes: nat, observed_at: int },
    Exclusive {
        process: ObservedProcess,
        direction: Direction,
        bytes: nat,
        observed_at: int,
        evidence: Evidence,
        flow: ProcFlowKey,
    },
    Shared {
        candidates: Seq<ObservedProcess>,
        direction: Direction,
        bytes: nat,
        observed_at: int,
        flow: ProcFlowKey,
    },
    System { direction: Direction, bytes: nat, observed_at: int },
    Unattributed { direction: Direction, bytes: nat, observed_at: int },
}

impl View for StatsEntry {
    type V = Booking;

    open spec fn view(&self) -> Booking {
        match *self {
            StatsEntry::Interface { direction, peer, bytes, both_local, observed_at } => {
                Booking::Interface {
                    direction,
                    peer,
                    bytes: bytes as nat,
                    both_local,
                    observed_at: observed_at as int,
                }
            },
            StatsEntry::Domain { domain, direction, bytes, observed_at } => Booking::Domain {
                domain: text_view(domain),
                direction,
                bytes: bytes as nat,
                observed_at: observed_at as int,
            },
            StatsEntry::Exclusive { process, direction, bytes, observed_at, evidence, flow } => {
                Booking::Exclusive {
                    process,
                    direction,
                    bytes: bytes as nat,
                    observed_at: observed_at as int,
                    evidence,
                    flow,
                }
            },
            StatsEntry::Shared { candidates, direction, bytes, observed_at, flow } => {
                Booking::Shared {
                    candidates: candidates@,
                    direction,
                    bytes: bytes as nat,
                    observed_at: observed_at as int,
                    flow,
                }
            },
            StatsEntry::System { direction, bytes, observed_at } => Booking::System {
                direction,
                bytes: bytes as nat,
                observed_at: observed_at as int,
            },
            StatsEntry::Unattributed { direction, bytes, observed_at } => Booking::Unattributed {
                direction,
                bytes: bytes as nat,
                observed_at: observed_at as int,
            },
        }
    }
}

impl Booking {
    /// The bytes that the line charges to an owner, or to none, in a direction.
    /// Interface and host name lines charge nothing.
    pub open spec fn charged(self, way: Direction) -> nat {
        match self {
            Booking::Exclusive { direction, bytes, .. } => if direction == way { bytes } else { 0 },
            Booking::Shared { direction, bytes, .. } => if direction == way { bytes } else { 0 },
            Booking::System { direction, bytes, .. } => if direction == way { bytes } else { 0 },
            Booking::Unattributed { direction, bytes, .. } => {
                if direction == way { bytes } else { 0 }
            },
            _ => 0,
        }
    }

    /// Whether the line charges bytes to an owner, or to none.
    pub open spec fn is_charge(self) -> bool {
        !(self is Interface) && !(self is Domain)
    }

    /// The bytes that the line says crossed the interface in a direction. Those between two
    /// local sockets crossed it both ways.
    pub open spec fn crossed(self, way: Direction) -> nat {
        match self {
            Booking::Interface { direction, bytes, both_local, .. } => {
                if direction == way || both_local {
                    bytes
                } else {
                    0
                }
            },
            _ => 0,
        }
    }
}

/// The bytes that crossed the interface in a direction, by a ledger.
pub open spec fn crossed_bytes(ledger: Seq<Booking>, way: Direction) -> nat
    decreases ledger.len(),
{
    if ledger.len() == 0 {
        0
    } else {
        crossed_bytes(ledger.drop_last(), way) + ledger.last().crossed(way)
    }
}

/// Whether a ledger was continued by lines that charge bytes, and by no others.
pub open spec fn only_charges(before: Seq<Booking>, after: Seq<Booking>) -> bool {
    &&& before.len() <= after.len()
    &&& after.take(before.len() as int) == before
    &&& forall|i: int| before.len() <= i < after.len() ==> (#[trigger] after[i]).is_charge()
}

/// A line appended to a ledger adds what crossed the interface.
pub proof fn lemma_crossed_push(ledger: Seq<Booking>, line: Booking, way: Direction)
    ensures
        crossed_bytes(ledger.push(line), way) == crossed_bytes(ledger, way) + line.crossed(way),
{
    assert(ledger.push(line).drop_last() =~= ledger);
}

/// Charges do not cross the interface.
pub proof fn lemma_only_charges(before: Seq<Booking>, after: Seq<Booking>, way: Direction)
    requires
        only_charges(before, after),
    ensures
        crossed_bytes(after, way) == crossed_bytes(before, way),
    decreases after.len(),
{
    if after.len() == before.len() {
        assert(after.take(before.len() as int) =~= after);
    } else {
        let shorter = after.drop_last();
        assert(shorter.take(before.len() as int) =~= after.take(before.len() as int));
        assert forall|i: int| before.len() <= i < shorter.len() implies (
        #[trigger] shorter[i]).is_charge() by {
            assert(after[i].is_charge());
        }
        lemma_only_charges(before, shorter, way);
        assert(after[after.len() - 1].is_charge());
    }
}

/// The bytes that a ledger charges in a direction, over its four channels.
pub open spec fn charged_bytes(ledger: Seq<Booking>, way: Direction) -> nat
    decreases ledger.len(),
{
    if ledger.len() == 0 {
        0
    } else {
        charged_bytes(ledger.drop_last(), way) + ledger.last().charged(way)
    }
}

/// Charges of two ledgers add up when one is appended to the other.
pub proof fn lemma_charged_concat(first: Seq<Booking>, second: Seq<Booking>, way: Direction)
    ensures
        charged_bytes(first + second, way) == charged_bytes(first, way) + charged_bytes(
            second,
            way,
        ),
    decreases second.len(),
{
    if second.len() == 0 {
        assert(first + second =~= first);
    } else {
        let whole = first + second;
        assert(whole.drop_last() =~= first + second.drop_last());
        lemma_charged_concat(first, second.drop_last(), way);
    }
}

/// A line appended to a ledger adds its charge.
pub proof fn lemma_charged_push(ledger: Seq<Booking>, line: Booking, way: Direction)
    ensures
        charged_bytes(ledger.push(line), way) == charged_bytes(ledger, way) + line.charged(way),
{
    assert(ledger.push(line).drop_last() =~= ledger);
}

/// The ledger lines booked since they were last taken out.
pub struct Stats {
    pub entries: Vec<StatsEntry>,
}

impl View for Stats {
    type V = Seq<Booking>;

    open spec fn view(&self) -> Seq<Booking> {
        self.entries@.map_values(|entry: StatsEntry| entry@)
    }
}

/// The interface line of a flow.
pub open spec fn interface_booking(flow: Flow, observed_at: i128) -> Booking {
    Booking::Interface {
        direction: flow.direction,
        peer: flow.peer,
        bytes: flow.bytes as nat,
        both_local: flow.peer_local_socket is Some,
        observed_at: observed_at as int,
    }
}

/// The host name line of a flow.
pub open spec fn domain_booking(flow: Flow, observed_at: i128) -> Booking {
    Booking::Domain {
        domain: text_view(flow.domain),
        direction: flow.direction,
        bytes: flow.bytes as nat,
        observed_at: observed_at as int,
    }
}

/// The line for bytes whose owner stayed unknown.
pub open spec fn unattributed_booking(direction: Direction, bytes: u64, observed_at: i128) -> Booking {
    Booking::Unattributed { direction, bytes: bytes as nat, observed_at: observed_at as int }
}

/// The line for bytes of one process.
pub open spec fn exclusive_booking(
    process: ObservedProcess,
    direction: Direction,
    bytes: u64,
    observed_at: i128,
    evidence: Evidence,
    flow: ProcFlowKey,
) -> Booking {
    Booking::Exclusive {
        process,
        direction,
        bytes: bytes as nat,
        observed_at: observed_at as int,
        evidence,
        flow,
    }
}

impl Stats {
    /// An empty ledger.
    pub fn new() -> (stats: Self)
        ensures
            stats@ == Seq::<Booking>::empty(),
    {
        let stats = Stats { entries: Vec::new() };
        assert(stats@ =~= Seq::<Booking>::empty());
        stats
    }

    fn book(&mut self, entry: StatsEntry)
        ensures
            final(self)@ == old(self)@.push(entry@),
    {
        let ghost before = self@;
        self.entries.push(entry);
        assert(self@ =~= before.push(entry@));
    }

    /// Takes the lines out, in the order in which they were booked.
    pub fn take_entries(&mut self) -> (entries: Vec<StatsEntry>)
        ensures
            entries@ == old(self).entries@,
            final(self)@ == Seq::<Booking>::empty(),
    {
        let mut entries: Vec<StatsEntry> = Vec::new();
        std::mem::swap(&mut entries, &mut self.entries);
        assert(self@ =~= Seq::<Booking>::empty());
        entries
    }

    /// Books the bytes a flow carried over the interface.
    pub fn record_interface_flow(&mut self, flow: &Flow, observed_at: i128)
        ensures
            final(self)@ == old(self)@.push(interface_booking(*flow, observed_at)),
    {
        self.book(
            StatsEntry::Interface {
                direction: flow.direction,
                peer: flow.peer,
                bytes: flow.bytes,
                both_local: flow.peer_local_socket.is_some(),
                observed_at,
            },
        );
    }

    /// Books the host name a flow was resolved to, if any.
    pub fn record_outbound_domain(&mut self, flow: &Flow, observed_at: i128)
        ensures
            final(self)@ == old(self)@.push(domain_booking(*flow, observed_at)),
    {
        self.book(
            StatsEntry::Domain {
                domain: clone_text(&flow.domain),
                direction: flow.direction,
                bytes: flow.bytes,
                observed_at,
            },
        );
    }

    /// Charges bytes to one process.
    pub fn record_process_evidence(
        &mut self,
        process: ObservedProcess,
        direction: Direction,
        bytes: u64,
        observed_at: i128,
        evidence: Evidence,
        flow: ProcFlowKey,
    )
        ensures
            final(self)@ == old(self)@.push(
                exclusive_booking(process, direction, bytes, observed_at, evidence, flow),
            ),
    {
        self.book(
            StatsEntry::Exclusive { process, direction, bytes, observed_at, evidence, flow },
        );
    }

    /// Charges bytes to several processes together.
    pub fn record_shared(
        &mut self,
        candidates: Vec<ObservedProcess>,
        direction: Direction,
        bytes: u64,
        observed_at: i128,
        flow: ProcFlowKey,
    )
        ensures
            final(self)@ == old(self)@.push(
                Booking::Shared {
                    candidates: candidates@,
                    direction,
                    bytes: bytes as nat,
                    observed_at: observed_at as int,
                    flow,
                },
            ),
    {
        self.book(StatsEntry::Shared { candidates, direction, bytes, observed_at, flow });
    }

    /// Charges bytes to no socket.
    pub fn record_system(&mut self, direction: Direction, bytes: u64, observed_at: i128)
        ensures
            final(self)@ == old(self)@.push(
                Booking::System {
                    direction,
                    bytes: bytes as nat,
                    observed_at: observed_at as int,
                },
            ),
    {
        self.book(StatsEntry::System { direction, bytes, observed_at });
    }

    /// Charges bytes to an unknown owner.
    pub fn record_unattributed(&mut self, direction: Direction, bytes: u64, observed_at: i128)
        ensures
            final(self)@ == old(self)@.push(unattributed_booking(direction, bytes, observed_at)),
    {
        self.book(StatsEntry::Unattributed { direction, bytes, observed_at });
    }
}

} // verus!
