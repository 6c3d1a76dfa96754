//! Asking who owns a socket right now.
//!
//! A probe request names a socket. The requests wait in a bounded queue for the
//! worker that scans the listeners; each socket has at most one request under way.

use vstd::prelude::*;
use vstd::string::*;

use crate::net::{
    keys_of, socket_keys, wildcard_for, wildcard_spec, LocalSocket, SocketAddr, TransportProtocol,
};
use crate::process_name::{nonempty, nonempty_text, process_name, shown_name, PathStyle};
use crate::socket_map::SocketMap;
use crate::text::{clone_text, text_view};

verus! {

/// How many requests wait for the worker at most.
pub const REQUEST_CHANNEL_CAPACITY: usize = 1_024;

/// How long a listener scan answers further requests, in nanoseconds: 250 ms.
pub const SNAPSHOT_REFRESH_INTERVAL: u128 = 250_000_000;

/// The number of a probe request.
#[derive(Clone, Copy, Debug, PartialEq, Eq, Hash, Structural)]
pub struct ProbeRequestId(pub u64);

/// What became of a request.
#[derive(Clone, Copy, Debug, PartialEq, Eq, Structural)]
pub enum ProbeRequestOutcome {
    /// It waits for the worker under this number.
    Queued(ProbeRequestId),
    /// An earlier request for the socket is still under way.
    InFlight(ProbeRequestId),
    /// The queue is full or the worker is gone.
    Unavailable,
}

/// A request for the owner of a socket, with the peers of its connections.
#[derive(Debug, PartialEq, Eq)]
pub struct ProbeRequest {
    pub id: ProbeRequestId,
    pub socket: LocalSocket,
    pub peers: Vec<SocketAddr>,
}

/// A process that a probe found.
#[derive(Debug, PartialEq, Eq)]
pub struct ProbeProcess {
    pub pid: u32,
    pub name: Option<String>,
    pub path: Option<String>,
}

impl Clone for ProbeProcess {
    fn clone(&self) -> (copy: Self)
        ensures
            copy == *self,
    {
        ProbeProcess { pid: self.pid, name: clone_text(&self.name), path: clone_text(&self.path) }
    }
}

/// The owner of the connection to one peer.
#[derive(Debug, PartialEq, Eq)]
pub struct ConnectionMatch {
    pub peer: SocketAddr,
    pub process: ProbeProcess,
}

/// The answer to a probe request.
#[derive(Debug, PartialEq, Eq)]
pub enum ProbeResult {
    Unique { request_id: ProbeRequestId, socket: LocalSocket, process: ProbeProcess },
    NotFound { request_id: ProbeRequestId, socket: LocalSocket },
    Ambiguous { request_id: ProbeRequestId, socket: LocalSocket, candidate_count: usize },
    Unavailable { request_id: ProbeRequestId, socket: LocalSocket, error: String },
    ConnectionMatches {
        request_id: ProbeRequestId,
        socket: LocalSocket,
        matches: Vec<ConnectionMatch>,
    },
}

/// One line of a listener scan.
#[derive(Debug, PartialEq, Eq)]
pub struct ListenerSnapshot {
    pub socket: SocketAddr,
    pub protocol: TransportProtocol,
    pub process: ProbeProcess,
}

/// One line of a connection scan.
#[derive(Clone, Copy, Debug, PartialEq, Eq)]
pub struct ConnectionRecord {
    pub local: SocketAddr,
    pub remote: Option<SocketAddr>,
    pub protocol: TransportProtocol,
    pub pid: u32,
    pub state: Option<u32>,
}

/// A socket and a process that listens on it.
#[derive(Debug, PartialEq, Eq)]
pub struct IndexEntry {
    pub socket: LocalSocket,
    pub process: ProbeProcess,
}

/// A listener scan, with the connection scan made along with it.
pub struct ProcessSnapshot {
    pub captured_at: u128,
    pub listeners: Vec<ListenerSnapshot>,
    pub index: Vec<IndexEntry>,
    pub connections: Option<Vec<ConnectionRecord>>,
    pub connections_queried: bool,
}

/// How often and how long the worker scanned. The numbers wrap around.
#[derive(Clone, Copy, Debug, PartialEq, Eq, Structural)]
pub struct ProbeMetrics {
    pub query_count: u64,
    pub query_duration_nanos: u64,
    pub last_query_duration_nanos: u64,
}

/// The requests under way and the answers not yet taken.
pub struct ProcessProbe {
    pub in_flight: SocketMap<ProbeRequestId>,
    pub queue: Vec<ProbeRequest>,
    pub results: Vec<ProbeResult>,
    pub next_request_id: u64,
    pub connected: bool,
    pub metrics: ProbeMetrics,
}

/// A request as a mathematical value.
pub ghost struct RequestView {
    pub id: ProbeRequestId,
    pub socket: LocalSocket,
    pub peers: Seq<SocketAddr>,
}

/// A probe as a mathematical value.
pub ghost struct ProbeView {
    pub in_flight: Map<LocalSocket, ProbeRequestId>,
    pub queue: Seq<RequestView>,
    pub results: Seq<ProbeResult>,
    pub next_request_id: u64,
    pub connected: bool,
    pub metrics: ProbeMetrics,
}

impl View for ProbeRequest {
    type V = RequestView;

    open spec fn view(&self) -> RequestView {
        RequestView { id: self.id, socket: self.socket, peers: self.peers@ }
    }
}

impl View for ProcessProbe {
    type V = ProbeView;

    open spec fn view(&self) -> ProbeView {
        ProbeView {
            in_flight: self.in_flight@,
            queue: self.queue@.map_values(|request: ProbeRequest| request@),
            results: self.results@,
            next_request_id: self.next_request_id,
            connected: self.connected,
            metrics: self.metrics,
        }
    }
}

impl ProbeView {
    /// What becomes of a request for a socket.
    pub open spec fn outcome(self, socket: LocalSocket) -> ProbeRequestOutcome {
        if self.in_flight.contains_key(socket) {
            ProbeRequestOutcome::InFlight(self.in_flight[socket])
        } else if self.connected && self.queue.len() < REQUEST_CHANNEL_CAPACITY {
            ProbeRequestOutcome::Queued(ProbeRequestId(self.next_request_id))
        } else {
            ProbeRequestOutcome::Unavailable
        }
    }

    /// The probe once a request for a socket has been made. Every request that
    /// is not already under way uses up a number.
    pub open spec fn requested(self, socket: LocalSocket, peers: Seq<SocketAddr>) -> ProbeView {
        match self.outcome(socket) {
            ProbeRequestOutcome::InFlight(_) => self,
            ProbeRequestOutcome::Queued(id) => ProbeView {
                in_flight: self.in_flight.insert(socket, id),
                queue: self.queue.push(RequestView { id, socket, peers }),
                next_request_id: self.next_request_id.wrapping_add(1),
                ..self
            },
            ProbeRequestOutcome::Unavailable => ProbeView {
                next_request_id: self.next_request_id.wrapping_add(1),
                ..self
            },
        }
    }
}

impl ProbeResult {
    /// The number of the request that is answered.
    pub open spec fn id_spec(self) -> ProbeRequestId {
        match self {
            ProbeResult::Unique { request_id, .. } => request_id,
            ProbeResult::NotFound { request_id, .. } => request_id,
            ProbeResult::Ambiguous { request_id, .. } => request_id,
            ProbeResult::Unavailable { request_id, .. } => request_id,
            ProbeResult::ConnectionMatches { request_id, .. } => request_id,
        }
    }

    /// The socket that was asked about.
    pub open spec fn socket_spec(self) -> LocalSocket {
        match self {
            ProbeResult::Unique { socket, .. } => socket,
            ProbeResult::NotFound { socket, .. } => socket,
            ProbeResult::Ambiguous { socket, .. } => socket,
            ProbeResult::Unavailable { socket, .. } => socket,
            ProbeResult::ConnectionMatches { socket, .. } => socket,
        }
    }

    /// The number of the request that is answered.
    pub fn request_id(&self) -> (id: ProbeRequestId)
        ensures
            id == self.id_spec(),
    {
        match self {
            ProbeResult::Unique { request_id, .. } => *request_id,
            ProbeResult::NotFound { request_id, .. } => *request_id,
            ProbeResult::Ambiguous { request_id, .. } => *request_id,
            ProbeResult::Unavailable { request_id, .. } => *request_id,
            ProbeResult::ConnectionMatches { request_id, .. } => *request_id,
        }
    }

    /// The socket that was asked about.
    pub fn socket(&self) -> (socket: LocalSocket)
        ensures
            socket == self.socket_spec(),
    {
        match self {
            ProbeResult::Unique { socket, .. } => *socket,
            ProbeResult::NotFound { socket, .. } => *socket,
            ProbeResult::Ambiguous { socket, .. } => *socket,
            ProbeResult::Unavailable { socket, .. } => *socket,
            ProbeResult::ConnectionMatches { socket, .. } => *socket,
        }
    }
}

/// Whether a process is indexed under a socket.
pub open spec fn indexes(index: Seq<IndexEntry>, socket: LocalSocket, pid: u32) -> bool {
    exists|i: int|
        0 <= i < index.len() && (#[trigger] index[i]).socket == socket && index[i].process.pid
            == pid
}

/// The index with a process added under each socket where it is not yet listed.
pub open spec fn index_with(
    index: Seq<IndexEntry>,
    keys: Seq<(LocalSocket, bool)>,
    process: ProbeProcess,
) -> Seq<IndexEntry>
    decreases keys.len(),
{
    if keys.len() == 0 {
        index
    } else {
        let prior = index_with(index, keys.drop_last(), process);
        if indexes(prior, keys.last().0, process.pid) {
            prior
        } else {
            prior.push(IndexEntry { socket: keys.last().0, process })
        }
    }
}

/// The socket that a scan line is about.
pub open spec fn listener_socket(listener: ListenerSnapshot) -> LocalSocket {
    LocalSocket { ip: listener.socket.ip, port: listener.socket.port, protocol: listener.protocol }
}

/// The listening processes by socket. The first line for a socket and a process counts.
pub open spec fn index_of(listeners: Seq<ListenerSnapshot>) -> Seq<IndexEntry>
    decreases listeners.len(),
{
    if listeners.len() == 0 {
        Seq::empty()
    } else {
        index_with(
            index_of(listeners.drop_last()),
            keys_of(listener_socket(listeners.last())),
            listeners.last().process,
        )
    }
}

/// The processes indexed under a socket.
pub open spec fn listening(index: Seq<IndexEntry>, socket: LocalSocket) -> Seq<ProbeProcess> {
    index.filter(|entry: IndexEntry| entry.socket == socket).map_values(
        |entry: IndexEntry| entry.process,
    )
}

/// The processes that may own a socket: those indexed under it, else those
/// under the wildcard address with the same port.
pub open spec fn possible_owners(index: Seq<IndexEntry>, socket: LocalSocket) -> Seq<ProbeProcess> {
    if listening(index, socket).len() > 0 {
        listening(index, socket)
    } else {
        listening(index, socket.at_spec(wildcard_spec(socket.ip)))
    }
}

/// The answer that the index gives for a socket.
pub open spec fn socket_answer(
    request_id: ProbeRequestId,
    socket: LocalSocket,
    index: Seq<IndexEntry>,
) -> ProbeResult {
    let owners = possible_owners(index, socket);
    if owners.len() == 0 {
        ProbeResult::NotFound { request_id, socket }
    } else if owners.len() == 1 {
        ProbeResult::Unique { request_id, socket, process: owners[0] }
    } else {
        ProbeResult::Ambiguous { request_id, socket, candidate_count: owners.len() as usize }
    }
}

fn is_indexed(index: &Vec<IndexEntry>, socket: LocalSocket, pid: u32) -> (indexed: bool)
    ensures
        indexed == indexes(index@, socket, pid),
{
    let mut i: usize = 0;
    while i < index.len()
        invariant
            i <= index@.len(),
            forall|j: int|
                0 <= j < i ==> !((#[trigger] index@[j]).socket == socket && index@[j].process.pid
                    == pid),
        decreases index@.len() - i,
    {
        if index[i].socket == socket && index[i].process.pid == pid {
            return true;
        }
        i += 1;
    }
    false
}

/// The listening processes by socket.
pub fn listener_index(listeners: &Vec<ListenerSnapshot>) -> (index: Vec<IndexEntry>)
    ensures
        index@ == index_of(listeners@),
{
    let mut index: Vec<IndexEntry> = Vec::new();
    let mut i: usize = 0;
    assert(listeners@.take(0) =~= Seq::<ListenerSnapshot>::empty());
    while i < listeners.len()
        invariant
            i <= listeners@.len(),
            index@ == index_of(listeners@.take(i as int)),
        decreases listeners@.len() - i,
    {
        let listener = &listeners[i];
        assert(listeners@.take(i + 1).drop_last() =~= listeners@.take(i as int));
        let keys = socket_keys(
            LocalSocket {
                ip: listener.socket.ip,
                port: listener.socket.port,
                protocol: listener.protocol,
            },
        );
        let ghost before = index@;
        let mut k: usize = 0;
        assert(keys@.take(0) =~= Seq::<(LocalSocket, bool)>::empty());
        while k < keys.len()
            invariant
                k <= keys@.len(),
                index@ == index_with(before, keys@.take(k as int), listener.process),
            decreases keys@.len() - k,
        {
            assert(keys@.take(k + 1).drop_last() =~= keys@.take(k as int));
            if !is_indexed(&index, keys[k].0, listener.process.pid) {
                index.push(IndexEntry { socket: keys[k].0, process: listener.process.clone() });
            }
            k += 1;
        }
        assert(keys@.take(k as int) =~= keys@);
        i += 1;
    }
    assert(listeners@.take(i as int) =~= listeners@);
    index
}

/// How many processes are indexed under a socket, and the first of them.
fn listeners_on(index: &Vec<IndexEntry>, socket: LocalSocket) -> (found: (usize, Option<usize>))
    ensures
        found.0 == listening(index@, socket).len(),
        match found.1 {
            Some(i) => i < index@.len() && found.0 > 0 && index@[i as int].process == listening(
                index@,
                socket,
            )[0],
            None => found.0 == 0,
        },
{
    let ghost pick = |entry: IndexEntry| entry.socket == socket;
    let ghost owner = |entry: IndexEntry| entry.process;
    let mut count: usize = 0;
    let mut first: Option<usize> = None;
    let mut i: usize = 0;
    proof {
        reveal(Seq::filter);
    }
    while i < index.len()
        invariant
            i <= index@.len(),
            count <= i,
            pick == (|entry: IndexEntry| entry.socket == socket),
            owner == (|entry: IndexEntry| entry.process),
            count == index@.take(i as int).filter(pick).map_values(owner).len(),
            match first {
                Some(f) => f < i && count > 0 && index@[f as int].process == index@.take(
                    i as int,
                ).filter(pick).map_values(owner)[0],
                None => count == 0,
            },
        decreases index@.len() - i,
    {
        proof {
            reveal(Seq::filter);
            assert(index@.take(i + 1).drop_last() =~= index@.take(i as int));
        }
        if index[i].socket == socket {
            if first.is_none() {
                first = Some(i);
            }
            count += 1;
        }
        i += 1;
    }
    assert(index@.take(i as int) =~= index@);
    (count, first)
}

/// The answer that the index gives for a socket.
pub fn resolve_socket(
    request_id: ProbeRequestId,
    socket: LocalSocket,
    index: &Vec<IndexEntry>,
) -> (result: ProbeResult)
    ensures
        result == socket_answer(request_id, socket, index@),
{
    let mut found = listeners_on(index, socket);
    if found.0 == 0 {
        found = listeners_on(index, socket.at(wildcard_for(socket.ip)));
    }
    match found.1 {
        None => ProbeResult::NotFound { request_id, socket },
        Some(i) => {
            if found.0 == 1 {
                ProbeResult::Unique { request_id, socket, process: index[i].process.clone() }
            } else {
                ProbeResult::Ambiguous { request_id, socket, candidate_count: found.0 }
            }
        },
    }
}

/// Whether a connection scan can tell the peers of a request apart: TCP, with
/// at least one peer to match.
pub open spec fn wants_connections(request: ProbeRequest) -> bool {
    request.socket.protocol == TransportProtocol::Tcp && request.peers@.len() > 0
}

/// Whether a connection scan can tell the peers of a request apart.
pub fn requires_connection_probe(request: &ProbeRequest) -> (wanted: bool)
    ensures
        wanted == wants_connections(*request),
{
    request.socket.protocol == TransportProtocol::Tcp && request.peers.len() > 0
}

/// Whether a scanned connection runs between the socket and the peer.
pub open spec fn connects(connection: ConnectionRecord, socket: LocalSocket, peer: SocketAddr) -> bool {
    &&& connection.local.ip == socket.ip
    &&& connection.local.port == socket.port
    &&& connection.protocol == socket.protocol
    &&& connection.remote == Some(peer)
}

/// The owners of the scanned connections between the socket and the peer.
pub open spec fn connection_pids(
    connections: Seq<ConnectionRecord>,
    socket: LocalSocket,
    peer: SocketAddr,
) -> Seq<u32> {
    connections.filter(
        |connection: ConnectionRecord| connects(connection, socket, peer),
    ).map_values(|connection: ConnectionRecord| connection.pid)
}

/// The one value that a list repeats.
pub open spec fn sole(pids: Seq<u32>) -> Option<u32> {
    if pids.len() > 0 && forall|i: int| 0 <= i < pids.len() ==> #[trigger] pids[i] == pids[0] {
        Some(pids[0])
    } else {
        None
    }
}

/// What the listener scan says of a process: its last line for it, or only its number.
pub open spec fn described(listeners: Seq<ListenerSnapshot>, pid: u32) -> ProbeProcess
    decreases listeners.len(),
{
    if listeners.len() == 0 {
        ProbeProcess { pid, name: None, path: None }
    } else if listeners.last().process.pid == pid {
        listeners.last().process
    } else {
        described(listeners.drop_last(), pid)
    }
}

/// The peers, in order, whose connections have one owner, with that owner.
pub open spec fn connection_matches(
    peers: Seq<SocketAddr>,
    socket: LocalSocket,
    connections: Seq<ConnectionRecord>,
    listeners: Seq<ListenerSnapshot>,
) -> Seq<ConnectionMatch>
    decreases peers.len(),
{
    if peers.len() == 0 {
        Seq::empty()
    } else {
        let prior = connection_matches(peers.drop_last(), socket, connections, listeners);
        match sole(connection_pids(connections, socket, peers.last())) {
            Some(pid) => prior.push(
                ConnectionMatch { peer: peers.last(), process: described(listeners, pid) },
            ),
            None => prior,
        }
    }
}

/// Whether any scanned connection runs between the socket and one of the peers.
pub open spec fn any_connection(
    peers: Seq<SocketAddr>,
    socket: LocalSocket,
    connections: Seq<ConnectionRecord>,
) -> bool {
    exists|i: int|
        0 <= i < peers.len() && connection_pids(connections, socket, #[trigger] peers[i]).len() > 0
}

/// Whether the answer is what the connection scan, or without any connection of
/// the request the listener index, says.
pub open spec fn connection_answer(
    request: ProbeRequest,
    connections: Seq<ConnectionRecord>,
    listeners: Seq<ListenerSnapshot>,
    index: Seq<IndexEntry>,
    result: ProbeResult,
) -> bool {
    if any_connection(request.peers@, request.socket, connections) {
        &&& result matches ProbeResult::ConnectionMatches { request_id, socket, matches }
        &&& request_id == request.id
        &&& socket == request.socket
        &&& matches@ == connection_matches(
            request.peers@,
            request.socket,
            connections,
            listeners,
        )
    } else {
        result == socket_answer(request.id, request.socket, index)
    }
}

/// The owners of the scanned connections between the socket and the peer: how
/// many there are, and the one value if they all agree.
fn connection_owner(
    connections: &Vec<ConnectionRecord>,
    socket: LocalSocket,
    peer: SocketAddr,
) -> (found: (bool, Option<u32>))
    ensures
        found.0 == (connection_pids(connections@, socket, peer).len() > 0),
        found.1 == sole(connection_pids(connections@, socket, peer)),
{
    let ghost pick = |connection: ConnectionRecord| connects(connection, socket, peer);
    let ghost owner = |connection: ConnectionRecord| connection.pid;
    let mut first: Option<u32> = None;
    let mut agree: bool = true;
    let mut i: usize = 0;
    proof {
        reveal(Seq::filter);
    }
    while i < connections.len()
        invariant
            i <= connections@.len(),
            pick == (|connection: ConnectionRecord| connects(connection, socket, peer)),
            owner == (|connection: ConnectionRecord| connection.pid),
            ({
                let pids = connections@.take(i as int).filter(pick).map_values(owner);
                &&& first is None <==> pids.len() == 0
                &&& first matches Some(pid) ==> pids[0] == pid
                &&& agree == forall|j: int| 0 <= j < pids.len() ==> #[trigger] pids[j] == pids[0]
            }),
        decreases connections@.len() - i,
    {
        let connection = &connections[i];
        let ghost pids = connections@.take(i as int).filter(pick).map_values(owner);
        let ghost next = connections@.take(i + 1).filter(pick).map_values(owner);
        proof {
            reveal(Seq::filter);
            assert(connections@.take(i + 1).drop_last() =~= connections@.take(i as int));
        }
        let remote_matches = match connection.remote {
            Some(remote) => remote == peer,
            None => false,
        };
        if connection.local.ip == socket.ip && connection.local.port == socket.port
            && connection.protocol == socket.protocol && remote_matches {
            assert(next =~= pids.push(connection.pid));
            match first {
                Some(pid) => {
                    if pid != connection.pid {
                        assert(next[pids.len() as int] != next[0]);
                        agree = false;
                    } else {
                        assert(agree == forall|j: int|
                            0 <= j < next.len() ==> #[trigger] next[j] == next[0]) by {
                            if !agree {
                                let j = choose|j: int|
                                    0 <= j < pids.len() && #[trigger] pids[j] != pids[0];
                                assert(next[j] != next[0]);
                            }
                        }
                    }
                },
                None => {
                    first = Some(connection.pid);
                },
            }
        } else {
            assert(next =~= pids);
        }
        i += 1;
    }
    assert(connections@.take(i as int) =~= connections@);
    (
        first.is_some(),
        if agree {
            first
        } else {
            None
        },
    )
}

fn describe(listeners: &Vec<ListenerSnapshot>, pid: u32) -> (process: ProbeProcess)
    ensures
        process == described(listeners@, pid),
{
    let mut i: usize = listeners.len();
    assert(listeners@.take(i as int) =~= listeners@);
    while i > 0
        invariant
            i <= listeners@.len(),
            described(listeners@, pid) == described(listeners@.take(i as int), pid),
        decreases i,
    {
        assert(listeners@.take(i as int).drop_last() =~= listeners@.take(i - 1));
        if listeners[i - 1].process.pid == pid {
            return listeners[i - 1].process.clone();
        }
        i -= 1;
    }
    ProbeProcess { pid, name: None, path: None }
}

/// The owners of a socket's connections, peer by peer. A peer whose connections
/// have several owners is left out. Without any connection of the request in the
/// scan the listener index answers.
pub fn resolve_connections(
    request: &ProbeRequest,
    connections: &Vec<ConnectionRecord>,
    listeners: &Vec<ListenerSnapshot>,
    index: &Vec<IndexEntry>,
) -> (result: ProbeResult)
    ensures
        connection_answer(*request, connections@, listeners@, index@, result),
{
    let mut has_endpoint_records: bool = false;
    let mut matches: Vec<ConnectionMatch> = Vec::new();
    let mut i: usize = 0;
    assert(request.peers@.take(0) =~= Seq::<SocketAddr>::empty());
    while i < request.peers.len()
        invariant
            i <= request.peers@.len(),
            has_endpoint_records == any_connection(
                request.peers@.take(i as int),
                request.socket,
                connections@,
            ),
            matches@ == connection_matches(
                request.peers@.take(i as int),
                request.socket,
                connections@,
                listeners@,
            ),
        decreases request.peers@.len() - i,
    {
        let peer = request.peers[i];
        let ghost shorter = request.peers@.take(i as int);
        let ghost longer = request.peers@.take(i + 1);
        assert(longer.drop_last() =~= shorter);
        let (any, owner) = connection_owner(connections, request.socket, peer);
        proof {
            assert(longer[i as int] == peer);
            if any_connection(shorter, request.socket, connections@) {
                let j = choose|j: int|
                    0 <= j < shorter.len() && connection_pids(
                        connections@,
                        request.socket,
                        #[trigger] shorter[j],
                    ).len() > 0;
                assert(longer[j] == shorter[j]);
            }
            if any_connection(longer, request.socket, connections@) && !any {
                let j = choose|j: int|
                    0 <= j < longer.len() && connection_pids(
                        connections@,
                        request.socket,
                        #[trigger] longer[j],
                    ).len() > 0;
                assert(shorter[j] == longer[j]);
            }
        }
        if any {
            has_endpoint_records = true;
        }
        if let Some(pid) = owner {
            matches.push(ConnectionMatch { peer, process: describe(listeners, pid) });
        }
        i += 1;
    }
    assert(request.peers@.take(i as int) =~= request.peers@);
    if !has_endpoint_records {
        return resolve_socket(request.id, request.socket, index);
    }
    ProbeResult::ConnectionMatches { request_id: request.id, socket: request.socket, matches }
}

/// Whether the answer to one request is what the scans say.
pub open spec fn answers(
    request: ProbeRequest,
    listeners: Seq<ListenerSnapshot>,
    index: Seq<IndexEntry>,
    connections: Option<Seq<ConnectionRecord>>,
    result: ProbeResult,
) -> bool {
    match connections {
        Some(connections) if wants_connections(request) => connection_answer(
            request,
            connections,
            listeners,
            index,
            result,
        ),
        _ => result == socket_answer(request.id, request.socket, index),
    }
}

/// The connections of a snapshot, if they could be scanned.
pub open spec fn scanned_connections(snapshot: ProcessSnapshot) -> Option<Seq<ConnectionRecord>> {
    match snapshot.connections {
        Some(connections) => Some(connections@),
        None => None,
    }
}

/// Answers every request in order, from the snapshot or with the error that
/// kept it from being taken.
pub fn resolve_snapshot_batch(
    requests: &Vec<ProbeRequest>,
    snapshot: Result<&ProcessSnapshot, String>,
) -> (results: Vec<ProbeResult>)
    ensures
        results@.len() == requests@.len(),
        forall|i: int|
            0 <= i < requests@.len() ==> match snapshot {
                Ok(snapshot) => answers(
                    requests@[i],
                    snapshot.listeners@,
                    snapshot.index@,
                    scanned_connections(*snapshot),
                    #[trigger] results@[i],
                ),
                Err(error) => {
                    &&& #[trigger] results@[i] matches ProbeResult::Unavailable {
                        request_id,
                        socket,
                        error: given,
                    }
                    &&& request_id == requests@[i].id
                    &&& socket == requests@[i].socket
                    &&& given == error
                },
            },
{
    let mut results: Vec<ProbeResult> = Vec::new();
    let mut i: usize = 0;
    while i < requests.len()
        invariant
            i <= requests@.len(),
            results@.len() == i,
            forall|j: int|
                0 <= j < i ==> match snapshot {
                    Ok(snapshot) => answers(
                        requests@[j],
                        snapshot.listeners@,
                        snapshot.index@,
                        scanned_connections(*snapshot),
                        #[trigger] results@[j],
                    ),
                    Err(error) => {
                        &&& #[trigger] results@[j] matches ProbeResult::Unavailable {
                            request_id,
                            socket,
                            error: given,
                        }
                        &&& request_id == requests@[j].id
                        &&& socket == requests@[j].socket
                        &&& given == error
                    },
                },
        decreases requests@.len() - i,
    {
        let request = &requests[i];
        let result = match &snapshot {
            Ok(snapshot) => {
                match &snapshot.connections {
                    Some(connections) if requires_connection_probe(request) => {
                        resolve_connections(
                            request,
                            connections,
                            &snapshot.listeners,
                            &snapshot.index,
                        )
                    },
                    _ => resolve_socket(request.id, request.socket, &snapshot.index),
                }
            },
            Err(error) => ProbeResult::Unavailable {
                request_id: request.id,
                socket: request.socket,
                error: error.clone(),
            },
        };
        results.push(result);
        i += 1;
    }
    results
}

/// Whether any of the requests wants a connection scan.
pub open spec fn any_wants_connections(requests: Seq<ProbeRequest>) -> bool {
    exists|i: int| 0 <= i < requests.len() && wants_connections(#[trigger] requests[i])
}

/// Whether any of the requests wants a connection scan.
pub fn needs_connections(requests: &Vec<ProbeRequest>) -> (needed: bool)
    ensures
        needed == any_wants_connections(requests@),
{
    let mut i: usize = 0;
    while i < requests.len()
        invariant
            i <= requests@.len(),
            forall|j: int| 0 <= j < i ==> !wants_connections(#[trigger] requests@[j]),
        decreases requests@.len() - i,
    {
        if requires_connection_probe(&requests[i]) {
            return true;
        }
        i += 1;
    }
    false
}

/// How long ago a snapshot was taken.
pub open spec fn age_of(snapshot: ProcessSnapshot, now: u128) -> int {
    if now > snapshot.captured_at {
        now - snapshot.captured_at
    } else {
        0
    }
}

/// Whether a snapshot still answers requests made at `now`: it is younger than the
/// interval, and connections were scanned if they are needed.
pub open spec fn usable_at(
    snapshot: ProcessSnapshot,
    now: u128,
    interval: u128,
    connections_needed: bool,
) -> bool {
    age_of(snapshot, now) < interval && (connections_needed ==> snapshot.connections_queried)
}

/// Whether the snapshot at hand still answers requests made at `now`.
pub fn snapshot_is_usable(
    snapshot: &ProcessSnapshot,
    now: u128,
    interval: u128,
    connections_needed: bool,
) -> (usable: bool)
    ensures
        usable == usable_at(*snapshot, now, interval, connections_needed),
{
    now.saturating_sub(snapshot.captured_at) < interval && (!connections_needed
        || snapshot.connections_queried)
}

/// A snapshot of the scans.
pub fn process_snapshot(
    captured_at: u128,
    listeners: Vec<ListenerSnapshot>,
    connections: Option<Vec<ConnectionRecord>>,
    connections_queried: bool,
) -> (snapshot: ProcessSnapshot)
    ensures
        snapshot.captured_at == captured_at,
        snapshot.listeners == listeners,
        snapshot.index@ == index_of(listeners@),
        snapshot.connections == connections,
        snapshot.connections_queried == connections_queried,
{
    let index = listener_index(&listeners);
    ProcessSnapshot { captured_at, listeners, index, connections, connections_queried }
}

/// The process that the system describes by its number, name and path.
pub fn probe_process(pid: u32, name: &String, path: &String, style: PathStyle) -> (process:
    ProbeProcess)
    ensures
        process.pid == pid,
        text_view(process.name) == shown_name(style, name@, path@),
        text_view(process.path) == nonempty(path@),
{
    ProbeProcess { pid, name: process_name(name, path, style), path: nonempty_text(path) }
}

impl ProbeMetrics {
    /// The numbers after a scan that took `elapsed` nanoseconds.
    pub fn record_query(&mut self, elapsed: u128)
        ensures
            ({
                let nanos = if elapsed > u64::MAX {
                    u64::MAX
                } else {
                    elapsed as u64
                };
                *final(self) == (ProbeMetrics {
                    query_count: old(self).query_count.wrapping_add(1),
                    query_duration_nanos: old(self).query_duration_nanos.wrapping_add(nanos),
                    last_query_duration_nanos: nanos,
                })
            }),
    {
        let nanos: u64 = if elapsed > u64::MAX as u128 {
            u64::MAX
        } else {
            elapsed as u64
        };
        self.query_count = self.query_count.wrapping_add(1);
        self.query_duration_nanos = self.query_duration_nanos.wrapping_add(nanos);
        self.last_query_duration_nanos = nanos;
    }
}

/// What the worker does for a batch of requests.
#[derive(Clone, Copy, Debug, PartialEq, Eq, Structural)]
pub struct ScanPlan {
    /// Whether the system has to be scanned.
    pub scan: bool,
    /// Whether a scan has to cover connections.
    pub connections: bool,
}

/// Answers requests in batches, from a scan of the system that is kept for a while.
pub struct ProbeWorker {
    pub snapshot: Option<ProcessSnapshot>,
    pub refresh_interval: u128,
}

/// Whether every request is answered in order: from the snapshot, or with the error that
/// kept it from being taken.
pub open spec fn batch_answered(
    requests: Seq<ProbeRequest>,
    snapshot: Result<ProcessSnapshot, String>,
    results: Seq<ProbeResult>,
) -> bool {
    &&& results.len() == requests.len()
    &&& forall|i: int|
        0 <= i < requests.len() ==> match snapshot {
            Ok(snapshot) => answers(
                requests[i],
                snapshot.listeners@,
                snapshot.index@,
                scanned_connections(snapshot),
                #[trigger] results[i],
            ),
            Err(error) => {
                &&& #[trigger] results[i] matches ProbeResult::Unavailable {
                    request_id,
                    socket,
                    error: given,
                }
                &&& request_id == requests[i].id
                &&& socket == requests[i].socket
                &&& given == error
            },
        }
}

/// What to do for a batch of requests: scan unless the last scan still answers them.
pub open spec fn planned(worker: ProbeWorker, requests: Seq<ProbeRequest>, now: u128) -> ScanPlan {
    let connections = any_wants_connections(requests);
    ScanPlan {
        scan: match worker.snapshot {
            Some(snapshot) => !usable_at(snapshot, now, worker.refresh_interval, connections),
            None => true,
        },
        connections,
    }
}

/// Whether a batch of requests got these results, after a scan or from the last one; a scan
/// that could be made is kept.
pub open spec fn served(
    before: ProbeWorker,
    requests: Seq<ProbeRequest>,
    scanned: Option<Result<ProcessSnapshot, String>>,
    after: ProbeWorker,
    results: Seq<ProbeResult>,
) -> bool {
    &&& after.refresh_interval == before.refresh_interval
    &&& after.snapshot == match scanned {
        Some(Ok(snapshot)) => Some(snapshot),
        _ => before.snapshot,
    }
    &&& batch_answered(
        requests,
        match scanned {
            Some(scanned) => scanned,
            None => Ok(before.snapshot->0),
        },
        results,
    )
}

impl ProbeWorker {
    /// Before the first scan.
    pub fn new(refresh_interval: u128) -> (worker: Self)
        ensures
            worker.snapshot is None,
            worker.refresh_interval == refresh_interval,
    {
        ProbeWorker { snapshot: None, refresh_interval }
    }

    /// What to do for a batch of requests: scan unless the last scan still answers them.
    pub fn plan(&self, requests: &Vec<ProbeRequest>, now: u128) -> (plan: ScanPlan)
        ensures
            plan == planned(*self, requests@, now),
    {
        let connections = needs_connections(requests);
        let scan = match &self.snapshot {
            Some(snapshot) => !snapshot_is_usable(
                snapshot,
                now,
                self.refresh_interval,
                connections,
            ),
            None => true,
        };
        ScanPlan { scan, connections }
    }

    /// Answers a batch of requests: after the scan that the plan asked for, else from the
    /// last one.
    pub fn serve(
        &mut self,
        requests: &Vec<ProbeRequest>,
        scanned: Option<Result<ProcessSnapshot, String>>,
    ) -> (results: Vec<ProbeResult>)
        requires
            scanned is None ==> old(self).snapshot is Some,
        ensures
            served(*old(self), requests@, scanned, *final(self), results@),
    {
        match scanned {
            Some(scanned) => self.answer_after_scan(requests, scanned),
            None => self.answer(requests),
        }
    }

    /// Answers a batch of requests after a scan, which is kept if it could be made.
    pub fn answer_after_scan(
        &mut self,
        requests: &Vec<ProbeRequest>,
        scanned: Result<ProcessSnapshot, String>,
    ) -> (results: Vec<ProbeResult>)
        ensures
            final(self).refresh_interval == old(self).refresh_interval,
            final(self).snapshot == match scanned {
                Ok(snapshot) => Some(snapshot),
                Err(_) => old(self).snapshot,
            },
            batch_answered(requests@, scanned, results@),
    {
        match scanned {
            Ok(snapshot) => {
                let results = resolve_snapshot_batch(requests, Ok(&snapshot));
                self.snapshot = Some(snapshot);
                results
            },
            Err(error) => resolve_snapshot_batch(requests, Err(error)),
        }
    }

    /// Answers a batch of requests from the last scan.
    pub fn answer(&self, requests: &Vec<ProbeRequest>) -> (results: Vec<ProbeResult>)
        requires
            self.snapshot is Some,
        ensures
            batch_answered(requests@, Ok(self.snapshot->0), results@),
    {
        match &self.snapshot {
            Some(snapshot) => resolve_snapshot_batch(requests, Ok(snapshot)),
            None => Vec::new(),
        }
    }
}

/// Whether some answer settles the request that is under way for a socket.
pub open spec fn settles(results: Seq<ProbeResult>, socket: LocalSocket, id: ProbeRequestId) -> bool {
    exists|i: int|
        0 <= i < results.len() && (#[trigger] results[i]).socket_spec() == socket
            && results[i].id_spec() == id
}

/// The requests under way that no answer settles.
pub open spec fn left_in_flight(
    in_flight: Map<LocalSocket, ProbeRequestId>,
    results: Seq<ProbeResult>,
) -> Map<LocalSocket, ProbeRequestId> {
    in_flight.remove_keys(
        Set::new(
            |socket: LocalSocket|
                in_flight.contains_key(socket) && settles(results, socket, in_flight[socket]),
        ),
    )
}

impl ProcessProbe {
    /// Each socket has at most one request under way, and the queue is bounded.
    pub open spec fn wf(self) -> bool {
        &&& self.in_flight.wf()
        &&& self.queue@.len() <= REQUEST_CHANNEL_CAPACITY
    }

    /// A probe with a worker and nothing to do.
    pub fn new() -> (probe: Self)
        ensures
            probe.wf(),
            probe.in_flight@ == Map::<LocalSocket, ProbeRequestId>::empty(),
            probe.queue@.len() == 0,
            probe.results@.len() == 0,
            probe.next_request_id == 1,
            probe.connected,
            probe.metrics == (ProbeMetrics {
                query_count: 0,
                query_duration_nanos: 0,
                last_query_duration_nanos: 0,
            }),
    {
        ProcessProbe {
            in_flight: SocketMap::new(),
            queue: Vec::new(),
            results: Vec::new(),
            next_request_id: 1,
            connected: true,
            metrics: ProbeMetrics {
                query_count: 0,
                query_duration_nanos: 0,
                last_query_duration_nanos: 0,
            },
        }
    }

    /// Asks for the owner of a socket, with the peers of its connections.
    pub fn request_for_peers(&mut self, socket: LocalSocket, peers: Vec<SocketAddr>) -> (outcome:
        ProbeRequestOutcome)
        requires
            old(self).wf(),
        ensures
            final(self).wf(),
            outcome == old(self)@.outcome(socket),
            final(self)@ == old(self)@.requested(socket, peers@),
            final(self).results == old(self).results,
            final(self).metrics == old(self).metrics,
    {
        if let Some(id) = self.in_flight.get(socket) {
            return ProbeRequestOutcome::InFlight(id);
        }
        let id = ProbeRequestId(self.next_request_id);
        self.next_request_id = self.next_request_id.wrapping_add(1);
        if self.connected && self.queue.len() < REQUEST_CHANNEL_CAPACITY {
            self.in_flight.insert(socket, id);
            let request = ProbeRequest { id, socket, peers };
            self.queue.push(request);
            assert(self@.queue =~= old(self)@.queue.push(request@));
            ProbeRequestOutcome::Queued(id)
        } else {
            ProbeRequestOutcome::Unavailable
        }
    }

    /// Asks for the owner of a socket.
    pub fn request(&mut self, socket: LocalSocket) -> (outcome: ProbeRequestOutcome)
        requires
            old(self).wf(),
        ensures
            final(self).wf(),
            outcome == old(self)@.outcome(socket),
            final(self)@ == old(self)@.requested(socket, Seq::empty()),
            final(self).results == old(self).results,
            final(self).metrics == old(self).metrics,
    {
        self.request_for_peers(socket, Vec::new())
    }

    /// Hands every waiting request to the worker, in order.
    pub fn take_requests(&mut self) -> (requests: Vec<ProbeRequest>)
        requires
            old(self).wf(),
        ensures
            final(self).wf(),
            requests == old(self).queue,
            final(self).queue@.len() == 0,
            final(self).in_flight == old(self).in_flight,
            final(self).results == old(self).results,
            final(self).next_request_id == old(self).next_request_id,
            final(self).connected == old(self).connected,
            final(self).metrics == old(self).metrics,
    {
        let mut requests: Vec<ProbeRequest> = Vec::new();
        std::mem::swap(&mut requests, &mut self.queue);
        requests
    }

    /// Takes the worker's answers in. An answer ends its request.
    pub fn deliver(&mut self, results: Vec<ProbeResult>)
        requires
            old(self).wf(),
        ensures
            final(self).wf(),
            final(self).results@ == old(self).results@ + results@,
            final(self).in_flight@ == left_in_flight(old(self).in_flight@, results@),
            final(self).queue == old(self).queue,
            final(self).next_request_id == old(self).next_request_id,
            final(self).connected == old(self).connected,
            final(self).metrics == old(self).metrics,
    {
        let ghost before = self.in_flight@;
        let mut i: usize = 0;
        proof {
            assert forall|socket: LocalSocket| #[trigger]
                before.contains_key(socket) implies !settles(
                results@.take(0),
                socket,
                before[socket],
            ) by {}
        }
        while i < results.len()
            invariant
                i <= results@.len(),
                self.wf(),
                forall|socket: LocalSocket| #[trigger]
                    self.in_flight@.contains_key(socket) <==> before.contains_key(socket)
                        && !settles(results@.take(i as int), socket, before[socket]),
                forall|socket: LocalSocket| #[trigger]
                    self.in_flight@.contains_key(socket) ==> self.in_flight@[socket]
                        == before[socket],
                self.queue == old(self).queue,
                self.results == old(self).results,
                self.next_request_id == old(self).next_request_id,
                self.connected == old(self).connected,
                self.metrics == old(self).metrics,
            decreases results@.len() - i,
        {
            let socket = results[i].socket();
            let id = results[i].request_id();
            let ghost shorter = results@.take(i as int);
            let ghost longer = results@.take(i + 1);
            let ghost held = self.in_flight@;
            let settled = match self.in_flight.get(socket) {
                Some(current) => current == id,
                None => false,
            };
            if settled {
                self.in_flight.remove(socket);
            }
            proof {
                assert forall|s: LocalSocket| #[trigger]
                    self.in_flight@.contains_key(s) <==> before.contains_key(s) && !settles(
                        longer,
                        s,
                        before[s],
                    ) by {
                    assert(longer[i as int] == results@[i as int]);
                    if settles(shorter, s, before[s]) {
                        let j = choose|j: int|
                            0 <= j < shorter.len() && (#[trigger] shorter[j]).socket_spec() == s
                                && shorter[j].id_spec() == before[s];
                        assert(longer[j] == shorter[j]);
                    }
                    if settles(longer, s, before[s]) && !settles(shorter, s, before[s]) {
                        let j = choose|j: int|
                            0 <= j < longer.len() && (#[trigger] longer[j]).socket_spec() == s
                                && longer[j].id_spec() == before[s];
                        if j < i {
                            assert(shorter[j] == longer[j]);
                        }
                        assert(j == i);
                        if before.contains_key(s) {
                            assert(held.contains_key(s));
                        }
                    }
                    assert(self.in_flight@ == held || self.in_flight@ == held.remove(socket));
                }
            }
            i += 1;
        }
        assert(results@.take(i as int) =~= results@);
        assert(self.in_flight@ =~= left_in_flight(before, results@));
        let mut answers = results;
        self.results.append(&mut answers);
    }

    /// Marks the worker as gone: nothing waits for it any more.
    pub fn disconnect(&mut self)
        requires
            old(self).wf(),
        ensures
            final(self).wf(),
            !final(self).connected,
            final(self).queue@.len() == 0,
            final(self).in_flight == old(self).in_flight,
            final(self).results == old(self).results,
            final(self).next_request_id == old(self).next_request_id,
            final(self).metrics == old(self).metrics,
    {
        self.connected = false;
        self.queue = Vec::new();
    }

    /// Takes the answers out. Once the worker is gone, every request still under
    /// way is answered as unavailable.
    pub fn drain_results(&mut self) -> (results: Vec<ProbeResult>)
        requires
            old(self).wf(),
        ensures
            final(self).wf(),
            final(self).results@.len() == 0,
            final(self).queue == old(self).queue,
            final(self).next_request_id == old(self).next_request_id,
            final(self).connected == old(self).connected,
            final(self).metrics == old(self).metrics,
            old(self).connected ==> results@ == old(self).results@ && final(self).in_flight
                == old(self).in_flight,
            !old(self).connected ==> {
                &&& final(self).in_flight@ == Map::<LocalSocket, ProbeRequestId>::empty()
                &&& abandoned(old(self).results@, old(self).in_flight.slots@, results@)
            },
    {
        let mut results: Vec<ProbeResult> = Vec::new();
        std::mem::swap(&mut results, &mut self.results);
        if self.connected {
            return results;
        }
        let ghost first = results@;
        let mut i: usize = 0;
        while i < self.in_flight.slots.len()
            invariant
                i <= self.in_flight.slots@.len(),
                results@.len() == first.len() + i,
                results@.take(first.len() as int) == first,
                forall|j: int|
                    0 <= j < i ==> gone(
                        self.in_flight.slots@[j],
                        #[trigger] results@[first.len() + j],
                    ),
                self.in_flight == old(self).in_flight,
                self.results@.len() == 0,
                self.queue == old(self).queue,
                self.next_request_id == old(self).next_request_id,
                self.connected == old(self).connected,
                self.metrics == old(self).metrics,
            decreases self.in_flight.slots@.len() - i,
        {
            let (socket, request_id) = self.in_flight.slots[i];
            let ghost so_far = results@;
            results.push(
                ProbeResult::Unavailable {
                    request_id,
                    socket,
                    error: "process probe worker disconnected".to_owned(),
                },
            );
            assert(results@.take(first.len() as int) =~= so_far.take(first.len() as int));
            i += 1;
        }
        self.in_flight = SocketMap::new();
        results
    }
}

/// Whether an answer tells that the worker is gone, for a request under way.
pub open spec fn gone(under_way: (LocalSocket, ProbeRequestId), result: ProbeResult) -> bool {
    &&& result matches ProbeResult::Unavailable { request_id, socket, error }
    &&& request_id == under_way.1
    &&& socket == under_way.0
    &&& error@ == "process probe worker disconnected"@
}

/// Whether the answers are the first ones and then one for each request under way.
pub open spec fn abandoned(
    first: Seq<ProbeResult>,
    under_way: Seq<(LocalSocket, ProbeRequestId)>,
    results: Seq<ProbeResult>,
) -> bool {
    &&& results.len() == first.len() + under_way.len()
    &&& results.take(first.len() as int) == first
    &&& forall|j: int|
        0 <= j < under_way.len() ==> gone(under_way[j], #[trigger] results[first.len() + j])
}

/// One batch of requests as the worker handles it.
pub ghost struct Batch {
    /// The worker before the batch.
    pub worker: ProbeWorker,
    pub requests: Seq<ProbeRequest>,
    pub now: u128,
    /// What the scan gave, if one was made.
    pub scanned: Option<Result<ProcessSnapshot, String>>,
    pub results: Seq<ProbeResult>,
    /// The worker after the batch.
    pub after: ProbeWorker,
}

impl Batch {
    /// Whether the worker went by its plan: one scan if it asked for one, else none.
    pub open spec fn handled(self) -> bool {
        &&& self.scanned is Some <==> planned(self.worker, self.requests, self.now).scan
        &&& served(self.worker, self.requests, self.scanned, self.after, self.results)
    }

    /// How many scans the batch took.
    pub open spec fn scans(self) -> nat {
        if self.scanned is Some {
            1
        } else {
            0
        }
    }
}

/// Whether batches were handled one after the other by one worker.
pub open spec fn handled_in_turn(batches: Seq<Batch>) -> bool {
    &&& forall|i: int| 0 <= i < batches.len() ==> (#[trigger] batches[i]).handled()
    &&& forall|i: int, j: int|
        #![trigger batches[i], batches[j]]
        0 <= i < batches.len() && j == i + 1 && j < batches.len() ==> batches[j].worker
            == batches[i].after
}

/// Whether results answer requests one for one, in their order.
pub open spec fn one_for_one(requests: Seq<ProbeRequest>, results: Seq<ProbeResult>) -> bool {
    &&& results.len() == requests.len()
    &&& forall|i: int|
        0 <= i < results.len() ==> (#[trigger] results[i]).id_spec() == requests[i].id
            && results[i].socket_spec() == requests[i].socket
}

/// The requests of batches, in order.
pub open spec fn all_requests(batches: Seq<Batch>) -> Seq<ProbeRequest>
    decreases batches.len(),
{
    if batches.len() == 0 {
        Seq::empty()
    } else {
        all_requests(batches.drop_last()) + batches.last().requests
    }
}

/// The results of batches, in order.
pub open spec fn all_results(batches: Seq<Batch>) -> Seq<ProbeResult>
    decreases batches.len(),
{
    if batches.len() == 0 {
        Seq::empty()
    } else {
        all_results(batches.drop_last()) + batches.last().results
    }
}

/// How many scans batches took.
pub open spec fn all_scans(batches: Seq<Batch>) -> nat
    decreases batches.len(),
{
    if batches.len() == 0 {
        0
    } else {
        all_scans(batches.drop_last()) + batches.last().scans()
    }
}

/// A batch is answered one for one, in order. If its scan failed, every request learns so.
pub proof fn lemma_batch_is_answered(batch: Batch)
    requires
        batch.handled(),
    ensures
        one_for_one(batch.requests, batch.results),
        batch.scanned matches Some(Err(error)) ==> forall|i: int|
            0 <= i < batch.results.len() ==> (#[trigger] batch.results[i] matches
                ProbeResult::Unavailable { error: given, .. } && given == error),
{
}

/// However the requests arrive in batches, they are answered one for one, in their order,
/// with one scan for each batch at most.
pub proof fn lemma_requests_are_answered_one_for_one(batches: Seq<Batch>)
    requires
        handled_in_turn(batches),
    ensures
        one_for_one(all_requests(batches), all_results(batches)),
        all_scans(batches) <= batches.len(),
    decreases batches.len(),
{
    if batches.len() > 0 {
        let earlier = batches.drop_last();
        let last = batches.last();
        assert forall|i: int| 0 <= i < earlier.len() implies (#[trigger] earlier[i]).handled() by {
            assert(batches[i].handled());
        }
        assert forall|i: int, j: int|
            #![trigger earlier[i], earlier[j]]
            0 <= i < earlier.len() && j == i + 1 && j < earlier.len() implies earlier[j].worker
            == earlier[i].after by {
            assert(batches[j].worker == batches[i].after);
        }
        lemma_requests_are_answered_one_for_one(earlier);
        assert(batches[batches.len() - 1].handled());
        lemma_batch_is_answered(last);
        let results = all_results(batches);
        let first = all_results(earlier);
        assert forall|i: int| 0 <= i < results.len() implies (#[trigger] results[i]).id_spec()
            == all_requests(batches)[i].id && results[i].socket_spec() == all_requests(
            batches,
        )[i].socket by {
            if i < first.len() {
                assert(results[i] == first[i]);
            } else {
                assert(results[i] == last.results[i - first.len()]);
            }
        }
    }
}

/// A scan that could be made answers later batches too: as long as it is younger than the
/// interval, and no connections are needed that it lacks, there is no other scan.
pub proof fn lemma_fresh_scan_is_reused(batches: Seq<Batch>, i: int, j: int)
    requires
        handled_in_turn(batches),
        0 <= i < j < batches.len(),
        batches[i].scanned matches Some(Ok(_)),
        forall|k: int| i < k < j ==> !((#[trigger] batches[k]).scanned matches Some(Ok(_))),
        usable_at(
            batches[i].scanned->0->Ok_0,
            batches[j].now,
            batches[i].worker.refresh_interval,
            any_wants_connections(batches[j].requests),
        ),
    ensures
        batches[j].scanned is None,
        batch_answered(
            batches[j].requests,
            Ok(batches[i].scanned->0->Ok_0),
            batches[j].results,
        ),
{
    lemma_last_scan_is_kept(batches, i, j);
    assert(batches[j].handled());
}

proof fn lemma_last_scan_is_kept(batches: Seq<Batch>, i: int, j: int)
    requires
        handled_in_turn(batches),
        0 <= i < j < batches.len(),
        batches[i].scanned matches Some(Ok(_)),
        forall|k: int| i < k < j ==> !((#[trigger] batches[k]).scanned matches Some(Ok(_))),
    ensures
        batches[j].worker.snapshot == Some(batches[i].scanned->0->Ok_0),
        batches[j].worker.refresh_interval == batches[i].worker.refresh_interval,
    decreases j - i,
{
    assert(batches[j - 1].handled());
    assert(batches[j].worker == batches[j - 1].after);
    if j - 1 > i {
        lemma_last_scan_is_kept(batches, i, j - 1);
    }
}

/// A request that was answered is not under way any more, and no other request is touched.
pub proof fn lemma_answered_requests_are_settled(
    batch: Batch,
    in_flight: Map<LocalSocket, ProbeRequestId>,
    i: int,
)
    requires
        batch.handled(),
        0 <= i < batch.requests.len(),
    ensures
        ({
            let left = left_in_flight(in_flight, batch.results);
            let request = batch.requests[i];
            &&& !(left.contains_key(request.socket) && left[request.socket] == request.id)
            &&& forall|socket: LocalSocket|
                in_flight.contains_key(socket) && (forall|k: int|
                    0 <= k < batch.requests.len() ==> (#[trigger] batch.requests[k]).socket
                        != socket || batch.requests[k].id != in_flight[socket])
                    ==> #[trigger] left.contains_key(socket) && left[socket] == in_flight[socket]
        }),
{
    lemma_batch_is_answered(batch);
    let request = batch.requests[i];
    assert(batch.results[i].id_spec() == request.id);
    if in_flight.contains_key(request.socket) && in_flight[request.socket] == request.id {
        assert(settles(batch.results, request.socket, request.id));
    }
    let left = left_in_flight(in_flight, batch.results);
    assert forall|socket: LocalSocket|
        in_flight.contains_key(socket) && (forall|k: int|
            0 <= k < batch.requests.len() ==> (#[trigger] batch.requests[k]).socket != socket
                || batch.requests[k].id != in_flight[socket]) implies #[trigger] left.contains_key(
        socket,
    ) && left[socket] == in_flight[socket] by {
        if settles(batch.results, socket, in_flight[socket]) {
            let k = choose|k: int|
                0 <= k < batch.results.len() && (#[trigger] batch.results[k]).socket_spec()
                    == socket && batch.results[k].id_spec() == in_flight[socket];
            assert(batch.requests[k].socket == socket);
        }
    }
}

} // verus!
