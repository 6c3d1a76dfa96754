//! What a scan of the system answers to the question who owns a socket.

use vstd::prelude::*;

use crate::laws::owners::{lemma_none_picked, lemma_one_picked};
use crate::net::{IpAddr, LocalSocket, SocketAddr, TransportProtocol};
use crate::process_probe::{
    answers, connection_matches, connection_pids, connects, described, index_of, index_with,
    indexes, left_in_flight, listener_socket, listening, planned, possible_owners, served, sole,
    socket_answer, ConnectionMatch, ConnectionRecord, IndexEntry, ListenerSnapshot,
    ProbeProcess, ProbeRequest, ProbeRequestId, ProbeRequestOutcome, ProbeResult, ProbeView,
    ProbeWorker, ProcessSnapshot, RequestView,
};

verus! {

/// Whether a process that listens on a socket is found under another: the socket itself, or,
/// for an IPv6 address that carries an IPv4 one in its low 32 bits behind `ffff`, that IPv4
/// address with the same port and transport.
pub open spec fn found_under(own: LocalSocket, key: LocalSocket) -> bool {
    ||| key == own
    ||| own.ip matches IpAddr::V6(value) && value / 0x1_0000_0000 == 0xffff && key == (LocalSocket {
        ip: IpAddr::V4((value % 0x1_0000_0000) as u32),
        port: own.port,
        protocol: own.protocol,
    })
}

/// The socket that a scan line is about.
pub open spec fn socket_of_line(line: ListenerSnapshot) -> LocalSocket {
    LocalSocket { ip: line.socket.ip, port: line.socket.port, protocol: line.protocol }
}

proof fn lemma_keys(own: LocalSocket, key: LocalSocket)
    ensures
        found_under(own, key) <==> exists|k: int|
            0 <= k < crate::net::keys_of(own).len() && (#[trigger] crate::net::keys_of(own)[k]).0
                == key,
{
    let keys = crate::net::keys_of(own);
    assert(keys[0].0 == own);
    if keys.len() == 2 {
        assert(keys[1].0 == keys[1].0);
    }
    if found_under(own, key) && key != own {
        assert(keys.len() == 2);
        assert(keys[1].0 == key);
    }
}

proof fn lemma_index_with(
    index: Seq<IndexEntry>,
    keys: Seq<(LocalSocket, bool)>,
    process: ProbeProcess,
)
    ensures
        index.len() <= index_with(index, keys, process).len(),
        forall|e: int|
            0 <= e < index.len() ==> #[trigger] index_with(index, keys, process)[e] == index[e],
        forall|e: int|
            index.len() <= e < index_with(index, keys, process).len() ==> {
                let entry = #[trigger] index_with(index, keys, process)[e];
                &&& entry.process == process
                &&& !indexes(index, entry.socket, process.pid)
                &&& exists|k: int| 0 <= k < keys.len() && (#[trigger] keys[k]).0 == entry.socket
            },
        forall|k: int|
            0 <= k < keys.len() ==> indexes(
                index_with(index, keys, process),
                (#[trigger] keys[k]).0,
                process.pid,
            ),
    decreases keys.len(),
{
    if keys.len() > 0 {
        let shorter = keys.drop_last();
        lemma_index_with(index, shorter, process);
        let prior = index_with(index, shorter, process);
        let whole = index_with(index, keys, process);
        let last = keys.last().0;
        assert forall|e: int| index.len() <= e < whole.len() implies {
            let entry = #[trigger] whole[e];
            &&& entry.process == process
            &&& !indexes(index, entry.socket, process.pid)
            &&& exists|k: int| 0 <= k < keys.len() && (#[trigger] keys[k]).0 == entry.socket
        } by {
            if e < prior.len() {
                assert(whole[e] == prior[e]);
                let k = choose|k: int|
                    0 <= k < shorter.len() && (#[trigger] shorter[k]).0 == prior[e].socket;
                assert(keys[k].0 == whole[e].socket);
            } else {
                assert(keys[keys.len() - 1].0 == whole[e].socket);
                if indexes(index, last, process.pid) {
                    let i = choose|i: int|
                        0 <= i < index.len() && (#[trigger] index[i]).socket == last
                            && index[i].process.pid == process.pid;
                    assert(prior[i] == index[i]);
                }
            }
        }
        assert forall|k: int| 0 <= k < keys.len() implies indexes(
            whole,
            (#[trigger] keys[k]).0,
            process.pid,
        ) by {
            if k < shorter.len() {
                assert(shorter[k] == keys[k]);
                assert(indexes(prior, shorter[k].0, process.pid));
                let i = choose|i: int|
                    0 <= i < prior.len() && (#[trigger] prior[i]).socket == shorter[k].0
                        && prior[i].process.pid == process.pid;
                assert(whole[i] == prior[i]);
            } else if indexes(prior, last, process.pid) {
            } else {
                assert(whole[prior.len() as int].socket == last);
            }
        }
    }
}

/// Every line of a listener scan is indexed under each socket that it is found under, by its
/// process number. Every entry of the index has the number, name and path of a line that is
/// found under its socket, and no earlier line of the same process is.
pub proof fn lemma_index_holds_every_listener(listeners: Seq<ListenerSnapshot>)
    ensures
        forall|l: int, key: LocalSocket|
            0 <= l < listeners.len() && #[trigger] found_under(
                socket_of_line(#[trigger] listeners[l]),
                key,
            ) ==> indexes(index_of(listeners), key, listeners[l].process.pid),
        forall|e: int|
            0 <= e < index_of(listeners).len() ==> exists|l: int|
                {
                    &&& 0 <= l < listeners.len()
                    &&& found_under(
                        socket_of_line(#[trigger] listeners[l]),
                        (#[trigger] index_of(listeners)[e]).socket,
                    )
                    &&& index_of(listeners)[e].process == listeners[l].process
                    &&& forall|earlier: int|
                        0 <= earlier < l ==> !(found_under(
                            socket_of_line(#[trigger] listeners[earlier]),
                            index_of(listeners)[e].socket,
                        ) && listeners[earlier].process.pid == listeners[l].process.pid)
                },
    decreases listeners.len(),
{
    if listeners.len() > 0 {
        let shorter = listeners.drop_last();
        let last = listeners.last();
        lemma_index_holds_every_listener(shorter);
        let prior = index_of(shorter);
        let whole = index_of(listeners);
        let keys = crate::net::keys_of(listener_socket(last));
        lemma_index_with(prior, keys, last.process);
        assert forall|l: int, key: LocalSocket|
            0 <= l < listeners.len() && #[trigger] found_under(
                socket_of_line(#[trigger] listeners[l]),
                key,
            ) implies indexes(whole, key, listeners[l].process.pid) by {
            if l < shorter.len() {
                assert(shorter[l] == listeners[l]);
                assert(found_under(socket_of_line(shorter[l]), key));
                assert(indexes(prior, key, shorter[l].process.pid));
                let i = choose|i: int|
                    0 <= i < prior.len() && (#[trigger] prior[i]).socket == key
                        && prior[i].process.pid == shorter[l].process.pid;
                assert(whole[i] == prior[i]);
            } else {
                lemma_keys(listener_socket(last), key);
            }
        }
        assert forall|e: int| 0 <= e < whole.len() implies exists|l: int|
            {
                &&& 0 <= l < listeners.len()
                &&& found_under(
                    socket_of_line(#[trigger] listeners[l]),
                    (#[trigger] whole[e]).socket,
                )
                &&& whole[e].process == listeners[l].process
                &&& forall|earlier: int|
                    0 <= earlier < l ==> !(found_under(
                        socket_of_line(#[trigger] listeners[earlier]),
                        whole[e].socket,
                    ) && listeners[earlier].process.pid == listeners[l].process.pid)
            } by {
            if e < prior.len() {
                assert(whole[e] == prior[e]);
                let l = choose|l: int|
                    {
                        &&& 0 <= l < shorter.len()
                        &&& found_under(
                            socket_of_line(#[trigger] shorter[l]),
                            prior[e].socket,
                        )
                        &&& prior[e].process == shorter[l].process
                        &&& forall|earlier: int|
                            0 <= earlier < l ==> !(found_under(
                                socket_of_line(#[trigger] shorter[earlier]),
                                prior[e].socket,
                            ) && shorter[earlier].process.pid == shorter[l].process.pid)
                    };
                assert(listeners[l] == shorter[l]);
                assert forall|earlier: int| 0 <= earlier < l implies !(found_under(
                    socket_of_line(#[trigger] listeners[earlier]),
                    whole[e].socket,
                ) && listeners[earlier].process.pid == listeners[l].process.pid) by {
                    assert(listeners[earlier] == shorter[earlier]);
                }
            } else {
                let l = listeners.len() - 1;
                assert(listeners[l] == last);
                lemma_keys(listener_socket(last), whole[e].socket);
                assert(found_under(socket_of_line(listeners[l]), whole[e].socket));
                assert forall|earlier: int| 0 <= earlier < l implies !(found_under(
                    socket_of_line(#[trigger] listeners[earlier]),
                    whole[e].socket,
                ) && listeners[earlier].process.pid == listeners[l].process.pid) by {
                    assert(listeners[earlier] == shorter[earlier]);
                    if found_under(socket_of_line(shorter[earlier]), whole[e].socket)
                        && shorter[earlier].process.pid == last.process.pid {
                        assert(indexes(prior, whole[e].socket, last.process.pid));
                    }
                }
            }
        }
    }
}

/// Whether the processes that are indexed at `key` answer for a socket: the socket's own, or,
/// if nobody is indexed there, those on the unspecified address of its family with its port and
/// transport.
pub open spec fn indexed_at(index: Seq<IndexEntry>, socket: LocalSocket, key: LocalSocket) -> bool {
    if exists|e: int| 0 <= e < index.len() && (#[trigger] index[e]).socket == socket {
        key == socket
    } else {
        &&& key.port == socket.port
        &&& key.protocol == socket.protocol
        &&& match socket.ip {
            IpAddr::V4(_) => key.ip == IpAddr::V4(0),
            IpAddr::V6(_) => key.ip == IpAddr::V6(0),
        }
    }
}

proof fn lemma_indexed_at(index: Seq<IndexEntry>, socket: LocalSocket, key: LocalSocket)
    requires
        indexed_at(index, socket, key),
    ensures
        possible_owners(index, socket) == listening(index, key),
{
    let pick = |entry: IndexEntry| entry.socket == socket;
    if exists|e: int| 0 <= e < index.len() && (#[trigger] index[e]).socket == socket {
        let e = choose|e: int| 0 <= e < index.len() && (#[trigger] index[e]).socket == socket;
        index.lemma_filter_contains(pick, e);
        assert(index.filter(pick).len() > 0);
    } else {
        lemma_none_picked(index, pick);
    }
}

/// A socket that nobody is indexed for is not found.
pub proof fn lemma_unindexed_socket_is_not_found(
    request_id: ProbeRequestId,
    socket: LocalSocket,
    index: Seq<IndexEntry>,
    key: LocalSocket,
)
    requires
        indexed_at(index, socket, key),
        forall|e: int| 0 <= e < index.len() ==> (#[trigger] index[e]).socket != key,
    ensures
        socket_answer(request_id, socket, index) == (ProbeResult::NotFound { request_id, socket }),
{
    lemma_indexed_at(index, socket, key);
    lemma_none_picked(index, |entry: IndexEntry| entry.socket == key);
}

/// A socket that a single process is indexed for is that process's, by number, name and path.
pub proof fn lemma_sole_listener_is_named(
    request_id: ProbeRequestId,
    socket: LocalSocket,
    index: Seq<IndexEntry>,
    key: LocalSocket,
    only: int,
)
    requires
        indexed_at(index, socket, key),
        0 <= only < index.len(),
        forall|e: int|
            0 <= e < index.len() ==> ((#[trigger] index[e]).socket == key <==> e == only),
    ensures
        socket_answer(request_id, socket, index) matches ProbeResult::Unique {
            request_id: id,
            socket: asked,
            process,
        } && id == request_id && asked == socket && process.pid == index[only].process.pid
            && process.name == index[only].process.name && process.path
            == index[only].process.path,
{
    lemma_indexed_at(index, socket, key);
    lemma_one_picked(index, |entry: IndexEntry| entry.socket == key, only);
    assert(listening(index, key)[0] == index[only].process);
}

/// Of a socket that several processes are indexed for, their number is told, and no one is
/// named.
pub proof fn lemma_several_listeners_are_counted(
    request_id: ProbeRequestId,
    socket: LocalSocket,
    index: Seq<IndexEntry>,
    key: LocalSocket,
    first: int,
    second: int,
)
    requires
        indexed_at(index, socket, key),
        0 <= first < second < index.len(),
        index[first].socket == key,
        index[second].socket == key,
    ensures
        socket_answer(request_id, socket, index) matches ProbeResult::Ambiguous {
            request_id: id,
            socket: asked,
            candidate_count,
        } && id == request_id && asked == socket && candidate_count == index.filter(
            |entry: IndexEntry| entry.socket == key,
        ).len() as usize,
{
    lemma_indexed_at(index, socket, key);
    lemma_two_picked(index, |entry: IndexEntry| entry.socket == key, first, second);
}

pub(crate) proof fn lemma_two_picked<T>(
    items: Seq<T>,
    pick: spec_fn(T) -> bool,
    first: int,
    second: int,
)
    requires
        0 <= first < second < items.len(),
        pick(items[first]),
        pick(items[second]),
    ensures
        items.filter(pick).len() >= 2,
    decreases items.len(),
{
    reveal(Seq::filter);
    let shorter = items.drop_last();
    if second < shorter.len() {
        lemma_two_picked(shorter, pick, first, second);
    } else {
        shorter.lemma_filter_contains(pick, first);
        assert(shorter[first] == items[first]);
        assert(shorter.filter(pick).len() > 0);
    }
}

/// Whether a scanned connection runs between the socket and the peer: the same address, port
/// and transport here, and the peer's address and port there.
pub open spec fn runs_between(
    connection: ConnectionRecord,
    socket: LocalSocket,
    peer: SocketAddr,
) -> bool {
    &&& connection.local.ip == socket.ip
    &&& connection.local.port == socket.port
    &&& connection.protocol == socket.protocol
    &&& connection.remote matches Some(remote) && remote.ip == peer.ip && remote.port == peer.port
}

/// Whether all scanned connections between the socket and the peer belong to one process, and
/// there are any.
pub open spec fn owned_by(
    connections: Seq<ConnectionRecord>,
    socket: LocalSocket,
    peer: SocketAddr,
    pid: u32,
) -> bool {
    &&& exists|c: int|
        0 <= c < connections.len() && runs_between(#[trigger] connections[c], socket, peer)
    &&& forall|c: int|
        0 <= c < connections.len() && runs_between(#[trigger] connections[c], socket, peer)
            ==> connections[c].pid == pid
}

proof fn lemma_pids(connections: Seq<ConnectionRecord>, socket: LocalSocket, peer: SocketAddr)
    ensures
        connection_pids(connections, socket, peer).len() > 0 <==> exists|c: int|
            0 <= c < connections.len() && runs_between(#[trigger] connections[c], socket, peer),
        forall|pid: u32|
            sole(connection_pids(connections, socket, peer)) == Some(pid) <==> #[trigger] owned_by(
                connections,
                socket,
                peer,
                pid,
            ),
{
    let pick = |connection: ConnectionRecord| connects(connection, socket, peer);
    let picked = connections.filter(pick);
    let pids = connection_pids(connections, socket, peer);
    assert(pids == picked.map_values(|connection: ConnectionRecord| connection.pid));
    assert forall|c: int| 0 <= c < connections.len() implies (runs_between(
        #[trigger] connections[c],
        socket,
        peer,
    ) <==> pick(connections[c])) by {
        if runs_between(connections[c], socket, peer) {
            let remote = connections[c].remote->0;
            assert(remote == peer);
        }
    }
    assert forall|p: int| 0 <= p < pids.len() implies exists|c: int|
        0 <= c < connections.len() && runs_between(#[trigger] connections[c], socket, peer)
            && connections[c].pid == #[trigger] pids[p] by {
        connections.lemma_filter_contains_rev(pick, picked[p]);
        connections.lemma_filter_pred(pick, p);
        let c = choose|c: int| 0 <= c < connections.len() && connections[c] == picked[p];
        assert(runs_between(connections[c], socket, peer));
    }
    assert forall|c: int|
        0 <= c < connections.len() && runs_between(
            #[trigger] connections[c],
            socket,
            peer,
        ) implies pids.contains(connections[c].pid) by {
        connections.lemma_filter_contains(pick, c);
        let p = choose|p: int| 0 <= p < picked.len() && picked[p] == connections[c];
        assert(pids[p] == connections[c].pid);
    }
    if exists|c: int|
        0 <= c < connections.len() && runs_between(#[trigger] connections[c], socket, peer) {
        let c = choose|c: int|
            0 <= c < connections.len() && runs_between(#[trigger] connections[c], socket, peer);
        assert(pids.contains(connections[c].pid));
    }
    if pids.len() > 0 {
        let first = pids[0];
    }
    assert forall|pid: u32|
        sole(pids) == Some(pid) <==> #[trigger] owned_by(connections, socket, peer, pid) by {
        if sole(pids) == Some(pid) {
            assert forall|c: int|
                0 <= c < connections.len() && runs_between(
                    #[trigger] connections[c],
                    socket,
                    peer,
                ) implies connections[c].pid == pid by {
                assert(pids.contains(connections[c].pid));
            }
        }
        if owned_by(connections, socket, peer, pid) {
            assert forall|p: int| 0 <= p < pids.len() implies #[trigger] pids[p] == pid by {
                let c = choose|c: int|
                    0 <= c < connections.len() && runs_between(
                        #[trigger] connections[c],
                        socket,
                        peer,
                    ) && connections[c].pid == pids[p];
                assert(connections[c].pid == pid);
            }
        }
    }
}

/// A process that a connection scan names by its number alone is described by the last line of
/// the listener scan that has the number, with the name and path of that line, or by its number
/// alone.
pub proof fn lemma_process_is_described_by_its_last_line(
    listeners: Seq<ListenerSnapshot>,
    pid: u32,
    l: int,
)
    requires
        -1 <= l < listeners.len(),
        l >= 0 ==> listeners[l].process.pid == pid,
        forall|later: int|
            l < later < listeners.len() ==> (#[trigger] listeners[later]).process.pid != pid,
    ensures
        l >= 0 ==> described(listeners, pid) == listeners[l].process,
        l == -1 ==> described(listeners, pid) == (ProbeProcess { pid, name: None, path: None }),
    decreases listeners.len(),
{
    if listeners.len() > 0 {
        let shorter = listeners.drop_last();
        if l < shorter.len() {
            assert(listeners[listeners.len() - 1].process.pid != pid);
            assert forall|later: int| l < later < shorter.len() implies (
            #[trigger] shorter[later]).process.pid != pid by {
                assert(shorter[later] == listeners[later]);
            }
            if l >= 0 {
                assert(shorter[l] == listeners[l]);
            }
            lemma_process_is_described_by_its_last_line(shorter, pid, l);
        }
    }
}

/// Whether an entry matches a peer that was asked about with the one process that owns all its
/// connections.
pub open spec fn matches_sole_owner(
    entry: ConnectionMatch,
    peers: Seq<SocketAddr>,
    socket: LocalSocket,
    connections: Seq<ConnectionRecord>,
    listeners: Seq<ListenerSnapshot>,
) -> bool {
    exists|p: int, pid: u32|
        {
            &&& 0 <= p < peers.len()
            &&& #[trigger] owned_by(connections, socket, #[trigger] peers[p], pid)
            &&& entry.peer == peers[p]
            &&& entry.process == described(listeners, pid)
        }
}

/// The peers that a connection scan tells apart are those whose connections all belong to one
/// process: each of them is matched with that process, and no other peer is matched at all.
pub proof fn lemma_matches_name_the_sole_owners(
    peers: Seq<SocketAddr>,
    socket: LocalSocket,
    connections: Seq<ConnectionRecord>,
    listeners: Seq<ListenerSnapshot>,
)
    ensures
        forall|p: int, pid: u32|
            0 <= p < peers.len() && #[trigger] owned_by(
                connections,
                socket,
                #[trigger] peers[p],
                pid,
            ) ==> connection_matches(peers, socket, connections, listeners).contains(
                ConnectionMatch { peer: peers[p], process: described(listeners, pid) },
            ),
        forall|m: int|
            0 <= m < connection_matches(peers, socket, connections, listeners).len()
                ==> matches_sole_owner(
                #[trigger] connection_matches(peers, socket, connections, listeners)[m],
                peers,
                socket,
                connections,
                listeners,
            ),
    decreases peers.len(),
{
    if peers.len() > 0 {
        let shorter = peers.drop_last();
        let last = peers.last();
        lemma_matches_name_the_sole_owners(shorter, socket, connections, listeners);
        lemma_pids(connections, socket, last);
        let prior = connection_matches(shorter, socket, connections, listeners);
        let whole = connection_matches(peers, socket, connections, listeners);
        assert forall|p: int, pid: u32|
            0 <= p < peers.len() && #[trigger] owned_by(
                connections,
                socket,
                #[trigger] peers[p],
                pid,
            ) implies whole.contains(
            ConnectionMatch { peer: peers[p], process: described(listeners, pid) },
        ) by {
            let wanted = ConnectionMatch { peer: peers[p], process: described(listeners, pid) };
            if p < shorter.len() {
                assert(shorter[p] == peers[p]);
                assert(owned_by(connections, socket, shorter[p], pid));
                assert(prior.contains(wanted));
                let m = choose|m: int| 0 <= m < prior.len() && prior[m] == wanted;
                assert(whole[m] == wanted);
            } else {
                assert(sole(connection_pids(connections, socket, last)) == Some(pid));
                assert(whole[prior.len() as int] == wanted);
            }
        }
        assert forall|m: int| 0 <= m < whole.len() implies matches_sole_owner(
            #[trigger] whole[m],
            peers,
            socket,
            connections,
            listeners,
        ) by {
            if m < prior.len() {
                assert(whole[m] == prior[m]);
                assert(matches_sole_owner(prior[m], shorter, socket, connections, listeners));
                let (p, pid) = choose|p: int, pid: u32|
                    {
                        &&& 0 <= p < shorter.len()
                        &&& #[trigger] owned_by(connections, socket, #[trigger] shorter[p], pid)
                        &&& prior[m].peer == shorter[p]
                        &&& prior[m].process == described(listeners, pid)
                    };
                assert(peers[p] == shorter[p]);
                assert(owned_by(connections, socket, peers[p], pid));
            } else {
                assert(sole(connection_pids(connections, socket, last)) is Some);
                let pid = sole(connection_pids(connections, socket, last))->0;
                let p = peers.len() - 1;
                assert(peers[p] == last);
                assert(owned_by(connections, socket, peers[p], pid));
            }
        }
    }
}

proof fn lemma_place_of_a_match(
    peers: Seq<SocketAddr>,
    socket: LocalSocket,
    connections: Seq<ConnectionRecord>,
    listeners: Seq<ListenerSnapshot>,
    p: int,
    pid: u32,
) -> (m: int)
    requires
        0 <= p < peers.len(),
        owned_by(connections, socket, peers[p], pid),
    ensures
        0 <= m < connection_matches(peers, socket, connections, listeners).len(),
        m == connection_matches(peers.take(p), socket, connections, listeners).len(),
        connection_matches(peers, socket, connections, listeners)[m] == (ConnectionMatch {
            peer: peers[p],
            process: described(listeners, pid),
        }),
    decreases peers.len(),
{
    let shorter = peers.drop_last();
    if p < shorter.len() {
        assert(shorter[p] == peers[p]);
        assert(shorter.take(p) =~= peers.take(p));
        lemma_place_of_a_match(shorter, socket, connections, listeners, p, pid)
    } else {
        lemma_pids(connections, socket, peers.last());
        assert(peers.take(p) =~= shorter);
        assert(sole(connection_pids(connections, socket, peers.last())) == Some(pid));
        connection_matches(shorter, socket, connections, listeners).len() as int
    }
}

/// The matches stand in the order in which their peers were asked about.
pub proof fn lemma_matches_keep_the_order_of_the_peers(
    peers: Seq<SocketAddr>,
    socket: LocalSocket,
    connections: Seq<ConnectionRecord>,
    listeners: Seq<ListenerSnapshot>,
    p: int,
    q: int,
    first: u32,
    second: u32,
) -> (places: (int, int))
    requires
        0 <= p < q < peers.len(),
        owned_by(connections, socket, peers[p], first),
        owned_by(connections, socket, peers[q], second),
    ensures
        0 <= places.0 < places.1 < connection_matches(peers, socket, connections, listeners).len(),
        connection_matches(peers, socket, connections, listeners)[places.0].peer == peers[p],
        connection_matches(peers, socket, connections, listeners)[places.1].peer == peers[q],
{
    let m = lemma_place_of_a_match(peers, socket, connections, listeners, p, first);
    let n = lemma_place_of_a_match(peers, socket, connections, listeners, q, second);
    assert(peers.take(q)[p] == peers[p]);
    let k = lemma_place_of_a_match(peers.take(q), socket, connections, listeners, p, first);
    assert(peers.take(q).take(p) =~= peers.take(p));
    (m, n)
}

/// A request of TCP with peers is answered from the connections, if they were scanned and one
/// of them runs to one of the peers: with the matches, under its own number and socket. Any
/// other is answered from the listeners.
pub proof fn lemma_connections_answer_first(
    request: ProbeRequest,
    listeners: Seq<ListenerSnapshot>,
    index: Seq<IndexEntry>,
    connections: Option<Seq<ConnectionRecord>>,
    result: ProbeResult,
)
    requires
        answers(request, listeners, index, connections, result),
    ensures
        ({
            let connected = connections matches Some(connections) && exists|p: int, c: int|
                0 <= p < request.peers@.len() && 0 <= c < connections.len() && runs_between(
                    #[trigger] connections[c],
                    request.socket,
                    #[trigger] request.peers@[p],
                );
            if request.socket.protocol == TransportProtocol::Tcp && connected {
                &&& result matches ProbeResult::ConnectionMatches { request_id, socket, matches }
                &&& request_id == request.id
                &&& socket == request.socket
                &&& matches@ == connection_matches(
                    request.peers@,
                    request.socket,
                    connections->0,
                    listeners,
                )
            } else {
                result == socket_answer(request.id, request.socket, index)
            }
        }),
{
    if let Some(connections) = connections {
        let peers = request.peers@;
        let socket = request.socket;
        assert forall|p: int| 0 <= p < peers.len() implies (connection_pids(
            connections,
            socket,
            #[trigger] peers[p],
        ).len() > 0 <==> exists|c: int|
            0 <= c < connections.len() && runs_between(
                #[trigger] connections[c],
                socket,
                peers[p],
            )) by {
            lemma_pids(connections, socket, peers[p]);
        }
        if exists|p: int, c: int|
            0 <= p < peers.len() && 0 <= c < connections.len() && runs_between(
                #[trigger] connections[c],
                socket,
                #[trigger] peers[p],
            ) {
            let (p, c) = choose|p: int, c: int|
                0 <= p < peers.len() && 0 <= c < connections.len() && runs_between(
                    #[trigger] connections[c],
                    socket,
                    #[trigger] peers[p],
                );
            assert(connection_pids(connections, socket, peers[p]).len() > 0);
        } else {
            assert forall|p: int| 0 <= p < peers.len() implies connection_pids(
                connections,
                socket,
                #[trigger] peers[p],
            ).len() == 0 by {
                if exists|c: int|
                    0 <= c < connections.len() && runs_between(
                        #[trigger] connections[c],
                        socket,
                        peers[p],
                    ) {
                    let c = choose|c: int|
                        0 <= c < connections.len() && runs_between(
                            #[trigger] connections[c],
                            socket,
                            peers[p],
                        );
                    assert(runs_between(connections[c], socket, peers[p]));
                }
            }
        }
    }
}

/// The last scan answers further requests as long as it is younger than the interval, unless
/// one of them needs connections and these were not asked for. Connections are scanned exactly
/// if some request of TCP has peers.
pub proof fn lemma_scans_are_made_when_needed(
    worker: ProbeWorker,
    requests: Seq<ProbeRequest>,
    now: u128,
)
    ensures
        ({
            let needed = exists|r: int|
                0 <= r < requests.len() && (#[trigger] requests[r]).socket.protocol
                    == TransportProtocol::Tcp && requests[r].peers@.len() > 0;
            let plan = planned(worker, requests, now);
            &&& plan.connections <==> needed
            &&& worker.snapshot is None ==> plan.scan
            &&& worker.snapshot matches Some(snapshot) ==> (plan.scan <==> now
                - snapshot.captured_at >= worker.refresh_interval || worker.refresh_interval == 0
                || needed && !snapshot.connections_queried)
        }),
{
    if exists|r: int|
        0 <= r < requests.len() && (#[trigger] requests[r]).socket.protocol
            == TransportProtocol::Tcp && requests[r].peers@.len() > 0 {
        let r = choose|r: int|
            0 <= r < requests.len() && (#[trigger] requests[r]).socket.protocol
                == TransportProtocol::Tcp && requests[r].peers@.len() > 0;
        assert(crate::process_probe::wants_connections(requests[r]));
    }
}

/// A batch of requests gets one answer each, in their order: from the scan that was made for
/// it, or, if none was made, from the last one. If the scan failed, each is told so with the
/// reason, under its own number and socket. A scan that could be made is kept for the next
/// batch, and a failed one changes nothing.
pub proof fn lemma_batches_are_answered_from_their_scan(
    before: ProbeWorker,
    requests: Seq<ProbeRequest>,
    scanned: Option<Result<ProcessSnapshot, String>>,
    after: ProbeWorker,
    results: Seq<ProbeResult>,
    i: int,
)
    requires
        served(before, requests, scanned, after, results),
        0 <= i < requests.len(),
    ensures
        results.len() == requests.len(),
        after.refresh_interval == before.refresh_interval,
        scanned matches Some(Ok(snapshot)) ==> after.snapshot == Some(snapshot) && answers(
            requests[i],
            snapshot.listeners@,
            snapshot.index@,
            match snapshot.connections {
                Some(connections) => Some(connections@),
                None => None,
            },
            results[i],
        ),
        scanned matches Some(Err(reason)) ==> after.snapshot == before.snapshot && (
        results[i] matches ProbeResult::Unavailable { request_id, socket, error } && request_id
            == requests[i].id && socket == requests[i].socket && error == reason),
        scanned is None ==> after.snapshot == before.snapshot && (
        before.snapshot matches Some(snapshot) ==> answers(
            requests[i],
            snapshot.listeners@,
            snapshot.index@,
            match snapshot.connections {
                Some(connections) => Some(connections@),
                None => None,
            },
            results[i],
        )),
{
    let result = results[i];
}

/// A socket that is already asked about is not asked about again. Any other request gets the
/// next number: it is queued last, with its socket and its peers, if there is room for it and a
/// worker to take it, and else it comes to nothing.
pub proof fn lemma_requests_are_numbered_and_queued(
    probe: ProbeView,
    socket: LocalSocket,
    peers: Seq<SocketAddr>,
)
    ensures
        ({
            let after = probe.requested(socket, peers);
            let outcome = probe.outcome(socket);
            let id = ProbeRequestId(probe.next_request_id);
            let asked = probe.in_flight.contains_key(socket);
            let room = probe.connected && probe.queue.len() < 1024;
            &&& asked ==> outcome == ProbeRequestOutcome::InFlight(probe.in_flight[socket]) && after
                == probe
            &&& !asked ==> after.next_request_id == if probe.next_request_id == u64::MAX {
                0
            } else {
                probe.next_request_id + 1
            }
            &&& !asked && room ==> {
                &&& outcome == ProbeRequestOutcome::Queued(id)
                &&& after.queue == probe.queue.push(RequestView { id, socket, peers })
                &&& after.in_flight == probe.in_flight.insert(socket, id)
            }
            &&& !asked && !room ==> {
                &&& outcome == ProbeRequestOutcome::Unavailable
                &&& after.queue == probe.queue
                &&& after.in_flight == probe.in_flight
            }
            &&& after.connected == probe.connected
        }),
{
}

/// An answer ends the request that it is for, by socket and number, and no other.
pub proof fn lemma_answers_end_their_requests(
    in_flight: Map<LocalSocket, ProbeRequestId>,
    results: Seq<ProbeResult>,
    socket: LocalSocket,
)
    ensures
        left_in_flight(in_flight, results).contains_key(socket) <==> in_flight.contains_key(socket)
            && forall|r: int|
            0 <= r < results.len() ==> !((#[trigger] results[r]).socket_spec() == socket
                && results[r].id_spec() == in_flight[socket]),
        left_in_flight(in_flight, results).contains_key(socket) ==> left_in_flight(
            in_flight,
            results,
        )[socket] == in_flight[socket],
{
}

} // verus!
