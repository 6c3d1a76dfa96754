//! Asking the system who owns a socket.

use flowlens::net::{IpAddr, LocalSocket, SocketAddr, TransportProtocol};
use flowlens::process_name::PathStyle;
use flowlens::process_probe::{
    listener_index, probe_process, process_snapshot, requires_connection_probe,
    resolve_connections, ConnectionMatch, ConnectionRecord, ListenerSnapshot, ProbeProcess,
    ProbeRequest, ProbeRequestId, ProbeRequestOutcome, ProbeResult, ProbeWorker, ProcessProbe,
    REQUEST_CHANNEL_CAPACITY, SNAPSHOT_REFRESH_INTERVAL,
};

const MILLISECOND: u128 = 1_000_000;

const LOCALHOST_V4: u32 = 0x7f00_0001;
const LOCALHOST_V6: u128 = 1;

fn address(ip: IpAddr, port: u16) -> SocketAddr {
    SocketAddr { ip, port }
}

fn resolve_batch(
    requests: Vec<ProbeRequest>,
    listeners: Result<Vec<ListenerSnapshot>, String>,
) -> Vec<ProbeResult> {
    let mut worker = ProbeWorker::new(SNAPSHOT_REFRESH_INTERVAL);
    let scanned = listeners.map(|listeners| process_snapshot(0, listeners, None, false));
    worker.answer_after_scan(&requests, scanned)
}

fn resolve_one(request: LocalSocket, listeners: Vec<ListenerSnapshot>) -> ProbeResult {
    resolve_batch(
        vec![ProbeRequest {
            id: ProbeRequestId(1),
            socket: request,
            peers: Vec::new(),
        }],
        Ok(listeners),
    )
    .into_iter()
    .next()
    .unwrap()
}

/// A probe and its worker, which finds one listener and counts its scans.
struct Probing {
    probe: ProcessProbe,
    worker: ProbeWorker,
    scans: usize,
}

impl Probing {
    fn spawn(interval: u128) -> Probing {
        Probing {
            probe: ProcessProbe::new(),
            worker: ProbeWorker::new(interval),
            scans: 0,
        }
    }

    fn serve(&mut self, now: u128) {
        let requests = self.probe.take_requests();
        let scanned = if self.worker.plan(&requests, now).scan {
            self.scans += 1;
            let found = vec![listener(IpAddr::V4(LOCALHOST_V4), 443, TransportProtocol::Tcp, 7)];
            Some(Ok(process_snapshot(now, found, None, false)))
        } else {
            None
        };
        let results = self.worker.serve(&requests, scanned);
        self.probe.deliver(results);
    }

    fn wait_for_result(&mut self, now: u128) -> ProbeResult {
        self.serve(now);
        self.probe.drain_results().into_iter().next().unwrap()
    }
}

#[test]
fn spawn_starts_idle_worker() {
    let mut probing = Probing::spawn(SNAPSHOT_REFRESH_INTERVAL);
    assert!(probing.probe.take_requests().is_empty());
    assert!(probing.probe.drain_results().is_empty());
}

#[test]
fn repeated_request_for_in_flight_socket_is_deduplicated() {
    let local = IpAddr::V4(LOCALHOST_V4);
    let request = socket(local, 443, TransportProtocol::Tcp);
    let mut probing = Probing::spawn(SNAPSHOT_REFRESH_INTERVAL);

    let first_request = match probing.probe.request(request) {
        ProbeRequestOutcome::Queued(request_id) => request_id,
        outcome => panic!("unexpected first request outcome: {outcome:?}"),
    };
    assert_eq!(
        probing.probe.request(request),
        ProbeRequestOutcome::InFlight(first_request)
    );

    let result = probing.wait_for_result(0);

    assert!(matches!(result, ProbeResult::Unique { .. }));
    assert!(matches!(
        probing.probe.request(request),
        ProbeRequestOutcome::Queued(_)
    ));
}

#[test]
fn fresh_snapshot_is_reused_across_request_batches() {
    let local = IpAddr::V4(LOCALHOST_V4);
    let request = socket(local, 443, TransportProtocol::Tcp);
    let mut probing = Probing::spawn(100 * MILLISECOND);

    assert!(matches!(
        probing.probe.request(request),
        ProbeRequestOutcome::Queued(_)
    ));
    assert!(matches!(
        probing.wait_for_result(0),
        ProbeResult::Unique { .. }
    ));
    assert!(matches!(
        probing.probe.request(request),
        ProbeRequestOutcome::Queued(_)
    ));
    assert!(matches!(
        probing.wait_for_result(5 * MILLISECOND),
        ProbeResult::Unique { .. }
    ));

    assert_eq!(probing.scans, 1);
}

#[test]
fn expired_snapshot_is_refreshed_for_a_later_request() {
    let local = IpAddr::V4(LOCALHOST_V4);
    let request = socket(local, 443, TransportProtocol::Tcp);
    let mut probing = Probing::spawn(10 * MILLISECOND);

    assert!(matches!(
        probing.probe.request(request),
        ProbeRequestOutcome::Queued(_)
    ));
    assert!(matches!(
        probing.wait_for_result(0),
        ProbeResult::Unique { .. }
    ));
    assert!(matches!(
        probing.probe.request(request),
        ProbeRequestOutcome::Queued(_)
    ));
    assert!(matches!(
        probing.wait_for_result(25 * MILLISECOND),
        ProbeResult::Unique { .. }
    ));

    assert_eq!(probing.scans, 2);
}

fn socket(ip: IpAddr, port: u16, protocol: TransportProtocol) -> LocalSocket {
    LocalSocket { ip, port, protocol }
}

fn listener(ip: IpAddr, port: u16, protocol: TransportProtocol, pid: u32) -> ListenerSnapshot {
    ListenerSnapshot {
        socket: address(ip, port),
        protocol,
        process: ProbeProcess {
            pid,
            name: Some(format!("proc-{pid}")),
            path: Some(format!("/bin/proc-{pid}")),
        },
    }
}

#[test]
fn exact_address_port_and_protocol_match_returns_unique_process() {
    let local = IpAddr::v4(192, 0, 2, 10);
    let request = socket(local, 443, TransportProtocol::Tcp);

    let result = resolve_one(
        request,
        vec![
            listener(local, 443, TransportProtocol::Tcp, 7),
            listener(local, 443, TransportProtocol::Udp, 8),
            listener(local, 444, TransportProtocol::Tcp, 9),
        ],
    );

    assert_eq!(
        result,
        ProbeResult::Unique {
            request_id: ProbeRequestId(1),
            socket: request,
            process: ProbeProcess {
                pid: 7,
                name: Some("proc-7".to_string()),
                path: Some("/bin/proc-7".to_string()),
            },
        }
    );
}

#[test]
fn connection_endpoint_match_returns_the_connection_owner() {
    let local = IpAddr::v4(192, 0, 2, 10);
    let peer = address(IpAddr::v4(198, 51, 100, 5), 443);
    let request = ProbeRequest {
        id: ProbeRequestId(1),
        socket: socket(local, 49_152, TransportProtocol::Tcp),
        peers: vec![peer],
    };
    let listeners = vec![listener(local, 49_152, TransportProtocol::Tcp, 7)];
    let result = resolve_connections(
        &request,
        &vec![ConnectionRecord {
            local: address(local, 49_152),
            remote: Some(peer),
            protocol: TransportProtocol::Tcp,
            pid: 7,
            state: Some(5),
        }],
        &listeners,
        &listener_index(&listeners),
    );

    assert_eq!(
        result,
        ProbeResult::ConnectionMatches {
            request_id: ProbeRequestId(1),
            socket: request.socket,
            matches: vec![ConnectionMatch {
                peer,
                process: ProbeProcess {
                    pid: 7,
                    name: Some("proc-7".to_string()),
                    path: Some("/bin/proc-7".to_string()),
                },
            }],
        }
    );
}

#[test]
fn missing_connection_endpoint_falls_back_to_unique_socket_owner() {
    let local = IpAddr::v4(192, 0, 2, 10);
    let request = ProbeRequest {
        id: ProbeRequestId(1),
        socket: socket(local, 49_152, TransportProtocol::Tcp),
        peers: vec![address(
            IpAddr::v4(198, 51, 100, 5),
            443,
        )],
    };
    let listeners = vec![listener(local, 49_152, TransportProtocol::Tcp, 7)];

    assert_eq!(
        resolve_connections(&request, &vec![], &listeners, &listener_index(&listeners),),
        ProbeResult::Unique {
            request_id: request.id,
            socket: request.socket,
            process: ProbeProcess {
                pid: 7,
                name: Some("proc-7".to_string()),
                path: Some("/bin/proc-7".to_string()),
            },
        }
    );
}

#[test]
fn ambiguous_connection_endpoint_is_not_attributed() {
    let local = IpAddr::v4(192, 0, 2, 10);
    let peer = address(IpAddr::v4(198, 51, 100, 5), 443);
    let request = ProbeRequest {
        id: ProbeRequestId(1),
        socket: socket(local, 49_152, TransportProtocol::Tcp),
        peers: vec![peer],
    };
    let connections = [7, 8]
        .into_iter()
        .map(|pid| ConnectionRecord {
            local: address(local, 49_152),
            remote: Some(peer),
            protocol: TransportProtocol::Tcp,
            pid,
            state: Some(5),
        })
        .collect::<Vec<_>>();
    let listeners = vec![
        listener(local, 49_152, TransportProtocol::Tcp, 7),
        listener(local, 49_152, TransportProtocol::Tcp, 8),
    ];
    let result = resolve_connections(
        &request,
        &connections,
        &listeners,
        &listener_index(&listeners),
    );

    assert_eq!(
        result,
        ProbeResult::ConnectionMatches {
            request_id: ProbeRequestId(1),
            socket: request.socket,
            matches: Vec::new(),
        }
    );
}

#[test]
fn requires_connection_probe_requires_tcp_and_peers() {
    let local = IpAddr::v4(192, 0, 2, 10);
    let tcp_with_peers = ProbeRequest {
        id: ProbeRequestId(1),
        socket: socket(local, 443, TransportProtocol::Tcp),
        peers: vec![address(local, 50_000)],
    };
    let tcp_without_peers = ProbeRequest {
        id: ProbeRequestId(1),
        socket: socket(local, 443, TransportProtocol::Tcp),
        peers: Vec::new(),
    };
    let udp_with_peers = ProbeRequest {
        id: ProbeRequestId(1),
        socket: socket(local, 53, TransportProtocol::Udp),
        peers: vec![address(local, 50_000)],
    };
    assert!(requires_connection_probe(&tcp_with_peers));
    assert!(!requires_connection_probe(&tcp_without_peers));
    assert!(!requires_connection_probe(&udp_with_peers));
}

#[test]
fn wildcard_address_matches_concrete_request() {
    let request = socket(
        IpAddr::v4(192, 0, 2, 10),
        8080,
        TransportProtocol::Tcp,
    );

    let result = resolve_one(
        request,
        vec![listener(
            IpAddr::V4(0),
            8080,
            TransportProtocol::Tcp,
            7,
        )],
    );

    assert!(matches!(
        result,
        ProbeResult::Unique {
            process: ProbeProcess { pid: 7, .. },
            ..
        }
    ));
}

#[test]
fn exact_address_takes_priority_over_wildcard_address() {
    let local = IpAddr::v4(192, 0, 2, 10);
    let request = socket(local, 8080, TransportProtocol::Tcp);

    let result = resolve_one(
        request,
        vec![
            listener(
                IpAddr::V4(0),
                8080,
                TransportProtocol::Tcp,
                7,
            ),
            listener(local, 8080, TransportProtocol::Tcp, 8),
        ],
    );

    assert!(matches!(
        result,
        ProbeResult::Unique {
            process: ProbeProcess { pid: 8, .. },
            ..
        }
    ));
}

#[test]
fn duplicate_records_for_one_pid_are_unique() {
    let local = IpAddr::V4(LOCALHOST_V4);
    let request = socket(local, 443, TransportProtocol::Tcp);

    let result = resolve_one(
        request,
        vec![
            listener(local, 443, TransportProtocol::Tcp, 7),
            listener(local, 443, TransportProtocol::Tcp, 7),
        ],
    );

    assert!(matches!(
        result,
        ProbeResult::Unique {
            process: ProbeProcess { pid: 7, .. },
            ..
        }
    ));
}

#[test]
fn different_pids_for_one_socket_are_ambiguous() {
    let local = IpAddr::V4(LOCALHOST_V4);
    let request = socket(local, 443, TransportProtocol::Tcp);

    let result = resolve_one(
        request,
        vec![
            listener(local, 443, TransportProtocol::Tcp, 7),
            listener(local, 443, TransportProtocol::Tcp, 8),
        ],
    );

    assert_eq!(
        result,
        ProbeResult::Ambiguous {
            request_id: ProbeRequestId(1),
            socket: request,
            candidate_count: 2,
        }
    );
}

#[test]
fn ipv4_request_matches_ipv4_mapped_ipv6_listener() {
    let local = IpAddr::v4(186, 241, 106, 205);
    let mapped = IpAddr::V6((0xffff << 32) | u128::from(u32::from_be_bytes([186, 241, 106, 205])));
    let request = socket(local, 51_102, TransportProtocol::Tcp);

    let result = resolve_one(
        request,
        vec![listener(mapped, 51_102, TransportProtocol::Tcp, 2_027_468)],
    );

    assert!(matches!(
        result,
        ProbeResult::Unique {
            process: ProbeProcess { pid: 2_027_468, .. },
            ..
        }
    ));
}

#[test]
fn missing_socket_returns_not_found() {
    let request = socket(IpAddr::V6(LOCALHOST_V6), 443, TransportProtocol::Tcp);

    assert_eq!(
        resolve_one(request, Vec::new()),
        ProbeResult::NotFound {
            request_id: ProbeRequestId(1),
            socket: request,
        }
    );
}

#[test]
fn query_failure_returns_unavailable_for_each_request() {
    let first = socket(IpAddr::V4(LOCALHOST_V4), 443, TransportProtocol::Tcp);
    let second = socket(IpAddr::V4(LOCALHOST_V4), 53, TransportProtocol::Udp);

    let result = resolve_batch(
        vec![
            ProbeRequest {
                id: ProbeRequestId(1),
                socket: first,
                peers: Vec::new(),
            },
            ProbeRequest {
                id: ProbeRequestId(2),
                socket: second,
                peers: Vec::new(),
            },
        ],
        Err("listeners unavailable".to_string()),
    );

    assert_eq!(
        result,
        vec![
            ProbeResult::Unavailable {
                request_id: ProbeRequestId(1),
                socket: first,
                error: "listeners unavailable".to_string(),
            },
            ProbeResult::Unavailable {
                request_id: ProbeRequestId(2),
                socket: second,
                error: "listeners unavailable".to_string(),
            },
        ]
    );
}

#[test]
fn full_queue_refuses_a_request_and_uses_up_its_number() {
    let mut probe = ProcessProbe::new();
    for port in 0..REQUEST_CHANNEL_CAPACITY {
        let request = socket(IpAddr::V4(LOCALHOST_V4), port as u16, TransportProtocol::Tcp);
        assert_eq!(
            probe.request(request),
            ProbeRequestOutcome::Queued(ProbeRequestId(port as u64 + 1))
        );
    }
    let late = socket(IpAddr::V4(LOCALHOST_V4), 60_000, TransportProtocol::Tcp);
    assert_eq!(probe.request(late), ProbeRequestOutcome::Unavailable);
    assert_eq!(probe.take_requests().len(), REQUEST_CHANNEL_CAPACITY);
    assert_eq!(
        probe.request(late),
        ProbeRequestOutcome::Queued(ProbeRequestId(REQUEST_CHANNEL_CAPACITY as u64 + 2))
    );
}

#[test]
fn requests_of_a_lost_worker_are_unavailable() {
    let mut probe = ProcessProbe::new();
    let first = socket(IpAddr::V4(LOCALHOST_V4), 443, TransportProtocol::Tcp);
    let second = socket(IpAddr::V4(LOCALHOST_V4), 53, TransportProtocol::Udp);
    assert!(matches!(probe.request(first), ProbeRequestOutcome::Queued(_)));
    probe.disconnect();
    assert_eq!(probe.request(second), ProbeRequestOutcome::Unavailable);
    let results = probe.drain_results();
    assert_eq!(results.len(), 1);
    assert!(matches!(
        &results[0],
        ProbeResult::Unavailable { request_id: ProbeRequestId(1), socket, .. } if *socket == first
    ));
    assert_eq!(results[0].request_id(), ProbeRequestId(1));
    assert_eq!(results[0].socket(), first);
    assert!(probe.drain_results().is_empty());
}

#[test]
fn connections_are_scanned_only_for_requests_with_peers() {
    let mut worker = ProbeWorker::new(SNAPSHOT_REFRESH_INTERVAL);
    let local = IpAddr::V4(LOCALHOST_V4);
    let plain = vec![ProbeRequest {
        id: ProbeRequestId(1),
        socket: socket(local, 443, TransportProtocol::Tcp),
        peers: Vec::new(),
    }];
    let with_peers = vec![ProbeRequest {
        id: ProbeRequestId(2),
        socket: socket(local, 443, TransportProtocol::Tcp),
        peers: vec![address(local, 50_000)],
    }];
    assert!(worker.plan(&plain, 0).scan);
    assert!(!worker.plan(&plain, 0).connections);
    worker.answer_after_scan(&plain, Ok(process_snapshot(0, Vec::new(), None, false)));
    assert!(!worker.plan(&plain, 1).scan);
    assert!(worker.plan(&with_peers, 1).scan);
    assert!(worker.plan(&with_peers, 1).connections);
}

#[test]
fn scans_are_counted_and_timed() {
    let mut probe = ProcessProbe::new();
    probe.metrics.record_query(5);
    probe.metrics.record_query(7);
    assert_eq!(probe.metrics.query_count, 2);
    assert_eq!(probe.metrics.query_duration_nanos, 12);
    assert_eq!(probe.metrics.last_query_duration_nanos, 7);
    probe.metrics.record_query(u128::MAX);
    assert_eq!(probe.metrics.last_query_duration_nanos, u64::MAX);
}

#[test]
fn processes_are_named_after_their_executable() {
    let named = probe_process(7, &"backend".to_string(), &"/usr/bin/curl".to_string(), PathStyle::Unix);
    assert_eq!(named.name.as_deref(), Some("curl"));
    assert_eq!(named.path.as_deref(), Some("/usr/bin/curl"));
    let hidden = probe_process(8, &"backend".to_string(), &String::new(), PathStyle::Unix);
    assert_eq!(hidden.name.as_deref(), Some("backend"));
    assert_eq!(hidden.path, None);
    let unknown = probe_process(9, &String::new(), &String::new(), PathStyle::Unix);
    assert_eq!(unknown.name, None);
}

#[test]
fn batches_are_answered_one_for_one() {
    let local = IpAddr::V4(LOCALHOST_V4);
    let mut probing = Probing::spawn(10);
    let mut asked = Vec::new();
    for (now, ports) in [(0, vec![443, 1]), (9, vec![2]), (10, vec![3, 443, 4])] {
        for port in ports {
            let wanted = socket(local, port, TransportProtocol::Tcp);
            match probing.probe.request(wanted) {
                ProbeRequestOutcome::Queued(id) => asked.push((id, wanted)),
                outcome => panic!("unexpected request outcome: {outcome:?}"),
            }
        }
        probing.serve(now);
        assert_eq!(probing.probe.in_flight.len(), 0);
    }
    assert_eq!(probing.scans, 2);
    let answered: Vec<_> = probing
        .probe
        .drain_results()
        .iter()
        .map(|result| (result.request_id(), result.socket()))
        .collect();
    assert_eq!(answered, asked);

    let request = socket(local, 5, TransportProtocol::Tcp);
    probing.probe.request(request);
    let requests = probing.probe.take_requests();
    let results = probing.worker.serve(&requests, Some(Err("no scan".to_string())));
    assert!(matches!(&results[0], ProbeResult::Unavailable { error, .. } if error == "no scan"));
    assert!(!probing.worker.plan(&requests, 19).scan);
}
