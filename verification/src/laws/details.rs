//! What is told of each process, and of the work as a whole.

use vstd::prelude::*;

use crate::address_text::ip_text;
use crate::diagnostics::{
    kind_text, made_of, records_of, DiagnosticsInputs, DiagnosticsRecord, DiagnosticsSnapshot,
    HeaderView,
};
use crate::laws::totals::sum_to_limit;
use crate::net::{Direction, TransportProtocol};
use crate::proc_table::{LookupMissReason, ProcDiagnosticsSnapshot};
use crate::process_detail::{
    detail_of, detailed, joined, replaced, shared_by_each, DetailView, EvidenceSet,
};
use crate::stats::{Evidence, ObservedProcess, ProcFlowKey, StatsEntry};
use crate::text::decimal;
use crate::traffic::{charged, lemma_row_of, process_view, row_of, Channel, IdentityView};

verus! {

/// Whether a channel has grown by bytes of one direction, and in no other.
pub open spec fn channel_grown(was: Channel, way: Direction, bytes: u64, now: Channel) -> bool {
    match way {
        Direction::Inbound => sum_to_limit(was.inbound, bytes, now.inbound) && now.outbound
            == was.outbound,
        Direction::Outbound => sum_to_limit(was.outbound, bytes, now.outbound) && now.inbound
            == was.inbound,
    }
}

/// What is told of a process, or nothing yet if it is new.
pub open spec fn told_of(
    details: Seq<(IdentityView, DetailView)>,
    key: IdentityView,
    at: i128,
) -> DetailView {
    match detail_of(details, key) {
        Some(detail) => detail,
        None => DetailView {
            exclusive: Channel { inbound: 0, outbound: 0 },
            shared: Channel { inbound: 0, outbound: 0 },
            shared_with: Seq::empty(),
            evidence: EvidenceSet { snapshot: false, probe: false, history: false },
            flows: Seq::empty(),
            last_seen: at,
        },
    }
}

proof fn lemma_replaced(
    details: Seq<(IdentityView, DetailView)>,
    key: IdentityView,
    detail: DetailView,
    asked: IdentityView,
)
    ensures
        detail_of(replaced(details, key, detail), key) == Some(detail),
        asked != key ==> detail_of(replaced(details, key, detail), asked) == detail_of(
            details,
            asked,
        ),
{
    let after = replaced(details, key, detail);
    lemma_row_of(details, key);
    lemma_row_of(details, asked);
    lemma_row_of(after, key);
    lemma_row_of(after, asked);
    match row_of(details, key) {
        Some(place) => {
            assert(after[place].0 == key);
            let found = row_of(after, key)->0;
            if found < place {
                assert(after[found] == details[found]);
            }
        },
        None => {
            assert(after[details.len() as int].0 == key);
            let found = row_of(after, key)->0;
            if found < details.len() {
                assert(after[found] == details[found]);
            }
        },
    }
    if asked != key {
        match row_of(details, asked) {
            Some(place) => {
                assert(after[place] == details[place]);
                let found = row_of(after, asked)->0;
                if found < place {
                    assert(after[found] == details[found] || after[found].0 == key);
                    assert(details[found].0 != asked);
                } else if place < found {
                    assert(after[place].0 != asked);
                }
            },
            None => {
                if row_of(after, asked) is Some {
                    let found = row_of(after, asked)->0;
                    assert(after[found].0 == asked);
                    if found < details.len() {
                        assert(details[found].0 != asked);
                        assert(after[found] == details[found] || after[found].0 == key);
                    }
                }
            },
        }
    }
}

/// Bytes that are charged to one process count as its own, on their connection, with what they
/// rest on. What it shares, and what is told of every other process, stays as it was.
pub proof fn lemma_own_traffic_is_told(
    details: Seq<(IdentityView, DetailView)>,
    process: ObservedProcess,
    direction: Direction,
    bytes: u64,
    observed_at: i128,
    evidence: Evidence,
    flow: ProcFlowKey,
    other: IdentityView,
)
    ensures
        ({
            let key = process_view(process);
            let after = detailed(
                details,
                StatsEntry::Exclusive { process, direction, bytes, observed_at, evidence, flow },
            );
            let was = told_of(details, key, observed_at);
            &&& other != key ==> detail_of(after, other) == detail_of(details, other)
            &&& detail_of(after, key) matches Some(now) && {
                &&& channel_grown(was.exclusive, direction, bytes, now.exclusive)
                &&& now.shared == was.shared
                &&& now.shared_with == was.shared_with
                &&& now.flows == charged(was.flows, flow, direction, bytes, observed_at)
                &&& now.evidence.snapshot == (was.evidence.snapshot || evidence
                    == Evidence::Snapshot)
                &&& now.evidence.probe == (was.evidence.probe || evidence == Evidence::Probe)
                &&& now.evidence.history == (was.evidence.history || evidence == Evidence::History)
                &&& now.last_seen >= was.last_seen
                &&& now.last_seen >= observed_at
                &&& now.last_seen == was.last_seen || now.last_seen == observed_at
            }
        }),
{
    let key = process_view(process);
    let after = crate::process_detail::detail_or_none(details, key, observed_at).with_exclusive(
        direction,
        bytes,
        observed_at,
        evidence,
        flow,
    );
    lemma_replaced(details, key, after, other);
}

proof fn lemma_shared_prefix(
    details: Seq<(IdentityView, DetailView)>,
    candidates: Seq<ObservedProcess>,
    count: nat,
    way: Direction,
    bytes: u64,
    at: i128,
    flow: ProcFlowKey,
    asked: IdentityView,
)
    requires
        count <= candidates.len(),
        forall|i: int, j: int|
            #![trigger candidates[i], candidates[j]]
            0 <= i < j < candidates.len() ==> process_view(candidates[i]) != process_view(
                candidates[j],
            ),
    ensures
        ({
            let after = shared_by_each(details, candidates, count, way, bytes, at, flow);
            let was = crate::process_detail::detail_or_none(details, asked, at);
            let among = exists|i: int|
                0 <= i < count && process_view(#[trigger] candidates[i]) == asked;
            &&& !among ==> detail_of(after, asked) == detail_of(details, asked)
            &&& among ==> detail_of(after, asked) == Some(
                was.with_shared(asked, candidates, way, bytes, at, flow),
            )
        }),
    decreases count,
{
    if count > 0 {
        let less = (count - 1) as nat;
        lemma_shared_prefix(details, candidates, less, way, bytes, at, flow, asked);
        let before = shared_by_each(details, candidates, less, way, bytes, at, flow);
        let key = process_view(candidates[count - 1]);
        let detail = crate::process_detail::detail_or_none(before, key, at).with_shared(
            key,
            candidates,
            way,
            bytes,
            at,
            flow,
        );
        lemma_replaced(before, key, detail, asked);
        if asked == key {
            assert forall|i: int| 0 <= i < less implies process_view(#[trigger] candidates[i])
                != asked by {
                assert(process_view(candidates[i]) != process_view(candidates[count - 1]));
            }
        } else if exists|i: int|
            0 <= i < count && process_view(#[trigger] candidates[i]) == asked {
            let i = choose|i: int|
                0 <= i < count && process_view(#[trigger] candidates[i]) == asked;
            assert(i < less);
        }
    }
}

/// Bytes that several processes share count for each of them as shared, once, on their
/// connection, with the numbers of the others. What is each one's own, and what is told of
/// everybody else, stays as it was.
pub proof fn lemma_shared_traffic_is_told_of_each(
    details: Seq<(IdentityView, DetailView)>,
    candidates: Vec<ObservedProcess>,
    direction: Direction,
    bytes: u64,
    observed_at: i128,
    flow: ProcFlowKey,
    asked: IdentityView,
)
    requires
        forall|i: int, j: int|
            #![trigger candidates@[i], candidates@[j]]
            0 <= i < j < candidates@.len() ==> process_view(candidates@[i]) != process_view(
                candidates@[j],
            ),
    ensures
        ({
            let after = detailed(
                details,
                StatsEntry::Shared { candidates, direction, bytes, observed_at, flow },
            );
            let was = told_of(details, asked, observed_at);
            let among = exists|i: int|
                0 <= i < candidates@.len() && process_view(#[trigger] candidates@[i]) == asked;
            &&& !among ==> detail_of(after, asked) == detail_of(details, asked)
            &&& among ==> (detail_of(after, asked) matches Some(now) && {
                &&& channel_grown(was.shared, direction, bytes, now.shared)
                &&& now.exclusive == was.exclusive
                &&& now.evidence == was.evidence
                &&& now.shared_with == joined(was.shared_with, candidates@, asked)
                &&& now.flows == charged(was.flows, flow, direction, bytes, observed_at)
                &&& now.last_seen >= was.last_seen
                &&& now.last_seen >= observed_at
                &&& now.last_seen == was.last_seen || now.last_seen == observed_at
            })
        }),
{
    lemma_shared_prefix(
        details,
        candidates@,
        candidates@.len(),
        direction,
        bytes,
        observed_at,
        flow,
        asked,
    );
}

/// The numbers of those that a process shares traffic with: those that were listed, in their
/// places, and behind them those of the other candidates, each once.
pub proof fn lemma_sharers_are_listed(
    listed: Seq<u32>,
    candidates: Seq<ObservedProcess>,
    key: IdentityView,
    pid: u32,
)
    ensures
        listed.len() <= joined(listed, candidates, key).len(),
        forall|i: int|
            0 <= i < listed.len() ==> #[trigger] joined(listed, candidates, key)[i] == listed[i],
        listed.no_duplicates() ==> joined(listed, candidates, key).no_duplicates(),
        joined(listed, candidates, key).contains(pid) <==> listed.contains(pid) || exists|c: int|
            0 <= c < candidates.len() && (#[trigger] candidates[c]).pid == pid && process_view(
                candidates[c],
            ) != key,
    decreases candidates.len(),
{
    if candidates.len() == 0 {
        let whole = joined(listed, candidates, key);
        assert(whole == listed);
    } else {
        let shorter = candidates.drop_last();
        let last = candidates.last();
        lemma_sharers_are_listed(listed, shorter, key, pid);
        let prior = joined(listed, shorter, key);
        let whole = joined(listed, candidates, key);
        assert(candidates[candidates.len() - 1] == last);
        if whole.contains(pid) {
            let i = choose|i: int| 0 <= i < whole.len() && whole[i] == pid;
            if i < prior.len() {
                assert(prior[i] == pid);
                assert(prior.contains(pid));
                if !listed.contains(pid) {
                    let c = choose|c: int|
                        0 <= c < shorter.len() && (#[trigger] shorter[c]).pid == pid
                            && process_view(shorter[c]) != key;
                    assert(candidates[c] == shorter[c]);
                }
            }
        }
        if prior.contains(pid) {
            let i = choose|i: int| 0 <= i < prior.len() && prior[i] == pid;
            assert(whole[i] == pid);
        }
        if exists|c: int|
            0 <= c < candidates.len() && (#[trigger] candidates[c]).pid == pid && process_view(
                candidates[c],
            ) != key {
            let c = choose|c: int|
                0 <= c < candidates.len() && (#[trigger] candidates[c]).pid == pid && process_view(
                    candidates[c],
                ) != key;
            if c < shorter.len() {
                assert(shorter[c] == candidates[c]);
            } else if !prior.contains(pid) {
                assert(whole[prior.len() as int] == pid);
            }
        }
    }
}

/// What an own charge rests on is told in words, in a fixed order.
pub proof fn lemma_evidence_in_words(evidence: EvidenceSet)
    ensures
        ({
            let word = |so: bool, word: Seq<char>|
                if so {
                    seq![word]
                } else {
                    Seq::<Seq<char>>::empty()
                };
            evidence.words() == word(evidence.snapshot, "snapshot"@) + word(
                evidence.probe,
                "probe"@,
            ) + word(evidence.history, "history"@)
        }),
{
}

/// The bytes of a process are its own and those that it shares, direction by direction.
pub proof fn lemma_bytes_of_a_process_are_own_and_shared(detail: DetailView)
    ensures
        sum_to_limit(detail.exclusive.inbound, detail.shared.inbound, detail.sum().inbound),
        sum_to_limit(detail.exclusive.outbound, detail.shared.outbound, detail.sum().outbound),
        detail.sum().last_seen == detail.last_seen,
{
}

/// Each number of a report is the count of that name.
pub proof fn lemma_every_count_is_reported_under_its_name(
    snapshot: DiagnosticsSnapshot,
    proc: ProcDiagnosticsSnapshot,
    inputs: DiagnosticsInputs,
)
    requires
        made_of(snapshot, proc, inputs),
    ensures
        snapshot.counters.lookup_hits == proc.counters.lookup_hits,
        snapshot.counters.lookup_misses == proc.counters.lookup_misses,
        snapshot.counters.lookup_no_candidate == proc.counters.lookup_no_candidate,
        snapshot.counters.lookup_ambiguous == proc.counters.lookup_ambiguous,
        snapshot.counters.lookup_stale == proc.counters.lookup_stale,
        snapshot.counters.lookup_no_candidate_bytes == proc.counters.lookup_no_candidate_bytes,
        snapshot.counters.lookup_ambiguous_bytes == proc.counters.lookup_ambiguous_bytes,
        snapshot.counters.lookup_stale_bytes == proc.counters.lookup_stale_bytes,
        snapshot.counters.lookup_v4_mapped_hits == proc.counters.lookup_v4_mapped_hits,
        snapshot.counters.no_local_socket == proc.counters.no_local_socket,
        snapshot.counters.refresh_requests == proc.counters.refresh_requests,
        snapshot.counters.refresh_actual == proc.counters.refresh_actual,
        snapshot.counters.refresh_success == proc.counters.refresh_success,
        snapshot.counters.refresh_failure == proc.counters.refresh_failure,
        snapshot.counters.refresh_records == proc.counters.refresh_records,
        snapshot.counters.refresh_v4_mapped_records == proc.counters.refresh_v4_mapped_records,
        snapshot.counters.probe_request_queued == inputs.pending.counters.probe_request_queued,
        snapshot.counters.probe_result_unique == inputs.pending.counters.probe_result_unique,
        snapshot.counters.probe_result_not_found == inputs.pending.counters.probe_result_not_found,
        snapshot.counters.probe_result_ambiguous == inputs.pending.counters.probe_result_ambiguous,
        snapshot.counters.probe_result_unavailable == inputs.pending.counters.probe_result_unavailable,
        snapshot.counters.probe_result_dropped == inputs.pending.counters.probe_result_dropped,
        snapshot.counters.probe_result_late == inputs.pending.counters.probe_result_late,
        snapshot.counters.probe_query_count == inputs.pending.probe_query_count,
        snapshot.counters.probe_query_ms == inputs.pending.probe_query_ms,
        snapshot.counters.pending_expired_bytes == inputs.pending.counters.pending_expired_bytes,
        snapshot.counters.pending_capacity_bytes == inputs.pending.counters.pending_capacity_bytes,
        snapshot.counters.probe_unique_pending_bytes == inputs.pending.counters.probe_unique_pending_bytes,
        snapshot.counters.probe_not_found_pending_bytes == inputs.pending.counters.probe_not_found_pending_bytes,
        snapshot.counters.probe_ambiguous_pending_bytes == inputs.pending.counters.probe_ambiguous_pending_bytes,
        snapshot.counters.probe_unavailable_pending_bytes == inputs.pending.counters.probe_unavailable_pending_bytes,
        snapshot.counters.ip_promotions == inputs.stats.ip_promotions,
        snapshot.counters.ip_demotions == inputs.stats.ip_demotions,
        snapshot.counters.ip_evictions_heavy == inputs.stats.ip_evictions_heavy,
        snapshot.counters.ip_evictions_rising == inputs.stats.ip_evictions_rising,
        snapshot.counters.ip_evictions_observation == inputs.stats.ip_evictions_observation,
        snapshot.gauges.flow_table_entries == inputs.flow_table_entries,
        snapshot.gauges.process_entries == inputs.stats.process_entries,
        snapshot.gauges.domain_entries == inputs.stats.domain_entries,
        snapshot.gauges.last_refresh_ms == proc.counters.last_refresh_duration_nanos / 1_000_000,
        snapshot.gauges.pending_records == inputs.pending.records,
        snapshot.gauges.pending_bytes == inputs.pending.bytes,
        snapshot.gauges.probe_last_query_ms == inputs.pending.probe_last_query_ms,
        snapshot.ip.inbound_entries == inputs.stats.inbound_ip_entries,
        snapshot.ip.outbound_entries == inputs.stats.outbound_ip_entries,
        snapshot.ip.inbound_heavy_entries == inputs.stats.inbound_heavy_ip_entries,
        snapshot.ip.inbound_rising_entries == inputs.stats.inbound_rising_ip_entries,
        snapshot.ip.inbound_observation_entries == inputs.stats.inbound_observation_ip_entries,
        snapshot.ip.outbound_heavy_entries == inputs.stats.outbound_heavy_ip_entries,
        snapshot.ip.outbound_rising_entries == inputs.stats.outbound_rising_ip_entries,
        snapshot.ip.outbound_observation_entries == inputs.stats.outbound_observation_ip_entries,
        inputs.pcap is None ==> snapshot.counters.pcap_received == 0
            && snapshot.counters.pcap_dropped == 0 && snapshot.counters.pcap_if_dropped == 0,
        inputs.pcap matches Some(pcap) ==> snapshot.counters.pcap_received == pcap.received
            && snapshot.counters.pcap_dropped == pcap.dropped && snapshot.counters.pcap_if_dropped
            == pcap.if_dropped,
{
}

/// The examples of missed lookups are told in their order, each with its reason, its transport,
/// its own end and its peer.
pub proof fn lemma_missed_lookups_are_told(
    snapshot: DiagnosticsSnapshot,
    proc: ProcDiagnosticsSnapshot,
    inputs: DiagnosticsInputs,
    i: int,
)
    requires
        made_of(snapshot, proc, inputs),
        0 <= i < proc.lookup_miss_samples@.len(),
    ensures
        snapshot.miss_samples@.len() == proc.lookup_miss_samples@.len(),
        ({
            let told = snapshot.miss_samples@[i]@;
            let sample = proc.lookup_miss_samples@[i];
            &&& sample.reason == LookupMissReason::NoCandidate ==> told.reason == "no_candidate"@
            &&& sample.reason == LookupMissReason::Ambiguous ==> told.reason == "ambiguous"@
            &&& sample.reason == LookupMissReason::Stale ==> told.reason == "stale"@
            &&& sample.local_socket.protocol == TransportProtocol::Tcp ==> told.protocol == "tcp"@
            &&& sample.local_socket.protocol == TransportProtocol::Udp ==> told.protocol == "udp"@
            &&& told.local == ip_text(sample.local_socket.ip) + seq![':'] + decimal(
                sample.local_socket.port as nat,
            )
            &&& told.peer == ip_text(sample.peer_ip) + seq![':'] + decimal(sample.peer_port as nat)
        }),
{
    let told = crate::diagnostics::told_views(snapshot.miss_samples@);
    let made = crate::diagnostics::sample_views(proc.lookup_miss_samples@);
    assert(told.len() == snapshot.miss_samples@.len());
    assert(told[i] == snapshot.miss_samples@[i]@);
    assert(made[i] == told[i]);
}

/// A report is written as one record with the numbers and how many examples follow, and behind
/// it one for each example, in their order, all under the same header.
pub proof fn lemma_reports_are_written_record_by_record(
    records: Seq<DiagnosticsRecord>,
    header: HeaderView,
    snapshot: DiagnosticsSnapshot,
)
    requires
        records_of(records, header, snapshot),
    ensures
        records.len() == snapshot.miss_samples@.len() + 1,
        records[0] matches DiagnosticsRecord::Snapshot {
            header: own,
            counters,
            gauges,
            ip,
            miss_sample_count,
        } && own@ == header && counters == snapshot.counters && gauges == snapshot.gauges && ip
            == snapshot.ip && miss_sample_count == snapshot.miss_samples@.len(),
        forall|i: int|
            1 <= i < records.len() ==> ((#[trigger] records[i]) matches
                DiagnosticsRecord::LookupMissSample { header: own, sample } && own@ == header
                && sample@ == snapshot.miss_samples@[i - 1]@),
{
}

/// A record is called after what it holds.
pub proof fn lemma_records_are_called_after_their_contents(record: DiagnosticsRecord)
    ensures
        record is Snapshot <==> kind_text(record) == "snapshot"@,
        record is LookupMissSample <==> kind_text(record) == "lookup_miss_sample"@,
{
    reveal_strlit("snapshot");
    reveal_strlit("lookup_miss_sample");
    assert("snapshot"@.len() != "lookup_miss_sample"@.len());
}

} // verus!
