//! How ledger lines add up, and which of the sums a snapshot shows.

use vstd::prelude::*;

use crate::net::{Direction, IpAddr};
use crate::stats::{ObservedProcess, StatsEntry};
use crate::text::text_view;
use crate::traffic::{
    charged, charged_each, descending, lemma_ranking, lemma_row_of, process_view, ranked,
    ranked_in, row_of, top, IdentityView, Tally, TotalsView,
};

verus! {

/// A sum of 64 bits that stops at the largest number.
pub open spec fn sum_to_limit(left: u64, right: u64, sum: u64) -> bool {
    ||| left + right <= 0xffff_ffff_ffff_ffff && sum == left + right
    ||| left + right > 0xffff_ffff_ffff_ffff && sum == 0xffff_ffff_ffff_ffff
}

/// Whether a count has grown by the bytes of one direction: the other direction is the same,
/// and the count was last seen at the later of the two times.
pub open spec fn grown(before: Tally, way: Direction, bytes: u64, at: i128, after: Tally) -> bool {
    &&& match way {
        Direction::Inbound => sum_to_limit(before.inbound, bytes, after.inbound) && after.outbound
            == before.outbound,
        Direction::Outbound => sum_to_limit(before.outbound, bytes, after.outbound)
            && after.inbound == before.inbound,
    }
    &&& after.last_seen >= before.last_seen
    &&& after.last_seen >= at
    &&& after.last_seen == before.last_seen || after.last_seen == at
}

/// The bytes of both directions are their sum.
pub proof fn lemma_total_is_the_sum(tally: Tally)
    ensures
        sum_to_limit(tally.inbound, tally.outbound, tally.both()),
{
}

/// Bytes that are charged to a key go to its line alone: the first line that has the key grows
/// by them, in their direction, and every other line stays as it was and where it was. Without
/// such a line there is one more at the end, with these bytes and nothing else.
pub proof fn lemma_charge_goes_to_one_line<V>(
    rows: Seq<(V, Tally)>,
    key: V,
    way: Direction,
    bytes: u64,
    at: i128,
    i: int,
)
    requires
        0 <= i <= rows.len(),
        forall|earlier: int| 0 <= earlier < i ==> (#[trigger] rows[earlier]).0 != key,
        i < rows.len() ==> rows[i].0 == key,
    ensures
        ({
            let after = charged(rows, key, way, bytes, at);
            &&& after.len() == if i < rows.len() {
                rows.len()
            } else {
                rows.len() + 1
            }
            &&& forall|j: int| 0 <= j < rows.len() && j != i ==> #[trigger] after[j] == rows[j]
            &&& after[i].0 == key
            &&& i < rows.len() ==> grown(rows[i].1, way, bytes, at, after[i].1)
            &&& i == rows.len() ==> after[i].1 == match way {
                Direction::Inbound => Tally { inbound: bytes, outbound: 0, last_seen: at },
                Direction::Outbound => Tally { inbound: 0, outbound: bytes, last_seen: at },
            }
        }),
{
    lemma_row_of(rows, key);
    match row_of(rows, key) {
        Some(place) => {
            if place < i {
                assert(rows[place].0 != key);
            }
            if i < place {
                assert(rows[i].0 != key);
            }
        },
        None => {
            if i < rows.len() {
                assert(rows[i].0 != key);
            }
        },
    }
}

/// The bytes that a list has for a key, in both directions, with the time at which it was last
/// seen; nothing without a line.
pub open spec fn count_of<V>(rows: Seq<(V, Tally)>, key: V) -> Option<Tally> {
    match row_of(rows, key) {
        Some(place) => Some(rows[place].1),
        None => None,
    }
}

proof fn lemma_count_after<V>(
    rows: Seq<(V, Tally)>,
    key: V,
    way: Direction,
    bytes: u64,
    at: i128,
    asked: V,
)
    ensures
        asked != key ==> count_of(charged(rows, key, way, bytes, at), asked) == count_of(
            rows,
            asked,
        ),
        count_of(charged(rows, key, way, bytes, at), key) == Some(
            match count_of(rows, key) {
                Some(tally) => tally.plus(way, bytes, at),
                None => Tally::none(at).plus(way, bytes, at),
            },
        ),
{
    let after = charged(rows, key, way, bytes, at);
    lemma_row_of(rows, key);
    lemma_row_of(rows, asked);
    lemma_row_of(after, key);
    lemma_row_of(after, asked);
    match row_of(rows, key) {
        Some(place) => {
            assert(after[place].0 == key);
            let found = row_of(after, key)->0;
            if found < place {
                assert(after[found] == rows[found]);
            }
        },
        None => {
            assert(after[rows.len() as int].0 == key);
            let found = row_of(after, key)->0;
            if found < rows.len() {
                assert(after[found] == rows[found]);
            }
        },
    }
    if asked != key {
        match row_of(rows, asked) {
            Some(place) => {
                assert(after[place] == rows[place]);
                let found = row_of(after, asked)->0;
                if found < place {
                    assert(after[found] == rows[found] || after[found].0 == key);
                    assert(rows[found].0 != asked);
                } else if place < found {
                    assert(after[place].0 != asked);
                }
            },
            None => {
                if row_of(after, asked) is Some {
                    let found = row_of(after, asked)->0;
                    assert(after[found].0 == asked);
                    if found < rows.len() {
                        assert(rows[found].0 != asked);
                        assert(after[found] == rows[found] || after[found].0 == key);
                    }
                }
            },
        }
    }
}

/// Of traffic that several processes share, each of them is listed with the whole, once, and
/// nobody else's count changes.
pub proof fn lemma_shared_traffic_counts_once_for_each(
    rows: Seq<(IdentityView, Tally)>,
    candidates: Seq<ObservedProcess>,
    way: Direction,
    bytes: u64,
    at: i128,
    asked: IdentityView,
)
    requires
        forall|i: int, j: int|
            #![trigger candidates[i], candidates[j]]
            0 <= i < j < candidates.len() ==> process_view(candidates[i]) != process_view(
                candidates[j],
            ),
    ensures
        ({
            let before = count_of(rows, asked);
            let after = count_of(charged_each(rows, candidates, way, bytes, at), asked);
            let among = exists|i: int|
                0 <= i < candidates.len() && process_view(#[trigger] candidates[i]) == asked;
            &&& !among ==> after == before
            &&& among ==> (after matches Some(tally) && match before {
                Some(earlier) => grown(earlier, way, bytes, at, tally),
                None => tally.last_seen == at && match way {
                    Direction::Inbound => tally.inbound == bytes && tally.outbound == 0,
                    Direction::Outbound => tally.inbound == 0 && tally.outbound == bytes,
                },
            })
        }),
    decreases candidates.len(),
{
    if candidates.len() > 0 {
        let shorter = candidates.drop_last();
        let last = candidates.last();
        let mid = charged_each(rows, shorter, way, bytes, at);
        assert forall|i: int, j: int|
            #![trigger shorter[i], shorter[j]]
            0 <= i < j < shorter.len() implies process_view(shorter[i]) != process_view(
            shorter[j],
        ) by {
            assert(shorter[i] == candidates[i] && shorter[j] == candidates[j]);
        }
        lemma_shared_traffic_counts_once_for_each(rows, shorter, way, bytes, at, asked);
        lemma_count_after(mid, process_view(last), way, bytes, at, asked);
        assert(candidates[candidates.len() - 1] == last);
        if asked == process_view(last) {
            assert forall|i: int| 0 <= i < shorter.len() implies process_view(
                #[trigger] shorter[i],
            ) != asked by {
                assert(shorter[i] == candidates[i]);
                assert(process_view(candidates[i]) != process_view(candidates[candidates.len() - 1]));
            }
        } else if exists|i: int|
            0 <= i < candidates.len() && process_view(#[trigger] candidates[i]) == asked {
            let i = choose|i: int|
                0 <= i < candidates.len() && process_view(#[trigger] candidates[i]) == asked;
            assert(shorter[i] == candidates[i]);
        } else {
            assert forall|i: int| 0 <= i < shorter.len() implies process_view(
                #[trigger] shorter[i],
            ) != asked by {
                assert(shorter[i] == candidates[i]);
            }
        }
    }
}

/// Two processes are listed apart if their number, name or path differs.
pub proof fn lemma_processes_are_told_apart(left: ObservedProcess, right: ObservedProcess)
    ensures
        process_view(left) == process_view(right) <==> left.pid == right.pid && text_view(left.name)
            == text_view(right.name) && text_view(left.path) == text_view(right.path),
        process_view(left) != IdentityView::Unattributed,
{
}

/// Bytes that cross the interface count in their direction, or in both if they pass between two
/// local sockets. They are listed for their peer in their own direction alone, and for no
/// process and no host.
pub proof fn lemma_interface_line(
    before: TotalsView,
    direction: Direction,
    peer: IpAddr,
    bytes: u64,
    both_local: bool,
    observed_at: i128,
)
    ensures
        ({
            let after = before.with_entry(
                StatsEntry::Interface { direction, peer, bytes, both_local, observed_at },
            );
            &&& direction == Direction::Inbound || both_local ==> sum_to_limit(
                before.in_bytes,
                bytes,
                after.in_bytes,
            )
            &&& direction == Direction::Outbound || both_local ==> sum_to_limit(
                before.out_bytes,
                bytes,
                after.out_bytes,
            )
            &&& direction == Direction::Outbound && !both_local ==> after.in_bytes
                == before.in_bytes
            &&& direction == Direction::Inbound && !both_local ==> after.out_bytes
                == before.out_bytes
            &&& direction == Direction::Inbound ==> after.inbound_ips == charged(
                before.inbound_ips,
                peer,
                Direction::Inbound,
                bytes,
                observed_at,
            ) && after.outbound_ips == before.outbound_ips
            &&& direction == Direction::Outbound ==> after.outbound_ips == charged(
                before.outbound_ips,
                peer,
                Direction::Outbound,
                bytes,
                observed_at,
            ) && after.inbound_ips == before.inbound_ips
            &&& after.processes == before.processes
            &&& after.hosts == before.hosts
            &&& after.attribution == before.attribution
        }),
{
}

/// The bytes of a flow with a host name are listed for that name; those without one for none.
/// Neither changes anything else.
pub proof fn lemma_host_line_of_the_ledger(
    before: TotalsView,
    domain: Option<String>,
    direction: Direction,
    bytes: u64,
    observed_at: i128,
)
    ensures
        ({
            let after = before.with_entry(
                StatsEntry::Domain { domain, direction, bytes, observed_at },
            );
            &&& domain is None ==> after == before
            &&& domain matches Some(name) ==> after.hosts == charged(
                before.hosts,
                name@,
                direction,
                bytes,
                observed_at,
            )
            &&& after.in_bytes == before.in_bytes
            &&& after.out_bytes == before.out_bytes
            &&& after.processes == before.processes
            &&& after.inbound_ips == before.inbound_ips
            &&& after.outbound_ips == before.outbound_ips
            &&& after.attribution == before.attribution
        }),
{
}

/// Bytes that are charged to one process, to several, to no socket or to nobody count in the
/// channel of that kind, in their direction, and in no other. They are listed for the process,
/// for each of the several, for no process, or for the unknown owner. They change neither what
/// crossed the interface nor the hosts and addresses.
pub proof fn lemma_charge_lines_of_the_ledger(before: TotalsView, entry: StatsEntry)
    requires
        !(entry is Interface),
        !(entry is Domain),
    ensures
        ({
            let after = before.with_entry(entry);
            let counts = |was: crate::traffic::Channel, way: Direction, bytes: u64,
                now: crate::traffic::Channel|
                match way {
                    Direction::Inbound => sum_to_limit(was.inbound, bytes, now.inbound)
                        && now.outbound == was.outbound,
                    Direction::Outbound => sum_to_limit(was.outbound, bytes, now.outbound)
                        && now.inbound == was.inbound,
                };
            let was = before.attribution;
            let now = after.attribution;
            &&& entry matches StatsEntry::Exclusive {
                process,
                direction,
                bytes,
                observed_at,
                ..
            } ==> {
                &&& counts(was.exclusive, direction, bytes, now.exclusive)
                &&& after.processes == charged(
                    before.processes,
                    process_view(process),
                    direction,
                    bytes,
                    observed_at,
                )
            }
            &&& entry matches StatsEntry::Shared {
                candidates,
                direction,
                bytes,
                observed_at,
                ..
            } ==> {
                &&& counts(was.shared, direction, bytes, now.shared)
                &&& after.processes == charged_each(
                    before.processes,
                    candidates@,
                    direction,
                    bytes,
                    observed_at,
                )
            }
            &&& entry matches StatsEntry::System { direction, bytes, .. } ==> {
                &&& counts(was.system, direction, bytes, now.system)
                &&& after.processes == before.processes
            }
            &&& entry matches StatsEntry::Unattributed { direction, bytes, observed_at } ==> {
                &&& counts(was.unattributed, direction, bytes, now.unattributed)
                &&& after.processes == charged(
                    before.processes,
                    IdentityView::Unattributed,
                    direction,
                    bytes,
                    observed_at,
                )
            }
            &&& !(entry is Exclusive) ==> now.exclusive == was.exclusive
            &&& !(entry is Shared) ==> now.shared == was.shared
            &&& !(entry is System) ==> now.system == was.system
            &&& !(entry is Unattributed) ==> now.unattributed == was.unattributed
            &&& after.in_bytes == before.in_bytes
            &&& after.out_bytes == before.out_bytes
            &&& after.hosts == before.hosts
            &&& after.inbound_ips == before.inbound_ips
            &&& after.outbound_ips == before.outbound_ips
        }),
{
}

proof fn lemma_place_in_ranking<V>(rows: Seq<(V, Tally)>, row: (V, Tally)) -> (p: int)
    requires
        descending(rows),
    ensures
        0 <= p <= rows.len(),
        ranked_in(rows, row) == rows.take(p).push(row) + rows.skip(p),
        forall|i: int| 0 <= i < p ==> (#[trigger] rows[i]).1.both() >= row.1.both(),
        forall|i: int| p <= i < rows.len() ==> (#[trigger] rows[i]).1.both() < row.1.both(),
    decreases rows.len(),
{
    if rows.len() == 0 || rows.last().1.both() >= row.1.both() {
        let p = rows.len() as int;
        assert(ranked_in(rows, row) =~= rows.take(p).push(row) + rows.skip(p));
        assert forall|i: int| 0 <= i < p implies (#[trigger] rows[i]).1.both() >= row.1.both() by {
            assert(rows[i].1.both() >= rows[rows.len() - 1].1.both());
        }
        p
    } else {
        let shorter = rows.drop_last();
        let p = lemma_place_in_ranking(shorter, row);
        assert(shorter.take(p) =~= rows.take(p));
        assert(shorter.skip(p).push(rows.last()) =~= rows.skip(p));
        assert(ranked_in(rows, row) =~= rows.take(p).push(row) + rows.skip(p));
        assert forall|i: int| 0 <= i < p implies (#[trigger] rows[i]).1.both() >= row.1.both() by {
            assert(shorter[i] == rows[i]);
        }
        assert forall|i: int| p <= i < rows.len() implies (#[trigger] rows[i]).1.both()
            < row.1.both() by {
            if i < shorter.len() {
                assert(shorter[i] == rows[i]);
            }
        }
        p
    }
}

/// Of two lines, the one with more bytes is ranked first, and of two with as many the one that
/// was listed first.
pub proof fn lemma_ranking_keeps_equal_lines_in_order<V>(rows: Seq<(V, Tally)>, i: int, j: int) -> (
    places: (int, int))
    requires
        0 <= i < j < rows.len(),
    ensures
        0 <= places.0 < rows.len(),
        0 <= places.1 < rows.len(),
        ranked(rows).len() == rows.len(),
        ranked(rows)[places.0] == rows[i],
        ranked(rows)[places.1] == rows[j],
        rows[i].1.both() >= rows[j].1.both() ==> places.0 < places.1,
        rows[i].1.both() < rows[j].1.both() ==> places.1 < places.0,
    decreases rows.len(),
{
    lemma_ranking(rows);
    let shorter = rows.drop_last();
    let row = rows.last();
    lemma_ranking(shorter);
    let inner = ranked(shorter);
    let whole = ranked(rows);
    let p = lemma_place_in_ranking(inner, row);
    assert(whole == inner.take(p).push(row) + inner.skip(p));
    if j < shorter.len() {
        let (a, b) = lemma_ranking_keeps_equal_lines_in_order(shorter, i, j);
        assert(shorter[i] == rows[i] && shorter[j] == rows[j]);
        let a2 = if a < p { a } else { a + 1 };
        let b2 = if b < p { b } else { b + 1 };
        assert(whole[a2] == inner[a]);
        assert(whole[b2] == inner[b]);
        (a2, b2)
    } else {
        let a = lemma_row_is_ranked(shorter, i);
        assert(shorter[i] == rows[i]);
        let a2 = if a < p { a } else { a + 1 };
        assert(whole[a2] == inner[a]);
        assert(whole[p] == row);
        (a2, p)
    }
}

proof fn lemma_row_is_ranked<V>(rows: Seq<(V, Tally)>, i: int) -> (p: int)
    requires
        0 <= i < rows.len(),
    ensures
        0 <= p < ranked(rows).len(),
        ranked(rows)[p] == rows[i],
    decreases rows.len(),
{
    let shorter = rows.drop_last();
    lemma_ranking(shorter);
    let inner = ranked(shorter);
    let place = lemma_place_in_ranking(inner, rows.last());
    let whole = ranked(rows);
    if i < shorter.len() {
        let p = lemma_row_is_ranked(shorter, i);
        assert(shorter[i] == rows[i]);
        let p2 = if p < place { p } else { p + 1 };
        assert(whole[p2] == inner[p]);
        p2
    } else {
        assert(whole[place] == rows.last());
        place
    }
}

/// A list of the busiest has as many lines as are asked for, or all if there are fewer. Its
/// lines are lines of the list, the busiest first, and every line that is left out has no more
/// bytes than any line that is in.
pub proof fn lemma_the_busiest_are_listed<V>(rows: Seq<(V, Tally)>, top_n: nat)
    ensures
        top(rows, top_n).len() == if top_n < rows.len() {
            top_n
        } else {
            rows.len()
        },
        forall|i: int, j: int|
            0 <= i <= j < top(rows, top_n).len() ==> (#[trigger] top(rows, top_n)[i]).1.both() >= (
            #[trigger] top(rows, top_n)[j]).1.both(),
        forall|i: int|
            0 <= i < top(rows, top_n).len() ==> rows.contains(#[trigger] top(rows, top_n)[i]),
        forall|k: int, i: int|
            #![trigger rows[k], top(rows, top_n)[i]]
            0 <= k < rows.len() && !top(rows, top_n).contains(rows[k]) && 0 <= i < top(
                rows,
                top_n,
            ).len() ==> rows[k].1.both() <= top(rows, top_n)[i].1.both(),
{
    broadcast use vstd::seq_lib::group_to_multiset_ensures;

    lemma_ranking(rows);
    let all = ranked(rows);
    let listed = top(rows, top_n);
    assert forall|i: int| 0 <= i < listed.len() implies rows.contains(#[trigger] listed[i]) by {
        assert(listed[i] == all[i]);
        assert(all.contains(all[i]));
        assert(all.to_multiset().count(all[i]) > 0);
        assert(rows.to_multiset().count(all[i]) > 0);
    }
    assert forall|k: int, i: int|
        #![trigger rows[k], listed[i]]
        0 <= k < rows.len() && !listed.contains(rows[k]) && 0 <= i < listed.len() implies
        rows[k].1.both() <= listed[i].1.both() by {
        let p = lemma_row_is_ranked(rows, k);
        assert(listed[i] == all[i]);
        if p < listed.len() {
            assert(listed[p] == rows[k]);
        }
        assert(all[i].1.both() >= all[p].1.both());
    }
}

} // verus!
