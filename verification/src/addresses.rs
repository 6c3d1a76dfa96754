//! Ordered lists of addresses without repetitions.

use vstd::prelude::*;

use crate::net::IpAddr;

verus! {

/// Whether `left` comes before `right`: IPv4 before IPv6, then by number.
pub open spec fn before(left: IpAddr, right: IpAddr) -> bool {
    match (left, right) {
        (IpAddr::V4(left), IpAddr::V4(right)) => left < right,
        (IpAddr::V4(_), IpAddr::V6(_)) => true,
        (IpAddr::V6(_), IpAddr::V4(_)) => false,
        (IpAddr::V6(left), IpAddr::V6(right)) => left < right,
    }
}

/// Whether each address comes before those behind it.
pub open spec fn ascending(addresses: Seq<IpAddr>) -> bool {
    forall|i: int, j: int|
        0 <= i < j < addresses.len() ==> before(#[trigger] addresses[i], #[trigger] addresses[j])
}

/// Whether `ordered` lists exactly the addresses of `addresses`, each once, in
/// ascending order.
pub open spec fn lists_once(ordered: Seq<IpAddr>, addresses: Seq<IpAddr>) -> bool {
    &&& ascending(ordered)
    &&& forall|ip: IpAddr| #[trigger] ordered.contains(ip) <==> addresses.contains(ip)
}

/// Only one list holds given addresses, each once, in ascending order.
pub proof fn lemma_one_ascending_list(left: Seq<IpAddr>, right: Seq<IpAddr>, addresses: Seq<IpAddr>)
    requires
        lists_once(left, addresses),
        lists_once(right, addresses),
    ensures
        left == right,
    decreases left.len(),
{
    if left.len() == 0 {
        if right.len() > 0 {
            assert(right.contains(right[0]));
            assert(left.contains(right[0]));
        }
        assert(left =~= right);
    } else {
        assert(left.contains(left.last()));
        assert(right.contains(left.last()));
        assert(right.contains(right.last()));
        assert(left.contains(right.last()));
        assert(left.last() == right.last());
        let shorter_left = left.drop_last();
        let shorter_right = right.drop_last();
        assert forall|ip: IpAddr| #[trigger] shorter_right.contains(ip) <==> shorter_left.contains(
            ip,
        ) by {
            if shorter_right.contains(ip) {
                let i = choose|i: int| 0 <= i < shorter_right.len() && shorter_right[i] == ip;
                assert(right[i] == ip && before(right[i], right.last()));
                assert(right.contains(ip));
                assert(left.contains(ip));
                let j = choose|j: int| 0 <= j < left.len() && left[j] == ip;
                assert(shorter_left[j] == ip);
            }
            if shorter_left.contains(ip) {
                let i = choose|i: int| 0 <= i < shorter_left.len() && shorter_left[i] == ip;
                assert(left[i] == ip && before(left[i], left.last()));
                assert(left.contains(ip));
                assert(right.contains(ip));
                let j = choose|j: int| 0 <= j < right.len() && right[j] == ip;
                assert(shorter_right[j] == ip);
            }
        }
        lemma_one_ascending_list(shorter_left, shorter_right, shorter_left);
        assert(left =~= shorter_left.push(left.last()));
        assert(right =~= shorter_right.push(right.last()));
    }
}

fn comes_before(left: IpAddr, right: IpAddr) -> (earlier: bool)
    ensures
        earlier == before(left, right),
{
    match (left, right) {
        (IpAddr::V4(left), IpAddr::V4(right)) => left < right,
        (IpAddr::V4(_), IpAddr::V6(_)) => true,
        (IpAddr::V6(_), IpAddr::V4(_)) => false,
        (IpAddr::V6(left), IpAddr::V6(right)) => left < right,
    }
}

/// Adds an address to an ascending list, unless it is there.
fn insert_address(ordered: &mut Vec<IpAddr>, ip: IpAddr)
    requires
        ascending(old(ordered)@),
    ensures
        ascending(final(ordered)@),
        forall|other: IpAddr| #[trigger]
            final(ordered)@.contains(other) <==> other == ip || old(ordered)@.contains(other),
{
    let ghost start = ordered@;
    let mut at: usize = 0;
    while at < ordered.len() && comes_before(ordered[at], ip)
        invariant
            at <= ordered@.len(),
            ordered@ == start,
            ascending(start),
            forall|i: int| 0 <= i < at ==> before(#[trigger] start[i], ip),
        decreases ordered@.len() - at,
    {
        at += 1;
    }
    if at < ordered.len() && ordered[at] == ip {
        assert(start[at as int] == ip);
        return;
    }
    ordered.insert(at, ip);
    assert forall|other: IpAddr| #[trigger] ordered@.contains(other) <==> other == ip
        || start.contains(other) by {
        if start.contains(other) {
            let i = choose|i: int| 0 <= i < start.len() && start[i] == other;
            let moved = if i < at { i } else { i + 1 };
            assert(ordered@[moved] == other);
        }
        if ordered@.contains(other) && other != ip {
            let i = choose|i: int| 0 <= i < ordered@.len() && ordered@[i] == other;
            let origin = if i < at { i } else { i - 1 };
            assert(start[origin] == other);
        }
        assert(ordered@[at as int] == ip);
    }
}

/// The given addresses, each once, in ascending order.
pub fn sorted_addresses(addresses: &Vec<IpAddr>) -> (ordered: Vec<IpAddr>)
    ensures
        lists_once(ordered@, addresses@),
{
    let mut ordered: Vec<IpAddr> = Vec::new();
    let mut i: usize = 0;
    while i < addresses.len()
        invariant
            i <= addresses@.len(),
            lists_once(ordered@, addresses@.take(i as int)),
        decreases addresses@.len() - i,
    {
        let ghost so_far = ordered@;
        insert_address(&mut ordered, addresses[i]);
        assert(addresses@.take(i + 1) =~= addresses@.take(i as int).push(addresses@[i as int]));
        assert forall|ip: IpAddr| #[trigger] ordered@.contains(ip) <==> addresses@.take(
            i + 1,
        ).contains(ip) by {
            let shorter = addresses@.take(i as int);
            let longer = addresses@.take(i + 1);
            if shorter.contains(ip) {
                let k = choose|k: int| 0 <= k < shorter.len() && shorter[k] == ip;
                assert(longer[k] == ip);
            }
            if longer.contains(ip) && ip != addresses@[i as int] {
                let k = choose|k: int| 0 <= k < longer.len() && longer[k] == ip;
                assert(shorter[k] == ip);
            }
            assert(longer[i as int] == addresses@[i as int]);
            assert(so_far.contains(ip) <==> shorter.contains(ip));
        }
        i += 1;
    }
    assert(addresses@.take(i as int) =~= addresses@);
    ordered
}

} // verus!
