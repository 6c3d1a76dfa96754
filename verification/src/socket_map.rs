//! A map keyed by local sockets, kept as a list of pairs with distinct keys.

use vstd::prelude::*;

use crate::net::LocalSocket;

verus! {

/// A map from local sockets to values.
pub struct SocketMap<V> {
    pub slots: Vec<(LocalSocket, V)>,
}

/// No socket occurs twice among the pairs.
pub open spec fn distinct_sockets<V>(slots: Seq<(LocalSocket, V)>) -> bool {
    forall|i: int, j: int|
        #![trigger slots[i], slots[j]]
        0 <= i < j < slots.len() ==> slots[i].0 != slots[j].0
}

/// The map that a list of pairs with distinct sockets spells.
pub open spec fn as_map<V>(slots: Seq<(LocalSocket, V)>) -> Map<LocalSocket, V>
    decreases slots.len(),
{
    if slots.len() == 0 {
        Map::empty()
    } else {
        as_map(slots.drop_last()).insert(slots.last().0, slots.last().1)
    }
}

proof fn lemma_as_map_domain<V>(slots: Seq<(LocalSocket, V)>, key: LocalSocket)
    ensures
        as_map(slots).contains_key(key) <==> exists|i: int|
            0 <= i < slots.len() && (#[trigger] slots[i]).0 == key,
    decreases slots.len(),
{
    if slots.len() > 0 {
        let shorter = slots.drop_last();
        lemma_as_map_domain(shorter, key);
        if as_map(slots).contains_key(key) {
            if slots.last().0 != key {
                let i = choose|i: int| 0 <= i < shorter.len() && (#[trigger] shorter[i]).0 == key;
                assert(slots[i].0 == key);
            } else {
                assert(slots[slots.len() - 1].0 == key);
            }
        }
        if exists|i: int| 0 <= i < slots.len() && (#[trigger] slots[i]).0 == key {
            let i = choose|i: int| 0 <= i < slots.len() && (#[trigger] slots[i]).0 == key;
            if i < shorter.len() {
                assert(shorter[i].0 == key);
            }
        }
    }
}

proof fn lemma_as_map_value<V>(slots: Seq<(LocalSocket, V)>, i: int)
    requires
        distinct_sockets(slots),
        0 <= i < slots.len(),
    ensures
        as_map(slots).contains_key(slots[i].0),
        as_map(slots)[slots[i].0] == slots[i].1,
    decreases slots.len(),
{
    let shorter = slots.drop_last();
    if i < shorter.len() {
        assert(distinct_sockets(shorter));
        lemma_as_map_value(shorter, i);
        assert(shorter[i] == slots[i]);
        assert(slots[i].0 != slots[slots.len() - 1].0);
    }
}

proof fn lemma_as_map_update<V>(slots: Seq<(LocalSocket, V)>, i: int, value: V)
    requires
        distinct_sockets(slots),
        0 <= i < slots.len(),
    ensures
        distinct_sockets(slots.update(i, (slots[i].0, value))),
        as_map(slots.update(i, (slots[i].0, value))) == as_map(slots).insert(slots[i].0, value),
{
    let updated = slots.update(i, (slots[i].0, value));
    assert forall|a: int, b: int|
        #![trigger updated[a], updated[b]]
        0 <= a < b < updated.len() implies updated[a].0 != updated[b].0 by {
        assert(slots[a].0 != slots[b].0);
    }
    lemma_same_map(updated, as_map(slots).insert(slots[i].0, value), slots, i, value);
}

proof fn lemma_same_map<V>(
    updated: Seq<(LocalSocket, V)>,
    map: Map<LocalSocket, V>,
    slots: Seq<(LocalSocket, V)>,
    i: int,
    value: V,
)
    requires
        distinct_sockets(slots),
        distinct_sockets(updated),
        0 <= i < slots.len(),
        updated == slots.update(i, (slots[i].0, value)),
        map == as_map(slots).insert(slots[i].0, value),
    ensures
        as_map(updated) == map,
{
    assert forall|k: LocalSocket| #[trigger]
        as_map(updated).contains_key(k) == map.contains_key(k) by {
        lemma_as_map_domain(updated, k);
        lemma_as_map_domain(slots, k);
        if as_map(updated).contains_key(k) {
            let j = choose|j: int| 0 <= j < updated.len() && (#[trigger] updated[j]).0 == k;
            assert(slots[j].0 == k);
        }
        if map.contains_key(k) {
            if k == slots[i].0 {
                assert(updated[i].0 == k);
            } else {
                let j = choose|j: int| 0 <= j < slots.len() && (#[trigger] slots[j]).0 == k;
                assert(updated[j].0 == k);
            }
        }
    }
    assert forall|k: LocalSocket| #[trigger] as_map(updated).contains_key(k) implies as_map(
        updated,
    )[k] == map[k] by {
        lemma_as_map_domain(updated, k);
        let j = choose|j: int| 0 <= j < updated.len() && (#[trigger] updated[j]).0 == k;
        lemma_as_map_value(updated, j);
        lemma_as_map_value(slots, j);
        if j != i {
            assert(slots[j].0 != slots[i].0) by {
                if j < i {
                    assert(slots[j].0 != slots[i].0);
                } else {
                    assert(slots[i].0 != slots[j].0);
                }
            }
        }
    }
    assert(as_map(updated) =~= map);
}

proof fn lemma_as_map_remove<V>(slots: Seq<(LocalSocket, V)>, i: int)
    requires
        distinct_sockets(slots),
        0 <= i < slots.len(),
    ensures
        distinct_sockets(slots.remove(i)),
        as_map(slots.remove(i)) == as_map(slots).remove(slots[i].0),
{
    let rest = slots.remove(i);
    let map = as_map(slots).remove(slots[i].0);
    assert forall|a: int, b: int|
        #![trigger rest[a], rest[b]]
        0 <= a < b < rest.len() implies rest[a].0 != rest[b].0 by {
        let a2 = if a < i { a } else { a + 1 };
        let b2 = if b < i { b } else { b + 1 };
        assert(slots[a2].0 != slots[b2].0);
    }
    assert forall|k: LocalSocket| #[trigger]
        as_map(rest).contains_key(k) == map.contains_key(k) by {
        lemma_as_map_domain(rest, k);
        lemma_as_map_domain(slots, k);
        if as_map(rest).contains_key(k) {
            let j = choose|j: int| 0 <= j < rest.len() && (#[trigger] rest[j]).0 == k;
            let j2 = if j < i { j } else { j + 1 };
            assert(slots[j2].0 == k);
            if j2 < i {
                assert(slots[j2].0 != slots[i].0);
            } else {
                assert(slots[i].0 != slots[j2].0);
            }
        }
        if map.contains_key(k) {
            let j = choose|j: int| 0 <= j < slots.len() && (#[trigger] slots[j]).0 == k;
            let j2 = if j < i { j } else { j - 1 };
            assert(rest[j2].0 == k);
        }
    }
    assert forall|k: LocalSocket| #[trigger] as_map(rest).contains_key(k) implies as_map(rest)[k]
        == map[k] by {
        lemma_as_map_domain(rest, k);
        let j = choose|j: int| 0 <= j < rest.len() && (#[trigger] rest[j]).0 == k;
        lemma_as_map_value(rest, j);
        let j2 = if j < i { j } else { j + 1 };
        lemma_as_map_value(slots, j2);
    }
    assert(as_map(rest) =~= map);
}

/// A list of pairs with distinct sockets spells a map with as many sockets.
pub proof fn lemma_as_map_len<V>(slots: Seq<(LocalSocket, V)>)
    requires
        distinct_sockets(slots),
    ensures
        as_map(slots).dom().finite(),
        as_map(slots).dom().len() == slots.len(),
    decreases slots.len(),
{
    if slots.len() > 0 {
        let shorter = slots.drop_last();
        assert(distinct_sockets(shorter));
        lemma_as_map_len(shorter);
        lemma_as_map_domain(shorter, slots.last().0);
        if as_map(shorter).contains_key(slots.last().0) {
            let i = choose|i: int|
                0 <= i < shorter.len() && (#[trigger] shorter[i]).0 == slots.last().0;
            assert(slots[i].0 != slots[slots.len() - 1].0);
        }
        assert(as_map(slots).dom() =~= as_map(shorter).dom().insert(slots.last().0));
    }
}

impl<V> View for SocketMap<V> {
    type V = Map<LocalSocket, V>;

    open spec fn view(&self) -> Map<LocalSocket, V> {
        as_map(self.slots@)
    }
}

impl<V: Copy> SocketMap<V> {
    /// No socket is held twice.
    pub open spec fn wf(self) -> bool {
        distinct_sockets(self.slots@)
    }

    /// The empty map.
    pub fn new() -> (map: Self)
        ensures
            map.wf(),
            map@ == Map::<LocalSocket, V>::empty(),
    {
        SocketMap { slots: Vec::new() }
    }

    /// Where the socket's pair is held.
    fn find(&self, socket: LocalSocket) -> (index: Option<usize>)
        requires
            self.wf(),
        ensures
            match index {
                Some(i) => i < self.slots@.len() && self.slots@[i as int].0 == socket
                    && self@.contains_key(socket) && self@[socket] == self.slots@[i as int].1,
                None => !self@.contains_key(socket),
            },
    {
        let mut i: usize = 0;
        while i < self.slots.len()
            invariant
                self.wf(),
                i <= self.slots@.len(),
                forall|j: int| 0 <= j < i ==> (#[trigger] self.slots@[j]).0 != socket,
            decreases self.slots@.len() - i,
        {
            if self.slots[i].0 == socket {
                proof {
                    lemma_as_map_value(self.slots@, i as int);
                }
                return Some(i);
            }
            i += 1;
        }
        proof {
            lemma_as_map_domain(self.slots@, socket);
        }
        None
    }

    /// The value held for the socket.
    pub fn get(&self, socket: LocalSocket) -> (value: Option<V>)
        requires
            self.wf(),
        ensures
            value == (if self@.contains_key(socket) { Some(self@[socket]) } else { None::<V> }),
    {
        match self.find(socket) {
            Some(i) => Some(self.slots[i].1),
            None => None,
        }
    }

    /// Holds the value for the socket, in place of an earlier one.
    pub fn insert(&mut self, socket: LocalSocket, value: V)
        requires
            old(self).wf(),
        ensures
            final(self).wf(),
            final(self)@ == old(self)@.insert(socket, value),
    {
        match self.find(socket) {
            Some(i) => {
                proof {
                    lemma_as_map_update(self.slots@, i as int, value);
                }
                self.slots[i] = (socket, value);
            },
            None => {
                proof {
                    lemma_as_map_domain(self.slots@, socket);
                }
                let ghost before = self.slots@;
                self.slots.push((socket, value));
                assert(self.slots@.drop_last() =~= before);
                assert forall|a: int, b: int|
                    #![trigger self.slots@[a], self.slots@[b]]
                    0 <= a < b < self.slots@.len() implies self.slots@[a].0
                    != self.slots@[b].0 by {
                    assert(before[a].0 != socket);
                    if b < before.len() {
                        assert(before[a].0 != before[b].0);
                    }
                }
            },
        }
    }

    /// Drops the socket's value.
    pub fn remove(&mut self, socket: LocalSocket)
        requires
            old(self).wf(),
        ensures
            final(self).wf(),
            final(self)@ == old(self)@.remove(socket),
    {
        match self.find(socket) {
            Some(i) => {
                proof {
                    lemma_as_map_remove(self.slots@, i as int);
                }
                let _ = self.slots.remove(i);
            },
            None => {
                assert(self@.remove(socket) =~= self@);
            },
        }
    }

    /// How many sockets hold a value.
    pub fn len(&self) -> (count: usize)
        ensures
            count == self.slots@.len(),
    {
        self.slots.len()
    }

    /// Every held socket, each once.
    pub fn sockets(&self) -> (sockets: Vec<LocalSocket>)
        requires
            self.wf(),
        ensures
            sockets@.no_duplicates(),
            forall|socket: LocalSocket| #[trigger]
                sockets@.contains(socket) <==> self@.contains_key(socket),
    {
        let mut sockets: Vec<LocalSocket> = Vec::new();
        let mut i: usize = 0;
        while i < self.slots.len()
            invariant
                i <= self.slots@.len(),
                sockets@.len() == i,
                forall|j: int| 0 <= j < i ==> #[trigger] sockets@[j] == self.slots@[j].0,
            decreases self.slots@.len() - i,
        {
            sockets.push(self.slots[i].0);
            i += 1;
        }
        assert forall|socket: LocalSocket| #[trigger]
            sockets@.contains(socket) <==> self@.contains_key(socket) by {
            lemma_as_map_domain(self.slots@, socket);
            if self@.contains_key(socket) {
                let j = choose|j: int|
                    0 <= j < self.slots@.len() && (#[trigger] self.slots@[j]).0 == socket;
                assert(sockets@[j] == socket);
            }
            if sockets@.contains(socket) {
                let j = choose|j: int| 0 <= j < sockets@.len() && sockets@[j] == socket;
                assert(self.slots@[j].0 == socket);
            }
        }
        assert forall|a: int, b: int|
            0 <= a < sockets@.len() && 0 <= b < sockets@.len() && a != b implies sockets@[a]
            != sockets@[b] by {
            if a < b {
                assert(self.slots@[a].0 != self.slots@[b].0);
            } else {
                assert(self.slots@[b].0 != self.slots@[a].0);
            }
        }
        sockets
    }
}

} // verus!
