//! What the process table lists after a scan, and under which name.

use vstd::prelude::*;

use crate::laws::answers::found_under;
use crate::net::{is_mapped, keys_of, IpAddr, LocalSocket};
use crate::proc_table::{
    aliased, doubled, lists, mapped_records, owners_of, record_socket, with_keys, ListenerRecord,
    Owner, ProcTable,
};
use crate::process_name::{
    file_name, last_component, last_separator, nonempty, shown_name, PathRules, PathStyle,
};

verus! {

/// The socket that a scan line is about.
pub open spec fn socket_of_record(record: ListenerRecord) -> LocalSocket {
    LocalSocket { ip: record.socket.ip, port: record.socket.port, protocol: record.protocol }
}

proof fn lemma_with_keys(
    owners: Seq<Owner>,
    keys: Seq<(LocalSocket, bool)>,
    pid: u32,
    name: Option<Seq<char>>,
    path: Option<Seq<char>>,
)
    ensures
        owners.len() <= with_keys(owners, keys, pid, name, path).len(),
        forall|e: int|
            0 <= e < owners.len() ==> #[trigger] with_keys(owners, keys, pid, name, path)[e]
                == owners[e],
        forall|e: int|
            owners.len() <= e < with_keys(owners, keys, pid, name, path).len() ==> {
                let owner = #[trigger] with_keys(owners, keys, pid, name, path)[e];
                &&& owner.pid == pid
                &&& owner.name == name
                &&& owner.path == path
                &&& !lists(owners, owner.socket, pid)
                &&& exists|k: int| 0 <= k < keys.len() && (#[trigger] keys[k]).0 == owner.socket
            },
        forall|k: int|
            0 <= k < keys.len() ==> lists(
                with_keys(owners, keys, pid, name, path),
                (#[trigger] keys[k]).0,
                pid,
            ),
    decreases keys.len(),
{
    if keys.len() > 0 {
        let shorter = keys.drop_last();
        lemma_with_keys(owners, shorter, pid, name, path);
        let prior = with_keys(owners, shorter, pid, name, path);
        let whole = with_keys(owners, keys, pid, name, path);
        let last = keys.last().0;
        assert forall|e: int| owners.len() <= e < whole.len() implies {
            let owner = #[trigger] whole[e];
            &&& owner.pid == pid
            &&& owner.name == name
            &&& owner.path == path
            &&& !lists(owners, owner.socket, pid)
            &&& exists|k: int| 0 <= k < keys.len() && (#[trigger] keys[k]).0 == owner.socket
        } by {
            if e < prior.len() {
                assert(whole[e] == prior[e]);
                let k = choose|k: int|
                    0 <= k < shorter.len() && (#[trigger] shorter[k]).0 == prior[e].socket;
                assert(keys[k].0 == whole[e].socket);
            } else {
                assert(keys[keys.len() - 1].0 == whole[e].socket);
                if lists(owners, last, pid) {
                    let i = choose|i: int|
                        0 <= i < owners.len() && (#[trigger] owners[i]).socket == last
                            && owners[i].pid == pid;
                    assert(prior[i] == owners[i]);
                }
            }
        }
        assert forall|k: int| 0 <= k < keys.len() implies lists(
            whole,
            (#[trigger] keys[k]).0,
            pid,
        ) by {
            if k < shorter.len() {
                assert(shorter[k] == keys[k]);
                assert(lists(prior, shorter[k].0, pid));
                let i = choose|i: int|
                    0 <= i < prior.len() && (#[trigger] prior[i]).socket == shorter[k].0
                        && prior[i].pid == pid;
                assert(whole[i] == prior[i]);
            } else if !lists(prior, last, pid) {
                assert(whole[prior.len() as int].socket == last);
            }
        }
    }
}

proof fn lemma_key_found(own: LocalSocket, key: LocalSocket)
    ensures
        found_under(own, key) <==> exists|k: int|
            0 <= k < keys_of(own).len() && (#[trigger] keys_of(own)[k]).0 == key,
{
    let keys = keys_of(own);
    assert(keys[0].0 == own);
    if found_under(own, key) && key != own {
        assert(keys.len() == 2);
        assert(keys[1].0 == key);
    }
}

/// Whether an entry of the table is that of a scan line: it stands under a socket that the line
/// is found under, with the line's process number, its path unless that is empty, and the name
/// that the line shows, and no earlier line of the same process is found there.
pub open spec fn made_by(owner: Owner, records: Seq<ListenerRecord>, line: int) -> bool {
    &&& 0 <= line < records.len()
    &&& found_under(socket_of_record(records[line]), owner.socket)
    &&& owner.pid == records[line].pid
    &&& owner.path == if records[line].path@.len() == 0 {
        None
    } else {
        Some(records[line].path@)
    }
    &&& owner.name == shown_name(
        records[line].path_style,
        records[line].name@,
        records[line].path@,
    )
    &&& forall|earlier: int|
        0 <= earlier < line ==> !(found_under(
            socket_of_record(#[trigger] records[earlier]),
            owner.socket,
        ) && records[earlier].pid == records[line].pid)
}

/// Whether some line of a scan makes an entry of the table.
pub open spec fn made_by_a_line(owner: Owner, records: Seq<ListenerRecord>) -> bool {
    exists|l: int| #[trigger] made_by(owner, records, l)
}

/// After a scan the table lists the process of every line under each socket that the line is
/// found under. Every entry is made by a line: the first one for its socket and process.
pub proof fn lemma_table_holds_every_line(records: Seq<ListenerRecord>)
    ensures
        forall|l: int, key: LocalSocket|
            0 <= l < records.len() && #[trigger] found_under(
                socket_of_record(#[trigger] records[l]),
                key,
            ) ==> lists(owners_of(records), key, records[l].pid),
        forall|e: int|
            0 <= e < owners_of(records).len() ==> made_by_a_line(
                #[trigger] owners_of(records)[e],
                records,
            ),
    decreases records.len(),
{
    if records.len() > 0 {
        let shorter = records.drop_last();
        let last = records.last();
        lemma_table_holds_every_line(shorter);
        let prior = owners_of(shorter);
        let whole = owners_of(records);
        let keys = keys_of(record_socket(last));
        lemma_with_keys(
            prior,
            keys,
            last.pid,
            shown_name(last.path_style, last.name@, last.path@),
            nonempty(last.path@),
        );
        assert forall|l: int, key: LocalSocket|
            0 <= l < records.len() && #[trigger] found_under(
                socket_of_record(#[trigger] records[l]),
                key,
            ) implies lists(whole, key, records[l].pid) by {
            if l < shorter.len() {
                assert(shorter[l] == records[l]);
                assert(found_under(socket_of_record(shorter[l]), key));
                assert(lists(prior, key, shorter[l].pid));
                let i = choose|i: int|
                    0 <= i < prior.len() && (#[trigger] prior[i]).socket == key && prior[i].pid
                        == shorter[l].pid;
                assert(whole[i] == prior[i]);
            } else {
                lemma_key_found(record_socket(last), key);
            }
        }
        assert forall|e: int| 0 <= e < whole.len() implies made_by_a_line(
            #[trigger] whole[e],
            records,
        ) by {
            if e < prior.len() {
                assert(whole[e] == prior[e]);
                assert(made_by_a_line(prior[e], shorter));
                let l = choose|l: int| #[trigger] made_by(prior[e], shorter, l);
                assert(records[l] == shorter[l]);
                assert forall|earlier: int| 0 <= earlier < l implies !(found_under(
                    socket_of_record(#[trigger] records[earlier]),
                    whole[e].socket,
                ) && records[earlier].pid == records[l].pid) by {
                    assert(records[earlier] == shorter[earlier]);
                }
                assert(made_by(whole[e], records, l));
            } else {
                let l = records.len() - 1;
                assert(records[l] == last);
                lemma_key_found(record_socket(last), whole[e].socket);
                assert forall|earlier: int| 0 <= earlier < l implies !(found_under(
                    socket_of_record(#[trigger] records[earlier]),
                    whole[e].socket,
                ) && records[earlier].pid == records[l].pid) by {
                    assert(records[earlier] == shorter[earlier]);
                    if found_under(socket_of_record(shorter[earlier]), whole[e].socket)
                        && shorter[earlier].pid == last.pid {
                        assert(lists(prior, whole[e].socket, last.pid));
                    }
                }
                assert(made_by(whole[e], records, l));
            }
        }
    }
}

/// A socket is an alias exactly if some line of the scan has the IPv6 address that carries its
/// IPv4 address, with its port and transport.
pub proof fn lemma_aliases_carry_an_ipv4_address(records: Seq<ListenerRecord>, socket: LocalSocket)
    ensures
        aliased(records, socket) <==> exists|l: int|
            0 <= l < records.len() && found_under(socket_of_record(#[trigger] records[l]), socket)
                && socket != socket_of_record(records[l]),
{
    if aliased(records, socket) {
        let l = choose|l: int|
            0 <= l < records.len() && keys_of(record_socket(#[trigger] records[l])).contains(
                (socket, true),
            );
        let keys = keys_of(record_socket(records[l]));
        let k = choose|k: int| 0 <= k < keys.len() && keys[k] == (socket, true);
        assert(k == 1);
        assert(found_under(socket_of_record(records[l]), socket));
    }
    if exists|l: int|
        0 <= l < records.len() && found_under(socket_of_record(#[trigger] records[l]), socket)
            && socket != socket_of_record(records[l]) {
        let l = choose|l: int|
            0 <= l < records.len() && found_under(socket_of_record(#[trigger] records[l]), socket)
                && socket != socket_of_record(records[l]);
        let keys = keys_of(record_socket(records[l]));
        assert(keys[1] == (socket, true));
        assert(keys.contains((socket, true)));
    }
}

/// The lines with such an address are counted one by one.
pub proof fn lemma_mapped_lines_are_counted(records: Seq<ListenerRecord>, next: ListenerRecord)
    ensures
        mapped_records(Seq::<ListenerRecord>::empty()) == 0,
        mapped_records(records.push(next)) == mapped_records(records) + (if next.socket.ip matches
            IpAddr::V6(value) && value / 0x1_0000_0000 == 0xffff {
            1nat
        } else {
            0
        }),
{
    assert(records.push(next).drop_last() =~= records);
    assert(is_mapped(next.socket.ip) <==> (next.socket.ip matches IpAddr::V6(value) && value
        / 0x1_0000_0000 == 0xffff));
}

/// A refreshed table can be gone by for twice the time between refreshes, and no longer; one
/// that was never refreshed is never too old.
pub proof fn lemma_tables_age(table: ProcTable, now: u128, refresh: u128)
    ensures
        table.refreshed_at is None ==> !table.is_stale(now),
        table.refreshed_at matches Some(at) ==> (table.is_stale(now) <==> now - at > table.max_age),
        2 * refresh <= crate::proc_table::MAX_DURATION ==> doubled(refresh) == 2 * refresh,
{
}

/// The name that is shown for a process is the last component of its path, else the name that
/// the scan gives, else none. An empty path is none.
pub proof fn lemma_shown_names_come_from_the_path(
    style: PathStyle,
    name: Seq<char>,
    path: Seq<char>,
)
    ensures
        file_name(style, path) matches Some(file) ==> shown_name(style, name, path) == Some(file),
        file_name(style, path) is None && name.len() > 0 ==> shown_name(style, name, path) == Some(
            name,
        ),
        file_name(style, path) is None && name.len() == 0 ==> shown_name(style, name, path) is None,
        path.len() == 0 ==> nonempty(path) is None,
        path.len() > 0 ==> nonempty(path) == Some(path),
{
}

proof fn lemma_separator_at(head: Seq<char>, mark: char, base: Seq<char>, rules: PathRules)
    requires
        rules.separates(mark),
        forall|i: int| 0 <= i < base.len() ==> !rules.separates(#[trigger] base[i]),
    ensures
        last_separator(head.push(mark) + base, rules) == head.len(),
    decreases base.len(),
{
    let path = head.push(mark) + base;
    if base.len() > 0 {
        let shorter = base.drop_last();
        assert(!rules.separates(base[base.len() - 1]));
        assert forall|i: int| 0 <= i < shorter.len() implies !rules.separates(
            #[trigger] shorter[i],
        ) by {
            assert(shorter[i] == base[i]);
        }
        lemma_separator_at(head, mark, shorter, rules);
        assert(path.drop_last() =~= head.push(mark) + shorter);
    }
}

proof fn lemma_no_separator(path: Seq<char>, rules: PathRules)
    requires
        forall|i: int| 0 <= i < path.len() ==> !rules.separates(#[trigger] path[i]),
    ensures
        last_separator(path, rules) == -1,
    decreases path.len(),
{
    if path.len() > 0 {
        let shorter = path.drop_last();
        assert(!rules.separates(path[path.len() - 1]));
        assert forall|i: int| 0 <= i < shorter.len() implies !rules.separates(
            #[trigger] shorter[i],
        ) by {
            assert(shorter[i] == path[i]);
        }
        lemma_no_separator(shorter, rules);
    }
}

proof fn lemma_component(head: Seq<char>, mark: char, base: Seq<char>, rules: PathRules)
    requires
        rules.separates(mark),
        forall|i: int| 0 <= i < base.len() ==> !rules.separates(#[trigger] base[i]),
    ensures
        last_component(head.push(mark) + base, rules) == if base == seq!['.', '.'] || (
        rules.keeps_dot && base == seq!['.']) {
            None
        } else if base.len() == 0 || base == seq!['.'] {
            last_component(head, rules)
        } else {
            Some(base)
        },
{
    let whole = head.push(mark) + base;
    lemma_separator_at(head, mark, base, rules);
    assert(whole.skip(head.len() as int + 1) =~= base);
    assert(whole.take(head.len() as int) =~= head);
}

/// The last component of a path is what stands behind its last separator. Separators at the
/// end, and a single point behind one, do not count; a path that ends in two points has none,
/// and neither has one without anything between its separators.
pub proof fn lemma_last_component_stands_behind_the_last_separator(
    head: Seq<char>,
    mark: char,
    base: Seq<char>,
    rules: PathRules,
)
    requires
        rules.separates(mark),
        !rules.separates('.'),
        forall|i: int| 0 <= i < base.len() ==> !rules.separates(#[trigger] base[i]),
    ensures
        base.len() > 0 && base != seq!['.'] && base != seq!['.', '.'] ==> {
            &&& last_component(head.push(mark) + base, rules) == Some(base)
            &&& last_component(base, rules) == Some(base)
        },
        last_component(head.push(mark), rules) == last_component(head, rules),
        !rules.keeps_dot ==> last_component(head.push(mark).push('.'), rules) == last_component(
            head,
            rules,
        ),
        rules.keeps_dot ==> last_component(head.push(mark).push('.'), rules) is None,
        last_component(head.push(mark).push('.').push('.'), rules) is None,
        last_component(Seq::<char>::empty(), rules) is None,
{
    let none = Seq::<char>::empty();
    let dot = seq!['.'];
    let dots = seq!['.', '.'];
    assert(dot.len() == 1 && dots.len() == 2);
    lemma_component(head, mark, base, rules);
    lemma_component(head, mark, none, rules);
    lemma_component(head, mark, dot, rules);
    lemma_component(head, mark, dots, rules);
    assert(head.push(mark) + none =~= head.push(mark));
    assert(head.push(mark) + dot =~= head.push(mark).push('.'));
    assert(head.push(mark) + dots =~= head.push(mark).push('.').push('.'));
    lemma_no_separator(base, rules);
    assert(base.skip(0) =~= base);
    lemma_no_separator(none, rules);
    assert(none.skip(0) =~= none);
}

/// On Unix a slash separates components and a backslash does not, and nothing at the start of a
/// path is left out. On Windows both do, and a drive is left out.
pub proof fn lemma_file_names_by_system(head: Seq<char>, base: Seq<char>, drive: char)
    requires
        base.len() > 0,
        base != seq!['.'],
        base != seq!['.', '.'],
        forall|i: int| 0 <= i < base.len() ==> #[trigger] base[i] != '/' && base[i] != '\\',
        'A' <= drive <= 'Z' || 'a' <= drive <= 'z',
    ensures
        file_name(PathStyle::Unix, head.push('/') + base) == Some(base),
        file_name(PathStyle::Unix, base.push('\\') + base) == Some(base.push('\\') + base),
        file_name(PathStyle::Windows, seq![drive, ':'] + head.push('/') + base) == Some(base),
        file_name(PathStyle::Windows, seq![drive, ':'] + head.push('\\') + base) == Some(base),
{
    let unix = PathRules { slash: true, backslash: false, keeps_dot: false };
    let windows = PathRules { slash: true, backslash: true, keeps_dot: false };
    let first = head.push('/') + base;
    lemma_last_component_stands_behind_the_last_separator(head, '/', base, unix);
    assert(first.skip(0) =~= first);
    let twice = base.push('\\') + base;
    assert forall|i: int| 0 <= i < twice.len() implies !unix.separates(#[trigger] twice[i]) by {
        if i < base.len() {
            assert(twice[i] == base[i]);
        } else if i > base.len() {
            assert(twice[i] == base[i - base.len() - 1]);
        }
    }
    lemma_no_separator(twice, unix);
    assert(twice.skip(0) =~= twice);
    assert(twice != seq!['.']) by {
        assert(twice.len() != seq!['.'].len());
    }
    assert(twice != seq!['.', '.']) by {
        assert(twice.len() != seq!['.', '.'].len());
    }
    lemma_last_component_stands_behind_the_last_separator(head, '/', base, windows);
    lemma_last_component_stands_behind_the_last_separator(head, '\\', base, windows);
    let third = seq![drive, ':'] + head.push('/') + base;
    assert(third[0] == drive && third[1] == ':');
    assert(third.skip(2) =~= head.push('/') + base);
    let fourth = seq![drive, ':'] + head.push('\\') + base;
    assert(fourth[0] == drive && fourth[1] == ':');
    assert(fourth.skip(2) =~= head.push('\\') + base);
}

} // verus!
