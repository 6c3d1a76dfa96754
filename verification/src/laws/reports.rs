//! What stands where in the plain report, and what a frame of values shows.

use vstd::prelude::*;

use crate::address_text::ip_text;
use crate::net::IpAddr;
use crate::report::{
    all_lines, as_double, bytes_text, dated, double_step, elapsed_text, half_even, host_line,
    host_lines, interface_part, ip_line, ip_lines, process_line, process_lines, report_head,
    report_lists, shows_snapshot, JsonFrame,
};
use crate::text::{decimal, padded, text_view};
use crate::time::{instant_text, is_instant};
use crate::traffic::{
    host_rows, key_rows, process_rows, top, IdentityView, ProcessIdentity, Tally, TrafficSnapshot,
};

verus! {

/// Whether a piece of text stands at a place of a text.
pub open spec fn stands_at(text: Seq<char>, place: int, piece: Seq<char>) -> bool {
    &&& 0 <= place
    &&& place + piece.len() <= text.len()
    &&& text.subrange(place, place + piece.len()) == piece
}

/// How many characters the lines of the first `n` rows have.
pub open spec fn width_of_first<V>(
    rows: Seq<(V, Tally)>,
    line: spec_fn((V, Tally)) -> Seq<char>,
    n: int,
) -> int
    decreases n,
{
    if n <= 0 {
        0
    } else {
        width_of_first(rows, line, n - 1) + line(rows[n - 1]).len()
    }
}

proof fn lemma_widths<V>(
    rows: Seq<(V, Tally)>,
    line: spec_fn((V, Tally)) -> Seq<char>,
    n: int,
    m: int,
)
    requires
        0 <= n <= m,
    ensures
        0 <= width_of_first(rows, line, n) <= width_of_first(rows, line, m),
    decreases m,
{
    if n < m {
        lemma_widths(rows, line, n, m - 1);
    } else if n > 0 {
        lemma_widths(rows, line, n - 1, m - 1);
    }
}

proof fn lemma_same_widths<V>(
    rows: Seq<(V, Tally)>,
    line: spec_fn((V, Tally)) -> Seq<char>,
    n: int,
)
    requires
        0 <= n < rows.len(),
    ensures
        width_of_first(rows.drop_last(), line, n) == width_of_first(rows, line, n),
    decreases n,
{
    if n > 0 {
        lemma_same_widths(rows, line, n - 1);
        assert(rows.drop_last()[n - 1] == rows[n - 1]);
    }
}

proof fn lemma_list_has_its_lines<V>(rows: Seq<(V, Tally)>, line: spec_fn((V, Tally)) -> Seq<char>)
    ensures
        all_lines(rows, line).len() == width_of_first(rows, line, rows.len() as int),
        forall|i: int|
            0 <= i < rows.len() ==> stands_at(
                all_lines(rows, line),
                #[trigger] width_of_first(rows, line, i),
                line(rows[i]),
            ),
    decreases rows.len(),
{
    if rows.len() > 0 {
        let shorter = rows.drop_last();
        let last = rows.len() - 1;
        lemma_list_has_its_lines(shorter, line);
        lemma_same_widths(rows, line, last);
        let part = all_lines(shorter, line);
        let whole = all_lines(rows, line);
        assert(whole == part + line(rows.last()));
        assert forall|i: int| 0 <= i < rows.len() implies stands_at(
            whole,
            #[trigger] width_of_first(rows, line, i),
            line(rows[i]),
        ) by {
            let place = width_of_first(rows, line, i);
            let piece = line(rows[i]);
            lemma_widths(rows, line, 0, i);
            lemma_same_widths(rows, line, i);
            if i < last {
                assert(shorter[i] == rows[i]);
                assert(stands_at(part, width_of_first(shorter, line, i), line(shorter[i])));
                assert(whole.subrange(place, place + piece.len()) =~= part.subrange(
                    place,
                    place + piece.len(),
                ));
            } else {
                assert(whole.subrange(place, place + piece.len()) =~= piece);
            }
        }
    }
}

/// In a list of lines, the line of each row starts where those of the rows before it end, so
/// that the lines stand in the order of the rows, one below the other.
pub proof fn lemma_lines_stand_in_the_order_of_the_rows<V>(
    rows: Seq<(V, Tally)>,
    line: spec_fn((V, Tally)) -> Seq<char>,
    i: int,
    j: int,
)
    requires
        0 <= i < j < rows.len(),
    ensures
        stands_at(all_lines(rows, line), width_of_first(rows, line, i), line(rows[i])),
        stands_at(all_lines(rows, line), width_of_first(rows, line, j), line(rows[j])),
        width_of_first(rows, line, i) + line(rows[i]).len() <= width_of_first(rows, line, j),
        all_lines(rows, line).len() == width_of_first(rows, line, rows.len() as int),
{
    lemma_list_has_its_lines(rows, line);
    lemma_widths(rows, line, i + 1, j);
}

proof fn lemma_list_in_a_text<V>(
    before: Seq<char>,
    head: Seq<char>,
    rows: Seq<(V, Tally)>,
    line: spec_fn((V, Tally)) -> Seq<char>,
    after: Seq<char>,
    text: Seq<char>,
)
    requires
        text == before + head + all_lines(rows, line) + after,
    ensures
        stands_at(text, before.len() as int, head),
        forall|i: int|
            0 <= i < rows.len() ==> stands_at(
                text,
                before.len() + head.len() + #[trigger] width_of_first(rows, line, i),
                line(rows[i]),
            ),
        text.len() == before.len() + head.len() + width_of_first(rows, line, rows.len() as int)
            + after.len(),
{
    lemma_list_has_its_lines(rows, line);
    let list = all_lines(rows, line);
    let start = before.len() + head.len();
    assert(text.subrange(before.len() as int, start as int) =~= head);
    assert forall|i: int| 0 <= i < rows.len() implies stands_at(
        text,
        start + #[trigger] width_of_first(rows, line, i),
        line(rows[i]),
    ) by {
        let place = width_of_first(rows, line, i);
        let piece = line(rows[i]);
        assert(stands_at(list, place, piece));
        assert(text.subrange(start + place, start + place + piece.len()) =~= list.subrange(
            place,
            place + piece.len(),
        ));
    }
}

/// The heading of a list in the plain report.
pub open spec fn heading(title: Seq<char>, top_n: nat, columns: Seq<char>) -> Seq<char> {
    title + decimal(top_n) + ")\n"@ + columns
}

/// In the plain report, the line of each row of a snapshot's list stands below the heading of
/// that list, at the place where those of the rows before it end: first the processes, then the
/// hosts, the inbound and the outbound addresses. Nothing stands between the lists but the
/// headings, and nothing behind the last one. The result says where each list begins.
pub proof fn lemma_report_shows_each_row_in_its_place(
    before: Seq<char>,
    snapshot: TrafficSnapshot,
    top_n: nat,
) -> (places: (int, int, int, int))
    ensures
        ({
            let text = before + report_lists(snapshot, top_n);
            let processes = process_rows(snapshot.processes@);
            let hosts = host_rows(snapshot.outbound_domains@);
            let inbound = key_rows(snapshot.inbound_ips@);
            let outbound = key_rows(snapshot.outbound_ips@);
            let of_process = |row: (IdentityView, Tally)| process_line(row);
            let of_host = |row: (Seq<char>, Tally)| host_line(row);
            let of_ip = |row: (IpAddr, Tally)| ip_line(row);
            let first = heading(
                "Top Processes ("@,
                top_n,
                "Process\tPID\tRecv\tSent\tTotal\tLast Seen\tPath\n"@,
            );
            let second = heading("\nTop Hosts ("@, top_n, "Host\tIn\tOut\tTotal\tLast Seen\n"@);
            let third = heading("\nTop Inbound IPs ("@, top_n, "IP\tTotal\tLast Seen\n"@);
            let fourth = heading("\nTop Outbound IPs ("@, top_n, "IP\tTotal\tLast Seen\n"@);
            let (a, b, c, d) = places;
            &&& a == before.len() + first.len()
            &&& stands_at(text, before.len() as int, first)
            &&& b == a + width_of_first(processes, of_process, processes.len() as int)
                + second.len()
            &&& stands_at(text, b - second.len(), second)
            &&& c == b + width_of_first(hosts, of_host, hosts.len() as int) + third.len()
            &&& stands_at(text, c - third.len(), third)
            &&& d == c + width_of_first(inbound, of_ip, inbound.len() as int) + fourth.len()
            &&& stands_at(text, d - fourth.len(), fourth)
            &&& text.len() == d + width_of_first(outbound, of_ip, outbound.len() as int)
            &&& forall|i: int|
                0 <= i < processes.len() ==> stands_at(
                    text,
                    a + #[trigger] width_of_first(processes, of_process, i),
                    process_line(processes[i]),
                )
            &&& forall|i: int|
                0 <= i < hosts.len() ==> stands_at(
                    text,
                    b + #[trigger] width_of_first(hosts, of_host, i),
                    host_line(hosts[i]),
                )
            &&& forall|i: int|
                0 <= i < inbound.len() ==> stands_at(
                    text,
                    c + #[trigger] width_of_first(inbound, of_ip, i),
                    ip_line(inbound[i]),
                )
            &&& forall|i: int|
                0 <= i < outbound.len() ==> stands_at(
                    text,
                    d + #[trigger] width_of_first(outbound, of_ip, i),
                    ip_line(outbound[i]),
                )
        }),
{
    let text = before + report_lists(snapshot, top_n);
    let processes = process_rows(snapshot.processes@);
    let hosts = host_rows(snapshot.outbound_domains@);
    let inbound = key_rows(snapshot.inbound_ips@);
    let outbound = key_rows(snapshot.outbound_ips@);
    let of_process = |row: (IdentityView, Tally)| process_line(row);
    let of_host = |row: (Seq<char>, Tally)| host_line(row);
    let of_ip = |row: (IpAddr, Tally)| ip_line(row);
    let first = heading(
        "Top Processes ("@,
        top_n,
        "Process\tPID\tRecv\tSent\tTotal\tLast Seen\tPath\n"@,
    );
    let second = heading("\nTop Hosts ("@, top_n, "Host\tIn\tOut\tTotal\tLast Seen\n"@);
    let third = heading("\nTop Inbound IPs ("@, top_n, "IP\tTotal\tLast Seen\n"@);
    let fourth = heading("\nTop Outbound IPs ("@, top_n, "IP\tTotal\tLast Seen\n"@);
    let one = process_lines(processes);
    let two = host_lines(hosts);
    let three = ip_lines(inbound);
    let four = ip_lines(outbound);
    lemma_list_has_its_lines(processes, of_process);
    lemma_list_has_its_lines(hosts, of_host);
    lemma_list_has_its_lines(inbound, of_ip);
    lemma_list_has_its_lines(outbound, of_ip);
    assert(one == all_lines(processes, of_process));
    assert(two == all_lines(hosts, of_host));
    assert(three == all_lines(inbound, of_ip));
    assert(four == all_lines(outbound, of_ip));
    let to_b = before + first + one;
    let to_c = to_b + second + two;
    let to_d = to_c + third + three;
    let from_d = fourth + four;
    let from_c = third + three + from_d;
    let from_b = second + two + from_c;
    assert(text =~= before + first + one + from_b);
    assert(text =~= to_b + second + two + from_c);
    assert(text =~= to_c + third + three + from_d);
    assert(text =~= to_d + fourth + four + Seq::<char>::empty());
    lemma_list_in_a_text(before, first, processes, of_process, from_b, text);
    lemma_list_in_a_text(to_b, second, hosts, of_host, from_c, text);
    lemma_list_in_a_text(to_c, third, inbound, of_ip, from_d, text);
    lemma_list_in_a_text(to_d, fourth, outbound, of_ip, Seq::<char>::empty(), text);
    (
        (before.len() + first.len()) as int,
        (to_b.len() + second.len()) as int,
        (to_c.len() + third.len()) as int,
        (to_d.len() + fourth.len()) as int,
    )
}

/// In each list of the plain report, the line of a busier row never stands below that of a less
/// busy one.
pub proof fn lemma_busier_rows_stand_above<V>(
    all: Seq<(V, Tally)>,
    top_n: nat,
    line: spec_fn((V, Tally)) -> Seq<char>,
    i: int,
    j: int,
)
    requires
        0 <= i < top(all, top_n).len(),
        0 <= j < top(all, top_n).len(),
        top(all, top_n)[i].1.both() > top(all, top_n)[j].1.both(),
    ensures
        width_of_first(top(all, top_n), line, i) + line(top(all, top_n)[i]).len()
            <= width_of_first(top(all, top_n), line, j),
        stands_at(
            all_lines(top(all, top_n), line),
            width_of_first(top(all, top_n), line, i),
            line(top(all, top_n)[i]),
        ),
        stands_at(
            all_lines(top(all, top_n), line),
            width_of_first(top(all, top_n), line, j),
            line(top(all, top_n)[j]),
        ),
{
    let rows = top(all, top_n);
    crate::laws::totals::lemma_the_busiest_are_listed(all, top_n);
    assert(i < j) by {
        if j <= i {
            assert(rows[j].1.both() >= rows[i].1.both());
        }
    }
    lemma_lines_stand_in_the_order_of_the_rows(rows, line, i, j);
}

/// The line of an owner shows, between tabs, its name or a question mark, its number, its
/// received bytes, its sent bytes, the sum of both, when it was last seen, and its path. The
/// unknown owner has a dash for number and path.
pub proof fn lemma_line_of_an_owner(
    pid: u32,
    name: Option<Seq<char>>,
    path: Option<Seq<char>>,
    tally: Tally,
)
    ensures
        ({
            let counts = seq!['\t'] + bytes_text(tally.inbound as nat) + seq!['\t'] + bytes_text(
                tally.outbound as nat,
            ) + seq!['\t'] + bytes_text(tally.both() as nat) + seq!['\t'] + instant_text(
                tally.last_seen as int,
            ) + seq!['\t'];
            &&& process_line((IdentityView::Process { pid, name, path }, tally)) == (match name {
                Some(name) => name,
                None => "?"@,
            }) + seq!['\t'] + decimal(pid as nat) + counts + (match path {
                Some(path) => path,
                None => "-"@,
            }) + seq!['\n']
            &&& process_line((IdentityView::Unattributed, tally)) == "<unattributed traffic>"@
                + seq!['\t'] + "-"@ + counts + "-"@ + seq!['\n']
        }),
{
    let counts = seq!['\t'] + bytes_text(tally.inbound as nat) + seq!['\t'] + bytes_text(
        tally.outbound as nat,
    ) + seq!['\t'] + bytes_text(tally.both() as nat) + seq!['\t'] + instant_text(
        tally.last_seen as int,
    ) + seq!['\t'];
    assert(process_line((IdentityView::Process { pid, name, path }, tally)) =~= (match name {
        Some(name) => name,
        None => "?"@,
    }) + seq!['\t'] + decimal(pid as nat) + counts + (match path {
        Some(path) => path,
        None => "-"@,
    }) + seq!['\n']);
    assert(process_line((IdentityView::Unattributed, tally)) =~= "<unattributed traffic>"@
        + seq!['\t'] + "-"@ + counts + "-"@ + seq!['\n']);
}

/// The line of a host shows, between tabs, its name, its bytes each way, the sum of both, and
/// when it was last seen. That of an address shows the address, the sum, and when it was last
/// seen.
pub proof fn lemma_lines_of_hosts_and_addresses(host: Seq<char>, ip: IpAddr, tally: Tally)
    ensures
        ({
            let end = seq!['\t'] + bytes_text(tally.both() as nat) + seq!['\t'] + instant_text(
                tally.last_seen as int,
            ) + seq!['\n'];
            &&& host_line((host, tally)) == host + seq!['\t'] + bytes_text(tally.inbound as nat)
                + seq!['\t'] + bytes_text(tally.outbound as nat) + end
            &&& ip_line((ip, tally)) == ip_text(ip) + end
        }),
{
    let end = seq!['\t'] + bytes_text(tally.both() as nat) + seq!['\t'] + instant_text(
        tally.last_seen as int,
    ) + seq!['\n'];
    assert(host_line((host, tally)) =~= host + seq!['\t'] + bytes_text(tally.inbound as nat)
        + seq!['\t'] + bytes_text(tally.outbound as nat) + end);
    assert(ip_line((ip, tally)) =~= ip_text(ip) + end);
}

/// The plain report begins with the interface, the host, the start, the uptime and the time,
/// and goes on with the bytes that came in and then those that went out.
pub proof fn lemma_report_begins_with_the_interface(
    interface: Seq<char>,
    host: Seq<char>,
    started: Seq<char>,
    uptime: nat,
    now: Seq<char>,
    in_bytes: nat,
    out_bytes: nat,
)
    ensures
        report_head(interface, host, started, uptime, now) + interface_part(in_bytes, out_bytes)
            == "flowlens\t"@ + interface + "\thost: "@ + host + "\tstarted: "@ + started
            + "\tuptime: "@ + elapsed_text(uptime) + "\t"@ + now + "\n\n"@
            + "Interface Traffic\n"@ + "Inbound\t"@ + bytes_text(in_bytes) + "\n"@ + "Outbound\t"@
            + bytes_text(out_bytes) + "\n\n"@,
{
    assert(report_head(interface, host, started, uptime, now) + interface_part(in_bytes, out_bytes)
        =~= "flowlens\t"@ + interface + "\thost: "@ + host + "\tstarted: "@ + started
        + "\tuptime: "@ + elapsed_text(uptime) + "\t"@ + now + "\n\n"@ + "Interface Traffic\n"@
        + "Inbound\t"@ + bytes_text(in_bytes) + "\n"@ + "Outbound\t"@ + bytes_text(out_bytes)
        + "\n\n"@);
}

/// The entries of a frame stand in the order of the snapshot's rows, and each shows its own
/// row: the number, name and path of a process, received and sent bytes as they were counted,
/// their sum, and when it was last seen.
pub proof fn lemma_frame_shows_each_row_in_its_place(
    frame: JsonFrame,
    snapshot: TrafficSnapshot,
    i: int,
)
    requires
        shows_snapshot(frame, snapshot),
        0 <= i,
    ensures
        frame.in_bytes == snapshot.in_bytes,
        frame.out_bytes == snapshot.out_bytes,
        frame.top_processes@.len() == snapshot.processes@.len(),
        frame.top_hosts@.len() == snapshot.outbound_domains@.len(),
        frame.top_inbound_ips@.len() == snapshot.inbound_ips@.len(),
        frame.top_outbound_ips@.len() == snapshot.outbound_ips@.len(),
        i < snapshot.processes@.len() ==> ({
            let entry = frame.top_processes@[i];
            let row = snapshot.processes@[i];
            &&& entry.recv == row.tally.inbound
            &&& entry.sent == row.tally.outbound
            &&& entry.total == row.tally.both()
            &&& entry.last_seen@ == instant_text(row.tally.last_seen as int)
            &&& row.key matches ProcessIdentity::Process(process) ==> {
                &&& entry.pid == Some(process.pid)
                &&& text_view(entry.name) == text_view(process.name)
                &&& text_view(entry.path) == text_view(process.path)
            }
            &&& row.key is Unattributed ==> {
                &&& entry.pid is None
                &&& entry.name is None
                &&& entry.path is None
            }
        }),
        i < snapshot.outbound_domains@.len() ==> ({
            let entry = frame.top_hosts@[i];
            let row = snapshot.outbound_domains@[i];
            &&& entry.host@ == row.key@
            &&& entry.in_bytes == row.tally.inbound
            &&& entry.out_bytes == row.tally.outbound
            &&& entry.total_bytes == row.tally.both()
            &&& entry.last_seen@ == instant_text(row.tally.last_seen as int)
        }),
        i < snapshot.inbound_ips@.len() ==> ({
            let entry = frame.top_inbound_ips@[i];
            let row = snapshot.inbound_ips@[i];
            &&& entry.ip@ == ip_text(row.key)
            &&& entry.bytes == row.tally.both()
            &&& entry.last_seen@ == instant_text(row.tally.last_seen as int)
        }),
        i < snapshot.outbound_ips@.len() ==> ({
            let entry = frame.top_outbound_ips@[i];
            let row = snapshot.outbound_ips@[i];
            &&& entry.ip@ == ip_text(row.key)
            &&& entry.bytes == row.tally.both()
            &&& entry.last_seen@ == instant_text(row.tally.last_seen as int)
        }),
{
    if i < snapshot.processes@.len() {
        let entry = frame.top_processes@[i];
    }
    if i < snapshot.outbound_domains@.len() {
        let entry = frame.top_hosts@[i];
    }
    if i < snapshot.inbound_ips@.len() {
        let entry = frame.top_inbound_ips@[i];
    }
    if i < snapshot.outbound_ips@.len() {
        let entry = frame.top_outbound_ips@[i];
    }
}

/// The number that a numeral stands for.
pub open spec fn number_read(numeral: Seq<char>) -> int
    decreases numeral.len(),
{
    if numeral.len() == 0 {
        0
    } else {
        10 * number_read(numeral.drop_last()) + (numeral.last() as int - '0' as int)
    }
}

/// Whether a text is made of decimal digits alone.
pub open spec fn all_digits(text: Seq<char>) -> bool {
    forall|i: int| 0 <= i < text.len() ==> '0' <= #[trigger] text[i] <= '9'
}

/// The numeral of a number reads as that number, is made of digits alone, and begins with a
/// zero only if it is that of zero.
pub proof fn lemma_numerals_read_back(value: nat)
    ensures
        number_read(decimal(value)) == value,
        all_digits(decimal(value)),
        decimal(value).len() > 0,
        value > 0 ==> decimal(value)[0] != '0',
        value < 10 ==> decimal(value).len() == 1,
    decreases value,
{
    if value >= 10 {
        lemma_numerals_read_back(value / 10);
        let head = decimal(value / 10);
        let whole = decimal(value);
        assert(whole.drop_last() =~= head);
        assert(whole[0] == head[0]);
        assert forall|i: int| 0 <= i < whole.len() implies '0' <= #[trigger] whole[i] <= '9' by {
            if i < head.len() {
                assert(whole[i] == head[i]);
            }
        }
    } else {
        assert(decimal(value).drop_last() =~= Seq::<char>::empty());
        assert(number_read(Seq::<char>::empty()) == 0);
    }
}

/// A padded numeral reads as its number too, and has at least the width that is asked for.
pub proof fn lemma_padded_numerals_read_back(value: nat, width: nat)
    ensures
        number_read(padded(value, width)) == value,
        all_digits(padded(value, width)),
        padded(value, width).len() >= width,
        width == 2 && value < 100 ==> padded(value, width).len() == 2,
    decreases width,
{
    lemma_numerals_read_back(value);
    if width > 1 {
        let rest = if value < 10 {
            0
        } else {
            value / 10
        };
        lemma_padded_numerals_read_back(rest, (width - 1) as nat);
        lemma_numerals_read_back(rest);
        let head = padded(rest, (width - 1) as nat);
        let whole = padded(value, width);
        assert(whole.drop_last() =~= head);
        assert forall|i: int| 0 <= i < whole.len() implies '0' <= #[trigger] whole[i] <= '9' by {
            if i < head.len() {
                assert(whole[i] == head[i]);
            }
        }
    }
}

/// A time span is shown as its hours, minutes and seconds, each with at least two digits.
pub proof fn lemma_time_spans_are_split(hours: nat, minutes: nat, seconds: nat)
    requires
        minutes < 60,
        seconds < 60,
    ensures
        elapsed_text(3600 * hours + 60 * minutes + seconds) == padded(hours, 2) + seq![':']
            + padded(minutes, 2) + seq![':'] + padded(seconds, 2),
{
}

/// Whole numbers below the fifty-third power of two are shown in double precision as they are.
/// Beyond it they are taken to the nearest number that double precision has, and to the even
/// one of two: these are one apart up to there, and twice as far apart with every doubling.
pub proof fn lemma_double_precision(n: nat)
    ensures
        n < 0x20_0000_0000_0000 ==> double_step(n) == 1 && as_double(n) == n,
        n >= 0x10_0000_0000_0000 ==> double_step(2 * n) == 2 * double_step(n) && double_step(
            2 * n + 1,
        ) == 2 * double_step(n),
        double_step(n) > 0,
        as_double(n) % double_step(n) == 0,
        -double_step(n) <= 2 * (as_double(n) - n) <= double_step(n),
    decreases n,
{
    if n < 0x20_0000_0000_0000 {
        assert(half_even(n, 1) == n);
        assert(half_even(n, 1) * 1 == n);
    } else {
        lemma_double_precision(n / 2);
    }
    assert((2 * n) / 2 == n);
    assert((2 * n + 1) / 2 == n);
    let step = double_step(n);
    let rounded = half_even(n, step);
    vstd::arithmetic::div_mod::lemma_fundamental_div_mod(n as int, step as int);
    vstd::arithmetic::div_mod::lemma_mod_multiples_basic(rounded as int, step as int);
    let quotient = n / step;
    let remainder = n % step;
    vstd::arithmetic::mul::lemma_mul_is_commutative(step as int, quotient as int);
    if rounded == quotient + 1 {
        vstd::arithmetic::mul::lemma_mul_is_distributive_add_other_way(
            step as int,
            quotient as int,
            1,
        );
    }
}

proof fn lemma_nearest(amount: nat, unit: nat)
    requires
        unit == 0x100_0000_0000 || unit == 0x4000_0000 || unit == 0x10_0000 || unit == 0x400,
    ensures
        -unit <= 2 * (half_even(amount, unit) * unit - amount) <= unit,
        2 * (half_even(amount, unit) * unit - amount) == unit || 2 * (half_even(amount, unit) * unit
            - amount) == -unit ==> half_even(amount, unit) % 2 == 0,
{
    if unit == 0x100_0000_0000 {
    } else if unit == 0x4000_0000 {
    } else if unit == 0x10_0000 {
    } else {
    }
}

/// An amount of bytes, in double precision, is shown in the largest unit of 1024 bytes, 1024 of
/// those and so on that it reaches, as the nearest number of hundredths of the unit, and the
/// even one of two that are as near. Below 1024 bytes the number itself is shown.
pub proof fn lemma_amounts_are_rounded(n: nat) -> (hundredths: nat)
    ensures
        n < 0x400 ==> bytes_text(n) == decimal(n) + " B"@,
        n >= 0x400 ==> ({
            let unit: int = if n >= 0x100_0000_0000 {
                0x100_0000_0000
            } else if n >= 0x4000_0000 {
                0x4000_0000
            } else if n >= 0x10_0000 {
                0x10_0000
            } else {
                0x400
            };
            let name = if n >= 0x100_0000_0000 {
                " TB"@
            } else if n >= 0x4000_0000 {
                " GB"@
            } else if n >= 0x10_0000 {
                " MB"@
            } else {
                " KB"@
            };
            let off = hundredths * unit - 100 * as_double(n);
            &&& bytes_text(n) == decimal(hundredths / 100) + seq!['.'] + padded(hundredths % 100, 2)
                + name
            &&& -unit <= 2 * off <= unit
            &&& 2 * off == unit || 2 * off == -unit ==> hundredths % 2 == 0
        }),
{
    let unit: nat = if n >= 0x100_0000_0000 {
        0x100_0000_0000
    } else if n >= 0x4000_0000 {
        0x4000_0000
    } else if n >= 0x10_0000 {
        0x10_0000
    } else {
        0x400
    };
    lemma_nearest(as_double(n) * 100, unit);
    let hundredths = half_even(as_double(n) * 100, unit);
    assert(bytes_text(n) == if n < 0x400 {
        decimal(n) + " B"@
    } else {
        crate::report::hundredths_text(n, unit) + (if n >= 0x100_0000_0000 {
            " TB"@
        } else if n >= 0x4000_0000 {
            " GB"@
        } else if n >= 0x10_0000 {
            " MB"@
        } else {
            " KB"@
        })
    });
    hundredths
}

/// A snapshot can be shown with its dates exactly if none of its lists has a row that was last
/// seen outside the calendar.
pub proof fn lemma_rows_outside_the_calendar(snapshot: TrafficSnapshot)
    ensures
        dated(snapshot) <==> !((exists|i: int|
            0 <= i < snapshot.processes@.len() && !is_instant(
                (#[trigger] snapshot.processes@[i]).tally.last_seen as int,
            )) || (exists|i: int|
            0 <= i < snapshot.outbound_domains@.len() && !is_instant(
                (#[trigger] snapshot.outbound_domains@[i]).tally.last_seen as int,
            )) || (exists|i: int|
            0 <= i < snapshot.inbound_ips@.len() && !is_instant(
                (#[trigger] snapshot.inbound_ips@[i]).tally.last_seen as int,
            )) || (exists|i: int|
            0 <= i < snapshot.outbound_ips@.len() && !is_instant(
                (#[trigger] snapshot.outbound_ips@[i]).tally.last_seen as int,
            ))),
{
}

} // verus!
