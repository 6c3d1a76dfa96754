//! Snapshots of the traffic as text and as frames of plain values.

use vstd::prelude::*;
use vstd::string::*;

use crate::address_text::{ip_text, ip_to_text, push_ip};
use crate::net::IpAddr;
use crate::scan::{text_of, trim, trimmed};
use crate::text::{
    chars_of, clone_text, decimal, padded, push_decimal, push_two_digits, text_from_utf8, text_view,
    utf8_text,
};
use crate::time::{instant_text, is_instant, rfc3339, MAX_SECONDS, MIN_SECONDS, NANOS_PER_SECOND};
use crate::traffic::{
    host_rows, key_rows, process_rows, IdentityView, ProcessIdentity, Row, Tally, TrafficSnapshot,
};

verus! {

/// The host name that the bytes of a command's output spell, without the white space
/// around it.
pub open spec fn host_name(output: Option<Seq<u8>>) -> Seq<char> {
    match output {
        Some(output) => match utf8_text(output) {
            Some(name) => trimmed(name),
            None => "unknown"@,
        },
        None => "unknown"@,
    }
}

/// The bytes of optional output.
pub open spec fn output_view(output: Option<Vec<u8>>) -> Option<Seq<u8>> {
    match output {
        Some(output) => Some(output@),
        None => None,
    }
}

/// The host name, from the output of the command that prints it.
pub fn hostname(output: &Option<Vec<u8>>) -> (name: String)
    ensures
        name@ == host_name(output_view(*output)),
{
    match output {
        Some(output) => match text_from_utf8(output.as_slice()) {
            Some(name) => text_of(&trim(&chars_of(name.as_str()))),
            None => "unknown".to_owned(),
        },
        None => "unknown".to_owned(),
    }
}

/// Hours, minutes and seconds, each with at least two digits.
pub open spec fn elapsed_text(seconds: nat) -> Seq<char> {
    padded(seconds / 3600, 2) + seq![':'] + padded(seconds % 3600 / 60, 2) + seq![':'] + padded(
        seconds % 60,
        2,
    )
}

/// A time span as hours, minutes and seconds.
pub fn fmt_elapsed(seconds: u64) -> (text: String)
    ensures
        text@ == elapsed_text(seconds as nat),
{
    let mut text = String::new();
    push_two_digits(&mut text, seconds / 3600);
    text.push(':');
    push_two_digits(&mut text, seconds % 3600 / 60);
    text.push(':');
    push_two_digits(&mut text, seconds % 60);
    assert(text@ =~= elapsed_text(seconds as nat));
    text
}

/// A quotient rounded to the nearest whole number, and to the even one of two.
pub open spec fn half_even(numerator: nat, denominator: nat) -> nat {
    let quotient = numerator / denominator;
    let remainder = numerator % denominator;
    if 2 * remainder > denominator || (2 * remainder == denominator && quotient % 2 == 1) {
        quotient + 1
    } else {
        quotient
    }
}

/// The distance between the double-precision numbers around a natural number, where it is
/// a whole one.
pub open spec fn double_step(n: nat) -> nat
    decreases n,
{
    if n < 0x20_0000_0000_0000 {
        1
    } else {
        2 * double_step(n / 2)
    }
}

/// A natural number in double precision.
pub open spec fn as_double(n: nat) -> nat {
    half_even(n, double_step(n)) * double_step(n)
}

/// A number of units with two digits behind the point.
pub open spec fn hundredths_text(n: nat, unit: nat) -> Seq<char> {
    let hundredths = half_even(as_double(n) * 100, unit);
    decimal(hundredths / 100) + seq!['.'] + padded(hundredths % 100, 2)
}

/// A number of bytes in the largest unit that it reaches.
pub open spec fn bytes_text(n: nat) -> Seq<char> {
    if n >= 0x100_0000_0000 {
        hundredths_text(n, 0x100_0000_0000) + " TB"@
    } else if n >= 0x4000_0000 {
        hundredths_text(n, 0x4000_0000) + " GB"@
    } else if n >= 0x10_0000 {
        hundredths_text(n, 0x10_0000) + " MB"@
    } else if n >= 0x400 {
        hundredths_text(n, 0x400) + " KB"@
    } else {
        decimal(n) + " B"@
    }
}

fn round_half_even(numerator: u128, denominator: u128) -> (quotient: u128)
    requires
        0 < denominator < 0x1_0000_0000_0000_0000,
    ensures
        quotient == half_even(numerator as nat, denominator as nat),
        quotient <= numerator + 1,
{
    let whole: u128 = numerator / denominator;
    let rest: u128 = numerator % denominator;
    proof {
        assert(whole <= numerator) by (nonlinear_arith)
            requires
                whole == numerator / denominator,
                denominator > 0,
        ;
        if numerator > 0 && denominator == 1 {
            assert(rest == 0);
        }
        assert(denominator >= 2 ==> whole < u128::MAX) by (nonlinear_arith)
            requires
                whole == numerator / denominator,
                denominator > 0,
        ;
    }
    if 2 * rest > denominator || (2 * rest == denominator && whole % 2 == 1) {
        whole + 1
    } else {
        whole
    }
}

fn step_of_double(n: u64) -> (step: u64)
    ensures
        step == double_step(n as nat),
        n > 0 ==> step <= n,
        step >= 1,
    decreases n,
{
    if n < 0x20_0000_0000_0000 {
        1
    } else {
        2 * step_of_double(n / 2)
    }
}

/// Appends a number of units with two digits behind the point.
fn push_hundredths(text: &mut String, n: u64, unit: u64)
    requires
        unit > 0,
    ensures
        final(text)@ == old(text)@ + hundredths_text(n as nat, unit as nat),
{
    let ghost before = text@;
    let step: u64 = step_of_double(n);
    let steps: u128 = round_half_even(n as u128, step as u128);
    assert(steps * step <= 0x2_0000_0000_0000_0000 * 0x1_0000_0000_0000_0000) by (nonlinear_arith)
        requires
            steps <= n + 1,
            n <= u64::MAX,
            step <= u64::MAX,
    ;
    proof {
        lemma_double_bound(n as nat);
    }
    let double: u128 = steps * step as u128;
    let hundredths: u128 = round_half_even(double * 100, unit as u128);
    push_wide(text, hundredths / 100);
    text.push('.');
    push_two_digits(text, (hundredths % 100) as u64);
    assert(text@ =~= before + hundredths_text(n as nat, unit as nat));
}

proof fn lemma_double_bound(n: nat)
    requires
        n <= u64::MAX,
    ensures
        half_even(n, double_step(n)) * double_step(n) <= 2 * n + 2,
        double_step(n) >= 1,
{
    lemma_double_step(n);
    let step = double_step(n);
    let whole = n / step;
    assert(whole * step <= n) by (nonlinear_arith)
        requires
            whole == n / step,
            step >= 1,
    ;
    assert((whole + 1) * step == whole * step + step) by (nonlinear_arith);
}

proof fn lemma_double_step(n: nat)
    ensures
        double_step(n) >= 1,
        n > 0 ==> double_step(n) <= n,
        n == 0 ==> double_step(n) == 1,
    decreases n,
{
    if n >= 0x20_0000_0000_0000 {
        lemma_double_step(n / 2);
    }
}

/// Appends the decimal numeral of a wide number.
fn push_wide(text: &mut String, value: u128)
    ensures
        final(text)@ == old(text)@ + decimal(value as nat),
    decreases value,
{
    let ghost before = text@;
    if value >= 10 {
        push_wide(text, value / 10);
        push_decimal(text, (value % 10) as u64);
        assert(decimal((value % 10) as nat) =~= seq![crate::text::digit((value % 10) as nat)]);
        assert(text@ =~= before + decimal(value as nat));
    } else {
        push_decimal(text, value as u64);
    }
}

fn push_bytes(text: &mut String, n: u64)
    ensures
        final(text)@ == old(text)@ + bytes_text(n as nat),
{
    let ghost before = text@;
    if n >= 0x100_0000_0000 {
        push_hundredths(text, n, 0x100_0000_0000);
        text.append(" TB");
    } else if n >= 0x4000_0000 {
        push_hundredths(text, n, 0x4000_0000);
        text.append(" GB");
    } else if n >= 0x10_0000 {
        push_hundredths(text, n, 0x10_0000);
        text.append(" MB");
    } else if n >= 0x400 {
        push_hundredths(text, n, 0x400);
        text.append(" KB");
    } else {
        push_decimal(text, n);
        text.append(" B");
    }
    assert(text@ =~= before + bytes_text(n as nat));
}

/// A number of bytes in the largest unit that it reaches, with two digits behind the point.
pub fn human_bytes(n: u64) -> (text: String)
    ensures
        text@ == bytes_text(n as nat),
{
    let mut text = String::new();
    push_bytes(&mut text, n);
    assert(text@ =~= bytes_text(n as nat));
    text
}

/// A text of at most so many characters, else cut off with an ellipsis.
pub fn truncate(s: &str, max_chars: usize) -> (text: String)
    ensures
        text@ == if s@.len() <= max_chars {
            s@
        } else {
            s@.take(max_chars as int).push('\u{2026}')
        },
{
    let chars = chars_of(s);
    if chars.len() <= max_chars {
        return s.to_owned();
    }
    let mut text = String::new();
    let mut i: usize = 0;
    while i < max_chars
        invariant
            i <= max_chars < chars@.len(),
            chars@ == s@,
            text@ == s@.take(i as int),
        decreases max_chars - i,
    {
        text.push(chars[i]);
        assert(s@.take(i + 1) =~= s@.take(i as int).push(s@[i as int]));
        i += 1;
    }
    text.push('\u{2026}');
    text
}

/// Whether every line was last seen at an instant of the calendar.
pub open spec fn in_calendar<K>(rows: Seq<Row<K>>) -> bool {
    forall|i: int| 0 <= i < rows.len() ==> is_instant((#[trigger] rows[i]).tally.last_seen as int)
}

/// Whether every line of a snapshot was last seen at an instant of the calendar.
pub open spec fn dated(snapshot: TrafficSnapshot) -> bool {
    &&& in_calendar(snapshot.processes@)
    &&& in_calendar(snapshot.outbound_domains@)
    &&& in_calendar(snapshot.inbound_ips@)
    &&& in_calendar(snapshot.outbound_ips@)
}

fn rows_dated<K>(rows: &Vec<Row<K>>) -> (all: bool)
    ensures
        all == in_calendar(rows@),
{
    let mut i: usize = 0;
    while i < rows.len()
        invariant
            i <= rows@.len(),
            forall|k: int|
                0 <= k < i ==> is_instant((#[trigger] rows@[k]).tally.last_seen as int),
        decreases rows@.len() - i,
    {
        let at: i128 = rows[i].tally.last_seen;
        if at < MIN_SECONDS as i128 * NANOS_PER_SECOND || at >= (MAX_SECONDS as i128 + 1)
            * NANOS_PER_SECOND {
            assert(!is_instant(rows@[i as int].tally.last_seen as int));
            return false;
        }
        i += 1;
    }
    true
}

/// Whether every line of a snapshot was last seen at an instant of the calendar.
pub fn is_dated(snapshot: &TrafficSnapshot) -> (all: bool)
    ensures
        all == dated(*snapshot),
{
    rows_dated(&snapshot.processes) && rows_dated(&snapshot.outbound_domains) && rows_dated(
        &snapshot.inbound_ips,
    ) && rows_dated(&snapshot.outbound_ips)
}

/// What an owner of traffic is called.
pub open spec fn owner_name(identity: IdentityView) -> Seq<char> {
    match identity {
        IdentityView::Process { name: Some(name), .. } => name,
        IdentityView::Process { name: None, .. } => "?"@,
        IdentityView::Unattributed => "<unattributed traffic>"@,
    }
}

/// The process number of an owner.
pub open spec fn owner_pid(identity: IdentityView) -> Option<u32> {
    match identity {
        IdentityView::Process { pid, .. } => Some(pid),
        _ => None,
    }
}

/// The executable's path of an owner.
pub open spec fn owner_path(identity: IdentityView) -> Option<Seq<char>> {
    match identity {
        IdentityView::Process { path, .. } => path,
        _ => None,
    }
}

/// The line of an owner: name, process number, bytes each way and in total, when it was
/// last seen, path.
pub open spec fn process_line(row: (IdentityView, Tally)) -> Seq<char> {
    let (identity, tally) = row;
    let pid = match owner_pid(identity) {
        Some(pid) => decimal(pid as nat),
        None => "-"@,
    };
    let path = match owner_path(identity) {
        Some(path) => path,
        None => "-"@,
    };
    owner_name(identity) + seq!['\t'] + pid + seq!['\t'] + bytes_text(tally.inbound as nat)
        + seq!['\t'] + bytes_text(tally.outbound as nat) + seq!['\t'] + bytes_text(
        tally.both() as nat,
    ) + seq!['\t'] + instant_text(tally.last_seen as int) + seq!['\t'] + path + seq!['\n']
}

/// The line of a host name: name, bytes each way and in total, when it was last seen.
pub open spec fn host_line(row: (Seq<char>, Tally)) -> Seq<char> {
    let (host, tally) = row;
    host + seq!['\t'] + bytes_text(tally.inbound as nat) + seq!['\t'] + bytes_text(
        tally.outbound as nat,
    ) + seq!['\t'] + bytes_text(tally.both() as nat) + seq!['\t'] + instant_text(
        tally.last_seen as int,
    ) + seq!['\n']
}

/// The line of an address: address, bytes, when it was last seen.
pub open spec fn ip_line(row: (IpAddr, Tally)) -> Seq<char> {
    let (ip, tally) = row;
    ip_text(ip) + seq!['\t'] + bytes_text(tally.both() as nat) + seq!['\t'] + instant_text(
        tally.last_seen as int,
    ) + seq!['\n']
}

/// Lines one after another.
pub open spec fn all_lines<V>(
    rows: Seq<(V, Tally)>,
    line: spec_fn((V, Tally)) -> Seq<char>,
) -> Seq<char>
    decreases rows.len(),
{
    if rows.len() == 0 {
        Seq::empty()
    } else {
        all_lines(rows.drop_last(), line) + line(rows.last())
    }
}

/// The lines of owners.
pub open spec fn process_lines(rows: Seq<(IdentityView, Tally)>) -> Seq<char> {
    all_lines(rows, |row: (IdentityView, Tally)| process_line(row))
}

/// The lines of host names.
pub open spec fn host_lines(rows: Seq<(Seq<char>, Tally)>) -> Seq<char> {
    all_lines(rows, |row: (Seq<char>, Tally)| host_line(row))
}

/// The lines of addresses.
pub open spec fn ip_lines(rows: Seq<(IpAddr, Tally)>) -> Seq<char> {
    all_lines(rows, |row: (IpAddr, Tally)| ip_line(row))
}

impl ProcessIdentity {
    /// What an owner of traffic is called.
    pub fn display_name(&self) -> (name: &str)
        ensures
            name@ == owner_name(self@),
    {
        match self {
            ProcessIdentity::Process(process) => match &process.name {
                Some(name) => name.as_str(),
                None => "?",
            },
            ProcessIdentity::Unattributed => "<unattributed traffic>",
        }
    }

    /// The process number of an owner.
    pub fn pid(&self) -> (pid: Option<u32>)
        ensures
            pid == owner_pid(self@),
    {
        match self {
            ProcessIdentity::Process(process) => Some(process.pid),
            _ => None,
        }
    }
}

fn push_process_line(out: &mut String, row: &Row<ProcessIdentity>)
    requires
        is_instant(row.tally.last_seen as int),
    ensures
        final(out)@ == old(out)@ + process_line((row.key@, row.tally)),
{
    let ghost before = out@;
    out.append(row.key.display_name());
    out.push('\t');
    match row.key.pid() {
        Some(pid) => push_decimal(out, pid as u64),
        None => out.append("-"),
    }
    out.push('\t');
    push_bytes(out, row.tally.inbound);
    out.push('\t');
    push_bytes(out, row.tally.outbound);
    out.push('\t');
    push_bytes(out, row.tally.total());
    out.push('\t');
    out.append(rfc3339(row.tally.last_seen).as_str());
    out.push('\t');
    match &row.key {
        ProcessIdentity::Process(process) => match &process.path {
            Some(path) => out.append(path.as_str()),
            None => out.append("-"),
        },
        _ => out.append("-"),
    }
    out.push('\n');
    assert(out@ =~= before + process_line((row.key@, row.tally)));
}

fn push_host_line(out: &mut String, row: &Row<String>)
    requires
        is_instant(row.tally.last_seen as int),
    ensures
        final(out)@ == old(out)@ + host_line((row.key@, row.tally)),
{
    let ghost before = out@;
    out.append(row.key.as_str());
    out.push('\t');
    push_bytes(out, row.tally.inbound);
    out.push('\t');
    push_bytes(out, row.tally.outbound);
    out.push('\t');
    push_bytes(out, row.tally.total());
    out.push('\t');
    out.append(rfc3339(row.tally.last_seen).as_str());
    out.push('\n');
    assert(out@ =~= before + host_line((row.key@, row.tally)));
}

fn push_ip_line(out: &mut String, row: &Row<IpAddr>)
    requires
        is_instant(row.tally.last_seen as int),
    ensures
        final(out)@ == old(out)@ + ip_line((row.key, row.tally)),
{
    let ghost before = out@;
    push_ip(out, row.key);
    out.push('\t');
    push_bytes(out, row.tally.total());
    out.push('\t');
    out.append(rfc3339(row.tally.last_seen).as_str());
    out.push('\n');
    assert(out@ =~= before + ip_line((row.key, row.tally)));
}

fn push_process_lines(out: &mut String, rows: &Vec<Row<ProcessIdentity>>)
    requires
        in_calendar(rows@),
    ensures
        final(out)@ == old(out)@ + process_lines(process_rows(rows@)),
{
    let ghost before = out@;
    let ghost views = process_rows(rows@);
    let mut i: usize = 0;
    assert(out@ =~= before + process_lines(views.take(0)));
    while i < rows.len()
        invariant
            i <= rows@.len(),
            in_calendar(rows@),
            views == process_rows(rows@),
            out@ == before + process_lines(views.take(i as int)),
        decreases rows@.len() - i,
    {
        push_process_line(out, &rows[i]);
        assert(views.take(i + 1).drop_last() =~= views.take(i as int));
        assert(out@ =~= before + process_lines(views.take(i + 1)));
        i += 1;
    }
    assert(views.take(i as int) =~= views);
}

fn push_host_lines(out: &mut String, rows: &Vec<Row<String>>)
    requires
        in_calendar(rows@),
    ensures
        final(out)@ == old(out)@ + host_lines(host_rows(rows@)),
{
    let ghost before = out@;
    let ghost views = host_rows(rows@);
    let mut i: usize = 0;
    assert(out@ =~= before + host_lines(views.take(0)));
    while i < rows.len()
        invariant
            i <= rows@.len(),
            in_calendar(rows@),
            views == host_rows(rows@),
            out@ == before + host_lines(views.take(i as int)),
        decreases rows@.len() - i,
    {
        push_host_line(out, &rows[i]);
        assert(views.take(i + 1).drop_last() =~= views.take(i as int));
        assert(out@ =~= before + host_lines(views.take(i + 1)));
        i += 1;
    }
    assert(views.take(i as int) =~= views);
}

fn push_ip_lines(out: &mut String, rows: &Vec<Row<IpAddr>>)
    requires
        in_calendar(rows@),
    ensures
        final(out)@ == old(out)@ + ip_lines(key_rows(rows@)),
{
    let ghost before = out@;
    let ghost views = key_rows(rows@);
    let mut i: usize = 0;
    assert(out@ =~= before + ip_lines(views.take(0)));
    while i < rows.len()
        invariant
            i <= rows@.len(),
            in_calendar(rows@),
            views == key_rows(rows@),
            out@ == before + ip_lines(views.take(i as int)),
        decreases rows@.len() - i,
    {
        push_ip_line(out, &rows[i]);
        assert(views.take(i + 1).drop_last() =~= views.take(i as int));
        assert(out@ =~= before + ip_lines(views.take(i + 1)));
        i += 1;
    }
    assert(views.take(i as int) =~= views);
}

/// The head of a plain report.
pub open spec fn report_head(
    interface: Seq<char>,
    host: Seq<char>,
    started: Seq<char>,
    uptime: nat,
    now: Seq<char>,
) -> Seq<char> {
    "flowlens\t"@ + interface + "\thost: "@ + host + "\tstarted: "@ + started + "\tuptime: "@
        + elapsed_text(uptime) + "\t"@ + now + "\n\n"@
}

/// The traffic of the interface in a plain report.
pub open spec fn interface_part(in_bytes: nat, out_bytes: nat) -> Seq<char> {
    "Interface Traffic\n"@ + "Inbound\t"@ + bytes_text(in_bytes) + "\n"@ + "Outbound\t"@
        + bytes_text(out_bytes) + "\n\n"@
}

/// The heading of a list in a plain report.
pub open spec fn list_heading(title: Seq<char>, top_n: nat, columns: Seq<char>) -> Seq<char> {
    title + decimal(top_n) + ")\n"@ + columns
}

/// The lists of a plain report.
pub open spec fn report_lists(snapshot: TrafficSnapshot, top_n: nat) -> Seq<char> {
    list_heading(
        "Top Processes ("@,
        top_n,
        "Process\tPID\tRecv\tSent\tTotal\tLast Seen\tPath\n"@,
    ) + process_lines(process_rows(snapshot.processes@)) + list_heading(
        "\nTop Hosts ("@,
        top_n,
        "Host\tIn\tOut\tTotal\tLast Seen\n"@,
    ) + host_lines(host_rows(snapshot.outbound_domains@)) + list_heading(
        "\nTop Inbound IPs ("@,
        top_n,
        "IP\tTotal\tLast Seen\n"@,
    ) + ip_lines(key_rows(snapshot.inbound_ips@)) + list_heading(
        "\nTop Outbound IPs ("@,
        top_n,
        "IP\tTotal\tLast Seen\n"@,
    ) + ip_lines(key_rows(snapshot.outbound_ips@))
}

fn push_heading(out: &mut String, title: &str, top_n: usize, columns: &str)
    ensures
        final(out)@ == old(out)@ + list_heading(title@, top_n as nat, columns@),
{
    let ghost before = out@;
    out.append(title);
    push_decimal(out, top_n as u64);
    out.append(")\n");
    out.append(columns);
    assert(out@ =~= before + list_heading(title@, top_n as nat, columns@));
}

fn push_head(
    out: &mut String,
    interface: &str,
    host: &str,
    started: &str,
    uptime_seconds: u64,
    now: &str,
)
    ensures
        final(out)@ == old(out)@ + report_head(
            interface@,
            host@,
            started@,
            uptime_seconds as nat,
            now@,
        ),
{
    let ghost before = out@;
    out.append("flowlens\t");
    out.append(interface);
    out.append("\thost: ");
    out.append(host);
    out.append("\tstarted: ");
    out.append(started);
    out.append("\tuptime: ");
    out.append(fmt_elapsed(uptime_seconds).as_str());
    out.append("\t");
    out.append(now);
    out.append("\n\n");
    assert(out@ =~= before + report_head(
        interface@,
        host@,
        started@,
        uptime_seconds as nat,
        now@,
    ));
}

fn push_interface_part(out: &mut String, in_bytes: u64, out_bytes: u64)
    ensures
        final(out)@ == old(out)@ + interface_part(in_bytes as nat, out_bytes as nat),
{
    let ghost before = out@;
    out.append("Interface Traffic\n");
    out.append("Inbound\t");
    push_bytes(out, in_bytes);
    out.append("\n");
    out.append("Outbound\t");
    push_bytes(out, out_bytes);
    out.append("\n\n");
    assert(out@ =~= before + interface_part(in_bytes as nat, out_bytes as nat));
}

/// A snapshot as plain text: a head, the traffic of the interface, then the lists with
/// their columns separated by tabs.
pub fn plain_snapshot(
    interface: &str,
    host: &str,
    started: &str,
    uptime_seconds: u64,
    now: &str,
    snapshot: &TrafficSnapshot,
    top_n: usize,
) -> (text: String)
    requires
        dated(*snapshot),
    ensures
        text@ == report_head(interface@, host@, started@, uptime_seconds as nat, now@)
            + interface_part(snapshot.in_bytes as nat, snapshot.out_bytes as nat) + report_lists(
            *snapshot,
            top_n as nat,
        ),
{
    let mut out = String::new();
    push_head(&mut out, interface, host, started, uptime_seconds, now);
    push_interface_part(&mut out, snapshot.in_bytes, snapshot.out_bytes);
    let ghost before = out@;
    push_heading(
        &mut out,
        "Top Processes (",
        top_n,
        "Process\tPID\tRecv\tSent\tTotal\tLast Seen\tPath\n",
    );
    push_process_lines(&mut out, &snapshot.processes);
    push_heading(&mut out, "\nTop Hosts (", top_n, "Host\tIn\tOut\tTotal\tLast Seen\n");
    push_host_lines(&mut out, &snapshot.outbound_domains);
    push_heading(&mut out, "\nTop Inbound IPs (", top_n, "IP\tTotal\tLast Seen\n");
    push_ip_lines(&mut out, &snapshot.inbound_ips);
    push_heading(&mut out, "\nTop Outbound IPs (", top_n, "IP\tTotal\tLast Seen\n");
    push_ip_lines(&mut out, &snapshot.outbound_ips);
    assert(out@ =~= before + report_lists(*snapshot, top_n as nat));
    assert(out@ =~= report_head(interface@, host@, started@, uptime_seconds as nat, now@)
        + interface_part(snapshot.in_bytes as nat, snapshot.out_bytes as nat) + report_lists(
        *snapshot,
        top_n as nat,
    ));
    out
}

/// An owner of traffic in a frame.
#[derive(Debug)]
pub struct JsonProc {
    pub pid: Option<u32>,
    pub name: Option<String>,
    pub path: Option<String>,
    pub last_seen: String,
    pub recv: u64,
    pub sent: u64,
    pub total: u64,
}

/// A host name in a frame.
#[derive(Debug)]
pub struct JsonHost {
    pub host: String,
    pub in_bytes: u64,
    pub out_bytes: u64,
    pub total_bytes: u64,
    pub last_seen: String,
}

/// An address in a frame.
#[derive(Debug)]
pub struct JsonIp {
    pub ip: String,
    pub bytes: u64,
    pub last_seen: String,
}

/// A snapshot as a frame of plain values.
#[derive(Debug)]
pub struct JsonFrame {
    pub interface: String,
    pub host: String,
    pub started_at: String,
    pub now: String,
    pub uptime_secs: u64,
    pub in_bytes: u64,
    pub out_bytes: u64,
    pub top_processes: Vec<JsonProc>,
    pub top_hosts: Vec<JsonHost>,
    pub top_inbound_ips: Vec<JsonIp>,
    pub top_outbound_ips: Vec<JsonIp>,
}

/// Whether an entry of a frame shows an owner.
pub open spec fn shows_process(entry: JsonProc, row: (IdentityView, Tally)) -> bool {
    let (identity, tally) = row;
    &&& entry.pid == owner_pid(identity)
    &&& text_view(entry.name) == match identity {
        IdentityView::Process { name, .. } => name,
        _ => None,
    }
    &&& text_view(entry.path) == owner_path(identity)
    &&& entry.last_seen@ == instant_text(tally.last_seen as int)
    &&& entry.recv == tally.inbound
    &&& entry.sent == tally.outbound
    &&& entry.total == tally.both()
}

/// Whether an entry of a frame shows a host name.
pub open spec fn shows_host(entry: JsonHost, row: (Seq<char>, Tally)) -> bool {
    let (host, tally) = row;
    &&& entry.host@ == host
    &&& entry.in_bytes == tally.inbound
    &&& entry.out_bytes == tally.outbound
    &&& entry.total_bytes == tally.both()
    &&& entry.last_seen@ == instant_text(tally.last_seen as int)
}

/// Whether an entry of a frame shows an address.
pub open spec fn shows_ip(entry: JsonIp, row: (IpAddr, Tally)) -> bool {
    let (ip, tally) = row;
    &&& entry.ip@ == ip_text(ip)
    &&& entry.bytes == tally.both()
    &&& entry.last_seen@ == instant_text(tally.last_seen as int)
}

fn json_process(row: &Row<ProcessIdentity>) -> (entry: JsonProc)
    requires
        is_instant(row.tally.last_seen as int),
    ensures
        shows_process(entry, (row.key@, row.tally)),
{
    let (name, path) = match &row.key {
        ProcessIdentity::Process(process) => (
            clone_text(&process.name),
            clone_text(&process.path),
        ),
        _ => (None, None),
    };
    JsonProc {
        pid: row.key.pid(),
        name,
        path,
        last_seen: rfc3339(row.tally.last_seen),
        recv: row.tally.inbound,
        sent: row.tally.outbound,
        total: row.tally.total(),
    }
}

fn json_host(row: &Row<String>) -> (entry: JsonHost)
    requires
        is_instant(row.tally.last_seen as int),
    ensures
        shows_host(entry, (row.key@, row.tally)),
{
    JsonHost {
        host: row.key.clone(),
        in_bytes: row.tally.inbound,
        out_bytes: row.tally.outbound,
        total_bytes: row.tally.total(),
        last_seen: rfc3339(row.tally.last_seen),
    }
}

fn json_ip(row: &Row<IpAddr>) -> (entry: JsonIp)
    requires
        is_instant(row.tally.last_seen as int),
    ensures
        shows_ip(entry, (row.key, row.tally)),
{
    JsonIp {
        ip: ip_to_text(row.key),
        bytes: row.tally.total(),
        last_seen: rfc3339(row.tally.last_seen),
    }
}

fn json_processes(rows: &Vec<Row<ProcessIdentity>>) -> (entries: Vec<JsonProc>)
    requires
        in_calendar(rows@),
    ensures
        entries@.len() == rows@.len(),
        forall|i: int|
            0 <= i < entries@.len() ==> shows_process(
                #[trigger] entries@[i],
                process_rows(rows@)[i],
            ),
{
    let mut entries: Vec<JsonProc> = Vec::new();
    let mut i: usize = 0;
    while i < rows.len()
        invariant
            i <= rows@.len(),
            in_calendar(rows@),
            entries@.len() == i,
            forall|k: int|
                0 <= k < i ==> shows_process(#[trigger] entries@[k], process_rows(rows@)[k]),
        decreases rows@.len() - i,
    {
        entries.push(json_process(&rows[i]));
        i += 1;
    }
    entries
}

fn json_hosts(rows: &Vec<Row<String>>) -> (entries: Vec<JsonHost>)
    requires
        in_calendar(rows@),
    ensures
        entries@.len() == rows@.len(),
        forall|i: int|
            0 <= i < entries@.len() ==> shows_host(
                #[trigger] entries@[i],
                host_rows(rows@)[i],
            ),
{
    let mut entries: Vec<JsonHost> = Vec::new();
    let mut i: usize = 0;
    while i < rows.len()
        invariant
            i <= rows@.len(),
            in_calendar(rows@),
            entries@.len() == i,
            forall|k: int|
                0 <= k < i ==> shows_host(#[trigger] entries@[k], host_rows(rows@)[k]),
        decreases rows@.len() - i,
    {
        entries.push(json_host(&rows[i]));
        i += 1;
    }
    entries
}

fn json_ips(rows: &Vec<Row<IpAddr>>) -> (entries: Vec<JsonIp>)
    requires
        in_calendar(rows@),
    ensures
        entries@.len() == rows@.len(),
        forall|i: int|
            0 <= i < entries@.len() ==> shows_ip(
                #[trigger] entries@[i],
                key_rows(rows@)[i],
            ),
{
    let mut entries: Vec<JsonIp> = Vec::new();
    let mut i: usize = 0;
    while i < rows.len()
        invariant
            i <= rows@.len(),
            in_calendar(rows@),
            entries@.len() == i,
            forall|k: int|
                0 <= k < i ==> shows_ip(#[trigger] entries@[k], key_rows(rows@)[k]),
        decreases rows@.len() - i,
    {
        entries.push(json_ip(&rows[i]));
        i += 1;
    }
    entries
}

/// Whether the lists of a frame show those of a snapshot, line by line.
pub open spec fn shows_snapshot(frame: JsonFrame, snapshot: TrafficSnapshot) -> bool {
    &&& frame.in_bytes == snapshot.in_bytes
    &&& frame.out_bytes == snapshot.out_bytes
    &&& frame.top_processes@.len() == snapshot.processes@.len()
    &&& frame.top_hosts@.len() == snapshot.outbound_domains@.len()
    &&& frame.top_inbound_ips@.len() == snapshot.inbound_ips@.len()
    &&& frame.top_outbound_ips@.len() == snapshot.outbound_ips@.len()
    &&& forall|i: int|
        0 <= i < frame.top_processes@.len() ==> shows_process(
            #[trigger] frame.top_processes@[i],
            process_rows(snapshot.processes@)[i],
        )
    &&& forall|i: int|
        0 <= i < frame.top_hosts@.len() ==> shows_host(
            #[trigger] frame.top_hosts@[i],
            host_rows(snapshot.outbound_domains@)[i],
        )
    &&& forall|i: int|
        0 <= i < frame.top_inbound_ips@.len() ==> shows_ip(
            #[trigger] frame.top_inbound_ips@[i],
            key_rows(snapshot.inbound_ips@)[i],
        )
    &&& forall|i: int|
        0 <= i < frame.top_outbound_ips@.len() ==> shows_ip(
            #[trigger] frame.top_outbound_ips@[i],
            key_rows(snapshot.outbound_ips@)[i],
        )
}

/// A snapshot as a frame of plain values.
pub fn build_json_frame(
    interface: &str,
    host: &str,
    started_at: &str,
    now: &str,
    uptime_secs: u64,
    snapshot: &TrafficSnapshot,
) -> (frame: JsonFrame)
    requires
        dated(*snapshot),
    ensures
        frame.interface@ == interface@,
        frame.host@ == host@,
        frame.started_at@ == started_at@,
        frame.now@ == now@,
        frame.uptime_secs == uptime_secs,
        shows_snapshot(frame, *snapshot),
{
    JsonFrame {
        interface: interface.to_owned(),
        host: host.to_owned(),
        started_at: started_at.to_owned(),
        now: now.to_owned(),
        uptime_secs,
        in_bytes: snapshot.in_bytes,
        out_bytes: snapshot.out_bytes,
        top_processes: json_processes(&snapshot.processes),
        top_hosts: json_hosts(&snapshot.outbound_domains),
        top_inbound_ips: json_ips(&snapshot.inbound_ips),
        top_outbound_ips: json_ips(&snapshot.outbound_ips),
    }
}

} // verus!
