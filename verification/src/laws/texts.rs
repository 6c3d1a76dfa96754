//! How texts are taken apart: words, lines, numerals, addresses and start times.

use vstd::prelude::*;

use crate::address_text::{groups, hex_digit, hexadecimal, ip_text, joined, longest_zeros, zeros_from};
use crate::net::IpAddr;
use crate::scan::{
    digit_in, digits_value, holds, holds_at, integer, is_white, lines, natural, rows,
    starts_with, trimmed, without_return, words,
};
use crate::start_time::{
    after_bracket, boot_seconds, filetime_instant, line_starting, start_ticks, started_at,
};
use crate::text::{decimal, digit};

verus! {

/// A blank parts the words before it from those behind it.
pub proof fn lemma_blanks_part_words(left: Seq<char>, blank: char, right: Seq<char>)
    requires
        is_white(blank),
    ensures
        words(left.push(blank) + right) == words(left) + words(right),
    decreases right.len(),
{
    let text = left.push(blank) + right;
    if right.len() == 0 {
        assert(text.drop_last() =~= left);
        assert(words(left) + words(right) =~= words(left));
    } else {
        let shorter = right.drop_last();
        lemma_blanks_part_words(left, blank, shorter);
        assert(text.drop_last() =~= left.push(blank) + shorter);
        let before = words(left) + words(shorter);
        if is_white(right.last()) {
        } else if right.len() == 1 {
            assert(text[text.len() - 2] == blank);
            assert(words(shorter) =~= Seq::<Seq<char>>::empty());
            assert(words(right) =~= seq![seq![right.last()]]);
            assert(words(text) =~= words(left) + words(right));
        } else {
            assert(text[text.len() - 2] == right[right.len() - 2]);
            if is_white(right[right.len() - 2]) {
                assert(words(text) =~= words(left) + words(right));
            } else {
                lemma_word_before(shorter);
                assert(before.drop_last() =~= words(left) + words(shorter).drop_last());
                assert(words(text) =~= words(left) + words(right));
            }
        }
    }
}

proof fn lemma_word_before(text: Seq<char>)
    requires
        text.len() > 0,
        !is_white(text.last()),
    ensures
        words(text).len() > 0,
{
}

/// A text without blanks is one word, unless it is empty.
pub proof fn lemma_text_without_blanks_is_a_word(text: Seq<char>)
    requires
        forall|i: int| 0 <= i < text.len() ==> !is_white(#[trigger] text[i]),
    ensures
        text.len() == 0 ==> words(text).len() == 0,
        text.len() > 0 ==> words(text) == seq![text],
    decreases text.len(),
{
    if text.len() > 0 {
        let shorter = text.drop_last();
        assert(!is_white(text[text.len() - 1]));
        assert forall|i: int| 0 <= i < shorter.len() implies !is_white(#[trigger] shorter[i]) by {
            assert(shorter[i] == text[i]);
        }
        lemma_text_without_blanks_is_a_word(shorter);
        if text.len() == 1 {
            assert(seq![text.last()] =~= text);
            assert(words(shorter) =~= Seq::<Seq<char>>::empty());
            assert(words(text) =~= seq![text]);
        } else {
            assert(!is_white(text[text.len() - 2]));
            assert(shorter.push(text.last()) =~= text);
            assert(words(text) =~= seq![text]);
        }
    }
}

proof fn lemma_rows_count(text: Seq<char>)
    ensures
        rows(text).len() > 0,
    decreases text.len(),
{
    if text.len() > 0 {
        lemma_rows_count(text.drop_last());
    }
}

proof fn lemma_single_row(row: Seq<char>)
    requires
        forall|i: int| 0 <= i < row.len() ==> #[trigger] row[i] != '\n',
    ensures
        rows(row) == seq![row],
    decreases row.len(),
{
    if row.len() > 0 {
        let shorter = row.drop_last();
        assert(row[row.len() - 1] != '\n');
        assert forall|i: int| 0 <= i < shorter.len() implies #[trigger] shorter[i] != '\n' by {
            assert(shorter[i] == row[i]);
        }
        lemma_single_row(shorter);
        assert(shorter.push(row.last()) =~= row);
        assert(rows(row) =~= seq![row]);
    } else {
        assert(row =~= Seq::<char>::empty());
    }
}

proof fn lemma_rows_split(row: Seq<char>, rest: Seq<char>)
    requires
        forall|i: int| 0 <= i < row.len() ==> #[trigger] row[i] != '\n',
    ensures
        rows(row.push('\n') + rest) == seq![row] + rows(rest),
    decreases rest.len(),
{
    let text = row.push('\n') + rest;
    if rest.len() == 0 {
        lemma_single_row(row);
        assert(text.drop_last() =~= row);
        assert(rows(text) =~= seq![row] + rows(rest));
    } else {
        let shorter = rest.drop_last();
        lemma_rows_split(row, shorter);
        lemma_rows_count(shorter);
        assert(text.drop_last() =~= row.push('\n') + shorter);
        let before = seq![row] + rows(shorter);
        if rest.last() == '\n' {
            assert(rows(text) =~= seq![row] + rows(rest));
        } else {
            assert(before.drop_last() =~= seq![row] + rows(shorter).drop_last());
            assert(rows(text) =~= seq![row] + rows(rest));
        }
    }
}

/// A line ends at a line feed, which is not part of it; neither is a carriage return before the
/// line feed. What follows the last line feed is a line if it is not empty.
pub proof fn lemma_line_feeds_end_lines(row: Seq<char>, rest: Seq<char>)
    requires
        forall|i: int| 0 <= i < row.len() ==> #[trigger] row[i] != '\n',
    ensures
        lines(row.push('\n') + rest) == seq![
            if row.len() > 0 && row[row.len() - 1] == '\r' {
                row.drop_last()
            } else {
                row
            },
        ] + lines(rest),
        row.len() == 0 ==> lines(row).len() == 0,
        row.len() > 0 ==> lines(row) == seq![row],
{
    lemma_rows_split(row, rest);
    lemma_rows_count(rest);
    lemma_single_row(row);
    let text = row.push('\n') + rest;
    let all = rows(text);
    assert(all.drop_last() =~= seq![row] + rows(rest).drop_last());
    assert(lines(text) =~= seq![without_return(row)] + lines(rest));
    if row.len() > 0 {
        assert(lines(row) =~= seq![row]);
    }
}

proof fn lemma_digits_of_decimal(value: nat)
    ensures
        digits_value(decimal(value), 10) == Some(value),
        decimal(value).len() > 0,
        decimal(value)[0] != '+',
        decimal(value)[0] != '-',
    decreases value,
{
    if value >= 10 {
        lemma_digits_of_decimal(value / 10);
        let head = decimal(value / 10);
        assert(decimal(value).drop_last() =~= head);
        assert(decimal(value)[0] == head[0]);
        assert(digit_in(digit(value % 10), 10) == Some(value % 10));
    } else {
        assert(decimal(value).drop_last() =~= Seq::<char>::empty());
        assert(digits_value(Seq::<char>::empty(), 10) == Some(0nat));
        assert(digit_in(digit(value), 10) == Some(value));
    }
}

proof fn lemma_digits_of_hexadecimal(value: nat)
    ensures
        digits_value(hexadecimal(value), 16) == Some(value),
        hexadecimal(value).len() > 0,
        hexadecimal(value)[0] != '+',
    decreases value,
{
    if value >= 16 {
        lemma_digits_of_hexadecimal(value / 16);
        let head = hexadecimal(value / 16);
        assert(hexadecimal(value).drop_last() =~= head);
        assert(hexadecimal(value)[0] == head[0]);
        assert(digit_in(hex_digit(value % 16), 16) == Some(value % 16));
    } else {
        assert(hexadecimal(value).drop_last() =~= Seq::<char>::empty());
        assert(digits_value(Seq::<char>::empty(), 16) == Some(0nat));
        assert(digit_in(hex_digit(value), 16) == Some(value));
    }
}

/// A numeral is read as its number, with or without a plus sign, if the number is not too
/// large, and with a minus sign as the negative one. Hexadecimal numerals are read likewise.
pub proof fn lemma_numerals_are_read(value: nat, most: nat)
    ensures
        value <= most ==> {
            &&& natural(decimal(value), 10, most) == Some(value)
            &&& natural(seq!['+'] + decimal(value), 10, most) == Some(value)
            &&& natural(hexadecimal(value), 16, most) == Some(value)
            &&& integer(decimal(value), most) == Some(value as int)
        },
        value > most ==> {
            &&& natural(decimal(value), 10, most) is None
            &&& natural(hexadecimal(value), 16, most) is None
            &&& integer(decimal(value), most) is None
        },
        value <= most + 1 ==> integer(seq!['-'] + decimal(value), most) == Some(-value),
        value > most + 1 ==> integer(seq!['-'] + decimal(value), most) is None,
{
    lemma_digits_of_decimal(value);
    lemma_digits_of_hexadecimal(value);
    assert((seq!['+'] + decimal(value)).skip(1) =~= decimal(value));
    assert((seq!['-'] + decimal(value)).skip(1) =~= decimal(value));
}

proof fn lemma_no_number(text: Seq<char>, base: nat, i: int)
    requires
        0 <= i < text.len(),
        digit_in(text[i], base) is None,
    ensures
        digits_value(text, base) is None,
    decreases text.len(),
{
    let shorter = text.drop_last();
    if i < shorter.len() {
        assert(shorter[i] == text[i]);
        lemma_no_number(shorter, base, i);
    }
}

/// A text with any character that is no decimal digit is no number, and neither is an empty
/// one.
pub proof fn lemma_other_texts_are_no_numbers(text: Seq<char>, most: nat, i: int)
    requires
        0 <= i < text.len(),
        !('0' <= text[i] <= '9'),
        i == 0 ==> text[i] != '+' && text[i] != '-',
    ensures
        natural(text, 10, most) is None,
        natural(Seq::<char>::empty(), 10, most) is None,
        integer(text, most) is None,
{
    assert(digit_in(text[i], 10) is None);
    if text[0] == '+' || text[0] == '-' {
        assert(text.skip(1)[i - 1] == text[i]);
        lemma_no_number(text.skip(1), 10, i - 1);
    }
    lemma_no_number(text, 10, i);
}

/// Trimming takes the blanks at both ends of a text, and nothing else.
pub proof fn lemma_trimming_takes_the_blanks_around(left: Seq<char>, core: Seq<char>, right: Seq<char>)
    requires
        forall|i: int| 0 <= i < left.len() ==> is_white(#[trigger] left[i]),
        forall|i: int| 0 <= i < right.len() ==> is_white(#[trigger] right[i]),
        core.len() > 0 ==> !is_white(core[0]) && !is_white(core[core.len() - 1]),
        core.len() == 0 ==> left.len() == 0,
    ensures
        trimmed(left + core + right) == core,
    decreases left.len() + right.len(),
{
    let text = left + core + right;
    if right.len() > 0 {
        let shorter = right.drop_last();
        assert(is_white(right[right.len() - 1]));
        assert forall|i: int| 0 <= i < shorter.len() implies is_white(#[trigger] shorter[i]) by {
            assert(shorter[i] == right[i]);
        }
        lemma_trimming_takes_the_blanks_around(left, core, shorter);
        assert(text.drop_last() =~= left + core + shorter);
    } else if left.len() > 0 {
        let shorter = left.drop_first();
        assert(is_white(left[0]));
        assert forall|i: int| 0 <= i < shorter.len() implies is_white(#[trigger] shorter[i]) by {
            assert(shorter[i] == left[i + 1]);
        }
        lemma_trimming_takes_the_blanks_around(shorter, core, right);
        assert(text.drop_first() =~= shorter + core + right);
        assert(text.last() == core[core.len() - 1]);
    } else {
        assert(text =~= core);
    }
}

/// An IPv4 address is shown as its four octets in decimal, the most significant first, with
/// points between them.
pub proof fn lemma_ipv4_addresses_show_their_octets(a: u8, b: u8, c: u8, d: u8, value: u32)
    requires
        value == a * 0x100_0000 + b * 0x1_0000 + c * 0x100 + d,
    ensures
        ip_text(IpAddr::V4(value)) == decimal(a as nat) + seq!['.'] + decimal(b as nat) + seq!['.']
            + decimal(c as nat) + seq!['.'] + decimal(d as nat),
        ip_text(IpAddr::V6((0xffff_0000_0000 + value) as u128)) == "::ffff:"@ + decimal(a as nat)
            + seq!['.'] + decimal(b as nat) + seq!['.'] + decimal(c as nat) + seq!['.'] + decimal(
            d as nat,
        ),
{
    assert(value / 0x100_0000 == a);
    assert(value / 0x1_0000 % 0x100 == b);
    assert(value / 0x100 % 0x100 == c);
    assert(value % 0x100 == d);
    let mapped = (0xffff_0000_0000 + value) as u128;
    assert(mapped / 0x1_0000_0000 == 0xffff);
    assert(mapped % 0x1_0000_0000 == value);
    assert(ip_text(IpAddr::V6(mapped)) =~= "::ffff:"@ + decimal(a as nat) + seq!['.'] + decimal(
        b as nat,
    ) + seq!['.'] + decimal(c as nat) + seq!['.'] + decimal(d as nat));
}

proof fn lemma_zeros(groups: Seq<u16>, place: int)
    requires
        0 <= place <= groups.len(),
    ensures
        place + zeros_from(groups, place) <= groups.len(),
        forall|i: int| place <= i < place + zeros_from(groups, place) ==> #[trigger] groups[i] == 0,
        place + zeros_from(groups, place) < groups.len() ==> groups[place + zeros_from(
            groups,
            place,
        )] != 0,
    decreases groups.len() - place,
{
    if place < groups.len() && groups[place] == 0 {
        lemma_zeros(groups, place + 1);
    }
}

proof fn lemma_longest(groups: Seq<u16>, places: nat)
    requires
        places <= groups.len(),
    ensures
        forall|p: int|
            0 <= p < places ==> #[trigger] zeros_from(groups, p) <= longest_zeros(
                groups,
                places,
            ).1,
        longest_zeros(groups, places).1 > 0 ==> {
            &&& 0 <= longest_zeros(groups, places).0 < places
            &&& zeros_from(groups, longest_zeros(groups, places).0) == longest_zeros(
                groups,
                places,
            ).1
            &&& forall|p: int|
                0 <= p < longest_zeros(groups, places).0 ==> #[trigger] zeros_from(groups, p)
                    < longest_zeros(groups, places).1
        },
    decreases places,
{
    if places > 0 {
        lemma_longest(groups, (places - 1) as nat);
    }
}

/// The eight groups of an IPv6 address make up its value, the most significant first.
pub proof fn lemma_groups_make_up_the_address(value: u128)
    ensures
        groups(value).len() == 8,
        value == ((((((groups(value)[0] * 0x1_0000 + groups(value)[1]) * 0x1_0000
            + groups(value)[2]) * 0x1_0000 + groups(value)[3]) * 0x1_0000 + groups(value)[4])
            * 0x1_0000 + groups(value)[5]) * 0x1_0000 + groups(value)[6]) * 0x1_0000
            + groups(value)[7],
{
    let v7 = value as int;
    let v6 = v7 / 0x1_0000;
    let v5 = v6 / 0x1_0000;
    let v4 = v5 / 0x1_0000;
    let v3 = v4 / 0x1_0000;
    let v2 = v3 / 0x1_0000;
    let v1 = v2 / 0x1_0000;
    let v0 = v1 / 0x1_0000;
    assert(v5 == v7 / 0x1_0000_0000);
    assert(v4 == v7 / 0x1_0000_0000_0000);
    assert(v3 == v7 / 0x1_0000_0000_0000_0000);
    assert(v2 == v7 / 0x1_0000_0000_0000_0000_0000);
    assert(v1 == v7 / 0x1_0000_0000_0000_0000_0000_0000);
    assert(v0 == v7 / 0x1_0000_0000_0000_0000_0000_0000_0000);
    let all = groups(value);
    assert(all[0] == v0);
    assert(all[1] == v1 % 0x1_0000);
    assert(all[2] == v2 % 0x1_0000);
    assert(all[3] == v3 % 0x1_0000);
    assert(all[4] == v4 % 0x1_0000);
    assert(all[5] == v5 % 0x1_0000);
    assert(all[6] == v6 % 0x1_0000);
    assert(all[7] == v7 % 0x1_0000);
}

/// The text of an IPv6 address leaves out the first of the longest runs of zero groups, if that
/// has two or more: the result says where it is and how long it is. Without such a run all
/// eight groups are shown.
pub proof fn lemma_ipv6_addresses_leave_out_the_longest_zeros(value: u128) -> (run: (int, int))
    requires
        value / 0x1_0000_0000 != 0xffff,
    ensures
        0 <= run.0,
        0 <= run.1,
        run.0 + run.1 <= 8,
        forall|i: int| run.0 <= i < run.0 + run.1 ==> #[trigger] groups(value)[i] == 0,
        forall|p: int, n: int| #[trigger]
            all_zero(groups(value), p, n) ==> n <= run.1 && (n == run.1 ==> run.0 <= p),
        run.1 >= 2 ==> ip_text(IpAddr::V6(value)) == joined(groups(value).take(run.0)) + "::"@
            + joined(groups(value).skip(run.0 + run.1)),
        run.1 < 2 ==> ip_text(IpAddr::V6(value)) == joined(groups(value)),
{
    let all = groups(value);
    let run = lemma_longest_run(all);
    run
}

/// Whether so many groups from a place on are zero.
pub open spec fn all_zero(groups: Seq<u16>, place: int, count: int) -> bool {
    &&& 0 <= place
    &&& 0 < count
    &&& place + count <= groups.len()
    &&& forall|i: int| place <= i < place + count ==> #[trigger] groups[i] == 0
}

proof fn lemma_longest_run(all: Seq<u16>) -> (run: (int, int))
    requires
        all.len() == 8,
    ensures
        0 <= run.0,
        0 <= run.1,
        run.0 + run.1 <= 8,
        run.1 == longest_zeros(all, 8).1,
        run.1 > 0 ==> run.0 == longest_zeros(all, 8).0,
        forall|i: int| run.0 <= i < run.0 + run.1 ==> #[trigger] all[i] == 0,
        forall|p: int, n: int| #[trigger]
            all_zero(all, p, n) ==> n <= run.1 && (n == run.1 ==> run.0 <= p),
{
    lemma_longest(all, 8);
    let (start, len) = longest_zeros(all, 8);
    if len > 0 {
        lemma_zeros(all, start);
    }
    assert forall|p: int, n: int| #[trigger] all_zero(all, p, n) implies n <= len && (n == len
        ==> start <= p) by {
        lemma_zeros(all, p);
        assert(zeros_from(all, p) >= n) by {
            if zeros_from(all, p) < n {
                assert(all[p + zeros_from(all, p)] == 0);
            }
        }
        assert(zeros_from(all, p) <= len);
        if n == len && p < start {
            assert(zeros_from(all, p) < len);
        }
    }
    if len == 0 {
        (0, 0)
    } else {
        (start, len as int)
    }
}

/// Groups are shown in hexadecimal, with colons between them.
pub proof fn lemma_groups_are_joined_by_colons(groups: Seq<u16>, next: u16)
    ensures
        joined(Seq::<u16>::empty()).len() == 0,
        joined(seq![next]) == hexadecimal(next as nat),
        groups.len() > 0 ==> joined(groups.push(next)) == joined(groups) + seq![':'] + hexadecimal(
            next as nat,
        ),
{
    assert(groups.push(next).drop_last() =~= groups);
}

proof fn lemma_behind_bracket(text: Seq<char>, rest: Seq<char>)
    requires
        forall|i: int| 0 <= i < rest.len() ==> #[trigger] rest[i] != ')',
    ensures
        after_bracket(text.push(')') + rest) == Some(rest),
    decreases rest.len(),
{
    let whole = text.push(')') + rest;
    if rest.len() > 0 {
        let shorter = rest.drop_last();
        assert(rest[rest.len() - 1] != ')');
        assert forall|i: int| 0 <= i < shorter.len() implies #[trigger] shorter[i] != ')' by {
            assert(shorter[i] == rest[i]);
        }
        lemma_behind_bracket(text, shorter);
        assert(whole.drop_last() =~= text.push(')') + shorter);
        assert(shorter.push(rest.last()) =~= rest);
    } else {
        assert(rest =~= Seq::<char>::empty());
    }
}

/// The start of a process in ticks is the twentieth word behind the last closing bracket of its
/// status, whatever its name holds.
pub proof fn lemma_start_ticks_stand_behind_the_name(text: Seq<char>, rest: Seq<char>)
    requires
        forall|i: int| 0 <= i < rest.len() ==> #[trigger] rest[i] != ')',
    ensures
        words(rest).len() < 20 ==> start_ticks(text.push(')') + rest) is None,
        words(rest).len() >= 20 ==> start_ticks(text.push(')') + rest) == natural(
            words(rest)[19],
            10,
            0xffff_ffff_ffff_ffff,
        ),
{
    lemma_behind_bracket(text, rest);
}

proof fn lemma_first_line_starting(all: Seq<Seq<char>>, start: Seq<char>, i: int)
    requires
        0 <= i <= all.len(),
        forall|earlier: int|
            0 <= earlier < i ==> !starts_with(#[trigger] all[earlier], start),
        i < all.len() ==> starts_with(all[i], start),
    ensures
        i < all.len() ==> line_starting(all, start) == Some(all[i]),
        i == all.len() ==> line_starting(all, start) is None,
    decreases all.len(),
{
    if all.len() > 0 && i > 0 {
        let rest = all.drop_first();
        assert(!starts_with(all[0], start));
        assert forall|earlier: int| 0 <= earlier < i - 1 implies !starts_with(
            #[trigger] rest[earlier],
            start,
        ) by {
            assert(rest[earlier] == all[earlier + 1]);
        }
        if i < all.len() {
            assert(rest[i - 1] == all[i]);
        }
        lemma_first_line_starting(rest, start, i - 1);
    }
}

/// The system booted at the second that the second word of the first line with `btime` at its
/// start names.
pub proof fn lemma_boot_time_stands_in_its_line(system_stat: Seq<char>, i: int)
    requires
        0 <= i <= lines(system_stat).len(),
        forall|earlier: int|
            0 <= earlier < i ==> !((#[trigger] lines(system_stat)[earlier]).len() >= 5 && lines(
                system_stat,
            )[earlier].take(5) == seq!['b', 't', 'i', 'm', 'e']),
        i < lines(system_stat).len() ==> lines(system_stat)[i].len() >= 5 && lines(
            system_stat,
        )[i].take(5) == seq!['b', 't', 'i', 'm', 'e'],
    ensures
        i == lines(system_stat).len() ==> boot_seconds(system_stat) is None,
        i < lines(system_stat).len() && words(lines(system_stat)[i]).len() < 2 ==> boot_seconds(
            system_stat,
        ) is None,
        i < lines(system_stat).len() && words(lines(system_stat)[i]).len() >= 2 ==> boot_seconds(
            system_stat,
        ) == integer(words(lines(system_stat)[i])[1], 0x7fff_ffff_ffff_ffff),
{
    reveal_strlit("btime");
    assert("btime"@ =~= seq!['b', 't', 'i', 'm', 'e']);
    lemma_first_line_starting(lines(system_stat), "btime"@, i);
}

/// A process started as many hundredths of a second after the boot as it has start ticks, to
/// the nanosecond. Without either number the start is not known.
pub proof fn lemma_start_is_counted_from_the_boot(
    stat: Seq<char>,
    system_stat: Seq<char>,
    ticks: nat,
    boot: int,
)
    ensures
        start_ticks(stat) is None || boot_seconds(system_stat) is None ==> started_at(
            stat,
            system_stat,
        ) is None,
        start_ticks(stat) == Some(ticks) && boot_seconds(system_stat) == Some(boot) && started_at(
            stat,
            system_stat,
        ) is Some ==> started_at(stat, system_stat) == Some(
            (100 * boot + ticks) * 10_000_000,
        ),
        start_ticks(stat) == Some(ticks) && boot_seconds(system_stat) == Some(boot) && 0 <= 100
            * boot + ticks < 800_000_000_000_000 ==> started_at(stat, system_stat) is Some,
{
}

/// A file time counts steps of a hundred nanoseconds, from the year 1601 on; earlier instants
/// than 1970 are not known.
pub proof fn lemma_file_times_count_from_1601(high: u32, low: u32)
    ensures
        ({
            let steps = high * 0x1_0000_0000 + low;
            &&& steps < 116_444_736_000_000_000 ==> filetime_instant(high, low) is None
            &&& steps >= 116_444_736_000_000_000 ==> filetime_instant(high, low) == Some(
                (steps - 116_444_736_000_000_000) * 100,
            )
        }),
{
}

/// Blanks are the tab, the line feed and the three behind it, the space, and the other
/// separators of Unicode that count as white space.
pub proof fn lemma_blanks(c: char)
    ensures
        c == ' ' || c == '\t' || c == '\n' || c == '\r' ==> is_white(c),
        is_white(c) <==> (9 <= c as int && c as int <= 13) || c as int == 32 || c as int == 133
            || c as int == 160 || c as int == 5760 || (8192 <= c as int && c as int <= 8202)
            || c as int == 8232 || c as int == 8233 || c as int == 8239 || c as int == 8287
            || c as int == 12288,
        '0' <= c <= '9' || 'a' <= c <= 'z' || 'A' <= c <= 'Z' ==> !is_white(c),
{
}

/// A digit counts as much as its place among the digits: those of ten, and behind them the
/// letters up to f, small or capital, where the base has so many.
pub proof fn lemma_digits(c: char)
    ensures
        '0' <= c <= '9' ==> digit_in(c, 10) == Some((c as int - '0' as int) as nat) && digit_in(
            c,
            16,
        ) == Some((c as int - '0' as int) as nat),
        'a' <= c <= 'f' ==> digit_in(c, 10) is None && digit_in(c, 16) == Some(
            (c as int - 'a' as int + 10) as nat,
        ),
        'A' <= c <= 'F' ==> digit_in(c, 10) is None && digit_in(c, 16) == Some(
            (c as int - 'A' as int + 10) as nat,
        ),
        !('0' <= c <= '9') && !('a' <= c <= 'f') && !('A' <= c <= 'F') ==> digit_in(c, 16) is None
            && digit_in(c, 10) is None,
{
}

/// A text starts with another if that is its beginning, and holds it if it is anywhere in it.
pub proof fn lemma_texts_within_texts(before: Seq<char>, part: Seq<char>, after: Seq<char>)
    ensures
        starts_with(part + after, part),
        holds(before + part + after, part),
        starts_with(before, part) ==> before == part + before.skip(part.len() as int),
{
    assert((part + after).take(part.len() as int) =~= part);
    let text = before + part + after;
    assert(text.skip(before.len() as int) =~= part + after);
    assert(holds_at(text, before.len() as int, part));
    if starts_with(before, part) {
        assert(before =~= before.take(part.len() as int) + before.skip(part.len() as int));
    }
}

} // verus!
