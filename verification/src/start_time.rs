//! When a process started, from what the kernel says of it.

use vstd::prelude::*;

use crate::scan::{
    integer, lines, natural, parse_natural, parse_signed, parts_view, split_lines, split_words,
    starts_at, starts_with, words,
};
use crate::text::chars_of;
use crate::time::{instant_from_parts, MAX_SECONDS, MIN_SECONDS, NANOS_PER_SECOND};

verus! {

/// What follows the last closing bracket of a text.
pub open spec fn after_bracket(text: Seq<char>) -> Option<Seq<char>>
    decreases text.len(),
{
    if text.len() == 0 {
        None
    } else if text.last() == ')' {
        Some(Seq::empty())
    } else {
        match after_bracket(text.drop_last()) {
            Some(rest) => Some(rest.push(text.last())),
            None => None,
        }
    }
}

/// The start of a process in clock ticks since the system booted: the twentieth word
/// behind its name, which stands in brackets.
pub open spec fn start_ticks(stat: Seq<char>) -> Option<nat> {
    match after_bracket(stat) {
        Some(rest) => if words(rest).len() > 19 {
            natural(words(rest)[19], 10, u64::MAX as nat)
        } else {
            None
        },
        None => None,
    }
}

/// The first line that starts with a word.
pub open spec fn line_starting(lines: Seq<Seq<char>>, start: Seq<char>) -> Option<Seq<char>>
    decreases lines.len(),
{
    if lines.len() == 0 {
        None
    } else if starts_with(lines[0], start) {
        Some(lines[0])
    } else {
        line_starting(lines.drop_first(), start)
    }
}

/// When the system booted, in seconds since 1970: the word behind `btime`.
pub open spec fn boot_seconds(system_stat: Seq<char>) -> Option<int> {
    match line_starting(lines(system_stat), "btime"@) {
        Some(line) => if words(line).len() > 1 {
            integer(words(line)[1], i64::MAX as nat)
        } else {
            None
        },
        None => None,
    }
}

/// When a process started, at a hundred clock ticks per second.
pub open spec fn started_at(stat: Seq<char>, system_stat: Seq<char>) -> Option<int> {
    match (start_ticks(stat), boot_seconds(system_stat)) {
        (Some(ticks), Some(boot)) => {
            let seconds = boot + ticks / 100;
            if MIN_SECONDS <= seconds <= MAX_SECONDS {
                Some(seconds * NANOS_PER_SECOND + ticks % 100 * 10_000_000)
            } else {
                None
            }
        },
        _ => None,
    }
}

/// What follows the last closing bracket of a text.
fn split_after_bracket(text: &Vec<char>) -> (rest: Option<Vec<char>>)
    ensures
        match after_bracket(text@) {
            Some(expected) => rest matches Some(rest) && rest@ == expected,
            None => rest is None,
        },
{
    let mut rest: Option<Vec<char>> = None;
    let mut i: usize = 0;
    while i < text.len()
        invariant
            i <= text@.len(),
            match after_bracket(text@.take(i as int)) {
                Some(expected) => rest matches Some(rest) && rest@ == expected,
                None => rest is None,
            },
        decreases text@.len() - i,
    {
        let c = text[i];
        assert(text@.take(i + 1).drop_last() =~= text@.take(i as int));
        assert(text@.take(i + 1).last() == c);
        if c == ')' {
            rest = Some(Vec::new());
        } else if let Some(mut so_far) = rest {
            so_far.push(c);
            rest = Some(so_far);
        }
        i += 1;
    }
    assert(text@.take(i as int) =~= text@);
    rest
}

fn read_start_ticks(stat: &str) -> (ticks: Option<u64>)
    ensures
        crate::scan::number_view(ticks) == start_ticks(stat@),
{
    let rest = match split_after_bracket(&chars_of(stat)) {
        Some(rest) => rest,
        None => {
            return None;
        },
    };
    let fields = split_words(&rest);
    assert(fields@.len() == words(rest@).len());
    if fields.len() > 19 {
        assert(parts_view(fields@)[19] == fields@[19]@);
        parse_natural(&fields[19], 10, u64::MAX)
    } else {
        None
    }
}

fn read_boot_seconds(system_stat: &str) -> (seconds: Option<i64>)
    ensures
        match boot_seconds(system_stat@) {
            Some(expected) => seconds matches Some(seconds) && seconds == expected,
            None => seconds is None,
        },
{
    let rows = split_lines(&chars_of(system_stat));
    let start = chars_of("btime");
    let ghost views = lines(system_stat@);
    assert(views.len() == rows@.len());
    assert(views.skip(0) =~= views);
    let mut i: usize = 0;
    while i < rows.len()
        invariant
            i <= rows@.len(),
            views == lines(system_stat@),
            views == parts_view(rows@),
            start@ == "btime"@,
            line_starting(views, "btime"@) == line_starting(views.skip(i as int), "btime"@),
        decreases rows@.len() - i,
    {
        assert(views.skip(i as int)[0] == rows@[i as int]@);
        assert(views.skip(i as int).drop_first() =~= views.skip(i + 1));
        assert(rows@[i as int]@.skip(0) =~= rows@[i as int]@);
        if starts_at(&rows[i], 0, &start) {
            let fields = split_words(&rows[i]);
            assert(fields@.len() == words(rows@[i as int]@).len());
            if fields.len() > 1 {
                assert(parts_view(fields@)[1] == fields@[1]@);
                return parse_signed(&fields[1]);
            }
            return None;
        }
        i += 1;
    }
    assert(views.skip(i as int).len() == 0);
    None
}

/// When a process started, in nanoseconds since 1970, from the kernel's lines on the
/// process and on the system.
pub fn process_start_time(stat: &str, system_stat: &str) -> (at: Option<i128>)
    ensures
        match started_at(stat@, system_stat@) {
            Some(expected) => at matches Some(at) && at == expected,
            None => at is None,
        },
{
    match (read_start_ticks(stat), read_boot_seconds(system_stat)) {
        (Some(ticks), Some(boot)) => instant_from_parts(
            boot as i128 + (ticks / 100) as i128,
            (ticks % 100) as u32 * 10_000_000,
        ),
        _ => None,
    }
}

/// 1970, in steps of 100 nanoseconds since 1601.
pub const UNIX_EPOCH_FILETIME: u64 = 116_444_736_000_000_000;

/// An instant that is given in steps of 100 nanoseconds since 1601, in nanoseconds since
/// 1970; none before that.
pub open spec fn filetime_instant(high: u32, low: u32) -> Option<int> {
    let steps = high * 0x1_0000_0000 + low;
    if steps >= UNIX_EPOCH_FILETIME {
        Some((steps - UNIX_EPOCH_FILETIME) * 100)
    } else {
        None
    }
}

/// The instant of a file time, given as its upper and lower half.
pub fn instant_of_filetime(high: u32, low: u32) -> (at: Option<i128>)
    ensures
        match filetime_instant(high, low) {
            Some(expected) => at matches Some(at) && at == expected,
            None => at is None,
        },
{
    let steps: u64 = high as u64 * 0x1_0000_0000 + low as u64;
    match steps.checked_sub(UNIX_EPOCH_FILETIME) {
        Some(steps) => instant_from_parts(
            (steps / 10_000_000) as i128,
            (steps % 10_000_000) as u32 * 100,
        ),
        None => None,
    }
}

} // verus!
