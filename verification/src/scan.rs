//! Reading words, lines and numbers out of text.

use vstd::prelude::*;

use crate::text::chars_of;

verus! {

/// The characters that Unicode calls white space.
pub open spec fn is_white(c: char) -> bool {
    let code = c as int;
    ||| 0x09 <= code <= 0x0d
    ||| code == 0x20
    ||| code == 0x85
    ||| code == 0xa0
    ||| code == 0x1680
    ||| 0x2000 <= code <= 0x200a
    ||| code == 0x2028
    ||| code == 0x2029
    ||| code == 0x202f
    ||| code == 0x205f
    ||| code == 0x3000
}

/// Whether the character is white space.
pub fn is_white_space(c: char) -> (white: bool)
    ensures
        white == is_white(c),
{
    let code: u32 = c as u32;
    (0x09 <= code && code <= 0x0d) || code == 0x20 || code == 0x85 || code == 0xa0 || code == 0x1680
        || (0x2000 <= code && code <= 0x200a) || code == 0x2028 || code == 0x2029 || code == 0x202f
        || code == 0x205f || code == 0x3000
}

/// The longest runs of other characters than white space.
pub open spec fn words(text: Seq<char>) -> Seq<Seq<char>>
    decreases text.len(),
{
    if text.len() == 0 {
        Seq::empty()
    } else if is_white(text.last()) {
        words(text.drop_last())
    } else if text.len() == 1 || is_white(text[text.len() - 2]) {
        words(text.drop_last()).push(seq![text.last()])
    } else {
        let before = words(text.drop_last());
        before.drop_last().push(before.last().push(text.last()))
    }
}

/// The parts of a text between line feeds.
pub open spec fn rows(text: Seq<char>) -> Seq<Seq<char>>
    decreases text.len(),
{
    if text.len() == 0 {
        seq![Seq::<char>::empty()]
    } else if text.last() == '\n' {
        rows(text.drop_last()).push(Seq::empty())
    } else {
        let before = rows(text.drop_last());
        before.drop_last().push(before.last().push(text.last()))
    }
}

/// A line without the carriage return at its end.
pub open spec fn without_return(row: Seq<char>) -> Seq<char> {
    if row.len() > 0 && row.last() == '\r' {
        row.drop_last()
    } else {
        row
    }
}

/// The parts of a text that a line feed ends.
pub open spec fn ended_rows(rows: Seq<Seq<char>>) -> Seq<Seq<char>> {
    rows.drop_last().map_values(|row: Seq<char>| without_return(row))
}

/// The lines of a text: each ends with a line feed, or a carriage return and a line
/// feed, except that the last one may end with the text.
pub open spec fn lines(text: Seq<char>) -> Seq<Seq<char>> {
    let rows = rows(text);
    let ended = ended_rows(rows);
    if rows.last().len() == 0 {
        ended
    } else {
        ended.push(rows.last())
    }
}

/// The characters of each part.
pub open spec fn parts_view(parts: Seq<Vec<char>>) -> Seq<Seq<char>> {
    parts.map_values(|part: Vec<char>| part@)
}

/// After a character that is no white space there is a word to go on with.
proof fn lemma_word_open(text: Seq<char>)
    requires
        text.len() > 0,
        !is_white(text.last()),
    ensures
        words(text).len() > 0,
{
}

proof fn lemma_row_open(text: Seq<char>)
    ensures
        rows(text).len() > 0,
    decreases text.len(),
{
    if text.len() > 0 {
        lemma_row_open(text.drop_last());
    }
}

fn grow_last(parts: &mut Vec<Vec<char>>, c: char)
    requires
        old(parts)@.len() > 0,
    ensures
        parts_view(final(parts)@) == parts_view(old(parts)@).drop_last().push(
            parts_view(old(parts)@).last().push(c),
        ),
{
    let ghost before = parts@;
    if let Some(mut part) = parts.pop() {
        part.push(c);
        parts.push(part);
    }
    assert(parts_view(parts@) =~= parts_view(before).drop_last().push(
        parts_view(before).last().push(c),
    ));
}

/// The words of a text.
pub fn split_words(text: &Vec<char>) -> (found: Vec<Vec<char>>)
    ensures
        parts_view(found@) == words(text@),
{
    let mut found: Vec<Vec<char>> = Vec::new();
    let mut inside = false;
    let mut i: usize = 0;
    assert(parts_view(found@) =~= words(text@.take(0)));
    while i < text.len()
        invariant
            i <= text@.len(),
            parts_view(found@) == words(text@.take(i as int)),
            inside == (i > 0 && !is_white(text@[i - 1])),
        decreases text@.len() - i,
    {
        let c = text[i];
        let ghost read = text@.take(i as int);
        let ghost next = text@.take(i + 1);
        assert(next.drop_last() =~= read);
        assert(next.last() == c);
        if is_white_space(c) {
            inside = false;
        } else {
            if inside {
                proof {
                    lemma_word_open(read);
                    assert(found@.len() == parts_view(found@).len());
                }
                grow_last(&mut found, c);
            } else {
                let mut word: Vec<char> = Vec::new();
                word.push(c);
                let ghost before = found@;
                found.push(word);
                assert(parts_view(found@) =~= parts_view(before).push(seq![c]));
            }
            inside = true;
        }
        i += 1;
    }
    assert(text@.take(i as int) =~= text@);
    found
}

/// The lines of a text.
pub fn split_lines(text: &Vec<char>) -> (found: Vec<Vec<char>>)
    ensures
        parts_view(found@) == lines(text@),
{
    let mut ended: Vec<Vec<char>> = Vec::new();
    let mut row: Vec<char> = Vec::new();
    let mut i: usize = 0;
    assert(rows(text@.take(0)) =~= seq![Seq::<char>::empty()]);
    assert(parts_view(ended@) =~= ended_rows(rows(text@.take(0))));
    while i < text.len()
        invariant
            i <= text@.len(),
            rows(text@.take(i as int)).len() > 0,
            row@ == rows(text@.take(i as int)).last(),
            parts_view(ended@) == ended_rows(rows(text@.take(i as int))),
        decreases text@.len() - i,
    {
        let c = text[i];
        let ghost read = text@.take(i as int);
        let ghost next = text@.take(i + 1);
        assert(next.drop_last() =~= read);
        assert(next.last() == c);
        if c == '\n' {
            let ghost whole = row@;
            let ghost before = ended@;
            if row.len() > 0 && row[row.len() - 1] == '\r' {
                let _ = row.pop();
            }
            assert(row@ =~= without_return(whole));
            ended.push(row);
            row = Vec::new();
            assert(rows(next).drop_last() =~= rows(read));
            assert(rows(read) =~= rows(read).drop_last().push(whole));
            assert(ended_rows(rows(next)) =~= ended_rows(rows(read)).push(without_return(whole)));
            assert(parts_view(ended@) =~= parts_view(before).push(without_return(whole)));
            assert(row@ =~= rows(next).last());
        } else {
            row.push(c);
            assert(rows(next).drop_last() =~= rows(read).drop_last());
        }
        i += 1;
    }
    assert(text@.take(i as int) =~= text@);
    if row.len() > 0 {
        let ghost before = ended@;
        let ghost last = row@;
        ended.push(row);
        assert(parts_view(ended@) =~= parts_view(before).push(last));
    }
    ended
}

/// The value of a digit in a base of at most sixteen.
pub open spec fn digit_in(c: char, base: nat) -> Option<nat> {
    let code = c as int;
    let value = if 0x30 <= code <= 0x39 {
        (code - 0x30) as nat
    } else if 0x61 <= code <= 0x66 {
        (code - 0x57) as nat
    } else if 0x41 <= code <= 0x46 {
        (code - 0x37) as nat
    } else {
        16
    };
    if value < base {
        Some(value)
    } else {
        None
    }
}

/// The value of a digit in a base of at most sixteen.
pub fn digit_value(c: char, base: u32) -> (value: Option<u32>)
    requires
        base <= 16,
    ensures
        value is Some == digit_in(c, base as nat) is Some,
        value matches Some(value) ==> value as nat == digit_in(c, base as nat)->0 && value < base,
{
    let code: u32 = c as u32;
    let value: u32 = if 0x30 <= code && code <= 0x39 {
        code - 0x30
    } else if 0x61 <= code && code <= 0x66 {
        code - 0x57
    } else if 0x41 <= code && code <= 0x46 {
        code - 0x37
    } else {
        16
    };
    if value < base {
        Some(value)
    } else {
        None
    }
}

/// The number that digits spell; zero for none.
pub open spec fn digits_value(digits: Seq<char>, base: nat) -> Option<nat>
    decreases digits.len(),
{
    if digits.len() == 0 {
        Some(0)
    } else {
        match (digits_value(digits.drop_last(), base), digit_in(digits.last(), base)) {
            (Some(before), Some(digit)) => Some(before * base + digit),
            _ => None,
        }
    }
}

/// The number that a numeral spells: one or more digits, if it is at most `most`.
pub open spec fn numeral(digits: Seq<char>, base: nat, most: nat) -> Option<nat> {
    if digits.len() == 0 {
        None
    } else {
        match digits_value(digits, base) {
            Some(value) => if value <= most {
                Some(value)
            } else {
                None
            },
            None => None,
        }
    }
}

/// A text without a plus sign at its start.
pub open spec fn without_plus(text: Seq<char>) -> Seq<char> {
    if text.len() > 0 && text[0] == '+' {
        text.skip(1)
    } else {
        text
    }
}

/// The natural number up to `most` that a text spells, with an optional plus sign.
pub open spec fn natural(text: Seq<char>, base: nat, most: nat) -> Option<nat> {
    numeral(without_plus(text), base, most)
}

/// The number between `-most - 1` and `most` that a text spells, with an optional sign.
pub open spec fn integer(text: Seq<char>, most: nat) -> Option<int> {
    if text.len() > 0 && text[0] == '-' {
        match numeral(text.skip(1), 10, most + 1) {
            Some(value) => Some(-value),
            None => None,
        }
    } else {
        match natural(text, 10, most) {
            Some(value) => Some(value as int),
            None => None,
        }
    }
}

/// An optional number as a mathematical value.
pub open spec fn number_view(number: Option<u64>) -> Option<nat> {
    match number {
        Some(number) => Some(number as nat),
        None => None,
    }
}

/// The number up to `most` that the characters from `start` on spell.
fn parse_digits(text: &Vec<char>, start: usize, base: u32, most: u64) -> (number: Option<u64>)
    requires
        start <= text@.len(),
        2 <= base <= 16,
    ensures
        number_view(number) == numeral(text@.skip(start as int), base as nat, most as nat),
{
    let ghost digits = text@.skip(start as int);
    if start == text.len() {
        return None;
    }
    let mut value: Option<u64> = Some(0);
    let mut i: usize = start;
    while i < text.len()
        invariant
            start <= i <= text@.len(),
            digits == text@.skip(start as int),
            2 <= base <= 16,
            number_view(value) == match digits_value(digits.take(i - start), base as nat) {
                Some(spelled) => if spelled <= most {
                    Some(spelled)
                } else {
                    None
                },
                None => None,
            },
        decreases text@.len() - i,
    {
        let ghost read = digits.take(i - start);
        let ghost next = digits.take(i + 1 - start);
        assert(next.drop_last() =~= read);
        assert(next.last() == text@[i as int]);
        let digit = digit_value(text[i], base);
        proof {
            if let Some(spelled) = digits_value(read, base as nat) {
                assert(spelled * base >= spelled) by (nonlinear_arith)
                    requires
                        base >= 2,
                ;
            }
        }
        value =
        match (value, digit) {
            (Some(before), Some(digit)) => {
                proof {
                    assert(before * base <= u64::MAX * 16) by (nonlinear_arith)
                        requires
                            0 <= before <= u64::MAX,
                            0 <= base <= 16,
                    ;
                }
                let grown: u128 = before as u128 * base as u128 + digit as u128;
                if grown <= most as u128 {
                    Some(grown as u64)
                } else {
                    None
                }
            },
            _ => None,
        };
        i += 1;
    }
    assert(digits.take(i - start) =~= digits);
    value
}

/// The natural number up to `most` that a text spells, with an optional plus sign.
pub fn parse_natural(text: &Vec<char>, base: u32, most: u64) -> (number: Option<u64>)
    requires
        2 <= base <= 16,
    ensures
        number_view(number) == natural(text@, base as nat, most as nat),
{
    if text.len() > 0 && text[0] == '+' {
        parse_digits(text, 1, base, most)
    } else {
        assert(text@.skip(0) =~= text@);
        parse_digits(text, 0, base, most)
    }
}

/// The 64-bit signed number that a text spells, with an optional sign.
pub fn parse_signed(text: &Vec<char>) -> (number: Option<i64>)
    ensures
        match integer(text@, i64::MAX as nat) {
            Some(value) => number == Some(value as i64) && i64::MIN <= value <= i64::MAX,
            None => number is None,
        },
{
    if text.len() > 0 && text[0] == '-' {
        match parse_digits(text, 1, 10, 0x8000_0000_0000_0000) {
            Some(value) => Some((-(value as i128)) as i64),
            None => None,
        }
    } else {
        match parse_natural(text, 10, 0x7fff_ffff_ffff_ffff) {
            Some(value) => Some(value as i64),
            None => None,
        }
    }
}

/// The natural number up to `most` that a text spells in decimal, with an optional plus
/// sign.
pub fn parse_decimal(text: &str, most: u64) -> (number: Option<u64>)
    ensures
        number_view(number) == natural(text@, 10, most as nat),
{
    parse_natural(&chars_of(text), 10, most)
}

/// Whether a text is made of one or more decimal digits.
pub open spec fn only_digits(text: Seq<char>) -> bool {
    &&& text.len() > 0
    &&& forall|i: int| 0 <= i < text.len() ==> digit_in(#[trigger] text[i], 10) is Some
}

/// Whether a text is made of one or more decimal digits.
pub fn is_only_digits(text: &Vec<char>) -> (only: bool)
    ensures
        only == only_digits(text@),
{
    if text.len() == 0 {
        return false;
    }
    let mut i: usize = 0;
    while i < text.len()
        invariant
            i <= text@.len(),
            forall|k: int| 0 <= k < i ==> digit_in(#[trigger] text@[k], 10) is Some,
        decreases text@.len() - i,
    {
        if digit_value(text[i], 10).is_none() {
            return false;
        }
        i += 1;
    }
    true
}

/// Whether a text starts with another.
pub open spec fn starts_with(text: Seq<char>, start: Seq<char>) -> bool {
    start.len() <= text.len() && text.take(start.len() as int) == start
}

/// Whether a text holds another at this place.
pub open spec fn holds_at(text: Seq<char>, place: int, part: Seq<char>) -> bool {
    0 <= place <= text.len() && starts_with(text.skip(place), part)
}

/// Whether a text holds another.
pub open spec fn holds(text: Seq<char>, part: Seq<char>) -> bool {
    exists|place: int| #[trigger] holds_at(text, place, part)
}

/// Whether characters spell a text.
pub fn spells(chars: &Vec<char>, text: &str) -> (same: bool)
    ensures
        same == (chars@ == text@),
{
    let other = chars_of(text);
    if chars.len() != other.len() {
        return false;
    }
    starts_at(chars, 0, &other)
}

/// Whether the characters from `place` on start with others.
pub fn starts_at(chars: &Vec<char>, place: usize, start: &Vec<char>) -> (yes: bool)
    requires
        place <= chars@.len(),
    ensures
        yes == holds_at(chars@, place as int, start@),
        place == 0 && chars@.len() == start@.len() ==> yes == (chars@ == start@),
{
    let ghost rest = chars@.skip(place as int);
    if chars.len() - place < start.len() {
        return false;
    }
    let mut i: usize = 0;
    while i < start.len()
        invariant
            i <= start@.len(),
            place + start@.len() <= chars.len(),
            rest == chars@.skip(place as int),
            forall|k: int| 0 <= k < i ==> rest[k] == #[trigger] start@[k],
        decreases start@.len() - i,
    {
        if chars[place + i] != start[i] {
            assert(rest[i as int] != start@[i as int]);
            assert(rest.take(start@.len() as int)[i as int] == rest[i as int]);
            assert(rest[i as int] == chars@[place + i]);
            return false;
        }
        i += 1;
    }
    assert(rest.take(start@.len() as int) =~= start@);
    assert(place == 0 && chars@.len() == start@.len() ==> rest.take(start@.len() as int) =~= chars@);
    true
}

/// Whether characters hold a text.
pub fn holds_text(chars: &Vec<char>, part: &str) -> (yes: bool)
    ensures
        yes == holds(chars@, part@),
{
    let wanted = chars_of(part);
    let mut place: usize = 0;
    while place < chars.len()
        invariant
            place <= chars@.len(),
            wanted@ == part@,
            forall|k: int| 0 <= k < place ==> !#[trigger] holds_at(chars@, k, part@),
        decreases chars@.len() - place,
    {
        if starts_at(chars, place, &wanted) {
            assert(holds_at(chars@, place as int, part@));
            return true;
        }
        place += 1;
    }
    starts_at(chars, place, &wanted)
}

/// A text without the white space around it.
pub open spec fn trimmed(text: Seq<char>) -> Seq<char>
    decreases text.len(),
{
    if text.len() == 0 {
        text
    } else if is_white(text.last()) {
        trimmed(text.drop_last())
    } else if is_white(text[0]) {
        trimmed(text.drop_first())
    } else {
        text
    }
}

proof fn lemma_trimmed_end(text: Seq<char>, end: int)
    requires
        0 <= end <= text.len(),
        forall|i: int| end <= i < text.len() ==> is_white(#[trigger] text[i]),
    ensures
        trimmed(text) == trimmed(text.take(end)),
    decreases text.len(),
{
    if end < text.len() {
        assert(is_white(text[text.len() - 1]));
        let shorter = text.drop_last();
        assert forall|i: int| end <= i < shorter.len() implies is_white(#[trigger] shorter[i]) by {
            assert(shorter[i] == text[i]);
        }
        lemma_trimmed_end(shorter, end);
        assert(shorter.take(end) =~= text.take(end));
    } else {
        assert(text.take(end) =~= text);
    }
}

proof fn lemma_trimmed_start(text: Seq<char>, start: int)
    requires
        0 <= start < text.len(),
        !is_white(text.last()),
        forall|i: int| 0 <= i < start ==> is_white(#[trigger] text[i]),
    ensures
        trimmed(text) == trimmed(text.skip(start)),
    decreases start,
{
    if start > 0 {
        assert(is_white(text[0]));
        let shorter = text.drop_first();
        assert forall|i: int| 0 <= i < start - 1 implies is_white(#[trigger] shorter[i]) by {
            assert(shorter[i] == text[i + 1]);
        }
        lemma_trimmed_start(shorter, start - 1);
        assert(shorter.skip(start - 1) =~= text.skip(start));
    } else {
        assert(text.skip(0) =~= text);
    }
}

/// A text without the white space around it.
pub fn trim(chars: &Vec<char>) -> (kept: Vec<char>)
    ensures
        kept@ == trimmed(chars@),
{
    let mut end: usize = chars.len();
    while end > 0 && is_white_space(chars[end - 1])
        invariant
            end <= chars@.len(),
            forall|i: int| end <= i < chars@.len() ==> is_white(#[trigger] chars@[i]),
        decreases end,
    {
        end -= 1;
    }
    let ghost ended = chars@.take(end as int);
    proof {
        lemma_trimmed_end(chars@, end as int);
    }
    let mut start: usize = 0;
    while start < end && is_white_space(chars[start])
        invariant
            start <= end <= chars@.len(),
            forall|i: int| 0 <= i < start ==> is_white(#[trigger] chars@[i]),
        decreases end - start,
    {
        start += 1;
    }
    let ghost middle = ended.skip(start as int);
    proof {
        if end > 0 {
            assert(ended.last() == chars@[end - 1]);
            assert(start < end) by {
                if start == end {
                    assert(is_white(chars@[end - 1]));
                }
            }
            lemma_trimmed_start(ended, start as int);
            assert(middle.last() == ended.last());
            assert(middle[0] == chars@[start as int]);
            assert(trimmed(middle) == middle);
        } else {
            assert(trimmed(ended) == ended);
            assert(middle =~= ended);
        }
    }
    let mut kept: Vec<char> = Vec::new();
    let mut i: usize = start;
    while i < end
        invariant
            start <= i <= end <= chars@.len(),
            middle == chars@.take(end as int).skip(start as int),
            kept@ == middle.take(i - start),
        decreases end - i,
    {
        kept.push(chars[i]);
        assert(middle[i - start] == chars@[i as int]);
        assert(kept@ =~= middle.take(i + 1 - start));
        i += 1;
    }
    assert(middle.take(i - start) =~= middle);
    kept
}

/// The text that characters spell.
pub fn text_of(chars: &Vec<char>) -> (text: String)
    ensures
        text@ == chars@,
{
    let mut text = String::new();
    let mut i: usize = 0;
    while i < chars.len()
        invariant
            i <= chars@.len(),
            text@ == chars@.take(i as int),
        decreases chars@.len() - i,
    {
        text.push(chars[i]);
        assert(chars@.take(i + 1) =~= chars@.take(i as int).push(chars@[i as int]));
        i += 1;
    }
    assert(chars@.take(i as int) =~= chars@);
    text
}

} // verus!
