//! Addresses as text.

use vstd::prelude::*;
use vstd::string::*;

use crate::net::{is_mapped_value, mapped_v4, to_ipv4_mapped, IpAddr};
use crate::text::{decimal, push_decimal};

verus! {

/// The octets of an IPv4 address in decimal, with dots between them.
pub open spec fn v4_text(value: u32) -> Seq<char> {
    decimal((value / 0x100_0000) as nat) + seq!['.'] + decimal(
        (value / 0x1_0000 % 0x100) as nat,
    ) + seq!['.'] + decimal((value / 0x100 % 0x100) as nat) + seq!['.'] + decimal(
        (value % 0x100) as nat,
    )
}

/// The hexadecimal digit for a value below sixteen.
pub open spec fn hex_digit(value: nat) -> char {
    if value < 10 {
        (48 + value) as char
    } else {
        (87 + value) as char
    }
}

/// The hexadecimal numeral of a number, without leading zeros.
pub open spec fn hexadecimal(value: nat) -> Seq<char>
    decreases value,
{
    if value < 16 {
        seq![hex_digit(value)]
    } else {
        hexadecimal(value / 16).push(hex_digit(value % 16))
    }
}

/// The eight 16-bit groups of an IPv6 address.
pub open spec fn groups(value: u128) -> Seq<u16> {
    seq![
        (value / 0x1_0000_0000_0000_0000_0000_0000_0000) as u16,
        (value / 0x1_0000_0000_0000_0000_0000_0000 % 0x1_0000) as u16,
        (value / 0x1_0000_0000_0000_0000_0000 % 0x1_0000) as u16,
        (value / 0x1_0000_0000_0000_0000 % 0x1_0000) as u16,
        (value / 0x1_0000_0000_0000 % 0x1_0000) as u16,
        (value / 0x1_0000_0000 % 0x1_0000) as u16,
        (value / 0x1_0000 % 0x1_0000) as u16,
        (value % 0x1_0000) as u16,
    ]
}

/// How many groups in a row are zero from a place on.
pub open spec fn zeros_from(groups: Seq<u16>, place: int) -> nat
    decreases groups.len() - place,
{
    if 0 <= place < groups.len() && groups[place] == 0 {
        1 + zeros_from(groups, place + 1)
    } else {
        0
    }
}

/// Where the longest row of zero groups starts, among the first places, and how long it
/// is; the first one of several.
pub open spec fn longest_zeros(groups: Seq<u16>, places: nat) -> (int, nat)
    decreases places,
{
    if places == 0 {
        (0, 0)
    } else {
        let before = longest_zeros(groups, (places - 1) as nat);
        let here = zeros_from(groups, places - 1);
        if here > before.1 {
            (places - 1, here)
        } else {
            before
        }
    }
}

/// Groups in hexadecimal with colons between them.
pub open spec fn joined(groups: Seq<u16>) -> Seq<char>
    decreases groups.len(),
{
    if groups.len() == 0 {
        Seq::empty()
    } else if groups.len() == 1 {
        hexadecimal(groups[0] as nat)
    } else {
        joined(groups.drop_last()) + seq![':'] + hexadecimal(groups.last() as nat)
    }
}

/// An IPv6 address: the IPv4 address that it carries behind `::ffff:`, or its groups with
/// the longest row of at least two zero groups left out.
pub open spec fn v6_text(value: u128) -> Seq<char> {
    if is_mapped_value(value) {
        "::ffff:"@ + v4_text(mapped_v4(value) as u32)
    } else {
        let groups = groups(value);
        let (start, len) = longest_zeros(groups, 8);
        if len > 1 {
            joined(groups.take(start)) + "::"@ + joined(groups.skip(start + len))
        } else {
            joined(groups)
        }
    }
}

/// An address as text.
pub open spec fn ip_text(ip: IpAddr) -> Seq<char> {
    match ip {
        IpAddr::V4(value) => v4_text(value),
        IpAddr::V6(value) => v6_text(value),
    }
}

fn push_v4(text: &mut String, value: u32)
    ensures
        final(text)@ == old(text)@ + v4_text(value),
{
    let ghost before = text@;
    push_decimal(text, (value / 0x100_0000) as u64);
    text.push('.');
    push_decimal(text, (value / 0x1_0000 % 0x100) as u64);
    text.push('.');
    push_decimal(text, (value / 0x100 % 0x100) as u64);
    text.push('.');
    push_decimal(text, (value % 0x100) as u64);
    assert(text@ =~= before + v4_text(value));
}

fn hex_char(value: u16) -> (c: char)
    requires
        value < 16,
    ensures
        c == hex_digit(value as nat),
{
    if value < 10 {
        ((48 + value) as u8) as char
    } else {
        ((87 + value) as u8) as char
    }
}

fn push_hexadecimal(text: &mut String, value: u16)
    ensures
        final(text)@ == old(text)@ + hexadecimal(value as nat),
    decreases value,
{
    let ghost before = text@;
    if value >= 16 {
        push_hexadecimal(text, value / 16);
    }
    text.push(hex_char(value % 16));
    assert(text@ =~= before + hexadecimal(value as nat));
}

fn groups_of(value: u128) -> (list: Vec<u16>)
    ensures
        list@ == groups(value),
{
    let mut list: Vec<u16> = Vec::new();
    list.push((value / 0x1_0000_0000_0000_0000_0000_0000_0000) as u16);
    list.push((value / 0x1_0000_0000_0000_0000_0000_0000 % 0x1_0000) as u16);
    list.push((value / 0x1_0000_0000_0000_0000_0000 % 0x1_0000) as u16);
    list.push((value / 0x1_0000_0000_0000_0000 % 0x1_0000) as u16);
    list.push((value / 0x1_0000_0000_0000 % 0x1_0000) as u16);
    list.push((value / 0x1_0000_0000 % 0x1_0000) as u16);
    list.push((value / 0x1_0000 % 0x1_0000) as u16);
    list.push((value % 0x1_0000) as u16);
    assert(list@ =~= groups(value));
    list
}

/// Appends the groups between two places.
fn push_joined(text: &mut String, list: &Vec<u16>, start: usize, end: usize)
    requires
        start <= end <= list@.len(),
    ensures
        final(text)@ == old(text)@ + joined(list@.subrange(start as int, end as int)),
{
    let ghost before = text@;
    let mut i: usize = start;
    assert(text@ =~= before + joined(list@.subrange(start as int, start as int)));
    while i < end
        invariant
            start <= i <= end <= list@.len(),
            text@ == before + joined(list@.subrange(start as int, i as int)),
        decreases end - i,
    {
        let ghost done = list@.subrange(start as int, i as int);
        let ghost next = list@.subrange(start as int, i + 1);
        assert(next.drop_last() =~= done);
        assert(next.last() == list@[i as int]);
        if i > start {
            text.push(':');
        }
        push_hexadecimal(text, list[i]);
        assert(text@ =~= before + joined(next));
        i += 1;
    }
}

proof fn lemma_zeros_fit(list: Seq<u16>, place: int)
    requires
        0 <= place <= list.len(),
    ensures
        place + zeros_from(list, place) <= list.len(),
    decreases list.len() - place,
{
    if place < list.len() && list[place] == 0 {
        lemma_zeros_fit(list, place + 1);
    }
}

fn count_zeros(list: &Vec<u16>, place: usize) -> (count: usize)
    requires
        place <= list@.len(),
    ensures
        count == zeros_from(list@, place as int),
        place + count <= list@.len(),
    decreases list@.len() - place,
{
    proof {
        lemma_zeros_fit(list@, place as int);
    }
    if place < list.len() && list[place] == 0 {
        count_zeros(list, place + 1) + 1
    } else {
        0
    }
}

fn push_v6(text: &mut String, value: u128)
    ensures
        final(text)@ == old(text)@ + v6_text(value),
{
    let ghost before = text@;
    if let Some(v4) = to_ipv4_mapped(value) {
        text.append("::ffff:");
        push_v4(text, v4);
        assert(text@ =~= before + v6_text(value));
        return;
    }
    let list = groups_of(value);
    let mut start: usize = 0;
    let mut len: usize = 0;
    let mut place: usize = 0;
    while place < 8
        invariant
            place <= 8,
            list@.len() == 8,
            start + len <= 8,
            (start as int, len as nat) == longest_zeros(list@, place as nat),
        decreases 8 - place,
    {
        let here: usize = count_zeros(&list, place);
        if here > len {
            start = place;
            len = here;
        }
        place += 1;
    }
    if len > 1 {
        push_joined(text, &list, 0, start);
        text.append("::");
        push_joined(text, &list, start + len, 8);
        assert(list@.subrange(0, start as int) =~= list@.take(start as int));
        assert(list@.subrange(start + len, 8) =~= list@.skip(start + len));
        assert(text@ =~= before + v6_text(value));
    } else {
        push_joined(text, &list, 0, 8);
        assert(list@.subrange(0, 8) =~= list@);
    }
}

/// Appends an address.
pub fn push_ip(text: &mut String, ip: IpAddr)
    ensures
        final(text)@ == old(text)@ + ip_text(ip),
{
    match ip {
        IpAddr::V4(value) => push_v4(text, value),
        IpAddr::V6(value) => push_v6(text, value),
    }
}

/// An address as text.
pub fn ip_to_text(ip: IpAddr) -> (text: String)
    ensures
        text@ == ip_text(ip),
{
    let mut text = String::new();
    push_ip(&mut text, ip);
    assert(text@ =~= ip_text(ip));
    text
}

} // verus!
