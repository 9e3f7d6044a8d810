use vstd::prelude::*;
use vstd::string::StringSliceAdditionalSpecFns;

verus! {

/// An ASCII digit.
pub open spec fn is_digit(b: u8) -> bool {
    48 <= b <= 57
}

/// An ASCII letter.
pub open spec fn is_letter(b: u8) -> bool {
    (65 <= b <= 90) || (97 <= b <= 122)
}

/// A byte that may continue a name: a letter, a digit or an underscore.
pub open spec fn is_name_byte(b: u8) -> bool {
    is_letter(b) || is_digit(b) || b == 95
}

/// Where the digits that start at `at` end.
pub open spec fn digits_end(s: Seq<u8>, at: int) -> int
    decreases s.len() - at,
{
    if 0 <= at < s.len() && is_digit(s[at]) {
        digits_end(s, at + 1)
    } else {
        at
    }
}

/// Where the name bytes that start at `at` end.
pub open spec fn name_end(s: Seq<u8>, at: int) -> int
    decreases s.len() - at,
{
    if 0 <= at < s.len() && is_name_byte(s[at]) {
        name_end(s, at + 1)
    } else {
        at
    }
}

/// The number that the digits `s[from..to]` write in base ten.
pub open spec fn decimal(s: Seq<u8>, from: int, to: int) -> nat
    decreases to - from,
{
    if to <= from {
        0
    } else {
        decimal(s, from, to - 1) * 10 + (s[to - 1] - 48) as nat
    }
}

/// The bytes of `tag` stand in `s` at `at`.
pub open spec fn tag_at(s: Seq<u8>, at: int, tag: Seq<u8>) -> bool {
    0 <= at && at + tag.len() <= s.len() && s.subrange(at, at + tag.len()) == tag
}

/// A number at `at`: one digit or more, writing a number within the range
/// of a count; with the position where it ends.
pub open spec fn number_at(s: Seq<u8>, at: int) -> Option<(u32, int)> {
    let end = digits_end(s, at);
    if end > at && decimal(s, at, end) <= u32::MAX {
        Some((decimal(s, at, end) as u32, end))
    } else {
        None
    }
}

/// A quoted name at `at`: a double quote, a letter, any number of letters,
/// digits and underscores, and a double quote; the name without its quotes,
/// with the position where the whole ends.
pub open spec fn reference_at(s: Seq<u8>, at: int) -> Option<(Seq<u8>, int)> {
    let end = name_end(s, at + 2);
    if 0 <= at && at + 1 < s.len() && s[at] == 34 && is_letter(s[at + 1]) && end < s.len() && s[end] == 34 {
        Some((s.subrange(at + 1, end), end + 1))
    } else {
        None
    }
}

/// Whether the bytes of `tag` stand in the input at `at`.
pub fn expect(input: &[u8], at: usize, tag: &str) -> (r: bool)
    ensures
        r == tag_at(input@, at as int, tag.spec_bytes()),
{
    let t = tag.as_bytes();
    if at > input.len() || t.len() > input.len() - at {
        return false;
    }
    let mut i: usize = 0;
    while i < t.len()
        invariant
            0 <= i <= t.len(),
            at + t.len() <= input.len(),
            t@ == tag.spec_bytes(),
            forall|j: int| 0 <= j < i ==> input@[at + j] == t@[j],
        decreases t.len() - i,
    {
        if input[at + i] != t[i] {
            assert(input@.subrange(at as int, at + t.len())[i as int] != t@[i as int]);
            return false;
        }
        i = i + 1;
    }
    assert(input@.subrange(at as int, at + t.len()) =~= t@);
    true
}

fn digit(b: u8) -> (r: bool)
    ensures
        r == is_digit(b),
{
    48 <= b && b <= 57
}

fn letter(b: u8) -> (r: bool)
    ensures
        r == is_letter(b),
{
    (65 <= b && b <= 90) || (97 <= b && b <= 122)
}

fn name_byte(b: u8) -> (r: bool)
    ensures
        r == is_name_byte(b),
{
    letter(b) || digit(b) || b == 95
}

/// Where the name bytes that start at `at` end.
fn scan_name(input: &[u8], at: usize) -> (end: usize)
    requires
        at <= input.len(),
    ensures
        end == name_end(input@, at as int),
        at <= end <= input.len(),
{
    let mut i: usize = at;
    while i < input.len() && name_byte(input[i])
        invariant
            at <= i <= input.len(),
            name_end(input@, at as int) == name_end(input@, i as int),
        decreases input.len() - i,
    {
        i = i + 1;
    }
    i
}

/// Reads a number at `at`.
pub fn parse_u32(input: &[u8], at: usize) -> (r: Option<(u32, usize)>)
    ensures
        match r {
            Some((v, end)) => number_at(input@, at as int) == Some((v, end as int)) && at < end <= input.len(),
            None => number_at(input@, at as int) is None,
        },
{
    if at > input.len() {
        return None;
    }
    let mut i: usize = at;
    let mut value: u64 = 0;
    let mut too_large: bool = false;
    while i < input.len() && digit(input[i])
        invariant
            at <= i <= input.len(),
            digits_end(input@, at as int) == digits_end(input@, i as int),
            forall|j: int| at <= j < i ==> is_digit(#[trigger] input@[j]),
            !too_large ==> value == decimal(input@, at as int, i as int) && value <= u32::MAX,
            too_large ==> decimal(input@, at as int, i as int) > u32::MAX,
        decreases input.len() - i,
    {
        let d: u64 = (input[i] - 48) as u64;
        if !too_large {
            value = value * 10 + d;
            if value > u32::MAX as u64 {
                too_large = true;
            }
        }
        i = i + 1;
    }
    if i == at || too_large {
        None
    } else {
        Some((value as u32, i))
    }
}

/// Reads a quoted name at `at`; gives the name without its quotes.
pub fn parse_petri_element_reference(input: &[u8], at: usize) -> (r: Option<(Vec<u8>, usize)>)
    ensures
        match r {
            Some((name, end)) => reference_at(input@, at as int) == Some((name@, end as int)) && at < end
                <= input.len(),
            None => reference_at(input@, at as int) is None,
        },
{
    if at >= input.len() || input.len() - at < 2 {
        return None;
    }
    if input[at] != 34 || !letter(input[at + 1]) {
        return None;
    }
    let end = scan_name(input, at + 2);
    if end >= input.len() || input[end] != 34 {
        return None;
    }
    let mut name: Vec<u8> = Vec::new();
    let mut i: usize = at + 1;
    while i < end
        invariant
            at + 1 <= i <= end,
            end < input.len(),
            name@ == input@.subrange(at + 1, i as int),
        decreases end - i,
    {
        name.push(input[i]);
        assert(name@ =~= input@.subrange(at + 1, i + 1));
        i = i + 1;
    }
    Some((name, end + 1))
}

} // verus!
