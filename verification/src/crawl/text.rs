//! Strings as sequences of characters: conversion, substring search, and
//! decimal numbers read from and written to text.

use vstd::prelude::*;

verus! {

/// `needle` stands in `hay` at position `at`.
pub open spec fn occurs_at(hay: Seq<char>, needle: Seq<char>, at: int) -> bool {
    &&& 0 <= at
    &&& at + needle.len() <= hay.len()
    &&& hay.subrange(at, at + needle.len()) == needle
}

/// `needle` stands somewhere in `hay`. The empty needle stands in every text.
pub open spec fn has_substring(hay: Seq<char>, needle: Seq<char>) -> bool {
    exists|at: int| occurs_at(hay, needle, at)
}

/// `hay` begins with `prefix`.
pub open spec fn has_prefix(hay: Seq<char>, prefix: Seq<char>) -> bool {
    occurs_at(hay, prefix, 0)
}

/// An ASCII decimal digit.
pub open spec fn is_digit(c: char) -> bool {
    '0' <= c <= '9'
}

/// The number a digit stands for; 0 for any other character.
pub open spec fn digit_value(c: char) -> nat {
    if is_digit(c) {
        (c as int - '0' as int) as nat
    } else {
        0
    }
}

/// The character of a digit below ten.
pub open spec fn digit_char(d: nat) -> char {
    if d == 0 {
        '0'
    } else if d == 1 {
        '1'
    } else if d == 2 {
        '2'
    } else if d == 3 {
        '3'
    } else if d == 4 {
        '4'
    } else if d == 5 {
        '5'
    } else if d == 6 {
        '6'
    } else if d == 7 {
        '7'
    } else if d == 8 {
        '8'
    } else {
        '9'
    }
}

/// Every character is a decimal digit.
pub open spec fn all_digits(s: Seq<char>) -> bool {
    forall|i: int| 0 <= i < s.len() ==> is_digit(#[trigger] s[i])
}

/// The number that a run of digits denotes, most significant digit first.
pub open spec fn decimal_value(digits: Seq<char>) -> nat
    decreases digits.len(),
{
    if digits.len() == 0 {
        0
    } else {
        decimal_value(digits.drop_last()) * 10 + digit_value(digits.last())
    }
}

/// The shortest decimal writing of `n`.
pub open spec fn decimal_digits(n: nat) -> Seq<char>
    decreases n,
{
    if n < 10 {
        seq![digit_char(n)]
    } else {
        decimal_digits(n / 10).push(digit_char(n % 10))
    }
}

/// What is left of a number's text once one leading sign is taken off:
/// a `+` always, a `-` where `signed`.
pub open spec fn unsigned_part(s: Seq<char>, signed: bool) -> Seq<char> {
    if s.len() > 0 && (s[0] == '+' || (signed && s[0] == '-')) {
        s.drop_first()
    } else {
        s
    }
}

/// The integer that `s` denotes, if it is a decimal number between `min` and
/// `max`: an optional sign, then one digit or more, and nothing else. No
/// space is skipped; without `signed` a leading `-` is no number.
pub open spec fn parse_decimal(s: Seq<char>, signed: bool, min: int, max: int) -> Option<int> {
    let digits = unsigned_part(s, signed);
    let magnitude = decimal_value(digits) as int;
    let value = if signed && s.len() > 0 && s[0] == '-' {
        -magnitude
    } else {
        magnitude
    };
    if digits.len() > 0 && all_digits(digits) && min <= value <= max {
        Some(value)
    } else {
        None
    }
}

/// A run of digits denotes at least what any of its beginnings denotes.
pub proof fn lemma_decimal_value_grows(digits: Seq<char>, k: int)
    requires
        0 <= k <= digits.len(),
    ensures
        decimal_value(digits.take(k)) <= decimal_value(digits),
    decreases digits.len() - k,
{
    if k == digits.len() {
        assert(digits.take(k) == digits);
    } else {
        lemma_decimal_value_grows(digits, k + 1);
        assert(digits.take(k + 1).drop_last() == digits.take(k));
    }
}

/// The decimal writing of a number is made of digits, one at least, and
/// denotes that number.
pub proof fn lemma_decimal_digits_value(n: nat)
    ensures
        decimal_digits(n).len() > 0,
        all_digits(decimal_digits(n)),
        decimal_value(decimal_digits(n)) == n,
    decreases n,
{
    if n < 10 {
        let s = seq![digit_char(n)];
        assert(decimal_value(s) == decimal_value(s.drop_last()) * 10 + digit_value(s.last()));
    } else {
        lemma_decimal_digits_value(n / 10);
        let head = decimal_digits(n / 10);
        let s = head.push(digit_char(n % 10));
        assert(s.drop_last() == head);
        assert forall|i: int| 0 <= i < s.len() implies is_digit(#[trigger] s[i]) by {}
    }
}

/// Reading back what `decimal_digits` wrote gives the number written.
pub proof fn lemma_parse_decimal_digits(n: nat, signed: bool, min: int, max: int)
    requires
        min <= n <= max,
    ensures
        parse_decimal(decimal_digits(n), signed, min, max) == Some(n as int),
{
    lemma_decimal_digits_value(n);
}

/// The characters of `s`, in order.
pub fn chars_of(s: &str) -> (chars: Vec<char>)
    ensures
        chars@ == s@,
{
    let mut chars: Vec<char> = Vec::new();
    for c in it: s.chars()
        invariant
            it.seq() == s@,
            chars@ == s@.take(it.index() as int),
    {
        chars.push(c);
    }
    chars
}

/// Whether `needle` stands in `hay` at position `at`.
pub fn matches_at(hay: &Vec<char>, needle: &Vec<char>, at: usize) -> (found: bool)
    requires
        at + needle.len() <= hay.len(),
    ensures
        found == occurs_at(hay@, needle@, at as int),
{
    let mut i: usize = 0;
    while i < needle.len()
        invariant
            i <= needle.len(),
            at + needle.len() <= hay.len(),
            forall|j: int| 0 <= j < i ==> hay@[at + j] == needle@[j],
        decreases needle.len() - i,
    {
        if hay[at + i] != needle[i] {
            return false;
        }
        i += 1;
    }
    assert(hay@.subrange(at as int, at + needle@.len()) =~= needle@);
    true
}

/// Whether `needle` stands somewhere in `hay`.
pub fn contains(hay: &Vec<char>, needle: &Vec<char>) -> (found: bool)
    ensures
        found == has_substring(hay@, needle@),
{
    if needle.len() == 0 {
        assert(hay@.subrange(0, 0) =~= needle@);
        assert(occurs_at(hay@, needle@, 0));
        return true;
    }
    if needle.len() > hay.len() {
        return false;
    }
    let last: usize = hay.len() - needle.len();
    let mut at: usize = 0;
    while at <= last
        invariant
            at <= last + 1,
            last == hay.len() - needle.len(),
            0 < needle.len() <= hay.len(),
            forall|k: int| 0 <= k < at ==> !occurs_at(hay@, needle@, k),
        decreases last + 1 - at,
    {
        if matches_at(hay, needle, at) {
            return true;
        }
        at += 1;
    }
    false
}

/// Whether `hay` begins with `prefix`.
pub fn starts_with(hay: &Vec<char>, prefix: &Vec<char>) -> (found: bool)
    ensures
        found == has_prefix(hay@, prefix@),
{
    prefix.len() <= hay.len() && matches_at(hay, prefix, 0)
}

/// The characters of `chars` from position `from` on.
pub fn tail_of(chars: &Vec<char>, from: usize) -> (tail: Vec<char>)
    requires
        from <= chars.len(),
    ensures
        tail@ == chars@.skip(from as int),
{
    let mut tail: Vec<char> = Vec::new();
    let mut i: usize = from;
    while i < chars.len()
        invariant
            from <= i <= chars.len(),
            tail@ == chars@.subrange(from as int, i as int),
        decreases chars.len() - i,
    {
        tail.push(chars[i]);
        i += 1;
    }
    tail
}

/// Whether the text `needle` stands somewhere in the text `hay`.
pub fn str_contains(hay: &str, needle: &str) -> (found: bool)
    ensures
        found == has_substring(hay@, needle@),
{
    let hay_chars = chars_of(hay);
    let needle_chars = chars_of(needle);
    contains(&hay_chars, &needle_chars)
}

/// Reads the decimal number that `s` is, if it is one between `min` and `max`.
pub(crate) fn parse_number(s: &Vec<char>, signed: bool, min: i64, max: i64) -> (value: Option<i64>)
    requires
        min <= 0 <= max,
        min > i64::MIN,
    ensures
        value == match parse_decimal(s@, signed, min as int, max as int) {
            Some(v) => Some(v as i64),
            None => None,
        },
{
    if s.len() == 0 {
        return None;
    }
    let negative = signed && s[0] == '-';
    let start: usize = if s[0] == '+' || negative {
        1
    } else {
        0
    };
    let ghost digits = unsigned_part(s@, signed);
    if start == s.len() {
        return None;
    }
    // How far the magnitude may go: `max`, or `-min` behind a minus sign.
    let bound: i64 = if negative {
        -min
    } else {
        max
    };
    let mut magnitude: i64 = 0;
    let mut i: usize = start;
    while i < s.len()
        invariant
            start <= i <= s.len(),
            s.len() > 0,
            negative == (signed && s@[0] == '-'),
            digits == unsigned_part(s@, signed),
            digits == s@.skip(start as int),
            bound == if negative { -min } else { max as int },
            min <= 0 <= max,
            0 <= magnitude <= bound,
            magnitude == decimal_value(digits.take(i - start)),
            forall|j: int| 0 <= j < i - start ==> is_digit(#[trigger] digits[j]),
        decreases s.len() - i,
    {
        let c = s[i];
        proof {
            assert(digits.take(i - start + 1).drop_last() == digits.take(i - start));
            assert(digits.take(i - start + 1).last() == c);
        }
        if c < '0' || c > '9' {
            return None;
        }
        let d: i64 = (c as u32 - '0' as u32) as i64;
        if d > bound || magnitude > (bound - d) / 10 {
            proof {
                lemma_decimal_value_grows(digits, i - start + 1);
            }
            return None;
        }
        magnitude = magnitude * 10 + d;
        i += 1;
    }
    assert(digits.take(i - start) == digits);
    if negative {
        Some(-magnitude)
    } else {
        Some(magnitude)
    }
}

/// Reads `text` as an unsigned 32-bit decimal number: a `+` or nothing, then
/// digits and nothing else.
pub fn parse_u32(text: &str) -> (value: Option<u32>)
    ensures
        value == match parse_decimal(text@, false, 0, u32::MAX as int) {
            Some(v) => Some(v as u32),
            None => None,
        },
{
    match parse_number(&chars_of(text), false, 0, u32::MAX as i64) {
        Some(v) => Some(v as u32),
        None => None,
    }
}

/// Reads `text` as a signed 32-bit decimal number: a sign or nothing, then
/// digits and nothing else.
pub fn parse_i32(text: &str) -> (value: Option<i32>)
    ensures
        value == match parse_decimal(text@, true, i32::MIN as int, i32::MAX as int) {
            Some(v) => Some(v as i32),
            None => None,
        },
{
    match parse_number(&chars_of(text), true, i32::MIN as i64, i32::MAX as i64) {
        Some(v) => Some(v as i32),
        None => None,
    }
}

/// The one-character text of a digit below ten.
fn digit_str(d: u64) -> (s: &'static str)
    requires
        d < 10,
    ensures
        s@ == seq![digit_char(d as nat)],
{
    proof {
        reveal_strlit("0");
        reveal_strlit("1");
        reveal_strlit("2");
        reveal_strlit("3");
        reveal_strlit("4");
        reveal_strlit("5");
        reveal_strlit("6");
        reveal_strlit("7");
        reveal_strlit("8");
        reveal_strlit("9");
    }
    let s = if d == 0 {
        "0"
    } else if d == 1 {
        "1"
    } else if d == 2 {
        "2"
    } else if d == 3 {
        "3"
    } else if d == 4 {
        "4"
    } else if d == 5 {
        "5"
    } else if d == 6 {
        "6"
    } else if d == 7 {
        "7"
    } else if d == 8 {
        "8"
    } else {
        "9"
    };
    s
}

/// Appends the decimal writing of `n` to `out`.
pub fn push_decimal(out: &mut String, n: u64)
    ensures
        final(out)@ == old(out)@ + decimal_digits(n as nat),
    decreases n,
{
    if n >= 10 {
        push_decimal(out, n / 10);
    }
    out.append(digit_str(n % 10));
    proof {
        if n >= 10 {
            assert(old(out)@ + decimal_digits((n / 10) as nat) + seq![digit_char((n % 10) as nat)]
                =~= old(out)@ + decimal_digits(n as nat));
        }
    }
}

} // verus!
