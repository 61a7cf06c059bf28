//! Small verified helpers on text: collecting the characters of a string,
//! writing a number in decimal and reading it back.

use vstd::prelude::*;

verus! {

/// `String::push` appends one character to the end of the string.
pub assume_specification[ String::push ](s: &mut String, c: char)
    ensures
        final(s)@ == old(s)@.push(c),
;

/// Whether `c` has the Unicode property White_Space.
pub uninterp spec fn white_space(c: char) -> bool;

/// Whether `c` is one of the ASCII characters with the property White_Space:
/// the space and the controls from tab to carriage return.
pub open spec fn is_ascii_whitespace(c: char) -> bool {
    c == ' ' || '\t' <= c <= '\r'
}

/// Whether `c` is white space: for an ASCII character the space and the
/// controls from tab to carriage return, for another character the Unicode
/// property.
pub open spec fn is_space(c: char) -> bool {
    if c <= '\x7f' {
        is_ascii_whitespace(c)
    } else {
        white_space(c)
    }
}

/// `char::is_whitespace` tells whether the character has the Unicode property
/// White_Space; of the ASCII characters those are the space and the controls
/// from tab to carriage return.
pub assume_specification[ char::is_whitespace ](c: char) -> (r: bool)
    ensures
        r == white_space(c),
        c <= '\x7f' ==> r == is_ascii_whitespace(c),
;

/// The characters of a string slice, in order.
pub fn chars_of(s: &str) -> (v: Vec<char>)
    ensures
        v@ == s@,
{
    let mut v: Vec<char> = Vec::new();
    for c in it: s.chars()
        invariant
            v@ == it.seq().take(it.index()),
            it.seq() == s@,
    {
        v.push(c);
    }
    v
}

/// The string that holds the characters `v[from..to]`.
pub fn string_of(v: &Vec<char>, from: usize, to: usize) -> (s: String)
    requires
        from <= to <= v.len(),
    ensures
        s@ == v@.subrange(from as int, to as int),
{
    let mut s = String::new();
    let mut i: usize = from;
    while i < to
        invariant
            from <= i <= to <= v.len(),
            s@ == v@.subrange(from as int, i as int),
        decreases to - i,
    {
        s.push(v[i]);
        i += 1;
    }
    s
}

/// The decimal digit that stands for `d`, for `d < 10`.
pub open spec fn digit_char(d: nat) -> char {
    if d == 0 {
        '0'
    } else if d == 1 {
        '1'
    } else if d == 2 {
        '2'
    } else if d == 3 {
        '3'
    } else if d == 4 {
        '4'
    } else if d == 5 {
        '5'
    } else if d == 6 {
        '6'
    } else if d == 7 {
        '7'
    } else if d == 8 {
        '8'
    } else {
        '9'
    }
}

/// Whether `c` is one of the ten decimal digits.
pub open spec fn is_digit(c: char) -> bool {
    '0' <= c <= '9'
}

/// The value of the decimal digit `c`.
pub open spec fn digit_value(c: char) -> nat
    recommends
        is_digit(c),
{
    (c as nat - '0' as nat) as nat
}

/// `n` written in decimal, without sign and without leading zeros.
pub open spec fn decimal_text(n: nat) -> Seq<char>
    decreases n,
{
    if n < 10 {
        seq![digit_char(n)]
    } else {
        decimal_text(n / 10).push(digit_char(n % 10))
    }
}

/// The number that a run of decimal digits denotes; 0 for the empty run.
pub open spec fn digits_value(s: Seq<char>) -> nat
    decreases s.len(),
{
    if s.len() == 0 {
        0
    } else {
        digits_value(s.drop_last()) * 10 + digit_value(s.last())
    }
}

/// Whether every character of `s` is a decimal digit.
pub open spec fn all_digits(s: Seq<char>) -> bool {
    forall|i: int| 0 <= i < s.len() ==> is_digit(#[trigger] s[i])
}

/// `s` without one leading plus sign, if it has one.
pub open spec fn unsigned_part(s: Seq<char>) -> Seq<char> {
    if s.len() > 0 && s[0] == '+' {
        s.subrange(1, s.len() as int)
    } else {
        s
    }
}

/// The index that `s` denotes: an optional plus sign, then one or more
/// decimal digits whose value fits a `usize`. Anything else denotes nothing.
pub open spec fn parse_index(s: Seq<char>) -> Option<nat> {
    let d = unsigned_part(s);
    if d.len() > 0 && all_digits(d) && digits_value(d) <= usize::MAX {
        Some(digits_value(d))
    } else {
        None
    }
}

/// The decimal digit that stands for `d`.
fn digit_of(d: usize) -> (c: char)
    requires
        d < 10,
    ensures
        c == digit_char(d as nat),
{
    if d == 0 {
        '0'
    } else if d == 1 {
        '1'
    } else if d == 2 {
        '2'
    } else if d == 3 {
        '3'
    } else if d == 4 {
        '4'
    } else if d == 5 {
        '5'
    } else if d == 6 {
        '6'
    } else if d == 7 {
        '7'
    } else if d == 8 {
        '8'
    } else {
        '9'
    }
}

/// The value of the decimal digit `c`, if it is one.
fn value_of(c: char) -> (d: Option<usize>)
    ensures
        is_digit(c) ==> d == Some(digit_value(c) as usize),
        !is_digit(c) ==> d is None,
        d matches Some(x) ==> x < 10,
{
    if c == '0' {
        Some(0)
    } else if c == '1' {
        Some(1)
    } else if c == '2' {
        Some(2)
    } else if c == '3' {
        Some(3)
    } else if c == '4' {
        Some(4)
    } else if c == '5' {
        Some(5)
    } else if c == '6' {
        Some(6)
    } else if c == '7' {
        Some(7)
    } else if c == '8' {
        Some(8)
    } else if c == '9' {
        Some(9)
    } else {
        None
    }
}

/// Appends `n` in decimal to `out`.
pub fn push_decimal(out: &mut String, n: usize)
    ensures
        final(out)@ == old(out)@ + decimal_text(n as nat),
    decreases n,
{
    if n < 10 {
        out.push(digit_of(n));
    } else {
        push_decimal(out, n / 10);
        out.push(digit_of(n % 10));
    }
}

/// `n` in decimal.
pub fn decimal_string(n: usize) -> (s: String)
    ensures
        s@ == decimal_text(n as nat),
{
    let mut s = String::new();
    push_decimal(&mut s, n);
    s
}

/// Reads the index that the characters `v[from..]` denote.
pub fn read_index(v: &Vec<char>, from: usize) -> (r: Option<usize>)
    requires
        from <= v.len(),
    ensures
        r is Some == parse_index(v@.subrange(from as int, v.len() as int)) is Some,
        r matches Some(n) ==> parse_index(v@.subrange(from as int, v.len() as int)) == Some(
            n as nat,
        ),
{
    let ghost s = v@.subrange(from as int, v.len() as int);
    let mut start: usize = from;
    if start < v.len() && v[start] == '+' {
        start += 1;
    }
    let ghost d = unsigned_part(s);
    if start == v.len() {
        return None;
    }
    let mut acc: usize = 0;
    let mut fits: bool = true;
    let mut i: usize = start;
    while i < v.len()
        invariant
            start <= i <= v.len(),
            d == v@.subrange(start as int, v.len() as int),
            d == unsigned_part(v@.subrange(from as int, v.len() as int)),
            all_digits(d.subrange(0, i - start)),
            fits ==> acc == digits_value(d.subrange(0, i - start)),
            !fits ==> digits_value(d.subrange(0, i - start)) > usize::MAX,
        decreases v.len() - i,
    {
        let ghost pre = d.subrange(0, i - start);
        let ghost cur = d.subrange(0, i + 1 - start);
        assert(cur.drop_last() =~= pre);
        match value_of(v[i]) {
            None => {
                assert(!is_digit(d[i - start]));
                return None;
            },
            Some(x) => {
                assert forall|k: int| 0 <= k < cur.len() implies is_digit(#[trigger] cur[k]) by {}
                if fits && acc <= (usize::MAX - x) / 10 {
                    acc = acc * 10 + x;
                } else {
                    fits = false;
                }
            },
        }
        i += 1;
    }
    assert(d.subrange(0, i - start) =~= d);
    if fits {
        Some(acc)
    } else {
        None
    }
}

/// A digit's character is a digit and is worth the digit.
pub proof fn digit_char_value(d: nat)
    requires
        d < 10,
    ensures
        is_digit(digit_char(d)),
        digit_value(digit_char(d)) == d,
        digit_char(d) != '+',
{
}

/// Every digit of a number in decimal is a digit, and the digits are worth
/// the number.
pub proof fn decimal_text_value(n: nat)
    ensures
        decimal_text(n).len() > 0,
        all_digits(decimal_text(n)),
        digits_value(decimal_text(n)) == n,
        decimal_text(n)[0] != '+',
    decreases n,
{
    digit_char_value(n % 10);
    if n < 10 {
        assert(decimal_text(n).drop_last() =~= Seq::<char>::empty());
        assert(digits_value(Seq::<char>::empty()) == 0);
    } else {
        decimal_text_value(n / 10);
        assert(decimal_text(n).drop_last() =~= decimal_text(n / 10));
    }
}

/// Reading back a number written in decimal gives the number.
pub proof fn parse_index_of_decimal_text(n: nat)
    requires
        n <= usize::MAX,
    ensures
        parse_index(decimal_text(n)) == Some(n),
{
    decimal_text_value(n);
}

} // verus!
