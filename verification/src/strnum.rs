//! Small string and number helpers: decimal rendering of integers,
//! percentage formatting, and lexicographic comparison of strings.

use vstd::prelude::*;

verus! {

/// The character for a single decimal digit.
pub open spec fn digit_char(d: int) -> char {
    if d == 0 {
        '0'
    } else if d == 1 {
        '1'
    } else if d == 2 {
        '2'
    } else if d == 3 {
        '3'
    } else if d == 4 {
        '4'
    } else if d == 5 {
        '5'
    } else if d == 6 {
        '6'
    } else if d == 7 {
        '7'
    } else if d == 8 {
        '8'
    } else {
        '9'
    }
}

/// The decimal representation of a non-negative integer, without
/// leading zeros (except for zero itself, which is "0").
pub open spec fn dec_str(n: int) -> Seq<char>
    decreases n,
{
    if n < 10 {
        seq![digit_char(n)]
    } else {
        dec_str(n / 10).push(digit_char(n % 10))
    }
}

/// Relies on String::push: appends one character to the end of the string.
#[verifier::external_body]
pub fn push_char(s: &mut String, c: char)
    ensures
        final(s)@ == old(s)@.push(c),
{
    s.push(c);
}

/// The character for one digit of `n`, as a digit value below ten.
pub fn digit_char_of(d: u64) -> (c: char)
    requires
        d < 10,
    ensures
        c == digit_char(d as int),
{
    match d {
        0 => '0',
        1 => '1',
        2 => '2',
        3 => '3',
        4 => '4',
        5 => '5',
        6 => '6',
        7 => '7',
        8 => '8',
        _ => '9',
    }
}

/// Renders `n` in decimal, matching `dec_str`.
pub fn u64_to_string(n: u64) -> (s: String)
    ensures
        s@ == dec_str(n as int),
    decreases n,
{
    if n < 10 {
        let mut s = String::new();
        push_char(&mut s, digit_char_of(n));
        assert(s@ =~= dec_str(n as int));
        s
    } else {
        let mut s = u64_to_string(n / 10);
        push_char(&mut s, digit_char_of(n % 10));
        s
    }
}

/// A percentage with two decimal places and a trailing percent sign,
/// from a share expressed in hundredths of a percent.
pub open spec fn percent_text(bp: int) -> Seq<char> {
    dec_str(bp / 100) + seq!['.', digit_char((bp % 100) / 10), digit_char(bp % 10), '%']
}

/// Formats a share expressed in hundredths of a percent, matching
/// `percent_text`.
pub fn percent_string(bp: u64) -> (s: String)
    ensures
        s@ == percent_text(bp as int),
{
    let mut s = u64_to_string(bp / 100);
    push_char(&mut s, '.');
    push_char(&mut s, digit_char_of((bp % 100) / 10));
    push_char(&mut s, digit_char_of(bp % 10));
    push_char(&mut s, '%');
    proof {
        assert(s@ =~= percent_text(bp as int));
    }
    s
}

} // verus!
