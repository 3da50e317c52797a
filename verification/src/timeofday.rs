//! Times of day in 24-hour `HH:MM` form: parsing, zero-padded formatting,
//! and the round-trip relation between the two.

use vstd::prelude::*;

verus! {

/// `c` is one of the ten decimal digit characters.
pub open spec fn is_digit(c: char) -> bool {
    48 <= c as u32 <= 57
}

/// Numeric value of a digit character.
pub open spec fn digit_val(c: char) -> int {
    c as u32 - 48
}

/// The digit character for a value in `0..10`.
pub open spec fn digit_char(d: int) -> char {
    if d == 0 {
        '0'
    } else if d == 1 {
        '1'
    } else if d == 2 {
        '2'
    } else if d == 3 {
        '3'
    } else if d == 4 {
        '4'
    } else if d == 5 {
        '5'
    } else if d == 6 {
        '6'
    } else if d == 7 {
        '7'
    } else if d == 8 {
        '8'
    } else {
        '9'
    }
}

/// The value `v` in `0..100` written as exactly two decimal digits.
pub open spec fn two_digit_chars(v: int) -> Seq<char> {
    seq![digit_char(v / 10), digit_char(v % 10)]
}

/// A time of day written as zero-padded `HH:MM`.
pub open spec fn time_chars(h: int, m: int) -> Seq<char> {
    two_digit_chars(h) + seq![':'] + two_digit_chars(m)
}

/// What a textual clock value means: `Some((hour, minute))` exactly when the
/// text is five characters `HH:MM` — two digits, a colon, two digits — with
/// the hour below 24 and the minute below 60; `None` for every other string.
pub open spec fn parsed_time(s: Seq<char>) -> Option<(u8, u8)> {
    if s.len() == 5 && is_digit(s[0]) && is_digit(s[1]) && s[2] == ':' && is_digit(s[3])
        && is_digit(s[4]) {
        let h = 10 * digit_val(s[0]) + digit_val(s[1]);
        let m = 10 * digit_val(s[3]) + digit_val(s[4]);
        if h < 24 && m < 60 {
            Some(((h as u8), (m as u8)))
        } else {
            None
        }
    } else {
        None
    }
}

/// Minutes past midnight of a textual clock value, when it parses.
pub open spec fn minutes_of(s: Seq<char>) -> Option<int> {
    match parsed_time(s) {
        Some(hm) => Some(60 * hm.0 + hm.1),
        None => None,
    }
}

/// Interpret a string as a time of day in 24-hour `HH:MM` form.
///
/// Malformed or out-of-range entries yield `None`, so a caller can drop them
/// and keep going; nothing here fails the surrounding computation.
pub fn parse_time(s: &str) -> (r: Option<(u8, u8)>)
    ensures
        r == parsed_time(s@),
{
    let n = s.unicode_len();
    if n != 5 {
        return None;
    }
    let c0 = s.get_char(0);
    let c1 = s.get_char(1);
    let c2 = s.get_char(2);
    let c3 = s.get_char(3);
    let c4 = s.get_char(4);
    if c2 != ':' {
        return None;
    }
    let u0 = c0 as u32;
    let u1 = c1 as u32;
    let u3 = c3 as u32;
    let u4 = c4 as u32;
    if u0 < 48 || u0 > 57 || u1 < 48 || u1 > 57 || u3 < 48 || u3 > 57 || u4 < 48 || u4 > 57 {
        return None;
    }
    let h = (10 * (u0 - 48) + (u1 - 48)) as u8;
    let m = (10 * (u3 - 48) + (u4 - 48)) as u8;
    if h < 24 && m < 60 {
        Some((h, m))
    } else {
        None
    }
}

/// The one-character string holding a given decimal digit.
fn digit_str(d: u8) -> (r: &'static str)
    requires
        d < 10,
    ensures
        r@ =~= seq![digit_char(d as int)],
{
    proof {
        reveal_strlit("0");
        reveal_strlit("1");
        reveal_strlit("2");
        reveal_strlit("3");
        reveal_strlit("4");
        reveal_strlit("5");
        reveal_strlit("6");
        reveal_strlit("7");
        reveal_strlit("8");
        reveal_strlit("9");
    }
    match d {
        0 => "0",
        1 => "1",
        2 => "2",
        3 => "3",
        4 => "4",
        5 => "5",
        6 => "6",
        7 => "7",
        8 => "8",
        _ => "9",
    }
}

/// Append a value below 100 as exactly two decimal digits.
pub(crate) fn push_two_digits(out: &mut String, v: u8)
    requires
        v < 100,
    ensures
        final(out)@ == old(out)@ + two_digit_chars(v as int),
{
    out.append(digit_str(v / 10));
    out.append(digit_str(v % 10));
    proof {
        assert(out@ =~= old(out)@ + two_digit_chars(v as int));
    }
}

/// Format a time of day as zero-padded `HH:MM`.
pub fn format_time(h: u8, m: u8) -> (r: String)
    requires
        h < 100,
        m < 60,
    ensures
        r@ == time_chars(h as int, m as int),
{
    let mut r = String::new();
    push_two_digits(&mut r, h);
    r.append(":");
    push_two_digits(&mut r, m);
    proof {
        reveal_strlit(":");
        assert(r@ =~= time_chars(h as int, m as int));
    }
    r
}

/// A digit character carries back its own value.
proof fn lemma_digit_char_val(d: int)
    requires
        0 <= d < 10,
    ensures
        is_digit(digit_char(d)),
        digit_val(digit_char(d)) == d,
{
}

/// A digit value builds back its own character.
proof fn lemma_digit_val_char(c: char)
    requires
        is_digit(c),
    ensures
        digit_char(digit_val(c)) == c,
{
    assert(digit_char(digit_val(c)) as u32 == c as u32);
    assert(digit_char(digit_val(c)) == c);
}

/// Formatting a valid time of day and parsing the result gives back the same
/// hour and minute pair.
pub proof fn lemma_format_then_parse(h: u8, m: u8)
    requires
        h < 24,
        m < 60,
    ensures
        parsed_time(time_chars(h as int, m as int)) == Some((h, m)),
{
    let s = time_chars(h as int, m as int);
    lemma_digit_char_val(h as int / 10);
    lemma_digit_char_val(h as int % 10);
    lemma_digit_char_val(m as int / 10);
    lemma_digit_char_val(m as int % 10);
    assert(s[0] == digit_char(h as int / 10));
    assert(s[1] == digit_char(h as int % 10));
    assert(s[2] == ':');
    assert(s[3] == digit_char(m as int / 10));
    assert(s[4] == digit_char(m as int % 10));
}

/// Parsing a valid `HH:MM` string and formatting the pair again gives back
/// the very same string: the textual form of a valid time is unique.
pub proof fn lemma_parse_then_format(s: Seq<char>, h: u8, m: u8)
    requires
        parsed_time(s) == Some((h, m)),
    ensures
        time_chars(h as int, m as int) == s,
{
    lemma_digit_val_char(s[0]);
    lemma_digit_val_char(s[1]);
    lemma_digit_val_char(s[3]);
    lemma_digit_val_char(s[4]);
    assert(h as int == 10 * digit_val(s[0]) + digit_val(s[1]));
    assert(h as int / 10 == digit_val(s[0]));
    assert(h as int % 10 == digit_val(s[1]));
    assert(m as int / 10 == digit_val(s[3]));
    assert(m as int % 10 == digit_val(s[4]));
    assert(time_chars(h as int, m as int) =~= s);
}

} // verus!
