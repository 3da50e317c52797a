//! The cache record: a first line holding a `DD/MM/YY` date stamp, a newline,
//! and then the serialized schedule. This module builds and splits that text
//! and decides staleness; reading and writing the file itself is the caller's
//! input/output, kept outside the library.

use vstd::prelude::*;

use crate::clock::local_today;
use crate::text::{find_char, lemma_find_char, trim_str, trimmed};
use crate::timeofday::{digit_char, two_digit_chars};

verus! {

/// A calendar date written as zero-padded `DD/MM/YY`.
pub open spec fn date_chars(d: int, mo: int, yy: int) -> Seq<char> {
    two_digit_chars(d) + seq!['/'] + two_digit_chars(mo) + seq!['/'] + two_digit_chars(yy)
}

/// Format a date stamp as zero-padded `DD/MM/YY`; the year is already
/// reduced to its last two digits.
pub fn format_date(day: u8, month: u8, yy: u8) -> (r: String)
    requires
        day < 100,
        month < 100,
        yy < 100,
    ensures
        r@ == date_chars(day as int, month as int, yy as int),
{
    let mut r = format_two(day);
    r.append("/");
    let mo = format_two(month);
    r.append(mo.as_str());
    r.append("/");
    let y = format_two(yy);
    r.append(y.as_str());
    proof {
        reveal_strlit("/");
        assert(r@ =~= date_chars(day as int, month as int, yy as int));
    }
    r
}

/// A value below 100 as exactly two decimal digits.
fn format_two(v: u8) -> (r: String)
    requires
        v < 100,
    ensures
        r@ == two_digit_chars(v as int),
{
    let mut r = String::new();
    crate::timeofday::push_two_digits(&mut r, v);
    proof {
        assert(r@ =~= two_digit_chars(v as int));
    }
    r
}

/// The last two digits of a year number, for any year the clock can hand
/// out: the remainder of the year by 100, counted so that it never goes
/// negative.
fn year_two_digits(y: i32) -> (r: u8)
    ensures
        r < 100,
        r as int == (y as int) % 100,
{
    if y >= 0 {
        ((y as u32) % 100) as u8
    } else {
        let p: i64 = -(y as i64) - 1;
        let pu: u64 = p as u64;
        let r = (99 - (pu % 100) as u8) as u8;
        proof {
            let q = pu as int;
            assert(y as int == -q - 1);
            assert((-q - 1) % 100 == 99 - (q % 100)) by (nonlinear_arith)
                requires
                    q >= 0,
            ;
        }
        r
    }
}

/// Today's date stamp, `DD/MM/YY`, taken from the local clock. Whatever
/// moment the clock reports, the result is some valid date stamp.
pub fn today_stamp() -> (r: String)
    ensures
        exists|d: int, mo: int, yy: int|
            1 <= d <= 31 && 1 <= mo <= 12 && 0 <= yy < 100 && r@ == #[trigger] date_chars(
                d,
                mo,
                yy,
            ),
{
    let (d, mo, y) = local_today();
    let yy = year_two_digits(y);
    let r = format_date(d, mo, yy);
    proof {
        assert(r@ == date_chars(d as int, mo as int, yy as int));
    }
    r
}

/// The persisted form: the date stamp, a newline, then the schedule text.
pub open spec fn cache_content_chars(stamp: Seq<char>, body: Seq<char>) -> Seq<char> {
    stamp + seq!['\n'] + body
}

/// Build the text that a refresh writes to the cache file: the date stamp
/// line followed by the serialized schedule.
pub fn make_cache_content(stamp: &str, body: &str) -> (r: String)
    ensures
        r@ == cache_content_chars(stamp@, body@),
{
    let mut r = stamp.to_owned();
    r.append("\n");
    r.append(body);
    proof {
        reveal_strlit("\n");
        assert(r@ =~= cache_content_chars(stamp@, body@));
    }
    r
}

/// The first line of the cache file: everything before the first newline,
/// or the whole text when it has none.
pub open spec fn first_line_chars(s: Seq<char>) -> Seq<char> {
    match find_char(s, '\n') {
        Some(i) => s.take(i),
        None => s,
    }
}

/// What remains after the date stamp line: everything past the first
/// newline, or nothing when the text has none.
pub open spec fn rest_chars(s: Seq<char>) -> Seq<char> {
    match find_char(s, '\n') {
        Some(i) => s.skip(i + 1),
        None => Seq::<char>::empty(),
    }
}

/// The date stamp line of a cache file's text.
pub fn cache_stamp(content: &str) -> (r: String)
    ensures
        r@ == first_line_chars(content@),
{
    proof {
        lemma_find_char(content@, '\n');
    }
    match crate::text::find_char_str(content, '\n') {
        Some(i) => {
            let r = content.substring_char(0, i).to_owned();
            proof {
                assert(content@.subrange(0, i as int) =~= content@.take(i as int));
            }
            r
        },
        None => content.to_owned(),
    }
}

/// The serialized schedule part of a cache file's text.
pub fn cache_rest(content: &str) -> (r: String)
    ensures
        r@ == rest_chars(content@),
{
    proof {
        lemma_find_char(content@, '\n');
    }
    match crate::text::find_char_str(content, '\n') {
        Some(i) => {
            let n = content.unicode_len();
            let r = content.substring_char(i + 1, n).to_owned();
            proof {
                assert(content@.subrange(i + 1, n as int) =~= content@.skip(i + 1));
            }
            r
        },
        None => String::new(),
    }
}

/// Decide whether the cache needs a refresh: a missing file (no stamp at
/// all) is infinitely stale, and an existing one is stale exactly when its
/// trimmed stamp line differs from today's date stamp.
pub fn is_stale(stamp: Option<&str>, today: &str) -> (r: bool)
    ensures
        match stamp {
            None => r == true,
            Some(line) => r == (trimmed(line@) != today@),
        },
{
    match stamp {
        None => true,
        Some(line) => {
            let t = trim_str(line);
            let td = today.to_owned();
            !string_eq(&t, &td)
        },
    }
}

/// Whether two owned strings hold the same characters.
fn string_eq(a: &String, b: &String) -> (r: bool)
    ensures
        r == (a@ == b@),
{
    a.eq(b)
}

/// No character of a date stamp is a newline or trimmed blank.
proof fn lemma_date_chars_solid(d: int, mo: int, yy: int)
    requires
        0 <= d < 100,
        0 <= mo < 100,
        0 <= yy < 100,
    ensures
        forall|j: int|
            0 <= j < date_chars(d, mo, yy).len() ==> !crate::text::is_blank(
                #[trigger] date_chars(d, mo, yy)[j],
            ),
        date_chars(d, mo, yy).len() == 8,
{
    let s = date_chars(d, mo, yy);
    assert forall|j: int| 0 <= j < s.len() implies !crate::text::is_blank(s[j]) by {
        assert(s.len() == 8);
        if j == 2 || j == 5 {
            assert(s[j] == '/');
        } else {
            let c = s[j];
            assert(c == digit_char(d / 10) || c == digit_char(d % 10) || c == digit_char(mo / 10)
                || c == digit_char(mo % 10) || c == digit_char(yy / 10) || c == digit_char(
                yy % 10,
            ));
        }
    }
}

/// Writing the cache today keeps it fresh for the rest of the day: the first
/// line of the stored text is exactly the date stamp it was stored with, it
/// trims to itself, and so the staleness test on the stored text and the same
/// stamp answers "not stale". A second refresh attempt on the same day
/// therefore finds nothing to do and leaves the file as it is.
pub proof fn lemma_fresh_after_store(d: int, mo: int, yy: int, body: Seq<char>)
    requires
        0 <= d < 100,
        0 <= mo < 100,
        0 <= yy < 100,
    ensures
        trimmed(first_line_chars(cache_content_chars(date_chars(d, mo, yy), body))) == date_chars(
            d,
            mo,
            yy,
        ),
        rest_chars(cache_content_chars(date_chars(d, mo, yy), body)) == body,
{
    let stamp = date_chars(d, mo, yy);
    let content = cache_content_chars(stamp, body);
    lemma_date_chars_solid(d, mo, yy);
    lemma_find_char(content, '\n');
    assert(content[8] == '\n');
    assert forall|j: int| 0 <= j < 8 implies content[j] != '\n' by {
        assert(content[j] == stamp[j]);
    }
    match find_char(content, '\n') {
        Some(i) => {
            assert(i == 8) by {
                if i < 8 {
                    assert(content[i] != '\n');
                }
                if i > 8 {
                    assert(content[8] != '\n');
                }
            }
            assert(content.take(8) =~= stamp);
            assert(content.skip(9) =~= body);
            lemma_trim_solid(stamp);
        },
        None => {
            assert(content[8] == '\n');
        },
    }
}

/// A text with no blank character at either end trims to itself.
proof fn lemma_trim_solid(s: Seq<char>)
    requires
        forall|j: int| 0 <= j < s.len() ==> !crate::text::is_blank(#[trigger] s[j]),
    ensures
        trimmed(s) == s,
{
    if s.len() > 0 {
        assert(!crate::text::is_blank(s[0]));
        assert(!crate::text::is_blank(s.last()));
    }
}

} // verus!
