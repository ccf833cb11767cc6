//! Timestamps of the log lines: UTC date and time to the second, then the
//! milliseconds and a `Z`.
use vstd::prelude::*;
use crate::text::{digit_char, push_char, push_text};

verus! {

/// What chrono writes for the UTC date and time `seconds` after the Unix
/// epoch with the pattern `%Y-%m-%dT%H:%M:%S`; `None` where chrono has no
/// date for that second.
pub uninterp spec fn utc_seconds_text(seconds: i64) -> Option<Seq<char>>;

/// `chrono::DateTime::<Utc>::from_timestamp(seconds, 0)` written with
/// `format("%Y-%m-%dT%H:%M:%S")`: the text is named by [`utc_seconds_text`].
/// chrono has a date for every second from the epoch up to year 262142,
/// so for every second below 2^40.
#[verifier::external_body]
fn utc_date_time(seconds: i64) -> (r: Option<String>)
    ensures
        match r {
            Some(s) => utc_seconds_text(seconds) == Some(s@),
            Option::None => utc_seconds_text(seconds) is None,
        },
        0 <= seconds < 0x100_0000_0000 ==> r is Some,
{
    match chrono::DateTime::<chrono::Utc>::from_timestamp(seconds, 0) {
        Some(dt) => Some(dt.format("%Y-%m-%dT%H:%M:%S").to_string()),
        None => None,
    }
}

/// Milliseconds as three digits, zero-padded.
pub open spec fn millis_text(millis: int) -> Seq<char> {
    seq![digit_char(millis / 100), digit_char((millis / 10) % 10), digit_char(millis % 10)]
}

/// A timestamp from its date-and-time text and milliseconds.
pub open spec fn stamp_text(date: Seq<char>, millis: int) -> Seq<char> {
    date + seq!['.'] + millis_text(millis) + seq!['Z']
}

/// The digit character of `d`.
fn digit(d: u32) -> (c: char)
    requires
        d < 10,
    ensures
        c == digit_char(d as int),
{
    match d {
        0 => '0',
        1 => '1',
        2 => '2',
        3 => '3',
        4 => '4',
        5 => '5',
        6 => '6',
        7 => '7',
        8 => '8',
        _ => '9',
    }
}

/// Log timestamps in UTC with milliseconds, such as
/// `2024-05-01T12:34:56.789Z`.
pub struct FixedMillisUtcTime;

impl FixedMillisUtcTime {
    /// `date` followed by `.`, the milliseconds as three digits and `Z`.
    pub fn stamp_with_millis(date: &str, millis: u32) -> (r: String)
        requires
            millis < 1000,
        ensures
            r@ == stamp_text(date@, millis as int),
    {
        let mut r = String::new();
        push_text(&mut r, date);
        push_char(&mut r, '.');
        push_char(&mut r, digit(millis / 100));
        push_char(&mut r, digit((millis / 10) % 10));
        push_char(&mut r, digit(millis % 10));
        push_char(&mut r, 'Z');
        assert(r@ =~= stamp_text(date@, millis as int));
        r
    }

    /// The timestamp of the instant `seconds` and `millis` after the Unix
    /// epoch; `None` when chrono has no date for that second.
    pub fn format_time(seconds: u64, millis: u32) -> (r: Option<String>)
        requires
            millis < 1000,
        ensures
            seconds < 0x100_0000_0000 ==> r is Some,
            match r {
                Some(s) => seconds <= i64::MAX && exists|d: Seq<char>|
                    utc_seconds_text(seconds as i64) == Some(d) && s@ == stamp_text(d, millis as int),
                Option::None => seconds > i64::MAX || utc_seconds_text(seconds as i64) is None,
            },
    {
        if seconds > i64::MAX as u64 {
            return None;
        }
        match utc_date_time(seconds as i64) {
            Some(date) => Some(FixedMillisUtcTime::stamp_with_millis(date.as_str(), millis)),
            None => None,
        }
    }
}


/// A timestamp is the date and time text, a dot, the milliseconds as three
/// digits that read back as them, and `Z`.
pub proof fn lemma_stamp_shape(date: Seq<char>, millis: int)
    requires
        0 <= millis < 1000,
    ensures
        ({
            let s = stamp_text(date, millis);
            let n = date.len() as int;
            &&& s.len() == n + 5
            &&& s.take(n) == date
            &&& s[n] == '.'
            &&& s.last() == 'Z'
            &&& crate::text::decimal_value(s.subrange(n + 1, n + 4)) == millis
            &&& forall|i: int| n + 1 <= i < n + 4 ==> crate::text::is_digit(#[trigger] s[i])
        }),
{
    let s = stamp_text(date, millis);
    let n = date.len() as int;
    let d = s.subrange(n + 1, n + 4);
    assert(s.take(n) =~= date);
    assert(d =~= millis_text(millis));
    let a = millis / 100;
    let b = (millis / 10) % 10;
    let c = millis % 10;
    assert(0 <= a < 10 && 0 <= b < 10 && 0 <= c < 10);
    crate::text::lemma_digit_value_of(a);
    crate::text::lemma_digit_value_of(b);
    crate::text::lemma_digit_value_of(c);
    assert(d.drop_last().drop_last().drop_last() =~= Seq::<char>::empty());
    assert(d.drop_last().drop_last() =~= seq![digit_char(a)]);
    assert(d.drop_last() =~= seq![digit_char(a), digit_char(b)]);
    let d1 = d.drop_last();
    let d2 = d1.drop_last();
    assert(crate::text::decimal_value(d2.drop_last()) == 0);
    assert(d2.last() == digit_char(a));
    assert(crate::text::decimal_value(d2) == a);
    assert(d1.last() == digit_char(b));
    assert(crate::text::decimal_value(d1) == a * 10 + b);
    assert(d.last() == digit_char(c));
    assert(crate::text::decimal_value(d) == (a * 10 + b) * 10 + c);
    assert(millis == a * 100 + b * 10 + c) by (nonlinear_arith)
        requires
            a == millis / 100,
            b == (millis / 10) % 10,
            c == millis % 10,
            0 <= millis < 1000,
    ;
}

} // verus!
