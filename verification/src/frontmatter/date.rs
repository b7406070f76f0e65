//! The day on which a page's source was last fetched, as `YYYY-MM-DD`.
//!
//! The calendar is the `time` crate's. Which day a moment falls on is not
//! modelled here: the call has a name for its result.

use crate::emit::push_str;
use crate::parse::inline::lit;
use crate::text::{decoded, string_from_bytes, MINUS};
use vstd::prelude::*;
use vstd::string::*;

verus! {

/// The day, in UTC, on which the moment `secs` seconds after the start of
/// 1970 falls: its year, its month from 1 and its day of the month from 1;
/// none where the moment lies outside the calendar.
pub uninterp spec fn utc_day_of(secs: int) -> Option<(int, int, int)>;

pub open spec fn day_view(r: Option<(i32, u8, u8)>) -> Option<(int, int, int)> {
    match r {
        Some((y, m, d)) => Some((y as int, m as int, d as int)),
        None => None,
    }
}

/// `OffsetDateTime::from_unix_timestamp`, and `year`, `month` and `day` of
/// what it gives. The result is a function of the number alone. Nothing is
/// proved of it here.
#[verifier::external_body]
pub(crate) fn utc_day(secs: i64) -> (r: Option<(i32, u8, u8)>)
    ensures
        day_view(r) == utc_day_of(secs as int),
{
    match time::OffsetDateTime::from_unix_timestamp(secs) {
        Ok(t) => Some((t.year(), u8::from(t.month()), t.day())),
        Err(_) => None,
    }
}

/// The last decimal digit of `n`.
pub open spec fn digit(n: int) -> u8 {
    (48 + n % 10) as u8
}

/// The day that stands for a moment of which no day is known.
pub open spec fn no_day() -> Seq<u8> {
    lit("1970-01-01")
}

/// A day as `YYYY-MM-DD`, each part filled up with zeros; the first day of
/// 1970 where there is no day, or where a part does not fit its digits.
pub open spec fn day_text(day: Option<(int, int, int)>) -> Seq<u8> {
    match day {
        Some((y, m, d)) => if 0 <= y <= 9999 && 0 <= m <= 99 && 0 <= d <= 99 {
            seq![
                digit(y / 1000),
                digit(y / 100),
                digit(y / 10),
                digit(y),
                MINUS,
                digit(m / 10),
                digit(m),
                MINUS,
                digit(d / 10),
                digit(d),
            ]
        } else {
            no_day()
        },
        None => no_day(),
    }
}

fn push_digit(out: &mut Vec<u8>, n: u32)
    ensures
        final(out)@ == old(out)@.push(digit(n as int)),
{
    out.push((48 + n % 10) as u8);
}

/// Writes a day as `YYYY-MM-DD`.
pub fn format_day(day: Option<(i32, u8, u8)>) -> (out: Vec<u8>)
    ensures
        out@ == day_text(day_view(day)),
{
    let mut out: Vec<u8> = Vec::new();
    match day {
        Some((y, m, d)) => {
            if 0 <= y && y <= 9999 && m <= 99 && d <= 99 {
                let year: u32 = y as u32;
                let month: u32 = m as u32;
                let dom: u32 = d as u32;
                push_digit(&mut out, year / 1000);
                push_digit(&mut out, year / 100);
                push_digit(&mut out, year / 10);
                push_digit(&mut out, year);
                out.push(MINUS);
                push_digit(&mut out, month / 10);
                push_digit(&mut out, month);
                out.push(MINUS);
                push_digit(&mut out, dom / 10);
                push_digit(&mut out, dom);
                assert(out@ =~= day_text(day_view(day)));
            } else {
                push_str(&mut out, "1970-01-01");
                assert(out@ =~= no_day());
            }
        },
        None => {
            push_str(&mut out, "1970-01-01");
            assert(out@ =~= no_day());
        },
    }
    out
}

/// The day, in UTC, of the moment `secs` seconds after the start of 1970,
/// as `YYYY-MM-DD`.
pub fn date_of_unix_seconds(secs: i64) -> (r: String)
    ensures
        r@ == decoded(day_text(utc_day_of(secs as int))),
{
    let out = format_day(utc_day(secs));
    string_from_bytes(out.as_slice())
}

} // verus!
