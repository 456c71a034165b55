//! The clock, and what comes by chance.
use vstd::prelude::*;
use crate::dates;
use crate::dates::Date;
use crate::quota::Moment;
use crate::text;

verus! {

/// A moment that a clock can show.
pub open spec fn shown(m: Moment) -> bool {
    m.valid() && 1969 <= m.date.year
}

/// Calls `chrono::Local::now`, and takes the fields of its `naive_local`. These are
/// those of a moment of the calendar, in 1969 or later, as the clock counts from the
/// beginning of 1970 in universal time; which one is not said. The calls give up where
/// the clock of the machine stands before 1970, or past the last year.
#[verifier::external_body]
fn read_local() -> (r: Moment)
    ensures
        shown(r),
{
    let t = chrono::Local::now().naive_local();
    Moment {
        date: Date {
            year: chrono::Datelike::year(&t),
            month: chrono::Datelike::month(&t),
            day: chrono::Datelike::day(&t),
        },
        hour: chrono::Timelike::hour(&t),
        minute: chrono::Timelike::minute(&t),
        second: chrono::Timelike::second(&t),
    }
}

/// Calls `chrono::Utc::now`, and takes the fields of the result. These are those of a
/// moment of the calendar, in 1970 or later; which one is not said. The call gives up
/// where the clock of the machine stands before 1970, or past the last year.
#[verifier::external_body]
fn read_utc() -> (r: Moment)
    ensures
        shown(r),
        1970 <= r.date.year,
{
    let t = chrono::Utc::now();
    Moment {
        date: Date {
            year: chrono::Datelike::year(&t),
            month: chrono::Datelike::month(&t),
            day: chrono::Datelike::day(&t),
        },
        hour: chrono::Timelike::hour(&t),
        minute: chrono::Timelike::minute(&t),
        second: chrono::Timelike::second(&t),
    }
}

/// Calls `timestamp_nanos_opt` of `chrono::Utc::now`: the nanoseconds since 1970, if
/// they can be counted. Nothing is said of them.
#[verifier::external_body]
fn read_nanos() -> Option<i64> {
    chrono::Utc::now().timestamp_nanos_opt()
}

/// Calls `getrandom::getrandom` for eight bytes, and reads them as a number. Nothing
/// is said of it, nor of when the call fails.
#[verifier::external_body]
fn read_random() -> Result<u64, String> {
    let mut bytes = [0u8; 8];
    match getrandom::getrandom(&mut bytes) {
        Ok(()) => Ok(u64::from_le_bytes(bytes)),
        Err(e) => Err(e.to_string()),
    }
}

/// Calls `uuid::Uuid::new_v4`, and writes the result in its form with hyphens, which
/// has 36 characters. The call gives up where the machine has no random bytes to give.
#[verifier::external_body]
fn read_uuid() -> (r: String)
    ensures
        r@.len() == 36,
{
    uuid::Uuid::new_v4().to_string()
}

/// The moment that the clock shows here.
pub fn local_now() -> (r: Moment)
    ensures
        shown(r),
{
    read_local()
}

/// The moment that the clock shows in the universal time.
pub fn utc_now() -> (r: Moment)
    ensures
        shown(r),
        1970 <= r.date.year,
{
    read_utc()
}

/// The nanoseconds since 1970, or 0 where they cannot be counted.
pub(crate) fn nanos() -> i64 {
    match read_nanos() {
        Some(n) => n,
        None => 0,
    }
}

/// A random number, or why there is none.
pub(crate) fn random() -> Result<u64, String> {
    read_random()
}

/// A random id.
pub fn fresh_id() -> (r: String)
    ensures
        r@.len() == 36,
{
    read_uuid()
}

/// The id of a thing: the given one, or else a fresh one.
pub fn given_id(given: Option<String>) -> (r: String)
    ensures
        match given {
            Some(s) => r == s,
            None => r@.len() == 36,
        },
{
    match given {
        Some(s) => s,
        None => fresh_id(),
    }
}

/// The id of a new message.
pub fn message_id() -> (r: String)
    ensures
        text::begins(r@, "a2a_"@),
        r@.len() == "a2a_"@.len() + 36,
{
    let id = fresh_id();
    let r = text::cat("a2a_", id.as_str());
    assert(r@.take("a2a_"@.len() as int) =~= "a2a_"@);
    r
}

/// A moment as a date and a time with a `T` between.
pub open spec fn stamp_text(m: Moment) -> Seq<char> {
    dates::iso_date(m.date) + "T"@ + dates::padded(m.hour as nat, 2) + ":"@ + dates::padded(
        m.minute as nat,
        2,
    ) + ":"@ + dates::padded(m.second as nat, 2)
}

/// Writes a moment as `YYYY-MM-DDTHH:MM:SS`.
pub fn fmt_moment(m: Moment) -> (r: String)
    requires
        m.valid(),
    ensures
        r@ == stamp_text(m),
{
    let mut s = dates::fmt_date(m.date);
    s.append("T");
    s.append(dates::pad(m.hour as u64, 2).as_str());
    s.append(":");
    s.append(dates::pad(m.minute as u64, 2).as_str());
    s.append(":");
    s.append(dates::pad(m.second as u64, 2).as_str());
    s
}

/// A moment is written with its date first and then its time, each part in its place.
pub proof fn law_moments_are_written_in_order(m: Moment)
    requires
        m.valid(),
        m.date.year <= 9999,
    ensures
        stamp_text(m).len() == 19,
        stamp_text(m).subrange(0, 10) == dates::iso_date(m.date),
        stamp_text(m)[10] == 'T',
        stamp_text(m).subrange(11, 13) == dates::padded(m.hour as nat, 2),
        stamp_text(m)[13] == ':',
        stamp_text(m).subrange(14, 16) == dates::padded(m.minute as nat, 2),
        stamp_text(m)[16] == ':',
        stamp_text(m).subrange(17, 19) == dates::padded(m.second as nat, 2),
{
    dates::law_dates_are_written_out(m.date);
    dates::law_two_digits_are_told_apart(m.hour as nat, 0);
    dates::law_two_digits_are_told_apart(m.minute as nat, 0);
    dates::law_two_digits_are_told_apart(m.second as nat, 0);
    reveal_strlit("T");
    reveal_strlit(":");
    let s = stamp_text(m);
    assert(s.subrange(0, 10) =~= dates::iso_date(m.date));
    assert(s.subrange(11, 13) =~= dates::padded(m.hour as nat, 2));
    assert(s.subrange(14, 16) =~= dates::padded(m.minute as nat, 2));
    assert(s.subrange(17, 19) =~= dates::padded(m.second as nat, 2));
}

} // verus!
