//! How recent memories are.
use vstd::prelude::*;
use crate::clock;
use crate::dates;
use crate::dates::Date;
use crate::quota::Moment;
use crate::search::importance;
use crate::search::importance::Scored;
use crate::search::rrf;
use crate::search::rrf::SignalResult;
use crate::text;

verus! {

/// The number of the day that `chrono` reads from a text as a year, a month and a
/// day with hyphens between; none where the text is no such date.
pub uninterp spec fn day_read(s: Seq<char>) -> Option<int>;

/// Reads a date with `chrono::NaiveDate::parse_from_str`, and counts the days from
/// there to another with `NaiveDate::signed_duration_since`. The day that is read is
/// a function of the text; the count is the difference of the numbers of the days,
/// negative where the date that was read lies ahead.
#[verifier::external_body]
fn count_days(s: &str, to: Date) -> (r: Option<i64>)
    requires
        to.valid(),
    ensures
        match r {
            Some(n) => day_read(s@) == Some(dates::day_number(to) - n),
            None => day_read(s@) is None,
        },
{
    let from = chrono::NaiveDate::parse_from_str(s, "%Y-%m-%d").ok()?;
    let end = chrono::NaiveDate::from_ymd_opt(to.year, to.month, to.day)?;
    Some(end.signed_duration_since(from).num_days())
}

/// The days since a moment, by the date in its first ten bytes, if there is one; one
/// that lies ahead counts as today.
pub open spec fn days_since(moment: Option<Seq<char>>, today: Date) -> Option<int> {
    match moment {
        None => None,
        Some(s) => match day_read(text::fitting_prefix(s, 10)) {
            None => None,
            Some(day) => Some(
                if day < dates::day_number(today) {
                    dates::day_number(today) - day
                } else {
                    0
                },
            ),
        },
    }
}

/// How many days before another day a moment was.
pub fn days_before(moment: Option<&str>, today: Date) -> (r: Option<u64>)
    requires
        today.valid(),
    ensures
        match r {
            Some(n) => days_since(text::opt_str(moment), today) == Some(n as int),
            None => days_since(text::opt_str(moment), today) is None,
        },
{
    match moment {
        None => None,
        Some(s) => match count_days(text::take_bytes(s, 10).as_str(), today) {
            None => None,
            Some(n) => Some(clamp_days(n)),
        },
    }
}

/// The days as they count: none are negative.
pub fn clamp_days(n: i64) -> (r: u64)
    ensures
        r == (if n > 0 {
            n as int
        } else {
            0
        }),
{
    if n > 0 {
        n as u64
    } else {
        0
    }
}

/// So many days have passed since a memory was made, 30 where that is not known, and
/// since it was last recalled, the same number where it was not.
pub open spec fn is_recency(
    created: Option<Seq<char>>,
    recalled: Option<Seq<char>>,
    today: Date,
    made: int,
    seen: int,
) -> bool {
    &&& made == (match days_since(created, today) {
        Some(n) => n,
        None => 30,
    })
    &&& seen == (match days_since(recalled, today) {
        Some(n) => n,
        None => made,
    })
}

/// The days since a memory was made, 30 where that is not known, and since it was
/// last recalled, the same number where it was not.
pub fn recency_on(created: Option<&str>, recalled: Option<&str>, today: Date) -> (r: (u64, u64))
    requires
        today.valid(),
    ensures
        is_recency(
            text::opt_str(created),
            text::opt_str(recalled),
            today,
            r.0 as int,
            r.1 as int,
        ),
{
    let made: u64 = match days_before(created, today) {
        Some(n) => n,
        None => 30,
    };
    let seen: u64 = match days_before(recalled, today) {
        Some(n) => n,
        None => made,
    };
    (made, seen)
}

/// The memories by their recency, the most recent first.
pub fn temporal_search(rows: &Vec<Scored>) -> (r: Vec<SignalResult>)
    ensures
        rrf::signal_views(r@) == importance::in_order(rows@, "temporal_recency"@),
{
    importance::put_in_order(rows, "temporal_recency")
}

/// How many days ago a moment was.
pub fn days_ago(moment: Option<&str>) -> (r: Option<u64>)
    ensures
        exists|now: Moment| #[trigger]
            clock::shown(now) && match r {
                Some(n) => days_since(text::opt_str(moment), now.date) == Some(n as int),
                None => days_since(text::opt_str(moment), now.date) is None,
            },
{
    let now = clock::utc_now();
    assert(clock::shown(now));
    days_before(moment, now.date)
}

/// How recent a memory is today.
pub fn recency(created: Option<&str>, recalled: Option<&str>) -> (r: (u64, u64))
    ensures
        exists|now: Moment| #[trigger]
            clock::shown(now) && is_recency(
                text::opt_str(created),
                text::opt_str(recalled),
                now.date,
                r.0 as int,
                r.1 as int,
            ),
{
    let now = clock::utc_now();
    assert(clock::shown(now));
    recency_on(created, recalled, now.date)
}

/// How recent a memory is goes by the day on which it was made and that on which it was last
/// recalled: a day that lies ahead counts as today, a later one as no less recent, and only
/// the first ten bytes of a moment count.
pub proof fn law_recency_goes_by_the_day(
    created: Option<Seq<char>>,
    recalled: Option<Seq<char>>,
    today: Date,
    made: int,
    seen: int,
    a: Seq<char>,
    b: Seq<char>,
)
    requires
        is_recency(created, recalled, today, made, seen),
    ensures
        days_since(created, today) matches Some(n) ==> made == n,
        days_since(created, today) is None ==> made == 30,
        days_since(recalled, today) matches Some(n) ==> seen == n,
        recalled is None ==> seen == made,
        text::fitting_prefix(a, 10) == text::fitting_prefix(b, 10) ==> days_since(Some(a), today)
            == days_since(Some(b), today),
        (day_read(text::fitting_prefix(a, 10)) matches Some(d) && d <= dates::day_number(today))
            ==> days_since(Some(a), today) == Some(
            dates::day_number(today) - day_read(text::fitting_prefix(a, 10))->0,
        ),
        (day_read(text::fitting_prefix(a, 10)) matches Some(d) && d >= dates::day_number(today))
            ==> days_since(Some(a), today) == Some(0int),
{
}

} // verus!
