//! Calendar dates.
use vstd::prelude::*;
use crate::text;

verus! {

/// A date of the Gregorian calendar.
#[derive(Debug, Clone, Copy, PartialEq, Eq, Structural)]
pub struct Date {
    pub year: i32,
    pub month: u32,
    pub day: u32,
}

pub open spec fn leap_year(y: int) -> bool {
    y % 4 == 0 && (y % 100 != 0 || y % 400 == 0)
}

pub open spec fn days_in_month(y: int, m: int) -> int {
    if m == 2 {
        if leap_year(y) {
            29
        } else {
            28
        }
    } else if m == 4 || m == 6 || m == 9 || m == 11 {
        30
    } else {
        31
    }
}

/// The last year whose days `chrono` holds.
pub const LAST_YEAR: i32 = 262142;

impl Date {
    /// The date exists, in the first year or later.
    pub open spec fn on_calendar(self) -> bool {
        &&& 1 <= self.year
        &&& 1 <= self.month <= 12
        &&& 1 <= self.day <= days_in_month(self.year as int, self.month as int)
    }

    /// The date exists, and its year is no later than the last one.
    pub open spec fn valid(self) -> bool {
        self.on_calendar() && self.year <= LAST_YEAR
    }
}

/// The days of the years up to and with `y`, from the first on.
pub open spec fn days_of_years(y: int) -> int {
    365 * y + y / 4 - y / 100 + y / 400
}

/// The days of a year before its month `m`.
pub open spec fn days_before_month(y: int, m: int) -> int
    decreases m,
{
    if m <= 1 {
        0
    } else {
        days_before_month(y, m - 1) + days_in_month(y, m - 1)
    }
}

/// The number of a day: the first day of the first year has the number 1.
pub open spec fn day_number(d: Date) -> int {
    days_of_years(d.year - 1) + days_before_month(d.year as int, d.month as int) + d.day
}

/// The day of the week of a date: 0 for Monday to 6 for Sunday. The first day of
/// the first year was a Monday.
pub open spec fn weekday_of(d: Date) -> int {
    (day_number(d) - 1) % 7
}

/// The date `n` days after `d`.
pub open spec fn days_after(d: Date, n: int) -> Date {
    choose|r: Date| r.on_calendar() && #[trigger] day_number(r) == day_number(d) + n
}

/// The Thursday of the week of a date.
pub open spec fn thursday_of(d: Date) -> Date {
    days_after(d, 3 - weekday_of(d))
}

/// The ISO 8601 year and week of a date: the year of the Thursday of its week, and
/// how many Thursdays of that year have come with it.
pub open spec fn iso_week_of(d: Date) -> (int, int) {
    let t = thursday_of(d);
    let first = Date { year: t.year, month: 1, day: 1 };
    (t.year as int, (day_number(t) - day_number(first)) / 7 + 1)
}

proof fn lemma_month_days(y: int, m: int)
    requires
        1 <= m <= 12,
    ensures
        days_before_month(y, 1) == 0,
        days_before_month(y, m) >= 0,
        days_before_month(y, m) + days_in_month(y, m) <= (if leap_year(y) {
            366int
        } else {
            365
        }),
{
    reveal_with_fuel(days_before_month, 13);
}

proof fn lemma_months_in_order(y: int, m: int, n: int)
    requires
        1 <= m < n <= 12,
    ensures
        days_before_month(y, m) + days_in_month(y, m) <= days_before_month(y, n),
    decreases n,
{
    if m < n - 1 {
        lemma_months_in_order(y, m, n - 1);
    }
}

proof fn lemma_in_order(a: Date, b: Date)
    requires
        a.on_calendar(),
        b.on_calendar(),
        a.year < b.year || (a.year == b.year && a.month < b.month) || (a.year == b.year && a.month
            == b.month && a.day < b.day),
    ensures
        day_number(a) < day_number(b),
{
    lemma_month_days(a.year as int, a.month as int);
    lemma_month_days(b.year as int, b.month as int);
    if a.year < b.year {
        let y = a.year as int;
        let z = b.year - 1;
        assert(days_of_years(y) - days_of_years(y - 1) == (if leap_year(y) {
            366int
        } else {
            365
        }));
        assert(z / 4 - z / 100 >= y / 4 - y / 100);
        assert(days_of_years(z) >= days_of_years(y));
    } else if a.month < b.month {
        lemma_months_in_order(a.year as int, a.month as int, b.month as int);
    }
}

/// A day of a later year has a larger number.
pub proof fn law_later_years_come_later(a: Date, b: Date)
    requires
        a.on_calendar(),
        b.on_calendar(),
        a.year < b.year,
    ensures
        day_number(a) < day_number(b),
{
    lemma_in_order(a, b);
}

/// Each day has a number of its own.
pub proof fn law_days_are_numbered_once(a: Date, b: Date)
    requires
        a.on_calendar(),
        b.on_calendar(),
        day_number(a) == day_number(b),
    ensures
        a == b,
{
    if a != b {
        if a.year < b.year || (a.year == b.year && a.month < b.month) || (a.year == b.year
            && a.month == b.month && a.day < b.day) {
            lemma_in_order(a, b);
        } else {
            lemma_in_order(b, a);
        }
    }
}

/// The day after a date.
spec fn next_day(d: Date) -> Date {
    if d.day < days_in_month(d.year as int, d.month as int) {
        Date { day: (d.day + 1) as u32, ..d }
    } else if d.month < 12 {
        Date { month: (d.month + 1) as u32, day: 1, ..d }
    } else {
        Date { year: (d.year + 1) as i32, month: 1, day: 1 }
    }
}

proof fn lemma_next_day(d: Date)
    requires
        d.on_calendar(),
        d.year <= LAST_YEAR + 1,
    ensures
        next_day(d).on_calendar(),
        day_number(next_day(d)) == day_number(d) + 1,
{
    let y = d.year as int;
    if d.day == days_in_month(y, d.month as int) && d.month == 12 {
        reveal_with_fuel(days_before_month, 13);
        assert(days_of_years(y) - days_of_years(y - 1) == (if leap_year(y) {
            366int
        } else {
            365
        }));
    }
}

/// Every number from 1 on is that of a day, up to the end of the year behind the last
/// one.
pub proof fn law_every_number_is_a_day(n: int)
    requires
        1 <= n <= days_of_years(LAST_YEAR + 1),
    ensures
        exists|r: Date| r.on_calendar() && r.year <= LAST_YEAR + 1 && #[trigger] day_number(r) == n,
    decreases n,
{
    if n == 1 {
        let first = Date { year: 1, month: 1, day: 1 };
        assert(first.on_calendar() && day_number(first) == 1);
    } else {
        law_every_number_is_a_day(n - 1);
        let p = choose|r: Date|
            r.on_calendar() && r.year <= LAST_YEAR + 1 && #[trigger] day_number(r) == n - 1;
        lemma_next_day(p);
        let q = next_day(p);
        assert(day_number(q) == n);
        if q.year > LAST_YEAR + 1 {
            lemma_month_days(q.year as int, q.month as int);
            assert(day_number(q) > days_of_years(LAST_YEAR + 1));
        }
    }
}

proof fn lemma_year_numbers(d: Date)
    requires
        d.on_calendar(),
    ensures
        days_of_years(d.year - 1) < day_number(d) <= days_of_years(d.year as int),
{
    let y = d.year as int;
    lemma_month_days(y, d.month as int);
    assert(days_of_years(y) - days_of_years(y - 1) == (if leap_year(y) {
        366int
    } else {
        365
    }));
}

proof fn lemma_year_starts(y: int, z: int)
    requires
        1 <= y < z,
    ensures
        days_of_years(y) + 365 <= days_of_years(z),
{
    assert(z / 4 - z / 100 >= y / 4 - y / 100);
}

/// The date up to a year after or before another one exists, and lies in its year or in
/// one beside it.
pub proof fn law_days_are_added(d: Date, n: int)
    requires
        d.valid(),
        2 <= d.year,
        -365 <= n <= 365,
    ensures
        days_after(d, n).on_calendar(),
        day_number(days_after(d, n)) == day_number(d) + n,
        d.year - 1 <= days_after(d, n).year <= d.year + 1,
{
    let y = d.year as int;
    lemma_year_numbers(d);
    assert(day_number(d) + n >= 1);
    assert(days_of_years(LAST_YEAR + 1) - days_of_years(LAST_YEAR as int) == 365);
    if y < LAST_YEAR {
        lemma_year_starts(y, LAST_YEAR as int);
    }
    law_every_number_is_a_day(day_number(d) + n);
    let r = choose|r: Date|
        r.on_calendar() && r.year <= LAST_YEAR + 1 && #[trigger] day_number(r) == day_number(d) + n;
    law_days_are_numbered_once(r, days_after(d, n));
    lemma_year_numbers(r);
    if r.year > d.year + 1 {
        lemma_year_starts(d.year as int, r.year - 1);
    } else if r.year < d.year - 1 {
        lemma_year_starts(r.year as int, d.year - 1);
    }
}

/// One ISO week comes before another, or is the same.
pub open spec fn week_le(a: (int, int), b: (int, int)) -> bool {
    a.0 < b.0 || (a.0 == b.0 && a.1 <= b.1)
}

pub proof fn lemma_iso_week(d: Date)
    requires
        d.valid(),
        2 <= d.year,
    ensures
        thursday_of(d).on_calendar(),
        day_number(thursday_of(d)) == day_number(d) + 3 - weekday_of(d),
        1 <= iso_week_of(d).0,
        1 <= iso_week_of(d).1 <= 53,
{
    law_days_are_added(d, 3 - weekday_of(d));
    let t = thursday_of(d);
    lemma_month_days(t.year as int, t.month as int);
}

proof fn lemma_thursdays(a: int, b: int)
    ensures
        a <= b ==> a + 3 - (a - 1) % 7 <= b + 3 - (b - 1) % 7,
        a + 7 <= b ==> a + 3 - (a - 1) % 7 + 7 <= b + 3 - (b - 1) % 7,
{
}

proof fn lemma_week_numbers(s: int, t: int, first: int)
    ensures
        s <= t ==> (s - first) / 7 <= (t - first) / 7,
        s + 7 <= t ==> (s - first) / 7 < (t - first) / 7,
{
}

/// The weeks of dates come in the order of the dates; from one date to another that
/// lies a week or more ahead, the week changes.
pub proof fn law_weeks_are_in_order(a: Date, b: Date)
    requires
        a.valid(),
        b.valid(),
        2 <= a.year,
        2 <= b.year,
    ensures
        day_number(a) <= day_number(b) ==> week_le(iso_week_of(a), iso_week_of(b)),
        day_number(a) + 7 <= day_number(b) ==> !week_le(iso_week_of(b), iso_week_of(a)),
{
    lemma_iso_week(a);
    lemma_iso_week(b);
    let s = thursday_of(a);
    let t = thursday_of(b);
    lemma_thursdays(day_number(a), day_number(b));
    if day_number(a) <= day_number(b) {
        if t.year < s.year {
            lemma_in_order(t, s);
        }
        let first = Date { year: s.year, month: 1, day: 1 };
        lemma_week_numbers(day_number(s), day_number(t), day_number(first));
    }
}

/// Calls `Datelike::weekday` of `chrono::NaiveDate`, and counts from Monday.
#[verifier::external_body]
pub(crate) fn weekday(d: Date) -> (r: u32)
    requires
        d.valid(),
    ensures
        r == weekday_of(d),
{
    let date = chrono::NaiveDate::from_ymd_opt(d.year, d.month, d.day).unwrap_or_default();
    chrono::Datelike::weekday(&date).num_days_from_monday()
}

/// Adds days to a `chrono::NaiveDate`, with its `+` for a `chrono::Duration`.
/// The result is the date of the calendar that lies so many days on. It is in the
/// same year or one beside it, as no year has less than 365 days. Sums that `chrono`
/// cannot hold are left out.
#[verifier::external_body]
fn plus_days(d: Date, n: i32) -> (r: Date)
    requires
        d.valid(),
        2 <= d.year,
        d.year < LAST_YEAR || n <= 0,
        -365 <= n <= 365,
    ensures
        r.valid(),
        day_number(r) == day_number(d) + n,
        d.year - 1 <= r.year <= d.year + 1,
{
    let date = chrono::NaiveDate::from_ymd_opt(d.year, d.month, d.day).unwrap_or_default();
    let sum = date + chrono::Duration::days(n as i64);
    Date {
        year: chrono::Datelike::year(&sum),
        month: chrono::Datelike::month(&sum),
        day: chrono::Datelike::day(&sum),
    }
}

/// The date `n` days after `d`.
pub fn add_days(d: Date, n: i32) -> (r: Date)
    requires
        d.valid(),
        2 <= d.year,
        d.year < LAST_YEAR || n <= 0,
        -365 <= n <= 365,
    ensures
        r == days_after(d, n as int),
        r.valid(),
        day_number(r) == day_number(d) + n,
        d.year - 1 <= r.year <= d.year + 1,
{
    let r = plus_days(d, n);
    proof {
        law_days_are_numbered_once(r, days_after(d, n as int));
    }
    r
}

/// Calls `Datelike::iso_week` of `chrono::NaiveDate`: the year of the week and its
/// number in it. The week is between 1 and 53, and its year the year of the date
/// or one beside it.
#[verifier::external_body]
fn iso_week(d: Date) -> (r: (i32, u32))
    requires
        d.valid(),
    ensures
        (r.0 as int, r.1 as int) == iso_week_of(d),
        d.year - 1 <= r.0 <= d.year + 1,
        1 <= r.1 <= 53,
{
    let date = chrono::NaiveDate::from_ymd_opt(d.year, d.month, d.day).unwrap_or_default();
    let week = chrono::Datelike::iso_week(&date);
    (week.year(), week.week())
}

/// `n` in decimal notation, with zeros in front up to the given width.
pub open spec fn padded(n: nat, width: nat) -> Seq<char> {
    let d = text::dec(n);
    if d.len() >= width {
        d
    } else {
        Seq::new((width - d.len()) as nat, |i: int| '0') + d
    }
}

/// `n` in decimal notation, with zeros in front up to the given width.
pub fn pad(n: u64, width: usize) -> (r: String)
    ensures
        r@ == padded(n as nat, width as nat),
{
    let d = text::decimal(n);
    let len = text::chars_of(d.as_str()).len();
    let mut s = String::new();
    if len < width {
        let mut i: usize = 0;
        while i < width - len
            invariant
                len < width,
                i <= width - len,
                s@ == Seq::new(i as nat, |k: int| '0'),
            decreases width - len - i,
        {
            s.push('0');
            i += 1;
            assert(s@ =~= Seq::new(i as nat, |k: int| '0'));
        }
    }
    s.append(d.as_str());
    proof {
        if len >= width {
            assert(s@ =~= d@);
        }
    }
    s
}

/// A year in decimal notation: with four digits, or behind a plus sign where it has
/// more.
pub open spec fn year_text(y: int) -> Seq<char> {
    if y <= 9999 {
        padded(y as nat, 4)
    } else {
        "+"@ + text::dec(y as nat)
    }
}

/// Writes a year.
pub fn fmt_year(y: i32) -> (r: String)
    requires
        0 <= y,
    ensures
        r@ == year_text(y as int),
{
    if y <= 9999 {
        pad(y as u64, 4)
    } else {
        text::cat("+", text::decimal(y as u64).as_str())
    }
}

/// A date as year, month and day with hyphens between.
pub open spec fn iso_date(d: Date) -> Seq<char> {
    year_text(d.year as int) + "-"@ + padded(d.month as nat, 2) + "-"@ + padded(d.day as nat, 2)
}

/// A date as `YYYY-MM-DD`.
pub fn fmt_date(d: Date) -> (r: String)
    requires
        d.valid(),
    ensures
        r@ == iso_date(d),
{
    let mut s = fmt_year(d.year);
    s.append("-");
    s.append(pad(d.month as u64, 2).as_str());
    s.append("-");
    s.append(pad(d.day as u64, 2).as_str());
    s
}

/// The Monday of the week of `d`.
pub open spec fn monday_of(d: Date) -> Date {
    days_after(d, -weekday_of(d))
}

/// The Monday of the week of `d`.
pub fn start_of_week(d: Date) -> (r: Date)
    requires
        d.valid(),
        2 <= d.year,
    ensures
        r == monday_of(d),
        r.valid(),
        d.year - 1 <= r.year <= d.year,
        weekday_of(r) == 0,
{
    let w = weekday(d);
    let r = add_days(d, -(w as i32));
    proof {
        if r.year > d.year {
            law_later_years_come_later(d, r);
        }
    }
    r
}

/// The first day of the month of `d`.
pub open spec fn month_start(d: Date) -> Date {
    Date { day: 1, ..d }
}

/// The first day of the month of `d`.
pub fn first_of_month(d: Date) -> (r: Date)
    requires
        d.valid(),
    ensures
        r == month_start(d),
        r.valid(),
{
    Date { year: d.year, month: d.month, day: 1 }
}

/// The first day of the month before that of `d`.
pub open spec fn month_before(d: Date) -> Date {
    if d.month == 1 {
        Date { year: (d.year - 1) as i32, month: 12, day: 1 }
    } else {
        Date { year: d.year, month: (d.month - 1) as u32, day: 1 }
    }
}

/// The first day of the month before that of `d`.
pub fn prev_month(d: Date) -> (r: Date)
    requires
        d.valid(),
        d.year >= 2,
    ensures
        r == month_before(d),
        r.valid(),
{
    if d.month == 1 {
        Date { year: d.year - 1, month: 12, day: 1 }
    } else {
        Date { year: d.year, month: d.month - 1, day: 1 }
    }
}

/// The first day of the month after that of `d`.
pub open spec fn month_after(d: Date) -> Date {
    if d.month == 12 {
        Date { year: (d.year + 1) as i32, month: 1, day: 1 }
    } else {
        Date { year: d.year, month: (d.month + 1) as u32, day: 1 }
    }
}

/// The first day of the month after that of `d`.
pub fn next_month(d: Date) -> (r: Date)
    requires
        d.valid(),
        d.year < LAST_YEAR,
    ensures
        r == month_after(d),
        r.valid(),
{
    if d.month == 12 {
        Date { year: d.year + 1, month: 1, day: 1 }
    } else {
        Date { year: d.year, month: d.month + 1, day: 1 }
    }
}

/// The label of the ISO week of `d`, such as `2026W27`.
pub open spec fn week_label_of(d: Date) -> Seq<char> {
    year_text(iso_week_of(d).0) + "W"@ + padded(iso_week_of(d).1 as nat, 2)
}

/// The label of the ISO week of `d`, such as `2026W27`.
pub fn week_label(d: Date) -> (r: String)
    requires
        d.valid(),
        d.year >= 2,
    ensures
        r@ == week_label_of(d),
{
    let (y, w) = iso_week(d);
    let mut s = fmt_year(y);
    s.append("W");
    s.append(pad(w as u64, 2).as_str());
    s
}

proof fn lemma_two_digits(n: nat, m: nat)
    requires
        n < 100,
        m < 100,
    ensures
        padded(n, 2) == seq![text::digit_char(n / 10), text::digit_char(n % 10)],
        text::sorted_le(padded(n, 2), padded(m, 2)) <==> n <= m,
        padded(n, 2) == padded(m, 2) ==> n == m,
{
    reveal_with_fuel(text::dec, 3);
    assert(padded(n, 2) =~= seq![text::digit_char(n / 10), text::digit_char(n % 10)]);
    assert(padded(m, 2) =~= seq![text::digit_char(m / 10), text::digit_char(m % 10)]);
    reveal_with_fuel(text::sorted_le, 3);
    let s = padded(n, 2);
    let t = padded(m, 2);
    assert(s[0] == text::digit_char(n / 10) && s[1] == text::digit_char(n % 10));
    assert(t[0] == text::digit_char(m / 10) && t[1] == text::digit_char(m % 10));
    assert(s.skip(1)[0] == s[1] && t.skip(1)[0] == t[1]);
    assert(s.skip(1).skip(1).len() == 0);
}

proof fn lemma_four_digits(n: nat)
    requires
        n < 10000,
    ensures
        padded(n, 4) == padded(n / 100, 2) + padded(n % 100, 2),
{
    reveal_with_fuel(text::dec, 5);
    assert(n / 10 / 10 == n / 100);
    assert(n / 100 / 10 == n / 1000);
    assert(n % 100 / 10 == n / 10 % 10);
    assert(n % 100 % 10 == n % 10);
    assert(padded(n, 4) =~= padded(n / 100, 2) + padded(n % 100, 2));
}

proof fn lemma_year_order(n: nat, m: nat)
    requires
        n < 10000,
        m < 10000,
    ensures
        padded(n, 4).len() == 4,
        text::is_digit(padded(n, 4)[0]),
        text::sorted_le(padded(n, 4), padded(m, 4)) <==> n <= m,
        padded(n, 4) == padded(m, 4) ==> n == m,
{
    lemma_four_digits(n);
    lemma_four_digits(m);
    lemma_two_digits(n / 100, m / 100);
    lemma_two_digits(m / 100, n / 100);
    lemma_two_digits(n % 100, m % 100);
    lemma_two_digits(m % 100, n % 100);
    let (a, b) = (padded(n / 100, 2), padded(n % 100, 2));
    let (c, d) = (padded(m / 100, 2), padded(m % 100, 2));
    text::law_order_goes_by_the_first_part(a, b, c, d);
    assert((a + b)[0] == a[0]);
    if a + b == c + d {
        assert((a + b).take(2) =~= a);
        assert((c + d).take(2) =~= c);
        assert((a + b).skip(2) =~= b);
        assert((c + d).skip(2) =~= d);
    }
}

proof fn lemma_label_order(a: Seq<char>, b: Seq<char>, c: Seq<char>, d: Seq<char>)
    requires
        a.len() == 4,
        c.len() == 4,
    ensures
        text::sorted_le(a + "W"@ + b, c + "W"@ + d) == (if a == c {
            text::sorted_le(b, d)
        } else {
            text::sorted_le(a, c)
        }),
{
    reveal_strlit("W");
    text::law_order_goes_by_the_first_part(a + "W"@, b, c + "W"@, d);
    text::law_order_goes_by_the_first_part(a, "W"@, c, "W"@);
    if a != c {
        assert((a + "W"@).take(4) =~= a);
        assert((c + "W"@).take(4) =~= c);
    }
}

/// The labels of weeks have the order of the weeks, as long as their years have four
/// digits.
pub proof fn law_week_labels_are_in_order(a: Date, b: Date)
    requires
        a.valid(),
        b.valid(),
        2 <= a.year,
        2 <= b.year,
        iso_week_of(a).0 <= 9999,
        iso_week_of(b).0 <= 9999,
    ensures
        text::sorted_le(week_label_of(a), week_label_of(b)) <==> week_le(
            iso_week_of(a),
            iso_week_of(b),
        ),
        week_label_of(a).len() == 7,
        text::is_digit(week_label_of(a)[0]),
{
    lemma_iso_week(a);
    lemma_iso_week(b);
    lemma_labels(iso_week_of(a), iso_week_of(b));
}

proof fn lemma_labels(a: (int, int), b: (int, int))
    requires
        1 <= a.0 <= 9999,
        1 <= a.1 <= 53,
        1 <= b.0 <= 9999,
        1 <= b.1 <= 53,
    ensures
        text::sorted_le(
            padded(a.0 as nat, 4) + "W"@ + padded(a.1 as nat, 2),
            padded(b.0 as nat, 4) + "W"@ + padded(b.1 as nat, 2),
        ) <==> week_le(a, b),
        (padded(a.0 as nat, 4) + "W"@ + padded(a.1 as nat, 2)).len() == 7,
        text::is_digit((padded(a.0 as nat, 4) + "W"@ + padded(a.1 as nat, 2))[0]),
{
    lemma_year_order(a.0 as nat, b.0 as nat);
    lemma_year_order(b.0 as nat, a.0 as nat);
    lemma_two_digits(a.1 as nat, b.1 as nat);
    lemma_label_order(
        padded(a.0 as nat, 4),
        padded(a.1 as nat, 2),
        padded(b.0 as nat, 4),
        padded(b.1 as nat, 2),
    );
    reveal_strlit("W");
}

proof fn lemma_two_read_back(n: nat)
    requires
        n < 100,
    ensures
        padded(n, 2).len() == 2,
        text::all_digits(padded(n, 2)),
        text::digits_value(padded(n, 2)) == n,
{
    lemma_two_digits(n, n);
    let s = padded(n, 2);
    assert(s.drop_last() =~= seq![text::digit_char(n / 10)]);
    assert(s.drop_last().drop_last() =~= Seq::empty());
    reveal_with_fuel(text::digits_value, 3);
}

proof fn lemma_digits_behind(a: Seq<char>, b: Seq<char>)
    requires
        b.len() == 2,
    ensures
        text::digits_value(a + b) == 100 * text::digits_value(a) + text::digits_value(b) || !text::all_digits(
            b,
        ),
{
    let s = a + b;
    assert(s.drop_last().drop_last() =~= a);
    assert(b.drop_last().drop_last() =~= Seq::empty());
    assert(s.last() == b[1] && s.drop_last().last() == b[0]);
    assert(b.drop_last().last() == b[0]);
    if text::all_digits(b) {
        assert(text::is_digit(b[0]) && text::is_digit(b[1]));
        reveal_with_fuel(text::digits_value, 3);
    }
}

proof fn lemma_four_read_back(n: nat)
    requires
        n < 10000,
    ensures
        padded(n, 4).len() == 4,
        text::all_digits(padded(n, 4)),
        text::digits_value(padded(n, 4)) == n,
{
    lemma_four_digits(n);
    lemma_two_read_back(n / 100);
    lemma_two_read_back(n % 100);
    lemma_digits_behind(padded(n / 100, 2), padded(n % 100, 2));
    let a = padded(n / 100, 2);
    let b = padded(n % 100, 2);
    assert forall|i: int| 0 <= i < 4 implies text::is_digit(#[trigger] (a + b)[i]) by {
        if i < 2 {
            assert((a + b)[i] == a[i]);
        } else {
            assert((a + b)[i] == b[i - 2]);
        }
    }
    assert(100 * (n / 100) + n % 100 == n);
}

/// A date is written so that it can be read back: four digits for the year, two for the month
/// and two for the day, with hyphens between.
pub proof fn law_dates_are_written_out(d: Date)
    requires
        d.on_calendar(),
        d.year <= 9999,
    ensures
        iso_date(d).len() == 10,
        iso_date(d)[4] == '-' && iso_date(d)[7] == '-',
        text::digits_value(iso_date(d).subrange(0, 4)) == d.year,
        text::digits_value(iso_date(d).subrange(5, 7)) == d.month,
        text::digits_value(iso_date(d).subrange(8, 10)) == d.day,
{
    lemma_four_read_back(d.year as nat);
    lemma_two_read_back(d.month as nat);
    lemma_two_read_back(d.day as nat);
    reveal_strlit("-");
    let s = iso_date(d);
    assert(s.subrange(0, 4) =~= padded(d.year as nat, 4));
    assert(s.subrange(5, 7) =~= padded(d.month as nat, 2));
    assert(s.subrange(8, 10) =~= padded(d.day as nat, 2));
}

/// Dates as texts have the order of the days, as long as their years have four digits.
pub proof fn law_dates_are_in_order_as_texts(a: Date, b: Date)
    requires
        a.on_calendar(),
        b.on_calendar(),
        a.year <= 9999,
        b.year <= 9999,
    ensures
        text::sorted_le(iso_date(a), iso_date(b)) <==> day_number(a) <= day_number(b),
{
    lemma_year_order(a.year as nat, b.year as nat);
    lemma_year_order(b.year as nat, a.year as nat);
    lemma_two_digits(a.month as nat, b.month as nat);
    lemma_two_digits(a.day as nat, b.day as nat);
    lemma_two_digits(b.month as nat, a.month as nat);
    lemma_two_digits(b.day as nat, a.day as nat);
    reveal_strlit("-");
    let ya = padded(a.year as nat, 4);
    let yb = padded(b.year as nat, 4);
    let ma = padded(a.month as nat, 2);
    let mb = padded(b.month as nat, 2);
    let da = padded(a.day as nat, 2);
    let db = padded(b.day as nat, 2);
    assert(iso_date(a) =~= (ya + "-"@) + ((ma + "-"@) + da));
    assert(iso_date(b) =~= (yb + "-"@) + ((mb + "-"@) + db));
    text::law_order_goes_by_the_first_part(ya + "-"@, (ma + "-"@) + da, yb + "-"@, (mb + "-"@) + db);
    text::law_order_goes_by_the_first_part(ma + "-"@, da, mb + "-"@, db);
    lemma_dash(ya, yb);
    lemma_dash(ma, mb);
    if a.year < b.year {
        law_later_years_come_later(a, b);
    } else if b.year < a.year {
        law_later_years_come_later(b, a);
    } else if a.month < b.month {
        lemma_in_order(a, b);
    } else if b.month < a.month {
        lemma_in_order(b, a);
    }
}

proof fn lemma_dash(a: Seq<char>, b: Seq<char>)
    requires
        a.len() == b.len(),
    ensures
        a + "-"@ == b + "-"@ <==> a == b,
        a != b ==> text::sorted_le(a + "-"@, b + "-"@) == text::sorted_le(a, b),
{
    text::law_order_goes_by_the_first_part(a, "-"@, b, "-"@);
    if a + "-"@ == b + "-"@ {
        assert((a + "-"@).take(a.len() as int) =~= a);
        assert((b + "-"@).take(a.len() as int) =~= b);
    }
}

/// The calendar is the Gregorian one: a year has 366 days where it is a leap year and 365 else,
/// every fourth year is one but for three centuries in four, and the days of 400 years are
/// always as many.
pub proof fn law_calendar_is_gregorian(y: int, d: Date)
    requires
        1 <= y,
    ensures
        days_before_month(y, 13) == if leap_year(y) {
            366int
        } else {
            365
        },
        days_of_years(y) - days_of_years(y - 1) == days_before_month(y, 13),
        leap_year(4 * y) <==> (y % 25 != 0 || y % 100 == 0),
        !leap_year(4 * y + 1) && !leap_year(4 * y + 2) && !leap_year(4 * y + 3),
        days_of_years(y + 400) == days_of_years(y) + 146097,
        leap_year(y) == leap_year(y + 400),
{
    reveal_with_fuel(days_before_month, 14);
    assert((4 * y) % 100 == 0 <==> y % 25 == 0);
    assert((4 * y) % 400 == 0 <==> y % 100 == 0);
    assert((y + 400) / 4 == y / 4 + 100 && (y + 400) / 100 == y / 100 + 4 && (y + 400) / 400 == y / 400 + 1);
    assert((y + 400) % 4 == y % 4 && (y + 400) % 100 == y % 100 && (y + 400) % 400 == y % 400);
}

/// The months follow each other: the first day of one comes right behind the last of the one
/// before, and the month after the one before is the month itself.
pub proof fn law_months_follow_each_other(d: Date)
    requires
        d.valid(),
        2 <= d.year,
    ensures
        month_before(d).on_calendar() && month_before(d).day == 1,
        day_number(month_start(d)) == day_number(month_before(d)) + days_in_month(
            month_before(d).year as int,
            month_before(d).month as int,
        ),
        month_after(month_before(d)) == month_start(d),
        month_before(month_after(d)) == month_start(d),
{
    let y = d.year as int;
    law_calendar_is_gregorian(y - 1, d);
    if d.month == 1 {
        reveal_with_fuel(days_before_month, 14);
    }
}

/// The days of the week go round: the day after has the next one, and a week later it is the
/// same; the Monday of a week is the last one that is not behind the day.
pub proof fn law_weekdays_go_round(a: Date, b: Date)
    requires
        a.on_calendar(),
        b.on_calendar(),
    ensures
        0 <= weekday_of(a) < 7,
        day_number(b) == day_number(a) + 7 ==> weekday_of(b) == weekday_of(a),
        day_number(b) == day_number(a) + 1 ==> weekday_of(b) == if weekday_of(a) == 6 {
            0int
        } else {
            weekday_of(a) + 1
        },
        a.valid() && 2 <= a.year ==> day_number(monday_of(a)) <= day_number(a) < day_number(monday_of(a)) + 7
            && weekday_of(monday_of(a)) == 0,
{
    if a.valid() && 2 <= a.year {
        law_days_are_added(a, -weekday_of(a));
    }
}

/// Numbers of two digits are told apart as texts.
pub proof fn law_two_digits_are_told_apart(n: nat, m: nat)
    requires
        n < 100,
        m < 100,
    ensures
        padded(n, 2).len() == 2,
        padded(n, 2) == padded(m, 2) <==> n == m,
{
    lemma_two_read_back(n);
    lemma_two_read_back(m);
}

} // verus!
