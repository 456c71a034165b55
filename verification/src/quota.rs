//! Quotas: how often a namespace may write, search, ask for a profile or make a
//! backup within a window of time.
use vstd::prelude::*;
use crate::clock;
use crate::dates;
use crate::dates::Date;
use crate::text;

verus! {

pub const KIND_WRITE: &'static str = "write";

pub const KIND_SEARCH: &'static str = "search";

pub const KIND_PROFILE: &'static str = "profile";

pub const KIND_BACKUP: &'static str = "backup";

/// A quota that is used up, and in how many seconds the next window begins.
#[derive(Debug, PartialEq, Eq)]
pub struct QuotaError {
    pub kind: String,
    pub limit: u64,
    pub retry_after_sec: u64,
}

/// A moment of local time.
#[derive(Debug, Clone, Copy, PartialEq, Eq, Structural)]
pub struct Moment {
    pub date: Date,
    pub hour: u32,
    pub minute: u32,
    pub second: u32,
}

impl Moment {
    pub open spec fn valid(self) -> bool {
        self.date.valid() && self.hour < 24 && self.minute < 60 && self.second < 60
    }
}

/// The table of the counters, one row for each namespace, kind and window.
pub const QUOTA_TABLE: &'static str = "CREATE TABLE IF NOT EXISTS quota_counters (
            ns TEXT NOT NULL,
            kind TEXT NOT NULL,
            window TEXT NOT NULL,
            count INTEGER NOT NULL DEFAULT 0,
            PRIMARY KEY (ns, kind, window)
        );";

/// The statement that makes the table of the counters, if it is not there.
pub fn init_quota_table() -> (r: String)
    ensures
        r@ == QUOTA_TABLE@,
{
    QUOTA_TABLE.to_string()
}

/// How long a window is.
#[derive(Debug, Clone, Copy, PartialEq, Eq, Structural)]
pub enum Span {
    Day,
    Hour,
    Minute,
}

/// The span of the windows of a kind: a minute for searches and profiles, an
/// hour for backups, a day for all else.
pub open spec fn span_of(kind: Seq<char>) -> Span {
    if kind == KIND_SEARCH@ || kind == KIND_PROFILE@ {
        Span::Minute
    } else if kind == KIND_BACKUP@ {
        Span::Hour
    } else {
        Span::Day
    }
}

fn span(kind: &str) -> (r: Span)
    ensures
        r == span_of(kind@),
{
    if text::same(kind, KIND_SEARCH) || text::same(kind, KIND_PROFILE) {
        Span::Minute
    } else if text::same(kind, KIND_BACKUP) {
        Span::Hour
    } else {
        Span::Day
    }
}

/// The name of the window in which `now` lies.
pub open spec fn window_of(kind: Seq<char>, now: Moment) -> Seq<char> {
    match span_of(kind) {
        Span::Day => dates::iso_date(now.date),
        Span::Hour => dates::iso_date(now.date) + "T"@ + dates::padded(now.hour as nat, 2),
        Span::Minute => dates::iso_date(now.date) + "T"@ + dates::padded(now.hour as nat, 2) + ":"@
            + dates::padded(now.minute as nat, 2),
    }
}

/// The name of the window in which `now` lies.
pub fn quota_window_at(kind: &str, now: Moment) -> (r: String)
    requires
        now.valid(),
    ensures
        r@ == window_of(kind@, now),
{
    let mut s = dates::fmt_date(now.date);
    match span(kind) {
        Span::Day => {},
        Span::Hour => {
            s.append("T");
            s.append(dates::pad(now.hour as u64, 2).as_str());
        },
        Span::Minute => {
            s.append("T");
            s.append(dates::pad(now.hour as u64, 2).as_str());
            s.append(":");
            s.append(dates::pad(now.minute as u64, 2).as_str());
        },
    }
    s
}

/// The variable that sets the limit of a kind; none for an unknown kind.
pub open spec fn limit_variable(kind: Seq<char>) -> Option<Seq<char>> {
    if kind == KIND_WRITE@ {
        Some("MEMORIA_QUOTA_WRITES_PER_DAY"@)
    } else if kind == KIND_SEARCH@ {
        Some("MEMORIA_QUOTA_SEARCHES_PER_MIN"@)
    } else if kind == KIND_PROFILE@ {
        Some("MEMORIA_QUOTA_PROFILES_PER_MIN"@)
    } else if kind == KIND_BACKUP@ {
        Some("MEMORIA_QUOTA_BACKUPS_PER_HOUR"@)
    } else {
        None
    }
}

/// The variable that sets the limit of a kind; none for an unknown kind.
pub fn quota_variable(kind: &str) -> (r: Option<String>)
    ensures
        text::opt_text(r) == limit_variable(kind@),
{
    if text::same(kind, KIND_WRITE) {
        Some("MEMORIA_QUOTA_WRITES_PER_DAY".to_string())
    } else if text::same(kind, KIND_SEARCH) {
        Some("MEMORIA_QUOTA_SEARCHES_PER_MIN".to_string())
    } else if text::same(kind, KIND_PROFILE) {
        Some("MEMORIA_QUOTA_PROFILES_PER_MIN".to_string())
    } else if text::same(kind, KIND_BACKUP) {
        Some("MEMORIA_QUOTA_BACKUPS_PER_HOUR".to_string())
    } else {
        None
    }
}

/// The limit of a kind where none is configured. An unknown kind has none.
pub open spec fn default_limit(kind: Seq<char>) -> u64 {
    if kind == KIND_WRITE@ {
        10_000
    } else if kind == KIND_SEARCH@ {
        600
    } else if kind == KIND_PROFILE@ {
        10
    } else if kind == KIND_BACKUP@ {
        12
    } else {
        u64::MAX
    }
}

/// The limit of a kind, given the value of its variable: that value where it is
/// a number, else the default.
pub open spec fn limit_of(kind: Seq<char>, configured: Option<Seq<char>>) -> nat {
    match (limit_variable(kind), configured) {
        (Some(_), Some(v)) => match text::spelled(v, u64::MAX as nat) {
            Some(n) => n,
            None => default_limit(kind) as nat,
        },
        _ => default_limit(kind) as nat,
    }
}

/// The limit of a kind, given the value of its variable.
pub fn quota_limit(kind: &str, configured: Option<&str>) -> (r: u64)
    ensures
        r == limit_of(kind@, text::opt_str(configured)),
{
    let known = quota_variable(kind).is_some();
    let default: u64 = if text::same(kind, KIND_WRITE) {
        10_000
    } else if text::same(kind, KIND_SEARCH) {
        600
    } else if text::same(kind, KIND_PROFILE) {
        10
    } else if text::same(kind, KIND_BACKUP) {
        12
    } else {
        u64::MAX
    };
    if known {
        if let Some(v) = configured {
            if let Some(n) = text::parse_u64(v) {
                return n;
            }
        }
    }
    default
}

/// The seconds from `now` to the next boundary between windows of a kind, zero
/// at a boundary itself. An unknown kind waits a minute.
pub open spec fn seconds_left(kind: Seq<char>, now: Moment) -> int {
    if kind == KIND_WRITE@ {
        (86400 - (now.hour * 3600 + now.minute * 60 + now.second)) % 86400
    } else if kind == KIND_SEARCH@ || kind == KIND_PROFILE@ {
        (60 - now.second) % 60
    } else if kind == KIND_BACKUP@ {
        (3600 - (now.minute * 60 + now.second)) % 3600
    } else {
        60
    }
}

/// The seconds from `now` to the next boundary between windows of a kind.
pub fn retry_after_at(kind: &str, now: Moment) -> (r: u64)
    requires
        now.valid(),
    ensures
        r == seconds_left(kind@, now),
{
    if text::same(kind, KIND_WRITE) {
        let t: u64 = now.hour as u64 * 3600 + now.minute as u64 * 60 + now.second as u64;
        (86400 - t) % 86400
    } else if text::same(kind, KIND_SEARCH) || text::same(kind, KIND_PROFILE) {
        (60 - now.second as u64) % 60
    } else if text::same(kind, KIND_BACKUP) {
        let t: u64 = now.minute as u64 * 60 + now.second as u64;
        (3600 - t) % 3600
    } else {
        60
    }
}

/// What an admitted call does to its counter.
#[derive(Debug, Clone, Copy, PartialEq, Eq, Structural)]
pub enum QuotaStep {
    /// The first call of a window: the counter is made, at one.
    Insert,
    /// Any later call: the counter goes up by one.
    Increment,
}

/// A call is admitted where `current` calls have been: a limit of zero admits
/// none.
pub open spec fn admits(current: int, limit: nat) -> bool {
    limit > 0 && current < limit
}

/// The refusal of a call.
pub fn exceeded(kind: &str, limit: u64, now: Moment) -> (r: QuotaError)
    requires
        now.valid(),
    ensures
        r.kind@ == kind@,
        r.limit == limit,
        r.retry_after_sec == seconds_left(kind@, now),
{
    QuotaError { kind: kind.to_string(), limit, retry_after_sec: retry_after_at(kind, now) }
}

/// Decides on a call, given how many the window has seen. The caller holds the
/// counter for writing from before it is read until the step is done.
pub fn check_quota_with(kind: &str, limit: u64, current: i64, now: Moment) -> (r: Result<
    QuotaStep,
    QuotaError,
>)
    requires
        now.valid(),
    ensures
        match r {
            Ok(step) => admits(current as int, limit as nat) && step == (if current == 0 {
                QuotaStep::Insert
            } else {
                QuotaStep::Increment
            }),
            Err(e) => !admits(current as int, limit as nat) && e.kind@ == kind@ && e.limit == limit
                && e.retry_after_sec == seconds_left(kind@, now),
        },
{
    if limit == 0 || (current >= 0 && current as u64 >= limit) {
        Err(exceeded(kind, limit, now))
    } else if current == 0 {
        Ok(QuotaStep::Insert)
    } else {
        Ok(QuotaStep::Increment)
    }
}

/// Decides on a call by the configured limit of its kind.
pub fn check_quota(kind: &str, configured: Option<&str>, current: i64, now: Moment) -> (r: Result<
    QuotaStep,
    QuotaError,
>)
    requires
        now.valid(),
    ensures
        match r {
            Ok(step) => admits(current as int, limit_of(kind@, text::opt_str(configured)))
                && step == (if current == 0 {
                QuotaStep::Insert
            } else {
                QuotaStep::Increment
            }),
            Err(e) => !admits(current as int, limit_of(kind@, text::opt_str(configured))) && e.kind@
                == kind@ && e.limit == limit_of(kind@, text::opt_str(configured))
                && e.retry_after_sec == seconds_left(kind@, now),
        },
{
    check_quota_with(kind, quota_limit(kind, configured), current, now)
}

/// The counter of a window after `calls` calls, each admitted or refused.
pub open spec fn counter_after(calls: nat, limit: nat) -> nat
    decreases calls,
{
    if calls == 0 {
        0
    } else {
        let c = counter_after((calls - 1) as nat, limit);
        if admits(c as int, limit) {
            c + 1
        } else {
            c
        }
    }
}

/// Of the calls of a window as many are admitted as the limit says, the first
/// ones, and no more.
pub proof fn law_limit_is_exact(calls: nat, limit: nat)
    ensures
        counter_after(calls, limit) == (if calls <= limit {
            calls
        } else {
            limit
        }),
        admits(counter_after(calls, limit) as int, limit) <==> calls < limit,
    decreases calls,
{
    if calls > 0 {
        law_limit_is_exact((calls - 1) as nat, limit);
    }
}

/// The wait is never as long as a whole window.
pub proof fn law_wait_is_bounded(kind: Seq<char>, now: Moment)
    requires
        now.valid(),
    ensures
        0 <= seconds_left(kind, now) < 86400,
        span_of(kind) == Span::Minute ==> seconds_left(kind, now) < 60,
        span_of(kind) == Span::Hour ==> seconds_left(kind, now) < 3600,
{
    reveal_strlit("write");
    reveal_strlit("search");
    reveal_strlit("profile");
    reveal_strlit("backup");
    assert("search"@[0] != "backup"@[0]);
    assert("write"@.len() != "search"@.len());
    assert("write"@.len() != "profile"@.len());
}

/// How much of a quota is used up: what the counter of the window holds, if there is
/// one.
pub fn current_usage(row: Option<i64>) -> (r: i64)
    ensures
        r == (match row {
            Some(n) => n,
            None => 0i64,
        }),
{
    match row {
        Some(n) => n,
        None => 0,
    }
}

/// The name of the window that is open now.
pub fn quota_window(kind: &str) -> (r: String)
    ensures
        exists|now: Moment| #[trigger] clock::shown(now) && r@ == window_of(kind@, now),
{
    let now = clock::local_now();
    assert(clock::shown(now));
    quota_window_at(kind, now)
}

/// The seconds from now to the next boundary between windows of a kind.
pub fn retry_after_sec(kind: &str) -> (r: u64)
    ensures
        exists|now: Moment| #[trigger] clock::shown(now) && r == seconds_left(kind@, now),
{
    let now = clock::local_now();
    assert(clock::shown(now));
    retry_after_at(kind, now)
}

/// The wait ends where the next window begins: a day for writes, a minute for searches and
/// profiles, an hour for backups.
pub proof fn law_wait_ends_at_the_next_window(now: Moment)
    requires
        now.valid(),
    ensures
        (now.hour * 3600 + now.minute * 60 + now.second + seconds_left("write"@, now)) % 86400 == 0,
        (now.second + seconds_left("search"@, now)) % 60 == 0,
        (now.second + seconds_left("profile"@, now)) % 60 == 0,
        (now.minute * 60 + now.second + seconds_left("backup"@, now)) % 3600 == 0,
        0 <= seconds_left("search"@, now) < 60,
        0 <= seconds_left("backup"@, now) < 3600,
{
    lemma_kinds();
}

proof fn lemma_kinds()
    ensures
        "write"@ != "search"@ && "write"@ != "profile"@ && "write"@ != "backup"@,
        "search"@ != "profile"@ && "search"@ != "backup"@ && "profile"@ != "backup"@,
{
    reveal_strlit("write");
    reveal_strlit("search");
    reveal_strlit("profile");
    reveal_strlit("backup");
    assert("search"@[0] == 's' && "backup"@[0] == 'b' && "write"@.len() == 5 && "profile"@.len() == 7);
}

/// Calls share a window as long as it is the same day, for writes, the same hour, for backups,
/// and the same minute, for searches and profiles, and no longer.
pub proof fn law_windows_are_as_long_as_their_kind(a: Moment, b: Moment)
    requires
        a.valid(),
        b.valid(),
        a.date.year <= 9999,
        b.date.year <= 9999,
    ensures
        window_of("write"@, a) == window_of("write"@, b) <==> a.date == b.date,
        window_of("backup"@, a) == window_of("backup"@, b) <==> a.date == b.date && a.hour == b.hour,
        window_of("search"@, a) == window_of("search"@, b) <==> a.date == b.date && a.hour == b.hour
            && a.minute == b.minute,
        window_of("profile"@, a) == window_of("profile"@, b) <==> a.date == b.date && a.hour == b.hour
            && a.minute == b.minute,
{
    lemma_kinds();
    dates::law_dates_are_written_out(a.date);
    dates::law_dates_are_written_out(b.date);
    dates::law_two_digits_are_told_apart(a.hour as nat, b.hour as nat);
    dates::law_two_digits_are_told_apart(a.minute as nat, b.minute as nat);
    dates::law_two_digits_are_told_apart(b.hour as nat, a.hour as nat);
    let da = dates::iso_date(a.date);
    let db = dates::iso_date(b.date);
    assert(da == db <==> a.date == b.date);
    let ha = dates::padded(a.hour as nat, 2);
    let hb = dates::padded(b.hour as nat, 2);
    let ma = dates::padded(a.minute as nat, 2);
    let mb = dates::padded(b.minute as nat, 2);
    lemma_apart(da + "T"@, ha, db + "T"@, hb);
    lemma_apart(da, "T"@, db, "T"@);
    lemma_apart(da + "T"@ + ha + ":"@, ma, db + "T"@ + hb + ":"@, mb);
    lemma_apart(da + "T"@ + ha, ":"@, db + "T"@ + hb, ":"@);
}

proof fn lemma_apart(a: Seq<char>, b: Seq<char>, c: Seq<char>, d: Seq<char>)
    requires
        a.len() == c.len(),
    ensures
        a + b == c + d <==> a == c && b == d,
{
    if a + b == c + d {
        assert((a + b).take(a.len() as int) =~= a);
        assert((c + d).take(a.len() as int) =~= c);
        assert((a + b).skip(a.len() as int) =~= b);
        assert((c + d).skip(a.len() as int) =~= d);
    }
}

/// A limit that is configured as a number holds; else 10000 writes a day, 600 searches and 10
/// profiles a minute, and 12 backups an hour are admitted.
pub proof fn law_limits_are_as_configured(kind: Seq<char>, n: nat)
    requires
        n <= u64::MAX,
        kind == "write"@ || kind == "search"@ || kind == "profile"@ || kind == "backup"@,
    ensures
        limit_of(kind, Some(text::dec(n))) == n,
        limit_of(kind, None) == if kind == "write"@ {
            10000nat
        } else if kind == "search"@ {
            600
        } else if kind == "profile"@ {
            10
        } else {
            12
        },
        text::spelled(kind, u64::MAX as nat) is None ==> limit_of(kind, Some(kind)) == limit_of(kind, None),
{
    lemma_kinds();
    text::law_decimal_is_read_back(n, u64::MAX as nat);
}

} // verus!
