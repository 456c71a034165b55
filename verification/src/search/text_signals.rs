//! Light signals in a text: numbers, dates and words that speak of a change. They
//! are read off the text, kept among the tags of a memory, and count a little in
//! the search.
use vstd::prelude::*;
use crate::clock;
use crate::dates;
use crate::dates::Date;
use crate::json;
use crate::json::{Json, JsonView};
use crate::quota::Moment;
use crate::text;

verus! {

/// How many numbers of a text count.
pub const MAX_NUMBERS: usize = 8;

/// How many dates of a text count.
pub const MAX_DATES: usize = 4;

/// How many words of change count.
pub const MAX_UPDATE_MARKERS: usize = 4;

/// What stands before a number among the tags.
pub const SIGNAL_NUM_PREFIX: &'static str = "signal:num:";

/// What stands before a date among the tags.
pub const SIGNAL_DATE_PREFIX: &'static str = "signal:date:";

/// What stands before a word of change among the tags.
pub const SIGNAL_UPDATE_PREFIX: &'static str = "signal:update:";

/// The signals of a text.
#[derive(Debug)]
pub struct Signals {
    pub numbers: Vec<String>,
    pub dates: Vec<String>,
    pub update_markers: Vec<String>,
}

pub struct SignalsView {
    pub numbers: Seq<Seq<char>>,
    pub dates: Seq<Seq<char>>,
    pub update_markers: Seq<Seq<char>>,
}

impl Signals {
    pub open spec fn view(&self) -> SignalsView {
        SignalsView {
            numbers: text::texts(self.numbers@),
            dates: text::texts(self.dates@),
            update_markers: text::texts(self.update_markers@),
        }
    }
}

/// A setting that is on unless it is switched off.
pub open spec fn on_unless(v: Option<Seq<char>>) -> bool {
    match v {
        Some(s) => {
            let t = text::ascii_lowered(text::trimmed(s));
            !(t == "0"@ || t == "false"@ || t == "off"@ || t == "no"@)
        },
        None => true,
    }
}

/// Reads a setting that is on unless it is switched off.
fn is_on(v: Option<&str>) -> (r: bool)
    ensures
        r == on_unless(text::opt_str(v)),
{
    match v {
        Some(s) => {
            let t = text::to_ascii_lower(text::trim(s).as_str());
            !(text::same(t.as_str(), "0") || text::same(t.as_str(), "false") || text::same(t.as_str(), "off") || text::same(
                t.as_str(),
                "no",
            ))
        },
        None => true,
    }
}

/// Whether the signals count in the search, by their variable.
pub fn text_signals_rerank_enabled(v: Option<&str>) -> (r: bool)
    ensures
        r == on_unless(text::opt_str(v)),
{
    is_on(v)
}

/// Whether the signals are kept among the tags, by their variable.
pub fn text_signals_persist_enabled(v: Option<&str>) -> (r: bool)
    ensures
        r == on_unless(text::opt_str(v)),
{
    is_on(v)
}

/// A list with one more text, unless that is empty or there already.
pub open spec fn added(l: Seq<Seq<char>>, s: Seq<char>) -> Seq<Seq<char>> {
    if s.len() == 0 || text::listed(l, s) {
        l
    } else {
        l.push(s)
    }
}

/// Adds a text to a list, unless it is empty or there already.
pub fn push_unique(v: &mut Vec<String>, s: &str)
    ensures
        text::texts(final(v)@) == added(text::texts(old(v)@), s@),
{
    if s.is_empty() || text::is_listed(v, s) {
        return;
    }
    let t = s.to_string();
    proof {
        text::lemma_texts_push(v@, t);
    }
    v.push(t);
}

/// A list with the texts of another, each added in turn.
pub open spec fn all_added(l: Seq<Seq<char>>, more: Seq<Seq<char>>) -> Seq<Seq<char>>
    decreases more.len(),
{
    if more.len() == 0 {
        l
    } else {
        added(all_added(l, more.drop_last()), more.last())
    }
}

fn push_all(v: &mut Vec<String>, more: &Vec<String>)
    ensures
        text::texts(final(v)@) == all_added(text::texts(old(v)@), text::texts(more@)),
{
    let ghost before = text::texts(v@);
    let ghost all = text::texts(more@);
    let mut i: usize = 0;
    assert(all_added(before, all.take(0)) == before);
    while i < more.len()
        invariant
            i <= more@.len(),
            all == text::texts(more@),
            text::texts(v@) == all_added(before, all.take(i as int)),
        decreases more@.len() - i,
    {
        assert(all.take(i + 1).drop_last() =~= all.take(i as int));
        assert(all.take(i + 1).last() == more@[i as int]@);
        push_unique(v, more[i].as_str());
        i += 1;
    }
    assert(all.take(all.len() as int) =~= all);
}

/// The first `n` of a list.
pub open spec fn first_n(l: Seq<Seq<char>>, n: int) -> Seq<Seq<char>> {
    if l.len() <= n {
        l
    } else {
        l.take(n)
    }
}

fn cut(v: &mut Vec<String>, n: usize)
    ensures
        text::texts(final(v)@) == first_n(text::texts(old(v)@), n as int),
{
    let ghost before = text::texts(v@);
    if v.len() > n {
        v.truncate(n);
    }
    assert(text::texts(v@) =~= first_n(before, n as int));
}

/// Where the digits that begin at `i` end.
pub open spec fn digits_end(s: Seq<char>, i: int) -> int
    decreases s.len() - i,
{
    if i < 0 || i >= s.len() || !text::is_digit(s[i]) {
        i
    } else {
        digits_end(s, i + 1)
    }
}

proof fn lemma_digits_end(s: Seq<char>, i: int)
    requires
        0 <= i <= s.len(),
    ensures
        i <= digits_end(s, i) <= s.len(),
        i < s.len() && text::is_digit(s[i]) ==> i < digits_end(s, i),
        i < digits_end(s, i) ==> text::is_digit(s[digits_end(s, i) - 1]),
    decreases s.len() - i,
{
    if i < s.len() && text::is_digit(s[i]) {
        lemma_digits_end(s, i + 1);
    }
}

/// Where the number that begins at `i` ends: behind its digits, and those behind a
/// point where there are any.
pub open spec fn number_end(s: Seq<char>, i: int) -> int {
    let e = digits_end(s, i);
    if e + 1 < s.len() && s[e] == '.' && text::is_digit(s[e + 1]) {
        digits_end(s, e + 1)
    } else {
        e
    }
}

proof fn lemma_number_end(s: Seq<char>, i: int)
    requires
        0 <= i < s.len(),
        text::is_digit(s[i]),
    ensures
        i < number_end(s, i) <= s.len(),
        text::is_digit(s[number_end(s, i) - 1]),
{
    lemma_digits_end(s, i);
    let e = digits_end(s, i);
    if e + 1 < s.len() {
        lemma_digits_end(s, e + 1);
    }
}

/// The numbers of a text from position `i` on, added to a list: those of at most
/// 24 characters.
pub open spec fn numbers_from(s: Seq<char>, i: int, acc: Seq<Seq<char>>) -> Seq<Seq<char>>
    decreases s.len() - i,
{
    if i < 0 || i >= s.len() {
        acc
    } else if !text::is_digit(s[i]) || !(i < number_end(s, i) <= s.len()) {
        numbers_from(s, i + 1, acc)
    } else {
        let e = number_end(s, i);
        numbers_from(
            s,
            e,
            if e - i <= 24 {
                added(acc, s.subrange(i, e))
            } else {
                acc
            },
        )
    }
}

fn find_digits_end(v: &[char], i: usize) -> (r: usize)
    requires
        i <= v@.len(),
    ensures
        r == digits_end(v@, i as int),
        i <= r <= v@.len(),
{
    let mut k: usize = i;
    while k < v.len() && text::digit(v[k])
        invariant
            i <= k <= v@.len(),
            digits_end(v@, i as int) == digits_end(v@, k as int),
        decreases v@.len() - k,
    {
        k += 1;
    }
    k
}

/// The numbers of a text, each once, in their order.
pub fn extract_numbers(s: &str) -> (r: Vec<String>)
    ensures
        text::texts(r@) == numbers_from(s@, 0, Seq::empty()),
{
    let v = text::chars_of(s);
    let mut out: Vec<String> = Vec::new();
    let mut i: usize = 0;
    assert(text::texts(out@) =~= Seq::empty());
    while i < v.len()
        invariant
            i <= v@.len(),
            v@ == s@,
            numbers_from(s@, 0, Seq::empty()) == numbers_from(s@, i as int, text::texts(out@)),
        decreases v@.len() - i,
    {
        if !text::digit(v[i]) {
            i += 1;
        } else {
            proof {
                lemma_number_end(s@, i as int);
            }
            let mut e = find_digits_end(v.as_slice(), i);
            if e < v.len() && v.len() - e > 1 && v[e] == '.' && text::digit(v[e + 1]) {
                e = find_digits_end(v.as_slice(), e + 1);
            }
            assert(e == number_end(s@, i as int));
            if e - i <= 24 {
                let n = text::string_between(&v, i, e);
                push_unique(&mut out, n.as_str());
            }
            i = e;
        }
    }
    out
}

/// A date stands at `i`: eight digits, set apart by `c`.
pub open spec fn date_at(s: Seq<char>, i: int, c: char) -> bool {
    &&& 0 <= i
    &&& i + 10 <= s.len()
    &&& text::is_digit(s[i]) && text::is_digit(s[i + 1]) && text::is_digit(s[i + 2])
        && text::is_digit(s[i + 3])
    &&& s[i + 4] == c
    &&& text::is_digit(s[i + 5]) && text::is_digit(s[i + 6])
    &&& s[i + 7] == c
    &&& text::is_digit(s[i + 8]) && text::is_digit(s[i + 9])
}

/// The date at `i`, set apart by hyphens.
pub open spec fn hyphened(s: Seq<char>, i: int) -> Seq<char> {
    s.subrange(i, i + 4) + "-"@ + s.subrange(i + 5, i + 7) + "-"@ + s.subrange(i + 8, i + 10)
}

/// The dates of a text from position `i` on, added to a list.
pub open spec fn dates_from(s: Seq<char>, i: int, acc: Seq<Seq<char>>) -> Seq<Seq<char>>
    decreases s.len() - i,
{
    if i < 0 || i + 10 > s.len() {
        acc
    } else if date_at(s, i, '-') {
        dates_from(s, i + 10, added(acc, s.subrange(i, i + 10)))
    } else if date_at(s, i, '/') {
        dates_from(s, i + 10, added(acc, hyphened(s, i)))
    } else {
        dates_from(s, i + 1, acc)
    }
}

/// Tells whether a date stands at `i`.
fn is_date_at(v: &[char], i: usize, c: char) -> (r: bool)
    requires
        i + 10 <= v@.len(),
    ensures
        r == date_at(v@, i as int, c),
{
    text::digit(v[i]) && text::digit(v[i + 1]) && text::digit(v[i + 2]) && text::digit(v[i + 3]) && v[i + 4] == c && text::digit(
        v[i + 5],
    ) && text::digit(v[i + 6]) && v[i + 7] == c && text::digit(v[i + 8]) && text::digit(v[i + 9])
}

/// The dates of a text, each once, in their order.
pub fn extract_dates(s: &str) -> (r: Vec<String>)
    ensures
        text::texts(r@) == dates_from(s@, 0, Seq::empty()),
{
    let v = text::chars_of(s);
    let mut out: Vec<String> = Vec::new();
    let mut i: usize = 0;
    assert(text::texts(out@) =~= Seq::empty());
    while i < v.len() && v.len() - i >= 10
        invariant
            i <= v@.len(),
            v@ == s@,
            dates_from(s@, 0, Seq::empty()) == dates_from(s@, i as int, text::texts(out@)),
        decreases v@.len() - i,
    {
        if is_date_at(v.as_slice(), i, '-') {
            let d = text::string_between(&v, i, i + 10);
            push_unique(&mut out, d.as_str());
            i += 10;
        } else if is_date_at(v.as_slice(), i, '/') {
            let y = text::string_between(&v, i, i + 4);
            let m = text::string_between(&v, i + 5, i + 7);
            let d = text::string_between(&v, i + 8, i + 10);
            let date = text::cat5(y.as_str(), "-", m.as_str(), "-", d.as_str());
            push_unique(&mut out, date.as_str());
            i += 10;
        } else {
            i += 1;
        }
    }
    out
}

/// The words that speak of a change.
pub open spec fn change_words() -> Seq<Seq<char>> {
    Seq::empty().push("更新"@).push("变更"@).push("改为"@).push("改成"@).push("调整"@).push(
        "升级"@,
    ).push("目前"@).push("现在"@).push("之前"@).push("原先"@).push("最新"@).push("supersed"@).push(
        "updated"@,
    ).push("changed"@).push("currently"@).push("previously"@)
}

fn update_words() -> (r: Vec<String>)
    ensures
        text::texts(r@) == change_words(),
{
    let mut v: Vec<String> = Vec::new();
    v.push("更新".to_string());
    v.push("变更".to_string());
    v.push("改为".to_string());
    v.push("改成".to_string());
    v.push("调整".to_string());
    v.push("升级".to_string());
    v.push("目前".to_string());
    v.push("现在".to_string());
    v.push("之前".to_string());
    v.push("原先".to_string());
    v.push("最新".to_string());
    v.push("supersed".to_string());
    v.push("updated".to_string());
    v.push("changed".to_string());
    v.push("currently".to_string());
    v.push("previously".to_string());
    assert(text::texts(v@) =~= change_words());
    v
}

/// Those of the words that occur in a text, added to a list.
pub open spec fn words_in(lower: Seq<char>, words: Seq<Seq<char>>) -> Seq<Seq<char>>
    decreases words.len(),
{
    if words.len() == 0 {
        Seq::empty()
    } else if text::occurs(lower, words.last()) {
        added(words_in(lower, words.drop_last()), words.last())
    } else {
        words_in(lower, words.drop_last())
    }
}

/// The words of change in a text, in upper or lower case.
pub fn extract_update_markers(s: &str) -> (r: Vec<String>)
    ensures
        text::texts(r@) == words_in(text::ascii_lowered(s@), change_words()),
{
    let lower = text::to_ascii_lower(s);
    let words = update_words();
    let ghost all = change_words();
    let mut out: Vec<String> = Vec::new();
    let mut i: usize = 0;
    assert(text::texts(out@) =~= words_in(lower@, all.take(0)));
    while i < words.len()
        invariant
            i <= words@.len(),
            all == text::texts(words@),
            text::texts(out@) == words_in(lower@, all.take(i as int)),
        decreases words@.len() - i,
    {
        assert(all.take(i + 1).drop_last() =~= all.take(i as int));
        assert(all.take(i + 1).last() == words@[i as int]@);
        if text::contains(lower.as_str(), words[i].as_str()) {
            push_unique(&mut out, words[i].as_str());
        }
        i += 1;
    }
    assert(all.take(all.len() as int) =~= all);
    out
}

/// A list with one more date, where the text speaks of it.
pub open spec fn dated(l: Seq<Seq<char>>, spoken: bool, d: Date) -> Seq<Seq<char>> {
    if spoken {
        added(l, dates::iso_date(d))
    } else {
        l
    }
}

fn push_date(v: &mut Vec<String>, spoken: bool, d: Date)
    requires
        d.valid(),
    ensures
        text::texts(final(v)@) == dated(text::texts(old(v)@), spoken, d),
{
    if spoken {
        push_unique(v, dates::fmt_date(d).as_str());
    }
}

/// The sign of a day of the week, from Monday on.
pub open spec fn weekday_sign(k: int) -> Seq<char> {
    if k == 0 {
        "一"@
    } else if k == 1 {
        "二"@
    } else if k == 2 {
        "三"@
    } else if k == 3 {
        "四"@
    } else if k == 4 {
        "五"@
    } else if k == 5 {
        "六"@
    } else {
        "日"@
    }
}

fn sign_of_weekday(k: u32) -> (r: &'static str)
    requires
        k < 7,
    ensures
        r@ == weekday_sign(k as int),
{
    if k == 0 {
        "一"
    } else if k == 1 {
        "二"
    } else if k == 2 {
        "三"
    } else if k == 3 {
        "四"
    } else if k == 4 {
        "五"
    } else if k == 5 {
        "六"
    } else {
        "日"
    }
}

/// The day `k` of the week, from Monday on, that lies `weeks` weeks after that of
/// the anchor.
pub open spec fn weekday_in_week(anchor: Date, k: int, weeks: int) -> Date {
    dates::days_after(dates::monday_of(anchor), weeks * 7 + k)
}

/// The dates of the first `k` days of the week that a text speaks of, added to a
/// list: those of the week before, and of this one.
pub open spec fn weekdays_in(s: Seq<char>, anchor: Date, k: int, acc: Seq<Seq<char>>) -> Seq<
    Seq<char>,
>
    decreases k,
{
    if k <= 0 {
        acc
    } else {
        let l = weekdays_in(s, anchor, k - 1, acc);
        let l = dated(
            l,
            text::occurs(s, "上周"@ + weekday_sign(k - 1)),
            weekday_in_week(anchor, k - 1, -1),
        );
        dated(
            l,
            text::occurs(s, "本周"@ + weekday_sign(k - 1)) || text::occurs(
                s,
                "这周"@ + weekday_sign(k - 1),
            ),
            weekday_in_week(anchor, k - 1, 0),
        )
    }
}

/// The dates that a text speaks of by the day: today, yesterday and so on, and the
/// Mondays of this week and the one before.
pub open spec fn near_days(s: Seq<char>, anchor: Date) -> Seq<Seq<char>> {
    let l = dated(
        Seq::empty(),
        text::occurs(s, "今天"@) || text::occurs(s, "今日"@) || text::occurs(s, "当日"@)
            || text::occurs(s, "当天"@),
        anchor,
    );
    let l = dated(
        l,
        text::occurs(s, "昨天"@) || text::occurs(s, "昨日"@),
        dates::days_after(anchor, -1),
    );
    let l = dated(
        l,
        text::occurs(s, "明天"@) || text::occurs(s, "明日"@),
        dates::days_after(anchor, 1),
    );
    let l = dated(l, text::occurs(s, "前天"@), dates::days_after(anchor, -2));
    let l = dated(l, text::occurs(s, "后天"@), dates::days_after(anchor, 2));
    let l = dated(
        l,
        text::occurs(s, "上周"@),
        dates::days_after(dates::monday_of(anchor), -7),
    );
    dated(
        l,
        text::occurs(s, "本周"@) || text::occurs(s, "这周"@),
        dates::monday_of(anchor),
    )
}

/// The dates that a text speaks of by the month and the year, added to a list: the
/// first days of these.
pub open spec fn far_days(s: Seq<char>, anchor: Date, acc: Seq<Seq<char>>) -> Seq<Seq<char>> {
    let l = dated(
        acc,
        text::occurs(s, "上月"@) || text::occurs(s, "上个月"@),
        dates::month_start(dates::month_before(anchor)),
    );
    let l = dated(
        l,
        text::occurs(s, "本月"@) || text::occurs(s, "这个月"@),
        dates::month_start(anchor),
    );
    let l = dated(
        l,
        text::occurs(s, "下月"@) || text::occurs(s, "下个月"@),
        dates::month_start(dates::month_after(anchor)),
    );
    let l = dated(
        l,
        text::occurs(s, "今年"@),
        (Date { year: anchor.year, month: 1, day: 1 }),
    );
    dated(
        l,
        text::occurs(s, "去年"@),
        (Date { year: (anchor.year - 1) as i32, month: 1, day: 1 }),
    )
}

/// The dates that a text speaks of by their distance from the anchor.
pub open spec fn relative_dates(s: Seq<char>, anchor: Date) -> Seq<Seq<char>> {
    far_days(s, anchor, weekdays_in(s, anchor, 7, near_days(s, anchor)))
}

/// A day from which dates are counted: there is a year before it, and one behind it.
pub open spec fn is_anchor(d: Date) -> bool {
    d.valid() && 3 <= d.year < dates::LAST_YEAR
}

/// Finds the dates that a text speaks of by their distance from the anchor.
pub fn resolve_relative_dates(content: &str, anchor: Date) -> (r: Vec<String>)
    requires
        is_anchor(anchor),
    ensures
        text::texts(r@) == relative_dates(content@, anchor),
{
    let mut out: Vec<String> = Vec::new();
    assert(text::texts(out@) =~= Seq::empty());
    push_date(
        &mut out,
        text::contains(content, "今天") || text::contains(content, "今日") || text::contains(content, "当日")
            || text::contains(content, "当天"),
        anchor,
    );
    push_date(
        &mut out,
        text::contains(content, "昨天") || text::contains(content, "昨日"),
        dates::add_days(anchor, -1),
    );
    push_date(
        &mut out,
        text::contains(content, "明天") || text::contains(content, "明日"),
        dates::add_days(anchor, 1),
    );
    push_date(&mut out, text::contains(content, "前天"), dates::add_days(anchor, -2));
    push_date(&mut out, text::contains(content, "后天"), dates::add_days(anchor, 2));
    let monday = dates::start_of_week(anchor);
    push_date(&mut out, text::contains(content, "上周"), dates::add_days(monday, -7));
    push_date(&mut out, text::contains(content, "本周") || text::contains(content, "这周"), monday);
    assert(text::texts(out@) == near_days(content@, anchor));
    let mut k: u32 = 0;
    while k < 7
        invariant
            k <= 7,
            is_anchor(anchor),
            monday == dates::monday_of(anchor),
            monday.valid(),
            2 <= monday.year,
            monday.year <= anchor.year,
            text::texts(out@) == weekdays_in(
                content@,
                anchor,
                k as int,
                near_days(content@, anchor),
            ),
        decreases 7 - k,
    {
        let sign = sign_of_weekday(k);
        push_date(
            &mut out,
            text::contains(content, text::cat("上周", sign).as_str()),
            dates::add_days(monday, k as i32 - 7),
        );
        push_date(
            &mut out,
            text::contains(content, text::cat("本周", sign).as_str()) || text::contains(
                content,
                text::cat("这周", sign).as_str(),
            ),
            dates::add_days(monday, k as i32),
        );
        k += 1;
    }
    push_date(
        &mut out,
        text::contains(content, "上月") || text::contains(content, "上个月"),
        dates::first_of_month(dates::prev_month(anchor)),
    );
    push_date(
        &mut out,
        text::contains(content, "本月") || text::contains(content, "这个月"),
        dates::first_of_month(anchor),
    );
    push_date(
        &mut out,
        text::contains(content, "下月") || text::contains(content, "下个月"),
        dates::first_of_month(dates::next_month(anchor)),
    );
    push_date(
        &mut out,
        text::contains(content, "今年"),
        Date { year: anchor.year, month: 1, day: 1 },
    );
    push_date(
        &mut out,
        text::contains(content, "去年"),
        Date { year: anchor.year - 1, month: 1, day: 1 },
    );
    out
}

/// What stands behind a prefix in those of the tags that have it, each once.
pub open spec fn persisted(tags: Seq<Seq<char>>) -> SignalsView
    decreases tags.len(),
{
    if tags.len() == 0 {
        no_signals()
    } else {
        let p = persisted(tags.drop_last());
        let s = text::trimmed(tags.last());
        match (
            text::without_prefix(s, SIGNAL_NUM_PREFIX@),
            text::without_prefix(s, SIGNAL_DATE_PREFIX@),
            text::without_prefix(s, SIGNAL_UPDATE_PREFIX@),
        ) {
            (Some(v), _, _) => SignalsView { numbers: added(p.numbers, v), ..p },
            (None, Some(v), _) => SignalsView { dates: added(p.dates, v), ..p },
            (None, None, Some(v)) => SignalsView {
                update_markers: added(p.update_markers, v),
                ..p
            },
            (None, None, None) => p,
        }
    }
}

/// The tags in a text: none where it is not the text of a list.
pub open spec fn tags_in(tags_json: Seq<char>) -> Seq<Seq<char>> {
    match json::parsed_list(tags_json) {
        Some(l) => l,
        None => Seq::empty(),
    }
}

/// Reads the tags in a text.
fn read_tags(tags_json: &str) -> (r: Vec<String>)
    ensures
        text::texts(r@) == tags_in(tags_json@),
{
    match json::read_list(tags_json) {
        Some(v) => v,
        None => {
            let v: Vec<String> = Vec::new();
            assert(text::texts(v@) =~= Seq::empty());
            v
        },
    }
}

/// The signals among the tags.
pub fn signals_in_tags(tags: &Vec<String>) -> (r: Signals)
    ensures
        r@ == persisted(text::texts(tags@)),
{
    let ghost all = text::texts(tags@);
    let mut numbers: Vec<String> = Vec::new();
    let mut dates: Vec<String> = Vec::new();
    let mut update_markers: Vec<String> = Vec::new();
    let mut i: usize = 0;
    assert(text::texts(numbers@) =~= Seq::empty());
    while i < tags.len()
        invariant
            i <= tags@.len(),
            all == text::texts(tags@),
            text::texts(numbers@) == persisted(all.take(i as int)).numbers,
            text::texts(dates@) == persisted(all.take(i as int)).dates,
            text::texts(update_markers@) == persisted(all.take(i as int)).update_markers,
        decreases tags@.len() - i,
    {
        assert(all.take(i + 1).drop_last() =~= all.take(i as int));
        assert(all.take(i + 1).last() == tags@[i as int]@);
        let s = text::trim(tags[i].as_str());
        if let Some(v) = text::strip_prefix(s.as_str(), SIGNAL_NUM_PREFIX) {
            push_unique(&mut numbers, v.as_str());
        } else if let Some(v) = text::strip_prefix(s.as_str(), SIGNAL_DATE_PREFIX) {
            push_unique(&mut dates, v.as_str());
        } else if let Some(v) = text::strip_prefix(s.as_str(), SIGNAL_UPDATE_PREFIX) {
            push_unique(&mut update_markers, v.as_str());
        }
        i += 1;
    }
    assert(all.take(all.len() as int) =~= all);
    Signals { numbers, dates, update_markers }
}

/// The signals among the tags in a text.
pub fn parse_persisted_signal_tags(tags_json: &str) -> (r: Signals)
    ensures
        r@ == persisted(tags_in(tags_json@)),
{
    let tags = read_tags(tags_json);
    signals_in_tags(&tags)
}

/// The dates of a text: those in it, the day it speaks of where that is known, and
/// those that it names by their distance.
pub open spec fn all_dates(content: Seq<char>, occurred: Option<Seq<char>>, anchor: Date) -> Seq<
    Seq<char>,
> {
    let l = dates_from(content, 0, Seq::empty());
    let l = match occurred {
        Some(d) => added(l, d),
        None => l,
    };
    all_added(l, relative_dates(content, anchor))
}

/// The words of change of a text, with those among its tags.
pub open spec fn all_markers(
    content: Seq<char>,
    tags_json: Seq<char>,
    kept: Seq<Seq<char>>,
) -> Seq<Seq<char>> {
    let l = all_added(words_in(text::ascii_lowered(content), change_words()), kept);
    let lower = text::ascii_lowered(tags_json);
    if text::occurs(lower, "supersed"@) || text::occurs(lower, "\"pattern\""@) {
        added(l, "supersede_chain"@)
    } else {
        l
    }
}

/// The signals of a text and of its tags, where `kept` are those among the tags.
pub open spec fn signals_with(
    content: Seq<char>,
    tags_json: Seq<char>,
    occurred: Option<Seq<char>>,
    anchor: Date,
    kept: SignalsView,
) -> SignalsView {
    SignalsView {
        numbers: first_n(
            all_added(numbers_from(content, 0, Seq::empty()), kept.numbers),
            MAX_NUMBERS as int,
        ),
        dates: first_n(
            all_added(all_dates(content, occurred, anchor), kept.dates),
            MAX_DATES as int,
        ),
        update_markers: first_n(
            all_markers(content, tags_json, kept.update_markers),
            MAX_UPDATE_MARKERS as int,
        ),
    }
}

/// The signals of a text and of its tags.
pub open spec fn signals_of(
    content: Seq<char>,
    tags_json: Seq<char>,
    occurred: Option<Seq<char>>,
    anchor: Date,
) -> SignalsView {
    signals_with(content, tags_json, occurred, anchor, persisted(tags_in(tags_json)))
}

/// No signals.
pub open spec fn no_signals() -> SignalsView {
    SignalsView { numbers: Seq::empty(), dates: Seq::empty(), update_markers: Seq::empty() }
}

/// The signals of a text without tags.
pub open spec fn plain_signals(content: Seq<char>, occurred: Option<Seq<char>>, anchor: Date) -> SignalsView {
    signals_with(content, "[]"@, occurred, anchor, no_signals())
}

/// Finds the signals of a text without tags.
pub fn extract_plain_signals(content: &str, occurred_date: Option<&str>, anchor: Date) -> (r: Signals)
    requires
        is_anchor(anchor),
    ensures
        r@ == plain_signals(content@, text::opt_str(occurred_date), anchor),
{
    let kept = Signals { numbers: Vec::new(), dates: Vec::new(), update_markers: Vec::new() };
    assert(kept@.numbers =~= Seq::empty());
    assert(kept@.dates =~= Seq::empty());
    assert(kept@.update_markers =~= Seq::empty());
    collect_signals(content, "[]", occurred_date, anchor, &kept)
}

/// Finds the signals of a text, where `kept` are those among its tags.
pub fn collect_signals(
    content: &str,
    tags_json: &str,
    occurred_date: Option<&str>,
    anchor: Date,
    kept: &Signals,
) -> (r: Signals)
    requires
        is_anchor(anchor),
    ensures
        r@ == signals_with(content@, tags_json@, text::opt_str(occurred_date), anchor, kept@),
{
    let mut numbers = extract_numbers(content);
    let mut dates = extract_dates(content);
    let mut update_markers = extract_update_markers(content);
    if let Some(d) = occurred_date {
        push_unique(&mut dates, d);
    }
    let relative = resolve_relative_dates(content, anchor);
    push_all(&mut dates, &relative);
    push_all(&mut numbers, &kept.numbers);
    push_all(&mut dates, &kept.dates);
    push_all(&mut update_markers, &kept.update_markers);
    let lower = text::to_ascii_lower(tags_json);
    if text::contains(lower.as_str(), "supersed") || text::contains(lower.as_str(), "\"pattern\"") {
        push_unique(&mut update_markers, "supersede_chain");
    }
    cut(&mut numbers, MAX_NUMBERS);
    cut(&mut dates, MAX_DATES);
    cut(&mut update_markers, MAX_UPDATE_MARKERS);
    Signals { numbers, dates, update_markers }
}

/// Finds the signals of a text and of its tags. `occurred_date` is the day that it
/// speaks of, where that is known; dates that it names by their distance count
/// from the anchor.
pub fn signals_on(
    content: &str,
    tags_json: &str,
    occurred_date: Option<&str>,
    anchor: Date,
) -> (r: Signals)
    requires
        is_anchor(anchor),
    ensures
        r@ == signals_of(content@, tags_json@, text::opt_str(occurred_date), anchor),
{
    let kept = parse_persisted_signal_tags(tags_json);
    collect_signals(content, tags_json, occurred_date, anchor, &kept)
}

/// The signals as JSON.
pub fn signals_json(s: &Signals) -> (r: Json)
    ensures
        r@ == JsonView::empty().with("numbers"@, json::text_array(s@.numbers)).with(
            "dates"@,
            json::text_array(s@.dates),
        ).with("update_markers"@, json::text_array(s@.update_markers)),
{
    let mut o = json::with(json::empty_object(), "numbers", json::string_array(&s.numbers));
    o = json::with(o, "dates", json::string_array(&s.dates));
    json::with(o, "update_markers", json::string_array(&s.update_markers))
}

/// Each text of a list behind a prefix.
pub open spec fn prefixed(prefix: Seq<char>, l: Seq<Seq<char>>) -> Seq<Seq<char>> {
    Seq::new(l.len(), |i: int| prefix + l[i])
}

/// The tags that keep the signals.
pub open spec fn tags_of(s: SignalsView) -> Seq<Seq<char>> {
    prefixed(SIGNAL_NUM_PREFIX@, first_n(s.numbers, MAX_NUMBERS as int)) + prefixed(
        SIGNAL_DATE_PREFIX@,
        first_n(s.dates, MAX_DATES as int),
    ) + prefixed(SIGNAL_UPDATE_PREFIX@, first_n(s.update_markers, MAX_UPDATE_MARKERS as int))
}

fn push_prefixed(out: &mut Vec<String>, prefix: &str, l: &Vec<String>, max: usize)
    ensures
        text::texts(final(out)@) == text::texts(old(out)@) + prefixed(
            prefix@,
            first_n(text::texts(l@), max as int),
        ),
{
    let ghost before = text::texts(out@);
    let ghost want = first_n(text::texts(l@), max as int);
    let n: usize = if l.len() <= max {
        l.len()
    } else {
        max
    };
    assert(text::texts(l@).len() == l@.len());
    let mut i: usize = 0;
    assert(before + prefixed(prefix@, want.take(0)) =~= before);
    while i < n
        invariant
            i <= n <= l@.len(),
            n == want.len(),
            forall|k: int| 0 <= k < n ==> #[trigger] want[k] == l@[k]@,
            text::texts(out@) == before + prefixed(prefix@, want.take(i as int)),
        decreases n - i,
    {
        let t = text::cat(prefix, l[i].as_str());
        proof {
            text::lemma_texts_push(out@, t);
            assert(before + prefixed(prefix@, want.take(i + 1)) =~= (before + prefixed(
                prefix@,
                want.take(i as int),
            )).push(t@));
        }
        out.push(t);
        i += 1;
    }
    assert(want.take(n as int) =~= want);
}

/// The tags that keep the signals.
pub fn signal_tags_from_value(s: &Signals) -> (r: Vec<String>)
    ensures
        text::texts(r@) == tags_of(s@),
{
    let mut out: Vec<String> = Vec::new();
    assert(text::texts(out@) =~= Seq::empty());
    push_prefixed(&mut out, SIGNAL_NUM_PREFIX, &s.numbers, MAX_NUMBERS);
    push_prefixed(&mut out, SIGNAL_DATE_PREFIX, &s.dates, MAX_DATES);
    push_prefixed(&mut out, SIGNAL_UPDATE_PREFIX, &s.update_markers, MAX_UPDATE_MARKERS);
    assert(text::texts(out@) =~= tags_of(s@));
    out
}

/// A tag that keeps a signal.
pub open spec fn signal_tag(tag: Seq<char>) -> bool {
    let s = text::trimmed(tag);
    text::begins(s, SIGNAL_NUM_PREFIX@) || text::begins(s, SIGNAL_DATE_PREFIX@) || text::begins(
        s,
        SIGNAL_UPDATE_PREFIX@,
    )
}

/// The tags that keep no signal.
pub open spec fn other_tags(tags: Seq<Seq<char>>) -> Seq<Seq<char>>
    decreases tags.len(),
{
    if tags.len() == 0 {
        Seq::empty()
    } else if signal_tag(tags.last()) {
        other_tags(tags.drop_last())
    } else {
        other_tags(tags.drop_last()).push(tags.last())
    }
}

fn is_signal_tag(tag: &str) -> (r: bool)
    ensures
        r == signal_tag(tag@),
{
    let s = text::trim(tag);
    text::starts_with(s.as_str(), SIGNAL_NUM_PREFIX) || text::starts_with(s.as_str(), SIGNAL_DATE_PREFIX)
        || text::starts_with(s.as_str(), SIGNAL_UPDATE_PREFIX)
}

/// The tags with the signals in place of those that they kept before.
pub open spec fn merged(tags: Seq<Seq<char>>, s: SignalsView) -> Seq<Seq<char>> {
    other_tags(tags) + tags_of(s)
}

/// Puts the signals among the tags, in place of those that they kept before.
pub fn merge_tags(tags: &Vec<String>, s: &Signals) -> (r: Vec<String>)
    ensures
        text::texts(r@) == merged(text::texts(tags@), s@),
{
    let ghost all = text::texts(tags@);
    let mut out: Vec<String> = Vec::new();
    let mut i: usize = 0;
    assert(text::texts(out@) =~= other_tags(all.take(0)));
    while i < tags.len()
        invariant
            i <= tags@.len(),
            all == text::texts(tags@),
            text::texts(out@) == other_tags(all.take(i as int)),
        decreases tags@.len() - i,
    {
        assert(all.take(i + 1).drop_last() =~= all.take(i as int));
        assert(all.take(i + 1).last() == tags@[i as int]@);
        if !is_signal_tag(tags[i].as_str()) {
            let t = tags[i].clone();
            proof {
                text::lemma_texts_push(out@, t);
            }
            out.push(t);
        }
        i += 1;
    }
    assert(all.take(all.len() as int) =~= all);
    let mut more = signal_tags_from_value(s);
    let ghost a = out@;
    let ghost b = more@;
    out.append(&mut more);
    assert(text::texts(out@) =~= text::texts(a) + text::texts(b));
    out
}

/// Puts the signals of a text among its tags, unless that is switched off.
pub fn merge_signal_tags_on(
    tags_json: &str,
    content: &str,
    occurred_date: Option<&str>,
    anchor: Date,
    enabled: bool,
) -> (r: String)
    requires
        is_anchor(anchor),
    ensures
        !enabled ==> r@ == tags_json@,
        enabled ==> r@ == json::list_text(
            merged(
                tags_in(tags_json@),
                plain_signals(content@, text::opt_str(occurred_date), anchor),
            ),
        ),
        enabled ==> tags_in(r@) == merged(
            tags_in(tags_json@),
            plain_signals(content@, text::opt_str(occurred_date), anchor),
        ),
{
    if !enabled {
        return tags_json.to_string();
    }
    let signals = extract_plain_signals(content, occurred_date, anchor);
    let tags = read_tags(tags_json);
    let all = merge_tags(&tags, &signals);
    json::write_list(&all)
}

/// Nothing stands twice in a list, and each of its texts ends with a character that
/// is not white space.
pub open spec fn clean(l: Seq<Seq<char>>) -> bool {
    &&& forall|i: int| 0 <= i < l.len() ==> solid_end(#[trigger] l[i])
    &&& forall|i: int, j: int| 0 <= i < j < l.len() ==> #[trigger] l[i] != #[trigger] l[j]
}

/// A text ends with a character that is not white space.
pub open spec fn solid_end(s: Seq<char>) -> bool {
    s.len() > 0 && !text::is_space(s.last())
}

proof fn lemma_trimmed_solid(s: Seq<char>)
    requires
        solid_end(s),
        !text::is_space(s[0]),
    ensures
        text::trimmed(s) == s,
{
}

proof fn lemma_prefixes()
    ensures
        SIGNAL_NUM_PREFIX@.len() == 11,
        SIGNAL_DATE_PREFIX@.len() == 12,
        SIGNAL_UPDATE_PREFIX@.len() == 14,
        SIGNAL_NUM_PREFIX@[0] == 's',
        SIGNAL_DATE_PREFIX@[0] == 's',
        SIGNAL_UPDATE_PREFIX@[0] == 's',
        SIGNAL_NUM_PREFIX@[7] == 'n',
        SIGNAL_DATE_PREFIX@[7] == 'd',
        SIGNAL_UPDATE_PREFIX@[7] == 'u',
{
    reveal_strlit("signal:num:");
    reveal_strlit("signal:date:");
    reveal_strlit("signal:update:");
}

/// The signals with the numbers of a list added.
pub open spec fn with_numbers(p: SignalsView, l: Seq<Seq<char>>) -> SignalsView {
    SignalsView { numbers: all_added(p.numbers, l), ..p }
}

pub open spec fn with_dates(p: SignalsView, l: Seq<Seq<char>>) -> SignalsView {
    SignalsView { dates: all_added(p.dates, l), ..p }
}

pub open spec fn with_markers(p: SignalsView, l: Seq<Seq<char>>) -> SignalsView {
    SignalsView { update_markers: all_added(p.update_markers, l), ..p }
}

proof fn lemma_behind_prefix(prefix: Seq<char>, v: Seq<char>)
    requires
        prefix.len() > 0,
        prefix[0] == 's',
        solid_end(v),
    ensures
        text::trimmed(prefix + v) == prefix + v,
        text::without_prefix(prefix + v, prefix) == Some(v),
{
    let t = prefix + v;
    assert(t.last() == v.last());
    lemma_trimmed_solid(t);
    assert(t.subrange(0, prefix.len() as int) =~= prefix);
    assert(t.skip(prefix.len() as int) =~= v);
}

proof fn lemma_numbers_kept(a: Seq<Seq<char>>, l: Seq<Seq<char>>)
    requires
        forall|i: int| 0 <= i < l.len() ==> solid_end(#[trigger] l[i]),
    ensures
        persisted(a + prefixed(SIGNAL_NUM_PREFIX@, l)) == with_numbers(persisted(a), l),
    decreases l.len(),
{
    let p = SIGNAL_NUM_PREFIX@;
    let all = a + prefixed(p, l);
    if l.len() == 0 {
        assert(all =~= a);
    } else {
        lemma_numbers_kept(a, l.drop_last());
        lemma_prefixes();
        assert(all.drop_last() =~= a + prefixed(p, l.drop_last()));
        assert(all.last() == p + l.last());
        lemma_behind_prefix(p, l.last());
    }
}

proof fn lemma_dates_kept(a: Seq<Seq<char>>, l: Seq<Seq<char>>)
    requires
        forall|i: int| 0 <= i < l.len() ==> solid_end(#[trigger] l[i]),
    ensures
        persisted(a + prefixed(SIGNAL_DATE_PREFIX@, l)) == with_dates(persisted(a), l),
    decreases l.len(),
{
    let p = SIGNAL_DATE_PREFIX@;
    let all = a + prefixed(p, l);
    if l.len() == 0 {
        assert(all =~= a);
    } else {
        lemma_dates_kept(a, l.drop_last());
        lemma_prefixes();
        assert(all.drop_last() =~= a + prefixed(p, l.drop_last()));
        assert(all.last() == p + l.last());
        lemma_behind_prefix(p, l.last());
        assert(all.last()[7] == 'd');
        lemma_other_prefix(all.last(), SIGNAL_NUM_PREFIX@);
    }
}

proof fn lemma_markers_kept(a: Seq<Seq<char>>, l: Seq<Seq<char>>)
    requires
        forall|i: int| 0 <= i < l.len() ==> solid_end(#[trigger] l[i]),
    ensures
        persisted(a + prefixed(SIGNAL_UPDATE_PREFIX@, l)) == with_markers(persisted(a), l),
    decreases l.len(),
{
    let p = SIGNAL_UPDATE_PREFIX@;
    let all = a + prefixed(p, l);
    if l.len() == 0 {
        assert(all =~= a);
    } else {
        lemma_markers_kept(a, l.drop_last());
        lemma_prefixes();
        assert(all.drop_last() =~= a + prefixed(p, l.drop_last()));
        assert(all.last() == p + l.last());
        lemma_behind_prefix(p, l.last());
        assert(all.last()[7] == 'u');
        lemma_other_prefix(all.last(), SIGNAL_NUM_PREFIX@);
        lemma_other_prefix(all.last(), SIGNAL_DATE_PREFIX@);
    }
}

proof fn lemma_other_prefix(s: Seq<char>, p: Seq<char>)
    requires
        s.len() > 7,
        p.len() > 7,
        s[7] != p[7],
    ensures
        text::without_prefix(s, p) is None,
        !text::begins(s, p),
{
    if text::begins(s, p) {
        assert(s.subrange(0, p.len() as int)[7] == p[7]);
    }
}

proof fn lemma_others_keep_nothing(tags: Seq<Seq<char>>)
    ensures
        persisted(other_tags(tags)) == no_signals(),
    decreases tags.len(),
{
    if tags.len() > 0 {
        lemma_others_keep_nothing(tags.drop_last());
        let o = other_tags(tags.drop_last());
        if !signal_tag(tags.last()) {
            assert(o.push(tags.last()).drop_last() =~= o);
        }
    }
}

proof fn lemma_all_added_clean(l: Seq<Seq<char>>)
    requires
        clean(l),
    ensures
        all_added(Seq::empty(), l) == l,
    decreases l.len(),
{
    if l.len() > 0 {
        let p = l.drop_last();
        lemma_all_added_clean(p);
        assert(p.push(l.last()) =~= l);
        if text::listed(p, l.last()) {
            let k = choose|k: int| 0 <= k < p.len() && #[trigger] p[k] == l.last();
            assert(l[k] != l[l.len() - 1]);
        }
    }
}

proof fn lemma_clean_first(l: Seq<Seq<char>>, n: int)
    requires
        clean(l),
        n >= 0,
    ensures
        clean(first_n(l, n)),
{
}

/// What is put among the tags is read off them again: all signals that end with a
/// character that is not white space, each once, in their order. What the tags
/// kept before is gone.
pub proof fn law_signals_are_read_back(tags: Seq<Seq<char>>, s: SignalsView)
    requires
        clean(s.numbers),
        clean(s.dates),
        clean(s.update_markers),
    ensures
        persisted(merged(tags, s)).numbers == first_n(s.numbers, MAX_NUMBERS as int),
        persisted(merged(tags, s)).dates == first_n(s.dates, MAX_DATES as int),
        persisted(merged(tags, s)).update_markers == first_n(
            s.update_markers,
            MAX_UPDATE_MARKERS as int,
        ),
{
    let n = first_n(s.numbers, MAX_NUMBERS as int);
    let d = first_n(s.dates, MAX_DATES as int);
    let u = first_n(s.update_markers, MAX_UPDATE_MARKERS as int);
    lemma_clean_first(s.numbers, MAX_NUMBERS as int);
    lemma_clean_first(s.dates, MAX_DATES as int);
    lemma_clean_first(s.update_markers, MAX_UPDATE_MARKERS as int);
    let o = other_tags(tags);
    lemma_others_keep_nothing(tags);
    let a = o + prefixed(SIGNAL_NUM_PREFIX@, n);
    lemma_numbers_kept(o, n);
    let b = a + prefixed(SIGNAL_DATE_PREFIX@, d);
    lemma_dates_kept(a, d);
    let c = b + prefixed(SIGNAL_UPDATE_PREFIX@, u);
    lemma_markers_kept(b, u);
    assert(merged(tags, s) =~= c);
    lemma_all_added_clean(n);
    lemma_all_added_clean(d);
    lemma_all_added_clean(u);
}

/// Tags that keep no signal stay, in their order and in front.
pub proof fn law_other_tags_stay(tags: Seq<Seq<char>>, s: SignalsView, tag: Seq<char>)
    requires
        text::listed(tags, tag),
        !signal_tag(tag),
    ensures
        text::listed(other_tags(tags), tag),
        text::listed(merged(tags, s), tag),
        merged(tags, s).take(other_tags(tags).len() as int) == other_tags(tags),
    decreases tags.len(),
{
    let k = choose|k: int| 0 <= k < tags.len() && #[trigger] tags[k] == tag;
    let p = tags.drop_last();
    let o = other_tags(p);
    if k < p.len() {
        assert(p[k] == tag);
        law_other_tags_stay(p, s, tag);
        let j = choose|j: int| 0 <= j < o.len() && #[trigger] o[j] == tag;
        assert(other_tags(tags)[j] == tag);
    } else {
        assert(other_tags(tags)[o.len() as int] == tag);
    }
    let all = other_tags(tags);
    let j = choose|j: int| 0 <= j < all.len() && #[trigger] all[j] == tag;
    assert(merged(tags, s)[j] == tag);
    assert(merged(tags, s).take(all.len() as int) =~= all);
}

proof fn lemma_added_clean(l: Seq<Seq<char>>, s: Seq<char>)
    requires
        clean(l),
        s.len() == 0 || solid_end(s),
    ensures
        clean(added(l, s)),
{
    let r = added(l, s);
    assert forall|i: int, j: int| 0 <= i < j < r.len() implies #[trigger] r[i] != #[trigger] r[j] by {
        if j == l.len() && r[i] == s {
            assert(l[i] == s);
            assert(text::listed(l, s));
        }
    }
}

proof fn lemma_all_added_keeps_clean(l: Seq<Seq<char>>, more: Seq<Seq<char>>)
    requires
        clean(l),
        forall|i: int|
            0 <= i < more.len() ==> (#[trigger] more[i]).len() == 0 || solid_end(more[i]),
    ensures
        clean(all_added(l, more)),
    decreases more.len(),
{
    if more.len() > 0 {
        lemma_all_added_keeps_clean(l, more.drop_last());
        lemma_added_clean(all_added(l, more.drop_last()), more.last());
    }
}

proof fn lemma_numbers_clean(s: Seq<char>, i: int, acc: Seq<Seq<char>>)
    requires
        clean(acc),
    ensures
        clean(numbers_from(s, i, acc)),
    decreases s.len() - i,
{
    if 0 <= i < s.len() {
        if !text::is_digit(s[i]) || !(i < number_end(s, i) <= s.len()) {
            lemma_numbers_clean(s, i + 1, acc);
        } else {
            let e = number_end(s, i);
            lemma_number_end(s, i);
            let n = s.subrange(i, e);
            assert(n.last() == s[e - 1]);
            lemma_added_clean(acc, n);
            lemma_numbers_clean(
                s,
                e,
                if e - i <= 24 {
                    added(acc, n)
                } else {
                    acc
                },
            );
        }
    }
}

proof fn lemma_dates_clean(s: Seq<char>, i: int, acc: Seq<Seq<char>>)
    requires
        clean(acc),
    ensures
        clean(dates_from(s, i, acc)),
    decreases s.len() - i,
{
    if 0 <= i && i + 10 <= s.len() {
        if date_at(s, i, '-') {
            let d = s.subrange(i, i + 10);
            assert(d.last() == s[i + 9]);
            lemma_added_clean(acc, d);
            lemma_dates_clean(s, i + 10, added(acc, d));
        } else if date_at(s, i, '/') {
            let d = hyphened(s, i);
            assert(d.last() == s[i + 9]);
            lemma_added_clean(acc, d);
            lemma_dates_clean(s, i + 10, added(acc, d));
        } else {
            lemma_dates_clean(s, i + 1, acc);
        }
    }
}

proof fn lemma_dec_end(n: nat)
    ensures
        solid_end(text::dec(n)),
    decreases n,
{
}

proof fn lemma_iso_end(d: Date)
    ensures
        solid_end(dates::iso_date(d)),
{
    lemma_dec_end(d.day as nat);
    let p = dates::padded(d.day as nat, 2);
    assert(p.last() == text::dec(d.day as nat).last());
    assert(dates::iso_date(d).last() == p.last());
}

proof fn lemma_dated_clean(l: Seq<Seq<char>>, spoken: bool, d: Date)
    requires
        clean(l),
    ensures
        clean(dated(l, spoken, d)),
{
    lemma_iso_end(d);
    lemma_added_clean(l, dates::iso_date(d));
}

proof fn lemma_weekdays_clean(s: Seq<char>, anchor: Date, k: int, acc: Seq<Seq<char>>)
    requires
        clean(acc),
    ensures
        clean(weekdays_in(s, anchor, k, acc)),
    decreases k,
{
    if k > 0 {
        lemma_weekdays_clean(s, anchor, k - 1, acc);
        let l = weekdays_in(s, anchor, k - 1, acc);
        let a = text::occurs(s, "上周"@ + weekday_sign(k - 1));
        lemma_dated_clean(l, a, weekday_in_week(anchor, k - 1, -1));
        let m = dated(l, a, weekday_in_week(anchor, k - 1, -1));
        let b = text::occurs(s, "本周"@ + weekday_sign(k - 1)) || text::occurs(
            s,
            "这周"@ + weekday_sign(k - 1),
        );
        lemma_dated_clean(m, b, weekday_in_week(anchor, k - 1, 0));
    }
}

proof fn lemma_relative_clean(s: Seq<char>, anchor: Date)
    ensures
        clean(relative_dates(s, anchor)),
{
    let l0: Seq<Seq<char>> = Seq::empty();
    let c0 = text::occurs(s, "今天"@) || text::occurs(s, "今日"@) || text::occurs(s, "当日"@)
        || text::occurs(s, "当天"@);
    lemma_dated_clean(l0, c0, anchor);
    let l1 = dated(l0, c0, anchor);
    let c1 = text::occurs(s, "昨天"@) || text::occurs(s, "昨日"@);
    lemma_dated_clean(l1, c1, dates::days_after(anchor, -1));
    let l2 = dated(l1, c1, dates::days_after(anchor, -1));
    let c2 = text::occurs(s, "明天"@) || text::occurs(s, "明日"@);
    lemma_dated_clean(l2, c2, dates::days_after(anchor, 1));
    let l3 = dated(l2, c2, dates::days_after(anchor, 1));
    let c3 = text::occurs(s, "前天"@);
    lemma_dated_clean(l3, c3, dates::days_after(anchor, -2));
    let l4 = dated(l3, c3, dates::days_after(anchor, -2));
    let c4 = text::occurs(s, "后天"@);
    lemma_dated_clean(l4, c4, dates::days_after(anchor, 2));
    let l5 = dated(l4, c4, dates::days_after(anchor, 2));
    let c5 = text::occurs(s, "上周"@);
    lemma_dated_clean(l5, c5, dates::days_after(dates::monday_of(anchor), -7));
    let l6 = dated(l5, c5, dates::days_after(dates::monday_of(anchor), -7));
    let c6 = text::occurs(s, "本周"@) || text::occurs(s, "这周"@);
    lemma_dated_clean(l6, c6, dates::monday_of(anchor));
    let l7 = dated(l6, c6, dates::monday_of(anchor));
    assert(l7 == near_days(s, anchor));
    lemma_weekdays_clean(s, anchor, 7, l7);
    lemma_far_clean(s, anchor, weekdays_in(s, anchor, 7, l7));
}

proof fn lemma_far_clean(s: Seq<char>, anchor: Date, acc: Seq<Seq<char>>)
    requires
        clean(acc),
    ensures
        clean(far_days(s, anchor, acc)),
{
    let d0 = dates::month_start(dates::month_before(anchor));
    let c0 = text::occurs(s, "上月"@) || text::occurs(s, "上个月"@);
    lemma_dated_clean(acc, c0, d0);
    let l1 = dated(acc, c0, d0);
    let d1 = dates::month_start(anchor);
    let c1 = text::occurs(s, "本月"@) || text::occurs(s, "这个月"@);
    lemma_dated_clean(l1, c1, d1);
    let l2 = dated(l1, c1, d1);
    let d2 = dates::month_start(dates::month_after(anchor));
    let c2 = text::occurs(s, "下月"@) || text::occurs(s, "下个月"@);
    lemma_dated_clean(l2, c2, d2);
    let l3 = dated(l2, c2, d2);
    let d3 = Date { year: anchor.year, month: 1, day: 1 };
    let c3 = text::occurs(s, "今年"@);
    lemma_dated_clean(l3, c3, d3);
    let l4 = dated(l3, c3, d3);
    let d4 = Date { year: (anchor.year - 1) as i32, month: 1, day: 1 };
    let c4 = text::occurs(s, "去年"@);
    lemma_dated_clean(l4, c4, d4);
}

proof fn lemma_words_clean(lower: Seq<char>, words: Seq<Seq<char>>)
    requires
        forall|i: int| 0 <= i < words.len() ==> solid_end(#[trigger] words[i]),
    ensures
        clean(words_in(lower, words)),
    decreases words.len(),
{
    if words.len() > 0 {
        lemma_words_clean(lower, words.drop_last());
        lemma_added_clean(words_in(lower, words.drop_last()), words.last());
    }
}

proof fn lemma_change_words_end()
    ensures
        forall|i: int|
            0 <= i < change_words().len() ==> solid_end(#[trigger] change_words()[i]),
        solid_end("supersede_chain"@),
{
    reveal_strlit("更新");
    reveal_strlit("变更");
    reveal_strlit("改为");
    reveal_strlit("改成");
    reveal_strlit("调整");
    reveal_strlit("升级");
    reveal_strlit("目前");
    reveal_strlit("现在");
    reveal_strlit("之前");
    reveal_strlit("原先");
    reveal_strlit("最新");
    reveal_strlit("supersed");
    reveal_strlit("updated");
    reveal_strlit("changed");
    reveal_strlit("currently");
    reveal_strlit("previously");
    reveal_strlit("supersede_chain");
}

/// The signals of a text are fit to be kept: nothing occurs twice, and nothing ends
/// with white space, unless the day that was given does.
pub proof fn law_signals_are_clean(content: Seq<char>, occurred: Option<Seq<char>>, anchor: Date)
    requires
        occurred is Some ==> occurred->0.len() == 0 || solid_end(occurred->0),
    ensures
        clean(plain_signals(content, occurred, anchor).numbers),
        clean(plain_signals(content, occurred, anchor).dates),
        clean(plain_signals(content, occurred, anchor).update_markers),
{
    let e: Seq<Seq<char>> = Seq::empty();
    lemma_numbers_clean(content, 0, e);
    let n = numbers_from(content, 0, e);
    assert(all_added(n, e) == n);
    lemma_clean_first(n, MAX_NUMBERS as int);
    lemma_dates_clean(content, 0, e);
    let d0 = dates_from(content, 0, e);
    if occurred is Some {
        lemma_added_clean(d0, occurred->0);
    }
    let d1 = match occurred {
        Some(d) => added(d0, d),
        None => d0,
    };
    lemma_relative_clean(content, anchor);
    lemma_all_added_keeps_clean(d1, relative_dates(content, anchor));
    let d2 = all_dates(content, occurred, anchor);
    assert(all_added(d2, e) == d2);
    lemma_clean_first(d2, MAX_DATES as int);
    lemma_change_words_end();
    lemma_words_clean(text::ascii_lowered(content), change_words());
    let w = words_in(text::ascii_lowered(content), change_words());
    assert(all_added(w, e) == w);
    lemma_added_clean(w, "supersede_chain"@);
    lemma_clean_first(all_markers(content, "[]"@, e), MAX_UPDATE_MARKERS as int);
}

/// The numbers of a text that were put among the tags are found through these in
/// any text that has no numbers of its own.
pub proof fn law_kept_numbers_are_found(
    tags: Seq<Seq<char>>,
    content: Seq<char>,
    occurred: Option<Seq<char>>,
    anchor: Date,
    other: Seq<char>,
    other_json: Seq<char>,
)
    requires
        occurred is Some ==> occurred->0.len() == 0 || solid_end(occurred->0),
        numbers_from(other, 0, Seq::empty()).len() == 0,
    ensures
        signals_with(
            other,
            other_json,
            None,
            anchor,
            persisted(merged(tags, plain_signals(content, occurred, anchor))),
        ).numbers == plain_signals(content, occurred, anchor).numbers,
{
    let s = plain_signals(content, occurred, anchor);
    law_signals_are_clean(content, occurred, anchor);
    law_signals_are_read_back(tags, s);
    assert(numbers_from(other, 0, Seq::empty()) =~= Seq::empty());
    lemma_all_added_clean(s.numbers);
    assert(first_n(s.numbers, MAX_NUMBERS as int) =~= s.numbers);
}

/// How many texts of the first list stand in the second.
pub open spec fn shared(a: Seq<Seq<char>>, b: Seq<Seq<char>>) -> nat
    decreases a.len(),
{
    if a.len() == 0 {
        0
    } else {
        shared(a.drop_last(), b) + (if text::listed(b, a.last()) {
            1nat
        } else {
            0nat
        })
    }
}

fn count_shared(a: &Vec<String>, b: &Vec<String>) -> (r: usize)
    ensures
        r == shared(text::texts(a@), text::texts(b@)),
        r <= a@.len(),
{
    let ghost all = text::texts(a@);
    let mut n: usize = 0;
    let mut i: usize = 0;
    assert(shared(all.take(0), text::texts(b@)) == 0);
    while i < a.len()
        invariant
            i <= a@.len(),
            n <= i,
            all == text::texts(a@),
            n == shared(all.take(i as int), text::texts(b@)),
        decreases a@.len() - i,
    {
        assert(all.take(i + 1).drop_last() =~= all.take(i as int));
        assert(all.take(i + 1).last() == a@[i as int]@);
        if text::is_listed(b, a[i].as_str()) {
            n += 1;
        }
        i += 1;
    }
    assert(all.take(all.len() as int) =~= all);
    n
}

/// What a query asks for: its numbers, and its dates.
#[derive(Debug)]
pub struct Asked {
    pub numbers: Vec<String>,
    pub dates: Vec<String>,
}

/// The dates that a query asks for.
pub open spec fn asked_dates(query: Seq<char>, anchor: Date) -> Seq<Seq<char>> {
    all_added(dates_from(query, 0, Seq::empty()), relative_dates(query, anchor))
}

/// Finds what a query asks for: nothing where there is neither a number nor a date
/// in it.
pub fn asked_in(query: &str, anchor: Date) -> (r: Option<Asked>)
    requires
        is_anchor(anchor),
    ensures
        match r {
            Some(a) => {
                &&& text::texts(a.numbers@) == numbers_from(query@, 0, Seq::empty())
                &&& text::texts(a.dates@) == asked_dates(query@, anchor)
                &&& a.numbers@.len() > 0 || a.dates@.len() > 0
            },
            None => numbers_from(query@, 0, Seq::empty()).len() == 0 && asked_dates(
                query@,
                anchor,
            ).len() == 0,
        },
{
    let numbers = extract_numbers(query);
    let mut dates = extract_dates(query);
    let relative = resolve_relative_dates(query, anchor);
    push_all(&mut dates, &relative);
    assert(text::texts(numbers@).len() == numbers@.len());
    assert(text::texts(dates@).len() == dates@.len());
    if numbers.len() == 0 && dates.len() == 0 {
        None
    } else {
        Some(Asked { numbers, dates })
    }
}

/// How many numbers and dates of a query stand in a text.
#[derive(Debug, Clone, Copy, PartialEq, Eq, Structural)]
pub struct SignalHits {
    pub numbers: usize,
    pub dates: usize,
}

/// Counts the numbers and the dates of a query that stand in a text.
pub fn signal_hits(asked: &Asked, content: &str, anchor: Date) -> (r: SignalHits)
    requires
        is_anchor(anchor),
    ensures
        r.numbers == shared(
            text::texts(asked.numbers@),
            plain_signals(content@, None, anchor).numbers,
        ),
        r.dates == shared(
            text::texts(asked.dates@),
            plain_signals(content@, None, anchor).dates,
        ),
{
    let s = extract_plain_signals(content, None, anchor);
    SignalHits {
        numbers: count_shared(&asked.numbers, &s.numbers),
        dates: count_shared(&asked.dates, &s.dates),
    }
}

/// What hits are worth, in thousandths: 10 for a number and 15 for a date, 50 at
/// most.
pub open spec fn hits_worth(h: SignalHits) -> int {
    let w = h.numbers * 10 + h.dates * 15;
    if w > 50 {
        50
    } else {
        w
    }
}

/// What hits are worth, in thousandths.
pub fn boost_of(h: SignalHits) -> (r: u32)
    ensures
        r == hits_worth(h),
{
    if h.numbers >= 5 || h.dates >= 4 {
        50
    } else {
        let w: u32 = h.numbers as u32 * 10 + h.dates as u32 * 15;
        if w > 50 {
            50
        } else {
            w
        }
    }
}

/// A source with one more mark, unless it has it.
pub open spec fn marked(source: Seq<char>, mark: Seq<char>) -> Seq<char> {
    if text::occurs(source, mark) {
        source
    } else {
        source + ";"@ + mark
    }
}

/// Adds a mark to a source, unless it has it.
pub fn mark_source(source: &str, mark: &str) -> (r: String)
    ensures
        r@ == marked(source@, mark@),
{
    if text::contains(source, mark) {
        source.to_string()
    } else {
        text::cat3(source, ";", mark)
    }
}

/// What the signals of a text are worth to a query, in thousandths.
pub open spec fn signal_worth(query: Seq<char>, content: Seq<char>, anchor: Date) -> int {
    let s = plain_signals(content, None, anchor);
    let n = shared(numbers_from(query, 0, Seq::empty()), s.numbers);
    let d = shared(asked_dates(query, anchor), s.dates);
    let w = n * 10 + d * 15;
    if w > 50 {
        50
    } else {
        w as int
    }
}

/// What the signals of each text are worth to a query, in thousandths: nothing
/// where this is switched off, or where the query asks for no number and no date.
pub fn signal_boosts(
    query: &str,
    contents: &Vec<String>,
    anchor: Date,
    enabled: bool,
) -> (r: Vec<u32>)
    requires
        is_anchor(anchor),
    ensures
        r@.len() == contents@.len(),
        forall|i: int|
            0 <= i < r@.len() ==> #[trigger] r@[i] == (if enabled {
                signal_worth(query@, contents@[i]@, anchor)
            } else {
                0
            }),
{
    let asked = asked_in(query, anchor);
    let mut out: Vec<u32> = Vec::new();
    let mut i: usize = 0;
    while i < contents.len()
        invariant
            i <= contents@.len(),
            is_anchor(anchor),
            out@.len() == i,
            match asked {
                Some(a) => {
                    &&& text::texts(a.numbers@) == numbers_from(query@, 0, Seq::empty())
                    &&& text::texts(a.dates@) == asked_dates(query@, anchor)
                },
                None => numbers_from(query@, 0, Seq::empty()).len() == 0 && asked_dates(
                    query@,
                    anchor,
                ).len() == 0,
            },
            forall|k: int|
                0 <= k < i ==> #[trigger] out@[k] == (if enabled {
                    signal_worth(query@, contents@[k]@, anchor)
                } else {
                    0
                }),
        decreases contents@.len() - i,
    {
        let worth: u32 = if enabled {
            match &asked {
                Some(a) => boost_of(signal_hits(a, contents[i].as_str(), anchor)),
                None => 0,
            }
        } else {
            0
        };
        out.push(worth);
        i += 1;
    }
    out
}

/// The signals of a text and of its tags at a moment, from whose day dates count that
/// it names by their distance. There are some unless that day lies in the last year.
pub fn signals_at(
    content: &str,
    tags_json: &str,
    occurred_date: Option<&str>,
    now: Moment,
) -> (r: Option<Signals>)
    requires
        now.valid(),
        3 <= now.date.year,
    ensures
        match r {
            Some(s) => is_anchor(now.date) && s@ == signals_of(
                content@,
                tags_json@,
                text::opt_str(occurred_date),
                now.date,
            ),
            None => !is_anchor(now.date),
        },
{
    if now.date.year < dates::LAST_YEAR {
        Some(signals_on(content, tags_json, occurred_date, now.date))
    } else {
        None
    }
}

/// Finds the signals of a text and of its tags; dates that it names by their distance
/// count from today. There are some unless today lies in the last year.
pub fn extract_text_signals(
    content: &str,
    tags_json: &str,
    occurred_date: Option<&str>,
) -> (r: Option<Signals>)
    ensures
        exists|now: Moment| #[trigger]
            clock::shown(now) && match r {
                Some(s) => is_anchor(now.date) && s@ == signals_of(
                    content@,
                    tags_json@,
                    text::opt_str(occurred_date),
                    now.date,
                ),
                None => !is_anchor(now.date),
            },
{
    let now = clock::utc_now();
    assert(clock::shown(now));
    signals_at(content, tags_json, occurred_date, now)
}

/// These are the tags with the signals of a text among them, where dates count from a
/// day.
pub open spec fn holds_merged(
    r: Seq<char>,
    tags_json: Seq<char>,
    content: Seq<char>,
    occurred: Option<Seq<char>>,
    today: Date,
) -> bool {
    let l = merged(tags_in(tags_json), plain_signals(content, occurred, today));
    tags_in(r) == l && r == json::list_text(l)
}

/// The tags with the signals of a text at a moment among them, unless that is switched
/// off; dates count from the day of the moment. There is a result unless that day lies
/// in the last year.
pub fn merge_signal_tags_at(
    tags_json: &str,
    content: &str,
    occurred_date: Option<&str>,
    now: Moment,
    enabled: bool,
) -> (r: Option<String>)
    requires
        now.valid(),
        3 <= now.date.year,
    ensures
        !enabled ==> r is Some && r->0@ == tags_json@,
        enabled ==> match r {
            Some(s) => is_anchor(now.date) && holds_merged(
                s@,
                tags_json@,
                content@,
                text::opt_str(occurred_date),
                now.date,
            ),
            None => !is_anchor(now.date),
        },
{
    if !enabled {
        Some(tags_json.to_string())
    } else if now.date.year < dates::LAST_YEAR {
        Some(merge_signal_tags_on(tags_json, content, occurred_date, now.date, true))
    } else {
        None
    }
}

/// Puts the signals of a text among its tags, unless that is switched off; dates that
/// it names by their distance count from today. There is a result unless today lies in
/// the last year.
pub fn merge_signal_tags(
    tags_json: &str,
    content: &str,
    occurred_date: Option<&str>,
    enabled: bool,
) -> (r: Option<String>)
    ensures
        !enabled ==> r is Some && r->0@ == tags_json@,
        enabled ==> exists|now: Moment| #[trigger]
            clock::shown(now) && match r {
                Some(s) => is_anchor(now.date) && holds_merged(
                    s@,
                    tags_json@,
                    content@,
                    text::opt_str(occurred_date),
                    now.date,
                ),
                None => !is_anchor(now.date),
            },
{
    if !enabled {
        return Some(tags_json.to_string());
    }
    let now = clock::utc_now();
    assert(clock::shown(now));
    merge_signal_tags_at(tags_json, content, occurred_date, now, true)
}

fn no_boosts(n: usize) -> (r: Vec<u32>)
    ensures
        r@.len() == n,
        forall|i: int| 0 <= i < n ==> #[trigger] r@[i] == 0,
{
    let mut out: Vec<u32> = Vec::new();
    let mut i: usize = 0;
    while i < n
        invariant
            i <= n,
            out@.len() == i,
            forall|k: int| 0 <= k < i ==> #[trigger] out@[k] == 0,
        decreases n - i,
    {
        out.push(0);
        i += 1;
    }
    out
}

/// What the signals of each text are worth to a query at a moment, in thousandths:
/// nothing where this is switched off. There is a result unless it is switched on, there
/// are texts, and the day of the moment lies in the last year.
pub fn signal_boosts_at(query: &str, contents: &Vec<String>, now: Moment, enabled: bool) -> (r: Option<
    Vec<u32>,
>)
    requires
        now.valid(),
        3 <= now.date.year,
    ensures
        r is None <==> enabled && contents@.len() > 0 && !is_anchor(now.date),
        r is Some ==> r->0@.len() == contents@.len(),
        r is Some ==> forall|i: int|
            0 <= i < contents@.len() ==> #[trigger] r->0@[i] == (if enabled {
                signal_worth(query@, contents@[i]@, now.date)
            } else {
                0
            }),
{
    if !enabled || contents.len() == 0 {
        Some(no_boosts(contents.len()))
    } else if now.date.year < dates::LAST_YEAR {
        Some(signal_boosts(query, contents, now.date, true))
    } else {
        None
    }
}

/// What the signals of each text are worth to a query, in thousandths, as of today:
/// nothing where this is switched off. There is a result unless it is switched on, there
/// are texts, and today lies in the last year.
pub fn rerank_by_text_signals(query: &str, contents: &Vec<String>, enabled: bool) -> (r: Option<
    Vec<u32>,
>)
    ensures
        !enabled || contents@.len() == 0 ==> r is Some,
        r is Some ==> r->0@.len() == contents@.len(),
        !enabled ==> forall|i: int| 0 <= i < r->0@.len() ==> #[trigger] r->0@[i] == 0,
        enabled && contents@.len() > 0 ==> exists|now: Moment| #[trigger]
            clock::shown(now) && match r {
                Some(v) => is_anchor(now.date) && forall|i: int|
                    0 <= i < contents@.len() ==> #[trigger] v@[i] == signal_worth(
                        query@,
                        contents@[i]@,
                        now.date,
                    ),
                None => !is_anchor(now.date),
            },
{
    if !enabled || contents.len() == 0 {
        return Some(no_boosts(contents.len()));
    }
    let now = clock::utc_now();
    assert(clock::shown(now));
    signal_boosts_at(query, contents, now, true)
}

proof fn lemma_added_keeps(l: Seq<Seq<char>>, s: Seq<char>)
    ensures
        forall|x: Seq<char>| #[trigger] l.contains(x) ==> added(l, s).contains(x),
        s.len() > 0 ==> added(l, s).contains(s),
        forall|x: Seq<char>| #[trigger] added(l, s).contains(x) ==> l.contains(x) || x == s,
{
    let r = added(l, s);
    assert forall|x: Seq<char>| #[trigger] l.contains(x) implies r.contains(x) by {
        let k = choose|k: int| 0 <= k < l.len() && l[k] == x;
        assert(r[k] == x);
    }
    if s.len() > 0 {
        if text::listed(l, s) {
            let k = choose|k: int| 0 <= k < l.len() && l[k] == s;
            assert(r[k] == s);
        } else {
            assert(r[l.len() as int] == s);
        }
    }
    assert forall|x: Seq<char>| #[trigger] r.contains(x) implies l.contains(x) || x == s by {
        let k = choose|k: int| 0 <= k < r.len() && r[k] == x;
        if k < l.len() {
            assert(l[k] == x);
        }
    }
}

proof fn lemma_all_added_keeps(l: Seq<Seq<char>>, more: Seq<Seq<char>>)
    ensures
        forall|x: Seq<char>| #[trigger] l.contains(x) ==> all_added(l, more).contains(x),
        forall|x: Seq<char>| #[trigger] more.contains(x) && x.len() > 0 ==> all_added(l, more).contains(x),
        forall|x: Seq<char>| #[trigger] all_added(l, more).contains(x) ==> l.contains(x) || more.contains(x),
    decreases more.len(),
{
    if more.len() > 0 {
        let p = more.drop_last();
        lemma_all_added_keeps(l, p);
        lemma_added_keeps(all_added(l, p), more.last());
        assert forall|x: Seq<char>| #[trigger] more.contains(x) && x.len() > 0 implies all_added(
            l,
            more,
        ).contains(x) by {
            let k = choose|k: int| 0 <= k < more.len() && more[k] == x;
            if k < p.len() {
                assert(p[k] == x);
                assert(p.contains(x));
            }
        }
        assert forall|x: Seq<char>| #[trigger] all_added(l, more).contains(x) implies l.contains(x)
            || more.contains(x) by {
            if x == more.last() {
                assert(more[more.len() - 1] == x);
            } else if p.contains(x) {
                let k = choose|k: int| 0 <= k < p.len() && p[k] == x;
                assert(more[k] == x);
            }
        }
    }
}

/// A number stands in a text: digits, with at most one point between them, and the digits
/// go no further to the right.
pub open spec fn number_at(s: Seq<char>, x: int, y: int) -> bool {
    &&& 0 <= x < y <= s.len()
    &&& text::is_digit(s[x]) && text::is_digit(s[y - 1])
    &&& forall|i: int| x <= i < y ==> text::is_digit(#[trigger] s[i]) || s[i] == '.'
    &&& y < s.len() ==> !text::is_digit(s[y])
}

proof fn lemma_digits_run(s: Seq<char>, i: int)
    requires
        0 <= i <= s.len(),
    ensures
        i <= digits_end(s, i) <= s.len(),
        forall|k: int| i <= k < digits_end(s, i) ==> text::is_digit(#[trigger] s[k]),
        digits_end(s, i) < s.len() ==> !text::is_digit(s[digits_end(s, i)]),
    decreases s.len() - i,
{
    if i < s.len() && text::is_digit(s[i]) {
        lemma_digits_run(s, i + 1);
    }
}

proof fn lemma_number_run(s: Seq<char>, i: int)
    requires
        0 <= i < s.len(),
        text::is_digit(s[i]),
    ensures
        number_at(s, i, number_end(s, i)),
{
    lemma_digits_run(s, i);
    let e = digits_end(s, i);
    lemma_digits_run(s, i + 1);
    if e + 1 < s.len() && s[e] == '.' && text::is_digit(s[e + 1]) {
        lemma_digits_run(s, e + 1);
        lemma_digits_run(s, e + 2);
    }
}

proof fn lemma_numbers_grow(s: Seq<char>, i: int, acc: Seq<Seq<char>>)
    requires
        0 <= i <= s.len(),
    ensures
        forall|x: Seq<char>| #[trigger] acc.contains(x) ==> numbers_from(s, i, acc).contains(x),
    decreases s.len() - i,
{
    if i < s.len() {
        if !text::is_digit(s[i]) || !(i < number_end(s, i) <= s.len()) {
            lemma_numbers_grow(s, i + 1, acc);
        } else {
            let e = number_end(s, i);
            lemma_added_keeps(acc, s.subrange(i, e));
            let more = if e - i <= 24 {
                added(acc, s.subrange(i, e))
            } else {
                acc
            };
            lemma_numbers_grow(s, e, more);
        }
    }
}

/// Every number of a text is found: each of its digits belongs to one that is, unless that
/// is longer than 24 characters.
pub proof fn law_numbers_of_a_text_are_found(s: Seq<char>, i: int, acc: Seq<Seq<char>>, j: int) -> (r: (int, int))
    requires
        0 <= i <= j < s.len(),
        text::is_digit(s[j]),
    ensures
        r.0 <= j < r.1,
        number_at(s, r.0, r.1),
        r.1 - r.0 <= 24 ==> numbers_from(s, i, acc).contains(s.subrange(r.0, r.1)),
    decreases s.len() - i,
{
    if !text::is_digit(s[i]) || !(i < number_end(s, i) <= s.len()) {
        if text::is_digit(s[i]) {
            lemma_number_run(s, i);
        }
        law_numbers_of_a_text_are_found(s, i + 1, acc, j)
    } else {
        let e = number_end(s, i);
        lemma_number_run(s, i);
        lemma_added_keeps(acc, s.subrange(i, e));
        let more = if e - i <= 24 {
            added(acc, s.subrange(i, e))
        } else {
            acc
        };
        if j < e {
            lemma_numbers_grow(s, e, more);
            (i, e)
        } else {
            law_numbers_of_a_text_are_found(s, e, more, j)
        }
    }
}

/// Nothing else counts as a number of a text: each stands there.
pub proof fn law_numbers_stand_in_their_text(s: Seq<char>, i: int, acc: Seq<Seq<char>>, n: Seq<char>)
    requires
        0 <= i <= s.len(),
        numbers_from(s, i, acc).contains(n),
        !acc.contains(n),
    ensures
        exists|x: int, y: int| #[trigger] number_at(s, x, y) && y - x <= 24 && n == s.subrange(x, y),
    decreases s.len() - i,
{
    if i < s.len() {
        if !text::is_digit(s[i]) || !(i < number_end(s, i) <= s.len()) {
            law_numbers_stand_in_their_text(s, i + 1, acc, n);
        } else {
            let e = number_end(s, i);
            lemma_number_run(s, i);
            lemma_added_keeps(acc, s.subrange(i, e));
            let more = if e - i <= 24 {
                added(acc, s.subrange(i, e))
            } else {
                acc
            };
            if more.contains(n) {
                assert(n == s.subrange(i, e));
                assert(number_at(s, i, e));
            } else {
                law_numbers_stand_in_their_text(s, e, more, n);
            }
        }
    }
}

proof fn lemma_dates_grow(s: Seq<char>, i: int, acc: Seq<Seq<char>>)
    requires
        0 <= i,
    ensures
        forall|x: Seq<char>| #[trigger] acc.contains(x) ==> dates_from(s, i, acc).contains(x),
    decreases s.len() - i,
{
    if i + 10 <= s.len() {
        if date_at(s, i, '-') {
            lemma_added_keeps(acc, s.subrange(i, i + 10));
            lemma_dates_grow(s, i + 10, added(acc, s.subrange(i, i + 10)));
        } else if date_at(s, i, '/') {
            lemma_added_keeps(acc, hyphened(s, i));
            lemma_dates_grow(s, i + 10, added(acc, hyphened(s, i)));
        } else {
            lemma_dates_grow(s, i + 1, acc);
        }
    }
}

/// The dates of a text are found: where one stands, with hyphens or with slashes, it is
/// found, or else one that overlaps it and stands further ahead. It is found with hyphens.
pub proof fn law_dates_of_a_text_are_found(s: Seq<char>, i: int, acc: Seq<Seq<char>>, j: int) -> (x: int)
    requires
        0 <= i <= j,
        date_at(s, j, '-') || date_at(s, j, '/'),
    ensures
        j - 10 < x <= j,
        date_at(s, x, '-') || date_at(s, x, '/'),
        dates_from(s, i, acc).contains(
            s.subrange(x, x + 4) + "-"@ + s.subrange(x + 5, x + 7) + "-"@ + s.subrange(x + 8, x + 10),
        ),
    decreases s.len() - i,
{
    if date_at(s, i, '-') || date_at(s, i, '/') {
        let d = if date_at(s, i, '-') {
            s.subrange(i, i + 10)
        } else {
            hyphened(s, i)
        };
        reveal_strlit("-");
        assert(date_at(s, i, '-') ==> d =~= hyphened(s, i));
        lemma_added_keeps(acc, d);
        if j < i + 10 {
            lemma_dates_grow(s, i + 10, added(acc, d));
            i
        } else {
            law_dates_of_a_text_are_found(s, i + 10, added(acc, d), j)
        }
    } else {
        law_dates_of_a_text_are_found(s, i + 1, acc, j)
    }
}

/// A word of change is found if and only if it stands in the text.
pub proof fn law_words_are_found(lower: Seq<char>, words: Seq<Seq<char>>, w: Seq<char>)
    requires
        w.len() > 0,
    ensures
        words_in(lower, words).contains(w) <==> words.contains(w) && text::occurs(lower, w),
    decreases words.len(),
{
    if words.len() > 0 {
        let p = words.drop_last();
        law_words_are_found(lower, p, w);
        lemma_added_keeps(words_in(lower, p), words.last());
        if words.contains(w) {
            let k = choose|k: int| 0 <= k < words.len() && words[k] == w;
            if k < p.len() {
                assert(p[k] == w);
            }
        }
        if p.contains(w) {
            let k = choose|k: int| 0 <= k < p.len() && p[k] == w;
            assert(words[k] == w);
        }
        if words.last() == w {
            assert(words[words.len() - 1] == w);
        }
    }
}

/// The text holds one of two words.
pub open spec fn holds(s: Seq<char>, a: Seq<char>, b: Seq<char>) -> bool {
    text::occurs(s, a) || text::occurs(s, b)
}

proof fn lemma_dated_keeps(l: Seq<Seq<char>>, spoken: bool, d: Date)
    ensures
        forall|x: Seq<char>| #[trigger] l.contains(x) ==> dated(l, spoken, d).contains(x),
        spoken ==> dated(l, spoken, d).contains(dates::iso_date(d)),
{
    lemma_added_keeps(l, dates::iso_date(d));
    lemma_iso_end(d);
}

proof fn lemma_near_days(s: Seq<char>, anchor: Date)
    ensures
        ({
            let r = near_days(s, anchor);
            &&& holds(s, "今天"@, "今日"@) || holds(s, "当日"@, "当天"@) ==> r.contains(
                dates::iso_date(anchor),
            )
            &&& holds(s, "昨天"@, "昨日"@) ==> r.contains(dates::iso_date(dates::days_after(anchor, -1)))
            &&& holds(s, "明天"@, "明日"@) ==> r.contains(dates::iso_date(dates::days_after(anchor, 1)))
            &&& text::occurs(s, "前天"@) ==> r.contains(dates::iso_date(dates::days_after(anchor, -2)))
            &&& text::occurs(s, "后天"@) ==> r.contains(dates::iso_date(dates::days_after(anchor, 2)))
            &&& text::occurs(s, "上周"@) ==> r.contains(
                dates::iso_date(dates::days_after(dates::monday_of(anchor), -7)),
            )
            &&& holds(s, "本周"@, "这周"@) ==> r.contains(dates::iso_date(dates::monday_of(anchor)))
        }),
{
    let a = holds(s, "今天"@, "今日"@) || holds(s, "当日"@, "当天"@);
    let l0 = Seq::<Seq<char>>::empty();
    lemma_dated_keeps(l0, a, anchor);
    let l1 = dated(l0, a, anchor);
    let b = holds(s, "昨天"@, "昨日"@);
    lemma_dated_keeps(l1, b, dates::days_after(anchor, -1));
    let l2 = dated(l1, b, dates::days_after(anchor, -1));
    let c = holds(s, "明天"@, "明日"@);
    lemma_dated_keeps(l2, c, dates::days_after(anchor, 1));
    let l3 = dated(l2, c, dates::days_after(anchor, 1));
    lemma_dated_keeps(l3, text::occurs(s, "前天"@), dates::days_after(anchor, -2));
    let l4 = dated(l3, text::occurs(s, "前天"@), dates::days_after(anchor, -2));
    lemma_dated_keeps(l4, text::occurs(s, "后天"@), dates::days_after(anchor, 2));
    let l5 = dated(l4, text::occurs(s, "后天"@), dates::days_after(anchor, 2));
    let m = dates::days_after(dates::monday_of(anchor), -7);
    lemma_dated_keeps(l5, text::occurs(s, "上周"@), m);
    let l6 = dated(l5, text::occurs(s, "上周"@), m);
    let w = holds(s, "本周"@, "这周"@);
    lemma_dated_keeps(l6, w, dates::monday_of(anchor));
    assert(near_days(s, anchor) == dated(l6, w, dates::monday_of(anchor)));
}

proof fn lemma_weekdays_keep(s: Seq<char>, anchor: Date, k: int, acc: Seq<Seq<char>>, d: int)
    requires
        0 <= k <= 7,
    ensures
        forall|x: Seq<char>| #[trigger] acc.contains(x) ==> weekdays_in(s, anchor, k, acc).contains(x),
        0 <= d < k && text::occurs(s, "上周"@ + weekday_sign(d)) ==> weekdays_in(s, anchor, k, acc).contains(
            dates::iso_date(weekday_in_week(anchor, d, -1)),
        ),
        0 <= d < k && holds(s, "本周"@ + weekday_sign(d), "这周"@ + weekday_sign(d)) ==> weekdays_in(
            s,
            anchor,
            k,
            acc,
        ).contains(dates::iso_date(weekday_in_week(anchor, d, 0))),
    decreases k,
{
    if k > 0 {
        lemma_weekdays_keep(s, anchor, k - 1, acc, d);
        let l = weekdays_in(s, anchor, k - 1, acc);
        let a = text::occurs(s, "上周"@ + weekday_sign(k - 1));
        lemma_dated_keeps(l, a, weekday_in_week(anchor, k - 1, -1));
        let m = dated(l, a, weekday_in_week(anchor, k - 1, -1));
        let b = holds(s, "本周"@ + weekday_sign(k - 1), "这周"@ + weekday_sign(k - 1));
        lemma_dated_keeps(m, b, weekday_in_week(anchor, k - 1, 0));
    }
}

proof fn lemma_far_days(s: Seq<char>, anchor: Date, acc: Seq<Seq<char>>)
    ensures
        ({
            let r = far_days(s, anchor, acc);
            &&& forall|x: Seq<char>| #[trigger] acc.contains(x) ==> r.contains(x)
            &&& holds(s, "上月"@, "上个月"@) ==> r.contains(
                dates::iso_date(dates::month_start(dates::month_before(anchor))),
            )
            &&& holds(s, "本月"@, "这个月"@) ==> r.contains(dates::iso_date(dates::month_start(anchor)))
            &&& holds(s, "下月"@, "下个月"@) ==> r.contains(
                dates::iso_date(dates::month_start(dates::month_after(anchor))),
            )
            &&& text::occurs(s, "今年"@) ==> r.contains(
                dates::iso_date((Date { year: anchor.year, month: 1, day: 1 })),
            )
            &&& text::occurs(s, "去年"@) ==> r.contains(
                dates::iso_date((Date { year: (anchor.year - 1) as i32, month: 1, day: 1 })),
            )
        }),
{
    let a = holds(s, "上月"@, "上个月"@);
    let da = dates::month_start(dates::month_before(anchor));
    lemma_dated_keeps(acc, a, da);
    let l1 = dated(acc, a, da);
    let b = holds(s, "本月"@, "这个月"@);
    lemma_dated_keeps(l1, b, dates::month_start(anchor));
    let l2 = dated(l1, b, dates::month_start(anchor));
    let c = holds(s, "下月"@, "下个月"@);
    let dc = dates::month_start(dates::month_after(anchor));
    lemma_dated_keeps(l2, c, dc);
    let l3 = dated(l2, c, dc);
    let dd = Date { year: anchor.year, month: 1, day: 1 };
    lemma_dated_keeps(l3, text::occurs(s, "今年"@), dd);
    let l4 = dated(l3, text::occurs(s, "今年"@), dd);
    let de = Date { year: (anchor.year - 1) as i32, month: 1, day: 1 };
    lemma_dated_keeps(l4, text::occurs(s, "去年"@), de);
    assert(far_days(s, anchor, acc) == dated(l4, text::occurs(s, "去年"@), de));
}

/// A day that a text names by its distance is found as the date that it is, counted from
/// the anchor: yesterday is the day before, last week the Monday seven days before that of
/// this week, a weekday the day of that week, last month the first of the month before, and
/// so on.
pub proof fn law_named_days_are_found(s: Seq<char>, anchor: Date, d: int)
    ensures
        ({
            let r = relative_dates(s, anchor);
            let monday = dates::monday_of(anchor);
            &&& holds(s, "今天"@, "今日"@) || holds(s, "当日"@, "当天"@) ==> r.contains(
                dates::iso_date(anchor),
            )
            &&& holds(s, "昨天"@, "昨日"@) ==> r.contains(dates::iso_date(dates::days_after(anchor, -1)))
            &&& holds(s, "明天"@, "明日"@) ==> r.contains(dates::iso_date(dates::days_after(anchor, 1)))
            &&& text::occurs(s, "前天"@) ==> r.contains(dates::iso_date(dates::days_after(anchor, -2)))
            &&& text::occurs(s, "后天"@) ==> r.contains(dates::iso_date(dates::days_after(anchor, 2)))
            &&& text::occurs(s, "上周"@) ==> r.contains(dates::iso_date(dates::days_after(monday, -7)))
            &&& holds(s, "本周"@, "这周"@) ==> r.contains(dates::iso_date(monday))
            &&& 0 <= d < 7 && text::occurs(
                s,
                "上周"@ + seq!["一"@, "二"@, "三"@, "四"@, "五"@, "六"@, "日"@][d],
            ) ==> r.contains(dates::iso_date(dates::days_after(monday, d - 7)))
            &&& 0 <= d < 7 && text::occurs(
                s,
                "本周"@ + seq!["一"@, "二"@, "三"@, "四"@, "五"@, "六"@, "日"@][d],
            ) ==> r.contains(dates::iso_date(dates::days_after(monday, d)))
            &&& holds(s, "上月"@, "上个月"@) ==> r.contains(
                dates::iso_date(dates::month_start(dates::month_before(anchor))),
            )
            &&& holds(s, "本月"@, "这个月"@) ==> r.contains(dates::iso_date(dates::month_start(anchor)))
            &&& holds(s, "下月"@, "下个月"@) ==> r.contains(
                dates::iso_date(dates::month_start(dates::month_after(anchor))),
            )
            &&& text::occurs(s, "今年"@) ==> r.contains(
                dates::iso_date((Date { year: anchor.year, month: 1, day: 1 })),
            )
            &&& text::occurs(s, "去年"@) ==> r.contains(
                dates::iso_date((Date { year: (anchor.year - 1) as i32, month: 1, day: 1 })),
            )
        }),
{
    let near = near_days(s, anchor);
    lemma_near_days(s, anchor);
    lemma_weekdays_keep(s, anchor, 7, near, d);
    lemma_far_days(s, anchor, weekdays_in(s, anchor, 7, near));
    let names = seq!["一"@, "二"@, "三"@, "四"@, "五"@, "六"@, "日"@];
    if 0 <= d < 7 {
        assert(d == 0 || d == 1 || d == 2 || d == 3 || d == 4 || d == 5 || d == 6);
        assert(names[d] == weekday_sign(d));
        assert(-1 * 7 + d == d - 7 && 0 * 7 + d == d);
    }
}

/// What is counted for a text is worth ten thousandths for a number that the query has too,
/// and fifteen for a date, fifty at most; each that both have counts once.
pub proof fn law_common_signals_are_worth(query: Seq<char>, content: Seq<char>, anchor: Date, h: SignalHits)
    requires
        h.numbers == shared(
            numbers_from(query, 0, Seq::empty()),
            plain_signals(content, None, anchor).numbers,
        ),
        h.dates == shared(asked_dates(query, anchor), plain_signals(content, None, anchor).dates),
    ensures
        signal_worth(query, content, anchor) == hits_worth(h),
        h.numbers * 10 + h.dates * 15 <= 50 ==> hits_worth(h) == h.numbers * 10 + h.dates * 15,
        h.numbers * 10 + h.dates * 15 > 50 ==> hits_worth(h) == 50,
{
}

/// What two lists share is counted text by text.
pub proof fn law_shared_texts_are_counted(a: Seq<Seq<char>>, more: Seq<Seq<char>>, b: Seq<Seq<char>>, x: Seq<char>)
    ensures
        shared(a + more, b) == shared(a, b) + shared(more, b),
        shared(seq![x], b) == if b.contains(x) {
            1nat
        } else {
            0
        },
    decreases more.len(),
{
    assert(seq![x].drop_last() =~= Seq::empty());
    assert(shared(seq![x].drop_last(), b) == 0);
    if b.contains(x) {
        let k = choose|k: int| 0 <= k < b.len() && b[k] == x;
        assert(b[k] == x);
    }
    if more.len() == 0 {
        assert(a + more =~= a);
    } else {
        law_shared_texts_are_counted(a, more.drop_last(), b, x);
        assert((a + more).drop_last() =~= a + more.drop_last());
        assert((a + more).last() == more.last());
    }
}

/// The signals of a text are the first of what stands in it: eight numbers, four dates and
/// four words of change at most, and all where there are no more.
pub proof fn law_signals_are_the_first(content: Seq<char>, occurred: Option<Seq<char>>, anchor: Date, i: int)
    ensures
        ({
            let n = numbers_from(content, 0, Seq::empty());
            let r = plain_signals(content, occurred, anchor);
            &&& r.numbers.len() == if n.len() < 8 {
                n.len()
            } else {
                8
            }
            &&& 0 <= i < r.numbers.len() ==> r.numbers[i] == n[i]
            &&& r.dates.len() <= 4
            &&& r.update_markers.len() <= 4
            &&& r.dates.len() < 4 && dates_from(content, 0, Seq::empty()).contains(
                dates::iso_date(anchor),
            ) ==> r.dates.contains(dates::iso_date(anchor))
        }),
{
    let n = numbers_from(content, 0, Seq::empty());
    assert(all_added(n, Seq::empty()) == n);
    let l = dates_from(content, 0, Seq::empty());
    let l1 = match occurred {
        Some(d) => added(l, d),
        None => l,
    };
    if occurred is Some {
        lemma_added_keeps(l, occurred->0);
    }
    lemma_all_added_keeps(l1, relative_dates(content, anchor));
    let all = all_dates(content, occurred, anchor);
    lemma_all_added_keeps(all, Seq::empty());
    assert(all_added(all, Seq::empty()) == all);
}

/// A mark is added to a source once.
pub proof fn law_marks_are_added_once(source: Seq<char>, mark: Seq<char>)
    ensures
        text::occurs(marked(source, mark), mark),
        text::begins(marked(source, mark), source),
        marked(marked(source, mark), mark) == marked(source, mark),
{
    let r = marked(source, mark);
    assert(r.subrange(0, source.len() as int) =~= source);
    if !text::occurs(source, mark) {
        let i = (source + ";"@).len() as int;
        assert(r.subrange(i, i + mark.len()) =~= mark);
        assert(text::stands_at(r, mark, i));
    }
}

/// What is known of the signals of a text is what their fields hold.
pub proof fn law_signals_hold_what_they_say(x: Signals)
    ensures
        x@.numbers == text::texts(x.numbers@),
        x@.dates == text::texts(x.dates@),
        x@.update_markers == text::texts(x.update_markers@),
{
}

proof fn lemma_holds_its_characters(s: Seq<char>, w: Seq<char>, i: int)
    requires
        0 <= i < w.len(),
    ensures
        text::occurs(s, w) ==> s.contains(w[i]),
{
    if text::occurs(s, w) {
        let k = choose|k: int| text::stands_at(s, w, k);
        assert(s.subrange(k, k + w.len())[i] == w[i]);
        assert(s[k + i] == w[i]);
    }
}

proof fn lemma_no_weekdays(s: Seq<char>, anchor: Date, k: int, acc: Seq<Seq<char>>)
    requires
        !s.contains('周'),
        k <= 7,
    ensures
        weekdays_in(s, anchor, k, acc) == acc,
    decreases k,
{
    if k > 0 {
        lemma_no_weekdays(s, anchor, k - 1, acc);
        reveal_strlit("上周");
        reveal_strlit("本周");
        reveal_strlit("这周");
        let w = weekday_sign(k - 1);
        let a = "上周"@ + w;
        let b = "本周"@ + w;
        let c = "这周"@ + w;
        assert(a[1] == '周' && b[1] == '周' && c[1] == '周');
        lemma_holds_its_characters(s, a, 1);
        lemma_holds_its_characters(s, b, 1);
        lemma_holds_its_characters(s, c, 1);
    }
}

/// A text that speaks of no day, week, month or year names no date by its distance.
pub proof fn law_only_named_days_are_found(s: Seq<char>, anchor: Date)
    requires
        !s.contains('天'),
        !s.contains('日'),
        !s.contains('周'),
        !s.contains('月'),
        !s.contains('年'),
    ensures
        relative_dates(s, anchor).len() == 0,
{
    reveal_strlit("今天");
    assert("今天"@[1] == '天');
    lemma_holds_its_characters(s, "今天"@, 1);
    reveal_strlit("今日");
    assert("今日"@[1] == '日');
    lemma_holds_its_characters(s, "今日"@, 1);
    reveal_strlit("当日");
    assert("当日"@[1] == '日');
    lemma_holds_its_characters(s, "当日"@, 1);
    reveal_strlit("当天");
    assert("当天"@[1] == '天');
    lemma_holds_its_characters(s, "当天"@, 1);
    reveal_strlit("昨天");
    assert("昨天"@[1] == '天');
    lemma_holds_its_characters(s, "昨天"@, 1);
    reveal_strlit("昨日");
    assert("昨日"@[1] == '日');
    lemma_holds_its_characters(s, "昨日"@, 1);
    reveal_strlit("明天");
    assert("明天"@[1] == '天');
    lemma_holds_its_characters(s, "明天"@, 1);
    reveal_strlit("明日");
    assert("明日"@[1] == '日');
    lemma_holds_its_characters(s, "明日"@, 1);
    reveal_strlit("前天");
    assert("前天"@[1] == '天');
    lemma_holds_its_characters(s, "前天"@, 1);
    reveal_strlit("后天");
    assert("后天"@[1] == '天');
    lemma_holds_its_characters(s, "后天"@, 1);
    reveal_strlit("上周");
    assert("上周"@[1] == '周');
    lemma_holds_its_characters(s, "上周"@, 1);
    reveal_strlit("本周");
    assert("本周"@[1] == '周');
    lemma_holds_its_characters(s, "本周"@, 1);
    reveal_strlit("这周");
    assert("这周"@[1] == '周');
    lemma_holds_its_characters(s, "这周"@, 1);
    reveal_strlit("上月");
    assert("上月"@[1] == '月');
    lemma_holds_its_characters(s, "上月"@, 1);
    reveal_strlit("上个月");
    assert("上个月"@[2] == '月');
    lemma_holds_its_characters(s, "上个月"@, 2);
    reveal_strlit("本月");
    assert("本月"@[1] == '月');
    lemma_holds_its_characters(s, "本月"@, 1);
    reveal_strlit("这个月");
    assert("这个月"@[2] == '月');
    lemma_holds_its_characters(s, "这个月"@, 2);
    reveal_strlit("下月");
    assert("下月"@[1] == '月');
    lemma_holds_its_characters(s, "下月"@, 1);
    reveal_strlit("下个月");
    assert("下个月"@[2] == '月');
    lemma_holds_its_characters(s, "下个月"@, 2);
    reveal_strlit("今年");
    assert("今年"@[1] == '年');
    lemma_holds_its_characters(s, "今年"@, 1);
    reveal_strlit("去年");
    assert("去年"@[1] == '年');
    lemma_holds_its_characters(s, "去年"@, 1);
    assert(near_days(s, anchor) =~= Seq::empty());
    lemma_no_weekdays(s, anchor, 7, near_days(s, anchor));
}

/// Nothing else counts as a date of a text: each stands there, with hyphens or with slashes.
pub proof fn law_dates_stand_in_their_text(s: Seq<char>, i: int, acc: Seq<Seq<char>>, d: Seq<char>)
    requires
        0 <= i,
        dates_from(s, i, acc).contains(d),
        !acc.contains(d),
    ensures
        exists|x: int|
            i <= x && ((#[trigger] date_at(s, x, '-') && d == s.subrange(x, x + 10)) || (date_at(s, x, '/')
                && d == s.subrange(x, x + 4) + "-"@ + s.subrange(x + 5, x + 7) + "-"@ + s.subrange(
                x + 8,
                x + 10,
            ))),
    decreases s.len() - i,
{
    if i + 10 <= s.len() {
        if date_at(s, i, '-') || date_at(s, i, '/') {
            let t = if date_at(s, i, '-') {
                s.subrange(i, i + 10)
            } else {
                hyphened(s, i)
            };
            let more = added(acc, t);
            if more.contains(d) {
                let k = choose|k: int| 0 <= k < more.len() && more[k] == d;
                if k < acc.len() {
                    assert(acc[k] == d);
                }
                assert(d == t);
                assert(date_at(s, i, '-') || date_at(s, i, '/'));
                let dash = date_at(s, i, '-');
            } else {
                law_dates_stand_in_their_text(s, i + 10, more, d);
            }
        } else {
            law_dates_stand_in_their_text(s, i + 1, acc, d);
        }
    }
}

/// A tag that keeps a signal says of which kind it is, and what stands behind that is the
/// signal; other tags keep none.
pub proof fn law_tags_tell_the_kind_of_their_signal(v: Seq<char>, tag: Seq<char>)
    requires
        solid_end(v),
        tag.len() > 0 && tag[0] != 's' && !text::is_space(tag[0]),
    ensures
        persisted(seq!["signal:num:"@ + v]).numbers == seq![v],
        persisted(seq!["signal:num:"@ + v]).dates.len() == 0,
        persisted(seq!["signal:date:"@ + v]).dates == seq![v],
        persisted(seq!["signal:date:"@ + v]).numbers.len() == 0,
        persisted(seq!["signal:update:"@ + v]).update_markers == seq![v],
        persisted(seq!["signal:update:"@ + v]).dates.len() == 0,
        signal_tag("signal:num:"@ + v) && signal_tag("signal:date:"@ + v) && signal_tag(
            "signal:update:"@ + v,
        ),
        !signal_tag(tag),
{
    reveal_strlit("signal:num:");
    reveal_strlit("signal:date:");
    reveal_strlit("signal:update:");
    lemma_kind(SIGNAL_NUM_PREFIX@, v);
    lemma_kind(SIGNAL_DATE_PREFIX@, v);
    lemma_kind(SIGNAL_UPDATE_PREFIX@, v);
    let s = text::trimmed(tag);
    if signal_tag(tag) {
        reveal_with_fuel(text::trimmed_start, 2);
        lemma_trim_keeps_first(tag);
        assert(s[0] == 's') by {
            if text::begins(s, SIGNAL_NUM_PREFIX@) {
                assert(s.subrange(0, SIGNAL_NUM_PREFIX@.len() as int)[0] == 's');
            } else if text::begins(s, SIGNAL_DATE_PREFIX@) {
                assert(s.subrange(0, SIGNAL_DATE_PREFIX@.len() as int)[0] == 's');
            } else {
                assert(s.subrange(0, SIGNAL_UPDATE_PREFIX@.len() as int)[0] == 's');
            }
        }
    }
}

proof fn lemma_trim_keeps_first(t: Seq<char>)
    requires
        t.len() > 0,
        !text::is_space(t[0]),
    ensures
        text::trimmed(t).len() > 0 ==> text::trimmed(t)[0] == t[0],
{
    assert(text::trimmed_start(t) == t);
    lemma_end_trim_keeps_first(t);
}

proof fn lemma_end_trim_keeps_first(t: Seq<char>)
    ensures
        text::trimmed_end(t).len() > 0 ==> text::trimmed_end(t)[0] == t[0],
    decreases t.len(),
{
    if t.len() > 0 && text::is_space(t.last()) {
        lemma_end_trim_keeps_first(t.drop_last());
    }
}

proof fn lemma_kind(p: Seq<char>, v: Seq<char>)
    requires
        solid_end(v),
        p == "signal:num:"@ || p == "signal:date:"@ || p == "signal:update:"@,
    ensures
        signal_tag(p + v),
        persisted(seq![p + v]) == (SignalsView {
            numbers: if p == "signal:num:"@ {
                seq![v]
            } else {
                Seq::empty()
            },
            dates: if p == "signal:date:"@ {
                seq![v]
            } else {
                Seq::empty()
            },
            update_markers: if p == "signal:update:"@ {
                seq![v]
            } else {
                Seq::empty()
            },
        }),
{
    reveal_strlit("signal:num:");
    reveal_strlit("signal:date:");
    reveal_strlit("signal:update:");
    let t = p + v;
    assert(t[0] == 's');
    assert(t.last() == v.last());
    reveal_with_fuel(text::trimmed_start, 2);
    reveal_with_fuel(text::trimmed_end, 2);
    assert(text::trimmed(t) == t);
    assert(t.subrange(0, p.len() as int) =~= p);
    assert(t.skip(p.len() as int) =~= v);
    assert("signal:num:"@[7] == 'n' && "signal:date:"@[7] == 'd' && "signal:update:"@[7] == 'u');
    if text::begins(t, "signal:num:"@) {
        assert(t.subrange(0, 11)[7] == 'n');
    }
    if text::begins(t, "signal:date:"@) {
        assert(t.subrange(0, 12)[7] == 'd');
    }
    if text::begins(t, "signal:update:"@) {
        assert(t.subrange(0, 14)[7] == 'u');
    }
    let e = Seq::<Seq<char>>::empty();
    assert(!text::listed(e, v));
    assert(added(e, v) =~= seq![v]);
    assert(seq![t].drop_last() =~= e);
    assert(seq![t].last() == t);
    assert(persisted(e) == no_signals());
    assert("signal:num:"@.len() == 11 && "signal:date:"@.len() == 12 && "signal:update:"@.len() == 14);
    assert(t[7] == p[7]);
    let r = persisted(seq![t]);
    if p == "signal:num:"@ {
        assert(r.numbers == added(e, v));
    } else if p == "signal:date:"@ {
        assert(r.dates == added(e, v));
    } else {
        assert(r.update_markers == added(e, v));
    }
}

/// A setting is on unless one of the four words for off is written there, in any case.
pub proof fn law_settings_are_on_unless_switched_off(s: Seq<char>)
    ensures
        on_unless(None),
        on_unless(Some(s)) <==> !seq!["0"@, "false"@, "off"@, "no"@].contains(
            text::ascii_lowered(text::trimmed(s)),
        ),
{
    let w = seq!["0"@, "false"@, "off"@, "no"@];
    let t = text::ascii_lowered(text::trimmed(s));
    assert(w[0] == "0"@ && w[1] == "false"@ && w[2] == "off"@ && w[3] == "no"@);
    if w.contains(t) {
        let k = choose|k: int| 0 <= k < w.len() && w[k] == t;
        assert(k == 0 || k == 1 || k == 2 || k == 3);
    }
}

/// The day that is known of a text counts among its dates, unless four others come before.
pub proof fn law_known_days_are_among_the_dates(content: Seq<char>, day: Seq<char>, anchor: Date)
    requires
        day.len() > 0,
        plain_signals(content, Some(day), anchor).dates.len() < 4,
    ensures
        plain_signals(content, Some(day), anchor).dates.contains(day),
{
    let l = dates_from(content, 0, Seq::empty());
    let m = added(l, day);
    assert(m.contains(day)) by {
        if text::listed(l, day) {
            let k = choose|k: int| 0 <= k < l.len() && l[k] == day;
            assert(m[k] == day);
        } else {
            assert(m[l.len() as int] == day);
        }
    }
    lemma_all_added_keeps(m, relative_dates(content, anchor));
    lemma_all_added_keeps(all_dates(content, Some(day), anchor), Seq::empty());
}

} // verus!
