//! One search over all signals: how deep each looks, which memories count at a
//! time, and which come first.
use vstd::prelude::*;
use crate::search::ranking;
use crate::search::rrf;
use crate::search::rrf::SignalResult;
use crate::text;

verus! {

/// How deep the signals look.
#[derive(Debug, Clone, Copy, PartialEq, Eq, Structural)]
pub struct Depths {
    /// The signals that only help.
    pub helper: u32,
    /// The signals that find: words and meaning.
    pub primary: u32,
}

/// The larger of two numbers.
pub open spec fn larger(a: nat, b: nat) -> nat {
    if a > b {
        a
    } else {
        b
    }
}

/// How deep the signals look for `max_results` results, by the variable for it: 50
/// unless set otherwise, and at least 8.
pub fn search_depths(max_results: u32, recall: Option<&str>) -> (r: Depths)
    requires
        max_results * 3 <= u32::MAX,
    ensures
        r.helper == max_results * 3,
        r.primary == larger(
            larger(rrf::setting(text::opt_str(recall), 50), 8),
            (max_results * 3) as nat,
        ),
        r.primary >= 8 && r.primary >= r.helper,
        recall is None ==> r.primary >= 50 && (max_results <= 16 ==> r.primary == 50),
{
    let set = rrf::read_setting(recall, 50);
    let recall: u32 = if set < 8 {
        8
    } else {
        set
    };
    let helper = max_results * 3;
    Depths {
        helper,
        primary: if recall > helper {
            recall
        } else {
            helper
        },
    }
}

/// A memory is valid at a time: between its two ends, these included. An end that
/// is missing is open.
pub open spec fn valid_then(
    valid_from: Option<Seq<char>>,
    valid_to: Option<Seq<char>>,
    at: Seq<char>,
) -> bool {
    &&& valid_from is Some ==> text::sorted_le(valid_from->0, at)
    &&& valid_to is Some ==> text::sorted_le(at, valid_to->0)
}

/// Tells whether a memory is valid at a time.
pub fn valid_at(valid_from: Option<&str>, valid_to: Option<&str>, as_of: &str) -> (r: bool)
    ensures
        r == valid_then(text::opt_str(valid_from), text::opt_str(valid_to), as_of@),
{
    let from_ok = match valid_from {
        None => true,
        Some(v) => text::text_le(v, as_of),
    };
    let to_ok = match valid_to {
        None => true,
        Some(v) => text::text_le(as_of, v),
    };
    from_ok && to_ok
}

/// What is known of a memory in time.
#[derive(Debug)]
pub struct TimeInfo {
    pub superseded_by: Option<String>,
    pub valid_from: Option<String>,
    pub valid_to: Option<String>,
}

impl TimeInfo {
    pub open spec fn valid(&self, at: Seq<char>) -> bool {
        valid_then(text::opt_text(self.valid_from), text::opt_text(self.valid_to), at)
    }
}

/// What becomes of a memory that was found.
#[derive(Debug, Clone, Copy)]
pub struct Judgement {
    pub keep: bool,
    pub status: Option<&'static str>,
    /// It counts less.
    pub downweight: bool,
}

/// A memory is current: where a time is asked for, it has to be valid then; else it has
/// to be the latest and valid now.
pub open spec fn current_then(i: TimeInfo, at: Seq<char>, timed: bool) -> bool {
    i.valid(at) && (timed || i.superseded_by is None)
}

/// How a memory is marked. One that is not current has been superseded, unless a time
/// is asked for.
pub open spec fn time_status(i: TimeInfo, at: Seq<char>, timed: bool) -> Option<Seq<char>> {
    if current_then(i, at, timed) {
        Some("current"@)
    } else if timed {
        None
    } else {
        Some("superseded"@)
    }
}

/// A memory that was found stays. One that is not there any more is left out, and so is
/// one that is not current, unless older ones are asked for too.
pub open spec fn keeps(
    info: Option<TimeInfo>,
    at: Seq<char>,
    timed: bool,
    include_superseded: bool,
) -> bool {
    match info {
        None => false,
        Some(i) => include_superseded || current_then(i, at, timed),
    }
}

/// What becomes of a memory that was found: whether it stays, how it is marked, and
/// whether it counts less, as it does where it is not the latest.
pub open spec fn judged(
    info: Option<TimeInfo>,
    at: Seq<char>,
    timed: bool,
    include_superseded: bool,
    j: Judgement,
) -> bool {
    &&& j.keep == keeps(info, at, timed, include_superseded)
    &&& j.keep ==> text::opt_str(j.status) == time_status(info->0, at, timed)
    &&& j.keep ==> j.downweight == (!timed && !current_then(info->0, at, timed))
}

/// Judges a memory that was found. `at` is the time that is asked for, or now.
pub fn judge(info: Option<&TimeInfo>, at: &str, timed: bool, include_superseded: bool) -> (j:
    Judgement)
    ensures
        judged(
            match info {
                Some(i) => Some(*i),
                None => None,
            },
            at@,
            timed,
            include_superseded,
            j,
        ),
{
    let i = match info {
        None => {
            return Judgement { keep: false, status: None, downweight: false };
        },
        Some(i) => i,
    };
    let from = match &i.valid_from {
        Some(s) => Some(s.as_str()),
        None => None,
    };
    let to = match &i.valid_to {
        Some(s) => Some(s.as_str()),
        None => None,
    };
    let valid = valid_at(from, to, at);
    let current = if timed {
        valid
    } else {
        i.superseded_by.is_none() && valid
    };
    let status = if current {
        Some("current")
    } else if timed {
        None
    } else {
        Some("superseded")
    };
    Judgement { keep: include_superseded || current, status, downweight: !timed && !current }
}

/// Without a time, and unless older ones are asked for, only memories that nothing
/// replaces are shown, and only such as are valid now.
pub proof fn law_default_shows_the_latest(info: Option<TimeInfo>, now: Seq<char>, j: Judgement)
    requires
        judged(info, now, false, false, j),
        j.keep,
    ensures
        info is Some,
        info->0.superseded_by is None,
        info->0.valid(now),
        text::opt_str(j.status) == Some("current"@),
        !j.downweight,
{
}

/// At a time that is asked for, what has been replaced since does not matter: a
/// memory is shown if and only if it was valid then.
pub proof fn law_time_travel_ignores_successors(
    a: TimeInfo,
    b: TimeInfo,
    at: Seq<char>,
    ja: Judgement,
    jb: Judgement,
)
    requires
        judged(Some(a), at, true, false, ja),
        judged(Some(b), at, true, false, jb),
        text::opt_text(a.valid_from) == text::opt_text(b.valid_from),
        text::opt_text(a.valid_to) == text::opt_text(b.valid_to),
    ensures
        ja.keep == jb.keep,
        ja.keep == a.valid(at),
{
}

/// Asking for older memories too leaves none out that would be shown without it.
pub proof fn law_history_only_adds(
    info: Option<TimeInfo>,
    at: Seq<char>,
    timed: bool,
    plain: Judgement,
    with_history: Judgement,
)
    requires
        judged(info, at, timed, false, plain),
        judged(info, at, timed, true, with_history),
    ensures
        plain.keep ==> with_history.keep && with_history.downweight == plain.downweight
            && text::opt_str(with_history.status) == text::opt_str(plain.status),
        with_history.keep == (info is Some),
{
}

/// Those of the first `n` memories that stay.
pub open spec fn kept_of(
    infos: Seq<Option<TimeInfo>>,
    at: Seq<char>,
    timed: bool,
    include_superseded: bool,
    n: int,
) -> Seq<int>
    decreases n,
{
    if n <= 0 {
        Seq::empty()
    } else {
        let k = kept_of(infos, at, timed, include_superseded, n - 1);
        if keeps(infos[n - 1], at, timed, include_superseded) {
            k.push(n - 1)
        } else {
            k
        }
    }
}

/// The places of memories that were judged.
pub open spec fn places_of(v: Seq<(usize, Judgement)>) -> Seq<int> {
    Seq::new(v.len(), |i: int| v[i].0 as int)
}

/// The memories that stay of those that were found, in their order, each with what
/// becomes of it.
pub fn kept(
    infos: &Vec<Option<TimeInfo>>,
    at: &str,
    timed: bool,
    include_superseded: bool,
) -> (r: Vec<(usize, Judgement)>)
    ensures
        places_of(r@) == kept_of(infos@, at@, timed, include_superseded, infos@.len() as int),
        forall|i: int|
            0 <= i < r@.len() ==> (#[trigger] r@[i]).0 < infos@.len() && judged(
                infos@[r@[i].0 as int],
                at@,
                timed,
                include_superseded,
                r@[i].1,
            ) && r@[i].1.keep,
{
    let mut out: Vec<(usize, Judgement)> = Vec::new();
    let mut i: usize = 0;
    assert(places_of(out@) =~= Seq::empty());
    while i < infos.len()
        invariant
            i <= infos@.len(),
            places_of(out@) == kept_of(infos@, at@, timed, include_superseded, i as int),
            forall|k: int|
                0 <= k < out@.len() ==> (#[trigger] out@[k]).0 < infos@.len() && judged(
                    infos@[out@[k].0 as int],
                    at@,
                    timed,
                    include_superseded,
                    out@[k].1,
                ) && out@[k].1.keep,
        decreases infos@.len() - i,
    {
        let j = judge(infos[i].as_ref(), at, timed, include_superseded);
        if j.keep {
            let ghost before = out@;
            out.push((i, j));
            assert(places_of(out@) =~= places_of(before).push(i as int));
        }
        i += 1;
    }
    out
}

/// A memory has not been evolved yet.
pub fn pending_evolution(evolved_at: Option<&str>) -> (r: bool)
    ensures
        r == (evolved_at is None),
{
    evolved_at.is_none()
}

/// How many hits of each of the finding signals have a place of their own.
pub const RESERVE: usize = 50;

/// The ids of the first hits of a signal.
pub open spec fn reserved_of(hits: Seq<SignalResult>) -> Seq<Seq<char>> {
    Seq::new(
        if hits.len() < RESERVE {
            hits.len()
        } else {
            RESERVE as nat
        },
        |i: int| hits[i].memory_id@,
    )
}

/// The ids that have a place of their own: the first hits by meaning and by words.
pub fn reserve(semantic: &Vec<SignalResult>, keyword: &Vec<SignalResult>) -> (r: Vec<String>)
    ensures
        text::texts(r@) == reserved_of(semantic@) + reserved_of(keyword@),
{
    let mut out: Vec<String> = Vec::new();
    assert(text::texts(out@) =~= Seq::empty());
    push_reserved(&mut out, semantic);
    push_reserved(&mut out, keyword);
    assert(text::texts(out@) =~= reserved_of(semantic@) + reserved_of(keyword@));
    out
}

fn push_reserved(out: &mut Vec<String>, hits: &Vec<SignalResult>)
    ensures
        text::texts(final(out)@) == text::texts(old(out)@) + reserved_of(hits@),
{
    let ghost before = text::texts(out@);
    let ghost want = reserved_of(hits@);
    let n: usize = if hits.len() < RESERVE {
        hits.len()
    } else {
        RESERVE
    };
    let mut i: usize = 0;
    assert(before + want.take(0) =~= before);
    while i < n
        invariant
            i <= n <= hits@.len(),
            n == want.len(),
            want == reserved_of(hits@),
            text::texts(out@) == before + want.take(i as int),
        decreases n - i,
    {
        let t = hits[i].memory_id.clone();
        proof {
            text::lemma_texts_push(out@, t);
            assert(before + want.take(i + 1) =~= (before + want.take(i as int)).push(t@));
        }
        out.push(t);
        i += 1;
    }
    assert(want.take(n as int) =~= want);
}

/// Those of the first `n` of the indices whose memory is reserved, or those whose
/// is not.
pub open spec fn sifted(
    order: Seq<int>,
    ids: Seq<Seq<char>>,
    reserve: Seq<Seq<char>>,
    wanted: bool,
    n: int,
) -> Seq<int>
    decreases n,
{
    if n <= 0 {
        Seq::empty()
    } else {
        let s = sifted(order, ids, reserve, wanted, n - 1);
        if text::listed(reserve, ids[order[n - 1]]) == wanted {
            s.push(order[n - 1])
        } else {
            s
        }
    }
}

/// The memories in the order in which they are shown: those with a place of their
/// own first, then the others, each once.
pub open spec fn shown_order(ids: Seq<Seq<char>>, reserve: Seq<Seq<char>>) -> Seq<int> {
    let order = ranking::firsts(ids, ids.len() as int);
    sifted(order, ids, reserve, true, order.len() as int) + sifted(
        order,
        ids,
        reserve,
        false,
        order.len() as int,
    )
}

fn sift(
    order: &Vec<usize>,
    ids: &Vec<String>,
    reserve: &Vec<String>,
    wanted: bool,
    out: &mut Vec<usize>,
)
    requires
        forall|k: int| 0 <= k < order@.len() ==> #[trigger] order@[k] < ids@.len(),
    ensures
        ranking::indices(final(out)@) == ranking::indices(old(out)@) + sifted(
            ranking::indices(order@),
            text::texts(ids@),
            text::texts(reserve@),
            wanted,
            order@.len() as int,
        ),
{
    let ghost before = ranking::indices(out@);
    let ghost o = ranking::indices(order@);
    let mut i: usize = 0;
    assert(before + sifted(o, text::texts(ids@), text::texts(reserve@), wanted, 0) =~= before);
    while i < order.len()
        invariant
            i <= order@.len(),
            o == ranking::indices(order@),
            forall|k: int| 0 <= k < order@.len() ==> #[trigger] order@[k] < ids@.len(),
            ranking::indices(out@) == before + sifted(
                o,
                text::texts(ids@),
                text::texts(reserve@),
                wanted,
                i as int,
            ),
        decreases order@.len() - i,
    {
        let k = order[i];
        let ghost out0 = out@;
        let ghost s0 = sifted(o, text::texts(ids@), text::texts(reserve@), wanted, i as int);
        assert(text::texts(ids@)[o[i as int]] == ids@[k as int]@);
        if text::is_listed(reserve, ids[k].as_str()) == wanted {
            out.push(k);
            assert(ranking::indices(out@) =~= ranking::indices(out0).push(k as int));
            assert((before + s0).push(k as int) =~= before + s0.push(k as int));
        }
        i += 1;
    }
}

/// The first `max` of a list, or all of it where it has fewer.
pub open spec fn capped(l: Seq<int>, max: int) -> Seq<int> {
    if l.len() <= max {
        l
    } else {
        l.take(max)
    }
}

fn pick(ids: &Vec<String>, reserve: &Vec<String>, max_results: u32) -> (r: Vec<usize>)
    ensures
        ranking::indices(r@) == capped(
            shown_order(text::texts(ids@), text::texts(reserve@)),
            max_results as int,
        ),
{
    let order = ranking::first_occurrences(ids);
    let mut out: Vec<usize> = Vec::new();
    assert(ranking::indices(out@) =~= Seq::empty());
    sift(&order, ids, reserve, true, &mut out);
    sift(&order, ids, reserve, false, &mut out);
    let ghost all = out@;
    assert(ranking::indices(all) =~= shown_order(text::texts(ids@), text::texts(reserve@)));
    if out.len() > max_results as usize {
        out.truncate(max_results as usize);
        assert(ranking::indices(out@) =~= ranking::indices(all).take(max_results as int));
    }
    out
}

/// What is known in time of the memories that were found, one by one, and what is asked
/// for: the time, or now, and whether older ones count too.
#[derive(Debug)]
pub struct Times {
    pub infos: Vec<Option<TimeInfo>>,
    pub at: String,
    pub timed: bool,
    pub include_superseded: bool,
}

/// A memory that is shown, by its place among those that were found, and how it is
/// marked.
#[derive(Debug, Clone, Copy)]
pub struct Shown {
    pub index: usize,
    pub time_status: Option<&'static str>,
}

/// The memories that may be shown of `n` that were found: those that stay, or all where
/// nothing is known of their times.
pub open spec fn candidates(times: Option<Times>, n: int) -> Seq<int> {
    match times {
        Some(t) => kept_of(t.infos@, t.at@, t.timed, t.include_superseded, n),
        None => Seq::new(n as nat, |i: int| i),
    }
}

/// How the memory at a place is marked, where its time is known.
pub open spec fn mark_of(times: Option<Times>, k: int) -> Option<Seq<char>> {
    match times {
        Some(t) => time_status(t.infos@[k]->0, t.at@, t.timed),
        None => None,
    }
}

/// The ids at some places.
pub open spec fn ids_at(ids: Seq<Seq<char>>, places: Seq<int>) -> Seq<Seq<char>> {
    Seq::new(places.len(), |i: int| ids[places[i]])
}

/// The places of the memories that are shown, `max` at most: of those that may be
/// shown, the ones with a place of their own come first, in the order of the ranking;
/// then the others.
pub open spec fn shown_places(
    ids: Seq<Seq<char>>,
    times: Option<Times>,
    reserve: Seq<Seq<char>>,
    max: int,
) -> Seq<int> {
    let c = candidates(times, ids.len() as int);
    let o = capped(shown_order(ids_at(ids, c), reserve), max);
    Seq::new(o.len(), |i: int| c[o[i]])
}

/// These are the memories that a search shows.
pub open spec fn shows(
    ids: Seq<Seq<char>>,
    times: Option<Times>,
    reserve: Seq<Seq<char>>,
    max: int,
    r: Seq<Shown>,
) -> bool {
    &&& r.len() == shown_places(ids, times, reserve, max).len()
    &&& forall|i: int|
        0 <= i < r.len() ==> (#[trigger] r[i]).index == shown_places(ids, times, reserve, max)[i]
            && text::opt_str(r[i].time_status) == mark_of(times, r[i].index as int)
}

pub open spec fn opt_times(times: Option<&Times>) -> Option<Times> {
    match times {
        Some(t) => Some(*t),
        None => None,
    }
}

fn stay(times: Option<&Times>, n: usize) -> (r: Vec<(usize, Judgement)>)
    requires
        times is Some ==> times->0.infos@.len() == n,
    ensures
        places_of(r@) == candidates(opt_times(times), n as int),
        forall|i: int|
            0 <= i < r@.len() ==> (#[trigger] r@[i]).0 < n && text::opt_str(r@[i].1.status)
                == mark_of(opt_times(times), r@[i].0 as int),
{
    match times {
        Some(t) => kept(&t.infos, t.at.as_str(), t.timed, t.include_superseded),
        None => {
            let mut out: Vec<(usize, Judgement)> = Vec::new();
            let mut i: usize = 0;
            while i < n
                invariant
                    i <= n,
                    out@.len() == i,
                    forall|k: int|
                        0 <= k < i ==> (#[trigger] out@[k]).0 == k && out@[k].1.status is None,
                decreases n - i,
            {
                out.push((i, Judgement { keep: true, status: None, downweight: false }));
                i += 1;
            }
            assert(places_of(out@) =~= candidates(opt_times(times), n as int));
            out
        },
    }
}

/// Picks the memories that are shown of those that were found, `max_results` at most,
/// each with its mark. Only those that stay in time are shown; of these the ones with a
/// place of their own come first, in the order of the ranking, then the others. Where
/// the times could not be asked for, all stay, without a mark.
pub fn hybrid_search(
    ids: &Vec<String>,
    times: Option<&Times>,
    reserve: &Vec<String>,
    max_results: u32,
) -> (r: Vec<Shown>)
    requires
        times is Some ==> times->0.infos@.len() == ids@.len(),
    ensures
        shows(
            text::texts(ids@),
            opt_times(times),
            text::texts(reserve@),
            max_results as int,
            r@,
        ),
{
    let stay = stay(times, ids.len());
    let ghost c = places_of(stay@);
    let mut part: Vec<String> = Vec::new();
    let mut i: usize = 0;
    while i < stay.len()
        invariant
            i <= stay@.len(),
            c == places_of(stay@),
            forall|k: int| 0 <= k < stay@.len() ==> (#[trigger] stay@[k]).0 < ids@.len(),
            part@.len() == i,
            forall|k: int| 0 <= k < i ==> (#[trigger] part@[k])@ == ids@[stay@[k].0 as int]@,
        decreases stay@.len() - i,
    {
        part.push(ids[stay[i].0].clone());
        i += 1;
    }
    let ghost t = text::texts(ids@);
    assert(text::texts(part@) =~= ids_at(t, c)) by {
        assert forall|k: int| 0 <= k < part@.len() implies text::texts(part@)[k] == ids_at(t, c)[k] by {
            assert(part@[k]@ == ids@[stay@[k].0 as int]@);
            assert(c[k] == stay@[k].0 as int);
        }
    }
    let picks = pick(&part, reserve, max_results);
    let ghost o = capped(shown_order(ids_at(t, c), text::texts(reserve@)), max_results as int);
    proof {
        lemma_shown_in_range(ids_at(t, c), text::texts(reserve@));
    }
    let mut out: Vec<Shown> = Vec::new();
    let mut k: usize = 0;
    while k < picks.len()
        invariant
            k <= picks@.len(),
            c == places_of(stay@),
            o == ranking::indices(picks@),
            forall|x: int| 0 <= x < o.len() ==> 0 <= #[trigger] o[x] < stay@.len(),
            forall|x: int|
                0 <= x < stay@.len() ==> text::opt_str((#[trigger] stay@[x]).1.status) == mark_of(
                    opt_times(times),
                    stay@[x].0 as int,
                ),
            out@.len() == k,
            forall|x: int|
                0 <= x < k ==> (#[trigger] out@[x]).index == c[o[x]] && text::opt_str(
                    out@[x].time_status,
                ) == mark_of(opt_times(times), out@[x].index as int),
        decreases picks@.len() - k,
    {
        assert(o[k as int] == picks@[k as int] as int);
        let p = picks[k];
        assert(c[p as int] == stay@[p as int].0 as int);
        out.push(Shown { index: stay[p].0, time_status: stay[p].1.status });
        k += 1;
    }
    out
}

proof fn lemma_shown_in_range(ids: Seq<Seq<char>>, reserve: Seq<Seq<char>>)
    ensures
        forall|k: int|
            0 <= k < shown_order(ids, reserve).len() ==> 0 <= #[trigger] shown_order(ids, reserve)[k]
                < ids.len(),
{
    let order = ranking::firsts(ids, ids.len() as int);
    let n = order.len() as int;
    ranking::law_firsts_cover(ids, ids.len() as int);
    lemma_sifted_apart(order, ids, reserve, true, n);
    lemma_sifted_apart(order, ids, reserve, false, n);
    let x = sifted(order, ids, reserve, true, n);
    let y = sifted(order, ids, reserve, false, n);
    assert forall|k: int| 0 <= k < (x + y).len() implies 0 <= #[trigger] (x + y)[k] < ids.len() by {
        let v = if k < x.len() {
            x[k]
        } else {
            y[k - x.len()]
        };
        assert((x + y)[k] == v);
        assert(stands_in(order, v, n));
        let i = choose|i: int| 0 <= i < n && #[trigger] order[i] == v;
        assert(order[i] == v);
    }
}

proof fn lemma_kept(
    infos: Seq<Option<TimeInfo>>,
    at: Seq<char>,
    timed: bool,
    include_superseded: bool,
    n: int,
)
    requires
        0 <= n <= infos.len(),
    ensures
        forall|k: int|
            0 <= k < kept_of(infos, at, timed, include_superseded, n).len() ==> {
                let p = #[trigger] kept_of(infos, at, timed, include_superseded, n)[k];
                0 <= p < n && keeps(infos[p], at, timed, include_superseded)
            },
        forall|p: int|
            0 <= p < n && keeps(infos[p], at, timed, include_superseded)
                ==> #[trigger] kept_of(infos, at, timed, include_superseded, n).contains(p),
    decreases n,
{
    if n > 0 {
        lemma_kept(infos, at, timed, include_superseded, n - 1);
        let q = kept_of(infos, at, timed, include_superseded, n - 1);
        let r = kept_of(infos, at, timed, include_superseded, n);
        assert forall|k: int| 0 <= k < r.len() implies {
            let p = #[trigger] r[k];
            0 <= p < n && keeps(infos[p], at, timed, include_superseded)
        } by {
            if k < q.len() {
                assert(r[k] == q[k]);
            }
        }
        assert forall|p: int|
            0 <= p < n && keeps(infos[p], at, timed, include_superseded) implies #[trigger] r.contains(
            p,
        ) by {
            if p < n - 1 {
                assert(q.contains(p));
                let k = choose|k: int| 0 <= k < q.len() && q[k] == p;
                assert(r[k] == p);
            } else {
                assert(r[r.len() - 1] == p);
            }
        }
    }
}

/// A search shows at most as many memories as are asked for, none of them twice, and
/// unless older ones are asked for too each of them is current and marked so: it is
/// valid at the time that is asked for, or, where none is, it is valid now and nothing
/// replaces it.
pub proof fn law_search_shows_the_current(
    ids: Seq<Seq<char>>,
    times: Times,
    reserve: Seq<Seq<char>>,
    max: int,
    r: Seq<Shown>,
    a: int,
    b: int,
)
    requires
        times.infos@.len() == ids.len(),
        0 <= max,
        shows(ids, Some(times), reserve, max, r),
        0 <= a < r.len(),
        0 <= b < r.len(),
        !times.include_superseded,
    ensures
        r.len() <= max,
        a != b ==> ids[r[a].index as int] != ids[r[b].index as int],
        r[a].index < ids.len(),
        ({
            let info = times.infos@[r[a].index as int];
            &&& info is Some
            &&& info->0.valid(times.at@)
            &&& !times.timed ==> info->0.superseded_by is None
        }),
        text::opt_str(r[a].time_status) == Some("current"@),
{
    let n = ids.len() as int;
    let c = candidates(Some(times), n);
    let part = ids_at(ids, c);
    let full = shown_order(part, reserve);
    let o = capped(full, max);
    lemma_kept(times.infos@, times.at@, times.timed, false, n);
    lemma_shown_in_range(part, reserve);
    assert(o[a] == full[a]);
    assert(o[b] == full[b]);
    assert(shown_places(ids, Some(times), reserve, max)[a] == c[o[a]]);
    assert(shown_places(ids, Some(times), reserve, max)[b] == c[o[b]]);
    assert(part[o[a]] == ids[c[o[a]]]);
    assert(part[o[b]] == ids[c[o[b]]]);
    if a < b {
        law_hits_are_shown_once(part, reserve, a, b);
    } else if b < a {
        law_hits_are_shown_once(part, reserve, b, a);
    }
}

/// Every memory that is current has its chance: it is among those from which a search
/// picks, and unless older ones are asked for too no other is.
pub proof fn law_current_memories_are_candidates(times: Times, p: int)
    requires
        0 <= p < times.infos@.len(),
    ensures
        candidates(Some(times), times.infos@.len() as int).contains(p) <==> keeps(
            times.infos@[p],
            times.at@,
            times.timed,
            times.include_superseded,
        ),
{
    lemma_kept(
        times.infos@,
        times.at@,
        times.timed,
        times.include_superseded,
        times.infos@.len() as int,
    );
}

proof fn lemma_sifted(
    order: Seq<int>,
    ids: Seq<Seq<char>>,
    reserve: Seq<Seq<char>>,
    wanted: bool,
    n: int,
)
    requires
        0 <= n <= order.len(),
    ensures
        forall|k: int|
            0 <= k < sifted(order, ids, reserve, wanted, n).len() ==> text::listed(
                reserve,
                ids[#[trigger] sifted(order, ids, reserve, wanted, n)[k]],
            ) == wanted,
        sifted(order, ids, reserve, wanted, n).len() + sifted(
            order,
            ids,
            reserve,
            !wanted,
            n,
        ).len() == n,
    decreases n,
{
    if n > 0 {
        lemma_sifted(order, ids, reserve, wanted, n - 1);
        let p = sifted(order, ids, reserve, wanted, n - 1);
        let r = sifted(order, ids, reserve, wanted, n);
        assert forall|k: int| 0 <= k < r.len() implies text::listed(
            reserve,
            ids[#[trigger] r[k]],
        ) == wanted by {
            if k < p.len() {
                assert(r[k] == p[k]);
            }
        }
    }
}

/// No memory without a place of its own is shown before one that has it, and none
/// is lost: there are as many as there are memories.
pub proof fn law_reserved_come_first(ids: Seq<Seq<char>>, reserve: Seq<Seq<char>>, a: int, b: int)
    requires
        0 <= a < b < shown_order(ids, reserve).len(),
        text::listed(reserve, ids[shown_order(ids, reserve)[b]]),
    ensures
        text::listed(reserve, ids[shown_order(ids, reserve)[a]]),
        shown_order(ids, reserve).len() == ranking::firsts(ids, ids.len() as int).len(),
{
    let order = ranking::firsts(ids, ids.len() as int);
    let n = order.len() as int;
    lemma_sifted(order, ids, reserve, true, n);
    lemma_sifted(order, ids, reserve, false, n);
    let x = sifted(order, ids, reserve, true, n);
    let y = sifted(order, ids, reserve, false, n);
    if b >= x.len() {
        assert((x + y)[b] == y[b - x.len()]);
    } else {
        assert((x + y)[a] == x[a]);
    }
}

/// The index is one of the first `n` in an order.
spec fn stands_in(order: Seq<int>, x: int, n: int) -> bool {
    exists|i: int| 0 <= i < n && #[trigger] order[i] == x
}

proof fn lemma_sifted_apart(
    order: Seq<int>,
    ids: Seq<Seq<char>>,
    reserve: Seq<Seq<char>>,
    wanted: bool,
    n: int,
)
    requires
        0 <= n <= order.len(),
        forall|i: int, j: int|
            0 <= i < j < order.len() ==> ids[#[trigger] order[i]] != ids[#[trigger] order[j]],
    ensures
        forall|k: int|
            0 <= k < sifted(order, ids, reserve, wanted, n).len() ==> stands_in(
                order,
                #[trigger] sifted(order, ids, reserve, wanted, n)[k],
                n,
            ),
        forall|a: int, b: int|
            0 <= a < b < sifted(order, ids, reserve, wanted, n).len()
                ==> ids[#[trigger] sifted(order, ids, reserve, wanted, n)[a]]
                != ids[#[trigger] sifted(order, ids, reserve, wanted, n)[b]],
    decreases n,
{
    if n > 0 {
        lemma_sifted_apart(order, ids, reserve, wanted, n - 1);
        let p = sifted(order, ids, reserve, wanted, n - 1);
        let r = sifted(order, ids, reserve, wanted, n);
        assert forall|k: int| 0 <= k < r.len() implies stands_in(order, #[trigger] r[k], n) by {
            if k < p.len() {
                assert(r[k] == p[k]);
                let i = choose|i: int| 0 <= i < n - 1 && #[trigger] order[i] == p[k];
                assert(order[i] == r[k]);
            } else {
                assert(order[n - 1] == r[k]);
            }
        }
        assert forall|a: int, b: int| 0 <= a < b < r.len() implies ids[#[trigger] r[a]]
            != ids[#[trigger] r[b]] by {
            assert(r[a] == p[a]);
            if b < p.len() {
                assert(r[b] == p[b]);
            } else {
                assert(stands_in(order, p[a], n - 1));
                let i = choose|i: int| 0 <= i < n - 1 && #[trigger] order[i] == p[a];
                assert(ids[order[i]] != ids[order[n - 1]]);
            }
        }
    }
}

/// No memory is shown twice.
pub proof fn law_hits_are_shown_once(ids: Seq<Seq<char>>, reserve: Seq<Seq<char>>, a: int, b: int)
    requires
        0 <= a < b < shown_order(ids, reserve).len(),
    ensures
        ids[shown_order(ids, reserve)[a]] != ids[shown_order(ids, reserve)[b]],
{
    let order = ranking::firsts(ids, ids.len() as int);
    let n = order.len() as int;
    ranking::law_firsts_cover(ids, ids.len() as int);
    lemma_sifted_apart(order, ids, reserve, true, n);
    lemma_sifted_apart(order, ids, reserve, false, n);
    lemma_sifted(order, ids, reserve, true, n);
    lemma_sifted(order, ids, reserve, false, n);
    let x = sifted(order, ids, reserve, true, n);
    let y = sifted(order, ids, reserve, false, n);
    if b < x.len() {
        assert((x + y)[a] == x[a] && (x + y)[b] == x[b]);
    } else if a >= x.len() {
        assert((x + y)[a] == y[a - x.len()] && (x + y)[b] == y[b - x.len()]);
    } else {
        assert((x + y)[a] == x[a] && (x + y)[b] == y[b - x.len()]);
    }
}

/// A memory that was found at a place stays. Without its times all stay. Else it has to
/// be there, and unless older ones are asked for too neither of its ends may lie on the
/// wrong side of the time, and nothing may replace it, where no time is asked for.
pub open spec fn stays(times: Option<Times>, p: int) -> bool {
    match times {
        None => true,
        Some(t) => match t.infos@[p] {
            None => false,
            Some(i) => t.include_superseded || {
                &&& i.valid_from matches Some(from) ==> text::sorted_le(from@, t.at@)
                &&& i.valid_to matches Some(to) ==> text::sorted_le(t.at@, to@)
                &&& !t.timed ==> i.superseded_by is None
            },
        },
    }
}

/// The memory at one place is to be shown before that at another: it alone has a place of
/// its own, or neither or both have, and it was found first.
pub open spec fn leads(ids: Seq<Seq<char>>, reserve: Seq<Seq<char>>, a: int, b: int) -> bool {
    if reserve.contains(ids[a]) == reserve.contains(ids[b]) {
        a < b
    } else {
        reserve.contains(ids[a])
    }
}

/// The ids of the memories that stay.
pub open spec fn staying(ids: Seq<Seq<char>>, times: Option<Times>) -> Set<Seq<char>> {
    Set::new(|id: Seq<char>| exists|p: int| 0 <= p < ids.len() && stays(times, p) && #[trigger] ids[p] == id)
}

proof fn lemma_sifted_keeps(
    order: Seq<int>,
    ids: Seq<Seq<char>>,
    reserve: Seq<Seq<char>>,
    wanted: bool,
    n: int,
)
    requires
        0 <= n <= order.len(),
        forall|i: int, j: int|
            0 <= i < j < order.len() ==> #[trigger] order[i] < #[trigger] order[j],
    ensures
        forall|i: int|
            0 <= i < n && text::listed(reserve, ids[order[i]]) == wanted ==> sifted(
                order,
                ids,
                reserve,
                wanted,
                n,
            ).contains(#[trigger] order[i]),
        forall|k: int|
            0 <= k < sifted(order, ids, reserve, wanted, n).len() ==> stands_in(
                order,
                #[trigger] sifted(order, ids, reserve, wanted, n)[k],
                n,
            ),
        forall|a: int, b: int|
            0 <= a < b < sifted(order, ids, reserve, wanted, n).len() ==> #[trigger] sifted(
                order,
                ids,
                reserve,
                wanted,
                n,
            )[a] < #[trigger] sifted(order, ids, reserve, wanted, n)[b],
    decreases n,
{
    if n > 0 {
        lemma_sifted_keeps(order, ids, reserve, wanted, n - 1);
        let p = sifted(order, ids, reserve, wanted, n - 1);
        let r = sifted(order, ids, reserve, wanted, n);
        assert forall|i: int|
            0 <= i < n && text::listed(reserve, ids[order[i]]) == wanted implies r.contains(
            #[trigger] order[i],
        ) by {
            if i < n - 1 {
                assert(p.contains(order[i]));
                let k = choose|k: int| 0 <= k < p.len() && p[k] == order[i];
                assert(r[k] == order[i]);
            } else {
                assert(r[p.len() as int] == order[i]);
            }
        }
        assert forall|k: int| 0 <= k < r.len() implies stands_in(order, #[trigger] r[k], n) by {
            if k < p.len() {
                assert(r[k] == p[k]);
                let i = choose|i: int| 0 <= i < n - 1 && #[trigger] order[i] == p[k];
                assert(order[i] == r[k]);
            } else {
                assert(order[n - 1] == r[k]);
            }
        }
        assert forall|a: int, b: int| 0 <= a < b < r.len() implies #[trigger] r[a] < #[trigger] r[b] by {
            assert(r[a] == p[a]);
            if b < p.len() {
                assert(r[b] == p[b]);
            } else {
                assert(stands_in(order, p[a], n - 1));
                let i = choose|i: int| 0 <= i < n - 1 && #[trigger] order[i] == p[a];
                assert(order[i] < order[n - 1]);
            }
        }
    }
}

proof fn lemma_shown_order(ids: Seq<Seq<char>>, reserve: Seq<Seq<char>>)
    ensures
        forall|k: int|
            0 <= k < shown_order(ids, reserve).len() ==> 0 <= #[trigger] shown_order(ids, reserve)[k]
                < ids.len(),
        forall|a: int, b: int|
            0 <= a < b < shown_order(ids, reserve).len() ==> leads(
                ids,
                reserve,
                #[trigger] shown_order(ids, reserve)[a],
                #[trigger] shown_order(ids, reserve)[b],
            ) && ids[shown_order(ids, reserve)[a]] != ids[shown_order(ids, reserve)[b]],
        forall|k: int, i: int|
            0 <= k < shown_order(ids, reserve).len() && 0 <= i < shown_order(ids, reserve)[k]
                ==> #[trigger] ids[i] != ids[#[trigger] shown_order(ids, reserve)[k]],
        forall|i: int|
            0 <= i < ids.len() ==> ranking::shown(ids, shown_order(ids, reserve), #[trigger] ids[i]),
{
    let order = ranking::firsts(ids, ids.len() as int);
    let n = order.len() as int;
    ranking::law_firsts_cover(ids, ids.len() as int);
    lemma_shown_in_range(ids, reserve);
    lemma_sifted_keeps(order, ids, reserve, true, n);
    lemma_sifted_keeps(order, ids, reserve, false, n);
    lemma_sifted(order, ids, reserve, true, n);
    lemma_sifted(order, ids, reserve, false, n);
    let x = sifted(order, ids, reserve, true, n);
    let y = sifted(order, ids, reserve, false, n);
    let full = shown_order(ids, reserve);
    assert(full == x + y);
    assert forall|a: int, b: int| 0 <= a < b < full.len() implies leads(
        ids,
        reserve,
        #[trigger] full[a],
        #[trigger] full[b],
    ) && ids[full[a]] != ids[full[b]] by {
        law_hits_are_shown_once(ids, reserve, a, b);
        lemma_listed(reserve, ids[full[a]]);
        lemma_listed(reserve, ids[full[b]]);
        if b < x.len() {
            assert(full[a] == x[a] && full[b] == x[b]);
        } else if a >= x.len() {
            assert(full[a] == y[a - x.len()] && full[b] == y[b - x.len()]);
        } else {
            assert(full[a] == x[a] && full[b] == y[b - x.len()]);
        }
    }
    assert forall|k: int, i: int| 0 <= k < full.len() && 0 <= i < full[k] implies #[trigger] ids[i]
        != ids[#[trigger] full[k]] by {
        let v = if k < x.len() {
            x[k]
        } else {
            y[k - x.len()]
        };
        assert(full[k] == v);
        assert(stands_in(order, v, n));
        let m = choose|m: int| 0 <= m < n && #[trigger] order[m] == v;
        assert(order[m] == v);
        assert(ids[i] != ids[order[m]]);
    }
    assert forall|i: int| 0 <= i < ids.len() implies ranking::shown(ids, full, #[trigger] ids[i]) by {
        assert(ranking::shown(ids, order, ids[i]));
        let m = choose|m: int| 0 <= m < order.len() && ids[#[trigger] order[m]] == ids[i];
        if text::listed(reserve, ids[order[m]]) {
            assert(x.contains(order[m]));
            let k = choose|k: int| 0 <= k < x.len() && x[k] == order[m];
            assert(full[k] == order[m]);
        } else {
            assert(y.contains(order[m]));
            let k = choose|k: int| 0 <= k < y.len() && y[k] == order[m];
            assert(full[x.len() + k] == order[m]);
        }
    }
}

proof fn lemma_listed(reserve: Seq<Seq<char>>, s: Seq<char>)
    ensures
        text::listed(reserve, s) == reserve.contains(s),
{
    if reserve.contains(s) {
        let k = choose|k: int| 0 <= k < reserve.len() && reserve[k] == s;
        assert(reserve[k] == s);
    }
}

proof fn lemma_kept_grows(
    infos: Seq<Option<TimeInfo>>,
    at: Seq<char>,
    timed: bool,
    include_superseded: bool,
    n: int,
)
    requires
        0 <= n <= infos.len(),
    ensures
        forall|a: int, b: int|
            0 <= a < b < kept_of(infos, at, timed, include_superseded, n).len()
                ==> #[trigger] kept_of(infos, at, timed, include_superseded, n)[a]
                < #[trigger] kept_of(infos, at, timed, include_superseded, n)[b],
    decreases n,
{
    if n > 0 {
        lemma_kept_grows(infos, at, timed, include_superseded, n - 1);
        lemma_kept(infos, at, timed, include_superseded, n - 1);
        let p = kept_of(infos, at, timed, include_superseded, n - 1);
        let r = kept_of(infos, at, timed, include_superseded, n);
        assert forall|a: int, b: int| 0 <= a < b < r.len() implies #[trigger] r[a] < #[trigger] r[b] by {
            assert(r[a] == p[a]);
            if b < p.len() {
                assert(r[b] == p[b]);
            }
        }
    }
}

proof fn lemma_candidates(times: Option<Times>, n: int)
    requires
        0 <= n,
        times matches Some(t) ==> t.infos@.len() == n,
    ensures
        forall|k: int|
            0 <= k < candidates(times, n).len() ==> 0 <= #[trigger] candidates(times, n)[k] < n
                && stays(times, candidates(times, n)[k]),
        forall|a: int, b: int|
            0 <= a < b < candidates(times, n).len() ==> #[trigger] candidates(times, n)[a]
                < #[trigger] candidates(times, n)[b],
        forall|p: int| 0 <= p < n && stays(times, p) ==> #[trigger] candidates(times, n).contains(p),
{
    match times {
        Some(t) => {
            lemma_kept(t.infos@, t.at@, t.timed, t.include_superseded, n);
            lemma_kept_grows(t.infos@, t.at@, t.timed, t.include_superseded, n);
            assert forall|p: int| 0 <= p < n implies stays(times, p) == keeps(
                #[trigger] t.infos@[p],
                t.at@,
                t.timed,
                t.include_superseded,
            ) by {}
            let c = candidates(times, n);
            assert forall|k: int| 0 <= k < c.len() implies 0 <= #[trigger] c[k] < n && stays(
                times,
                c[k],
            ) by {
                let p = c[k];
                assert(keeps(t.infos@[p], t.at@, t.timed, t.include_superseded));
            }
            assert forall|p: int| 0 <= p < n && stays(times, p) implies #[trigger] c.contains(p) by {
                assert(keeps(t.infos@[p], t.at@, t.timed, t.include_superseded));
            }
        },
        None => {
            let c = candidates(times, n);
            assert forall|p: int| 0 <= p < n implies #[trigger] c.contains(p) by {
                assert(c[p] == p);
            }
        },
    }
}

/// A search shows the memories that stay, each of them once, and as many of them as are
/// asked for or as there are. Those that lead come first: no two that are shown stand
/// the wrong way round, none that is left out leads one that is shown, and of the places
/// at which a memory was found the first counts.
pub proof fn law_search_shows_the_best(
    ids: Seq<Seq<char>>,
    times: Option<Times>,
    reserve: Seq<Seq<char>>,
    max: nat,
    r: Seq<Shown>,
)
    requires
        times matches Some(t) ==> t.infos@.len() == ids.len(),
        shows(ids, times, reserve, max as int, r),
    ensures
        staying(ids, times).finite(),
        r.len() == if staying(ids, times).len() < max {
            staying(ids, times).len()
        } else {
            max
        },
        forall|k: int|
            0 <= k < r.len() ==> (#[trigger] r[k]).index < ids.len() && stays(
                times,
                r[k].index as int,
            ),
        forall|a: int, b: int|
            0 <= a < b < r.len() ==> ids[(#[trigger] r[a]).index as int]
                != ids[(#[trigger] r[b]).index as int] && leads(
                ids,
                reserve,
                r[a].index as int,
                r[b].index as int,
            ),
        forall|k: int, p: int|
            0 <= k < r.len() && 0 <= p < ids.len() && stays(times, p) && #[trigger] ids[p]
                == ids[(#[trigger] r[k]).index as int] ==> r[k].index <= p,
        forall|p: int|
            0 <= p < ids.len() && stays(times, p) ==> {
                ||| exists|k: int| 0 <= k < r.len() && ids[(#[trigger] r[k]).index as int] == #[trigger] ids[p]
                ||| r.len() == max && forall|k: int|
                    0 <= k < r.len() ==> leads(ids, reserve, (#[trigger] r[k]).index as int, p)
            },
{
    let n = ids.len() as int;
    let c = candidates(times, n);
    let part = ids_at(ids, c);
    let full = shown_order(part, reserve);
    let o = capped(full, max as int);
    let places = shown_places(ids, times, reserve, max as int);
    lemma_candidates(times, n);
    lemma_shown_order(part, reserve);
    assert forall|k: int| 0 <= k < r.len() implies (#[trigger] r[k]).index == c[full[k]] && 0
        <= full[k] < c.len() && part[full[k]] == ids[c[full[k]]] by {
        assert(places[k] == c[o[k]]);
        assert(o[k] == full[k]);
    }
    let all = Seq::new(full.len(), |k: int| part[full[k]]);
    assert(all.no_duplicates());
    all.unique_seq_to_set();
    assert(all.to_set() =~= staying(ids, times)) by {
        assert forall|id: Seq<char>| all.to_set().contains(id) implies staying(ids, times).contains(
            id,
        ) by {
            let k = choose|k: int| 0 <= k < all.len() && all[k] == id;
            assert(part[full[k]] == ids[c[full[k]]]);
            assert(ids[c[full[k]]] == id);
        }
        assert forall|id: Seq<char>| staying(ids, times).contains(id) implies all.to_set().contains(
            id,
        ) by {
            let p = choose|p: int|
                0 <= p < ids.len() && stays(times, p) && #[trigger] ids[p] == id;
            assert(c.contains(p));
            let q = choose|q: int| 0 <= q < c.len() && c[q] == p;
            assert(part[q] == id);
            assert(ranking::shown(part, full, part[q]));
            let k = choose|k: int| 0 <= k < full.len() && part[#[trigger] full[k]] == part[q];
            assert(all[k] == id);
        }
    }
    assert forall|a: int, b: int| 0 <= a < b < r.len() implies ids[(#[trigger] r[a]).index as int]
        != ids[(#[trigger] r[b]).index as int] && leads(
        ids,
        reserve,
        r[a].index as int,
        r[b].index as int,
    ) by {
        assert(r[a].index == c[full[a]] && r[b].index == c[full[b]]);
        assert(leads(part, reserve, full[a], full[b]));
    }
    assert forall|k: int, p: int|
        0 <= k < r.len() && 0 <= p < ids.len() && stays(times, p) && #[trigger] ids[p]
            == ids[(#[trigger] r[k]).index as int] implies r[k].index <= p by {
        assert(c.contains(p));
        let q = choose|q: int| 0 <= q < c.len() && c[q] == p;
        assert(part[q] == ids[p]);
        assert(r[k].index == c[full[k]]);
        if q < full[k] {
            assert(part[q] != part[full[k]]);
        }
    }
    assert forall|p: int| 0 <= p < ids.len() && stays(times, p) implies {
        ||| exists|k: int| 0 <= k < r.len() && ids[(#[trigger] r[k]).index as int] == #[trigger] ids[p]
        ||| r.len() == max && forall|k: int|
            0 <= k < r.len() ==> leads(ids, reserve, (#[trigger] r[k]).index as int, p)
    } by {
        assert(c.contains(p));
        let q = choose|q: int| 0 <= q < c.len() && c[q] == p;
        assert(part[q] == ids[p]);
        assert(ranking::shown(part, full, part[q]));
        let m = choose|m: int| 0 <= m < full.len() && part[#[trigger] full[m]] == part[q];
        if m < r.len() {
            assert(ids[r[m].index as int] == ids[p]);
        } else {
            assert forall|k: int| 0 <= k < r.len() implies leads(
                ids,
                reserve,
                (#[trigger] r[k]).index as int,
                p,
            ) by {
                assert(r[k].index == c[full[k]]);
                assert(leads(part, reserve, full[k], full[m]));
                if q < full[m] {
                    assert(part[q] != part[full[m]]);
                }
            }
        }
    }
}

/// How the memories that a search shows are marked: with unknown times none is. Else one
/// that is valid then, and that nothing replaces where no time is asked for, is current;
/// one that is not has been superseded, where no time is asked for, and no mark else.
pub proof fn law_shown_memories_are_marked(
    ids: Seq<Seq<char>>,
    times: Option<Times>,
    reserve: Seq<Seq<char>>,
    max: nat,
    r: Seq<Shown>,
    k: int,
)
    requires
        times matches Some(t) ==> t.infos@.len() == ids.len(),
        shows(ids, times, reserve, max as int, r),
        0 <= k < r.len(),
    ensures
        times is None ==> r[k].time_status is None,
        times matches Some(t) ==> {
            let plain = Some(Times { include_superseded: false, ..t });
            &&& text::opt_str(r[k].time_status) == Some("current"@) <==> stays(
                plain,
                r[k].index as int,
            )
            &&& !stays(plain, r[k].index as int) ==> text::opt_str(r[k].time_status)
                == if t.timed {
                None
            } else {
                Some("superseded"@)
            }
        },
{
    reveal_strlit("current");
    reveal_strlit("superseded");
    assert("current"@.len() == 7 && "superseded"@.len() == 10);
    law_search_shows_the_best(ids, times, reserve, max, r);
    assert(r[k].index < ids.len());
}

/// The first 50 hits by meaning and the first 50 by words have a place of their own, and no
/// others.
pub proof fn law_first_hits_have_a_place(semantic: Seq<SignalResult>, keyword: Seq<SignalResult>, id: Seq<char>)
    ensures
        (reserved_of(semantic) + reserved_of(keyword)).contains(id) <==> {
            ||| exists|i: int| 0 <= i < 50 && i < semantic.len() && (#[trigger] semantic[i]).memory_id@ == id
            ||| exists|i: int| 0 <= i < 50 && i < keyword.len() && (#[trigger] keyword[i]).memory_id@ == id
        },
{
    let a = reserved_of(semantic);
    let b = reserved_of(keyword);
    if (a + b).contains(id) {
        let k = choose|k: int| 0 <= k < (a + b).len() && (a + b)[k] == id;
        if k < a.len() {
            assert(semantic[k].memory_id@ == id);
        } else {
            assert(keyword[k - a.len()].memory_id@ == id);
        }
    }
    if exists|i: int| 0 <= i < 50 && i < semantic.len() && (#[trigger] semantic[i]).memory_id@ == id {
        let i = choose|i: int|
            0 <= i < 50 && i < semantic.len() && (#[trigger] semantic[i]).memory_id@ == id;
        assert((a + b)[i] == id);
    }
    if exists|i: int| 0 <= i < 50 && i < keyword.len() && (#[trigger] keyword[i]).memory_id@ == id {
        let i = choose|i: int|
            0 <= i < 50 && i < keyword.len() && (#[trigger] keyword[i]).memory_id@ == id;
        assert((a + b)[a.len() + i] == id);
    }
}

/// A memory that is shown although it is not current counts less, and is marked as replaced;
/// at a time that is asked for none counts less.
pub proof fn law_replaced_memories_count_less(i: TimeInfo, at: Seq<char>, timed: bool, j: Judgement)
    requires
        judged(Some(i), at, timed, true, j),
    ensures
        j.keep,
        timed ==> !j.downweight,
        !timed && i.superseded_by is Some ==> j.downweight && text::opt_str(j.status) == Some(
            "superseded"@,
        ),
        !timed && i.superseded_by is None && i.valid_from is None && i.valid_to is None
            ==> !j.downweight && text::opt_str(j.status) == Some("current"@),
{
}

/// A memory is valid from its beginning to its end, both of them included.
pub proof fn law_validity_has_two_ends(from: Seq<char>, to: Seq<char>, at: Seq<char>)
    ensures
        valid_then(None, None, at),
        valid_then(Some(from), None, at) <==> text::sorted_le(from, at),
        valid_then(None, Some(to), at) <==> text::sorted_le(at, to),
        valid_then(Some(at), Some(at), at),
        valid_then(Some(from), Some(to), at) <==> text::sorted_le(from, at) && text::sorted_le(at, to),
{
    text::law_order_is_total(at, at);
}

} // verus!
