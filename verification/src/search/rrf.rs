//! Bringing ranked lists together: what each of them adds to a memory, and the
//! walk along the relations from the best ones.
use vstd::prelude::*;
use crate::text;

verus! {

/// A hit of one signal.
#[derive(Debug)]
pub struct SignalResult {
    pub memory_id: String,
    pub content: String,
    /// A number in the order of the scores.
    pub score: i64,
    pub source: String,
}

pub struct SignalView {
    pub memory_id: Seq<char>,
    pub content: Seq<char>,
    pub score: i64,
    pub source: Seq<char>,
}

impl SignalResult {
    pub open spec fn view(&self) -> SignalView {
        SignalView {
            memory_id: self.memory_id@,
            content: self.content@,
            score: self.score,
            source: self.source@,
        }
    }
}

pub open spec fn signal_views(v: Seq<SignalResult>) -> Seq<SignalView> {
    Seq::new(v.len(), |i: int| v[i]@)
}

/// The channel that a source belongs to.
pub open spec fn channel(source: Seq<char>) -> Seq<char> {
    if text::occurs(source, "keyword"@) || text::occurs(source, "like"@) {
        "keyword"@
    } else if text::occurs(source, "semantic"@) {
        "semantic"@
    } else if text::occurs(source, "temporal"@) {
        "temporal"@
    } else if text::occurs(source, "importance"@) {
        "importance"@
    } else if text::occurs(source, "category"@) {
        "category"@
    } else {
        source
    }
}

/// The channel that a source belongs to.
pub fn channel_of(source: &str) -> (r: String)
    ensures
        r@ == channel(source@),
{
    if text::contains(source, "keyword") || text::contains(source, "like") {
        "keyword".to_string()
    } else if text::contains(source, "semantic") {
        "semantic".to_string()
    } else if text::contains(source, "temporal") {
        "temporal".to_string()
    } else if text::contains(source, "importance") {
        "importance".to_string()
    } else if text::contains(source, "category") {
        "category".to_string()
    } else {
        source.to_string()
    }
}

/// What a signal adds to a memory: a share by the rank that it has there, counted
/// from 0.
#[derive(Debug)]
pub struct Share {
    pub signal: usize,
    pub rank: usize,
    pub channel: String,
}

pub struct ShareView {
    pub signal: int,
    pub rank: int,
    pub channel: Seq<char>,
}

impl Share {
    pub open spec fn view(&self) -> ShareView {
        ShareView { signal: self.signal as int, rank: self.rank as int, channel: self.channel@ }
    }
}

pub open spec fn share_views(v: Seq<Share>) -> Seq<ShareView> {
    Seq::new(v.len(), |i: int| v[i]@)
}

/// A memory with all that the signals add to it.
#[derive(Debug)]
pub struct FusedResult {
    pub memory_id: String,
    pub content: String,
    pub source: String,
    pub shares: Vec<Share>,
    /// The best score in the semantic channel.
    pub semantic: Option<i64>,
    /// The lowest score in the keyword channel, where lower is better.
    pub keyword: Option<i64>,
}

pub struct FusedView {
    pub memory_id: Seq<char>,
    pub content: Seq<char>,
    pub source: Seq<char>,
    pub shares: Seq<ShareView>,
    pub semantic: Option<i64>,
    pub keyword: Option<i64>,
}

impl FusedResult {
    pub open spec fn view(&self) -> FusedView {
        FusedView {
            memory_id: self.memory_id@,
            content: self.content@,
            source: self.source@,
            shares: share_views(self.shares@),
            semantic: self.semantic,
            keyword: self.keyword,
        }
    }
}

pub open spec fn fused_views(v: Seq<FusedResult>) -> Seq<FusedView> {
    Seq::new(v.len(), |i: int| v[i]@)
}

/// The larger of a score and the best so far.
pub open spec fn best_of(so_far: Option<i64>, score: i64) -> Option<i64> {
    match so_far {
        Some(b) => if score > b {
            Some(score)
        } else {
            Some(b)
        },
        None => Some(score),
    }
}

/// The smaller of a score and the lowest so far.
pub open spec fn lowest_of(so_far: Option<i64>, score: i64) -> Option<i64> {
    match so_far {
        Some(b) => if score < b {
            Some(score)
        } else {
            Some(b)
        },
        None => Some(score),
    }
}

/// A memory that no signal has added to.
pub open spec fn fresh(h: SignalView) -> FusedView {
    FusedView {
        memory_id: h.memory_id,
        content: h.content,
        source: h.source,
        shares: Seq::empty(),
        semantic: None,
        keyword: None,
    }
}

/// A memory with one more hit.
pub open spec fn joined(f: FusedView, h: SignalView, signal: int, rank: int) -> FusedView {
    let c = channel(h.source);
    FusedView {
        shares: f.shares.push(ShareView { signal, rank, channel: c }),
        semantic: if c == "semantic"@ {
            best_of(f.semantic, h.score)
        } else {
            f.semantic
        },
        keyword: if c == "keyword"@ {
            lowest_of(f.keyword, h.score)
        } else {
            f.keyword
        },
        ..f
    }
}

/// Where a memory stands in a list, from position `i` on.
pub open spec fn position(l: Seq<FusedView>, id: Seq<char>, i: int) -> Option<int>
    decreases l.len() - i,
{
    if i < 0 || i >= l.len() {
        None
    } else if l[i].memory_id == id {
        Some(i)
    } else {
        position(l, id, i + 1)
    }
}

/// A list with one more hit: the memory has a place of its own from its first hit
/// on.
pub open spec fn taken_in(l: Seq<FusedView>, h: SignalView, signal: int, rank: int) -> Seq<
    FusedView,
> {
    match position(l, h.memory_id, 0) {
        Some(i) => l.update(i, joined(l[i], h, signal, rank)),
        None => l.push(joined(fresh(h), h, signal, rank)),
    }
}

/// A list with the first `n` hits of a signal.
pub open spec fn with_signal(l: Seq<FusedView>, hits: Seq<SignalView>, signal: int, n: int) -> Seq<
    FusedView,
>
    decreases n,
{
    if n <= 0 {
        l
    } else {
        taken_in(with_signal(l, hits, signal, n - 1), hits[n - 1], signal, n - 1)
    }
}

/// The memories that the first `n` signals name, in the order of their first hits.
pub open spec fn fused(signals: Seq<Vec<SignalResult>>, n: int) -> Seq<FusedView>
    decreases n,
{
    if n <= 0 {
        Seq::empty()
    } else {
        let hits = signal_views(signals[n - 1]@);
        with_signal(fused(signals, n - 1), hits, n - 1, hits.len() as int)
    }
}

fn find(l: &Vec<FusedResult>, id: &str) -> (r: Option<usize>)
    ensures
        match r {
            Some(i) => i < l@.len() && position(fused_views(l@), id@, 0) == Some(i as int),
            None => position(fused_views(l@), id@, 0) is None,
        },
{
    let ghost v = fused_views(l@);
    let mut i: usize = 0;
    while i < l.len()
        invariant
            i <= l@.len(),
            v == fused_views(l@),
            position(v, id@, 0) == position(v, id@, i as int),
        decreases l@.len() - i,
    {
        assert(v[i as int].memory_id == l@[i as int].memory_id@);
        if text::same(l[i].memory_id.as_str(), id) {
            return Some(i);
        }
        i += 1;
    }
    None
}

fn join_hit(f: &mut FusedResult, h: &SignalResult, signal: usize, rank: usize)
    ensures
        final(f)@ == joined(old(f)@, h@, signal as int, rank as int),
{
    let ghost before = f.shares@;
    let c = channel_of(h.source.as_str());
    if text::same(c.as_str(), "semantic") {
        f.semantic = match f.semantic {
            Some(b) => if h.score > b {
                Some(h.score)
            } else {
                Some(b)
            },
            None => Some(h.score),
        };
    }
    if text::same(c.as_str(), "keyword") {
        f.keyword = match f.keyword {
            Some(b) => if h.score < b {
                Some(h.score)
            } else {
                Some(b)
            },
            None => Some(h.score),
        };
    }
    let share = Share { signal, rank, channel: c };
    f.shares.push(share);
    assert(share_views(f.shares@) =~= share_views(before).push(share@));
}

fn take_in(l: &mut Vec<FusedResult>, h: &SignalResult, signal: usize, rank: usize)
    ensures
        fused_views(final(l)@) == taken_in(
            fused_views(old(l)@),
            h@,
            signal as int,
            rank as int,
        ),
{
    let ghost before = l@;
    match find(l, h.memory_id.as_str()) {
        Some(i) => {
            join_hit(&mut l[i], h, signal, rank);
            assert(fused_views(l@) =~= fused_views(before).update(
                i as int,
                joined(before[i as int]@, h@, signal as int, rank as int),
            ));
        },
        None => {
            let mut f = FusedResult {
                memory_id: h.memory_id.clone(),
                content: h.content.clone(),
                source: h.source.clone(),
                shares: Vec::new(),
                semantic: None,
                keyword: None,
            };
            assert(share_views(f.shares@) =~= Seq::empty());
            join_hit(&mut f, h, signal, rank);
            let ghost fv = f@;
            l.push(f);
            assert(fused_views(l@) =~= fused_views(before).push(fv));
        },
    }
}

/// Brings the ranked lists of the signals together: each memory once, with what
/// each signal adds to it.
pub fn rrf_merge(signals: &Vec<Vec<SignalResult>>) -> (r: Vec<FusedResult>)
    ensures
        fused_views(r@) == fused(signals@, signals@.len() as int),
{
    let mut out: Vec<FusedResult> = Vec::new();
    let mut i: usize = 0;
    assert(fused_views(out@) =~= Seq::empty());
    while i < signals.len()
        invariant
            i <= signals@.len(),
            fused_views(out@) == fused(signals@, i as int),
        decreases signals@.len() - i,
    {
        let hits = &signals[i];
        let ghost hv = signal_views(hits@);
        let ghost base = fused(signals@, i as int);
        let mut k: usize = 0;
        while k < hits.len()
            invariant
                k <= hits@.len(),
                hv == signal_views(hits@),
                fused_views(out@) == with_signal(base, hv, i as int, k as int),
            decreases hits@.len() - k,
        {
            assert(hv[k as int] == hits@[k as int]@);
            take_in(&mut out, &hits[k], i, k);
            k += 1;
        }
        i += 1;
    }
    out
}

/// No memory has two places.
pub open spec fn each_once(l: Seq<FusedView>) -> bool {
    forall|i: int, j: int|
        0 <= i < j < l.len() ==> (#[trigger] l[i]).memory_id != (#[trigger] l[j]).memory_id
}

/// How many shares there are in all.
pub open spec fn share_count(l: Seq<FusedView>) -> nat
    decreases l.len(),
{
    if l.len() == 0 {
        0
    } else {
        share_count(l.drop_last()) + l.last().shares.len()
    }
}

proof fn lemma_position(l: Seq<FusedView>, id: Seq<char>, i: int)
    requires
        0 <= i,
    ensures
        match position(l, id, i) {
            Some(k) => i <= k < l.len() && l[k].memory_id == id,
            None => forall|k: int| i <= k < l.len() ==> (#[trigger] l[k]).memory_id != id,
        },
    decreases l.len() - i,
{
    if i < l.len() && l[i].memory_id != id {
        lemma_position(l, id, i + 1);
    }
}

proof fn lemma_share_count_update(l: Seq<FusedView>, i: int, f: FusedView)
    requires
        0 <= i < l.len(),
        f.shares.len() == l[i].shares.len() + 1,
    ensures
        share_count(l.update(i, f)) == share_count(l) + 1,
    decreases l.len(),
{
    let u = l.update(i, f);
    if i == l.len() - 1 {
        assert(u.drop_last() =~= l.drop_last());
    } else {
        lemma_share_count_update(l.drop_last(), i, f);
        assert(u.drop_last() =~= l.drop_last().update(i, f));
    }
}

proof fn lemma_taken_in(l: Seq<FusedView>, h: SignalView, signal: int, rank: int)
    requires
        each_once(l),
    ensures
        each_once(taken_in(l, h, signal, rank)),
        share_count(taken_in(l, h, signal, rank)) == share_count(l) + 1,
{
    lemma_position(l, h.memory_id, 0);
    match position(l, h.memory_id, 0) {
        Some(i) => {
            lemma_share_count_update(l, i, joined(l[i], h, signal, rank));
        },
        None => {
            let r = l.push(joined(fresh(h), h, signal, rank));
            assert(r.drop_last() =~= l);
        },
    }
}

/// How many hits the first `n` signals have.
pub open spec fn hit_count(signals: Seq<Vec<SignalResult>>, n: int) -> nat
    decreases n,
{
    if n <= 0 {
        0
    } else {
        hit_count(signals, n - 1) + signals[n - 1]@.len()
    }
}

proof fn lemma_with_signal(l: Seq<FusedView>, hits: Seq<SignalView>, signal: int, n: int)
    requires
        each_once(l),
        0 <= n <= hits.len(),
    ensures
        each_once(with_signal(l, hits, signal, n)),
        share_count(with_signal(l, hits, signal, n)) == share_count(l) + n,
    decreases n,
{
    if n > 0 {
        lemma_with_signal(l, hits, signal, n - 1);
        lemma_taken_in(with_signal(l, hits, signal, n - 1), hits[n - 1], signal, n - 1);
    }
}

/// Bringing lists together gives each memory one place, and counts each hit of
/// each signal exactly once.
pub proof fn law_fusion_counts_each_hit(signals: Seq<Vec<SignalResult>>, n: int)
    requires
        0 <= n <= signals.len(),
    ensures
        each_once(fused(signals, n)),
        share_count(fused(signals, n)) == hit_count(signals, n),
    decreases n,
{
    if n > 0 {
        law_fusion_counts_each_hit(signals, n - 1);
        let hits = signal_views(signals[n - 1]@);
        lemma_with_signal(fused(signals, n - 1), hits, n - 1, hits.len() as int);
    }
}

/// The index of the largest of the first `n` keys, the last of those that are the
/// same.
pub open spec fn last_largest(keys: Seq<i64>, n: int) -> Option<int>
    decreases n,
{
    if n <= 0 {
        None
    } else {
        match last_largest(keys, n - 1) {
            Some(k) => if keys[n - 1] >= keys[k] {
                Some(n - 1)
            } else {
                Some(k)
            },
            None => Some(n - 1),
        }
    }
}

/// The channel that adds most to a memory. `keys` holds what each channel adds.
pub fn primary_channel(keys: &Vec<i64>) -> (r: Option<usize>)
    ensures
        match r {
            Some(k) => k < keys@.len() && last_largest(keys@, keys@.len() as int) == Some(k as int),
            None => last_largest(keys@, keys@.len() as int) is None,
        },
{
    let mut best: Option<usize> = None;
    let mut i: usize = 0;
    while i < keys.len()
        invariant
            i <= keys@.len(),
            match best {
                Some(k) => k < i && last_largest(keys@, i as int) == Some(k as int),
                None => last_largest(keys@, i as int) is None,
            },
        decreases keys@.len() - i,
    {
        best = match best {
            Some(k) => if keys[i] >= keys[k] {
                Some(i)
            } else {
                Some(k)
            },
            None => Some(i),
        };
        i += 1;
    }
    best
}

/// How the walk along the relations goes: how far, from how many memories, and how
/// many neighbours of each are looked at.
#[derive(Debug, Clone, Copy, PartialEq, Eq, Structural)]
pub struct WalkLimits {
    pub hops: u32,
    pub seeds: u32,
    pub fanout: u32,
}

/// A number that a variable is set to, white space at its ends left out; else the
/// default.
pub open spec fn setting(v: Option<Seq<char>>, default: nat) -> nat {
    match v {
        Some(s) => match text::spelled(text::trimmed(s), u32::MAX as nat) {
            Some(n) => n,
            None => default,
        },
        None => default,
    }
}

/// Reads a number that a variable is set to.
pub fn read_setting(v: Option<&str>, default: u32) -> (r: u32)
    ensures
        r == setting(text::opt_str(v), default as nat),
{
    match v {
        Some(s) => match text::parse_up_to(text::trim(s).as_str(), u32::MAX as u64) {
            Some(n) => n as u32,
            None => default,
        },
        None => default,
    }
}

/// The limits of the walk, by their variables: at most three hops; ten memories
/// to begin with and ten neighbours of each unless set otherwise, and at least
/// one.
pub fn walk_limits(
    default_hops: u32,
    hops: Option<&str>,
    seeds: Option<&str>,
    fanout: Option<&str>,
) -> (r: WalkLimits)
    ensures
        r.hops == (if setting(text::opt_str(hops), default_hops as nat) > 3 {
            3
        } else {
            setting(text::opt_str(hops), default_hops as nat)
        }),
        r.seeds == (if setting(text::opt_str(seeds), 10) < 1 {
            1
        } else {
            setting(text::opt_str(seeds), 10)
        }),
        r.fanout == (if setting(text::opt_str(fanout), 10) < 1 {
            1
        } else {
            setting(text::opt_str(fanout), 10)
        }),
        r.hops <= 3 && r.seeds >= 1 && r.fanout >= 1,
        hops is None && default_hops <= 3 ==> r.hops == default_hops,
        seeds is None ==> r.seeds == 10,
        fanout is None ==> r.fanout == 10,
{
    let h = read_setting(hops, default_hops);
    let s = read_setting(seeds, 10);
    let f = read_setting(fanout, 10);
    WalkLimits {
        hops: if h > 3 {
            3
        } else {
            h
        },
        seeds: if s < 1 {
            1
        } else {
            s
        },
        fanout: if f < 1 {
            1
        } else {
            f
        },
    }
}

/// A relation of a memory, as it was found.
#[derive(Debug)]
pub struct Neighbor {
    pub id: String,
    pub relation: String,
    pub content: String,
    /// The number of the row, by which its weight is found again.
    pub row: usize,
}

/// A memory that the walk came to.
#[derive(Debug)]
pub struct Found {
    pub id: String,
    pub content: String,
    pub source: String,
    pub hop: u32,
    pub row: usize,
}

pub struct FoundView {
    pub id: Seq<char>,
    pub content: Seq<char>,
    pub source: Seq<char>,
    pub hop: u32,
    pub row: usize,
}

impl Found {
    pub open spec fn view(&self) -> FoundView {
        FoundView {
            id: self.id@,
            content: self.content@,
            source: self.source@,
            hop: self.hop,
            row: self.row,
        }
    }
}

pub open spec fn found_views(v: Seq<Found>) -> Seq<FoundView> {
    Seq::new(v.len(), |i: int| v[i]@)
}

/// The walk along the relations.
#[derive(Debug)]
pub struct Walk {
    /// The hop that is being taken, from 1 on.
    pub hop: u32,
    pub max_hops: u32,
    /// All memories that are known.
    pub seen: Vec<String>,
    /// Those that the hop starts from.
    pub frontier: Vec<String>,
    /// Those that the next one starts from.
    pub next: Vec<String>,
    pub found: Vec<Found>,
}

pub struct WalkView {
    pub hop: u32,
    pub max_hops: u32,
    pub seen: Seq<Seq<char>>,
    pub frontier: Seq<Seq<char>>,
    pub next: Seq<Seq<char>>,
    pub found: Seq<FoundView>,
}

impl Walk {
    pub open spec fn view(&self) -> WalkView {
        WalkView {
            hop: self.hop,
            max_hops: self.max_hops,
            seen: text::texts(self.seen@),
            frontier: text::texts(self.frontier@),
            next: text::texts(self.next@),
            found: found_views(self.found@),
        }
    }
}

/// The walk with one more row: a memory that is new is found, and the next hop
/// starts from it too.
pub open spec fn reached(w: WalkView, n: Neighbor) -> WalkView {
    if text::listed(w.seen, n.id@) {
        w
    } else {
        WalkView {
            seen: w.seen.push(n.id@),
            next: w.next.push(n.id@),
            found: w.found.push(
                FoundView {
                    id: n.id@,
                    content: n.content@,
                    source: "graph_expand_h"@ + text::dec(w.hop as nat) + "_"@ + n.relation@,
                    hop: w.hop,
                    row: n.row,
                },
            ),
            ..w
        }
    }
}

/// The walk with the first `n` of the rows.
pub open spec fn reached_all(w: WalkView, rows: Seq<Neighbor>, n: int) -> WalkView
    decreases n,
{
    if n <= 0 {
        w
    } else {
        reached(reached_all(w, rows, n - 1), rows[n - 1])
    }
}

/// The walk does not go on: the last hop has been taken, or nothing is left to
/// start from.
pub open spec fn is_over(w: WalkView) -> bool {
    w.hop > w.max_hops || w.frontier.len() == 0
}

/// Begins a walk from the best of the memories: none of these is found again.
pub fn graph_expand(ids: &Vec<String>, limits: WalkLimits) -> (w: Walk)
    ensures
        w@.hop == 1,
        w@.max_hops == limits.hops,
        w@.seen == text::texts(ids@),
        w@.frontier == (if ids@.len() <= limits.seeds {
            text::texts(ids@)
        } else {
            text::texts(ids@).take(limits.seeds as int)
        }),
        w@.next.len() == 0,
        w@.found.len() == 0,
{
    let seen = copy_texts(ids, ids.len());
    let n: usize = if ids.len() <= limits.seeds as usize {
        ids.len()
    } else {
        limits.seeds as usize
    };
    let frontier = copy_texts(ids, n);
    let w = Walk {
        hop: 1,
        max_hops: limits.hops,
        seen,
        frontier,
        next: Vec::new(),
        found: Vec::new(),
    };
    assert(w@.seen =~= text::texts(ids@));
    assert(text::texts(ids@).take(ids@.len() as int) =~= text::texts(ids@));
    w
}

fn copy_texts(l: &Vec<String>, n: usize) -> (r: Vec<String>)
    requires
        n <= l@.len(),
    ensures
        text::texts(r@) == text::texts(l@).take(n as int),
{
    let mut out: Vec<String> = Vec::new();
    let mut i: usize = 0;
    assert(text::texts(out@) =~= text::texts(l@).take(0));
    while i < n
        invariant
            i <= n <= l@.len(),
            text::texts(out@) == text::texts(l@).take(i as int),
        decreases n - i,
    {
        let t = l[i].clone();
        proof {
            text::lemma_texts_push(out@, t);
            assert(text::texts(l@).take(i + 1) =~= text::texts(l@).take(i as int).push(t@));
        }
        out.push(t);
        i += 1;
    }
    out
}

impl Walk {
    /// Tells whether the walk is over.
    pub fn over(&self) -> (r: bool)
        ensures
            r == is_over(self@),
    {
        assert(self@.frontier.len() == self.frontier@.len());
        self.hop > self.max_hops || self.frontier.len() == 0
    }

    /// Takes in the relations of a memory of the frontier, in their order.
    pub fn reach(&mut self, rows: &Vec<Neighbor>)
        ensures
            final(self)@ == reached_all(old(self)@, rows@, rows@.len() as int),
    {
        let ghost before = self@;
        let mut i: usize = 0;
        while i < rows.len()
            invariant
                i <= rows@.len(),
                self@ == reached_all(before, rows@, i as int),
            decreases rows@.len() - i,
        {
            if !text::is_listed(&self.seen, rows[i].id.as_str()) {
                let mut source = text::cat3(
                    "graph_expand_h",
                    text::decimal(self.hop as u64).as_str(),
                    "_",
                );
                source.append(rows[i].relation.as_str());
                let a = rows[i].id.clone();
                let b = rows[i].id.clone();
                let f = Found {
                    id: rows[i].id.clone(),
                    content: rows[i].content.clone(),
                    source,
                    hop: self.hop,
                    row: rows[i].row,
                };
                let ghost fv = f@;
                let ghost found0 = self.found@;
                proof {
                    text::lemma_texts_push(self.seen@, a);
                    text::lemma_texts_push(self.next@, b);
                }
                self.seen.push(a);
                self.next.push(b);
                self.found.push(f);
                assert(found_views(self.found@) =~= found_views(found0).push(fv));
            }
            i += 1;
        }
    }

    /// Ends a hop: the next one starts from what it found.
    pub fn end_hop(&mut self)
        requires
            old(self)@.hop <= old(self)@.max_hops,
            old(self)@.max_hops < u32::MAX,
        ensures
            final(self)@ == (WalkView {
                hop: (old(self)@.hop + 1) as u32,
                frontier: old(self)@.next,
                next: Seq::empty(),
                ..old(self)@
            }),
    {
        let mut fresh_next: Vec<String> = Vec::new();
        assert(text::texts(fresh_next@) =~= Seq::empty());
        std::mem::swap(&mut fresh_next, &mut self.next);
        self.frontier = fresh_next;
        self.hop = self.hop + 1;
    }
}

/// Nothing is found twice, and nothing that was known.
pub open spec fn walk_ok(w: WalkView, known: Seq<Seq<char>>) -> bool {
    &&& forall|i: int|
        0 <= i < w.found.len() ==> !text::listed(known, (#[trigger] w.found[i]).id) && text::listed(
            w.seen,
            w.found[i].id,
        )
    &&& forall|i: int, j: int|
        0 <= i < j < w.found.len() ==> (#[trigger] w.found[i]).id != (#[trigger] w.found[j]).id
    &&& forall|k: int| 0 <= k < known.len() ==> text::listed(w.seen, #[trigger] known[k])
    &&& forall|i: int| 0 <= i < w.found.len() ==> (#[trigger] w.found[i]).hop <= w.hop
}

proof fn lemma_listed_push(l: Seq<Seq<char>>, x: Seq<char>, s: Seq<char>)
    ensures
        text::listed(l.push(x), s) == (text::listed(l, s) || s == x),
{
    let p = l.push(x);
    if text::listed(l, s) {
        let k = choose|k: int| 0 <= k < l.len() && #[trigger] l[k] == s;
        assert(p[k] == s);
    }
    if s == x {
        assert(p[l.len() as int] == s);
    }
    if text::listed(p, s) {
        let k = choose|k: int| 0 <= k < p.len() && #[trigger] p[k] == s;
        if k < l.len() {
            assert(l[k] == s);
        }
    }
}

/// The walk finds each memory at most once, never one that it began with, and
/// notes the hop that led there.
pub proof fn law_walk_finds_each_once(w: WalkView, rows: Seq<Neighbor>, n: int, known: Seq<Seq<char>>)
    requires
        walk_ok(w, known),
        0 <= n <= rows.len(),
    ensures
        walk_ok(reached_all(w, rows, n), known),
    decreases n,
{
    if n > 0 {
        law_walk_finds_each_once(w, rows, n - 1, known);
        let v = reached_all(w, rows, n - 1);
        let x = rows[n - 1].id@;
        let r = reached(v, rows[n - 1]);
        lemma_reached_hop(w, rows, n - 1);
        if !text::listed(v.seen, x) {
            assert forall|i: int| 0 <= i < r.found.len() implies !text::listed(
                known,
                (#[trigger] r.found[i]).id,
            ) && text::listed(r.seen, r.found[i].id) by {
                lemma_listed_push(v.seen, x, r.found[i].id);
                if i < v.found.len() {
                    assert(r.found[i] == v.found[i]);
                } else if text::listed(known, x) {
                    let k = choose|k: int| 0 <= k < known.len() && #[trigger] known[k] == x;
                    assert(text::listed(v.seen, known[k]));
                }
            }
            assert forall|i: int, j: int| 0 <= i < j < r.found.len() implies (
            #[trigger] r.found[i]).id != (#[trigger] r.found[j]).id by {
                assert(r.found[i] == v.found[i]);
                if j < v.found.len() {
                    assert(r.found[j] == v.found[j]);
                }
            }
            assert forall|k: int| 0 <= k < known.len() implies text::listed(
                r.seen,
                #[trigger] known[k],
            ) by {
                lemma_listed_push(v.seen, x, known[k]);
            }
            assert forall|i: int| 0 <= i < r.found.len() implies (#[trigger] r.found[i]).hop
                <= r.hop by {
                if i < v.found.len() {
                    assert(r.found[i] == v.found[i]);
                }
            }
        }
    }
}

proof fn lemma_reached_hop(w: WalkView, rows: Seq<Neighbor>, n: int)
    ensures
        reached_all(w, rows, n).hop == w.hop,
    decreases n,
{
    if n > 0 {
        lemma_reached_hop(w, rows, n - 1);
    }
}

/// A memory has a share of a hit: so much of the list `l` stands for that.
pub open spec fn has_share(l: Seq<FusedView>, id: Seq<char>, share: ShareView) -> bool {
    exists|i: int| 0 <= i < l.len() && (#[trigger] l[i]).memory_id == id && l[i].shares.contains(share)
}

proof fn lemma_taken_in_shares(l: Seq<FusedView>, h: SignalView, signal: int, rank: int)
    ensures
        has_share(
            taken_in(l, h, signal, rank),
            h.memory_id,
            ShareView { signal, rank, channel: channel(h.source) },
        ),
        forall|id: Seq<char>, share: ShareView|
            has_share(l, id, share) ==> #[trigger] has_share(taken_in(l, h, signal, rank), id, share),
        l.len() <= taken_in(l, h, signal, rank).len(),
        forall|i: int|
            0 <= i < l.len() ==> (#[trigger] taken_in(l, h, signal, rank)[i]).memory_id
                == l[i].memory_id && taken_in(l, h, signal, rank)[i].content == l[i].content
                && taken_in(l, h, signal, rank)[i].source == l[i].source,
{
    lemma_position(l, h.memory_id, 0);
    let r = taken_in(l, h, signal, rank);
    let share = ShareView { signal, rank, channel: channel(h.source) };
    let k = match position(l, h.memory_id, 0) {
        Some(k) => k,
        None => l.len() as int,
    };
    assert(r[k].shares.last() == share);
    assert(r[k].shares[r[k].shares.len() - 1] == share);
    assert(r[k].memory_id == h.memory_id && r[k].shares.contains(share));
    assert forall|id: Seq<char>, x: ShareView| has_share(l, id, x) implies #[trigger] has_share(r, id, x) by {
        let i = choose|i: int|
            0 <= i < l.len() && (#[trigger] l[i]).memory_id == id && l[i].shares.contains(x);
        let m = choose|m: int| 0 <= m < l[i].shares.len() && l[i].shares[m] == x;
        assert(r[i].shares[m] == x);
        assert(r[i].memory_id == id);
    }
}

proof fn lemma_signal_shares(l: Seq<FusedView>, hits: Seq<SignalView>, signal: int, n: int)
    requires
        0 <= n <= hits.len(),
    ensures
        forall|k: int|
            0 <= k < n ==> has_share(
                with_signal(l, hits, signal, n),
                (#[trigger] hits[k]).memory_id,
                ShareView { signal, rank: k, channel: channel(hits[k].source) },
            ),
        forall|id: Seq<char>, share: ShareView|
            has_share(l, id, share) ==> #[trigger] has_share(with_signal(l, hits, signal, n), id, share),
    decreases n,
{
    if n > 0 {
        lemma_signal_shares(l, hits, signal, n - 1);
        lemma_taken_in_shares(with_signal(l, hits, signal, n - 1), hits[n - 1], signal, n - 1);
    }
}

/// Each hit of each signal adds its share to the memory that it names, with the rank that
/// it has there and the channel of its source.
pub proof fn law_each_hit_adds_its_share(signals: Seq<Vec<SignalResult>>, n: int, signal: int, rank: int)
    requires
        0 <= signal < n <= signals.len(),
        0 <= rank < signals[signal]@.len(),
    ensures
        has_share(
            fused(signals, n),
            signals[signal]@[rank].memory_id@,
            ShareView { signal, rank, channel: channel(signals[signal]@[rank].source@) },
        ),
    decreases n,
{
    let hits = signal_views(signals[n - 1]@);
    lemma_signal_shares(fused(signals, n - 1), hits, n - 1, hits.len() as int);
    if signal < n - 1 {
        law_each_hit_adds_its_share(signals, n - 1, signal, rank);
    } else {
        assert(hits[rank].memory_id == signals[signal]@[rank].memory_id@);
    }
}

/// A hit of a signal.
pub open spec fn hit_at(signals: Seq<Vec<SignalResult>>, n: int, g: int, k: int) -> bool {
    0 <= g < n && g < signals.len() && 0 <= k < signals[g]@.len()
}

/// What is known of a fused memory rests on hits: its text and its source are those of one
/// of its hits, each of its shares is that of one, and the two scores are the best that a
/// hit of their channel has.
pub open spec fn rests_on_hits(signals: Seq<Vec<SignalResult>>, n: int, f: FusedView) -> bool {
    &&& exists|g: int, k: int|
        #[trigger] hit_at(signals, n, g, k) && signals[g]@[k].memory_id@ == f.memory_id
            && signals[g]@[k].content@ == f.content && signals[g]@[k].source@ == f.source
    &&& forall|m: int|
        0 <= m < f.shares.len() ==> {
            let x = #[trigger] f.shares[m];
            hit_at(signals, n, x.signal, x.rank) && signals[x.signal]@[x.rank].memory_id@ == f.memory_id
                && x.channel == channel(signals[x.signal]@[x.rank].source@)
        }
    &&& f.semantic matches Some(b) ==> exists|m: int|
        0 <= m < f.shares.len() && (#[trigger] f.shares[m]).channel == "semantic"@
            && signals[f.shares[m].signal]@[f.shares[m].rank].score == b
    &&& f.keyword matches Some(b) ==> exists|m: int|
        0 <= m < f.shares.len() && (#[trigger] f.shares[m]).channel == "keyword"@
            && signals[f.shares[m].signal]@[f.shares[m].rank].score == b
    &&& forall|m: int|
        0 <= m < f.shares.len() && (#[trigger] f.shares[m]).channel == "semantic"@ ==> (f.semantic matches Some(
            b,
        ) && signals[f.shares[m].signal]@[f.shares[m].rank].score <= b)
    &&& forall|m: int|
        0 <= m < f.shares.len() && (#[trigger] f.shares[m]).channel == "keyword"@ ==> (f.keyword matches Some(
            b,
        ) && signals[f.shares[m].signal]@[f.shares[m].rank].score >= b)
}

proof fn lemma_grows(signals: Seq<Vec<SignalResult>>, n: int, f: FusedView)
    requires
        rests_on_hits(signals, n, f),
    ensures
        rests_on_hits(signals, n + 1, f),
{
    let (g, k) = choose|g: int, k: int|
        #[trigger] hit_at(signals, n, g, k) && signals[g]@[k].memory_id@ == f.memory_id
            && signals[g]@[k].content@ == f.content && signals[g]@[k].source@ == f.source;
    assert(hit_at(signals, n + 1, g, k));
}

proof fn lemma_joined_rests(
    signals: Seq<Vec<SignalResult>>,
    n: int,
    f: FusedView,
    g: int,
    k: int,
)
    requires
        hit_at(signals, n, g, k),
        signals[g]@[k].memory_id@ == f.memory_id,
        rests_on_hits(signals, n, f) || f == fresh(signals[g]@[k]@),
    ensures
        rests_on_hits(signals, n, joined(f, signals[g]@[k]@, g, k)),
{
    let h = signals[g]@[k]@;
    let r = joined(f, h, g, k);
    let c = channel(h.source);
    reveal_strlit("semantic");
    reveal_strlit("keyword");
    assert("semantic"@.len() != "keyword"@.len());
    if f == fresh(h) {
        assert(hit_at(signals, n, g, k));
    }
    assert forall|m: int| 0 <= m < r.shares.len() implies {
        let x = #[trigger] r.shares[m];
        hit_at(signals, n, x.signal, x.rank) && signals[x.signal]@[x.rank].memory_id@ == r.memory_id
            && x.channel == channel(signals[x.signal]@[x.rank].source@)
    } by {
        if m < f.shares.len() {
            assert(r.shares[m] == f.shares[m]);
        }
    }
    let last = f.shares.len() as int;
    assert(r.shares[last].channel == c);
    if r.semantic is Some {
        if c == "semantic"@ && r.semantic == Some(h.score) {
            assert(r.shares[last].channel == "semantic"@);
        } else {
            let m = choose|m: int|
                0 <= m < f.shares.len() && (#[trigger] f.shares[m]).channel == "semantic"@
                    && signals[f.shares[m].signal]@[f.shares[m].rank].score == r.semantic->0;
            assert(r.shares[m] == f.shares[m]);
        }
    }
    if r.keyword is Some {
        if c == "keyword"@ && r.keyword == Some(h.score) {
            assert(r.shares[last].channel == "keyword"@);
        } else {
            let m = choose|m: int|
                0 <= m < f.shares.len() && (#[trigger] f.shares[m]).channel == "keyword"@
                    && signals[f.shares[m].signal]@[f.shares[m].rank].score == r.keyword->0;
            assert(r.shares[m] == f.shares[m]);
        }
    }
    assert forall|m: int|
        0 <= m < r.shares.len() && (#[trigger] r.shares[m]).channel == "semantic"@ implies (r.semantic matches Some(
        b,
    ) && signals[r.shares[m].signal]@[r.shares[m].rank].score <= b) by {
        if m < f.shares.len() {
            assert(r.shares[m] == f.shares[m]);
        }
    }
    assert forall|m: int|
        0 <= m < r.shares.len() && (#[trigger] r.shares[m]).channel == "keyword"@ implies (r.keyword matches Some(
        b,
    ) && signals[r.shares[m].signal]@[r.shares[m].rank].score >= b) by {
        if m < f.shares.len() {
            assert(r.shares[m] == f.shares[m]);
        }
    }
}

proof fn lemma_signal_rests(signals: Seq<Vec<SignalResult>>, n: int, k: int)
    requires
        0 < n <= signals.len(),
        0 <= k <= signals[n - 1]@.len(),
        forall|i: int|
            0 <= i < fused(signals, n - 1).len() ==> rests_on_hits(
                signals,
                n - 1,
                #[trigger] fused(signals, n - 1)[i],
            ),
    ensures
        ({
            let hits = signal_views(signals[n - 1]@);
            let l = with_signal(fused(signals, n - 1), hits, n - 1, k);
            forall|i: int| 0 <= i < l.len() ==> rests_on_hits(signals, n, #[trigger] l[i])
        }),
    decreases k,
{
    let hits = signal_views(signals[n - 1]@);
    let before = fused(signals, n - 1);
    let l = with_signal(before, hits, n - 1, k);
    if k == 0 {
        assert forall|i: int| 0 <= i < l.len() implies rests_on_hits(signals, n, #[trigger] l[i]) by {
            lemma_grows(signals, n - 1, before[i]);
        }
    } else {
        lemma_signal_rests(signals, n, k - 1);
        let p = with_signal(before, hits, n - 1, k - 1);
        let h = hits[k - 1];
        assert(h == signals[n - 1]@[k - 1]@);
        lemma_position(p, h.memory_id, 0);
        assert(hit_at(signals, n, n - 1, k - 1));
        assert forall|i: int| 0 <= i < l.len() implies rests_on_hits(signals, n, #[trigger] l[i]) by {
            match position(p, h.memory_id, 0) {
                Some(m) => {
                    if i == m {
                        lemma_joined_rests(signals, n, p[m], n - 1, k - 1);
                    } else {
                        assert(l[i] == p[i]);
                    }
                },
                None => {
                    if i < p.len() {
                        assert(l[i] == p[i]);
                    } else {
                        lemma_joined_rests(signals, n, fresh(h), n - 1, k - 1);
                    }
                },
            }
        }
    }
}

/// Nothing is made up: all that is known of a fused memory comes from hits that name it.
pub proof fn law_fusion_makes_nothing_up(signals: Seq<Vec<SignalResult>>, n: int, i: int)
    requires
        0 <= n <= signals.len(),
        0 <= i < fused(signals, n).len(),
    ensures
        rests_on_hits(signals, n, fused(signals, n)[i]),
    decreases n,
{
    if n > 0 {
        assert forall|m: int| 0 <= m < fused(signals, n - 1).len() implies rests_on_hits(
            signals,
            n - 1,
            #[trigger] fused(signals, n - 1)[m],
        ) by {
            law_fusion_makes_nothing_up(signals, n - 1, m);
        }
        lemma_signal_rests(signals, n, signals[n - 1]@.len() as int);
    }
}

/// The channel of a source is the word for it that stands there.
pub proof fn law_channels_are_told_by_their_word(before: Seq<char>, after: Seq<char>)
    ensures
        channel(before + "keyword"@ + after) == "keyword"@,
        channel(before + "like"@ + after) == "keyword"@,
        ({
            let s = before + "semantic"@ + after;
            !text::occurs(s, "keyword"@) && !text::occurs(s, "like"@) ==> channel(s) == "semantic"@
        }),
        ({
            let s = before + "temporal"@ + after;
            !text::occurs(s, "keyword"@) && !text::occurs(s, "like"@) && !text::occurs(s, "semantic"@)
                ==> channel(s) == "temporal"@
        }),
        seq!["keyword"@, "semantic"@, "temporal"@, "importance"@, "category"@, before].contains(
            channel(before),
        ),
        channel(before) != before ==> text::occurs(before, channel(before)) || text::occurs(
            before,
            "like"@,
        ),
{
    lemma_occurs(before, "keyword"@, after);
    lemma_occurs(before, "like"@, after);
    lemma_occurs(before, "semantic"@, after);
    lemma_occurs(before, "temporal"@, after);
    let l = seq!["keyword"@, "semantic"@, "temporal"@, "importance"@, "category"@, before];
    assert(l[0] == "keyword"@ && l[1] == "semantic"@ && l[2] == "temporal"@ && l[3] == "importance"@
        && l[4] == "category"@ && l[5] == before);
}

proof fn lemma_occurs(before: Seq<char>, w: Seq<char>, after: Seq<char>)
    ensures
        text::occurs(before + w + after, w),
{
    let s = before + w + after;
    assert(s.subrange(before.len() as int, before.len() as int + w.len()) =~= w);
    assert(text::stands_at(s, w, before.len() as int));
}

/// The channel that adds most: none adds more, and those behind it add less.
pub proof fn law_primary_channel_adds_most(keys: Seq<i64>, n: int)
    requires
        0 <= n <= keys.len(),
    ensures
        match last_largest(keys, n) {
            Some(k) => 0 <= k < n && (forall|i: int| 0 <= i < n ==> #[trigger] keys[i] <= keys[k])
                && forall|i: int| k < i < n ==> #[trigger] keys[i] < keys[k],
            None => n == 0,
        },
    decreases n,
{
    if n > 0 {
        law_primary_channel_adds_most(keys, n - 1);
    }
}

/// A hop of the walk reaches every neighbour: each is known afterwards, and one that was not
/// known before is found, once, with its own text, on this hop, and is where the next hop
/// starts.
pub proof fn law_walk_reaches_every_neighbour(w: WalkView, rows: Seq<Neighbor>, n: int, k: int)
    requires
        0 <= k < n <= rows.len(),
    ensures
        reached_all(w, rows, n).seen.contains(rows[k].id@),
        !w.seen.contains(rows[k].id@) ==> reached_all(w, rows, n).next.contains(rows[k].id@) && exists|
            i: int,
            m: int,
        |
            0 <= i < reached_all(w, rows, n).found.len() && 0 <= m < n && (#[trigger] reached_all(
                w,
                rows,
                n,
            ).found[i]).id == rows[k].id@ && (#[trigger] rows[m]).id@ == rows[k].id@ && reached_all(
                w,
                rows,
                n,
            ).found[i].content == rows[m].content@ && reached_all(w, rows, n).found[i].hop == w.hop
                && reached_all(w, rows, n).found[i].row == rows[m].row,
    decreases n,
{
    lemma_reached_keeps(w, rows, n);
    let p = reached_all(w, rows, n - 1);
    let r = reached_all(w, rows, n);
    lemma_reached_keeps(w, rows, n - 1);
    if k < n - 1 {
        law_walk_reaches_every_neighbour(w, rows, n - 1, k);
        let id = rows[k].id@;
        let s = choose|s: int| 0 <= s < p.seen.len() && p.seen[s] == id;
        assert(r.seen[s] == id);
        if !w.seen.contains(id) {
            let x = choose|x: int| 0 <= x < p.next.len() && p.next[x] == id;
            assert(r.next[x] == id);
            let (i, m) = choose|i: int, m: int|
                0 <= i < p.found.len() && 0 <= m < n - 1 && (#[trigger] p.found[i]).id == id
                    && (#[trigger] rows[m]).id@ == id && p.found[i].content == rows[m].content@
                    && p.found[i].hop == w.hop && p.found[i].row == rows[m].row;
            assert(r.found[i] == p.found[i]);
            assert(rows[m].id@ == id);
        }
    } else {
        let id = rows[n - 1].id@;
        if text::listed(p.seen, id) {
            let s = choose|s: int| 0 <= s < p.seen.len() && p.seen[s] == id;
            assert(r.seen[s] == id);
            if !w.seen.contains(id) {
                lemma_seen_comes_from(w, rows, n - 1, s);
                let m = choose|m: int| 0 <= m < n - 1 && (#[trigger] rows[m]).id@ == id;
                law_walk_reaches_every_neighbour(w, rows, n - 1, m);
                let x = choose|x: int| 0 <= x < p.next.len() && p.next[x] == id;
                assert(r.next[x] == id);
                let (i, q) = choose|i: int, q: int|
                    0 <= i < p.found.len() && 0 <= q < n - 1 && (#[trigger] p.found[i]).id == id
                        && (#[trigger] rows[q]).id@ == id && p.found[i].content == rows[q].content@
                        && p.found[i].hop == w.hop && p.found[i].row == rows[q].row;
                assert(r.found[i] == p.found[i]);
                assert(rows[q].id@ == id);
            }
        } else {
            assert(r.seen.last() == id);
            assert(r.seen[r.seen.len() - 1] == id);
            assert(r.next[r.next.len() - 1] == id);
            let i = p.found.len() as int;
            assert(r.found[i].id == id && rows[n - 1].id@ == id);
        }
    }
}

proof fn lemma_reached_keeps(w: WalkView, rows: Seq<Neighbor>, n: int)
    requires
        0 <= n <= rows.len(),
    ensures
        reached_all(w, rows, n).hop == w.hop,
        w.seen.len() <= reached_all(w, rows, n).seen.len(),
        forall|i: int| 0 <= i < w.seen.len() ==> #[trigger] reached_all(w, rows, n).seen[i] == w.seen[i],
    decreases n,
{
    if n > 0 {
        lemma_reached_keeps(w, rows, n - 1);
    }
}

proof fn lemma_seen_comes_from(w: WalkView, rows: Seq<Neighbor>, n: int, s: int)
    requires
        0 <= n <= rows.len(),
        0 <= s < reached_all(w, rows, n).seen.len(),
    ensures
        w.seen.contains(reached_all(w, rows, n).seen[s]) || exists|m: int|
            0 <= m < n && (#[trigger] rows[m]).id@ == reached_all(w, rows, n).seen[s],
    decreases n,
{
    if n == 0 {
        assert(w.seen[s] == reached_all(w, rows, n).seen[s]);
    } else {
        let p = reached_all(w, rows, n - 1);
        let r = reached_all(w, rows, n);
        if s < p.seen.len() {
            assert(r.seen[s] == p.seen[s]);
            lemma_seen_comes_from(w, rows, n - 1, s);
        } else {
            assert(rows[n - 1].id@ == r.seen[s]);
        }
    }
}

/// A share comes before another: its signal does, or its hit in the same signal.
pub open spec fn comes_before(a: ShareView, b: ShareView) -> bool {
    a.signal < b.signal || (a.signal == b.signal && a.rank < b.rank)
}

/// The shares of a memory stand in the order of the hits, all of them before the hit that is
/// looked at next; the first gives the memory its text, and the memories stand in the order
/// of their first shares.
pub open spec fn in_hit_order(
    signals: Seq<Vec<SignalResult>>,
    l: Seq<FusedView>,
    signal: int,
    rank: int,
) -> bool {
    &&& forall|i: int|
        0 <= i < l.len() ==> (#[trigger] l[i]).shares.len() > 0 && first_gives_text(signals, l[i])
            && shares_in_order(l[i].shares, signal, rank)
    &&& forall|i: int, j: int|
        0 <= i < j < l.len() ==> comes_before((#[trigger] l[i]).shares[0], (#[trigger] l[j]).shares[0])
}

/// The first share of a memory is that of a hit with its text and its source.
pub open spec fn first_gives_text(signals: Seq<Vec<SignalResult>>, f: FusedView) -> bool {
    let x = f.shares[0];
    &&& 0 <= x.signal < signals.len() && 0 <= x.rank < signals[x.signal]@.len()
    &&& signals[x.signal]@[x.rank].memory_id@ == f.memory_id
    &&& signals[x.signal]@[x.rank].content@ == f.content
    &&& signals[x.signal]@[x.rank].source@ == f.source
}

/// Shares stand in the order of the hits, and all before one hit.
pub open spec fn shares_in_order(s: Seq<ShareView>, signal: int, rank: int) -> bool {
    &&& forall|m: int|
        0 <= m < s.len() ==> (#[trigger] s[m]).signal < signal || (s[m].signal == signal && s[m].rank < rank)
    &&& forall|a: int, b: int|
        0 <= a < b < s.len() ==> comes_before(#[trigger] s[a], #[trigger] s[b])
}

proof fn lemma_taken_in_order(
    signals: Seq<Vec<SignalResult>>,
    l: Seq<FusedView>,
    signal: int,
    rank: int,
)
    requires
        0 <= signal < signals.len(),
        0 <= rank < signals[signal]@.len(),
        in_hit_order(signals, l, signal, rank),
    ensures
        in_hit_order(signals, taken_in(l, signals[signal]@[rank]@, signal, rank), signal, rank + 1),
{
    let h = signals[signal]@[rank]@;
    let r = taken_in(l, h, signal, rank);
    lemma_position(l, h.memory_id, 0);
    let x = ShareView { signal, rank, channel: channel(h.source) };
    match position(l, h.memory_id, 0) {
        Some(p) => {
            let old = l[p].shares;
            let new = r[p].shares;
            assert(new =~= old.push(x));
            assert(new[0] == old[0]);
            assert(shares_in_order(new, signal, rank + 1)) by {
                assert forall|m: int| 0 <= m < new.len() implies (#[trigger] new[m]).signal < signal || (
                new[m].signal == signal && new[m].rank < rank + 1) by {
                    if m < old.len() {
                        assert(new[m] == old[m]);
                    }
                }
                assert forall|a: int, b: int| 0 <= a < b < new.len() implies comes_before(
                    #[trigger] new[a],
                    #[trigger] new[b],
                ) by {
                    assert(new[a] == old[a]);
                    if b < old.len() {
                        assert(new[b] == old[b]);
                    }
                }
            }
            assert forall|i: int| 0 <= i < r.len() implies (#[trigger] r[i]).shares.len() > 0
                && first_gives_text(signals, r[i]) && shares_in_order(r[i].shares, signal, rank + 1) by {
                if i != p {
                    assert(r[i] == l[i]);
                } else {
                    assert(first_gives_text(signals, l[p]));
                }
            }
            assert forall|i: int, j: int| 0 <= i < j < r.len() implies comes_before(
                (#[trigger] r[i]).shares[0],
                (#[trigger] r[j]).shares[0],
            ) by {
                assert(comes_before(l[i].shares[0], l[j].shares[0]));
            }
        },
        None => {
            let f = r[l.len() as int];
            assert(f.shares =~= seq![x]);
            assert(f.shares[0] == x);
            assert(first_gives_text(signals, f));
            assert forall|i: int| 0 <= i < r.len() implies (#[trigger] r[i]).shares.len() > 0
                && first_gives_text(signals, r[i]) && shares_in_order(r[i].shares, signal, rank + 1) by {
                if i < l.len() {
                    assert(r[i] == l[i]);
                }
            }
            assert forall|i: int, j: int| 0 <= i < j < r.len() implies comes_before(
                (#[trigger] r[i]).shares[0],
                (#[trigger] r[j]).shares[0],
            ) by {
                assert(r[i] == l[i]);
                if j < l.len() {
                    assert(r[j] == l[j]);
                } else {
                    assert(shares_in_order(l[i].shares, signal, rank));
                }
            }
        },
    }
}

proof fn lemma_signal_order(
    signals: Seq<Vec<SignalResult>>,
    l: Seq<FusedView>,
    signal: int,
    n: int,
)
    requires
        0 <= signal < signals.len(),
        0 <= n <= signals[signal]@.len(),
        in_hit_order(signals, l, signal, 0),
    ensures
        in_hit_order(signals, with_signal(l, signal_views(signals[signal]@), signal, n), signal, n),
    decreases n,
{
    if n > 0 {
        lemma_signal_order(signals, l, signal, n - 1);
        let hits = signal_views(signals[signal]@);
        lemma_taken_in_order(signals, with_signal(l, hits, signal, n - 1), signal, n - 1);
        assert(hits[n - 1] == signals[signal]@[n - 1]@);
    }
}

/// The first hit of a memory gives it its place, its text and its source: later hits add
/// their shares behind, and change none of the three.
pub proof fn law_first_hits_give_place_and_text(signals: Seq<Vec<SignalResult>>, n: int)
    requires
        0 <= n <= signals.len(),
    ensures
        in_hit_order(signals, fused(signals, n), n, 0),
    decreases n,
{
    if n > 0 {
        law_first_hits_give_place_and_text(signals, n - 1);
        let l = fused(signals, n - 1);
        let k = signals[n - 1]@.len() as int;
        lemma_signal_order(signals, l, n - 1, k);
        let r = fused(signals, n);
        assert forall|i: int| 0 <= i < r.len() implies (#[trigger] r[i]).shares.len() > 0
            && first_gives_text(signals, r[i]) && shares_in_order(r[i].shares, n, 0) by {
            assert(shares_in_order(r[i].shares, n - 1, k));
            let s = r[i].shares;
            assert forall|m: int| 0 <= m < s.len() implies (#[trigger] s[m]).signal < n || (s[m].signal
                == n && s[m].rank < 0) by {
                assert(s[m].signal < n - 1 || s[m].signal == n - 1);
            }
        }
    }
}

/// A setting counts as it is written, with or without blanks round it, and anything that is
/// no number stands for the usual value.
pub proof fn law_walk_settings_are_read(n: u32, default: nat)
    ensures
        setting(Some(text::dec(n as nat)), default) == n,
        setting(None, default) == default,
        setting(Some(Seq::empty()), default) == default,
{
    let d = text::dec(n as nat);
    text::law_decimal_is_read_back(n as nat, u32::MAX as nat);
    assert(text::is_digit(d[0]) && text::is_digit(d[d.len() - 1]));
    reveal_with_fuel(text::trimmed_start, 2);
    reveal_with_fuel(text::trimmed_end, 2);
    assert(text::trimmed(d) == d);
    assert(text::trimmed(Seq::empty()).len() == 0);
}

/// What a walk finds is named after its hop and the relation that led there.
pub proof fn law_finds_tell_how_they_were_reached(w: WalkView, n: Neighbor)
    ensures
        !w.seen.contains(n.id@) ==> {
            let f = reached(w, n).found;
            &&& f.len() == w.found.len() + 1
            &&& text::begins(f.last().source, "graph_expand_h"@ + text::dec(w.hop as nat) + "_"@)
            &&& text::ends(f.last().source, n.relation@)
            &&& f.last().id == n.id@ && f.last().content == n.content@ && f.last().row == n.row
        },
        w.seen.contains(n.id@) ==> reached(w, n) == w,
        is_over(w) <==> w.hop > w.max_hops || w.frontier.len() == 0,
{
    let a = "graph_expand_h"@ + text::dec(w.hop as nat) + "_"@;
    let s = a + n.relation@;
    assert(s.subrange(0, a.len() as int) =~= a);
    assert(s.subrange(s.len() - n.relation@.len(), s.len() as int) =~= n.relation@);
}

/// What is known of a hit is what its fields hold.
pub proof fn law_hits_hold_what_they_say(x: SignalResult)
    ensures
        x@.memory_id == x.memory_id@,
        x@.content == x.content@,
        x@.score == x.score,
        x@.source == x.source@,
{
}

/// What is known of a fused memory is what its fields hold, with its shares in their order.
pub proof fn law_fused_hold_what_they_say(x: FusedResult)
    ensures
        x@.memory_id == x.memory_id@,
        x@.content == x.content@,
        x@.source == x.source@,
        x@.semantic == x.semantic,
        x@.keyword == x.keyword,
        x@.shares.len() == x.shares@.len(),
        forall|i: int|
            0 <= i < x.shares@.len() ==> (#[trigger] x@.shares[i]).signal == x.shares@[i].signal
                && x@.shares[i].rank == x.shares@[i].rank && x@.shares[i].channel
                == x.shares@[i].channel@,
{
}

/// What is known of a find is what its fields hold.
pub proof fn law_finds_hold_what_they_say(x: Found)
    ensures
        x@.id == x.id@,
        x@.content == x.content@,
        x@.source == x.source@,
        x@.hop == x.hop,
        x@.row == x.row,
{
}

/// What is known of a walk is what its fields hold.
pub proof fn law_walks_hold_what_they_say(x: Walk)
    ensures
        x@.hop == x.hop,
        x@.max_hops == x.max_hops,
        x@.seen == text::texts(x.seen@),
        x@.frontier == text::texts(x.frontier@),
        x@.next == text::texts(x.next@),
        x@.found.len() == x.found@.len(),
        forall|i: int| 0 <= i < x.found@.len() ==> #[trigger] x@.found[i] == x.found@[i]@,
{
}

} // verus!
