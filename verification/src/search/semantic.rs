//! Searching by meaning: two indexes, one of contents and one of hypothetical
//! questions, whose hits are joined by the better score.
use vstd::prelude::*;
use crate::search::ranking;
use crate::search::rrf;
use crate::search::rrf::{SignalResult, SignalView};
use crate::table::Table;
use crate::text;

verus! {

/// A hit of an index. The score is a number in the order of the scores, 0 for
/// zero.
#[derive(Debug)]
pub struct RoadHit {
    pub id: String,
    pub score: i64,
    pub finite: bool,
}

/// The best score of a memory, and whether the index of questions gave it.
#[derive(Debug, Clone, Copy)]
pub struct Best {
    pub score: i64,
    pub hype: bool,
}

/// What a query that cannot be searched for comes to.
#[derive(Debug)]
pub enum QueryVector {
    /// It has no direction: nothing is found.
    Degenerate,
    /// It has the wrong length.
    Wrong(String),
    Good,
}

/// Looks at the vector of a query: one without direction finds nothing, one of the
/// wrong length is an error.
pub fn check_vector(degenerate: bool, len: usize, dim: usize) -> (r: QueryVector)
    ensures
        degenerate ==> r is Degenerate,
        !degenerate && len != dim ==> (r matches QueryVector::Wrong(e) && e@
            == "semantic_search: query vector dim "@ + text::dec(len as nat) + " != HNSW DIM "@
            + text::dec(dim as nat)),
        !degenerate && len == dim ==> r is Good,
{
    if degenerate {
        QueryVector::Degenerate
    } else if len != dim {
        let mut e = text::cat3(
            "semantic_search: query vector dim ",
            text::decimal(len as u64).as_str(),
            " != HNSW DIM ",
        );
        e.append(text::decimal(dim as u64).as_str());
        QueryVector::Wrong(e)
    } else {
        QueryVector::Good
    }
}

/// How many hits are asked of an index with `cap` vectors: many more than wanted,
/// since those of other namespaces are left out later.
pub open spec fn asked_hits(limit: nat, cap: nat) -> nat {
    let want: nat = if limit * 20 > 2048 {
        limit * 20
    } else {
        2048
    };
    let most: nat = if cap > 1 {
        cap
    } else {
        1
    };
    if want < most {
        want
    } else {
        most
    }
}

/// How many hits are asked of an index.
pub fn overfetch(limit: u32, cap: usize) -> (r: usize)
    ensures
        r == asked_hits(limit as nat, cap as nat),
{
    let most: usize = if cap > 1 {
        cap
    } else {
        1
    };
    let want: u64 = if limit as u64 * 20 > 2048 {
        limit as u64 * 20
    } else {
        2048
    };
    if want < most as u64 {
        want as usize
    } else {
        most
    }
}

/// The best scores with one more hit: only scores above zero count, and only a
/// better one replaces another.
pub open spec fn improved(m: Map<Seq<char>, Best>, h: RoadHit, hype: bool) -> Map<Seq<char>, Best> {
    if !h.finite || h.score <= 0 || (m.contains_key(h.id@) && m[h.id@].score >= h.score) {
        m
    } else {
        m.insert(h.id@, Best { score: h.score, hype })
    }
}

/// The best scores with the first `n` hits of an index.
pub open spec fn with_road(m: Map<Seq<char>, Best>, hits: Seq<RoadHit>, hype: bool, n: int) -> Map<
    Seq<char>,
    Best,
>
    decreases n,
{
    if n <= 0 {
        m
    } else {
        improved(with_road(m, hits, hype, n - 1), hits[n - 1], hype)
    }
}

/// Takes in the hits of an index.
pub fn search_and_merge(best: &mut Table<Best>, hits: &Vec<RoadHit>, hype: bool)
    requires
        old(best).wf(),
    ensures
        final(best).wf(),
        final(best)@ == with_road(old(best)@, hits@, hype, hits@.len() as int),
{
    let ghost before = best@;
    let mut i: usize = 0;
    while i < hits.len()
        invariant
            i <= hits@.len(),
            best.wf(),
            best@ == with_road(before, hits@, hype, i as int),
        decreases hits@.len() - i,
    {
        let h = &hits[i];
        if h.finite && h.score > 0 {
            let better = match best.get(h.id.as_str()) {
                Some(b) => h.score > b.score,
                None => true,
            };
            if better {
                best.put(h.id.as_str(), Best { score: h.score, hype });
            }
        }
        i += 1;
    }
}

/// All scores that are held are above zero.
pub open spec fn all_positive(m: Map<Seq<char>, Best>) -> bool {
    forall|k: Seq<char>| #[trigger] m.contains_key(k) ==> m[k].score > 0
}

/// Joining two indexes keeps the better score of each memory: none that was held
/// gets worse, none at or below zero is held, and what is held is as good as each
/// hit.
pub proof fn law_best_score_wins(m: Map<Seq<char>, Best>, hits: Seq<RoadHit>, hype: bool, n: int)
    requires
        0 <= n <= hits.len(),
        all_positive(m),
    ensures
        all_positive(with_road(m, hits, hype, n)),
        forall|k: Seq<char>| #[trigger]
            m.contains_key(k) ==> with_road(m, hits, hype, n).contains_key(k) && with_road(
                m,
                hits,
                hype,
                n,
            )[k].score >= m[k].score,
        forall|i: int|
            0 <= i < n && (#[trigger] hits[i]).finite && hits[i].score > 0 ==> with_road(
                m,
                hits,
                hype,
                n,
            ).contains_key(hits[i].id@) && with_road(m, hits, hype, n)[hits[i].id@].score
                >= hits[i].score,
    decreases n,
{
    if n > 0 {
        law_best_score_wins(m, hits, hype, n - 1);
    }
}

/// What the indexes came to together.
#[derive(Debug)]
pub enum Roads {
    /// None could be searched.
    Failed(String),
    /// Nothing was found. One that could not be searched is worth a notice.
    Nothing { degraded: bool },
    /// Something was found.
    Hits,
}

/// Tells what the indexes came to: `ok` of them were searched, `failed` could not
/// be.
pub fn roads_taken(ok: usize, failed: usize, nothing: bool) -> (r: Roads)
    ensures
        ok == 0 && failed > 0 ==> (r matches Roads::Failed(e) && e@
            == "semantic_search: all HNSW roads failed (poisoned/corrupted index)"@),
        !(ok == 0 && failed > 0) && nothing ==> (r matches Roads::Nothing { degraded } && degraded
            == (failed > 0)),
        !(ok == 0 && failed > 0) && !nothing ==> r is Hits,
{
    if ok == 0 && failed > 0 {
        Roads::Failed(
            "semantic_search: all HNSW roads failed (poisoned/corrupted index)".to_string(),
        )
    } else if nothing {
        Roads::Nothing { degraded: failed > 0 }
    } else {
        Roads::Hits
    }
}

/// How long the same notice is not repeated, in seconds.
pub const COOLDOWN_SECS: u64 = 60;

/// Tells whether a notice is due again.
pub fn notice_due(now: u64, last: u64) -> (r: bool)
    ensures
        r == (now >= last && now - last >= COOLDOWN_SECS),
{
    now >= last && now - last >= COOLDOWN_SECS
}

/// How many memories are asked for at once.
pub const BATCH: usize = 500;

/// What asking for a batch of memories came to.
#[derive(Debug, Clone, Copy, PartialEq, Eq, Structural)]
pub struct Batch {
    pub requested: usize,
    /// Rows that could be read.
    pub got: usize,
    /// Rows that could not.
    pub row_errors: usize,
    /// The question itself failed.
    pub broken: bool,
}

/// A batch failed as a whole: the question did, or every single row of it could
/// not be read.
pub open spec fn batch_failed(b: Batch) -> bool {
    b.broken || (b.got == 0 && b.row_errors > 0 && b.row_errors == b.requested)
}

/// The memories of a batch that are counted as not there any more: all of it where no
/// row came, and the missing ones where some rows could be read and others not.
pub open spec fn batch_stale(b: Batch) -> int {
    if b.broken {
        0
    } else if b.got == 0 && b.row_errors == 0 {
        b.requested as int
    } else if b.got > 0 && b.row_errors > 0 {
        b.requested - b.got - b.row_errors
    } else {
        0
    }
}

fn failed_as_a_whole(b: Batch) -> (r: bool)
    ensures
        r == batch_failed(b),
{
    b.broken || (b.got == 0 && b.row_errors > 0 && b.row_errors == b.requested)
}

/// Tells whether a batch failed as a whole, and how many of its memories are counted as
/// not there any more.
pub fn classify_batch(b: Batch) -> (r: (bool, usize))
    requires
        b.got + b.row_errors <= b.requested,
    ensures
        r.0 == batch_failed(b),
        r.1 == batch_stale(b),
{
    let failed = failed_as_a_whole(b);
    let stale: usize = if b.broken {
        0
    } else if b.got == 0 && b.row_errors == 0 {
        b.requested
    } else if b.got > 0 && b.row_errors > 0 {
        b.requested - b.got - b.row_errors
    } else {
        0
    };
    (failed, stale)
}

/// How many of the first `n` batches failed as a whole.
pub open spec fn failures_in(batches: Seq<Batch>, n: int) -> nat
    decreases n,
{
    if n <= 0 {
        0
    } else {
        failures_in(batches, n - 1) + (if batch_failed(batches[n - 1]) {
            1nat
        } else {
            0nat
        })
    }
}

/// What asking for all batches came to: one that failed as a whole fails all.
pub fn fetch_memories_batch(batches: &Vec<Batch>) -> (r: Result<(), String>)
    ensures
        match r {
            Ok(()) => failures_in(batches@, batches@.len() as int) == 0,
            Err(e) => failures_in(batches@, batches@.len() as int) > 0 && e@
                == "semantic_search: memories fetch hard-failed for "@ + text::dec(
                failures_in(batches@, batches@.len() as int),
            ) + " of "@ + text::dec(batches@.len()) + " batches"@,
        },
{
    let mut failed: usize = 0;
    let mut i: usize = 0;
    while i < batches.len()
        invariant
            i <= batches@.len(),
            failed <= i,
            failed == failures_in(batches@, i as int),
        decreases batches@.len() - i,
    {
        if failed_as_a_whole(batches[i]) {
            failed += 1;
        }
        i += 1;
    }
    if failed > 0 {
        Err(
            text::cat5(
                "semantic_search: memories fetch hard-failed for ",
                text::decimal(failed as u64).as_str(),
                " of ",
                text::decimal(batches.len() as u64).as_str(),
                " batches",
            ),
        )
    } else {
        Ok(())
    }
}

/// A memory that is missing is not a failure: a batch fails only where nothing of
/// it could be read although all of it was there, or where it could not be asked
/// for.
pub proof fn law_missing_memories_are_no_failure(b: Batch)
    requires
        b.got + b.row_errors < b.requested,
        !b.broken,
    ensures
        !batch_failed(b),
{
}

/// `ids` in pieces of at most `BATCH`, one behind the other.
pub open spec fn pieces_of(ids: Seq<Seq<char>>) -> Seq<Seq<Seq<char>>>
    decreases ids.len(),
{
    if ids.len() == 0 {
        Seq::empty()
    } else if ids.len() <= BATCH {
        seq![ids]
    } else {
        seq![ids.take(BATCH as int)] + pieces_of(ids.skip(BATCH as int))
    }
}

/// Pieces one behind the other.
pub open spec fn together(pieces: Seq<Seq<Seq<char>>>) -> Seq<Seq<char>>
    decreases pieces.len(),
{
    if pieces.len() == 0 {
        Seq::empty()
    } else {
        pieces[0] + together(pieces.skip(1))
    }
}

/// Every id is asked for, and in its order: the pieces make up the whole, none of them
/// is empty, and none is larger than a batch.
pub proof fn law_all_ids_are_asked_for(ids: Seq<Seq<char>>)
    ensures
        together(pieces_of(ids)) == ids,
        forall|k: int|
            0 <= k < pieces_of(ids).len() ==> 0 < (#[trigger] pieces_of(ids)[k]).len() <= BATCH,
    decreases ids.len(),
{
    let p = pieces_of(ids);
    if ids.len() == 0 {
    } else if ids.len() <= BATCH {
        assert(p.skip(1) =~= Seq::empty());
        assert(p[0] + together(p.skip(1)) =~= ids);
    } else {
        let rest = ids.skip(BATCH as int);
        law_all_ids_are_asked_for(rest);
        assert(p.skip(1) =~= pieces_of(rest));
        assert(ids.take(BATCH as int) + rest =~= ids);
        assert forall|k: int| 0 <= k < p.len() implies 0 < (#[trigger] p[k]).len() <= BATCH by {
            if k > 0 {
                assert(p[k] == pieces_of(rest)[k - 1]);
            }
        }
    }
}

/// `n` places for arguments.
pub open spec fn places(n: nat) -> Seq<Seq<char>> {
    Seq::new(n, |i: int| "?"@)
}

/// The question for `n` memories by their ids, in one namespace.
pub open spec fn fetch_sql(n: nat) -> Seq<char> {
    "SELECT id, namespace, content FROM memories WHERE id IN ("@ + text::joined(places(n), ","@)
        + ") AND namespace = ?"@
}

/// A question for a piece of the memories, with its arguments.
#[derive(Debug)]
pub struct Fetch {
    pub sql: String,
    /// The ids, and behind them the namespace.
    pub args: Vec<String>,
}

/// This is the question for some ids in a namespace.
pub open spec fn asks(f: Fetch, ids: Seq<Seq<char>>, namespace: Seq<char>) -> bool {
    f.sql@ == fetch_sql(ids.len()) && text::texts(f.args@) == ids.push(namespace)
}

fn ask_for(ids: &Vec<String>, from: usize, to: usize, namespace: &str) -> (f: Fetch)
    requires
        from <= to <= ids@.len(),
    ensures
        asks(f, text::texts(ids@).subrange(from as int, to as int), namespace@),
{
    let ghost piece = text::texts(ids@).subrange(from as int, to as int);
    let mut marks: Vec<String> = Vec::new();
    let mut args: Vec<String> = Vec::new();
    let mut i: usize = from;
    while i < to
        invariant
            from <= i <= to <= ids@.len(),
            piece == text::texts(ids@).subrange(from as int, to as int),
            marks@.len() == i - from,
            args@.len() == i - from,
            forall|k: int| 0 <= k < i - from ==> (#[trigger] marks@[k])@ == "?"@,
            forall|k: int| 0 <= k < i - from ==> (#[trigger] args@[k])@ == piece[k],
        decreases to - i,
    {
        marks.push("?".to_string());
        args.push(ids[i].clone());
        i += 1;
    }
    assert(text::texts(marks@) =~= places(piece.len()));
    args.push(namespace.to_string());
    assert(text::texts(args@) =~= piece.push(namespace@));
    Fetch {
        sql: text::cat3(
            "SELECT id, namespace, content FROM memories WHERE id IN (",
            text::join(&marks, ",").as_str(),
            ") AND namespace = ?",
        ),
        args,
    }
}

/// The questions for memories of one namespace by their ids, a piece of them at a time.
pub fn fetches(ids: &Vec<String>, namespace: &str) -> (r: Vec<Fetch>)
    ensures
        r@.len() == pieces_of(text::texts(ids@)).len(),
        forall|k: int|
            0 <= k < r@.len() ==> asks(
                #[trigger] r@[k],
                pieces_of(text::texts(ids@))[k],
                namespace@,
            ),
{
    let ghost t = text::texts(ids@);
    let mut out: Vec<Fetch> = Vec::new();
    let mut from: usize = 0;
    assert(t.skip(0) =~= t);
    while from < ids.len()
        invariant
            from <= ids@.len(),
            t == text::texts(ids@),
            out@.len() + pieces_of(t.skip(from as int)).len() == pieces_of(t).len(),
            forall|k: int|
                0 <= k < out@.len() ==> asks(#[trigger] out@[k], pieces_of(t)[k], namespace@),
            forall|k: int|
                0 <= k < pieces_of(t.skip(from as int)).len() ==> #[trigger] pieces_of(
                    t.skip(from as int),
                )[k] == pieces_of(t)[out@.len() + k],
        decreases ids@.len() - from,
    {
        let to: usize = if ids.len() - from <= BATCH {
            ids.len()
        } else {
            from + BATCH
        };
        let ghost rest = t.skip(from as int);
        proof {
            assert(t.subrange(from as int, to as int) =~= pieces_of(rest)[0]);
            assert(pieces_of(rest)[0] == pieces_of(t)[out@.len() as int]);
            assert(t.skip(to as int) =~= rest.skip(to - from));
            if to < ids@.len() {
                assert(pieces_of(rest).skip(1) =~= pieces_of(t.skip(to as int)));
            }
            assert forall|k: int|
                0 <= k < pieces_of(t.skip(to as int)).len() implies #[trigger] pieces_of(
                t.skip(to as int),
            )[k] == pieces_of(t)[out@.len() + 1 + k] by {
                assert(pieces_of(rest)[k + 1] == pieces_of(t.skip(to as int))[k]);
                assert(pieces_of(rest)[k + 1] == pieces_of(t)[out@.len() + (k + 1)]);
            }
        }
        out.push(ask_for(ids, from, to, namespace));
        from = to;
    }
    out
}

/// A memory as it was read. Its content may be missing.
#[derive(Debug)]
pub struct Row {
    pub id: String,
    pub namespace: String,
    pub content: Option<String>,
}

/// The content of a memory of a namespace: the first row that has it.
pub open spec fn content_in(
    rows: Seq<Row>,
    namespace: Seq<char>,
    id: Seq<char>,
    i: int,
) -> Option<Seq<char>>
    decreases rows.len() - i,
{
    if i < 0 || i >= rows.len() {
        None
    } else if rows[i].id@ == id && rows[i].namespace@ == namespace {
        text::opt_text(rows[i].content)
    } else {
        content_in(rows, namespace, id, i + 1)
    }
}

fn find_content(rows: &Vec<Row>, namespace: &str, id: &str) -> (r: Option<String>)
    ensures
        text::opt_text(r) == content_in(rows@, namespace@, id@, 0),
{
    let mut i: usize = 0;
    while i < rows.len()
        invariant
            i <= rows@.len(),
            content_in(rows@, namespace@, id@, 0) == content_in(
                rows@,
                namespace@,
                id@,
                i as int,
            ),
        decreases rows@.len() - i,
    {
        if text::same(rows[i].id.as_str(), id) && text::same(
            rows[i].namespace.as_str(),
            namespace,
        ) {
            return match &rows[i].content {
                Some(c) => Some(c.clone()),
                None => None,
            };
        }
        i += 1;
    }
    None
}

/// A hit with its content.
pub open spec fn hit_of(id: Seq<char>, b: Best, content: Seq<char>) -> SignalView {
    SignalView {
        memory_id: id,
        content,
        score: b.score,
        source: if b.hype {
            "hnsw_semantic;hype"@
        } else {
            "hnsw_semantic"@
        },
    }
}

/// The hits for the memories of the namespace, in the order of the ids. One
/// without content is left out.
pub open spec fn hits_for(
    ids: Seq<Seq<char>>,
    best: Map<Seq<char>, Best>,
    rows: Seq<Row>,
    namespace: Seq<char>,
) -> Seq<SignalView>
    decreases ids.len(),
{
    if ids.len() == 0 {
        Seq::empty()
    } else {
        let p = hits_for(ids.drop_last(), best, rows, namespace);
        let id = ids.last();
        match content_in(rows, namespace, id, 0) {
            Some(c) => if best.contains_key(id) {
                p.push(hit_of(id, best[id], c))
            } else {
                p
            },
            None => p,
        }
    }
}

/// The scores of hits.
pub open spec fn scores(h: Seq<SignalView>) -> Seq<i64> {
    Seq::new(h.len(), |i: int| h[i].score)
}

/// The hits by their scores, the best first; those with the same score by their
/// ids. At most `limit` of them.
pub open spec fn best_first(h: Seq<SignalView>, limit: int) -> Seq<SignalView> {
    let order = ranking::ranked(scores(h), h.len() as int);
    let n = if order.len() <= limit {
        order.len() as int
    } else {
        limit
    };
    Seq::new(n as nat, |i: int| h[order[i]])
}

fn collect_hits(ids: &Vec<String>, best: &Table<Best>, rows: &Vec<Row>, namespace: &str) -> (r: Vec<
    SignalResult,
>)
    requires
        best.wf(),
    ensures
        rrf::signal_views(r@) == hits_for(text::texts(ids@), best@, rows@, namespace@),
{
    let ghost t = text::texts(ids@);
    let mut out: Vec<SignalResult> = Vec::new();
    let mut i: usize = 0;
    assert(rrf::signal_views(out@) =~= hits_for(t.take(0), best@, rows@, namespace@));
    while i < ids.len()
        invariant
            i <= ids@.len(),
            best.wf(),
            t == text::texts(ids@),
            rrf::signal_views(out@) == hits_for(t.take(i as int), best@, rows@, namespace@),
        decreases ids@.len() - i,
    {
        assert(t.take(i + 1).drop_last() =~= t.take(i as int));
        assert(t.take(i + 1).last() == ids@[i as int]@);
        let ghost before = out@;
        if let Some(content) = find_content(rows, namespace, ids[i].as_str()) {
            if let Some(b) = best.get(ids[i].as_str()) {
                let source = if b.hype {
                    "hnsw_semantic;hype".to_string()
                } else {
                    "hnsw_semantic".to_string()
                };
                let s = SignalResult {
                    memory_id: ids[i].clone(),
                    content,
                    score: b.score,
                    source,
                };
                let ghost sv = s@;
                out.push(s);
                assert(rrf::signal_views(out@) =~= rrf::signal_views(before).push(sv));
            }
        }
        i += 1;
    }
    assert(t.take(t.len() as int) =~= t);
    out
}

/// The ids of the memories that were found, in their order.
pub fn found_ids(best: &Table<Best>) -> (r: Vec<String>)
    requires
        best.wf(),
    ensures
        text::texts(r@) == ranking::alphabetical(keys_of(best.entries@)),
{
    let mut out: Vec<String> = Vec::new();
    let mut i: usize = 0;
    assert(text::texts(out@) =~= keys_of(best.entries@).take(0));
    while i < best.entries.len()
        invariant
            i <= best.entries@.len(),
            text::texts(out@) == keys_of(best.entries@).take(i as int),
        decreases best.entries@.len() - i,
    {
        let t = best.entries[i].0.clone();
        proof {
            text::lemma_texts_push(out@, t);
            assert(keys_of(best.entries@).take(i + 1) =~= keys_of(best.entries@).take(
                i as int,
            ).push(t@));
        }
        out.push(t);
        i += 1;
    }
    assert(keys_of(best.entries@).take(best.entries@.len() as int) =~= keys_of(best.entries@));
    ranking::sort_texts(&out)
}

/// The keys of a table, as they stand in it.
pub open spec fn keys_of(entries: Seq<(String, Best)>) -> Seq<Seq<char>> {
    Seq::new(entries.len(), |i: int| entries[i].0@)
}

/// The hits of the search by meaning in a namespace. `ids` are those that were found, in
/// their order, `rows` the memories that were read of them.
pub fn semantic_search(
    ids: &Vec<String>,
    best: &Table<Best>,
    rows: &Vec<Row>,
    namespace: &str,
    limit: u32,
) -> (r: Vec<SignalResult>)
    requires
        best.wf(),
    ensures
        rrf::signal_views(r@) == best_first(
            hits_for(text::texts(ids@), best@, rows@, namespace@),
            limit as int,
        ),
{
    let hits = collect_hits(ids, best, rows, namespace);
    let ghost h = rrf::signal_views(hits@);
    let mut keys: Vec<i64> = Vec::new();
    let mut i: usize = 0;
    while i < hits.len()
        invariant
            i <= hits@.len(),
            h == rrf::signal_views(hits@),
            keys@ == scores(h).take(i as int),
        decreases hits@.len() - i,
    {
        keys.push(hits[i].score);
        assert(keys@ =~= scores(h).take(i + 1));
        i += 1;
    }
    assert(keys@ =~= scores(h));
    let order = ranking::rank(&keys);
    let n: usize = if order.len() <= limit as usize {
        order.len()
    } else {
        limit as usize
    };
    let mut out: Vec<SignalResult> = Vec::new();
    let mut k: usize = 0;
    while k < n
        invariant
            k <= n <= order@.len(),
            order@.len() == hits@.len(),
            h == rrf::signal_views(hits@),
            ranking::is_ranking(ranking::indices(order@), scores(h), h.len() as int),
            out@.len() == k,
            forall|j: int| 0 <= j < k ==> (#[trigger] out@[j])@ == h[order@[j] as int],
        decreases n - k,
    {
        assert(0 <= ranking::indices(order@)[k as int] < h.len());
        let s = &hits[order[k]];
        out.push(
            SignalResult {
                memory_id: s.memory_id.clone(),
                content: s.content.clone(),
                score: s.score,
                source: s.source.clone(),
            },
        );
        k += 1;
    }
    assert(rrf::signal_views(out@) =~= best_first(h, limit as int));
    out
}

/// The memory has a row with this content in the namespace.
pub open spec fn has_row(
    rows: Seq<Row>,
    namespace: Seq<char>,
    id: Seq<char>,
    content: Seq<char>,
) -> bool {
    exists|k: int|
        0 <= k < rows.len() && (#[trigger] rows[k]).id@ == id && rows[k].namespace@ == namespace
            && text::opt_text(rows[k].content) == Some(content)
}

proof fn lemma_content_has_row(
    rows: Seq<Row>,
    namespace: Seq<char>,
    id: Seq<char>,
    i: int,
)
    requires
        0 <= i,
    ensures
        content_in(rows, namespace, id, i) matches Some(c) ==> has_row(rows, namespace, id, c),
    decreases rows.len() - i,
{
    if i < rows.len() {
        if rows[i].id@ == id && rows[i].namespace@ == namespace {
            assert(text::opt_text(rows[i].content) == content_in(rows, namespace, id, i));
        } else {
            lemma_content_has_row(rows, namespace, id, i + 1);
        }
    }
}

proof fn lemma_hit_has_row(
    ids: Seq<Seq<char>>,
    best: Map<Seq<char>, Best>,
    rows: Seq<Row>,
    namespace: Seq<char>,
    i: int,
)
    requires
        0 <= i < hits_for(ids, best, rows, namespace).len(),
    ensures
        has_row(
            rows,
            namespace,
            hits_for(ids, best, rows, namespace)[i].memory_id,
            hits_for(ids, best, rows, namespace)[i].content,
        ),
        best.contains_key(hits_for(ids, best, rows, namespace)[i].memory_id),
    decreases ids.len(),
{
    if ids.len() > 0 {
        let p = hits_for(ids.drop_last(), best, rows, namespace);
        if i < p.len() {
            lemma_hit_has_row(ids.drop_last(), best, rows, namespace, i);
        } else {
            lemma_content_has_row(rows, namespace, ids.last(), 0);
        }
    }
}

/// No memory of another namespace is shown: each hit of the search by meaning is one of
/// the memories that were found, and has a row in the namespace with what is shown of
/// it.
pub proof fn law_hits_stay_in_namespace(
    ids: Seq<Seq<char>>,
    best: Map<Seq<char>, Best>,
    rows: Seq<Row>,
    namespace: Seq<char>,
    limit: int,
    i: int,
)
    requires
        0 <= limit,
        0 <= i < best_first(hits_for(ids, best, rows, namespace), limit).len(),
    ensures
        ({
            let hit = best_first(hits_for(ids, best, rows, namespace), limit)[i];
            has_row(rows, namespace, hit.memory_id, hit.content) && best.contains_key(
                hit.memory_id,
            )
        }),
{
    let h = hits_for(ids, best, rows, namespace);
    let order = ranking::ranked(scores(h), h.len() as int);
    ranking::law_ranking_is_right(scores(h), h.len() as int);
    assert(0 <= order[i] < h.len());
    lemma_hit_has_row(ids, best, rows, namespace, order[i]);
}

/// No score is made up: what is held beyond what was held before comes from a hit of the
/// index that names the memory.
pub proof fn law_scores_come_from_hits(
    m: Map<Seq<char>, Best>,
    hits: Seq<RoadHit>,
    hype: bool,
    n: int,
    id: Seq<char>,
)
    requires
        0 <= n <= hits.len(),
        with_road(m, hits, hype, n).contains_key(id),
    ensures
        (m.contains_key(id) && with_road(m, hits, hype, n)[id] == m[id]) || exists|i: int|
            0 <= i < n && (#[trigger] hits[i]).id@ == id && hits[i].finite && hits[i].score
                == with_road(m, hits, hype, n)[id].score && with_road(m, hits, hype, n)[id].hype == hype,
    decreases n,
{
    if n > 0 {
        let p = with_road(m, hits, hype, n - 1);
        let r = with_road(m, hits, hype, n);
        let h = hits[n - 1];
        if r != p && id == h.id@ {
            assert(hits[n - 1].id@ == id);
        } else {
            law_scores_come_from_hits(m, hits, hype, n - 1, id);
            if !(m.contains_key(id) && p[id] == m[id]) {
                let i = choose|i: int|
                    0 <= i < n - 1 && (#[trigger] hits[i]).id@ == id && hits[i].finite && hits[i].score
                        == p[id].score && p[id].hype == hype;
                assert(hits[i].id@ == id);
            }
        }
    }
}

/// An index is asked for many more hits than are wanted, as far as it has them.
pub proof fn law_more_is_asked_than_wanted(limit: nat, cap: nat)
    ensures
        1 <= asked_hits(limit, cap),
        asked_hits(limit, cap) >= if 20 * limit < cap {
            20 * limit
        } else {
            cap
        },
        asked_hits(limit, cap) >= if 2048 < cap {
            2048
        } else {
            cap
        },
        cap > 0 ==> asked_hits(limit, cap) <= cap,
        asked_hits(limit, cap) <= 2048 || asked_hits(limit, cap) <= 20 * limit,
{
}

/// Every memory that was found and whose text could be read is a hit: with that text, with
/// its best score, and marked by the index that gave it.
pub proof fn law_found_memories_are_hits(
    ids: Seq<Seq<char>>,
    best: Map<Seq<char>, Best>,
    rows: Seq<Row>,
    namespace: Seq<char>,
    p: int,
) -> (k: int)
    requires
        0 <= p < ids.len(),
        best.contains_key(ids[p]),
        content_in(rows, namespace, ids[p], 0) is Some,
    ensures
        0 <= k < hits_for(ids, best, rows, namespace).len(),
        ({
            let h = hits_for(ids, best, rows, namespace)[k];
            &&& h.memory_id == ids[p]
            &&& Some(h.content) == content_in(rows, namespace, ids[p], 0)
            &&& h.score == best[ids[p]].score
            &&& h.source == if best[ids[p]].hype {
                "hnsw_semantic;hype"@
            } else {
                "hnsw_semantic"@
            }
        }),
    decreases ids.len(),
{
    let q = hits_for(ids.drop_last(), best, rows, namespace);
    let r = hits_for(ids, best, rows, namespace);
    if p < ids.len() - 1 {
        assert(ids.drop_last()[p] == ids[p]);
        let k = law_found_memories_are_hits(ids.drop_last(), best, rows, namespace, p);
        assert(r[k] == q[k]);
        k
    } else {
        assert(ids.last() == ids[p]);
        q.len() as int
    }
}

/// The search by meaning gives its best hits, as many as are asked for: they go by their
/// scores, and none that is left out has a higher one.
pub proof fn law_best_hits_are_given(h: Seq<SignalView>, limit: nat, a: int, b: int, i: int)
    ensures
        best_first(h, limit as int).len() == if h.len() < limit {
            h.len()
        } else {
            limit
        },
        0 <= a < b < best_first(h, limit as int).len() ==> best_first(h, limit as int)[a].score
            >= best_first(h, limit as int)[b].score,
        0 <= i < h.len() ==> best_first(h, limit as int).contains(h[i]) || (0 <= a < best_first(
            h,
            limit as int,
        ).len() ==> best_first(h, limit as int)[a].score >= h[i].score),
        0 <= a < best_first(h, limit as int).len() ==> h.contains(best_first(h, limit as int)[a]),
{
    let keys = scores(h);
    let order = ranking::ranked(keys, h.len() as int);
    ranking::law_ranking_is_right(keys, h.len() as int);
    let r = best_first(h, limit as int);
    if 0 <= a < b < r.len() {
        assert(ranking::ahead(keys, order[a], order[b]));
    }
    if 0 <= a < r.len() {
        assert(h[order[a]] == r[a]);
    }
    if 0 <= i < h.len() {
        assert(order.contains(i));
        let m = choose|m: int| 0 <= m < order.len() && order[m] == i;
        if m < r.len() {
            assert(r[m] == h[i]);
        } else if 0 <= a < r.len() {
            assert(ranking::ahead(keys, order[a], order[m]));
        }
    }
}

/// What is asked of the database names the ids of a piece and the namespace, in the order of
/// the places for them.
pub proof fn law_questions_name_their_ids(f: Fetch, ids: Seq<Seq<char>>, namespace: Seq<char>, i: int)
    requires
        asks(f, ids, namespace),
    ensures
        f.args@.len() == ids.len() + 1,
        0 <= i < ids.len() ==> f.args@[i]@ == ids[i],
        f.args@[ids.len() as int]@ == namespace,
        text::ends(f.sql@, "AND namespace = ?"@),
{
    let t = text::texts(f.args@);
    assert(t.len() == ids.len() + 1);
    assert(t[ids.len() as int] == f.args@[ids.len() as int]@);
    if 0 <= i < ids.len() {
        assert(t[i] == f.args@[i]@);
    }
    reveal_strlit(") AND namespace = ?");
    reveal_strlit("AND namespace = ?");
    let e = "AND namespace = ?"@;
    assert(f.sql@.subrange(f.sql@.len() - e.len(), f.sql@.len() as int) =~= e);
}

/// Any batch that fails as a whole fails the search by meaning.
pub proof fn law_failed_batches_fail_all(batches: Seq<Batch>, n: int)
    requires
        0 <= n <= batches.len(),
    ensures
        failures_in(batches, n) > 0 <==> exists|k: int|
            0 <= k < n && ((#[trigger] batches[k]).broken || (batches[k].got == 0 && batches[k].row_errors > 0
                && batches[k].row_errors == batches[k].requested)),
    decreases n,
{
    if n > 0 {
        law_failed_batches_fail_all(batches, n - 1);
    }
}

/// A batch from which no row came counts as gone, and of one that came in part what neither
/// came nor failed; a batch that broke, or that came whole, counts nothing as gone.
pub proof fn law_missing_memories_are_counted(b: Batch)
    requires
        b.got + b.row_errors <= b.requested,
    ensures
        b.broken ==> batch_stale(b) == 0,
        !b.broken && b.got == 0 && b.row_errors == 0 ==> batch_stale(b) == b.requested,
        !b.broken && b.got > 0 && b.row_errors > 0 ==> batch_stale(b) + b.got + b.row_errors
            == b.requested,
        !b.broken && b.got > 0 && b.row_errors == 0 ==> batch_stale(b) == 0,
        0 <= batch_stale(b) <= b.requested,
{
}

proof fn lemma_marks(n: nat, i: int)
    requires
        0 <= i < n,
    ensures
        text::joined(places(n), ","@).len() == 2 * n - 1,
        text::joined(places(n), ","@)[2 * i] == '?',
        i > 0 ==> text::joined(places(n), ","@)[2 * i - 1] == ',',
    decreases n,
{
    reveal_strlit("?");
    reveal_strlit(",");
    let l = places(n);
    assert(l.last() == "?"@);
    if n == 1 {
        assert(text::joined(l, ","@) =~= "?"@);
    } else {
        let m = (n - 1) as nat;
        assert(l.drop_last() =~= places(m));
        lemma_marks(m, 0);
        assert(text::joined(l, ","@) =~= text::joined(places(m), ","@) + ","@ + "?"@);
        if i < n - 1 {
            lemma_marks(m, i);
        }
    }
}

/// A question for some memories has one mark for each of them, with commas between, and one
/// for the namespace.
pub proof fn law_questions_have_a_mark_for_each(n: nat, i: int)
    requires
        0 <= i < n,
    ensures
        text::begins(
            fetch_sql(n),
            "SELECT id, namespace, content FROM memories WHERE id IN ("@ + text::joined(places(n), ","@)
                + ")"@,
        ),
        text::ends(fetch_sql(n), "namespace = ?"@),
        text::joined(places(n), ","@).len() == 2 * n - 1,
        text::joined(places(n), ","@)[2 * i] == '?',
        i > 0 ==> text::joined(places(n), ","@)[2 * i - 1] == ',',
{
    lemma_marks(n, i);
    reveal_strlit(") AND namespace = ?");
    reveal_strlit(")");
    reveal_strlit("namespace = ?");
    let s = fetch_sql(n);
    let a = "SELECT id, namespace, content FROM memories WHERE id IN ("@ + text::joined(places(n), ","@)
        + ")"@;
    let b = "namespace = ?"@;
    assert(s.subrange(0, a.len() as int) =~= a);
    assert(s.subrange(s.len() - b.len(), s.len() as int) =~= b);
}

} // verus!
