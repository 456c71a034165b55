//! How important memories are, and the kinds of them that a query asks for by name.
use vstd::prelude::*;
use crate::search::ranking;
use crate::search::rrf;
use crate::search::rrf::{SignalResult, SignalView};
use crate::text;

verus! {

/// The words that ask for a kind, each with the kind.
pub open spec fn kind_words() -> Seq<(Seq<char>, Seq<char>)> {
    Seq::empty().push(("decision"@, "decision"@)).push(("preference"@, "preference"@)).push(
        ("constraint"@, "constraint"@),
    ).push(("lesson"@, "lesson"@)).push(("fact"@, "fact"@)).push(
        ("candidate"@, "candidate"@),
    ).push(("决定"@, "decision"@)).push(("偏好"@, "preference"@)).push(
        ("约束"@, "constraint"@),
    ).push(("教训"@, "lesson"@)).push(("事实"@, "fact"@))
}

/// The kinds that the first `n` words ask for in a query.
pub open spec fn kinds_in(query: Seq<char>, n: int) -> Seq<Seq<char>>
    decreases n,
{
    if n <= 0 {
        Seq::empty()
    } else if text::occurs(query, kind_words()[n - 1].0) {
        kinds_in(query, n - 1).push(kind_words()[n - 1].1)
    } else {
        kinds_in(query, n - 1)
    }
}

fn word_list() -> (r: Vec<(&'static str, &'static str)>)
    ensures
        r@.len() == kind_words().len(),
        forall|i: int|
            0 <= i < r@.len() ==> (#[trigger] r@[i]).0@ == kind_words()[i].0 && r@[i].1@
                == kind_words()[i].1,
{
    let mut v: Vec<(&'static str, &'static str)> = Vec::new();
    v.push(("decision", "decision"));
    v.push(("preference", "preference"));
    v.push(("constraint", "constraint"));
    v.push(("lesson", "lesson"));
    v.push(("fact", "fact"));
    v.push(("candidate", "candidate"));
    v.push(("决定", "decision"));
    v.push(("偏好", "preference"));
    v.push(("约束", "constraint"));
    v.push(("教训", "lesson"));
    v.push(("事实", "fact"));
    v
}

/// The kinds that a query asks for, in the order of the words.
pub fn category_search(query: &str) -> (r: Vec<&'static str>)
    ensures
        r@.len() == kinds_in(query@, kind_words().len() as int).len(),
        forall|i: int|
            0 <= i < r@.len() ==> (#[trigger] r@[i])@ == kinds_in(
                query@,
                kind_words().len() as int,
            )[i],
{
    let words = word_list();
    let mut out: Vec<&'static str> = Vec::new();
    let mut i: usize = 0;
    while i < words.len()
        invariant
            i <= words@.len(),
            words@.len() == kind_words().len(),
            forall|k: int|
                0 <= k < words@.len() ==> (#[trigger] words@[k]).0@ == kind_words()[k].0
                    && words@[k].1@ == kind_words()[k].1,
            out@.len() == kinds_in(query@, i as int).len(),
            forall|k: int|
                0 <= k < out@.len() ==> (#[trigger] out@[k])@ == kinds_in(query@, i as int)[k],
        decreases words@.len() - i,
    {
        if text::contains(query, words[i].0) {
            out.push(words[i].1);
        }
        i += 1;
    }
    out
}

/// A memory with its score.
#[derive(Debug)]
pub struct Scored {
    pub id: String,
    pub content: String,
    pub score: i64,
}

/// The scores of memories.
pub open spec fn scores_of(rows: Seq<Scored>) -> Seq<i64> {
    Seq::new(rows.len(), |i: int| rows[i].score)
}

/// The memories by their scores, the highest first, as hits of a source; those with
/// the same score stay in their order.
pub open spec fn in_order(rows: Seq<Scored>, source: Seq<char>) -> Seq<SignalView> {
    let order = ranking::ranked(scores_of(rows), rows.len() as int);
    Seq::new(
        order.len(),
        |i: int|
            SignalView {
                memory_id: rows[order[i]].id@,
                content: rows[order[i]].content@,
                score: rows[order[i]].score,
                source,
            },
    )
}

/// Puts memories in the order of their scores.
pub fn put_in_order(rows: &Vec<Scored>, source: &str) -> (r: Vec<SignalResult>)
    ensures
        rrf::signal_views(r@) == in_order(rows@, source@),
{
    let mut keys: Vec<i64> = Vec::new();
    let mut i: usize = 0;
    while i < rows.len()
        invariant
            i <= rows@.len(),
            keys@ == scores_of(rows@).take(i as int),
        decreases rows@.len() - i,
    {
        keys.push(rows[i].score);
        assert(keys@ =~= scores_of(rows@).take(i + 1));
        i += 1;
    }
    assert(keys@ =~= scores_of(rows@));
    let order = ranking::rank(&keys);
    assert forall|j: int| 0 <= j < order@.len() implies #[trigger] order@[j] < rows@.len() by {
        assert(ranking::indices(order@)[j] == order@[j]);
    }
    let mut out: Vec<SignalResult> = Vec::new();
    let mut k: usize = 0;
    let ghost want = in_order(rows@, source@);
    while k < order.len()
        invariant
            k <= order@.len(),
            out@.len() == k,
            want == in_order(rows@, source@),
            order@.len() == want.len(),
            keys@ == scores_of(rows@),
            forall|j: int|
                0 <= j < order@.len() ==> (#[trigger] order@[j]) as int == ranking::ranked(
                    scores_of(rows@),
                    rows@.len() as int,
                )[j],
            forall|j: int| 0 <= j < order@.len() ==> #[trigger] order@[j] < rows@.len(),
            forall|j: int| 0 <= j < k ==> (#[trigger] out@[j])@ == want[j],
        decreases order@.len() - k,
    {
        let row = &rows[order[k]];
        out.push(
            SignalResult {
                memory_id: row.id.as_str().to_string(),
                content: row.content.as_str().to_string(),
                score: row.score,
                source: source.to_string(),
            },
        );
        k += 1;
    }
    assert(rrf::signal_views(out@) =~= want);
    out
}

/// The memories by their importance, the most important first.
pub fn importance_search(rows: &Vec<Scored>) -> (r: Vec<SignalResult>)
    ensures
        rrf::signal_views(r@) == in_order(rows@, "importance_signal"@),
{
    put_in_order(rows, "importance_signal")
}

/// The hits of a source are the memories in the order of their scores: each of them stands
/// there, with its own text and score, and none before one with a higher score.
pub proof fn law_hits_follow_their_scores(rows: Seq<Scored>, source: Seq<char>, i: int, a: int, b: int) -> (k:
    int)
    requires
        0 <= i < rows.len(),
    ensures
        in_order(rows, source).len() == rows.len(),
        0 <= k < rows.len(),
        in_order(rows, source)[k].memory_id == rows[i].id@,
        in_order(rows, source)[k].content == rows[i].content@,
        in_order(rows, source)[k].score == rows[i].score,
        in_order(rows, source)[k].source == source,
        0 <= a < b < rows.len() ==> in_order(rows, source)[a].score >= in_order(rows, source)[b].score,
{
    let n = rows.len() as int;
    let keys = scores_of(rows);
    let order = ranking::ranked(keys, n);
    ranking::law_ranking_is_right(keys, n);
    if 0 <= a < b < n {
        assert(ranking::ahead(keys, order[a], order[b]));
    }
    assert(order.contains(i));
    choose|k: int| 0 <= k < order.len() && order[k] == i
}

/// No hit is made up, and none stands there twice: each is one of the memories, and two of
/// them are two.
pub proof fn law_hits_are_the_memories(rows: Seq<Scored>, source: Seq<char>, a: int, b: int) -> (r: (int, int))
    requires
        0 <= a < b < rows.len(),
    ensures
        in_order(rows, source).len() == rows.len(),
        0 <= r.0 < rows.len(),
        0 <= r.1 < rows.len(),
        r.0 != r.1,
        in_order(rows, source)[a].memory_id == rows[r.0].id@,
        in_order(rows, source)[a].content == rows[r.0].content@,
        in_order(rows, source)[b].memory_id == rows[r.1].id@,
        in_order(rows, source)[b].content == rows[r.1].content@,
{
    let n = rows.len() as int;
    let keys = scores_of(rows);
    let order = ranking::ranked(keys, n);
    ranking::law_ranking_is_right(keys, n);
    assert(ranking::ahead(keys, order[a], order[b]));
    (order[a], order[b])
}

/// A word and the kind that it asks for.
pub open spec fn asks_for(word: Seq<char>, kind: Seq<char>) -> bool {
    ||| word == kind && seq![
        "decision"@,
        "preference"@,
        "constraint"@,
        "lesson"@,
        "fact"@,
        "candidate"@,
    ].contains(kind)
    ||| word == "决定"@ && kind == "decision"@
    ||| word == "偏好"@ && kind == "preference"@
    ||| word == "约束"@ && kind == "constraint"@
    ||| word == "教训"@ && kind == "lesson"@
    ||| word == "事实"@ && kind == "fact"@
}

proof fn lemma_kinds(query: Seq<char>, n: int)
    requires
        0 <= n <= kind_words().len(),
    ensures
        forall|k: int|
            0 <= k < kinds_in(query, n).len() ==> exists|i: int|
                0 <= i < n && text::occurs(query, (#[trigger] kind_words()[i]).0) && kind_words()[i].1
                    == #[trigger] kinds_in(query, n)[k],
        forall|i: int|
            0 <= i < n && text::occurs(query, (#[trigger] kind_words()[i]).0) ==> kinds_in(
                query,
                n,
            ).contains(kind_words()[i].1),
    decreases n,
{
    if n > 0 {
        lemma_kinds(query, n - 1);
        let p = kinds_in(query, n - 1);
        let r = kinds_in(query, n);
        assert forall|k: int| 0 <= k < r.len() implies exists|i: int|
            0 <= i < n && text::occurs(query, (#[trigger] kind_words()[i]).0) && kind_words()[i].1
                == #[trigger] r[k] by {
            if k < p.len() {
                assert(r[k] == p[k]);
                let i = choose|i: int|
                    0 <= i < n - 1 && text::occurs(query, (#[trigger] kind_words()[i]).0)
                        && kind_words()[i].1 == p[k];
                assert(kind_words()[i].1 == r[k]);
            } else {
                assert(kind_words()[n - 1].1 == r[k]);
            }
        }
        assert forall|i: int| 0 <= i < n && text::occurs(query, (#[trigger] kind_words()[i]).0) implies r.contains(
            kind_words()[i].1,
        ) by {
            if i < n - 1 {
                assert(p.contains(kind_words()[i].1));
                let k = choose|k: int| 0 <= k < p.len() && p[k] == kind_words()[i].1;
                assert(r[k] == p[k]);
            } else {
                assert(r[r.len() - 1] == kind_words()[n - 1].1);
            }
        }
    }
}

/// A query asks for a kind if and only if one of the words for it stands there.
pub proof fn law_kinds_are_asked_for_by_their_words(query: Seq<char>, word: Seq<char>, kind: Seq<char>)
    ensures
        asks_for(word, kind) && text::occurs(query, word) ==> kinds_in(
            query,
            kind_words().len() as int,
        ).contains(kind),
        kinds_in(query, kind_words().len() as int).contains(kind) ==> exists|w: Seq<char>| #[trigger]
            asks_for(w, kind) && text::occurs(query, w),
{
    let t = kind_words();
    let n = t.len() as int;
    lemma_kinds(query, n);
    let six = seq!["decision"@, "preference"@, "constraint"@, "lesson"@, "fact"@, "candidate"@];
    assert(t[0] == ("decision"@, "decision"@));
    assert(t[1] == ("preference"@, "preference"@));
    assert(t[2] == ("constraint"@, "constraint"@));
    assert(t[3] == ("lesson"@, "lesson"@));
    assert(t[4] == ("fact"@, "fact"@));
    assert(t[5] == ("candidate"@, "candidate"@));
    assert(t[6] == ("决定"@, "decision"@));
    assert(t[7] == ("偏好"@, "preference"@));
    assert(t[8] == ("约束"@, "constraint"@));
    assert(t[9] == ("教训"@, "lesson"@));
    assert(t[10] == ("事实"@, "fact"@));
    assert(six[0] == "decision"@ && six[1] == "preference"@ && six[2] == "constraint"@ && six[3]
        == "lesson"@ && six[4] == "fact"@ && six[5] == "candidate"@);
    if asks_for(word, kind) && text::occurs(query, word) {
        if word == kind && six.contains(kind) {
            let k = choose|k: int| 0 <= k < six.len() && six[k] == kind;
            assert(k == 0 || k == 1 || k == 2 || k == 3 || k == 4 || k == 5);
            assert(t[k].0 == kind);
        }
    }
    if kinds_in(query, n).contains(kind) {
        let k = choose|k: int| 0 <= k < kinds_in(query, n).len() && kinds_in(query, n)[k] == kind;
        let i = choose|i: int|
            0 <= i < n && text::occurs(query, (#[trigger] t[i]).0) && t[i].1 == kinds_in(query, n)[k];
        assert(0 <= i < 11);
        assert(i == 0 || i == 1 || i == 2 || i == 3 || i == 4 || i == 5 || i == 6 || i == 7 || i == 8
            || i == 9 || i == 10);
        assert(asks_for(t[i].0, kind));
    }
}

} // verus!
