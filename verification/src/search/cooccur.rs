//! Things that memories share: a memory counts a little more where the query
//! names one of its things, and where others that were found have the same.
use vstd::prelude::*;
use crate::text;

verus! {

/// A memory and the things that it mentions.
#[derive(Debug)]
pub struct Mentions {
    pub memory_id: String,
    pub entities: Vec<String>,
}

/// A thing, by its id and its name.
#[derive(Debug)]
pub struct Entity {
    pub id: String,
    pub name: String,
}

/// How many things a query names at most.
pub const MAX_QUERY_ENTITIES: usize = 64;

/// The name of a thing occurs in a query. A name has to take two bytes at least.
pub open spec fn named_in(q: Seq<char>, name: Seq<char>) -> bool {
    let n = text::trimmed(name);
    text::utf8_len(n) >= 2 && text::occurs(q, n)
}

/// The ids of the things among the first `n` that a query names, each once.
pub open spec fn query_entities(q: Seq<char>, all: Seq<Entity>, n: int) -> Seq<Seq<char>>
    decreases n,
{
    if n <= 0 {
        Seq::empty()
    } else {
        let l = query_entities(q, all, n - 1);
        if l.len() < MAX_QUERY_ENTITIES && named_in(q, all[n - 1].name@) && !text::listed(
            l,
            all[n - 1].id@,
        ) {
            l.push(all[n - 1].id@)
        } else {
            l
        }
    }
}

fn at_least_two_bytes(s: &str) -> (r: bool)
    ensures
        r == (text::utf8_len(s@) >= 2),
{
    let v = text::chars_of(s);
    let n = text::fitting(&v, 1);
    proof {
        if n < v@.len() {
            text::lemma_utf8_len_take(s@, n + 1, s@.len() as int);
        }
        assert(s@.take(s@.len() as int) =~= s@);
    }
    n < v.len()
}

/// Finds the things that a query names.
pub fn match_query_entities(query: &str, all: &Vec<Entity>) -> (r: Vec<String>)
    ensures
        text::texts(r@) == (if text::trimmed(query@).len() == 0 {
            Seq::empty()
        } else {
            query_entities(text::trimmed(query@), all@, all@.len() as int)
        }),
{
    let q = text::trim(query);
    let mut out: Vec<String> = Vec::new();
    assert(text::texts(out@) =~= Seq::empty());
    if q.as_str().is_empty() {
        return out;
    }
    let mut i: usize = 0;
    while i < all.len()
        invariant
            i <= all@.len(),
            text::texts(out@) == query_entities(q@, all@, i as int),
        decreases all@.len() - i,
    {
        let name = text::trim(all[i].name.as_str());
        assert(text::texts(out@).len() == out@.len());
        if out.len() < MAX_QUERY_ENTITIES && at_least_two_bytes(name.as_str()) && text::contains(
            q.as_str(),
            name.as_str(),
        ) && !text::is_listed(&out, all[i].id.as_str()) {
            let t = all[i].id.clone();
            proof {
                text::lemma_texts_push(out@, t);
            }
            out.push(t);
        }
        i += 1;
    }
    out
}

/// How many of the texts stand in a list.
pub open spec fn hits_in(list: Seq<Seq<char>>, s: Seq<Seq<char>>) -> nat
    decreases s.len(),
{
    if s.len() == 0 {
        0
    } else {
        hits_in(list, s.drop_last()) + (if text::listed(list, s.last()) {
            1nat
        } else {
            0nat
        })
    }
}

/// How many of the first `n` memories mention a thing.
pub open spec fn mentioned_by(all: Seq<Mentions>, entity: Seq<char>, n: int) -> nat
    decreases n,
{
    if n <= 0 {
        0
    } else {
        mentioned_by(all, entity, n - 1) + (if text::listed(
            text::texts(all[n - 1].entities@),
            entity,
        ) {
            1nat
        } else {
            0nat
        })
    }
}

/// In how many other memories the things occur, all together.
pub open spec fn peers_of(all: Seq<Mentions>, entities: Seq<Seq<char>>) -> nat
    decreases entities.len(),
{
    if entities.len() == 0 {
        0
    } else {
        let m = mentioned_by(all, entities.last(), all.len() as int);
        peers_of(all, entities.drop_last()) + (if m > 0 {
            (m - 1) as nat
        } else {
            0nat
        })
    }
}

/// What a memory has in common with the query and with the others.
#[derive(Debug, Clone, Copy, PartialEq, Eq, Structural)]
pub struct Shared {
    /// Things that the query names.
    pub query_hits: u64,
    /// Other memories with the same things.
    pub peers: u128,
}

fn count_mentions(all: &Vec<Mentions>, entity: &str) -> (r: u64)
    ensures
        r == mentioned_by(all@, entity@, all@.len() as int),
        r <= all@.len(),
{
    let mut n: u64 = 0;
    let mut i: usize = 0;
    while i < all.len()
        invariant
            i <= all@.len(),
            n <= i,
            n == mentioned_by(all@, entity@, i as int),
        decreases all@.len() - i,
    {
        if text::is_listed(&all[i].entities, entity) {
            n += 1;
        }
        i += 1;
    }
    n
}

/// Counts what a memory has in common with the query and with the others.
pub fn rerank_by_cooccurrence(all: &Vec<Mentions>, entities: &Vec<String>, query: &Vec<String>) -> (r:
    Shared)
    ensures
        r.query_hits == hits_in(text::texts(query@), text::texts(entities@)),
        r.peers == peers_of(all@, text::texts(entities@)),
{
    let ghost t = text::texts(entities@);
    let mut query_hits: u64 = 0;
    let mut peers: u128 = 0;
    let mut i: usize = 0;
    assert(hits_in(text::texts(query@), t.take(0)) == 0);
    assert(peers_of(all@, t.take(0)) == 0);
    while i < entities.len()
        invariant
            i <= entities@.len(),
            t == text::texts(entities@),
            query_hits <= i,
            peers <= i * u64::MAX,
            query_hits == hits_in(text::texts(query@), t.take(i as int)),
            peers == peers_of(all@, t.take(i as int)),
        decreases entities@.len() - i,
    {
        assert(t.take(i + 1).drop_last() =~= t.take(i as int));
        assert(t.take(i + 1).last() == entities@[i as int]@);
        if text::is_listed(query, entities[i].as_str()) {
            query_hits += 1;
        }
        let m = count_mentions(all, entities[i].as_str());
        assert(i * u64::MAX <= u64::MAX * u64::MAX - u64::MAX) by (nonlinear_arith)
            requires
                i + 1 <= u64::MAX,
        ;
        assert((i + 1) * u64::MAX == i * u64::MAX + u64::MAX) by (nonlinear_arith);
        if m > 0 {
            peers += (m - 1) as u128;
        }
        i += 1;
    }
    assert(t.take(t.len() as int) =~= t);
    Shared { query_hits, peers }
}

/// Nothing is done for an empty list, nor for a single memory without a query.
pub fn worth_reranking(results: usize, query: &str) -> (r: bool)
    ensures
        r == !(results == 0 || (results < 2 && text::trimmed(query@).len() == 0)),
{
    !(results == 0 || (results < 2 && text::trim(query).as_str().is_empty()))
}

/// What is shared is worth, in thousandths: 12 for a thing that the query names
/// and 4 for another memory, 60 at most.
pub open spec fn shared_worth(s: Shared) -> int {
    let w = s.query_hits * 12 + s.peers * 4;
    if w > 60 {
        60
    } else {
        w
    }
}

/// What is shared is worth, in thousandths.
pub fn boost_of(s: Shared) -> (r: u64)
    ensures
        r == shared_worth(s),
{
    if s.query_hits >= 5 || s.peers >= 15 {
        60
    } else {
        let w: u64 = s.query_hits * 12 + (s.peers as u64) * 4;
        if w > 60 {
            60
        } else {
            w
        }
    }
}

/// A memory that mentions nothing gains nothing; one with a thing that another
/// memory has too, or that the query names, gains something.
pub proof fn law_sharing_counts(s: Shared)
    ensures
        (shared_worth(s) > 0) == (s.query_hits > 0 || s.peers > 0),
        shared_worth(s) <= 60,
{
}

/// The things that a query names are found: all of them up to the limit, each once, and
/// nothing that it does not name.
pub proof fn law_named_things_are_found(q: Seq<char>, all: Seq<Entity>, n: int)
    requires
        0 <= n <= all.len(),
    ensures
        query_entities(q, all, n).len() <= 64,
        query_entities(q, all, n).no_duplicates(),
        forall|k: int|
            0 <= k < query_entities(q, all, n).len() ==> exists|i: int|
                0 <= i < n && (#[trigger] all[i]).id@ == #[trigger] query_entities(q, all, n)[k]
                    && text::occurs(q, text::trimmed(all[i].name@)),
        forall|i: int|
            0 <= i < n && text::utf8_len(text::trimmed((#[trigger] all[i]).name@)) >= 2 && text::occurs(
                q,
                text::trimmed(all[i].name@),
            ) ==> query_entities(q, all, n).contains(all[i].id@) || query_entities(q, all, n).len() == 64,
    decreases n,
{
    if n > 0 {
        law_named_things_are_found(q, all, n - 1);
        let p = query_entities(q, all, n - 1);
        let r = query_entities(q, all, n);
        let id = all[n - 1].id@;
        assert forall|k: int| 0 <= k < r.len() implies exists|i: int|
            0 <= i < n && (#[trigger] all[i]).id@ == #[trigger] r[k] && text::occurs(
                q,
                text::trimmed(all[i].name@),
            ) by {
            if k < p.len() {
                assert(r[k] == p[k]);
                let i = choose|i: int|
                    0 <= i < n - 1 && (#[trigger] all[i]).id@ == p[k] && text::occurs(
                        q,
                        text::trimmed(all[i].name@),
                    );
                assert(all[i].id@ == r[k]);
            } else {
                assert(all[n - 1].id@ == r[k]);
            }
        }
        assert forall|i: int|
            0 <= i < n && text::utf8_len(text::trimmed((#[trigger] all[i]).name@)) >= 2 && text::occurs(
                q,
                text::trimmed(all[i].name@),
            ) implies r.contains(all[i].id@) || r.len() == 64 by {
            if i < n - 1 {
                if p.contains(all[i].id@) {
                    let k = choose|k: int| 0 <= k < p.len() && p[k] == all[i].id@;
                    assert(r[k] == all[i].id@);
                }
            } else if p.len() < 64 {
                if text::listed(p, id) {
                    let k = choose|k: int| 0 <= k < p.len() && p[k] == id;
                    assert(r[k] == id);
                } else {
                    assert(r[r.len() - 1] == id);
                }
            }
        }
        assert(r.no_duplicates()) by {
            if r.len() > p.len() {
                assert forall|a: int, b: int| 0 <= a < r.len() && 0 <= b < r.len() && a != b implies r[a]
                    != r[b] by {
                    if a == p.len() {
                        assert(p[b] != id);
                    } else if b == p.len() {
                        assert(p[a] != id);
                    } else {
                        assert(p[a] != p[b]);
                    }
                }
            }
        }
    }
}

/// What memories have in common is counted thing by thing and memory by memory.
pub proof fn law_common_things_are_counted(
    list: Seq<Seq<char>>,
    a: Seq<Seq<char>>,
    b: Seq<Seq<char>>,
    all: Seq<Mentions>,
    thing: Seq<char>,
)
    ensures
        hits_in(list, a + b) == hits_in(list, a) + hits_in(list, b),
        hits_in(list, seq![thing]) == if list.contains(thing) {
            1nat
        } else {
            0
        },
        peers_of(all, a + b) == peers_of(all, a) + peers_of(all, b),
        peers_of(all, seq![thing]) + 1 == mentioned_by(all, thing, all.len() as int) || mentioned_by(
            all,
            thing,
            all.len() as int,
        ) == 0 && peers_of(all, seq![thing]) == 0,
    decreases b.len(),
{
    assert(seq![thing].drop_last() =~= Seq::empty());
    assert(hits_in(list, seq![thing].drop_last()) == 0);
    assert(peers_of(all, seq![thing].drop_last()) == 0);
    if list.contains(thing) {
        let k = choose|k: int| 0 <= k < list.len() && list[k] == thing;
        assert(list[k] == thing);
    }
    if b.len() == 0 {
        assert(a + b =~= a);
    } else {
        law_common_things_are_counted(list, a, b.drop_last(), all, thing);
        assert((a + b).drop_last() =~= a + b.drop_last());
        assert((a + b).last() == b.last());
    }
}

/// Each memory that mentions a thing counts once for it.
pub proof fn law_mentions_are_counted(all: Seq<Mentions>, thing: Seq<char>, n: int)
    requires
        0 <= n < all.len(),
    ensures
        mentioned_by(all, thing, 0) == 0,
        mentioned_by(all, thing, n + 1) == mentioned_by(all, thing, n) + (if text::texts(
            all[n].entities@,
        ).contains(thing) {
            1nat
        } else {
            0nat
        }),
{
    let l = text::texts(all[n].entities@);
    if l.contains(thing) {
        let k = choose|k: int| 0 <= k < l.len() && l[k] == thing;
        assert(l[k] == thing);
    }
}

/// What is shared is worth more the more it is, three times as much where the query names it,
/// up to a limit.
pub proof fn law_sharing_is_worth(s: Shared)
    ensures
        s.query_hits * 12 + s.peers * 4 <= 60 ==> shared_worth(s) == s.query_hits * 12 + s.peers * 4,
        s.query_hits * 12 + s.peers * 4 >= 60 ==> shared_worth(s) == 60,
{
}

} // verus!
