//! Relations by meaning: which neighbours a new memory is tied to.
use vstd::prelude::*;
use crate::search::ranking;
use crate::text;

verus! {

/// A neighbour of a memory in the index.
#[derive(Debug)]
pub struct Near {
    pub id: String,
    /// How similar it is: a number in the order of the similarities.
    pub similarity: i64,
    /// Its namespace, where the memory is there.
    pub namespace: Option<String>,
}

/// A neighbour that the memory is tied to: another memory of the same namespace
/// that is similar enough.
pub open spec fn tied(n: Near, id: Seq<char>, namespace: Seq<char>, threshold: i64) -> bool {
    n.id@ != id && text::opt_text(n.namespace) == Some(namespace) && n.similarity >= threshold
}

/// The indices of the first `n` neighbours that the memory is tied to.
pub open spec fn candidates(
    near: Seq<Near>,
    id: Seq<char>,
    namespace: Seq<char>,
    threshold: i64,
    n: int,
) -> Seq<int>
    decreases n,
{
    if n <= 0 {
        Seq::empty()
    } else {
        let c = candidates(near, id, namespace, threshold, n - 1);
        if tied(near[n - 1], id, namespace, threshold) {
            c.push(n - 1)
        } else {
            c
        }
    }
}

/// How similar the candidates are.
pub open spec fn similarities(near: Seq<Near>, c: Seq<int>) -> Seq<i64> {
    Seq::new(c.len(), |i: int| near[c[i]].similarity)
}

/// The neighbours that the memory is tied to, the most similar first, at most
/// `cap` of them.
pub open spec fn chosen(
    near: Seq<Near>,
    id: Seq<char>,
    namespace: Seq<char>,
    threshold: i64,
    cap: int,
) -> Seq<int> {
    let c = candidates(near, id, namespace, threshold, near.len() as int);
    let order = ranking::ranked(similarities(near, c), c.len() as int);
    let n = if order.len() <= cap {
        order.len() as int
    } else {
        cap
    };
    Seq::new(n as nat, |i: int| c[order[i]])
}

fn is_tied(n: &Near, id: &str, namespace: &str, threshold: i64) -> (r: bool)
    ensures
        r == tied(*n, id@, namespace@, threshold),
{
    let here = match &n.namespace {
        Some(ns) => text::same(ns.as_str(), namespace),
        None => false,
    };
    !text::same(n.id.as_str(), id) && here && n.similarity >= threshold
}

proof fn lemma_candidates(
    near: Seq<Near>,
    id: Seq<char>,
    namespace: Seq<char>,
    threshold: i64,
    n: int,
)
    requires
        0 <= n <= near.len(),
    ensures
        forall|k: int|
            0 <= k < candidates(near, id, namespace, threshold, n).len() ==> 0
                <= #[trigger] candidates(near, id, namespace, threshold, n)[k] < n && tied(
                near[candidates(near, id, namespace, threshold, n)[k]],
                id,
                namespace,
                threshold,
            ),
    decreases n,
{
    if n > 0 {
        lemma_candidates(near, id, namespace, threshold, n - 1);
        let p = candidates(near, id, namespace, threshold, n - 1);
        let c = candidates(near, id, namespace, threshold, n);
        assert forall|k: int| 0 <= k < c.len() implies 0 <= #[trigger] c[k] < n && tied(
            near[c[k]],
            id,
            namespace,
            threshold,
        ) by {
            if k < p.len() {
                assert(c[k] == p[k]);
            }
        }
    }
}

/// Picks the neighbours that a memory is tied to.
fn pick(
    near: &Vec<Near>,
    id: &str,
    namespace: &str,
    threshold: i64,
    cap: usize,
) -> (r: Vec<usize>)
    ensures
        ranking::indices(r@) == chosen(near@, id@, namespace@, threshold, cap as int),
{
    let mut c: Vec<usize> = Vec::new();
    let mut keys: Vec<i64> = Vec::new();
    let mut i: usize = 0;
    assert(ranking::indices(c@) =~= Seq::empty());
    while i < near.len()
        invariant
            i <= near@.len(),
            c@.len() == keys@.len(),
            ranking::indices(c@) == candidates(near@, id@, namespace@, threshold, i as int),
            forall|k: int|
                0 <= k < c@.len() ==> #[trigger] c@[k] < i && keys@[k] == near@[c@[k] as int].similarity,
        decreases near@.len() - i,
    {
        let ghost c0 = c@;
        if is_tied(&near[i], id, namespace, threshold) {
            c.push(i);
            keys.push(near[i].similarity);
            assert(ranking::indices(c@) =~= ranking::indices(c0).push(i as int));
        }
        i += 1;
    }
    let ghost cs = ranking::indices(c@);
    assert(keys@ =~= similarities(near@, cs));
    let order = ranking::rank(&keys);
    let n: usize = if order.len() <= cap {
        order.len()
    } else {
        cap
    };
    let mut out: Vec<usize> = Vec::new();
    let mut k: usize = 0;
    while k < n
        invariant
            k <= n <= order@.len(),
            order@.len() == c@.len(),
            cs == ranking::indices(c@),
            keys@.len() == c@.len(),
            ranking::is_ranking(ranking::indices(order@), keys@, keys@.len() as int),
            out@.len() == k,
            forall|j: int| 0 <= j < k ==> #[trigger] out@[j] == c@[order@[j] as int],
        decreases n - k,
    {
        assert(0 <= ranking::indices(order@)[k as int] < c@.len());
        out.push(c[order[k]]);
        k += 1;
    }
    assert(ranking::indices(out@) =~= chosen(near@, id@, namespace@, threshold, cap as int));
    out
}

/// A relation by meaning that is to be written.
#[derive(Debug)]
pub struct SemanticEdge {
    pub source: String,
    pub target: String,
    /// The neighbour whose similarity is its weight.
    pub near: usize,
}

impl SemanticEdge {
    pub open spec fn view(&self) -> (Seq<char>, Seq<char>, int) {
        (self.source@, self.target@, self.near as int)
    }
}

/// The views of edges.
pub open spec fn edges(v: Seq<SemanticEdge>) -> Seq<(Seq<char>, Seq<char>, int)> {
    Seq::new(v.len(), |i: int| v[i]@)
}

/// The relations between a memory and the neighbours `c`: to each one, and back.
pub open spec fn both_ways(near: Seq<Near>, id: Seq<char>, c: Seq<int>) -> Seq<
    (Seq<char>, Seq<char>, int),
> {
    Seq::new(
        2 * c.len(),
        |i: int|
            if i % 2 == 0 {
                (id, near[c[i / 2]].id@, c[i / 2])
            } else {
                (near[c[i / 2]].id@, id, c[i / 2])
            },
    )
}

/// The relations by meaning that a memory gets in place of those that lead away from
/// it: both ways, to each neighbour that it is tied to. Without any neighbour all
/// relations stay as they are.
pub fn upsert_semantic_edges_for(
    near: &Vec<Near>,
    id: &str,
    namespace: &str,
    threshold: i64,
    cap: usize,
) -> (r: Option<Vec<SemanticEdge>>)
    ensures
        r is None <==> near@.len() == 0,
        r matches Some(v) ==> edges(v@) == both_ways(
            near@,
            id@,
            chosen(near@, id@, namespace@, threshold, cap as int),
        ),
{
    if near.len() == 0 {
        return None;
    }
    let c = pick(near, id, namespace, threshold, cap);
    let ghost cs = ranking::indices(c@);
    let mut out: Vec<SemanticEdge> = Vec::new();
    let mut i: usize = 0;
    while i < c.len()
        invariant
            i <= c@.len(),
            cs == ranking::indices(c@),
            cs == chosen(near@, id@, namespace@, threshold, cap as int),
            out@.len() == 2 * i,
            forall|k: int| 0 <= k < 2 * i ==> #[trigger] out@[k]@ == both_ways(near@, id@, cs)[k],
        decreases c@.len() - i,
    {
        proof {
            law_ties_are_sound(near@, id@, namespace@, threshold, cap as int, i as int);
            assert(cs[i as int] == c@[i as int]);
        }
        let n = c[i];
        out.push(SemanticEdge { source: id.to_string(), target: near[n].id.clone(), near: n });
        out.push(SemanticEdge { source: near[n].id.clone(), target: id.to_string(), near: n });
        i += 1;
    }
    assert(edges(out@) =~= both_ways(near@, id@, cs));
    Some(out)
}

/// Relations by meaning go both ways, with the same weight.
pub proof fn law_ties_go_both_ways(near: Seq<Near>, id: Seq<char>, c: Seq<int>, i: int)
    requires
        0 <= i < both_ways(near, id, c).len(),
    ensures
        both_ways(near, id, c).contains(
            (
                both_ways(near, id, c)[i].1,
                both_ways(near, id, c)[i].0,
                both_ways(near, id, c)[i].2,
            ),
        ),
{
    let j = if i % 2 == 0 {
        i + 1
    } else {
        i - 1
    };
    assert(j / 2 == i / 2);
    assert(both_ways(near, id, c)[j] == (
        both_ways(near, id, c)[i].1,
        both_ways(near, id, c)[i].0,
        both_ways(near, id, c)[i].2,
    ));
}

/// A memory is never tied to itself, to one of another namespace, or to one that
/// is not similar enough; and to no more than the cap.
pub proof fn law_ties_are_sound(
    near: Seq<Near>,
    id: Seq<char>,
    namespace: Seq<char>,
    threshold: i64,
    cap: int,
    i: int,
)
    requires
        0 <= cap,
        0 <= i < chosen(near, id, namespace, threshold, cap).len(),
    ensures
        0 <= chosen(near, id, namespace, threshold, cap)[i] < near.len(),
        tied(near[chosen(near, id, namespace, threshold, cap)[i]], id, namespace, threshold),
        chosen(near, id, namespace, threshold, cap).len() <= cap,
{
    let c = candidates(near, id, namespace, threshold, near.len() as int);
    lemma_candidates(near, id, namespace, threshold, near.len() as int);
    let keys = similarities(near, c);
    ranking::law_ranking_is_right(keys, c.len() as int);
    let order = ranking::ranked(keys, c.len() as int);
    assert(0 <= order[i] < c.len());
    assert(tied(near[c[order[i]]], id, namespace, threshold));
}

proof fn lemma_candidates_cover(
    near: Seq<Near>,
    id: Seq<char>,
    namespace: Seq<char>,
    threshold: i64,
    n: int,
)
    requires
        0 <= n <= near.len(),
    ensures
        forall|p: int|
            0 <= p < n && tied(#[trigger] near[p], id, namespace, threshold) ==> candidates(
                near,
                id,
                namespace,
                threshold,
                n,
            ).contains(p),
        forall|a: int, b: int|
            0 <= a < b < candidates(near, id, namespace, threshold, n).len() ==> #[trigger] candidates(
                near,
                id,
                namespace,
                threshold,
                n,
            )[a] < #[trigger] candidates(near, id, namespace, threshold, n)[b],
        forall|k: int|
            0 <= k < candidates(near, id, namespace, threshold, n).len() ==> 0 <= #[trigger] candidates(
                near,
                id,
                namespace,
                threshold,
                n,
            )[k] < n,
    decreases n,
{
    if n > 0 {
        lemma_candidates_cover(near, id, namespace, threshold, n - 1);
        let p = candidates(near, id, namespace, threshold, n - 1);
        let r = candidates(near, id, namespace, threshold, n);
        assert forall|q: int| 0 <= q < n && tied(#[trigger] near[q], id, namespace, threshold) implies r.contains(
            q,
        ) by {
            if q < n - 1 {
                assert(p.contains(q));
                let k = choose|k: int| 0 <= k < p.len() && p[k] == q;
                assert(r[k] == q);
            } else {
                assert(r[r.len() - 1] == q);
            }
        }
    }
}

/// The strongest ties are kept: the most similar neighbour comes first, none is named twice,
/// and one that could be tied is left out only where the cap is reached by such as are at
/// least as similar.
pub proof fn law_strongest_ties_are_kept(
    near: Seq<Near>,
    id: Seq<char>,
    namespace: Seq<char>,
    threshold: i64,
    cap: nat,
)
    ensures
        forall|a: int, b: int|
            0 <= a < b < chosen(near, id, namespace, threshold, cap as int).len() ==> {
                let x = #[trigger] chosen(near, id, namespace, threshold, cap as int)[a];
                let y = #[trigger] chosen(near, id, namespace, threshold, cap as int)[b];
                x != y && near[x].similarity >= near[y].similarity
            },
        forall|p: int|
            0 <= p < near.len() && near[p].id@ != id && text::opt_text(near[p].namespace) == Some(
                namespace,
            ) && near[p].similarity >= threshold ==> chosen(
                near,
                id,
                namespace,
                threshold,
                cap as int,
            ).contains(p) || (chosen(near, id, namespace, threshold, cap as int).len() == cap
                && forall|k: int|
                0 <= k < cap ==> near[#[trigger] chosen(
                    near,
                    id,
                    namespace,
                    threshold,
                    cap as int,
                )[k]].similarity >= (#[trigger] near[p]).similarity),
{
    let n = near.len() as int;
    let c = candidates(near, id, namespace, threshold, n);
    let keys = similarities(near, c);
    let order = ranking::ranked(keys, c.len() as int);
    let r = chosen(near, id, namespace, threshold, cap as int);
    lemma_candidates_cover(near, id, namespace, threshold, n);
    ranking::law_ranking_is_right(keys, c.len() as int);
    assert forall|a: int, b: int| 0 <= a < b < r.len() implies {
        let x = #[trigger] r[a];
        let y = #[trigger] r[b];
        x != y && near[x].similarity >= near[y].similarity
    } by {
        assert(ranking::ahead(keys, order[a], order[b]));
        if order[a] < order[b] {
            assert(c[order[a]] < c[order[b]]);
        } else {
            assert(c[order[b]] < c[order[a]]);
        }
    }
    assert forall|p: int|
        0 <= p < near.len() && near[p].id@ != id && text::opt_text(near[p].namespace) == Some(namespace)
            && near[p].similarity >= threshold implies r.contains(p) || (r.len() == cap && forall|k: int|
        0 <= k < cap ==> near[#[trigger] r[k]].similarity >= (#[trigger] near[p]).similarity) by {
        assert(tied(near[p], id, namespace, threshold));
        assert(c.contains(p));
        let q = choose|q: int| 0 <= q < c.len() && c[q] == p;
        assert(order.contains(q));
        let m = choose|m: int| 0 <= m < order.len() && order[m] == q;
        if m < r.len() {
            assert(r[m] == p);
        } else {
            assert forall|k: int| 0 <= k < cap implies near[#[trigger] r[k]].similarity
                >= near[p].similarity by {
                assert(ranking::ahead(keys, order[k], order[m]));
            }
        }
    }
}

/// Each tie leads from the memory to the neighbour, and another one back.
pub proof fn law_ties_join_the_memory_and_its_neighbours(near: Seq<Near>, id: Seq<char>, c: Seq<int>, k: int)
    requires
        0 <= k < c.len(),
    ensures
        both_ways(near, id, c).len() == 2 * c.len(),
        both_ways(near, id, c)[2 * k] == (id, near[c[k]].id@, c[k]),
        both_ways(near, id, c)[2 * k + 1] == (near[c[k]].id@, id, c[k]),
{
    assert((2 * k) / 2 == k && (2 * k + 1) / 2 == k && (2 * k) % 2 == 0 && (2 * k + 1) % 2 == 1);
}

/// An edge says where it leads from and where to.
pub proof fn law_edges_hold_their_ends(e: SemanticEdge)
    ensures
        e@.0 == e.source@,
        e@.1 == e.target@,
        e@.2 == e.near,
{
}

} // verus!
