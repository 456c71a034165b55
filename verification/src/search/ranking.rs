//! Putting things in order: by their scores, by their names, and each once.
use vstd::prelude::*;
use crate::text;

verus! {

/// The order with the index `i` in its place: behind all whose key is not smaller.
pub open spec fn placed(order: Seq<int>, keys: Seq<i64>, i: int) -> Seq<int>
    decreases order.len(),
{
    if order.len() == 0 || keys[order.last()] >= keys[i] {
        order.push(i)
    } else {
        placed(order.drop_last(), keys, i).push(order.last())
    }
}

/// The first `n` indices by their keys, the largest first; those with the same key
/// stay in their order.
pub open spec fn ranked(keys: Seq<i64>, n: int) -> Seq<int>
    decreases n,
{
    if n <= 0 {
        Seq::empty()
    } else {
        placed(ranked(keys, n - 1), keys, n - 1)
    }
}

/// `a` stands before `b`: its key is larger, or it is the same and `a` came first.
pub open spec fn ahead(keys: Seq<i64>, a: int, b: int) -> bool {
    keys[a] > keys[b] || (keys[a] == keys[b] && a < b)
}

/// Each of the first `n` indices occurs once, and each stands before those that
/// follow.
pub open spec fn is_ranking(order: Seq<int>, keys: Seq<i64>, n: int) -> bool {
    &&& order.len() == n
    &&& forall|k: int| 0 <= k < n ==> 0 <= #[trigger] order[k] < n
    &&& forall|k: int| 0 <= k < n ==> #[trigger] order.contains(k)
    &&& forall|a: int, b: int|
        0 <= a < b < n ==> ahead(keys, #[trigger] order[a], #[trigger] order[b])
}

proof fn lemma_placed(order: Seq<int>, keys: Seq<i64>, i: int)
    requires
        0 <= i,
        forall|a: int, b: int|
            0 <= a < b < order.len() ==> ahead(keys, #[trigger] order[a], #[trigger] order[b]),
        forall|k: int| 0 <= k < order.len() ==> 0 <= #[trigger] order[k] < i,
    ensures
        placed(order, keys, i).len() == order.len() + 1,
        forall|a: int, b: int|
            0 <= a < b <= order.len() ==> ahead(
                keys,
                #[trigger] placed(order, keys, i)[a],
                #[trigger] placed(order, keys, i)[b],
            ),
        forall|k: int| 0 <= k <= order.len() ==> 0 <= #[trigger] placed(order, keys, i)[k] <= i,
        forall|x: int| #[trigger]
            placed(order, keys, i).contains(x) <==> order.contains(x) || x == i,
    decreases order.len(),
{
    let r = placed(order, keys, i);
    if order.len() == 0 || keys[order.last()] >= keys[i] {
        assert forall|a: int, b: int| 0 <= a < b <= order.len() implies ahead(
            keys,
            #[trigger] r[a],
            #[trigger] r[b],
        ) by {
            if b == order.len() && a < order.len() - 1 {
                assert(ahead(keys, order[a], order[order.len() - 1]));
            }
        }
        assert forall|x: int| #[trigger] r.contains(x) <==> order.contains(x) || x == i by {
            if r.contains(x) {
                let k = choose|k: int| 0 <= k < r.len() && r[k] == x;
                if k < order.len() {
                    assert(order[k] == x);
                }
            }
            if order.contains(x) {
                let k = choose|k: int| 0 <= k < order.len() && order[k] == x;
                assert(r[k] == x);
            }
            assert(r[order.len() as int] == i);
        }
    } else {
        let p = order.drop_last();
        lemma_placed(p, keys, i);
        let q = placed(p, keys, i);
        let last = order.last();
        assert forall|a: int, b: int| 0 <= a < b <= order.len() implies ahead(
            keys,
            #[trigger] r[a],
            #[trigger] r[b],
        ) by {
            if b == order.len() {
                assert(q.contains(q[a]));
                if p.contains(q[a]) {
                    let k = choose|k: int| 0 <= k < p.len() && p[k] == q[a];
                    assert(ahead(keys, order[k], order[order.len() - 1]));
                }
            } else {
                assert(r[a] == q[a] && r[b] == q[b]);
            }
        }
        assert forall|k: int| 0 <= k <= order.len() implies 0 <= #[trigger] r[k] <= i by {
            if k < order.len() {
                assert(r[k] == q[k]);
            } else {
                assert(order[order.len() - 1] == last);
            }
        }
        assert forall|x: int| #[trigger] r.contains(x) <==> order.contains(x) || x == i by {
            if r.contains(x) {
                let k = choose|k: int| 0 <= k < r.len() && r[k] == x;
                if k < q.len() {
                    assert(q.contains(x));
                    if p.contains(x) {
                        let m = choose|m: int| 0 <= m < p.len() && p[m] == x;
                        assert(order[m] == x);
                    }
                } else {
                    assert(order[order.len() - 1] == x);
                }
            }
            if order.contains(x) || x == i {
                if x == last && x != i {
                    assert(r[q.len() as int] == x);
                } else {
                    if order.contains(x) && x != i {
                        let m = choose|m: int| 0 <= m < order.len() && order[m] == x;
                        assert(p[m] == x);
                    }
                    assert(q.contains(x));
                    let k = choose|k: int| 0 <= k < q.len() && q[k] == x;
                    assert(r[k] == x);
                }
            }
        }
    }
}

/// Ranking puts each thing once, the largest key first, and keeps the order of
/// those with the same key.
pub proof fn law_ranking_is_right(keys: Seq<i64>, n: int)
    requires
        0 <= n <= keys.len(),
    ensures
        is_ranking(ranked(keys, n), keys, n),
    decreases n,
{
    if n > 0 {
        law_ranking_is_right(keys, n - 1);
        lemma_placed(ranked(keys, n - 1), keys, n - 1);
        let r = ranked(keys, n);
        assert forall|k: int| 0 <= k < n implies #[trigger] r.contains(k) by {
            if k < n - 1 {
                assert(ranked(keys, n - 1).contains(k));
            }
        }
    }
}

/// The indices as mathematical integers.
pub open spec fn indices(v: Seq<usize>) -> Seq<int> {
    Seq::new(v.len(), |i: int| v[i] as int)
}

fn place(order: &mut Vec<usize>, keys: &Vec<i64>, i: usize)
    requires
        i < keys@.len(),
        forall|k: int| 0 <= k < old(order)@.len() ==> #[trigger] old(order)@[k] < i,
    ensures
        indices(final(order)@) == placed(indices(old(order)@), keys@, i as int),
        forall|k: int| 0 <= k < final(order)@.len() ==> #[trigger] final(order)@[k] <= i,
{
    let ghost all = order@;
    let ghost idx = indices(all);
    let mut p: usize = order.len();
    assert(idx.take(p as int) =~= idx);
    assert(idx.skip(p as int) =~= Seq::empty());
    assert(placed(idx, keys@, i as int) =~= placed(idx.take(p as int), keys@, i as int)
        + idx.skip(p as int));
    while p > 0 && keys[order[p - 1]] < keys[i]
        invariant
            p <= order@.len(),
            order@ == all,
            idx == indices(all),
            i < keys@.len(),
            forall|k: int| 0 <= k < all.len() ==> #[trigger] all[k] < i,
            placed(idx, keys@, i as int) == placed(idx.take(p as int), keys@, i as int)
                + idx.skip(p as int),
        decreases p,
    {
        let ghost t = idx.take(p as int);
        assert(t.drop_last() =~= idx.take(p - 1));
        assert(t.last() == all[p - 1] as int);
        assert(placed(t, keys@, i as int) == placed(t.drop_last(), keys@, i as int).push(t.last()));
        assert(placed(t.drop_last(), keys@, i as int).push(t.last()) + idx.skip(p as int)
            =~= placed(idx.take(p - 1), keys@, i as int) + idx.skip(p - 1));
        p -= 1;
    }
    order.insert(p, i);
    proof {
        let t = idx.take(p as int);
        if p > 0 {
            assert(t.last() == all[p - 1] as int);
        }
        assert(placed(t, keys@, i as int) == t.push(i as int));
        assert(indices(order@) =~= t.push(i as int) + idx.skip(p as int));
    }
}

/// Ranks things by their keys, the largest first.
pub fn rank(keys: &Vec<i64>) -> (r: Vec<usize>)
    ensures
        indices(r@) == ranked(keys@, keys@.len() as int),
        is_ranking(indices(r@), keys@, keys@.len() as int),
{
    let mut order: Vec<usize> = Vec::new();
    let mut i: usize = 0;
    assert(indices(order@) =~= Seq::empty());
    while i < keys.len()
        invariant
            i <= keys@.len(),
            indices(order@) == ranked(keys@, i as int),
            forall|k: int| 0 <= k < order@.len() ==> #[trigger] order@[k] < i,
        decreases keys@.len() - i,
    {
        place(&mut order, keys, i);
        i += 1;
    }
    proof {
        law_ranking_is_right(keys@, keys@.len() as int);
    }
    order
}

/// The text stands among the first `n` of a list.
pub open spec fn occurs_before(l: Seq<Seq<char>>, s: Seq<char>, n: int) -> bool {
    exists|k: int| 0 <= k < n && k < l.len() && #[trigger] l[k] == s
}

/// The indices of the first `n` texts of a list that occur for the first time.
pub open spec fn firsts(l: Seq<Seq<char>>, n: int) -> Seq<int>
    decreases n,
{
    if n <= 0 {
        Seq::empty()
    } else if occurs_before(l, l[n - 1], n - 1) {
        firsts(l, n - 1)
    } else {
        firsts(l, n - 1).push(n - 1)
    }
}

fn stands_before(l: &Vec<String>, n: usize, s: &str) -> (r: bool)
    requires
        n <= l@.len(),
    ensures
        r == occurs_before(text::texts(l@), s@, n as int),
{
    let ghost t = text::texts(l@);
    let mut k: usize = 0;
    while k < n
        invariant
            k <= n <= l@.len(),
            t == text::texts(l@),
            forall|j: int| 0 <= j < k ==> #[trigger] t[j] != s@,
        decreases n - k,
    {
        if text::same(l[k].as_str(), s) {
            assert(t[k as int] == s@);
            return true;
        }
        k += 1;
    }
    false
}

/// The indices of the texts that occur for the first time.
pub fn first_occurrences(l: &Vec<String>) -> (r: Vec<usize>)
    ensures
        indices(r@) == firsts(text::texts(l@), l@.len() as int),
        forall|k: int| 0 <= k < r@.len() ==> #[trigger] r@[k] < l@.len(),
{
    let ghost t = text::texts(l@);
    let mut out: Vec<usize> = Vec::new();
    let mut i: usize = 0;
    assert(indices(out@) =~= Seq::empty());
    while i < l.len()
        invariant
            i <= l@.len(),
            t == text::texts(l@),
            indices(out@) == firsts(t, i as int),
            forall|k: int| 0 <= k < out@.len() ==> #[trigger] out@[k] < i,
        decreases l@.len() - i,
    {
        let ghost before = out@;
        assert(t[i as int] == l@[i as int]@);
        if !stands_before(l, i, l[i].as_str()) {
            out.push(i);
            assert(indices(out@) =~= indices(before).push(i as int));
        }
        i += 1;
    }
    out
}

/// The text stands at one of the indices.
pub open spec fn shown(l: Seq<Seq<char>>, order: Seq<int>, s: Seq<char>) -> bool {
    exists|k: int| 0 <= k < order.len() && l[#[trigger] order[k]] == s
}

/// Every text of a list stands among those that occur for the first time, and
/// there only once; these stay in their order, and none of them stands further ahead.
pub proof fn law_firsts_cover(l: Seq<Seq<char>>, n: int)
    requires
        0 <= n <= l.len(),
    ensures
        forall|i: int| 0 <= i < n ==> shown(l, firsts(l, n), #[trigger] l[i]),
        forall|k: int| 0 <= k < firsts(l, n).len() ==> 0 <= #[trigger] firsts(l, n)[k] < n,
        forall|a: int, b: int|
            0 <= a < b < firsts(l, n).len() ==> #[trigger] firsts(l, n)[a] < #[trigger] firsts(
                l,
                n,
            )[b] && l[firsts(l, n)[a]] != l[firsts(l, n)[b]],
        forall|k: int, i: int|
            0 <= k < firsts(l, n).len() && 0 <= i < firsts(l, n)[k] ==> #[trigger] l[i]
                != l[#[trigger] firsts(l, n)[k]],
    decreases n,
{
    if n > 0 {
        law_firsts_cover(l, n - 1);
        let p = firsts(l, n - 1);
        let r = firsts(l, n);
        let s = l[n - 1];
        if occurs_before(l, s, n - 1) {
            let j = choose|j: int| 0 <= j < n - 1 && j < l.len() && #[trigger] l[j] == s;
            assert(shown(l, p, l[j]));
        } else {
            assert forall|i: int| 0 <= i < n implies shown(l, r, #[trigger] l[i]) by {
                if i == n - 1 {
                    assert(r[p.len() as int] == n - 1);
                } else {
                    assert(shown(l, p, l[i]));
                    let k = choose|k: int| 0 <= k < p.len() && l[#[trigger] p[k]] == l[i];
                    assert(r[k] == p[k]);
                }
            }
            assert forall|k: int, i: int| 0 <= k < r.len() && 0 <= i < r[k] implies #[trigger] l[i]
                != l[#[trigger] r[k]] by {
                if k < p.len() {
                    assert(r[k] == p[k]);
                } else if l[i] == s {
                    assert(occurs_before(l, s, n - 1));
                }
            }
            assert forall|a: int, b: int| 0 <= a < b < r.len() implies #[trigger] r[a]
                < #[trigger] r[b] && l[r[a]] != l[r[b]] by {
                assert(r[a] == p[a]);
                if b == p.len() {
                    if l[p[a]] == s {
                        assert(occurs_before(l, s, n - 1));
                    }
                } else {
                    assert(r[b] == p[b]);
                }
            }
        }
    }
}

/// A sorted list with one more text in its place.
pub open spec fn filed(l: Seq<Seq<char>>, s: Seq<char>) -> Seq<Seq<char>>
    decreases l.len(),
{
    if l.len() == 0 || text::sorted_le(l.last(), s) {
        l.push(s)
    } else {
        filed(l.drop_last(), s).push(l.last())
    }
}

/// The texts of a list in their order.
pub open spec fn alphabetical(l: Seq<Seq<char>>) -> Seq<Seq<char>>
    decreases l.len(),
{
    if l.len() == 0 {
        Seq::empty()
    } else {
        filed(alphabetical(l.drop_last()), l.last())
    }
}

/// The texts stand in their order.
pub open spec fn in_alphabet(l: Seq<Seq<char>>) -> bool {
    forall|a: int, b: int|
        0 <= a < b < l.len() ==> text::sorted_le(#[trigger] l[a], #[trigger] l[b])
}

proof fn lemma_filed(l: Seq<Seq<char>>, s: Seq<char>)
    requires
        in_alphabet(l),
    ensures
        in_alphabet(filed(l, s)),
        filed(l, s).to_multiset() == l.to_multiset().insert(s),
        forall|x: Seq<char>| #[trigger] filed(l, s).contains(x) ==> l.contains(x) || x == s,
    decreases l.len(),
{
    broadcast use vstd::seq_lib::group_to_multiset_ensures;

    let r = filed(l, s);
    if l.len() == 0 || text::sorted_le(l.last(), s) {
        assert forall|a: int, b: int| 0 <= a < b < r.len() implies text::sorted_le(
            #[trigger] r[a],
            #[trigger] r[b],
        ) by {
            if b == l.len() && a < l.len() - 1 {
                assert(text::sorted_le(l[a], l[l.len() - 1]));
                text::law_order_is_transitive(l[a], l.last(), s);
            }
        }
    } else {
        let p = l.drop_last();
        lemma_filed(p, s);
        let q = filed(p, s);
        assert(l =~= p.push(l.last()));
        assert(r.to_multiset() =~= l.to_multiset().insert(s));
        assert forall|a: int, b: int| 0 <= a < b < r.len() implies text::sorted_le(
            #[trigger] r[a],
            #[trigger] r[b],
        ) by {
            if b == q.len() {
                assert(q.contains(q[a]));
                if p.contains(q[a]) {
                    let k = choose|k: int| 0 <= k < p.len() && p[k] == q[a];
                    assert(text::sorted_le(l[k], l[l.len() - 1]));
                } else {
                    text::law_order_is_total(l.last(), s);
                }
            } else {
                assert(r[a] == q[a] && r[b] == q[b]);
            }
        }
        assert forall|x: Seq<char>| #[trigger] r.contains(x) implies l.contains(x) || x == s by {
            let k = choose|k: int| 0 <= k < r.len() && r[k] == x;
            if k < q.len() {
                assert(q.contains(q[k]));
                if p.contains(x) {
                    let m = choose|m: int| 0 <= m < p.len() && p[m] == x;
                    assert(l[m] == x);
                }
            } else {
                assert(l[l.len() - 1] == x);
            }
        }
    }
}

/// Sorting texts sorts them, and neither loses nor makes one.
pub proof fn law_alphabetical_sorts(l: Seq<Seq<char>>)
    ensures
        in_alphabet(alphabetical(l)),
        alphabetical(l).to_multiset() == l.to_multiset(),
    decreases l.len(),
{
    broadcast use vstd::seq_lib::group_to_multiset_ensures;

    if l.len() > 0 {
        law_alphabetical_sorts(l.drop_last());
        lemma_filed(alphabetical(l.drop_last()), l.last());
        assert(l =~= l.drop_last().push(l.last()));
    }
}

fn file(l: &mut Vec<String>, s: String)
    ensures
        text::texts(final(l)@) == filed(text::texts(old(l)@), s@),
{
    let ghost all = l@;
    let ghost t = text::texts(all);
    let mut p: usize = l.len();
    assert(t.take(p as int) =~= t);
    assert(filed(t, s@) =~= filed(t.take(p as int), s@) + t.skip(p as int));
    while p > 0 && !text::text_le(l[p - 1].as_str(), s.as_str())
        invariant
            p <= l@.len(),
            l@ == all,
            t == text::texts(all),
            filed(t, s@) == filed(t.take(p as int), s@) + t.skip(p as int),
        decreases p,
    {
        let ghost u = t.take(p as int);
        assert(u.drop_last() =~= t.take(p - 1));
        assert(u.last() == all[p - 1]@);
        assert(filed(u, s@) == filed(u.drop_last(), s@).push(u.last()));
        assert(filed(u.drop_last(), s@).push(u.last()) + t.skip(p as int) =~= filed(
            t.take(p - 1),
            s@,
        ) + t.skip(p - 1));
        p -= 1;
    }
    l.insert(p, s);
    proof {
        let u = t.take(p as int);
        if p > 0 {
            assert(u.last() == all[p - 1]@);
        }
        assert(filed(u, s@) == u.push(s@));
        assert(text::texts(l@) =~= u.push(s@) + t.skip(p as int));
    }
}

/// Sorts texts.
pub fn sort_texts(l: &Vec<String>) -> (r: Vec<String>)
    ensures
        text::texts(r@) == alphabetical(text::texts(l@)),
{
    let ghost t = text::texts(l@);
    let mut out: Vec<String> = Vec::new();
    let mut i: usize = 0;
    assert(text::texts(out@) =~= alphabetical(t.take(0)));
    while i < l.len()
        invariant
            i <= l@.len(),
            t == text::texts(l@),
            text::texts(out@) == alphabetical(t.take(i as int)),
        decreases l@.len() - i,
    {
        assert(t.take(i + 1).drop_last() =~= t.take(i as int));
        assert(t.take(i + 1).last() == l@[i as int]@);
        file(&mut out, l[i].clone());
        i += 1;
    }
    assert(t.take(t.len() as int) =~= t);
    out
}

} // verus!
