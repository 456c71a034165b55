//! A small table with texts as keys.
use vstd::prelude::*;
use crate::text;

verus! {

/// A table from texts to values. No key occurs twice.
#[derive(Debug)]
pub struct Table<V> {
    pub entries: Vec<(String, V)>,
}

/// The key stands in the entry number `i`.
pub open spec fn stands<V>(entries: Seq<(String, V)>, key: Seq<char>, i: int) -> bool {
    0 <= i < entries.len() && entries[i].0@ == key
}

/// What the entries hold: the value beside each key.
pub open spec fn held<V>(entries: Seq<(String, V)>) -> Map<Seq<char>, V> {
    Map::new(
        |k: Seq<char>| exists|i: int| #[trigger] stands(entries, k, i),
        |k: Seq<char>| entries[choose|i: int| #[trigger] stands(entries, k, i)].1,
    )
}

/// No key occurs twice.
pub open spec fn distinct<V>(entries: Seq<(String, V)>) -> bool {
    forall|i: int, j: int|
        0 <= i < j < entries.len() ==> (#[trigger] entries[i]).0@ != (#[trigger] entries[j]).0@
}

pub proof fn lemma_held<V>(entries: Seq<(String, V)>, i: int)
    requires
        distinct(entries),
        0 <= i < entries.len(),
    ensures
        held(entries).contains_key(entries[i].0@),
        held(entries)[entries[i].0@] == entries[i].1,
{
    let k = entries[i].0@;
    assert(stands(entries, k, i));
    let j = choose|j: int| #[trigger] stands(entries, k, j);
    assert(stands(entries, k, j));
    if i < j {
        assert(entries[i].0@ != entries[j].0@);
    } else if j < i {
        assert(entries[j].0@ != entries[i].0@);
    }
}

impl<V> Table<V> {
    pub open spec fn view(&self) -> Map<Seq<char>, V> {
        held(self.entries@)
    }

    pub open spec fn wf(&self) -> bool {
        distinct(self.entries@)
    }

    /// An empty table.
    pub fn new() -> (r: Self)
        ensures
            r.wf(),
            r@ == Map::<Seq<char>, V>::empty(),
    {
        let r = Table { entries: Vec::new() };
        assert(r@ =~= Map::<Seq<char>, V>::empty());
        r
    }

    fn find(&self, key: &str) -> (r: Option<usize>)
        requires
            self.wf(),
        ensures
            match r {
                Some(i) => i < self.entries@.len() && self.entries@[i as int].0@ == key@,
                None => !self@.contains_key(key@),
            },
    {
        let mut i: usize = 0;
        while i < self.entries.len()
            invariant
                i <= self.entries@.len(),
                forall|k: int| 0 <= k < i ==> (#[trigger] self.entries@[k]).0@ != key@,
            decreases self.entries@.len() - i,
        {
            if text::same(self.entries[i].0.as_str(), key) {
                return Some(i);
            }
            i += 1;
        }
        None
    }

    /// Puts a value beside a key, in place of the one that stood there.
    pub fn put(&mut self, key: &str, value: V)
        requires
            old(self).wf(),
        ensures
            final(self).wf(),
            final(self)@ == old(self)@.insert(key@, value),
    {
        let ghost before = self.entries@;
        match self.find(key) {
            Some(i) => {
                self.entries.set(i, (key.to_string(), value));
                let ghost after = self.entries@;
                proof {
                    assert(distinct(after)) by {
                        assert forall|a: int, b: int|
                            0 <= a < b < after.len() implies (#[trigger] after[a]).0@ != (
                        #[trigger] after[b]).0@ by {
                            assert(before[a].0@ != before[b].0@);
                        }
                    }
                    assert forall|k: Seq<char>|
                        held(after).contains_key(k) == held(before).insert(
                            key@,
                            value,
                        ).contains_key(k) by {
                        if held(after).contains_key(k) {
                            let j = choose|j: int| #[trigger] stands(after, k, j);
                            assert(stands(before, k, j));
                        }
                        if held(before).contains_key(k) {
                            let j = choose|j: int| #[trigger] stands(before, k, j);
                            assert(stands(after, k, j));
                        }
                        assert(stands(after, key@, i as int));
                    }
                    assert forall|k: Seq<char>| held(after).contains_key(k) implies held(after)[k]
                        == held(before).insert(key@, value)[k] by {
                        let j = choose|j: int| #[trigger] stands(after, k, j);
                        lemma_held(after, j);
                        if j != i {
                            lemma_held(before, j);
                            assert(after[j].0@ != after[i as int].0@);
                        }
                    }
                    assert(held(after) =~= held(before).insert(key@, value));
                }
            },
            None => {
                self.entries.push((key.to_string(), value));
                let ghost after = self.entries@;
                let ghost n = before.len() as int;
                proof {
                    assert(distinct(after)) by {
                        assert forall|a: int, b: int|
                            0 <= a < b < after.len() implies (#[trigger] after[a]).0@ != (
                        #[trigger] after[b]).0@ by {
                            if b == n {
                                if after[a].0@ == key@ {
                                    assert(stands(before, key@, a));
                                }
                            } else {
                                assert(before[a].0@ != before[b].0@);
                            }
                        }
                    }
                    assert forall|k: Seq<char>|
                        held(after).contains_key(k) == held(before).insert(
                            key@,
                            value,
                        ).contains_key(k) by {
                        if held(after).contains_key(k) {
                            let j = choose|j: int| #[trigger] stands(after, k, j);
                            if j < n {
                                assert(stands(before, k, j));
                            }
                        }
                        if held(before).contains_key(k) {
                            let j = choose|j: int| #[trigger] stands(before, k, j);
                            assert(stands(after, k, j));
                        }
                        assert(stands(after, key@, n));
                    }
                    assert forall|k: Seq<char>| held(after).contains_key(k) implies held(after)[k]
                        == held(before).insert(key@, value)[k] by {
                        let j = choose|j: int| #[trigger] stands(after, k, j);
                        lemma_held(after, j);
                        if j < n {
                            lemma_held(before, j);
                            assert(stands(before, k, j));
                        }
                    }
                    assert(held(after) =~= held(before).insert(key@, value));
                }
            },
        }
    }
}

impl<V: Copy> Table<V> {
    /// The value beside a key.
    pub fn get(&self, key: &str) -> (r: Option<V>)
        requires
            self.wf(),
        ensures
            r == (if self@.contains_key(key@) {
                Some(self@[key@])
            } else {
                None
            }),
    {
        match self.find(key) {
            Some(i) => {
                proof {
                    lemma_held(self.entries@, i as int);
                }
                Some(self.entries[i].1)
            },
            None => None,
        }
    }

    /// Keeps the entries that `keep` marks. It has a mark for each of them.
    pub fn select(&mut self, keep: &Vec<bool>)
        requires
            old(self).wf(),
            keep@.len() == old(self).entries@.len(),
        ensures
            final(self).wf(),
            forall|k: Seq<char>| #[trigger]
                final(self)@.contains_key(k) <==> exists|i: int| #[trigger]
                    stands(old(self).entries@, k, i) && keep@[i],
            forall|k: Seq<char>| #[trigger]
                final(self)@.contains_key(k) ==> final(self)@[k] == old(self)@[k],
    {
        let ghost all = self.entries@;
        let mut out: Vec<(String, V)> = Vec::new();
        let mut i: usize = 0;
        let ghost mut from: Seq<int> = Seq::empty();
        while i < self.entries.len()
            invariant
                i <= all.len(),
                all == self.entries@,
                distinct(all),
                keep@.len() == all.len(),
                out@.len() == from.len(),
                forall|k: int|
                    0 <= k < from.len() ==> 0 <= #[trigger] from[k] < i && keep@[from[k]]
                        && out@[k].0@ == all[from[k]].0@ && out@[k].1 == all[from[k]].1,
                forall|a: int, b: int|
                    0 <= a < b < from.len() ==> #[trigger] from[a] < #[trigger] from[b],
                forall|j: int|
                    0 <= j < i && #[trigger] keep@[j] ==> exists|k: int|
                        0 <= k < from.len() && #[trigger] from[k] == j,
            decreases all.len() - i,
        {
            if keep[i] {
                out.push((self.entries[i].0.clone(), self.entries[i].1));
                let ghost from0 = from;
                proof {
                    from = from.push(i as int);
                    assert forall|j: int| 0 <= j < i + 1 && #[trigger] keep@[j] implies exists|k: int|
                        0 <= k < from.len() && #[trigger] from[k] == j by {
                        if j < i {
                            let k = choose|k: int| 0 <= k < from0.len() && #[trigger] from0[k] == j;
                            assert(from[k] == j);
                        } else {
                            assert(from[from0.len() as int] == j);
                        }
                    }
                }
            }
            i += 1;
        }
        proof {
            assert(distinct(out@)) by {
                assert forall|a: int, b: int| 0 <= a < b < out@.len() implies (#[trigger] out@[a]).0@
                    != (#[trigger] out@[b]).0@ by {
                    assert(from[a] < from[b]);
                    assert(all[from[a]].0@ != all[from[b]].0@);
                }
            }
            assert forall|k: Seq<char>| #[trigger] held(out@).contains_key(k) implies held(out@)[k]
                == held(all)[k] && exists|j: int| #[trigger] stands(all, k, j) && keep@[j] by {
                let a = choose|a: int| #[trigger] stands(out@, k, a);
                lemma_held(out@, a);
                lemma_held(all, from[a]);
                assert(stands(all, k, from[a]));
            }
            assert forall|k: Seq<char>, j: int|
                #[trigger] stands(all, k, j) && keep@[j] implies held(out@).contains_key(k) by {
                let a = choose|a: int| 0 <= a < from.len() && #[trigger] from[a] == j;
                assert(stands(out@, k, a));
            }
        }
        self.entries = out;
    }
}

} // verus!
