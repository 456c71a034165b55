//! Searching by words: the pattern for texts that the word index does not split,
//! and joining what both searches find.
use vstd::prelude::*;
use crate::search::ranking;
use crate::text;

verus! {

/// A Chinese character.
pub open spec fn cjk(c: char) -> bool {
    '\u{4e00}' <= c <= '\u{9fff}'
}

/// There is a Chinese character in the text.
pub open spec fn holds_cjk(s: Seq<char>) -> bool {
    exists|i: int| 0 <= i < s.len() && cjk(#[trigger] s[i])
}

/// Tells whether there is a Chinese character in a text.
pub fn has_cjk(s: &str) -> (r: bool)
    ensures
        r == holds_cjk(s@),
{
    let v = text::chars_of(s);
    let mut i: usize = 0;
    while i < v.len()
        invariant
            i <= v@.len(),
            v@ == s@,
            forall|k: int| 0 <= k < i ==> !cjk(#[trigger] s@[k]),
        decreases v@.len() - i,
    {
        if '\u{4e00}' <= v[i] && v[i] <= '\u{9fff}' {
            assert(cjk(s@[i as int]));
            return true;
        }
        i += 1;
    }
    false
}

/// A text inside a pattern: a backslash stands before each character that means
/// something there.
pub open spec fn escaped(s: Seq<char>) -> Seq<char>
    decreases s.len(),
{
    if s.len() == 0 {
        Seq::empty()
    } else {
        let p = escaped(s.drop_last());
        let c = s.last();
        if c == '\\' || c == '%' || c == '_' {
            p.push('\\').push(c)
        } else {
            p.push(c)
        }
    }
}

/// Puts a backslash before each character that means something in a pattern.
pub fn escape_like(s: &str) -> (r: String)
    ensures
        r@ == escaped(s@),
{
    let v = text::chars_of(s);
    let mut out = String::new();
    let mut i: usize = 0;
    assert(out@ =~= escaped(v@.take(0)));
    while i < v.len()
        invariant
            i <= v@.len(),
            out@ == escaped(v@.take(i as int)),
        decreases v@.len() - i,
    {
        assert(v@.take(i + 1).drop_last() =~= v@.take(i as int));
        let c = v[i];
        if c == '\\' || c == '%' || c == '_' {
            out.push('\\');
        }
        out.push(c);
        i += 1;
    }
    assert(v@.take(v@.len() as int) =~= v@);
    out
}

/// What a pattern stands for, read back: a backslash takes the meaning from what
/// follows it.
pub open spec fn unescaped(s: Seq<char>, i: int) -> Seq<char>
    decreases s.len() - i,
{
    if i < 0 || i >= s.len() {
        Seq::empty()
    } else if s[i] == '\\' && i + 1 < s.len() {
        seq![s[i + 1]] + unescaped(s, i + 2)
    } else {
        seq![s[i]] + unescaped(s, i + 1)
    }
}

proof fn lemma_unescaped_push(s: Seq<char>, i: int, t: Seq<char>)
    requires
        0 <= i <= escaped(s).len(),
        well_placed(s, i),
    ensures
        unescaped(escaped(s) + t, i) == unescaped(escaped(s), i) + unescaped(
            escaped(s) + t,
            escaped(s).len() as int,
        ),
    decreases escaped(s).len() - i,
{
    let e = escaped(s);
    let all = e + t;
    if i == e.len() {
        assert(unescaped(e, i) =~= Seq::empty());
        assert(Seq::<char>::empty() + unescaped(all, i) =~= unescaped(all, i));
    } else {
        assert(all[i] == e[i]);
        lemma_well_placed(s, i);
        let k = choose|k: int| 0 <= k < s.len() && #[trigger] escaped(s.take(k)).len() == i;
        if e[i] == '\\' {
            lemma_unescaped_push(s, i + 2, t);
            assert(all[i + 1] == e[i + 1]);
            let rest = unescaped(all, e.len() as int);
            assert(seq![e[i + 1]] + (unescaped(e, i + 2) + rest) =~= (seq![e[i + 1]] + unescaped(
                e,
                i + 2,
            )) + rest);
        } else {
            lemma_unescaped_push(s, i + 1, t);
            let rest = unescaped(all, e.len() as int);
            assert(seq![e[i]] + (unescaped(e, i + 1) + rest) =~= (seq![e[i]] + unescaped(e, i + 1))
                + rest);
        }
    }
}

/// A character of the text, or its end, is written from position `i` on.
pub open spec fn well_placed(s: Seq<char>, i: int) -> bool {
    exists|k: int| 0 <= k <= s.len() && #[trigger] escaped(s.take(k)).len() == i
}

proof fn lemma_escaped_take(s: Seq<char>, k: int)
    requires
        0 <= k < s.len(),
    ensures
        escaped(s.take(k + 1)) == (if s[k] == '\\' || s[k] == '%' || s[k] == '_' {
            escaped(s.take(k)).push('\\').push(s[k])
        } else {
            escaped(s.take(k)).push(s[k])
        }),
        escaped(s.take(k + 1)).len() <= escaped(s).len(),
        forall|j: int|
            0 <= j < escaped(s.take(k + 1)).len() ==> escaped(s)[j] == #[trigger] escaped(
                s.take(k + 1),
            )[j],
    decreases s.len() - k,
{
    assert(s.take(k + 1).drop_last() =~= s.take(k));
    if k + 1 < s.len() {
        lemma_escaped_take(s, k + 1);
        let a = escaped(s.take(k + 1));
        let b = escaped(s.take(k + 2));
        assert forall|j: int| 0 <= j < a.len() implies escaped(s)[j] == #[trigger] a[j] by {
            assert(b[j] == a[j]);
        }
    } else {
        assert(s.take(k + 1) =~= s);
    }
}

proof fn lemma_well_placed(s: Seq<char>, i: int)
    requires
        well_placed(s, i),
        i < escaped(s).len(),
    ensures
        exists|k: int| 0 <= k < s.len() && #[trigger] escaped(s.take(k)).len() == i,
        escaped(s)[i] == '\\' ==> i + 1 < escaped(s).len() && well_placed(s, i + 2),
        escaped(s)[i] != '\\' ==> well_placed(s, i + 1),
{
    let k = choose|k: int| 0 <= k <= s.len() && #[trigger] escaped(s.take(k)).len() == i;
    if k == s.len() {
        assert(s.take(k) =~= s);
    }
    lemma_escaped_take(s, k);
    let n = escaped(s.take(k + 1));
    if s[k] == '\\' || s[k] == '%' || s[k] == '_' {
        assert(n[i] == '\\');
        assert(n.len() == i + 2);
    } else {
        assert(n[i] == s[k]);
        assert(n.len() == i + 1);
    }
}

/// A pattern finds the text that it was made from, character by character.
pub proof fn law_escaping_is_faithful(s: Seq<char>)
    ensures
        unescaped(escaped(s), 0) == s,
    decreases s.len(),
{
    if s.len() > 0 {
        let p = s.drop_last();
        law_escaping_is_faithful(p);
        let e = escaped(p);
        let c = s.last();
        assert(p.take(0) =~= Seq::empty());
        assert(escaped(p.take(0)).len() == 0);
        assert(well_placed(p, 0));
        if c == '\\' || c == '%' || c == '_' {
            let t = seq!['\\'].push(c);
            assert(escaped(s) =~= e + t);
            lemma_unescaped_push(p, 0, t);
            let all = e + t;
            let n = e.len() as int;
            assert(all[n] == '\\');
            assert(all[n + 1] == c);
            assert(unescaped(all, n + 2) =~= Seq::empty());
            assert(unescaped(all, n) =~= seq![c]);
        } else {
            let t = seq![c];
            assert(escaped(s) =~= e + t);
            lemma_unescaped_push(p, 0, t);
            let all = e + t;
            let n = e.len() as int;
            assert(all[n] == c);
            assert(unescaped(all, n + 1) =~= Seq::empty());
            assert(unescaped(all, n) =~= seq![c]);
        }
        assert(s =~= p + seq![c]);
    }
}

/// What a query looks for as a whole: without the mark for patterns, and cut to 24
/// characters.
pub open spec fn core_of(query: Seq<char>) -> Seq<char> {
    let t = text::trimmed(query);
    let s = match text::without_prefix(t, "[pattern]"@) {
        Some(r) => r,
        None => t,
    };
    text::first_chars(text::trimmed(s), 24)
}

/// The pattern that looks for a query as a whole. Only queries with Chinese
/// characters are looked for in this way.
pub fn like_pattern(query: &str) -> (r: Option<String>)
    ensures
        text::opt_text(r) == (if holds_cjk(query@) && text::trimmed(query@).len() > 0 {
            Some("%"@ + escaped(core_of(query@)) + "%"@)
        } else {
            None
        }),
{
    let t = text::trim(query);
    if !has_cjk(query) || t.as_str().is_empty() {
        return None;
    }
    let s = match text::strip_prefix(t.as_str(), "[pattern]") {
        Some(r) => r,
        None => t,
    };
    let core = text::take_chars(text::trim(s.as_str()).as_str(), 24);
    Some(text::cat3("%", escape_like(core.as_str()).as_str(), "%"))
}

/// The hits of the search for the query as a whole and those for its words, one
/// behind the other.
pub open spec fn both(whole: Seq<Seq<char>>, words: Seq<Seq<char>>) -> Seq<Seq<char>> {
    whole + words
}

/// Joins what both searches found: first the query as a whole, then its words,
/// each memory once. The result holds indices into the two lists, one behind the
/// other.
pub fn keyword_search(whole: &Vec<String>, words: &Vec<String>) -> (r: Vec<usize>)
    ensures
        ranking::indices(r@) == ranking::firsts(
            both(text::texts(whole@), text::texts(words@)),
            (whole@.len() + words@.len()) as int,
        ),
{
    let mut all: Vec<String> = Vec::new();
    let mut i: usize = 0;
    assert(text::texts(all@) =~= text::texts(whole@).take(0));
    while i < whole.len()
        invariant
            i <= whole@.len(),
            text::texts(all@) == text::texts(whole@).take(i as int),
        decreases whole@.len() - i,
    {
        let t = whole[i].clone();
        proof {
            text::lemma_texts_push(all@, t);
            assert(text::texts(whole@).take(i + 1) =~= text::texts(whole@).take(i as int).push(
                t@,
            ));
        }
        all.push(t);
        i += 1;
    }
    assert(text::texts(whole@).take(whole@.len() as int) =~= text::texts(whole@));
    let ghost w = text::texts(whole@);
    let mut k: usize = 0;
    assert(w + text::texts(words@).take(0) =~= w);
    while k < words.len()
        invariant
            k <= words@.len(),
            text::texts(all@) == w + text::texts(words@).take(k as int),
        decreases words@.len() - k,
    {
        let t = words[k].clone();
        proof {
            text::lemma_texts_push(all@, t);
            assert(w + text::texts(words@).take(k + 1) =~= (w + text::texts(words@).take(
                k as int,
            )).push(t@));
        }
        all.push(t);
        k += 1;
    }
    assert(text::texts(words@).take(words@.len() as int) =~= text::texts(words@));
    assert(all@.len() == text::texts(all@).len());
    ranking::first_occurrences(&all)
}

/// Escaping goes character by character, and puts a backslash before the wildcards and
/// before itself only.
pub proof fn law_escaping_goes_by_characters(a: Seq<char>, b: Seq<char>, c: char)
    ensures
        escaped(a + b) == escaped(a) + escaped(b),
        escaped(seq![c]) == if c == '%' || c == '_' || c == '\\' {
            seq!['\\', c]
        } else {
            seq![c]
        },
    decreases b.len(),
{
    assert(seq![c].drop_last() =~= Seq::empty());
    assert(escaped(seq![c].drop_last()) =~= Seq::empty());
    assert(escaped(seq![c]) =~= if c == '%' || c == '_' || c == '\\' {
        seq!['\\', c]
    } else {
        seq![c]
    });
    if b.len() == 0 {
        assert(a + b =~= a);
        assert(escaped(a) + escaped(b) =~= escaped(a));
    } else {
        law_escaping_goes_by_characters(a, b.drop_last(), c);
        assert((a + b).drop_last() =~= a + b.drop_last());
        assert((a + b).last() == b.last());
        assert(escaped(a + b) =~= escaped(a) + escaped(b));
    }
}

/// What a query looks for is the beginning of it, without the blanks round it and without
/// the mark for patterns.
pub proof fn law_queries_are_looked_for_from_their_beginning(query: Seq<char>, rest: Seq<char>)
    ensures
        core_of(query).len() <= 24,
        !text::begins(text::trimmed(query), "[pattern]"@) ==> core_of(query) == text::first_chars(
            text::trimmed(text::trimmed(query)),
            24,
        ),
        text::trimmed(query) == "[pattern]"@ + rest ==> core_of(query) == text::first_chars(
            text::trimmed(rest),
            24,
        ),
{
    if text::trimmed(query) == "[pattern]"@ + rest {
        let t = text::trimmed(query);
        assert(t.subrange(0, "[pattern]"@.len() as int) =~= "[pattern]"@);
        assert(t.skip("[pattern]"@.len() as int) =~= rest);
    }
}

/// A search by words shows every memory that either search found, each once, and those that
/// hold the query as a whole before all others.
pub proof fn law_whole_queries_come_first(whole: Seq<Seq<char>>, words: Seq<Seq<char>>, i: int, a: int, b: int)
    ensures
        ({
            let l = both(whole, words);
            let order = ranking::firsts(l, l.len() as int);
            &&& l.len() == whole.len() + words.len()
            &&& 0 <= i < whole.len() ==> l[i] == whole[i] && ranking::shown(l, order, whole[i])
            &&& 0 <= i < words.len() ==> l[whole.len() + i] == words[i] && ranking::shown(
                l,
                order,
                words[i],
            )
            &&& 0 <= a < b < order.len() ==> l[order[a]] != l[order[b]] && (order[b] < whole.len()
                ==> order[a] < whole.len())
        }),
{
    let l = both(whole, words);
    let order = ranking::firsts(l, l.len() as int);
    ranking::law_firsts_cover(l, l.len() as int);
    if 0 <= i < whole.len() {
        assert(l[i] == whole[i]);
        assert(ranking::shown(l, order, l[i]));
    }
    if 0 <= i < words.len() {
        let j = whole.len() + i;
        assert(l[j] == words[i]);
        assert(ranking::shown(l, order, l[j]));
    }
    if 0 <= a < b < order.len() {
        assert(order[a] < order[b]);
    }
}

/// A Chinese character is one of the block of unified ideographs, and a text holds one where
/// any of its characters is.
pub proof fn law_ideographs_are_known(c: char, s: Seq<char>, i: int)
    ensures
        cjk(c) <==> 0x4e00 <= c as u32 <= 0x9fff,
        0 <= i < s.len() && cjk(s[i]) ==> holds_cjk(s),
        (forall|k: int| 0 <= k < s.len() ==> (#[trigger] s[k] as u32) < 0x4e00) ==> !holds_cjk(s),
{
}

} // verus!
