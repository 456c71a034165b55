//! Text as sequences of characters: the vocabulary in which the other modules
//! state what they do, and verified operations for it.
use vstd::prelude::*;
use vstd::string::*;
use vstd::slice::*;

verus! {

/// `String::push` puts one character at the end of the string.
pub assume_specification[ String::push ](s: &mut String, c: char)
    ensures
        final(s)@ == old(s)@.push(c),
;

/// The characters with the Unicode `White_Space` property.
pub open spec fn is_space(c: char) -> bool {
    ||| '\u{9}' <= c <= '\u{d}'
    ||| c == ' '
    ||| c == '\u{85}'
    ||| c == '\u{a0}'
    ||| c == '\u{1680}'
    ||| '\u{2000}' <= c <= '\u{200a}'
    ||| c == '\u{2028}'
    ||| c == '\u{2029}'
    ||| c == '\u{202f}'
    ||| c == '\u{205f}'
    ||| c == '\u{3000}'
}

/// Tells whether `c` has the Unicode `White_Space` property.
pub fn space(c: char) -> (r: bool)
    ensures
        r == is_space(c),
{
    ('\u{9}' <= c && c <= '\u{d}') || c == ' ' || c == '\u{85}' || c == '\u{a0}' || c == '\u{1680}'
        || ('\u{2000}' <= c && c <= '\u{200a}') || c == '\u{2028}' || c == '\u{2029}' || c
        == '\u{202f}' || c == '\u{205f}' || c == '\u{3000}'
}

pub open spec fn is_digit(c: char) -> bool {
    '0' <= c <= '9'
}

pub fn digit(c: char) -> (r: bool)
    ensures
        r == is_digit(c),
{
    '0' <= c && c <= '9'
}

/// ASCII letters and digits.
pub open spec fn is_alnum(c: char) -> bool {
    is_digit(c) || 'a' <= c <= 'z' || 'A' <= c <= 'Z'
}

pub fn alnum(c: char) -> (r: bool)
    ensures
        r == is_alnum(c),
{
    digit(c) || ('a' <= c && c <= 'z') || ('A' <= c && c <= 'Z')
}

/// The texts of a list of strings.
pub open spec fn texts(v: Seq<String>) -> Seq<Seq<char>> {
    Seq::new(v.len(), |i: int| v[i]@)
}

/// The text of an optional string.
pub open spec fn opt_text(o: Option<String>) -> Option<Seq<char>> {
    match o {
        Some(s) => Some(s@),
        None => None,
    }
}

/// The text of an optional string slice.
pub open spec fn opt_str(o: Option<&str>) -> Option<Seq<char>> {
    match o {
        Some(s) => Some(s@),
        None => None,
    }
}

pub proof fn lemma_texts_push(v: Seq<String>, s: String)
    ensures
        texts(v.push(s)) == texts(v).push(s@),
{
    assert(texts(v.push(s)) =~= texts(v).push(s@));
}

/// The characters of `s`.
pub fn chars_of(s: &str) -> (v: Vec<char>)
    ensures
        v@ == s@,
{
    let mut v: Vec<char> = Vec::new();
    for c in it: s.chars()
        invariant
            it.seq() == s@,
            v@ == s@.take(it.index() as int),
    {
        v.push(c);
        assert(s@.take(it.index() + 1) =~= s@.take(it.index() as int).push(c));
    }
    assert(s@.take(s@.len() as int) =~= s@);
    v
}

/// The string made of the characters `v`.
pub fn string_of(v: &[char]) -> (s: String)
    ensures
        s@ == v@,
{
    let mut s = String::new();
    let mut i: usize = 0;
    while i < v.len()
        invariant
            i <= v.len(),
            s@ == v@.take(i as int),
        decreases v.len() - i,
    {
        s.push(v[i]);
        assert(v@.take(i + 1) =~= v@.take(i as int).push(v@[i as int]));
        i += 1;
    }
    assert(v@.take(v@.len() as int) =~= v@);
    s
}

/// The string made of the characters of `v` from `from` up to `to`.
pub fn string_between(v: &[char], from: usize, to: usize) -> (s: String)
    requires
        from <= to <= v@.len(),
    ensures
        s@ == v@.subrange(from as int, to as int),
{
    string_of(slice_subrange(v, from, to))
}

/// Tells whether two character slices hold the same text.
pub fn same_chars(a: &[char], b: &[char]) -> (r: bool)
    ensures
        r == (a@ == b@),
{
    if a.len() != b.len() {
        return false;
    }
    let mut i: usize = 0;
    while i < a.len()
        invariant
            i <= a.len(),
            a@.len() == b@.len(),
            forall|k: int| 0 <= k < i ==> a@[k] == b@[k],
        decreases a.len() - i,
    {
        if a[i] != b[i] {
            return false;
        }
        i += 1;
    }
    assert(a@ =~= b@);
    true
}

/// Tells whether two strings hold the same text.
pub fn same(a: &str, b: &str) -> (r: bool)
    ensures
        r == (a@ == b@),
{
    same_chars(&chars_of(a), &chars_of(b))
}

/// `needle` stands in `hay` at position `i`.
pub open spec fn stands_at(hay: Seq<char>, needle: Seq<char>, i: int) -> bool {
    &&& 0 <= i
    &&& i + needle.len() <= hay.len()
    &&& hay.subrange(i, i + needle.len()) == needle
}

/// `needle` occurs somewhere in `hay`.
pub open spec fn occurs(hay: Seq<char>, needle: Seq<char>) -> bool {
    exists|i: int| stands_at(hay, needle, i)
}

/// Tells whether `needle` stands in `hay` at position `i`.
pub fn at(hay: &[char], needle: &[char], i: usize) -> (r: bool)
    ensures
        r == stands_at(hay@, needle@, i as int),
{
    if i > hay.len() || needle.len() > hay.len() - i {
        return false;
    }
    same_chars(slice_subrange(hay, i, i + needle.len()), needle)
}

/// The first position from `from` on at which `needle` stands in `hay`.
pub fn find_from(hay: &[char], needle: &[char], from: usize) -> (r: Option<usize>)
    ensures
        match r {
            Some(i) => from <= i && stands_at(hay@, needle@, i as int) && forall|k: int|
                from <= k < i ==> !stands_at(hay@, needle@, k),
            None => forall|k: int| from <= k ==> !stands_at(hay@, needle@, k),
        },
{
    if needle.len() > hay.len() {
        return None;
    }
    let last: usize = hay.len() - needle.len();
    let mut i: usize = from;
    while i <= last
        invariant
            from <= i,
            i <= last + 1 || i == from,
            last == hay@.len() - needle@.len(),
            needle@.len() <= hay@.len(),
            forall|k: int| from <= k < i ==> !stands_at(hay@, needle@, k),
        decreases last + 1 - i,
    {
        if at(hay, needle, i) {
            return Some(i);
        }
        if i == last {
            assert forall|k: int| from <= k implies !stands_at(hay@, needle@, k) by {
                if k > last {
                    assert(!stands_at(hay@, needle@, k));
                }
            }
            return None;
        }
        i += 1;
    }
    assert forall|k: int| from <= k implies !stands_at(hay@, needle@, k) by {}
    None
}

/// Tells whether `needle` occurs in `hay`.
pub fn contains(hay: &str, needle: &str) -> (r: bool)
    ensures
        r == occurs(hay@, needle@),
{
    let h = chars_of(hay);
    let n = chars_of(needle);
    match find_from(&h, &n, 0) {
        Some(i) => {
            assert(stands_at(hay@, needle@, i as int));
            true
        },
        None => {
            assert forall|i: int| !stands_at(hay@, needle@, i) by {}
            false
        },
    }
}

/// `p` is how `s` begins.
pub open spec fn begins(s: Seq<char>, p: Seq<char>) -> bool {
    stands_at(s, p, 0)
}

/// `p` is how `s` ends.
pub open spec fn ends(s: Seq<char>, p: Seq<char>) -> bool {
    stands_at(s, p, s.len() - p.len())
}

pub fn starts_with(s: &str, p: &str) -> (r: bool)
    ensures
        r == begins(s@, p@),
{
    at(&chars_of(s), &chars_of(p), 0)
}

pub fn ends_with(s: &str, p: &str) -> (r: bool)
    ensures
        r == ends(s@, p@),
{
    let v = chars_of(s);
    let w = chars_of(p);
    if w.len() > v.len() {
        return false;
    }
    at(&v, &w, v.len() - w.len())
}

/// What is left of `s` behind the prefix `p`, if it begins with it.
pub open spec fn without_prefix(s: Seq<char>, p: Seq<char>) -> Option<Seq<char>> {
    if begins(s, p) {
        Some(s.skip(p.len() as int))
    } else {
        None
    }
}

pub fn strip_prefix(s: &str, p: &str) -> (r: Option<String>)
    ensures
        opt_text(r) == without_prefix(s@, p@),
{
    let v = chars_of(s);
    let w = chars_of(p);
    if at(&v, &w, 0) {
        let out = string_between(&v, w.len(), v.len());
        assert(out@ =~= s@.skip(p@.len() as int));
        Some(out)
    } else {
        None
    }
}

/// `s` without its leading white space.
pub open spec fn trimmed_start(s: Seq<char>) -> Seq<char>
    decreases s.len(),
{
    if s.len() > 0 && is_space(s[0]) {
        trimmed_start(s.skip(1))
    } else {
        s
    }
}

/// `s` without its trailing white space.
pub open spec fn trimmed_end(s: Seq<char>) -> Seq<char>
    decreases s.len(),
{
    if s.len() > 0 && is_space(s.last()) {
        trimmed_end(s.drop_last())
    } else {
        s
    }
}

/// `s` without white space at either end.
pub open spec fn trimmed(s: Seq<char>) -> Seq<char> {
    trimmed_end(trimmed_start(s))
}

/// The position of the first character of `v` that is no white space.
pub fn first_solid(v: &[char]) -> (i: usize)
    ensures
        i <= v@.len(),
        trimmed_start(v@) == v@.skip(i as int),
{
    let mut i: usize = 0;
    assert(v@.skip(0) =~= v@);
    while i < v.len() && space(v[i])
        invariant
            i <= v@.len(),
            trimmed_start(v@) == trimmed_start(v@.skip(i as int)),
        decreases v@.len() - i,
    {
        assert(v@.skip(i as int).skip(1) =~= v@.skip(i + 1));
        i += 1;
    }
    i
}

/// The end of `v` without its trailing white space.
pub fn last_solid(v: &[char]) -> (i: usize)
    ensures
        i <= v@.len(),
        trimmed_end(v@) == v@.take(i as int),
{
    let mut i: usize = v.len();
    assert(v@.take(i as int) =~= v@);
    while i > 0 && space(v[i - 1])
        invariant
            i <= v@.len(),
            trimmed_end(v@) == trimmed_end(v@.take(i as int)),
        decreases i,
    {
        assert(v@.take(i as int).drop_last() =~= v@.take(i - 1));
        i -= 1;
    }
    i
}

/// The characters of `v` without white space at either end.
pub fn trim_chars(v: &[char]) -> (r: Vec<char>)
    ensures
        r@ == trimmed(v@),
{
    let i = first_solid(v);
    let tail = slice_subrange(v, i, v.len());
    assert(tail@ =~= v@.skip(i as int));
    let j = last_solid(tail);
    let body = slice_subrange(tail, 0, j);
    assert(body@ =~= tail@.take(j as int));
    slice_to_vec(body)
}

/// `s` without white space at either end.
pub fn trim(s: &str) -> (r: String)
    ensures
        r@ == trimmed(s@),
{
    string_of(&trim_chars(&chars_of(s)))
}

/// The parts of `s` between the occurrences of `c`.
pub open spec fn split_on(s: Seq<char>, c: char) -> Seq<Seq<char>>
    decreases s.len(),
{
    if s.len() == 0 {
        seq![Seq::<char>::empty()]
    } else {
        let p = split_on(s.drop_last(), c);
        if s.last() == c {
            p.push(Seq::<char>::empty())
        } else {
            p.drop_last().push(p.last().push(s.last()))
        }
    }
}

pub proof fn lemma_split_nonempty(s: Seq<char>, c: char)
    ensures
        split_on(s, c).len() > 0,
    decreases s.len(),
{
    if s.len() > 0 {
        lemma_split_nonempty(s.drop_last(), c);
    }
}

/// The parts of `s` between the occurrences of `c`.
pub fn split(s: &str, c: char) -> (r: Vec<String>)
    ensures
        texts(r@) == split_on(s@, c),
{
    let v = chars_of(s);
    let mut done: Vec<String> = Vec::new();
    let mut cur = String::new();
    let mut i: usize = 0;
    assert(texts(done@).push(cur@) =~= split_on(s@.take(0), c));
    while i < v.len()
        invariant
            i <= v@.len(),
            v@ == s@,
            texts(done@).push(cur@) == split_on(s@.take(i as int), c),
        decreases v@.len() - i,
    {
        let x = v[i];
        proof {
            assert(s@.take(i + 1).drop_last() =~= s@.take(i as int));
            assert(s@.take(i + 1).last() == x);
            lemma_split_nonempty(s@.take(i as int), c);
            assert(texts(done@).push(cur@).drop_last() =~= texts(done@));
        }
        if x == c {
            proof {
                lemma_texts_push(done@, cur);
            }
            done.push(cur);
            cur = String::new();
        } else {
            cur.push(x);
        }
        i += 1;
    }
    assert(s@.take(s@.len() as int) =~= s@);
    proof {
        lemma_texts_push(done@, cur);
    }
    done.push(cur);
    done
}

/// `s` without the carriage return at its end, if there is one.
pub open spec fn without_cr(s: Seq<char>) -> Seq<char> {
    if s.len() > 0 && s.last() == '\r' {
        s.drop_last()
    } else {
        s
    }
}

/// The lines of `s`: each ends with a line feed, or a carriage return and a
/// line feed; behind the last one the end is optional.
pub open spec fn lines_of(s: Seq<char>) -> Seq<Seq<char>> {
    let p = split_on(s, '\n');
    let ended = p.drop_last().map_values(|l: Seq<char>| without_cr(l));
    if p.last().len() == 0 {
        ended
    } else {
        ended.push(p.last())
    }
}

/// The lines of `s`.
pub fn lines(s: &str) -> (r: Vec<String>)
    ensures
        texts(r@) == lines_of(s@),
{
    let parts = split(s, '\n');
    proof {
        lemma_split_nonempty(s@, '\n');
    }
    let ghost p = split_on(s@, '\n');
    let n: usize = parts.len() - 1;
    let mut out: Vec<String> = Vec::new();
    let mut i: usize = 0;
    while i < n
        invariant
            i <= n,
            n + 1 == parts@.len(),
            p == texts(parts@),
            out@.len() == i,
            forall|k: int| 0 <= k < i ==> (#[trigger] out@[k])@ == without_cr(p[k]),
        decreases n - i,
    {
        let v = chars_of(parts[i].as_str());
        if v.len() > 0 && v[v.len() - 1] == '\r' {
            let t = string_between(&v, 0, v.len() - 1);
            assert(t@ =~= p[i as int].drop_last());
            out.push(t);
        } else {
            out.push(parts[i].clone());
        }
        i += 1;
    }
    let ghost ended = p.drop_last().map_values(|l: Seq<char>| without_cr(l));
    assert(texts(out@) =~= ended);
    if !parts[n].as_str().is_empty() {
        let last = parts[n].clone();
        proof {
            lemma_texts_push(out@, last);
        }
        out.push(last);
    }
    out
}

/// `parts` one behind the other, with `sep` between them.
pub open spec fn joined(parts: Seq<Seq<char>>, sep: Seq<char>) -> Seq<char>
    decreases parts.len(),
{
    if parts.len() == 0 {
        Seq::empty()
    } else if parts.len() == 1 {
        parts[0]
    } else {
        joined(parts.drop_last(), sep) + sep + parts.last()
    }
}

/// `parts` one behind the other, with `sep` between them.
pub fn join(parts: &Vec<String>, sep: &str) -> (r: String)
    ensures
        r@ == joined(texts(parts@), sep@),
{
    let mut r = String::new();
    let mut i: usize = 0;
    let ghost t = texts(parts@);
    while i < parts.len()
        invariant
            i <= parts@.len(),
            t == texts(parts@),
            r@ == joined(t.take(i as int), sep@),
        decreases parts@.len() - i,
    {
        proof {
            assert(t.take(i + 1).drop_last() =~= t.take(i as int));
            assert(t.take(i + 1).last() == parts@[i as int]@);
        }
        if i > 0 {
            r.append(sep);
        }
        r.append(parts[i].as_str());
        proof {
            if i == 0 {
                assert(r@ =~= t.take(1)[0]);
            }
        }
        i += 1;
    }
    assert(t.take(t.len() as int) =~= t);
    r
}

/// The lower-case form of an ASCII letter; any other character as it is.
pub open spec fn ascii_lower(c: char) -> char {
    if 'A' <= c <= 'Z' {
        (c as u32 + 32) as char
    } else {
        c
    }
}

pub open spec fn ascii_lowered(s: Seq<char>) -> Seq<char> {
    s.map_values(|c: char| ascii_lower(c))
}

pub fn lower(c: char) -> (r: char)
    ensures
        r == ascii_lower(c),
{
    if 'A' <= c && c <= 'Z' {
        ((c as u8) + 32) as char
    } else {
        c
    }
}

/// `s` with its ASCII letters in lower case.
pub fn to_ascii_lower(s: &str) -> (r: String)
    ensures
        r@ == ascii_lowered(s@),
{
    let v = chars_of(s);
    let mut out = String::new();
    let mut i: usize = 0;
    while i < v.len()
        invariant
            i <= v@.len(),
            v@ == s@,
            out@ == ascii_lowered(s@.take(i as int)),
        decreases v@.len() - i,
    {
        out.push(lower(v[i]));
        assert(ascii_lowered(s@.take(i + 1)) =~= ascii_lowered(s@.take(i as int)).push(
            ascii_lower(s@[i as int]),
        ));
        i += 1;
    }
    assert(s@.take(s@.len() as int) =~= s@);
    out
}

/// The digit that stands for `d`.
pub open spec fn digit_char(d: nat) -> char {
    (48 + d) as char
}

/// `n` in decimal notation.
pub open spec fn dec(n: nat) -> Seq<char>
    decreases n,
{
    if n < 10 {
        seq![digit_char(n)]
    } else {
        dec(n / 10).push(digit_char(n % 10))
    }
}

/// `n` in decimal notation.
pub fn decimal(n: u64) -> (r: String)
    ensures
        r@ == dec(n as nat),
    decreases n,
{
    if n < 10 {
        let mut s = String::new();
        s.push((48 + n as u8) as char);
        assert(s@ =~= dec(n as nat));
        s
    } else {
        let mut s = decimal(n / 10);
        s.push((48 + (n % 10) as u8) as char);
        s
    }
}

/// `n` in decimal notation, with a minus sign where it is negative.
pub open spec fn dec_int(n: int) -> Seq<char> {
    if n < 0 {
        seq!['-'] + dec((-n) as nat)
    } else {
        dec(n as nat)
    }
}

pub fn decimal_signed(n: i64) -> (r: String)
    ensures
        r@ == dec_int(n as int),
{
    if n >= 0 {
        decimal(n as u64)
    } else {
        let m: u64 = (-(n + 1)) as u64 + 1;
        let mut s = String::new();
        s.push('-');
        s.append(decimal(m).as_str());
        assert(s@ =~= dec_int(n as int));
        s
    }
}

/// Every character of `s` is a decimal digit.
pub open spec fn all_digits(s: Seq<char>) -> bool {
    forall|i: int| 0 <= i < s.len() ==> is_digit(#[trigger] s[i])
}

/// The number that the digits `s` stand for.
pub open spec fn digits_value(s: Seq<char>) -> nat
    decreases s.len(),
{
    if s.len() == 0 {
        0
    } else {
        (10 * digits_value(s.drop_last()) + (s.last() as nat - 48)) as nat
    }
}

/// `s` without a plus sign in front.
pub open spec fn unsigned_digits(s: Seq<char>) -> Seq<char> {
    if s.len() > 0 && s[0] == '+' {
        s.skip(1)
    } else {
        s
    }
}

/// The number that `s` spells, as far as it is one: digits, with or without a
/// plus sign in front, for a value of at most `max`.
pub open spec fn spelled(s: Seq<char>, max: nat) -> Option<nat> {
    let d = unsigned_digits(s);
    if d.len() > 0 && all_digits(d) && digits_value(d) <= max {
        Some(digits_value(d))
    } else {
        None
    }
}

proof fn lemma_digits_grow(s: Seq<char>, i: int)
    requires
        0 <= i <= s.len(),
        all_digits(s),
    ensures
        digits_value(s.take(i)) <= digits_value(s),
    decreases s.len() - i,
{
    if i == s.len() {
        assert(s.take(i) =~= s);
    } else {
        lemma_digits_grow(s, i + 1);
        assert(s.take(i + 1).drop_last() =~= s.take(i));
        assert(is_digit(s[i]));
        assert(s.take(i + 1).last() == s[i]);
    }
}

/// A number in decimal notation is read back as itself.
pub proof fn law_decimal_is_read_back(n: nat, max: nat)
    requires
        n <= max,
    ensures
        all_digits(dec(n)),
        dec(n).len() > 0,
        digits_value(dec(n)) == n,
        spelled(dec(n), max) == Some(n),
    decreases n,
{
    if n < 10 {
        let s = seq![digit_char(n)];
        assert(s.drop_last() =~= Seq::empty());
        assert(digits_value(Seq::empty()) == 0);
        assert(dec(n) == s);
    } else {
        law_decimal_is_read_back(n / 10, max);
        assert(dec(n).drop_last() =~= dec(n / 10));
    }
    assert(is_digit(dec(n)[0]));
}

/// The number that `s` spells, if it is at most `max`.
pub fn parse_up_to(s: &str, max: u64) -> (r: Option<u64>)
    ensures
        match r {
            Some(n) => spelled(s@, max as nat) == Some(n as nat),
            None => spelled(s@, max as nat) is None,
        },
{
    let v = chars_of(s);
    let from: usize = if v.len() > 0 && v[0] == '+' {
        1
    } else {
        0
    };
    let ghost d = unsigned_digits(s@);
    assert(d =~= s@.skip(from as int));
    if from == v.len() {
        return None;
    }
    let mut acc: u64 = 0;
    let mut i: usize = from;
    assert(d.take(0) =~= Seq::<char>::empty());
    while i < v.len()
        invariant
            from <= i <= v@.len(),
            v@ == s@,
            from <= 1,
            d == unsigned_digits(s@),
            d =~= s@.skip(from as int),
            d.len() > 0,
            acc == digits_value(d.take(i - from)),
            acc <= max,
            forall|k: int| 0 <= k < i - from ==> is_digit(#[trigger] d[k]),
        decreases v@.len() - i,
    {
        if !digit(v[i]) {
            assert(!is_digit(d[i - from]));
            return None;
        }
        let x: u64 = (v[i] as u8 - 48) as u64;
        proof {
            assert(d.take(i - from + 1).drop_last() =~= d.take(i - from));
            assert(d.take(i - from + 1).last() == v@[i as int]);
            assert(digits_value(d.take(i - from + 1)) == 10 * acc + x);
        }
        if acc > max / 10 || x > max - acc * 10 {
            proof {
                if all_digits(d) {
                    lemma_digits_grow(d, i - from + 1);
                }
            }
            return None;
        }
        acc = acc * 10 + x;
        i += 1;
    }
    assert(d.take(d.len() as int) =~= d);
    Some(acc)
}

pub fn parse_u64(s: &str) -> (r: Option<u64>)
    ensures
        match r {
            Some(n) => spelled(s@, u64::MAX as nat) == Some(n as nat),
            None => spelled(s@, u64::MAX as nat) is None,
        },
{
    parse_up_to(s, u64::MAX)
}

/// The number of bytes that UTF-8 takes for `c`.
pub open spec fn utf8_width(c: char) -> nat {
    if (c as u32) < 0x80 {
        1
    } else if (c as u32) < 0x800 {
        2
    } else if (c as u32) < 0x10000 {
        3
    } else {
        4
    }
}

pub fn width(c: char) -> (r: usize)
    ensures
        r == utf8_width(c),
{
    if (c as u32) < 0x80 {
        1
    } else if (c as u32) < 0x800 {
        2
    } else if (c as u32) < 0x10000 {
        3
    } else {
        4
    }
}

/// The number of bytes that UTF-8 takes for `s`.
pub open spec fn utf8_len(s: Seq<char>) -> nat
    decreases s.len(),
{
    if s.len() == 0 {
        0
    } else {
        utf8_len(s.drop_last()) + utf8_width(s.last())
    }
}

pub proof fn lemma_utf8_len_take(s: Seq<char>, i: int, j: int)
    requires
        0 <= i <= j <= s.len(),
    ensures
        utf8_len(s.take(i)) + (j - i) <= utf8_len(s.take(j)),
    decreases j - i,
{
    if i < j {
        lemma_utf8_len_take(s, i, j - 1);
        assert(s.take(j).drop_last() =~= s.take(j - 1));
    }
}

/// How many of the characters of `v` fit into `max` bytes of UTF-8.
pub fn fitting(v: &[char], max: usize) -> (n: usize)
    ensures
        n <= v@.len(),
        utf8_len(v@.take(n as int)) <= max,
        n < v@.len() ==> utf8_len(v@.take(n + 1)) > max,
{
    let mut n: usize = 0;
    let mut used: usize = 0;
    assert(v@.take(0) =~= Seq::<char>::empty());
    while n < v.len()
        invariant
            n <= v@.len(),
            used == utf8_len(v@.take(n as int)),
            used <= max,
        decreases v@.len() - n,
    {
        let w = width(v[n]);
        proof {
            assert(v@.take(n + 1).drop_last() =~= v@.take(n as int));
            assert(v@.take(n + 1).last() == v@[n as int]);
        }
        if w > max - used {
            return n;
        }
        used += w;
        n += 1;
    }
    n
}

/// The longest beginning of `s` whose UTF-8 form takes at most `max` bytes.
pub open spec fn fitting_prefix(s: Seq<char>, max: nat) -> Seq<char>
    decreases s.len(),
{
    if utf8_len(s) <= max || s.len() == 0 {
        s
    } else {
        fitting_prefix(s.drop_last(), max)
    }
}

proof fn lemma_fitting_prefix(s: Seq<char>, max: nat, n: int)
    requires
        0 <= n <= s.len(),
        utf8_len(s.take(n)) <= max,
        n < s.len() ==> utf8_len(s.take(n + 1)) > max,
    ensures
        fitting_prefix(s, max) == s.take(n),
    decreases s.len(),
{
    if n == s.len() {
        assert(s.take(n) =~= s);
    } else {
        lemma_utf8_len_take(s, n + 1, s.len() as int);
        assert(s.take(s.len() as int) =~= s);
        let p = s.drop_last();
        assert(p.take(n) =~= s.take(n));
        if n < p.len() {
            assert(p.take(n + 1) =~= s.take(n + 1));
        }
        lemma_fitting_prefix(p, max, n);
    }
}

/// As many of the first characters of `s` as fit into `max` bytes.
pub fn take_bytes(s: &str, max: usize) -> (r: String)
    ensures
        r@ == fitting_prefix(s@, max as nat),
{
    let v = chars_of(s);
    let n = fitting(&v, max);
    proof {
        lemma_fitting_prefix(s@, max as nat, n as int);
    }
    let t = string_between(&v, 0, n);
    assert(t@ =~= s@.take(n as int));
    t
}

/// `s` as it is where its UTF-8 form takes at most `max` bytes; else as many of
/// its first characters as fit into `max` bytes, and an ellipsis.
pub open spec fn shortened(s: Seq<char>, max: nat) -> Seq<char> {
    if utf8_len(s) <= max {
        s
    } else {
        fitting_prefix(s, max).push('\u{2026}')
    }
}

/// Cuts `s` to at most `max_len` bytes at a character boundary and marks the
/// cut with an ellipsis.
pub fn truncate(s: &str, max_len: usize) -> (r: String)
    ensures
        r@ == shortened(s@, max_len as nat),
{
    let v = chars_of(s);
    let n = fitting(&v, max_len);
    if n == v.len() {
        assert(s@.take(n as int) =~= s@);
        string_of(&v)
    } else {
        proof {
            lemma_utf8_len_take(s@, n + 1, s@.len() as int);
            assert(s@.take(s@.len() as int) =~= s@);
            lemma_fitting_prefix(s@, max_len as nat, n as int);
        }
        let mut t = string_between(&v, 0, n);
        assert(t@ =~= s@.take(n as int));
        t.push('\u{2026}');
        t
    }
}

/// The first `n` characters of `s`, or all of them where it has fewer.
pub open spec fn first_chars(s: Seq<char>, n: nat) -> Seq<char> {
    if n <= s.len() {
        s.take(n as int)
    } else {
        s
    }
}

/// The first `n` characters of `s`, or all of them where it has fewer.
pub fn take_chars(s: &str, n: usize) -> (r: String)
    ensures
        r@ == first_chars(s@, n as nat),
{
    let v = chars_of(s);
    if n <= v.len() {
        let t = string_between(&v, 0, n);
        assert(t@ =~= s@.take(n as int));
        t
    } else {
        string_of(&v)
    }
}

/// `s` is one of `list`.
pub open spec fn listed(list: Seq<Seq<char>>, s: Seq<char>) -> bool {
    exists|i: int| 0 <= i < list.len() && list[i] == s
}

/// Tells whether `s` is one of the strings in `list`.
pub fn is_listed(list: &Vec<String>, s: &str) -> (r: bool)
    ensures
        r == listed(texts(list@), s@),
{
    let mut i: usize = 0;
    while i < list.len()
        invariant
            i <= list@.len(),
            forall|k: int| 0 <= k < i ==> list@[k]@ != s@,
        decreases list@.len() - i,
    {
        if same(list[i].as_str(), s) {
            assert(texts(list@)[i as int] == s@);
            return true;
        }
        i += 1;
    }
    assert forall|k: int| 0 <= k < texts(list@).len() implies texts(list@)[k] != s@ by {}
    false
}

/// The first position from `i` on at which `s` holds `c`.
pub open spec fn index_from(s: Seq<char>, c: char, i: int) -> Option<int>
    decreases s.len() - i,
{
    if i < 0 || i >= s.len() {
        None
    } else if s[i] == c {
        Some(i)
    } else {
        index_from(s, c, i + 1)
    }
}

pub proof fn lemma_index_from(s: Seq<char>, c: char, i: int)
    requires
        0 <= i,
    ensures
        match index_from(s, c, i) {
            Some(k) => i <= k < s.len() && s[k] == c,
            None => true,
        },
    decreases s.len() - i,
{
    if i < s.len() && s[i] != c {
        lemma_index_from(s, c, i + 1);
    }
}

/// The first position from `i` on at which `v` holds `c`.
pub fn index_of(v: &[char], c: char, i: usize) -> (r: Option<usize>)
    ensures
        match r {
            Some(k) => index_from(v@, c, i as int) == Some(k as int) && i <= k < v@.len() && v@[k as int] == c,
            None => index_from(v@, c, i as int) is None,
        },
{
    let mut k: usize = i;
    while k < v.len()
        invariant
            i <= k,
            index_from(v@, c, i as int) == index_from(v@, c, k as int),
        decreases v@.len() - k,
    {
        if v[k] == c {
            return Some(k);
        }
        k += 1;
    }
    None
}

/// The last position at which `s` holds `c`.
pub open spec fn last_index(s: Seq<char>, c: char) -> Option<int>
    decreases s.len(),
{
    if s.len() == 0 {
        None
    } else if s.last() == c {
        Some(s.len() - 1)
    } else {
        last_index(s.drop_last(), c)
    }
}

/// The last position at which `v` holds `c`.
pub fn last_index_of(v: &[char], c: char) -> (r: Option<usize>)
    ensures
        match r {
            Some(k) => last_index(v@, c) == Some(k as int) && k < v@.len() && v@[k as int] == c,
            None => last_index(v@, c) is None,
        },
{
    let mut k: usize = v.len();
    assert(v@.take(k as int) =~= v@);
    while k > 0
        invariant
            k <= v@.len(),
            last_index(v@, c) == last_index(v@.take(k as int), c),
        decreases k,
    {
        if v[k - 1] == c {
            return Some(k - 1);
        }
        assert(v@.take(k as int).drop_last() =~= v@.take(k - 1));
        k -= 1;
    }
    None
}

/// The first position from `i` on at which `s` holds one of `stops`; the end of
/// `s` where there is none.
pub open spec fn stop_from(s: Seq<char>, stops: Seq<char>, i: int) -> int
    decreases s.len() - i,
{
    if i >= s.len() || i < 0 {
        s.len() as int
    } else if stops.contains(s[i]) {
        i
    } else {
        stop_from(s, stops, i + 1)
    }
}

pub proof fn lemma_stop_from(s: Seq<char>, stops: Seq<char>, i: int)
    requires
        0 <= i <= s.len(),
    ensures
        i <= stop_from(s, stops, i) <= s.len(),
    decreases s.len() - i,
{
    if i < s.len() && !stops.contains(s[i]) {
        lemma_stop_from(s, stops, i + 1);
    }
}

/// Tells whether `c` is one of `list`.
pub fn one_of(list: &[char], c: char) -> (r: bool)
    ensures
        r == list@.contains(c),
{
    let mut i: usize = 0;
    while i < list.len()
        invariant
            i <= list@.len(),
            forall|k: int| 0 <= k < i ==> list@[k] != c,
        decreases list@.len() - i,
    {
        if list[i] == c {
            return true;
        }
        i += 1;
    }
    false
}

/// The first position from `i` on at which `v` holds one of `stops`.
pub fn find_stop(v: &[char], stops: &[char], i: usize) -> (r: usize)
    requires
        i <= v@.len(),
    ensures
        r == stop_from(v@, stops@, i as int),
        i <= r <= v@.len(),
{
    let mut k: usize = i;
    while k < v.len()
        invariant
            i <= k <= v@.len(),
            stop_from(v@, stops@, i as int) == stop_from(v@, stops@, k as int),
        decreases v@.len() - k,
    {
        if one_of(stops, v[k]) {
            return k;
        }
        k += 1;
    }
    k
}

/// The first position from `i` on at which `needle` stands in `hay`.
pub open spec fn find_at(hay: Seq<char>, needle: Seq<char>, i: int) -> Option<int>
    decreases hay.len() + 1 - i,
{
    if i < 0 || i + needle.len() > hay.len() {
        None
    } else if stands_at(hay, needle, i) {
        Some(i)
    } else {
        find_at(hay, needle, i + 1)
    }
}

/// The first position from `i` on at which `needle` stands in `hay`.
pub fn find_sub(hay: &[char], needle: &[char], i: usize) -> (r: Option<usize>)
    ensures
        match r {
            Some(k) => find_at(hay@, needle@, i as int) == Some(k as int) && i <= k && k + needle@.len()
                <= hay@.len(),
            None => find_at(hay@, needle@, i as int) is None,
        },
{
    let mut k: usize = i;
    while k <= hay.len() && needle.len() <= hay.len() - k
        invariant
            i <= k,
            find_at(hay@, needle@, i as int) == find_at(hay@, needle@, k as int),
        decreases hay@.len() + 1 - k,
    {
        if at(hay, needle, k) {
            return Some(k);
        }
        proof {
            if k == usize::MAX {
                assert(hay@.subrange(k as int, k + needle@.len()) =~= needle@);
            }
        }
        k += 1;
    }
    None
}

/// `s` without the characters of `marks` at its end.
pub open spec fn without_marks(s: Seq<char>, marks: Seq<char>) -> Seq<char>
    decreases s.len(),
{
    if s.len() > 0 && marks.contains(s.last()) {
        without_marks(s.drop_last(), marks)
    } else {
        s
    }
}

/// The end of `v` without the characters of `marks` at its end.
pub fn end_before_marks(v: &[char], marks: &[char]) -> (i: usize)
    ensures
        i <= v@.len(),
        without_marks(v@, marks@) == v@.take(i as int),
{
    let mut i: usize = v.len();
    assert(v@.take(i as int) =~= v@);
    while i > 0 && one_of(marks, v[i - 1])
        invariant
            i <= v@.len(),
            without_marks(v@, marks@) == without_marks(v@.take(i as int), marks@),
        decreases i,
    {
        assert(v@.take(i as int).drop_last() =~= v@.take(i - 1));
        i -= 1;
    }
    i
}

/// `s` with every `from` replaced by `to`.
pub open spec fn replaced(s: Seq<char>, from: char, to: char) -> Seq<char> {
    s.map_values(|c: char| if c == from { to } else { c })
}

/// `s` with every `from` replaced by `to`.
pub fn replace_char(s: &str, from: char, to: char) -> (r: String)
    ensures
        r@ == replaced(s@, from, to),
{
    let v = chars_of(s);
    let mut out = String::new();
    let mut i: usize = 0;
    while i < v.len()
        invariant
            i <= v@.len(),
            v@ == s@,
            out@ == replaced(s@.take(i as int), from, to),
        decreases v@.len() - i,
    {
        let c = if v[i] == from {
            to
        } else {
            v[i]
        };
        out.push(c);
        assert(replaced(s@.take(i + 1), from, to) =~= replaced(s@.take(i as int), from, to).push(
            if s@[i as int] == from { to } else { s@[i as int] },
        ));
        i += 1;
    }
    assert(s@.take(s@.len() as int) =~= s@);
    out
}

/// The form of a text that `Debug` gives: in quotes, with escapes.
pub uninterp spec fn debug_form(s: Seq<char>) -> Seq<char>;

/// `Debug` of `str`, through `format!`. The result is a function of the text.
#[verifier::external_body]
pub(crate) fn debug_string(s: &str) -> (r: String)
    ensures
        r@ == debug_form(s@),
{
    format!("{:?}", s)
}

/// The Unicode lower-case form of a text.
pub uninterp spec fn lowercased(s: Seq<char>) -> Seq<char>;

/// `str::to_lowercase`: the lower-case form by the Unicode tables, without a
/// locale. The result is a function of the text.
#[verifier::external_body]
pub(crate) fn to_lowercase(s: &str) -> (r: String)
    ensures
        r@ == lowercased(s@),
{
    s.to_lowercase()
}

/// The Unicode upper-case form of a text.
pub uninterp spec fn uppercased(s: Seq<char>) -> Seq<char>;

/// `str::to_uppercase`: the upper-case form by the Unicode tables, without a
/// locale. The result is a function of the text.
#[verifier::external_body]
pub(crate) fn to_uppercase(s: &str) -> (r: String)
    ensures
        r@ == uppercased(s@),
{
    s.to_uppercase()
}

/// `s` with `c` behind it.
pub fn with_char(s: String, c: char) -> (r: String)
    ensures
        r@ == s@.push(c),
{
    let mut t = s;
    t.push(c);
    t
}

/// `a` and `b`, one behind the other.
pub fn cat(a: &str, b: &str) -> (r: String)
    ensures
        r@ == a@ + b@,
{
    let mut s = a.to_string();
    s.append(b);
    s
}

pub fn cat3(a: &str, b: &str, c: &str) -> (r: String)
    ensures
        r@ == a@ + b@ + c@,
{
    let mut s = a.to_string();
    s.append(b);
    s.append(c);
    s
}

pub fn cat5(a: &str, b: &str, c: &str, d: &str, e: &str) -> (r: String)
    ensures
        r@ == a@ + b@ + c@ + d@ + e@,
{
    let mut s = a.to_string();
    s.append(b);
    s.append(c);
    s.append(d);
    s.append(e);
    s
}

/// The path of `name` in the directory `dir`.
pub open spec fn in_dir(dir: Seq<char>, name: Seq<char>) -> Seq<char> {
    if dir.len() == 0 {
        name
    } else if dir.last() == '/' {
        dir + name
    } else {
        dir + "/"@ + name
    }
}

/// The path of the relative name `name` in the directory `dir`.
pub fn path_in(dir: &str, name: &str) -> (r: String)
    ensures
        r@ == in_dir(dir@, name@),
{
    let v = chars_of(dir);
    if v.len() == 0 {
        name.to_string()
    } else if v[v.len() - 1] == '/' {
        cat(dir, name)
    } else {
        cat3(dir, "/", name)
    }
}

/// `a` comes before `b` in the order of their characters, or is the same.
pub open spec fn sorted_le(a: Seq<char>, b: Seq<char>) -> bool
    decreases a.len(),
{
    if a.len() == 0 {
        true
    } else if b.len() == 0 {
        false
    } else if a[0] != b[0] {
        a[0] < b[0]
    } else {
        sorted_le(a.skip(1), b.skip(1))
    }
}

/// Tells whether `a` comes before `b` in the order of their characters, or is
/// the same. It is the order of their UTF-8 forms too.
pub fn text_le(a: &str, b: &str) -> (r: bool)
    ensures
        r == sorted_le(a@, b@),
{
    let v = chars_of(a);
    let w = chars_of(b);
    let mut i: usize = 0;
    assert(v@.skip(0) =~= v@);
    assert(w@.skip(0) =~= w@);
    while i < v.len()
        invariant
            i <= v@.len(),
            i <= w@.len(),
            v@ == a@,
            w@ == b@,
            sorted_le(a@, b@) == sorted_le(v@.skip(i as int), w@.skip(i as int)),
        decreases v@.len() - i,
    {
        if i == w.len() {
            return false;
        }
        if v[i] != w[i] {
            return v[i] < w[i];
        }
        proof {
            assert(v@.skip(i as int).skip(1) =~= v@.skip(i + 1));
            assert(w@.skip(i as int).skip(1) =~= w@.skip(i + 1));
        }
        i += 1;
    }
    true
}

/// Of two texts one comes first, or they are the same.
pub proof fn law_order_is_total(a: Seq<char>, b: Seq<char>)
    ensures
        sorted_le(a, b) || sorted_le(b, a),
        sorted_le(a, b) && sorted_le(b, a) ==> a == b,
    decreases a.len(),
{
    if a.len() > 0 && b.len() > 0 && a[0] == b[0] {
        law_order_is_total(a.skip(1), b.skip(1));
        if sorted_le(a, b) && sorted_le(b, a) {
            assert(a =~= seq![a[0]] + a.skip(1));
            assert(b =~= seq![b[0]] + b.skip(1));
        }
    } else if a.len() == 0 && b.len() == 0 {
        assert(a =~= b);
    }
}

/// The order of texts carries over from one to the next.
pub proof fn law_order_is_transitive(a: Seq<char>, b: Seq<char>, c: Seq<char>)
    requires
        sorted_le(a, b),
        sorted_le(b, c),
    ensures
        sorted_le(a, c),
    decreases a.len(),
{
    if a.len() > 0 && b.len() > 0 && c.len() > 0 && a[0] == b[0] && b[0] == c[0] {
        law_order_is_transitive(a.skip(1), b.skip(1), c.skip(1));
    }
}

/// Of texts that begin with parts of the same length, those parts settle the order
/// unless they are the same.
pub proof fn law_order_goes_by_the_first_part(a: Seq<char>, b: Seq<char>, c: Seq<char>, d: Seq<char>)
    requires
        a.len() == c.len(),
    ensures
        sorted_le(a + b, c + d) == (if a == c {
            sorted_le(b, d)
        } else {
            sorted_le(a, c)
        }),
    decreases a.len(),
{
    if a.len() == 0 {
        assert(a =~= c);
        assert(a + b =~= b);
        assert(c + d =~= d);
    } else {
        assert((a + b).skip(1) =~= a.skip(1) + b);
        assert((c + d).skip(1) =~= c.skip(1) + d);
        law_order_goes_by_the_first_part(a.skip(1), b, c.skip(1), d);
        if a[0] == c[0] && a.skip(1) == c.skip(1) {
            assert(a =~= seq![a[0]] + a.skip(1));
            assert(c =~= seq![c[0]] + c.skip(1));
        }
    }
}

/// The non-empty trimmed parts of a comma-separated list.
pub open spec fn comma_list(parts: Seq<Seq<char>>) -> Seq<Seq<char>>
    decreases parts.len(),
{
    if parts.len() == 0 {
        Seq::empty()
    } else {
        let p = comma_list(parts.drop_last());
        let t = trimmed(parts.last());
        if t.len() == 0 {
            p
        } else {
            p.push(t)
        }
    }
}

proof fn lemma_split_part(s: Seq<char>, part: Seq<char>)
    requires
        !part.contains(','),
    ensures
        split_on(s + part, ',') == split_on(s, ',').drop_last().push(split_on(s, ',').last() + part),
    decreases part.len(),
{
    lemma_split_nonempty(s, ',');
    let p = split_on(s, ',');
    if part.len() == 0 {
        assert(s + part =~= s);
        assert(p.last() + part =~= p.last());
        assert(p.drop_last().push(p.last()) =~= p);
    } else {
        let rest = part.drop_last();
        assert forall|i: int| 0 <= i < rest.len() implies rest[i] != ',' by {
            assert(part[i] == rest[i]);
            assert(part.contains(part[i]));
        }
        lemma_split_part(s, rest);
        assert((s + part).drop_last() =~= s + rest);
        assert(part.contains(part.last()));
        let q = split_on(s + rest, ',');
        assert(q.drop_last() =~= p.drop_last());
        assert((p.last() + rest).push(part.last()) =~= p.last() + part);
        assert((s + part).last() == part.last());
    }
}

/// A list of plain names that are joined by commas is split into the same names.
pub proof fn lemma_list_read_back(parts: Seq<Seq<char>>)
    requires
        parts.len() > 0,
        forall|i: int|
            0 <= i < parts.len() ==> (#[trigger] parts[i]).len() > 0 && !parts[i].contains(',')
                && trimmed(parts[i]) == parts[i],
    ensures
        split_on(joined(parts, seq![',']), ',') == parts,
        comma_list(split_on(joined(parts, seq![',']), ',')) == parts,
    decreases parts.len(),
{
    let last = parts.last();
    let before = parts.drop_last();
    assert(parts[parts.len() - 1] == last);
    if parts.len() == 1 {
        lemma_split_part(Seq::empty(), last);
        assert(Seq::<char>::empty() + last =~= last);
        let p = split_on(Seq::<char>::empty(), ',');
        assert(p =~= seq![Seq::<char>::empty()]);
        assert(p.drop_last().push(p.last() + last) =~= parts);
        assert(before =~= Seq::empty());
        assert(before.push(last) =~= parts);
    } else {
        assert forall|i: int| 0 <= i < before.len() implies (#[trigger] before[i]).len() > 0
            && !before[i].contains(',') && trimmed(before[i]) == before[i] by {
            assert(parts[i] == before[i]);
        }
        lemma_list_read_back(before);
        let head = joined(before, seq![',']) + seq![','];
        assert(head.drop_last() =~= joined(before, seq![',']));
        assert(split_on(head, ',') == before.push(Seq::empty()));
        lemma_split_part(head, last);
        assert(before.push(Seq::<char>::empty()).drop_last() =~= before);
        assert(Seq::<char>::empty() + last =~= last);
        assert(before.push(last) =~= parts);
    }
    assert(comma_list(before) == before);
    assert(comma_list(parts) == before.push(last));
}

/// The non-empty trimmed parts of a comma-separated list.
pub fn split_commas(s: &str) -> (r: Vec<String>)
    ensures
        texts(r@) == comma_list(split_on(s@, ',')),
{
    let parts = split(s, ',');
    let ghost p = split_on(s@, ',');
    let mut out: Vec<String> = Vec::new();
    let mut i: usize = 0;
    assert(p.take(0) =~= Seq::<Seq<char>>::empty());
    assert(texts(out@) =~= Seq::<Seq<char>>::empty());
    while i < parts.len()
        invariant
            i <= parts@.len(),
            p == texts(parts@),
            texts(out@) == comma_list(p.take(i as int)),
        decreases parts@.len() - i,
    {
        let t = trim(parts[i].as_str());
        proof {
            assert(p.take(i + 1).drop_last() =~= p.take(i as int));
            assert(p.take(i + 1).last() == parts@[i as int]@);
            lemma_texts_push(out@, t);
        }
        if !t.as_str().is_empty() {
            out.push(t);
        }
        i += 1;
    }
    assert(p.take(p.len() as int) =~= p);
    out
}

/// All characters of a text are white space.
pub open spec fn all_space(s: Seq<char>) -> bool {
    forall|i: int| 0 <= i < s.len() ==> is_space(#[trigger] s[i])
}

proof fn lemma_trimmed_start(s: Seq<char>) -> (a: int)
    ensures
        0 <= a <= s.len(),
        trimmed_start(s) == s.skip(a),
        all_space(s.take(a)),
        trimmed_start(s).len() > 0 ==> !is_space(trimmed_start(s)[0]),
    decreases s.len(),
{
    if s.len() > 0 && is_space(s[0]) {
        let a = lemma_trimmed_start(s.skip(1)) + 1;
        assert(s.skip(1).skip(a - 1) =~= s.skip(a));
        assert forall|i: int| 0 <= i < a implies is_space(#[trigger] s.take(a)[i]) by {
            if i > 0 {
                assert(s.skip(1).take(a - 1)[i - 1] == s[i]);
            }
        }
        a
    } else {
        assert(s.skip(0) =~= s);
        0
    }
}

proof fn lemma_trimmed_end(s: Seq<char>) -> (b: int)
    ensures
        0 <= b <= s.len(),
        trimmed_end(s) == s.take(b),
        all_space(s.skip(b)),
        trimmed_end(s).len() > 0 ==> !is_space(trimmed_end(s).last()),
    decreases s.len(),
{
    if s.len() > 0 && is_space(s.last()) {
        let b = lemma_trimmed_end(s.drop_last());
        assert(s.drop_last().take(b) =~= s.take(b));
        assert forall|i: int| 0 <= i < s.len() - b implies is_space(#[trigger] s.skip(b)[i]) by {
            if i < s.len() - 1 - b {
                assert(s.drop_last().skip(b)[i] == s[b + i]);
            }
        }
        b
    } else {
        assert(s.take(s.len() as int) =~= s);
        s.len() as int
    }
}

/// Trimming takes away the white space at both ends, and nothing else.
pub proof fn law_trimming_takes_the_ends(s: Seq<char>)
    ensures
        exists|a: int, b: int|
            0 <= a <= b <= s.len() && trimmed(s) == #[trigger] s.subrange(a, b) && all_space(
                s.take(a),
            ) && all_space(s.skip(b)),
        trimmed(s).len() > 0 ==> !is_space(trimmed(s)[0]) && !is_space(trimmed(s).last()),
        trimmed(s).len() == 0 <==> all_space(s),
{
    let a = lemma_trimmed_start(s);
    let t = trimmed_start(s);
    let n = lemma_trimmed_end(t);
    assert(t.take(n) =~= s.subrange(a, a + n));
    assert(t.skip(n) =~= s.skip(a + n));
    assert(trimmed(s) == s.subrange(a, a + n));
    if trimmed(s).len() == 0 {
        assert forall|i: int| 0 <= i < s.len() implies is_space(#[trigger] s[i]) by {
            if i < a {
                assert(s.take(a)[i] == s[i]);
            } else {
                assert(s.skip(a + n)[i - a] == s[i]);
            }
        }
    } else {
        assert(trimmed(s)[0] == s[a]);
        assert(!is_space(trimmed(s).last()));
        assert(trimmed(s).last() == s[a + n - 1]);
        assert(t[0] == s[a]);
    }
}

/// Splitting loses nothing: the parts with the separator between them make up the text
/// again, and none of them holds it.
pub proof fn law_splitting_loses_nothing(s: Seq<char>, c: char)
    ensures
        joined(split_on(s, c), seq![c]) == s,
        forall|i: int| 0 <= i < split_on(s, c).len() ==> !(#[trigger] split_on(s, c)[i]).contains(c),
    decreases s.len(),
{
    if s.len() == 0 {
        assert(joined(split_on(s, c), seq![c]) =~= s);
    } else {
        let p = split_on(s.drop_last(), c);
        law_splitting_loses_nothing(s.drop_last(), c);
        lemma_split_nonempty(s.drop_last(), c);
        let r = split_on(s, c);
        if s.last() == c {
            assert(r =~= p.push(Seq::empty()));
            assert(r.drop_last() =~= p);
            assert(joined(r, seq![c]) =~= s.drop_last() + seq![c]);
        } else {
            assert(r =~= p.drop_last().push(p.last().push(s.last())));
            assert(r.drop_last() =~= p.drop_last());
            if p.len() == 1 {
                assert(p.last() == p[0]);
                assert(joined(r, seq![c]) =~= s.drop_last().push(s.last()));
            } else {
                assert(joined(r, seq![c]) =~= joined(p, seq![c]).push(s.last()));
            }
            assert forall|i: int| 0 <= i < r.len() implies !(#[trigger] r[i]).contains(c) by {
                if i < p.len() - 1 {
                    assert(r[i] == p[i]);
                } else {
                    assert(!p[p.len() - 1].contains(c));
                    if r[i].contains(c) {
                        let k = choose|k: int| 0 <= k < r[i].len() && r[i][k] == c;
                        assert(p.last()[k] == c);
                    }
                }
            }
        }
        assert(s =~= s.drop_last().push(s.last()));
    }
}

/// Joining puts lists one behind the other, with the separator between them.
pub proof fn law_joining_keeps_the_order(a: Seq<Seq<char>>, b: Seq<Seq<char>>, sep: Seq<char>)
    ensures
        joined(Seq::empty(), sep) == Seq::<char>::empty(),
        a.len() == 1 ==> joined(a, sep) == a[0],
        a.len() > 0 && b.len() > 0 ==> joined(a + b, sep) == joined(a, sep) + sep + joined(b, sep),
    decreases b.len(),
{
    if a.len() > 0 && b.len() > 0 {
        assert((a + b).drop_last() =~= a + b.drop_last());
        assert((a + b).last() == b.last());
        if b.len() == 1 {
            assert(a + b.drop_last() =~= a);
        } else {
            law_joining_keeps_the_order(a, b.drop_last(), sep);
            assert(joined(a + b, sep) =~= joined(a, sep) + sep + joined(b, sep));
        }
    }
}

proof fn lemma_fitting_is_longest(s: Seq<char>, max: nat) -> (n: int)
    ensures
        0 <= n <= s.len(),
        fitting_prefix(s, max) == s.take(n),
        utf8_len(s.take(n)) <= max,
        n < s.len() ==> utf8_len(s.take(n + 1)) > max,
    decreases s.len(),
{
    assert(s.take(s.len() as int) =~= s);
    if utf8_len(s) <= max || s.len() == 0 {
        s.len() as int
    } else {
        let n = lemma_fitting_is_longest(s.drop_last(), max);
        assert(s.drop_last().take(n) =~= s.take(n));
        if n < s.len() - 1 {
            assert(s.drop_last().take(n + 1) =~= s.take(n + 1));
        }
        n
    }
}

/// A text that is cut begins as it did, is not longer than asked for before the mark at
/// its end, and could not be longer; one that fits stays whole.
pub proof fn law_cutting_keeps_the_beginning(s: Seq<char>, max: nat)
    ensures
        utf8_len(s) <= max ==> shortened(s, max) == s,
        utf8_len(s) > max ==> {
            let t = shortened(s, max).drop_last();
            &&& shortened(s, max).len() > 0 && shortened(s, max).last() == '\u{2026}'
            &&& t.len() < s.len() && t == s.take(t.len() as int)
            &&& utf8_len(t) <= max < utf8_len(s.take(t.len() as int + 1))
        },
{
    let n = lemma_fitting_is_longest(s, max);
    if utf8_len(s) > max {
        assert(s.take(s.len() as int) =~= s);
        assert(shortened(s, max).drop_last() =~= s.take(n));
    }
}

/// The first characters of a text: so many, or all where there are fewer.
pub proof fn law_first_characters(s: Seq<char>, n: nat)
    ensures
        first_chars(s, n).len() == if s.len() < n {
            s.len()
        } else {
            n
        },
        forall|i: int| 0 <= i < first_chars(s, n).len() ==> #[trigger] first_chars(s, n)[i] == s[i],
{
}

/// A search for a character finds the first place from a position on, and the last place
/// of all.
pub proof fn law_characters_are_found(s: Seq<char>, c: char, i: int)
    requires
        0 <= i,
    ensures
        match index_from(s, c, i) {
            Some(k) => i <= k < s.len() && s[k] == c && forall|j: int| i <= j < k ==> #[trigger] s[j] != c,
            None => forall|j: int| i <= j < s.len() ==> #[trigger] s[j] != c,
        },
        match last_index(s, c) {
            Some(k) => 0 <= k < s.len() && s[k] == c && forall|j: int|
                k < j < s.len() ==> #[trigger] s[j] != c,
            None => !s.contains(c),
        },
    decreases s.len() - i, s.len(),
{
    if i < s.len() && s[i] != c {
        law_characters_are_found(s, c, i + 1);
    }
    lemma_last_index(s, c);
}

proof fn lemma_last_index(s: Seq<char>, c: char)
    ensures
        match last_index(s, c) {
            Some(k) => 0 <= k < s.len() && s[k] == c && forall|j: int|
                k < j < s.len() ==> #[trigger] s[j] != c,
            None => !s.contains(c),
        },
    decreases s.len(),
{
    if s.len() > 0 && s.last() != c {
        let p = s.drop_last();
        lemma_last_index(p, c);
        match last_index(p, c) {
            Some(k) => {
                assert forall|j: int| k < j < s.len() implies #[trigger] s[j] != c by {
                    if j < p.len() {
                        assert(p[j] != c);
                    }
                }
            },
            None => {
                if s.contains(c) {
                    let k = choose|k: int| 0 <= k < s.len() && s[k] == c;
                    assert(p[k] == c);
                }
            },
        }
    }
}

/// A search for a text finds the first place from a position on.
pub proof fn law_texts_are_found(hay: Seq<char>, needle: Seq<char>, i: int)
    requires
        0 <= i,
    ensures
        match find_at(hay, needle, i) {
            Some(k) => i <= k && stands_at(hay, needle, k) && forall|j: int|
                i <= j < k ==> !#[trigger] stands_at(hay, needle, j),
            None => forall|j: int| i <= j ==> !#[trigger] stands_at(hay, needle, j),
        },
    decreases hay.len() + 1 - i,
{
    if i + needle.len() <= hay.len() && !stands_at(hay, needle, i) {
        law_texts_are_found(hay, needle, i + 1);
    }
}

/// The order of texts goes by their characters: where one begins the other it comes first,
/// and else the first character in which they differ decides.
pub proof fn law_order_goes_by_characters(a: Seq<char>, b: Seq<char>, c: char, d: char, x: Seq<char>, y: Seq<char>)
    ensures
        sorted_le(a, a + b),
        c < d ==> sorted_le(a + seq![c] + x, a + seq![d] + y) && !sorted_le(
            a + seq![d] + y,
            a + seq![c] + x,
        ),
    decreases a.len(),
{
    let l = a + seq![c] + x;
    let r = a + seq![d] + y;
    if a.len() == 0 {
        assert(l[0] == c && r[0] == d);
    } else {
        law_order_goes_by_characters(a.skip(1), b, c, d, x, y);
        assert(l.skip(1) =~= a.skip(1) + seq![c] + x);
        assert(r.skip(1) =~= a.skip(1) + seq![d] + y);
        assert((a + b).skip(1) =~= a.skip(1) + b);
        assert((a + b)[0] == a[0] && l[0] == a[0] && r[0] == a[0]);
    }
}

/// A number in decimal notation: its last character is its last digit, and what stands
/// before is the number without it.
pub proof fn law_decimals_are_written_out(n: nat, d: nat)
    requires
        d < 10,
    ensures
        dec(d).len() == 1,
        dec(d)[0] as u32 == 48 + d,
        n > 0 ==> dec(10 * n + d) == dec(n) + dec(d),
{
    assert(seq![digit_char(d)][0] == digit_char(d));
    if n > 0 {
        assert((10 * n + d) / 10 == n && (10 * n + d) % 10 == d) by (nonlinear_arith)
            requires
                d < 10,
        ;
        assert(dec(10 * n + d) =~= dec(n) + dec(d));
    }
}

proof fn lemma_one_part(a: Seq<char>, c: char)
    requires
        !a.contains(c),
    ensures
        split_on(a, c) == seq![a],
    decreases a.len(),
{
    if a.len() > 0 {
        assert(a.contains(a.last()));
        assert(!a.drop_last().contains(c)) by {
            if a.drop_last().contains(c) {
                let k = choose|k: int| 0 <= k < a.drop_last().len() && a.drop_last()[k] == c;
                assert(a[k] == c);
            }
        }
        lemma_one_part(a.drop_last(), c);
        assert(a.drop_last().push(a.last()) =~= a);
        assert(split_on(a, c) =~= seq![a]);
    } else {
        assert(a =~= Seq::empty());
        assert(split_on(a, c) =~= seq![a]);
    }
}

/// A text without the separator is one part; behind the separator the next part begins.
pub proof fn law_parts_stand_apart(a: Seq<char>, c: char, b: Seq<char>)
    requires
        !a.contains(c),
    ensures
        split_on(a, c) == seq![a],
        split_on(a + seq![c] + b, c) == seq![a] + split_on(b, c),
    decreases b.len(),
{
    lemma_one_part(a, c);
    let s = a + seq![c] + b;
    if b.len() == 0 {
        assert(s.drop_last() =~= a);
        assert(s.last() == c);
        assert(split_on(s, c) =~= seq![a] + split_on(b, c));
    } else {
        assert(s.drop_last() =~= a + seq![c] + b.drop_last());
        assert(s.last() == b.last());
        law_parts_stand_apart(a, c, b.drop_last());
        lemma_split_nonempty(b.drop_last(), c);
        let p = split_on(s.drop_last(), c);
        let q = split_on(b.drop_last(), c);
        assert(p == seq![a] + q);
        assert(p.drop_last() =~= seq![a] + q.drop_last());
        assert(p.last() == q.last());
        assert(split_on(s, c) =~= seq![a] + split_on(b, c));
    }
}

/// A line ends at a line feed, with or without a carriage return before it; a last line
/// need not end.
pub proof fn law_lines_end_at_line_feeds(line: Seq<char>, rest: Seq<char>)
    requires
        !line.contains('\n'),
    ensures
        lines_of(Seq::empty()) == Seq::<Seq<char>>::empty(),
        line.len() > 0 ==> lines_of(line) == seq![line],
        line.len() == 0 || line.last() != '\r' ==> lines_of(line + seq!['\n'] + rest) == seq![line]
            + lines_of(rest),
        lines_of(line + seq!['\r', '\n'] + rest) == seq![line] + lines_of(rest),
{
    lemma_one_part(Seq::empty(), '\n');
    assert(lines_of(Seq::empty()) =~= Seq::<Seq<char>>::empty());
    lemma_one_part(line, '\n');
    assert(line.len() > 0 ==> lines_of(line) =~= seq![line]);
    lemma_split_nonempty(rest, '\n');
    law_parts_stand_apart(line, '\n', rest);
    let p = split_on(rest, '\n');
    let q = seq![line] + p;
    assert(q.drop_last() =~= seq![line] + p.drop_last());
    assert(q.last() == p.last());
    if line.len() == 0 || line.last() != '\r' {
        assert(lines_of(line + seq!['\n'] + rest) =~= seq![line] + lines_of(rest));
    }
    let long = line.push('\r');
    assert(!long.contains('\n')) by {
        if long.contains('\n') {
            let k = choose|k: int| 0 <= k < long.len() && long[k] == '\n';
            assert(line[k] == '\n');
        }
    }
    law_parts_stand_apart(long, '\n', rest);
    assert(long + seq!['\n'] + rest =~= line + seq!['\r', '\n'] + rest);
    let w = seq![long] + p;
    assert(w.drop_last() =~= seq![long] + p.drop_last());
    assert(w.last() == p.last());
    assert(without_cr(long) =~= line);
    assert(lines_of(line + seq!['\r', '\n'] + rest) =~= seq![line] + lines_of(rest));
}

/// A list is read item by item: each is trimmed, and an empty one is left out.
pub proof fn law_lists_are_read_item_by_item(a: Seq<Seq<char>>, b: Seq<Seq<char>>, item: Seq<char>)
    ensures
        comma_list(a + b) == comma_list(a) + comma_list(b),
        comma_list(seq![item]) == if trimmed(item).len() == 0 {
            Seq::empty()
        } else {
            seq![trimmed(item)]
        },
    decreases b.len(),
{
    assert(seq![item].drop_last() =~= Seq::empty());
    assert(comma_list(seq![item].drop_last()) =~= Seq::empty());
    assert(comma_list(seq![item]) =~= if trimmed(item).len() == 0 {
        Seq::empty()
    } else {
        seq![trimmed(item)]
    });
    if b.len() == 0 {
        assert(a + b =~= a);
        assert(comma_list(a) + comma_list(b) =~= comma_list(a));
    } else {
        law_lists_are_read_item_by_item(a, b.drop_last(), item);
        assert((a + b).drop_last() =~= a + b.drop_last());
        assert((a + b).last() == b.last());
        assert(comma_list(a + b) =~= comma_list(a) + comma_list(b));
    }
}

/// Lowering changes the capital letters of ASCII into their small ones and nothing else, and
/// to replace a character leaves the others where they are.
pub proof fn law_characters_change_in_place(s: Seq<char>, i: int, from: char, to: char)
    requires
        0 <= i < s.len(),
    ensures
        ascii_lowered(s).len() == s.len(),
        65 <= s[i] as u32 <= 90 ==> ascii_lowered(s)[i] as u32 == s[i] as u32 + 32,
        !(65 <= s[i] as u32 <= 90) ==> ascii_lowered(s)[i] == s[i],
        replaced(s, from, to).len() == s.len(),
        replaced(s, from, to)[i] == if s[i] == from {
            to
        } else {
            s[i]
        },
{
}

/// The marks at the end of a text go, and nothing else does.
pub proof fn law_marks_go_from_the_end(s: Seq<char>, marks: Seq<char>, tail: Seq<char>)
    requires
        s.len() == 0 || !marks.contains(s.last()),
        forall|i: int| 0 <= i < tail.len() ==> marks.contains(#[trigger] tail[i]),
    ensures
        without_marks(s + tail, marks) == s,
    decreases tail.len(),
{
    if tail.len() == 0 {
        assert(s + tail =~= s);
    } else {
        assert((s + tail).last() == tail[tail.len() - 1]);
        assert((s + tail).drop_last() =~= s + tail.drop_last());
        assert forall|i: int| 0 <= i < tail.drop_last().len() implies marks.contains(
            #[trigger] tail.drop_last()[i],
        ) by {
            assert(tail.drop_last()[i] == tail[i]);
        }
        law_marks_go_from_the_end(s, marks, tail.drop_last());
    }
}

/// The bytes of a text are those of its characters: one for those of ASCII, and up to four
/// for others.
pub proof fn law_bytes_are_counted(a: Seq<char>, b: Seq<char>, c: char)
    ensures
        utf8_len(a + b) == utf8_len(a) + utf8_len(b),
        utf8_len(seq![c]) == if (c as u32) < 128 {
            1nat
        } else if (c as u32) < 2048 {
            2
        } else if (c as u32) < 65536 {
            3
        } else {
            4
        },
    decreases b.len(),
{
    assert(seq![c].drop_last() =~= Seq::empty());
    assert(utf8_len(seq![c].drop_last()) == 0);
    if b.len() == 0 {
        assert(a + b =~= a);
    } else {
        law_bytes_are_counted(a, b.drop_last(), c);
        assert((a + b).drop_last() =~= a + b.drop_last());
        assert((a + b).last() == b.last());
    }
}

/// A number is read from its digits, with or without a plus before them, up to the largest
/// that is asked for; what holds anything else is none.
pub proof fn law_numbers_are_read(n: nat, max: nat, s: Seq<char>)
    ensures
        spelled(dec(n), max) == if n <= max {
            Some(n)
        } else {
            None
        },
        spelled(seq!['+'] + dec(n), max) == spelled(dec(n), max),
        s.len() == 0 ==> spelled(s, max) is None,
        (exists|i: int| 0 < i < s.len() && !('0' <= #[trigger] s[i] <= '9')) ==> spelled(s, max) is None,
        s.len() > 0 && s[0] != '+' && !('0' <= s[0] <= '9') ==> spelled(s, max) is None,
{
    law_decimal_is_read_back(n, n);
    let t = seq!['+'] + dec(n);
    assert(t.skip(1) =~= dec(n));
    assert(dec(n)[0] != '+') by {
        assert(is_digit(dec(n)[0]));
    }
    if exists|i: int| 0 < i < s.len() && !('0' <= #[trigger] s[i] <= '9') {
        let i = choose|i: int| 0 < i < s.len() && !('0' <= #[trigger] s[i] <= '9');
        let d = unsigned_digits(s);
        if s[0] == '+' {
            assert(d[i - 1] == s[i]);
        }
        assert(!all_digits(d)) by {
            if all_digits(d) {
                if s[0] == '+' {
                    assert(is_digit(d[i - 1]));
                } else {
                    assert(is_digit(d[i]));
                }
            }
        }
    }
    if s.len() > 0 && s[0] != '+' && !('0' <= s[0] <= '9') {
        assert(!is_digit(s[0]));
    }
}

/// What is known of texts is what they hold, each in its place.
pub proof fn law_texts_hold_their_characters(v: Seq<String>, i: int, o: Option<String>)
    requires
        0 <= i < v.len(),
    ensures
        texts(v).len() == v.len(),
        texts(v)[i] == v[i]@,
        o is None <==> opt_text(o) is None,
        o matches Some(s) ==> opt_text(o) == Some(s@),
{
}

} // verus!
