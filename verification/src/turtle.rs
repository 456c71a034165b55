//! A scanner for the Turtle subset that ontology reasoners export. It finds
//! the triples whose predicate is one of the controlled relations.
use vstd::prelude::*;
use vstd::slice::*;
use crate::text;

verus! {

/// The position of the quote that closes a literal whose text begins at `j`; a
/// backslash takes the character behind it into the literal.
pub open spec fn closing_quote(s: Seq<char>, quote: char, j: int) -> Option<int>
    decreases s.len() + 1 - j,
{
    if j < 0 || j >= s.len() {
        None
    } else if s[j] == '\\' {
        closing_quote(s, quote, j + 2)
    } else if s[j] == quote {
        Some(j)
    } else {
        closing_quote(s, quote, j + 1)
    }
}

pub proof fn lemma_closing_quote(s: Seq<char>, quote: char, j: int)
    requires
        0 <= j,
    ensures
        match closing_quote(s, quote, j) {
            Some(k) => j <= k < s.len(),
            None => true,
        },
    decreases s.len() + 1 - j,
{
    if j < s.len() && s[j] == '\\' {
        lemma_closing_quote(s, quote, j + 2);
    } else if j < s.len() && s[j] != quote {
        lemma_closing_quote(s, quote, j + 1);
    }
}

/// The position of the quote that closes a literal whose text begins at `j`.
fn find_closing_quote(v: &[char], quote: char, j: usize) -> (r: Option<usize>)
    requires
        j <= v@.len(),
    ensures
        match r {
            Some(k) => closing_quote(v@, quote, j as int) == Some(k as int) && j <= k < v@.len(),
            None => closing_quote(v@, quote, j as int) is None,
        },
{
    let mut k: usize = j;
    while k < v.len()
        invariant
            j <= k <= v@.len(),
            closing_quote(v@, quote, j as int) == closing_quote(v@, quote, k as int),
        decreases v@.len() - k,
    {
        if v[k] == '\\' {
            if k + 1 >= v.len() {
                assert(closing_quote(v@, quote, k + 2) is None);
                return None;
            }
            k += 2;
        } else if v[k] == quote {
            return Some(k);
        } else {
            k += 1;
        }
    }
    None
}

pub open spec fn is_quote(c: char) -> bool {
    c == '"' || c == '\''
}

/// Where the comment of the line `s` begins, looking from `i` on: at the first
/// `#` outside of IRIs and literals, or where an IRI or a literal is left open.
/// The end of the line where there is no comment.
pub open spec fn comment_from(s: Seq<char>, i: int) -> int
    decreases s.len() - i,
{
    if i < 0 || i >= s.len() {
        s.len() as int
    } else if s[i] == '<' {
        proof {
            text::lemma_index_from(s, '>', i + 1);
        }
        match text::index_from(s, '>', i + 1) {
            Some(e) => comment_from(s, e + 1),
            None => i,
        }
    } else if is_quote(s[i]) {
        proof {
            lemma_closing_quote(s, s[i], i + 1);
        }
        match closing_quote(s, s[i], i + 1) {
            Some(e) => comment_from(s, e + 1),
            None => i,
        }
    } else if s[i] == '#' {
        i
    } else {
        comment_from(s, i + 1)
    }
}

/// The line `s` without its comment.
pub open spec fn uncommented(s: Seq<char>) -> Seq<char> {
    s.take(comment_from(s, 0))
}

/// Strips the comment of a Turtle line: all from the first bare `#` on. A `#`
/// inside of `<...>` or of a quoted literal begins none.
pub fn strip_inline_comment(line: &str) -> (r: String)
    ensures
        r@ == uncommented(line@),
{
    let v = text::chars_of(line);
    let mut i: usize = 0;
    while i < v.len()
        invariant
            i <= v@.len(),
            v@ == line@,
            comment_from(line@, 0) == comment_from(line@, i as int),
        decreases v@.len() - i,
    {
        let c = v[i];
        if c == '<' {
            match text::index_of(&v, '>', i + 1) {
                Some(e) => {
                    i = e + 1;
                },
                None => {
                    let t = text::string_between(&v, 0, i);
                    assert(t@ =~= uncommented(line@));
                    return t;
                },
            }
        } else if c == '"' || c == '\'' {
            match find_closing_quote(&v, c, i + 1) {
                Some(e) => {
                    i = e + 1;
                },
                None => {
                    let t = text::string_between(&v, 0, i);
                    assert(t@ =~= uncommented(line@));
                    return t;
                },
            }
        } else if c == '#' {
            let t = text::string_between(&v, 0, i);
            assert(t@ =~= uncommented(line@));
            return t;
        } else {
            i += 1;
        }
    }
    assert(line@.take(line@.len() as int) =~= line@);
    text::string_of(&v)
}

/// The characters that a prefixed name, a blank node label or the predicate `a`
/// begins with.
pub open spec fn is_word_start(c: char) -> bool {
    is_qname_first(c) || c == ':'
}

/// Letters, digits, `_` and `-`.
pub open spec fn is_qname_first(c: char) -> bool {
    text::is_alnum(c) || c == '_' || c == '-'
}

/// Tells whether `c` can begin a prefixed name.
pub fn is_qname_start(c: char) -> (r: bool)
    ensures
        r == is_qname_first(c),
{
    text::alnum(c) || c == '_' || c == '-'
}

/// What ends a language tag.
pub open spec fn lang_stops() -> Seq<char> {
    seq![' ', '\t', ';', ',', '.']
}

/// What ends a word.
pub open spec fn word_stops() -> Seq<char> {
    seq![' ', '\t', ';', ',', '<', '"', '\'', '>']
}

/// What ends a run of characters that mean nothing here.
pub open spec fn noise_stops() -> Seq<char> {
    seq!['<', ';', ',', '"', '\'', ' ', '\t']
}

/// The tokens of the line `s` from `i` on: IRIs with their angle brackets, blank
/// node property lists with their square brackets, words, and the separators
/// `;` and `,`. Literals yield none, nor do their datatypes and language tags.
/// Where an IRI, a literal or a property list is left open, the line ends.
pub open spec fn tokens_from(s: Seq<char>, i: int) -> Seq<Seq<char>>
    decreases s.len() - i,
{
    if i < 0 || i >= s.len() {
        Seq::empty()
    } else if s[i] == '<' {
        proof {
            text::lemma_index_from(s, '>', i);
        }
        match text::index_from(s, '>', i) {
            Some(e) => seq![s.subrange(i, e + 1)] + tokens_from(s, e + 1),
            None => Seq::empty(),
        }
    } else if is_quote(s[i]) {
        proof {
            lemma_closing_quote(s, s[i], i + 1);
        }
        match closing_quote(s, s[i], i + 1) {
            None => Seq::empty(),
            Some(e) => {
                proof {
                    text::lemma_index_from(s, '>', e + 1);
                    text::lemma_stop_from(s, lang_stops(), e + 1);
                }
                if e + 2 < s.len() && s[e + 1] == '^' && s[e + 2] == '^' {
                    match text::index_from(s, '>', e + 1) {
                        Some(x) => tokens_from(s, x + 1),
                        None => Seq::empty(),
                    }
                } else if e + 1 < s.len() && s[e + 1] == '@' {
                    tokens_from(s, text::stop_from(s, lang_stops(), e + 1))
                } else {
                    tokens_from(s, e + 1)
                }
            },
        }
    } else if s[i] == ';' || s[i] == ',' {
        seq![seq![s[i]]] + tokens_from(s, i + 1)
    } else if s[i] == '[' {
        proof {
            text::lemma_index_from(s, ']', i);
        }
        match text::index_from(s, ']', i) {
            Some(e) => seq![s.subrange(i, e + 1)] + tokens_from(s, e + 1),
            None => Seq::empty(),
        }
    } else if is_word_start(s[i]) {
        proof {
            text::lemma_stop_from(s, word_stops(), i + 1);
        }
        let e = text::stop_from(s, word_stops(), i + 1);
        seq![s.subrange(i, e)] + tokens_from(s, e)
    } else {
        proof {
            text::lemma_stop_from(s, noise_stops(), i + 1);
        }
        let e = text::stop_from(s, noise_stops(), i);
        if e <= i {
            tokens_from(s, i + 1)
        } else {
            tokens_from(s, e)
        }
    }
}

/// Cuts a line into its tokens.
pub fn tokenize_ttl(line: &str) -> (r: Vec<String>)
    ensures
        text::texts(r@) == tokens_from(line@, 0),
{
    let v = text::chars_of(line);
    let mut out: Vec<String> = Vec::new();
    let mut i: usize = 0;
    let ghost all = tokens_from(line@, 0);
    assert(text::texts(out@) + tokens_from(line@, 0) =~= all);
    while i < v.len()
        invariant
            i <= v@.len(),
            v@ == line@,
            text::texts(out@) + tokens_from(line@, i as int) == all,
        ensures
            text::texts(out@) == all,
        decreases v@.len() - i,
    {
        let c = v[i];
        let ghost before = out@;
        if c == '<' || c == '[' {
            let close = if c == '<' {
                '>'
            } else {
                ']'
            };
            match text::index_of(&v, close, i) {
                Some(e) => {
                    let t = text::string_between(&v, i, e + 1);
                    proof {
                        text::lemma_texts_push(before, t);
                        assert(text::texts(before).push(t@) + tokens_from(line@, e + 1) =~= all);
                    }
                    out.push(t);
                    i = e + 1;
                },
                None => {
                    assert(text::texts(out@) =~= all);
                    break;
                },
            }
        } else if c == '"' || c == '\'' {
            match find_closing_quote(&v, c, i + 1) {
                None => {
                    assert(text::texts(out@) =~= all);
                    break;
                },
                Some(e) => {
                    if v.len() - e > 2 && v[e + 1] == '^' && v[e + 2] == '^' {
                        match text::index_of(&v, '>', e + 1) {
                            Some(x) => {
                                i = x + 1;
                            },
                            None => {
                                assert(text::texts(out@) =~= all);
                                break;
                            },
                        }
                    } else if e + 1 < v.len() && v[e + 1] == '@' {
                        i = text::find_stop(&v, &[' ', '\t', ';', ',', '.'], e + 1);
                    } else {
                        i = e + 1;
                    }
                },
            }
        } else if c == ';' || c == ',' {
            let mut t = String::new();
            t.push(c);
            proof {
                assert(t@ =~= seq![c]);
                text::lemma_texts_push(before, t);
                assert(text::texts(before).push(t@) + tokens_from(line@, i + 1) =~= all);
            }
            out.push(t);
            i += 1;
        } else if is_qname_start(c) || c == ':' {
            let e = text::find_stop(&v, &[' ', '\t', ';', ',', '<', '"', '\'', '>'], i + 1);
            let t = text::string_between(&v, i, e);
            proof {
                text::lemma_texts_push(before, t);
                assert(text::texts(before).push(t@) + tokens_from(line@, e as int) =~= all);
            }
            out.push(t);
            i = e;
        } else {
            let e = text::find_stop(&v, &['<', ';', ',', '"', '\'', ' ', '\t'], i);
            if e == i {
                i += 1;
            } else {
                i = e;
            }
        }
    }
    out
}

/// `s` without the angle brackets around it, where it has both.
pub open spec fn in_brackets(s: Seq<char>) -> Option<Seq<char>> {
    if s.len() >= 2 && s[0] == '<' && s.last() == '>' {
        Some(s.subrange(1, s.len() - 1))
    } else {
        None
    }
}

fn unbracket(v: &[char]) -> (r: Option<String>)
    ensures
        text::opt_text(r) == in_brackets(v@),
{
    if v.len() >= 2 && v[0] == '<' && v[v.len() - 1] == '>' {
        Some(text::string_between(v, 1, v.len() - 1))
    } else {
        None
    }
}

/// The IRI in the end `s` of a declaration: in angle brackets, with or without
/// a full stop behind it.
pub open spec fn declared_iri(s: Seq<char>) -> Option<Seq<char>> {
    let t = text::trimmed_start(s);
    let u = if t.len() > 0 && t.last() == '.' {
        t.drop_last()
    } else {
        t
    };
    in_brackets(text::trimmed_end(u))
}

fn read_declared_iri(v: &[char]) -> (r: Option<String>)
    ensures
        text::opt_text(r) == declared_iri(v@),
{
    let i = text::first_solid(v);
    let t = slice_subrange(v, i, v.len());
    assert(t@ =~= text::trimmed_start(v@));
    let n: usize = if t.len() > 0 && t[t.len() - 1] == '.' {
        t.len() - 1
    } else {
        t.len()
    };
    let u = slice_subrange(t, 0, n);
    proof {
        if t@.len() > 0 && t@.last() == '.' {
            assert(u@ =~= t@.drop_last());
        } else {
            assert(u@ =~= t@);
        }
    }
    let j = text::last_solid(u);
    let w = slice_subrange(u, 0, j);
    assert(w@ =~= u@.take(j as int));
    unbracket(w)
}

/// The prefix and the IRI of a declaration `@prefix p: <iri> .`
pub open spec fn prefix_decl(line: Seq<char>) -> Option<(Seq<char>, Seq<char>)> {
    match text::without_prefix(line, "@prefix"@) {
        None => None,
        Some(rest) => {
            let t = text::trimmed_start(rest);
            match text::index_from(t, ':', 0) {
                None => None,
                Some(c) => match declared_iri(t.skip(c + 1)) {
                    None => None,
                    Some(iri) => Some((text::trimmed(t.take(c)), iri)),
                },
            }
        },
    }
}

/// Reads a declaration `@prefix p: <iri> .`; the prefix may be empty.
pub fn parse_prefix_decl(line: &str) -> (r: Option<(String, String)>)
    ensures
        match r {
            Some(p) => prefix_decl(line@) == Some((p.0@, p.1@)),
            None => prefix_decl(line@) is None,
        },
{
    let rest = match text::strip_prefix(line, "@prefix") {
        None => return None,
        Some(rest) => rest,
    };
    let v = text::chars_of(rest.as_str());
    let i = text::first_solid(&v);
    let t = slice_subrange(&v, i, v.len());
    assert(t@ =~= text::trimmed_start(rest@));
    match text::index_of(t, ':', 0) {
        None => None,
        Some(c) => {
            let name = slice_subrange(t, 0, c);
            let tail = slice_subrange(t, c + 1, t.len());
            proof {
                assert(name@ =~= t@.take(c as int));
                assert(tail@ =~= t@.skip(c + 1));
            }
            match read_declared_iri(tail) {
                None => None,
                Some(iri) => Some((text::string_of(&text::trim_chars(name)), iri)),
            }
        },
    }
}

/// The IRI of a declaration `@base <iri> .`
pub open spec fn base_decl(line: Seq<char>) -> Option<Seq<char>> {
    match text::without_prefix(line, "@base"@) {
        None => None,
        Some(rest) => declared_iri(rest),
    }
}

/// Reads a declaration `@base <iri> .`
pub fn parse_base_decl(line: &str) -> (r: Option<String>)
    ensures
        text::opt_text(r) == base_decl(line@),
{
    match text::strip_prefix(line, "@base") {
        None => None,
        Some(rest) => read_declared_iri(&text::chars_of(rest.as_str())),
    }
}

pub open spec fn is_letter(c: char) -> bool {
    'a' <= c <= 'z' || 'A' <= c <= 'Z'
}

pub open spec fn is_scheme_char(c: char) -> bool {
    text::is_alnum(c) || c == '+' || c == '-' || c == '.'
}

/// `iri` begins with a scheme and a colon, and something follows.
pub open spec fn has_scheme(iri: Seq<char>) -> bool {
    match text::index_from(iri, ':', 0) {
        None => false,
        Some(c) => {
            &&& c + 1 < iri.len()
            &&& c > 0
            &&& is_letter(iri[0])
            &&& forall|k: int| 0 <= k < c ==> is_scheme_char(#[trigger] iri[k])
        },
    }
}

/// `iri` needs no base: it has a scheme, or begins with `//`.
pub open spec fn is_absolute(iri: Seq<char>) -> bool {
    has_scheme(iri) || (iri.len() >= 2 && iri[0] == '/' && iri[1] == '/')
}

fn absolute(v: &[char]) -> (r: bool)
    ensures
        r == is_absolute(v@),
{
    if v.len() >= 2 && v[0] == '/' && v[1] == '/' {
        return true;
    }
    match text::index_of(v, ':', 0) {
        None => false,
        Some(c) => {
            if c + 1 >= v.len() || c == 0 {
                return false;
            }
            let f = v[0];
            if !(('a' <= f && f <= 'z') || ('A' <= f && f <= 'Z')) {
                return false;
            }
            let mut k: usize = 0;
            while k < c
                invariant
                    k <= c < v@.len(),
                    text::index_from(v@, ':', 0) == Some(c as int),
                    !(v@.len() >= 2 && v@[0] == '/' && v@[1] == '/'),
                    forall|j: int| 0 <= j < k ==> is_scheme_char(#[trigger] v@[j]),
                decreases c - k,
            {
                if !(text::alnum(v[k]) || v[k] == '+' || v[k] == '-' || v[k] == '.') {
                    assert(!is_scheme_char(v@[k as int]));
                    return false;
                }
                k += 1;
            }
            true
        },
    }
}

/// The scheme of `base`, and all behind `://`. Without `://`, no scheme.
pub open spec fn scheme_split(base: Seq<char>) -> (Seq<char>, Seq<char>) {
    match text::find_at(base, "://"@, 0) {
        Some(i) => (base.take(i), base.skip(i + 3)),
        None => (Seq::empty(), base),
    }
}

/// The authority and the path of what stands behind the scheme.
pub open spec fn path_split(rest: Seq<char>) -> (Seq<char>, Seq<char>) {
    match text::index_from(rest, '/', 0) {
        Some(i) => (rest.take(i), rest.skip(i)),
        None => (rest, Seq::empty()),
    }
}

/// The directory part of a path, with its closing slash.
pub open spec fn directory(path: Seq<char>) -> Seq<char> {
    match text::last_index(path, '/') {
        Some(i) => path.take(i + 1),
        None => "/"@,
    }
}

/// The relative reference `rel`, resolved against `base`: one that begins with a
/// slash replaces the path, any other the part behind the last slash.
pub open spec fn resolved(base: Seq<char>, rel: Seq<char>) -> Seq<char> {
    let (scheme, rest) = scheme_split(base);
    let (authority, path) = path_split(rest);
    if rel.len() > 0 && rel[0] == '/' {
        scheme + "://"@ + authority + rel
    } else {
        scheme + "://"@ + authority + directory(path) + rel
    }
}

/// Resolves the relative reference `rel` against `base`.
pub fn resolve_iri(base: &str, rel: &str) -> (r: String)
    ensures
        r@ == resolved(base@, rel@),
{
    let b = text::chars_of(base);
    let rv = text::chars_of(rel);
    let marker = text::chars_of("://");
    proof {
        reveal_strlit("://");
    }
    let len = b.len();
    let (scheme_end, rest_from): (usize, usize) = match text::find_sub(&b, &marker, 0) {
        Some(i) => {
            assert(marker@.len() == 3);
            assert(i + 3 <= len);
            (i, i + 3)
        },
        None => (0, 0),
    };
    let scheme = text::string_between(&b, 0, scheme_end);
    let rest = slice_subrange(&b, rest_from, b.len());
    proof {
        assert(scheme@ =~= scheme_split(base@).0);
        assert(rest@ =~= scheme_split(base@).1);
    }
    let cut: usize = match text::index_of(rest, '/', 0) {
        Some(i) => i,
        None => rest.len(),
    };
    let authority = text::string_between(rest, 0, cut);
    let path = slice_subrange(rest, cut, rest.len());
    proof {
        assert(authority@ =~= path_split(rest@).0);
        assert(path@ =~= path_split(rest@).1);
    }
    let mut out = scheme;
    out.append("://");
    out.append(authority.as_str());
    if !(rv.len() > 0 && rv[0] == '/') {
        match text::last_index_of(path, '/') {
            Some(i) => {
                let dir = text::string_between(path, 0, i + 1);
                assert(dir@ =~= path@.take(i + 1));
                out.append(dir.as_str());
            },
            None => {
                out.append("/");
            },
        }
    }
    out.append(rel);
    out
}

/// The IRI that a token stands for: one in angle brackets, resolved against the
/// base where it is relative and there is a base, or a name with a declared
/// prefix. Any other token stands for none.
pub open spec fn expanded(
    tok: Seq<char>,
    prefixes: Map<Seq<char>, Seq<char>>,
    base: Option<Seq<char>>,
) -> Option<Seq<char>> {
    match in_brackets(tok) {
        Some(inner) => match base {
            Some(b) if !is_absolute(inner) => Some(resolved(b, inner)),
            _ => Some(inner),
        },
        None => match text::index_from(tok, ':', 0) {
            Some(c) if prefixes.dom().contains(tok.take(c)) => Some(
                prefixes[tok.take(c)] + tok.skip(c + 1),
            ),
            _ => None,
        },
    }
}

/// What a list of prefix declarations means: a later one replaces an earlier
/// one of the same prefix.
pub open spec fn prefix_map(v: Seq<(String, String)>) -> Map<Seq<char>, Seq<char>>
    decreases v.len(),
{
    if v.len() == 0 {
        Map::empty()
    } else {
        prefix_map(v.drop_last()).insert(v.last().0@, v.last().1@)
    }
}

fn lookup_prefix<'a>(v: &'a Vec<(String, String)>, name: &str) -> (r: Option<&'a String>)
    ensures
        match r {
            Some(iri) => prefix_map(v@).dom().contains(name@) && prefix_map(v@)[name@] == iri@,
            None => !prefix_map(v@).dom().contains(name@),
        },
{
    let mut k: usize = v.len();
    assert(v@.take(k as int) =~= v@);
    while k > 0
        invariant
            k <= v@.len(),
            prefix_map(v@).dom().contains(name@) == prefix_map(v@.take(k as int)).dom().contains(
                name@,
            ),
            prefix_map(v@)[name@] == prefix_map(v@.take(k as int))[name@],
        decreases k,
    {
        proof {
            assert(v@.take(k as int).drop_last() =~= v@.take(k - 1));
            assert(v@.take(k as int).last() == v@[k - 1]);
        }
        if text::same(v[k - 1].0.as_str(), name) {
            return Some(&v[k - 1].1);
        }
        k -= 1;
    }
    None
}

/// Expands a token to the IRI that it stands for.
pub fn expand_term(tok: &str, prefixes: &Vec<(String, String)>, base: &Option<String>) -> (r: Option<
    String,
>)
    ensures
        text::opt_text(r) == expanded(tok@, prefix_map(prefixes@), text::opt_text(*base)),
{
    let v = text::chars_of(tok);
    match unbracket(&v) {
        Some(inner) => {
            if !absolute(&text::chars_of(inner.as_str())) {
                if let Some(b) = base {
                    return Some(resolve_iri(b.as_str(), inner.as_str()));
                }
            }
            Some(inner)
        },
        None => match text::index_of(&v, ':', 0) {
            Some(c) => {
                let name = text::string_between(&v, 0, c);
                assert(name@ =~= tok@.take(c as int));
                match lookup_prefix(prefixes, name.as_str()) {
                    Some(iri) => {
                        let local = text::string_between(&v, c + 1, v.len());
                        assert(local@ =~= tok@.skip(c + 1));
                        let mut out = iri.clone();
                        out.append(local.as_str());
                        Some(out)
                    },
                    None => None,
                }
            },
            None => None,
        },
    }
}

/// The part of `pred` behind the first of the namespaces that it begins with.
pub open spec fn local_part(pred: Seq<char>, namespaces: Seq<Seq<char>>) -> Option<Seq<char>>
    decreases namespaces.len(),
{
    if namespaces.len() == 0 {
        None
    } else if text::begins(pred, namespaces[0]) {
        Some(pred.skip(namespaces[0].len() as int))
    } else {
        local_part(pred, namespaces.skip(1))
    }
}

/// The relation type that a local name of the ontology stands for.
pub open spec fn relation_name(local: Seq<char>) -> Option<Seq<char>> {
    if local == "references"@ {
        Some("references"@)
    } else if local == "supersedes"@ {
        Some("supersedes"@)
    } else if local == "createdBy"@ || local == "created_by"@ {
        Some("created_by"@)
    } else if local == "conflictsWith"@ || local == "conflicts_with"@ {
        Some("conflicts_with"@)
    } else if local == "dependsOn"@ || local == "depends_on"@ {
        Some("depends_on"@)
    } else if local == "partOf"@ || local == "part_of"@ {
        Some("part_of"@)
    } else if local == "belongsTo"@ || local == "belongs_to"@ {
        Some("belongs_to"@)
    } else {
        None
    }
}

/// The relation type of a predicate: it stands directly in a controlled
/// namespace, and its local name is a known one.
pub open spec fn relation_of(pred: Seq<char>, namespaces: Seq<Seq<char>>) -> Option<Seq<char>> {
    match local_part(pred, namespaces) {
        Some(local) if local.len() > 0 && !local.contains('/') && !local.contains('#') => relation_name(
            local,
        ),
        _ => None,
    }
}

/// The namespaces whose predicates count as relations.
pub fn controlled_ns() -> (r: Vec<String>)
    ensures
        text::texts(r@) == seq!["http://memoria.ai/onto/"@],
{
    let mut v: Vec<String> = Vec::new();
    v.push("http://memoria.ai/onto/".to_string());
    assert(text::texts(v@) =~= seq!["http://memoria.ai/onto/"@]);
    v
}

/// Maps a predicate IRI to its relation type, as far as it lies directly in one
/// of the controlled namespaces and is a known relation.
pub fn map_relation_iri(pred: &str, namespaces: &Vec<String>) -> (r: Option<String>)
    ensures
        text::opt_text(r) == relation_of(pred@, text::texts(namespaces@)),
{
    let v = text::chars_of(pred);
    let mut i: usize = 0;
    let ghost ns = text::texts(namespaces@);
    assert(ns.skip(0) =~= ns);
    while i < namespaces.len()
        invariant
            i <= namespaces@.len(),
            ns == text::texts(namespaces@),
            v@ == pred@,
            local_part(pred@, ns) == local_part(pred@, ns.skip(i as int)),
        decreases namespaces@.len() - i,
    {
        let n = text::chars_of(namespaces[i].as_str());
        proof {
            assert(ns.skip(i as int)[0] == n@);
            assert(ns.skip(i as int).skip(1) =~= ns.skip(i + 1));
        }
        if text::at(&v, &n, 0) {
            let local = slice_subrange(&v, n.len(), v.len());
            assert(local@ =~= pred@.skip(n@.len() as int));
            if local.len() == 0 || text::one_of(local, '/') || text::one_of(local, '#') {
                return None;
            }
            return relation_short(text::string_of(local).as_str());
        }
        i += 1;
    }
    None
}

fn relation_short(local: &str) -> (r: Option<String>)
    ensures
        text::opt_text(r) == relation_name(local@),
{
    if text::same(local, "references") {
        Some("references".to_string())
    } else if text::same(local, "supersedes") {
        Some("supersedes".to_string())
    } else if text::same(local, "createdBy") || text::same(local, "created_by") {
        Some("created_by".to_string())
    } else if text::same(local, "conflictsWith") || text::same(local, "conflicts_with") {
        Some("conflicts_with".to_string())
    } else if text::same(local, "dependsOn") || text::same(local, "depends_on") {
        Some("depends_on".to_string())
    } else if text::same(local, "partOf") || text::same(local, "part_of") {
        Some("part_of".to_string())
    } else if text::same(local, "belongsTo") || text::same(local, "belongs_to") {
        Some("belongs_to".to_string())
    } else {
        None
    }
}

/// The texts of an edge: subject, predicate, object.
pub open spec fn edge_text(e: (String, String, String)) -> (Seq<char>, Seq<char>, Seq<char>) {
    (e.0@, e.1@, e.2@)
}

/// The texts of a list of edges.
pub open spec fn edge_texts(v: Seq<(String, String, String)>) -> Seq<
    (Seq<char>, Seq<char>, Seq<char>),
> {
    Seq::new(v.len(), |i: int| edge_text(v[i]))
}

pub proof fn lemma_edge_texts_push(
    v: Seq<(String, String, String)>,
    e: (String, String, String),
)
    ensures
        edge_texts(v.push(e)) == edge_texts(v).push(edge_text(e)),
{
    assert(edge_texts(v.push(e)) =~= edge_texts(v).push(edge_text(e)));
}

/// A blank node: a label, or a property list in square brackets.
pub open spec fn is_blank_node(tok: Seq<char>) -> bool {
    text::begins(tok, "_:"@) || text::begins(tok, "["@)
}

fn blank_node(tok: &str) -> (r: bool)
    ensures
        r == is_blank_node(tok@),
{
    text::starts_with(tok, "_:") || text::starts_with(tok, "[")
}

/// What the scanner has learned up to some point of a document.
pub struct Scan {
    /// The subject of the statement that is being read.
    pub subj: Option<Seq<char>>,
    /// Its predicate.
    pub pred: Option<Seq<char>>,
    /// The separator with which the line before ended, if with one.
    pub sep: Option<char>,
    pub prefixes: Map<Seq<char>, Seq<char>>,
    pub base: Option<Seq<char>>,
    pub edges: Seq<(Seq<char>, Seq<char>, Seq<char>)>,
}

impl Scan {
    pub open spec fn start() -> Scan {
        Scan {
            subj: None,
            pred: None,
            sep: None,
            prefixes: Map::empty(),
            base: None,
            edges: Seq::empty(),
        }
    }

    pub open spec fn expand(self, tok: Seq<char>) -> Option<Seq<char>> {
        expanded(tok, self.prefixes, self.base)
    }

    /// `obj` has been read as an object: an edge, if there is a subject and the
    /// predicate is a controlled relation.
    pub open spec fn object(self, obj: Seq<char>, namespaces: Seq<Seq<char>>) -> Scan {
        match (self.subj, self.pred) {
            (Some(s), Some(p)) if relation_of(p, namespaces) is Some => Scan {
                edges: self.edges.push((s, p, obj)),
                ..self
            },
            _ => self,
        }
    }
}

/// The position behind further types of a type list, of which each has a comma
/// in front.
pub open spec fn after_commas(t: Seq<Seq<char>>, i: int) -> int
    decreases t.len() - i,
{
    if 0 <= i < t.len() && t[i] == ","@ {
        if i + 1 < t.len() {
            after_commas(t, i + 2)
        } else {
            t.len() as int
        }
    } else {
        i
    }
}

pub proof fn lemma_after_commas(t: Seq<Seq<char>>, i: int)
    requires
        0 <= i <= t.len(),
    ensures
        i <= after_commas(t, i) <= t.len(),
    decreases t.len() - i,
{
    if i + 1 < t.len() && t[i] == ","@ {
        lemma_after_commas(t, i + 2);
    }
}

/// The position behind the list of types that begins at `i`.
pub open spec fn after_types(t: Seq<Seq<char>>, i: int) -> int {
    after_commas(
        t,
        if i < t.len() {
            i + 1
        } else {
            i
        },
    )
}

/// Reads the tokens of a line from `i` on.
pub open spec fn run_tokens(st: Scan, t: Seq<Seq<char>>, i: int, namespaces: Seq<Seq<char>>) -> Scan
    decreases t.len() - i,
{
    if i < 0 || i >= t.len() {
        st
    } else if t[i] == ";"@ {
        run_tokens(Scan { pred: None, ..st }, t, i + 1, namespaces)
    } else if t[i] == ","@ {
        run_tokens(st, t, i + 1, namespaces)
    } else if st.pred is None && t[i] == "a"@ {
        proof {
            lemma_after_commas(
                t,
                if i + 1 < t.len() {
                    i + 2
                } else {
                    i + 1
                },
            );
        }
        run_tokens(st, t, after_types(t, i + 1), namespaces)
    } else {
        match st.expand(t[i]) {
            Some(iri) if st.pred is None => run_tokens(
                Scan { pred: Some(iri), ..st },
                t,
                i + 1,
                namespaces,
            ),
            Some(iri) => run_tokens(st.object(iri, namespaces), t, i + 1, namespaces),
            None if st.pred is Some && is_blank_node(t[i]) => run_tokens(
                st.object(t[i], namespaces),
                t,
                i + 1,
                namespaces,
            ),
            None => run_tokens(st, t, i + 1, namespaces),
        }
    }
}

/// The separator with which a line begins.
pub open spec fn leading_sep(line: Seq<char>) -> Option<char> {
    if line.len() > 0 && (line[0] == ';' || line[0] == ',') {
        Some(line[0])
    } else {
        None
    }
}

/// The separator with which a line ends.
pub open spec fn trailing_sep(line: Seq<char>) -> Option<char> {
    if line.len() > 0 && (line.last() == ';' || line.last() == ',') {
        Some(line.last())
    } else {
        None
    }
}

/// The tokens of a line of statements: all but the marks at its end.
pub open spec fn line_tokens(line: Seq<char>) -> Seq<Seq<char>> {
    tokens_from(text::trimmed(text::without_marks(line, seq![';', ',', '.'])), 0)
}

/// What the first token of a line does, and from where the line is read on. A
/// separator in force makes it a predicate (`;`) or an object (`,`); otherwise
/// it is a subject.
pub open spec fn line_head(st: Scan, t: Seq<Seq<char>>) -> (Scan, int) {
    let first = if t.len() > 0 {
        st.expand(t[0])
    } else {
        None
    };
    if st.sep is None && first is Some {
        (Scan { subj: first, pred: None, ..st }, 1)
    } else if st.sep == Some(';') && first is Some {
        (Scan { pred: first, ..st }, 1)
    } else if st.sep is None && first is None {
        if t.len() > 0 && is_blank_node(t[0]) {
            (Scan { subj: Some(t[0]), pred: None, ..st }, 1)
        } else {
            (Scan { subj: None, pred: None, ..st }, 0)
        }
    } else {
        (st, 0)
    }
}

/// Reads a line of statements.
pub open spec fn scan_statements(st: Scan, line: Seq<char>, namespaces: Seq<Seq<char>>) -> Scan {
    let t = line_tokens(line);
    let end = trailing_sep(line);
    if t.len() > 0 && t[0] == "a"@ {
        let i = after_types(t, 1);
        if i < t.len() && t[i] == ";"@ {
            Scan { sep: end, ..run_tokens(Scan { pred: None, ..st }, t, i + 1, namespaces) }
        } else {
            Scan { sep: end, ..st }
        }
    } else {
        let sep = if leading_sep(line) is Some {
            leading_sep(line)
        } else {
            st.sep
        };
        let (st1, i) = line_head(Scan { sep, ..st }, t);
        Scan { sep: end, ..run_tokens(st1, t, i, namespaces) }
    }
}

/// Reads a line: nothing, a declaration, or statements.
pub open spec fn scan_line(st: Scan, raw: Seq<char>, namespaces: Seq<Seq<char>>) -> Scan {
    let line = text::trimmed(uncommented(raw));
    if line.len() == 0 {
        st
    } else {
        match prefix_decl(line) {
            Some(p) => Scan { prefixes: st.prefixes.insert(p.0, p.1), sep: None, ..st },
            None => match base_decl(line) {
                Some(b) => Scan { base: Some(b), sep: None, ..st },
                None => if line[0] == '@' {
                    st
                } else {
                    scan_statements(st, line, namespaces)
                },
            },
        }
    }
}

/// Reads lines, one behind the other.
pub open spec fn scan_lines(lines: Seq<Seq<char>>, namespaces: Seq<Seq<char>>) -> Scan
    decreases lines.len(),
{
    if lines.len() == 0 {
        Scan::start()
    } else {
        scan_line(scan_lines(lines.drop_last(), namespaces), lines.last(), namespaces)
    }
}

/// A document without the byte order mark in front.
pub open spec fn without_bom(ttl: Seq<char>) -> Seq<char> {
    if ttl.len() > 0 && ttl[0] == '\u{feff}' {
        ttl.skip(1)
    } else {
        ttl
    }
}

/// The edges of a document.
pub open spec fn document_edges(ttl: Seq<char>, namespaces: Seq<Seq<char>>) -> Seq<
    (Seq<char>, Seq<char>, Seq<char>),
> {
    scan_lines(text::lines_of(without_bom(ttl)), namespaces).edges
}

struct Scanner {
    subj: Option<String>,
    pred: Option<String>,
    sep: Option<char>,
    prefixes: Vec<(String, String)>,
    base: Option<String>,
    edges: Vec<(String, String, String)>,
}

impl Scanner {
    spec fn view(&self) -> Scan {
        Scan {
            subj: text::opt_text(self.subj),
            pred: text::opt_text(self.pred),
            sep: self.sep,
            prefixes: prefix_map(self.prefixes@),
            base: text::opt_text(self.base),
            edges: edge_texts(self.edges@),
        }
    }

    fn new() -> (r: Scanner)
        ensures
            r@ == Scan::start(),
    {
        let r = Scanner {
            subj: None,
            pred: None,
            sep: None,
            prefixes: Vec::new(),
            base: None,
            edges: Vec::new(),
        };
        assert(r@.edges =~= Scan::start().edges);
        r
    }

    fn expand(&self, tok: &str) -> (r: Option<String>)
        ensures
            text::opt_text(r) == self@.expand(tok@),
    {
        expand_term(tok, &self.prefixes, &self.base)
    }

    fn object(&mut self, obj: String, namespaces: &Vec<String>)
        ensures
            final(self)@ == old(self)@.object(obj@, text::texts(namespaces@)),
    {
        if let (Some(s), Some(p)) = (&self.subj, &self.pred) {
            if map_relation_iri(p.as_str(), namespaces).is_some() {
                let e = (s.clone(), p.clone(), obj);
                proof {
                    lemma_edge_texts_push(self.edges@, e);
                }
                self.edges.push(e);
            }
        }
    }

    fn run(&mut self, tokens: &Vec<String>, from: usize, namespaces: &Vec<String>)
        requires
            from <= tokens@.len(),
        ensures
            final(self)@ == run_tokens(
                old(self)@,
                text::texts(tokens@),
                from as int,
                text::texts(namespaces@),
            ),
    {
        let ghost t = text::texts(tokens@);
        let ghost ns = text::texts(namespaces@);
        let ghost goal = run_tokens(self@, t, from as int, ns);
        let mut i: usize = from;
        while i < tokens.len()
            invariant
                t == text::texts(tokens@),
                ns == text::texts(namespaces@),
                i <= tokens@.len(),
                run_tokens(self@, t, i as int, ns) == goal,
            decreases tokens@.len() - i,
        {
            let tok = tokens[i].as_str();
            assert(t[i as int] == tok@);
            if text::same(tok, ";") {
                self.pred = None;
                i += 1;
            } else if text::same(tok, ",") {
                i += 1;
            } else if self.pred.is_none() && text::same(tok, "a") {
                i = behind_types(tokens, i + 1);
            } else {
                match self.expand(tok) {
                    Some(iri) => {
                        if self.pred.is_none() {
                            self.pred = Some(iri);
                        } else {
                            self.object(iri, namespaces);
                        }
                    },
                    None => {
                        if self.pred.is_some() && blank_node(tok) {
                            self.object(tok.to_string(), namespaces);
                        }
                    },
                }
                i += 1;
            }
        }
    }

    fn head(&mut self, tokens: &Vec<String>) -> (i: usize)
        ensures
            (final(self)@, i as int) == line_head(old(self)@, text::texts(tokens@)),
            i <= tokens@.len(),
    {
        let ghost t = text::texts(tokens@);
        let first = if tokens.len() > 0 {
            self.expand(tokens[0].as_str())
        } else {
            None
        };
        if self.sep.is_none() {
            if first.is_some() {
                self.subj = first;
                self.pred = None;
                1
            } else if tokens.len() > 0 && blank_node(tokens[0].as_str()) {
                self.subj = Some(tokens[0].clone());
                self.pred = None;
                1
            } else {
                self.subj = None;
                self.pred = None;
                0
            }
        } else if self.sep == Some(';') && first.is_some() {
            self.pred = first;
            1
        } else {
            0
        }
    }

    fn statements(&mut self, line: &str, namespaces: &Vec<String>)
        ensures
            final(self)@ == scan_statements(old(self)@, line@, text::texts(namespaces@)),
    {
        let v = text::chars_of(line);
        let n = text::end_before_marks(&v, &[';', ',', '.']);
        let body = slice_subrange(&v, 0, n);
        assert(body@ =~= text::without_marks(line@, seq![';', ',', '.']));
        let tokens = tokenize_ttl(text::string_of(&text::trim_chars(body)).as_str());
        let ghost t = text::texts(tokens@);
        assert(t == line_tokens(line@));
        let last: Option<char> = if v.len() > 0 && (v[v.len() - 1] == ';' || v[v.len() - 1] == ',') {
            Some(v[v.len() - 1])
        } else {
            None
        };
        if tokens.len() > 0 && text::same(tokens[0].as_str(), "a") {
            let i = behind_types(&tokens, 1);
            if i < tokens.len() && text::same(tokens[i].as_str(), ";") {
                self.pred = None;
                self.run(&tokens, i + 1, namespaces);
            }
        } else {
            if v.len() > 0 && (v[0] == ';' || v[0] == ',') {
                self.sep = Some(v[0]);
            }
            let i = self.head(&tokens);
            self.run(&tokens, i, namespaces);
        }
        self.sep = last;
    }

    fn line(&mut self, raw: &str, namespaces: &Vec<String>)
        ensures
            final(self)@ == scan_line(old(self)@, raw@, text::texts(namespaces@)),
    {
        let line_s = text::trim(strip_inline_comment(raw).as_str());
        let line = line_s.as_str();
        let v = text::chars_of(line);
        if v.len() == 0 {
            return;
        }
        match parse_prefix_decl(line) {
            Some(p) => {
                let ghost before = self.prefixes@;
                self.prefixes.push(p);
                assert(self.prefixes@.drop_last() =~= before);
                self.sep = None;
            },
            None => match parse_base_decl(line) {
                Some(b) => {
                    self.base = Some(b);
                    self.sep = None;
                },
                None => {
                    if v[0] != '@' {
                        self.statements(line, namespaces);
                    }
                },
            },
        }
    }
}

/// The position behind the list of types that begins at `from`.
fn behind_types(tokens: &Vec<String>, from: usize) -> (r: usize)
    requires
        from <= tokens@.len(),
    ensures
        r == after_types(text::texts(tokens@), from as int),
        from <= r <= tokens@.len(),
{
    let ghost t = text::texts(tokens@);
    let mut i: usize = if from < tokens.len() {
        from + 1
    } else {
        from
    };
    while i < tokens.len() && text::same(tokens[i].as_str(), ",")
        invariant
            from <= i <= tokens@.len(),
            t == text::texts(tokens@),
            after_types(t, from as int) == after_commas(t, i as int),
        decreases tokens@.len() - i,
    {
        if tokens.len() - i == 1 {
            return tokens.len();
        }
        i += 2;
    }
    i
}

/// The edges of a Turtle document whose predicate is a controlled relation, in
/// the order in which they stand.
pub fn parse_ttl_edges(ttl: &str, namespaces: &Vec<String>) -> (r: Vec<(String, String, String)>)
    ensures
        edge_texts(r@) == document_edges(ttl@, text::texts(namespaces@)),
{
    let v = text::chars_of(ttl);
    let from: usize = if v.len() > 0 && v[0] == '\u{feff}' {
        1
    } else {
        0
    };
    let doc = text::string_between(&v, from, v.len());
    assert(doc@ =~= without_bom(ttl@));
    let rows = text::lines(doc.as_str());
    let ghost all = text::lines_of(without_bom(ttl@));
    let ghost ns = text::texts(namespaces@);
    let mut sc = Scanner::new();
    let mut i: usize = 0;
    assert(all.take(0) =~= Seq::<Seq<char>>::empty());
    while i < rows.len()
        invariant
            i <= rows@.len(),
            text::texts(rows@) == all,
            ns == text::texts(namespaces@),
            sc@ == scan_lines(all.take(i as int), ns),
        decreases rows@.len() - i,
    {
        proof {
            assert(all.take(i + 1).drop_last() =~= all.take(i as int));
            assert(all.take(i + 1).last() == rows@[i as int]@);
        }
        sc.line(rows[i].as_str(), namespaces);
        i += 1;
    }
    assert(all.take(all.len() as int) =~= all);
    sc.edges
}

/// Each of the edges has a predicate that is a controlled relation.
pub open spec fn all_controlled(
    edges: Seq<(Seq<char>, Seq<char>, Seq<char>)>,
    namespaces: Seq<Seq<char>>,
) -> bool {
    forall|i: int| 0 <= i < edges.len() ==> relation_of((#[trigger] edges[i]).1, namespaces) is Some
}

proof fn lemma_run_tokens_controlled(
    st: Scan,
    t: Seq<Seq<char>>,
    i: int,
    namespaces: Seq<Seq<char>>,
)
    requires
        all_controlled(st.edges, namespaces),
    ensures
        all_controlled(run_tokens(st, t, i, namespaces).edges, namespaces),
    decreases t.len() - i,
{
    if i < 0 || i >= t.len() {
    } else if t[i] == ";"@ {
        lemma_run_tokens_controlled(Scan { pred: None, ..st }, t, i + 1, namespaces);
    } else if t[i] == ","@ {
        lemma_run_tokens_controlled(st, t, i + 1, namespaces);
    } else if st.pred is None && t[i] == "a"@ {
        lemma_after_commas(
            t,
            if i + 1 < t.len() {
                i + 2
            } else {
                i + 1
            },
        );
        lemma_run_tokens_controlled(st, t, after_types(t, i + 1), namespaces);
    } else {
        match st.expand(t[i]) {
            Some(iri) if st.pred is None => {
                lemma_run_tokens_controlled(Scan { pred: Some(iri), ..st }, t, i + 1, namespaces);
            },
            Some(iri) => {
                lemma_run_tokens_controlled(st.object(iri, namespaces), t, i + 1, namespaces);
            },
            None if st.pred is Some && is_blank_node(t[i]) => {
                lemma_run_tokens_controlled(st.object(t[i], namespaces), t, i + 1, namespaces);
            },
            None => {
                lemma_run_tokens_controlled(st, t, i + 1, namespaces);
            },
        }
    }
}

proof fn lemma_scan_lines_controlled(lines: Seq<Seq<char>>, namespaces: Seq<Seq<char>>)
    ensures
        all_controlled(scan_lines(lines, namespaces).edges, namespaces),
    decreases lines.len(),
{
    if lines.len() > 0 {
        lemma_scan_lines_controlled(lines.drop_last(), namespaces);
        let st = scan_lines(lines.drop_last(), namespaces);
        let line = text::trimmed(uncommented(lines.last()));
        let t = line_tokens(line);
        lemma_run_tokens_controlled(
            Scan { pred: None, ..st },
            t,
            after_types(t, 1) + 1,
            namespaces,
        );
        let sep = if leading_sep(line) is Some {
            leading_sep(line)
        } else {
            st.sep
        };
        let (st1, i) = line_head(Scan { sep, ..st }, t);
        lemma_run_tokens_controlled(st1, t, i, namespaces);
    }
}

/// Only controlled relations make edges: whatever the document says, no other
/// predicate comes out.
pub proof fn law_edges_are_controlled(ttl: Seq<char>, namespaces: Seq<Seq<char>>)
    ensures
        all_controlled(document_edges(ttl, namespaces), namespaces),
{
    lemma_scan_lines_controlled(text::lines_of(without_bom(ttl)), namespaces);
}

proof fn lemma_comment_bounds(s: Seq<char>, i: int)
    requires
        0 <= i <= s.len(),
    ensures
        i <= comment_from(s, i) <= s.len(),
    decreases s.len() - i,
{
    if i < s.len() {
        if s[i] == '<' {
            text::lemma_index_from(s, '>', i + 1);
            match text::index_from(s, '>', i + 1) {
                Some(e) => {
                    lemma_comment_bounds(s, e + 1);
                },
                None => {},
            }
        } else if is_quote(s[i]) {
            lemma_closing_quote(s, s[i], i + 1);
            match closing_quote(s, s[i], i + 1) {
                Some(e) => {
                    lemma_comment_bounds(s, e + 1);
                },
                None => {},
            }
        } else if s[i] != '#' {
            lemma_comment_bounds(s, i + 1);
        }
    }
}

proof fn lemma_index_in_prefix(s: Seq<char>, c: char, i: int, n: int)
    requires
        0 <= i,
        n <= s.len(),
        text::index_from(s, c, i) matches Some(e) && e < n,
    ensures
        text::index_from(s.take(n), c, i) == text::index_from(s, c, i),
    decreases s.len() - i,
{
    text::lemma_index_from(s, c, i);
    if s[i] != c {
        lemma_index_in_prefix(s, c, i + 1, n);
    }
}

proof fn lemma_closing_in_prefix(s: Seq<char>, quote: char, j: int, n: int)
    requires
        0 <= j,
        n <= s.len(),
        closing_quote(s, quote, j) matches Some(e) && e < n,
    ensures
        closing_quote(s.take(n), quote, j) == closing_quote(s, quote, j),
    decreases s.len() + 1 - j,
{
    lemma_closing_quote(s, quote, j);
    if s[j] == '\\' {
        lemma_closing_quote(s, quote, j + 2);
        lemma_closing_in_prefix(s, quote, j + 2, n);
    } else if s[j] != quote {
        lemma_closing_in_prefix(s, quote, j + 1, n);
    }
}

proof fn lemma_comment_in_prefix(s: Seq<char>, i: int)
    requires
        0 <= i <= s.len(),
    ensures
        comment_from(s.take(comment_from(s, i)), i) == comment_from(s, i),
    decreases s.len() - i,
{
    let c = comment_from(s, i);
    lemma_comment_bounds(s, i);
    if i < s.len() && c > i {
        if s[i] == '<' {
            text::lemma_index_from(s, '>', i + 1);
            let e = text::index_from(s, '>', i + 1)->0;
            lemma_comment_bounds(s, e + 1);
            lemma_index_in_prefix(s, '>', i + 1, c);
            lemma_comment_in_prefix(s, e + 1);
        } else if is_quote(s[i]) {
            lemma_closing_quote(s, s[i], i + 1);
            let e = closing_quote(s, s[i], i + 1)->0;
            lemma_comment_bounds(s, e + 1);
            lemma_closing_in_prefix(s, s[i], i + 1, c);
            lemma_comment_in_prefix(s, e + 1);
        } else {
            lemma_comment_in_prefix(s, i + 1);
        }
    }
}

/// A line without its comment has no comment.
pub proof fn law_comments_are_stripped_once(s: Seq<char>)
    ensures
        uncommented(uncommented(s)) == uncommented(s),
{
    lemma_comment_bounds(s, 0);
    lemma_comment_in_prefix(s, 0);
    let u = uncommented(s);
    assert(u.take(u.len() as int) =~= u);
}

/// A name in snake case: an underscore and the small letter for each capital letter.
pub open spec fn snake_case(s: Seq<char>) -> Seq<char>
    decreases s.len(),
{
    if s.len() == 0 {
        Seq::empty()
    } else if 'A' <= s.last() <= 'Z' {
        snake_case(s.drop_last()).push('_').push(text::ascii_lower(s.last()))
    } else {
        snake_case(s.drop_last()).push(s.last())
    }
}

/// The relation types that a predicate can stand for.
pub open spec fn written_types() -> Seq<Seq<char>> {
    seq![
        "references"@,
        "supersedes"@,
        "created_by"@,
        "conflicts_with"@,
        "depends_on"@,
        "part_of"@,
        "belongs_to"@,
    ]
}

proof fn lemma_snake_plain(s: Seq<char>)
    requires
        forall|i: int| 0 <= i < s.len() ==> !('A' <= #[trigger] s[i] <= 'Z'),
    ensures
        snake_case(s) == s,
    decreases s.len(),
{
    if s.len() > 0 {
        lemma_snake_plain(s.drop_last());
        assert(s[s.len() - 1] == s.last());
        assert(s.drop_last().push(s.last()) =~= s);
    }
}

proof fn lemma_snake_adds(a: Seq<char>, b: Seq<char>)
    ensures
        snake_case(a + b) == snake_case(a) + snake_case(b),
    decreases b.len(),
{
    if b.len() == 0 {
        assert(a + b =~= a);
        assert(snake_case(a) + snake_case(b) =~= snake_case(a));
    } else {
        lemma_snake_adds(a, b.drop_last());
        assert((a + b).drop_last() =~= a + b.drop_last());
        assert((a + b).last() == b.last());
        assert(snake_case(a + b) =~= snake_case(a) + snake_case(b));
    }
}

proof fn lemma_snake_two(local: Seq<char>, n: int, t: Seq<char>)
    requires
        0 < n < local.len(),
        'A' <= local[n] <= 'Z',
        forall|i: int| 0 <= i < local.len() && i != n ==> !('A' <= #[trigger] local[i] <= 'Z'),
        t.len() == local.len() + 1,
        forall|i: int| 0 <= i < n ==> t[i] == #[trigger] local[i],
        t[n] == '_',
        t[n + 1] == text::ascii_lower(local[n]),
        forall|i: int| n < i < local.len() ==> t[i + 1] == #[trigger] local[i],
    ensures
        snake_case(local) == t,
{
    let a = local.take(n);
    let b = local.skip(n + 1);
    let m = seq![local[n]];
    assert(local =~= a + m + b);
    lemma_snake_adds(a + m, b);
    lemma_snake_adds(a, m);
    lemma_snake_plain(a);
    lemma_snake_plain(b);
    assert(m.drop_last() =~= Seq::empty());
    assert(snake_case(m.drop_last()) =~= Seq::empty());
    assert(snake_case(m) =~= seq!['_', text::ascii_lower(local[n])]);
    assert(snake_case(local) =~= t);
}

proof fn lemma_camel_names()
    ensures
        snake_case("createdBy"@) == "created_by"@,
        snake_case("conflictsWith"@) == "conflicts_with"@,
        snake_case("dependsOn"@) == "depends_on"@,
        snake_case("partOf"@) == "part_of"@,
        snake_case("belongsTo"@) == "belongs_to"@,
{
    reveal_strlit("createdBy");
    reveal_strlit("created_by");
    lemma_snake_two("createdBy"@, 7, "created_by"@);
    reveal_strlit("conflictsWith");
    reveal_strlit("conflicts_with");
    lemma_snake_two("conflictsWith"@, 9, "conflicts_with"@);
    reveal_strlit("dependsOn");
    reveal_strlit("depends_on");
    lemma_snake_two("dependsOn"@, 7, "depends_on"@);
    reveal_strlit("partOf");
    reveal_strlit("part_of");
    lemma_snake_two("partOf"@, 4, "part_of"@);
    reveal_strlit("belongsTo");
    reveal_strlit("belongs_to");
    lemma_snake_two("belongsTo"@, 7, "belongs_to"@);
}

proof fn lemma_snake_names()
    ensures
        forall|k: int|
            0 <= k < written_types().len() ==> snake_case(#[trigger] written_types()[k])
                == written_types()[k],
{
    reveal_strlit("references");
    reveal_strlit("supersedes");
    reveal_strlit("created_by");
    reveal_strlit("conflicts_with");
    reveal_strlit("depends_on");
    reveal_strlit("part_of");
    reveal_strlit("belongs_to");
    lemma_snake_plain("references"@);
    lemma_snake_plain("supersedes"@);
    lemma_snake_plain("created_by"@);
    lemma_snake_plain("conflicts_with"@);
    lemma_snake_plain("depends_on"@);
    lemma_snake_plain("part_of"@);
    lemma_snake_plain("belongs_to"@);
}

/// A predicate stands for the relation type that is its local name in snake case: each
/// type stands for itself, a name in camel case for the same as its snake case form, and
/// no name for anything but that.
pub proof fn law_relation_types_are_snake_case(local: Seq<char>)
    ensures
        relation_name(local) matches Some(t) ==> t == snake_case(local) && written_types().contains(t)
            && relation_name(t) == Some(t),
        written_types().contains(local) ==> relation_name(local) == Some(local),
        seq!["createdBy"@, "conflictsWith"@, "dependsOn"@, "partOf"@, "belongsTo"@].contains(local)
            ==> relation_name(local) is Some,
{
    lemma_camel_names();
    lemma_snake_names();
    let w = written_types();
    assert(w[0] == "references"@);
    assert(w[1] == "supersedes"@);
    assert(w[2] == "created_by"@);
    assert(w[3] == "conflicts_with"@);
    assert(w[4] == "depends_on"@);
    assert(w[5] == "part_of"@);
    assert(w[6] == "belongs_to"@);
    reveal_strlit("references");
    reveal_strlit("supersedes");
    reveal_strlit("created_by");
    reveal_strlit("conflicts_with");
    reveal_strlit("depends_on");
    reveal_strlit("part_of");
    reveal_strlit("belongs_to");
    reveal_strlit("createdBy");
    reveal_strlit("conflictsWith");
    reveal_strlit("dependsOn");
    reveal_strlit("partOf");
    reveal_strlit("belongsTo");
    assert(relation_name("references"@) == Some("references"@));
    assert("references"@[0] != "supersedes"@[0]);
    assert("created_by"@[0] != "references"@[0] && "created_by"@[0] != "supersedes"@[0]);
    assert("depends_on"@[0] == 'd' && "belongs_to"@[0] == 'b' && "created_by"@[0] == 'c');
    if w.contains(local) {
        let k = choose|k: int| 0 <= k < w.len() && w[k] == local;
        assert(k == 0 || k == 1 || k == 2 || k == 3 || k == 4 || k == 5 || k == 6);
    }
    let c = seq!["createdBy"@, "conflictsWith"@, "dependsOn"@, "partOf"@, "belongsTo"@];
    if c.contains(local) {
        let k = choose|k: int| 0 <= k < c.len() && c[k] == local;
        assert(k == 0 || k == 1 || k == 2 || k == 3 || k == 4);
    }
}

/// A predicate is a relation where it is the name of one directly behind the first of the
/// namespaces that it begins with, and nowhere else.
pub proof fn law_relations_stand_in_their_namespace(
    pred: Seq<char>,
    namespaces: Seq<Seq<char>>,
    local: Seq<char>,
)
    ensures
        relation_of(pred, namespaces) is Some ==> exists|k: int|
            0 <= k < namespaces.len() && text::begins(pred, #[trigger] namespaces[k]) && relation_of(
                pred,
                namespaces,
            ) == relation_name(pred.skip(namespaces[k].len() as int)),
        namespaces.len() > 0 && local.len() > 0 && !local.contains('/') && !local.contains('#')
            ==> relation_of(namespaces[0] + local, namespaces) == relation_name(local),
        namespaces.len() > 0 && (local.contains('/') || local.contains('#')) ==> relation_of(
            namespaces[0] + local,
            namespaces,
        ) is None,
{
    lemma_local_part(pred, namespaces);
    if namespaces.len() > 0 {
        let p = namespaces[0] + local;
        assert(p.subrange(0, namespaces[0].len() as int) =~= namespaces[0]);
        assert(p.skip(namespaces[0].len() as int) =~= local);
        assert(text::begins(p, namespaces[0]));
    }
}

proof fn lemma_local_part(pred: Seq<char>, namespaces: Seq<Seq<char>>)
    ensures
        local_part(pred, namespaces) matches Some(l) ==> exists|k: int|
            0 <= k < namespaces.len() && text::begins(pred, #[trigger] namespaces[k]) && l == pred.skip(
                namespaces[k].len() as int,
            ),
    decreases namespaces.len(),
{
    if namespaces.len() > 0 && !text::begins(pred, namespaces[0]) {
        lemma_local_part(pred, namespaces.skip(1));
        if let Some(l) = local_part(pred, namespaces) {
            let k = choose|k: int|
                0 <= k < namespaces.skip(1).len() && text::begins(
                    pred,
                    #[trigger] namespaces.skip(1)[k],
                ) && l == pred.skip(namespaces.skip(1)[k].len() as int);
            assert(namespaces[k + 1] == namespaces.skip(1)[k]);
        }
    }
}

/// A name with a declared prefix stands for the IRI of the prefix and what follows the
/// colon; one in angle brackets for itself, where it is absolute or there is no base.
pub proof fn law_names_are_expanded(
    prefix: Seq<char>,
    local: Seq<char>,
    prefixes: Map<Seq<char>, Seq<char>>,
    base: Option<Seq<char>>,
)
    requires
        !prefix.contains(':'),
    ensures
        prefix.len() == 0 || prefix[0] != '<' ==> expanded(prefix + seq![':'] + local, prefixes, base)
            == if prefixes.contains_key(prefix) {
            Some(prefixes[prefix] + local)
        } else {
            None
        },
        base is None || is_absolute(local) ==> expanded(seq!['<'] + local + seq!['>'], prefixes, base)
            == Some(local),
{
    let tok = prefix + seq![':'] + local;
    lemma_first_colon(prefix, local, 0);
    assert(tok.take(prefix.len() as int) =~= prefix);
    assert(tok.skip(prefix.len() as int + 1) =~= local);
    assert(tok[0] == if prefix.len() > 0 {
        prefix[0]
    } else {
        ':'
    });
    let b = seq!['<'] + local + seq!['>'];
    assert(b.subrange(1, b.len() - 1) =~= local);
}

proof fn lemma_first_colon(prefix: Seq<char>, local: Seq<char>, i: int)
    requires
        !prefix.contains(':'),
        0 <= i <= prefix.len(),
    ensures
        text::index_from(prefix + seq![':'] + local, ':', i) == Some(prefix.len() as int),
    decreases prefix.len() - i,
{
    let tok = prefix + seq![':'] + local;
    if i < prefix.len() {
        assert(tok[i] == prefix[i]);
        assert(prefix.contains(prefix[i]));
        lemma_first_colon(prefix, local, i + 1);
    } else {
        assert(tok[i] == ':');
    }
}

/// A statement makes an edge from its subject to its object, in this direction, where its
/// predicate is a controlled relation, and none where it is not. Further objects behind a
/// comma have the same subject and predicate, and a predicate behind a semicolon the same
/// subject.
pub proof fn law_statements_make_edges(
    st: Scan,
    t: Seq<Seq<char>>,
    namespaces: Seq<Seq<char>>,
)
    requires
        st.subj is Some,
        st.pred is None,
        t.len() >= 2,
        plain_token(st, t[0]),
        plain_token(st, t[1]),
    ensures
        ({
            let s = st.subj->0;
            let p = st.expand(t[0])->0;
            let one = if relation_of(p, namespaces) is Some {
                seq![(s, p, st.expand(t[1])->0)]
            } else {
                Seq::empty()
            };
            &&& t.len() == 2 ==> run_tokens(st, t, 0, namespaces).edges == st.edges + one
            &&& t.len() == 4 && t[2] == ","@ && plain_token(st, t[3]) ==> run_tokens(
                st,
                t,
                0,
                namespaces,
            ).edges == st.edges + one + (if relation_of(p, namespaces) is Some {
                seq![(s, p, st.expand(t[3])->0)]
            } else {
                Seq::empty()
            })
            &&& t.len() == 5 && t[2] == ";"@ && plain_token(st, t[3]) && plain_token(st, t[4])
                ==> run_tokens(st, t, 0, namespaces).edges == st.edges + one + (if relation_of(
                st.expand(t[3])->0,
                namespaces,
            ) is Some {
                seq![(s, st.expand(t[3])->0, st.expand(t[4])->0)]
            } else {
                Seq::empty()
            })
        }),
{
    reveal_strlit(",");
    reveal_strlit(";");
    assert(","@[0] != ";"@[0]);
    reveal_with_fuel(run_tokens, 6);
    let r = run_tokens(st, t, 0, namespaces);
    let s = st.subj->0;
    let p = st.expand(t[0])->0;
    let st1 = Scan { pred: Some(p), ..st };
    let st2 = st1.object(st.expand(t[1])->0, namespaces);
    let one = if relation_of(p, namespaces) is Some {
        seq![(s, p, st.expand(t[1])->0)]
    } else {
        Seq::empty()
    };
    assert(st2.edges =~= st.edges + one);
    if t.len() == 2 {
        assert(r == st2);
    }
    if t.len() == 4 && t[2] == ","@ && plain_token(st, t[3]) {
        let st3 = st2.object(st.expand(t[3])->0, namespaces);
        assert(st2.expand(t[3]) == st.expand(t[3]));
        assert(r == st3);
        assert(st3.edges =~= st.edges + one + (if relation_of(p, namespaces) is Some {
            seq![(s, p, st.expand(t[3])->0)]
        } else {
            Seq::empty()
        }));
    }
    if t.len() == 5 && t[2] == ";"@ && plain_token(st, t[3]) && plain_token(st, t[4]) {
        let q = st.expand(t[3])->0;
        let st3 = Scan { pred: Some(q), ..st2 };
        let st4 = st3.object(st.expand(t[4])->0, namespaces);
        assert(r == st4);
        assert(st4.edges =~= st.edges + one + (if relation_of(q, namespaces) is Some {
            seq![(s, q, st.expand(t[4])->0)]
        } else {
            Seq::empty()
        }));
    }
}

/// A token that names something.
pub open spec fn plain_token(st: Scan, tok: Seq<char>) -> bool {
    tok != ";"@ && tok != ","@ && tok != "a"@ && st.expand(tok) is Some
}

/// A line of statements begins with its subject, unless a separator before it is in
/// force; and what comes behind a line does not undo its edges.
pub proof fn law_lines_begin_with_their_subject(st: Scan, line: Seq<char>, namespaces: Seq<Seq<char>>)
    requires
        st.sep is None,
        leading_sep(line) is None,
        line_tokens(line).len() > 0,
        plain_token(st, line_tokens(line)[0]),
    ensures
        scan_statements(st, line, namespaces).edges == run_tokens(
            Scan { subj: st.expand(line_tokens(line)[0]), pred: None, sep: None, ..st },
            line_tokens(line),
            1,
            namespaces,
        ).edges,
{
}

proof fn lemma_found_at(s: Seq<char>, c: char, i: int, k: int)
    requires
        0 <= i <= k < s.len(),
        s[k] == c,
        forall|j: int| i <= j < k ==> #[trigger] s[j] != c,
    ensures
        text::index_from(s, c, i) == Some(k),
{
    text::law_characters_are_found(s, c, i);
    if let Some(x) = text::index_from(s, c, i) {
        if x < k {
            assert(s[x] != c);
        }
        if k < x {
            assert(s[k] != c);
        }
    }
}

/// Three names in angle brackets, with blanks between.
pub open spec fn three_names(s: Seq<char>, p: Seq<char>, o: Seq<char>) -> Seq<char> {
    seq!['<'] + s + seq!['>', ' ', '<'] + p + seq!['>', ' ', '<'] + o + seq!['>']
}

/// The parts of a line that begins with three names in angle brackets.
pub open spec fn begins_with_names(l: Seq<char>, s: Seq<char>, p: Seq<char>, o: Seq<char>) -> bool {
    let a = s.len() as int;
    let b = a + 3 + p.len();
    let c = b + 3 + o.len();
    &&& c + 2 <= l.len()
    &&& l[0] == '<' && l[a + 1] == '>' && l[a + 2] == ' ' && l[a + 3] == '<'
    &&& l[b + 1] == '>' && l[b + 2] == ' ' && l[b + 3] == '<' && l[c + 1] == '>'
    &&& l.subrange(1, a + 1) == s && l.subrange(a + 4, b + 1) == p && l.subrange(b + 4, c + 1) == o
}

proof fn lemma_names_found(l: Seq<char>, s: Seq<char>, p: Seq<char>, o: Seq<char>)
    requires
        begins_with_names(l, s, p, o),
        !s.contains('>') && !p.contains('>') && !o.contains('>'),
    ensures
        ({
            let a = s.len() as int;
            let b = a + 3 + p.len();
            let c = b + 3 + o.len();
            &&& text::index_from(l, '>', 0) == Some(a + 1)
            &&& text::index_from(l, '>', 1) == Some(a + 1)
            &&& text::index_from(l, '>', a + 3) == Some(b + 1)
            &&& text::index_from(l, '>', a + 4) == Some(b + 1)
            &&& text::index_from(l, '>', b + 3) == Some(c + 1)
            &&& text::index_from(l, '>', b + 4) == Some(c + 1)
        }),
{
    let a = s.len() as int;
    let b = a + 3 + p.len();
    let c = b + 3 + o.len();
    assert forall|j: int| 0 <= j < a + 1 implies #[trigger] l[j] != '>' by {
        if j > 0 {
            assert(l.subrange(1, a + 1)[j - 1] == l[j]);
            assert(s.contains(s[j - 1]));
        }
    }
    assert forall|j: int| a + 3 <= j < b + 1 implies #[trigger] l[j] != '>' by {
        if j > a + 3 {
            assert(l.subrange(a + 4, b + 1)[j - a - 4] == l[j]);
            assert(p.contains(p[j - a - 4]));
        }
    }
    assert forall|j: int| b + 3 <= j < c + 1 implies #[trigger] l[j] != '>' by {
        if j > b + 3 {
            assert(l.subrange(b + 4, c + 1)[j - b - 4] == l[j]);
            assert(o.contains(o[j - b - 4]));
        }
    }
    lemma_found_at(l, '>', 0, a + 1);
    lemma_found_at(l, '>', 1, a + 1);
    lemma_found_at(l, '>', a + 3, b + 1);
    lemma_found_at(l, '>', a + 4, b + 1);
    lemma_found_at(l, '>', b + 3, c + 1);
    lemma_found_at(l, '>', b + 4, c + 1);
}

proof fn lemma_noise(m: Seq<char>, i: int)
    requires
        0 <= i < m.len(),
        m[i] == ' ',
    ensures
        tokens_from(m, i) == tokens_from(m, i + 1),
{
    let n = noise_stops();
    assert(n[5] == ' ');
    assert(n.contains(' '));
    assert(text::stop_from(m, n, i) == i);
    assert(!is_word_start(' ')) by {
        assert(!text::is_alnum(' '));
    }
}

proof fn lemma_three_tokens(s: Seq<char>, p: Seq<char>, o: Seq<char>)
    requires
        !s.contains('>') && !p.contains('>') && !o.contains('>'),
    ensures
        tokens_from(three_names(s, p, o), 0) == seq![
            seq!['<'] + s + seq!['>'],
            seq!['<'] + p + seq!['>'],
            seq!['<'] + o + seq!['>'],
        ],
{
    let m = three_names(s, p, o);
    let a = s.len() as int;
    let b = a + 3 + p.len();
    let c = b + 3 + o.len();
    assert(m.subrange(1, a + 1) =~= s);
    assert(m.subrange(a + 4, b + 1) =~= p);
    assert(m.subrange(b + 4, c + 1) =~= o);
    assert(m.len() == c + 2);
    assert(begins_with_names(m, s, p, o));
    lemma_names_found(m, s, p, o);
    let x = seq!['<'] + s + seq!['>'];
    let y = seq!['<'] + p + seq!['>'];
    let z = seq!['<'] + o + seq!['>'];
    assert(m.subrange(0, a + 2) =~= x);
    assert(m.subrange(a + 3, b + 2) =~= y);
    assert(m.subrange(b + 3, c + 2) =~= z);
    lemma_noise(m, a + 2);
    lemma_noise(m, b + 2);
    assert(tokens_from(m, c + 2) =~= Seq::empty());
    assert(tokens_from(m, b + 3) =~= seq![z]);
    assert(tokens_from(m, a + 3) =~= seq![y] + tokens_from(m, b + 2));
    assert(tokens_from(m, 0) =~= seq![x] + tokens_from(m, a + 2));
    assert(tokens_from(m, 0) =~= seq![x, y, z]);
}

/// A line with three names in angle brackets and a full stop.
spec fn is_statement(l: Seq<char>, s: Seq<char>, p: Seq<char>, o: Seq<char>) -> bool {
    &&& l == three_names(s, p, o) + seq![' ', '.']
    &&& !s.contains('>') && !p.contains('>') && !o.contains('>')
    &&& !s.contains('\n') && !p.contains('\n') && !o.contains('\n')
}

proof fn lemma_statement_parts(l: Seq<char>, s: Seq<char>, p: Seq<char>, o: Seq<char>)
    requires
        is_statement(l, s, p, o),
    ensures
        begins_with_names(l, s, p, o),
        l.len() == s.len() + p.len() + o.len() + 10,
        l[l.len() - 2] == ' ' && l[l.len() - 1] == '.',
{
    let a = s.len() as int;
    let b = a + 3 + p.len();
    let c = b + 3 + o.len();
    assert(l.subrange(1, a + 1) =~= s);
    assert(l.subrange(a + 4, b + 1) =~= p);
    assert(l.subrange(b + 4, c + 1) =~= o);
}

proof fn lemma_statement_is_one_line(l: Seq<char>, s: Seq<char>, p: Seq<char>, o: Seq<char>)
    requires
        is_statement(l, s, p, o),
    ensures
        text::lines_of(without_bom(l)) == seq![l],
{
    lemma_statement_parts(l, s, p, o);
    let a = s.len() as int;
    let b = a + 3 + p.len();
    let c = b + 3 + o.len();
    if l.contains('\n') {
        let k = choose|k: int| 0 <= k < l.len() && l[k] == '\n';
        if 1 <= k < a + 1 {
            assert(s[k - 1] == l.subrange(1, a + 1)[k - 1]);
            assert(s.contains('\n'));
        } else if a + 4 <= k < b + 1 {
            assert(p[k - a - 4] == l.subrange(a + 4, b + 1)[k - a - 4]);
            assert(p.contains('\n'));
        } else if b + 4 <= k < c + 1 {
            assert(o[k - b - 4] == l.subrange(b + 4, c + 1)[k - b - 4]);
            assert(o.contains('\n'));
        } else {
            assert(k == 0 || k == a + 1 || k == a + 2 || k == a + 3 || k == b + 1 || k == b + 2 || k
                == b + 3 || k == c + 1 || k == c + 2 || k == c + 3);
        }
        assert(false);
    }
    text::law_lines_end_at_line_feeds(l, Seq::empty());
}

proof fn lemma_statement_has_no_comment(l: Seq<char>, s: Seq<char>, p: Seq<char>, o: Seq<char>)
    requires
        is_statement(l, s, p, o),
    ensures
        uncommented(l) == l,
        text::trimmed(l) == l,
        prefix_decl(l) is None,
        base_decl(l) is None,
{
    lemma_statement_parts(l, s, p, o);
    lemma_names_found(l, s, p, o);
    let a = s.len() as int;
    let b = a + 3 + p.len();
    let c = b + 3 + o.len();
    assert(comment_from(l, c + 4) == l.len());
    assert(comment_from(l, c + 3) == l.len());
    assert(comment_from(l, c + 2) == l.len());
    assert(comment_from(l, b + 3) == l.len());
    assert(comment_from(l, b + 2) == l.len());
    assert(comment_from(l, a + 3) == l.len());
    assert(comment_from(l, a + 2) == l.len());
    assert(comment_from(l, 0) == l.len());
    assert(uncommented(l) =~= l);
    assert(text::trimmed(l) == l) by {
        reveal_with_fuel(text::trimmed_start, 2);
        reveal_with_fuel(text::trimmed_end, 2);
    }
    reveal_strlit("@prefix");
    reveal_strlit("@base");
    if text::begins(l, "@prefix"@) {
        assert(l.subrange(0, 7)[0] == '@');
    }
    if text::begins(l, "@base"@) {
        assert(l.subrange(0, 5)[0] == '@');
    }
}

proof fn lemma_statement_tokens(l: Seq<char>, s: Seq<char>, p: Seq<char>, o: Seq<char>)
    requires
        is_statement(l, s, p, o),
    ensures
        line_tokens(l) == seq![
            seq!['<'] + s + seq!['>'],
            seq!['<'] + p + seq!['>'],
            seq!['<'] + o + seq!['>'],
        ],
{
    let m = three_names(s, p, o);
    let marks = seq![';', ',', '.'];
    assert(marks[2] == '.');
    assert(marks.contains('.'));
    assert(l.last() == '.');
    assert(l.drop_last() =~= m.push(' '));
    assert(!marks.contains(' '));
    assert(text::without_marks(l, marks) == m.push(' ')) by {
        reveal_with_fuel(text::without_marks, 2);
    }
    assert(text::trimmed(m.push(' ')) == m) by {
        reveal_with_fuel(text::trimmed_start, 2);
        reveal_with_fuel(text::trimmed_end, 3);
        assert(m.push(' ').drop_last() =~= m);
        assert(m.last() == '>');
    }
    lemma_three_tokens(s, p, o);
}

proof fn lemma_name_token(s: Seq<char>, st: Scan)
    requires
        st.base is None,
    ensures
        ({
            let x = seq!['<'] + s + seq!['>'];
            st.expand(x) == Some(s) && x != "a"@ && x != ";"@ && x != ","@
        }),
{
    let x = seq!['<'] + s + seq!['>'];
    reveal_strlit("a");
    reveal_strlit(";");
    reveal_strlit(",");
    assert(x[0] == '<');
    assert("a"@[0] == 'a' && ";"@[0] == ';' && ","@[0] == ',');
    assert(x.subrange(1, x.len() - 1) =~= s);
}

/// A document that states one thing has that one edge: from the subject to the object of its
/// statement, under its predicate, where that is a controlled relation, and none where it is
/// not. Blanks, brackets and the full stop are no part of it.
pub proof fn law_one_statement_is_one_edge(
    s: Seq<char>,
    p: Seq<char>,
    o: Seq<char>,
    namespaces: Seq<Seq<char>>,
)
    requires
        !s.contains('>') && !p.contains('>') && !o.contains('>'),
        !s.contains('\n') && !p.contains('\n') && !o.contains('\n'),
    ensures
        document_edges(three_names(s, p, o) + seq![' ', '.'], namespaces) == if relation_of(p, namespaces) is Some {
            seq![(s, p, o)]
        } else {
            Seq::empty()
        },
{
    let l = three_names(s, p, o) + seq![' ', '.'];
    assert(l[0] == '<' && l.last() == '.');
    lemma_statement_is_one_line(l, s, p, o);
    lemma_statement_has_no_comment(l, s, p, o);
    lemma_statement_tokens(l, s, p, o);
    let x = seq!['<'] + s + seq!['>'];
    let y = seq!['<'] + p + seq!['>'];
    let z = seq!['<'] + o + seq!['>'];
    let t = line_tokens(l);
    assert(t[0] == x && t[1] == y && t[2] == z && t.len() == 3);
    let st = Scan::start();
    let s1 = Scan { sep: None, ..st };
    let s2 = Scan { subj: Some(s), pred: None, ..s1 };
    let s3 = Scan { pred: Some(p), ..s2 };
    lemma_name_token(s, s1);
    lemma_name_token(p, s2);
    lemma_name_token(o, s3);
    assert(line_head(s1, t) == (s2, 1int));
    let s4 = s3.object(o, namespaces);
    assert(run_tokens(s4, t, 3, namespaces) == s4);
    assert(run_tokens(s3, t, 2, namespaces) == s4);
    assert(run_tokens(s2, t, 1, namespaces) == s4);
    assert(leading_sep(l) is None && trailing_sep(l) is None);
    assert(scan_statements(st, l, namespaces).edges == s4.edges);
    assert(seq![l].drop_last() =~= Seq::empty());
    assert(scan_lines(seq![l].drop_last(), namespaces) == st);
    assert(scan_lines(seq![l], namespaces) == scan_line(st, l, namespaces));
    assert(s4.edges =~= if relation_of(p, namespaces) is Some {
        seq![(s, p, o)]
    } else {
        Seq::empty()
    });
}

proof fn lemma_declared(iri: Seq<char>)
    ensures
        declared_iri(seq![' ', '<'] + iri + seq!['>', ' ', '.']) == Some(iri),
{
    let t = seq!['<'] + iri + seq!['>', ' ', '.'];
    let s = seq![' ', '<'] + iri + seq!['>', ' ', '.'];
    assert(s.skip(1) =~= t);
    assert(s[0] == ' ' && t[0] == '<');
    assert(text::trimmed_start(s) == t) by {
        reveal_with_fuel(text::trimmed_start, 3);
    }
    let u = seq!['<'] + iri + seq!['>', ' '];
    assert(t.drop_last() =~= u);
    let w = seq!['<'] + iri + seq!['>'];
    assert(u.drop_last() =~= w);
    assert(text::trimmed_end(u) == w) by {
        reveal_with_fuel(text::trimmed_end, 3);
        assert(w.last() == '>');
    }
    assert(w.subrange(1, w.len() - 1) =~= iri);
}

/// A declaration gives the prefix that stands before its colon the IRI in its brackets, and
/// one of a base gives that.
pub proof fn law_declarations_give_what_they_say(prefix: Seq<char>, iri: Seq<char>)
    requires
        !prefix.contains(':'),
        prefix.len() == 0 || (!text::is_space(prefix[0]) && !text::is_space(prefix.last())),
    ensures
        prefix_decl("@prefix"@ + seq![' '] + prefix + seq![':', ' ', '<'] + iri + seq!['>', ' ', '.'])
            == Some((prefix, iri)),
        base_decl("@base"@ + seq![' ', '<'] + iri + seq!['>', ' ', '.']) == Some(iri),
{
    lemma_declared(iri);
    let d = seq![' ', '<'] + iri + seq!['>', ' ', '.'];
    let b = "@base"@ + seq![' ', '<'] + iri + seq!['>', ' ', '.'];
    assert(b =~= "@base"@ + d);
    assert(b.subrange(0, "@base"@.len() as int) =~= "@base"@);
    assert(b.skip("@base"@.len() as int) =~= d);
    let n = "@prefix"@.len() as int;
    let l = "@prefix"@ + seq![' '] + prefix + seq![':', ' ', '<'] + iri + seq!['>', ' ', '.'];
    assert(l.subrange(0, n) =~= "@prefix"@);
    let t = prefix + seq![':'] + d;
    assert(l.skip(n) =~= seq![' '] + t);
    let rest = seq![' '] + t;
    assert(rest.skip(1) =~= t);
    assert(t[0] == if prefix.len() > 0 {
        prefix[0]
    } else {
        ':'
    });
    assert(text::trimmed_start(rest) == t) by {
        reveal_with_fuel(text::trimmed_start, 3);
        assert(rest[0] == ' ');
    }
    assert forall|j: int| 0 <= j < prefix.len() implies #[trigger] t[j] != ':' by {
        assert(prefix.contains(prefix[j]));
    }
    lemma_found_at(t, ':', 0, prefix.len() as int);
    assert(t.skip(prefix.len() as int + 1) =~= d);
    assert(t.take(prefix.len() as int) =~= prefix);
    assert(text::trimmed(prefix) == prefix) by {
        reveal_with_fuel(text::trimmed_start, 2);
        reveal_with_fuel(text::trimmed_end, 2);
    }
}

/// A relative name takes the place of what stands behind the last slash of the base, or of
/// its whole path where it begins with a slash itself.
pub proof fn law_relative_names_are_resolved(
    scheme: Seq<char>,
    authority: Seq<char>,
    dir: Seq<char>,
    file: Seq<char>,
    rel: Seq<char>,
)
    requires
        !scheme.contains(':'),
        !authority.contains('/'),
        !file.contains('/'),
        rel.len() > 0,
    ensures
        ({
            let base = scheme + "://"@ + authority + seq!['/'] + dir + seq!['/'] + file;
            &&& rel[0] != '/' ==> resolved(base, rel) == scheme + "://"@ + authority + seq!['/'] + dir + seq![
                '/',
            ] + rel
            &&& rel[0] == '/' ==> resolved(base, rel) == scheme + "://"@ + authority + rel
        }),
{
    reveal_strlit("://");
    let sep = "://"@;
    let path = seq!['/'] + dir + seq!['/'] + file;
    let rest = authority + path;
    let base = scheme + sep + authority + seq!['/'] + dir + seq!['/'] + file;
    assert(base =~= scheme + sep + rest);
    let k = scheme.len() as int;
    assert(base.subrange(k, k + 3) =~= sep);
    assert(text::stands_at(base, sep, k));
    text::law_texts_are_found(base, sep, 0);
    if let Some(x) = text::find_at(base, sep, 0) {
        if x < k {
            assert(base.subrange(x, x + 3)[0] == ':');
            assert(scheme[x] == ':');
        }
        assert(x == k);
    }
    assert(base.take(k) =~= scheme);
    assert(base.skip(k + 3) =~= rest);
    assert forall|j: int| 0 <= j < authority.len() implies #[trigger] rest[j] != '/' by {
        assert(authority.contains(authority[j]));
    }
    lemma_found_at(rest, '/', 0, authority.len() as int);
    assert(rest.take(authority.len() as int) =~= authority);
    assert(rest.skip(authority.len() as int) =~= path);
    let e = dir.len() as int + 1;
    assert(path[e] == '/');
    text::law_characters_are_found(path, '/', 0);
    assert(path.contains('/'));
    if let Some(x) = text::last_index(path, '/') {
        if x > e {
            assert(file[x - e - 1] == '/');
        }
        if x < e {
            assert(path[e] != '/');
        }
        assert(x == e);
    }
    assert(path.take(e + 1) =~= seq!['/'] + dir + seq!['/']);
    if rel[0] != '/' {
        assert(resolved(base, rel) =~= scheme + sep + authority + seq!['/'] + dir + seq!['/'] + rel);
    }
}

proof fn lemma_plain_line(s: Seq<char>, c: Seq<char>, i: int)
    requires
        0 <= i <= s.len(),
        forall|j: int|
            0 <= j < s.len() ==> #[trigger] s[j] != '#' && s[j] != '<' && s[j] != '"' && s[j] != '\'',
    ensures
        comment_from(s + seq!['#'] + c, i) == s.len(),
    decreases s.len() - i,
{
    let l = s + seq!['#'] + c;
    if i < s.len() {
        assert(l[i] == s[i]);
        lemma_plain_line(s, c, i + 1);
    } else {
        assert(l[i] == '#');
    }
}

/// What stands behind a hash is a comment, and what stands before it is the line.
pub proof fn law_comments_stand_behind_a_hash(s: Seq<char>, c: Seq<char>)
    requires
        forall|j: int|
            0 <= j < s.len() ==> #[trigger] s[j] != '#' && s[j] != '<' && s[j] != '"' && s[j] != '\'',
    ensures
        uncommented(s + seq!['#'] + c) == s,
{
    lemma_plain_line(s, c, 0);
    assert((s + seq!['#'] + c).take(s.len() as int) =~= s);
}

/// What is known of an edge is its own subject, predicate and object.
pub proof fn law_edges_hold_what_they_say(v: Seq<(String, String, String)>, i: int)
    requires
        0 <= i < v.len(),
    ensures
        edge_texts(v).len() == v.len(),
        edge_texts(v)[i].0 == v[i].0@,
        edge_texts(v)[i].1 == v[i].1@,
        edge_texts(v)[i].2 == v[i].2@,
{
}

} // verus!
