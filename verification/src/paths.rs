//! Paths whose parts are separated by slashes.
use vstd::prelude::*;
use vstd::slice::slice_subrange;
use crate::text;

verus! {

/// A part that names nothing by itself: an empty one, or a dot.
pub open spec fn idle(part: Seq<char>) -> bool {
    part.len() == 0 || part == "."@
}

/// The last part of a path that is not idle; none where there is none, or where
/// it leads upwards.
pub open spec fn last_named(parts: Seq<Seq<char>>) -> Option<Seq<char>>
    decreases parts.len(),
{
    if parts.len() == 0 {
        None
    } else if idle(parts.last()) {
        last_named(parts.drop_last())
    } else if parts.last() == ".."@ {
        None
    } else {
        Some(parts.last())
    }
}

/// The name of the file that a path leads to.
pub fn file_name(path: &str) -> (r: Option<String>)
    ensures
        text::opt_text(r) == last_named(text::split_on(path@, '/')),
{
    let parts = text::split(path, '/');
    let ghost all = text::split_on(path@, '/');
    let mut n: usize = parts.len();
    assert(all.take(n as int) =~= all);
    while n > 0
        invariant
            n <= parts@.len(),
            all == text::texts(parts@),
            all == text::split_on(path@, '/'),
            last_named(all) == last_named(all.take(n as int)),
        decreases n,
    {
        assert(all.take(n as int).drop_last() =~= all.take(n - 1));
        assert(all.take(n as int).last() == parts@[n - 1]@);
        let part = parts[n - 1].as_str();
        if !part.is_empty() && !text::same(part, ".") {
            if text::same(part, "..") {
                return None;
            }
            return Some(part.to_string());
        }
        n -= 1;
    }
    None
}

/// A path without the slashes and dots at its end that name nothing; a single
/// slash stays.
pub open spec fn bare(path: Seq<char>) -> Seq<char>
    decreases path.len(),
{
    if path.len() > 1 && path.last() == '/' {
        bare(path.drop_last())
    } else if path.len() > 1 && path.last() == '.' && path[path.len() - 2] == '/' {
        bare(path.drop_last())
    } else {
        path
    }
}

fn bare_len(v: &[char]) -> (n: usize)
    ensures
        n <= v@.len(),
        bare(v@) == v@.take(n as int),
{
    let mut n: usize = v.len();
    assert(v@.take(n as int) =~= v@);
    while n > 1
        invariant
            n <= v@.len(),
            bare(v@) == bare(v@.take(n as int)),
        decreases n,
    {
        assert(v@.take(n as int).drop_last() =~= v@.take(n - 1));
        if v[n - 1] == '/' || (v[n - 1] == '.' && v[n - 2] == '/') {
            n -= 1;
        } else {
            return n;
        }
    }
    n
}

/// The directory that a path lies in: empty for a bare name, none for the root
/// and for an empty path.
pub open spec fn parent_of(path: Seq<char>) -> Option<Seq<char>> {
    let p = bare(path);
    if p.len() == 0 || p == "/"@ {
        None
    } else {
        match text::last_index(p, '/') {
            None => Some(Seq::empty()),
            Some(i) => Some(
                bare(
                    p.take(
                        if i == 0 {
                            1
                        } else {
                            i
                        },
                    ),
                ),
            ),
        }
    }
}

/// The directory that a path lies in.
pub fn parent(path: &str) -> (r: Option<String>)
    ensures
        text::opt_text(r) == parent_of(path@),
{
    proof {
        reveal_strlit("/");
    }
    let v = text::chars_of(path);
    let n = bare_len(v.as_slice());
    let p = text::string_between(&v, 0, n);
    assert(p@ =~= bare(path@));
    if n == 0 || text::same(p.as_str(), "/") {
        return None;
    }
    let pv = text::chars_of(p.as_str());
    match text::last_index_of(&pv, '/') {
        None => {
            let e = String::new();
            assert(e@ =~= Seq::empty());
            Some(e)
        },
        Some(i) => {
            let end: usize = if i == 0 {
                1
            } else {
                i
            };
            let d = text::string_between(&pv, 0, end);
            assert(d@ =~= p@.take(end as int));
            let dv = text::chars_of(d.as_str());
            let k = bare_len(dv.as_slice());
            let r = text::string_between(&dv, 0, k);
            assert(r@ =~= bare(d@));
            Some(r)
        },
    }
}

/// The name without its extension: up to the last dot, unless the name begins
/// there.
pub open spec fn stem_len(name: Seq<char>) -> int {
    match text::last_index(name, '.') {
        Some(i) => if i == 0 || name == ".."@ {
            name.len() as int
        } else {
            i
        },
        None => name.len() as int,
    }
}

/// The extension of a name: what follows its last dot, unless the name begins
/// there.
pub open spec fn extension_of(name: Seq<char>) -> Option<Seq<char>> {
    if stem_len(name) < name.len() {
        Some(name.skip(stem_len(name) + 1))
    } else {
        None
    }
}

fn find_stem(name: &[char]) -> (n: usize)
    ensures
        n == stem_len(name@),
        n <= name@.len(),
{
    proof {
        reveal_strlit("..");
    }
    match text::last_index_of(name, '.') {
        Some(i) => if i == 0 || (name.len() == 2 && name[0] == '.' && name[1] == '.') {
            assert(i == 0 || name@ =~= ".."@);
            name.len()
        } else {
            i
        },
        None => name.len(),
    }
}

/// The name without its extension.
pub fn stem(name: &str) -> (r: String)
    ensures
        r@ == name@.take(stem_len(name@)),
{
    let v = text::chars_of(name);
    let n = find_stem(v.as_slice());
    let r = text::string_between(&v, 0, n);
    assert(r@ =~= name@.take(n as int));
    r
}

/// Tells whether a name has this extension.
pub fn has_extension(name: &str, ext: &str) -> (r: bool)
    ensures
        r == (extension_of(name@) == Some(ext@)),
{
    let v = text::chars_of(name);
    let n = find_stem(v.as_slice());
    if n < v.len() {
        let e = text::string_between(&v, n + 1, v.len());
        assert(e@ =~= name@.skip(n + 1));
        text::same(e.as_str(), ext)
    } else {
        false
    }
}

/// Where the last part of a path begins.
pub open spec fn name_start(path: Seq<char>) -> int {
    match text::last_index(path, '/') {
        Some(i) => i + 1,
        None => 0,
    }
}

/// The path with another extension; a path that leads to no file stays as it is.
pub open spec fn extended(path: Seq<char>, ext: Seq<char>) -> Seq<char> {
    if last_named(text::split_on(path, '/')) is None {
        path
    } else {
        let p = bare(path);
        let name = p.skip(name_start(p));
        p.take(name_start(p) + stem_len(name)) + "."@ + ext
    }
}

/// The path with another extension.
pub fn with_extension(path: &str, ext: &str) -> (r: String)
    ensures
        r@ == extended(path@, ext@),
{
    if file_name(path).is_none() {
        return path.to_string();
    }
    let v = text::chars_of(path);
    let n = bare_len(v.as_slice());
    let p = text::string_between(&v, 0, n);
    assert(p@ =~= bare(path@));
    let pv = text::chars_of(p.as_str());
    let from: usize = match text::last_index_of(&pv, '/') {
        Some(i) => if i < pv.len() {
            i + 1
        } else {
            0
        },
        None => 0,
    };
    let name = slice_subrange(pv.as_slice(), from, pv.len());
    assert(name@ =~= p@.skip(name_start(p@)));
    let k = find_stem(name);
    let base = text::string_between(&pv, 0, from + k);
    assert(base@ =~= p@.take(name_start(p@) + stem_len(name@)));
    text::cat3(base.as_str(), ".", ext)
}

proof fn lemma_last_behind(a: Seq<char>, c: char, b: Seq<char>)
    requires
        !b.contains(c),
    ensures
        text::last_index(a + seq![c] + b, c) == Some(a.len() as int),
    decreases b.len(),
{
    let s = a + seq![c] + b;
    if b.len() == 0 {
        assert(s.last() == c);
    } else {
        assert(s.drop_last() =~= a + seq![c] + b.drop_last());
        assert(s.last() == b.last());
        assert(b.contains(b.last()));
        assert(!b.drop_last().contains(c)) by {
            if b.drop_last().contains(c) {
                let k = choose|k: int| 0 <= k < b.drop_last().len() && b.drop_last()[k] == c;
                assert(b[k] == c);
            }
        }
        lemma_last_behind(a, c, b.drop_last());
    }
}

/// A name with an extension is taken apart at its last dot.
pub proof fn law_names_are_taken_apart_at_the_last_dot(stem: Seq<char>, ext: Seq<char>)
    requires
        stem.len() > 0,
        !ext.contains('.'),
        stem + "."@ + ext != ".."@,
    ensures
        extension_of(stem + "."@ + ext) == Some(ext),
        (stem + "."@ + ext).take(stem_len(stem + "."@ + ext)) == stem,
{
    reveal_strlit(".");
    assert("."@ =~= seq!['.']);
    let s = stem + "."@ + ext;
    lemma_last_behind(stem, '.', ext);
    assert(s.take(stem.len() as int) =~= stem);
    assert(s.skip(stem.len() as int + 1) =~= ext);
}

/// A name without a dot has no extension.
pub proof fn law_names_without_a_dot_have_no_extension(name: Seq<char>)
    requires
        !name.contains('.'),
    ensures
        extension_of(name) is None,
{
    text::law_characters_are_found(name, '.', 0);
    if let Some(k) = text::last_index(name, '.') {
        assert(name[k] == '.');
    }
}

/// A file lies in the directory before its name.
pub proof fn law_files_lie_in_their_directory(dir: Seq<char>, name: Seq<char>)
    requires
        dir.len() > 0,
        name.len() > 0,
        !name.contains('/'),
        name.last() != '.',
        bare(dir) == dir,
        dir.last() != '/',
    ensures
        parent_of(dir + "/"@ + name) == Some(dir),
{
    reveal_strlit("/");
    assert("/"@ =~= seq!['/']);
    let p = dir + "/"@ + name;
    lemma_last_behind(dir, '/', name);
    assert(name.contains(name.last()));
    assert(p.last() == name.last());
    assert(bare(p) == p);
    assert(p.len() > 1);
    assert(p.take(dir.len() as int) =~= dir);
}

} // verus!
