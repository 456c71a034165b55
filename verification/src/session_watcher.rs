//! Watching the files of chat sessions: what of them is new, and what of that is
//! kept as a memory.
use vstd::prelude::*;
use crate::json;
use crate::json::{Json, JsonView};
use crate::paths;
use crate::table::Table;
use crate::text;

verus! {

/// How many messages are taken in at most in one round.
pub const MAX_PER_POLL: usize = 20;

/// How old the last change of a file has to be, in seconds.
pub const SETTLE_SECS: u64 = 30;

/// The directories that are watched, by their variable: a list with commas.
pub fn watch_dirs(v: &str) -> (r: Vec<String>)
    ensures
        text::texts(r@) == text::comma_list(text::split_on(v@, ',')),
{
    text::split_commas(v)
}

/// Tells whether a file is that of a session, by its name.
pub fn is_session_file(name: &str) -> (r: bool)
    ensures
        r == (paths::extension_of(name@) == Some("jsonl"@)),
{
    paths::has_extension(name, "jsonl")
}

/// What is done with a file in a round.
#[derive(Debug, Clone, Copy, PartialEq, Eq, Structural)]
pub enum Visit {
    Skip,
    /// It is read from this byte on.
    Read { from: u64 },
}

/// How far a file has been read.
pub open spec fn read_so_far(offsets: Map<Seq<char>, u64>, key: Seq<char>) -> u64 {
    if offsets.contains_key(key) {
        offsets[key]
    } else {
        0
    }
}

/// What is done with a file of `len` bytes that was changed `age` seconds ago: one
/// that has just changed, and one that has not grown, are left alone; one that
/// has become shorter is read from its beginning.
pub open spec fn visit_of(offsets: Map<Seq<char>, u64>, key: Seq<char>, age: u64, len: u64) -> Visit {
    let offset = read_so_far(offsets, key);
    if age < SETTLE_SECS || len == offset {
        Visit::Skip
    } else if len < offset {
        Visit::Read { from: 0 }
    } else {
        Visit::Read { from: offset }
    }
}

/// Decides what is done with a file in a round.
pub fn poll_once_blocking(offsets: &Table<u64>, key: &str, age: u64, len: u64) -> (r: Visit)
    requires
        offsets.wf(),
    ensures
        r == visit_of(offsets@, key@, age, len),
{
    let offset: u64 = match offsets.get(key) {
        Some(o) => o,
        None => 0,
    };
    if age < SETTLE_SECS || len == offset {
        Visit::Skip
    } else if len < offset {
        Visit::Read { from: 0 }
    } else {
        Visit::Read { from: offset }
    }
}

/// Notes that a file has been read up to its end.
pub fn note_read(offsets: &mut Table<u64>, key: &str, len: u64)
    requires
        old(offsets).wf(),
    ensures
        final(offsets).wf(),
        final(offsets)@ == old(offsets)@.insert(key@, len),
{
    offsets.put(key, len);
}

/// No byte is read twice: a file that has been read up to its end is left alone
/// until its length changes, and then read from that end on, unless it has become
/// shorter. Other files are not touched by that.
pub proof fn law_nothing_is_read_twice(
    offsets: Map<Seq<char>, u64>,
    key: Seq<char>,
    other: Seq<char>,
    len: u64,
    age: u64,
    new_len: u64,
)
    ensures
        visit_of(offsets.insert(key, len), key, age, len) == Visit::Skip,
        new_len > len && age >= SETTLE_SECS ==> visit_of(
            offsets.insert(key, len),
            key,
            age,
            new_len,
        ) == (Visit::Read { from: len }),
        other != key ==> visit_of(offsets.insert(key, len), other, age, new_len) == visit_of(
            offsets,
            other,
            age,
            new_len,
        ),
{
}

/// The lines of a text that are not blank, without white space at their ends.
pub open spec fn solid_lines(parts: Seq<Seq<char>>) -> Seq<Seq<char>>
    decreases parts.len(),
{
    if parts.len() == 0 {
        Seq::empty()
    } else {
        let l = solid_lines(parts.drop_last());
        let t = text::trimmed(parts.last());
        if t.len() == 0 {
            l
        } else {
            l.push(t)
        }
    }
}

/// The lines of what is new in a file.
pub fn read_new_lines(s: &str) -> (r: Vec<String>)
    ensures
        text::texts(r@) == solid_lines(text::split_on(s@, '\n')),
{
    let parts = text::split(s, '\n');
    let ghost p = text::split_on(s@, '\n');
    let mut out: Vec<String> = Vec::new();
    let mut i: usize = 0;
    assert(text::texts(out@) =~= solid_lines(p.take(0)));
    while i < parts.len()
        invariant
            i <= parts@.len(),
            p == text::texts(parts@),
            text::texts(out@) == solid_lines(p.take(i as int)),
        decreases parts@.len() - i,
    {
        assert(p.take(i + 1).drop_last() =~= p.take(i as int));
        assert(p.take(i + 1).last() == parts@[i as int]@);
        let t = text::trim(parts[i].as_str());
        if !t.as_str().is_empty() {
            proof {
                text::lemma_texts_push(out@, t);
            }
            out.push(t);
        }
        i += 1;
    }
    assert(p.take(p.len() as int) =~= p);
    out
}

/// What the user says in a message: nothing where another one speaks.
pub open spec fn dialog_of(v: JsonView) -> Option<Seq<char>> {
    let role = v.text_or("role"@, ""@);
    if role == "user"@ || role == "human"@ {
        v.text_at("content"@)
    } else {
        None
    }
}

/// What the user says in a message.
pub fn read_dialog(v: &Json) -> (r: Option<String>)
    ensures
        text::opt_text(r) == dialog_of(v@),
{
    let role = v.string_or("role", "");
    if text::same(role.as_str(), "user") || text::same(role.as_str(), "human") {
        v.string_at("content")
    } else {
        None
    }
}

/// What the user says in a line of a session.
pub open spec fn line_dialog(line: Seq<char>) -> Option<Seq<char>> {
    match json::parsed(line) {
        Some(v) => dialog_of(v),
        None => None,
    }
}

/// What the user says in a line of a session.
pub fn extract_dialog_text(line: &str) -> (r: Option<String>)
    ensures
        text::opt_text(r) == line_dialog(line@),
{
    match json::parse_json(line) {
        Some(v) => read_dialog(&v),
        None => None,
    }
}

/// What the user says in the lines of a session, in their order.
pub open spec fn dialogs(lines: Seq<Seq<char>>) -> Seq<Seq<char>>
    decreases lines.len(),
{
    if lines.len() == 0 {
        Seq::empty()
    } else {
        match line_dialog(lines.last()) {
            Some(t) => dialogs(lines.drop_last()).push(t),
            None => dialogs(lines.drop_last()),
        }
    }
}

/// The first `n` of a list, or all of them where it has fewer.
pub open spec fn first_of(l: Seq<Seq<char>>, n: int) -> Seq<Seq<char>> {
    if n < 0 {
        Seq::empty()
    } else if n <= l.len() {
        l.take(n)
    } else {
        l
    }
}

proof fn lemma_dialogs_grow(lines: Seq<Seq<char>>, i: int)
    requires
        0 <= i <= lines.len(),
    ensures
        dialogs(lines.take(i)).len() <= dialogs(lines).len(),
        dialogs(lines).take(dialogs(lines.take(i)).len() as int) == dialogs(lines.take(i)),
    decreases lines.len() - i,
{
    if i < lines.len() {
        lemma_dialogs_grow(lines, i + 1);
        assert(lines.take(i + 1).drop_last() =~= lines.take(i));
        let a = dialogs(lines.take(i));
        let b = dialogs(lines.take(i + 1));
        assert(b.take(a.len() as int) =~= a);
        assert(dialogs(lines).take(a.len() as int) =~= b.take(a.len() as int));
    } else {
        assert(lines.take(i) =~= lines);
        assert(dialogs(lines).take(dialogs(lines).len() as int) =~= dialogs(lines));
    }
}

/// The messages that are taken in from the lines of a file, where `taken` have
/// been in this round.
pub fn messages(lines: &Vec<String>, taken: usize) -> (r: Vec<String>)
    ensures
        text::texts(r@) == first_of(dialogs(text::texts(lines@)), MAX_PER_POLL - taken),
{
    let ghost all = text::texts(lines@);
    let mut out: Vec<String> = Vec::new();
    let mut i: usize = 0;
    assert(text::texts(out@) =~= dialogs(all.take(0)));
    if taken >= MAX_PER_POLL {
        assert(text::texts(out@) =~= first_of(dialogs(all), MAX_PER_POLL - taken));
        return out;
    }
    while i < lines.len()
        invariant
            i <= lines@.len(),
            all == text::texts(lines@),
            taken < MAX_PER_POLL,
            out@.len() <= MAX_PER_POLL - taken,
            text::texts(out@) == dialogs(all.take(i as int)),
        decreases lines@.len() - i,
    {
        assert(all.take(i + 1).drop_last() =~= all.take(i as int));
        assert(all.take(i + 1).last() == lines@[i as int]@);
        if let Some(t) = extract_dialog_text(lines[i].as_str()) {
            if out.len() >= MAX_PER_POLL - taken {
                proof {
                    lemma_dialogs_grow(all, i as int);
                }
                assert(text::texts(out@).len() == out@.len());
                return out;
            }
            proof {
                text::lemma_texts_push(out@, t);
            }
            out.push(t);
        }
        i += 1;
    }
    assert(all.take(all.len() as int) =~= all);
    assert(text::texts(out@).len() == out@.len());
    assert(dialogs(all).take(dialogs(all).len() as int) =~= dialogs(all));
    out
}

/// No round takes in more than the limit.
pub proof fn law_rounds_are_bounded(lines: Seq<Seq<char>>, taken: nat)
    requires
        taken <= MAX_PER_POLL,
    ensures
        taken + first_of(dialogs(lines), MAX_PER_POLL - taken).len() <= MAX_PER_POLL,
{
}

/// A file is read where it has settled and grown, from where it was left; where it became
/// shorter it is read anew, and a file that is still being written waits.
pub proof fn law_settled_files_are_read(offsets: Map<Seq<char>, u64>, key: Seq<char>, at: u64, age: u64, len: u64)
    ensures
        age < 30 ==> visit_of(offsets, key, age, len) is Skip,
        age >= 30 && len < at ==> visit_of(offsets.insert(key, at), key, age, len) == (
        Visit::Read { from: 0 }),
        age >= 30 && len > at ==> visit_of(offsets.insert(key, at), key, age, len) == (
        Visit::Read { from: at }),
        age >= 30 && len > 0 && !offsets.contains_key(key) ==> visit_of(offsets, key, age, len)
            == (Visit::Read { from: 0 }),
{
}

/// A session is read line by line: each is trimmed, and a blank one is left out.
pub proof fn law_session_lines_are_read_one_by_one(
    a: Seq<Seq<char>>,
    b: Seq<Seq<char>>,
    line: Seq<char>,
)
    ensures
        solid_lines(a + b) == solid_lines(a) + solid_lines(b),
        solid_lines(seq![line]) == if text::trimmed(line).len() == 0 {
            Seq::empty()
        } else {
            seq![text::trimmed(line)]
        },
        dialogs(a + b) == dialogs(a) + dialogs(b),
        dialogs(seq![line]) == match line_dialog(line) {
            Some(t) => seq![t],
            None => Seq::empty(),
        },
    decreases b.len(),
{
    assert(seq![line].drop_last() =~= Seq::empty());
    assert(solid_lines(seq![line].drop_last()) =~= Seq::empty());
    assert(dialogs(seq![line].drop_last()) =~= Seq::empty());
    assert(solid_lines(seq![line]) =~= if text::trimmed(line).len() == 0 {
        Seq::empty()
    } else {
        seq![text::trimmed(line)]
    });
    assert(dialogs(seq![line]) =~= match line_dialog(line) {
        Some(t) => seq![t],
        None => Seq::empty(),
    });
    if b.len() == 0 {
        assert(a + b =~= a);
        assert(solid_lines(a) + solid_lines(b) =~= solid_lines(a));
        assert(dialogs(a) + dialogs(b) =~= dialogs(a));
    } else {
        law_session_lines_are_read_one_by_one(a, b.drop_last(), line);
        assert((a + b).drop_last() =~= a + b.drop_last());
        assert((a + b).last() == b.last());
        assert(solid_lines(a + b) =~= solid_lines(a) + solid_lines(b));
        assert(dialogs(a + b) =~= dialogs(a) + dialogs(b));
    }
}

/// What a user or a human says is taken in as it stands, and what anyone else says is not.
pub proof fn law_only_users_are_heard(v: JsonView, t: Seq<char>, role: Seq<char>)
    requires
        v.member("content"@) == Some(JsonView::Text(t)),
    ensures
        v.member("role"@) == Some(JsonView::Text("user"@)) ==> dialog_of(v) == Some(t),
        v.member("role"@) == Some(JsonView::Text("human"@)) ==> dialog_of(v) == Some(t),
        v.member("role"@) == Some(JsonView::Text(role)) && role != "user"@ && role != "human"@
            ==> dialog_of(v) is None,
        v.member("role"@) is None ==> dialog_of(v) is None,
{
    reveal_strlit("user");
    reveal_strlit("human");
    reveal_strlit("");
    assert("user"@.len() == 4 && "human"@.len() == 5 && ""@.len() == 0);
}

/// Of the messages of a round the first are taken in, as many as still fit.
pub proof fn law_rounds_take_the_first(l: Seq<Seq<char>>, n: int, i: int)
    requires
        0 <= n,
    ensures
        first_of(l, n).len() == if n < l.len() {
            n
        } else {
            l.len() as int
        },
        0 <= i < first_of(l, n).len() ==> first_of(l, n)[i] == l[i],
        first_of(l, MAX_PER_POLL as int).len() <= 20,
        l.len() >= 20 ==> first_of(l, MAX_PER_POLL as int).len() == 20,
{
}

} // verus!
