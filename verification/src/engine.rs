//! The engine round the search: how the index of hypothetical questions is
//! rebuilt and put to use, what is told of the database, and its counters.
use vstd::prelude::*;
use crate::health;
use crate::json;
use crate::json::{Json, JsonView, NumberView, Number};
use crate::paths;
use crate::table;
use crate::table::Table;
use crate::text;

verus! {

/// A number that a variable is set to, if it lies within the bounds; else the
/// default.
pub open spec fn bounded(v: Option<Seq<char>>, lo: nat, hi: nat, default: nat) -> nat {
    match v {
        Some(s) => match text::spelled(s, u32::MAX as nat) {
            Some(n) => if lo <= n <= hi {
                n
            } else {
                default
            },
            None => default,
        },
        None => default,
    }
}

/// A number that a variable is set to, if it lies within the bounds; else the
/// default.
pub fn bounded_setting(v: Option<&str>, lo: u32, hi: u32, default: u32) -> (r: u32)
    ensures
        r == bounded(text::opt_str(v), lo as nat, hi as nat, default as nat),
{
    match v {
        Some(s) => match text::parse_up_to(s, u32::MAX as u64) {
            Some(n) => if lo as u64 <= n && n <= hi as u64 {
                n as u32
            } else {
                default
            },
            None => default,
        },
        None => default,
    }
}

/// How many connections to the database are kept, by the variable for it: 4, or
/// any number from 1 to 64.
pub fn pool_size(v: Option<&str>) -> (r: u32)
    ensures
        r == bounded(text::opt_str(v), 1, 64, 4),
{
    bounded_setting(v, 1, 64, 4)
}

/// Where the vector index of a database lies.
pub open spec fn index_path_of(db_path: Seq<char>) -> Seq<char> {
    let dir = match paths::parent_of(db_path) {
        Some(d) => d,
        None => "."@,
    };
    text::in_dir(text::in_dir(dir, "vector_index"@), "hnsw_vectors"@)
}

/// Where the vector index of a database lies.
pub fn index_path(db_path: &str) -> (r: String)
    ensures
        r@ == index_path_of(db_path@),
{
    let dir = match paths::parent(db_path) {
        Some(d) => d,
        None => ".".to_string(),
    };
    text::path_in(text::path_in(dir.as_str(), "vector_index").as_str(), "hnsw_vectors")
}

/// Why an index that was built anew is not put to use: rows could not be read, or
/// were left out.
pub open spec fn partial_build(
    head: Seq<char>,
    read_errors: nat,
    skipped: nat,
    tail: Seq<char>,
) -> Seq<char> {
    head + text::dec(read_errors) + " read error(s), "@ + text::dec(skipped) + " skipped row(s)"@
        + tail
}

fn partial_message(head: &str, read_errors: u64, skipped: u64, tail: &str) -> (r: String)
    ensures
        r@ == partial_build(head@, read_errors as nat, skipped as nat, tail@),
{
    let mut s = text::cat5(
        head,
        text::decimal(read_errors).as_str(),
        " read error(s), ",
        text::decimal(skipped).as_str(),
        " skipped row(s)",
    );
    s.append(tail);
    s
}

/// What stands for an index of vectors: a number by which it is found, and how many
/// vectors it has.
#[derive(Debug, Clone, Copy, PartialEq, Eq, Structural)]
pub struct Index {
    pub key: u64,
    pub len: usize,
}

/// An index that was built anew from the store of vectors.
#[derive(Debug, Clone, Copy)]
pub struct Built {
    pub index: Index,
    /// How many vectors were announced.
    pub count: usize,
    /// How many rows could not be read.
    pub read_errors: u64,
    /// How many rows were left out.
    pub skipped: u64,
}

impl Built {
    /// No row is missing from the index.
    pub open spec fn complete(self) -> bool {
        self.read_errors == 0 && self.skipped == 0
    }
}

/// What is said when an index is put to use.
#[derive(Debug)]
pub struct Swapped {
    /// How many vectors it has.
    pub applied: usize,
    /// The count that was announced is another one.
    pub mismatch: Option<String>,
    /// The notice, unless the index is empty.
    pub notice: Option<String>,
}

/// What is said when an index of `len` vectors is put to use; `count` were announced.
pub open spec fn announces(r: Swapped, len: usize, count: usize) -> bool {
    &&& r.applied == len
    &&& text::opt_text(r.mismatch) == (if count != len {
        Some(
            "[Memoria] WARN: swap_hype_index count mismatch (count="@ + text::dec(count as nat)
                + ", index="@ + text::dec(len as nat) + "); reporting actual index len"@,
        )
    } else {
        None
    })
    &&& text::opt_text(r.notice) == (if len > 0 {
        Some("[Memoria] HYPE HNSW refreshed: "@ + text::dec(len as nat) + " vectors"@)
    } else {
        None
    })
}

fn announce(len: usize, count: usize) -> (r: Swapped)
    ensures
        announces(r, len, count),
{
    let mismatch = if count != len {
        Some(
            text::cat5(
                "[Memoria] WARN: swap_hype_index count mismatch (count=",
                text::decimal(count as u64).as_str(),
                ", index=",
                text::decimal(len as u64).as_str(),
                "); reporting actual index len",
            ),
        )
    } else {
        None
    };
    let notice = if len > 0 {
        Some(
            text::cat3(
                "[Memoria] HYPE HNSW refreshed: ",
                text::decimal(len as u64).as_str(),
                " vectors",
            ),
        )
    } else {
        None
    };
    Swapped { applied: len, mismatch, notice }
}

/// The engine: a database, the index of its memories and the index of hypothetical
/// questions that they answer.
#[derive(Debug)]
pub struct MemoriaEngine {
    pub db_path: String,
    pub hnsw: Index,
    pub hype_hnsw: Index,
}

/// Why the build of an index does not lead to its use: it failed, or rows are missing.
pub open spec fn unusable(built: Result<Built, Seq<char>>, head: Seq<char>, tail: Seq<char>) -> Option<
    Seq<char>,
> {
    match built {
        Err(e) => Some(e),
        Ok(b) => if b.complete() {
            None
        } else {
            Some(partial_build(head, b.read_errors as nat, b.skipped as nat, tail))
        },
    }
}

/// The outcome of a build, its error by its view.
pub open spec fn build_view(built: Result<Built, String>) -> Result<Built, Seq<char>> {
    match built {
        Ok(b) => Ok(b),
        Err(e) => Err(e@),
    }
}

impl MemoriaEngine {
    /// An engine with the indexes that were loaded or built for it.
    pub fn new(db_path: &str, hnsw: Index, hype_hnsw: Index) -> (r: Self)
        ensures
            r.db_path@ == db_path@,
            r.hnsw == hnsw,
            r.hype_hnsw == hype_hnsw,
    {
        MemoriaEngine { db_path: db_path.to_string(), hnsw, hype_hnsw }
    }

    /// How many vectors the index of memories has.
    pub fn vector_count(&self) -> (r: usize)
        ensures
            r == self.hnsw.len,
    {
        self.hnsw.len
    }

    /// Where the vector index is saved: nowhere for a database in memory.
    pub fn save_index(&self) -> (r: Option<String>)
        ensures
            text::opt_text(r) == (if self.db_path@ == ":memory:"@ {
                None
            } else {
                Some(index_path_of(self.db_path@))
            }),
    {
        if text::same(self.db_path.as_str(), ":memory:") {
            None
        } else {
            Some(index_path(self.db_path.as_str()))
        }
    }

    /// Every id that is added has its vector.
    pub fn add_vectors(&self, ids: usize, vectors: usize) -> (r: Result<(), String>)
        ensures
            match r {
                Ok(()) => ids == vectors,
                Err(e) => ids != vectors && e@ == "ids/vectors length mismatch"@,
            },
    {
        if ids != vectors {
            Err("ids/vectors length mismatch".to_string())
        } else {
            Ok(())
        }
    }

    /// An index that was built anew is handed out, unless a row is missing from it.
    pub fn build_hype_index_fresh(&self, built: Result<Built, String>) -> (r: Result<
        (Index, usize),
        String,
    >)
        ensures
            match unusable(
                build_view(built),
                "HYPE HNSW build: partial rebuild ("@,
                "); refusing to publish degraded index"@,
            ) {
                Some(m) => r matches Err(e) && e@ == m,
                None => r == Ok::<(Index, usize), String>((built->Ok_0.index, built->Ok_0.count)),
            },
    {
        match built {
            Err(e) => Err(e),
            Ok(b) => if b.read_errors > 0 || b.skipped > 0 {
                Err(
                    partial_message(
                        "HYPE HNSW build: partial rebuild (",
                        b.read_errors,
                        b.skipped,
                        "); refusing to publish degraded index",
                    ),
                )
            } else {
                Ok((b.index, b.count))
            },
        }
    }

    /// Puts an index to use; `count` vectors were announced.
    pub fn swap_hype_index(&mut self, fresh: Index, count: usize) -> (r: Swapped)
        ensures
            announces(r, fresh.len, count),
            final(self).hype_hnsw == fresh,
            final(self).hnsw == old(self).hnsw,
            final(self).db_path == old(self).db_path,
    {
        self.hype_hnsw = fresh;
        announce(fresh.len, count)
    }

    /// Puts an index that was built anew to use, unless a row is missing from it; else
    /// the one in use stays.
    pub fn refresh_hype_index(&mut self, built: Result<Built, String>) -> (r: Result<
        Swapped,
        String,
    >)
        ensures
            final(self).hnsw == old(self).hnsw,
            final(self).db_path == old(self).db_path,
            match unusable(
                build_view(built),
                "HYPE HNSW refresh: partial rebuild ("@,
                "); keeping existing index"@,
            ) {
                Some(m) => {
                    &&& r matches Err(e)
                    &&& e@ == m
                    &&& final(self).hype_hnsw == old(self).hype_hnsw
                },
                None => {
                    &&& r matches Ok(s)
                    &&& announces(s, built->Ok_0.index.len, built->Ok_0.count)
                    &&& final(self).hype_hnsw == built->Ok_0.index
                },
            },
    {
        match built {
            Err(e) => Err(e),
            Ok(b) => if b.read_errors > 0 || b.skipped > 0 {
                Err(
                    partial_message(
                        "HYPE HNSW refresh: partial rebuild (",
                        b.read_errors,
                        b.skipped,
                        "); keeping existing index",
                    ),
                )
            } else {
                Ok(self.swap_hype_index(b.index, b.count))
            },
        }
    }

    /// The reply to a search, as JSON.
    pub fn hybrid_search(&self, hits: &Vec<ShownHit>) -> (r: String)
        ensures
            r@ == json::rendered(search_reply(hits@)),
    {
        json::render_json(&show_hits(hits))
    }

    /// What is told of the database and the indexes, as JSON. `counts` holds the rows
    /// of each of the tables that have to be there.
    pub fn db_stats(&self, counts: &Vec<i64>, s: Sizes) -> (r: String)
        ensures
            r@ == json::rendered(
                stats_value(counts@, self.hnsw.len as u64, self.hype_hnsw.len as u64, s),
            ),
    {
        let mut o = count_tables(counts);
        o = json::with(o, "vector_index_size", json::unsigned(self.hnsw.len as u64));
        o = json::with(o, "hype_vector_index_size", whole_number(s.hype_store));
        o = json::with(o, "hype_vector_index_live", json::unsigned(self.hype_hnsw.len as u64));
        o = json::with(o, "query_cache_size", json::unsigned(s.query_cache));
        o = json::with(o, "semantic_signal_drops_global", json::unsigned(s.semantic_drops));
        json::render_json(&o)
    }
}

/// An index that was built and waits to be put to use.
#[derive(Debug, Clone, Copy)]
pub struct Pending {
    pub index: Index,
    pub count: usize,
    pub token: u64,
}

/// An engine whose index of hypothetical questions is rebuilt in two steps, so that
/// searches go on while a build runs: at most one build runs at a time, at most one
/// index waits, and each has a token that was drawn when its build began.
#[derive(Debug)]
pub struct PyEngine {
    pub inner: MemoriaEngine,
    pub last_token: u64,
    pub running: Option<u64>,
    pub pending: Option<Pending>,
}

/// The state of an engine that the rebuilding is about.
pub struct EngineView {
    pub hnsw: Index,
    pub hype: Index,
    pub last_token: u64,
    pub running: Option<u64>,
    pub pending: Option<Pending>,
}

/// The token after another one.
pub open spec fn next_token(t: u64) -> u64 {
    if t == u64::MAX {
        0
    } else {
        (t + 1) as u64
    }
}

/// The state after a build began. A token is drawn in any case; a build that runs goes
/// on.
pub open spec fn begun(s: EngineView) -> EngineView {
    EngineView {
        last_token: next_token(s.last_token),
        running: if s.running is Some {
            s.running
        } else {
            Some(next_token(s.last_token))
        },
        ..s
    }
}

/// The state after the build that ran ended. An index that came of it waits from now
/// on, in place of the one that waited; where none did, that one stays.
pub open spec fn ended(s: EngineView, built: Option<(Index, usize)>) -> EngineView {
    EngineView {
        running: None,
        pending: match (s.running, built) {
            (Some(token), Some((index, count))) => Some(Pending { index, count, token }),
            _ => s.pending,
        },
        ..s
    }
}

/// The state after an attempt to put the index that waits to use: it changes for the
/// holder of its token alone.
pub open spec fn swapped(s: EngineView, token: u64) -> EngineView {
    match s.pending {
        Some(p) => if p.token == token {
            EngineView { hype: p.index, pending: None, ..s }
        } else {
            s
        },
        None => s,
    }
}

/// The state after an attempt to rebuild in one step: none is made while an index
/// waits. After one that succeeded, no token that was drawn before is of use any more.
pub open spec fn refreshed(s: EngineView, built: Option<Index>) -> EngineView {
    match built {
        Some(index) => if s.pending is Some {
            s
        } else {
            EngineView { hype: index, last_token: next_token(s.last_token), ..s }
        },
        None => s,
    }
}

/// The index that a build hands out, with the count that was announced.
pub open spec fn handed_out(built: Result<Built, Seq<char>>) -> Option<(Index, usize)> {
    match built {
        Ok(b) => if b.complete() {
            Some((b.index, b.count))
        } else {
            None
        },
        Err(_) => None,
    }
}

impl PyEngine {
    pub open spec fn view(&self) -> EngineView {
        EngineView {
            hnsw: self.inner.hnsw,
            hype: self.inner.hype_hnsw,
            last_token: self.last_token,
            running: self.running,
            pending: self.pending,
        }
    }

    /// No build has begun.
    pub fn new(inner: MemoriaEngine) -> (r: Self)
        ensures
            r.inner == inner,
            r.last_token == 0,
            r.running is None,
            r.pending is None,
    {
        PyEngine { inner, last_token: 0, running: None, pending: None }
    }

    fn draw(&mut self) -> (token: u64)
        ensures
            token == next_token(old(self).last_token),
            final(self).last_token == token,
            final(self).inner == old(self).inner,
            final(self).running == old(self).running,
            final(self).pending == old(self).pending,
    {
        self.last_token = if self.last_token == u64::MAX {
            0
        } else {
            self.last_token + 1
        };
        self.last_token
    }

    /// Begins a build, and gives its token. While another build runs, the new one is
    /// refused.
    pub fn build_hype_index(&mut self) -> (r: Result<u64, String>)
        ensures
            final(self)@ == begun(old(self)@),
            final(self).inner == old(self).inner,
            match old(self).running {
                Some(t) => r matches Err(e) && e@
                    == "concurrent hype build in progress (started token "@ + text::dec(t as nat)
                    + "); build/swap must be serialized on one engine"@,
                None => r == Ok::<u64, String>(next_token(old(self).last_token)),
            },
    {
        let token = self.draw();
        match self.running {
            Some(t) => Err(
                text::cat3(
                    "concurrent hype build in progress (started token ",
                    text::decimal(t).as_str(),
                    "); build/swap must be serialized on one engine",
                ),
            ),
            None => {
                self.running = Some(token);
                Ok(token)
            },
        }
    }

    /// Ends the build that runs, with what came of it.
    pub fn end_build(&mut self, built: Result<Built, String>) -> (r: Result<(), String>)
        ensures
            final(self)@ == ended(old(self)@, handed_out(build_view(built))),
            final(self).inner == old(self).inner,
            match unusable(
                build_view(built),
                "HYPE HNSW build: partial rebuild ("@,
                "); refusing to publish degraded index"@,
            ) {
                Some(m) => r matches Err(e) && e@ == m,
                None => r is Ok,
            },
    {
        let running = self.running;
        self.running = None;
        match self.inner.build_hype_index_fresh(built) {
            Err(e) => Err(e),
            Ok((index, count)) => {
                if let Some(token) = running {
                    self.pending = Some(Pending { index, count, token });
                }
                Ok(())
            },
        }
    }

    /// Puts the index that waits to use. Only the holder of its token can; any other
    /// leaves all as it is.
    pub fn swap_hype_index(&mut self, token: u64) -> (r: Result<Swapped, String>)
        ensures
            final(self)@ == swapped(old(self)@, token),
            final(self).inner.db_path == old(self).inner.db_path,
            match old(self).pending {
                None => r matches Err(e) && e@
                    == "no pending hype index; call build_hype_index first"@,
                Some(p) => if p.token != token {
                    r matches Err(e) && e@ == "stale build token "@ + text::dec(token as nat)
                        + " (latest was "@ + text::dec(p.token as nat)
                        + "); rebuild and swap with its token"@
                } else {
                    r matches Ok(s) && announces(s, p.index.len, p.count)
                },
            },
    {
        match self.pending {
            None => Err("no pending hype index; call build_hype_index first".to_string()),
            Some(p) => if p.token != token {
                Err(
                    text::cat5(
                        "stale build token ",
                        text::decimal(token).as_str(),
                        " (latest was ",
                        text::decimal(p.token).as_str(),
                        "); rebuild and swap with its token",
                    ),
                )
            } else {
                self.pending = None;
                Ok(self.inner.swap_hype_index(p.index, p.count))
            },
        }
    }

    /// A rebuild in one step may begin: no index waits that it would throw away.
    pub fn may_refresh(&self) -> (r: Result<(), String>)
        ensures
            match r {
                Ok(()) => self.pending is None,
                Err(e) => self.pending is Some && e@
                    == "pending two-phase build exists; call swap_hype_index first (refresh would discard the pending index)"@,
            },
    {
        match self.pending {
            None => Ok(()),
            Some(_) => Err(
                "pending two-phase build exists; call swap_hype_index first (refresh would discard the pending index)".to_string(),
            ),
        }
    }

    /// Ends a rebuild in one step, with what came of it.
    pub fn refresh_hype_index(&mut self, built: Result<Built, String>) -> (r: Result<
        Swapped,
        String,
    >)
        ensures
            final(self)@ == refreshed(
                old(self)@,
                match handed_out(build_view(built)) {
                    Some((index, _)) => Some(index),
                    None => None,
                },
            ),
            final(self).inner.db_path == old(self).inner.db_path,
            if old(self).pending is Some {
                r matches Err(e) && e@
                    == "pending two-phase build exists; call swap_hype_index first (refresh would discard the pending index)"@
            } else {
                match unusable(
                    build_view(built),
                    "HYPE HNSW refresh: partial rebuild ("@,
                    "); keeping existing index"@,
                ) {
                    Some(m) => r matches Err(e) && e@ == m,
                    None => r matches Ok(s) && announces(
                        s,
                        built->Ok_0.index.len,
                        built->Ok_0.count,
                    ),
                }
            },
    {
        match self.may_refresh() {
            Err(e) => Err(e),
            Ok(()) => match self.inner.refresh_hype_index(built) {
                Err(e) => Err(e),
                Ok(s) => {
                    self.draw();
                    Ok(s)
                },
            },
        }
    }
}

/// What a build hands out is what its token puts to use, and nothing else is.
pub proof fn law_swap_installs_the_build(s: EngineView, index: Index, count: usize, token: u64)
    requires
        s.running is None,
    ensures
        ({
            let built = ended(begun(s), Some((index, count)));
            &&& swapped(built, next_token(s.last_token)).hype == index
            &&& swapped(built, next_token(s.last_token)).pending is None
            &&& token != next_token(s.last_token) ==> swapped(built, token) == built
        }),
{
}

/// A build that fails, whether in one step or in two, leaves the index in use and the
/// one that waits where they are.
pub proof fn law_failed_builds_change_no_index(s: EngineView)
    ensures
        ended(s, None).hype == s.hype,
        ended(s, None).pending == s.pending,
        refreshed(s, None) == s,
{
}

/// An index that waits is not thrown away by a rebuild in one step, nor by a second
/// attempt to begin a build.
pub proof fn law_waiting_indexes_stay(s: EngineView, built: Option<Index>)
    requires
        s.pending is Some,
    ensures
        refreshed(s, built) == s,
        begun(s).pending == s.pending,
        begun(s).hype == s.hype,
{
}

/// While a build runs, no other one takes its place.
pub proof fn law_builds_do_not_overlap(s: EngineView)
    requires
        s.running is Some,
    ensures
        begun(s).running == s.running,
{
}

/// A hit of the search, as it is shown. The score is in decimal notation.
#[derive(Debug)]
pub struct ShownHit {
    pub memory_id: String,
    pub content: String,
    pub rrf_score: String,
    pub source: String,
    pub evolved_at: Option<String>,
    pub pending_evolution: bool,
}

/// A text, or null.
pub open spec fn text_or_null(t: Option<Seq<char>>) -> JsonView {
    match t {
        Some(s) => JsonView::Text(s),
        None => JsonView::Null,
    }
}

/// A hit as it is shown: its content is cut to 200 bytes.
pub open spec fn hit_value(h: ShownHit) -> JsonView {
    JsonView::empty().with("memory_id"@, JsonView::Text(h.memory_id@)).with(
        "content"@,
        JsonView::Text(text::shortened(h.content@, 200)),
    ).with("rrf_score"@, JsonView::Number(NumberView::Real(h.rrf_score@))).with(
        "source"@,
        JsonView::Text(h.source@),
    ).with("evolved_at"@, text_or_null(text::opt_text(h.evolved_at))).with(
        "pending_evolution"@,
        JsonView::Bool(h.pending_evolution),
    )
}

/// The reply to a search.
pub open spec fn search_reply(hits: Seq<ShownHit>) -> JsonView {
    JsonView::empty().with("status"@, JsonView::Text("completed"@)).with(
        "total_results"@,
        JsonView::Number(NumberView::Unsigned(hits.len() as u64)),
    ).with(
        "results"@,
        JsonView::Array(Seq::new(hits.len(), |i: int| hit_value(hits[i]))),
    )
}

fn show_hit(h: &ShownHit) -> (r: Json)
    ensures
        r@ == hit_value(*h),
{
    let mut o = json::with(json::empty_object(), "memory_id", json::string(h.memory_id.as_str()));
    o = json::with(o, "content", json::string(text::truncate(h.content.as_str(), 200).as_str()));
    o = json::with(o, "rrf_score", Json::Number(Number::Real(h.rrf_score.clone())));
    o = json::with(o, "source", json::string(h.source.as_str()));
    let evolved = match &h.evolved_at {
        Some(t) => json::string(t.as_str()),
        None => Json::Null,
    };
    o = json::with(o, "evolved_at", evolved);
    json::with(o, "pending_evolution", Json::Bool(h.pending_evolution))
}

/// The reply to a search.
pub fn show_hits(hits: &Vec<ShownHit>) -> (r: Json)
    ensures
        r@ == search_reply(hits@),
{
    let mut items: Vec<Json> = Vec::new();
    let mut i: usize = 0;
    while i < hits.len()
        invariant
            i <= hits@.len(),
            items@.len() == i,
            forall|k: int| 0 <= k < i ==> (#[trigger] items@[k])@ == hit_value(hits@[k]),
        decreases hits@.len() - i,
    {
        items.push(show_hit(&hits[i]));
        i += 1;
    }
    let list = Json::Array(items);
    assert(list@->Array_0 =~= Seq::new(hits@.len(), |i: int| hit_value(hits@[i])));
    let mut o = json::with(json::empty_object(), "status", json::string("completed"));
    o = json::with(o, "total_results", json::unsigned(hits.len() as u64));
    json::with(o, "results", list)
}

/// The sizes that are told of an engine.
#[derive(Debug, Clone, Copy)]
pub struct Sizes {
    /// Rows in the store of the index of hypothetical questions; -1 where they
    /// could not be counted.
    pub hype_store: i64,
    pub query_cache: u64,
    /// How often the semantic signal had to be dropped.
    pub semantic_drops: u64,
}

/// A whole number.
pub open spec fn whole(n: i64) -> JsonView {
    JsonView::Number(
        if n < 0 {
            NumberView::Negative(n)
        } else {
            NumberView::Unsigned(n as u64)
        },
    )
}

/// A whole number.
pub fn whole_number(n: i64) -> (r: Json)
    ensures
        r@ == whole(n),
{
    if n < 0 {
        Json::Number(Number::Negative(n))
    } else {
        Json::Number(Number::Unsigned(n as u64))
    }
}

/// The counts of the first `n` tables; one that could not be counted has 0.
pub open spec fn table_counts(tables: Seq<Seq<char>>, counts: Seq<i64>, n: int) -> JsonView
    decreases n,
{
    if n <= 0 {
        JsonView::empty()
    } else {
        table_counts(tables, counts, n - 1).with(
            tables[n - 1],
            whole(
                if n - 1 < counts.len() {
                    counts[n - 1]
                } else {
                    0
                },
            ),
        )
    }
}

/// What is told of the database and the indexes.
pub open spec fn stats_value(counts: Seq<i64>, vectors: u64, hype_live: u64, s: Sizes) -> JsonView {
    table_counts(health::core_tables(), counts, health::core_tables().len() as int).with(
        "vector_index_size"@,
        JsonView::Number(NumberView::Unsigned(vectors)),
    ).with("hype_vector_index_size"@, whole(s.hype_store)).with(
        "hype_vector_index_live"@,
        JsonView::Number(NumberView::Unsigned(hype_live)),
    ).with("query_cache_size"@, JsonView::Number(NumberView::Unsigned(s.query_cache))).with(
        "semantic_signal_drops_global"@,
        JsonView::Number(NumberView::Unsigned(s.semantic_drops)),
    )
}

/// The counts of the tables that have to be there.
pub fn count_tables(counts: &Vec<i64>) -> (r: Json)
    ensures
        r@ == table_counts(health::core_tables(), counts@, health::core_tables().len() as int),
        r@ is Object,
{
    let tables = health::required_tables();
    let mut o = json::empty_object();
    let mut i: usize = 0;
    while i < tables.len()
        invariant
            i <= tables@.len(),
            text::texts(tables@) == health::core_tables(),
            o@ == table_counts(health::core_tables(), counts@, i as int),
            o@ is Object,
        decreases tables@.len() - i,
    {
        let n: i64 = if i < counts.len() {
            counts[i]
        } else {
            0
        };
        assert(tables@[i as int]@ == text::texts(tables@)[i as int]);
        o = json::with(o, tables[i].as_str(), whole_number(n));
        i += 1;
    }
    assert(tables@.len() == text::texts(tables@).len());
    o
}

/// A count of rows, and when it was taken. -1 stands for one that failed.
#[derive(Debug, Clone, Copy)]
pub struct Counted {
    pub at: u64,
    pub rows: i64,
}

/// How long a count is good, in milliseconds.
pub const COUNT_TTL_MS: u64 = 30000;

/// How long no further failure of the same database is reported, in milliseconds.
pub const WARN_PAUSE_MS: u64 = 60000;

/// The counts that are good, and the failures that were reported, for each
/// database. Times are milliseconds of a clock that never goes back.
#[derive(Debug)]
pub struct HypeCounts {
    pub counts: Table<Counted>,
    pub failures: Table<u64>,
}

/// How long ago `at` was; nothing where it lies ahead.
pub open spec fn age(now: u64, at: u64) -> int {
    if now >= at {
        now - at
    } else {
        0
    }
}

fn age_of(now: u64, at: u64) -> (r: u64)
    ensures
        r == age(now, at),
{
    if now >= at {
        now - at
    } else {
        0
    }
}

/// The counts that are still good.
pub open spec fn good_counts(m: Map<Seq<char>, Counted>, now: u64) -> Map<Seq<char>, Counted> {
    Map::new(
        |k: Seq<char>| m.contains_key(k) && age(now, m[k].at) < COUNT_TTL_MS,
        |k: Seq<char>| m[k],
    )
}

/// The failures that still keep others from being reported.
pub open spec fn recent_failures(m: Map<Seq<char>, u64>, now: u64) -> Map<Seq<char>, u64> {
    Map::new(
        |k: Seq<char>| m.contains_key(k) && age(now, m[k]) < WARN_PAUSE_MS,
        |k: Seq<char>| m[k],
    )
}

/// A database in memory, whose path does not tell it from others.
pub open spec fn in_memory(db_path: Seq<char>) -> bool {
    text::begins(db_path, ":memory:"@) || (text::begins(db_path, "file:"@) && text::occurs(
        db_path,
        "mode=memory"@,
    ))
}

/// Tells whether a database is one in memory.
pub fn is_in_memory(db_path: &str) -> (r: bool)
    ensures
        r == in_memory(db_path@),
{
    text::starts_with(db_path, ":memory:") || (text::starts_with(db_path, "file:") && text::contains(
        db_path,
        "mode=memory",
    ))
}

/// The failures after one more: the database is reported unless it was a short
/// while ago.
pub open spec fn report_due(failures: Map<Seq<char>, u64>, db: Seq<char>, now: u64) -> bool {
    !failures.contains_key(db) || age(now, failures[db]) >= WARN_PAUSE_MS
}

pub open spec fn after_failure(
    failures: Map<Seq<char>, u64>,
    db: Seq<char>,
    now: u64,
) -> Map<Seq<char>, u64> {
    if report_due(failures, db, now) {
        failures.insert(db, now)
    } else {
        failures
    }
}

/// The counts after a count failed: a good one that succeeded stays.
pub open spec fn after_failed_count(
    counts: Map<Seq<char>, Counted>,
    db: Seq<char>,
    now: u64,
) -> Map<Seq<char>, Counted> {
    if counts.contains_key(db) && counts[db].rows != -1 && age(now, counts[db].at) < COUNT_TTL_MS {
        counts
    } else {
        counts.insert(db, Counted { at: now, rows: -1i64 })
    }
}

fn prune_counts(t: &mut Table<Counted>, now: u64)
    requires
        old(t).wf(),
    ensures
        final(t).wf(),
        final(t)@ == good_counts(old(t)@, now),
{
    let ghost all = t.entries@;
    let ghost before = t@;
    let mut keep: Vec<bool> = Vec::new();
    let mut i: usize = 0;
    while i < t.entries.len()
        invariant
            i <= all.len(),
            all == t.entries@,
            keep@.len() == i,
            forall|k: int|
                0 <= k < i ==> #[trigger] keep@[k] == (age(now, all[k].1.at) < COUNT_TTL_MS),
        decreases all.len() - i,
    {
        keep.push(age_of(now, t.entries[i].1.at) < COUNT_TTL_MS);
        i += 1;
    }
    t.select(&keep);
    proof {
        assert forall|k: Seq<char>|
            t@.contains_key(k) == good_counts(before, now).contains_key(k) by {
            if t@.contains_key(k) {
                let j = choose|j: int| #[trigger] table::stands(all, k, j) && keep@[j];
                table::lemma_held(all, j);
            }
            if good_counts(before, now).contains_key(k) {
                let j = choose|j: int| #[trigger] table::stands(all, k, j);
                table::lemma_held(all, j);
                assert(table::stands(all, k, j) && keep@[j]);
            }
        }
        assert(t@ =~= good_counts(before, now));
    }
}

fn prune_failures(t: &mut Table<u64>, now: u64)
    requires
        old(t).wf(),
    ensures
        final(t).wf(),
        final(t)@ == recent_failures(old(t)@, now),
{
    let ghost all = t.entries@;
    let ghost before = t@;
    let mut keep: Vec<bool> = Vec::new();
    let mut i: usize = 0;
    while i < t.entries.len()
        invariant
            i <= all.len(),
            all == t.entries@,
            keep@.len() == i,
            forall|k: int|
                0 <= k < i ==> #[trigger] keep@[k] == (age(now, all[k].1) < WARN_PAUSE_MS),
        decreases all.len() - i,
    {
        keep.push(age_of(now, t.entries[i].1) < WARN_PAUSE_MS);
        i += 1;
    }
    t.select(&keep);
    proof {
        assert forall|k: Seq<char>|
            t@.contains_key(k) == recent_failures(before, now).contains_key(k) by {
            if t@.contains_key(k) {
                let j = choose|j: int| #[trigger] table::stands(all, k, j) && keep@[j];
                table::lemma_held(all, j);
            }
            if recent_failures(before, now).contains_key(k) {
                let j = choose|j: int| #[trigger] table::stands(all, k, j);
                table::lemma_held(all, j);
                assert(table::stands(all, k, j) && keep@[j]);
            }
        }
        assert(t@ =~= recent_failures(before, now));
    }
}

impl HypeCounts {
    pub open spec fn wf(&self) -> bool {
        self.counts.wf() && self.failures.wf()
    }

    /// Nothing has been counted.
    pub fn new() -> (r: Self)
        ensures
            r.wf(),
            r.counts@ == Map::<Seq<char>, Counted>::empty(),
            r.failures@ == Map::<Seq<char>, u64>::empty(),
    {
        HypeCounts { counts: Table::new(), failures: Table::new() }
    }

    /// Asks for the number of rows. What has grown old is forgotten; where a good
    /// count is left, it is the answer, else the rows have to be counted. Those of
    /// a database in memory are counted each time.
    pub fn ask(&mut self, db_path: &str, now: u64) -> (r: Option<i64>)
        requires
            old(self).wf(),
        ensures
            final(self).wf(),
            final(self).failures@ == recent_failures(old(self).failures@, now),
            in_memory(db_path@) ==> final(self).counts@ == old(self).counts@ && r is None,
            !in_memory(db_path@) ==> final(self).counts@ == good_counts(old(self).counts@, now)
                && r == (if good_counts(old(self).counts@, now).contains_key(db_path@) {
                Some(old(self).counts@[db_path@].rows)
            } else {
                None
            }),
    {
        prune_failures(&mut self.failures, now);
        if is_in_memory(db_path) {
            return None;
        }
        prune_counts(&mut self.counts, now);
        match self.counts.get(db_path) {
            Some(c) => Some(c.rows),
            None => None,
        }
    }

    /// Takes in what counting the rows came to: the answer, and whether a failure
    /// is to be reported. A failure counts as -1 and is kept like a count, but
    /// never in place of a good count that succeeded.
    pub fn counted(&mut self, db_path: &str, now: u64, rows: Option<i64>) -> (r: (i64, bool))
        requires
            old(self).wf(),
        ensures
            final(self).wf(),
            match rows {
                Some(n) => {
                    &&& r == (n, false)
                    &&& final(self).failures@ == old(self).failures@
                    &&& final(self).counts@ == (if in_memory(db_path@) {
                        old(self).counts@
                    } else {
                        old(self).counts@.insert(db_path@, Counted { at: now, rows: n })
                    })
                },
                None => if in_memory(db_path@) {
                    &&& r == (-1i64, report_due(old(self).failures@, db_path@, now))
                    &&& final(self).failures@ == after_failure(
                        old(self).failures@,
                        db_path@,
                        now,
                    )
                    &&& final(self).counts@ == old(self).counts@
                } else {
                    &&& r == (
                        -1i64,
                        report_due(recent_failures(old(self).failures@, now), db_path@, now),
                    )
                    &&& final(self).failures@ == after_failure(
                        recent_failures(old(self).failures@, now),
                        db_path@,
                        now,
                    )
                    &&& final(self).counts@ == after_failed_count(
                        old(self).counts@,
                        db_path@,
                        now,
                    )
                },
            },
    {
        let memory = is_in_memory(db_path);
        match rows {
            Some(n) => {
                if !memory {
                    self.counts.put(db_path, Counted { at: now, rows: n });
                }
                (n, false)
            },
            None => {
                if !memory {
                    let keep = match self.counts.get(db_path) {
                        Some(c) => c.rows != -1 && age_of(now, c.at) < COUNT_TTL_MS,
                        None => false,
                    };
                    if !keep {
                        self.counts.put(db_path, Counted { at: now, rows: -1 });
                    }
                    prune_failures(&mut self.failures, now);
                }
                let due = match self.failures.get(db_path) {
                    Some(at) => age_of(now, at) >= WARN_PAUSE_MS,
                    None => true,
                };
                if due {
                    self.failures.put(db_path, now);
                }
                (-1, due)
            },
        }
    }
}

/// A failure never hides a good count: what succeeded stays for as long as it is
/// good.
pub proof fn law_failure_keeps_good_count(
    counts: Map<Seq<char>, Counted>,
    db: Seq<char>,
    other: Seq<char>,
    now: u64,
)
    requires
        good_counts(counts, now).contains_key(other),
        counts[other].rows != -1,
    ensures
        good_counts(after_failed_count(counts, db, now), now).contains_key(other),
        after_failed_count(counts, db, now)[other] == counts[other],
{
}

/// A failure of one database keeps only its own further failures from being
/// reported, and those for no longer than the pause.
pub proof fn law_reports_are_paused(
    failures: Map<Seq<char>, u64>,
    db: Seq<char>,
    other: Seq<char>,
    now: u64,
    later: u64,
)
    requires
        now <= later,
        report_due(failures, db, now),
    ensures
        report_due(after_failure(failures, db, now), db, later) == (later - now >= WARN_PAUSE_MS),
        other != db ==> report_due(after_failure(failures, db, now), other, later) == report_due(
            failures,
            other,
            later,
        ),
{
}

/// A hit is shown with its own id, score, origin and marks, each under its name.
pub proof fn law_shown_hits_hold_their_own(h: ShownHit)
    ensures
        hit_value(h).member("memory_id"@) == Some(JsonView::Text(h.memory_id@)),
        hit_value(h).member("content"@) == Some(JsonView::Text(text::shortened(h.content@, 200))),
        hit_value(h).member("rrf_score"@) == Some(JsonView::Number(NumberView::Real(h.rrf_score@))),
        hit_value(h).member("source"@) == Some(JsonView::Text(h.source@)),
        hit_value(h).member("evolved_at"@) == Some(match h.evolved_at {
            Some(e) => JsonView::Text(e@),
            None => JsonView::Null,
        }),
        hit_value(h).member("pending_evolution"@) == Some(JsonView::Bool(h.pending_evolution)),
{
    json::lemma_chains();
    reveal_strlit("memory_id");
    reveal_strlit("content");
    reveal_strlit("rrf_score");
    reveal_strlit("source");
    reveal_strlit("evolved_at");
    reveal_strlit("pending_evolution");
    assert("memory_id"@.len() == 9 && "content"@.len() == 7 && "rrf_score"@.len() == 9 && "source"@.len() == 6 && "evolved_at"@.len() == 10 && "pending_evolution"@.len() == 17);
    assert("rrf_score"@[0] == 'r' && "memory_id"@[0] == 'm');
}

/// All hits are shown, in their order, and counted.
pub proof fn law_all_hits_are_shown(hits: Seq<ShownHit>, i: int)
    requires
        0 <= i < hits.len(),
    ensures
        search_reply(hits).member("status"@) == Some(JsonView::Text("completed"@)),
        search_reply(hits).member("total_results"@) == Some(
            JsonView::Number(NumberView::Unsigned(hits.len() as u64)),
        ),
        search_reply(hits).member("results"@) matches Some(JsonView::Array(a)) && a.len() == hits.len()
            && a[i] == hit_value(hits[i]),
{
    json::lemma_chains();
    reveal_strlit("status");
    reveal_strlit("total_results");
    reveal_strlit("results");
    assert("status"@.len() == 6 && "total_results"@.len() == 13 && "results"@.len() == 7);
}

proof fn lemma_table_counts(tables: Seq<Seq<char>>, counts: Seq<i64>, n: int, key: Seq<char>, k: int)
    requires
        0 <= n <= tables.len(),
        tables.no_duplicates(),
        0 <= k < tables.len() ==> tables[k] == key,
        !(0 <= k < tables.len()) ==> !tables.contains(key),
    ensures
        table_counts(tables, counts, n) is Object,
        table_counts(tables, counts, n).member(key) == if 0 <= k < n {
            Some(
                whole(
                    if k < counts.len() {
                        counts[k]
                    } else {
                        0
                    },
                ),
            )
        } else {
            None
        },
    decreases n,
{
    json::lemma_chains();
    if n > 0 {
        lemma_table_counts(tables, counts, n - 1, key, k);
        assert(tables.contains(tables[n - 1]));
        if k != n - 1 && 0 <= k < tables.len() {
            assert(tables[k] != tables[n - 1]);
        }
    }
}

/// Each table is told of with its own count, and with 0 where it could not be counted.
pub proof fn law_tables_have_their_own_counts(tables: Seq<Seq<char>>, counts: Seq<i64>, k: int)
    requires
        tables.no_duplicates(),
        0 <= k < tables.len(),
    ensures
        k < counts.len() ==> table_counts(tables, counts, tables.len() as int).member(tables[k]) == Some(
            whole(counts[k]),
        ),
        k >= counts.len() ==> table_counts(tables, counts, tables.len() as int).member(tables[k])
            == Some(whole(0)),
{
    lemma_table_counts(tables, counts, tables.len() as int, tables[k], k);
}

/// The sizes of the indexes and of the cache are told under their own names.
pub proof fn law_sizes_are_told_by_name(counts: Seq<i64>, vectors: u64, hype_live: u64, s: Sizes)
    ensures
        ({
            let v = stats_value(counts, vectors, hype_live, s);
            &&& v.member("vector_index_size"@) == Some(JsonView::Number(NumberView::Unsigned(vectors)))
            &&& v.member("hype_vector_index_size"@) == Some(whole(s.hype_store))
            &&& v.member("hype_vector_index_live"@) == Some(
                JsonView::Number(NumberView::Unsigned(hype_live)),
            )
            &&& v.member("query_cache_size"@) == Some(
                JsonView::Number(NumberView::Unsigned(s.query_cache)),
            )
            &&& v.member("semantic_signal_drops_global"@) == Some(
                JsonView::Number(NumberView::Unsigned(s.semantic_drops)),
            )
        }),
        forall|k: int|
            0 <= k < 8 && k < counts.len() ==> stats_value(counts, vectors, hype_live, s).member(
                #[trigger] health::core_tables()[k],
            ) == Some(whole(counts[k])),
{
    json::lemma_chains();
    reveal_strlit("vector_index_size");
    reveal_strlit("hype_vector_index_size");
    reveal_strlit("hype_vector_index_live");
    reveal_strlit("query_cache_size");
    reveal_strlit("semantic_signal_drops_global");
    reveal_strlit("memories");
    reveal_strlit("messages");
    reveal_strlit("sessions");
    reveal_strlit("decisions");
    reveal_strlit("user_prefs");
    reveal_strlit("memory_relations");
    reveal_strlit("decay_log");
    reveal_strlit("dream_state");
    assert("vector_index_size"@.len() == 17 && "hype_vector_index_size"@.len() == 22 && "hype_vector_index_live"@.len() == 22 && "query_cache_size"@.len() == 16 && "semantic_signal_drops_global"@.len() == 28 && "memories"@.len() == 8 && "messages"@.len() == 8 && "sessions"@.len() == 8 && "decisions"@.len() == 9 && "user_prefs"@.len() == 10 && "memory_relations"@.len() == 16 && "decay_log"@.len() == 9 && "dream_state"@.len() == 11);
    assert("hype_vector_index_live"@[18] == 'l' && "hype_vector_index_size"@[18] == 's' && "messages"@[2] == 's' && "memories"@[2] == 'm' && "sessions"@[0] == 's' && "memories"@[0] == 'm' && "messages"@[0] == 'm' && "memory_relations"@[0] == 'm' && "query_cache_size"@[0] == 'q' && "decay_log"@[3] == 'a' && "decisions"@[3] == 'i');
    let t = health::core_tables();
    assert(t.len() == 8);
    assert(t[0] == "memories"@ && t[1] == "messages"@ && t[2] == "sessions"@ && t[3]
        == "decisions"@ && t[4] == "user_prefs"@ && t[5] == "memory_relations"@ && t[6]
        == "decay_log"@ && t[7] == "dream_state"@);
    assert(t.no_duplicates());
    assert(!t.contains("vector_index_size"@) && !t.contains("hype_vector_index_size"@)
        && !t.contains("hype_vector_index_live"@) && !t.contains("query_cache_size"@)
        && !t.contains("semantic_signal_drops_global"@));
    lemma_table_counts(t, counts, 8, "vector_index_size"@, -1);
    lemma_table_counts(t, counts, 8, "hype_vector_index_size"@, -1);
    lemma_table_counts(t, counts, 8, "hype_vector_index_live"@, -1);
    lemma_table_counts(t, counts, 8, "query_cache_size"@, -1);
    lemma_table_counts(t, counts, 8, "semantic_signal_drops_global"@, -1);
    assert forall|k: int| 0 <= k < 8 && k < counts.len() implies stats_value(
        counts,
        vectors,
        hype_live,
        s,
    ).member(#[trigger] t[k]) == Some(whole(counts[k])) by {
        lemma_table_counts(t, counts, 8, t[k], k);
        assert(t.contains(t[k]));
    }
}

/// A setting within its bounds counts as it is written; any other, and none, stands for the
/// usual value.
pub proof fn law_settings_stay_in_their_bounds(n: nat, lo: nat, hi: nat, default: nat, v: Option<Seq<char>>)
    requires
        n <= u32::MAX,
        lo <= default <= hi,
    ensures
        lo <= n <= hi ==> bounded(Some(text::dec(n)), lo, hi, default) == n,
        !(lo <= n <= hi) ==> bounded(Some(text::dec(n)), lo, hi, default) == default,
        bounded(None, lo, hi, default) == default,
        lo <= bounded(v, lo, hi, default) <= hi,
{
    text::law_decimal_is_read_back(n, u32::MAX as nat);
}

/// The vector index of a database lies beside it.
pub proof fn law_indexes_lie_beside_the_database(dir: Seq<char>, name: Seq<char>)
    requires
        dir.len() > 0,
        name.len() > 0,
        !name.contains('/'),
        name.last() != '.',
        paths::bare(dir) == dir,
        dir.last() != '/',
    ensures
        index_path_of(dir + "/"@ + name) == dir + "/vector_index/hnsw_vectors"@,
{
    paths::law_files_lie_in_their_directory(dir, name);
    reveal_strlit("/");
    reveal_strlit("vector_index");
    reveal_strlit("hnsw_vectors");
    reveal_strlit("/vector_index/hnsw_vectors");
    let a = dir + "/"@ + "vector_index"@;
    assert(a.last() == 'x');
    assert("/vector_index/hnsw_vectors"@ =~= "/"@ + "vector_index"@ + "/"@ + "hnsw_vectors"@);
    assert(a + "/"@ + "hnsw_vectors"@ =~= dir + "/vector_index/hnsw_vectors"@);
}

/// An index is put to use where it was built without any row missing, and only there.
pub proof fn law_only_whole_indexes_are_used(b: Built, head: Seq<char>, tail: Seq<char>, e: Seq<char>)
    ensures
        b.read_errors == 0 && b.skipped == 0 ==> handed_out(Ok(b)) == Some((b.index, b.count))
            && unusable(Ok(b), head, tail) is None,
        b.read_errors > 0 || b.skipped > 0 ==> handed_out(Ok(b)) is None && unusable(
            Ok(b),
            head,
            tail,
        ) == Some(
            head + text::dec(b.read_errors as nat) + " read error(s), "@ + text::dec(b.skipped as nat)
                + " skipped row(s)"@ + tail,
        ),
        handed_out(Err(e)) is None,
        unusable(Err(e), head, tail) == Some(e),
{
}

/// A build draws a token of its own, and what it built waits under that token; the index in
/// use stays until it is exchanged.
pub proof fn law_builds_wait_for_their_token(s: EngineView, index: Index, count: usize)
    requires
        s.running is None,
    ensures
        begun(s).last_token != s.last_token,
        begun(s).running == Some(begun(s).last_token),
        begun(s).hype == s.hype && begun(s).hnsw == s.hnsw,
        ended(begun(s), Some((index, count))).pending matches Some(p) && p.index == index && p.count
            == count && p.token == begun(s).last_token,
        ended(begun(s), Some((index, count))).running is None,
        ended(begun(s), Some((index, count))).hype == s.hype,
        swapped(ended(begun(s), Some((index, count))), begun(s).last_token).hnsw == s.hnsw,
        s.pending is None ==> refreshed(s, Some(index)).hype == index && refreshed(s, Some(index)).hnsw
            == s.hnsw,
{
}

/// A count is good for thirty seconds, and a failure keeps others from being reported for a
/// minute.
pub proof fn law_counts_are_good_for_a_while(
    counts: Map<Seq<char>, Counted>,
    failures: Map<Seq<char>, u64>,
    db: Seq<char>,
    at: u64,
    rows: i64,
    now: u64,
)
    requires
        at <= now,
    ensures
        good_counts(counts.insert(db, Counted { at, rows }), now).contains_key(db) <==> now - at < 30000,
        now - at < 30000 ==> good_counts(counts.insert(db, Counted { at, rows }), now)[db].rows == rows,
        recent_failures(failures.insert(db, at), now).contains_key(db) <==> now - at < 60000,
        report_due(failures.insert(db, at), db, now) <==> now - at >= 60000,
{
}

/// A database in memory is told by its path.
pub proof fn law_databases_in_memory_are_known(tail: Seq<char>, a: Seq<char>, b: Seq<char>)
    ensures
        in_memory(":memory:"@ + tail),
        in_memory("file:"@ + a + "mode=memory"@ + b),
        tail.len() > 0 && tail[0] != ':' && tail[0] != 'f' ==> !in_memory(tail),
{
    reveal_strlit(":memory:");
    reveal_strlit("file:");
    reveal_strlit("mode=memory");
    let s = ":memory:"@ + tail;
    assert(s.subrange(0, 8) =~= ":memory:"@);
    let t = "file:"@ + a + "mode=memory"@ + b;
    assert(t.subrange(0, 5) =~= "file:"@);
    assert(t.subrange(5 + a.len() as int, 5 + a.len() as int + 11) =~= "mode=memory"@);
    assert(text::stands_at(t, "mode=memory"@, 5 + a.len() as int));
    if tail.len() > 0 && tail[0] != ':' && tail[0] != 'f' {
        if text::begins(tail, ":memory:"@) {
            assert(tail.subrange(0, 8)[0] == ':');
        }
        if text::begins(tail, "file:"@) {
            assert(tail.subrange(0, 5)[0] == 'f');
        }
    }
}

/// What is known of an engine is what its fields hold: the index for memories and the one for
/// questions are not mixed up.
pub proof fn law_engines_hold_what_they_say(x: PyEngine)
    ensures
        x@.hnsw == x.inner.hnsw,
        x@.hype == x.inner.hype_hnsw,
        x@.last_token == x.last_token,
        x@.running == x.running,
        x@.pending == x.pending,
{
}

} // verus!
