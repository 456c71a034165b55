//! The ontology layer: what is handed to an OWL reasoner, what is read from its
//! output, and which of the inferred edges are written back.
use vstd::prelude::*;
use crate::clock;
use crate::hash;
use crate::json;
use crate::json::{Json, JsonView};
use crate::text;
use crate::turtle;

verus! {

/// Seconds that a reasoner run may take where nothing else is configured.
pub const DEFAULT_TIMEOUT_SECS: u64 = 60;

/// The most seconds that a reasoner run may be given.
pub const MAX_TIMEOUT_SECS: u64 = 86400;

/// The port of the online channel where none is given.
pub const DEFAULT_PORT: u16 = 18080;

/// The OWL profiles that a run may name.
pub open spec fn valid_profile(p: Seq<char>) -> bool {
    p == "rdfs"@ || p == "owl-rl"@ || p == "owl-dl"@ || p == "owl-full"@
}

/// Tells whether `profile` names an OWL profile that a run may use.
pub fn is_valid_profile(profile: &str) -> (r: bool)
    ensures
        r == valid_profile(profile@),
{
    text::same(profile, "rdfs") || text::same(profile, "owl-rl") || text::same(profile, "owl-dl") || text::same(
        profile,
        "owl-full",
    )
}

/// The relation types of the entity graph.
pub open spec fn relation_type(t: Seq<char>) -> bool {
    ||| t == "references"@
    ||| t == "supersedes"@
    ||| t == "created_by"@
    ||| t == "conflicts_with"@
    ||| t == "depends_on"@
    ||| t == "part_of"@
    ||| t == "belongs_to"@
    ||| t == "uses"@
    ||| t == "mentions"@
    ||| t == "similar_to"@
    ||| t == "related_to"@
}

/// Tells whether `t` is a relation type of the entity graph.
pub fn is_valid_relation_type(t: &str) -> (r: bool)
    ensures
        r == relation_type(t@),
{
    text::same(t, "references") || text::same(t, "supersedes") || text::same(t, "created_by") || text::same(
        t,
        "conflicts_with",
    ) || text::same(t, "depends_on") || text::same(t, "part_of") || text::same(t, "belongs_to") || text::same(t, "uses")
        || text::same(t, "mentions") || text::same(t, "similar_to") || text::same(t, "related_to")
}

/// The relation types of the entity graph, for messages.
pub fn relation_type_list() -> (r: String)
    ensures
        r@
            == "references, supersedes, created_by, conflicts_with, depends_on, part_of, belongs_to, uses, mentions, similar_to, related_to"@,
{
    "references, supersedes, created_by, conflicts_with, depends_on, part_of, belongs_to, uses, mentions, similar_to, related_to".to_string()
}

/// What a predicate is mapped to is always a relation type of the graph.
pub proof fn law_mapped_relations_are_valid(pred: Seq<char>, namespaces: Seq<Seq<char>>)
    ensures
        match turtle::relation_of(pred, namespaces) {
            Some(t) => relation_type(t),
            None => true,
        },
{
}

/// Configuration of the ontology layer.
#[derive(Debug)]
pub struct OntologyConfig {
    pub bin: String,
    pub data_dir: String,
    pub schema_path: String,
    pub timeout_secs: u64,
}

/// The seconds that the configured value `raw` gives: at least one, at most
/// `MAX_TIMEOUT_SECS`, and the default where it is missing or no number.
pub open spec fn timeout_from(raw: Option<Seq<char>>) -> nat {
    match raw {
        None => DEFAULT_TIMEOUT_SECS as nat,
        Some(s) => match text::spelled(s, u64::MAX as nat) {
            None => DEFAULT_TIMEOUT_SECS as nat,
            Some(n) => if n == 0 {
                1
            } else if n > MAX_TIMEOUT_SECS {
                MAX_TIMEOUT_SECS as nat
            } else {
                n
            },
        },
    }
}

pub open spec fn or_default(o: Option<Seq<char>>, d: Seq<char>) -> Seq<char> {
    match o {
        Some(s) => s,
        None => d,
    }
}

impl OntologyConfig {
    /// Builds the configuration from the values of the variables
    /// `OPEN_ONTOLOGIES_DATA`, `_BIN`, `_SCHEMA` and `_TIMEOUT_SECS`.
    pub fn from_env(
        data: Option<String>,
        bin: Option<String>,
        schema: Option<String>,
        timeout: Option<String>,
    ) -> (r: OntologyConfig)
        ensures
            r.data_dir@ == or_default(text::opt_text(data), "data/ontology"@),
            r.bin@ == or_default(text::opt_text(bin), "open-ontologies"@),
            r.schema_path@ == or_default(
                text::opt_text(schema),
                text::in_dir(r.data_dir@, "schema.ttl"@),
            ),
            r.timeout_secs == timeout_from(text::opt_text(timeout)),
    {
        let data_dir = match data {
            Some(s) => s,
            None => "data/ontology".to_string(),
        };
        let bin = match bin {
            Some(s) => s,
            None => "open-ontologies".to_string(),
        };
        let schema_path = match schema {
            Some(s) => s,
            None => text::path_in(data_dir.as_str(), "schema.ttl"),
        };
        let timeout_secs: u64 = match timeout {
            None => DEFAULT_TIMEOUT_SECS,
            Some(s) => match text::parse_u64(s.as_str()) {
                None => DEFAULT_TIMEOUT_SECS,
                Some(n) => if n == 0 {
                    1
                } else if n > MAX_TIMEOUT_SECS {
                    MAX_TIMEOUT_SECS
                } else {
                    n
                },
            },
        };
        OntologyConfig { bin, data_dir, schema_path, timeout_secs }
    }
}

/// The path begins with a drive letter, a colon and a slash of either kind.
pub open spec fn has_drive(p: Seq<char>) -> bool {
    p.len() >= 3 && turtle::is_letter(p[0]) && p[1] == ':' && (p[2] == '/' || p[2] == '\\')
}

/// A path in the form that the reasoner reads: with forward slashes, where it is
/// a Windows path.
pub open spec fn reasoner_path(p: Seq<char>, windows: bool) -> Seq<char> {
    if windows || has_drive(p) {
        text::replaced(p, '\\', '/')
    } else {
        p
    }
}

/// Brings a path into the form that the reasoner reads. `windows` tells whether
/// the program runs there; elsewhere a backslash is part of a name, unless the
/// path begins with a drive.
pub fn win_path(p: &str, windows: bool) -> (r: String)
    ensures
        r@ == reasoner_path(p@, windows),
{
    let v = text::chars_of(p);
    let drive = v.len() >= 3 && (('a' <= v[0] && v[0] <= 'z') || ('A' <= v[0] && v[0] <= 'Z')) && v[1]
        == ':' && (v[2] == '/' || v[2] == '\\');
    if windows || drive {
        text::replace_char(p, '\\', '/')
    } else {
        p.to_string()
    }
}

/// As `win_path`, in double quotes.
pub fn win_path_quoted(p: &str, windows: bool) -> (r: String)
    ensures
        r@ == "\""@ + reasoner_path(p@, windows) + "\""@,
{
    text::cat3("\"", win_path(p, windows).as_str(), "\"")
}

/// A text that could break out of a quoted path in a batch script: line breaks,
/// double quotes, semicolons, and backslashes where these are no separators.
pub open spec fn unsafe_in_script(s: Seq<char>, windows: bool) -> bool {
    exists|i: int|
        0 <= i < s.len() && (#[trigger] s[i] == '\n' || s[i] == '\r' || s[i] == '"' || s[i] == ';' || (
        s[i] == '\\' && !windows))
}

fn breaks_script(s: &str, windows: bool) -> (r: bool)
    ensures
        r == unsafe_in_script(s@, windows),
{
    let v = text::chars_of(s);
    let mut i: usize = 0;
    while i < v.len()
        invariant
            i <= v@.len(),
            v@ == s@,
            forall|k: int|
                0 <= k < i ==> !(#[trigger] s@[k] == '\n' || s@[k] == '\r' || s@[k] == '"' || s@[k]
                    == ';' || (s@[k] == '\\' && !windows)),
        decreases v@.len() - i,
    {
        let c = v[i];
        if c == '\n' || c == '\r' || c == '"' || c == ';' || (c == '\\' && !windows) {
            assert(s@[i as int] == c);
            return true;
        }
        i += 1;
    }
    false
}

/// Why a run is refused before it leaves any trace; none where it may start.
pub open spec fn refusal(
    data_dir: Seq<char>,
    schema_path: Seq<char>,
    source_ttl: Seq<char>,
    profile: Seq<char>,
    windows: bool,
) -> Option<Seq<char>> {
    if unsafe_in_script(data_dir, windows) {
        Some(
            "invalid data_dir: control chars / quote / semicolon (and backslash on Unix) not allowed"@,
        )
    } else if !valid_profile(profile) {
        Some(
            "invalid profile: "@ + text::debug_form(profile)
                + " (allowed: rdfs, owl-rl, owl-dl, owl-full)"@,
        )
    } else if unsafe_in_script(source_ttl, windows) {
        Some(
            "invalid source_ttl: control chars / quote / semicolon (and backslash on Unix) not allowed"@,
        )
    } else if unsafe_in_script(schema_path, windows) {
        Some(
            "invalid schema_path: control chars / quote / semicolon (and backslash on Unix) not allowed"@,
        )
    } else {
        None
    }
}

/// Checks what a run is given, before anything is read or written.
pub fn check_inputs(cfg: &OntologyConfig, source_ttl: &str, profile: &str, windows: bool) -> (r:
    Result<(), String>)
    ensures
        match r {
            Ok(()) => refusal(
                cfg.data_dir@,
                cfg.schema_path@,
                source_ttl@,
                profile@,
                windows,
            ) is None,
            Err(e) => refusal(cfg.data_dir@, cfg.schema_path@, source_ttl@, profile@, windows)
                == Some(e@),
        },
{
    if breaks_script(cfg.data_dir.as_str(), windows) {
        return Err(
            "invalid data_dir: control chars / quote / semicolon (and backslash on Unix) not allowed".to_string(),
        );
    }
    if !is_valid_profile(profile) {
        return Err(
            text::cat3(
                "invalid profile: ",
                text::debug_string(profile).as_str(),
                " (allowed: rdfs, owl-rl, owl-dl, owl-full)",
            ),
        );
    }
    if breaks_script(source_ttl, windows) {
        return Err(
            "invalid source_ttl: control chars / quote / semicolon (and backslash on Unix) not allowed".to_string(),
        );
    }
    if breaks_script(cfg.schema_path.as_str(), windows) {
        return Err(
            "invalid schema_path: control chars / quote / semicolon (and backslash on Unix) not allowed".to_string(),
        );
    }
    Ok(())
}

/// The line that loads the file at `path`.
pub open spec fn load_line(path: Seq<char>, windows: bool) -> Seq<char> {
    "load \""@ + reasoner_path(path, windows) + "\"\n"@
}

/// The script of a run: load the schema, if there is one, and the data; reason;
/// save.
pub open spec fn script_text(
    schema: Option<Seq<char>>,
    source: Seq<char>,
    profile: Seq<char>,
    out: Seq<char>,
    windows: bool,
) -> Seq<char> {
    (match schema {
        Some(p) => load_line(p, windows),
        None => ""@,
    }) + load_line(source, windows) + "reason --profile "@ + profile + "\nsave \""@ + reasoner_path(
        out,
        windows,
    ) + "\"\n"@
}

/// Writes the batch script of a run.
pub fn batch_script(
    schema: Option<&str>,
    source: &str,
    profile: &str,
    out: &str,
    windows: bool,
) -> (r: String)
    ensures
        r@ == script_text(text::opt_str(schema), source@, profile@, out@, windows),
{
    let mut s = match schema {
        Some(p) => text::cat3("load \"", win_path(p, windows).as_str(), "\"\n"),
        None => "".to_string(),
    };
    s.append(text::cat3("load \"", win_path(source, windows).as_str(), "\"\n").as_str());
    s.append("reason --profile ");
    s.append(profile);
    s.append("\nsave \"");
    s.append(win_path(out, windows).as_str());
    s.append("\"\n");
    s
}

/// The counts that a run reports.
#[derive(Debug)]
pub struct BatchCounts {
    pub triples_before: u64,
    pub triples_after: u64,
    pub profile: String,
    /// A line with the result of a load, or of the reasoning, has been seen.
    pub saw_load: bool,
    pub saw_reason: bool,
    /// Such a line lacked its count.
    pub load_missing_field: bool,
    pub reason_missing_field: bool,
    /// Lines that are no JSON.
    pub unparsed_lines: usize,
}

/// What the counts are, with the profile as a text.
pub struct CountsView {
    pub triples_before: u64,
    pub triples_after: u64,
    pub profile: Seq<char>,
    pub saw_load: bool,
    pub saw_reason: bool,
    pub load_missing_field: bool,
    pub reason_missing_field: bool,
    pub unparsed_lines: nat,
}

impl BatchCounts {
    pub open spec fn view(&self) -> CountsView {
        CountsView {
            triples_before: self.triples_before,
            triples_after: self.triples_after,
            profile: self.profile@,
            saw_load: self.saw_load,
            saw_reason: self.saw_reason,
            load_missing_field: self.load_missing_field,
            reason_missing_field: self.reason_missing_field,
            unparsed_lines: self.unparsed_lines as nat,
        }
    }
}

/// The counts before any line.
pub open spec fn no_counts(profile: Seq<char>) -> CountsView {
    CountsView {
        triples_before: 0,
        triples_after: 0,
        profile,
        saw_load: false,
        saw_reason: false,
        load_missing_field: false,
        reason_missing_field: false,
        unparsed_lines: 0,
    }
}

/// The counts after a line: `v` is the JSON value of the line, if it is one.
pub open spec fn count_line(c: CountsView, v: Option<JsonView>) -> CountsView {
    match v {
        None => CountsView { unparsed_lines: c.unparsed_lines + 1, ..c },
        Some(v) => match (v.text_at("command"@), v.member("result"@)) {
            (Some(cmd), Some(res)) => if cmd == "load"@ {
                match unsigned_at(res, "triples_loaded"@) {
                    Some(n) => CountsView {
                        saw_load: true,
                        triples_before: c.triples_before.wrapping_add(n),
                        ..c
                    },
                    None => CountsView { saw_load: true, load_missing_field: true, ..c },
                }
            } else if cmd == "reason"@ {
                let c1 = match unsigned_at(res, "final_triples"@) {
                    Some(n) => CountsView { saw_reason: true, triples_after: n, ..c },
                    None => CountsView { saw_reason: true, reason_missing_field: true, ..c },
                };
                match res.text_at("profile_used"@) {
                    Some(p) => CountsView { profile: p, ..c1 },
                    None => c1,
                }
            } else {
                c
            },
            _ => c,
        },
    }
}

/// The whole number under `key`.
pub open spec fn unsigned_at(j: JsonView, key: Seq<char>) -> Option<u64> {
    match j.member(key) {
        Some(v) => v.unsigned(),
        None => None,
    }
}

/// The counts after the lines of an output.
pub open spec fn count_lines(lines: Seq<Seq<char>>, profile: Seq<char>) -> CountsView
    decreases lines.len(),
{
    if lines.len() == 0 {
        no_counts(profile)
    } else {
        count_line(count_lines(lines.drop_last(), profile), json::parsed(lines.last()))
    }
}

impl BatchCounts {
    /// Takes a line of the output into account, as the JSON value that it is.
    pub fn take_line(&mut self, v: Option<&Json>)
        requires
            old(self).unparsed_lines < usize::MAX,
        ensures
            final(self)@ == count_line(old(self)@, json::opt_view(v)),
    {
        match v {
            None => {
                self.unparsed_lines = self.unparsed_lines + 1;
            },
            Some(v) => {
                let cmd = v.str_at("command");
                let res = v.get("result");
                if let (Some(cmd), Some(res)) = (cmd, res) {
                    if text::same(cmd, "load") {
                        self.saw_load = true;
                        match number_at(res, "triples_loaded") {
                            Some(n) => {
                                self.triples_before = self.triples_before.wrapping_add(n);
                            },
                            None => {
                                self.load_missing_field = true;
                            },
                        }
                    } else if text::same(cmd, "reason") {
                        self.saw_reason = true;
                        match number_at(res, "final_triples") {
                            Some(n) => {
                                self.triples_after = n;
                            },
                            None => {
                                self.reason_missing_field = true;
                            },
                        }
                        if let Some(p) = res.str_at("profile_used") {
                            self.profile = p.to_string();
                        }
                    }
                }
            },
        }
    }
}

fn number_at(j: &Json, key: &str) -> (r: Option<u64>)
    ensures
        r == unsigned_at(j@, key@),
{
    match j.get(key) {
        Some(v) => v.as_u64(),
        None => None,
    }
}

/// Reads the counts of a run from what the reasoner wrote, a JSON value a line.
/// A load adds to the triples before; the last reasoning gives those after.
pub fn read_counts(stdout: &str, profile: &str) -> (r: BatchCounts)
    ensures
        r@ == count_lines(text::lines_of(stdout@), profile@),
{
    let rows = text::lines(stdout);
    let ghost all = text::lines_of(stdout@);
    let mut c = BatchCounts {
        triples_before: 0,
        triples_after: 0,
        profile: profile.to_string(),
        saw_load: false,
        saw_reason: false,
        load_missing_field: false,
        reason_missing_field: false,
        unparsed_lines: 0,
    };
    let mut i: usize = 0;
    assert(all.take(0) =~= Seq::<Seq<char>>::empty());
    while i < rows.len()
        invariant
            i <= rows@.len(),
            all == text::texts(rows@),
            c@ == count_lines(all.take(i as int), profile@),
            c.unparsed_lines <= i,
        decreases rows@.len() - i,
    {
        proof {
            assert(all.take(i + 1).drop_last() =~= all.take(i as int));
            assert(all.take(i + 1).last() == rows@[i as int]@);
        }
        match json::parse_json(rows[i].as_str()) {
            Some(v) => {
                c.take_line(Some(&v));
            },
            None => {
                c.take_line(None);
            },
        }
        i += 1;
    }
    assert(all.take(all.len() as int) =~= all);
    c
}

/// `iri` without the `#` and `/` at its end; one character stays in any case.
pub open spec fn normal_iri(iri: Seq<char>) -> Seq<char>
    decreases iri.len(),
{
    if iri.len() > 1 && (iri.last() == '#' || iri.last() == '/') {
        normal_iri(iri.drop_last())
    } else {
        iri
    }
}

/// Brings an IRI into the form in which IRIs are compared.
pub fn normalize_iri(iri: &str) -> (r: String)
    ensures
        r@ == normal_iri(iri@),
{
    let v = text::chars_of(iri);
    let mut n: usize = v.len();
    assert(v@.take(n as int) =~= v@);
    while n > 1 && (v[n - 1] == '#' || v[n - 1] == '/')
        invariant
            n <= v@.len(),
            v@ == iri@,
            normal_iri(iri@) == normal_iri(v@.take(n as int)),
        decreases n,
    {
        assert(v@.take(n as int).drop_last() =~= v@.take(n - 1));
        n -= 1;
    }
    let t = text::string_between(&v, 0, n);
    assert(t@ =~= v@.take(n as int));
    t
}

/// Comparing form is a fixed point: it is not changed any further.
pub proof fn law_normal_iri_is_stable(iri: Seq<char>)
    ensures
        normal_iri(normal_iri(iri)) == normal_iri(iri),
    decreases iri.len(),
{
    if iri.len() > 1 && (iri.last() == '#' || iri.last() == '/') {
        law_normal_iri_is_stable(iri.drop_last());
    }
}

/// Two IRIs that differ only in a `#` or `/` at the end compare as equal.
pub proof fn law_trailing_marks_do_not_count(iri: Seq<char>, mark: char)
    requires
        iri.len() > 0,
        mark == '#' || mark == '/',
    ensures
        normal_iri(iri.push(mark)) == normal_iri(iri),
{
    assert(iri.push(mark).drop_last() =~= iri);
}

/// An edge in the form in which edges are compared.
pub open spec fn normal_edge(e: (Seq<char>, Seq<char>, Seq<char>)) -> (
    Seq<char>,
    Seq<char>,
    Seq<char>,
) {
    (normal_iri(e.0), normal_iri(e.1), normal_iri(e.2))
}

pub open spec fn normal_edges(v: Seq<(Seq<char>, Seq<char>, Seq<char>)>) -> Seq<
    (Seq<char>, Seq<char>, Seq<char>),
> {
    Seq::new(v.len(), |i: int| normal_edge(v[i]))
}

/// Brings an edge into the form in which edges are compared.
pub fn normalize_edge(e: &(String, String, String)) -> (r: (String, String, String))
    ensures
        turtle::edge_text(r) == normal_edge(turtle::edge_text(*e)),
{
    (normalize_iri(e.0.as_str()), normalize_iri(e.1.as_str()), normalize_iri(e.2.as_str()))
}

fn normalize_edges(v: &Vec<(String, String, String)>) -> (r: Vec<(String, String, String)>)
    ensures
        turtle::edge_texts(r@) == normal_edges(turtle::edge_texts(v@)),
{
    let mut out: Vec<(String, String, String)> = Vec::new();
    let mut i: usize = 0;
    while i < v.len()
        invariant
            i <= v@.len(),
            out@.len() == i,
            forall|k: int|
                0 <= k < i ==> turtle::edge_text(#[trigger] out@[k]) == normal_edge(
                    turtle::edge_text(v@[k]),
                ),
        decreases v@.len() - i,
    {
        out.push(normalize_edge(&v[i]));
        i += 1;
    }
    assert(turtle::edge_texts(out@) =~= normal_edges(turtle::edge_texts(v@)));
    out
}

fn same_edge(a: &(String, String, String), b: &(String, String, String)) -> (r: bool)
    ensures
        r == (turtle::edge_text(*a) == turtle::edge_text(*b)),
{
    text::same(a.0.as_str(), b.0.as_str()) && text::same(a.1.as_str(), b.1.as_str()) && text::same(
        a.2.as_str(),
        b.2.as_str(),
    )
}

fn has_edge(v: &Vec<(String, String, String)>, e: &(String, String, String)) -> (r: bool)
    ensures
        r == turtle::edge_texts(v@).contains(turtle::edge_text(*e)),
{
    let mut i: usize = 0;
    while i < v.len()
        invariant
            i <= v@.len(),
            forall|k: int| 0 <= k < i ==> turtle::edge_text(v@[k]) != turtle::edge_text(*e),
        decreases v@.len() - i,
    {
        if same_edge(&v[i], e) {
            assert(turtle::edge_texts(v@)[i as int] == turtle::edge_text(*e));
            return true;
        }
        i += 1;
    }
    false
}

/// The edges of `all` that are not in `source`, each once, in the order in which
/// they first occur.
pub open spec fn new_edges(
    all: Seq<(Seq<char>, Seq<char>, Seq<char>)>,
    source: Seq<(Seq<char>, Seq<char>, Seq<char>)>,
) -> Seq<(Seq<char>, Seq<char>, Seq<char>)>
    decreases all.len(),
{
    if all.len() == 0 {
        Seq::empty()
    } else {
        let p = new_edges(all.drop_last(), source);
        if source.contains(all.last()) || p.contains(all.last()) {
            p
        } else {
            p.push(all.last())
        }
    }
}

fn edges_not_in(
    all: &Vec<(String, String, String)>,
    source: &Vec<(String, String, String)>,
) -> (r: Vec<(String, String, String)>)
    ensures
        turtle::edge_texts(r@) == new_edges(
            turtle::edge_texts(all@),
            turtle::edge_texts(source@),
        ),
{
    let mut out: Vec<(String, String, String)> = Vec::new();
    let mut i: usize = 0;
    let ghost a = turtle::edge_texts(all@);
    let ghost s = turtle::edge_texts(source@);
    assert(a.take(0) =~= Seq::empty());
    assert(turtle::edge_texts(out@) =~= Seq::empty());
    while i < all.len()
        invariant
            i <= all@.len(),
            a == turtle::edge_texts(all@),
            s == turtle::edge_texts(source@),
            turtle::edge_texts(out@) == new_edges(a.take(i as int), s),
        decreases all@.len() - i,
    {
        proof {
            assert(a.take(i + 1).drop_last() =~= a.take(i as int));
            assert(a.take(i + 1).last() == turtle::edge_text(all@[i as int]));
        }
        if !has_edge(source, &all[i]) && !has_edge(&out, &all[i]) {
            let e = (all[i].0.clone(), all[i].1.clone(), all[i].2.clone());
            proof {
                turtle::lemma_edge_texts_push(out@, e);
            }
            out.push(e);
        }
        i += 1;
    }
    assert(a.take(a.len() as int) =~= a);
    out
}

/// The inferred edges are those of the materialized graph that the source does
/// not have, and none of them occurs twice.
pub proof fn law_inferred_is_difference(
    all: Seq<(Seq<char>, Seq<char>, Seq<char>)>,
    source: Seq<(Seq<char>, Seq<char>, Seq<char>)>,
)
    ensures
        forall|e: (Seq<char>, Seq<char>, Seq<char>)| #[trigger]
            new_edges(all, source).contains(e) <==> all.contains(e) && !source.contains(e),
        new_edges(all, source).no_duplicates(),
    decreases all.len(),
{
    if all.len() > 0 {
        let p = new_edges(all.drop_last(), source);
        let l = all.last();
        law_inferred_is_difference(all.drop_last(), source);
        assert forall|e: (Seq<char>, Seq<char>, Seq<char>)| #[trigger]
            new_edges(all, source).contains(e) <==> all.contains(e) && !source.contains(e) by {
            assert(all.drop_last().contains(e) ==> all.contains(e)) by {
                if all.drop_last().contains(e) {
                    let i = choose|i: int| 0 <= i < all.drop_last().len() && all.drop_last()[i] == e;
                    assert(all[i] == e);
                }
            }
            assert(all.contains(e) ==> all.drop_last().contains(e) || e == l) by {
                if all.contains(e) {
                    let i = choose|i: int| 0 <= i < all.len() && all[i] == e;
                    if i < all.len() - 1 {
                        assert(all.drop_last()[i] == e);
                    }
                }
            }
            assert(all[all.len() - 1] == l);
            if source.contains(l) || p.contains(l) {
                assert(p.contains(l) || source.contains(l));
            } else {
                assert(p.push(l).contains(e) <==> p.contains(e) || e == l) by {
                    if p.contains(e) {
                        let i = choose|i: int| 0 <= i < p.len() && p[i] == e;
                        assert(p.push(l)[i] == e);
                    }
                    assert(p.push(l)[p.len() as int] == l);
                }
            }
        }
    }
}

/// The outcome of a run.
#[derive(Debug)]
pub struct MaterializeResult {
    /// The edges that the reasoner added: source, relation, target.
    pub inferred_edges: Vec<(String, String, String)>,
    /// All edges of the materialized graph.
    pub all_edges: Vec<(String, String, String)>,
    pub triples_before: u64,
    pub triples_after: u64,
    pub profile: String,
    pub duration_ms: u64,
}

/// The edges of the source, and of the schema where there is one.
pub open spec fn known_edges(
    source: Seq<char>,
    schema: Option<Seq<char>>,
    namespaces: Seq<Seq<char>>,
) -> Seq<(Seq<char>, Seq<char>, Seq<char>)> {
    turtle::document_edges(source, namespaces) + match schema {
        Some(s) => turtle::document_edges(s, namespaces),
        None => Seq::empty(),
    }
}

/// Puts together the outcome of a run from the texts that went into it, the
/// materialized document, and what the reasoner wrote.
pub fn materialize(
    source: &str,
    schema: Option<&str>,
    materialized: &str,
    stdout: &str,
    profile: &str,
    duration_ms: u64,
    namespaces: &Vec<String>,
) -> (r: MaterializeResult)
    ensures
        turtle::edge_texts(r.all_edges@) == normal_edges(
            turtle::document_edges(materialized@, text::texts(namespaces@)),
        ),
        turtle::edge_texts(r.inferred_edges@) == new_edges(
            turtle::edge_texts(r.all_edges@),
            normal_edges(
                known_edges(source@, text::opt_str(schema), text::texts(namespaces@)),
            ),
        ),
        r.triples_before == count_lines(text::lines_of(stdout@), profile@).triples_before,
        r.triples_after == count_lines(text::lines_of(stdout@), profile@).triples_after,
        r.profile@ == count_lines(text::lines_of(stdout@), profile@).profile,
        r.duration_ms == duration_ms,
{
    let ghost ns = text::texts(namespaces@);
    let mut known = turtle::parse_ttl_edges(source, namespaces);
    assert(turtle::document_edges(source@, ns) + Seq::empty() =~= turtle::document_edges(
        source@,
        ns,
    ));
    if let Some(s) = schema {
        let mut more = turtle::parse_ttl_edges(s, namespaces);
        let ghost k0 = known@;
        let ghost m0 = more@;
        known.append(&mut more);
        assert(turtle::edge_texts(known@) =~= turtle::edge_texts(k0) + turtle::edge_texts(m0));
    }
    let all = normalize_edges(&turtle::parse_ttl_edges(materialized, namespaces));
    let inferred = edges_not_in(&all, &normalize_edges(&known));
    let c = read_counts(stdout, profile);
    MaterializeResult {
        inferred_edges: inferred,
        all_edges: all,
        triples_before: c.triples_before,
        triples_after: c.triples_after,
        profile: c.profile,
        duration_ms,
    }
}

/// Where the IRI's last part begins: behind its last `/` or `#`.
pub open spec fn local_start(iri: Seq<char>) -> int
    decreases iri.len(),
{
    if iri.len() == 0 || iri.last() == '/' || iri.last() == '#' {
        iri.len() as int
    } else {
        local_start(iri.drop_last())
    }
}

pub proof fn lemma_local_start(iri: Seq<char>)
    ensures
        0 <= local_start(iri) <= iri.len(),
    decreases iri.len(),
{
    if iri.len() > 0 {
        lemma_local_start(iri.drop_last());
    }
}

/// The last part of an IRI; the whole of it where that part is empty.
pub open spec fn local_name(iri: Seq<char>) -> Seq<char> {
    if local_start(iri) == iri.len() {
        iri
    } else {
        iri.skip(local_start(iri))
    }
}

/// The last part of an IRI; the whole of it where that part is empty.
pub fn iri_local_name(iri: &str) -> (r: String)
    ensures
        r@ == local_name(iri@),
{
    let v = text::chars_of(iri);
    let mut n: usize = v.len();
    assert(v@.take(n as int) =~= v@);
    while n > 0 && v[n - 1] != '/' && v[n - 1] != '#'
        invariant
            n <= v@.len(),
            v@ == iri@,
            local_start(iri@) == local_start(v@.take(n as int)),
        decreases n,
    {
        assert(v@.take(n as int).drop_last() =~= v@.take(n - 1));
        n -= 1;
    }
    if n == v.len() {
        text::string_of(&v)
    } else {
        let t = text::string_between(&v, n, v.len());
        assert(t@ =~= iri@.skip(n as int));
        t
    }
}

/// An edge to be written to the entity graph, with the names of its entities.
#[derive(Debug)]
pub struct EdgeWrite {
    pub source: String,
    pub source_name: String,
    pub target: String,
    pub target_name: String,
    pub relation: String,
}

/// What an edge to be written is, in texts.
pub struct EdgeWriteView {
    pub source: Seq<char>,
    pub source_name: Seq<char>,
    pub target: Seq<char>,
    pub target_name: Seq<char>,
    pub relation: Seq<char>,
}

impl EdgeWrite {
    pub open spec fn view(&self) -> EdgeWriteView {
        EdgeWriteView {
            source: self.source@,
            source_name: self.source_name@,
            target: self.target@,
            target_name: self.target_name@,
            relation: self.relation@,
        }
    }
}

/// A node that can stand for an entity: named, and not a blank node.
pub open spec fn entity_node(n: Seq<char>) -> bool {
    n.len() > 0 && !turtle::is_blank_node(n)
}

/// What is written for an edge. Nothing is, where its predicate is no controlled
/// relation or one of its ends is empty or a blank node.
pub open spec fn write_of(
    e: (Seq<char>, Seq<char>, Seq<char>),
    namespaces: Seq<Seq<char>>,
) -> Option<EdgeWriteView> {
    match turtle::relation_of(e.1, namespaces) {
        Some(t) if relation_type(t) && entity_node(e.0) && entity_node(e.2) => Some(
            EdgeWriteView {
                source: e.0,
                source_name: local_name(e.0),
                target: e.2,
                target_name: local_name(e.2),
                relation: t,
            },
        ),
        _ => None,
    }
}

/// What is written for a list of edges, in their order.
pub open spec fn writes_of(
    edges: Seq<(Seq<char>, Seq<char>, Seq<char>)>,
    namespaces: Seq<Seq<char>>,
) -> Seq<EdgeWriteView>
    decreases edges.len(),
{
    if edges.len() == 0 {
        Seq::empty()
    } else {
        let p = writes_of(edges.drop_last(), namespaces);
        match write_of(edges.last(), namespaces) {
            Some(w) => p.push(w),
            None => p,
        }
    }
}

pub open spec fn write_views(v: Seq<EdgeWrite>) -> Seq<EdgeWriteView> {
    Seq::new(v.len(), |i: int| v[i]@)
}

/// What is to be written back, and how many edges are left out.
#[derive(Debug)]
pub struct WriteBack {
    pub writes: Vec<EdgeWrite>,
    pub skipped: usize,
}

/// Decides for each edge whether and how it is written to the entity graph.
pub fn write_back_edges(edges: &Vec<(String, String, String)>, namespaces: &Vec<String>) -> (r:
    WriteBack)
    ensures
        write_views(r.writes@) == writes_of(
            turtle::edge_texts(edges@),
            text::texts(namespaces@),
        ),
        r.writes@.len() + r.skipped == edges@.len(),
{
    let mut writes: Vec<EdgeWrite> = Vec::new();
    let mut skipped: usize = 0;
    let mut i: usize = 0;
    let ghost all = turtle::edge_texts(edges@);
    let ghost ns = text::texts(namespaces@);
    assert(all.take(0) =~= Seq::empty());
    assert(write_views(writes@) =~= Seq::empty());
    while i < edges.len()
        invariant
            i <= edges@.len(),
            all == turtle::edge_texts(edges@),
            ns == text::texts(namespaces@),
            write_views(writes@) == writes_of(all.take(i as int), ns),
            writes@.len() + skipped == i,
        decreases edges@.len() - i,
    {
        let e = &edges[i];
        proof {
            assert(all.take(i + 1).drop_last() =~= all.take(i as int));
            assert(all.take(i + 1).last() == turtle::edge_text(*e));
        }
        match edge_write(e, namespaces) {
            Some(w) => {
                assert(write_views(writes@.push(w)) =~= write_views(writes@).push(w@));
                writes.push(w);
            },
            None => {
                skipped += 1;
            },
        }
        i += 1;
    }
    assert(all.take(all.len() as int) =~= all);
    WriteBack { writes, skipped }
}

fn is_entity_node(n: &str) -> (r: bool)
    ensures
        r == entity_node(n@),
{
    !n.is_empty() && !text::starts_with(n, "_:") && !text::starts_with(n, "[")
}

fn edge_write(e: &(String, String, String), namespaces: &Vec<String>) -> (r: Option<EdgeWrite>)
    ensures
        match r {
            Some(w) => write_of(turtle::edge_text(*e), text::texts(namespaces@)) == Some(w@),
            None => write_of(turtle::edge_text(*e), text::texts(namespaces@)) is None,
        },
{
    match turtle::map_relation_iri(e.1.as_str(), namespaces) {
        None => None,
        Some(t) => {
            if is_valid_relation_type(t.as_str()) && is_entity_node(e.0.as_str()) && is_entity_node(
                e.2.as_str(),
            ) {
                Some(
                    EdgeWrite {
                        source: e.0.clone(),
                        source_name: iri_local_name(e.0.as_str()),
                        target: e.2.clone(),
                        target_name: iri_local_name(e.2.as_str()),
                        relation: t,
                    },
                )
            } else {
                None
            }
        },
    }
}

/// No write ever has a blank node or nothing at one of its ends, nor a relation
/// that the graph does not know.
pub proof fn law_writes_are_clean(
    edges: Seq<(Seq<char>, Seq<char>, Seq<char>)>,
    namespaces: Seq<Seq<char>>,
)
    ensures
        forall|i: int|
            0 <= i < writes_of(edges, namespaces).len() ==> {
                let w = #[trigger] writes_of(edges, namespaces)[i];
                entity_node(w.source) && entity_node(w.target) && relation_type(w.relation)
            },
    decreases edges.len(),
{
    if edges.len() > 0 {
        law_writes_are_clean(edges.drop_last(), namespaces);
        let p = writes_of(edges.drop_last(), namespaces);
        let all = writes_of(edges, namespaces);
        assert forall|i: int| 0 <= i < all.len() implies {
            let w = #[trigger] all[i];
            entity_node(w.source) && entity_node(w.target) && relation_type(w.relation)
        } by {
            if i < p.len() {
                assert(all[i] == p[i]);
            }
        }
    }
}

/// The row of an entity may be written for `namespace`: there is none yet, or it
/// belongs to that namespace.
pub open spec fn may_own(existing: Option<Seq<char>>, namespace: Seq<char>) -> bool {
    match existing {
        Some(e) => e == namespace,
        None => true,
    }
}

/// Tells whether the row of an entity may be written for `namespace`.
pub fn may_own_entity(existing: Option<&str>, namespace: &str) -> (r: bool)
    ensures
        r == may_own(text::opt_str(existing), namespace@),
{
    match existing {
        Some(e) => text::same(e, namespace),
        None => true,
    }
}

/// What is told as the evidence of an edge that was written back.
pub const MATERIALIZED: &'static str = "ontology:materialized";

/// What is done about an edge in the entity graph.
#[derive(Debug, Clone, Copy, PartialEq, Eq, Structural)]
pub enum EdgeStep {
    /// There is none: it is added.
    Insert,
    /// There is one without other evidence: its evidence is set.
    Refresh,
    /// There is one with evidence of its own: it stays as it is.
    Leave,
}

/// What is done about an edge. `existing` is the evidence of the one that is there, if
/// there is one.
pub open spec fn edge_step_of(existing: Option<Option<Seq<char>>>) -> EdgeStep {
    match existing {
        None => EdgeStep::Insert,
        Some(None) => EdgeStep::Refresh,
        Some(Some(e)) => if e == MATERIALIZED@ {
            EdgeStep::Refresh
        } else {
            EdgeStep::Leave
        },
    }
}

/// Decides what is done about an edge in the entity graph. Only an edge that is added
/// or refreshed counts as written.
pub fn edge_step(existing: Option<Option<&str>>) -> (r: EdgeStep)
    ensures
        r == edge_step_of(
            match existing {
                Some(e) => Some(text::opt_str(e)),
                None => None,
            },
        ),
{
    match existing {
        None => EdgeStep::Insert,
        Some(None) => EdgeStep::Refresh,
        Some(Some(e)) => if text::same(e, MATERIALIZED) {
            EdgeStep::Refresh
        } else {
            EdgeStep::Leave
        },
    }
}

/// How a batch of writes ends.
#[derive(Debug)]
pub enum BatchEnd {
    /// All of it stays: so many edges were written, so many left out.
    Commit { written: usize, skipped: usize },
    /// None of it stays.
    RollBack(String),
}

/// Ends a batch of writes: where one of them failed, none stays.
pub fn end_batch(fault: Option<String>, written: usize, skipped: usize) -> (r: BatchEnd)
    ensures
        match fault {
            Some(e) => r == BatchEnd::RollBack(e),
            None => r == (BatchEnd::Commit { written, skipped }),
        },
{
    match fault {
        Some(e) => BatchEnd::RollBack(e),
        None => BatchEnd::Commit { written, skipped },
    }
}

/// The entity graph: its entities by their ids, with their namespaces and names, and its
/// edges by namespace, source, target and relation, with their evidence.
pub struct GraphView {
    pub entities: Map<Seq<char>, (Seq<char>, Seq<char>)>,
    pub edges: Map<(Seq<char>, Seq<char>, Seq<char>, Seq<char>), Option<Seq<char>>>,
}

/// What is there under a key, if anything is.
pub open spec fn found_in<K, V>(m: Map<K, V>, key: K) -> Option<V> {
    if m.dom().contains(key) {
        Some(m[key])
    } else {
        None
    }
}

/// The graph with an entity in it. One that is there stays as it is.
pub open spec fn with_entity(
    g: GraphView,
    namespace: Seq<char>,
    id: Seq<char>,
    name: Seq<char>,
) -> GraphView {
    if g.entities.dom().contains(id) {
        g
    } else {
        GraphView { entities: g.entities.insert(id, (namespace, name)), ..g }
    }
}

/// The key of an edge that is written.
pub open spec fn edge_key(namespace: Seq<char>, w: EdgeWriteView) -> (
    Seq<char>,
    Seq<char>,
    Seq<char>,
    Seq<char>,
) {
    (namespace, w.source, w.target, w.relation)
}

/// What is done about a write.
pub open spec fn step_for(g: GraphView, namespace: Seq<char>, w: EdgeWriteView) -> EdgeStep {
    edge_step_of(found_in(g.edges, edge_key(namespace, w)))
}

/// The graph after a write: both entities are there, and the edge, with its evidence
/// unless it has some of its own.
pub open spec fn with_write(g: GraphView, namespace: Seq<char>, w: EdgeWriteView) -> GraphView {
    let h = with_entity(
        with_entity(g, namespace, w.source, w.source_name),
        namespace,
        w.target,
        w.target_name,
    );
    if step_for(g, namespace, w) == EdgeStep::Leave {
        h
    } else {
        GraphView { edges: h.edges.insert(edge_key(namespace, w), Some(MATERIALIZED@)), ..h }
    }
}

/// The graph after the first `n` writes of a batch.
pub open spec fn with_writes(
    g: GraphView,
    namespace: Seq<char>,
    writes: Seq<EdgeWriteView>,
    n: int,
) -> GraphView
    decreases n,
{
    if n <= 0 {
        g
    } else {
        with_write(with_writes(g, namespace, writes, n - 1), namespace, writes[n - 1])
    }
}

/// How many of the first `n` writes of a batch count as written.
pub open spec fn written_of(
    g: GraphView,
    namespace: Seq<char>,
    writes: Seq<EdgeWriteView>,
    n: int,
) -> nat
    decreases n,
{
    if n <= 0 {
        0
    } else {
        written_of(g, namespace, writes, n - 1) + (if step_for(
            with_writes(g, namespace, writes, n - 1),
            namespace,
            writes[n - 1],
        ) == EdgeStep::Leave {
            0nat
        } else {
            1nat
        })
    }
}

/// The graph after a batch that has ended.
pub open spec fn after_batch(
    g: GraphView,
    namespace: Seq<char>,
    writes: Seq<EdgeWriteView>,
    end: BatchEnd,
) -> GraphView {
    match end {
        BatchEnd::Commit { .. } => with_writes(g, namespace, writes, writes.len() as int),
        BatchEnd::RollBack(_) => g,
    }
}

/// A write changes nothing any more: its entities are there, and so is its edge, with
/// the evidence that it would get, or with other.
spec fn settled(g: GraphView, namespace: Seq<char>, w: EdgeWriteView) -> bool {
    &&& g.entities.dom().contains(w.source)
    &&& g.entities.dom().contains(w.target)
    &&& g.edges.dom().contains(edge_key(namespace, w))
    &&& g.edges[edge_key(namespace, w)] is Some
}

proof fn lemma_settled(g: GraphView, namespace: Seq<char>, w: EdgeWriteView, v: EdgeWriteView)
    ensures
        settled(with_write(g, namespace, w), namespace, w),
        settled(g, namespace, v) ==> settled(with_write(g, namespace, w), namespace, v),
        step_for(with_write(g, namespace, w), namespace, v) == EdgeStep::Leave <==> step_for(
            g,
            namespace,
            v,
        ) == EdgeStep::Leave,
{
}

proof fn lemma_settled_stays(g: GraphView, namespace: Seq<char>, w: EdgeWriteView)
    requires
        settled(g, namespace, w),
    ensures
        with_write(g, namespace, w) == g,
{
    let h = with_write(g, namespace, w);
    assert(h.edges =~= g.edges);
    assert(h.entities =~= g.entities);
}

proof fn lemma_batch(
    g: GraphView,
    namespace: Seq<char>,
    writes: Seq<EdgeWriteView>,
    n: int,
    v: EdgeWriteView,
)
    requires
        0 <= n <= writes.len(),
    ensures
        forall|i: int|
            0 <= i < n ==> settled(
                with_writes(g, namespace, writes, n),
                namespace,
                #[trigger] writes[i],
            ),
        step_for(with_writes(g, namespace, writes, n), namespace, v) == EdgeStep::Leave <==> step_for(
            g,
            namespace,
            v,
        ) == EdgeStep::Leave,
    decreases n,
{
    if n > 0 {
        lemma_batch(g, namespace, writes, n - 1, v);
        let h = with_writes(g, namespace, writes, n - 1);
        let w = writes[n - 1];
        lemma_settled(h, namespace, w, v);
        assert forall|i: int| 0 <= i < n implies settled(
            with_writes(g, namespace, writes, n),
            namespace,
            #[trigger] writes[i],
        ) by {
            lemma_settled(h, namespace, w, writes[i]);
        }
    }
}

proof fn lemma_again(
    g: GraphView,
    namespace: Seq<char>,
    writes: Seq<EdgeWriteView>,
    n: int,
)
    requires
        0 <= n <= writes.len(),
    ensures
        ({
            let h = with_writes(g, namespace, writes, writes.len() as int);
            &&& with_writes(h, namespace, writes, n) == h
            &&& written_of(h, namespace, writes, n) == written_of(g, namespace, writes, n)
        }),
        written_of(g, namespace, writes, n) <= n,
    decreases n,
{
    let all = writes.len() as int;
    let h = with_writes(g, namespace, writes, all);
    if n > 0 {
        lemma_again(g, namespace, writes, n - 1);
        let w = writes[n - 1];
        lemma_batch(g, namespace, writes, all, w);
        lemma_batch(g, namespace, writes, n - 1, w);
        lemma_settled_stays(h, namespace, w);
    }
}

/// Writing a batch of edges back again changes nothing, and counts the same; no more
/// edges count as written than there are.
pub proof fn law_write_back_is_idempotent(
    g: GraphView,
    namespace: Seq<char>,
    writes: Seq<EdgeWriteView>,
)
    ensures
        ({
            let n = writes.len() as int;
            let h = with_writes(g, namespace, writes, n);
            &&& with_writes(h, namespace, writes, n) == h
            &&& written_of(h, namespace, writes, n) == written_of(g, namespace, writes, n)
            &&& written_of(g, namespace, writes, n) <= n
        }),
{
    lemma_again(g, namespace, writes, writes.len() as int);
}

/// Writing edges back never touches what is there: entities stay as they are, whoever
/// owns them, and so do edges with evidence of their own.
pub proof fn law_write_back_keeps_what_is_there(
    g: GraphView,
    namespace: Seq<char>,
    writes: Seq<EdgeWriteView>,
    n: int,
    id: Seq<char>,
    key: (Seq<char>, Seq<char>, Seq<char>, Seq<char>),
)
    requires
        0 <= n <= writes.len(),
    ensures
        g.entities.dom().contains(id) ==> found_in(
            with_writes(g, namespace, writes, n).entities,
            id,
        ) == Some(g.entities[id]),
        edge_step_of(found_in(g.edges, key)) == EdgeStep::Leave ==> found_in(
            with_writes(g, namespace, writes, n).edges,
            key,
        ) == found_in(g.edges, key),
    decreases n,
{
    if n > 0 {
        law_write_back_keeps_what_is_there(g, namespace, writes, n - 1, id, key);
    }
}

/// A batch stays as a whole or not at all: where one of its writes failed, the graph is
/// as it was; else every one of its edges is there.
pub proof fn law_batches_are_whole(
    g: GraphView,
    namespace: Seq<char>,
    writes: Seq<EdgeWriteView>,
    end: BatchEnd,
)
    ensures
        end is RollBack ==> after_batch(g, namespace, writes, end) == g,
        end is Commit ==> forall|i: int|
            0 <= i < writes.len() ==> {
                let h = after_batch(g, namespace, writes, end);
                &&& h.entities.dom().contains((#[trigger] writes[i]).source)
                &&& h.entities.dom().contains(writes[i].target)
                &&& h.edges.dom().contains(edge_key(namespace, writes[i]))
            },
{
    if writes.len() > 0 {
        lemma_batch(g, namespace, writes, writes.len() as int, writes[0]);
    }
    let h = with_writes(g, namespace, writes, writes.len() as int);
    assert forall|i: int| 0 <= i < writes.len() implies h.entities.dom().contains(
        (#[trigger] writes[i]).source,
    ) && h.entities.dom().contains(writes[i].target) && h.edges.dom().contains(
        edge_key(namespace, writes[i]),
    ) by {
        assert(settled(h, namespace, writes[i]));
    }
}

/// What the `ontology` subcommand is asked to do.
#[derive(Debug)]
pub enum OntologyCommand {
    Materialize { source: String, profile: String },
    Status,
    Serve { port: u16 },
}

/// What the subcommand is asked to do, in texts.
pub enum CommandView {
    Materialize { source: Seq<char>, profile: Seq<char> },
    Status,
    Serve { port: u16 },
}

impl OntologyCommand {
    pub open spec fn view(&self) -> CommandView {
        match self {
            OntologyCommand::Materialize { source, profile } => CommandView::Materialize {
                source: source@,
                profile: profile@,
            },
            OntologyCommand::Status => CommandView::Status,
            OntologyCommand::Serve { port } => CommandView::Serve { port: *port },
        }
    }
}

/// The first position from `i` on at which `args` holds `flag`.
pub open spec fn flag_at(args: Seq<Seq<char>>, flag: Seq<char>, i: int) -> Option<int>
    decreases args.len() - i,
{
    if i < 0 || i >= args.len() {
        None
    } else if args[i] == flag {
        Some(i)
    } else {
        flag_at(args, flag, i + 1)
    }
}

/// The port of `serve`: the value behind the first `--port`, or the default.
pub open spec fn serve_port(args: Seq<Seq<char>>) -> Result<u16, Seq<char>> {
    match flag_at(args, "--port"@, 0) {
        None => Ok(DEFAULT_PORT),
        Some(i) => if i + 1 >= args.len() {
            Err("--port requires a value"@)
        } else {
            match text::spelled(args[i + 1], u16::MAX as nat) {
                None => Err(
                    "invalid --port value "@ + text::debug_form(args[i + 1])
                        + " (expected 1..=65535)"@,
                ),
                Some(n) => if n == 0 {
                    Err("invalid --port value 0 (0 means ephemeral; specify 1..=65535)"@)
                } else {
                    Ok(n as u16)
                },
            }
        },
    }
}

/// What the arguments behind `ontology` ask for.
pub open spec fn ontology_command(args: Seq<Seq<char>>) -> Result<CommandView, Seq<char>> {
    if args.len() == 0 {
        Err(
            "usage: memoria-server ontology <materialize|status|serve>\nmaterialize <source_ttl> [profile=rdfs]\nstatus\nserve [--port N]"@,
        )
    } else if args[0] == "materialize"@ {
        if args.len() < 2 {
            Err("materialize requires <source_ttl>"@)
        } else {
            Ok(
                CommandView::Materialize {
                    source: args[1],
                    profile: if args.len() > 2 {
                        args[2]
                    } else {
                        "rdfs"@
                    },
                },
            )
        }
    } else if args[0] == "status"@ {
        Ok(CommandView::Status)
    } else if args[0] == "serve"@ {
        match serve_port(args) {
            Ok(port) => Ok(CommandView::Serve { port }),
            Err(e) => Err(e),
        }
    } else {
        Err(
            "unknown ontology subcommand: "@ + args[0]
                + " (expected materialize|status|serve)"@,
        )
    }
}

fn parse_serve_port(args: &Vec<String>) -> (r: Result<u16, String>)
    ensures
        match r {
            Ok(p) => serve_port(text::texts(args@)) == Ok::<u16, Seq<char>>(p),
            Err(e) => serve_port(text::texts(args@)) == Err::<u16, Seq<char>>(e@),
        },
{
    let ghost a = text::texts(args@);
    let mut i: usize = 0;
    while i < args.len()
        invariant
            i <= args@.len(),
            a == text::texts(args@),
            flag_at(a, "--port"@, 0) == flag_at(a, "--port"@, i as int),
        decreases args@.len() - i,
    {
        if text::same(args[i].as_str(), "--port") {
            assert(flag_at(a, "--port"@, 0) == Some(i as int));
            if args.len() - i == 1 {
                return Err("--port requires a value".to_string());
            }
            let raw = args[i + 1].as_str();
            assert(a[i + 1] == raw@);
            return match text::parse_up_to(raw, u16::MAX as u64) {
                None => Err(
                    text::cat3(
                        "invalid --port value ",
                        text::debug_string(raw).as_str(),
                        " (expected 1..=65535)",
                    ),
                ),
                Some(n) => if n == 0 {
                    Err(
                        "invalid --port value 0 (0 means ephemeral; specify 1..=65535)".to_string(),
                    )
                } else {
                    Ok(n as u16)
                },
            };
        }
        i += 1;
    }
    Ok(DEFAULT_PORT)
}

/// Reads the arguments of the `ontology` subcommand.
pub fn run_ontology_cli(args: &Vec<String>) -> (r: Result<OntologyCommand, String>)
    ensures
        match r {
            Ok(c) => ontology_command(text::texts(args@)) == Ok::<CommandView, Seq<char>>(c@),
            Err(e) => ontology_command(text::texts(args@)) == Err::<CommandView, Seq<char>>(e@),
        },
{
    let ghost a = text::texts(args@);
    if args.len() == 0 {
        return Err(
            "usage: memoria-server ontology <materialize|status|serve>\nmaterialize <source_ttl> [profile=rdfs]\nstatus\nserve [--port N]".to_string(),
        );
    }
    let cmd = args[0].as_str();
    assert(a[0] == cmd@);
    if text::same(cmd, "materialize") {
        if args.len() < 2 {
            return Err("materialize requires <source_ttl>".to_string());
        }
        let profile = if args.len() > 2 {
            args[2].clone()
        } else {
            "rdfs".to_string()
        };
        Ok(OntologyCommand::Materialize { source: args[1].clone(), profile })
    } else if text::same(cmd, "status") {
        Ok(OntologyCommand::Status)
    } else if text::same(cmd, "serve") {
        match parse_serve_port(args) {
            Ok(port) => Ok(OntologyCommand::Serve { port }),
            Err(e) => Err(e),
        }
    } else {
        Err(
            text::cat3("unknown ontology subcommand: ", cmd, " (expected materialize|status|serve)"),
        )
    }
}

/// The difference of the triple counts, or zero where there are fewer after.
pub open spec fn triples_delta(before: u64, after: u64) -> nat {
    if after >= before {
        (after - before) as nat
    } else {
        0
    }
}

/// The report on a run.
pub fn materialize_report(res: &MaterializeResult) -> (r: String)
    ensures
        r@ == "materialize OK\nduration_ms: "@ + text::dec(res.duration_ms as nat) + "\nprofile: "@
            + res.profile@ + "\ntriples: "@ + text::dec(res.triples_before as nat) + " -> "@
            + text::dec(res.triples_after as nat) + " (triples_delta "@ + text::dec(
            triples_delta(res.triples_before, res.triples_after),
        ) + ")\ninferred_edges: "@ + text::dec(res.inferred_edges@.len()),
{
    let mut s = text::cat("materialize OK\nduration_ms: ", text::decimal(res.duration_ms).as_str());
    s.append("\nprofile: ");
    s.append(res.profile.as_str());
    s.append("\ntriples: ");
    s.append(text::decimal(res.triples_before).as_str());
    s.append(" -> ");
    s.append(text::decimal(res.triples_after).as_str());
    s.append(" (triples_delta ");
    let delta: u64 = if res.triples_after >= res.triples_before {
        res.triples_after - res.triples_before
    } else {
        0
    };
    s.append(text::decimal(delta).as_str());
    s.append(")\ninferred_edges: ");
    s.append(text::decimal(res.inferred_edges.len() as u64).as_str());
    s
}

/// The report on the reasoner: whether it could be started, and whether its help
/// speaks of the online channel.
pub fn status(cfg: &OntologyConfig, started: bool, stdout: &str, stderr: &str, check_ms: u64) -> (r:
    String)
    ensures
        r@ == "open-ontologies \u{53ef}\u{6267}\u{884c}: "@ + cfg.bin@ + " ("@ + (if started {
            "OK"@
        } else {
            "FAIL/\u{8d85}\u{65f6}"@
        }) + ")\nbin: "@ + cfg.bin@ + "\ndata: "@ + cfg.data_dir@ + "\nschema: "@ + cfg.schema_path@
            + "\ndetected: "@ + (if text::occurs(stdout@, "serve-http"@) || text::occurs(
            stderr@,
            "serve-http"@,
        ) {
            "serve-http \u{53ef}\u{7528}"@
        } else {
            "serve-http \u{672a}\u{68c0}\u{6d4b}\u{5230}"@
        }) + "\ncheck_ms: "@ + text::dec(check_ms as nat),
{
    let mut s = text::cat("open-ontologies \u{53ef}\u{6267}\u{884c}: ", cfg.bin.as_str());
    s.append(" (");
    if started {
        s.append("OK");
    } else {
        s.append("FAIL/\u{8d85}\u{65f6}");
    }
    s.append(")\nbin: ");
    s.append(cfg.bin.as_str());
    s.append("\ndata: ");
    s.append(cfg.data_dir.as_str());
    s.append("\nschema: ");
    s.append(cfg.schema_path.as_str());
    s.append("\ndetected: ");
    if text::contains(stdout, "serve-http") || text::contains(stderr, "serve-http") {
        s.append("serve-http \u{53ef}\u{7528}");
    } else {
        s.append("serve-http \u{672a}\u{68c0}\u{6d4b}\u{5230}");
    }
    s.append("\ncheck_ms: ");
    s.append(text::decimal(check_ms).as_str());
    s
}

/// At least four of five materialized edges count as inferred: the forms of the
/// IRIs in the source and in the output are likely to differ.
pub open spec fn suspicious_ratio(inferred: nat, distinct: nat) -> bool {
    distinct > 0 && inferred * 10 >= distinct * 8
}

/// What to warn of after a run.
pub fn run_warnings(res: &MaterializeResult, counts: &BatchCounts, known: usize) -> (r: RunWarnings)
    ensures
        r.no_load_result == !counts.saw_load,
        r.load_field_missing == (counts.saw_load && counts.load_missing_field),
        r.no_reason_result == !counts.saw_reason,
        r.reason_field_missing == (counts.saw_reason && counts.reason_missing_field),
        r.empty_output == (res.all_edges@.len() == 0 && known > 0),
        r.high_ratio == suspicious_ratio(
            res.inferred_edges@.len(),
            new_edges(turtle::edge_texts(res.all_edges@), Seq::empty()).len(),
        ),
{
    let empty: Vec<(String, String, String)> = Vec::new();
    assert(turtle::edge_texts(empty@) =~= Seq::empty());
    let distinct = edges_not_in(&res.all_edges, &empty);
    let n: u128 = res.inferred_edges.len() as u128;
    let d: u128 = distinct.len() as u128;
    assert(turtle::edge_texts(distinct@).len() == distinct@.len());
    RunWarnings {
        no_load_result: !counts.saw_load,
        load_field_missing: counts.saw_load && counts.load_missing_field,
        no_reason_result: !counts.saw_reason,
        reason_field_missing: counts.saw_reason && counts.reason_missing_field,
        empty_output: res.all_edges.len() == 0 && known > 0,
        high_ratio: d > 0 && n * 10 >= d * 8,
    }
}

/// What to warn of after a run.
#[derive(Debug)]
pub struct RunWarnings {
    /// The output has no result of a load.
    pub no_load_result: bool,
    /// A result of a load lacks its count.
    pub load_field_missing: bool,
    pub no_reason_result: bool,
    pub reason_field_missing: bool,
    /// The output holds no edges while the source does.
    pub empty_output: bool,
    /// Nearly all edges count as inferred.
    pub high_ratio: bool,
}

/// A number as 16 hexadecimal digits.
pub open spec fn hex16(n: u64) -> Seq<char> {
    hex_tail(n as nat, 16)
}

/// The last `width` hexadecimal digits of a number.
pub open spec fn hex_tail(n: nat, width: nat) -> Seq<char>
    decreases width,
{
    if width == 0 {
        Seq::empty()
    } else {
        hex_tail(n / 16, (width - 1) as nat).push(hash::hex_digit((n % 16) as int))
    }
}

fn write_hex(n: u64, width: usize) -> (r: String)
    ensures
        r@ == hex_tail(n as nat, width as nat),
    decreases width,
{
    if width == 0 {
        let s = String::new();
        assert(s@ =~= Seq::empty());
        s
    } else {
        let head = write_hex(n / 16, width - 1);
        text::with_char(head, hash::hex_char((n % 16) as u8))
    }
}

/// The files of a run, named after it.
#[derive(Debug)]
pub struct RunFiles {
    pub batch: String,
    pub out: String,
    pub source_copy: String,
    pub schema_copy: String,
}

/// What tells a run from others: the process, the number of the run in it, and a
/// random number.
pub open spec fn run_name(pid: u32, seq: u64, random: u64) -> Seq<char> {
    text::dec(pid as nat) + "_"@ + text::dec(seq as nat) + "_"@ + hex16(random)
}

proof fn lemma_same_until_mark(a: Seq<char>, b: Seq<char>, c: Seq<char>, d: Seq<char>)
    requires
        text::all_digits(a),
        text::all_digits(b),
        a + seq!['_'] + c == b + seq!['_'] + d,
    ensures
        a == b,
        c == d,
{
    let l = a + seq!['_'] + c;
    let r = b + seq!['_'] + d;
    if a.len() < b.len() {
        assert(l[a.len() as int] == '_');
        assert(text::is_digit(b[a.len() as int]));
        assert(r[a.len() as int] == b[a.len() as int]);
    }
    if b.len() < a.len() {
        assert(r[b.len() as int] == '_');
        assert(text::is_digit(a[b.len() as int]));
        assert(l[b.len() as int] == a[b.len() as int]);
    }
    assert(a =~= b) by {
        assert(l.take(a.len() as int) =~= a);
        assert(r.take(b.len() as int) =~= b);
    }
    assert(c =~= d) by {
        assert(l.skip((a.len() + 1) as int) =~= c);
        assert(r.skip((b.len() + 1) as int) =~= d);
    }
}

/// Two runs with the same name are the same run of the same process: no two runs
/// share a file.
pub proof fn law_runs_have_their_own_names(
    pid: u32,
    seq: u64,
    random: u64,
    pid2: u32,
    seq2: u64,
    random2: u64,
)
    requires
        run_name(pid, seq, random) == run_name(pid2, seq2, random2),
    ensures
        pid == pid2,
        seq == seq2,
{
    reveal_strlit("_");
    let mark = seq!['_'];
    assert("_"@ =~= mark);
    let m = u64::MAX as nat;
    text::law_decimal_is_read_back(pid as nat, m);
    text::law_decimal_is_read_back(pid2 as nat, m);
    text::law_decimal_is_read_back(seq as nat, m);
    text::law_decimal_is_read_back(seq2 as nat, m);
    let c = text::dec(seq as nat) + mark + hex16(random);
    let d = text::dec(seq2 as nat) + mark + hex16(random2);
    assert(run_name(pid, seq, random) =~= text::dec(pid as nat) + mark + c);
    assert(run_name(pid2, seq2, random2) =~= text::dec(pid2 as nat) + mark + d);
    lemma_same_until_mark(text::dec(pid as nat), text::dec(pid2 as nat), c, d);
    lemma_same_until_mark(
        text::dec(seq as nat),
        text::dec(seq2 as nat),
        hex16(random),
        hex16(random2),
    );
}

/// The files lie in a directory, and carry the name of the run.
pub open spec fn named_after(r: RunFiles, data_dir: Seq<char>, name: Seq<char>) -> bool {
    &&& r.batch@ == text::in_dir(data_dir, "materialize_"@ + name + ".batch"@)
    &&& r.out@ == text::in_dir(data_dir, "materialized_"@ + name + ".ttl"@)
    &&& r.source_copy@ == text::in_dir(data_dir, "source_"@ + name + ".ttl"@)
    &&& r.schema_copy@ == text::in_dir(data_dir, "schema_"@ + name + ".ttl"@)
}

/// Names the files of a run with a random number.
pub fn run_files(data_dir: &str, pid: u32, seq: u64) -> (r: Result<RunFiles, String>)
    ensures
        match r {
            Ok(f) => exists|random: u64|
                named_after(f, data_dir@, #[trigger] run_name(pid, seq, random)),
            Err(e) => text::begins(e@, "getrandom failed (temp name entropy): "@),
        },
{
    match clock::random() {
        Ok(random) => {
            let f = run_files_with(data_dir, pid, seq, random);
            assert(named_after(f, data_dir@, run_name(pid, seq, random)));
            Ok(f)
        },
        Err(e) => {
            let m = text::cat("getrandom failed (temp name entropy): ", e.as_str());
            assert(m@.take("getrandom failed (temp name entropy): "@.len() as int)
                =~= "getrandom failed (temp name entropy): "@);
            Err(m)
        },
    }
}

/// Names the files of a run.
pub fn run_files_with(data_dir: &str, pid: u32, seq: u64, random: u64) -> (r: RunFiles)
    ensures
        named_after(r, data_dir@, run_name(pid, seq, random)),
{
    let name = text::cat5(
        text::decimal(pid as u64).as_str(),
        "_",
        text::decimal(seq).as_str(),
        "_",
        write_hex(random, 16).as_str(),
    );
    RunFiles {
        batch: text::path_in(
            data_dir,
            text::cat3("materialize_", name.as_str(), ".batch").as_str(),
        ),
        out: text::path_in(
            data_dir,
            text::cat3("materialized_", name.as_str(), ".ttl").as_str(),
        ),
        source_copy: text::path_in(
            data_dir,
            text::cat3("source_", name.as_str(), ".ttl").as_str(),
        ),
        schema_copy: text::path_in(
            data_dir,
            text::cat3("schema_", name.as_str(), ".ttl").as_str(),
        ),
    }
}

/// What looking at the running reasoner came to.
#[derive(Debug)]
pub enum ChildState {
    Exited,
    Running,
    /// It could not be looked at.
    Lost(String),
}

/// What is done about the running reasoner.
#[derive(Debug)]
pub enum WaitStep {
    Finished,
    Wait,
    /// It is stopped, and the run fails.
    Stop(String),
}

/// The seconds that a run may take: those that are set, up to the limit.
pub open spec fn run_limit(timeout_secs: u64) -> int {
    if timeout_secs < MAX_TIMEOUT_SECS {
        timeout_secs as int
    } else {
        MAX_TIMEOUT_SECS as int
    }
}

/// Decides what is done about the running reasoner after so many milliseconds.
pub fn wait_step(state: &ChildState, elapsed_ms: u64, timeout_secs: u64) -> (r: WaitStep)
    ensures
        match state {
            ChildState::Exited => r is Finished,
            ChildState::Lost(e) => r matches WaitStep::Stop(x) && x@ == "wait: "@ + e@,
            ChildState::Running => if elapsed_ms > run_limit(timeout_secs) * 1000 {
                r matches WaitStep::Stop(x) && x@ == "ontology materialize timed out after "@
                    + text::dec(timeout_secs as nat) + "s (killed)"@
            } else {
                r is Wait
            },
        },
{
    match state {
        ChildState::Exited => WaitStep::Finished,
        ChildState::Lost(e) => WaitStep::Stop(text::cat("wait: ", e.as_str())),
        ChildState::Running => {
            let limit: u64 = if timeout_secs < MAX_TIMEOUT_SECS {
                timeout_secs
            } else {
                MAX_TIMEOUT_SECS
            };
            if elapsed_ms > limit * 1000 {
                WaitStep::Stop(
                    text::cat3(
                        "ontology materialize timed out after ",
                        text::decimal(timeout_secs).as_str(),
                        "s (killed)",
                    ),
                )
            } else {
                WaitStep::Wait
            }
        },
    }
}

/// A reasoner that failed says why.
pub fn batch_outcome(success: bool, status: &str, stderr: &str) -> (r: Result<(), String>)
    ensures
        match r {
            Ok(()) => success,
            Err(e) => !success && e@ == "open-ontologies batch failed: "@ + status@ + " (stderr: "@
                + stderr@ + ")"@,
        },
{
    if success {
        Ok(())
    } else {
        Err(text::cat5("open-ontologies batch failed: ", status, " (stderr: ", stderr, ")"))
    }
}

/// The report on the online channel. `exited` holds the status of a process that
/// did not stay, and what it said.
pub fn serve_report(port: u16, exited: Option<(&str, &str)>, verification_ms: u64) -> (r: Result<
    String,
    String,
>)
    ensures
        match exited {
            Some((status, stderr)) => r matches Err(e) && e@
                == "serve-http exited immediately (code "@ + status@ + "): "@ + stderr@,
            None => r matches Ok(s) && s@ == "serve-http 在线通道占位 OK\nport: "@ + text::dec(
                port as nat,
            ) + " (进程存活>800ms, 未实测端口监听)\nstorage: persistent\nverification_ms: "@
                + text::dec(verification_ms as nat)
                + "\n(注: serve-http 为 MCP Streamable HTTP, 健康探测需 MCP 握手, 本期未接客户端; '端口已绑定'未实测, 仅验证进程可启动)"@,
        },
{
    match exited {
        Some((status, stderr)) => {
            let mut e = text::cat3("serve-http exited immediately (code ", status, "): ");
            e.append(stderr);
            Err(e)
        },
        None => Ok(
            text::cat5(
                "serve-http 在线通道占位 OK\nport: ",
                text::decimal(port as u64).as_str(),
                " (进程存活>800ms, 未实测端口监听)\nstorage: persistent\nverification_ms: ",
                text::decimal(verification_ms).as_str(),
                "\n(注: serve-http 为 MCP Streamable HTTP, 健康探测需 MCP 握手, 本期未接客户端; '端口已绑定'未实测, 仅验证进程可启动)",
            ),
        ),
    }
}

/// Edges are written one by one, in their order, each from its own source to its own target
/// and under the relation of its predicate; one that cannot be written takes no place.
pub proof fn law_edges_are_written_as_they_stand(
    a: Seq<(Seq<char>, Seq<char>, Seq<char>)>,
    b: Seq<(Seq<char>, Seq<char>, Seq<char>)>,
    source: Seq<char>,
    pred: Seq<char>,
    target: Seq<char>,
    namespaces: Seq<Seq<char>>,
)
    ensures
        writes_of(a + b, namespaces) == writes_of(a, namespaces) + writes_of(b, namespaces),
        entity_node(source) && entity_node(target) ==> match turtle::relation_of(pred, namespaces) {
            Some(t) => {
                let w = writes_of(seq![(source, pred, target)], namespaces);
                &&& w.len() == 1
                &&& w[0].source == source
                &&& w[0].target == target
                &&& w[0].relation == t
                &&& w[0].source_name == local_name(source)
                &&& w[0].target_name == local_name(target)
            },
            None => writes_of(seq![(source, pred, target)], namespaces).len() == 0,
        },
    decreases b.len(),
{
    let e = (source, pred, target);
    law_mapped_relations_are_valid(pred, namespaces);
    assert(seq![e].drop_last() =~= Seq::empty());
    assert(writes_of(seq![e].drop_last(), namespaces) =~= Seq::empty());
    if b.len() == 0 {
        assert(a + b =~= a);
        assert(writes_of(a, namespaces) + writes_of(b, namespaces) =~= writes_of(a, namespaces));
    } else {
        law_edges_are_written_as_they_stand(a, b.drop_last(), source, pred, target, namespaces);
        assert((a + b).drop_last() =~= a + b.drop_last());
        assert((a + b).last() == b.last());
        assert(writes_of(a + b, namespaces) =~= writes_of(a, namespaces) + writes_of(b, namespaces));
    }
}

proof fn lemma_start_behind(base: Seq<char>, name: Seq<char>)
    requires
        base.len() > 0,
        base.last() == '/' || base.last() == '#',
        !name.contains('/'),
        !name.contains('#'),
    ensures
        local_start(base + name) == base.len(),
    decreases name.len(),
{
    let s = base + name;
    if name.len() == 0 {
        assert(s =~= base);
    } else {
        assert(s.last() == name.last());
        assert(name.contains(name.last()));
        assert(s.drop_last() =~= base + name.drop_last());
        assert(!name.drop_last().contains('/') && !name.drop_last().contains('#')) by {
            if name.drop_last().contains('/') || name.drop_last().contains('#') {
                let d = name.drop_last();
                let k = choose|k: int| 0 <= k < d.len() && (d[k] == '/' || d[k] == '#');
                assert(name[k] == d[k]);
            }
        }
        lemma_start_behind(base, name.drop_last());
    }
}

/// The name of an entity is what stands behind the last slash or hash of its IRI.
pub proof fn law_names_stand_behind_the_last_mark(base: Seq<char>, mark: char, name: Seq<char>)
    requires
        mark == '/' || mark == '#',
        name.len() > 0,
        !name.contains('/'),
        !name.contains('#'),
    ensures
        local_name(base + seq![mark] + name) == name,
{
    let b = base + seq![mark];
    assert(b.last() == mark);
    lemma_start_behind(b, name);
    assert((b + name).skip(b.len() as int) =~= name);
}

/// An entity that is new is entered with its own name, for the namespace that writes; an edge
/// that is new leads from the source to the target, with the evidence of a run.
pub proof fn law_writes_enter_both_ends(g: GraphView, namespace: Seq<char>, w: EdgeWriteView)
    ensures
        ({
            let h = with_write(g, namespace, w);
            &&& !g.entities.dom().contains(w.source) ==> h.entities.dom().contains(w.source)
                && h.entities[w.source] == (namespace, w.source_name)
            &&& !g.entities.dom().contains(w.target) && w.target != w.source ==> h.entities.dom().contains(
                w.target,
            ) && h.entities[w.target] == (namespace, w.target_name)
            &&& !g.edges.dom().contains((namespace, w.source, w.target, w.relation))
                ==> h.edges.dom().contains((namespace, w.source, w.target, w.relation))
                && h.edges[(namespace, w.source, w.target, w.relation)] == Some(
                "ontology:materialized"@,
            )
        }),
        forall|k: (Seq<char>, Seq<char>, Seq<char>, Seq<char>)|
            #![trigger with_write(g, namespace, w).edges.dom().contains(k)]
            k != (namespace, w.source, w.target, w.relation) ==> (with_write(g, namespace, w).edges.dom().contains(
                k,
            ) <==> g.edges.dom().contains(k)),
        forall|id: Seq<char>|
            #![trigger with_write(g, namespace, w).entities.dom().contains(id)]
            id != w.source && id != w.target ==> (with_write(g, namespace, w).entities.dom().contains(id)
                <==> g.entities.dom().contains(id)),
{
}

/// An edge that a run wrote, or that has no evidence, is refreshed; one with evidence of its
/// own is left alone.
pub proof fn law_own_evidence_is_left_alone(evidence: Seq<char>)
    ensures
        edge_step_of(None) is Insert,
        edge_step_of(Some(None)) is Refresh,
        edge_step_of(Some(Some("ontology:materialized"@))) is Refresh,
        evidence != "ontology:materialized"@ ==> edge_step_of(Some(Some(evidence))) is Leave,
{
}

/// Each load adds what it loaded to the triples before, a reasoning sets those after, and no
/// other line changes them.
pub proof fn law_lines_change_their_own_count(
    lines: Seq<Seq<char>>,
    line: Seq<char>,
    profile: Seq<char>,
    v: JsonView,
    res: JsonView,
    n: u64,
)
    requires
        json::parsed(line) == Some(v),
        v.member("result"@) == Some(res),
    ensures
        ({
            let before = count_lines(lines, profile);
            let after = count_lines(lines.push(line), profile);
            &&& v.member("command"@) == Some(JsonView::Text("load"@)) && res.member("triples_loaded"@)
                == Some(JsonView::Number(json::NumberView::Unsigned(n))) && before.triples_before + n
                <= u64::MAX ==> after.triples_before == before.triples_before + n
                && after.triples_after == before.triples_after && after.saw_load
                && after.saw_reason == before.saw_reason && after.profile == before.profile
            &&& v.member("command"@) == Some(JsonView::Text("reason"@)) && res.member(
                "final_triples"@,
            ) == Some(JsonView::Number(json::NumberView::Unsigned(n))) ==> after.triples_after == n
                && after.triples_before == before.triples_before && after.saw_reason
                && after.saw_load == before.saw_load
            &&& v.member("command"@) == Some(JsonView::Text("save"@)) ==> after == before
        }),
        count_lines(Seq::empty(), profile).triples_before == 0,
        count_lines(Seq::empty(), profile).triples_after == 0,
        count_lines(Seq::empty(), profile).profile == profile,
{
    reveal_strlit("load");
    reveal_strlit("reason");
    reveal_strlit("save");
    assert("load"@.len() == 4 && "reason"@.len() == 6 && "save"@.len() == 4 && "load"@[0] == 'l'
        && "save"@[0] == 's');
    assert(lines.push(line).drop_last() =~= lines);
}

/// A script loads the schema first, then the source, and saves last; without a schema it is
/// what follows the load of one.
pub proof fn law_scripts_load_reason_and_save(
    schema: Seq<char>,
    source: Seq<char>,
    profile: Seq<char>,
    out: Seq<char>,
)
    requires
        !has_drive(schema),
        !has_drive(source),
        !has_drive(out),
    ensures
        script_text(Some(schema), source, profile, out, false) == "load \""@ + schema + "\"\n"@
            + script_text(None, source, profile, out, false),
        text::begins(
            script_text(None, source, profile, out, false),
            "load \""@ + source + "\"\n"@ + "reason --profile "@ + profile + "\n"@,
        ),
        text::ends(script_text(None, source, profile, out, false), "save \""@ + out + "\"\n"@),
{
    reveal_strlit("");
    reveal_strlit("\nsave \"");
    reveal_strlit("save \"");
    reveal_strlit("\n");
    assert("\nsave \""@ =~= "\n"@ + "save \""@);
    let s = script_text(None, source, profile, out, false);
    assert(script_text(Some(schema), source, profile, out, false) =~= "load \""@ + schema + "\"\n"@
        + s);
    let a = "load \""@ + source + "\"\n"@ + "reason --profile "@ + profile + "\n"@;
    let b = "save \""@ + out + "\"\n"@;
    assert(s =~= a + b);
    assert(s.subrange(0, a.len() as int) =~= a);
    assert(s.subrange(s.len() - b.len(), s.len() as int) =~= b);
}

/// A path keeps its length and its parts: only backslashes of a Windows path turn round.
pub proof fn law_paths_keep_their_parts(p: Seq<char>, windows: bool, i: int)
    requires
        0 <= i < p.len(),
    ensures
        reasoner_path(p, windows).len() == p.len(),
        p[i] != '\\' ==> reasoner_path(p, windows)[i] == p[i],
        p[i] == '\\' && windows ==> reasoner_path(p, windows)[i] == '/',
        !windows && (p.len() < 3 || p[1] != ':') ==> reasoner_path(p, windows) == p,
{
}

/// What could end a quoted path in a script is refused, wherever it stands.
pub proof fn law_broken_paths_are_refused(
    data_dir: Seq<char>,
    schema_path: Seq<char>,
    source_ttl: Seq<char>,
    profile: Seq<char>,
    windows: bool,
    i: int,
)
    ensures
        0 <= i < source_ttl.len() && (source_ttl[i] == '"' || source_ttl[i] == '\n' || source_ttl[i]
            == '\r' || source_ttl[i] == ';') ==> refusal(
            data_dir,
            schema_path,
            source_ttl,
            profile,
            windows,
        ) is Some,
        0 <= i < schema_path.len() && (schema_path[i] == '"' || schema_path[i] == '\n'
            || schema_path[i] == '\r' || schema_path[i] == ';') ==> refusal(
            data_dir,
            schema_path,
            source_ttl,
            profile,
            windows,
        ) is Some,
        0 <= i < data_dir.len() && (data_dir[i] == '"' || data_dir[i] == '\n' || data_dir[i] == '\r'
            || data_dir[i] == ';') ==> refusal(data_dir, schema_path, source_ttl, profile, windows) is Some,
        0 <= i < source_ttl.len() && source_ttl[i] == '\\' && !windows ==> refusal(
            data_dir,
            schema_path,
            source_ttl,
            profile,
            windows,
        ) is Some,
        !seq!["rdfs"@, "owl-rl"@, "owl-dl"@, "owl-full"@].contains(profile) ==> refusal(
            data_dir,
            schema_path,
            source_ttl,
            profile,
            windows,
        ) is Some,
        (forall|k: int| 0 <= k < data_dir.len() ==> text::is_alnum(#[trigger] data_dir[k]) || data_dir[k]
            == '/') && (forall|k: int|
            0 <= k < schema_path.len() ==> text::is_alnum(#[trigger] schema_path[k]) || schema_path[k]
                == '/') && (forall|k: int|
            0 <= k < source_ttl.len() ==> text::is_alnum(#[trigger] source_ttl[k]) || source_ttl[k]
                == '/') && seq!["rdfs"@, "owl-rl"@, "owl-dl"@, "owl-full"@].contains(profile) ==> refusal(
            data_dir,
            schema_path,
            source_ttl,
            profile,
            windows,
        ) is None,
{
    let p = seq!["rdfs"@, "owl-rl"@, "owl-dl"@, "owl-full"@];
    assert(p[0] == "rdfs"@ && p[1] == "owl-rl"@ && p[2] == "owl-dl"@ && p[3] == "owl-full"@);
    if p.contains(profile) {
        let k = choose|k: int| 0 <= k < p.len() && p[k] == profile;
        assert(k == 0 || k == 1 || k == 2 || k == 3);
    }
}

/// A time limit is a second at least and a day at most, and a minute where none is set.
pub proof fn law_time_limits_have_bounds(n: u64)
    ensures
        timeout_from(None) == 60,
        timeout_from(Some(text::dec(n as nat))) == if n == 0 {
            1int
        } else if n > 24 * 60 * 60 {
            24 * 60 * 60int
        } else {
            n as int
        },
        run_limit(n) == if n > 24 * 60 * 60 {
            24 * 60 * 60int
        } else {
            n as int
        },
{
    text::law_decimal_is_read_back(n as nat, u64::MAX as nat);
}

/// The command line is read in its order: the file, then the profile, which is `rdfs` where
/// none is given.
pub proof fn law_ontology_commands_are_read_in_order(source: Seq<char>, profile: Seq<char>, port: u16)
    ensures
        ontology_command(seq!["materialize"@, source]) == Ok::<CommandView, Seq<char>>(
            CommandView::Materialize { source, profile: "rdfs"@ },
        ),
        ontology_command(seq!["materialize"@, source, profile]) == Ok::<CommandView, Seq<char>>(
            CommandView::Materialize { source, profile },
        ),
        ontology_command(seq!["status"@]) == Ok::<CommandView, Seq<char>>(CommandView::Status),
        port > 0 ==> ontology_command(seq!["serve"@, "--port"@, text::dec(port as nat)]) == Ok::<
            CommandView,
            Seq<char>,
        >(CommandView::Serve { port }),
        ontology_command(seq!["serve"@, "--port"@, text::dec(0)]) is Err,
        ontology_command(seq!["serve"@, "--port"@]) is Err,
        ontology_command(seq!["materialize"@]) is Err,
        ontology_command(seq!["serve"@]) matches Ok(CommandView::Serve { port: p }) && p > 0,
{
    reveal_strlit("materialize");
    reveal_strlit("status");
    reveal_strlit("serve");
    reveal_strlit("--port");
    assert("materialize"@.len() == 11 && "status"@.len() == 6 && "serve"@.len() == 5
        && "--port"@.len() == 6 && "status"@[0] == 's' && "--port"@[0] == '-');
    text::law_decimal_is_read_back(port as nat, u16::MAX as nat);
    text::law_decimal_is_read_back(0, u16::MAX as nat);
    reveal_with_fuel(flag_at, 3);
}

/// What is compared of an edge keeps its direction: source, predicate and target stay in
/// their places.
pub proof fn law_compared_edges_keep_their_direction(
    s: Seq<char>,
    p: Seq<char>,
    t: Seq<char>,
    mark: char,
)
    requires
        s.len() > 0 && text::is_alnum(s.last()),
        p.len() > 0 && text::is_alnum(p.last()),
        t.len() > 0 && text::is_alnum(t.last()),
        mark == '#' || mark == '/',
    ensures
        normal_edge((s, p, t)) == (s, p, t),
        normal_edge((s.push(mark), p, t.push(mark))) == (s, p, t),
{
    law_trailing_marks_do_not_count(s, mark);
    law_trailing_marks_do_not_count(t, mark);
}

/// The edges of the source are known, and so are those of the schema; nothing else is.
pub proof fn law_known_edges_are_those_that_went_in(
    source: Seq<char>,
    schema: Seq<char>,
    namespaces: Seq<Seq<char>>,
    e: (Seq<char>, Seq<char>, Seq<char>),
)
    ensures
        known_edges(source, None, namespaces).contains(e) <==> turtle::document_edges(
            source,
            namespaces,
        ).contains(e),
        known_edges(source, Some(schema), namespaces).contains(e) <==> turtle::document_edges(
            source,
            namespaces,
        ).contains(e) || turtle::document_edges(schema, namespaces).contains(e),
{
    let a = turtle::document_edges(source, namespaces);
    let b = turtle::document_edges(schema, namespaces);
    assert(known_edges(source, None, namespaces) =~= a);
    let c = a + b;
    if a.contains(e) {
        let k = choose|k: int| 0 <= k < a.len() && a[k] == e;
        assert(c[k] == e);
    }
    if b.contains(e) {
        let k = choose|k: int| 0 <= k < b.len() && b[k] == e;
        assert(c[a.len() + k] == e);
    }
    if c.contains(e) {
        let k = choose|k: int| 0 <= k < c.len() && c[k] == e;
        if k < a.len() {
            assert(a[k] == e);
        } else {
            assert(b[k - a.len()] == e);
        }
    }
}

/// A run is suspicious where four of five edges or more are new.
pub proof fn law_suspicion_begins_at_four_fifths(inferred: nat, distinct: nat)
    ensures
        suspicious_ratio(inferred, distinct) <==> distinct > 0 && 5 * inferred >= 4 * distinct,
{
}

/// What is known of a write is what its fields hold.
pub proof fn law_writes_hold_what_they_say(x: EdgeWrite)
    ensures
        x@.source == x.source@,
        x@.source_name == x.source_name@,
        x@.target == x.target@,
        x@.target_name == x.target_name@,
        x@.relation == x.relation@,
{
}

/// What is known of the counts of a run is what their fields hold.
pub proof fn law_counts_hold_what_they_say(x: BatchCounts)
    ensures
        x@.triples_before == x.triples_before,
        x@.triples_after == x.triples_after,
        x@.profile == x.profile@,
        x@.saw_load == x.saw_load,
        x@.saw_reason == x.saw_reason,
        x@.load_missing_field == x.load_missing_field,
        x@.reason_missing_field == x.reason_missing_field,
        x@.unparsed_lines == x.unparsed_lines,
{
}

/// What is known of a command is what it was given.
pub proof fn law_commands_hold_what_they_say(x: OntologyCommand)
    ensures
        x matches OntologyCommand::Materialize { source, profile } ==> (x@ matches CommandView::Materialize {
            source: s,
            profile: p,
        } && s == source@ && p == profile@),
        x is Status ==> x@ is Status,
        x matches OntologyCommand::Serve { port } ==> (x@ matches CommandView::Serve { port: p } && p
            == port),
{
}

} // verus!
