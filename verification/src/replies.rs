//! The replies of the tools, once the storage has acted.
use vstd::prelude::*;
use vstd::utf8::encode_utf8;
use crate::document::IngestOutcome;
use crate::engine;
use crate::engine::ShownHit;
use crate::health;
use crate::health::CheckResult;
use crate::json;
use crate::json::{Json, JsonView, NumberView};
use crate::quota;
use crate::quota::Moment;
use crate::text;

verus! {

/// A reply that says that all went well, without anything else yet.
pub open spec fn ok_value() -> JsonView {
    JsonView::empty().with("status"@, JsonView::Text("ok"@))
}

fn ok_object() -> (r: Json)
    ensures
        r@ == ok_value(),
{
    json::with(json::empty_object(), "status", json::string("ok"))
}

/// A number that is not negative.
pub open spec fn natural(n: nat) -> JsonView {
    JsonView::Number(NumberView::Unsigned(n as u64))
}

/// A hit of a search, as it is shown: its content is cut to 2000 bytes.
pub open spec fn found_value(h: ShownHit) -> JsonView {
    JsonView::empty().with("memory_id"@, JsonView::Text(h.memory_id@)).with(
        "content"@,
        JsonView::Text(text::shortened(h.content@, 2000)),
    ).with("rrf_score"@, JsonView::Number(NumberView::Real(h.rrf_score@))).with(
        "source"@,
        JsonView::Text(h.source@),
    ).with("evolved_at"@, engine::text_or_null(text::opt_text(h.evolved_at))).with(
        "pending_evolution"@,
        JsonView::Bool(h.pending_evolution),
    )
}

/// The reply to a search: how many were found, and the first of them.
pub open spec fn search_value(hits: Seq<ShownHit>, max_results: nat) -> JsonView {
    ok_value().with("total_results"@, natural(hits.len())).with(
        "results"@,
        JsonView::Array(
            Seq::new(
                if hits.len() < max_results {
                    hits.len()
                } else {
                    max_results
                },
                |i: int| found_value(hits[i]),
            ),
        ),
    )
}

fn show_found(h: &ShownHit) -> (r: Json)
    ensures
        r@ == found_value(*h),
{
    let mut o = json::with(json::empty_object(), "memory_id", json::string(h.memory_id.as_str()));
    o = json::with(o, "content", json::string(text::truncate(h.content.as_str(), 2000).as_str()));
    o = json::with(o, "rrf_score", Json::Number(json::Number::Real(h.rrf_score.clone())));
    o = json::with(o, "source", json::string(h.source.as_str()));
    let evolved = match &h.evolved_at {
        Some(t) => json::string(t.as_str()),
        None => Json::Null,
    };
    o = json::with(o, "evolved_at", evolved);
    json::with(o, "pending_evolution", Json::Bool(h.pending_evolution))
}

/// The reply to a search.
pub fn search_reply(hits: &Vec<ShownHit>, max_results: u32) -> (r: String)
    ensures
        r@ == json::rendered(search_value(hits@, max_results as nat)),
{
    let n: usize = if hits.len() < max_results as usize {
        hits.len()
    } else {
        max_results as usize
    };
    let mut items: Vec<Json> = Vec::new();
    let mut i: usize = 0;
    while i < n
        invariant
            i <= n <= hits@.len(),
            items@.len() == i,
            forall|k: int| 0 <= k < i ==> (#[trigger] items@[k])@ == found_value(hits@[k]),
        decreases n - i,
    {
        items.push(show_found(&hits[i]));
        i += 1;
    }
    let list = Json::Array(items);
    assert(list@->Array_0 =~= Seq::new(n as nat, |i: int| found_value(hits@[i])));
    let mut o = json::with(ok_object(), "total_results", json::unsigned(hits.len() as u64));
    o = json::with(o, "results", list);
    json::render_json(&o)
}

/// A member of a row of the ledger, with the content cut.
pub open spec fn cut_member(m: (Seq<char>, JsonView), cut: JsonView) -> (Seq<char>, JsonView) {
    if m.0 == "content"@ {
        (m.0, cut)
    } else {
        m
    }
}

/// A row of the ledger, as it is shown: its content is cut to 2000 bytes, and empty
/// where it has none. What is no object is shown as it is.
pub open spec fn ledger_row(row: JsonView) -> JsonView {
    let cut = JsonView::Text(text::shortened(row.text_or("content"@, ""@), 2000));
    match row {
        JsonView::Object(o) => if row.member("content"@) is Some {
            JsonView::Object(Seq::new(o.len(), |i: int| cut_member(o[i], cut)))
        } else {
            row.with("content"@, cut)
        },
        _ => row,
    }
}

/// The reply to a search whose hits the ledger tells more of.
pub open spec fn ledger_value(rows: Seq<Json>, found: nat, max_results: nat) -> JsonView {
    ok_value().with("total_results"@, natural(found)).with(
        "results"@,
        JsonView::Array(
            Seq::new(
                if rows.len() < max_results {
                    rows.len()
                } else {
                    max_results
                },
                |i: int| ledger_row(rows[i]@),
            ),
        ),
    )
}

fn show_ledger_row(row: &Json) -> (r: Json)
    ensures
        r@ == ledger_row(row@),
{
    let cut = text::truncate(row.string_or("content", "").as_str(), 2000);
    match row {
        Json::Object(o) => {
            if row.get("content").is_none() {
                return json::with(row.copy(), "content", json::string(cut.as_str()));
            }
            let ghost shown = JsonView::Text(cut@);
            let mut out: Vec<(String, Json)> = Vec::new();
            let mut i: usize = 0;
            while i < o.len()
                invariant
                    i <= o@.len(),
                    *row == Json::Object(*o),
                    shown == JsonView::Text(cut@),
                    out@.len() == i,
                    forall|k: int|
                        0 <= k < i ==> ((#[trigger] out@[k]).0@, out@[k].1@) == cut_member(
                            (o@[k].0@, o@[k].1@),
                            shown,
                        ),
                decreases o@.len() - i,
            {
                let value = if text::same(o[i].0.as_str(), "content") {
                    json::string(cut.as_str())
                } else {
                    o[i].1.copy()
                };
                out.push((o[i].0.clone(), value));
                i += 1;
            }
            let r = Json::Object(out);
            assert(r@->Object_0 =~= ledger_row(row@)->Object_0);
            r
        },
        _ => row.copy(),
    }
}

/// The reply to a search whose hits the ledger tells more of: `found` memories were
/// found, and `rows` tell of them.
pub fn ledger_reply(rows: &Vec<Json>, found: u64, max_results: u32) -> (r: String)
    ensures
        r@ == json::rendered(ledger_value(rows@, found as nat, max_results as nat)),
{
    let n: usize = if rows.len() < max_results as usize {
        rows.len()
    } else {
        max_results as usize
    };
    let mut items: Vec<Json> = Vec::new();
    let mut i: usize = 0;
    while i < n
        invariant
            i <= n <= rows@.len(),
            items@.len() == i,
            forall|k: int| 0 <= k < i ==> (#[trigger] items@[k])@ == ledger_row(rows@[k]@),
        decreases n - i,
    {
        items.push(show_ledger_row(&rows[i]));
        i += 1;
    }
    let list = Json::Array(items);
    assert(list@->Array_0 =~= Seq::new(n as nat, |i: int| ledger_row(rows@[i]@)));
    let mut o = json::with(ok_object(), "total_results", json::unsigned(found));
    o = json::with(o, "results", list);
    json::render_json(&o)
}

/// The reply to a document that was stored.
pub open spec fn ingested_value(o: IngestOutcome) -> JsonView {
    ok_value().with("doc_id"@, JsonView::Text(o.doc_id@)).with(
        "namespace"@,
        JsonView::Text(o.namespace@),
    ).with("filename"@, JsonView::Text(o.filename@)).with("kind"@, JsonView::Text(o.kind@)).with(
        "raw_ref"@,
        JsonView::Text(o.raw_ref@),
    ).with("chars"@, natural(o.chars as nat)).with("chunk_count"@, natural(o.chunk_count as nat)).with(
        "manifest_id"@,
        JsonView::Text(o.manifest_id@),
    ).with("chunk_ids"@, json::text_array(text::texts(o.chunk_ids@)))
}

/// The reply to a document that was stored.
pub fn ingest_reply(o: &IngestOutcome) -> (r: String)
    ensures
        r@ == json::rendered(ingested_value(*o)),
{
    let mut v = json::with(ok_object(), "doc_id", json::string(o.doc_id.as_str()));
    v = json::with(v, "namespace", json::string(o.namespace.as_str()));
    v = json::with(v, "filename", json::string(o.filename.as_str()));
    v = json::with(v, "kind", json::string(o.kind.as_str()));
    v = json::with(v, "raw_ref", json::string(o.raw_ref.as_str()));
    v = json::with(v, "chars", json::unsigned(o.chars as u64));
    v = json::with(v, "chunk_count", json::unsigned(o.chunk_count as u64));
    v = json::with(v, "manifest_id", json::string(o.manifest_id.as_str()));
    v = json::with(v, "chunk_ids", json::string_array(&o.chunk_ids));
    json::render_json(&v)
}

/// What is told of one quota.
pub open spec fn quota_line(kind: Seq<char>, now: Moment, configured: Option<Seq<char>>, used: i64) -> JsonView {
    JsonView::empty().with("window"@, JsonView::Text(quota::window_of(kind, now))).with(
        "limit"@,
        natural(quota::limit_of(kind, configured)),
    ).with("used"@, engine::whole(used))
}

fn tell_quota(kind: &str, now: Moment, configured: Option<&str>, used: i64) -> (r: Json)
    requires
        now.valid(),
    ensures
        r@ == quota_line(kind@, now, text::opt_str(configured), used),
{
    let window = quota::quota_window_at(kind, now);
    let mut o = json::with(json::empty_object(), "window", json::string(window.as_str()));
    o = json::with(o, "limit", json::unsigned(quota::quota_limit(kind, configured)));
    json::with(o, "used", engine::whole_number(used))
}

/// What is set and what is used of a quota.
#[derive(Debug)]
pub struct Usage {
    pub configured: Option<String>,
    pub used: i64,
}

impl Usage {
    pub open spec fn line(&self, kind: Seq<char>, now: Moment) -> JsonView {
        quota_line(kind, now, text::opt_text(self.configured), self.used)
    }
}

fn usage_line(u: &Usage, kind: &str, now: Moment) -> (r: Json)
    requires
        now.valid(),
    ensures
        r@ == u.line(kind@, now),
{
    let configured = match &u.configured {
        Some(s) => Some(s.as_str()),
        None => None,
    };
    tell_quota(kind, now, configured, u.used)
}

/// What is told of all quotas of a namespace.
pub open spec fn quotas_value(
    ns: Seq<char>,
    now: Moment,
    write: Usage,
    search: Usage,
    profile: Usage,
    backup: Usage,
) -> JsonView {
    ok_value().with("namespace"@, JsonView::Text(ns)).with(
        "quotas"@,
        JsonView::empty().with("write"@, write.line(quota::KIND_WRITE@, now)).with(
            "search"@,
            search.line(quota::KIND_SEARCH@, now),
        ).with("profile"@, profile.line(quota::KIND_PROFILE@, now)).with(
            "backup"@,
            backup.line(quota::KIND_BACKUP@, now),
        ),
    )
}

/// What is told of all quotas of a namespace.
pub fn quota_status(
    ns: &str,
    now: Moment,
    write: &Usage,
    search: &Usage,
    profile: &Usage,
    backup: &Usage,
) -> (r: String)
    requires
        now.valid(),
    ensures
        r@ == json::rendered(quotas_value(ns@, now, *write, *search, *profile, *backup)),
{
    let mut q = json::with(
        json::empty_object(),
        "write",
        usage_line(write, quota::KIND_WRITE, now),
    );
    q = json::with(q, "search", usage_line(search, quota::KIND_SEARCH, now));
    q = json::with(q, "profile", usage_line(profile, quota::KIND_PROFILE, now));
    q = json::with(q, "backup", usage_line(backup, quota::KIND_BACKUP, now));
    let mut o = json::with(ok_object(), "namespace", json::string(ns));
    o = json::with(o, "quotas", q);
    json::render_json(&o)
}

/// The reply with what was exported.
pub open spec fn exported_value(ns: Seq<char>, jsonl: Seq<char>) -> JsonView {
    ok_value().with("namespace"@, JsonView::Text(ns)).with(
        "bytes"@,
        natural(encode_utf8(jsonl).len()),
    ).with("export"@, JsonView::Text(jsonl))
}

/// The reply with what was exported: one JSON value on each line. `bytes` is its
/// size.
pub fn export_reply(ns: &str, jsonl: &str) -> (r: String)
    ensures
        r@ == json::rendered(
            exported_value(ns@, jsonl@),
        ),
{
    let mut o = json::with(ok_object(), "namespace", json::string(ns));
    o = json::with(o, "bytes", json::unsigned(jsonl.as_bytes().len() as u64));
    o = json::with(o, "export", json::string(jsonl));
    json::render_json(&o)
}

/// The reply to an import.
pub open spec fn imported_value(
    ns: Seq<char>,
    inserted: u64,
    ignored: u64,
    errors: Seq<Seq<char>>,
) -> JsonView {
    ok_value().with("namespace"@, JsonView::Text(ns)).with(
        "inserted"@,
        JsonView::Number(NumberView::Unsigned(inserted)),
    ).with("ignored"@, JsonView::Number(NumberView::Unsigned(ignored))).with(
        "errors"@,
        json::text_array(errors),
    )
}

/// The reply to an import.
pub fn import_reply(ns: &str, inserted: u64, ignored: u64, errors: &Vec<String>) -> (r: String)
    ensures
        r@ == json::rendered(
            imported_value(ns@, inserted, ignored, text::texts(errors@)),
        ),
{
    let mut o = json::with(ok_object(), "namespace", json::string(ns));
    o = json::with(o, "inserted", json::unsigned(inserted));
    o = json::with(o, "ignored", json::unsigned(ignored));
    o = json::with(o, "errors", json::string_array(errors));
    json::render_json(&o)
}

/// The reply to a user who was registered.
pub open spec fn registered_value(agent_id: Seq<char>, namespace: Seq<char>) -> JsonView {
    JsonView::empty().with("status"@, JsonView::Text("registered"@)).with(
        "agent_id"@,
        JsonView::Text(agent_id),
    ).with("namespace"@, JsonView::Text(namespace))
}

/// The reply to a user who was registered.
pub fn registered_user_reply(agent_id: &str, namespace: &str) -> (r: String)
    ensures
        r@ == json::rendered(
            registered_value(agent_id@, namespace@),
        ),
{
    let mut o = json::with(json::empty_object(), "status", json::string("registered"));
    o = json::with(o, "agent_id", json::string(agent_id));
    o = json::with(o, "namespace", json::string(namespace));
    json::render_json(&o)
}

/// The reply to a user who logged in.
pub open spec fn login_value(
    agent_id: Seq<char>,
    display_name: Seq<char>,
    namespace: Seq<char>,
    badge_token: Seq<char>,
) -> JsonView {
    ok_value().with("agent_id"@, JsonView::Text(agent_id)).with(
        "display_name"@,
        JsonView::Text(display_name),
    ).with("namespace"@, JsonView::Text(namespace)).with("badge_token"@, JsonView::Text(badge_token))
}

/// The reply to a user who logged in.
pub fn login_reply(agent_id: &str, display_name: &str, namespace: &str, badge_token: &str) -> (r:
    String)
    ensures
        r@ == json::rendered(
            login_value(agent_id@, display_name@, namespace@, badge_token@),
        ),
{
    let mut o = json::with(ok_object(), "agent_id", json::string(agent_id));
    o = json::with(o, "display_name", json::string(display_name));
    o = json::with(o, "namespace", json::string(namespace));
    o = json::with(o, "badge_token", json::string(badge_token));
    json::render_json(&o)
}

/// The reply to moving what belongs to a namespace.
pub fn moved_reply(memories: u64, relations: u64, prefs: u64) -> (r: String)
    ensures
        r@ == "{\"status\":\"ok\",\"memories_moved\":"@ + text::dec(memories as nat)
            + ",\"relations_moved\":"@ + text::dec(relations as nat) + ",\"prefs_moved\":"@
            + text::dec(prefs as nat) + "}"@,
{
    let mut s = text::cat5(
        "{\"status\":\"ok\",\"memories_moved\":",
        text::decimal(memories).as_str(),
        ",\"relations_moved\":",
        text::decimal(relations).as_str(),
        ",\"prefs_moved\":",
    );
    s.append(text::decimal(prefs).as_str());
    s.append("}");
    s
}

/// The questions to the first `n` tables of the audit log.
pub open spec fn audit_selects(tables: Seq<Seq<char>>) -> Seq<Seq<char>> {
    Seq::new(
        tables.len(),
        |i: int| "SELECT agent_id, tool, params, allowed, timestamp FROM "@ + tables[i],
    )
}

/// The condition on the entries of the audit log that are asked for: those of one
/// agent, or all.
pub open spec fn audit_condition(of_one: bool) -> Seq<char> {
    if of_one {
        " WHERE agent_id = ?"@
    } else {
        ""@
    }
}

/// The question to all tables of the audit log together, for the entries of one agent
/// or for all, the latest first; none where there is no table. Where one agent is asked
/// for, its id is the first argument of the statement; the number of entries is the
/// last.
pub fn audit_query_sql(tables: &Vec<String>, of_one: bool) -> (r: Option<String>)
    ensures
        text::opt_text(r) == (if tables@.len() == 0 {
            None
        } else {
            Some(
                "SELECT * FROM ("@ + text::joined(
                    audit_selects(text::texts(tables@)),
                    " UNION ALL "@,
                ) + ") AS all_logs"@ + audit_condition(of_one)
                    + " ORDER BY timestamp DESC LIMIT ?"@,
            )
        }),
{
    if tables.len() == 0 {
        return None;
    }
    let mut parts: Vec<String> = Vec::new();
    let mut i: usize = 0;
    while i < tables.len()
        invariant
            i <= tables@.len(),
            parts@.len() == i,
            forall|k: int|
                0 <= k < i ==> (#[trigger] parts@[k])@ == audit_selects(text::texts(tables@))[k],
        decreases tables@.len() - i,
    {
        parts.push(
            text::cat(
                "SELECT agent_id, tool, params, allowed, timestamp FROM ",
                tables[i].as_str(),
            ),
        );
        i += 1;
    }
    assert(text::texts(parts@) =~= audit_selects(text::texts(tables@)));
    Some(
        text::cat5(
            "SELECT * FROM (",
            text::join(&parts, " UNION ALL ").as_str(),
            ") AS all_logs",
            if of_one {
                " WHERE agent_id = ?"
            } else {
                ""
            },
            " ORDER BY timestamp DESC LIMIT ?",
        ),
    )
}

/// Lists that are shown.
#[derive(Debug, Clone, Copy, PartialEq, Eq, Structural)]
pub enum Listing {
    Audit,
    Messages,
    Agents,
    SkillHits,
    InstalledSkills,
    Prefs,
    Decisions,
    /// Memories that have not been consolidated; these are counted.
    Unconsolidated,
}

/// Under which key a list is shown.
pub open spec fn listing_key(l: Listing) -> Seq<char> {
    match l {
        Listing::Audit => "logs"@,
        Listing::Messages => "messages"@,
        Listing::Agents => "agents"@,
        Listing::SkillHits => "results"@,
        Listing::InstalledSkills => "skills"@,
        Listing::Prefs => "prefs"@,
        Listing::Decisions => "decisions"@,
        Listing::Unconsolidated => "items"@,
    }
}

/// The names of the columns of a list.
pub open spec fn listing_columns(l: Listing) -> Seq<Seq<char>> {
    match l {
        Listing::Audit => Seq::empty().push("agent_id"@).push("tool"@).push("params"@).push(
            "allowed"@,
        ).push("timestamp"@),
        Listing::Messages => Seq::empty().push("id"@).push("from"@).push("content"@).push("time"@),
        Listing::Agents => Seq::empty().push("agent_id"@).push("display_name"@).push(
            "namespace"@,
        ).push("permission"@).push("registered_at"@),
        Listing::SkillHits => Seq::empty().push("name"@).push("description"@).push("version"@).push(
            "author"@,
        ).push("category"@).push("confidence"@).push("install_count"@).push("visibility"@),
        Listing::InstalledSkills => Seq::empty().push("skill_name"@).push("installed_at"@).push(
            "installed_by"@,
        ),
        Listing::Prefs => Seq::empty().push("key"@).push("value"@).push("importance"@).push(
            "tag"@,
        ).push("confidence"@).push("created_at"@),
        Listing::Decisions => Seq::empty().push("id"@).push("content"@).push("time"@),
        Listing::Unconsolidated => Seq::empty().push("id"@).push("content"@).push("category"@).push(
            "created_at"@,
        ),
    }
}

fn key_of(l: Listing) -> (r: &'static str)
    ensures
        r@ == listing_key(l),
{
    match l {
        Listing::Audit => "logs",
        Listing::Messages => "messages",
        Listing::Agents => "agents",
        Listing::SkillHits => "results",
        Listing::InstalledSkills => "skills",
        Listing::Prefs => "prefs",
        Listing::Decisions => "decisions",
        Listing::Unconsolidated => "items",
    }
}

/// The names of the columns of a list.
pub fn columns_of(l: Listing) -> (r: Vec<String>)
    ensures
        text::texts(r@) == listing_columns(l),
{
    let mut v: Vec<String> = Vec::new();
    match l {
        Listing::Audit => {
            v.push("agent_id".to_string());
            v.push("tool".to_string());
            v.push("params".to_string());
            v.push("allowed".to_string());
            v.push("timestamp".to_string());
        },
        Listing::Messages => {
            v.push("id".to_string());
            v.push("from".to_string());
            v.push("content".to_string());
            v.push("time".to_string());
        },
        Listing::Agents => {
            v.push("agent_id".to_string());
            v.push("display_name".to_string());
            v.push("namespace".to_string());
            v.push("permission".to_string());
            v.push("registered_at".to_string());
        },
        Listing::SkillHits => {
            v.push("name".to_string());
            v.push("description".to_string());
            v.push("version".to_string());
            v.push("author".to_string());
            v.push("category".to_string());
            v.push("confidence".to_string());
            v.push("install_count".to_string());
            v.push("visibility".to_string());
        },
        Listing::InstalledSkills => {
            v.push("skill_name".to_string());
            v.push("installed_at".to_string());
            v.push("installed_by".to_string());
        },
        Listing::Prefs => {
            v.push("key".to_string());
            v.push("value".to_string());
            v.push("importance".to_string());
            v.push("tag".to_string());
            v.push("confidence".to_string());
            v.push("created_at".to_string());
        },
        Listing::Decisions => {
            v.push("id".to_string());
            v.push("content".to_string());
            v.push("time".to_string());
        },
        Listing::Unconsolidated => {
            v.push("id".to_string());
            v.push("content".to_string());
            v.push("category".to_string());
            v.push("created_at".to_string());
        },
    }
    assert(text::texts(v@) =~= listing_columns(l));
    v
}

/// A row with its first `n` values under the names of the columns; a value that is
/// missing is null.
pub open spec fn row_value(columns: Seq<Seq<char>>, row: Seq<Json>, n: int) -> JsonView
    decreases n,
{
    if n <= 0 {
        JsonView::empty()
    } else {
        row_value(columns, row, n - 1).with(
            columns[n - 1],
            if n - 1 < row.len() {
                row[n - 1]@
            } else {
                JsonView::Null
            },
        )
    }
}

/// The reply with a list.
pub open spec fn list_value(l: Listing, rows: Seq<Vec<Json>>) -> JsonView {
    let columns = listing_columns(l);
    let items = JsonView::Array(
        Seq::new(rows.len(), |i: int| row_value(columns, rows[i]@, columns.len() as int)),
    );
    if l == Listing::Unconsolidated {
        ok_value().with("count"@, natural(rows.len())).with(listing_key(l), items)
    } else {
        ok_value().with(listing_key(l), items)
    }
}

fn show_row(columns: &Vec<String>, row: &Vec<Json>) -> (r: Json)
    ensures
        r@ == row_value(text::texts(columns@), row@, columns@.len() as int),
{
    let mut o = json::empty_object();
    let mut i: usize = 0;
    while i < columns.len()
        invariant
            i <= columns@.len(),
            o@ is Object,
            o@ == row_value(text::texts(columns@), row@, i as int),
        decreases columns@.len() - i,
    {
        let value = if i < row.len() {
            row[i].copy()
        } else {
            Json::Null
        };
        assert(columns@[i as int]@ == text::texts(columns@)[i as int]);
        o = json::with(o, columns[i].as_str(), value);
        i += 1;
    }
    o
}

/// The reply with a list.
pub fn list_reply(l: Listing, rows: &Vec<Vec<Json>>) -> (r: String)
    ensures
        r@ == json::rendered(list_value(l, rows@)),
{
    let columns = columns_of(l);
    let ghost c = listing_columns(l);
    assert(columns@.len() == text::texts(columns@).len());
    let mut items: Vec<Json> = Vec::new();
    let mut i: usize = 0;
    while i < rows.len()
        invariant
            i <= rows@.len(),
            c == text::texts(columns@),
            columns@.len() == c.len(),
            items@.len() == i,
            forall|k: int|
                0 <= k < i ==> (#[trigger] items@[k])@ == row_value(c, rows@[k]@, c.len() as int),
        decreases rows@.len() - i,
    {
        items.push(show_row(&columns, &rows[i]));
        i += 1;
    }
    let list = Json::Array(items);
    assert(list@->Array_0 =~= Seq::new(
        rows@.len(),
        |i: int| row_value(c, rows@[i]@, c.len() as int),
    ));
    let o = match l {
        Listing::Unconsolidated => json::with(
            json::with(ok_object(), "count", json::unsigned(rows.len() as u64)),
            key_of(l),
            list,
        ),
        _ => json::with(ok_object(), key_of(l), list),
    };
    json::render_json(&o)
}

/// A preference is shown: it has the tag that is asked for, or none is.
pub fn pref_shown(tag: &str, wanted: Option<&str>) -> (r: bool)
    ensures
        r == (wanted is None || wanted->0@ == tag@),
{
    match wanted {
        Some(w) => text::same(w, tag),
        None => true,
    }
}

/// What is told of the whole database.
pub open spec fn database_value(
    counts: Seq<i64>,
    agents: i64,
    audit: i64,
    vectors: u64,
) -> JsonView {
    ok_value().with(
        "stats"@,
        engine::table_counts(
            health::core_tables(),
            counts,
            health::core_tables().len() as int,
        ).with("agent_registry"@, engine::whole(agents)).with(
            "audit_log_total"@,
            engine::whole(audit),
        ).with("hnsw_vectors"@, JsonView::Number(NumberView::Unsigned(vectors))),
    )
}

/// What is told of the whole database: the rows of its tables, of the registry and
/// of the audit log, and the vectors.
pub fn database_reply(counts: &Vec<i64>, agents: i64, audit: i64, vectors: u64) -> (r: String)
    ensures
        r@ == json::rendered(database_value(counts@, agents, audit, vectors)),
{
    let mut s = engine::count_tables(counts);
    s = json::with(s, "agent_registry", engine::whole_number(agents));
    s = json::with(s, "audit_log_total", engine::whole_number(audit));
    s = json::with(s, "hnsw_vectors", json::unsigned(vectors));
    json::render_json(&json::with(ok_object(), "stats", s))
}

/// The reply to a message that was kept.
pub fn observed_reply(id: &str) -> (r: String)
    ensures
        r@ == "{\"status\":\"observed\",\"id\":\""@ + id@ + "\"}"@,
{
    text::cat3("{\"status\":\"observed\",\"id\":\"", id, "\"}")
}

/// The reply to a message that was sent.
pub fn sent_reply(to: &str) -> (r: String)
    ensures
        r@ == "{\"status\":\"sent\",\"to\":\""@ + to@ + "\"}"@,
{
    text::cat3("{\"status\":\"sent\",\"to\":\"", to, "\"}")
}

/// The reply to a badge that was ended.
pub fn revoked_reply(agent_id: &str, deleted: u64) -> (r: String)
    ensures
        r@ == "{\"status\":\"revoked\",\"agent_id\":\""@ + agent_id@ + "\",\"deleted\":"@
            + text::dec(deleted as nat) + "}"@,
{
    text::cat5(
        "{\"status\":\"revoked\",\"agent_id\":\"",
        agent_id,
        "\",\"deleted\":",
        text::decimal(deleted).as_str(),
        "}",
    )
}

/// The reply about a skill that is not there.
pub fn skill_missing_reply(name: &str) -> (r: String)
    ensures
        r@ == "{\"status\":\"error\",\"message\":\"skill '"@ + name@ + "' not found\"}"@,
{
    text::cat3("{\"status\":\"error\",\"message\":\"skill '", name, "' not found\"}")
}

/// The reply to a skill that was published.
pub fn published_reply(name: &str, visibility: &str) -> (r: String)
    ensures
        r@ == "{\"status\":\"published\",\"name\":\""@ + name@ + "\",\"visibility\":\""@
            + visibility@ + "\"}"@,
{
    text::cat5(
        "{\"status\":\"published\",\"name\":\"",
        name,
        "\",\"visibility\":\"",
        visibility,
        "\"}",
    )
}

/// What the audit log says of a skill that was published.
pub fn published_note(name: &str, visibility: &str) -> (r: String)
    ensures
        r@ == "name="@ + name@ + ",visibility="@ + visibility@,
{
    let mut s = text::cat3("name=", name, ",visibility=");
    s.append(visibility);
    s
}

/// The reply to a skill that was installed.
pub fn installed_reply(skill: &str, target: &str) -> (r: String)
    ensures
        r@ == "{\"status\":\"installed\",\"skill\":\""@ + skill@ + "\",\"target_agent\":\""@
            + target@ + "\"}"@,
{
    text::cat5(
        "{\"status\":\"installed\",\"skill\":\"",
        skill,
        "\",\"target_agent\":\"",
        target,
        "\"}",
    )
}

/// What the audit log says of a skill that was installed.
pub fn installed_note(skill: &str, target: &str) -> (r: String)
    ensures
        r@ == "skill="@ + skill@ + ",target="@ + target@,
{
    let mut s = text::cat3("skill=", skill, ",target=");
    s.append(target);
    s
}

/// The reply to letting memories fade.
pub fn decayed_reply(processed: u64, cold: u64) -> (r: String)
    ensures
        r@ == "{\"status\":\"ok\",\"processed\":"@ + text::dec(processed as nat) + ",\"cold\":"@
            + text::dec(cold as nat) + "}"@,
{
    text::cat5(
        "{\"status\":\"ok\",\"processed\":",
        text::decimal(processed).as_str(),
        ",\"cold\":",
        text::decimal(cold).as_str(),
        "}",
    )
}

/// The reply to building the graph.
pub fn graph_reply(nodes: u64, edges: u64) -> (r: String)
    ensures
        r@ == "{\"status\":\"ok\",\"nodes\":"@ + text::dec(nodes as nat) + ",\"edges\":"@
            + text::dec(edges as nat) + "}"@,
{
    text::cat5(
        "{\"status\":\"ok\",\"nodes\":",
        text::decimal(nodes).as_str(),
        ",\"edges\":",
        text::decimal(edges).as_str(),
        "}",
    )
}

/// The reply to joining two memories.
pub fn merged_reply(keep: &str, merged: &str) -> (r: String)
    ensures
        r@ == "{\"status\":\"merged\",\"keep\":\""@ + keep@ + "\",\"merged\":\""@ + merged@
            + "\"}"@,
{
    text::cat5("{\"status\":\"merged\",\"keep\":\"", keep, "\",\"merged\":\"", merged, "\"}")
}

/// A truth in words.
pub open spec fn truth_word(b: bool) -> Seq<char> {
    if b {
        "true"@
    } else {
        "false"@
    }
}

/// The reply to a backup. Its size is in whole megabytes.
pub fn backup_reply(b: &crate::backup::BackupResult) -> (r: String)
    ensures
        r@ == "{\"status\":\"ok\",\"backup_path\":\""@ + b.backup_path@ + "\",\"size_mb\":"@
            + text::dec((b.db_size_bytes / 1048576) as nat) + ",\"integrity_ok\":"@ + truth_word(
            b.integrity_ok,
        ) + ",\"rotation_deleted\":"@ + text::dec(b.rotation_deleted as nat) + ",\"tier\":\""@
            + b.tier@ + "\"}"@,
{
    let sound = if b.integrity_ok {
        "true"
    } else {
        "false"
    };
    let mut s = text::cat5(
        "{\"status\":\"ok\",\"backup_path\":\"",
        b.backup_path.as_str(),
        "\",\"size_mb\":",
        text::decimal(b.db_size_bytes / 1048576).as_str(),
        ",\"integrity_ok\":",
    );
    s.append(sound);
    s.append(",\"rotation_deleted\":");
    s.append(text::decimal(b.rotation_deleted as u64).as_str());
    s.append(",\"tier\":\"");
    s.append(b.tier.as_str());
    s.append("\"}");
    s
}

/// What is told of a phase that runs by night. One that has not run yet begins at
/// the beginning.
pub open spec fn dream_value(
    phase: Seq<char>,
    ns: Seq<char>,
    last_run: Option<Seq<char>>,
    cursor: Option<Seq<char>>,
    runs: i64,
    items_out: i64,
) -> JsonView {
    ok_value().with("phase"@, JsonView::Text(phase)).with("namespace"@, JsonView::Text(ns)).with(
        "last_run"@,
        engine::text_or_null(last_run),
    ).with(
        "cursor_ts"@,
        JsonView::Text(
            match cursor {
                Some(c) => c,
                None => "1970-01-01"@,
            },
        ),
    ).with("runs"@, engine::whole(runs)).with("items_out"@, engine::whole(items_out))
}

/// A phase as it stands in the database.
#[derive(Debug)]
pub struct DreamRow {
    pub last_run: Option<String>,
    pub cursor_ts: Option<String>,
    pub runs: i64,
    pub items_out: i64,
}

/// What is told of a phase that runs by night. `row` is none where it has not run
/// yet.
pub fn dream_reply(phase: &str, ns: &str, row: Option<&DreamRow>) -> (r: String)
    ensures
        r@ == json::rendered(
            match row {
                Some(d) => dream_value(
                    phase@,
                    ns@,
                    text::opt_text(d.last_run),
                    text::opt_text(d.cursor_ts),
                    d.runs,
                    d.items_out,
                ),
                None => dream_value(phase@, ns@, None, None, 0, 0),
            },
        ),
{
    let mut o = json::with(ok_object(), "phase", json::string(phase));
    o = json::with(o, "namespace", json::string(ns));
    let last_run = match row {
        Some(d) => match &d.last_run {
            Some(t) => json::string(t.as_str()),
            None => Json::Null,
        },
        None => Json::Null,
    };
    o = json::with(o, "last_run", last_run);
    let cursor = match row {
        Some(d) => match &d.cursor_ts {
            Some(t) => json::string(t.as_str()),
            None => json::string("1970-01-01"),
        },
        None => json::string("1970-01-01"),
    };
    o = json::with(o, "cursor_ts", cursor);
    let (runs, items_out): (i64, i64) = match row {
        Some(d) => (d.runs, d.items_out),
        None => (0, 0),
    };
    o = json::with(o, "runs", engine::whole_number(runs));
    o = json::with(o, "items_out", engine::whole_number(items_out));
    json::render_json(&o)
}

/// The reply to moving the cursor of a phase on.
pub open spec fn dream_moved_value(phase: Seq<char>, ns: Seq<char>, cursor: Seq<char>) -> JsonView {
    ok_value().with("phase"@, JsonView::Text(phase)).with("namespace"@, JsonView::Text(ns)).with(
        "cursor_ts"@,
        JsonView::Text(cursor),
    ).with("runs"@, JsonView::Text("(incremented)"@)).with(
        "items_out"@,
        JsonView::Text("(accumulated)"@),
    )
}

/// The reply to moving the cursor of a phase on.
pub fn dream_moved_reply(phase: &str, ns: &str, cursor: &str) -> (r: String)
    ensures
        r@ == json::rendered(
            dream_moved_value(phase@, ns@, cursor@),
        ),
{
    let mut o = json::with(ok_object(), "phase", json::string(phase));
    o = json::with(o, "namespace", json::string(ns));
    o = json::with(o, "cursor_ts", json::string(cursor));
    o = json::with(o, "runs", json::string("(incremented)"));
    o = json::with(o, "items_out", json::string("(accumulated)"));
    json::render_json(&o)
}

/// The reply to a thing that was written.
pub fn entity_reply(entity_id: &str) -> (r: String)
    ensures
        r@ == json::rendered(ok_value().with("entity_id"@, JsonView::Text(entity_id@))),
{
    json::render_json(&json::with(ok_object(), "entity_id", json::string(entity_id)))
}

/// The reply that says no more than that all went well.
pub fn plain_ok_reply() -> (r: String)
    ensures
        r@ == json::rendered(ok_value()),
{
    json::render_json(&ok_object())
}

/// The reply to clearing the registry.
pub open spec fn cleaned_value(ids: Seq<Seq<char>>) -> JsonView {
    JsonView::empty().with("status"@, JsonView::Text("cleaned"@)).with(
        "removed"@,
        natural(ids.len()),
    ).with("removed_ids"@, json::text_array(ids))
}

/// The reply to clearing the registry.
pub fn cleaned_reply(ids: &Vec<String>) -> (r: String)
    ensures
        r@ == json::rendered(
            cleaned_value(text::texts(ids@)),
        ),
{
    let mut o = json::with(json::empty_object(), "status", json::string("cleaned"));
    o = json::with(o, "removed", json::unsigned(ids.len() as u64));
    o = json::with(o, "removed_ids", json::string_array(ids));
    json::render_json(&o)
}

/// The reply with an error of the connection.
pub fn pool_error(e: &str) -> (r: String)
    ensures
        r@ == "{\"error\":\"pool: "@ + e@ + "\"}"@,
{
    text::cat3("{\"error\":\"pool: ", e, "\"}")
}

/// The reply with an error and nothing else.
pub fn bare_error(e: &str) -> (r: String)
    ensures
        r@ == "{\"error\":\""@ + e@ + "\"}"@,
{
    text::cat3("{\"error\":\"", e, "\"}")
}

/// The request that hands a call on to the bridge.
pub open spec fn bridge_value(tool: Seq<char>, args: JsonView) -> JsonView {
    JsonView::empty().with("jsonrpc"@, JsonView::Text("2.0"@)).with(
        "id"@,
        JsonView::Number(NumberView::Unsigned(1)),
    ).with("method"@, JsonView::Text("tools/call"@)).with(
        "params"@,
        JsonView::empty().with("name"@, JsonView::Text(tool)).with("arguments"@, args),
    )
}

/// The request that hands a call on to the bridge.
pub fn bridge_request(tool: &str, args: &Json) -> (r: Json)
    ensures
        r@ == bridge_value(tool@, args@),
{
    let mut p = json::with(json::empty_object(), "name", json::string(tool));
    p = json::with(p, "arguments", args.copy());
    let mut o = json::with(json::empty_object(), "jsonrpc", json::string("2.0"));
    o = json::with(o, "id", json::unsigned(1));
    o = json::with(o, "method", json::string("tools/call"));
    json::with(o, "params", p)
}

/// What the bridge answered.
#[derive(Debug)]
pub enum BridgeAnswer {
    Value(Json),
    /// It is no JSON.
    Garbled(String),
    Unreachable(String),
}

/// The reply to a call that was handed on to the bridge.
pub fn forward_to_bridge(url: &str, answer: &BridgeAnswer) -> (r: String)
    ensures
        r@ == (match answer {
            BridgeAnswer::Value(v) => match v@.member("result"@) {
                Some(x) => json::rendered(x),
                None => "{\"error\":\"empty bridge response\"}"@,
            },
            BridgeAnswer::Garbled(e) => "{\"error\":\"bridge parse: "@ + e@ + "\"}"@,
            BridgeAnswer::Unreachable(e) => "{\"error\":\"bridge unreachable ("@ + url@ + "): "@
                + e@ + "\"}"@,
        }),
{
    match answer {
        BridgeAnswer::Value(v) => match v.get("result") {
            Some(x) => json::render_json(x),
            None => "{\"error\":\"empty bridge response\"}".to_string(),
        },
        BridgeAnswer::Garbled(e) => text::cat3("{\"error\":\"bridge parse: ", e.as_str(), "\"}"),
        BridgeAnswer::Unreachable(e) => text::cat5(
            "{\"error\":\"bridge unreachable (",
            url,
            "): ",
            e.as_str(),
            "\"}",
        ),
    }
}

/// The first check of this name, from position `i` on.
pub open spec fn check_named(checks: Seq<CheckResult>, name: Seq<char>, i: int) -> Option<int>
    decreases checks.len() - i,
{
    if i < 0 || i >= checks.len() {
        None
    } else if checks[i].name@ == name {
        Some(i)
    } else {
        check_named(checks, name, i + 1)
    }
}

/// Finds the check of the embedding service.
pub fn embedding_check(checks: &Vec<CheckResult>) -> (r: Option<&CheckResult>)
    ensures
        match check_named(checks@, "embedding"@, 0) {
            Some(i) => 0 <= i < checks@.len() && r == Some(&checks@[i]),
            None => r is None,
        },
{
    let mut i: usize = 0;
    while i < checks.len()
        invariant
            i <= checks@.len(),
            check_named(checks@, "embedding"@, 0) == check_named(
                checks@,
                "embedding"@,
                i as int,
            ),
        decreases checks@.len() - i,
    {
        if text::same(checks[i].name.as_str(), "embedding") {
            return Some(&checks[i]);
        }
        i += 1;
    }
    None
}

/// A hit is shown with its own id, score, origin and marks, each under its name.
pub proof fn law_hits_are_shown_by_name(h: ShownHit)
    ensures
        found_value(h).member("memory_id"@) == Some(JsonView::Text(h.memory_id@)),
        found_value(h).member("content"@) == Some(JsonView::Text(text::shortened(h.content@, 2000))),
        found_value(h).member("rrf_score"@) == Some(JsonView::Number(NumberView::Real(h.rrf_score@))),
        found_value(h).member("source"@) == Some(JsonView::Text(h.source@)),
        found_value(h).member("evolved_at"@) == Some(match h.evolved_at {
            Some(e) => JsonView::Text(e@),
            None => JsonView::Null,
        }),
        found_value(h).member("pending_evolution"@) == Some(JsonView::Bool(h.pending_evolution)),
{
    json::lemma_chains();
    reveal_strlit("memory_id");
    reveal_strlit("content");
    reveal_strlit("rrf_score");
    reveal_strlit("source");
    reveal_strlit("evolved_at");
    reveal_strlit("pending_evolution");
    assert("memory_id"@.len() == 9 && "content"@.len() == 7 && "rrf_score"@.len() == 9 && "source"@.len() == 6 && "evolved_at"@.len() == 10 && "pending_evolution"@.len() == 17);
    assert("rrf_score"@[0] == 'r' && "memory_id"@[0] == 'm');
}

/// The reply to a search tells how many memories were found, and shows the first of them in
/// their order, as many as were asked for.
pub proof fn law_search_replies_show_the_first(hits: Seq<ShownHit>, max_results: nat, i: int)
    ensures
        search_value(hits, max_results).member("status"@) == Some(JsonView::Text("ok"@)),
        search_value(hits, max_results).member("total_results"@) == Some(natural(hits.len())),
        search_value(hits, max_results).member("results"@) matches Some(JsonView::Array(a)) && {
            &&& a.len() <= hits.len() && a.len() <= max_results
            &&& a.len() == hits.len() || a.len() == max_results
            &&& 0 <= i < a.len() ==> a[i] == found_value(hits[i])
        },
{
    json::lemma_chains();
    reveal_strlit("status");
    reveal_strlit("total_results");
    reveal_strlit("results");
    assert("status"@.len() == 6 && "total_results"@.len() == 13 && "results"@.len() == 7);
}

/// A stored document is told of with its own id, place, name, kind and pieces.
pub proof fn law_ingests_are_told_by_name(o: IngestOutcome)
    ensures
        ingested_value(o).member("status"@) == Some(JsonView::Text("ok"@)),
        ingested_value(o).member("doc_id"@) == Some(JsonView::Text(o.doc_id@)),
        ingested_value(o).member("namespace"@) == Some(JsonView::Text(o.namespace@)),
        ingested_value(o).member("filename"@) == Some(JsonView::Text(o.filename@)),
        ingested_value(o).member("kind"@) == Some(JsonView::Text(o.kind@)),
        ingested_value(o).member("raw_ref"@) == Some(JsonView::Text(o.raw_ref@)),
        ingested_value(o).member("chars"@) == Some(natural(o.chars as nat)),
        ingested_value(o).member("chunk_count"@) == Some(natural(o.chunk_count as nat)),
        ingested_value(o).member("manifest_id"@) == Some(JsonView::Text(o.manifest_id@)),
        ingested_value(o).member("chunk_ids"@) == Some(json::text_array(text::texts(o.chunk_ids@))),
{
    json::lemma_chains();
    reveal_strlit("status");
    reveal_strlit("doc_id");
    reveal_strlit("namespace");
    reveal_strlit("filename");
    reveal_strlit("kind");
    reveal_strlit("raw_ref");
    reveal_strlit("chars");
    reveal_strlit("chunk_count");
    reveal_strlit("manifest_id");
    reveal_strlit("chunk_ids");
    assert("status"@.len() == 6 && "doc_id"@.len() == 6 && "namespace"@.len() == 9 && "filename"@.len() == 8 && "kind"@.len() == 4 && "raw_ref"@.len() == 7 && "chars"@.len() == 5 && "chunk_count"@.len() == 11 && "manifest_id"@.len() == 11 && "chunk_ids"@.len() == 9);
    assert("doc_id"@[0] == 'd' && "status"@[0] == 's' && "manifest_id"@[0] == 'm' && "chunk_count"@[0] == 'c' && "chunk_ids"@[0] == 'c' && "namespace"@[0] == 'n');
}

/// Each quota is told of under the name of its kind, with its own window, limit and use.
pub proof fn law_quotas_are_told_by_kind(
    ns: Seq<char>,
    now: Moment,
    write: Usage,
    search: Usage,
    profile: Usage,
    backup: Usage,
)
    ensures
        ({
            let v = quotas_value(ns, now, write, search, profile, backup);
            &&& v.member("status"@) == Some(JsonView::Text("ok"@))
            &&& v.member("namespace"@) == Some(JsonView::Text(ns))
            &&& v.member("quotas"@) matches Some(q) && {
                &&& q.member("write"@) == Some(write.line("write"@, now))
                &&& q.member("search"@) == Some(search.line("search"@, now))
                &&& q.member("profile"@) == Some(profile.line("profile"@, now))
                &&& q.member("backup"@) == Some(backup.line("backup"@, now))
            }
        }),
        write.line("write"@, now).member("window"@) == Some(
            JsonView::Text(quota::window_of("write"@, now)),
        ),
        write.line("write"@, now).member("limit"@) == Some(
            natural(quota::limit_of("write"@, text::opt_text(write.configured))),
        ),
        write.line("write"@, now).member("used"@) == Some(engine::whole(write.used)),
{
    json::lemma_chains();
    reveal_strlit("status");
    reveal_strlit("namespace");
    reveal_strlit("quotas");
    assert("status"@.len() == 6 && "namespace"@.len() == 9 && "quotas"@.len() == 6);
    assert("quotas"@[0] == 'q' && "status"@[0] == 's');
    reveal_strlit("write");
    reveal_strlit("search");
    reveal_strlit("profile");
    reveal_strlit("backup");
    assert("write"@.len() == 5 && "search"@.len() == 6 && "profile"@.len() == 7 && "backup"@.len() == 6);
    assert("backup"@[0] == 'b' && "search"@[0] == 's');
    reveal_strlit("window");
    reveal_strlit("limit");
    reveal_strlit("used");
    assert("window"@.len() == 6 && "limit"@.len() == 5 && "used"@.len() == 4);
}

/// An import tells what was taken in and what was left out, each under its name.
pub proof fn law_imports_are_told_by_name(ns: Seq<char>, inserted: u64, ignored: u64, errors: Seq<Seq<char>>)
    ensures
        imported_value(ns, inserted, ignored, errors).member("status"@) == Some(JsonView::Text("ok"@)),
        imported_value(ns, inserted, ignored, errors).member("namespace"@) == Some(JsonView::Text(ns)),
        imported_value(ns, inserted, ignored, errors).member("inserted"@) == Some(JsonView::Number(NumberView::Unsigned(inserted))),
        imported_value(ns, inserted, ignored, errors).member("ignored"@) == Some(JsonView::Number(NumberView::Unsigned(ignored))),
        imported_value(ns, inserted, ignored, errors).member("errors"@) == Some(json::text_array(errors)),
{
    json::lemma_chains();
    reveal_strlit("status");
    reveal_strlit("namespace");
    reveal_strlit("inserted");
    reveal_strlit("ignored");
    reveal_strlit("errors");
    assert("status"@.len() == 6 && "namespace"@.len() == 9 && "inserted"@.len() == 8 && "ignored"@.len() == 7 && "errors"@.len() == 6);
    assert("errors"@[0] == 'e' && "status"@[0] == 's');
}

/// An export holds what was exported and its size in bytes.
pub proof fn law_exports_hold_the_text(ns: Seq<char>, jsonl: Seq<char>)
    ensures
        exported_value(ns, jsonl).member("status"@) == Some(JsonView::Text("ok"@)),
        exported_value(ns, jsonl).member("namespace"@) == Some(JsonView::Text(ns)),
        exported_value(ns, jsonl).member("bytes"@) == Some(natural(encode_utf8(jsonl).len())),
        exported_value(ns, jsonl).member("export"@) == Some(JsonView::Text(jsonl)),
{
    json::lemma_chains();
    reveal_strlit("status");
    reveal_strlit("namespace");
    reveal_strlit("bytes");
    reveal_strlit("export");
    assert("status"@.len() == 6 && "namespace"@.len() == 9 && "bytes"@.len() == 5 && "export"@.len() == 6);
    assert("export"@[0] == 'e' && "status"@[0] == 's');
}

/// Who is registered is told the agent and the namespace.
pub proof fn law_registrations_are_told_by_name(agent_id: Seq<char>, namespace: Seq<char>)
    ensures
        registered_value(agent_id, namespace).member("status"@) == Some(JsonView::Text("registered"@)),
        registered_value(agent_id, namespace).member("agent_id"@) == Some(JsonView::Text(agent_id)),
        registered_value(agent_id, namespace).member("namespace"@) == Some(JsonView::Text(namespace)),
{
    json::lemma_chains();
    reveal_strlit("status");
    reveal_strlit("agent_id");
    reveal_strlit("namespace");
    assert("status"@.len() == 6 && "agent_id"@.len() == 8 && "namespace"@.len() == 9);
}

/// Who logs in is told the agent, the name, the namespace and the badge.
pub proof fn law_logins_are_told_by_name(agent_id: Seq<char>, display_name: Seq<char>, namespace: Seq<char>, badge_token: Seq<char>)
    ensures
        login_value(agent_id, display_name, namespace, badge_token).member("status"@) == Some(JsonView::Text("ok"@)),
        login_value(agent_id, display_name, namespace, badge_token).member("agent_id"@) == Some(JsonView::Text(agent_id)),
        login_value(agent_id, display_name, namespace, badge_token).member("display_name"@) == Some(JsonView::Text(display_name)),
        login_value(agent_id, display_name, namespace, badge_token).member("namespace"@) == Some(JsonView::Text(namespace)),
        login_value(agent_id, display_name, namespace, badge_token).member("badge_token"@) == Some(JsonView::Text(badge_token)),
{
    json::lemma_chains();
    reveal_strlit("status");
    reveal_strlit("agent_id");
    reveal_strlit("display_name");
    reveal_strlit("namespace");
    reveal_strlit("badge_token");
    assert("status"@.len() == 6 && "agent_id"@.len() == 8 && "display_name"@.len() == 12 && "namespace"@.len() == 9 && "badge_token"@.len() == 11);
}

/// A phase is told of with its own place, cursor and counts; one that has not run begins in 1970.
pub proof fn law_dreams_are_told_by_name(phase: Seq<char>, ns: Seq<char>, last_run: Option<Seq<char>>, cursor: Seq<char>, runs: i64, items_out: i64)
    ensures
        dream_value(phase, ns, last_run, Some(cursor), runs, items_out).member("status"@) == Some(JsonView::Text("ok"@)),
        dream_value(phase, ns, last_run, Some(cursor), runs, items_out).member("phase"@) == Some(JsonView::Text(phase)),
        dream_value(phase, ns, last_run, Some(cursor), runs, items_out).member("namespace"@) == Some(JsonView::Text(ns)),
        dream_value(phase, ns, last_run, Some(cursor), runs, items_out).member("last_run"@) == Some(match last_run {
            Some(t) => JsonView::Text(t),
            None => JsonView::Null,
        }),
        dream_value(phase, ns, last_run, Some(cursor), runs, items_out).member("cursor_ts"@) == Some(JsonView::Text(cursor)),
        dream_value(phase, ns, last_run, Some(cursor), runs, items_out).member("runs"@) == Some(engine::whole(runs)),
        dream_value(phase, ns, last_run, Some(cursor), runs, items_out).member("items_out"@) == Some(engine::whole(items_out)),
        dream_value(phase, ns, last_run, None, runs, items_out).member("cursor_ts"@) == Some(
            JsonView::Text("1970-01-01"@),
        ),
        dream_moved_value(phase, ns, cursor).member("phase"@) == Some(JsonView::Text(phase)),
        dream_moved_value(phase, ns, cursor).member("namespace"@) == Some(JsonView::Text(ns)),
        dream_moved_value(phase, ns, cursor).member("cursor_ts"@) == Some(JsonView::Text(cursor)),
{
    json::lemma_chains();
    reveal_strlit("status");
    reveal_strlit("phase");
    reveal_strlit("namespace");
    reveal_strlit("last_run");
    reveal_strlit("cursor_ts");
    reveal_strlit("runs");
    reveal_strlit("items_out");
    assert("status"@.len() == 6 && "phase"@.len() == 5 && "namespace"@.len() == 9 && "last_run"@.len() == 8 && "cursor_ts"@.len() == 9 && "runs"@.len() == 4 && "items_out"@.len() == 9);
    assert("cursor_ts"@[0] == 'c' && "namespace"@[0] == 'n' && "items_out"@[0] == 'i');
}

/// A call is handed on under its own name and with its own arguments.
pub proof fn law_bridged_calls_keep_their_arguments(tool: Seq<char>, args: JsonView)
    ensures
        bridge_value(tool, args).member("jsonrpc"@) == Some(JsonView::Text("2.0"@)),
        bridge_value(tool, args).member("method"@) == Some(JsonView::Text("tools/call"@)),
        bridge_value(tool, args).member("params"@) matches Some(p) && p.member("name"@) == Some(
            JsonView::Text(tool),
        ) && p.member("arguments"@) == Some(args),
{
    json::lemma_chains();
    reveal_strlit("jsonrpc");
    reveal_strlit("id");
    reveal_strlit("method");
    reveal_strlit("params");
    assert("jsonrpc"@.len() == 7 && "id"@.len() == 2 && "method"@.len() == 6 && "params"@.len() == 6);
    assert("params"@[0] == 'p' && "method"@[0] == 'm');
    reveal_strlit("name");
    reveal_strlit("arguments");
    assert("name"@.len() == 4 && "arguments"@.len() == 9);
}

/// What was removed from the registry is counted and named.
pub proof fn law_removed_agents_are_named(ids: Seq<Seq<char>>)
    ensures
        cleaned_value(ids).member("status"@) == Some(JsonView::Text("cleaned"@)),
        cleaned_value(ids).member("removed"@) == Some(natural(ids.len())),
        cleaned_value(ids).member("removed_ids"@) == Some(json::text_array(ids)),
{
    json::lemma_chains();
    reveal_strlit("status");
    reveal_strlit("removed");
    reveal_strlit("removed_ids");
    assert("status"@.len() == 6 && "removed"@.len() == 7 && "removed_ids"@.len() == 11);
}

proof fn lemma_row(columns: Seq<Seq<char>>, row: Seq<Json>, n: int, k: int)
    requires
        0 <= k < columns.len(),
        0 <= n <= columns.len(),
        columns.no_duplicates(),
    ensures
        row_value(columns, row, n) is Object,
        k < n ==> row_value(columns, row, n).member(columns[k]) == Some(
            if k < row.len() {
                row[k]@
            } else {
                JsonView::Null
            },
        ),
        k >= n ==> row_value(columns, row, n).member(columns[k]) is None,
    decreases n,
{
    json::lemma_chains();
    if n > 0 {
        lemma_row(columns, row, n - 1, k);
        lemma_row(columns, row, n - 1, n - 1);
        if k != n - 1 {
            assert(columns[k] != columns[n - 1]);
        }
    }
}

/// A row of a list holds each of its values under the name of its column; a value that is
/// missing is null.
pub proof fn law_rows_are_shown_by_column(columns: Seq<Seq<char>>, row: Seq<Json>, k: int)
    requires
        columns.no_duplicates(),
        0 <= k < columns.len(),
    ensures
        k < row.len() ==> row_value(columns, row, columns.len() as int).member(columns[k]) == Some(
            row[k]@,
        ),
        k >= row.len() ==> row_value(columns, row, columns.len() as int).member(columns[k]) == Some(
            JsonView::Null,
        ),
{
    lemma_row(columns, row, columns.len() as int, k);
}

/// A list shows all of its rows in their order, under the word for what it lists.
pub proof fn law_lists_show_all_rows(l: Listing, rows: Seq<Vec<Json>>, i: int)
    requires
        0 <= i < rows.len(),
    ensures
        list_value(l, rows).member("status"@) == Some(JsonView::Text("ok"@)),
        list_value(l, rows).member(
            match l {
                Listing::Audit => "logs"@,
                Listing::Messages => "messages"@,
                Listing::Agents => "agents"@,
                Listing::SkillHits => "results"@,
                Listing::InstalledSkills => "skills"@,
                Listing::Prefs => "prefs"@,
                Listing::Decisions => "decisions"@,
                Listing::Unconsolidated => "items"@,
            },
        ) matches Some(JsonView::Array(a)) && a.len() == rows.len() && a[i] == row_value(
            listing_columns(l),
            rows[i]@,
            listing_columns(l).len() as int,
        ),
        l == Listing::Unconsolidated ==> list_value(l, rows).member("count"@) == Some(
            natural(rows.len()),
        ),
{
    json::lemma_chains();
    reveal_strlit("status");
    reveal_strlit("count");
    reveal_strlit("logs");
    reveal_strlit("messages");
    reveal_strlit("agents");
    reveal_strlit("results");
    reveal_strlit("skills");
    reveal_strlit("prefs");
    reveal_strlit("decisions");
    reveal_strlit("items");
    assert("status"@.len() == 6 && "count"@.len() == 5 && "logs"@.len() == 4 && "messages"@.len() == 8 && "agents"@.len() == 6 && "results"@.len() == 7 && "skills"@.len() == 6 && "prefs"@.len() == 5 && "decisions"@.len() == 9 && "items"@.len() == 5);
    assert("agents"@[0] == 'a' && "status"@[0] == 's' && "skills"@[1] == 'k' && "status"@[1] == 't' && "skills"@[0] == 's' && "prefs"@[0] == 'p' && "count"@[0] == 'c' && "items"@[0] == 'i');
}

proof fn lemma_counts(tables: Seq<Seq<char>>, counts: Seq<i64>, n: int, k: Seq<char>)
    requires
        0 <= n <= tables.len(),
        !tables.contains(k),
    ensures
        engine::table_counts(tables, counts, n) is Object,
        engine::table_counts(tables, counts, n).member(k) is None,
    decreases n,
{
    json::lemma_chains();
    if n > 0 {
        lemma_counts(tables, counts, n - 1, k);
        assert(tables.contains(tables[n - 1]));
    }
}

/// The agents, the entries of the audit log and the vectors are told under their own names.
pub proof fn law_database_is_told_by_name(counts: Seq<i64>, agents: i64, audit: i64, vectors: u64)
    ensures
        database_value(counts, agents, audit, vectors).member("stats"@) matches Some(s) && {
            &&& s.member("agent_registry"@) == Some(engine::whole(agents))
            &&& s.member("audit_log_total"@) == Some(engine::whole(audit))
            &&& s.member("hnsw_vectors"@) == Some(JsonView::Number(NumberView::Unsigned(vectors)))
        },
{
    json::lemma_chains();
    reveal_strlit("status");
    reveal_strlit("stats");
    assert("status"@.len() == 6 && "stats"@.len() == 5);
    reveal_strlit("agent_registry");
    reveal_strlit("audit_log_total");
    reveal_strlit("hnsw_vectors");
    reveal_strlit("memories");
    reveal_strlit("messages");
    reveal_strlit("sessions");
    reveal_strlit("decisions");
    reveal_strlit("user_prefs");
    reveal_strlit("memory_relations");
    reveal_strlit("decay_log");
    reveal_strlit("dream_state");
    assert("agent_registry"@.len() == 14 && "audit_log_total"@.len() == 15 && "hnsw_vectors"@.len() == 12 && "memories"@.len() == 8 && "messages"@.len() == 8 && "sessions"@.len() == 8 && "decisions"@.len() == 9 && "user_prefs"@.len() == 10 && "memory_relations"@.len() == 16 && "decay_log"@.len() == 9 && "dream_state"@.len() == 11);
    assert("messages"@[2] == 's' && "memories"@[2] == 'm' && "sessions"@[0] == 's' && "memories"@[0] == 'm' && "messages"@[0] == 'm' && "decay_log"@[3] == 'a' && "decisions"@[3] == 'i');
    let t = health::core_tables();
    assert(t.len() == 8);
    assert(!t.contains("agent_registry"@) && !t.contains("audit_log_total"@) && !t.contains(
        "hnsw_vectors"@,
    )) by {
        assert(t[0] == "memories"@ && t[1] == "messages"@ && t[2] == "sessions"@ && t[3]
            == "decisions"@ && t[4] == "user_prefs"@ && t[5] == "memory_relations"@ && t[6]
            == "decay_log"@ && t[7] == "dream_state"@);
    }
    lemma_counts(t, counts, 8, "agent_registry"@);
    lemma_counts(t, counts, 8, "audit_log_total"@);
    lemma_counts(t, counts, 8, "hnsw_vectors"@);
}

/// A row of the ledger is shown with its content cut and all else as it is.
pub proof fn law_ledger_rows_keep_the_rest(o: Seq<(Seq<char>, JsonView)>, i: int)
    requires
        0 <= i < o.len(),
    ensures
        ledger_row(JsonView::Object(o)) matches JsonView::Object(r) && r.len() >= o.len() && {
            &&& o[i].0 != "content"@ ==> r[i] == o[i]
            &&& r[i].0 == o[i].0
        },
{
}

/// The check that is found has the name that is asked for, and none before it has.
pub proof fn law_checks_are_found_by_name(checks: Seq<CheckResult>, name: Seq<char>, i: int)
    requires
        0 <= i,
    ensures
        match check_named(checks, name, i) {
            Some(k) => i <= k < checks.len() && checks[k].name@ == name && forall|j: int|
                i <= j < k ==> (#[trigger] checks[j]).name@ != name,
            None => forall|j: int| i <= j < checks.len() ==> (#[trigger] checks[j]).name@ != name,
        },
    decreases checks.len() - i,
{
    if i < checks.len() && checks[i].name@ != name {
        law_checks_are_found_by_name(checks, name, i + 1);
    }
}

} // verus!
