//! What the server reads from requests, and what it answers besides the replies of
//! the tools.
use vstd::prelude::*;
use crate::auth;
use crate::auth::{AgentBadge, AuthResult, AuthView};
use crate::health::{CheckResult, HealthReport};
use crate::json;
use crate::json::{Json, JsonView, Number, NumberView};
use crate::mcp_server;
use crate::mcp_server::{AuditEvent, Gate};
use crate::replies;
use crate::text;
use crate::tools;
use crate::tools::{Property, PropertyView, Tool, ToolView};

verus! {

/// The arguments of a call: those of the request, if they are an object, else none.
pub open spec fn arguments_of(body: JsonView) -> JsonView {
    match body.member("params"@) {
        Some(p) => match p.member("arguments"@) {
            Some(JsonView::Object(o)) => JsonView::Object(o),
            _ => JsonView::empty(),
        },
        None => JsonView::empty(),
    }
}

/// Reads the arguments of a call.
pub fn call_arguments(body: &Json) -> (r: Json)
    ensures
        r@ == arguments_of(body@),
        r@ is Object,
{
    match body.get("params") {
        Some(p) => match p.get("arguments") {
            Some(a) => match a {
                Json::Object(_) => a.copy(),
                _ => json::empty_object(),
            },
            None => json::empty_object(),
        },
        None => json::empty_object(),
    }
}

/// The id that a reply carries: that of the request.
pub fn request_id(body: &Json) -> (r: Json)
    ensures
        r@ == (match body@.member("id"@) {
            Some(id) => id,
            None => JsonView::Null,
        }),
{
    match body.get("id") {
        Some(id) => id.copy(),
        None => Json::Null,
    }
}

/// A call counts as allowed in the audit log: the guard let it pass, and the reply
/// speaks of no error.
pub open spec fn counts_as_allowed(gate: Gate, reply: Seq<char>) -> bool {
    match gate {
        Gate::Denied { .. } => false,
        Gate::OwnNamespaces => true,
        _ => !text::occurs(reply, "\"error\""@),
    }
}

/// What the audit log is told of a call. `reply` is the reply of the tool, where one
/// was run or asked for.
pub fn audit_event(
    gate: &Gate,
    agent_id: &str,
    tool: &str,
    args: &Json,
    auth: Option<&AuthResult>,
    reply: &str,
) -> (r: AuditEvent)
    ensures
        r.agent_id@ == agent_id@,
        r.tool@ == tool@,
        r.params@ == (match (gate, auth) {
            (Gate::OwnNamespaces, Some(a)) => "agent_id="@ + a.agent_id@,
            _ => json::rendered(args@),
        }),
        r.allowed == counts_as_allowed(*gate, reply@),
{
    let params = match (gate, auth) {
        (Gate::OwnNamespaces, Some(a)) => text::cat("agent_id=", a.agent_id.as_str()),
        _ => json::render_json(args),
    };
    let allowed = match gate {
        Gate::Denied { .. } => false,
        Gate::OwnNamespaces => true,
        _ => mcp_server::reply_allowed(reply),
    };
    AuditEvent { agent_id: agent_id.to_string(), tool: tool.to_string(), params, allowed }
}

/// A call of someone who is not known, or in a namespace that is not open to the
/// caller, stands in the audit log as one that was not allowed.
pub proof fn law_strangers_are_audited(
    tool: Seq<char>,
    args: JsonView,
    auth: Option<AuthView>,
    embedding: bool,
    gate: Gate,
    reply: Seq<char>,
)
    requires
        mcp_server::gate_says(tool, args, auth, embedding, gate),
        match auth {
            None => true,
            Some(a) => {
                &&& tool != "get_allowed_ns"@
                &&& !mcp_server::ns_free(tool)
                &&& match mcp_server::checked_ns(tool, args, a) {
                    None => true,
                    Some(ns) => !auth::may_access(a, ns),
                }
            },
        },
    ensures
        !counts_as_allowed(gate, reply),
{
}

/// What the embedding service is asked for a text.
pub fn embed_request(t: &str) -> (r: Json)
    ensures
        r@ == JsonView::empty().with("texts"@, JsonView::Array(seq![JsonView::Text(t@)])),
{
    let mut v: Vec<Json> = Vec::new();
    v.push(json::string(t));
    let a = Json::Array(v);
    assert(a@->Array_0 =~= seq![JsonView::Text(t@)]);
    json::with(json::empty_object(), "texts", a)
}

/// The numbers among some values.
pub open spec fn numbers_of(a: Seq<JsonView>) -> Seq<NumberView>
    decreases a.len(),
{
    if a.len() == 0 {
        Seq::empty()
    } else {
        match a.last() {
            JsonView::Number(n) => numbers_of(a.drop_last()).push(n),
            _ => numbers_of(a.drop_last()),
        }
    }
}

pub open spec fn number_views(v: Seq<Number>) -> Seq<NumberView> {
    Seq::new(v.len(), |i: int| v[i]@)
}

/// The vector that an answer of the embedding service holds: the numbers of the
/// first of its embeddings, if there are any.
pub open spec fn vector_in(answer: JsonView) -> Option<Seq<NumberView>> {
    match answer.member("embeddings"@) {
        Some(JsonView::Array(all)) => if all.len() == 0 {
            None
        } else {
            match all[0] {
                JsonView::Array(first) => if numbers_of(first).len() == 0 {
                    None
                } else {
                    Some(numbers_of(first))
                },
                _ => None,
            }
        },
        _ => None,
    }
}

fn copy_numbers(a: &Vec<Json>) -> (r: Vec<Number>)
    ensures
        number_views(r@) == numbers_of(json::views(a@)),
{
    let mut out: Vec<Number> = Vec::new();
    let mut i: usize = 0;
    let ghost all = json::views(a@);
    assert(all.take(0) =~= Seq::empty());
    assert(number_views(out@) =~= Seq::empty());
    while i < a.len()
        invariant
            i <= a@.len(),
            all == json::views(a@),
            number_views(out@) == numbers_of(all.take(i as int)),
        decreases a@.len() - i,
    {
        proof {
            assert(all.take(i + 1).drop_last() =~= all.take(i as int));
            assert(all.take(i + 1).last() == a@[i as int]@);
        }
        let ghost before = out@;
        match &a[i] {
            Json::Number(Number::Unsigned(n)) => {
                out.push(Number::Unsigned(*n));
                assert(number_views(out@) =~= number_views(before).push(NumberView::Unsigned(*n)));
            },
            Json::Number(Number::Negative(n)) => {
                out.push(Number::Negative(*n));
                assert(number_views(out@) =~= number_views(before).push(NumberView::Negative(*n)));
            },
            Json::Number(Number::Real(s)) => {
                out.push(Number::Real(s.clone()));
                assert(number_views(out@) =~= number_views(before).push(NumberView::Real(s@)));
            },
            _ => {},
        }
        i += 1;
    }
    assert(all.take(all.len() as int) =~= all);
    out
}

pub open spec fn opt_numbers(o: Option<Vec<Number>>) -> Option<Seq<NumberView>> {
    match o {
        Some(v) => Some(number_views(v@)),
        None => None,
    }
}

/// Reads the vector from the answer of the embedding service. An answer that is no
/// success, or no JSON, holds none.
pub fn embed_query(success: bool, answer: Option<&Json>) -> (r: Option<Vec<Number>>)
    ensures
        opt_numbers(r) == (match answer {
            Some(a) if success => vector_in(a@),
            _ => None,
        }),
{
    if !success {
        return None;
    }
    match answer {
        None => None,
        Some(a) => match a.get("embeddings") {
            Some(e) => match e.as_array() {
                Some(all) => if all.len() == 0 {
                    None
                } else {
                    match all[0].as_array() {
                        Some(first) => {
                            let v = copy_numbers(first);
                            assert(number_views(v@).len() == v@.len());
                            if v.len() == 0 {
                                None
                            } else {
                                Some(v)
                            }
                        },
                        None => None,
                    }
                },
                None => None,
            },
            None => None,
        },
    }
}

/// How a parameter is described.
pub open spec fn property_value(p: PropertyView) -> JsonView {
    let o = JsonView::empty().with("type"@, JsonView::Text(p.kind)).with(
        "description"@,
        JsonView::Text(p.description),
    );
    match p.default {
        Some(n) => o.with("default"@, JsonView::Number(NumberView::Unsigned(n))),
        None => o,
    }
}

/// The first `n` parameters of a tool, each under its name.
pub open spec fn properties_value(p: Seq<PropertyView>) -> JsonView
    decreases p.len(),
{
    if p.len() == 0 {
        JsonView::empty()
    } else {
        properties_value(p.drop_last()).with(p.last().name, property_value(p.last()))
    }
}

/// How a tool is described: with a schema of its input, which is always an object.
pub open spec fn tool_value(t: ToolView) -> JsonView {
    JsonView::empty().with("name"@, JsonView::Text(t.name)).with(
        "description"@,
        JsonView::Text(t.description),
    ).with(
        "inputSchema"@,
        JsonView::empty().with("type"@, JsonView::Text("object"@)).with(
            "properties"@,
            properties_value(t.properties),
        ),
    )
}

fn property_json(p: &Property) -> (r: Json)
    ensures
        r@ == property_value(p@),
{
    let o = json::with(json::empty_object(), "type", json::string(p.kind));
    let o = json::with(o, "description", json::string(p.description));
    match p.default {
        Some(n) => json::with(o, "default", json::unsigned(n)),
        None => o,
    }
}

fn tool_json(t: &Tool) -> (r: Json)
    ensures
        r@ == tool_value(t@),
{
    let mut props = json::empty_object();
    let ghost all = t@.properties;
    let mut i: usize = 0;
    assert(all.take(0) =~= Seq::empty());
    while i < t.properties.len()
        invariant
            i <= t.properties@.len(),
            all == t@.properties,
            props@ == properties_value(all.take(i as int)),
            props@ is Object,
        decreases t.properties@.len() - i,
    {
        assert(all.take(i + 1).drop_last() =~= all.take(i as int));
        assert(all.take(i + 1).last() == t.properties@[i as int]@);
        let p = &t.properties[i];
        props = json::with(props, p.name, property_json(p));
        i += 1;
    }
    assert(all.take(all.len() as int) =~= all);
    let schema = json::with(
        json::with(json::empty_object(), "type", json::string("object")),
        "properties",
        props,
    );
    json::with(
        json::with(
            json::with(json::empty_object(), "name", json::string(t.name)),
            "description",
            json::string(t.description),
        ),
        "inputSchema",
        schema,
    )
}

pub open spec fn tool_values(v: Seq<ToolView>) -> Seq<JsonView> {
    Seq::new(v.len(), |i: int| tool_value(v[i]))
}

fn list_json(list: &Vec<Tool>) -> (r: Json)
    ensures
        r@ == JsonView::Array(tool_values(tools::tool_views(list@))),
{
    let mut out: Vec<Json> = Vec::new();
    let mut i: usize = 0;
    while i < list.len()
        invariant
            i <= list@.len(),
            out@.len() == i,
            forall|k: int| 0 <= k < i ==> (#[trigger] out@[k])@ == tool_value(list@[k]@),
        decreases list@.len() - i,
    {
        out.push(tool_json(&list[i]));
        i += 1;
    }
    let a = Json::Array(out);
    assert(a@->Array_0 =~= tool_values(tools::tool_views(list@)));
    a
}

/// The tools as a client is told of them.
pub fn tools_reply() -> (r: Json)
    ensures
        r@ == JsonView::empty().with(
            "tools"@,
            JsonView::Array(tool_values(tools::tool_table())),
        ),
{
    json::with(json::empty_object(), "tools", list_json(&tools::tools_list()))
}

/// What a check found, without its name.
pub open spec fn finding(c: CheckResult) -> JsonView {
    JsonView::empty().with("status"@, JsonView::Text(c.status@)).with(
        "message"@,
        JsonView::Text(c.message@),
    ).with("duration_ms"@, JsonView::Number(NumberView::Unsigned(c.duration_ms)))
}

fn finding_json(c: &CheckResult) -> (r: Json)
    ensures
        r@ == finding(*c),
{
    let o = json::with(json::empty_object(), "status", json::string(c.status.as_str()));
    let o = json::with(o, "message", json::string(c.message.as_str()));
    json::with(o, "duration_ms", json::unsigned(c.duration_ms))
}

/// The answer to anyone who asks how the service is.
pub open spec fn public_value(version: Seq<char>, url: Seq<char>, embedding: CheckResult) -> JsonView {
    JsonView::empty().with(
        "status"@,
        JsonView::Text(
            if embedding.status@ == "pass"@ {
                "ok"@
            } else {
                "degraded"@
            },
        ),
    ).with("service"@, JsonView::Text("memoria"@)).with("version"@, JsonView::Text(version)).with(
        "embed"@,
        JsonView::empty().with("configured"@, JsonView::Bool(text::trimmed(url).len() > 0)).with(
            "status"@,
            JsonView::Text(embedding.status@),
        ).with("message"@, JsonView::Text(embedding.message@)).with(
            "duration_ms"@,
            JsonView::Number(NumberView::Unsigned(embedding.duration_ms)),
        ),
    )
}

/// The answer to anyone who asks how the service is: well only where the embedding
/// is.
pub fn health_check(version: &str, embedding_url: &str, embedding: &CheckResult) -> (r: Json)
    ensures
        r@ == public_value(version@, embedding_url@, *embedding),
{
    let configured = !text::trim(embedding_url).as_str().is_empty();
    let e = json::with(json::empty_object(), "configured", Json::Bool(configured));
    let e = json::with(e, "status", json::string(embedding.status.as_str()));
    let e = json::with(e, "message", json::string(embedding.message.as_str()));
    let e = json::with(e, "duration_ms", json::unsigned(embedding.duration_ms));
    let o = json::with(
        json::empty_object(),
        "status",
        json::string(mcp_server::public_status(embedding.status.as_str())),
    );
    let o = json::with(o, "service", json::string("memoria"));
    let o = json::with(o, "version", json::string(version));
    json::with(o, "embed", e)
}

/// What a check found, with its name.
pub open spec fn check_value(c: CheckResult) -> JsonView {
    JsonView::empty().with("name"@, JsonView::Text(c.name@)).with(
        "status"@,
        JsonView::Text(c.status@),
    ).with("message"@, JsonView::Text(c.message@)).with(
        "duration_ms"@,
        JsonView::Number(NumberView::Unsigned(c.duration_ms)),
    )
}

pub open spec fn checks_value(v: Seq<CheckResult>) -> JsonView {
    JsonView::Array(Seq::new(v.len(), |i: int| check_value(v[i])))
}

fn check_json(c: &CheckResult) -> (r: Json)
    ensures
        r@ == check_value(*c),
{
    let o = json::with(json::empty_object(), "name", json::string(c.name.as_str()));
    let o = json::with(o, "status", json::string(c.status.as_str()));
    let o = json::with(o, "message", json::string(c.message.as_str()));
    json::with(o, "duration_ms", json::unsigned(c.duration_ms))
}

fn checks_json(v: &Vec<CheckResult>) -> (r: Json)
    ensures
        r@ == checks_value(v@),
{
    let mut out: Vec<Json> = Vec::new();
    let mut i: usize = 0;
    while i < v.len()
        invariant
            i <= v@.len(),
            out@.len() == i,
            forall|k: int| 0 <= k < i ==> (#[trigger] out@[k])@ == check_value(v@[k]),
        decreases v@.len() - i,
    {
        out.push(check_json(&v[i]));
        i += 1;
    }
    let a = Json::Array(out);
    assert(a@->Array_0 =~= checks_value(v@)->Array_0);
    a
}

/// A report as a value.
pub open spec fn report_value(r: HealthReport) -> JsonView {
    JsonView::empty().with("overall"@, JsonView::Text(r.overall@)).with(
        "hard_checks"@,
        checks_value(r.hard_checks@),
    ).with("soft_checks"@, checks_value(r.soft_checks@)).with(
        "timestamp"@,
        JsonView::Text(r.timestamp@),
    ).with("version"@, JsonView::Text(r.version@))
}

/// Puts a report into JSON.
pub fn report_json(report: &HealthReport) -> (r: Json)
    ensures
        r@ == report_value(*report),
{
    let o = json::with(json::empty_object(), "overall", json::string(report.overall.as_str()));
    let o = json::with(o, "hard_checks", checks_json(&report.hard_checks));
    let o = json::with(o, "soft_checks", checks_json(&report.soft_checks));
    let o = json::with(o, "timestamp", json::string(report.timestamp.as_str()));
    json::with(o, "version", json::string(report.version.as_str()))
}

/// What the check of the embedding service found, if it was made.
pub open spec fn embedding_finding(v: Seq<CheckResult>) -> JsonView {
    match replies::check_named(v, "embedding"@, 0) {
        Some(i) => finding(v[i]),
        None => JsonView::Null,
    }
}

/// The answer to an administrator who asks how the service is.
pub open spec fn full_value(version: Seq<char>, report: HealthReport) -> JsonView {
    JsonView::empty().with("status"@, JsonView::Text(report.overall@)).with(
        "service"@,
        JsonView::Text("memoria"@),
    ).with("version"@, JsonView::Text(version)).with(
        "embed"@,
        embedding_finding(report.soft_checks@),
    ).with("report"@, report_value(report))
}

/// The answer to an administrator who asks how the service is.
pub fn health_check_full(version: &str, report: &HealthReport) -> (r: Json)
    ensures
        r@ == full_value(version@, *report),
{
    let embed = match replies::embedding_check(&report.soft_checks) {
        Some(c) => finding_json(c),
        None => Json::Null,
    };
    let o = json::with(json::empty_object(), "status", json::string(report.overall.as_str()));
    let o = json::with(o, "service", json::string("memoria"));
    let o = json::with(o, "version", json::string(version));
    let o = json::with(o, "embed", embed);
    json::with(o, "report", report_json(report))
}

/// The indices of the first `n` rows that have all the tags, where tags are asked
/// for. A row is the text of the tags of a memory that is there.
pub open spec fn tagged_rows(rows: Seq<Option<String>>, tags: Seq<Seq<char>>, n: int) -> Seq<int>
    decreases n,
{
    if n <= 0 {
        Seq::empty()
    } else if mcp_server::has_tags(text::opt_text(rows[n - 1]), tags) {
        tagged_rows(rows, tags, n - 1).push(n - 1)
    } else {
        tagged_rows(rows, tags, n - 1)
    }
}

/// Finds the memories that have all the tags that a search asks for, in their
/// order. A search that asks for none finds all.
pub fn with_tags(rows: &Vec<Option<String>>, tags: Option<&Vec<String>>) -> (r: Vec<usize>)
    ensures
        Seq::new(r@.len(), |i: int| r@[i] as int) == tagged_rows(
            rows@,
            match tags {
                Some(t) => text::texts(t@),
                None => Seq::empty(),
            },
            rows@.len() as int,
        ),
{
    let none: Vec<String> = Vec::new();
    let wanted = match tags {
        Some(t) => t,
        None => &none,
    };
    let ghost asked = match tags {
        Some(t) => text::texts(t@),
        None => Seq::empty(),
    };
    assert(text::texts(none@) =~= Seq::empty());
    let mut out: Vec<usize> = Vec::new();
    let mut i: usize = 0;
    assert(Seq::new(out@.len(), |k: int| out@[k] as int) =~= Seq::empty());
    while i < rows.len()
        invariant
            i <= rows@.len(),
            asked == text::texts(wanted@),
            Seq::new(out@.len(), |k: int| out@[k] as int) == tagged_rows(rows@, asked, i as int),
        decreases rows@.len() - i,
    {
        let row = match &rows[i] {
            Some(s) => Some(s.as_str()),
            None => None,
        };
        let ghost before = out@;
        if mcp_server::matches_memory_tags(row, wanted) {
            out.push(i);
            assert(Seq::new(out@.len(), |k: int| out@[k] as int) =~= Seq::new(
                before.len(),
                |k: int| before[k] as int,
            ).push(i as int));
        }
        i += 1;
    }
    out
}

/// The reply to the tool that asks how the service is.
pub fn memory_health_reply(report: &HealthReport) -> (r: String)
    ensures
        r@ == json::rendered(
            JsonView::empty().with("status"@, JsonView::Text("ok"@)).with(
                "embed"@,
                match replies::check_named(report.soft_checks@, "embedding"@, 0) {
                    Some(i) => check_value(report.soft_checks@[i]),
                    None => JsonView::Null,
                },
            ).with("report"@, report_value(*report)),
        ),
{
    let embed = match replies::embedding_check(&report.soft_checks) {
        Some(c) => check_json(c),
        None => Json::Null,
    };
    let o = json::with(json::empty_object(), "status", json::string("ok"));
    let o = json::with(o, "embed", embed);
    json::render_json(&json::with(o, "report", report_json(report)))
}

/// The reply that holds one value.
pub fn ok_reply(key: &str, value: Json) -> (r: String)
    ensures
        r@ == json::rendered(
            JsonView::empty().with("status"@, JsonView::Text("ok"@)).with(key@, value@),
        ),
{
    let o = json::with(json::empty_object(), "status", json::string("ok"));
    json::render_json(&json::with(o, key, value))
}

/// A badge as a value.
pub open spec fn badge_value(b: AgentBadge) -> JsonView {
    JsonView::empty().with("agent_id"@, JsonView::Text(b.agent_id@)).with(
        "display_name"@,
        JsonView::Text(b.display_name@),
    ).with("namespace"@, JsonView::Text(b.namespace@)).with(
        "badge_token"@,
        JsonView::Text(b.badge_token@),
    ).with("permission"@, JsonView::Text(b.permission@)).with(
        "allowed_skills"@,
        json::text_array(text::texts(b.allowed_skills@)),
    ).with("expires_at"@, JsonView::Text(b.expires_at@))
}

/// The reply to a new agent, with its badge.
pub fn registered_agent_reply(b: &AgentBadge) -> (r: String)
    ensures
        r@ == json::rendered(
            JsonView::empty().with("status"@, JsonView::Text("registered"@)).with(
                "badge"@,
                badge_value(*b),
            ),
        ),
{
    let v = json::with(json::empty_object(), "agent_id", json::string(b.agent_id.as_str()));
    let v = json::with(v, "display_name", json::string(b.display_name.as_str()));
    let v = json::with(v, "namespace", json::string(b.namespace.as_str()));
    let v = json::with(v, "badge_token", json::string(b.badge_token.as_str()));
    let v = json::with(v, "permission", json::string(b.permission.as_str()));
    let v = json::with(v, "allowed_skills", json::string_array(&b.allowed_skills));
    let v = json::with(v, "expires_at", json::string(b.expires_at.as_str()));
    let o = json::with(json::empty_object(), "status", json::string("registered"));
    json::render_json(&json::with(o, "badge", v))
}

/// A badge is shown with its own agent, name, namespace, token, right and end.
pub proof fn law_badges_are_shown_by_name(b: AgentBadge)
    ensures
        badge_value(b).member("agent_id"@) == Some(JsonView::Text(b.agent_id@)),
        badge_value(b).member("display_name"@) == Some(JsonView::Text(b.display_name@)),
        badge_value(b).member("namespace"@) == Some(JsonView::Text(b.namespace@)),
        badge_value(b).member("badge_token"@) == Some(JsonView::Text(b.badge_token@)),
        badge_value(b).member("permission"@) == Some(JsonView::Text(b.permission@)),
        badge_value(b).member("allowed_skills"@) == Some(
            json::text_array(text::texts(b.allowed_skills@)),
        ),
        badge_value(b).member("expires_at"@) == Some(JsonView::Text(b.expires_at@)),
{
    json::lemma_chains();
    reveal_strlit("agent_id");
    reveal_strlit("display_name");
    reveal_strlit("namespace");
    reveal_strlit("badge_token");
    reveal_strlit("permission");
    reveal_strlit("allowed_skills");
    reveal_strlit("expires_at");
    assert("agent_id"@.len() == 8 && "display_name"@.len() == 12 && "namespace"@.len() == 9 && "badge_token"@.len() == 11 && "permission"@.len() == 10 && "allowed_skills"@.len() == 14 && "expires_at"@.len() == 10);
    assert("expires_at"@[0] == 'e' && "permission"@[0] == 'p');
}

/// A check is shown with its own name, status, message and time.
pub proof fn law_checks_are_shown_by_name(c: CheckResult)
    ensures
        check_value(c).member("name"@) == Some(JsonView::Text(c.name@)),
        check_value(c).member("status"@) == Some(JsonView::Text(c.status@)),
        check_value(c).member("message"@) == Some(JsonView::Text(c.message@)),
        check_value(c).member("duration_ms"@) == Some(
            JsonView::Number(NumberView::Unsigned(c.duration_ms)),
        ),
        finding(c).member("name"@) is None,
        finding(c).member("status"@) == Some(JsonView::Text(c.status@)),
        finding(c).member("message"@) == Some(JsonView::Text(c.message@)),
        finding(c).member("duration_ms"@) == Some(
            JsonView::Number(NumberView::Unsigned(c.duration_ms)),
        ),
{
    json::lemma_chains();
    reveal_strlit("name");
    reveal_strlit("status");
    reveal_strlit("message");
    reveal_strlit("duration_ms");
    assert("name"@.len() == 4 && "status"@.len() == 6 && "message"@.len() == 7 && "duration_ms"@.len() == 11);
}

/// A report is shown whole: its verdict, and every check of either kind in its place.
pub proof fn law_reports_are_shown_whole(r: HealthReport, i: int, j: int)
    requires
        0 <= i < r.hard_checks@.len(),
        0 <= j < r.soft_checks@.len(),
    ensures
        report_value(r).member("overall"@) == Some(JsonView::Text(r.overall@)),
        report_value(r).member("timestamp"@) == Some(JsonView::Text(r.timestamp@)),
        report_value(r).member("version"@) == Some(JsonView::Text(r.version@)),
        report_value(r).member("hard_checks"@) matches Some(JsonView::Array(h)) && h.len()
            == r.hard_checks@.len() && h[i] == check_value(r.hard_checks@[i]),
        report_value(r).member("soft_checks"@) matches Some(JsonView::Array(s)) && s.len()
            == r.soft_checks@.len() && s[j] == check_value(r.soft_checks@[j]),
{
    json::lemma_chains();
    reveal_strlit("overall");
    reveal_strlit("hard_checks");
    reveal_strlit("soft_checks");
    reveal_strlit("timestamp");
    reveal_strlit("version");
    assert("overall"@.len() == 7 && "hard_checks"@.len() == 11 && "soft_checks"@.len() == 11 && "timestamp"@.len() == 9 && "version"@.len() == 7);
    assert("soft_checks"@[0] == 's' && "hard_checks"@[0] == 'h' && "version"@[0] == 'v' && "overall"@[0] == 'o');
}

/// Anyone learns whether the service is well, which it is where the embedding is; who asks
/// with right learns the verdict of the report as well.
pub proof fn law_health_is_told_by_name(
    version: Seq<char>,
    url: Seq<char>,
    embedding: CheckResult,
    report: HealthReport,
)
    ensures
        embedding.status@ == "pass"@ ==> public_value(version, url, embedding).member("status"@) == Some(
            JsonView::Text("ok"@),
        ),
        embedding.status@ != "pass"@ ==> public_value(version, url, embedding).member("status"@) == Some(
            JsonView::Text("degraded"@),
        ),
        public_value(version, url, embedding).member("version"@) == Some(JsonView::Text(version)),
        public_value(version, url, embedding).member("report"@) is None,
        public_value(version, url, embedding).member("embed"@) matches Some(e) && e.member("status"@)
            == Some(JsonView::Text(embedding.status@)) && e.member("configured"@) == Some(
            JsonView::Bool(text::trimmed(url).len() > 0),
        ) && e.member("message"@) == Some(JsonView::Text(embedding.message@)),
        full_value(version, report).member("status"@) == Some(JsonView::Text(report.overall@)),
        full_value(version, report).member("version"@) == Some(JsonView::Text(version)),
        full_value(version, report).member("report"@) == Some(report_value(report)),
{
    json::lemma_chains();
    reveal_strlit("status");
    reveal_strlit("service");
    reveal_strlit("version");
    reveal_strlit("embed");
    reveal_strlit("report");
    assert("status"@.len() == 6 && "service"@.len() == 7 && "version"@.len() == 7 && "embed"@.len() == 5 && "report"@.len() == 6);
    assert("version"@[0] == 'v' && "service"@[0] == 's' && "report"@[0] == 'r' && "status"@[0] == 's');
    reveal_strlit("configured");
    reveal_strlit("status");
    reveal_strlit("message");
    reveal_strlit("duration_ms");
    assert("configured"@.len() == 10 && "status"@.len() == 6 && "message"@.len() == 7 && "duration_ms"@.len() == 11);
}

/// What the check of the embedding found is told where it was made, and only then.
pub proof fn law_embedding_is_told(v: Seq<CheckResult>, i: int)
    requires
        0 <= i < v.len(),
        v[i].name@ == "embedding"@,
        forall|j: int| 0 <= j < i ==> (#[trigger] v[j]).name@ != "embedding"@,
    ensures
        embedding_finding(v) == finding(v[i]),
{
    replies::law_checks_are_found_by_name(v, "embedding"@, 0);
}

/// The arguments of a call are those of its request, where they are an object.
pub proof fn law_arguments_are_those_of_the_request(body: JsonView, params: JsonView, args: JsonView)
    requires
        body.member("params"@) == Some(params),
        params.member("arguments"@) == Some(args),
    ensures
        args is Object ==> arguments_of(body) == args,
        !(args is Object) ==> arguments_of(body) == JsonView::empty(),
{
}

/// A vector holds all numbers of the first embedding, in their order.
pub proof fn law_vectors_hold_the_first_embedding(
    a: Seq<JsonView>,
    b: Seq<JsonView>,
    n: NumberView,
    t: Seq<char>,
    answer: JsonView,
    more: Seq<JsonView>,
)
    ensures
        numbers_of(a + b) == numbers_of(a) + numbers_of(b),
        numbers_of(seq![JsonView::Number(n)]) == seq![n],
        numbers_of(seq![JsonView::Text(t)]).len() == 0,
        answer.member("embeddings"@) == Some(JsonView::Array(seq![JsonView::Array(a)] + more))
            && numbers_of(a).len() > 0 ==> vector_in(answer) == Some(numbers_of(a)),
        answer.member("embeddings"@) is None ==> vector_in(answer) is None,
    decreases b.len(),
{
    assert(seq![JsonView::Number(n)].drop_last() =~= Seq::empty());
    assert(seq![JsonView::Text(t)].drop_last() =~= Seq::empty());
    assert(numbers_of(Seq::empty()) =~= Seq::empty());
    assert(numbers_of(seq![JsonView::Number(n)]) =~= seq![n]);
    assert((seq![JsonView::Array(a)] + more)[0] == JsonView::Array(a));
    if b.len() == 0 {
        assert(a + b =~= a);
        assert(numbers_of(a) + numbers_of(b) =~= numbers_of(a));
    } else {
        law_vectors_hold_the_first_embedding(a, b.drop_last(), n, t, answer, more);
        assert((a + b).drop_last() =~= a + b.drop_last());
        assert((a + b).last() == b.last());
        assert(numbers_of(a + b) =~= numbers_of(a) + numbers_of(b));
    }
}

/// The memories that have all the tags are found, in their order, and no others.
pub proof fn law_tagged_memories_are_found(
    rows: Seq<Option<String>>,
    tags: Seq<Seq<char>>,
    n: int,
    i: int,
)
    requires
        0 <= n <= rows.len(),
    ensures
        tagged_rows(rows, tags, n).contains(i) <==> 0 <= i < n && mcp_server::has_tags(
            text::opt_text(rows[i]),
            tags,
        ),
        forall|j: int, k: int|
            0 <= j < k < tagged_rows(rows, tags, n).len() ==> #[trigger] tagged_rows(rows, tags, n)[j]
                < #[trigger] tagged_rows(rows, tags, n)[k],
        tags.len() == 0 ==> tagged_rows(rows, tags, n).len() == n,
    decreases n,
{
    if n > 0 {
        law_tagged_memories_are_found(rows, tags, n - 1, i);
        let p = tagged_rows(rows, tags, n - 1);
        let r = tagged_rows(rows, tags, n);
        assert(forall|j: int| 0 <= j < p.len() ==> #[trigger] p[j] < n - 1) by {
            assert forall|j: int| 0 <= j < p.len() implies #[trigger] p[j] < n - 1 by {
                law_tagged_memories_are_found(rows, tags, n - 1, p[j]);
                assert(p.contains(p[j]));
            }
        }
        if mcp_server::has_tags(text::opt_text(rows[n - 1]), tags) {
            assert(r == p.push(n - 1));
            assert(r[p.len() as int] == n - 1);
            if p.contains(i) {
                let k = choose|k: int| 0 <= k < p.len() && p[k] == i;
                assert(r[k] == i);
            }
            if r.contains(i) {
                let k = choose|k: int| 0 <= k < r.len() && r[k] == i;
                if k < p.len() {
                    assert(p[k] == i);
                }
            }
        }
    }
}

/// A parameter is described by its kind and its words, with its default where it has one; a
/// tool by its name, its words and its parameters.
pub proof fn law_tools_are_described_by_name(p: PropertyView, t: ToolView)
    ensures
        property_value(p).member("type"@) == Some(JsonView::Text(p.kind)),
        property_value(p).member("description"@) == Some(JsonView::Text(p.description)),
        property_value(p).member("default"@) == match p.default {
            Some(n) => Some(JsonView::Number(NumberView::Unsigned(n))),
            None => None,
        },
        tool_value(t).member("name"@) == Some(JsonView::Text(t.name)),
        tool_value(t).member("description"@) == Some(JsonView::Text(t.description)),
        tool_value(t).member("inputSchema"@) matches Some(s) && s.member("type"@) == Some(
            JsonView::Text("object"@),
        ) && s.member("properties"@) == Some(properties_value(t.properties)),
{
    json::lemma_chains();
    reveal_strlit("type");
    reveal_strlit("description");
    reveal_strlit("default");
    reveal_strlit("name");
    reveal_strlit("inputSchema");
    reveal_strlit("properties");
    assert("type"@.len() == 4 && "description"@.len() == 11 && "default"@.len() == 7 && "name"@.len() == 4 && "inputSchema"@.len() == 11 && "properties"@.len() == 10);
    assert("name"@[0] == 'n' && "type"@[0] == 't' && "inputSchema"@[0] == 'i' && "description"@[0] == 'd');
}

proof fn lemma_properties(p: Seq<PropertyView>, name: Seq<char>)
    ensures
        properties_value(p) is Object,
        (forall|j: int| 0 <= j < p.len() ==> (#[trigger] p[j]).name != name) ==> properties_value(p).member(
            name,
        ) is None,
    decreases p.len(),
{
    json::lemma_chains();
    if p.len() > 0 {
        lemma_properties(p.drop_last(), name);
        if forall|j: int| 0 <= j < p.len() ==> (#[trigger] p[j]).name != name {
            assert(p[p.len() - 1].name != name);
            assert forall|j: int| 0 <= j < p.drop_last().len() implies (
            #[trigger] p.drop_last()[j]).name != name by {
                assert(p[j].name != name);
            }
        }
    }
}

/// Each parameter of a tool is described under its own name.
pub proof fn law_parameters_are_described_by_name(p: Seq<PropertyView>, i: int)
    requires
        0 <= i < p.len(),
        forall|j: int, k: int|
            0 <= j < k < p.len() ==> (#[trigger] p[j]).name != (#[trigger] p[k]).name,
    ensures
        properties_value(p).member(p[i].name) == Some(property_value(p[i])),
    decreases p.len(),
{
    json::lemma_chains();
    let d = p.drop_last();
    lemma_properties(d, p[i].name);
    assert forall|j: int, k: int| 0 <= j < k < d.len() implies (#[trigger] d[j]).name != (
    #[trigger] d[k]).name by {
        assert(p[j].name != p[k].name);
    }
    if i < p.len() - 1 {
        law_parameters_are_described_by_name(d, i);
        assert(d[i] == p[i]);
    } else {
        assert forall|j: int| 0 <= j < d.len() implies (#[trigger] d[j]).name != p[i].name by {
            assert(p[j].name != p[i].name);
        }
    }
}

} // verus!
