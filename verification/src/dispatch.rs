//! From a tool call to what is to be done: arguments with their defaults, the
//! checks that refuse a call, and the replies to refused calls.
use vstd::prelude::*;
use crate::auth;
use crate::auth::{AuthResult, AuthView};
use crate::json;
use crate::json::{Json, JsonView, Number};
use crate::ontology;
use crate::permissions;
use crate::quota;
use crate::text;

verus! {

pub const ADMIN_REQUIRED: &'static str = r#"{"status":"error","message":"admin required"}"#;

pub const ADMIN_KEY_REQUIRED: &'static str = r#"{"status":"error","message":"admin key required"}"#;

pub const TEXT_REQUIRED: &'static str = r#"{"status":"error","code":400,"message":"text required"}"#;

pub const JSONL_REQUIRED: &'static str = r#"{"status":"error","message":"jsonl 必填"}"#;

pub const CREDENTIALS_REQUIRED: &'static str =
    r#"{"status":"error","message":"user_id 与 password 必填"}"#;

pub const PASSWORD_TOO_SHORT: &'static str = r#"{"status":"error","message":"口令至少 6 位"}"#;

pub const NAMESPACES_REQUIRED: &'static str =
    r#"{"status":"error","message":"from_ns / to_ns 必填且不能相同"}"#;

pub const MISSING_TO: &'static str = r#"{"status":"error","message":"missing 'to'"}"#;

pub const INVALID_TO: &'static str =
    r#"{"status":"error","message":"invalid 'to' format: agent-id only, max 64 chars"}"#;

pub const FOREIGN_TO: &'static str =
    r#"{"status":"error","message":"无权向该 Agent 发送消息（超出命名空间授权范围）"}"#;

pub const MISSING_AGENT_ID: &'static str = r#"{"status":"error","message":"missing agent_id"}"#;

pub const MISSING_NAME: &'static str = r#"{"status":"error","message":"missing name"}"#;

pub const NO_PUBLISH: &'static str =
    r#"{"status":"error","message":"no permission to publish to this visibility"}"#;

pub const INVALID_VISIBILITY: &'static str = r#"{"status":"error","message":"invalid visibility"}"#;

pub const MISSING_SKILL: &'static str =
    r#"{"status":"error","message":"missing skill_name or target_agent"}"#;

pub const NO_INSTALL: &'static str =
    r#"{"status":"error","message":"no permission to install on this agent"}"#;

pub const NO_SKILL_VIEW: &'static str =
    r#"{"status":"error","message":"no permission to view this agent's installed skills"}"#;

pub const MISSING_MEMORY_ID: &'static str = r#"{"status":"error","message":"missing memory_id"}"#;

pub const MISSING_MERGE_IDS: &'static str =
    r#"{"status":"error","message":"missing keep_id or merge_id"}"#;

pub const MISSING_EVOLVED: &'static str =
    r#"{"status":"error","message":"missing target_id or evolved_context"}"#;

pub const NS_DENIED: &'static str = r#"{"status":"error","message":"ns access denied"}"#;

pub const NS_NOT_AUTHORIZED: &'static str =
    r#"{"status":"error","message":"namespace not authorized"}"#;

pub const MISSING_LOG_ID: &'static str = r#"{"status":"error","message":"missing log_id"}"#;

pub const CURSOR_REQUIRED: &'static str =
    r#"{"status":"error","message":"cursor_ts must be non-empty ISO-8601"}"#;

/// What a call asks the storage to do, with all arguments settled.
#[derive(Debug)]
pub enum Action {
    Search {
        query: String,
        max_results: u32,
        tags: Option<Vec<String>>,
        as_of: Option<String>,
        include_superseded: bool,
        enrich_ledger: bool,
    },
    Remember {
        content: String,
        category: String,
        importance: i64,
        source: String,
        tags: String,
        event_time: Option<String>,
        valid_from: Option<String>,
        valid_to: Option<String>,
        supersedes_id: Option<String>,
        relation: Option<String>,
        actor: Option<String>,
        memory_type: Option<String>,
        parent_id: Option<String>,
        raw_ref: Option<String>,
    },
    IngestDocument { text: String, filename: String },
    Profile { static_limit: u64, dynamic_limit: u64, as_of: Option<String> },
    Context {
        query: Option<String>,
        recall_k: u32,
        include_profile: bool,
        static_limit: u64,
        dynamic_limit: u64,
        as_of: Option<String>,
    },
    Observe { dialog: String, role: String, source: String, session_id: String },
    QuotaStatus,
    Export { include_vectors: bool },
    Import { jsonl: String, replace: bool },
    MigrationManifest,
    RegisterAgent { agent_id: String, display_name: String, namespace: String },
    RegisterUser {
        user_id: String,
        display_name: String,
        password: String,
        namespace: Option<String>,
    },
    LoginUser { user_id: String, password: String },
    MoveNamespace { from_ns: String, to_ns: String },
    AuditQuery { agent: Option<String>, limit: u32 },
    DbStats,
    A2aSend { to: String, content: String, audit: String },
    A2aRecv { limit: u32 },
    AgentList,
    AgentRevoke { agent_id: String },
    SkillSearch { query: String, category: String, max_results: u32, caller_ns: String },
    SkillInfo { name: String },
    SkillPublish {
        name: String,
        description: String,
        version: String,
        author: String,
        category: String,
        visibility: String,
        steps: String,
        dependencies: String,
        source: String,
    },
    SkillInstall { skill_name: String, target_agent: String },
    SkillList { agent_id: String },
    Decay,
    Graph,
    UserPrefs { tag: Option<String> },
    RecentDecisions { limit: u32 },
    Backup,
    BackupList,
    Health,
    DedupChain { memory_id: String },
    Merge { keep_id: String, merge_id: String },
    Evolve {
        target_id: String,
        namespace: String,
        evolved_context: String,
        link_count: Option<i64>,
        model: String,
        change_type: String,
    },
    EvolutionRollback { log_id: String },
    EvolutionLog { change_types: Vec<String>, since: String, limit: i64 },
    EvolveAuto { namespace: String, limit: i64 },
    RegistryCleanup,
    Normalize,
    FetchUnconsolidated { since: String, limit: i64 },
    DreamGet { phase: String },
    DreamUpdate { phase: String, cursor_ts: String, items_out: i64, sessions: i64 },
    EntityUpsert {
        entity_id: Option<String>,
        entity_type: String,
        name: String,
        aliases: String,
        summary: String,
    },
    EntityMention { entity_id: String, memory_id: String, context: String },
    EntityEdge {
        source: String,
        target: String,
        relation: String,
        weight: Option<Number>,
        evidence: String,
        valid_from: Option<String>,
        valid_to: Option<String>,
    },
    EntitySearch { query: String, entity_type: Option<String>, max_results: i64 },
}

/// What comes next in a call.
#[derive(Debug)]
pub enum Next {
    /// The call is answered.
    Reply(String),
    /// The storage has to act.
    Run(Action),
}

/// How a call is handled: first it is charged to a quota, where one is named;
/// what comes next is done only where the quota admits the call.
#[derive(Debug)]
pub struct Plan {
    pub charge: Option<&'static str>,
    pub next: Next,
}

/// The plan answers the call with `t`, and charges nothing.
pub open spec fn refuses(p: Plan, t: Seq<char>) -> bool {
    p.charge is None && (p.next matches Next::Reply(s) && s@ == t)
}

fn refuse(t: &str) -> (p: Plan)
    ensures
        refuses(p, t@),
{
    Plan { charge: None, next: Next::Reply(t.to_string()) }
}

fn run(a: Action) -> (p: Plan)
    ensures
        p == (Plan { charge: None, next: Next::Run(a) }),
{
    Plan { charge: None, next: Next::Run(a) }
}

/// The quota that a call is charged to: an administrator is charged for backups
/// only.
pub open spec fn charged(kind: Seq<char>, role: Seq<char>) -> Option<Seq<char>> {
    if kind != quota::KIND_BACKUP@ && role == "admin"@ {
        None
    } else {
        Some(kind)
    }
}

/// The quota that a call of a kind is charged to.
pub fn quota_gate(kind: &'static str, role: &str) -> (r: Option<&'static str>)
    ensures
        text::opt_str(r) == charged(kind@, role@),
{
    if !text::same(kind, quota::KIND_BACKUP) && text::same(role, "admin") {
        None
    } else {
        Some(kind)
    }
}

/// The texts among some values.
pub open spec fn texts_of(a: Seq<JsonView>) -> Seq<Seq<char>>
    decreases a.len(),
{
    if a.len() == 0 {
        Seq::empty()
    } else {
        let p = texts_of(a.drop_last());
        match a.last().text() {
            Some(s) => p.push(s),
            None => p,
        }
    }
}

fn strings_of(a: &Vec<Json>) -> (r: Vec<String>)
    ensures
        text::texts(r@) == texts_of(json::views(a@)),
{
    let mut out: Vec<String> = Vec::new();
    let mut i: usize = 0;
    let ghost av = json::views(a@);
    assert(av.take(0) =~= Seq::empty());
    assert(text::texts(out@) =~= Seq::empty());
    while i < a.len()
        invariant
            i <= a@.len(),
            av == json::views(a@),
            text::texts(out@) == texts_of(av.take(i as int)),
        decreases a@.len() - i,
    {
        proof {
            assert(av.take(i + 1).drop_last() =~= av.take(i as int));
            assert(av.take(i + 1).last() == a@[i as int]@);
        }
        if let Some(s) = a[i].as_str() {
            let t = s.to_string();
            proof {
                text::lemma_texts_push(out@, t);
            }
            out.push(t);
        }
        i += 1;
    }
    assert(av.take(av.len() as int) =~= av);
    out
}

/// The tags that a search asks for: an array of strings, or a string that holds
/// one. A string that holds none asks for no tags.
pub open spec fn tags_asked(args: JsonView) -> Option<Seq<Seq<char>>> {
    match args.member("tags"@) {
        Some(JsonView::Array(a)) => Some(texts_of(a)),
        Some(JsonView::Text(s)) => Some(
            match json::parsed_list(s) {
                Some(l) => l,
                None => Seq::empty(),
            },
        ),
        _ => None,
    }
}

pub open spec fn opt_list(o: Option<Vec<String>>) -> Option<Seq<Seq<char>>> {
    match o {
        Some(v) => Some(text::texts(v@)),
        None => None,
    }
}

fn asked_tags(args: &Json) -> (r: Option<Vec<String>>)
    ensures
        opt_list(r) == tags_asked(args@),
{
    match args.get("tags") {
        None => None,
        Some(v) => match v.as_array() {
            Some(a) => Some(strings_of(a)),
            None => match v.as_str() {
                None => None,
                Some(s) => Some(
                    match json::read_list(s) {
                        Some(l) => l,
                        None => {
                            let e: Vec<String> = Vec::new();
                            assert(text::texts(e@) =~= Seq::empty());
                            e
                        },
                    },
                ),
            },
        },
    }
}

/// A search.
pub open spec fn search_plan(args: JsonView, auth: AuthView, p: Plan) -> bool {
    &&& text::opt_str(p.charge) == charged(quota::KIND_SEARCH@, auth.role)
    &&& p.next matches Next::Run(
        Action::Search { query, max_results, tags, as_of, include_superseded, enrich_ledger },
    )
    &&& query@ == args.text_or("query"@, ""@)
    &&& max_results == args.u64_or("max_results"@, 5) as u32
    &&& opt_list(tags) == tags_asked(args)
    &&& text::opt_text(as_of) == args.text_at("as_of"@)
    &&& include_superseded == args.bool_or("include_superseded"@, false)
    &&& enrich_ledger == args.bool_or("enrich_ledger"@, false)
}

fn plan_search(args: &Json, auth: &AuthResult) -> (p: Plan)
    ensures
        search_plan(args@, auth@, p),
{
    Plan {
        charge: quota_gate(quota::KIND_SEARCH, auth.role.as_str()),
        next: Next::Run(
            Action::Search {
                query: args.string_or("query", ""),
                max_results: args.u64_or("max_results", 5) as u32,
                tags: asked_tags(args),
                as_of: args.string_at("as_of"),
                include_superseded: args.bool_or("include_superseded", false),
                enrich_ledger: args.bool_or("enrich_ledger", false),
            },
        ),
    }
}

/// The tags of a memory, as the text of a JSON array.
pub open spec fn tags_given(args: JsonView) -> Seq<char> {
    match args.member("tags"@) {
        Some(JsonView::Array(a)) => json::rendered(JsonView::Array(a)),
        Some(JsonView::Text(s)) => if s.len() == 0 {
            "[]"@
        } else {
            s
        },
        _ => "[]"@,
    }
}

fn given_tags(args: &Json) -> (r: String)
    ensures
        r@ == tags_given(args@),
{
    match args.get("tags") {
        None => "[]".to_string(),
        Some(v) => match v.as_array() {
            Some(a) => json::render_json(v),
            None => match v.as_str() {
                None => "[]".to_string(),
                Some(s) => if s.is_empty() {
                    "[]".to_string()
                } else {
                    s.to_string()
                },
            },
        },
    }
}

/// Writing a memory.
pub open spec fn remember_plan(args: JsonView, auth: AuthView, p: Plan) -> bool {
    &&& text::opt_str(p.charge) == charged(quota::KIND_WRITE@, auth.role)
    &&& p.next matches Next::Run(
        Action::Remember {
            content,
            category,
            importance,
            source,
            tags,
            event_time,
            valid_from,
            valid_to,
            supersedes_id,
            relation,
            actor,
            memory_type,
            parent_id,
            raw_ref,
        },
    )
    &&& content@ == args.text_or("content"@, ""@)
    &&& category@ == args.text_or("category"@, "fact"@)
    &&& importance == args.i64_or("importance"@, 3)
    &&& source@ == args.text_or("source"@, "mcp"@)
    &&& tags@ == tags_given(args)
    &&& text::opt_text(event_time) == args.text_at("event_time"@)
    &&& text::opt_text(valid_from) == args.text_at("valid_from"@)
    &&& text::opt_text(valid_to) == args.text_at("valid_to"@)
    &&& text::opt_text(supersedes_id) == args.text_at("supersedes_id"@)
    &&& text::opt_text(relation) == args.text_at("relation"@)
    &&& text::opt_text(actor) == args.text_at("actor"@)
    &&& text::opt_text(memory_type) == args.text_at("memory_type"@)
    &&& text::opt_text(parent_id) == args.text_at("parent_id"@)
    &&& text::opt_text(raw_ref) == args.text_at("raw_ref"@)
}

fn plan_remember(args: &Json, auth: &AuthResult) -> (p: Plan)
    ensures
        remember_plan(args@, auth@, p),
{
    Plan {
        charge: quota_gate(quota::KIND_WRITE, auth.role.as_str()),
        next: Next::Run(
            Action::Remember {
                content: args.string_or("content", ""),
                category: args.string_or("category", "fact"),
                importance: args.i64_or("importance", 3),
                source: args.string_or("source", "mcp"),
                tags: given_tags(args),
                event_time: args.string_at("event_time"),
                valid_from: args.string_at("valid_from"),
                valid_to: args.string_at("valid_to"),
                supersedes_id: args.string_at("supersedes_id"),
                relation: args.string_at("relation"),
                actor: args.string_at("actor"),
                memory_type: args.string_at("memory_type"),
                parent_id: args.string_at("parent_id"),
                raw_ref: args.string_at("raw_ref"),
            },
        ),
    }
}

/// Storing a document: its text must hold something.
pub open spec fn ingest_plan(args: JsonView, auth: AuthView, p: Plan) -> bool {
    &&& text::opt_str(p.charge) == charged(quota::KIND_WRITE@, auth.role)
    &&& if text::trimmed(args.text_or("text"@, ""@)).len() == 0 {
        p.next matches Next::Reply(s) && s@ == TEXT_REQUIRED@
    } else {
        &&& p.next matches Next::Run(Action::IngestDocument { text, filename })
        &&& text@ == args.text_or("text"@, ""@)
        &&& filename@ == args.text_or("filename"@, "document.txt"@)
    }
}

fn plan_ingest(args: &Json, auth: &AuthResult) -> (p: Plan)
    ensures
        ingest_plan(args@, auth@, p),
{
    let charge = quota_gate(quota::KIND_WRITE, auth.role.as_str());
    let body = args.string_or("text", "");
    if text::trim(body.as_str()).as_str().is_empty() {
        return Plan { charge, next: Next::Reply(TEXT_REQUIRED.to_string()) };
    }
    Plan {
        charge,
        next: Next::Run(
            Action::IngestDocument {
                text: body,
                filename: args.string_or("filename", "document.txt"),
            },
        ),
    }
}

/// The profile of a namespace.
pub open spec fn profile_plan(args: JsonView, auth: AuthView, p: Plan) -> bool {
    &&& text::opt_str(p.charge) == charged(quota::KIND_PROFILE@, auth.role)
    &&& p.next matches Next::Run(Action::Profile { static_limit, dynamic_limit, as_of })
    &&& static_limit == args.u64_or("static_limit"@, 12)
    &&& dynamic_limit == args.u64_or("dynamic_limit"@, 15)
    &&& text::opt_text(as_of) == args.text_at("as_of"@)
}

fn plan_profile(args: &Json, auth: &AuthResult) -> (p: Plan)
    ensures
        profile_plan(args@, auth@, p),
{
    Plan {
        charge: quota_gate(quota::KIND_PROFILE, auth.role.as_str()),
        next: Next::Run(
            Action::Profile {
                static_limit: args.u64_or("static_limit", 12),
                dynamic_limit: args.u64_or("dynamic_limit", 15),
                as_of: args.string_at("as_of"),
            },
        ),
    }
}

/// The profile of a namespace with what a query recalls.
pub open spec fn context_plan(args: JsonView, auth: AuthView, p: Plan) -> bool {
    &&& text::opt_str(p.charge) == charged(quota::KIND_PROFILE@, auth.role)
    &&& p.next matches Next::Run(
        Action::Context { query, recall_k, include_profile, static_limit, dynamic_limit, as_of },
    )
    &&& text::opt_text(query) == args.text_at("query"@)
    &&& recall_k == args.u64_or("recall_k"@, 3) as u32
    &&& include_profile == args.bool_or("include_profile"@, true)
    &&& static_limit == args.u64_or("static_limit"@, 12)
    &&& dynamic_limit == args.u64_or("dynamic_limit"@, 15)
    &&& text::opt_text(as_of) == args.text_at("as_of"@)
}

fn plan_context(args: &Json, auth: &AuthResult) -> (p: Plan)
    ensures
        context_plan(args@, auth@, p),
{
    Plan {
        charge: quota_gate(quota::KIND_PROFILE, auth.role.as_str()),
        next: Next::Run(
            Action::Context {
                query: args.string_at("query"),
                recall_k: args.u64_or("recall_k", 3) as u32,
                include_profile: args.bool_or("include_profile", true),
                static_limit: args.u64_or("static_limit", 12),
                dynamic_limit: args.u64_or("dynamic_limit", 15),
                as_of: args.string_at("as_of"),
            },
        ),
    }
}

/// Writing an observation.
pub open spec fn observe_plan(args: JsonView, auth: AuthView, p: Plan) -> bool {
    &&& text::opt_str(p.charge) == charged(quota::KIND_WRITE@, auth.role)
    &&& p.next matches Next::Run(Action::Observe { dialog, role, source, session_id })
    &&& dialog@ == args.text_or("dialog"@, ""@)
    &&& role@ == args.text_or("role"@, "user"@)
    &&& source@ == args.text_or("source"@, "mcp"@)
    &&& session_id@ == args.text_or("session_id"@, ""@)
}

fn plan_observe(args: &Json, auth: &AuthResult) -> (p: Plan)
    ensures
        observe_plan(args@, auth@, p),
{
    Plan {
        charge: quota_gate(quota::KIND_WRITE, auth.role.as_str()),
        next: Next::Run(
            Action::Observe {
                dialog: args.string_or("dialog", ""),
                role: args.string_or("role", "user"),
                source: args.string_or("source", "mcp"),
                session_id: args.string_or("session_id", ""),
            },
        ),
    }
}

/// Reading memories into a namespace: there must be some.
pub open spec fn import_plan(args: JsonView, p: Plan) -> bool {
    if args.text_or("jsonl"@, ""@).len() == 0 {
        refuses(p, JSONL_REQUIRED@)
    } else {
        &&& p.charge is None
        &&& p.next matches Next::Run(Action::Import { jsonl, replace })
        &&& jsonl@ == args.text_or("jsonl"@, ""@)
        &&& replace == (args.text_or("on_conflict"@, "ignore"@) == "replace"@)
    }
}

fn plan_import(args: &Json) -> (p: Plan)
    ensures
        import_plan(args@, p),
{
    let jsonl = args.string_or("jsonl", "");
    if jsonl.as_str().is_empty() {
        return refuse(JSONL_REQUIRED);
    }
    let replace = text::same(args.string_or("on_conflict", "ignore").as_str(), "replace");
    run(Action::Import { jsonl, replace })
}

/// The caller passes the admin guard with the key among the arguments.
pub open spec fn admin_call(args: JsonView, auth: AuthView, key: Seq<char>) -> bool {
    permissions::is_admin(auth, args.text_or("admin_key"@, ""@), key)
}

fn is_admin_call(args: &Json, auth: &AuthResult, key: &str) -> (r: bool)
    ensures
        r == admin_call(args@, auth@, key@),
{
    permissions::require_admin(auth, args.string_or("admin_key", "").as_str(), key)
}

/// Making an agent.
pub open spec fn register_agent_plan(args: JsonView, auth: AuthView, key: Seq<char>, p: Plan) -> bool {
    if !admin_call(args, auth, key) {
        refuses(p, ADMIN_REQUIRED@)
    } else {
        let id = args.text_or("agent_id"@, ""@);
        &&& p.charge is None
        &&& p.next matches Next::Run(Action::RegisterAgent { agent_id, display_name, namespace })
        &&& agent_id@ == id
        &&& display_name@ == args.text_or("display_name"@, id)
        &&& namespace@ == args.text_or("namespace"@, "agent/"@ + id)
    }
}

fn plan_register_agent(args: &Json, auth: &AuthResult, key: &str) -> (p: Plan)
    ensures
        register_agent_plan(args@, auth@, key@, p),
{
    if !is_admin_call(args, auth, key) {
        return refuse(ADMIN_REQUIRED);
    }
    let agent_id = args.string_or("agent_id", "");
    let display_name = args.string_or("display_name", agent_id.as_str());
    let namespace = args.string_or("namespace", text::cat("agent/", agent_id.as_str()).as_str());
    run(Action::RegisterAgent { agent_id, display_name, namespace })
}

/// Making an account: a name, and a password of at least six bytes.
pub open spec fn register_user_plan(args: JsonView, p: Plan) -> bool {
    let id = args.text_or("user_id"@, ""@);
    let secret = args.text_or("password"@, ""@);
    if id.len() == 0 || secret.len() == 0 {
        refuses(p, CREDENTIALS_REQUIRED@)
    } else if text::utf8_len(secret) < 6 {
        refuses(p, PASSWORD_TOO_SHORT@)
    } else {
        &&& p.charge is None
        &&& p.next matches Next::Run(
            Action::RegisterUser { user_id, display_name, password, namespace },
        )
        &&& user_id@ == id
        &&& display_name@ == args.text_or("display_name"@, id)
        &&& password@ == secret
        &&& text::opt_text(namespace) == args.text_at("namespace"@)
    }
}

fn plan_register_user(args: &Json) -> (p: Plan)
    ensures
        register_user_plan(args@, p),
{
    let user_id = args.string_or("user_id", "");
    let password = args.string_or("password", "");
    if user_id.as_str().is_empty() || password.as_str().is_empty() {
        return refuse(CREDENTIALS_REQUIRED);
    }
    let v = text::chars_of(password.as_str());
    let n = text::fitting(&v, 5);
    proof {
        if n == v@.len() {
            assert(v@.take(n as int) =~= v@);
        } else {
            text::lemma_utf8_len_take(v@, n + 1, v@.len() as int);
            assert(v@.take(v@.len() as int) =~= v@);
        }
    }
    if n == v.len() {
        return refuse(PASSWORD_TOO_SHORT);
    }
    let display_name = args.string_or("display_name", user_id.as_str());
    run(
        Action::RegisterUser {
            user_id,
            display_name,
            password,
            namespace: args.string_at("namespace"),
        },
    )
}

/// Logging in.
pub open spec fn login_plan(args: JsonView, p: Plan) -> bool {
    let id = args.text_or("user_id"@, ""@);
    let secret = args.text_or("password"@, ""@);
    if id.len() == 0 || secret.len() == 0 {
        refuses(p, CREDENTIALS_REQUIRED@)
    } else {
        &&& p.charge is None
        &&& p.next matches Next::Run(Action::LoginUser { user_id, password })
        &&& user_id@ == id
        &&& password@ == secret
    }
}

fn plan_login(args: &Json) -> (p: Plan)
    ensures
        login_plan(args@, p),
{
    let user_id = args.string_or("user_id", "");
    let password = args.string_or("password", "");
    if user_id.as_str().is_empty() || password.as_str().is_empty() {
        return refuse(CREDENTIALS_REQUIRED);
    }
    run(Action::LoginUser { user_id, password })
}

/// Moving the memories of one namespace to another.
pub open spec fn move_plan(args: JsonView, auth: AuthView, key: Seq<char>, p: Plan) -> bool {
    let from = args.text_or("from_ns"@, ""@);
    let to = args.text_or("to_ns"@, ""@);
    if !admin_call(args, auth, key) {
        refuses(p, ADMIN_REQUIRED@)
    } else if from.len() == 0 || to.len() == 0 || from == to {
        refuses(p, NAMESPACES_REQUIRED@)
    } else {
        &&& p.charge is None
        &&& p.next matches Next::Run(Action::MoveNamespace { from_ns, to_ns })
        &&& from_ns@ == from
        &&& to_ns@ == to
    }
}

fn plan_move(args: &Json, auth: &AuthResult, key: &str) -> (p: Plan)
    ensures
        move_plan(args@, auth@, key@, p),
{
    if !is_admin_call(args, auth, key) {
        return refuse(ADMIN_REQUIRED);
    }
    let from_ns = args.string_or("from_ns", "");
    let to_ns = args.string_or("to_ns", "");
    if from_ns.as_str().is_empty() || to_ns.as_str().is_empty() || text::same(
        from_ns.as_str(),
        to_ns.as_str(),
    ) {
        return refuse(NAMESPACES_REQUIRED);
    }
    run(Action::MoveNamespace { from_ns, to_ns })
}

/// An action that needs the admin guard and nothing else; `refusal` answers all
/// others.
pub open spec fn gated(ok: bool, refusal: Seq<char>, a: Action, p: Plan) -> bool {
    if ok {
        p == (Plan { charge: None, next: Next::Run(a) })
    } else {
        refuses(p, refusal)
    }
}

fn gate(ok: bool, refusal: &str, a: Action) -> (p: Plan)
    ensures
        gated(ok, refusal@, a, p),
{
    if ok {
        run(a)
    } else {
        refuse(refusal)
    }
}

/// The name of an agent: at most 64 letters, digits, hyphens and underscores.
pub open spec fn agent_name(s: Seq<char>) -> bool {
    s.len() <= 64 && forall|i: int|
        0 <= i < s.len() ==> (text::is_alnum(#[trigger] s[i]) || s[i] == '-' || s[i] == '_')
}

fn is_agent_name(s: &str) -> (r: bool)
    ensures
        r == agent_name(s@),
{
    let v = text::chars_of(s);
    if v.len() > 64 {
        return false;
    }
    let mut i: usize = 0;
    while i < v.len()
        invariant
            i <= v@.len(),
            v@ == s@,
            v@.len() <= 64,
            forall|k: int|
                0 <= k < i ==> (text::is_alnum(#[trigger] s@[k]) || s@[k] == '-' || s@[k] == '_'),
        decreases v@.len() - i,
    {
        if !(text::alnum(v[i]) || v[i] == '-' || v[i] == '_') {
            assert(!(text::is_alnum(s@[i as int]) || s@[i as int] == '-' || s@[i as int] == '_'));
            return false;
        }
        i += 1;
    }
    true
}

/// The body of a message: `content` as it is or as JSON, else the envelope as
/// JSON, else subject and body.
pub open spec fn message_body(args: JsonView) -> Seq<char> {
    match args.member("content"@) {
        Some(JsonView::Text(s)) => s,
        Some(v) => json::rendered(v),
        None => match args.member("envelope"@) {
            Some(e) => json::rendered(e),
            None => "["@ + args.text_or("subject"@, ""@) + "] "@ + args.text_or("body"@, ""@),
        },
    }
}

fn body_of_message(args: &Json) -> (r: String)
    ensures
        r@ == message_body(args@),
{
    match args.get("content") {
        Some(v) => match v.as_str() {
            Some(s) => s.to_string(),
            None => json::render_json(v),
        },
        None => match args.get("envelope") {
            Some(e) => json::render_json(e),
            None => {
                let mut s = text::cat("[", args.string_or("subject", "").as_str());
                s.append("] ");
                s.append(args.string_or("body", "").as_str());
                s
            },
        },
    }
}

/// The subject of a message for the audit log: that of the envelope in
/// `content`, where there is one, else the argument.
pub open spec fn message_subject(args: JsonView) -> Seq<char> {
    let given = args.text_or("subject"@, ""@);
    match args.text_at("content"@) {
        Some(s) => match json::parsed(s) {
            Some(j) => j.text_or("subject"@, given),
            None => given,
        },
        None => given,
    }
}

fn subject_of_message(args: &Json) -> (r: String)
    ensures
        r@ == message_subject(args@),
{
    let given = args.string_or("subject", "");
    match args.str_at("content") {
        Some(s) => match json::parse_json(s) {
            Some(j) => j.string_or("subject", given.as_str()),
            None => given,
        },
        None => given,
    }
}

/// Sending a message: to an agent in the caller's namespaces, or to itself.
pub open spec fn a2a_send_plan(args: JsonView, auth: AuthView, p: Plan) -> bool {
    let dest = args.text_or("to"@, ""@);
    if dest.len() == 0 {
        refuses(p, MISSING_TO@)
    } else if !agent_name(dest) {
        refuses(p, INVALID_TO@)
    } else if dest != auth.agent_id && !auth::may_access(auth, "agent/"@ + dest) {
        refuses(p, FOREIGN_TO@)
    } else {
        &&& p.charge is None
        &&& p.next matches Next::Run(Action::A2aSend { to, content, audit })
        &&& to@ == dest
        &&& content@ == message_body(args)
        &&& audit@ == "to="@ + dest + ",subject="@ + text::first_chars(message_subject(args), 40)
    }
}

fn plan_a2a_send(args: &Json, auth: &AuthResult) -> (p: Plan)
    ensures
        a2a_send_plan(args@, auth@, p),
{
    let to = args.string_or("to", "");
    if to.as_str().is_empty() {
        return refuse(MISSING_TO);
    }
    if !is_agent_name(to.as_str()) {
        return refuse(INVALID_TO);
    }
    if !text::same(to.as_str(), auth.agent_id.as_str()) && !auth::check_ns_access(
        auth,
        text::cat("agent/", to.as_str()).as_str(),
    ) {
        return refuse(FOREIGN_TO);
    }
    let content = body_of_message(args);
    let mut audit = text::cat("to=", to.as_str());
    audit.append(",subject=");
    audit.append(text::take_chars(subject_of_message(args).as_str(), 40).as_str());
    run(Action::A2aSend { to, content, audit })
}

/// Ending the badge of an agent.
pub open spec fn revoke_plan(args: JsonView, auth: AuthView, key: Seq<char>, p: Plan) -> bool {
    let target = args.text_or("agent_id"@, ""@);
    if target.len() == 0 {
        refuses(p, MISSING_AGENT_ID@)
    } else if !admin_call(args, auth, key) {
        refuses(p, ADMIN_REQUIRED@)
    } else {
        p.charge is None && (p.next matches Next::Run(Action::AgentRevoke { agent_id }) && agent_id@
            == target)
    }
}

fn plan_revoke(args: &Json, auth: &AuthResult, key: &str) -> (p: Plan)
    ensures
        revoke_plan(args@, auth@, key@, p),
{
    let agent_id = args.string_or("agent_id", "");
    if agent_id.as_str().is_empty() {
        return refuse(MISSING_AGENT_ID);
    }
    if !is_admin_call(args, auth, key) {
        return refuse(ADMIN_REQUIRED);
    }
    run(Action::AgentRevoke { agent_id })
}

/// The caller's main namespace.
pub open spec fn main_ns(auth: AuthView) -> Seq<char> {
    if auth.allowed_ns.len() > 0 {
        auth.allowed_ns[0]
    } else {
        "default"@
    }
}

/// The caller's main namespace.
pub fn main_namespace(auth: &AuthResult) -> (r: String)
    ensures
        r@ == main_ns(auth@),
{
    if auth.allowed_ns.len() > 0 {
        auth.allowed_ns[0].clone()
    } else {
        "default".to_string()
    }
}

/// Looking for skills.
pub open spec fn skill_search_plan(args: JsonView, auth: AuthView, p: Plan) -> bool {
    &&& p.charge is None
    &&& p.next matches Next::Run(Action::SkillSearch { query, category, max_results, caller_ns })
    &&& query@ == args.text_or("query"@, ""@)
    &&& category@ == args.text_or("category"@, ""@)
    &&& max_results == args.u64_or("max_results"@, 10) as u32
    &&& caller_ns@ == main_ns(auth)
}

fn plan_skill_search(args: &Json, auth: &AuthResult) -> (p: Plan)
    ensures
        skill_search_plan(args@, auth@, p),
{
    run(
        Action::SkillSearch {
            query: args.string_or("query", ""),
            category: args.string_or("category", ""),
            max_results: args.u64_or("max_results", 10) as u32,
            caller_ns: main_namespace(auth),
        },
    )
}

pub open spec fn skill_info_plan(args: JsonView, p: Plan) -> bool {
    let n = args.text_or("name"@, ""@);
    if n.len() == 0 {
        refuses(p, MISSING_NAME@)
    } else {
        p.charge is None && (p.next matches Next::Run(Action::SkillInfo { name }) && name@ == n)
    }
}

fn plan_skill_info(args: &Json) -> (p: Plan)
    ensures
        skill_info_plan(args@, p),
{
    let name = args.string_or("name", "");
    if name.as_str().is_empty() {
        return refuse(MISSING_NAME);
    }
    run(Action::SkillInfo { name })
}

/// The value under `key` as JSON, or an empty array.
pub open spec fn json_or_empty(args: JsonView, key: Seq<char>) -> Seq<char> {
    match args.member(key) {
        Some(v) => json::rendered(v),
        None => "[]"@,
    }
}

fn rendered_or_empty(args: &Json, key: &str) -> (r: String)
    ensures
        r@ == json_or_empty(args@, key@),
{
    match args.get(key) {
        Some(v) => json::render_json(v),
        None => "[]".to_string(),
    }
}

/// Why a caller may not publish under a visibility; none where it may. Without
/// the admin guard it is `public`, or `tenant/` and an agent in the caller's
/// namespaces.
pub open spec fn publish_refusal(
    args: JsonView,
    auth: AuthView,
    key: Seq<char>,
    visibility: Seq<char>,
) -> Option<Seq<char>> {
    if admin_call(args, auth, key) {
        None
    } else {
        match text::without_prefix(visibility, "tenant/"@) {
            Some(tenant) => if auth::may_access(auth, "agent/"@ + tenant) {
                None
            } else {
                Some(NO_PUBLISH@)
            },
            None => if visibility == "public"@ {
                None
            } else {
                Some(INVALID_VISIBILITY@)
            },
        }
    }
}

/// Publishing a skill.
pub open spec fn skill_publish_plan(args: JsonView, auth: AuthView, key: Seq<char>, p: Plan) -> bool {
    let n = args.text_or("name"@, ""@);
    let vis = args.text_or("visibility"@, "public"@);
    if n.len() == 0 {
        refuses(p, MISSING_NAME@)
    } else {
        match publish_refusal(args, auth, key, vis) {
            Some(t) => refuses(p, t),
            None => {
                &&& p.charge is None
                &&& p.next matches Next::Run(
                    Action::SkillPublish {
                        name,
                        description,
                        version,
                        author,
                        category,
                        visibility,
                        steps,
                        dependencies,
                        source,
                    },
                )
                &&& name@ == n
                &&& description@ == args.text_or("description"@, ""@)
                &&& version@ == args.text_or("version"@, "1.0.0"@)
                &&& author@ == args.text_or("author"@, ""@)
                &&& category@ == args.text_or("category"@, "general"@)
                &&& visibility@ == vis
                &&& steps@ == json_or_empty(args, "steps"@)
                &&& dependencies@ == json_or_empty(args, "dependencies"@)
                &&& source@ == args.text_or("source"@, "manual"@)
            },
        }
    }
}

fn plan_skill_publish(args: &Json, auth: &AuthResult, key: &str) -> (p: Plan)
    ensures
        skill_publish_plan(args@, auth@, key@, p),
{
    let name = args.string_or("name", "");
    if name.as_str().is_empty() {
        return refuse(MISSING_NAME);
    }
    let visibility = args.string_or("visibility", "public");
    if !is_admin_call(args, auth, key) {
        match text::strip_prefix(visibility.as_str(), "tenant/") {
            Some(tenant) => {
                if !auth::check_ns_access(auth, text::cat("agent/", tenant.as_str()).as_str()) {
                    return refuse(NO_PUBLISH);
                }
            },
            None => {
                if !text::same(visibility.as_str(), "public") {
                    return refuse(INVALID_VISIBILITY);
                }
            },
        }
    }
    run(
        Action::SkillPublish {
            name,
            description: args.string_or("description", ""),
            version: args.string_or("version", "1.0.0"),
            author: args.string_or("author", ""),
            category: args.string_or("category", "general"),
            visibility,
            steps: rendered_or_empty(args, "steps"),
            dependencies: rendered_or_empty(args, "dependencies"),
            source: args.string_or("source", "manual"),
        },
    )
}

/// Installing a skill on an agent.
pub open spec fn skill_install_plan(args: JsonView, auth: AuthView, key: Seq<char>, p: Plan) -> bool {
    let skill = args.text_or("skill_name"@, ""@);
    let target = args.text_or("target_agent"@, ""@);
    if skill.len() == 0 || target.len() == 0 {
        refuses(p, MISSING_SKILL@)
    } else if !admin_call(args, auth, key) && !auth::may_access(auth, "agent/"@ + target) {
        refuses(p, NO_INSTALL@)
    } else {
        &&& p.charge is None
        &&& p.next matches Next::Run(Action::SkillInstall { skill_name, target_agent })
        &&& skill_name@ == skill
        &&& target_agent@ == target
    }
}

fn plan_skill_install(args: &Json, auth: &AuthResult, key: &str) -> (p: Plan)
    ensures
        skill_install_plan(args@, auth@, key@, p),
{
    let skill_name = args.string_or("skill_name", "");
    let target_agent = args.string_or("target_agent", "");
    if skill_name.as_str().is_empty() || target_agent.as_str().is_empty() {
        return refuse(MISSING_SKILL);
    }
    if !is_admin_call(args, auth, key) && !auth::check_ns_access(
        auth,
        text::cat("agent/", target_agent.as_str()).as_str(),
    ) {
        return refuse(NO_INSTALL);
    }
    run(Action::SkillInstall { skill_name, target_agent })
}

/// Listing the skills of an agent: the caller's own, or those of an agent in its
/// namespaces.
pub open spec fn skill_list_plan(args: JsonView, auth: AuthView, p: Plan) -> bool {
    let id = args.text_or("agent_id"@, ""@);
    if id.len() == 0 {
        refuses(p, MISSING_AGENT_ID@)
    } else if id != auth.agent_id && !auth::may_access(auth, "agent/"@ + id) {
        refuses(p, NO_SKILL_VIEW@)
    } else {
        p.charge is None && (p.next matches Next::Run(Action::SkillList { agent_id }) && agent_id@
            == id)
    }
}

fn plan_skill_list(args: &Json, auth: &AuthResult) -> (p: Plan)
    ensures
        skill_list_plan(args@, auth@, p),
{
    let agent_id = args.string_or("agent_id", "");
    if agent_id.as_str().is_empty() {
        return refuse(MISSING_AGENT_ID);
    }
    if !text::same(agent_id.as_str(), auth.agent_id.as_str()) && !auth::check_ns_access(
        auth,
        text::cat("agent/", agent_id.as_str()).as_str(),
    ) {
        return refuse(NO_SKILL_VIEW);
    }
    run(Action::SkillList { agent_id })
}

/// Making a backup: charged to everyone who passes the guard.
pub open spec fn backup_plan(args: JsonView, auth: AuthView, key: Seq<char>, p: Plan) -> bool {
    if !admin_call(args, auth, key) {
        refuses(p, ADMIN_KEY_REQUIRED@)
    } else {
        text::opt_str(p.charge) == Some(quota::KIND_BACKUP@) && p.next == Next::Run(Action::Backup)
    }
}

fn plan_backup(args: &Json, auth: &AuthResult, key: &str) -> (p: Plan)
    ensures
        backup_plan(args@, auth@, key@, p),
{
    if !is_admin_call(args, auth, key) {
        return refuse(ADMIN_KEY_REQUIRED);
    }
    Plan {
        charge: quota_gate(quota::KIND_BACKUP, auth.role.as_str()),
        next: Next::Run(Action::Backup),
    }
}

pub open spec fn dedup_plan(args: JsonView, p: Plan) -> bool {
    let id = args.text_or("memory_id"@, ""@);
    if id.len() == 0 {
        refuses(p, MISSING_MEMORY_ID@)
    } else {
        p.charge is None && (p.next matches Next::Run(Action::DedupChain { memory_id })
            && memory_id@ == id)
    }
}

fn plan_dedup(args: &Json) -> (p: Plan)
    ensures
        dedup_plan(args@, p),
{
    let memory_id = args.string_or("memory_id", "");
    if memory_id.as_str().is_empty() {
        return refuse(MISSING_MEMORY_ID);
    }
    run(Action::DedupChain { memory_id })
}

/// Merging two memories.
pub open spec fn merge_plan(args: JsonView, auth: AuthView, key: Seq<char>, p: Plan) -> bool {
    let keep = args.text_or("keep_id"@, ""@);
    let merge = args.text_or("merge_id"@, ""@);
    if !admin_call(args, auth, key) {
        refuses(p, ADMIN_REQUIRED@)
    } else if keep.len() == 0 || merge.len() == 0 {
        refuses(p, MISSING_MERGE_IDS@)
    } else {
        &&& p.charge is None
        &&& p.next matches Next::Run(Action::Merge { keep_id, merge_id })
        &&& keep_id@ == keep
        &&& merge_id@ == merge
    }
}

fn plan_merge(args: &Json, auth: &AuthResult, key: &str) -> (p: Plan)
    ensures
        merge_plan(args@, auth@, key@, p),
{
    if !is_admin_call(args, auth, key) {
        return refuse(ADMIN_REQUIRED);
    }
    let keep_id = args.string_or("keep_id", "");
    let merge_id = args.string_or("merge_id", "");
    if keep_id.as_str().is_empty() || merge_id.as_str().is_empty() {
        return refuse(MISSING_MERGE_IDS);
    }
    run(Action::Merge { keep_id, merge_id })
}

/// The namespace of a call, where it names none.
pub open spec fn call_ns(args: JsonView) -> Seq<char> {
    args.text_or("namespace"@, "default"@)
}

/// The namespace of a call: `default`, where it names none.
pub fn call_namespace(args: &Json) -> (r: String)
    ensures
        r@ == call_ns(args@),
{
    args.string_or("namespace", "default")
}

/// Writing back what a memory has evolved to.
pub open spec fn evolve_plan(args: JsonView, auth: AuthView, p: Plan) -> bool {
    let target = args.text_or("target_id"@, ""@);
    let context = args.text_or("evolved_context"@, ""@);
    if target.len() == 0 || context.len() == 0 {
        refuses(p, MISSING_EVOLVED@)
    } else if !auth::may_access(auth, call_ns(args)) {
        refuses(p, NS_DENIED@)
    } else {
        &&& p.charge is None
        &&& p.next matches Next::Run(
            Action::Evolve {
                target_id,
                namespace,
                evolved_context,
                link_count,
                model,
                change_type,
            },
        )
        &&& target_id@ == target
        &&& namespace@ == call_ns(args)
        &&& evolved_context@ == context
        &&& link_count == args.i64_at("link_count"@)
        &&& model@ == args.text_or("model"@, ""@)
        &&& change_type@ == args.text_or("change_type"@, "context_update"@)
    }
}

fn plan_evolve(args: &Json, auth: &AuthResult) -> (p: Plan)
    ensures
        evolve_plan(args@, auth@, p),
{
    let target_id = args.string_or("target_id", "");
    let evolved_context = args.string_or("evolved_context", "");
    if target_id.as_str().is_empty() || evolved_context.as_str().is_empty() {
        return refuse(MISSING_EVOLVED);
    }
    let namespace = call_namespace(args);
    if !auth::check_ns_access(auth, namespace.as_str()) {
        return refuse(NS_DENIED);
    }
    run(
        Action::Evolve {
            target_id,
            namespace,
            evolved_context,
            link_count: args.i64_at("link_count"),
            model: args.string_or("model", ""),
            change_type: args.string_or("change_type", "context_update"),
        },
    )
}

/// Undoing an evolution.
pub open spec fn rollback_plan(args: JsonView, auth: AuthView, key: Seq<char>, p: Plan) -> bool {
    let id = args.text_or("log_id"@, ""@);
    if !admin_call(args, auth, key) {
        refuses(p, ADMIN_REQUIRED@)
    } else if id.len() == 0 {
        refuses(p, MISSING_LOG_ID@)
    } else {
        p.charge is None && (p.next matches Next::Run(Action::EvolutionRollback { log_id })
            && log_id@ == id)
    }
}

fn plan_rollback(args: &Json, auth: &AuthResult, key: &str) -> (p: Plan)
    ensures
        rollback_plan(args@, auth@, key@, p),
{
    if !is_admin_call(args, auth, key) {
        return refuse(ADMIN_REQUIRED);
    }
    let log_id = args.string_or("log_id", "");
    if log_id.as_str().is_empty() {
        return refuse(MISSING_LOG_ID);
    }
    run(Action::EvolutionRollback { log_id })
}

/// The change types that a query of the evolution log asks for.
pub open spec fn change_types_asked(args: JsonView) -> Seq<Seq<char>> {
    match args.member("change_types"@) {
        Some(JsonView::Array(a)) => texts_of(a),
        _ => Seq::empty(),
    }
}

pub open spec fn log_query_plan(args: JsonView, p: Plan) -> bool {
    &&& p.charge is None
    &&& p.next matches Next::Run(Action::EvolutionLog { change_types, since, limit })
    &&& text::texts(change_types@) == change_types_asked(args)
    &&& since@ == args.text_or("since"@, "1970-01-01T00:00:00"@)
    &&& limit == args.i64_or("limit"@, 500)
}

fn plan_log_query(args: &Json) -> (p: Plan)
    ensures
        log_query_plan(args@, p),
{
    let empty: Vec<String> = Vec::new();
    assert(text::texts(empty@) =~= Seq::empty());
    let change_types = match args.get("change_types") {
        Some(v) => match v.as_array() {
            Some(a) => strings_of(a),
            None => empty,
        },
        None => empty,
    };
    run(
        Action::EvolutionLog {
            change_types,
            since: args.string_or("since", "1970-01-01T00:00:00"),
            limit: args.i64_or("limit", 500),
        },
    )
}

pub open spec fn evolve_auto_plan(args: JsonView, auth: AuthView, p: Plan) -> bool {
    if !auth::may_access(auth, call_ns(args)) {
        refuses(p, NS_DENIED@)
    } else {
        &&& p.charge is None
        &&& p.next matches Next::Run(Action::EvolveAuto { namespace, limit })
        &&& namespace@ == call_ns(args)
        &&& limit == args.i64_or("limit"@, 50)
    }
}

fn plan_evolve_auto(args: &Json, auth: &AuthResult) -> (p: Plan)
    ensures
        evolve_auto_plan(args@, auth@, p),
{
    let namespace = call_namespace(args);
    if !auth::check_ns_access(auth, namespace.as_str()) {
        return refuse(NS_DENIED);
    }
    run(Action::EvolveAuto { namespace, limit: args.i64_or("limit", 50) })
}

pub open spec fn fetch_plan(args: JsonView, p: Plan) -> bool {
    &&& p.charge is None
    &&& p.next matches Next::Run(Action::FetchUnconsolidated { since, limit })
    &&& since@ == args.text_or("since"@, "1970-01-01"@)
    &&& limit == args.u64_or("limit"@, 200) as i64
}

fn plan_fetch(args: &Json) -> (p: Plan)
    ensures
        fetch_plan(args@, p),
{
    run(
        Action::FetchUnconsolidated {
            since: args.string_or("since", "1970-01-01"),
            limit: args.u64_or("limit", 200) as i64,
        },
    )
}

/// Moving the cursor of a phase on: there must be a cursor.
pub open spec fn dream_update_plan(args: JsonView, p: Plan) -> bool {
    let cursor = args.text_or("cursor_ts"@, ""@);
    if cursor.len() == 0 {
        refuses(p, CURSOR_REQUIRED@)
    } else {
        &&& p.charge is None
        &&& p.next matches Next::Run(
            Action::DreamUpdate { phase, cursor_ts, items_out, sessions },
        )
        &&& phase@ == args.text_or("phase"@, "consolidate"@)
        &&& cursor_ts@ == cursor
        &&& items_out == args.u64_or("items_out"@, 0) as i64
        &&& sessions == args.u64_or("sessions_processed"@, 0) as i64
    }
}

fn plan_dream_update(args: &Json) -> (p: Plan)
    ensures
        dream_update_plan(args@, p),
{
    let cursor_ts = args.string_or("cursor_ts", "");
    if cursor_ts.as_str().is_empty() {
        return refuse(CURSOR_REQUIRED);
    }
    run(
        Action::DreamUpdate {
            phase: args.string_or("phase", "consolidate"),
            cursor_ts,
            items_out: args.u64_or("items_out", 0) as i64,
            sessions: args.u64_or("sessions_processed", 0) as i64,
        },
    )
}

pub open spec fn entity_upsert_plan(args: JsonView, p: Plan) -> bool {
    &&& p.charge is None
    &&& p.next matches Next::Run(
        Action::EntityUpsert { entity_id, entity_type, name, aliases, summary },
    )
    &&& text::opt_text(entity_id) == args.text_at("entity_id"@)
    &&& entity_type@ == args.text_or("entity_type"@, "other"@)
    &&& name@ == args.text_or("name"@, ""@)
    &&& aliases@ == args.text_or("aliases"@, "[]"@)
    &&& summary@ == args.text_or("summary"@, ""@)
}

fn plan_entity_upsert(args: &Json) -> (p: Plan)
    ensures
        entity_upsert_plan(args@, p),
{
    run(
        Action::EntityUpsert {
            entity_id: args.string_at("entity_id"),
            entity_type: args.string_or("entity_type", "other"),
            name: args.string_or("name", ""),
            aliases: args.string_or("aliases", "[]"),
            summary: args.string_or("summary", ""),
        },
    )
}

pub open spec fn entity_mention_plan(args: JsonView, p: Plan) -> bool {
    &&& p.charge is None
    &&& p.next matches Next::Run(Action::EntityMention { entity_id, memory_id, context })
    &&& entity_id@ == args.text_or("entity_id"@, ""@)
    &&& memory_id@ == args.text_or("memory_id"@, ""@)
    &&& context@ == args.text_or("context"@, ""@)
}

fn plan_entity_mention(args: &Json) -> (p: Plan)
    ensures
        entity_mention_plan(args@, p),
{
    run(
        Action::EntityMention {
            entity_id: args.string_or("entity_id", ""),
            memory_id: args.string_or("memory_id", ""),
            context: args.string_or("context", ""),
        },
    )
}

/// The number under `key`.
pub open spec fn number_at(args: JsonView, key: Seq<char>) -> Option<json::NumberView> {
    match args.member(key) {
        Some(JsonView::Number(n)) => Some(n),
        _ => None,
    }
}

pub open spec fn opt_number(o: Option<Number>) -> Option<json::NumberView> {
    match o {
        Some(n) => Some(n@),
        None => None,
    }
}

fn number_of(args: &Json, key: &str) -> (r: Option<Number>)
    ensures
        opt_number(r) == number_at(args@, key@),
{
    match args.get(key) {
        Some(Json::Number(Number::Unsigned(n))) => Some(Number::Unsigned(*n)),
        Some(Json::Number(Number::Negative(n))) => Some(Number::Negative(*n)),
        Some(Json::Number(Number::Real(s))) => Some(Number::Real(s.clone())),
        _ => None,
    }
}

/// Linking two entities, by a relation that the graph knows.
pub open spec fn entity_edge_plan(args: JsonView, p: Plan) -> bool {
    let kind = args.text_or("relation_type"@, "related_to"@);
    if !ontology::relation_type(kind) {
        refuses(
            p,
            "{\"status\":\"error\",\"message\":\"invalid relation_type '"@ + kind + "'. allowed: "@
                + "references, supersedes, created_by, conflicts_with, depends_on, part_of, belongs_to, uses, mentions, similar_to, related_to"@
                + "\"}"@,
        )
    } else {
        &&& p.charge is None
        &&& p.next matches Next::Run(
            Action::EntityEdge { source, target, relation, weight, evidence, valid_from, valid_to },
        )
        &&& source@ == args.text_or("source_entity_id"@, ""@)
        &&& target@ == args.text_or("target_entity_id"@, ""@)
        &&& relation@ == kind
        &&& opt_number(weight) == number_at(args, "weight"@)
        &&& evidence@ == args.text_or("evidence"@, ""@)
        &&& text::opt_text(valid_from) == args.text_at("valid_from"@)
        &&& text::opt_text(valid_to) == args.text_at("valid_to"@)
    }
}

fn plan_entity_edge(args: &Json) -> (p: Plan)
    ensures
        entity_edge_plan(args@, p),
{
    let relation = args.string_or("relation_type", "related_to");
    if !ontology::is_valid_relation_type(relation.as_str()) {
        let mut s = text::cat(
            "{\"status\":\"error\",\"message\":\"invalid relation_type '",
            relation.as_str(),
        );
        s.append("'. allowed: ");
        s.append(ontology::relation_type_list().as_str());
        s.append("\"}");
        return refuse(s.as_str());
    }
    run(
        Action::EntityEdge {
            source: args.string_or("source_entity_id", ""),
            target: args.string_or("target_entity_id", ""),
            relation,
            weight: number_of(args, "weight"),
            evidence: args.string_or("evidence", ""),
            valid_from: args.string_at("valid_from"),
            valid_to: args.string_at("valid_to"),
        },
    )
}

pub open spec fn entity_search_plan(args: JsonView, p: Plan) -> bool {
    &&& p.charge is None
    &&& p.next matches Next::Run(Action::EntitySearch { query, entity_type, max_results })
    &&& query@ == args.text_or("query"@, ""@)
    &&& text::opt_text(entity_type) == args.text_at("entity_type"@)
    &&& max_results == args.u64_or("max_results"@, 20) as i64
}

fn plan_entity_search(args: &Json) -> (p: Plan)
    ensures
        entity_search_plan(args@, p),
{
    run(
        Action::EntitySearch {
            query: args.string_or("query", ""),
            entity_type: args.string_at("entity_type"),
            max_results: args.u64_or("max_results", 20) as i64,
        },
    )
}

/// Whose entries of the audit log a caller may see: an administrator those of all,
/// any other its own.
pub open spec fn audit_scope(auth: AuthView) -> Option<Seq<char>> {
    if auth.role == "admin"@ {
        None
    } else {
        Some(auth.agent_id)
    }
}

/// Looking into the audit log.
pub open spec fn audit_plan(args: JsonView, auth: AuthView, p: Plan) -> bool {
    &&& p.charge is None
    &&& p.next matches Next::Run(Action::AuditQuery { agent, limit })
    &&& text::opt_text(agent) == audit_scope(auth)
    &&& limit == args.u64_or("limit"@, 50) as u32
}

fn plan_audit(args: &Json, auth: &AuthResult) -> (p: Plan)
    ensures
        audit_plan(args@, auth@, p),
{
    let agent = if text::same(auth.role.as_str(), "admin") {
        None
    } else {
        Some(auth.agent_id.clone())
    };
    run(Action::AuditQuery { agent, limit: args.u64_or("limit", 50) as u32 })
}

/// A tool that is answered here.
pub open spec fn known_tool(tool: Seq<char>) -> bool {
    ||| tool == "memory_search"@
    ||| tool == "memory_search_v2"@
    ||| tool == "memory_recall"@
    ||| tool == "memory_remember"@
    ||| tool == "memory"@
    ||| tool == "ingest_document"@
    ||| tool == "memory_profile"@
    ||| tool == "memory_context"@
    ||| tool == "memory_observe"@
    ||| tool == "memory_quota_status"@
    ||| tool == "memory_export"@
    ||| tool == "memory_import"@
    ||| tool == "memory_migration_manifest"@
    ||| tool == "register_agent"@
    ||| tool == "register_user"@
    ||| tool == "login_user"@
    ||| tool == "import_install_memories"@
    ||| tool == "audit_query"@
    ||| tool == "db_stats"@
    ||| tool == "a2a_send"@
    ||| tool == "a2a_recv"@
    ||| tool == "agent_list"@
    ||| tool == "agent_revoke"@
    ||| tool == "skill_market_search"@
    ||| tool == "skill_market_info"@
    ||| tool == "skill_market_publish"@
    ||| tool == "skill_market_install"@
    ||| tool == "skill_market_list_installed"@
    ||| tool == "memory_decay"@
    ||| tool == "memory_graph"@
    ||| tool == "memory_user_prefs"@
    ||| tool == "memory_recent_decisions"@
    ||| tool == "memory_backup"@
    ||| tool == "memory_backup_list"@
    ||| tool == "memory_health"@
    ||| tool == "memory_dedup_chain"@
    ||| tool == "memory_merge"@
    ||| tool == "memory_evolve"@
    ||| tool == "evolution_rollback"@
    ||| tool == "evolution_log_query"@
    ||| tool == "memory_evolve_auto"@
    ||| tool == "agent_registry_cleanup"@
    ||| tool == "memory_maintenance_normalize"@
    ||| tool == "memory_fetch_unconsolidated"@
    ||| tool == "dream_state_get"@
    ||| tool == "dream_state_update"@
    ||| tool == "entity_upsert"@
    ||| tool == "entity_add_mention"@
    ||| tool == "entity_add_edge"@
    ||| tool == "entity_search"@
}

/// The answer to a call of a tool that is not known.
pub open spec fn unknown_tool(tool: Seq<char>) -> Seq<char> {
    "{\"error\":\"Unknown tool: "@ + tool + "\"}"@
}

/// The plan for a call of `tool`.
pub open spec fn call_plan(
    tool: Seq<char>,
    args: JsonView,
    auth: AuthView,
    key: Seq<char>,
    p: Plan,
) -> bool {
    if tool == "memory_search"@ || tool == "memory_search_v2"@ || tool == "memory_recall"@ {
        search_plan(args, auth, p)
    } else if tool == "memory_remember"@ || tool == "memory"@ {
        remember_plan(args, auth, p)
    } else if tool == "ingest_document"@ {
        ingest_plan(args, auth, p)
    } else if tool == "memory_profile"@ {
        profile_plan(args, auth, p)
    } else if tool == "memory_context"@ {
        context_plan(args, auth, p)
    } else if tool == "memory_observe"@ {
        observe_plan(args, auth, p)
    } else if tool == "memory_quota_status"@ {
        gated(true, ""@, Action::QuotaStatus, p)
    } else if tool == "memory_export"@ {
        gated(
            true,
            ""@,
            Action::Export { include_vectors: args.bool_or("include_vectors"@, false) },
            p,
        )
    } else if tool == "memory_import"@ {
        import_plan(args, p)
    } else if tool == "memory_migration_manifest"@ {
        gated(admin_call(args, auth, key), ADMIN_REQUIRED@, Action::MigrationManifest, p)
    } else if tool == "register_agent"@ {
        register_agent_plan(args, auth, key, p)
    } else if tool == "register_user"@ {
        register_user_plan(args, p)
    } else if tool == "login_user"@ {
        login_plan(args, p)
    } else if tool == "import_install_memories"@ {
        move_plan(args, auth, key, p)
    } else if tool == "audit_query"@ {
        audit_plan(args, auth, p)
    } else if tool == "db_stats"@ {
        gated(admin_call(args, auth, key), ADMIN_REQUIRED@, Action::DbStats, p)
    } else if tool == "a2a_send"@ {
        a2a_send_plan(args, auth, p)
    } else if tool == "a2a_recv"@ {
        gated(true, ""@, Action::A2aRecv { limit: args.u64_or("limit"@, 10) as u32 }, p)
    } else if tool == "agent_list"@ {
        gated(admin_call(args, auth, key), ADMIN_REQUIRED@, Action::AgentList, p)
    } else if tool == "agent_revoke"@ {
        revoke_plan(args, auth, key, p)
    } else {
        later_call_plan(tool, args, auth, key, p)
    }
}

/// The plan for a call of one of the other tools.
pub open spec fn later_call_plan(
    tool: Seq<char>,
    args: JsonView,
    auth: AuthView,
    key: Seq<char>,
    p: Plan,
) -> bool {
    if tool == "skill_market_search"@ {
        skill_search_plan(args, auth, p)
    } else if tool == "skill_market_info"@ {
        skill_info_plan(args, p)
    } else if tool == "skill_market_publish"@ {
        skill_publish_plan(args, auth, key, p)
    } else if tool == "skill_market_install"@ {
        skill_install_plan(args, auth, key, p)
    } else if tool == "skill_market_list_installed"@ {
        skill_list_plan(args, auth, p)
    } else if tool == "memory_decay"@ {
        gated(true, ""@, Action::Decay, p)
    } else if tool == "memory_graph"@ {
        gated(true, ""@, Action::Graph, p)
    } else if tool == "memory_user_prefs"@ {
        p.charge is None && (p.next matches Next::Run(Action::UserPrefs { tag })
            && text::opt_text(tag) == args.text_at("tag"@))
    } else if tool == "memory_recent_decisions"@ {
        gated(
            true,
            ""@,
            Action::RecentDecisions { limit: args.u64_or("limit"@, 10) as u32 },
            p,
        )
    } else if tool == "memory_backup"@ {
        backup_plan(args, auth, key, p)
    } else if tool == "memory_backup_list"@ {
        gated(admin_call(args, auth, key), ADMIN_KEY_REQUIRED@, Action::BackupList, p)
    } else if tool == "memory_health"@ {
        gated(admin_call(args, auth, key), ADMIN_KEY_REQUIRED@, Action::Health, p)
    } else if tool == "memory_dedup_chain"@ {
        dedup_plan(args, p)
    } else if tool == "memory_merge"@ {
        merge_plan(args, auth, key, p)
    } else if tool == "memory_evolve"@ {
        evolve_plan(args, auth, p)
    } else if tool == "evolution_rollback"@ {
        rollback_plan(args, auth, key, p)
    } else if tool == "evolution_log_query"@ {
        log_query_plan(args, p)
    } else if tool == "memory_evolve_auto"@ {
        evolve_auto_plan(args, auth, p)
    } else if tool == "agent_registry_cleanup"@ {
        gated(admin_call(args, auth, key), ADMIN_REQUIRED@, Action::RegistryCleanup, p)
    } else if tool == "memory_maintenance_normalize"@ {
        gated(admin_call(args, auth, key), ADMIN_REQUIRED@, Action::Normalize, p)
    } else if tool == "memory_fetch_unconsolidated"@ {
        fetch_plan(args, p)
    } else if tool == "dream_state_get"@ {
        p.charge is None && (p.next matches Next::Run(Action::DreamGet { phase }) && phase@
            == args.text_or("phase"@, "consolidate"@))
    } else if tool == "dream_state_update"@ {
        dream_update_plan(args, p)
    } else if tool == "entity_upsert"@ {
        entity_upsert_plan(args, p)
    } else if tool == "entity_add_mention"@ {
        entity_mention_plan(args, p)
    } else if tool == "entity_add_edge"@ {
        entity_edge_plan(args, p)
    } else if tool == "entity_search"@ {
        entity_search_plan(args, p)
    } else {
        refuses(p, unknown_tool(tool))
    }
}

/// Settles what a call of `tool` comes to. `key` is the configured admin key.
pub fn dispatch(tool: &str, args: &Json, auth: &AuthResult, key: &str) -> (p: Plan)
    ensures
        call_plan(tool@, args@, auth@, key@, p),
{
    if text::same(tool, "memory_search") || text::same(tool, "memory_search_v2") || text::same(
        tool,
        "memory_recall",
    ) {
        plan_search(args, auth)
    } else if text::same(tool, "memory_remember") || text::same(tool, "memory") {
        plan_remember(args, auth)
    } else if text::same(tool, "ingest_document") {
        plan_ingest(args, auth)
    } else if text::same(tool, "memory_profile") {
        plan_profile(args, auth)
    } else if text::same(tool, "memory_context") {
        plan_context(args, auth)
    } else if text::same(tool, "memory_observe") {
        plan_observe(args, auth)
    } else if text::same(tool, "memory_quota_status") {
        gate(true, "", Action::QuotaStatus)
    } else if text::same(tool, "memory_export") {
        gate(true, "", Action::Export { include_vectors: args.bool_or("include_vectors", false) })
    } else if text::same(tool, "memory_import") {
        plan_import(args)
    } else if text::same(tool, "memory_migration_manifest") {
        gate(is_admin_call(args, auth, key), ADMIN_REQUIRED, Action::MigrationManifest)
    } else if text::same(tool, "register_agent") {
        plan_register_agent(args, auth, key)
    } else if text::same(tool, "register_user") {
        plan_register_user(args)
    } else if text::same(tool, "login_user") {
        plan_login(args)
    } else if text::same(tool, "import_install_memories") {
        plan_move(args, auth, key)
    } else if text::same(tool, "audit_query") {
        plan_audit(args, auth)
    } else if text::same(tool, "db_stats") {
        gate(is_admin_call(args, auth, key), ADMIN_REQUIRED, Action::DbStats)
    } else if text::same(tool, "a2a_send") {
        plan_a2a_send(args, auth)
    } else if text::same(tool, "a2a_recv") {
        gate(true, "", Action::A2aRecv { limit: args.u64_or("limit", 10) as u32 })
    } else if text::same(tool, "agent_list") {
        gate(is_admin_call(args, auth, key), ADMIN_REQUIRED, Action::AgentList)
    } else if text::same(tool, "agent_revoke") {
        plan_revoke(args, auth, key)
    } else {
        dispatch_later(tool, args, auth, key)
    }
}

fn dispatch_later(tool: &str, args: &Json, auth: &AuthResult, key: &str) -> (p: Plan)
    ensures
        later_call_plan(tool@, args@, auth@, key@, p),
{
    if text::same(tool, "skill_market_search") {
        plan_skill_search(args, auth)
    } else if text::same(tool, "skill_market_info") {
        plan_skill_info(args)
    } else if text::same(tool, "skill_market_publish") {
        plan_skill_publish(args, auth, key)
    } else if text::same(tool, "skill_market_install") {
        plan_skill_install(args, auth, key)
    } else if text::same(tool, "skill_market_list_installed") {
        plan_skill_list(args, auth)
    } else if text::same(tool, "memory_decay") {
        gate(true, "", Action::Decay)
    } else if text::same(tool, "memory_graph") {
        gate(true, "", Action::Graph)
    } else if text::same(tool, "memory_user_prefs") {
        run(Action::UserPrefs { tag: args.string_at("tag") })
    } else if text::same(tool, "memory_recent_decisions") {
        gate(true, "", Action::RecentDecisions { limit: args.u64_or("limit", 10) as u32 })
    } else if text::same(tool, "memory_backup") {
        plan_backup(args, auth, key)
    } else if text::same(tool, "memory_backup_list") {
        gate(is_admin_call(args, auth, key), ADMIN_KEY_REQUIRED, Action::BackupList)
    } else if text::same(tool, "memory_health") {
        gate(is_admin_call(args, auth, key), ADMIN_KEY_REQUIRED, Action::Health)
    } else if text::same(tool, "memory_dedup_chain") {
        plan_dedup(args)
    } else if text::same(tool, "memory_merge") {
        plan_merge(args, auth, key)
    } else if text::same(tool, "memory_evolve") {
        plan_evolve(args, auth)
    } else if text::same(tool, "evolution_rollback") {
        plan_rollback(args, auth, key)
    } else if text::same(tool, "evolution_log_query") {
        plan_log_query(args)
    } else if text::same(tool, "memory_evolve_auto") {
        plan_evolve_auto(args, auth)
    } else if text::same(tool, "agent_registry_cleanup") {
        gate(is_admin_call(args, auth, key), ADMIN_REQUIRED, Action::RegistryCleanup)
    } else if text::same(tool, "memory_maintenance_normalize") {
        gate(is_admin_call(args, auth, key), ADMIN_REQUIRED, Action::Normalize)
    } else if text::same(tool, "memory_fetch_unconsolidated") {
        plan_fetch(args)
    } else if text::same(tool, "dream_state_get") {
        run(Action::DreamGet { phase: args.string_or("phase", "consolidate") })
    } else if text::same(tool, "dream_state_update") {
        plan_dream_update(args)
    } else if text::same(tool, "entity_upsert") {
        plan_entity_upsert(args)
    } else if text::same(tool, "entity_add_mention") {
        plan_entity_mention(args)
    } else if text::same(tool, "entity_add_edge") {
        plan_entity_edge(args)
    } else if text::same(tool, "entity_search") {
        plan_entity_search(args)
    } else {
        refuse(text::cat3("{\"error\":\"Unknown tool: ", tool, "\"}").as_str())
    }
}

} // verus!
