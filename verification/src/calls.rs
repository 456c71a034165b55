//! What a call asks for is what is done: laws that tie the arguments of the tools, by
//! their names, to the actions.
use vstd::prelude::*;
use crate::auth;
use crate::auth::AuthView;
use crate::dispatch;
use crate::dispatch::{Action, Next, Plan};
use crate::json;
use crate::json::{JsonView, NumberView};
use crate::mcp_server;
use crate::mcp_server::Gate;
use crate::permissions;
use crate::permissions::NsPolicy;
use crate::search::hybrid;
use crate::text;

verus! {

/// A text is the one that is given under a name, or the usual one where none is.
pub open spec fn named(args: JsonView, name: Seq<char>, t: Seq<char>, usual: Seq<char>) -> bool {
    match args.member(name) {
        Some(JsonView::Text(given)) => t == given,
        _ => t == usual,
    }
}

/// A text is the one that is given under a name, and there is none where none is.
pub open spec fn named_or_none(args: JsonView, name: Seq<char>, t: Option<Seq<char>>) -> bool {
    match args.member(name) {
        Some(JsonView::Text(given)) => t == Some(given),
        _ => t is None,
    }
}

/// A number is the one that is given under a name, as far as it is within the range, or
/// the usual one where none is given.
pub open spec fn counted(args: JsonView, name: Seq<char>, n: int, usual: int, max: int) -> bool {
    match args.member(name) {
        Some(JsonView::Number(NumberView::Unsigned(given))) => given <= max ==> n == given,
        Some(JsonView::Number(_)) => true,
        _ => n == usual,
    }
}

/// A choice is the one that is given under a name, or the usual one where none is.
pub open spec fn ticked(args: JsonView, name: Seq<char>, b: bool, usual: bool) -> bool {
    match args.member(name) {
        Some(JsonView::Bool(given)) => b == given,
        _ => b == usual,
    }
}

/// The action is what the tool is for.
pub open spec fn serves(a: Action, tool: Seq<char>) -> bool {
    match a {
        Action::Search { .. } => tool == "memory_search"@ || tool == "memory_search_v2"@ || tool == "memory_recall"@,
        Action::Remember { .. } => tool == "memory_remember"@ || tool == "memory"@,
        Action::IngestDocument { .. } => tool == "ingest_document"@,
        Action::Profile { .. } => tool == "memory_profile"@,
        Action::Context { .. } => tool == "memory_context"@,
        Action::Observe { .. } => tool == "memory_observe"@,
        Action::QuotaStatus => tool == "memory_quota_status"@,
        Action::Export { .. } => tool == "memory_export"@,
        Action::Import { .. } => tool == "memory_import"@,
        Action::MigrationManifest => tool == "memory_migration_manifest"@,
        Action::RegisterAgent { .. } => tool == "register_agent"@,
        Action::RegisterUser { .. } => tool == "register_user"@,
        Action::LoginUser { .. } => tool == "login_user"@,
        Action::MoveNamespace { .. } => tool == "import_install_memories"@,
        Action::AuditQuery { .. } => tool == "audit_query"@,
        Action::DbStats => tool == "db_stats"@,
        Action::A2aSend { .. } => tool == "a2a_send"@,
        Action::A2aRecv { .. } => tool == "a2a_recv"@,
        Action::AgentList => tool == "agent_list"@,
        Action::AgentRevoke { .. } => tool == "agent_revoke"@,
        Action::SkillSearch { .. } => tool == "skill_market_search"@,
        Action::SkillInfo { .. } => tool == "skill_market_info"@,
        Action::SkillPublish { .. } => tool == "skill_market_publish"@,
        Action::SkillInstall { .. } => tool == "skill_market_install"@,
        Action::SkillList { .. } => tool == "skill_market_list_installed"@,
        Action::Decay => tool == "memory_decay"@,
        Action::Graph => tool == "memory_graph"@,
        Action::UserPrefs { .. } => tool == "memory_user_prefs"@,
        Action::RecentDecisions { .. } => tool == "memory_recent_decisions"@,
        Action::Backup => tool == "memory_backup"@,
        Action::BackupList => tool == "memory_backup_list"@,
        Action::Health => tool == "memory_health"@,
        Action::DedupChain { .. } => tool == "memory_dedup_chain"@,
        Action::Merge { .. } => tool == "memory_merge"@,
        Action::Evolve { .. } => tool == "memory_evolve"@,
        Action::EvolutionRollback { .. } => tool == "evolution_rollback"@,
        Action::EvolutionLog { .. } => tool == "evolution_log_query"@,
        Action::EvolveAuto { .. } => tool == "memory_evolve_auto"@,
        Action::RegistryCleanup => tool == "agent_registry_cleanup"@,
        Action::Normalize => tool == "memory_maintenance_normalize"@,
        Action::FetchUnconsolidated { .. } => tool == "memory_fetch_unconsolidated"@,
        Action::DreamGet { .. } => tool == "dream_state_get"@,
        Action::DreamUpdate { .. } => tool == "dream_state_update"@,
        Action::EntityUpsert { .. } => tool == "entity_upsert"@,
        Action::EntityMention { .. } => tool == "entity_add_mention"@,
        Action::EntityEdge { .. } => tool == "entity_add_edge"@,
        Action::EntitySearch { .. } => tool == "entity_search"@,
    }
}

/// Each text of an action is the argument of its name.
pub open spec fn texts_arrive(a: Action, args: JsonView) -> bool {
    match a {
        Action::Search { query, as_of, .. } => {
            &&& named(args, "query"@, query@, ""@)
            &&& named_or_none(args, "as_of"@, text::opt_text(as_of))
        },
        Action::Remember { content, category, source, event_time, valid_from, valid_to, supersedes_id, relation, actor, memory_type, parent_id, raw_ref, .. } => {
            &&& named(args, "content"@, content@, ""@)
            &&& named(args, "category"@, category@, "fact"@)
            &&& named(args, "source"@, source@, "mcp"@)
            &&& named_or_none(args, "event_time"@, text::opt_text(event_time))
            &&& named_or_none(args, "valid_from"@, text::opt_text(valid_from))
            &&& named_or_none(args, "valid_to"@, text::opt_text(valid_to))
            &&& named_or_none(args, "supersedes_id"@, text::opt_text(supersedes_id))
            &&& named_or_none(args, "relation"@, text::opt_text(relation))
            &&& named_or_none(args, "actor"@, text::opt_text(actor))
            &&& named_or_none(args, "memory_type"@, text::opt_text(memory_type))
            &&& named_or_none(args, "parent_id"@, text::opt_text(parent_id))
            &&& named_or_none(args, "raw_ref"@, text::opt_text(raw_ref))
        },
        Action::IngestDocument { text, filename, .. } => {
            &&& named(args, "text"@, text@, ""@)
            &&& named(args, "filename"@, filename@, "document.txt"@)
        },
        Action::Profile { as_of, .. } => {
            &&& named_or_none(args, "as_of"@, text::opt_text(as_of))
        },
        Action::Context { query, as_of, .. } => {
            &&& named_or_none(args, "query"@, text::opt_text(query))
            &&& named_or_none(args, "as_of"@, text::opt_text(as_of))
        },
        Action::Observe { dialog, role, source, session_id, .. } => {
            &&& named(args, "dialog"@, dialog@, ""@)
            &&& named(args, "role"@, role@, "user"@)
            &&& named(args, "source"@, source@, "mcp"@)
            &&& named(args, "session_id"@, session_id@, ""@)
        },
        Action::Import { jsonl, .. } => {
            &&& named(args, "jsonl"@, jsonl@, ""@)
        },
        Action::RegisterAgent { agent_id, display_name, namespace, .. } => {
            &&& named(args, "agent_id"@, agent_id@, ""@)
            &&& named(args, "display_name"@, display_name@, agent_id@)
            &&& named(args, "namespace"@, namespace@, "agent/"@ + agent_id@)
        },
        Action::RegisterUser { user_id, display_name, password, namespace, .. } => {
            &&& named(args, "user_id"@, user_id@, ""@)
            &&& named(args, "display_name"@, display_name@, user_id@)
            &&& named(args, "password"@, password@, ""@)
            &&& named_or_none(args, "namespace"@, text::opt_text(namespace))
        },
        Action::LoginUser { user_id, password, .. } => {
            &&& named(args, "user_id"@, user_id@, ""@)
            &&& named(args, "password"@, password@, ""@)
        },
        Action::MoveNamespace { from_ns, to_ns, .. } => {
            &&& named(args, "from_ns"@, from_ns@, ""@)
            &&& named(args, "to_ns"@, to_ns@, ""@)
        },
        Action::A2aSend { to, .. } => {
            &&& named(args, "to"@, to@, ""@)
        },
        Action::AgentRevoke { agent_id, .. } => {
            &&& named(args, "agent_id"@, agent_id@, ""@)
        },
        Action::SkillSearch { query, category, .. } => {
            &&& named(args, "query"@, query@, ""@)
            &&& named(args, "category"@, category@, ""@)
        },
        Action::SkillInfo { name, .. } => {
            &&& named(args, "name"@, name@, ""@)
        },
        Action::SkillPublish { name, description, version, author, category, visibility, source, .. } => {
            &&& named(args, "name"@, name@, ""@)
            &&& named(args, "description"@, description@, ""@)
            &&& named(args, "version"@, version@, "1.0.0"@)
            &&& named(args, "author"@, author@, ""@)
            &&& named(args, "category"@, category@, "general"@)
            &&& named(args, "visibility"@, visibility@, "public"@)
            &&& named(args, "source"@, source@, "manual"@)
        },
        Action::SkillInstall { skill_name, target_agent, .. } => {
            &&& named(args, "skill_name"@, skill_name@, ""@)
            &&& named(args, "target_agent"@, target_agent@, ""@)
        },
        Action::SkillList { agent_id, .. } => {
            &&& named(args, "agent_id"@, agent_id@, ""@)
        },
        Action::UserPrefs { tag, .. } => {
            &&& named_or_none(args, "tag"@, text::opt_text(tag))
        },
        Action::DedupChain { memory_id, .. } => {
            &&& named(args, "memory_id"@, memory_id@, ""@)
        },
        Action::Merge { keep_id, merge_id, .. } => {
            &&& named(args, "keep_id"@, keep_id@, ""@)
            &&& named(args, "merge_id"@, merge_id@, ""@)
        },
        Action::Evolve { target_id, namespace, evolved_context, model, change_type, .. } => {
            &&& named(args, "target_id"@, target_id@, ""@)
            &&& named(args, "namespace"@, namespace@, "default"@)
            &&& named(args, "evolved_context"@, evolved_context@, ""@)
            &&& named(args, "model"@, model@, ""@)
            &&& named(args, "change_type"@, change_type@, "context_update"@)
        },
        Action::EvolutionRollback { log_id, .. } => {
            &&& named(args, "log_id"@, log_id@, ""@)
        },
        Action::EvolutionLog { since, .. } => {
            &&& named(args, "since"@, since@, "1970-01-01T00:00:00"@)
        },
        Action::EvolveAuto { namespace, .. } => {
            &&& named(args, "namespace"@, namespace@, "default"@)
        },
        Action::FetchUnconsolidated { since, .. } => {
            &&& named(args, "since"@, since@, "1970-01-01"@)
        },
        Action::DreamGet { phase, .. } => {
            &&& named(args, "phase"@, phase@, "consolidate"@)
        },
        Action::DreamUpdate { phase, cursor_ts, .. } => {
            &&& named(args, "phase"@, phase@, "consolidate"@)
            &&& named(args, "cursor_ts"@, cursor_ts@, ""@)
        },
        Action::EntityUpsert { entity_type, name, aliases, summary, entity_id, .. } => {
            &&& named(args, "entity_type"@, entity_type@, "other"@)
            &&& named(args, "name"@, name@, ""@)
            &&& named(args, "aliases"@, aliases@, "[]"@)
            &&& named(args, "summary"@, summary@, ""@)
            &&& named_or_none(args, "entity_id"@, text::opt_text(entity_id))
        },
        Action::EntityMention { entity_id, memory_id, context, .. } => {
            &&& named(args, "entity_id"@, entity_id@, ""@)
            &&& named(args, "memory_id"@, memory_id@, ""@)
            &&& named(args, "context"@, context@, ""@)
        },
        Action::EntityEdge { source, target, relation, evidence, valid_from, valid_to, .. } => {
            &&& named(args, "source_entity_id"@, source@, ""@)
            &&& named(args, "target_entity_id"@, target@, ""@)
            &&& named(args, "relation_type"@, relation@, "related_to"@)
            &&& named(args, "evidence"@, evidence@, ""@)
            &&& named_or_none(args, "valid_from"@, text::opt_text(valid_from))
            &&& named_or_none(args, "valid_to"@, text::opt_text(valid_to))
        },
        Action::EntitySearch { query, entity_type, .. } => {
            &&& named(args, "query"@, query@, ""@)
            &&& named_or_none(args, "entity_type"@, text::opt_text(entity_type))
        },
        _ => true,
    }
}

/// Each number of an action is the argument of its name.
pub open spec fn numbers_arrive(a: Action, args: JsonView) -> bool {
    match a {
        Action::Search { max_results, .. } => {
            &&& counted(args, "max_results"@, max_results as int, 5, u32::MAX as int)
        },
        Action::Remember { importance, .. } => {
            &&& counted(args, "importance"@, importance as int, 3, i64::MAX as int)
        },
        Action::Profile { static_limit, dynamic_limit, .. } => {
            &&& counted(args, "static_limit"@, static_limit as int, 12, u64::MAX as int)
            &&& counted(args, "dynamic_limit"@, dynamic_limit as int, 15, u64::MAX as int)
        },
        Action::Context { recall_k, static_limit, dynamic_limit, .. } => {
            &&& counted(args, "recall_k"@, recall_k as int, 3, u32::MAX as int)
            &&& counted(args, "static_limit"@, static_limit as int, 12, u64::MAX as int)
            &&& counted(args, "dynamic_limit"@, dynamic_limit as int, 15, u64::MAX as int)
        },
        Action::AuditQuery { limit, .. } => {
            &&& counted(args, "limit"@, limit as int, 50, u32::MAX as int)
        },
        Action::A2aRecv { limit, .. } => {
            &&& counted(args, "limit"@, limit as int, 10, u32::MAX as int)
        },
        Action::SkillSearch { max_results, .. } => {
            &&& counted(args, "max_results"@, max_results as int, 10, u32::MAX as int)
        },
        Action::RecentDecisions { limit, .. } => {
            &&& counted(args, "limit"@, limit as int, 10, u32::MAX as int)
        },
        Action::EvolutionLog { limit, .. } => {
            &&& counted(args, "limit"@, limit as int, 500, i64::MAX as int)
        },
        Action::EvolveAuto { limit, .. } => {
            &&& counted(args, "limit"@, limit as int, 50, i64::MAX as int)
        },
        Action::FetchUnconsolidated { limit, .. } => {
            &&& counted(args, "limit"@, limit as int, 200, i64::MAX as int)
        },
        Action::DreamUpdate { items_out, sessions, .. } => {
            &&& counted(args, "items_out"@, items_out as int, 0, i64::MAX as int)
            &&& counted(args, "sessions_processed"@, sessions as int, 0, i64::MAX as int)
        },
        Action::EntitySearch { max_results, .. } => {
            &&& counted(args, "max_results"@, max_results as int, 20, i64::MAX as int)
        },
        _ => true,
    }
}

/// Each choice of an action is the argument of its name.
pub open spec fn choices_arrive(a: Action, args: JsonView) -> bool {
    match a {
        Action::Search { include_superseded, enrich_ledger, .. } => {
            &&& ticked(args, "include_superseded"@, include_superseded, false)
            &&& ticked(args, "enrich_ledger"@, enrich_ledger, false)
        },
        Action::Context { include_profile, .. } => {
            &&& ticked(args, "include_profile"@, include_profile, true)
        },
        Action::Export { include_vectors, .. } => {
            &&& ticked(args, "include_vectors"@, include_vectors, false)
        },
        _ => true,
    }
}

/// A call of a tool does what the tool is for, with the arguments that are given: each of
/// them arrives where its name says, and where one is missing the usual value takes its
/// place.
pub proof fn law_calls_do_what_is_asked(
    tool: Seq<char>,
    args: JsonView,
    auth: AuthView,
    key: Seq<char>,
    p: Plan,
)
    requires
        dispatch::call_plan(tool, args, auth, key, p),
    ensures
        p.next matches Next::Run(a) ==> serves(a, tool) && texts_arrive(a, args) && numbers_arrive(
            a,
            args,
        ) && choices_arrive(a, args),
{
}

/// The text that is given under a name, or the empty one.
pub open spec fn given(args: JsonView, name: Seq<char>) -> Seq<char> {
    match args.member(name) {
        Some(JsonView::Text(t)) => t,
        _ => Seq::empty(),
    }
}

/// The caller is an administrator, or holds the key that is configured.
pub open spec fn guarded(args: JsonView, auth: AuthView, key: Seq<char>) -> bool {
    auth.role == "admin"@ || (key.len() > 0 && given(args, "admin_key"@) == key)
}

/// The caller is an agent itself, or may use its namespace.
pub open spec fn near(auth: AuthView, agent: Seq<char>) -> bool {
    agent == auth.agent_id || auth::may_access(auth, "agent/"@ + agent)
}

/// A name that an agent can have.
pub open spec fn agent_like(s: Seq<char>) -> bool {
    s.len() <= 64 && forall|i: int|
        0 <= i < s.len() ==> ('a' <= #[trigger] s[i] <= 'z' || 'A' <= s[i] <= 'Z' || '0' <= s[i] <= '9'
            || s[i] == '-' || s[i] == '_')
}

/// An action may be carried out for the caller, and has all that it needs.
pub open spec fn rightful(a: Action, args: JsonView, auth: AuthView, key: Seq<char>) -> bool {
    match a {
        Action::IngestDocument { text, .. } => text::trimmed(text@).len() > 0,
        Action::Import { jsonl, .. } => jsonl@.len() > 0,
        Action::MigrationManifest
        | Action::RegisterAgent { .. }
        | Action::DbStats
        | Action::AgentList
        | Action::Backup
        | Action::BackupList
        | Action::Health
        | Action::RegistryCleanup
        | Action::Normalize => guarded(args, auth, key),
        Action::MoveNamespace { from_ns, to_ns } => {
            &&& guarded(args, auth, key)
            &&& from_ns@.len() > 0 && to_ns@.len() > 0 && from_ns@ != to_ns@
        },
        Action::AgentRevoke { agent_id } => guarded(args, auth, key) && agent_id@.len() > 0,
        Action::Merge { keep_id, merge_id } => {
            &&& guarded(args, auth, key)
            &&& keep_id@.len() > 0 && merge_id@.len() > 0
        },
        Action::EvolutionRollback { log_id } => guarded(args, auth, key) && log_id@.len() > 0,
        Action::RegisterUser { user_id, password, .. } => user_id@.len() > 0 && text::utf8_len(
            password@,
        ) >= 6,
        Action::LoginUser { user_id, password } => user_id@.len() > 0 && password@.len() > 0,
        Action::AuditQuery { agent, .. } => auth.role == "admin"@ || text::opt_text(agent) == Some(
            auth.agent_id,
        ),
        Action::A2aSend { to, .. } => to@.len() > 0 && agent_like(to@) && near(auth, to@),
        Action::SkillInfo { name } => name@.len() > 0,
        Action::SkillPublish { name, visibility, .. } => {
            &&& name@.len() > 0
            &&& guarded(args, auth, key) || visibility@ == "public"@ || exists|tenant: Seq<char>|
                visibility@ == "tenant/"@ + tenant && #[trigger] auth::may_access(
                    auth,
                    "agent/"@ + tenant,
                )
        },
        Action::SkillInstall { skill_name, target_agent } => {
            &&& skill_name@.len() > 0 && target_agent@.len() > 0
            &&& guarded(args, auth, key) || auth::may_access(auth, "agent/"@ + target_agent@)
        },
        Action::SkillList { agent_id } => agent_id@.len() > 0 && near(auth, agent_id@),
        Action::DedupChain { memory_id } => memory_id@.len() > 0,
        Action::Evolve { target_id, namespace, evolved_context, .. } => {
            &&& target_id@.len() > 0 && evolved_context@.len() > 0
            &&& auth::may_access(auth, namespace@)
        },
        Action::EvolveAuto { namespace, .. } => auth::may_access(auth, namespace@),
        Action::DreamUpdate { cursor_ts, .. } => cursor_ts@.len() > 0,
        _ => true,
    }
}

/// Nothing is done that the caller may not do, or that lacks what it needs.
pub proof fn law_nothing_is_done_without_right(
    tool: Seq<char>,
    args: JsonView,
    auth: AuthView,
    key: Seq<char>,
    p: Plan,
)
    requires
        dispatch::call_plan(tool, args, auth, key, p),
    ensures
        p.next matches Next::Run(a) ==> rightful(a, args, auth, key),
{
    reveal_strlit("");
    assert(given(args, "admin_key"@) =~= args.text_or("admin_key"@, ""@));
    if let Next::Run(Action::SkillPublish { visibility, .. }) = p.next {
        if let Some(tenant) = text::without_prefix(visibility@, "tenant/"@) {
            assert(visibility@ =~= "tenant/"@ + tenant);
        }
    }
}

/// There is a reason to refuse a call.
pub open spec fn objection(tool: Seq<char>, args: JsonView, auth: AuthView, key: Seq<char>) -> bool {
    ||| tool == "ingest_document"@ && text::trimmed(given(args, "text"@)).len() == 0
    ||| tool == "memory_import"@ && given(args, "jsonl"@).len() == 0
    ||| !guarded(args, auth, key) && seq![
        "memory_migration_manifest"@,
        "register_agent"@,
        "import_install_memories"@,
        "db_stats"@,
        "agent_list"@,
        "agent_revoke"@,
        "memory_backup"@,
        "memory_backup_list"@,
        "memory_health"@,
        "memory_merge"@,
        "evolution_rollback"@,
        "agent_registry_cleanup"@,
        "memory_maintenance_normalize"@,
    ].contains(tool)
    ||| tool == "import_install_memories"@ && (given(args, "from_ns"@).len() == 0 || given(
        args,
        "to_ns"@,
    ).len() == 0 || given(args, "from_ns"@) == given(args, "to_ns"@))
    ||| tool == "agent_revoke"@ && given(args, "agent_id"@).len() == 0
    ||| tool == "memory_merge"@ && (given(args, "keep_id"@).len() == 0 || given(
        args,
        "merge_id"@,
    ).len() == 0)
    ||| tool == "evolution_rollback"@ && given(args, "log_id"@).len() == 0
    ||| tool == "register_user"@ && (given(args, "user_id"@).len() == 0 || text::utf8_len(
        given(args, "password"@),
    ) < 6)
    ||| tool == "login_user"@ && (given(args, "user_id"@).len() == 0 || given(
        args,
        "password"@,
    ).len() == 0)
    ||| tool == "a2a_send"@ && !(given(args, "to"@).len() > 0 && agent_like(given(args, "to"@)) && near(
        auth,
        given(args, "to"@),
    ))
    ||| tool == "skill_market_info"@ && given(args, "name"@).len() == 0
    ||| tool == "skill_market_publish"@ && (given(args, "name"@).len() == 0 || (!guarded(
        args,
        auth,
        key,
    ) && args.member("visibility"@) is Some && given(args, "visibility"@) != "public"@
        && forall|tenant: Seq<char>|
        given(args, "visibility"@) == "tenant/"@ + tenant ==> !#[trigger] auth::may_access(
            auth,
            "agent/"@ + tenant,
        )))
    ||| tool == "skill_market_install"@ && (given(args, "skill_name"@).len() == 0 || given(
        args,
        "target_agent"@,
    ).len() == 0 || (!guarded(args, auth, key) && !auth::may_access(
        auth,
        "agent/"@ + given(args, "target_agent"@),
    )))
    ||| tool == "skill_market_list_installed"@ && !(given(args, "agent_id"@).len() > 0 && near(
        auth,
        given(args, "agent_id"@),
    ))
    ||| tool == "memory_dedup_chain"@ && given(args, "memory_id"@).len() == 0
    ||| tool == "memory_evolve"@ && (given(args, "target_id"@).len() == 0 || given(
        args,
        "evolved_context"@,
    ).len() == 0 || !auth::may_access(auth, dispatch::call_ns(args)))
    ||| tool == "memory_evolve_auto"@ && !auth::may_access(auth, dispatch::call_ns(args))
    ||| tool == "dream_state_update"@ && given(args, "cursor_ts"@).len() == 0
    ||| tool == "entity_add_edge"@ && args.member("relation_type"@) is Some && !seq![
        "references"@,
        "supersedes"@,
        "created_by"@,
        "conflicts_with"@,
        "depends_on"@,
        "part_of"@,
        "belongs_to"@,
        "uses"@,
        "mentions"@,
        "similar_to"@,
        "related_to"@,
    ].contains(given(args, "relation_type"@))
    ||| !dispatch::known_tool(tool)
}

proof fn lemma_given(args: JsonView, name: Seq<char>)
    ensures
        given(args, name) == args.text_or(name, ""@),
{
    reveal_strlit("");
    assert(""@ =~= Seq::empty());
}

proof fn lemma_guarded_tools(args: JsonView, auth: AuthView, key: Seq<char>)
    ensures
        guarded(args, auth, key) == dispatch::admin_call(args, auth, key),
        ({
            let l = seq![
                "memory_migration_manifest"@,
                "register_agent"@,
                "import_install_memories"@,
                "db_stats"@,
                "agent_list"@,
                "agent_revoke"@,
                "memory_backup"@,
                "memory_backup_list"@,
                "memory_health"@,
                "memory_merge"@,
                "evolution_rollback"@,
                "agent_registry_cleanup"@,
                "memory_maintenance_normalize"@,
            ];
            &&& l.contains("memory_migration_manifest"@)
            &&& l.contains("register_agent"@)
            &&& l.contains("import_install_memories"@)
            &&& l.contains("db_stats"@)
            &&& l.contains("agent_list"@)
            &&& l.contains("agent_revoke"@)
            &&& l.contains("memory_backup"@)
            &&& l.contains("memory_backup_list"@)
            &&& l.contains("memory_health"@)
            &&& l.contains("memory_merge"@)
            &&& l.contains("evolution_rollback"@)
            &&& l.contains("agent_registry_cleanup"@)
            &&& l.contains("memory_maintenance_normalize"@)
        }),
{
    lemma_given(args, "admin_key"@);
    let l = seq![
        "memory_migration_manifest"@,
        "register_agent"@,
        "import_install_memories"@,
        "db_stats"@,
        "agent_list"@,
        "agent_revoke"@,
        "memory_backup"@,
        "memory_backup_list"@,
        "memory_health"@,
        "memory_merge"@,
        "evolution_rollback"@,
        "agent_registry_cleanup"@,
        "memory_maintenance_normalize"@,
    ];
    assert(l[0] == "memory_migration_manifest"@);
    assert(l[1] == "register_agent"@);
    assert(l[2] == "import_install_memories"@);
    assert(l[3] == "db_stats"@);
    assert(l[4] == "agent_list"@);
    assert(l[5] == "agent_revoke"@);
    assert(l[6] == "memory_backup"@);
    assert(l[7] == "memory_backup_list"@);
    assert(l[8] == "memory_health"@);
    assert(l[9] == "memory_merge"@);
    assert(l[10] == "evolution_rollback"@);
    assert(l[11] == "agent_registry_cleanup"@);
    assert(l[12] == "memory_maintenance_normalize"@);
}

/// No call is refused without a reason: the caller may not do it, something that it needs
/// is missing, or the tool is not known.
pub proof fn law_nothing_is_refused_without_reason(
    tool: Seq<char>,
    args: JsonView,
    auth: AuthView,
    key: Seq<char>,
    p: Plan,
)
    requires
        dispatch::call_plan(tool, args, auth, key, p),
        p.next is Reply,
    ensures
        objection(tool, args, auth, key),
{
    lemma_guarded_tools(args, auth, key);
    lemma_given(args, "text"@);
    lemma_given(args, "jsonl"@);
    lemma_given(args, "from_ns"@);
    lemma_given(args, "to_ns"@);
    lemma_given(args, "agent_id"@);
    lemma_given(args, "keep_id"@);
    lemma_given(args, "merge_id"@);
    lemma_given(args, "log_id"@);
    lemma_given(args, "user_id"@);
    lemma_given(args, "password"@);
    lemma_given(args, "to"@);
    lemma_given(args, "name"@);
    lemma_given(args, "skill_name"@);
    lemma_given(args, "target_agent"@);
    lemma_given(args, "memory_id"@);
    lemma_given(args, "target_id"@);
    lemma_given(args, "evolved_context"@);
    lemma_given(args, "cursor_ts"@);
    if dispatch::entity_edge_plan(args, p) {
        let l = seq![
            "references"@,
            "supersedes"@,
            "created_by"@,
            "conflicts_with"@,
            "depends_on"@,
            "part_of"@,
            "belongs_to"@,
            "uses"@,
            "mentions"@,
            "similar_to"@,
            "related_to"@,
        ];
        let r = given(args, "relation_type"@);
        if l.contains(r) {
            let k = choose|k: int| 0 <= k < l.len() && l[k] == r;
            assert(k == 0 || k == 1 || k == 2 || k == 3 || k == 4 || k == 5 || k == 6 || k == 7 || k
                == 8 || k == 9 || k == 10);
        }
    }
    if dispatch::skill_publish_plan(args, auth, key, p) {
        let vis = given(args, "visibility"@);
        reveal_strlit("tenant/");
        reveal_strlit("public");
        if text::begins(vis, "tenant/"@) {
            assert(vis.subrange(0, 7)[0] == vis[0]);
            assert("tenant/"@[0] != "public"@[0]);
        }
        assert forall|tenant: Seq<char>|
            vis == "tenant/"@ + tenant && given(args, "name"@).len() > 0
                && !guarded(args, auth, key) implies !#[trigger] auth::may_access(
            auth,
            "agent/"@ + tenant,
        ) by {
            assert(vis.subrange(0, "tenant/"@.len() as int) =~= "tenant/"@);
            assert(vis.skip("tenant/"@.len() as int) =~= tenant);
            assert(text::begins(vis, "tenant/"@));
        }
    }
}

/// A call is charged to the quota of its kind: searches, profiles and writes to theirs
/// unless an administrator makes them, a backup always, and nothing else.
pub proof fn law_calls_are_charged_by_their_kind(
    tool: Seq<char>,
    args: JsonView,
    auth: AuthView,
    key: Seq<char>,
    p: Plan,
)
    requires
        dispatch::call_plan(tool, args, auth, key, p),
    ensures
        p.next matches Next::Run(a) ==> {
            let kind = match a {
                Action::Search { .. } => Some("search"@),
                Action::Remember { .. } | Action::IngestDocument { .. } | Action::Observe { .. } => Some(
                    "write"@,
                ),
                Action::Profile { .. } | Action::Context { .. } => Some("profile"@),
                _ => None,
            };
            text::opt_str(p.charge) == if a is Backup {
                Some("backup"@)
            } else if auth.role == "admin"@ {
                None
            } else {
                kind
            }
        },
{
    reveal_strlit("search");
    reveal_strlit("write");
    reveal_strlit("profile");
    reveal_strlit("backup");
    assert("search"@[0] == 's' && "backup"@[0] == 'b' && "write"@.len() == 5 && "profile"@.len() == 7);
}

/// A memory that is written is valid between the ends that the call names: where it is
/// judged at a time, without older ones, it stays if and only if that time is not before
/// `valid_from` nor behind `valid_to`; an end that is not given is open.
pub proof fn law_memories_are_valid_as_written(
    tool: Seq<char>,
    args: JsonView,
    auth: AuthView,
    key: Seq<char>,
    p: Plan,
    info: hybrid::TimeInfo,
    at: Seq<char>,
    j: hybrid::Judgement,
)
    requires
        dispatch::call_plan(tool, args, auth, key, p),
        p.next matches Next::Run(Action::Remember { valid_from, valid_to, .. }) && info.valid_from
            == valid_from && info.valid_to == valid_to,
        hybrid::judged(Some(info), at, true, false, j),
    ensures
        j.keep <==> {
            &&& args.member("valid_from"@) matches Some(JsonView::Text(from)) ==> text::sorted_le(
                from,
                at,
            )
            &&& args.member("valid_to"@) matches Some(JsonView::Text(to)) ==> text::sorted_le(at, to)
        },
{
}

proof fn lemma_texts_of(a: Seq<JsonView>)
    requires
        forall|i: int| 0 <= i < a.len() ==> #[trigger] a[i] is Text,
    ensures
        dispatch::texts_of(a).len() == a.len(),
        forall|i: int|
            0 <= i < a.len() ==> a[i] == JsonView::Text(#[trigger] dispatch::texts_of(a)[i]),
    decreases a.len(),
{
    if a.len() > 0 {
        lemma_texts_of(a.drop_last());
        assert(a[a.len() - 1] is Text);
    }
}

/// A search asks for the tags that are listed, all of them and in their order; without a
/// list it asks for none.
pub proof fn law_searches_ask_for_their_tags(
    tool: Seq<char>,
    args: JsonView,
    auth: AuthView,
    key: Seq<char>,
    p: Plan,
    items: Seq<JsonView>,
)
    requires
        dispatch::call_plan(tool, args, auth, key, p),
        p.next matches Next::Run(Action::Search { .. }),
        forall|i: int| 0 <= i < items.len() ==> #[trigger] items[i] is Text,
    ensures
        p.next matches Next::Run(Action::Search { tags, .. }) && {
            &&& args.member("tags"@) is None ==> tags is None
            &&& args.member("tags"@) == Some(JsonView::Array(items)) ==> {
                &&& tags matches Some(l)
                &&& l@.len() == items.len()
                &&& forall|i: int|
                    0 <= i < items.len() ==> items[i] == JsonView::Text((#[trigger] l@[i])@)
            }
        },
{
    lemma_texts_of(items);
    if let Next::Run(Action::Search { tags, .. }) = p.next {
        if args.member("tags"@) == Some(JsonView::Array(items)) {
            let l = tags->0@;
            assert(text::texts(l) == dispatch::texts_of(items));
            assert forall|i: int| 0 <= i < items.len() implies items[i] == JsonView::Text(
                (#[trigger] l[i])@,
            ) by {
                assert(text::texts(l)[i] == l[i]@);
                assert(items[i] == JsonView::Text(dispatch::texts_of(items)[i]));
            }
        }
    }
}

/// What goes with an action besides texts, numbers and choices: the tags of a memory, the
/// body of a message, the links and weights as they are given, and whose they are.
pub proof fn law_calls_carry_the_rest(
    tool: Seq<char>,
    args: JsonView,
    auth: AuthView,
    key: Seq<char>,
    p: Plan,
)
    requires
        dispatch::call_plan(tool, args, auth, key, p),
    ensures
        p.next matches Next::Run(a) ==> match a {
            Action::Remember { tags, .. } => match args.member("tags"@) {
                Some(JsonView::Array(l)) => tags@ == json::rendered(JsonView::Array(l)),
                Some(JsonView::Text(t)) => t.len() > 0 ==> tags@ == t,
                _ => tags@ == "[]"@,
            },
            Action::Import { replace, .. } => replace <==> args.member("on_conflict"@) == Some(
                JsonView::Text("replace"@),
            ),
            Action::A2aSend { content, audit, .. } => {
                &&& match (args.member("content"@), args.member("envelope"@)) {
                    (Some(JsonView::Text(t)), _) => content@ == t,
                    (Some(v), _) => content@ == json::rendered(v),
                    (None, Some(e)) => content@ == json::rendered(e),
                    (None, None) => content@ == "["@ + given(args, "subject"@) + "] "@ + given(
                        args,
                        "body"@,
                    ),
                }
                &&& text::begins(audit@, "to="@ + given(args, "to"@))
            },
            Action::SkillSearch { caller_ns, .. } => auth.allowed_ns.len() > 0 ==> caller_ns@
                == auth.allowed_ns[0],
            Action::SkillPublish { steps, dependencies, .. } => {
                &&& args.member("steps"@) matches Some(v) ==> steps@ == json::rendered(v)
                &&& args.member("dependencies"@) matches Some(v) ==> dependencies@ == json::rendered(v)
                &&& args.member("steps"@) is None ==> steps@ == "[]"@
                &&& args.member("dependencies"@) is None ==> dependencies@ == "[]"@
            },
            Action::Evolve { link_count, .. } => match args.member("link_count"@) {
                Some(JsonView::Number(NumberView::Unsigned(n))) => n <= i64::MAX ==> link_count
                    == Some(n as i64),
                Some(JsonView::Number(NumberView::Negative(n))) => link_count == Some(n),
                _ => link_count is None,
            },
            Action::EvolutionLog { change_types, .. } => args.member("change_types"@) is None
                ==> change_types@.len() == 0,
            Action::EntityEdge { weight, .. } => match args.member("weight"@) {
                Some(JsonView::Number(n)) => weight matches Some(w) && w@ == n,
                _ => weight is None,
            },
            _ => true,
        },
{
    lemma_given(args, "subject"@);
    lemma_given(args, "body"@);
    lemma_given(args, "to"@);
    reveal_strlit("ignore");
    reveal_strlit("replace");
    assert("ignore"@.len() != "replace"@.len());
    if let Next::Run(Action::A2aSend { audit, .. }) = p.next {
        let head = "to="@ + given(args, "to"@);
        assert(audit@.subrange(0, head.len() as int) =~= head);
    }
    if let Next::Run(Action::EvolutionLog { change_types, .. }) = p.next {
        if args.member("change_types"@) is None {
            assert(text::texts(change_types@).len() == 0);
        }
    }
}

/// An action reads or writes memories or things of the namespace of its call.
pub open spec fn touches_namespace(a: Action) -> bool {
    match a {
        Action::Search { .. }
        | Action::Remember { .. }
        | Action::IngestDocument { .. }
        | Action::Profile { .. }
        | Action::Context { .. }
        | Action::Observe { .. }
        | Action::QuotaStatus
        | Action::Export { .. }
        | Action::Import { .. }
        | Action::Decay
        | Action::Graph
        | Action::UserPrefs { .. }
        | Action::RecentDecisions { .. }
        | Action::Evolve { .. }
        | Action::EvolutionLog { .. }
        | Action::EvolveAuto { .. }
        | Action::FetchUnconsolidated { .. }
        | Action::DreamGet { .. }
        | Action::DreamUpdate { .. }
        | Action::EntityUpsert { .. }
        | Action::EntityMention { .. }
        | Action::EntityEdge { .. }
        | Action::EntitySearch { .. } => true,
        _ => false,
    }
}

proof fn lemma_namespaced(tool: Seq<char>, i: int)
    requires
        0 <= i < permissions::matrix().len(),
        permissions::matrix()[i].tool == tool,
        permissions::matrix()[i].ns_policy == NsPolicy::NoNamespace,
    ensures
        seq![
            "register_user"@,
            "login_user"@,
            "import_install_memories"@,
            "get_allowed_ns"@,
            "audit_query"@,
            "db_stats"@,
            "agent_list"@,
            "agent_revoke"@,
            "cross_agent_query"@,
            "system_status"@,
            "reasonix_dispatch"@,
            "continue_task"@,
            "auto_route"@,
            "skill_market_search"@,
            "skill_market_info"@,
            "skill_market_publish"@,
            "memory_backup"@,
            "memory_backup_list"@,
            "memory_health"@,
            "memory_migration_manifest"@,
            "memory_merge"@,
            "memory_maintenance_normalize"@,
        ].contains(tool),
{
    let m = permissions::matrix();
    let l = seq![
        "register_user"@,
        "login_user"@,
        "import_install_memories"@,
        "get_allowed_ns"@,
        "audit_query"@,
        "db_stats"@,
        "agent_list"@,
        "agent_revoke"@,
        "cross_agent_query"@,
        "system_status"@,
        "reasonix_dispatch"@,
        "continue_task"@,
        "auto_route"@,
        "skill_market_search"@,
        "skill_market_info"@,
        "skill_market_publish"@,
        "memory_backup"@,
        "memory_backup_list"@,
        "memory_health"@,
        "memory_migration_manifest"@,
        "memory_merge"@,
        "memory_maintenance_normalize"@,
    ];
    assert(m.len() == 56);
    assert(i == 11 || i == 12 || i == 13 || i == 14 || i == 15 || i == 16 || i == 19 || i == 20 || i == 21 || i == 22 || i == 23 || i == 24 || i == 25 || i == 26 || i == 27 || i == 28 || i == 35 || i == 36 || i == 37 || i == 40 || i == 42 || i == 48);
    assert(m[11].tool == "register_user"@ && l[0] == "register_user"@);
    assert(m[12].tool == "login_user"@ && l[1] == "login_user"@);
    assert(m[13].tool == "import_install_memories"@ && l[2] == "import_install_memories"@);
    assert(m[14].tool == "get_allowed_ns"@ && l[3] == "get_allowed_ns"@);
    assert(m[15].tool == "audit_query"@ && l[4] == "audit_query"@);
    assert(m[16].tool == "db_stats"@ && l[5] == "db_stats"@);
    assert(m[19].tool == "agent_list"@ && l[6] == "agent_list"@);
    assert(m[20].tool == "agent_revoke"@ && l[7] == "agent_revoke"@);
    assert(m[21].tool == "cross_agent_query"@ && l[8] == "cross_agent_query"@);
    assert(m[22].tool == "system_status"@ && l[9] == "system_status"@);
    assert(m[23].tool == "reasonix_dispatch"@ && l[10] == "reasonix_dispatch"@);
    assert(m[24].tool == "continue_task"@ && l[11] == "continue_task"@);
    assert(m[25].tool == "auto_route"@ && l[12] == "auto_route"@);
    assert(m[26].tool == "skill_market_search"@ && l[13] == "skill_market_search"@);
    assert(m[27].tool == "skill_market_info"@ && l[14] == "skill_market_info"@);
    assert(m[28].tool == "skill_market_publish"@ && l[15] == "skill_market_publish"@);
    assert(m[35].tool == "memory_backup"@ && l[16] == "memory_backup"@);
    assert(m[36].tool == "memory_backup_list"@ && l[17] == "memory_backup_list"@);
    assert(m[37].tool == "memory_health"@ && l[18] == "memory_health"@);
    assert(m[40].tool == "memory_migration_manifest"@ && l[19] == "memory_migration_manifest"@);
    assert(m[42].tool == "memory_merge"@ && l[20] == "memory_merge"@);
    assert(m[48].tool == "memory_maintenance_normalize"@ && l[21] == "memory_maintenance_normalize"@);
}

/// What is run after the guard stays in a namespace that is open to the caller: whatever reads
/// or writes memories or things does so in a namespace that the caller may use.
pub proof fn law_calls_stay_in_open_namespaces(
    tool: Seq<char>,
    args: JsonView,
    auth: AuthView,
    key: Seq<char>,
    embedding: bool,
    g: Gate,
    p: Plan,
    a: Action,
)
    requires
        mcp_server::gate_says(tool, args, Some(auth), embedding, g),
        g is Dispatch,
        dispatch::call_plan(tool, args, auth, key, p),
        p.next == Next::Run(a),
        touches_namespace(a),
    ensures
        auth::may_access(auth, dispatch::call_ns(args)),
{
    law_calls_do_what_is_asked(tool, args, auth, key, p);
    permissions::law_entries_are_found_by_tool(permissions::matrix(), tool);
    reveal_strlit("memory_search");
    reveal_strlit("memory_search_v2");
    reveal_strlit("memory_recall");
    reveal_strlit("memory_remember");
    reveal_strlit("memory");
    reveal_strlit("ingest_document");
    reveal_strlit("memory_profile");
    reveal_strlit("memory_context");
    reveal_strlit("memory_observe");
    reveal_strlit("memory_quota_status");
    reveal_strlit("memory_export");
    reveal_strlit("memory_import");
    reveal_strlit("memory_decay");
    reveal_strlit("memory_graph");
    reveal_strlit("memory_user_prefs");
    reveal_strlit("memory_recent_decisions");
    reveal_strlit("memory_evolve");
    reveal_strlit("evolution_log_query");
    reveal_strlit("memory_evolve_auto");
    reveal_strlit("memory_fetch_unconsolidated");
    reveal_strlit("dream_state_get");
    reveal_strlit("dream_state_update");
    reveal_strlit("entity_upsert");
    reveal_strlit("entity_add_mention");
    reveal_strlit("entity_add_edge");
    reveal_strlit("entity_search");
    reveal_strlit("register_user");
    reveal_strlit("login_user");
    reveal_strlit("import_install_memories");
    reveal_strlit("get_allowed_ns");
    reveal_strlit("audit_query");
    reveal_strlit("db_stats");
    reveal_strlit("agent_list");
    reveal_strlit("agent_revoke");
    reveal_strlit("cross_agent_query");
    reveal_strlit("system_status");
    reveal_strlit("reasonix_dispatch");
    reveal_strlit("continue_task");
    reveal_strlit("auto_route");
    reveal_strlit("skill_market_search");
    reveal_strlit("skill_market_info");
    reveal_strlit("skill_market_publish");
    reveal_strlit("memory_backup");
    reveal_strlit("memory_backup_list");
    reveal_strlit("memory_health");
    reveal_strlit("memory_migration_manifest");
    reveal_strlit("memory_merge");
    reveal_strlit("memory_maintenance_normalize");
    assert("memory_search"@.len() == 13 && "memory_search_v2"@.len() == 16 && "memory_recall"@.len() == 13 && "memory_remember"@.len() == 15 && "memory"@.len() == 6 && "ingest_document"@.len() == 15 && "memory_profile"@.len() == 14 && "memory_context"@.len() == 14 && "memory_observe"@.len() == 14 && "memory_quota_status"@.len() == 19 && "memory_export"@.len() == 13 && "memory_import"@.len() == 13 && "memory_decay"@.len() == 12 && "memory_graph"@.len() == 12 && "memory_user_prefs"@.len() == 17 && "memory_recent_decisions"@.len() == 23 && "memory_evolve"@.len() == 13 && "evolution_log_query"@.len() == 19 && "memory_evolve_auto"@.len() == 18 && "memory_fetch_unconsolidated"@.len() == 27 && "dream_state_get"@.len() == 15 && "dream_state_update"@.len() == 18 && "entity_upsert"@.len() == 13 && "entity_add_mention"@.len() == 18 && "entity_add_edge"@.len() == 15 && "entity_search"@.len() == 13 && "register_user"@.len() == 13 && "login_user"@.len() == 10 && "import_install_memories"@.len() == 23 && "get_allowed_ns"@.len() == 14 && "audit_query"@.len() == 11 && "db_stats"@.len() == 8 && "agent_list"@.len() == 10 && "agent_revoke"@.len() == 12 && "cross_agent_query"@.len() == 17 && "system_status"@.len() == 13 && "reasonix_dispatch"@.len() == 17 && "continue_task"@.len() == 13 && "auto_route"@.len() == 10 && "skill_market_search"@.len() == 19 && "skill_market_info"@.len() == 17 && "skill_market_publish"@.len() == 20 && "memory_backup"@.len() == 13 && "memory_backup_list"@.len() == 18 && "memory_health"@.len() == 13 && "memory_migration_manifest"@.len() == 25 && "memory_merge"@.len() == 12 && "memory_maintenance_normalize"@.len() == 28);
    assert("memory_recall"@[7] == 'r' && "memory_search"@[7] == 's' && "ingest_document"@[0] == 'i' && "memory_remember"@[0] == 'm' && "memory_context"@[7] == 'c' && "memory_profile"@[7] == 'p' && "memory_observe"@[7] == 'o' && "memory_export"@[7] == 'e' && "memory_import"@[7] == 'i' && "memory_graph"@[7] == 'g' && "memory_decay"@[7] == 'd' && "memory_evolve"@[7] == 'e' && "memory_evolve"@[8] == 'v' && "memory_export"@[8] == 'x' && "evolution_log_query"@[0] == 'e' && "memory_quota_status"@[0] == 'm' && "dream_state_get"@[0] == 'd' && "dream_state_update"@[0] == 'd' && "memory_evolve_auto"@[0] == 'm' && "entity_upsert"@[0] == 'e' && "memory_search"@[0] == 'm' && "memory_recall"@[0] == 'm' && "memory_export"@[0] == 'm' && "memory_import"@[0] == 'm' && "memory_evolve"@[0] == 'm' && "entity_add_mention"@[0] == 'e' && "entity_add_edge"@[0] == 'e' && "entity_search"@[0] == 'e' && "entity_search"@[7] == 's' && "entity_upsert"@[7] == 'u' && "register_user"@[0] == 'r' && "import_install_memories"@[0] == 'i' && "memory_recent_decisions"@[0] == 'm' && "get_allowed_ns"@[0] == 'g' && "memory_profile"@[0] == 'm' && "memory_context"@[0] == 'm' && "memory_observe"@[0] == 'm' && "agent_list"@[0] == 'a' && "login_user"@[0] == 'l' && "agent_revoke"@[0] == 'a' && "memory_decay"@[0] == 'm' && "memory_graph"@[0] == 'm' && "cross_agent_query"@[0] == 'c' && "memory_user_prefs"@[0] == 'm' && "system_status"@[0] == 's' && "reasonix_dispatch"@[0] == 'r' && "continue_task"@[0] == 'c' && "auto_route"@[0] == 'a' && "auto_route"@[1] == 'u' && "agent_list"@[1] == 'g' && "skill_market_search"@[0] == 's' && "skill_market_info"@[0] == 's' && "memory_backup"@[7] == 'b' && "memory_backup"@[0] == 'm' && "memory_backup_list"@[7] == 'b' && "memory_evolve_auto"@[7] == 'e' && "memory_backup_list"@[0] == 'm' && "memory_health"@[7] == 'h' && "memory_health"@[0] == 'm' && "memory_merge"@[7] == 'm' && "memory_merge"@[0] == 'm');
    let m = permissions::matrix();
    if let Some(e) = permissions::find_entry(m, tool) {
        let i = choose|i: int| 0 <= i < m.len() && #[trigger] m[i] == e && e.tool == tool;
        if e.ns_policy == NsPolicy::NoNamespace {
            lemma_namespaced(tool, i);
            let l = seq![
                "register_user"@,
                "login_user"@,
                "import_install_memories"@,
                "get_allowed_ns"@,
                "audit_query"@,
                "db_stats"@,
                "agent_list"@,
                "agent_revoke"@,
                "cross_agent_query"@,
                "system_status"@,
                "reasonix_dispatch"@,
                "continue_task"@,
                "auto_route"@,
                "skill_market_search"@,
                "skill_market_info"@,
                "skill_market_publish"@,
                "memory_backup"@,
                "memory_backup_list"@,
                "memory_health"@,
                "memory_migration_manifest"@,
                "memory_merge"@,
                "memory_maintenance_normalize"@,
            ];
            let k = choose|k: int| 0 <= k < l.len() && l[k] == tool;
            assert(k == 0 || k == 1 || k == 2 || k == 3 || k == 4 || k == 5 || k == 6 || k == 7 || k == 8 || k == 9 || k == 10 || k == 11 || k == 12 || k == 13 || k == 14 || k == 15 || k == 16 || k == 17 || k == 18 || k == 19 || k == 20 || k == 21);
            assert(false);
        }
    }
}

} // verus!
