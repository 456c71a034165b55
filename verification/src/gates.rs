//! Laws that tie the permission matrix to what the tools do.
use vstd::prelude::*;
use crate::auth::AuthView;
use crate::dispatch;
use crate::dispatch::{Action, Next, Plan};
use crate::json::JsonView;
use crate::mcp_server;
use crate::permissions;
use crate::permissions::MinRole;
use crate::text;
use crate::tools;

verus! {

/// How long the names of the tools are.
proof fn lemma_name_lengths()
    ensures
        "memory_search"@.len() == 13,
        "memory_search_v2"@.len() == 16,
        "memory_recall"@.len() == 13,
        "memory_remember"@.len() == 15,
        "memory"@.len() == 6,
        "ingest_document"@.len() == 15,
        "memory_profile"@.len() == 14,
        "memory_context"@.len() == 14,
        "memory_observe"@.len() == 14,
        "memory_quota_status"@.len() == 19,
        "memory_export"@.len() == 13,
        "memory_import"@.len() == 13,
        "memory_migration_manifest"@.len() == 25,
        "register_agent"@.len() == 14,
        "register_user"@.len() == 13,
        "login_user"@.len() == 10,
        "import_install_memories"@.len() == 23,
        "audit_query"@.len() == 11,
        "db_stats"@.len() == 8,
        "a2a_send"@.len() == 8,
        "a2a_recv"@.len() == 8,
        "agent_list"@.len() == 10,
        "agent_revoke"@.len() == 12,
        "skill_market_search"@.len() == 19,
        "skill_market_info"@.len() == 17,
        "skill_market_publish"@.len() == 20,
        "skill_market_install"@.len() == 20,
        "skill_market_list_installed"@.len() == 27,
        "memory_decay"@.len() == 12,
        "memory_graph"@.len() == 12,
        "memory_user_prefs"@.len() == 17,
        "memory_recent_decisions"@.len() == 23,
        "memory_backup"@.len() == 13,
        "memory_backup_list"@.len() == 18,
        "memory_health"@.len() == 13,
        "memory_dedup_chain"@.len() == 18,
        "memory_merge"@.len() == 12,
        "memory_evolve"@.len() == 13,
        "evolution_rollback"@.len() == 18,
        "evolution_log_query"@.len() == 19,
        "memory_evolve_auto"@.len() == 18,
        "agent_registry_cleanup"@.len() == 22,
        "memory_maintenance_normalize"@.len() == 28,
        "memory_fetch_unconsolidated"@.len() == 27,
        "dream_state_get"@.len() == 15,
        "dream_state_update"@.len() == 18,
        "entity_upsert"@.len() == 13,
        "entity_add_mention"@.len() == 18,
        "entity_add_edge"@.len() == 15,
        "entity_search"@.len() == 13,
{
    reveal_strlit("memory_search");
    reveal_strlit("memory_search_v2");
    reveal_strlit("memory_recall");
    reveal_strlit("memory_remember");
    reveal_strlit("memory");
    reveal_strlit("ingest_document");
    reveal_strlit("memory_profile");
    reveal_strlit("memory_context");
    reveal_strlit("memory_observe");
    reveal_strlit("memory_quota_status");
    reveal_strlit("memory_export");
    reveal_strlit("memory_import");
    reveal_strlit("memory_migration_manifest");
    reveal_strlit("register_agent");
    reveal_strlit("register_user");
    reveal_strlit("login_user");
    reveal_strlit("import_install_memories");
    reveal_strlit("audit_query");
    reveal_strlit("db_stats");
    reveal_strlit("a2a_send");
    reveal_strlit("a2a_recv");
    reveal_strlit("agent_list");
    reveal_strlit("agent_revoke");
    reveal_strlit("skill_market_search");
    reveal_strlit("skill_market_info");
    reveal_strlit("skill_market_publish");
    reveal_strlit("skill_market_install");
    reveal_strlit("skill_market_list_installed");
    reveal_strlit("memory_decay");
    reveal_strlit("memory_graph");
    reveal_strlit("memory_user_prefs");
    reveal_strlit("memory_recent_decisions");
    reveal_strlit("memory_backup");
    reveal_strlit("memory_backup_list");
    reveal_strlit("memory_health");
    reveal_strlit("memory_dedup_chain");
    reveal_strlit("memory_merge");
    reveal_strlit("memory_evolve");
    reveal_strlit("evolution_rollback");
    reveal_strlit("evolution_log_query");
    reveal_strlit("memory_evolve_auto");
    reveal_strlit("agent_registry_cleanup");
    reveal_strlit("memory_maintenance_normalize");
    reveal_strlit("memory_fetch_unconsolidated");
    reveal_strlit("dream_state_get");
    reveal_strlit("dream_state_update");
    reveal_strlit("entity_upsert");
    reveal_strlit("entity_add_mention");
    reveal_strlit("entity_add_edge");
    reveal_strlit("entity_search");
}

/// An answer to a caller who passes no admin guard. A call to revoke an agent that names
/// none is told so first.
pub open spec fn closed_answer(t: Seq<char>) -> bool {
    t == dispatch::ADMIN_REQUIRED@ || t == dispatch::ADMIN_KEY_REQUIRED@ || t
        == dispatch::MISSING_AGENT_ID@
}

/// A call of the tool `name` is refused to a caller who passes no admin guard.
pub open spec fn refused_without_admin(
    name: Seq<char>,
    args: JsonView,
    auth: AuthView,
    key: Seq<char>,
    p: Plan,
) -> bool {
    dispatch::call_plan(name, args, auth, key, p) && !dispatch::admin_call(args, auth, key)
        ==> (p.next matches Next::Reply(t) && closed_answer(t@)) && p.charge is None
}

proof fn lemma_register_agent(args: JsonView, auth: AuthView, key: Seq<char>, p: Plan)
    ensures
        refused_without_admin("register_agent"@, args, auth, key, p),
{
    lemma_name_lengths();
    reveal_strlit("register_agent");
    reveal_strlit("memory_profile");
    assert("register_agent"@[0] != "memory_profile"@[0]);
    reveal_strlit("memory_context");
    assert("register_agent"@[0] != "memory_context"@[0]);
    reveal_strlit("memory_observe");
    assert("register_agent"@[0] != "memory_observe"@[0]);
}

proof fn lemma_import_install_memories(args: JsonView, auth: AuthView, key: Seq<char>, p: Plan)
    ensures
        refused_without_admin("import_install_memories"@, args, auth, key, p),
{
    lemma_name_lengths();
}

proof fn lemma_db_stats(args: JsonView, auth: AuthView, key: Seq<char>, p: Plan)
    ensures
        refused_without_admin("db_stats"@, args, auth, key, p),
{
    lemma_name_lengths();
}

proof fn lemma_agent_list(args: JsonView, auth: AuthView, key: Seq<char>, p: Plan)
    ensures
        refused_without_admin("agent_list"@, args, auth, key, p),
{
    lemma_name_lengths();
    reveal_strlit("agent_list");
    reveal_strlit("login_user");
    assert("agent_list"@[0] != "login_user"@[0]);
}

proof fn lemma_agent_revoke(args: JsonView, auth: AuthView, key: Seq<char>, p: Plan)
    ensures
        refused_without_admin("agent_revoke"@, args, auth, key, p),
{
    lemma_name_lengths();
}

proof fn lemma_memory_backup(args: JsonView, auth: AuthView, key: Seq<char>, p: Plan)
    ensures
        refused_without_admin("memory_backup"@, args, auth, key, p),
{
    lemma_name_lengths();
    reveal_strlit("memory_backup");
    reveal_strlit("memory_search");
    assert("memory_backup"@[7] != "memory_search"@[7]);
    reveal_strlit("memory_recall");
    assert("memory_backup"@[7] != "memory_recall"@[7]);
    reveal_strlit("memory_export");
    assert("memory_backup"@[7] != "memory_export"@[7]);
    reveal_strlit("memory_import");
    assert("memory_backup"@[7] != "memory_import"@[7]);
    reveal_strlit("register_user");
    assert("memory_backup"@[0] != "register_user"@[0]);
}

proof fn lemma_memory_backup_list(args: JsonView, auth: AuthView, key: Seq<char>, p: Plan)
    ensures
        refused_without_admin("memory_backup_list"@, args, auth, key, p),
{
    lemma_name_lengths();
}

proof fn lemma_memory_health(args: JsonView, auth: AuthView, key: Seq<char>, p: Plan)
    ensures
        refused_without_admin("memory_health"@, args, auth, key, p),
{
    lemma_name_lengths();
    reveal_strlit("memory_health");
    reveal_strlit("memory_search");
    assert("memory_health"@[7] != "memory_search"@[7]);
    reveal_strlit("memory_recall");
    assert("memory_health"@[7] != "memory_recall"@[7]);
    reveal_strlit("memory_export");
    assert("memory_health"@[7] != "memory_export"@[7]);
    reveal_strlit("memory_import");
    assert("memory_health"@[7] != "memory_import"@[7]);
    reveal_strlit("register_user");
    assert("memory_health"@[0] != "register_user"@[0]);
    reveal_strlit("memory_backup");
    assert("memory_health"@[7] != "memory_backup"@[7]);
}

proof fn lemma_memory_migration_manifest(args: JsonView, auth: AuthView, key: Seq<char>, p: Plan)
    ensures
        refused_without_admin("memory_migration_manifest"@, args, auth, key, p),
{
    lemma_name_lengths();
}

proof fn lemma_memory_merge(args: JsonView, auth: AuthView, key: Seq<char>, p: Plan)
    ensures
        refused_without_admin("memory_merge"@, args, auth, key, p),
{
    lemma_name_lengths();
    reveal_strlit("memory_merge");
    reveal_strlit("agent_revoke");
    assert("memory_merge"@[0] != "agent_revoke"@[0]);
    reveal_strlit("memory_decay");
    assert("memory_merge"@[7] != "memory_decay"@[7]);
    reveal_strlit("memory_graph");
    assert("memory_merge"@[7] != "memory_graph"@[7]);
}

proof fn lemma_evolution_rollback(args: JsonView, auth: AuthView, key: Seq<char>, p: Plan)
    ensures
        refused_without_admin("evolution_rollback"@, args, auth, key, p),
{
    lemma_name_lengths();
    reveal_strlit("evolution_rollback");
    reveal_strlit("memory_backup_list");
    assert("evolution_rollback"@[0] != "memory_backup_list"@[0]);
    reveal_strlit("memory_dedup_chain");
    assert("evolution_rollback"@[0] != "memory_dedup_chain"@[0]);
}

proof fn lemma_agent_registry_cleanup(args: JsonView, auth: AuthView, key: Seq<char>, p: Plan)
    ensures
        refused_without_admin("agent_registry_cleanup"@, args, auth, key, p),
{
    lemma_name_lengths();
}

proof fn lemma_memory_maintenance_normalize(args: JsonView, auth: AuthView, key: Seq<char>, p: Plan)
    ensures
        refused_without_admin("memory_maintenance_normalize"@, args, auth, key, p),
{
    lemma_name_lengths();
}

/// A tool that the permission matrix keeps for administrators is refused, and
/// nothing is charged for it, to every caller who neither has the admin role nor
/// holds the configured key: the answer is one of the texts for that, and begins as every
/// error does.
pub proof fn law_admin_tools_stay_closed(
    i: int,
    args: JsonView,
    auth: AuthView,
    key: Seq<char>,
    p: Plan,
)
    requires
        0 <= i < permissions::matrix().len(),
        permissions::matrix()[i].min_role == MinRole::Admin,
        dispatch::call_plan(permissions::matrix()[i].tool, args, auth, key, p),
        !dispatch::admin_call(args, auth, key),
    ensures
        p.next matches Next::Reply(t) && closed_answer(t@) && text::begins(
            t@,
            "{\"status\":\"error\""@,
        ),
        p.charge is None,
{
    reveal_strlit(r#"{"status":"error","message":"admin required"}"#);
    reveal_strlit(r#"{"status":"error","message":"admin key required"}"#);
    reveal_strlit(r#"{"status":"error","message":"missing agent_id"}"#);
    reveal_strlit("{\"status\":\"error\"");
    let head = "{\"status\":\"error\""@;
    assert(dispatch::ADMIN_REQUIRED@.take(head.len() as int) =~= head);
    assert(dispatch::ADMIN_KEY_REQUIRED@.take(head.len() as int) =~= head);
    assert(dispatch::MISSING_AGENT_ID@.take(head.len() as int) =~= head);
    lemma_register_agent(args, auth, key, p);
    lemma_import_install_memories(args, auth, key, p);
    lemma_db_stats(args, auth, key, p);
    lemma_agent_list(args, auth, key, p);
    lemma_agent_revoke(args, auth, key, p);
    lemma_memory_backup(args, auth, key, p);
    lemma_memory_backup_list(args, auth, key, p);
    lemma_memory_health(args, auth, key, p);
    lemma_memory_migration_manifest(args, auth, key, p);
    lemma_memory_merge(args, auth, key, p);
    lemma_evolution_rollback(args, auth, key, p);
    lemma_agent_registry_cleanup(args, auth, key, p);
    lemma_memory_maintenance_normalize(args, auth, key, p);
    let m = permissions::matrix();
    assert(i == 10 || i == 13 || i == 16 || i == 19 || i == 20 || i == 35 || i == 36 || i == 37 || i == 40 || i == 42 || i == 44 || i == 47 || i == 48);
    assert(m[10].tool == "register_agent"@);
    assert(m[13].tool == "import_install_memories"@);
    assert(m[16].tool == "db_stats"@);
    assert(m[19].tool == "agent_list"@);
    assert(m[20].tool == "agent_revoke"@);
    assert(m[35].tool == "memory_backup"@);
    assert(m[36].tool == "memory_backup_list"@);
    assert(m[37].tool == "memory_health"@);
    assert(m[40].tool == "memory_migration_manifest"@);
    assert(m[42].tool == "memory_merge"@);
    assert(m[44].tool == "evolution_rollback"@);
    assert(m[47].tool == "agent_registry_cleanup"@);
    assert(m[48].tool == "memory_maintenance_normalize"@);
}

/// A caller sees only its own entries of the audit log, unless it has the admin role:
/// what it asks for is confined to its own id.
pub proof fn law_audit_trails_are_own(args: JsonView, auth: AuthView, key: Seq<char>, p: Plan)
    requires
        dispatch::call_plan("audit_query"@, args, auth, key, p),
    ensures
        p.next matches Next::Run(Action::AuditQuery { agent, limit }) && (auth.role != "admin"@
            ==> text::opt_text(agent) == Some(auth.agent_id)),
{
    lemma_name_lengths();
}

/// The beginning of an answer that tells a status.
spec fn is_status(s: Seq<char>) -> bool {
    s.len() > 2 && s[2] == 's'
}

proof fn lemma_refusals_tell_a_status()
    ensures
        is_status(dispatch::ADMIN_REQUIRED@),
        is_status(dispatch::ADMIN_KEY_REQUIRED@),
        is_status(dispatch::TEXT_REQUIRED@),
        is_status(dispatch::JSONL_REQUIRED@),
        is_status(dispatch::CREDENTIALS_REQUIRED@),
        is_status(dispatch::PASSWORD_TOO_SHORT@),
        is_status(dispatch::NAMESPACES_REQUIRED@),
        is_status(dispatch::MISSING_TO@),
        is_status(dispatch::INVALID_TO@),
        is_status(dispatch::FOREIGN_TO@),
        is_status(dispatch::MISSING_AGENT_ID@),
        is_status(dispatch::MISSING_NAME@),
        is_status(dispatch::NO_PUBLISH@),
        is_status(dispatch::INVALID_VISIBILITY@),
        is_status(dispatch::MISSING_SKILL@),
        is_status(dispatch::NO_INSTALL@),
        is_status(dispatch::NO_SKILL_VIEW@),
        is_status(dispatch::MISSING_MEMORY_ID@),
        is_status(dispatch::MISSING_MERGE_IDS@),
        is_status(dispatch::MISSING_EVOLVED@),
        is_status(dispatch::NS_DENIED@),
        is_status(dispatch::NS_NOT_AUTHORIZED@),
        is_status(dispatch::MISSING_LOG_ID@),
        is_status(dispatch::CURSOR_REQUIRED@),
{
    reveal_strlit(r#"{"status":"error","message":"admin required"}"#);
    reveal_strlit(r#"{"status":"error","message":"admin key required"}"#);
    reveal_strlit(r#"{"status":"error","code":400,"message":"text required"}"#);
    reveal_strlit(r#"{"status":"error","message":"jsonl 必填"}"#);
    reveal_strlit(r#"{"status":"error","message":"user_id 与 password 必填"}"#);
    reveal_strlit(r#"{"status":"error","message":"口令至少 6 位"}"#);
    reveal_strlit(r#"{"status":"error","message":"from_ns / to_ns 必填且不能相同"}"#);
    reveal_strlit(r#"{"status":"error","message":"missing 'to'"}"#);
    reveal_strlit(r#"{"status":"error","message":"invalid 'to' format: agent-id only, max 64 chars"}"#);
    reveal_strlit(r#"{"status":"error","message":"无权向该 Agent 发送消息（超出命名空间授权范围）"}"#);
    reveal_strlit(r#"{"status":"error","message":"missing agent_id"}"#);
    reveal_strlit(r#"{"status":"error","message":"missing name"}"#);
    reveal_strlit(r#"{"status":"error","message":"no permission to publish to this visibility"}"#);
    reveal_strlit(r#"{"status":"error","message":"invalid visibility"}"#);
    reveal_strlit(r#"{"status":"error","message":"missing skill_name or target_agent"}"#);
    reveal_strlit(r#"{"status":"error","message":"no permission to install on this agent"}"#);
    reveal_strlit(r#"{"status":"error","message":"no permission to view this agent's installed skills"}"#);
    reveal_strlit(r#"{"status":"error","message":"missing memory_id"}"#);
    reveal_strlit(r#"{"status":"error","message":"missing keep_id or merge_id"}"#);
    reveal_strlit(r#"{"status":"error","message":"missing target_id or evolved_context"}"#);
    reveal_strlit(r#"{"status":"error","message":"ns access denied"}"#);
    reveal_strlit(r#"{"status":"error","message":"namespace not authorized"}"#);
    reveal_strlit(r#"{"status":"error","message":"missing log_id"}"#);
    reveal_strlit(r#"{"status":"error","message":"cursor_ts must be non-empty ISO-8601"}"#);
}

/// A tool that is not known is answered with that, whatever the caller may do.
pub proof fn law_unknown_tools_are_refused(
    tool: Seq<char>,
    args: JsonView,
    auth: AuthView,
    key: Seq<char>,
    p: Plan,
)
    requires
        dispatch::call_plan(tool, args, auth, key, p),
        !dispatch::known_tool(tool),
    ensures
        dispatch::refuses(p, dispatch::unknown_tool(tool)),
{
}

/// A tool that is known is never answered as if it were not.
pub proof fn law_known_tools_are_answered(
    tool: Seq<char>,
    args: JsonView,
    auth: AuthView,
    key: Seq<char>,
    p: Plan,
)
    requires
        dispatch::call_plan(tool, args, auth, key, p),
        dispatch::known_tool(tool),
    ensures
        !dispatch::refuses(p, dispatch::unknown_tool(tool)),
{
    lemma_refusals_tell_a_status();
    reveal_strlit("{\"error\":\"Unknown tool: ");
    reveal_strlit("{\"status\":\"error\",\"message\":\"invalid relation_type '");
    assert(dispatch::unknown_tool(tool)[2] == 'e');
}

/// A tool has its place: it is answered here, by the bridge, or by the guard itself.
pub open spec fn offered(tool: Seq<char>) -> bool {
    dispatch::known_tool(tool) || mcp_server::bridge_tool(tool) || tool == "get_allowed_ns"@
}

/// Every tool that the service offers has its place.
pub proof fn law_offered_tools_are_known(i: int)
    requires
        0 <= i < tools::tool_table().len(),
    ensures
        offered(tools::tool_table()[i].name),
{
    let t = tools::tool_table();
    assert(offered(t[0].name));
    assert(offered(t[1].name));
    assert(offered(t[2].name));
    assert(offered(t[3].name));
    assert(offered(t[4].name));
    assert(offered(t[5].name));
    assert(offered(t[6].name));
    assert(offered(t[7].name));
    assert(offered(t[8].name));
    assert(offered(t[9].name));
    assert(offered(t[10].name));
    assert(offered(t[11].name));
    assert(offered(t[12].name));
    assert(offered(t[13].name));
    assert(offered(t[14].name));
    assert(offered(t[15].name));
    assert(offered(t[16].name));
    assert(offered(t[17].name));
    assert(offered(t[18].name));
    assert(offered(t[19].name));
    assert(offered(t[20].name));
    assert(offered(t[21].name));
    assert(offered(t[22].name));
    assert(offered(t[23].name));
    assert(offered(t[24].name));
    assert(offered(t[25].name));
    assert(offered(t[26].name));
    assert(offered(t[27].name));
    assert(offered(t[28].name));
    assert(offered(t[29].name));
    assert(offered(t[30].name));
    assert(offered(t[31].name));
    assert(offered(t[32].name));
    assert(offered(t[33].name));
    assert(offered(t[34].name));
    assert(offered(t[35].name));
    assert(offered(t[36].name));
    assert(offered(t[37].name));
    assert(offered(t[38].name));
    assert(offered(t[39].name));
    assert(offered(t[40].name));
    assert(offered(t[41].name));
    assert(offered(t[42].name));
    assert(offered(t[43].name));
    assert(offered(t[44].name));
    assert(offered(t[45].name));
    assert(offered(t[46].name));
    assert(offered(t[47].name));
    assert(offered(t[48].name));
    assert(offered(t[49].name));
    assert(offered(t[50].name));
    assert(offered(t[51].name));
    assert(offered(t[52].name));
    assert(offered(t[53].name));
    assert(offered(t[54].name));
    assert(offered(t[55].name));
}

/// The tools that are refused to whoever is no administrator.
pub open spec fn administrative(tool: Seq<char>) -> bool {
    seq![
        "memory_migration_manifest"@,
        "register_agent"@,
        "import_install_memories"@,
        "db_stats"@,
        "agent_list"@,
        "agent_revoke"@,
        "memory_backup"@,
        "memory_backup_list"@,
        "memory_health"@,
        "memory_merge"@,
        "evolution_rollback"@,
        "agent_registry_cleanup"@,
        "memory_maintenance_normalize"@,
    ].contains(tool)
}

proof fn lemma_open_tools_0()
    ensures
        !administrative("memory_search"@),
        !administrative("memory_search_v2"@),
        !administrative("memory_remember"@),
        !administrative("ingest_document"@),
        !administrative("memory"@),
        !administrative("memory_profile"@),
        !administrative("memory_context"@),
        !administrative("memory_recall"@),
        !administrative("memory_observe"@),
{
    reveal_strlit("memory_migration_manifest");
    reveal_strlit("register_agent");
    reveal_strlit("import_install_memories");
    reveal_strlit("db_stats");
    reveal_strlit("agent_list");
    reveal_strlit("agent_revoke");
    reveal_strlit("memory_backup");
    reveal_strlit("memory_backup_list");
    reveal_strlit("memory_health");
    reveal_strlit("memory_merge");
    reveal_strlit("evolution_rollback");
    reveal_strlit("agent_registry_cleanup");
    reveal_strlit("memory_maintenance_normalize");
    reveal_strlit("memory_search");
    reveal_strlit("memory_search_v2");
    reveal_strlit("memory_remember");
    reveal_strlit("ingest_document");
    reveal_strlit("memory");
    reveal_strlit("memory_profile");
    reveal_strlit("memory_context");
    reveal_strlit("memory_recall");
    reveal_strlit("memory_observe");
    assert("memory_migration_manifest"@.len() == 25 && "register_agent"@.len() == 14 && "import_install_memories"@.len() == 23 && "db_stats"@.len() == 8 && "agent_list"@.len() == 10 && "agent_revoke"@.len() == 12 && "memory_backup"@.len() == 13 && "memory_backup_list"@.len() == 18 && "memory_health"@.len() == 13 && "memory_merge"@.len() == 12 && "evolution_rollback"@.len() == 18 && "agent_registry_cleanup"@.len() == 22 && "memory_maintenance_normalize"@.len() == 28 && "memory_search"@.len() == 13 && "memory_search_v2"@.len() == 16 && "memory_remember"@.len() == 15 && "ingest_document"@.len() == 15 && "memory"@.len() == 6 && "memory_profile"@.len() == 14 && "memory_context"@.len() == 14 && "memory_recall"@.len() == 13 && "memory_observe"@.len() == 14);
    assert("memory_health"@[7] == 'h' && "memory_backup"@[7] == 'b' && "memory_merge"@[0] == 'm' && "agent_revoke"@[0] == 'a' && "evolution_rollback"@[0] == 'e' && "memory_backup_list"@[0] == 'm' && "memory_search"@[7] == 's' && "ingest_document"@[0] == 'i' && "memory_remember"@[0] == 'm' && "memory_profile"@[0] == 'm' && "register_agent"@[0] == 'r' && "memory_context"@[0] == 'm' && "memory_context"@[7] == 'c' && "memory_profile"@[7] == 'p' && "memory_recall"@[7] == 'r' && "memory_observe"@[0] == 'm' && "memory_observe"@[7] == 'o');
}

proof fn lemma_open_tools_1()
    ensures
        !administrative("memory_quota_status"@),
        !administrative("register_user"@),
        !administrative("login_user"@),
        !administrative("get_allowed_ns"@),
        !administrative("audit_query"@),
        !administrative("a2a_send"@),
        !administrative("a2a_recv"@),
        !administrative("cross_agent_query"@),
        !administrative("system_status"@),
{
    reveal_strlit("memory_migration_manifest");
    reveal_strlit("register_agent");
    reveal_strlit("import_install_memories");
    reveal_strlit("db_stats");
    reveal_strlit("agent_list");
    reveal_strlit("agent_revoke");
    reveal_strlit("memory_backup");
    reveal_strlit("memory_backup_list");
    reveal_strlit("memory_health");
    reveal_strlit("memory_merge");
    reveal_strlit("evolution_rollback");
    reveal_strlit("agent_registry_cleanup");
    reveal_strlit("memory_maintenance_normalize");
    reveal_strlit("memory_quota_status");
    reveal_strlit("register_user");
    reveal_strlit("login_user");
    reveal_strlit("get_allowed_ns");
    reveal_strlit("audit_query");
    reveal_strlit("a2a_send");
    reveal_strlit("a2a_recv");
    reveal_strlit("cross_agent_query");
    reveal_strlit("system_status");
    assert("memory_migration_manifest"@.len() == 25 && "register_agent"@.len() == 14 && "import_install_memories"@.len() == 23 && "db_stats"@.len() == 8 && "agent_list"@.len() == 10 && "agent_revoke"@.len() == 12 && "memory_backup"@.len() == 13 && "memory_backup_list"@.len() == 18 && "memory_health"@.len() == 13 && "memory_merge"@.len() == 12 && "evolution_rollback"@.len() == 18 && "agent_registry_cleanup"@.len() == 22 && "memory_maintenance_normalize"@.len() == 28 && "memory_quota_status"@.len() == 19 && "register_user"@.len() == 13 && "login_user"@.len() == 10 && "get_allowed_ns"@.len() == 14 && "audit_query"@.len() == 11 && "a2a_send"@.len() == 8 && "a2a_recv"@.len() == 8 && "cross_agent_query"@.len() == 17 && "system_status"@.len() == 13);
    assert("memory_health"@[7] == 'h' && "memory_backup"@[7] == 'b' && "memory_merge"@[0] == 'm' && "agent_revoke"@[0] == 'a' && "evolution_rollback"@[0] == 'e' && "memory_backup_list"@[0] == 'm' && "register_user"@[0] == 'r' && "memory_backup"@[0] == 'm' && "memory_health"@[0] == 'm' && "login_user"@[0] == 'l' && "agent_list"@[0] == 'a' && "get_allowed_ns"@[0] == 'g' && "register_agent"@[0] == 'r' && "a2a_send"@[0] == 'a' && "db_stats"@[0] == 'd' && "a2a_recv"@[0] == 'a' && "a2a_recv"@[4] == 'r' && "a2a_send"@[4] == 's' && "system_status"@[0] == 's');
}

proof fn lemma_open_tools_2()
    ensures
        !administrative("reasonix_dispatch"@),
        !administrative("continue_task"@),
        !administrative("auto_route"@),
        !administrative("skill_market_search"@),
        !administrative("skill_market_info"@),
        !administrative("skill_market_publish"@),
        !administrative("skill_market_install"@),
        !administrative("skill_market_list_installed"@),
        !administrative("memory_decay"@),
{
    reveal_strlit("memory_migration_manifest");
    reveal_strlit("register_agent");
    reveal_strlit("import_install_memories");
    reveal_strlit("db_stats");
    reveal_strlit("agent_list");
    reveal_strlit("agent_revoke");
    reveal_strlit("memory_backup");
    reveal_strlit("memory_backup_list");
    reveal_strlit("memory_health");
    reveal_strlit("memory_merge");
    reveal_strlit("evolution_rollback");
    reveal_strlit("agent_registry_cleanup");
    reveal_strlit("memory_maintenance_normalize");
    reveal_strlit("reasonix_dispatch");
    reveal_strlit("continue_task");
    reveal_strlit("auto_route");
    reveal_strlit("skill_market_search");
    reveal_strlit("skill_market_info");
    reveal_strlit("skill_market_publish");
    reveal_strlit("skill_market_install");
    reveal_strlit("skill_market_list_installed");
    reveal_strlit("memory_decay");
    assert("memory_migration_manifest"@.len() == 25 && "register_agent"@.len() == 14 && "import_install_memories"@.len() == 23 && "db_stats"@.len() == 8 && "agent_list"@.len() == 10 && "agent_revoke"@.len() == 12 && "memory_backup"@.len() == 13 && "memory_backup_list"@.len() == 18 && "memory_health"@.len() == 13 && "memory_merge"@.len() == 12 && "evolution_rollback"@.len() == 18 && "agent_registry_cleanup"@.len() == 22 && "memory_maintenance_normalize"@.len() == 28 && "reasonix_dispatch"@.len() == 17 && "continue_task"@.len() == 13 && "auto_route"@.len() == 10 && "skill_market_search"@.len() == 19 && "skill_market_info"@.len() == 17 && "skill_market_publish"@.len() == 20 && "skill_market_install"@.len() == 20 && "skill_market_list_installed"@.len() == 27 && "memory_decay"@.len() == 12);
    assert("memory_health"@[7] == 'h' && "memory_backup"@[7] == 'b' && "memory_merge"@[0] == 'm' && "agent_revoke"@[0] == 'a' && "evolution_rollback"@[0] == 'e' && "memory_backup_list"@[0] == 'm' && "continue_task"@[0] == 'c' && "memory_backup"@[0] == 'm' && "memory_health"@[0] == 'm' && "auto_route"@[1] == 'u' && "agent_list"@[1] == 'g' && "skill_market_info"@[0] == 's' && "reasonix_dispatch"@[0] == 'r' && "skill_market_install"@[13] == 'i' && "skill_market_publish"@[13] == 'p' && "memory_decay"@[0] == 'm' && "memory_decay"@[7] == 'd' && "memory_merge"@[7] == 'm');
}

proof fn lemma_open_tools_3()
    ensures
        !administrative("memory_graph"@),
        !administrative("memory_user_prefs"@),
        !administrative("memory_recent_decisions"@),
        !administrative("memory_export"@),
        !administrative("memory_import"@),
        !administrative("memory_dedup_chain"@),
        !administrative("memory_evolve"@),
        !administrative("evolution_log_query"@),
        !administrative("memory_evolve_auto"@),
{
    reveal_strlit("memory_migration_manifest");
    reveal_strlit("register_agent");
    reveal_strlit("import_install_memories");
    reveal_strlit("db_stats");
    reveal_strlit("agent_list");
    reveal_strlit("agent_revoke");
    reveal_strlit("memory_backup");
    reveal_strlit("memory_backup_list");
    reveal_strlit("memory_health");
    reveal_strlit("memory_merge");
    reveal_strlit("evolution_rollback");
    reveal_strlit("agent_registry_cleanup");
    reveal_strlit("memory_maintenance_normalize");
    reveal_strlit("memory_graph");
    reveal_strlit("memory_user_prefs");
    reveal_strlit("memory_recent_decisions");
    reveal_strlit("memory_export");
    reveal_strlit("memory_import");
    reveal_strlit("memory_dedup_chain");
    reveal_strlit("memory_evolve");
    reveal_strlit("evolution_log_query");
    reveal_strlit("memory_evolve_auto");
    assert("memory_migration_manifest"@.len() == 25 && "register_agent"@.len() == 14 && "import_install_memories"@.len() == 23 && "db_stats"@.len() == 8 && "agent_list"@.len() == 10 && "agent_revoke"@.len() == 12 && "memory_backup"@.len() == 13 && "memory_backup_list"@.len() == 18 && "memory_health"@.len() == 13 && "memory_merge"@.len() == 12 && "evolution_rollback"@.len() == 18 && "agent_registry_cleanup"@.len() == 22 && "memory_maintenance_normalize"@.len() == 28 && "memory_graph"@.len() == 12 && "memory_user_prefs"@.len() == 17 && "memory_recent_decisions"@.len() == 23 && "memory_export"@.len() == 13 && "memory_import"@.len() == 13 && "memory_dedup_chain"@.len() == 18 && "memory_evolve"@.len() == 13 && "evolution_log_query"@.len() == 19 && "memory_evolve_auto"@.len() == 18);
    assert("memory_health"@[7] == 'h' && "memory_backup"@[7] == 'b' && "memory_merge"@[0] == 'm' && "agent_revoke"@[0] == 'a' && "evolution_rollback"@[0] == 'e' && "memory_backup_list"@[0] == 'm' && "memory_graph"@[0] == 'm' && "memory_graph"@[7] == 'g' && "memory_merge"@[7] == 'm' && "memory_recent_decisions"@[0] == 'm' && "import_install_memories"@[0] == 'i' && "memory_export"@[7] == 'e' && "memory_import"@[7] == 'i' && "memory_dedup_chain"@[7] == 'd' && "memory_backup_list"@[7] == 'b' && "memory_dedup_chain"@[0] == 'm' && "memory_evolve"@[7] == 'e' && "memory_evolve"@[8] == 'v' && "memory_export"@[8] == 'x' && "memory_evolve_auto"@[7] == 'e' && "memory_evolve_auto"@[0] == 'm');
}

proof fn lemma_open_tools_4()
    ensures
        !administrative("memory_fetch_unconsolidated"@),
        !administrative("dream_state_get"@),
        !administrative("dream_state_update"@),
        !administrative("entity_upsert"@),
        !administrative("entity_add_mention"@),
        !administrative("entity_add_edge"@),
        !administrative("entity_search"@),
{
    reveal_strlit("memory_migration_manifest");
    reveal_strlit("register_agent");
    reveal_strlit("import_install_memories");
    reveal_strlit("db_stats");
    reveal_strlit("agent_list");
    reveal_strlit("agent_revoke");
    reveal_strlit("memory_backup");
    reveal_strlit("memory_backup_list");
    reveal_strlit("memory_health");
    reveal_strlit("memory_merge");
    reveal_strlit("evolution_rollback");
    reveal_strlit("agent_registry_cleanup");
    reveal_strlit("memory_maintenance_normalize");
    reveal_strlit("memory_fetch_unconsolidated");
    reveal_strlit("dream_state_get");
    reveal_strlit("dream_state_update");
    reveal_strlit("entity_upsert");
    reveal_strlit("entity_add_mention");
    reveal_strlit("entity_add_edge");
    reveal_strlit("entity_search");
    assert("memory_migration_manifest"@.len() == 25 && "register_agent"@.len() == 14 && "import_install_memories"@.len() == 23 && "db_stats"@.len() == 8 && "agent_list"@.len() == 10 && "agent_revoke"@.len() == 12 && "memory_backup"@.len() == 13 && "memory_backup_list"@.len() == 18 && "memory_health"@.len() == 13 && "memory_merge"@.len() == 12 && "evolution_rollback"@.len() == 18 && "agent_registry_cleanup"@.len() == 22 && "memory_maintenance_normalize"@.len() == 28 && "memory_fetch_unconsolidated"@.len() == 27 && "dream_state_get"@.len() == 15 && "dream_state_update"@.len() == 18 && "entity_upsert"@.len() == 13 && "entity_add_mention"@.len() == 18 && "entity_add_edge"@.len() == 15 && "entity_search"@.len() == 13);
    assert("memory_health"@[7] == 'h' && "memory_backup"@[7] == 'b' && "memory_merge"@[0] == 'm' && "agent_revoke"@[0] == 'a' && "evolution_rollback"@[0] == 'e' && "memory_backup_list"@[0] == 'm' && "dream_state_update"@[0] == 'd' && "entity_upsert"@[0] == 'e' && "memory_backup"@[0] == 'm' && "memory_health"@[0] == 'm' && "entity_add_mention"@[0] == 'e' && "entity_add_mention"@[1] == 'n' && "evolution_rollback"@[1] == 'v' && "entity_add_edge"@[0] == 'e' && "dream_state_get"@[0] == 'd' && "entity_search"@[0] == 'e' && "entity_search"@[7] == 's' && "entity_upsert"@[7] == 'u');
}

/// The matrix keeps for administrators the tools that are refused to everyone else, and no
/// others.
pub proof fn law_matrix_keeps_the_guarded_tools(i: int)
    requires
        0 <= i < permissions::matrix().len(),
    ensures
        permissions::matrix()[i].min_role == MinRole::Admin <==> administrative(
            permissions::matrix()[i].tool,
        ),
{
    let m = permissions::matrix();
    let l = seq![
        "memory_migration_manifest"@,
        "register_agent"@,
        "import_install_memories"@,
        "db_stats"@,
        "agent_list"@,
        "agent_revoke"@,
        "memory_backup"@,
        "memory_backup_list"@,
        "memory_health"@,
        "memory_merge"@,
        "evolution_rollback"@,
        "agent_registry_cleanup"@,
        "memory_maintenance_normalize"@,
    ];
    lemma_open_tools_0();
    lemma_open_tools_1();
    lemma_open_tools_2();
    lemma_open_tools_3();
    lemma_open_tools_4();
    assert(m.len() == 56);
    if m[i].min_role == MinRole::Admin {
        assert(i == 10 || i == 13 || i == 16 || i == 19 || i == 20 || i == 35 || i == 36 || i == 37 || i == 40 || i == 42 || i == 44 || i == 47 || i == 48);
        assert(m[10].tool == "register_agent"@ && l[1] == "register_agent"@);
        assert(m[13].tool == "import_install_memories"@ && l[2] == "import_install_memories"@);
        assert(m[16].tool == "db_stats"@ && l[3] == "db_stats"@);
        assert(m[19].tool == "agent_list"@ && l[4] == "agent_list"@);
        assert(m[20].tool == "agent_revoke"@ && l[5] == "agent_revoke"@);
        assert(m[35].tool == "memory_backup"@ && l[6] == "memory_backup"@);
        assert(m[36].tool == "memory_backup_list"@ && l[7] == "memory_backup_list"@);
        assert(m[37].tool == "memory_health"@ && l[8] == "memory_health"@);
        assert(m[40].tool == "memory_migration_manifest"@ && l[0] == "memory_migration_manifest"@);
        assert(m[42].tool == "memory_merge"@ && l[9] == "memory_merge"@);
        assert(m[44].tool == "evolution_rollback"@ && l[10] == "evolution_rollback"@);
        assert(m[47].tool == "agent_registry_cleanup"@ && l[11] == "agent_registry_cleanup"@);
        assert(m[48].tool == "memory_maintenance_normalize"@ && l[12] == "memory_maintenance_normalize"@);
    } else {
        assert(i == 0 || i == 1 || i == 2 || i == 3 || i == 4 || i == 5 || i == 6 || i == 7 || i == 8 || i == 9 || i == 11 || i == 12 || i == 14 || i == 15 || i == 17 || i == 18 || i == 21 || i == 22 || i == 23 || i == 24 || i == 25 || i == 26 || i == 27 || i == 28 || i == 29 || i == 30 || i == 31 || i == 32 || i == 33 || i == 34 || i == 38 || i == 39 || i == 41 || i == 43 || i == 45 || i == 46 || i == 49 || i == 50 || i == 51 || i == 52 || i == 53 || i == 54 || i == 55);
        assert(m[0].tool == "memory_search"@);
        assert(m[1].tool == "memory_search_v2"@);
        assert(m[2].tool == "memory_remember"@);
        assert(m[3].tool == "ingest_document"@);
        assert(m[4].tool == "memory"@);
        assert(m[5].tool == "memory_profile"@);
        assert(m[6].tool == "memory_context"@);
        assert(m[7].tool == "memory_recall"@);
        assert(m[8].tool == "memory_observe"@);
        assert(m[9].tool == "memory_quota_status"@);
        assert(m[11].tool == "register_user"@);
        assert(m[12].tool == "login_user"@);
        assert(m[14].tool == "get_allowed_ns"@);
        assert(m[15].tool == "audit_query"@);
        assert(m[17].tool == "a2a_send"@);
        assert(m[18].tool == "a2a_recv"@);
        assert(m[21].tool == "cross_agent_query"@);
        assert(m[22].tool == "system_status"@);
        assert(m[23].tool == "reasonix_dispatch"@);
        assert(m[24].tool == "continue_task"@);
        assert(m[25].tool == "auto_route"@);
        assert(m[26].tool == "skill_market_search"@);
        assert(m[27].tool == "skill_market_info"@);
        assert(m[28].tool == "skill_market_publish"@);
        assert(m[29].tool == "skill_market_install"@);
        assert(m[30].tool == "skill_market_list_installed"@);
        assert(m[31].tool == "memory_decay"@);
        assert(m[32].tool == "memory_graph"@);
        assert(m[33].tool == "memory_user_prefs"@);
        assert(m[34].tool == "memory_recent_decisions"@);
        assert(m[38].tool == "memory_export"@);
        assert(m[39].tool == "memory_import"@);
        assert(m[41].tool == "memory_dedup_chain"@);
        assert(m[43].tool == "memory_evolve"@);
        assert(m[45].tool == "evolution_log_query"@);
        assert(m[46].tool == "memory_evolve_auto"@);
        assert(m[49].tool == "memory_fetch_unconsolidated"@);
        assert(m[50].tool == "dream_state_get"@);
        assert(m[51].tool == "dream_state_update"@);
        assert(m[52].tool == "entity_upsert"@);
        assert(m[53].tool == "entity_add_mention"@);
        assert(m[54].tool == "entity_add_edge"@);
        assert(m[55].tool == "entity_search"@);
    }
}

} // verus!
