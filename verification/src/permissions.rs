//! Who may use which tool: the permission matrix and the admin guard.
use vstd::prelude::*;
use crate::auth;
use crate::auth::{AuthResult, AuthView};
use crate::text;

verus! {

/// The role that a tool asks for.
#[derive(Debug, Clone, Copy, PartialEq, Eq, Structural)]
pub enum MinRole {
    /// Any authenticated agent.
    Agent,
    /// The admin role, or the configured key.
    Admin,
}

/// Which namespace of a call is checked.
#[derive(Debug, Clone, Copy, PartialEq, Eq, Structural)]
pub enum NsPolicy {
    /// The `namespace` argument, which has to be there.
    NamespaceArg,
    /// The `namespace` argument, or `default` where it is missing.
    DefaultNs,
    /// The namespace that a message goes to.
    TargetNs,
    /// The namespace of the memory that is asked for.
    MemoryIdNs,
    /// The namespace of an agent.
    AgentIdNs,
    /// The caller's own.
    SelfOnly,
    /// The tool knows no namespaces.
    NoNamespace,
}

/// An entry of the permission matrix.
#[derive(Debug, Clone, Copy)]
pub struct Entry {
    pub tool: &'static str,
    pub min_role: MinRole,
    pub ns_policy: NsPolicy,
    pub note: &'static str,
}

/// What an entry is, in texts.
pub struct EntryView {
    pub tool: Seq<char>,
    pub min_role: MinRole,
    pub ns_policy: NsPolicy,
    pub note: Seq<char>,
}

impl Entry {
    pub open spec fn view(&self) -> EntryView {
        EntryView {
            tool: self.tool@,
            min_role: self.min_role,
            ns_policy: self.ns_policy,
            note: self.note@,
        }
    }
}

pub open spec fn entry(
    tool: Seq<char>,
    min_role: MinRole,
    ns_policy: NsPolicy,
    note: Seq<char>,
) -> EntryView {
    EntryView { tool, min_role, ns_policy, note }
}

/// The permission matrix: for each tool the role that it asks for, and how its
/// namespace is checked.
pub open spec fn matrix() -> Seq<EntryView> {
    seq![
        entry("memory_search"@, MinRole::Agent, NsPolicy::NamespaceArg, "混合检索"@),
        entry("memory_search_v2"@, MinRole::Agent, NsPolicy::NamespaceArg, "多信号融合检索"@),
        entry("memory_remember"@, MinRole::Agent, NsPolicy::NamespaceArg, "写入记忆"@),
        entry("ingest_document"@, MinRole::Agent, NsPolicy::DefaultNs, "部门共享文档入库"@),
        entry("memory"@, MinRole::Agent, NsPolicy::NamespaceArg, "memory_remember 薄别名"@),
        entry("memory_profile"@, MinRole::Agent, NsPolicy::NamespaceArg, "会话开场静态/动态合成视图（P0-3）"@),
        entry("memory_context"@, MinRole::Agent, NsPolicy::NamespaceArg, "profile + recall 合成 prompt_block（P0-3）"@),
        entry("memory_recall"@, MinRole::Agent, NsPolicy::NamespaceArg, "回忆检索别名（走 search 配额）"@),
        entry("memory_observe"@, MinRole::Agent, NsPolicy::NamespaceArg, "低优先级观察"@),
        entry("memory_quota_status"@, MinRole::Agent, NsPolicy::NamespaceArg, "配额用量查询（P2-2）"@),
        entry("register_agent"@, MinRole::Admin, NsPolicy::NamespaceArg, "创建 Agent（admin）"@),
        entry("register_user"@, MinRole::Agent, NsPolicy::NoNamespace, "本地账密注册"@),
        entry("login_user"@, MinRole::Agent, NsPolicy::NoNamespace, "本地账密登录"@),
        entry("import_install_memories"@, MinRole::Admin, NsPolicy::NoNamespace, "命名空间迁移（admin）"@),
        entry("get_allowed_ns"@, MinRole::Agent, NsPolicy::NoNamespace, "返回自身授权 ns"@),
        entry("audit_query"@, MinRole::Agent, NsPolicy::NoNamespace, "审计日志查询（自身范围）"@),
        entry("db_stats"@, MinRole::Admin, NsPolicy::NoNamespace, "全库统计含 agent_registry/审计/HNSW（admin，新增门禁）"@),
        entry("a2a_send"@, MinRole::Agent, NsPolicy::TargetNs, "目标 agent ns 须授权"@),
        entry("a2a_recv"@, MinRole::Agent, NsPolicy::SelfOnly, "仅自身收件箱"@),
        entry("agent_list"@, MinRole::Admin, NsPolicy::NoNamespace, "列出 Agent（admin）"@),
        entry("agent_revoke"@, MinRole::Admin, NsPolicy::NoNamespace, "吊销 Agent（admin）"@),
        entry("cross_agent_query"@, MinRole::Agent, NsPolicy::NoNamespace, "Bridge 转发"@),
        entry("system_status"@, MinRole::Agent, NsPolicy::NoNamespace, "Bridge 转发"@),
        entry("reasonix_dispatch"@, MinRole::Agent, NsPolicy::NoNamespace, "Bridge 转发"@),
        entry("continue_task"@, MinRole::Agent, NsPolicy::NoNamespace, "Bridge 转发"@),
        entry("auto_route"@, MinRole::Agent, NsPolicy::NoNamespace, "Bridge 转发"@),
        entry("skill_market_search"@, MinRole::Agent, NsPolicy::NoNamespace, "公开/同 ns 技能搜索"@),
        entry("skill_market_info"@, MinRole::Agent, NsPolicy::NoNamespace, "技能详情（公开）"@),
        entry("skill_market_publish"@, MinRole::Agent, NsPolicy::NoNamespace, "admin 或同 visibility ns 可发布"@),
        entry("skill_market_install"@, MinRole::Agent, NsPolicy::AgentIdNs, "admin 或同 ns 管理权可安装"@),
        entry("skill_market_list_installed"@, MinRole::Agent, NsPolicy::AgentIdNs, "仅自身/授权 ns（新增 NS 校验）"@),
        entry("memory_decay"@, MinRole::Agent, NsPolicy::NamespaceArg, "衰减循环"@),
        entry("memory_graph"@, MinRole::Agent, NsPolicy::NamespaceArg, "构建关系图"@),
        entry("memory_user_prefs"@, MinRole::Agent, NsPolicy::NamespaceArg, "用户偏好"@),
        entry("memory_recent_decisions"@, MinRole::Agent, NsPolicy::NamespaceArg, "最近决策"@),
        entry("memory_backup"@, MinRole::Admin, NsPolicy::NoNamespace, "手动备份（admin）"@),
        entry("memory_backup_list"@, MinRole::Admin, NsPolicy::NoNamespace, "列出备份（admin）"@),
        entry("memory_health"@, MinRole::Admin, NsPolicy::NoNamespace, "健康报告（admin）"@),
        entry("memory_export"@, MinRole::Agent, NsPolicy::NamespaceArg, "导出本 ns 记忆/实体"@),
        entry("memory_import"@, MinRole::Agent, NsPolicy::NamespaceArg, "导入到本 ns（幂等）"@),
        entry("memory_migration_manifest"@, MinRole::Admin, NsPolicy::NoNamespace, "迁移包校验和（admin）"@),
        entry("memory_dedup_chain"@, MinRole::Agent, NsPolicy::MemoryIdNs, "记忆所属 ns 须授权"@),
        entry("memory_merge"@, MinRole::Admin, NsPolicy::NoNamespace, "合并记忆（admin）"@),
        entry("memory_evolve"@, MinRole::Agent, NsPolicy::DefaultNs, "演化写回（与写入同权）"@),
        entry("evolution_rollback"@, MinRole::Admin, NsPolicy::NamespaceArg, "演化回滚（admin）"@),
        entry("evolution_log_query"@, MinRole::Agent, NsPolicy::NamespaceArg, "演化日志只读查询"@),
        entry("memory_evolve_auto"@, MinRole::Agent, NsPolicy::DefaultNs, "内置自动演化（与写入同权）"@),
        entry("agent_registry_cleanup"@, MinRole::Admin, NsPolicy::DefaultNs, "注册表清理（admin）"@),
        entry("memory_maintenance_normalize"@, MinRole::Admin, NsPolicy::NoNamespace, "Q1 归一时间格式/清洗哨兵（admin，须先备份）"@),
        entry("memory_fetch_unconsolidated"@, MinRole::Agent, NsPolicy::NamespaceArg, "巩固原料读取"@),
        entry("dream_state_get"@, MinRole::Agent, NsPolicy::NamespaceArg, "巩固进度读取"@),
        entry("dream_state_update"@, MinRole::Agent, NsPolicy::NamespaceArg, "巩固进度推进"@),
        entry("entity_upsert"@, MinRole::Agent, NsPolicy::NamespaceArg, "实体创建/更新"@),
        entry("entity_add_mention"@, MinRole::Agent, NsPolicy::NamespaceArg, "实体提及"@),
        entry("entity_add_edge"@, MinRole::Agent, NsPolicy::NamespaceArg, "实体关系边"@),
        entry("entity_search"@, MinRole::Agent, NsPolicy::NamespaceArg, "实体搜索"@),
    ]
}

pub open spec fn entry_views(v: Seq<Entry>) -> Seq<EntryView> {
    Seq::new(v.len(), |i: int| v[i]@)
}

fn row(
    tool: &'static str,
    min_role: MinRole,
    ns_policy: NsPolicy,
    note: &'static str,
) -> (r: Entry)
    ensures
        r@ == entry(tool@, min_role, ns_policy, note@),
{
    Entry { tool, min_role, ns_policy, note }
}

/// The permission matrix.
pub fn permission_matrix() -> (r: Vec<Entry>)
    ensures
        entry_views(r@) == matrix(),
{
    let mut v: Vec<Entry> = Vec::new();
    v.push(row("memory_search", MinRole::Agent, NsPolicy::NamespaceArg, "混合检索"));
    v.push(row("memory_search_v2", MinRole::Agent, NsPolicy::NamespaceArg, "多信号融合检索"));
    v.push(row("memory_remember", MinRole::Agent, NsPolicy::NamespaceArg, "写入记忆"));
    v.push(row("ingest_document", MinRole::Agent, NsPolicy::DefaultNs, "部门共享文档入库"));
    v.push(row("memory", MinRole::Agent, NsPolicy::NamespaceArg, "memory_remember 薄别名"));
    v.push(row("memory_profile", MinRole::Agent, NsPolicy::NamespaceArg, "会话开场静态/动态合成视图（P0-3）"));
    v.push(row("memory_context", MinRole::Agent, NsPolicy::NamespaceArg, "profile + recall 合成 prompt_block（P0-3）"));
    v.push(row("memory_recall", MinRole::Agent, NsPolicy::NamespaceArg, "回忆检索别名（走 search 配额）"));
    v.push(row("memory_observe", MinRole::Agent, NsPolicy::NamespaceArg, "低优先级观察"));
    v.push(row("memory_quota_status", MinRole::Agent, NsPolicy::NamespaceArg, "配额用量查询（P2-2）"));
    v.push(row("register_agent", MinRole::Admin, NsPolicy::NamespaceArg, "创建 Agent（admin）"));
    v.push(row("register_user", MinRole::Agent, NsPolicy::NoNamespace, "本地账密注册"));
    v.push(row("login_user", MinRole::Agent, NsPolicy::NoNamespace, "本地账密登录"));
    v.push(row("import_install_memories", MinRole::Admin, NsPolicy::NoNamespace, "命名空间迁移（admin）"));
    v.push(row("get_allowed_ns", MinRole::Agent, NsPolicy::NoNamespace, "返回自身授权 ns"));
    v.push(row("audit_query", MinRole::Agent, NsPolicy::NoNamespace, "审计日志查询（自身范围）"));
    v.push(row("db_stats", MinRole::Admin, NsPolicy::NoNamespace, "全库统计含 agent_registry/审计/HNSW（admin，新增门禁）"));
    v.push(row("a2a_send", MinRole::Agent, NsPolicy::TargetNs, "目标 agent ns 须授权"));
    v.push(row("a2a_recv", MinRole::Agent, NsPolicy::SelfOnly, "仅自身收件箱"));
    v.push(row("agent_list", MinRole::Admin, NsPolicy::NoNamespace, "列出 Agent（admin）"));
    v.push(row("agent_revoke", MinRole::Admin, NsPolicy::NoNamespace, "吊销 Agent（admin）"));
    v.push(row("cross_agent_query", MinRole::Agent, NsPolicy::NoNamespace, "Bridge 转发"));
    v.push(row("system_status", MinRole::Agent, NsPolicy::NoNamespace, "Bridge 转发"));
    v.push(row("reasonix_dispatch", MinRole::Agent, NsPolicy::NoNamespace, "Bridge 转发"));
    v.push(row("continue_task", MinRole::Agent, NsPolicy::NoNamespace, "Bridge 转发"));
    v.push(row("auto_route", MinRole::Agent, NsPolicy::NoNamespace, "Bridge 转发"));
    v.push(row("skill_market_search", MinRole::Agent, NsPolicy::NoNamespace, "公开/同 ns 技能搜索"));
    v.push(row("skill_market_info", MinRole::Agent, NsPolicy::NoNamespace, "技能详情（公开）"));
    v.push(row("skill_market_publish", MinRole::Agent, NsPolicy::NoNamespace, "admin 或同 visibility ns 可发布"));
    v.push(row("skill_market_install", MinRole::Agent, NsPolicy::AgentIdNs, "admin 或同 ns 管理权可安装"));
    v.push(row("skill_market_list_installed", MinRole::Agent, NsPolicy::AgentIdNs, "仅自身/授权 ns（新增 NS 校验）"));
    v.push(row("memory_decay", MinRole::Agent, NsPolicy::NamespaceArg, "衰减循环"));
    v.push(row("memory_graph", MinRole::Agent, NsPolicy::NamespaceArg, "构建关系图"));
    v.push(row("memory_user_prefs", MinRole::Agent, NsPolicy::NamespaceArg, "用户偏好"));
    v.push(row("memory_recent_decisions", MinRole::Agent, NsPolicy::NamespaceArg, "最近决策"));
    v.push(row("memory_backup", MinRole::Admin, NsPolicy::NoNamespace, "手动备份（admin）"));
    v.push(row("memory_backup_list", MinRole::Admin, NsPolicy::NoNamespace, "列出备份（admin）"));
    v.push(row("memory_health", MinRole::Admin, NsPolicy::NoNamespace, "健康报告（admin）"));
    v.push(row("memory_export", MinRole::Agent, NsPolicy::NamespaceArg, "导出本 ns 记忆/实体"));
    v.push(row("memory_import", MinRole::Agent, NsPolicy::NamespaceArg, "导入到本 ns（幂等）"));
    v.push(row("memory_migration_manifest", MinRole::Admin, NsPolicy::NoNamespace, "迁移包校验和（admin）"));
    v.push(row("memory_dedup_chain", MinRole::Agent, NsPolicy::MemoryIdNs, "记忆所属 ns 须授权"));
    v.push(row("memory_merge", MinRole::Admin, NsPolicy::NoNamespace, "合并记忆（admin）"));
    v.push(row("memory_evolve", MinRole::Agent, NsPolicy::DefaultNs, "演化写回（与写入同权）"));
    v.push(row("evolution_rollback", MinRole::Admin, NsPolicy::NamespaceArg, "演化回滚（admin）"));
    v.push(row("evolution_log_query", MinRole::Agent, NsPolicy::NamespaceArg, "演化日志只读查询"));
    v.push(row("memory_evolve_auto", MinRole::Agent, NsPolicy::DefaultNs, "内置自动演化（与写入同权）"));
    v.push(row("agent_registry_cleanup", MinRole::Admin, NsPolicy::DefaultNs, "注册表清理（admin）"));
    v.push(row("memory_maintenance_normalize", MinRole::Admin, NsPolicy::NoNamespace, "Q1 归一时间格式/清洗哨兵（admin，须先备份）"));
    v.push(row("memory_fetch_unconsolidated", MinRole::Agent, NsPolicy::NamespaceArg, "巩固原料读取"));
    v.push(row("dream_state_get", MinRole::Agent, NsPolicy::NamespaceArg, "巩固进度读取"));
    v.push(row("dream_state_update", MinRole::Agent, NsPolicy::NamespaceArg, "巩固进度推进"));
    v.push(row("entity_upsert", MinRole::Agent, NsPolicy::NamespaceArg, "实体创建/更新"));
    v.push(row("entity_add_mention", MinRole::Agent, NsPolicy::NamespaceArg, "实体提及"));
    v.push(row("entity_add_edge", MinRole::Agent, NsPolicy::NamespaceArg, "实体关系边"));
    v.push(row("entity_search", MinRole::Agent, NsPolicy::NamespaceArg, "实体搜索"));
    assert(entry_views(v@) =~= matrix());
    v
}

/// The first of the entries that is for `tool`.
pub open spec fn find_entry(m: Seq<EntryView>, tool: Seq<char>) -> Option<EntryView>
    decreases m.len(),
{
    if m.len() == 0 {
        None
    } else if m[0].tool == tool {
        Some(m[0])
    } else {
        find_entry(m.skip(1), tool)
    }
}

/// The entry of the permission matrix for a tool.
pub fn matrix_lookup(tool: &str) -> (r: Option<Entry>)
    ensures
        match r {
            Some(e) => find_entry(matrix(), tool@) == Some(e@),
            None => find_entry(matrix(), tool@) is None,
        },
{
    let v = permission_matrix();
    let ghost m = entry_views(v@);
    let mut i: usize = 0;
    assert(m.skip(0) =~= m);
    while i < v.len()
        invariant
            i <= v@.len(),
            m == entry_views(v@),
            m == matrix(),
            find_entry(m, tool@) == find_entry(m.skip(i as int), tool@),
        decreases v@.len() - i,
    {
        proof {
            assert(m.skip(i as int)[0] == v@[i as int]@);
            assert(m.skip(i as int).skip(1) =~= m.skip(i + 1));
        }
        if text::same(v[i].tool, tool) {
            return Some(v[i]);
        }
        i += 1;
    }
    None
}

/// A caller passes the admin guard: it has the admin role, or gives the key that
/// is configured. Where no key is configured, none opens the guard.
pub open spec fn is_admin(auth: AuthView, provided: Seq<char>, configured: Seq<char>) -> bool {
    auth.role == "admin"@ || (configured.len() > 0 && provided == configured)
}

/// The admin guard.
pub fn require_admin(auth: &AuthResult, provided: &str, configured_key: &str) -> (r: bool)
    ensures
        r == is_admin(auth@, provided@, configured_key@),
{
    if text::same(auth.role.as_str(), "admin") {
        return true;
    }
    if configured_key.is_empty() {
        return false;
    }
    !provided.is_empty() && auth::ct_eq(provided, configured_key)
}

/// Without a configured key only the admin role opens the guard.
pub proof fn law_no_key_no_admin(auth: AuthView, provided: Seq<char>)
    requires
        auth.role != "admin"@,
    ensures
        !is_admin(auth, provided, Seq::empty()),
{
}

/// Whoever has the admin role passes the guard, and so does whoever gives the configured key;
/// a key that differs opens nothing.
pub proof fn law_keys_open_the_guard(auth: AuthView, provided: Seq<char>, configured: Seq<char>)
    ensures
        auth.role == "admin"@ ==> is_admin(auth, provided, configured),
        configured.len() > 0 ==> is_admin(auth, configured, configured),
        auth.role != "admin"@ && provided != configured ==> !is_admin(auth, provided, configured),
{
}

/// The entry that is found is the first for its tool, and none is found only where there is
/// none.
pub proof fn law_entries_are_found_by_tool(m: Seq<EntryView>, tool: Seq<char>)
    ensures
        match find_entry(m, tool) {
            Some(e) => exists|i: int|
                0 <= i < m.len() && #[trigger] m[i] == e && e.tool == tool && forall|j: int|
                    0 <= j < i ==> (#[trigger] m[j]).tool != tool,
            None => forall|i: int| 0 <= i < m.len() ==> (#[trigger] m[i]).tool != tool,
        },
    decreases m.len(),
{
    if m.len() > 0 {
        if m[0].tool == tool {
            assert(m[0] == find_entry(m, tool)->0);
        } else {
            let t = m.skip(1);
            law_entries_are_found_by_tool(t, tool);
            match find_entry(t, tool) {
                Some(e) => {
                    let i = choose|i: int|
                        0 <= i < t.len() && #[trigger] t[i] == e && e.tool == tool && forall|j: int|
                            0 <= j < i ==> (#[trigger] t[j]).tool != tool;
                    assert(m[i + 1] == e);
                    assert forall|j: int| 0 <= j < i + 1 implies (#[trigger] m[j]).tool != tool by {
                        if j > 0 {
                            assert(t[j - 1].tool != tool);
                        }
                    }
                },
                None => {
                    assert forall|j: int| 0 <= j < m.len() implies (#[trigger] m[j]).tool != tool by {
                        if j > 0 {
                            assert(t[j - 1].tool != tool);
                        }
                    }
                },
            }
        }
    }
}

/// What is known of an entry of the matrix is what its fields hold.
pub proof fn law_entries_hold_what_they_say(x: Entry)
    ensures
        x@.tool == x.tool@,
        x@.min_role == x.min_role,
        x@.ns_policy == x.ns_policy,
        x@.note == x.note@,
{
}

} // verus!
