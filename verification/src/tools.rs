//! The tools that the service offers, and their input schemas.
use vstd::prelude::*;
use crate::permissions;

verus! {

/// A parameter of a tool, as its input schema describes it.
#[derive(Debug)]
pub struct Property {
    pub name: &'static str,
    /// The JSON type.
    pub kind: &'static str,
    pub description: &'static str,
    pub default: Option<u64>,
}

/// A tool: its name, what it does, and the properties of its input schema,
/// which is always an object.
#[derive(Debug)]
pub struct Tool {
    pub name: &'static str,
    pub description: &'static str,
    pub properties: Vec<Property>,
}

/// What a parameter is, in texts.
pub struct PropertyView {
    pub name: Seq<char>,
    pub kind: Seq<char>,
    pub description: Seq<char>,
    pub default: Option<u64>,
}

/// What a tool is, in texts.
pub struct ToolView {
    pub name: Seq<char>,
    pub description: Seq<char>,
    pub properties: Seq<PropertyView>,
}

impl Property {
    pub open spec fn view(&self) -> PropertyView {
        PropertyView {
            name: self.name@,
            kind: self.kind@,
            description: self.description@,
            default: self.default,
        }
    }
}

impl Tool {
    pub open spec fn view(&self) -> ToolView {
        ToolView {
            name: self.name@,
            description: self.description@,
            properties: Seq::new(self.properties@.len(), |i: int| self.properties@[i]@),
        }
    }
}

/// A parameter without a default.
pub open spec fn param(name: Seq<char>, kind: Seq<char>, description: Seq<char>) -> PropertyView {
    PropertyView { name, kind, description, default: None }
}

fn plain(name: &'static str, kind: &'static str, description: &'static str) -> (r: Property)
    ensures
        r@ == param(name@, kind@, description@),
{
    Property { name, kind, description, default: None }
}

/// A parameter with a default.
pub open spec fn param_or(
    name: Seq<char>,
    kind: Seq<char>,
    description: Seq<char>,
    default: u64,
) -> PropertyView {
    PropertyView { name, kind, description, default: Some(default) }
}

fn with_default(
    name: &'static str,
    kind: &'static str,
    description: &'static str,
    default: u64,
) -> (r: Property)
    ensures
        r@ == param_or(name@, kind@, description@, default),
{
    Property { name, kind, description, default: Some(default) }
}

/// The tool `memory_search`.
pub open spec fn memory_search_tool() -> ToolView {
    ToolView {
        name: "memory_search"@,
        description: "搜索记忆"@,
        properties: seq![
            param("query"@, "string"@, "搜索关键词（必填）"@),
            param_or("max_results"@, "number"@, "最大返回结果数"@, 5),
            param("tags"@, "string"@, "标签过滤，JSON 数组字符串如 [\"a\",\"b\"]"@),
            param("as_of"@, "string"@, "P1-5 时序真值：仅返回该 ISO-8601 时刻有效的记忆；不传则默认 now，自动过滤已失效"@),
        ],
    }
}

fn describe_memory_search() -> (r: Tool)
    ensures
        r@ == memory_search_tool(),
{
    let mut p: Vec<Property> = Vec::new();
    p.push(plain("query", "string", "搜索关键词（必填）"));
    p.push(with_default("max_results", "number", "最大返回结果数", 5));
    p.push(plain("tags", "string", "标签过滤，JSON 数组字符串如 [\"a\",\"b\"]"));
    p.push(plain("as_of", "string", "P1-5 时序真值：仅返回该 ISO-8601 时刻有效的记忆；不传则默认 now，自动过滤已失效"));
    let r = Tool { name: "memory_search", description: "搜索记忆", properties: p };
    assert(r@.properties =~= memory_search_tool().properties);
    r
}

/// The tool `memory_search_v2`.
pub open spec fn memory_search_v2_tool() -> ToolView {
    ToolView {
        name: "memory_search_v2"@,
        description: "多信号融合搜索"@,
        properties: seq![
            param("query"@, "string"@, "搜索关键词（必填）"@),
            param_or("max_results"@, "number"@, "最大返回结果数"@, 5),
            param("tags"@, "string"@, "标签过滤，JSON 数组字符串"@),
            param("as_of"@, "string"@, "P1-5 时序真值：仅返回该 ISO-8601 时刻有效的记忆；不传则默认返回「当前真值」（superseded_by IS NULL 且未失效）"@),
            param("include_superseded"@, "boolean"@, "P0: 是否包含已被取代的历史记忆（默认 false，仅看当前真值）"@),
            param("enrich_ledger"@, "boolean"@, "O6：可选账本富化，默认 false；ledger 主路径在 memory_context"@),
        ],
    }
}

fn describe_memory_search_v2() -> (r: Tool)
    ensures
        r@ == memory_search_v2_tool(),
{
    let mut p: Vec<Property> = Vec::new();
    p.push(plain("query", "string", "搜索关键词（必填）"));
    p.push(with_default("max_results", "number", "最大返回结果数", 5));
    p.push(plain("tags", "string", "标签过滤，JSON 数组字符串"));
    p.push(plain("as_of", "string", "P1-5 时序真值：仅返回该 ISO-8601 时刻有效的记忆；不传则默认返回「当前真值」（superseded_by IS NULL 且未失效）"));
    p.push(plain("include_superseded", "boolean", "P0: 是否包含已被取代的历史记忆（默认 false，仅看当前真值）"));
    p.push(plain("enrich_ledger", "boolean", "O6：可选账本富化，默认 false；ledger 主路径在 memory_context"));
    let r = Tool { name: "memory_search_v2", description: "多信号融合搜索", properties: p };
    assert(r@.properties =~= memory_search_v2_tool().properties);
    r
}

/// The tool `memory_remember`.
pub open spec fn memory_remember_tool() -> ToolView {
    ToolView {
        name: "memory_remember"@,
        description: "记录一条记忆"@,
        properties: seq![
            param("content"@, "string"@, "记忆内容（必填）"@),
            param("namespace"@, "string"@, "命名空间（NamespaceArg 必填）：写入目标命名空间；不传将被拒绝（Namespace argument required）"@),
            param("category"@, "string"@, "类别，默认 fact"@),
            param("importance"@, "number"@, "重要度 1-5，默认 3"@),
            param("source"@, "string"@, "来源，默认 mcp"@),
            param("tags"@, "string"@, "标签 JSON 数组字符串（事件日：occurred:YYYY-MM-DD，O3）"@),
            param("valid_from"@, "string"@, "P1-5 时序真值：记忆生效起点 ISO-8601（默认插入时刻）"@),
            param("valid_to"@, "string"@, "P1-5 时序真值：记忆失效点 ISO-8601（默认 NULL，长期有效）"@),
            param("event_time"@, "string"@, "DEPRECATED(O2)：勿写列；若传入则映射为 tags occurred:YYYY-MM-DD，不再 UPDATE event_time"@),
            param("supersedes_id"@, "string"@, "P0-4: 显式取代的目标记忆 id（须同 ns 且为当前 tip）；失败返回 404/403/409"@),
            param("relation"@, "string"@, "记忆边类型：updates|extends|derives（默认 updates）"@),
            param("actor"@, "string"@, "PR1(Phase B 前置)：事实作者/来源主体；NULL 视为 agent_inferred"@),
            param("memory_type"@, "string"@, "PR1：记忆类型 declarative/procedural/episodic/...；NULL 视为 declarative"@),
            param("parent_id"@, "string"@, "PR1：原子事实挂回的原始记忆 id（1 raw→N 原子事实时用）"@),
            param("raw_ref"@, "string"@, "PR1：原文旁路存储引用（避免整段 raw 入库）"@),
        ],
    }
}

fn describe_memory_remember() -> (r: Tool)
    ensures
        r@ == memory_remember_tool(),
{
    let mut p: Vec<Property> = Vec::new();
    p.push(plain("content", "string", "记忆内容（必填）"));
    p.push(plain("namespace", "string", "命名空间（NamespaceArg 必填）：写入目标命名空间；不传将被拒绝（Namespace argument required）"));
    p.push(plain("category", "string", "类别，默认 fact"));
    p.push(plain("importance", "number", "重要度 1-5，默认 3"));
    p.push(plain("source", "string", "来源，默认 mcp"));
    p.push(plain("tags", "string", "标签 JSON 数组字符串（事件日：occurred:YYYY-MM-DD，O3）"));
    p.push(plain("valid_from", "string", "P1-5 时序真值：记忆生效起点 ISO-8601（默认插入时刻）"));
    p.push(plain("valid_to", "string", "P1-5 时序真值：记忆失效点 ISO-8601（默认 NULL，长期有效）"));
    p.push(plain("event_time", "string", "DEPRECATED(O2)：勿写列；若传入则映射为 tags occurred:YYYY-MM-DD，不再 UPDATE event_time"));
    p.push(plain("supersedes_id", "string", "P0-4: 显式取代的目标记忆 id（须同 ns 且为当前 tip）；失败返回 404/403/409"));
    p.push(plain("relation", "string", "记忆边类型：updates|extends|derives（默认 updates）"));
    p.push(plain("actor", "string", "PR1(Phase B 前置)：事实作者/来源主体；NULL 视为 agent_inferred"));
    p.push(plain("memory_type", "string", "PR1：记忆类型 declarative/procedural/episodic/...；NULL 视为 declarative"));
    p.push(plain("parent_id", "string", "PR1：原子事实挂回的原始记忆 id（1 raw→N 原子事实时用）"));
    p.push(plain("raw_ref", "string", "PR1：原文旁路存储引用（避免整段 raw 入库）"));
    let r = Tool { name: "memory_remember", description: "记录一条记忆", properties: p };
    assert(r@.properties =~= memory_remember_tool().properties);
    r
}

/// The tool `ingest_document`.
pub open spec fn ingest_document_tool() -> ToolView {
    ToolView {
        name: "ingest_document"@,
        description: "部门共享文档入库（已抽文本）：写入 memory_type=document 清单+分块；默认 ns 可为 org/.../dept/...。二进制 PDF/DOCX 请用 HTTP POST /api/documents"@,
        properties: seq![
            param("text"@, "string"@, "已抽取的文档正文（必填）"@),
            param("filename"@, "string"@, "原文件名，如 report.pdf / 制度.docx（必填）"@),
            param("namespace"@, "string"@, "目标命名空间；部门共享例：org/cs-pufa-2nd-thermal/dept/gufei"@),
        ],
    }
}

fn describe_ingest_document() -> (r: Tool)
    ensures
        r@ == ingest_document_tool(),
{
    let mut p: Vec<Property> = Vec::new();
    p.push(plain("text", "string", "已抽取的文档正文（必填）"));
    p.push(plain("filename", "string", "原文件名，如 report.pdf / 制度.docx（必填）"));
    p.push(plain("namespace", "string", "目标命名空间；部门共享例：org/cs-pufa-2nd-thermal/dept/gufei"));
    let r = Tool { name: "ingest_document", description: "部门共享文档入库（已抽文本）：写入 memory_type=document 清单+分块；默认 ns 可为 org/.../dept/...。二进制 PDF/DOCX 请用 HTTP POST /api/documents", properties: p };
    assert(r@.properties =~= ingest_document_tool().properties);
    r
}

/// The tool `memory`.
pub open spec fn memory_tool() -> ToolView {
    ToolView {
        name: "memory"@,
        description: "写入记忆（memory_remember 薄别名）：支持 supersedes_id / relation / valid_*"@,
        properties: seq![
            param("content"@, "string"@, "记忆内容（必填）"@),
            param("namespace"@, "string"@, "命名空间（NamespaceArg 必填）：写入目标命名空间；不传将被拒绝（Namespace argument required）"@),
            param("category"@, "string"@, "类别，默认 fact"@),
            param("importance"@, "number"@, "重要度 1-5，默认 3"@),
            param("source"@, "string"@, "来源，默认 mcp"@),
            param("tags"@, "string"@, "标签 JSON 数组字符串（事件日用 occurred:YYYY-MM-DD，O3）"@),
            param("valid_from"@, "string"@, "P1-5 时序真值：记忆生效起点 ISO-8601"@),
            param("valid_to"@, "string"@, "P1-5 时序真值：记忆失效点 ISO-8601"@),
            param("event_time"@, "string"@, "DEPRECATED(O2)：映射为 occurred: tag，不写列"@),
            param("supersedes_id"@, "string"@, "P0-4: 显式取代的目标记忆 id"@),
            param("relation"@, "string"@, "记忆边类型：updates|extends|derives（默认 updates）"@),
            param("actor"@, "string"@, "PR1(Phase B 前置)：事实作者/来源主体；NULL 视为 agent_inferred"@),
            param("memory_type"@, "string"@, "PR1：记忆类型 declarative/procedural/episodic/...；NULL 视为 declarative"@),
            param("parent_id"@, "string"@, "PR1：原子事实挂回的原始记忆 id（1 raw→N 原子事实时用）"@),
            param("raw_ref"@, "string"@, "PR1：原文旁路存储引用（避免整段 raw 入库）"@),
        ],
    }
}

fn describe_memory() -> (r: Tool)
    ensures
        r@ == memory_tool(),
{
    let mut p: Vec<Property> = Vec::new();
    p.push(plain("content", "string", "记忆内容（必填）"));
    p.push(plain("namespace", "string", "命名空间（NamespaceArg 必填）：写入目标命名空间；不传将被拒绝（Namespace argument required）"));
    p.push(plain("category", "string", "类别，默认 fact"));
    p.push(plain("importance", "number", "重要度 1-5，默认 3"));
    p.push(plain("source", "string", "来源，默认 mcp"));
    p.push(plain("tags", "string", "标签 JSON 数组字符串（事件日用 occurred:YYYY-MM-DD，O3）"));
    p.push(plain("valid_from", "string", "P1-5 时序真值：记忆生效起点 ISO-8601"));
    p.push(plain("valid_to", "string", "P1-5 时序真值：记忆失效点 ISO-8601"));
    p.push(plain("event_time", "string", "DEPRECATED(O2)：映射为 occurred: tag，不写列"));
    p.push(plain("supersedes_id", "string", "P0-4: 显式取代的目标记忆 id"));
    p.push(plain("relation", "string", "记忆边类型：updates|extends|derives（默认 updates）"));
    p.push(plain("actor", "string", "PR1(Phase B 前置)：事实作者/来源主体；NULL 视为 agent_inferred"));
    p.push(plain("memory_type", "string", "PR1：记忆类型 declarative/procedural/episodic/...；NULL 视为 declarative"));
    p.push(plain("parent_id", "string", "PR1：原子事实挂回的原始记忆 id（1 raw→N 原子事实时用）"));
    p.push(plain("raw_ref", "string", "PR1：原文旁路存储引用（避免整段 raw 入库）"));
    let r = Tool { name: "memory", description: "写入记忆（memory_remember 薄别名）：支持 supersedes_id / relation / valid_*", properties: p };
    assert(r@.properties =~= memory_tool().properties);
    r
}

/// The tool `memory_profile`.
pub open spec fn memory_profile_tool() -> ToolView {
    ToolView {
        name: "memory_profile"@,
        description: "会话开场注入：返回 ns 的静态偏好(static)+近期动态(dynamic)合成视图，计入 profile 配额"@,
        properties: seq![
            param("namespace"@, "string"@, "命名空间，默认 default"@),
            param("static_limit"@, "number"@, "static 条数上限，默认 12"@),
            param("dynamic_limit"@, "number"@, "dynamic 条数上限，默认 15"@),
            param("as_of"@, "string"@, "可选 ISO-8601：按该时刻 valid_* 过滤（默认 now + tip）"@),
        ],
    }
}

fn describe_memory_profile() -> (r: Tool)
    ensures
        r@ == memory_profile_tool(),
{
    let mut p: Vec<Property> = Vec::new();
    p.push(plain("namespace", "string", "命名空间，默认 default"));
    p.push(plain("static_limit", "number", "static 条数上限，默认 12"));
    p.push(plain("dynamic_limit", "number", "dynamic 条数上限，默认 15"));
    p.push(plain("as_of", "string", "可选 ISO-8601：按该时刻 valid_* 过滤（默认 now + tip）"));
    let r = Tool { name: "memory_profile", description: "会话开场注入：返回 ns 的静态偏好(static)+近期动态(dynamic)合成视图，计入 profile 配额", properties: p };
    assert(r@.properties =~= memory_profile_tool().properties);
    r
}

/// The tool `memory_context`.
pub open spec fn memory_context_tool() -> ToolView {
    ToolView {
        name: "memory_context"@,
        description: "会话开场注入：memory_profile + 可选 query 追加 top-k recall，产出 prompt_block"@,
        properties: seq![
            param("namespace"@, "string"@, "命名空间，默认 default"@),
            param("query"@, "string"@, "可选：本轮用户首句，用于追加 recall"@),
            param("recall_k"@, "number"@, "recall 条数，默认 3"@),
            param("include_profile"@, "boolean"@, "是否包含 profile，默认 true"@),
            param("static_limit"@, "number"@, "static 条数上限，默认 12"@),
            param("dynamic_limit"@, "number"@, "dynamic 条数上限，默认 15"@),
            param("as_of"@, "string"@, "可选 ISO-8601：透传到 profile 过滤"@),
        ],
    }
}

fn describe_memory_context() -> (r: Tool)
    ensures
        r@ == memory_context_tool(),
{
    let mut p: Vec<Property> = Vec::new();
    p.push(plain("namespace", "string", "命名空间，默认 default"));
    p.push(plain("query", "string", "可选：本轮用户首句，用于追加 recall"));
    p.push(plain("recall_k", "number", "recall 条数，默认 3"));
    p.push(plain("include_profile", "boolean", "是否包含 profile，默认 true"));
    p.push(plain("static_limit", "number", "static 条数上限，默认 12"));
    p.push(plain("dynamic_limit", "number", "dynamic 条数上限，默认 15"));
    p.push(plain("as_of", "string", "可选 ISO-8601：透传到 profile 过滤"));
    let r = Tool { name: "memory_context", description: "会话开场注入：memory_profile + 可选 query 追加 top-k recall，产出 prompt_block", properties: p };
    assert(r@.properties =~= memory_context_tool().properties);
    r
}

/// The tool `memory_recall`.
pub open spec fn memory_recall_tool() -> ToolView {
    ToolView {
        name: "memory_recall"@,
        description: "回忆检索（别名 memory_search_v2）：默认 isLatest，走 search 配额"@,
        properties: seq![
            param("query"@, "string"@, "搜索关键词（必填）"@),
            param("max_results"@, "number"@, "最大返回结果数，默认 5"@),
            param("tags"@, "string"@, "标签过滤，JSON 数组字符串"@),
            param("as_of"@, "string"@, "P1-5 时序真值：仅返回该 ISO-8601 时刻有效的记忆；不传则默认返回当前真值"@),
            param("include_superseded"@, "boolean"@, "P0: 是否包含已被取代的历史记忆（默认 false）"@),
            param("enrich_ledger"@, "boolean"@, "O6：可选账本富化，默认 false"@),
        ],
    }
}

fn describe_memory_recall() -> (r: Tool)
    ensures
        r@ == memory_recall_tool(),
{
    let mut p: Vec<Property> = Vec::new();
    p.push(plain("query", "string", "搜索关键词（必填）"));
    p.push(plain("max_results", "number", "最大返回结果数，默认 5"));
    p.push(plain("tags", "string", "标签过滤，JSON 数组字符串"));
    p.push(plain("as_of", "string", "P1-5 时序真值：仅返回该 ISO-8601 时刻有效的记忆；不传则默认返回当前真值"));
    p.push(plain("include_superseded", "boolean", "P0: 是否包含已被取代的历史记忆（默认 false）"));
    p.push(plain("enrich_ledger", "boolean", "O6：可选账本富化，默认 false"));
    let r = Tool { name: "memory_recall", description: "回忆检索（别名 memory_search_v2）：默认 isLatest，走 search 配额", properties: p };
    assert(r@.properties =~= memory_recall_tool().properties);
    r
}

/// The tool `memory_observe`.
pub open spec fn memory_observe_tool() -> ToolView {
    ToolView {
        name: "memory_observe"@,
        description: "记录观察（低优先级）"@,
        properties: seq![
            param("dialog"@, "string"@, "对话/观察内容"@),
            param("role"@, "string"@, "角色，默认 user"@),
            param("source"@, "string"@, "来源，默认 mcp"@),
            param("session_id"@, "string"@, "会话 ID"@),
        ],
    }
}

fn describe_memory_observe() -> (r: Tool)
    ensures
        r@ == memory_observe_tool(),
{
    let mut p: Vec<Property> = Vec::new();
    p.push(plain("dialog", "string", "对话/观察内容"));
    p.push(plain("role", "string", "角色，默认 user"));
    p.push(plain("source", "string", "来源，默认 mcp"));
    p.push(plain("session_id", "string", "会话 ID"));
    let r = Tool { name: "memory_observe", description: "记录观察（低优先级）", properties: p };
    assert(r@.properties =~= memory_observe_tool().properties);
    r
}

/// The tool `memory_quota_status`.
pub open spec fn memory_quota_status_tool() -> ToolView {
    ToolView {
        name: "memory_quota_status"@,
        description: "查询本命名空间当前配额用量与上限（P2-2 滥用防护；写入=日限额，搜索=分钟限额，备份=小时限额）"@,
        properties: seq![
            param("namespace"@, "string"@, "命名空间，默认 default"@),
        ],
    }
}

fn describe_memory_quota_status() -> (r: Tool)
    ensures
        r@ == memory_quota_status_tool(),
{
    let mut p: Vec<Property> = Vec::new();
    p.push(plain("namespace", "string", "命名空间，默认 default"));
    let r = Tool { name: "memory_quota_status", description: "查询本命名空间当前配额用量与上限（P2-2 滥用防护；写入=日限额，搜索=分钟限额，备份=小时限额）", properties: p };
    assert(r@.properties =~= memory_quota_status_tool().properties);
    r
}

/// The tool `register_agent`.
pub open spec fn register_agent_tool() -> ToolView {
    ToolView {
        name: "register_agent"@,
        description: "注册Agent（需要Admin key）"@,
        properties: seq![
            param("agent_id"@, "string"@, "新 Agent ID"@),
            param("display_name"@, "string"@, "显示名"@),
            param("admin_key"@, "string"@, "Admin Key"@),
            param("namespace"@, "string"@, "命名空间"@),
        ],
    }
}

fn describe_register_agent() -> (r: Tool)
    ensures
        r@ == register_agent_tool(),
{
    let mut p: Vec<Property> = Vec::new();
    p.push(plain("agent_id", "string", "新 Agent ID"));
    p.push(plain("display_name", "string", "显示名"));
    p.push(plain("admin_key", "string", "Admin Key"));
    p.push(plain("namespace", "string", "命名空间"));
    let r = Tool { name: "register_agent", description: "注册Agent（需要Admin key）", properties: p };
    assert(r@.properties =~= register_agent_tool().properties);
    r
}

/// The tool `register_user`.
pub open spec fn register_user_tool() -> ToolView {
    ToolView {
        name: "register_user"@,
        description: "注册个人登录账号（本地账密）：user_id + password，命名空间默认 agent/{user_id}（可选 namespace 覆盖）"@,
        properties: seq![
            param("user_id"@, "string"@, "登录用户名（唯一）"@),
            param("display_name"@, "string"@, "显示名"@),
            param("password"@, "string"@, "登录口令"@),
            param("namespace"@, "string"@, "可选：命名空间覆盖（逗号分隔多个）"@),
        ],
    }
}

fn describe_register_user() -> (r: Tool)
    ensures
        r@ == register_user_tool(),
{
    let mut p: Vec<Property> = Vec::new();
    p.push(plain("user_id", "string", "登录用户名（唯一）"));
    p.push(plain("display_name", "string", "显示名"));
    p.push(plain("password", "string", "登录口令"));
    p.push(plain("namespace", "string", "可选：命名空间覆盖（逗号分隔多个）"));
    let r = Tool { name: "register_user", description: "注册个人登录账号（本地账密）：user_id + password，命名空间默认 agent/{user_id}（可选 namespace 覆盖）", properties: p };
    assert(r@.properties =~= register_user_tool().properties);
    r
}

/// The tool `login_user`.
pub open spec fn login_user_tool() -> ToolView {
    ToolView {
        name: "login_user"@,
        description: "个人账号登录：校验 user_id + password，成功回传 badge_token 供客户端后续鉴权"@,
        properties: seq![
            param("user_id"@, "string"@, "登录用户名"@),
            param("password"@, "string"@, "登录口令"@),
        ],
    }
}

fn describe_login_user() -> (r: Tool)
    ensures
        r@ == login_user_tool(),
{
    let mut p: Vec<Property> = Vec::new();
    p.push(plain("user_id", "string", "登录用户名"));
    p.push(plain("password", "string", "登录口令"));
    let r = Tool { name: "login_user", description: "个人账号登录：校验 user_id + password，成功回传 badge_token 供客户端后续鉴权", properties: p };
    assert(r@.properties =~= login_user_tool().properties);
    r
}

/// The tool `import_install_memories`.
pub open spec fn import_install_memories_tool() -> ToolView {
    ToolView {
        name: "import_install_memories"@,
        description: "迁移记忆命名空间（需 Admin key）：把 from_ns 下记忆整体移到 to_ns（换设备/登录后归并旧记忆）。id=内容哈希与 ns 无关，故仅改 namespace，无需重建索引。"@,
        properties: seq![
            param("from_ns"@, "string"@, "源命名空间"@),
            param("to_ns"@, "string"@, "目标命名空间"@),
            param("admin_key"@, "string"@, "Admin Key"@),
        ],
    }
}

fn describe_import_install_memories() -> (r: Tool)
    ensures
        r@ == import_install_memories_tool(),
{
    let mut p: Vec<Property> = Vec::new();
    p.push(plain("from_ns", "string", "源命名空间"));
    p.push(plain("to_ns", "string", "目标命名空间"));
    p.push(plain("admin_key", "string", "Admin Key"));
    let r = Tool { name: "import_install_memories", description: "迁移记忆命名空间（需 Admin key）：把 from_ns 下记忆整体移到 to_ns（换设备/登录后归并旧记忆）。id=内容哈希与 ns 无关，故仅改 namespace，无需重建索引。", properties: p };
    assert(r@.properties =~= import_install_memories_tool().properties);
    r
}

/// The tool `get_allowed_ns`.
pub open spec fn get_allowed_ns_tool() -> ToolView {
    ToolView {
        name: "get_allowed_ns"@,
        description: "返回当前调用者自身的命名空间授权列表（供 agent-core 按项目过滤 MCP 工具）"@,
        properties: Seq::empty(),
    }
}

fn describe_get_allowed_ns() -> (r: Tool)
    ensures
        r@ == get_allowed_ns_tool(),
{
    let p: Vec<Property> = Vec::new();
    let r = Tool { name: "get_allowed_ns", description: "返回当前调用者自身的命名空间授权列表（供 agent-core 按项目过滤 MCP 工具）", properties: p };
    assert(r@.properties =~= get_allowed_ns_tool().properties);
    r
}

/// The tool `audit_query`.
pub open spec fn audit_query_tool() -> ToolView {
    ToolView {
        name: "audit_query"@,
        description: "查询审计日志"@,
        properties: seq![
            param("limit"@, "number"@, "返回条数，默认 50"@),
        ],
    }
}

fn describe_audit_query() -> (r: Tool)
    ensures
        r@ == audit_query_tool(),
{
    let mut p: Vec<Property> = Vec::new();
    p.push(plain("limit", "number", "返回条数，默认 50"));
    let r = Tool { name: "audit_query", description: "查询审计日志", properties: p };
    assert(r@.properties =~= audit_query_tool().properties);
    r
}

/// The tool `db_stats`.
pub open spec fn db_stats_tool() -> ToolView {
    ToolView {
        name: "db_stats"@,
        description: "数据库统计"@,
        properties: Seq::empty(),
    }
}

fn describe_db_stats() -> (r: Tool)
    ensures
        r@ == db_stats_tool(),
{
    let p: Vec<Property> = Vec::new();
    let r = Tool { name: "db_stats", description: "数据库统计", properties: p };
    assert(r@.properties =~= db_stats_tool().properties);
    r
}

/// The tool `a2a_send`.
pub open spec fn a2a_send_tool() -> ToolView {
    ToolView {
        name: "a2a_send"@,
        description: "向另一个Agent发送消息"@,
        properties: seq![
            param("to"@, "string"@, "目标 Agent ID（必填）"@),
            param("subject"@, "string"@, "主题"@),
            param("body"@, "string"@, "正文"@),
        ],
    }
}

fn describe_a2a_send() -> (r: Tool)
    ensures
        r@ == a2a_send_tool(),
{
    let mut p: Vec<Property> = Vec::new();
    p.push(plain("to", "string", "目标 Agent ID（必填）"));
    p.push(plain("subject", "string", "主题"));
    p.push(plain("body", "string", "正文"));
    let r = Tool { name: "a2a_send", description: "向另一个Agent发送消息", properties: p };
    assert(r@.properties =~= a2a_send_tool().properties);
    r
}

/// The tool `a2a_recv`.
pub open spec fn a2a_recv_tool() -> ToolView {
    ToolView {
        name: "a2a_recv"@,
        description: "接收发给自己的消息"@,
        properties: seq![
            param("limit"@, "number"@, "返回条数，默认 10"@),
        ],
    }
}

fn describe_a2a_recv() -> (r: Tool)
    ensures
        r@ == a2a_recv_tool(),
{
    let mut p: Vec<Property> = Vec::new();
    p.push(plain("limit", "number", "返回条数，默认 10"));
    let r = Tool { name: "a2a_recv", description: "接收发给自己的消息", properties: p };
    assert(r@.properties =~= a2a_recv_tool().properties);
    r
}

/// The tool `agent_list`.
pub open spec fn agent_list_tool() -> ToolView {
    ToolView {
        name: "agent_list"@,
        description: "列出已注册的Agent（需要Admin key）"@,
        properties: seq![
            param("admin_key"@, "string"@, "Admin Key"@),
        ],
    }
}

fn describe_agent_list() -> (r: Tool)
    ensures
        r@ == agent_list_tool(),
{
    let mut p: Vec<Property> = Vec::new();
    p.push(plain("admin_key", "string", "Admin Key"));
    let r = Tool { name: "agent_list", description: "列出已注册的Agent（需要Admin key）", properties: p };
    assert(r@.properties =~= agent_list_tool().properties);
    r
}

/// The tool `agent_revoke`.
pub open spec fn agent_revoke_tool() -> ToolView {
    ToolView {
        name: "agent_revoke"@,
        description: "撤销Agent令牌（需要Admin key）"@,
        properties: seq![
            param("agent_id"@, "string"@, "目标 Agent ID（必填）"@),
            param("admin_key"@, "string"@, "Admin Key"@),
        ],
    }
}

fn describe_agent_revoke() -> (r: Tool)
    ensures
        r@ == agent_revoke_tool(),
{
    let mut p: Vec<Property> = Vec::new();
    p.push(plain("agent_id", "string", "目标 Agent ID（必填）"));
    p.push(plain("admin_key", "string", "Admin Key"));
    let r = Tool { name: "agent_revoke", description: "撤销Agent令牌（需要Admin key）", properties: p };
    assert(r@.properties =~= agent_revoke_tool().properties);
    r
}

/// The tool `cross_agent_query`.
pub open spec fn cross_agent_query_tool() -> ToolView {
    ToolView {
        name: "cross_agent_query"@,
        description: "向另一个Agent提问"@,
        properties: Seq::empty(),
    }
}

fn describe_cross_agent_query() -> (r: Tool)
    ensures
        r@ == cross_agent_query_tool(),
{
    let p: Vec<Property> = Vec::new();
    let r = Tool { name: "cross_agent_query", description: "向另一个Agent提问", properties: p };
    assert(r@.properties =~= cross_agent_query_tool().properties);
    r
}

/// The tool `system_status`.
pub open spec fn system_status_tool() -> ToolView {
    ToolView {
        name: "system_status"@,
        description: "检查各Agent连接状态"@,
        properties: Seq::empty(),
    }
}

fn describe_system_status() -> (r: Tool)
    ensures
        r@ == system_status_tool(),
{
    let p: Vec<Property> = Vec::new();
    let r = Tool { name: "system_status", description: "检查各Agent连接状态", properties: p };
    assert(r@.properties =~= system_status_tool().properties);
    r
}

/// The tool `reasonix_dispatch`.
pub open spec fn reasonix_dispatch_tool() -> ToolView {
    ToolView {
        name: "reasonix_dispatch"@,
        description: "派发编码任务给Reasonix"@,
        properties: Seq::empty(),
    }
}

fn describe_reasonix_dispatch() -> (r: Tool)
    ensures
        r@ == reasonix_dispatch_tool(),
{
    let p: Vec<Property> = Vec::new();
    let r = Tool { name: "reasonix_dispatch", description: "派发编码任务给Reasonix", properties: p };
    assert(r@.properties =~= reasonix_dispatch_tool().properties);
    r
}

/// The tool `continue_task`.
pub open spec fn continue_task_tool() -> ToolView {
    ToolView {
        name: "continue_task"@,
        description: "继续一个等待输入的任务"@,
        properties: Seq::empty(),
    }
}

fn describe_continue_task() -> (r: Tool)
    ensures
        r@ == continue_task_tool(),
{
    let p: Vec<Property> = Vec::new();
    let r = Tool { name: "continue_task", description: "继续一个等待输入的任务", properties: p };
    assert(r@.properties =~= continue_task_tool().properties);
    r
}

/// The tool `auto_route`.
pub open spec fn auto_route_tool() -> ToolView {
    ToolView {
        name: "auto_route"@,
        description: "动态路由查询到最佳Agent"@,
        properties: Seq::empty(),
    }
}

fn describe_auto_route() -> (r: Tool)
    ensures
        r@ == auto_route_tool(),
{
    let p: Vec<Property> = Vec::new();
    let r = Tool { name: "auto_route", description: "动态路由查询到最佳Agent", properties: p };
    assert(r@.properties =~= auto_route_tool().properties);
    r
}

/// The tool `skill_market_search`.
pub open spec fn skill_market_search_tool() -> ToolView {
    ToolView {
        name: "skill_market_search"@,
        description: "搜索技能市场中的可用技能"@,
        properties: seq![
            param("query"@, "string"@, "搜索关键词"@),
            param("category"@, "string"@, "技能分类"@),
            param("max_results"@, "number"@, "最大结果数，默认 10"@),
        ],
    }
}

fn describe_skill_market_search() -> (r: Tool)
    ensures
        r@ == skill_market_search_tool(),
{
    let mut p: Vec<Property> = Vec::new();
    p.push(plain("query", "string", "搜索关键词"));
    p.push(plain("category", "string", "技能分类"));
    p.push(plain("max_results", "number", "最大结果数，默认 10"));
    let r = Tool { name: "skill_market_search", description: "搜索技能市场中的可用技能", properties: p };
    assert(r@.properties =~= skill_market_search_tool().properties);
    r
}

/// The tool `skill_market_info`.
pub open spec fn skill_market_info_tool() -> ToolView {
    ToolView {
        name: "skill_market_info"@,
        description: "查看技能详细信息"@,
        properties: seq![
            param("name"@, "string"@, "技能名（必填）"@),
        ],
    }
}

fn describe_skill_market_info() -> (r: Tool)
    ensures
        r@ == skill_market_info_tool(),
{
    let mut p: Vec<Property> = Vec::new();
    p.push(plain("name", "string", "技能名（必填）"));
    let r = Tool { name: "skill_market_info", description: "查看技能详细信息", properties: p };
    assert(r@.properties =~= skill_market_info_tool().properties);
    r
}

/// The tool `skill_market_publish`.
pub open spec fn skill_market_publish_tool() -> ToolView {
    ToolView {
        name: "skill_market_publish"@,
        description: "发布技能到市场（需要Admin key或同namespace）"@,
        properties: seq![
            param("name"@, "string"@, "技能名（必填）"@),
            param("admin_key"@, "string"@, "Admin Key"@),
            param("visibility"@, "string"@, "可见性 public/tenant/<ns>"@),
            param("description"@, "string"@, "描述"@),
            param("version"@, "string"@, "版本，默认 1.0.0"@),
            param("author"@, "string"@, "作者"@),
            param("category"@, "string"@, "分类，默认 general"@),
            param("steps"@, "string"@, "步骤 JSON 数组字符串"@),
            param("dependencies"@, "string"@, "依赖 JSON 数组字符串"@),
            param("source"@, "string"@, "来源，默认 manual"@),
        ],
    }
}

fn describe_skill_market_publish() -> (r: Tool)
    ensures
        r@ == skill_market_publish_tool(),
{
    let mut p: Vec<Property> = Vec::new();
    p.push(plain("name", "string", "技能名（必填）"));
    p.push(plain("admin_key", "string", "Admin Key"));
    p.push(plain("visibility", "string", "可见性 public/tenant/<ns>"));
    p.push(plain("description", "string", "描述"));
    p.push(plain("version", "string", "版本，默认 1.0.0"));
    p.push(plain("author", "string", "作者"));
    p.push(plain("category", "string", "分类，默认 general"));
    p.push(plain("steps", "string", "步骤 JSON 数组字符串"));
    p.push(plain("dependencies", "string", "依赖 JSON 数组字符串"));
    p.push(plain("source", "string", "来源，默认 manual"));
    let r = Tool { name: "skill_market_publish", description: "发布技能到市场（需要Admin key或同namespace）", properties: p };
    assert(r@.properties =~= skill_market_publish_tool().properties);
    r
}

/// The tool `skill_market_install`.
pub open spec fn skill_market_install_tool() -> ToolView {
    ToolView {
        name: "skill_market_install"@,
        description: "安装技能到指定Agent（需要Admin key或同namespace管理权）"@,
        properties: seq![
            param("skill_name"@, "string"@, "技能名（必填）"@),
            param("target_agent"@, "string"@, "目标 Agent ID（必填）"@),
            param("admin_key"@, "string"@, "Admin Key"@),
        ],
    }
}

fn describe_skill_market_install() -> (r: Tool)
    ensures
        r@ == skill_market_install_tool(),
{
    let mut p: Vec<Property> = Vec::new();
    p.push(plain("skill_name", "string", "技能名（必填）"));
    p.push(plain("target_agent", "string", "目标 Agent ID（必填）"));
    p.push(plain("admin_key", "string", "Admin Key"));
    let r = Tool { name: "skill_market_install", description: "安装技能到指定Agent（需要Admin key或同namespace管理权）", properties: p };
    assert(r@.properties =~= skill_market_install_tool().properties);
    r
}

/// The tool `skill_market_list_installed`.
pub open spec fn skill_market_list_installed_tool() -> ToolView {
    ToolView {
        name: "skill_market_list_installed"@,
        description: "查询指定Agent已安装的技能列表"@,
        properties: seq![
            param("agent_id"@, "string"@, "Agent ID（必填）"@),
        ],
    }
}

fn describe_skill_market_list_installed() -> (r: Tool)
    ensures
        r@ == skill_market_list_installed_tool(),
{
    let mut p: Vec<Property> = Vec::new();
    p.push(plain("agent_id", "string", "Agent ID（必填）"));
    let r = Tool { name: "skill_market_list_installed", description: "查询指定Agent已安装的技能列表", properties: p };
    assert(r@.properties =~= skill_market_list_installed_tool().properties);
    r
}

/// The tool `memory_decay`.
pub open spec fn memory_decay_tool() -> ToolView {
    ToolView {
        name: "memory_decay"@,
        description: "运行衰减循环（降低旧记忆权重）"@,
        properties: Seq::empty(),
    }
}

fn describe_memory_decay() -> (r: Tool)
    ensures
        r@ == memory_decay_tool(),
{
    let p: Vec<Property> = Vec::new();
    let r = Tool { name: "memory_decay", description: "运行衰减循环（降低旧记忆权重）", properties: p };
    assert(r@.properties =~= memory_decay_tool().properties);
    r
}

/// The tool `memory_graph`.
pub open spec fn memory_graph_tool() -> ToolView {
    ToolView {
        name: "memory_graph"@,
        description: "构建记忆关系图"@,
        properties: seq![
            param("batch_size"@, "number"@, "批大小，默认 50"@),
        ],
    }
}

fn describe_memory_graph() -> (r: Tool)
    ensures
        r@ == memory_graph_tool(),
{
    let mut p: Vec<Property> = Vec::new();
    p.push(plain("batch_size", "number", "批大小，默认 50"));
    let r = Tool { name: "memory_graph", description: "构建记忆关系图", properties: p };
    assert(r@.properties =~= memory_graph_tool().properties);
    r
}

/// The tool `memory_user_prefs`.
pub open spec fn memory_user_prefs_tool() -> ToolView {
    ToolView {
        name: "memory_user_prefs"@,
        description: "获取用户偏好设置（按 ns 聚合，hard_rule 优先；写入走 memory_remember，category=preference，tags∈pref|hard_rule|style）"@,
        properties: seq![
            param("tag"@, "string"@, "可选：仅返回指定类型偏好 hard_rule|pref|style"@),
        ],
    }
}

fn describe_memory_user_prefs() -> (r: Tool)
    ensures
        r@ == memory_user_prefs_tool(),
{
    let mut p: Vec<Property> = Vec::new();
    p.push(plain("tag", "string", "可选：仅返回指定类型偏好 hard_rule|pref|style"));
    let r = Tool { name: "memory_user_prefs", description: "获取用户偏好设置（按 ns 聚合，hard_rule 优先；写入走 memory_remember，category=preference，tags∈pref|hard_rule|style）", properties: p };
    assert(r@.properties =~= memory_user_prefs_tool().properties);
    r
}

/// The tool `memory_recent_decisions`.
pub open spec fn memory_recent_decisions_tool() -> ToolView {
    ToolView {
        name: "memory_recent_decisions"@,
        description: "获取最近的决策记录"@,
        properties: seq![
            param("limit"@, "number"@, "返回条数，默认 10"@),
        ],
    }
}

fn describe_memory_recent_decisions() -> (r: Tool)
    ensures
        r@ == memory_recent_decisions_tool(),
{
    let mut p: Vec<Property> = Vec::new();
    p.push(plain("limit", "number", "返回条数，默认 10"));
    let r = Tool { name: "memory_recent_decisions", description: "获取最近的决策记录", properties: p };
    assert(r@.properties =~= memory_recent_decisions_tool().properties);
    r
}

/// The tool `memory_backup`.
pub open spec fn memory_backup_tool() -> ToolView {
    ToolView {
        name: "memory_backup"@,
        description: "手动触发数据库备份（GFS 轮转）"@,
        properties: Seq::empty(),
    }
}

fn describe_memory_backup() -> (r: Tool)
    ensures
        r@ == memory_backup_tool(),
{
    let p: Vec<Property> = Vec::new();
    let r = Tool { name: "memory_backup", description: "手动触发数据库备份（GFS 轮转）", properties: p };
    assert(r@.properties =~= memory_backup_tool().properties);
    r
}

/// The tool `memory_backup_list`.
pub open spec fn memory_backup_list_tool() -> ToolView {
    ToolView {
        name: "memory_backup_list"@,
        description: "列出所有备份文件"@,
        properties: Seq::empty(),
    }
}

fn describe_memory_backup_list() -> (r: Tool)
    ensures
        r@ == memory_backup_list_tool(),
{
    let p: Vec<Property> = Vec::new();
    let r = Tool { name: "memory_backup_list", description: "列出所有备份文件", properties: p };
    assert(r@.properties =~= memory_backup_list_tool().properties);
    r
}

/// The tool `memory_health`.
pub open spec fn memory_health_tool() -> ToolView {
    ToolView {
        name: "memory_health"@,
        description: "完整健康检查报告"@,
        properties: Seq::empty(),
    }
}

fn describe_memory_health() -> (r: Tool)
    ensures
        r@ == memory_health_tool(),
{
    let p: Vec<Property> = Vec::new();
    let r = Tool { name: "memory_health", description: "完整健康检查报告", properties: p };
    assert(r@.properties =~= memory_health_tool().properties);
    r
}

/// The tool `memory_export`.
pub open spec fn memory_export_tool() -> ToolView {
    ToolView {
        name: "memory_export"@,
        description: "导出某命名空间的记忆/实体为流式 JSONL（认证后；大库分块防 OOM）"@,
        properties: seq![
            param("namespace"@, "string"@, "命名空间，默认 default"@),
            param("include_vectors"@, "boolean"@, "是否包含 embedding 向量（base64），默认 false"@),
        ],
    }
}

fn describe_memory_export() -> (r: Tool)
    ensures
        r@ == memory_export_tool(),
{
    let mut p: Vec<Property> = Vec::new();
    p.push(plain("namespace", "string", "命名空间，默认 default"));
    p.push(plain("include_vectors", "boolean", "是否包含 embedding 向量（base64），默认 false"));
    let r = Tool { name: "memory_export", description: "导出某命名空间的记忆/实体为流式 JSONL（认证后；大库分块防 OOM）", properties: p };
    assert(r@.properties =~= memory_export_tool().properties);
    r
}

/// The tool `memory_import`.
pub open spec fn memory_import_tool() -> ToolView {
    ToolView {
        name: "memory_import"@,
        description: "从 memory_export 的 JSONL 导入记忆/实体到本命名空间（认证后；INSERT OR IGNORE 幂等，重复导入不翻倍）"@,
        properties: seq![
            param("namespace"@, "string"@, "目标命名空间，默认 default"@),
            param("jsonl"@, "string"@, "memory_export 产出的 JSONL 文本"@),
            param("on_conflict"@, "string"@, "ignore（默认，跳过已存在）或 replace（覆盖）"@),
        ],
    }
}

fn describe_memory_import() -> (r: Tool)
    ensures
        r@ == memory_import_tool(),
{
    let mut p: Vec<Property> = Vec::new();
    p.push(plain("namespace", "string", "目标命名空间，默认 default"));
    p.push(plain("jsonl", "string", "memory_export 产出的 JSONL 文本"));
    p.push(plain("on_conflict", "string", "ignore（默认，跳过已存在）或 replace（覆盖）"));
    let r = Tool { name: "memory_import", description: "从 memory_export 的 JSONL 导入记忆/实体到本命名空间（认证后；INSERT OR IGNORE 幂等，重复导入不翻倍）", properties: p };
    assert(r@.properties =~= memory_import_tool().properties);
    r
}

/// The tool `memory_migration_manifest`.
pub open spec fn memory_migration_manifest_tool() -> ToolView {
    ToolView {
        name: "memory_migration_manifest"@,
        description: "生成跨机迁移包清单：DB + HNSW 的 sha256 校验和与全表行数（admin；与 GFS 备份格式统一）"@,
        properties: Seq::empty(),
    }
}

fn describe_memory_migration_manifest() -> (r: Tool)
    ensures
        r@ == memory_migration_manifest_tool(),
{
    let p: Vec<Property> = Vec::new();
    let r = Tool { name: "memory_migration_manifest", description: "生成跨机迁移包清单：DB + HNSW 的 sha256 校验和与全表行数（admin；与 GFS 备份格式统一）", properties: p };
    assert(r@.properties =~= memory_migration_manifest_tool().properties);
    r
}

/// The tool `memory_dedup_chain`.
pub open spec fn memory_dedup_chain_tool() -> ToolView {
    ToolView {
        name: "memory_dedup_chain"@,
        description: "查询某条记忆的 superseded 链"@,
        properties: seq![
            param("memory_id"@, "string"@, "记忆 ID（必填）"@),
        ],
    }
}

fn describe_memory_dedup_chain() -> (r: Tool)
    ensures
        r@ == memory_dedup_chain_tool(),
{
    let mut p: Vec<Property> = Vec::new();
    p.push(plain("memory_id", "string", "记忆 ID（必填）"));
    let r = Tool { name: "memory_dedup_chain", description: "查询某条记忆的 superseded 链", properties: p };
    assert(r@.properties =~= memory_dedup_chain_tool().properties);
    r
}

/// The tool `memory_merge`.
pub open spec fn memory_merge_tool() -> ToolView {
    ToolView {
        name: "memory_merge"@,
        description: "手动合并两条近义记忆（需 Admin key）"@,
        properties: seq![
            param("keep_id"@, "string"@, "保留的记忆 ID（必填）"@),
            param("merge_id"@, "string"@, "被合并的记忆 ID（必填）"@),
            param("admin_key"@, "string"@, "Admin Key"@),
        ],
    }
}

fn describe_memory_merge() -> (r: Tool)
    ensures
        r@ == memory_merge_tool(),
{
    let mut p: Vec<Property> = Vec::new();
    p.push(plain("keep_id", "string", "保留的记忆 ID（必填）"));
    p.push(plain("merge_id", "string", "被合并的记忆 ID（必填）"));
    p.push(plain("admin_key", "string", "Admin Key"));
    let r = Tool { name: "memory_merge", description: "手动合并两条近义记忆（需 Admin key）", properties: p };
    assert(r@.properties =~= memory_merge_tool().properties);
    r
}

/// The tool `memory_evolve`.
pub open spec fn memory_evolve_tool() -> ToolView {
    ToolView {
        name: "memory_evolve"@,
        description: "（PR4）对一条记忆施加演化：写入 evolved_context/evolved_at/link_count，并记 evolution_log（old_value 可回滚）。由 agent-core 夜间 consolidate 批处理调用，亦可手动。"@,
        properties: seq![
            param("target_id"@, "string"@, "被演化的记忆 id（必填）"@),
            param("namespace"@, "string"@, "记忆所属命名空间（默认 default）"@),
            param("evolved_context"@, "string"@, "演化合成的上下文/摘要（必填）"@),
            param("link_count"@, "number"@, "演化后关联边数；省略则按 memory_relations 自动统计"@),
            param("model"@, "string"@, "演化所用模型标识（记入 evolution_log）"@),
            param("change_type"@, "string"@, "变更类型，如 context_update/links_update"@),
        ],
    }
}

fn describe_memory_evolve() -> (r: Tool)
    ensures
        r@ == memory_evolve_tool(),
{
    let mut p: Vec<Property> = Vec::new();
    p.push(plain("target_id", "string", "被演化的记忆 id（必填）"));
    p.push(plain("namespace", "string", "记忆所属命名空间（默认 default）"));
    p.push(plain("evolved_context", "string", "演化合成的上下文/摘要（必填）"));
    p.push(plain("link_count", "number", "演化后关联边数；省略则按 memory_relations 自动统计"));
    p.push(plain("model", "string", "演化所用模型标识（记入 evolution_log）"));
    p.push(plain("change_type", "string", "变更类型，如 context_update/links_update"));
    let r = Tool { name: "memory_evolve", description: "（PR4）对一条记忆施加演化：写入 evolved_context/evolved_at/link_count，并记 evolution_log（old_value 可回滚）。由 agent-core 夜间 consolidate 批处理调用，亦可手动。", properties: p };
    assert(r@.properties =~= memory_evolve_tool().properties);
    r
}

/// The tool `evolution_rollback`.
pub open spec fn evolution_rollback_tool() -> ToolView {
    ToolView {
        name: "evolution_rollback"@,
        description: "（PR4）按 evolution_log.id 回滚某次演化，恢复 old_value（evolved_context/link_count）。敏感操作，需 Admin key。"@,
        properties: seq![
            param("log_id"@, "string"@, "evolution_log 行 id（必填）"@),
            param("admin_key"@, "string"@, "Admin Key"@),
            param("namespace"@, "string"@, "记忆所属命名空间（NamespaceArg 必填）；不传将被拒绝（Namespace argument required）"@),
        ],
    }
}

fn describe_evolution_rollback() -> (r: Tool)
    ensures
        r@ == evolution_rollback_tool(),
{
    let mut p: Vec<Property> = Vec::new();
    p.push(plain("log_id", "string", "evolution_log 行 id（必填）"));
    p.push(plain("admin_key", "string", "Admin Key"));
    p.push(plain("namespace", "string", "记忆所属命名空间（NamespaceArg 必填）；不传将被拒绝（Namespace argument required）"));
    let r = Tool { name: "evolution_rollback", description: "（PR4）按 evolution_log.id 回滚某次演化，恢复 old_value（evolved_context/link_count）。敏感操作，需 Admin key。", properties: p };
    assert(r@.properties =~= evolution_rollback_tool().properties);
    r
}

/// The tool `evolution_log_query`.
pub open spec fn evolution_log_query_tool() -> ToolView {
    ToolView {
        name: "evolution_log_query"@,
        description: "（PR5）只读查询 evolution_log 负样本（rolled_back/corrected 等），供 agent-core 元进化闭环采样。纯读取，不写库、不调 LLM。"@,
        properties: seq![
            param("change_types"@, "array"@, "按变更类型过滤，如 [\"rolled_back\",\"corrected\"]；空数组=不过滤"@),
            param("since"@, "string"@, "created_at 下界 ISO8601（YYYY-MM-DDTHH:MM:SS），默认 1970-01-01"@),
            param("limit"@, "number"@, "最多返回条数，默认 500，上限 5000"@),
            param("namespace"@, "string"@, "命名空间（NamespaceArg 必填）；不传将被拒绝（Namespace argument required）"@),
        ],
    }
}

fn describe_evolution_log_query() -> (r: Tool)
    ensures
        r@ == evolution_log_query_tool(),
{
    let mut p: Vec<Property> = Vec::new();
    p.push(plain("change_types", "array", "按变更类型过滤，如 [\"rolled_back\",\"corrected\"]；空数组=不过滤"));
    p.push(plain("since", "string", "created_at 下界 ISO8601（YYYY-MM-DDTHH:MM:SS），默认 1970-01-01"));
    p.push(plain("limit", "number", "最多返回条数，默认 500，上限 5000"));
    p.push(plain("namespace", "string", "命名空间（NamespaceArg 必填）；不传将被拒绝（Namespace argument required）"));
    let r = Tool { name: "evolution_log_query", description: "（PR5）只读查询 evolution_log 负样本（rolled_back/corrected 等），供 agent-core 元进化闭环采样。纯读取，不写库、不调 LLM。", properties: p };
    assert(r@.properties =~= evolution_log_query_tool().properties);
    r
}

/// The tool `memory_evolve_auto`.
pub open spec fn memory_evolve_auto_tool() -> ToolView {
    ToolView {
        name: "memory_evolve_auto"@,
        description: "（G2 自动演化）对命名空间内 evolved_at IS NULL 的记忆做内置提升式演化（memoria:builtin-auto，不调 LLM），写入 evolution_log 并标 evolved_at。幂等（只处理未演化），可周期/事件触发。"@,
        properties: seq![
            param("namespace"@, "string"@, "命名空间，默认 default"@),
            param("limit"@, "number"@, "本次最多处理条数，默认 50，上限 2000"@),
        ],
    }
}

fn describe_memory_evolve_auto() -> (r: Tool)
    ensures
        r@ == memory_evolve_auto_tool(),
{
    let mut p: Vec<Property> = Vec::new();
    p.push(plain("namespace", "string", "命名空间，默认 default"));
    p.push(plain("limit", "number", "本次最多处理条数，默认 50，上限 2000"));
    let r = Tool { name: "memory_evolve_auto", description: "（G2 自动演化）对命名空间内 evolved_at IS NULL 的记忆做内置提升式演化（memoria:builtin-auto，不调 LLM），写入 evolution_log 并标 evolved_at。幂等（只处理未演化），可周期/事件触发。", properties: p };
    assert(r@.properties =~= memory_evolve_auto_tool().properties);
    r
}

/// The tool `agent_registry_cleanup`.
pub open spec fn agent_registry_cleanup_tool() -> ToolView {
    ToolView {
        name: "agent_registry_cleanup"@,
        description: "（G4 注册表清理）保守幂等移除 agent_registry 中死行（badge 为空 / test_ / demo_ 占位）。不删真实 agent。需 Admin key。"@,
        properties: seq![
            param("admin_key"@, "string"@, "Admin Key"@),
        ],
    }
}

fn describe_agent_registry_cleanup() -> (r: Tool)
    ensures
        r@ == agent_registry_cleanup_tool(),
{
    let mut p: Vec<Property> = Vec::new();
    p.push(plain("admin_key", "string", "Admin Key"));
    let r = Tool { name: "agent_registry_cleanup", description: "（G4 注册表清理）保守幂等移除 agent_registry 中死行（badge 为空 / test_ / demo_ 占位）。不删真实 agent。需 Admin key。", properties: p };
    assert(r@.properties =~= agent_registry_cleanup_tool().properties);
    r
}

/// The tool `memory_maintenance_normalize`.
pub open spec fn memory_maintenance_normalize_tool() -> ToolView {
    ToolView {
        name: "memory_maintenance_normalize"@,
        description: "Q1 维护：归一 valid_from/valid_to 时间格式（补 T）+ 清洗 1970 哨兵为空。⚠️ 破坏性，调用前必须先 memory_backup（需 Admin key）"@,
        properties: seq![
            param("admin_key"@, "string"@, "Admin Key"@),
        ],
    }
}

fn describe_memory_maintenance_normalize() -> (r: Tool)
    ensures
        r@ == memory_maintenance_normalize_tool(),
{
    let mut p: Vec<Property> = Vec::new();
    p.push(plain("admin_key", "string", "Admin Key"));
    let r = Tool { name: "memory_maintenance_normalize", description: "Q1 维护：归一 valid_from/valid_to 时间格式（补 T）+ 清洗 1970 哨兵为空。⚠️ 破坏性，调用前必须先 memory_backup（需 Admin key）", properties: p };
    assert(r@.properties =~= memory_maintenance_normalize_tool().properties);
    r
}

/// The tool `memory_fetch_unconsolidated`.
pub open spec fn memory_fetch_unconsolidated_tool() -> ToolView {
    ToolView {
        name: "memory_fetch_unconsolidated"@,
        description: "取本命名空间中 created_at > since 的未巩固观察记录（供 agent-core 夜间巩固提炼；纯读取）"@,
        properties: seq![
            param("namespace"@, "string"@, "命名空间，默认 default"@),
            param("since"@, "string"@, "游标：只取 created_at 大于此 ISO8601 时间的记录，默认 1970-01-01"@),
            param("limit"@, "number"@, "最多返回条数，默认 200"@),
        ],
    }
}

fn describe_memory_fetch_unconsolidated() -> (r: Tool)
    ensures
        r@ == memory_fetch_unconsolidated_tool(),
{
    let mut p: Vec<Property> = Vec::new();
    p.push(plain("namespace", "string", "命名空间，默认 default"));
    p.push(plain("since", "string", "游标：只取 created_at 大于此 ISO8601 时间的记录，默认 1970-01-01"));
    p.push(plain("limit", "number", "最多返回条数，默认 200"));
    let r = Tool { name: "memory_fetch_unconsolidated", description: "取本命名空间中 created_at > since 的未巩固观察记录（供 agent-core 夜间巩固提炼；纯读取）", properties: p };
    assert(r@.properties =~= memory_fetch_unconsolidated_tool().properties);
    r
}

/// The tool `dream_state_get`.
pub open spec fn dream_state_get_tool() -> ToolView {
    ToolView {
        name: "dream_state_get"@,
        description: "读取某命名空间某阶段的巩固进度（last_run / cursor_ts）"@,
        properties: seq![
            param("namespace"@, "string"@, "命名空间，默认 default"@),
            param("phase"@, "string"@, "阶段：consolidate/entity_extract/decay/graph，默认 consolidate"@),
        ],
    }
}

fn describe_dream_state_get() -> (r: Tool)
    ensures
        r@ == dream_state_get_tool(),
{
    let mut p: Vec<Property> = Vec::new();
    p.push(plain("namespace", "string", "命名空间，默认 default"));
    p.push(plain("phase", "string", "阶段：consolidate/entity_extract/decay/graph，默认 consolidate"));
    let r = Tool { name: "dream_state_get", description: "读取某命名空间某阶段的巩固进度（last_run / cursor_ts）", properties: p };
    assert(r@.properties =~= dream_state_get_tool().properties);
    r
}

/// The tool `dream_state_update`.
pub open spec fn dream_state_update_tool() -> ToolView {
    ToolView {
        name: "dream_state_update"@,
        description: "推进某命名空间某阶段的巩固进度游标（P1-4 限流 + cursor 校验；幂等，只写进度表）"@,
        properties: seq![
            param("namespace"@, "string"@, "命名空间，默认 default"@),
            param("phase"@, "string"@, "阶段，默认 consolidate"@),
            param("cursor_ts"@, "string"@, "本批处理到的最大 created_at（推进游标），必填且须比现有游标新"@),
            param("items_out"@, "number"@, "本批产出条数，默认 0"@),
            param("sessions_processed"@, "number"@, "本批处理会话数，默认 0"@),
        ],
    }
}

fn describe_dream_state_update() -> (r: Tool)
    ensures
        r@ == dream_state_update_tool(),
{
    let mut p: Vec<Property> = Vec::new();
    p.push(plain("namespace", "string", "命名空间，默认 default"));
    p.push(plain("phase", "string", "阶段，默认 consolidate"));
    p.push(plain("cursor_ts", "string", "本批处理到的最大 created_at（推进游标），必填且须比现有游标新"));
    p.push(plain("items_out", "number", "本批产出条数，默认 0"));
    p.push(plain("sessions_processed", "number", "本批处理会话数，默认 0"));
    let r = Tool { name: "dream_state_update", description: "推进某命名空间某阶段的巩固进度游标（P1-4 限流 + cursor 校验；幂等，只写进度表）", properties: p };
    assert(r@.properties =~= dream_state_update_tool().properties);
    r
}

/// The tool `entity_upsert`.
pub open spec fn entity_upsert_tool() -> ToolView {
    ToolView {
        name: "entity_upsert"@,
        description: "创建或更新一个实体（幂等：同名同类型的实体仅更新别名/摘要）"@,
        properties: seq![
            param("namespace"@, "string"@, "命名空间"@),
            param("entity_id"@, "string"@, "实体唯一 ID（建议 UUID4，留空自动生成）"@),
            param("entity_type"@, "string"@, "类型：person/system/tool/concept/org/project/location/event/other"@),
            param("name"@, "string"@, "实体名称（必填）"@),
            param("aliases"@, "string"@, "别名 JSON 数组字符串，如 [\"别名1\",\"别名2\"]"@),
            param("summary"@, "string"@, "实体摘要描述"@),
        ],
    }
}

fn describe_entity_upsert() -> (r: Tool)
    ensures
        r@ == entity_upsert_tool(),
{
    let mut p: Vec<Property> = Vec::new();
    p.push(plain("namespace", "string", "命名空间"));
    p.push(plain("entity_id", "string", "实体唯一 ID（建议 UUID4，留空自动生成）"));
    p.push(plain("entity_type", "string", "类型：person/system/tool/concept/org/project/location/event/other"));
    p.push(plain("name", "string", "实体名称（必填）"));
    p.push(plain("aliases", "string", "别名 JSON 数组字符串，如 [\"别名1\",\"别名2\"]"));
    p.push(plain("summary", "string", "实体摘要描述"));
    let r = Tool { name: "entity_upsert", description: "创建或更新一个实体（幂等：同名同类型的实体仅更新别名/摘要）", properties: p };
    assert(r@.properties =~= entity_upsert_tool().properties);
    r
}

/// The tool `entity_add_mention`.
pub open spec fn entity_add_mention_tool() -> ToolView {
    ToolView {
        name: "entity_add_mention"@,
        description: "记录实体在某条记忆中的提及"@,
        properties: seq![
            param("entity_id"@, "string"@, "实体 ID"@),
            param("memory_id"@, "string"@, "记忆 ID"@),
            param("context"@, "string"@, "上下文片段（实体在记忆中出现的周围的文字）"@),
            param("namespace"@, "string"@, "命名空间，默认 default"@),
        ],
    }
}

fn describe_entity_add_mention() -> (r: Tool)
    ensures
        r@ == entity_add_mention_tool(),
{
    let mut p: Vec<Property> = Vec::new();
    p.push(plain("entity_id", "string", "实体 ID"));
    p.push(plain("memory_id", "string", "记忆 ID"));
    p.push(plain("context", "string", "上下文片段（实体在记忆中出现的周围的文字）"));
    p.push(plain("namespace", "string", "命名空间，默认 default"));
    let r = Tool { name: "entity_add_mention", description: "记录实体在某条记忆中的提及", properties: p };
    assert(r@.properties =~= entity_add_mention_tool().properties);
    r
}

/// The tool `entity_add_edge`.
pub open spec fn entity_add_edge_tool() -> ToolView {
    ToolView {
        name: "entity_add_edge"@,
        description: "创建实体间关系边"@,
        properties: seq![
            param("source_entity_id"@, "string"@, "源实体 ID"@),
            param("target_entity_id"@, "string"@, "目标实体 ID"@),
            param("relation_type"@, "string"@, "关系类型，如 uses/depends_on/mentions/part_of/similar_to"@),
            param("weight"@, "number"@, "关系权重 0-1，默认 1.0"@),
            param("evidence"@, "string"@, "证据来源描述"@),
            param("namespace"@, "string"@, "命名空间，默认 default"@),
            param("valid_from"@, "string"@, "P1-5 时序真值：关系生效起点 ISO-8601（默认插入时刻）"@),
            param("valid_to"@, "string"@, "P1-5 时序真值：关系失效点 ISO-8601（默认 NULL，长期有效）"@),
        ],
    }
}

fn describe_entity_add_edge() -> (r: Tool)
    ensures
        r@ == entity_add_edge_tool(),
{
    let mut p: Vec<Property> = Vec::new();
    p.push(plain("source_entity_id", "string", "源实体 ID"));
    p.push(plain("target_entity_id", "string", "目标实体 ID"));
    p.push(plain("relation_type", "string", "关系类型，如 uses/depends_on/mentions/part_of/similar_to"));
    p.push(plain("weight", "number", "关系权重 0-1，默认 1.0"));
    p.push(plain("evidence", "string", "证据来源描述"));
    p.push(plain("namespace", "string", "命名空间，默认 default"));
    p.push(plain("valid_from", "string", "P1-5 时序真值：关系生效起点 ISO-8601（默认插入时刻）"));
    p.push(plain("valid_to", "string", "P1-5 时序真值：关系失效点 ISO-8601（默认 NULL，长期有效）"));
    let r = Tool { name: "entity_add_edge", description: "创建实体间关系边", properties: p };
    assert(r@.properties =~= entity_add_edge_tool().properties);
    r
}

/// The tool `entity_search`.
pub open spec fn entity_search_tool() -> ToolView {
    ToolView {
        name: "entity_search"@,
        description: "搜索实体（按类型/名称/关键词）"@,
        properties: seq![
            param("query"@, "string"@, "搜索关键词（匹配 name/aliases/summary 及记忆提及上下文 context）"@),
            param("entity_type"@, "string"@, "按类型过滤，可选"@),
            param("namespace"@, "string"@, "命名空间，默认 default"@),
            param("max_results"@, "number"@, "最大返回数，默认 20"@),
        ],
    }
}

fn describe_entity_search() -> (r: Tool)
    ensures
        r@ == entity_search_tool(),
{
    let mut p: Vec<Property> = Vec::new();
    p.push(plain("query", "string", "搜索关键词（匹配 name/aliases/summary 及记忆提及上下文 context）"));
    p.push(plain("entity_type", "string", "按类型过滤，可选"));
    p.push(plain("namespace", "string", "命名空间，默认 default"));
    p.push(plain("max_results", "number", "最大返回数，默认 20"));
    let r = Tool { name: "entity_search", description: "搜索实体（按类型/名称/关键词）", properties: p };
    assert(r@.properties =~= entity_search_tool().properties);
    r
}

/// All tools, in the order in which they are listed.
pub open spec fn tool_table() -> Seq<ToolView> {
    seq![
        memory_search_tool(),
        memory_search_v2_tool(),
        memory_remember_tool(),
        ingest_document_tool(),
        memory_tool(),
        memory_profile_tool(),
        memory_context_tool(),
        memory_recall_tool(),
        memory_observe_tool(),
        memory_quota_status_tool(),
        register_agent_tool(),
        register_user_tool(),
        login_user_tool(),
        import_install_memories_tool(),
        get_allowed_ns_tool(),
        audit_query_tool(),
        db_stats_tool(),
        a2a_send_tool(),
        a2a_recv_tool(),
        agent_list_tool(),
        agent_revoke_tool(),
        cross_agent_query_tool(),
        system_status_tool(),
        reasonix_dispatch_tool(),
        continue_task_tool(),
        auto_route_tool(),
        skill_market_search_tool(),
        skill_market_info_tool(),
        skill_market_publish_tool(),
        skill_market_install_tool(),
        skill_market_list_installed_tool(),
        memory_decay_tool(),
        memory_graph_tool(),
        memory_user_prefs_tool(),
        memory_recent_decisions_tool(),
        memory_backup_tool(),
        memory_backup_list_tool(),
        memory_health_tool(),
        memory_export_tool(),
        memory_import_tool(),
        memory_migration_manifest_tool(),
        memory_dedup_chain_tool(),
        memory_merge_tool(),
        memory_evolve_tool(),
        evolution_rollback_tool(),
        evolution_log_query_tool(),
        memory_evolve_auto_tool(),
        agent_registry_cleanup_tool(),
        memory_maintenance_normalize_tool(),
        memory_fetch_unconsolidated_tool(),
        dream_state_get_tool(),
        dream_state_update_tool(),
        entity_upsert_tool(),
        entity_add_mention_tool(),
        entity_add_edge_tool(),
        entity_search_tool(),
    ]
}

pub open spec fn tool_views(v: Seq<Tool>) -> Seq<ToolView> {
    Seq::new(v.len(), |i: int| v[i]@)
}

/// The tools that the service offers.
pub fn tools_list() -> (r: Vec<Tool>)
    ensures
        tool_views(r@) == tool_table(),
{
    let mut v: Vec<Tool> = Vec::new();
    v.push(describe_memory_search());
    v.push(describe_memory_search_v2());
    v.push(describe_memory_remember());
    v.push(describe_ingest_document());
    v.push(describe_memory());
    v.push(describe_memory_profile());
    v.push(describe_memory_context());
    v.push(describe_memory_recall());
    v.push(describe_memory_observe());
    v.push(describe_memory_quota_status());
    v.push(describe_register_agent());
    v.push(describe_register_user());
    v.push(describe_login_user());
    v.push(describe_import_install_memories());
    v.push(describe_get_allowed_ns());
    v.push(describe_audit_query());
    v.push(describe_db_stats());
    v.push(describe_a2a_send());
    v.push(describe_a2a_recv());
    v.push(describe_agent_list());
    v.push(describe_agent_revoke());
    v.push(describe_cross_agent_query());
    v.push(describe_system_status());
    v.push(describe_reasonix_dispatch());
    v.push(describe_continue_task());
    v.push(describe_auto_route());
    v.push(describe_skill_market_search());
    v.push(describe_skill_market_info());
    v.push(describe_skill_market_publish());
    v.push(describe_skill_market_install());
    v.push(describe_skill_market_list_installed());
    v.push(describe_memory_decay());
    v.push(describe_memory_graph());
    v.push(describe_memory_user_prefs());
    v.push(describe_memory_recent_decisions());
    v.push(describe_memory_backup());
    v.push(describe_memory_backup_list());
    v.push(describe_memory_health());
    v.push(describe_memory_export());
    v.push(describe_memory_import());
    v.push(describe_memory_migration_manifest());
    v.push(describe_memory_dedup_chain());
    v.push(describe_memory_merge());
    v.push(describe_memory_evolve());
    v.push(describe_evolution_rollback());
    v.push(describe_evolution_log_query());
    v.push(describe_memory_evolve_auto());
    v.push(describe_agent_registry_cleanup());
    v.push(describe_memory_maintenance_normalize());
    v.push(describe_memory_fetch_unconsolidated());
    v.push(describe_dream_state_get());
    v.push(describe_dream_state_update());
    v.push(describe_entity_upsert());
    v.push(describe_entity_add_mention());
    v.push(describe_entity_add_edge());
    v.push(describe_entity_search());
    assert(tool_views(v@) =~= tool_table());
    v
}

/// The permission matrix and the list of tools speak of the same tools, in the
/// same order: each tool that is offered has its entry, and no entry is left
/// without a tool.
pub proof fn law_matrix_covers_tools()
    ensures
        tool_table().len() == permissions::matrix().len(),
        forall|i: int|
            0 <= i < tool_table().len() ==> (#[trigger] tool_table()[i]).name
                == permissions::matrix()[i].tool,
{
    let t = tool_table();
    let m = permissions::matrix();
    assert forall|i: int| 0 <= i < t.len() implies (#[trigger] t[i]).name == m[i].tool by {
        assert(t[0].name == m[0].tool);
        assert(t[1].name == m[1].tool);
        assert(t[2].name == m[2].tool);
        assert(t[3].name == m[3].tool);
        assert(t[4].name == m[4].tool);
        assert(t[5].name == m[5].tool);
        assert(t[6].name == m[6].tool);
        assert(t[7].name == m[7].tool);
        assert(t[8].name == m[8].tool);
        assert(t[9].name == m[9].tool);
        assert(t[10].name == m[10].tool);
        assert(t[11].name == m[11].tool);
        assert(t[12].name == m[12].tool);
        assert(t[13].name == m[13].tool);
        assert(t[14].name == m[14].tool);
        assert(t[15].name == m[15].tool);
        assert(t[16].name == m[16].tool);
        assert(t[17].name == m[17].tool);
        assert(t[18].name == m[18].tool);
        assert(t[19].name == m[19].tool);
        assert(t[20].name == m[20].tool);
        assert(t[21].name == m[21].tool);
        assert(t[22].name == m[22].tool);
        assert(t[23].name == m[23].tool);
        assert(t[24].name == m[24].tool);
        assert(t[25].name == m[25].tool);
        assert(t[26].name == m[26].tool);
        assert(t[27].name == m[27].tool);
        assert(t[28].name == m[28].tool);
        assert(t[29].name == m[29].tool);
        assert(t[30].name == m[30].tool);
        assert(t[31].name == m[31].tool);
        assert(t[32].name == m[32].tool);
        assert(t[33].name == m[33].tool);
        assert(t[34].name == m[34].tool);
        assert(t[35].name == m[35].tool);
        assert(t[36].name == m[36].tool);
        assert(t[37].name == m[37].tool);
        assert(t[38].name == m[38].tool);
        assert(t[39].name == m[39].tool);
        assert(t[40].name == m[40].tool);
        assert(t[41].name == m[41].tool);
        assert(t[42].name == m[42].tool);
        assert(t[43].name == m[43].tool);
        assert(t[44].name == m[44].tool);
        assert(t[45].name == m[45].tool);
        assert(t[46].name == m[46].tool);
        assert(t[47].name == m[47].tool);
        assert(t[48].name == m[48].tool);
        assert(t[49].name == m[49].tool);
        assert(t[50].name == m[50].tool);
        assert(t[51].name == m[51].tool);
        assert(t[52].name == m[52].tool);
        assert(t[53].name == m[53].tool);
        assert(t[54].name == m[54].tool);
        assert(t[55].name == m[55].tool);
    }
}

/// What is known of a parameter is what its fields hold.
pub proof fn law_parameters_hold_what_they_say(x: Property)
    ensures
        x@.name == x.name@,
        x@.kind == x.kind@,
        x@.description == x.description@,
        x@.default == x.default,
{
}

/// What is known of a tool is what its fields hold, with its parameters in their order.
pub proof fn law_tools_hold_what_they_say(x: Tool)
    ensures
        x@.name == x.name@,
        x@.description == x.description@,
        x@.properties.len() == x.properties@.len(),
        forall|i: int| 0 <= i < x.properties@.len() ==> #[trigger] x@.properties[i] == x.properties@[i]@,
{
}

} // verus!
