//! The tool protocol: routing of requests, the guard in front of the tools, and
//! the forms of the replies.
use vstd::prelude::*;
use crate::auth;
use crate::auth::{AuthResult, AuthView};
use crate::dispatch;
use crate::json;
use crate::json::{Json, JsonView, Number, NumberView};
use crate::permissions;
use crate::permissions::NsPolicy;
use crate::quota;
use crate::text;

verus! {

/// An entry for the audit log.
#[derive(Debug)]
pub struct AuditEvent {
    pub agent_id: String,
    pub tool: String,
    pub params: String,
    pub allowed: bool,
}

/// The tools that are handed on to the bridge.
pub open spec fn bridge_tool(tool: Seq<char>) -> bool {
    tool == "cross_agent_query"@ || tool == "system_status"@ || tool == "reasonix_dispatch"@ || tool
        == "continue_task"@ || tool == "auto_route"@
}

/// Tells whether a tool is handed on to the bridge.
pub fn is_bridge_tool(tool: &str) -> (r: bool)
    ensures
        r == bridge_tool(tool@),
{
    text::same(tool, "cross_agent_query") || text::same(tool, "system_status") || text::same(
        tool,
        "reasonix_dispatch",
    ) || text::same(tool, "continue_task") || text::same(tool, "auto_route")
}

/// The namespace that a call is checked for. A tool that knows none stands for
/// the caller's own; one of the matrix has to be told, unless its entry, or that there
/// is none, lets it fall back to `default`.
pub open spec fn checked_ns(tool: Seq<char>, args: JsonView, auth: AuthView) -> Option<Seq<char>> {
    match permissions::find_entry(permissions::matrix(), tool) {
        Some(e) => if e.ns_policy == NsPolicy::NoNamespace {
            Some(dispatch::main_ns(auth))
        } else if e.ns_policy == NsPolicy::DefaultNs {
            Some(dispatch::call_ns(args))
        } else {
            args.text_at("namespace"@)
        },
        None => Some(dispatch::call_ns(args)),
    }
}

/// The tool knows no namespaces.
pub open spec fn ns_free(tool: Seq<char>) -> bool {
    match permissions::find_entry(permissions::matrix(), tool) {
        Some(e) => e.ns_policy == NsPolicy::NoNamespace,
        None => false,
    }
}

/// The text of a call that is turned into a vector before it is run: the query
/// of a search, the content of a memory.
pub open spec fn embedded_text(tool: Seq<char>, args: JsonView, embedding: bool) -> Option<
    Seq<char>,
> {
    if !embedding {
        None
    } else if tool == "memory_search"@ || tool == "memory_search_v2"@ {
        solid_text(args, "query"@)
    } else if tool == "memory_remember"@ || tool == "memory"@ {
        solid_text(args, "content"@)
    } else {
        None
    }
}

/// The text under `key`, unless it is empty.
pub open spec fn solid_text(args: JsonView, key: Seq<char>) -> Option<Seq<char>> {
    match args.text_at(key) {
        Some(s) if s.len() > 0 => Some(s),
        _ => None,
    }
}

fn nonempty_at(args: &Json, key: &str) -> (r: Option<String>)
    ensures
        text::opt_text(r) == solid_text(args@, key@),
{
    match args.str_at(key) {
        Some(s) => if s.is_empty() {
            None
        } else {
            Some(s.to_string())
        },
        None => None,
    }
}

/// What the guard says to a call.
#[derive(Debug)]
pub enum Gate {
    /// The call is refused with an error.
    Denied { code: i32, message: String },
    /// The caller is told its own namespaces.
    OwnNamespaces,
    /// The call goes to the bridge.
    Forward,
    /// The call is run, once the given text has its vector.
    Dispatch { embed: Option<String> },
}

/// The guard refuses with this code and message.
pub open spec fn denies(g: Gate, c: int, m: Seq<char>) -> bool {
    g matches Gate::Denied { code, message } && code == c && message@ == m
}

/// What the guard says to a call.
pub open spec fn gate_says(
    tool: Seq<char>,
    args: JsonView,
    auth: Option<AuthView>,
    embedding: bool,
    g: Gate,
) -> bool {
    match auth {
        None => denies(
            g,
            -32001,
            "Authentication failed. Send X-Agent-Id and X-Agent-Key headers."@,
        ),
        Some(a) => if tool == "get_allowed_ns"@ {
            g is OwnNamespaces
        } else {
            match checked_ns(tool, args, a) {
                None => denies(g, -32002, "Namespace argument required for this tool."@),
                Some(ns) => if !ns_free(tool) && !auth::may_access(a, ns) {
                    denies(g, -32002, "Namespace '"@ + ns + "' not authorized."@)
                } else if bridge_tool(tool) {
                    g is Forward
                } else {
                    g matches Gate::Dispatch { embed } && text::opt_text(embed) == embedded_text(
                        tool,
                        args,
                        embedding,
                    )
                },
            }
        },
    }
}

pub open spec fn opt_auth(o: Option<&AuthResult>) -> Option<AuthView> {
    match o {
        Some(a) => Some(a@),
        None => None,
    }
}

/// The guard in front of the tools. `auth` is the caller, if it could be
/// authenticated; `embedding` tells whether there is an embedding service.
pub fn handle_tool_call(tool: &str, args: &Json, auth: Option<&AuthResult>, embedding: bool) -> (g:
    Gate)
    ensures
        gate_says(tool@, args@, opt_auth(auth), embedding, g),
{
    let auth = match auth {
        None => {
            return Gate::Denied {
                code: -32001,
                message: "Authentication failed. Send X-Agent-Id and X-Agent-Key headers.".to_string(),
            };
        },
        Some(a) => a,
    };
    if text::same(tool, "get_allowed_ns") {
        return Gate::OwnNamespaces;
    }
    let entry = permissions::matrix_lookup(tool);
    let (ns, free): (String, bool) = match entry {
        Some(e) => {
            if e.ns_policy == NsPolicy::NoNamespace {
                (dispatch::main_namespace(auth), true)
            } else if e.ns_policy == NsPolicy::DefaultNs {
                (dispatch::call_namespace(args), false)
            } else {
                match args.string_at("namespace") {
                    Some(n) => (n, false),
                    None => {
                        return Gate::Denied {
                            code: -32002,
                            message: "Namespace argument required for this tool.".to_string(),
                        };
                    },
                }
            }
        },
        None => (dispatch::call_namespace(args), false),
    };
    if !free && !auth::check_ns_access(auth, ns.as_str()) {
        return Gate::Denied {
            code: -32002,
            message: text::cat3("Namespace '", ns.as_str(), "' not authorized."),
        };
    }
    if is_bridge_tool(tool) {
        return Gate::Forward;
    }
    let embed = if !embedding {
        None
    } else if text::same(tool, "memory_search") || text::same(tool, "memory_search_v2") {
        nonempty_at(args, "query")
    } else if text::same(tool, "memory_remember") || text::same(tool, "memory") {
        nonempty_at(args, "content")
    } else {
        None
    };
    Gate::Dispatch { embed }
}

/// No call is run or handed on in a namespace that the caller may not use: it
/// has been authenticated, and its namespace is open to it, unless the tool
/// knows none.
pub proof fn law_gate_isolates_namespaces(
    tool: Seq<char>,
    args: JsonView,
    auth: Option<AuthView>,
    embedding: bool,
    g: Gate,
)
    requires
        gate_says(tool, args, auth, embedding, g),
        g is Dispatch || g is Forward,
    ensures
        auth is Some,
        checked_ns(tool, args, auth->0) is Some,
        ns_free(tool) || auth::may_access(auth->0, checked_ns(tool, args, auth->0)->0),
{
}

/// A caller who is not known is refused, whatever is called; one who is known always
/// learns its own namespaces.
pub proof fn law_strangers_are_refused(
    tool: Seq<char>,
    args: JsonView,
    auth: Option<AuthView>,
    embedding: bool,
    g: Gate,
)
    requires
        gate_says(tool, args, auth, embedding, g),
    ensures
        auth is None ==> (g matches Gate::Denied { code, message } && code == -32001),
        auth is Some && tool == "get_allowed_ns"@ ==> g is OwnNamespaces,
{
}

/// A tool of the matrix that knows namespaces is never run without one: the one that
/// was checked is the one that it runs in, and it stands in the arguments unless the
/// entry of the tool lets it fall back to `default`.
pub proof fn law_namespace_is_explicit(
    tool: Seq<char>,
    args: JsonView,
    auth: Option<AuthView>,
    embedding: bool,
    g: Gate,
)
    requires
        gate_says(tool, args, auth, embedding, g),
        g is Dispatch || g is Forward,
        permissions::find_entry(permissions::matrix(), tool) is Some,
        !ns_free(tool),
    ensures
        permissions::find_entry(permissions::matrix(), tool)->0.ns_policy != NsPolicy::DefaultNs
            ==> args.text_at("namespace"@) is Some,
        checked_ns(tool, args, auth->0) == Some(dispatch::call_ns(args)),
{
}

/// A reply counts as allowed in the audit log unless it speaks of an error.
pub fn reply_allowed(reply: &str) -> (r: bool)
    ensures
        r == !text::occurs(reply@, "\"error\""@),
{
    !text::contains(reply, "\"error\"")
}

/// What a caller is told of its own namespaces.
pub fn own_namespaces(auth: &AuthResult) -> (r: Json)
    ensures
        r@ == JsonView::empty().with("agent_id"@, JsonView::Text(auth.agent_id@)).with(
            "allowed_ns"@,
            json::text_array(auth@.allowed_ns),
        ),
{
    json::with(
        json::with(json::empty_object(), "agent_id", json::string(auth.agent_id.as_str())),
        "allowed_ns",
        json::string_array(&auth.allowed_ns),
    )
}

/// A reply to the request `id`.
pub open spec fn rpc_reply(id: JsonView, key: Seq<char>, value: JsonView) -> JsonView {
    JsonView::empty().with("jsonrpc"@, JsonView::Text("2.0"@)).with("id"@, id).with(key, value)
}

/// A reply carries the id of its request, and the value that answers it.
pub proof fn law_replies_carry_the_id(id: JsonView, value: JsonView, failed: bool)
    ensures
        ({
            let key = if failed {
                "error"@
            } else {
                "result"@
            };
            &&& rpc_reply(id, key, value).member("id"@) == Some(id)
            &&& rpc_reply(id, key, value).member(key) == Some(value)
            &&& rpc_reply(id, key, value).text_at("jsonrpc"@) == Some("2.0"@)
        }),
{
    reveal_strlit("jsonrpc");
    reveal_strlit("id");
    reveal_strlit("error");
    reveal_strlit("result");
    reveal_with_fuel(json::find_member, 4);
    assert("jsonrpc"@.len() == 7 && "id"@.len() == 2 && "error"@.len() == 5 && "result"@.len()
        == 6);
    let key = if failed {
        "error"@
    } else {
        "result"@
    };
    let o = rpc_reply(id, key, value)->Object_0;
    assert(o.len() == 3);
    assert(o.skip(1)[0] == o[1] && o.skip(1).skip(1)[0] == o[2]);
}

/// A successful reply.
pub fn rpc_ok(id: &Json, result: Json) -> (r: Json)
    ensures
        r@ == rpc_reply(id@, "result"@, result@),
{
    json::with(
        json::with(
            json::with(json::empty_object(), "jsonrpc", json::string("2.0")),
            "id",
            id.copy(),
        ),
        "result",
        result,
    )
}

/// The result of a tool that answers with a text.
pub open spec fn text_result(t: Seq<char>) -> JsonView {
    JsonView::empty().with(
        "content"@,
        JsonView::Array(
            seq![
                JsonView::empty().with("type"@, JsonView::Text("text"@)).with(
                    "text"@,
                    JsonView::Text(t),
                ),
            ],
        ),
    )
}

/// A successful reply that holds a text.
pub fn rpc_ok_text(id: &Json, t: &str) -> (r: Json)
    ensures
        r@ == rpc_reply(id@, "result"@, text_result(t@)),
{
    let item = json::with(
        json::with(json::empty_object(), "type", json::string("text")),
        "text",
        json::string(t),
    );
    let ghost iv = item@;
    let mut items: Vec<Json> = Vec::new();
    items.push(item);
    let list = Json::Array(items);
    assert(list@->Array_0 =~= seq![iv]);
    rpc_ok(id, json::with(json::empty_object(), "content", list))
}

/// What is said of an error.
pub open spec fn error_value(code: i32, message: Seq<char>) -> JsonView {
    JsonView::empty().with(
        "code"@,
        JsonView::Number(
            if code < 0 {
                NumberView::Negative(code as i64)
            } else {
                NumberView::Unsigned(code as u64)
            },
        ),
    ).with("message"@, JsonView::Text(message))
}

/// A reply with an error.
pub fn rpc_error(id: &Json, code: i32, message: &str) -> (r: Json)
    ensures
        r@ == rpc_reply(
            id@,
            "error"@,
            error_value(code, message@),
        ),
{
    let number = if code < 0 {
        Json::Number(Number::Negative(code as i64))
    } else {
        Json::Number(Number::Unsigned(code as u64))
    };
    let error = json::with(
        json::with(json::empty_object(), "code", number),
        "message",
        json::string(message),
    );
    json::with(
        json::with(
            json::with(json::empty_object(), "jsonrpc", json::string("2.0")),
            "id",
            id.copy(),
        ),
        "error",
        error,
    )
}

/// What a request asks for.
#[derive(Debug)]
pub enum Route {
    /// The handshake, with the protocol version that the client wants.
    Initialize { protocol: String },
    ToolsList,
    ToolsCall { tool: String },
    NotFound { message: String },
}

/// What a request asks for.
pub open spec fn routes(body: JsonView, r: Route) -> bool {
    let method = body.text_or("method"@, ""@);
    if method == "initialize"@ {
        r matches Route::Initialize { protocol } && protocol@ == param_text(
            body,
            "protocolVersion"@,
            "2024-11-05"@,
        )
    } else if method == "tools/list"@ {
        r is ToolsList
    } else if method == "tools/call"@ {
        r matches Route::ToolsCall { tool } && tool@ == param_text(body, "name"@, ""@)
    } else {
        r matches Route::NotFound { message } && message@ == "Method not found: "@ + method
    }
}

/// The text under `key` among the parameters of a request.
pub open spec fn param_text(body: JsonView, key: Seq<char>, default: Seq<char>) -> Seq<char> {
    match body.member("params"@) {
        Some(p) => p.text_or(key, default),
        None => default,
    }
}

fn param_string(body: &Json, key: &str, default: &str) -> (r: String)
    ensures
        r@ == param_text(body@, key@, default@),
{
    match body.get("params") {
        Some(p) => p.string_or(key, default),
        None => default.to_string(),
    }
}

/// Finds out what a request asks for.
pub fn route(body: &Json) -> (r: Route)
    ensures
        routes(body@, r),
{
    let method = body.string_or("method", "");
    if text::same(method.as_str(), "initialize") {
        Route::Initialize { protocol: param_string(body, "protocolVersion", "2024-11-05") }
    } else if text::same(method.as_str(), "tools/list") {
        Route::ToolsList
    } else if text::same(method.as_str(), "tools/call") {
        Route::ToolsCall { tool: param_string(body, "name", "") }
    } else {
        Route::NotFound { message: text::cat("Method not found: ", method.as_str()) }
    }
}

/// The answer to the handshake.
pub open spec fn handshake_value(protocol: Seq<char>) -> JsonView {
    JsonView::empty().with("protocolVersion"@, JsonView::Text(protocol)).with(
        "serverInfo"@,
        JsonView::empty().with("name"@, JsonView::Text("memoria"@)).with(
            "version"@,
            JsonView::Text("0.3.0"@),
        ),
    ).with("capabilities"@, JsonView::empty().with("tools"@, JsonView::empty()))
}

/// The answer to the handshake: the version that the client wants is taken.
pub fn initialize_result(protocol: &str) -> (r: Json)
    ensures
        r@ == handshake_value(protocol@),
{
    let info = json::with(
        json::with(json::empty_object(), "name", json::string("memoria")),
        "version",
        json::string("0.3.0"),
    );
    let capabilities = json::with(json::empty_object(), "tools", json::empty_object());
    json::with(
        json::with(
            json::with(json::empty_object(), "protocolVersion", json::string(protocol)),
            "serverInfo",
            info,
        ),
        "capabilities",
        capabilities,
    )
}

/// What a caller whose quota is used up is told.
pub open spec fn quota_error_value(kind: Seq<char>, limit: u64, retry_after_sec: u64) -> JsonView {
    JsonView::empty().with("status"@, JsonView::Text("error"@)).with(
        "code"@,
        JsonView::Text("quota_exceeded"@),
    ).with(
        "message"@,
        JsonView::Text(
            "namespace quota exceeded for '"@ + kind + "' (limit "@ + text::dec(limit as nat)
                + " per window)"@,
        ),
    ).with("kind"@, JsonView::Text(kind)).with(
        "limit"@,
        JsonView::Number(NumberView::Unsigned(limit)),
    ).with("retry_after_sec"@, JsonView::Number(NumberView::Unsigned(retry_after_sec)))
}

/// What a caller whose quota is used up is told, as JSON.
pub fn quota_error_json(kind: &str, limit: u64, retry_after_sec: u64) -> (r: String)
    ensures
        r@ == json::rendered(quota_error_value(kind@, limit, retry_after_sec)),
{
    let message = text::cat5(
        "namespace quota exceeded for '",
        kind,
        "' (limit ",
        text::decimal(limit).as_str(),
        " per window)",
    );
    let mut o = json::with(json::empty_object(), "status", json::string("error"));
    o = json::with(o, "code", json::string("quota_exceeded"));
    o = json::with(o, "message", json::string(message.as_str()));
    o = json::with(o, "kind", json::string(kind));
    o = json::with(o, "limit", json::unsigned(limit));
    o = json::with(o, "retry_after_sec", json::unsigned(retry_after_sec));
    json::render_json(&o)
}

/// A memory has all the tags: its row is there, and each of the tags stands in
/// quotes in the text of its tags. No tags ask for nothing.
pub open spec fn has_tags(row: Option<Seq<char>>, tags: Seq<Seq<char>>) -> bool {
    tags.len() == 0 || (row is Some && forall|i: int|
        0 <= i < tags.len() ==> text::occurs(row->0, "\""@ + #[trigger] tags[i] + "\""@))
}

/// Tells whether a memory has all the tags. `row` is the text of its tags, where
/// the memory is there.
pub fn matches_memory_tags(row: Option<&str>, tags: &Vec<String>) -> (r: bool)
    ensures
        r == has_tags(text::opt_str(row), text::texts(tags@)),
{
    if tags.len() == 0 {
        return true;
    }
    let found = match row {
        Some(s) => s,
        None => {
            return false;
        },
    };
    let ghost t = text::texts(tags@);
    let mut i: usize = 0;
    while i < tags.len()
        invariant
            i <= tags@.len(),
            t == text::texts(tags@),
            row == Some(found),
            forall|k: int|
                0 <= k < i ==> text::occurs(found@, "\""@ + #[trigger] t[k] + "\""@),
        decreases tags@.len() - i,
    {
        if !text::contains(found, text::cat3("\"", tags[i].as_str(), "\"").as_str()) {
            assert(t[i as int] == tags@[i as int]@);
            assert(!text::occurs(found@, "\""@ + t[i as int] + "\""@));
            return false;
        }
        i += 1;
    }
    true
}

/// The variable that sets how long a phase rests.
pub fn dream_cooldown_variable(phase: &str) -> (r: String)
    ensures
        r@ == "MEMORIA_DREAM_COOLDOWN_"@ + text::uppercased(phase@),
{
    text::cat("MEMORIA_DREAM_COOLDOWN_", text::to_uppercase(phase).as_str())
}

/// The number that a variable holds, if it is set to one.
pub open spec fn number_in(v: Option<Seq<char>>) -> Option<nat> {
    match v {
        Some(s) => text::spelled(s, u64::MAX as nat),
        None => None,
    }
}

/// The seconds for which a phase rests: by its own variable, else by the common
/// one, else a minute for decay and five minutes for any other.
pub open spec fn cooldown_of(
    phase: Seq<char>,
    own: Option<Seq<char>>,
    common: Option<Seq<char>>,
) -> nat {
    match (number_in(own), number_in(common)) {
        (Some(n), _) => n,
        (None, Some(n)) => n,
        (None, None) => if phase == "decay"@ {
            60
        } else {
            300
        },
    }
}

/// The seconds for which a phase rests, given the values of its own variable and
/// of the common one.
pub fn dream_cooldown(phase: &str, own: Option<&str>, common: Option<&str>) -> (r: u64)
    ensures
        r == cooldown_of(phase@, text::opt_str(own), text::opt_str(common)),
{
    if let Some(v) = own {
        if let Some(n) = text::parse_u64(v) {
            return n;
        }
    }
    if let Some(v) = common {
        if let Some(n) = text::parse_u64(v) {
            return n;
        }
    }
    if text::same(phase, "decay") {
        60
    } else {
        300
    }
}

/// Why a cursor is not moved on; none where it is. It has to come behind the
/// one before, and the phase must have rested.
pub open spec fn cursor_refusal(
    cursor: Seq<char>,
    previous: Option<Seq<char>>,
    rested: bool,
    phase: Seq<char>,
    ns: Seq<char>,
    cooldown: nat,
) -> Option<Seq<char>> {
    if previous is Some && text::sorted_le(cursor, previous->0) {
        Some(
            "{\"status\":\"error\",\"message\":\"cursor_ts must advance: new '"@ + cursor
                + "' not newer than previous '"@ + previous->0 + "'\"}"@,
        )
    } else if !rested {
        Some(
            "{\"status\":\"error\",\"message\":\"rate limited: phase '"@ + phase + "' for ns '"@ + ns
                + "' requires "@ + text::dec(cooldown) + "s cooldown\"}"@,
        )
    } else {
        None
    }
}

/// Decides whether the cursor of a phase is moved on.
pub fn advance_cursor(
    cursor: &str,
    previous: Option<&str>,
    rested: bool,
    phase: &str,
    ns: &str,
    cooldown: u64,
) -> (r: Result<(), String>)
    ensures
        match r {
            Ok(()) => cursor_refusal(
                cursor@,
                text::opt_str(previous),
                rested,
                phase@,
                ns@,
                cooldown as nat,
            ) is None,
            Err(e) => cursor_refusal(
                cursor@,
                text::opt_str(previous),
                rested,
                phase@,
                ns@,
                cooldown as nat,
            ) == Some(e@),
        },
{
    if let Some(prev) = previous {
        if text::text_le(cursor, prev) {
            return Err(
                text::cat5(
                    "{\"status\":\"error\",\"message\":\"cursor_ts must advance: new '",
                    cursor,
                    "' not newer than previous '",
                    prev,
                    "'\"}",
                ),
            );
        }
    }
    if !rested {
        let mut s = text::cat5(
            "{\"status\":\"error\",\"message\":\"rate limited: phase '",
            phase,
            "' for ns '",
            ns,
            "' requires ",
        );
        s.append(text::decimal(cooldown).as_str());
        s.append("s cooldown\"}");
        return Err(s);
    }
    Ok(())
}

/// A cursor that is moved on lies strictly behind the one before: no cursor goes
/// back or stays.
pub proof fn law_cursor_only_advances(
    cursor: Seq<char>,
    previous: Seq<char>,
    rested: bool,
    phase: Seq<char>,
    ns: Seq<char>,
    cooldown: nat,
)
    requires
        cursor_refusal(cursor, Some(previous), rested, phase, ns, cooldown) is None,
    ensures
        text::sorted_le(previous, cursor),
        previous != cursor,
{
    text::law_order_is_total(previous, cursor);
    text::law_order_is_total(cursor, cursor);
}

/// The code and the message of an error of the storage: the codes 403, 404 and
/// 409 stand in front of their message; any other error is a 400.
pub open spec fn storage_error(e: Seq<char>) -> (nat, Seq<char>) {
    match text::index_from(e, ':', 0) {
        Some(c) => match text::spelled(text::trimmed(e.take(c)), u16::MAX as nat) {
            Some(n) if n == 404 || n == 403 || n == 409 => (n, text::trimmed(e.skip(c + 1))),
            _ => (400, e),
        },
        None => (400, e),
    }
}

/// The reply to a memory that could not be written.
pub fn remember_error(e: &str) -> (r: String)
    ensures
        r@ == "{\"status\":\"error\",\"code\":"@ + text::dec(storage_error(e@).0)
            + ",\"message\":\""@ + storage_error(e@).1 + "\"}"@,
{
    let v = text::chars_of(e);
    let mut code: u64 = 400;
    let mut message = e.to_string();
    if let Some(c) = text::index_of(&v, ':', 0) {
        let prefix = text::string_between(&v, 0, c);
        assert(prefix@ =~= e@.take(c as int));
        let n_v = v.len();
        if let Some(n) = text::parse_up_to(text::trim(prefix.as_str()).as_str(), u16::MAX as u64) {
            if n == 404 || n == 403 || n == 409 {
                let rest = text::string_between(&v, c + 1, n_v);
                assert(rest@ =~= e@.skip(c + 1));
                code = n;
                message = text::trim(rest.as_str());
            }
        }
    }
    text::cat5(
        "{\"status\":\"error\",\"code\":",
        text::decimal(code).as_str(),
        ",\"message\":\"",
        message.as_str(),
        "\"}",
    )
}

/// The reply to a memory that was written. `superseded` holds the memories that
/// it replaces, each with its similarity in decimal notation.
pub fn remember_reply(id: &str, action: &str, superseded: &Vec<(String, String)>) -> (r: String)
    ensures
        r@ == (if action@ == "superseded_near_dup"@ && superseded@.len() > 0 {
            "{\"status\":\"remembered\",\"id\":\""@ + id@ + "\",\"action\":\""@ + action@
                + "\",\"superseded\":["@ + text::joined(pair_texts(superseded@), ","@) + "]}"@
        } else {
            "{\"status\":\"remembered\",\"id\":\""@ + id@ + "\",\"action\":\""@ + action@ + "\"}"@
        }),
{
    let mut s = text::cat5(
        "{\"status\":\"remembered\",\"id\":\"",
        id,
        "\",\"action\":\"",
        action,
        "",
    );
    proof {
        reveal_strlit("");
        let t = "{\"status\":\"remembered\",\"id\":\""@ + id@ + "\",\"action\":\""@ + action@;
        assert(t + ""@ =~= t);
    }
    if text::same(action, "superseded_near_dup") && superseded.len() > 0 {
        let mut parts: Vec<String> = Vec::new();
        let mut i: usize = 0;
        while i < superseded.len()
            invariant
                i <= superseded@.len(),
                parts@.len() == i,
                forall|k: int| 0 <= k < i ==> (#[trigger] parts@[k])@ == pair_text(superseded@[k]),
            decreases superseded@.len() - i,
        {
            parts.push(
                text::cat5(
                    "{\"id\":\"",
                    superseded[i].0.as_str(),
                    "\",\"similarity\":",
                    superseded[i].1.as_str(),
                    "}",
                ),
            );
            i += 1;
        }
        assert(text::texts(parts@) =~= pair_texts(superseded@));
        s.append("\",\"superseded\":[");
        s.append(text::join(&parts, ",").as_str());
        s.append("]}");
    } else {
        s.append("\"}");
    }
    s
}

/// A replaced memory as it stands in a reply.
pub open spec fn pair_text(p: (String, String)) -> Seq<char> {
    "{\"id\":\""@ + p.0@ + "\",\"similarity\":"@ + p.1@ + "}"@
}

pub open spec fn pair_texts(v: Seq<(String, String)>) -> Seq<Seq<char>> {
    Seq::new(v.len(), |i: int| pair_text(v[i]))
}

/// The reply with an error of the storage.
pub fn error_reply(e: &str) -> (r: String)
    ensures
        r@ == "{\"status\":\"error\",\"message\":\""@ + e@ + "\"}"@,
{
    text::cat3("{\"status\":\"error\",\"message\":\"", e, "\"}")
}

/// The reply to a document that could not be stored: double quotes in the error
/// become single ones.
pub fn ingest_error(e: &str) -> (r: String)
    ensures
        r@ == "{\"status\":\"error\",\"code\":422,\"message\":\""@ + text::replaced(e@, '"', '\'')
            + "\"}"@,
{
    text::cat3(
        "{\"status\":\"error\",\"code\":422,\"message\":\"",
        text::replace_char(e, '"', '\'').as_str(),
        "\"}",
    )
}

/// The chain of a memory may be shown: the memory's namespace is open to the
/// caller.
pub fn chain_refusal(auth: &AuthResult, memory_ns: &str) -> (r: Option<String>)
    ensures
        text::opt_text(r) == (if auth::may_access(auth@, memory_ns@) {
            None
        } else {
            Some(dispatch::NS_NOT_AUTHORIZED@)
        }),
{
    if auth::check_ns_access(auth, memory_ns) {
        None
    } else {
        Some(dispatch::NS_NOT_AUTHORIZED.to_string())
    }
}

/// The full health report may be shown: to an administrator, or with the
/// configured key. A caller who could not be authenticated has only the key.
pub fn health_access(auth: Option<&AuthResult>, key: &str, configured: &str) -> (r: bool)
    ensures
        r == (match auth {
            Some(a) => permissions::is_admin(a@, key@, configured@),
            None => configured@.len() > 0 && key@ == configured@,
        }),
{
    match auth {
        Some(a) => permissions::require_admin(a, key, configured),
        None => {
            let nobody = AuthResult {
                agent_id: String::new(),
                allowed_ns: Vec::new(),
                role: String::new(),
            };
            proof {
                reveal_strlit("admin");
                assert("admin"@.len() == 5);
                assert(nobody.role@ != "admin"@);
            }
            permissions::require_admin(&nobody, key, configured)
        },
    }
}

/// What the public health check says: well only where the embedding is.
pub fn public_status(embed_status: &str) -> (r: &'static str)
    ensures
        r@ == (if embed_status@ == "pass"@ {
            "ok"@
        } else {
            "degraded"@
        }),
{
    if text::same(embed_status, "pass") {
        "ok"
    } else {
        "degraded"
    }
}

/// A request is routed by its method: a call names its tool among the parameters, and the
/// handshake the version that the client wants.
pub proof fn law_requests_are_routed_by_method(body: JsonView, params: JsonView, t: Seq<char>, r: Route)
    requires
        routes(body, r),
        body.member("params"@) == Some(params),
    ensures
        body.member("method"@) == Some(JsonView::Text("tools/call"@)) && params.member("name"@) == Some(
            JsonView::Text(t),
        ) ==> (r matches Route::ToolsCall { tool } && tool@ == t),
        body.member("method"@) == Some(JsonView::Text("tools/list"@)) ==> r is ToolsList,
        body.member("method"@) == Some(JsonView::Text("initialize"@)) && params.member(
            "protocolVersion"@,
        ) == Some(JsonView::Text(t)) ==> (r matches Route::Initialize { protocol } && protocol@ == t),
        body.member("method"@) == Some(JsonView::Text("initialize"@)) && params.member(
            "protocolVersion"@,
        ) is None ==> (r matches Route::Initialize { protocol } && protocol@ == "2024-11-05"@),
        body.member("method"@) == Some(JsonView::Text(t)) && !seq![
            "tools/call"@,
            "tools/list"@,
            "initialize"@,
        ].contains(t) ==> r is NotFound,
{
    reveal_strlit("tools/call");
    reveal_strlit("tools/list");
    reveal_strlit("initialize");
    assert("tools/call"@.len() == 10 && "tools/list"@.len() == 10 && "initialize"@.len() == 10);
    assert("tools/list"@[6] == 'l' && "tools/call"@[6] == 'c' && "initialize"@[0] == 'i' && "tools/call"@[0] == 't' && "tools/list"@[0] == 't');
    let m = seq!["tools/call"@, "tools/list"@, "initialize"@];
    assert(m[0] == "tools/call"@ && m[1] == "tools/list"@ && m[2] == "initialize"@);
    assert(m.contains("tools/call"@) && m.contains("tools/list"@) && m.contains("initialize"@));
}

/// A caller who is known and may use the namespace that stands in the arguments is let
/// through, and a call that names one it may not use is refused.
pub proof fn law_open_namespaces_are_let_through(
    tool: Seq<char>,
    args: JsonView,
    a: AuthView,
    embedding: bool,
    g: Gate,
    ns: Seq<char>,
    e: permissions::EntryView,
)
    requires
        gate_says(tool, args, Some(a), embedding, g),
        tool != "get_allowed_ns"@,
        permissions::find_entry(permissions::matrix(), tool) == Some(e),
        args.member("namespace"@) == Some(JsonView::Text(ns)),
        !ns_free(tool),
    ensures
        auth::may_access(a, ns) ==> g is Dispatch || g is Forward,
        !auth::may_access(a, ns) ==> (g matches Gate::Denied { code, message } && code == -32002
            && text::occurs(message@, "'"@ + ns + "'"@)),
{
    if !auth::may_access(a, ns) {
        reveal_strlit("Namespace '");
        reveal_strlit("'");
        reveal_strlit("' not authorized.");
        let m = "Namespace '"@ + ns + "' not authorized."@;
        let q = "'"@ + ns + "'"@;
        assert(m.subrange(10, 10 + q.len() as int) =~= q);
        assert(text::stands_at(m, q, 10));
    }
}

/// Before it is run, a search has its query turned into a vector and a memory its content;
/// nothing else is, nor where there is no service for it.
pub proof fn law_queries_and_contents_are_embedded(
    tool: Seq<char>,
    args: JsonView,
    a: AuthView,
    embedding: bool,
    g: Gate,
    t: Seq<char>,
)
    requires
        gate_says(tool, args, Some(a), embedding, g),
        g is Dispatch,
        t.len() > 0,
    ensures
        !embedding ==> g->embed is None,
        embedding && (tool == "memory_search"@ || tool == "memory_search_v2"@) && args.member("query"@)
            == Some(JsonView::Text(t)) ==> text::opt_text(g->embed) == Some(t),
        embedding && (tool == "memory_remember"@ || tool == "memory"@) && args.member("content"@)
            == Some(JsonView::Text(t)) ==> text::opt_text(g->embed) == Some(t),
        tool == "entity_search"@ || tool == "memory_recall"@ ==> g->embed is None,
{
    reveal_strlit("memory_search");
    reveal_strlit("memory_search_v2");
    reveal_strlit("memory_remember");
    reveal_strlit("memory");
    reveal_strlit("entity_search");
    reveal_strlit("memory_recall");
    assert("memory_search"@.len() == 13 && "memory_search_v2"@.len() == 16 && "memory_remember"@.len() == 15 && "memory"@.len() == 6 && "entity_search"@.len() == 13 && "memory_recall"@.len() == 13);
    assert("entity_search"@[0] == 'e' && "memory_search"@[0] == 'm' && "memory_recall"@[7] == 'r' && "memory_search"@[7] == 's' && "memory_recall"@[0] == 'm');
}

/// What is said of an error, of a quota that is used up and in the handshake stands under its
/// own name.
pub proof fn law_errors_are_told_by_name(
    code: i32,
    message: Seq<char>,
    kind: Seq<char>,
    limit: u64,
    wait: u64,
    protocol: Seq<char>,
)
    ensures
        error_value(code, message).member("code"@) == Some(
            JsonView::Number(
                if code < 0 {
                    NumberView::Negative(code as i64)
                } else {
                    NumberView::Unsigned(code as u64)
                },
            ),
        ),
        error_value(code, message).member("message"@) == Some(JsonView::Text(message)),
        quota_error_value(kind, limit, wait).member("status"@) == Some(JsonView::Text("error"@)),
        quota_error_value(kind, limit, wait).member("code"@) == Some(
            JsonView::Text("quota_exceeded"@),
        ),
        quota_error_value(kind, limit, wait).member("kind"@) == Some(JsonView::Text(kind)),
        quota_error_value(kind, limit, wait).member("limit"@) == Some(
            JsonView::Number(NumberView::Unsigned(limit)),
        ),
        quota_error_value(kind, limit, wait).member("retry_after_sec"@) == Some(
            JsonView::Number(NumberView::Unsigned(wait)),
        ),
        handshake_value(protocol).member("protocolVersion"@) == Some(JsonView::Text(protocol)),
        handshake_value(protocol).member("capabilities"@) matches Some(c) && c.member("tools"@) is Some,
{
    json::lemma_chains();
    reveal_strlit("code");
    reveal_strlit("message");
    reveal_strlit("status");
    reveal_strlit("kind");
    reveal_strlit("limit");
    reveal_strlit("retry_after_sec");
    assert("code"@.len() == 4 && "message"@.len() == 7 && "status"@.len() == 6 && "kind"@.len() == 4 && "limit"@.len() == 5 && "retry_after_sec"@.len() == 15);
    assert("kind"@[0] == 'k' && "code"@[0] == 'c');
    reveal_strlit("protocolVersion");
    reveal_strlit("serverInfo");
    reveal_strlit("capabilities");
    assert("protocolVersion"@.len() == 15 && "serverInfo"@.len() == 10 && "capabilities"@.len() == 12);
}

/// The result of a tool holds its text as it is.
pub proof fn law_results_hold_their_text(t: Seq<char>)
    ensures
        text_result(t).member("content"@) matches Some(JsonView::Array(a)) && a.len() == 1
            && a[0].member("type"@) == Some(JsonView::Text("text"@)) && a[0].member("text"@) == Some(
            JsonView::Text(t),
        ),
{
    json::lemma_chains();
    reveal_strlit("type");
    reveal_strlit("text");
    assert("type"@.len() == 4 && "text"@.len() == 4);
    assert("text"@[1] == 'e' && "type"@[1] == 'y');
}

/// A memory has some tags where it has each of them, and one tag where it stands in quotes
/// among its own.
pub proof fn law_tags_are_asked_for_one_by_one(
    row: Seq<char>,
    a: Seq<Seq<char>>,
    b: Seq<Seq<char>>,
    tag: Seq<char>,
)
    ensures
        has_tags(Some(row), a + b) <==> has_tags(Some(row), a) && has_tags(Some(row), b),
        has_tags(Some(row), seq![tag]) <==> text::occurs(row, "\""@ + tag + "\""@),
        has_tags(None, a) <==> a.len() == 0,
{
    let c = a + b;
    assert(forall|i: int| 0 <= i < a.len() ==> c[i] == #[trigger] a[i]);
    assert(forall|i: int| 0 <= i < b.len() ==> c[a.len() + i] == #[trigger] b[i]);
    if has_tags(Some(row), a) && has_tags(Some(row), b) {
        assert forall|i: int| 0 <= i < c.len() implies text::occurs(
            row,
            "\""@ + #[trigger] c[i] + "\""@,
        ) by {
            if i < a.len() {
                assert(c[i] == a[i]);
            } else {
                assert(c[i] == b[i - a.len()]);
            }
        }
    }
    if has_tags(Some(row), c) && c.len() > 0 {
        assert forall|i: int| 0 <= i < a.len() implies text::occurs(
            row,
            "\""@ + #[trigger] a[i] + "\""@,
        ) by {
            assert(c[i] == a[i]);
        }
        assert forall|i: int| 0 <= i < b.len() implies text::occurs(
            row,
            "\""@ + #[trigger] b[i] + "\""@,
        ) by {
            assert(c[a.len() + i] == b[i]);
        }
    }
    assert(seq![tag][0] == tag);
}

/// A phase rests by its own setting before the common one; without any, decay rests a minute
/// and the others five.
pub proof fn law_own_settings_come_first(phase: Seq<char>, own: u64, common: u64)
    ensures
        cooldown_of(phase, Some(text::dec(own as nat)), Some(text::dec(common as nat))) == own,
        cooldown_of(phase, None, Some(text::dec(common as nat))) == common,
        cooldown_of("decay"@, None, None) == 60,
        phase != "decay"@ ==> cooldown_of(phase, None, None) == 300,
{
    text::law_decimal_is_read_back(own as nat, u64::MAX as nat);
    text::law_decimal_is_read_back(common as nat, u64::MAX as nat);
}

/// A cursor is moved on where it comes behind the one before and the phase has rested.
pub proof fn law_rested_phases_move_on(
    cursor: Seq<char>,
    previous: Seq<char>,
    phase: Seq<char>,
    ns: Seq<char>,
    cooldown: nat,
)
    ensures
        cursor_refusal(cursor, None, true, phase, ns, cooldown) is None,
        cursor_refusal(cursor, None, false, phase, ns, cooldown) is Some,
        cursor_refusal(cursor, Some(cursor), true, phase, ns, cooldown) is Some,
        !text::sorted_le(cursor, previous) ==> cursor_refusal(
            cursor,
            Some(previous),
            true,
            phase,
            ns,
            cooldown,
        ) is None,
{
    text::law_order_is_total(cursor, cursor);
}

/// An error of the storage gives its code where that is one of the three that are passed on,
/// and else a 400 with the whole text.
pub proof fn law_codes_stand_before_their_message(n: u16, message: Seq<char>)
    ensures
        n == 403 || n == 404 || n == 409 ==> storage_error(text::dec(n as nat) + ":"@ + message) == (
            n as nat,
            text::trimmed(message),
        ),
        n != 403 && n != 404 && n != 409 ==> storage_error(text::dec(n as nat) + ":"@ + message) == (
            400nat,
            text::dec(n as nat) + ":"@ + message,
        ),
        !message.contains(':') ==> storage_error(message) == (400nat, message),
{
    reveal_strlit(":");
    let d = text::dec(n as nat);
    let s = d + ":"@ + message;
    text::law_decimal_is_read_back(n as nat, u16::MAX as nat);
    text::law_characters_are_found(s, ':', 0);
    assert(s[d.len() as int] == ':');
    if let Some(k) = text::index_from(s, ':', 0) {
        if k < d.len() {
            assert(text::is_digit(d[k]));
        }
        assert(k == d.len());
        assert(s.take(k) =~= d);
        assert(s.skip(k + 1) =~= message);
    }
    assert(text::trimmed(d) == d) by {
        assert(text::is_digit(d[0]) && text::is_digit(d[d.len() - 1]));
        reveal_with_fuel(text::trimmed_start, 2);
        reveal_with_fuel(text::trimmed_end, 2);
    }
    text::law_characters_are_found(message, ':', 0);
    if let Some(k) = text::index_from(message, ':', 0) {
        assert(message[k] == ':');
    }
}

/// The five tools of the bridge are handed on, and no other tool is.
pub proof fn law_bridge_tools_are_handed_on(
    tool: Seq<char>,
    args: JsonView,
    a: AuthView,
    embedding: bool,
    g: Gate,
)
    requires
        gate_says(tool, args, Some(a), embedding, g),
    ensures
        g is Forward ==> seq![
            "cross_agent_query"@,
            "system_status"@,
            "reasonix_dispatch"@,
            "continue_task"@,
            "auto_route"@,
        ].contains(tool),
        g is Dispatch ==> !seq![
            "cross_agent_query"@,
            "system_status"@,
            "reasonix_dispatch"@,
            "continue_task"@,
            "auto_route"@,
        ].contains(tool),
        tool != "get_allowed_ns"@ && checked_ns(tool, args, a) is None ==> (g matches Gate::Denied {
            code,
            message,
        } && code == -32002),
{
    let l = seq![
        "cross_agent_query"@,
        "system_status"@,
        "reasonix_dispatch"@,
        "continue_task"@,
        "auto_route"@,
    ];
    assert(l[0] == "cross_agent_query"@ && l[1] == "system_status"@ && l[2] == "reasonix_dispatch"@ && l[3] == "continue_task"@ && l[4] == "auto_route"@);
    if l.contains(tool) {
        let k = choose|k: int| 0 <= k < l.len() && l[k] == tool;
        assert(k == 0 || k == 1 || k == 2 || k == 3 || k == 4);
    }
}

/// A memory that was replaced is named with its own id and its own similarity.
pub proof fn law_replaced_memories_are_named(v: Seq<(String, String)>, i: int)
    requires
        0 <= i < v.len(),
    ensures
        pair_texts(v).len() == v.len(),
        text::begins(pair_texts(v)[i], "{\"id\":\""@ + v[i].0@ + "\""@),
        text::ends(pair_texts(v)[i], "\"similarity\":"@ + v[i].1@ + "}"@),
{
    reveal_strlit("\",\"similarity\":");
    reveal_strlit("\"similarity\":");
    reveal_strlit("\"");
    let s = pair_text(v[i]);
    let a = "{\"id\":\""@ + v[i].0@ + "\""@;
    let b = "\"similarity\":"@ + v[i].1@ + "}"@;
    assert(s.subrange(0, a.len() as int) =~= a);
    assert(s.subrange(s.len() - b.len(), s.len() as int) =~= b);
}

/// The handshake tells the name and the version of the service.
pub proof fn law_handshakes_name_the_service(protocol: Seq<char>)
    ensures
        handshake_value(protocol).member("serverInfo"@) matches Some(i) && i.member("name"@) == Some(
            JsonView::Text("memoria"@),
        ) && i.member("version"@) == Some(JsonView::Text("0.3.0"@)),
{
    json::lemma_chains();
    reveal_strlit("protocolVersion");
    reveal_strlit("serverInfo");
    reveal_strlit("capabilities");
    assert("protocolVersion"@.len() == 15 && "serverInfo"@.len() == 10 && "capabilities"@.len() == 12);
    reveal_strlit("name");
    reveal_strlit("version");
    assert("name"@.len() == 4 && "version"@.len() == 7);
}

} // verus!
