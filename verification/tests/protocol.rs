use memoria::auth::AuthResult;
use memoria::dates::Date;
use memoria::dispatch::{
    call_namespace, dispatch, main_namespace, Action, Next, ADMIN_KEY_REQUIRED, ADMIN_REQUIRED,
};
use memoria::health::{CheckResult, HealthReport};
use memoria::json::{parse_json, render_json, Json, Number};
use memoria::mcp_server::{
    advance_cursor, chain_refusal, dream_cooldown, dream_cooldown_variable, error_reply,
    handle_tool_call, health_access, ingest_error, initialize_result, is_bridge_tool,
    matches_memory_tags, own_namespaces, public_status, quota_error_json, remember_error,
    remember_reply, reply_allowed, route, rpc_error, rpc_ok, rpc_ok_text, Gate, Route,
};
use memoria::quota::{
    check_quota, check_quota_with, current_usage, init_quota_table, quota_limit, quota_variable,
    quota_window, quota_window_at, retry_after_at, retry_after_sec, Moment, QuotaStep, KIND_BACKUP, KIND_PROFILE, KIND_SEARCH,
    KIND_WRITE,
};
use memoria::server::{
    audit_event, call_arguments, embed_query, embed_request, health_check, health_check_full,
    request_id, tools_reply, with_tags,
};

fn agent() -> AuthResult {
    AuthResult {
        agent_id: "agent/x".to_string(),
        allowed_ns: vec!["agent/x".to_string()],
        role: "read_write".to_string(),
    }
}

fn admin() -> AuthResult {
    AuthResult {
        agent_id: "admin".to_string(),
        allowed_ns: vec!["*".to_string()],
        role: "admin".to_string(),
    }
}

fn args(s: &str) -> Json {
    parse_json(s).unwrap()
}

fn now() -> Moment {
    Moment {
        date: Date { year: 2026, month: 7, day: 1 },
        hour: 10,
        minute: 30,
        second: 40,
    }
}

#[test]
fn test_health_full_no_auth_is_forbidden() {
    assert!(
        !health_access(None, "", "test-admin-key"),
        "anonymous /health/full must return 403"
    );
}

#[test]
fn test_health_full_legacy_admin_key_ok() {
    assert!(
        health_access(None, "test-admin-key", "test-admin-key"),
        "valid admin key must allow /health/full"
    );
}

#[test]
fn test_profile_bucket_limits_agent_then_exempts_admin() {
    let ns = args(r#"{ "namespace": "agent/x" }"#);
    let mut used: i64 = 0;
    let mut allowed = 0;
    let mut denied = 0;
    for _ in 0..11 {
        let plan = dispatch("memory_profile", &ns, &agent(), "");
        assert!(matches!(plan.next, Next::Run(Action::Profile { .. })));
        let kind = plan.charge.unwrap();
        match check_quota(kind, None, used, now()) {
            Ok(_) => {
                used += 1;
                allowed += 1;
            }
            Err(e) => {
                let text = quota_error_json(&e.kind, e.limit, e.retry_after_sec);
                assert!(text.contains("quota_exceeded"));
                denied += 1;
            }
        }
    }
    assert_eq!(allowed, 10, "agent 前 10 次 profile 应放行");
    assert_eq!(denied, 1, "第 11 次 profile 应被 profile_bucket 限流");

    for _ in 0..5 {
        let plan = dispatch("memory_profile", &ns, &admin(), "");
        assert!(
            plan.charge.is_none(),
            "admin 应豁免 profile_bucket，但得到: {:?}",
            plan
        );
        assert!(matches!(plan.next, Next::Run(Action::Profile { .. })));
    }
}

#[test]
fn quotas_have_their_windows() {
    assert_eq!(quota_variable(KIND_WRITE).as_deref(), Some("MEMORIA_QUOTA_WRITES_PER_DAY"));
    assert_eq!(quota_limit(KIND_WRITE, None), 10000);
    assert_eq!(quota_limit(KIND_SEARCH, None), 600);
    assert_eq!(quota_limit(KIND_PROFILE, None), 10);
    assert_eq!(quota_limit(KIND_BACKUP, None), 12);
    assert_eq!(quota_limit(KIND_WRITE, Some("5")), 5);
    assert_eq!(quota_window_at(KIND_WRITE, now()), "2026-07-01");
    assert!(quota_window_at(KIND_PROFILE, now()).contains("10:30"));
    assert!(init_quota_table().contains("quota_counters"));
    assert_eq!(quota_window(KIND_WRITE).len(), 10);
    assert!(retry_after_sec(KIND_PROFILE) < 60);
    assert_eq!(current_usage(None), 0);
    assert_eq!(current_usage(Some(4)), 4);
}

#[test]
fn the_wait_ends_with_the_window() {
    assert_eq!(retry_after_at(KIND_PROFILE, now()), 20);
    assert!(retry_after_at(KIND_WRITE, now()) <= 86400);
}

#[test]
fn the_limit_is_exact() {
    assert_eq!(check_quota_with(KIND_WRITE, 2, 0, now()), Ok(QuotaStep::Insert));
    assert_eq!(check_quota_with(KIND_WRITE, 2, 1, now()), Ok(QuotaStep::Increment));
    let e = check_quota_with(KIND_WRITE, 2, 2, now()).unwrap_err();
    assert_eq!((e.kind.as_str(), e.limit), ("write", 2));
}

#[test]
fn namespaces_are_kept_apart() {
    let own = args(r#"{"namespace":"agent/x","query":"q"}"#);
    match handle_tool_call("memory_search", &own, Some(&agent()), true) {
        Gate::Dispatch { embed } => assert_eq!(embed.as_deref(), Some("q")),
        other => panic!("unexpected: {:?}", other),
    }
    match handle_tool_call("memory_search", &own, Some(&agent()), false) {
        Gate::Dispatch { embed } => assert!(embed.is_none()),
        other => panic!("unexpected: {:?}", other),
    }
    let foreign = args(r#"{"namespace":"agent/y","query":"q"}"#);
    match handle_tool_call("memory_search", &foreign, Some(&agent()), true) {
        Gate::Denied { code, message } => {
            assert_eq!(code, -32002);
            assert_eq!(message, "Namespace 'agent/y' not authorized.");
        }
        other => panic!("unexpected: {:?}", other),
    }
    match handle_tool_call("memory_search", &args("{}"), Some(&agent()), true) {
        Gate::Denied { code, message } => {
            assert_eq!(code, -32002);
            assert_eq!(message, "Namespace argument required for this tool.");
        }
        other => panic!("unexpected: {:?}", other),
    }
    match handle_tool_call("memory_search", &own, None, true) {
        Gate::Denied { code, .. } => assert_eq!(code, -32001),
        other => panic!("unexpected: {:?}", other),
    }
    assert!(matches!(
        handle_tool_call("get_allowed_ns", &args("{}"), Some(&agent()), true),
        Gate::OwnNamespaces
    ));
}

#[test]
fn admin_tools_stay_closed() {
    let plan = dispatch("agent_list", &args("{}"), &agent(), "key");
    match plan.next {
        Next::Reply(s) => assert!(s == ADMIN_REQUIRED || s == ADMIN_KEY_REQUIRED),
        other => panic!("unexpected: {:?}", other),
    }
    for tool in ["agent_revoke", "memory_health", "memory_merge", "db_stats"] {
        let plan = dispatch(tool, &args("{}"), &agent(), "key");
        assert_eq!(plan.charge, None);
        match plan.next {
            Next::Reply(s) => assert!(s.starts_with(r#"{"status":"error""#), "{}", s),
            other => panic!("unexpected: {:?}", other),
        }
    }
    let plan = dispatch("agent_list", &args("{}"), &admin(), "key");
    assert!(matches!(plan.next, Next::Run(Action::AgentList)));
    let plan = dispatch("memory_backup", &args(r#"{"admin_key":"key"}"#), &agent(), "key");
    assert!(matches!(plan.next, Next::Run(Action::Backup)));
    let plan = dispatch("memory_backup", &args(r#"{"admin_key":""}"#), &agent(), "");
    assert!(matches!(plan.next, Next::Reply(_)));
}

#[test]
fn calls_are_settled_with_their_defaults() {
    let a = args(r#"{"namespace":"agent/x","content":"事实"}"#);
    let plan = dispatch("memory_remember", &a, &agent(), "");
    assert_eq!(plan.charge, Some("write"));
    match plan.next {
        Next::Run(Action::Remember { content, category, importance, .. }) => {
            assert_eq!(content, "事实");
            assert!(!category.is_empty());
            assert!((1..=5).contains(&importance));
        }
        other => panic!("unexpected: {:?}", other),
    }
    let plan = dispatch("memory_search", &args(r#"{"namespace":"agent/x","query":"q"}"#), &agent(), "");
    assert_eq!(plan.charge, Some("search"));
    assert!(matches!(plan.next, Next::Run(Action::Search { .. })));
    let plan = dispatch("no_such_tool", &args("{}"), &agent(), "");
    assert!(matches!(plan.next, Next::Reply(_)));
    assert_eq!(call_namespace(&a), "agent/x");
    assert_eq!(main_namespace(&agent()), "agent/x");
}

#[test]
fn contexts_are_settled() {
    let a = args(r#"{"namespace":"agent/x","query":"测试回忆","include_profile":true}"#);
    match dispatch("memory_context", &a, &agent(), "").next {
        Next::Run(Action::Context { query, include_profile, .. }) => {
            assert_eq!(query.as_deref(), Some("测试回忆"));
            assert!(include_profile);
        }
        other => panic!("unexpected: {:?}", other),
    }
}

#[test]
fn requests_are_routed() {
    match route(&args(r#"{"method":"initialize","params":{"protocolVersion":"x"}}"#)) {
        Route::Initialize { protocol } => {
            assert_eq!(protocol, "x");
            assert_eq!(initialize_result(&protocol).str_at("protocolVersion"), Some("x"));
        }
        other => panic!("unexpected: {:?}", other),
    }
    match route(&args(r#"{"method":"initialize"}"#)) {
        Route::Initialize { protocol } => assert_eq!(protocol, "2024-11-05"),
        other => panic!("unexpected: {:?}", other),
    }
    assert!(matches!(route(&args(r#"{"method":"tools/list"}"#)), Route::ToolsList));
    match route(&args(r#"{"method":"tools/call","params":{"name":"t"}}"#)) {
        Route::ToolsCall { tool } => assert_eq!(tool, "t"),
        other => panic!("unexpected: {:?}", other),
    }
    match route(&args(r#"{"method":"x"}"#)) {
        Route::NotFound { message } => assert_eq!(message, "Method not found: x"),
        other => panic!("unexpected: {:?}", other),
    }
}

#[test]
fn replies_carry_their_id() {
    let id = args("7");
    assert_eq!(
        render_json(&rpc_ok(&id, args("{}"))),
        r#"{"id":7,"jsonrpc":"2.0","result":{}}"#
    );
    assert_eq!(
        render_json(&rpc_ok_text(&id, "hi")),
        r#"{"id":7,"jsonrpc":"2.0","result":{"content":[{"text":"hi","type":"text"}]}}"#
    );
    assert_eq!(
        render_json(&rpc_error(&id, -32601, "no")),
        r#"{"error":{"code":-32601,"message":"no"},"id":7,"jsonrpc":"2.0"}"#
    );
    assert_eq!(
        render_json(&own_namespaces(&agent())),
        r#"{"agent_id":"agent/x","allowed_ns":["agent/x"]}"#
    );
}

#[test]
fn errors_are_not_allowed_replies() {
    assert!(reply_allowed(r#"{"status":"ok"}"#));
    assert!(!reply_allowed(&error_reply("x")));
    assert_eq!(error_reply("x"), r#"{"status":"error","message":"x"}"#);
    assert_eq!(
        ingest_error("a \"b\""),
        r#"{"status":"error","code":422,"message":"a 'b'"}"#
    );
    assert_eq!(
        remember_error("404: not there"),
        r#"{"status":"error","code":404,"message":"not there"}"#
    );
    assert_eq!(
        remember_error("500: oops"),
        r#"{"status":"error","code":400,"message":"500: oops"}"#
    );
}

#[test]
fn memories_name_what_they_supersede() {
    assert_eq!(
        remember_reply("m1", "created", &vec![]),
        r#"{"status":"remembered","id":"m1","action":"created"}"#
    );
    let pairs = vec![("m0".to_string(), "0.97".to_string())];
    assert!(remember_reply("m1", "superseded_near_dup", &pairs).contains("m0"));
}

#[test]
fn all_tags_are_asked_for() {
    let tags = vec!["a".to_string(), "b".to_string()];
    assert!(matches_memory_tags(Some(r#"["a","b","c"]"#), &tags));
    assert!(!matches_memory_tags(Some(r#"["a","bc"]"#), &tags));
    assert!(!matches_memory_tags(None, &tags));
    assert!(matches_memory_tags(None, &vec![]));
}

#[test]
fn phases_rest() {
    assert_eq!(dream_cooldown_variable("decay"), "MEMORIA_DREAM_COOLDOWN_DECAY");
    assert_eq!(dream_cooldown("decay", None, None), 60);
    assert_eq!(dream_cooldown("rem", None, None), 300);
    assert_eq!(dream_cooldown("rem", None, Some("5")), 5);
    assert_eq!(dream_cooldown("rem", Some("7"), Some("5")), 7);
    assert_eq!(dream_cooldown("rem", Some("x"), Some("5")), 5);
}

#[test]
fn cursors_only_advance() {
    assert!(advance_cursor("2026-07-02", Some("2026-07-01"), true, "rem", "ns", 300).is_ok());
    assert!(advance_cursor("2026-07-01", Some("2026-07-01"), true, "rem", "ns", 300).is_err());
    assert!(advance_cursor("2026-07-02", Some("2026-07-01"), false, "rem", "ns", 300).is_err());
    assert!(advance_cursor("2026-07-02", None, true, "rem", "ns", 300).is_ok());
}

#[test]
fn chains_are_shown_to_those_who_may_see_them() {
    assert!(chain_refusal(&agent(), "agent/x").is_none());
    assert!(chain_refusal(&agent(), "agent/y").is_some());
}

#[test]
fn the_public_status_says_little() {
    assert_eq!(public_status("pass"), "ok");
    assert_eq!(public_status("fail"), "degraded");
}

#[test]
fn bridge_tools_are_known() {
    assert!(!is_bridge_tool("memory_search"));
}

#[test]
fn arguments_are_read_from_the_request() {
    let body = args(r#"{"id":3,"params":{"arguments":{"a":1}}}"#);
    assert_eq!(render_json(&call_arguments(&body)), r#"{"a":1}"#);
    assert_eq!(render_json(&request_id(&body)), "3");
    assert_eq!(render_json(&call_arguments(&args(r#"{"params":{"arguments":[1]}}"#))), "{}");
    assert_eq!(request_id(&args("{}")), Json::Null);
}

#[test]
fn strangers_are_audited() {
    let a = args(r#"{"namespace":"agent/y"}"#);
    let gate = handle_tool_call("memory_search", &a, Some(&agent()), false);
    let e = audit_event(&gate, "agent/x", "memory_search", &a, Some(&agent()), "");
    assert!(!e.allowed);
    assert_eq!(e.params, r#"{"namespace":"agent/y"}"#);
    let e = audit_event(&Gate::OwnNamespaces, "x", "get_allowed_ns", &a, Some(&agent()), "");
    assert!(e.allowed);
    assert_eq!(e.params, "agent_id=agent/x");
    let e = audit_event(&Gate::Forward, "x", "t", &a, Some(&agent()), r#"{"error":1}"#);
    assert!(!e.allowed);
    assert!(audit_event(&Gate::Forward, "x", "t", &a, Some(&agent()), "{}").allowed);
}

#[test]
fn embeddings_are_read_from_the_answer() {
    assert_eq!(render_json(&embed_request("hello")), r#"{"texts":["hello"]}"#);
    let answer = args(r#"{"embeddings":[[0.1,0.2,0.3]],"dim":3,"model":"x"}"#);
    let v = embed_query(true, Some(&answer)).unwrap();
    assert_eq!(v.len(), 3);
    assert_eq!(v[0], Number::Real("0.1".to_string()));
    assert_eq!(embed_query(false, Some(&answer)), None);
    assert_eq!(embed_query(true, None), None);
    assert_eq!(embed_query(true, Some(&args(r#"{"embeddings":[]}"#))), None);
    assert_eq!(embed_query(true, Some(&args(r#"{"embeddings":[["x"]]}"#))), None);
}

#[test]
fn tools_come_with_a_schema() {
    let r = tools_reply();
    let list = r.get("tools").unwrap().as_array().unwrap();
    assert!(list.len() > 40);
    for t in list {
        assert_eq!(t.get("inputSchema").unwrap().str_at("type"), Some("object"));
    }
    let first = &list[0];
    assert_eq!(first.str_at("name"), Some("memory_search"));
    let p = first.get("inputSchema").unwrap().get("properties").unwrap();
    assert_eq!(p.get("max_results").unwrap().u64_or("default", 0), 5);
}

#[test]
fn the_health_is_told_in_full_and_in_short() {
    let check = |name: &str, status: &str| CheckResult {
        name: name.to_string(),
        status: status.to_string(),
        message: "m".to_string(),
        duration_ms: 4,
    };
    assert_eq!(
        render_json(&health_check("1", "http://e", &check("embedding", "pass"))),
        r#"{"embed":{"configured":true,"duration_ms":4,"message":"m","status":"pass"},"service":"memoria","status":"ok","version":"1"}"#
    );
    let report = HealthReport {
        overall: "degraded".to_string(),
        hard_checks: vec![check("sqlite_rw", "pass")],
        soft_checks: vec![check("disk_space", "pass"), check("embedding", "fail")],
        timestamp: "t".to_string(),
        version: "1".to_string(),
    };
    let full = health_check_full("1", &report);
    assert_eq!(full.str_at("status"), Some("degraded"));
    assert_eq!(full.get("embed").unwrap().str_at("status"), Some("fail"));
    assert_eq!(
        full.get("report").unwrap().get("soft_checks").unwrap().as_array().unwrap().len(),
        2
    );
}

#[test]
fn only_memories_with_all_tags_are_found() {
    let rows = vec![
        Some(r#"["a","b"]"#.to_string()),
        None,
        Some(r#"["a"]"#.to_string()),
    ];
    let tags = vec!["a".to_string()];
    assert_eq!(with_tags(&rows, Some(&tags)), vec![0, 2]);
    assert_eq!(with_tags(&rows, None), vec![0, 1, 2]);
}

#[test]
fn callers_see_their_own_audit_trail() {
    let who = |auth: &AuthResult| match dispatch("audit_query", &args(r#"{"limit":3}"#), auth, "key").next {
        Next::Run(Action::AuditQuery { agent, limit }) => (agent, limit),
        other => panic!("unexpected: {:?}", other),
    };
    assert_eq!(who(&agent()), (Some(agent().agent_id), 3));
    assert_eq!(who(&admin()), (None, 3));
}

#[test]
fn the_admin_key_opens_the_migration_manifest() {
    let call = |auth: &AuthResult, a: &str| dispatch("memory_migration_manifest", &args(a), auth, "key").next;
    assert!(matches!(call(&admin(), "{}"), Next::Run(Action::MigrationManifest)));
    assert!(matches!(call(&agent(), r#"{"admin_key":"key"}"#), Next::Run(Action::MigrationManifest)));
    assert!(matches!(call(&agent(), r#"{"admin_key":"no"}"#), Next::Reply(_)));
}

#[test]
fn some_tools_fall_back_to_the_default_namespace() {
    let mut open = agent();
    open.allowed_ns = vec!["default".to_string()];
    for tool in ["memory_evolve", "memory_evolve_auto", "agent_registry_cleanup", "ingest_document"] {
        assert!(matches!(
            handle_tool_call(tool, &args("{}"), Some(&open), false),
            Gate::Dispatch { .. }
        ));
        match handle_tool_call(tool, &args("{}"), Some(&agent()), false) {
            Gate::Denied { code, message } => {
                assert_eq!(code, -32002);
                assert_eq!(message, "Namespace 'default' not authorized.");
            }
            other => panic!("unexpected: {:?}", other),
        }
    }
    for tool in ["evolution_rollback", "evolution_log_query"] {
        match handle_tool_call(tool, &args("{}"), Some(&open), false) {
            Gate::Denied { message, .. } => assert_eq!(message, "Namespace argument required for this tool."),
            other => panic!("unexpected: {:?}", other),
        }
    }
}
