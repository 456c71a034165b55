use memoria::auth::{
    audit_entry, audit_log, audit_table, auth_setup, authenticate, badge_at, check_ns_access,
    cleanup_stale_tables, ct_eq, init_auth_tables, is_secret_name, is_stale, new_badge, register_agent,
    sanitize_params, stale_drops, AgentBadge, AuthResult, BadgeRow,
};
use memoria::dates::{Date, LAST_YEAR};
use memoria::permissions::{
    matrix_lookup, permission_matrix, require_admin, MinRole, NsPolicy,
};
use memoria::quota::Moment;
use memoria::tools::tools_list;
use std::collections::HashSet;

#[test]
fn matrix_covers_all_registered_tools() {
    for t in tools_list() {
        assert!(
            matrix_lookup(t.name).is_some(),
            "tool '{}' is missing from the permission matrix",
            t.name
        );
    }
}

#[test]
fn no_orphan_matrix_entries() {
    let names: HashSet<String> = tools_list().iter().map(|t| t.name.to_string()).collect();
    for e in permission_matrix() {
        assert!(
            names.contains(e.tool),
            "matrix entry '{}' is not in tools_list (orphan?)",
            e.tool
        );
    }
}

#[test]
fn require_admin_role_and_key() {
    let admin = AuthResult {
        agent_id: "admin".into(),
        allowed_ns: vec!["*".into()],
        role: "admin".into(),
    };
    let user = AuthResult {
        agent_id: "u".into(),
        allowed_ns: vec!["agent/u".into()],
        role: "user".into(),
    };

    assert!(
        require_admin(&admin, "", "cfgkey"),
        "admin role must pass without key"
    );
    assert!(
        !require_admin(&user, "", "cfgkey"),
        "plain user without key must be rejected"
    );
    assert!(
        require_admin(&user, "cfgkey", "cfgkey"),
        "correct body key must still work (deprecated path)"
    );
    assert!(
        !require_admin(&user, "wrong", "cfgkey"),
        "wrong key must be rejected"
    );
    assert!(
        !require_admin(&user, "", ""),
        "empty configured key must not authorize anyone"
    );
    assert!(
        !require_admin(&user, "x", ""),
        "empty configured key + provided must not authorize"
    );
}

#[test]
fn default_agent_cannot_access_admin_ns() {
    let user = AuthResult {
        agent_id: "default".into(),
        allowed_ns: vec!["default".into()],
        role: "read_write".into(),
    };
    assert!(!check_ns_access(&user, "admin"));
    assert!(check_ns_access(&user, "default"));
}

#[test]
fn admin_role_bypasses_ns() {
    let admin = AuthResult {
        agent_id: "admin".into(),
        allowed_ns: vec!["*".into()],
        role: "admin".into(),
    };
    assert!(check_ns_access(&admin, "anything/at/all"));
}

#[test]
fn access_extends_to_what_lies_below() {
    let user = AuthResult {
        agent_id: "u".into(),
        allowed_ns: vec!["agent/u".into()],
        role: "read_write".into(),
    };
    assert!(check_ns_access(&user, "agent/u/notes"));
    assert!(!check_ns_access(&user, "agent/us"));
    let nobody = AuthResult {
        agent_id: "n".into(),
        allowed_ns: vec![],
        role: "read_write".into(),
    };
    assert!(!check_ns_access(&nobody, "agent/u"));
}

#[test]
fn unknown_tools_have_no_entry() {
    assert!(matrix_lookup("no_such_tool").is_none());
    let e = matrix_lookup("memory_search").unwrap();
    assert_eq!(e.min_role, MinRole::Agent);
    assert_eq!(e.ns_policy, NsPolicy::NamespaceArg);
}

#[test]
fn texts_are_compared_in_full() {
    assert!(ct_eq("abc", "abc"));
    assert!(!ct_eq("abc", "abd"));
    assert!(!ct_eq("abc", "ab"));
    assert!(ct_eq("", ""));
}

#[test]
fn badges_are_known_by_their_token() {
    let row = BadgeRow {
        badge_token: "SECRET-REDACTED".to_string(),
        namespace: "agent/u".to_string(),
        permission: "read_write".to_string(),
    };
    let ok = authenticate("u", "SECRET-REDACTED", Some(&row)).unwrap();
    assert_eq!(ok.agent_id, "u");
    assert_eq!(ok.allowed_ns, vec!["agent/u".to_string()]);
    assert!(authenticate("u", "other", Some(&row)).is_err());
    assert!(authenticate("u", "SECRET-REDACTED", None).is_err());
}

#[test]
fn new_agents_get_a_badge() {
    let b = new_badge(
        "u",
        "User",
        &vec!["agent/u".to_string()],
        "read_write",
        1_700_000_000_000_000_000,
        42,
        "2027-01-01",
    );
    let again = new_badge(
        "u",
        "User",
        &vec!["agent/u".to_string()],
        "read_write",
        1_700_000_000_000_000_000,
        43,
        "2027-01-01",
    );
    assert_eq!(b.agent_id, "u");
    assert_eq!(b.expires_at, "2027-01-01");
    assert!(!b.badge_token.is_empty());
    assert_ne!(b.badge_token, again.badge_token);
    let now = register_agent("u", "User", &vec![], "read_write").unwrap();
    assert_eq!(now.namespace, "agent/u");
    assert_eq!(now.badge_token.len(), 64);
    assert_eq!(now.expires_at.len(), 19);
    let later = register_agent("u", "User", &vec![], "read_write").unwrap();
    assert_ne!(now.badge_token, later.badge_token);
}

#[test]
fn badges_last_for_a_year() {
    let at = |year: i32| Moment {
        date: day(year, 3, 1),
        hour: 9,
        minute: 8,
        second: 7,
    };
    let give = |year: i32| badge_at("u", "User", &vec![], "read_write", at(year), 5, 6);
    let b = give(2026).unwrap();
    assert_eq!(b.expires_at, "2027-03-01T09:08:07");
    assert_eq!(b.badge_token, new_badge("u", "User", &vec![], "read_write", 5, 6, "").badge_token);
    assert_eq!(give(2027).unwrap().expires_at, "2028-02-29T09:08:07");
    assert_eq!(give(9999).unwrap().expires_at, "+10000-02-29T09:08:07");
    assert!(give(LAST_YEAR - 1).is_some());
    assert!(give(LAST_YEAR).is_none());
}

#[test]
fn sensitive_values_are_masked() {
    let clean = sanitize_params("{\"password\":\"hunter2hunter2\",\"query\":\"x\"}");
    assert!(!clean.contains("hunter2hunter2"));
    assert!(clean.contains("\"query\":\"x\""));
    assert_eq!(sanitize_params(&clean), clean);
    let plain = sanitize_params("password=hunter2hunter2, q=1");
    assert!(!plain.contains("hunter2hunter2"));
    assert!(plain.contains("q=1"));
}

#[test]
fn masks_keep_four_characters() {
    assert_eq!(
        sanitize_params("{\"Admin_Token\":\"abcdef\",\"n\":[{\"secret\":\"abcd\"},7]}"),
        "{\"Admin_Token\":\"abcd****\",\"n\":[{\"secret\":\"****\"},7]}"
    );
    assert_eq!(sanitize_params("{\"passwd\":12345}"), "{\"passwd\":\"1234****\"}");
    assert_eq!(sanitize_params("passwd=hunter2, q=1"), "passwd=hunt****, q=1");
    assert_eq!(sanitize_params("PASSWD: x) and secret=abc"), "PASSWD: ****) and secret=****");
    assert_eq!(sanitize_params("password:  hunter2 token="), "password:  hunt**** token=");
    assert_eq!(sanitize_params("nothing to hide"), "nothing to hide");
    assert_eq!(sanitize_params("{\"token\":\"密钥一二三四\"}"), "{\"token\":\"密钥一二****\"}");
}

#[test]
fn secrets_are_masked_at_every_depth() {
    assert_eq!(
        sanitize_params("{\"auth\":{\"password\":\"secret123\"}}"),
        "{\"auth\":{\"password\":\"secr****\"}}"
    );
    assert_eq!(
        sanitize_params("{\"auth\":{\"user\":\"somebody\",\"on\":true,\"list\":[\"abcdef\",-123456,null]},\"q\":\"abcdef\"}"),
        "{\"auth\":{\"list\":[\"abcd****\",\"-123****\",null],\"on\":true,\"user\":\"some****\"},\"q\":\"abcdef\"}"
    );
    let once = sanitize_params("{\"token\":[{\"a\":[\"abcdefgh\"]}]}");
    assert_eq!(once, "{\"token\":[{\"a\":[\"abcd****\"]}]}");
    assert_eq!(sanitize_params(&once), once);
}

fn day(year: i32, month: u32, day: u32) -> Date {
    Date { year, month, day }
}

#[test]
fn audit_tables_go_by_the_week() {
    assert_eq!(audit_table(day(2026, 7, 1)), "audit_log_2026W27");
    assert_eq!(audit_table(day(2027, 1, 1)), "audit_log_2026W53");
    assert_eq!(audit_table(day(2024, 12, 30)), "audit_log_2025W01");
    let setup = auth_setup(day(2026, 7, 1));
    assert!(setup.week_table.contains("audit_log_2026W27"));
    assert!(setup.week_index.contains("idx_audit_log_2026W27_time"));
    assert!(init_auth_tables().week_table.contains("audit_log_2"));
}

#[test]
fn calls_are_logged_without_secrets() {
    let e = audit_entry(
        "u",
        "memory_search",
        "{\"token\":\"abcdefghijkl\"}",
        true,
        day(2026, 7, 1),
    );
    assert!(e.insert_sql.starts_with("INSERT INTO audit_log_2026W27 "));
    assert!(!e.params.contains("abcdefghijkl"));
    assert_eq!(e.allowed, 1);
    assert_eq!(audit_log("u", "t", "{}", false).allowed, 0);
}

#[test]
fn old_audit_tables_are_dropped() {
    assert!(is_stale("audit_log_2026W12", "2026W13"));
    assert!(!is_stale("audit_log_2026W13", "2026W13"));
    assert!(!is_stale("audit_log_2026W14", "2026W13"));
    let tables = |weeks: &[&str]| {
        weeks.iter().map(|w| format!("audit_log_{}", w)).collect::<Vec<String>>()
    };
    assert_eq!(
        stale_drops(&tables(&["2025W40", "2026W13", "2026W14", "2026W27"]), day(2026, 7, 1)),
        vec![
            "DROP TABLE IF EXISTS audit_log_2025W40".to_string(),
            "DROP TABLE IF EXISTS audit_log_2026W13".to_string(),
        ]
    );
    assert_eq!(
        stale_drops(&tables(&["2026W15", "2026W16", "2026W17"]), day(2026, 7, 16)),
        vec!["DROP TABLE IF EXISTS audit_log_2026W15".to_string()]
    );
    assert_eq!(cleanup_stale_tables(&tables(&["1999W01", "9999W01"])).len(), 1);
}

#[test]
fn badges_make_agents_known() {
    let at = Moment { date: day(2026, 7, 16), hour: 1, minute: 2, second: 3 };
    let row = |b: &AgentBadge| BadgeRow {
        badge_token: b.badge_token.clone(),
        namespace: b.namespace.clone(),
        permission: b.permission.clone(),
    };
    let spaces = vec!["a/b".to_string(), "c".to_string()];
    let b = badge_at("u", "User", &spaces, "read_write", at, 1, 2).unwrap();
    let known = authenticate("u", &b.badge_token, Some(&row(&b))).unwrap();
    assert_eq!((known.agent_id.as_str(), known.role.as_str()), ("u", "read_write"));
    assert_eq!(known.allowed_ns, spaces);
    assert_eq!(authenticate("u", "x", Some(&row(&b))).err().unwrap(), "invalid badge token");
    let own = badge_at("u", "User", &vec![], "read_write", at, 1, 2).unwrap();
    let known = authenticate("u", &own.badge_token, Some(&row(&own))).unwrap();
    assert_eq!(known.allowed_ns, vec!["agent/u".to_string()]);
}

#[test]
fn secrets_are_known_by_their_names() {
    assert!(is_secret_name("db_password"));
    assert!(is_secret_name("admin_key"));
    assert!(!is_secret_name("content"));
}
