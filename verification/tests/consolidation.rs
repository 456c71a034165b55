use memoria::consolidation::{
    action_stats, answer_text, auto_entity_id, classify, decide, ground, logged_reason, object_in, opening,
    parse_decision, record_decision, request_body, stats_since, Candidate, Opening, Step,
};
use memoria::json::{parse_json, Json};

fn candidates() -> Vec<Candidate> {
    vec![Candidate {
        id: "abc123".to_string(),
        content: "旧事实".to_string(),
    }]
}

#[test]
fn parse_clean_json() {
    let d = parse_decision(r#"{"action":"UPDATE","target_id":"abc123","reason":"事实已变更","entities":[{"name":"memoria","etype":"system"}],"edges":[]}"#).unwrap();
    assert_eq!(d.action, "UPDATE");
    assert_eq!(d.target_id.as_deref(), Some("abc123"));
    assert_eq!(d.entities.len(), 1);
    assert_eq!(d.entities[0].etype, "system");
}

#[test]
fn parse_fenced_with_noise() {
    let d = parse_decision("好的，判定如下：\n```json\n{\"action\":\"NOOP\",\"target_id\":\"deadbeef\",\"reason\":\"重复\"}\n```").unwrap();
    assert_eq!(d.action, "NOOP");
    assert_eq!(d.entities.len(), 0);
}

#[test]
fn update_without_target_rejected() {
    assert!(parse_decision(r#"{"action":"UPDATE","target_id":null}"#).is_none());
}

#[test]
fn garbage_is_none() {
    assert!(parse_decision("模型抽风了").is_none());
    assert!(parse_decision(r#"{"action":"DESTROY"}"#).is_none());
}

#[test]
fn entity_etype_whitelisted_and_edges_sanitized() {
    let d = parse_decision(r#"{"action":"ADD","entities":[{"name":"张三","etype":" alien"},{"name":"","etype":"person"}],"edges":[{"subject":"张三","predicate":"Uses","obj":"张三"},{"subject":"张三","predicate":"uses","obj":"memoria"}]}"#).unwrap();
    assert_eq!(d.entities.len(), 1);
    assert_eq!(d.entities[0].etype, "other");
    assert_eq!(d.edges.len(), 1);
    assert_eq!(d.edges[0].predicate, "uses");
}

#[test]
fn the_object_is_found_in_the_noise() {
    assert_eq!(object_in("x {\"a\":1} y").as_deref(), Some("{\"a\":1}"));
    assert!(object_in("} none {").is_none());
    assert!(object_in("").is_none());
}

#[test]
fn targets_that_are_no_candidates_make_an_addition() {
    let known = parse_decision(r#"{"action":"UPDATE","target_id":"abc123"}"#).unwrap();
    let d = ground(known, &candidates());
    assert_eq!(d.action, "UPDATE");
    assert_eq!(d.target_id.as_deref(), Some("abc123"));
    let unknown = parse_decision(r#"{"action":"UPDATE","target_id":"zzz"}"#).unwrap();
    let d = ground(unknown, &candidates());
    assert_eq!(d.action, "ADD");
    assert!(d.target_id.is_none());
}

#[test]
fn failed_attempts_are_tried_once_more() {
    let good = r#"{"action":"NOOP","target_id":"abc123"}"#;
    match classify(1, Some(good), &candidates()) {
        Step::Done(d) => assert_eq!(d.action, "NOOP"),
        other => panic!("unexpected: {:?}", other),
    }
    let outcomes: Vec<Step> = (0..3).map(|n| classify(n, None, &candidates())).collect();
    assert!(outcomes.iter().any(|s| matches!(s, Step::Retry)));
    assert!(outcomes.iter().any(|s| matches!(s, Step::FailOpen)));
    assert!(!outcomes.iter().any(|s| matches!(s, Step::Done(_))));
}

#[test]
fn without_candidates_nothing_is_asked() {
    match opening("http://x", &vec![]) {
        Opening::Settled(d) => assert_eq!(d.action, "ADD"),
        other => panic!("unexpected: {:?}", other),
    }
    assert!(matches!(opening("", &candidates()), Opening::Off));
    assert!(matches!(opening("http://x", &candidates()), Opening::Ask));
}

#[test]
fn requests_carry_the_model_and_the_memories() {
    let body = request_body("qwen", "新事实", &candidates());
    assert_eq!(body.get("model").and_then(|m| m.as_str()), Some("qwen"));
    let messages = body.get("messages").and_then(|m| m.as_array()).unwrap();
    assert_eq!(messages.len(), 2);
    let user = messages[1].str_at("content").unwrap();
    assert!(user.contains("新事实") && user.contains("abc123") && user.contains("旧事实"));
}

#[test]
fn answers_are_read_from_the_first_choice() {
    let v = parse_json(r#"{"choices":[{"message":{"content":"hi"}}]}"#).unwrap();
    assert_eq!(answer_text(&v), Some("hi"));
    assert_eq!(answer_text(&Json::Null), None);
}

#[test]
fn names_have_the_same_id_in_a_namespace() {
    let a = auto_entity_id("agent/x", "张三");
    assert_eq!(a, auto_entity_id("agent/x", "张三"));
    assert_ne!(a, auto_entity_id("agent/y", "张三"));
    assert!(a.starts_with("auto-"));
    assert_eq!(a.len(), 5 + 16);
}

#[test]
fn reasons_are_cut_for_the_log() {
    let long: String = "字".repeat(300);
    assert_eq!(logged_reason(&long).chars().count(), 200);
    let row = record_decision("ns", "ADD", None, &long, 5, 6);
    assert_eq!(row.reason.chars().count(), 200);
    assert_eq!((row.content_len, row.duration_ms), (5, 6));
}

#[test]
fn statistics_look_back_within_limits() {
    assert_eq!(stats_since(0), "-1 hours");
    assert_eq!(stats_since(24), "-24 hours");
    assert_eq!(stats_since(9999), "-720 hours");
    let (sql, params) = action_stats(Some("ns"), 24);
    assert!(sql.contains("namespace = ?1"));
    assert_eq!(params, vec!["ns".to_string(), "-24 hours".to_string()]);
    let (sql, params) = action_stats(None, 24);
    assert!(!sql.contains("namespace"));
    assert_eq!(params, vec!["-24 hours".to_string()]);
}

#[test]
fn actions_are_decided_in_upper_case() {
    let v = parse_json(r#"{"target_id":"abc123","reason":"r"}"#).unwrap();
    let d = decide("UPDATE".to_string(), &v).unwrap();
    assert_eq!(d.action, "UPDATE");
    assert_eq!(d.target_id.as_deref(), Some("abc123"));
    assert_eq!(d.reason, "r");
    assert!(decide("update".to_string(), &v).is_none());
    let none = parse_json("{}").unwrap();
    assert!(decide("NOOP".to_string(), &none).is_none());
    assert!(decide("ADD".to_string(), &none).is_some());
}
