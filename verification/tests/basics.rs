use memoria::auth::stored_skills;
use memoria::backup::BackupResult;
use memoria::clock::{fmt_moment, fresh_id, given_id, local_now, message_id, utc_now};
use memoria::dates::{
    add_days, first_of_month, fmt_date, next_month, pad, prev_month, start_of_week, week_label, LAST_YEAR,
    Date,
};
use memoria::document::IngestOutcome;
use memoria::json::{
    empty_object, parse_json, render_json, string, string_array, unsigned, with, Json, Number,
};
use memoria::paths::{file_name, has_extension, parent, stem, with_extension};
use memoria::quota::Moment;
use memoria::replies::{
    audit_query_sql, backup_reply, bare_error, bridge_request, cleaned_reply, columns_of,
    database_reply, decayed_reply, dream_moved_reply, dream_reply, embedding_check, entity_reply,
    export_reply, forward_to_bridge, graph_reply, import_reply, ingest_reply, installed_note,
    installed_reply, list_reply, login_reply, merged_reply, moved_reply, observed_reply,
    plain_ok_reply, pool_error, pref_shown, published_note, published_reply, quota_status,
    ledger_reply, registered_user_reply, revoked_reply, search_reply, sent_reply, skill_missing_reply,
    BridgeAnswer, DreamRow, Listing, Usage,
};
use memoria::text;

fn date(year: i32, month: u32, day: u32) -> Date {
    Date { year, month, day }
}

#[test]
fn dates_follow_the_calendar() {
    assert_eq!(add_days(date(2024, 2, 28), 2), date(2024, 3, 1));
    assert_eq!(add_days(date(2023, 2, 28), 1), date(2023, 3, 1));
    assert_eq!(add_days(date(2026, 1, 1), -1), date(2025, 12, 31));
    assert_eq!(add_days(date(2026, 7, 16), -90), date(2026, 4, 17));
    assert_eq!(start_of_week(date(2026, 7, 16)), date(2026, 7, 13));
    assert_eq!(start_of_week(date(2026, 7, 13)), date(2026, 7, 13));
    assert_eq!(first_of_month(date(2026, 7, 16)), date(2026, 7, 1));
    assert_eq!(prev_month(date(2026, 1, 16)), date(2025, 12, 1));
    assert_eq!(next_month(date(2026, 12, 16)), date(2027, 1, 1));
    assert_eq!(fmt_date(date(26, 7, 1)), "0026-07-01");
    assert_eq!(week_label(date(2026, 7, 1)), "2026W27");
    assert_eq!(week_label(date(2021, 1, 3)), "2020W53");
    assert_eq!(fmt_date(date(9999, 12, 31)), "9999-12-31");
    assert_eq!(fmt_date(date(10000, 1, 2)), "+10000-01-02");
    assert_eq!(week_label(date(10000, 7, 5)), "+10000W27");
    assert_eq!(add_days(date(9999, 12, 31), 1), date(10000, 1, 1));
    assert_eq!(add_days(date(LAST_YEAR, 12, 31), -365), date(LAST_YEAR - 1, 12, 31));
    assert_eq!(week_label(date(LAST_YEAR, 12, 31)), "+262143W01");
    assert_eq!(pad(7, 3), "007");
    assert_eq!(pad(1234, 3), "1234");
}

#[test]
fn texts_are_cut_and_joined() {
    assert_eq!(text::trim(" \u{3000}a b\n"), "a b");
    assert_eq!(text::split("a,b,,c", ','), vec!["a", "b", "", "c"]);
    assert_eq!(text::lines("a\r\nb\n"), vec!["a", "b"]);
    assert_eq!(text::join(&vec!["a".to_string(), "b".to_string()], "-"), "a-b");
    assert_eq!(text::truncate("字字字", 7), "字字…");
    assert_eq!(text::truncate("abc", 3), "abc");
    assert_eq!(text::take_bytes("字字字", 7), "字字");
    assert_eq!(text::take_chars("abc", 2), "ab");
    assert_eq!(text::parse_u64("+42"), Some(42));
    assert_eq!(text::parse_u64("18446744073709551615"), Some(u64::MAX));
    assert_eq!(text::parse_u64("18446744073709551616"), None);
    assert_eq!(text::parse_u64("4 2"), None);
    assert_eq!(text::decimal(0), "0");
    assert_eq!(text::decimal_signed(i64::MIN), "-9223372036854775808");
    assert_eq!(text::to_ascii_lower("AbÉ"), "abÉ");
    assert_eq!(text::split_commas(" a , ,b"), vec!["a", "b"]);
    assert!(text::contains("hello", "ell"));
    assert!(text::starts_with("hello", "he") && text::ends_with("hello", "lo"));
    assert_eq!(text::strip_prefix("hello", "he").as_deref(), Some("llo"));
    assert!(text::text_le("a", "ab") && !text::text_le("b", "ab"));
}

#[test]
fn paths_have_parts() {
    assert_eq!(file_name("/a/b.db").as_deref(), Some("b.db"));
    assert_eq!(parent("/a/b.db").as_deref(), Some("/a"));
    assert_eq!(parent("b.db").as_deref(), Some(""));
    assert_eq!(stem("b.tar.gz"), "b.tar");
    assert!(has_extension("b.db", "db"));
    assert!(!has_extension(".db", "db"));
    assert_eq!(with_extension("/a/b.db", "pid"), "/a/b.pid");
}

#[test]
fn json_is_read_and_written() {
    let j = parse_json(r#"{"b":[1,-2,1.5,"x"],"a":null,"c":true}"#).unwrap();
    assert_eq!(render_json(&j), r#"{"a":null,"b":[1,-2,1.5,"x"],"c":true}"#);
    assert_eq!(j.bool_or("c", false), true);
    assert_eq!(j.u64_or("z", 9), 9);
    let b = j.get("b").unwrap().as_array().unwrap();
    assert_eq!(b[0].as_u64(), Some(1));
    assert_eq!(b[1].as_i64(), Some(-2));
    assert_eq!(b[1].as_u64(), None);
    assert_eq!(b[2], Json::Number(Number::Real("1.5".to_string())));
    assert_eq!(b[3].as_str(), Some("x"));
    assert!(parse_json("{").is_none());
    assert!(parse_json("1 2").is_none());
    let o = with(empty_object(), "k", string("v\"w"));
    assert_eq!(render_json(&with(o, "n", unsigned(7))), r#"{"k":"v\"w","n":7}"#);
    assert_eq!(render_json(&string_array(&vec!["a".to_string()])), r#"["a"]"#);
    assert_eq!(j.copy(), j);
}

#[test]
fn replies_say_what_was_done() {
    assert!(plain_ok_reply().contains("ok"));
    for s in [
        observed_reply("id1"),
        entity_reply("id1"),
        sent_reply("id1"),
        revoked_reply("id1", 1),
        skill_missing_reply("id1"),
        published_reply("id1", "public"),
        published_note("id1", "public"),
        installed_reply("id1", "t"),
        installed_note("id1", "t"),
        merged_reply("id1", "m2"),
        dream_moved_reply("rem", "ns", "id1"),
        pool_error("id1"),
        bare_error("id1"),
        registered_user_reply("id1", "ns"),
        login_reply("id1", "n", "ns", "t"),
        export_reply("id1", "{}"),
        cleaned_reply(&vec!["id1".to_string()]),
    ] {
        assert!(s.contains("id1"), "{}", s);
    }
    assert!(decayed_reply(41, 42).contains("41") && decayed_reply(41, 42).contains("42"));
    assert!(graph_reply(41, 42).contains("42"));
    assert!(moved_reply(1, 2, 43).contains("43"));
    assert!(import_reply("ns", 41, 42, &vec![]).contains("41"));
    assert!(database_reply(&vec![1; 8], 41, 42, 43).contains("43"));
}

#[test]
fn searches_are_answered() {
    assert!(parse_json(&search_reply(&vec![], 5)).is_some());
}

#[test]
fn rows_of_the_ledger_are_cut() {
    let long = format!(r#"{{"content":"{}","kind":"fact"}}"#, "x".repeat(3000));
    let rows: Vec<Json> = [long.as_str(), r#"{"kind":"note"}"#, r#"{"content":"third"}"#]
        .iter()
        .filter_map(|s| parse_json(s))
        .collect();
    let reply = parse_json(&ledger_reply(&rows, 9, 2)).unwrap();
    assert_eq!(reply.str_at("status"), Some("ok"));
    assert_eq!(reply.u64_or("total_results", 0), 9);
    let shown = reply.get("results").unwrap().as_array().unwrap();
    assert_eq!(shown.len(), 2);
    assert!(shown[0].str_at("content").unwrap().len() < 2100);
    assert_eq!(shown[0].str_at("kind"), Some("fact"));
    assert_eq!(shown[1].str_at("content"), Some(""));
}

#[test]
fn skills_are_read_from_the_registry() {
    assert_eq!(stored_skills(r#"["a","b"]"#), vec!["a", "b"]);
    assert!(stored_skills("[]").is_empty());
    assert!(stored_skills("no list").is_empty());
}

#[test]
fn ingested_documents_are_reported() {
    let o = IngestOutcome {
        doc_id: "d1".to_string(),
        namespace: "ns".to_string(),
        filename: "f".to_string(),
        kind: "pdf".to_string(),
        raw_ref: "r".to_string(),
        chars: 10,
        chunk_count: 1,
        manifest_id: "m1".to_string(),
        chunk_ids: vec!["c1".to_string()],
    };
    let j = parse_json(&ingest_reply(&o)).unwrap();
    assert_eq!(j.str_at("doc_id"), Some("d1"));
}

#[test]
fn quotas_are_reported() {
    let now = Moment { date: date(2026, 7, 1), hour: 1, minute: 2, second: 3 };
    let u = |n: i64| Usage { configured: None, used: n };
    let s = quota_status("ns", now, &u(41), &u(42), &u(3), &u(4));
    assert!(s.contains("41") && s.contains("42") && s.contains("10000"));
    assert!(parse_json(&s).is_some());
}

#[test]
fn lists_are_shown_by_column() {
    let columns = columns_of(Listing::Agents);
    assert!(!columns.is_empty());
    let row: Vec<Json> = columns.iter().map(|_| string("x")).collect();
    let s = list_reply(Listing::Agents, &vec![row]);
    assert!(parse_json(&s).is_some());
    assert!(s.contains(&format!("\"{}\":\"x\"", columns[0])));
    assert!(audit_query_sql(&vec![], true).is_none());
    let sql = audit_query_sql(&vec!["audit_log_2026W27".to_string()], true).unwrap();
    assert!(sql.contains("audit_log_2026W27"));
    assert!(pref_shown("a", None));
    assert!(!pref_shown("a", Some("b")));
}

#[test]
fn dreams_are_shown() {
    let row = DreamRow {
        last_run: Some("2026-07-01".to_string()),
        cursor_ts: None,
        runs: 3,
        items_out: 4,
    };
    assert!(dream_reply("rem", "ns", Some(&row)).contains("2026-07-01"));
    assert!(parse_json(&dream_reply("rem", "ns", None)).is_some());
}

#[test]
fn backups_are_reported() {
    let b = BackupResult {
        backup_path: "/b/x.db".to_string(),
        db_size_bytes: 9,
        integrity_ok: true,
        rotation_deleted: 2,
        tier: "daily".to_string(),
    };
    assert!(backup_reply(&b).contains("/b/x.db"));
}

#[test]
fn the_bridge_is_asked_and_heard() {
    let r = bridge_request("t", &empty_object());
    assert!(render_json(&r).contains("\"t\""));
    assert!(forward_to_bridge("http://b", &BridgeAnswer::Unreachable("x".to_string())).contains("x"));
    assert!(forward_to_bridge("http://b", &BridgeAnswer::Garbled("y".to_string())).contains("y"));
    assert!(embedding_check(&vec![]).is_none());
}

#[test]
fn the_clock_shows_a_moment() {
    let m = utc_now();
    assert!(m.date.year >= 2024 && m.hour < 24);
    assert!(local_now().date.year >= 2024);
    let m = Moment { date: date(2026, 7, 1), hour: 1, minute: 2, second: 3 };
    assert_eq!(fmt_moment(m), "2026-07-01T01:02:03");
}

#[test]
fn ids_are_fresh() {
    assert_eq!(fresh_id().len(), 36);
    assert_ne!(fresh_id(), fresh_id());
    assert_eq!(given_id(Some("e1".to_string())), "e1");
    assert_eq!(given_id(None).len(), 36);
    assert!(message_id().starts_with("a2a_"));
}
