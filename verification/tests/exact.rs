use memoria::backup::{
    archive_dir, backup_create_cli, backup_files, backup_verify_cli, check_disk_space,
    check_fresh_target, check_manifest, files_of, main_present, may_create, restore_from_backup,
    run_backup_cli, stamp, verify_entry, BackupEntry, BackupResult, FileState, FreeSpace,
};
use memoria::consolidation::{action_stats, auto_entity_id};
use memoria::dates::Date;
use memoria::document::{
    chunk_text, extract_pdf, extract_spreadsheet, extract_text, ingest_bytes, ingest_plain_text,
    ns_dir_component, record_error, safe_filename, BookRead, PdfRead, Reading, Sheet,
};
use memoria::health::{
    check_core_tables, check_disk_space as check_health_disk, check_embedding_endpoint,
    check_hnsw_index, check_pool_stats, check_schema_version, parse_address, required_tables,
    DiskSpace, NumberRow, Probe,
};
use memoria::json::{parse_json, render_json};
use memoria::mcp_server::{advance_cursor, quota_error_json, remember_error, remember_reply};
use memoria::ontology::{
    batch_script, check_inputs, run_ontology_cli, wait_step, ChildState, OntologyConfig, WaitStep,
};
use memoria::quota::{quota_window_at, retry_after_at, Moment};
use memoria::replies::{
    audit_query_sql, backup_reply, bridge_request, cleaned_reply, database_reply, decayed_reply,
    dream_moved_reply, dream_reply, entity_reply, export_reply, forward_to_bridge, graph_reply,
    import_reply, list_reply, login_reply, merged_reply, moved_reply, plain_ok_reply,
    registered_user_reply, revoked_reply, skill_missing_reply, BridgeAnswer, DreamRow, Listing,
};
use memoria::search::keyword::{like_pattern, keyword_search};
use memoria::search::text_signals::{extract_update_markers, mark_source};
use memoria::server::{memory_health_reply, registered_agent_reply};
use memoria::service::{
    acquire_single_writer_lock, admin_key_path, takeover_error, web_dir, LockAttempt, LockStep,
};

fn moment() -> Moment {
    Moment {
        date: Date { year: 2026, month: 7, day: 1 },
        hour: 3,
        minute: 4,
        second: 5,
    }
}

fn words(v: &[&str]) -> Vec<String> {
    v.iter().map(|s| s.to_string()).collect()
}

#[test]
fn archives_have_their_places() {
    assert_eq!(stamp(moment()), "20260701_030405");
    assert_eq!(archive_dir("/b", "20260701_030405"), "/b/cli/20260701_030405");
    let f = backup_files("/b", moment());
    assert_eq!(f.tier, "monthly");
    assert_eq!(f.directory, "/b/monthly");
    assert_eq!(f.database, "/b/monthly/memoria_20260701_030405.db");
    assert_eq!(f.index, "/b/monthly/hnsw_vectors_20260701_030405.bin");
    assert_eq!(f.index_keys, "/b/monthly/hnsw_vectors_20260701_030405.json");
    assert_eq!(
        files_of("memoria_20260701_030405.db"),
        vec![
            "memoria_20260701_030405.db",
            "memoria_20260701_030405.bin",
            "memoria_20260701_030405.json",
        ]
    );
}

#[test]
fn archives_are_refused_with_reasons() {
    assert_eq!(
        may_create("/b/x", true).unwrap_err(),
        "refusing to overwrite existing archive: /b/x"
    );
    assert_eq!(main_present("/d.db", false).unwrap_err(), "main db not found: /d.db");
    assert_eq!(
        check_manifest(2).unwrap_err(),
        "unsupported manifest schema_version: 2 (expected 1)"
    );
    assert!(check_fresh_target("/t.db", true)
        .unwrap_err()
        .starts_with("refusing to restore over existing target '/t.db' (fresh-target-only policy)."));
    let m = backup_create_cli("t", "aa", None);
    assert_eq!(
        backup_verify_cli(&m, &vec![FileState::Missing]).unwrap_err(),
        "one or more entries failed verification"
    );
    assert_eq!(
        restore_from_backup("/b/x.db", false, true, "/d/m.db").unwrap_err(),
        "backup file not found: /b/x.db"
    );
    assert_eq!(
        restore_from_backup("/b/x.db", true, false, "/d/m.db").unwrap_err(),
        "backup file failed integrity_check — refusing to restore"
    );
    assert_eq!(
        restore_from_backup("/b/x.db", true, true, "/").unwrap_err(),
        "invalid target path"
    );
    let little = FreeSpace { blocks: 100, block_size: 1048576 };
    assert_eq!(
        check_disk_space(Some(little)).unwrap_err(),
        "disk space low: 100 MB available, need 500 MB"
    );
    assert!(check_disk_space(None).is_ok());
}

#[test]
fn entries_are_faulted_one_by_one() {
    let e = BackupEntry {
        name: "memoria.db".to_string(),
        sha256: "aa".to_string(),
        role: "main".to_string(),
    };
    let good = FileState::Sum { sha256: "aa".to_string(), sound: true };
    assert_eq!(verify_entry(&e, &words(&["memoria.db"]), &good), None);
    assert!(verify_entry(&e, &words(&["other.db"]), &good).is_some());
    let other = FileState::Sum { sha256: "bb".to_string(), sound: true };
    assert!(verify_entry(&e, &words(&["memoria.db"]), &other).is_some());
    let unsound = FileState::Sum { sha256: "aa".to_string(), sound: false };
    assert!(verify_entry(&e, &words(&["memoria.db"]), &unsound).is_some());
}

#[test]
fn commands_on_backups_are_refused_with_reasons() {
    let usage = run_backup_cli(&Vec::new()).unwrap_err();
    assert!(usage.starts_with("usage: memoria-server backup <create|verify|restore> [args]"));
    let unknown = run_backup_cli(&words(&["burn"])).unwrap_err();
    assert!(unknown.contains("burn"));
}

#[test]
fn entities_are_named_after_their_sum() {
    assert_eq!(auto_entity_id("ns", "name"), "auto-768cb5c855e7ec91");
    let (sql, params) = action_stats(Some("ns"), 0);
    assert!(sql.contains("WHERE namespace = ?1 AND created_at >= datetime('now', ?2)"));
    assert_eq!(params, vec!["ns", "-1 hours"]);
    let (_, all) = action_stats(None, 10000);
    assert_eq!(all, vec!["-720 hours"]);
}

fn reading() -> Reading {
    Reading { pdf: PdfRead::Broken, book: BookRead::Sheets(Vec::new()) }
}

#[test]
fn documents_are_refused_with_reasons() {
    assert_eq!(
        extract_pdf(&PdfRead::Broken).unwrap_err(),
        "PDF parsing failed unexpectedly"
    );
    assert_eq!(
        extract_pdf(&PdfRead::Fault("bad xref".to_string())).unwrap_err(),
        "PDF parse error: bad xref"
    );
    assert_eq!(
        extract_pdf(&PdfRead::Text("short".to_string())).unwrap_err(),
        "PDF 似乎是扫描件/纯图片，当前不支持 OCR。请上传可选中文字的 PDF。"
    );
    assert_eq!(
        extract_spreadsheet(&BookRead::Fault("open".to_string())).unwrap_err(),
        "Excel 打开失败: open"
    );
    assert_eq!(
        extract_spreadsheet(&BookRead::Sheets(Vec::new())).unwrap_err(),
        "Excel 未提取到有效文本"
    );
    assert_eq!(extract_text("txt", b"abc", &reading()).unwrap_err(), "unsupported kind: txt");
    assert_eq!(ingest_plain_text("ns", "a.txt", "   ").unwrap_err(), "文本过短");
    let big = vec![0u8; 20971521];
    assert_eq!(
        ingest_bytes("ns", "a.docx", "docx", &big, &reading()).unwrap_err(),
        "文件过大（上限 20 MiB）"
    );
    assert_eq!(record_error(Some(3), "full"), "chunk 3 remember: full");
    assert_eq!(record_error(None, "full"), "manifest remember: full");
}

#[test]
fn sheets_are_spelled_out() {
    let book = BookRead::Sheets(vec![
        Sheet {
            name: "库存".to_string(),
            rows: Some(vec![words(&["煤", "12"]), words(&["气体与蒸汽", ""])]),
        },
        Sheet { name: "broken".to_string(), rows: None },
    ]);
    assert_eq!(
        extract_spreadsheet(&book).unwrap(),
        "# Sheet: 库存\n煤\t12\n气体与蒸汽\t\n\n"
    );
}

#[test]
fn names_and_chunks_are_exact() {
    assert_eq!(safe_filename("../../etc/passwd"), "passwd");
    assert_eq!(chunk_text("", 3500), vec![""; 0]);
    assert_eq!(chunk_text("abc", 3500), vec!["abc"]);
    let parts = chunk_text(&"x".repeat(3501), 3500);
    assert_eq!(parts[1], "x".repeat(201));
    assert!(!ns_dir_component("a/b").is_empty());
}

#[test]
fn checks_say_what_they_found() {
    let r = check_embedding_endpoint("http://h:1/embed", &Probe::Unreachable("refused".to_string()), 3);
    assert_eq!(r.name, "embedding");
    assert_eq!(r.status, "fail");
    assert_eq!(r.message, "嵌入服务不可达: refused（语义检索已降级）");
    assert_eq!(check_hnsw_index("ok", 12, 1).message, "12 vectors loaded");
    assert_eq!(check_hnsw_index("corrupted", 12, 1).status, "warn");
    assert_eq!(check_pool_stats(1, 4, 1).message, "1/4 connections idle");
    assert_eq!(check_pool_stats(0, 4, 1).message, "0/4 connections idle — pool exhausted");
    assert_eq!(
        check_health_disk(DiskSpace::Free(1048576 * 499), 1).message,
        "499 MB free (need 500 MB)"
    );
    assert_eq!(check_health_disk(DiskSpace::Free(1048576 * 500), 1).status, "pass");
    let (old, upgrade) = check_schema_version(&NumberRow::Row(0), 1);
    assert_eq!(old.status, "warn");
    assert_eq!(old.message, "upgraded user_version 0 → 2");
    assert_eq!(upgrade.as_deref(), Some("PRAGMA user_version = 2;"));
    let (newer, none) = check_schema_version(&NumberRow::Row(9), 1);
    assert_eq!(newer.status, "pass");
    assert_eq!(newer.message, "user_version = 9 (expected >= 2)");
    assert_eq!(none, None);
    let counts = vec![1; required_tables().len()];
    assert_eq!(check_core_tables(&Ok(counts), 1).status, "pass");
    assert!(parse_address("https://h").is_err());
}

#[test]
fn replies_are_exact() {
    assert_eq!(plain_ok_reply(), r#"{"status":"ok"}"#);
    assert_eq!(entity_reply("e1"), r#"{"entity_id":"e1","status":"ok"}"#);
    assert_eq!(
        export_reply("ns", "中"),
        r#"{"bytes":3,"export":"中","namespace":"ns","status":"ok"}"#
    );
    assert_eq!(
        import_reply("ns", 1, 2, &words(&["bad"])),
        r#"{"errors":["bad"],"ignored":2,"inserted":1,"namespace":"ns","status":"ok"}"#
    );
    assert_eq!(
        registered_user_reply("user/a", "user/a"),
        r#"{"agent_id":"user/a","namespace":"user/a","status":"registered"}"#
    );
    assert_eq!(
        login_reply("a", "A", "user/a", "tok"),
        r#"{"agent_id":"a","badge_token":"tok","display_name":"A","namespace":"user/a","status":"ok"}"#
    );
    assert_eq!(
        moved_reply(1, 2, 3),
        r#"{"status":"ok","memories_moved":1,"relations_moved":2,"prefs_moved":3}"#
    );
    assert_eq!(decayed_reply(4, 1), r#"{"status":"ok","processed":4,"cold":1}"#);
    assert_eq!(graph_reply(4, 1), r#"{"status":"ok","nodes":4,"edges":1}"#);
    assert_eq!(merged_reply("a", "b"), r#"{"status":"merged","keep":"a","merged":"b"}"#);
    assert_eq!(revoked_reply("a", 1), r#"{"status":"revoked","agent_id":"a","deleted":1}"#);
    assert_eq!(
        skill_missing_reply("s"),
        r#"{"status":"error","message":"skill 's' not found"}"#
    );
    assert_eq!(
        cleaned_reply(&words(&["x"])),
        r#"{"removed":1,"removed_ids":["x"],"status":"cleaned"}"#
    );
    let b = BackupResult {
        backup_path: "/b/x.db".to_string(),
        db_size_bytes: 3 * 1048576 + 5,
        integrity_ok: true,
        rotation_deleted: 2,
        tier: "daily".to_string(),
    };
    assert_eq!(
        backup_reply(&b),
        r#"{"status":"ok","backup_path":"/b/x.db","size_mb":3,"integrity_ok":true,"rotation_deleted":2,"tier":"daily"}"#
    );
}

#[test]
fn dreams_and_logs_are_told_exactly() {
    assert_eq!(
        dream_reply("decay", "ns", None),
        r#"{"cursor_ts":"1970-01-01","items_out":0,"last_run":null,"namespace":"ns","phase":"decay","runs":0,"status":"ok"}"#
    );
    let row = DreamRow {
        last_run: Some("2026-07-01".to_string()),
        cursor_ts: None,
        runs: 3,
        items_out: 4,
    };
    assert_eq!(
        dream_reply("decay", "ns", Some(&row)),
        r#"{"cursor_ts":"1970-01-01","items_out":4,"last_run":"2026-07-01","namespace":"ns","phase":"decay","runs":3,"status":"ok"}"#
    );
    assert_eq!(
        dream_moved_reply("decay", "ns", "c"),
        r#"{"cursor_ts":"c","items_out":"(accumulated)","namespace":"ns","phase":"decay","runs":"(incremented)","status":"ok"}"#
    );
    assert_eq!(audit_query_sql(&Vec::new(), false), None);
    assert_eq!(
        audit_query_sql(&words(&["audit_log_2026W27"]), true).unwrap(),
        "SELECT * FROM (SELECT agent_id, tool, params, allowed, timestamp FROM audit_log_2026W27) AS all_logs WHERE agent_id = ? ORDER BY timestamp DESC LIMIT ?"
    );
    assert_eq!(
        audit_query_sql(&words(&["audit_log_2026W27", "audit_log_2026W26"]), false).unwrap(),
        "SELECT * FROM (SELECT agent_id, tool, params, allowed, timestamp FROM audit_log_2026W27 UNION ALL SELECT agent_id, tool, params, allowed, timestamp FROM audit_log_2026W26) AS all_logs ORDER BY timestamp DESC LIMIT ?"
    );
    assert_eq!(list_reply(Listing::Audit, &Vec::new()), r#"{"logs":[],"status":"ok"}"#);
    assert_eq!(list_reply(Listing::Messages, &Vec::new()), r#"{"messages":[],"status":"ok"}"#);
    assert_eq!(
        list_reply(Listing::Unconsolidated, &Vec::new()),
        r#"{"count":0,"items":[],"status":"ok"}"#
    );
    let stats = parse_json(&database_reply(&vec![1, 2, 3, 4, 5, 6, 7, 8], 9, 10, 11)).unwrap();
    let stats = stats.get("stats").unwrap();
    assert_eq!(stats.u64_or("dream_state", 0), 8);
    assert_eq!(stats.u64_or("agent_registry", 0), 9);
    assert_eq!(stats.u64_or("audit_log_total", 0), 10);
    assert_eq!(stats.u64_or("hnsw_vectors", 0), 11);
}

#[test]
fn the_bridge_is_asked_exactly() {
    let args = parse_json(r#"{"a":1}"#).unwrap();
    assert_eq!(
        render_json(&bridge_request("auto_route", &args)),
        r#"{"id":1,"jsonrpc":"2.0","method":"tools/call","params":{"arguments":{"a":1},"name":"auto_route"}}"#
    );
    let full = BridgeAnswer::Value(parse_json(r#"{"result":{"x":2}}"#).unwrap());
    assert_eq!(forward_to_bridge("http://b", &full), r#"{"x":2}"#);
    let empty = BridgeAnswer::Value(parse_json("{}").unwrap());
    assert_eq!(forward_to_bridge("http://b", &empty), r#"{"error":"empty bridge response"}"#);
    assert_eq!(
        forward_to_bridge("http://b", &BridgeAnswer::Garbled("y".to_string())),
        r#"{"error":"bridge parse: y"}"#
    );
    assert_eq!(
        forward_to_bridge("http://b", &BridgeAnswer::Unreachable("x".to_string())),
        r#"{"error":"bridge unreachable (http://b): x"}"#
    );
}

#[test]
fn refusals_of_calls_are_exact() {
    assert_eq!(
        quota_error_json("write", 5, 60),
        r#"{"code":"quota_exceeded","kind":"write","limit":5,"message":"namespace quota exceeded for 'write' (limit 5 per window)","retry_after_sec":60,"status":"error"}"#
    );
    assert_eq!(
        remember_error("404: no such memory"),
        r#"{"status":"error","code":404,"message":"no such memory"}"#
    );
    assert_eq!(
        remember_error("500: broken"),
        r#"{"status":"error","code":400,"message":"500: broken"}"#
    );
    assert_eq!(
        remember_reply("m1", "inserted", &Vec::new()),
        r#"{"status":"remembered","id":"m1","action":"inserted"}"#
    );
    let pairs = vec![("m0".to_string(), "0.93".to_string())];
    assert_eq!(
        remember_reply("m1", "superseded_near_dup", &pairs),
        r#"{"status":"remembered","id":"m1","action":"superseded_near_dup","superseded":[{"id":"m0","similarity":0.93}]}"#
    );
    assert_eq!(
        advance_cursor("2026-07-01", Some("2026-07-01"), true, "rem", "ns", 300).unwrap_err(),
        r#"{"status":"error","message":"cursor_ts must advance: new '2026-07-01' not newer than previous '2026-07-01'"}"#
    );
    assert_eq!(
        advance_cursor("2026-07-02", None, false, "rem", "ns", 300).unwrap_err(),
        r#"{"status":"error","message":"rate limited: phase 'rem' for ns 'ns' requires 300s cooldown"}"#
    );
}

#[test]
fn windows_of_quotas_are_exact() {
    assert_eq!(quota_window_at("write", moment()), "2026-07-01");
    assert_eq!(quota_window_at("search", moment()), "2026-07-01T03:04");
    assert_eq!(quota_window_at("backup", moment()), "2026-07-01T03");
    assert_eq!(retry_after_at("write", moment()), 24 * 3600 - (3 * 3600 + 4 * 60 + 5));
    assert_eq!(retry_after_at("search", moment()), 55);
    assert_eq!(retry_after_at("backup", moment()), 3600 - (4 * 60 + 5));
}

fn config() -> OntologyConfig {
    OntologyConfig {
        bin: "oo".to_string(),
        data_dir: "/data".to_string(),
        schema_path: "/data/schema.ttl".to_string(),
        timeout_secs: 60,
    }
}

#[test]
fn the_reasoner_is_asked_exactly() {
    assert_eq!(
        batch_script(Some("/d/s.ttl"), "/d/a.ttl", "rdfs", "/d/o.ttl", false),
        "load \"/d/s.ttl\"\nload \"/d/a.ttl\"\nreason --profile rdfs\nsave \"/d/o.ttl\"\n"
    );
    assert_eq!(
        batch_script(None, "a\\b", "rdfs", "o", true),
        "load \"a/b\"\nreason --profile rdfs\nsave \"o\"\n"
    );
    assert_eq!(
        check_inputs(&config(), "a.ttl", "owl-rl --flag", false).unwrap_err(),
        "invalid profile: \"owl-rl --flag\" (allowed: rdfs, owl-rl, owl-dl, owl-full)"
    );
    assert_eq!(
        check_inputs(&config(), "a;b.ttl", "rdfs", false).unwrap_err(),
        "invalid source_ttl: control chars / quote / semicolon (and backslash on Unix) not allowed"
    );
    assert!(check_inputs(&config(), "a\\b.ttl", "rdfs", false).is_err());
    assert!(check_inputs(&config(), "a\\b.ttl", "rdfs", true).is_ok());
    let long = wait_step(&ChildState::Running, 60_001, 60);
    assert!(matches!(long, WaitStep::Stop(e) if e == "ontology materialize timed out after 60s (killed)"));
    assert!(matches!(wait_step(&ChildState::Running, 60_000, 60), WaitStep::Wait));
    assert_eq!(
        run_ontology_cli(&words(&["materialize"])).unwrap_err(),
        "materialize requires <source_ttl>"
    );
    assert_eq!(
        run_ontology_cli(&words(&["fly"])).unwrap_err(),
        "unknown ontology subcommand: fly (expected materialize|status|serve)"
    );
    assert_eq!(
        run_ontology_cli(&words(&["serve", "--port", "0"])).unwrap_err(),
        "invalid --port value 0 (0 means ephemeral; specify 1..=65535)"
    );
    assert_eq!(
        run_ontology_cli(&words(&["serve", "--port", "x"])).unwrap_err(),
        "invalid --port value \"x\" (expected 1..=65535)"
    );
}

#[test]
fn locks_are_settled_exactly() {
    let taken = LockAttempt::Taken { pid: Some(12), alive: true };
    let step = acquire_single_writer_lock(&taken, "/d/memoria.pid");
    assert!(matches!(step, LockStep::Refuse(e) if e.starts_with("Memoria 已在运行（pid 12）。")));
    let failed = LockAttempt::Failed("denied".to_string());
    let step = acquire_single_writer_lock(&failed, "/d/memoria.pid");
    assert!(matches!(step, LockStep::Refuse(e) if e == "无法创建锁文件 /d/memoria.pid: denied"));
    assert_eq!(
        takeover_error(Some(12), "/d/memoria.pid", "denied"),
        "无法接管锁文件 /d/memoria.pid: denied"
    );
    assert_eq!(
        takeover_error(None, "/d/memoria.pid", "denied"),
        "无法创建锁文件 /d/memoria.pid: denied"
    );
    assert_eq!(admin_key_path("/d/memoria.db"), "/d/admin_key.secret");
    assert_eq!(web_dir("/a/data/memoria.db", None), "/a/web");
}

#[test]
fn patterns_and_marks_are_exact() {
    assert_eq!(like_pattern("50%_a").as_deref(), None);
    assert_eq!(like_pattern("煤%").as_deref(), Some("%煤\\%%"));
    assert_eq!(keyword_search(&words(&["a", "b"]), &words(&["b", "c"])), vec![0, 1, 3]);
    assert_eq!(mark_source("keyword", "text_signals"), "keyword;text_signals");
    assert_eq!(extract_update_markers("改为"), vec!["改为"]);
}

#[test]
fn agents_and_health_are_told() {
    let badge = memoria::auth::new_badge("a", "A", &words(&["agent/a"]), "user", 1, 2, "2027-01-01");
    let j = parse_json(&registered_agent_reply(&badge)).unwrap();
    assert_eq!(j.str_at("status"), Some("registered"));
    let shown = j.get("badge").unwrap();
    assert_eq!(shown.str_at("agent_id"), Some("a"));
    assert_eq!(shown.str_at("badge_token"), Some(badge.badge_token.as_str()));
    assert_eq!(shown.str_at("expires_at"), Some("2027-01-01"));
    let report = memoria::health::report_of(
        Vec::new(),
        vec![check_pool_stats(1, 4, 2)],
        "t".to_string(),
        "v".to_string(),
    );
    assert_eq!(
        memory_health_reply(&report),
        r#"{"embed":null,"report":{"hard_checks":[],"overall":"pass","soft_checks":[{"duration_ms":2,"message":"1/4 connections idle","name":"pool_stats","status":"pass"}],"timestamp":"t","version":"v"},"status":"ok"}"#
    );
}
