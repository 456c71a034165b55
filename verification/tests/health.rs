use memoria::health::{
    check_audit_writable, check_core_tables, check_disk_space, check_embedding_endpoint,
    check_fts5, check_hnsw_index, check_integrity, check_pool_stats, check_schema_version,
    check_sqlite_rw, check_wal_mode, get_request, health_url, http_get_json_summary,
    parse_address, report_of, required_tables, run_health_check, status_code, table_query,
    write_steps, CheckResult, DiskSpace, HealthReport, Measured, NumberRow, Probe, TextRow, Timed,
    Written,
};

fn check(status: &str) -> CheckResult {
    CheckResult {
        name: "n".to_string(),
        status: status.to_string(),
        message: "m".to_string(),
        duration_ms: 1,
    }
}

#[test]
fn only_hard_checks_fail() {
    let overall = |hard: &str, soft: &str| {
        report_of(
            vec![check(hard)],
            vec![check(soft)],
            "t".to_string(),
            "v".to_string(),
        )
        .overall
    };
    assert_eq!(overall("fail", "pass"), "fail");
    assert_eq!(overall("pass", "fail"), "degraded");
    assert_eq!(overall("pass", "warn"), "degraded");
    assert_eq!(overall("pass", "pass"), "pass");
}

fn timed<T>(value: T) -> Timed<T> {
    Timed { value, ms: 7 }
}

fn measured(url: &str, probe: Probe) -> Measured {
    Measured {
        written: timed(Written::Done),
        integrity: timed(TextRow::Row("ok".to_string())),
        schema: timed(NumberRow::Row(0)),
        tables: timed(Ok(vec![1; required_tables().len()])),
        fts5: timed(NumberRow::Row(3)),
        hnsw: timed(("ready".to_string(), 3)),
        disk: timed(DiskSpace::Free(1 << 40)),
        audit: timed(NumberRow::Row(1)),
        wal: timed(TextRow::Row("wal".to_string())),
        pool: timed((1, 4)),
        embedding: timed((url.to_string(), probe)),
    }
}

fn report(m: &Measured) -> HealthReport {
    run_health_check(m, "t".to_string(), "v".to_string())
}

#[test]
fn five_hard_and_six_soft_checks_are_run() {
    let r = report(&measured("http://h/embed", Probe::Status(200)));
    let names = |v: &Vec<CheckResult>| v.iter().map(|c| c.name.clone()).collect::<Vec<_>>();
    assert_eq!(
        names(&r.hard_checks),
        vec!["sqlite_rw", "integrity_check", "schema_version", "core_tables", "fts5"]
    );
    assert_eq!(
        names(&r.soft_checks),
        vec!["hnsw_index", "disk_space", "audit_writable", "wal_mode", "pool_stats", "embedding"]
    );
    assert_eq!(r.soft_checks[4].message, "1/4 connections idle");
    assert_eq!(r.soft_checks[4].duration_ms, 7);
    assert_eq!((r.timestamp.as_str(), r.version.as_str()), ("t", "v"));
}

#[test]
fn a_missing_embedding_service_only_degrades() {
    let without = report(&measured(" ", Probe::Status(200)));
    assert_eq!(without.overall, "degraded");
    assert_eq!(without.soft_checks[5].status, "warn");
    let silent = report(&measured("http://h/embed", Probe::Unreachable("refused".to_string())));
    assert_eq!(silent.overall, "degraded");
    assert_eq!(silent.soft_checks[5].status, "fail");
    let mut broken = measured(" ", Probe::Status(200));
    broken.integrity = timed(TextRow::Row("page 3 is broken".to_string()));
    assert_eq!(report(&broken).overall, "fail");
}

#[test]
fn the_health_lies_beside_the_embedding() {
    assert_eq!(health_url(" http://h/embed ").as_deref(), Some("http://h/health"));
    assert_eq!(health_url("http://h/").as_deref(), Some("http://h/health"));
    assert_eq!(health_url("http://h").as_deref(), Some("http://h/health"));
    assert_eq!(health_url("  "), None);
}

#[test]
fn the_embedding_is_probed() {
    let ok = check_embedding_endpoint("http://h", &Probe::Status(204), 3);
    assert_eq!((ok.status.as_str(), ok.message.as_str()), ("pass", "ok http=204"));
    assert_eq!(check_embedding_endpoint("http://h", &Probe::Status(500), 3).status, "fail");
    let gone = Probe::Unreachable("refused".to_string());
    assert!(check_embedding_endpoint("http://h", &gone, 3).message.contains("refused"));
    assert_eq!(check_embedding_endpoint("", &gone, 3).status, "warn");
}

#[test]
fn addresses_are_read() {
    let t = parse_address("http://127.0.0.1:8900/health").unwrap();
    assert_eq!((t.host.as_str(), t.port, t.path.as_str()), ("127.0.0.1", 8900, "/health"));
    assert_eq!(parse_address("http://h").unwrap().port, 80);
    assert_eq!(parse_address("http://h").unwrap().path, "/");
    assert!(parse_address("https://h").is_err());
    assert_eq!(
        get_request(&t),
        "GET /health HTTP/1.1\r\nHost: 127.0.0.1:8900\r\nConnection: close\r\n\r\n"
    );
}

#[test]
fn replies_have_a_code_and_a_body() {
    assert_eq!(status_code("HTTP/1.1 200 OK\r\n"), 200);
    assert_eq!(status_code("garbage"), 0);
    let (code, body) = http_get_json_summary("HTTP/1.1 503 No\r\nA: b\r\n\r\n{\"s\":1}");
    assert_eq!((code, body.as_str()), (503, "{\"s\":1}"));
    let long = format!("HTTP/1.1 200 OK\r\n\r\n{}", "x".repeat(500));
    assert_eq!(http_get_json_summary(&long).1.len(), 400);
}

#[test]
fn the_database_is_tried() {
    assert_eq!(write_steps().len(), 4);
    assert_eq!(check_sqlite_rw(&Written::Done, 1).status, "pass");
    let f = Written::Failed { step: "insert".to_string(), error: "locked".to_string() };
    assert_eq!(check_sqlite_rw(&f, 1).message, "insert: locked");
    let n = Written::NoConnection("timeout".to_string());
    assert_eq!(check_sqlite_rw(&n, 1).message, "pool get failed: timeout");
}

#[test]
fn integrity_is_ok_or_not() {
    assert_eq!(check_integrity(&TextRow::Row("ok".to_string()), 1).status, "pass");
    let bad = check_integrity(&TextRow::Row("page 3".to_string()), 1);
    assert_eq!(bad.message, "corruption detected: page 3");
    assert_eq!(check_integrity(&TextRow::Failed("x".to_string()), 1).status, "fail");
    assert_eq!(check_integrity(&TextRow::NoConnection("x".to_string()), 1).status, "fail");
}

#[test]
fn schemas_have_a_version() {
    let (r, sql) = check_schema_version(&NumberRow::Row(2), 1);
    assert_eq!(r.status, "pass");
    assert!(sql.is_none());
    let (r, sql) = check_schema_version(&NumberRow::Row(0), 1);
    assert!(r.message.contains('0') && sql.is_some() || r.status == "fail");
    let (r, _) = check_schema_version(&NumberRow::NoConnection("x".to_string()), 1);
    assert_eq!(r.status, "fail");
}

#[test]
fn core_tables_are_all_asked_for() {
    let n = required_tables().len();
    assert_eq!(n, 8);
    assert!(table_query("memories").ends_with("name='memories'"));
    assert_eq!(check_core_tables(&Ok(vec![1; n]), 1).status, "pass");
    let mut one_gone = vec![1; n];
    one_gone[0] = 0;
    let r = check_core_tables(&Ok(one_gone), 1);
    assert_eq!(r.status, "fail");
    assert!(r.message.contains("memories"));
    assert_eq!(check_core_tables(&Err("x".to_string()), 1).status, "fail");
}

#[test]
fn soft_checks_warn() {
    assert_eq!(check_fts5(&NumberRow::Row(1), 1).status, "pass");
    assert_eq!(check_fts5(&NumberRow::Row(0), 1).status, "pass");
    assert_eq!(check_fts5(&NumberRow::Failed("x".to_string()), 1).status, "fail");
    assert_eq!(check_disk_space(DiskSpace::Free(500 * 1_048_576), 1).status, "pass");
    assert_ne!(check_disk_space(DiskSpace::Free(499 * 1_048_576), 1).status, "pass");
    assert_eq!(check_audit_writable(&NumberRow::Row(1), 1).status, "pass");
    assert_eq!(check_wal_mode(&TextRow::Row("wal".to_string()), 1).status, "pass");
    assert_ne!(check_wal_mode(&TextRow::Row("delete".to_string()), 1).status, "pass");
    assert!(check_hnsw_index("ok", 12, 1).message.contains("12"));
    assert!(check_pool_stats(1, 4, 1).message.contains('4'));
}
