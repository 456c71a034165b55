use memoria::health::{report_of, CheckResult};
use memoria::service::{
    acquire_single_writer_lock, admin_key, admin_key_path, backup_interval_hours, build_runtime,
    is_exposed_bind, lock_text, port, process_path, read_pid, single_writer_lock_path, startup,
    takeover_error, token_hint, web_dir, LockAttempt, LockStep,
};

#[test]
fn test_is_exposed_bind() {
    assert!(is_exposed_bind("0.0.0.0"));
    assert!(is_exposed_bind("::"));
    assert!(is_exposed_bind("[::]"));
    assert!(!is_exposed_bind("127.0.0.1"));
    assert!(!is_exposed_bind("localhost"));
    assert!(!is_exposed_bind("192.168.1.10"));
}

#[test]
fn test_single_writer_lock_path() {
    let p = single_writer_lock_path("data/memoria.db");
    assert_eq!(std::path::Path::new(&p).file_name().unwrap(), "memoria.pid");
    let p2 = single_writer_lock_path("/abs/path/memoria.db");
    assert_eq!(std::path::Path::new(&p2).file_name().unwrap(), "memoria.pid");
    assert_eq!(p2, "/abs/path/memoria.pid");
}

#[test]
fn a_second_writer_is_refused() {
    assert!(matches!(
        acquire_single_writer_lock(&LockAttempt::Made, "/d/memoria.pid"),
        LockStep::Hold
    ));
    let taken = LockAttempt::Taken { pid: Some(12), alive: true };
    match acquire_single_writer_lock(&taken, "/d/memoria.pid") {
        LockStep::Refuse(e) => assert!(e.contains("12")),
        other => panic!("unexpected: {:?}", other),
    }
    let dead = LockAttempt::Taken { pid: Some(12), alive: false };
    assert!(matches!(
        acquire_single_writer_lock(&dead, "/d/memoria.pid"),
        LockStep::TakeOver { pid: Some(12) }
    ));
    let failed = LockAttempt::Failed("denied".to_string());
    match acquire_single_writer_lock(&failed, "/d/memoria.pid") {
        LockStep::Refuse(e) => assert!(e.contains("denied")),
        other => panic!("unexpected: {:?}", other),
    }
    assert!(takeover_error(Some(12), "/d/memoria.pid", "denied").contains("denied"));
}

#[test]
fn test_second_writer_refused_when_alive() {
    let path = "/d/memoria.pid";
    let first = acquire_single_writer_lock(&LockAttempt::Made, path);
    let lock = lock_text(&first, 4321).expect("first writer should acquire lock");
    assert_eq!(lock, "4321");
    let pid = read_pid(Some(&lock));
    assert_eq!(pid, Some(4321));
    let second = acquire_single_writer_lock(&LockAttempt::Taken { pid, alive: true }, path);
    assert!(
        matches!(second, LockStep::Refuse(_)),
        "second writer must be refused while first is alive"
    );
    assert_eq!(lock_text(&second, 99), None);
    let later = acquire_single_writer_lock(&LockAttempt::Taken { pid, alive: false }, path);
    assert_eq!(lock_text(&later, 99).unwrap(), "99");
    let odd = LockAttempt::Taken { pid: read_pid(Some("?")), alive: false };
    assert_eq!(lock_text(&acquire_single_writer_lock(&odd, path), 7).unwrap(), "7");
}

#[test]
fn processes_are_read_from_the_lock() {
    assert_eq!(read_pid(Some("12\n")), Some(12));
    assert_eq!(read_pid(Some("x")), None);
    assert_eq!(read_pid(None), None);
    assert_eq!(process_path(12), "/proc/12");
}

#[test]
fn settings_of_the_service_have_defaults() {
    assert_eq!(port(Some("9000")), 9000);
    assert_eq!(port(Some("x")), port(None));
    assert_eq!(backup_interval_hours(Some("6")), 6);
    assert_eq!(admin_key(None), None);
    assert_eq!(admin_key(Some("k")).as_deref(), Some("k"));
    let (workers, blocking) = build_runtime(Some("3"), None);
    assert_eq!(workers, 3);
    assert!(blocking > 0);
}

#[test]
fn files_of_the_service_lie_beside_the_database() {
    assert!(admin_key_path("/d/memoria.db").starts_with("/d/"));
    assert_eq!(web_dir("/d/memoria.db", Some("/w")), "/w");
}

#[test]
fn tokens_are_hinted_at() {
    assert_eq!(token_hint("abcdefghijklmnopqrst"), "abcdefghijklmnop");
    assert_eq!(token_hint("abc"), "abc");
}

fn check(name: &str, status: &str) -> CheckResult {
    CheckResult {
        name: name.to_string(),
        status: status.to_string(),
        message: "m".to_string(),
        duration_ms: 1,
    }
}

#[test]
fn hard_failures_stop_the_start() {
    let bad = report_of(
        vec![check("sqlite_rw", "fail")],
        vec![],
        "t".to_string(),
        "v".to_string(),
    );
    assert!(!startup(&bad).starts);
    let soft = report_of(
        vec![check("sqlite_rw", "pass")],
        vec![check("disk", "fail")],
        "t".to_string(),
        "v".to_string(),
    );
    assert!(startup(&soft).starts);
    let good = report_of(
        vec![check("sqlite_rw", "pass")],
        vec![check("disk", "pass")],
        "t".to_string(),
        "v".to_string(),
    );
    assert!(startup(&good).starts);
    assert_ne!(good.overall, bad.overall);
}
