use memoria::backup::{
    archive_dir, backup_create_cli, backup_paths, backup_restore_cli, backup_verify_cli,
    check_disk_space, check_fresh_target, check_manifest, escape_sql_path, files_of, list_backups,
    backup_files, main_present, may_create, path_beside, perform_backup, restore_from_backup, restore_target,
    retention_of, rotate_backups, run_backup_cli, sort_by_age, stamp, tier_at, tier_of, vacuum_sql,
    BackupCommand, BackupFile, FileState, FreeSpace, ListedFile, RestoreStep,
};
use memoria::dates::Date;
use memoria::json::render_json;
use memoria::quota::Moment;

#[test]
fn test_escape_sql_path() {
    assert_eq!(escape_sql_path("/tmp/test.db"), "/tmp/test.db");
    assert_eq!(escape_sql_path("/tmp/it's.db"), "/tmp/it''s.db");
}

fn moment(year: i32, month: u32, day: u32) -> Moment {
    Moment {
        date: Date { year, month, day },
        hour: 3,
        minute: 4,
        second: 5,
    }
}

#[test]
fn statements_quote_their_path() {
    assert_eq!(vacuum_sql("/tmp/a'b"), "VACUUM INTO '/tmp/a''b'");
}

#[test]
fn stamps_are_moments_without_marks() {
    let s = stamp(moment(2026, 7, 1));
    assert!(s.contains("20260701"));
    assert!(s.contains("030405"));
    assert!(archive_dir("/b", &s).starts_with("/b/"));
}

#[test]
fn archives_are_made_once() {
    assert!(may_create("/b/x", false).is_ok());
    assert!(may_create("/b/x", true).is_err());
    assert!(main_present("/d.db", true).is_ok());
    assert!(main_present("/d.db", false).is_err());
}

fn sums(m: &memoria::backup::BackupManifest) -> Vec<FileState> {
    m.entries
        .iter()
        .map(|e| FileState::Sum {
            sha256: e.sha256.clone(),
            sound: true,
        })
        .collect()
}

#[test]
fn a_new_archive_verifies() {
    let m = backup_create_cli("2026-07-01T00:00:00Z", "aa", Some("bb"));
    assert_eq!(m.schema_version, 1);
    assert_eq!(m.entries.len(), 2);
    assert!(check_manifest(m.schema_version).is_ok());
    assert!(check_manifest(2).is_err());
    assert!(backup_verify_cli(&m, &sums(&m)).is_ok());
    assert_eq!(backup_create_cli("t", "aa", None).entries.len(), 1);
}

#[test]
fn changed_archives_do_not_verify() {
    let m = backup_create_cli("2026-07-01T00:00:00Z", "aa", None);
    let changed = vec![FileState::Sum {
        sha256: "ab".to_string(),
        sound: true,
    }];
    assert!(backup_verify_cli(&m, &changed).is_err());
    let unsound = vec![FileState::Sum {
        sha256: "aa".to_string(),
        sound: false,
    }];
    assert!(backup_verify_cli(&m, &unsound).is_err());
    assert!(backup_verify_cli(&m, &vec![FileState::Missing]).is_err());
    let unread = vec![FileState::Unreadable("io".to_string())];
    assert!(backup_verify_cli(&m, &unread).is_err());
}

#[test]
fn restoring_overwrites_nothing() {
    assert!(check_fresh_target("/t.db", false).is_ok());
    assert!(check_fresh_target("/t.db", true).is_err());
    let put = backup_restore_cli("memoria.db", true, Some("/t/m.db".to_string()), false);
    match put {
        RestoreStep::Put { target, parent } => {
            assert_eq!((target.as_str(), parent.as_str()), ("/t/m.db", "/t"));
        }
        other => panic!("unexpected: {:?}", other),
    }
    assert!(matches!(
        backup_restore_cli("memoria.db", true, Some("/t/m.db".to_string()), true),
        RestoreStep::Refuse(_)
    ));
    assert!(matches!(
        backup_restore_cli("memoria.db", true, None, false),
        RestoreStep::Skip
    ));
}

#[test]
fn roles_have_their_targets() {
    assert_eq!(
        restore_target("main", "/t/m.db", "/t", None).as_deref(),
        Some("/t/m.db")
    );
    assert!(restore_target("nothing", "/t/m.db", "/t", None).is_none());
}

fn words(v: &[&str]) -> Vec<String> {
    v.iter().map(|s| s.to_string()).collect()
}

#[test]
fn backup_commands_are_read() {
    assert!(matches!(
        run_backup_cli(&words(&["create"])),
        Ok(BackupCommand::Create)
    ));
    match run_backup_cli(&words(&["verify", "/b/x"])) {
        Ok(BackupCommand::Verify { archive }) => assert_eq!(archive, "/b/x"),
        other => panic!("unexpected: {:?}", other),
    }
    match run_backup_cli(&words(&["restore", "/b/x", "/t/m.db"])) {
        Ok(BackupCommand::Restore { archive, target_main, target_audit }) => {
            assert_eq!((archive.as_str(), target_main.as_str()), ("/b/x", "/t/m.db"));
            assert!(target_audit.is_none());
        }
        other => panic!("unexpected: {:?}", other),
    }
    assert!(run_backup_cli(&words(&[])).is_err());
    assert!(run_backup_cli(&words(&["verify"])).is_err());
    assert!(run_backup_cli(&words(&["restore", "/b/x"])).is_err());
    assert!(run_backup_cli(&words(&["burn"])).is_err());
}

#[test]
fn paths_lie_beside_the_database() {
    assert_eq!(path_beside("data/m.db", None, "backups"), "data/backups");
    assert_eq!(path_beside("data/m.db", Some("/b"), "backups"), "/b");
    let (db, _, dir) = backup_paths(Some("/d/m.db"), None, Some("/b"));
    assert_eq!((db.as_str(), dir.as_str()), ("/d/m.db", "/b"));
}

#[test]
fn tiers_go_by_the_calendar() {
    assert_eq!(tier_at(Date { year: 2026, month: 7, day: 1 }), "monthly");
    assert_eq!(tier_at(Date { year: 2026, month: 7, day: 13 }), "weekly");
    assert_eq!(tier_at(Date { year: 2026, month: 7, day: 16 }), "daily");
    assert_eq!(tier_of(1, 7), "monthly");
    assert_eq!(retention_of("daily"), Some(7));
    assert_eq!(retention_of("weekly"), Some(4));
    assert_eq!(retention_of("monthly"), Some(3));
    let files = backup_files("/b", moment(2026, 7, 16));
    assert_eq!(files.tier, "daily");
    assert_eq!(files.database, "/b/daily/memoria_20260716_030405.db");
    assert!(perform_backup("/b").directory.starts_with("/b/"));
}

#[test]
fn backups_need_space() {
    let enough = FreeSpace { blocks: 600, block_size: 1_048_576 };
    assert!(check_disk_space(Some(enough)).is_ok());
    let little = FreeSpace { blocks: 1, block_size: 4096 };
    assert!(check_disk_space(Some(little)).is_err());
}

fn file(name: &str, modified: u64) -> BackupFile {
    BackupFile { name: name.to_string(), modified }
}

#[test]
fn files_are_sorted_by_age() {
    let v = vec![file("b", 2), file("c", 3), file("a", 1)];
    let names = |v: Vec<BackupFile>| -> Vec<String> { v.into_iter().map(|f| f.name).collect() };
    assert_eq!(names(sort_by_age(v, true)), words(&["c", "b", "a"]));
    let v = vec![file("b", 2), file("c", 3), file("a", 1)];
    assert_eq!(names(sort_by_age(v, false)), words(&["a", "b", "c"]));
}

#[test]
fn rotation_keeps_the_youngest() {
    let v: Vec<BackupFile> = (0..5)
        .map(|i| file(&format!("memoria_2026070{}_000000.db", i), i as u64))
        .collect();
    let gone: Vec<String> = rotate_backups(v, "weekly").into_iter().map(|f| f.name).collect();
    assert_eq!(gone, words(&["memoria_20260700_000000.db"]));
    let few = vec![file("memoria_20260701_000000.db", 1)];
    assert!(rotate_backups(few, "weekly").is_empty());
    let all = files_of("memoria_20260701_000000.db");
    assert!(all.iter().any(|n| n == "memoria_20260701_000000.db"));
    assert!(!all.iter().any(|n| n.starts_with("hnsw_vectors_")));
}

#[test]
fn backups_are_put_back_by_way_of_a_copy() {
    let p = restore_from_backup("/b/x.db", true, true, "/d/m.db").unwrap();
    assert_eq!(p.directory, "/d");
    assert!(p.wal.ends_with("-wal") && p.shm.ends_with("-shm"));
    assert!(restore_from_backup("/b/x.db", false, true, "/d/m.db").is_err());
    assert!(restore_from_backup("/b/x.db", true, false, "/d/m.db").is_err());
}

#[test]
fn backups_are_listed_youngest_first() {
    let listed = |name: &str, modified: i64| ListedFile {
        name: name.to_string(),
        size: 10,
        megabytes: "0.5".to_string(),
        modified,
        modified_ts: modified as u64,
    };
    let j = list_backups(
        &vec![listed("old", 1), listed("new", 2)],
        &vec![],
        &vec![],
    );
    let daily = j.get("daily").and_then(|d| d.as_array()).unwrap();
    assert_eq!(daily[0].str_at("name"), Some("new"));
    assert_eq!(daily[1].str_at("name"), Some("old"));
    assert!(render_json(&j).contains("\"size_mb\":0.5"));
}
