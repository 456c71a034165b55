//! Backups in three tiers, archives with a list of their contents, and putting
//! them back. Seven daily backups are kept, four weekly and three monthly ones.
use vstd::prelude::*;
use crate::clock;
use crate::dates;
use crate::json;
use crate::json::{Json, JsonView, Number, NumberView};
use crate::paths;
use crate::quota::Moment;
use crate::search::ranking;
use crate::text;

verus! {

/// The version of the lists that are written, and the only one that is read.
pub const BACKUP_MANIFEST_SCHEMA_VERSION: u32 = 1;

/// A file of an archive.
#[derive(Debug)]
pub struct BackupEntry {
    pub name: String,
    /// The sum of its bytes.
    pub sha256: String,
    /// `main` for the memories, `audit` for the audit log.
    pub role: String,
}

/// What an archive holds.
#[derive(Debug)]
pub struct BackupManifest {
    pub schema_version: u32,
    pub created_at: String,
    pub entries: Vec<BackupEntry>,
    /// The only names that may occur.
    pub path_allowlist: Vec<String>,
}

/// What came of a backup.
#[derive(Debug)]
pub struct BackupResult {
    pub backup_path: String,
    pub db_size_bytes: u64,
    pub integrity_ok: bool,
    pub rotation_deleted: usize,
    /// `daily`, `weekly` or `monthly`.
    pub tier: String,
}

/// A text inside single quotes of a statement: each quote is doubled.
pub open spec fn quoted(s: Seq<char>) -> Seq<char>
    decreases s.len(),
{
    if s.len() == 0 {
        Seq::empty()
    } else if s.last() == '\'' {
        quoted(s.drop_last()).push('\'').push('\'')
    } else {
        quoted(s.drop_last()).push(s.last())
    }
}

/// Doubles the single quotes of a path.
pub fn escape_sql_path(path: &str) -> (r: String)
    ensures
        r@ == quoted(path@),
{
    let v = text::chars_of(path);
    let mut out = String::new();
    let mut i: usize = 0;
    assert(out@ =~= quoted(v@.take(0)));
    while i < v.len()
        invariant
            i <= v@.len(),
            out@ == quoted(v@.take(i as int)),
        decreases v@.len() - i,
    {
        assert(v@.take(i + 1).drop_last() =~= v@.take(i as int));
        if v[i] == '\'' {
            out.push('\'');
            out.push('\'');
        } else {
            out.push(v[i]);
        }
        i += 1;
    }
    assert(v@.take(v@.len() as int) =~= v@);
    out
}

/// How many single quotes there are in a text.
pub open spec fn quotes_in(s: Seq<char>) -> nat
    decreases s.len(),
{
    if s.len() == 0 {
        0
    } else {
        quotes_in(s.drop_last()) + (if s.last() == '\'' {
            1nat
        } else {
            0nat
        })
    }
}

/// A text between quotes, read back: two quotes stand for one.
pub open spec fn unquoted(s: Seq<char>) -> Seq<char>
    decreases s.len(),
{
    if s.len() == 0 {
        Seq::empty()
    } else if s.last() == '\'' && s.len() > 1 {
        unquoted(s.take(s.len() - 2)).push('\'')
    } else {
        unquoted(s.drop_last()).push(s.last())
    }
}

/// A path in quotes is read back as it was: no path leads out of its quotes.
pub proof fn law_quoting_is_faithful(path: Seq<char>)
    ensures
        unquoted(quoted(path)) == path,
        quotes_in(quoted(path)) == 2 * quotes_in(path),
    decreases path.len(),
{
    if path.len() > 0 {
        let p = path.drop_last();
        law_quoting_is_faithful(p);
        let q = quoted(p);
        if path.last() == '\'' {
            let r = q.push('\'').push('\'');
            assert(r.take(r.len() - 2) =~= q);
            assert(r.drop_last() =~= q.push('\''));
            assert(q.push('\'').drop_last() =~= q);
            assert(quotes_in(q.push('\'')) == quotes_in(q) + 1);
            assert(quotes_in(r) == quotes_in(q.push('\'')) + 1);
        } else {
            let r = q.push(path.last());
            assert(r.drop_last() =~= q);
        }
        assert(p.push(path.last()) =~= path);
    }
}

/// The statement that copies the database to a file.
pub fn vacuum_sql(dst: &str) -> (r: String)
    ensures
        r@ == "VACUUM INTO '"@ + quoted(dst@) + "'"@,
{
    text::cat3("VACUUM INTO '", escape_sql_path(dst).as_str(), "'")
}

/// A moment as `YYYYMMDD_hhmmss`.
pub open spec fn stamp_of(m: Moment) -> Seq<char> {
    dates::year_text(m.date.year as int) + dates::padded(m.date.month as nat, 2) + dates::padded(
        m.date.day as nat,
        2,
    ) + "_"@ + dates::padded(m.hour as nat, 2) + dates::padded(m.minute as nat, 2)
        + dates::padded(m.second as nat, 2)
}

/// A moment as `YYYYMMDD_hhmmss`.
pub fn stamp(m: Moment) -> (r: String)
    requires
        m.valid(),
    ensures
        r@ == stamp_of(m),
{
    let mut s = dates::fmt_year(m.date.year);
    s.append(dates::pad(m.date.month as u64, 2).as_str());
    s.append(dates::pad(m.date.day as u64, 2).as_str());
    s.append("_");
    s.append(dates::pad(m.hour as u64, 2).as_str());
    s.append(dates::pad(m.minute as u64, 2).as_str());
    s.append(dates::pad(m.second as u64, 2).as_str());
    s
}

/// The directory of an archive.
pub fn archive_dir(backup_dir: &str, ts: &str) -> (r: String)
    ensures
        r@ == text::in_dir(text::in_dir(backup_dir@, "cli"@), ts@),
{
    text::path_in(text::path_in(backup_dir, "cli").as_str(), ts)
}

/// An archive is made only where none is yet.
pub fn may_create(archive: &str, present: bool) -> (r: Result<(), String>)
    ensures
        match r {
            Ok(()) => !present,
            Err(e) => present && e@ == "refusing to overwrite existing archive: "@ + archive@,
        },
{
    if present {
        Err(text::cat("refusing to overwrite existing archive: ", archive))
    } else {
        Ok(())
    }
}

/// An archive is made only of a database that is there.
pub fn main_present(main_db: &str, present: bool) -> (r: Result<(), String>)
    ensures
        match r {
            Ok(()) => present,
            Err(e) => !present && e@ == "main db not found: "@ + main_db@,
        },
{
    if present {
        Ok(())
    } else {
        Err(text::cat("main db not found: ", main_db))
    }
}

/// The entry of an archive.
pub open spec fn is_entry(e: BackupEntry, name: Seq<char>, sum: Seq<char>, role: Seq<char>) -> bool {
    e.name@ == name && e.sha256@ == sum && e.role@ == role
}

/// The list of an archive with these sums: the main database, and the audit log
/// where there is one.
pub open spec fn lists(
    m: BackupManifest,
    created_at: Seq<char>,
    main_sum: Seq<char>,
    audit_sum: Option<Seq<char>>,
) -> bool {
    &&& m.schema_version == BACKUP_MANIFEST_SCHEMA_VERSION
    &&& m.created_at@ == created_at
    &&& m.entries@.len() == (if audit_sum is Some {
        2nat
    } else {
        1nat
    })
    &&& is_entry(m.entries@[0], "memoria.db"@, main_sum, "main"@)
    &&& audit_sum is Some ==> is_entry(m.entries@[1], "audit.db"@, audit_sum->0, "audit"@)
    &&& text::texts(m.path_allowlist@) == (if audit_sum is Some {
        Seq::empty().push("memoria.db"@).push("audit.db"@)
    } else {
        Seq::empty().push("memoria.db"@)
    })
}

/// Writes the list of an archive.
pub fn backup_create_cli(created_at: &str, main_sum: &str, audit_sum: Option<&str>) -> (m:
    BackupManifest)
    ensures
        lists(m, created_at@, main_sum@, text::opt_str(audit_sum)),
{
    let mut entries: Vec<BackupEntry> = Vec::new();
    let mut path_allowlist: Vec<String> = Vec::new();
    entries.push(
        BackupEntry {
            name: "memoria.db".to_string(),
            sha256: main_sum.to_string(),
            role: "main".to_string(),
        },
    );
    path_allowlist.push("memoria.db".to_string());
    if let Some(sum) = audit_sum {
        entries.push(
            BackupEntry {
                name: "audit.db".to_string(),
                sha256: sum.to_string(),
                role: "audit".to_string(),
            },
        );
        path_allowlist.push("audit.db".to_string());
        assert(text::texts(path_allowlist@) =~= Seq::empty().push("memoria.db"@).push(
            "audit.db"@,
        ));
    } else {
        assert(text::texts(path_allowlist@) =~= Seq::empty().push("memoria.db"@));
    }
    BackupManifest {
        schema_version: BACKUP_MANIFEST_SCHEMA_VERSION,
        created_at: created_at.to_string(),
        entries,
        path_allowlist,
    }
}

/// Only lists of the known version are read.
pub fn check_manifest(schema_version: u32) -> (r: Result<(), String>)
    ensures
        match r {
            Ok(()) => schema_version == BACKUP_MANIFEST_SCHEMA_VERSION,
            Err(e) => schema_version != BACKUP_MANIFEST_SCHEMA_VERSION && e@
                == "unsupported manifest schema_version: "@ + text::dec(schema_version as nat)
                + " (expected "@ + text::dec(BACKUP_MANIFEST_SCHEMA_VERSION as nat) + ")"@,
        },
{
    if schema_version == BACKUP_MANIFEST_SCHEMA_VERSION {
        Ok(())
    } else {
        Err(
            text::cat5(
                "unsupported manifest schema_version: ",
                text::decimal(schema_version as u64).as_str(),
                " (expected ",
                text::decimal(BACKUP_MANIFEST_SCHEMA_VERSION as u64).as_str(),
                ")",
            ),
        )
    }
}

/// What was found of a file of an archive.
#[derive(Debug)]
pub enum FileState {
    Missing,
    /// It could not be read.
    Unreadable(String),
    /// The sum of its bytes, and whether the database in it is sound.
    Sum { sha256: String, sound: bool },
}

/// Why a file of an archive does not hold what the list says; none where it does.
pub open spec fn entry_fault(
    e: BackupEntry,
    allowed: Seq<Seq<char>>,
    state: FileState,
) -> Option<Seq<char>> {
    if !text::listed(allowed, e.name@) {
        Some("entry '"@ + e.name@ + "' not in path_allowlist"@)
    } else {
        match state {
            FileState::Missing => Some("entry file missing: "@ + e.name@),
            FileState::Unreadable(x) => Some(x@),
            FileState::Sum { sha256, sound } => if sha256@ != e.sha256@ {
                Some("sha256 mismatch for "@ + e.name@)
            } else if !sound {
                Some("integrity_check failed for "@ + e.name@)
            } else {
                None
            },
        }
    }
}

/// Tells why a file of an archive does not hold what the list says.
pub fn verify_entry(e: &BackupEntry, allowed: &Vec<String>, state: &FileState) -> (r: Option<
    String,
>)
    ensures
        text::opt_text(r) == entry_fault(*e, text::texts(allowed@), *state),
{
    if !text::is_listed(allowed, e.name.as_str()) {
        return Some(text::cat3("entry '", e.name.as_str(), "' not in path_allowlist"));
    }
    match state {
        FileState::Missing => Some(text::cat("entry file missing: ", e.name.as_str())),
        FileState::Unreadable(x) => Some(x.clone()),
        FileState::Sum { sha256, sound } => if !text::same(sha256.as_str(), e.sha256.as_str()) {
            Some(text::cat("sha256 mismatch for ", e.name.as_str()))
        } else if !*sound {
            Some(text::cat("integrity_check failed for ", e.name.as_str()))
        } else {
            None
        },
    }
}

/// All files of an archive hold what the list says.
pub open spec fn archive_sound(m: BackupManifest, states: Seq<FileState>) -> bool {
    forall|i: int|
        0 <= i < m.entries@.len() ==> entry_fault(
            #[trigger] m.entries@[i],
            text::texts(m.path_allowlist@),
            states[i],
        ) is None
}

/// Holds an archive against its list. `states` holds what was found of each of
/// its files.
pub fn backup_verify_cli(m: &BackupManifest, states: &Vec<FileState>) -> (r: Result<(), String>)
    requires
        states@.len() == m.entries@.len(),
    ensures
        match r {
            Ok(()) => m.schema_version == BACKUP_MANIFEST_SCHEMA_VERSION && archive_sound(
                *m,
                states@,
            ),
            Err(e) => if m.schema_version != BACKUP_MANIFEST_SCHEMA_VERSION {
                e@ == "unsupported manifest schema_version: "@ + text::dec(
                    m.schema_version as nat,
                ) + " (expected "@ + text::dec(BACKUP_MANIFEST_SCHEMA_VERSION as nat) + ")"@
            } else {
                !archive_sound(*m, states@) && e@ == "one or more entries failed verification"@
            },
        },
{
    match check_manifest(m.schema_version) {
        Ok(()) => {},
        Err(e) => {
            return Err(e);
        },
    }
    let mut i: usize = 0;
    while i < m.entries.len()
        invariant
            i <= m.entries@.len(),
            m.schema_version == BACKUP_MANIFEST_SCHEMA_VERSION,
            states@.len() == m.entries@.len(),
            forall|k: int|
                0 <= k < i ==> entry_fault(
                    #[trigger] m.entries@[k],
                    text::texts(m.path_allowlist@),
                    states@[k],
                ) is None,
        decreases m.entries@.len() - i,
    {
        if verify_entry(&m.entries[i], &m.path_allowlist, &states[i]).is_some() {
            assert(entry_fault(
                m.entries@[i as int],
                text::texts(m.path_allowlist@),
                states@[i as int],
            ) is Some);
            return Err("one or more entries failed verification".to_string());
        }
        i += 1;
    }
    Ok(())
}

/// An archive is verified with the list that was written for it as long as its
/// files have the sums that they had then.
pub proof fn law_created_archive_verifies(
    m: BackupManifest,
    created_at: Seq<char>,
    main_sum: Seq<char>,
    audit_sum: Option<Seq<char>>,
    states: Seq<FileState>,
)
    requires
        lists(m, created_at, main_sum, audit_sum),
        states.len() == m.entries@.len(),
        states[0] matches FileState::Sum { sha256, sound } && sha256@ == main_sum && sound,
        audit_sum is Some ==> (states[1] matches FileState::Sum { sha256, sound } && sha256@
            == audit_sum->0 && sound),
    ensures
        m.schema_version == BACKUP_MANIFEST_SCHEMA_VERSION,
        archive_sound(m, states),
{
    let allowed = text::texts(m.path_allowlist@);
    assert(allowed[0] == "memoria.db"@);
    assert(text::listed(allowed, "memoria.db"@));
    if audit_sum is Some {
        assert(allowed[1] == "audit.db"@);
        assert(text::listed(allowed, "audit.db"@));
    }
}

/// A file that was changed is found out: where an archive is verified, each of its
/// files is one that may occur, and has the sum in the list.
pub proof fn law_verified_archive_is_unchanged(m: BackupManifest, states: Seq<FileState>, i: int)
    requires
        archive_sound(m, states),
        0 <= i < m.entries@.len(),
    ensures
        text::listed(text::texts(m.path_allowlist@), m.entries@[i].name@),
        states[i] matches FileState::Sum { sha256, sound } && sha256@ == m.entries@[i].sha256@
            && sound,
{
    assert(entry_fault(m.entries@[i], text::texts(m.path_allowlist@), states[i]) is None);
}

/// A restore writes only to a path where there is nothing yet.
pub fn check_fresh_target(target: &str, present: bool) -> (r: Result<(), String>)
    ensures
        match r {
            Ok(()) => !present,
            Err(e) => present && e@ == "refusing to restore over existing target '"@ + target@
                + "' (fresh-target-only policy).\n[Memoria] Stop the service, move the live db aside, then restore into a fresh path\n[Memoria] (e.g. '"@
                + target@ + "'.restored) and swap manually after verification."@,
        },
{
    if present {
        Err(
            text::cat5(
                "refusing to restore over existing target '",
                target,
                "' (fresh-target-only policy).\n[Memoria] Stop the service, move the live db aside, then restore into a fresh path\n[Memoria] (e.g. '",
                target,
                "'.restored) and swap manually after verification.",
            ),
        )
    } else {
        Ok(())
    }
}

/// Where a file of an archive is put: none for one of an unknown role. The audit
/// log goes beside the main database where no place is given.
pub open spec fn restore_target_of(
    role: Seq<char>,
    target_main: Seq<char>,
    main_parent: Seq<char>,
    target_audit: Option<Seq<char>>,
) -> Option<Seq<char>> {
    if role == "main"@ {
        Some(target_main)
    } else if role == "audit"@ {
        match target_audit {
            Some(t) => Some(t),
            None => Some(text::in_dir(main_parent, "audit.db"@)),
        }
    } else {
        None
    }
}

/// Where a file of an archive is put.
pub fn restore_target(
    role: &str,
    target_main: &str,
    main_parent: &str,
    target_audit: Option<&str>,
) -> (r: Option<String>)
    ensures
        text::opt_text(r) == restore_target_of(
            role@,
            target_main@,
            main_parent@,
            text::opt_str(target_audit),
        ),
{
    if text::same(role, "main") {
        Some(target_main.to_string())
    } else if text::same(role, "audit") {
        match target_audit {
            Some(t) => Some(t.to_string()),
            None => Some(text::path_in(main_parent, "audit.db")),
        }
    } else {
        None
    }
}

/// What is done with a file of an archive.
#[derive(Debug)]
pub enum RestoreStep {
    /// Its role is not known.
    Skip,
    Refuse(String),
    /// It is put to `target`, in the directory `parent`.
    Put { target: String, parent: String },
}

/// What is done with a file of an archive that goes to `target`.
pub open spec fn restores(
    name: Seq<char>,
    present: bool,
    target: Option<Seq<char>>,
    occupied: bool,
    r: RestoreStep,
) -> bool {
    if !present {
        r matches RestoreStep::Refuse(e) && e@ == "archive entry missing: "@ + name
    } else {
        match target {
            None => r is Skip,
            Some(t) => if occupied {
                r matches RestoreStep::Refuse(e) && e@ == "refusing to restore over existing target '"@ + t
                    + "' (fresh-target-only)"@
            } else {
                match paths::parent_of(t) {
                    None => r matches RestoreStep::Refuse(e) && e@ == "invalid audit target path"@,
                    Some(p) => r matches RestoreStep::Put { target, parent } && target@ == t
                        && parent@ == p,
                }
            },
        }
    }
}

/// Decides what is done with a file of an archive. `present` tells whether the
/// file is there, `occupied` whether something is where it goes.
pub fn backup_restore_cli(name: &str, present: bool, target: Option<String>, occupied: bool) -> (r:
    RestoreStep)
    ensures
        restores(name@, present, text::opt_text(target), occupied, r),
{
    if !present {
        return RestoreStep::Refuse(text::cat("archive entry missing: ", name));
    }
    match target {
        None => RestoreStep::Skip,
        Some(t) => {
            if occupied {
                return RestoreStep::Refuse(
                    text::cat3(
                        "refusing to restore over existing target '",
                        t.as_str(),
                        "' (fresh-target-only)",
                    ),
                );
            }
            match paths::parent(t.as_str()) {
                None => RestoreStep::Refuse("invalid audit target path".to_string()),
                Some(parent) => RestoreStep::Put { target: t, parent },
            }
        },
    }
}

/// A restore never writes over what is there.
pub proof fn law_restore_never_overwrites(
    name: Seq<char>,
    present: bool,
    target: Option<Seq<char>>,
    occupied: bool,
    r: RestoreStep,
)
    requires
        restores(name, present, target, occupied, r),
        r is Put,
    ensures
        !occupied,
        present,
        target is Some,
        r->target@ == target->0,
{
}

/// What the command line asks for.
#[derive(Debug)]
pub enum BackupCommand {
    Create,
    Verify { archive: String },
    Restore { archive: String, target_main: String, target_audit: Option<String> },
}

/// How the command line is used.
pub const BACKUP_USAGE: &'static str = "usage: memoria-server backup <create|verify|restore> [args]\ncreate\nverify <archive_dir>\nrestore <archive_dir> <target_main_db> [target_audit_db]";

/// What the command line asks for.
pub open spec fn commands(args: Seq<Seq<char>>, r: Result<BackupCommand, String>) -> bool {
    if args.len() == 0 {
        r matches Err(e) && e@ == BACKUP_USAGE@
    } else if args[0] == "create"@ {
        r matches Ok(BackupCommand::Create)
    } else if args[0] == "verify"@ {
        if args.len() < 2 {
            r matches Err(e) && e@ == "verify requires <archive_dir>"@
        } else {
            r matches Ok(BackupCommand::Verify { archive }) && archive@ == args[1]
        }
    } else if args[0] == "restore"@ {
        if args.len() < 2 {
            r matches Err(e) && e@ == "restore requires <archive_dir>"@
        } else if args.len() < 3 {
            r matches Err(e) && e@ == "restore requires <target_main_db>"@
        } else {
            &&& r matches Ok(BackupCommand::Restore { archive, target_main, target_audit })
            &&& archive@ == args[1]
            &&& target_main@ == args[2]
            &&& text::opt_text(target_audit) == (if args.len() > 3 {
                Some(args[3])
            } else {
                None
            })
        }
    } else {
        r matches Err(e) && e@ == "unknown backup subcommand: "@ + args[0]
            + " (expected create|verify|restore)"@
    }
}

/// Reads the command line.
pub fn run_backup_cli(args: &Vec<String>) -> (r: Result<BackupCommand, String>)
    ensures
        commands(text::texts(args@), r),
{
    if args.len() == 0 {
        return Err(BACKUP_USAGE.to_string());
    }
    let first = args[0].as_str();
    if text::same(first, "create") {
        Ok(BackupCommand::Create)
    } else if text::same(first, "verify") {
        if args.len() < 2 {
            return Err("verify requires <archive_dir>".to_string());
        }
        Ok(BackupCommand::Verify { archive: args[1].clone() })
    } else if text::same(first, "restore") {
        if args.len() < 2 {
            return Err("restore requires <archive_dir>".to_string());
        }
        if args.len() < 3 {
            return Err("restore requires <target_main_db>".to_string());
        }
        let target_audit = if args.len() > 3 {
            Some(args[3].clone())
        } else {
            None
        };
        Ok(
            BackupCommand::Restore {
                archive: args[1].clone(),
                target_main: args[2].clone(),
                target_audit,
            },
        )
    } else {
        Err(text::cat3("unknown backup subcommand: ", first, " (expected create|verify|restore)"))
    }
}

/// A configured path, else `name` in the directory of the database.
pub open spec fn beside(db_path: Seq<char>, configured: Option<Seq<char>>, name: Seq<char>) -> Seq<
    char,
> {
    match configured {
        Some(p) => p,
        None => text::in_dir(
            match paths::parent_of(db_path) {
                Some(d) => d,
                None => "."@,
            },
            name,
        ),
    }
}

/// A configured path, else `name` in the directory of the database.
pub fn path_beside(db_path: &str, configured: Option<&str>, name: &str) -> (r: String)
    ensures
        r@ == beside(db_path@, text::opt_str(configured), name@),
{
    match configured {
        Some(p) => p.to_string(),
        None => {
            let d = match paths::parent(db_path) {
                Some(d) => d,
                None => ".".to_string(),
            };
            text::path_in(d.as_str(), name)
        },
    }
}

/// The database, the audit log and the directory of the backups, by their
/// variables.
pub fn backup_paths(db: Option<&str>, auth_db: Option<&str>, dir: Option<&str>) -> (r: (
    String,
    String,
    String,
))
    ensures
        r.0@ == (match db {
            Some(p) => p@,
            None => "data/memoria.db"@,
        }),
        r.1@ == beside(r.0@, text::opt_str(auth_db), "audit.db"@),
        r.2@ == beside(r.0@, text::opt_str(dir), "backups"@),
{
    let db_path = match db {
        Some(p) => p.to_string(),
        None => "data/memoria.db".to_string(),
    };
    let auth_path = path_beside(db_path.as_str(), auth_db, "audit.db");
    let backup_dir = path_beside(db_path.as_str(), dir, "backups");
    (db_path, auth_path, backup_dir)
}

/// How many daily backups are kept.
pub const DAILY_RETENTION: usize = 7;

/// How many weekly backups are kept.
pub const WEEKLY_RETENTION: usize = 4;

/// How many monthly backups are kept.
pub const MONTHLY_RETENTION: usize = 3;

/// The space on disk that a backup needs.
pub const MIN_DISK_SPACE_BYTES: u64 = 524288000;

/// The tier of a backup: monthly on the first of a month, else weekly on a
/// Monday, else daily. The week begins with day 1.
pub open spec fn tier_on(day: int, weekday: int) -> Seq<char> {
    if day <= 1 {
        "monthly"@
    } else if weekday == 1 {
        "weekly"@
    } else {
        "daily"@
    }
}

/// The tier of a backup on the given day of the month and of the week.
pub fn tier_of(day: u32, weekday: u32) -> (r: &'static str)
    ensures
        r@ == tier_on(day as int, weekday as int),
{
    if day <= 1 {
        "monthly"
    } else if weekday == 1 {
        "weekly"
    } else {
        "daily"
    }
}

/// The tier of a backup that is made on a day.
pub fn tier_at(date: dates::Date) -> (r: &'static str)
    requires
        date.valid(),
    ensures
        r@ == tier_on(date.day as int, dates::weekday_of(date) + 1),
{
    tier_of(date.day, dates::weekday(date) + 1)
}

/// How many backups of a tier are kept; none for an unknown tier.
pub open spec fn kept_of(tier: Seq<char>) -> Option<nat> {
    if tier == "daily"@ {
        Some(DAILY_RETENTION as nat)
    } else if tier == "weekly"@ {
        Some(WEEKLY_RETENTION as nat)
    } else if tier == "monthly"@ {
        Some(MONTHLY_RETENTION as nat)
    } else {
        None
    }
}

/// How many backups of a tier are kept.
pub fn retention_of(tier: &str) -> (r: Option<usize>)
    ensures
        match r {
            Some(n) => kept_of(tier@) == Some(n as nat),
            None => kept_of(tier@) is None,
        },
{
    if text::same(tier, "daily") {
        Some(DAILY_RETENTION)
    } else if text::same(tier, "weekly") {
        Some(WEEKLY_RETENTION)
    } else if text::same(tier, "monthly") {
        Some(MONTHLY_RETENTION)
    } else {
        None
    }
}

/// Where a backup goes: its directory, its file, and the two files of the vector
/// index.
#[derive(Debug)]
pub struct BackupFiles {
    pub tier: &'static str,
    pub directory: String,
    pub database: String,
    pub index: String,
    pub index_keys: String,
}

/// These are the places of a backup that is made at a moment.
pub open spec fn places(r: BackupFiles, backup_dir: Seq<char>, now: Moment) -> bool {
    &&& r.tier@ == tier_on(now.date.day as int, dates::weekday_of(now.date) + 1)
    &&& r.directory@ == text::in_dir(backup_dir, r.tier@)
    &&& r.database@ == text::in_dir(r.directory@, "memoria_"@ + stamp_of(now) + ".db"@)
    &&& r.index@ == text::in_dir(r.directory@, "hnsw_vectors_"@ + stamp_of(now) + ".bin"@)
    &&& r.index_keys@ == text::in_dir(r.directory@, "hnsw_vectors_"@ + stamp_of(now) + ".json"@)
}

/// Settles where a backup that is made at a moment goes.
pub fn backup_files(backup_dir: &str, now: Moment) -> (r: BackupFiles)
    requires
        now.valid(),
    ensures
        places(r, backup_dir@, now),
{
    let tier = tier_at(now.date);
    let directory = text::path_in(backup_dir, tier);
    let ts = stamp(now);
    let database = text::path_in(directory.as_str(), text::cat3("memoria_", ts.as_str(), ".db").as_str());
    let index = text::path_in(directory.as_str(), text::cat3("hnsw_vectors_", ts.as_str(), ".bin").as_str());
    let index_keys = text::path_in(
        directory.as_str(),
        text::cat3("hnsw_vectors_", ts.as_str(), ".json").as_str(),
    );
    BackupFiles { tier, directory, database, index, index_keys }
}

/// Settles where a backup that is made now goes.
pub fn perform_backup(backup_dir: &str) -> (r: BackupFiles)
    ensures
        exists|now: Moment| #[trigger] clock::shown(now) && places(r, backup_dir@, now),
{
    let now = clock::utc_now();
    let f = backup_files(backup_dir, now);
    assert(clock::shown(now));
    f
}

/// The space that is free: so many blocks of so many bytes each.
#[derive(Debug, Clone, Copy)]
pub struct FreeSpace {
    pub blocks: u64,
    pub block_size: u64,
}

impl FreeSpace {
    pub open spec fn bytes(self) -> int {
        self.blocks * self.block_size
    }
}

/// Whether there is space for a backup. Where the system could not be asked, there
/// is.
pub fn check_disk_space(free: Option<FreeSpace>) -> (r: Result<(), String>)
    ensures
        match r {
            Ok(()) => free is Some ==> free->0.bytes() >= MIN_DISK_SPACE_BYTES,
            Err(e) => free is Some && free->0.bytes() < MIN_DISK_SPACE_BYTES && e@
                == "disk space low: "@ + text::dec((free->0.bytes() / 1048576) as nat)
                + " MB available, need "@ + text::dec((MIN_DISK_SPACE_BYTES / 1048576) as nat)
                + " MB"@,
        },
{
    match free {
        None => Ok(()),
        Some(f) => {
            let blocks = f.blocks;
            let size = f.block_size;
            assert(0 <= blocks * size <= 0xffff_ffff_ffff_ffff * 0xffff_ffff_ffff_ffff)
                by (nonlinear_arith)
                requires
                    blocks <= 0xffff_ffff_ffff_ffff,
                    size <= 0xffff_ffff_ffff_ffff,
            ;
            let bytes: u128 = blocks as u128 * size as u128;
            if bytes < MIN_DISK_SPACE_BYTES as u128 {
                Err(
                    text::cat5(
                        "disk space low: ",
                        text::decimal((bytes / 1048576) as u64).as_str(),
                        " MB available, need ",
                        text::decimal(MIN_DISK_SPACE_BYTES / 1048576).as_str(),
                        " MB",
                    ),
                )
            } else {
                Ok(())
            }
        },
    }
}

/// A file of a backup directory, with the time of its last change.
#[derive(Debug)]
pub struct BackupFile {
    pub name: String,
    pub modified: u64,
}

/// `a` stands before `b` or wherever it likes: it is not younger, or, where the
/// newest come first, not older.
pub open spec fn in_order(a: BackupFile, b: BackupFile, newest_first: bool) -> bool {
    if newest_first {
        a.modified >= b.modified
    } else {
        a.modified <= b.modified
    }
}

/// A sorted list with one more file, behind those that it does not have to stand
/// before.
pub open spec fn inserted(s: Seq<BackupFile>, f: BackupFile, newest_first: bool) -> Seq<BackupFile>
    decreases s.len(),
{
    if s.len() == 0 || in_order(s.last(), f, newest_first) {
        s.push(f)
    } else {
        inserted(s.drop_last(), f, newest_first).push(s.last())
    }
}

/// The files by the time of their last change; those of the same time stay in
/// their order.
pub open spec fn by_age(files: Seq<BackupFile>, newest_first: bool) -> Seq<BackupFile>
    decreases files.len(),
{
    if files.len() == 0 {
        Seq::empty()
    } else {
        inserted(by_age(files.drop_last(), newest_first), files.last(), newest_first)
    }
}

/// The files are sorted.
pub open spec fn sorted_by_age(s: Seq<BackupFile>, newest_first: bool) -> bool {
    forall|i: int, j: int|
        0 <= i < j < s.len() ==> in_order(#[trigger] s[i], #[trigger] s[j], newest_first)
}

proof fn lemma_inserted(s: Seq<BackupFile>, f: BackupFile, newest_first: bool)
    requires
        sorted_by_age(s, newest_first),
    ensures
        sorted_by_age(inserted(s, f, newest_first), newest_first),
        inserted(s, f, newest_first).to_multiset() == s.to_multiset().insert(f),
        inserted(s, f, newest_first).len() == s.len() + 1,
        forall|g: BackupFile| #[trigger]
            inserted(s, f, newest_first).contains(g) ==> s.contains(g) || g == f,
    decreases s.len(),
{
    broadcast use vstd::seq_lib::group_to_multiset_ensures;

    let r = inserted(s, f, newest_first);
    if s.len() == 0 || in_order(s.last(), f, newest_first) {
        assert forall|i: int, j: int| 0 <= i < j < r.len() implies in_order(
            #[trigger] r[i],
            #[trigger] r[j],
            newest_first,
        ) by {
            if j == s.len() {
                assert(in_order(s[i], s.last(), newest_first));
            }
        }
    } else {
        let p = s.drop_last();
        lemma_inserted(p, f, newest_first);
        let q = inserted(p, f, newest_first);
        assert(s =~= p.push(s.last()));
        assert(r.to_multiset() =~= s.to_multiset().insert(f));
        assert forall|i: int, j: int| 0 <= i < j < r.len() implies in_order(
            #[trigger] r[i],
            #[trigger] r[j],
            newest_first,
        ) by {
            if j == q.len() {
                assert(q.contains(q[i]));
                if p.contains(q[i]) {
                    let k = choose|k: int| 0 <= k < p.len() && p[k] == q[i];
                    assert(in_order(s[k], s[s.len() - 1], newest_first));
                }
            } else {
                assert(r[i] == q[i] && r[j] == q[j]);
            }
        }
        assert forall|g: BackupFile| #[trigger] r.contains(g) implies s.contains(g) || g == f by {
            let k = choose|k: int| 0 <= k < r.len() && r[k] == g;
            if k < q.len() {
                assert(q.contains(q[k]));
                if p.contains(g) {
                    let m = choose|m: int| 0 <= m < p.len() && p[m] == g;
                    assert(s[m] == g);
                }
            } else {
                assert(s[s.len() - 1] == g);
            }
        }
    }
}

/// Sorting by age sorts, and neither loses nor makes a file.
pub proof fn law_by_age_sorts(files: Seq<BackupFile>, newest_first: bool)
    ensures
        sorted_by_age(by_age(files, newest_first), newest_first),
        by_age(files, newest_first).to_multiset() == files.to_multiset(),
        by_age(files, newest_first).len() == files.len(),
    decreases files.len(),
{
    broadcast use vstd::seq_lib::group_to_multiset_ensures;

    if files.len() > 0 {
        let p = files.drop_last();
        law_by_age_sorts(p, newest_first);
        lemma_inserted(by_age(p, newest_first), files.last(), newest_first);
        assert(files =~= p.push(files.last()));
    }
}

fn are_in_order(a: &BackupFile, b: &BackupFile, newest_first: bool) -> (r: bool)
    ensures
        r == in_order(*a, *b, newest_first),
{
    if newest_first {
        a.modified >= b.modified
    } else {
        a.modified <= b.modified
    }
}

fn insert_file(s: Vec<BackupFile>, f: BackupFile, newest_first: bool) -> (r: Vec<BackupFile>)
    ensures
        r@ == inserted(s@, f, newest_first),
{
    let mut s = s;
    let ghost all = s@;
    let mut tail: Vec<BackupFile> = Vec::new();
    assert(tail@.reverse() =~= Seq::empty());
    assert(all =~= s@ + tail@.reverse());
    while s.len() > 0 && !are_in_order(&s[s.len() - 1], &f, newest_first)
        invariant
            inserted(all, f, newest_first) == inserted(s@, f, newest_first) + tail@.reverse(),
        decreases s@.len(),
    {
        let ghost before = s@;
        let ghost tail0 = tail@;
        let last = s.pop();
        match last {
            Some(x) => {
                tail.push(x);
                assert(s@ =~= before.drop_last());
                assert(tail@.reverse() =~= seq![x] + tail0.reverse());
                assert(inserted(before, f, newest_first) == inserted(s@, f, newest_first).push(x));
                assert(inserted(s@, f, newest_first).push(x) + tail0.reverse() =~= inserted(
                    s@,
                    f,
                    newest_first,
                ) + tail@.reverse());
            },
            None => {},
        }
    }
    let ghost base = s@;
    s.push(f);
    assert(s@ == inserted(base, f, newest_first));
    let ghost want = inserted(all, f, newest_first);
    assert(s@ + tail@.reverse() == want);
    while tail.len() > 0
        invariant
            s@ + tail@.reverse() == want,
        decreases tail@.len(),
    {
        let ghost s0 = s@;
        let ghost tail0 = tail@;
        let last = tail.pop();
        match last {
            Some(x) => {
                s.push(x);
                assert(tail0.reverse() =~= seq![x] + tail@.reverse());
                assert(s0 + (seq![x] + tail@.reverse()) =~= s@ + tail@.reverse());
            },
            None => {},
        }
    }
    assert(tail@.reverse() =~= Seq::empty());
    assert(s@ + Seq::empty() =~= s@);
    s
}

/// The files in the opposite order.
fn reversed(files: Vec<BackupFile>) -> (r: Vec<BackupFile>)
    ensures
        r@ == files@.reverse(),
{
    let ghost all = files@;
    let mut rest = files;
    let mut out: Vec<BackupFile> = Vec::new();
    while rest.len() > 0
        invariant
            all == rest@ + out@.reverse(),
        decreases rest@.len(),
    {
        let ghost rest0 = rest@;
        let ghost out0 = out@;
        let last = rest.pop();
        match last {
            Some(x) => {
                out.push(x);
                assert(out@.reverse() =~= seq![x] + out0.reverse());
                assert(rest0 + out0.reverse() =~= rest@ + out@.reverse());
            },
            None => {},
        }
    }
    assert(out@.reverse() =~= all);
    assert(out@ =~= all.reverse());
    out
}

/// Sorts files by the time of their last change.
pub fn sort_by_age(files: Vec<BackupFile>, newest_first: bool) -> (r: Vec<BackupFile>)
    ensures
        r@ == by_age(files@, newest_first),
{
    let ghost all = files@;
    let mut queue = reversed(files);
    let mut out: Vec<BackupFile> = Vec::new();
    let ghost mut n: int = 0;
    assert(out@ =~= by_age(all.take(0), newest_first));
    while queue.len() > 0
        invariant
            0 <= n <= all.len(),
            queue@.len() == all.len() - n,
            forall|k: int|
                0 <= k < queue@.len() ==> #[trigger] queue@[k] == all[all.len() - 1 - k],
            out@ == by_age(all.take(n), newest_first),
        decreases queue@.len(),
    {
        let ghost queue0 = queue@;
        let last = queue.pop();
        match last {
            Some(x) => {
                assert(queue0[queue0.len() - 1] == all[n]);
                assert(all.take(n + 1).drop_last() =~= all.take(n));
                out = insert_file(out, x, newest_first);
                proof {
                    n = n + 1;
                }
            },
            None => {},
        }
    }
    assert(all.take(n) =~= all);
    out
}

/// The backups among the files of a directory: those with the extension `db`.
pub open spec fn backups_in(files: Seq<BackupFile>) -> Seq<BackupFile>
    decreases files.len(),
{
    if files.len() == 0 {
        Seq::empty()
    } else if paths::extension_of(files.last().name@) == Some("db"@) {
        backups_in(files.drop_last()).push(files.last())
    } else {
        backups_in(files.drop_last())
    }
}

/// The backups that are deleted: the oldest, up to the number that is kept.
pub open spec fn outdated(files: Seq<BackupFile>, tier: Seq<char>) -> Seq<BackupFile> {
    let b = backups_in(files);
    match kept_of(tier) {
        Some(n) => if b.len() <= n {
            Seq::empty()
        } else {
            by_age(b, false).take(b.len() - n)
        },
        None => Seq::empty(),
    }
}

/// The files that go with a backup: its own, and those of an index with the same name.
pub open spec fn companions(name: Seq<char>) -> Seq<Seq<char>> {
    let s = name.take(paths::stem_len(name));
    seq![name, s + ".bin"@, s + ".json"@]
}

/// The names of the files that are removed with a backup.
pub fn files_of(name: &str) -> (r: Vec<String>)
    ensures
        text::texts(r@) == companions(name@),
{
    let s = paths::stem(name);
    let mut v: Vec<String> = Vec::new();
    v.push(name.to_string());
    v.push(text::cat(s.as_str(), ".bin"));
    v.push(text::cat(s.as_str(), ".json"));
    assert(text::texts(v@) =~= companions(name@));
    v
}

/// Picks the backups of a tier that are deleted, the oldest first.
pub fn rotate_backups(files: Vec<BackupFile>, tier: &str) -> (r: Vec<BackupFile>)
    ensures
        r@ == outdated(files@, tier@),
{
    let keep = match retention_of(tier) {
        Some(n) => n,
        None => {
            return Vec::new();
        },
    };
    let ghost all = files@;
    let mut queue = reversed(files);
    let mut backups: Vec<BackupFile> = Vec::new();
    let ghost mut n: int = 0;
    assert(backups@ =~= backups_in(all.take(0)));
    while queue.len() > 0
        invariant
            0 <= n <= all.len(),
            queue@.len() == all.len() - n,
            forall|k: int|
                0 <= k < queue@.len() ==> #[trigger] queue@[k] == all[all.len() - 1 - k],
            backups@ == backups_in(all.take(n)),
        decreases queue@.len(),
    {
        let ghost queue0 = queue@;
        let last = queue.pop();
        match last {
            Some(x) => {
                assert(queue0[queue0.len() - 1] == all[n]);
                assert(all.take(n + 1).drop_last() =~= all.take(n));
                if paths::has_extension(x.name.as_str(), "db") {
                    backups.push(x);
                }
                proof {
                    n = n + 1;
                }
            },
            None => {},
        }
    }
    assert(all.take(n) =~= all);
    let count = backups.len();
    if count <= keep {
        return Vec::new();
    }
    let mut sorted = sort_by_age(backups, false);
    proof {
        law_by_age_sorts(backups_in(all), false);
    }
    sorted.truncate(count - keep);
    assert(sorted@ =~= by_age(backups_in(all), false).take(count - keep));
    sorted
}

/// A rotation keeps as many backups as the tier asks for, and those the youngest:
/// none of the deleted ones is younger than one that stays.
pub proof fn law_rotation_keeps_the_youngest(files: Seq<BackupFile>, tier: Seq<char>)
    requires
        kept_of(tier) is Some,
    ensures
        backups_in(files).len() - outdated(files, tier).len() == (if backups_in(files).len()
            <= kept_of(tier)->0 {
            backups_in(files).len()
        } else {
            kept_of(tier)->0
        }),
        outdated(files, tier) == by_age(backups_in(files), false).take(
            outdated(files, tier).len() as int,
        ),
        forall|i: int, j: int|
            0 <= i < outdated(files, tier).len() <= j < backups_in(files).len()
                ==> (#[trigger] by_age(backups_in(files), false)[i]).modified <= (
            #[trigger] by_age(backups_in(files), false)[j]).modified,
{
    law_by_age_sorts(backups_in(files), false);
    let s = by_age(backups_in(files), false);
    assert(s.take(0) =~= Seq::empty());
    assert forall|i: int, j: int|
        0 <= i < outdated(files, tier).len() <= j < backups_in(
            files,
        ).len() implies (#[trigger] s[i]).modified <= (#[trigger] s[j]).modified by {
        assert(in_order(s[i], s[j], false));
    }
}

/// What is done to put a backup in the place of a database.
#[derive(Debug)]
pub struct RestorePlan {
    pub directory: String,
    /// The backup is copied here first, then renamed.
    pub temporary: String,
    /// The two files that belong to the old contents.
    pub wal: String,
    pub shm: String,
}

/// Settles how a backup is put in the place of a database. One that is not there
/// or not sound is refused.
pub fn restore_from_backup(backup: &str, present: bool, sound: bool, target: &str) -> (r: Result<
    RestorePlan,
    String,
>)
    ensures
        if !present {
            r matches Err(e) && e@ == "backup file not found: "@ + backup@
        } else if !sound {
            r matches Err(e) && e@ == "backup file failed integrity_check — refusing to restore"@
        } else {
            match paths::parent_of(target@) {
                None => r matches Err(e) && e@ == "invalid target path"@,
                Some(d) => {
                    &&& r matches Ok(p)
                    &&& p.directory@ == d
                    &&& p.temporary@ == paths::extended(target@, "db.restoring"@)
                    &&& p.wal@ == paths::extended(target@, "db-wal"@)
                    &&& p.shm@ == paths::extended(target@, "db-shm"@)
                },
            }
        },
{
    if !present {
        return Err(text::cat("backup file not found: ", backup));
    }
    if !sound {
        return Err("backup file failed integrity_check — refusing to restore".to_string());
    }
    match paths::parent(target) {
        None => Err("invalid target path".to_string()),
        Some(directory) => Ok(
            RestorePlan {
                directory,
                temporary: paths::with_extension(target, "db.restoring"),
                wal: paths::with_extension(target, "db-wal"),
                shm: paths::with_extension(target, "db-shm"),
            },
        ),
    }
}

/// A file in a directory of backups. `megabytes` is its size as it is shown.
#[derive(Debug)]
pub struct ListedFile {
    pub name: String,
    pub size: u64,
    pub megabytes: String,
    pub modified: i64,
    pub modified_ts: u64,
}

pub open spec fn file_shown(f: ListedFile) -> JsonView {
    JsonView::empty().with("name"@, JsonView::Text(f.name@)).with(
        "size_bytes"@,
        JsonView::Number(NumberView::Unsigned(f.size)),
    ).with("size_mb"@, JsonView::Number(NumberView::Real(f.megabytes@))).with(
        "modified_ts"@,
        JsonView::Number(NumberView::Unsigned(f.modified_ts)),
    )
}

pub open spec fn ages_of(files: Seq<ListedFile>) -> Seq<i64> {
    Seq::new(files.len(), |i: int| files[i].modified)
}

/// The files of a directory as they are shown: the youngest first.
pub open spec fn files_shown(files: Seq<ListedFile>) -> Seq<JsonView> {
    let order = ranking::ranked(ages_of(files), files.len() as int);
    Seq::new(order.len(), |i: int| file_shown(files[order[i]]))
}

fn show_file(f: &ListedFile) -> (r: Json)
    ensures
        r@ == file_shown(*f),
{
    let o = json::with(json::empty_object(), "name", json::string(f.name.as_str()));
    let o = json::with(o, "size_bytes", json::unsigned(f.size));
    let o = json::with(
        o,
        "size_mb",
        Json::Number(Number::Real(f.megabytes.as_str().to_string())),
    );
    json::with(o, "modified_ts", json::unsigned(f.modified_ts))
}

fn show_files(files: &Vec<ListedFile>) -> (r: Json)
    ensures
        r@ == JsonView::Array(files_shown(files@)),
{
    let mut keys: Vec<i64> = Vec::new();
    let mut i: usize = 0;
    while i < files.len()
        invariant
            i <= files@.len(),
            keys@ == ages_of(files@).take(i as int),
        decreases files@.len() - i,
    {
        keys.push(files[i].modified);
        assert(keys@ =~= ages_of(files@).take(i + 1));
        i += 1;
    }
    assert(keys@ =~= ages_of(files@));
    let order = ranking::rank(&keys);
    assert forall|j: int| 0 <= j < order@.len() implies #[trigger] order@[j] < files@.len() by {
        assert(ranking::indices(order@)[j] == order@[j]);
    }
    let mut out: Vec<Json> = Vec::new();
    let mut k: usize = 0;
    let ghost want = files_shown(files@);
    while k < order.len()
        invariant
            k <= order@.len(),
            out@.len() == k,
            want == files_shown(files@),
            order@.len() == want.len(),
            forall|j: int|
                0 <= j < order@.len() ==> (#[trigger] order@[j]) as int == ranking::ranked(
                    ages_of(files@),
                    files@.len() as int,
                )[j],
            forall|j: int| 0 <= j < order@.len() ==> #[trigger] order@[j] < files@.len(),
            forall|j: int| 0 <= j < k ==> (#[trigger] out@[j])@ == want[j],
        decreases order@.len() - k,
    {
        out.push(show_file(&files[order[k]]));
        k += 1;
    }
    let r = Json::Array(out);
    assert(r@->Array_0 =~= want);
    r
}

/// The backups that there are, by how long they are kept.
pub open spec fn all_shown(
    daily: Seq<ListedFile>,
    weekly: Seq<ListedFile>,
    monthly: Seq<ListedFile>,
) -> JsonView {
    JsonView::empty().with("daily"@, JsonView::Array(files_shown(daily))).with(
        "weekly"@,
        JsonView::Array(files_shown(weekly)),
    ).with("monthly"@, JsonView::Array(files_shown(monthly)))
}

/// The backups that there are, by how long they are kept; the youngest first.
pub fn list_backups(daily: &Vec<ListedFile>, weekly: &Vec<ListedFile>, monthly: &Vec<ListedFile>) -> (r:
    Json)
    ensures
        r@ == all_shown(daily@, weekly@, monthly@),
{
    let o = json::with(json::empty_object(), "daily", show_files(daily));
    let o = json::with(o, "weekly", show_files(weekly));
    json::with(o, "monthly", show_files(monthly))
}

/// The first day of a month makes a monthly backup, any other Monday a weekly one, and any other
/// day a daily one; of these the last three, four and seven are kept.
pub proof fn law_tiers_are_kept_as_long_as_they_say(day: int, weekday: int, files: Seq<BackupFile>)
    requires
        1 <= day <= 31,
        1 <= weekday <= 7,
    ensures
        tier_on(day, weekday) == if day == 1 {
            "monthly"@
        } else if weekday == 1 {
            "weekly"@
        } else {
            "daily"@
        },
        ({
            let n = backups_in(files).len() as int;
            &&& outdated(files, "daily"@).len() == if n > 7 {
                n - 7
            } else {
                0
            }
            &&& outdated(files, "weekly"@).len() == if n > 4 {
                n - 4
            } else {
                0
            }
            &&& outdated(files, "monthly"@).len() == if n > 3 {
                n - 3
            } else {
                0
            }
        }),
{
    reveal_strlit("daily");
    reveal_strlit("weekly");
    reveal_strlit("monthly");
    assert("daily"@.len() == 5 && "weekly"@.len() == 6 && "monthly"@.len() == 7);
    law_by_age_sorts(backups_in(files), false);
}

/// The backups of a directory are its files with the extension of a database, all of them, in
/// their order.
pub proof fn law_backups_are_the_databases(a: Seq<BackupFile>, b: Seq<BackupFile>, f: BackupFile)
    ensures
        backups_in(a + b) == backups_in(a) + backups_in(b),
        backups_in(seq![f]) == if paths::extension_of(f.name@) == Some("db"@) {
            seq![f]
        } else {
            Seq::empty()
        },
    decreases b.len(),
{
    assert(seq![f].drop_last() =~= Seq::empty());
    assert(backups_in(seq![f].drop_last()) =~= Seq::empty());
    assert(backups_in(seq![f]) =~= if paths::extension_of(f.name@) == Some("db"@) {
        seq![f]
    } else {
        Seq::empty()
    });
    if b.len() == 0 {
        assert(a + b =~= a);
        assert(backups_in(a) + backups_in(b) =~= backups_in(a));
    } else {
        law_backups_are_the_databases(a, b.drop_last(), f);
        assert((a + b).drop_last() =~= a + b.drop_last());
        assert((a + b).last() == b.last());
        assert(backups_in(a + b) =~= backups_in(a) + backups_in(b));
    }
}

/// Sorted by age, an older file comes first, or last where the newest come first.
pub proof fn law_ages_are_in_order(files: Seq<BackupFile>, i: int, j: int)
    requires
        0 <= i < j < files.len(),
    ensures
        by_age(files, false)[i].modified <= by_age(files, false)[j].modified,
        by_age(files, true)[i].modified >= by_age(files, true)[j].modified,
{
    law_by_age_sorts(files, false);
    law_by_age_sorts(files, true);
    assert(in_order(by_age(files, false)[i], by_age(files, false)[j], false));
    assert(in_order(by_age(files, true)[i], by_age(files, true)[j], true));
}

/// With a backup go the files of its name with the extensions of an index.
pub proof fn law_indexes_go_with_their_backup(stem: Seq<char>)
    requires
        stem.len() > 0,
    ensures
        companions(stem + ".db"@) == seq![stem + ".db"@, stem + ".bin"@, stem + ".json"@],
{
    reveal_strlit(".db");
    reveal_strlit("db");
    reveal_strlit(".");
    reveal_strlit("..");
    assert(".db"@ =~= "."@ + "db"@);
    assert(stem + ".db"@ =~= stem + "."@ + "db"@);
    assert((stem + ".db"@).len() > 2);
    paths::law_names_are_taken_apart_at_the_last_dot(stem, "db"@);
}

/// What an archive lists goes back where it came from: the main database to the place that is
/// given for it, and the audit log to its own, or beside the main database where none is given.
pub proof fn law_archives_go_back_to_their_places(
    m: BackupManifest,
    created_at: Seq<char>,
    main_sum: Seq<char>,
    audit_sum: Option<Seq<char>>,
    target: Seq<char>,
    parent: Seq<char>,
    audit: Seq<char>,
)
    requires
        lists(m, created_at, main_sum, audit_sum),
    ensures
        m.entries@[0].name@ == "memoria.db"@ && m.entries@[0].sha256@ == main_sum,
        restore_target_of(m.entries@[0].role@, target, parent, Some(audit)) == Some(target),
        audit_sum matches Some(sum) ==> {
            &&& m.entries@.len() == 2
            &&& m.entries@[1].name@ == "audit.db"@ && m.entries@[1].sha256@ == sum
            &&& restore_target_of(m.entries@[1].role@, target, parent, Some(audit)) == Some(audit)
            &&& restore_target_of(m.entries@[1].role@, target, parent, None) == Some(
                text::in_dir(parent, "audit.db"@),
            )
        },
        audit_sum is None ==> m.entries@.len() == 1,
        m.created_at@ == created_at,
{
    reveal_strlit("main");
    reveal_strlit("audit");
    assert("main"@.len() != "audit"@.len());
}

/// A file of an archive is put in its place where it is there, has one, and nothing stands in
/// the way.
pub proof fn law_archives_are_put_back(
    name: Seq<char>,
    target: Seq<char>,
    r: RestoreStep,
)
    requires
        restores(name, true, Some(target), false, r),
        paths::parent_of(target) is Some,
    ensures
        r matches RestoreStep::Put { target: t, parent } && t@ == target && Some(parent@)
            == paths::parent_of(target),
{
}

/// The command line is read in its order: the archive first, then the main database, then the
/// audit log.
pub proof fn law_commands_are_read_in_order(
    archive: Seq<char>,
    main: Seq<char>,
    audit: Seq<char>,
    r: Result<BackupCommand, String>,
)
    ensures
        commands(seq!["create"@], r) ==> r matches Ok(BackupCommand::Create),
        commands(seq!["verify"@, archive], r) ==> (r matches Ok(BackupCommand::Verify { archive: a }) && a@
            == archive),
        commands(seq!["restore"@, archive, main], r) ==> (r matches Ok(
            BackupCommand::Restore { archive: a, target_main, target_audit },
        ) && a@ == archive && target_main@ == main && target_audit is None),
        commands(seq!["restore"@, archive, main, audit], r) ==> (r matches Ok(
            BackupCommand::Restore { archive: a, target_main, target_audit },
        ) && a@ == archive && target_main@ == main && text::opt_text(target_audit) == Some(audit)),
        commands(Seq::empty(), r) || commands(seq!["verify"@], r) || commands(seq!["restore"@], r)
            || commands(seq!["restore"@, archive], r) ==> r is Err,
{
    reveal_strlit("create");
    reveal_strlit("verify");
    reveal_strlit("restore");
    assert("create"@[0] == 'c' && "verify"@[0] == 'v' && "restore"@[0] == 'r');
}

/// The stamp of a moment can be read back: eight digits for the day, and six for the time.
pub proof fn law_stamps_tell_the_moment(m: Moment)
    requires
        m.valid(),
        m.date.year <= 9999,
    ensures
        stamp_of(m).len() == 15,
        stamp_of(m)[8] == '_',
        stamp_of(m).subrange(0, 4) == dates::iso_date(m.date).subrange(0, 4),
        stamp_of(m).subrange(4, 6) == dates::iso_date(m.date).subrange(5, 7),
        stamp_of(m).subrange(6, 8) == dates::iso_date(m.date).subrange(8, 10),
        stamp_of(m).subrange(9, 11) == dates::padded(m.hour as nat, 2),
        stamp_of(m).subrange(11, 13) == dates::padded(m.minute as nat, 2),
        stamp_of(m).subrange(13, 15) == dates::padded(m.second as nat, 2),
{
    dates::law_dates_are_written_out(m.date);
    dates::law_two_digits_are_told_apart(m.date.month as nat, 0);
    dates::law_two_digits_are_told_apart(m.date.day as nat, 0);
    dates::law_two_digits_are_told_apart(m.hour as nat, 0);
    dates::law_two_digits_are_told_apart(m.minute as nat, 0);
    dates::law_two_digits_are_told_apart(m.second as nat, 0);
    reveal_strlit("_");
    reveal_strlit("-");
    let y = dates::year_text(m.date.year as int);
    assert(y.len() == 4);
    let d = dates::iso_date(m.date);
    let s = stamp_of(m);
    assert(s.subrange(0, 4) =~= d.subrange(0, 4));
    assert(s.subrange(4, 6) =~= d.subrange(5, 7));
    assert(s.subrange(6, 8) =~= d.subrange(8, 10));
    assert(s.subrange(9, 11) =~= dates::padded(m.hour as nat, 2));
    assert(s.subrange(11, 13) =~= dates::padded(m.minute as nat, 2));
    assert(s.subrange(13, 15) =~= dates::padded(m.second as nat, 2));
}

/// A backup goes into the directory of its tier, under a name with its stamp.
pub proof fn law_backups_lie_in_their_tier(r: BackupFiles, backup_dir: Seq<char>, now: Moment)
    requires
        places(r, backup_dir, now),
    ensures
        r.directory@ == text::in_dir(backup_dir, r.tier@),
        now.date.day == 1 ==> r.tier@ == "monthly"@,
        now.date.day > 1 ==> r.tier@ == if dates::weekday_of(now.date) == 0 {
            "weekly"@
        } else {
            "daily"@
        },
        r.database@ == text::in_dir(r.directory@, "memoria_"@ + stamp_of(now) + ".db"@),
        r.index@ == text::in_dir(r.directory@, "hnsw_vectors_"@ + stamp_of(now) + ".bin"@),
        r.index_keys@ == text::in_dir(r.directory@, "hnsw_vectors_"@ + stamp_of(now) + ".json"@),
{
}

proof fn lemma_file_shown(f: ListedFile)
    ensures
        file_shown(f).member("name"@) == Some(JsonView::Text(f.name@)),
        file_shown(f).member("size_bytes"@) == Some(JsonView::Number(NumberView::Unsigned(f.size))),
        file_shown(f).member("size_mb"@) == Some(JsonView::Number(NumberView::Real(f.megabytes@))),
        file_shown(f).member("modified_ts"@) == Some(
            JsonView::Number(NumberView::Unsigned(f.modified_ts)),
        ),
{
    reveal_strlit("name");
    reveal_strlit("size_bytes");
    reveal_strlit("size_mb");
    reveal_strlit("modified_ts");
    assert("name"@.len() == 4 && "size_bytes"@.len() == 10 && "size_mb"@.len() == 7
        && "modified_ts"@.len() == 11);
    let a = JsonView::empty();
    let n = JsonView::Text(f.name@);
    let s = JsonView::Number(NumberView::Unsigned(f.size));
    let m = JsonView::Number(NumberView::Real(f.megabytes@));
    let t = JsonView::Number(NumberView::Unsigned(f.modified_ts));
    let b = a.with("name"@, n);
    let c = b.with("size_bytes"@, s);
    let d = c.with("size_mb"@, m);
    json::law_members_are_found_by_their_name(a, "name"@, n, "size_bytes"@);
    json::law_members_are_found_by_their_name(a, "name"@, n, "size_mb"@);
    json::law_members_are_found_by_their_name(a, "name"@, n, "modified_ts"@);
    json::law_members_are_found_by_their_name(a, "size_bytes"@, n, "name"@);
    json::law_members_are_found_by_their_name(a, "size_mb"@, n, "name"@);
    json::law_members_are_found_by_their_name(a, "modified_ts"@, n, "name"@);
    json::law_members_are_found_by_their_name(b, "size_bytes"@, s, "name"@);
    json::law_members_are_found_by_their_name(b, "size_bytes"@, s, "size_mb"@);
    json::law_members_are_found_by_their_name(b, "size_bytes"@, s, "modified_ts"@);
    json::law_members_are_found_by_their_name(c, "size_mb"@, m, "name"@);
    json::law_members_are_found_by_their_name(c, "size_mb"@, m, "size_bytes"@);
    json::law_members_are_found_by_their_name(c, "size_mb"@, m, "modified_ts"@);
    json::law_members_are_found_by_their_name(d, "modified_ts"@, t, "name"@);
    json::law_members_are_found_by_their_name(d, "modified_ts"@, t, "size_bytes"@);
    json::law_members_are_found_by_their_name(d, "modified_ts"@, t, "size_mb"@);
}

/// Every backup is listed under its tier, the youngest first, with its own name, size and time.
pub proof fn law_backups_are_listed(
    daily: Seq<ListedFile>,
    weekly: Seq<ListedFile>,
    monthly: Seq<ListedFile>,
    i: int,
) -> (k: int)
    requires
        0 <= i < daily.len(),
    ensures
        all_shown(daily, weekly, monthly).member("daily"@) == Some(JsonView::Array(files_shown(daily))),
        all_shown(daily, weekly, monthly).member("weekly"@) == Some(JsonView::Array(files_shown(weekly))),
        all_shown(daily, weekly, monthly).member("monthly"@) == Some(
            JsonView::Array(files_shown(monthly)),
        ),
        files_shown(daily).len() == daily.len(),
        0 <= k < daily.len(),
        files_shown(daily)[k].member("name"@) == Some(JsonView::Text(daily[i].name@)),
        files_shown(daily)[k].member("size_bytes"@) == Some(
            JsonView::Number(NumberView::Unsigned(daily[i].size)),
        ),
        files_shown(daily)[k].member("modified_ts"@) == Some(
            JsonView::Number(NumberView::Unsigned(daily[i].modified_ts)),
        ),
        forall|j: int|
            0 <= j < daily.len() && daily[j].modified > daily[i].modified ==> exists|m: int|
                0 <= m < k && files_shown(daily)[m] == file_shown(#[trigger] daily[j]),
{
    reveal_strlit("daily");
    reveal_strlit("weekly");
    reveal_strlit("monthly");
    assert("daily"@.len() == 5 && "weekly"@.len() == 6 && "monthly"@.len() == 7);
    let e = JsonView::empty();
    let d = JsonView::Array(files_shown(daily));
    let w = JsonView::Array(files_shown(weekly));
    let o = JsonView::Array(files_shown(monthly));
    let b = e.with("daily"@, d);
    let c = b.with("weekly"@, w);
    json::law_members_are_found_by_their_name(e, "daily"@, d, "weekly"@);
    json::law_members_are_found_by_their_name(e, "daily"@, d, "monthly"@);
    json::law_members_are_found_by_their_name(e, "weekly"@, d, "monthly"@);
    json::law_members_are_found_by_their_name(e, "monthly"@, d, "daily"@);
    json::law_members_are_found_by_their_name(b, "weekly"@, w, "daily"@);
    json::law_members_are_found_by_their_name(b, "weekly"@, w, "monthly"@);
    json::law_members_are_found_by_their_name(c, "monthly"@, o, "daily"@);
    json::law_members_are_found_by_their_name(c, "monthly"@, o, "weekly"@);
    let keys = ages_of(daily);
    let order = ranking::ranked(keys, daily.len() as int);
    ranking::law_ranking_is_right(keys, daily.len() as int);
    assert(order.contains(i));
    let k = choose|k: int| 0 <= k < order.len() && order[k] == i;
    lemma_file_shown(daily[i]);
    assert forall|j: int| 0 <= j < daily.len() && daily[j].modified > daily[i].modified implies exists|m: int|
        0 <= m < k && files_shown(daily)[m] == file_shown(#[trigger] daily[j]) by {
        assert(order.contains(j));
        let m = choose|m: int| 0 <= m < order.len() && order[m] == j;
        if m > k {
            assert(ranking::ahead(keys, order[k], order[m]));
        }
        assert(m != k);
        assert(files_shown(daily)[m] == file_shown(daily[j]));
    }
    k
}

} // verus!
