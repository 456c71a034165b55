//! Starting the service: its settings, the lock that keeps a second writer away,
//! and what is said of its health.
use vstd::prelude::*;
use crate::engine;
use crate::health;
use crate::health::{CheckResult, HealthReport};
use crate::paths;
use crate::text;

verus! {

/// An address that every network interface listens on.
pub open spec fn exposed(host: Seq<char>) -> bool {
    host == "0.0.0.0"@ || host == "::"@ || host == "[::]"@
}

/// Tells whether the service listens on every network interface.
pub fn is_exposed_bind(host: &str) -> (r: bool)
    ensures
        r == exposed(host@),
{
    text::same(host, "0.0.0.0") || text::same(host, "::") || text::same(host, "[::]")
}

/// The numbers of threads of the runtime, by their variables: 4 workers, or 1 to
/// 32, and 8 for blocking work, or 1 to 256.
pub fn build_runtime(workers: Option<&str>, blocking: Option<&str>) -> (r: (u32, u32))
    ensures
        r.0 == engine::bounded(text::opt_str(workers), 1, 32, 4),
        r.1 == engine::bounded(text::opt_str(blocking), 1, 256, 8),
{
    (engine::bounded_setting(workers, 1, 32, 4), engine::bounded_setting(blocking, 1, 256, 8))
}

/// A number that a variable is set to, else the default.
pub open spec fn number_or(v: Option<Seq<char>>, max: nat, default: nat) -> nat {
    match v {
        Some(s) => match text::spelled(s, max) {
            Some(n) => n,
            None => default,
        },
        None => default,
    }
}

/// The port of the service, by its variable.
pub fn port(v: Option<&str>) -> (r: u16)
    ensures
        r == number_or(text::opt_str(v), u16::MAX as nat, 9003),
{
    match v {
        Some(s) => match text::parse_up_to(s, u16::MAX as u64) {
            Some(n) => n as u16,
            None => 9003,
        },
        None => 9003,
    }
}

/// The hours between two backups, by their variable.
pub fn backup_interval_hours(v: Option<&str>) -> (r: u64)
    ensures
        r == number_or(text::opt_str(v), u64::MAX as nat, 24),
{
    match v {
        Some(s) => match text::parse_u64(s) {
            Some(n) => n,
            None => 24,
        },
        None => 24,
    }
}

/// The key of the administrator. The service does not start without one: a key of
/// white space alone does not count.
pub fn admin_key(v: Option<&str>) -> (r: Option<String>)
    ensures
        text::opt_text(r) == (match v {
            Some(k) => if text::trimmed(k@).len() > 0 {
                Some(k@)
            } else {
                None
            },
            None => None,
        }),
{
    match v {
        Some(k) => if text::trim(k).as_str().is_empty() {
            None
        } else {
            Some(k.to_string())
        },
        None => None,
    }
}

/// Where a key that was made by itself is kept: beside the database.
pub fn admin_key_path(db_path: &str) -> (r: String)
    ensures
        r@ == (match paths::parent_of(db_path@) {
            Some(d) => text::in_dir(d, "admin_key.secret"@),
            None => "admin_key.secret"@,
        }),
{
    match paths::parent(db_path) {
        Some(d) => text::path_in(d.as_str(), "admin_key.secret"),
        None => "admin_key.secret".to_string(),
    }
}

/// Where the lock of a database lies: in its directory.
pub open spec fn lock_path_of(db_path: Seq<char>) -> Seq<char> {
    text::in_dir(
        match paths::parent_of(db_path) {
            Some(d) => if d.len() > 0 {
                d
            } else {
                "."@
            },
            None => "."@,
        },
        "memoria.pid"@,
    )
}

/// Where the lock of a database lies.
pub fn single_writer_lock_path(db_path: &str) -> (r: String)
    ensures
        r@ == lock_path_of(db_path@),
{
    let dir = match paths::parent(db_path) {
        Some(d) => if d.as_str().is_empty() {
            ".".to_string()
        } else {
            d
        },
        None => ".".to_string(),
    };
    text::path_in(dir.as_str(), "memoria.pid")
}

/// The number of the process in a lock; none where the text is no such number.
pub open spec fn pid_in(lock: Seq<char>) -> Option<nat> {
    text::spelled(text::trimmed(lock), u32::MAX as nat)
}

/// The number of the process in a lock. `lock` is its text, if it could be read.
pub fn read_pid(lock: Option<&str>) -> (r: Option<u32>)
    ensures
        match lock {
            Some(s) => match r {
                Some(p) => pid_in(s@) == Some(p as nat),
                None => pid_in(s@) is None,
            },
            None => r is None,
        },
{
    match lock {
        Some(s) => match text::parse_up_to(text::trim(s).as_str(), u32::MAX as u64) {
            Some(p) => Some(p as u32),
            None => None,
        },
        None => None,
    }
}

/// Where a running process shows.
pub fn process_path(pid: u32) -> (r: String)
    ensures
        r@ == "/proc/"@ + text::dec(pid as nat),
{
    text::cat("/proc/", text::decimal(pid as u64).as_str())
}

/// What trying to make the lock came to.
#[derive(Debug)]
pub enum LockAttempt {
    Made,
    /// It is there already. The process in it, if it names one, and whether that
    /// runs.
    Taken { pid: Option<u32>, alive: bool },
    Failed(String),
}

/// What is done about the lock.
#[derive(Debug)]
pub enum LockStep {
    /// The lock is held: the own number is written to it.
    Hold,
    Refuse(String),
    /// The lock is removed and made once more. The process that left it, where it
    /// named one.
    TakeOver { pid: Option<u32> },
}

/// What is done about the lock.
pub open spec fn lock_step(a: LockAttempt, path: Seq<char>, r: LockStep) -> bool {
    match a {
        LockAttempt::Made => r is Hold,
        LockAttempt::Taken { pid, alive } => match pid {
            Some(p) => if alive {
                r matches LockStep::Refuse(e) && e@ == "Memoria 已在运行（pid "@ + text::dec(
                    p as nat,
                ) + "）。拒绝启动第二个写者以避免双写同一数据库。如需强制，请先停止旧进程或删除锁文件："@ + path
            } else {
                r == (LockStep::TakeOver { pid })
            },
            None => r == (LockStep::TakeOver { pid }),
        },
        LockAttempt::Failed(x) => r matches LockStep::Refuse(e) && e@ == "无法创建锁文件 "@ + path
            + ": "@ + x@,
    }
}

/// Decides what is done about the lock.
pub fn acquire_single_writer_lock(a: &LockAttempt, path: &str) -> (r: LockStep)
    ensures
        lock_step(*a, path@, r),
{
    match a {
        LockAttempt::Made => LockStep::Hold,
        LockAttempt::Taken { pid, alive } => match pid {
            Some(p) => if *alive {
                let mut e = text::cat3(
                    "Memoria 已在运行（pid ",
                    text::decimal(*p as u64).as_str(),
                    "）。拒绝启动第二个写者以避免双写同一数据库。如需强制，请先停止旧进程或删除锁文件：",
                );
                e.append(path);
                LockStep::Refuse(e)
            } else {
                LockStep::TakeOver { pid: *pid }
            },
            None => LockStep::TakeOver { pid: *pid },
        },
        LockAttempt::Failed(x) => {
            let mut e = text::cat3("无法创建锁文件 ", path, ": ");
            e.append(x.as_str());
            LockStep::Refuse(e)
        },
    }
}

/// Why the lock could not be made once more after it was taken over.
pub fn takeover_error(pid: Option<u32>, path: &str, error: &str) -> (r: String)
    ensures
        r@ == (if pid is Some {
            "无法接管锁文件 "@
        } else {
            "无法创建锁文件 "@
        }) + path@ + ": "@ + error@,
{
    let head = if pid.is_some() {
        "无法接管锁文件 "
    } else {
        "无法创建锁文件 "
    };
    let mut e = text::cat3(head, path, ": ");
    e.append(error);
    e
}

/// What a lock holds after a step: the number of the process that got it, or what it
/// held before.
pub open spec fn held_after(step: LockStep, before: Option<Seq<char>>, own: nat) -> Option<Seq<char>> {
    if step is Refuse {
        before
    } else {
        Some(text::dec(own))
    }
}

/// What is written to a lock for a step, if anything is. `own` is the number of this
/// process.
pub fn lock_text(step: &LockStep, own: u32) -> (r: Option<String>)
    ensures
        r is None <==> step is Refuse,
        forall|before: Option<Seq<char>>| #[trigger]
            held_after(*step, before, own as nat) == (if r is Some {
                text::opt_text(r)
            } else {
                before
            }),
{
    match step {
        LockStep::Refuse(_) => None,
        _ => Some(text::decimal(own as u64)),
    }
}

/// This is what trying to make the lock comes to, where it holds this text, if it is
/// there, and these processes run.
pub open spec fn meets(a: LockAttempt, lock: Option<Seq<char>>, runs: spec_fn(nat) -> bool) -> bool {
    match lock {
        None => a is Made,
        Some(s) => a matches LockAttempt::Taken { pid, alive } && match pid {
            Some(p) => pid_in(s) == Some(p as nat) && alive == runs(p as nat),
            None => pid_in(s) is None && !alive,
        },
    }
}

/// Once a process has the lock, no other gets it as long as that process runs and the
/// lock is not removed: the second is refused, and the lock still holds the number of
/// the first.
pub proof fn law_one_writer(
    lock: Option<Seq<char>>,
    path: Seq<char>,
    a: LockAttempt,
    first: LockStep,
    p: u32,
    runs: spec_fn(nat) -> bool,
    b: LockAttempt,
    second: LockStep,
    q: u32,
)
    requires
        lock_step(a, path, first),
        !(first is Refuse),
        meets(b, held_after(first, lock, p as nat), runs),
        runs(p as nat),
        lock_step(b, path, second),
    ensures
        second is Refuse,
        held_after(second, held_after(first, lock, p as nat), q as nat) == Some(
            text::dec(p as nat),
        ),
{
    let s = text::dec(p as nat);
    text::law_decimal_is_read_back(p as nat, u32::MAX as nat);
    assert(!text::is_space(s[0]) && !text::is_space(s.last()));
    assert(text::trimmed(s) == s);
    assert(pid_in(s) == Some(p as nat));
}

/// A lock that a process left which does not run any more, or that names none, keeps
/// nobody out: who tries gets it, and it then holds that one's number.
pub proof fn law_left_locks_are_taken_over(
    lock: Seq<char>,
    path: Seq<char>,
    a: LockAttempt,
    step: LockStep,
    own: u32,
    runs: spec_fn(nat) -> bool,
)
    requires
        meets(a, Some(lock), runs),
        pid_in(lock) is None || !runs(pid_in(lock)->0),
        lock_step(a, path, step),
    ensures
        step is TakeOver,
        held_after(step, Some(lock), own as nat) == Some(text::dec(own as nat)),
{
}

/// The beginning of a token that is shown: at most 16 characters.
pub fn token_hint(token: &str) -> (r: String)
    ensures
        r@ == text::first_chars(token@, 16),
{
    text::take_chars(token, 16)
}

/// Where the pages of the service lie: beside the directory of the database,
/// unless configured.
pub fn web_dir(db_path: &str, configured: Option<&str>) -> (r: String)
    ensures
        r@ == (match configured {
            Some(p) => p@,
            None => text::in_dir(
                match paths::parent_of(db_path@) {
                    Some(d) => match paths::parent_of(d) {
                        Some(g) => g,
                        None => "."@,
                    },
                    None => "."@,
                },
                "web"@,
            ),
        }),
{
    match configured {
        Some(p) => p.to_string(),
        None => {
            let base = match paths::parent(db_path) {
                Some(d) => match paths::parent(d.as_str()) {
                    Some(g) => g,
                    None => ".".to_string(),
                },
                None => ".".to_string(),
            };
            text::path_in(base.as_str(), "web")
        },
    }
}

/// What is said of a check.
pub open spec fn check_line(mark: Seq<char>, c: CheckResult) -> Seq<char> {
    "  "@ + mark + " "@ + c.name@ + " — "@ + c.message@ + " ("@ + c.status@ + ")"@
}

fn line_of(mark: &str, c: &CheckResult) -> (r: String)
    ensures
        r@ == check_line(mark@, *c),
{
    let mut s = text::cat5("  ", mark, " ", c.name.as_str(), " — ");
    s.append(c.message.as_str());
    s.append(" (");
    s.append(c.status.as_str());
    s.append(")");
    s
}

/// What is said of the checks that count: those that fail where `failing`, else
/// those that do not pass.
pub open spec fn check_lines(checks: Seq<CheckResult>, mark: Seq<char>, failing: bool) -> Seq<
    Seq<char>,
>
    decreases checks.len(),
{
    if checks.len() == 0 {
        Seq::empty()
    } else {
        let l = check_lines(checks.drop_last(), mark, failing);
        let c = checks.last();
        if if failing {
            c.status@ == "fail"@
        } else {
            c.status@ != "pass"@
        } {
            l.push(check_line(mark, c))
        } else {
            l
        }
    }
}

fn lines_of_checks(checks: &Vec<CheckResult>, mark: &str, failing: bool) -> (r: Vec<String>)
    ensures
        text::texts(r@) == check_lines(checks@, mark@, failing),
{
    let mut out: Vec<String> = Vec::new();
    let mut i: usize = 0;
    assert(text::texts(out@) =~= check_lines(checks@.take(0), mark@, failing));
    while i < checks.len()
        invariant
            i <= checks@.len(),
            text::texts(out@) == check_lines(checks@.take(i as int), mark@, failing),
        decreases checks@.len() - i,
    {
        assert(checks@.take(i + 1).drop_last() =~= checks@.take(i as int));
        let counts = if failing {
            text::same(checks[i].status.as_str(), "fail")
        } else {
            !text::same(checks[i].status.as_str(), "pass")
        };
        if counts {
            let l = line_of(mark, &checks[i]);
            proof {
                text::lemma_texts_push(out@, l);
            }
            out.push(l);
        }
        i += 1;
    }
    assert(checks@.take(checks@.len() as int) =~= checks@);
    out
}

/// Whether the service starts.
#[derive(Debug)]
pub struct Startup {
    pub starts: bool,
    pub heading: Option<&'static str>,
    pub lines: Vec<String>,
}

/// Whether the service starts, and what is said of its health: it does unless a
/// hard check fails.
pub open spec fn starts_with_health(r: HealthReport, s: Startup) -> bool {
    if r.overall@ == "pass"@ {
        &&& s.starts
        &&& text::opt_str(s.heading) == Some("[Memoria] Health check: PASS (all checks OK)"@)
        &&& s.lines@.len() == 0
    } else if r.overall@ == "degraded"@ {
        &&& s.starts
        &&& text::opt_str(s.heading) == Some(
            "[Memoria] Health check: DEGRADED — some soft checks failed:"@,
        )
        &&& text::texts(s.lines@) == check_lines(r.soft_checks@, "⚠"@, false)
    } else if r.overall@ == "fail"@ {
        &&& !s.starts
        &&& text::opt_str(s.heading) == Some(
            "[Memoria] Health check: HARD FAIL — refusing to start:"@,
        )
        &&& text::texts(s.lines@) == check_lines(r.hard_checks@, "✗"@, true)
    } else {
        s.starts && s.heading is None && s.lines@.len() == 0
    }
}

/// Tells whether the service starts.
pub fn startup(r: &HealthReport) -> (s: Startup)
    ensures
        starts_with_health(*r, s),
{
    let overall = r.overall.as_str();
    if text::same(overall, "pass") {
        Startup {
            starts: true,
            heading: Some("[Memoria] Health check: PASS (all checks OK)"),
            lines: Vec::new(),
        }
    } else if text::same(overall, "degraded") {
        Startup {
            starts: true,
            heading: Some("[Memoria] Health check: DEGRADED — some soft checks failed:"),
            lines: lines_of_checks(&r.soft_checks, "⚠", false),
        }
    } else if text::same(overall, "fail") {
        Startup {
            starts: false,
            heading: Some("[Memoria] Health check: HARD FAIL — refusing to start:"),
            lines: lines_of_checks(&r.hard_checks, "✗", true),
        }
    } else {
        Startup { starts: true, heading: None, lines: Vec::new() }
    }
}

/// The service starts if and only if no hard check fails.
pub proof fn law_starts_unless_hard_failure(r: HealthReport, s: Startup)
    requires
        starts_with_health(r, s),
        r.overall@ == health::verdict(r.hard_checks@, r.soft_checks@),
    ensures
        s.starts == !health::any_status(r.hard_checks@, "fail"@),
{
    health::law_only_hard_checks_fail(r.hard_checks@, r.soft_checks@);
    reveal_strlit("fail");
    reveal_strlit("degraded");
    reveal_strlit("pass");
    assert("fail"@[0] != "pass"@[0]);
    assert("degraded"@.len() == 8 && "fail"@.len() == 4 && "pass"@.len() == 4);
}

/// A setting that is a number counts as it is written; anything else stands for the usual
/// value.
pub proof fn law_number_settings_count_as_written(n: nat, max: nat, default: nat, s: Seq<char>)
    ensures
        n <= max ==> number_or(Some(text::dec(n)), max, default) == n,
        n > max ==> number_or(Some(text::dec(n)), max, default) == default,
        number_or(None, max, default) == default,
        s.len() == 0 ==> number_or(Some(s), max, default) == default,
{
    text::law_numbers_are_read(n, max, s);
}

/// The lock of a database lies beside it.
pub proof fn law_locks_lie_beside_the_database(dir: Seq<char>, name: Seq<char>)
    requires
        dir.len() > 0,
        name.len() > 0,
        !name.contains('/'),
        name.last() != '.',
        paths::bare(dir) == dir,
        dir.last() != '/',
    ensures
        lock_path_of(dir + "/"@ + name) == dir + "/memoria.pid"@,
{
    paths::law_files_lie_in_their_directory(dir, name);
    reveal_strlit("/");
    reveal_strlit("memoria.pid");
    reveal_strlit("/memoria.pid");
    assert("/memoria.pid"@ =~= "/"@ + "memoria.pid"@);
    assert(dir + "/"@ + "memoria.pid"@ =~= dir + "/memoria.pid"@);
}

/// What a process writes to a lock is read back as its number.
pub proof fn law_locks_name_their_holder(own: u32)
    ensures
        pid_in(text::dec(own as nat)) == Some(own as nat),
{
    let d = text::dec(own as nat);
    text::law_decimal_is_read_back(own as nat, u32::MAX as nat);
    assert(text::trimmed(d) == d) by {
        assert(text::is_digit(d[0]) && text::is_digit(d[d.len() - 1]));
        reveal_with_fuel(text::trimmed_start, 2);
        reveal_with_fuel(text::trimmed_end, 2);
    }
}

/// Checks are told of one by one, in their order: those that fail, or those that do not pass.
pub proof fn law_checks_are_told_one_by_one(
    a: Seq<CheckResult>,
    b: Seq<CheckResult>,
    c: CheckResult,
    mark: Seq<char>,
    failing: bool,
)
    ensures
        check_lines(a + b, mark, failing) == check_lines(a, mark, failing) + check_lines(
            b,
            mark,
            failing,
        ),
        c.status@ == "fail"@ ==> check_lines(seq![c], mark, failing).len() == 1,
        c.status@ == "warn"@ ==> check_lines(seq![c], mark, failing).len() == if failing {
            0int
        } else {
            1
        },
        c.status@ == "pass"@ ==> check_lines(seq![c], mark, failing).len() == 0,
        check_lines(seq![c], mark, failing).len() == 1 ==> {
            let l = check_lines(seq![c], mark, failing)[0];
            text::occurs(l, c.name@ + " — "@ + c.message@ + " ("@ + c.status@ + ")"@)
        },
    decreases b.len(),
{
    reveal_strlit("fail");
    reveal_strlit("warn");
    reveal_strlit("pass");
    assert("fail"@.len() == 4 && "warn"@.len() == 4 && "pass"@.len() == 4);
    assert("warn"@[0] == 'w' && "fail"@[0] == 'f' && "pass"@[0] == 'p');
    assert(seq![c].drop_last() =~= Seq::empty());
    assert(check_lines(seq![c].drop_last(), mark, failing) =~= Seq::empty());
    let l = check_line(mark, c);
    let x = c.name@ + " — "@ + c.message@ + " ("@ + c.status@ + ")"@;
    let head = "  "@ + mark + " "@;
    assert(l =~= head + x);
    assert(l.subrange(head.len() as int, (head.len() + x.len()) as int) =~= x);
    assert(text::stands_at(l, x, head.len() as int));
    if check_lines(seq![c], mark, failing).len() == 1 {
        assert(check_lines(seq![c], mark, failing)[0] == l);
    }
    if b.len() == 0 {
        assert(a + b =~= a);
        assert(check_lines(a, mark, failing) + check_lines(b, mark, failing) =~= check_lines(
            a,
            mark,
            failing,
        ));
    } else {
        law_checks_are_told_one_by_one(a, b.drop_last(), c, mark, failing);
        assert((a + b).drop_last() =~= a + b.drop_last());
        assert((a + b).last() == b.last());
        assert(check_lines(a + b, mark, failing) =~= check_lines(a, mark, failing) + check_lines(
            b,
            mark,
            failing,
        ));
    }
}

/// The service starts on every report but one of failure, and says more of every report but
/// one of full health.
pub proof fn law_starts_go_by_the_verdict(r: HealthReport, s: Startup)
    requires
        starts_with_health(r, s),
    ensures
        r.overall@ == "fail"@ ==> !s.starts && text::texts(s.lines@) == check_lines(
            r.hard_checks@,
            "✗"@,
            true,
        ),
        r.overall@ == "degraded"@ ==> s.starts && text::texts(s.lines@) == check_lines(
            r.soft_checks@,
            "⚠"@,
            false,
        ),
        r.overall@ == "pass"@ ==> s.starts && s.lines@.len() == 0,
{
    reveal_strlit("fail");
    reveal_strlit("degraded");
    reveal_strlit("pass");
    assert("fail"@.len() == 4 && "degraded"@.len() == 8 && "pass"@.len() == 4);
    assert("pass"@[0] == 'p' && "fail"@[0] == 'f');
}

} // verus!
