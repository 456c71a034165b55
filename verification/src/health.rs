//! Health checks: what each of them says, and what they come to together. A hard
//! check that fails keeps the service from starting; a soft one only degrades it.
use vstd::prelude::*;
use crate::text;

verus! {

/// What all checks come to.
#[derive(Debug)]
pub struct HealthReport {
    /// `pass`, `degraded` or `fail`.
    pub overall: String,
    pub hard_checks: Vec<CheckResult>,
    pub soft_checks: Vec<CheckResult>,
    pub timestamp: String,
    pub version: String,
}

/// What a check says.
#[derive(Debug)]
pub struct CheckResult {
    pub name: String,
    /// `pass`, `warn` or `fail`.
    pub status: String,
    pub message: String,
    pub duration_ms: u64,
}

/// A check says this.
pub open spec fn says(
    r: CheckResult,
    name: Seq<char>,
    status: Seq<char>,
    message: Seq<char>,
    ms: u64,
) -> bool {
    r.name@ == name && r.status@ == status && r.message@ == message && r.duration_ms == ms
}

fn said(name: &str, status: &str, message: String, duration_ms: u64) -> (r: CheckResult)
    ensures
        says(r, name@, status@, message@, duration_ms),
{
    CheckResult {
        name: name.to_string(),
        status: status.to_string(),
        message,
        duration_ms,
    }
}

/// The version of the schema that is asked for.
pub const EXPECTED_SCHEMA_VERSION: u32 = 2;

/// The space on disk that is asked for, in megabytes.
pub const MIN_DISK_SPACE_MB: u64 = 500;

/// One of the checks has this status.
pub open spec fn any_status(checks: Seq<CheckResult>, status: Seq<char>) -> bool {
    exists|i: int| 0 <= i < checks.len() && (#[trigger] checks[i]).status@ == status
}

fn has_status(checks: &Vec<CheckResult>, status: &str) -> (r: bool)
    ensures
        r == any_status(checks@, status@),
{
    let mut i: usize = 0;
    while i < checks.len()
        invariant
            i <= checks@.len(),
            forall|k: int| 0 <= k < i ==> (#[trigger] checks@[k]).status@ != status@,
        decreases checks@.len() - i,
    {
        if text::same(checks[i].status.as_str(), status) {
            assert(checks@[i as int].status@ == status@);
            return true;
        }
        i += 1;
    }
    false
}

/// What the checks come to: a hard one that fails is a failure; a soft one that
/// fails or warns degrades.
pub open spec fn verdict(hard: Seq<CheckResult>, soft: Seq<CheckResult>) -> Seq<char> {
    if any_status(hard, "fail"@) {
        "fail"@
    } else if any_status(soft, "fail"@) || any_status(soft, "warn"@) {
        "degraded"@
    } else {
        "pass"@
    }
}

/// Puts checks together to a report.
pub fn report_of(
    hard_checks: Vec<CheckResult>,
    soft_checks: Vec<CheckResult>,
    timestamp: String,
    version: String,
) -> (r: HealthReport)
    ensures
        r.overall@ == verdict(hard_checks@, soft_checks@),
        r.hard_checks == hard_checks,
        r.soft_checks == soft_checks,
        r.timestamp == timestamp,
        r.version == version,
{
    let overall = if has_status(&hard_checks, "fail") {
        "fail"
    } else if has_status(&soft_checks, "fail") || has_status(&soft_checks, "warn") {
        "degraded"
    } else {
        "pass"
    };
    HealthReport { overall: overall.to_string(), hard_checks, soft_checks, timestamp, version }
}

/// Soft checks alone never make a failure, and a hard check that fails always
/// does.
pub proof fn law_only_hard_checks_fail(hard: Seq<CheckResult>, soft: Seq<CheckResult>)
    ensures
        (verdict(hard, soft) == "fail"@) == any_status(hard, "fail"@),
        verdict(hard, soft) == "pass"@ ==> !any_status(soft, "fail"@) && !any_status(
            soft,
            "warn"@,
        ),
{
    reveal_strlit("fail");
    reveal_strlit("degraded");
    reveal_strlit("pass");
    assert("fail"@[0] != "pass"@[0]);
    assert("degraded"@.len() == 8 && "fail"@.len() == 4 && "pass"@.len() == 4);
}

/// Where the health of the embedding service is asked for.
pub open spec fn health_address(url: Seq<char>) -> Seq<char> {
    if text::ends(url, "/embed"@) {
        url.take(url.len() - 5) + "health"@
    } else if text::ends(url, "/"@) {
        url + "health"@
    } else {
        url + "/health"@
    }
}

/// Where the health of the embedding service is asked for; none where no service
/// is configured.
pub fn health_url(url: &str) -> (r: Option<String>)
    ensures
        text::opt_text(r) == (if text::trimmed(url@).len() == 0 {
            None
        } else {
            Some(health_address(text::trimmed(url@)))
        }),
{
    let url = text::trim(url);
    if url.as_str().is_empty() {
        return None;
    }
    if text::ends_with(url.as_str(), "/embed") {
        proof {
            reveal_strlit("/embed");
        }
        let v = text::chars_of(url.as_str());
        let base = text::string_between(&v, 0, v.len() - 5);
        assert(base@ =~= url@.take(url@.len() - 5));
        Some(text::cat(base.as_str(), "health"))
    } else if text::ends_with(url.as_str(), "/") {
        Some(text::cat(url.as_str(), "health"))
    } else {
        Some(text::cat(url.as_str(), "/health"))
    }
}

/// What asking the embedding service came to: the status of its reply, or why
/// there was none.
#[derive(Debug)]
pub enum Probe {
    Status(u16),
    Unreachable(String),
}

/// What the check of the embedding service says. One that is not configured only
/// warns; the reply itself is not shown.
pub open spec fn embedding_says(url: Seq<char>, probe: Probe, ms: u64, r: CheckResult) -> bool {
    if text::trimmed(url).len() == 0 {
        says(
            r,
            "embedding"@,
            "warn"@,
            "MEMORIA_EMBEDDING_URL 未配置，语义检索降级为 FTS/时间信号"@,
            ms,
        )
    } else {
        match probe {
            Probe::Status(code) => if 200 <= code < 300 {
                says(r, "embedding"@, "pass"@, "ok http="@ + text::dec(code as nat), ms)
            } else {
                says(
                    r,
                    "embedding"@,
                    "fail"@,
                    "嵌入 /health 返回 HTTP "@ + text::dec(code as nat),
                    ms,
                )
            },
            Probe::Unreachable(e) => says(
                r,
                "embedding"@,
                "fail"@,
                "嵌入服务不可达: "@ + e@ + "（语义检索已降级）"@,
                ms,
            ),
        }
    }
}

/// The check of the embedding service. `probe` is what asking it came to, which
/// counts only where a service is configured.
pub fn check_embedding_endpoint(url: &str, probe: &Probe, duration_ms: u64) -> (r: CheckResult)
    ensures
        embedding_says(url@, *probe, duration_ms, r),
{
    if text::trim(url).as_str().is_empty() {
        return said(
            "embedding",
            "warn",
            "MEMORIA_EMBEDDING_URL 未配置，语义检索降级为 FTS/时间信号".to_string(),
            duration_ms,
        );
    }
    match probe {
        Probe::Status(code) => {
            let number = text::decimal(*code as u64);
            if 200 <= *code && *code < 300 {
                said("embedding", "pass", text::cat("ok http=", number.as_str()), duration_ms)
            } else {
                said(
                    "embedding",
                    "fail",
                    text::cat("嵌入 /health 返回 HTTP ", number.as_str()),
                    duration_ms,
                )
            }
        },
        Probe::Unreachable(e) => said(
            "embedding",
            "fail",
            text::cat3("嵌入服务不可达: ", e.as_str(), "（语义检索已降级）"),
            duration_ms,
        ),
    }
}

/// Where a request goes.
#[derive(Debug)]
pub struct Target {
    pub host_port: String,
    pub host: String,
    pub port: u16,
    pub path: String,
}

/// The part of an address behind `http://`, up to the path.
pub open spec fn authority(rest: Seq<char>) -> Seq<char> {
    match text::index_from(rest, '/', 0) {
        Some(i) => rest.take(i),
        None => rest,
    }
}

/// The path of an address: from its first slash on.
pub open spec fn address_path(rest: Seq<char>) -> Seq<char> {
    match text::index_from(rest, '/', 0) {
        Some(i) => rest.skip(i),
        None => "/"@,
    }
}

/// The target that the text of an address stands for.
pub open spec fn address(url: Seq<char>, r: Result<Target, String>) -> bool {
    match text::without_prefix(url, "http://"@) {
        None => r matches Err(e) && e@ == "仅支持 http:// 嵌入地址"@,
        Some(rest) => match text::last_index(authority(rest), ':') {
            None => {
                &&& r matches Ok(t)
                &&& t.host_port@ == authority(rest)
                &&& t.host@ == authority(rest)
                &&& t.port == 80
                &&& t.path@ == address_path(rest)
            },
            Some(k) => match text::spelled(authority(rest).skip(k + 1), u16::MAX as nat) {
                None => r matches Err(e) && e@ == "端口无效"@,
                Some(p) => {
                    &&& r matches Ok(t)
                    &&& t.host_port@ == authority(rest)
                    &&& t.host@ == authority(rest).take(k)
                    &&& t.port == p
                    &&& t.path@ == address_path(rest)
                },
            },
        },
    }
}

/// Takes an address apart. Only plain HTTP is supported; the port is 80 where
/// none is given.
pub fn parse_address(url: &str) -> (r: Result<Target, String>)
    ensures
        address(url@, r),
{
    let rest = match text::strip_prefix(url, "http://") {
        Some(x) => x,
        None => {
            return Err("仅支持 http:// 嵌入地址".to_string());
        },
    };
    let v = text::chars_of(rest.as_str());
    let (host_port, path) = match text::index_of(&v, '/', 0) {
        Some(i) => {
            let a = text::string_between(&v, 0, i);
            let p = text::string_between(&v, i, v.len());
            assert(a@ =~= rest@.take(i as int));
            assert(p@ =~= rest@.skip(i as int));
            (a, p)
        },
        None => {
            let a = text::string_of(&v);
            (a, "/".to_string())
        },
    };
    assert(host_port@ == authority(rest@));
    assert(path@ == address_path(rest@));
    let h = text::chars_of(host_port.as_str());
    match text::last_index_of(&h, ':') {
        None => {
            let host = host_port.clone();
            Ok(Target { host_port, host, port: 80, path })
        },
        Some(k) => {
            let host = text::string_between(&h, 0, k);
            assert(host@ =~= host_port@.take(k as int));
            let n = h.len();
            let digits = text::string_between(&h, k + 1, n);
            assert(digits@ =~= host_port@.skip(k + 1));
            match text::parse_up_to(digits.as_str(), u16::MAX as u64) {
                Some(p) => Ok(Target { host_port, host, port: p as u16, path }),
                None => Err("端口无效".to_string()),
            }
        },
    }
}

/// The request for a target.
pub fn get_request(t: &Target) -> (r: String)
    ensures
        r@ == "GET "@ + t.path@ + " HTTP/1.1\r\nHost: "@ + t.host_port@
            + "\r\nConnection: close\r\n\r\n"@,
{
    text::cat5(
        "GET ",
        t.path.as_str(),
        " HTTP/1.1\r\nHost: ",
        t.host_port.as_str(),
        "\r\nConnection: close\r\n\r\n",
    )
}

/// The first position from `i` on that holds white space, or the end.
pub open spec fn word_end(s: Seq<char>, i: int) -> int
    decreases s.len() - i,
{
    if i < 0 || i >= s.len() || text::is_space(s[i]) {
        i
    } else {
        word_end(s, i + 1)
    }
}

/// The first word of a text: empty where there is none.
pub open spec fn first_word(s: Seq<char>) -> Seq<char> {
    let t = text::trimmed_start(s);
    t.take(word_end(t, 0))
}

/// What follows the first word of a text.
pub open spec fn behind_word(s: Seq<char>) -> Seq<char> {
    let t = text::trimmed_start(s);
    t.skip(word_end(t, 0))
}

fn find_word_end(v: &[char], i: usize) -> (r: usize)
    requires
        i <= v@.len(),
    ensures
        r == word_end(v@, i as int),
        i <= r <= v@.len(),
{
    let mut k: usize = i;
    while k < v.len() && !text::space(v[k])
        invariant
            i <= k <= v@.len(),
            word_end(v@, i as int) == word_end(v@, k as int),
        decreases v@.len() - k,
    {
        k += 1;
    }
    k
}

/// The first word of a text, and what follows it.
fn split_word(s: &str) -> (r: (String, String))
    ensures
        r.0@ == first_word(s@),
        r.1@ == behind_word(s@),
{
    let v = text::chars_of(s);
    let from = text::first_solid(&v);
    let t = text::string_between(&v, from, v.len());
    assert(t@ =~= text::trimmed_start(s@));
    let tv = text::chars_of(t.as_str());
    let end = find_word_end(&tv, 0);
    let word = text::string_between(&tv, 0, end);
    let rest = text::string_between(&tv, end, tv.len());
    assert(word@ =~= first_word(s@));
    assert(rest@ =~= behind_word(s@));
    (word, rest)
}

/// The first line of a text.
pub open spec fn first_line(s: Seq<char>) -> Seq<char> {
    let l = text::lines_of(s);
    if l.len() > 0 {
        l[0]
    } else {
        Seq::empty()
    }
}

/// The status in a reply: the second word of its first line, or 0 where that is
/// no number.
pub open spec fn reply_code(reply: Seq<char>) -> nat {
    match text::spelled(first_word(behind_word(first_line(reply))), u16::MAX as nat) {
        Some(n) => n,
        None => 0,
    }
}

/// The status in a reply.
pub fn status_code(reply: &str) -> (r: u16)
    ensures
        r == reply_code(reply@),
{
    let all = text::lines(reply);
    let line = if all.len() > 0 {
        all[0].clone()
    } else {
        String::new()
    };
    assert(line@ =~= first_line(reply@));
    let (_, rest) = split_word(line.as_str());
    let (word, _) = split_word(rest.as_str());
    match text::parse_up_to(word.as_str(), u16::MAX as u64) {
        Some(n) => n as u16,
        None => 0,
    }
}

/// What stands between the first two occurrences of `sep`, or behind the only
/// one.
pub open spec fn second_part(s: Seq<char>, sep: Seq<char>) -> Option<Seq<char>> {
    match text::find_at(s, sep, 0) {
        None => None,
        Some(i) => match text::find_at(s, sep, i + sep.len()) {
            None => Some(s.skip(i + sep.len())),
            Some(j) => Some(s.subrange(i + sep.len(), j)),
        },
    }
}

fn part_behind(s: &str, sep: &str) -> (r: Option<String>)
    ensures
        text::opt_text(r) == second_part(s@, sep@),
{
    let v = text::chars_of(s);
    let p = text::chars_of(sep);
    match text::find_sub(&v, &p, 0) {
        None => None,
        Some(i) => {
            let n = v.len();
            let from = i + p.len();
            match text::find_sub(&v, &p, from) {
                None => {
                    let r = text::string_between(&v, from, n);
                    assert(r@ =~= s@.skip(from as int));
                    Some(r)
                },
                Some(j) => Some(text::string_between(&v, from, j)),
            }
        },
    }
}

/// The body of a reply, cut to 400 characters.
pub open spec fn reply_body(reply: Seq<char>) -> Seq<char> {
    text::first_chars(
        match (second_part(reply, "\r\n\r\n"@), second_part(reply, "\n\n"@)) {
            (Some(b), _) => b,
            (None, Some(b)) => b,
            (None, None) => ""@,
        },
        400,
    )
}

/// The status and the beginning of the body in a reply.
pub fn http_get_json_summary(reply: &str) -> (r: (u16, String))
    ensures
        r.0 == reply_code(reply@),
        r.1@ == reply_body(reply@),
{
    let body = match part_behind(reply, "\r\n\r\n") {
        Some(b) => b,
        None => match part_behind(reply, "\n\n") {
            Some(b) => b,
            None => "".to_string(),
        },
    };
    (status_code(reply), text::take_chars(body.as_str(), 400))
}

/// What trying to write to the database came to.
#[derive(Debug)]
pub enum Written {
    NoConnection(String),
    /// One of the steps failed.
    Failed { step: String, error: String },
    Done,
}

/// The steps of the writing check, each with its name.
pub fn write_steps() -> (r: Vec<(&'static str, &'static str)>)
    ensures
        r@.len() == 4,
        r@[0].0@ == "create"@ && r@[0].1@
            == "CREATE TABLE IF NOT EXISTS _health_check (id INTEGER);"@,
        r@[1].0@ == "insert"@ && r@[1].1@ == "INSERT INTO _health_check (id) VALUES (1)"@,
        r@[2].0@ == "delete"@ && r@[2].1@ == "DELETE FROM _health_check WHERE id = 1"@,
        r@[3].0@ == "drop"@ && r@[3].1@ == "DROP TABLE IF EXISTS _health_check;"@,
{
    let mut v: Vec<(&'static str, &'static str)> = Vec::new();
    v.push(("create", "CREATE TABLE IF NOT EXISTS _health_check (id INTEGER);"));
    v.push(("insert", "INSERT INTO _health_check (id) VALUES (1)"));
    v.push(("delete", "DELETE FROM _health_check WHERE id = 1"));
    v.push(("drop", "DROP TABLE IF EXISTS _health_check;"));
    v
}

/// The check that the database can be read and written says this.
pub open spec fn rw_says(written: Written, duration_ms: u64, r: CheckResult) -> bool {
    match written {
        Written::NoConnection(e) => says(
            r,
            "sqlite_rw"@,
            "fail"@,
            "pool get failed: "@ + e@,
            duration_ms,
        ),
        Written::Failed { step, error } => says(
            r,
            "sqlite_rw"@,
            "fail"@,
            step@ + ": "@ + error@,
            duration_ms,
        ),
        Written::Done => says(r, "sqlite_rw"@, "pass"@, "read + write OK"@, duration_ms),
    }
}

/// The check that the database can be read and written.
pub fn check_sqlite_rw(written: &Written, duration_ms: u64) -> (r: CheckResult)
    ensures
        rw_says(*written, duration_ms, r),
{
    match written {
        Written::NoConnection(e) => said(
            "sqlite_rw",
            "fail",
            text::cat("pool get failed: ", e.as_str()),
            duration_ms,
        ),
        Written::Failed { step, error } => said(
            "sqlite_rw",
            "fail",
            text::cat3(step.as_str(), ": ", error.as_str()),
            duration_ms,
        ),
        Written::Done => said("sqlite_rw", "pass", "read + write OK".to_string(), duration_ms),
    }
}

/// What asking the database for one text came to.
#[derive(Debug)]
pub enum TextRow {
    NoConnection(String),
    Failed(String),
    Row(String),
}

/// What asking the database for one number came to.
#[derive(Debug)]
pub enum NumberRow {
    NoConnection(String),
    Failed(String),
    Row(i64),
}

/// The check that the database is sound says this.
pub open spec fn integrity_says(row: TextRow, duration_ms: u64, r: CheckResult) -> bool {
    match row {
        TextRow::NoConnection(e) => says(r, "integrity_check"@, "fail"@, "pool: "@ + e@, 0),
        TextRow::Failed(e) => says(
            r,
            "integrity_check"@,
            "fail"@,
            "query failed: "@ + e@,
            duration_ms,
        ),
        TextRow::Row(s) => if s@ == "ok"@ {
            says(r, "integrity_check"@, "pass"@, "all constraints OK"@, duration_ms)
        } else {
            says(
                r,
                "integrity_check"@,
                "fail"@,
                "corruption detected: "@ + s@,
                duration_ms,
            )
        },
    }
}

/// The check that the database is sound.
pub fn check_integrity(row: &TextRow, duration_ms: u64) -> (r: CheckResult)
    ensures
        integrity_says(*row, duration_ms, r),
{
    match row {
        TextRow::NoConnection(e) => said("integrity_check", "fail", text::cat("pool: ", e.as_str()), 0),
        TextRow::Failed(e) => said(
            "integrity_check",
            "fail",
            text::cat("query failed: ", e.as_str()),
            duration_ms,
        ),
        TextRow::Row(s) => if text::same(s.as_str(), "ok") {
            said("integrity_check", "pass", "all constraints OK".to_string(), duration_ms)
        } else {
            said(
                "integrity_check",
                "fail",
                text::cat("corruption detected: ", s.as_str()),
                duration_ms,
            )
        },
    }
}

/// The version that a row holds: 0 where there is none.
pub open spec fn version_in(row: NumberRow) -> int {
    match row {
        NumberRow::Row(n) => n as int,
        _ => 0,
    }
}

/// What the check of the schema says: an old schema is brought up to date, which
/// only warns.
pub open spec fn schema_says(row: NumberRow, ms: u64, r: (CheckResult, Option<String>)) -> bool {
    match row {
        NumberRow::NoConnection(e) => says(
            r.0,
            "schema_version"@,
            "fail"@,
            "pool: "@ + e@,
            0,
        ) && r.1 is None,
        _ => if version_in(row) >= EXPECTED_SCHEMA_VERSION {
            says(
                r.0,
                "schema_version"@,
                "pass"@,
                "user_version = "@ + text::dec_int(version_in(row)) + " (expected >= "@
                    + text::dec(EXPECTED_SCHEMA_VERSION as nat) + ")"@,
                ms,
            ) && r.1 is None
        } else {
            says(
                r.0,
                "schema_version"@,
                "warn"@,
                "upgraded user_version "@ + text::dec_int(version_in(row)) + " → "@ + text::dec(
                    EXPECTED_SCHEMA_VERSION as nat,
                ),
                ms,
            ) && text::opt_text(r.1) == Some(
                "PRAGMA user_version = "@ + text::dec(EXPECTED_SCHEMA_VERSION as nat) + ";"@,
            )
        },
    }
}

/// The check of the version of the schema, and the statement that brings an old
/// one up to date.
pub fn check_schema_version(row: &NumberRow, duration_ms: u64) -> (r: (
    CheckResult,
    Option<String>,
))
    ensures
        schema_says(*row, duration_ms, r),
{
    let version: i64 = match row {
        NumberRow::NoConnection(e) => {
            return (said("schema_version", "fail", text::cat("pool: ", e.as_str()), 0), None);
        },
        NumberRow::Failed(_) => 0,
        NumberRow::Row(n) => *n,
    };
    let expected = text::decimal(EXPECTED_SCHEMA_VERSION as u64);
    let found = text::decimal_signed(version);
    if version >= EXPECTED_SCHEMA_VERSION as i64 {
        (
            said(
                "schema_version",
                "pass",
                text::cat5(
                    "user_version = ",
                    found.as_str(),
                    " (expected >= ",
                    expected.as_str(),
                    ")",
                ),
                duration_ms,
            ),
            None,
        )
    } else {
        let mut message = text::cat3("upgraded user_version ", found.as_str(), " → ");
        message.append(expected.as_str());
        (
            said("schema_version", "warn", message, duration_ms),
            Some(text::cat3("PRAGMA user_version = ", expected.as_str(), ";")),
        )
    }
}

/// The tables that have to be there.
pub open spec fn core_tables() -> Seq<Seq<char>> {
    Seq::empty().push("memories"@).push("messages"@).push("sessions"@).push("decisions"@).push(
        "user_prefs"@,
    ).push("memory_relations"@).push("decay_log"@).push("dream_state"@)
}

/// The tables that have to be there.
pub fn required_tables() -> (r: Vec<String>)
    ensures
        text::texts(r@) == core_tables(),
{
    let mut v: Vec<String> = Vec::new();
    v.push("memories".to_string());
    v.push("messages".to_string());
    v.push("sessions".to_string());
    v.push("decisions".to_string());
    v.push("user_prefs".to_string());
    v.push("memory_relations".to_string());
    v.push("decay_log".to_string());
    v.push("dream_state".to_string());
    assert(text::texts(v@) =~= core_tables());
    v
}

/// The question whether a table is there.
pub fn table_query(table: &str) -> (r: String)
    ensures
        r@ == "SELECT COUNT(*) FROM sqlite_master WHERE type='table' AND name='"@ + table@ + "'"@,
{
    text::cat3("SELECT COUNT(*) FROM sqlite_master WHERE type='table' AND name='", table, "'")
}

/// Those of the first `n` tables that are not there. `counts` holds what was
/// found of each; one that could not be asked for counts as missing.
pub open spec fn missing_of(tables: Seq<Seq<char>>, counts: Seq<i64>, n: int) -> Seq<Seq<char>>
    decreases n,
{
    if n <= 0 {
        Seq::empty()
    } else if n - 1 < counts.len() && counts[n - 1] != 0 {
        missing_of(tables, counts, n - 1)
    } else {
        missing_of(tables, counts, n - 1).push(tables[n - 1])
    }
}

/// What the check of the tables says.
pub open spec fn tables_say(counts: Result<Seq<i64>, Seq<char>>, ms: u64, r: CheckResult) -> bool {
    match counts {
        Err(e) => says(r, "core_tables"@, "fail"@, "pool: "@ + e, 0),
        Ok(c) => {
            let missing = missing_of(core_tables(), c, core_tables().len() as int);
            if missing.len() == 0 {
                says(
                    r,
                    "core_tables"@,
                    "pass"@,
                    text::dec(core_tables().len()) + " tables present"@,
                    ms,
                )
            } else {
                says(
                    r,
                    "core_tables"@,
                    "fail"@,
                    "missing tables: "@ + text::joined(missing, ", "@),
                    ms,
                )
            }
        },
    }
}

/// The check that the tables are there. `counts` holds, for each of them, how
/// many of its name were found, or why there was no connection.
pub fn check_core_tables(counts: &Result<Vec<i64>, String>, duration_ms: u64) -> (r: CheckResult)
    ensures
        tables_say(
            match counts {
                Ok(c) => Ok(c@),
                Err(e) => Err(e@),
            },
            duration_ms,
            r,
        ),
{
    let counts = match counts {
        Ok(c) => c,
        Err(e) => {
            return said("core_tables", "fail", text::cat("pool: ", e.as_str()), 0);
        },
    };
    let tables = required_tables();
    let mut missing: Vec<String> = Vec::new();
    let mut i: usize = 0;
    assert(text::texts(missing@) =~= Seq::empty());
    while i < tables.len()
        invariant
            i <= tables@.len(),
            text::texts(tables@) == core_tables(),
            text::texts(missing@) == missing_of(core_tables(), counts@, i as int),
        decreases tables@.len() - i,
    {
        if !(i < counts.len() && counts[i] != 0) {
            let t = tables[i].clone();
            assert(t@ == text::texts(tables@)[i as int]);
            proof {
                text::lemma_texts_push(missing@, t);
            }
            missing.push(t);
        }
        i += 1;
    }
    assert(tables@.len() == text::texts(tables@).len());
    assert(missing@.len() == text::texts(missing@).len());
    if missing.len() == 0 {
        said(
            "core_tables",
            "pass",
            text::cat(text::decimal(tables.len() as u64).as_str(), " tables present"),
            duration_ms,
        )
    } else {
        said(
            "core_tables",
            "fail",
            text::cat("missing tables: ", text::join(&missing, ", ").as_str()),
            duration_ms,
        )
    }
}

/// The check that the full-text index can be asked says this.
pub open spec fn fts5_says(row: NumberRow, duration_ms: u64, r: CheckResult) -> bool {
    match row {
        NumberRow::NoConnection(e) => says(r, "fts5"@, "fail"@, "pool: "@ + e@, 0),
        NumberRow::Failed(e) => says(
            r,
            "fts5"@,
            "fail"@,
            "FTS5 query failed: "@ + e@,
            duration_ms,
        ),
        NumberRow::Row(_) => says(
            r,
            "fts5"@,
            "pass"@,
            "memories_fts + messages_fts queryable"@,
            duration_ms,
        ),
    }
}

/// The check that the full-text index can be asked.
pub fn check_fts5(row: &NumberRow, duration_ms: u64) -> (r: CheckResult)
    ensures
        fts5_says(*row, duration_ms, r),
{
    match row {
        NumberRow::NoConnection(e) => said("fts5", "fail", text::cat("pool: ", e.as_str()), 0),
        NumberRow::Failed(e) => said(
            "fts5",
            "fail",
            text::cat("FTS5 query failed: ", e.as_str()),
            duration_ms,
        ),
        NumberRow::Row(_) => said(
            "fts5",
            "pass",
            "memories_fts + messages_fts queryable".to_string(),
            duration_ms,
        ),
    }
}

/// The check of the vector index says this.
pub open spec fn hnsw_says(status: Seq<char>, count: u64, duration_ms: u64, r: CheckResult) -> bool {
    if status == "corrupted"@ {
        says(
            r,
            "hnsw_index"@,
            "warn"@,
            "HNSW 索引损坏已回退空索引 — 语义检索降级"@,
            duration_ms,
        )
    } else if status == "uninitialized"@ {
        says(
            r,
            "hnsw_index"@,
            "warn"@,
            "HNSW 索引未初始化（首次运行）— 语义检索未启用"@,
            duration_ms,
        )
    } else if count == 0 {
        says(
            r,
            "hnsw_index"@,
            "warn"@,
            "HNSW 索引为空 — 语义检索无结果"@,
            duration_ms,
        )
    } else {
        says(
            r,
            "hnsw_index"@,
            "pass"@,
            text::dec(count as nat) + " vectors loaded"@,
            duration_ms,
        )
    }
}

/// The check of the vector index, by what loading it came to and how many vectors
/// it holds.
pub fn check_hnsw_index(status: &str, count: u64, duration_ms: u64) -> (r: CheckResult)
    ensures
        hnsw_says(status@, count, duration_ms, r),
{
    if text::same(status, "corrupted") {
        said(
            "hnsw_index",
            "warn",
            "HNSW 索引损坏已回退空索引 — 语义检索降级".to_string(),
            duration_ms,
        )
    } else if text::same(status, "uninitialized") {
        said(
            "hnsw_index",
            "warn",
            "HNSW 索引未初始化（首次运行）— 语义检索未启用".to_string(),
            duration_ms,
        )
    } else if count == 0 {
        said(
            "hnsw_index",
            "warn",
            "HNSW 索引为空 — 语义检索无结果".to_string(),
            duration_ms,
        )
    } else {
        said(
            "hnsw_index",
            "pass",
            text::cat(text::decimal(count).as_str(), " vectors loaded"),
            duration_ms,
        )
    }
}

/// What asking for the free space on disk came to.
#[derive(Debug, Clone, Copy)]
pub enum DiskSpace {
    /// The platform cannot be asked.
    Unsupported,
    Failed,
    /// So many bytes are free.
    Free(u64),
}

/// The check of the space on disk says this.
pub open spec fn disk_says(space: DiskSpace, duration_ms: u64, r: CheckResult) -> bool {
    match space {
        DiskSpace::Unsupported => says(
            r,
            "disk_space"@,
            "warn"@,
            "disk space check not implemented on this platform"@,
            duration_ms,
        ),
        DiskSpace::Failed => says(
            r,
            "disk_space"@,
            "warn"@,
            "unable to query disk space"@,
            duration_ms,
        ),
        DiskSpace::Free(b) => if b / 1048576 < MIN_DISK_SPACE_MB {
            says(
                r,
                "disk_space"@,
                "fail"@,
                text::dec((b / 1048576) as nat) + " MB free (need "@ + text::dec(
                    MIN_DISK_SPACE_MB as nat,
                ) + " MB)"@,
                duration_ms,
            )
        } else {
            says(
                r,
                "disk_space"@,
                "pass"@,
                text::dec((b / 1048576) as nat) + " MB free"@,
                duration_ms,
            )
        },
    }
}

/// The check of the free space on disk.
pub fn check_disk_space(space: DiskSpace, duration_ms: u64) -> (r: CheckResult)
    ensures
        disk_says(space, duration_ms, r),
{
    match space {
        DiskSpace::Unsupported => said(
            "disk_space",
            "warn",
            "disk space check not implemented on this platform".to_string(),
            duration_ms,
        ),
        DiskSpace::Failed => said(
            "disk_space",
            "warn",
            "unable to query disk space".to_string(),
            duration_ms,
        ),
        DiskSpace::Free(b) => {
            let mb: u64 = b / 1048576;
            if mb < MIN_DISK_SPACE_MB {
                let mut message = text::cat3(
                    text::decimal(mb).as_str(),
                    " MB free (need ",
                    text::decimal(MIN_DISK_SPACE_MB).as_str(),
                );
                message.append(" MB)");
                said("disk_space", "fail", message, duration_ms)
            } else {
                said("disk_space", "pass", text::cat(text::decimal(mb).as_str(), " MB free"), duration_ms)
            }
        },
    }
}

/// The check of the audit log says this.
pub open spec fn audit_says(row: NumberRow, duration_ms: u64, r: CheckResult) -> bool {
    match row {
        NumberRow::NoConnection(e) => says(
            r,
            "audit_writable"@,
            "fail"@,
            "auth pool: "@ + e@,
            0,
        ),
        NumberRow::Failed(e) => says(
            r,
            "audit_writable"@,
            "warn"@,
            "audit query failed: "@ + e@,
            duration_ms,
        ),
        NumberRow::Row(n) => says(
            r,
            "audit_writable"@,
            if n > 0 {
                "pass"@
            } else {
                "warn"@
            },
            text::dec_int(n as int) + " audit table(s) found"@,
            duration_ms,
        ),
    }
}

/// The check of the audit log, by how many of its tables were found.
pub fn check_audit_writable(row: &NumberRow, duration_ms: u64) -> (r: CheckResult)
    ensures
        audit_says(*row, duration_ms, r),
{
    match row {
        NumberRow::NoConnection(e) => said(
            "audit_writable",
            "fail",
            text::cat("auth pool: ", e.as_str()),
            0,
        ),
        NumberRow::Failed(e) => said(
            "audit_writable",
            "warn",
            text::cat("audit query failed: ", e.as_str()),
            duration_ms,
        ),
        NumberRow::Row(n) => {
            let status = if *n > 0 {
                "pass"
            } else {
                "warn"
            };
            said(
                "audit_writable",
                status,
                text::cat(text::decimal_signed(*n).as_str(), " audit table(s) found"),
                duration_ms,
            )
        },
    }
}

/// The check of the log of writes says this.
pub open spec fn wal_says(row: TextRow, duration_ms: u64, r: CheckResult) -> bool {
    match row {
        TextRow::NoConnection(e) => says(r, "wal_mode"@, "warn"@, "pool: "@ + e@, 0),
        TextRow::Failed(_) => says(
            r,
            "wal_mode"@,
            "warn"@,
            "journal_mode = "@ + ""@ + " (expected wal)"@,
            duration_ms,
        ),
        TextRow::Row(m) => if m@ == "wal"@ {
            says(r, "wal_mode"@, "pass"@, "WAL mode active"@, duration_ms)
        } else {
            says(
                r,
                "wal_mode"@,
                "warn"@,
                "journal_mode = "@ + m@ + " (expected wal)"@,
                duration_ms,
            )
        },
    }
}

/// The check of the journal. A mode that cannot be asked for counts as empty.
pub fn check_wal_mode(row: &TextRow, duration_ms: u64) -> (r: CheckResult)
    ensures
        wal_says(*row, duration_ms, r),
{
    match row {
        TextRow::NoConnection(e) => said("wal_mode", "warn", text::cat("pool: ", e.as_str()), 0),
        TextRow::Failed(_) => said(
            "wal_mode",
            "warn",
            text::cat3("journal_mode = ", "", " (expected wal)"),
            duration_ms,
        ),
        TextRow::Row(m) => if text::same(m.as_str(), "wal") {
            said("wal_mode", "pass", "WAL mode active".to_string(), duration_ms)
        } else {
            said(
                "wal_mode",
                "warn",
                text::cat3("journal_mode = ", m.as_str(), " (expected wal)"),
                duration_ms,
            )
        },
    }
}

/// The check of the connections says this.
pub open spec fn pool_says(idle: u32, total: u32, duration_ms: u64, r: CheckResult) -> bool {
    if idle > 0 {
        says(
            r,
            "pool_stats"@,
            "pass"@,
            text::dec(idle as nat) + "/"@ + text::dec(total as nat) + " connections idle"@,
            duration_ms,
        )
    } else {
        says(
            r,
            "pool_stats"@,
            "warn"@,
            "0/"@ + text::dec(total as nat) + " connections idle — pool exhausted"@,
            duration_ms,
        )
    }
}

/// The check of the connections: one has to be idle.
pub fn check_pool_stats(idle: u32, total: u32, duration_ms: u64) -> (r: CheckResult)
    ensures
        pool_says(idle, total, duration_ms, r),
{
    let t = text::decimal(total as u64);
    if idle > 0 {
        let mut message = text::cat3(text::decimal(idle as u64).as_str(), "/", t.as_str());
        message.append(" connections idle");
        said("pool_stats", "pass", message, duration_ms)
    } else {
        said(
            "pool_stats",
            "warn",
            text::cat3("0/", t.as_str(), " connections idle — pool exhausted"),
            duration_ms,
        )
    }
}

/// Something that was found out, and how long that took, in milliseconds.
#[derive(Debug)]
pub struct Timed<T> {
    pub value: T,
    pub ms: u64,
}

/// What was found out for the checks.
#[derive(Debug)]
pub struct Measured {
    pub written: Timed<Written>,
    pub integrity: Timed<TextRow>,
    pub schema: Timed<NumberRow>,
    /// How many tables of each of the required names there are, or why there was no
    /// connection.
    pub tables: Timed<Result<Vec<i64>, String>>,
    pub fts5: Timed<NumberRow>,
    /// What loading the vector index came to, and how many vectors it holds.
    pub hnsw: Timed<(String, u64)>,
    pub disk: Timed<DiskSpace>,
    pub audit: Timed<NumberRow>,
    pub wal: Timed<TextRow>,
    /// The connections that are idle, and all.
    pub pool: Timed<(u32, u32)>,
    /// The address of the embedding service, and what asking it came to.
    pub embedding: Timed<(String, Probe)>,
}

/// The names of checks.
pub open spec fn names_of(checks: Seq<CheckResult>) -> Seq<Seq<char>> {
    Seq::new(checks.len(), |i: int| checks[i].name@)
}

/// The names of the hard checks.
pub open spec fn hard_names() -> Seq<Seq<char>> {
    seq!["sqlite_rw"@, "integrity_check"@, "schema_version"@, "core_tables"@, "fts5"@]
}

/// The names of the soft checks.
pub open spec fn soft_names() -> Seq<Seq<char>> {
    seq![
        "hnsw_index"@,
        "disk_space"@,
        "audit_writable"@,
        "wal_mode"@,
        "pool_stats"@,
        "embedding"@,
    ]
}

/// These are the hard checks, by what was found out.
pub open spec fn hard_say(m: Measured, hard: Seq<CheckResult>) -> bool {
    &&& hard.len() == 5
    &&& rw_says(m.written.value, m.written.ms, hard[0])
    &&& integrity_says(m.integrity.value, m.integrity.ms, hard[1])
    &&& exists|upgrade: Option<String>| #[trigger]
        schema_says(m.schema.value, m.schema.ms, (hard[2], upgrade))
    &&& tables_say(
        match m.tables.value {
            Ok(c) => Ok(c@),
            Err(e) => Err(e@),
        },
        m.tables.ms,
        hard[3],
    )
    &&& fts5_says(m.fts5.value, m.fts5.ms, hard[4])
}

/// These are the soft checks, by what was found out.
pub open spec fn soft_say(m: Measured, soft: Seq<CheckResult>) -> bool {
    &&& soft.len() == 6
    &&& hnsw_says(m.hnsw.value.0@, m.hnsw.value.1, m.hnsw.ms, soft[0])
    &&& disk_says(m.disk.value, m.disk.ms, soft[1])
    &&& audit_says(m.audit.value, m.audit.ms, soft[2])
    &&& wal_says(m.wal.value, m.wal.ms, soft[3])
    &&& pool_says(m.pool.value.0, m.pool.value.1, m.pool.ms, soft[4])
    &&& embedding_says(m.embedding.value.0@, m.embedding.value.1, m.embedding.ms, soft[5])
}

/// The report on what was found out.
pub open spec fn report_says(m: Measured, r: HealthReport) -> bool {
    &&& hard_say(m, r.hard_checks@)
    &&& names_of(r.hard_checks@) == hard_names()
    &&& soft_say(m, r.soft_checks@)
    &&& names_of(r.soft_checks@) == soft_names()
    &&& r.overall@ == verdict(r.hard_checks@, r.soft_checks@)
}

/// Runs the five hard and the six soft checks on what was found out, and puts them
/// together to a report.
pub fn run_health_check(m: &Measured, timestamp: String, version: String) -> (r: HealthReport)
    ensures
        report_says(*m, r),
        r.timestamp == timestamp,
        r.version == version,
{
    let mut hard: Vec<CheckResult> = Vec::new();
    hard.push(check_sqlite_rw(&m.written.value, m.written.ms));
    hard.push(check_integrity(&m.integrity.value, m.integrity.ms));
    let (schema, upgrade) = check_schema_version(&m.schema.value, m.schema.ms);
    hard.push(schema);
    hard.push(check_core_tables(&m.tables.value, m.tables.ms));
    hard.push(check_fts5(&m.fts5.value, m.fts5.ms));
    assert(schema_says(m.schema.value, m.schema.ms, (hard@[2], upgrade)));
    let mut soft: Vec<CheckResult> = Vec::new();
    soft.push(check_hnsw_index(m.hnsw.value.0.as_str(), m.hnsw.value.1, m.hnsw.ms));
    soft.push(check_disk_space(m.disk.value, m.disk.ms));
    soft.push(check_audit_writable(&m.audit.value, m.audit.ms));
    soft.push(check_wal_mode(&m.wal.value, m.wal.ms));
    soft.push(check_pool_stats(m.pool.value.0, m.pool.value.1, m.pool.ms));
    soft.push(
        check_embedding_endpoint(
            m.embedding.value.0.as_str(),
            &m.embedding.value.1,
            m.embedding.ms,
        ),
    );
    assert(names_of(hard@) =~= hard_names());
    assert(names_of(soft@) =~= soft_names());
    report_of(hard, soft, timestamp, version)
}

/// An embedding service that is not configured, or that does not answer, never makes a
/// failure, but it keeps the report from a pass.
pub proof fn law_missing_embedding_only_degrades(m: Measured, r: HealthReport)
    requires
        report_says(m, r),
        text::trimmed(m.embedding.value.0@).len() == 0 || m.embedding.value.1 is Unreachable,
    ensures
        r.overall@ != "pass"@,
        r.overall@ == "fail"@ <==> any_status(r.hard_checks@, "fail"@),
{
    law_only_hard_checks_fail(r.hard_checks@, r.soft_checks@);
    assert(r.soft_checks@[5].status@ == "warn"@ || r.soft_checks@[5].status@ == "fail"@);
}

/// Each check passes where what it looks at is as it should be, and only there; the others
/// of a report say whether that fails or only warns.
pub proof fn law_checks_pass_where_all_is_well(m: Measured, r: HealthReport)
    requires
        report_says(m, r),
    ensures
        r.hard_checks@[0].status@ == if m.written.value is Done {
            "pass"@
        } else {
            "fail"@
        },
        r.hard_checks@[1].status@ == if m.integrity.value matches TextRow::Row(s) && s@ == "ok"@ {
            "pass"@
        } else {
            "fail"@
        },
        r.hard_checks@[2].status@ == if m.schema.value is NoConnection {
            "fail"@
        } else if m.schema.value matches NumberRow::Row(n) && n >= 2 {
            "pass"@
        } else {
            "warn"@
        },
        r.hard_checks@[4].status@ == if m.fts5.value is Row {
            "pass"@
        } else {
            "fail"@
        },
        r.soft_checks@[0].status@ == if m.hnsw.value.1 > 0 && m.hnsw.value.0@ != "corrupted"@
            && m.hnsw.value.0@ != "uninitialized"@ {
            "pass"@
        } else {
            "warn"@
        },
        r.soft_checks@[1].status@ == match m.disk.value {
            DiskSpace::Free(b) => if b >= 500 * 1024 * 1024 {
                "pass"@
            } else {
                "fail"@
            },
            _ => "warn"@,
        },
        r.soft_checks@[2].status@ == match m.audit.value {
            NumberRow::NoConnection(_) => "fail"@,
            NumberRow::Failed(_) => "warn"@,
            NumberRow::Row(n) => if n > 0 {
                "pass"@
            } else {
                "warn"@
            },
        },
        r.soft_checks@[3].status@ == if m.wal.value matches TextRow::Row(s) && s@ == "wal"@ {
            "pass"@
        } else {
            "warn"@
        },
        r.soft_checks@[4].status@ == if m.pool.value.0 > 0 {
            "pass"@
        } else {
            "warn"@
        },
        text::trimmed(m.embedding.value.0@).len() > 0 ==> r.soft_checks@[5].status@
            == if m.embedding.value.1 matches Probe::Status(code) && 200 <= code <= 299 {
            "pass"@
        } else {
            "fail"@
        },
{
}

proof fn lemma_missing(tables: Seq<Seq<char>>, counts: Seq<i64>, n: int)
    requires
        0 <= n <= tables.len(),
    ensures
        missing_of(tables, counts, n).len() == 0 <==> (n <= counts.len() && forall|i: int|
            0 <= i < n ==> #[trigger] counts[i] != 0),
        forall|i: int|
            0 <= i < n && (i >= counts.len() || counts[i] == 0) ==> missing_of(tables, counts, n).contains(
                #[trigger] tables[i],
            ),
        forall|t: Seq<char>| #[trigger]
            missing_of(tables, counts, n).contains(t) ==> exists|i: int|
                0 <= i < n && #[trigger] tables[i] == t && (i >= counts.len() || counts[i] == 0),
    decreases n,
{
    if n > 0 {
        lemma_missing(tables, counts, n - 1);
        let p = missing_of(tables, counts, n - 1);
        let r = missing_of(tables, counts, n);
        if n - 1 < counts.len() && counts[n - 1] != 0 {
        } else {
            assert(r == p.push(tables[n - 1]));
            assert(r[p.len() as int] == tables[n - 1]);
            assert forall|i: int| 0 <= i < n && (i >= counts.len() || counts[i] == 0) implies r.contains(
                #[trigger] tables[i],
            ) by {
                if i < n - 1 {
                    let k = choose|k: int| 0 <= k < p.len() && p[k] == tables[i];
                    assert(r[k] == tables[i]);
                }
            }
            assert forall|t: Seq<char>| #[trigger] r.contains(t) implies exists|i: int|
                0 <= i < n && #[trigger] tables[i] == t && (i >= counts.len() || counts[i] == 0) by {
                let k = choose|k: int| 0 <= k < r.len() && r[k] == t;
                if k < p.len() {
                    assert(p[k] == t);
                    assert(p.contains(t));
                } else {
                    assert(tables[n - 1] == t);
                }
            }
        }
    }
}

/// The check of the tables passes where each of the eight was found, and names those that
/// were not.
pub proof fn law_missing_tables_are_named(counts: Seq<i64>, ms: u64, r: CheckResult, i: int)
    requires
        tables_say(Ok(counts), ms, r),
        0 <= i < 8,
    ensures
        r.status@ == if counts.len() >= 8 && forall|j: int| 0 <= j < 8 ==> #[trigger] counts[j] != 0 {
            "pass"@
        } else {
            "fail"@
        },
        missing_of(core_tables(), counts, 8).contains(core_tables()[i]) <==> (i >= counts.len()
            || counts[i] == 0),
        r.status@ == "fail"@ ==> r.message@ == "missing tables: "@ + text::joined(
            missing_of(core_tables(), counts, 8),
            ", "@,
        ),
        core_tables().contains("memories"@) && core_tables().contains("messages"@)
            && core_tables().contains("sessions"@) && core_tables().contains("decisions"@)
            && core_tables().contains("user_prefs"@) && core_tables().contains("memory_relations"@)
            && core_tables().contains("decay_log"@) && core_tables().contains("dream_state"@),
{
    reveal_strlit("memories");
    reveal_strlit("messages");
    reveal_strlit("sessions");
    reveal_strlit("decisions");
    reveal_strlit("user_prefs");
    reveal_strlit("memory_relations");
    reveal_strlit("decay_log");
    reveal_strlit("dream_state");
    reveal_strlit("pass");
    reveal_strlit("fail");
    assert("pass"@[0] == 'p' && "fail"@[0] == 'f');
    let t = core_tables();
    assert(t.len() == 8);
    assert(t[0] == "memories"@ && t[1] == "messages"@ && t[2] == "sessions"@ && t[3]
        == "decisions"@ && t[4] == "user_prefs"@ && t[5] == "memory_relations"@ && t[6]
        == "decay_log"@ && t[7] == "dream_state"@);
    lemma_missing(t, counts, 8);
    assert("memories"@.len() == 8 && "messages"@.len() == 8 && "sessions"@.len() == 8
        && "decisions"@.len() == 9 && "user_prefs"@.len() == 10 && "memory_relations"@.len() == 16
        && "decay_log"@.len() == 9 && "dream_state"@.len() == 11);
    assert("memories"@[2] == 'm' && "messages"@[2] == 's' && "sessions"@[0] == 's' && "memories"@[0]
        == 'm' && "messages"@[0] == 'm' && "decisions"@[2] == 'c' && "decay_log"@[2] == 'c'
        && "decisions"@[3] == 'i' && "decay_log"@[3] == 'a');
    assert forall|a: int, b: int| 0 <= a < 8 && 0 <= b < 8 && #[trigger] t[a] == #[trigger] t[b] implies a
        == b by {}
    let miss = missing_of(t, counts, 8);
    if miss.contains(t[i]) {
        let k = choose|k: int|
            0 <= k < 8 && #[trigger] t[k] == t[i] && (k >= counts.len() || counts[k] == 0);
        assert(k == i);
    }
}

/// Of two reports the checks that fail decide: a hard one that fails makes a failure, and
/// else any soft one that does not pass keeps the report from a pass.
pub proof fn law_verdict_is_the_worst(m: Measured, r: HealthReport)
    requires
        report_says(m, r),
    ensures
        r.overall@ == if exists|i: int| 0 <= i < 5 && (#[trigger] r.hard_checks@[i]).status@ == "fail"@ {
            "fail"@
        } else if forall|i: int|
            0 <= i < 6 ==> (#[trigger] r.soft_checks@[i]).status@ == "pass"@ {
            "pass"@
        } else {
            "degraded"@
        },
        forall|i: int|
            0 <= i < 5 ==> (#[trigger] r.hard_checks@[i]).name@ == seq![
                "sqlite_rw"@,
                "integrity_check"@,
                "schema_version"@,
                "core_tables"@,
                "fts5"@,
            ][i],
        forall|i: int|
            0 <= i < 6 ==> (#[trigger] r.soft_checks@[i]).name@ == seq![
                "hnsw_index"@,
                "disk_space"@,
                "audit_writable"@,
                "wal_mode"@,
                "pool_stats"@,
                "embedding"@,
            ][i],
{
    reveal_strlit("pass");
    reveal_strlit("fail");
    reveal_strlit("warn");
    assert("pass"@[0] == 'p' && "fail"@[0] == 'f' && "warn"@[0] == 'w');
    assert forall|i: int| 0 <= i < 5 implies (#[trigger] r.hard_checks@[i]).name@ == hard_names()[i] by {
        assert(names_of(r.hard_checks@)[i] == r.hard_checks@[i].name@);
    }
    assert forall|i: int| 0 <= i < 6 implies (#[trigger] r.soft_checks@[i]).name@ == soft_names()[i] by {
        assert(names_of(r.soft_checks@)[i] == r.soft_checks@[i].name@);
    }
    let soft = r.soft_checks@;
    assert(forall|i: int|
        0 <= i < 6 ==> (#[trigger] soft[i]).status@ == "pass"@ || soft[i].status@ == "warn"@
            || soft[i].status@ == "fail"@) by {
        assert(soft[0].status@ == "pass"@ || soft[0].status@ == "warn"@ || soft[0].status@ == "fail"@);
        assert(soft[1].status@ == "pass"@ || soft[1].status@ == "warn"@ || soft[1].status@ == "fail"@);
        assert(soft[2].status@ == "pass"@ || soft[2].status@ == "warn"@ || soft[2].status@ == "fail"@);
        assert(soft[3].status@ == "pass"@ || soft[3].status@ == "warn"@ || soft[3].status@ == "fail"@);
        assert(soft[4].status@ == "pass"@ || soft[4].status@ == "warn"@ || soft[4].status@ == "fail"@);
        assert(soft[5].status@ == "pass"@ || soft[5].status@ == "warn"@ || soft[5].status@ == "fail"@);
    }
}

/// The health of a service is asked for beside its other addresses.
pub proof fn law_health_stands_beside_the_service(base: Seq<char>)
    requires
        base.len() > 0,
        base.last() != '/',
        !text::ends(base, "/embed"@),
    ensures
        health_address(base) == base + "/health"@,
        health_address(base + "/"@) == base + "/health"@,
        health_address(base + "/embed"@) == base + "/health"@,
{
    reveal_strlit("/embed");
    reveal_strlit("/health");
    reveal_strlit("health");
    reveal_strlit("/");
    assert("/health"@ =~= "/"@ + "health"@);
    let a = base + "/"@;
    assert(a.subrange(a.len() - 1, a.len() as int) =~= "/"@);
    assert(a.last() == '/');
    assert(!text::ends(a, "/embed"@)) by {
        if text::ends(a, "/embed"@) {
            assert(a.subrange(a.len() - 6, a.len() as int)[5] == 'd');
        }
    }
    assert(!text::ends(base, "/"@)) by {
        if text::ends(base, "/"@) {
            assert(base.subrange(base.len() - 1, base.len() as int)[0] == '/');
        }
    }
    assert(a + "health"@ =~= base + "/health"@);
    let b = base + "/embed"@;
    assert(b.subrange(b.len() - 6, b.len() as int) =~= "/embed"@);
    assert(b.take(b.len() - 5) + "health"@ =~= base + "/health"@);
}

/// An address names its host, its port and its path, in this order; the port is 80 and the
/// path a slash where they are left out.
pub proof fn law_addresses_are_taken_apart(
    host: Seq<char>,
    port: u16,
    path: Seq<char>,
    r: Result<Target, String>,
)
    requires
        !host.contains('/'),
        !host.contains(':'),
    ensures
        address("http://"@ + host + ":"@ + text::dec(port as nat) + "/"@ + path, r) ==> (r matches Ok(t)
            && t.host@ == host && t.port == port && t.path@ == "/"@ + path),
        address("http://"@ + host + "/"@ + path, r) ==> (r matches Ok(t) && t.host@ == host && t.port
            == 80 && t.path@ == "/"@ + path),
        address("http://"@ + host, r) ==> (r matches Ok(t) && t.host@ == host && t.port == 80
            && t.path@ == "/"@),
{
    reveal_strlit("/");
    reveal_strlit(":");
    let h = "http://"@;
    let d = text::dec(port as nat);
    text::law_decimal_is_read_back(port as nat, u16::MAX as nat);
    let auth = host + ":"@ + d;
    assert(!d.contains('/') && !d.contains(':')) by {
        if d.contains('/') || d.contains(':') {
            let k = choose|k: int| 0 <= k < d.len() && (d[k] == '/' || d[k] == ':');
            assert(text::is_digit(d[k]));
        }
    }
    assert(!auth.contains('/')) by {
        if auth.contains('/') {
            let k = choose|k: int| 0 <= k < auth.len() && auth[k] == '/';
            if k < host.len() {
                assert(host[k] == '/');
            } else if k > host.len() {
                assert(d[k - host.len() - 1] == '/');
            }
        }
    }
    let u = h + host + ":"@ + d + "/"@ + path;
    lemma_rest(u, auth + "/"@ + path);
    lemma_authority(auth, path);
    text::law_characters_are_found(auth, ':', 0);
    assert(auth[host.len() as int] == ':');
    if let Some(k) = text::last_index(auth, ':') {
        if k < host.len() {
            assert(host[k] == ':');
        }
        if k > host.len() {
            assert(d[k - host.len() - 1] == ':');
        }
        assert(k == host.len());
        assert(auth.skip(k + 1) =~= d);
        assert(auth.take(k) =~= host);
    }
    text::law_characters_are_found(host, ':', 0);
    if let Some(k) = text::last_index(host, ':') {
        assert(host[k] == ':');
    }
    let v = h + host + "/"@ + path;
    lemma_rest(v, host + "/"@ + path);
    lemma_authority(host, path);
    lemma_rest(h + host, host);
    text::law_characters_are_found(host, '/', 0);
    if let Some(k) = text::index_from(host, '/', 0) {
        assert(host[k] == '/');
    }
}

proof fn lemma_rest(u: Seq<char>, rest: Seq<char>)
    requires
        u =~= "http://"@ + rest,
    ensures
        text::without_prefix(u, "http://"@) == Some(rest),
{
    assert(u.subrange(0, "http://"@.len() as int) =~= "http://"@);
    assert(u.skip("http://"@.len() as int) =~= rest);
}

proof fn lemma_authority(auth: Seq<char>, path: Seq<char>)
    requires
        !auth.contains('/'),
    ensures
        authority(auth + "/"@ + path) == auth,
        address_path(auth + "/"@ + path) == "/"@ + path,
{
    reveal_strlit("/");
    let s = auth + "/"@ + path;
    assert(s[auth.len() as int] == '/');
    text::law_characters_are_found(s, '/', 0);
    if let Some(k) = text::index_from(s, '/', 0) {
        if k < auth.len() {
            assert(auth[k] == '/');
        }
        assert(k == auth.len());
        assert(s.take(k) =~= auth);
        assert(s.skip(k) =~= "/"@ + path);
    }
}

proof fn lemma_word_end(s: Seq<char>, i: int, n: int)
    requires
        0 <= i <= n <= s.len(),
        forall|j: int| i <= j < n ==> !text::is_space(#[trigger] s[j]),
        n == s.len() || text::is_space(s[n]),
    ensures
        word_end(s, i) == n,
    decreases n - i,
{
    if i < n {
        assert(!text::is_space(s[i]));
        lemma_word_end(s, i + 1, n);
    }
}

/// The status of a reply is the number behind the version in its first line.
pub proof fn law_status_stands_behind_the_version(
    version: Seq<char>,
    code: u16,
    reason: Seq<char>,
    more: Seq<char>,
)
    requires
        version.len() > 0,
        forall|j: int| 0 <= j < version.len() ==> !text::is_space(#[trigger] version[j]),
        !reason.contains('\n'),
    ensures
        reply_code(version + seq![' '] + text::dec(code as nat) + seq![' '] + reason + seq!['\r', '\n']
            + more) == code,
        reply_code(Seq::empty()) == 0,
{
    let d = text::dec(code as nat);
    text::law_decimal_is_read_back(code as nat, u16::MAX as nat);
    let line = version + seq![' '] + d + seq![' '] + reason;
    let v = version.len() as int;
    assert(!line.contains('\n')) by {
        if line.contains('\n') {
            let k = choose|k: int| 0 <= k < line.len() && line[k] == '\n';
            if k < v {
                assert(text::is_space(version[k]));
            } else if v < k < v + 1 + d.len() {
                assert(text::is_digit(d[k - v - 1]));
            } else if k > v + 1 + d.len() {
                assert(reason[k - v - 2 - d.len()] == '\n');
            }
        }
    }
    text::law_lines_end_at_line_feeds(line, more);
    assert(line + seq!['\r', '\n'] + more =~= version + seq![' '] + d + seq![' '] + reason + seq![
        '\r',
        '\n',
    ] + more);
    let e = Seq::<char>::empty();
    assert(!e.contains('\n'));
    text::law_lines_end_at_line_feeds(e, e);
    assert(first_line(line + seq!['\r', '\n'] + more) == line);
    assert(line[0] == version[0]);
    assert(text::trimmed_start(line) == line);
    assert forall|j: int| 0 <= j < v implies !text::is_space(#[trigger] line[j]) by {
        assert(line[j] == version[j]);
    }
    assert(line[v] == ' ');
    lemma_word_end(line, 0, v);
    let b = line.skip(v);
    assert(b == behind_word(line));
    let t = d + seq![' '] + reason;
    assert(b[0] == ' ');
    assert(b.skip(1) =~= t);
    assert(t[0] == d[0] && text::is_digit(d[0]));
    reveal_with_fuel(text::trimmed_start, 3);
    assert(text::trimmed_start(b) == t);
    assert forall|j: int| 0 <= j < d.len() implies !text::is_space(#[trigger] t[j]) by {
        assert(t[j] == d[j] && text::is_digit(d[j]));
    }
    assert(t[d.len() as int] == ' ');
    lemma_word_end(t, 0, d.len() as int);
    assert(t.take(d.len() as int) =~= d);
    assert(first_word(b) == d);
    assert(first_word(behind_word(e)) =~= e) by {
        assert(text::trimmed_start(e) =~= e);
        assert(e.skip(0) =~= e);
        assert(e.take(0) =~= e);
    }
    assert(first_line(e) =~= e);
}

/// The body of a reply stands behind its first empty line, and no more than four hundred
/// characters of it are shown.
pub proof fn law_bodies_stand_behind_the_empty_line(head: Seq<char>, body: Seq<char>)
    requires
        forall|j: int|
            0 <= j < head.len() ==> !#[trigger] text::stands_at(
                head + "\r\n\r\n"@ + body,
                "\r\n\r\n"@,
                j,
            ),
        forall|j: int|
            head.len() + 4 <= j ==> !#[trigger] text::stands_at(
                head + "\r\n\r\n"@ + body,
                "\r\n\r\n"@,
                j,
            ),
    ensures
        body.len() <= 400 ==> reply_body(head + "\r\n\r\n"@ + body) == body,
        body.len() > 400 ==> reply_body(head + "\r\n\r\n"@ + body) == body.take(400),
{
    reveal_strlit("\r\n\r\n");
    let sep = "\r\n\r\n"@;
    let s = head + sep + body;
    let h = head.len() as int;
    assert(s.subrange(h, h + 4) =~= sep);
    assert(text::stands_at(s, sep, h));
    text::law_texts_are_found(s, sep, 0);
    if let Some(k) = text::find_at(s, sep, 0) {
        if k < h {
            assert(!text::stands_at(s, sep, k));
        }
        assert(k == h);
    }
    text::law_texts_are_found(s, sep, h + 4);
    if let Some(k) = text::find_at(s, sep, h + 4) {
        assert(!text::stands_at(s, sep, k));
    }
    assert(s.skip(h + 4) =~= body);
    text::law_first_characters(body, 400);
    assert(reply_body(s) == text::first_chars(body, 400));
    assert(body.len() <= 400 ==> body.take(body.len() as int) =~= body);
}

} // verus!
