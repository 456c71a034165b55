//! Badges, namespaces, and what the audit log may hold.
use vstd::prelude::*;
use vstd::utf8::*;
use crate::clock;
use crate::dates;
use crate::dates::Date;
use crate::hash;
use crate::json;
use crate::json::{Json, JsonView, Number, NumberView};
use crate::quota::Moment;
use crate::text;

verus! {

/// The badge that an agent gets when it is registered.
#[derive(Debug)]
pub struct AgentBadge {
    pub agent_id: String,
    pub display_name: String,
    pub namespace: String,
    pub badge_token: String,
    pub permission: String,
    pub allowed_skills: Vec<String>,
    pub expires_at: String,
}

/// Who a caller is, and what it may see.
#[derive(Debug)]
pub struct AuthResult {
    pub agent_id: String,
    pub allowed_ns: Vec<String>,
    pub role: String,
}

/// What a caller is, in texts.
pub struct AuthView {
    pub agent_id: Seq<char>,
    pub allowed_ns: Seq<Seq<char>>,
    pub role: Seq<char>,
}

impl AuthResult {
    pub open spec fn view(&self) -> AuthView {
        AuthView {
            agent_id: self.agent_id@,
            allowed_ns: text::texts(self.allowed_ns@),
            role: self.role@,
        }
    }
}

/// The namespace of a new agent: the given ones with commas between, or one of
/// its own.
pub open spec fn agent_namespace(agent_id: Seq<char>, namespaces: Seq<Seq<char>>) -> Seq<char> {
    if namespaces.len() == 0 {
        "agent/"@ + agent_id
    } else {
        text::joined(namespaces, ","@)
    }
}

/// What the token of a new agent is the sum of.
pub open spec fn token_seed(agent_id: Seq<char>, nanos: int, random: nat) -> Seq<char> {
    "mem_"@ + agent_id + "_"@ + text::dec_int(nanos) + "_"@ + text::dec(random)
}

/// Makes the badge of a new agent. `nanos` is the time, `random` a random
/// number; `expires_at` is when the badge ends.
pub fn new_badge(
    agent_id: &str,
    display_name: &str,
    namespaces: &Vec<String>,
    permission: &str,
    nanos: i64,
    random: u64,
    expires_at: &str,
) -> (r: AgentBadge)
    ensures
        r.agent_id@ == agent_id@,
        r.display_name@ == display_name@,
        r.namespace@ == agent_namespace(agent_id@, text::texts(namespaces@)),
        r.badge_token@ == hash::sum(encode_utf8(token_seed(agent_id@, nanos as int, random as nat))),
        r.permission@ == permission@,
        r.allowed_skills@.len() == 0,
        r.expires_at@ == expires_at@,
{
    let namespace = if namespaces.len() == 0 {
        text::cat("agent/", agent_id)
    } else {
        text::join(namespaces, ",")
    };
    let mut seed = text::cat("mem_", agent_id);
    seed.append("_");
    seed.append(text::decimal_signed(nanos).as_str());
    seed.append("_");
    seed.append(text::decimal(random).as_str());
    let badge_token = hash::sha256_hex(seed.as_str().as_bytes());
    AgentBadge {
        agent_id: agent_id.to_string(),
        display_name: display_name.to_string(),
        namespace,
        badge_token,
        permission: permission.to_string(),
        allowed_skills: Vec::new(),
        expires_at: expires_at.to_string(),
    }
}

/// The skills that a text of the registry lists; none where it is no list of texts.
pub open spec fn skills_in(s: Seq<char>) -> Seq<Seq<char>> {
    match json::parsed_list(s) {
        Some(l) => l,
        None => Seq::empty(),
    }
}

/// Reads the skills of an agent from the registry.
pub fn stored_skills(s: &str) -> (r: Vec<String>)
    ensures
        text::texts(r@) == skills_in(s@),
{
    match json::read_list(s) {
        Some(v) => v,
        None => {
            let none: Vec<String> = Vec::new();
            assert(text::texts(none@) =~= Seq::empty());
            none
        },
    }
}

/// The row of the registry that stands for an agent whose badge has not ended.
#[derive(Debug)]
pub struct BadgeRow {
    pub badge_token: String,
    pub namespace: String,
    pub permission: String,
}

/// The namespaces that a registry entry grants.
pub open spec fn granted_ns(namespace: Seq<char>, permission: Seq<char>) -> Seq<Seq<char>> {
    if permission == "admin"@ {
        seq!["*"@]
    } else {
        text::comma_list(text::split_on(namespace, ','))
    }
}

pub open spec fn opt_row(row: Option<&BadgeRow>) -> Option<BadgeRow> {
    match row {
        Some(b) => Some(*b),
        None => None,
    }
}

/// Who a caller is by its badge and its row in the registry, or why it is refused.
pub open spec fn known_as(agent_id: Seq<char>, badge_token: Seq<char>, row: Option<BadgeRow>) -> Result<
    AuthView,
    Seq<char>,
> {
    match row {
        Some(b) => if b.badge_token@ == badge_token {
            Ok(
                AuthView {
                    agent_id,
                    allowed_ns: granted_ns(b.namespace@, b.permission@),
                    role: b.permission@,
                },
            )
        } else {
            Err("invalid badge token"@)
        },
        None => Err("unknown or expired agent: "@ + agent_id),
    }
}

/// Checks the badge of a caller against its row in the registry, if it has one.
pub fn authenticate(agent_id: &str, badge_token: &str, row: Option<&BadgeRow>) -> (r: Result<
    AuthResult,
    String,
>)
    ensures
        match r {
            Ok(a) => known_as(agent_id@, badge_token@, opt_row(row)) == Ok::<AuthView, Seq<char>>(
                a@,
            ),
            Err(e) => known_as(agent_id@, badge_token@, opt_row(row)) == Err::<
                AuthView,
                Seq<char>,
            >(e@),
        },
{
    match row {
        None => Err(text::cat("unknown or expired agent: ", agent_id)),
        Some(b) => {
            if !ct_eq(b.badge_token.as_str(), badge_token) {
                return Err("invalid badge token".to_string());
            }
            let allowed_ns: Vec<String> = if text::same(b.permission.as_str(), "admin") {
                let mut v: Vec<String> = Vec::new();
                v.push("*".to_string());
                assert(text::texts(v@) =~= seq!["*"@]);
                v
            } else {
                text::split_commas(b.namespace.as_str())
            };
            Ok(
                AuthResult {
                    agent_id: agent_id.to_string(),
                    allowed_ns,
                    role: b.permission.clone(),
                },
            )
        },
    }
}

proof fn lemma_or_xor(d: u8, x: u8, y: u8)
    ensures
        (d | (x ^ y)) == 0 <==> d == 0 && x == y,
{
    assert((d | (x ^ y)) == 0 <==> d == 0 && x == y) by (bit_vector);
}

proof fn lemma_same_bytes(a: Seq<char>, b: Seq<char>)
    ensures
        encode_utf8(a) == encode_utf8(b) <==> a == b,
{
    encode_utf8_decode_utf8(a);
    encode_utf8_decode_utf8(b);
}

/// The byte at `k`, or zero behind the end.
spec fn byte_at(s: Seq<u8>, k: int) -> u8 {
    if k < s.len() {
        s[k]
    } else {
        0
    }
}

spec fn same_up_to(a: Seq<u8>, b: Seq<u8>, n: int) -> bool {
    forall|k: int| 0 <= k < n ==> byte_at(a, k) == #[trigger] byte_at(b, k)
}

/// Compares two texts, taking as long whatever they hold: as many steps as the
/// longer one has bytes.
pub fn ct_eq(a: &str, b: &str) -> (r: bool)
    ensures
        r == (a@ == b@),
{
    let ab = a.as_bytes();
    let bb = b.as_bytes();
    let max: usize = if ab.len() >= bb.len() {
        ab.len()
    } else {
        bb.len()
    };
    let mut diff: u8 = 0;
    let mut i: usize = 0;
    while i < max
        invariant
            i <= max,
            max >= ab@.len(),
            max >= bb@.len(),
            max == ab@.len() || max == bb@.len(),
            diff == 0 <==> same_up_to(ab@, bb@, i as int),
        decreases max - i,
    {
        let x: u8 = if i < ab.len() {
            ab[i]
        } else {
            0
        };
        let y: u8 = if i < bb.len() {
            bb[i]
        } else {
            0
        };
        proof {
            lemma_or_xor(diff, x, y);
            assert(x == byte_at(ab@, i as int) && y == byte_at(bb@, i as int));
            assert(same_up_to(ab@, bb@, i + 1) <==> same_up_to(ab@, bb@, i as int) && x == y);
        }
        diff = diff | (x ^ y);
        i += 1;
    }
    proof {
        lemma_same_bytes(a@, b@);
        if ab@.len() == bb@.len() && diff == 0 {
            assert(ab@ =~= bb@) by {
                assert forall|k: int| 0 <= k < ab@.len() implies ab@[k] == bb@[k] by {
                    assert(byte_at(ab@, k) == byte_at(bb@, k));
                }
            }
        }
        if ab@ == bb@ {
            assert(diff == 0);
        }
    }
    ab.len() == bb.len() && diff == 0
}

/// One of two namespaces is the other or lies below it.
pub open spec fn same_subtree(a: Seq<char>, b: Seq<char>) -> bool {
    a == b || text::begins(b, a + "/"@) || text::begins(a, b + "/"@)
}

/// A caller may use a namespace: it is an administrator, has the wildcard, or
/// has a namespace in the same subtree.
pub open spec fn may_access(auth: AuthView, namespace: Seq<char>) -> bool {
    ||| auth.role == "admin"@
    ||| text::listed(auth.allowed_ns, "*"@)
    ||| exists|i: int|
        0 <= i < auth.allowed_ns.len() && same_subtree(#[trigger] auth.allowed_ns[i], namespace)
}

/// Tells whether a caller may use a namespace.
pub fn check_ns_access(auth: &AuthResult, namespace: &str) -> (r: bool)
    ensures
        r == may_access(auth@, namespace@),
{
    if text::same(auth.role.as_str(), "admin") {
        return true;
    }
    if text::is_listed(&auth.allowed_ns, "*") {
        return true;
    }
    let mut i: usize = 0;
    while i < auth.allowed_ns.len()
        invariant
            i <= auth.allowed_ns@.len(),
            auth.role@ != "admin"@,
            !text::listed(auth@.allowed_ns, "*"@),
            forall|k: int| 0 <= k < i ==> !same_subtree(#[trigger] auth@.allowed_ns[k], namespace@),
        decreases auth.allowed_ns@.len() - i,
    {
        let ns = auth.allowed_ns[i].as_str();
        assert(auth@.allowed_ns[i as int] == ns@);
        if text::same(ns, namespace) || text::starts_with(namespace, text::cat(ns, "/").as_str()) || text::starts_with(
            ns,
            text::cat(namespace, "/").as_str(),
        ) {
            return true;
        }
        i += 1;
    }
    false
}

/// A namespace that a caller has opens all that lies below it.
pub proof fn law_access_extends_below(auth: AuthView, i: int, rest: Seq<char>)
    requires
        0 <= i < auth.allowed_ns.len(),
    ensures
        may_access(auth, auth.allowed_ns[i]),
        may_access(auth, auth.allowed_ns[i] + "/"@ + rest),
{
    let ns = auth.allowed_ns[i];
    let below = ns + "/"@ + rest;
    reveal_strlit("/");
    assert(below.subrange(0, (ns + "/"@).len() as int) =~= ns + "/"@);
    assert(same_subtree(auth.allowed_ns[i], below));
    assert(same_subtree(auth.allowed_ns[i], ns));
}

/// A caller without any namespace, and without the admin role, sees nothing.
pub proof fn law_no_namespace_no_access(auth: AuthView, namespace: Seq<char>)
    requires
        auth.role != "admin"@,
        auth.allowed_ns.len() == 0,
    ensures
        !may_access(auth, namespace),
{
}

/// What the name of a field that holds a secret has in it.
pub open spec fn sensitive_words() -> Seq<Seq<char>> {
    seq![
        "api_key"@,
        "api-key"@,
        "apikey"@,
        "token"@,
        "secret"@,
        "password"@,
        "passwd"@,
        "credential"@,
        "auth"@,
        "authorization"@,
        "bearer"@,
        "access_key"@,
        "accesskey"@,
        "private_key"@,
        "privatekey"@,
        "ssl_key"@,
        "ssh_key"@,
        "admin_key"@,
        "adminkey"@,
    ]
}

fn sensitive_list() -> (r: Vec<String>)
    ensures
        text::texts(r@) == sensitive_words(),
{
    let mut v: Vec<String> = Vec::new();
    v.push("api_key".to_string());
    v.push("api-key".to_string());
    v.push("apikey".to_string());
    v.push("token".to_string());
    v.push("secret".to_string());
    v.push("password".to_string());
    v.push("passwd".to_string());
    v.push("credential".to_string());
    v.push("auth".to_string());
    v.push("authorization".to_string());
    v.push("bearer".to_string());
    v.push("access_key".to_string());
    v.push("accesskey".to_string());
    v.push("private_key".to_string());
    v.push("privatekey".to_string());
    v.push("ssl_key".to_string());
    v.push("ssh_key".to_string());
    v.push("admin_key".to_string());
    v.push("adminkey".to_string());
    assert(text::texts(v@) =~= sensitive_words());
    v
}

/// A lower-case name that tells of a secret.
pub open spec fn names_secret(low: Seq<char>) -> bool {
    exists|i: int|
        0 <= i < sensitive_words().len() && text::occurs(low, #[trigger] sensitive_words()[i])
}

/// A field of this name holds a secret.
pub open spec fn is_sensitive(key: Seq<char>) -> bool {
    names_secret(text::lowercased(key))
}

fn secret_in(low: &str, words: &Vec<String>) -> (r: bool)
    requires
        text::texts(words@) == sensitive_words(),
    ensures
        r == names_secret(low@),
{
    let mut i: usize = 0;
    while i < words.len()
        invariant
            i <= words@.len(),
            text::texts(words@) == sensitive_words(),
            forall|k: int|
                0 <= k < i ==> !text::occurs(low@, #[trigger] sensitive_words()[k]),
        decreases words@.len() - i,
    {
        assert(sensitive_words()[i as int] == words@[i as int]@);
        if text::contains(low, words[i].as_str()) {
            return true;
        }
        i += 1;
    }
    assert(sensitive_words().len() == words@.len());
    false
}

/// Tells whether a lower-case name tells of a secret.
pub fn is_secret_name(low: &str) -> (r: bool)
    ensures
        r == names_secret(low@),
{
    secret_in(low, &sensitive_list())
}

fn sensitive(key: &str, words: &Vec<String>) -> (r: bool)
    requires
        text::texts(words@) == sensitive_words(),
    ensures
        r == is_sensitive(key@),
{
    secret_in(text::to_lowercase(key).as_str(), words)
}

/// A secret as the log may hold it: its first four characters and four stars,
/// or only the stars where it has no more than four.
pub open spec fn masked(s: Seq<char>) -> Seq<char> {
    if s.len() > 4 {
        s.take(4) + "****"@
    } else {
        "****"@
    }
}

fn mask(s: &str) -> (r: String)
    ensures
        r@ == masked(s@),
{
    let v = text::chars_of(s);
    if v.len() > 4 {
        let head = text::string_between(&v, 0, 4);
        assert(head@ =~= s@.take(4));
        text::cat(head.as_str(), "****")
    } else {
        "****".to_string()
    }
}

/// A JSON value as the log may hold it: the members with a sensitive name are masked;
/// below any other member the same is done again.
pub open spec fn sanitized(j: JsonView) -> JsonView
    decreases j,
{
    match j {
        JsonView::Object(o) => JsonView::Object(
            Seq::new(
                o.len(),
                |i: int|
                    if 0 <= i < o.len() {
                        (
                            o[i].0,
                            if is_sensitive(o[i].0) {
                                masked_value(o[i].1)
                            } else {
                                sanitized(o[i].1)
                            },
                        )
                    } else {
                        (Seq::empty(), JsonView::Null)
                    },
            ),
        ),
        JsonView::Array(a) => JsonView::Array(
            Seq::new(
                a.len(),
                |i: int|
                    if 0 <= i < a.len() {
                        sanitized(a[i])
                    } else {
                        JsonView::Null
                    },
            ),
        ),
        _ => j,
    }
}

/// A number in its notation.
pub open spec fn number_text(n: NumberView) -> Seq<char> {
    match n {
        NumberView::Unsigned(k) => text::dec(k as nat),
        NumberView::Negative(k) => text::dec_int(k as int),
        NumberView::Real(t) => t,
    }
}

/// The value of a member with a sensitive name as the log may hold it: every string
/// and every number in it is masked, at any depth, and its structure is kept.
pub open spec fn masked_value(j: JsonView) -> JsonView
    decreases j,
{
    match j {
        JsonView::Text(s) => JsonView::Text(masked(s)),
        JsonView::Number(n) => JsonView::Text(masked(number_text(n))),
        JsonView::Array(a) => JsonView::Array(
            Seq::new(
                a.len(),
                |i: int|
                    if 0 <= i < a.len() {
                        masked_value(a[i])
                    } else {
                        JsonView::Null
                    },
            ),
        ),
        JsonView::Object(o) => JsonView::Object(
            Seq::new(
                o.len(),
                |i: int|
                    if 0 <= i < o.len() {
                        (o[i].0, masked_value(o[i].1))
                    } else {
                        (Seq::empty(), JsonView::Null)
                    },
            ),
        ),
        _ => j,
    }
}

fn mask_number(n: &Number) -> (r: Json)
    ensures
        r@ == JsonView::Text(masked(number_text(n@))),
{
    match n {
        Number::Unsigned(k) => Json::Text(mask(text::decimal(*k).as_str())),
        Number::Negative(k) => Json::Text(mask(text::decimal_signed(*k).as_str())),
        Number::Real(t) => Json::Text(mask(t.as_str())),
    }
}

/// Masks every string and every number in a JSON value.
fn mask_value(v: &Json) -> (r: Json)
    ensures
        r@ == masked_value(v@),
    decreases v,
{
    match v {
        Json::Text(s) => Json::Text(mask(s.as_str())),
        Json::Number(n) => mask_number(n),
        Json::Array(a) => {
            let mut out: Vec<Json> = Vec::new();
            let mut i: usize = 0;
            let ghost want = masked_value(v@)->Array_0;
            while i < a.len()
                invariant
                    i <= a@.len(),
                    *v == Json::Array(*a),
                    want == masked_value(v@)->Array_0,
                    want.len() == a@.len(),
                    out@.len() == i,
                    forall|k: int| 0 <= k < i ==> (#[trigger] out@[k])@ == want[k],
                decreases a@.len() - i,
            {
                let ghost av = v@->Array_0;
                proof {
                    assert(av[i as int] == a@[i as int]@);
                    assert(decreases_to!(v => v->Array_0@[i as int]));
                }
                out.push(mask_value(&a[i]));
                i += 1;
            }
            let r = Json::Array(out);
            assert(r@->Array_0 =~= want);
            r
        },
        Json::Object(o) => {
            let mut out: Vec<(String, Json)> = Vec::new();
            let mut i: usize = 0;
            let ghost want = masked_value(v@)->Object_0;
            while i < o.len()
                invariant
                    i <= o@.len(),
                    *v == Json::Object(*o),
                    want == masked_value(v@)->Object_0,
                    want.len() == o@.len(),
                    out@.len() == i,
                    forall|k: int|
                        0 <= k < i ==> ((#[trigger] out@[k]).0@, out@[k].1@) == want[k],
                decreases o@.len() - i,
            {
                let ghost ov = v@->Object_0;
                proof {
                    assert(ov[i as int] == (o@[i as int].0@, o@[i as int].1@));
                    assert(decreases_to!(v => v->Object_0@[i as int].1));
                }
                let value = mask_value(&o[i].1);
                out.push((o[i].0.clone(), value));
                i += 1;
            }
            let r = Json::Object(out);
            assert(r@->Object_0 =~= want);
            r
        },
        other => other.copy(),
    }
}

/// Masks the secrets in a JSON value.
pub fn sanitize_json_value(v: &Json) -> (r: Json)
    ensures
        r@ == sanitized(v@),
{
    sanitize_with(v, &sensitive_list())
}

fn sanitize_with(v: &Json, words: &Vec<String>) -> (r: Json)
    requires
        text::texts(words@) == sensitive_words(),
    ensures
        r@ == sanitized(v@),
    decreases v,
{
    match v {
        Json::Object(o) => {
            let mut out: Vec<(String, Json)> = Vec::new();
            let mut i: usize = 0;
            let ghost want = sanitized(v@)->Object_0;
            while i < o.len()
                invariant
                    i <= o@.len(),
                    *v == Json::Object(*o),
                    text::texts(words@) == sensitive_words(),
                    want == sanitized(v@)->Object_0,
                    want.len() == o@.len(),
                    out@.len() == i,
                    forall|k: int|
                        0 <= k < i ==> ((#[trigger] out@[k]).0@, out@[k].1@) == want[k],
                decreases o@.len() - i,
            {
                let key = o[i].0.as_str();
                let ghost ov = v@->Object_0;
                proof {
                    assert(ov[i as int] == (o@[i as int].0@, o@[i as int].1@));
                    assert(decreases_to!(v => v->Object_0@[i as int].1));
                }
                let value = if sensitive(key, words) {
                    mask_value(&o[i].1)
                } else {
                    sanitize_with(&o[i].1, words)
                };
                out.push((o[i].0.clone(), value));
                i += 1;
            }
            let r = Json::Object(out);
            assert(r@->Object_0 =~= want);
            r
        },
        Json::Array(a) => {
            let mut out: Vec<Json> = Vec::new();
            let mut i: usize = 0;
            let ghost want = sanitized(v@)->Array_0;
            while i < a.len()
                invariant
                    i <= a@.len(),
                    *v == Json::Array(*a),
                    text::texts(words@) == sensitive_words(),
                    want == sanitized(v@)->Array_0,
                    want.len() == a@.len(),
                    out@.len() == i,
                    forall|k: int| 0 <= k < i ==> (#[trigger] out@[k])@ == want[k],
                decreases a@.len() - i,
            {
                let ghost av = v@->Array_0;
                proof {
                    assert(av[i as int] == a@[i as int]@);
                    assert(decreases_to!(v => v->Array_0@[i as int]));
                }
                out.push(sanitize_with(&a[i], words));
                i += 1;
            }
            let r = Json::Array(out);
            assert(r@->Array_0 =~= want);
            r
        },
        other => other.copy(),
    }
}

proof fn lemma_masked_again(s: Seq<char>)
    ensures
        masked(masked(s)) == masked(s),
{
    reveal_strlit("****");
    if s.len() > 4 {
        assert(masked(s).take(4) =~= s.take(4));
    }
}

proof fn lemma_value_masked_again(j: JsonView)
    ensures
        masked_value(masked_value(j)) == masked_value(j),
    decreases j,
{
    match j {
        JsonView::Text(s) => {
            lemma_masked_again(s);
        },
        JsonView::Number(n) => {
            lemma_masked_again(number_text(n));
        },
        JsonView::Array(a) => {
            let p = masked_value(j)->Array_0;
            let q = masked_value(masked_value(j))->Array_0;
            assert forall|i: int| 0 <= i < a.len() implies p[i] == q[i] by {
                assert(decreases_to!(j => a[i]));
                lemma_value_masked_again(a[i]);
            }
            assert(p =~= q);
        },
        JsonView::Object(o) => {
            let p = masked_value(j)->Object_0;
            let q = masked_value(masked_value(j))->Object_0;
            assert forall|i: int| 0 <= i < o.len() implies p[i] == q[i] by {
                assert(decreases_to!(j => o[i].1));
                lemma_value_masked_again(o[i].1);
            }
            assert(p =~= q);
        },
        _ => {},
    }
}

/// What is masked stays as it is: masking a value again changes nothing.
pub proof fn law_masking_is_stable(j: JsonView)
    ensures
        sanitized(sanitized(j)) == sanitized(j),
    decreases j,
{
    match j {
        JsonView::Object(o) => {
            let p = sanitized(j)->Object_0;
            let q = sanitized(sanitized(j))->Object_0;
            assert forall|i: int| 0 <= i < o.len() implies p[i] == q[i] by {
                if is_sensitive(o[i].0) {
                    lemma_value_masked_again(o[i].1);
                } else {
                    assert(decreases_to!(j => o[i].1));
                    law_masking_is_stable(o[i].1);
                }
            }
            assert(p =~= q);
        },
        JsonView::Array(a) => {
            let p = sanitized(j)->Array_0;
            let q = sanitized(sanitized(j))->Array_0;
            assert forall|i: int| 0 <= i < a.len() implies p[i] == q[i] by {
                assert(decreases_to!(j => a[i]));
                law_masking_is_stable(a[i]);
            }
            assert(p =~= q);
        },
        _ => {},
    }
}

/// Nothing in a value can be read that stood there as a string of more than four
/// characters: each string in it ends with the four stars, with at most four characters
/// before them, and there is no number.
pub open spec fn hidden(j: JsonView) -> bool
    decreases j,
{
    match j {
        JsonView::Text(s) => s.len() <= 8 && text::ends(s, "****"@),
        JsonView::Number(_) => false,
        JsonView::Array(a) => forall|i: int| 0 <= i < a.len() ==> hidden(#[trigger] a[i]),
        JsonView::Object(o) => forall|i: int| 0 <= i < o.len() ==> hidden((#[trigger] o[i]).1),
        _ => true,
    }
}

/// Below each sensitive name in a value, at whatever depth it stands, all is hidden.
pub open spec fn keeps_secrets(j: JsonView) -> bool
    decreases j,
{
    match j {
        JsonView::Array(a) => forall|i: int| 0 <= i < a.len() ==> keeps_secrets(#[trigger] a[i]),
        JsonView::Object(o) => forall|i: int|
            0 <= i < o.len() ==> if is_sensitive((#[trigger] o[i]).0) {
                hidden(o[i].1)
            } else {
                keeps_secrets(o[i].1)
            },
        _ => true,
    }
}

proof fn lemma_masked_is_hidden(j: JsonView)
    ensures
        hidden(masked_value(j)),
    decreases j,
{
    reveal_strlit("****");
    let m = masked_value(j);
    match j {
        JsonView::Text(s) => {
            lemma_mask_ends(s);
        },
        JsonView::Number(n) => {
            lemma_mask_ends(number_text(n));
        },
        JsonView::Array(a) => {
            let p = m->Array_0;
            assert forall|i: int| 0 <= i < p.len() implies hidden(#[trigger] p[i]) by {
                assert(decreases_to!(j => a[i]));
                lemma_masked_is_hidden(a[i]);
            }
        },
        JsonView::Object(o) => {
            let p = m->Object_0;
            assert forall|i: int| 0 <= i < p.len() implies hidden((#[trigger] p[i]).1) by {
                assert(decreases_to!(j => o[i].1));
                lemma_masked_is_hidden(o[i].1);
            }
        },
        _ => {},
    }
}

proof fn lemma_mask_ends(s: Seq<char>)
    ensures
        masked(s).len() <= 8,
        text::ends(masked(s), "****"@),
{
    reveal_strlit("****");
    assert(masked(s).skip(masked(s).len() - 4) =~= "****"@);
}

/// No secret is left in what the log may hold: whatever the value, all strings and
/// numbers below a sensitive name, at any depth, are hidden.
pub proof fn law_secrets_are_masked(j: JsonView)
    ensures
        keeps_secrets(sanitized(j)),
    decreases j,
{
    match j {
        JsonView::Array(a) => {
            let p = sanitized(j)->Array_0;
            assert forall|i: int| 0 <= i < p.len() implies keeps_secrets(#[trigger] p[i]) by {
                assert(decreases_to!(j => a[i]));
                law_secrets_are_masked(a[i]);
            }
        },
        JsonView::Object(o) => {
            let p = sanitized(j)->Object_0;
            assert forall|i: int| 0 <= i < p.len() implies if is_sensitive((#[trigger] p[i]).0) {
                hidden(p[i].1)
            } else {
                keeps_secrets(p[i].1)
            } by {
                assert(p[i].0 == o[i].0);
                if is_sensitive(o[i].0) {
                    lemma_masked_is_hidden(o[i].1);
                } else {
                    assert(decreases_to!(j => o[i].1));
                    law_secrets_are_masked(o[i].1);
                }
            }
        },
        _ => {},
    }
}

/// `pat` stands in `s` at `i`, whatever the case of the ASCII letters in `s`.
pub open spec fn matches_at(s: Seq<char>, pat: Seq<char>, i: int) -> bool {
    &&& 0 <= i
    &&& i + pat.len() <= s.len()
    &&& text::ascii_lowered(s.subrange(i, i + pat.len())) == pat
}

/// What ends a value in a text that is no JSON.
pub open spec fn value_stops() -> Seq<char> {
    seq![',', '}', ')', ' ', '\n', '\r']
}

/// Where the value begins that stands behind position `i`, with blanks between or not.
pub open spec fn value_start(s: Seq<char>, i: int) -> int
    decreases s.len() - i,
{
    if 0 <= i < s.len() && s[i] == ' ' {
        value_start(s, i + 1)
    } else {
        i
    }
}

pub proof fn lemma_value_start(s: Seq<char>, i: int)
    requires
        0 <= i <= s.len(),
    ensures
        i <= value_start(s, i) <= s.len(),
    decreases s.len() - i,
{
    if i < s.len() && s[i] == ' ' {
        lemma_value_start(s, i + 1);
    }
}

fn skip_blanks(v: &[char], i: usize) -> (r: usize)
    requires
        i <= v@.len(),
    ensures
        r == value_start(v@, i as int),
        i <= r <= v@.len(),
{
    let mut k: usize = i;
    while k < v.len() && v[k] == ' '
        invariant
            i <= k <= v@.len(),
            value_start(v@, k as int) == value_start(v@, i as int),
        decreases v@.len() - k,
    {
        k += 1;
    }
    k
}

/// `s` from `i` on, with the value behind each occurrence of `pat` masked.
pub open spec fn mask_from(s: Seq<char>, pat: Seq<char>, i: int) -> Seq<char>
    decreases s.len() - i,
{
    if i < 0 || i >= s.len() {
        Seq::empty()
    } else if pat.len() > 0 && matches_at(s, pat, i) {
        proof {
            lemma_value_start(s, i + pat.len());
        }
        let e = value_start(s, i + pat.len());
        if e >= s.len() {
            s.skip(i)
        } else {
            proof {
                text::lemma_stop_from(s, value_stops(), e);
            }
            let v = text::stop_from(s, value_stops(), e);
            s.subrange(i, e) + masked(s.subrange(e, v)) + mask_from(s, pat, v)
        }
    } else {
        seq![s[i]] + mask_from(s, pat, i + 1)
    }
}

fn mask_pattern(s: &str, pat: &str) -> (r: String)
    ensures
        r@ == mask_from(s@, pat@, 0),
{
    let v = text::chars_of(s);
    let p = text::chars_of(pat);
    let mut out = String::new();
    let mut i: usize = 0;
    let ghost all = mask_from(s@, pat@, 0);
    assert(out@ + mask_from(s@, pat@, 0) =~= all);
    while i < v.len()
        invariant
            i <= v@.len(),
            v@ == s@,
            p@ == pat@,
            all == mask_from(s@, pat@, 0),
            out@ + mask_from(s@, pat@, i as int) == all,
        decreases v@.len() - i,
    {
        let ghost before = out@;
        if p.len() > 0 && p.len() <= v.len() - i && text::same(
            text::to_ascii_lower(text::string_between(&v, i, i + p.len()).as_str()).as_str(),
            pat,
        ) {
            let e: usize = skip_blanks(&v, i + p.len());
            if e == v.len() {
                let tail = text::string_between(&v, i, v.len());
                out.append(tail.as_str());
                assert(tail@ =~= s@.skip(i as int));
                return out;
            }
            let x = text::find_stop(&v, &[',', '}', ')', ' ', '\n', '\r'], e);
            out.append(text::string_between(&v, i, e).as_str());
            out.append(mask(text::string_between(&v, e, x).as_str()).as_str());
            proof {
                let m = s@.subrange(i as int, e as int) + masked(s@.subrange(e as int, x as int));
                assert(before + (m + mask_from(s@, pat@, x as int)) =~= out@ + mask_from(
                    s@,
                    pat@,
                    x as int,
                ));
            }
            i = x;
        } else {
            out.push(v[i]);
            proof {
                assert(before + (seq![s@[i as int]] + mask_from(s@, pat@, i + 1)) =~= out@
                    + mask_from(s@, pat@, i + 1));
            }
            i += 1;
        }
    }
    assert(out@ =~= all);
    out
}

/// The forms in which a sensitive word and its value can stand in a text.
pub open spec fn word_forms(word: Seq<char>) -> Seq<Seq<char>> {
    seq![word + "="@, word + "'"@, "\""@ + word + "\":"@, word + ":"@]
}

/// `s` with the values behind the forms of `word` masked.
pub open spec fn mask_word(s: Seq<char>, word: Seq<char>) -> Seq<char> {
    let f = word_forms(word);
    mask_from(mask_from(mask_from(mask_from(s, f[0], 0), f[1], 0), f[2], 0), f[3], 0)
}

/// `s` with the values behind the first `n` sensitive words masked.
pub open spec fn mask_words(s: Seq<char>, n: nat) -> Seq<char>
    decreases n,
{
    if n == 0 {
        s
    } else {
        mask_word(mask_words(s, (n - 1) as nat), sensitive_words()[n - 1])
    }
}

/// The parameters of a call as the audit log may hold them.
pub open spec fn sanitized_params(params: Seq<char>) -> Seq<char> {
    match json::parsed(params) {
        Some(j) => json::rendered(sanitized(j)),
        None => mask_words(params, sensitive_words().len()),
    }
}

/// Masks what stands behind the sensitive words of a text that is no JSON.
pub fn sanitize_plain(params: &str) -> (r: String)
    ensures
        r@ == mask_words(params@, sensitive_words().len()),
{
    let words = sensitive_list();
    let mut s = params.to_string();
    let mut i: usize = 0;
    while i < words.len()
        invariant
            i <= words@.len(),
            text::texts(words@) == sensitive_words(),
            s@ == mask_words(params@, i as nat),
        decreases words@.len() - i,
    {
        let w = words[i].as_str();
        assert(sensitive_words()[i as int] == w@);
        s = mask_pattern(s.as_str(), text::cat(w, "=").as_str());
        s = mask_pattern(s.as_str(), text::cat(w, "'").as_str());
        s = mask_pattern(s.as_str(), text::cat3("\"", w, "\":").as_str());
        s = mask_pattern(s.as_str(), text::cat(w, ":").as_str());
        i += 1;
    }
    assert(sensitive_words().len() == words@.len());
    s
}

/// Masks the secrets in the parameters of a call: by their names in a JSON
/// value, behind their names in any other text.
pub fn sanitize_params(params: &str) -> (r: String)
    ensures
        r@ == sanitized_params(params@),
{
    match json::parse_json(params) {
        Some(j) => json::render_json(&sanitize_json_value(&j)),
        None => sanitize_plain(params),
    }
}

/// The tables of the registry and of the skill market.
pub const AUTH_TABLES: &'static str = "CREATE TABLE IF NOT EXISTS agent_registry (
            id INTEGER PRIMARY KEY AUTOINCREMENT,
            agent_id TEXT UNIQUE NOT NULL,
            display_name TEXT NOT NULL,
            namespace TEXT NOT NULL,
            badge_token TEXT UNIQUE NOT NULL,
            permission TEXT DEFAULT 'read_write',
            allowed_skills TEXT DEFAULT '[]',
            created_at TEXT,
            expires_at TEXT,
            last_heartbeat TEXT
        );
        CREATE TABLE IF NOT EXISTS skill_catalog (
            id INTEGER PRIMARY KEY AUTOINCREMENT,
            name TEXT UNIQUE NOT NULL,
            description TEXT DEFAULT '',
            version TEXT DEFAULT '1.0.0',
            author TEXT DEFAULT '',
            category TEXT DEFAULT 'general',
            visibility TEXT DEFAULT 'public',
            steps TEXT DEFAULT '[]',
            dependencies TEXT DEFAULT '[]',
            confidence REAL DEFAULT 0.5,
            install_count INTEGER DEFAULT 0,
            checksum TEXT DEFAULT '',
            source TEXT DEFAULT 'manual',
            is_active INTEGER DEFAULT 1,
            published_at TEXT DEFAULT '',
            updated_at TEXT DEFAULT '',
            published_by TEXT DEFAULT ''
        );
        CREATE TABLE IF NOT EXISTS agent_skill_whitelist (
            agent_id TEXT NOT NULL,
            skill_name TEXT NOT NULL,
            installed_at TEXT DEFAULT '',
            installed_by TEXT DEFAULT '',
            is_active INTEGER DEFAULT 1,
            PRIMARY KEY (agent_id, skill_name)
        );";

/// The columns of an audit table.
pub const AUDIT_COLUMNS: &'static str = " (
                    id INTEGER PRIMARY KEY AUTOINCREMENT,
                    agent_id TEXT,
                    tool TEXT,
                    params TEXT,
                    allowed INTEGER DEFAULT 1,
                    timestamp TEXT
                )";

/// The audit table of the week of `d`.
pub open spec fn audit_table_of(d: Date) -> Seq<char> {
    "audit_log_"@ + dates::week_label_of(d)
}

/// The statements that set up the registry and the audit table of a week.
#[derive(Debug)]
pub struct AuthSetup {
    pub tables: String,
    pub week_table: String,
    pub week_index: String,
}

/// The statement that makes an audit table, if it is not there.
pub fn audit_table_sql(table: &str) -> (r: String)
    ensures
        r@ == "CREATE TABLE IF NOT EXISTS "@ + table@ + AUDIT_COLUMNS@,
{
    text::cat3("CREATE TABLE IF NOT EXISTS ", table, AUDIT_COLUMNS)
}

/// The statement that writes an audit entry.
pub fn audit_insert_sql(table: &str) -> (r: String)
    ensures
        r@ == "INSERT INTO "@ + table@
            + " (agent_id, tool, params, allowed, timestamp) VALUES (?, ?, ?, ?, datetime('now'))"@,
{
    text::cat3(
        "INSERT INTO ",
        table,
        " (agent_id, tool, params, allowed, timestamp) VALUES (?, ?, ?, ?, datetime('now'))",
    )
}

/// The audit table of the week of `d`.
pub fn audit_table(d: Date) -> (r: String)
    requires
        d.valid(),
        d.year >= 2,
    ensures
        r@ == audit_table_of(d),
{
    text::cat("audit_log_", dates::week_label(d).as_str())
}

/// The statements that set up the registry and the audit table of the week of
/// `today`.
pub fn auth_setup(today: Date) -> (r: AuthSetup)
    requires
        today.valid(),
        today.year >= 2,
    ensures
        r.tables@ == AUTH_TABLES@,
        r.week_table@ == "CREATE TABLE IF NOT EXISTS "@ + audit_table_of(today) + AUDIT_COLUMNS@,
        r.week_index@ == "CREATE INDEX IF NOT EXISTS idx_"@ + audit_table_of(today) + "_time ON "@
            + audit_table_of(today) + "(timestamp DESC)"@,
{
    let t = audit_table(today);
    AuthSetup {
        tables: AUTH_TABLES.to_string(),
        week_table: audit_table_sql(t.as_str()),
        week_index: text::cat5(
            "CREATE INDEX IF NOT EXISTS idx_",
            t.as_str(),
            "_time ON ",
            t.as_str(),
            "(timestamp DESC)",
        ),
    }
}

/// `s` without any number of `p` in front.
pub open spec fn without_prefixes(s: Seq<char>, p: Seq<char>) -> Seq<char>
    decreases s.len(),
{
    if p.len() > 0 && text::begins(s, p) {
        without_prefixes(s.skip(p.len() as int), p)
    } else {
        s
    }
}

/// An audit table is out of date: its week comes before that of the cutoff.
pub open spec fn stale(table: Seq<char>, cutoff_week: Seq<char>) -> bool {
    !text::sorted_le(cutoff_week, without_prefixes(table, "audit_log_"@))
}

/// Tells whether an audit table is out of date.
pub fn is_stale(table: &str, cutoff_week: &str) -> (r: bool)
    ensures
        r == stale(table@, cutoff_week@),
{
    let mut rest = table.to_string();
    proof {
        reveal_strlit("audit_log_");
    }
    loop
        invariant
            without_prefixes(table@, "audit_log_"@) == without_prefixes(rest@, "audit_log_"@),
            "audit_log_"@.len() == 10,
        ensures
            without_prefixes(table@, "audit_log_"@) == rest@,
        decreases rest@.len(),
    {
        match text::strip_prefix(rest.as_str(), "audit_log_") {
            Some(t) => {
                rest = t;
            },
            None => {
                break;
            },
        }
    }
    !text::text_le(cutoff_week, rest.as_str())
}

/// An entry of the audit log: the table that it goes to, the statements that make
/// the table and write the entry, and the values.
#[derive(Debug)]
pub struct AuditEntry {
    pub table_sql: String,
    pub insert_sql: String,
    pub agent_id: String,
    pub tool: String,
    pub params: String,
    pub allowed: u32,
}

/// The entry for a call: its parameters stand there without what is sensitive.
pub fn audit_entry(agent_id: &str, tool: &str, params: &str, allowed: bool, today: Date) -> (r:
    AuditEntry)
    requires
        today.valid(),
        today.year >= 2,
    ensures
        logs_call(r, agent_id@, tool@, params@, allowed, today),
{
    let table = audit_table(today);
    AuditEntry {
        table_sql: audit_table_sql(table.as_str()),
        insert_sql: audit_insert_sql(table.as_str()),
        agent_id: agent_id.to_string(),
        tool: tool.to_string(),
        params: sanitize_params(params),
        allowed: if allowed {
            1
        } else {
            0
        },
    }
}

/// The days for which audit tables are kept.
pub const AUDIT_DAYS: i32 = 90;

/// The statements that drop those of the tables that are out of date.
pub open spec fn drops(tables: Seq<Seq<char>>, cutoff_week: Seq<char>) -> Seq<Seq<char>>
    decreases tables.len(),
{
    if tables.len() == 0 {
        Seq::empty()
    } else {
        let before = drops(tables.drop_last(), cutoff_week);
        if stale(tables.last(), cutoff_week) {
            before.push("DROP TABLE IF EXISTS "@ + tables.last())
        } else {
            before
        }
    }
}

/// The audit log is kept for 90 days: the table of a day that lies less far back is not
/// out of date, that of one that lies a week further back or more is. This holds as long
/// as the years have four digits.
pub proof fn law_audit_is_kept_for_ninety_days(d: Date, today: Date)
    requires
        d.valid(),
        today.valid(),
        2 <= d.year,
        dates::iso_week_of(d).0 <= 9999,
        3 <= today.year <= 9999,
    ensures
        ({
            let cutoff = dates::week_label_of(dates::days_after(today, -AUDIT_DAYS as int));
            let back = dates::day_number(today) - dates::day_number(d);
            &&& back < AUDIT_DAYS ==> !stale(audit_table_of(d), cutoff)
            &&& back >= AUDIT_DAYS + 7 ==> stale(audit_table_of(d), cutoff)
        }),
{
    let c = dates::days_after(today, -90);
    dates::law_days_are_added(today, -90);
    assert(c.year <= today.year) by {
        if c.year > today.year {
            dates::law_later_years_come_later(today, c);
        }
    }
    dates::lemma_iso_week(c);
    assert(dates::iso_week_of(c).0 <= 9999) by {
        let t = dates::thursday_of(c);
        if t.year > today.year {
            dates::law_later_years_come_later(today, t);
        }
    }
    dates::law_weeks_are_in_order(d, c);
    dates::law_weeks_are_in_order(c, d);
    dates::law_week_labels_are_in_order(d, c);
    dates::law_week_labels_are_in_order(c, d);
    let label = dates::week_label_of(d);
    let p = "audit_log_"@;
    reveal_strlit("audit_log_");
    assert((p + label).skip(p.len() as int) =~= label);
    assert(text::begins(p + label, p)) by {
        assert((p + label).take(p.len() as int) =~= p);
    }
    assert(!text::begins(label, p));
    reveal_with_fuel(without_prefixes, 2);
}

/// The statements that drop the audit tables whose week was over 90 days ago.
pub fn stale_drops(tables: &Vec<String>, today: Date) -> (r: Vec<String>)
    requires
        today.valid(),
        3 <= today.year,
    ensures
        text::texts(r@) == drops(
            text::texts(tables@),
            dates::week_label_of(dates::days_after(today, -90)),
        ),
{
    let cutoff = dates::week_label(dates::add_days(today, -AUDIT_DAYS));
    let mut out: Vec<String> = Vec::new();
    let ghost all = text::texts(tables@);
    let mut i: usize = 0;
    assert(text::texts(out@) =~= Seq::empty());
    assert(all.take(0) =~= Seq::empty());
    while i < tables.len()
        invariant
            i <= tables@.len(),
            all == text::texts(tables@),
            text::texts(out@) == drops(all.take(i as int), cutoff@),
        decreases tables@.len() - i,
    {
        let table = tables[i].as_str();
        assert(all.take(i + 1).drop_last() =~= all.take(i as int));
        assert(all.take(i + 1).last() == table@);
        if is_stale(table, cutoff.as_str()) {
            let sql = text::cat("DROP TABLE IF EXISTS ", table);
            proof {
                text::lemma_texts_push(out@, sql);
            }
            out.push(sql);
        }
        i += 1;
    }
    assert(all.take(all.len() as int) =~= all);
    out
}

/// A badge is one that an agent is given at some moment: it ends 365 days later, and
/// its token is the sum of the seed.
pub open spec fn given_badge(
    r: AgentBadge,
    agent_id: Seq<char>,
    display_name: Seq<char>,
    namespaces: Seq<Seq<char>>,
    permission: Seq<char>,
    now: Moment,
    seed: Seq<char>,
) -> bool {
    &&& r.agent_id@ == agent_id
    &&& r.display_name@ == display_name
    &&& r.namespace@ == agent_namespace(agent_id, namespaces)
    &&& r.badge_token@ == hash::sum(encode_utf8(seed))
    &&& r.permission@ == permission
    &&& r.allowed_skills@.len() == 0
    &&& r.expires_at@ == clock::stamp_text(
        Moment { date: dates::days_after(now.date, 365), ..now },
    )
}

/// This is what an agent gets that registers at a moment: its badge, or none in the
/// last year, in which a badge cannot last for 365 days.
pub open spec fn answers_agent(
    r: Option<AgentBadge>,
    agent_id: Seq<char>,
    display_name: Seq<char>,
    namespaces: Seq<Seq<char>>,
    permission: Seq<char>,
    now: Moment,
    nanos: int,
    random: nat,
) -> bool {
    match r {
        Some(b) => now.date.year < dates::LAST_YEAR && given_badge(
            b,
            agent_id,
            display_name,
            namespaces,
            permission,
            now,
            token_seed(agent_id, nanos, random),
        ),
        None => now.date.year == dates::LAST_YEAR,
    }
}

/// The badge of an agent that registers at a moment; there is none in the last year.
pub fn badge_at(
    agent_id: &str,
    display_name: &str,
    namespaces: &Vec<String>,
    permission: &str,
    now: Moment,
    nanos: i64,
    random: u64,
) -> (r: Option<AgentBadge>)
    requires
        now.valid(),
        now.date.year >= 2,
    ensures
        answers_agent(
            r,
            agent_id@,
            display_name@,
            text::texts(namespaces@),
            permission@,
            now,
            nanos as int,
            random as nat,
        ),
{
    if now.date.year == dates::LAST_YEAR {
        return None;
    }
    let end = Moment {
        date: dates::add_days(now.date, 365),
        hour: now.hour,
        minute: now.minute,
        second: now.second,
    };
    Some(
        new_badge(
            agent_id,
            display_name,
            namespaces,
            permission,
            nanos,
            random,
            clock::fmt_moment(end).as_str(),
        ),
    )
}

/// A name that a list with commas gives back as it is.
pub open spec fn plain_name(s: Seq<char>) -> bool {
    s.len() > 0 && !s.contains(',') && text::trimmed(s) == s
}

/// The namespaces that an agent registers for: its own where it names none.
pub open spec fn asked_ns(agent_id: Seq<char>, namespaces: Seq<Seq<char>>) -> Seq<Seq<char>> {
    if namespaces.len() == 0 {
        seq!["agent/"@ + agent_id]
    } else {
        namespaces
    }
}

/// A badge, once it is stored, makes its agent known with its role and its namespaces,
/// and no other token does. Unless the agent is an administrator, to whom all are open,
/// the namespaces have to be names without commas and without blanks at their ends.
pub proof fn law_badges_make_agents_known(
    b: AgentBadge,
    row: BadgeRow,
    token: Seq<char>,
    agent_id: Seq<char>,
    display_name: Seq<char>,
    namespaces: Seq<Seq<char>>,
    permission: Seq<char>,
    now: Moment,
    nanos: int,
    random: nat,
)
    requires
        answers_agent(
            Some(b),
            agent_id,
            display_name,
            namespaces,
            permission,
            now,
            nanos,
            random,
        ),
        row.badge_token@ == b.badge_token@,
        row.namespace@ == b.namespace@,
        row.permission@ == b.permission@,
        permission != "admin"@ ==> forall|i: int|
            0 <= i < asked_ns(agent_id, namespaces).len() ==> plain_name(
                #[trigger] asked_ns(agent_id, namespaces)[i],
            ),
    ensures
        token == b.badge_token@ ==> known_as(agent_id, token, Some(row)) == Ok::<
            AuthView,
            Seq<char>,
        >(
            AuthView {
                agent_id,
                allowed_ns: if permission == "admin"@ {
                    seq!["*"@]
                } else {
                    asked_ns(agent_id, namespaces)
                },
                role: permission,
            },
        ),
        token != b.badge_token@ ==> known_as(agent_id, token, Some(row)) is Err,
{
    let asked = asked_ns(agent_id, namespaces);
    reveal_strlit(",");
    assert(","@ =~= seq![',']);
    assert(b.namespace@ == text::joined(asked, seq![',']));
    if permission != "admin"@ {
        text::lemma_list_read_back(asked);
    }
}

/// Makes the badge of a new agent. There is one unless the clock shows a moment of the
/// last year.
pub fn register_agent(
    agent_id: &str,
    display_name: &str,
    namespaces: &Vec<String>,
    permission: &str,
) -> (r: Option<AgentBadge>)
    ensures
        exists|now: Moment, nanos: int, random: nat|
            clock::shown(now) && #[trigger] answers_agent(
                r,
                agent_id@,
                display_name@,
                text::texts(namespaces@),
                permission@,
                now,
                nanos,
                random,
            ),
{
    let now = clock::utc_now();
    let nanos = clock::nanos();
    let random: u64 = match clock::random() {
        Ok(n) => n,
        Err(_) => 0,
    };
    badge_at(agent_id, display_name, namespaces, permission, now, nanos, random)
}

/// The statements that set up the registry and the audit table of this week.
pub fn init_auth_tables() -> (r: AuthSetup)
    ensures
        exists|now: Moment| #[trigger]
            clock::shown(now) && r.tables@ == AUTH_TABLES@ && r.week_table@
                == "CREATE TABLE IF NOT EXISTS "@ + audit_table_of(now.date) + AUDIT_COLUMNS@
                && r.week_index@ == "CREATE INDEX IF NOT EXISTS idx_"@ + audit_table_of(now.date)
                + "_time ON "@ + audit_table_of(now.date) + "(timestamp DESC)"@,
{
    let now = clock::local_now();
    assert(clock::shown(now));
    auth_setup(now.date)
}

/// An entry is the one for a call on a day.
pub open spec fn logs_call(
    e: AuditEntry,
    agent_id: Seq<char>,
    tool: Seq<char>,
    params: Seq<char>,
    allowed: bool,
    today: Date,
) -> bool {
    &&& e.table_sql@ == "CREATE TABLE IF NOT EXISTS "@ + audit_table_of(today) + AUDIT_COLUMNS@
    &&& e.insert_sql@ == "INSERT INTO "@ + audit_table_of(today)
        + " (agent_id, tool, params, allowed, timestamp) VALUES (?, ?, ?, ?, datetime('now'))"@
    &&& e.agent_id@ == agent_id
    &&& e.tool@ == tool
    &&& e.params@ == sanitized_params(params)
    &&& e.allowed == (if allowed {
        1int
    } else {
        0
    })
}

/// The entry for a call that is made now.
pub fn audit_log(agent_id: &str, tool: &str, params: &str, allowed: bool) -> (r: AuditEntry)
    ensures
        exists|now: Moment| #[trigger]
            clock::shown(now) && logs_call(r, agent_id@, tool@, params@, allowed, now.date),
{
    let now = clock::local_now();
    assert(clock::shown(now));
    audit_entry(agent_id, tool, params, allowed, now.date)
}

/// The statements that drop the audit tables whose week was over 90 days ago.
pub fn cleanup_stale_tables(tables: &Vec<String>) -> (r: Vec<String>)
    ensures
        exists|now: Moment| #[trigger]
            clock::shown(now) && text::texts(r@) == drops(
                text::texts(tables@),
                dates::week_label_of(dates::days_after(now.date, -90)),
            ),
{
    let now = clock::local_now();
    assert(clock::shown(now));
    stale_drops(tables, now.date)
}

/// A namespace is open to a caller without the admin role and the wildcard if and only if
/// it is one of the caller's, lies below one of them, or one of them lies below it. A name
/// that merely begins in the same way does not count.
pub proof fn law_access_goes_by_the_tree(auth: AuthView, namespace: Seq<char>)
    requires
        auth.role != "admin"@,
        !auth.allowed_ns.contains("*"@),
    ensures
        may_access(auth, namespace) <==> exists|i: int, rest: Seq<char>|
            0 <= i < auth.allowed_ns.len() && (namespace == #[trigger] auth.allowed_ns[i] || namespace
                == #[trigger] (auth.allowed_ns[i] + "/"@ + rest) || auth.allowed_ns[i] == namespace + "/"@
                + rest),
{
    if may_access(auth, namespace) {
        if text::listed(auth.allowed_ns, "*"@) {
            let k = choose|k: int| 0 <= k < auth.allowed_ns.len() && auth.allowed_ns[k] == "*"@;
            assert(auth.allowed_ns.contains("*"@));
        }
        let i = choose|i: int|
            0 <= i < auth.allowed_ns.len() && same_subtree(#[trigger] auth.allowed_ns[i], namespace);
        let a = auth.allowed_ns[i];
        if text::begins(namespace, a + "/"@) {
            let rest = namespace.skip((a + "/"@).len() as int);
            assert(namespace =~= a + "/"@ + rest);
            assert(namespace == auth.allowed_ns[i] + "/"@ + rest);
        } else if text::begins(a, namespace + "/"@) {
            let rest = a.skip((namespace + "/"@).len() as int);
            assert(a =~= namespace + "/"@ + rest);
            let down = auth.allowed_ns[i] + "/"@ + rest;
            assert(auth.allowed_ns[i] == namespace + "/"@ + rest);
        } else {
            let down = auth.allowed_ns[i] + "/"@ + Seq::<char>::empty();
            assert(namespace == auth.allowed_ns[i]);
        }
    }
    if exists|i: int, rest: Seq<char>|
        0 <= i < auth.allowed_ns.len() && (namespace == #[trigger] auth.allowed_ns[i] || namespace
            == #[trigger] (auth.allowed_ns[i] + "/"@ + rest) || auth.allowed_ns[i] == namespace + "/"@
            + rest) {
        let (i, rest) = choose|i: int, rest: Seq<char>|
            0 <= i < auth.allowed_ns.len() && (namespace == #[trigger] auth.allowed_ns[i] || namespace
                == #[trigger] (auth.allowed_ns[i] + "/"@ + rest) || auth.allowed_ns[i] == namespace + "/"@
                + rest);
        let a = auth.allowed_ns[i];
        let up = a + "/"@ + rest;
        let low = namespace + "/"@ + rest;
        assert(up.subrange(0, (a + "/"@).len() as int) =~= a + "/"@);
        assert(low.subrange(0, (namespace + "/"@).len() as int) =~= namespace + "/"@);
        assert(same_subtree(auth.allowed_ns[i], namespace));
    }
}

/// An administrator and a caller with the wildcard may use every namespace.
pub proof fn law_administrators_may_use_all(auth: AuthView, namespace: Seq<char>)
    requires
        auth.role == "admin"@ || auth.allowed_ns.contains("*"@),
    ensures
        may_access(auth, namespace),
{
    if auth.allowed_ns.contains("*"@) {
        let k = choose|k: int| 0 <= k < auth.allowed_ns.len() && auth.allowed_ns[k] == "*"@;
        assert(auth.allowed_ns[k] == "*"@);
    }
}

/// A caller is known if and only if the registry has a row for it with its token; it then
/// has the role of the row. Without a row, and with another token, it is refused.
pub proof fn law_callers_are_known_by_their_token(agent_id: Seq<char>, token: Seq<char>, row: Option<BadgeRow>)
    ensures
        known_as(agent_id, token, row) is Ok <==> (row matches Some(b) && b.badge_token@ == token),
        known_as(agent_id, token, row) matches Ok(a) ==> a.agent_id == agent_id && a.role
            == row->0.permission@ && (a.role == "admin"@ ==> a.allowed_ns.contains("*"@)),
{
    if row is Some && row->0.permission@ == "admin"@ {
        assert(granted_ns(row->0.namespace@, row->0.permission@)[0] == "*"@);
    }
}

/// What is masked shows four characters at most: two secrets that begin with the same four
/// cannot be told apart, and a short one shows nothing.
pub proof fn law_masks_hide_the_rest(head: Seq<char>, a: Seq<char>, b: Seq<char>)
    ensures
        head.len() == 4 && a.len() > 0 && b.len() > 0 ==> masked(head + a) == masked(head + b) && masked(
            head + a,
        ) == head + "****"@,
        head.len() <= 4 ==> masked(head) == "****"@,
{
    if head.len() == 4 {
        assert((head + a).take(4) =~= head);
        assert((head + b).take(4) =~= head);
    }
}

/// A name tells of a secret as soon as one of these words stands in it.
pub proof fn law_secret_words(before: Seq<char>, word: Seq<char>, after: Seq<char>)
    requires
        seq![
            "api_key"@,
            "api-key"@,
            "apikey"@,
            "token"@,
            "secret"@,
            "password"@,
            "passwd"@,
            "credential"@,
            "auth"@,
            "authorization"@,
            "bearer"@,
            "access_key"@,
            "accesskey"@,
            "private_key"@,
            "privatekey"@,
            "ssl_key"@,
            "ssh_key"@,
            "admin_key"@,
            "adminkey"@,
        ].contains(word),
    ensures
        names_secret(before + word + after),
{
    let l = sensitive_words();
    let k = choose|k: int| 0 <= k < l.len() && l[k] == word;
    let s = before + word + after;
    assert(s.subrange(before.len() as int, before.len() as int + word.len()) =~= word);
    assert(text::stands_at(s, word, before.len() as int));
    assert(text::occurs(s, l[k]));
}

/// There is no member with a sensitive name in a value.
pub open spec fn without_secrets(j: JsonView) -> bool
    decreases j,
{
    match j {
        JsonView::Array(a) => forall|i: int| 0 <= i < a.len() ==> without_secrets(#[trigger] a[i]),
        JsonView::Object(o) => forall|i: int|
            0 <= i < o.len() ==> !is_sensitive((#[trigger] o[i]).0) && without_secrets(o[i].1),
        _ => true,
    }
}

/// Only secrets are masked: a value without a sensitive name is logged as it is, and each
/// member keeps its name and its place.
pub proof fn law_only_secrets_are_masked(j: JsonView)
    ensures
        without_secrets(j) ==> sanitized(j) == j,
        j matches JsonView::Object(o) ==> (sanitized(j) matches JsonView::Object(r) && r.len() == o.len()
            && forall|i: int|
            0 <= i < o.len() ==> (#[trigger] r[i]).0 == o[i].0 && (!is_sensitive(o[i].0) ==> r[i].1
                == sanitized(o[i].1))),
    decreases j,
{
    match j {
        JsonView::Array(a) => {
            if without_secrets(j) {
                assert forall|i: int| 0 <= i < a.len() implies sanitized(#[trigger] a[i]) == a[i] by {
                    law_only_secrets_are_masked(a[i]);
                }
                assert(sanitized(j)->Array_0 =~= a);
            }
        },
        JsonView::Object(o) => {
            if without_secrets(j) {
                assert forall|i: int| 0 <= i < o.len() implies sanitized((#[trigger] o[i]).1) == o[i].1 by {
                    law_only_secrets_are_masked(o[i].1);
                }
                assert(sanitized(j)->Object_0 =~= o);
            }
        },
        _ => {},
    }
}

/// The statements drop the tables that are out of date, each of them and no other.
pub proof fn law_only_stale_tables_are_dropped(tables: Seq<Seq<char>>, cutoff: Seq<char>, more: Seq<Seq<char>>)
    ensures
        drops(tables + more, cutoff) == drops(tables, cutoff) + drops(more, cutoff),
        tables.len() == 1 ==> drops(tables, cutoff) == if stale(tables[0], cutoff) {
            seq!["DROP TABLE IF EXISTS "@ + tables[0]]
        } else {
            Seq::empty()
        },
    decreases more.len(),
{
    if tables.len() == 1 {
        assert(tables.drop_last() =~= Seq::empty());
        assert(drops(tables.drop_last(), cutoff) =~= Seq::empty());
        assert(drops(tables, cutoff) =~= if stale(tables[0], cutoff) {
            seq!["DROP TABLE IF EXISTS "@ + tables[0]]
        } else {
            Seq::empty()
        });
    }
    if more.len() == 0 {
        assert(tables + more =~= tables);
        assert(drops(tables, cutoff) + drops(more, cutoff) =~= drops(tables, cutoff));
    } else {
        law_only_stale_tables_are_dropped(tables, cutoff, more.drop_last());
        assert((tables + more).drop_last() =~= tables + more.drop_last());
        assert((tables + more).last() == more.last());
        assert(drops(tables + more, cutoff) =~= drops(tables, cutoff) + drops(more, cutoff));
    }
}

/// An entry of the audit log tells who called which tool and whether that was allowed, and
/// goes into the table of its own week.
pub proof fn law_audit_entries_tell_who_did_what(
    e: AuditEntry,
    agent_id: Seq<char>,
    tool: Seq<char>,
    params: Seq<char>,
    allowed: bool,
    today: Date,
)
    requires
        logs_call(e, agent_id, tool, params, allowed, today),
    ensures
        e.agent_id@ == agent_id,
        e.tool@ == tool,
        e.allowed == 1 <==> allowed,
        e.allowed == 0 <==> !allowed,
        text::begins(e.insert_sql@, "INSERT INTO audit_log_"@ + dates::week_label_of(today) + " "@),
        json::parsed(params) matches Some(j) ==> e.params@ == json::rendered(sanitized(j)),
{
    reveal_strlit("INSERT INTO ");
    reveal_strlit("audit_log_");
    reveal_strlit("INSERT INTO audit_log_");
    reveal_strlit(" ");
    reveal_strlit(" (agent_id, tool, params, allowed, timestamp) VALUES (?, ?, ?, ?, datetime('now'))");
    let h = "INSERT INTO audit_log_"@ + dates::week_label_of(today) + " "@;
    assert(e.insert_sql@.subrange(0, h.len() as int) =~= h);
}

/// A badge carries what its agent registered with, and its token depends on the agent, the
/// moment and the random number alone.
pub proof fn law_badges_carry_their_agent(
    b: AgentBadge,
    c: AgentBadge,
    agent_id: Seq<char>,
    display_name: Seq<char>,
    namespaces: Seq<Seq<char>>,
    permission: Seq<char>,
    now: Moment,
    seed: Seq<char>,
    other: Seq<char>,
)
    requires
        given_badge(b, agent_id, display_name, namespaces, permission, now, seed),
        given_badge(c, agent_id, other, namespaces, permission, now, seed),
    ensures
        b.agent_id@ == agent_id,
        b.display_name@ == display_name,
        b.permission@ == permission,
        namespaces.len() == 0 ==> b.namespace@ == "agent/"@ + agent_id,
        namespaces.len() == 1 ==> b.namespace@ == namespaces[0],
        b.badge_token@ == c.badge_token@,
{
}

proof fn lemma_unmatched(s: Seq<char>, pat: Seq<char>, i: int, n: int)
    requires
        0 <= i <= n <= s.len(),
        forall|j: int| i <= j < n ==> !#[trigger] matches_at(s, pat, j),
    ensures
        mask_from(s, pat, i) == s.subrange(i, n) + mask_from(s, pat, n),
    decreases n - i,
{
    if i < n {
        assert(!matches_at(s, pat, i));
        lemma_unmatched(s, pat, i + 1, n);
        assert(s.subrange(i, n) =~= seq![s[i]] + s.subrange(i + 1, n));
        assert(seq![s[i]] + (s.subrange(i + 1, n) + mask_from(s, pat, n)) =~= s.subrange(i, n)
            + mask_from(s, pat, n));
    } else {
        assert(s.subrange(i, n) + mask_from(s, pat, n) =~= mask_from(s, pat, n));
    }
}

proof fn lemma_stop_behind(s: Seq<char>, stops: Seq<char>, i: int, n: int)
    requires
        0 <= i <= n <= s.len(),
        forall|j: int| i <= j < n ==> !stops.contains(#[trigger] s[j]),
        n == s.len() || stops.contains(s[n]),
    ensures
        text::stop_from(s, stops, i) == n,
    decreases n - i,
{
    if i < n {
        assert(!stops.contains(s[i]));
        lemma_stop_behind(s, stops, i + 1, n);
    }
}

/// In a text that is no JSON the value behind a sensitive word is masked, up to the comma,
/// bracket or blank that ends it; what comes before stays, and what comes behind is looked
/// through in the same way. A text without the word stays as it is.
pub proof fn law_plain_values_are_masked(
    head: Seq<char>,
    pat: Seq<char>,
    value: Seq<char>,
    rest: Seq<char>,
)
    requires
        pat.len() > 0,
        text::ascii_lowered(pat) == pat,
        value.len() > 0,
        value[0] != ' ',
        forall|j: int|
            0 <= j < value.len() ==> !seq![',', '}', ')', ' ', '\n', '\r'].contains(#[trigger] value[j]),
        rest.len() == 0 || seq![',', '}', ')', ' ', '\n', '\r'].contains(rest[0]),
        forall|j: int|
            0 <= j < head.len() ==> !#[trigger] matches_at(head + pat + value + rest, pat, j),
    ensures
        ({
            let s = head + pat + value + rest;
            mask_from(s, pat, 0) == head + pat + masked(value) + mask_from(s, pat, s.len() - rest.len())
        }),
{
    let s = head + pat + value + rest;
    let h = head.len() as int;
    let e = h + pat.len();
    let v = e + value.len();
    lemma_unmatched(s, pat, 0, h);
    assert(s.subrange(0, h) =~= head);
    assert(s.subrange(h, e) =~= pat);
    assert(matches_at(s, pat, h));
    assert(s[e] == value[0]);
    assert(value_start(s, e) == e);
    assert forall|j: int| e <= j < v implies !value_stops().contains(#[trigger] s[j]) by {
        assert(s[j] == value[j - e]);
    }
    if rest.len() > 0 {
        assert(s[v] == rest[0]);
    }
    lemma_stop_behind(s, value_stops(), e, v);
    assert(s.subrange(e, v) =~= value);
    assert(mask_from(s, pat, 0) =~= head + pat + masked(value) + mask_from(s, pat, v));
}

/// A text in which no form of a word stands is not changed on account of it.
pub proof fn law_other_texts_stay(s: Seq<char>, pat: Seq<char>)
    requires
        forall|j: int| 0 <= j < s.len() ==> !#[trigger] matches_at(s, pat, j),
    ensures
        mask_from(s, pat, 0) == s,
{
    lemma_unmatched(s, pat, 0, s.len() as int);
    assert(s.subrange(0, s.len() as int) + Seq::<char>::empty() =~= s);
}

/// A word is looked for with an equals sign, a quote or a colon behind it, and as the name of
/// a member.
pub proof fn law_words_are_looked_for_in_all_forms(word: Seq<char>)
    ensures
        word_forms(word).contains(word + "="@),
        word_forms(word).contains(word + ":"@),
        word_forms(word).contains(word + "'"@),
        word_forms(word).contains("\""@ + word + "\":"@),
{
    let f = word_forms(word);
    assert(f[0] == word + "="@ && f[1] == word + "'"@ && f[2] == "\""@ + word + "\":"@ && f[3] == word
        + ":"@);
}

/// The tokens of two badges are the sums of different texts where their random numbers
/// differ.
pub proof fn law_random_numbers_tell_tokens_apart(agent_id: Seq<char>, nanos: int, a: nat, b: nat)
    requires
        token_seed(agent_id, nanos, a) == token_seed(agent_id, nanos, b),
    ensures
        a == b,
{
    let p = "mem_"@ + agent_id + "_"@ + text::dec_int(nanos) + "_"@;
    let x = token_seed(agent_id, nanos, a);
    let y = token_seed(agent_id, nanos, b);
    assert(x.skip(p.len() as int) =~= text::dec(a));
    assert(y.skip(p.len() as int) =~= text::dec(b));
    text::law_decimal_is_read_back(a, a);
    text::law_decimal_is_read_back(b, b);
}

/// What is known of a caller is what its fields hold.
pub proof fn law_callers_hold_what_they_say(x: AuthResult)
    ensures
        x@.agent_id == x.agent_id@,
        x@.role == x.role@,
        x@.allowed_ns.len() == x.allowed_ns@.len(),
        forall|i: int| 0 <= i < x.allowed_ns@.len() ==> #[trigger] x@.allowed_ns[i] == x.allowed_ns@[i]@,
{
}

} // verus!
