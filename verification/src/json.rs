//! JSON values as plain data.
use vstd::prelude::*;
use crate::text;

verus! {

/// A number of a JSON value. Whole numbers are kept as such; of any other the
/// notation is kept.
#[derive(Debug, PartialEq, Eq)]
pub enum Number {
    Unsigned(u64),
    Negative(i64),
    Real(String),
}

/// A JSON value.
#[derive(Debug, PartialEq, Eq)]
pub enum Json {
    Null,
    Bool(bool),
    Number(Number),
    Text(String),
    Array(Vec<Json>),
    Object(Vec<(String, Json)>),
}

/// What a number is, with its notation as a text.
pub enum NumberView {
    Unsigned(u64),
    Negative(i64),
    Real(Seq<char>),
}

/// What a JSON value is, with strings as texts.
pub enum JsonView {
    Null,
    Bool(bool),
    Number(NumberView),
    Text(Seq<char>),
    Array(Seq<JsonView>),
    Object(Seq<(Seq<char>, JsonView)>),
}

impl Number {
    pub open spec fn view(&self) -> NumberView {
        match self {
            Number::Unsigned(n) => NumberView::Unsigned(*n),
            Number::Negative(n) => NumberView::Negative(*n),
            Number::Real(s) => NumberView::Real(s@),
        }
    }
}

impl Json {
    pub open spec fn view(&self) -> JsonView
        decreases self,
    {
        match self {
            Json::Null => JsonView::Null,
            Json::Bool(b) => JsonView::Bool(*b),
            Json::Number(n) => JsonView::Number(n.view()),
            Json::Text(s) => JsonView::Text(s@),
            Json::Array(a) => JsonView::Array(
                Seq::new(
                    a@.len(),
                    |i: int|
                        if 0 <= i < a@.len() {
                            a@[i].view()
                        } else {
                            JsonView::Null
                        },
                ),
            ),
            Json::Object(o) => JsonView::Object(
                Seq::new(
                    o@.len(),
                    |i: int|
                        if 0 <= i < o@.len() {
                            (o@[i].0@, o@[i].1.view())
                        } else {
                            (Seq::empty(), JsonView::Null)
                        },
                ),
            ),
        }
    }
}

/// `serde_json::Value`, as an opaque value.
#[verifier::external_type_specification]
#[verifier::external_body]
pub struct ExValue(serde_json::Value);

/// The value under `key` in the members `o`.
pub open spec fn find_member(o: Seq<(Seq<char>, JsonView)>, key: Seq<char>) -> Option<JsonView>
    decreases o.len(),
{
    if o.len() == 0 {
        None
    } else if o[0].0 == key {
        Some(o[0].1)
    } else {
        find_member(o.skip(1), key)
    }
}

impl JsonView {
    /// The object without members.
    pub open spec fn empty() -> JsonView {
        JsonView::Object(Seq::empty())
    }

    /// The object with one more member at its end.
    pub open spec fn with(self, key: Seq<char>, value: JsonView) -> JsonView {
        JsonView::Object(self->Object_0.push((key, value)))
    }

    /// The value under `key`, where this is an object that has one.
    pub open spec fn member(self, key: Seq<char>) -> Option<JsonView> {
        match self {
            JsonView::Object(o) => find_member(o, key),
            _ => None,
        }
    }

    pub open spec fn text(self) -> Option<Seq<char>> {
        match self {
            JsonView::Text(s) => Some(s),
            _ => None,
        }
    }

    pub open spec fn truth(self) -> Option<bool> {
        match self {
            JsonView::Bool(b) => Some(b),
            _ => None,
        }
    }

    /// A whole number that is not negative.
    pub open spec fn unsigned(self) -> Option<u64> {
        match self {
            JsonView::Number(NumberView::Unsigned(n)) => Some(n),
            _ => None,
        }
    }

    /// A whole number within the range of `i64`.
    pub open spec fn signed(self) -> Option<i64> {
        match self {
            JsonView::Number(NumberView::Unsigned(n)) => if n <= i64::MAX {
                Some(n as i64)
            } else {
                None
            },
            JsonView::Number(NumberView::Negative(n)) => Some(n),
            _ => None,
        }
    }

    pub open spec fn items(self) -> Option<Seq<JsonView>> {
        match self {
            JsonView::Array(a) => Some(a),
            _ => None,
        }
    }

    /// The text under `key`.
    pub open spec fn text_at(self, key: Seq<char>) -> Option<Seq<char>> {
        match self.member(key) {
            Some(v) => v.text(),
            None => None,
        }
    }

    /// The text under `key`, or `default` where there is none.
    pub open spec fn text_or(self, key: Seq<char>, default: Seq<char>) -> Seq<char> {
        match self.text_at(key) {
            Some(s) => s,
            None => default,
        }
    }

    pub open spec fn bool_or(self, key: Seq<char>, default: bool) -> bool {
        match self.member(key) {
            Some(v) => match v.truth() {
                Some(b) => b,
                None => default,
            },
            None => default,
        }
    }

    pub open spec fn u64_or(self, key: Seq<char>, default: u64) -> u64 {
        match self.member(key) {
            Some(v) => match v.unsigned() {
                Some(n) => n,
                None => default,
            },
            None => default,
        }
    }

    pub open spec fn i64_at(self, key: Seq<char>) -> Option<i64> {
        match self.member(key) {
            Some(v) => v.signed(),
            None => None,
        }
    }

    pub open spec fn i64_or(self, key: Seq<char>, default: i64) -> i64 {
        match self.i64_at(key) {
            Some(n) => n,
            None => default,
        }
    }
}

/// The views of a list of values.
pub open spec fn views(v: Seq<Json>) -> Seq<JsonView> {
    Seq::new(v.len(), |i: int| v[i]@)
}

/// The view of a reference to a value, if there is one.
pub open spec fn opt_view(o: Option<&Json>) -> Option<JsonView> {
    match o {
        Some(j) => Some(j@),
        None => None,
    }
}

impl Json {
    /// The value under `key`, where this is an object that has one.
    pub fn get(&self, key: &str) -> (r: Option<&Json>)
        ensures
            opt_view(r) == self@.member(key@),
    {
        match self {
            Json::Object(o) => {
                let mut i: usize = 0;
                let ghost ov = self@->Object_0;
                assert(ov.skip(0) =~= ov);
                while i < o.len()
                    invariant
                        i <= o@.len(),
                        *self == Json::Object(*o),
                        ov == self@->Object_0,
                        ov.len() == o@.len(),
                        find_member(ov, key@) == find_member(ov.skip(i as int), key@),
                    decreases o@.len() - i,
                {
                    proof {
                        assert(ov[i as int] == (o@[i as int].0@, o@[i as int].1@));
                        assert(ov.skip(i as int)[0] == ov[i as int]);
                        assert(ov.skip(i as int).skip(1) =~= ov.skip(i + 1));
                    }
                    if text::same(o[i].0.as_str(), key) {
                        return Some(&o[i].1);
                    }
                    i += 1;
                }
                None
            },
            _ => None,
        }
    }

    pub fn as_str(&self) -> (r: Option<&str>)
        ensures
            text::opt_str(r) == self@.text(),
    {
        match self {
            Json::Text(s) => Some(s.as_str()),
            _ => None,
        }
    }

    pub fn as_bool(&self) -> (r: Option<bool>)
        ensures
            r == self@.truth(),
    {
        match self {
            Json::Bool(b) => Some(*b),
            _ => None,
        }
    }

    pub fn as_u64(&self) -> (r: Option<u64>)
        ensures
            r == self@.unsigned(),
    {
        match self {
            Json::Number(Number::Unsigned(n)) => Some(*n),
            _ => None,
        }
    }

    pub fn as_i64(&self) -> (r: Option<i64>)
        ensures
            r == self@.signed(),
    {
        match self {
            Json::Number(Number::Unsigned(n)) => {
                if *n <= i64::MAX as u64 {
                    Some(*n as i64)
                } else {
                    None
                }
            },
            Json::Number(Number::Negative(n)) => Some(*n),
            _ => None,
        }
    }

    pub fn as_array(&self) -> (r: Option<&Vec<Json>>)
        ensures
            match r {
                Some(a) => self@ == JsonView::Array(views(a@)),
                None => self@.items() is None,
            },
    {
        match self {
            Json::Array(a) => {
                assert(self@->Array_0 =~= views(a@));
                Some(a)
            },
            _ => None,
        }
    }

    pub fn str_at(&self, key: &str) -> (r: Option<&str>)
        ensures
            text::opt_str(r) == self@.text_at(key@),
    {
        match self.get(key) {
            Some(v) => v.as_str(),
            None => None,
        }
    }

    /// The text under `key`, or `default` where there is none.
    pub fn string_or(&self, key: &str, default: &str) -> (r: String)
        ensures
            r@ == self@.text_or(key@, default@),
    {
        match self.str_at(key) {
            Some(s) => s.to_string(),
            None => default.to_string(),
        }
    }

    /// The text under `key`, if there is one.
    pub fn string_at(&self, key: &str) -> (r: Option<String>)
        ensures
            text::opt_text(r) == self@.text_at(key@),
    {
        match self.str_at(key) {
            Some(s) => Some(s.to_string()),
            None => None,
        }
    }

    pub fn bool_or(&self, key: &str, default: bool) -> (r: bool)
        ensures
            r == self@.bool_or(key@, default),
    {
        match self.get(key) {
            Some(v) => match v.as_bool() {
                Some(b) => b,
                None => default,
            },
            None => default,
        }
    }

    pub fn u64_or(&self, key: &str, default: u64) -> (r: u64)
        ensures
            r == self@.u64_or(key@, default),
    {
        match self.get(key) {
            Some(v) => match v.as_u64() {
                Some(n) => n,
                None => default,
            },
            None => default,
        }
    }

    pub fn i64_at(&self, key: &str) -> (r: Option<i64>)
        ensures
            r == self@.i64_at(key@),
    {
        match self.get(key) {
            Some(v) => v.as_i64(),
            None => None,
        }
    }

    pub fn i64_or(&self, key: &str, default: i64) -> (r: i64)
        ensures
            r == self@.i64_or(key@, default),
    {
        match self.i64_at(key) {
            Some(n) => n,
            None => default,
        }
    }

    /// A value of its own with the same contents.
    pub fn copy(&self) -> (r: Json)
        ensures
            r@ == self@,
        decreases self,
    {
        match self {
            Json::Null => Json::Null,
            Json::Bool(b) => Json::Bool(*b),
            Json::Number(Number::Unsigned(n)) => Json::Number(Number::Unsigned(*n)),
            Json::Number(Number::Negative(n)) => Json::Number(Number::Negative(*n)),
            Json::Number(Number::Real(s)) => Json::Number(Number::Real(s.clone())),
            Json::Text(s) => Json::Text(s.clone()),
            Json::Array(a) => {
                let mut out: Vec<Json> = Vec::new();
                let mut i: usize = 0;
                while i < a.len()
                    invariant
                        i <= a@.len(),
                        *self == Json::Array(*a),
                        out@.len() == i,
                        forall|k: int| 0 <= k < i ==> (#[trigger] out@[k])@ == a@[k]@,
                    decreases a@.len() - i,
                {
                    assert(decreases_to!(self => self->Array_0@[i as int]));
                    out.push(a[i].copy());
                    i += 1;
                }
                let r = Json::Array(out);
                assert(r@->Array_0 =~= self@->Array_0);
                r
            },
            Json::Object(o) => {
                let mut out: Vec<(String, Json)> = Vec::new();
                let mut i: usize = 0;
                while i < o.len()
                    invariant
                        i <= o@.len(),
                        *self == Json::Object(*o),
                        out@.len() == i,
                        forall|k: int|
                            0 <= k < i ==> (#[trigger] out@[k]).0@ == o@[k].0@ && out@[k].1@
                                == o@[k].1@,
                    decreases o@.len() - i,
                {
                    assert(decreases_to!(self => self->Object_0@[i as int].1));
                    out.push((o[i].0.clone(), o[i].1.copy()));
                    i += 1;
                }
                let r = Json::Object(out);
                assert(r@->Object_0 =~= self@->Object_0);
                r
            },
        }
    }
}

/// The JSON value that `serde_json::from_str` reads from a text; none where it is
/// not the text of one JSON value.
pub uninterp spec fn parsed(s: Seq<char>) -> Option<JsonView>;

/// The contents of a `serde_json::Value`.
pub uninterp spec fn value_contents(v: serde_json::Value) -> JsonView;

/// The compact text that `serde_json` writes for a value.
pub uninterp spec fn value_text(v: serde_json::Value) -> Seq<char>;

/// The compact text of the `serde_json::Value` with the given contents.
pub uninterp spec fn rendered(j: JsonView) -> Seq<char>;

/// Calls `serde_json::from_str` for a `serde_json::Value`. What comes of it is a
/// function of the text.
#[verifier::external_body]
fn read_value(s: &str) -> (r: Option<serde_json::Value>)
    ensures
        match r {
            Some(v) => parsed(s@) == Some(value_contents(v)),
            None => parsed(s@) is None,
        },
{
    serde_json::from_str::<serde_json::Value>(s).ok()
}

/// Turns a `serde_json::Value` into plain data: variant for variant, members in
/// the order in which the map yields them.
#[verifier::external_body]
fn json_of(v: serde_json::Value) -> (r: Json)
    ensures
        r@ == value_contents(v),
{
    match v {
        serde_json::Value::Null => Json::Null,
        serde_json::Value::Bool(b) => Json::Bool(b),
        serde_json::Value::Number(n) => Json::Number(match (n.as_u64(), n.as_i64()) {
            (Some(u), _) => Number::Unsigned(u),
            (None, Some(i)) => Number::Negative(i),
            (None, None) => Number::Real(n.to_string()),
        }),
        serde_json::Value::String(s) => Json::Text(s),
        serde_json::Value::Array(a) => Json::Array(a.into_iter().map(json_of).collect()),
        serde_json::Value::Object(o) => Json::Object(o.into_iter().map(|(k, v)| (k, json_of(v))).collect()),
    }
}

/// Turns plain data into a `serde_json::Value`, variant for variant. Of members
/// with the same key the last one stays, as in `serde_json::Map::insert`. The
/// text of the result is a function of the data.
#[verifier::external_body]
fn value_of(j: &Json) -> (r: serde_json::Value)
    ensures
        value_text(r) == rendered(j@),
{
    match j {
        Json::Null => serde_json::Value::Null,
        Json::Bool(b) => serde_json::Value::Bool(*b),
        Json::Number(Number::Unsigned(n)) => serde_json::Value::from(*n),
        Json::Number(Number::Negative(n)) => serde_json::Value::from(*n),
        Json::Number(Number::Real(s)) => serde_json::from_str(s).unwrap_or(serde_json::Value::Null),
        Json::Text(s) => serde_json::Value::String(s.clone()),
        Json::Array(a) => serde_json::Value::Array(a.iter().map(value_of).collect()),
        Json::Object(o) => serde_json::Value::Object(o.iter().map(|(k, v)| (k.clone(), value_of(v))).collect()),
    }
}

/// Calls `serde_json::Value::to_string`, which writes the value as compact JSON.
#[verifier::external_body]
fn write_value(v: &serde_json::Value) -> (r: String)
    ensures
        r@ == value_text(*v),
{
    v.to_string()
}

/// The JSON value that a text stands for, if it is one.
pub fn parse_json(s: &str) -> (r: Option<Json>)
    ensures
        match r {
            Some(j) => parsed(s@) == Some(j@),
            None => parsed(s@) is None,
        },
{
    match read_value(s) {
        Some(v) => Some(json_of(v)),
        None => None,
    }
}

/// The compact text of a JSON value.
pub fn render_json(j: &Json) -> (r: String)
    ensures
        r@ == rendered(j@),
{
    write_value(&value_of(j))
}

/// The list of strings that `serde_json::from_str` reads from a text; none where
/// the text is not a JSON array of strings.
pub uninterp spec fn parsed_list(s: Seq<char>) -> Option<Seq<Seq<char>>>;

/// The text of a JSON array of strings, as `serde_json::to_string` writes it.
pub uninterp spec fn list_text(l: Seq<Seq<char>>) -> Seq<char>;

/// Calls `serde_json::from_str` for a list of strings. The result is a function
/// of the text.
#[verifier::external_body]
pub(crate) fn read_list(s: &str) -> (r: Option<Vec<String>>)
    ensures
        match r {
            Some(v) => parsed_list(s@) == Some(text::texts(v@)),
            None => parsed_list(s@) is None,
        },
{
    serde_json::from_str::<Vec<String>>(s).ok()
}

/// Calls `serde_json::to_string` on a list of strings, which cannot fail for
/// one. Reading the text again gives the same list.
#[verifier::external_body]
pub(crate) fn write_list(v: &Vec<String>) -> (r: String)
    ensures
        r@ == list_text(text::texts(v@)),
        parsed_list(r@) == Some(text::texts(v@)),
{
    serde_json::to_string(v).unwrap_or_default()
}

/// An object without members.
pub fn empty_object() -> (r: Json)
    ensures
        r@ == JsonView::empty(),
{
    let r = Json::Object(Vec::new());
    assert(r@->Object_0 =~= Seq::empty());
    r
}

/// The object `o` with one more member at its end.
pub fn with(o: Json, key: &str, value: Json) -> (r: Json)
    requires
        o@ is Object,
    ensures
        r@ == o@.with(key@, value@),
{
    let ghost before = o@->Object_0;
    match o {
        Json::Object(m) => {
            let mut m = m;
            let ghost m0 = m@;
            m.push((key.to_string(), value));
            let r = Json::Object(m);
            assert(r@->Object_0 =~= before.push((key@, value@))) by {
                assert forall|i: int| 0 <= i < m0.len() implies r@->Object_0[i] == before[i] by {
                    assert(m@[i] == m0[i]);
                }
            }
            r
        },
        other => other,
    }
}

/// A string.
pub fn string(s: &str) -> (r: Json)
    ensures
        r@ == JsonView::Text(s@),
{
    Json::Text(s.to_string())
}

/// A whole number that is not negative.
pub fn unsigned(n: u64) -> (r: Json)
    ensures
        r@ == JsonView::Number(NumberView::Unsigned(n)),
{
    Json::Number(Number::Unsigned(n))
}

/// An array of strings.
pub open spec fn text_array(l: Seq<Seq<char>>) -> JsonView {
    JsonView::Array(Seq::new(l.len(), |i: int| JsonView::Text(l[i])))
}

/// An array of strings.
pub fn string_array(v: &Vec<String>) -> (r: Json)
    ensures
        r@ == text_array(text::texts(v@)),
{
    let mut out: Vec<Json> = Vec::new();
    let mut i: usize = 0;
    while i < v.len()
        invariant
            i <= v@.len(),
            out@.len() == i,
            forall|k: int| 0 <= k < i ==> (#[trigger] out@[k])@ == JsonView::Text(v@[k]@),
        decreases v@.len() - i,
    {
        out.push(Json::Text(v[i].clone()));
        i += 1;
    }
    let r = Json::Array(out);
    assert(r@->Array_0 =~= text_array(text::texts(v@))->Array_0);
    r
}

proof fn lemma_find_behind(o: Seq<(Seq<char>, JsonView)>, m: (Seq<char>, JsonView), key: Seq<char>)
    ensures
        find_member(o.push(m), key) == match find_member(o, key) {
            Some(v) => Some(v),
            None => if m.0 == key {
                Some(m.1)
            } else {
                None
            },
        },
    decreases o.len(),
{
    let r = o.push(m);
    if o.len() == 0 {
        assert(r[0] == m);
        assert(r.skip(1) =~= Seq::empty());
        assert(find_member(r.skip(1), key) is None);
    } else {
        assert(r[0] == o[0]);
        assert(r.skip(1) =~= o.skip(1).push(m));
        lemma_find_behind(o.skip(1), m, key);
    }
}

/// A member that is added is found under its name, unless one of that name was there, and
/// those of other names stay as they are.
pub proof fn law_members_are_found_by_their_name(
    o: JsonView,
    key: Seq<char>,
    value: JsonView,
    other: Seq<char>,
)
    requires
        o is Object,
    ensures
        JsonView::empty().member(key) is None,
        o.member(key) is None ==> o.with(key, value).member(key) == Some(value),
        o.member(key) is Some ==> o.with(key, value).member(key) == o.member(key),
        other != key ==> o.with(key, value).member(other) == o.member(other),
{
    lemma_find_behind(o->Object_0, (key, value), key);
    lemma_find_behind(o->Object_0, (key, value), other);
}

/// A value is read as what it is: a text as a text, a number as a number, a choice as a choice,
/// and the usual value takes the place of anything else.
pub proof fn law_values_are_read_as_they_are(o: JsonView, key: Seq<char>, t: Seq<char>, n: u64, b: bool)
    ensures
        o.member(key) == Some(JsonView::Text(t)) ==> o.text_at(key) == Some(t),
        o.member(key) == Some(JsonView::Bool(b)) ==> o.bool_or(key, !b) == b,
        o.member(key) == Some(JsonView::Number(NumberView::Unsigned(n))) ==> o.u64_or(key, 0) == n
            && (n <= i64::MAX ==> o.i64_at(key) == Some(n as i64)),
        o.member(key) is None ==> o.text_at(key) is None && o.text_or(key, t) == t && o.u64_or(key, n)
            == n && o.bool_or(key, b) == b && o.i64_at(key) is None,
{
}

/// Of members of the same name the first counts, and each member is found.
pub proof fn law_first_members_count(o: Seq<(Seq<char>, JsonView)>, key: Seq<char>, i: int)
    ensures
        match find_member(o, key) {
            Some(v) => exists|k: int|
                0 <= k < o.len() && (#[trigger] o[k]).0 == key && o[k].1 == v && forall|j: int|
                    0 <= j < k ==> (#[trigger] o[j]).0 != key,
            None => forall|k: int| 0 <= k < o.len() ==> (#[trigger] o[k]).0 != key,
        },
    decreases o.len(),
{
    if o.len() > 0 {
        if o[0].0 != key {
            let t = o.skip(1);
            law_first_members_count(t, key, i);
            match find_member(t, key) {
                Some(v) => {
                    let k = choose|k: int|
                        0 <= k < t.len() && (#[trigger] t[k]).0 == key && t[k].1 == v && forall|j: int|
                            0 <= j < k ==> (#[trigger] t[j]).0 != key;
                    assert(o[k + 1] == t[k]);
                    assert forall|j: int| 0 <= j < k + 1 implies (#[trigger] o[j]).0 != key by {
                        if j > 0 {
                            assert(t[j - 1] == o[j]);
                        }
                    }
                },
                None => {
                    assert forall|k: int| 0 <= k < o.len() implies (#[trigger] o[k]).0 != key by {
                        if k > 0 {
                            assert(t[k - 1] == o[k]);
                        }
                    }
                },
            }
        } else {
            assert(o[0].0 == key);
        }
    }
}

/// What is found in an object that is put together member by member.
pub proof fn lemma_chains()
    ensures
        JsonView::empty() is Object,
        forall|k: Seq<char>| #[trigger] JsonView::empty().member(k) is None,
        forall|o: JsonView, k: Seq<char>, v: JsonView|
            o is Object ==> #[trigger] o.with(k, v) is Object,
        forall|o: JsonView, k: Seq<char>, v: JsonView, other: Seq<char>|
            o is Object ==> #[trigger] o.with(k, v).member(other) == (if other != k {
                o.member(other)
            } else if o.member(k) is None {
                Some(v)
            } else {
                o.member(k)
            }),
{
    let e = JsonView::empty();
    assert forall|k: Seq<char>| #[trigger] JsonView::empty().member(k) is None by {
        law_members_are_found_by_their_name(e, k, JsonView::Null, k);
    }
    assert forall|o: JsonView, k: Seq<char>, v: JsonView, other: Seq<char>|
        o is Object implies #[trigger] o.with(k, v).member(other) == (if other != k {
        o.member(other)
    } else if o.member(k) is None {
        Some(v)
    } else {
        o.member(k)
    }) by {
        law_members_are_found_by_their_name(o, k, v, other);
    }
}

} // verus!
