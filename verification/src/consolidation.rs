//! Consolidation on write: what a language model says of a new memory and those
//! that are already there. Where nothing usable comes back, the memory is simply
//! added.
use vstd::prelude::*;
use vstd::utf8::encode_utf8;
use crate::hash;
use crate::json;
use crate::json::{Json, JsonView, Number, NumberView};
use crate::text;

verus! {

/// What is to be done with a new memory.
#[derive(Debug)]
pub struct Decision {
    /// `ADD`: a new fact. `UPDATE`: it replaces the target. `NOOP`: the target
    /// says it already.
    pub action: String,
    /// The memory that is replaced or repeated.
    pub target_id: Option<String>,
    /// Why.
    pub reason: String,
    pub entities: Vec<ExtractedEntity>,
    pub edges: Vec<ExtractedEdge>,
}

/// A thing that a memory speaks of.
#[derive(Debug)]
pub struct ExtractedEntity {
    pub name: String,
    pub etype: String,
}

/// A relation between two things that a memory speaks of.
#[derive(Debug)]
pub struct ExtractedEdge {
    pub subject: String,
    pub predicate: String,
    pub obj: String,
    pub valid_from: String,
    pub valid_to: String,
}

pub struct EntityView {
    pub name: Seq<char>,
    pub etype: Seq<char>,
}

pub struct EdgeView {
    pub subject: Seq<char>,
    pub predicate: Seq<char>,
    pub obj: Seq<char>,
    pub valid_from: Seq<char>,
    pub valid_to: Seq<char>,
}

pub struct DecisionView {
    pub action: Seq<char>,
    pub target_id: Option<Seq<char>>,
    pub reason: Seq<char>,
    pub entities: Seq<EntityView>,
    pub edges: Seq<EdgeView>,
}

impl ExtractedEntity {
    pub open spec fn view(&self) -> EntityView {
        EntityView { name: self.name@, etype: self.etype@ }
    }
}

impl ExtractedEdge {
    pub open spec fn view(&self) -> EdgeView {
        EdgeView {
            subject: self.subject@,
            predicate: self.predicate@,
            obj: self.obj@,
            valid_from: self.valid_from@,
            valid_to: self.valid_to@,
        }
    }
}

pub open spec fn entity_views(v: Seq<ExtractedEntity>) -> Seq<EntityView> {
    Seq::new(v.len(), |i: int| v[i]@)
}

pub open spec fn edge_views(v: Seq<ExtractedEdge>) -> Seq<EdgeView> {
    Seq::new(v.len(), |i: int| v[i]@)
}

impl Decision {
    pub open spec fn view(&self) -> DecisionView {
        DecisionView {
            action: self.action@,
            target_id: text::opt_text(self.target_id),
            reason: self.reason@,
            entities: entity_views(self.entities@),
            edges: edge_views(self.edges@),
        }
    }
}

pub open spec fn opt_decision(d: Option<Decision>) -> Option<DecisionView> {
    match d {
        Some(d) => Some(d@),
        None => None,
    }
}

/// `s` without the prefix `p`, if it has it.
pub open spec fn shed_prefix(s: Seq<char>, p: Seq<char>) -> Seq<char> {
    match text::without_prefix(s, p) {
        Some(r) => r,
        None => s,
    }
}

/// `s` without the suffix `p`, if it has it.
pub open spec fn shed_suffix(s: Seq<char>, p: Seq<char>) -> Seq<char> {
    if text::ends(s, p) {
        s.take(s.len() - p.len())
    } else {
        s
    }
}

/// A reply without the fence of a code block round it.
pub open spec fn unfenced(reply: Seq<char>) -> Seq<char> {
    let s = text::trimmed(reply);
    let s = if text::begins(s, "```json"@) {
        shed_prefix(s, "```json"@)
    } else {
        shed_prefix(s, "```"@)
    };
    text::trimmed(shed_suffix(s, "```"@))
}

/// From the first opening to the last closing brace of a text.
pub open spec fn braced(s: Seq<char>) -> Option<Seq<char>> {
    match (text::index_from(s, '{', 0), text::last_index(s, '}')) {
        (Some(a), Some(b)) => if b < a {
            None
        } else {
            Some(s.subrange(a, b + 1))
        },
        _ => None,
    }
}

fn without_suffix(s: &str, p: &str) -> (r: String)
    ensures
        r@ == shed_suffix(s@, p@),
{
    if text::ends_with(s, p) {
        let v = text::chars_of(s);
        let n = v.len() - text::chars_of(p).len();
        let r = text::string_between(&v, 0, n);
        assert(r@ =~= s@.take(s@.len() - p@.len()));
        r
    } else {
        s.to_string()
    }
}

/// Finds the JSON object in a reply: a fence round it and words before and after
/// it are left out.
pub fn object_in(reply: &str) -> (r: Option<String>)
    ensures
        text::opt_text(r) == braced(unfenced(reply@)),
{
    let s = text::trim(reply);
    let s = match text::strip_prefix(s.as_str(), "```json") {
        Some(t) => t,
        None => match text::strip_prefix(s.as_str(), "```") {
            Some(t) => t,
            None => s,
        },
    };
    let s = text::trim(without_suffix(s.as_str(), "```").as_str());
    let v = text::chars_of(s.as_str());
    let start = match text::index_of(&v, '{', 0) {
        Some(i) => i,
        None => {
            return None;
        },
    };
    let end = match text::last_index_of(&v, '}') {
        Some(i) => i,
        None => {
            return None;
        },
    };
    if end < start || end >= v.len() {
        None
    } else {
        Some(text::string_between(&v, start, end + 1))
    }
}

/// One of the three actions.
pub open spec fn known_action(a: Seq<char>) -> bool {
    a == "ADD"@ || a == "UPDATE"@ || a == "NOOP"@
}

/// The target that a reply names: none where it is blank or the word `null`.
pub open spec fn target_of(v: JsonView) -> Option<Seq<char>> {
    match v.text_at("target_id"@) {
        Some(t) => if text::trimmed(t).len() == 0 || text::trimmed(t) == "null"@ {
            None
        } else {
            Some(text::trimmed(t))
        },
        None => None,
    }
}

fn read_target(v: &Json) -> (r: Option<String>)
    ensures
        text::opt_text(r) == target_of(v@),
{
    match v.str_at("target_id") {
        Some(t) => {
            let t = text::trim(t);
            if t.as_str().is_empty() || text::same(t.as_str(), "null") {
                None
            } else {
                Some(t)
            }
        },
        None => None,
    }
}

/// One of the kinds of things.
pub open spec fn known_etype(t: Seq<char>) -> bool {
    t == "person"@ || t == "system"@ || t == "tool"@ || t == "concept"@ || t == "org"@ || t
        == "project"@ || t == "location"@ || t == "event"@ || t == "other"@
}

fn is_known_etype(t: &str) -> (r: bool)
    ensures
        r == known_etype(t@),
{
    text::same(t, "person") || text::same(t, "system") || text::same(t, "tool") || text::same(t, "concept") || text::same(
        t,
        "org",
    ) || text::same(t, "project") || text::same(t, "location") || text::same(t, "event") || text::same(t, "other")
}

/// The thing that an item of a reply names: it has a name of at most 120
/// characters, and an unknown kind counts as `other`.
pub open spec fn entity_of(e: JsonView) -> Option<EntityView> {
    match e.text_at("name"@) {
        Some(n) => {
            let name = text::trimmed(n);
            let etype = e.text_or("etype"@, "other"@);
            if name.len() == 0 || name.len() > 120 {
                None
            } else {
                Some(
                    EntityView {
                        name,
                        etype: if known_etype(etype) {
                            etype
                        } else {
                            "other"@
                        },
                    },
                )
            }
        },
        None => None,
    }
}

/// The things that the items of a reply name, in their order.
pub open spec fn entities_of(items: Seq<JsonView>) -> Seq<EntityView>
    decreases items.len(),
{
    if items.len() == 0 {
        Seq::empty()
    } else {
        match entity_of(items.last()) {
            Some(e) => entities_of(items.drop_last()).push(e),
            None => entities_of(items.drop_last()),
        }
    }
}

fn read_entity(e: &Json) -> (r: Option<ExtractedEntity>)
    ensures
        match r {
            Some(x) => entity_of(e@) == Some(x@),
            None => entity_of(e@) is None,
        },
{
    let name = match e.str_at("name") {
        Some(n) => text::trim(n),
        None => {
            return None;
        },
    };
    let n = text::chars_of(name.as_str()).len();
    if n == 0 || n > 120 {
        return None;
    }
    let etype = e.string_or("etype", "other");
    let etype = if is_known_etype(etype.as_str()) {
        etype
    } else {
        "other".to_string()
    };
    Some(ExtractedEntity { name, etype })
}

fn read_entities(items: &Vec<Json>) -> (r: Vec<ExtractedEntity>)
    ensures
        entity_views(r@) == entities_of(json::views(items@)),
{
    let ghost all = json::views(items@);
    let mut out: Vec<ExtractedEntity> = Vec::new();
    let mut i: usize = 0;
    assert(entity_views(out@) =~= entities_of(all.take(0)));
    while i < items.len()
        invariant
            i <= items@.len(),
            all == json::views(items@),
            entity_views(out@) == entities_of(all.take(i as int)),
        decreases items@.len() - i,
    {
        assert(all.take(i + 1).drop_last() =~= all.take(i as int));
        let ghost before = out@;
        if let Some(e) = read_entity(&items[i]) {
            out.push(e);
            assert(entity_views(out@) =~= entity_views(before).push(e@));
        }
        i += 1;
    }
    assert(all.take(items@.len() as int) =~= all);
    out
}

/// What a relation of a reply points at: `obj`, or `object` where there is none.
pub open spec fn object_end(e: JsonView) -> Option<Seq<char>> {
    match e.member("obj"@) {
        Some(o) => o.text(),
        None => e.text_at("object"@),
    }
}

/// The relation that an item of a reply names: both ends are there and differ,
/// and its name is in lower case, of at most 60 characters.
pub open spec fn edge_of(e: JsonView) -> Option<EdgeView> {
    match (e.text_at("subject"@), object_end(e)) {
        (Some(s), Some(o)) => {
            let subject = text::trimmed(s);
            let obj = text::trimmed(o);
            if subject.len() == 0 || obj.len() == 0 || subject == obj {
                None
            } else {
                Some(
                    EdgeView {
                        subject,
                        predicate: text::first_chars(
                            text::lowercased(
                                text::trimmed(e.text_or("predicate"@, "related_to"@)),
                            ),
                            60,
                        ),
                        obj,
                        valid_from: e.text_or("valid_from"@, ""@),
                        valid_to: e.text_or("valid_to"@, ""@),
                    },
                )
            }
        },
        _ => None,
    }
}

/// The relations that the items of a reply name, in their order.
pub open spec fn edges_of(items: Seq<JsonView>) -> Seq<EdgeView>
    decreases items.len(),
{
    if items.len() == 0 {
        Seq::empty()
    } else {
        match edge_of(items.last()) {
            Some(e) => edges_of(items.drop_last()).push(e),
            None => edges_of(items.drop_last()),
        }
    }
}

fn read_edge(e: &Json) -> (r: Option<ExtractedEdge>)
    ensures
        match r {
            Some(x) => edge_of(e@) == Some(x@),
            None => edge_of(e@) is None,
        },
{
    let subject = match e.str_at("subject") {
        Some(s) => text::trim(s),
        None => {
            return None;
        },
    };
    let end = match e.get("obj") {
        Some(o) => o.as_str(),
        None => e.str_at("object"),
    };
    let obj = match end {
        Some(o) => text::trim(o),
        None => {
            return None;
        },
    };
    if subject.as_str().is_empty() || obj.as_str().is_empty() || text::same(
        subject.as_str(),
        obj.as_str(),
    ) {
        return None;
    }
    let predicate = e.string_or("predicate", "related_to");
    let predicate = text::take_chars(
        text::to_lowercase(text::trim(predicate.as_str()).as_str()).as_str(),
        60,
    );
    Some(
        ExtractedEdge {
            subject,
            predicate,
            obj,
            valid_from: e.string_or("valid_from", ""),
            valid_to: e.string_or("valid_to", ""),
        },
    )
}

fn read_edges(items: &Vec<Json>) -> (r: Vec<ExtractedEdge>)
    ensures
        edge_views(r@) == edges_of(json::views(items@)),
{
    let ghost all = json::views(items@);
    let mut out: Vec<ExtractedEdge> = Vec::new();
    let mut i: usize = 0;
    assert(edge_views(out@) =~= edges_of(all.take(0)));
    while i < items.len()
        invariant
            i <= items@.len(),
            all == json::views(items@),
            edge_views(out@) == edges_of(all.take(i as int)),
        decreases items@.len() - i,
    {
        assert(all.take(i + 1).drop_last() =~= all.take(i as int));
        let ghost before = out@;
        if let Some(e) = read_edge(&items[i]) {
            out.push(e);
            assert(edge_views(out@) =~= edge_views(before).push(e@));
        }
        i += 1;
    }
    assert(all.take(items@.len() as int) =~= all);
    out
}

/// The items of the array under `key`; none where there is no array.
pub open spec fn items_at(v: JsonView, key: Seq<char>) -> Seq<JsonView> {
    match v.member(key) {
        Some(a) => match a.items() {
            Some(items) => items,
            None => Seq::empty(),
        },
        None => Seq::empty(),
    }
}

/// The decision for an action in upper case that a JSON value gives the rest of: none
/// where the action is not known, or needs a target that is not given.
pub open spec fn decision_for(action: Seq<char>, v: JsonView) -> Option<DecisionView> {
    if !known_action(action) || (action != "ADD"@ && target_of(v) is None) {
        None
    } else {
        Some(
            DecisionView {
                action,
                target_id: target_of(v),
                reason: text::first_chars(v.text_or("reason"@, ""@), 120),
                entities: entities_of(items_at(v, "entities"@)),
                edges: edges_of(items_at(v, "edges"@)),
            },
        )
    }
}

/// The decision that a JSON value spells out.
pub open spec fn decision_of(v: JsonView) -> Option<DecisionView> {
    match v.text_at("action"@) {
        Some(a) => decision_for(text::uppercased(a), v),
        None => None,
    }
}

/// Reads the decision for an action in upper case.
pub fn decide(action: String, v: &Json) -> (r: Option<Decision>)
    ensures
        opt_decision(r) == decision_for(action@, v@),
{
    proof {
        reveal_strlit("ADD");
        reveal_strlit("UPDATE");
        reveal_strlit("NOOP");
        assert("ADD"@.len() == 3 && "UPDATE"@.len() == 6 && "NOOP"@.len() == 4);
    }
    let add = text::same(action.as_str(), "ADD");
    if !add && !text::same(action.as_str(), "UPDATE") && !text::same(action.as_str(), "NOOP") {
        return None;
    }
    let target_id = read_target(v);
    if !add && target_id.is_none() {
        return None;
    }
    let reason = v.string_or("reason", "");
    let reason = text::take_chars(reason.as_str(), 120);
    let entities = match v.get("entities") {
        Some(a) => match a.as_array() {
            Some(items) => read_entities(items),
            None => Vec::new(),
        },
        None => Vec::new(),
    };
    let edges = match v.get("edges") {
        Some(a) => match a.as_array() {
            Some(items) => read_edges(items),
            None => Vec::new(),
        },
        None => Vec::new(),
    };
    assert(entity_views(entities@) =~= entities_of(items_at(v@, "entities"@)));
    assert(edge_views(edges@) =~= edges_of(items_at(v@, "edges"@)));
    Some(Decision { action, target_id, reason, entities, edges })
}

/// Reads the decision that a JSON value spells out.
pub fn read_decision(v: &Json) -> (r: Option<Decision>)
    ensures
        opt_decision(r) == decision_of(v@),
{
    match v.str_at("action") {
        Some(a) => decide(text::to_uppercase(a), v),
        None => None,
    }
}

/// The decision in the reply of a model.
pub open spec fn reply_decision(reply: Seq<char>) -> Option<DecisionView> {
    match braced(unfenced(reply)) {
        Some(s) => match json::parsed(s) {
            Some(v) => decision_of(v),
            None => None,
        },
        None => None,
    }
}

/// Reads the decision in the reply of a model. A fence round the JSON and words
/// before and after it do no harm; anything that is no decision gives none.
pub fn parse_decision(reply: &str) -> (r: Option<Decision>)
    ensures
        opt_decision(r) == reply_decision(reply@),
{
    match object_in(reply) {
        Some(s) => match json::parse_json(s.as_str()) {
            Some(v) => read_decision(&v),
            None => None,
        },
        None => None,
    }
}

/// A decision is never lossy by itself: its action is one of the three, and one
/// that leaves the memory out or replaces another names the memory that stands
/// for it.
pub proof fn law_decisions_have_their_target(v: JsonView)
    requires
        decision_of(v) is Some,
    ensures
        known_action(decision_of(v)->0.action),
        decision_of(v)->0.action != "ADD"@ ==> decision_of(v)->0.target_id is Some,
        decision_of(v)->0.target_id is Some ==> decision_of(v)->0.target_id->0.len() > 0,
        decision_of(v)->0.reason.len() <= 120,
{
}

/// Every thing and every relation that comes out of a reply is clean: names are
/// not empty, kinds are known, and no relation leads from a thing to itself.
pub proof fn law_extracts_are_clean(items: Seq<JsonView>)
    ensures
        forall|i: int|
            0 <= i < entities_of(items).len() ==> known_etype(
                (#[trigger] entities_of(items)[i]).etype,
            ) && 0 < entities_of(items)[i].name.len() <= 120,
        forall|i: int|
            0 <= i < edges_of(items).len() ==> (#[trigger] edges_of(items)[i]).subject
                != edges_of(items)[i].obj && edges_of(items)[i].subject.len() > 0 && edges_of(
                items,
            )[i].obj.len() > 0 && edges_of(items)[i].predicate.len() <= 60,
    decreases items.len(),
{
    if items.len() > 0 {
        law_extracts_are_clean(items.drop_last());
        let entities = entities_of(items.drop_last());
        let edges = edges_of(items.drop_last());
        assert forall|i: int| 0 <= i < entities_of(items).len() implies known_etype(
            (#[trigger] entities_of(items)[i]).etype,
        ) && 0 < entities_of(items)[i].name.len() <= 120 by {
            if i < entities.len() {
                assert(entities_of(items)[i] == entities[i]);
            }
        }
        assert forall|i: int| 0 <= i < edges_of(items).len() implies (#[trigger] edges_of(
            items,
        )[i]).subject != edges_of(items)[i].obj && edges_of(items)[i].subject.len() > 0
            && edges_of(items)[i].obj.len() > 0 && edges_of(items)[i].predicate.len() <= 60 by {
            if i < edges.len() {
                assert(edges_of(items)[i] == edges[i]);
            }
        }
    }
}

/// A memory that the new one is compared with.
#[derive(Debug)]
pub struct Candidate {
    pub id: String,
    pub content: String,
}

/// One of the candidates has this id.
pub open spec fn among(c: Seq<Candidate>, id: Seq<char>) -> bool {
    exists|i: int| 0 <= i < c.len() && (#[trigger] c[i]).id@ == id
}

/// What is done before a model is asked.
#[derive(Debug)]
pub enum Opening {
    /// Nothing is there to compare with: the memory is added.
    Settled(Decision),
    /// No model is configured.
    Off,
    /// The model is asked.
    Ask,
}

/// The decision without a model.
pub open spec fn plain_add() -> DecisionView {
    DecisionView {
        action: "ADD"@,
        target_id: None,
        reason: "无既有候选"@,
        entities: Seq::empty(),
        edges: Seq::empty(),
    }
}

/// Tells whether a model is asked at all.
pub fn opening(url: &str, candidates: &Vec<Candidate>) -> (r: Opening)
    ensures
        candidates@.len() == 0 ==> (r matches Opening::Settled(d) && d@ == plain_add()),
        candidates@.len() > 0 && url@.len() == 0 ==> r is Off,
        candidates@.len() > 0 && url@.len() > 0 ==> r is Ask,
{
    if candidates.len() == 0 {
        let d = Decision {
            action: "ADD".to_string(),
            target_id: None,
            reason: "无既有候选".to_string(),
            entities: Vec::new(),
            edges: Vec::new(),
        };
        assert(entity_views(d.entities@) =~= Seq::empty());
        assert(edge_views(d.edges@) =~= Seq::empty());
        Opening::Settled(d)
    } else if url.is_empty() {
        Opening::Off
    } else {
        Opening::Ask
    }
}

/// What the model is told to do.
pub const CONSOLIDATION_SYSTEM_PROMPT: &'static str = "你是记忆库的写入整合判定器。给你「新记忆」和若干条「既有记忆候选」，判定新记忆与它们的关系，并抽取实体与关系。只输出一个 JSON 对象，不要任何解释或 markdown 代码块。\n\n判定规则：\n- NOOP：新记忆与某候选说的是同一件事（换措辞/同义重述/信息完全被候选覆盖）→ target_id 填该候选 id。\n- UPDATE：新记忆是对某候选事实的更新/修正/状态变化（旧事实已过时，如\"用A方案\"→\"改用B方案\"）→ target_id 填该候选 id。\n- ADD：新信息、或对候选的补充扩展（旧事实仍有效）→ target_id 填 null。\n拿不准时选 ADD。target_id 只能来自候选列表，否则视为 ADD。\n\n同时抽取新记忆中的实体与关系（没有就给空数组）：\n- entities.etype 只能取：person/system/tool/concept/org/project/location/event/other\n- edges.predicate 用小写下划线（如 uses/depends_on/part_of/works_at/located_in/references/supersedes/created_by）\n- 涉及有效期时填 valid_from/valid_to（YYYY-MM-DD），否则空字符串\n\n输出格式：\n{\"action\":\"ADD|UPDATE|NOOP\",\"target_id\":null,\"reason\":\"≤30字\",\"entities\":[{\"name\":\"...\",\"etype\":\"...\"}],\"edges\":[{\"subject\":\"...\",\"predicate\":\"...\",\"obj\":\"...\",\"valid_from\":\"\",\"valid_to\":\"\"}]}";

/// The candidates as the model sees them: at most five, each cut to 300
/// characters.
pub open spec fn shown_candidates(c: Seq<Candidate>) -> Seq<JsonView> {
    Seq::new(
        if c.len() < 5 {
            c.len()
        } else {
            5
        },
        |i: int|
            JsonView::empty().with("id"@, JsonView::Text(c[i].id@)).with(
                "content"@,
                JsonView::Text(text::first_chars(c[i].content@, 300)),
            ),
    )
}

/// What the model is asked: the new memory, cut to 1200 characters, and the
/// candidates.
pub open spec fn question(content: Seq<char>, c: Seq<Candidate>) -> JsonView {
    JsonView::empty().with("new_memory"@, JsonView::Text(text::first_chars(content, 1200))).with(
        "candidates"@,
        JsonView::Array(shown_candidates(c)),
    )
}

/// A message of a chat.
pub open spec fn chat_message(role: Seq<char>, content: Seq<char>) -> JsonView {
    JsonView::empty().with("role"@, JsonView::Text(role)).with("content"@, JsonView::Text(content))
}

/// The request that is sent to the model.
pub open spec fn request(model: Seq<char>, content: Seq<char>, c: Seq<Candidate>) -> JsonView {
    JsonView::empty().with("model"@, JsonView::Text(model)).with(
        "messages"@,
        JsonView::Array(
            Seq::empty().push(chat_message("system"@, CONSOLIDATION_SYSTEM_PROMPT@)).push(
                chat_message("user"@, json::rendered(question(content, c))),
            ),
        ),
    ).with("temperature"@, JsonView::Number(NumberView::Real("0.1"@))).with(
        "max_tokens"@,
        JsonView::Number(NumberView::Unsigned(600)),
    ).with("stream"@, JsonView::Bool(false)).with("enable_thinking"@, JsonView::Bool(false))
}

fn message(role: &str, content: &str) -> (r: Json)
    ensures
        r@ == chat_message(role@, content@),
{
    json::with(
        json::with(json::empty_object(), "role", json::string(role)),
        "content",
        json::string(content),
    )
}

fn show_candidates(c: &Vec<Candidate>) -> (r: Json)
    ensures
        r@ == JsonView::Array(shown_candidates(c@)),
{
    let n: usize = if c.len() < 5 {
        c.len()
    } else {
        5
    };
    let mut out: Vec<Json> = Vec::new();
    let mut i: usize = 0;
    while i < n
        invariant
            i <= n <= c@.len(),
            n <= 5,
            n == shown_candidates(c@).len(),
            out@.len() == i,
            forall|k: int| 0 <= k < i ==> (#[trigger] out@[k])@ == shown_candidates(c@)[k],
        decreases n - i,
    {
        let content = text::take_chars(c[i].content.as_str(), 300);
        out.push(
            json::with(
                json::with(json::empty_object(), "id", json::string(c[i].id.as_str())),
                "content",
                json::string(content.as_str()),
            ),
        );
        i += 1;
    }
    let r = Json::Array(out);
    assert(r@->Array_0 =~= shown_candidates(c@));
    r
}

/// Builds the request that is sent to the model.
pub fn request_body(model: &str, content: &str, candidates: &Vec<Candidate>) -> (r: Json)
    ensures
        r@ == request(model@, content@, candidates@),
{
    let new_memory = text::take_chars(content, 1200);
    let asked = json::with(
        json::with(json::empty_object(), "new_memory", json::string(new_memory.as_str())),
        "candidates",
        show_candidates(candidates),
    );
    let system = message("system", CONSOLIDATION_SYSTEM_PROMPT);
    let user = message("user", json::render_json(&asked).as_str());
    let ghost sv = system@;
    let ghost uv = user@;
    let mut messages: Vec<Json> = Vec::new();
    messages.push(system);
    messages.push(user);
    let messages = Json::Array(messages);
    assert(messages@->Array_0 =~= Seq::empty().push(sv).push(uv));
    let mut o = json::with(json::empty_object(), "model", json::string(model));
    o = json::with(o, "messages", messages);
    o = json::with(o, "temperature", Json::Number(Number::Real("0.1".to_string())));
    o = json::with(o, "max_tokens", json::unsigned(600));
    o = json::with(o, "stream", Json::Bool(false));
    json::with(o, "enable_thinking", Json::Bool(false))
}

/// The first item of an array, or the member `0` of an object.
pub open spec fn first_of(v: JsonView) -> Option<JsonView> {
    match v {
        JsonView::Array(a) => if a.len() > 0 {
            Some(a[0])
        } else {
            None
        },
        _ => v.member("0"@),
    }
}

/// The text that a model answered with: the content of the first choice.
pub open spec fn answer_in(v: JsonView) -> Option<Seq<char>> {
    match v.member("choices"@) {
        Some(c) => match first_of(c) {
            Some(f) => match f.member("message"@) {
                Some(m) => m.text_at("content"@),
                None => None,
            },
            None => None,
        },
        None => None,
    }
}

/// Finds the text that a model answered with.
pub fn answer_text(v: &Json) -> (r: Option<&str>)
    ensures
        text::opt_str(r) == answer_in(v@),
{
    let choices = match v.get("choices") {
        Some(c) => c,
        None => {
            return None;
        },
    };
    let first = match choices {
        Json::Array(a) => if a.len() > 0 {
            assert(choices@->Array_0[0] == a@[0]@);
            &a[0]
        } else {
            return None;
        },
        _ => match choices.get("0") {
            Some(f) => f,
            None => {
                return None;
            },
        },
    };
    match first.get("message") {
        Some(m) => m.str_at("content"),
        None => None,
    }
}

/// A decision with a target that is none of the candidates becomes an addition;
/// what was extracted stays.
pub open spec fn grounded(d: DecisionView, c: Seq<Candidate>) -> DecisionView {
    if d.target_id is Some && !among(c, d.target_id->0) {
        DecisionView {
            action: "ADD"@,
            target_id: None,
            reason: "目标不在候选中，降级 ADD: "@ + d.reason,
            ..d
        }
    } else {
        d
    }
}

fn is_among(c: &Vec<Candidate>, id: &str) -> (r: bool)
    ensures
        r == among(c@, id@),
{
    let mut i: usize = 0;
    while i < c.len()
        invariant
            i <= c@.len(),
            forall|k: int| 0 <= k < i ==> (#[trigger] c@[k]).id@ != id@,
        decreases c@.len() - i,
    {
        if text::same(c[i].id.as_str(), id) {
            assert(c@[i as int].id@ == id@);
            return true;
        }
        i += 1;
    }
    false
}

/// Holds a decision to the candidates.
pub fn ground(d: Decision, candidates: &Vec<Candidate>) -> (r: Decision)
    ensures
        r@ == grounded(d@, candidates@),
{
    let strange = match &d.target_id {
        Some(t) => !is_among(candidates, t.as_str()),
        None => false,
    };
    if strange {
        Decision {
            action: "ADD".to_string(),
            target_id: None,
            reason: text::cat("目标不在候选中，降级 ADD: ", d.reason.as_str()),
            entities: d.entities,
            edges: d.edges,
        }
    } else {
        d
    }
}

/// What is done after an attempt to ask the model.
#[derive(Debug)]
pub enum Step {
    Done(Decision),
    /// The model is asked once more, after a pause.
    Retry,
    /// Nothing usable came back: the memory is added as it is.
    FailOpen,
}

/// How often the model is asked.
pub const ATTEMPTS: u32 = 2;

/// The milliseconds before the model is asked once more.
pub const RETRY_PAUSE_MS: u64 = 400;

/// The decision in an answer. No answer stands for a request that failed, a reply
/// of another status than success, and one without a text.
pub open spec fn answered(answer: Option<Seq<char>>, c: Seq<Candidate>) -> Option<DecisionView> {
    match answer {
        Some(t) => match reply_decision(t) {
            Some(d) => Some(grounded(d, c)),
            None => None,
        },
        None => None,
    }
}

/// Decides what is done after the attempt number `attempt`, counted from 0, to
/// ask the model.
pub fn classify(attempt: u32, answer: Option<&str>, candidates: &Vec<Candidate>) -> (r: Step)
    ensures
        match answered(text::opt_str(answer), candidates@) {
            Some(d) => r matches Step::Done(x) && x@ == d,
            None => if attempt + 1 < ATTEMPTS {
                r is Retry
            } else {
                r is FailOpen
            },
        },
{
    if let Some(t) = answer {
        if let Some(d) = parse_decision(t) {
            return Step::Done(ground(d, candidates));
        }
    }
    if attempt < ATTEMPTS - 1 {
        Step::Retry
    } else {
        Step::FailOpen
    }
}

/// What a model makes up does no harm: a decision that is acted on replaces or
/// repeats only one of the candidates.
pub proof fn law_target_is_a_candidate(v: JsonView, c: Seq<Candidate>)
    requires
        decision_of(v) is Some,
    ensures
        grounded(decision_of(v)->0, c).target_id is Some ==> among(
            c,
            grounded(decision_of(v)->0, c).target_id->0,
        ),
        grounded(decision_of(v)->0, c).action != "ADD"@ ==> grounded(
            decision_of(v)->0,
            c,
        ).target_id is Some,
        grounded(decision_of(v)->0, c).entities == decision_of(v)->0.entities,
        grounded(decision_of(v)->0, c).edges == decision_of(v)->0.edges,
{
}

/// The id of a thing: the same in each namespace for the same name.
pub fn auto_entity_id(ns: &str, name: &str) -> (r: String)
    ensures
        r@ == "auto-"@ + hash::sum(encode_utf8(ns@ + "|"@ + name@)).take(16),
{
    let s = text::cat3(ns, "|", name);
    text::cat("auto-", hash::short_sum(s.as_str().as_bytes()).as_str())
}

/// The reason as it stands in the log: at most 200 characters.
pub fn logged_reason(reason: &str) -> (r: String)
    ensures
        r@ == text::first_chars(reason@, 200),
{
    text::take_chars(reason, 200)
}

/// The hours that the statistics look back over: from one to thirty days.
pub open spec fn stats_hours(hours: int) -> int {
    if hours < 1 {
        1
    } else if hours > 720 {
        720
    } else {
        hours
    }
}

/// From when on the statistics count, as a modifier of the database.
pub fn stats_since(hours: i64) -> (r: String)
    ensures
        r@ == "-"@ + text::dec(stats_hours(hours as int) as nat) + " hours"@,
{
    let h: u64 = if hours < 1 {
        1
    } else if hours > 720 {
        720
    } else {
        hours as u64
    };
    text::cat3("-", text::decimal(h).as_str(), " hours")
}

/// A row of the log of decisions.
#[derive(Debug)]
pub struct DecisionRow {
    pub namespace: String,
    pub action: String,
    pub target_id: Option<String>,
    pub reason: String,
    pub content_len: u64,
    pub duration_ms: u64,
}

/// The row that records a decision.
pub fn record_decision(
    namespace: &str,
    action: &str,
    target_id: Option<String>,
    reason: &str,
    content_len: u64,
    duration_ms: u64,
) -> (r: DecisionRow)
    ensures
        r.namespace@ == namespace@,
        r.action@ == action@,
        r.target_id == target_id,
        r.reason@ == text::first_chars(reason@, 200),
        r.content_len == content_len,
        r.duration_ms == duration_ms,
{
    DecisionRow {
        namespace: namespace.to_string(),
        action: action.to_string(),
        target_id,
        reason: logged_reason(reason),
        content_len,
        duration_ms,
    }
}

pub const STATS_OF_NAMESPACE: &'static str =
    "SELECT action, COUNT(*) FROM consolidation_log WHERE namespace = ?1 AND created_at >= datetime('now', ?2) GROUP BY action ORDER BY 2 DESC";

pub const STATS_OF_ALL: &'static str =
    "SELECT action, COUNT(*) FROM consolidation_log WHERE created_at >= datetime('now', ?1) GROUP BY action ORDER BY 2 DESC";

/// The query for how often each action was decided on, and its parameters.
pub fn action_stats(namespace: Option<&str>, hours: i64) -> (r: (&'static str, Vec<String>))
    ensures
        match namespace {
            Some(ns) => {
                &&& r.0@ == STATS_OF_NAMESPACE@
                &&& r.1@.len() == 2
                &&& r.1@[0]@ == ns@
                &&& r.1@[1]@ == "-"@ + text::dec(stats_hours(hours as int) as nat) + " hours"@
            },
            None => {
                &&& r.0@ == STATS_OF_ALL@
                &&& r.1@.len() == 1
                &&& r.1@[0]@ == "-"@ + text::dec(stats_hours(hours as int) as nat) + " hours"@
            },
        },
{
    let since = stats_since(hours);
    let mut params: Vec<String> = Vec::new();
    match namespace {
        Some(ns) => {
            params.push(ns.to_string());
            params.push(since);
            (STATS_OF_NAMESPACE, params)
        },
        None => {
            params.push(since);
            (STATS_OF_ALL, params)
        },
    }
}

/// The text that an item of a reply has under a name.
pub open spec fn says(item: JsonView, name: Seq<char>, t: Seq<char>) -> bool {
    item.member(name) == Some(JsonView::Text(t))
}

/// The items that a reply lists under a name.
pub open spec fn lists(v: JsonView, name: Seq<char>, items: Seq<JsonView>) -> bool {
    v.member(name) == Some(JsonView::Array(items))
}

/// What is known of a decision is what its fields hold.
pub proof fn law_decisions_hold_what_they_say(d: Decision)
    ensures
        d@.action == d.action@,
        d@.target_id is Some <==> d.target_id is Some,
        d.target_id matches Some(t) ==> d@.target_id == Some(t@),
        d@.reason == d.reason@,
        d@.entities.len() == d.entities@.len(),
        d@.edges.len() == d.edges@.len(),
        forall|i: int|
            0 <= i < d.entities@.len() ==> (#[trigger] d@.entities[i]).name == d.entities@[i].name@
                && d@.entities[i].etype == d.entities@[i].etype@,
        forall|i: int|
            0 <= i < d.edges@.len() ==> (#[trigger] d@.edges[i]).subject == d.edges@[i].subject@
                && d@.edges[i].obj == d.edges@[i].obj@ && d@.edges[i].predicate
                == d.edges@[i].predicate@ && d@.edges[i].valid_from == d.edges@[i].valid_from@
                && d@.edges[i].valid_to == d.edges@[i].valid_to@,
{
}

/// A reply is read item by item: what comes before does not change what comes after, and
/// no item is lost, moved or read twice.
pub proof fn law_items_are_read_one_by_one(a: Seq<JsonView>, b: Seq<JsonView>)
    ensures
        edges_of(a + b) == edges_of(a) + edges_of(b),
        entities_of(a + b) == entities_of(a) + entities_of(b),
        edges_of(Seq::empty()) == Seq::<EdgeView>::empty(),
        entities_of(Seq::empty()) == Seq::<EntityView>::empty(),
    decreases b.len(),
{
    if b.len() == 0 {
        assert(a + b =~= a);
        assert(edges_of(a) + edges_of(b) =~= edges_of(a));
        assert(entities_of(a) + entities_of(b) =~= entities_of(a));
    } else {
        law_items_are_read_one_by_one(a, b.drop_last());
        assert((a + b).drop_last() =~= a + b.drop_last());
        assert((a + b).last() == b.last());
        assert(edges_of(a + b) =~= edges_of(a) + edges_of(b));
        assert(entities_of(a + b) =~= entities_of(a) + entities_of(b));
    }
}

/// A relation leads from the thing that the item calls its subject to the one that it
/// calls its object, under the name and for the time that it gives: blanks round the two
/// ends do not count, and an item without both ends, or with the same at both, gives
/// none.
pub proof fn law_relations_lead_from_subject_to_object(
    item: JsonView,
    subject: Seq<char>,
    obj: Seq<char>,
)
    requires
        says(item, "subject"@, subject),
        says(item, "obj"@, obj) || (item.member("obj"@) is None && says(item, "object"@, obj)),
    ensures
        ({
            let r = edges_of(seq![item]);
            if text::trimmed(subject).len() == 0 || text::trimmed(obj).len() == 0 || text::trimmed(
                subject,
            ) == text::trimmed(obj) {
                r.len() == 0
            } else {
                &&& r.len() == 1
                &&& r[0].subject == text::trimmed(subject)
                &&& r[0].obj == text::trimmed(obj)
                &&& forall|p: Seq<char>| #[trigger]
                    says(item, "predicate"@, p) ==> r[0].predicate == text::first_chars(
                        text::lowercased(text::trimmed(p)),
                        60,
                    )
                &&& forall|t: Seq<char>| #[trigger] says(item, "valid_from"@, t) ==> r[0].valid_from == t
                &&& forall|t: Seq<char>| #[trigger] says(item, "valid_to"@, t) ==> r[0].valid_to == t
                &&& item.member("valid_from"@) is None ==> r[0].valid_from.len() == 0
                &&& item.member("valid_to"@) is None ==> r[0].valid_to.len() == 0
            }
        }),
{
    reveal_strlit("");
    assert(seq![item].drop_last() =~= Seq::empty());
    assert(edges_of(seq![item].drop_last()) == Seq::<EdgeView>::empty());
}

/// An item that does not name both ends of a relation gives none.
pub proof fn law_relations_have_two_ends(item: JsonView)
    requires
        item.member("subject"@) is None || (item.member("obj"@) is None && item.member(
            "object"@,
        ) is None),
    ensures
        edges_of(seq![item]).len() == 0,
{
    assert(seq![item].drop_last() =~= Seq::empty());
    assert(edges_of(seq![item].drop_last()) == Seq::<EdgeView>::empty());
}

/// A thing has the name that the item gives it, without the blanks round it, and its kind,
/// where that is a known one. An item without a name, or with one that is too long, gives
/// none.
pub proof fn law_things_are_named_as_the_item_says(item: JsonView, name: Seq<char>)
    requires
        says(item, "name"@, name),
    ensures
        ({
            let r = entities_of(seq![item]);
            if text::trimmed(name).len() == 0 || text::trimmed(name).len() > 120 {
                r.len() == 0
            } else {
                &&& r.len() == 1
                &&& r[0].name == text::trimmed(name)
                &&& forall|t: Seq<char>| #[trigger]
                    says(item, "etype"@, t) && seq![
                        "person"@,
                        "system"@,
                        "tool"@,
                        "concept"@,
                        "org"@,
                        "project"@,
                        "location"@,
                        "event"@,
                        "other"@,
                    ].contains(t) ==> r[0].etype == t
                &&& item.member("etype"@) is None ==> r[0].etype == "other"@
            }
        }),
{
    assert(seq![item].drop_last() =~= Seq::empty());
    assert(entities_of(seq![item].drop_last()) == Seq::<EntityView>::empty());
    let r = entities_of(seq![item]);
    let kinds = seq![
        "person"@,
        "system"@,
        "tool"@,
        "concept"@,
        "org"@,
        "project"@,
        "location"@,
        "event"@,
        "other"@,
    ];
    assert forall|t: Seq<char>| #[trigger] says(item, "etype"@, t) && kinds.contains(t) implies known_etype(
        t,
    ) by {
        let k = choose|k: int| 0 <= k < kinds.len() && kinds[k] == t;
        assert(k == 0 || k == 1 || k == 2 || k == 3 || k == 4 || k == 5 || k == 6 || k == 7 || k == 8);
    }
}

/// A decision does what the reply says: its action in capitals, on the memory that is
/// named as the target, for the reason given, with all things and relations that are
/// listed. An action other than the three is none, and so is one that is not `ADD` and
/// names no target.
pub proof fn law_decisions_do_what_is_said(v: JsonView, action: Seq<char>)
    requires
        says(v, "action"@, action),
    ensures
        decision_of(v) is Some <==> {
            let a = text::uppercased(action);
            ||| a == "ADD"@
            ||| (a == "UPDATE"@ || a == "NOOP"@) && exists|t: Seq<char>| #[trigger]
                says(v, "target_id"@, t) && text::trimmed(t).len() > 0 && text::trimmed(t) != "null"@
        },
        decision_of(v) matches Some(d) ==> {
            &&& d.action == text::uppercased(action)
            &&& forall|t: Seq<char>| #[trigger]
                says(v, "target_id"@, t) && text::trimmed(t).len() > 0 && text::trimmed(t)
                    != "null"@ ==> d.target_id == Some(text::trimmed(t))
            &&& v.member("target_id"@) is None ==> d.target_id is None
            &&& forall|t: Seq<char>| #[trigger]
                says(v, "reason"@, t) ==> d.reason == if t.len() > 120 {
                    t.take(120)
                } else {
                    t
                }
            &&& forall|items: Seq<JsonView>| #[trigger]
                lists(v, "entities"@, items) ==> d.entities == entities_of(items)
            &&& forall|items: Seq<JsonView>| #[trigger]
                lists(v, "edges"@, items) ==> d.edges == edges_of(items)
        },
{
    reveal_strlit("ADD");
    reveal_strlit("UPDATE");
    reveal_strlit("NOOP");
    assert("ADD"@.len() == 3 && "UPDATE"@.len() == 6 && "NOOP"@.len() == 4);
    if target_of(v) is Some {
        let t = v.text_at("target_id"@)->0;
        assert(says(v, "target_id"@, t));
    }
    if let Some(d) = decision_of(v) {
        assert forall|t: Seq<char>| #[trigger] says(v, "reason"@, t) implies d.reason == (if t.len() > 120 {
            t.take(120)
        } else {
            t
        }) by {
            assert(t.take(t.len() as int) =~= t);
        }
    }
}

/// A decision on one of the candidates is acted on as it stands. One on any other memory
/// becomes an addition that keeps the things and relations.
pub proof fn law_made_up_targets_become_additions(d: DecisionView, c: Seq<Candidate>)
    ensures
        d.target_id is None ==> grounded(d, c) == d,
        (exists|i: int| 0 <= i < c.len() && d.target_id == Some((#[trigger] c[i]).id@)) ==> grounded(d, c)
            == d,
        d.target_id is Some && (forall|i: int|
            0 <= i < c.len() ==> d.target_id != Some((#[trigger] c[i]).id@)) ==> grounded(d, c).action
            == "ADD"@ && grounded(d, c).target_id is None && grounded(d, c).edges == d.edges && grounded(
            d,
            c,
        ).entities == d.entities && text::ends(grounded(d, c).reason, d.reason),
{
    let g = grounded(d, c);
    if g != d {
        assert(g.reason.subrange(g.reason.len() - d.reason.len(), g.reason.len() as int) =~= d.reason);
    }
}

/// The object of a reply is found between its braces, whatever words stand before and behind
/// it.
pub proof fn law_objects_stand_between_braces(before: Seq<char>, body: Seq<char>, after: Seq<char>)
    requires
        !before.contains('{'),
        !after.contains('}'),
    ensures
        braced(before + seq!['{'] + body + seq!['}'] + after) == Some(seq!['{'] + body + seq!['}']),
        braced(before) is None,
        braced(after) is None,
{
    let s = before + seq!['{'] + body + seq!['}'] + after;
    text::law_characters_are_found(s, '{', 0);
    text::law_characters_are_found(s, '}', 0);
    text::law_characters_are_found(before, '{', 0);
    text::law_characters_are_found(after, '}', 0);
    let a = before.len() as int;
    let b = a + 1 + body.len();
    assert(s[a] == '{' && s[b] == '}');
    if let Some(k) = text::index_from(s, '{', 0) {
        if k < a {
            assert(before[k] == '{');
        }
        assert(k == a);
    }
    if let Some(k) = text::last_index(s, '}') {
        if k > b {
            assert(after[k - b - 1] == '}');
        }
        assert(k == b);
    }
    assert(s.contains('}'));
    assert(s.subrange(a, b + 1) =~= seq!['{'] + body + seq!['}']);
    if let Some(k) = text::index_from(before, '{', 0) {
        assert(before[k] == '{');
    }
    if let Some(k) = text::last_index(after, '}') {
        assert(after[k] == '}');
    }
}

proof fn lemma_untrimmed(s: Seq<char>)
    requires
        s.len() > 0,
        !text::is_space(s[0]),
        !text::is_space(s.last()),
    ensures
        text::trimmed(s) == s,
{
    reveal_with_fuel(text::trimmed_start, 2);
    reveal_with_fuel(text::trimmed_end, 2);
}

/// A fence round a reply is taken away, with or without the name of the language.
pub proof fn law_fences_are_taken_away(s: Seq<char>)
    ensures
        unfenced("```json"@ + s + "```"@) == text::trimmed(s),
        !text::begins(s + "```"@, "json"@) ==> unfenced("```"@ + s + "```"@) == text::trimmed(s),
        s.len() > 0 && s[0] == '{' && s.last() == '}' ==> unfenced(s) == s,
{
    reveal_strlit("```json");
    reveal_strlit("```");
    reveal_strlit("json");
    let a = "```json"@ + s + "```"@;
    lemma_untrimmed(a);
    assert(a.subrange(0, 7) =~= "```json"@);
    assert(a.skip(7) =~= s + "```"@);
    let t = s + "```"@;
    assert(t.subrange(t.len() - 3, t.len() as int) =~= "```"@);
    assert(t.take(t.len() - 3) =~= s);
    if !text::begins(t, "json"@) {
        let b = "```"@ + s + "```"@;
        lemma_untrimmed(b);
        assert(b.subrange(0, 3) =~= "```"@);
        assert(b.skip(3) =~= t);
        assert(!text::begins(b, "```json"@)) by {
            if text::begins(b, "```json"@) {
                assert(b.subrange(0, 7) =~= "```json"@);
                assert(t.subrange(0, 4) =~= "json"@) by {
                    assert("```json"@[3] == 'j' && "```json"@[4] == 's' && "```json"@[5] == 'o'
                        && "```json"@[6] == 'n');
                    assert(b[3] == b.subrange(0, 7)[3] && b[4] == b.subrange(0, 7)[4] && b[5]
                        == b.subrange(0, 7)[5] && b[6] == b.subrange(0, 7)[6]);
                }
            }
        }
    }
    if s.len() > 0 && s[0] == '{' && s.last() == '}' {
        lemma_untrimmed(s);
        if text::begins(s, "```json"@) {
            assert(s.subrange(0, 7)[0] == '`');
        }
        if text::begins(s, "```"@) {
            assert(s.subrange(0, 3)[0] == '`');
        }
        if text::ends(s, "```"@) {
            assert(s.subrange(s.len() - 3, s.len() as int)[2] == '`');
        }
    }
}

/// The model is shown the new memory and the first five candidates, each with its own id and
/// the beginning of its content.
pub proof fn law_models_are_shown_the_candidates(
    model: Seq<char>,
    content: Seq<char>,
    c: Seq<Candidate>,
    i: int,
)
    requires
        0 <= i < c.len(),
        i < 5,
    ensures
        question(content, c).member("new_memory"@) == Some(
            JsonView::Text(text::first_chars(content, 1200)),
        ),
        question(content, c).member("candidates"@) matches Some(JsonView::Array(a)) && a.len() == (
        if c.len() > 5 {
            5
        } else {
            c.len()
        }) && a[i].member("id"@) == Some(JsonView::Text(c[i].id@)) && a[i].member("content"@) == Some(
            JsonView::Text(text::first_chars(c[i].content@, 300)),
        ),
        request(model, content, c).member("model"@) == Some(JsonView::Text(model)),
        request(model, content, c).member("stream"@) == Some(JsonView::Bool(false)),
        request(model, content, c).member("max_tokens"@) == Some(
            JsonView::Number(NumberView::Unsigned(600)),
        ),
        request(model, content, c).member("messages"@) matches Some(JsonView::Array(m)) && m.len() == 2
            && m[0].member("role"@) == Some(JsonView::Text("system"@)) && m[1].member("role"@) == Some(
            JsonView::Text("user"@),
        ) && m[1].member("content"@) == Some(JsonView::Text(json::rendered(question(content, c)))),
{
    json::lemma_chains();
    reveal_strlit("new_memory");
    reveal_strlit("candidates");
    reveal_strlit("id");
    reveal_strlit("content");
    reveal_strlit("role");
    assert("new_memory"@.len() == 10 && "candidates"@.len() == 10 && "id"@.len() == 2 && "content"@.len() == 7 && "role"@.len() == 4);
    assert("candidates"@[0] == 'c' && "new_memory"@[0] == 'n');
    reveal_strlit("model");
    reveal_strlit("messages");
    reveal_strlit("temperature");
    reveal_strlit("max_tokens");
    reveal_strlit("stream");
    reveal_strlit("enable_thinking");
    assert("model"@.len() == 5 && "messages"@.len() == 8 && "temperature"@.len() == 11 && "max_tokens"@.len() == 10 && "stream"@.len() == 6 && "enable_thinking"@.len() == 15);
}

/// A model has answered with the content of the message of its first choice.
pub proof fn law_first_choices_are_answers(
    v: JsonView,
    first: JsonView,
    more: Seq<JsonView>,
    message: JsonView,
    t: Seq<char>,
)
    requires
        v.member("choices"@) == Some(JsonView::Array(seq![first] + more)),
        first.member("message"@) == Some(message),
        message.member("content"@) == Some(JsonView::Text(t)),
    ensures
        answer_in(v) == Some(t),
{
    assert((seq![first] + more)[0] == first);
}

/// The decision in an answer is the one that its object spells out, held to the candidates.
pub proof fn law_answers_are_decided_on(
    before: Seq<char>,
    body: Seq<char>,
    after: Seq<char>,
    v: JsonView,
    d: DecisionView,
    c: Seq<Candidate>,
)
    requires
        json::parsed(seq!['{'] + body + seq!['}']) == Some(v),
        decision_of(v) == Some(d),
        !before.contains('{'),
        !after.contains('}'),
    ensures
        answered(Some(seq!['{'] + body + seq!['}']), c) == Some(grounded(d, c)),
        unfenced(before + seq!['{'] + body + seq!['}'] + after) == before + seq!['{'] + body + seq!['}']
            + after ==> answered(Some(before + seq!['{'] + body + seq!['}'] + after), c) == Some(
            grounded(d, c),
        ),
        answered(None, c) is None,
        answered(Some(before), c) is None || unfenced(before) != before,
{
    let o = seq!['{'] + body + seq!['}'];
    law_fences_are_taken_away(o);
    assert(o[0] == '{' && o.last() == '}');
    let e = Seq::<char>::empty();
    assert(!e.contains('{') && !e.contains('}'));
    law_objects_stand_between_braces(e, body, e);
    assert(e + seq!['{'] + body + seq!['}'] + e =~= o);
    law_objects_stand_between_braces(before, body, after);
}

/// The statistics look back over an hour at least and thirty days at most.
pub proof fn law_statistics_have_bounds(hours: int)
    ensures
        1 <= stats_hours(hours) <= 30 * 24,
        1 <= hours <= 30 * 24 ==> stats_hours(hours) == hours,
{
}

/// Without candidates a memory is added, nothing is replaced and nothing made up; the model is
/// asked with little freedom.
pub proof fn law_memories_without_candidates_are_added(model: Seq<char>, content: Seq<char>, c: Seq<Candidate>)
    ensures
        plain_add().action == "ADD"@ && plain_add().target_id is None,
        plain_add().entities.len() == 0 && plain_add().edges.len() == 0,
        grounded(plain_add(), c) == plain_add(),
        request(model, content, c).member("temperature"@) == Some(
            JsonView::Number(NumberView::Real("0.1"@)),
        ),
        request(model, content, c).member("enable_thinking"@) == Some(JsonView::Bool(false)),
{
    json::lemma_chains();
    reveal_strlit("model");
    reveal_strlit("messages");
    reveal_strlit("temperature");
    reveal_strlit("max_tokens");
    reveal_strlit("stream");
    reveal_strlit("enable_thinking");
    assert("model"@.len() == 5 && "messages"@.len() == 8 && "temperature"@.len() == 11 && "max_tokens"@.len() == 10 && "stream"@.len() == 6 && "enable_thinking"@.len() == 15);
}

} // verus!
