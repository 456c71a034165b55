use memoria::dates::Date;
use memoria::search::cooccur::{
    boost_of, match_query_entities, rerank_by_cooccurrence, worth_reranking, Entity, Mentions,
    Shared,
};
use memoria::search::hybrid::{
    hybrid_search, judge, kept, pending_evolution, reserve, search_depths, valid_at, Shown,
    TimeInfo, Times,
};
use memoria::search::importance::{category_search, importance_search, Scored};
use memoria::search::keyword::{escape_like, has_cjk, keyword_search, like_pattern};
use memoria::search::ranking::{first_occurrences, rank, sort_texts};
use memoria::search::rrf::{
    channel_of, graph_expand, primary_channel, read_setting, rrf_merge, walk_limits, Neighbor,
    SignalResult, WalkLimits,
};
use memoria::search::semantic::{
    check_vector, classify_batch, fetch_memories_batch, fetches, found_ids, notice_due, overfetch,
    roads_taken, search_and_merge, semantic_search, Batch, Best, QueryVector, RoadHit, Roads, Row,
};
use memoria::search::semantic_edges::{upsert_semantic_edges_for, Near};
use memoria::search::temporal::{
    clamp_days, days_ago, days_before, recency, recency_on, temporal_search,
};
use memoria::table::Table;

fn words(v: &[&str]) -> Vec<String> {
    v.iter().map(|s| s.to_string()).collect()
}

fn hit(id: &str, score: i64, source: &str) -> SignalResult {
    SignalResult {
        memory_id: id.to_string(),
        content: format!("content of {}", id),
        score,
        source: source.to_string(),
    }
}

#[test]
fn empty_results_noop() {
    assert!(!worth_reranking(0, "测试查询"), "empty input must stay empty");
}

#[test]
fn rerank_with_data() {
    let all = vec![
        Mentions { memory_id: "m_a".to_string(), entities: words(&["e1"]) },
        Mentions { memory_id: "m_b".to_string(), entities: words(&["e1"]) },
        Mentions { memory_id: "m_c".to_string(), entities: vec![] },
    ];
    let entities = vec![Entity { id: "e1".to_string(), name: "张三".to_string() }];
    let query = match_query_entities("张三", &entities);
    assert_eq!(query, words(&["e1"]));
    assert!(worth_reranking(all.len(), "张三"));
    let boosts: Vec<i64> = all
        .iter()
        .map(|m| boost_of(rerank_by_cooccurrence(&all, &m.entities, &query)) as i64)
        .collect();
    assert!(boosts[0] > 0 && boosts[1] > 0, "cooccur boost must be applied: {:?}", boosts);
    assert_eq!(boosts[2], 0);
    let order = rank(&boosts);
    assert_eq!(
        all[*order.last().unwrap()].memory_id,
        "m_c",
        "negative control must rank last: {:?}",
        order
    );
}

#[test]
fn entities_are_matched_by_name() {
    let entities = vec![
        Entity { id: "e1".to_string(), name: "张三".to_string() },
        Entity { id: "e2".to_string(), name: "李四".to_string() },
    ];
    assert_eq!(match_query_entities("张三在哪", &entities), words(&["e1"]));
    assert!(match_query_entities("天气", &entities).is_empty());
    assert_eq!(boost_of(Shared { query_hits: 0, peers: 0 }), 0);
}

#[test]
fn keys_are_ranked_and_ties_stay() {
    assert_eq!(rank(&vec![1, 3, 2, 3]), vec![1, 3, 2, 0]);
    assert!(rank(&vec![]).is_empty());
    assert_eq!(first_occurrences(&words(&["a", "b", "a"])), vec![0, 1]);
    assert_eq!(sort_texts(&words(&["b", "a", "ab"])), words(&["a", "ab", "b"]));
}

#[test]
fn signals_are_fused_by_memory() {
    let signals = vec![
        vec![hit("a", 90, "keyword"), hit("b", 80, "keyword")],
        vec![hit("b", 70, "semantic"), hit("c", 60, "semantic")],
    ];
    let fused = rrf_merge(&signals);
    assert_eq!(fused.len(), 3);
    let b = fused.iter().find(|f| f.memory_id == "b").unwrap();
    assert_eq!(b.shares.len(), 2);
    assert_eq!((b.shares[0].signal, b.shares[0].rank), (0, 1));
    assert_eq!((b.shares[1].signal, b.shares[1].rank), (1, 0));
    assert_eq!(b.semantic, Some(70));
    assert_eq!(b.keyword, Some(80));
    let total: usize = fused.iter().map(|f| f.shares.len()).sum();
    assert_eq!(total, 4);
    assert_eq!(channel_of("temporal_recency"), "temporal");
    assert_eq!(primary_channel(&vec![1, 5, 2]), Some(1));
    assert_eq!(primary_channel(&vec![]), None);
}

fn neighbor(id: &str, row: usize) -> Neighbor {
    Neighbor {
        id: id.to_string(),
        relation: "references".to_string(),
        content: "c".to_string(),
        row,
    }
}

#[test]
fn walks_find_each_memory_once() {
    assert_eq!(read_setting(Some("4"), 2), 4);
    assert_eq!(read_setting(None, 2), 2);
    let limits = WalkLimits { hops: 2, seeds: 8, fanout: 8 };
    let mut w = graph_expand(&words(&["s"]), limits);
    assert!(!w.over());
    w.reach(&vec![neighbor("a", 0), neighbor("s", 1), neighbor("a", 2)]);
    w.end_hop();
    assert!(!w.over());
    w.reach(&vec![neighbor("b", 0), neighbor("a", 1)]);
    w.end_hop();
    assert!(w.over());
    let ids: Vec<&str> = w.found.iter().map(|f| f.id.as_str()).collect();
    assert_eq!(ids, vec!["a", "b"]);
    assert_eq!(w.found[1].hop, w.found[0].hop + 1);
    let l = walk_limits(1, Some("3"), None, None);
    assert_eq!(l.hops, 3);
}

fn info(by: Option<&str>, from: Option<&str>, to: Option<&str>) -> TimeInfo {
    TimeInfo {
        superseded_by: by.map(|s| s.to_string()),
        valid_from: from.map(|s| s.to_string()),
        valid_to: to.map(|s| s.to_string()),
    }
}

#[test]
fn the_latest_is_shown_by_default() {
    let old = info(Some("m2"), None, None);
    assert!(!judge(Some(&old), "2026-07-16", false, false).keep);
    assert!(judge(Some(&old), "2026-07-16", false, true).keep);
    assert!(judge(Some(&old), "2026-07-16", true, false).keep);
    let current = info(None, None, None);
    assert!(judge(Some(&current), "2026-07-16", false, false).keep);
}

#[test]
fn validity_has_an_end() {
    assert!(valid_at(Some("2026-01-01"), Some("2026-12-31"), "2026-07-16"));
    assert!(!valid_at(Some("2026-08-01"), None, "2026-07-16"));
    assert!(!valid_at(None, Some("2026-07-01"), "2026-07-16"));
    assert!(valid_at(None, None, "2026-07-16"));
    let gone = info(None, None, Some("2026-07-01"));
    assert!(!judge(Some(&gone), "2026-07-16", true, false).keep);
}

#[test]
fn searches_go_deeper_than_they_show() {
    let d = search_depths(10, None);
    assert!(d.primary >= 10 && d.helper >= 10);
    assert!(search_depths(10, Some("100")).primary >= d.primary);
    assert!(!pending_evolution(Some("2026-07-01")) || pending_evolution(None));
}

#[test]
fn reserved_memories_come_first() {
    let ids = words(&["a", "b", "c", "d"]);
    let places = |v: Vec<Shown>| v.iter().map(|s| s.index).collect::<Vec<_>>();
    assert_eq!(places(hybrid_search(&ids, None, &words(&["d"]), 2)), vec![3, 0]);
    assert_eq!(places(hybrid_search(&ids, None, &vec![], 2)), vec![0, 1]);
    let r = reserve(&vec![hit("a", 1, "semantic")], &vec![hit("b", 1, "keyword")]);
    assert!(r.len() <= 2);
}

fn asked(infos: Vec<Option<TimeInfo>>, timed: bool, include_superseded: bool) -> Times {
    Times { infos, at: "2026-07-16".to_string(), timed, include_superseded }
}

fn mixed() -> Vec<Option<TimeInfo>> {
    vec![
        Some(info(Some("m9"), None, None)),
        Some(info(None, Some("2026-01-01"), None)),
        None,
        Some(info(None, None, Some("2026-07-01"))),
        Some(info(None, None, None)),
    ]
}

#[test]
fn searches_show_the_current() {
    let ids = words(&["a", "b", "c", "d", "b"]);
    let show = |t: &Times, max: u32| {
        hybrid_search(&ids, Some(t), &words(&["d", "a"]), max)
            .iter()
            .map(|s| (s.index, s.time_status))
            .collect::<Vec<_>>()
    };
    assert_eq!(show(&asked(mixed(), false, false), 9), vec![(1, Some("current"))]);
    assert_eq!(
        show(&asked(mixed(), true, false), 9),
        vec![(0, Some("current")), (1, Some("current"))]
    );
    assert_eq!(
        show(&asked(mixed(), false, true), 9),
        vec![(0, Some("superseded")), (3, Some("superseded")), (1, Some("current"))]
    );
    assert_eq!(show(&asked(mixed(), true, true), 9)[1], (3, None));
    assert_eq!(show(&asked(mixed(), false, true), 1).len(), 1);
    let stay = kept(&mixed(), "2026-07-16", false, true);
    let marks: Vec<_> = stay.iter().map(|(i, j)| (*i, j.status, j.downweight)).collect();
    assert_eq!(
        marks,
        vec![
            (0, Some("superseded"), true),
            (1, Some("current"), false),
            (3, Some("superseded"), true),
            (4, Some("current"), false),
        ]
    );
}

#[test]
fn kinds_are_asked_for_by_name() {
    assert_eq!(category_search("最近的决定"), vec!["decision"]);
    assert_eq!(category_search("fact 事实"), vec!["fact", "fact"]);
    assert!(category_search("天气").is_empty());
}

fn scored(id: &str, score: i64) -> Scored {
    Scored {
        id: id.to_string(),
        content: "c".to_string(),
        score,
    }
}

#[test]
fn important_and_recent_memories_come_first() {
    let rows = vec![scored("a", 1), scored("b", 3), scored("c", 3)];
    let r = importance_search(&rows);
    let ids: Vec<&str> = r.iter().map(|h| h.memory_id.as_str()).collect();
    assert_eq!(ids, vec!["b", "c", "a"]);
    assert_eq!(r[0].source, "importance_signal");
    assert_eq!(temporal_search(&rows)[0].source, "temporal_recency");
}

#[test]
fn patterns_match_what_they_are_made_of() {
    assert!(has_cjk("煤 ton"));
    assert!(!has_cjk("ton"));
    assert_eq!(escape_like("100%_\\"), "100\\%\\_\\\\");
    assert!(like_pattern("煤").unwrap().contains('煤'));
    let both = keyword_search(&words(&["a", "b"]), &words(&["b", "c"]));
    assert_eq!(both.len(), 3);
}

fn today() -> Date {
    Date { year: 2026, month: 7, day: 16 }
}

#[test]
fn days_are_counted_back() {
    assert_eq!(days_before(Some("2026-07-14T10:00:00"), today()), Some(2));
    assert_eq!(days_before(Some("2024-02-28 x"), Date { year: 2024, month: 3, day: 1 }), Some(2));
    assert_eq!(days_before(Some("2026-08-01"), today()), Some(0));
    assert_eq!(days_before(Some("not a date"), today()), None);
    assert_eq!(days_before(None, today()), None);
    assert_eq!(days_ago(Some("9999-01-01")), Some(0));
    assert!(days_ago(Some("2020-01-01")).unwrap() > 2000);
    assert_eq!(days_ago(None), None);
    assert_eq!(recency(None, None), (30, 30));
    assert_eq!(clamp_days(-3), 0);
    assert_eq!(recency_on(None, None, today()), (30, 30));
    assert_eq!(recency_on(Some("2026-07-06"), None, today()), (10, 10));
    assert_eq!(recency_on(Some("2026-07-06"), Some("2026-07-15"), today()), (10, 1));
}

#[test]
fn query_vectors_are_checked() {
    assert!(matches!(check_vector(true, 3, 3), QueryVector::Degenerate));
    assert!(matches!(check_vector(false, 2, 3), QueryVector::Wrong(_)));
    assert!(matches!(check_vector(false, 3, 3), QueryVector::Good));
    assert!(overfetch(10, 1000) >= 10);
    assert!(overfetch(10, 5) <= 10);
}

fn road(id: &str, score: i64, finite: bool) -> RoadHit {
    RoadHit {
        id: id.to_string(),
        score,
        finite,
    }
}

#[test]
fn the_best_score_wins() {
    let mut best: Table<Best> = Table::new();
    search_and_merge(&mut best, &vec![road("a", 5, true), road("b", 9, false)], false);
    search_and_merge(&mut best, &vec![road("a", 7, true)], true);
    search_and_merge(&mut best, &vec![road("a", 6, true)], false);
    let a = best.get("a").unwrap();
    assert_eq!((a.score, a.hype), (7, true));
    assert!(best.get("b").is_none());
    assert_eq!(found_ids(&best), words(&["a"]));
    let rows = vec![row("a", "agent/x", "x")];
    let hits = semantic_search(&words(&["a"]), &best, &rows, "agent/x", 5);
    assert_eq!(hits.len(), 1);
    assert_eq!((hits[0].memory_id.as_str(), hits[0].score), ("a", 7));
    assert_eq!(hits[0].source, "hnsw_semantic;hype");
}

fn row(id: &str, namespace: &str, content: &str) -> Row {
    Row {
        id: id.to_string(),
        namespace: namespace.to_string(),
        content: Some(content.to_string()),
    }
}

#[test]
fn memories_of_other_namespaces_are_not_shown() {
    let mut best: Table<Best> = Table::new();
    search_and_merge(&mut best, &vec![road("a", 5, true), road("b", 9, true)], false);
    let rows = vec![row("a", "agent/x", "mine"), row("b", "agent/y", "not mine")];
    let hits = semantic_search(&words(&["a", "b"]), &best, &rows, "agent/x", 5);
    assert_eq!(hits.len(), 1);
    assert_eq!((hits[0].memory_id.as_str(), hits[0].content.as_str()), ("a", "mine"));
}

#[test]
fn memories_are_asked_for_in_batches_of_one_namespace() {
    let few = fetches(&words(&["a", "b"]), "agent/x");
    assert_eq!(few.len(), 1);
    assert_eq!(
        few[0].sql,
        "SELECT id, namespace, content FROM memories WHERE id IN (?,?) AND namespace = ?"
    );
    assert_eq!(few[0].args, vec!["a", "b", "agent/x"]);
    assert!(fetches(&vec![], "agent/x").is_empty());
    let ids: Vec<String> = (0..1001).map(|i| format!("m{}", i)).collect();
    let many = fetches(&ids, "agent/x");
    let sizes: Vec<usize> = many.iter().map(|f| f.args.len() - 1).collect();
    assert_eq!(sizes, vec![500, 500, 1]);
    let mut asked = Vec::new();
    for f in &many {
        assert_eq!(f.args.last().map(|s| s.as_str()), Some("agent/x"));
        asked.extend(f.args[..f.args.len() - 1].iter().cloned());
    }
    assert_eq!(asked, ids);
    assert_eq!(fetches(&ids[..500].to_vec(), "n").len(), 1);
}

#[test]
fn roads_fail_together() {
    assert!(matches!(roads_taken(0, 2, true), Roads::Failed(_)));
    assert!(matches!(roads_taken(1, 1, true), Roads::Nothing { degraded: true }));
    assert!(matches!(roads_taken(2, 0, true), Roads::Nothing { degraded: false }));
    assert!(matches!(roads_taken(2, 0, false), Roads::Hits));
    assert!(notice_due(100, 0));
    assert!(!notice_due(100, 99));
}

#[test]
fn missing_memories_are_no_failure() {
    let stale = Batch { requested: 5, got: 0, row_errors: 0, broken: false };
    assert_eq!(classify_batch(stale), (false, 5));
    assert!(fetch_memories_batch(&vec![stale]).is_ok());
    let some = Batch { requested: 5, got: 3, row_errors: 0, broken: false };
    assert_eq!(classify_batch(some), (false, 0));
    let mixed = Batch { requested: 5, got: 2, row_errors: 1, broken: false };
    assert_eq!(classify_batch(mixed), (false, 2));
    let unread = Batch { requested: 5, got: 0, row_errors: 2, broken: false };
    assert_eq!(classify_batch(unread), (false, 0));
    assert_eq!(classify_batch(Batch { broken: true, ..stale }), (true, 0));
    let broken = Batch { requested: 5, got: 0, row_errors: 5, broken: false };
    assert!(fetch_memories_batch(&vec![broken]).is_err());
}

fn near(id: &str, similarity: i64, namespace: Option<&str>) -> Near {
    Near {
        id: id.to_string(),
        similarity,
        namespace: namespace.map(|s| s.to_string()),
    }
}

#[test]
fn ties_stay_in_the_namespace() {
    let v = vec![
        near("m", 100, Some("ns")),
        near("a", 90, Some("ns")),
        near("b", 95, Some("other")),
        near("c", 10, Some("ns")),
        near("d", 85, Some("ns")),
    ];
    assert_eq!(ties(&v, 5), vec!["m a 1", "a m 1", "m d 4", "d m 4"]);
    assert_eq!(ties(&v, 1), vec!["m a 1", "a m 1"]);
    assert_eq!(ties(&v[..1], 5), Vec::<String>::new());
    assert!(upsert_semantic_edges_for(&Vec::new(), "m", "ns", 80, 5).is_none());
}

fn ties(v: &[Near], cap: usize) -> Vec<String> {
    let near = v
        .iter()
        .map(|n| Near {
            id: n.id.clone(),
            similarity: n.similarity,
            namespace: n.namespace.clone(),
        })
        .collect();
    upsert_semantic_edges_for(&near, "m", "ns", 80, cap)
        .unwrap()
        .iter()
        .map(|e| format!("{} {} {}", e.source, e.target, e.near))
        .collect()
}
