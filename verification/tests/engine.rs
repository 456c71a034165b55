use memoria::engine::{
    bounded_setting, count_tables, index_path, is_in_memory, pool_size, show_hits, whole_number,
    Built, HypeCounts, Index, MemoriaEngine, PyEngine, ShownHit, Sizes, COUNT_TTL_MS,
    WARN_PAUSE_MS,
};
use memoria::json::{parse_json, render_json};
use memoria::session_watcher::{
    extract_dialog_text, is_session_file, messages, note_read, poll_once_blocking,
    read_new_lines, watch_dirs, Visit, MAX_PER_POLL,
};
use memoria::table::Table;

#[test]
fn settings_are_bounded() {
    assert_eq!(bounded_setting(Some("5"), 1, 10, 3), 5);
    assert_eq!(bounded_setting(Some("50"), 1, 10, 3), 3);
    assert_eq!(bounded_setting(Some("0"), 1, 10, 3), 3);
    assert_eq!(bounded_setting(Some("x"), 1, 10, 3), 3);
    assert_eq!(bounded_setting(None, 1, 10, 3), 3);
    assert_eq!(pool_size(None), 4);
    assert_eq!(pool_size(Some("64")), 64);
    assert_eq!(pool_size(Some("65")), 4);
}

fn index(key: u64, len: usize) -> Index {
    Index { key, len }
}

fn engine(db_path: &str) -> MemoriaEngine {
    MemoriaEngine::new(db_path, index(1, 7), index(2, 4))
}

fn built(key: u64, len: usize, count: usize) -> Result<Built, String> {
    Ok(Built { index: index(key, len), count, read_errors: 0, skipped: 0 })
}

fn partial(read_errors: u64, skipped: u64) -> Result<Built, String> {
    Ok(Built { index: index(9, 9), count: 9, read_errors, skipped })
}

#[test]
fn the_index_lies_beside_the_database() {
    assert_eq!(index_path("/d/memoria.db"), "/d/vector_index/hnsw_vectors");
    assert_eq!(index_path("/"), "./vector_index/hnsw_vectors");
    assert_eq!(engine(":memory:").save_index(), None);
    let saved = engine("/d/memoria.db").save_index();
    assert_eq!(saved.as_deref(), Some("/d/vector_index/hnsw_vectors"));
    assert!(is_in_memory(":memory:"));
    assert!(!is_in_memory("/d/memoria.db"));
}

#[test]
fn vectors_come_with_ids() {
    let e = engine("/d");
    assert_eq!(e.vector_count(), 7);
    assert!(e.add_vectors(2, 2).is_ok());
    assert_eq!(e.add_vectors(2, 3).unwrap_err(), "ids/vectors length mismatch");
}

#[test]
fn incomplete_builds_fail() {
    let mut e = engine("/d");
    assert_eq!(e.build_hype_index_fresh(built(3, 5, 6)).unwrap(), (index(3, 5), 6));
    assert_eq!(
        e.build_hype_index_fresh(partial(1, 2)).unwrap_err(),
        "HYPE HNSW build: partial rebuild (1 read error(s), 2 skipped row(s)); refusing to publish degraded index"
    );
    assert_eq!(
        e.refresh_hype_index(partial(0, 3)).unwrap_err(),
        "HYPE HNSW refresh: partial rebuild (0 read error(s), 3 skipped row(s)); keeping existing index"
    );
    assert_eq!(e.refresh_hype_index(Err("busy".to_string())).unwrap_err(), "busy");
    assert_eq!(e.hype_hnsw, index(2, 4));
    let s = e.refresh_hype_index(built(3, 5, 5)).unwrap();
    assert_eq!(e.hype_hnsw, index(3, 5));
    assert_eq!(s.applied, 5);
    assert_eq!(s.mismatch, None);
    assert_eq!(s.notice.as_deref(), Some("[Memoria] HYPE HNSW refreshed: 5 vectors"));
    let s = e.swap_hype_index(index(4, 0), 2);
    assert_eq!(
        s.mismatch.as_deref(),
        Some("[Memoria] WARN: swap_hype_index count mismatch (count=2, index=0); reporting actual index len")
    );
    assert_eq!(s.notice, None);
    assert_eq!(e.hype_hnsw, index(4, 0));
}

#[test]
fn builds_do_not_overlap() {
    let mut e = PyEngine::new(engine("/d"));
    assert_eq!(
        e.swap_hype_index(1).unwrap_err(),
        "no pending hype index; call build_hype_index first"
    );
    let token = e.build_hype_index().unwrap();
    assert_eq!(token, 1);
    assert_eq!(
        e.build_hype_index().unwrap_err(),
        "concurrent hype build in progress (started token 1); build/swap must be serialized on one engine"
    );
    e.end_build(built(3, 10, 10)).unwrap();
    assert_eq!(e.inner.hype_hnsw, index(2, 4));
    assert!(e.may_refresh().is_err());
    assert_eq!(
        e.refresh_hype_index(built(4, 1, 1)).unwrap_err(),
        "pending two-phase build exists; call swap_hype_index first (refresh would discard the pending index)"
    );
    assert_eq!(
        e.swap_hype_index(7).unwrap_err(),
        "stale build token 7 (latest was 1); rebuild and swap with its token"
    );
    assert_eq!(e.swap_hype_index(token).unwrap().applied, 10);
    assert_eq!(e.inner.hype_hnsw, index(3, 10));
    assert!(e.swap_hype_index(token).is_err());
    let second = e.build_hype_index().unwrap();
    assert_eq!(second, 3);
    assert!(e.end_build(partial(1, 0)).is_err());
    assert!(e.swap_hype_index(second).is_err());
    assert_eq!(e.inner.hype_hnsw, index(3, 10));
    assert_eq!(e.refresh_hype_index(built(5, 2, 2)).unwrap().applied, 2);
    assert_eq!(e.inner.hype_hnsw, index(5, 2));
    assert_eq!(e.build_hype_index().unwrap(), 5);
}

fn hit() -> ShownHit {
    ShownHit {
        memory_id: "m1".to_string(),
        content: "事实".to_string(),
        rrf_score: "0.5".to_string(),
        source: "keyword".to_string(),
        evolved_at: None,
        pending_evolution: false,
    }
}

#[test]
fn hits_are_shown() {
    let expected = r#"{"results":[{"content":"事实","evolved_at":null,"memory_id":"m1","pending_evolution":false,"rrf_score":0.5,"source":"keyword"}],"status":"completed","total_results":1}"#;
    assert_eq!(engine("/d").hybrid_search(&vec![hit()]), expected);
    assert_eq!(render_json(&show_hits(&vec![hit()])), expected);
}

#[test]
fn statistics_are_counted() {
    assert_eq!(render_json(&whole_number(-3)), "-3");
    assert_eq!(render_json(&whole_number(3)), "3");
    let sizes = Sizes { hype_store: -1, query_cache: 3, semantic_drops: 2 };
    let s = engine("/d").db_stats(&vec![1, 2, 3, 4, 5, 6, 7, 8], sizes);
    let j = parse_json(&s).unwrap();
    assert_eq!(j.u64_or("memories", 0), 1);
    assert_eq!(j.u64_or("dream_state", 0), 8);
    assert_eq!(j.u64_or("vector_index_size", 0), 7);
    assert_eq!(j.i64_or("hype_vector_index_size", 0), -1);
    assert_eq!(j.u64_or("hype_vector_index_live", 0), 4);
    assert_eq!(j.u64_or("query_cache_size", 0), 3);
    assert_eq!(j.u64_or("semantic_signal_drops_global", 0), 2);
    assert_eq!(count_tables(&vec![11]).u64_or("memories", 0), 11);
}

#[test]
fn failures_keep_the_last_good_count() {
    let mut c = HypeCounts::new();
    assert_eq!(c.ask("/d", 0), None);
    assert_eq!(c.counted("/d", 0, Some(9)), (9, false));
    assert_eq!(c.ask("/d", COUNT_TTL_MS - 1), Some(9));
    assert_eq!(c.ask("/d", COUNT_TTL_MS + 1), None);
    assert_eq!(c.counted("/d", 100_000, Some(8)), (8, false));
    assert_eq!(c.counted("/d", 100_001, None), (-1, true));
    assert_eq!(c.ask("/d", 100_002), Some(8));
    assert_eq!(c.counted("/d", 100_002, None), (-1, false));
    assert_eq!(c.counted("/other", 100_002, None), (-1, true));
    assert_eq!(c.ask("/other", 100_003), Some(-1));
    assert_eq!(c.counted("/d", 100_001 + WARN_PAUSE_MS, None), (-1, true));
    assert_eq!(c.ask(":memory:", 0), None);
}

#[test]
fn directories_are_listed() {
    assert_eq!(watch_dirs("/a, /b,,"), vec!["/a", "/b"]);
    assert!(watch_dirs("").is_empty());
    assert!(is_session_file("x.jsonl"));
    assert!(!is_session_file("x.txt"));
}

#[test]
fn nothing_is_read_twice() {
    let mut offsets: Table<u64> = Table::new();
    let first = poll_once_blocking(&offsets, "f", 60, 100);
    assert!(matches!(first, Visit::Read { from: 0 }));
    note_read(&mut offsets, "f", 100);
    assert_eq!(poll_once_blocking(&offsets, "f", 60, 100), Visit::Skip);
    assert_eq!(poll_once_blocking(&offsets, "f", 60, 150), Visit::Read { from: 100 });
    assert_eq!(poll_once_blocking(&offsets, "f", 1, 150), Visit::Skip);
}

#[test]
fn dialogs_are_read_from_lines() {
    assert_eq!(read_new_lines("a\n \n b \n"), vec!["a", "b"]);
    assert_eq!(extract_dialog_text("no json"), None);
    let line = r#"{"role":"user","content":"请记住这件重要的事情"}"#;
    assert_eq!(extract_dialog_text(line).as_deref(), Some("请记住这件重要的事情"));
    let other = r#"{"role":"human","content":"hi"}"#;
    assert_eq!(extract_dialog_text(other).as_deref(), Some("hi"));
    assert_eq!(extract_dialog_text(r#"{"role":"assistant","content":"x"}"#), None);
    assert_eq!(extract_dialog_text(r#"{"role":"user"}"#), None);
    let lines: Vec<String> = (0..30).map(|_| line.to_string()).collect();
    assert_eq!(messages(&lines, 0).len(), MAX_PER_POLL);
    assert_eq!(messages(&lines, MAX_PER_POLL - 1).len(), 1);
    assert!(messages(&lines, MAX_PER_POLL).is_empty());
}

#[test]
fn tables_hold_what_was_put_last() {
    let mut t: Table<u64> = Table::new();
    t.put("a", 1);
    t.put("b", 2);
    t.put("a", 3);
    assert_eq!(t.get("a"), Some(3));
    assert_eq!(t.get("b"), Some(2));
    assert_eq!(t.get("c"), None);
    t.select(&vec![false, true]);
    assert_eq!(t.get("a"), None);
    assert_eq!(t.get("b"), Some(2));
}
