use memoria::dates::{Date, LAST_YEAR};
use memoria::json::{parse_json, render_json};
use memoria::quota::Moment;
use memoria::search::ranking::rank;
use memoria::search::text_signals::{
    asked_in, boost_of, extract_dates, extract_numbers, extract_text_signals,
    extract_update_markers, mark_source, merge_signal_tags, merge_signal_tags_at, merge_signal_tags_on,
    parse_persisted_signal_tags, push_unique, rerank_by_text_signals, resolve_relative_dates,
    signal_boosts, signal_boosts_at, signal_hits, signal_tags_from_value, signals_at, signals_json, signals_on,
    text_signals_persist_enabled, text_signals_rerank_enabled, SignalHits,
};

fn anchor() -> Date {
    Date { year: 2026, month: 7, day: 16 }
}

fn list(s: &str) -> Vec<String> {
    parse_json(s)
        .unwrap()
        .as_array()
        .unwrap()
        .iter()
        .map(|j| j.as_str().unwrap().to_string())
        .collect()
}

#[test]
fn extract_numbers_and_dates() {
    let sig = extract_text_signals("2026-07-01 进厂 120 吨，改为应急模式", "[]", None).unwrap();
    assert!(sig.numbers.iter().any(|n| n == "120"));
    assert!(sig.numbers.iter().any(|n| n == "2026"));
    assert!(sig.dates.iter().any(|d| d == "2026-07-01"));
    assert!(sig.update_markers.iter().any(|m| m == "改为"));
}

#[test]
fn occurred_tag_merged_into_dates() {
    let sig = extract_text_signals(
        "无 inline 日期",
        r#"["occurred:2025-03-15"]"#,
        Some("2025-03-15"),
    )
    .unwrap();
    assert!(sig.dates.iter().any(|d| d == "2025-03-15"));
}

#[test]
fn signal_tags_persist_and_read_back() {
    let merged = merge_signal_tags("[]", "2026-07-01 进厂 120 吨，改为应急", None, true).unwrap();
    let tags: Vec<String> = list(&merged);
    assert!(tags.iter().any(|t| t == "signal:num:120"));
    assert!(tags.iter().any(|t| t == "signal:date:2026-07-01"));
    assert!(tags.iter().any(|t| t == "signal:update:改为"));

    let sig = extract_text_signals("正文无数字", &merged, None).unwrap();
    assert!(sig.numbers.iter().any(|n| n == "120"));
}

#[test]
fn merge_signal_tags_preserves_occurred() {
    let merged = merge_signal_tags(
        r#"["fact","occurred:2026-07-10"]"#,
        "库存 88 件",
        Some("2026-07-10"),
        true,
    )
    .unwrap();
    let tags: Vec<String> = list(&merged);
    assert!(tags.iter().any(|t| t == "occurred:2026-07-10"));
    assert!(tags.iter().any(|t| t == "signal:num:88"));
}

#[test]
fn rerank_boosts_numeric_overlap() {
    let ids = vec!["a", "b"];
    let contents = vec!["库存 120 吨".to_string(), "无关天气".to_string()];
    let scores: Vec<i64> = vec![500, 510];
    let boosts = rerank_by_text_signals("120 吨", &contents, true).unwrap();
    let keys: Vec<i64> = scores
        .iter()
        .zip(boosts.iter())
        .map(|(s, b)| s + *b as i64)
        .collect();
    let order = rank(&keys);
    assert_eq!(ids[order[0]], "a");
    assert!(boosts[order[0]] > 0);
    assert!(mark_source("keyword", "text_signals").contains("text_signals"));
}

fn noon(date: Date) -> Moment {
    Moment { date, hour: 12, minute: 0, second: 0 }
}

#[test]
fn relative_dates_resolved() {
    // 2026-07-16 is a Thursday.
    let sig = signals_at("上周三开会，昨天登记 120 吨", "[]", None, noon(anchor())).unwrap();
    assert!(sig.dates.iter().any(|d| d == "2026-07-08"), "上周三={:?}", sig.dates);
    assert!(sig.dates.iter().any(|d| d == "2026-07-15"), "昨天={:?}", sig.dates);
    let direct = resolve_relative_dates("本周五交付", anchor());
    assert!(direct.iter().any(|d| d == "2026-07-17"), "{:?}", direct);
    assert!(extract_text_signals("上周三开会，昨天登记 120 吨", "[]", None).unwrap().dates.len() == 3);
}

#[test]
fn the_last_year_has_no_signals() {
    let end = noon(Date { year: LAST_YEAR, month: 1, day: 1 });
    assert!(signals_at("昨天", "[]", None, end).is_none());
    assert!(merge_signal_tags_at("[]", "88", None, end, true).is_none());
    assert_eq!(merge_signal_tags_at("[]", "88", None, end, false).unwrap(), "[]");
    let texts = vec!["88 件".to_string()];
    assert!(signal_boosts_at("88", &texts, end, true).is_none());
    assert_eq!(signal_boosts_at("88", &texts, end, false).unwrap(), vec![0]);
    assert!(signal_boosts_at("88", &vec![], end, true).unwrap().is_empty());
    assert_eq!(signal_boosts_at("88", &texts, noon(anchor()), true).unwrap(), vec![10]);
    assert_eq!(rerank_by_text_signals("88", &texts, false).unwrap(), vec![0]);
    assert!(rerank_by_text_signals("88", &vec![], true).unwrap().is_empty());
}

#[test]
fn relative_dates_follow_the_calendar() {
    let d = resolve_relative_dates("本周五交付", anchor());
    assert!(d.iter().any(|x| x == "2026-07-13"), "{:?}", d);
    let d = resolve_relative_dates("上月与去年", anchor());
    assert_eq!(d, vec!["2026-06-01".to_string(), "2025-01-01".to_string()]);
    let d = resolve_relative_dates("后天", Date { year: 2024, month: 2, day: 28 });
    assert_eq!(d, vec!["2024-03-01".to_string()]);
    assert!(resolve_relative_dates("没有日期", anchor()).is_empty());
}

#[test]
fn numbers_and_dates_are_found() {
    assert_eq!(extract_numbers("3.5 与 7. 与 7"), vec!["3.5".to_string(), "7".to_string()]);
    assert_eq!(
        extract_dates("2026-07-01 2026-07-01 2026/08/02"),
        vec!["2026-07-01".to_string(), "2026-08-02".to_string()]
    );
    assert!(extract_update_markers("改为").len() >= 1);
    assert!(extract_update_markers("天气").is_empty());
}

#[test]
fn switches_are_read() {
    assert!(text_signals_rerank_enabled(None));
    assert!(!text_signals_rerank_enabled(Some("0")));
    assert!(!text_signals_persist_enabled(Some("0")));
    let off = merge_signal_tags(r#"["a"]"#, "88", None, false).unwrap();
    assert_eq!(off, r#"["a"]"#);
}

#[test]
fn other_tags_stay_in_front() {
    let merged = merge_signal_tags_on(
        r#"["b","signal:num:1","a"]"#,
        "88 件",
        None,
        anchor(),
        true,
    );
    let tags = list(&merged);
    assert_eq!(tags, vec!["b".to_string(), "a".to_string(), "signal:num:88".to_string()]);
    let kept = parse_persisted_signal_tags(&merged);
    assert_eq!(kept.numbers, vec!["88".to_string()]);
    assert_eq!(signal_tags_from_value(&kept), vec!["signal:num:88".to_string()]);
}

#[test]
fn signals_are_shown_as_lists() {
    let sig = signals_on("88", "[]", None, anchor());
    assert_eq!(
        render_json(&signals_json(&sig)),
        r#"{"dates":[],"numbers":["88"],"update_markers":[]}"#
    );
}

#[test]
fn hits_are_worth_something_up_to_a_limit() {
    assert_eq!(boost_of(SignalHits { numbers: 1, dates: 0 }), 10);
    assert_eq!(boost_of(SignalHits { numbers: 1, dates: 2 }), 40);
    assert_eq!(boost_of(SignalHits { numbers: 9, dates: 9 }), 50);
    assert!(asked_in("天气", anchor()).is_none());
    let asked = asked_in("昨天 120", anchor()).unwrap();
    let hits = signal_hits(&asked, "2026-07-15 到 120", anchor());
    assert_eq!(hits, SignalHits { numbers: 1, dates: 1 });
    let none = signal_boosts("昨天 120", &vec!["120".to_string()], anchor(), false);
    assert_eq!(none, vec![0]);
}

#[test]
fn marks_are_added_once() {
    assert_eq!(mark_source("a", "x"), "a;x");
    assert_eq!(mark_source("a;x", "x"), "a;x");
}

#[test]
fn texts_are_kept_once() {
    let mut v: Vec<String> = Vec::new();
    push_unique(&mut v, "a");
    push_unique(&mut v, "a");
    push_unique(&mut v, "b");
    assert_eq!(v, vec!["a".to_string(), "b".to_string()]);
}
