use memoria::ontology::{
    batch_outcome, batch_script, check_inputs, edge_step, end_batch, materialize, materialize_report, may_own_entity,
    normalize_edge, normalize_iri, read_counts, relation_type_list, run_files, run_files_with, run_ontology_cli,
    run_warnings, serve_report, status, wait_step, write_back_edges, BatchEnd, ChildState, EdgeStep, OntologyCommand,
    OntologyConfig, WaitStep,
};

fn spaces() -> Vec<String> {
    vec![
        "http://memoria.ai/onto/".to_string(),
        "http://example.org/".to_string(),
    ]
}

fn edge(s: &str, p: &str, o: &str) -> (String, String, String) {
    (s.to_string(), p.to_string(), o.to_string())
}

fn words(v: &[&str]) -> Vec<String> {
    v.iter().map(|s| s.to_string()).collect()
}

#[test]
fn write_back_filters_blank_node_endpoints() {
    let edges = vec![edge(
        "_:b0",
        "http://example.org/supersedes",
        "http://example.org/docA",
    )];
    let back = write_back_edges(&edges, &spaces());
    assert_eq!(back.writes.len(), 0, "blank node source should be filtered");
    assert_eq!(back.skipped, 1, "blank node source should count as skipped");
    let edges2 = vec![edge(
        "http://example.org/docB",
        "http://example.org/supersedes",
        "http://example.org/docA",
    )];
    let back2 = write_back_edges(&edges2, &spaces());
    assert_eq!(back2.writes.len(), 1, "normal IRI edge should be written");
    assert_eq!(back2.writes[0].source_name, "docB");
    assert_eq!(back2.writes[0].target_name, "docA");
    assert_eq!(back2.writes[0].relation, "supersedes");
}

#[test]
fn inferred_edges_are_those_that_no_input_has() {
    let source = "@prefix : <http://example.org/> .\n:c :supersedes :b .\n:b :supersedes :a .\n";
    let out = "<http://example.org/c> <http://example.org/supersedes> <http://example.org/b> .\n\
               <http://example.org/b> <http://example.org/supersedes> <http://example.org/a> .\n\
               <http://example.org/c> <http://example.org/supersedes> <http://example.org/a> .\n";
    let stdout = "{\"command\":\"load\",\"result\":{\"triples_loaded\":2}}\n";
    let res = materialize(source, None, out, stdout, "owl-rl", 12, &spaces());
    assert_eq!(res.all_edges.len(), 3);
    assert_eq!(res.inferred_edges.len(), 1);
    assert_eq!(
        res.inferred_edges[0],
        edge(
            "http://example.org/c",
            "http://example.org/supersedes",
            "http://example.org/a"
        )
    );
    assert_eq!(res.duration_ms, 12);
    assert_eq!(res.profile, "owl-rl");
    let report = materialize_report(&res);
    assert!(report.starts_with("materialize OK\nduration_ms: 12\nprofile: owl-rl\n"));
    assert!(report.ends_with("inferred_edges: 1"));
}

#[test]
fn trailing_marks_do_not_count() {
    assert_eq!(normalize_iri("http://example.org/a/"), normalize_iri("http://example.org/a"));
    let once = normalize_iri("http://example.org/a/#");
    assert_eq!(normalize_iri(&once), once);
    let e = normalize_edge(&edge("http://e/a/", "http://e/p", "http://e/b#"));
    assert_eq!(e, normalize_edge(&e));
}

#[test]
fn counts_of_silent_runs_are_zero() {
    let c = read_counts("no json here\n", "rdfs");
    assert_eq!((c.triples_before, c.triples_after), (0, 0));
    assert!(!c.saw_load && !c.saw_reason);
    assert_eq!(c.profile, "rdfs");
}

#[test]
fn runs_without_results_are_warned_of() {
    let res = materialize("", None, "", "", "rdfs", 0, &spaces());
    let w = run_warnings(&res, &read_counts("", "rdfs"), 0);
    assert!(w.no_load_result);
    assert!(w.no_reason_result);
}

fn config() -> OntologyConfig {
    OntologyConfig::from_env(None, None, None, None)
}

#[test]
fn settings_have_defaults_and_limits() {
    assert_eq!(config().timeout_secs, 60);
    let t = |v: &str| {
        OntologyConfig::from_env(None, None, None, Some(v.to_string())).timeout_secs
    };
    assert_eq!(t("0"), 1);
    assert_eq!(t("90"), 90);
    assert_eq!(t("999999"), 86400);
    assert_eq!(t("soon"), 60);
    let own = OntologyConfig::from_env(
        Some("/d".to_string()),
        Some("/bin/oo".to_string()),
        Some("/s.ttl".to_string()),
        None,
    );
    assert_eq!((own.data_dir.as_str(), own.bin.as_str()), ("/d", "/bin/oo"));
    assert_eq!(own.schema_path, "/s.ttl");
}

#[test]
fn unknown_profiles_are_refused() {
    assert!(check_inputs(&config(), "a.ttl", "owl-rl", false).is_ok());
    assert!(check_inputs(&config(), "a.ttl", "owl-rl --flag", false).is_err());
}

#[test]
fn scripts_load_reason_and_save() {
    let s = batch_script(Some("s.ttl"), "a.ttl", "rdfs", "o.ttl", false);
    let load = s.find("\"a.ttl\"").unwrap();
    let schema = s.find("\"s.ttl\"").unwrap();
    let save = s.find("\"o.ttl\"").unwrap();
    assert!(schema < load && load < save);
    assert!(s.contains("rdfs"));
}

#[test]
fn edges_with_other_evidence_stay() {
    assert_eq!(edge_step(None), EdgeStep::Insert);
    assert_eq!(edge_step(Some(None)), EdgeStep::Refresh);
    assert_eq!(edge_step(Some(Some("ontology:materialized"))), EdgeStep::Refresh);
    assert_eq!(edge_step(Some(Some("by hand"))), EdgeStep::Leave);
    assert!(matches!(end_batch(None, 3, 1), BatchEnd::Commit { written: 3, skipped: 1 }));
    match end_batch(Some("locked".to_string()), 3, 1) {
        BatchEnd::RollBack(e) => assert_eq!(e, "locked"),
        other => panic!("unexpected: {:?}", other),
    }
}

#[test]
fn foreign_entities_stay_with_their_owner() {
    assert!(may_own_entity(None, "a"));
    assert!(may_own_entity(Some("a"), "a"));
    assert!(!may_own_entity(Some("b"), "a"));
}

#[test]
fn commands_are_read() {
    assert!(run_ontology_cli(&words(&[])).is_err());
    assert!(run_ontology_cli(&words(&["fly"])).is_err());
    assert!(run_ontology_cli(&words(&["materialize"])).is_err());
    match run_ontology_cli(&words(&["materialize", "a.ttl"])) {
        Ok(OntologyCommand::Materialize { source, profile }) => {
            assert_eq!((source.as_str(), profile.as_str()), ("a.ttl", "rdfs"));
        }
        other => panic!("unexpected: {:?}", other),
    }
    assert!(matches!(
        run_ontology_cli(&words(&["status"])),
        Ok(OntologyCommand::Status)
    ));
    assert!(matches!(
        run_ontology_cli(&words(&["serve"])),
        Ok(OntologyCommand::Serve { port: 18080 })
    ));
    assert!(matches!(
        run_ontology_cli(&words(&["serve", "--port", "9000"])),
        Ok(OntologyCommand::Serve { port: 9000 })
    ));
    assert_eq!(
        run_ontology_cli(&words(&["serve", "--port"])).unwrap_err(),
        "--port requires a value"
    );
    assert_eq!(
        run_ontology_cli(&words(&["serve", "--port", "a\"c"])).unwrap_err(),
        "invalid --port value \"a\\\"c\" (expected 1..=65535)"
    );
    assert_eq!(
        run_ontology_cli(&words(&["serve", "--port", "0"])).unwrap_err(),
        "invalid --port value 0 (0 means ephemeral; specify 1..=65535)"
    );
    assert!(run_ontology_cli(&words(&["serve", "--port", "65536"])).is_err());
}

#[test]
fn runs_have_their_own_files() {
    let a = run_files_with("/data", 7, 1, 255);
    assert_eq!(a.batch, "/data/materialize_7_1_00000000000000ff.batch");
    assert_eq!(a.out, "/data/materialized_7_1_00000000000000ff.ttl");
    assert_eq!(a.source_copy, "/data/source_7_1_00000000000000ff.ttl");
    assert_eq!(a.schema_copy, "/data/schema_7_1_00000000000000ff.ttl");
    let b = run_files_with("/data", 7, 2, u64::MAX);
    assert_eq!(b.out, "/data/materialized_7_2_ffffffffffffffff.ttl");
    let drawn = run_files("/data", 7, 1).unwrap();
    assert!(drawn.out.starts_with("/data/materialized_7_1_"));
    assert_eq!(drawn.out.len(), "/data/materialized_7_1_.ttl".len() + 16);
    assert_ne!(run_files_with("/data", 71, 2, 0).out, run_files_with("/data", 7, 12, 0).out);
}

#[test]
fn slow_runs_are_stopped() {
    assert!(matches!(wait_step(&ChildState::Exited, 99_000, 1), WaitStep::Finished));
    assert!(matches!(wait_step(&ChildState::Running, 1000, 1), WaitStep::Wait));
    match wait_step(&ChildState::Running, 1001, 1) {
        WaitStep::Stop(e) => assert_eq!(e, "ontology materialize timed out after 1s (killed)"),
        other => panic!("unexpected: {:?}", other),
    }
    match wait_step(&ChildState::Running, 86_400_001, u64::MAX) {
        WaitStep::Stop(e) => assert!(e.contains("18446744073709551615s")),
        other => panic!("unexpected: {:?}", other),
    }
    match wait_step(&ChildState::Lost("EINTR".to_string()), 0, 1) {
        WaitStep::Stop(e) => assert_eq!(e, "wait: EINTR"),
        other => panic!("unexpected: {:?}", other),
    }
}

#[test]
fn failed_runs_say_why() {
    assert!(batch_outcome(true, "exit status: 0", "").is_ok());
    assert_eq!(
        batch_outcome(false, "exit status: 2", "no file").unwrap_err(),
        "open-ontologies batch failed: exit status: 2 (stderr: no file)"
    );
}

#[test]
fn the_online_channel_is_reported() {
    assert_eq!(
        serve_report(9000, Some(("exit status: 1", "busy")), 800).unwrap_err(),
        "serve-http exited immediately (code exit status: 1): busy"
    );
    let ok = serve_report(9000, None, 801).unwrap();
    assert!(ok.starts_with("serve-http 在线通道占位 OK\nport: 9000 ("));
    assert!(ok.contains("verification_ms: 801\n"));
}

#[test]
fn the_status_ends_with_its_time() {
    assert!(status(&config(), true, "v1", "", 15).ends_with("check_ms: 15"));
}

#[test]
fn relation_types_are_listed() {
    assert!(relation_type_list().contains("supersedes"));
}
