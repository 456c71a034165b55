use memoria::ontology::{
    is_valid_profile, is_valid_relation_type, iri_local_name, win_path, win_path_quoted,
};
use memoria::turtle::{controlled_ns, map_relation_iri, parse_ttl_edges, strip_inline_comment};

fn spaces() -> Vec<String> {
    let mut v = controlled_ns();
    v.push("http://example.org/".to_string());
    v
}

#[test]
fn ttl_parse_extracts_edges() {
    let ttl = r#"@prefix : <http://example.org/> .
<http://example.org/docC> <http://example.org/supersedes> <http://example.org/docA> , <http://example.org/docB> ;
a <http://example.org/Document> .
<http://example.org/docB> <http://example.org/supersedes> <http://example.org/docA> ;
a <http://example.org/Document> .
<http://example.org/docA> <http://example.org/createdBy> <http://example.org/alice> ;
a <http://example.org/Document> .
"#;
    let all = parse_ttl_edges(ttl, &spaces());
    assert_eq!(all.len(), 4);
    assert!(all.contains(&(
        "http://example.org/docC".to_string(),
        "http://example.org/supersedes".to_string(),
        "http://example.org/docA".to_string()
    )));
}

#[test]
fn ttl_parse_handles_predicate_continuation() {
    let ttl = r#"@prefix : <http://example.org/> .
<http://example.org/docC> <http://example.org/supersedes> <http://example.org/docB> ;
<http://example.org/createdBy> <http://example.org/alice> .
"#;
    let all = parse_ttl_edges(ttl, &spaces());
    assert_eq!(all.len(), 2, "got {:?}", all);
    assert!(all.contains(&(
        "http://example.org/docC".to_string(),
        "http://example.org/createdBy".to_string(),
        "http://example.org/alice".to_string()
    )));
}

#[test]
fn ttl_parse_handles_leading_separator_continuation() {
    let ttl = r#"@prefix : <http://example.org/> .
<http://example.org/docC> <http://example.org/supersedes> <http://example.org/docA>
, <http://example.org/docB> ;
<http://example.org/createdBy> <http://example.org/alice> .
"#;
    let all = parse_ttl_edges(ttl, &spaces());
    assert_eq!(all.len(), 3, "got {:?}", all);
    assert!(all.contains(&(
        "http://example.org/docC".to_string(),
        "http://example.org/supersedes".to_string(),
        "http://example.org/docB".to_string()
    )));
    assert!(all.contains(&(
        "http://example.org/docC".to_string(),
        "http://example.org/createdBy".to_string(),
        "http://example.org/alice".to_string()
    )));
}

#[test]
fn relation_iri_mapping() {
    assert_eq!(map_relation_iri("http://example.org/supersedes", &spaces()).as_deref(), Some("supersedes"));
    assert_eq!(map_relation_iri("http://example.org/createdBy", &spaces()).as_deref(), Some("created_by"));
    assert_eq!(map_relation_iri("http://example.org/conflicts_with", &spaces()).as_deref(), Some("conflicts_with"));
    assert_eq!(map_relation_iri("http://example.org/banana", &spaces()).as_deref(), None);
}

#[test]
fn win_path_normalizes() {
    assert_eq!(win_path("D:\\data\\a.ttl", false), "D:/data/a.ttl");
    assert_eq!(win_path("C:/data/a.ttl", false), "C:/data/a.ttl");
    assert_eq!(win_path_quoted("D:\\my data\\a.ttl", false), "\"D:/my data/a.ttl\"");
    assert_eq!(win_path_quoted("D:\\data\\a.ttl", false), "\"D:/data/a.ttl\"");
}

#[test]
fn profile_whitelist_rejects_unknown() {
    assert!(is_valid_profile("owl-rl"));
    assert!(!is_valid_profile("owl-rl --some-flag"));
}

#[test]
fn ttl_parse_expands_prefixes() {
    let ttl = r#"@prefix : <http://example.org/> .
@prefix ex: <http://memoria.ai/onto/> .
:docC ex:supersedes :docA , :docB ;
a ex:Document .
:docB ex:supersedes :docA ;
a ex:Document .
"#;
    let all = parse_ttl_edges(ttl, &spaces());
    assert_eq!(all.len(), 3, "got {:?}", all);
    assert!(all.contains(&(
        "http://example.org/docC".to_string(),
        "http://memoria.ai/onto/supersedes".to_string(),
        "http://example.org/docA".to_string()
    )));
    assert!(all.contains(&(
        "http://example.org/docB".to_string(),
        "http://memoria.ai/onto/supersedes".to_string(),
        "http://example.org/docA".to_string()
    )));
}

#[test]
fn ttl_parse_expands_base_relative_iris() {
    let ttl = r#"@base <http://memoria.ai/onto/> .
@prefix owl: <http://www.w3.org/2002/07/owl#> .
<supersedes> a owl:ObjectProperty, owl:TransitiveProperty .
<docB> <supersedes> <docA> ;
a owl:ObjectProperty .
"#;
    let all = parse_ttl_edges(ttl, &spaces());
    assert_eq!(all.len(), 1, "got {:?}", all);
    assert!(all.contains(&(
        "http://memoria.ai/onto/docB".to_string(),
        "http://memoria.ai/onto/supersedes".to_string(),
        "http://memoria.ai/onto/docA".to_string()
    )), "got {:?}", all);
}

#[test]
fn ttl_parse_skips_type_objects_with_continuation() {
    let ttl = r#"@base <http://memoria.ai/onto/> .
@prefix owl: <http://www.w3.org/2002/07/owl#> .
<docC> a <http://memoria.ai/onto/partOf>, <http://memoria.ai/onto/Agent> ;
<supersedes> <docA> .
"#;
    let all = parse_ttl_edges(ttl, &spaces());
    assert_eq!(all.len(), 1, "got {:?}", all);
    assert!(all.contains(&(
        "http://memoria.ai/onto/docC".to_string(),
        "http://memoria.ai/onto/supersedes".to_string(),
        "http://memoria.ai/onto/docA".to_string()
    )), "got {:?}", all);
}

#[test]
fn ttl_parse_type_continuation_clears_stale_pred() {
    let ttl = r#"@prefix : <http://memoria.ai/onto/> .
:docA :partOf :docB ;
a :Document ; :supersedes :docC .
"#;
    let all = parse_ttl_edges(ttl, &spaces());
    assert_eq!(all.len(), 2, "got {:?}", all);
    assert!(
        all.contains(&(
            "http://memoria.ai/onto/docA".to_string(),
            "http://memoria.ai/onto/supersedes".to_string(),
            "http://memoria.ai/onto/docC".to_string()
        )),
        "got {:?}",
        all
    );
    assert!(
        !all
            .iter()
            .any(|(_, p, o)| p == "http://memoria.ai/onto/partOf"
                && o != "http://memoria.ai/onto/docB"),
        "stale pred partOf must not capture supersedes/docC as objects: got {:?}",
        all
    );
}

#[test]
fn iri_local_name_falls_back_on_empty() {
    assert_eq!(iri_local_name("http://example.org/docA"), "docA");
    assert_eq!(iri_local_name("http://example.org/"), "http://example.org/");
    assert_eq!(iri_local_name("http://example.org#"), "http://example.org#");
}

#[test]
fn ttl_parse_strips_inline_comments() {
    let ttl = r#"@prefix : <http://example.org/> .
:docC <http://example.org/supersedes> :docA . # see <http://example.org/supersedes>
"#;
    let all = parse_ttl_edges(ttl, &spaces());
    assert_eq!(all.len(), 1, "got {:?}", all);
    assert!(all.contains(&(
        "http://example.org/docC".to_string(),
        "http://example.org/supersedes".to_string(),
        "http://example.org/docA".to_string()
    )));
}

#[test]
fn strip_inline_comment_ignores_iri_and_quotes() {
    assert_eq!(strip_inline_comment("<http://foo#bar> <p> <o> ."), "<http://foo#bar> <p> <o> .");
    assert_eq!(strip_inline_comment("\"a#b\" <p> <o> ."), "\"a#b\" <p> <o> .");
    assert_eq!(strip_inline_comment("<a> <b> . # comment"), "<a> <b> . ");
    assert_eq!(strip_inline_comment("# full comment"), "");
}

#[test]
fn ttl_parse_skips_inner_type_of_blank_node_object() {
    let ttl = r#"@prefix : <http://example.org/> .
<http://example.org/docA> <http://example.org/partOf> [ a <http://example.org/Document> ] .
"#;
    let all = parse_ttl_edges(ttl, &spaces());
    assert_eq!(all.len(), 1, "got {:?}", all);
    assert!(all.contains(&(
        "http://example.org/docA".to_string(),
        "http://example.org/partOf".to_string(),
        "[ a <http://example.org/Document> ]".to_string()
    )), "got {:?}", all);
}

#[test]
fn relation_iri_mapping_exact_prefix() {
    assert_eq!(map_relation_iri("http://example.org/supersedes", &spaces()).as_deref(), Some("supersedes"));
    assert_eq!(map_relation_iri("http://example.org/vendor/private/supersedes", &spaces()).as_deref(), None);
    assert_eq!(map_relation_iri("http://memoria.ai/onto/foo/createdBy", &spaces()).as_deref(), None);
    assert_eq!(map_relation_iri("http://example.org/sub#supersedes", &spaces()).as_deref(), None);
    assert_eq!(map_relation_iri("http://example.org/", &spaces()).as_deref(), None);
}

#[test]
fn ttl_parse_keeps_blank_node_subject_edges() {
    let ttl = r#"@prefix : <http://example.org/> .
_:b0 <http://example.org/supersedes> :docA .
"#;
    let all = parse_ttl_edges(ttl, &spaces());
    assert_eq!(all.len(), 1, "got {:?}", all);
    assert!(all.contains(&(
        "_:b0".to_string(),
        "http://example.org/supersedes".to_string(),
        "http://example.org/docA".to_string()
    )));
}

#[test]
fn ttl_parse_keeps_blank_node_object_edges() {
    let ttl = r#"@prefix : <http://example.org/> .
:docA <http://example.org/supersedes> _:b0 .
:docB <http://example.org/partOf> [ a <http://example.org/Document> ] .
"#;
    let all = parse_ttl_edges(ttl, &spaces());
    assert!(
        all.contains(&(
            "http://example.org/docA".to_string(),
            "http://example.org/supersedes".to_string(),
            "_:b0".to_string()
        )),
        "blank-node object edge should be retained, got {:?}",
        all
    );
    assert!(
        all.contains(&(
            "http://example.org/docB".to_string(),
            "http://example.org/partOf".to_string(),
            "[ a <http://example.org/Document> ]".to_string()
        )),
        "bracket blank-node object edge should be retained, got {:?}",
        all
    );
}

#[test]
fn ttl_parse_mixed_type_and_relation_line() {
    let ttl = r#"@prefix : <http://example.org/> .
<http://example.org/docC> a <http://example.org/Document> ; <http://example.org/supersedes> <http://example.org/docA> .
"#;
    let all = parse_ttl_edges(ttl, &spaces());
    assert_eq!(all.len(), 1, "got {:?}", all);
    assert!(all.contains(&(
        "http://example.org/docC".to_string(),
        "http://example.org/supersedes".to_string(),
        "http://example.org/docA".to_string()
    )));
}

#[test]
fn ttl_parse_strips_bom() {
    let ttl = "\u{FEFF}@prefix : <http://example.org/> .\n:docC <http://example.org/supersedes> :docA .\n";
    let all = parse_ttl_edges(ttl, &spaces());
    assert_eq!(all.len(), 1, "got {:?}", all);
    assert!(all.contains(&(
        "http://example.org/docC".to_string(),
        "http://example.org/supersedes".to_string(),
        "http://example.org/docA".to_string()
    )));
}

#[test]
fn win_path_drive_heuristic_strict() {
    assert_eq!(win_path("a:b.ttl", false), "a:b.ttl");
    assert_eq!(win_path("D:\\data\\a.ttl", false), "D:/data/a.ttl");
}

#[test]
fn strip_inline_comment_handles_escaped_quotes() {
    assert_eq!(
        strip_inline_comment("\"a\\\"b\" <p> <o> . # see"),
        "\"a\\\"b\" <p> <o> . "
    );
    assert_eq!(strip_inline_comment("\"a#b\" <p> <o> ."), "\"a#b\" <p> <o> .");
}

#[test]
fn ttl_parse_typed_literal_datatype_not_an_object() {
    let ttl = r#"@prefix : <http://example.org/> .
<http://example.org/docA> <http://example.org/createdBy> "2024-01-01"^^<http://www.w3.org/2001/XMLSchema#date> .
<http://example.org/docB> <http://example.org/createdBy> "alice"@en .
"#;
    let all = parse_ttl_edges(ttl, &spaces());
    assert_eq!(all.len(), 0, "typed literal datatype emitted a spurious edge: got {:?}", all);
}

#[test]
fn ttl_parse_typed_literal_keeps_other_relations() {
    let ttl = r#"@prefix : <http://example.org/> .
<http://example.org/docA> <http://example.org/createdBy> "2024-01-01"^^<http://www.w3.org/2001/XMLSchema#date> ; <http://example.org/supersedes> <http://example.org/docB> .
"#;
    let all = parse_ttl_edges(ttl, &spaces());
    assert_eq!(all.len(), 1, "got {:?}", all);
    assert!(all.contains(&(
        "http://example.org/docA".to_string(),
        "http://example.org/supersedes".to_string(),
        "http://example.org/docB".to_string()
    )));
}

#[test]
fn map_relation_iri_outputs_in_rel_types() {
    let ns = "http://memoria.ai/onto/";
    let locals = [
        "references",
        "supersedes",
        "createdBy",
        "created_by",
        "conflictsWith",
        "conflicts_with",
        "dependsOn",
        "depends_on",
        "partOf",
        "part_of",
        "belongsTo",
        "belongs_to",
    ];
    for local in locals {
        let iri = format!("{ns}{local}");
        let short = map_relation_iri(&iri, &spaces())
            .unwrap_or_else(|| panic!("map_relation_iri({iri}) should map"));
        assert!(
            is_valid_relation_type(&short),
            "map_relation_iri short name '{short}' (from '{local}') not in RELATION_TYPES"
        );
    }
}

#[test]
fn only_controlled_namespaces_count_by_default() {
    let ttl = "<http://memoria.ai/onto/a> <http://memoria.ai/onto/partOf> <http://memoria.ai/onto/b> .\n\
               <http://example.org/a> <http://example.org/partOf> <http://example.org/b> .\n";
    let edges = parse_ttl_edges(ttl, &controlled_ns());
    assert_eq!(edges.len(), 1);
    assert_eq!(edges[0].1, "http://memoria.ai/onto/partOf");
}

#[test]
fn stripping_twice_changes_nothing() {
    let line = "<a> \"x#y\" <b#c> . # note # more";
    let once = strip_inline_comment(line);
    assert_eq!(once, "<a> \"x#y\" <b#c> . ");
    assert_eq!(strip_inline_comment(&once), once);
}

#[test]
fn an_unclosed_iri_keeps_its_mark() {
    assert_eq!(strip_inline_comment("<a #b"), strip_inline_comment("<a #b"));
    assert_eq!(strip_inline_comment("a 'b#c' #d"), "a 'b#c' ");
}
