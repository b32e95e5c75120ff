use etna_store::cli::QueryOption;
use etna_store::codec::{store_from_string, store_to_string, store_to_json};
use etna_store::commands::query::{handle_jq_query, handle_specialized_query};
use etna_store::errors::StoreError;
use etna_store::experiment::{Experiment, ExperimentSnapshot};
use etna_store::filter::run_filter;
use etna_store::generic;
use etna_store::json::Json;
use etna_store::snapshot::{Snapshot, SnapshotType};
use etna_store::store::{Metric, Store};
use etna_store::text::{json_from_string, json_to_pretty_string, json_to_string};
use etna_store::workload::Workload;

fn s(text: &str) -> String {
    String::from(text)
}

fn sample_store() -> Store {
    let mut store = Store::default();
    store.metrics.push(Metric {
        data: json_from_string(&s("{\"status\":\"ok\",\"n\":1}")).expect("valid"),
        experiment_id: s("x"),
    });
    store.metrics.push(Metric {
        data: json_from_string(&s("{\"status\":\"fail\"}")).expect("valid"),
        experiment_id: s("y"),
    });
    store.snapshots.push(Snapshot {
        path: s("/repo"),
        typ: SnapshotType::Etna { branch: s("main") },
        hash: s("e1"),
    });
    store.snapshots.push(Snapshot {
        path: s("/tmp/exp/*"),
        typ: SnapshotType::Experiment { time: s("2024-01-01T00:00:00+00:00") },
        hash: s("x"),
    });
    store.snapshots.push(Snapshot {
        path: s("/tmp/exp/Collect.py"),
        typ: SnapshotType::Script { name: s("Collect.py") },
        hash: s("s1"),
    });
    store.snapshots.push(Snapshot {
        path: s("/tmp/exp/workloads/coq/bst/*"),
        typ: SnapshotType::Workload { name: s("bst"), language: s("coq") },
        hash: s("w1"),
    });
    store.experiments.push(Experiment {
        name: s("A"),
        id: s("x"),
        description: s("first"),
        path: s("/tmp/exp"),
        snapshot: ExperimentSnapshot {
            experiment: s("x"),
            etna: s("e1"),
            scripts: vec![(s("Collect.py"), s("s1"))],
            workloads: vec![(Workload { language: s("coq"), name: s("bst") }, s("w1"))],
        },
    });
    store.experiments.push(Experiment {
        name: s("B"),
        id: s("y"),
        description: s("second"),
        path: s("/tmp/other"),
        snapshot: ExperimentSnapshot {
            experiment: s("y"),
            etna: s("e1"),
            scripts: vec![],
            workloads: vec![],
        },
    });
    store
}

#[test]
fn store_round_trip() {
    let store = sample_store();
    let text = store_to_string(&store);
    let back = store_from_string(&text).expect("own text must parse");
    assert_eq!(back, store);
    // and the text itself is stable under one more round
    assert_eq!(store_to_string(&back), text);
}

#[test]
fn store_text_is_indented() {
    let text = store_to_string(&sample_store());
    assert!(text.starts_with("{\n  \"metrics\": [\n"));
    assert!(text.ends_with("\n}"));
}

#[test]
fn empty_store_round_trip() {
    let store = Store::default();
    let text = store_to_string(&store);
    let back = store_from_string(&text).expect("own text must parse");
    assert_eq!(back, store);
}

#[test]
fn store_text_failures_are_told_apart() {
    assert!(matches!(
        store_from_string(&s("{nope")),
        Err(StoreError::JsonSyntax { .. })
    ));
    assert!(matches!(
        store_from_string(&s("{\"metrics\":[]}")),
        Err(StoreError::NotAStore)
    ));
    assert!(matches!(
        store_from_string(&s("[1,2,3]")),
        Err(StoreError::NotAStore)
    ));
}

#[test]
fn json_text_round_trips() {
    let cases = [
        "null",
        "true",
        "false",
        "0",
        "-7",
        "9223372036854775807",
        "-9223372036854775808",
        "\"hello\"",
        "[]",
        "{}",
        "[1,[2,[3]],{\"k\":null}]",
        "{\"a\":{\"b\":[true,false]},\"c\":\"d\"}",
        "1.5",
        "-0.25",
        "1e3",
        "1.5E-7",
        "6.02e+23",
        "20000000000000000000",
        "{\"time\":1.5}",
    ];
    for case in cases {
        let parsed = json_from_string(&s(case)).expect("valid");
        assert_eq!(json_to_string(&parsed), s(case));
    }
}

#[test]
fn json_accepts_whitespace_and_escapes() {
    let parsed = json_from_string(&s("  { \"a\" : [ 1 , \"x\\n\\\"y\\\"\" ] }  ")).expect("valid");
    // the canonical printer writes control characters in hexadecimal form
    assert_eq!(json_to_string(&parsed), s("{\"a\":[1,\"x\\u000a\\\"y\\\"\"]}"));
    // a unicode escape decodes through the character table, not verbatim
    let parsed = json_from_string(&s("\"\\u0041\"")).expect("valid");
    assert_eq!(json_to_string(&parsed), s("\"A\""));
    // control characters are printed in hexadecimal form
    let parsed = json_from_string(&s("\"\\u0001\"")).expect("valid");
    assert_eq!(json_to_string(&parsed), s("\"\\u0001\""));
}

#[test]
fn json_rejects_malformed_documents() {
    for case in ["", "{", "[1,", "tru", "\"open", "01", "1.", "1e", ".5", "1e+", "{\"a\"}", "nullx"] {
        assert!(json_from_string(&s(case)).is_err(), "{case} must fail");
    }
}

#[test]
fn fractional_metrics_are_kept_verbatim() {
    let mut store = Store::default();
    let rows = etna_store::cli::run(
        &mut store,
        etna_store::cli::Command::Write {
            experiment_id: s("x"),
            metric: s("{\"time\":1.5,\"big\":20000000000000000000}"),
        },
    )
    .expect("fractional and oversized numbers are valid metric payloads");
    assert!(rows.is_empty());
    let text = store_to_string(&store);
    assert!(text.contains("1.5"));
    assert!(text.contains("20000000000000000000"));
    let back = store_from_string(&text).expect("own text must parse");
    assert_eq!(back, store);
}

#[test]
fn surrogate_pairs_decode_to_one_character() {
    let parsed = json_from_string(&s("\"\\ud834\\udd1e\"")).expect("a valid pair");
    match &parsed {
        Json::Str(text) => assert_eq!(text.chars().count(), 1),
        other => panic!("expected a string, got {:?}", other),
    }
    // the character round-trips through the printer verbatim
    let printed = json_to_string(&parsed);
    let again = json_from_string(&printed).expect("printed form parses");
    assert!(parsed.same_as(&again));
    // a lone or ill-formed surrogate is refused
    assert!(json_from_string(&s("\"\\ud834\"")).is_err());
    assert!(json_from_string(&s("\"\\ud834\\u0041\"")).is_err());
}

#[test]
fn field_match_semantics() {
    let store = sample_store();
    let doc = store_to_json(&store);
    let fields = json_from_string(&s("{\"status\":\"ok\"}")).expect("valid");
    let rows = generic::metrics_by_fields(&doc, &fields).expect("object payload");
    assert_eq!(rows.len(), 1);
    let shown = json_to_string(&rows[0]);
    assert!(shown.contains("\"status\":\"ok\""));
    assert!(shown.contains("\"n\":1"));
    // the non-object payload is refused and named
    let bad = json_from_string(&s("[1,2]")).expect("valid");
    assert!(matches!(
        generic::metrics_by_fields(&doc, &bad),
        Err(StoreError::FieldsNotAnObject { .. })
    ));
}

#[test]
fn snapshots_by_fields_match_structurally() {
    let store = sample_store();
    let doc = store_to_json(&store);
    let fields = json_from_string(&s("{\"hash\":\"e1\"}")).expect("valid");
    let rows = generic::snapshots_by_fields(&doc, &fields).expect("object payload");
    assert_eq!(rows.len(), 1);
    assert!(json_to_string(&rows[0]).contains("\"etna\""));
}

fn typed_rows(store: &Store, option: &QueryOption) -> Result<Vec<String>, StoreError> {
    handle_specialized_query(store, option)
}

fn generic_row(store: &Store, option: &QueryOption) -> Result<String, StoreError> {
    handle_jq_query(store, option)
}

fn assert_equivalent(store: &Store, option: QueryOption) {
    let typed = typed_rows(store, &option);
    let generic_out = generic_row(store, &option).expect("generic path answers");
    // the generic resolver prints one indented array; read it back and
    // compare record for record with the typed resolver's lines
    let garr = match json_from_string(&generic_out).expect("generic output parses") {
        Json::Arr(items) => items,
        other => panic!("expected an array, got {other:?}"),
    };
    match typed {
        Ok(rows) => {
            assert_eq!(garr.len(), rows.len());
            for (row, g) in rows.iter().zip(garr.iter()) {
                let typed_record = json_from_string(row).expect("typed row parses");
                assert!(typed_record.same_as(g));
            }
        }
        Err(_) => {
            // the typed single-record lookups fail where the generic
            // resolver reports an empty answer set
            assert!(garr.is_empty());
        }
    }
}

#[test]
fn resolver_equivalence_on_all_six_kinds() {
    let store = sample_store();
    assert_equivalent(&store, QueryOption::ExperimentById { experiment_id: s("x") });
    assert_equivalent(&store, QueryOption::ExperimentById { experiment_id: s("missing") });
    assert_equivalent(&store, QueryOption::ExperimentByName { experiment_name: s("A") });
    assert_equivalent(&store, QueryOption::ExperimentByName { experiment_name: s("missing") });
    assert_equivalent(&store, QueryOption::AllExperimentsByName { experiment_name: s("A") });
    assert_equivalent(&store, QueryOption::AllExperimentsByName { experiment_name: s("missing") });
    assert_equivalent(&store, QueryOption::MetricsByExperimentId { experiment_id: s("x") });
    assert_equivalent(&store, QueryOption::MetricsByExperimentId { experiment_id: s("missing") });
    assert_equivalent(&store, QueryOption::SnapshotsByName { snapshot_name: s("Collect.py") });
    assert_equivalent(&store, QueryOption::SnapshotsByName { snapshot_name: s("missing") });
    assert_equivalent(&store, QueryOption::SnapshotByHash { snapshot_hash: s("w1") });
    assert_equivalent(&store, QueryOption::SnapshotByHash { snapshot_hash: s("missing") });
}

#[test]
fn raw_filter_expressions() {
    let store = sample_store();
    let doc = store_to_json(&store);
    let rows = run_filter(&doc, &s(".experiments[] | .name")).expect("valid pipeline");
    assert_eq!(rows.len(), 2);
    assert_eq!(json_to_string(&rows[0]), s("\"A\""));
    assert_eq!(json_to_string(&rows[1]), s("\"B\""));
    let rows = run_filter(&doc, &s(".")).expect("identity");
    assert_eq!(rows.len(), 1);
    assert_eq!(json_to_pretty_string(&rows[0]), store_to_string(&store));
    let rows = run_filter(&doc, &s(".metrics[] | .data | .status")).expect("valid");
    assert_eq!(json_to_string(&rows[0]), s("\"ok\""));
    assert_eq!(json_to_string(&rows[1]), s("\"fail\""));
    // a missing field yields null, as the escape hatch promises
    let rows = run_filter(&doc, &s(".nothing")).expect("valid");
    assert_eq!(json_to_string(&rows[0]), s("null"));
}

#[test]
fn filter_errors_name_the_expression() {
    let store = sample_store();
    let doc = store_to_json(&store);
    match run_filter(&doc, &s("experiments")) {
        Err(StoreError::FilterSyntax { expr }) => assert_eq!(expr, s("experiments")),
        other => panic!("expected a syntax error, got {:?}", other),
    }
    // splicing a non-array is an evaluation error
    match run_filter(&doc, &s(".metrics[] | .[]")) {
        Err(StoreError::FilterEval { expr }) => assert_eq!(expr, s(".metrics[] | .[]")),
        other => panic!("expected an evaluation error, got {:?}", other),
    }
}

#[test]
fn generic_path_serves_jq_queries_through_run() {
    let mut store = sample_store();
    let rows = etna_store::cli::run(
        &mut store,
        etna_store::cli::Command::Query {
            option: QueryOption::Jq { query_string: s(".experiments[] | .id") },
            use_jq: false,
        },
    )
    .expect("jq kind always goes generic");
    assert_eq!(rows, vec![s("[\n  \"x\",\n  \"y\"\n]")]);
}

#[test]
fn json_equality_is_structural() {
    let a = json_from_string(&s("{\"k\":[1,2]}")).expect("valid");
    let b = json_from_string(&s("{ \"k\" : [ 1 , 2 ] }")).expect("valid");
    assert!(a.same_as(&b));
    let c = json_from_string(&s("{\"k\":[2,1]}")).expect("valid");
    assert!(!a.same_as(&c));
}
