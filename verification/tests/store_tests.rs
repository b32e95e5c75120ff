use etna_store::cli::{Command, QueryOption};
use etna_store::config::{EtnaConfig, ExperimentConfig};
use etna_store::errors::StoreError;
use etna_store::experiment::{Experiment, ExperimentSnapshot};
use etna_store::snapshot::{Snapshot, SnapshotType};
use etna_store::store::{Metric, Store};
use etna_store::workload::Workload;
use etna_store::json::Json;

fn s(text: &str) -> String {
    String::from(text)
}

fn experiment(name: &str, id: &str) -> Experiment {
    Experiment {
        name: s(name),
        id: s(id),
        description: s("a description"),
        path: s("/tmp/exp"),
        snapshot: ExperimentSnapshot {
            experiment: s(id),
            etna: s("etna-hash"),
            scripts: vec![(s("Collect.py"), s("script-hash"))],
            workloads: vec![],
        },
    }
}

fn experiment_snapshot(id: &str, time: &str) -> Snapshot {
    Snapshot {
        path: s("/tmp/exp/*"),
        typ: SnapshotType::Experiment { time: s(time) },
        hash: s(id),
    }
}

#[test]
fn dedup_idempotence() {
    let mut store = Store::default();
    let snap = Snapshot {
        path: s("/repo"),
        typ: SnapshotType::Etna { branch: s("main") },
        hash: s("abc123"),
    };
    assert!(store.insert_snapshot(snap.clone()));
    assert_eq!(store.snapshots.len(), 1);
    assert!(!store.insert_snapshot(snap.clone()));
    assert_eq!(store.snapshots.len(), 1);
    assert!(store.snapshots[0].same_as(&snap));
}

#[test]
fn dedup_distinguishes_every_component() {
    let mut store = Store::default();
    let base = Snapshot {
        path: s("/repo"),
        typ: SnapshotType::Script { name: s("Collect.py") },
        hash: s("h1"),
    };
    assert!(store.insert_snapshot(base.clone()));
    let mut other_hash = base.clone();
    other_hash.hash = s("h2");
    assert!(store.insert_snapshot(other_hash));
    let mut other_path = base.clone();
    other_path.path = s("/elsewhere");
    assert!(store.insert_snapshot(other_path));
    assert_eq!(store.snapshots.len(), 3);
}

#[test]
fn latest_by_name_picks_greatest_timestamp() {
    let mut store = Store::default();
    store.experiments.push(experiment("A", "x"));
    store.experiments.push(experiment("A", "y"));
    store.experiments.push(experiment("A", "z"));
    // t2 > t3 > t1
    store.snapshots.push(experiment_snapshot("x", "2024-01-01T00:00:00+00:00"));
    store.snapshots.push(experiment_snapshot("y", "2024-03-01T00:00:00+00:00"));
    store.snapshots.push(experiment_snapshot("z", "2024-02-01T00:00:00+00:00"));
    let winner = store.get_experiment_by_name(&s("A")).expect("must resolve");
    assert_eq!(winner.id, s("y"));
}

#[test]
fn latest_by_name_tie_goes_to_earliest_registered() {
    let mut store = Store::default();
    store.experiments.push(experiment("A", "x"));
    store.experiments.push(experiment("A", "y"));
    store.snapshots.push(experiment_snapshot("x", "2024-01-01T00:00:00+00:00"));
    store.snapshots.push(experiment_snapshot("y", "2024-01-01T00:00:00+00:00"));
    let winner = store.get_experiment_by_name(&s("A")).expect("must resolve");
    assert_eq!(winner.id, s("x"));
}

#[test]
fn latest_by_name_errors() {
    let mut store = Store::default();
    assert!(matches!(
        store.get_experiment_by_name(&s("A")),
        Err(StoreError::ExperimentNotFound)
    ));
    store.experiments.push(experiment("A", "x"));
    assert!(matches!(
        store.get_experiment_by_name(&s("A")),
        Err(StoreError::SnapshotNotFound)
    ));
}

#[test]
fn partial_workload_tolerance() {
    let mut store = Store::default();
    let etna_config = EtnaConfig {
        etna_dir: s("/home/u/.etna"),
        repo_dir: s("/home/u/.etna/etna"),
        venv_dir: s("/home/u/.etna/.venv"),
        branch: s("main"),
        configured: true,
    };
    let experiment_config = ExperimentConfig {
        name: s("A"),
        description: s("d"),
        workloads: vec![
            Workload { language: s("coq"), name: s("bst") },
            Workload { language: s("coq"), name: s("rbt") },
            Workload { language: s("haskell"), name: s("stlc") },
        ],
        path: s("/tmp/exp"),
    };
    let bundle = store.take_snapshot_with(
        &etna_config,
        &experiment_config,
        s("etna-hash"),
        s("exp-hash"),
        s("2024-01-01T00:00:00+00:00"),
        Some(s("script-hash")),
        vec![Some(s("w1")), None, Some(s("w3"))],
    );
    assert_eq!(bundle.workloads.len(), 2);
    assert_eq!(bundle.workloads[0].0.name, s("bst"));
    assert_eq!(bundle.workloads[1].0.name, s("stlc"));
    assert_eq!(bundle.experiment, s("exp-hash"));
    assert_eq!(bundle.etna, s("etna-hash"));
    assert_eq!(bundle.scripts, vec![(s("Collect.py"), s("script-hash"))]);
    // one snapshot each for the toolchain, the experiment tree, the
    // script, and the two workloads that could be hashed
    assert_eq!(store.snapshots.len(), 5);
}

#[test]
fn script_hash_failure_is_tolerated() {
    let mut store = Store::default();
    let etna_config = EtnaConfig {
        etna_dir: s("/home/u/.etna"),
        repo_dir: s("/home/u/.etna/etna"),
        venv_dir: s("/home/u/.etna/.venv"),
        branch: s("main"),
        configured: true,
    };
    let experiment_config = ExperimentConfig {
        name: s("A"),
        description: s("d"),
        workloads: vec![Workload { language: s("coq"), name: s("bst") }],
        path: s("/tmp/exp"),
    };
    let bundle = store.take_snapshot_with(
        &etna_config,
        &experiment_config,
        s("etna-hash"),
        s("exp-hash"),
        s("2024-01-01T00:00:00+00:00"),
        None,
        vec![Some(s("w1"))],
    );
    // the operation succeeds; the bundle simply lists no script, and no
    // script snapshot is registered
    assert!(bundle.scripts.is_empty());
    assert_eq!(bundle.workloads.len(), 1);
    assert_eq!(store.snapshots.len(), 3);
}

#[test]
fn take_snapshot_with_deduplicates_reruns() {
    let mut store = Store::default();
    let etna_config = EtnaConfig {
        etna_dir: s("/home/u/.etna"),
        repo_dir: s("/home/u/.etna/etna"),
        venv_dir: s("/home/u/.etna/.venv"),
        branch: s("main"),
        configured: true,
    };
    let experiment_config = ExperimentConfig {
        name: s("A"),
        description: s("d"),
        workloads: vec![],
        path: s("/tmp/exp"),
    };
    for _ in 0..2 {
        store.take_snapshot_with(
            &etna_config,
            &experiment_config,
            s("etna-hash"),
            s("exp-hash"),
            s("2024-01-01T00:00:00+00:00"),
            Some(s("script-hash")),
            vec![],
        );
    }
    assert_eq!(store.snapshots.len(), 3);
}

#[test]
fn not_found_propagation() {
    let mut store = Store::default();
    store.experiments.push(experiment("A", "x"));
    assert!(matches!(
        store.get_experiment_by_id(&s("nonexistent-hash")),
        Err(StoreError::ExperimentNotFound)
    ));
    let all = store.get_all_experiments_by_name(&s("nonexistent"));
    assert!(all.is_empty());
}

#[test]
fn experiment_by_id_finds_first() {
    let mut store = Store::default();
    store.experiments.push(experiment("A", "x"));
    store.experiments.push(experiment("B", "y"));
    let found = store.get_experiment_by_id(&s("y")).expect("present");
    assert_eq!(found.name, s("B"));
}

#[test]
fn snapshots_by_name_matches_only_named_kinds() {
    let mut store = Store::default();
    store.snapshots.push(Snapshot {
        path: s("/repo"),
        typ: SnapshotType::Etna { branch: s("main") },
        hash: s("h0"),
    });
    store.snapshots.push(Snapshot {
        path: s("/tmp/exp/Collect.py"),
        typ: SnapshotType::Script { name: s("Collect.py") },
        hash: s("h1"),
    });
    store.snapshots.push(Snapshot {
        path: s("/tmp/exp/workloads/coq/bst/*"),
        typ: SnapshotType::Workload { name: s("bst"), language: s("coq") },
        hash: s("h2"),
    });
    let scripts = store.get_snapshots_by_name(&s("Collect.py"));
    assert_eq!(scripts.len(), 1);
    assert_eq!(scripts[0].hash, s("h1"));
    let bst = store.get_snapshots_by_name(&s("bst"));
    assert_eq!(bst.len(), 1);
    assert_eq!(bst[0].hash, s("h2"));
    // kinds without a name never match, not even the empty name
    let unnamed = store.get_snapshots_by_name(&s(""));
    assert!(unnamed.is_empty());
}

#[test]
fn snapshot_by_hash_lookup() {
    let mut store = Store::default();
    store.snapshots.push(Snapshot {
        path: s("/repo"),
        typ: SnapshotType::Etna { branch: s("main") },
        hash: s("abc"),
    });
    let found = store.get_snapshot_by_hash(&s("abc")).expect("present");
    assert_eq!(found.path, s("/repo"));
    assert!(matches!(
        store.get_snapshot_by_hash(&s("missing")),
        Err(StoreError::SnapshotNotFound)
    ));
}

#[test]
fn metrics_by_experiment_id_keeps_order() {
    let mut store = Store::default();
    store.metrics.push(Metric { data: Json::Int(1), experiment_id: s("x") });
    store.metrics.push(Metric { data: Json::Int(2), experiment_id: s("y") });
    store.metrics.push(Metric { data: Json::Int(3), experiment_id: s("x") });
    let ms = store.get_metrics_by_experiment_id(&s("x"));
    assert_eq!(ms.len(), 2);
    assert!(matches!(ms[0].data, Json::Int(1)));
    assert!(matches!(ms[1].data, Json::Int(3)));
}

#[test]
fn run_writes_a_metric() {
    let mut store = Store::default();
    let rows = etna_store::cli::run(
        &mut store,
        Command::Write { experiment_id: s("x"), metric: s("{\"elapsed\":42}") },
    )
    .expect("valid metric");
    assert!(rows.is_empty());
    assert_eq!(store.metrics.len(), 1);
    assert_eq!(store.metrics[0].experiment_id, s("x"));
    let bad = etna_store::cli::run(
        &mut store,
        Command::Write { experiment_id: s("x"), metric: s("{nope") },
    );
    assert!(matches!(bad, Err(StoreError::JsonSyntax { .. })));
    assert_eq!(store.metrics.len(), 1);
}

#[test]
fn run_answers_typed_queries() {
    let mut store = Store::default();
    store.experiments.push(experiment("A", "x"));
    let rows = etna_store::cli::run(
        &mut store,
        Command::Query {
            option: QueryOption::ExperimentById { experiment_id: s("x") },
            use_jq: false,
        },
    )
    .expect("present");
    assert_eq!(rows.len(), 1);
    assert!(rows[0].contains("\"id\":\"x\""));
}

#[test]
fn with_snapshot_reidentifies() {
    let e = experiment("A", "x");
    let bundle = ExperimentSnapshot {
        experiment: s("fresh"),
        etna: s("etna2"),
        scripts: vec![(s("Collect.py"), s("s2"))],
        workloads: vec![],
    };
    let e2 = e.with_snapshot(bundle.clone());
    assert_eq!(e2.id, s("fresh"));
    assert_eq!(e2.name, s("A"));
    assert_eq!(e2.snapshot, bundle);
}

#[test]
fn snapshot_kind_accessors() {
    let etna = SnapshotType::Etna { branch: s("main") };
    let script = SnapshotType::Script { name: s("Collect.py") };
    let workload = SnapshotType::Workload { name: s("bst"), language: s("coq") };
    let exp = SnapshotType::Experiment { time: s("2024-01-01T00:00:00+00:00") };
    assert!(!etna.is_experiment());
    assert!(exp.is_experiment());
    assert!(matches!(etna.name(), Err(StoreError::NameNotSupported)));
    assert!(matches!(exp.name(), Err(StoreError::NameNotSupported)));
    assert_eq!(script.name().expect("named"), s("Collect.py"));
    assert_eq!(workload.name().expect("named"), s("bst"));
    assert_eq!(etna.time(), None);
    // the epoch instant of the timestamp, as chrono computes it
    assert_eq!(exp.time(), Some(1704067200));
    let bad = SnapshotType::Experiment { time: s("not a time") };
    assert_eq!(bad.time(), None);
}

#[test]
fn experiment_config_lookup_and_workloads() {
    let cfg = ExperimentConfig::new("A", "a description", s("/tmp/exp"));
    assert!(cfg.workloads.is_empty());
    let mut cfg = cfg;
    cfg.workloads.push(Workload { language: s("coq"), name: s("bst") });
    assert!(cfg.has_workload(&s("coq"), &s("bst")));
    assert!(!cfg.has_workload(&s("coq"), &s("rbt")));
    let mut store = Store::default();
    store.experiments.push(experiment("A", "x"));
    let path = ExperimentConfig::from_etna_config(&s("A"), &store).expect("known");
    assert_eq!(path, s("/tmp/exp"));
    assert!(matches!(
        ExperimentConfig::from_etna_config(&s("B"), &store),
        Err(StoreError::ExperimentNotFound)
    ));
}

#[test]
fn etna_config_paths() {
    let cfg = EtnaConfig {
        etna_dir: s("/home/u/.etna"),
        repo_dir: s("/home/u/.etna/etna"),
        venv_dir: s("/home/u/.etna/.venv"),
        branch: s("main"),
        configured: false,
    };
    assert_eq!(cfg.config_path(), s("/home/u/.etna/config.json"));
    assert_eq!(cfg.store_path(), s("/home/u/.etna/store.json"));
}

#[test]
fn change_branch_decision() {
    let cfg = EtnaConfig {
        etna_dir: s("/home/u/.etna"),
        repo_dir: s("/home/u/.etna/etna"),
        venv_dir: s("/home/u/.etna/.venv"),
        branch: s("main"),
        configured: true,
    };
    assert!(etna_store::commands::change_branch::invoke(&cfg, s("main")).is_none());
    let moved = etna_store::commands::change_branch::invoke(&cfg, s("dev")).expect("differs");
    assert_eq!(moved.branch, s("dev"));
    assert_eq!(moved.etna_dir, cfg.etna_dir);
    assert!(moved.configured);
}

#[test]
fn error_descriptions_name_the_payload() {
    let e = StoreError::FieldsNotAnObject { given: s("[1]") };
    assert_eq!(e.describe(), s("field-match payload is not a JSON object: [1]"));
    let e = StoreError::FilterSyntax { expr: s("nonsense") };
    assert_eq!(e.describe(), s("malformed filter expression: nonsense"));
}
