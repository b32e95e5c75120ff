use vstd::prelude::*;

use vstd::string::StringExecFns;

use crate::errors::{StoreError, StoreErrorV};
use crate::experiment::{Experiment, ExperimentSnapshot, ExperimentSnapshotV, ExperimentV};
use crate::json::{arr_views, obj_lookup, obj_views, doc_lookup, Json, JsonV};
use crate::snapshot::{Snapshot, SnapshotType, SnapshotTypeV, SnapshotV};
use crate::store::{Metric, MetricV, Store, StoreV};
use crate::text::{
    json_from_string, json_text, json_to_pretty_string, json_wf, parse_json, pretty_text,
};
use crate::workload::{Workload, WorkloadV};

verus! {

broadcast use crate::json::group_json_views;

// --- Encoding ---------------------------------------------------------
//
// The store is persisted as one JSON document.  Records become objects
// with one field per component; the snapshot kind is an object with one
// member named after the kind; pairs become two-element arrays.

pub open spec fn workload_json(w: WorkloadV) -> JsonV {
    JsonV::Obj(
        seq![("language"@, JsonV::Str(w.language)), ("name"@, JsonV::Str(w.name))],
    )
}

pub open spec fn kind_json(t: SnapshotTypeV) -> JsonV {
    match t {
        SnapshotTypeV::Etna { branch } => JsonV::Obj(
            seq![("etna"@, JsonV::Obj(seq![("branch"@, JsonV::Str(branch))]))],
        ),
        SnapshotTypeV::Script { name } => JsonV::Obj(
            seq![("script"@, JsonV::Obj(seq![("name"@, JsonV::Str(name))]))],
        ),
        SnapshotTypeV::Workload { name, language } => JsonV::Obj(
            seq![
                (
                    "workload"@,
                    JsonV::Obj(
                        seq![("name"@, JsonV::Str(name)), ("language"@, JsonV::Str(language))],
                    ),
                ),
            ],
        ),
        SnapshotTypeV::Experiment { time } => JsonV::Obj(
            seq![("experiment"@, JsonV::Obj(seq![("time"@, JsonV::Str(time))]))],
        ),
    }
}

pub open spec fn snapshot_json(s: SnapshotV) -> JsonV {
    JsonV::Obj(
        seq![
            ("path"@, JsonV::Str(s.path)),
            ("typ"@, kind_json(s.typ)),
            ("hash"@, JsonV::Str(s.hash)),
        ],
    )
}

pub open spec fn pair_json(p: (Seq<char>, Seq<char>)) -> JsonV {
    JsonV::Arr(seq![JsonV::Str(p.0), JsonV::Str(p.1)])
}

pub open spec fn wpair_json(p: (WorkloadV, Seq<char>)) -> JsonV {
    JsonV::Arr(seq![workload_json(p.0), JsonV::Str(p.1)])
}

pub open spec fn bundle_json(b: ExperimentSnapshotV) -> JsonV {
    JsonV::Obj(
        seq![
            ("experiment"@, JsonV::Str(b.experiment)),
            ("etna"@, JsonV::Str(b.etna)),
            ("scripts"@, JsonV::Arr(b.scripts.map_values(|p: (Seq<char>, Seq<char>)| pair_json(p)))),
            (
                "workloads"@,
                JsonV::Arr(b.workloads.map_values(|p: (WorkloadV, Seq<char>)| wpair_json(p))),
            ),
        ],
    )
}

pub open spec fn experiment_json(e: ExperimentV) -> JsonV {
    JsonV::Obj(
        seq![
            ("name"@, JsonV::Str(e.name)),
            ("id"@, JsonV::Str(e.id)),
            ("description"@, JsonV::Str(e.description)),
            ("path"@, JsonV::Str(e.path)),
            ("snapshot"@, bundle_json(e.snapshot)),
        ],
    )
}

pub open spec fn metric_json(m: MetricV) -> JsonV {
    JsonV::Obj(seq![("data"@, m.data), ("experiment_id"@, JsonV::Str(m.experiment_id))])
}

/// The whole persisted document.
pub open spec fn store_json(s: StoreV) -> JsonV {
    JsonV::Obj(
        seq![
            ("metrics"@, JsonV::Arr(s.metrics.map_values(|m: MetricV| metric_json(m)))),
            ("snapshots"@, JsonV::Arr(s.snapshots.map_values(|x: SnapshotV| snapshot_json(x)))),
            (
                "experiments"@,
                JsonV::Arr(s.experiments.map_values(|e: ExperimentV| experiment_json(e))),
            ),
        ],
    )
}

// --- Decoding ---------------------------------------------------------

pub open spec fn str_of_json(j: JsonV) -> Option<Seq<char>> {
    match j {
        JsonV::Str(s) => Some(s),
        _ => None,
    }
}

pub open spec fn str_field(j: JsonV, key: Seq<char>) -> Option<Seq<char>> {
    match doc_lookup(j, key) {
        Some(v) => str_of_json(v),
        None => None,
    }
}

pub open spec fn workload_of_json(j: JsonV) -> Option<WorkloadV> {
    match (str_field(j, "language"@), str_field(j, "name"@)) {
        (Some(language), Some(name)) => Some(WorkloadV { language, name }),
        _ => None,
    }
}

pub open spec fn kind_of_json(j: JsonV) -> Option<SnapshotTypeV> {
    if doc_lookup(j, "etna"@) is Some {
        match str_field(doc_lookup(j, "etna"@)->Some_0, "branch"@) {
            Some(branch) => Some(SnapshotTypeV::Etna { branch }),
            None => None,
        }
    } else if doc_lookup(j, "script"@) is Some {
        match str_field(doc_lookup(j, "script"@)->Some_0, "name"@) {
            Some(name) => Some(SnapshotTypeV::Script { name }),
            None => None,
        }
    } else if doc_lookup(j, "workload"@) is Some {
        match (
            str_field(doc_lookup(j, "workload"@)->Some_0, "name"@),
            str_field(doc_lookup(j, "workload"@)->Some_0, "language"@),
        ) {
            (Some(name), Some(language)) => Some(SnapshotTypeV::Workload { name, language }),
            _ => None,
        }
    } else if doc_lookup(j, "experiment"@) is Some {
        match str_field(doc_lookup(j, "experiment"@)->Some_0, "time"@) {
            Some(time) => Some(SnapshotTypeV::Experiment { time }),
            None => None,
        }
    } else {
        None
    }
}

pub open spec fn snapshot_of_json(j: JsonV) -> Option<SnapshotV> {
    match (str_field(j, "path"@), doc_lookup(j, "typ"@), str_field(j, "hash"@)) {
        (Some(path), Some(tj), Some(hash)) => match kind_of_json(tj) {
            Some(typ) => Some(SnapshotV { path, typ, hash }),
            None => None,
        },
        _ => None,
    }
}

pub open spec fn pair_of_json(j: JsonV) -> Option<(Seq<char>, Seq<char>)> {
    match j {
        JsonV::Arr(items) => if items.len() == 2 {
            match (str_of_json(items[0]), str_of_json(items[1])) {
                (Some(a), Some(b)) => Some((a, b)),
                _ => None,
            }
        } else {
            None
        },
        _ => None,
    }
}

pub open spec fn wpair_of_json(j: JsonV) -> Option<(WorkloadV, Seq<char>)> {
    match j {
        JsonV::Arr(items) => if items.len() == 2 {
            match (workload_of_json(items[0]), str_of_json(items[1])) {
                (Some(w), Some(h)) => Some((w, h)),
                _ => None,
            }
        } else {
            None
        },
        _ => None,
    }
}

pub open spec fn pairs_of_json(items: Seq<JsonV>) -> Option<Seq<(Seq<char>, Seq<char>)>>
    decreases items.len(),
{
    if items.len() == 0 {
        Some(Seq::empty())
    } else {
        match (pair_of_json(items[0]), pairs_of_json(items.drop_first())) {
            (Some(p), Some(rest)) => Some(seq![p] + rest),
            _ => None,
        }
    }
}

pub open spec fn wpairs_of_json(items: Seq<JsonV>) -> Option<Seq<(WorkloadV, Seq<char>)>>
    decreases items.len(),
{
    if items.len() == 0 {
        Some(Seq::empty())
    } else {
        match (wpair_of_json(items[0]), wpairs_of_json(items.drop_first())) {
            (Some(p), Some(rest)) => Some(seq![p] + rest),
            _ => None,
        }
    }
}

pub open spec fn bundle_of_json(j: JsonV) -> Option<ExperimentSnapshotV> {
    match (
        str_field(j, "experiment"@),
        str_field(j, "etna"@),
        doc_lookup(j, "scripts"@),
        doc_lookup(j, "workloads"@),
    ) {
        (Some(experiment), Some(etna), Some(JsonV::Arr(sitems)), Some(JsonV::Arr(witems))) => {
            match (pairs_of_json(sitems), wpairs_of_json(witems)) {
                (Some(scripts), Some(workloads)) => Some(
                    ExperimentSnapshotV { experiment, etna, scripts, workloads },
                ),
                _ => None,
            }
        },
        _ => None,
    }
}

pub open spec fn experiment_of_json(j: JsonV) -> Option<ExperimentV> {
    match (
        str_field(j, "name"@),
        str_field(j, "id"@),
        str_field(j, "description"@),
        str_field(j, "path"@),
        doc_lookup(j, "snapshot"@),
    ) {
        (Some(name), Some(id), Some(description), Some(path), Some(bj)) => match bundle_of_json(
            bj,
        ) {
            Some(snapshot) => Some(ExperimentV { name, id, description, path, snapshot }),
            None => None,
        },
        _ => None,
    }
}

pub open spec fn metric_of_json(j: JsonV) -> Option<MetricV> {
    match (doc_lookup(j, "data"@), str_field(j, "experiment_id"@)) {
        (Some(data), Some(experiment_id)) => Some(MetricV { data, experiment_id }),
        _ => None,
    }
}

pub open spec fn metrics_of_json(items: Seq<JsonV>) -> Option<Seq<MetricV>>
    decreases items.len(),
{
    if items.len() == 0 {
        Some(Seq::empty())
    } else {
        match (metric_of_json(items[0]), metrics_of_json(items.drop_first())) {
            (Some(m), Some(rest)) => Some(seq![m] + rest),
            _ => None,
        }
    }
}

pub open spec fn snapshots_of_json(items: Seq<JsonV>) -> Option<Seq<SnapshotV>>
    decreases items.len(),
{
    if items.len() == 0 {
        Some(Seq::empty())
    } else {
        match (snapshot_of_json(items[0]), snapshots_of_json(items.drop_first())) {
            (Some(x), Some(rest)) => Some(seq![x] + rest),
            _ => None,
        }
    }
}

pub open spec fn experiments_of_json(items: Seq<JsonV>) -> Option<Seq<ExperimentV>>
    decreases items.len(),
{
    if items.len() == 0 {
        Some(Seq::empty())
    } else {
        match (experiment_of_json(items[0]), experiments_of_json(items.drop_first())) {
            (Some(e), Some(rest)) => Some(seq![e] + rest),
            _ => None,
        }
    }
}

/// The store a document encodes, if it has the expected shape.
pub open spec fn store_of_json(j: JsonV) -> Option<StoreV> {
    match (doc_lookup(j, "metrics"@), doc_lookup(j, "snapshots"@), doc_lookup(j, "experiments"@)) {
        (Some(JsonV::Arr(mitems)), Some(JsonV::Arr(sitems)), Some(JsonV::Arr(eitems))) => {
            match (metrics_of_json(mitems), snapshots_of_json(sitems), experiments_of_json(
                eitems,
            )) {
                (Some(metrics), Some(snapshots), Some(experiments)) => Some(
                    StoreV { metrics, snapshots, experiments },
                ),
                _ => None,
            }
        },
        _ => None,
    }
}

// --- Round trip of the encoding ---------------------------------------

/// The field names of the persisted document are pairwise distinct where
/// one object holds several of them.
pub proof fn field_names_distinct()
    ensures
        "language"@.len() == 8,
        "name"@.len() == 4,
        "etna"@.len() == 4,
        "script"@.len() == 6,
        "workload"@.len() == 8,
        "experiment"@.len() == 10,
        "branch"@.len() == 6,
        "time"@.len() == 4,
        "path"@.len() == 4,
        "typ"@.len() == 3,
        "hash"@.len() == 4,
        "scripts"@.len() == 7,
        "workloads"@.len() == 9,
        "id"@.len() == 2,
        "description"@.len() == 11,
        "snapshot"@.len() == 8,
        "data"@.len() == 4,
        "experiment_id"@.len() == 13,
        "metrics"@.len() == 7,
        "snapshots"@.len() == 9,
        "experiments"@.len() == 11,
        "name"@ != "path"@,
        "name"@ != "hash"@,
        "path"@ != "hash"@,
        "name"@ != "etna"@,
        "etna"@ != "path"@,
        "etna"@ != "hash"@,
        "name"@ != "data"@,
        "name"@ != "time"@,
        "snapshot"@ != "workload"@,
        "snapshot"@ != "language"@,
        "workload"@ != "language"@,
        "snapshots"@ != "workloads"@,
        "description"@ != "experiments"@,
{
    reveal_strlit("language");
    reveal_strlit("name");
    reveal_strlit("etna");
    reveal_strlit("script");
    reveal_strlit("workload");
    reveal_strlit("experiment");
    reveal_strlit("branch");
    reveal_strlit("time");
    reveal_strlit("path");
    reveal_strlit("typ");
    reveal_strlit("hash");
    reveal_strlit("scripts");
    reveal_strlit("workloads");
    reveal_strlit("id");
    reveal_strlit("description");
    reveal_strlit("snapshot");
    reveal_strlit("data");
    reveal_strlit("experiment_id");
    reveal_strlit("metrics");
    reveal_strlit("snapshots");
    reveal_strlit("experiments");
    assert("name"@[0] == 'n');
    assert("path"@[0] == 'p');
    assert("hash"@[0] == 'h');
    assert("etna"@[0] == 'e');
    assert("data"@[0] == 'd');
    assert("time"@[0] == 't');
    assert("snapshot"@[0] == 's');
    assert("workload"@[0] == 'w');
    assert("language"@[0] == 'l');
    assert("snapshots"@[0] == 's');
    assert("workloads"@[0] == 'w');
    assert("snapshots"@[1] == 'n');
    assert("workloads"@[1] == 'o');
    assert("description"@[0] == 'd');
    assert("experiments"@[0] == 'e');
}

pub proof fn lemma_workload_rt(w: WorkloadV)
    ensures
        workload_of_json(workload_json(w)) == Some(w),
{
    field_names_distinct();
    let ms = seq![("language"@, JsonV::Str(w.language)), ("name"@, JsonV::Str(w.name))];
    assert(ms.drop_first() =~= seq![("name"@, JsonV::Str(w.name))]);
    assert(ms.drop_first().drop_first() =~= Seq::<(Seq<char>, JsonV)>::empty());
    reveal_with_fuel(obj_lookup, 3);
    assert(obj_lookup(ms, "language"@) == Some(JsonV::Str(w.language)));
    assert(obj_lookup(ms, "name"@) == Some(JsonV::Str(w.name)));
}

pub proof fn lemma_kind_rt(t: SnapshotTypeV)
    ensures
        kind_of_json(kind_json(t)) == Some(t),
{
    field_names_distinct();
    reveal_with_fuel(obj_lookup, 3);
    match t {
        SnapshotTypeV::Etna { branch } => {
            let inner = seq![("branch"@, JsonV::Str(branch))];
            let ms = seq![("etna"@, JsonV::Obj(inner))];
            assert(ms.drop_first() =~= Seq::<(Seq<char>, JsonV)>::empty());
            assert(inner.drop_first() =~= Seq::<(Seq<char>, JsonV)>::empty());
            assert(obj_lookup(ms, "etna"@) == Some(JsonV::Obj(inner)));
            assert(obj_lookup(inner, "branch"@) == Some(JsonV::Str(branch)));
        },
        SnapshotTypeV::Script { name } => {
            let inner = seq![("name"@, JsonV::Str(name))];
            let ms = seq![("script"@, JsonV::Obj(inner))];
            assert(ms.drop_first() =~= Seq::<(Seq<char>, JsonV)>::empty());
            assert(inner.drop_first() =~= Seq::<(Seq<char>, JsonV)>::empty());
            assert(obj_lookup(ms, "etna"@) is None);
            assert(obj_lookup(ms, "script"@) == Some(JsonV::Obj(inner)));
            assert(obj_lookup(inner, "name"@) == Some(JsonV::Str(name)));
        },
        SnapshotTypeV::Workload { name, language } => {
            let inner = seq![("name"@, JsonV::Str(name)), ("language"@, JsonV::Str(language))];
            let ms = seq![("workload"@, JsonV::Obj(inner))];
            assert(ms.drop_first() =~= Seq::<(Seq<char>, JsonV)>::empty());
            assert(inner.drop_first() =~= seq![("language"@, JsonV::Str(language))]);
            assert(inner.drop_first().drop_first() =~= Seq::<(Seq<char>, JsonV)>::empty());
            assert(obj_lookup(ms, "etna"@) is None);
            assert(obj_lookup(ms, "script"@) is None);
            assert(obj_lookup(ms, "workload"@) == Some(JsonV::Obj(inner)));
            assert(obj_lookup(inner, "name"@) == Some(JsonV::Str(name)));
            assert(obj_lookup(inner, "language"@) == Some(JsonV::Str(language)));
        },
        SnapshotTypeV::Experiment { time } => {
            let inner = seq![("time"@, JsonV::Str(time))];
            let ms = seq![("experiment"@, JsonV::Obj(inner))];
            assert(ms.drop_first() =~= Seq::<(Seq<char>, JsonV)>::empty());
            assert(inner.drop_first() =~= Seq::<(Seq<char>, JsonV)>::empty());
            assert(obj_lookup(ms, "etna"@) is None);
            assert(obj_lookup(ms, "script"@) is None);
            assert(obj_lookup(ms, "workload"@) is None);
            assert(obj_lookup(ms, "experiment"@) == Some(JsonV::Obj(inner)));
            assert(obj_lookup(inner, "time"@) == Some(JsonV::Str(time)));
        },
    }
}

pub proof fn lemma_snapshot_rt(x: SnapshotV)
    ensures
        snapshot_of_json(snapshot_json(x)) == Some(x),
{
    field_names_distinct();
    lemma_kind_rt(x.typ);
    let ms = seq![
        ("path"@, JsonV::Str(x.path)),
        ("typ"@, kind_json(x.typ)),
        ("hash"@, JsonV::Str(x.hash)),
    ];
    assert(ms.drop_first() =~= seq![("typ"@, kind_json(x.typ)), ("hash"@, JsonV::Str(x.hash))]);
    assert(ms.drop_first().drop_first() =~= seq![("hash"@, JsonV::Str(x.hash))]);
    assert(ms.drop_first().drop_first().drop_first() =~= Seq::<(Seq<char>, JsonV)>::empty());
    reveal_with_fuel(obj_lookup, 4);
    assert(obj_lookup(ms, "path"@) == Some(JsonV::Str(x.path)));
    assert(obj_lookup(ms, "typ"@) == Some(kind_json(x.typ)));
    assert(obj_lookup(ms, "hash"@) == Some(JsonV::Str(x.hash)));
}

pub proof fn lemma_pairs_rt(ps: Seq<(Seq<char>, Seq<char>)>)
    ensures
        pairs_of_json(ps.map_values(|p: (Seq<char>, Seq<char>)| pair_json(p))) == Some(ps),
    decreases ps.len(),
{
    let mapped = ps.map_values(|p: (Seq<char>, Seq<char>)| pair_json(p));
    if ps.len() == 0 {
        assert(Some(Seq::<(Seq<char>, Seq<char>)>::empty()) == Some(ps)) by {
            assert(ps =~= Seq::<(Seq<char>, Seq<char>)>::empty());
        }
    } else {
        assert(mapped[0] == pair_json(ps[0]));
        assert(mapped.drop_first() =~= ps.drop_first().map_values(
            |p: (Seq<char>, Seq<char>)| pair_json(p),
        ));
        lemma_pairs_rt(ps.drop_first());
        assert(pair_of_json(pair_json(ps[0])) == Some(ps[0])) by {
            let items = seq![JsonV::Str(ps[0].0), JsonV::Str(ps[0].1)];
            assert(items.len() == 2);
        }
        assert(seq![ps[0]] + ps.drop_first() =~= ps);
    }
}

pub proof fn lemma_wpairs_rt(ps: Seq<(WorkloadV, Seq<char>)>)
    ensures
        wpairs_of_json(ps.map_values(|p: (WorkloadV, Seq<char>)| wpair_json(p))) == Some(ps),
    decreases ps.len(),
{
    let mapped = ps.map_values(|p: (WorkloadV, Seq<char>)| wpair_json(p));
    if ps.len() == 0 {
        assert(ps =~= Seq::<(WorkloadV, Seq<char>)>::empty());
    } else {
        assert(mapped[0] == wpair_json(ps[0]));
        assert(mapped.drop_first() =~= ps.drop_first().map_values(
            |p: (WorkloadV, Seq<char>)| wpair_json(p),
        ));
        lemma_wpairs_rt(ps.drop_first());
        lemma_workload_rt(ps[0].0);
        assert(wpair_of_json(wpair_json(ps[0])) == Some(ps[0])) by {
            let items = seq![workload_json(ps[0].0), JsonV::Str(ps[0].1)];
            assert(items.len() == 2);
        }
        assert(seq![ps[0]] + ps.drop_first() =~= ps);
    }
}

pub proof fn lemma_bundle_rt(b: ExperimentSnapshotV)
    ensures
        bundle_of_json(bundle_json(b)) == Some(b),
{
    field_names_distinct();
    let sj = JsonV::Arr(b.scripts.map_values(|p: (Seq<char>, Seq<char>)| pair_json(p)));
    let wj = JsonV::Arr(b.workloads.map_values(|p: (WorkloadV, Seq<char>)| wpair_json(p)));
    let ms = seq![
        ("experiment"@, JsonV::Str(b.experiment)),
        ("etna"@, JsonV::Str(b.etna)),
        ("scripts"@, sj),
        ("workloads"@, wj),
    ];
    assert(ms.drop_first() =~= seq![("etna"@, JsonV::Str(b.etna)), ("scripts"@, sj), ("workloads"@, wj)]);
    assert(ms.drop_first().drop_first() =~= seq![("scripts"@, sj), ("workloads"@, wj)]);
    assert(ms.drop_first().drop_first().drop_first() =~= seq![("workloads"@, wj)]);
    assert(ms.drop_first().drop_first().drop_first().drop_first() =~= Seq::<
        (Seq<char>, JsonV),
    >::empty());
    reveal_with_fuel(obj_lookup, 5);
    assert(obj_lookup(ms, "experiment"@) == Some(JsonV::Str(b.experiment)));
    assert(obj_lookup(ms, "etna"@) == Some(JsonV::Str(b.etna)));
    assert(obj_lookup(ms, "scripts"@) == Some(sj));
    assert(obj_lookup(ms, "workloads"@) == Some(wj));
    lemma_pairs_rt(b.scripts);
    lemma_wpairs_rt(b.workloads);
    assert(bundle_of_json(bundle_json(b)) matches Some(b2) && b2 =~= b);
}

pub proof fn lemma_experiment_rt(e: ExperimentV)
    ensures
        experiment_of_json(experiment_json(e)) == Some(e),
{
    field_names_distinct();
    lemma_bundle_rt(e.snapshot);
    let ms = seq![
        ("name"@, JsonV::Str(e.name)),
        ("id"@, JsonV::Str(e.id)),
        ("description"@, JsonV::Str(e.description)),
        ("path"@, JsonV::Str(e.path)),
        ("snapshot"@, bundle_json(e.snapshot)),
    ];
    assert(ms.drop_first() =~= ms.subrange(1, 5));
    assert(ms.subrange(1, 5).drop_first() =~= ms.subrange(2, 5));
    assert(ms.subrange(2, 5).drop_first() =~= ms.subrange(3, 5));
    assert(ms.subrange(3, 5).drop_first() =~= ms.subrange(4, 5));
    assert(ms.subrange(4, 5).drop_first() =~= Seq::<(Seq<char>, JsonV)>::empty());
    reveal_with_fuel(obj_lookup, 6);
    assert(obj_lookup(ms, "name"@) == Some(JsonV::Str(e.name)));
    assert(obj_lookup(ms, "id"@) == Some(JsonV::Str(e.id)));
    assert(obj_lookup(ms, "description"@) == Some(JsonV::Str(e.description)));
    assert(obj_lookup(ms, "path"@) == Some(JsonV::Str(e.path)));
    assert(obj_lookup(ms, "snapshot"@) == Some(bundle_json(e.snapshot)));
    assert(experiment_of_json(experiment_json(e)) matches Some(e2) && e2 =~= e);
}

pub proof fn lemma_metric_rt(m: MetricV)
    ensures
        metric_of_json(metric_json(m)) == Some(m),
{
    field_names_distinct();
    let ms = seq![("data"@, m.data), ("experiment_id"@, JsonV::Str(m.experiment_id))];
    assert(ms.drop_first() =~= seq![("experiment_id"@, JsonV::Str(m.experiment_id))]);
    assert(ms.drop_first().drop_first() =~= Seq::<(Seq<char>, JsonV)>::empty());
    reveal_with_fuel(obj_lookup, 3);
    assert(obj_lookup(ms, "data"@) == Some(m.data));
    assert(obj_lookup(ms, "experiment_id"@) == Some(JsonV::Str(m.experiment_id)));
    assert(metric_of_json(metric_json(m)) matches Some(m2) && m2 =~= m);
}

pub proof fn lemma_metrics_rt(ms: Seq<MetricV>)
    ensures
        metrics_of_json(ms.map_values(|m: MetricV| metric_json(m))) == Some(ms),
    decreases ms.len(),
{
    let mapped = ms.map_values(|m: MetricV| metric_json(m));
    if ms.len() == 0 {
        assert(ms =~= Seq::<MetricV>::empty());
    } else {
        assert(mapped[0] == metric_json(ms[0]));
        assert(mapped.drop_first() =~= ms.drop_first().map_values(|m: MetricV| metric_json(m)));
        lemma_metrics_rt(ms.drop_first());
        lemma_metric_rt(ms[0]);
        assert(seq![ms[0]] + ms.drop_first() =~= ms);
    }
}

pub proof fn lemma_snapshots_rt(xs: Seq<SnapshotV>)
    ensures
        snapshots_of_json(xs.map_values(|x: SnapshotV| snapshot_json(x))) == Some(xs),
    decreases xs.len(),
{
    let mapped = xs.map_values(|x: SnapshotV| snapshot_json(x));
    if xs.len() == 0 {
        assert(xs =~= Seq::<SnapshotV>::empty());
    } else {
        assert(mapped[0] == snapshot_json(xs[0]));
        assert(mapped.drop_first() =~= xs.drop_first().map_values(
            |x: SnapshotV| snapshot_json(x),
        ));
        lemma_snapshots_rt(xs.drop_first());
        lemma_snapshot_rt(xs[0]);
        assert(seq![xs[0]] + xs.drop_first() =~= xs);
    }
}

pub proof fn lemma_experiments_rt(es: Seq<ExperimentV>)
    ensures
        experiments_of_json(es.map_values(|e: ExperimentV| experiment_json(e))) == Some(es),
    decreases es.len(),
{
    let mapped = es.map_values(|e: ExperimentV| experiment_json(e));
    if es.len() == 0 {
        assert(es =~= Seq::<ExperimentV>::empty());
    } else {
        assert(mapped[0] == experiment_json(es[0]));
        assert(mapped.drop_first() =~= es.drop_first().map_values(
            |e: ExperimentV| experiment_json(e),
        ));
        lemma_experiments_rt(es.drop_first());
        lemma_experiment_rt(es[0]);
        assert(seq![es[0]] + es.drop_first() =~= es);
    }
}

/// Round trip at the document level: decoding the encoding of any store
/// yields the very same metrics, snapshots and experiments.
pub proof fn lemma_store_rt(s: StoreV)
    ensures
        store_of_json(store_json(s)) == Some(s),
{
    field_names_distinct();
    let mj = JsonV::Arr(s.metrics.map_values(|m: MetricV| metric_json(m)));
    let sj = JsonV::Arr(s.snapshots.map_values(|x: SnapshotV| snapshot_json(x)));
    let ej = JsonV::Arr(s.experiments.map_values(|e: ExperimentV| experiment_json(e)));
    let ms = seq![("metrics"@, mj), ("snapshots"@, sj), ("experiments"@, ej)];
    assert(ms.drop_first() =~= seq![("snapshots"@, sj), ("experiments"@, ej)]);
    assert(ms.drop_first().drop_first() =~= seq![("experiments"@, ej)]);
    assert(ms.drop_first().drop_first().drop_first() =~= Seq::<(Seq<char>, JsonV)>::empty());
    reveal_with_fuel(obj_lookup, 4);
    assert(obj_lookup(ms, "metrics"@) == Some(mj));
    assert(obj_lookup(ms, "snapshots"@) == Some(sj));
    assert(obj_lookup(ms, "experiments"@) == Some(ej));
    lemma_metrics_rt(s.metrics);
    lemma_snapshots_rt(s.snapshots);
    lemma_experiments_rt(s.experiments);
    assert(store_of_json(store_json(s)) matches Some(s2) && s2 =~= s);
}

// --- Well-formedness of the encoding ----------------------------------

pub proof fn lemma_workload_json_wf(w: WorkloadV)
    ensures
        json_wf(workload_json(w)),
{
    let ms = workload_json(w)->Obj_0;
    assert forall|i: int| 0 <= i < ms.len() implies json_wf((#[trigger] ms[i]).1) by {
        assert(ms[0].1 is Str && ms[1].1 is Str);
    }
}

pub proof fn lemma_kind_json_wf(t: SnapshotTypeV)
    ensures
        json_wf(kind_json(t)),
{
    let ms = kind_json(t)->Obj_0;
    assert forall|i: int| 0 <= i < ms.len() implies json_wf((#[trigger] ms[i]).1) by {
        assert(i == 0);
        let inner = ms[0].1->Obj_0;
        assert forall|k: int| 0 <= k < inner.len() implies json_wf((#[trigger] inner[k]).1) by {
            match t {
                SnapshotTypeV::Workload { name, language } => {
                    assert(inner[0].1 is Str && inner[1].1 is Str);
                },
                _ => {
                    assert(inner[0].1 is Str);
                },
            }
        }
    }
}

pub proof fn lemma_snapshot_json_wf(x: SnapshotV)
    ensures
        json_wf(snapshot_json(x)),
{
    lemma_kind_json_wf(x.typ);
    let ms = snapshot_json(x)->Obj_0;
    assert forall|i: int| 0 <= i < ms.len() implies json_wf((#[trigger] ms[i]).1) by {
        assert(ms[0].1 is Str && ms[1].1 == kind_json(x.typ) && ms[2].1 is Str);
    }
}

pub proof fn lemma_bundle_json_wf(b: ExperimentSnapshotV)
    ensures
        json_wf(bundle_json(b)),
{
    let sj = b.scripts.map_values(|p: (Seq<char>, Seq<char>)| pair_json(p));
    let wj = b.workloads.map_values(|p: (WorkloadV, Seq<char>)| wpair_json(p));
    assert forall|i: int| 0 <= i < sj.len() implies json_wf(#[trigger] sj[i]) by {
        let items = pair_json(b.scripts[i])->Arr_0;
        assert(items[0] is Str && items[1] is Str);
        assert(forall|k: int| 0 <= k < items.len() ==> json_wf(#[trigger] items[k]));
    }
    assert forall|i: int| 0 <= i < wj.len() implies json_wf(#[trigger] wj[i]) by {
        lemma_workload_json_wf(b.workloads[i].0);
        let items = wpair_json(b.workloads[i])->Arr_0;
        assert(items[0] == workload_json(b.workloads[i].0) && items[1] is Str);
        assert(forall|k: int| 0 <= k < items.len() ==> json_wf(#[trigger] items[k]));
    }
    let ms = bundle_json(b)->Obj_0;
    assert forall|i: int| 0 <= i < ms.len() implies json_wf((#[trigger] ms[i]).1) by {
        assert(ms[0].1 is Str && ms[1].1 is Str && ms[2].1 == JsonV::Arr(sj) && ms[3].1
            == JsonV::Arr(wj));
    }
}

pub proof fn lemma_experiment_json_wf(e: ExperimentV)
    ensures
        json_wf(experiment_json(e)),
{
    lemma_bundle_json_wf(e.snapshot);
    let ms = experiment_json(e)->Obj_0;
    assert forall|i: int| 0 <= i < ms.len() implies json_wf((#[trigger] ms[i]).1) by {
        assert(ms[0].1 is Str && ms[1].1 is Str && ms[2].1 is Str && ms[3].1 is Str && ms[4].1
            == bundle_json(e.snapshot));
    }
}

pub proof fn lemma_metric_json_wf(m: MetricV)
    requires
        json_wf(m.data),
    ensures
        json_wf(metric_json(m)),
{
    let ms = metric_json(m)->Obj_0;
    assert forall|i: int| 0 <= i < ms.len() implies json_wf((#[trigger] ms[i]).1) by {
        assert(ms[0].1 == m.data && ms[1].1 is Str);
    }
}

/// The persisted document of a store whose metric payloads fit 64-bit
/// integers is itself well formed.
pub proof fn lemma_store_json_wf(s: StoreV)
    requires
        forall|i: int| 0 <= i < s.metrics.len() ==> json_wf((#[trigger] s.metrics[i]).data),
    ensures
        json_wf(store_json(s)),
{
    let mj = s.metrics.map_values(|m: MetricV| metric_json(m));
    let sj = s.snapshots.map_values(|x: SnapshotV| snapshot_json(x));
    let ej = s.experiments.map_values(|e: ExperimentV| experiment_json(e));
    assert forall|i: int| 0 <= i < mj.len() implies json_wf(#[trigger] mj[i]) by {
        lemma_metric_json_wf(s.metrics[i]);
    }
    assert forall|i: int| 0 <= i < sj.len() implies json_wf(#[trigger] sj[i]) by {
        lemma_snapshot_json_wf(s.snapshots[i]);
    }
    assert forall|i: int| 0 <= i < ej.len() implies json_wf(#[trigger] ej[i]) by {
        lemma_experiment_json_wf(s.experiments[i]);
    }
    let ms = store_json(s)->Obj_0;
    assert forall|i: int| 0 <= i < ms.len() implies json_wf((#[trigger] ms[i]).1) by {
        assert(ms[0].1 == JsonV::Arr(mj) && ms[1].1 == JsonV::Arr(sj) && ms[2].1 == JsonV::Arr(ej));
    }
}

/// Round trip of a persisted store: both the indented text the store is
/// saved as and the compact text of its document parse back to the very
/// document, and decoding yields a store with identical metrics,
/// snapshots and experiments.  The one premise holds of every store whose
/// metric payloads are well formed — 64-bit integers exactly, any other
/// number as one whole literal token, as the parser itself produces them.
pub proof fn lemma_store_round_trip(s: StoreV)
    requires
        forall|i: int| 0 <= i < s.metrics.len() ==> json_wf((#[trigger] s.metrics[i]).data),
    ensures
        parse_json(pretty_text(store_json(s), 0)) == Some(store_json(s)),
        parse_json(json_text(store_json(s))) == Some(store_json(s)),
        store_of_json(store_json(s)) == Some(s),
{
    lemma_store_json_wf(s);
    crate::text::lemma_pretty_round_trip(store_json(s));
    crate::text::lemma_round_trip(store_json(s));
    lemma_store_rt(s);
}

// --- The executable encoder -------------------------------------------

pub fn workload_to_json(w: &Workload) -> (r: Json)
    ensures
        r@ == workload_json(w@),
{
    let mut ms: Vec<(String, Json)> = Vec::new();
    ms.push((String::from_str("language"), Json::Str(w.language.clone())));
    ms.push((String::from_str("name"), Json::Str(w.name.clone())));
    let r = Json::Obj(ms);
    proof {
        assert(r@ == JsonV::Obj(obj_views(ms@)));
        let lv = r@->Obj_0;
        let rv = workload_json(w@)->Obj_0;
        assert(lv.len() == rv.len());
        assert(lv[0] == rv[0]);
        assert(lv[1] == rv[1]);
        assert(lv =~= rv);
    }
    r
}

pub fn kind_to_json(t: &SnapshotType) -> (r: Json)
    ensures
        r@ == kind_json(t@),
{
    match t {
        SnapshotType::Etna { branch } => {
            let mut inner: Vec<(String, Json)> = Vec::new();
            inner.push((String::from_str("branch"), Json::Str(branch.clone())));
            let innerj = Json::Obj(inner);
            proof {
                assert(innerj@ == JsonV::Obj(obj_views(inner@)));
                let lv = innerj@->Obj_0;
                let rv = kind_json(t@)->Obj_0[0].1->Obj_0;
                assert(lv.len() == rv.len());
                assert(lv[0] == rv[0]);
                assert(lv =~= rv);
            }
            let mut ms: Vec<(String, Json)> = Vec::new();
            ms.push((String::from_str("etna"), innerj));
            let r = Json::Obj(ms);
            proof {
                assert(r@ == JsonV::Obj(obj_views(ms@)));
        let lv = r@->Obj_0;
                let rv = kind_json(t@)->Obj_0;
                assert(lv.len() == rv.len());
                assert(lv[0] == rv[0]);
                assert(lv =~= rv);
            }
            r
        },
        SnapshotType::Script { name } => {
            let mut inner: Vec<(String, Json)> = Vec::new();
            inner.push((String::from_str("name"), Json::Str(name.clone())));
            let innerj = Json::Obj(inner);
            proof {
                assert(innerj@ == JsonV::Obj(obj_views(inner@)));
                let lv = innerj@->Obj_0;
                let rv = kind_json(t@)->Obj_0[0].1->Obj_0;
                assert(lv.len() == rv.len());
                assert(lv[0] == rv[0]);
                assert(lv =~= rv);
            }
            let mut ms: Vec<(String, Json)> = Vec::new();
            ms.push((String::from_str("script"), innerj));
            let r = Json::Obj(ms);
            proof {
                assert(r@ == JsonV::Obj(obj_views(ms@)));
        let lv = r@->Obj_0;
                let rv = kind_json(t@)->Obj_0;
                assert(lv.len() == rv.len());
                assert(lv[0] == rv[0]);
                assert(lv =~= rv);
            }
            r
        },
        SnapshotType::Workload { name, language } => {
            let mut inner: Vec<(String, Json)> = Vec::new();
            inner.push((String::from_str("name"), Json::Str(name.clone())));
            inner.push((String::from_str("language"), Json::Str(language.clone())));
            let innerj = Json::Obj(inner);
            proof {
                assert(innerj@ == JsonV::Obj(obj_views(inner@)));
                let lv = innerj@->Obj_0;
                let rv = kind_json(t@)->Obj_0[0].1->Obj_0;
                assert(lv.len() == rv.len());
                assert(lv[0] == rv[0]);
                assert(lv[1] == rv[1]);
                assert(lv =~= rv);
            }
            let mut ms: Vec<(String, Json)> = Vec::new();
            ms.push((String::from_str("workload"), innerj));
            let r = Json::Obj(ms);
            proof {
                assert(r@ == JsonV::Obj(obj_views(ms@)));
        let lv = r@->Obj_0;
                let rv = kind_json(t@)->Obj_0;
                assert(lv.len() == rv.len());
                assert(lv[0] == rv[0]);
                assert(lv =~= rv);
            }
            r
        },
        SnapshotType::Experiment { time } => {
            let mut inner: Vec<(String, Json)> = Vec::new();
            inner.push((String::from_str("time"), Json::Str(time.clone())));
            let innerj = Json::Obj(inner);
            proof {
                assert(innerj@ == JsonV::Obj(obj_views(inner@)));
                let lv = innerj@->Obj_0;
                let rv = kind_json(t@)->Obj_0[0].1->Obj_0;
                assert(lv.len() == rv.len());
                assert(lv[0] == rv[0]);
                assert(lv =~= rv);
            }
            let mut ms: Vec<(String, Json)> = Vec::new();
            ms.push((String::from_str("experiment"), innerj));
            let r = Json::Obj(ms);
            proof {
                assert(r@ == JsonV::Obj(obj_views(ms@)));
        let lv = r@->Obj_0;
                let rv = kind_json(t@)->Obj_0;
                assert(lv.len() == rv.len());
                assert(lv[0] == rv[0]);
                assert(lv =~= rv);
            }
            r
        },
    }
}

pub fn snapshot_to_json(x: &Snapshot) -> (r: Json)
    ensures
        r@ == snapshot_json(x@),
{
    let mut ms: Vec<(String, Json)> = Vec::new();
    ms.push((String::from_str("path"), Json::Str(x.path.clone())));
    ms.push((String::from_str("typ"), kind_to_json(&x.typ)));
    ms.push((String::from_str("hash"), Json::Str(x.hash.clone())));
    let r = Json::Obj(ms);
    proof {
        assert(r@ == JsonV::Obj(obj_views(ms@)));
        let lv = r@->Obj_0;
        let rv = snapshot_json(x@)->Obj_0;
        assert(lv.len() == rv.len());
        assert(lv[0] == rv[0]);
        assert(lv[1] == rv[1]);
        assert(lv[2] == rv[2]);
        assert(lv =~= rv);
    }
    r
}

#[verifier::loop_isolation(false)]
pub fn bundle_to_json(b: &ExperimentSnapshot) -> (r: Json)
    ensures
        r@ == bundle_json(b@),
{
    let ghost sview = b@.scripts;
    let mut sitems: Vec<Json> = Vec::new();
    let mut i: usize = 0;
    while i < b.scripts.len()
        invariant
            i <= b.scripts@.len(),
            arr_views(sitems@) =~= sview.take(i as int).map_values(
                |p: (Seq<char>, Seq<char>)| pair_json(p),
            ),
        decreases b.scripts@.len() - i,
    {
        let mut pair: Vec<Json> = Vec::new();
        pair.push(Json::Str(b.scripts[i].0.clone()));
        pair.push(Json::Str(b.scripts[i].1.clone()));
        let pj = Json::Arr(pair);
        proof {
            assert(pj@ == JsonV::Arr(arr_views(pair@)));
            let lv = pj@->Arr_0;
            let rv = pair_json(sview[i as int])->Arr_0;
            assert(lv.len() == rv.len());
            assert(lv[0] == rv[0]);
            assert(lv[1] == rv[1]);
            assert(lv =~= rv);
            assert(sview.take(i as int + 1) =~= sview.take(i as int).push(sview[i as int]));
        }
        let ghost prev = sitems@;
        sitems.push(pj);
        proof {
            assert forall|k: int| 0 <= k < sitems@.len() implies arr_views(sitems@)[k]
                == sview.take(i as int + 1).map_values(|p: (Seq<char>, Seq<char>)| pair_json(p))[k] by {
                if k < i as int {
                    assert(arr_views(prev)[k] == sview.take(i as int).map_values(|p: (Seq<char>, Seq<char>)| pair_json(p))[k]);
                    assert(sitems@[k] == prev[k]);
                } else {
                    assert(sitems@[k] == pj);
                }
            }
            assert(arr_views(sitems@) =~= sview.take(i as int + 1).map_values(|p: (Seq<char>, Seq<char>)| pair_json(p)));
        }
        i = i + 1;
    }
    let ghost wview = b@.workloads;
    let mut witems: Vec<Json> = Vec::new();
    let mut j: usize = 0;
    while j < b.workloads.len()
        invariant
            j <= b.workloads@.len(),
            arr_views(witems@) =~= wview.take(j as int).map_values(
                |p: (WorkloadV, Seq<char>)| wpair_json(p),
            ),
        decreases b.workloads@.len() - j,
    {
        let mut pair: Vec<Json> = Vec::new();
        pair.push(workload_to_json(&b.workloads[j].0));
        pair.push(Json::Str(b.workloads[j].1.clone()));
        let pj = Json::Arr(pair);
        proof {
            assert(pj@ == JsonV::Arr(arr_views(pair@)));
            let lv = pj@->Arr_0;
            let rv = wpair_json(wview[j as int])->Arr_0;
            assert(lv.len() == rv.len());
            assert(lv[0] == rv[0]);
            assert(lv[1] == rv[1]);
            assert(lv =~= rv);
            assert(wview.take(j as int + 1) =~= wview.take(j as int).push(wview[j as int]));
        }
        let ghost prev = witems@;
        witems.push(pj);
        proof {
            assert forall|k: int| 0 <= k < witems@.len() implies arr_views(witems@)[k]
                == wview.take(j as int + 1).map_values(|p: (WorkloadV, Seq<char>)| wpair_json(p))[k] by {
                if k < j as int {
                    assert(arr_views(prev)[k] == wview.take(j as int).map_values(|p: (WorkloadV, Seq<char>)| wpair_json(p))[k]);
                    assert(witems@[k] == prev[k]);
                } else {
                    assert(witems@[k] == pj);
                }
            }
            assert(arr_views(witems@) =~= wview.take(j as int + 1).map_values(|p: (WorkloadV, Seq<char>)| wpair_json(p)));
        }
        j = j + 1;
    }
    let mut ms: Vec<(String, Json)> = Vec::new();
    ms.push((String::from_str("experiment"), Json::Str(b.experiment.clone())));
    ms.push((String::from_str("etna"), Json::Str(b.etna.clone())));
    ms.push((String::from_str("scripts"), Json::Arr(sitems)));
    ms.push((String::from_str("workloads"), Json::Arr(witems)));
    let r = Json::Obj(ms);
    proof {
        assert(sview.take(sview.len() as int) =~= sview);
        assert(wview.take(wview.len() as int) =~= wview);
        assert(r@ == JsonV::Obj(obj_views(ms@)));
        let lv = r@->Obj_0;
        let rv = bundle_json(b@)->Obj_0;
        assert(lv.len() == rv.len());
        assert(lv[0] == rv[0]);
        assert(lv[1] == rv[1]);
        assert(lv[2] == rv[2]);
        assert(lv[3] == rv[3]);
        assert(lv =~= rv);
    }
    r
}

pub fn experiment_to_json(e: &Experiment) -> (r: Json)
    ensures
        r@ == experiment_json(e@),
{
    let mut ms: Vec<(String, Json)> = Vec::new();
    ms.push((String::from_str("name"), Json::Str(e.name.clone())));
    ms.push((String::from_str("id"), Json::Str(e.id.clone())));
    ms.push((String::from_str("description"), Json::Str(e.description.clone())));
    ms.push((String::from_str("path"), Json::Str(e.path.clone())));
    ms.push((String::from_str("snapshot"), bundle_to_json(&e.snapshot)));
    let r = Json::Obj(ms);
    proof {
        assert(r@ == JsonV::Obj(obj_views(ms@)));
        let lv = r@->Obj_0;
        let rv = experiment_json(e@)->Obj_0;
        assert(lv.len() == rv.len());
        assert(lv[0] == rv[0]);
        assert(lv[1] == rv[1]);
        assert(lv[2] == rv[2]);
        assert(lv[3] == rv[3]);
        assert(lv[4] == rv[4]);
        assert(lv =~= rv);
    }
    r
}

pub fn metric_to_json(m: &Metric) -> (r: Json)
    ensures
        r@ == metric_json(m@),
{
    let mut ms: Vec<(String, Json)> = Vec::new();
    ms.push((String::from_str("data"), m.data.clone()));
    ms.push((String::from_str("experiment_id"), Json::Str(m.experiment_id.clone())));
    let r = Json::Obj(ms);
    proof {
        assert(r@ == JsonV::Obj(obj_views(ms@)));
        let lv = r@->Obj_0;
        let rv = metric_json(m@)->Obj_0;
        assert(lv.len() == rv.len());
        assert(lv[0] == rv[0]);
        assert(lv[1] == rv[1]);
        assert(lv =~= rv);
    }
    r
}

/// The persisted document of a store, as a tree.
#[verifier::loop_isolation(false)]
pub fn store_to_json(st: &Store) -> (r: Json)
    ensures
        r@ == store_json(st@),
{
    let ghost mview = st@.metrics;
    let mut mitems: Vec<Json> = Vec::new();
    let mut i: usize = 0;
    while i < st.metrics.len()
        invariant
            i <= st.metrics@.len(),
            arr_views(mitems@) =~= mview.take(i as int).map_values(|m: MetricV| metric_json(m)),
        decreases st.metrics@.len() - i,
    {
        let mj = metric_to_json(&st.metrics[i]);
        proof {
            assert(mview.take(i as int + 1) =~= mview.take(i as int).push(mview[i as int]));
        }
        let ghost prev = mitems@;
        mitems.push(mj);
        proof {
            assert forall|k: int| 0 <= k < mitems@.len() implies arr_views(mitems@)[k]
                == mview.take(i as int + 1).map_values(|m: MetricV| metric_json(m))[k] by {
                if k < i as int {
                    assert(arr_views(prev)[k] == mview.take(i as int).map_values(|m: MetricV| metric_json(m))[k]);
                    assert(mitems@[k] == prev[k]);
                } else {
                    assert(mitems@[k] == mj);
                }
            }
            assert(arr_views(mitems@) =~= mview.take(i as int + 1).map_values(|m: MetricV| metric_json(m)));
        }
        i = i + 1;
    }
    let ghost sview = st@.snapshots;
    let mut sitems: Vec<Json> = Vec::new();
    let mut j: usize = 0;
    while j < st.snapshots.len()
        invariant
            j <= st.snapshots@.len(),
            arr_views(sitems@) =~= sview.take(j as int).map_values(|x: SnapshotV| snapshot_json(x)),
        decreases st.snapshots@.len() - j,
    {
        let sj = snapshot_to_json(&st.snapshots[j]);
        proof {
            assert(sview.take(j as int + 1) =~= sview.take(j as int).push(sview[j as int]));
        }
        let ghost prev = sitems@;
        sitems.push(sj);
        proof {
            assert forall|k: int| 0 <= k < sitems@.len() implies arr_views(sitems@)[k]
                == sview.take(j as int + 1).map_values(|x: SnapshotV| snapshot_json(x))[k] by {
                if k < j as int {
                    assert(arr_views(prev)[k] == sview.take(j as int).map_values(|x: SnapshotV| snapshot_json(x))[k]);
                    assert(sitems@[k] == prev[k]);
                } else {
                    assert(sitems@[k] == sj);
                }
            }
            assert(arr_views(sitems@) =~= sview.take(j as int + 1).map_values(|x: SnapshotV| snapshot_json(x)));
        }
        j = j + 1;
    }
    let ghost eview = st@.experiments;
    let mut eitems: Vec<Json> = Vec::new();
    let mut k: usize = 0;
    while k < st.experiments.len()
        invariant
            k <= st.experiments@.len(),
            arr_views(eitems@) =~= eview.take(k as int).map_values(
                |e: ExperimentV| experiment_json(e),
            ),
        decreases st.experiments@.len() - k,
    {
        let ej = experiment_to_json(&st.experiments[k]);
        proof {
            assert(eview.take(k as int + 1) =~= eview.take(k as int).push(eview[k as int]));
        }
        let ghost prev = eitems@;
        eitems.push(ej);
        proof {
            assert forall|q: int| 0 <= q < eitems@.len() implies arr_views(eitems@)[q]
                == eview.take(k as int + 1).map_values(|e: ExperimentV| experiment_json(e))[q] by {
                if q < k as int {
                    assert(arr_views(prev)[q] == eview.take(k as int).map_values(|e: ExperimentV| experiment_json(e))[q]);
                    assert(eitems@[q] == prev[q]);
                } else {
                    assert(eitems@[q] == ej);
                }
            }
            assert(arr_views(eitems@) =~= eview.take(k as int + 1).map_values(|e: ExperimentV| experiment_json(e)));
        }
        k = k + 1;
    }
    let mut ms: Vec<(String, Json)> = Vec::new();
    ms.push((String::from_str("metrics"), Json::Arr(mitems)));
    ms.push((String::from_str("snapshots"), Json::Arr(sitems)));
    ms.push((String::from_str("experiments"), Json::Arr(eitems)));
    let r = Json::Obj(ms);
    proof {
        assert(mview.take(mview.len() as int) =~= mview);
        assert(sview.take(sview.len() as int) =~= sview);
        assert(eview.take(eview.len() as int) =~= eview);
        assert(r@ == JsonV::Obj(obj_views(ms@)));
        let lv = r@->Obj_0;
        let rv = store_json(st@)->Obj_0;
        assert(lv.len() == rv.len());
        assert(lv[0] == rv[0]);
        assert(lv[1] == rv[1]);
        assert(lv[2] == rv[2]);
        assert(lv =~= rv);
    }
    r
}

/// The persisted text of a store: its document, indented for people.
pub fn store_to_string(st: &Store) -> (r: String)
    ensures
        r@ == pretty_text(store_json(st@), 0),
{
    let j = store_to_json(st);
    json_to_pretty_string(&j)
}

// --- The executable decoder -------------------------------------------

/// The string bound to `key` in an object document, if any.
pub(crate) fn get_str_field<'a>(j: &'a Json, key: &String) -> (r: Option<&'a String>)
    ensures
        match r {
            Some(s) => str_field(j@, key@) == Some(s@),
            None => str_field(j@, key@) is None,
        },
{
    match j.get(key) {
        Some(v) => match v {
            Json::Str(s) => Some(s),
            _ => None,
        },
        None => None,
    }
}

fn workload_from_json(j: &Json) -> (r: Option<Workload>)
    ensures
        match r {
            Some(w) => workload_of_json(j@) == Some(w@),
            None => workload_of_json(j@) is None,
        },
{
    let language = match get_str_field(j, &String::from_str("language")) {
        Some(s) => s.clone(),
        None => {
            return None;
        },
    };
    let name = match get_str_field(j, &String::from_str("name")) {
        Some(s) => s.clone(),
        None => {
            return None;
        },
    };
    Some(Workload { language, name })
}

fn kind_from_json(j: &Json) -> (r: Option<SnapshotType>)
    ensures
        match r {
            Some(t) => kind_of_json(j@) == Some(t@),
            None => kind_of_json(j@) is None,
        },
{
    match j.get(&String::from_str("etna")) {
        Some(inner) => {
            return match get_str_field(inner, &String::from_str("branch")) {
                Some(branch) => Some(SnapshotType::Etna { branch: branch.clone() }),
                None => None,
            };
        },
        None => {},
    }
    match j.get(&String::from_str("script")) {
        Some(inner) => {
            return match get_str_field(inner, &String::from_str("name")) {
                Some(name) => Some(SnapshotType::Script { name: name.clone() }),
                None => None,
            };
        },
        None => {},
    }
    match j.get(&String::from_str("workload")) {
        Some(inner) => {
            let name = match get_str_field(inner, &String::from_str("name")) {
                Some(name) => name.clone(),
                None => {
                    return None;
                },
            };
            return match get_str_field(inner, &String::from_str("language")) {
                Some(language) => Some(
                    SnapshotType::Workload { name, language: language.clone() },
                ),
                None => None,
            };
        },
        None => {},
    }
    match j.get(&String::from_str("experiment")) {
        Some(inner) => {
            return match get_str_field(inner, &String::from_str("time")) {
                Some(time) => Some(SnapshotType::Experiment { time: time.clone() }),
                None => None,
            };
        },
        None => {},
    }
    None
}

fn snapshot_from_json(j: &Json) -> (r: Option<Snapshot>)
    ensures
        match r {
            Some(x) => snapshot_of_json(j@) == Some(x@),
            None => snapshot_of_json(j@) is None,
        },
{
    let path = match get_str_field(j, &String::from_str("path")) {
        Some(s) => s.clone(),
        None => {
            return None;
        },
    };
    let tj = match j.get(&String::from_str("typ")) {
        Some(v) => v,
        None => {
            return None;
        },
    };
    let hash = match get_str_field(j, &String::from_str("hash")) {
        Some(s) => s.clone(),
        None => {
            return None;
        },
    };
    match kind_from_json(tj) {
        Some(typ) => Some(Snapshot { path, typ, hash }),
        None => None,
    }
}

fn pair_from_json(j: &Json) -> (r: Option<(String, String)>)
    ensures
        match r {
            Some(p) => pair_of_json(j@) == Some((p.0@, p.1@)),
            None => pair_of_json(j@) is None,
        },
{
    match j {
        Json::Arr(items) => {
            proof {
                assert(j@ == JsonV::Arr(arr_views(items@)));
            }
            if items.len() != 2 {
                return None;
            }
            let a = match &items[0] {
                Json::Str(s) => s.clone(),
                _ => {
                    return None;
                },
            };
            let b = match &items[1] {
                Json::Str(s) => s.clone(),
                _ => {
                    return None;
                },
            };
            Some((a, b))
        },
        _ => None,
    }
}

fn wpair_from_json(j: &Json) -> (r: Option<(Workload, String)>)
    ensures
        match r {
            Some(p) => wpair_of_json(j@) == Some((p.0@, p.1@)),
            None => wpair_of_json(j@) is None,
        },
{
    match j {
        Json::Arr(items) => {
            proof {
                assert(j@ == JsonV::Arr(arr_views(items@)));
            }
            if items.len() != 2 {
                return None;
            }
            let w = match workload_from_json(&items[0]) {
                Some(w) => w,
                None => {
                    return None;
                },
            };
            let h = match &items[1] {
                Json::Str(s) => s.clone(),
                _ => {
                    return None;
                },
            };
            Some((w, h))
        },
        _ => None,
    }
}

#[verifier::loop_isolation(false)]
fn pairs_from_json(items: &Vec<Json>) -> (r: Option<Vec<(String, String)>>)
    ensures
        match r {
            Some(ps) => pairs_of_json(arr_views(items@)) == Some(
                Seq::new(ps@.len(), |k: int| (ps@[k].0@, ps@[k].1@)),
            ),
            None => pairs_of_json(arr_views(items@)) is None,
        },
{
    let ghost full = arr_views(items@);
    let mut out: Vec<(String, String)> = Vec::new();
    let mut i: usize = 0;
    proof {
        assert(full.skip(0) =~= full);
    }
    while i < items.len()
        invariant
            i <= items@.len(),
            out@.len() == i,
            pairs_of_json(full) == match pairs_of_json(full.skip(i as int)) {
                Some(t) => Some(Seq::new(out@.len(), |k: int| (out@[k].0@, out@[k].1@)) + t),
                None => None::<Seq<(Seq<char>, Seq<char>)>>,
            },
        decreases items@.len() - i,
    {
        let ghost rest = full.skip(i as int);
        proof {
            assert(rest[0] == full[i as int]);
            assert(full[i as int] == items@[i as int]@);
            assert(rest.drop_first() =~= full.skip(i as int + 1));
        }
        match pair_from_json(&items[i]) {
            None => {
                return None;
            },
            Some(p) => {
                let ghost prev = out@;
                out.push(p);
                proof {
                    let pv = (p.0@, p.1@);
                    assert(pair_of_json(rest[0]) == Some(pv));
                    assert forall|k: int| 0 <= k < out@.len() implies (
                    #[trigger] out@[k].0@,
                        out@[k].1@,
                    ) == (if k < prev.len() {
                        (prev[k].0@, prev[k].1@)
                    } else {
                        pv
                    }) by {}
                    match pairs_of_json(full.skip(i as int + 1)) {
                        Some(t) => {
                            assert(Seq::new(prev.len(), |k: int| (prev[k].0@, prev[k].1@)) + (
                            seq![pv] + t) =~= Seq::new(
                                out@.len(),
                                |k: int| (out@[k].0@, out@[k].1@),
                            ) + t);
                        },
                        None => {},
                    }
                }
            },
        }
        i = i + 1;
    }
    proof {
        assert(full.skip(full.len() as int).len() == 0);
        assert(Seq::new(out@.len(), |k: int| (out@[k].0@, out@[k].1@)) + Seq::<
            (Seq<char>, Seq<char>),
        >::empty() =~= Seq::new(out@.len(), |k: int| (out@[k].0@, out@[k].1@)));
    }
    Some(out)
}

fn metric_from_json(j: &Json) -> (r: Option<Metric>)
    ensures
        match r {
            Some(m) => metric_of_json(j@) == Some(m@),
            None => metric_of_json(j@) is None,
        },
{
    let data = match j.get(&String::from_str("data")) {
        Some(v) => v.clone(),
        None => {
            return None;
        },
    };
    let experiment_id = match get_str_field(j, &String::from_str("experiment_id")) {
        Some(s) => s.clone(),
        None => {
            return None;
        },
    };
    Some(Metric { data, experiment_id })
}

#[verifier::loop_isolation(false)]
fn wpairs_from_json(items: &Vec<Json>) -> (r: Option<Vec<(Workload, String)>>)
    ensures
        match r {
            Some(ps) => wpairs_of_json(arr_views(items@)) == Some(Seq::new(ps@.len(), |k: int| ((#[trigger] ps@[k]).0@, ps@[k].1@))),
            None => wpairs_of_json(arr_views(items@)) is None,
        },
{
    let ghost full = arr_views(items@);
    let mut out: Vec<(Workload, String)> = Vec::new();
    let mut i: usize = 0;
    proof {
        assert(full.skip(0) =~= full);
    }
    while i < items.len()
        invariant
            i <= items@.len(),
            out@.len() == i,
            wpairs_of_json(full) == match wpairs_of_json(full.skip(i as int)) {
                Some(t) => Some(Seq::new(out@.len(), |k: int| ((#[trigger] out@[k]).0@, out@[k].1@)) + t),
                None => None,
            },
        decreases items@.len() - i,
    {
        let ghost rest = full.skip(i as int);
        proof {
            assert(rest[0] == full[i as int]);
            assert(full[i as int] == items@[i as int]@);
            assert(rest.drop_first() =~= full.skip(i as int + 1));
        }
        match wpair_from_json(&items[i]) {
            None => {
                return None;
            },
            Some(p) => {
                let ghost prev = out@;
                let ghost pv = (p.0@, p.1@);
                out.push(p);
                proof {
                    match wpairs_of_json(full.skip(i as int + 1)) {
                        Some(t) => {
                            assert(Seq::new(prev.len(), |k: int| ((#[trigger] prev[k]).0@, prev[k].1@)) + (seq![pv] + t)
                                =~= Seq::new(out@.len(), |k: int| ((#[trigger] out@[k]).0@, out@[k].1@)) + t);
                        },
                        None => {},
                    }
                }
            },
        }
        i = i + 1;
    }
    proof {
        assert(full.skip(full.len() as int).len() == 0);
        match wpairs_of_json(full.skip(items@.len() as int)) {
            Some(t) => {
                assert(Seq::new(out@.len(), |k: int| ((#[trigger] out@[k]).0@, out@[k].1@)) + t =~= Seq::new(
                    out@.len(),
                    |k: int| ((#[trigger] out@[k]).0@, out@[k].1@),
                ));
            },
            None => {},
        }
    }
    Some(out)
}

#[verifier::loop_isolation(false)]
fn metrics_from_json(items: &Vec<Json>) -> (r: Option<Vec<Metric>>)
    ensures
        match r {
            Some(ps) => metrics_of_json(arr_views(items@)) == Some(Seq::new(ps@.len(), |k: int| (#[trigger] ps@[k])@)),
            None => metrics_of_json(arr_views(items@)) is None,
        },
{
    let ghost full = arr_views(items@);
    let mut out: Vec<Metric> = Vec::new();
    let mut i: usize = 0;
    proof {
        assert(full.skip(0) =~= full);
    }
    while i < items.len()
        invariant
            i <= items@.len(),
            out@.len() == i,
            metrics_of_json(full) == match metrics_of_json(full.skip(i as int)) {
                Some(t) => Some(Seq::new(out@.len(), |k: int| (#[trigger] out@[k])@) + t),
                None => None,
            },
        decreases items@.len() - i,
    {
        let ghost rest = full.skip(i as int);
        proof {
            assert(rest[0] == full[i as int]);
            assert(full[i as int] == items@[i as int]@);
            assert(rest.drop_first() =~= full.skip(i as int + 1));
        }
        match metric_from_json(&items[i]) {
            None => {
                return None;
            },
            Some(p) => {
                let ghost prev = out@;
                let ghost pv = p@;
                out.push(p);
                proof {
                    match metrics_of_json(full.skip(i as int + 1)) {
                        Some(t) => {
                            assert(Seq::new(prev.len(), |k: int| (#[trigger] prev[k])@) + (seq![pv] + t)
                                =~= Seq::new(out@.len(), |k: int| (#[trigger] out@[k])@) + t);
                        },
                        None => {},
                    }
                }
            },
        }
        i = i + 1;
    }
    proof {
        assert(full.skip(full.len() as int).len() == 0);
        match metrics_of_json(full.skip(items@.len() as int)) {
            Some(t) => {
                assert(Seq::new(out@.len(), |k: int| (#[trigger] out@[k])@) + t =~= Seq::new(
                    out@.len(),
                    |k: int| (#[trigger] out@[k])@,
                ));
            },
            None => {},
        }
    }
    Some(out)
}

#[verifier::loop_isolation(false)]
fn snapshots_from_json(items: &Vec<Json>) -> (r: Option<Vec<Snapshot>>)
    ensures
        match r {
            Some(ps) => snapshots_of_json(arr_views(items@)) == Some(Seq::new(ps@.len(), |k: int| (#[trigger] ps@[k])@)),
            None => snapshots_of_json(arr_views(items@)) is None,
        },
{
    let ghost full = arr_views(items@);
    let mut out: Vec<Snapshot> = Vec::new();
    let mut i: usize = 0;
    proof {
        assert(full.skip(0) =~= full);
    }
    while i < items.len()
        invariant
            i <= items@.len(),
            out@.len() == i,
            snapshots_of_json(full) == match snapshots_of_json(full.skip(i as int)) {
                Some(t) => Some(Seq::new(out@.len(), |k: int| (#[trigger] out@[k])@) + t),
                None => None,
            },
        decreases items@.len() - i,
    {
        let ghost rest = full.skip(i as int);
        proof {
            assert(rest[0] == full[i as int]);
            assert(full[i as int] == items@[i as int]@);
            assert(rest.drop_first() =~= full.skip(i as int + 1));
        }
        match snapshot_from_json(&items[i]) {
            None => {
                return None;
            },
            Some(p) => {
                let ghost prev = out@;
                let ghost pv = p@;
                out.push(p);
                proof {
                    match snapshots_of_json(full.skip(i as int + 1)) {
                        Some(t) => {
                            assert(Seq::new(prev.len(), |k: int| (#[trigger] prev[k])@) + (seq![pv] + t)
                                =~= Seq::new(out@.len(), |k: int| (#[trigger] out@[k])@) + t);
                        },
                        None => {},
                    }
                }
            },
        }
        i = i + 1;
    }
    proof {
        assert(full.skip(full.len() as int).len() == 0);
        match snapshots_of_json(full.skip(items@.len() as int)) {
            Some(t) => {
                assert(Seq::new(out@.len(), |k: int| (#[trigger] out@[k])@) + t =~= Seq::new(
                    out@.len(),
                    |k: int| (#[trigger] out@[k])@,
                ));
            },
            None => {},
        }
    }
    Some(out)
}

#[verifier::loop_isolation(false)]
fn experiments_from_json(items: &Vec<Json>) -> (r: Option<Vec<Experiment>>)
    ensures
        match r {
            Some(ps) => experiments_of_json(arr_views(items@)) == Some(Seq::new(ps@.len(), |k: int| (#[trigger] ps@[k])@)),
            None => experiments_of_json(arr_views(items@)) is None,
        },
{
    let ghost full = arr_views(items@);
    let mut out: Vec<Experiment> = Vec::new();
    let mut i: usize = 0;
    proof {
        assert(full.skip(0) =~= full);
    }
    while i < items.len()
        invariant
            i <= items@.len(),
            out@.len() == i,
            experiments_of_json(full) == match experiments_of_json(full.skip(i as int)) {
                Some(t) => Some(Seq::new(out@.len(), |k: int| (#[trigger] out@[k])@) + t),
                None => None,
            },
        decreases items@.len() - i,
    {
        let ghost rest = full.skip(i as int);
        proof {
            assert(rest[0] == full[i as int]);
            assert(full[i as int] == items@[i as int]@);
            assert(rest.drop_first() =~= full.skip(i as int + 1));
        }
        match experiment_from_json(&items[i]) {
            None => {
                return None;
            },
            Some(p) => {
                let ghost prev = out@;
                let ghost pv = p@;
                out.push(p);
                proof {
                    match experiments_of_json(full.skip(i as int + 1)) {
                        Some(t) => {
                            assert(Seq::new(prev.len(), |k: int| (#[trigger] prev[k])@) + (seq![pv] + t)
                                =~= Seq::new(out@.len(), |k: int| (#[trigger] out@[k])@) + t);
                        },
                        None => {},
                    }
                }
            },
        }
        i = i + 1;
    }
    proof {
        assert(full.skip(full.len() as int).len() == 0);
        match experiments_of_json(full.skip(items@.len() as int)) {
            Some(t) => {
                assert(Seq::new(out@.len(), |k: int| (#[trigger] out@[k])@) + t =~= Seq::new(
                    out@.len(),
                    |k: int| (#[trigger] out@[k])@,
                ));
            },
            None => {},
        }
    }
    Some(out)
}

fn bundle_from_json(j: &Json) -> (r: Option<ExperimentSnapshot>)
    ensures
        match r {
            Some(b) => bundle_of_json(j@) == Some(b@),
            None => bundle_of_json(j@) is None,
        },
{
    let experiment = match get_str_field(j, &String::from_str("experiment")) {
        Some(s) => s.clone(),
        None => {
            return None;
        },
    };
    let etna = match get_str_field(j, &String::from_str("etna")) {
        Some(s) => s.clone(),
        None => {
            return None;
        },
    };
    let sj = match j.get(&String::from_str("scripts")) {
        Some(v) => v,
        None => {
            return None;
        },
    };
    let wj = match j.get(&String::from_str("workloads")) {
        Some(v) => v,
        None => {
            return None;
        },
    };
    let sitems = match sj {
        Json::Arr(items) => items,
        _ => {
            return None;
        },
    };
    let witems = match wj {
        Json::Arr(items) => items,
        _ => {
            return None;
        },
    };
    proof {
        assert(sj@ == JsonV::Arr(arr_views(sitems@)));
        assert(wj@ == JsonV::Arr(arr_views(witems@)));
    }
    let scripts = match pairs_from_json(sitems) {
        Some(ps) => ps,
        None => {
            return None;
        },
    };
    let workloads = match wpairs_from_json(witems) {
        Some(ps) => ps,
        None => {
            return None;
        },
    };
    let b = ExperimentSnapshot { experiment, etna, scripts, workloads };
    proof {
        assert(b@.scripts =~= Seq::new(b.scripts@.len(), |k: int| (b.scripts@[k].0@, b.scripts@[k].1@)));
        assert(b@.workloads =~= Seq::new(
            b.workloads@.len(),
            |k: int| (b.workloads@[k].0@, b.workloads@[k].1@),
        ));
        assert(bundle_of_json(j@) matches Some(b2) && b2 =~= b@);
    }
    Some(b)
}

fn experiment_from_json(j: &Json) -> (r: Option<Experiment>)
    ensures
        match r {
            Some(e) => experiment_of_json(j@) == Some(e@),
            None => experiment_of_json(j@) is None,
        },
{
    let name = match get_str_field(j, &String::from_str("name")) {
        Some(s) => s.clone(),
        None => {
            return None;
        },
    };
    let id = match get_str_field(j, &String::from_str("id")) {
        Some(s) => s.clone(),
        None => {
            return None;
        },
    };
    let description = match get_str_field(j, &String::from_str("description")) {
        Some(s) => s.clone(),
        None => {
            return None;
        },
    };
    let path = match get_str_field(j, &String::from_str("path")) {
        Some(s) => s.clone(),
        None => {
            return None;
        },
    };
    let bj = match j.get(&String::from_str("snapshot")) {
        Some(v) => v,
        None => {
            return None;
        },
    };
    match bundle_from_json(bj) {
        Some(snapshot) => Some(Experiment { name, id, description, path, snapshot }),
        None => None,
    }
}

/// The store a parsed document encodes.  A document of any other shape is
/// rejected whole.
pub fn store_from_json(j: &Json) -> (r: Result<Store, StoreError>)
    ensures
        match r {
            Ok(st) => store_of_json(j@) == Some(st@),
            Err(e) => store_of_json(j@) is None && e@ == StoreErrorV::NotAStore,
        },
{
    let mj = match j.get(&String::from_str("metrics")) {
        Some(v) => v,
        None => {
            return Err(StoreError::NotAStore);
        },
    };
    let sj = match j.get(&String::from_str("snapshots")) {
        Some(v) => v,
        None => {
            return Err(StoreError::NotAStore);
        },
    };
    let ej = match j.get(&String::from_str("experiments")) {
        Some(v) => v,
        None => {
            return Err(StoreError::NotAStore);
        },
    };
    let mitems = match mj {
        Json::Arr(items) => items,
        _ => {
            return Err(StoreError::NotAStore);
        },
    };
    let sitems = match sj {
        Json::Arr(items) => items,
        _ => {
            return Err(StoreError::NotAStore);
        },
    };
    let eitems = match ej {
        Json::Arr(items) => items,
        _ => {
            return Err(StoreError::NotAStore);
        },
    };
    proof {
        assert(mj@ == JsonV::Arr(arr_views(mitems@)));
        assert(sj@ == JsonV::Arr(arr_views(sitems@)));
        assert(ej@ == JsonV::Arr(arr_views(eitems@)));
    }
    let metrics = match metrics_from_json(mitems) {
        Some(ms) => ms,
        None => {
            return Err(StoreError::NotAStore);
        },
    };
    let snapshots = match snapshots_from_json(sitems) {
        Some(ms) => ms,
        None => {
            return Err(StoreError::NotAStore);
        },
    };
    let experiments = match experiments_from_json(eitems) {
        Some(ms) => ms,
        None => {
            return Err(StoreError::NotAStore);
        },
    };
    let st = Store { metrics, snapshots, experiments };
    proof {
        assert(st@.metrics =~= Seq::new(st.metrics@.len(), |k: int| st.metrics@[k]@));
        assert(st@.snapshots =~= Seq::new(st.snapshots@.len(), |k: int| st.snapshots@[k]@));
        assert(st@.experiments =~= Seq::new(st.experiments@.len(), |k: int| st.experiments@[k]@));
        assert(store_of_json(j@) matches Some(s2) && s2 =~= st@);
    }
    Ok(st)
}

/// A store from its persisted text: the parsed document, decoded.  A
/// malformed text is a syntax error naming the text; a well-formed
/// document of another shape is rejected as no store.
pub fn store_from_string(s: &String) -> (r: Result<Store, StoreError>)
    ensures
        match r {
            Ok(st) => parse_json(s@) matches Some(d) && store_of_json(d) == Some(st@),
            Err(e) => {
                if parse_json(s@) is None {
                    (e@ matches StoreErrorV::JsonSyntax { at: _, text } && text == s@)
                } else {
                    e@ == StoreErrorV::NotAStore && store_of_json(parse_json(s@)->Some_0) is None
                }
            },
        },
{
    let j = match json_from_string(s) {
        Ok(j) => j,
        Err(e) => {
            return Err(e);
        },
    };
    store_from_json(&j)
}



} // verus!
