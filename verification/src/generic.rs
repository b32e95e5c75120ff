use vstd::prelude::*;

use vstd::string::StringExecFns;

use crate::codec::{
    experiment_json, get_str_field, kind_json, metric_json, snapshot_json, store_json, str_field,
};
use crate::errors::{StoreError, StoreErrorV};
use crate::json::{arr_views, obj_views, Json};
use crate::snapshot::parse_rfc3339_seconds;
use crate::experiment::ExperimentV;
use crate::json::{doc_lookup, superset_match, JsonV};
use crate::snapshot::{rfc3339_sec, SnapshotTypeV, SnapshotV};
use crate::store::{
    experiments_named, find_experiment, find_snapshot, is_candidate, kind_name, latest_candidate,
    metrics_for, snapshots_named, MetricV, StoreV,
};

verus! {

broadcast use vstd::seq_lib::group_filter_ensures;

// --- The generic resolver's view of the document ----------------------
//
// The generic resolver never touches the typed records: it reads the
// store serialized as one JSON document, the same way a filter program
// would.  Its results are documents; the typed resolver's are records.
// The lemmas at the end prove both paths agree on every query kind they
// share.

/// The array bound to `key` at the top of the document; nothing else.
pub open spec fn g_items(doc: JsonV, key: Seq<char>) -> Seq<JsonV> {
    match doc_lookup(doc, key) {
        Some(JsonV::Arr(items)) => items,
        _ => Seq::empty(),
    }
}

/// The first element whose string field `key` is `val`.
pub open spec fn g_first(items: Seq<JsonV>, key: Seq<char>, val: Seq<char>) -> Option<JsonV>
    decreases items.len(),
{
    if items.len() == 0 {
        None
    } else if str_field(items[0], key) == Some(val) {
        Some(items[0])
    } else {
        g_first(items.drop_first(), key, val)
    }
}

/// Every element whose string field `key` is `val`, in order.
pub open spec fn g_filter_field(items: Seq<JsonV>, key: Seq<char>, val: Seq<char>) -> Seq<JsonV> {
    items.filter(|j: JsonV| str_field(j, key) == Some(val))
}

/// The name a serialized snapshot's kind carries, if any.
pub open spec fn g_kindname(j: JsonV) -> Option<Seq<char>> {
    match doc_lookup(j, "typ"@) {
        Some(t) => if doc_lookup(t, "script"@) is Some {
            str_field(doc_lookup(t, "script"@)->Some_0, "name"@)
        } else if doc_lookup(t, "workload"@) is Some {
            str_field(doc_lookup(t, "workload"@)->Some_0, "name"@)
        } else {
            None
        },
        None => None,
    }
}

/// The recency timestamp a serialized snapshot orders by, if any.
pub open spec fn g_time(j: JsonV) -> Option<i64> {
    match doc_lookup(j, "typ"@) {
        Some(t) => match doc_lookup(t, "experiment"@) {
            Some(inner) => match str_field(inner, "time"@) {
                Some(ts) => rfc3339_sec(ts),
                None => None,
            },
            None => None,
        },
        None => None,
    }
}

/// Every serialized snapshot whose kind carries `name`.
pub open spec fn g_snapshots_named(items: Seq<JsonV>, name: Seq<char>) -> Seq<JsonV> {
    items.filter(|j: JsonV| g_kindname(j) == Some(name))
}

/// Whether a serialized snapshot can stand for the current version of an
/// experiment named `name`.
pub open spec fn g_is_candidate(j: JsonV, exps: Seq<JsonV>, name: Seq<char>) -> bool {
    &&& g_time(j) is Some
    &&& str_field(j, "hash"@) is Some
    &&& exists|k: int|
        0 <= k < exps.len() && str_field(#[trigger] exps[k], "name"@) == Some(name) && str_field(
            exps[k],
            "id"@,
        ) == str_field(j, "hash"@)
}

/// The most recent serialized candidate, ties to the earliest.
pub open spec fn g_latest(snaps: Seq<JsonV>, exps: Seq<JsonV>, name: Seq<char>) -> Option<JsonV>
    decreases snaps.len(),
{
    if snaps.len() == 0 {
        None
    } else {
        let rest = g_latest(snaps.drop_last(), exps, name);
        let last = snaps.last();
        if !g_is_candidate(last, exps, name) {
            rest
        } else {
            match rest {
                None => Some(last),
                Some(b) => if g_time(last)->0 > g_time(b)->0 {
                    Some(last)
                } else {
                    Some(b)
                },
            }
        }
    }
}

/// Every serialized metric whose payload matches every given field.
pub open spec fn g_metrics_matching(items: Seq<JsonV>, fields: Seq<(Seq<char>, JsonV)>) -> Seq<
    JsonV,
> {
    items.filter(
        |j: JsonV|
            doc_lookup(j, "data"@) matches Some(d) && superset_match(d, fields),
    )
}

/// Every serialized snapshot whose own document matches every given field.
pub open spec fn g_docs_matching(items: Seq<JsonV>, fields: Seq<(Seq<char>, JsonV)>) -> Seq<JsonV> {
    items.filter(|j: JsonV| superset_match(j, fields))
}

// --- What the serialized records show ---------------------------------

/// A serialized experiment shows its name, id and description fields.
pub proof fn lemma_experiment_fields(e: ExperimentV)
    ensures
        str_field(experiment_json(e), "name"@) == Some(e.name),
        str_field(experiment_json(e), "id"@) == Some(e.id),
{
    crate::codec::field_names_distinct();
    let ms = experiment_json(e)->Obj_0;
    assert(ms.drop_first() =~= ms.subrange(1, 5));
    assert(ms.subrange(1, 5).drop_first() =~= ms.subrange(2, 5));
    reveal_with_fuel(crate::json::obj_lookup, 3);
    assert(crate::json::obj_lookup(ms, "name"@) == Some(JsonV::Str(e.name)));
    assert(crate::json::obj_lookup(ms, "id"@) == Some(JsonV::Str(e.id)));
}

/// A serialized metric shows its payload and its experiment tag.
pub proof fn lemma_metric_fields(m: MetricV)
    ensures
        str_field(metric_json(m), "experiment_id"@) == Some(m.experiment_id),
        doc_lookup(metric_json(m), "data"@) == Some(m.data),
{
    crate::codec::field_names_distinct();
    let ms = metric_json(m)->Obj_0;
    assert(ms.drop_first() =~= seq![("experiment_id"@, JsonV::Str(m.experiment_id))]);
    reveal_with_fuel(crate::json::obj_lookup, 3);
    assert(crate::json::obj_lookup(ms, "data"@) == Some(m.data));
    assert(crate::json::obj_lookup(ms, "experiment_id"@) == Some(JsonV::Str(m.experiment_id)));
}

/// A serialized snapshot shows its hash, its kind's name and its
/// timestamp exactly as the record does.
pub proof fn lemma_snapshot_fields(x: SnapshotV)
    ensures
        str_field(snapshot_json(x), "hash"@) == Some(x.hash),
        g_kindname(snapshot_json(x)) == kind_name(x.typ),
        g_time(snapshot_json(x)) == x.typ.spec_time(),
{
    crate::codec::field_names_distinct();
    let ms = snapshot_json(x)->Obj_0;
    assert(ms.drop_first() =~= seq![("typ"@, kind_json(x.typ)), ("hash"@, JsonV::Str(x.hash))]);
    assert(ms.drop_first().drop_first() =~= seq![("hash"@, JsonV::Str(x.hash))]);
    reveal_with_fuel(crate::json::obj_lookup, 4);
    assert(crate::json::obj_lookup(ms, "typ"@) == Some(kind_json(x.typ)));
    assert(crate::json::obj_lookup(ms, "hash"@) == Some(JsonV::Str(x.hash)));
    match x.typ {
        SnapshotTypeV::Etna { branch } => {
            let kms = kind_json(x.typ)->Obj_0;
            assert(kms.drop_first() =~= Seq::<(Seq<char>, JsonV)>::empty());
            assert(crate::json::obj_lookup(kms, "script"@) is None);
            assert(crate::json::obj_lookup(kms, "workload"@) is None);
            assert(crate::json::obj_lookup(kms, "experiment"@) is None);
        },
        SnapshotTypeV::Script { name } => {
            let kms = kind_json(x.typ)->Obj_0;
            let inner = seq![("name"@, JsonV::Str(name))];
            assert(kms.drop_first() =~= Seq::<(Seq<char>, JsonV)>::empty());
            assert(inner.drop_first() =~= Seq::<(Seq<char>, JsonV)>::empty());
            assert(crate::json::obj_lookup(kms, "script"@) == Some(JsonV::Obj(inner)));
            assert(crate::json::obj_lookup(inner, "name"@) == Some(JsonV::Str(name)));
            assert(crate::json::obj_lookup(kms, "experiment"@) is None);
        },
        SnapshotTypeV::Workload { name, language } => {
            let kms = kind_json(x.typ)->Obj_0;
            let inner = seq![("name"@, JsonV::Str(name)), ("language"@, JsonV::Str(language))];
            assert(kms.drop_first() =~= Seq::<(Seq<char>, JsonV)>::empty());
            assert(inner.drop_first() =~= seq![("language"@, JsonV::Str(language))]);
            assert(crate::json::obj_lookup(kms, "script"@) is None);
            assert(crate::json::obj_lookup(kms, "workload"@) == Some(JsonV::Obj(inner)));
            assert(crate::json::obj_lookup(inner, "name"@) == Some(JsonV::Str(name)));
            assert(crate::json::obj_lookup(kms, "experiment"@) is None);
        },
        SnapshotTypeV::Experiment { time } => {
            let kms = kind_json(x.typ)->Obj_0;
            let inner = seq![("time"@, JsonV::Str(time))];
            assert(kms.drop_first() =~= Seq::<(Seq<char>, JsonV)>::empty());
            assert(inner.drop_first() =~= Seq::<(Seq<char>, JsonV)>::empty());
            assert(crate::json::obj_lookup(kms, "script"@) is None);
            assert(crate::json::obj_lookup(kms, "workload"@) is None);
            assert(crate::json::obj_lookup(kms, "experiment"@) == Some(JsonV::Obj(inner)));
            assert(crate::json::obj_lookup(inner, "time"@) == Some(JsonV::Str(time)));
        },
    }
}

/// The document of a store carries exactly its three serialized arrays.
pub proof fn lemma_store_arrays(s: StoreV)
    ensures
        g_items(store_json(s), "metrics"@) == s.metrics.map_values(|m: MetricV| metric_json(m)),
        g_items(store_json(s), "snapshots"@) == s.snapshots.map_values(
            |x: SnapshotV| snapshot_json(x),
        ),
        g_items(store_json(s), "experiments"@) == s.experiments.map_values(
            |e: ExperimentV| experiment_json(e),
        ),
{
    crate::codec::field_names_distinct();
    let mj = JsonV::Arr(s.metrics.map_values(|m: MetricV| metric_json(m)));
    let sj = JsonV::Arr(s.snapshots.map_values(|x: SnapshotV| snapshot_json(x)));
    let ej = JsonV::Arr(s.experiments.map_values(|e: ExperimentV| experiment_json(e)));
    let ms = seq![("metrics"@, mj), ("snapshots"@, sj), ("experiments"@, ej)];
    assert(ms.drop_first() =~= seq![("snapshots"@, sj), ("experiments"@, ej)]);
    assert(ms.drop_first().drop_first() =~= seq![("experiments"@, ej)]);
    reveal_with_fuel(crate::json::obj_lookup, 4);
    assert(crate::json::obj_lookup(ms, "metrics"@) == Some(mj));
    assert(crate::json::obj_lookup(ms, "snapshots"@) == Some(sj));
    assert(crate::json::obj_lookup(ms, "experiments"@) == Some(ej));
}

// --- Resolver equivalence ---------------------------------------------
//
// The six query kinds both resolvers implement return the same records:
// what the typed resolver finds among the records, the generic resolver
// finds among their serialized documents, element for element.

/// Mapping a sequence and filtering the images is filtering first and
/// mapping after, whenever the predicates agree across the map.
pub proof fn lemma_filter_map<A, B>(
    s: Seq<A>,
    f: spec_fn(A) -> B,
    p: spec_fn(A) -> bool,
    q: spec_fn(B) -> bool,
)
    requires
        forall|a: A| p(a) == #[trigger] q(f(a)),
    ensures
        s.map_values(f).filter(q) == s.filter(p).map_values(f),
    decreases s.len(),
{
    reveal(Seq::filter);
    if s.len() == 0 {
        assert(s.map_values(f).filter(q) =~= s.filter(p).map_values(f));
    } else {
        lemma_filter_map(s.drop_last(), f, p, q);
        let m = s.map_values(f);
        assert(m.drop_last() =~= s.drop_last().map_values(f));
        assert(m.last() == f(s.last()));
        if p(s.last()) {
            assert(s.filter(p) == s.drop_last().filter(p).push(s.last()));
            assert(s.filter(p).map_values(f) =~= s.drop_last().filter(p).map_values(f).push(
                f(s.last()),
            ));
        }
    }
}

/// The generic first-by-id search finds the serialized form of the very
/// experiment the typed search finds.
pub proof fn lemma_first_by_id(es: Seq<ExperimentV>, id: Seq<char>)
    ensures
        g_first(es.map_values(|e: ExperimentV| experiment_json(e)), "id"@, id) == match find_experiment(
            es,
            id,
        ) {
            Some(e) => Some(experiment_json(e)),
            None => None::<JsonV>,
        },
    decreases es.len(),
{
    let m = es.map_values(|e: ExperimentV| experiment_json(e));
    if es.len() > 0 {
        lemma_experiment_fields(es[0]);
        assert(m[0] == experiment_json(es[0]));
        assert(m.drop_first() =~= es.drop_first().map_values(|e: ExperimentV| experiment_json(e)));
        lemma_first_by_id(es.drop_first(), id);
    }
}

/// The generic first-by-hash search finds the serialized form of the very
/// snapshot the typed search finds.
pub proof fn lemma_first_by_hash(xs: Seq<SnapshotV>, hash: Seq<char>)
    ensures
        g_first(xs.map_values(|x: SnapshotV| snapshot_json(x)), "hash"@, hash) == match find_snapshot(
            xs,
            hash,
        ) {
            Some(x) => Some(snapshot_json(x)),
            None => None::<JsonV>,
        },
    decreases xs.len(),
{
    let m = xs.map_values(|x: SnapshotV| snapshot_json(x));
    if xs.len() > 0 {
        lemma_snapshot_fields(xs[0]);
        assert(m[0] == snapshot_json(xs[0]));
        assert(m.drop_first() =~= xs.drop_first().map_values(|x: SnapshotV| snapshot_json(x)));
        lemma_first_by_hash(xs.drop_first(), hash);
    }
}

/// A serialized snapshot is a candidate for `name` exactly where its
/// record is.
pub proof fn lemma_candidate_equiv(x: SnapshotV, exps: Seq<ExperimentV>, name: Seq<char>)
    ensures
        g_is_candidate(
            snapshot_json(x),
            exps.map_values(|e: ExperimentV| experiment_json(e)),
            name,
        ) == is_candidate(x, exps, name),
{
    lemma_snapshot_fields(x);
    let m = exps.map_values(|e: ExperimentV| experiment_json(e));
    if is_candidate(x, exps, name) {
        let j = choose|j: int|
            0 <= j < exps.len() && (#[trigger] exps[j]).name == name && exps[j].id == x.hash;
        lemma_experiment_fields(exps[j]);
        assert(m[j] == experiment_json(exps[j]));
        assert(str_field(m[j], "name"@) == Some(name) && str_field(m[j], "id"@) == str_field(
            snapshot_json(x),
            "hash"@,
        ));
        assert(g_is_candidate(snapshot_json(x), m, name));
    }
    if g_is_candidate(snapshot_json(x), m, name) {
        let k = choose|k: int|
            0 <= k < m.len() && str_field(#[trigger] m[k], "name"@) == Some(name) && str_field(
                m[k],
                "id"@,
            ) == str_field(snapshot_json(x), "hash"@);
        lemma_experiment_fields(exps[k]);
        assert(m[k] == experiment_json(exps[k]));
        assert(exps[k].name == name && exps[k].id == x.hash);
        assert(is_candidate(x, exps, name));
    }
}

/// The generic latest-candidate search finds the serialized form of the
/// very snapshot the typed search finds.
pub proof fn lemma_latest_equiv(snaps: Seq<SnapshotV>, exps: Seq<ExperimentV>, name: Seq<char>)
    ensures
        g_latest(
            snaps.map_values(|x: SnapshotV| snapshot_json(x)),
            exps.map_values(|e: ExperimentV| experiment_json(e)),
            name,
        ) == match latest_candidate(snaps, exps, name) {
            Some(b) => Some(snapshot_json(b)),
            None => None::<JsonV>,
        },
    decreases snaps.len(),
{
    let m = snaps.map_values(|x: SnapshotV| snapshot_json(x));
    if snaps.len() > 0 {
        assert(m.drop_last() =~= snaps.drop_last().map_values(|x: SnapshotV| snapshot_json(x)));
        assert(m.last() == snapshot_json(snaps.last()));
        lemma_latest_equiv(snaps.drop_last(), exps, name);
        lemma_candidate_equiv(snaps.last(), exps, name);
        lemma_snapshot_fields(snaps.last());
        match latest_candidate(snaps.drop_last(), exps, name) {
            Some(b) => {
                lemma_snapshot_fields(b);
            },
            None => {},
        }
    }
}

/// Resolver equivalence, by id: on a fixed store, the generic resolver's
/// experiment-by-id answer is exactly the serialized form of the typed
/// resolver's.
pub proof fn lemma_equiv_experiment_by_id(s: StoreV, id: Seq<char>)
    ensures
        g_first(g_items(store_json(s), "experiments"@), "id"@, id) == match find_experiment(
            s.experiments,
            id,
        ) {
            Some(e) => Some(experiment_json(e)),
            None => None::<JsonV>,
        },
{
    lemma_store_arrays(s);
    lemma_first_by_id(s.experiments, id);
}

/// Resolver equivalence, all by name: the generic filter returns the
/// serialized forms of exactly the records the typed filter returns, in
/// the same order.
pub proof fn lemma_equiv_all_experiments_by_name(s: StoreV, name: Seq<char>)
    ensures
        g_filter_field(g_items(store_json(s), "experiments"@), "name"@, name) == experiments_named(
            s.experiments,
            name,
        ).map_values(|e: ExperimentV| experiment_json(e)),
{
    lemma_store_arrays(s);
    let f = |e: ExperimentV| experiment_json(e);
    let p = |e: ExperimentV| e.name == name;
    let q = |j: JsonV| str_field(j, "name"@) == Some(name);
    assert forall|a: ExperimentV| p(a) == #[trigger] q(f(a)) by {
        lemma_experiment_fields(a);
    }
    lemma_filter_map(s.experiments, f, p, q);
}

/// Resolver equivalence, metrics by experiment id.
pub proof fn lemma_equiv_metrics_by_experiment_id(s: StoreV, id: Seq<char>)
    ensures
        g_filter_field(g_items(store_json(s), "metrics"@), "experiment_id"@, id) == metrics_for(
            s.metrics,
            id,
        ).map_values(|m: MetricV| metric_json(m)),
{
    lemma_store_arrays(s);
    let f = |m: MetricV| metric_json(m);
    let p = |m: MetricV| m.experiment_id == id;
    let q = |j: JsonV| str_field(j, "experiment_id"@) == Some(id);
    assert forall|a: MetricV| p(a) == #[trigger] q(f(a)) by {
        lemma_metric_fields(a);
    }
    lemma_filter_map(s.metrics, f, p, q);
}

/// Resolver equivalence, snapshots by name.
pub proof fn lemma_equiv_snapshots_by_name(s: StoreV, name: Seq<char>)
    ensures
        g_snapshots_named(g_items(store_json(s), "snapshots"@), name) == snapshots_named(
            s.snapshots,
            name,
        ).map_values(|x: SnapshotV| snapshot_json(x)),
{
    lemma_store_arrays(s);
    let f = |x: SnapshotV| snapshot_json(x);
    let p = |x: SnapshotV| kind_name(x.typ) == Some(name);
    let q = |j: JsonV| g_kindname(j) == Some(name);
    assert forall|a: SnapshotV| p(a) == #[trigger] q(f(a)) by {
        lemma_snapshot_fields(a);
    }
    lemma_filter_map(s.snapshots, f, p, q);
}

/// Resolver equivalence, snapshot by hash.
pub proof fn lemma_equiv_snapshot_by_hash(s: StoreV, hash: Seq<char>)
    ensures
        g_first(g_items(store_json(s), "snapshots"@), "hash"@, hash) == match find_snapshot(
            s.snapshots,
            hash,
        ) {
            Some(x) => Some(snapshot_json(x)),
            None => None::<JsonV>,
        },
{
    lemma_store_arrays(s);
    lemma_first_by_hash(s.snapshots, hash);
}

/// Resolver equivalence, latest by name: the generic search over the
/// document picks the serialized form of the snapshot the typed search
/// picks, and resolves it to the serialized form of the same experiment.
pub proof fn lemma_equiv_experiment_by_name(s: StoreV, name: Seq<char>)
    ensures
        g_latest(
            g_items(store_json(s), "snapshots"@),
            g_items(store_json(s), "experiments"@),
            name,
        ) == match latest_candidate(s.snapshots, s.experiments, name) {
            Some(b) => Some(snapshot_json(b)),
            None => None::<JsonV>,
        },
        latest_candidate(s.snapshots, s.experiments, name) matches Some(b) ==> g_first(
            g_items(store_json(s), "experiments"@),
            "id"@,
            b.hash,
        ) == match find_experiment(s.experiments, b.hash) {
            Some(e) => Some(experiment_json(e)),
            None => None::<JsonV>,
        },
{
    lemma_store_arrays(s);
    lemma_latest_equiv(s.snapshots, s.experiments, name);
    match latest_candidate(s.snapshots, s.experiments, name) {
        Some(b) => {
            lemma_first_by_id(s.experiments, b.hash);
        },
        None => {},
    }
}

// --- The executable generic resolver ----------------------------------

/// One filter step for a string-field match.
pub proof fn lemma_g_filter_field_push(items: Seq<JsonV>, x: JsonV, key: Seq<char>, val: Seq<char>)
    ensures
        g_filter_field(items.push(x), key, val) == if str_field(x, key) == Some(val) {
            g_filter_field(items, key, val).push(x)
        } else {
            g_filter_field(items, key, val)
        },
{
    reveal(Seq::filter);
    assert(items.push(x).drop_last() =~= items);
    assert(items.push(x).last() == x);
}

/// One filter step for a kind-name match.
pub proof fn lemma_g_snapshots_named_push(items: Seq<JsonV>, x: JsonV, name: Seq<char>)
    ensures
        g_snapshots_named(items.push(x), name) == if g_kindname(x) == Some(name) {
            g_snapshots_named(items, name).push(x)
        } else {
            g_snapshots_named(items, name)
        },
{
    reveal(Seq::filter);
    assert(items.push(x).drop_last() =~= items);
    assert(items.push(x).last() == x);
}

/// One filter step for a metric field match.
pub proof fn lemma_g_metrics_matching_push(
    items: Seq<JsonV>,
    x: JsonV,
    fields: Seq<(Seq<char>, JsonV)>,
)
    ensures
        g_metrics_matching(items.push(x), fields) == if doc_lookup(x, "data"@) matches Some(d)
            && superset_match(d, fields) {
            g_metrics_matching(items, fields).push(x)
        } else {
            g_metrics_matching(items, fields)
        },
{
    reveal(Seq::filter);
    assert(items.push(x).drop_last() =~= items);
    assert(items.push(x).last() == x);
}

/// One filter step for a whole-document field match.
pub proof fn lemma_g_docs_matching_push(
    items: Seq<JsonV>,
    x: JsonV,
    fields: Seq<(Seq<char>, JsonV)>,
)
    ensures
        g_docs_matching(items.push(x), fields) == if superset_match(x, fields) {
            g_docs_matching(items, fields).push(x)
        } else {
            g_docs_matching(items, fields)
        },
{
    reveal(Seq::filter);
    assert(items.push(x).drop_last() =~= items);
    assert(items.push(x).last() == x);
}

/// The serialized array under `key`, where the document has one.
fn doc_items<'a>(doc: &'a Json, key: &String) -> (r: Option<&'a Vec<Json>>)
    ensures
        match r {
            Some(v) => g_items(doc@, key@) == arr_views(v@),
            None => g_items(doc@, key@) == Seq::<JsonV>::empty(),
        },
{
    match doc.get(key) {
        Some(v) => match v {
            Json::Arr(items) => {
                proof {
                    assert(v@ == JsonV::Arr(arr_views(items@)));
                }
                Some(items)
            },
            _ => None,
        },
        None => None,
    }
}

/// The first element of `items` whose string field `key` is `val`, cloned
/// into a result row; no match yields no rows.
#[verifier::loop_isolation(false)]
fn first_with_field(items: &Vec<Json>, key: &String, val: &String) -> (r: Vec<Json>)
    ensures
        match g_first(arr_views(items@), key@, val@) {
            Some(v) => arr_views(r@) =~= seq![v],
            None => r@.len() == 0,
        },
{
    let ghost full = arr_views(items@);
    proof {
        assert(full.skip(0) =~= full);
    }
    let mut i: usize = 0;
    while i < items.len()
        invariant
            i <= items@.len(),
            g_first(full, key@, val@) == g_first(full.skip(i as int), key@, val@),
        decreases items@.len() - i,
    {
        proof {
            assert(full.skip(i as int)[0] == full[i as int]);
            assert(full.skip(i as int).drop_first() =~= full.skip(i as int + 1));
            reveal_with_fuel(g_first, 2);
        }
        let matched = match get_str_field(&items[i], key) {
            Some(s) => *s == *val,
            None => false,
        };
        if matched {
            let mut out: Vec<Json> = Vec::new();
            out.push(items[i].clone());
            proof {
                assert(arr_views(out@) =~= seq![full[i as int]]);
            }
            return out;
        }
        i = i + 1;
    }
    proof {
        assert(full.skip(full.len() as int).len() == 0);
    }
    Vec::new()
}

/// Every element of `items` whose string field `key` is `val`, cloned in
/// order.
#[verifier::loop_isolation(false)]
fn all_with_field(items: &Vec<Json>, key: &String, val: &String) -> (r: Vec<Json>)
    ensures
        arr_views(r@) =~= g_filter_field(arr_views(items@), key@, val@),
{
    let ghost full = arr_views(items@);
    let mut out: Vec<Json> = Vec::new();
    let mut i: usize = 0;
    while i < items.len()
        invariant
            i <= items@.len(),
            arr_views(out@) =~= g_filter_field(full.take(i as int), key@, val@),
        decreases items@.len() - i,
    {
        proof {
            assert(full.take(i as int + 1) =~= full.take(i as int).push(full[i as int]));
            lemma_g_filter_field_push(full.take(i as int), full[i as int], key@, val@);
        }
        let matched = match get_str_field(&items[i], key) {
            Some(s) => *s == *val,
            None => false,
        };
        if matched {
            let ghost prev = out@;
            out.push(items[i].clone());
            proof {
                assert(arr_views(out@) =~= arr_views(prev).push(full[i as int]));
            }
        }
        i = i + 1;
    }
    proof {
        assert(full.take(full.len() as int) =~= full);
    }
    out
}

/// The generic resolver's experiment-by-id answer: at most one serialized
/// experiment.
pub fn experiment_by_id(doc: &Json, id: &String) -> (r: Vec<Json>)
    ensures
        match g_first(g_items(doc@, "experiments"@), "id"@, id@) {
            Some(v) => arr_views(r@) =~= seq![v],
            None => r@.len() == 0,
        },
{
    match doc_items(doc, &String::from_str("experiments")) {
        Some(items) => first_with_field(items, &String::from_str("id"), id),
        None => {
            proof {
                reveal_with_fuel(g_first, 1);
            }
            Vec::new()
        },
    }
}

/// The generic resolver's experiments-by-name answer: every serialized
/// experiment of that name, in order.
pub fn all_experiments_by_name(doc: &Json, name: &String) -> (r: Vec<Json>)
    ensures
        arr_views(r@) =~= g_filter_field(g_items(doc@, "experiments"@), "name"@, name@),
{
    match doc_items(doc, &String::from_str("experiments")) {
        Some(items) => all_with_field(items, &String::from_str("name"), name),
        None => {
            proof {
                reveal(Seq::filter);
            }
            Vec::new()
        },
    }
}

/// The generic resolver's metrics-by-experiment-id answer.
pub fn metrics_by_experiment_id(doc: &Json, id: &String) -> (r: Vec<Json>)
    ensures
        arr_views(r@) =~= g_filter_field(g_items(doc@, "metrics"@), "experiment_id"@, id@),
{
    match doc_items(doc, &String::from_str("metrics")) {
        Some(items) => all_with_field(items, &String::from_str("experiment_id"), id),
        None => {
            proof {
                reveal(Seq::filter);
            }
            Vec::new()
        },
    }
}

/// The generic resolver's snapshot-by-hash answer: at most one serialized
/// snapshot.
pub fn snapshot_by_hash(doc: &Json, hash: &String) -> (r: Vec<Json>)
    ensures
        match g_first(g_items(doc@, "snapshots"@), "hash"@, hash@) {
            Some(v) => arr_views(r@) =~= seq![v],
            None => r@.len() == 0,
        },
{
    match doc_items(doc, &String::from_str("snapshots")) {
        Some(items) => first_with_field(items, &String::from_str("hash"), hash),
        None => {
            proof {
                reveal_with_fuel(g_first, 1);
            }
            Vec::new()
        },
    }
}

/// The name a serialized snapshot's kind carries, executably.
fn kindname_of<'a>(j: &'a Json) -> (r: Option<&'a String>)
    ensures
        match r {
            Some(s) => g_kindname(j@) == Some(s@),
            None => g_kindname(j@) is None,
        },
{
    let t = match j.get(&String::from_str("typ")) {
        Some(t) => t,
        None => {
            return None;
        },
    };
    match t.get(&String::from_str("script")) {
        Some(inner) => {
            return get_str_field(inner, &String::from_str("name"));
        },
        None => {},
    }
    match t.get(&String::from_str("workload")) {
        Some(inner) => {
            return get_str_field(inner, &String::from_str("name"));
        },
        None => {},
    }
    None
}

/// The generic resolver's snapshots-by-name answer.
#[verifier::loop_isolation(false)]
pub fn snapshots_by_name(doc: &Json, name: &String) -> (r: Vec<Json>)
    ensures
        arr_views(r@) =~= g_snapshots_named(g_items(doc@, "snapshots"@), name@),
{
    let items = match doc_items(doc, &String::from_str("snapshots")) {
        Some(items) => items,
        None => {
            proof {
                reveal(Seq::filter);
            }
            return Vec::new();
        },
    };
    let ghost full = arr_views(items@);
    let mut out: Vec<Json> = Vec::new();
    let mut i: usize = 0;
    while i < items.len()
        invariant
            i <= items@.len(),
            arr_views(out@) =~= g_snapshots_named(full.take(i as int), name@),
        decreases items@.len() - i,
    {
        proof {
            assert(full.take(i as int + 1) =~= full.take(i as int).push(full[i as int]));
            lemma_g_snapshots_named_push(full.take(i as int), full[i as int], name@);
        }
        let matched = match kindname_of(&items[i]) {
            Some(s) => *s == *name,
            None => false,
        };
        if matched {
            let ghost prev = out@;
            out.push(items[i].clone());
            proof {
                assert(arr_views(out@) =~= arr_views(prev).push(full[i as int]));
            }
        }
        i = i + 1;
    }
    proof {
        assert(full.take(full.len() as int) =~= full);
    }
    out
}

/// The recency timestamp of a serialized snapshot, executably.
fn time_of(j: &Json) -> (r: Option<i64>)
    ensures
        r == g_time(j@),
{
    let t = match j.get(&String::from_str("typ")) {
        Some(t) => t,
        None => {
            return None;
        },
    };
    let inner = match t.get(&String::from_str("experiment")) {
        Some(inner) => inner,
        None => {
            return None;
        },
    };
    match get_str_field(inner, &String::from_str("time")) {
        Some(ts) => parse_rfc3339_seconds(ts.as_str()),
        None => None,
    }
}

/// Whether some serialized experiment carries both this name and this id.
#[verifier::loop_isolation(false)]
fn any_exp_with(exps: &Vec<Json>, name: &String, id: &String) -> (r: bool)
    ensures
        r == exists|k: int|
            0 <= k < arr_views(exps@).len() && str_field(#[trigger] arr_views(exps@)[k], "name"@)
                == Some(name@) && str_field(arr_views(exps@)[k], "id"@) == Some(id@),
{
    let ghost full = arr_views(exps@);
    let mut i: usize = 0;
    while i < exps.len()
        invariant
            i <= exps@.len(),
            forall|k: int|
                0 <= k < i ==> !(str_field(#[trigger] full[k], "name"@) == Some(name@) && str_field(
                    full[k],
                    "id"@,
                ) == Some(id@)),
        decreases exps@.len() - i,
    {
        let name_ok = match get_str_field(&exps[i], &String::from_str("name")) {
            Some(s) => *s == *name,
            None => false,
        };
        let id_ok = match get_str_field(&exps[i], &String::from_str("id")) {
            Some(s) => *s == *id,
            None => false,
        };
        if name_ok && id_ok {
            proof {
                assert(str_field(full[i as int], "name"@) == Some(name@));
            }
            return true;
        }
        i = i + 1;
    }
    false
}

/// Whatever the generic latest-candidate search returns is a candidate.
pub proof fn lemma_g_latest_is_candidate(snaps: Seq<JsonV>, exps: Seq<JsonV>, name: Seq<char>)
    ensures
        g_latest(snaps, exps, name) matches Some(b) ==> g_is_candidate(b, exps, name),
    decreases snaps.len(),
{
    if snaps.len() > 0 {
        lemma_g_latest_is_candidate(snaps.drop_last(), exps, name);
    }
}

/// With no serialized experiments there is no candidate to resolve.
pub proof fn lemma_g_latest_no_exps(snaps: Seq<JsonV>, exps: Seq<JsonV>, name: Seq<char>)
    requires
        exps.len() == 0,
    ensures
        g_latest(snaps, exps, name) is None,
    decreases snaps.len(),
{
    if snaps.len() > 0 {
        lemma_g_latest_no_exps(snaps.drop_last(), exps, name);
    }
}

/// The generic resolver's latest-by-name answer: the serialized
/// experiment whose id is the hash of the most recent matching
/// whole-experiment snapshot; no rows where nothing resolves.
#[verifier::loop_isolation(false)]
pub fn experiment_by_name(doc: &Json, name: &String) -> (r: Vec<Json>)
    ensures
        match g_latest(g_items(doc@, "snapshots"@), g_items(doc@, "experiments"@), name@) {
            Some(b) => match g_first(
                g_items(doc@, "experiments"@),
                "id"@,
                str_field(b, "hash"@)->Some_0,
            ) {
                Some(e) => arr_views(r@) =~= seq![e],
                None => r@.len() == 0,
            },
            None => r@.len() == 0,
        },
{
    let ghost sfull = g_items(doc@, "snapshots"@);
    let ghost efull = g_items(doc@, "experiments"@);
    let snaps = match doc_items(doc, &String::from_str("snapshots")) {
        Some(items) => items,
        None => {
            return Vec::new();
        },
    };
    let exps = match doc_items(doc, &String::from_str("experiments")) {
        Some(items) => items,
        None => {
            proof {
                lemma_g_latest_no_exps(sfull, efull, name@);
            }
            return Vec::new();
        },
    };
    let mut best: Option<&Json> = None;
    let mut best_time: i64 = 0;
    let mut i: usize = 0;
    while i < snaps.len()
        invariant
            i <= snaps@.len(),
            sfull == arr_views(snaps@),
            efull == arr_views(exps@),
            match best {
                None => g_latest(sfull.take(i as int), efull, name@) is None,
                Some(b) => {
                    &&& g_latest(sfull.take(i as int), efull, name@) == Some(b@)
                    &&& g_time(b@) == Some(best_time)
                },
            },
        decreases snaps@.len() - i,
    {
        let s = &snaps[i];
        let cand_time = time_of(s);
        let is_cand = match cand_time {
            Some(_) => match get_str_field(s, &String::from_str("hash")) {
                Some(h) => any_exp_with(exps, name, h),
                None => false,
            },
            None => false,
        };
        proof {
            assert(s@ == sfull[i as int]);
            assert(is_cand == g_is_candidate(sfull[i as int], efull, name@));
            assert(sfull.take(i as int + 1).drop_last() =~= sfull.take(i as int));
            assert(sfull.take(i as int + 1).last() == sfull[i as int]);
        }
        if is_cand {
            let t = match cand_time {
                Some(t) => t,
                None => 0,
            };
            match best {
                None => {
                    best = Some(s);
                    best_time = t;
                },
                Some(_) => {
                    if t > best_time {
                        best = Some(s);
                        best_time = t;
                    }
                },
            }
        }
        i = i + 1;
    }
    proof {
        assert(sfull.take(sfull.len() as int) =~= sfull);
    }
    match best {
        None => Vec::new(),
        Some(b) => {
            match get_str_field(b, &String::from_str("hash")) {
                Some(h) => first_with_field(exps, &String::from_str("id"), h),
                None => {
                    proof {
                        lemma_g_latest_is_candidate(sfull, efull, name@);
                        assert(false);
                    }
                    Vec::new()
                },
            }
        },
    }
}

/// The generic resolver's metrics-by-fields answer: every serialized
/// metric whose payload carries every given binding with an equal value.
/// A payload that is not a JSON object is refused, named in the error.
#[verifier::loop_isolation(false)]
pub fn metrics_by_fields(doc: &Json, fields: &Json) -> (r: Result<Vec<Json>, StoreError>)
    ensures
        match r {
            Ok(out) => fields@ matches JsonV::Obj(fs) && arr_views(out@) =~= g_metrics_matching(
                g_items(doc@, "metrics"@),
                fs,
            ),
            Err(e) => !(fields@ is Obj) && e@ == StoreErrorV::FieldsNotAnObject {
                given: crate::text::json_text(fields@),
            },
        },
{
    let fs = match fields {
        Json::Obj(fs) => fs,
        _ => {
            return Err(
                StoreError::FieldsNotAnObject { given: crate::text::json_to_string(fields) },
            );
        },
    };
    proof {
        assert(fields@ == JsonV::Obj(obj_views(fs@)));
    }
    let items = match doc_items(doc, &String::from_str("metrics")) {
        Some(items) => items,
        None => {
            proof {
                reveal(Seq::filter);
            }
            return Ok(Vec::new());
        },
    };
    let ghost full = arr_views(items@);
    let ghost fsv = obj_views(fs@);
    let mut out: Vec<Json> = Vec::new();
    let mut i: usize = 0;
    while i < items.len()
        invariant
            i <= items@.len(),
            arr_views(out@) =~= g_metrics_matching(full.take(i as int), fsv),
        decreases items@.len() - i,
    {
        proof {
            assert(full.take(i as int + 1) =~= full.take(i as int).push(full[i as int]));
            lemma_g_metrics_matching_push(full.take(i as int), full[i as int], fsv);
        }
        let matched = match items[i].get(&String::from_str("data")) {
            Some(d) => d.matches_fields(fs),
            None => false,
        };
        if matched {
            let ghost prev = out@;
            out.push(items[i].clone());
            proof {
                assert(arr_views(out@) =~= arr_views(prev).push(full[i as int]));
            }
        }
        i = i + 1;
    }
    proof {
        assert(full.take(full.len() as int) =~= full);
    }
    Ok(out)
}

/// The generic resolver's snapshots-by-fields answer: every serialized
/// snapshot whose own document carries every given binding.
#[verifier::loop_isolation(false)]
pub fn snapshots_by_fields(doc: &Json, fields: &Json) -> (r: Result<Vec<Json>, StoreError>)
    ensures
        match r {
            Ok(out) => fields@ matches JsonV::Obj(fs) && arr_views(out@) =~= g_docs_matching(
                g_items(doc@, "snapshots"@),
                fs,
            ),
            Err(e) => !(fields@ is Obj) && e@ == StoreErrorV::FieldsNotAnObject {
                given: crate::text::json_text(fields@),
            },
        },
{
    let fs = match fields {
        Json::Obj(fs) => fs,
        _ => {
            return Err(
                StoreError::FieldsNotAnObject { given: crate::text::json_to_string(fields) },
            );
        },
    };
    proof {
        assert(fields@ == JsonV::Obj(obj_views(fs@)));
    }
    let items = match doc_items(doc, &String::from_str("snapshots")) {
        Some(items) => items,
        None => {
            proof {
                reveal(Seq::filter);
            }
            return Ok(Vec::new());
        },
    };
    let ghost full = arr_views(items@);
    let ghost fsv = obj_views(fs@);
    let mut out: Vec<Json> = Vec::new();
    let mut i: usize = 0;
    while i < items.len()
        invariant
            i <= items@.len(),
            arr_views(out@) =~= g_docs_matching(full.take(i as int), fsv),
        decreases items@.len() - i,
    {
        proof {
            assert(full.take(i as int + 1) =~= full.take(i as int).push(full[i as int]));
            lemma_g_docs_matching_push(full.take(i as int), full[i as int], fsv);
        }
        let matched = items[i].matches_fields(fs);
        if matched {
            let ghost prev = out@;
            out.push(items[i].clone());
            proof {
                assert(arr_views(out@) =~= arr_views(prev).push(full[i as int]));
            }
        }
        i = i + 1;
    }
    proof {
        assert(full.take(full.len() as int) =~= full);
    }
    Ok(out)
}


} // verus!
