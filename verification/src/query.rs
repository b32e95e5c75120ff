use vstd::prelude::*;

use crate::codec::{experiment_json, metric_json, snapshot_json, experiment_to_json,
    metric_to_json, snapshot_to_json};
use crate::errors::{StoreError, StoreErrorV};
use crate::store::{
    experiments_named, find_experiment, find_snapshot, latest_candidate, metrics_for,
    snapshots_named, ref_views, Store, StoreV,
};
use crate::text::{json_text, json_to_string};

verus! {

/// The views of a sequence of output lines.
pub open spec fn row_views(rows: Seq<String>) -> Seq<Seq<char>> {
    rows.map_values(|s: String| s@)
}

/// A query against the store, resolvable by index lookup: one compact
/// line of text per record comes back.
pub trait Queriable {
    /// The lines this query must produce on a given store, or the error.
    spec fn spec_rows(&self, store: StoreV) -> Result<Seq<Seq<char>>, StoreErrorV>;

    /// Resolves the query.
    fn query(&self, store: &Store) -> (r: Result<Vec<String>, StoreError>)
        ensures
            match (r, self.spec_rows(store@)) {
                (Ok(rows), Ok(srows)) => row_views(rows@) == srows,
                (Err(e), Err(se)) => e@ == se,
                _ => false,
            },
    ;
}

/// The experiment query kinds the typed resolver answers.
pub enum ExperimentQuery {
    /// Exact match on `id`.
    Id(String),
    /// The current version among those carrying the name.
    NameLast(String),
    /// Every version carrying the name.
    NameAll(String),
}

/// The metric query kind the typed resolver answers.
pub enum MetricQuery {
    /// Every metric tagged with the experiment id.
    ByExperimentId(String),
}

/// The snapshot query kinds the typed resolver answers.
pub enum SnapshotQuery {
    /// Every snapshot whose kind carries the name.
    ByName(String),
    /// Exact match on the content hash.
    ByHash(String),
}

/// Any typed query.
pub enum SpecializedQuery {
    Experiment(ExperimentQuery),
    Metric(MetricQuery),
    Snapshot(SnapshotQuery),
}

impl Queriable for ExperimentQuery {
    open spec fn spec_rows(&self, store: StoreV) -> Result<Seq<Seq<char>>, StoreErrorV> {
        match self {
            ExperimentQuery::Id(hash) => match find_experiment(store.experiments, hash@) {
                Some(e) => Ok(seq![json_text(experiment_json(e))]),
                None => Err(StoreErrorV::ExperimentNotFound),
            },
            ExperimentQuery::NameLast(name) => {
                if experiments_named(store.experiments, name@).len() == 0 {
                    Err(StoreErrorV::ExperimentNotFound)
                } else {
                    match latest_candidate(store.snapshots, store.experiments, name@) {
                        None => Err(StoreErrorV::SnapshotNotFound),
                        Some(b) => match find_experiment(store.experiments, b.hash) {
                            Some(e) => Ok(seq![json_text(experiment_json(e))]),
                            None => Err(StoreErrorV::ExperimentNotFound),
                        },
                    }
                }
            },
            ExperimentQuery::NameAll(name) => Ok(
                experiments_named(store.experiments, name@).map_values(
                    |e: crate::experiment::ExperimentV| json_text(experiment_json(e)),
                ),
            ),
        }
    }

    #[verifier::loop_isolation(false)]
    fn query(&self, store: &Store) -> (r: Result<Vec<String>, StoreError>)
        ensures
            match (r, self.spec_rows(store@)) {
                (Ok(rows), Ok(srows)) => row_views(rows@) == srows,
                (Err(e), Err(se)) => e@ == se,
                _ => false,
            },
    {
        match self {
            ExperimentQuery::Id(hash) => {
                let e = match store.get_experiment_by_id(hash) {
                    Ok(e) => e,
                    Err(err) => {
                        return Err(err);
                    },
                };
                let j = experiment_to_json(e);
                let mut rows: Vec<String> = Vec::new();
                rows.push(json_to_string(&j));
                proof {
                    assert(row_views(rows@) =~= seq![
                        json_text(experiment_json(find_experiment(store@.experiments, hash@)->Some_0)),
                    ]);
                }
                Ok(rows)
            },
            ExperimentQuery::NameLast(name) => {
                let e = match store.get_experiment_by_name(name) {
                    Ok(e) => e,
                    Err(err) => {
                        return Err(err);
                    },
                };
                let j = experiment_to_json(e);
                let mut rows: Vec<String> = Vec::new();
                rows.push(json_to_string(&j));
                proof {
                    assert(row_views(rows@) =~= seq![json_text(experiment_json(e@))]);
                }
                Ok(rows)
            },
            ExperimentQuery::NameAll(name) => {
                let es = store.get_all_experiments_by_name(name);
                let ghost named = experiments_named(store@.experiments, name@);
                let mut rows: Vec<String> = Vec::new();
                let mut i: usize = 0;
                while i < es.len()
                    invariant
                        i <= es@.len(),
                        ref_views(es@) =~= named,
                        row_views(rows@) =~= named.take(i as int).map_values(
                            |e: crate::experiment::ExperimentV| json_text(experiment_json(e)),
                        ),
                    decreases es@.len() - i,
                {
                    let j = experiment_to_json(es[i]);
                    let ghost prevrows = rows@;
                    rows.push(json_to_string(&j));
                    proof {
                        assert(named.take(i as int + 1) =~= named.take(i as int).push(
                            named[i as int],
                        ));
                        assert(es@[i as int]@ == named[i as int]);
                        assert forall|q: int| 0 <= q < rows@.len() implies row_views(rows@)[q]
                            == named.take(i as int + 1).map_values(
                            |e: crate::experiment::ExperimentV| json_text(experiment_json(e)),
                        )[q] by {
                            if q < i as int {
                                assert(row_views(prevrows)[q] == named.take(i as int).map_values(
                                    |e: crate::experiment::ExperimentV| json_text(experiment_json(e)),
                                )[q]);
                                assert(rows@[q] == prevrows[q]);
                            }
                        }
                        assert(row_views(rows@) =~= named.take(i as int + 1).map_values(
                            |e: crate::experiment::ExperimentV| json_text(experiment_json(e)),
                        ));
                    }
                    i = i + 1;
                }
                proof {
                    assert(named.take(named.len() as int) =~= named);
                }
                Ok(rows)
            },
        }
    }
}

impl Queriable for MetricQuery {
    open spec fn spec_rows(&self, store: StoreV) -> Result<Seq<Seq<char>>, StoreErrorV> {
        match self {
            MetricQuery::ByExperimentId(hash) => Ok(
                metrics_for(store.metrics, hash@).map_values(
                    |m: crate::store::MetricV| json_text(metric_json(m)),
                ),
            ),
        }
    }

    #[verifier::loop_isolation(false)]
    fn query(&self, store: &Store) -> (r: Result<Vec<String>, StoreError>)
        ensures
            match (r, self.spec_rows(store@)) {
                (Ok(rows), Ok(srows)) => row_views(rows@) == srows,
                (Err(e), Err(se)) => e@ == se,
                _ => false,
            },
    {
        match self {
            MetricQuery::ByExperimentId(hash) => {
                let ms = store.get_metrics_by_experiment_id(hash);
                let ghost tagged = metrics_for(store@.metrics, hash@);
                let mut rows: Vec<String> = Vec::new();
                let mut i: usize = 0;
                while i < ms.len()
                    invariant
                        i <= ms@.len(),
                        ref_views(ms@) =~= tagged,
                        row_views(rows@) =~= tagged.take(i as int).map_values(
                            |m: crate::store::MetricV| json_text(metric_json(m)),
                        ),
                    decreases ms@.len() - i,
                {
                    let j = metric_to_json(ms[i]);
                    let ghost prevrows = rows@;
                    rows.push(json_to_string(&j));
                    proof {
                        assert(tagged.take(i as int + 1) =~= tagged.take(i as int).push(
                            tagged[i as int],
                        ));
                        assert(ms@[i as int]@ == tagged[i as int]);
                        assert forall|q: int| 0 <= q < rows@.len() implies row_views(rows@)[q]
                            == tagged.take(i as int + 1).map_values(
                            |m: crate::store::MetricV| json_text(metric_json(m)),
                        )[q] by {
                            if q < i as int {
                                assert(row_views(prevrows)[q] == tagged.take(i as int).map_values(
                                    |m: crate::store::MetricV| json_text(metric_json(m)),
                                )[q]);
                                assert(rows@[q] == prevrows[q]);
                            }
                        }
                        assert(row_views(rows@) =~= tagged.take(i as int + 1).map_values(
                            |m: crate::store::MetricV| json_text(metric_json(m)),
                        ));
                    }
                    i = i + 1;
                }
                proof {
                    assert(tagged.take(tagged.len() as int) =~= tagged);
                }
                Ok(rows)
            },
        }
    }
}

impl Queriable for SnapshotQuery {
    open spec fn spec_rows(&self, store: StoreV) -> Result<Seq<Seq<char>>, StoreErrorV> {
        match self {
            SnapshotQuery::ByName(name) => Ok(
                snapshots_named(store.snapshots, name@).map_values(
                    |x: crate::snapshot::SnapshotV| json_text(snapshot_json(x)),
                ),
            ),
            SnapshotQuery::ByHash(hash) => match find_snapshot(store.snapshots, hash@) {
                Some(x) => Ok(seq![json_text(snapshot_json(x))]),
                None => Err(StoreErrorV::SnapshotNotFound),
            },
        }
    }

    #[verifier::loop_isolation(false)]
    fn query(&self, store: &Store) -> (r: Result<Vec<String>, StoreError>)
        ensures
            match (r, self.spec_rows(store@)) {
                (Ok(rows), Ok(srows)) => row_views(rows@) == srows,
                (Err(e), Err(se)) => e@ == se,
                _ => false,
            },
    {
        match self {
            SnapshotQuery::ByName(name) => {
                let xs = store.get_snapshots_by_name(name);
                let ghost named = snapshots_named(store@.snapshots, name@);
                let mut rows: Vec<String> = Vec::new();
                let mut i: usize = 0;
                while i < xs.len()
                    invariant
                        i <= xs@.len(),
                        ref_views(xs@) =~= named,
                        row_views(rows@) =~= named.take(i as int).map_values(
                            |x: crate::snapshot::SnapshotV| json_text(snapshot_json(x)),
                        ),
                    decreases xs@.len() - i,
                {
                    let j = snapshot_to_json(xs[i]);
                    let ghost prevrows = rows@;
                    rows.push(json_to_string(&j));
                    proof {
                        assert(named.take(i as int + 1) =~= named.take(i as int).push(
                            named[i as int],
                        ));
                        assert(xs@[i as int]@ == named[i as int]);
                        assert forall|q: int| 0 <= q < rows@.len() implies row_views(rows@)[q]
                            == named.take(i as int + 1).map_values(
                            |x: crate::snapshot::SnapshotV| json_text(snapshot_json(x)),
                        )[q] by {
                            if q < i as int {
                                assert(row_views(prevrows)[q] == named.take(i as int).map_values(
                                    |x: crate::snapshot::SnapshotV| json_text(snapshot_json(x)),
                                )[q]);
                                assert(rows@[q] == prevrows[q]);
                            }
                        }
                        assert(row_views(rows@) =~= named.take(i as int + 1).map_values(
                            |x: crate::snapshot::SnapshotV| json_text(snapshot_json(x)),
                        ));
                    }
                    i = i + 1;
                }
                proof {
                    assert(named.take(named.len() as int) =~= named);
                }
                Ok(rows)
            },
            SnapshotQuery::ByHash(hash) => {
                let x = match store.get_snapshot_by_hash(hash) {
                    Ok(x) => x,
                    Err(err) => {
                        return Err(err);
                    },
                };
                let j = snapshot_to_json(x);
                let mut rows: Vec<String> = Vec::new();
                rows.push(json_to_string(&j));
                proof {
                    assert(row_views(rows@) =~= seq![
                        json_text(snapshot_json(find_snapshot(store@.snapshots, hash@)->Some_0)),
                    ]);
                }
                Ok(rows)
            },
        }
    }
}

impl Queriable for SpecializedQuery {
    open spec fn spec_rows(&self, store: StoreV) -> Result<Seq<Seq<char>>, StoreErrorV> {
        match self {
            SpecializedQuery::Experiment(q) => q.spec_rows(store),
            SpecializedQuery::Metric(q) => q.spec_rows(store),
            SpecializedQuery::Snapshot(q) => q.spec_rows(store),
        }
    }

    fn query(&self, store: &Store) -> (r: Result<Vec<String>, StoreError>)
        ensures
            match (r, self.spec_rows(store@)) {
                (Ok(rows), Ok(srows)) => row_views(rows@) == srows,
                (Err(e), Err(se)) => e@ == se,
                _ => false,
            },
    {
        match self {
            SpecializedQuery::Experiment(q) => q.query(store),
            SpecializedQuery::Metric(q) => q.query(store),
            SpecializedQuery::Snapshot(q) => q.query(store),
        }
    }
}

} // verus!
