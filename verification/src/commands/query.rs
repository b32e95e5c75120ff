use vstd::prelude::*;

use crate::cli::QueryOption;
use crate::codec::{store_json, store_to_json, str_field};
use crate::errors::{StoreError, StoreErrorV};
use crate::filter::{eval_pipeline, parse_pipeline, run_filter};
use crate::generic;
use crate::generic::{
    g_docs_matching, g_filter_field, g_first, g_items, g_latest, g_metrics_matching,
    g_snapshots_named,
};
use crate::json::{arr_views, Json, JsonV};
use crate::query::{
    row_views, ExperimentQuery, MetricQuery, Queriable, SnapshotQuery, SpecializedQuery,
};
use crate::store::{Store, StoreV};
use crate::text::{json_from_string, json_text, json_to_pretty_string, parse_json, pretty_text};

verus! {

/// At most one row out of a single answer.
pub open spec fn opt_rows(o: Option<JsonV>) -> Seq<JsonV> {
    match o {
        Some(v) => seq![v],
        None => Seq::empty(),
    }
}

/// The lines the typed resolver must produce for a query option, or the
/// error; the three generic-only kinds are refused.
pub open spec fn spec_specialized_rows(option: QueryOption, store: StoreV) -> Result<
    Seq<Seq<char>>,
    StoreErrorV,
> {
    match option {
        QueryOption::ExperimentById { experiment_id } => ExperimentQuery::Id(
            experiment_id,
        ).spec_rows(store),
        QueryOption::ExperimentByName { experiment_name } => ExperimentQuery::NameLast(
            experiment_name,
        ).spec_rows(store),
        QueryOption::AllExperimentsByName { experiment_name } => ExperimentQuery::NameAll(
            experiment_name,
        ).spec_rows(store),
        QueryOption::MetricsByExperimentId { experiment_id } => MetricQuery::ByExperimentId(
            experiment_id,
        ).spec_rows(store),
        QueryOption::SnapshotsByName { snapshot_name } => SnapshotQuery::ByName(
            snapshot_name,
        ).spec_rows(store),
        QueryOption::SnapshotByHash { snapshot_hash } => SnapshotQuery::ByHash(
            snapshot_hash,
        ).spec_rows(store),
        _ => Err(StoreErrorV::GenericOnly),
    }
}

/// What the generic resolver's one output shows when it succeeds: the
/// serialized answers of the query, as one JSON array, pretty-printed
/// from the store's own document.
pub open spec fn generic_ok(option: QueryOption, store: StoreV, out: Seq<char>) -> bool {
    let doc = store_json(store);
    match option {
        QueryOption::Jq { query_string } => parse_pipeline(query_string@) matches Some(steps)
            && eval_pipeline(steps, seq![doc]) matches Some(vs) && out == pretty_text(
            JsonV::Arr(vs),
            0,
        ),
        QueryOption::ExperimentById { experiment_id } => out == pretty_text(
            JsonV::Arr(opt_rows(g_first(g_items(doc, "experiments"@), "id"@, experiment_id@))),
            0,
        ),
        QueryOption::ExperimentByName { experiment_name } => out == pretty_text(
            JsonV::Arr(
                match g_latest(
                    g_items(doc, "snapshots"@),
                    g_items(doc, "experiments"@),
                    experiment_name@,
                ) {
                    Some(b) => opt_rows(
                        g_first(g_items(doc, "experiments"@), "id"@, str_field(b, "hash"@)->Some_0),
                    ),
                    None => Seq::empty(),
                },
            ),
            0,
        ),
        QueryOption::AllExperimentsByName { experiment_name } => out == pretty_text(
            JsonV::Arr(g_filter_field(g_items(doc, "experiments"@), "name"@, experiment_name@)),
            0,
        ),
        QueryOption::MetricsByExperimentId { experiment_id } => out == pretty_text(
            JsonV::Arr(g_filter_field(g_items(doc, "metrics"@), "experiment_id"@, experiment_id@)),
            0,
        ),
        QueryOption::MetricsByFields { fields_json_string } => parse_json(fields_json_string@)
            matches Some(f) && f matches JsonV::Obj(fs) && out == pretty_text(
            JsonV::Arr(g_metrics_matching(g_items(doc, "metrics"@), fs)),
            0,
        ),
        QueryOption::SnapshotsByFields { fields_json_string } => parse_json(fields_json_string@)
            matches Some(f) && f matches JsonV::Obj(fs) && out == pretty_text(
            JsonV::Arr(g_docs_matching(g_items(doc, "snapshots"@), fs)),
            0,
        ),
        QueryOption::SnapshotsByName { snapshot_name } => out == pretty_text(
            JsonV::Arr(g_snapshots_named(g_items(doc, "snapshots"@), snapshot_name@)),
            0,
        ),
        QueryOption::SnapshotByHash { snapshot_hash } => out == pretty_text(
            JsonV::Arr(opt_rows(g_first(g_items(doc, "snapshots"@), "hash"@, snapshot_hash@))),
            0,
        ),
    }
}

/// When and how the generic resolver fails: only a malformed or
/// inapplicable filter expression, and only a field-match payload that
/// does not parse or is no object.
pub open spec fn generic_err(option: QueryOption, store: StoreV, e: StoreErrorV) -> bool {
    let doc = store_json(store);
    match option {
        QueryOption::Jq { query_string } => {
            if parse_pipeline(query_string@) is None {
                e == StoreErrorV::FilterSyntax { expr: query_string@ }
            } else {
                eval_pipeline(parse_pipeline(query_string@)->Some_0, seq![doc]) is None && e
                    == StoreErrorV::FilterEval { expr: query_string@ }
            }
        },
        QueryOption::MetricsByFields { fields_json_string } => match parse_json(
            fields_json_string@,
        ) {
            None => (e matches StoreErrorV::JsonSyntax { at: _, text } && text
                == fields_json_string@),
            Some(f) => !(f is Obj) && e == StoreErrorV::FieldsNotAnObject {
                given: json_text(f),
            },
        },
        QueryOption::SnapshotsByFields { fields_json_string } => match parse_json(
            fields_json_string@,
        ) {
            None => (e matches StoreErrorV::JsonSyntax { at: _, text } && text
                == fields_json_string@),
            Some(f) => !(f is Obj) && e == StoreErrorV::FieldsNotAnObject {
                given: json_text(f),
            },
        },
        _ => false,
    }
}

/// Answers a query through the generic resolver: the store is serialized
/// to its document and the query runs against that document alone.  One
/// line comes back, holding a JSON array of the answers.
pub fn handle_jq_query(store: &Store, option: &QueryOption) -> (r: Result<String, StoreError>)
    ensures
        match r {
            Ok(out) => generic_ok(*option, store@, out@),
            Err(e) => generic_err(*option, store@, e@),
        },
{
    let doc = store_to_json(store);
    match option {
        QueryOption::Jq { query_string } => {
            match run_filter(&doc, query_string) {
                Ok(rows) => Ok(json_to_pretty_string(&Json::Arr(rows))),
                Err(e) => Err(e),
            }
        },
        QueryOption::ExperimentById { experiment_id } => {
            let rows = generic::experiment_by_id(&doc, experiment_id);
            proof {
                assert(arr_views(rows@) =~= opt_rows(
                    g_first(g_items(doc@, "experiments"@), "id"@, experiment_id@),
                ));
            }
            Ok(json_to_pretty_string(&Json::Arr(rows)))
        },
        QueryOption::ExperimentByName { experiment_name } => {
            let rows = generic::experiment_by_name(&doc, experiment_name);
            proof {
                let found = g_latest(
                    g_items(doc@, "snapshots"@),
                    g_items(doc@, "experiments"@),
                    experiment_name@,
                );
                match found {
                    Some(b) => {
                        assert(arr_views(rows@) =~= opt_rows(
                            g_first(
                                g_items(doc@, "experiments"@),
                                "id"@,
                                str_field(b, "hash"@)->Some_0,
                            ),
                        ));
                    },
                    None => {
                        assert(arr_views(rows@) =~= Seq::<JsonV>::empty());
                    },
                }
            }
            Ok(json_to_pretty_string(&Json::Arr(rows)))
        },
        QueryOption::AllExperimentsByName { experiment_name } => {
            let rows = generic::all_experiments_by_name(&doc, experiment_name);
            Ok(json_to_pretty_string(&Json::Arr(rows)))
        },
        QueryOption::MetricsByExperimentId { experiment_id } => {
            let rows = generic::metrics_by_experiment_id(&doc, experiment_id);
            Ok(json_to_pretty_string(&Json::Arr(rows)))
        },
        QueryOption::MetricsByFields { fields_json_string } => {
            let fields = match json_from_string(fields_json_string) {
                Ok(f) => f,
                Err(e) => {
                    return Err(e);
                },
            };
            match generic::metrics_by_fields(&doc, &fields) {
                Ok(rows) => Ok(json_to_pretty_string(&Json::Arr(rows))),
                Err(e) => Err(e),
            }
        },
        QueryOption::SnapshotsByFields { fields_json_string } => {
            let fields = match json_from_string(fields_json_string) {
                Ok(f) => f,
                Err(e) => {
                    return Err(e);
                },
            };
            match generic::snapshots_by_fields(&doc, &fields) {
                Ok(rows) => Ok(json_to_pretty_string(&Json::Arr(rows))),
                Err(e) => Err(e),
            }
        },
        QueryOption::SnapshotsByName { snapshot_name } => {
            let rows = generic::snapshots_by_name(&doc, snapshot_name);
            Ok(json_to_pretty_string(&Json::Arr(rows)))
        },
        QueryOption::SnapshotByHash { snapshot_hash } => {
            let rows = generic::snapshot_by_hash(&doc, snapshot_hash);
            proof {
                assert(arr_views(rows@) =~= opt_rows(
                    g_first(g_items(doc@, "snapshots"@), "hash"@, snapshot_hash@),
                ));
            }
            Ok(json_to_pretty_string(&Json::Arr(rows)))
        },
    }
}

/// Answers a query through the typed resolver, one line per record; the
/// generic-only kinds are refused here.
pub fn handle_specialized_query(store: &Store, option: &QueryOption) -> (r: Result<
    Vec<String>,
    StoreError,
>)
    ensures
        match (r, spec_specialized_rows(*option, store@)) {
            (Ok(rows), Ok(srows)) => row_views(rows@) == srows,
            (Err(e), Err(se)) => e@ == se,
            _ => false,
        },
{
    let q = match option {
        QueryOption::ExperimentById { experiment_id } => SpecializedQuery::Experiment(
            ExperimentQuery::Id(experiment_id.clone()),
        ),
        QueryOption::ExperimentByName { experiment_name } => SpecializedQuery::Experiment(
            ExperimentQuery::NameLast(experiment_name.clone()),
        ),
        QueryOption::AllExperimentsByName { experiment_name } => SpecializedQuery::Experiment(
            ExperimentQuery::NameAll(experiment_name.clone()),
        ),
        QueryOption::MetricsByExperimentId { experiment_id } => SpecializedQuery::Metric(
            MetricQuery::ByExperimentId(experiment_id.clone()),
        ),
        QueryOption::SnapshotsByName { snapshot_name } => SpecializedQuery::Snapshot(
            SnapshotQuery::ByName(snapshot_name.clone()),
        ),
        QueryOption::SnapshotByHash { snapshot_hash } => SpecializedQuery::Snapshot(
            SnapshotQuery::ByHash(snapshot_hash.clone()),
        ),
        _ => {
            return Err(StoreError::GenericOnly);
        },
    };
    q.query(store)
}

/// Whether a kind is answered only by the generic resolver.
pub open spec fn spec_generic_only(option: QueryOption) -> bool {
    option is Jq || option is MetricsByFields || option is SnapshotsByFields
}

/// What resolving one query must yield: through the generic resolver
/// where the kind demands it or where the caller asked for it, else
/// through the typed resolver.
pub open spec fn spec_invoke_rows(
    option: QueryOption,
    use_jq: bool,
    store: StoreV,
    r: Result<Seq<Seq<char>>, StoreErrorV>,
) -> bool {
    if spec_generic_only(option) || use_jq {
        match r {
            Ok(rows) => rows.len() == 1 && generic_ok(option, store, rows[0]),
            Err(e) => generic_err(option, store, e),
        }
    } else {
        match (r, spec_specialized_rows(option, store)) {
            (Ok(rows), Ok(srows)) => rows == srows,
            (Err(e), Err(se)) => e == se,
            _ => false,
        }
    }
}

/// Resolves one query against the store, choosing the resolver as the
/// original tool does: the generic one for its own kinds or on request,
/// the typed one otherwise.
pub fn invoke(store: &Store, option: QueryOption, use_jq: bool) -> (r: Result<
    Vec<String>,
    StoreError,
>)
    ensures
        spec_invoke_rows(
            option,
            use_jq,
            store@,
            match r {
                Ok(rows) => Ok(row_views(rows@)),
                Err(e) => Err(e@),
            },
        ),
{
    let generic_only = match &option {
        QueryOption::Jq { .. } => true,
        QueryOption::MetricsByFields { .. } => true,
        QueryOption::SnapshotsByFields { .. } => true,
        _ => false,
    };
    if generic_only || use_jq {
        match handle_jq_query(store, &option) {
            Ok(out) => {
                let mut rows: Vec<String> = Vec::new();
                rows.push(out);
                proof {
                    assert(row_views(rows@) =~= seq![rows@[0]@]);
                }
                Ok(rows)
            },
            Err(e) => Err(e),
        }
    } else {
        handle_specialized_query(store, &option)
    }
}

} // verus!
