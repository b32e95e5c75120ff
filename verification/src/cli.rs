use vstd::prelude::*;

use crate::commands;
use crate::errors::{StoreError, StoreErrorV};
use crate::query::row_views;
use crate::store::Store;

verus! {

/// One query against the store, as the command line names them.  The
/// first kind and the two field-match kinds are answered only by the
/// generic resolver; the six others by either resolver.
pub enum QueryOption {
    Jq { query_string: String },
    ExperimentById { experiment_id: String },
    ExperimentByName { experiment_name: String },
    AllExperimentsByName { experiment_name: String },
    MetricsByExperimentId { experiment_id: String },
    MetricsByFields { fields_json_string: String },
    SnapshotsByFields { fields_json_string: String },
    SnapshotsByName { snapshot_name: String },
    SnapshotByHash { snapshot_hash: String },
}

/// A store-level command: everything the tool decides about the store
/// itself, once its callers have read the document and the arguments.
pub enum Command {
    /// Append one metric, given as JSON text, tagged with an experiment id.
    Write { experiment_id: String, metric: String },
    /// Resolve one query, through the generic resolver where asked or
    /// where the kind demands it.
    Query { option: QueryOption, use_jq: bool },
}

/// What `run` must produce and how it must leave the store.
pub open spec fn spec_run(
    command: Command,
    old_store: crate::store::StoreV,
    new_store: crate::store::StoreV,
    r: Result<Seq<Seq<char>>, StoreErrorV>,
) -> bool {
    match command {
        Command::Write { experiment_id, metric } => {
            &&& commands::write::spec_write(experiment_id@, metric@, old_store, new_store, r is Ok)
            &&& r matches Ok(rows) ==> rows.len() == 0
            &&& r matches Err(e) ==> (e matches StoreErrorV::JsonSyntax { at: _, text } && text
                == metric@)
        },
        Command::Query { option, use_jq } => {
            &&& new_store == old_store
            &&& commands::query::spec_invoke_rows(option, use_jq, old_store, r)
        },
    }
}

/// Interprets one store-level command: mutates the store in memory and
/// returns the lines to print.  The caller persists the store afterwards
/// and performs everything that touches the world outside.
pub fn run(store: &mut Store, command: Command) -> (r: Result<Vec<String>, StoreError>)
    ensures
        spec_run(
            command,
            old(store)@,
            final(store)@,
            match r {
                Ok(rows) => Ok(row_views(rows@)),
                Err(e) => Err(e@),
            },
        ),
        old(store)@.wf() ==> final(store)@.wf(),
{
    match command {
        Command::Write { experiment_id, metric } => {
            match commands::write::invoke(store, experiment_id, metric) {
                Ok(_) => {
                    let rows: Vec<String> = Vec::new();
                    proof {
                        assert(row_views(rows@) =~= Seq::<Seq<char>>::empty());
                    }
                    Ok(rows)
                },
                Err(e) => Err(e),
            }
        },
        Command::Query { option, use_jq } => commands::query::invoke(store, option, use_jq),
    }
}

} // verus!
