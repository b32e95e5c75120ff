use vstd::prelude::*;

use crate::errors::{StoreError, StoreErrorV};
use crate::store::{Metric, MetricV, Store, StoreV};
use crate::text::{json_from_string, parse_json};

verus! {

/// What writing one metric does: with parsable JSON the metric is
/// appended, tagged with the experiment id, and nothing else moves; with
/// unparsable JSON nothing moves at all.
pub open spec fn spec_write(
    id: Seq<char>,
    metric_text: Seq<char>,
    old_s: StoreV,
    new_s: StoreV,
    ok: bool,
) -> bool {
    if ok {
        &&& parse_json(metric_text) matches Some(d) && new_s.metrics == old_s.metrics.push(
            MetricV { data: d, experiment_id: id },
        )
        &&& new_s.snapshots == old_s.snapshots
        &&& new_s.experiments == old_s.experiments
    } else {
        parse_json(metric_text) is None && new_s == old_s
    }
}

/// Appends one metric, given as JSON text, to the store.  Unparsable text
/// is refused with a syntax error and the store is left as it was.
pub fn invoke(store: &mut Store, experiment_id: String, metric: String) -> (r: Result<
    (),
    StoreError,
>)
    ensures
        spec_write(experiment_id@, metric@, old(store)@, final(store)@, r is Ok),
        r matches Err(e) ==> (e@ matches StoreErrorV::JsonSyntax { at: _, text } && text
            == metric@),
        old(store)@.wf() ==> final(store)@.wf(),
{
    let data = match json_from_string(&metric) {
        Ok(d) => d,
        Err(e) => {
            return Err(e);
        },
    };
    store.add_metric(Metric { data, experiment_id });
    Ok(())
}

} // verus!
