use vstd::prelude::*;

use crate::config::{EtnaConfig, ExperimentConfig};
use crate::errors::{StoreError, StoreErrorV};
use crate::experiment::{ExperimentSnapshot, ExperimentSnapshotV, ExperimentV};
use crate::store::{
    experiments_named, find_experiment, latest_candidate, some_take_outcome, Store, StoreV,
};

verus! {

/// The record an experiment becomes under a fresh bundle: re-identified
/// by the bundle's whole-experiment hash, all else kept.
pub open spec fn updated_record(e: ExperimentV, b: ExperimentSnapshotV) -> ExperimentV {
    ExperimentV { name: e.name, id: b.experiment, description: e.description, path: e.path, snapshot: b }
}

/// One deduplicated insertion into the experiment set.
pub open spec fn exp_insert(exps: Seq<ExperimentV>, x: ExperimentV) -> Seq<ExperimentV> {
    if exps.contains(x) {
        exps
    } else {
        exps.push(x)
    }
}

/// How running an experiment updates the store, once the snapshots are
/// registered: the current version of the experiment is resolved; where
/// its bundle already equals the fresh one nothing changes, else the
/// re-identified record joins the set.
pub open spec fn resolve_update(
    mid: StoreV,
    new_s: StoreV,
    name: Seq<char>,
    b: ExperimentSnapshotV,
) -> bool {
    &&& experiments_named(mid.experiments, name).len() > 0
    &&& latest_candidate(mid.snapshots, mid.experiments, name) matches Some(cb) && match find_experiment(
        mid.experiments,
        cb.hash,
    ) {
        Some(e) => if e.snapshot == b {
            new_s == mid
        } else {
            &&& new_s.metrics == mid.metrics
            &&& new_s.snapshots == mid.snapshots
            &&& new_s.experiments == exp_insert(mid.experiments, updated_record(e, b))
        },
        None => false,
    }
}

/// Runs one experiment as far as the store is concerned: resolves a
/// fresh bundle against the content hasher, registers every snapshot,
/// and — where the bundle differs from the current version's — records
/// the new version.  The caller then starts the collection script with
/// the bundle's whole-experiment hash for its id.  Failure is pinned
/// case by case: a hashing failure leaves the store untouched; the two
/// lookup failures occur exactly where, after the snapshots are
/// registered, no experiment carries the name, or none of the carrying
/// ids has a readable whole-experiment snapshot.
pub fn invoke(
    store: &mut Store,
    etna_config: &EtnaConfig,
    experiment_config: &ExperimentConfig,
) -> (r: Result<ExperimentSnapshot, StoreError>)
    ensures
        old(store)@.wf() ==> final(store)@.wf(),
        match r {
            Ok(b) => exists|mid: StoreV|
                #[trigger] some_take_outcome(
                    old(store)@,
                    mid,
                    etna_config@,
                    experiment_config@,
                    b@,
                ) && resolve_update(mid, final(store)@, experiment_config@.name, b@),
            Err(e) => {
                ||| e@ == StoreErrorV::HashUnavailable && final(store)@ == old(store)@
                ||| (e@ == StoreErrorV::ExperimentNotFound && exists|
                    mid: StoreV,
                    bv: ExperimentSnapshotV,
                |
                    {
                        &&& #[trigger] some_take_outcome(
                            old(store)@,
                            mid,
                            etna_config@,
                            experiment_config@,
                            bv,
                        )
                        &&& final(store)@ == mid
                        &&& experiments_named(mid.experiments, experiment_config@.name).len() == 0
                    })
                ||| (e@ == StoreErrorV::SnapshotNotFound && exists|
                    mid: StoreV,
                    bv: ExperimentSnapshotV,
                |
                    {
                        &&& #[trigger] some_take_outcome(
                            old(store)@,
                            mid,
                            etna_config@,
                            experiment_config@,
                            bv,
                        )
                        &&& final(store)@ == mid
                        &&& experiments_named(mid.experiments, experiment_config@.name).len() > 0
                        &&& latest_candidate(
                            mid.snapshots,
                            mid.experiments,
                            experiment_config@.name,
                        ) is None
                    })
            },
        },
{
    let b = match store.take_snapshot(etna_config, experiment_config) {
        Ok(b) => b,
        Err(e) => {
            return Err(e);
        },
    };
    let ghost mid = store@;
    let e = match store.get_experiment_by_name(&experiment_config.name) {
        Ok(e) => e.clone(),
        Err(err) => {
            proof {
                assert(some_take_outcome(
                    old(store)@,
                    mid,
                    etna_config@,
                    experiment_config@,
                    b@,
                ));
            }
            return Err(err);
        },
    };
    if !b.same_as(&e.snapshot) {
        let updated = e.with_snapshot(b.clone());
        proof {
            assert(updated@ =~= updated_record(e@, b@));
        }
        let _added = store.insert_experiment(updated);
        proof {
            assert(store@.experiments =~= exp_insert(mid.experiments, updated_record(e@, b@)));
            assert(store@.metrics =~= mid.metrics);
            assert(store@.snapshots =~= mid.snapshots);
        }
    }
    Ok(b)
}

} // verus!
