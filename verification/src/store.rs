use vstd::prelude::*;

use vstd::string::StringExecFns;

use crate::config::{EtnaConfig, EtnaConfigV, ExperimentConfig, ExperimentConfigV};
use crate::errors::{StoreError, StoreErrorV};
use crate::experiment::{Experiment, ExperimentSnapshot, ExperimentV};
use crate::git_driver;
use crate::json::{Json, JsonV};
use crate::paths::{join_paths, path_join};
use crate::snapshot::{Snapshot, SnapshotType, SnapshotTypeV, SnapshotV};
use crate::workload::{Workload, WorkloadV};

verus! {

broadcast use vstd::seq_lib::group_filter_ensures;

/// Mathematical image of a [`Metric`].
#[verifier::ext_equal]
pub struct MetricV {
    pub data: JsonV,
    pub experiment_id: Seq<char>,
}

/// A free-form JSON payload tagged by the id of the experiment version it
/// belongs to.  No schema is enforced on `data`.
#[derive(Debug, PartialEq)]
pub struct Metric {
    pub data: Json,
    pub experiment_id: String,
}

impl View for Metric {
    type V = MetricV;

    open spec fn view(&self) -> MetricV {
        MetricV { data: self.data@, experiment_id: self.experiment_id@ }
    }
}

/// Mathematical image of a [`Store`].
#[verifier::ext_equal]
pub struct StoreV {
    pub metrics: Seq<MetricV>,
    pub snapshots: Seq<SnapshotV>,
    pub experiments: Seq<ExperimentV>,
}

/// The aggregate root: an ordered sequence of metrics, the deduplicating
/// snapshot registry, and the experiment set.  The two sets are kept as
/// sequences in insertion order whose well-formedness excludes structural
/// duplicates, which keeps deduplication explicit and resolution
/// deterministic.
#[derive(Debug, PartialEq)]
pub struct Store {
    pub metrics: Vec<Metric>,
    pub snapshots: Vec<Snapshot>,
    pub experiments: Vec<Experiment>,
}

impl View for Store {
    type V = StoreV;

    open spec fn view(&self) -> StoreV {
        StoreV {
            metrics: Seq::new(self.metrics@.len(), |i: int| self.metrics@[i]@),
            snapshots: Seq::new(self.snapshots@.len(), |i: int| self.snapshots@[i]@),
            experiments: Seq::new(self.experiments@.len(), |i: int| self.experiments@[i]@),
        }
    }
}

impl StoreV {
    /// No two snapshots and no two experiments are structurally equal.
    pub open spec fn wf(self) -> bool {
        &&& forall|i: int, j: int|
            0 <= i < j < self.snapshots.len() ==> #[trigger] self.snapshots[i]
                != #[trigger] self.snapshots[j]
        &&& forall|i: int, j: int|
            0 <= i < j < self.experiments.len() ==> #[trigger] self.experiments[i]
                != #[trigger] self.experiments[j]
    }
}

/// The experiments whose name is `name`, in insertion order.
pub open spec fn experiments_named(exps: Seq<ExperimentV>, name: Seq<char>) -> Seq<ExperimentV> {
    exps.filter(|e: ExperimentV| e.name == name)
}

/// The metrics tagged with `id`, in input order.
pub open spec fn metrics_for(ms: Seq<MetricV>, id: Seq<char>) -> Seq<MetricV> {
    ms.filter(|m: MetricV| m.experiment_id == id)
}

/// The name a snapshot kind carries, if any.
pub open spec fn kind_name(t: crate::snapshot::SnapshotTypeV) -> Option<Seq<char>> {
    match t {
        crate::snapshot::SnapshotTypeV::Script { name } => Some(name),
        crate::snapshot::SnapshotTypeV::Workload { name, language: _ } => Some(name),
        _ => None,
    }
}

/// The snapshots whose kind carries the name `name`, in insertion order.
/// Kinds without a name never match.
pub open spec fn snapshots_named(snaps: Seq<SnapshotV>, name: Seq<char>) -> Seq<SnapshotV> {
    snaps.filter(|s: SnapshotV| kind_name(s.typ) == Some(name))
}

/// The first experiment whose id is `id`, if any.
pub open spec fn find_experiment(exps: Seq<ExperimentV>, id: Seq<char>) -> Option<ExperimentV>
    decreases exps.len(),
{
    if exps.len() == 0 {
        None
    } else if exps[0].id == id {
        Some(exps[0])
    } else {
        find_experiment(exps.drop_first(), id)
    }
}

/// The first snapshot whose hash is `hash`, if any.
pub open spec fn find_snapshot(snaps: Seq<SnapshotV>, hash: Seq<char>) -> Option<SnapshotV>
    decreases snaps.len(),
{
    if snaps.len() == 0 {
        None
    } else if snaps[0].hash == hash {
        Some(snaps[0])
    } else {
        find_snapshot(snaps.drop_first(), hash)
    }
}

/// Whether `s` can stand for the current version of an experiment named
/// `name`: a whole-experiment snapshot with a readable timestamp whose hash
/// is the id of some experiment of that name.
pub open spec fn is_candidate(s: SnapshotV, exps: Seq<ExperimentV>, name: Seq<char>) -> bool {
    &&& s.typ is Experiment
    &&& s.typ.spec_time() is Some
    &&& exists|j: int|
        0 <= j < exps.len() && (#[trigger] exps[j]).name == name && exps[j].id == s.hash
}

/// The most recent candidate snapshot for `name`.  Two candidates with the
/// same timestamp are ordered by registry position: the one inserted first
/// wins, which makes resolution deterministic where the original depended
/// on container iteration order.
pub open spec fn latest_candidate(
    snaps: Seq<SnapshotV>,
    exps: Seq<ExperimentV>,
    name: Seq<char>,
) -> Option<SnapshotV>
    decreases snaps.len(),
{
    if snaps.len() == 0 {
        None
    } else {
        let rest = latest_candidate(snaps.drop_last(), exps, name);
        let last = snaps.last();
        if !is_candidate(last, exps, name) {
            rest
        } else {
            match rest {
                None => Some(last),
                Some(b) => if last.typ.spec_time()->0 > b.typ.spec_time()->0 {
                    Some(last)
                } else {
                    Some(b)
                },
            }
        }
    }
}

/// A sequence of borrowed records, seen as the sequence of their views.
pub open spec fn ref_views<T: View>(s: Seq<&T>) -> Seq<T::V> {
    s.map_values(|x: &T| x@)
}

/// Relies on chrono's `Utc::now` and `DateTime::to_rfc3339` for the
/// wall-clock instant at resolution time.  The result depends on the
/// clock, so nothing is stated of it.
#[verifier::external_body]
pub(crate) fn now_rfc3339() -> String {
    chrono::Utc::now().to_rfc3339()
}

/// The views of a sequence of optional hashes.
pub open spec fn opt_views(hs: Seq<Option<String>>) -> Seq<Option<Seq<char>>> {
    Seq::new(
        hs.len(),
        |i: int|
            match hs[i] {
                Some(h) => Some(h@),
                None => None,
            },
    )
}

/// The snapshot of the toolchain checkout's head commit.
pub open spec fn etna_snap(cfg: EtnaConfigV, h: Seq<char>) -> SnapshotV {
    SnapshotV { path: cfg.repo_dir, typ: SnapshotTypeV::Etna { branch: cfg.branch }, hash: h }
}

/// The whole-experiment snapshot at instant `time`.
pub open spec fn experiment_snap(path: Seq<char>, time: Seq<char>, h: Seq<char>) -> SnapshotV {
    SnapshotV {
        path: path_join(path, "*"@),
        typ: SnapshotTypeV::Experiment { time },
        hash: h,
    }
}

/// The snapshot of the collection script.
pub open spec fn script_snap(path: Seq<char>, h: Seq<char>) -> SnapshotV {
    SnapshotV {
        path: path_join(path, "Collect.py"@),
        typ: SnapshotTypeV::Script { name: "Collect.py"@ },
        hash: h,
    }
}

/// Where a workload's files live, relative to the experiment root.
pub open spec fn workload_rel(w: WorkloadV) -> Seq<char> {
    path_join(path_join(path_join("workloads"@, w.language), w.name), "*"@)
}

/// The snapshot of one workload's subtree.
pub open spec fn workload_snap(base: Seq<char>, w: WorkloadV, h: Seq<char>) -> SnapshotV {
    SnapshotV {
        path: path_join(base, workload_rel(w)),
        typ: SnapshotTypeV::Workload { name: w.name, language: w.language },
        hash: h,
    }
}

/// The workload snapshots actually produced: one for each declared
/// workload whose subtree could be hashed, in declaration order.
pub open spec fn workload_snaps(
    base: Seq<char>,
    ws: Seq<WorkloadV>,
    hs: Seq<Option<Seq<char>>>,
) -> Seq<SnapshotV>
    decreases ws.len(),
{
    if ws.len() == 0 || hs.len() == 0 {
        Seq::empty()
    } else {
        workload_snaps(base, ws.drop_last(), hs.drop_last()) + match hs.last() {
            Some(h) => seq![workload_snap(base, ws.last(), h)],
            None => Seq::empty(),
        }
    }
}

/// The `(workload, hash)` pairs of the bundle: the declared workloads that
/// could be hashed, in declaration order.
pub open spec fn bundle_workloads(ws: Seq<WorkloadV>, hs: Seq<Option<Seq<char>>>) -> Seq<
    (WorkloadV, Seq<char>),
>
    decreases ws.len(),
{
    if ws.len() == 0 || hs.len() == 0 {
        Seq::empty()
    } else {
        bundle_workloads(ws.drop_last(), hs.drop_last()) + match hs.last() {
            Some(h) => seq![(ws.last(), h)],
            None => Seq::empty(),
        }
    }
}

/// How many hashes came back.
pub open spec fn count_some(hs: Seq<Option<Seq<char>>>) -> int
    decreases hs.len(),
{
    if hs.len() == 0 {
        0
    } else {
        count_some(hs.drop_last()) + if hs.last() is Some {
            1int
        } else {
            0int
        }
    }
}

/// Partial workload tolerance: the bundle lists exactly the workloads
/// whose subtree could be hashed — a missing directory shortens the list
/// and never fails the resolution.
pub proof fn lemma_bundle_len(ws: Seq<WorkloadV>, hs: Seq<Option<Seq<char>>>)
    requires
        ws.len() == hs.len(),
    ensures
        bundle_workloads(ws, hs).len() == count_some(hs),
    decreases ws.len(),
{
    if ws.len() > 0 {
        lemma_bundle_len(ws.drop_last(), hs.drop_last());
    }
}

/// One deduplicating insertion: a tuple already present changes nothing.
pub open spec fn reg_insert(snaps: Seq<SnapshotV>, s: SnapshotV) -> Seq<SnapshotV> {
    if snaps.contains(s) {
        snaps
    } else {
        snaps.push(s)
    }
}

/// Deduplicating insertion of a list, first element first.
pub open spec fn reg_insert_list(snaps: Seq<SnapshotV>, items: Seq<SnapshotV>) -> Seq<SnapshotV>
    decreases items.len(),
{
    if items.len() == 0 {
        snaps
    } else {
        reg_insert(reg_insert_list(snaps, items.drop_last()), items.last())
    }
}

/// Insertion of a concatenation is insertion of the parts in turn.
pub proof fn lemma_reg_insert_concat(snaps: Seq<SnapshotV>, a: Seq<SnapshotV>, b: Seq<SnapshotV>)
    ensures
        reg_insert_list(snaps, a + b) == reg_insert_list(reg_insert_list(snaps, a), b),
    decreases b.len(),
{
    if b.len() == 0 {
        assert(a + b =~= a);
    } else {
        assert((a + b).drop_last() =~= a + b.drop_last());
        assert((a + b).last() == b.last());
        lemma_reg_insert_concat(snaps, a, b.drop_last());
    }
}

/// The view of an optional hash.
pub open spec fn opt_view(h: Option<String>) -> Option<Seq<char>> {
    match h {
        Some(h) => Some(h@),
        None => None,
    }
}

/// The bundle's script list: the collection script where it could be
/// hashed, nothing otherwise.
pub open spec fn script_rows(sh: Option<Seq<char>>) -> Seq<(Seq<char>, Seq<char>)> {
    match sh {
        Some(h) => seq![("Collect.py"@, h)],
        None => Seq::empty(),
    }
}

/// The script snapshot produced, if the script could be hashed.
pub open spec fn script_snaps(path: Seq<char>, sh: Option<Seq<char>>) -> Seq<SnapshotV> {
    match sh {
        Some(h) => seq![script_snap(path, h)],
        None => Seq::empty(),
    }
}

/// Every snapshot one resolution produces.
pub open spec fn produced_snaps(
    cfg: EtnaConfigV,
    exp: ExperimentConfigV,
    eh: Seq<char>,
    xh: Seq<char>,
    t: Seq<char>,
    sh: Option<Seq<char>>,
    whs: Seq<Option<Seq<char>>>,
) -> Seq<SnapshotV> {
    seq![etna_snap(cfg, eh), experiment_snap(exp.path, t, xh)] + script_snaps(exp.path, sh)
        + workload_snaps(exp.path, exp.workloads, whs)
}

/// The one contract of a resolution, for given hasher answers: the bundle
/// carries the whole-experiment hash (the experiment's next id), the
/// toolchain hash, the collection script's hash where one came back, and
/// the hashed workloads; and the registry grows by exactly the produced
/// snapshots, deduplicated, with metrics and experiments untouched.
pub open spec fn take_outcome(
    old_s: StoreV,
    new_s: StoreV,
    cfg: EtnaConfigV,
    exp: ExperimentConfigV,
    b: crate::experiment::ExperimentSnapshotV,
    eh: Seq<char>,
    xh: Seq<char>,
    t: Seq<char>,
    sh: Option<Seq<char>>,
    whs: Seq<Option<Seq<char>>>,
) -> bool {
    &&& b.etna == eh
    &&& b.experiment == xh
    &&& b.scripts == script_rows(sh)
    &&& b.workloads == bundle_workloads(exp.workloads, whs)
    &&& new_s.snapshots == reg_insert_list(old_s.snapshots, produced_snaps(cfg, exp, eh, xh, t, sh, whs))
    &&& new_s.metrics == old_s.metrics
    &&& new_s.experiments == old_s.experiments
}

/// Some answer of the content hasher and the clock explains the new state
/// and the bundle: the resolver is verified for every answer they can give.
pub open spec fn some_take_outcome(
    old_s: StoreV,
    new_s: StoreV,
    cfg: EtnaConfigV,
    exp: ExperimentConfigV,
    b: crate::experiment::ExperimentSnapshotV,
) -> bool {
    exists|eh: Seq<char>, xh: Seq<char>, t: Seq<char>, sh: Option<Seq<char>>, whs: Seq<Option<Seq<char>>>|
        whs.len() == exp.workloads.len() && #[trigger] take_outcome(
            old_s,
            new_s,
            cfg,
            exp,
            b,
            eh,
            xh,
            t,
            sh,
            whs,
        )
}

/// One step of the name filter: appending an experiment extends the
/// filtered sequence exactly when the name matches.
pub proof fn lemma_named_push(exps: Seq<ExperimentV>, x: ExperimentV, name: Seq<char>)
    ensures
        experiments_named(exps.push(x), name) == if x.name == name {
            experiments_named(exps, name).push(x)
        } else {
            experiments_named(exps, name)
        },
{
    reveal(Seq::filter);
    assert(exps.push(x).drop_last() =~= exps);
    assert(exps.push(x).last() == x);
}

/// One step of the metric filter.
pub proof fn lemma_metrics_push(ms: Seq<MetricV>, x: MetricV, id: Seq<char>)
    ensures
        metrics_for(ms.push(x), id) == if x.experiment_id == id {
            metrics_for(ms, id).push(x)
        } else {
            metrics_for(ms, id)
        },
{
    reveal(Seq::filter);
    assert(ms.push(x).drop_last() =~= ms);
    assert(ms.push(x).last() == x);
}

/// One step of the snapshot-name filter.
pub proof fn lemma_snapshots_push(snaps: Seq<SnapshotV>, x: SnapshotV, name: Seq<char>)
    ensures
        snapshots_named(snaps.push(x), name) == if kind_name(x.typ) == Some(name) {
            snapshots_named(snaps, name).push(x)
        } else {
            snapshots_named(snaps, name)
        },
{
    reveal(Seq::filter);
    assert(snaps.push(x).drop_last() =~= snaps);
    assert(snaps.push(x).last() == x);
}

/// Whatever the latest-candidate search returns is itself a candidate.
pub proof fn lemma_latest_is_candidate(snaps: Seq<SnapshotV>, exps: Seq<ExperimentV>, name: Seq<char>)
    ensures
        latest_candidate(snaps, exps, name) matches Some(b) ==> is_candidate(b, exps, name),
    decreases snaps.len(),
{
    if snaps.len() > 0 {
        lemma_latest_is_candidate(snaps.drop_last(), exps, name);
    }
}

/// Latest-by-name correctness: for a store holding three experiment
/// versions that share one name, with ids carried by three readable
/// whole-experiment snapshots, resolution by name picks the version whose
/// snapshot has the strictly greatest timestamp, whatever order the
/// records stand in the sequences shown here.
pub proof fn lemma_latest_of_three(
    store: StoreV,
    name: Seq<char>,
    e1: ExperimentV,
    e2: ExperimentV,
    e3: ExperimentV,
    s1: SnapshotV,
    s2: SnapshotV,
    s3: SnapshotV,
    t1: i64,
    t2: i64,
    t3: i64,
)
    requires
        store.experiments == seq![e1, e2, e3],
        store.snapshots == seq![s1, s2, s3],
        e1.name == name && e2.name == name && e3.name == name,
        s1.hash == e1.id && s2.hash == e2.id && s3.hash == e3.id,
        s1.typ.spec_time() == Some(t1),
        s2.typ.spec_time() == Some(t2),
        s3.typ.spec_time() == Some(t3),
        s1.typ is Experiment && s2.typ is Experiment && s3.typ is Experiment,
        t2 > t3 && t3 > t1,
        e1.id != e2.id && e2.id != e3.id && e1.id != e3.id,
    ensures
        latest_candidate(store.snapshots, store.experiments, name) == Some(s2),
        find_experiment(store.experiments, s2.hash) == Some(e2),
{
    let snaps = store.snapshots;
    let exps = store.experiments;
    assert(snaps.drop_last() =~= seq![s1, s2]);
    assert(seq![s1, s2].drop_last() =~= seq![s1]);
    assert(seq![s1].drop_last() =~= Seq::<SnapshotV>::empty());
    assert(snaps.last() == s3);
    assert(seq![s1, s2].last() == s2);
    assert(seq![s1].last() == s1);
    assert(is_candidate(s1, exps, name)) by {
        assert(exps[0] == e1);
    }
    assert(is_candidate(s2, exps, name)) by {
        assert(exps[1] == e2);
    }
    assert(is_candidate(s3, exps, name)) by {
        assert(exps[2] == e3);
    }
    reveal_with_fuel(latest_candidate, 4);
    assert(latest_candidate(seq![s1], exps, name) == Some(s1));
    assert(latest_candidate(seq![s1, s2], exps, name) == Some(s2));
    assert(latest_candidate(snaps, exps, name) == Some(s2));
    assert(exps.drop_first() =~= seq![e2, e3]);
    reveal_with_fuel(find_experiment, 3);
    assert(find_experiment(exps, s2.hash) == Some(e2));
}

/// A found experiment is the first among those with its id.
pub proof fn lemma_find_experiment_some(exps: Seq<ExperimentV>, id: Seq<char>)
    requires
        exists|j: int| 0 <= j < exps.len() && (#[trigger] exps[j]).id == id,
    ensures
        find_experiment(exps, id) is Some,
    decreases exps.len(),
{
    if exps.len() > 0 && exps[0].id != id {
        let j = choose|j: int| 0 <= j < exps.len() && (#[trigger] exps[j]).id == id;
        assert(exps.drop_first()[j - 1].id == id);
        lemma_find_experiment_some(exps.drop_first(), id);
    }
}

impl Store {
    /// The empty store, as first set up.
    pub fn default() -> (r: Self)
        ensures
            r@.metrics.len() == 0,
            r@.snapshots.len() == 0,
            r@.experiments.len() == 0,
            r@.wf(),
    {
        Store { metrics: Vec::new(), snapshots: Vec::new(), experiments: Vec::new() }
    }

    /// Whether a structurally equal snapshot is already registered.
    #[verifier::loop_isolation(false)]
    pub fn contains_snapshot(&self, s: &Snapshot) -> (r: bool)
        ensures
            r == self@.snapshots.contains(s@),
    {
        let mut i: usize = 0;
        while i < self.snapshots.len()
            invariant
                i <= self.snapshots@.len(),
                forall|k: int| 0 <= k < i ==> #[trigger] self@.snapshots[k] != s@,
            decreases self.snapshots@.len() - i,
        {
            if self.snapshots[i].same_as(s) {
                proof {
                    assert(self@.snapshots[i as int] == s@);
                }
                return true;
            }
            i = i + 1;
        }
        proof {
            assert(forall|k: int|
                0 <= k < self@.snapshots.len() ==> #[trigger] self@.snapshots[k] != s@);
        }
        false
    }

    /// Registers a snapshot.  Inserting a tuple that is already present
    /// leaves the registry unchanged — re-taking an identical snapshot is a
    /// no-op, never a duplicate — and a new tuple is appended, so the
    /// registry is an append-only, content-addressed log.  Returns whether
    /// the snapshot was newly added.
    pub fn insert_snapshot(&mut self, s: Snapshot) -> (added: bool)
        ensures
            added == !old(self)@.snapshots.contains(s@),
            added ==> final(self)@.snapshots =~= old(self)@.snapshots.push(s@),
            !added ==> final(self)@.snapshots =~= old(self)@.snapshots,
            final(self)@.metrics =~= old(self)@.metrics,
            final(self)@.experiments =~= old(self)@.experiments,
            old(self)@.wf() ==> final(self)@.wf(),
    {
        if self.contains_snapshot(&s) {
            return false;
        }
        self.snapshots.push(s);
        proof {
            assert(self@.snapshots =~= old(self)@.snapshots.push(s@));
            assert(self@.experiments =~= old(self)@.experiments);
            assert(self@.metrics =~= old(self)@.metrics);
            if old(self)@.wf() {
                assert forall|i: int, j: int|
                    0 <= i < j < self@.snapshots.len() implies #[trigger] self@.snapshots[i]
                    != #[trigger] self@.snapshots[j] by {
                    if j == self@.snapshots.len() - 1 {
                        assert(old(self)@.snapshots[i] != s@);
                    }
                }
            }
        }
        true
    }

    /// Whether a structurally equal experiment record is already present.
    #[verifier::loop_isolation(false)]
    pub fn contains_experiment(&self, e: &Experiment) -> (r: bool)
        ensures
            r == self@.experiments.contains(e@),
    {
        let mut i: usize = 0;
        while i < self.experiments.len()
            invariant
                i <= self.experiments@.len(),
                forall|k: int| 0 <= k < i ==> #[trigger] self@.experiments[k] != e@,
            decreases self.experiments@.len() - i,
        {
            if self.experiments[i].same_as(e) {
                proof {
                    assert(self@.experiments[i as int] == e@);
                }
                return true;
            }
            i = i + 1;
        }
        proof {
            assert(forall|k: int|
                0 <= k < self@.experiments.len() ==> #[trigger] self@.experiments[k] != e@);
        }
        false
    }

    /// Adds an experiment version, deduplicated by full structural
    /// equality.  Returns whether the record was newly added.
    pub fn insert_experiment(&mut self, e: Experiment) -> (added: bool)
        ensures
            added == !old(self)@.experiments.contains(e@),
            added ==> final(self)@.experiments =~= old(self)@.experiments.push(e@),
            !added ==> final(self)@.experiments =~= old(self)@.experiments,
            final(self)@.metrics =~= old(self)@.metrics,
            final(self)@.snapshots =~= old(self)@.snapshots,
            old(self)@.wf() ==> final(self)@.wf(),
    {
        if self.contains_experiment(&e) {
            return false;
        }
        self.experiments.push(e);
        proof {
            assert(self@.experiments =~= old(self)@.experiments.push(e@));
            assert(self@.snapshots =~= old(self)@.snapshots);
            assert(self@.metrics =~= old(self)@.metrics);
            if old(self)@.wf() {
                assert forall|i: int, j: int|
                    0 <= i < j < self@.experiments.len() implies #[trigger] self@.experiments[i]
                    != #[trigger] self@.experiments[j] by {
                    if j == self@.experiments.len() - 1 {
                        assert(old(self)@.experiments[i] != e@);
                    }
                }
            }
        }
        true
    }

    /// Appends a metric to the ordered sequence.
    pub fn add_metric(&mut self, m: Metric) -> (r: ())
        ensures
            final(self)@.metrics =~= old(self)@.metrics.push(m@),
            final(self)@.snapshots =~= old(self)@.snapshots,
            final(self)@.experiments =~= old(self)@.experiments,
            old(self)@.wf() ==> final(self)@.wf(),
    {
        self.metrics.push(m);
    }

    /// The first experiment whose id is exactly `hash`; absence is an
    /// error.
    #[verifier::loop_isolation(false)]
    pub fn get_experiment_by_id<'a>(&'a self, hash: &String) -> (r: Result<
        &'a Experiment,
        StoreError,
    >)
        ensures
            match r {
                Ok(e) => find_experiment(self@.experiments, hash@) == Some(e@),
                Err(err) => err@ == StoreErrorV::ExperimentNotFound && find_experiment(
                    self@.experiments,
                    hash@,
                ) is None,
            },
    {
        let ghost exps = self@.experiments;
        proof {
            assert(exps.skip(0) =~= exps);
        }
        let mut i: usize = 0;
        while i < self.experiments.len()
            invariant
                i <= self.experiments@.len(),
                find_experiment(exps, hash@) == find_experiment(exps.skip(i as int), hash@),
            decreases self.experiments@.len() - i,
        {
            if self.experiments[i].id == *hash {
                proof {
                    assert(exps.skip(i as int)[0] == exps[i as int]);
                    reveal_with_fuel(find_experiment, 2);
                }
                return Ok(&self.experiments[i]);
            }
            proof {
                assert(exps.skip(i as int)[0] == exps[i as int]);
                assert(exps.skip(i as int).drop_first() =~= exps.skip(i as int + 1));
                reveal_with_fuel(find_experiment, 2);
            }
            i = i + 1;
        }
        proof {
            assert(exps.skip(exps.len() as int).len() == 0);
        }
        Err(StoreError::ExperimentNotFound)
    }

    /// Every experiment whose name is `name`, in insertion order; an empty
    /// sequence — not an error — where none matches.
    #[verifier::loop_isolation(false)]
    pub fn get_all_experiments_by_name<'a>(&'a self, name: &String) -> (r: Vec<&'a Experiment>)
        ensures
            ref_views(r@) =~= experiments_named(self@.experiments, name@),
    {
        let ghost exps = self@.experiments;
        let mut out: Vec<&'a Experiment> = Vec::new();
        let mut i: usize = 0;
        while i < self.experiments.len()
            invariant
                i <= self.experiments@.len(),
                ref_views(out@) =~= experiments_named(exps.subrange(0, i as int), name@),
            decreases self.experiments@.len() - i,
        {
            proof {
                assert(exps.subrange(0, i as int + 1) =~= exps.subrange(0, i as int).push(
                    exps[i as int],
                ));
                lemma_named_push(exps.subrange(0, i as int), exps[i as int], name@);
            }
            if self.experiments[i].name == *name {
                out.push(&self.experiments[i]);
            }
            i = i + 1;
        }
        proof {
            assert(exps.subrange(0, exps.len() as int) =~= exps);
        }
        out
    }

    /// All metrics tagged with the experiment id `id`, input order
    /// preserved; empty where none matches.
    #[verifier::loop_isolation(false)]
    pub fn get_metrics_by_experiment_id<'a>(&'a self, id: &String) -> (r: Vec<&'a Metric>)
        ensures
            ref_views(r@) =~= metrics_for(self@.metrics, id@),
    {
        let ghost ms = self@.metrics;
        let mut out: Vec<&'a Metric> = Vec::new();
        let mut i: usize = 0;
        while i < self.metrics.len()
            invariant
                i <= self.metrics@.len(),
                ref_views(out@) =~= metrics_for(ms.subrange(0, i as int), id@),
            decreases self.metrics@.len() - i,
        {
            proof {
                assert(ms.subrange(0, i as int + 1) =~= ms.subrange(0, i as int).push(
                    ms[i as int],
                ));
                lemma_metrics_push(ms.subrange(0, i as int), ms[i as int], id@);
            }
            if self.metrics[i].experiment_id == *id {
                out.push(&self.metrics[i]);
            }
            i = i + 1;
        }
        proof {
            assert(ms.subrange(0, ms.len() as int) =~= ms);
        }
        out
    }

    /// All snapshots whose kind carries the name `name` (driver scripts and
    /// workloads), in insertion order; kinds without a name never match.
    #[verifier::loop_isolation(false)]
    pub fn get_snapshots_by_name<'a>(&'a self, name: &String) -> (r: Vec<&'a Snapshot>)
        ensures
            ref_views(r@) =~= snapshots_named(self@.snapshots, name@),
    {
        let ghost sn = self@.snapshots;
        let mut out: Vec<&'a Snapshot> = Vec::new();
        let mut i: usize = 0;
        while i < self.snapshots.len()
            invariant
                i <= self.snapshots@.len(),
                ref_views(out@) =~= snapshots_named(sn.subrange(0, i as int), name@),
            decreases self.snapshots@.len() - i,
        {
            proof {
                assert(sn.subrange(0, i as int + 1) =~= sn.subrange(0, i as int).push(
                    sn[i as int],
                ));
                lemma_snapshots_push(sn.subrange(0, i as int), sn[i as int], name@);
            }
            let matched = match self.snapshots[i].typ.name() {
                Ok(n) => n == *name,
                Err(_) => false,
            };
            if matched {
                out.push(&self.snapshots[i]);
            }
            i = i + 1;
        }
        proof {
            assert(sn.subrange(0, sn.len() as int) =~= sn);
        }
        out
    }

    /// The first snapshot whose content hash is exactly `hash`; absence is
    /// an error.
    #[verifier::loop_isolation(false)]
    pub fn get_snapshot_by_hash<'a>(&'a self, hash: &String) -> (r: Result<
        &'a Snapshot,
        StoreError,
    >)
        ensures
            match r {
                Ok(s) => find_snapshot(self@.snapshots, hash@) == Some(s@),
                Err(err) => err@ == StoreErrorV::SnapshotNotFound && find_snapshot(
                    self@.snapshots,
                    hash@,
                ) is None,
            },
    {
        let ghost sn = self@.snapshots;
        proof {
            assert(sn.skip(0) =~= sn);
        }
        let mut i: usize = 0;
        while i < self.snapshots.len()
            invariant
                i <= self.snapshots@.len(),
                find_snapshot(sn, hash@) == find_snapshot(sn.skip(i as int), hash@),
            decreases self.snapshots@.len() - i,
        {
            if self.snapshots[i].hash == *hash {
                proof {
                    assert(sn.skip(i as int)[0] == sn[i as int]);
                    reveal_with_fuel(find_snapshot, 2);
                }
                return Ok(&self.snapshots[i]);
            }
            proof {
                assert(sn.skip(i as int)[0] == sn[i as int]);
                assert(sn.skip(i as int).drop_first() =~= sn.skip(i as int + 1));
                reveal_with_fuel(find_snapshot, 2);
            }
            i = i + 1;
        }
        proof {
            assert(sn.skip(sn.len() as int).len() == 0);
        }
        Err(StoreError::SnapshotNotFound)
    }

    /// Whether some experiment record carries both this name and this id.
    #[verifier::loop_isolation(false)]
    fn any_named_with_id(&self, name: &String, id: &String) -> (r: bool)
        ensures
            r == exists|j: int|
                0 <= j < self@.experiments.len() && (#[trigger] self@.experiments[j]).name == name@
                    && self@.experiments[j].id == id@,
    {
        let mut i: usize = 0;
        while i < self.experiments.len()
            invariant
                i <= self.experiments@.len(),
                forall|k: int|
                    0 <= k < i ==> !((#[trigger] self@.experiments[k]).name == name@
                        && self@.experiments[k].id == id@),
            decreases self.experiments@.len() - i,
        {
            if self.experiments[i].name == *name && self.experiments[i].id == *id {
                proof {
                    assert(self@.experiments[i as int].name == name@);
                }
                return true;
            }
            i = i + 1;
        }
        false
    }

    /// The current version of the experiment named `name`: among the
    /// whole-experiment snapshots whose hash is the id of some experiment of
    /// that name, take the most recent by timestamp — ties go to the one
    /// registered first — and return the first experiment carrying its hash
    /// as id.  Fails with a not-found error where no experiment has the
    /// name, and with a snapshot error where none of the candidate ids has a
    /// readable whole-experiment snapshot.
    #[verifier::loop_isolation(false)]
    pub fn get_experiment_by_name<'a>(&'a self, name: &String) -> (r: Result<
        &'a Experiment,
        StoreError,
    >)
        ensures
            match r {
                Ok(e) => {
                    &&& experiments_named(self@.experiments, name@).len() > 0
                    &&& latest_candidate(self@.snapshots, self@.experiments, name@) matches Some(b)
                        && find_experiment(self@.experiments, b.hash) == Some(e@)
                },
                Err(err) => {
                    if experiments_named(self@.experiments, name@).len() == 0 {
                        err@ == StoreErrorV::ExperimentNotFound
                    } else {
                        err@ == StoreErrorV::SnapshotNotFound && latest_candidate(
                            self@.snapshots,
                            self@.experiments,
                            name@,
                        ) is None
                    }
                },
            },
    {
        let named = self.get_all_experiments_by_name(name);
        if named.len() == 0 {
            proof {
                assert(ref_views(named@).len() == 0);
            }
            return Err(StoreError::ExperimentNotFound);
        }
        proof {
            assert(ref_views(named@).len() == named@.len());
        }
        let ghost sn = self@.snapshots;
        let ghost exps = self@.experiments;
        let mut best: Option<&Snapshot> = None;
        let mut best_time: i64 = 0;
        let mut i: usize = 0;
        while i < self.snapshots.len()
            invariant
                i <= self.snapshots@.len(),
                match best {
                    None => latest_candidate(sn.subrange(0, i as int), exps, name@) is None,
                    Some(b) => {
                        &&& latest_candidate(sn.subrange(0, i as int), exps, name@) == Some(b@)
                        &&& b@.typ.spec_time() == Some(best_time)
                    },
                },
            decreases self.snapshots@.len() - i,
        {
            let s = &self.snapshots[i];
            let cand_time = s.typ.time();
            let is_cand = match cand_time {
                Some(_) => self.any_named_with_id(name, &s.hash),
                None => false,
            };
            proof {
                assert(s@ == sn[i as int]);
                assert(is_cand == is_candidate(sn[i as int], exps, name@));
                assert(sn.subrange(0, i as int + 1).drop_last() =~= sn.subrange(0, i as int));
                assert(sn.subrange(0, i as int + 1).last() == sn[i as int]);
            }
            if is_cand {
                let t = match cand_time {
                    Some(t) => t,
                    None => 0,
                };
                match best {
                    None => {
                        best = Some(s);
                        best_time = t;
                    },
                    Some(_) => {
                        if t > best_time {
                            best = Some(s);
                            best_time = t;
                        }
                    },
                }
            }
            i = i + 1;
        }
        proof {
            assert(sn.subrange(0, sn.len() as int) =~= sn);
        }
        match best {
            None => Err(StoreError::SnapshotNotFound),
            Some(b) => {
                match self.get_experiment_by_id(&b.hash) {
                    Ok(e) => Ok(e),
                    Err(_) => {
                        proof {
                            lemma_latest_is_candidate(sn, exps, name@);
                            assert(is_candidate(b@, exps, name@));
                            lemma_find_experiment_some(exps, b@.hash);
                            assert(false);
                        }
                        Err(StoreError::SnapshotNotFound)
                    },
                }
            },
        }
    }

    /// One resolution, for hasher answers already in hand: registers the
    /// toolchain and whole-experiment snapshots, the collection-script
    /// snapshot where its hash came back, and one snapshot per hashed
    /// workload, and returns the bundle.  A script or workload whose hash
    /// is missing is simply left out of the bundle; the operation itself
    /// cannot fail.
    #[verifier::loop_isolation(false)]
    pub fn take_snapshot_with(
        &mut self,
        etna_config: &EtnaConfig,
        experiment_config: &ExperimentConfig,
        etna_hash: String,
        experiment_hash: String,
        time: String,
        script_hash: Option<String>,
        workload_hashes: Vec<Option<String>>,
    ) -> (r: ExperimentSnapshot)
        requires
            workload_hashes@.len() == experiment_config@.workloads.len(),
        ensures
            take_outcome(
                old(self)@,
                final(self)@,
                etna_config@,
                experiment_config@,
                r@,
                etna_hash@,
                experiment_hash@,
                time@,
                opt_view(script_hash),
                opt_views(workload_hashes@),
            ),
            old(self)@.wf() ==> final(self)@.wf(),
    {
        let ghost cfg = etna_config@;
        let ghost exp = experiment_config@;
        let ghost whs = opt_views(workload_hashes@);
        let ghost shg = opt_view(script_hash);
        let ghost tg = time@;
        let ghost snaps0 = self@.snapshots;
        let ghost head2 = seq![
            etna_snap(cfg, etna_hash@),
            experiment_snap(exp.path, time@, experiment_hash@),
        ];

        let etna_snapshot = Snapshot {
            path: etna_config.repo_dir.clone(),
            typ: SnapshotType::Etna { branch: etna_config.branch.clone() },
            hash: etna_hash.clone(),
        };
        proof {
            assert(etna_snapshot@ =~= etna_snap(cfg, etna_hash@));
        }
        let _added = self.insert_snapshot(etna_snapshot);

        let experiment_snapshot = Snapshot {
            path: join_paths(experiment_config.path.as_str(), "*"),
            typ: SnapshotType::Experiment { time },
            hash: experiment_hash.clone(),
        };
        proof {
            assert(experiment_snapshot@ =~= experiment_snap(exp.path, time@, experiment_hash@));
        }
        let _added = self.insert_snapshot(experiment_snapshot);

        proof {
            reveal_with_fuel(reg_insert_list, 3);
            assert(head2.drop_last() =~= seq![etna_snap(cfg, etna_hash@)]);
            assert(head2.drop_last().drop_last() =~= Seq::<SnapshotV>::empty());
            assert(self@.snapshots == reg_insert_list(snaps0, head2));
        }

        let collect_name = String::from_str("Collect.py");
        let mut scripts: Vec<(String, String)> = Vec::new();
        match script_hash {
            Some(h) => {
                let script_snapshot = Snapshot {
                    path: join_paths(experiment_config.path.as_str(), "Collect.py"),
                    typ: SnapshotType::Script { name: collect_name.clone() },
                    hash: h.clone(),
                };
                proof {
                    assert(script_snapshot@ =~= script_snap(exp.path, h@));
                }
                let _added = self.insert_snapshot(script_snapshot);
                scripts.push((collect_name, h));
                proof {
                    assert(script_snaps(exp.path, shg) =~= seq![script_snap(exp.path, shg->0)]);
                    lemma_reg_insert_concat(snaps0, head2, script_snaps(exp.path, shg));
                    reveal_with_fuel(reg_insert_list, 2);
                    assert(script_snaps(exp.path, shg).drop_last() =~= Seq::<SnapshotV>::empty());
                    assert(self@.snapshots == reg_insert_list(snaps0, head2 + script_snaps(exp.path, shg)));
                }
            },
            None => {
                proof {
                    assert(head2 + script_snaps(exp.path, shg) =~= head2);
                    assert(self@.snapshots == reg_insert_list(snaps0, head2 + script_snaps(exp.path, shg)));
                }
            },
        }
        let ghost snaps3 = self@.snapshots;

        let mut workloads_bundle: Vec<(Workload, String)> = Vec::new();
        let mut i: usize = 0;
        while i < workload_hashes.len()
            invariant
                i <= workload_hashes@.len(),
                self@.snapshots == reg_insert_list(
                    snaps3,
                    workload_snaps(exp.path, exp.workloads.take(i as int), whs.take(i as int)),
                ),
                Seq::new(
                    workloads_bundle@.len(),
                    |k: int| (workloads_bundle@[k].0@, workloads_bundle@[k].1@),
                ) =~= bundle_workloads(exp.workloads.take(i as int), whs.take(i as int)),
                self@.metrics == old(self)@.metrics,
                self@.experiments == old(self)@.experiments,
                old(self)@.wf() ==> self@.wf(),
            decreases workload_hashes@.len() - i,
        {
            let ghost partial = workload_snaps(exp.path, exp.workloads.take(i as int), whs.take(i as int));
            proof {
                assert(exp.workloads.take(i as int + 1).drop_last() =~= exp.workloads.take(i as int));
                assert(whs.take(i as int + 1).drop_last() =~= whs.take(i as int));
                assert(exp.workloads.take(i as int + 1).last() == exp.workloads[i as int]);
                assert(whs.take(i as int + 1).last() == whs[i as int]);
            }
            match &workload_hashes[i] {
                Some(h) => {
                    let w = experiment_config.workloads[i].clone();
                    let rel = join_paths(
                        join_paths(join_paths("workloads", w.language.as_str()).as_str(), w.name.as_str()).as_str(),
                        "*",
                    );
                    let snap = Snapshot {
                        path: join_paths(experiment_config.path.as_str(), rel.as_str()),
                        typ: SnapshotType::Workload { name: w.name.clone(), language: w.language.clone() },
                        hash: h.clone(),
                    };
                    proof {
                        assert(snap@ =~= workload_snap(exp.path, exp.workloads[i as int], h@));
                    }
                    let _added = self.insert_snapshot(snap);
                    workloads_bundle.push((w, h.clone()));
                    proof {
                        assert(workload_snaps(exp.path, exp.workloads.take(i as int + 1), whs.take(i as int + 1))
                            =~= partial + seq![workload_snap(exp.path, exp.workloads[i as int], h@)]);
                        lemma_reg_insert_concat(
                            snaps3,
                            partial,
                            seq![workload_snap(exp.path, exp.workloads[i as int], h@)],
                        );
                        reveal_with_fuel(reg_insert_list, 2);
                        assert(seq![workload_snap(exp.path, exp.workloads[i as int], h@)].drop_last()
                            =~= Seq::<SnapshotV>::empty());
                    }
                },
                None => {
                    proof {
                        assert(workload_snaps(exp.path, exp.workloads.take(i as int + 1), whs.take(i as int + 1))
                            =~= partial);
                        assert(bundle_workloads(exp.workloads.take(i as int + 1), whs.take(i as int + 1))
                            =~= bundle_workloads(exp.workloads.take(i as int), whs.take(i as int)));
                    }
                },
            }
            i = i + 1;
        }
        proof {
            assert(exp.workloads.take(exp.workloads.len() as int) =~= exp.workloads);
            assert(whs.take(whs.len() as int) =~= whs);
        }

        let r = ExperimentSnapshot {
            experiment: experiment_hash,
            etna: etna_hash,
            scripts,
            workloads: workloads_bundle,
        };
        proof {
            assert(r@.scripts =~= script_rows(shg));
            assert(r@.workloads =~= bundle_workloads(exp.workloads, whs));
            lemma_reg_insert_concat(
                snaps0,
                head2 + script_snaps(exp.path, shg),
                workload_snaps(exp.path, exp.workloads, whs),
            );
            assert(produced_snaps(cfg, exp, etna_hash@, experiment_hash@, tg, shg, whs) =~= (head2
                + script_snaps(exp.path, shg)) + workload_snaps(exp.path, exp.workloads, whs));
        }
        r
    }

    /// One resolution against the content hasher: hashes the toolchain
    /// head, the experiment tree at this instant, the collection script and
    /// each declared workload, registers every snapshot obtained, and
    /// returns the bundle.  Fails, leaving the store untouched, only where
    /// the toolchain head or the experiment tree cannot be hashed; a
    /// script or workload that cannot be hashed is left out of the bundle.
    #[verifier::loop_isolation(false)]
    pub fn take_snapshot(
        &mut self,
        etna_config: &EtnaConfig,
        experiment_config: &ExperimentConfig,
    ) -> (r: Result<ExperimentSnapshot, StoreError>)
        ensures
            match r {
                Ok(b) => some_take_outcome(
                    old(self)@,
                    final(self)@,
                    etna_config@,
                    experiment_config@,
                    b@,
                ),
                Err(e) => e@ == StoreErrorV::HashUnavailable && final(self)@ == old(self)@,
            },
            old(self)@.wf() ==> final(self)@.wf(),
    {
        let etna_hash = match git_driver::head_hash(etna_config.repo_dir.as_str()) {
            Ok(h) => h,
            Err(_) => {
                return Err(StoreError::HashUnavailable);
            },
        };
        let time = now_rfc3339();
        let experiment_hash = match git_driver::tree_hash(experiment_config.path.as_str(), "*") {
            Ok(h) => h,
            Err(_) => {
                return Err(StoreError::HashUnavailable);
            },
        };
        let script_hash = match git_driver::tree_hash(experiment_config.path.as_str(), "Collect.py") {
            Ok(h) => Some(h),
            Err(_) => None,
        };
        let mut workload_hashes: Vec<Option<String>> = Vec::new();
        let mut i: usize = 0;
        while i < experiment_config.workloads.len()
            invariant
                i <= experiment_config.workloads@.len(),
                workload_hashes@.len() == i,
            decreases experiment_config.workloads@.len() - i,
        {
            let w = &experiment_config.workloads[i];
            let rel = join_paths(
                join_paths(join_paths("workloads", w.language.as_str()).as_str(), w.name.as_str()).as_str(),
                "*",
            );
            match git_driver::tree_hash(experiment_config.path.as_str(), rel.as_str()) {
                Ok(h) => workload_hashes.push(Some(h)),
                Err(_) => workload_hashes.push(None),
            }
            i = i + 1;
        }
        let ghost ehg = etna_hash@;
        let ghost xhg = experiment_hash@;
        let ghost tg = time@;
        let ghost shg = opt_view(script_hash);
        let ghost whsg = opt_views(workload_hashes@);
        let b = self.take_snapshot_with(
            etna_config,
            experiment_config,
            etna_hash,
            experiment_hash,
            time,
            script_hash,
            workload_hashes,
        );
        proof {
            assert(whsg.len() == experiment_config@.workloads.len());
            assert(take_outcome(
                old(self)@,
                self@,
                etna_config@,
                experiment_config@,
                b@,
                ehg,
                xhg,
                tg,
                shg,
                whsg,
            ));
        }
        Ok(b)
    }
}

} // verus!
