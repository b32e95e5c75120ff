use vstd::prelude::*;

use crate::workload::{Workload, WorkloadV};

verus! {

/// Mathematical image of an [`ExperimentSnapshot`].
#[verifier::ext_equal]
pub struct ExperimentSnapshotV {
    pub experiment: Seq<char>,
    pub etna: Seq<char>,
    pub scripts: Seq<(Seq<char>, Seq<char>)>,
    pub workloads: Seq<(WorkloadV, Seq<char>)>,
}

/// The denormalized bundle built by the resolver for one experiment run:
/// the hash of the whole-experiment snapshot plus the component hashes that
/// went into it.  This is the value compared for change detection.
#[derive(Debug, PartialEq, Eq)]
pub struct ExperimentSnapshot {
    pub experiment: String,
    pub etna: String,
    pub scripts: Vec<(String, String)>,
    pub workloads: Vec<(Workload, String)>,
}

impl View for ExperimentSnapshot {
    type V = ExperimentSnapshotV;

    open spec fn view(&self) -> ExperimentSnapshotV {
        ExperimentSnapshotV {
            experiment: self.experiment@,
            etna: self.etna@,
            scripts: self.scripts@.map_values(|p: (String, String)| (p.0@, p.1@)),
            workloads: self.workloads@.map_values(|p: (Workload, String)| (p.0@, p.1@)),
        }
    }
}

impl Clone for ExperimentSnapshot {
    /// A copy carrying the same hashes.
    fn clone(&self) -> (r: Self)
        ensures
            r@ == self@,
    {
        let mut scripts: Vec<(String, String)> = Vec::new();
        let mut i: usize = 0;
        while i < self.scripts.len()
            invariant
                i <= self.scripts.len(),
                scripts@.len() == i,
                forall|k: int|
                    0 <= k < i ==> (#[trigger] scripts@[k]).0@ == self.scripts@[k].0@
                        && scripts@[k].1@ == self.scripts@[k].1@,
            decreases self.scripts.len() - i,
        {
            let pair = (self.scripts[i].0.clone(), self.scripts[i].1.clone());
            scripts.push(pair);
            i = i + 1;
        }
        let mut workloads: Vec<(Workload, String)> = Vec::new();
        let mut j: usize = 0;
        while j < self.workloads.len()
            invariant
                j <= self.workloads.len(),
                workloads@.len() == j,
                forall|k: int|
                    0 <= k < j ==> (#[trigger] workloads@[k]).0@ == self.workloads@[k].0@
                        && workloads@[k].1@ == self.workloads@[k].1@,
            decreases self.workloads.len() - j,
        {
            let pair = (self.workloads[j].0.clone(), self.workloads[j].1.clone());
            workloads.push(pair);
            j = j + 1;
        }
        let r = ExperimentSnapshot {
            experiment: self.experiment.clone(),
            etna: self.etna.clone(),
            scripts,
            workloads,
        };
        proof {
            assert(r@ =~= self@);
        }
        r
    }
}

impl ExperimentSnapshot {
    /// Structural equality of every hash in the bundle.
    pub fn same_as(&self, other: &ExperimentSnapshot) -> (r: bool)
        ensures
            r == (self@ == other@),
    {
        if !(self.experiment == other.experiment && self.etna == other.etna) {
            proof {
                assert(self@ != other@);
            }
            return false;
        }
        if self.scripts.len() != other.scripts.len() || self.workloads.len()
            != other.workloads.len() {
            proof {
                assert(self@.scripts.len() != other@.scripts.len() || self@.workloads.len()
                    != other@.workloads.len());
            }
            return false;
        }
        let mut i: usize = 0;
        while i < self.scripts.len()
            invariant
                i <= self.scripts.len(),
                self.scripts@.len() == other.scripts@.len(),
                forall|k: int|
                    0 <= k < i ==> #[trigger] self@.scripts[k] == other@.scripts[k],
            decreases self.scripts.len() - i,
        {
            if !(self.scripts[i].0 == other.scripts[i].0 && self.scripts[i].1
                == other.scripts[i].1) {
                proof {
                    assert(self@.scripts[i as int] != other@.scripts[i as int]);
                }
                return false;
            }
            i = i + 1;
        }
        let mut j: usize = 0;
        while j < self.workloads.len()
            invariant
                j <= self.workloads.len(),
                self.workloads@.len() == other.workloads@.len(),
                forall|k: int|
                    0 <= k < j ==> #[trigger] self@.workloads[k] == other@.workloads[k],
            decreases self.workloads.len() - j,
        {
            if !(self.workloads[j].0.same_as(&other.workloads[j].0) && self.workloads[j].1
                == other.workloads[j].1) {
                proof {
                    assert(self@.workloads[j as int] != other@.workloads[j as int]);
                }
                return false;
            }
            j = j + 1;
        }
        proof {
            assert(self@.scripts =~= other@.scripts);
            assert(self@.workloads =~= other@.workloads);
            assert(self@ =~= other@);
        }
        true
    }
}

/// Mathematical image of an [`Experiment`].
#[verifier::ext_equal]
pub struct ExperimentV {
    pub name: Seq<char>,
    pub id: Seq<char>,
    pub description: Seq<char>,
    pub path: Seq<char>,
    pub snapshot: ExperimentSnapshotV,
}

/// One historical version of an experiment.  Several records may share a
/// human-readable `name`; each version has its own `id`, which is the hash
/// of its whole-experiment snapshot.
#[derive(Debug, PartialEq, Eq)]
pub struct Experiment {
    pub name: String,
    pub id: String,
    pub description: String,
    pub path: String,
    pub snapshot: ExperimentSnapshot,
}

impl View for Experiment {
    type V = ExperimentV;

    open spec fn view(&self) -> ExperimentV {
        ExperimentV {
            name: self.name@,
            id: self.id@,
            description: self.description@,
            path: self.path@,
            snapshot: self.snapshot@,
        }
    }
}

impl Clone for Experiment {
    /// A copy of the same record.
    fn clone(&self) -> (r: Self)
        ensures
            r@ == self@,
    {
        let r = Experiment {
            name: self.name.clone(),
            id: self.id.clone(),
            description: self.description.clone(),
            path: self.path.clone(),
            snapshot: self.snapshot.clone(),
        };
        proof {
            assert(r@ =~= self@);
        }
        r
    }
}

impl Experiment {
    /// Structural equality of every field of the record.
    pub fn same_as(&self, other: &Experiment) -> (r: bool)
        ensures
            r == (self@ == other@),
    {
        let r = self.name == other.name && self.id == other.id && self.description
            == other.description && self.path == other.path && self.snapshot.same_as(
            &other.snapshot,
        );
        proof {
            if r {
                assert(self@ =~= other@);
            }
        }
        r
    }

    /// The same experiment re-identified by a freshly resolved bundle: the
    /// record's `id` becomes the bundle's whole-experiment hash and the
    /// bundle replaces the old one; name, description and path are kept.
    pub fn with_snapshot(&self, snapshot: ExperimentSnapshot) -> (r: Self)
        ensures
            r.name@ == self.name@,
            r.id@ == snapshot.experiment@,
            r.description@ == self.description@,
            r.path@ == self.path@,
            r.snapshot@ == snapshot@,
    {
        Experiment {
            name: self.name.clone(),
            id: snapshot.experiment.clone(),
            description: self.description.clone(),
            path: self.path.clone(),
            snapshot,
        }
    }
}

} // verus!
