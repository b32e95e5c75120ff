use vstd::prelude::*;
use vstd::string::StringExecFns;

use crate::errors::{StoreError, StoreErrorV};
use crate::experiment::ExperimentV;
use crate::paths::{join_paths, path_join};
use crate::store::Store;
use crate::workload::{Workload, WorkloadV};

verus! {

/// Relies on dirs::home_dir for the user's home directory.  The result
/// depends on the environment, so nothing is stated of it.
#[verifier::external_body]
fn home_dir_string() -> Option<String> {
    dirs::home_dir().map(|p| p.display().to_string())
}

/// Mathematical image of an [`EtnaConfig`].
#[verifier::ext_equal]
pub struct EtnaConfigV {
    pub etna_dir: Seq<char>,
    pub repo_dir: Seq<char>,
    pub venv_dir: Seq<char>,
    pub branch: Seq<char>,
    pub configured: bool,
}

/// The tool-wide configuration: where the toolchain checkout, the virtual
/// environment and the persisted store live, and which branch is in use.
#[derive(Debug, PartialEq)]
pub struct EtnaConfig {
    pub etna_dir: String,
    pub repo_dir: String,
    pub venv_dir: String,
    pub branch: String,
    pub configured: bool,
}

impl View for EtnaConfig {
    type V = EtnaConfigV;

    open spec fn view(&self) -> EtnaConfigV {
        EtnaConfigV {
            etna_dir: self.etna_dir@,
            repo_dir: self.repo_dir@,
            venv_dir: self.venv_dir@,
            branch: self.branch@,
            configured: self.configured,
        }
    }
}

impl EtnaConfig {
    /// The per-user configuration directory: a dot directory directly
    /// under the home directory, whatever the environment says that is.
    pub fn get_etna_dir() -> (r: Result<String, StoreError>)
        ensures
            match r {
                Ok(d) => exists|home: Seq<char>| d@ == path_join(home, ".etna"@),
                Err(e) => e@ == StoreErrorV::HomeUnavailable,
            },
    {
        match home_dir_string() {
            Some(home) => Ok(join_paths(home.as_str(), ".etna")),
            None => Err(StoreError::HomeUnavailable),
        }
    }

    /// A fresh, not yet configured record on the given branch, with the
    /// conventional layout under the configuration directory.
    pub fn new(branch: String) -> (r: Result<EtnaConfig, StoreError>)
        ensures
            match r {
                Ok(c) => {
                    &&& c.branch@ == branch@
                    &&& !c.configured
                    &&& exists|home: Seq<char>| c.etna_dir@ == path_join(home, ".etna"@)
                    &&& c.repo_dir@ == path_join(c.etna_dir@, "etna"@)
                    &&& c.venv_dir@ == path_join(c.etna_dir@, ".venv"@)
                },
                Err(e) => e@ == StoreErrorV::HomeUnavailable,
            },
    {
        let etna_dir = match Self::get_etna_dir() {
            Ok(d) => d,
            Err(e) => {
                return Err(e);
            },
        };
        let repo_dir = join_paths(etna_dir.as_str(), "etna");
        let venv_dir = join_paths(etna_dir.as_str(), ".venv");
        Ok(EtnaConfig { etna_dir, repo_dir, venv_dir, branch, configured: false })
    }

    /// Where the configuration document is persisted.
    pub fn config_path(&self) -> (r: String)
        ensures
            r@ == path_join(self.etna_dir@, "config.json"@),
    {
        join_paths(self.etna_dir.as_str(), "config.json")
    }

    /// Where the store document is persisted.
    pub fn store_path(&self) -> (r: String)
        ensures
            r@ == path_join(self.etna_dir@, "store.json"@),
    {
        join_paths(self.etna_dir.as_str(), "store.json")
    }
}

/// Mathematical image of an [`ExperimentConfig`].
#[verifier::ext_equal]
pub struct ExperimentConfigV {
    pub name: Seq<char>,
    pub description: Seq<char>,
    pub workloads: Seq<WorkloadV>,
    pub path: Seq<char>,
}

/// One experiment's declared configuration: its name, a description, the
/// workloads it runs, and the directory it lives in.
#[derive(Debug, PartialEq)]
pub struct ExperimentConfig {
    pub name: String,
    pub description: String,
    pub workloads: Vec<Workload>,
    pub path: String,
}

impl View for ExperimentConfig {
    type V = ExperimentConfigV;

    open spec fn view(&self) -> ExperimentConfigV {
        ExperimentConfigV {
            name: self.name@,
            description: self.description@,
            workloads: Seq::new(self.workloads@.len(), |i: int| self.workloads@[i]@),
            path: self.path@,
        }
    }
}

/// The first experiment record carrying `name`, if any.
pub open spec fn find_named(exps: Seq<ExperimentV>, name: Seq<char>) -> Option<ExperimentV>
    decreases exps.len(),
{
    if exps.len() == 0 {
        None
    } else if exps[0].name == name {
        Some(exps[0])
    } else {
        find_named(exps.drop_first(), name)
    }
}

impl ExperimentConfig {
    /// A fresh configuration with no workloads declared yet.
    pub fn new(name: &str, description: &str, path: String) -> (r: Self)
        ensures
            r.name@ == name@,
            r.description@ == description@,
            r@.workloads.len() == 0,
            r.path@ == path@,
    {
        ExperimentConfig {
            name: String::from_str(name),
            description: String::from_str(description),
            workloads: Vec::new(),
            path,
        }
    }

    /// The directory of the experiment that the store knows under `name`:
    /// the first record carrying that name.  The caller reads the
    /// experiment's own configuration file from that directory.
    #[verifier::loop_isolation(false)]
    pub fn from_etna_config(name: &String, store: &Store) -> (r: Result<String, StoreError>)
        ensures
            match r {
                Ok(p) => find_named(store@.experiments, name@) matches Some(e) && e.path == p@,
                Err(err) => err@ == StoreErrorV::ExperimentNotFound && find_named(
                    store@.experiments,
                    name@,
                ) is None,
            },
    {
        let ghost exps = store@.experiments;
        proof {
            assert(exps.skip(0) =~= exps);
        }
        let mut i: usize = 0;
        while i < store.experiments.len()
            invariant
                i <= store.experiments@.len(),
                find_named(exps, name@) == find_named(exps.skip(i as int), name@),
            decreases store.experiments@.len() - i,
        {
            if store.experiments[i].name == *name {
                proof {
                    assert(exps.skip(i as int)[0] == exps[i as int]);
                    reveal_with_fuel(find_named, 2);
                }
                return Ok(store.experiments[i].path.clone());
            }
            proof {
                assert(exps.skip(i as int)[0] == exps[i as int]);
                assert(exps.skip(i as int).drop_first() =~= exps.skip(i as int + 1));
                reveal_with_fuel(find_named, 2);
            }
            i = i + 1;
        }
        proof {
            assert(exps.skip(exps.len() as int).len() == 0);
        }
        Err(StoreError::ExperimentNotFound)
    }

    /// Whether the configuration declares the workload `(language, name)`.
    #[verifier::loop_isolation(false)]
    pub fn has_workload(&self, language: &String, name: &String) -> (r: bool)
        ensures
            r == exists|i: int|
                0 <= i < self@.workloads.len() && (#[trigger] self@.workloads[i]).language
                    == language@ && self@.workloads[i].name == name@,
    {
        let mut i: usize = 0;
        while i < self.workloads.len()
            invariant
                i <= self.workloads@.len(),
                forall|k: int|
                    0 <= k < i ==> !((#[trigger] self@.workloads[k]).language == language@
                        && self@.workloads[k].name == name@),
            decreases self.workloads@.len() - i,
        {
            if self.workloads[i].language == *language && self.workloads[i].name == *name {
                proof {
                    assert(self@.workloads[i as int].language == language@);
                }
                return true;
            }
            i = i + 1;
        }
        false
    }
}

} // verus!
