use vstd::prelude::*;

use crate::config::EtnaConfig;

verus! {

/// Decides a branch change: on the same branch nothing is to be done;
/// otherwise the configuration to persist after the caller has moved the
/// checkout and reinstalled the toolchain is returned, equal to the old
/// one but for the branch.
pub fn invoke(config: &EtnaConfig, branch: String) -> (r: Option<EtnaConfig>)
    ensures
        config.branch@ == branch@ ==> r is None,
        config.branch@ != branch@ ==> (r matches Some(c) && c.etna_dir@ == config.etna_dir@
            && c.repo_dir@ == config.repo_dir@ && c.venv_dir@ == config.venv_dir@ && c.branch@
            == branch@ && c.configured == config.configured),
{
    if config.branch == branch {
        return None;
    }
    Some(
        EtnaConfig {
            etna_dir: config.etna_dir.clone(),
            repo_dir: config.repo_dir.clone(),
            venv_dir: config.venv_dir.clone(),
            branch,
            configured: config.configured,
        },
    )
}

} // verus!
