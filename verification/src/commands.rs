pub mod change_branch;
pub mod query;
pub mod run_experiment;
pub mod write;
