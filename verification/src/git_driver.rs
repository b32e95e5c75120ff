use vstd::prelude::*;

verus! {

// The content hasher is an external collaborator: it is consulted for a
// stable content hash over a directory subtree, and for the hash of a
// repository's current head commit.  Both answers depend on what is on
// disk at call time, so their contracts state nothing about the values;
// every caller is verified for every possible answer.

#[verifier::external_type_specification]
#[verifier::external_body]
pub struct ExGitError(git2::Error);

/// Relies on git2 (`Repository::open`, `head`, `peel_to_commit`,
/// `Oid::to_string`) for the hash of the repository's current head commit.
/// The result depends on the repository on disk, so nothing is stated of it.
#[verifier::external_body]
pub(crate) fn head_hash(repo_path: &str) -> Result<String, git2::Error> {
    let repo = git2::Repository::open(repo_path)?;
    let head = repo.head()?.peel_to_commit()?;
    Ok(head.id().to_string())
}

/// Relies on git2 (`Repository::open`, `Index::clear`, `Index::add_all`,
/// `Index::write_tree`, `Oid::to_string`) for a stable content hash over the
/// files matched by `index_glob` inside the repository at `repo_path`.
/// The result depends on the files on disk, so nothing is stated of it.
#[verifier::external_body]
pub(crate) fn tree_hash(repo_path: &str, index_glob: &str) -> Result<String, git2::Error> {
    let repo = git2::Repository::open(repo_path)?;
    let mut index = repo.index()?;
    index.clear()?;
    index.add_all([index_glob], git2::IndexAddOption::DEFAULT, None)?;
    let tree_id = index.write_tree()?;
    let hash = repo.find_tree(tree_id)?.id().to_string();
    Ok(hash)
}

} // verus!
