//! Override files that were left behind by worktrees that are gone.

use vstd::prelude::*;

use crate::dev_orchestrator::config::OrchestratorConfig;
use crate::dev_orchestrator::env_files::OVERRIDE_FILE;
use crate::paths;

verus! {

/// What is in the directory of the worktrees.
pub struct Candidate {
    pub path: String,
    pub is_dir: bool,
    /// Whether there is an override file where its backend would be.
    pub has_override: bool,
    /// Whether the backend is there at all.
    pub be_present: bool,
    /// Whether git takes it for a repository.
    pub is_repository: bool,
}

/// Where the backend of a worktree is.
pub fn be_dir(cfg: &OrchestratorConfig, path: &str) -> (r: String)
    ensures
        r@ == paths::join(path@, cfg.be_repo_key@),
{
    paths::joined(path, &cfg.be_repo_key)
}

/// Whether the backend of a worktree is gone, or is no repository any more.
pub fn is_orphan(c: &Candidate) -> (r: bool)
    ensures
        r == (!c.be_present || !c.is_repository),
{
    !c.be_present || !c.is_repository
}

/// The override file that is to be removed, if there is one: that of a worktree
/// whose backend is gone.
pub fn scrub_orphan_overrides(cfg: &OrchestratorConfig, c: &Candidate) -> (r: Option<String>)
    ensures
        if c.is_dir && c.has_override && (!c.be_present || !c.is_repository) {
            r matches Some(p) && p@ == paths::join(
                paths::join(c.path@, cfg.be_repo_key@),
                OVERRIDE_FILE@,
            )
        } else {
            r is None
        },
{
    if c.is_dir && c.has_override && is_orphan(c) {
        Some(paths::joined(&be_dir(cfg, &c.path), OVERRIDE_FILE))
    } else {
        None
    }
}

} // verus!
