//! What is known of a pull request.

use vstd::prelude::*;

use crate::text;

verus! {

/// A repository on GitHub.
#[derive(Debug, PartialEq, Eq)]
pub struct GithubSlug {
    pub owner: String,
    pub name: String,
}

impl View for GithubSlug {
    type V = (Seq<char>, Seq<char>);

    open spec fn view(&self) -> (Seq<char>, Seq<char>) {
        (self.owner@, self.name@)
    }
}

impl Clone for GithubSlug {
    fn clone(&self) -> (r: Self)
        ensures
            r == *self,
    {
        GithubSlug { owner: self.owner.clone(), name: self.name.clone() }
    }
}

impl GithubSlug {
    /// Whether both name the same repository.
    pub fn same(&self, other: &GithubSlug) -> (r: bool)
        ensures
            r == (self@ == other@),
    {
        text::same(&self.owner, &other.owner) && text::same(&self.name, &other.name)
    }
}

#[derive(Debug, Clone, Copy, PartialEq, Eq, Structural)]
pub enum PrState {
    Open,
    Merged,
    Closed,
}

#[derive(Debug, Clone, Copy, PartialEq, Eq, Structural)]
pub enum ChecksRollup {
    /// No checks configured for the head commit.
    Absent,
    Pending,
    Success,
    Failure,
    /// Neutral and skipped checks are not failing.
    Neutral,
}

#[derive(Debug, Clone, Copy, PartialEq, Eq, Structural)]
pub enum ReviewDecision {
    /// No reviews yet, or not applicable.
    Absent,
    Approved,
    ChangesRequested,
    /// Somebody has yet to approve.
    ReviewRequired,
}

impl Default for ReviewDecision {
    fn default() -> (r: Self)
        ensures
            r == ReviewDecision::Absent,
    {
        ReviewDecision::Absent
    }
}

/// Where a pull request sits in its repo's merge queue.
#[derive(Debug, Clone, Copy, PartialEq, Eq, Structural)]
pub enum MergeQueueState {
    /// In line, nothing running for it yet.
    Queued,
    /// At the front: the merge branch is being built and tested.
    AwaitingChecks,
    /// Checks passed; it merges as soon as the queue reaches it.
    Mergeable,
    /// The queue is about to eject it.
    Unmergeable,
    /// Held by a lock on the base branch.
    Locked,
}

/// A pull request's place in a stack, where 1 is closest to the base branch.
#[derive(Debug, Clone, Copy, PartialEq, Eq, Structural)]
pub struct PrStack {
    pub number: u32,
    pub size: u32,
    pub position: u32,
}

/// What GitHub last said of a pull request.
#[derive(Debug, PartialEq, Eq)]
pub struct GithubPrStatus {
    pub pr_number: u32,
    pub url: String,
    pub state: PrState,
    pub is_draft: bool,
    pub checks: ChecksRollup,
    /// The Bugbot check, shown apart from the rest of the checks.
    pub bugbot: ChecksRollup,
    pub has_merge_conflicts: bool,
    pub review_decision: ReviewDecision,
    pub unresolved_threads: u32,
    /// `None` where GitHub did not report one.
    pub head_branch: Option<String>,
    pub stack: Option<PrStack>,
    /// Set only while the pull request sits in a merge queue.
    pub merge_queue: Option<MergeQueueState>,
    pub head_sha: String,
    /// Milliseconds since the epoch.
    pub fetched_at: i64,
    pub last_error: Option<String>,
}

impl Clone for GithubPrStatus {
    fn clone(&self) -> (r: Self)
        ensures
            r == *self,
    {
        GithubPrStatus {
            pr_number: self.pr_number,
            url: self.url.clone(),
            state: self.state,
            is_draft: self.is_draft,
            checks: self.checks,
            bugbot: self.bugbot,
            has_merge_conflicts: self.has_merge_conflicts,
            review_decision: self.review_decision,
            unresolved_threads: self.unresolved_threads,
            head_branch: text::copied(&self.head_branch),
            stack: self.stack,
            merge_queue: self.merge_queue,
            head_sha: self.head_sha.clone(),
            fetched_at: self.fetched_at,
            last_error: text::copied(&self.last_error),
        }
    }
}

/// What a status that was stored before Bugbot was tracked says of it.
pub fn default_bugbot() -> (r: ChecksRollup)
    ensures
        r == ChecksRollup::Absent,
{
    ChecksRollup::Absent
}

} // verus!
