//! Results, progress and configuration of loading pull requests and their
//! work items.

use vstd::prelude::*;
use crate::models::PullRequestWithWorkItems;

verus! {

/// The result of loading pull requests.
#[derive(Debug, Clone)]
pub struct DataLoadingResult {
    pub pull_requests: Vec<PullRequestWithWorkItems>,
    pub total_fetched: usize,
    pub after_filter: usize,
    pub with_commits: usize,
}

/// The number of PRs that have a merge commit.
pub open spec fn count_with_commits(prs: Seq<PullRequestWithWorkItems>) -> nat
    decreases prs.len(),
{
    if prs.len() == 0 {
        0
    } else {
        count_with_commits(prs.drop_last()) + if prs.last().pr.last_merge_commit is Some { 1nat } else { 0nat }
    }
}

impl DataLoadingResult {
    /// A result from a list of PRs: all counted as fetched and kept, and
    /// those with a merge commit counted.
    pub fn from_prs(prs: Vec<PullRequestWithWorkItems>) -> (r: Self)
        ensures
            r.pull_requests == prs,
            r.total_fetched == prs@.len(),
            r.after_filter == prs@.len(),
            r.with_commits == count_with_commits(prs@),
    {
        let count = prs.len();
        let mut with_commits: usize = 0;
        let mut i: usize = 0;
        while i < prs.len()
            invariant
                0 <= i <= prs@.len(),
                with_commits == count_with_commits(prs@.subrange(0, i as int)),
                with_commits <= i,
            decreases prs@.len() - i,
        {
            proof {
                assert(prs@.subrange(0, i as int + 1).drop_last() =~= prs@.subrange(0, i as int));
            }
            if prs[i].pr.last_merge_commit.is_some() {
                with_commits = with_commits + 1;
            }
            i = i + 1;
        }
        proof {
            assert(prs@.subrange(0, prs@.len() as int) =~= prs@);
        }
        DataLoadingResult { pull_requests: prs, total_fetched: count, after_filter: count, with_commits }
    }
}

/// Progress of loading.
#[derive(Debug, Clone)]
pub enum DataLoadingProgress {
    FetchingPullRequests,
    FetchingWorkItems { pr_count: usize },
    WorkItemsProgress { completed: usize, total: usize },
    FetchingCommitInfo { pr_count: usize },
    Complete,
}

/// Configuration of loading.
#[derive(Debug, Clone)]
pub struct DataLoadingConfig {
    /// Branch the PRs were merged into.
    pub dev_branch: String,
    /// Only PRs created after this instant (milliseconds since the Unix epoch).
    pub since: Option<i64>,
    /// Tag prefix marking already merged PRs.
    pub tag_prefix: String,
    /// Maximum concurrent network requests.
    pub max_concurrent: usize,
}

impl Default for DataLoadingConfig {
    fn default() -> (r: Self)
        ensures
            r.dev_branch@ == "dev"@,
            r.since is None,
            r.tag_prefix@ == "merged-"@,
            r.max_concurrent == 5,
    {
        DataLoadingConfig { dev_branch: "dev".to_owned(), since: None, tag_prefix: "merged-".to_owned(), max_concurrent: 5 }
    }
}

/// Loading settings.
pub struct DataLoadingOperation {
    config: DataLoadingConfig,
}

impl DataLoadingOperation {
    /// An operation with a configuration.
    pub fn new(config: DataLoadingConfig) -> (r: Self)
        ensures
            r.config_view() == config,
    {
        DataLoadingOperation { config }
    }

    /// The configuration.
    pub closed spec fn config_view(&self) -> DataLoadingConfig {
        self.config
    }

    /// The configuration.
    pub fn config(&self) -> (r: &DataLoadingConfig)
        ensures
            *r == self.config_view(),
    {
        &self.config
    }

    /// The dev branch.
    pub fn dev_branch(&self) -> (r: &str)
        ensures
            r@ == self.config_view().dev_branch@,
    {
        self.config.dev_branch.as_str()
    }

    /// The date filter.
    pub fn since(&self) -> (r: Option<i64>)
        ensures
            r == self.config_view().since,
    {
        self.config.since
    }

    /// The tag prefix.
    pub fn tag_prefix(&self) -> (r: &str)
        ensures
            r@ == self.config_view().tag_prefix@,
    {
        self.config.tag_prefix.as_str()
    }
}

} // verus!
