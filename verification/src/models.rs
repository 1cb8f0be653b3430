//! The data that the merge workflow reads from Azure DevOps: pull requests,
//! their work items, and the status of a cherry-pick.

use vstd::prelude::*;

verus! {

/// The author of a pull request.
#[derive(Debug, Clone)]
pub struct CreatedBy {
    pub display_name: String,
}

/// The merge commit of a completed pull request.
#[derive(Debug, Clone)]
pub struct MergeCommit {
    pub commit_id: String,
}

/// A label (tag) attached to a pull request.
#[derive(Debug, Clone)]
pub struct Label {
    pub name: String,
}

/// A pull request.
#[derive(Debug, Clone)]
pub struct PullRequest {
    pub id: i32,
    pub title: String,
    pub closed_date: Option<String>,
    pub created_by: CreatedBy,
    pub labels: Option<Vec<Label>>,
    pub last_merge_commit: Option<MergeCommit>,
}

/// The fields of a work item that the workflow reads.
#[derive(Debug, Clone)]
pub struct WorkItemFields {
    pub title: Option<String>,
    pub state: Option<String>,
    pub work_item_type: Option<String>,
    pub assigned_to: Option<CreatedBy>,
    pub iteration_path: Option<String>,
    pub description: Option<String>,
    pub repro_steps: Option<String>,
    pub state_color: Option<String>,
}

/// One revision in the history of a work item.
#[derive(Debug, Clone)]
pub struct WorkItemHistory {
    pub rev: i32,
    pub state: Option<String>,
}

/// A work item linked to a pull request.
#[derive(Debug, Clone)]
pub struct WorkItem {
    pub id: i32,
    pub fields: WorkItemFields,
    pub history: Vec<WorkItemHistory>,
}

/// A pull request together with its work items and whether it is selected.
#[derive(Debug, Clone)]
pub struct PullRequestWithWorkItems {
    pub pr: PullRequest,
    pub work_items: Vec<WorkItem>,
    pub selected: bool,
}

/// The status of one pull request in a cherry-pick run.
#[derive(Debug, Clone)]
pub enum CherryPickStatus {
    Pending,
    InProgress,
    Success,
    Conflict,
    Skipped,
    Failed(String),
}

/// How a command reports its progress.
#[derive(Debug, Clone, Copy, PartialEq, Eq, Structural)]
pub enum OutputFormat {
    /// Human-readable text.
    Text,
    /// One JSON document at the end.
    Json,
    /// One JSON object per line.
    Ndjson,
}

} // verus!
