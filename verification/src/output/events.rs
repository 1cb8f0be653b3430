//! Progress events of a merge run and the status and summary records.

use vstd::prelude::*;
use crate::text::concat2;

verus! {

/// A progress event of a merge operation.
#[derive(Debug, Clone)]
pub enum ProgressEvent {
    Start { total_prs: usize, version: String, target_branch: String, state_file_path: Option<String> },
    CherryPickStart { pr_id: i32, commit_id: String, index: usize, total: usize },
    CherryPickSuccess { pr_id: i32, commit_id: String },
    CherryPickConflict { pr_id: i32, conflicted_files: Vec<String>, repo_path: String },
    CherryPickFailed { pr_id: i32, error: String },
    CherryPickSkipped { pr_id: i32, reason: Option<String> },
    DependencyAnalysisStart { pr_count: usize },
    DependencyAnalysisComplete { independent: usize, partial: usize, dependent: usize },
    DependencyWarning {
        selected_pr_id: i32,
        selected_pr_title: String,
        unselected_pr_id: i32,
        unselected_pr_title: String,
        is_critical: bool,
        shared_files: Vec<String>,
    },
    PostMergeStart { task_count: usize },
    PostMergeProgress { task_type: String, target_id: i32, status: PostMergeStatus },
    Complete { successful: usize, failed: usize, skipped: usize },
    Status(Box<StatusInfo>),
    Aborted { success: bool, message: Option<String> },
    Error { message: String, code: Option<String> },
    HookStart { trigger: String, command_count: usize },
    HookCommandStart { trigger: String, command: String, index: usize },
    HookCommandComplete { trigger: String, command: String, success: bool, index: usize },
    HookComplete { trigger: String, all_succeeded: bool },
    HookFailed { trigger: String, command: String, error: String },
}

/// Status of a post-merge task.
#[derive(Debug, Clone)]
pub enum PostMergeStatus {
    Pending,
    Success,
    Failed { error: String },
    Skipped,
}

/// The displayed form of a post-merge status.
pub open spec fn post_merge_status_text(s: PostMergeStatus) -> Seq<char> {
    match s {
        PostMergeStatus::Pending => "pending"@,
        PostMergeStatus::Success => "success"@,
        PostMergeStatus::Failed { error } => "failed: "@ + error@,
        PostMergeStatus::Skipped => "skipped"@,
    }
}

impl PostMergeStatus {
    /// The displayed form of this status.
    pub fn display_string(&self) -> (r: String)
        ensures
            r@ == post_merge_status_text(*self),
    {
        match self {
            PostMergeStatus::Pending => "pending".to_owned(),
            PostMergeStatus::Success => "success".to_owned(),
            PostMergeStatus::Failed { error } => concat2("failed: ", error.as_str()),
            PostMergeStatus::Skipped => "skipped".to_owned(),
        }
    }
}

/// Details of a conflict, with instructions to resolve it.
#[derive(Debug, Clone)]
pub struct ConflictInfo {
    pub pr_id: i32,
    pub pr_title: String,
    pub commit_id: String,
    pub conflicted_files: Vec<String>,
    pub repo_path: String,
    pub resolution_instructions: Vec<String>,
}

/// The instructions for resolving a conflict in the repository at `path`.
pub open spec fn resolution_steps(path: Seq<char>) -> Seq<Seq<char>> {
    seq![
        "1. Navigate to: "@ + path,
        "2. Resolve conflicts in the listed files"@,
        "3. Stage resolved files: git add <files>"@,
        "4. Run: mergers merge continue"@,
    ]
}

impl ConflictInfo {
    /// Conflict details with the resolution instructions for `repo_path`.
    pub fn new(
        pr_id: i32,
        pr_title: String,
        commit_id: String,
        conflicted_files: Vec<String>,
        repo_path: String,
    ) -> (r: Self)
        ensures
            r.pr_id == pr_id,
            r.pr_title == pr_title,
            r.commit_id == commit_id,
            r.conflicted_files == conflicted_files,
            r.repo_path == repo_path,
            r.resolution_instructions@.map_values(|s: String| s@) == resolution_steps(repo_path@),
    {
        let mut instructions: Vec<String> = Vec::new();
        instructions.push(concat2("1. Navigate to: ", repo_path.as_str()));
        instructions.push("2. Resolve conflicts in the listed files".to_owned());
        instructions.push("3. Stage resolved files: git add <files>".to_owned());
        instructions.push("4. Run: mergers merge continue".to_owned());
        proof {
            assert(instructions@.map_values(|s: String| s@) =~= resolution_steps(repo_path@));
        }
        ConflictInfo { pr_id, pr_title, commit_id, conflicted_files, repo_path, resolution_instructions: instructions }
    }
}

/// The status of a merge, for the status command.
#[derive(Debug, Clone)]
pub struct StatusInfo {
    pub phase: String,
    pub status: String,
    pub version: String,
    pub target_branch: String,
    pub repo_path: String,
    pub progress: ProgressSummary,
    pub conflict: Option<ConflictInfo>,
    pub items: Option<Vec<SummaryItem>>,
}

/// Progress counts.
#[derive(Debug, Clone, Copy, PartialEq, Eq, Structural)]
pub struct ProgressSummary {
    pub total: usize,
    pub completed: usize,
    pub pending: usize,
    pub current_index: usize,
}

/// The final summary of a merge.
#[derive(Debug, Clone)]
pub struct SummaryInfo {
    pub result: SummaryResult,
    pub version: String,
    pub target_branch: String,
    pub counts: SummaryCounts,
    pub items: Option<Vec<SummaryItem>>,
    pub post_merge: Option<PostMergeSummary>,
}

/// The overall result of a merge.
#[derive(Debug, Clone, Copy, PartialEq, Eq, Structural)]
pub enum SummaryResult {
    Success,
    PartialSuccess,
    Failed,
    Aborted,
    Conflict,
}

/// The displayed form of a summary result.
pub open spec fn summary_result_text(r: SummaryResult) -> Seq<char> {
    match r {
        SummaryResult::Success => "success"@,
        SummaryResult::PartialSuccess => "partial_success"@,
        SummaryResult::Failed => "failed"@,
        SummaryResult::Aborted => "aborted"@,
        SummaryResult::Conflict => "conflict"@,
    }
}

impl SummaryResult {
    /// The displayed form of this result.
    pub fn display_string(&self) -> (r: String)
        ensures
            r@ == summary_result_text(*self),
    {
        match self {
            SummaryResult::Success => "success".to_owned(),
            SummaryResult::PartialSuccess => "partial_success".to_owned(),
            SummaryResult::Failed => "failed".to_owned(),
            SummaryResult::Aborted => "aborted".to_owned(),
            SummaryResult::Conflict => "conflict".to_owned(),
        }
    }
}

/// Counts of items by outcome.
#[derive(Debug, Clone, Copy, PartialEq, Eq, Structural)]
pub struct SummaryCounts {
    pub total: usize,
    pub successful: usize,
    pub failed: usize,
    pub skipped: usize,
    pub pending: usize,
}

impl SummaryCounts {
    /// Counts with their total.
    pub fn new(successful: usize, failed: usize, skipped: usize, pending: usize) -> (r: Self)
        requires
            successful + failed + skipped + pending <= usize::MAX,
        ensures
            r.total == successful + failed + skipped + pending,
            r.successful == successful,
            r.failed == failed,
            r.skipped == skipped,
            r.pending == pending,
    {
        SummaryCounts { total: successful + failed + skipped + pending, successful, failed, skipped, pending }
    }
}

/// One item of a summary.
#[derive(Debug, Clone)]
pub struct SummaryItem {
    pub pr_id: i32,
    pub pr_title: String,
    pub commit_id: String,
    pub status: ItemStatus,
    pub error: Option<String>,
}

/// The status of an item.
#[derive(Debug, Clone, Copy, PartialEq, Eq, Structural)]
pub enum ItemStatus {
    Pending,
    InProgress,
    Success,
    Failed,
    Skipped,
    Conflict,
}

/// The displayed form of an item status.
pub open spec fn item_status_text(s: ItemStatus) -> Seq<char> {
    match s {
        ItemStatus::Pending => "pending"@,
        ItemStatus::InProgress => "in_progress"@,
        ItemStatus::Success => "success"@,
        ItemStatus::Failed => "failed"@,
        ItemStatus::Skipped => "skipped"@,
        ItemStatus::Conflict => "conflict"@,
    }
}

impl ItemStatus {
    /// The displayed form of this status.
    pub fn display_string(&self) -> (r: String)
        ensures
            r@ == item_status_text(*self),
    {
        match self {
            ItemStatus::Pending => "pending".to_owned(),
            ItemStatus::InProgress => "in_progress".to_owned(),
            ItemStatus::Success => "success".to_owned(),
            ItemStatus::Failed => "failed".to_owned(),
            ItemStatus::Skipped => "skipped".to_owned(),
            ItemStatus::Conflict => "conflict".to_owned(),
        }
    }
}

/// Summary of the post-merge tasks.
#[derive(Debug, Clone)]
pub struct PostMergeSummary {
    pub total_tasks: usize,
    pub successful: usize,
    pub failed: usize,
    pub tasks: Option<Vec<PostMergeTaskResult>>,
}

/// The result of one post-merge task, for output.
#[derive(Debug, Clone)]
pub struct PostMergeTaskResult {
    pub task_type: String,
    pub target_id: i32,
    pub status: PostMergeStatus,
}

} // verus!
