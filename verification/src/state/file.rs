//! The persisted state of a merge: phases, item statuses, the state file
//! record with its validation, and the names of the state and lock files of
//! a repository.

use vstd::prelude::*;
use sha2::Digest;
use crate::text::{concat2, concat3, decimal_nat, usize_to_decimal};

verus! {

/// The version of the state file format.
pub const SCHEMA_VERSION: u32 = 1;

/// The environment variable that overrides the state directory.
pub const STATE_DIR_ENV: &'static str = "MERGERS_STATE_DIR";

/// The phase of a merge.
#[derive(Debug, Clone, Copy, PartialEq, Eq, Structural)]
pub enum MergePhase {
    Loading,
    Setup,
    CherryPicking,
    AwaitingConflictResolution,
    ReadyForCompletion,
    Completing,
    Completed,
    Aborted,
}

/// The description (and displayed form) of a phase.
pub open spec fn phase_text(p: MergePhase) -> Seq<char> {
    match p {
        MergePhase::Loading => "Loading data from Azure DevOps"@,
        MergePhase::Setup => "Setting up repository"@,
        MergePhase::CherryPicking => "Cherry-picking commits"@,
        MergePhase::AwaitingConflictResolution => "Awaiting conflict resolution"@,
        MergePhase::ReadyForCompletion => "Ready for completion"@,
        MergePhase::Completing => "Running post-merge tasks"@,
        MergePhase::Completed => "Completed"@,
        MergePhase::Aborted => "Aborted"@,
    }
}

/// Whether a phase ends the merge.
pub open spec fn phase_is_terminal(p: MergePhase) -> bool {
    p == MergePhase::Completed || p == MergePhase::Aborted
}

impl MergePhase {
    /// A human-readable description of the phase.
    pub fn description(&self) -> (r: &'static str)
        ensures
            r@ == phase_text(*self),
    {
        match self {
            MergePhase::Loading => "Loading data from Azure DevOps",
            MergePhase::Setup => "Setting up repository",
            MergePhase::CherryPicking => "Cherry-picking commits",
            MergePhase::AwaitingConflictResolution => "Awaiting conflict resolution",
            MergePhase::ReadyForCompletion => "Ready for completion",
            MergePhase::Completing => "Running post-merge tasks",
            MergePhase::Completed => "Completed",
            MergePhase::Aborted => "Aborted",
        }
    }

    /// Whether the phase ends the merge (completed or aborted).
    pub fn is_terminal(&self) -> (r: bool)
        ensures
            r == phase_is_terminal(*self),
    {
        match self {
            MergePhase::Completed | MergePhase::Aborted => true,
            _ => false,
        }
    }

    /// The displayed form of the phase: its description.
    pub fn display_string(&self) -> (r: String)
        ensures
            r@ == phase_text(*self),
    {
        self.description().to_owned()
    }
}

/// The final status of a merge.
#[derive(Debug, Clone, Copy, PartialEq, Eq, Structural)]
pub enum MergeStatus {
    Success,
    PartialSuccess,
    Aborted,
    Failed,
}

/// The displayed form of a final status.
pub open spec fn merge_status_text(s: MergeStatus) -> Seq<char> {
    match s {
        MergeStatus::Success => "Success"@,
        MergeStatus::PartialSuccess => "Partial Success"@,
        MergeStatus::Aborted => "Aborted"@,
        MergeStatus::Failed => "Failed"@,
    }
}

impl MergeStatus {
    /// The displayed form of this status.
    pub fn display_string(&self) -> (r: String)
        ensures
            r@ == merge_status_text(*self),
    {
        match self {
            MergeStatus::Success => "Success".to_owned(),
            MergeStatus::PartialSuccess => "Partial Success".to_owned(),
            MergeStatus::Aborted => "Aborted".to_owned(),
            MergeStatus::Failed => "Failed".to_owned(),
        }
    }
}

/// The status of one item in the state file.
#[derive(Debug, Clone)]
pub enum StateItemStatus {
    Pending,
    Success,
    Conflict,
    Skipped,
    Failed { message: String },
}

/// The displayed form of an item status.
pub open spec fn item_state_text(s: StateItemStatus) -> Seq<char> {
    match s {
        StateItemStatus::Pending => "Pending"@,
        StateItemStatus::Success => "Success"@,
        StateItemStatus::Conflict => "Conflict"@,
        StateItemStatus::Skipped => "Skipped"@,
        StateItemStatus::Failed { message } => "Failed: "@ + message@,
    }
}

impl StateItemStatus {
    /// The displayed form of this status.
    pub fn display_string(&self) -> (r: String)
        ensures
            r@ == item_state_text(*self),
    {
        match self {
            StateItemStatus::Pending => "Pending".to_owned(),
            StateItemStatus::Success => "Success".to_owned(),
            StateItemStatus::Conflict => "Conflict".to_owned(),
            StateItemStatus::Skipped => "Skipped".to_owned(),
            StateItemStatus::Failed { message } => concat2("Failed: ", message.as_str()),
        }
    }
}

/// An item to cherry-pick, as recorded in the state file.
#[derive(Debug, Clone)]
pub struct StateCherryPickItem {
    pub commit_id: String,
    pub pr_id: i32,
    pub pr_title: String,
    pub status: StateItemStatus,
    pub work_item_ids: Vec<i32>,
}

/// The state of a merge, as persisted. Instants are milliseconds since the
/// Unix epoch.
#[derive(Debug, Clone)]
pub struct MergeStateFile {
    pub schema_version: u32,
    pub created_at: i64,
    pub updated_at: i64,
    pub repo_path: String,
    pub base_repo_path: Option<String>,
    pub is_worktree: bool,
    pub organization: String,
    pub project: String,
    pub repository: String,
    pub dev_branch: String,
    pub target_branch: String,
    pub merge_version: String,
    pub cherry_pick_items: Vec<StateCherryPickItem>,
    pub current_index: usize,
    pub phase: MergePhase,
    pub conflicted_files: Option<Vec<String>>,
    pub work_item_state: String,
    pub tag_prefix: String,
    pub run_hooks: bool,
    pub completed_at: Option<i64>,
    pub final_status: Option<MergeStatus>,
}

/// The system clock (`SystemTime::now`) measured from the Unix epoch with
/// `SystemTime::duration_since`, in milliseconds: `Ok` of the time since
/// the epoch, or `Err` of the time before it when the clock reads earlier.
/// Nothing is claimed of the value: it is the clock's.
#[verifier::external_body]
fn millis_since_epoch() -> (r: Result<u128, u128>) {
    match std::time::SystemTime::now().duration_since(std::time::UNIX_EPOCH) {
        Ok(d) => Ok(d.as_millis()),
        Err(e) => Err(e.duration().as_millis()),
    }
}

/// The milliseconds of a clock reading from the Unix epoch: positive after
/// it, negative before it, clamped to `-i64::MAX..=i64::MAX`.
pub open spec fn clock_millis(reading: Result<u128, u128>) -> int {
    match reading {
        Ok(m) => if m > i64::MAX { i64::MAX as int } else { m as int },
        Err(m) => if m > i64::MAX { -(i64::MAX as int) } else { -(m as int) },
    }
}

/// Converts a clock reading to milliseconds since the Unix epoch.
pub fn millis_from_clock(reading: Result<u128, u128>) -> (r: i64)
    ensures
        r == clock_millis(reading),
{
    match reading {
        Ok(m) => {
            if m > i64::MAX as u128 {
                i64::MAX
            } else {
                m as i64
            }
        },
        Err(m) => {
            if m > i64::MAX as u128 {
                -i64::MAX
            } else {
                -(m as i64)
            }
        },
    }
}

/// The current time in milliseconds since the Unix epoch (see
/// `clock_millis`); the reading is the clock's.
pub(crate) fn now_millis() -> (r: i64)
    ensures
        -i64::MAX <= r,
{
    millis_from_clock(millis_since_epoch())
}

/// The fields of a fresh state: no items, index 0, phase `Loading`, no
/// conflict and no completion.
pub open spec fn fresh_state(s: MergeStateFile) -> bool {
    &&& s.schema_version == SCHEMA_VERSION
    &&& s.created_at == s.updated_at
    &&& s.cherry_pick_items@.len() == 0
    &&& s.current_index == 0
    &&& s.phase == MergePhase::Loading
    &&& s.conflicted_files is None
    &&& s.completed_at is None
    &&& s.final_status is None
}

/// A freshly created state file whose repository path, organization,
/// project and repository are set passes validation.
pub proof fn law_fresh_state_valid(s: MergeStateFile)
    requires
        fresh_state(s),
        s.repo_path@.len() > 0,
        s.organization@.len() > 0,
        s.project@.len() > 0,
        s.repository@.len() > 0,
    ensures
        validation_error(s) is None,
{
}

/// Counts of items by status.
#[derive(Debug, Clone, Copy, PartialEq, Eq, Structural)]
pub struct StatusCounts {
    pub pending: usize,
    pub success: usize,
    pub conflict: usize,
    pub skipped: usize,
    pub failed: usize,
}

/// The number of items of each status: pending, success, conflict, skipped,
/// failed.
pub open spec fn counts_of(items: Seq<StateCherryPickItem>) -> (nat, nat, nat, nat, nat)
    decreases items.len(),
{
    if items.len() == 0 {
        (0, 0, 0, 0, 0)
    } else {
        let (p, s, c, k, f) = counts_of(items.drop_last());
        match items.last().status {
            StateItemStatus::Pending => (p + 1, s, c, k, f),
            StateItemStatus::Success => (p, s + 1, c, k, f),
            StateItemStatus::Conflict => (p, s, c + 1, k, f),
            StateItemStatus::Skipped => (p, s, c, k + 1, f),
            StateItemStatus::Failed { .. } => (p, s, c, k, f + 1),
        }
    }
}

/// The sum of the counts equals the number of items.
pub proof fn law_counts_sum(items: Seq<StateCherryPickItem>)
    ensures
        ({
            let (p, s, c, k, f) = counts_of(items);
            p + s + c + k + f == items.len()
        }),
    decreases items.len(),
{
    if items.len() > 0 {
        law_counts_sum(items.drop_last());
    }
}

impl StatusCounts {
    /// The number of items.
    pub fn total(&self) -> (r: usize)
        requires
            self.pending + self.success + self.conflict + self.skipped + self.failed <= usize::MAX,
        ensures
            r == self.pending + self.success + self.conflict + self.skipped + self.failed,
    {
        self.pending + self.success + self.conflict + self.skipped + self.failed
    }

    /// The number of items that are done: succeeded, skipped or failed.
    pub fn completed(&self) -> (r: usize)
        requires
            self.success + self.skipped + self.failed <= usize::MAX,
        ensures
            r == self.success + self.skipped + self.failed,
    {
        self.success + self.skipped + self.failed
    }
}

/// The counts record for `items`.
pub open spec fn status_counts_of(items: Seq<StateCherryPickItem>) -> StatusCounts {
    let (p, s, c, k, f) = counts_of(items);
    StatusCounts { pending: p as usize, success: s as usize, conflict: c as usize, skipped: k as usize, failed: f as usize }
}

/// Why a state file is invalid.
pub open spec fn validation_error(s: MergeStateFile) -> Option<Seq<char>> {
    if s.schema_version != SCHEMA_VERSION {
        Some("Unsupported schema version: "@ + decimal_nat(s.schema_version as nat) + " (expected 1). The state file may have been created by a different version of mergers."@)
    } else if s.repo_path@.len() == 0 {
        Some("State file corrupted: missing required field 'repo_path'"@)
    } else if s.organization@.len() == 0 {
        Some("State file corrupted: missing required field 'organization'"@)
    } else if s.project@.len() == 0 {
        Some("State file corrupted: missing required field 'project'"@)
    } else if s.repository@.len() == 0 {
        Some("State file corrupted: missing required field 'repository'"@)
    } else if s.cherry_pick_items@.len() > 0 && s.current_index > s.cherry_pick_items@.len() {
        Some("State file corrupted: current_index ("@ + decimal_nat(s.current_index as nat) + ") exceeds cherry_pick_items count ("@
            + decimal_nat(s.cherry_pick_items@.len()) + ")"@)
    } else if s.phase == MergePhase::AwaitingConflictResolution && s.conflicted_files is None {
        Some("State file corrupted: phase is 'AwaitingConflictResolution' but no conflicted_files recorded"@)
    } else {
        None
    }
}

impl MergeStateFile {
    /// A fresh state for a repository and its settings, stamped now.
    pub fn new(
        repo_path: String,
        base_repo_path: Option<String>,
        is_worktree: bool,
        organization: String,
        project: String,
        repository: String,
        dev_branch: String,
        target_branch: String,
        merge_version: String,
        work_item_state: String,
        tag_prefix: String,
        run_hooks: bool,
    ) -> (r: Self)
        ensures
            fresh_state(r),
            r.repo_path == repo_path,
            r.base_repo_path == base_repo_path,
            r.is_worktree == is_worktree,
            r.organization == organization,
            r.project == project,
            r.repository == repository,
            r.dev_branch == dev_branch,
            r.target_branch == target_branch,
            r.merge_version == merge_version,
            r.work_item_state == work_item_state,
            r.tag_prefix == tag_prefix,
            r.run_hooks == run_hooks,
    {
        let now = now_millis();
        MergeStateFile {
            schema_version: SCHEMA_VERSION,
            created_at: now,
            updated_at: now,
            repo_path,
            base_repo_path,
            is_worktree,
            organization,
            project,
            repository,
            dev_branch,
            target_branch,
            merge_version,
            cherry_pick_items: Vec::new(),
            current_index: 0,
            phase: MergePhase::Loading,
            conflicted_files: None,
            work_item_state,
            tag_prefix,
            run_hooks,
            completed_at: None,
            final_status: None,
        }
    }

    /// A builder with no field set.
    pub fn builder() -> (r: MergeStateFileBuilder)
        ensures
            r == MergeStateFileBuilder::empty(),
    {
        MergeStateFileBuilder::new()
    }

    /// The number of items in each status.
    pub fn status_counts(&self) -> (r: StatusCounts)
        ensures
            r == status_counts_of(self.cherry_pick_items@),
    {
        let mut c = StatusCounts { pending: 0, success: 0, conflict: 0, skipped: 0, failed: 0 };
        let mut i: usize = 0;
        while i < self.cherry_pick_items.len()
            invariant
                0 <= i <= self.cherry_pick_items@.len(),
                c == status_counts_of(self.cherry_pick_items@.subrange(0, i as int)),
                c.pending + c.success + c.conflict + c.skipped + c.failed == i,
            decreases self.cherry_pick_items@.len() - i,
        {
            proof {
                let pre = self.cherry_pick_items@.subrange(0, i as int);
                assert(self.cherry_pick_items@.subrange(0, i as int + 1).drop_last() =~= pre);
                law_counts_sum(pre);
            }
            match &self.cherry_pick_items[i].status {
                StateItemStatus::Pending => c.pending = c.pending + 1,
                StateItemStatus::Success => c.success = c.success + 1,
                StateItemStatus::Conflict => c.conflict = c.conflict + 1,
                StateItemStatus::Skipped => c.skipped = c.skipped + 1,
                StateItemStatus::Failed { .. } => c.failed = c.failed + 1,
            }
            i = i + 1;
        }
        proof {
            assert(self.cherry_pick_items@.subrange(0, self.cherry_pick_items@.len() as int) =~= self.cherry_pick_items@);
        }
        c
    }

    /// Checks the state read from disk: schema version, required fields,
    /// index bounds and the conflict invariant, in that order; the error
    /// names the first problem.
    pub fn validate(&self) -> (r: Result<(), String>)
        ensures
            match r {
                Ok(()) => validation_error(*self) is None,
                Err(e) => validation_error(*self) == Some(e@),
            },
    {
        if self.schema_version != SCHEMA_VERSION {
            let mut m = "Unsupported schema version: ".to_owned();
            m.append(crate::text::u64_to_decimal(self.schema_version as u64).as_str());
            m.append(" (expected 1). The state file may have been created by a different version of mergers.");
            return Err(m);
        }
        if self.repo_path.unicode_len() == 0 {
            return Err("State file corrupted: missing required field 'repo_path'".to_owned());
        }
        if self.organization.unicode_len() == 0 {
            return Err("State file corrupted: missing required field 'organization'".to_owned());
        }
        if self.project.unicode_len() == 0 {
            return Err("State file corrupted: missing required field 'project'".to_owned());
        }
        if self.repository.unicode_len() == 0 {
            return Err("State file corrupted: missing required field 'repository'".to_owned());
        }
        if self.cherry_pick_items.len() > 0 && self.current_index > self.cherry_pick_items.len() {
            let mut m = "State file corrupted: current_index (".to_owned();
            m.append(usize_to_decimal(self.current_index).as_str());
            m.append(") exceeds cherry_pick_items count (");
            m.append(usize_to_decimal(self.cherry_pick_items.len()).as_str());
            m.append(")");
            return Err(m);
        }
        match (self.phase, &self.conflicted_files) {
            (MergePhase::AwaitingConflictResolution, None) => {
                return Err("State file corrupted: phase is 'AwaitingConflictResolution' but no conflicted_files recorded".to_owned());
            },
            _ => {},
        }
        Ok(())
    }

    /// Marks the merge completed with a final status, stamped now.
    pub fn mark_completed_in_memory(&mut self, status: MergeStatus)
        ensures
            final(self).phase == MergePhase::Completed,
            final(self).final_status == Some(status),
            final(self).completed_at is Some,
            final(self).cherry_pick_items == old(self).cherry_pick_items,
            final(self).current_index == old(self).current_index,
            final(self).repo_path == old(self).repo_path,
    {
        self.phase = MergePhase::Completed;
        self.completed_at = Some(now_millis());
        self.final_status = Some(status);
    }
}

/// A builder of state files.
#[derive(Debug, Clone)]
pub struct MergeStateFileBuilder {
    pub repo_path: Option<String>,
    pub base_repo_path: Option<String>,
    pub is_worktree: bool,
    pub organization: Option<String>,
    pub project: Option<String>,
    pub repository: Option<String>,
    pub dev_branch: Option<String>,
    pub target_branch: Option<String>,
    pub merge_version: Option<String>,
    pub work_item_state: Option<String>,
    pub tag_prefix: Option<String>,
    pub run_hooks: bool,
}

/// The fields of a builder, as views.
pub struct BuilderView {
    pub repo_path: Option<Seq<char>>,
    pub base_repo_path: Option<Seq<char>>,
    pub is_worktree: bool,
    pub organization: Option<Seq<char>>,
    pub project: Option<Seq<char>>,
    pub repository: Option<Seq<char>>,
    pub dev_branch: Option<Seq<char>>,
    pub target_branch: Option<Seq<char>>,
    pub merge_version: Option<Seq<char>>,
    pub work_item_state: Option<Seq<char>>,
    pub tag_prefix: Option<Seq<char>>,
    pub run_hooks: bool,
}

/// The view of an optional string.
pub open spec fn ov(o: Option<String>) -> Option<Seq<char>> {
    match o {
        Some(s) => Some(s@),
        None => None,
    }
}

/// The first required field that a builder lacks, in the order repo path,
/// organization, project, repository, dev branch, target branch, merge
/// version, work item state, tag prefix.
pub open spec fn first_missing(b: BuilderView) -> Option<Seq<char>> {
    if b.repo_path is None {
        Some("repo_path"@)
    } else if b.organization is None {
        Some("organization"@)
    } else if b.project is None {
        Some("project"@)
    } else if b.repository is None {
        Some("repository"@)
    } else if b.dev_branch is None {
        Some("dev_branch"@)
    } else if b.target_branch is None {
        Some("target_branch"@)
    } else if b.merge_version is None {
        Some("merge_version"@)
    } else if b.work_item_state is None {
        Some("work_item_state"@)
    } else if b.tag_prefix is None {
        Some("tag_prefix"@)
    } else {
        None
    }
}

/// Whether a built state carries the builder's fields.
pub open spec fn built_from(s: MergeStateFile, b: BuilderView) -> bool {
    &&& fresh_state(s)
    &&& Some(s.repo_path@) == b.repo_path
    &&& ov(s.base_repo_path) == b.base_repo_path
    &&& s.is_worktree == b.is_worktree
    &&& Some(s.organization@) == b.organization
    &&& Some(s.project@) == b.project
    &&& Some(s.repository@) == b.repository
    &&& Some(s.dev_branch@) == b.dev_branch
    &&& Some(s.target_branch@) == b.target_branch
    &&& Some(s.merge_version@) == b.merge_version
    &&& Some(s.work_item_state@) == b.work_item_state
    &&& Some(s.tag_prefix@) == b.tag_prefix
    &&& s.run_hooks == b.run_hooks
}

impl MergeStateFileBuilder {
    /// The builder with no field set.
    pub closed spec fn empty() -> Self {
        MergeStateFileBuilder {
            repo_path: None,
            base_repo_path: None,
            is_worktree: false,
            organization: None,
            project: None,
            repository: None,
            dev_branch: None,
            target_branch: None,
            merge_version: None,
            work_item_state: None,
            tag_prefix: None,
            run_hooks: false,
        }
    }

    /// The fields set so far.
    pub closed spec fn view_fields(&self) -> BuilderView {
        BuilderView {
            repo_path: ov(self.repo_path),
            base_repo_path: ov(self.base_repo_path),
            is_worktree: self.is_worktree,
            organization: ov(self.organization),
            project: ov(self.project),
            repository: ov(self.repository),
            dev_branch: ov(self.dev_branch),
            target_branch: ov(self.target_branch),
            merge_version: ov(self.merge_version),
            work_item_state: ov(self.work_item_state),
            tag_prefix: ov(self.tag_prefix),
            run_hooks: self.run_hooks,
        }
    }

    /// A builder with no field set.
    pub fn new() -> (r: Self)
        ensures
            r == Self::empty(),
            r.view_fields() == (BuilderView {
                repo_path: None,
                base_repo_path: None,
                is_worktree: false,
                organization: None,
                project: None,
                repository: None,
                dev_branch: None,
                target_branch: None,
                merge_version: None,
                work_item_state: None,
                tag_prefix: None,
                run_hooks: false,
            }),
    {
        MergeStateFileBuilder {
            repo_path: None,
            base_repo_path: None,
            is_worktree: false,
            organization: None,
            project: None,
            repository: None,
            dev_branch: None,
            target_branch: None,
            merge_version: None,
            work_item_state: None,
            tag_prefix: None,
            run_hooks: false,
        }
    }

    /// Sets the repository path.
    pub fn repo_path(self, path: &str) -> (r: Self)
        ensures
            r.view_fields() == (BuilderView { repo_path: Some(path@), ..self.view_fields() }),
    {
        MergeStateFileBuilder { repo_path: Some(path.to_owned()), ..self }
    }

    /// Sets the base repository path.
    pub fn base_repo_path(self, path: &str) -> (r: Self)
        ensures
            r.view_fields() == (BuilderView { base_repo_path: Some(path@), ..self.view_fields() }),
    {
        MergeStateFileBuilder { base_repo_path: Some(path.to_owned()), ..self }
    }

    /// Sets whether the repository is a worktree.
    pub fn is_worktree(self, is_worktree: bool) -> (r: Self)
        ensures
            r.view_fields() == (BuilderView { is_worktree, ..self.view_fields() }),
    {
        MergeStateFileBuilder { is_worktree, ..self }
    }

    /// Sets the organization.
    pub fn organization(self, org: &str) -> (r: Self)
        ensures
            r.view_fields() == (BuilderView { organization: Some(org@), ..self.view_fields() }),
    {
        MergeStateFileBuilder { organization: Some(org.to_owned()), ..self }
    }

    /// Sets the project.
    pub fn project(self, project: &str) -> (r: Self)
        ensures
            r.view_fields() == (BuilderView { project: Some(project@), ..self.view_fields() }),
    {
        MergeStateFileBuilder { project: Some(project.to_owned()), ..self }
    }

    /// Sets the repository name.
    pub fn repository(self, repo: &str) -> (r: Self)
        ensures
            r.view_fields() == (BuilderView { repository: Some(repo@), ..self.view_fields() }),
    {
        MergeStateFileBuilder { repository: Some(repo.to_owned()), ..self }
    }

    /// Sets the dev branch.
    pub fn dev_branch(self, branch: &str) -> (r: Self)
        ensures
            r.view_fields() == (BuilderView { dev_branch: Some(branch@), ..self.view_fields() }),
    {
        MergeStateFileBuilder { dev_branch: Some(branch.to_owned()), ..self }
    }

    /// Sets the target branch.
    pub fn target_branch(self, branch: &str) -> (r: Self)
        ensures
            r.view_fields() == (BuilderView { target_branch: Some(branch@), ..self.view_fields() }),
    {
        MergeStateFileBuilder { target_branch: Some(branch.to_owned()), ..self }
    }

    /// Sets the merge version.
    pub fn merge_version(self, version: &str) -> (r: Self)
        ensures
            r.view_fields() == (BuilderView { merge_version: Some(version@), ..self.view_fields() }),
    {
        MergeStateFileBuilder { merge_version: Some(version.to_owned()), ..self }
    }

    /// Sets the work item state.
    pub fn work_item_state(self, state: &str) -> (r: Self)
        ensures
            r.view_fields() == (BuilderView { work_item_state: Some(state@), ..self.view_fields() }),
    {
        MergeStateFileBuilder { work_item_state: Some(state.to_owned()), ..self }
    }

    /// Sets the tag prefix.
    pub fn tag_prefix(self, prefix: &str) -> (r: Self)
        ensures
            r.view_fields() == (BuilderView { tag_prefix: Some(prefix@), ..self.view_fields() }),
    {
        MergeStateFileBuilder { tag_prefix: Some(prefix.to_owned()), ..self }
    }

    /// Sets whether git hooks run.
    pub fn run_hooks(self, run_hooks: bool) -> (r: Self)
        ensures
            r.view_fields() == (BuilderView { run_hooks, ..self.view_fields() }),
    {
        MergeStateFileBuilder { run_hooks, ..self }
    }

    /// Builds the state; every required field must be set.
    pub fn build(self) -> (r: MergeStateFile)
        requires
            first_missing(self.view_fields()) is None,
        ensures
            built_from(r, self.view_fields()),
    {
        match self.try_build() {
            Ok(s) => s,
            Err(_) => {
                proof {
                    assert(false);
                }
                MergeStateFile::new(
                    String::new(), None, false, String::new(), String::new(), String::new(),
                    String::new(), String::new(), String::new(), String::new(), String::new(), false,
                )
            },
        }
    }

    /// Builds the state, or names the first missing required field
    /// (`"<field> is required"`).
    pub fn try_build(self) -> (r: Result<MergeStateFile, String>)
        ensures
            match r {
                Ok(s) => first_missing(self.view_fields()) is None && built_from(s, self.view_fields()),
                Err(e) => first_missing(self.view_fields()) matches Some(f) && e@ == f + " is required"@,
            },
    {
        let ghost v = self.view_fields();
        let repo_path = match self.repo_path { Some(x) => x, None => { return Err(missing_field("repo_path")); } };
        let organization = match self.organization { Some(x) => x, None => { return Err(missing_field("organization")); } };
        let project = match self.project { Some(x) => x, None => { return Err(missing_field("project")); } };
        let repository = match self.repository { Some(x) => x, None => { return Err(missing_field("repository")); } };
        let dev_branch = match self.dev_branch { Some(x) => x, None => { return Err(missing_field("dev_branch")); } };
        let target_branch = match self.target_branch { Some(x) => x, None => { return Err(missing_field("target_branch")); } };
        let merge_version = match self.merge_version { Some(x) => x, None => { return Err(missing_field("merge_version")); } };
        let work_item_state = match self.work_item_state { Some(x) => x, None => { return Err(missing_field("work_item_state")); } };
        let tag_prefix = match self.tag_prefix { Some(x) => x, None => { return Err(missing_field("tag_prefix")); } };
        Ok(MergeStateFile::new(
            repo_path,
            self.base_repo_path,
            self.is_worktree,
            organization,
            project,
            repository,
            dev_branch,
            target_branch,
            merge_version,
            work_item_state,
            tag_prefix,
            self.run_hooks,
        ))
    }
}

fn missing_field(field: &str) -> (r: String)
    ensures
        r@ == field@ + " is required"@,
{
    concat2(field, " is required")
}

// ==================== Repository hash and file names ====================

/// What SHA-256 computes for a byte string.
pub uninterp spec fn sha256_digest(data: Seq<u8>) -> Seq<u8>;

/// The SHA-256 digest of `data`, from `sha2::Sha256::digest`: the named
/// digest, which is 32 bytes long.
#[verifier::external_body]
fn sha256(data: &[u8]) -> (r: Vec<u8>)
    ensures
        r@ == sha256_digest(data@),
        r@.len() == 32,
{
    sha2::Sha256::digest(data).to_vec()
}

/// The lower-case hexadecimal digit of a value below 16.
pub open spec fn hex_digit(d: nat) -> char {
    if d < 10 {
        crate::text::digit_char(d)
    } else if d == 10 {
        'a'
    } else if d == 11 {
        'b'
    } else if d == 12 {
        'c'
    } else if d == 13 {
        'd'
    } else if d == 14 {
        'e'
    } else {
        'f'
    }
}

/// Two lower-case hexadecimal digits per byte.
pub open spec fn hex_of(bytes: Seq<u8>) -> Seq<char>
    decreases bytes.len(),
{
    if bytes.len() == 0 {
        Seq::empty()
    } else {
        let b = bytes.last();
        hex_of(bytes.drop_last()) + seq![hex_digit((b / 16) as nat), hex_digit((b % 16) as nat)]
    }
}

fn hex_digit_str(d: u8) -> (r: &'static str)
    requires
        d < 16,
    ensures
        r@ == seq![hex_digit(d as nat)],
{
    if d < 10 {
        proof {
            reveal_strlit("0"); reveal_strlit("1"); reveal_strlit("2"); reveal_strlit("3"); reveal_strlit("4");
            reveal_strlit("5"); reveal_strlit("6"); reveal_strlit("7"); reveal_strlit("8"); reveal_strlit("9");
        }
        if d == 0 { "0" } else if d == 1 { "1" } else if d == 2 { "2" } else if d == 3 { "3" } else if d == 4 { "4" }
        else if d == 5 { "5" } else if d == 6 { "6" } else if d == 7 { "7" } else if d == 8 { "8" } else { "9" }
    } else {
        proof {
            reveal_strlit("a"); reveal_strlit("b"); reveal_strlit("c"); reveal_strlit("d"); reveal_strlit("e"); reveal_strlit("f");
        }
        if d == 10 { "a" } else if d == 11 { "b" } else if d == 12 { "c" } else if d == 13 { "d" } else if d == 14 { "e" } else { "f" }
    }
}

/// Encodes bytes as lower-case hexadecimal, two digits per byte.
pub fn encode(bytes: &[u8]) -> (r: String)
    ensures
        r@ == hex_of(bytes@),
        r@.len() == 2 * bytes@.len(),
{
    let mut s = String::new();
    let mut i: usize = 0;
    while i < bytes.len()
        invariant
            0 <= i <= bytes@.len(),
            s@ == hex_of(bytes@.subrange(0, i as int)),
            s@.len() == 2 * i,
        decreases bytes@.len() - i,
    {
        proof {
            assert(bytes@.subrange(0, i as int + 1).drop_last() =~= bytes@.subrange(0, i as int));
        }
        let b = bytes[i];
        s.append(hex_digit_str(b / 16));
        s.append(hex_digit_str(b % 16));
        i = i + 1;
        proof {
            assert(s@ =~= hex_of(bytes@.subrange(0, i as int)));
        }
    }
    proof {
        assert(bytes@.subrange(0, bytes@.len() as int) =~= bytes@);
    }
    s
}

/// The hash that names the state of a repository: the first 8 bytes of the
/// SHA-256 of its canonical path (UTF-8), in hexadecimal.
pub open spec fn repo_hash(canonical_path: Seq<char>) -> Seq<char> {
    hex_of(sha256_digest(vstd::utf8::encode_utf8(canonical_path)).subrange(0, 8))
}

/// Computes the repository hash of a canonical repository path.
pub fn compute_repo_hash(canonical_path: &str) -> (r: String)
    ensures
        r@ == repo_hash(canonical_path@),
        r@.len() == 16,
{
    let digest = sha256(canonical_path.as_bytes());
    let head = vstd::slice::slice_subrange(digest.as_slice(), 0, 8);
    encode(head)
}

/// The name of the state file of a repository with hash `hash`.
pub open spec fn state_file_name(hash: Seq<char>) -> Seq<char> {
    "merge-"@ + hash + ".json"@
}

/// The name of the lock file of a repository with hash `hash`.
pub open spec fn lock_file_name(hash: Seq<char>) -> Seq<char> {
    "merge-"@ + hash + ".lock"@
}

/// The file name of the state of a repository, from its canonical path.
pub fn state_file_name_for(canonical_path: &str) -> (r: String)
    ensures
        r@ == state_file_name(repo_hash(canonical_path@)),
{
    let hash = compute_repo_hash(canonical_path);
    concat3("merge-", hash.as_str(), ".json")
}

/// The file name of the lock of a repository, from its canonical path.
pub fn lock_file_name_for(canonical_path: &str) -> (r: String)
    ensures
        r@ == lock_file_name(repo_hash(canonical_path@)),
{
    let hash = compute_repo_hash(canonical_path);
    concat3("merge-", hash.as_str(), ".lock")
}

/// The state and lock files of a repository differ, and both are named by
/// the same hash.
pub proof fn law_state_and_lock_names_differ(canonical_path: Seq<char>)
    ensures
        state_file_name(repo_hash(canonical_path)) != lock_file_name(repo_hash(canonical_path)),
{
    reveal_strlit(".json");
    reveal_strlit(".lock");
    reveal_strlit("merge-");
    let h = repo_hash(canonical_path);
    let a = state_file_name(h);
    let b = lock_file_name(h);
    assert(a[a.len() - 4] == 'j');
    assert(b[b.len() - 4] == 'l');
}

} // verus!
