//! The decisions of a merge run: which commit to cherry-pick next, how an
//! outcome changes the persisted state, when hooks run and what their
//! results mean, and how the run is summarized.
//!
//! Git, the shell and Azure DevOps are driven by the caller, which hands the
//! outcomes back.

use vstd::prelude::*;
use crate::models::PullRequestWithWorkItems;
use crate::operations::cherry_pick::{CherryPickConfig, CherryPickOutcome};
use crate::operations::dependency_analysis::{copy_strings, strs_view};
use crate::operations::hooks::{
    has_commands_for, outcome_spec, outcome_view, run_outcome, trigger_description, HookContext, HookOutcome,
    HookResult, HookTrigger, HooksConfig, failure_of,
};
use crate::operations::post_merge::{CompletedPRInfo, PostMergeConfig, WorkItemInfo};
use crate::operations::pr_selection::{count_matching, parse_work_item_states, parsed_states, pr_matches_states,
    select_prs_by_work_item_states, string_seq_view};
use crate::output::events::{ConflictInfo, ItemStatus, ProgressEvent, SummaryCounts, SummaryItem, resolution_steps};
use crate::state::file::{counts_of, law_counts_sum, validation_error, MergePhase, MergeStateFile, MergeStatus,
    StateCherryPickItem, StateItemStatus};

verus! {

/// How processing the cherry-picks ended.
#[derive(Debug)]
pub enum CherryPickProcessResult {
    /// All items were processed.
    Complete,
    /// A conflict stopped processing.
    Conflict(ConflictInfo),
    /// A hook configured to abort failed.
    HookAbort { trigger: HookTrigger, command: String, error: String },
}

impl CherryPickProcessResult {
    /// Whether processing stopped before the end.
    pub fn should_stop(&self) -> (r: bool)
        ensures
            r == !(*self is Complete),
    {
        match self {
            CherryPickProcessResult::Complete => false,
            _ => true,
        }
    }

    /// Whether a hook aborted processing.
    pub fn is_hook_abort(&self) -> (r: bool)
        ensures
            r == (*self is HookAbort),
    {
        match self {
            CherryPickProcessResult::HookAbort { .. } => true,
            _ => false,
        }
    }

    /// Whether a conflict stopped processing.
    pub fn is_conflict(&self) -> (r: bool)
        ensures
            r == (*self is Conflict),
    {
        match self {
            CherryPickProcessResult::Conflict(_) => true,
            _ => false,
        }
    }
}

/// What applying a cherry-pick outcome produced.
#[derive(Debug)]
pub struct CherryPickStep {
    /// The event to report.
    pub event: ProgressEvent,
    /// The conflict that stops processing, if any.
    pub conflict: Option<ConflictInfo>,
    /// Whether the post-cherry-pick hooks run now.
    pub run_post_cherry_pick_hooks: bool,
    /// Whether the on-conflict hooks run now.
    pub run_on_conflict_hooks: bool,
}

/// The state item status an outcome records.
pub open spec fn recorded_status(o: CherryPickOutcome) -> StateItemStatus {
    match o {
        CherryPickOutcome::Success => StateItemStatus::Success,
        CherryPickOutcome::Conflict { .. } => StateItemStatus::Conflict,
        CherryPickOutcome::Skipped => StateItemStatus::Skipped,
        CherryPickOutcome::Failed { message } => StateItemStatus::Failed { message },
    }
}

/// Whether `new` is `old` with item `i` given `status` and every other item
/// unchanged.
pub open spec fn item_updated(old: Seq<StateCherryPickItem>, new: Seq<StateCherryPickItem>, i: int, status: StateItemStatus) -> bool {
    &&& new.len() == old.len()
    &&& new[i] == (StateCherryPickItem { status, ..old[i] })
    &&& forall|k: int| 0 <= k < old.len() && k != i ==> #[trigger] new[k] == old[k]
}

/// Whether two states agree on everything but the items, the index, the
/// phase and the conflicted files.
pub open spec fn same_settings(a: MergeStateFile, b: MergeStateFile) -> bool {
    &&& a.schema_version == b.schema_version
    &&& a.created_at == b.created_at
    &&& a.updated_at == b.updated_at
    &&& a.repo_path == b.repo_path
    &&& a.base_repo_path == b.base_repo_path
    &&& a.is_worktree == b.is_worktree
    &&& a.organization == b.organization
    &&& a.project == b.project
    &&& a.repository == b.repository
    &&& a.dev_branch == b.dev_branch
    &&& a.target_branch == b.target_branch
    &&& a.merge_version == b.merge_version
    &&& a.work_item_state == b.work_item_state
    &&& a.tag_prefix == b.tag_prefix
    &&& a.run_hooks == b.run_hooks
    &&& a.completed_at == b.completed_at
    &&& a.final_status == b.final_status
}

/// The content of a summary item: PR id, title, commit, status, error.
pub open spec fn summary_item_view(i: SummaryItem) -> (i32, Seq<char>, Seq<char>, ItemStatus, Option<Seq<char>>) {
    (i.pr_id, i.pr_title@, i.commit_id@, i.status, match i.error { Some(e) => Some(e@), None => None })
}

/// The summary item of a state item.
pub open spec fn summary_of_item(i: StateCherryPickItem) -> (i32, Seq<char>, Seq<char>, ItemStatus, Option<Seq<char>>) {
    (i.pr_id, i.pr_title@, i.commit_id@, match i.status {
        StateItemStatus::Pending => ItemStatus::Pending,
        StateItemStatus::Success => ItemStatus::Success,
        StateItemStatus::Conflict => ItemStatus::Conflict,
        StateItemStatus::Skipped => ItemStatus::Skipped,
        StateItemStatus::Failed { .. } => ItemStatus::Failed,
    }, match i.status {
        StateItemStatus::Failed { message } => Some(message@),
        _ => None,
    })
}

/// The final status a merge gets from its item counts: success when nothing
/// failed or was skipped, partial success when something succeeded, failure
/// otherwise.
pub open spec fn final_status_of(items: Seq<StateCherryPickItem>) -> MergeStatus {
    let (p, s, c, k, f) = counts_of(items);
    if f == 0 && k == 0 {
        MergeStatus::Success
    } else if s > 0 {
        MergeStatus::PartialSuccess
    } else {
        MergeStatus::Failed
    }
}

/// The state item of a selected PR with a merge commit.
pub open spec fn item_of_pr(pr: PullRequestWithWorkItems) -> (i32, Seq<char>, Seq<char>, Seq<i32>) {
    (pr.pr.id, pr.pr.title@, pr.pr.last_merge_commit->0.commit_id@, crate::operations::work_item_grouping::wi_ids(pr))
}

/// The items to cherry-pick: the selected PRs that have a merge commit, in
/// order.
pub open spec fn items_of_prs(prs: Seq<PullRequestWithWorkItems>) -> Seq<(i32, Seq<char>, Seq<char>, Seq<i32>)>
    decreases prs.len(),
{
    if prs.len() == 0 {
        Seq::empty()
    } else {
        let init = items_of_prs(prs.drop_last());
        let pr = prs.last();
        if pr.selected && pr.pr.last_merge_commit is Some {
            init.push(item_of_pr(pr))
        } else {
            init
        }
    }
}

/// The content of a state item (all pending when created).
pub open spec fn state_item_view(i: StateCherryPickItem) -> (i32, Seq<char>, Seq<char>, Seq<i32>) {
    (i.pr_id, i.pr_title@, i.commit_id@, i.work_item_ids@)
}

/// The PRs that succeeded, as completed-PR records with untitled work items.
pub open spec fn completed_of_items(items: Seq<StateCherryPickItem>) -> Seq<(i32, Seq<char>, Seq<i32>)>
    decreases items.len(),
{
    if items.len() == 0 {
        Seq::empty()
    } else {
        let init = completed_of_items(items.drop_last());
        let it = items.last();
        if it.status is Success {
            init.push((it.pr_id, it.pr_title@, it.work_item_ids@))
        } else {
            init
        }
    }
}

/// The content of a completed-PR record whose work items have empty titles.
pub open spec fn completed_record(c: CompletedPRInfo) -> (i32, Seq<char>, Seq<i32>) {
    (c.pr_id, c.pr_title@, c.work_items@.map_values(|w: WorkItemInfo| w.id))
}

/// Whether `e` reports the completion of command `index` of a trigger's
/// run with result `c`.
pub open spec fn command_event_ok(e: ProgressEvent, trigger: HookTrigger, c: crate::operations::hooks::HookCommandResult, index: int) -> bool {
    match e {
        ProgressEvent::HookCommandComplete { trigger: t, command, success, index: i } =>
            t@ == trigger_description(trigger) && command == c.command && success == c.success && i == index,
        _ => false,
    }
}

/// Whether `e` reports the completion of a trigger's run.
pub open spec fn complete_event_ok(e: ProgressEvent, trigger: HookTrigger, all_ok: bool) -> bool {
    match e {
        ProgressEvent::HookComplete { trigger: t, all_succeeded } => t@ == trigger_description(trigger) && all_succeeded == all_ok,
        _ => false,
    }
}

/// Whether `e` reports the failure of a trigger's run with results `rs`.
pub open spec fn failed_event_ok(e: ProgressEvent, trigger: HookTrigger, rs: Seq<crate::operations::hooks::HookCommandResult>) -> bool {
    match e {
        ProgressEvent::HookFailed { trigger: t, command, error } =>
            t@ == trigger_description(trigger) && (command@, error@) == crate::operations::hooks::failure_details(rs),
        _ => false,
    }
}

/// The merge decisions of one repository and its settings.
pub struct MergeEngine {
    pub organization: String,
    pub project: String,
    pub repository: String,
    pub dev_branch: String,
    pub target_branch: String,
    pub version: String,
    pub tag_prefix: String,
    pub work_item_state: String,
    pub run_hooks: bool,
    pub local_repo: Option<String>,
    pub hooks_config: HooksConfig,
    pub max_concurrent_network: usize,
    pub max_concurrent_processing: usize,
    pub since: Option<String>,
}

impl MergeEngine {
    /// An engine for a repository and its settings; no hooks when no hook
    /// configuration is given.
    pub fn new(
        organization: String,
        project: String,
        repository: String,
        dev_branch: String,
        target_branch: String,
        version: String,
        tag_prefix: String,
        work_item_state: String,
        run_hooks: bool,
        local_repo: Option<String>,
        hooks_config: Option<HooksConfig>,
        max_concurrent_network: usize,
        max_concurrent_processing: usize,
        since: Option<String>,
    ) -> (r: Self)
        ensures
            r.organization == organization,
            r.project == project,
            r.repository == repository,
            r.dev_branch == dev_branch,
            r.target_branch == target_branch,
            r.version == version,
            r.tag_prefix == tag_prefix,
            r.work_item_state == work_item_state,
            r.run_hooks == run_hooks,
            r.local_repo == local_repo,
            match hooks_config {
                Some(h) => r.hooks_config == h,
                None => forall|t: HookTrigger| !has_commands_for(r.hooks_config, t),
            },
            r.max_concurrent_network == max_concurrent_network,
            r.max_concurrent_processing == max_concurrent_processing,
            r.since == since,
    {
        let hooks = match hooks_config {
            Some(h) => h,
            None => HooksConfig::new(),
        };
        MergeEngine {
            organization,
            project,
            repository,
            dev_branch,
            target_branch,
            version,
            tag_prefix,
            work_item_state,
            run_hooks,
            local_repo,
            hooks_config: hooks,
            max_concurrent_network,
            max_concurrent_processing,
            since,
        }
    }

    /// The hook configuration.
    pub fn hooks_config(&self) -> (r: &HooksConfig)
        ensures
            *r == self.hooks_config,
    {
        &self.hooks_config
    }

    /// The hook context of this merge in the repository at `repo_path`.
    pub fn create_hook_context(&self, repo_path: &str) -> (r: HookContext)
        ensures
            crate::operations::hooks::opt_text(r.version) == Some(self.version@),
            crate::operations::hooks::opt_text(r.target_branch) == Some(self.target_branch@),
            crate::operations::hooks::opt_text(r.dev_branch) == Some(self.dev_branch@),
            crate::operations::hooks::opt_text(r.repo_path) == Some(repo_path@),
            r.pr_id is None,
            r.commit_id is None,
    {
        HookContext::new()
            .with_version(self.version.as_str())
            .with_target_branch(self.target_branch.as_str())
            .with_dev_branch(self.dev_branch.as_str())
            .with_repo_path(repo_path)
    }

    /// Selects the PRs whose work items are all in one of the states listed
    /// in `states_str` (comma-separated); returns how many were selected.
    pub fn select_prs_by_states(&self, prs: &mut Vec<PullRequestWithWorkItems>, states_str: &str) -> (count: usize)
        ensures
            final(prs)@.len() == old(prs)@.len(),
            exists|states: Seq<String>| string_seq_view(states) == parsed_states(states_str@) && {
                &&& count == count_matching(old(prs)@, states)
                &&& forall|i: int| 0 <= i < final(prs)@.len() ==> (#[trigger] final(prs)@[i]).selected == pr_matches_states(old(prs)@[i], states)
            },
            forall|i: int| 0 <= i < final(prs)@.len() ==> (#[trigger] final(prs)@[i]).pr == old(prs)@[i].pr,
    {
        let states = parse_work_item_states(states_str);
        select_prs_by_work_item_states(prs, states.as_slice())
    }

    /// The cherry-pick settings: git hooks as configured; a worktree when a
    /// local repository is configured.
    pub fn cherry_pick_config(&self) -> (r: CherryPickConfig)
        ensures
            r.run_hooks == self.run_hooks,
            r.is_worktree == (self.local_repo is Some),
    {
        CherryPickConfig { run_hooks: self.run_hooks, is_worktree: self.local_repo.is_some() }
    }

    /// The items to cherry-pick: the selected PRs with a merge commit, in
    /// order, pending, with their work item ids.
    pub fn cherry_pick_items(prs: &[PullRequestWithWorkItems]) -> (r: Vec<StateCherryPickItem>)
        ensures
            r@.map_values(|i: StateCherryPickItem| state_item_view(i)) == items_of_prs(prs@),
            forall|k: int| 0 <= k < r@.len() ==> (#[trigger] r@[k]).status is Pending,
    {
        let mut out: Vec<StateCherryPickItem> = Vec::new();
        let mut i: usize = 0;
        while i < prs.len()
            invariant
                0 <= i <= prs@.len(),
                out@.map_values(|i: StateCherryPickItem| state_item_view(i)) == items_of_prs(prs@.subrange(0, i as int)),
                forall|k: int| 0 <= k < out@.len() ==> (#[trigger] out@[k]).status is Pending,
            decreases prs@.len() - i,
        {
            proof {
                assert(prs@.subrange(0, i as int + 1).drop_last() =~= prs@.subrange(0, i as int));
            }
            let pr = &prs[i];
            if pr.selected {
                match &pr.pr.last_merge_commit {
                    Some(commit) => {
                        let mut ids: Vec<i32> = Vec::new();
                        let mut j: usize = 0;
                        while j < pr.work_items.len()
                            invariant
                                0 <= j <= pr.work_items@.len(),
                                ids@ == crate::operations::work_item_grouping::wi_ids(*pr).subrange(0, j as int),
                            decreases pr.work_items@.len() - j,
                        {
                            ids.push(pr.work_items[j].id);
                            j = j + 1;
                            proof {
                                assert(ids@ =~= crate::operations::work_item_grouping::wi_ids(*pr).subrange(0, j as int));
                            }
                        }
                        proof {
                            assert(ids@ =~= crate::operations::work_item_grouping::wi_ids(*pr));
                        }
                        let ghost before = out@;
                        let item = StateCherryPickItem {
                            commit_id: commit.commit_id.clone(),
                            pr_id: pr.pr.id,
                            pr_title: pr.pr.title.clone(),
                            status: StateItemStatus::Pending,
                            work_item_ids: ids,
                        };
                        out.push(item);
                        proof {
                            assert(out@.map_values(|i: StateCherryPickItem| state_item_view(i)) =~= before.map_values(|i: StateCherryPickItem| state_item_view(i)).push(state_item_view(item)));
                        }
                    },
                    None => {},
                }
            }
            i = i + 1;
        }
        proof {
            assert(prs@.subrange(0, prs@.len() as int) =~= prs@);
        }
        out
    }

    /// Whether the pre-cherry-pick hooks run: only when processing starts at
    /// the first item and the trigger has commands.
    pub fn should_run_pre_cherry_pick_hooks(&self, state: &MergeStateFile) -> (r: bool)
        ensures
            r == (state.current_index == 0 && has_commands_for(self.hooks_config, HookTrigger::PreCherryPick)),
    {
        state.current_index == 0 && self.hooks_config.has_hooks_for(HookTrigger::PreCherryPick)
    }

    /// The start event of the next cherry-pick, or `None` when every item
    /// has been processed.
    pub fn next_cherry_pick(state: &MergeStateFile) -> (r: Option<ProgressEvent>)
        ensures
            match r {
                None => state.current_index >= state.cherry_pick_items@.len(),
                Some(ProgressEvent::CherryPickStart { pr_id, commit_id, index, total }) => {
                    &&& state.current_index < state.cherry_pick_items@.len()
                    &&& pr_id == state.cherry_pick_items@[state.current_index as int].pr_id
                    &&& commit_id == state.cherry_pick_items@[state.current_index as int].commit_id
                    &&& index == state.current_index
                    &&& total == state.cherry_pick_items@.len()
                },
                Some(_) => false,
            },
    {
        if state.current_index >= state.cherry_pick_items.len() {
            return None;
        }
        let item = &state.cherry_pick_items[state.current_index];
        Some(ProgressEvent::CherryPickStart {
            pr_id: item.pr_id,
            commit_id: item.commit_id.clone(),
            index: state.current_index,
            total: state.cherry_pick_items.len(),
        })
    }

    /// Records the outcome of cherry-picking the current item: its status
    /// is set; a conflict records the conflicted files, moves to
    /// `AwaitingConflictResolution` and keeps the index, any other outcome
    /// moves to the next item.
    pub fn apply_outcome(&self, state: &mut MergeStateFile, outcome: CherryPickOutcome) -> (r: CherryPickStep)
        requires
            old(state).current_index < old(state).cherry_pick_items@.len(),
        ensures
            ({
                let i = old(state).current_index as int;
                let it = old(state).cherry_pick_items@[i];
                &&& same_settings(*old(state), *final(state))
                &&& item_updated(old(state).cherry_pick_items@, final(state).cherry_pick_items@, i, recorded_status(outcome))
                &&& match outcome {
                    CherryPickOutcome::Conflict { conflicted_files } => {
                        &&& final(state).current_index == old(state).current_index
                        &&& final(state).phase == MergePhase::AwaitingConflictResolution
                        &&& final(state).conflicted_files == Some(conflicted_files)
                        &&& r.conflict matches Some(c) && c.pr_id == it.pr_id && c.pr_title == it.pr_title
                            && c.commit_id == it.commit_id && strs_view(c.conflicted_files@) == strs_view(conflicted_files@)
                            && c.repo_path == old(state).repo_path
                            && c.resolution_instructions@.map_values(|s: String| s@) == resolution_steps(old(state).repo_path@)
                        &&& r.event matches ProgressEvent::CherryPickConflict { pr_id, conflicted_files: fs, repo_path }
                            && pr_id == it.pr_id && strs_view(fs@) == strs_view(conflicted_files@) && repo_path == old(state).repo_path
                        &&& !r.run_post_cherry_pick_hooks
                        &&& r.run_on_conflict_hooks == has_commands_for(self.hooks_config, HookTrigger::OnConflict)
                    },
                    _ => {
                        &&& final(state).current_index == old(state).current_index + 1
                        &&& final(state).phase == old(state).phase
                        &&& final(state).conflicted_files == old(state).conflicted_files
                        &&& r.conflict is None
                        &&& !r.run_on_conflict_hooks
                        &&& r.run_post_cherry_pick_hooks == (outcome is Success && has_commands_for(self.hooks_config, HookTrigger::PostCherryPick))
                        &&& match outcome {
                            CherryPickOutcome::Success => r.event == ProgressEvent::CherryPickSuccess { pr_id: it.pr_id, commit_id: it.commit_id },
                            CherryPickOutcome::Skipped => r.event == ProgressEvent::CherryPickSkipped { pr_id: it.pr_id, reason: None },
                            CherryPickOutcome::Failed { message } => r.event == ProgressEvent::CherryPickFailed { pr_id: it.pr_id, error: message },
                            _ => true,
                        }
                    },
                }
                &&& validation_error(*old(state)) is None ==> validation_error(*final(state)) is None
            }),
    {
        let i = state.current_index;
        proof {
            assert(i < state.cherry_pick_items.len());
        }
        let pr_id = state.cherry_pick_items[i].pr_id;
        let commit_id = state.cherry_pick_items[i].commit_id.clone();
        match outcome {
            CherryPickOutcome::Success => {
                state.cherry_pick_items[i].status = StateItemStatus::Success;
                state.current_index = i + 1;
                CherryPickStep {
                    event: ProgressEvent::CherryPickSuccess { pr_id, commit_id },
                    conflict: None,
                    run_post_cherry_pick_hooks: self.hooks_config.has_hooks_for(HookTrigger::PostCherryPick),
                    run_on_conflict_hooks: false,
                }
            },
            CherryPickOutcome::Conflict { conflicted_files } => {
                let pr_title = state.cherry_pick_items[i].pr_title.clone();
                let files_event = copy_strings(&conflicted_files);
                let files_info = copy_strings(&conflicted_files);
                state.cherry_pick_items[i].status = StateItemStatus::Conflict;
                state.phase = MergePhase::AwaitingConflictResolution;
                let repo_path = state.repo_path.clone();
                state.conflicted_files = Some(conflicted_files);
                let info = ConflictInfo::new(pr_id, pr_title, commit_id, files_info, repo_path.clone());
                CherryPickStep {
                    event: ProgressEvent::CherryPickConflict { pr_id, conflicted_files: files_event, repo_path },
                    conflict: Some(info),
                    run_post_cherry_pick_hooks: false,
                    run_on_conflict_hooks: self.hooks_config.has_hooks_for(HookTrigger::OnConflict),
                }
            },
            CherryPickOutcome::Skipped => {
                state.cherry_pick_items[i].status = StateItemStatus::Skipped;
                state.current_index = i + 1;
                CherryPickStep {
                    event: ProgressEvent::CherryPickSkipped { pr_id, reason: None },
                    conflict: None,
                    run_post_cherry_pick_hooks: false,
                    run_on_conflict_hooks: false,
                }
            },
            CherryPickOutcome::Failed { message } => {
                let error = message.clone();
                state.cherry_pick_items[i].status = StateItemStatus::Failed { message };
                state.current_index = i + 1;
                CherryPickStep {
                    event: ProgressEvent::CherryPickFailed { pr_id, error },
                    conflict: None,
                    run_post_cherry_pick_hooks: false,
                    run_on_conflict_hooks: false,
                }
            },
        }
    }

    /// What a hook run means for the cherry-pick run: a pre-cherry-pick
    /// hook failure that aborts stops the run with that failure; the outcome
    /// of any other hook run (on a conflict, after a cherry-pick, after the
    /// merge) is not acted upon.
    pub fn hook_stop(trigger: HookTrigger, outcome: HookOutcome) -> (r: Option<CherryPickProcessResult>)
        ensures
            match r {
                Some(CherryPickProcessResult::HookAbort { trigger: t, command, error }) => {
                    &&& trigger == HookTrigger::PreCherryPick
                    &&& outcome matches HookOutcome::Abort { trigger: t2, command: c2, error: e2 }
                    &&& t == t2 && command == c2 && error == e2
                },
                Some(_) => false,
                None => !(trigger == HookTrigger::PreCherryPick && outcome is Abort),
            },
    {
        match (trigger, outcome) {
            (HookTrigger::PreCherryPick, HookOutcome::Abort { trigger, command, error }) => {
                Some(CherryPickProcessResult::HookAbort { trigger, command, error })
            },
            _ => None,
        }
    }

    /// Marks the end of processing: every item has been handled and the
    /// merge is ready for completion.
    pub fn finish_cherry_picks(state: &mut MergeStateFile)
        ensures
            final(state).phase == MergePhase::ReadyForCompletion,
            final(state).cherry_pick_items == old(state).cherry_pick_items,
            final(state).current_index == old(state).current_index,
            final(state).conflicted_files == old(state).conflicted_files,
            same_settings(*old(state), *final(state)),
    {
        state.phase = MergePhase::ReadyForCompletion;
    }

    /// Settles the conflicted current item with `status` (success after
    /// `continue`, skipped after `skip`) and moves on to the next item.
    pub fn resolve_current(state: &mut MergeStateFile, status: StateItemStatus)
        requires
            old(state).current_index < old(state).cherry_pick_items@.len(),
        ensures
            same_settings(*old(state), *final(state)),
            item_updated(old(state).cherry_pick_items@, final(state).cherry_pick_items@, old(state).current_index as int, status),
            final(state).current_index == old(state).current_index + 1,
            final(state).phase == MergePhase::CherryPicking,
            final(state).conflicted_files is None,
            validation_error(*old(state)) is None ==> validation_error(*final(state)) is None,
    {
        let i = state.current_index;
        proof {
            assert(i < state.cherry_pick_items.len());
        }
        state.cherry_pick_items[i].status = status;
        state.current_index = i + 1;
        state.phase = MergePhase::CherryPicking;
        state.conflicted_files = None;
    }

    /// The event that starts a trigger's hooks, or `None` when the trigger
    /// has no commands (the run then succeeds without running anything).
    pub fn hook_start_event(&self, trigger: HookTrigger) -> (r: Option<ProgressEvent>)
        ensures
            match r {
                None => !has_commands_for(self.hooks_config, trigger),
                Some(ProgressEvent::HookStart { trigger: t, command_count }) => has_commands_for(self.hooks_config, trigger)
                    && t@ == trigger_description(trigger)
                    && command_count == crate::operations::hooks::config_of(self.hooks_config, trigger).commands@.len(),
                Some(_) => false,
            },
    {
        if !self.hooks_config.has_hooks_for(trigger) {
            return None;
        }
        let commands = self.hooks_config.commands_for(trigger);
        Some(ProgressEvent::HookStart { trigger: trigger.description().to_owned(), command_count: commands.len() })
    }

    /// The events reporting a finished hook run and its outcome: a
    /// completion event per command result, the completion of the trigger,
    /// and on failure a failure event; the outcome aborts or continues by
    /// the trigger's failure mode.
    pub fn hook_finish(&self, trigger: HookTrigger, result: &HookResult) -> (r: (Vec<ProgressEvent>, HookOutcome))
        ensures
            outcome_view(r.1) == outcome_spec(self.hooks_config, trigger, result.command_results@, result.all_succeeded),
            r.1 is Abort || r.1 is ContinuedAfterFailure ==> crate::operations::hooks::outcome_trigger(r.1) == Some(trigger),
            r.0@.len() == result.command_results@.len() + if result.all_succeeded { 1int } else { 2int },
            forall|k: int| 0 <= k < result.command_results@.len() ==> command_event_ok(#[trigger] r.0@[k], trigger, result.command_results@[k], k),
            complete_event_ok(r.0@[result.command_results@.len() as int], trigger, result.all_succeeded),
            !result.all_succeeded ==> failed_event_ok(r.0@[result.command_results@.len() + 1int], trigger, result.command_results@),
    {
        let name = trigger.description();
        let mut events: Vec<ProgressEvent> = Vec::new();
        let mut k: usize = 0;
        while k < result.command_results.len()
            invariant
                0 <= k <= result.command_results@.len(),
                name@ == trigger_description(trigger),
                events@.len() == k,
                forall|t: int| 0 <= t < k ==> command_event_ok(#[trigger] events@[t], trigger, result.command_results@[t], t),
            decreases result.command_results@.len() - k,
        {
            let c = &result.command_results[k];
            events.push(ProgressEvent::HookCommandComplete {
                trigger: name.to_owned(),
                command: c.command.clone(),
                success: c.success,
                index: k,
            });
            k = k + 1;
        }
        events.push(ProgressEvent::HookComplete { trigger: name.to_owned(), all_succeeded: result.all_succeeded });
        let outcome = run_outcome(&self.hooks_config, trigger, result);
        if !result.all_succeeded {
            let (command, error) = failure_of(result);
            events.push(ProgressEvent::HookFailed { trigger: name.to_owned(), command, error });
        }
        (events, outcome)
    }

    /// The PRs whose cherry-pick succeeded, with their work items (titles
    /// are not recorded in the state and stay empty).
    pub fn completed_prs(state: &MergeStateFile) -> (r: Vec<CompletedPRInfo>)
        ensures
            r@.map_values(|c: CompletedPRInfo| completed_record(c)) == completed_of_items(state.cherry_pick_items@),
            forall|k: int, j: int| 0 <= k < r@.len() && 0 <= j < r@[k].work_items@.len() ==> (#[trigger] r@[k].work_items@[j]).title@.len() == 0,
    {
        let items = &state.cherry_pick_items;
        let mut out: Vec<CompletedPRInfo> = Vec::new();
        let mut i: usize = 0;
        while i < items.len()
            invariant
                0 <= i <= items@.len(),
                out@.map_values(|c: CompletedPRInfo| completed_record(c)) == completed_of_items(items@.subrange(0, i as int)),
                forall|k: int, j: int| 0 <= k < out@.len() && 0 <= j < out@[k].work_items@.len() ==> (#[trigger] out@[k].work_items@[j]).title@.len() == 0,
            decreases items@.len() - i,
        {
            proof {
                assert(items@.subrange(0, i as int + 1).drop_last() =~= items@.subrange(0, i as int));
            }
            let it = &items[i];
            match it.status {
                StateItemStatus::Success => {
                    let mut wis: Vec<WorkItemInfo> = Vec::new();
                    let mut j: usize = 0;
                    while j < it.work_item_ids.len()
                        invariant
                            0 <= j <= it.work_item_ids@.len(),
                            wis@.map_values(|w: WorkItemInfo| w.id) == it.work_item_ids@.subrange(0, j as int),
                            forall|t: int| 0 <= t < wis@.len() ==> (#[trigger] wis@[t]).title@.len() == 0,
                        decreases it.work_item_ids@.len() - j,
                    {
                        let ghost prev = wis@;
                        let w = WorkItemInfo { id: it.work_item_ids[j], title: String::new() };
                        wis.push(w);
                        proof {
                            assert(wis@.map_values(|w: WorkItemInfo| w.id) =~= prev.map_values(|w: WorkItemInfo| w.id).push(w.id));
                            assert(it.work_item_ids@.subrange(0, j as int + 1) =~= it.work_item_ids@.subrange(0, j as int).push(w.id));
                        }
                        j = j + 1;
                    }
                    proof {
                        assert(it.work_item_ids@.subrange(0, it.work_item_ids@.len() as int) =~= it.work_item_ids@);
                    }
                    let ghost before = out@;
                    let c = CompletedPRInfo { pr_id: it.pr_id, pr_title: it.pr_title.clone(), work_items: wis };
                    out.push(c);
                    proof {
                        assert(out@.map_values(|c: CompletedPRInfo| completed_record(c)) =~= before.map_values(|c: CompletedPRInfo| completed_record(c)).push(completed_record(c)));
                    }
                },
                _ => {},
            }
            i = i + 1;
        }
        proof {
            assert(items@.subrange(0, items@.len() as int) =~= items@);
        }
        out
    }

    /// The post-merge settings of a state: its tag prefix and version, and
    /// the state the work items move to.
    pub fn post_merge_config(state: &MergeStateFile, next_state: &str) -> (r: PostMergeConfig)
        ensures
            r.tag_prefix == state.tag_prefix,
            r.version == state.merge_version,
            r.work_item_state@ == next_state@,
    {
        PostMergeConfig {
            tag_prefix: state.tag_prefix.clone(),
            version: state.merge_version.clone(),
            work_item_state: next_state.to_owned(),
        }
    }

    /// The summary items of a state's items, in order.
    pub fn create_summary_items(&self, state: &MergeStateFile) -> (r: Vec<SummaryItem>)
        ensures
            r@.map_values(|i: SummaryItem| summary_item_view(i)) == state.cherry_pick_items@.map_values(|i: StateCherryPickItem| summary_of_item(i)),
    {
        summary_items(state)
    }

    /// The summary counts of a state: successful, failed, skipped and
    /// pending items (a conflicted item is in none of them).
    pub fn create_summary_counts(&self, state: &MergeStateFile) -> (r: SummaryCounts)
        ensures
            ({
                let (p, s, c, k, f) = counts_of(state.cherry_pick_items@);
                &&& r.successful == s
                &&& r.failed == f
                &&& r.skipped == k
                &&& r.pending == p
                &&& r.total == s + f + k + p
            }),
    {
        let counts = state.status_counts();
        proof {
            law_counts_sum(state.cherry_pick_items@);
            assert(state.cherry_pick_items@.len() == state.cherry_pick_items.len());
        }
        SummaryCounts::new(counts.success, counts.failed, counts.skipped, counts.pending)
    }

    /// The final status of a merge from its items.
    pub fn determine_final_status(&self, state: &MergeStateFile) -> (r: MergeStatus)
        ensures
            r == final_status_of(state.cherry_pick_items@),
    {
        let counts = state.status_counts();
        proof {
            law_counts_sum(state.cherry_pick_items@);
            assert(state.cherry_pick_items@.len() == state.cherry_pick_items.len());
        }
        if counts.failed == 0 && counts.skipped == 0 {
            MergeStatus::Success
        } else if counts.success > 0 {
            MergeStatus::PartialSuccess
        } else {
            MergeStatus::Failed
        }
    }
}

/// The summary items of a state's items, in order.
pub fn summary_items(state: &MergeStateFile) -> (r: Vec<SummaryItem>)
    ensures
        r@.map_values(|i: SummaryItem| summary_item_view(i)) == state.cherry_pick_items@.map_values(|i: StateCherryPickItem| summary_of_item(i)),
{
    let items = &state.cherry_pick_items;
    let mut out: Vec<SummaryItem> = Vec::new();
    let mut i: usize = 0;
    while i < items.len()
        invariant
            0 <= i <= items@.len(),
            out@.map_values(|i: SummaryItem| summary_item_view(i)) == items@.subrange(0, i as int).map_values(|i: StateCherryPickItem| summary_of_item(i)),
        decreases items@.len() - i,
    {
        let it = &items[i];
        let status = match &it.status {
            StateItemStatus::Pending => ItemStatus::Pending,
            StateItemStatus::Success => ItemStatus::Success,
            StateItemStatus::Conflict => ItemStatus::Conflict,
            StateItemStatus::Skipped => ItemStatus::Skipped,
            StateItemStatus::Failed { .. } => ItemStatus::Failed,
        };
        let error = match &it.status {
            StateItemStatus::Failed { message } => Some(message.clone()),
            _ => None,
        };
        let ghost before = out@;
        let s = SummaryItem { pr_id: it.pr_id, pr_title: it.pr_title.clone(), commit_id: it.commit_id.clone(), status, error };
        out.push(s);
        proof {
            assert(items@.subrange(0, i as int + 1) =~= items@.subrange(0, i as int).push(*it));
            assert(out@.map_values(|i: SummaryItem| summary_item_view(i)) =~= before.map_values(|i: SummaryItem| summary_item_view(i)).push(summary_item_view(s)));
            assert(items@.subrange(0, i as int).push(*it).map_values(|i: StateCherryPickItem| summary_of_item(i))
                =~= items@.subrange(0, i as int).map_values(|i: StateCherryPickItem| summary_of_item(i)).push(summary_of_item(*it)));
        }
        i = i + 1;
    }
    proof {
        assert(items@.subrange(0, items@.len() as int) =~= items@);
    }
    out
}

/// Processing keeps every item before the index settled: after applying an
/// outcome to a state whose items before the index are all settled (not
/// pending), the items before the new index are still all settled.
pub proof fn law_processed_items_settled(old_items: Seq<StateCherryPickItem>, new_items: Seq<StateCherryPickItem>, i: int, status: StateItemStatus, new_index: int)
    requires
        0 <= i < old_items.len(),
        forall|k: int| 0 <= k < i ==> !(#[trigger] old_items[k].status is Pending),
        item_updated(old_items, new_items, i, status),
        !(status is Pending),
        new_index == i || new_index == i + 1,
    ensures
        forall|k: int| 0 <= k < new_index ==> !(#[trigger] new_items[k].status is Pending),
{
    assert forall|k: int| 0 <= k < new_index implies !(#[trigger] new_items[k].status is Pending) by {
        if k < i {
            assert(new_items[k] == old_items[k]);
        }
    }
}

} // verus!
