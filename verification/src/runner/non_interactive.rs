//! The non-interactive runner, for CI systems and agents: the decisions of
//! its commands (run, continue, skip, abort, status, complete) and what they
//! report.
//!
//! Each step that touches the repository, the lock or the state file on disk
//! is performed by the caller, which hands its outcome to the runner; the
//! runner reports what happened and says whether and how the command ends.

use vstd::prelude::*;
use crate::exit_code::ExitCode;
use crate::models::{OutputFormat, PullRequestWithWorkItems};
use crate::operations::dependency_analysis::{
    copy_strings, strs_view, warning_is_critical, category_shared, DependencyWarning, GraphSummary,
};
use crate::operations::hooks::{has_commands_for, same_hooks, HookOutcome, HookTrigger};
use crate::operations::pr_selection::{count_matching, parsed_states, pr_matches_states, string_seq_view};
use crate::output::events::{
    resolution_steps, ConflictInfo, PostMergeSummary, ProgressEvent, ProgressSummary, StatusInfo, SummaryCounts,
    SummaryInfo, SummaryItem, SummaryResult,
};
use crate::output::format::{
    conflict_written, event_renderable, event_written, status_renderable, status_written, summary_written,
    OutputChunk, OutputFormatter, OutputWriter,
};
use crate::runner::merge_engine::{
    final_status_of, summary_item_view, summary_items, summary_of_item, CherryPickProcessResult, MergeEngine,
};
use crate::runner::traits::{conflict_message, opt_str, MergeRunnerConfig, RunResult};
use crate::state::file::{
    counts_of, law_counts_sum, phase_is_terminal, phase_text, MergePhase, MergeStateFile, MergeStatus,
    StateCherryPickItem, StateItemStatus,
};
use crate::text::{concat2, concat3, decimal_nat, usize_to_decimal};

verus! {

/// What a probe of the repository lock found.
#[derive(Debug)]
pub enum LockProbe {
    /// Nobody holds the lock.
    Free,
    /// Another operation holds the lock.
    Locked,
    /// The probe failed.
    Failed(String),
}

/// What acquiring the repository lock gave.
#[derive(Debug)]
pub enum LockAttempt {
    /// The lock is ours.
    Acquired,
    /// Another operation holds it.
    Held,
    /// Acquiring failed.
    Failed(String),
}

/// What loading the state file of a repository gave.
#[derive(Debug)]
pub enum StateLoad {
    /// A valid state file.
    Found(MergeStateFile),
    /// No state file.
    Missing,
    /// Loading or validating failed.
    Failed(String),
}

/// A command on a merge in progress.
#[derive(Debug, Clone, Copy, PartialEq, Eq, Structural)]
pub enum RepoCommand {
    Continue,
    Skip,
    Abort,
    Complete,
}

/// A command that processes cherry-picks.
#[derive(Debug, Clone, Copy, PartialEq, Eq, Structural)]
pub enum ProcessingCommand {
    Run,
    Continue,
    Skip,
}

/// Whether `after` is `before` having written an error event with message
/// `msg` and code `code`.
pub open spec fn error_written(before: OutputWriter, after: OutputWriter, msg: Seq<char>, code: Option<Seq<char>>) -> bool {
    exists|e: ProgressEvent|
        #![trigger event_written(before, after, e)]
        event_written(before, after, e) && match e {
            ProgressEvent::Error { message, code: c } => message@ == msg && opt_str(c) == code,
            _ => false,
        }
}

/// Whether a result is an error with `code` and `msg` and no state file.
pub open spec fn is_error(r: RunResult, code: ExitCode, msg: Seq<char>) -> bool {
    &&& r.exit_code == code
    &&& opt_str(r.message) == Some(msg)
    &&& r.state_file_path is None
}

/// The message reported when another operation holds the lock.
pub open spec fn locked_message() -> Seq<char> {
    "Another merge operation is in progress"@
}

/// Whether a phase allows a command: continue and skip need a conflict
/// awaiting resolution, complete needs the cherry-picks done, abort needs a
/// merge that has not ended.
pub open spec fn phase_allows(command: RepoCommand, phase: MergePhase) -> bool {
    match command {
        RepoCommand::Continue => phase == MergePhase::AwaitingConflictResolution,
        RepoCommand::Skip => phase == MergePhase::AwaitingConflictResolution,
        RepoCommand::Abort => !phase_is_terminal(phase),
        RepoCommand::Complete => phase == MergePhase::ReadyForCompletion,
    }
}

/// The error reported when the phase does not allow a command.
pub open spec fn phase_error_message(command: RepoCommand, phase: MergePhase) -> Seq<char> {
    match command {
        RepoCommand::Continue => "Cannot continue: merge is in '"@ + phase_text(phase) + "' phase"@,
        RepoCommand::Skip => "Cannot skip: merge is in '"@ + phase_text(phase) + "' phase"@,
        RepoCommand::Abort => "Cannot abort: merge is already '"@ + phase_text(phase) + "'"@,
        RepoCommand::Complete => "Cannot complete: merge is in '"@ + phase_text(phase) + "' phase"@,
    }
}

/// The message of the result when the phase does not allow a command.
pub open spec fn phase_result_message(command: RepoCommand) -> Seq<char> {
    match command {
        RepoCommand::Continue => "Invalid phase for continue"@,
        RepoCommand::Skip => "Invalid phase for skip"@,
        RepoCommand::Abort => "Invalid phase for abort"@,
        RepoCommand::Complete => "Invalid phase for complete"@,
    }
}

/// The status word of a phase.
pub open spec fn status_word(p: MergePhase) -> Seq<char> {
    match p {
        MergePhase::Completed => "completed"@,
        MergePhase::Aborted => "aborted"@,
        MergePhase::AwaitingConflictResolution => "conflict"@,
        MergePhase::ReadyForCompletion => "ready"@,
        _ => "in_progress"@,
    }
}

/// Whether `info` is the status of a repository with no merge in progress.
pub open spec fn is_idle_status(info: StatusInfo, repo_path: Seq<char>) -> bool {
    &&& info.phase@ == "idle"@
    &&& info.status@ == "idle"@
    &&& info.version@.len() == 0
    &&& info.target_branch@.len() == 0
    &&& info.repo_path@ == repo_path
    &&& info.progress == ProgressSummary { total: 0, completed: 0, pending: 0, current_index: 0 }
    &&& info.conflict is None
    &&& info.items is None
}

/// Whether `c` is the conflict a status shows for `state`: the current item
/// with the recorded conflicted files, when a conflict awaits resolution.
pub open spec fn status_conflict_of(c: Option<ConflictInfo>, state: MergeStateFile) -> bool {
    if state.phase == MergePhase::AwaitingConflictResolution && state.current_index < state.cherry_pick_items@.len() {
        let it = state.cherry_pick_items@[state.current_index as int];
        match c {
            Some(ci) => {
                &&& ci.pr_id == it.pr_id
                &&& ci.pr_title == it.pr_title
                &&& ci.commit_id == it.commit_id
                &&& strs_view(ci.conflicted_files@) == match state.conflicted_files {
                    Some(fs) => strs_view(fs@),
                    None => Seq::empty(),
                }
                &&& ci.repo_path == state.repo_path
                &&& ci.resolution_instructions@.map_values(|s: String| s@) == resolution_steps(state.repo_path@)
            },
            None => false,
        }
    } else {
        c is None
    }
}

/// Whether `info` is the status of `state`.
pub open spec fn is_state_status(info: StatusInfo, state: MergeStateFile) -> bool {
    let (p, s, c, k, f) = counts_of(state.cherry_pick_items@);
    &&& info.phase@ == phase_text(state.phase)
    &&& info.status@ == status_word(state.phase)
    &&& info.version == state.merge_version
    &&& info.target_branch == state.target_branch
    &&& info.repo_path == state.repo_path
    &&& info.progress.total == p + s + c + k + f
    &&& info.progress.completed == s + k + f
    &&& info.progress.pending == p
    &&& info.progress.current_index == state.current_index
    &&& status_conflict_of(info.conflict, state)
    &&& match info.items {
        Some(v) => v@.map_values(|i: SummaryItem| summary_item_view(i))
            == state.cherry_pick_items@.map_values(|i: StateCherryPickItem| summary_of_item(i)),
        None => false,
    }
}

/// The unselected-dependency warnings among `ws`, in order.
pub open spec fn unselected_warnings(ws: Seq<DependencyWarning>) -> Seq<DependencyWarning>
    decreases ws.len(),
{
    if ws.len() == 0 {
        Seq::empty()
    } else {
        let init = unselected_warnings(ws.drop_last());
        if ws.last() is UnselectedDependency {
            init.push(ws.last())
        } else {
            init
        }
    }
}

/// Whether `e` is the event reporting the warning `w`.
pub open spec fn warning_event_of(e: ProgressEvent, w: DependencyWarning) -> bool {
    match (e, w) {
        (
            ProgressEvent::DependencyWarning {
                selected_pr_id: a,
                selected_pr_title: b,
                unselected_pr_id: c,
                unselected_pr_title: d,
                is_critical,
                shared_files,
            },
            DependencyWarning::UnselectedDependency {
                selected_pr_id,
                selected_pr_title,
                unselected_pr_id,
                unselected_pr_title,
                category,
            },
        ) => {
            &&& a == selected_pr_id
            &&& b == selected_pr_title
            &&& c == unselected_pr_id
            &&& d == unselected_pr_title
            &&& is_critical == warning_is_critical(w)
            &&& strs_view(shared_files@) == category_shared(category@)
        },
        _ => false,
    }
}

/// The non-interactive merge runner.
pub struct NonInteractiveRunner {
    config: MergeRunnerConfig,
    output: OutputWriter,
}

impl NonInteractiveRunner {
    /// The configuration.
    pub closed spec fn config_view(&self) -> MergeRunnerConfig {
        self.config
    }

    /// The output writer.
    pub closed spec fn output_view(&self) -> OutputWriter {
        self.output
    }

    /// A runner for `config`, writing in its configured format and quiet
    /// mode to a writer of its own, which the caller drains.
    pub fn with_writer(config: MergeRunnerConfig) -> (r: Self)
        ensures
            r.config_view() == config,
            r.output_view().format_view() == config.output_format,
            r.output_view().quiet_view() == config.quiet,
            r.output_view().buffered().len() == 0,
            r.output_view().queued().len() == 0,
    {
        let output = OutputWriter::new(config.output_format, config.quiet);
        NonInteractiveRunner { config, output }
    }

    /// The configuration.
    pub fn config(&self) -> (r: &MergeRunnerConfig)
        ensures
            *r == self.config_view(),
    {
        &self.config
    }

    /// The output writer.
    pub fn output(&self) -> (r: &OutputWriter)
        ensures
            *r == self.output_view(),
    {
        &self.output
    }

    /// Takes what the writer has queued for writing.
    pub fn take_output(&mut self) -> (r: Vec<OutputChunk>)
        ensures
            r@ == old(self).output_view().queued(),
            final(self).config_view() == old(self).config_view(),
            final(self).output_view().queued().len() == 0,
            final(self).output_view().format_view() == old(self).output_view().format_view(),
            final(self).output_view().quiet_view() == old(self).output_view().quiet_view(),
            final(self).output_view().buffered() == old(self).output_view().buffered(),
    {
        self.output.take_pending()
    }

    /// Reports an event.
    pub fn emit_event(&mut self, event: ProgressEvent)
        requires
            old(self).output_view().format_view() is Text ==> event_renderable(event),
        ensures
            final(self).config_view() == old(self).config_view(),
            event_written(old(self).output_view(), final(self).output_view(), event),
    {
        self.output.write_event(event);
    }

    /// Reports an error with an optional code.
    pub fn emit_error_with_code(&mut self, message: &str, code: Option<&str>)
        ensures
            final(self).config_view() == old(self).config_view(),
            error_written(
                old(self).output_view(),
                final(self).output_view(),
                message@,
                match code {
                    Some(c) => Some(c@),
                    None => None,
                },
            ),
    {
        let c = match code {
            Some(c) => Some(c.to_owned()),
            None => None,
        };
        let event = ProgressEvent::Error { message: message.to_owned(), code: c };
        let ghost e = event;
        self.output.write_event(event);
        assert(event_written(old(self).output_view(), self.output_view(), e));
    }

    /// Reports an error without a code.
    pub fn emit_error(&mut self, message: &str)
        ensures
            final(self).config_view() == old(self).config_view(),
            error_written(old(self).output_view(), final(self).output_view(), message@, None),
    {
        self.emit_error_with_code(message, None);
    }

    /// Ends a command whose lock probe found the lock held or failed;
    /// `None` when the lock is free.
    pub fn check_lock_probe(&mut self, probe: LockProbe) -> (r: Option<RunResult>)
        ensures
            final(self).config_view() == old(self).config_view(),
            match probe {
                LockProbe::Free => r is None && final(self).output_view() == old(self).output_view(),
                LockProbe::Locked => {
                    &&& r matches Some(res) && is_error(res, ExitCode::Locked, "Locked"@)
                    &&& error_written(old(self).output_view(), final(self).output_view(), locked_message(), Some("locked"@))
                },
                LockProbe::Failed(e) => {
                    &&& r matches Some(res) && is_error(res, ExitCode::GeneralError, e@)
                    &&& error_written(
                        old(self).output_view(),
                        final(self).output_view(),
                        "Failed to check lock: "@ + e@,
                        None,
                    )
                },
            },
    {
        match probe {
            LockProbe::Free => None,
            LockProbe::Locked => {
                self.emit_error_with_code("Another merge operation is in progress", Some("locked"));
                Some(RunResult::error(ExitCode::Locked, "Locked"))
            },
            LockProbe::Failed(e) => {
                self.emit_error(concat2("Failed to check lock: ", e.as_str()).as_str());
                Some(RunResult::error(ExitCode::GeneralError, e.as_str()))
            },
        }
    }

    /// The loaded state, or the result ending a command whose state file
    /// is missing or failed to load.
    pub fn check_state_load(&mut self, load: StateLoad) -> (r: Result<MergeStateFile, RunResult>)
        ensures
            final(self).config_view() == old(self).config_view(),
            match load {
                StateLoad::Found(s) => r == Ok::<MergeStateFile, RunResult>(s) && final(self).output_view()
                    == old(self).output_view(),
                StateLoad::Missing => {
                    &&& r matches Err(res) && is_error(res, ExitCode::NoStateFile, "No state file found"@)
                    &&& error_written(
                        old(self).output_view(),
                        final(self).output_view(),
                        "No state file found for this repository"@,
                        Some("no_state_file"@),
                    )
                },
                StateLoad::Failed(e) => {
                    &&& r matches Err(res) && is_error(res, ExitCode::GeneralError, e@)
                    &&& error_written(old(self).output_view(), final(self).output_view(), e@, None)
                },
            },
    {
        match load {
            StateLoad::Found(s) => Ok(s),
            StateLoad::Missing => {
                self.emit_error_with_code("No state file found for this repository", Some("no_state_file"));
                Err(RunResult::error(ExitCode::NoStateFile, "No state file found"))
            },
            StateLoad::Failed(e) => {
                self.emit_error(e.as_str());
                Err(RunResult::error(ExitCode::GeneralError, e.as_str()))
            },
        }
    }

    /// Ends a command that the merge's phase does not allow; `None` when it
    /// does.
    pub fn check_phase(&mut self, command: RepoCommand, state: &MergeStateFile) -> (r: Option<RunResult>)
        ensures
            final(self).config_view() == old(self).config_view(),
            phase_allows(command, state.phase) ==> r is None && final(self).output_view() == old(self).output_view(),
            !phase_allows(command, state.phase) ==> {
                &&& r matches Some(res) && is_error(res, ExitCode::InvalidPhase, phase_result_message(command))
                &&& error_written(
                    old(self).output_view(),
                    final(self).output_view(),
                    phase_error_message(command, state.phase),
                    Some("invalid_phase"@),
                )
            },
    {
        let allowed = match command {
            RepoCommand::Continue => state.phase == MergePhase::AwaitingConflictResolution,
            RepoCommand::Skip => state.phase == MergePhase::AwaitingConflictResolution,
            RepoCommand::Abort => !state.phase.is_terminal(),
            RepoCommand::Complete => state.phase == MergePhase::ReadyForCompletion,
        };
        if allowed {
            return None;
        }
        let phase = state.phase.description();
        let (message, result) = match command {
            RepoCommand::Continue => (concat3("Cannot continue: merge is in '", phase, "' phase"), "Invalid phase for continue"),
            RepoCommand::Skip => (concat3("Cannot skip: merge is in '", phase, "' phase"), "Invalid phase for skip"),
            RepoCommand::Abort => (concat3("Cannot abort: merge is already '", phase, "'"), "Invalid phase for abort"),
            RepoCommand::Complete => (concat3("Cannot complete: merge is in '", phase, "' phase"), "Invalid phase for complete"),
        };
        self.emit_error_with_code(message.as_str(), Some("invalid_phase"));
        Some(RunResult::error(ExitCode::InvalidPhase, result))
    }

    /// Ends a command on a merge in progress when the lock could not be
    /// acquired; `None` when it was.
    pub fn check_lock_attempt(&mut self, attempt: LockAttempt) -> (r: Option<RunResult>)
        ensures
            final(self).config_view() == old(self).config_view(),
            match attempt {
                LockAttempt::Acquired => r is None && final(self).output_view() == old(self).output_view(),
                LockAttempt::Held => {
                    &&& r matches Some(res) && is_error(res, ExitCode::Locked, "Locked"@)
                    &&& error_written(old(self).output_view(), final(self).output_view(), locked_message(), Some("locked"@))
                },
                LockAttempt::Failed(e) => {
                    &&& r matches Some(res) && is_error(res, ExitCode::GeneralError, e@)
                    &&& final(self).output_view() == old(self).output_view()
                },
            },
    {
        match attempt {
            LockAttempt::Acquired => None,
            LockAttempt::Held => {
                self.emit_error_with_code("Another merge operation is in progress", Some("locked"));
                Some(RunResult::error(ExitCode::Locked, "Locked"))
            },
            LockAttempt::Failed(e) => Some(RunResult::error(ExitCode::GeneralError, e.as_str())),
        }
    }

    /// Ends a new run when the lock could not be acquired; `None` when it
    /// was.
    pub fn check_run_lock(&mut self, attempt: LockAttempt) -> (r: Option<RunResult>)
        ensures
            final(self).config_view() == old(self).config_view(),
            match attempt {
                LockAttempt::Acquired => r is None && final(self).output_view() == old(self).output_view(),
                LockAttempt::Held => {
                    &&& r matches Some(res) && is_error(res, ExitCode::Locked, locked_message())
                    &&& error_written(old(self).output_view(), final(self).output_view(), locked_message(), Some("locked"@))
                },
                LockAttempt::Failed(e) => {
                    &&& r matches Some(res) && is_error(res, ExitCode::GeneralError, e@)
                    &&& error_written(
                        old(self).output_view(),
                        final(self).output_view(),
                        "Failed to acquire lock: "@ + e@,
                        None,
                    )
                },
            },
    {
        match attempt {
            LockAttempt::Acquired => None,
            LockAttempt::Held => {
                self.emit_error_with_code("Another merge operation is in progress", Some("locked"));
                Some(RunResult::error(ExitCode::Locked, "Another merge operation is in progress"))
            },
            LockAttempt::Failed(e) => {
                self.emit_error(concat2("Failed to acquire lock: ", e.as_str()).as_str());
                Some(RunResult::error(ExitCode::GeneralError, e.as_str()))
            },
        }
    }

    /// Reports `reported` as an error and ends the command with a general
    /// error carrying `message`.
    pub fn fail(&mut self, reported: &str, message: &str) -> (r: RunResult)
        ensures
            final(self).config_view() == old(self).config_view(),
            is_error(r, ExitCode::GeneralError, message@),
            error_written(old(self).output_view(), final(self).output_view(), reported@, None),
    {
        self.emit_error(reported);
        RunResult::error(ExitCode::GeneralError, message)
    }

    /// Shows the status of the repository at `repo_path` from what loading
    /// its state file gave: idle when there is none (a success), the error
    /// when loading failed, otherwise the merge's status, which is a
    /// conflict result while a conflict awaits resolution.
    pub fn status(&mut self, repo_path: &str, load: StateLoad) -> (r: RunResult)
        requires
            load matches StateLoad::Found(st) ==> st.cherry_pick_items@.len() * 40 <= usize::MAX,
        ensures
            final(self).config_view() == old(self).config_view(),
            match load {
                StateLoad::Missing => {
                    &&& r.exit_code == ExitCode::Success && r.message is None && r.state_file_path is None
                    &&& exists|info: StatusInfo|
                        #![trigger status_written(old(self).output_view(), final(self).output_view(), info)]
                        is_idle_status(info, repo_path@) && status_written(
                            old(self).output_view(),
                            final(self).output_view(),
                            info,
                        )
                },
                StateLoad::Failed(e) => {
                    &&& is_error(r, ExitCode::GeneralError, e@)
                    &&& error_written(old(self).output_view(), final(self).output_view(), e@, None)
                },
                StateLoad::Found(state) => {
                    &&& if state.phase == MergePhase::AwaitingConflictResolution {
                        is_error(r, ExitCode::Conflict, "Conflict pending"@)
                    } else {
                        r.exit_code == ExitCode::Success && r.message is None && r.state_file_path is None
                    }
                    &&& exists|info: StatusInfo|
                        #![trigger status_written(old(self).output_view(), final(self).output_view(), info)]
                        is_state_status(info, state) && status_written(
                            old(self).output_view(),
                            final(self).output_view(),
                            info,
                        )
                },
            },
    {
        match load {
            StateLoad::Missing => {
                let info = StatusInfo {
                    phase: "idle".to_owned(),
                    status: "idle".to_owned(),
                    version: String::new(),
                    target_branch: String::new(),
                    repo_path: repo_path.to_owned(),
                    progress: ProgressSummary { total: 0, completed: 0, pending: 0, current_index: 0 },
                    conflict: None,
                    items: None,
                };
                proof {
                    reveal_strlit("idle");
                }
                let ghost i = info;
                self.output.write_status(info);
                assert(status_written(old(self).output_view(), self.output_view(), i));
                RunResult::success()
            },
            StateLoad::Failed(e) => {
                self.emit_error(e.as_str());
                RunResult::error(ExitCode::GeneralError, e.as_str())
            },
            StateLoad::Found(state) => {
                let counts = state.status_counts();
                proof {
                    law_counts_sum(state.cherry_pick_items@);
                    assert(state.cherry_pick_items@.len() == state.cherry_pick_items.len());
                }
                let items = summary_items(&state);
                let awaiting = state.phase == MergePhase::AwaitingConflictResolution;
                let conflict = if awaiting && state.current_index < state.cherry_pick_items.len() {
                    let it = &state.cherry_pick_items[state.current_index];
                    let files = match &state.conflicted_files {
                        Some(fs) => copy_strings(fs),
                        None => {
                            let v: Vec<String> = Vec::new();
                            assert(strs_view(v@) =~= Seq::<Seq<char>>::empty());
                            v
                        },
                    };
                    Some(
                        ConflictInfo::new(
                            it.pr_id,
                            it.pr_title.clone(),
                            it.commit_id.clone(),
                            files,
                            state.repo_path.clone(),
                        ),
                    )
                } else {
                    None
                };
                let status = match state.phase {
                    MergePhase::Completed => "completed",
                    MergePhase::Aborted => "aborted",
                    MergePhase::AwaitingConflictResolution => "conflict",
                    MergePhase::ReadyForCompletion => "ready",
                    _ => "in_progress",
                };
                let info = StatusInfo {
                    phase: state.phase.display_string(),
                    status: status.to_owned(),
                    version: state.merge_version.clone(),
                    target_branch: state.target_branch.clone(),
                    repo_path: state.repo_path.clone(),
                    progress: ProgressSummary {
                        total: counts.total(),
                        completed: counts.completed(),
                        pending: counts.pending,
                        current_index: state.current_index,
                    },
                    conflict,
                    items: Some(items),
                };
                let ghost i = info;
                assert(status_conflict_of(i.conflict, state));
                assert(is_state_status(i, state));
                self.output.write_status(info);
                assert(status_written(old(self).output_view(), self.output_view(), i));
                if awaiting {
                    RunResult::error(ExitCode::Conflict, "Conflict pending")
                } else {
                    RunResult::success()
                }
            },
        }
    }

    /// Aborts a merge: refuses a merge that is already over (completed or
    /// aborted) as `check_phase` does, leaving the state as it is;
    /// otherwise reports a failed cleanup, then records the state as
    /// aborted and returns `None`.
    pub fn abort(&mut self, state: &mut MergeStateFile, cleanup_error: Option<String>) -> (r: Option<RunResult>)
        ensures
            final(self).config_view() == old(self).config_view(),
            !phase_allows(RepoCommand::Abort, old(state).phase) ==> {
                &&& r matches Some(res) && is_error(res, ExitCode::InvalidPhase, "Invalid phase for abort"@)
                &&& *final(state) == *old(state)
                &&& error_written(
                    old(self).output_view(),
                    final(self).output_view(),
                    phase_error_message(RepoCommand::Abort, old(state).phase),
                    Some("invalid_phase"@),
                )
            },
            phase_allows(RepoCommand::Abort, old(state).phase) ==> {
                &&& r is None
                &&& final(state).phase == MergePhase::Aborted
                &&& final(state).final_status == Some(MergeStatus::Aborted)
                &&& final(state).cherry_pick_items == old(state).cherry_pick_items
                &&& final(state).current_index == old(state).current_index
                &&& final(state).conflicted_files == old(state).conflicted_files
                &&& final(state).repo_path == old(state).repo_path
                &&& final(state).completed_at == old(state).completed_at
                &&& match cleanup_error {
                    Some(e) => error_written(old(self).output_view(), final(self).output_view(), "Cleanup failed: "@ + e@, None),
                    None => final(self).output_view() == old(self).output_view(),
                }
            },
    {
        if state.phase.is_terminal() {
            return self.check_phase(RepoCommand::Abort, state);
        }
        match cleanup_error {
            Some(e) => self.emit_error(concat2("Cleanup failed: ", e.as_str()).as_str()),
            None => {},
        }
        state.phase = MergePhase::Aborted;
        state.final_status = Some(MergeStatus::Aborted);
        None
    }

    /// Ends an abort once the state has been saved: reports a failed save,
    /// then the abort, and succeeds.
    pub fn finish_abort(&mut self, save_error: Option<String>) -> (r: RunResult)
        ensures
            final(self).config_view() == old(self).config_view(),
            r.exit_code == ExitCode::Success,
            opt_str(r.message) == Some("Merge aborted"@),
            r.state_file_path is None,
            exists|mid: OutputWriter|
                #![trigger event_written(mid, final(self).output_view(), ProgressEvent::Aborted { success: true, message: None })]
                {
                    &&& match save_error {
                        Some(e) => error_written(old(self).output_view(), mid, "Failed to save state: "@ + e@, None),
                        None => mid == old(self).output_view(),
                    }
                    &&& event_written(mid, final(self).output_view(), ProgressEvent::Aborted { success: true, message: None })
                },
    {
        match save_error {
            Some(e) => self.emit_error(concat2("Failed to save state: ", e.as_str()).as_str()),
            None => {},
        }
        let ghost mid = self.output;
        self.output.write_event(ProgressEvent::Aborted { success: true, message: None });
        assert(event_written(mid, self.output_view(), ProgressEvent::Aborted { success: true, message: None }));
        RunResult::success_with_message("Merge aborted")
    }

    /// Ends a continue whose conflicts are not all resolved; `None` when
    /// they are.
    pub fn check_conflicts_resolved(&mut self, resolved: bool) -> (r: Option<RunResult>)
        ensures
            final(self).config_view() == old(self).config_view(),
            resolved ==> r is None && final(self).output_view() == old(self).output_view(),
            !resolved ==> {
                &&& r matches Some(res) && is_error(res, ExitCode::Conflict, "Conflicts not resolved"@)
                &&& error_written(
                    old(self).output_view(),
                    final(self).output_view(),
                    "Conflicts are not fully resolved. Please resolve all conflicts and stage the files."@,
                    Some("conflicts_unresolved"@),
                )
            },
    {
        if resolved {
            return None;
        }
        self.emit_error_with_code(
            "Conflicts are not fully resolved. Please resolve all conflicts and stage the files.",
            Some("conflicts_unresolved"),
        );
        Some(RunResult::error(ExitCode::Conflict, "Conflicts not resolved"))
    }

    /// Skips the conflicted current item: reports the skip and moves on to
    /// the next item.
    pub fn skip_current(&mut self, state: &mut MergeStateFile)
        requires
            old(state).current_index < old(state).cherry_pick_items@.len(),
        ensures
            final(self).config_view() == old(self).config_view(),
            crate::runner::merge_engine::same_settings(*old(state), *final(state)),
            crate::runner::merge_engine::item_updated(
                old(state).cherry_pick_items@,
                final(state).cherry_pick_items@,
                old(state).current_index as int,
                StateItemStatus::Skipped,
            ),
            final(state).current_index == old(state).current_index + 1,
            final(state).phase == MergePhase::CherryPicking,
            final(state).conflicted_files is None,
            exists|e: ProgressEvent|
                #![trigger event_written(old(self).output_view(), final(self).output_view(), e)]
                event_written(old(self).output_view(), final(self).output_view(), e) && match e {
                    ProgressEvent::CherryPickSkipped { pr_id, reason: Some(why) } => pr_id
                        == old(state).cherry_pick_items@[old(state).current_index as int].pr_id && why@
                        == "Skipped by user due to unresolvable conflict"@,
                    _ => false,
                },
    {
        let pr_id = state.cherry_pick_items[state.current_index].pr_id;
        let event = ProgressEvent::CherryPickSkipped {
            pr_id,
            reason: Some("Skipped by user due to unresolvable conflict".to_owned()),
        };
        let ghost e = event;
        self.output.write_event(event);
        assert(event_written(old(self).output_view(), self.output_view(), e));
        MergeEngine::resolve_current(state, StateItemStatus::Skipped);
    }

    /// Ends a command after its cherry-picks were processed: a conflict is
    /// written and resumes from the state file; a hook abort is reported as
    /// a hook failure; otherwise the counts are reported and the command
    /// succeeds, or partly succeeds when items failed (or, for skip, were
    /// skipped).
    pub fn finish_processing(
        &mut self,
        command: ProcessingCommand,
        result: CherryPickProcessResult,
        engine: &MergeEngine,
        state: &MergeStateFile,
        state_path: String,
    ) -> (r: RunResult)
        ensures
            final(self).config_view() == old(self).config_view(),
            match result {
                CherryPickProcessResult::Conflict(c) => {
                    &&& r.exit_code == ExitCode::Conflict
                    &&& opt_str(r.message) == Some(conflict_message())
                    &&& r.state_file_path == Some(state_path)
                    &&& conflict_written(old(self).output_view(), final(self).output_view(), c)
                },
                CherryPickProcessResult::HookAbort { command: cmd, error, .. } => {
                    &&& r.exit_code == ExitCode::HookFailed
                    &&& opt_str(r.message) == Some("Hook '"@ + cmd@ + "' failed: "@ + error@)
                    &&& r.state_file_path == Some(state_path)
                    &&& error_written(
                        old(self).output_view(),
                        final(self).output_view(),
                        "Hook aborted: "@ + cmd@ + " - "@ + error@,
                        None,
                    )
                },
                CherryPickProcessResult::Complete => {
                    let (p, s, c, k, f) = counts_of(state.cherry_pick_items@);
                    &&& event_written(
                        old(self).output_view(),
                        final(self).output_view(),
                        ProgressEvent::Complete { successful: s as usize, failed: f as usize, skipped: k as usize },
                    )
                    &&& r.state_file_path == Some(state_path)
                    &&& match command {
                        ProcessingCommand::Run => if f > 0 {
                            r.exit_code == ExitCode::PartialSuccess && opt_str(r.message) == Some(
                                decimal_nat(s) + " successful, "@ + decimal_nat(f) + " failed, "@ + decimal_nat(k)
                                    + " skipped"@,
                            )
                        } else {
                            r.exit_code == ExitCode::Success && r.message is None
                        },
                        ProcessingCommand::Continue => if f > 0 {
                            r.exit_code == ExitCode::PartialSuccess && opt_str(r.message) == Some(
                                "Completed with some failures"@,
                            )
                        } else {
                            r.exit_code == ExitCode::Success && r.message is None
                        },
                        ProcessingCommand::Skip => if f > 0 || k > 0 {
                            r.exit_code == ExitCode::PartialSuccess && opt_str(r.message) == Some(
                                "Completed with some skipped/failed items"@,
                            )
                        } else {
                            r.exit_code == ExitCode::Success && r.message is None
                        },
                    }
                },
            },
    {
        match result {
            CherryPickProcessResult::Conflict(c) => {
                let ghost ci = c;
                self.output.write_conflict(c);
                assert(conflict_written(old(self).output_view(), self.output_view(), ci));
                RunResult::conflict(state_path)
            },
            CherryPickProcessResult::HookAbort { command: cmd, error, .. } => {
                let mut reported = "Hook aborted: ".to_owned();
                reported.append(cmd.as_str());
                reported.append(" - ");
                reported.append(error.as_str());
                self.emit_error(reported.as_str());
                let mut message = "Hook '".to_owned();
                message.append(cmd.as_str());
                message.append("' failed: ");
                message.append(error.as_str());
                RunResult::error(ExitCode::HookFailed, message.as_str()).with_state_file(state_path)
            },
            CherryPickProcessResult::Complete => {
                let counts = engine.create_summary_counts(state);
                let event = ProgressEvent::Complete {
                    successful: counts.successful,
                    failed: counts.failed,
                    skipped: counts.skipped,
                };
                let ghost e = event;
                self.output.write_event(event);
                assert(event_written(old(self).output_view(), self.output_view(), e));
                let partial = match command {
                    ProcessingCommand::Skip => counts.failed > 0 || counts.skipped > 0,
                    _ => counts.failed > 0,
                };
                if !partial {
                    return RunResult::success().with_state_file(state_path);
                }
                let result = match command {
                    ProcessingCommand::Run => {
                        let mut m = usize_to_decimal(counts.successful);
                        m.append(" successful, ");
                        m.append(usize_to_decimal(counts.failed).as_str());
                        m.append(" failed, ");
                        m.append(usize_to_decimal(counts.skipped).as_str());
                        m.append(" skipped");
                        RunResult::partial_success(m.as_str())
                    },
                    ProcessingCommand::Continue => RunResult::partial_success("Completed with some failures"),
                    ProcessingCommand::Skip => RunResult::partial_success("Completed with some skipped/failed items"),
                };
                result.with_state_file(state_path)
            },
        }
    }

    /// Ends a completion once the post-merge tasks ran (`success_count`
    /// succeeded, `failed_count` failed) and the state was marked completed:
    /// writes the summary and succeeds, or partly succeeds when tasks
    /// failed.
    pub fn finish_complete(
        &mut self,
        engine: &MergeEngine,
        state: &MergeStateFile,
        success_count: usize,
        failed_count: usize,
    ) -> (r: RunResult)
        requires
            success_count + failed_count <= usize::MAX,
        ensures
            final(self).config_view() == old(self).config_view(),
            r.state_file_path is None,
            failed_count > 0 ==> r.exit_code == ExitCode::PartialSuccess && opt_str(r.message) == Some(
                "Completed with "@ + decimal_nat(failed_count as nat) + " task failures"@,
            ),
            failed_count == 0 ==> r.exit_code == ExitCode::Success && opt_str(r.message) == Some(
                "Merge completed successfully"@,
            ),
            exists|summary: SummaryInfo|
                #![trigger summary_written(old(self).output_view(), final(self).output_view(), summary)]
                summary_written(old(self).output_view(), final(self).output_view(), summary) && {
                    let (p, s, c, k, f) = counts_of(state.cherry_pick_items@);
                    &&& summary.result == if failed_count == 0 { SummaryResult::Success } else { SummaryResult::PartialSuccess }
                    &&& summary.version == state.merge_version
                    &&& summary.target_branch == state.target_branch
                    &&& summary.counts.successful == s && summary.counts.failed == f
                    &&& summary.counts.skipped == k && summary.counts.pending == p
                    &&& summary.counts.total == s + f + k + p
                    &&& summary.items matches Some(v) && v@.map_values(|i: SummaryItem| summary_item_view(i))
                        == state.cherry_pick_items@.map_values(|i: StateCherryPickItem| summary_of_item(i))
                    &&& summary.post_merge matches Some(pm) && pm.total_tasks == success_count + failed_count
                        && pm.successful == success_count && pm.failed == failed_count && pm.tasks is None
                },
    {
        let counts = engine.create_summary_counts(state);
        let items = engine.create_summary_items(state);
        let summary = SummaryInfo {
            result: if failed_count == 0 { SummaryResult::Success } else { SummaryResult::PartialSuccess },
            version: state.merge_version.clone(),
            target_branch: state.target_branch.clone(),
            counts,
            items: Some(items),
            post_merge: Some(
                PostMergeSummary {
                    total_tasks: success_count + failed_count,
                    successful: success_count,
                    failed: failed_count,
                    tasks: None,
                },
            ),
        };
        let ghost sm = summary;
        self.output.write_summary(summary);
        assert(summary_written(old(self).output_view(), self.output_view(), sm));
        if failed_count > 0 {
            let mut m = "Completed with ".to_owned();
            m.append(usize_to_decimal(failed_count).as_str());
            m.append(" task failures");
            RunResult::partial_success(m.as_str())
        } else {
            RunResult::success_with_message("Merge completed successfully")
        }
    }

    /// The merge engine of this runner's configuration; no hooks when none
    /// are configured.
    pub fn create_engine(&self) -> (r: MergeEngine)
        ensures
            r.organization == self.config_view().organization,
            r.project == self.config_view().project,
            r.repository == self.config_view().repository,
            r.dev_branch == self.config_view().dev_branch,
            r.target_branch == self.config_view().target_branch,
            r.version == self.config_view().version,
            r.tag_prefix == self.config_view().tag_prefix,
            r.work_item_state == self.config_view().work_item_state,
            r.run_hooks == self.config_view().run_hooks,
            r.local_repo == self.config_view().local_repo,
            match self.config_view().hooks_config {
                Some(h) => same_hooks(r.hooks_config, h),
                None => forall|t: HookTrigger| !has_commands_for(r.hooks_config, t),
            },
            r.max_concurrent_network == self.config_view().max_concurrent_network,
            r.max_concurrent_processing == self.config_view().max_concurrent_processing,
            r.since == self.config_view().since,
    {
        let c = &self.config;
        let hooks = match &c.hooks_config {
            Some(h) => Some(h.duplicate()),
            None => None,
        };
        MergeEngine::new(
            c.organization.clone(),
            c.project.clone(),
            c.repository.clone(),
            c.dev_branch.clone(),
            c.target_branch.clone(),
            c.version.clone(),
            c.tag_prefix.clone(),
            c.work_item_state.clone(),
            c.run_hooks,
            c.local_repo.clone(),
            hooks,
            c.max_concurrent_network,
            c.max_concurrent_processing,
            c.since.clone(),
        )
    }

    /// Ends a new run that has no version; `None` when a version is set.
    pub fn check_version(&self) -> (r: Option<RunResult>)
        ensures
            self.config_view().version@.len() == 0 ==> (r matches Some(res) && is_error(
                res,
                ExitCode::GeneralError,
                "Version is required for non-interactive mode"@,
            )),
            self.config_view().version@.len() > 0 ==> r is None,
    {
        if self.config.version.unicode_len() == 0 {
            Some(RunResult::error(ExitCode::GeneralError, "Version is required for non-interactive mode"))
        } else {
            None
        }
    }

    /// Selects the PRs of a new run: by the configured work item states
    /// when there are any, otherwise every PR with a merge commit. Gives
    /// the number of selected PRs, or ends the run when none matched the
    /// states or none is selected.
    pub fn select_prs(&mut self, engine: &MergeEngine, prs: &mut Vec<PullRequestWithWorkItems>) -> (r: Result<
        usize,
        RunResult,
    >)
        ensures
            final(self).config_view() == old(self).config_view(),
            final(prs)@.len() == old(prs)@.len(),
            forall|i: int| 0 <= i < final(prs)@.len() ==> (#[trigger] final(prs)@[i]).pr == old(prs)@[i].pr,
            match old(self).config_view().select_by_states {
                Some(states) => exists|parsed: Seq<String>|
                    string_seq_view(parsed) == parsed_states(states@) && {
                        &&& forall|i: int|
                            0 <= i < final(prs)@.len() ==> (#[trigger] final(prs)@[i]).selected == pr_matches_states(
                                old(prs)@[i],
                                parsed,
                            )
                        &&& count_matching(old(prs)@, parsed) == 0 ==> {
                            &&& r matches Err(res) && is_error(
                                res,
                                ExitCode::NoPRsMatched,
                                "No PRs matched the specified work item states"@,
                            )
                            &&& error_written(
                                old(self).output_view(),
                                final(self).output_view(),
                                "No PRs matched the specified work item states"@,
                                None,
                            )
                        }
                        &&& count_matching(old(prs)@, parsed) > 0 ==> (r matches Ok(n) && n == count_selected(final(prs)@)
                            && final(self).output_view() == old(self).output_view())
                    },
                None => {
                    &&& forall|i: int|
                        0 <= i < final(prs)@.len() ==> (#[trigger] final(prs)@[i]).selected == (
                        old(prs)@[i].pr.last_merge_commit is Some)
                    &&& count_selected(final(prs)@) == 0 ==> {
                        &&& r matches Err(res) && is_error(res, ExitCode::NoPRsMatched, "No PRs selected for merge"@)
                        &&& error_written(
                            old(self).output_view(),
                            final(self).output_view(),
                            "No PRs selected for merge"@,
                            None,
                        )
                    }
                    &&& count_selected(final(prs)@) > 0 ==> (r matches Ok(n) && n == count_selected(final(prs)@)
                        && final(self).output_view() == old(self).output_view())
                },
            },
    {
        match &self.config.select_by_states {
            Some(states) => {
                let states = states.clone();
                let count = engine.select_prs_by_states(prs, states.as_str());
                if count == 0 {
                    self.emit_error("No PRs matched the specified work item states");
                    return Err(RunResult::error(ExitCode::NoPRsMatched, "No PRs matched the specified work item states"));
                }
                Ok(count_selected_prs(prs))
            },
            None => {
                let mut i: usize = 0;
                while i < prs.len()
                    invariant
                        0 <= i <= prs@.len(),
                        prs@.len() == old(prs)@.len(),
                        forall|k: int| 0 <= k < prs@.len() ==> (#[trigger] prs@[k]).pr == old(prs)@[k].pr,
                        forall|k: int| 0 <= k < i ==> (#[trigger] prs@[k]).selected == (old(prs)@[k].pr.last_merge_commit is Some),
                    decreases prs@.len() - i,
                {
                    let has_commit = prs[i].pr.last_merge_commit.is_some();
                    prs[i].selected = has_commit;
                    i = i + 1;
                }
                let n = count_selected_prs(prs);
                if n == 0 {
                    self.emit_error("No PRs selected for merge");
                    return Err(RunResult::error(ExitCode::NoPRsMatched, "No PRs selected for merge"));
                }
                Ok(n)
            },
        }
    }

    /// Ends a new run whose post-checkout hooks aborted; `None` otherwise.
    pub fn check_post_checkout(&mut self, outcome: &HookOutcome) -> (r: Option<RunResult>)
        ensures
            final(self).config_view() == old(self).config_view(),
            match *outcome {
                HookOutcome::Abort { command, error, .. } => {
                    &&& r matches Some(res) && is_error(
                        res,
                        ExitCode::HookFailed,
                        "Post-checkout hook '"@ + command@ + "' failed: "@ + error@,
                    )
                    &&& error_written(
                        old(self).output_view(),
                        final(self).output_view(),
                        "Post-checkout hook failed: "@ + command@ + " - "@ + error@,
                        None,
                    )
                },
                _ => r is None && final(self).output_view() == old(self).output_view(),
            },
    {
        match outcome {
            HookOutcome::Abort { command, error, .. } => {
                let mut reported = "Post-checkout hook failed: ".to_owned();
                reported.append(command.as_str());
                reported.append(" - ");
                reported.append(error.as_str());
                self.emit_error(reported.as_str());
                let mut message = "Post-checkout hook '".to_owned();
                message.append(command.as_str());
                message.append("' failed: ");
                message.append(error.as_str());
                Some(RunResult::error(ExitCode::HookFailed, message.as_str()))
            },
            _ => None,
        }
    }

    /// The events reporting a dependency analysis: its summary, then one
    /// event per warning about an unselected dependency, in order.
    pub fn dependency_events(summary: &GraphSummary, warnings: &Vec<DependencyWarning>) -> (r: Vec<ProgressEvent>)
        ensures
            r@.len() == 1 + unselected_warnings(warnings@).len(),
            r@[0] == (ProgressEvent::DependencyAnalysisComplete {
                independent: summary.independent_relationships,
                partial: summary.partial_relationships,
                dependent: summary.dependent_relationships,
            }),
            forall|k: int|
                0 <= k < unselected_warnings(warnings@).len() ==> warning_event_of(
                    #[trigger] r@[k + 1],
                    unselected_warnings(warnings@)[k],
                ),
    {
        let mut out: Vec<ProgressEvent> = Vec::new();
        out.push(
            ProgressEvent::DependencyAnalysisComplete {
                independent: summary.independent_relationships,
                partial: summary.partial_relationships,
                dependent: summary.dependent_relationships,
            },
        );
        let mut i: usize = 0;
        while i < warnings.len()
            invariant
                0 <= i <= warnings@.len(),
                out@.len() == 1 + unselected_warnings(warnings@.subrange(0, i as int)).len(),
                out@[0] == (ProgressEvent::DependencyAnalysisComplete {
                    independent: summary.independent_relationships,
                    partial: summary.partial_relationships,
                    dependent: summary.dependent_relationships,
                }),
                forall|k: int|
                    0 <= k < unselected_warnings(warnings@.subrange(0, i as int)).len() ==> warning_event_of(
                        #[trigger] out@[k + 1],
                        unselected_warnings(warnings@.subrange(0, i as int))[k],
                    ),
            decreases warnings@.len() - i,
        {
            proof {
                assert(warnings@.subrange(0, i as int + 1).drop_last() =~= warnings@.subrange(0, i as int));
            }
            let w = &warnings[i];
            match w {
                DependencyWarning::UnselectedDependency {
                    selected_pr_id,
                    selected_pr_title,
                    unselected_pr_id,
                    unselected_pr_title,
                    category,
                } => {
                    let critical = w.is_critical();
                    let shared = category.shared_files();
                    let mut files: Vec<String> = Vec::new();
                    let mut j: usize = 0;
                    while j < shared.len()
                        invariant
                            0 <= j <= shared@.len(),
                            files@ == shared@.subrange(0, j as int),
                        decreases shared@.len() - j,
                    {
                        files.push(shared[j].clone());
                        j = j + 1;
                        proof {
                            assert(files@ =~= shared@.subrange(0, j as int));
                        }
                    }
                    proof {
                        assert(shared@.subrange(0, shared@.len() as int) =~= shared@);
                    }
                    let ghost before = out@;
                    out.push(
                        ProgressEvent::DependencyWarning {
                            selected_pr_id: *selected_pr_id,
                            selected_pr_title: selected_pr_title.clone(),
                            unselected_pr_id: *unselected_pr_id,
                            unselected_pr_title: unselected_pr_title.clone(),
                            is_critical: critical,
                            shared_files: files,
                        },
                    );
                    proof {
                        let ws = warnings@.subrange(0, i as int + 1);
                        assert(unselected_warnings(ws) == unselected_warnings(ws.drop_last()).push(*w));
                        assert forall|k: int| 0 <= k < unselected_warnings(ws).len() implies warning_event_of(
                            #[trigger] out@[k + 1],
                            unselected_warnings(ws)[k],
                        ) by {
                            if k + 1 < before.len() {
                                assert(out@[k + 1] == before[k + 1]);
                            }
                        }
                    }
                },
                DependencyWarning::CircularDependency { .. } => {},
            }
            i = i + 1;
        }
        proof {
            assert(warnings@.subrange(0, warnings@.len() as int) =~= warnings@);
        }
        out
    }

    /// The event starting a new run of `total_prs` PRs, saved in the state
    /// file at `state_path`.
    pub fn start_event(&self, total_prs: usize, state_path: String) -> (r: ProgressEvent)
        ensures
            r == (ProgressEvent::Start {
                total_prs,
                version: self.config_view().version,
                target_branch: self.config_view().target_branch,
                state_file_path: Some(state_path),
            }),
    {
        ProgressEvent::Start {
            total_prs,
            version: self.config.version.clone(),
            target_branch: self.config.target_branch.clone(),
            state_file_path: Some(state_path),
        }
    }
}

/// The number of selected PRs.
pub open spec fn count_selected(prs: Seq<PullRequestWithWorkItems>) -> nat
    decreases prs.len(),
{
    if prs.len() == 0 {
        0
    } else {
        count_selected(prs.drop_last()) + if prs.last().selected { 1nat } else { 0nat }
    }
}

/// Counts the selected PRs.
pub fn count_selected_prs(prs: &Vec<PullRequestWithWorkItems>) -> (r: usize)
    ensures
        r == count_selected(prs@),
{
    let mut n: usize = 0;
    let mut i: usize = 0;
    while i < prs.len()
        invariant
            0 <= i <= prs@.len(),
            n == count_selected(prs@.subrange(0, i as int)),
            n <= i,
        decreases prs@.len() - i,
    {
        proof {
            assert(prs@.subrange(0, i as int + 1).drop_last() =~= prs@.subrange(0, i as int));
        }
        if prs[i].selected {
            n = n + 1;
        }
        i = i + 1;
    }
    proof {
        assert(prs@.subrange(0, prs@.len() as int) =~= prs@);
    }
    n
}

} // verus!
