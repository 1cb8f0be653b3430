use mergers::models::OutputFormat;
use mergers::operations::hooks::{HookOutcome, HookTrigger};
use mergers::output::events::{ConflictInfo, ProgressEvent, ProgressSummary, StatusInfo};
use mergers::output::format::OutputChunk;
use mergers::runner::merge_engine::CherryPickProcessResult;
use mergers::runner::non_interactive::{
    LockAttempt, LockProbe, NonInteractiveRunner, ProcessingCommand, RepoCommand, StateLoad,
};
use mergers::runner::traits::{MergeRunnerConfig, RunResult};
use mergers::state::file::{MergePhase, MergeStateFile, MergeStatus, StateCherryPickItem, StateItemStatus};
use mergers::ExitCode;

fn create_test_config() -> MergeRunnerConfig {
    MergeRunnerConfig {
        organization: "test-org".to_string(),
        project: "test-project".to_string(),
        repository: "test-repo".to_string(),
        pat: "test-pat".to_string(),
        dev_branch: "dev".to_string(),
        target_branch: "main".to_string(),
        version: "v1.0.0".to_string(),
        tag_prefix: "merged-".to_string(),
        work_item_state: "Done".to_string(),
        select_by_states: None,
        local_repo: None,
        run_hooks: false,
        output_format: OutputFormat::Text,
        quiet: false,
        hooks_config: None,
        max_concurrent_network: 100,
        max_concurrent_processing: 10,
        since: None,
    }
}

fn runner_with(format: OutputFormat, quiet: bool) -> NonInteractiveRunner {
    let mut config = create_test_config();
    config.output_format = format;
    config.quiet = quiet;
    NonInteractiveRunner::with_writer(config)
}

fn text_of(chunks: &[OutputChunk]) -> String {
    chunks
        .iter()
        .filter_map(|c| match c {
            OutputChunk::Text(t) => Some(t.as_str()),
            _ => None,
        })
        .collect()
}

fn event_lines(chunks: Vec<OutputChunk>) -> Vec<ProgressEvent> {
    chunks
        .into_iter()
        .map(|c| match c {
            OutputChunk::EventLine(e) => e,
            other => panic!("expected an event line, got {:?}", other),
        })
        .collect()
}

fn state_with_phase(phase: MergePhase) -> MergeStateFile {
    let mut state = MergeStateFile::new(
        "/test/repo".to_string(),
        None,
        false,
        "org".to_string(),
        "project".to_string(),
        "repo".to_string(),
        "dev".to_string(),
        "main".to_string(),
        "v1.0.0".to_string(),
        "Done".to_string(),
        "merged-".to_string(),
        false,
    );
    state.phase = phase;
    state
}

fn item(pr_id: i32, status: StateItemStatus) -> StateCherryPickItem {
    StateCherryPickItem {
        commit_id: format!("commit_{}", pr_id),
        pr_id,
        pr_title: format!("PR #{}", pr_id),
        status,
        work_item_ids: vec![],
    }
}

#[test]
fn test_runner_creation() {
    let config = create_test_config();
    let _runner = NonInteractiveRunner::with_writer(config);
}

#[test]
fn test_runner_with_custom_writer() {
    let mut runner = runner_with(OutputFormat::Text, false);
    runner.emit_event(ProgressEvent::Start {
        total_prs: 5,
        version: "v1.0.0".to_string(),
        target_branch: "main".to_string(),
        state_file_path: None,
    });

    let output = text_of(&runner.take_output());
    assert!(output.contains("Starting merge"));
}

#[test]
fn test_output_format_variations() {
    for format in [OutputFormat::Text, OutputFormat::Json, OutputFormat::Ndjson] {
        let mut config = create_test_config();
        config.output_format = format;
        let runner = NonInteractiveRunner::with_writer(config);
        assert_eq!(*runner.output().format(), format);
    }
}

#[test]
fn test_error_emission() {
    let mut runner = runner_with(OutputFormat::Text, false);
    runner.emit_error("Test error message");

    let output = text_of(&runner.take_output());
    assert!(output.contains("error") || output.contains("Error"));
}

#[test]
fn test_json_output_format_buffers_events() {
    let mut runner = runner_with(OutputFormat::Json, false);
    runner.emit_event(ProgressEvent::Start {
        total_prs: 3,
        version: "v2.0.0".to_string(),
        target_branch: "release".to_string(),
        state_file_path: None,
    });

    assert!(runner.take_output().is_empty(), "JSON format should buffer events, not write them immediately");
    assert_eq!(runner.output().buffered_events().len(), 1);
}

#[test]
fn test_ndjson_output_format() {
    let mut runner = runner_with(OutputFormat::Ndjson, false);
    runner.emit_event(ProgressEvent::Start {
        total_prs: 2,
        version: "v1.0.0".to_string(),
        target_branch: "main".to_string(),
        state_file_path: None,
    });
    runner.emit_event(ProgressEvent::CherryPickStart { pr_id: 123, commit_id: "abc123".to_string(), index: 0, total: 2 });

    let events = event_lines(runner.take_output());
    assert_eq!(events.len(), 2);
}

#[test]
fn test_quiet_mode() {
    let mut runner = runner_with(OutputFormat::Text, true);
    runner.emit_event(ProgressEvent::CherryPickStart { pr_id: 1, commit_id: "abc".to_string(), index: 0, total: 1 });

    let output = text_of(&runner.take_output());
    assert!(output.is_empty() || output.len() < 100, "Quiet mode should produce minimal output");
}

#[test]
fn test_status_info_construction() {
    let status = StatusInfo {
        phase: "cherry_picking".to_string(),
        status: "in_progress".to_string(),
        version: "v1.0.0".to_string(),
        target_branch: "main".to_string(),
        repo_path: "/test/repo".to_string(),
        progress: ProgressSummary { total: 5, completed: 2, pending: 3, current_index: 2 },
        conflict: None,
        items: None,
    };

    assert_eq!(status.version, "v1.0.0");
    assert_eq!(status.target_branch, "main");
    assert_eq!(status.progress.total, 5);
    assert_eq!(status.progress.completed, 2);
    assert_eq!(status.progress.pending, 3);
}

#[test]
fn test_multiple_cherry_pick_events() {
    let mut runner = runner_with(OutputFormat::Text, false);
    runner.emit_event(ProgressEvent::CherryPickStart { pr_id: 1, commit_id: "abc".to_string(), index: 0, total: 3 });
    runner.emit_event(ProgressEvent::CherryPickSuccess { pr_id: 1, commit_id: "abc".to_string() });
    runner.emit_event(ProgressEvent::CherryPickStart { pr_id: 2, commit_id: "def".to_string(), index: 1, total: 3 });
    runner.emit_event(ProgressEvent::CherryPickFailed { pr_id: 2, error: "Commit not found".to_string() });

    let output = text_of(&runner.take_output());
    assert!(output.contains("PR #1") || output.contains("[1/3]"));
    assert!(output.contains("PR #2") || output.contains("[2/3]"));
}

#[test]
fn test_complete_event_with_counts() {
    let mut runner = runner_with(OutputFormat::Text, false);
    runner.emit_event(ProgressEvent::Complete { successful: 5, failed: 2, skipped: 1 });

    let output = text_of(&runner.take_output());
    assert!(output.contains("5 successful"), "Should show successful count: got '{output}'");
    assert!(output.contains("2 failed"), "Should show failed count: got '{output}'");
    assert!(output.contains("1 skipped"), "Should show skipped count: got '{output}'");
}

#[test]
fn test_conflict_event_details() {
    let mut runner = runner_with(OutputFormat::Text, false);
    runner.emit_event(ProgressEvent::CherryPickConflict {
        pr_id: 42,
        conflicted_files: vec!["src/main.rs".to_string(), "Cargo.toml".to_string()],
        repo_path: "/test/repo".to_string(),
    });

    let output = text_of(&runner.take_output());
    assert!(output.contains("42"), "Should include the PR ID");
    assert!(output.contains("src/main.rs"), "Should list the first conflicted file");
    assert!(output.contains("Cargo.toml"), "Should list the second conflicted file");
    assert!(output.contains("/test/repo"), "Should include the repository path");
}

#[test]
fn test_run_result_success() {
    let result = RunResult::success();
    assert!(result.is_success());
    assert_eq!(result.exit_code, ExitCode::Success);
    assert!(result.message.is_none());
}

#[test]
fn test_run_result_error() {
    let result = RunResult::error(ExitCode::GeneralError, "Something went wrong");
    assert!(!result.is_success());
    assert_eq!(result.exit_code, ExitCode::GeneralError);
    assert_eq!(result.message, Some("Something went wrong".to_string()));
}

#[test]
fn test_run_result_conflict() {
    let result = RunResult::conflict("/state/file.json".to_string());
    assert!(!result.is_success());
    assert_eq!(result.exit_code, ExitCode::Conflict);
    assert_eq!(result.state_file_path, Some("/state/file.json".to_string()));
}

#[test]
fn test_run_result_partial_success() {
    let result = RunResult::partial_success("3 of 5 succeeded");
    assert!(!result.is_success());
    assert_eq!(result.exit_code, ExitCode::PartialSuccess);
    assert_eq!(result.message, Some("3 of 5 succeeded".to_string()));
}

#[test]
fn test_status_returns_idle_when_no_state_file() {
    let mut runner = runner_with(OutputFormat::Text, false);
    let result = runner.status("/tmp/empty-dir", StateLoad::Missing);

    assert!(result.is_success());
    assert_eq!(result.exit_code, ExitCode::Success);

    let output = text_of(&runner.take_output());
    assert!(output.contains("idle"), "Output should contain 'idle' status: {}", output);
}

#[test]
fn test_status_idle_json_format() {
    let mut runner = runner_with(OutputFormat::Json, false);
    let result = runner.status("/tmp/empty-dir", StateLoad::Missing);
    assert!(result.is_success());

    let chunks = runner.take_output();
    assert_eq!(chunks.len(), 1);
    match &chunks[0] {
        OutputChunk::StatusDocument(s) => {
            assert_eq!(s.phase, "idle");
            assert_eq!(s.status, "idle");
            assert_eq!(s.progress.total, 0);
            assert_eq!(s.progress.completed, 0);
        },
        other => panic!("unexpected chunk {:?}", other),
    }
}

#[test]
fn test_error_emission_with_code() {
    let mut runner = runner_with(OutputFormat::Ndjson, false);
    runner.emit_error_with_code("Test locked error", Some("locked"));

    let events = event_lines(runner.take_output());
    assert_eq!(events.len(), 1);
    match &events[0] {
        ProgressEvent::Error { message, code } => {
            assert_eq!(code.as_deref(), Some("locked"));
            assert!(message.contains("Test locked error"));
        },
        other => panic!("unexpected event {:?}", other),
    }
}

#[test]
fn test_error_emission_without_code() {
    let mut runner = runner_with(OutputFormat::Ndjson, false);
    runner.emit_error("Generic error");

    let events = event_lines(runner.take_output());
    match &events[0] {
        ProgressEvent::Error { message, code } => {
            assert!(message.contains("Generic error"));
            assert!(code.is_none());
        },
        other => panic!("unexpected event {:?}", other),
    }
}

#[test]
fn test_error_emission_all_code_variants() {
    let codes = ["locked", "no_state_file", "invalid_phase", "conflicts_unresolved"];

    for code in &codes {
        let mut runner = runner_with(OutputFormat::Ndjson, false);
        runner.emit_error_with_code(&format!("Error: {}", code), Some(code));

        let events = event_lines(runner.take_output());
        match &events[0] {
            ProgressEvent::Error { message, code: c } => {
                assert_eq!(c.as_deref(), Some(*code), "code should be '{}'", code);
                assert!(message.contains(code), "message should contain code context");
            },
            other => panic!("unexpected event {:?}", other),
        }
    }
}

#[test]
fn test_error_emission_text_format_with_code() {
    let mut runner = runner_with(OutputFormat::Text, false);
    runner.emit_error_with_code("Another merge operation is in progress", Some("locked"));

    let output = text_of(&runner.take_output());
    assert!(
        output.contains("Another merge operation is in progress"),
        "Text format should display the error message: got '{output}'"
    );
    assert_eq!(output, "Error [locked]: Another merge operation is in progress\n");
}

#[test]
fn test_start_event_with_state_file_path() {
    let mut runner = runner_with(OutputFormat::Ndjson, false);
    runner.emit_event(ProgressEvent::Start {
        total_prs: 3,
        version: "v2.0.0".to_string(),
        target_branch: "release".to_string(),
        state_file_path: Some("/tmp/state/merge.json".to_string()),
    });

    let events = event_lines(runner.take_output());
    match &events[0] {
        ProgressEvent::Start { total_prs, state_file_path, .. } => {
            assert_eq!(*total_prs, 3);
            assert_eq!(state_file_path.as_deref(), Some("/tmp/state/merge.json"));
        },
        other => panic!("unexpected event {:?}", other),
    }
}

#[test]
fn test_start_event_without_state_file_path() {
    let mut runner = runner_with(OutputFormat::Ndjson, false);
    runner.emit_event(ProgressEvent::Start {
        total_prs: 1,
        version: "v1.0.0".to_string(),
        target_branch: "main".to_string(),
        state_file_path: None,
    });

    let events = event_lines(runner.take_output());
    assert!(matches!(events[0], ProgressEvent::Start { state_file_path: None, .. }));
}

#[test]
fn test_run_result_success_with_message() {
    let result = RunResult::success_with_message("Merge aborted");
    assert!(result.is_success());
    assert_eq!(result.exit_code, ExitCode::Success);
    assert_eq!(result.message, Some("Merge aborted".to_string()));
}

#[test]
fn non_interactive_test_run_result_with_state_file() {
    let result = RunResult::partial_success("3 of 5 succeeded").with_state_file("/state/merge.json".to_string());
    assert_eq!(result.exit_code, ExitCode::PartialSuccess);
    assert_eq!(result.message, Some("3 of 5 succeeded".to_string()));
    assert_eq!(result.state_file_path, Some("/state/merge.json".to_string()));
}

#[test]
fn test_quiet_mode_shows_errors() {
    let mut runner = runner_with(OutputFormat::Text, true);
    runner.emit_error_with_code("Something locked", Some("locked"));
    runner.emit_error("Generic failure");

    let output = text_of(&runner.take_output());
    assert!(output.contains("Something locked"), "Quiet mode should still show errors: got '{output}'");
    assert!(output.contains("Generic failure"), "Quiet mode should still show errors: got '{output}'");
}

#[test]
fn test_full_merge_flow_ndjson() {
    let mut runner = runner_with(OutputFormat::Ndjson, false);
    runner.emit_event(ProgressEvent::Start {
        total_prs: 2,
        version: "v1.0.0".to_string(),
        target_branch: "main".to_string(),
        state_file_path: Some("/tmp/state.json".to_string()),
    });
    runner.emit_event(ProgressEvent::CherryPickStart { pr_id: 100, commit_id: "aaa111".to_string(), index: 0, total: 2 });
    runner.emit_event(ProgressEvent::CherryPickSkipped {
        pr_id: 100,
        reason: Some("Skipped by user due to unresolvable conflict".to_string()),
    });
    runner.emit_event(ProgressEvent::CherryPickStart { pr_id: 200, commit_id: "bbb222".to_string(), index: 1, total: 2 });
    runner.emit_event(ProgressEvent::CherryPickSuccess { pr_id: 200, commit_id: "bbb222".to_string() });
    runner.emit_event(ProgressEvent::Complete { successful: 1, failed: 0, skipped: 1 });

    let events = event_lines(runner.take_output());
    assert_eq!(events.len(), 6, "Should have 6 NDJSON events");
    assert!(matches!(&events[0], ProgressEvent::Start { state_file_path: Some(p), .. } if p == "/tmp/state.json"));
    assert!(matches!(events[1], ProgressEvent::CherryPickStart { pr_id: 100, .. }));
    assert!(matches!(events[2], ProgressEvent::CherryPickSkipped { pr_id: 100, .. }));
    assert!(matches!(events[3], ProgressEvent::CherryPickStart { pr_id: 200, .. }));
    assert!(matches!(events[4], ProgressEvent::CherryPickSuccess { pr_id: 200, .. }));
    assert!(matches!(events[5], ProgressEvent::Complete { successful: 1, skipped: 1, .. }));
}

#[test]
fn test_error_event_buffered_in_json_mode() {
    let mut runner = runner_with(OutputFormat::Json, false);
    runner.emit_error_with_code("Locked", Some("locked"));
    runner.emit_error("Generic error");

    assert!(runner.take_output().is_empty(), "JSON format should buffer error events too");
    assert_eq!(runner.output().buffered_events().len(), 2);
}

#[test]
fn test_skip_event_text_format() {
    let mut runner = runner_with(OutputFormat::Text, false);
    runner.emit_event(ProgressEvent::CherryPickSkipped {
        pr_id: 42,
        reason: Some("Skipped by user due to unresolvable conflict".to_string()),
    });

    let output = text_of(&runner.take_output());
    assert!(output.contains("42"), "Should mention the PR ID: got '{output}'");
}

#[test]
fn test_multiple_errors_ndjson() {
    let mut runner = runner_with(OutputFormat::Ndjson, false);
    runner.emit_error_with_code("Locked", Some("locked"));
    runner.emit_error("Something went wrong");
    runner.emit_error_with_code("Wrong phase", Some("invalid_phase"));

    let events = event_lines(runner.take_output());
    assert_eq!(events.len(), 3);
    assert!(matches!(&events[0], ProgressEvent::Error { code: Some(c), .. } if c == "locked"));
    assert!(matches!(&events[1], ProgressEvent::Error { code: None, .. }));
    assert!(matches!(&events[2], ProgressEvent::Error { code: Some(c), .. } if c == "invalid_phase"));
}

#[test]
fn test_status_idle_ndjson_format() {
    let mut runner = runner_with(OutputFormat::Ndjson, false);
    let result = runner.status("/tmp/empty-dir", StateLoad::Missing);
    assert!(result.is_success());

    let chunks = runner.take_output();
    match &chunks[0] {
        OutputChunk::StatusDocument(s) => {
            assert_eq!(s.phase, "idle");
            assert_eq!(s.status, "idle");
        },
        other => panic!("unexpected chunk {:?}", other),
    }
}

#[test]
fn test_dependency_analysis_events_ndjson() {
    let mut runner = runner_with(OutputFormat::Ndjson, false);
    runner.emit_event(ProgressEvent::DependencyAnalysisStart { pr_count: 5 });
    runner.emit_event(ProgressEvent::DependencyAnalysisComplete { independent: 3, partial: 1, dependent: 1 });
    runner.emit_event(ProgressEvent::DependencyWarning {
        selected_pr_id: 100,
        selected_pr_title: "Feature A".to_string(),
        unselected_pr_id: 200,
        unselected_pr_title: "Feature B".to_string(),
        is_critical: true,
        shared_files: vec!["src/lib.rs".to_string()],
    });

    let events = event_lines(runner.take_output());
    assert_eq!(events.len(), 3);
    assert!(matches!(events[0], ProgressEvent::DependencyAnalysisStart { pr_count: 5 }));
    assert!(matches!(events[1], ProgressEvent::DependencyAnalysisComplete { independent: 3, .. }));
    assert!(matches!(events[2], ProgressEvent::DependencyWarning { is_critical: true, .. }));
}

#[test]
fn test_aborted_event_ndjson() {
    let mut runner = runner_with(OutputFormat::Ndjson, false);
    runner.emit_event(ProgressEvent::Aborted { success: true, message: None });
    runner.emit_event(ProgressEvent::Aborted { success: false, message: Some("Failed to clean up".to_string()) });

    let events = event_lines(runner.take_output());
    assert_eq!(events.len(), 2);
    assert!(matches!(events[0], ProgressEvent::Aborted { success: true, message: None }));
    assert!(matches!(&events[1], ProgressEvent::Aborted { success: false, message: Some(m) } if m == "Failed to clean up"));
}

#[test]
fn test_cherry_pick_failed_event_text() {
    let mut runner = runner_with(OutputFormat::Text, false);
    runner.emit_event(ProgressEvent::CherryPickFailed { pr_id: 99, error: "Commit abc123 not found".to_string() });

    let output = text_of(&runner.take_output());
    assert!(output.contains("99"), "Should include PR ID");
    assert!(output.contains("not found") || output.contains("abc123"), "Should include error details: got '{output}'");
}

fn single_error(runner: &mut NonInteractiveRunner) -> (String, Option<String>) {
    let events = event_lines(runner.take_output());
    assert_eq!(events.len(), 1);
    match events.into_iter().next().unwrap() {
        ProgressEvent::Error { message, code } => (message, code),
        other => panic!("unexpected event {:?}", other),
    }
}

#[test]
fn test_abort_no_state_file() {
    let mut runner = runner_with(OutputFormat::Ndjson, false);
    let result = runner.check_state_load(StateLoad::Missing).unwrap_err();
    assert_eq!(result.exit_code, ExitCode::NoStateFile);
    let (_, code) = single_error(&mut runner);
    assert_eq!(code.as_deref(), Some("no_state_file"));
}

#[test]
fn test_abort_invalid_phase() {
    let mut runner = runner_with(OutputFormat::Ndjson, false);
    let mut state = state_with_phase(MergePhase::Completed);
    let result = runner.abort(&mut state, None).unwrap();
    assert_eq!(result.exit_code, ExitCode::InvalidPhase);
    assert_eq!(result.message.as_deref(), Some("Invalid phase for abort"));
    assert!(result.state_file_path.is_none());
    assert_eq!(state.phase, MergePhase::Completed);
    assert!(state.final_status.is_none());
    let (message, code) = single_error(&mut runner);
    assert_eq!(code.as_deref(), Some("invalid_phase"));
    assert!(message.contains("Completed"));
}

#[test]
fn test_abort_locked() {
    let mut runner = runner_with(OutputFormat::Ndjson, false);
    let result = runner.check_lock_probe(LockProbe::Locked).unwrap();
    assert_eq!(result.exit_code, ExitCode::Locked);
    let (_, code) = single_error(&mut runner);
    assert_eq!(code.as_deref(), Some("locked"));
}

#[test]
fn test_skip_invalid_phase() {
    let mut runner = runner_with(OutputFormat::Ndjson, false);
    let state = state_with_phase(MergePhase::CherryPicking);
    let result = runner.check_phase(RepoCommand::Skip, &state).unwrap();
    assert_eq!(result.exit_code, ExitCode::InvalidPhase);
    let (message, code) = single_error(&mut runner);
    assert_eq!(code.as_deref(), Some("invalid_phase"));
    assert_eq!(message, "Cannot skip: merge is in 'Cherry-picking commits' phase");
}

#[test]
fn test_continue_invalid_phase() {
    let mut runner = runner_with(OutputFormat::Ndjson, false);
    let state = state_with_phase(MergePhase::CherryPicking);
    let result = runner.check_phase(RepoCommand::Continue, &state).unwrap();
    assert_eq!(result.exit_code, ExitCode::InvalidPhase);
    assert_eq!(result.message.as_deref(), Some("Invalid phase for continue"));
}

#[test]
fn test_complete_invalid_phase() {
    let mut runner = runner_with(OutputFormat::Ndjson, false);
    let state = state_with_phase(MergePhase::CherryPicking);
    let result = runner.check_phase(RepoCommand::Complete, &state).unwrap();
    assert_eq!(result.exit_code, ExitCode::InvalidPhase);
    assert!(runner.check_phase(RepoCommand::Complete, &state_with_phase(MergePhase::ReadyForCompletion)).is_none());
}

#[test]
fn test_complete_locked() {
    let mut runner = runner_with(OutputFormat::Ndjson, false);
    let result = runner.check_lock_attempt(LockAttempt::Held).unwrap();
    assert_eq!(result.exit_code, ExitCode::Locked);
    let (_, code) = single_error(&mut runner);
    assert_eq!(code.as_deref(), Some("locked"));
}

#[test]
fn phases_allowed_per_command() {
    let mut runner = runner_with(OutputFormat::Text, false);
    let awaiting = state_with_phase(MergePhase::AwaitingConflictResolution);
    assert!(runner.check_phase(RepoCommand::Continue, &awaiting).is_none());
    assert!(runner.check_phase(RepoCommand::Skip, &awaiting).is_none());
    assert!(runner.check_phase(RepoCommand::Abort, &awaiting).is_none());
    assert!(runner.check_phase(RepoCommand::Abort, &state_with_phase(MergePhase::Aborted)).is_some());
}

#[test]
fn lock_probe_failure_is_a_general_error() {
    let mut runner = runner_with(OutputFormat::Text, false);
    assert!(runner.check_lock_probe(LockProbe::Free).is_none());
    let result = runner.check_lock_probe(LockProbe::Failed("disk".to_string())).unwrap();
    assert_eq!(result.exit_code, ExitCode::GeneralError);
    assert_eq!(result.message.as_deref(), Some("disk"));
    assert_eq!(text_of(&runner.take_output()), "Error: Failed to check lock: disk\n");
    let result = runner.check_run_lock(LockAttempt::Held).unwrap();
    assert_eq!(result.message.as_deref(), Some("Another merge operation is in progress"));
}

#[test]
fn status_of_a_conflicted_merge() {
    let mut runner = runner_with(OutputFormat::Json, false);
    let mut state = state_with_phase(MergePhase::AwaitingConflictResolution);
    state.cherry_pick_items = vec![item(1, StateItemStatus::Success), item(2, StateItemStatus::Conflict)];
    state.current_index = 1;
    state.conflicted_files = Some(vec!["a.rs".to_string()]);
    let result = runner.status("/ignored", StateLoad::Found(state));
    assert_eq!(result.exit_code, ExitCode::Conflict);
    assert_eq!(result.message.as_deref(), Some("Conflict pending"));
    match &runner.take_output()[0] {
        OutputChunk::StatusDocument(s) => {
            assert_eq!(s.phase, "Awaiting conflict resolution");
            assert_eq!(s.status, "conflict");
            assert_eq!(s.progress.total, 2);
            assert_eq!(s.progress.completed, 1);
            assert_eq!(s.progress.current_index, 1);
            let c = s.conflict.as_ref().unwrap();
            assert_eq!(c.pr_id, 2);
            assert_eq!(c.conflicted_files, vec!["a.rs".to_string()]);
            assert_eq!(s.items.as_ref().unwrap().len(), 2);
        },
        other => panic!("unexpected chunk {:?}", other),
    }
}

#[test]
fn abort_marks_the_state_and_reports() {
    let mut runner = runner_with(OutputFormat::Text, false);
    let mut state = state_with_phase(MergePhase::CherryPicking);
    assert!(runner.abort(&mut state, Some("rm failed".to_string())).is_none());
    assert_eq!(state.phase, MergePhase::Aborted);
    assert_eq!(state.final_status, Some(MergeStatus::Aborted));
    let result = runner.finish_abort(None);
    assert!(result.is_success());
    assert_eq!(result.message.as_deref(), Some("Merge aborted"));
    assert_eq!(
        text_of(&runner.take_output()),
        "Error: Cleanup failed: rm failed\nMerge operation aborted successfully.\n"
    );
}

#[test]
fn skipping_the_current_item_moves_on() {
    let mut runner = runner_with(OutputFormat::Text, false);
    let mut state = state_with_phase(MergePhase::AwaitingConflictResolution);
    state.cherry_pick_items = vec![item(5, StateItemStatus::Conflict), item(6, StateItemStatus::Pending)];
    state.conflicted_files = Some(vec!["x".to_string()]);
    runner.skip_current(&mut state);
    assert_eq!(state.current_index, 1);
    assert!(matches!(state.cherry_pick_items[0].status, StateItemStatus::Skipped));
    assert_eq!(state.phase, MergePhase::CherryPicking);
    assert!(state.conflicted_files.is_none());
    assert!(text_of(&runner.take_output()).contains("PR #5 skipped (Skipped by user due to unresolvable conflict)"));
}

#[test]
fn processing_results_end_the_commands() {
    let engine = runner_with(OutputFormat::Text, false).create_engine();
    let mut state = state_with_phase(MergePhase::ReadyForCompletion);
    state.cherry_pick_items = vec![
        item(1, StateItemStatus::Success),
        item(2, StateItemStatus::Failed { message: "x".to_string() }),
        item(3, StateItemStatus::Skipped),
    ];

    let mut runner = runner_with(OutputFormat::Text, false);
    let r = runner.finish_processing(ProcessingCommand::Run, CherryPickProcessResult::Complete, &engine, &state, "/s".to_string());
    assert_eq!(r.exit_code, ExitCode::PartialSuccess);
    assert_eq!(r.message.as_deref(), Some("1 successful, 1 failed, 1 skipped"));
    assert_eq!(r.state_file_path.as_deref(), Some("/s"));
    assert!(text_of(&runner.take_output()).contains("Complete: 1 successful, 1 failed, 1 skipped"));

    let r = runner.finish_processing(ProcessingCommand::Skip, CherryPickProcessResult::Complete, &engine, &state, "/s".to_string());
    assert_eq!(r.message.as_deref(), Some("Completed with some skipped/failed items"));

    let r = runner.finish_processing(
        ProcessingCommand::Continue,
        CherryPickProcessResult::HookAbort { trigger: HookTrigger::PreCherryPick, command: "lint".to_string(), error: "bad".to_string() },
        &engine,
        &state,
        "/s".to_string(),
    );
    assert_eq!(r.exit_code, ExitCode::HookFailed);
    assert_eq!(r.message.as_deref(), Some("Hook 'lint' failed: bad"));

    let conflict = ConflictInfo::new(2, "t".to_string(), "c".to_string(), vec!["f".to_string()], "/repo".to_string());
    let r = runner.finish_processing(ProcessingCommand::Run, CherryPickProcessResult::Conflict(conflict), &engine, &state, "/s".to_string());
    assert!(r.is_conflict());
    assert!(text_of(&runner.take_output()).contains("CONFLICT DETECTED"));
}

#[test]
fn completion_writes_the_summary() {
    let mut runner = runner_with(OutputFormat::Text, false);
    let engine = runner.create_engine();
    let mut state = state_with_phase(MergePhase::Completed);
    state.cherry_pick_items = vec![item(1, StateItemStatus::Success)];
    let r = runner.finish_complete(&engine, &state, 2, 1);
    assert_eq!(r.exit_code, ExitCode::PartialSuccess);
    assert_eq!(r.message.as_deref(), Some("Completed with 1 task failures"));
    let out = text_of(&runner.take_output());
    assert!(out.contains("PARTIAL SUCCESS"));
    assert!(out.contains("Post-merge tasks:"));
    let r = runner.finish_complete(&engine, &state, 3, 0);
    assert_eq!(r.message.as_deref(), Some("Merge completed successfully"));
}

#[test]
fn run_checks_version_and_post_checkout_hooks() {
    let mut config = create_test_config();
    config.version = String::new();
    let runner = NonInteractiveRunner::with_writer(config);
    let r = runner.check_version().unwrap();
    assert_eq!(r.message.as_deref(), Some("Version is required for non-interactive mode"));

    let mut runner = runner_with(OutputFormat::Text, false);
    assert!(runner.check_version().is_none());
    assert!(runner.check_post_checkout(&HookOutcome::Success).is_none());
    let r = runner
        .check_post_checkout(&HookOutcome::Abort {
            trigger: HookTrigger::PostCheckout,
            command: "npm ci".to_string(),
            error: "offline".to_string(),
        })
        .unwrap();
    assert_eq!(r.exit_code, ExitCode::HookFailed);
    assert_eq!(r.message.as_deref(), Some("Post-checkout hook 'npm ci' failed: offline"));
    assert_eq!(text_of(&runner.take_output()), "Error: Post-checkout hook failed: npm ci - offline\n");
}
