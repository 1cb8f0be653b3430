use mergers::models::{CreatedBy, MergeCommit, PullRequest, PullRequestWithWorkItems, WorkItem, WorkItemFields};
use mergers::operations::cherry_pick::CherryPickOutcome;
use mergers::operations::hooks::{HookCommandResult, HookOutcome, HookResult, HookTrigger, HookTriggerConfig, HooksConfig};
use mergers::output::events::{ItemStatus, ProgressEvent, SummaryCounts};
use mergers::runner::merge_engine::{CherryPickProcessResult, MergeEngine};
use mergers::state::file::{MergePhase, MergeStateFile, MergeStatus, StateCherryPickItem, StateItemStatus};

fn create_test_engine_with(hooks: Option<HooksConfig>) -> MergeEngine {
    MergeEngine::new(
        "test-org".to_string(),
        "test-project".to_string(),
        "test-repo".to_string(),
        "dev".to_string(),
        "main".to_string(),
        "v1.0.0".to_string(),
        "merged-".to_string(),
        "Done".to_string(),
        false,
        None,
        hooks,
        100,
        10,
        None,
    )
}

fn create_test_engine() -> MergeEngine {
    create_test_engine_with(None)
}

fn create_test_state(items: Vec<(i32, StateItemStatus)>) -> MergeStateFile {
    let mut state = MergeStateFile::new(
        "/test/repo".to_string(),
        None,
        false,
        "org".to_string(),
        "project".to_string(),
        "repo".to_string(),
        "dev".to_string(),
        "main".to_string(),
        "v1.0.0".to_string(),
        "Done".to_string(),
        "merged-".to_string(),
        false,
    );
    state.cherry_pick_items = items
        .into_iter()
        .map(|(pr_id, status)| StateCherryPickItem {
            commit_id: format!("commit_{}", pr_id),
            pr_id,
            pr_title: format!("PR #{}", pr_id),
            status,
            work_item_ids: vec![],
        })
        .collect();
    state
}

#[test]
fn test_summary_counts_calculation() {
    let counts = SummaryCounts::new(5, 2, 1, 0);
    assert_eq!(counts.total, 8);
    assert_eq!(counts.successful, 5);
    assert_eq!(counts.failed, 2);
    assert_eq!(counts.skipped, 1);
    assert_eq!(counts.pending, 0);
}

#[test]
fn test_create_summary_counts_from_state() {
    let engine = create_test_engine();
    let state = create_test_state(vec![
        (1, StateItemStatus::Success),
        (2, StateItemStatus::Success),
        (3, StateItemStatus::Failed { message: "error".to_string() }),
        (4, StateItemStatus::Skipped),
        (5, StateItemStatus::Pending),
    ]);

    let counts = engine.create_summary_counts(&state);
    assert_eq!(counts.successful, 2);
    assert_eq!(counts.failed, 1);
    assert_eq!(counts.skipped, 1);
    assert_eq!(counts.pending, 1);
    assert_eq!(counts.total, 5);
}

#[test]
fn test_determine_final_status_all_success() {
    let engine = create_test_engine();
    let state = create_test_state(vec![
        (1, StateItemStatus::Success),
        (2, StateItemStatus::Success),
        (3, StateItemStatus::Success),
    ]);

    assert_eq!(engine.determine_final_status(&state), MergeStatus::Success);
}

#[test]
fn test_determine_final_status_partial_success() {
    let engine = create_test_engine();

    let state1 = create_test_state(vec![
        (1, StateItemStatus::Success),
        (2, StateItemStatus::Failed { message: "error".to_string() }),
    ]);
    assert_eq!(engine.determine_final_status(&state1), MergeStatus::PartialSuccess);

    let state2 = create_test_state(vec![(1, StateItemStatus::Success), (2, StateItemStatus::Skipped)]);
    assert_eq!(engine.determine_final_status(&state2), MergeStatus::PartialSuccess);
}

#[test]
fn test_determine_final_status_all_failed() {
    let engine = create_test_engine();
    let state = create_test_state(vec![
        (1, StateItemStatus::Failed { message: "error1".to_string() }),
        (2, StateItemStatus::Skipped),
    ]);

    assert_eq!(engine.determine_final_status(&state), MergeStatus::Failed);
}

#[test]
fn test_create_summary_items() {
    let engine = create_test_engine();
    let state = create_test_state(vec![
        (1, StateItemStatus::Success),
        (2, StateItemStatus::Conflict),
        (3, StateItemStatus::Skipped),
        (4, StateItemStatus::Failed { message: "test error".to_string() }),
        (5, StateItemStatus::Pending),
    ]);

    let items = engine.create_summary_items(&state);
    assert_eq!(items.len(), 5);

    assert_eq!(items[0].pr_id, 1);
    assert_eq!(items[0].status, ItemStatus::Success);
    assert!(items[0].error.is_none());

    assert_eq!(items[1].pr_id, 2);
    assert_eq!(items[1].status, ItemStatus::Conflict);

    assert_eq!(items[2].pr_id, 3);
    assert_eq!(items[2].status, ItemStatus::Skipped);

    assert_eq!(items[3].pr_id, 4);
    assert_eq!(items[3].status, ItemStatus::Failed);
    assert_eq!(items[3].error, Some("test error".to_string()));

    assert_eq!(items[4].pr_id, 5);
    assert_eq!(items[4].status, ItemStatus::Pending);
}

#[test]
fn test_engine_creation_with_options() {
    let engine1 = MergeEngine::new(
        "org".to_string(),
        "project".to_string(),
        "repo".to_string(),
        "dev".to_string(),
        "main".to_string(),
        "v1.0.0".to_string(),
        "merged-".to_string(),
        "Done".to_string(),
        false,
        Some("/path/to/repo".to_string()),
        None,
        100,
        10,
        None,
    );
    assert!(engine1.cherry_pick_config().is_worktree);

    let engine2 = MergeEngine::new(
        "org".to_string(),
        "project".to_string(),
        "repo".to_string(),
        "dev".to_string(),
        "main".to_string(),
        "v1.0.0".to_string(),
        "merged-".to_string(),
        "Done".to_string(),
        true,
        None,
        None,
        100,
        10,
        None,
    );
    assert!(engine2.cherry_pick_config().run_hooks);
    assert!(!engine2.cherry_pick_config().is_worktree);
}

fn create_work_item(id: i32, state: &str) -> WorkItem {
    WorkItem {
        id,
        fields: WorkItemFields {
            title: Some(format!("WI {}", id)),
            state: Some(state.to_string()),
            work_item_type: Some("User Story".to_string()),
            assigned_to: None,
            iteration_path: None,
            description: None,
            repro_steps: None,
            state_color: None,
        },
        history: Vec::new(),
    }
}

fn create_pr(id: i32, commit_id: Option<&str>) -> PullRequest {
    PullRequest {
        id,
        title: format!("PR {}", id),
        closed_date: None,
        created_by: CreatedBy { display_name: "Test User".to_string() },
        last_merge_commit: commit_id.map(|c| MergeCommit { commit_id: c.to_string() }),
        labels: None,
    }
}

#[test]
fn test_select_prs_by_states() {
    let engine = create_test_engine();
    let mut prs = vec![
        PullRequestWithWorkItems {
            pr: create_pr(1, Some("abc")),
            work_items: vec![create_work_item(100, "Ready")],
            selected: false,
        },
        PullRequestWithWorkItems {
            pr: create_pr(2, Some("def")),
            work_items: vec![create_work_item(101, "Done")],
            selected: false,
        },
    ];

    let count = engine.select_prs_by_states(&mut prs, "Ready");

    assert_eq!(count, 1);
    assert!(prs[0].selected);
    assert!(!prs[1].selected);
}

#[test]
fn cherry_pick_items_are_the_selected_prs_with_commits() {
    let prs = vec![
        PullRequestWithWorkItems { pr: create_pr(1, Some("a")), work_items: vec![create_work_item(10, "x")], selected: true },
        PullRequestWithWorkItems { pr: create_pr(2, None), work_items: vec![], selected: true },
        PullRequestWithWorkItems { pr: create_pr(3, Some("c")), work_items: vec![], selected: false },
        PullRequestWithWorkItems { pr: create_pr(4, Some("d")), work_items: vec![], selected: true },
    ];
    let items = MergeEngine::cherry_pick_items(&prs);
    assert_eq!(items.len(), 2);
    assert_eq!(items[0].pr_id, 1);
    assert_eq!(items[0].commit_id, "a");
    assert_eq!(items[0].work_item_ids, vec![10]);
    assert_eq!(items[1].pr_id, 4);
    assert!(items.iter().all(|i| matches!(i.status, StateItemStatus::Pending)));
}

#[test]
fn cherry_pick_loop_walks_items_and_stops_on_conflict() {
    let engine = create_test_engine_with(Some(HooksConfig {
        on_conflict: HookTriggerConfig::from_commands(vec!["echo conflict".to_string()]),
        ..Default::default()
    }));
    let mut state = create_test_state(vec![(1, StateItemStatus::Pending), (2, StateItemStatus::Pending), (3, StateItemStatus::Pending)]);
    state.phase = MergePhase::CherryPicking;

    match MergeEngine::next_cherry_pick(&state) {
        Some(ProgressEvent::CherryPickStart { pr_id, index, total, .. }) => {
            assert_eq!((pr_id, index, total), (1, 0, 3));
        },
        other => panic!("unexpected {:?}", other),
    }
    let step = engine.apply_outcome(&mut state, CherryPickOutcome::Success);
    assert!(matches!(step.event, ProgressEvent::CherryPickSuccess { pr_id: 1, .. }));
    assert!(!step.run_post_cherry_pick_hooks);
    assert_eq!(state.current_index, 1);

    let step = engine.apply_outcome(&mut state, CherryPickOutcome::Conflict { conflicted_files: vec!["x.rs".to_string()] });
    assert!(step.conflict.is_some());
    assert!(step.run_on_conflict_hooks);
    assert_eq!(state.phase, MergePhase::AwaitingConflictResolution);
    assert_eq!(state.current_index, 1);
    assert_eq!(state.conflicted_files, Some(vec!["x.rs".to_string()]));
    assert!(matches!(state.cherry_pick_items[1].status, StateItemStatus::Conflict));

    MergeEngine::resolve_current(&mut state, StateItemStatus::Success);
    assert_eq!(state.current_index, 2);
    assert_eq!(state.phase, MergePhase::CherryPicking);
    assert!(state.conflicted_files.is_none());

    let step = engine.apply_outcome(&mut state, CherryPickOutcome::Failed { message: "bad".to_string() });
    assert!(matches!(step.event, ProgressEvent::CherryPickFailed { pr_id: 3, .. }));
    assert!(MergeEngine::next_cherry_pick(&state).is_none());
    MergeEngine::finish_cherry_picks(&mut state);
    assert_eq!(state.phase, MergePhase::ReadyForCompletion);
    assert_eq!(engine.determine_final_status(&state), MergeStatus::PartialSuccess);
    let completed = MergeEngine::completed_prs(&state);
    assert_eq!(completed.iter().map(|c| c.pr_id).collect::<Vec<_>>(), vec![1, 2]);
}

#[test]
fn hook_events_follow_the_results() {
    let engine = create_test_engine_with(Some(HooksConfig {
        pre_cherry_pick: HookTriggerConfig::from_commands(vec!["a".to_string(), "b".to_string()]),
        ..Default::default()
    }));
    match engine.hook_start_event(HookTrigger::PreCherryPick) {
        Some(ProgressEvent::HookStart { command_count, .. }) => assert_eq!(command_count, 2),
        other => panic!("unexpected {:?}", other),
    }
    assert!(engine.hook_start_event(HookTrigger::PostMerge).is_none());

    let result = HookResult {
        trigger: HookTrigger::PreCherryPick,
        command_results: vec![HookCommandResult {
            command: "a".to_string(),
            success: false,
            exit_code: Some(2),
            stdout: String::new(),
            stderr: String::new(),
        }],
        all_succeeded: false,
    };
    let (events, outcome) = engine.hook_finish(HookTrigger::PreCherryPick, &result);
    assert_eq!(events.len(), 3);
    assert!(matches!(events[0], ProgressEvent::HookCommandComplete { success: false, index: 0, .. }));
    assert!(matches!(events[1], ProgressEvent::HookComplete { all_succeeded: false, .. }));
    assert!(matches!(events[2], ProgressEvent::HookFailed { .. }));
    match outcome {
        HookOutcome::Abort { command, error, .. } => {
            assert_eq!(command, "a");
            assert_eq!(error, "Command failed with exit code Some(2)");
        },
        other => panic!("unexpected {:?}", other),
    }
}

#[test]
fn pre_cherry_pick_hooks_run_only_from_the_start() {
    let engine = create_test_engine_with(Some(HooksConfig {
        pre_cherry_pick: HookTriggerConfig::from_commands(vec!["a".to_string()]),
        ..Default::default()
    }));
    let mut state = create_test_state(vec![(1, StateItemStatus::Pending)]);
    assert!(engine.should_run_pre_cherry_pick_hooks(&state));
    state.current_index = 1;
    assert!(!engine.should_run_pre_cherry_pick_hooks(&state));
    assert!(!create_test_engine().should_run_pre_cherry_pick_hooks(&create_test_state(vec![])));
}

fn abort_outcome(trigger: HookTrigger) -> HookOutcome {
    HookOutcome::Abort { trigger, command: "make check".to_string(), error: "exit 1".to_string() }
}

#[test]
fn pre_cherry_pick_abort_stops_the_run() {
    let r = MergeEngine::hook_stop(HookTrigger::PreCherryPick, abort_outcome(HookTrigger::PreCherryPick));
    match r {
        Some(CherryPickProcessResult::HookAbort { trigger, command, error }) => {
            assert_eq!(trigger, HookTrigger::PreCherryPick);
            assert_eq!(command, "make check");
            assert_eq!(error, "exit 1");
        }
        other => panic!("expected a hook abort, got {:?}", other),
    }
}

#[test]
fn other_hook_outcomes_do_not_stop_the_run() {
    assert!(MergeEngine::hook_stop(HookTrigger::PostMerge, abort_outcome(HookTrigger::PostMerge)).is_none());
    assert!(MergeEngine::hook_stop(HookTrigger::OnConflict, abort_outcome(HookTrigger::OnConflict)).is_none());
    assert!(MergeEngine::hook_stop(HookTrigger::PreCherryPick, HookOutcome::Success).is_none());
    let continued = HookOutcome::ContinuedAfterFailure {
        trigger: HookTrigger::PreCherryPick,
        command: "lint".to_string(),
        error: "warn".to_string(),
    };
    assert!(MergeEngine::hook_stop(HookTrigger::PreCherryPick, continued).is_none());
}
