use mergers::models::CherryPickStatus;
use mergers::operations::cherry_pick::{
    conflicted_files_from_status, is_conflict_status_line, outcome_of_attempt, CherryPickBatchResult, CherryPickConfig,
    CherryPickItem, CherryPickOperation, CherryPickOutcome, CherryPickProgress, CherryPickResult,
};

#[test]
fn test_cherry_pick_outcome_from_result() {
    let success: CherryPickOutcome = CherryPickResult::Success.into();
    assert!(matches!(success, CherryPickOutcome::Success));

    let conflict: CherryPickOutcome = CherryPickResult::Conflict(vec!["file.rs".to_string()]).into();
    assert!(matches!(conflict, CherryPickOutcome::Conflict { .. }));

    let failed: CherryPickOutcome = CherryPickResult::Failed("error".to_string()).into();
    assert!(matches!(failed, CherryPickOutcome::Failed { .. }));
}

#[test]
fn test_cherry_pick_outcome_to_status() {
    let success: CherryPickStatus = CherryPickOutcome::Success.into();
    assert!(matches!(success, CherryPickStatus::Success));

    let conflict: CherryPickStatus = CherryPickOutcome::Conflict { conflicted_files: vec![] }.into();
    assert!(matches!(conflict, CherryPickStatus::Conflict));

    let skipped: CherryPickStatus = CherryPickOutcome::Skipped.into();
    assert!(matches!(skipped, CherryPickStatus::Skipped));

    let failed: CherryPickStatus = CherryPickOutcome::Failed { message: "error".to_string() }.into();
    assert!(matches!(failed, CherryPickStatus::Failed(_)));
}

#[test]
fn test_cherry_pick_config_default() {
    let config = CherryPickConfig::default();
    assert!(!config.run_hooks);
    assert!(config.is_worktree);
}

#[test]
fn test_cherry_pick_item_creation() {
    let item = CherryPickItem {
        commit_id: "abc123".to_string(),
        pr_id: 42,
        pr_title: "Test PR".to_string(),
        status: CherryPickStatus::Pending,
        work_item_ids: vec![1, 2, 3],
    };

    assert_eq!(item.commit_id, "abc123");
    assert_eq!(item.pr_id, 42);
    assert_eq!(item.work_item_ids.len(), 3);
}

#[test]
fn test_cherry_pick_progress_variants() {
    let _p1 = CherryPickProgress::Starting { pr_id: 1, commit_id: "abc".to_string(), index: 0, total: 5 };
    let _p2 = CherryPickProgress::Completed { pr_id: 1, outcome: CherryPickOutcome::Success };
    let _p3 = CherryPickProgress::AllComplete { success_count: 3, failed_count: 1, skipped_count: 1 };
}

#[test]
fn test_cherry_pick_batch_result() {
    let result = CherryPickBatchResult { items: vec![], conflict_index: None, all_complete: true };

    assert!(result.items.is_empty());
    assert!(result.conflict_index.is_none());
    assert!(result.all_complete);
}

fn item(commit: &str, pr_id: i32, status: CherryPickStatus) -> CherryPickItem {
    CherryPickItem {
        commit_id: commit.to_string(),
        pr_id,
        pr_title: format!("PR {}", pr_id),
        status,
        work_item_ids: vec![],
    }
}

#[test]
fn test_cherry_pick_batch_result_counts() {
    let result = CherryPickBatchResult {
        items: vec![
            item("a", 1, CherryPickStatus::Success),
            item("b", 2, CherryPickStatus::Success),
            item("c", 3, CherryPickStatus::Failed("error".to_string())),
            item("d", 4, CherryPickStatus::Skipped),
        ],
        conflict_index: None,
        all_complete: true,
    };

    assert_eq!(result.success_count(), 2);
    assert_eq!(result.failed_count(), 1);
    assert_eq!(result.skipped_count(), 1);
}

#[test]
fn test_cherry_pick_operation_creation() {
    let operation = CherryPickOperation::new(CherryPickConfig::default());
    assert!(!operation.run_hooks());
}

#[test]
fn test_is_conflict_status_line() {
    assert!(is_conflict_status_line("UU src/main.rs"));
    assert!(is_conflict_status_line("AA new_file.rs"));
    assert!(is_conflict_status_line("DD deleted.rs"));
    assert!(is_conflict_status_line("AU added_by_us.rs"));
    assert!(is_conflict_status_line("UA added_by_them.rs"));
    assert!(is_conflict_status_line("DU deleted_by_us.rs"));
    assert!(is_conflict_status_line("UD deleted_by_them.rs"));

    assert!(!is_conflict_status_line("M  modified.rs"));
    assert!(!is_conflict_status_line(" M modified_unstaged.rs"));
    assert!(!is_conflict_status_line("A  added.rs"));
    assert!(!is_conflict_status_line("D  deleted.rs"));
    assert!(!is_conflict_status_line("?? untracked.rs"));
    assert!(!is_conflict_status_line("!! ignored.rs"));
    assert!(!is_conflict_status_line("R  renamed.rs"));

    assert!(!is_conflict_status_line(""));
    assert!(!is_conflict_status_line("X"));
    assert!(!is_conflict_status_line("  "));
}

#[test]
fn conflicted_files_are_read_from_porcelain_status() {
    let status = "UU src/main.rs\nM  modified.rs\nAA new_file.rs\n?? untracked.rs\n";
    assert_eq!(conflicted_files_from_status(status), vec!["src/main.rs".to_string(), "new_file.rs".to_string()]);
    assert!(conflicted_files_from_status("").is_empty());
}

#[test]
fn failed_attempt_becomes_failed_outcome() {
    match outcome_of_attempt(Err("git exploded".to_string())) {
        CherryPickOutcome::Failed { message } => assert!(message.contains("git exploded")),
        other => panic!("unexpected outcome {:?}", other),
    }
    assert!(matches!(outcome_of_attempt(Ok(CherryPickResult::Success)), CherryPickOutcome::Success));
}
