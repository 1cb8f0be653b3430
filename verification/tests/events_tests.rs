use mergers::output::events::{ConflictInfo, ItemStatus, PostMergeStatus, SummaryCounts, SummaryResult};

#[test]
fn test_post_merge_status_display() {
    assert_eq!(PostMergeStatus::Pending.display_string(), "pending");
    assert_eq!(PostMergeStatus::Success.display_string(), "success");
    assert_eq!(PostMergeStatus::Skipped.display_string(), "skipped");
    assert_eq!(PostMergeStatus::Failed { error: "test error".to_string() }.display_string(), "failed: test error");
}

#[test]
fn test_conflict_info_creation() {
    let info = ConflictInfo::new(
        123,
        "Test PR".to_string(),
        "abc123".to_string(),
        vec!["file1.rs".to_string()],
        "/tmp/repo".to_string(),
    );

    assert_eq!(info.pr_id, 123);
    assert_eq!(info.conflicted_files.len(), 1);
    assert_eq!(info.resolution_instructions.len(), 4);
    assert!(info.resolution_instructions[0].contains("/tmp/repo"));
}

#[test]
fn test_summary_counts_creation() {
    let counts = SummaryCounts::new(3, 1, 1, 0);
    assert_eq!(counts.total, 5);
    assert_eq!(counts.successful, 3);
    assert_eq!(counts.failed, 1);
    assert_eq!(counts.skipped, 1);
    assert_eq!(counts.pending, 0);
}

#[test]
fn test_item_status_display() {
    assert_eq!(ItemStatus::Pending.display_string(), "pending");
    assert_eq!(ItemStatus::InProgress.display_string(), "in_progress");
    assert_eq!(ItemStatus::Success.display_string(), "success");
    assert_eq!(ItemStatus::Failed.display_string(), "failed");
    assert_eq!(ItemStatus::Skipped.display_string(), "skipped");
    assert_eq!(ItemStatus::Conflict.display_string(), "conflict");
}

#[test]
fn test_summary_result_display() {
    assert_eq!(SummaryResult::Success.display_string(), "success");
    assert_eq!(SummaryResult::PartialSuccess.display_string(), "partial_success");
    assert_eq!(SummaryResult::Failed.display_string(), "failed");
    assert_eq!(SummaryResult::Aborted.display_string(), "aborted");
    assert_eq!(SummaryResult::Conflict.display_string(), "conflict");
}

#[test]
fn conflict_instructions_are_the_four_steps() {
    let info = ConflictInfo::new(1, "t".to_string(), "c".to_string(), vec![], "/r".to_string());
    assert_eq!(
        info.resolution_instructions,
        vec![
            "1. Navigate to: /r".to_string(),
            "2. Resolve conflicts in the listed files".to_string(),
            "3. Stage resolved files: git add <files>".to_string(),
            "4. Run: mergers merge continue".to_string(),
        ]
    );
}
