use mergers::models::OutputFormat;
use mergers::output::events::{
    ConflictInfo, ItemStatus, PostMergeStatus, PostMergeSummary, ProgressEvent, ProgressSummary, StatusInfo,
    SummaryCounts, SummaryInfo, SummaryItem, SummaryResult,
};
use mergers::output::format::{truncate_string, OutputChunk, OutputFormatter, OutputWriter};

fn output_of(writer: &mut OutputWriter) -> String {
    writer
        .take_pending()
        .into_iter()
        .filter_map(|c| match c {
            OutputChunk::Text(t) => Some(t),
            _ => None,
        })
        .collect()
}

fn summary(result: SummaryResult, counts: SummaryCounts, post_merge: Option<PostMergeSummary>) -> SummaryInfo {
    SummaryInfo {
        result,
        version: "v1.0.0".to_string(),
        target_branch: "main".to_string(),
        counts,
        items: None,
        post_merge,
    }
}

fn start_event(total_prs: usize) -> ProgressEvent {
    ProgressEvent::Start {
        total_prs,
        version: "v1.0.0".to_string(),
        target_branch: "main".to_string(),
        state_file_path: None,
    }
}

#[test]
fn test_text_output_start_event() {
    let mut writer = OutputWriter::new(OutputFormat::Text, false);
    writer.write_event(start_event(5));
    let output = output_of(&mut writer);

    assert!(output.contains("v1.0.0"));
    assert!(output.contains("main"));
    assert!(output.contains("5 PRs"));
    assert_eq!(output, "\nStarting merge: v1.0.0 → main (5 PRs)\n\n");
}

#[test]
fn test_ndjson_output_events() {
    let mut writer = OutputWriter::new(OutputFormat::Ndjson, false);
    writer.write_event(start_event(3));
    writer.write_event(ProgressEvent::CherryPickSuccess { pr_id: 123, commit_id: "abc".to_string() });

    let chunks = writer.take_pending();
    assert_eq!(chunks.len(), 2);
    assert!(matches!(chunks[0], OutputChunk::EventLine(ProgressEvent::Start { total_prs: 3, .. })));
    assert!(matches!(chunks[1], OutputChunk::EventLine(ProgressEvent::CherryPickSuccess { pr_id: 123, .. })));
}

#[test]
fn test_json_output_buffering() {
    let mut writer = OutputWriter::new(OutputFormat::Json, false);
    writer.write_event(start_event(2));
    assert!(writer.take_pending().is_empty());
    assert_eq!(writer.buffered_events().len(), 1);

    writer.write_summary(summary(SummaryResult::Success, SummaryCounts::new(2, 0, 0, 0), None));
    let chunks = writer.take_pending();
    assert_eq!(chunks.len(), 1);
    match &chunks[0] {
        OutputChunk::SummaryDocument { summary, event_count } => {
            assert_eq!(*event_count, 1);
            assert_eq!(summary.version, "v1.0.0");
        },
        other => panic!("unexpected chunk {:?}", other),
    }
}

#[test]
fn test_quiet_mode_suppresses_progress() {
    let mut writer = OutputWriter::new(OutputFormat::Text, true);
    writer.write_event(ProgressEvent::CherryPickSuccess { pr_id: 123, commit_id: "abc".to_string() });
    writer.write_event(ProgressEvent::Error { message: "test error".to_string(), code: None });

    let output = output_of(&mut writer);
    assert!(!output.contains("PR #123"));
    assert!(output.contains("test error"));
}

#[test]
fn test_conflict_info_text_formatting() {
    let mut writer = OutputWriter::new(OutputFormat::Text, false);
    let conflict = ConflictInfo::new(
        123,
        "Test PR".to_string(),
        "abc123".to_string(),
        vec!["file1.rs".to_string(), "file2.rs".to_string()],
        "/tmp/repo".to_string(),
    );
    writer.write_conflict(conflict);

    let output = output_of(&mut writer);
    assert!(output.contains("CONFLICT DETECTED"));
    assert!(output.contains("PR #123"));
    assert!(output.contains("file1.rs"));
    assert!(output.contains("file2.rs"));
    assert!(output.contains("To resolve"));
}

#[test]
fn test_progress_bar_formatting() {
    let bar0 = OutputWriter::format_progress_bar(0, 10, 10);
    assert_eq!(bar0, "[          ]");

    let bar5 = OutputWriter::format_progress_bar(5, 10, 10);
    assert_eq!(bar5, "[=====     ]");

    let bar10 = OutputWriter::format_progress_bar(10, 10, 10);
    assert_eq!(bar10, "[==========]");

    let bar_zero = OutputWriter::format_progress_bar(0, 0, 10);
    assert_eq!(bar_zero, "[          ]");
}

#[test]
fn test_string_truncation() {
    assert_eq!(truncate_string("short", 10), "short");
    assert_eq!(truncate_string("this is a long string", 10), "this is...");
    assert_eq!(truncate_string("abc", 3), "abc");
    assert_eq!(truncate_string("abcdef", 3), "...");
    assert_eq!(truncate_string("ab", 5), "ab");
}

#[test]
fn test_status_symbols() {
    assert_eq!(OutputWriter::status_symbol(&ItemStatus::Pending), "○");
    assert_eq!(OutputWriter::status_symbol(&ItemStatus::InProgress), "◐");
    assert_eq!(OutputWriter::status_symbol(&ItemStatus::Success), "✓");
    assert_eq!(OutputWriter::status_symbol(&ItemStatus::Failed), "✗");
    assert_eq!(OutputWriter::status_symbol(&ItemStatus::Skipped), "⊘");
    assert_eq!(OutputWriter::status_symbol(&ItemStatus::Conflict), "⚠");
}

#[test]
fn test_summary_text_formatting() {
    let mut writer = OutputWriter::new(OutputFormat::Text, false);
    writer.write_summary(summary(SummaryResult::Success, SummaryCounts::new(3, 1, 1, 0), None));

    let output = output_of(&mut writer);
    assert!(output.contains("SUCCESS"));
    assert!(output.contains("v1.0.0"));
    assert!(output.contains("Successful: 3"));
    assert!(output.contains("Failed:     1"));
    assert!(output.contains("Skipped:    1"));
}

#[test]
fn test_post_merge_status_symbols() {
    assert_eq!(OutputWriter::post_merge_status_symbol(&PostMergeStatus::Pending), "○");
    assert_eq!(OutputWriter::post_merge_status_symbol(&PostMergeStatus::Success), "✓");
    assert_eq!(OutputWriter::post_merge_status_symbol(&PostMergeStatus::Failed { error: "test".to_string() }), "✗");
    assert_eq!(OutputWriter::post_merge_status_symbol(&PostMergeStatus::Skipped), "⊘");
}

#[test]
fn test_cherry_pick_events_text_formatting() {
    let mut writer = OutputWriter::new(OutputFormat::Text, false);
    writer.write_event(ProgressEvent::CherryPickSuccess { pr_id: 123, commit_id: "abc123".to_string() });
    writer.write_event(ProgressEvent::CherryPickFailed { pr_id: 456, error: "merge conflict".to_string() });
    writer.write_event(ProgressEvent::CherryPickSkipped { pr_id: 789, reason: Some("already applied".to_string()) });

    let output = output_of(&mut writer);
    assert!(output.contains("PR #123 applied"));
    assert!(output.contains("PR #456 failed"));
    assert!(output.contains("merge conflict"));
    assert!(output.contains("PR #789 skipped"));
    assert!(output.contains("already applied"));
}

#[test]
fn test_dependency_events_text_formatting() {
    let mut writer = OutputWriter::new(OutputFormat::Text, false);
    writer.write_event(ProgressEvent::DependencyAnalysisStart { pr_count: 5 });
    writer.write_event(ProgressEvent::DependencyAnalysisComplete { independent: 3, partial: 1, dependent: 1 });

    let output = output_of(&mut writer);
    assert!(output.contains("Analyzing dependencies for 5 PRs"));
    assert!(output.contains("3 independent"));
    assert!(output.contains("1 partial"));
    assert!(output.contains("1 overlapping"));
}

#[test]
fn test_hook_events_text_formatting() {
    let mut writer = OutputWriter::new(OutputFormat::Text, false);
    writer.write_event(ProgressEvent::HookStart { trigger: "post_merge".to_string(), command_count: 2 });
    writer.write_event(ProgressEvent::HookCommandStart {
        trigger: "post_merge".to_string(),
        command: "cargo test".to_string(),
        index: 0,
    });
    writer.write_event(ProgressEvent::HookCommandComplete {
        trigger: "post_merge".to_string(),
        command: "cargo test".to_string(),
        success: true,
        index: 0,
    });
    writer.write_event(ProgressEvent::HookComplete { trigger: "post_merge".to_string(), all_succeeded: true });

    let output = output_of(&mut writer);
    assert!(output.contains("Running post_merge hook"));
    assert!(output.contains("2 commands"));
    assert!(output.contains("cargo test"));
    assert!(output.contains("completed"));
}

#[test]
fn test_summary_result_types_text_formatting() {
    let test_cases = [
        (SummaryResult::Success, "SUCCESS"),
        (SummaryResult::PartialSuccess, "PARTIAL SUCCESS"),
        (SummaryResult::Failed, "FAILED"),
        (SummaryResult::Aborted, "ABORTED"),
        (SummaryResult::Conflict, "CONFLICT"),
    ];

    for (result, expected_text) in test_cases {
        let mut writer = OutputWriter::new(OutputFormat::Text, false);
        writer.write_summary(summary(result, SummaryCounts::new(1, 0, 0, 0), None));
        let output = output_of(&mut writer);
        assert!(output.contains(expected_text), "Expected '{}' in output for {:?}", expected_text, result);
    }
}

#[test]
fn test_summary_with_post_merge_tasks() {
    let mut writer = OutputWriter::new(OutputFormat::Text, false);
    writer.write_summary(summary(
        SummaryResult::Success,
        SummaryCounts::new(3, 0, 0, 0),
        Some(PostMergeSummary { total_tasks: 3, successful: 2, failed: 1, tasks: None }),
    ));

    let output = output_of(&mut writer);
    assert!(output.contains("Post-merge tasks:"));
    assert!(output.contains("Successful: 2"));
    assert!(output.contains("Failed:     1"));
}

#[test]
fn test_ndjson_conflict_info() {
    let mut writer = OutputWriter::new(OutputFormat::Ndjson, false);
    let conflict = ConflictInfo::new(
        123,
        "Test PR".to_string(),
        "abc123".to_string(),
        vec!["file1.rs".to_string()],
        "/tmp/repo".to_string(),
    );
    writer.write_conflict(conflict);

    let chunks = writer.take_pending();
    assert_eq!(chunks.len(), 1);
    match &chunks[0] {
        OutputChunk::EventLine(ProgressEvent::CherryPickConflict { pr_id, conflicted_files, repo_path }) => {
            assert_eq!(*pr_id, 123);
            assert_eq!(conflicted_files, &vec!["file1.rs".to_string()]);
            assert_eq!(repo_path, "/tmp/repo");
        },
        other => panic!("unexpected chunk {:?}", other),
    }
}

#[test]
fn test_ndjson_summary() {
    let mut writer = OutputWriter::new(OutputFormat::Ndjson, false);
    writer.write_summary(summary(SummaryResult::Success, SummaryCounts::new(3, 0, 0, 0), None));

    let chunks = writer.take_pending();
    assert_eq!(chunks.len(), 1);
    match &chunks[0] {
        OutputChunk::SummaryLine(s) => {
            assert_eq!(s.result, SummaryResult::Success);
            assert_eq!(s.version, "v1.0.0");
        },
        other => panic!("unexpected chunk {:?}", other),
    }
}

#[test]
fn test_complete_event_text_formatting() {
    let mut writer = OutputWriter::new(OutputFormat::Text, false);
    writer.write_event(ProgressEvent::Complete { successful: 5, failed: 2, skipped: 1 });

    let output = output_of(&mut writer);
    assert!(output.contains("5 successful"));
    assert!(output.contains("2 failed"));
    assert!(output.contains("1 skipped"));
}

#[test]
fn test_error_event_text_formatting() {
    let mut writer = OutputWriter::new(OutputFormat::Text, false);
    writer.write_event(ProgressEvent::Error {
        message: "Something went wrong".to_string(),
        code: Some("E001".to_string()),
    });

    let output = output_of(&mut writer);
    assert!(output.contains("Error"));
    assert!(output.contains("[E001]"));
    assert!(output.contains("Something went wrong"));
}

#[test]
fn test_aborted_event_text_formatting() {
    let mut writer = OutputWriter::new(OutputFormat::Text, false);
    writer.write_event(ProgressEvent::Aborted { success: true, message: Some("User requested abort".to_string()) });

    let output = output_of(&mut writer);
    assert!(output.contains("aborted successfully"));
    assert!(output.contains("User requested abort"));
}

#[test]
fn test_hook_failed_event_text_formatting() {
    let mut writer = OutputWriter::new(OutputFormat::Text, false);
    writer.write_event(ProgressEvent::HookFailed {
        trigger: "post_merge".to_string(),
        command: "cargo test".to_string(),
        error: "tests failed".to_string(),
    });

    let output = output_of(&mut writer);
    assert!(output.contains("Hook post_merge failed"));
    assert!(output.contains("cargo test"));
    assert!(output.contains("tests failed"));
}

#[test]
fn test_flush_operation() {
    let mut writer = OutputWriter::new(OutputFormat::Text, false);
    writer.flush();
    let chunks = writer.take_pending();
    assert_eq!(chunks.len(), 1);
    assert!(matches!(chunks[0], OutputChunk::Flush));
}

#[test]
fn test_format_and_quiet_getters() {
    let writer = OutputWriter::new(OutputFormat::Json, true);

    assert!(matches!(writer.format(), OutputFormat::Json));
    assert!(writer.is_quiet());
}

#[test]
fn test_post_merge_progress_event() {
    let mut writer = OutputWriter::new(OutputFormat::Text, false);
    writer.write_event(ProgressEvent::PostMergeStart { task_count: 3 });
    writer.write_event(ProgressEvent::PostMergeProgress {
        task_type: "tag_pr".to_string(),
        target_id: 123,
        status: PostMergeStatus::Success,
    });

    let output = output_of(&mut writer);
    assert!(output.contains("3 post-merge tasks"));
    assert!(output.contains("tag_pr"));
    assert!(output.contains("123"));
}

#[test]
fn test_dependency_warning_event() {
    let mut writer = OutputWriter::new(OutputFormat::Text, false);
    writer.write_event(ProgressEvent::DependencyWarning {
        selected_pr_id: 100,
        selected_pr_title: "Feature PR".to_string(),
        unselected_pr_id: 200,
        unselected_pr_title: "Important dependency PR".to_string(),
        is_critical: true,
        shared_files: vec!["src/lib.rs".to_string()],
    });

    let output = output_of(&mut writer);
    assert!(output.contains("CRITICAL"));
    assert!(output.contains("PR #100"));
    assert!(output.contains("PR #200"));
    assert!(output.contains("src/lib.rs"));
}

#[test]
fn cherry_pick_start_renders_bar_and_flushes() {
    let mut writer = OutputWriter::new(OutputFormat::Text, false);
    writer.write_event(ProgressEvent::CherryPickStart { pr_id: 7, commit_id: "c".to_string(), index: 1, total: 4 });
    let chunks = writer.take_pending();
    assert_eq!(chunks.len(), 2);
    match &chunks[0] {
        OutputChunk::Text(t) => assert_eq!(t, "\r[=====               ] [2/4] Processing PR #7..."),
        other => panic!("unexpected chunk {:?}", other),
    }
    assert!(matches!(chunks[1], OutputChunk::Flush));
}

#[test]
fn status_text_lists_items_and_progress() {
    let mut writer = OutputWriter::new(OutputFormat::Text, false);
    writer.write_status(StatusInfo {
        phase: "Cherry-picking commits".to_string(),
        status: "in_progress".to_string(),
        version: "v1".to_string(),
        target_branch: "main".to_string(),
        repo_path: "/r".to_string(),
        progress: ProgressSummary { total: 4, completed: 2, pending: 2, current_index: 2 },
        conflict: None,
        items: Some(vec![SummaryItem {
            pr_id: 3,
            pr_title: "A title that is rather long and will certainly be cut off".to_string(),
            commit_id: "c".to_string(),
            status: ItemStatus::Success,
            error: None,
        }]),
    });
    let output = output_of(&mut writer);
    assert!(output.contains("Phase:         Cherry-picking commits"));
    assert!(output.contains("  [====================                    ] 2/4\n"));
    assert!(output.contains("  ✓ PR #3: A title that is rather long and will ... [success]\n"));
}

#[test]
fn status_goes_to_a_document_in_json_formats() {
    for format in [OutputFormat::Json, OutputFormat::Ndjson] {
        let mut writer = OutputWriter::new(format, false);
        writer.write_status(StatusInfo {
            phase: "idle".to_string(),
            status: "idle".to_string(),
            version: String::new(),
            target_branch: String::new(),
            repo_path: "/r".to_string(),
            progress: ProgressSummary { total: 0, completed: 0, pending: 0, current_index: 0 },
            conflict: None,
            items: None,
        });
        let chunks = writer.take_pending();
        assert_eq!(chunks.len(), 1);
        assert!(matches!(chunks[0], OutputChunk::StatusDocument(_)));
    }
}

#[test]
fn truncation_counts_characters_of_multibyte_text() {
    assert_eq!(truncate_string("ééééééééé", 10), "ééééééé...");
    assert_eq!(truncate_string("éééééé", 10), "éééééé...");
}
