use mergers::state::file::{
    compute_repo_hash, encode, millis_from_clock, lock_file_name_for, state_file_name_for, MergePhase, MergeStateFile,
    MergeStateFileBuilder, MergeStatus, StateCherryPickItem, StateItemStatus, SCHEMA_VERSION,
};

fn new_state() -> MergeStateFile {
    MergeStateFile::new(
        "/test/repo".to_string(),
        None,
        false,
        "org".to_string(),
        "project".to_string(),
        "repo".to_string(),
        "dev".to_string(),
        "next".to_string(),
        "v1.0.0".to_string(),
        "Done".to_string(),
        "merged-".to_string(),
        false,
    )
}

fn item(commit: &str, pr_id: i32, status: StateItemStatus) -> StateCherryPickItem {
    StateCherryPickItem {
        commit_id: commit.to_string(),
        pr_id,
        pr_title: format!("PR {}", pr_id),
        status,
        work_item_ids: vec![],
    }
}

#[test]
fn test_path_hashing_consistent() {
    let path = "/tmp/some/repository";
    let hash1 = compute_repo_hash(path);
    let hash2 = compute_repo_hash(path);
    let hash3 = compute_repo_hash(path);

    assert_eq!(hash1, hash2);
    assert_eq!(hash2, hash3);
    assert_eq!(hash1.len(), 16);
}

#[test]
fn test_path_hashing_different() {
    let hash1 = compute_repo_hash("/tmp/repo-one");
    let hash2 = compute_repo_hash("/tmp/repo-two");

    assert_ne!(hash1, hash2);
}

#[test]
fn test_status_counts() {
    let mut state = new_state();
    state.cherry_pick_items = vec![
        item("a", 1, StateItemStatus::Pending),
        item("b", 2, StateItemStatus::Success),
        item("c", 3, StateItemStatus::Success),
        item("d", 4, StateItemStatus::Skipped),
        item("e", 5, StateItemStatus::Failed { message: "error".to_string() }),
    ];

    let counts = state.status_counts();
    assert_eq!(counts.pending, 1);
    assert_eq!(counts.success, 2);
    assert_eq!(counts.conflict, 0);
    assert_eq!(counts.skipped, 1);
    assert_eq!(counts.failed, 1);
    assert_eq!(counts.total(), 5);
    assert_eq!(counts.completed(), 4);
}

#[test]
fn test_phase_terminal_check() {
    assert!(!MergePhase::Loading.is_terminal());
    assert!(!MergePhase::Setup.is_terminal());
    assert!(!MergePhase::CherryPicking.is_terminal());
    assert!(!MergePhase::AwaitingConflictResolution.is_terminal());
    assert!(!MergePhase::ReadyForCompletion.is_terminal());
    assert!(!MergePhase::Completing.is_terminal());
    assert!(MergePhase::Completed.is_terminal());
    assert!(MergePhase::Aborted.is_terminal());
}

#[test]
fn test_schema_version() {
    let state = new_state();
    assert_eq!(state.schema_version, SCHEMA_VERSION);
    assert_eq!(state.schema_version, 1);
}

#[test]
fn test_builder_basic_usage() {
    let state = MergeStateFile::builder()
        .repo_path("/test/repo")
        .organization("my-org")
        .project("my-project")
        .repository("my-repo")
        .dev_branch("dev")
        .target_branch("main")
        .merge_version("v1.0.0")
        .work_item_state("Done")
        .tag_prefix("merged-")
        .build();

    assert_eq!(state.repo_path, "/test/repo");
    assert_eq!(state.organization, "my-org");
    assert_eq!(state.project, "my-project");
    assert_eq!(state.repository, "my-repo");
    assert_eq!(state.dev_branch, "dev");
    assert_eq!(state.target_branch, "main");
    assert_eq!(state.merge_version, "v1.0.0");
    assert_eq!(state.work_item_state, "Done");
    assert_eq!(state.tag_prefix, "merged-");
    assert!(!state.run_hooks);
    assert!(!state.is_worktree);
    assert!(state.base_repo_path.is_none());
}

#[test]
fn test_builder_with_optional_fields() {
    let state = MergeStateFile::builder()
        .repo_path("/work/repo")
        .base_repo_path("/base/repo")
        .is_worktree(true)
        .organization("org")
        .project("proj")
        .repository("repo")
        .dev_branch("develop")
        .target_branch("release")
        .merge_version("v2.0.0")
        .work_item_state("Released")
        .tag_prefix("release-")
        .run_hooks(true)
        .build();

    assert_eq!(state.base_repo_path, Some("/base/repo".to_string()));
    assert!(state.is_worktree);
    assert!(state.run_hooks);
}

#[test]
fn test_builder_try_build_success() {
    let result = MergeStateFile::builder()
        .repo_path("/test/repo")
        .organization("org")
        .project("proj")
        .repository("repo")
        .dev_branch("dev")
        .target_branch("main")
        .merge_version("v1.0.0")
        .work_item_state("Done")
        .tag_prefix("merged-")
        .try_build();

    assert!(result.is_ok());
    let state = result.unwrap();
    assert_eq!(state.organization, "org");
}

#[test]
fn test_builder_try_build_missing_fields() {
    let result = MergeStateFile::builder()
        .organization("org")
        .project("proj")
        .repository("repo")
        .dev_branch("dev")
        .target_branch("main")
        .merge_version("v1.0.0")
        .work_item_state("Done")
        .tag_prefix("merged-")
        .try_build();

    assert!(result.is_err());
    assert!(result.unwrap_err().contains("repo_path"));
}

#[test]
fn test_builder_default_values() {
    let builder = MergeStateFileBuilder::new();

    assert!(builder.repo_path.is_none());
    assert!(builder.base_repo_path.is_none());
    assert!(!builder.is_worktree);
    assert!(!builder.run_hooks);
}

#[test]
fn test_builder_fluent_chain() {
    let _state = MergeStateFileBuilder::new()
        .repo_path("/test")
        .organization("org")
        .project("proj")
        .repository("repo")
        .dev_branch("dev")
        .target_branch("main")
        .merge_version("v1.0.0")
        .work_item_state("Done")
        .tag_prefix("merged-")
        .is_worktree(false)
        .run_hooks(false)
        .build();
}

#[test]
fn new_state_is_fresh() {
    let state = new_state();
    assert_eq!(state.phase, MergePhase::Loading);
    assert_eq!(state.current_index, 0);
    assert!(state.cherry_pick_items.is_empty());
    assert!(state.conflicted_files.is_none());
    assert!(state.completed_at.is_none());
    assert!(state.final_status.is_none());
    assert_eq!(state.created_at, state.updated_at);
    assert!(state.validate().is_ok());
}

#[test]
fn validation_reports_each_problem() {
    let mut s = new_state();
    s.schema_version = 2;
    assert_eq!(
        s.validate().unwrap_err(),
        "Unsupported schema version: 2 (expected 1). The state file may have been created by a different version of mergers."
    );

    let mut s = new_state();
    s.organization = String::new();
    assert_eq!(s.validate().unwrap_err(), "State file corrupted: missing required field 'organization'");

    let mut s = new_state();
    s.cherry_pick_items = vec![item("a", 1, StateItemStatus::Pending)];
    s.current_index = 3;
    assert_eq!(s.validate().unwrap_err(), "State file corrupted: current_index (3) exceeds cherry_pick_items count (1)");

    let mut s = new_state();
    s.phase = MergePhase::AwaitingConflictResolution;
    assert_eq!(
        s.validate().unwrap_err(),
        "State file corrupted: phase is 'AwaitingConflictResolution' but no conflicted_files recorded"
    );
}

#[test]
fn completion_marks_the_state() {
    let mut s = new_state();
    s.mark_completed_in_memory(MergeStatus::PartialSuccess);
    assert_eq!(s.phase, MergePhase::Completed);
    assert_eq!(s.final_status, Some(MergeStatus::PartialSuccess));
    assert!(s.completed_at.is_some());
}

#[test]
fn state_and_lock_files_are_named_by_the_hash() {
    let hash = compute_repo_hash("/repo");
    assert!(hash.chars().all(|c| c.is_ascii_hexdigit()));
    assert_eq!(state_file_name_for("/repo"), format!("merge-{}.json", hash));
    assert_eq!(lock_file_name_for("/repo"), format!("merge-{}.lock", hash));
    assert_ne!(state_file_name_for("/repo"), lock_file_name_for("/repo"));
}

#[test]
fn hex_encoding_of_bytes() {
    assert_eq!(encode(&[0x00, 0xff, 0x1a]), "00ff1a");
    assert_eq!(encode(&[]), "");
}

#[test]
fn clock_readings_convert_to_signed_millis() {
    assert_eq!(millis_from_clock(Ok(5)), 5);
    assert_eq!(millis_from_clock(Err(7)), -7);
    assert_eq!(millis_from_clock(Ok(0)), 0);
    assert_eq!(millis_from_clock(Ok(u128::MAX)), i64::MAX);
    assert_eq!(millis_from_clock(Err(u128::MAX)), -i64::MAX);
}
