use std::collections::HashMap;
use std::sync::{Arc, Mutex};

use mergers::runner::non_interactive::LockAttempt;
use mergers::state::file::{MergePhase, MergeStateFile, MergeStatus, StateCherryPickItem, StateItemStatus};
use mergers::state::manager::{StateCreateConfig, StateManager};

fn create_test_config() -> StateCreateConfig {
    StateCreateConfig {
        organization: "test-org".to_string(),
        project: "test-project".to_string(),
        repository: "test-repo".to_string(),
        dev_branch: "develop".to_string(),
        target_branch: "main".to_string(),
        tag_prefix: "merged/".to_string(),
        work_item_state: "Next Merged".to_string(),
        run_hooks: false,
    }
}

fn item(pr_id: i32) -> StateCherryPickItem {
    StateCherryPickItem {
        commit_id: format!("c{}", pr_id),
        pr_id,
        pr_title: format!("PR {}", pr_id),
        status: StateItemStatus::Pending,
        work_item_ids: vec![],
    }
}

fn created_manager() -> StateManager {
    let mut manager = StateManager::new();
    let path = manager
        .create_state_file(LockAttempt::Acquired, "/tmp/repo".to_string(), None, false, "v1.0.0", &create_test_config())
        .unwrap();
    assert_eq!(path, "/tmp/repo");
    manager.record_created(true);
    manager
}

#[test]
fn test_state_manager_new() {
    let manager = StateManager::new();
    assert!(manager.state_file().is_none());
    assert!(manager.state_repo_path().is_none());
}

#[test]
fn test_state_manager_default() {
    let manager = StateManager::default();
    assert!(manager.state_file().is_none());
}

#[test]
fn test_update_phase_no_state() {
    let mut manager = StateManager::new();
    let result = manager.update_phase(MergePhase::CherryPicking);
    assert!(result.is_none());
}

#[test]
fn test_thread_safety() {
    let manager = Arc::new(Mutex::new(StateManager::new()));
    {
        let mgr = manager.lock().unwrap();
        assert!(mgr.state_file().is_none());
    }
    {
        let mgr = manager.lock().unwrap();
        assert!(mgr.state_repo_path().is_none());
    }
}

#[test]
fn test_set_state_file() {
    let mut manager = StateManager::new();

    let state_file = MergeStateFile::builder()
        .repo_path("/tmp/repo")
        .organization("org")
        .project("proj")
        .repository("repo")
        .dev_branch("dev")
        .target_branch("main")
        .merge_version("v1.0.0")
        .work_item_state("Done")
        .tag_prefix("merged/")
        .build();

    manager.set_state_file(state_file);

    assert!(manager.state_file().is_some());
    assert_eq!(manager.state_file().unwrap().organization, "org");
}

#[test]
fn test_set_final_status_no_state() {
    let mut manager = StateManager::new();
    let result = manager.set_final_status(MergeStatus::Success);
    assert!(result.is_none());
}

#[test]
fn test_save_no_state() {
    let manager = StateManager::new();
    let result = manager.save();
    assert!(result.is_none());
}

#[test]
fn test_manager_create_state_file_records_settings() {
    let manager = created_manager();
    assert!(manager.has_state_file());
    assert!(manager.has_lock());
    assert_eq!(manager.state_repo_path(), Some("/tmp/repo"));
    let state = manager.state_file().unwrap();
    assert_eq!(state.organization, "test-org");
    assert_eq!(state.project, "test-project");
    assert_eq!(state.merge_version, "v1.0.0");
    assert_eq!(state.tag_prefix, "merged/");
    assert!(!state.run_hooks);
    assert_eq!(state.phase, MergePhase::Loading);
    assert_eq!(manager.save(), Some("/tmp/repo".to_string()));
}

#[test]
fn test_manager_create_state_file_lock_errors() {
    let mut manager = StateManager::new();
    let held = manager.create_state_file(LockAttempt::Held, "/r".to_string(), None, false, "v1", &create_test_config());
    assert_eq!(held, Err("Another merge operation is in progress for this repository".to_string()));
    let failed = manager.create_state_file(
        LockAttempt::Failed("disk full".to_string()),
        "/r".to_string(),
        None,
        false,
        "v1",
        &create_test_config(),
    );
    assert_eq!(failed, Err("Failed to acquire lock: disk full".to_string()));
    assert!(!manager.has_state_file());
    assert!(!manager.has_lock());
}

#[test]
fn test_manager_failed_save_drops_state() {
    let mut manager = StateManager::new();
    manager
        .create_state_file(LockAttempt::Acquired, "/r".to_string(), Some("/base".to_string()), true, "v2", &create_test_config())
        .unwrap();
    assert_eq!(manager.state_file().unwrap().base_repo_path, Some("/base".to_string()));
    manager.record_created(false);
    assert!(!manager.has_state_file());
    assert!(!manager.has_lock());
}

#[test]
fn test_manager_item_updates() {
    let mut manager = created_manager();
    assert_eq!(manager.populate_items(vec![item(1), item(2)]), Some("/tmp/repo".to_string()));
    assert_eq!(manager.state_file().unwrap().phase, MergePhase::CherryPicking);

    manager.update_item_status(1, StateItemStatus::Success, 2);
    let state = manager.state_file().unwrap();
    assert!(matches!(state.cherry_pick_items[1].status, StateItemStatus::Success));
    assert!(matches!(state.cherry_pick_items[0].status, StateItemStatus::Pending));
    assert_eq!(state.current_index, 2);

    // An index past the end changes no item but still sets the index.
    manager.update_item_status(9, StateItemStatus::Failed { message: "x".to_string() }, 1);
    assert_eq!(manager.state_file().unwrap().current_index, 1);
    assert_eq!(manager.state_file().unwrap().cherry_pick_items.len(), 2);

    manager.sync_current_index(0);
    assert_eq!(manager.state_file().unwrap().current_index, 0);

    manager.update_phase(MergePhase::AwaitingConflictResolution);
    manager.set_conflicted_files(vec!["a.rs".to_string()]);
    assert_eq!(manager.state_file().unwrap().conflicted_files, Some(vec!["a.rs".to_string()]));
    manager.clear_conflicted_files();
    assert_eq!(manager.state_file().unwrap().conflicted_files, None);
}

#[test]
fn test_manager_set_cherry_pick_items_takes_work_items() {
    let mut manager = created_manager();
    let mut map = HashMap::new();
    map.insert(1, vec![10, 11]);
    manager.set_cherry_pick_items(vec![item(1), item(2)], &map, 1);
    let state = manager.state_file().unwrap();
    assert_eq!(state.cherry_pick_items[0].work_item_ids, vec![10, 11]);
    assert!(state.cherry_pick_items[1].work_item_ids.is_empty());
    assert_eq!(state.cherry_pick_items[1].commit_id, "c2");
    assert_eq!(state.current_index, 1);
}

#[test]
fn test_manager_final_status_and_cleanup() {
    let mut manager = created_manager();
    manager.set_final_status(MergeStatus::PartialSuccess);
    let state = manager.state_file().unwrap();
    assert_eq!(state.final_status, Some(MergeStatus::PartialSuccess));
    assert!(state.completed_at.is_some());

    assert_eq!(manager.cleanup(), Some("/tmp/repo".to_string()));
    assert!(!manager.has_state_file());
    assert!(!manager.has_lock());
    assert_eq!(manager.cleanup(), None);
}
