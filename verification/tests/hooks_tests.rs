use mergers::operations::hooks::{
    HookCommandResult, HookContext, HookExecutionMode, HookExecutor, HookFailureMode, HookOutcome, HookProgress,
    HookResult, HookTrigger, HookTriggerConfig, HooksConfig,
};

fn cmd_result(command: &str, success: bool, exit_code: Option<i32>, stderr: &str) -> HookCommandResult {
    HookCommandResult {
        command: command.to_string(),
        success,
        exit_code,
        stdout: String::new(),
        stderr: stderr.to_string(),
    }
}

#[test]
fn test_hook_trigger_config_keys() {
    assert_eq!(HookTrigger::PostCheckout.config_key(), "post_checkout");
    assert_eq!(HookTrigger::PreCherryPick.config_key(), "pre_cherry_pick");
    assert_eq!(HookTrigger::PostCherryPick.config_key(), "post_cherry_pick");
    assert_eq!(HookTrigger::PostMerge.config_key(), "post_merge");
    assert_eq!(HookTrigger::OnConflict.config_key(), "on_conflict");
    assert_eq!(HookTrigger::PostComplete.config_key(), "post_complete");
}

#[test]
fn test_hook_trigger_descriptions() {
    assert!(!HookTrigger::PostCheckout.description().is_empty());
    assert!(!HookTrigger::PreCherryPick.description().is_empty());
    assert!(!HookTrigger::PostCherryPick.description().is_empty());
    assert!(!HookTrigger::PostMerge.description().is_empty());
    assert!(!HookTrigger::OnConflict.description().is_empty());
    assert!(!HookTrigger::PostComplete.description().is_empty());
}

#[test]
fn test_hooks_config_default() {
    let config = HooksConfig::default();
    assert!(!config.post_checkout.has_commands());
    assert!(!config.pre_cherry_pick.has_commands());
    assert!(!config.post_cherry_pick.has_commands());
    assert!(!config.post_merge.has_commands());
    assert!(!config.on_conflict.has_commands());
    assert!(!config.post_complete.has_commands());
    assert!(!config.has_hooks());
}

#[test]
fn test_hooks_config_has_hooks() {
    let config = HooksConfig::default();
    assert!(!config.has_hooks());

    let config_with_hooks = HooksConfig {
        post_merge: HookTriggerConfig::from_commands(vec!["echo test".to_string()]),
        ..Default::default()
    };
    assert!(config_with_hooks.has_hooks());
}

#[test]
fn test_hooks_config_has_hooks_for() {
    let config = HooksConfig {
        post_merge: HookTriggerConfig::from_commands(vec!["echo test".to_string()]),
        ..Default::default()
    };

    assert!(config.has_hooks_for(HookTrigger::PostMerge));
    assert!(!config.has_hooks_for(HookTrigger::PostCheckout));
    assert!(!config.has_hooks_for(HookTrigger::OnConflict));
}

#[test]
fn test_hooks_config_commands_for() {
    let config = HooksConfig::from_simple(
        vec!["echo checkout".to_string()],
        vec!["echo pre".to_string()],
        vec!["echo post".to_string()],
        vec!["echo merge1".to_string(), "echo merge2".to_string()],
        vec!["echo conflict".to_string()],
        vec!["echo complete".to_string()],
    );

    assert_eq!(config.commands_for(HookTrigger::PostCheckout).len(), 1);
    assert_eq!(config.commands_for(HookTrigger::PostMerge).len(), 2);
}

#[test]
fn test_hooks_config_merge() {
    let base = HooksConfig {
        post_merge: HookTriggerConfig::from_commands(vec!["base cmd".to_string()]),
        on_conflict: HookTriggerConfig::from_commands(vec!["base conflict".to_string()]),
        ..Default::default()
    };

    let other = HooksConfig {
        post_merge: HookTriggerConfig::from_commands(vec!["other cmd".to_string()]),
        post_complete: HookTriggerConfig::from_commands(vec!["other complete".to_string()]),
        ..Default::default()
    };

    let merged = base.merge(other);

    assert_eq!(merged.post_merge.commands, vec!["other cmd".to_string()]);
    assert_eq!(merged.on_conflict.commands, vec!["base conflict".to_string()]);
    assert_eq!(merged.post_complete.commands, vec!["other complete".to_string()]);
}

#[test]
fn test_hook_context_builder() {
    let context = HookContext::new()
        .with_version("v1.0.0")
        .with_target_branch("main")
        .with_dev_branch("dev")
        .with_repo_path("/path/to/repo")
        .with_pr_id(42)
        .with_commit_id("abc123");

    assert_eq!(context.version, Some("v1.0.0".to_string()));
    assert_eq!(context.target_branch, Some("main".to_string()));
    assert_eq!(context.dev_branch, Some("dev".to_string()));
    assert_eq!(context.repo_path, Some("/path/to/repo".to_string()));
    assert_eq!(context.pr_id, Some(42));
    assert_eq!(context.commit_id, Some("abc123".to_string()));
}

#[test]
fn test_hook_context_to_env_vars() {
    let context = HookContext::new().with_version("v1.0.0").with_target_branch("main").with_pr_id(42);

    let vars = context.to_env_vars();

    assert_eq!(vars.get("MERGERS_VERSION"), Some(&"v1.0.0".to_string()));
    assert_eq!(vars.get("MERGERS_TARGET_BRANCH"), Some(&"main".to_string()));
    assert_eq!(vars.get("MERGERS_PR_ID"), Some(&"42".to_string()));
    assert!(!vars.contains_key("MERGERS_DEV_BRANCH"));
}

#[test]
fn test_hook_result_first_failure() {
    let result = HookResult {
        trigger: HookTrigger::PostMerge,
        command_results: vec![cmd_result("echo ok", true, Some(0), ""), cmd_result("exit 1", false, Some(1), "error")],
        all_succeeded: false,
    };

    let failure = result.first_failure();
    assert!(failure.is_some());
    assert_eq!(failure.unwrap().command, "exit 1");
}

#[test]
fn test_hook_progress_variants() {
    let _p1 = HookProgress::Starting { trigger: HookTrigger::PostMerge, command_count: 2 };
    let _p2 = HookProgress::CommandStarting {
        trigger: HookTrigger::PostMerge,
        command: "echo test".to_string(),
        index: 0,
    };
    let _p3 = HookProgress::CommandCompleted {
        trigger: HookTrigger::PostMerge,
        command: "echo test".to_string(),
        success: true,
        index: 0,
    };
    let _p4 = HookProgress::Completed { trigger: HookTrigger::PostMerge, all_succeeded: true };
}

#[test]
fn test_hook_trigger_default_failure_mode() {
    assert_eq!(HookTrigger::PostCheckout.default_failure_mode(), HookFailureMode::Abort);
    assert_eq!(HookTrigger::PreCherryPick.default_failure_mode(), HookFailureMode::Abort);
    assert_eq!(HookTrigger::PostCherryPick.default_failure_mode(), HookFailureMode::Continue);
    assert_eq!(HookTrigger::PostMerge.default_failure_mode(), HookFailureMode::Continue);
    assert_eq!(HookTrigger::OnConflict.default_failure_mode(), HookFailureMode::Continue);
    assert_eq!(HookTrigger::PostComplete.default_failure_mode(), HookFailureMode::Continue);
}

#[test]
fn test_hook_trigger_from_config_key() {
    assert_eq!(HookTrigger::from_config_key("post_checkout"), Some(HookTrigger::PostCheckout));
    assert_eq!(HookTrigger::from_config_key("pre_cherry_pick"), Some(HookTrigger::PreCherryPick));
    assert_eq!(HookTrigger::from_config_key("invalid"), None);
}

#[test]
fn test_hook_outcome_methods() {
    assert!(!HookOutcome::Success.should_abort());
    assert!(HookOutcome::Success.is_success());
    assert!(!HookOutcome::Async.should_abort());
    assert!(HookOutcome::Async.is_success());

    let continued = HookOutcome::ContinuedAfterFailure {
        trigger: HookTrigger::PostMerge,
        command: "test".to_string(),
        error: "error".to_string(),
    };
    assert!(!continued.should_abort());
    assert!(!continued.is_success());

    let abort = HookOutcome::Abort {
        trigger: HookTrigger::PreCherryPick,
        command: "test".to_string(),
        error: "error".to_string(),
    };
    assert!(abort.should_abort());
    assert!(!abort.is_success());
}

#[test]
fn config_key_round_trip_for_every_trigger() {
    for t in [
        HookTrigger::PostCheckout,
        HookTrigger::PreCherryPick,
        HookTrigger::PostCherryPick,
        HookTrigger::PostMerge,
        HookTrigger::OnConflict,
        HookTrigger::PostComplete,
    ] {
        assert_eq!(HookTrigger::from_config_key(t.config_key()), Some(t));
    }
}

#[test]
fn executor_with_no_commands_succeeds_before_running() {
    let executor = HookExecutor::new(HooksConfig::default());
    assert!(matches!(executor.outcome_before_run(HookTrigger::PostMerge), Some(HookOutcome::Success)));
    assert_eq!(executor.next_command(HookTrigger::PostMerge, &[]), None);
}

#[test]
fn executor_reports_async_runs() {
    let config = HooksConfig {
        post_merge: HookTriggerConfig {
            commands: vec!["sleep 1".to_string()],
            on_failure: None,
            execution: HookExecutionMode::Async,
            timeout_secs: 300,
        },
        ..Default::default()
    };
    let executor = HookExecutor::new(config);
    assert!(matches!(executor.outcome_before_run(HookTrigger::PostMerge), Some(HookOutcome::Async)));
}

#[test]
fn executor_runs_commands_in_order_and_stops_on_failure() {
    let config = HooksConfig {
        post_merge: HookTriggerConfig::from_commands(vec!["exit 1".to_string(), "echo should_not_run".to_string()]),
        ..Default::default()
    };
    let executor = HookExecutor::new(config);
    assert!(executor.outcome_before_run(HookTrigger::PostMerge).is_none());
    assert_eq!(executor.next_command(HookTrigger::PostMerge, &[]), Some("exit 1".to_string()));
    let done = vec![cmd_result("exit 1", false, Some(1), "")];
    assert_eq!(executor.next_command(HookTrigger::PostMerge, &done), None);

    let result = executor.finish(HookTrigger::PostMerge, done);
    assert!(!result.all_succeeded);
    assert_eq!(result.command_results.len(), 1);
    match executor.outcome_of(HookTrigger::PostMerge, &result) {
        HookOutcome::ContinuedAfterFailure { command, error, .. } => {
            assert_eq!(command, "exit 1");
            assert_eq!(error, "Command failed with exit code Some(1)");
        },
        other => panic!("unexpected outcome {:?}", other),
    }
}

#[test]
fn executor_abort_mode_aborts_with_stderr() {
    let config = HooksConfig {
        pre_cherry_pick: HookTriggerConfig {
            commands: vec!["exit 1".to_string()],
            on_failure: Some(HookFailureMode::Abort),
            ..Default::default()
        },
        ..Default::default()
    };
    let executor = HookExecutor::new(config);
    let result = executor.finish(HookTrigger::PreCherryPick, vec![cmd_result("exit 1", false, Some(1), "boom")]);
    let outcome = executor.outcome_of(HookTrigger::PreCherryPick, &result);
    assert!(outcome.should_abort());
    if let HookOutcome::Abort { command, error, .. } = outcome {
        assert_eq!(command, "exit 1");
        assert_eq!(error, "boom");
    } else {
        panic!("Expected Abort outcome");
    }
}

#[test]
fn merge_with_empty_keeps_base() {
    let base = HooksConfig::from_simple(vec!["a".to_string()], vec![], vec![], vec!["b".to_string()], vec![], vec![]);
    let merged = base.clone().merge(HooksConfig::default());
    assert_eq!(merged.post_checkout.commands, vec!["a".to_string()]);
    assert_eq!(merged.post_merge.commands, vec!["b".to_string()]);
    assert!(!merged.on_conflict.has_commands());
}

#[test]
fn test_trigger_config_from_fields() {
    let full = HookTriggerConfig::from_fields(
        Some(vec!["make".to_string()]),
        Some(HookFailureMode::Abort),
        Some(HookExecutionMode::Async),
        Some(5),
    );
    assert_eq!(full.commands, vec!["make".to_string()]);
    assert_eq!(full.on_failure, Some(HookFailureMode::Abort));
    assert_eq!(full.execution, HookExecutionMode::Async);
    assert_eq!(full.timeout_secs, 5);
    let empty = HookTriggerConfig::from_fields(None, None, None, None);
    assert!(empty.commands.is_empty());
    assert_eq!(empty.on_failure, None);
    assert_eq!(empty.execution, HookExecutionMode::Blocking);
    assert_eq!(empty.timeout_secs, 300);
}

#[test]
fn test_trigger_config_new_uses_default_timeout() {
    let c = HookTriggerConfig::new();
    assert!(c.commands.is_empty());
    assert_eq!(c.on_failure, None);
    assert_eq!(c.execution, HookExecutionMode::Blocking);
    assert_eq!(c.timeout_secs, 300);
    assert!(!c.has_commands());
    let all = HooksConfig::new();
    assert_eq!(all.config_for(HookTrigger::PostMerge).timeout_secs, 300);
}

#[test]
fn test_progress_events_stop_on_failure() {
    let mut config = HooksConfig::new();
    config.pre_cherry_pick = HookTriggerConfig::from_commands(vec![
        "echo first".to_string(),
        "exit 1".to_string(),
        "echo third".to_string(),
    ]);
    let executor = HookExecutor::new(config);
    let results = vec![cmd_result("echo first", true, Some(0), ""), cmd_result("exit 1", false, Some(1), "")];
    let events = executor.progress_events(HookTrigger::PreCherryPick, &results);
    assert_eq!(events.len(), 6);
    assert!(matches!(events[0], HookProgress::Starting { trigger: HookTrigger::PreCherryPick, command_count: 3 }));
    assert!(matches!(&events[1], HookProgress::CommandStarting { command, index: 0, .. } if command == "echo first"));
    assert!(matches!(&events[2], HookProgress::CommandCompleted { success: true, index: 0, .. }));
    assert!(matches!(&events[3], HookProgress::CommandStarting { command, index: 1, .. } if command == "exit 1"));
    assert!(matches!(&events[4], HookProgress::CommandCompleted { success: false, index: 1, .. }));
    assert!(matches!(events[5], HookProgress::Completed { all_succeeded: false, .. }));
    assert!(executor.progress_events(HookTrigger::PostMerge, &[]).is_empty());
}
