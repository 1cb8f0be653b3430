use mergers::runner::traits::RunResult;
use mergers::ExitCode;

#[test]
fn test_run_result_constructors() {
    let success = RunResult::success();
    assert!(success.is_success());
    assert!(success.message.is_none());

    let with_msg = RunResult::success_with_message("Done");
    assert!(with_msg.is_success());
    assert_eq!(with_msg.message.as_deref(), Some("Done"));

    let error = RunResult::error(ExitCode::GeneralError, "Failed");
    assert!(!error.is_success());
    assert_eq!(error.exit_code, ExitCode::GeneralError);

    let conflict = RunResult::conflict("/tmp/state.json".to_string());
    assert!(conflict.is_conflict());
    assert!(conflict.state_file_path.is_some());

    let partial = RunResult::partial_success("Some failed");
    assert_eq!(partial.exit_code, ExitCode::PartialSuccess);
}

#[test]
fn traits_test_run_result_with_state_file() {
    let result = RunResult::success().with_state_file("/tmp/state.json".to_string());
    assert!(result.is_success());
    assert_eq!(result.state_file_path, Some("/tmp/state.json".to_string()));
}

#[test]
fn conflict_result_message() {
    let conflict = RunResult::conflict("/s".to_string());
    assert_eq!(conflict.exit_code, ExitCode::Conflict);
    assert_eq!(conflict.message.as_deref(), Some("Conflict detected - resolve and run 'merge continue'"));
}
