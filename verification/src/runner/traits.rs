//! Configuration and results of the merge runners.

use vstd::prelude::*;
use crate::exit_code::ExitCode;
use crate::models::OutputFormat;
use crate::operations::hooks::HooksConfig;

verus! {

/// Configuration of a merge run.
#[derive(Debug, Clone)]
pub struct MergeRunnerConfig {
    pub organization: String,
    pub project: String,
    pub repository: String,
    pub pat: String,
    pub dev_branch: String,
    pub target_branch: String,
    pub version: String,
    pub tag_prefix: String,
    pub work_item_state: String,
    pub select_by_states: Option<String>,
    pub local_repo: Option<String>,
    pub run_hooks: bool,
    pub output_format: OutputFormat,
    pub quiet: bool,
    pub hooks_config: Option<HooksConfig>,
    pub max_concurrent_network: usize,
    pub max_concurrent_processing: usize,
    pub since: Option<String>,
}

/// The result of a runner command.
#[derive(Debug)]
pub struct RunResult {
    pub exit_code: ExitCode,
    pub message: Option<String>,
    pub state_file_path: Option<String>,
}

/// The message of a conflict result.
pub open spec fn conflict_message() -> Seq<char> {
    "Conflict detected - resolve and run 'merge continue'"@
}

/// The view of an optional string.
pub open spec fn opt_str(o: Option<String>) -> Option<Seq<char>> {
    match o {
        Some(s) => Some(s@),
        None => None,
    }
}

impl RunResult {
    /// Success without a message.
    pub fn success() -> (r: Self)
        ensures
            r.exit_code == ExitCode::Success,
            r.message is None,
            r.state_file_path is None,
    {
        RunResult { exit_code: ExitCode::Success, message: None, state_file_path: None }
    }

    /// Success with a message.
    pub fn success_with_message(message: &str) -> (r: Self)
        ensures
            r.exit_code == ExitCode::Success,
            opt_str(r.message) == Some(message@),
            r.state_file_path is None,
    {
        RunResult { exit_code: ExitCode::Success, message: Some(message.to_owned()), state_file_path: None }
    }

    /// An error with a code and a message.
    pub fn error(code: ExitCode, message: &str) -> (r: Self)
        ensures
            r.exit_code == code,
            opt_str(r.message) == Some(message@),
            r.state_file_path is None,
    {
        RunResult { exit_code: code, message: Some(message.to_owned()), state_file_path: None }
    }

    /// A conflict, with the state file to resume from.
    pub fn conflict(state_file_path: String) -> (r: Self)
        ensures
            r.exit_code == ExitCode::Conflict,
            opt_str(r.message) == Some(conflict_message()),
            r.state_file_path == Some(state_file_path),
    {
        RunResult {
            exit_code: ExitCode::Conflict,
            message: Some("Conflict detected - resolve and run 'merge continue'".to_owned()),
            state_file_path: Some(state_file_path),
        }
    }

    /// A partial success with a message.
    pub fn partial_success(message: &str) -> (r: Self)
        ensures
            r.exit_code == ExitCode::PartialSuccess,
            opt_str(r.message) == Some(message@),
            r.state_file_path is None,
    {
        RunResult { exit_code: ExitCode::PartialSuccess, message: Some(message.to_owned()), state_file_path: None }
    }

    /// The same result with a state file path.
    pub fn with_state_file(self, path: String) -> (r: Self)
        ensures
            r.exit_code == self.exit_code,
            r.message == self.message,
            r.state_file_path == Some(path),
    {
        RunResult { state_file_path: Some(path), ..self }
    }

    /// Whether the result is a success.
    pub fn is_success(&self) -> (r: bool)
        ensures
            r == (self.exit_code == ExitCode::Success),
    {
        self.exit_code == ExitCode::Success
    }

    /// Whether the result is a conflict.
    pub fn is_conflict(&self) -> (r: bool)
        ensures
            r == (self.exit_code == ExitCode::Conflict),
    {
        self.exit_code == ExitCode::Conflict
    }
}

} // verus!
