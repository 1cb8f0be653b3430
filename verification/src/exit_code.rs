//! Exit codes of the non-interactive commands.

use vstd::prelude::*;

verus! {

/// Exit codes for non-interactive merge operations, meant for CI systems.
#[derive(Debug, Clone, Copy, PartialEq, Eq, Structural)]
pub enum ExitCode {
    /// All operations completed successfully.
    Success,
    /// General error (configuration, network, git, etc.).
    GeneralError,
    /// Conflict detected - user must resolve and run 'continue'.
    Conflict,
    /// Some PRs succeeded, some failed/skipped.
    PartialSuccess,
    /// No state file found for the repository.
    NoStateFile,
    /// State file exists but operation not valid for current phase.
    InvalidPhase,
    /// No PRs matched selection criteria.
    NoPRsMatched,
    /// Another merge is in progress (locked).
    Locked,
    /// A hook configured to abort on failure failed.
    HookFailed,
}

/// The numeric value of each exit code.
pub open spec fn exit_code_value(c: ExitCode) -> u8 {
    match c {
        ExitCode::Success => 0,
        ExitCode::GeneralError => 1,
        ExitCode::Conflict => 2,
        ExitCode::PartialSuccess => 3,
        ExitCode::NoStateFile => 4,
        ExitCode::InvalidPhase => 5,
        ExitCode::NoPRsMatched => 6,
        ExitCode::Locked => 7,
        ExitCode::HookFailed => 8,
    }
}

/// The human-readable description of each exit code.
pub open spec fn exit_code_description(c: ExitCode) -> Seq<char> {
    match c {
        ExitCode::Success => "All operations completed successfully"@,
        ExitCode::GeneralError => "General error occurred"@,
        ExitCode::Conflict => "Conflict detected - resolve and run 'continue'"@,
        ExitCode::PartialSuccess => "Some operations succeeded, some failed or were skipped"@,
        ExitCode::NoStateFile => "No state file found for this repository"@,
        ExitCode::InvalidPhase => "Operation not valid for current merge phase"@,
        ExitCode::NoPRsMatched => "No pull requests matched the selection criteria"@,
        ExitCode::Locked => "Another merge operation is in progress"@,
        ExitCode::HookFailed => "A hook command failed and aborted the operation"@,
    }
}

impl ExitCode {
    /// Returns the numeric exit code value.
    pub fn code(self) -> (r: u8)
        ensures
            r == exit_code_value(self),
    {
        match self {
            ExitCode::Success => 0,
            ExitCode::GeneralError => 1,
            ExitCode::Conflict => 2,
            ExitCode::PartialSuccess => 3,
            ExitCode::NoStateFile => 4,
            ExitCode::InvalidPhase => 5,
            ExitCode::NoPRsMatched => 6,
            ExitCode::Locked => 7,
            ExitCode::HookFailed => 8,
        }
    }

    /// Returns a human-readable description of the exit code.
    pub fn description(self) -> (r: &'static str)
        ensures
            r@ == exit_code_description(self),
    {
        match self {
            ExitCode::Success => "All operations completed successfully",
            ExitCode::GeneralError => "General error occurred",
            ExitCode::Conflict => "Conflict detected - resolve and run 'continue'",
            ExitCode::PartialSuccess => "Some operations succeeded, some failed or were skipped",
            ExitCode::NoStateFile => "No state file found for this repository",
            ExitCode::InvalidPhase => "Operation not valid for current merge phase",
            ExitCode::NoPRsMatched => "No pull requests matched the selection criteria",
            ExitCode::Locked => "Another merge operation is in progress",
            ExitCode::HookFailed => "A hook command failed and aborted the operation",
        }
    }

    /// The displayed form of an exit code: its description.
    pub fn display_string(self) -> (r: String)
        ensures
            r@ == exit_code_description(self),
    {
        self.description().to_owned()
    }
}

/// Distinct exit codes have distinct numeric values.
pub proof fn lemma_exit_code_values_distinct(a: ExitCode, b: ExitCode)
    ensures
        exit_code_value(a) == exit_code_value(b) <==> a == b,
{
}

} // verus!
