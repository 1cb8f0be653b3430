//! The error kinds of the library and their messages.
//!
//! Paths are held as strings; an error from an outside library is held as
//! its message.

use vstd::prelude::*;
use crate::text::{concat2, decimal_int, decimal_nat, i32_to_decimal, u64_to_decimal, usize_to_decimal};

verus! {

/// Errors from the Azure DevOps API.
#[derive(Debug)]
pub enum ApiError {
    /// The request was unauthorized (401).
    Unauthorized,
    /// A resource was not found (404).
    NotFound { resource: String },
    /// The rate limit was exceeded (429).
    RateLimited { retry_after_seconds: u64 },
    /// The API answered with an error status.
    RequestFailed { status: u16, message: String },
    /// The response could not be parsed.
    ParseError { message: String },
    /// A network error, by its message.
    Network(String),
    /// A pull request has no merge commit.
    NoMergeCommit { pr_id: i32 },
    /// Too many pagination requests.
    PaginationLimitExceeded { max: usize, retrieved: usize },
}

/// The message of an API error.
pub open spec fn api_error_text(e: ApiError) -> Seq<char> {
    match e {
        ApiError::Unauthorized => "Unauthorized: invalid or expired Personal Access Token"@,
        ApiError::NotFound { resource } => "Resource not found: "@ + resource@,
        ApiError::RateLimited { retry_after_seconds } => "Rate limit exceeded, retry after "@ + decimal_nat(
            retry_after_seconds as nat,
        ) + " seconds"@,
        ApiError::RequestFailed { status, message } => "API request failed with status "@ + decimal_nat(status as nat)
            + ": "@ + message@,
        ApiError::ParseError { message } => "Failed to parse API response: "@ + message@,
        ApiError::Network(m) => "Network error: "@ + m@,
        ApiError::NoMergeCommit { pr_id } => "Pull request "@ + decimal_int(pr_id as int) + " has no merge commit"@,
        ApiError::PaginationLimitExceeded { max, retrieved } => "Exceeded maximum requests ("@ + decimal_nat(max as nat)
            + ") while fetching data, retrieved "@ + decimal_nat(retrieved as nat) + " items"@,
    }
}

impl ApiError {
    /// The message of this error.
    pub fn message(&self) -> (r: String)
        ensures
            r@ == api_error_text(*self),
    {
        match self {
            ApiError::Unauthorized => "Unauthorized: invalid or expired Personal Access Token".to_owned(),
            ApiError::NotFound { resource } => concat2("Resource not found: ", resource.as_str()),
            ApiError::RateLimited { retry_after_seconds } => {
                let mut s = "Rate limit exceeded, retry after ".to_owned();
                s.append(u64_to_decimal(*retry_after_seconds).as_str());
                s.append(" seconds");
                s
            },
            ApiError::RequestFailed { status, message } => {
                let mut s = "API request failed with status ".to_owned();
                s.append(u64_to_decimal(*status as u64).as_str());
                s.append(": ");
                s.append(message.as_str());
                s
            },
            ApiError::ParseError { message } => concat2("Failed to parse API response: ", message.as_str()),
            ApiError::Network(m) => concat2("Network error: ", m.as_str()),
            ApiError::NoMergeCommit { pr_id } => {
                let mut s = "Pull request ".to_owned();
                s.append(i32_to_decimal(*pr_id).as_str());
                s.append(" has no merge commit");
                s
            },
            ApiError::PaginationLimitExceeded { max, retrieved } => {
                let mut s = "Exceeded maximum requests (".to_owned();
                s.append(usize_to_decimal(*max).as_str());
                s.append(") while fetching data, retrieved ");
                s.append(usize_to_decimal(*retrieved).as_str());
                s.append(" items");
                s
            },
        }
    }
}

/// Errors from git operations.
#[derive(Debug, Clone)]
pub enum GitError {
    /// The branch already exists.
    BranchExists { branch: String },
    /// A worktree already exists at the path.
    WorktreeExists { path: String },
    /// The path is not a git repository.
    NotARepository { path: String },
    /// The repository path does not exist.
    PathNotFound { path: String },
    /// Cloning failed.
    CloneFailed { message: String },
    /// A cherry-pick left conflicts in files.
    CherryPickConflict { file_count: usize, files: Vec<String> },
    /// A cherry-pick failed.
    CherryPickFailed { message: String },
    /// Fetching from the remote failed.
    FetchFailed { message: String },
    /// A git command failed.
    CommandFailed { command: String, message: String },
    /// A reference holds forbidden characters.
    InvalidReference { reference: String },
    /// Another git error.
    Other(String),
}

/// The message of a git error.
pub open spec fn git_error_text(e: GitError) -> Seq<char> {
    match e {
        GitError::BranchExists { branch } => "Branch '"@ + branch@ + "' already exists"@,
        GitError::WorktreeExists { path } => "Worktree already exists at path: "@ + path@,
        GitError::NotARepository { path } => "Not a valid git repository: "@ + path@,
        GitError::PathNotFound { path } => "Repository path does not exist: "@ + path@,
        GitError::CloneFailed { message } => "Failed to clone repository: "@ + message@,
        GitError::CherryPickConflict { file_count, .. } => "Cherry-pick conflict in "@ + decimal_nat(file_count as nat)
            + " file(s)"@,
        GitError::CherryPickFailed { message } => "Cherry-pick failed: "@ + message@,
        GitError::FetchFailed { message } => "Failed to fetch from remote: "@ + message@,
        GitError::CommandFailed { command, message } => "Git command failed: "@ + command@ + " - "@ + message@,
        GitError::InvalidReference { reference } => "Invalid git reference '"@ + reference@
            + "': contains forbidden characters"@,
        GitError::Other(m) => m@,
    }
}

impl GitError {
    /// The message of this error.
    pub fn message(&self) -> (r: String)
        ensures
            r@ == git_error_text(*self),
    {
        match self {
            GitError::BranchExists { branch } => {
                let mut s = "Branch '".to_owned();
                s.append(branch.as_str());
                s.append("' already exists");
                s
            },
            GitError::WorktreeExists { path } => concat2("Worktree already exists at path: ", path.as_str()),
            GitError::NotARepository { path } => concat2("Not a valid git repository: ", path.as_str()),
            GitError::PathNotFound { path } => concat2("Repository path does not exist: ", path.as_str()),
            GitError::CloneFailed { message } => concat2("Failed to clone repository: ", message.as_str()),
            GitError::CherryPickConflict { file_count, .. } => {
                let mut s = "Cherry-pick conflict in ".to_owned();
                s.append(usize_to_decimal(*file_count).as_str());
                s.append(" file(s)");
                s
            },
            GitError::CherryPickFailed { message } => concat2("Cherry-pick failed: ", message.as_str()),
            GitError::FetchFailed { message } => concat2("Failed to fetch from remote: ", message.as_str()),
            GitError::CommandFailed { command, message } => {
                let mut s = "Git command failed: ".to_owned();
                s.append(command.as_str());
                s.append(" - ");
                s.append(message.as_str());
                s
            },
            GitError::InvalidReference { reference } => {
                let mut s = "Invalid git reference '".to_owned();
                s.append(reference.as_str());
                s.append("': contains forbidden characters");
                s
            },
            GitError::Other(m) => m.clone(),
        }
    }
}

/// Errors from loading and validating configuration.
#[derive(Debug)]
pub enum ConfigError {
    /// A required field is missing.
    MissingRequired { field: String, env_var: String },
    /// The configuration file could not be read.
    FileReadError { path: String, message: String },
    /// The configuration file could not be parsed.
    ParseError { path: String, message: String },
    /// A field has an invalid value.
    InvalidValue { field: String, message: String },
    /// A date could not be parsed.
    DateParseError { input: String, message: String },
    /// The configuration directory could not be created.
    DirectoryCreationError { path: String, message: String },
}

/// The message of a configuration error.
pub open spec fn config_error_text(e: ConfigError) -> Seq<char> {
    match e {
        ConfigError::MissingRequired { field, env_var } => field@ + " is required (use --"@ + field@ + ", "@ + env_var@
            + " env var, or config file)"@,
        ConfigError::FileReadError { path, message } => "Failed to read config file at "@ + path@ + ": "@ + message@,
        ConfigError::ParseError { path, message } => "Failed to parse config file at "@ + path@ + ": "@ + message@,
        ConfigError::InvalidValue { field, message } => "Invalid value for "@ + field@ + ": "@ + message@,
        ConfigError::DateParseError { input, message } => "Failed to parse date '"@ + input@ + "': "@ + message@,
        ConfigError::DirectoryCreationError { path, message } => "Failed to create config directory at "@ + path@
            + ": "@ + message@,
    }
}

/// `prefix + a + middle + b`.
fn join4(prefix: &str, a: &str, middle: &str, b: &str) -> (r: String)
    ensures
        r@ == prefix@ + a@ + middle@ + b@,
{
    let mut s = prefix.to_owned();
    s.append(a);
    s.append(middle);
    s.append(b);
    s
}

impl ConfigError {
    /// The message of this error.
    pub fn message(&self) -> (r: String)
        ensures
            r@ == config_error_text(*self),
    {
        match self {
            ConfigError::MissingRequired { field, env_var } => {
                let mut s = field.clone();
                s.append(" is required (use --");
                s.append(field.as_str());
                s.append(", ");
                s.append(env_var.as_str());
                s.append(" env var, or config file)");
                s
            },
            ConfigError::FileReadError { path, message } => join4(
                "Failed to read config file at ",
                path.as_str(),
                ": ",
                message.as_str(),
            ),
            ConfigError::ParseError { path, message } => join4(
                "Failed to parse config file at ",
                path.as_str(),
                ": ",
                message.as_str(),
            ),
            ConfigError::InvalidValue { field, message } => join4(
                "Invalid value for ",
                field.as_str(),
                ": ",
                message.as_str(),
            ),
            ConfigError::DateParseError { input, message } => join4(
                "Failed to parse date '",
                input.as_str(),
                "': ",
                message.as_str(),
            ),
            ConfigError::DirectoryCreationError { path, message } => join4(
                "Failed to create config directory at ",
                path.as_str(),
                ": ",
                message.as_str(),
            ),
        }
    }
}

/// Errors of the terminal interface.
#[derive(Debug)]
pub enum UiError {
    /// The terminal could not be initialized.
    TerminalInitError(String),
    /// Rendering failed.
    RenderError(String),
    /// An I/O error, by its message.
    IoError(String),
    /// The user cancelled.
    Cancelled,
}

/// The message of an interface error.
pub open spec fn ui_error_text(e: UiError) -> Seq<char> {
    match e {
        UiError::TerminalInitError(m) => "Failed to initialize terminal: "@ + m@,
        UiError::RenderError(m) => "Failed to render UI: "@ + m@,
        UiError::IoError(m) => "I/O error: "@ + m@,
        UiError::Cancelled => "Operation cancelled by user"@,
    }
}

impl UiError {
    /// The message of this error.
    pub fn message(&self) -> (r: String)
        ensures
            r@ == ui_error_text(*self),
    {
        match self {
            UiError::TerminalInitError(m) => concat2("Failed to initialize terminal: ", m.as_str()),
            UiError::RenderError(m) => concat2("Failed to render UI: ", m.as_str()),
            UiError::IoError(m) => concat2("I/O error: ", m.as_str()),
            UiError::Cancelled => "Operation cancelled by user".to_owned(),
        }
    }
}

/// Any error of the library.
#[derive(Debug)]
pub enum MergersError {
    /// An API error.
    Api(ApiError),
    /// A git error.
    Git(GitError),
    /// A configuration error.
    Config(ConfigError),
    /// An interface error.
    Ui(UiError),
    /// Any other error, by its message.
    Other(String),
}

/// The message of an error of the library.
pub open spec fn mergers_error_text(e: MergersError) -> Seq<char> {
    match e {
        MergersError::Api(a) => "API error: "@ + api_error_text(a),
        MergersError::Git(g) => "Git error: "@ + git_error_text(g),
        MergersError::Config(c) => "Configuration error: "@ + config_error_text(c),
        MergersError::Ui(u) => "UI error: "@ + ui_error_text(u),
        MergersError::Other(m) => m@,
    }
}

impl MergersError {
    /// The message of this error.
    pub fn message(&self) -> (r: String)
        ensures
            r@ == mergers_error_text(*self),
    {
        match self {
            MergersError::Api(a) => concat2("API error: ", a.message().as_str()),
            MergersError::Git(g) => concat2("Git error: ", g.message().as_str()),
            MergersError::Config(c) => concat2("Configuration error: ", c.message().as_str()),
            MergersError::Ui(u) => concat2("UI error: ", u.message().as_str()),
            MergersError::Other(m) => m.clone(),
        }
    }
}

impl From<ApiError> for MergersError {
    fn from(e: ApiError) -> (r: Self) {
        MergersError::Api(e)
    }
}

impl vstd::std_specs::convert::FromSpecImpl<ApiError> for MergersError {
    open spec fn obeys_from_spec() -> bool {
        true
    }

    open spec fn from_spec(e: ApiError) -> Self {
        MergersError::Api(e)
    }
}

impl From<GitError> for MergersError {
    fn from(e: GitError) -> (r: Self) {
        MergersError::Git(e)
    }
}

impl vstd::std_specs::convert::FromSpecImpl<GitError> for MergersError {
    open spec fn obeys_from_spec() -> bool {
        true
    }

    open spec fn from_spec(e: GitError) -> Self {
        MergersError::Git(e)
    }
}

impl From<ConfigError> for MergersError {
    fn from(e: ConfigError) -> (r: Self) {
        MergersError::Config(e)
    }
}

impl vstd::std_specs::convert::FromSpecImpl<ConfigError> for MergersError {
    open spec fn obeys_from_spec() -> bool {
        true
    }

    open spec fn from_spec(e: ConfigError) -> Self {
        MergersError::Config(e)
    }
}

impl From<UiError> for MergersError {
    fn from(e: UiError) -> (r: Self) {
        MergersError::Ui(e)
    }
}

impl vstd::std_specs::convert::FromSpecImpl<UiError> for MergersError {
    open spec fn obeys_from_spec() -> bool {
        true
    }

    open spec fn from_spec(e: UiError) -> Self {
        MergersError::Ui(e)
    }
}

} // verus!
