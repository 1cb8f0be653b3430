use mergers::error::{ApiError, ConfigError, GitError, MergersError, UiError};

#[test]
fn test_api_error_display() {
    let unauthorized = ApiError::Unauthorized;
    assert!(unauthorized.message().contains("Unauthorized"));

    let not_found = ApiError::NotFound { resource: "PR #123".to_string() };
    assert!(not_found.message().contains("PR #123"));

    let rate_limited = ApiError::RateLimited { retry_after_seconds: 60 };
    assert!(rate_limited.message().contains("60 seconds"));

    let request_failed = ApiError::RequestFailed { status: 500, message: "Internal Server Error".to_string() };
    assert!(request_failed.message().contains("500"));
    assert!(request_failed.message().contains("Internal Server Error"));
}

#[test]
fn test_git_error_display() {
    let branch_exists = GitError::BranchExists { branch: "feature/test".to_string() };
    assert!(branch_exists.message().contains("feature/test"));

    let worktree_exists = GitError::WorktreeExists { path: "/tmp/worktree".to_string() };
    assert!(worktree_exists.message().contains("/tmp/worktree"));

    let conflict = GitError::CherryPickConflict {
        file_count: 3,
        files: vec!["a.rs".to_string(), "b.rs".to_string(), "c.rs".to_string()],
    };
    assert!(conflict.message().contains("3 file(s)"));
}

#[test]
fn test_config_error_display() {
    let missing = ConfigError::MissingRequired {
        field: "organization".to_string(),
        env_var: "MERGERS_ORGANIZATION".to_string(),
    };
    let msg = missing.message();
    assert!(msg.contains("organization"));
    assert!(msg.contains("MERGERS_ORGANIZATION"));
    assert!(msg.contains("--organization"));

    let invalid_date = ConfigError::DateParseError { input: "invalid".to_string(), message: "unrecognized format".to_string() };
    assert!(invalid_date.message().contains("invalid"));
}

#[test]
fn test_error_conversion() {
    let api_error = ApiError::Unauthorized;
    let mergers_error: MergersError = api_error.into();
    assert!(matches!(mergers_error, MergersError::Api(_)));

    let git_error = GitError::BranchExists { branch: "test".to_string() };
    let mergers_error: MergersError = git_error.into();
    assert!(matches!(mergers_error, MergersError::Git(_)));

    let config_error = ConfigError::MissingRequired { field: "pat".to_string(), env_var: "MERGERS_PAT".to_string() };
    let mergers_error: MergersError = config_error.into();
    assert!(matches!(mergers_error, MergersError::Config(_)));
}

#[test]
fn test_git_error_clone() {
    let original = GitError::CherryPickConflict { file_count: 2, files: vec!["a.rs".to_string(), "b.rs".to_string()] };
    let cloned = original.clone();

    match (&original, &cloned) {
        (GitError::CherryPickConflict { file_count: c1, files: f1 }, GitError::CherryPickConflict { file_count: c2, files: f2 }) => {
            assert_eq!(c1, c2);
            assert_eq!(f1, f2);
        },
        _ => panic!("Clone produced different variant"),
    }
}

#[test]
fn error_messages_are_exact() {
    assert_eq!(
        ConfigError::MissingRequired { field: "pat".to_string(), env_var: "MERGERS_PAT".to_string() }.message(),
        "pat is required (use --pat, MERGERS_PAT env var, or config file)"
    );
    assert_eq!(GitError::Other("plain".to_string()).message(), "plain");
    assert_eq!(ApiError::NoMergeCommit { pr_id: -4 }.message(), "Pull request -4 has no merge commit");
    assert_eq!(
        ApiError::PaginationLimitExceeded { max: 10, retrieved: 250 }.message(),
        "Exceeded maximum requests (10) while fetching data, retrieved 250 items"
    );
    assert_eq!(UiError::Cancelled.message(), "Operation cancelled by user");
    assert_eq!(MergersError::Ui(UiError::RenderError("x".to_string())).message(), "UI error: Failed to render UI: x");
    assert_eq!(
        MergersError::Git(GitError::FetchFailed { message: "net".to_string() }).message(),
        "Git error: Failed to fetch from remote: net"
    );
}
