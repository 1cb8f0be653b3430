use mergers::runner::release_notes::{MergedSettings, ReleaseNotesArgs, ReleaseNotesRunner, ReleaseNotesRunnerConfig};

fn runner(from: Option<&str>, to: Option<&str>) -> ReleaseNotesRunner {
    ReleaseNotesRunner::new(ReleaseNotesRunnerConfig {
        organization: "org".to_string(),
        project: "proj".to_string(),
        repository: "repo".to_string(),
        pat: "pat".to_string(),
        dev_branch: "dev".to_string(),
        tag_prefix: "merged-".to_string(),
        from_version: from.map(|s| s.to_string()),
        to_version: to.map(|s| s.to_string()),
        output_format: "markdown".to_string(),
        grouped: false,
        include_prs: false,
        copy_to_clipboard: false,
        no_cache: false,
        max_concurrent_network: 100,
        max_concurrent_processing: 10,
    })
}

fn tags() -> Vec<String> {
    vec!["merged-v1.0".to_string(), "merged-v1.1".to_string(), "merged-v1.2".to_string()]
}

#[test]
fn tags_are_normalized_with_the_prefix() {
    assert_eq!(ReleaseNotesRunner::normalize_tag("merged-", "v1.0"), "merged-v1.0");
    assert_eq!(ReleaseNotesRunner::normalize_tag("merged-", "merged-v1.0"), "merged-v1.0");
}

#[test]
fn latest_tag_without_versions() {
    let r = runner(None, None).resolve_target_tag(&tags()).unwrap();
    assert_eq!(r, ("merged-v1.2".to_string(), "v1.2".to_string()));
}

#[test]
fn to_version_must_exist() {
    let r = runner(None, Some("v1.1")).resolve_target_tag(&tags()).unwrap();
    assert_eq!(r, ("merged-v1.1".to_string(), "v1.1".to_string()));
    let e = runner(Some("v1.0"), Some("v9")).resolve_target_tag(&tags()).unwrap_err();
    assert_eq!(e, "Tag 'merged-v9' not found in PRs");
}

#[test]
fn from_version_gives_the_next_tag() {
    let r = runner(Some("v1.0"), None).resolve_target_tag(&tags()).unwrap();
    assert_eq!(r, ("merged-v1.1".to_string(), "v1.1".to_string()));
    let r = runner(Some("merged-v1.2"), None).resolve_target_tag(&tags()).unwrap();
    assert_eq!(r, ("merged-v1.2".to_string(), "v1.2".to_string()));
    let e = runner(Some("v0.1"), None).resolve_target_tag(&tags()).unwrap_err();
    assert_eq!(e, "Tag 'merged-v0.1' not found in PRs");
}

fn settings(org: Option<&str>, project: Option<&str>, pat: Option<&str>) -> MergedSettings {
    MergedSettings {
        organization: org.map(|s| s.to_string()),
        project: project.map(|s| s.to_string()),
        pat: pat.map(|s| s.to_string()),
        repository: None,
        dev_branch: None,
        tag_prefix: None,
        max_concurrent_network: None,
        max_concurrent_processing: Some(4),
    }
}

fn notes_args() -> ReleaseNotesArgs {
    ReleaseNotesArgs {
        from: Some("v1".to_string()),
        to: None,
        output: "markdown".to_string(),
        group: true,
        include_prs: false,
        copy: false,
        no_cache: true,
    }
}

#[test]
fn test_from_settings_defaults() {
    let config = ReleaseNotesRunnerConfig::from_settings(settings(Some("o"), Some("p"), Some("t")), notes_args()).unwrap();
    assert_eq!(config.organization, "o");
    assert_eq!(config.project, "p");
    assert_eq!(config.pat, "t");
    assert_eq!(config.repository, "");
    assert_eq!(config.dev_branch, "dev");
    assert_eq!(config.tag_prefix, "merged-");
    assert_eq!(config.max_concurrent_network, 100);
    assert_eq!(config.max_concurrent_processing, 4);
    assert_eq!(config.from_version, Some("v1".to_string()));
    assert_eq!(config.output_format, "markdown");
    assert!(config.grouped && config.no_cache && !config.include_prs);
}

#[test]
fn test_from_settings_required_fields() {
    let e = ReleaseNotesRunnerConfig::from_settings(settings(None, None, None), notes_args()).unwrap_err();
    assert_eq!(e, "organization is required (use -o or config file)");
    let e = ReleaseNotesRunnerConfig::from_settings(settings(Some("o"), None, None), notes_args()).unwrap_err();
    assert_eq!(e, "project is required (use -p or config file)");
    let e = ReleaseNotesRunnerConfig::from_settings(settings(Some("o"), Some("p"), None), notes_args()).unwrap_err();
    assert_eq!(e, "PAT is required (use -t, MERGERS_PAT env var, or config file)");
}
