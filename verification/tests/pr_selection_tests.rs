use mergers::models::{CreatedBy, PullRequest, PullRequestWithWorkItems, WorkItem, WorkItemFields};
use mergers::operations::pr_selection::{
    filter_prs_by_work_item_states, parse_work_item_states, select_prs_by_work_item_states,
};

fn create_pr_with_work_items(id: i32, work_items: Vec<(&str, Option<&str>)>) -> PullRequestWithWorkItems {
    let work_items = work_items
        .into_iter()
        .enumerate()
        .map(|(idx, (title, state))| WorkItem {
            id: idx as i32 + 1,
            fields: WorkItemFields {
                title: Some(title.to_string()),
                state: state.map(|s| s.to_string()),
                work_item_type: Some("User Story".to_string()),
                assigned_to: None,
                iteration_path: None,
                description: None,
                repro_steps: None,
                state_color: None,
            },
            history: Vec::new(),
        })
        .collect();

    PullRequestWithWorkItems {
        pr: PullRequest {
            id,
            title: format!("PR {}", id),
            closed_date: None,
            created_by: CreatedBy { display_name: "user".to_string() },
            labels: None,
            last_merge_commit: None,
        },
        work_items,
        selected: false,
    }
}

#[test]
fn test_filter_all_work_items_match() {
    let prs = vec![create_pr_with_work_items(1, vec![("WI 1", Some("Ready")), ("WI 2", Some("Ready"))])];
    let states = vec!["Ready".to_string()];
    let result = filter_prs_by_work_item_states(&prs, &states);
    assert_eq!(result.len(), 1);
    assert_eq!(result[0].pr.id, 1);
}

#[test]
fn test_filter_some_work_items_dont_match() {
    let prs = vec![create_pr_with_work_items(1, vec![("WI 1", Some("Ready")), ("WI 2", Some("Active"))])];
    let states = vec!["Ready".to_string()];
    let result = filter_prs_by_work_item_states(&prs, &states);
    assert!(result.is_empty());
}

#[test]
fn test_filter_no_work_items() {
    let prs = vec![create_pr_with_work_items(1, vec![])];
    let states = vec!["Ready".to_string()];
    let result = filter_prs_by_work_item_states(&prs, &states);
    assert!(result.is_empty());
}

#[test]
fn test_filter_case_insensitive() {
    let prs = vec![create_pr_with_work_items(1, vec![("WI 1", Some("ready"))])];
    let states = vec!["READY".to_string()];
    let result = filter_prs_by_work_item_states(&prs, &states);
    assert_eq!(result.len(), 1);
}

#[test]
fn test_filter_multiple_states() {
    let prs = vec![create_pr_with_work_items(1, vec![("WI 1", Some("Ready")), ("WI 2", Some("Approved"))])];
    let states = vec!["Ready".to_string(), "Approved".to_string()];
    let result = filter_prs_by_work_item_states(&prs, &states);
    assert_eq!(result.len(), 1);
}

#[test]
fn test_filter_work_item_no_state() {
    let prs = vec![create_pr_with_work_items(1, vec![("WI 1", Some("Ready")), ("WI 2", None)])];
    let states = vec!["Ready".to_string()];
    let result = filter_prs_by_work_item_states(&prs, &states);
    assert!(result.is_empty());
}

#[test]
fn test_select_prs_in_place() {
    let mut prs = vec![
        create_pr_with_work_items(1, vec![("WI 1", Some("Ready"))]),
        create_pr_with_work_items(2, vec![("WI 2", Some("Active"))]),
        create_pr_with_work_items(3, vec![("WI 3", Some("Ready"))]),
    ];
    let states = vec!["Ready".to_string()];

    let count = select_prs_by_work_item_states(&mut prs, &states);

    assert_eq!(count, 2);
    assert!(prs[0].selected);
    assert!(!prs[1].selected);
    assert!(prs[2].selected);
}

#[test]
fn test_parse_work_item_states() {
    assert_eq!(parse_work_item_states("Ready,Approved,Done"), vec!["Ready", "Approved", "Done"]);
    assert_eq!(parse_work_item_states("Ready, Approved, Done"), vec!["Ready", "Approved", "Done"]);
    assert_eq!(parse_work_item_states("Ready,,Done"), vec!["Ready", "Done"]);
    assert_eq!(parse_work_item_states(""), Vec::<String>::new());
    assert_eq!(parse_work_item_states("  "), Vec::<String>::new());
}

#[test]
fn test_filter_multiple_prs_mixed() {
    let prs = vec![
        create_pr_with_work_items(1, vec![("WI 1", Some("Ready"))]),
        create_pr_with_work_items(2, vec![("WI 2", Some("Active"))]),
        create_pr_with_work_items(3, vec![("WI 3", Some("Ready")), ("WI 4", Some("Approved"))]),
        create_pr_with_work_items(4, vec![]),
    ];
    let states = vec!["Ready".to_string(), "Approved".to_string()];
    let result = filter_prs_by_work_item_states(&prs, &states);
    assert_eq!(result.len(), 2);
    let ids: Vec<i32> = result.iter().map(|pr| pr.pr.id).collect();
    assert!(ids.contains(&1));
    assert!(ids.contains(&3));
}

#[test]
fn selection_deselects_previously_selected_non_matching() {
    let mut prs = vec![create_pr_with_work_items(1, vec![("WI 1", Some("Active"))])];
    prs[0].selected = true;
    let count = select_prs_by_work_item_states(&mut prs, &["Ready".to_string()]);
    assert_eq!(count, 0);
    assert!(!prs[0].selected);
}

#[test]
fn parsed_states_are_trimmed_and_non_empty() {
    assert_eq!(parse_work_item_states(" Ready ,  Done  ,"), vec!["Ready", "Done"]);
}
