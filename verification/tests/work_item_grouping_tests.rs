use mergers::models::{CreatedBy, PullRequest, PullRequestWithWorkItems, WorkItem, WorkItemFields};
use mergers::operations::work_item_grouping::{check_selection_warning, get_work_item_title, WorkItemPrIndex};

fn create_pr_with_work_item_ids(pr_id: i32, work_item_ids: Vec<i32>, selected: bool) -> PullRequestWithWorkItems {
    let work_items = work_item_ids
        .into_iter()
        .map(|wi_id| WorkItem {
            id: wi_id,
            fields: WorkItemFields {
                title: Some(format!("Work Item {}", wi_id)),
                state: Some("Active".to_string()),
                work_item_type: Some("User Story".to_string()),
                assigned_to: None,
                iteration_path: None,
                description: None,
                repro_steps: None,
                state_color: None,
            },
            history: Vec::new(),
        })
        .collect();

    PullRequestWithWorkItems {
        pr: PullRequest {
            id: pr_id,
            title: format!("PR {}", pr_id),
            closed_date: None,
            created_by: CreatedBy { display_name: "user".to_string() },
            labels: None,
            last_merge_commit: None,
        },
        work_items,
        selected,
    }
}

#[test]
fn test_build_index_empty_prs() {
    let prs: Vec<PullRequestWithWorkItems> = vec![];
    let index = WorkItemPrIndex::build(&prs);
    assert!(index.work_item_to_prs.is_empty());
    assert!(index.pr_to_work_items.is_empty());
}

#[test]
fn test_build_index_no_shared_work_items() {
    let prs = vec![
        create_pr_with_work_item_ids(1, vec![100, 101], false),
        create_pr_with_work_item_ids(2, vec![200, 201], false),
    ];
    let index = WorkItemPrIndex::build(&prs);

    assert_eq!(index.get_prs_for_work_item(100), &[0]);
    assert_eq!(index.get_prs_for_work_item(101), &[0]);
    assert_eq!(index.get_prs_for_work_item(200), &[1]);
    assert_eq!(index.get_prs_for_work_item(201), &[1]);
    assert!(index.get_related_pr_indices(0).is_empty());
    assert!(index.get_related_pr_indices(1).is_empty());
}

#[test]
fn test_build_index_single_shared_work_item() {
    let prs = vec![
        create_pr_with_work_item_ids(1, vec![100], false),
        create_pr_with_work_item_ids(2, vec![100], false),
    ];
    let index = WorkItemPrIndex::build(&prs);

    assert_eq!(index.get_prs_for_work_item(100), &[0, 1]);
    assert_eq!(index.get_related_pr_indices(0), vec![1]);
    assert_eq!(index.get_related_pr_indices(1), vec![0]);
}

#[test]
fn test_build_index_multiple_shared_work_items() {
    let prs = vec![
        create_pr_with_work_item_ids(1, vec![100, 101], false),
        create_pr_with_work_item_ids(2, vec![100, 102], false),
        create_pr_with_work_item_ids(3, vec![101, 102], false),
    ];
    let index = WorkItemPrIndex::build(&prs);

    let mut related_0 = index.get_related_pr_indices(0);
    related_0.sort();
    assert_eq!(related_0, vec![1, 2]);

    let mut related_1 = index.get_related_pr_indices(1);
    related_1.sort();
    assert_eq!(related_1, vec![0, 2]);

    let mut related_2 = index.get_related_pr_indices(2);
    related_2.sort();
    assert_eq!(related_2, vec![0, 1]);
}

#[test]
fn test_get_related_pr_indices_no_relations() {
    let prs = vec![
        create_pr_with_work_item_ids(1, vec![100], false),
        create_pr_with_work_item_ids(2, vec![200], false),
    ];
    let index = WorkItemPrIndex::build(&prs);

    assert!(index.get_related_pr_indices(0).is_empty());
    assert!(index.get_related_pr_indices(1).is_empty());
}

#[test]
fn test_get_related_pr_indices_with_relations() {
    let prs = vec![
        create_pr_with_work_item_ids(1, vec![100], false),
        create_pr_with_work_item_ids(2, vec![100], false),
        create_pr_with_work_item_ids(3, vec![200], false),
    ];
    let index = WorkItemPrIndex::build(&prs);

    assert_eq!(index.get_related_pr_indices(0), vec![1]);
    assert_eq!(index.get_related_pr_indices(1), vec![0]);
    assert!(index.get_related_pr_indices(2).is_empty());
}

#[test]
fn test_get_shared_work_items() {
    let prs = vec![
        create_pr_with_work_item_ids(1, vec![100, 101], false),
        create_pr_with_work_item_ids(2, vec![100, 102], false),
    ];
    let index = WorkItemPrIndex::build(&prs);

    assert_eq!(index.get_shared_work_items(0, 1), vec![100]);
    assert_eq!(index.get_shared_work_items(1, 0), vec![100]);
}

#[test]
fn test_get_shared_work_items_no_overlap() {
    let prs = vec![
        create_pr_with_work_item_ids(1, vec![100], false),
        create_pr_with_work_item_ids(2, vec![200], false),
    ];
    let index = WorkItemPrIndex::build(&prs);

    assert!(index.get_shared_work_items(0, 1).is_empty());
}

#[test]
fn test_check_selection_warning_no_warning() {
    let prs = vec![
        create_pr_with_work_item_ids(1, vec![100], false),
        create_pr_with_work_item_ids(2, vec![200], false),
    ];
    let index = WorkItemPrIndex::build(&prs);

    let warning = check_selection_warning(&prs, &index, 0);
    assert!(warning.is_none());
}

#[test]
fn test_check_selection_warning_with_unselected_related() {
    let prs = vec![
        create_pr_with_work_item_ids(1, vec![100], false),
        create_pr_with_work_item_ids(2, vec![100], false),
    ];
    let index = WorkItemPrIndex::build(&prs);

    let warning = check_selection_warning(&prs, &index, 0);
    assert!(warning.is_some());

    let warning = warning.unwrap();
    assert_eq!(warning.selected_pr_index, 0);
    assert_eq!(warning.unselected_related_prs, vec![1]);
    assert!(warning.shared_work_items.contains_key(&100));
    assert_eq!(warning.shared_work_items.get(&100), Some(&vec![1]));
}

#[test]
fn test_check_selection_warning_all_related_selected() {
    let prs = vec![
        create_pr_with_work_item_ids(1, vec![100], false),
        create_pr_with_work_item_ids(2, vec![100], true),
    ];
    let index = WorkItemPrIndex::build(&prs);

    let warning = check_selection_warning(&prs, &index, 0);
    assert!(warning.is_none());
}

#[test]
fn test_check_selection_warning_multiple_unselected() {
    let prs = vec![
        create_pr_with_work_item_ids(1, vec![100], false),
        create_pr_with_work_item_ids(2, vec![100], false),
        create_pr_with_work_item_ids(3, vec![100], false),
    ];
    let index = WorkItemPrIndex::build(&prs);

    let warning = check_selection_warning(&prs, &index, 0);
    assert!(warning.is_some());

    let warning = warning.unwrap();
    assert_eq!(warning.unselected_related_prs, vec![1, 2]);
}

#[test]
fn test_check_selection_warning_some_related_selected() {
    let prs = vec![
        create_pr_with_work_item_ids(1, vec![100], false),
        create_pr_with_work_item_ids(2, vec![100], false),
        create_pr_with_work_item_ids(3, vec![100], true),
    ];
    let index = WorkItemPrIndex::build(&prs);

    let warning = check_selection_warning(&prs, &index, 0);
    assert!(warning.is_some());

    let warning = warning.unwrap();
    assert_eq!(warning.unselected_related_prs, vec![1]);
}

#[test]
fn test_is_shared_work_item() {
    let prs = vec![
        create_pr_with_work_item_ids(1, vec![100, 200], false),
        create_pr_with_work_item_ids(2, vec![100], false),
    ];
    let index = WorkItemPrIndex::build(&prs);

    assert!(index.is_shared_work_item(100));
    assert!(!index.is_shared_work_item(200));
    assert!(!index.is_shared_work_item(999));
}

#[test]
fn test_pr_without_work_items() {
    let prs = vec![
        create_pr_with_work_item_ids(1, vec![], false),
        create_pr_with_work_item_ids(2, vec![100], false),
    ];
    let index = WorkItemPrIndex::build(&prs);

    assert!(index.get_work_items_for_pr(0).is_empty());
    assert!(index.get_related_pr_indices(0).is_empty());
    assert!(check_selection_warning(&prs, &index, 0).is_none());
}

#[test]
fn test_get_work_item_title() {
    let prs = vec![create_pr_with_work_item_ids(1, vec![100], false)];

    assert_eq!(get_work_item_title(&prs, 100), "Work Item 100");
    assert_eq!(get_work_item_title(&prs, 999), "Work Item #999");
}

#[test]
fn relatedness_is_symmetric_on_example() {
    let prs = vec![
        create_pr_with_work_item_ids(1, vec![5, 6], false),
        create_pr_with_work_item_ids(2, vec![6], false),
        create_pr_with_work_item_ids(3, vec![7], false),
    ];
    let index = WorkItemPrIndex::build(&prs);
    for a in 0..3usize {
        for b in index.get_related_pr_indices(a) {
            assert!(index.get_related_pr_indices(b).contains(&a));
            assert!(!index.get_shared_work_items(a, b).is_empty());
        }
    }
}
