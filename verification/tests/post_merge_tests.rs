use mergers::models::{CreatedBy, PullRequest, PullRequestWithWorkItems, WorkItem, WorkItemFields};
use mergers::operations::post_merge::{
    extract_completed_pr_info, next_pending_task, record_task_result, reset_failed_tasks, summarize_tasks,
    CompletedPRInfo, PostMergeConfig, PostMergeOperation, PostMergeProgress, PostMergeResult, PostMergeTask,
    PostMergeTaskResult, TaskWithResult, WorkItemInfo,
};

fn tag_task(pr_id: i32) -> PostMergeTask {
    PostMergeTask::TagPR { pr_id, pr_title: "Test".to_string(), tag: "merged".to_string() }
}

#[test]
fn test_post_merge_task_description() {
    let tag_task = PostMergeTask::TagPR {
        pr_id: 42,
        pr_title: "Test PR".to_string(),
        tag: "merged-v1.0.0".to_string(),
    };
    let desc = tag_task.description();
    assert!(desc.contains("42"));
    assert!(desc.contains("merged-v1.0.0"));

    let update_task = PostMergeTask::UpdateWorkItem {
        work_item_id: 123,
        work_item_title: "Test WI".to_string(),
        new_state: "Done".to_string(),
    };
    let desc = update_task.description();
    assert!(desc.contains("123"));
    assert!(desc.contains("Done"));
}

#[test]
fn test_post_merge_task_target_id() {
    let tag_task = PostMergeTask::TagPR { pr_id: 42, pr_title: "Test".to_string(), tag: "merged".to_string() };
    assert_eq!(tag_task.target_id(), 42);

    let update_task = PostMergeTask::UpdateWorkItem {
        work_item_id: 123,
        work_item_title: "Test".to_string(),
        new_state: "Done".to_string(),
    };
    assert_eq!(update_task.target_id(), 123);
}

#[test]
fn test_task_with_result_states() {
    let pending = TaskWithResult::new(tag_task(1));
    assert!(pending.is_pending());
    assert!(!pending.is_success());
    assert!(!pending.is_failed());

    let success = TaskWithResult { task: tag_task(1), result: Some(PostMergeTaskResult::Success) };
    assert!(!success.is_pending());
    assert!(success.is_success());
    assert!(!success.is_failed());

    let failed = TaskWithResult {
        task: tag_task(1),
        result: Some(PostMergeTaskResult::Failed { message: "error".to_string() }),
    };
    assert!(!failed.is_pending());
    assert!(!failed.is_success());
    assert!(failed.is_failed());
}

#[test]
fn test_post_merge_result_all_succeeded() {
    let success = PostMergeResult { tasks: Vec::new(), success_count: 5, failed_count: 0 };
    assert!(success.all_succeeded());

    let partial = PostMergeResult { tasks: Vec::new(), success_count: 3, failed_count: 2 };
    assert!(!partial.all_succeeded());
}

#[test]
fn test_post_merge_progress_variants() {
    let _p1 = PostMergeProgress::Starting { total_tasks: 10 };
    let _p2 = PostMergeProgress::TaskStarted { index: 0, description: "Test".to_string() };
    let _p3 = PostMergeProgress::TaskCompleted { index: 0, result: PostMergeTaskResult::Success };
    let _p4 = PostMergeProgress::AllComplete { success_count: 8, failed_count: 2 };
}

fn pr(id: i32, work_items: Vec<WorkItem>) -> PullRequestWithWorkItems {
    PullRequestWithWorkItems {
        pr: PullRequest {
            id,
            title: format!("PR {}", id),
            closed_date: None,
            created_by: CreatedBy { display_name: "user".to_string() },
            labels: None,
            last_merge_commit: None,
        },
        work_items,
        selected: false,
    }
}

#[test]
fn test_extract_completed_pr_info() {
    let prs = vec![
        pr(
            1,
            vec![WorkItem {
                id: 101,
                fields: WorkItemFields {
                    title: Some("WI 101".to_string()),
                    state: Some("Active".to_string()),
                    work_item_type: None,
                    assigned_to: None,
                    iteration_path: None,
                    description: None,
                    repro_steps: None,
                    state_color: None,
                },
                history: Vec::new(),
            }],
        ),
        pr(2, vec![]),
    ];

    let result = extract_completed_pr_info(&prs, &[1]);
    assert_eq!(result.len(), 1);
    assert_eq!(result[0].pr_id, 1);
    assert_eq!(result[0].work_items.len(), 1);
    assert_eq!(result[0].work_items[0].id, 101);
}

#[test]
fn task_queue_tags_then_updates_each_pr() {
    let op = PostMergeOperation::new(PostMergeConfig {
        tag_prefix: "merged-".to_string(),
        version: "v1.2".to_string(),
        work_item_state: "Done".to_string(),
    });
    let completed = vec![
        CompletedPRInfo {
            pr_id: 7,
            pr_title: "Seven".to_string(),
            work_items: vec![
                WorkItemInfo { id: 70, title: "a".to_string() },
                WorkItemInfo { id: 71, title: "b".to_string() },
            ],
        },
        CompletedPRInfo { pr_id: 8, pr_title: "Eight".to_string(), work_items: vec![] },
    ];
    let queue = op.build_task_queue(&completed);
    assert_eq!(queue.len(), 4);
    match &queue[0].task {
        PostMergeTask::TagPR { pr_id, tag, .. } => {
            assert_eq!(*pr_id, 7);
            assert_eq!(tag, "merged-v1.2");
        },
        other => panic!("unexpected task {:?}", other),
    }
    assert_eq!(queue[1].task.target_id(), 70);
    assert_eq!(queue[2].task.target_id(), 71);
    assert_eq!(queue[3].task.target_id(), 8);
    assert!(queue.iter().all(|t| t.is_pending()));
}

#[test]
fn tasks_are_booked_and_retried() {
    let mut tasks = vec![TaskWithResult::new(tag_task(1)), TaskWithResult::new(tag_task(2))];
    assert_eq!(next_pending_task(&tasks), Some(0));
    record_task_result(&mut tasks, 0, PostMergeTaskResult::Failed { message: "no".to_string() });
    assert_eq!(next_pending_task(&tasks), Some(1));
    record_task_result(&mut tasks, 1, PostMergeTaskResult::Success);
    assert_eq!(next_pending_task(&tasks), None);
    reset_failed_tasks(&mut tasks);
    assert_eq!(next_pending_task(&tasks), Some(0));
    assert!(tasks[1].is_success());

    record_task_result(&mut tasks, 0, PostMergeTaskResult::Failed { message: "no".to_string() });
    let summary = summarize_tasks(tasks);
    assert_eq!(summary.success_count, 1);
    assert_eq!(summary.failed_count, 1);
    assert_eq!(summary.failed_tasks().len(), 1);
    assert!(!summary.all_succeeded());
}
