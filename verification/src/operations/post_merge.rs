//! Post-merge tasks: tagging the merged PRs and moving their work items to
//! a new state.
//!
//! The library builds the task queue, chooses the next pending task,
//! records results and counts them; performing a task against Azure DevOps
//! is the caller's part.

use vstd::prelude::*;
use crate::models::{PullRequestWithWorkItems, WorkItem};
use crate::text::{decimal_int, i32_to_decimal, concat2};
use crate::operations::work_item_grouping::wi_ids;

verus! {

/// A post-merge task.
#[derive(Debug, Clone)]
pub enum PostMergeTask {
    TagPR { pr_id: i32, pr_title: String, tag: String },
    UpdateWorkItem { work_item_id: i32, work_item_title: String, new_state: String },
}

/// The description of a task.
pub open spec fn task_description(t: PostMergeTask) -> Seq<char> {
    match t {
        PostMergeTask::TagPR { pr_id, tag, .. } => "Tag PR #"@ + decimal_int(pr_id as int) + " with '"@ + tag@ + "'"@,
        PostMergeTask::UpdateWorkItem { work_item_id, new_state, .. } => "Update work item #"@ + decimal_int(
            work_item_id as int,
        ) + " to '"@ + new_state@ + "'"@,
    }
}

/// The PR or work item a task acts on.
pub open spec fn task_target(t: PostMergeTask) -> i32 {
    match t {
        PostMergeTask::TagPR { pr_id, .. } => pr_id,
        PostMergeTask::UpdateWorkItem { work_item_id, .. } => work_item_id,
    }
}

impl PostMergeTask {
    /// A human-readable description.
    pub fn description(&self) -> (r: String)
        ensures
            r@ == task_description(*self),
    {
        match self {
            PostMergeTask::TagPR { pr_id, tag, .. } => {
                let mut s = "Tag PR #".to_owned();
                s.append(i32_to_decimal(*pr_id).as_str());
                s.append(" with '");
                s.append(tag.as_str());
                s.append("'");
                s
            },
            PostMergeTask::UpdateWorkItem { work_item_id, new_state, .. } => {
                let mut s = "Update work item #".to_owned();
                s.append(i32_to_decimal(*work_item_id).as_str());
                s.append(" to '");
                s.append(new_state.as_str());
                s.append("'");
                s
            },
        }
    }

    pub fn target_id(&self) -> (r: i32)
        ensures
            r == task_target(*self),
    {
        match self {
            PostMergeTask::TagPR { pr_id, .. } => *pr_id,
            PostMergeTask::UpdateWorkItem { work_item_id, .. } => *work_item_id,
        }
    }
}

/// The result of a task.
#[derive(Debug, Clone)]
pub enum PostMergeTaskResult {
    Success,
    Failed { message: String },
}

impl PostMergeTaskResult {
    /// Whether the task succeeded.
    pub fn is_success(&self) -> (r: bool)
        ensures
            r == (*self is Success),
    {
        match self {
            PostMergeTaskResult::Success => true,
            _ => false,
        }
    }

    /// Whether the task failed.
    pub fn is_failed(&self) -> (r: bool)
        ensures
            r == (*self is Failed),
    {
        match self {
            PostMergeTaskResult::Failed { .. } => true,
            _ => false,
        }
    }
}

/// A task with its result, if it has run.
#[derive(Debug, Clone)]
pub struct TaskWithResult {
    pub task: PostMergeTask,
    pub result: Option<PostMergeTaskResult>,
}

/// Whether a task ran and succeeded.
pub open spec fn task_succeeded(t: TaskWithResult) -> bool {
    t.result matches Some(r) && r is Success
}

/// Whether a task ran and failed.
pub open spec fn task_failed(t: TaskWithResult) -> bool {
    t.result matches Some(r) && r is Failed
}

impl TaskWithResult {
    /// A task that has not run.
    pub fn new(task: PostMergeTask) -> (r: Self)
        ensures
            r.task == task,
            r.result is None,
    {
        TaskWithResult { task, result: None }
    }

    /// Whether the task has not run.
    pub fn is_pending(&self) -> (r: bool)
        ensures
            r == (self.result is None),
    {
        self.result.is_none()
    }

    /// Whether the task ran and succeeded.
    pub fn is_success(&self) -> (r: bool)
        ensures
            r == task_succeeded(*self),
    {
        match &self.result {
            Some(r) => r.is_success(),
            None => false,
        }
    }

    /// Whether the task ran and failed.
    pub fn is_failed(&self) -> (r: bool)
        ensures
            r == task_failed(*self),
    {
        match &self.result {
            Some(r) => r.is_failed(),
            None => false,
        }
    }
}

/// Progress of the post-merge tasks.
#[derive(Debug, Clone)]
pub enum PostMergeProgress {
    Starting { total_tasks: usize },
    TaskStarted { index: usize, description: String },
    TaskCompleted { index: usize, result: PostMergeTaskResult },
    AllComplete { success_count: usize, failed_count: usize },
}

/// Configuration of the post-merge tasks.
#[derive(Debug, Clone)]
pub struct PostMergeConfig {
    /// Prefix of the tag put on merged PRs.
    pub tag_prefix: String,
    /// The merge version appended to the prefix.
    pub version: String,
    /// The state work items move to.
    pub work_item_state: String,
}

/// The result of running the tasks.
#[derive(Debug, Clone)]
pub struct PostMergeResult {
    pub tasks: Vec<TaskWithResult>,
    pub success_count: usize,
    pub failed_count: usize,
}

impl PostMergeResult {
    /// Whether no task failed.
    pub fn all_succeeded(&self) -> (r: bool)
        ensures
            r == (self.failed_count == 0),
    {
        self.failed_count == 0
    }

    /// The tasks that failed, in order.
    pub fn failed_tasks(&self) -> (r: Vec<&TaskWithResult>)
        ensures
            r@.len() == self.tasks@.filter(|t: TaskWithResult| task_failed(t)).len(),
            forall|k: int| 0 <= k < r@.len() ==> *(#[trigger] r@[k]) == self.tasks@.filter(|t: TaskWithResult| task_failed(t))[k],
    {
        let ghost f = |t: TaskWithResult| task_failed(t);
        let mut out: Vec<&TaskWithResult> = Vec::new();
        let mut i: usize = 0;
        while i < self.tasks.len()
            invariant
                0 <= i <= self.tasks@.len(),
                f == (|t: TaskWithResult| task_failed(t)),
                out@.len() == self.tasks@.subrange(0, i as int).filter(f).len(),
                forall|k: int| 0 <= k < out@.len() ==> *(#[trigger] out@[k]) == self.tasks@.subrange(0, i as int).filter(f)[k],
            decreases self.tasks@.len() - i,
        {
            proof {
                reveal(Seq::filter);
                assert(self.tasks@.subrange(0, i as int + 1).drop_last() =~= self.tasks@.subrange(0, i as int));
            }
            if self.tasks[i].is_failed() {
                out.push(&self.tasks[i]);
            }
            i = i + 1;
        }
        proof {
            assert(self.tasks@.subrange(0, self.tasks@.len() as int) =~= self.tasks@);
        }
        out
    }
}

/// A PR whose cherry-pick succeeded, with its work items.
#[derive(Debug, Clone)]
pub struct CompletedPRInfo {
    pub pr_id: i32,
    pub pr_title: String,
    pub work_items: Vec<WorkItemInfo>,
}

/// A work item of a completed PR.
#[derive(Debug, Clone)]
pub struct WorkItemInfo {
    pub id: i32,
    pub title: String,
}

/// The content of a task: kind (0 tag, 1 update), target, and the tag or
/// new state.
pub open spec fn task_view(t: PostMergeTask) -> (int, i32, Seq<char>) {
    match t {
        PostMergeTask::TagPR { pr_id, tag, .. } => (0, pr_id, tag@),
        PostMergeTask::UpdateWorkItem { work_item_id, new_state, .. } => (1, work_item_id, new_state@),
    }
}

/// The tasks for the completed PRs: for each PR in order, its tag task,
/// then an update task per work item.
pub open spec fn task_queue(prs: Seq<CompletedPRInfo>, tag: Seq<char>, state: Seq<char>) -> Seq<(int, i32, Seq<char>)>
    decreases prs.len(),
{
    if prs.len() == 0 {
        Seq::empty()
    } else {
        let pr = prs.last();
        task_queue(prs.drop_last(), tag, state) + seq![(0int, pr.pr_id, tag)] + pr.work_items@.map_values(
            |w: WorkItemInfo| (1int, w.id, state),
        )
    }
}

/// The views of tasks with results.
pub open spec fn queue_view(ts: Seq<TaskWithResult>) -> Seq<(int, i32, Seq<char>)> {
    ts.map_values(|t: TaskWithResult| task_view(t.task))
}

/// The title a task carries: the PR's for a tag task, the work item's for
/// an update task.
pub open spec fn task_title(t: PostMergeTask) -> Seq<char> {
    match t {
        PostMergeTask::TagPR { pr_title, .. } => pr_title@,
        PostMergeTask::UpdateWorkItem { work_item_title, .. } => work_item_title@,
    }
}

/// The titles of tasks with results.
pub open spec fn queue_titles(ts: Seq<TaskWithResult>) -> Seq<Seq<char>> {
    ts.map_values(|t: TaskWithResult| task_title(t.task))
}

/// The titles of the task queue of the completed PRs: for each PR in order,
/// its title, then the title of each of its work items.
pub open spec fn title_queue(prs: Seq<CompletedPRInfo>) -> Seq<Seq<char>>
    decreases prs.len(),
{
    if prs.len() == 0 {
        Seq::empty()
    } else {
        let pr = prs.last();
        title_queue(prs.drop_last()) + seq![pr.pr_title@] + pr.work_items@.map_values(|w: WorkItemInfo| w.title@)
    }
}

/// The number of work items of the PRs, all together.
pub open spec fn total_work_items(prs: Seq<CompletedPRInfo>) -> nat
    decreases prs.len(),
{
    if prs.len() == 0 {
        0
    } else {
        total_work_items(prs.drop_last()) + prs.last().work_items@.len()
    }
}

/// Planning the tasks of two runs of PRs gives the tasks of the first run
/// followed by those of the second; the same holds of the titles.
pub proof fn law_task_queue_concat(a: Seq<CompletedPRInfo>, b: Seq<CompletedPRInfo>, tag: Seq<char>, state: Seq<char>)
    ensures
        task_queue(a + b, tag, state) == task_queue(a, tag, state) + task_queue(b, tag, state),
        title_queue(a + b) == title_queue(a) + title_queue(b),
    decreases b.len(),
{
    if b.len() == 0 {
        assert(a + b =~= a);
        assert(task_queue(a, tag, state) + task_queue(b, tag, state) =~= task_queue(a, tag, state));
        assert(title_queue(a) + title_queue(b) =~= title_queue(a));
    } else {
        law_task_queue_concat(a, b.drop_last(), tag, state);
        assert((a + b).drop_last() =~= a + b.drop_last());
        assert((a + b).last() == b.last());
        let pr = b.last();
        let x = seq![(0int, pr.pr_id, tag)];
        let w = pr.work_items@.map_values(|wi: WorkItemInfo| (1int, wi.id, state));
        assert(task_queue(a, tag, state) + task_queue(b.drop_last(), tag, state) + x + w =~= task_queue(a, tag, state)
            + (task_queue(b.drop_last(), tag, state) + x + w));
        let xt = seq![pr.pr_title@];
        let wt = pr.work_items@.map_values(|wi: WorkItemInfo| wi.title@);
        assert(title_queue(a) + title_queue(b.drop_last()) + xt + wt =~= title_queue(a) + (title_queue(b.drop_last())
            + xt + wt));
    }
}

/// The queue holds one tag task per PR and one update task per work item of
/// each PR: its length (and that of its titles) is the number of PRs plus
/// the number of their work items; each PR's tag task carries the tag and
/// each of its work items has an update task to the configured state; every
/// task is one of these.
pub proof fn law_task_queue_covers(prs: Seq<CompletedPRInfo>, tag: Seq<char>, state: Seq<char>)
    ensures
        task_queue(prs, tag, state).len() == prs.len() + total_work_items(prs),
        title_queue(prs).len() == prs.len() + total_work_items(prs),
        forall|i: int| 0 <= i < prs.len() ==> task_queue(prs, tag, state).contains((0int, (#[trigger] prs[i]).pr_id, tag)),
        forall|i: int, j: int|
            0 <= i < prs.len() && 0 <= j < prs[i].work_items@.len() ==> task_queue(prs, tag, state).contains(
                (1int, (#[trigger] prs[i].work_items@[j]).id, state),
            ),
        forall|k: int|
            0 <= k < task_queue(prs, tag, state).len() ==> {
                let t = #[trigger] task_queue(prs, tag, state)[k];
                ||| t.0 == 0 && t.2 == tag && exists|i: int| 0 <= i < prs.len() && (#[trigger] prs[i]).pr_id == t.1
                ||| t.0 == 1 && t.2 == state && exists|i: int, j: int|
                    0 <= i < prs.len() && 0 <= j < prs[i].work_items@.len() && (#[trigger] prs[i].work_items@[j]).id
                        == t.1
            },
    decreases prs.len(),
{
    if prs.len() > 0 {
        let init = prs.drop_last();
        let pr = prs.last();
        let n = prs.len() - 1;
        law_task_queue_covers(init, tag, state);
        let q0 = task_queue(init, tag, state);
        let w = pr.work_items@.map_values(|wi: WorkItemInfo| (1int, wi.id, state));
        let q = task_queue(prs, tag, state);
        assert(q == q0 + seq![(0int, pr.pr_id, tag)] + w);
        assert(q.len() == q0.len() + 1 + w.len());
        assert forall|i: int| 0 <= i < prs.len() implies q.contains((0int, (#[trigger] prs[i]).pr_id, tag)) by {
            if i < n {
                assert(init[i] == prs[i]);
                assert(q0.contains((0int, init[i].pr_id, tag)));
                let k = choose|k: int| 0 <= k < q0.len() && q0[k] == (0int, init[i].pr_id, tag);
                assert(q[k] == q0[k]);
            } else {
                assert(q[q0.len() as int] == (0int, pr.pr_id, tag));
            }
        }
        assert forall|i: int, j: int|
            0 <= i < prs.len() && 0 <= j < prs[i].work_items@.len() implies q.contains(
                (1int, (#[trigger] prs[i].work_items@[j]).id, state),
            ) by {
            if i < n {
                assert(init[i] == prs[i]);
                assert(q0.contains((1int, init[i].work_items@[j].id, state)));
                let k = choose|k: int| 0 <= k < q0.len() && q0[k] == (1int, init[i].work_items@[j].id, state);
                assert(q[k] == q0[k]);
            } else {
                assert(q[q0.len() + 1 + j] == w[j]);
            }
        }
        assert forall|k: int| 0 <= k < q.len() implies {
            let t = #[trigger] q[k];
            ||| t.0 == 0 && t.2 == tag && exists|i: int| 0 <= i < prs.len() && (#[trigger] prs[i]).pr_id == t.1
            ||| t.0 == 1 && t.2 == state && exists|i: int, j: int|
                0 <= i < prs.len() && 0 <= j < prs[i].work_items@.len() && (#[trigger] prs[i].work_items@[j]).id
                    == t.1
        } by {
            if k < q0.len() {
                assert(q[k] == q0[k]);
                let t = q0[k];
                if t.0 == 0 {
                    let i = choose|i: int| 0 <= i < init.len() && (#[trigger] init[i]).pr_id == t.1;
                    assert(prs[i] == init[i]);
                } else {
                    let (i, j) = choose|i: int, j: int|
                        0 <= i < init.len() && 0 <= j < init[i].work_items@.len() && (#[trigger] init[i].work_items@[j]).id
                            == t.1;
                    assert(prs[i] == init[i]);
                }
            } else if k == q0.len() {
                assert(prs[n] == pr);
            } else {
                let j = k - q0.len() - 1;
                assert(q[k] == w[j]);
                assert(prs[n] == pr);
                assert(prs[n].work_items@[j].id == q[k].1);
            }
        }
    }
}

/// Plans and books the post-merge tasks.
pub struct PostMergeOperation {
    config: PostMergeConfig,
}

impl PostMergeOperation {
    /// An operation with a configuration.
    pub fn new(config: PostMergeConfig) -> (r: Self)
        ensures
            r.config_view() == config,
    {
        PostMergeOperation { config }
    }

    /// The configuration.
    pub closed spec fn config_view(&self) -> PostMergeConfig {
        self.config
    }

    /// The task queue: a tag task (tag = prefix + version) per PR followed
    /// by an update task per work item of that PR; none has run.
    pub fn build_task_queue(&self, completed_prs: &[CompletedPRInfo]) -> (r: Vec<TaskWithResult>)
        ensures
            queue_view(r@) == task_queue(
                completed_prs@,
                self.config_view().tag_prefix@ + self.config_view().version@,
                self.config_view().work_item_state@,
            ),
            queue_titles(r@) == title_queue(completed_prs@),
            forall|k: int| 0 <= k < r@.len() ==> (#[trigger] r@[k]).result is None,
    {
        let tag = concat2(self.config.tag_prefix.as_str(), self.config.version.as_str());
        let ghost state = self.config.work_item_state@;
        let mut tasks: Vec<TaskWithResult> = Vec::new();
        let mut i: usize = 0;
        while i < completed_prs.len()
            invariant
                0 <= i <= completed_prs@.len(),
                state == self.config.work_item_state@,
                tag@ == self.config.tag_prefix@ + self.config.version@,
                queue_view(tasks@) == task_queue(completed_prs@.subrange(0, i as int), tag@, state),
                queue_titles(tasks@) == title_queue(completed_prs@.subrange(0, i as int)),
                forall|k: int| 0 <= k < tasks@.len() ==> (#[trigger] tasks@[k]).result is None,
            decreases completed_prs@.len() - i,
        {
            let pr = &completed_prs[i];
            let ghost base = queue_view(tasks@);
            let t = TaskWithResult::new(PostMergeTask::TagPR { pr_id: pr.pr_id, pr_title: pr.pr_title.clone(), tag: tag.clone() });
            let ghost before = tasks@;
            tasks.push(t);
            let ghost tbase = queue_titles(tasks@);
            proof {
                assert(queue_view(tasks@) =~= base + seq![(0int, pr.pr_id, tag@)]);
                assert(queue_titles(tasks@) =~= queue_titles(before) + seq![pr.pr_title@]);
            }
            let ghost base2 = queue_view(tasks@);
            let ghost tbase2 = queue_titles(tasks@);
            let mut j: usize = 0;
            while j < pr.work_items.len()
                invariant
                    0 <= j <= pr.work_items@.len(),
                    state == self.config.work_item_state@,
                    queue_view(tasks@) == base2 + pr.work_items@.subrange(0, j as int).map_values(|w: WorkItemInfo| (1int, w.id, state)),
                    queue_titles(tasks@) == tbase2 + pr.work_items@.subrange(0, j as int).map_values(|w: WorkItemInfo| w.title@),
                    forall|k: int| 0 <= k < tasks@.len() ==> (#[trigger] tasks@[k]).result is None,
                decreases pr.work_items@.len() - j,
            {
                let wi = &pr.work_items[j];
                let ghost before2 = tasks@;
                let t = TaskWithResult::new(PostMergeTask::UpdateWorkItem {
                    work_item_id: wi.id,
                    work_item_title: wi.title.clone(),
                    new_state: self.config.work_item_state.clone(),
                });
                tasks.push(t);
                proof {
                    let ws = pr.work_items@;
                    assert(ws.subrange(0, j as int + 1) =~= ws.subrange(0, j as int).push(ws[j as int]));
                    assert(queue_view(tasks@) =~= queue_view(before2).push((1int, wi.id, state)));
                    assert(ws.subrange(0, j as int).push(ws[j as int]).map_values(|w: WorkItemInfo| (1int, w.id, state))
                        =~= ws.subrange(0, j as int).map_values(|w: WorkItemInfo| (1int, w.id, state)).push((1int, wi.id, state)));
                    assert(queue_titles(tasks@) =~= queue_titles(before2).push(wi.title@));
                    assert(ws.subrange(0, j as int).push(ws[j as int]).map_values(|w: WorkItemInfo| w.title@)
                        =~= ws.subrange(0, j as int).map_values(|w: WorkItemInfo| w.title@).push(wi.title@));
                }
                j = j + 1;
            }
            proof {
                assert(pr.work_items@.subrange(0, pr.work_items@.len() as int) =~= pr.work_items@);
                assert(completed_prs@.subrange(0, i as int + 1).drop_last() =~= completed_prs@.subrange(0, i as int));
                assert(completed_prs@.subrange(0, i as int + 1).last() == *pr);
            }
            i = i + 1;
        }
        proof {
            assert(completed_prs@.subrange(0, completed_prs@.len() as int) =~= completed_prs@);
        }
        tasks
    }
}

/// The position of the first task that has not run, if any.
pub open spec fn first_pending(ts: Seq<TaskWithResult>) -> Option<int>
    decreases ts.len(),
{
    if ts.len() == 0 {
        None
    } else {
        match first_pending(ts.drop_last()) {
            Some(i) => Some(i),
            None => if ts.last().result is None { Some(ts.len() - 1) } else { None },
        }
    }
}

/// The position of the first task that has not run.
pub fn next_pending_task(tasks: &[TaskWithResult]) -> (r: Option<usize>)
    ensures
        match r {
            Some(i) => first_pending(tasks@) == Some(i as int),
            None => first_pending(tasks@) is None,
        },
{
    let mut i: usize = 0;
    while i < tasks.len()
        invariant
            0 <= i <= tasks@.len(),
            first_pending(tasks@.subrange(0, i as int)) is None,
        decreases tasks@.len() - i,
    {
        proof {
            assert(tasks@.subrange(0, i as int + 1).drop_last() =~= tasks@.subrange(0, i as int));
        }
        if tasks[i].result.is_none() {
            proof {
                lemma_first_pending_prefix(tasks@, i as int + 1, i as int);
            }
            return Some(i);
        }
        i = i + 1;
    }
    proof {
        assert(tasks@.subrange(0, i as int) =~= tasks@);
    }
    None
}

proof fn lemma_first_pending_prefix(ts: Seq<TaskWithResult>, k: int, idx: int)
    requires
        0 < k <= ts.len(),
        first_pending(ts.subrange(0, k)) == Some(idx),
    ensures
        first_pending(ts) == Some(idx),
    decreases ts.len() - k,
{
    if k < ts.len() {
        assert(ts.subrange(0, k + 1).drop_last() =~= ts.subrange(0, k));
        lemma_first_pending_prefix(ts, k + 1, idx);
    } else {
        assert(ts.subrange(0, k) =~= ts);
    }
}

/// The number of tasks that ran and succeeded, and that ran and failed.
pub open spec fn result_counts(ts: Seq<TaskWithResult>) -> (nat, nat)
    decreases ts.len(),
{
    if ts.len() == 0 {
        (0, 0)
    } else {
        let (s, f) = result_counts(ts.drop_last());
        match ts.last().result {
            Some(PostMergeTaskResult::Success) => (s + 1, f),
            Some(PostMergeTaskResult::Failed { .. }) => (s, f + 1),
            None => (s, f),
        }
    }
}

proof fn lemma_result_counts_le(ts: Seq<TaskWithResult>)
    ensures
        result_counts(ts).0 + result_counts(ts).1 <= ts.len(),
    decreases ts.len(),
{
    if ts.len() > 0 {
        lemma_result_counts_le(ts.drop_last());
    }
}

/// The result of a set of tasks: the tasks with their counts of successes
/// and failures.
pub fn summarize_tasks(tasks: Vec<TaskWithResult>) -> (r: PostMergeResult)
    ensures
        r.tasks == tasks,
        r.success_count == result_counts(tasks@).0,
        r.failed_count == result_counts(tasks@).1,
{
    let mut s: usize = 0;
    let mut f: usize = 0;
    let mut i: usize = 0;
    while i < tasks.len()
        invariant
            0 <= i <= tasks@.len(),
            (s as nat, f as nat) == result_counts(tasks@.subrange(0, i as int)),
        decreases tasks@.len() - i,
    {
        proof {
            assert(tasks@.subrange(0, i as int + 1).drop_last() =~= tasks@.subrange(0, i as int));
            lemma_result_counts_le(tasks@.subrange(0, i as int));
        }
        match &tasks[i].result {
            Some(PostMergeTaskResult::Success) => s = s + 1,
            Some(PostMergeTaskResult::Failed { .. }) => f = f + 1,
            None => {},
        }
        i = i + 1;
    }
    proof {
        assert(tasks@.subrange(0, tasks@.len() as int) =~= tasks@);
    }
    PostMergeResult { tasks, success_count: s, failed_count: f }
}

/// Records the result of task `index`.
pub fn record_task_result(tasks: &mut Vec<TaskWithResult>, index: usize, result: PostMergeTaskResult)
    requires
        index < old(tasks)@.len(),
    ensures
        final(tasks)@ == old(tasks)@.update(index as int, TaskWithResult { task: old(tasks)@[index as int].task, result: Some(result) }),
{
    tasks[index].result = Some(result);
}

/// Makes every failed task pending again, for a retry.
pub fn reset_failed_tasks(tasks: &mut Vec<TaskWithResult>)
    ensures
        final(tasks)@.len() == old(tasks)@.len(),
        forall|k: int| 0 <= k < final(tasks)@.len() ==> (#[trigger] final(tasks)@[k]) == if task_failed(old(tasks)@[k]) {
            TaskWithResult { task: old(tasks)@[k].task, result: None }
        } else {
            old(tasks)@[k]
        },
{
    let mut i: usize = 0;
    while i < tasks.len()
        invariant
            0 <= i <= tasks@.len(),
            tasks@.len() == old(tasks)@.len(),
            forall|k: int| 0 <= k < tasks@.len() ==> (#[trigger] tasks@[k]) == if k < i && task_failed(old(tasks)@[k]) {
                TaskWithResult { task: old(tasks)@[k].task, result: None }
            } else {
                old(tasks)@[k]
            },
        decreases tasks@.len() - i,
    {
        if tasks[i].is_failed() {
            tasks[i].result = None;
        }
        i = i + 1;
    }
}

/// The completed-PR info of the PRs whose ids are in `successful`, in PR
/// order, with their work items (a missing title becomes empty).
pub open spec fn completed_infos(prs: Seq<PullRequestWithWorkItems>, successful: Seq<i32>) -> Seq<(i32, Seq<char>, Seq<(i32, Seq<char>)>)>
    decreases prs.len(),
{
    if prs.len() == 0 {
        Seq::empty()
    } else {
        let init = completed_infos(prs.drop_last(), successful);
        let pr = prs.last();
        if successful.contains(pr.pr.id) {
            init.push((pr.pr.id, pr.pr.title@, pr.work_items@.map_values(|w: WorkItem| (w.id, match w.fields.title {
                Some(t) => t@,
                None => Seq::empty(),
            }))))
        } else {
            init
        }
    }
}

/// The view of a completed-PR info.
pub open spec fn completed_view(c: CompletedPRInfo) -> (i32, Seq<char>, Seq<(i32, Seq<char>)>) {
    (c.pr_id, c.pr_title@, c.work_items@.map_values(|w: WorkItemInfo| (w.id, w.title@)))
}

fn contains_i32(v: &[i32], x: i32) -> (r: bool)
    ensures
        r == v@.contains(x),
{
    let mut i: usize = 0;
    while i < v.len()
        invariant
            0 <= i <= v@.len(),
            forall|k: int| 0 <= k < i ==> v@[k] != x,
        decreases v@.len() - i,
    {
        if v[i] == x {
            assert(v@[i as int] == x);
            return true;
        }
        i = i + 1;
    }
    false
}

/// The PRs whose cherry-pick succeeded, with their work items.
pub fn extract_completed_pr_info(prs: &[PullRequestWithWorkItems], successful_pr_ids: &[i32]) -> (r: Vec<CompletedPRInfo>)
    ensures
        r@.map_values(|c: CompletedPRInfo| completed_view(c)) == completed_infos(prs@, successful_pr_ids@),
{
    let mut out: Vec<CompletedPRInfo> = Vec::new();
    let mut i: usize = 0;
    while i < prs.len()
        invariant
            0 <= i <= prs@.len(),
            out@.map_values(|c: CompletedPRInfo| completed_view(c)) == completed_infos(prs@.subrange(0, i as int), successful_pr_ids@),
        decreases prs@.len() - i,
    {
        proof {
            assert(prs@.subrange(0, i as int + 1).drop_last() =~= prs@.subrange(0, i as int));
        }
        let pr = &prs[i];
        if contains_i32(successful_pr_ids, pr.pr.id) {
            let mut wis: Vec<WorkItemInfo> = Vec::new();
            let mut j: usize = 0;
            while j < pr.work_items.len()
                invariant
                    0 <= j <= pr.work_items@.len(),
                    wis@.map_values(|w: WorkItemInfo| (w.id, w.title@)) == pr.work_items@.subrange(0, j as int).map_values(
                        |w: WorkItem| (w.id, match w.fields.title { Some(t) => t@, None => Seq::empty() }),
                    ),
                decreases pr.work_items@.len() - j,
            {
                let wi = &pr.work_items[j];
                let title = match &wi.fields.title {
                    Some(t) => t.clone(),
                    None => String::new(),
                };
                let ghost before = wis@;
                let info = WorkItemInfo { id: wi.id, title };
                wis.push(info);
                proof {
                    let ws = pr.work_items@;
                    assert(ws.subrange(0, j as int + 1) =~= ws.subrange(0, j as int).push(ws[j as int]));
                    assert(wis@.map_values(|w: WorkItemInfo| (w.id, w.title@)) =~= before.map_values(|w: WorkItemInfo| (w.id, w.title@)).push((info.id, info.title@)));
                }
                j = j + 1;
            }
            proof {
                assert(pr.work_items@.subrange(0, pr.work_items@.len() as int) =~= pr.work_items@);
            }
            let ghost before = out@;
            let c = CompletedPRInfo { pr_id: pr.pr.id, pr_title: pr.pr.title.clone(), work_items: wis };
            out.push(c);
            proof {
                assert(out@.map_values(|c: CompletedPRInfo| completed_view(c)) =~= before.map_values(|c: CompletedPRInfo| completed_view(c)).push(completed_view(c)));
            }
        }
        i = i + 1;
    }
    proof {
        assert(prs@.subrange(0, prs@.len() as int) =~= prs@);
    }
    out
}

} // verus!
