//! The state of a merge operation held in memory: the state file and whether
//! the repository's lock is held.
//!
//! Every change that the state file needs persisted returns the repository
//! path whose state file is to be written (`None` when no state file is
//! set, in which case nothing changes); writing it, and the lock itself,
//! belong to the caller.

use vstd::prelude::*;
use std::collections::HashMap;
use crate::state::file::{
    MergeStateFile, MergePhase, MergeStatus, StateCherryPickItem, StateItemStatus, fresh_state, now_millis,
};
use crate::runner::non_interactive::LockAttempt;
use crate::text::concat2;

verus! {

broadcast use vstd::std_specs::hash::group_hash_axioms;

/// The settings a new state file is created with.
#[derive(Debug, Clone)]
pub struct StateCreateConfig {
    /// Azure DevOps organization name.
    pub organization: String,
    /// Azure DevOps project name.
    pub project: String,
    /// Azure DevOps repository name.
    pub repository: String,
    /// Source branch of the PRs.
    pub dev_branch: String,
    /// Target branch of the cherry-picks.
    pub target_branch: String,
    /// Prefix of the PR tags.
    pub tag_prefix: String,
    /// State work items are moved to after completion.
    pub work_item_state: String,
    /// Whether git hooks run during this merge.
    pub run_hooks: bool,
}

/// Holds the state file of the current merge and whether its lock is held.
#[derive(Debug)]
pub struct StateManager {
    state_file: Option<MergeStateFile>,
    lock_held: bool,
}

/// The message when another merge holds the repository's lock.
pub open spec fn lock_in_use_message() -> Seq<char> {
    "Another merge operation is in progress for this repository"@
}

/// The state file created for a repository with the given settings.
pub open spec fn created_for(
    s: MergeStateFile,
    repo_path: String,
    base_repo_path: Option<String>,
    is_worktree: bool,
    version: Seq<char>,
    config: StateCreateConfig,
) -> bool {
    &&& fresh_state(s)
    &&& s.repo_path == repo_path
    &&& s.base_repo_path == base_repo_path
    &&& s.is_worktree == is_worktree
    &&& s.organization == config.organization
    &&& s.project == config.project
    &&& s.repository == config.repository
    &&& s.dev_branch == config.dev_branch
    &&& s.target_branch == config.target_branch
    &&& s.merge_version@ == version
    &&& s.work_item_state == config.work_item_state
    &&& s.tag_prefix == config.tag_prefix
    &&& s.run_hooks == config.run_hooks
}

/// The work item ids recorded for a PR (none when the map has no entry).
pub open spec fn work_items_for(m: Map<i32, Vec<i32>>, pr_id: i32) -> Seq<i32> {
    if m.contains_key(pr_id) {
        m[pr_id]@
    } else {
        Seq::empty()
    }
}

/// `items` with each item's work item ids taken from the map.
pub open spec fn with_work_items(
    items: Seq<StateCherryPickItem>,
    m: Map<i32, Vec<i32>>,
    out: Seq<StateCherryPickItem>,
) -> bool {
    &&& out.len() == items.len()
    &&& forall|k: int|
        0 <= k < items.len() ==> {
            &&& (#[trigger] out[k]).commit_id == items[k].commit_id
            &&& out[k].pr_id == items[k].pr_id
            &&& out[k].pr_title == items[k].pr_title
            &&& out[k].status == items[k].status
            &&& out[k].work_item_ids@ == work_items_for(m, items[k].pr_id)
        }
}

impl StateManager {
    /// The state file, if one is set.
    pub closed spec fn state(&self) -> Option<MergeStateFile> {
        self.state_file
    }

    /// Whether the repository's lock is held.
    pub closed spec fn locked(&self) -> bool {
        self.lock_held
    }

    /// The path of the repository whose state file is to be written after a
    /// change: that of the state file, when one is set.
    pub open spec fn save_target(&self) -> Option<Seq<char>> {
        match self.state() {
            Some(s) => Some(s.repo_path@),
            None => None,
        }
    }

    /// A manager with no state file and no lock.
    pub fn new() -> (r: Self)
        ensures
            r.state() is None,
            !r.locked(),
    {
        StateManager { state_file: None, lock_held: false }
    }

    /// Starts a merge once the lock was tried: when it was acquired, sets a
    /// fresh state file for the repository and returns the repository path
    /// whose state file is to be written; otherwise returns the error.
    pub fn create_state_file(
        &mut self,
        lock: LockAttempt,
        repo_path: String,
        base_repo_path: Option<String>,
        is_worktree: bool,
        version: &str,
        config: &StateCreateConfig,
    ) -> (r: Result<String, String>)
        ensures
            match lock {
                LockAttempt::Acquired => {
                    &&& r matches Ok(p) && p == repo_path
                    &&& final(self).state() matches Some(s) && created_for(s, repo_path, base_repo_path, is_worktree, version@, *config)
                    &&& final(self).locked() == old(self).locked()
                },
                LockAttempt::Held => {
                    &&& r matches Err(e) && e@ == lock_in_use_message()
                    &&& *final(self) == *old(self)
                },
                LockAttempt::Failed(msg) => {
                    &&& r matches Err(e) && e@ == "Failed to acquire lock: "@ + msg@
                    &&& *final(self) == *old(self)
                },
            },
    {
        match lock {
            LockAttempt::Acquired => {},
            LockAttempt::Held => {
                return Err("Another merge operation is in progress for this repository".to_owned());
            },
            LockAttempt::Failed(msg) => {
                return Err(concat2("Failed to acquire lock: ", msg.as_str()));
            },
        }
        let state = MergeStateFile::new(
            repo_path.clone(),
            base_repo_path,
            is_worktree,
            config.organization.clone(),
            config.project.clone(),
            config.repository.clone(),
            config.dev_branch.clone(),
            config.target_branch.clone(),
            version.to_owned(),
            config.work_item_state.clone(),
            config.tag_prefix.clone(),
            config.run_hooks,
        );
        self.state_file = Some(state);
        Ok(repo_path)
    }

    /// Records how writing a newly created state file went: on success the
    /// lock is kept, otherwise the state file is dropped.
    pub fn record_created(&mut self, saved: bool)
        ensures
            saved ==> final(self).state() == old(self).state() && final(self).locked(),
            !saved ==> final(self).state() is None && final(self).locked() == old(self).locked(),
    {
        if saved {
            self.lock_held = true;
        } else {
            self.state_file = None;
        }
    }

    /// Sets the state file (when resuming from a loaded one).
    pub fn set_state_file(&mut self, state_file: MergeStateFile)
        ensures
            final(self).state() == Some(state_file),
            final(self).locked() == old(self).locked(),
    {
        self.state_file = Some(state_file);
    }

    /// Records that the repository's lock is held (when resuming).
    pub fn set_lock_guard(&mut self)
        ensures
            final(self).state() == old(self).state(),
            final(self).locked(),
    {
        self.lock_held = true;
    }

    /// The state file, if one is set.
    pub fn state_file(&self) -> (r: Option<&MergeStateFile>)
        ensures
            match r {
                Some(s) => self.state() == Some(*s),
                None => self.state() is None,
            },
    {
        match &self.state_file {
            Some(s) => Some(s),
            None => None,
        }
    }

    /// The repository path of the state file, if one is set.
    pub fn state_repo_path(&self) -> (r: Option<&str>)
        ensures
            match r {
                Some(p) => self.save_target() == Some(p@),
                None => self.state() is None,
            },
    {
        match &self.state_file {
            Some(s) => Some(s.repo_path.as_str()),
            None => None,
        }
    }

    /// Whether a state file is set.
    pub fn has_state_file(&self) -> (r: bool)
        ensures
            r == (self.state() is Some),
    {
        self.state_file.is_some()
    }

    /// Whether the lock is held.
    pub fn has_lock(&self) -> (r: bool)
        ensures
            r == self.locked(),
    {
        self.lock_held
    }

    /// The repository whose state file is to be written, if any.
    pub fn save(&self) -> (r: Option<String>)
        ensures
            match r {
                Some(p) => self.save_target() == Some(p@),
                None => self.state() is None,
            },
    {
        match &self.state_file {
            Some(s) => Some(s.repo_path.clone()),
            None => None,
        }
    }

    /// Sets the phase.
    pub fn update_phase(&mut self, phase: MergePhase) -> (r: Option<String>)
        ensures
            final(self).locked() == old(self).locked(),
            match old(self).state() {
                Some(s) => {
                    &&& r matches Some(p) && p == s.repo_path
                    &&& final(self).state() == Some(MergeStateFile { phase, ..s })
                },
                None => r is None && final(self).state() is None,
            },
    {
        match &mut self.state_file {
            Some(s) => {
                s.phase = phase;
                Some(s.repo_path.clone())
            },
            None => None,
        }
    }

    /// Sets the status of item `index` (when there is one) and the current
    /// index.
    pub fn update_item_status(&mut self, index: usize, status: StateItemStatus, current_index: usize) -> (r: Option<String>)
        ensures
            final(self).locked() == old(self).locked(),
            match old(self).state() {
                Some(s) => {
                    &&& r matches Some(p) && p == s.repo_path
                    &&& final(self).state() matches Some(t) && {
                        &&& t.current_index == current_index
                        &&& t.cherry_pick_items@ == if index < s.cherry_pick_items@.len() {
                            s.cherry_pick_items@.update(
                                index as int,
                                StateCherryPickItem { status, ..s.cherry_pick_items@[index as int] },
                            )
                        } else {
                            s.cherry_pick_items@
                        }
                        &&& t == MergeStateFile { current_index, cherry_pick_items: t.cherry_pick_items, ..s }
                    }
                },
                None => r is None && final(self).state() is None,
            },
    {
        match &mut self.state_file {
            Some(s) => {
                if index < s.cherry_pick_items.len() {
                    let mut item = s.cherry_pick_items.remove(index);
                    item.status = status;
                    s.cherry_pick_items.insert(index, item);
                }
                s.current_index = current_index;
                Some(s.repo_path.clone())
            },
            None => None,
        }
    }

    /// Sets the current index.
    pub fn sync_current_index(&mut self, current_index: usize) -> (r: Option<String>)
        ensures
            final(self).locked() == old(self).locked(),
            match old(self).state() {
                Some(s) => {
                    &&& r matches Some(p) && p == s.repo_path
                    &&& final(self).state() == Some(MergeStateFile { current_index, ..s })
                },
                None => r is None && final(self).state() is None,
            },
    {
        match &mut self.state_file {
            Some(s) => {
                s.current_index = current_index;
                Some(s.repo_path.clone())
            },
            None => None,
        }
    }

    /// Sets the cherry-pick items, each with the work item ids the map
    /// records for its PR, and the current index.
    pub fn set_cherry_pick_items(
        &mut self,
        items: Vec<StateCherryPickItem>,
        work_items_map: &HashMap<i32, Vec<i32>>,
        current_index: usize,
    ) -> (r: Option<String>)
        ensures
            final(self).locked() == old(self).locked(),
            match old(self).state() {
                Some(s) => {
                    &&& r matches Some(p) && p == s.repo_path
                    &&& final(self).state() matches Some(t) && {
                        &&& with_work_items(items@, work_items_map@, t.cherry_pick_items@)
                        &&& t == MergeStateFile { current_index, cherry_pick_items: t.cherry_pick_items, ..s }
                    }
                },
                None => r is None && final(self).state() is None,
            },
    {
        match &mut self.state_file {
            Some(s) => {
                let mut out: Vec<StateCherryPickItem> = Vec::new();
                let mut rest = items;
                let ghost all = rest@;
                let n = rest.len();
                let mut k: usize = 0;
                while k < n
                    invariant
                        n == all.len(),
                        0 <= k <= all.len(),
                        rest@ == all.skip(k as int),
                        with_work_items(all.take(k as int), work_items_map@, out@),
                    decreases all.len() - k,
                {
                    let ghost before = out@;
                    let mut item = rest.remove(0);
                    let ids = match work_items_map.get(&item.pr_id) {
                        Some(v) => copy_ids(v),
                        None => Vec::new(),
                    };
                    item.work_item_ids = ids;
                    out.push(item);
                    proof {
                        assert(all.skip(k as int)[0] == all[k as int]);
                        assert(rest@ =~= all.skip(k + 1));
                        assert(all.take(k + 1) =~= all.take(k as int).push(all[k as int]));
                        assert forall|j: int| 0 <= j < k + 1 implies {
                            &&& (#[trigger] out@[j]).commit_id == all.take(k + 1)[j].commit_id
                            &&& out@[j].pr_id == all.take(k + 1)[j].pr_id
                            &&& out@[j].pr_title == all.take(k + 1)[j].pr_title
                            &&& out@[j].status == all.take(k + 1)[j].status
                            &&& out@[j].work_item_ids@ == work_items_for(work_items_map@, all.take(k + 1)[j].pr_id)
                        } by {
                            if j < k {
                                assert(out@[j] == before[j]);
                                assert(all.take(k + 1)[j] == all.take(k as int)[j]);
                            }
                        }
                    }
                    k = k + 1;
                }
                proof {
                    assert(all.take(all.len() as int) =~= all);
                }
                s.cherry_pick_items = out;
                s.current_index = current_index;
                Some(s.repo_path.clone())
            },
            None => None,
        }
    }

    /// Records the conflicted files.
    pub fn set_conflicted_files(&mut self, files: Vec<String>) -> (r: Option<String>)
        ensures
            final(self).locked() == old(self).locked(),
            match old(self).state() {
                Some(s) => {
                    &&& r matches Some(p) && p == s.repo_path
                    &&& final(self).state() == Some(MergeStateFile { conflicted_files: Some(files), ..s })
                },
                None => r is None && final(self).state() is None,
            },
    {
        match &mut self.state_file {
            Some(s) => {
                s.conflicted_files = Some(files);
                Some(s.repo_path.clone())
            },
            None => None,
        }
    }

    /// Clears the conflicted files.
    pub fn clear_conflicted_files(&mut self) -> (r: Option<String>)
        ensures
            final(self).locked() == old(self).locked(),
            match old(self).state() {
                Some(s) => {
                    &&& r matches Some(p) && p == s.repo_path
                    &&& final(self).state() == Some(MergeStateFile { conflicted_files: None, ..s })
                },
                None => r is None && final(self).state() is None,
            },
    {
        match &mut self.state_file {
            Some(s) => {
                s.conflicted_files = None;
                Some(s.repo_path.clone())
            },
            None => None,
        }
    }

    /// Fills a newly created state file with its items and moves it to the
    /// cherry-picking phase.
    pub fn populate_items(&mut self, items: Vec<StateCherryPickItem>) -> (r: Option<String>)
        ensures
            final(self).locked() == old(self).locked(),
            match old(self).state() {
                Some(s) => {
                    &&& r matches Some(p) && p == s.repo_path
                    &&& final(self).state() == Some(
                        MergeStateFile { cherry_pick_items: items, phase: MergePhase::CherryPicking, ..s },
                    )
                },
                None => r is None && final(self).state() is None,
            },
    {
        match &mut self.state_file {
            Some(s) => {
                s.cherry_pick_items = items;
                s.phase = MergePhase::CherryPicking;
                Some(s.repo_path.clone())
            },
            None => None,
        }
    }

    /// Records the final status, completed now.
    pub fn set_final_status(&mut self, status: MergeStatus) -> (r: Option<String>)
        ensures
            final(self).locked() == old(self).locked(),
            match old(self).state() {
                Some(s) => {
                    &&& r matches Some(p) && p == s.repo_path
                    &&& final(self).state() matches Some(t) && {
                        &&& t.completed_at is Some
                        &&& t == MergeStateFile { final_status: Some(status), completed_at: t.completed_at, ..s }
                    }
                },
                None => r is None && final(self).state() is None,
            },
    {
        match &mut self.state_file {
            Some(s) => {
                s.final_status = Some(status);
                s.completed_at = Some(now_millis());
                Some(s.repo_path.clone())
            },
            None => None,
        }
    }

    /// Drops the state file and the lock; returns the repository whose
    /// state file is to be removed, if one was set.
    pub fn cleanup(&mut self) -> (r: Option<String>)
        ensures
            match old(self).state() {
                Some(s) => r matches Some(p) && p == s.repo_path,
                None => r is None,
            },
            final(self).state() is None,
            !final(self).locked(),
    {
        let r = match &self.state_file {
            Some(s) => Some(s.repo_path.clone()),
            None => None,
        };
        self.state_file = None;
        self.lock_held = false;
        r
    }
}

impl Default for StateManager {
    fn default() -> (r: Self)
        ensures
            r.state() is None,
            !r.locked(),
    {
        StateManager::new()
    }
}

/// A copy of a list of ids.
fn copy_ids(v: &Vec<i32>) -> (r: Vec<i32>)
    ensures
        r@ == v@,
{
    let mut out: Vec<i32> = Vec::new();
    let mut i: usize = 0;
    while i < v.len()
        invariant
            0 <= i <= v@.len(),
            out@ == v@.take(i as int),
        decreases v@.len() - i,
    {
        out.push(v[i]);
        i = i + 1;
        proof {
            assert(out@ =~= v@.take(i as int));
        }
    }
    proof {
        assert(v@.take(v@.len() as int) =~= v@);
    }
    out
}

} // verus!
