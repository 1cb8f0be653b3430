//! Cherry-pick outcomes, items and the recognition of conflicted files in
//! `git status --porcelain` output.

use vstd::prelude::*;
use crate::models::CherryPickStatus;
use crate::operations::pr_selection::{split_on, string_seq_view};

verus! {

/// What the git layer reports for one cherry-pick.
#[derive(Debug, Clone)]
pub enum CherryPickResult {
    Success,
    Conflict(Vec<String>),
    Failed(String),
}

/// Outcome of cherry-picking one commit.
#[derive(Debug, Clone)]
pub enum CherryPickOutcome {
    Success,
    Conflict { conflicted_files: Vec<String> },
    Skipped,
    Failed { message: String },
}

/// The outcome a git result converts to.
pub open spec fn outcome_from_result(r: CherryPickResult) -> CherryPickOutcome {
    match r {
        CherryPickResult::Success => CherryPickOutcome::Success,
        CherryPickResult::Conflict(files) => CherryPickOutcome::Conflict { conflicted_files: files },
        CherryPickResult::Failed(msg) => CherryPickOutcome::Failed { message: msg },
    }
}

/// The item status an outcome converts to.
pub open spec fn status_from_outcome(o: CherryPickOutcome) -> CherryPickStatus {
    match o {
        CherryPickOutcome::Success => CherryPickStatus::Success,
        CherryPickOutcome::Conflict { .. } => CherryPickStatus::Conflict,
        CherryPickOutcome::Skipped => CherryPickStatus::Skipped,
        CherryPickOutcome::Failed { message } => CherryPickStatus::Failed(message),
    }
}

impl From<CherryPickResult> for CherryPickOutcome {
    fn from(result: CherryPickResult) -> (r: Self) {
        match result {
            CherryPickResult::Success => CherryPickOutcome::Success,
            CherryPickResult::Conflict(files) => CherryPickOutcome::Conflict { conflicted_files: files },
            CherryPickResult::Failed(msg) => CherryPickOutcome::Failed { message: msg },
        }
    }
}

impl vstd::std_specs::convert::FromSpecImpl<CherryPickResult> for CherryPickOutcome {
    open spec fn obeys_from_spec() -> bool {
        true
    }

    open spec fn from_spec(v: CherryPickResult) -> CherryPickOutcome {
        outcome_from_result(v)
    }
}

impl From<CherryPickOutcome> for CherryPickStatus {
    fn from(outcome: CherryPickOutcome) -> (r: Self) {
        match outcome {
            CherryPickOutcome::Success => CherryPickStatus::Success,
            CherryPickOutcome::Conflict { .. } => CherryPickStatus::Conflict,
            CherryPickOutcome::Skipped => CherryPickStatus::Skipped,
            CherryPickOutcome::Failed { message } => CherryPickStatus::Failed(message),
        }
    }
}

impl vstd::std_specs::convert::FromSpecImpl<CherryPickOutcome> for CherryPickStatus {
    open spec fn obeys_from_spec() -> bool {
        true
    }

    open spec fn from_spec(v: CherryPickOutcome) -> CherryPickStatus {
        status_from_outcome(v)
    }
}

/// The outcome of a cherry-pick attempt: the git layer's result, or a
/// failure carrying the error message when the attempt itself failed.
pub fn outcome_of_attempt(attempt: Result<CherryPickResult, String>) -> (r: CherryPickOutcome)
    ensures
        r == match attempt {
            Ok(res) => outcome_from_result(res),
            Err(e) => CherryPickOutcome::Failed { message: e },
        },
{
    match attempt {
        Ok(res) => CherryPickOutcome::from(res),
        Err(e) => CherryPickOutcome::Failed { message: e },
    }
}

/// Progress of a cherry-pick run.
#[derive(Debug, Clone)]
pub enum CherryPickProgress {
    Starting { pr_id: i32, commit_id: String, index: usize, total: usize },
    Completed { pr_id: i32, outcome: CherryPickOutcome },
    AllComplete { success_count: usize, failed_count: usize, skipped_count: usize },
}

/// Configuration of cherry-picks.
#[derive(Debug, Clone, Copy, PartialEq, Eq, Structural)]
pub struct CherryPickConfig {
    /// Whether git hooks run during cherry-picks.
    pub run_hooks: bool,
    /// Whether the repository is a worktree (rather than a clone).
    pub is_worktree: bool,
}

impl Default for CherryPickConfig {
    fn default() -> (r: Self)
        ensures
            !r.run_hooks,
            r.is_worktree,
    {
        CherryPickConfig { run_hooks: false, is_worktree: true }
    }
}

/// An item to cherry-pick.
#[derive(Debug, Clone)]
pub struct CherryPickItem {
    pub commit_id: String,
    pub pr_id: i32,
    pub pr_title: String,
    pub status: CherryPickStatus,
    pub work_item_ids: Vec<i32>,
}

/// The result of processing all items.
#[derive(Debug, Clone)]
pub struct CherryPickBatchResult {
    pub items: Vec<CherryPickItem>,
    pub conflict_index: Option<usize>,
    pub all_complete: bool,
}

/// The number of items whose status satisfies `f`.
pub open spec fn count_status(items: Seq<CherryPickItem>, f: spec_fn(CherryPickStatus) -> bool) -> nat
    decreases items.len(),
{
    if items.len() == 0 {
        0
    } else {
        count_status(items.drop_last(), f) + if f(items.last().status) { 1nat } else { 0nat }
    }
}

proof fn lemma_count_status_le(items: Seq<CherryPickItem>, f: spec_fn(CherryPickStatus) -> bool)
    ensures
        count_status(items, f) <= items.len(),
    decreases items.len(),
{
    if items.len() > 0 {
        lemma_count_status_le(items.drop_last(), f);
    }
}

fn count_items(items: &Vec<CherryPickItem>, which: u8) -> (r: usize)
    requires
        which < 3,
    ensures
        r == count_status(items@, |s: CherryPickStatus| status_kind(s) == which),
{
    let ghost f = |s: CherryPickStatus| status_kind(s) == which;
    let mut n: usize = 0;
    let mut i: usize = 0;
    while i < items.len()
        invariant
            0 <= i <= items@.len(),
            f == (|s: CherryPickStatus| status_kind(s) == which),
            n == count_status(items@.subrange(0, i as int), f),
        decreases items@.len() - i,
    {
        proof {
            assert(items@.subrange(0, i as int + 1).drop_last() =~= items@.subrange(0, i as int));
            lemma_count_status_le(items@.subrange(0, i as int), f);
        }
        let k: u8 = match &items[i].status {
            CherryPickStatus::Success => 0,
            CherryPickStatus::Failed(_) => 1,
            CherryPickStatus::Skipped => 2,
            _ => 3,
        };
        if k == which {
            n = n + 1;
        }
        i = i + 1;
    }
    proof {
        assert(items@.subrange(0, items@.len() as int) =~= items@);
    }
    n
}

/// 0 for success, 1 for failed, 2 for skipped, 3 otherwise.
pub open spec fn status_kind(s: CherryPickStatus) -> u8 {
    match s {
        CherryPickStatus::Success => 0,
        CherryPickStatus::Failed(_) => 1,
        CherryPickStatus::Skipped => 2,
        _ => 3,
    }
}

impl CherryPickBatchResult {
    /// The number of successful items.
    pub fn success_count(&self) -> (r: usize)
        ensures
            r == count_status(self.items@, |s: CherryPickStatus| status_kind(s) == 0u8),
    {
        count_items(&self.items, 0)
    }

    /// The number of failed items.
    pub fn failed_count(&self) -> (r: usize)
        ensures
            r == count_status(self.items@, |s: CherryPickStatus| status_kind(s) == 1u8),
    {
        count_items(&self.items, 1)
    }

    /// The number of skipped items.
    pub fn skipped_count(&self) -> (r: usize)
        ensures
            r == count_status(self.items@, |s: CherryPickStatus| status_kind(s) == 2u8),
    {
        count_items(&self.items, 2)
    }
}

/// Cherry-pick operation settings.
pub struct CherryPickOperation {
    config: CherryPickConfig,
}

impl CherryPickOperation {
    /// An operation with a configuration.
    pub fn new(config: CherryPickConfig) -> (r: Self)
        ensures
            r.config_view() == config,
    {
        CherryPickOperation { config }
    }

    /// The configuration.
    pub closed spec fn config_view(&self) -> CherryPickConfig {
        self.config
    }

    /// The configuration.
    pub fn config(&self) -> (r: &CherryPickConfig)
        ensures
            *r == self.config_view(),
    {
        &self.config
    }

    /// Whether git hooks run.
    pub fn run_hooks(&self) -> (r: bool)
        ensures
            r == self.config_view().run_hooks,
    {
        self.config.run_hooks
    }
}

/// Whether a porcelain status line marks a conflict: either of its first
/// two characters is `U`, or they are `AA` or `DD`.
pub open spec fn conflict_marker(line: Seq<char>) -> bool {
    line.len() >= 2 && ((line[0] == 'U' || line[1] == 'U') || (line[0] == 'A' && line[1] == 'A') || (line[0] == 'D'
        && line[1] == 'D'))
}

/// Whether a `git status --porcelain` line marks a conflict.
pub fn is_conflict_status_line(line: &str) -> (r: bool)
    ensures
        r == conflict_marker(line@),
{
    let n = line.unicode_len();
    if n < 2 {
        return false;
    }
    let a = line.get_char(0);
    let b = line.get_char(1);
    (a == 'U' || b == 'U') || (a == 'A' && b == 'A') || (a == 'D' && b == 'D')
}

/// The lines of a text: split at `\n`, a trailing `\r` removed from each,
/// without a last empty line.
pub open spec fn text_lines(s: Seq<char>) -> Seq<Seq<char>> {
    let parts = split_on(s, '\n');
    let kept = if parts.last().len() == 0 { parts.drop_last() } else { parts };
    kept.map_values(|l: Seq<char>| strip_cr(l))
}

/// A line without its trailing carriage return.
pub open spec fn strip_cr(l: Seq<char>) -> Seq<char> {
    if l.len() > 0 && l.last() == '\r' { l.drop_last() } else { l }
}

/// The files of the conflict lines among `lines`: each line with at least
/// three characters and a conflict marker, without its first three
/// characters.
pub open spec fn conflicted_in(lines: Seq<Seq<char>>) -> Seq<Seq<char>>
    decreases lines.len(),
{
    if lines.len() == 0 {
        Seq::empty()
    } else {
        let init = conflicted_in(lines.drop_last());
        let l = lines.last();
        if l.len() >= 3 && conflict_marker(l) {
            init.push(l.subrange(3, l.len() as int))
        } else {
            init
        }
    }
}

/// The conflicts among two runs of lines are those of the first run
/// followed by those of the second.
pub proof fn law_conflicted_in_concat(a: Seq<Seq<char>>, b: Seq<Seq<char>>)
    ensures
        conflicted_in(a + b) == conflicted_in(a) + conflicted_in(b),
    decreases b.len(),
{
    if b.len() == 0 {
        assert(a + b =~= a);
        assert(conflicted_in(a) + conflicted_in(b) =~= conflicted_in(a));
    } else {
        law_conflicted_in_concat(a, b.drop_last());
        assert((a + b).drop_last() =~= a + b.drop_last());
        assert((a + b).last() == b.last());
        let l = b.last();
        if l.len() >= 3 && conflict_marker(l) {
            assert(conflicted_in(a) + conflicted_in(b.drop_last()).push(l.subrange(3, l.len() as int)) =~= (
            conflicted_in(a) + conflicted_in(b.drop_last())).push(l.subrange(3, l.len() as int)));
        }
    }
}

/// Every status line of at least three characters whose two-letter code
/// marks a conflict (a `U` in either position, `AA` or `DD`) contributes
/// its path, the line without its first three characters; every reported
/// path comes from such a line; no other line contributes.
pub proof fn law_conflict_lines_reported(lines: Seq<Seq<char>>)
    ensures
        forall|k: int|
            0 <= k < lines.len() && (#[trigger] lines[k]).len() >= 3 && (lines[k][0] == 'U' || lines[k][1] == 'U'
                || (lines[k][0] == 'A' && lines[k][1] == 'A') || (lines[k][0] == 'D' && lines[k][1] == 'D'))
                ==> conflicted_in(lines).contains(lines[k].subrange(3, lines[k].len() as int)),
        forall|p: Seq<char>|
            #[trigger] conflicted_in(lines).contains(p) ==> exists|k: int|
                0 <= k < lines.len() && (#[trigger] lines[k]).len() >= 3 && (lines[k][0] == 'U' || lines[k][1]
                    == 'U' || (lines[k][0] == 'A' && lines[k][1] == 'A') || (lines[k][0] == 'D' && lines[k][1]
                    == 'D')) && p == lines[k].subrange(3, lines[k].len() as int),
        conflicted_in(lines).len() <= lines.len(),
    decreases lines.len(),
{
    if lines.len() > 0 {
        let init = lines.drop_last();
        let l = lines.last();
        law_conflict_lines_reported(init);
        let r0 = conflicted_in(init);
        assert forall|k: int|
            0 <= k < lines.len() && (#[trigger] lines[k]).len() >= 3 && (lines[k][0] == 'U' || lines[k][1] == 'U'
                || (lines[k][0] == 'A' && lines[k][1] == 'A') || (lines[k][0] == 'D' && lines[k][1] == 'D'))
            implies conflicted_in(lines).contains(lines[k].subrange(3, lines[k].len() as int)) by {
            if k < lines.len() - 1 {
                assert(init[k] == lines[k]);
                let p = lines[k].subrange(3, lines[k].len() as int);
                assert(r0.contains(p));
                let j = choose|j: int| 0 <= j < r0.len() && r0[j] == p;
                if l.len() >= 3 && conflict_marker(l) {
                    assert(conflicted_in(lines)[j] == p);
                }
            } else {
                let r = conflicted_in(lines);
                assert(r[r.len() - 1] == lines[k].subrange(3, lines[k].len() as int));
            }
        }
        assert forall|p: Seq<char>|
            #[trigger] conflicted_in(lines).contains(p) implies exists|k: int|
                0 <= k < lines.len() && (#[trigger] lines[k]).len() >= 3 && (lines[k][0] == 'U' || lines[k][1]
                    == 'U' || (lines[k][0] == 'A' && lines[k][1] == 'A') || (lines[k][0] == 'D' && lines[k][1]
                    == 'D')) && p == lines[k].subrange(3, lines[k].len() as int) by {
            let r = conflicted_in(lines);
            let j = choose|j: int| 0 <= j < r.len() && r[j] == p;
            if j < r0.len() {
                assert(r0[j] == p);
                assert(r0.contains(p));
                let k = choose|k: int|
                    0 <= k < init.len() && (#[trigger] init[k]).len() >= 3 && (init[k][0] == 'U' || init[k][1]
                        == 'U' || (init[k][0] == 'A' && init[k][1] == 'A') || (init[k][0] == 'D' && init[k][1]
                        == 'D')) && p == init[k].subrange(3, init[k].len() as int);
                assert(lines[k] == init[k]);
            } else {
                assert(lines[lines.len() - 1] == l);
            }
        }
    }
}

proof fn lemma_split_nonempty(s: Seq<char>, sep: char)
    ensures
        split_on(s, sep).len() >= 1,
    decreases s.len(),
{
    if s.len() > 0 {
        lemma_split_nonempty(s.drop_last(), sep);
    }
}

/// Splits a string at every occurrence of `sep`.
pub fn split_at_char(text: &str, sep: char) -> (r: Vec<String>)
    ensures
        string_seq_view(r@) == split_on(text@, sep),
{
    let n = text.unicode_len();
    let ghost s = text@;
    let mut out: Vec<String> = Vec::new();
    let mut start: usize = 0;
    let mut i: usize = 0;
    while i < n
        invariant
            0 <= start <= i <= n,
            n == s.len(),
            s == text@,
            ({
                let sp = split_on(s.subrange(0, i as int), sep);
                &&& sp.len() >= 1
                &&& sp.last() == s.subrange(start as int, i as int)
                &&& string_seq_view(out@) == sp.drop_last()
            }),
        decreases n - i,
    {
        let c = text.get_char(i);
        proof {
            let pre = s.subrange(0, i as int);
            let post = s.subrange(0, i as int + 1);
            assert(post.drop_last() =~= pre);
            assert(post.last() == c);
            lemma_split_nonempty(pre, sep);
        }
        if c == sep {
            let seg = text.substring_char(start, i);
            let t = seg.to_owned();
            proof {
                let sp = split_on(s.subrange(0, i as int), sep);
                let sp2 = split_on(s.subrange(0, i as int + 1), sep);
                assert(sp2 == sp.push(Seq::empty()));
                assert(sp2.drop_last() =~= sp);
                assert(sp.drop_last().push(sp.last()) =~= sp);
                assert(string_seq_view(out@.push(t)) =~= string_seq_view(out@).push(t@));
            }
            out.push(t);
            start = i + 1;
            proof {
                assert(s.subrange(start as int, i as int + 1) =~= Seq::<char>::empty());
            }
        } else {
            proof {
                let sp = split_on(s.subrange(0, i as int), sep);
                let sp2 = split_on(s.subrange(0, i as int + 1), sep);
                assert(sp2 == sp.update(sp.len() - 1, sp.last().push(c)));
                assert(sp2.drop_last() =~= sp.drop_last());
                assert(s.subrange(start as int, i as int + 1) =~= s.subrange(start as int, i as int).push(c));
            }
        }
        i = i + 1;
    }
    let seg = text.substring_char(start, n);
    let t = seg.to_owned();
    proof {
        assert(s.subrange(0, n as int) =~= s);
        let sp = split_on(s, sep);
        lemma_split_nonempty(s, sep);
        assert(sp.drop_last().push(sp.last()) =~= sp);
        assert(string_seq_view(out@.push(t)) =~= string_seq_view(out@).push(t@));
    }
    out.push(t);
    out
}

/// The files that `git status --porcelain` output marks as conflicted.
pub fn conflicted_files_from_status(status: &str) -> (r: Vec<String>)
    ensures
        string_seq_view(r@) == conflicted_in(text_lines(status@)),
{
    let parts = split_at_char(status, '\n');
    let ghost sp = split_on(status@, '\n');
    proof {
        lemma_split_nonempty(status@, '\n');
    }
    let mut count = parts.len();
    if count > 0 && parts[count - 1].unicode_len() == 0 {
        count = count - 1;
    }
    let ghost kept = if sp.last().len() == 0 { sp.drop_last() } else { sp };
    proof {
        assert(string_seq_view(parts@).subrange(0, count as int) =~= kept);
    }
    let mut out: Vec<String> = Vec::new();
    let mut i: usize = 0;
    while i < count
        invariant
            0 <= i <= count <= parts@.len(),
            string_seq_view(parts@).subrange(0, count as int) == kept,
            kept == (if sp.last().len() == 0 { sp.drop_last() } else { sp }),
            text_lines(status@) == kept.map_values(|l: Seq<char>| strip_cr(l)),
            string_seq_view(out@) == conflicted_in(kept.map_values(|l: Seq<char>| strip_cr(l)).subrange(0, i as int)),
        decreases count - i,
    {
        let raw = parts[i].as_str();
        let len = raw.unicode_len();
        let line: &str = if len > 0 && raw.get_char(len - 1) == '\r' {
            raw.substring_char(0, len - 1)
        } else {
            raw
        };
        let ghost lines = kept.map_values(|l: Seq<char>| strip_cr(l));
        proof {
            assert(kept[i as int] == parts@[i as int]@);
            if len > 0 && raw@.last() == '\r' {
                assert(line@ =~= raw@.drop_last());
            }
            assert(line@ == lines[i as int]);
            assert(lines.subrange(0, i as int + 1).drop_last() =~= lines.subrange(0, i as int));
        }
        let m = line.unicode_len();
        if m >= 3 && is_conflict_status_line(line) {
            let f = line.substring_char(3, m).to_owned();
            proof {
                assert(string_seq_view(out@.push(f)) =~= string_seq_view(out@).push(f@));
            }
            out.push(f);
        }
        i = i + 1;
    }
    proof {
        let lines = kept.map_values(|l: Seq<char>| strip_cr(l));
        assert(lines.subrange(0, count as int) =~= lines);
    }
    out
}

} // verus!
