//! Rendering of progress events, conflicts, statuses and summaries, and the
//! writer that queues what each output format writes.
//!
//! The text format is rendered here in full. The JSON formats queue the
//! values to encode; whoever drains the writer encodes and writes them.

use vstd::prelude::*;
use vstd::string::*;
use vstd::utf8::*;
use crate::models::OutputFormat;
use crate::output::events::{
    item_status_text, post_merge_status_text, ConflictInfo, ItemStatus, PostMergeStatus, PostMergeSummary,
    ProgressEvent, StatusInfo, SummaryInfo, SummaryItem, SummaryResult,
};
use crate::text::{concat2, decimal_int, decimal_nat, i32_to_decimal, join_strings, join_with, repeat_char,
    repeat_str, string_views, usize_to_decimal};

verus! {

// ==================== Text pieces ====================

/// A line: the text followed by a newline.
pub open spec fn nl(s: Seq<char>) -> Seq<char> {
    s + "\n"@
}

/// One line `prefix + item` per item, in order.
pub open spec fn prefixed_lines(prefix: Seq<char>, items: Seq<Seq<char>>) -> Seq<char>
    decreases items.len(),
{
    if items.len() == 0 {
        Seq::empty()
    } else {
        prefixed_lines(prefix, items.drop_last()) + nl(prefix + items.last())
    }
}

/// Appends `line` and a newline.
fn push_line(out: &mut String, line: &str)
    ensures
        final(out)@ == old(out)@ + nl(line@),
{
    let ghost before = out@;
    out.append(line);
    out.append("\n");
    assert(out@ =~= before + nl(line@));
}

/// Appends one line `prefix + item` per item.
fn push_prefixed_lines(out: &mut String, prefix: &str, items: &Vec<String>)
    ensures
        final(out)@ == old(out)@ + prefixed_lines(prefix@, string_views(items@)),
{
    let ghost before = out@;
    let mut i: usize = 0;
    while i < items.len()
        invariant
            0 <= i <= items@.len(),
            out@ == before + prefixed_lines(prefix@, string_views(items@.subrange(0, i as int))),
        decreases items@.len() - i,
    {
        let line = concat2(prefix, items[i].as_str());
        push_line(out, line.as_str());
        proof {
            let next = string_views(items@.subrange(0, i as int + 1));
            assert(next.drop_last() =~= string_views(items@.subrange(0, i as int)));
            assert(next.last() == items@[i as int]@);
            assert(out@ =~= before + prefixed_lines(prefix@, next));
        }
        i = i + 1;
    }
    proof {
        assert(items@.subrange(0, items@.len() as int) =~= items@);
    }
}

/// A progress bar of `width` cells, `current * width / total` of them filled.
pub open spec fn progress_bar(current: nat, total: nat, width: nat) -> Seq<char> {
    if total == 0 {
        "["@ + repeat_char(' ', width) + "]"@
    } else {
        let filled = (current * width) / total;
        let empty: nat = if width >= filled { (width - filled) as nat } else { 0 };
        "["@ + repeat_char('=', filled) + repeat_char(' ', empty) + "]"@
    }
}

/// The symbol of an item status.
pub open spec fn item_symbol(s: ItemStatus) -> Seq<char> {
    match s {
        ItemStatus::Pending => "○"@,
        ItemStatus::InProgress => "◐"@,
        ItemStatus::Success => "✓"@,
        ItemStatus::Failed => "✗"@,
        ItemStatus::Skipped => "⊘"@,
        ItemStatus::Conflict => "⚠"@,
    }
}

/// The symbol of a post-merge status.
pub open spec fn post_merge_symbol(s: PostMergeStatus) -> Seq<char> {
    match s {
        PostMergeStatus::Pending => "○"@,
        PostMergeStatus::Success => "✓"@,
        PostMergeStatus::Failed { .. } => "✗"@,
        PostMergeStatus::Skipped => "⊘"@,
    }
}

/// A string cut for display: unchanged when its UTF-8 length is at most
/// `max`, otherwise `...` alone when `max` is at most 3, otherwise its first
/// `max - 3` characters followed by `...`.
pub open spec fn display_truncated(s: Seq<char>, max: nat) -> Seq<char> {
    if (encode_utf8(s).len() as usize) <= max {
        s
    } else if max <= 3 {
        "..."@
    } else {
        let k: int = if max - 3 < s.len() { max - 3 } else { s.len() as int };
        s.subrange(0, k) + "..."@
    }
}

/// Cuts a string to at most `max_len` for display, marking the cut with `...`.
pub fn truncate_string(s: &str, max_len: usize) -> (r: String)
    ensures
        r@ == display_truncated(s@, max_len as nat),
{
    if s.len() <= max_len {
        s.to_owned()
    } else if max_len <= 3 {
        "...".to_owned()
    } else {
        let n = s.unicode_len();
        let k = if max_len - 3 < n { max_len - 3 } else { n };
        let head = s.substring_char(0, k);
        concat2(head, "...")
    }
}

/// The count suffix of a command count: none for one command.
pub open spec fn plural(n: nat) -> Seq<char> {
    if n == 1 { Seq::empty() } else { "s"@ }
}

// ==================== Event texts ====================

/// The text written for an event in the text format.
pub open spec fn event_text(e: ProgressEvent) -> Seq<char> {
    match e {
        ProgressEvent::Start { total_prs, version, target_branch, .. } => "\n"@ + nl(
            "Starting merge: "@ + version@ + " → "@ + target_branch@ + " ("@ + decimal_nat(total_prs as nat) + " PRs)"@,
        ) + "\n"@,
        ProgressEvent::CherryPickStart { pr_id, index, total, .. } => "\r"@ + progress_bar(index as nat, total as nat, 20)
            + " ["@ + decimal_nat((index + 1) as nat) + "/"@ + decimal_nat(total as nat) + "] Processing PR #"@
            + decimal_int(pr_id as int) + "..."@,
        ProgressEvent::CherryPickSuccess { pr_id, .. } => nl(" ✓ PR #"@ + decimal_int(pr_id as int) + " applied"@),
        ProgressEvent::CherryPickConflict { pr_id, conflicted_files, repo_path } => "\n"@ + nl(
            " ⚠ PR #"@ + decimal_int(pr_id as int) + " has conflicts:"@,
        ) + prefixed_lines("   • "@, string_views(conflicted_files@)) + nl("   Repository: "@ + repo_path@),
        ProgressEvent::CherryPickFailed { pr_id, error } => nl(
            " ✗ PR #"@ + decimal_int(pr_id as int) + " failed: "@ + error@,
        ),
        ProgressEvent::CherryPickSkipped { pr_id, reason } => nl(
            " ⊘ PR #"@ + decimal_int(pr_id as int) + " skipped"@ + match reason {
                Some(r) => " ("@ + r@ + ")"@,
                None => Seq::empty(),
            },
        ),
        ProgressEvent::DependencyAnalysisStart { pr_count } => nl(
            "Analyzing dependencies for "@ + decimal_nat(pr_count as nat) + " PRs..."@,
        ),
        ProgressEvent::DependencyAnalysisComplete { independent, partial, dependent } => nl(
            "  Dependencies: "@ + decimal_nat(independent as nat) + " independent, "@ + decimal_nat(partial as nat)
                + " partial, "@ + decimal_nat(dependent as nat) + " overlapping"@,
        ),
        ProgressEvent::DependencyWarning {
            selected_pr_id,
            unselected_pr_id,
            unselected_pr_title,
            is_critical,
            shared_files,
            ..
        } => nl(
            "  "@ + (if is_critical { "⚠ CRITICAL"@ } else { "⚡ Warning"@ }) + " PR #"@ + decimal_int(
                selected_pr_id as int,
            ) + " depends on unselected PR #"@ + decimal_int(unselected_pr_id as int) + " ("@ + display_truncated(
                unselected_pr_title@,
                30,
            ) + ")"@,
        ) + if shared_files@.len() > 0 {
            nl("    Shared files: "@ + join_with(string_views(shared_files@), ", "@))
        } else {
            Seq::empty()
        },
        ProgressEvent::PostMergeStart { task_count } => "\n"@ + nl(
            "Running "@ + decimal_nat(task_count as nat) + " post-merge tasks..."@,
        ),
        ProgressEvent::PostMergeProgress { task_type, target_id, status } => nl(
            "  "@ + post_merge_symbol(status) + " "@ + post_merge_status_text(status) + ": "@ + task_type@ + " #"@
                + decimal_int(target_id as int),
        ),
        ProgressEvent::Complete { successful, failed, skipped } => "\n"@ + nl(
            "Complete: "@ + decimal_nat(successful as nat) + " successful, "@ + decimal_nat(failed as nat)
                + " failed, "@ + decimal_nat(skipped as nat) + " skipped"@,
        ),
        ProgressEvent::Status(status) => status_text(*status),
        ProgressEvent::Aborted { success, message } => nl(
            if success { "Merge operation aborted successfully."@ } else { "Failed to abort merge operation."@ },
        ) + match message {
            Some(m) => nl("  "@ + m@),
            None => Seq::empty(),
        },
        ProgressEvent::Error { message, code } => nl(
            "Error"@ + match code {
                Some(c) => " ["@ + c@ + "]"@,
                None => Seq::empty(),
            } + ": "@ + message@,
        ),
        ProgressEvent::HookStart { trigger, command_count } => nl(
            "Running "@ + trigger@ + " hook ("@ + decimal_nat(command_count as nat) + " command"@ + plural(
                command_count as nat,
            ) + ")..."@,
        ),
        ProgressEvent::HookCommandStart { command, .. } => nl("  → "@ + command@),
        ProgressEvent::HookCommandComplete { success, .. } => nl(
            if success { "    ✓ completed"@ } else { "    ✗ failed"@ },
        ),
        ProgressEvent::HookComplete { trigger, all_succeeded } => nl(
            if all_succeeded { "  ✓ "@ + trigger@ + " hooks completed"@ } else { "  ✗ "@ + trigger@ + " hooks failed"@ },
        ),
        ProgressEvent::HookFailed { trigger, command, error } => nl("Hook "@ + trigger@ + " failed: "@ + command@)
            + if error@.len() > 0 {
            nl("  Error: "@ + error@)
        } else {
            Seq::empty()
        },
    }
}

/// Whether the text of an event can be rendered without overflowing the
/// progress-bar arithmetic.
pub open spec fn event_renderable(e: ProgressEvent) -> bool {
    match e {
        ProgressEvent::CherryPickStart { index, .. } => index * 20 <= usize::MAX,
        ProgressEvent::Status(status) => status_renderable(*status),
        _ => true,
    }
}

/// Whether the progress bar of a status can be rendered without overflow.
pub open spec fn status_renderable(s: StatusInfo) -> bool {
    s.progress.completed * 40 <= usize::MAX
}

/// Whether an event is written in quiet text mode: conflicts, failures and
/// errors only.
pub open spec fn shown_when_quiet(e: ProgressEvent) -> bool {
    e is CherryPickConflict || e is CherryPickFailed || e is Error
}

// ==================== Conflict, status and summary texts ====================

/// The horizontal rule of the status and summary blocks.
pub open spec fn rule() -> Seq<char> {
    "═══════════════════════════════════════════════════════════"@
}

/// The text written for a conflict in the text format.
pub open spec fn conflict_text(c: ConflictInfo) -> Seq<char> {
    "\n"@ + nl("╔════════════════════════════════════════════════════════════╗"@) + nl(
        "║                    CONFLICT DETECTED                        ║"@,
    ) + nl("╚════════════════════════════════════════════════════════════╝"@) + "\n"@ + nl(
        "PR #"@ + decimal_int(c.pr_id as int) + ": "@ + c.pr_title@,
    ) + nl("Commit: "@ + c.commit_id@) + "\n"@ + nl("Conflicted files:"@) + prefixed_lines(
        "  • "@,
        string_views(c.conflicted_files@),
    ) + "\n"@ + nl("To resolve:"@) + prefixed_lines("  "@, string_views(c.resolution_instructions@)) + "\n"@
}

/// The line of an item in the status text.
pub open spec fn item_line(i: SummaryItem) -> Seq<char> {
    nl(
        "  "@ + item_symbol(i.status) + " PR #"@ + decimal_int(i.pr_id as int) + ": "@ + display_truncated(
            i.pr_title@,
            40,
        ) + " ["@ + item_status_text(i.status) + "]"@,
    )
}

/// The lines of the items in the status text.
pub open spec fn item_lines(items: Seq<SummaryItem>) -> Seq<char>
    decreases items.len(),
{
    if items.len() == 0 {
        Seq::empty()
    } else {
        item_lines(items.drop_last()) + item_line(items.last())
    }
}

/// The current-conflict block of the status text.
pub open spec fn status_conflict_text(c: Option<ConflictInfo>) -> Seq<char> {
    match c {
        Some(c) => nl("Current Conflict:"@) + nl("  PR #"@ + decimal_int(c.pr_id as int) + ": "@ + c.pr_title@) + nl(
            "  Files:"@,
        ) + prefixed_lines("    • "@, string_views(c.conflicted_files@)) + "\n"@,
        None => Seq::empty(),
    }
}

/// The items block of the status text.
pub open spec fn status_items_text(items: Option<Vec<SummaryItem>>) -> Seq<char> {
    match items {
        Some(v) => nl("Items:"@) + item_lines(v@),
        None => Seq::empty(),
    }
}

/// The text written for a status in the text format.
pub open spec fn status_text(s: StatusInfo) -> Seq<char> {
    "\n"@ + nl(rule()) + nl("                      MERGE STATUS                          "@) + nl(rule()) + "\n"@ + nl(
        "Version:       "@ + s.version@,
    ) + nl("Target Branch: "@ + s.target_branch@) + nl("Phase:         "@ + s.phase@) + nl(
        "Status:        "@ + s.status@,
    ) + nl("Repository:    "@ + s.repo_path@) + "\n"@ + nl("Progress:"@) + nl(
        "  "@ + progress_bar(s.progress.completed as nat, s.progress.total as nat, 40) + " "@ + decimal_nat(
            s.progress.completed as nat,
        ) + "/"@ + decimal_nat(s.progress.total as nat),
    ) + "\n"@ + status_conflict_text(s.conflict) + status_items_text(s.items) + "\n"@
}

/// The heading of a summary result.
pub open spec fn result_heading(r: SummaryResult) -> Seq<char> {
    match r {
        SummaryResult::Success => "SUCCESS"@,
        SummaryResult::PartialSuccess => "PARTIAL SUCCESS"@,
        SummaryResult::Failed => "FAILED"@,
        SummaryResult::Aborted => "ABORTED"@,
        SummaryResult::Conflict => "CONFLICT"@,
    }
}

/// The post-merge block of the summary text.
pub open spec fn post_merge_block(p: Option<PostMergeSummary>) -> Seq<char> {
    match p {
        Some(p) => nl("Post-merge tasks:"@) + nl("  ✓ Successful: "@ + decimal_nat(p.successful as nat)) + nl(
            "  ✗ Failed:     "@ + decimal_nat(p.failed as nat),
        ) + "\n"@,
        None => Seq::empty(),
    }
}

/// The text written for a summary in the text format.
pub open spec fn summary_text(s: SummaryInfo) -> Seq<char> {
    "\n"@ + nl(rule()) + nl("                      "@ + result_heading(s.result) + "                          "@) + nl(
        rule(),
    ) + "\n"@ + nl("Version:       "@ + s.version@) + nl("Target Branch: "@ + s.target_branch@) + "\n"@ + nl(
        "Results:"@,
    ) + nl("  ✓ Successful: "@ + decimal_nat(s.counts.successful as nat)) + nl(
        "  ✗ Failed:     "@ + decimal_nat(s.counts.failed as nat),
    ) + nl("  ⊘ Skipped:    "@ + decimal_nat(s.counts.skipped as nat)) + nl(
        "  ○ Pending:    "@ + decimal_nat(s.counts.pending as nat),
    ) + nl("  ─────────────────"@) + nl("    Total:      "@ + decimal_nat(s.counts.total as nat)) + "\n"@
        + post_merge_block(s.post_merge)
}

// ==================== Rendering ====================

impl OutputWriter {
    /// Renders a progress bar of `width` cells for `current` out of `total`.
    pub fn format_progress_bar(current: usize, total: usize, width: usize) -> (r: String)
        requires
            current * width <= usize::MAX,
        ensures
            r@ == progress_bar(current as nat, total as nat, width as nat),
    {
        proof {
            reveal_strlit("=");
            reveal_strlit(" ");
        }
        let mut out = "[".to_owned();
        if total == 0 {
            out.append(repeat_str(" ", width).as_str());
        } else {
            let filled = (current * width) / total;
            let empty: usize = if width >= filled { width - filled } else { 0 };
            out.append(repeat_str("=", filled).as_str());
            out.append(repeat_str(" ", empty).as_str());
        }
        out.append("]");
        out
    }

    /// The symbol of an item status.
    pub fn status_symbol(status: &ItemStatus) -> (r: &'static str)
        ensures
            r@ == item_symbol(*status),
    {
        match status {
            ItemStatus::Pending => "○",
            ItemStatus::InProgress => "◐",
            ItemStatus::Success => "✓",
            ItemStatus::Failed => "✗",
            ItemStatus::Skipped => "⊘",
            ItemStatus::Conflict => "⚠",
        }
    }

    /// The symbol of a post-merge status.
    pub fn post_merge_status_symbol(status: &PostMergeStatus) -> (r: &'static str)
        ensures
            r@ == post_merge_symbol(*status),
    {
        match status {
            PostMergeStatus::Pending => "○",
            PostMergeStatus::Success => "✓",
            PostMergeStatus::Failed { .. } => "✗",
            PostMergeStatus::Skipped => "⊘",
        }
    }
}

/// Renders the text of a conflict.
pub fn render_conflict(c: &ConflictInfo) -> (r: String)
    ensures
        r@ == conflict_text(*c),
{
    let mut out = "\n".to_owned();
    push_line(&mut out, "╔════════════════════════════════════════════════════════════╗");
    push_line(&mut out, "║                    CONFLICT DETECTED                        ║");
    push_line(&mut out, "╚════════════════════════════════════════════════════════════╝");
    out.append("\n");
    let mut l = "PR #".to_owned();
    l.append(i32_to_decimal(c.pr_id).as_str());
    l.append(": ");
    l.append(c.pr_title.as_str());
    push_line(&mut out, l.as_str());
    push_line(&mut out, concat2("Commit: ", c.commit_id.as_str()).as_str());
    out.append("\n");
    push_line(&mut out, "Conflicted files:");
    push_prefixed_lines(&mut out, "  • ", &c.conflicted_files);
    out.append("\n");
    push_line(&mut out, "To resolve:");
    push_prefixed_lines(&mut out, "  ", &c.resolution_instructions);
    out.append("\n");
    assert(out@ =~= conflict_text(*c));
    out
}

/// Renders the lines of status items.
fn render_item_lines(items: &Vec<SummaryItem>) -> (r: String)
    ensures
        r@ == item_lines(items@),
{
    let mut out = String::new();
    let mut i: usize = 0;
    while i < items.len()
        invariant
            0 <= i <= items@.len(),
            out@ == item_lines(items@.subrange(0, i as int)),
        decreases items@.len() - i,
    {
        let it = &items[i];
        let mut l = "  ".to_owned();
        l.append(OutputWriter::status_symbol(&it.status));
        l.append(" PR #");
        l.append(i32_to_decimal(it.pr_id).as_str());
        l.append(": ");
        l.append(truncate_string(it.pr_title.as_str(), 40).as_str());
        l.append(" [");
        l.append(it.status.display_string().as_str());
        l.append("]");
        let ghost before = out@;
        push_line(&mut out, l.as_str());
        proof {
            assert(items@.subrange(0, i as int + 1).drop_last() =~= items@.subrange(0, i as int));
            assert(out@ =~= before + item_line(*it));
        }
        i = i + 1;
    }
    proof {
        assert(items@.subrange(0, items@.len() as int) =~= items@);
    }
    out
}

/// Renders the text of a status.
pub fn render_status(s: &StatusInfo) -> (r: String)
    requires
        status_renderable(*s),
    ensures
        r@ == status_text(*s),
{
    let mut out = "\n".to_owned();
    push_line(&mut out, "═══════════════════════════════════════════════════════════");
    push_line(&mut out, "                      MERGE STATUS                          ");
    push_line(&mut out, "═══════════════════════════════════════════════════════════");
    out.append("\n");
    push_line(&mut out, concat2("Version:       ", s.version.as_str()).as_str());
    push_line(&mut out, concat2("Target Branch: ", s.target_branch.as_str()).as_str());
    push_line(&mut out, concat2("Phase:         ", s.phase.as_str()).as_str());
    push_line(&mut out, concat2("Status:        ", s.status.as_str()).as_str());
    push_line(&mut out, concat2("Repository:    ", s.repo_path.as_str()).as_str());
    out.append("\n");
    push_line(&mut out, "Progress:");
    let mut l = "  ".to_owned();
    l.append(OutputWriter::format_progress_bar(s.progress.completed, s.progress.total, 40).as_str());
    l.append(" ");
    l.append(usize_to_decimal(s.progress.completed).as_str());
    l.append("/");
    l.append(usize_to_decimal(s.progress.total).as_str());
    push_line(&mut out, l.as_str());
    out.append("\n");
    let ghost head = out@;
    let conflict_part = match &s.conflict {
        Some(c) => {
            let mut part = String::new();
            push_line(&mut part, "Current Conflict:");
            let mut cl = "  PR #".to_owned();
            cl.append(i32_to_decimal(c.pr_id).as_str());
            cl.append(": ");
            cl.append(c.pr_title.as_str());
            push_line(&mut part, cl.as_str());
            push_line(&mut part, "  Files:");
            push_prefixed_lines(&mut part, "    • ", &c.conflicted_files);
            part.append("\n");
            assert(part@ =~= status_conflict_text(s.conflict));
            part
        },
        None => String::new(),
    };
    let items_part = match &s.items {
        Some(v) => {
            let mut part = String::new();
            push_line(&mut part, "Items:");
            part.append(render_item_lines(v).as_str());
            assert(part@ =~= status_items_text(s.items));
            part
        },
        None => String::new(),
    };
    out.append(conflict_part.as_str());
    out.append(items_part.as_str());
    out.append("\n");
    assert(out@ =~= status_text(*s));
    out
}

/// Renders the text of a summary.
pub fn render_summary(s: &SummaryInfo) -> (r: String)
    ensures
        r@ == summary_text(*s),
{
    let heading = match s.result {
        SummaryResult::Success => "SUCCESS",
        SummaryResult::PartialSuccess => "PARTIAL SUCCESS",
        SummaryResult::Failed => "FAILED",
        SummaryResult::Aborted => "ABORTED",
        SummaryResult::Conflict => "CONFLICT",
    };
    let mut out = "\n".to_owned();
    push_line(&mut out, "═══════════════════════════════════════════════════════════");
    let mut h = "                      ".to_owned();
    h.append(heading);
    h.append("                          ");
    push_line(&mut out, h.as_str());
    push_line(&mut out, "═══════════════════════════════════════════════════════════");
    out.append("\n");
    push_line(&mut out, concat2("Version:       ", s.version.as_str()).as_str());
    push_line(&mut out, concat2("Target Branch: ", s.target_branch.as_str()).as_str());
    out.append("\n");
    push_line(&mut out, "Results:");
    push_line(&mut out, concat2("  ✓ Successful: ", usize_to_decimal(s.counts.successful).as_str()).as_str());
    push_line(&mut out, concat2("  ✗ Failed:     ", usize_to_decimal(s.counts.failed).as_str()).as_str());
    push_line(&mut out, concat2("  ⊘ Skipped:    ", usize_to_decimal(s.counts.skipped).as_str()).as_str());
    push_line(&mut out, concat2("  ○ Pending:    ", usize_to_decimal(s.counts.pending).as_str()).as_str());
    push_line(&mut out, "  ─────────────────");
    push_line(&mut out, concat2("    Total:      ", usize_to_decimal(s.counts.total).as_str()).as_str());
    out.append("\n");
    let post = match &s.post_merge {
        Some(p) => {
            let mut part = String::new();
            push_line(&mut part, "Post-merge tasks:");
            push_line(&mut part, concat2("  ✓ Successful: ", usize_to_decimal(p.successful).as_str()).as_str());
            push_line(&mut part, concat2("  ✗ Failed:     ", usize_to_decimal(p.failed).as_str()).as_str());
            part.append("\n");
            assert(part@ =~= post_merge_block(s.post_merge));
            part
        },
        None => String::new(),
    };
    out.append(post.as_str());
    assert(out@ =~= summary_text(*s));
    out
}

/// Renders the text of an event.
pub fn render_event(e: &ProgressEvent) -> (r: String)
    requires
        event_renderable(*e),
    ensures
        r@ == event_text(*e),
{
    match e {
        ProgressEvent::Start { total_prs, version, target_branch, .. } => {
            let mut l = "Starting merge: ".to_owned();
            l.append(version.as_str());
            l.append(" → ");
            l.append(target_branch.as_str());
            l.append(" (");
            l.append(usize_to_decimal(*total_prs).as_str());
            l.append(" PRs)");
            let mut out = "\n".to_owned();
            push_line(&mut out, l.as_str());
            out.append("\n");
            assert(out@ =~= event_text(*e));
            out
        },
        ProgressEvent::CherryPickStart { pr_id, index, total, .. } => {
            let mut out = "\r".to_owned();
            out.append(OutputWriter::format_progress_bar(*index, *total, 20).as_str());
            out.append(" [");
            out.append(usize_to_decimal(*index + 1).as_str());
            out.append("/");
            out.append(usize_to_decimal(*total).as_str());
            out.append("] Processing PR #");
            out.append(i32_to_decimal(*pr_id).as_str());
            out.append("...");
            assert(out@ =~= event_text(*e));
            out
        },
        ProgressEvent::CherryPickSuccess { pr_id, .. } => {
            let mut l = " ✓ PR #".to_owned();
            l.append(i32_to_decimal(*pr_id).as_str());
            l.append(" applied");
            let mut out = String::new();
            push_line(&mut out, l.as_str());
            assert(out@ =~= event_text(*e));
            out
        },
        ProgressEvent::CherryPickConflict { pr_id, conflicted_files, repo_path } => {
            let mut l = " ⚠ PR #".to_owned();
            l.append(i32_to_decimal(*pr_id).as_str());
            l.append(" has conflicts:");
            let mut out = "\n".to_owned();
            push_line(&mut out, l.as_str());
            push_prefixed_lines(&mut out, "   • ", conflicted_files);
            push_line(&mut out, concat2("   Repository: ", repo_path.as_str()).as_str());
            assert(out@ =~= event_text(*e));
            out
        },
        ProgressEvent::CherryPickFailed { pr_id, error } => {
            let mut l = " ✗ PR #".to_owned();
            l.append(i32_to_decimal(*pr_id).as_str());
            l.append(" failed: ");
            l.append(error.as_str());
            let mut out = String::new();
            push_line(&mut out, l.as_str());
            assert(out@ =~= event_text(*e));
            out
        },
        ProgressEvent::CherryPickSkipped { pr_id, reason } => {
            let mut l = " ⊘ PR #".to_owned();
            l.append(i32_to_decimal(*pr_id).as_str());
            l.append(" skipped");
            match reason {
                Some(r) => {
                    l.append(" (");
                    l.append(r.as_str());
                    l.append(")");
                },
                None => {},
            }
            let mut out = String::new();
            push_line(&mut out, l.as_str());
            assert(out@ =~= event_text(*e));
            out
        },
        ProgressEvent::DependencyAnalysisStart { pr_count } => {
            let mut l = "Analyzing dependencies for ".to_owned();
            l.append(usize_to_decimal(*pr_count).as_str());
            l.append(" PRs...");
            let mut out = String::new();
            push_line(&mut out, l.as_str());
            assert(out@ =~= event_text(*e));
            out
        },
        ProgressEvent::DependencyAnalysisComplete { independent, partial, dependent } => {
            let mut l = "  Dependencies: ".to_owned();
            l.append(usize_to_decimal(*independent).as_str());
            l.append(" independent, ");
            l.append(usize_to_decimal(*partial).as_str());
            l.append(" partial, ");
            l.append(usize_to_decimal(*dependent).as_str());
            l.append(" overlapping");
            let mut out = String::new();
            push_line(&mut out, l.as_str());
            assert(out@ =~= event_text(*e));
            out
        },
        ProgressEvent::DependencyWarning {
            selected_pr_id,
            unselected_pr_id,
            unselected_pr_title,
            is_critical,
            shared_files,
            ..
        } => {
            let mut l = "  ".to_owned();
            l.append(if *is_critical { "⚠ CRITICAL" } else { "⚡ Warning" });
            l.append(" PR #");
            l.append(i32_to_decimal(*selected_pr_id).as_str());
            l.append(" depends on unselected PR #");
            l.append(i32_to_decimal(*unselected_pr_id).as_str());
            l.append(" (");
            l.append(truncate_string(unselected_pr_title.as_str(), 30).as_str());
            l.append(")");
            let mut out = String::new();
            push_line(&mut out, l.as_str());
            if shared_files.len() > 0 {
                push_line(&mut out, concat2("    Shared files: ", join_strings(shared_files, ", ").as_str()).as_str());
            }
            assert(out@ =~= event_text(*e));
            out
        },
        ProgressEvent::PostMergeStart { task_count } => {
            let mut l = "Running ".to_owned();
            l.append(usize_to_decimal(*task_count).as_str());
            l.append(" post-merge tasks...");
            let mut out = "\n".to_owned();
            push_line(&mut out, l.as_str());
            assert(out@ =~= event_text(*e));
            out
        },
        ProgressEvent::PostMergeProgress { task_type, target_id, status } => {
            let mut l = "  ".to_owned();
            l.append(OutputWriter::post_merge_status_symbol(status));
            l.append(" ");
            l.append(status.display_string().as_str());
            l.append(": ");
            l.append(task_type.as_str());
            l.append(" #");
            l.append(i32_to_decimal(*target_id).as_str());
            let mut out = String::new();
            push_line(&mut out, l.as_str());
            assert(out@ =~= event_text(*e));
            out
        },
        ProgressEvent::Complete { successful, failed, skipped } => {
            let mut l = "Complete: ".to_owned();
            l.append(usize_to_decimal(*successful).as_str());
            l.append(" successful, ");
            l.append(usize_to_decimal(*failed).as_str());
            l.append(" failed, ");
            l.append(usize_to_decimal(*skipped).as_str());
            l.append(" skipped");
            let mut out = "\n".to_owned();
            push_line(&mut out, l.as_str());
            assert(out@ =~= event_text(*e));
            out
        },
        ProgressEvent::Status(status) => render_status(status),
        ProgressEvent::Aborted { success, message } => {
            let mut out = String::new();
            push_line(
                &mut out,
                if *success { "Merge operation aborted successfully." } else { "Failed to abort merge operation." },
            );
            match message {
                Some(m) => push_line(&mut out, concat2("  ", m.as_str()).as_str()),
                None => {},
            }
            assert(out@ =~= event_text(*e));
            out
        },
        ProgressEvent::Error { message, code } => {
            let mut l = "Error".to_owned();
            match code {
                Some(c) => {
                    l.append(" [");
                    l.append(c.as_str());
                    l.append("]");
                },
                None => {},
            }
            l.append(": ");
            l.append(message.as_str());
            let mut out = String::new();
            push_line(&mut out, l.as_str());
            assert(out@ =~= event_text(*e));
            out
        },
        ProgressEvent::HookStart { trigger, command_count } => {
            let mut l = "Running ".to_owned();
            l.append(trigger.as_str());
            l.append(" hook (");
            l.append(usize_to_decimal(*command_count).as_str());
            l.append(" command");
            if *command_count != 1 {
                l.append("s");
            }
            l.append(")...");
            let mut out = String::new();
            push_line(&mut out, l.as_str());
            assert(out@ =~= event_text(*e));
            out
        },
        ProgressEvent::HookCommandStart { command, .. } => {
            let mut out = String::new();
            push_line(&mut out, concat2("  → ", command.as_str()).as_str());
            assert(out@ =~= event_text(*e));
            out
        },
        ProgressEvent::HookCommandComplete { success, .. } => {
            let mut out = String::new();
            push_line(&mut out, if *success { "    ✓ completed" } else { "    ✗ failed" });
            assert(out@ =~= event_text(*e));
            out
        },
        ProgressEvent::HookComplete { trigger, all_succeeded } => {
            let mut l = if *all_succeeded { "  ✓ ".to_owned() } else { "  ✗ ".to_owned() };
            l.append(trigger.as_str());
            l.append(if *all_succeeded { " hooks completed" } else { " hooks failed" });
            let mut out = String::new();
            push_line(&mut out, l.as_str());
            assert(out@ =~= event_text(*e));
            out
        },
        ProgressEvent::HookFailed { trigger, command, error } => {
            let mut l = "Hook ".to_owned();
            l.append(trigger.as_str());
            l.append(" failed: ");
            l.append(command.as_str());
            let mut out = String::new();
            push_line(&mut out, l.as_str());
            if error.unicode_len() > 0 {
                push_line(&mut out, concat2("  Error: ", error.as_str()).as_str());
            }
            assert(out@ =~= event_text(*e));
            out
        },
    }
}

// ==================== Writer ====================

/// Something a writer has queued for writing.
#[derive(Debug)]
pub enum OutputChunk {
    /// Text, written as it is.
    Text(String),
    /// A flush of the underlying output.
    Flush,
    /// An event, written as one compact JSON line.
    EventLine(ProgressEvent),
    /// A status, written as a pretty-printed JSON document and a newline.
    StatusDocument(StatusInfo),
    /// A summary, written as one compact JSON line.
    SummaryLine(SummaryInfo),
    /// A summary with the first `event_count` buffered events, written as a
    /// pretty-printed JSON object with the keys `summary` and `events`, and a
    /// newline.
    SummaryDocument { summary: SummaryInfo, event_count: usize },
}

/// Whether a chunk is the text `t`.
pub open spec fn is_text(c: OutputChunk, t: Seq<char>) -> bool {
    match c {
        OutputChunk::Text(s) => s@ == t,
        _ => false,
    }
}

/// Whether `new` is `old` followed by the text `t`.
pub open spec fn text_queued(old: Seq<OutputChunk>, new: Seq<OutputChunk>, t: Seq<char>) -> bool {
    &&& new.len() == old.len() + 1
    &&& new.drop_last() == old
    &&& is_text(new.last(), t)
}

/// Whether `new` is what the text format queues after `old` for `e`:
/// nothing for an event hidden in quiet mode, otherwise its text, and a
/// flush after the start of a cherry-pick.
pub open spec fn event_text_queued(old: Seq<OutputChunk>, new: Seq<OutputChunk>, e: ProgressEvent, quiet: bool) -> bool {
    if quiet && !shown_when_quiet(e) {
        new == old
    } else if e is CherryPickStart {
        &&& new.len() == old.len() + 2
        &&& new.subrange(0, old.len() as int) == old
        &&& is_text(new[old.len() as int], event_text(e))
        &&& new.last() is Flush
    } else {
        text_queued(old, new, event_text(e))
    }
}

/// Whether `after` is `before` having written `event`. Text: the event's
/// text is queued, unless quiet mode hides it. JSON: the event is buffered
/// for the final document. NDJSON: the event is queued as one line.
pub open spec fn event_written(before: OutputWriter, after: OutputWriter, event: ProgressEvent) -> bool {
    &&& after.format_view() == before.format_view()
    &&& after.quiet_view() == before.quiet_view()
    &&& match before.format_view() {
        OutputFormat::Text => {
            &&& after.buffered() == before.buffered()
            &&& event_text_queued(before.queued(), after.queued(), event, before.quiet_view())
        },
        OutputFormat::Json => {
            &&& after.buffered() == before.buffered().push(event)
            &&& after.queued() == before.queued()
        },
        OutputFormat::Ndjson => {
            &&& after.buffered() == before.buffered()
            &&& after.queued() == before.queued().push(OutputChunk::EventLine(event))
        },
    }
}

/// Whether `after` is `before` having written the conflict `c`. Text: the
/// conflict block. JSON: nothing (the conflict is among the buffered
/// events). NDJSON: a conflict event line.
pub open spec fn conflict_written(before: OutputWriter, after: OutputWriter, c: ConflictInfo) -> bool {
    &&& after.format_view() == before.format_view()
    &&& after.quiet_view() == before.quiet_view()
    &&& after.buffered() == before.buffered()
    &&& match before.format_view() {
        OutputFormat::Text => text_queued(before.queued(), after.queued(), conflict_text(c)),
        OutputFormat::Json => after.queued() == before.queued(),
        OutputFormat::Ndjson => after.queued() == before.queued().push(
            OutputChunk::EventLine(
                ProgressEvent::CherryPickConflict {
                    pr_id: c.pr_id,
                    conflicted_files: c.conflicted_files,
                    repo_path: c.repo_path,
                },
            ),
        ),
    }
}

/// Whether `after` is `before` having written the status `s`. Text: the
/// status block. JSON and NDJSON: the status as a document.
pub open spec fn status_written(before: OutputWriter, after: OutputWriter, s: StatusInfo) -> bool {
    &&& after.format_view() == before.format_view()
    &&& after.quiet_view() == before.quiet_view()
    &&& after.buffered() == before.buffered()
    &&& match before.format_view() {
        OutputFormat::Text => text_queued(before.queued(), after.queued(), status_text(s)),
        _ => after.queued() == before.queued().push(OutputChunk::StatusDocument(s)),
    }
}

/// Whether `after` is `before` having written the summary `s`. Text: the
/// summary block. JSON: the summary with every buffered event as one
/// document. NDJSON: the summary as one line.
pub open spec fn summary_written(before: OutputWriter, after: OutputWriter, s: SummaryInfo) -> bool {
    &&& after.format_view() == before.format_view()
    &&& after.quiet_view() == before.quiet_view()
    &&& after.buffered() == before.buffered()
    &&& match before.format_view() {
        OutputFormat::Text => text_queued(before.queued(), after.queued(), summary_text(s)),
        OutputFormat::Json => after.queued() == before.queued().push(
            OutputChunk::SummaryDocument { summary: s, event_count: before.buffered().len() as usize },
        ),
        OutputFormat::Ndjson => after.queued() == before.queued().push(OutputChunk::SummaryLine(s)),
    }
}

/// Formats and writes what a merge reports.
pub trait OutputFormatter {
    /// Whether `event` can be written.
    spec fn can_write_event(&self, event: ProgressEvent) -> bool;

    /// Whether `status` can be written.
    spec fn can_write_status(&self, status: StatusInfo) -> bool;

    /// Writes a progress event.
    fn write_event(&mut self, event: ProgressEvent)
        requires
            old(self).can_write_event(event),
    ;

    /// Writes a conflict block.
    fn write_conflict(&mut self, conflict: ConflictInfo);

    /// Writes a status.
    fn write_status(&mut self, status: StatusInfo)
        requires
            old(self).can_write_status(status),
    ;

    /// Writes a final summary.
    fn write_summary(&mut self, summary: SummaryInfo);

    /// Flushes what has been written.
    fn flush(&mut self);
}

/// Formats output for one output format, queuing what is to be written.
pub struct OutputWriter {
    format: OutputFormat,
    quiet: bool,
    events: Vec<ProgressEvent>,
    pending: Vec<OutputChunk>,
}

impl OutputWriter {
    /// The output format.
    pub closed spec fn format_view(&self) -> OutputFormat {
        self.format
    }

    /// Whether quiet mode is on.
    pub closed spec fn quiet_view(&self) -> bool {
        self.quiet
    }

    /// The events buffered for the final JSON document.
    pub closed spec fn buffered(&self) -> Seq<ProgressEvent> {
        self.events@
    }

    /// What has been queued for writing and not yet taken.
    pub closed spec fn queued(&self) -> Seq<OutputChunk> {
        self.pending@
    }

    /// A writer for `format`, quiet or not, with nothing queued.
    pub fn new(format: OutputFormat, quiet: bool) -> (r: Self)
        ensures
            r.format_view() == format,
            r.quiet_view() == quiet,
            r.buffered().len() == 0,
            r.queued().len() == 0,
    {
        OutputWriter { format, quiet, events: Vec::new(), pending: Vec::new() }
    }

    /// The output format.
    pub fn format(&self) -> (r: &OutputFormat)
        ensures
            *r == self.format_view(),
    {
        &self.format
    }

    /// Whether quiet mode is on.
    pub fn is_quiet(&self) -> (r: bool)
        ensures
            r == self.quiet_view(),
    {
        self.quiet
    }

    /// The events buffered for the final JSON document.
    pub fn buffered_events(&self) -> (r: &Vec<ProgressEvent>)
        ensures
            r@ == self.buffered(),
    {
        &self.events
    }

    /// Takes what has been queued, leaving nothing queued.
    pub fn take_pending(&mut self) -> (r: Vec<OutputChunk>)
        ensures
            r@ == old(self).queued(),
            final(self).queued().len() == 0,
            final(self).format_view() == old(self).format_view(),
            final(self).quiet_view() == old(self).quiet_view(),
            final(self).buffered() == old(self).buffered(),
    {
        let mut taken: Vec<OutputChunk> = Vec::new();
        std::mem::swap(&mut taken, &mut self.pending);
        taken
    }
}

impl OutputFormatter for OutputWriter {
    open spec fn can_write_event(&self, event: ProgressEvent) -> bool {
        self.format_view() is Text ==> event_renderable(event)
    }

    open spec fn can_write_status(&self, status: StatusInfo) -> bool {
        self.format_view() is Text ==> status_renderable(status)
    }

    /// Text: the event's text, unless quiet mode hides it. JSON: the event
    /// is buffered for the final document. NDJSON: the event as one line.
    fn write_event(&mut self, event: ProgressEvent)
        ensures
            event_written(*old(self), *final(self), event),
    {
        match self.format {
            OutputFormat::Text => {
                let shown = match &event {
                    ProgressEvent::CherryPickConflict { .. } => true,
                    ProgressEvent::CherryPickFailed { .. } => true,
                    ProgressEvent::Error { .. } => true,
                    _ => false,
                };
                if self.quiet && !shown {
                    return;
                }
                let text = render_event(&event);
                let flush = match &event {
                    ProgressEvent::CherryPickStart { .. } => true,
                    _ => false,
                };
                let ghost before = self.pending@;
                self.pending.push(OutputChunk::Text(text));
                if flush {
                    self.pending.push(OutputChunk::Flush);
                    assert(self.pending@.subrange(0, before.len() as int) =~= before);
                } else {
                    assert(self.pending@.drop_last() =~= before);
                }
            },
            OutputFormat::Json => {
                self.events.push(event);
            },
            OutputFormat::Ndjson => {
                self.pending.push(OutputChunk::EventLine(event));
            },
        }
    }

    /// Text: the conflict block. JSON: nothing (the conflict is in the
    /// buffered events). NDJSON: a conflict event line.
    fn write_conflict(&mut self, conflict: ConflictInfo)
        ensures
            conflict_written(*old(self), *final(self), conflict),
    {
        match self.format {
            OutputFormat::Text => {
                let text = render_conflict(&conflict);
                let ghost before = self.pending@;
                self.pending.push(OutputChunk::Text(text));
                assert(self.pending@.drop_last() =~= before);
            },
            OutputFormat::Json => {},
            OutputFormat::Ndjson => {
                let event = ProgressEvent::CherryPickConflict {
                    pr_id: conflict.pr_id,
                    conflicted_files: conflict.conflicted_files,
                    repo_path: conflict.repo_path,
                };
                self.pending.push(OutputChunk::EventLine(event));
            },
        }
    }

    /// Text: the status block. JSON and NDJSON: the status as a document.
    fn write_status(&mut self, status: StatusInfo)
        ensures
            status_written(*old(self), *final(self), status),
    {
        match self.format {
            OutputFormat::Text => {
                let text = render_status(&status);
                let ghost before = self.pending@;
                self.pending.push(OutputChunk::Text(text));
                assert(self.pending@.drop_last() =~= before);
            },
            _ => {
                self.pending.push(OutputChunk::StatusDocument(status));
            },
        }
    }

    /// Text: the summary block. JSON: the summary with every buffered event
    /// as one document. NDJSON: the summary as one line.
    fn write_summary(&mut self, summary: SummaryInfo)
        ensures
            summary_written(*old(self), *final(self), summary),
    {
        match self.format {
            OutputFormat::Text => {
                let text = render_summary(&summary);
                let ghost before = self.pending@;
                self.pending.push(OutputChunk::Text(text));
                assert(self.pending@.drop_last() =~= before);
            },
            OutputFormat::Json => {
                let event_count = self.events.len();
                self.pending.push(OutputChunk::SummaryDocument { summary, event_count });
            },
            OutputFormat::Ndjson => {
                self.pending.push(OutputChunk::SummaryLine(summary));
            },
        }
    }

    /// Queues a flush.
    fn flush(&mut self)
        ensures
            final(self).format_view() == old(self).format_view(),
            final(self).quiet_view() == old(self).quiet_view(),
            final(self).buffered() == old(self).buffered(),
            final(self).queued() == old(self).queued().push(OutputChunk::Flush),
    {
        self.pending.push(OutputChunk::Flush);
    }
}

} // verus!
