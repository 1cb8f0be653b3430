//! Dependency analysis between pull requests based on the files and line
//! ranges they change.
//!
//! Each PR is compared with every PR before it (chronological order):
//! - **Independent**: no file in common;
//! - **Partially dependent**: common files, but no overlapping line ranges;
//! - **Dependent**: common files whose edited line ranges overlap.
//!
//! The result is a graph whose edges go from a PR to the earlier PRs it
//! depends on, with a topological order placing dependencies first.

use vstd::prelude::*;
use std::collections::HashMap;
use crate::text::{str_eq, concat2, decimal_int, i32_to_decimal, join_with};
use vstd::string::*;
use vstd::utf8::*;
use crate::operations::work_item_grouping::occurrences;
use crate::operations::bitmap_index::{
    PRBitmapIndex, IndexModel, indexed_category, built_from, model_wf, names_in, distinct_paths, lines_of_ranges, path_id,
    line_map_of, shared_ids, lines_meet, ascending, lemma_ascending_empty, lemma_overlaps_through_empty, lemma_line_map,
};
use rayon::iter::{IntoParallelRefIterator, ParallelIterator};

verus! {

broadcast use vstd::std_specs::hash::group_hash_axioms;

// ==================== Line ranges ====================

/// A range of modified lines; both ends inclusive, 1-indexed.
#[derive(Debug, Clone, Copy, PartialEq, Eq, Structural)]
pub struct LineRange {
    /// First line of the range.
    pub start: u32,
    /// Last line of the range.
    pub end: u32,
}

/// Whether two ranges share at least one line.
pub open spec fn ranges_overlap(a: LineRange, b: LineRange) -> bool {
    a.start <= b.end && b.start <= a.end
}

/// The common part of two overlapping ranges.
pub open spec fn range_intersection(a: LineRange, b: LineRange) -> LineRange {
    LineRange {
        start: if a.start >= b.start { a.start } else { b.start },
        end: if a.end <= b.end { a.end } else { b.end },
    }
}

impl LineRange {
    /// Creates a new line range.
    pub fn new(start: u32, end: u32) -> (r: Self)
        ensures
            r == (LineRange { start, end }),
    {
        LineRange { start, end }
    }

    /// Creates a range covering a single line.
    pub fn single(line: u32) -> (r: Self)
        ensures
            r == (LineRange { start: line, end: line }),
    {
        LineRange { start: line, end: line }
    }

    /// Whether this range shares at least one line with `other`.
    pub fn overlaps(&self, other: &LineRange) -> (r: bool)
        ensures
            r == ranges_overlap(*self, *other),
    {
        self.start <= other.end && other.start <= self.end
    }

    /// The number of lines in the range (1 for a reversed range).
    pub fn len(&self) -> (r: u32)
        requires
            !(self.start == 0 && self.end == u32::MAX),
        ensures
            r == if self.end >= self.start { self.end - self.start + 1 } else { 1 },
    {
        let d = if self.end >= self.start { self.end - self.start } else { 0 };
        d + 1
    }

    /// Whether the range is reversed (which does not happen for git output).
    pub fn is_empty(&self) -> (r: bool)
        ensures
            r == (self.end < self.start),
    {
        self.end < self.start
    }
}

/// Overlap is symmetric.
pub proof fn law_overlap_symmetric(a: LineRange, b: LineRange)
    ensures
        ranges_overlap(a, b) == ranges_overlap(b, a),
        ranges_overlap(a, b) ==> range_intersection(a, b) == range_intersection(b, a),
{
}

/// The intersection of two overlapping ranges lies within both and is not
/// reversed.
pub proof fn law_intersection_within(a: LineRange, b: LineRange)
    requires
        ranges_overlap(a, b),
        a.start <= a.end,
        b.start <= b.end,
    ensures
        ({
            let i = range_intersection(a, b);
            &&& i.start <= i.end
            &&& a.start <= i.start && i.end <= a.end
            &&& b.start <= i.start && i.end <= b.end
        }),
{
}

/// Whether line `l` lies in range `r`.
pub open spec fn line_in(r: LineRange, l: int) -> bool {
    r.start <= l <= r.end
}

/// Whether line `l` lies in some range of `rs`.
pub open spec fn covers(rs: Seq<LineRange>, l: int) -> bool {
    exists|k: int| 0 <= k < rs.len() && line_in(#[trigger] rs[k], l)
}

/// The intersection of two ranges holds exactly the lines that lie in both:
/// it starts at the larger start and ends at the smaller end.
pub proof fn law_intersection_exact(a: LineRange, b: LineRange, l: int)
    ensures
        line_in(range_intersection(a, b), l) <==> (line_in(a, l) && line_in(b, l)),
        range_intersection(a, b).end == a.end || range_intersection(a, b).end == b.end,
        range_intersection(a, b).end <= a.end && range_intersection(a, b).end <= b.end,
        range_intersection(a, b).start >= a.start && range_intersection(a, b).start >= b.start,
{
}

// ==================== Change types ====================

/// The type of change made to a file.
#[derive(Debug, Clone, Copy, PartialEq, Eq, Structural)]
pub enum ChangeType {
    Add,
    Modify,
    Delete,
    Rename,
    Copy,
}

/// The change type named by the first character of a git status code.
pub open spec fn change_type_of(status: Seq<char>) -> Option<ChangeType> {
    if status.len() == 0 {
        None
    } else if status[0] == 'A' {
        Some(ChangeType::Add)
    } else if status[0] == 'M' {
        Some(ChangeType::Modify)
    } else if status[0] == 'D' {
        Some(ChangeType::Delete)
    } else if status[0] == 'R' {
        Some(ChangeType::Rename)
    } else if status[0] == 'C' {
        Some(ChangeType::Copy)
    } else {
        None
    }
}

impl ChangeType {
    /// Parses a change type from git's status code (`A`, `M`, `D`, `R100`, ...).
    pub fn from_git_status(status: &str) -> (r: Option<ChangeType>)
        ensures
            r == change_type_of(status@),
    {
        let n = status.unicode_len();
        if n == 0 {
            return None;
        }
        let c = status.get_char(0);
        if c == 'A' {
            Some(ChangeType::Add)
        } else if c == 'M' {
            Some(ChangeType::Modify)
        } else if c == 'D' {
            Some(ChangeType::Delete)
        } else if c == 'R' {
            Some(ChangeType::Rename)
        } else if c == 'C' {
            Some(ChangeType::Copy)
        } else {
            None
        }
    }
}

// ==================== File changes ====================

/// A file changed by a commit, with the line ranges it modified.
#[derive(Debug, Clone)]
pub struct FileChange {
    /// Path of the file, relative to the repository root.
    pub path: String,
    /// Path before a rename.
    pub original_path: Option<String>,
    /// Type of change.
    pub change_type: ChangeType,
    /// Modified line ranges (empty for whole-file additions and deletions).
    pub line_ranges: Vec<LineRange>,
}

/// The view of an optional string.
pub open spec fn opt_view(o: Option<String>) -> Option<Seq<char>> {
    match o {
        Some(s) => Some(s@),
        None => None,
    }
}

/// Whether two changes concern the same file, counting renames.
pub open spec fn same_file(a: FileChange, b: FileChange) -> bool {
    ||| a.path@ == b.path@
    ||| opt_view(a.original_path) == Some(b.path@)
    ||| opt_view(b.original_path) == Some(a.path@)
}

/// The intersections of `r` with each range of `ys` it overlaps, in order.
pub open spec fn row_overlaps(r: LineRange, ys: Seq<LineRange>) -> Seq<LineRange>
    decreases ys.len(),
{
    if ys.len() == 0 {
        Seq::empty()
    } else {
        let init = row_overlaps(r, ys.drop_last());
        if ranges_overlap(r, ys.last()) {
            init.push(range_intersection(r, ys.last()))
        } else {
            init
        }
    }
}

/// The intersections of every overlapping pair, ranges of `xs` outermost.
pub open spec fn pair_overlaps(xs: Seq<LineRange>, ys: Seq<LineRange>) -> Seq<LineRange>
    decreases xs.len(),
{
    if xs.len() == 0 {
        Seq::empty()
    } else {
        pair_overlaps(xs.drop_last(), ys) + row_overlaps(xs.last(), ys)
    }
}

/// The overlapping ranges between two changes of the same file.
pub open spec fn change_overlaps(a: FileChange, b: FileChange) -> Seq<LineRange> {
    if same_file(a, b) {
        pair_overlaps(a.line_ranges@, b.line_ranges@)
    } else {
        Seq::empty()
    }
}

/// Whether some range of `xs` overlaps some range of `ys`.
pub open spec fn any_pair_overlaps(xs: Seq<LineRange>, ys: Seq<LineRange>) -> bool {
    exists|i: int, j: int| 0 <= i < xs.len() && 0 <= j < ys.len() && #[trigger] ranges_overlap(xs[i], ys[j])
}

proof fn lemma_row_overlaps_empty(r: LineRange, ys: Seq<LineRange>)
    ensures
        row_overlaps(r, ys).len() == 0 <==> forall|j: int| 0 <= j < ys.len() ==> !#[trigger] ranges_overlap(r, ys[j]),
    decreases ys.len(),
{
    if ys.len() > 0 {
        lemma_row_overlaps_empty(r, ys.drop_last());
        assert forall|j: int| 0 <= j < ys.len() - 1 implies ys.drop_last()[j] == ys[j] by {}
    }
}

proof fn lemma_pair_overlaps_empty(xs: Seq<LineRange>, ys: Seq<LineRange>)
    ensures
        pair_overlaps(xs, ys).len() == 0 <==> !any_pair_overlaps(xs, ys),
    decreases xs.len(),
{
    if xs.len() > 0 {
        let init = xs.drop_last();
        lemma_pair_overlaps_empty(init, ys);
        lemma_row_overlaps_empty(xs.last(), ys);
        if any_pair_overlaps(xs, ys) {
            let (i, j) = choose|i: int, j: int| 0 <= i < xs.len() && 0 <= j < ys.len() && #[trigger] ranges_overlap(xs[i], ys[j]);
            if i < xs.len() - 1 {
                assert(init[i] == xs[i]);
                assert(any_pair_overlaps(init, ys));
            }
        }
        if any_pair_overlaps(init, ys) {
            let (i, j) = choose|i: int, j: int| 0 <= i < init.len() && 0 <= j < ys.len() && #[trigger] ranges_overlap(init[i], ys[j]);
            assert(xs[i] == init[i]);
            assert(any_pair_overlaps(xs, ys));
        }
    }
}

fn same_file_exec(a: &FileChange, b: &FileChange) -> (r: bool)
    ensures
        r == same_file(*a, *b),
{
    if str_eq(a.path.as_str(), b.path.as_str()) {
        return true;
    }
    let a_orig = match &a.original_path {
        Some(o) => str_eq(o.as_str(), b.path.as_str()),
        None => false,
    };
    if a_orig {
        return true;
    }
    match &b.original_path {
        Some(o) => str_eq(o.as_str(), a.path.as_str()),
        None => false,
    }
}

impl FileChange {
    /// Creates a change without line ranges.
    pub fn new(path: String, change_type: ChangeType) -> (r: Self)
        ensures
            r.path == path,
            r.original_path is None,
            r.change_type == change_type,
            r.line_ranges@ == Seq::<LineRange>::empty(),
    {
        FileChange { path, original_path: None, change_type, line_ranges: Vec::new() }
    }

    /// Creates a change with line ranges.
    pub fn with_ranges(path: String, change_type: ChangeType, line_ranges: Vec<LineRange>) -> (r: Self)
        ensures
            r.path == path,
            r.original_path is None,
            r.change_type == change_type,
            r.line_ranges == line_ranges,
    {
        FileChange { path, original_path: None, change_type, line_ranges }
    }

    /// Whether this change and `other` concern the same file and some of
    /// their line ranges overlap.
    pub fn has_overlapping_lines(&self, other: &FileChange) -> (r: bool)
        ensures
            r == (same_file(*self, *other) && any_pair_overlaps(self.line_ranges@, other.line_ranges@)),
    {
        if !same_file_exec(self, other) {
            return false;
        }
        let mut i: usize = 0;
        while i < self.line_ranges.len()
            invariant
                0 <= i <= self.line_ranges@.len(),
                same_file(*self, *other),
                forall|a: int, b: int| 0 <= a < i && 0 <= b < other.line_ranges@.len() ==> !#[trigger] ranges_overlap(
                    self.line_ranges@[a],
                    other.line_ranges@[b],
                ),
            decreases self.line_ranges@.len() - i,
        {
            let mut j: usize = 0;
            while j < other.line_ranges.len()
                invariant
                    0 <= j <= other.line_ranges@.len(),
                    0 <= i < self.line_ranges@.len(),
                    same_file(*self, *other),
                    forall|a: int, b: int| 0 <= a < i && 0 <= b < other.line_ranges@.len() ==> !#[trigger] ranges_overlap(
                        self.line_ranges@[a],
                        other.line_ranges@[b],
                    ),
                    forall|b: int| 0 <= b < j ==> !#[trigger] ranges_overlap(self.line_ranges@[i as int], other.line_ranges@[b]),
                decreases other.line_ranges@.len() - j,
            {
                if self.line_ranges[i].overlaps(&other.line_ranges[j]) {
                    proof {
                        assert(ranges_overlap(self.line_ranges@[i as int], other.line_ranges@[j as int]));
                    }
                    return true;
                }
                j = j + 1;
            }
            i = i + 1;
        }
        false
    }

    /// The intersections of the overlapping line ranges of this change and
    /// `other` (empty when they concern different files).
    pub fn get_overlapping_ranges(&self, other: &FileChange) -> (r: Vec<LineRange>)
        ensures
            r@ == change_overlaps(*self, *other),
    {
        if !same_file_exec(self, other) {
            return Vec::new();
        }
        let xs = &self.line_ranges;
        let ys = &other.line_ranges;
        let mut out: Vec<LineRange> = Vec::new();
        let mut i: usize = 0;
        while i < xs.len()
            invariant
                0 <= i <= xs@.len(),
                out@ == pair_overlaps(xs@.subrange(0, i as int), ys@),
            decreases xs@.len() - i,
        {
            let ghost base = out@;
            let mut j: usize = 0;
            while j < ys.len()
                invariant
                    0 <= j <= ys@.len(),
                    0 <= i < xs@.len(),
                    out@ == base + row_overlaps(xs@[i as int], ys@.subrange(0, j as int)),
                decreases ys@.len() - j,
            {
                proof {
                    assert(ys@.subrange(0, j as int + 1).drop_last() =~= ys@.subrange(0, j as int));
                }
                let a = xs[i];
                let b = ys[j];
                if a.overlaps(&b) {
                    let start = if a.start >= b.start { a.start } else { b.start };
                    let end = if a.end <= b.end { a.end } else { b.end };
                    out.push(LineRange::new(start, end));
                    proof {
                        assert(out@ =~= base + row_overlaps(xs@[i as int], ys@.subrange(0, j as int + 1)));
                    }
                }
                j = j + 1;
            }
            proof {
                assert(ys@.subrange(0, ys@.len() as int) =~= ys@);
                assert(xs@.subrange(0, i as int + 1).drop_last() =~= xs@.subrange(0, i as int));
            }
            i = i + 1;
        }
        proof {
            assert(xs@.subrange(0, xs@.len() as int) =~= xs@);
        }
        out
    }
}

/// Two changes have overlapping lines exactly when their overlapping ranges
/// are not empty.
pub proof fn law_overlapping_lines_iff_ranges(a: FileChange, b: FileChange)
    ensures
        (same_file(a, b) && any_pair_overlaps(a.line_ranges@, b.line_ranges@)) <==> change_overlaps(a, b).len() > 0,
{
    lemma_pair_overlaps_empty(a.line_ranges@, b.line_ranges@);
}

proof fn lemma_covers_concat(s: Seq<LineRange>, t: Seq<LineRange>, l: int)
    ensures
        covers(s + t, l) <==> (covers(s, l) || covers(t, l)),
{
    let u = s + t;
    if covers(u, l) {
        let k = choose|k: int| 0 <= k < u.len() && line_in(#[trigger] u[k], l);
        if k < s.len() {
            assert(line_in(s[k], l));
        } else {
            assert(line_in(t[k - s.len()], l));
        }
    }
    if covers(s, l) {
        let k = choose|k: int| 0 <= k < s.len() && line_in(#[trigger] s[k], l);
        assert(line_in(u[k], l));
    }
    if covers(t, l) {
        let k = choose|k: int| 0 <= k < t.len() && line_in(#[trigger] t[k], l);
        assert(line_in(u[k + s.len()], l));
    }
}

proof fn lemma_covers_push(s: Seq<LineRange>, r: LineRange, l: int)
    ensures
        covers(s.push(r), l) <==> (covers(s, l) || line_in(r, l)),
{
    lemma_covers_concat(s, seq![r], l);
    assert(s.push(r) =~= s + seq![r]);
    if line_in(r, l) {
        assert(line_in(seq![r][0], l));
    }
}

proof fn lemma_row_covers(r: LineRange, ys: Seq<LineRange>, l: int)
    ensures
        covers(row_overlaps(r, ys), l) <==> (line_in(r, l) && covers(ys, l)),
    decreases ys.len(),
{
    if ys.len() == 0 {
    } else {
        let init = ys.drop_last();
        lemma_row_covers(r, init, l);
        lemma_covers_push(init, ys.last(), l);
        assert(ys =~= init.push(ys.last()));
        if ranges_overlap(r, ys.last()) {
            lemma_covers_push(row_overlaps(r, init), range_intersection(r, ys.last()), l);
        } else {
            assert(!(line_in(r, l) && line_in(ys.last(), l)));
        }
    }
}

proof fn lemma_pair_covers(xs: Seq<LineRange>, ys: Seq<LineRange>, l: int)
    ensures
        covers(pair_overlaps(xs, ys), l) <==> (covers(xs, l) && covers(ys, l)),
    decreases xs.len(),
{
    if xs.len() == 0 {
    } else {
        let init = xs.drop_last();
        lemma_pair_covers(init, ys, l);
        lemma_row_covers(xs.last(), ys, l);
        lemma_covers_concat(pair_overlaps(init, ys), row_overlaps(xs.last(), ys), l);
        lemma_covers_push(init, xs.last(), l);
        assert(xs =~= init.push(xs.last()));
    }
}

/// The overlapping ranges of two changes cover exactly the lines that both
/// change: a line lies in some reported range iff the changes concern the
/// same file and the line lies in a range of each. Every reported range
/// lies within a range of each change.
pub proof fn law_overlapping_ranges_cover_common_lines(a: FileChange, b: FileChange, l: int)
    ensures
        covers(change_overlaps(a, b), l) <==> (same_file(a, b) && covers(a.line_ranges@, l) && covers(
            b.line_ranges@,
            l,
        )),
{
    if same_file(a, b) {
        lemma_pair_covers(a.line_ranges@, b.line_ranges@, l);
    } else {
        assert(change_overlaps(a, b) =~= Seq::<LineRange>::empty());
    }
}

// ==================== Dependency categories ====================

/// A file with overlapping line ranges, and those ranges.
#[derive(Debug, Clone)]
pub struct OverlappingFile {
    /// Path to the file.
    pub path: String,
    /// The overlapping line ranges.
    pub overlapping_ranges: Vec<LineRange>,
}

impl View for OverlappingFile {
    type V = (Seq<char>, Seq<LineRange>);

    open spec fn view(&self) -> (Seq<char>, Seq<LineRange>) {
        (self.path@, self.overlapping_ranges@)
    }
}

/// The category of dependency between two PRs.
#[derive(Debug, Clone)]
pub enum DependencyCategory {
    /// No files in common.
    Independent,
    /// Files in common, but no overlapping edited lines.
    PartiallyDependent {
        /// Files that both PRs modify.
        shared_files: Vec<String>,
    },
    /// Files in common whose edited line ranges overlap.
    Dependent {
        /// Files that both PRs modify.
        shared_files: Vec<String>,
        /// Files with overlapping line ranges, with those ranges.
        overlapping_files: Vec<OverlappingFile>,
    },
}

/// The mathematical content of a dependency category.
pub enum CategoryView {
    Independent,
    PartiallyDependent(Seq<Seq<char>>),
    Dependent(Seq<Seq<char>>, Seq<(Seq<char>, Seq<LineRange>)>),
}

/// The views of a sequence of strings.
pub open spec fn strs_view(v: Seq<String>) -> Seq<Seq<char>> {
    v.map_values(|s: String| s@)
}

/// The views of a sequence of overlapping files.
pub open spec fn overlaps_view(v: Seq<OverlappingFile>) -> Seq<(Seq<char>, Seq<LineRange>)> {
    v.map_values(|o: OverlappingFile| o@)
}

impl View for DependencyCategory {
    type V = CategoryView;

    open spec fn view(&self) -> CategoryView {
        match self {
            DependencyCategory::Independent => CategoryView::Independent,
            DependencyCategory::PartiallyDependent { shared_files } => CategoryView::PartiallyDependent(
                strs_view(shared_files@),
            ),
            DependencyCategory::Dependent { shared_files, overlapping_files } => CategoryView::Dependent(
                strs_view(shared_files@),
                overlaps_view(overlapping_files@),
            ),
        }
    }
}

/// The shared files recorded in a category (none when independent).
pub open spec fn category_shared(c: CategoryView) -> Seq<Seq<char>> {
    match c {
        CategoryView::Independent => Seq::empty(),
        CategoryView::PartiallyDependent(s) => s,
        CategoryView::Dependent(s, _) => s,
    }
}

impl DependencyCategory {
    /// Whether this is the independent category.
    pub fn is_independent(&self) -> (r: bool)
        ensures
            r == (self@ is Independent),
    {
        match self {
            DependencyCategory::Independent => true,
            _ => false,
        }
    }

    /// The shared files, if any.
    pub fn shared_files(&self) -> (r: &[String])
        ensures
            strs_view(r@) == category_shared(self@),
    {
        match self {
            DependencyCategory::Independent => &[],
            DependencyCategory::PartiallyDependent { shared_files } => shared_files.as_slice(),
            DependencyCategory::Dependent { shared_files, .. } => shared_files.as_slice(),
        }
    }
}

/// The file names a change touches: its path, then its original path.
pub open spec fn names_of(c: FileChange) -> Seq<Seq<char>> {
    match opt_view(c.original_path) {
        Some(o) => seq![c.path@, o],
        None => seq![c.path@],
    }
}

/// The file names of all changes, in order.
pub open spec fn all_names(cs: Seq<FileChange>) -> Seq<Seq<char>>
    decreases cs.len(),
{
    if cs.len() == 0 {
        Seq::empty()
    } else {
        all_names(cs.drop_last()) + names_of(cs.last())
    }
}

/// The names of `names` that occur in `other`, each once, in order of first
/// occurrence.
pub open spec fn collect_shared(names: Seq<Seq<char>>, other: Seq<Seq<char>>) -> Seq<Seq<char>>
    decreases names.len(),
{
    if names.len() == 0 {
        Seq::empty()
    } else {
        let init = collect_shared(names.drop_last(), other);
        let x = names.last();
        if other.contains(x) && !init.contains(x) {
            init.push(x)
        } else {
            init
        }
    }
}

/// The files both change sets touch, in order of first mention by `cur`.
pub open spec fn shared_files_of(cur: Seq<FileChange>, prev: Seq<FileChange>) -> Seq<Seq<char>> {
    collect_shared(all_names(cur), all_names(prev))
}

/// The first change of `cs` whose path or original path is `f`.
pub open spec fn first_change_for(cs: Seq<FileChange>, f: Seq<char>) -> Option<FileChange>
    decreases cs.len(),
{
    if cs.len() == 0 {
        None
    } else if cs[0].path@ == f || opt_view(cs[0].original_path) == Some(f) {
        Some(cs[0])
    } else {
        first_change_for(cs.drop_first(), f)
    }
}

/// For each shared file in order, its overlapping ranges when not empty.
pub open spec fn overlap_entries(
    shared: Seq<Seq<char>>,
    cur: Seq<FileChange>,
    prev: Seq<FileChange>,
) -> Seq<(Seq<char>, Seq<LineRange>)>
    decreases shared.len(),
{
    if shared.len() == 0 {
        Seq::empty()
    } else {
        let init = overlap_entries(shared.drop_last(), cur, prev);
        let f = shared.last();
        match (first_change_for(cur, f), first_change_for(prev, f)) {
            (Some(c), Some(p)) => {
                let r = change_overlaps(c, p);
                if r.len() > 0 {
                    init.push((f, r))
                } else {
                    init
                }
            },
            _ => init,
        }
    }
}

/// The category of the dependency of a PR with changes `cur` on an earlier
/// PR with changes `prev` (either may be unknown).
pub open spec fn category_of(cur: Option<Seq<FileChange>>, prev: Option<Seq<FileChange>>) -> CategoryView {
    match (cur, prev) {
        (Some(c), Some(p)) => {
            if c.len() == 0 || p.len() == 0 {
                CategoryView::Independent
            } else {
                let s = shared_files_of(c, p);
                if s.len() == 0 {
                    CategoryView::Independent
                } else {
                    let o = overlap_entries(s, c, p);
                    if o.len() == 0 {
                        CategoryView::PartiallyDependent(s)
                    } else {
                        CategoryView::Dependent(s, o)
                    }
                }
            }
        },
        _ => CategoryView::Independent,
    }
}

fn strings_contain(v: &Vec<String>, x: &str) -> (r: bool)
    ensures
        r == strs_view(v@).contains(x@),
{
    let mut i: usize = 0;
    while i < v.len()
        invariant
            0 <= i <= v@.len(),
            forall|k: int| 0 <= k < i ==> v@[k]@ != x@,
        decreases v@.len() - i,
    {
        if str_eq(v[i].as_str(), x) {
            proof {
                assert(strs_view(v@)[i as int] == x@);
            }
            return true;
        }
        i = i + 1;
    }
    proof {
        if strs_view(v@).contains(x@) {
            let k = choose|k: int| 0 <= k < strs_view(v@).len() && strs_view(v@)[k] == x@;
            assert(v@[k]@ == x@);
        }
    }
    false
}

fn names_list(cs: &Vec<FileChange>) -> (r: Vec<String>)
    ensures
        strs_view(r@) == all_names(cs@),
{
    let mut out: Vec<String> = Vec::new();
    let mut i: usize = 0;
    while i < cs.len()
        invariant
            0 <= i <= cs@.len(),
            strs_view(out@) == all_names(cs@.subrange(0, i as int)),
        decreases cs@.len() - i,
    {
        proof {
            assert(cs@.subrange(0, i as int + 1).drop_last() =~= cs@.subrange(0, i as int));
        }
        let ghost before = out@;
        out.push(cs[i].path.clone());
        match &cs[i].original_path {
            Some(o) => {
                out.push(o.clone());
            },
            None => {},
        }
        proof {
            assert(strs_view(out@) =~= strs_view(before) + names_of(cs@[i as int]));
        }
        i = i + 1;
    }
    proof {
        assert(cs@.subrange(0, cs@.len() as int) =~= cs@);
    }
    out
}

fn find_change_for<'a>(cs: &'a Vec<FileChange>, f: &str) -> (r: Option<&'a FileChange>)
    ensures
        match r {
            Some(c) => first_change_for(cs@, f@) == Some(*c),
            None => first_change_for(cs@, f@) is None,
        },
{
    proof {
        assert(cs@.subrange(0, cs@.len() as int) =~= cs@);
    }
    let mut i: usize = 0;
    while i < cs.len()
        invariant
            0 <= i <= cs@.len(),
            first_change_for(cs@, f@) == first_change_for(cs@.subrange(i as int, cs@.len() as int), f@),
        decreases cs@.len() - i,
    {
        let c = &cs[i];
        let hit = str_eq(c.path.as_str(), f) || match &c.original_path {
            Some(o) => str_eq(o.as_str(), f),
            None => false,
        };
        proof {
            let rest = cs@.subrange(i as int, cs@.len() as int);
            assert(rest[0] == cs@[i as int]);
            assert(rest.drop_first() =~= cs@.subrange(i as int + 1, cs@.len() as int));
        }
        if hit {
            return Some(c);
        }
        i = i + 1;
    }
    None
}

/// Categorizes the dependency of a PR with changes `current` on an earlier
/// PR with changes `previous`.
pub fn categorize_dependency(
    current: Option<&Vec<FileChange>>,
    previous: Option<&Vec<FileChange>>,
) -> (r: DependencyCategory)
    ensures
        r@ == category_of(
            match current { Some(c) => Some(c@), None => None },
            match previous { Some(p) => Some(p@), None => None },
        ),
{
    let cur = match current {
        Some(c) => c,
        None => { return DependencyCategory::Independent; },
    };
    let prev = match previous {
        Some(p) => p,
        None => { return DependencyCategory::Independent; },
    };
    if cur.len() == 0 || prev.len() == 0 {
        return DependencyCategory::Independent;
    }
    let cur_names = names_list(cur);
    let prev_names = names_list(prev);
    let mut shared: Vec<String> = Vec::new();
    let mut i: usize = 0;
    while i < cur_names.len()
        invariant
            0 <= i <= cur_names@.len(),
            strs_view(shared@) == collect_shared(strs_view(cur_names@).subrange(0, i as int), strs_view(prev_names@)),
        decreases cur_names@.len() - i,
    {
        proof {
            assert(strs_view(cur_names@).subrange(0, i as int + 1).drop_last() =~= strs_view(cur_names@).subrange(0, i as int));
        }
        let name = cur_names[i].as_str();
        if strings_contain(&prev_names, name) && !strings_contain(&shared, name) {
            let ghost before = shared@;
            shared.push(cur_names[i].clone());
            proof {
                assert(strs_view(shared@) =~= strs_view(before).push(name@));
            }
        }
        i = i + 1;
    }
    proof {
        assert(strs_view(cur_names@).subrange(0, cur_names@.len() as int) =~= strs_view(cur_names@));
    }
    if shared.len() == 0 {
        return DependencyCategory::Independent;
    }
    let mut overlapping: Vec<OverlappingFile> = Vec::new();
    let mut k: usize = 0;
    while k < shared.len()
        invariant
            0 <= k <= shared@.len(),
            overlaps_view(overlapping@) == overlap_entries(strs_view(shared@).subrange(0, k as int), cur@, prev@),
        decreases shared@.len() - k,
    {
        proof {
            assert(strs_view(shared@).subrange(0, k as int + 1).drop_last() =~= strs_view(shared@).subrange(0, k as int));
            assert(strs_view(shared@).subrange(0, k as int + 1).last() == shared@[k as int]@);
        }
        let f = shared[k].as_str();
        let c = find_change_for(cur, f);
        let p = find_change_for(prev, f);
        match (c, p) {
            (Some(c), Some(p)) => {
                let ranges = c.get_overlapping_ranges(p);
                if ranges.len() > 0 {
                    let ghost before = overlapping@;
                    overlapping.push(OverlappingFile { path: shared[k].clone(), overlapping_ranges: ranges });
                    proof {
                        assert(overlaps_view(overlapping@) =~= overlaps_view(before).push((f@, ranges@)));
                    }
                }
            },
            _ => {},
        }
        k = k + 1;
    }
    proof {
        assert(strs_view(shared@).subrange(0, shared@.len() as int) =~= strs_view(shared@));
    }
    if overlapping.len() == 0 {
        DependencyCategory::PartiallyDependent { shared_files: shared }
    } else {
        DependencyCategory::Dependent { shared_files: shared, overlapping_files: overlapping }
    }
}

// ==================== Copies with known content ====================

fn copy_ranges(v: &Vec<LineRange>) -> (r: Vec<LineRange>)
    ensures
        r@ == v@,
{
    let mut out: Vec<LineRange> = Vec::new();
    let mut i: usize = 0;
    while i < v.len()
        invariant
            0 <= i <= v@.len(),
            out@ == v@.subrange(0, i as int),
        decreases v@.len() - i,
    {
        out.push(v[i]);
        i = i + 1;
        proof {
            assert(out@ =~= v@.subrange(0, i as int));
        }
    }
    proof {
        assert(v@.subrange(0, v@.len() as int) =~= v@);
    }
    out
}

/// Copies a vector of strings.
pub fn copy_strings(v: &Vec<String>) -> (r: Vec<String>)
    ensures
        r@ == v@,
        strs_view(r@) == strs_view(v@),
        r@.len() == v@.len(),
{
    let mut out: Vec<String> = Vec::new();
    let mut i: usize = 0;
    while i < v.len()
        invariant
            0 <= i <= v@.len(),
            out@ == v@.subrange(0, i as int),
        decreases v@.len() - i,
    {
        let c = v[i].clone();
        out.push(c);
        proof {
            assert(out@ =~= v@.subrange(0, i as int + 1));
        }
        i = i + 1;
    }
    proof {
        assert(v@.subrange(0, v@.len() as int) =~= v@);
    }
    out
}

fn copy_overlapping(v: &Vec<OverlappingFile>) -> (r: Vec<OverlappingFile>)
    ensures
        overlaps_view(r@) == overlaps_view(v@),
{
    let mut out: Vec<OverlappingFile> = Vec::new();
    let mut i: usize = 0;
    while i < v.len()
        invariant
            0 <= i <= v@.len(),
            overlaps_view(out@) == overlaps_view(v@.subrange(0, i as int)),
        decreases v@.len() - i,
    {
        let ghost old_out = out@;
        let o = OverlappingFile { path: v[i].path.clone(), overlapping_ranges: copy_ranges(&v[i].overlapping_ranges) };
        out.push(o);
        proof {
            let pre = v@.subrange(0, i as int);
            assert(v@.subrange(0, i as int + 1) =~= pre.push(v@[i as int]));
            assert(overlaps_view(old_out.push(o)) =~= overlaps_view(old_out).push(o@));
            assert(overlaps_view(pre.push(v@[i as int])) =~= overlaps_view(pre).push(v@[i as int]@));
        }
        i = i + 1;
    }
    proof {
        assert(v@.subrange(0, v@.len() as int) =~= v@);
    }
    out
}

impl DependencyCategory {
    /// A copy of this category with the same content.
    pub fn duplicate(&self) -> (r: Self)
        ensures
            r@ == self@,
    {
        match self {
            DependencyCategory::Independent => DependencyCategory::Independent,
            DependencyCategory::PartiallyDependent { shared_files } => DependencyCategory::PartiallyDependent {
                shared_files: copy_strings(shared_files),
            },
            DependencyCategory::Dependent { shared_files, overlapping_files } => DependencyCategory::Dependent {
                shared_files: copy_strings(shared_files),
                overlapping_files: copy_overlapping(overlapping_files),
            },
        }
    }
}

// ==================== Graph ====================

/// A dependency of one PR on another.
#[derive(Debug, Clone)]
pub struct PRDependency {
    /// The PR that has the dependency.
    pub from_pr_id: i32,
    /// The PR depended upon.
    pub to_pr_id: i32,
    /// The category of the dependency.
    pub category: DependencyCategory,
}

impl View for PRDependency {
    type V = (i32, i32, CategoryView);

    open spec fn view(&self) -> (i32, i32, CategoryView) {
        (self.from_pr_id, self.to_pr_id, self.category@)
    }
}

/// The views of a sequence of dependencies.
pub open spec fn deps_view(v: Seq<PRDependency>) -> Seq<(i32, i32, CategoryView)> {
    v.map_values(|d: PRDependency| d@)
}

/// A node of the dependency graph.
#[derive(Debug, Clone)]
pub struct PRDependencyNode {
    /// The PR id.
    pub pr_id: i32,
    /// The PR title.
    pub pr_title: String,
    /// Whether the PR is selected for merging.
    pub is_selected: bool,
    /// Dependencies of this PR on earlier PRs.
    pub dependencies: Vec<PRDependency>,
    /// PRs that depend on this one.
    pub dependents: Vec<i32>,
}

/// Counts of dependencies by category.
#[derive(Debug, Clone, Copy, PartialEq, Eq, Structural)]
pub struct DependencyCounts {
    /// Independent relationships.
    pub independent: usize,
    /// Partially dependent relationships.
    pub partial: usize,
    /// Fully dependent relationships.
    pub dependent: usize,
}

/// How many entries of `ds` have each category.
pub open spec fn count_kind(ds: Seq<(i32, i32, CategoryView)>, kind: int) -> nat
    decreases ds.len(),
{
    if ds.len() == 0 {
        0
    } else {
        count_kind(ds.drop_last(), kind) + if kind_of(ds.last().2) == kind { 1nat } else { 0nat }
    }
}

/// The number of a category: 0 independent, 1 partial, 2 dependent.
pub open spec fn kind_of(c: CategoryView) -> int {
    match c {
        CategoryView::Independent => 0,
        CategoryView::PartiallyDependent(_) => 1,
        CategoryView::Dependent(_, _) => 2,
    }
}

proof fn lemma_count_kind_bound(ds: Seq<(i32, i32, CategoryView)>, kind: int)
    ensures
        count_kind(ds, kind) <= ds.len(),
    decreases ds.len(),
{
    if ds.len() > 0 {
        lemma_count_kind_bound(ds.drop_last(), kind);
    }
}

impl PRDependencyNode {
    /// Creates a node without dependencies.
    pub fn new(pr_id: i32, pr_title: String, is_selected: bool) -> (r: Self)
        ensures
            r.pr_id == pr_id,
            r.pr_title == pr_title,
            r.is_selected == is_selected,
            r.dependencies@.len() == 0,
            r.dependents@.len() == 0,
    {
        PRDependencyNode { pr_id, pr_title, is_selected, dependencies: Vec::new(), dependents: Vec::new() }
    }

    /// Whether this PR has a dependency that is not independent.
    pub fn has_dependencies(&self) -> (r: bool)
        ensures
            r == exists|i: int| 0 <= i < self.dependencies@.len() && !(#[trigger] self.dependencies@[i].category@ is Independent),
    {
        let mut i: usize = 0;
        while i < self.dependencies.len()
            invariant
                0 <= i <= self.dependencies@.len(),
                forall|k: int| 0 <= k < i ==> (#[trigger] self.dependencies@[k].category@ is Independent),
            decreases self.dependencies@.len() - i,
        {
            if !self.dependencies[i].category.is_independent() {
                return true;
            }
            i = i + 1;
        }
        false
    }

    /// The number of dependencies in each category.
    pub fn dependency_counts(&self) -> (r: DependencyCounts)
        ensures
            r.independent == count_kind(deps_view(self.dependencies@), 0),
            r.partial == count_kind(deps_view(self.dependencies@), 1),
            r.dependent == count_kind(deps_view(self.dependencies@), 2),
    {
        let mut counts = DependencyCounts { independent: 0, partial: 0, dependent: 0 };
        let mut i: usize = 0;
        while i < self.dependencies.len()
            invariant
                0 <= i <= self.dependencies@.len(),
                counts.independent == count_kind(deps_view(self.dependencies@.subrange(0, i as int)), 0),
                counts.partial == count_kind(deps_view(self.dependencies@.subrange(0, i as int)), 1),
                counts.dependent == count_kind(deps_view(self.dependencies@.subrange(0, i as int)), 2),
            decreases self.dependencies@.len() - i,
        {
            proof {
                let pre = deps_view(self.dependencies@.subrange(0, i as int));
                let post = deps_view(self.dependencies@.subrange(0, i as int + 1));
                assert(post.drop_last() =~= pre);
                lemma_count_kind_bound(pre, 0);
                lemma_count_kind_bound(pre, 1);
                lemma_count_kind_bound(pre, 2);
            }
            match &self.dependencies[i].category {
                DependencyCategory::Independent => counts.independent = counts.independent + 1,
                DependencyCategory::PartiallyDependent { .. } => counts.partial = counts.partial + 1,
                DependencyCategory::Dependent { .. } => counts.dependent = counts.dependent + 1,
            }
            i = i + 1;
        }
        proof {
            assert(self.dependencies@.subrange(0, self.dependencies@.len() as int) =~= self.dependencies@);
        }
        counts
    }
}

/// The dependency graph of a set of PRs.
#[derive(Debug, Clone)]
pub struct PRDependencyGraph {
    /// Nodes by PR id.
    pub nodes: HashMap<i32, PRDependencyNode>,
    /// PR ids with dependencies before dependents.
    pub topological_order: Vec<i32>,
}

impl PRDependencyGraph {
    /// Creates an empty graph.
    pub fn new() -> (r: Self)
        ensures
            r.nodes@ == Map::<i32, PRDependencyNode>::empty(),
            r.topological_order@.len() == 0,
    {
        PRDependencyGraph { nodes: HashMap::new(), topological_order: Vec::new() }
    }

    /// Adds (or replaces) the node for its PR id.
    pub fn add_node(&mut self, node: PRDependencyNode)
        ensures
            final(self).nodes@ == old(self).nodes@.insert(node.pr_id, node),
            final(self).topological_order == old(self).topological_order,
    {
        let id = node.pr_id;
        self.nodes.insert(id, node);
    }

    /// The node of a PR, if present.
    pub fn get_node(&self, pr_id: i32) -> (r: Option<&PRDependencyNode>)
        ensures
            match r {
                Some(n) => self.nodes@.contains_key(pr_id) && self.nodes@[pr_id] == *n,
                None => !self.nodes@.contains_key(pr_id),
            },
    {
        self.nodes.get(&pr_id)
    }
}

// ==================== Warnings ====================

/// A warning from the analysis.
#[derive(Debug, Clone)]
pub enum DependencyWarning {
    /// A selected PR depends on an unselected PR.
    UnselectedDependency {
        selected_pr_id: i32,
        selected_pr_title: String,
        unselected_pr_id: i32,
        unselected_pr_title: String,
        category: DependencyCategory,
    },
    /// A circular dependency.
    CircularDependency {
        cycle: Vec<i32>,
    },
}

/// The content of a warning about an unselected dependency.
pub struct WarningView {
    pub selected_pr_id: i32,
    pub selected_pr_title: Seq<char>,
    pub unselected_pr_id: i32,
    pub unselected_pr_title: Seq<char>,
    pub category: CategoryView,
}

/// The content of an unselected-dependency warning (none for a cycle).
pub open spec fn warning_view(w: DependencyWarning) -> Option<WarningView> {
    match w {
        DependencyWarning::UnselectedDependency {
            selected_pr_id,
            selected_pr_title,
            unselected_pr_id,
            unselected_pr_title,
            category,
        } => Some(
            WarningView {
                selected_pr_id,
                selected_pr_title: selected_pr_title@,
                unselected_pr_id,
                unselected_pr_title: unselected_pr_title@,
                category: category@,
            },
        ),
        DependencyWarning::CircularDependency { .. } => None,
    }
}

/// Whether a warning is critical: a dependency with overlapping lines on an
/// unselected PR, or a cycle.
pub open spec fn warning_is_critical(w: DependencyWarning) -> bool {
    match w {
        DependencyWarning::UnselectedDependency { category, .. } => category@ is Dependent,
        DependencyWarning::CircularDependency { .. } => true,
    }
}

impl DependencyWarning {
    /// Whether this warning is critical.
    pub fn is_critical(&self) -> (r: bool)
        ensures
            r == warning_is_critical(*self),
    {
        match self {
            DependencyWarning::UnselectedDependency { category, .. } => match category {
                DependencyCategory::Dependent { .. } => true,
                _ => false,
            },
            DependencyWarning::CircularDependency { .. } => true,
        }
    }
}

// ==================== Analysis ====================

/// The result of a dependency analysis.
#[derive(Debug, Clone)]
pub struct DependencyAnalysisResult {
    /// The dependency graph.
    pub graph: PRDependencyGraph,
    /// Warnings generated during analysis.
    pub warnings: Vec<DependencyWarning>,
}

/// The number of critical warnings among `ws`.
pub open spec fn count_critical(ws: Seq<DependencyWarning>) -> nat
    decreases ws.len(),
{
    if ws.len() == 0 {
        0
    } else {
        count_critical(ws.drop_last()) + if warning_is_critical(ws.last()) { 1nat } else { 0nat }
    }
}

proof fn lemma_count_critical_bound(ws: Seq<DependencyWarning>)
    ensures
        count_critical(ws) <= ws.len(),
    decreases ws.len(),
{
    if ws.len() > 0 {
        lemma_count_critical_bound(ws.drop_last());
    }
}

impl DependencyAnalysisResult {
    /// Whether any warning is critical.
    pub fn has_critical_warnings(&self) -> (r: bool)
        ensures
            r == exists|i: int| 0 <= i < self.warnings@.len() && warning_is_critical(#[trigger] self.warnings@[i]),
    {
        let mut i: usize = 0;
        while i < self.warnings.len()
            invariant
                0 <= i <= self.warnings@.len(),
                forall|k: int| 0 <= k < i ==> !warning_is_critical(#[trigger] self.warnings@[k]),
            decreases self.warnings@.len() - i,
        {
            if self.warnings[i].is_critical() {
                return true;
            }
            i = i + 1;
        }
        false
    }

    /// The numbers of critical and non-critical warnings.
    pub fn warning_counts(&self) -> (r: (usize, usize))
        ensures
            r.0 == count_critical(self.warnings@),
            r.0 + r.1 == self.warnings@.len(),
    {
        let mut critical: usize = 0;
        let mut i: usize = 0;
        while i < self.warnings.len()
            invariant
                0 <= i <= self.warnings@.len(),
                critical == count_critical(self.warnings@.subrange(0, i as int)),
            decreases self.warnings@.len() - i,
        {
            proof {
                assert(self.warnings@.subrange(0, i as int + 1).drop_last() =~= self.warnings@.subrange(0, i as int));
                lemma_count_critical_bound(self.warnings@.subrange(0, i as int));
            }
            if self.warnings[i].is_critical() {
                critical = critical + 1;
            }
            i = i + 1;
        }
        proof {
            assert(self.warnings@.subrange(0, self.warnings@.len() as int) =~= self.warnings@);
            lemma_count_critical_bound(self.warnings@);
        }
        (critical, self.warnings.len() - critical)
    }
}

/// Configuration of the analysis.
#[derive(Debug, Clone, Copy, PartialEq, Eq, Structural)]
pub struct DependencyAnalysisConfig {
    /// Whether partial dependencies on unselected PRs are warned about.
    pub warn_on_partial: bool,
    /// Whether any unselected dependency should fail.
    pub fail_on_unselected: bool,
}

impl DependencyAnalysisConfig {
    /// The default configuration: warn on partial dependencies, do not fail.
    pub fn default_config() -> (r: Self)
        ensures
            r.warn_on_partial,
            !r.fail_on_unselected,
    {
        DependencyAnalysisConfig { warn_on_partial: true, fail_on_unselected: false }
    }
}

impl Default for DependencyAnalysisConfig {
    fn default() -> (r: Self)
        ensures
            r.warn_on_partial,
            !r.fail_on_unselected,
    {
        DependencyAnalysisConfig::default_config()
    }
}

/// The PR information the analysis needs.
#[derive(Debug, Clone)]
pub struct PRInfo {
    /// PR id.
    pub id: i32,
    /// PR title.
    pub title: String,
    /// Whether the PR is selected for merging.
    pub is_selected: bool,
    /// The merge commit id.
    pub commit_id: Option<String>,
}

impl PRInfo {
    /// Creates a PRInfo.
    pub fn new(id: i32, title: String, is_selected: bool, commit_id: Option<String>) -> (r: Self)
        ensures
            r.id == id,
            r.title == title,
            r.is_selected == is_selected,
            r.commit_id == commit_id,
    {
        PRInfo { id, title, is_selected, commit_id }
    }
}

/// The keys of a map of nodes, each once.
fn node_ids(nodes: &HashMap<i32, PRDependencyNode>) -> (r: Vec<i32>)
    ensures
        r@.no_duplicates(),
        r@.to_set() == nodes@.dom(),
{
    let mut out: Vec<i32> = Vec::new();
    proof {
        vstd::std_specs::hash::axiom_spec_keys_iter(nodes);
    }
    for k in it: nodes.keys()
        invariant
            it.seq().unref().to_set() == nodes@.dom(),
            it.seq().no_duplicates(),
            it.seq().len() == nodes@.dom().len(),
            out@ == it.seq().subrange(0, it.index()).unref(),
            out@.no_duplicates(),
            forall|x: i32| out@.contains(x) ==> nodes@.dom().contains(x),
        ensures
            out@.no_duplicates(),
            forall|x: i32| out@.contains(x) ==> nodes@.dom().contains(x),
            out@.len() == nodes@.dom().len(),
    {
        let ghost before = out@;
        out.push(*k);
        proof {
            let s = it.seq();
            let i = it.index();
            assert(out@ =~= s.subrange(0, i + 1).unref());
            assert(*s[i] == *k);
            assert(s.unref().to_set().contains(*k)) by {
                assert(s.unref()[i] == *k);
            }
            assert forall|a: int, b: int| 0 <= a < b < out@.len() implies out@[a] != out@[b] by {
                assert(out@[a] == *s[a] && out@[b] == *s[b]);
            }
            assert forall|x: i32| out@.contains(x) implies nodes@.dom().contains(x) by {
                if x != *k {
                    let j = choose|j: int| 0 <= j < out@.len() && out@[j] == x;
                    assert(before[j] == x);
                    assert(before.contains(x));
                } else {
                    assert(s.unref().to_set().contains(x));
                    assert(nodes@.dom() == s.unref().to_set());
                }
            }
        }
    }
    proof {
        out@.unique_seq_to_set();
        assert(out@.to_set().subset_of(nodes@.dom()));
        vstd::std_specs::hash::axiom_hashmap_view_finite_dom(*nodes);
        vstd::set_lib::lemma_subset_equality(out@.to_set(), nodes@.dom());
    }
    out
}

// ==================== Topological order ====================

/// The PRs a node depends on through non-independent dependencies, in order.
pub open spec fn dep_targets(deps: Seq<PRDependency>) -> Seq<i32>
    decreases deps.len(),
{
    if deps.len() == 0 {
        Seq::empty()
    } else {
        let init = dep_targets(deps.drop_last());
        if deps.last().category@ is Independent {
            init
        } else {
            init.push(deps.last().to_pr_id)
        }
    }
}

/// The number of entries of `ts` that are not in `done`.
pub open spec fn pending_count(ts: Seq<i32>, done: Set<i32>) -> nat
    decreases ts.len(),
{
    if ts.len() == 0 {
        0
    } else {
        pending_count(ts.drop_last(), done) + if done.contains(ts.last()) { 0nat } else { 1nat }
    }
}

/// Whether every node's dependents list mirrors the dependencies on it:
/// `d` occurs in the dependents of `p` as often as `p` is a dependency
/// target of `d`.
pub open spec fn graph_consistent(nodes: Map<i32, PRDependencyNode>) -> bool {
    forall|p: i32, d: i32|
        #![trigger occurrences(nodes[p].dependents@, d)]
        #![trigger occurrences(dep_targets(nodes[d].dependencies@), p)]
        nodes.contains_key(p) && nodes.contains_key(d) ==> occurrences(nodes[p].dependents@, d)
            == occurrences(dep_targets(nodes[d].dependencies@), p)
}

/// Whether `order` lists every PR after all the PRs it depends on.
pub open spec fn respects_dependencies(nodes: Map<i32, PRDependencyNode>, order: Seq<i32>) -> bool {
    forall|a: int, y: i32|
        #![trigger order[a], dep_targets(nodes[order[a]].dependencies@).contains(y)]
        0 <= a < order.len() && dep_targets(nodes[order[a]].dependencies@).contains(y)
            ==> order.subrange(0, a).contains(y)
}

proof fn lemma_pending_le(ts: Seq<i32>, done: Set<i32>)
    ensures
        pending_count(ts, done) <= ts.len(),
    decreases ts.len(),
{
    if ts.len() > 0 {
        lemma_pending_le(ts.drop_last(), done);
    }
}

proof fn lemma_pending_insert(ts: Seq<i32>, done: Set<i32>, p: i32)
    requires
        !done.contains(p),
    ensures
        pending_count(ts, done) == pending_count(ts, done.insert(p)) + occurrences(ts, p),
    decreases ts.len(),
{
    if ts.len() > 0 {
        lemma_pending_insert(ts.drop_last(), done, p);
    }
}

proof fn lemma_pending_zero(ts: Seq<i32>, done: Set<i32>, y: i32)
    requires
        pending_count(ts, done) == 0,
        ts.contains(y),
    ensures
        done.contains(y),
    decreases ts.len(),
{
    if ts.last() != y {
        let k = choose|k: int| 0 <= k < ts.len() && ts[k] == y;
        assert(ts.drop_last()[k] == y);
        lemma_pending_zero(ts.drop_last(), done, y);
    }
}

proof fn lemma_pending_none(ts: Seq<i32>, done: Set<i32>)
    requires
        forall|y: i32| ts.contains(y) ==> done.contains(y),
    ensures
        pending_count(ts, done) == 0,
    decreases ts.len(),
{
    if ts.len() > 0 {
        assert forall|y: i32| ts.drop_last().contains(y) implies done.contains(y) by {
            let k = choose|k: int| 0 <= k < ts.drop_last().len() && ts.drop_last()[k] == y;
            assert(ts[k] == y);
        }
        lemma_pending_none(ts.drop_last(), done);
        assert(ts.contains(ts.last())) by {
            assert(ts[ts.len() - 1] == ts.last());
        }
    }
}

/// Whether every PR that `x` depends on is among `placed`.
pub open spec fn targets_placed(nodes: Map<i32, PRDependencyNode>, x: i32, placed: Seq<i32>) -> bool {
    forall|y: i32| #[trigger] dep_targets(nodes[x].dependencies@).contains(y) ==> placed.contains(y)
}

/// Whether PR `x` is ready once `placed` have been placed: a node not yet
/// placed whose dependencies all have been.
pub open spec fn ready_after(nodes: Map<i32, PRDependencyNode>, x: i32, placed: Seq<i32>) -> bool {
    &&& nodes.contains_key(x)
    &&& !placed.contains(x)
    &&& targets_placed(nodes, x, placed)
}

/// Whether the ids strictly increase.
pub open spec fn sorted_ids(s: Seq<i32>) -> bool {
    forall|a: int, b: int| 0 <= a < b < s.len() ==> s[a] < s[b]
}

/// Whether each PR of `order` is the largest id among those ready when it
/// was placed.
pub open spec fn largest_ready_first(nodes: Map<i32, PRDependencyNode>, order: Seq<i32>) -> bool {
    forall|k: int, x: i32|
        #![trigger order[k], ready_after(nodes, x, order.subrange(0, k))]
        0 <= k < order.len() && ready_after(nodes, x, order.subrange(0, k)) ==> x <= order[k]
}

/// Whether `order` holds every PR whose dependencies it all holds.
pub open spec fn order_complete(nodes: Map<i32, PRDependencyNode>, order: Seq<i32>) -> bool {
    forall|x: i32| #[trigger] nodes.contains_key(x) && targets_placed(nodes, x, order) ==> order.contains(x)
}

proof fn lemma_occ_prefix<T>(s: Seq<T>, k: int, x: T)
    requires
        0 <= k < s.len(),
    ensures
        occurrences(s.subrange(0, k + 1), x) == occurrences(s.subrange(0, k), x) + if s[k] == x { 1nat } else { 0nat },
        occurrences(s.subrange(0, k), x) <= occurrences(s, x),
    decreases s.len() - k,
{
    assert(s.subrange(0, k + 1).drop_last() =~= s.subrange(0, k));
    if k + 1 < s.len() {
        lemma_occ_prefix(s, k + 1, x);
    } else {
        assert(s.subrange(0, k + 1) =~= s);
    }
}

fn count_targets(deps: &Vec<PRDependency>) -> (r: usize)
    ensures
        r == dep_targets(deps@).len(),
{
    let mut n: usize = 0;
    let mut i: usize = 0;
    while i < deps.len()
        invariant
            0 <= i <= deps@.len(),
            n == dep_targets(deps@.subrange(0, i as int)).len(),
            n <= i,
        decreases deps@.len() - i,
    {
        proof {
            assert(deps@.subrange(0, i as int + 1).drop_last() =~= deps@.subrange(0, i as int));
        }
        if !deps[i].category.is_independent() {
            n = n + 1;
        }
        i = i + 1;
    }
    proof {
        assert(deps@.subrange(0, deps@.len() as int) =~= deps@);
    }
    n
}

/// Inserts `x` before the first element not smaller than it.
fn queue_insert(q: &mut Vec<i32>, x: i32)
    requires
        sorted_ids(old(q)@),
        !old(q)@.contains(x),
    ensures
        sorted_ids(final(q)@),
        final(q)@.len() == old(q)@.len() + 1,
        forall|y: i32| final(q)@.contains(y) <==> (old(q)@.contains(y) || y == x),
        forall|y: i32| y != x ==> occurrences(final(q)@, y) == occurrences(old(q)@, y),
        occurrences(final(q)@, x) == occurrences(old(q)@, x) + 1,
{
    let mut pos: usize = 0;
    while pos < q.len() && q[pos] < x
        invariant
            0 <= pos <= q@.len(),
            q@ == old(q)@,
            forall|i: int| 0 <= i < pos ==> q@[i] < x,
        decreases q@.len() - pos,
    {
        pos = pos + 1;
    }
    let ghost before = q@;
    q.insert(pos, x);
    proof {
        let a = before.subrange(0, pos as int);
        let b = before.subrange(pos as int, before.len() as int);
        assert(q@ =~= (a + seq![x]) + b);
        assert(before =~= a + b);
        lemma_occurrences_concat(a, b);
        lemma_occurrences_concat(a + seq![x], b);
        lemma_occurrences_concat(a, seq![x]);
        assert forall|y: i32| #[trigger] occurrences(q@, y) == occurrences(before, y) + if x == y { 1nat } else { 0nat } by {
            lemma_occ_single(x, y);
            assert(occurrences((a + seq![x]) + b, y) == occurrences(a + seq![x], y) + occurrences(b, y));
            assert(occurrences(a + seq![x], y) == occurrences(a, y) + occurrences(seq![x], y));
            assert(occurrences(a + b, y) == occurrences(a, y) + occurrences(b, y));
        }
        assert forall|y: i32| q@.contains(y) <==> (before.contains(y) || y == x) by {
            lemma_occ_contains(q@, y);
            lemma_occ_contains(before, y);
            assert(occurrences(q@, y) == occurrences(before, y) + if x == y { 1nat } else { 0nat });
        }
        assert(occurrences(q@, x) == occurrences(before, x) + 1);
        if pos < before.len() {
            assert(before[pos as int] >= x);
            assert(before[pos as int] != x) by {
                assert(before.contains(before[pos as int]));
            }
        }
        assert forall|i: int, j: int| 0 <= i < j < q@.len() implies q@[i] < q@[j] by {
            if j < pos {
            } else if j == pos {
                assert(q@[i] == before[i]);
            } else if i < pos {
                assert(q@[i] == before[i]);
                assert(q@[j] == before[j - 1]);
                if pos < before.len() {
                    assert(before[pos as int] <= before[j - 1]);
                }
            } else if i == pos {
                assert(q@[j] == before[j - 1]);
                assert(before[pos as int] <= before[j - 1]);
            } else {
                assert(q@[i] == before[i - 1]);
                assert(q@[j] == before[j - 1]);
            }
        }
    }
}

proof fn lemma_occ_single<T>(x: T, y: T)
    ensures
        occurrences(seq![x], y) == if x == y { 1nat } else { 0nat },
{
    assert(seq![x].drop_last() =~= Seq::<T>::empty());
    assert(occurrences(Seq::<T>::empty(), y) == 0);
}

proof fn lemma_occurrences_concat<T>(a: Seq<T>, b: Seq<T>)
    ensures
        forall|x: T| #[trigger] occurrences(a + b, x) == occurrences(a, x) + occurrences(b, x),
    decreases b.len(),
{
    if b.len() == 0 {
        assert(a + b =~= a);
    } else {
        lemma_occurrences_concat(a, b.drop_last());
        assert((a + b).drop_last() =~= a + b.drop_last());
        assert forall|x: T| #[trigger] occurrences(a + b, x) == occurrences(a, x) + occurrences(b, x) by {
            assert(occurrences(a + b.drop_last(), x) == occurrences(a, x) + occurrences(b.drop_last(), x));
        }
    }
}

proof fn lemma_occ_contains<T>(s: Seq<T>, x: T)
    ensures
        occurrences(s, x) > 0 <==> s.contains(x),
    decreases s.len(),
{
    if s.len() > 0 {
        lemma_occ_contains(s.drop_last(), x);
        if s.drop_last().contains(x) {
            let k = choose|k: int| 0 <= k < s.drop_last().len() && s.drop_last()[k] == x;
            assert(s[k] == x);
        }
        if s.contains(x) && s.last() != x {
            let k = choose|k: int| 0 <= k < s.len() && s[k] == x;
            assert(s.drop_last()[k] == x);
        }
    }
}

proof fn lemma_occ_le_len<T>(s: Seq<T>, x: T)
    ensures
        occurrences(s, x) <= s.len(),
    decreases s.len(),
{
    if s.len() > 0 {
        lemma_occ_le_len(s.drop_last(), x);
    }
}

/// What the topological sort keeps true while it runs.
pub open spec fn topo_state(
    nodes: Map<i32, PRDependencyNode>,
    deg: Map<i32, usize>,
    queue: Seq<i32>,
    result: Seq<i32>,
) -> bool {
    &&& deg.dom() == nodes.dom()
    &&& result.no_duplicates()
    &&& forall|x: i32| #[trigger] queue.contains(x) ==> nodes.contains_key(x) && !result.contains(x) && occurrences(queue, x) == 1
    &&& forall|x: i32| #[trigger] result.contains(x) ==> nodes.contains_key(x)
    &&& forall|x: i32| #![trigger deg[x]] nodes.contains_key(x) ==> deg[x] == pending_count(
        dep_targets(nodes[x].dependencies@),
        result.to_set(),
    )
    &&& forall|x: i32| #![trigger deg[x]] nodes.contains_key(x) ==> ((queue.contains(x) || result.contains(x)) <==> deg[x] == 0)
    &&& respects_dependencies(nodes, result)
}

impl PRDependencyGraph {
    /// Computes the topological order with Kahn's algorithm: PRs without
    /// pending dependencies are taken largest id first, and a PR becomes
    /// ready once every PR it depends on has been placed.
    ///
    /// Requires the dependents lists to mirror the dependencies (as the
    /// analyzer builds them); on other graphs the algorithm may not end.
    pub fn compute_topological_order(&mut self)
        requires
            graph_consistent(old(self).nodes@),
        ensures
            final(self).nodes == old(self).nodes,
            final(self).topological_order@.no_duplicates(),
            forall|k: int| 0 <= k < final(self).topological_order@.len() ==> final(self).nodes@.contains_key(
                #[trigger] final(self).topological_order@[k],
            ),
            respects_dependencies(final(self).nodes@, final(self).topological_order@),
            order_complete(final(self).nodes@, final(self).topological_order@),
            largest_ready_first(final(self).nodes@, final(self).topological_order@),
    {
        let ghost nodes = self.nodes@;
        proof {
            vstd::std_specs::hash::axiom_hashmap_view_finite_dom(self.nodes);
        }
        let ids = node_ids(&self.nodes);
        let mut in_degree: HashMap<i32, usize> = HashMap::new();
        let mut queue: Vec<i32> = Vec::new();
        let mut i: usize = 0;
        while i < ids.len()
            invariant
                0 <= i <= ids@.len(),
                nodes == self.nodes@,
                ids@.no_duplicates(),
                ids@.to_set() == nodes.dom(),
                in_degree@.dom() == ids@.subrange(0, i as int).to_set(),
                forall|x: i32| #![trigger in_degree@[x]] in_degree@.contains_key(x) ==> in_degree@[x] == pending_count(
                    dep_targets(nodes[x].dependencies@),
                    Set::empty(),
                ),
                forall|x: i32| #[trigger] queue@.contains(x) ==> in_degree@.contains_key(x) && in_degree@[x] == 0 && occurrences(queue@, x) == 1,
                forall|x: i32| #![trigger in_degree@[x]] in_degree@.contains_key(x) && in_degree@[x] == 0 ==> queue@.contains(x),
                sorted_ids(queue@),
            decreases ids@.len() - i,
        {
            let id = ids[i];
            proof {
                assert(ids@.to_set().contains(id)) by { assert(ids@[i as int] == id); }
                assert(!ids@.subrange(0, i as int).to_set().contains(id)) by {
                    if ids@.subrange(0, i as int).contains(id) {
                        let k = choose|k: int| 0 <= k < i && ids@.subrange(0, i as int)[k] == id;
                        assert(ids@[k] == ids@[i as int]);
                    }
                }
            }
            let node = self.nodes.get(&id).unwrap();
            let d = count_targets(&node.dependencies);
            proof {
                lemma_pending_le(dep_targets(nodes[id].dependencies@), Set::empty());
                lemma_pending_all(dep_targets(nodes[id].dependencies@));
            }
            in_degree.insert(id, d);
            if d == 0 {
                proof {
                    assert(!queue@.contains(id));
                    lemma_occ_contains(queue@, id);
                }
                queue_insert(&mut queue, id);
            }
            i = i + 1;
            proof {
                assert(ids@.subrange(0, i as int) =~= ids@.subrange(0, i as int - 1).push(id));
                ids@.subrange(0, i as int - 1).lemma_push_to_set_commute(id);
                assert forall|x: i32| #[trigger] queue@.contains(x) implies in_degree@.contains_key(x) && in_degree@[x] == 0 && occurrences(queue@, x) == 1 by {
                    if x != id {
                        lemma_occ_contains(queue@, x);
                    }
                }
            }
        }
        proof {
            assert(ids@.subrange(0, ids@.len() as int) =~= ids@);
            assert(Seq::<i32>::empty().to_set() =~= Set::<i32>::empty());
            assert(in_degree@.dom() == nodes.dom());
            assert forall|x: i32| #![trigger in_degree@[x]] nodes.contains_key(x) implies in_degree@[x] == pending_count(
                dep_targets(nodes[x].dependencies@), Seq::<i32>::empty().to_set()) by {}
            assert(topo_state(nodes, in_degree@, queue@, Seq::empty())) by {
                assert forall|a: int, y: i32| #![trigger Seq::<i32>::empty()[a], dep_targets(nodes[Seq::<i32>::empty()[a]].dependencies@).contains(y)]
                    0 <= a < Seq::<i32>::empty().len() && dep_targets(nodes[Seq::<i32>::empty()[a]].dependencies@).contains(y)
                    implies Seq::<i32>::empty().subrange(0, a).contains(y) by {}
            }
        }
        let mut result: Vec<i32> = Vec::new();
        while queue.len() > 0
            invariant
                nodes == self.nodes@,
                graph_consistent(nodes),
                nodes.dom().finite(),
                topo_state(nodes, in_degree@, queue@, result@),
                sorted_ids(queue@),
                largest_ready_first(nodes, result@),
            decreases nodes.dom().len() - result@.len(),
        {
            let ghost queue_old = queue@;
            let p = queue.pop().unwrap();
            let ghost done_old = result@.to_set();
            let ghost result_old = result@;
            let ghost queue_rest = queue@;
            proof {
                assert(queue_old =~= queue_rest.push(p));
                assert(queue_old.contains(p)) by { assert(queue_old[queue_rest.len() as int] == p); }
                assert(!result_old.contains(p));
                assert(nodes.contains_key(p));
                assert(in_degree@[p] == 0);
                assert(in_degree@[p] == pending_count(dep_targets(nodes[p].dependencies@), done_old));
                lemma_occurrences_concat(queue_rest, seq![p]);
                assert(queue_rest + seq![p] =~= queue_old);
                lemma_occ_single(p, p);
                assert(occurrences(queue_old, p) == 1);
                assert(occurrences(queue_rest, p) == 0);
                lemma_occ_contains(queue_rest, p);
                result@.unique_seq_to_set();
                vstd::set_lib::lemma_len_subset(result@.to_set(), nodes.dom());
            }
            proof {
                assert forall|a: int, b: int| 0 <= a < b < queue_rest.len() implies queue_rest[a] < queue_rest[b] by {
                    assert(queue_rest[a] == queue_old[a] && queue_rest[b] == queue_old[b]);
                }
                assert forall|x: i32| ready_after(nodes, x, result_old) implies x <= p by {
                    assert forall|y: i32| dep_targets(nodes[x].dependencies@).contains(y) implies done_old.contains(y) by {
                        assert(targets_placed(nodes, x, result_old));
                    }
                    lemma_pending_none(dep_targets(nodes[x].dependencies@), done_old);
                    assert(in_degree@[x] == 0);
                    assert(queue_old.contains(x));
                    let k = choose|k: int| 0 <= k < queue_old.len() && queue_old[k] == x;
                    if k < queue_old.len() - 1 {
                        assert(queue_old[k] < queue_old[queue_old.len() - 1]);
                    }
                }
            }
            result.push(p);
            proof {
                assert forall|k: int, x: i32|
                    #![trigger result@[k], ready_after(nodes, x, result@.subrange(0, k))]
                    0 <= k < result@.len() && ready_after(nodes, x, result@.subrange(0, k)) implies x <= result@[k] by {
                    if k < result_old.len() {
                        assert(result@.subrange(0, k) =~= result_old.subrange(0, k));
                        assert(result@[k] == result_old[k]);
                    } else {
                        assert(result@.subrange(0, k) =~= result_old);
                    }
                }
                result_old.lemma_push_to_set_commute(p);
                assert(result@ =~= result_old.push(p));
                assert(result@.to_set() =~= done_old.insert(p));
                assert(!done_old.contains(p));
                assert forall|x: i32| #[trigger] queue@.contains(x) implies nodes.contains_key(x) && !result@.contains(x) && occurrences(queue@, x) == 1 by {
                    assert(queue_old.contains(x)) by {
                        let k = choose|k: int| 0 <= k < queue_rest.len() && queue_rest[k] == x;
                        assert(queue_old[k] == x);
                    }
                    lemma_occ_single(p, x);
                    assert(occurrences(queue_old, x) == occurrences(queue_rest, x) + occurrences(seq![p], x));
                    lemma_occ_contains(queue_rest, x);
                    if result@.contains(x) && x != p {
                        let k = choose|k: int| 0 <= k < result@.len() && result@[k] == x;
                        assert(result_old[k] == x);
                    }
                }
                assert forall|x: i32| #[trigger] result@.contains(x) implies nodes.contains_key(x) by {
                    if x != p {
                        let k = choose|k: int| 0 <= k < result@.len() && result@[k] == x;
                        assert(result_old[k] == x);
                        assert(result_old.contains(x));
                    }
                }
                assert forall|x: i32| #![trigger in_degree@[x]] nodes.contains_key(x) implies ((queue@.contains(x) || result@.contains(x)) <==> in_degree@[x] == 0) by {
                    assert((queue_old.contains(x) || result_old.contains(x)) <==> in_degree@[x] == 0);
                    if queue_old.contains(x) && x != p {
                        let k = choose|k: int| 0 <= k < queue_old.len() && queue_old[k] == x;
                        assert(k < queue_rest.len());
                        assert(queue_rest[k] == x);
                    }
                    if queue@.contains(x) {
                        let k = choose|k: int| 0 <= k < queue_rest.len() && queue_rest[k] == x;
                        assert(queue_old[k] == x);
                    }
                    if result_old.contains(x) {
                        let k = choose|k: int| 0 <= k < result_old.len() && result_old[k] == x;
                        assert(result@[k] == x);
                    }
                    if result@.contains(x) && x != p {
                        let k = choose|k: int| 0 <= k < result@.len() && result@[k] == x;
                        assert(result_old[k] == x);
                    }
                    if x == p {
                        assert(result@[result_old.len() as int] == p);
                    }
                }
                assert forall|a: int, b: int| 0 <= a < b < result@.len() implies result@[a] != result@[b] by {
                    if b == result@.len() - 1 {
                        assert(result_old.contains(result@[a]));
                    }
                }
                // every target of p is already placed
                assert forall|a: int, y: i32|
                    #![trigger result@[a], dep_targets(nodes[result@[a]].dependencies@).contains(y)]
                    0 <= a < result@.len() && dep_targets(nodes[result@[a]].dependencies@).contains(y)
                    implies result@.subrange(0, a).contains(y) by {
                    if a == result@.len() - 1 {
                        lemma_pending_zero(dep_targets(nodes[p].dependencies@), done_old, y);
                        assert(result@.subrange(0, a) =~= result_old);
                    } else {
                        assert(result_old[a] == result@[a]);
                        assert(result@.subrange(0, a) =~= result_old.subrange(0, a));
                    }
                }
            }
            let deps = &self.nodes.get(&p).unwrap().dependents;
            let ghost dl = deps@;
            let mut k: usize = 0;
            while k < deps.len()
                invariant
                    0 <= k <= dl.len(),
                    dl == deps@,
                    nodes == self.nodes@,
                    graph_consistent(nodes),
                    nodes.contains_key(p),
                    dl == nodes[p].dependents@,
                    !done_old.contains(p),
                    result@.to_set() == done_old.insert(p),
                    result@.no_duplicates(),
                    respects_dependencies(nodes, result@),
                    forall|x: i32| #[trigger] result@.contains(x) ==> nodes.contains_key(x),
                    in_degree@.dom() == nodes.dom(),
                    forall|x: i32| #![trigger in_degree@[x]] nodes.contains_key(x) ==> in_degree@[x] + occurrences(dl.subrange(0, k as int), x)
                        == pending_count(dep_targets(nodes[x].dependencies@), done_old),
                    forall|x: i32| #![trigger occurrences(dep_targets(nodes[x].dependencies@), p)] nodes.contains_key(x) ==> occurrences(dl.subrange(0, k as int), x)
                        <= occurrences(dep_targets(nodes[x].dependencies@), p),
                    forall|x: i32| #[trigger] queue@.contains(x) ==> nodes.contains_key(x) && !result@.contains(x) && occurrences(queue@, x) == 1,
                    forall|x: i32| #![trigger in_degree@[x]] nodes.contains_key(x) ==> ((queue@.contains(x) || result@.contains(x)) <==> in_degree@[x] == 0),
                    sorted_ids(queue@),
                    largest_ready_first(nodes, result@),
                decreases dl.len() - k,
            {
                let d = deps[k];
                proof {
                    lemma_occ_prefix(dl, k as int, d);
                }
                match in_degree.get(&d) {
                    Some(dr) => {
                        let deg = *dr;
                        proof {
                            assert(in_degree@.contains_key(d));
                            assert(nodes.contains_key(d));
                            assert(deg == in_degree@[d]);
                            assert(occurrences(nodes[p].dependents@, d) == occurrences(dep_targets(nodes[d].dependencies@), p));
                            lemma_pending_insert(dep_targets(nodes[d].dependencies@), done_old, p);
                            if k + 1 < dl.len() {
                                lemma_occ_prefix(dl, k as int + 1, d);
                            } else {
                                assert(dl.subrange(0, k as int + 1) =~= dl);
                            }
                            assert(deg > 0);
                        }
                        let nd = deg - 1;
                        in_degree.insert(d, nd);
                        if nd == 0 {
                            proof {
                                assert(!queue@.contains(d));
                                lemma_occ_contains(queue@, d);
                            }
                            queue_insert(&mut queue, d);
                        }
                    },
                    None => {},
                }
                proof {
                    assert forall|x: i32| #![trigger in_degree@[x]] nodes.contains_key(x) implies in_degree@[x] + occurrences(dl.subrange(0, k as int + 1), x)
                        == pending_count(dep_targets(nodes[x].dependencies@), done_old) by {
                        lemma_occ_prefix(dl, k as int, x);
                    }
                    assert forall|x: i32| #[trigger] queue@.contains(x) implies nodes.contains_key(x) && !result@.contains(x) && occurrences(queue@, x) == 1 by {
                        lemma_occ_contains(queue@, x);
                    }
                }
                k = k + 1;
                proof {
                    assert forall|x: i32| #![trigger occurrences(dep_targets(nodes[x].dependencies@), p)] nodes.contains_key(x) implies occurrences(dl.subrange(0, k as int), x)
                        <= occurrences(dep_targets(nodes[x].dependencies@), p) by {
                        assert(occurrences(nodes[p].dependents@, x) == occurrences(dep_targets(nodes[x].dependencies@), p));
                        if k < dl.len() {
                            lemma_occ_prefix(dl, k as int, x);
                        } else {
                            assert(dl.subrange(0, k as int) =~= dl);
                        }
                    }
                }
            }
            proof {
                assert(dl.subrange(0, dl.len() as int) =~= dl);
                assert forall|x: i32| #![trigger in_degree@[x]] nodes.contains_key(x) implies in_degree@[x] == pending_count(
                    dep_targets(nodes[x].dependencies@), result@.to_set()) by {
                    lemma_pending_insert(dep_targets(nodes[x].dependencies@), done_old, p);
                }
                result@.unique_seq_to_set();
                vstd::set_lib::lemma_len_subset(result@.to_set(), nodes.dom());
            }
        }
        proof {
            assert forall|k: int| 0 <= k < result@.len() implies nodes.contains_key(#[trigger] result@[k]) by {
                assert(result@.contains(result@[k]));
            }
            assert forall|x: i32| #[trigger] nodes.contains_key(x) && targets_placed(nodes, x, result@) implies result@.contains(x) by {
                assert forall|y: i32| dep_targets(nodes[x].dependencies@).contains(y) implies result@.to_set().contains(y) by {
                    assert(targets_placed(nodes, x, result@));
                }
                lemma_pending_none(dep_targets(nodes[x].dependencies@), result@.to_set());
                assert(in_degree@[x] == 0);
                assert(!queue@.contains(x));
            }
        }
        self.topological_order = result;
    }
}

proof fn lemma_pending_all(ts: Seq<i32>)
    ensures
        pending_count(ts, Set::empty()) == ts.len(),
    decreases ts.len(),
{
    if ts.len() > 0 {
        lemma_pending_all(ts.drop_last());
    }
}

// ==================== Analyzer ====================

/// The changes recorded for a PR id, if any.
pub open spec fn changes_of(m: Map<i32, Vec<FileChange>>, id: i32) -> Option<Seq<FileChange>> {
    if m.contains_key(id) {
        Some(m[id]@)
    } else {
        None
    }
}

/// The category of PR `i` depending on the earlier PR `j`.
pub open spec fn pair_category(prs: Seq<PRInfo>, m: Map<i32, Vec<FileChange>>, i: int, j: int) -> CategoryView {
    category_of(changes_of(m, prs[i].id), changes_of(m, prs[j].id))
}

/// The dependencies that node `id` records from comparing PR `i` with the
/// PRs before position `j`.
pub open spec fn deps_row(prs: Seq<PRInfo>, m: Map<i32, Vec<FileChange>>, id: i32, i: int, j: nat) -> Seq<(i32, i32, CategoryView)>
    decreases j,
{
    if j == 0 {
        Seq::empty()
    } else {
        let init = deps_row(prs, m, id, i, (j - 1) as nat);
        let c = pair_category(prs, m, i, j - 1);
        if prs[i].id == id && !(c is Independent) {
            init.push((prs[i].id, prs[j - 1].id, c))
        } else {
            init
        }
    }
}

/// The dependencies that node `id` records from the PRs before position `i`.
pub open spec fn deps_upto(prs: Seq<PRInfo>, m: Map<i32, Vec<FileChange>>, id: i32, i: nat) -> Seq<(i32, i32, CategoryView)>
    decreases i,
{
    if i == 0 {
        Seq::empty()
    } else {
        deps_upto(prs, m, id, (i - 1) as nat) + deps_row(prs, m, id, i - 1, (i - 1) as nat)
    }
}

/// The dependents that node `id` records from comparing PR `i` with the PRs
/// before position `j`.
pub open spec fn dependents_row(prs: Seq<PRInfo>, m: Map<i32, Vec<FileChange>>, id: i32, i: int, j: nat) -> Seq<i32>
    decreases j,
{
    if j == 0 {
        Seq::empty()
    } else {
        let init = dependents_row(prs, m, id, i, (j - 1) as nat);
        let c = pair_category(prs, m, i, j - 1);
        if prs[j - 1].id == id && !(c is Independent) {
            init.push(prs[i].id)
        } else {
            init
        }
    }
}

/// The dependents that node `id` records from the PRs before position `i`.
pub open spec fn dependents_upto(prs: Seq<PRInfo>, m: Map<i32, Vec<FileChange>>, id: i32, i: nat) -> Seq<i32>
    decreases i,
{
    if i == 0 {
        Seq::empty()
    } else {
        dependents_upto(prs, m, id, (i - 1) as nat) + dependents_row(prs, m, id, i - 1, (i - 1) as nat)
    }
}

/// Whether a dependency of a selected PR on an unselected one is warned about.
pub open spec fn should_warn(c: CategoryView, warn_on_partial: bool) -> bool {
    match c {
        CategoryView::Independent => false,
        CategoryView::PartiallyDependent(_) => warn_on_partial,
        CategoryView::Dependent(_, _) => true,
    }
}

/// The warnings from comparing PR `i` with the PRs before position `j`.
pub open spec fn warnings_row(prs: Seq<PRInfo>, m: Map<i32, Vec<FileChange>>, warn_on_partial: bool, i: int, j: nat) -> Seq<WarningView>
    decreases j,
{
    if j == 0 {
        Seq::empty()
    } else {
        let init = warnings_row(prs, m, warn_on_partial, i, (j - 1) as nat);
        let c = pair_category(prs, m, i, j - 1);
        if prs[i].is_selected && !prs[j - 1].is_selected && should_warn(c, warn_on_partial) {
            init.push(
                WarningView {
                    selected_pr_id: prs[i].id,
                    selected_pr_title: prs[i].title@,
                    unselected_pr_id: prs[j - 1].id,
                    unselected_pr_title: prs[j - 1].title@,
                    category: c,
                },
            )
        } else {
            init
        }
    }
}

/// The warnings from the PRs before position `i`.
pub open spec fn warnings_upto(prs: Seq<PRInfo>, m: Map<i32, Vec<FileChange>>, warn_on_partial: bool, i: nat) -> Seq<WarningView>
    decreases i,
{
    if i == 0 {
        Seq::empty()
    } else {
        warnings_upto(prs, m, warn_on_partial, (i - 1) as nat) + warnings_row(prs, m, warn_on_partial, i - 1, (i - 1) as nat)
    }
}

/// The contents of a list of warnings (every warning the analyzer makes is
/// about an unselected dependency).
pub open spec fn warnings_view(ws: Seq<DependencyWarning>) -> Seq<WarningView> {
    ws.map_values(|w: DependencyWarning| warning_view(w)->0)
}

/// The last position before `k` holding PR `id`, or -1.
pub open spec fn last_index_of(prs: Seq<PRInfo>, id: i32, k: nat) -> int
    decreases k,
{
    if k == 0 {
        -1
    } else if prs[k - 1].id == id {
        k - 1
    } else {
        last_index_of(prs, id, (k - 1) as nat)
    }
}

/// Whether PR id `id` occurs before position `k`.
pub open spec fn has_id_before(prs: Seq<PRInfo>, id: i32, k: int) -> bool {
    exists|t: int| 0 <= t < k && #[trigger] prs[t].id == id
}

/// The targets of dependency views that are not independent.
pub open spec fn targets_v(vs: Seq<(i32, i32, CategoryView)>) -> Seq<i32>
    decreases vs.len(),
{
    if vs.len() == 0 {
        Seq::empty()
    } else {
        let init = targets_v(vs.drop_last());
        if vs.last().2 is Independent {
            init
        } else {
            init.push(vs.last().1)
        }
    }
}

proof fn lemma_dep_targets_view(ds: Seq<PRDependency>)
    ensures
        dep_targets(ds) == targets_v(deps_view(ds)),
    decreases ds.len(),
{
    if ds.len() > 0 {
        lemma_dep_targets_view(ds.drop_last());
        assert(deps_view(ds).drop_last() =~= deps_view(ds.drop_last()));
    }
}

proof fn lemma_targets_v_concat(a: Seq<(i32, i32, CategoryView)>, b: Seq<(i32, i32, CategoryView)>)
    ensures
        targets_v(a + b) == targets_v(a) + targets_v(b),
    decreases b.len(),
{
    if b.len() == 0 {
        assert(a + b =~= a);
        assert(targets_v(a) + targets_v(b) =~= targets_v(a));
    } else {
        lemma_targets_v_concat(a, b.drop_last());
        assert((a + b).drop_last() =~= a + b.drop_last());
        if b.last().2 is Independent {
        } else {
            assert(targets_v(a) + targets_v(b.drop_last()).push(b.last().1) =~= (targets_v(a) + targets_v(b.drop_last())).push(b.last().1));
        }
    }
}

proof fn lemma_row_consistent(prs: Seq<PRInfo>, m: Map<i32, Vec<FileChange>>, p: i32, d: i32, i: int, j: nat)
    ensures
        occurrences(dependents_row(prs, m, p, i, j), d) == occurrences(targets_v(deps_row(prs, m, d, i, j)), p),
    decreases j,
{
    if j > 0 {
        lemma_row_consistent(prs, m, p, d, i, (j - 1) as nat);
        let c = pair_category(prs, m, i, j - 1);
        let dr = dependents_row(prs, m, p, i, (j - 1) as nat);
        let vr = deps_row(prs, m, d, i, (j - 1) as nat);
        if prs[j - 1].id == p && !(c is Independent) {
            assert(dependents_row(prs, m, p, i, j).drop_last() =~= dr);
        }
        if prs[i].id == d && !(c is Independent) {
            let e = (prs[i].id, prs[j - 1].id, c);
            assert(vr.push(e).drop_last() =~= vr);
            assert(targets_v(vr.push(e)) == targets_v(vr).push(prs[j - 1].id));
            assert(targets_v(vr).push(prs[j - 1].id).drop_last() =~= targets_v(vr));
        }
    }
}

proof fn lemma_upto_consistent(prs: Seq<PRInfo>, m: Map<i32, Vec<FileChange>>, p: i32, d: i32, i: nat)
    ensures
        occurrences(dependents_upto(prs, m, p, i), d) == occurrences(targets_v(deps_upto(prs, m, d, i)), p),
    decreases i,
{
    if i > 0 {
        let k = (i - 1) as nat;
        lemma_upto_consistent(prs, m, p, d, k);
        lemma_row_consistent(prs, m, p, d, i - 1, k);
        lemma_occurrences_concat(dependents_upto(prs, m, p, k), dependents_row(prs, m, p, i - 1, k));
        lemma_targets_v_concat(deps_upto(prs, m, d, k), deps_row(prs, m, d, i - 1, k));
        lemma_occurrences_concat(targets_v(deps_upto(prs, m, d, k)), targets_v(deps_row(prs, m, d, i - 1, k)));
    }
}

/// A graph with a node for each PR (the last PR with a given id wins) and
/// no dependencies yet.
fn graph_of_prs(prs: &[PRInfo]) -> (graph: PRDependencyGraph)
    ensures
        graph.topological_order@.len() == 0,
        forall|id: i32| #[trigger] graph.nodes@.contains_key(id) <==> has_id_before(prs@, id, prs@.len() as int),
        forall|id: i32|
            #![trigger graph.nodes@[id]]
            graph.nodes@.contains_key(id) ==> {
                let li = last_index_of(prs@, id, prs@.len());
                &&& graph.nodes@[id].pr_id == id
                &&& graph.nodes@[id].pr_title == prs@[li].title
                &&& graph.nodes@[id].is_selected == prs@[li].is_selected
                &&& graph.nodes@[id].dependencies@.len() == 0
                &&& graph.nodes@[id].dependents@.len() == 0
            },
{
    let ghost ps = prs@;
    let mut graph = PRDependencyGraph::new();
    let mut k: usize = 0;
    while k < prs.len()
        invariant
            0 <= k <= ps.len(),
            ps == prs@,
            graph.topological_order@.len() == 0,
            forall|id: i32| #[trigger] graph.nodes@.contains_key(id) <==> has_id_before(ps, id, k as int),
            forall|id: i32|
                #![trigger graph.nodes@[id]]
                graph.nodes@.contains_key(id) ==> {
                    let li = last_index_of(ps, id, k as nat);
                    &&& graph.nodes@[id].pr_id == id
                    &&& graph.nodes@[id].pr_title == ps[li].title
                    &&& graph.nodes@[id].is_selected == ps[li].is_selected
                    &&& graph.nodes@[id].dependencies@.len() == 0
                    &&& graph.nodes@[id].dependents@.len() == 0
                },
        decreases ps.len() - k,
    {
        let node = PRDependencyNode::new(prs[k].id, prs[k].title.clone(), prs[k].is_selected);
        graph.add_node(node);
        k = k + 1;
        proof {
            assert forall|id: i32| #[trigger] graph.nodes@.contains_key(id) <==> has_id_before(ps, id, k as int) by {
                if has_id_before(ps, id, k as int) && id != ps[k - 1].id {
                    let t = choose|t: int| 0 <= t < k && #[trigger] ps[t].id == id;
                    assert(has_id_before(ps, id, k - 1));
                }
                if id == ps[k - 1].id {
                    assert(has_id_before(ps, id, k as int));
                }
                if has_id_before(ps, id, k - 1) {
                    let t = choose|t: int| 0 <= t < k - 1 && #[trigger] ps[t].id == id;
                    assert(has_id_before(ps, id, k as int));
                }
            }
        }
    }
    graph
}

/// Analyzes dependencies between pull requests from their file changes.
pub struct DependencyAnalyzer {
    config: DependencyAnalysisConfig,
}

/// What the analysis of `prs` with changes `m` yields: the nodes, their
/// dependencies and dependents, and the warnings.
pub open spec fn analysis_of(
    r: DependencyAnalysisResult,
    prs: Seq<PRInfo>,
    m: Map<i32, Vec<FileChange>>,
    warn_on_partial: bool,
) -> bool {
    let nodes = r.graph.nodes@;
    let n = prs.len();
    &&& forall|id: i32| #[trigger] nodes.contains_key(id) <==> has_id_before(prs, id, n as int)
    &&& forall|id: i32|
        #![trigger nodes[id]]
        nodes.contains_key(id) ==> {
            let li = last_index_of(prs, id, n);
            &&& nodes[id].pr_id == id
            &&& nodes[id].pr_title == prs[li].title
            &&& nodes[id].is_selected == prs[li].is_selected
            &&& deps_view(nodes[id].dependencies@) == deps_upto(prs, m, id, n)
            &&& nodes[id].dependents@ == dependents_upto(prs, m, id, n)
        }
    &&& warnings_view(r.warnings@) == warnings_upto(prs, m, warn_on_partial, n)
    &&& forall|k: int| 0 <= k < r.warnings@.len() ==> (#[trigger] r.warnings@[k]) is UnselectedDependency
}

proof fn lemma_last_index(prs: Seq<PRInfo>, id: i32, k: nat)
    ensures
        has_id_before(prs, id, k as int) ==> (0 <= last_index_of(prs, id, k) < k && prs[last_index_of(prs, id, k)].id == id),
    decreases k,
{
    if k > 0 {
        lemma_last_index(prs, id, (k - 1) as nat);
        if has_id_before(prs, id, k as int) && prs[k - 1].id != id {
            let t = choose|t: int| 0 <= t < k && #[trigger] prs[t].id == id;
            assert(t < k - 1);
            assert(has_id_before(prs, id, k - 1));
        }
    }
}

// ==================== Every PR is placed ====================

/// Whether some PR with id `y` comes before some PR with id `id`.
pub open spec fn earlier_than(prs: Seq<PRInfo>, y: i32, id: i32) -> bool {
    exists|i: int, j: int| 0 <= j < i < prs.len() && #[trigger] prs[i].id == id && #[trigger] prs[j].id == y
}

proof fn lemma_deps_row_entries(prs: Seq<PRInfo>, m: Map<i32, Vec<FileChange>>, id: i32, i: int, j: nat)
    requires
        0 <= i < prs.len(),
        j <= i,
    ensures
        forall|e: (i32, i32, CategoryView)| #[trigger] deps_row(prs, m, id, i, j).contains(e) ==> earlier_than(prs, e.1, id),
    decreases j,
{
    if j > 0 {
        let j0 = (j - 1) as nat;
        lemma_deps_row_entries(prs, m, id, i, j0);
        let init = deps_row(prs, m, id, i, j0);
        let c = pair_category(prs, m, i, j0 as int);
        assert forall|e: (i32, i32, CategoryView)| #[trigger] deps_row(prs, m, id, i, j).contains(e) implies earlier_than(prs, e.1, id) by {
            if prs[i].id == id && !(c is Independent) {
                let r = init.push((prs[i].id, prs[j0 as int].id, c));
                let k = choose|k: int| 0 <= k < r.len() && r[k] == e;
                if k < init.len() {
                    assert(init[k] == e);
                    assert(init.contains(e));
                } else {
                    assert(prs[i].id == id && prs[j0 as int].id == e.1);
                }
            }
        }
    }
}

proof fn lemma_deps_upto_entries(prs: Seq<PRInfo>, m: Map<i32, Vec<FileChange>>, id: i32, i: nat)
    requires
        i <= prs.len(),
    ensures
        forall|e: (i32, i32, CategoryView)| #[trigger] deps_upto(prs, m, id, i).contains(e) ==> earlier_than(prs, e.1, id),
    decreases i,
{
    if i > 0 {
        let k = (i - 1) as nat;
        lemma_deps_upto_entries(prs, m, id, k);
        lemma_deps_row_entries(prs, m, id, k as int, k);
        let a = deps_upto(prs, m, id, k);
        let b = deps_row(prs, m, id, k as int, k);
        assert forall|e: (i32, i32, CategoryView)| #[trigger] deps_upto(prs, m, id, i).contains(e) implies earlier_than(prs, e.1, id) by {
            let t = choose|t: int| 0 <= t < (a + b).len() && (a + b)[t] == e;
            if t < a.len() {
                assert(a[t] == e);
                assert(a.contains(e));
            } else {
                assert(b[t - a.len()] == e);
                assert(b.contains(e));
            }
        }
    }
}

proof fn lemma_pair_deps_entries(x: IndexModel, prs: Seq<PRInfo>, ps: Seq<(usize, usize)>, id: i32)
    requires
        forall|k: int| 0 <= k < ps.len() ==> (#[trigger] ps[k]).1 < ps[k].0 < prs.len(),
    ensures
        forall|e: (i32, i32, CategoryView)| #[trigger] pair_deps(x, prs, ps, id).contains(e) ==> earlier_than(prs, e.1, id),
    decreases ps.len(),
{
    if ps.len() > 0 {
        let q = ps.drop_last();
        assert forall|k: int| 0 <= k < q.len() implies (#[trigger] q[k]).1 < q[k].0 < prs.len() by {
            assert(q[k] == ps[k]);
        }
        lemma_pair_deps_entries(x, prs, q, id);
        let init = pair_deps(x, prs, q, id);
        let p = ps.last();
        assert(p == ps[ps.len() - 1]);
        let c = pair_cat(x, prs, p);
        assert forall|e: (i32, i32, CategoryView)| #[trigger] pair_deps(x, prs, ps, id).contains(e) implies earlier_than(prs, e.1, id) by {
            if prs[p.0 as int].id == id && !(c is Independent) {
                let r = init.push((prs[p.0 as int].id, prs[p.1 as int].id, c));
                let k = choose|k: int| 0 <= k < r.len() && r[k] == e;
                if k < init.len() {
                    assert(init[k] == e);
                    assert(init.contains(e));
                } else {
                    assert(prs[p.0 as int].id == id && prs[p.1 as int].id == e.1);
                }
            }
        }
    }
}

proof fn lemma_targets_v_source(vs: Seq<(i32, i32, CategoryView)>, y: i32)
    requires
        targets_v(vs).contains(y),
    ensures
        exists|k: int| 0 <= k < vs.len() && (#[trigger] vs[k]).1 == y,
    decreases vs.len(),
{
    let init = targets_v(vs.drop_last());
    if init.contains(y) {
        lemma_targets_v_source(vs.drop_last(), y);
        let k = choose|k: int| 0 <= k < vs.drop_last().len() && (#[trigger] vs.drop_last()[k]).1 == y;
        assert(vs[k] == vs.drop_last()[k]);
    } else {
        assert(vs.len() > 0);
        if vs.last().2 is Independent {
            assert(false);
        } else {
            let r = init.push(vs.last().1);
            let k = choose|k: int| 0 <= k < r.len() && r[k] == y;
            assert(k == init.len());
            assert(vs[vs.len() - 1].1 == y);
        }
    }
}

/// With distinct ids and dependencies that only point to earlier PRs, an
/// order that holds every PR whose dependencies it holds holds every PR.
proof fn lemma_all_placed(nodes: Map<i32, PRDependencyNode>, order: Seq<i32>, prs: Seq<PRInfo>)
    requires
        distinct_ids(prs),
        forall|id: i32| #[trigger] nodes.contains_key(id) <==> has_id_before(prs, id, prs.len() as int),
        order_complete(nodes, order),
        forall|id: i32, y: i32|
            nodes.contains_key(id) && #[trigger] dep_targets(nodes[id].dependencies@).contains(y) ==> earlier_than(prs, y, id),
    ensures
        forall|id: i32| #[trigger] nodes.contains_key(id) ==> order.contains(id),
{
    lemma_prefix_placed(nodes, order, prs, prs.len());
    assert forall|id: i32| #[trigger] nodes.contains_key(id) implies order.contains(id) by {
        let t = choose|t: int| 0 <= t < prs.len() && #[trigger] prs[t].id == id;
    }
}

proof fn lemma_prefix_placed(nodes: Map<i32, PRDependencyNode>, order: Seq<i32>, prs: Seq<PRInfo>, k: nat)
    requires
        k <= prs.len(),
        distinct_ids(prs),
        forall|id: i32| #[trigger] nodes.contains_key(id) <==> has_id_before(prs, id, prs.len() as int),
        order_complete(nodes, order),
        forall|id: i32, y: i32|
            nodes.contains_key(id) && #[trigger] dep_targets(nodes[id].dependencies@).contains(y) ==> earlier_than(prs, y, id),
    ensures
        forall|j: int| 0 <= j < k ==> order.contains(#[trigger] prs[j].id),
    decreases k,
{
    if k > 0 {
        let k0 = (k - 1) as nat;
        lemma_prefix_placed(nodes, order, prs, k0);
        let x = prs[k0 as int].id;
        assert(has_id_before(prs, x, prs.len() as int));
        assert(nodes.contains_key(x));
        assert forall|y: i32| #[trigger] dep_targets(nodes[x].dependencies@).contains(y) implies order.contains(y) by {
            assert(earlier_than(prs, y, x));
            let (i, j) = choose|i: int, j: int| 0 <= j < i < prs.len() && #[trigger] prs[i].id == x && #[trigger] prs[j].id == y;
            if i != k0 {
                if i < k0 {
                    assert(prs[i].id != prs[k0 as int].id);
                } else {
                    assert(prs[k0 as int].id != prs[i].id);
                }
            }
            assert(order.contains(prs[j].id));
        }
        assert(targets_placed(nodes, x, order));
        assert(order.contains(x));
    }
}

proof fn lemma_sequential_all_placed(r: DependencyAnalysisResult, prs: Seq<PRInfo>, m: Map<i32, Vec<FileChange>>, wop: bool)
    requires
        analysis_of(r, prs, m, wop),
        order_complete(r.graph.nodes@, r.graph.topological_order@),
        distinct_ids(prs),
    ensures
        forall|id: i32| #[trigger] r.graph.nodes@.contains_key(id) ==> r.graph.topological_order@.contains(id),
{
    let nodes = r.graph.nodes@;
    assert forall|id: i32, y: i32|
        nodes.contains_key(id) && #[trigger] dep_targets(nodes[id].dependencies@).contains(y) implies earlier_than(prs, y, id) by {
        let ds = nodes[id].dependencies@;
        lemma_dep_targets_view(ds);
        lemma_targets_v_source(deps_view(ds), y);
        let k = choose|k: int| 0 <= k < deps_view(ds).len() && (#[trigger] deps_view(ds)[k]).1 == y;
        lemma_deps_upto_entries(prs, m, id, prs.len());
        assert(deps_upto(prs, m, id, prs.len()).contains(deps_view(ds)[k]));
    }
    lemma_all_placed(nodes, r.graph.topological_order@, prs);
}

proof fn lemma_pairs_before_bounds(n: nat)
    requires
        n <= usize::MAX,
    ensures
        forall|k: int| 0 <= k < pairs_before(n).len() ==> (#[trigger] pairs_before(n)[k]).1 < pairs_before(n)[k].0 < n,
    decreases n,
{
    if n > 0 {
        let n0 = (n - 1) as nat;
        lemma_pairs_before_bounds(n0);
        let a = pairs_before(n0);
        let b = Seq::new(n0, |j: int| (n0 as usize, j as usize));
        assert(pairs_before(n) == a + b);
        assert forall|k: int| 0 <= k < pairs_before(n).len() implies (#[trigger] pairs_before(n)[k]).1 < pairs_before(n)[k].0 < n by {
            if k < a.len() {
                assert(pairs_before(n)[k] == a[k]);
            } else {
                assert(pairs_before(n)[k] == b[k - a.len()]);
            }
        }
    }
}

proof fn lemma_indexed_all_placed(r: DependencyAnalysisResult, prs: Seq<PRInfo>, x: IndexModel, wop: bool)
    requires
        indexed_analysis_of(r, prs, x, wop),
        order_complete(r.graph.nodes@, r.graph.topological_order@),
        distinct_ids(prs),
        prs.len() <= usize::MAX,
    ensures
        forall|id: i32| #[trigger] r.graph.nodes@.contains_key(id) ==> r.graph.topological_order@.contains(id),
{
    let nodes = r.graph.nodes@;
    let ps = pairs_before(prs.len());
    lemma_pairs_before_bounds(prs.len());
    assert forall|id: i32, y: i32|
        nodes.contains_key(id) && #[trigger] dep_targets(nodes[id].dependencies@).contains(y) implies earlier_than(prs, y, id) by {
        let ds = nodes[id].dependencies@;
        lemma_dep_targets_view(ds);
        lemma_targets_v_source(deps_view(ds), y);
        let k = choose|k: int| 0 <= k < deps_view(ds).len() && (#[trigger] deps_view(ds)[k]).1 == y;
        lemma_pair_deps_entries(x, prs, ps, id);
        assert(pair_deps(x, prs, ps, id).contains(deps_view(ds)[k]));
    }
    lemma_all_placed(nodes, r.graph.topological_order@, prs);
}

impl DependencyAnalyzer {
    /// An analyzer with the default configuration.
    pub fn new() -> (r: Self)
        ensures
            r.config() == (DependencyAnalysisConfig { warn_on_partial: true, fail_on_unselected: false }),
    {
        DependencyAnalyzer { config: DependencyAnalysisConfig::default_config() }
    }

    /// An analyzer with the given configuration.
    pub fn with_config(config: DependencyAnalysisConfig) -> (r: Self)
        ensures
            r.config() == config,
    {
        DependencyAnalyzer { config }
    }

    /// The configuration of this analyzer.
    pub closed spec fn config(&self) -> DependencyAnalysisConfig {
        self.config
    }

    /// Compares each PR with every PR before it (the order of `prs` is the
    /// chronological order), records each dependency that is not
    /// independent on both nodes, warns when a selected PR depends on an
    /// unselected one (partial dependencies only when configured), and
    /// computes the topological order.
    pub fn analyze(&self, prs: &[PRInfo], pr_changes: &HashMap<i32, Vec<FileChange>>) -> (r: DependencyAnalysisResult)
        requires
            prs@.len() < usize::MAX,
        ensures
            analysis_of(r, prs@, pr_changes@, self.config().warn_on_partial),
            order_complete(r.graph.nodes@, r.graph.topological_order@),
            largest_ready_first(r.graph.nodes@, r.graph.topological_order@),
            distinct_ids(prs@) ==> forall|id: i32| #[trigger] r.graph.nodes@.contains_key(id) ==> r.graph.topological_order@.contains(id),
            graph_consistent(r.graph.nodes@),
            r.graph.topological_order@.no_duplicates(),
            forall|k: int| 0 <= k < r.graph.topological_order@.len() ==> r.graph.nodes@.contains_key(
                #[trigger] r.graph.topological_order@[k],
            ),
            respects_dependencies(r.graph.nodes@, r.graph.topological_order@),
    {
        let ghost m = pr_changes@;
        let ghost ps = prs@;
        let mut graph = graph_of_prs(prs);
        let mut warnings: Vec<DependencyWarning> = Vec::new();
        let mut i: usize = 0;
        while i < prs.len()
            invariant
                0 <= i <= ps.len(),
                ps == prs@,
                m == pr_changes@,
                ps.len() < usize::MAX,
                graph.topological_order@.len() == 0,
                forall|id: i32| #[trigger] graph.nodes@.contains_key(id) <==> has_id_before(ps, id, ps.len() as int),
                forall|id: i32|
                    #![trigger graph.nodes@[id]]
                    graph.nodes@.contains_key(id) ==> {
                        let li = last_index_of(ps, id, ps.len());
                        &&& graph.nodes@[id].pr_id == id
                        &&& graph.nodes@[id].pr_title == ps[li].title
                        &&& graph.nodes@[id].is_selected == ps[li].is_selected
                        &&& deps_view(graph.nodes@[id].dependencies@) == deps_upto(ps, m, id, i as nat)
                        &&& graph.nodes@[id].dependents@ == dependents_upto(ps, m, id, i as nat)
                    },
                warnings_view(warnings@) == warnings_upto(ps, m, self.config.warn_on_partial, i as nat),
                forall|t: int| 0 <= t < warnings@.len() ==> (#[trigger] warnings@[t]) is UnselectedDependency,
            decreases ps.len() - i,
        {
            let pr = &prs[i];
            let current = pr_changes.get(&pr.id);
            let ghost cur_v = match current { Some(c) => Some(c@), None => None };
            proof {
                assert(cur_v == changes_of(m, ps[i as int].id));
            }
            let mut j: usize = 0;
            while j < i
                invariant
                    0 <= j <= i < ps.len(),
                    ps == prs@,
                    m == pr_changes@,
                    pr == ps[i as int],
                    cur_v == changes_of(m, ps[i as int].id),
                    cur_v == match current { Some(c) => Some(c@), None => None },
                    graph.topological_order@.len() == 0,
                    forall|id: i32| #[trigger] graph.nodes@.contains_key(id) <==> has_id_before(ps, id, ps.len() as int),
                    forall|id: i32|
                        #![trigger graph.nodes@[id]]
                        graph.nodes@.contains_key(id) ==> {
                            let li = last_index_of(ps, id, ps.len());
                            &&& graph.nodes@[id].pr_id == id
                            &&& graph.nodes@[id].pr_title == ps[li].title
                            &&& graph.nodes@[id].is_selected == ps[li].is_selected
                            &&& deps_view(graph.nodes@[id].dependencies@) == deps_upto(ps, m, id, i as nat) + deps_row(ps, m, id, i as int, j as nat)
                            &&& graph.nodes@[id].dependents@ == dependents_upto(ps, m, id, i as nat) + dependents_row(ps, m, id, i as int, j as nat)
                        },
                    warnings_view(warnings@) == warnings_upto(ps, m, self.config.warn_on_partial, i as nat)
                        + warnings_row(ps, m, self.config.warn_on_partial, i as int, j as nat),
                    forall|t: int| 0 <= t < warnings@.len() ==> (#[trigger] warnings@[t]) is UnselectedDependency,
                decreases i - j,
            {
                let prev_pr = &prs[j];
                let previous = pr_changes.get(&prev_pr.id);
                let category = categorize_dependency(current, previous);
                let ghost c = pair_category(ps, m, i as int, j as int);
                proof {
                    assert(category@ == c);
                    assert(has_id_before(ps, ps[i as int].id, ps.len() as int));
                    assert(has_id_before(ps, ps[j as int].id, ps.len() as int));
                }
                if !category.is_independent() {
                    let dep = PRDependency { from_pr_id: pr.id, to_pr_id: prev_pr.id, category: category.duplicate() };
                    let mut node = self_take_node(&mut graph, pr.id);
                    let ghost old_deps = node.dependencies@;
                    node.dependencies.push(dep);
                    proof {
                        assert(deps_view(node.dependencies@) =~= deps_view(old_deps).push((pr.id, prev_pr.id, c)));
                    }
                    graph.nodes.insert(pr.id, node);
                    let mut prev_node = self_take_node(&mut graph, prev_pr.id);
                    prev_node.dependents.push(pr.id);
                    graph.nodes.insert(prev_pr.id, prev_node);
                    if pr.is_selected && !prev_pr.is_selected {
                        let warn = match &category {
                            DependencyCategory::Dependent { .. } => true,
                            DependencyCategory::PartiallyDependent { .. } => self.config.warn_on_partial,
                            DependencyCategory::Independent => false,
                        };
                        if warn {
                            let ghost old_w = warnings@;
                            let w = DependencyWarning::UnselectedDependency {
                                selected_pr_id: pr.id,
                                selected_pr_title: pr.title.clone(),
                                unselected_pr_id: prev_pr.id,
                                unselected_pr_title: prev_pr.title.clone(),
                                category,
                            };
                            warnings.push(w);
                            proof {
                                assert(warnings_view(warnings@) =~= warnings_view(old_w).push(warning_view(w)->0));
                            }
                        }
                    }
                }
                j = j + 1;
                proof {
                    let wop = self.config.warn_on_partial;
                    assert(warnings_row(ps, m, wop, i as int, j as nat) == {
                        let init = warnings_row(ps, m, wop, i as int, (j - 1) as nat);
                        if ps[i as int].is_selected && !ps[j - 1].is_selected && should_warn(c, wop) {
                            init.push(WarningView {
                                selected_pr_id: ps[i as int].id,
                                selected_pr_title: ps[i as int].title@,
                                unselected_pr_id: ps[j - 1].id,
                                unselected_pr_title: ps[j - 1].title@,
                                category: c,
                            })
                        } else {
                            init
                        }
                    });
                    assert forall|t: int| 0 <= t < warnings@.len() implies (#[trigger] warnings@[t]) is UnselectedDependency by {}
                }
            }
            i = i + 1;
        }
        proof {
            assert forall|p: i32, d: i32|
                #![trigger occurrences(graph.nodes@[p].dependents@, d)]
                #![trigger occurrences(dep_targets(graph.nodes@[d].dependencies@), p)]
                graph.nodes@.contains_key(p) && graph.nodes@.contains_key(d) implies occurrences(graph.nodes@[p].dependents@, d)
                    == occurrences(dep_targets(graph.nodes@[d].dependencies@), p) by {
                lemma_upto_consistent(ps, m, p, d, ps.len());
                lemma_dep_targets_view(graph.nodes@[d].dependencies@);
            }
        }
        graph.compute_topological_order();
        let r = DependencyAnalysisResult { graph, warnings };
        proof {
            if distinct_ids(ps) {
                lemma_sequential_all_placed(r, ps, m, self.config.warn_on_partial);
            }
        }
        r
    }
}

/// Removes the node of `id` from the graph; the node must be present.
fn self_take_node(graph: &mut PRDependencyGraph, id: i32) -> (r: PRDependencyNode)
    requires
        old(graph).nodes@.contains_key(id),
    ensures
        r == old(graph).nodes@[id],
        final(graph).nodes@ == old(graph).nodes@.remove(id),
        final(graph).topological_order == old(graph).topological_order,
{
    graph.nodes.remove(&id).unwrap()
}

impl Default for DependencyAnalyzer {
    fn default() -> (r: Self)
        ensures
            r.config() == (DependencyAnalysisConfig { warn_on_partial: true, fail_on_unselected: false }),
    {
        DependencyAnalyzer::new()
    }
}

// ==================== Messages ====================

/// `max - 3`, or 0 when `max < 3`.
pub open spec fn less_three(max: nat) -> int {
    if max >= 3 { max - 3 } else { 0 }
}

/// A title cut to at most `max` bytes: unchanged when it fits, otherwise
/// its first `max - 3` bytes followed by `...`.
pub open spec fn truncated_title(t: Seq<char>, max: nat) -> Seq<char> {
    let b = encode_utf8(t);
    if b.len() <= max {
        t
    } else {
        decode_utf8(b.subrange(0, less_three(max))) + "..."@
    }
}

/// Whether cutting `t` to `max` bytes falls on a character boundary (the
/// cut is only made when the title is longer than `max`).
pub open spec fn can_truncate(t: Seq<char>, max: nat) -> bool {
    &&& encode_utf8(t).len() <= usize::MAX
    &&& encode_utf8(t).len() > max ==> is_char_boundary(encode_utf8(t), less_three(max))
}

/// Truncates a title for display, appending `...` when it is cut.
pub fn truncate_title(title: &str, max_len: usize) -> (r: String)
    requires
        can_truncate(title@, max_len as nat),
    ensures
        r@ == truncated_title(title@, max_len as nat),
{
    if title.len() <= max_len {
        return title.to_owned();
    }
    let k: usize = if max_len >= 3 { max_len - 3 } else { 0 };
    let (head, _tail) = title.split_at(k);
    proof {
        reveal_strlit("...");
        encode_utf8_decode_utf8(head@);
        assert(head.spec_bytes() == encode_utf8(head@));
    }
    concat2(head, "...")
}

/// The debug rendering of a list of PR ids: `[1, 2, 3]`.
pub open spec fn id_list_text(ids: Seq<i32>) -> Seq<char> {
    "["@ + join_with(ids.map_values(|x: i32| decimal_int(x as int)), ", "@) + "]"@
}

/// The words naming a category in a warning message.
pub open spec fn category_words(c: CategoryView) -> Seq<char> {
    match c {
        CategoryView::Independent => "independent of"@,
        CategoryView::PartiallyDependent(_) => "partially depends on"@,
        CategoryView::Dependent(_, _) => "depends on"@,
    }
}

/// The message of a warning.
pub open spec fn warning_message(w: DependencyWarning) -> Seq<char> {
    match w {
        DependencyWarning::UnselectedDependency {
            selected_pr_id,
            selected_pr_title,
            unselected_pr_id,
            unselected_pr_title,
            category,
        } => "PR #"@ + decimal_int(selected_pr_id as int) + " ("@ + truncated_title(selected_pr_title@, 30)
            + ") "@ + category_words(category@) + " unselected PR #"@ + decimal_int(unselected_pr_id as int)
            + " ("@ + truncated_title(unselected_pr_title@, 30) + ")"@,
        DependencyWarning::CircularDependency { cycle } => "Circular dependency detected: "@ + id_list_text(cycle@),
    }
}

/// Whether the titles of a warning can be cut for display.
pub open spec fn message_renderable(w: DependencyWarning) -> bool {
    match w {
        DependencyWarning::UnselectedDependency { selected_pr_title, unselected_pr_title, .. } =>
            can_truncate(selected_pr_title@, 30) && can_truncate(unselected_pr_title@, 30),
        DependencyWarning::CircularDependency { .. } => true,
    }
}

fn id_list(ids: &Vec<i32>) -> (r: String)
    ensures
        r@ == id_list_text(ids@),
{
    let mut parts: Vec<String> = Vec::new();
    let mut i: usize = 0;
    while i < ids.len()
        invariant
            0 <= i <= ids@.len(),
            parts@.len() == i,
            crate::text::string_views(parts@) == ids@.subrange(0, i as int).map_values(|x: i32| decimal_int(x as int)),
        decreases ids@.len() - i,
    {
        let ghost before = parts@;
        let t = i32_to_decimal(ids[i]);
        parts.push(t);
        proof {
            let pre = ids@.subrange(0, i as int);
            assert(ids@.subrange(0, i as int + 1) =~= pre.push(ids@[i as int]));
            assert(crate::text::string_views(before.push(t)) =~= crate::text::string_views(before).push(t@));
            assert(pre.push(ids@[i as int]).map_values(|x: i32| decimal_int(x as int)) =~= pre.map_values(|x: i32| decimal_int(x as int)).push(decimal_int(ids@[i as int] as int)));
        }
        i = i + 1;
    }
    proof {
        assert(ids@.subrange(0, ids@.len() as int) =~= ids@);
    }
    let joined = crate::text::join_strings(&parts, ", ");
    let mut s = "[".to_owned();
    s.append(joined.as_str());
    s.append("]");
    s
}

impl DependencyWarning {
    /// A human-readable message for this warning.
    pub fn message(&self) -> (r: String)
        requires
            message_renderable(*self),
        ensures
            r@ == warning_message(*self),
    {
        match self {
            DependencyWarning::UnselectedDependency {
                selected_pr_id,
                selected_pr_title,
                unselected_pr_id,
                unselected_pr_title,
                category,
            } => {
                let words = match category {
                    DependencyCategory::Independent => "independent of",
                    DependencyCategory::PartiallyDependent { .. } => "partially depends on",
                    DependencyCategory::Dependent { .. } => "depends on",
                };
                let mut s = "PR #".to_owned();
                s.append(i32_to_decimal(*selected_pr_id).as_str());
                s.append(" (");
                s.append(truncate_title(selected_pr_title.as_str(), 30).as_str());
                s.append(") ");
                s.append(words);
                s.append(" unselected PR #");
                s.append(i32_to_decimal(*unselected_pr_id).as_str());
                s.append(" (");
                s.append(truncate_title(unselected_pr_title.as_str(), 30).as_str());
                s.append(")");
                s
            },
            DependencyWarning::CircularDependency { cycle } => {
                let mut s = "Circular dependency detected: ".to_owned();
                s.append(id_list(cycle).as_str());
                s
            },
        }
    }
}

/// Summary statistics of a dependency graph.
#[derive(Debug, Clone, Copy, PartialEq, Eq, Structural)]
pub struct GraphSummary {
    pub total_prs: usize,
    pub selected_prs: usize,
    pub independent_relationships: usize,
    pub partial_relationships: usize,
    pub dependent_relationships: usize,
}

/// The sum over `ids` of the dependencies of kind `kind` of their nodes.
pub open spec fn kind_total(nodes: Map<i32, PRDependencyNode>, ids: Seq<i32>, kind: int) -> nat
    decreases ids.len(),
{
    if ids.len() == 0 {
        0
    } else {
        kind_total(nodes, ids.drop_last(), kind) + count_kind(deps_view(nodes[ids.last()].dependencies@), kind)
    }
}

/// The number of selected nodes among `ids`.
pub open spec fn selected_total(nodes: Map<i32, PRDependencyNode>, ids: Seq<i32>) -> nat
    decreases ids.len(),
{
    if ids.len() == 0 {
        0
    } else {
        selected_total(nodes, ids.drop_last()) + if nodes[ids.last()].is_selected { 1nat } else { 0nat }
    }
}

/// Whether the totals over the nodes fit in machine integers.
pub open spec fn summary_fits(nodes: Map<i32, PRDependencyNode>) -> bool {
    forall|ids: Seq<i32>| #![trigger ids.to_set()] ids.no_duplicates() && ids.to_set() == nodes.dom() ==> {
        &&& kind_total(nodes, ids, 0) <= usize::MAX
        &&& kind_total(nodes, ids, 1) <= usize::MAX
        &&& kind_total(nodes, ids, 2) <= usize::MAX
    }
}

proof fn lemma_selected_le(nodes: Map<i32, PRDependencyNode>, ids: Seq<i32>)
    ensures
        selected_total(nodes, ids) <= ids.len(),
    decreases ids.len(),
{
    if ids.len() > 0 {
        lemma_selected_le(nodes, ids.drop_last());
    }
}

proof fn lemma_kind_total_mono(nodes: Map<i32, PRDependencyNode>, ids: Seq<i32>, k: int, kind: int)
    requires
        0 <= k <= ids.len(),
    ensures
        kind_total(nodes, ids.subrange(0, k), kind) <= kind_total(nodes, ids, kind),
    decreases ids.len() - k,
{
    if k < ids.len() {
        lemma_kind_total_mono(nodes, ids, k + 1, kind);
        assert(ids.subrange(0, k + 1).drop_last() =~= ids.subrange(0, k));
    } else {
        assert(ids.subrange(0, k) =~= ids);
    }
}

impl PRDependencyGraph {
    /// Summary statistics: the number of PRs and of selected PRs, and the
    /// number of dependencies of each category over all nodes.
    pub fn summary(&self) -> (r: GraphSummary)
        requires
            summary_fits(self.nodes@),
        ensures
            r.total_prs == self.nodes@.dom().len(),
            exists|ids: Seq<i32>| ids.no_duplicates() && ids.to_set() == self.nodes@.dom() && {
                &&& r.selected_prs == selected_total(self.nodes@, ids)
                &&& r.independent_relationships == kind_total(self.nodes@, ids, 0)
                &&& r.partial_relationships == kind_total(self.nodes@, ids, 1)
                &&& r.dependent_relationships == kind_total(self.nodes@, ids, 2)
            },
    {
        let ids = node_ids(&self.nodes);
        let ghost nodes = self.nodes@;
        proof {
            assert(ids@.to_set() == nodes.dom());
        }
        let mut selected: usize = 0;
        let mut ind: usize = 0;
        let mut part: usize = 0;
        let mut dep: usize = 0;
        let mut i: usize = 0;
        while i < ids.len()
            invariant
                0 <= i <= ids@.len(),
                nodes == self.nodes@,
                ids@.no_duplicates(),
                ids@.to_set() == nodes.dom(),
                summary_fits(nodes),
                selected == selected_total(nodes, ids@.subrange(0, i as int)),
                ind == kind_total(nodes, ids@.subrange(0, i as int), 0),
                part == kind_total(nodes, ids@.subrange(0, i as int), 1),
                dep == kind_total(nodes, ids@.subrange(0, i as int), 2),
                selected <= i,
            decreases ids@.len() - i,
        {
            let id = ids[i];
            proof {
                assert(ids@.to_set().contains(id)) by { assert(ids@[i as int] == id); }
                assert(ids@.subrange(0, i as int + 1).drop_last() =~= ids@.subrange(0, i as int));
                lemma_kind_total_mono(nodes, ids@, i as int + 1, 0);
                lemma_kind_total_mono(nodes, ids@, i as int + 1, 1);
                lemma_kind_total_mono(nodes, ids@, i as int + 1, 2);
            }
            let node = self.nodes.get(&id).unwrap();
            let counts = node.dependency_counts();
            if node.is_selected {
                selected = selected + 1;
            }
            ind = ind + counts.independent;
            part = part + counts.partial;
            dep = dep + counts.dependent;
            i = i + 1;
        }
        proof {
            assert(ids@.subrange(0, ids@.len() as int) =~= ids@);
            ids@.unique_seq_to_set();
        }
        GraphSummary {
            total_prs: self.nodes.len(),
            selected_prs: selected,
            independent_relationships: ind,
            partial_relationships: part,
            dependent_relationships: dep,
        }
    }
}

// ==================== Parallel analysis ====================

/// Every pair `(i, j)` with `j < i < n`, by `i` and then by `j`.
pub open spec fn pairs_before(n: nat) -> Seq<(usize, usize)>
    decreases n,
{
    if n == 0 {
        Seq::empty()
    } else {
        pairs_before((n - 1) as nat) + Seq::new((n - 1) as nat, |b: int| ((n - 1) as usize, b as usize))
    }
}

/// The category of the pair `p` of positions in `prs`, through the index.
pub open spec fn pair_cat(x: IndexModel, prs: Seq<PRInfo>, p: (usize, usize)) -> CategoryView {
    indexed_category(x, prs[p.0 as int].id, prs[p.1 as int].id)
}

/// What comparing the pair `p` yields: nothing when independent, else the
/// two PR ids and the category.
pub open spec fn pair_result(
    x: IndexModel,
    prs: Seq<PRInfo>,
    p: (usize, usize),
    r: Option<(i32, i32, DependencyCategory)>,
) -> bool {
    let c = pair_cat(x, prs, p);
    match r {
        None => c is Independent,
        Some(t) => t.0 == prs[p.0 as int].id && t.1 == prs[p.1 as int].id && t.2@ == c && !(c is Independent),
    }
}

/// The first position of PR id `id`.
pub open spec fn first_index(prs: Seq<PRInfo>, id: i32) -> int {
    choose|t: int| 0 <= t < prs.len() && prs[t].id == id && forall|u: int| 0 <= u < t ==> prs[u].id != id
}

/// The dependencies that node `id` records from the pairs `ps`.
pub open spec fn pair_deps(x: IndexModel, prs: Seq<PRInfo>, ps: Seq<(usize, usize)>, id: i32) -> Seq<(i32, i32, CategoryView)>
    decreases ps.len(),
{
    if ps.len() == 0 {
        Seq::empty()
    } else {
        let init = pair_deps(x, prs, ps.drop_last(), id);
        let p = ps.last();
        let c = pair_cat(x, prs, p);
        if prs[p.0 as int].id == id && !(c is Independent) {
            init.push((prs[p.0 as int].id, prs[p.1 as int].id, c))
        } else {
            init
        }
    }
}

/// The dependents that node `id` records from the pairs `ps`.
pub open spec fn pair_dependents(x: IndexModel, prs: Seq<PRInfo>, ps: Seq<(usize, usize)>, id: i32) -> Seq<i32>
    decreases ps.len(),
{
    if ps.len() == 0 {
        Seq::empty()
    } else {
        let init = pair_dependents(x, prs, ps.drop_last(), id);
        let p = ps.last();
        let c = pair_cat(x, prs, p);
        if prs[p.1 as int].id == id && !(c is Independent) {
            init.push(prs[p.0 as int].id)
        } else {
            init
        }
    }
}

/// The warnings from the pairs `ps`; selection and titles are those of the
/// first PR with each id.
pub open spec fn pair_warnings(x: IndexModel, prs: Seq<PRInfo>, ps: Seq<(usize, usize)>, warn_on_partial: bool) -> Seq<WarningView>
    decreases ps.len(),
{
    if ps.len() == 0 {
        Seq::empty()
    } else {
        let init = pair_warnings(x, prs, ps.drop_last(), warn_on_partial);
        let p = ps.last();
        let c = pair_cat(x, prs, p);
        let a = first_index(prs, prs[p.0 as int].id);
        let b = first_index(prs, prs[p.1 as int].id);
        if prs[a].is_selected && !prs[b].is_selected && should_warn(c, warn_on_partial) {
            init.push(
                WarningView {
                    selected_pr_id: prs[p.0 as int].id,
                    selected_pr_title: prs[a].title@,
                    unselected_pr_id: prs[p.1 as int].id,
                    unselected_pr_title: prs[b].title@,
                    category: c,
                },
            )
        } else {
            init
        }
    }
}

/// What the analysis of `prs` through the index `x` yields: the nodes,
/// their dependencies and dependents over all pairs, and the warnings.
pub open spec fn indexed_analysis_of(r: DependencyAnalysisResult, prs: Seq<PRInfo>, x: IndexModel, warn_on_partial: bool) -> bool {
    let nodes = r.graph.nodes@;
    let n = prs.len();
    let ps = pairs_before(n);
    &&& forall|id: i32| #[trigger] nodes.contains_key(id) <==> has_id_before(prs, id, n as int)
    &&& forall|id: i32|
        #![trigger nodes[id]]
        nodes.contains_key(id) ==> {
            let li = last_index_of(prs, id, n);
            &&& nodes[id].pr_id == id
            &&& nodes[id].pr_title == prs[li].title
            &&& nodes[id].is_selected == prs[li].is_selected
            &&& deps_view(nodes[id].dependencies@) == pair_deps(x, prs, ps, id)
            &&& nodes[id].dependents@ == pair_dependents(x, prs, ps, id)
        }
    &&& warnings_view(r.warnings@) == pair_warnings(x, prs, ps, warn_on_partial)
    &&& forall|k: int| 0 <= k < r.warnings@.len() ==> (#[trigger] r.warnings@[k]) is UnselectedDependency
}

proof fn lemma_pair_consistent(x: IndexModel, prs: Seq<PRInfo>, ps: Seq<(usize, usize)>, p: i32, d: i32)
    ensures
        occurrences(pair_dependents(x, prs, ps, p), d) == occurrences(targets_v(pair_deps(x, prs, ps, d)), p),
    decreases ps.len(),
{
    if ps.len() > 0 {
        let q = ps.drop_last();
        lemma_pair_consistent(x, prs, q, p, d);
        let e = ps.last();
        let c = pair_cat(x, prs, e);
        let dr = pair_dependents(x, prs, q, p);
        let vr = pair_deps(x, prs, q, d);
        if prs[e.1 as int].id == p && !(c is Independent) {
            assert(dr.push(prs[e.0 as int].id).drop_last() =~= dr);
        }
        if prs[e.0 as int].id == d && !(c is Independent) {
            let t = (prs[e.0 as int].id, prs[e.1 as int].id, c);
            assert(vr.push(t).drop_last() =~= vr);
            assert(targets_v(vr.push(t)) == targets_v(vr).push(prs[e.1 as int].id));
            assert(targets_v(vr).push(prs[e.1 as int].id).drop_last() =~= targets_v(vr));
        }
    }
}

/// All pairs `(i, j)` with `j < i < n`, by `i` and then by `j`.
fn all_pairs(n: usize) -> (r: Vec<(usize, usize)>)
    ensures
        r@ == pairs_before(n as nat),
        forall|k: int| 0 <= k < r@.len() ==> (#[trigger] r@[k]).1 < r@[k].0 < n,
{
    let mut pairs: Vec<(usize, usize)> = Vec::new();
    let mut i: usize = 0;
    while i < n
        invariant
            0 <= i <= n,
            pairs@ == pairs_before(i as nat),
            forall|k: int| 0 <= k < pairs@.len() ==> (#[trigger] pairs@[k]).1 < pairs@[k].0 < i,
        decreases n - i,
    {
        let ghost base = pairs@;
        let mut j: usize = 0;
        while j < i
            invariant
                0 <= j <= i < n,
                base == pairs_before(i as nat),
                pairs@ == base + Seq::new(j as nat, |b: int| (i, b as usize)),
                forall|k: int| 0 <= k < pairs@.len() ==> (#[trigger] pairs@[k]).1 < pairs@[k].0 <= i,
                forall|k: int| 0 <= k < pairs@.len() ==> (#[trigger] pairs@[k]).1 < pairs@[k].0 && (pairs@[k].0 < i || pairs@[k].1 < j),
            decreases i - j,
        {
            pairs.push((i, j));
            j = j + 1;
            proof {
                assert(pairs@ =~= base + Seq::new(j as nat, |b: int| (i, b as usize)));
            }
        }
        i = i + 1;
        proof {
            assert(pairs@ =~= pairs_before(i as nat));
        }
    }
    pairs
}

/// Compares the PRs at positions `i` and `j` through the index.
pub fn compare_pair(index: &PRBitmapIndex, prs: &[PRInfo], i: usize, j: usize) -> (r: Option<(i32, i32, DependencyCategory)>)
    requires
        i < prs@.len(),
        j < prs@.len(),
    ensures
        pair_result(index.model(), prs@, (i, j), r),
{
    let category = index.compare(prs[i].id, prs[j].id);
    if category.is_independent() {
        None
    } else {
        Some((prs[i].id, prs[j].id, category))
    }
}

/// `par_iter` (rayon) over the pairs, each mapped by `compare_pair`,
/// collected into a vector (which keeps the order of the pairs): entry `k`
/// is what `compare_pair` returns for pair `k`.
#[verifier::external_body]
fn par_compare_pairs(index: &PRBitmapIndex, prs: &[PRInfo], pairs: &Vec<(usize, usize)>) -> (r: Vec<
    Option<(i32, i32, DependencyCategory)>,
>)
    requires
        forall|k: int| 0 <= k < pairs@.len() ==> (#[trigger] pairs@[k]).0 < prs@.len() && pairs@[k].1 < prs@.len(),
    ensures
        r@.len() == pairs@.len(),
        forall|k: int| 0 <= k < pairs@.len() ==> pair_result(index.model(), prs@, pairs@[k], #[trigger] r@[k]),
{
    pairs.par_iter().map(|&(i, j)| compare_pair(index, prs, i, j)).collect()
}

/// The first position of PR id `id`, which occurs in `prs`.
fn first_position(prs: &[PRInfo], id: i32) -> (r: usize)
    requires
        exists|t: int| 0 <= t < prs@.len() && prs@[t].id == id,
    ensures
        r == first_index(prs@, id),
        r < prs@.len(),
        prs@[r as int].id == id,
{
    let mut i: usize = 0;
    while i < prs.len()
        invariant
            0 <= i <= prs@.len(),
            forall|u: int| 0 <= u < i ==> prs@[u].id != id,
            exists|t: int| 0 <= t < prs@.len() && prs@[t].id == id,
        decreases prs@.len() - i,
    {
        if prs[i].id == id {
            proof {
                let f = first_index(prs@, id);
                assert(0 <= i < prs@.len() && prs@[i as int].id == id && forall|u: int| 0 <= u < i ==> prs@[u].id != id);
                assert(0 <= f < prs@.len() && prs@[f].id == id && forall|u: int| 0 <= u < f ==> prs@[u].id != id);
                if f < i {
                    assert(prs@[f].id != id);
                }
                if i < f {
                    assert(prs@[i as int].id != id);
                }
            }
            return i;
        }
        i = i + 1;
    }
    proof {
        let t = choose|t: int| 0 <= t < prs@.len() && prs@[t].id == id;
        assert(prs@[t].id != id);
    }
    0
}

impl DependencyAnalyzer {
    /// Analyzes the PRs through a bitmap index of their changes: every pair
    /// of a PR and an earlier PR is compared in parallel, then each
    /// dependency that is not independent is recorded on both nodes, in the
    /// order of the pairs, and the topological order is computed.
    #[verifier::rlimit(100)]
    #[verifier::spinoff_prover]
    pub fn analyze_with_index(&self, prs: &[PRInfo], index: &PRBitmapIndex) -> (r: DependencyAnalysisResult)
        ensures
            indexed_analysis_of(r, prs@, index.model(), self.config().warn_on_partial),
            order_complete(r.graph.nodes@, r.graph.topological_order@),
            largest_ready_first(r.graph.nodes@, r.graph.topological_order@),
            distinct_ids(prs@) ==> forall|id: i32| #[trigger] r.graph.nodes@.contains_key(id) ==> r.graph.topological_order@.contains(id),
            graph_consistent(r.graph.nodes@),
            r.graph.topological_order@.no_duplicates(),
            forall|k: int| 0 <= k < r.graph.topological_order@.len() ==> r.graph.nodes@.contains_key(
                #[trigger] r.graph.topological_order@[k],
            ),
            respects_dependencies(r.graph.nodes@, r.graph.topological_order@),
    {
        let ghost ps = prs@;
        let ghost x = index.model();
        let ghost wop = self.config.warn_on_partial;
        let mut graph = graph_of_prs(prs);
        let pairs = all_pairs(prs.len());
        let results = par_compare_pairs(index, prs, &pairs);
        let mut warnings: Vec<DependencyWarning> = Vec::new();
        proof {
            assert(pairs@.take(0) =~= Seq::<(usize, usize)>::empty());
            assert(warnings_view(warnings@) =~= Seq::<WarningView>::empty());
            assert forall|id: i32| #[trigger] graph.nodes@.contains_key(id) implies deps_view(graph.nodes@[id].dependencies@)
                =~= pair_deps(x, ps, pairs@.take(0), id) && graph.nodes@[id].dependents@ =~= pair_dependents(
                x,
                ps,
                pairs@.take(0),
                id,
            ) by {}
        }
        let mut k: usize = 0;
        while k < results.len()
            invariant
                0 <= k <= results@.len(),
                results@.len() == pairs@.len(),
                ps == prs@,
                x == index.model(),
                wop == self.config.warn_on_partial,
                pairs@ == pairs_before(ps.len()),
                forall|t: int| 0 <= t < pairs@.len() ==> (#[trigger] pairs@[t]).1 < pairs@[t].0 < ps.len(),
                forall|t: int| 0 <= t < pairs@.len() ==> pair_result(x, ps, pairs@[t], #[trigger] results@[t]),
                graph.topological_order@.len() == 0,
                forall|id: i32| #[trigger] graph.nodes@.contains_key(id) <==> has_id_before(ps, id, ps.len() as int),
                forall|id: i32|
                    #![trigger graph.nodes@[id]]
                    graph.nodes@.contains_key(id) ==> {
                        let li = last_index_of(ps, id, ps.len());
                        &&& graph.nodes@[id].pr_id == id
                        &&& graph.nodes@[id].pr_title == ps[li].title
                        &&& graph.nodes@[id].is_selected == ps[li].is_selected
                        &&& deps_view(graph.nodes@[id].dependencies@) == pair_deps(x, ps, pairs@.take(k as int), id)
                        &&& graph.nodes@[id].dependents@ == pair_dependents(x, ps, pairs@.take(k as int), id)
                    },
                warnings_view(warnings@) == pair_warnings(x, ps, pairs@.take(k as int), wop),
                forall|t: int| 0 <= t < warnings@.len() ==> (#[trigger] warnings@[t]) is UnselectedDependency,
            decreases results@.len() - k,
        {
            let ghost p = pairs@[k as int];
            let ghost c = pair_cat(x, ps, p);
            let ghost t1 = pairs@.take(k + 1);
            proof {
                assert(t1.drop_last() =~= pairs@.take(k as int));
                assert(t1.last() == p);
                assert(pair_result(x, ps, p, results@[k as int]));
            }
            match &results[k] {
                Some((from_id, to_id, category)) => {
                    let from_id = *from_id;
                    let to_id = *to_id;
                    proof {
                        assert(ps[p.0 as int].id == from_id);
                        assert(ps[p.1 as int].id == to_id);
                        assert(has_id_before(ps, from_id, ps.len() as int));
                        assert(has_id_before(ps, to_id, ps.len() as int));
                    }
                    let a = first_position(prs, from_id);
                    let b = first_position(prs, to_id);
                    let dep = PRDependency { from_pr_id: from_id, to_pr_id: to_id, category: category.duplicate() };
                    let mut node = self_take_node(&mut graph, from_id);
                    let ghost old_deps = node.dependencies@;
                    node.dependencies.push(dep);
                    proof {
                        assert(deps_view(node.dependencies@) =~= deps_view(old_deps).push((from_id, to_id, c)));
                    }
                    graph.nodes.insert(from_id, node);
                    let mut prev_node = self_take_node(&mut graph, to_id);
                    prev_node.dependents.push(from_id);
                    graph.nodes.insert(to_id, prev_node);
                    if prs[a].is_selected && !prs[b].is_selected {
                        let warn = match category {
                            DependencyCategory::Dependent { .. } => true,
                            DependencyCategory::PartiallyDependent { .. } => self.config.warn_on_partial,
                            DependencyCategory::Independent => false,
                        };
                        if warn {
                            let ghost old_w = warnings@;
                            let w = DependencyWarning::UnselectedDependency {
                                selected_pr_id: from_id,
                                selected_pr_title: prs[a].title.clone(),
                                unselected_pr_id: to_id,
                                unselected_pr_title: prs[b].title.clone(),
                                category: category.duplicate(),
                            };
                            warnings.push(w);
                            proof {
                                assert(warnings_view(warnings@) =~= warnings_view(old_w).push(warning_view(w)->0));
                            }
                        }
                    }
                },
                None => {},
            }
            k = k + 1;
            proof {
                assert forall|t: int| 0 <= t < warnings@.len() implies (#[trigger] warnings@[t]) is UnselectedDependency by {}
            }
        }
        proof {
            assert(pairs@.take(pairs@.len() as int) =~= pairs@);
            assert forall|p: i32, d: i32|
                #![trigger occurrences(graph.nodes@[p].dependents@, d)]
                #![trigger occurrences(dep_targets(graph.nodes@[d].dependencies@), p)]
                graph.nodes@.contains_key(p) && graph.nodes@.contains_key(d) implies occurrences(graph.nodes@[p].dependents@, d)
                    == occurrences(dep_targets(graph.nodes@[d].dependencies@), p) by {
                lemma_pair_consistent(x, ps, pairs@, p, d);
                lemma_dep_targets_view(graph.nodes@[d].dependencies@);
            }
        }
        graph.compute_topological_order();
        let r = DependencyAnalysisResult { graph, warnings };
        proof {
            if distinct_ids(ps) {
                lemma_indexed_all_placed(r, ps, x, wop);
            }
        }
        r
    }

    /// Analyzes dependencies with the bitmap index built from the changes
    /// (file ids follow the order in which the map is walked, which orders
    /// the shared files of each dependency) and parallel comparison of the
    /// pairs.
    pub fn analyze_parallel(&self, prs: &[PRInfo], pr_changes: &HashMap<i32, Vec<FileChange>>) -> (r: DependencyAnalysisResult)
        requires
            names_in(pr_changes@).len() <= u32::MAX,
        ensures
            exists|x: IndexModel|
                built_from(x, pr_changes@) && model_wf(x) && indexed_analysis_of(
                    r,
                    prs@,
                    x,
                    self.config().warn_on_partial,
                ),
            order_complete(r.graph.nodes@, r.graph.topological_order@),
            largest_ready_first(r.graph.nodes@, r.graph.topological_order@),
            distinct_ids(prs@) ==> forall|id: i32| #[trigger] r.graph.nodes@.contains_key(id) ==> r.graph.topological_order@.contains(id),
            graph_consistent(r.graph.nodes@),
            r.graph.topological_order@.no_duplicates(),
            forall|k: int| 0 <= k < r.graph.topological_order@.len() ==> r.graph.nodes@.contains_key(
                #[trigger] r.graph.topological_order@[k],
            ),
            respects_dependencies(r.graph.nodes@, r.graph.topological_order@),
    {
        let index = PRBitmapIndex::build(pr_changes);
        let r = self.analyze_with_index(prs, &index);
        proof {
            let x = index.model();
            assert(built_from(x, pr_changes@) && model_wf(x) && indexed_analysis_of(r, prs@, x, self.config().warn_on_partial));
        }
        r
    }
}

// ==================== Agreement of the two analyses ====================

/// Whether the changes are plain: no renames, each file changed once per
/// PR, and no empty line range.
pub open spec fn simple_changes(m: Map<i32, Vec<FileChange>>) -> bool {
    forall|id: i32|
        #[trigger] m.contains_key(id) ==> {
            &&& distinct_paths(m[id]@)
            &&& forall|k: int, t: int|
                0 <= k < m[id]@.len() && 0 <= t < m[id]@[k].line_ranges@.len() ==> (#[trigger] m[id]@[k].line_ranges@[t]).start
                    <= m[id]@[k].line_ranges@[t].end
        }
}

proof fn lemma_all_names_plain(cs: Seq<FileChange>)
    requires
        forall|k: int| 0 <= k < cs.len() ==> (#[trigger] cs[k]).original_path is None,
    ensures
        forall|n: Seq<char>| all_names(cs).contains(n) <==> exists|k: int| 0 <= k < cs.len() && (#[trigger] cs[k]).path@ == n,
    decreases cs.len(),
{
    if cs.len() > 0 {
        let c0 = cs.drop_last();
        assert forall|k: int| 0 <= k < c0.len() implies (#[trigger] c0[k]).original_path is None by {
            assert(c0[k] == cs[k]);
        }
        lemma_all_names_plain(c0);
        let last = cs.last();
        assert(names_of(last) == seq![last.path@]);
        assert forall|n: Seq<char>| all_names(cs).contains(n) <==> exists|k: int| 0 <= k < cs.len() && (#[trigger] cs[k]).path@ == n by {
            let an = all_names(cs);
            assert(an == all_names(c0) + seq![last.path@]);
            if an.contains(n) {
                let i = choose|i: int| 0 <= i < an.len() && an[i] == n;
                if i < all_names(c0).len() {
                    assert(all_names(c0)[i] == n);
                    assert(all_names(c0).contains(n));
                    let k = choose|k: int| 0 <= k < c0.len() && (#[trigger] c0[k]).path@ == n;
                    assert(cs[k] == c0[k]);
                } else {
                    assert(cs[cs.len() - 1].path@ == n);
                }
            }
            if exists|k: int| 0 <= k < cs.len() && (#[trigger] cs[k]).path@ == n {
                let k = choose|k: int| 0 <= k < cs.len() && (#[trigger] cs[k]).path@ == n;
                if k < c0.len() {
                    assert(c0[k] == cs[k]);
                    assert(all_names(c0).contains(n));
                    let i = choose|i: int| 0 <= i < all_names(c0).len() && all_names(c0)[i] == n;
                    assert(an[i] == n);
                } else {
                    assert(an[an.len() - 1] == n);
                }
            }
        }
    }
}

proof fn lemma_collect_shared(names: Seq<Seq<char>>, other: Seq<Seq<char>>)
    ensures
        forall|n: Seq<char>| collect_shared(names, other).contains(n) <==> names.contains(n) && other.contains(n),
    decreases names.len(),
{
    if names.len() > 0 {
        let n0 = names.drop_last();
        lemma_collect_shared(n0, other);
        let init = collect_shared(n0, other);
        let x = names.last();
        assert forall|n: Seq<char>| names.contains(n) <==> (n0.contains(n) || n == x) by {
            if names.contains(n) && n != x {
                let i = choose|i: int| 0 <= i < names.len() && names[i] == n;
                assert(n0[i] == n);
            }
            if n0.contains(n) {
                let i = choose|i: int| 0 <= i < n0.len() && n0[i] == n;
                assert(names[i] == n);
            }
            if n == x {
                assert(names[names.len() - 1] == n);
            }
        }
        if other.contains(x) && !init.contains(x) {
            let r = init.push(x);
            assert forall|n: Seq<char>| r.contains(n) <==> (init.contains(n) || n == x) by {
                if r.contains(n) && n != x {
                    let i = choose|i: int| 0 <= i < r.len() && r[i] == n;
                    assert(init[i] == n);
                }
                if init.contains(n) {
                    let i = choose|i: int| 0 <= i < init.len() && init[i] == n;
                    assert(r[i] == n);
                }
                if n == x {
                    assert(r[init.len() as int] == n);
                }
            }
        }
    }
}

/// Whether the changes of both PRs to file `f` have overlapping ranges.
pub open spec fn entry_meets(f: Seq<char>, cur: Seq<FileChange>, prev: Seq<FileChange>) -> bool {
    match (first_change_for(cur, f), first_change_for(prev, f)) {
        (Some(c), Some(p)) => change_overlaps(c, p).len() > 0,
        _ => false,
    }
}

proof fn lemma_overlap_entries_empty(shared: Seq<Seq<char>>, cur: Seq<FileChange>, prev: Seq<FileChange>)
    ensures
        (overlap_entries(shared, cur, prev).len() == 0) == (forall|i: int| 0 <= i < shared.len() ==> !entry_meets(#[trigger] shared[i], cur, prev)),
    decreases shared.len(),
{
    if shared.len() > 0 {
        lemma_overlap_entries_empty(shared.drop_last(), cur, prev);
        if !entry_meets(shared.last(), cur, prev) {
            assert forall|i: int| 0 <= i < shared.len() - 1 implies shared.drop_last()[i] == shared[i] by {}
        }
    }
}

proof fn lemma_first_change(cs: Seq<FileChange>, f: Seq<char>)
    requires
        distinct_paths(cs),
    ensures
        forall|k: int| 0 <= k < cs.len() && (#[trigger] cs[k]).path@ == f ==> first_change_for(cs, f) == Some(cs[k]),
        (forall|k: int| 0 <= k < cs.len() ==> (#[trigger] cs[k]).path@ != f) ==> first_change_for(cs, f) is None,
    decreases cs.len(),
{
    if cs.len() > 0 {
        let c1 = cs.drop_first();
        assert(distinct_paths(c1)) by {
            assert forall|k1: int, k2: int| 0 <= k1 < k2 < c1.len() implies (#[trigger] c1[k1]).path@ != (#[trigger] c1[k2]).path@ by {
                assert(c1[k1] == cs[k1 + 1] && c1[k2] == cs[k2 + 1]);
            }
            assert forall|k: int| 0 <= k < c1.len() implies (#[trigger] c1[k]).original_path is None by {
                assert(c1[k] == cs[k + 1]);
            }
        }
        lemma_first_change(c1, f);
        assert(cs[0].original_path is None);
        assert forall|k: int| 0 <= k < cs.len() && (#[trigger] cs[k]).path@ == f implies first_change_for(cs, f) == Some(cs[k]) by {
            if k > 0 {
                assert(cs[0].path@ != cs[k].path@);
                assert(c1[k - 1] == cs[k]);
            }
        }
        if forall|k: int| 0 <= k < cs.len() ==> (#[trigger] cs[k]).path@ != f {
            assert forall|k: int| 0 <= k < c1.len() implies (#[trigger] c1[k]).path@ != f by {
                assert(c1[k] == cs[k + 1]);
            }
        }
    }
}

/// Non-empty ranges overlap pairwise exactly when they share a line.
proof fn lemma_overlap_lines(xs: Seq<LineRange>, ys: Seq<LineRange>)
    requires
        forall|t: int| 0 <= t < xs.len() ==> (#[trigger] xs[t]).start <= xs[t].end,
        forall|t: int| 0 <= t < ys.len() ==> (#[trigger] ys[t]).start <= ys[t].end,
    ensures
        any_pair_overlaps(xs, ys) == (lines_of_ranges(xs).intersect(lines_of_ranges(ys)) != Set::<u32>::empty()),
{
    let both = lines_of_ranges(xs).intersect(lines_of_ranges(ys));
    if any_pair_overlaps(xs, ys) {
        let (i, j) = choose|i: int, j: int| 0 <= i < xs.len() && 0 <= j < ys.len() && #[trigger] ranges_overlap(xs[i], ys[j]);
        let v = if xs[i].start >= ys[j].start { xs[i].start } else { ys[j].start };
        assert(xs[i].start <= v && v <= xs[i].end);
        assert(ys[j].start <= v && v <= ys[j].end);
        assert(lines_of_ranges(xs).contains(v));
        assert(lines_of_ranges(ys).contains(v));
        assert(both.contains(v));
    }
    if both != Set::<u32>::empty() {
        assert(!(both =~= Set::<u32>::empty()));
        assert(exists|v: u32| both.contains(v));
        let v = choose|v: u32| both.contains(v);
        let i = choose|i: int| 0 <= i < xs.len() && #[trigger] xs[i].start <= v && v <= xs[i].end;
        let j = choose|j: int| 0 <= j < ys.len() && #[trigger] ys[j].start <= v && v <= ys[j].end;
        assert(ranges_overlap(xs[i], ys[j]));
    }
}

proof fn lemma_file_agrees(x: IndexModel, m: Map<i32, Vec<FileChange>>, a: i32, b: i32, f: u32, k: int, t: int)
    requires
        built_from(x, m),
        model_wf(x),
        simple_changes(m),
        m.contains_key(a),
        m.contains_key(b),
        f < x.paths.len(),
        0 <= k < m[a]@.len(),
        0 <= t < m[b]@.len(),
        m[a]@[k].path@ == x.paths[f as int],
        m[b]@[t].path@ == x.paths[f as int],
    ensures
        lines_meet(x, a, b, f) == entry_meets(x.paths[f as int], m[a]@, m[b]@),
{
    let c = m[a]@;
    let p = m[b]@;
    let n = x.paths[f as int];
    let ps = x.paths;
    assert(distinct_paths(c) && distinct_paths(p));
    lemma_first_change(c, n);
    lemma_first_change(p, n);
    let ck = c[k];
    let pt = p[t];
    assert(first_change_for(c, n) == Some(ck));
    assert(first_change_for(p, n) == Some(pt));
    assert(same_file(ck, pt));
    lemma_pair_overlaps_empty(ck.line_ranges@, pt.line_ranges@);
    assert forall|u: int| 0 <= u < ck.line_ranges@.len() implies (#[trigger] ck.line_ranges@[u]).start <= ck.line_ranges@[u].end by {
        assert(c[k].line_ranges@[u] == m[a]@[k].line_ranges@[u]);
    }
    assert forall|u: int| 0 <= u < pt.line_ranges@.len() implies (#[trigger] pt.line_ranges@[u]).start <= pt.line_ranges@[u].end by {
        assert(p[t].line_ranges@[u] == m[b]@[t].line_ranges@[u]);
    }
    lemma_overlap_lines(ck.line_ranges@, pt.line_ranges@);
    // every path of a change is listed
    assert forall|j: int| 0 <= j < c.len() implies ps.contains(#[trigger] c[j].path@) by {
        assert(names_of(m[a]@[j]).contains(c[j].path@)) by {
            assert(names_of(m[a]@[j])[0] == c[j].path@);
        }
        assert(names_in(m).contains(c[j].path@));
        assert(ps.to_set().contains(c[j].path@));
    }
    assert forall|j: int| 0 <= j < p.len() implies ps.contains(#[trigger] p[j].path@) by {
        assert(names_of(m[b]@[j]).contains(p[j].path@)) by {
            assert(names_of(m[b]@[j])[0] == p[j].path@);
        }
        assert(names_in(m).contains(p[j].path@));
        assert(ps.to_set().contains(p[j].path@));
    }
    lemma_line_map(ps, c);
    lemma_line_map(ps, p);
    let pid = path_id(ps, n);
    assert(0 <= pid < ps.len() && ps[pid] == n);
    assert(pid == f);
    let la = line_map_of(ps, c);
    let lb = line_map_of(ps, p);
    assert(x.lines[a] == la);
    assert(x.lines[b] == lb);
    let lc = lines_of_ranges(ck.line_ranges@);
    let lp = lines_of_ranges(pt.line_ranges@);
    if la.contains_key(f) {
        let j = choose|j: int|
            0 <= j < c.len() && path_id(ps, #[trigger] c[j].path@) == f && lines_of_ranges(c[j].line_ranges@) != Set::<u32>::empty();
        let pj = path_id(ps, c[j].path@);
        assert(0 <= pj < ps.len() && ps[pj] == c[j].path@);
        assert(c[j].path@ == n);
        if j != k {
            if j < k {
                assert(c[j].path@ != c[k].path@);
            } else {
                assert(c[k].path@ != c[j].path@);
            }
        }
        assert(lc != Set::<u32>::empty());
    }
    if lc != Set::<u32>::empty() {
        assert(la.contains_key(f) && la[f] == lc);
    }
    if lb.contains_key(f) {
        let j = choose|j: int|
            0 <= j < p.len() && path_id(ps, #[trigger] p[j].path@) == f && lines_of_ranges(p[j].line_ranges@) != Set::<u32>::empty();
        let pj = path_id(ps, p[j].path@);
        assert(0 <= pj < ps.len() && ps[pj] == p[j].path@);
        assert(p[j].path@ == n);
        if j != t {
            if j < t {
                assert(p[j].path@ != p[t].path@);
            } else {
                assert(p[t].path@ != p[j].path@);
            }
        }
        assert(lp != Set::<u32>::empty());
    }
    if lp != Set::<u32>::empty() {
        assert(lb.contains_key(f) && lb[f] == lp);
    }
    if lc == Set::<u32>::empty() {
        assert(lc.intersect(lp) =~= Set::<u32>::empty());
    }
    if lp == Set::<u32>::empty() {
        assert(lc.intersect(lp) =~= Set::<u32>::empty());
    }
}

/// For plain changes, comparing two PRs through the bitmap index gives the
/// same kind of dependency as comparing their lists of changes, with the
/// same set of shared files (their order, and how the overlapping lines are
/// cut into ranges, may differ).
pub proof fn law_indexed_category_agrees(x: IndexModel, m: Map<i32, Vec<FileChange>>, a: i32, b: i32)
    requires
        built_from(x, m),
        model_wf(x),
        simple_changes(m),
    ensures
        kind_of(indexed_category(x, a, b)) == kind_of(category_of(changes_of(m, a), changes_of(m, b))),
        category_shared(indexed_category(x, a, b)).to_set() == category_shared(
            category_of(changes_of(m, a), changes_of(m, b)),
        ).to_set(),
{
    let ic = indexed_category(x, a, b);
    let sc = category_of(changes_of(m, a), changes_of(m, b));
    if !m.contains_key(a) || !m.contains_key(b) {
        assert(category_shared(ic) =~= category_shared(sc));
    } else {
        let c = m[a]@;
        let p = m[b]@;
        let ps = x.paths;
        assert(distinct_paths(c) && distinct_paths(p));
        let big = x.files[a].intersect(x.files[b]);
        let all_ids = Seq::new(ps.len(), |i: int| i as u32).to_set();
        assert(big.subset_of(all_ids)) by {
            assert forall|f: u32| big.contains(f) implies all_ids.contains(f) by {
                assert(f < ps.len());
                assert(Seq::new(ps.len(), |i: int| i as u32)[f as int] == f);
            }
        }
        vstd::set_lib::lemma_len_subset(big, all_ids);
        lemma_ascending_empty(big);
        let ids = shared_ids(x, a, b);
        assert(ids == ascending(big));
        lemma_all_names_plain(c);
        lemma_all_names_plain(p);
        lemma_collect_shared(all_names(c), all_names(p));
        let sh = shared_files_of(c, p);
        let names = ids.map_values(|f: u32| ps[f as int]);
        // the names both PRs change
        assert forall|n: Seq<char>| #![trigger sh.contains(n)] #![trigger names.contains(n)]
            sh.contains(n) <==> names.contains(n) by {
            if sh.contains(n) {
                assert(collect_shared(all_names(c), all_names(p)).contains(n));
                assert(all_names(c).contains(n) && all_names(p).contains(n));
                let k = choose|k: int| 0 <= k < c.len() && (#[trigger] c[k]).path@ == n;
                let t = choose|t: int| 0 <= t < p.len() && (#[trigger] p[t]).path@ == n;
                assert(names_of(m[a]@[k])[0] == n);
                assert(names_of(m[a]@[k]).contains(n));
                assert(names_in(m).contains(n));
                assert(ps.to_set().contains(n));
                let f = choose|f: int| 0 <= f < ps.len() && ps[f] == n;
                assert(names_of(c[k]).contains(ps[f]));
                assert(names_of(m[b]@[t])[0] == n);
                assert(names_of(p[t]).contains(ps[f]));
                assert(x.files[a].contains(f as u32));
                assert(x.files[b].contains(f as u32));
                assert(big.contains(f as u32));
                let i = choose|i: int| 0 <= i < ids.len() && ids[i] == f as u32;
                assert(names[i] == n);
            }
            if names.contains(n) {
                let i = choose|i: int| 0 <= i < names.len() && names[i] == n;
                let f = ids[i];
                assert(big.contains(f));
                assert(x.files[a].contains(f));
                let k = choose|k: int| 0 <= k < c.len() && #[trigger] names_of(c[k]).contains(ps[f as int]);
                assert(c[k].original_path is None);
                assert(c[k].path@ == n);
                let t = choose|t: int| 0 <= t < p.len() && #[trigger] names_of(p[t]).contains(ps[f as int]);
                assert(p[t].original_path is None);
                assert(p[t].path@ == n);
                assert(all_names(c).contains(n));
                assert(all_names(p).contains(n));
            }
        }
        assert(sh.to_set() =~= names.to_set()) by {
            assert forall|n: Seq<char>| sh.to_set().contains(n) <==> names.to_set().contains(n) by {
                assert(sh.contains(n) <==> names.contains(n));
            }
        }
        if sh.len() > 0 {
            assert(sh.to_set().contains(sh[0]));
            assert(names.contains(sh[0]));
        }
        if names.len() > 0 {
            assert(names.to_set().contains(names[0]));
            assert(sh.contains(names[0]));
        }
        assert((sh.len() == 0) == (ids.len() == 0));
        if c.len() == 0 || p.len() == 0 {
            assert(sh.len() == 0) by {
                if sh.len() > 0 {
                    assert(sh.contains(sh[0]));
                    assert(all_names(c).contains(sh[0]));
                    assert(all_names(p).contains(sh[0]));
                }
            }
        }
        if ids.len() > 0 {
            lemma_overlap_entries_empty(sh, c, p);
            lemma_overlaps_through_empty(x, a, b, ids);
            let seq_meets = exists|i: int| 0 <= i < sh.len() && entry_meets(#[trigger] sh[i], c, p);
            let ix_meets = exists|i: int| 0 <= i < ids.len() && lines_meet(x, a, b, #[trigger] ids[i]);
            if seq_meets {
                let i = choose|i: int| 0 <= i < sh.len() && entry_meets(#[trigger] sh[i], c, p);
                let n = sh[i];
                assert(sh.contains(n));
                assert(collect_shared(all_names(c), all_names(p)).contains(n));
                assert(all_names(c).contains(n) && all_names(p).contains(n));
                assert(names.contains(n));
                let j = choose|j: int| 0 <= j < names.len() && names[j] == n;
                let f = ids[j];
                assert(big.contains(f));
                let k = choose|k: int| 0 <= k < c.len() && (#[trigger] c[k]).path@ == n;
                let t = choose|t: int| 0 <= t < p.len() && (#[trigger] p[t]).path@ == n;
                assert(f < ps.len());
                lemma_file_agrees(x, m, a, b, f, k, t);
                assert(lines_meet(x, a, b, ids[j]));
            }
            if ix_meets {
                let j = choose|j: int| 0 <= j < ids.len() && lines_meet(x, a, b, #[trigger] ids[j]);
                let f = ids[j];
                let n = ps[f as int];
                assert(names[j] == n);
                assert(names.contains(n));
                assert(sh.contains(n));
                assert(collect_shared(all_names(c), all_names(p)).contains(n));
                assert(all_names(c).contains(n) && all_names(p).contains(n));
                let i = choose|i: int| 0 <= i < sh.len() && sh[i] == n;
                let k = choose|k: int| 0 <= k < c.len() && (#[trigger] c[k]).path@ == n;
                let t = choose|t: int| 0 <= t < p.len() && (#[trigger] p[t]).path@ == n;
                assert(big.contains(f));
                assert(f < ps.len());
                lemma_file_agrees(x, m, a, b, f, k, t);
                assert(entry_meets(sh[i], c, p));
            }
            assert(seq_meets == ix_meets);
        }
    }
}

/// The dependencies with each category reduced to its kind.
pub open spec fn dep_kinds(ds: Seq<(i32, i32, CategoryView)>) -> Seq<(i32, i32, int)> {
    ds.map_values(|d: (i32, i32, CategoryView)| (d.0, d.1, kind_of(d.2)))
}

/// The warnings with each category reduced to its kind.
pub open spec fn warning_kinds(ws: Seq<WarningView>) -> Seq<(i32, Seq<char>, i32, Seq<char>, int)> {
    ws.map_values(
        |w: WarningView| (w.selected_pr_id, w.selected_pr_title, w.unselected_pr_id, w.unselected_pr_title, kind_of(w.category)),
    )
}

/// Whether no two PRs have the same id.
pub open spec fn distinct_ids(prs: Seq<PRInfo>) -> bool {
    forall|i: int, j: int| 0 <= i < j < prs.len() ==> (#[trigger] prs[i]).id != (#[trigger] prs[j]).id
}

proof fn lemma_first_index_distinct(prs: Seq<PRInfo>, i: int)
    requires
        distinct_ids(prs),
        0 <= i < prs.len(),
    ensures
        first_index(prs, prs[i].id) == i,
{
    let id = prs[i].id;
    assert forall|u: int| 0 <= u < i implies prs[u].id != id by {}
    assert(0 <= i < prs.len() && prs[i].id == id && forall|u: int| 0 <= u < i ==> prs[u].id != id);
    let t = first_index(prs, id);
    if t < i {
        assert(prs[t].id != prs[i].id);
    }
    if t > i {
        assert(prs[i].id != id);
    }
}

proof fn lemma_pair_folds_concat(x: IndexModel, prs: Seq<PRInfo>, ps: Seq<(usize, usize)>, qs: Seq<(usize, usize)>, id: i32, wop: bool)
    ensures
        pair_deps(x, prs, ps + qs, id) == pair_deps(x, prs, ps, id) + pair_deps(x, prs, qs, id),
        pair_dependents(x, prs, ps + qs, id) == pair_dependents(x, prs, ps, id) + pair_dependents(x, prs, qs, id),
        pair_warnings(x, prs, ps + qs, wop) == pair_warnings(x, prs, ps, wop) + pair_warnings(x, prs, qs, wop),
    decreases qs.len(),
{
    if qs.len() == 0 {
        assert(ps + qs =~= ps);
        assert(pair_deps(x, prs, ps, id) + pair_deps(x, prs, qs, id) =~= pair_deps(x, prs, ps, id));
        assert(pair_dependents(x, prs, ps, id) + pair_dependents(x, prs, qs, id) =~= pair_dependents(x, prs, ps, id));
        assert(pair_warnings(x, prs, ps, wop) + pair_warnings(x, prs, qs, wop) =~= pair_warnings(x, prs, ps, wop));
    } else {
        let q0 = qs.drop_last();
        lemma_pair_folds_concat(x, prs, ps, q0, id, wop);
        assert((ps + qs).drop_last() =~= ps + q0);
        assert((ps + qs).last() == qs.last());
        let d0 = pair_deps(x, prs, ps, id);
        let e0 = pair_dependents(x, prs, ps, id);
        let w0 = pair_warnings(x, prs, ps, wop);
        assert forall|v: (i32, i32, CategoryView)| (d0 + pair_deps(x, prs, q0, id)).push(v) =~= d0 + pair_deps(x, prs, q0, id).push(v) by {}
        assert forall|v: i32| (e0 + pair_dependents(x, prs, q0, id)).push(v) =~= e0 + pair_dependents(x, prs, q0, id).push(v) by {}
        assert forall|v: WarningView| (w0 + pair_warnings(x, prs, q0, wop)).push(v) =~= w0 + pair_warnings(x, prs, q0, wop).push(v) by {}
    }
}

/// The pairs of position `i` with the positions before `j`.
pub open spec fn row_pairs(i: int, j: nat) -> Seq<(usize, usize)> {
    Seq::new(j, |b: int| (i as usize, b as usize))
}

proof fn lemma_kind_decides(c1: CategoryView, c2: CategoryView, wop: bool)
    requires
        kind_of(c1) == kind_of(c2),
    ensures
        (c1 is Independent) == (c2 is Independent),
        should_warn(c1, wop) == should_warn(c2, wop),
{
}

proof fn lemma_row_agrees(
    x: IndexModel,
    m: Map<i32, Vec<FileChange>>,
    prs: Seq<PRInfo>,
    id: i32,
    i: int,
    j: nat,
    wop: bool,
)
    requires
        built_from(x, m),
        model_wf(x),
        simple_changes(m),
        distinct_ids(prs),
        0 <= i < prs.len(),
        j <= i,
        i < usize::MAX,
    ensures
        dep_kinds(pair_deps(x, prs, row_pairs(i, j), id)) == dep_kinds(deps_row(prs, m, id, i, j)),
        pair_dependents(x, prs, row_pairs(i, j), id) == dependents_row(prs, m, id, i, j),
        warning_kinds(pair_warnings(x, prs, row_pairs(i, j), wop)) == warning_kinds(warnings_row(prs, m, wop, i, j)),
    decreases j,
{
    if j == 0 {
        assert(row_pairs(i, j) =~= Seq::<(usize, usize)>::empty());
        assert(dep_kinds(Seq::<(i32, i32, CategoryView)>::empty()) =~= Seq::<(i32, i32, int)>::empty());
        assert(warning_kinds(Seq::<WarningView>::empty()) =~= Seq::<(i32, Seq<char>, i32, Seq<char>, int)>::empty());
    } else {
        let j0 = (j - 1) as nat;
        lemma_row_agrees(x, m, prs, id, i, j0, wop);
        let rp = row_pairs(i, j);
        assert(rp.drop_last() =~= row_pairs(i, j0));
        let p = rp.last();
        assert(p == (i as usize, j0 as usize));
        assert(p.0 as int == i && p.1 as int == j0);
        let ci = pair_cat(x, prs, p);
        let cs = pair_category(prs, m, i, j0 as int);
        law_indexed_category_agrees(x, m, prs[i].id, prs[j0 as int].id);
        lemma_kind_decides(ci, cs, wop);
        lemma_first_index_distinct(prs, i);
        lemma_first_index_distinct(prs, j0 as int);
        let pd = pair_deps(x, prs, row_pairs(i, j0), id);
        let sd = deps_row(prs, m, id, i, j0);
        if prs[i].id == id && !(ci is Independent) {
            assert(dep_kinds(pd.push((prs[i].id, prs[j0 as int].id, ci))) =~= dep_kinds(pd).push((prs[i].id, prs[j0 as int].id, kind_of(ci))));
            assert(dep_kinds(sd.push((prs[i].id, prs[j0 as int].id, cs))) =~= dep_kinds(sd).push((prs[i].id, prs[j0 as int].id, kind_of(cs))));
        }
        let pw = pair_warnings(x, prs, row_pairs(i, j0), wop);
        let sw = warnings_row(prs, m, wop, i, j0);
        if prs[i].is_selected && !prs[j0 as int].is_selected && should_warn(ci, wop) {
            let wi = WarningView {
                selected_pr_id: prs[i].id,
                selected_pr_title: prs[i].title@,
                unselected_pr_id: prs[j0 as int].id,
                unselected_pr_title: prs[j0 as int].title@,
                category: ci,
            };
            let ws = WarningView { category: cs, ..wi };
            assert(warning_kinds(pw.push(wi)) =~= warning_kinds(pw).push(
                (wi.selected_pr_id, wi.selected_pr_title, wi.unselected_pr_id, wi.unselected_pr_title, kind_of(ci)),
            ));
            assert(warning_kinds(sw.push(ws)) =~= warning_kinds(sw).push(
                (ws.selected_pr_id, ws.selected_pr_title, ws.unselected_pr_id, ws.unselected_pr_title, kind_of(cs)),
            ));
        }
    }
}

proof fn lemma_upto_agrees(x: IndexModel, m: Map<i32, Vec<FileChange>>, prs: Seq<PRInfo>, id: i32, i: nat, wop: bool)
    requires
        built_from(x, m),
        model_wf(x),
        simple_changes(m),
        distinct_ids(prs),
        i <= prs.len(),
        prs.len() < usize::MAX,
    ensures
        dep_kinds(pair_deps(x, prs, pairs_before(i), id)) == dep_kinds(deps_upto(prs, m, id, i)),
        pair_dependents(x, prs, pairs_before(i), id) == dependents_upto(prs, m, id, i),
        warning_kinds(pair_warnings(x, prs, pairs_before(i), wop)) == warning_kinds(warnings_upto(prs, m, wop, i)),
    decreases i,
{
    if i == 0 {
        assert(dep_kinds(Seq::<(i32, i32, CategoryView)>::empty()) =~= Seq::<(i32, i32, int)>::empty());
        assert(warning_kinds(Seq::<WarningView>::empty()) =~= Seq::<(i32, Seq<char>, i32, Seq<char>, int)>::empty());
    } else {
        let k = (i - 1) as nat;
        lemma_upto_agrees(x, m, prs, id, k, wop);
        lemma_row_agrees(x, m, prs, id, k as int, k, wop);
        assert(pairs_before(i) == pairs_before(k) + row_pairs(k as int, k));
        lemma_pair_folds_concat(x, prs, pairs_before(k), row_pairs(k as int, k), id, wop);
        let a1 = pair_deps(x, prs, pairs_before(k), id);
        let a2 = pair_deps(x, prs, row_pairs(k as int, k), id);
        let b1 = deps_upto(prs, m, id, k);
        let b2 = deps_row(prs, m, id, k as int, k);
        assert(dep_kinds(a1 + a2) =~= dep_kinds(a1) + dep_kinds(a2));
        assert(dep_kinds(b1 + b2) =~= dep_kinds(b1) + dep_kinds(b2));
        let w1 = pair_warnings(x, prs, pairs_before(k), wop);
        let w2 = pair_warnings(x, prs, row_pairs(k as int, k), wop);
        let v1 = warnings_upto(prs, m, wop, k);
        let v2 = warnings_row(prs, m, wop, k as int, k);
        assert(warning_kinds(w1 + w2) =~= warning_kinds(w1) + warning_kinds(w2));
        assert(warning_kinds(v1 + v2) =~= warning_kinds(v1) + warning_kinds(v2));
    }
}

/// Whether `order` is the topological order the analysis computes for
/// `nodes`: each node once, dependencies first, every node whose
/// dependencies are all placed is placed, and the largest ready id first.
pub open spec fn topological_order_of(nodes: Map<i32, PRDependencyNode>, order: Seq<i32>) -> bool {
    &&& order.no_duplicates()
    &&& forall|k: int| 0 <= k < order.len() ==> nodes.contains_key(#[trigger] order[k])
    &&& respects_dependencies(nodes, order)
    &&& order_complete(nodes, order)
    &&& largest_ready_first(nodes, order)
}

proof fn lemma_ready_at(nodes: Map<i32, PRDependencyNode>, order: Seq<i32>, k: int)
    requires
        topological_order_of(nodes, order),
        0 <= k < order.len(),
    ensures
        ready_after(nodes, order[k], order.subrange(0, k)),
{
    let p = order.subrange(0, k);
    if p.contains(order[k]) {
        let j = choose|j: int| 0 <= j < p.len() && p[j] == order[k];
        assert(order[j] == order[k]);
    }
    assert forall|y: i32| #[trigger] dep_targets(nodes[order[k]].dependencies@).contains(y) implies p.contains(y) by {}
}

proof fn lemma_order_prefix(
    n1: Map<i32, PRDependencyNode>,
    o1: Seq<i32>,
    n2: Map<i32, PRDependencyNode>,
    o2: Seq<i32>,
    k: nat,
)
    requires
        n1.dom() == n2.dom(),
        forall|id: i32, y: i32|
            n1.contains_key(id) ==> (dep_targets(n1[id].dependencies@).contains(y) <==> dep_targets(n2[id].dependencies@).contains(y)),
        topological_order_of(n1, o1),
        topological_order_of(n2, o2),
        k <= o1.len(),
        k <= o2.len(),
    ensures
        o1.subrange(0, k as int) == o2.subrange(0, k as int),
    decreases k,
{
    if k > 0 {
        let k0 = (k - 1) as nat;
        lemma_order_prefix(n1, o1, n2, o2, k0);
        let p = o1.subrange(0, k0 as int);
        assert(o2.subrange(0, k0 as int) == p);
        let a = o1[k0 as int];
        let b = o2[k0 as int];
        lemma_ready_at(n1, o1, k0 as int);
        lemma_ready_at(n2, o2, k0 as int);
        assert(ready_after(n2, a, p)) by {
            assert forall|y: i32| #[trigger] dep_targets(n2[a].dependencies@).contains(y) implies p.contains(y) by {
                assert(dep_targets(n1[a].dependencies@).contains(y));
            }
        }
        assert(ready_after(n1, b, p)) by {
            assert forall|y: i32| #[trigger] dep_targets(n1[b].dependencies@).contains(y) implies p.contains(y) by {
                assert(dep_targets(n2[b].dependencies@).contains(y));
            }
        }
        assert(b <= a);
        assert(a <= b);
        assert(o1.subrange(0, k as int) =~= o2.subrange(0, k as int)) by {
            assert forall|j: int| 0 <= j < k implies o1.subrange(0, k as int)[j] == o2.subrange(0, k as int)[j] by {
                if j < k0 {
                    assert(o1.subrange(0, k as int)[j] == p[j]);
                    assert(o2.subrange(0, k as int)[j] == o2.subrange(0, k0 as int)[j]);
                }
            }
        }
    }
}

proof fn lemma_no_longer_order(
    n1: Map<i32, PRDependencyNode>,
    o1: Seq<i32>,
    n2: Map<i32, PRDependencyNode>,
    o2: Seq<i32>,
)
    requires
        n1.dom() == n2.dom(),
        forall|id: i32, y: i32|
            n1.contains_key(id) ==> (dep_targets(n1[id].dependencies@).contains(y) <==> dep_targets(n2[id].dependencies@).contains(y)),
        topological_order_of(n1, o1),
        topological_order_of(n2, o2),
        o2.len() <= o1.len(),
        o1.subrange(0, o2.len() as int) == o2.subrange(0, o2.len() as int),
    ensures
        o1.len() == o2.len(),
{
    if o2.len() < o1.len() {
        let l = o2.len() as int;
        assert(o2.subrange(0, l) =~= o2);
        lemma_ready_at(n1, o1, l);
        let a = o1[l];
        assert(targets_placed(n2, a, o2)) by {
            assert forall|y: i32| #[trigger] dep_targets(n2[a].dependencies@).contains(y) implies o2.contains(y) by {
                assert(dep_targets(n1[a].dependencies@).contains(y));
            }
        }
        assert(n2.contains_key(a));
        assert(o2.contains(a));
    }
}

/// Two orders that are each the computed topological order of graphs with
/// the same nodes and the same dependency targets are equal.
proof fn lemma_order_unique(n1: Map<i32, PRDependencyNode>, o1: Seq<i32>, n2: Map<i32, PRDependencyNode>, o2: Seq<i32>)
    requires
        n1.dom() == n2.dom(),
        forall|id: i32, y: i32|
            n1.contains_key(id) ==> (dep_targets(n1[id].dependencies@).contains(y) <==> dep_targets(n2[id].dependencies@).contains(y)),
        topological_order_of(n1, o1),
        topological_order_of(n2, o2),
    ensures
        o1 == o2,
{
    if o1.len() < o2.len() {
        lemma_order_prefix(n1, o1, n2, o2, o1.len());
        lemma_no_longer_order(n2, o2, n1, o1);
    } else if o2.len() < o1.len() {
        lemma_order_prefix(n1, o1, n2, o2, o2.len());
        lemma_no_longer_order(n1, o1, n2, o2);
    } else {
        lemma_order_prefix(n1, o1, n2, o2, o1.len());
        assert(o1.subrange(0, o1.len() as int) =~= o1);
        assert(o2.subrange(0, o2.len() as int) =~= o2);
    }
}

proof fn lemma_kinds_targets(va: Seq<(i32, i32, CategoryView)>, vb: Seq<(i32, i32, CategoryView)>)
    requires
        dep_kinds(va) == dep_kinds(vb),
    ensures
        targets_v(va) == targets_v(vb),
    decreases va.len(),
{
    assert(va.len() == dep_kinds(va).len());
    assert(vb.len() == dep_kinds(vb).len());
    if va.len() > 0 {
        assert(dep_kinds(va.drop_last()) =~= dep_kinds(va).drop_last());
        assert(dep_kinds(vb.drop_last()) =~= dep_kinds(vb).drop_last());
        lemma_kinds_targets(va.drop_last(), vb.drop_last());
        assert(dep_kinds(va)[va.len() - 1] == dep_kinds(vb)[vb.len() - 1]);
        assert(va.last().1 == vb.last().1);
        assert(kind_of(va.last().2) == kind_of(vb.last().2));
    }
}

/// For plain changes and PRs with distinct ids, the parallel analysis
/// through a bitmap index of the changes and the sequential analysis give
/// the same nodes, the same dependencies of each node (same PRs, in the
/// same order, with the same kind of dependency), the same dependents, the
/// same warnings (same PRs and titles, same kinds), and the same
/// topological order.
pub proof fn law_parallel_matches_sequential(
    prs: Seq<PRInfo>,
    m: Map<i32, Vec<FileChange>>,
    x: IndexModel,
    warn_on_partial: bool,
    sequential: DependencyAnalysisResult,
    parallel: DependencyAnalysisResult,
)
    requires
        built_from(x, m),
        model_wf(x),
        simple_changes(m),
        distinct_ids(prs),
        prs.len() < usize::MAX,
        analysis_of(sequential, prs, m, warn_on_partial),
        indexed_analysis_of(parallel, prs, x, warn_on_partial),
        topological_order_of(sequential.graph.nodes@, sequential.graph.topological_order@),
        topological_order_of(parallel.graph.nodes@, parallel.graph.topological_order@),
    ensures
        sequential.graph.nodes@.dom() == parallel.graph.nodes@.dom(),
        sequential.graph.topological_order@ == parallel.graph.topological_order@,
        forall|id: i32|
            #[trigger] sequential.graph.nodes@.contains_key(id) ==> {
                let sn = sequential.graph.nodes@[id];
                let pn = parallel.graph.nodes@[id];
                &&& sn.pr_title == pn.pr_title
                &&& sn.is_selected == pn.is_selected
                &&& dep_kinds(deps_view(sn.dependencies@)) == dep_kinds(deps_view(pn.dependencies@))
                &&& sn.dependents@ == pn.dependents@
            },
        warning_kinds(warnings_view(sequential.warnings@)) == warning_kinds(warnings_view(parallel.warnings@)),
{
    let n = prs.len();
    assert(sequential.graph.nodes@.dom() =~= parallel.graph.nodes@.dom()) by {
        assert forall|id: i32| sequential.graph.nodes@.contains_key(id) <==> parallel.graph.nodes@.contains_key(id) by {
            assert(sequential.graph.nodes@.contains_key(id) <==> has_id_before(prs, id, n as int));
            assert(parallel.graph.nodes@.contains_key(id) <==> has_id_before(prs, id, n as int));
        }
    }
    assert forall|id: i32| #[trigger] sequential.graph.nodes@.contains_key(id) implies {
        let sn = sequential.graph.nodes@[id];
        let pn = parallel.graph.nodes@[id];
        &&& sn.pr_title == pn.pr_title
        &&& sn.is_selected == pn.is_selected
        &&& dep_kinds(deps_view(sn.dependencies@)) == dep_kinds(deps_view(pn.dependencies@))
        &&& sn.dependents@ == pn.dependents@
    } by {
        assert(parallel.graph.nodes@.contains_key(id));
        lemma_upto_agrees(x, m, prs, id, n, warn_on_partial);
    }
    lemma_upto_agrees(x, m, prs, 0, n, warn_on_partial);
    let sn = sequential.graph.nodes@;
    let pn = parallel.graph.nodes@;
    assert forall|id: i32, y: i32|
        sn.contains_key(id) implies (dep_targets(sn[id].dependencies@).contains(y) <==> dep_targets(pn[id].dependencies@).contains(y)) by {
        lemma_dep_targets_view(sn[id].dependencies@);
        lemma_dep_targets_view(pn[id].dependencies@);
        lemma_kinds_targets(deps_view(sn[id].dependencies@), deps_view(pn[id].dependencies@));
    }
    lemma_order_unique(sn, sequential.graph.topological_order@, pn, parallel.graph.topological_order@);
}

} // verus!
