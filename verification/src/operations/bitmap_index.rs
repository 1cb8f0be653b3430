//! Bitmap index of the files and lines that pull requests change.
//!
//! Every file path gets an integer id; each PR gets a roaring bitmap of the
//! ids of the files it touches, and for each file a bitmap of the lines it
//! edits. File overlap between two PRs is then a bitmap intersection.

use vstd::prelude::*;
use std::collections::HashMap;
use roaring::RoaringBitmap;
use rayon::iter::{IntoParallelRefIterator, ParallelIterator};
use crate::operations::dependency_analysis::{
    LineRange, FileChange, names_of, strs_view, CategoryView, DependencyCategory, OverlappingFile, overlaps_view,
};
use crate::text::str_eq;

verus! {

broadcast use vstd::std_specs::hash::group_hash_axioms;

// ==================== Roaring bitmaps ====================

#[verifier::external_type_specification]
#[verifier::external_body]
pub struct ExRoaringBitmap(RoaringBitmap);

/// The set of values a roaring bitmap holds.
pub uninterp spec fn bitmap_values(b: RoaringBitmap) -> Set<u32>;

/// `RoaringBitmap::new`: a bitmap holding no value.
#[verifier::external_body]
fn bitmap_new() -> (b: RoaringBitmap)
    ensures
        bitmap_values(b) == Set::<u32>::empty(),
{
    RoaringBitmap::new()
}

/// `RoaringBitmap::insert`: adds the value to the set (its result, whether
/// the value was absent, is not used).
#[verifier::external_body]
fn bitmap_insert(b: &mut RoaringBitmap, value: u32)
    ensures
        bitmap_values(*final(b)) == bitmap_values(*old(b)).insert(value),
{
    b.insert(value);
}

/// `RoaringBitmap::is_empty`: whether the set holds no value.
#[verifier::external_body]
fn bitmap_is_empty(b: &RoaringBitmap) -> (r: bool)
    ensures
        r == (bitmap_values(*b) == Set::<u32>::empty()),
{
    b.is_empty()
}

/// `&a & &b` (`BitAnd` on bitmap references): the intersection of the two
/// sets.
#[verifier::external_body]
fn bitmap_and(a: &RoaringBitmap, b: &RoaringBitmap) -> (r: RoaringBitmap)
    ensures
        bitmap_values(r) == bitmap_values(*a).intersect(bitmap_values(*b)),
{
    a & b
}

/// `RoaringBitmap::iter`, collected: each value of the set once, in
/// increasing order (the order the iterator documents).
#[verifier::external_body]
fn bitmap_to_vec(b: &RoaringBitmap) -> (r: Vec<u32>)
    ensures
        increasing(r@),
        r@.to_set() == bitmap_values(*b),
{
    b.iter().collect()
}

// ==================== Ascending enumerations ====================

/// Whether the values strictly increase.
pub open spec fn increasing(s: Seq<u32>) -> bool {
    forall|a: int, b: int| 0 <= a < b < s.len() ==> s[a] < s[b]
}

/// The values of a finite set in increasing order.
pub open spec fn ascending(s: Set<u32>) -> Seq<u32> {
    choose|q: Seq<u32>| increasing(q) && q.to_set() == s
}

proof fn lemma_increasing_unique(x: Seq<u32>, y: Seq<u32>)
    requires
        increasing(x),
        increasing(y),
        x.to_set() == y.to_set(),
    ensures
        x == y,
    decreases x.len(),
{
    if x.len() == 0 {
        if y.len() > 0 {
            assert(y.to_set().contains(y[0]));
        }
        assert(x =~= y);
    } else {
        if y.len() == 0 {
            assert(x.to_set().contains(x[0]));
            assert(false);
        }
        assert(y.to_set().contains(x[0]));
        assert(x.to_set().contains(y[0]));
        let k = choose|k: int| 0 <= k < y.len() && y[k] == x[0];
        let t = choose|t: int| 0 <= t < x.len() && x[t] == y[0];
        assert(x[0] == y[0]) by {
            if k > 0 {
                assert(y[0] < y[k]);
                if t > 0 {
                    assert(x[0] < x[t]);
                }
            }
        }
        let xs = x.drop_first();
        let ys = y.drop_first();
        assert(xs.to_set() == ys.to_set()) by {
            assert forall|v: u32| xs.to_set().contains(v) implies ys.to_set().contains(v) by {
                let a = choose|a: int| 0 <= a < xs.len() && xs[a] == v;
                assert(x[a + 1] == v);
                assert(x[0] < x[a + 1]);
                assert(y.to_set().contains(v));
                let b = choose|b: int| 0 <= b < y.len() && y[b] == v;
                assert(b != 0);
                assert(ys[b - 1] == v);
            }
            assert forall|v: u32| ys.to_set().contains(v) implies xs.to_set().contains(v) by {
                let a = choose|a: int| 0 <= a < ys.len() && ys[a] == v;
                assert(y[a + 1] == v);
                assert(y[0] < y[a + 1]);
                assert(x.to_set().contains(v));
                let b = choose|b: int| 0 <= b < x.len() && x[b] == v;
                assert(b != 0);
                assert(xs[b - 1] == v);
            }
            assert(xs.to_set() =~= ys.to_set());
        }
        lemma_increasing_unique(xs, ys);
        assert(y.len() == x.len());
        assert(x =~= y) by {
            assert forall|a: int| 0 <= a < x.len() implies x[a] == y[a] by {
                if a > 0 {
                    assert(x[a] == xs[a - 1]);
                    assert(y[a] == ys[a - 1]);
                }
            }
        }
    }
}

/// An increasing sequence is the ascending enumeration of its values.
proof fn lemma_ascending(q: Seq<u32>)
    requires
        increasing(q),
    ensures
        ascending(q.to_set()) == q,
{
    let s = q.to_set();
    assert(increasing(q) && q.to_set() == s);
    let c = ascending(s);
    lemma_increasing_unique(c, q);
}

/// Every finite set of values has an ascending enumeration.
pub proof fn lemma_ascending_exists(s: Set<u32>)
    requires
        s.finite(),
    ensures
        increasing(ascending(s)),
        ascending(s).to_set() == s,
    decreases s.len(),
{
    if s.len() == 0 {
        let e = Seq::<u32>::empty();
        assert(e.to_set() =~= s);
        assert(increasing(e) && e.to_set() == s);
    } else {
        let leq = |a: u32, b: u32| a <= b;
        assert(vstd::relations::total_ordering(leq));
        s.find_unique_maximal_ensures(leq);
        let mx = s.find_unique_maximal(leq);
        s.lemma_maximal_equivalent_greatest(leq, mx);
        let rest = s.remove(mx);
        lemma_ascending_exists(rest);
        let q = ascending(rest).push(mx);
        let q0 = ascending(rest);
        assert forall|a: int, b: int| 0 <= a < b < q.len() implies q[a] < q[b] by {
            if b == q.len() - 1 {
                assert(q0.to_set().contains(q0[a]));
                assert(rest.contains(q0[a]));
                assert(leq(q0[a], mx));
            } else {
                assert(q[a] == q0[a] && q[b] == q0[b]);
            }
        }
        assert(q.to_set() =~= s) by {
            assert forall|v: u32| q.to_set().contains(v) implies s.contains(v) by {
                let i = choose|i: int| 0 <= i < q.len() && q[i] == v;
                if i < q0.len() {
                    assert(q0[i] == v);
                    assert(q0.to_set().contains(v));
                }
            }
            assert forall|v: u32| s.contains(v) implies q.to_set().contains(v) by {
                if v == mx {
                    assert(q[q.len() - 1] == v);
                } else {
                    assert(rest.contains(v));
                    assert(q0.to_set().contains(v));
                    let i = choose|i: int| 0 <= i < q0.len() && q0[i] == v;
                    assert(q[i] == v);
                }
            }
        }
        assert(increasing(q) && q.to_set() == s);
    }
}

/// The ascending enumeration of a finite set is empty exactly when the set is.
pub proof fn lemma_ascending_empty(s: Set<u32>)
    requires
        s.finite(),
    ensures
        (ascending(s).len() == 0) == (s == Set::<u32>::empty()),
        forall|i: int| 0 <= i < ascending(s).len() ==> s.contains(#[trigger] ascending(s)[i]),
        forall|v: u32| s.contains(v) ==> exists|i: int| 0 <= i < ascending(s).len() && ascending(s)[i] == v,
{
    lemma_ascending_exists(s);
    let q = ascending(s);
    if q.len() > 0 {
        assert(q.to_set().contains(q[0]));
    } else {
        assert(q.to_set() =~= Set::<u32>::empty());
    }
    assert forall|i: int| 0 <= i < q.len() implies s.contains(#[trigger] q[i]) by {
        assert(q.to_set().contains(q[i]));
    }
    assert forall|v: u32| s.contains(v) implies exists|i: int| 0 <= i < q.len() && q[i] == v by {
        assert(q.to_set().contains(v));
    }
}

/// No overlap entry is recorded exactly when no file id of `ids` has lines
/// that both PRs edit.
pub proof fn lemma_overlaps_through_empty(x: IndexModel, a: i32, b: i32, ids: Seq<u32>)
    ensures
        (overlaps_through(x, a, b, ids).len() == 0) == (forall|i: int| 0 <= i < ids.len() ==> !lines_meet(x, a, b, #[trigger] ids[i])),
    decreases ids.len(),
{
    if ids.len() > 0 {
        lemma_overlaps_through_empty(x, a, b, ids.drop_last());
        if !lines_meet(x, a, b, ids.last()) {
            assert forall|i: int| 0 <= i < ids.len() - 1 implies ids.drop_last()[i] == ids[i] by {}
        }
    }
}

/// Whether no change is a rename and no two changes have the same path.
pub open spec fn distinct_paths(cs: Seq<FileChange>) -> bool {
    &&& forall|k: int| 0 <= k < cs.len() ==> (#[trigger] cs[k]).original_path is None
    &&& forall|k1: int, k2: int| 0 <= k1 < k2 < cs.len() ==> (#[trigger] cs[k1]).path@ != (#[trigger] cs[k2]).path@
}

/// With distinct paths that are all listed, the line map holds, for each
/// change with edited lines, the change's lines under its path's id, and
/// nothing else.
pub proof fn lemma_line_map(paths: Seq<Seq<char>>, cs: Seq<FileChange>)
    requires
        paths.no_duplicates(),
        paths.len() <= u32::MAX,
        distinct_paths(cs),
        forall|k: int| 0 <= k < cs.len() ==> paths.contains(#[trigger] cs[k].path@),
    ensures
        forall|f: u32|
            #[trigger] line_map_of(paths, cs).contains_key(f) ==> exists|k: int|
                0 <= k < cs.len() && path_id(paths, #[trigger] cs[k].path@) == f && lines_of_ranges(cs[k].line_ranges@)
                    != Set::<u32>::empty(),
        forall|k: int|
            0 <= k < cs.len() && lines_of_ranges(cs[k].line_ranges@) != Set::<u32>::empty() ==> {
                let f = path_id(paths, #[trigger] cs[k].path@) as u32;
                &&& line_map_of(paths, cs).contains_key(f)
                &&& line_map_of(paths, cs)[f] == lines_of_ranges(cs[k].line_ranges@)
            },
    decreases cs.len(),
{
    if cs.len() > 0 {
        let c0 = cs.drop_last();
        assert(distinct_paths(c0)) by {
            assert forall|k1: int, k2: int| 0 <= k1 < k2 < c0.len() implies (#[trigger] c0[k1]).path@ != (#[trigger] c0[k2]).path@ by {
                assert(c0[k1] == cs[k1] && c0[k2] == cs[k2]);
            }
            assert forall|k: int| 0 <= k < c0.len() implies (#[trigger] c0[k]).original_path is None by {
                assert(c0[k] == cs[k]);
            }
        }
        assert forall|k: int| 0 <= k < c0.len() implies paths.contains(#[trigger] c0[k].path@) by {
            assert(c0[k] == cs[k]);
        }
        lemma_line_map(paths, c0);
        let last = cs.last();
        let n = cs.len() - 1;
        assert(paths.contains(cs[n].path@));
        let lf = path_id(paths, last.path@);
        assert(0 <= lf < paths.len() && paths[lf] == last.path@);
        let m0 = line_map_of(paths, c0);
        let m1 = line_map_of(paths, cs);
        assert forall|f: u32| #[trigger] m1.contains_key(f) implies exists|k: int|
            0 <= k < cs.len() && path_id(paths, #[trigger] cs[k].path@) == f && lines_of_ranges(cs[k].line_ranges@)
                != Set::<u32>::empty() by {
            if m0.contains_key(f) && !(lines_of_ranges(last.line_ranges@) != Set::<u32>::empty() && f == lf as u32) {
                let k = choose|k: int|
                    0 <= k < c0.len() && path_id(paths, #[trigger] c0[k].path@) == f && lines_of_ranges(c0[k].line_ranges@)
                        != Set::<u32>::empty();
                assert(c0[k] == cs[k]);
            } else {
                assert(cs[n] == last);
            }
        }
        assert forall|k: int|
            0 <= k < cs.len() && lines_of_ranges(cs[k].line_ranges@) != Set::<u32>::empty() implies {
                let f = path_id(paths, #[trigger] cs[k].path@) as u32;
                &&& m1.contains_key(f)
                &&& m1[f] == lines_of_ranges(cs[k].line_ranges@)
            } by {
            if k < n {
                assert(c0[k] == cs[k]);
                assert(paths.contains(cs[k].path@));
                let fk = path_id(paths, cs[k].path@);
                assert(0 <= fk < paths.len() && paths[fk] == cs[k].path@);
                assert(cs[k].path@ != cs[n].path@);
                assert(fk != lf);
                assert(fk as u32 != lf as u32);
            }
        }
    }
}

// ==================== Line runs ====================

/// Consecutive values merged into ranges: each value extends the last range
/// when it follows that range's end, and starts a new range otherwise.
pub open spec fn runs(q: Seq<u32>) -> Seq<LineRange>
    decreases q.len(),
{
    if q.len() == 0 {
        Seq::empty()
    } else {
        let init = runs(q.drop_last());
        let x = q.last();
        if init.len() > 0 && init.last().end + 1 == x {
            init.update(init.len() - 1, LineRange { start: init.last().start, end: x })
        } else {
            init.push(LineRange { start: x, end: x })
        }
    }
}

/// Whether line `v` lies in one of the ranges.
pub open spec fn in_some_range(rs: Seq<LineRange>, v: u32) -> bool {
    exists|k: int| 0 <= k < rs.len() && #[trigger] rs[k].start <= v && v <= rs[k].end
}

/// Merging increasing line numbers into runs gives ranges that cover
/// exactly those lines, each range non-empty, in increasing order, with a
/// gap of at least one line between consecutive ranges (so every run is
/// maximal).
pub proof fn law_runs_partition(q: Seq<u32>)
    requires
        increasing(q),
    ensures
        forall|k: int| 0 <= k < runs(q).len() ==> (#[trigger] runs(q)[k]).start <= runs(q)[k].end,
        forall|k: int| 0 <= k && k + 1 < runs(q).len() ==> (#[trigger] runs(q)[k]).end + 1 < runs(q)[k + 1].start,
        forall|v: u32| q.contains(v) <==> in_some_range(runs(q), v),
        q.len() > 0 ==> runs(q).len() > 0 && runs(q).last().end == q.last(),
    decreases q.len(),
{
    if q.len() > 0 {
        let q0 = q.drop_last();
        assert(increasing(q0));
        law_runs_partition(q0);
        let r0 = runs(q0);
        let r = runs(q);
        let x = q.last();
        if q0.len() > 0 {
            assert(q0.last() == q[q.len() - 2]);
            assert(q0.last() < x);
        }
        assert forall|v: u32| q.contains(v) <==> (q0.contains(v) || v == x) by {
            if q.contains(v) {
                let i = choose|i: int| 0 <= i < q.len() && q[i] == v;
                if i < q.len() - 1 {
                    assert(q0[i] == v);
                }
            }
            if q0.contains(v) {
                let i = choose|i: int| 0 <= i < q0.len() && q0[i] == v;
                assert(q[i] == v);
            }
            if v == x {
                assert(q[q.len() - 1] == v);
            }
        }
        if r0.len() > 0 && r0.last().end + 1 == x {
            let n = r0.len() - 1;
            assert(r == r0.update(n, LineRange { start: r0.last().start, end: x }));
            assert forall|v: u32| in_some_range(r0, v) || v == x <==> in_some_range(r, v) by {
                if in_some_range(r0, v) {
                    let k = choose|k: int| 0 <= k < r0.len() && #[trigger] r0[k].start <= v && v <= r0[k].end;
                    if k == n {
                        assert(r[n].start <= v && v <= r[n].end);
                    } else {
                        assert(r[k] == r0[k]);
                    }
                }
                if v == x {
                    assert(r[n].start <= v && v <= r[n].end);
                }
                if in_some_range(r, v) {
                    let k = choose|k: int| 0 <= k < r.len() && #[trigger] r[k].start <= v && v <= r[k].end;
                    if k == n {
                        if v != x {
                            assert(r0[n].start <= v && v <= r0[n].end);
                        }
                    } else {
                        assert(r0[k] == r[k]);
                    }
                }
            }
        } else {
            assert(r == r0.push(LineRange { start: x, end: x }));
            if r0.len() > 0 {
                assert(q0.len() > 0);
                assert(r0.last().end < x);
            }
            assert forall|v: u32| in_some_range(r0, v) || v == x <==> in_some_range(r, v) by {
                if in_some_range(r0, v) {
                    let k = choose|k: int| 0 <= k < r0.len() && #[trigger] r0[k].start <= v && v <= r0[k].end;
                    assert(r[k] == r0[k]);
                }
                if v == x {
                    assert(r[r0.len() as int].start <= v && v <= r[r0.len() as int].end);
                }
                if in_some_range(r, v) {
                    let k = choose|k: int| 0 <= k < r.len() && #[trigger] r[k].start <= v && v <= r[k].end;
                    if k < r0.len() {
                        assert(r0[k] == r[k]);
                    }
                }
            }
        }
    }
}

/// Converts a bitmap of line numbers into ranges, merging consecutive lines.
pub fn bitmap_to_ranges(bitmap: &RoaringBitmap) -> (r: Vec<LineRange>)
    ensures
        r@ == runs(ascending(bitmap_values(*bitmap))),
{
    let v = bitmap_to_vec(bitmap);
    proof {
        lemma_ascending(v@);
    }
    let mut ranges: Vec<LineRange> = Vec::new();
    let mut i: usize = 0;
    while i < v.len()
        invariant
            0 <= i <= v@.len(),
            increasing(v@),
            ranges@ == runs(v@.take(i as int)),
            i > 0 ==> ranges@.len() > 0 && ranges@.last().end == v@[i - 1],
        decreases v@.len() - i,
    {
        let x = v[i];
        let n = ranges.len();
        proof {
            assert(v@.take(i + 1).drop_last() =~= v@.take(i as int));
            assert(v@.take(i + 1).last() == x);
        }
        if n > 0 && (ranges[n - 1].end as u64) + 1 == x as u64 {
            let s = ranges[n - 1].start;
            ranges.set(n - 1, LineRange { start: s, end: x });
        } else {
            ranges.push(LineRange { start: x, end: x });
        }
        i = i + 1;
    }
    proof {
        assert(v@.take(v@.len() as int) =~= v@);
    }
    ranges
}

// ==================== The index ====================

/// The mathematical content of a bitmap index: the path of each file id,
/// the set of file ids each PR touches, and for each PR and file the set of
/// lines it edits there.
pub struct IndexModel {
    /// The path of each file id.
    pub paths: Seq<Seq<char>>,
    /// The file ids each PR touches.
    pub files: Map<i32, Set<u32>>,
    /// For each PR, the edited lines of each file that has any.
    pub lines: Map<i32, Map<u32, Set<u32>>>,
}

/// The id of a path: its position in the list of paths.
pub open spec fn path_id(paths: Seq<Seq<char>>, n: Seq<char>) -> int {
    choose|i: int| 0 <= i < paths.len() && paths[i] == n
}

/// Every file name (path or original path) that a change of some PR touches.
pub open spec fn names_in(m: Map<i32, Vec<FileChange>>) -> Set<Seq<char>> {
    Set::new(
        |n: Seq<char>|
            exists|id: i32, k: int|
                #![trigger m[id]@[k]]
                m.contains_key(id) && 0 <= k < m[id]@.len() && names_of(m[id]@[k]).contains(n),
    )
}

/// The ids of the files that a list of changes touches.
pub open spec fn file_ids_of(paths: Seq<Seq<char>>, cs: Seq<FileChange>) -> Set<u32> {
    Set::new(
        |f: u32|
            f < paths.len() && exists|k: int| 0 <= k < cs.len() && #[trigger] names_of(cs[k]).contains(paths[f as int]),
    )
}

/// The lines covered by a list of ranges.
pub open spec fn lines_of_ranges(rs: Seq<LineRange>) -> Set<u32> {
    Set::new(|l: u32| exists|t: int| 0 <= t < rs.len() && #[trigger] rs[t].start <= l && l <= rs[t].end)
}

/// The edited lines of each file of a list of changes (by the change's
/// path; a later change of the same file replaces an earlier one, and a
/// change without lines records nothing).
pub open spec fn line_map_of(paths: Seq<Seq<char>>, cs: Seq<FileChange>) -> Map<u32, Set<u32>>
    decreases cs.len(),
{
    if cs.len() == 0 {
        Map::empty()
    } else {
        let init = line_map_of(paths, cs.drop_last());
        let c = cs.last();
        let ls = lines_of_ranges(c.line_ranges@);
        if ls == Set::<u32>::empty() {
            init
        } else {
            init.insert(path_id(paths, c.path@) as u32, ls)
        }
    }
}

/// Whether `x` indexes the changes `m`: the paths are the file names of all
/// changes, each once, and each PR's file and line sets are those of its
/// changes.
pub open spec fn built_from(x: IndexModel, m: Map<i32, Vec<FileChange>>) -> bool {
    &&& x.paths.no_duplicates()
    &&& x.paths.to_set() == names_in(m)
    &&& x.files.dom() == m.dom()
    &&& x.lines.dom() == m.dom()
    &&& forall|id: i32| #[trigger] x.files.contains_key(id) ==> x.files[id] == file_ids_of(x.paths, m[id]@)
    &&& forall|id: i32| #[trigger] x.lines.contains_key(id) ==> x.lines[id] == line_map_of(x.paths, m[id]@)
}

/// The line sets of a map of line bitmaps.
pub open spec fn line_sets(h: Map<u32, RoaringBitmap>) -> Map<u32, Set<u32>> {
    Map::new(|f: u32| h.contains_key(f), |f: u32| bitmap_values(h[f]))
}

/// Pre-computed bitmaps of the files and lines that each PR changes.
pub struct PRBitmapIndex {
    file_paths: Vec<String>,
    pr_file_bitmaps: HashMap<i32, RoaringBitmap>,
    pr_line_bitmaps: HashMap<i32, HashMap<u32, RoaringBitmap>>,
}

/// Whether every file name of the changes is among `paths`, each path once.
pub open spec fn paths_cover(paths: Seq<Seq<char>>, cs: Seq<FileChange>) -> bool {
    &&& paths.no_duplicates()
    &&& paths.len() <= u32::MAX + 1
    &&& forall|k: int, n: Seq<char>| 0 <= k < cs.len() && #[trigger] names_of(cs[k]).contains(n) ==> paths.contains(n)
}

impl PRBitmapIndex {
    /// The content of the index.
    pub closed spec fn model(&self) -> IndexModel {
        IndexModel {
            paths: strs_view(self.file_paths@),
            files: Map::new(
                |k: i32| self.pr_file_bitmaps@.contains_key(k),
                |k: i32| bitmap_values(self.pr_file_bitmaps@[k]),
            ),
            lines: Map::new(
                |k: i32| self.pr_line_bitmaps@.contains_key(k),
                |k: i32| line_sets(self.pr_line_bitmaps@[k]@),
            ),
        }
    }
}

/// The position of the first string equal to `x`.
fn position_in(v: &Vec<String>, x: &str) -> (r: Option<usize>)
    ensures
        match r {
            Some(i) => i < v@.len() && v@[i as int]@ == x@ && forall|k: int| 0 <= k < i ==> v@[k]@ != x@,
            None => !strs_view(v@).contains(x@),
        },
{
    let mut i: usize = 0;
    while i < v.len()
        invariant
            0 <= i <= v@.len(),
            forall|k: int| 0 <= k < i ==> v@[k]@ != x@,
        decreases v@.len() - i,
    {
        if str_eq(v[i].as_str(), x) {
            return Some(i);
        }
        i = i + 1;
    }
    proof {
        if strs_view(v@).contains(x@) {
            let k = choose|k: int| 0 <= k < strs_view(v@).len() && strs_view(v@)[k] == x@;
            assert(v@[k]@ == x@);
        }
    }
    None
}

/// The id of a path that is among distinct paths.
fn find_id(paths: &Vec<String>, x: &str) -> (r: u32)
    requires
        strs_view(paths@).no_duplicates(),
        strs_view(paths@).contains(x@),
        paths@.len() <= u32::MAX + 1,
    ensures
        r < paths@.len(),
        r == path_id(strs_view(paths@), x@),
        paths@[r as int]@ == x@,
{
    let p = position_in(paths, x);
    match p {
        Some(i) => {
            proof {
                let ps = strs_view(paths@);
                let c = path_id(ps, x@);
                assert(ps[i as int] == x@);
                assert(0 <= c < ps.len() && ps[c] == x@);
                assert(c == i);
            }
            i as u32
        },
        None => {
            proof {
                assert(false);
            }
            0
        },
    }
}

/// The keys of a map, each once.
fn keys_of<V>(m: &HashMap<i32, V>) -> (r: Vec<i32>)
    ensures
        r@.no_duplicates(),
        r@.to_set() == m@.dom(),
{
    let mut out: Vec<i32> = Vec::new();
    proof {
        vstd::std_specs::hash::axiom_spec_keys_iter(m);
    }
    for k in it: m.keys()
        invariant
            it.seq().unref().to_set() == m@.dom(),
            it.seq().no_duplicates(),
            out@ == it.seq().subrange(0, it.index()).unref(),
            out@.no_duplicates(),
        ensures
            out@.no_duplicates(),
            out@ == it.seq().unref(),
    {
        out.push(*k);
        proof {
            let s = it.seq();
            let i = it.index();
            assert(out@ =~= s.subrange(0, i + 1).unref());
            assert forall|a: int, b: int| 0 <= a < b < out@.len() implies out@[a] != out@[b] by {
                assert(out@[a] == *s[a] && out@[b] == *s[b]);
            }
        }
    }
    out
}

/// The file names of the changes of the PRs `keys[..a]`, and of the first
/// `b` changes of PR `keys[a]`.
pub open spec fn names_through(m: Map<i32, Vec<FileChange>>, keys: Seq<i32>, a: int, b: int) -> Set<Seq<char>> {
    Set::new(
        |n: Seq<char>|
            exists|a2: int, k: int|
                #![trigger m[keys[a2]]@[k]]
                0 <= a2 < keys.len() && 0 <= k < m[keys[a2]]@.len() && (a2 < a || (a2 == a && k < b))
                    && names_of(m[keys[a2]]@[k]).contains(n),
    )
}

/// Appends the name unless it is already there.
fn add_path(paths: &mut Vec<String>, name: &String)
    requires
        strs_view(old(paths)@).no_duplicates(),
    ensures
        strs_view(final(paths)@).no_duplicates(),
        strs_view(final(paths)@).to_set() == strs_view(old(paths)@).to_set().insert(name@),
{
    let ghost before = strs_view(paths@);
    if position_in(paths, name.as_str()).is_none() {
        paths.push(name.clone());
        proof {
            let after = strs_view(paths@);
            assert(after =~= before.push(name@));
            assert forall|i: int, j: int| 0 <= i < j < after.len() implies after[i] != after[j] by {
                if j == after.len() - 1 {
                    assert(before[i] == after[i]);
                    assert(before.contains(before[i]));
                }
            }
            assert(after.to_set() =~= before.to_set().insert(name@)) by {
                assert forall|n: Seq<char>| after.to_set().contains(n) implies before.to_set().insert(name@).contains(n) by {
                    let i = choose|i: int| 0 <= i < after.len() && after[i] == n;
                    if i < before.len() {
                        assert(before[i] == n);
                    }
                }
                assert forall|n: Seq<char>| before.to_set().insert(name@).contains(n) implies after.to_set().contains(n) by {
                    if n == name@ {
                        assert(after[after.len() - 1] == n);
                    } else {
                        let i = choose|i: int| 0 <= i < before.len() && before[i] == n;
                        assert(after[i] == n);
                    }
                }
            }
        }
    } else {
        proof {
            assert(before.contains(name@)) by {
                let i = choose|i: int| 0 <= i < paths@.len() && paths@[i]@ == name@;
                assert(before[i] == name@);
            }
            assert(before.to_set().insert(name@) =~= before.to_set());
        }
    }
}

/// Every file name of the changes, each once, in the order of `keys` and
/// then of each PR's changes.
fn collect_paths(pr_changes: &HashMap<i32, Vec<FileChange>>, keys: &Vec<i32>) -> (paths: Vec<String>)
    requires
        keys@.to_set() == pr_changes@.dom(),
    ensures
        strs_view(paths@).no_duplicates(),
        strs_view(paths@).to_set() == names_in(pr_changes@),
{
    let ghost m = pr_changes@;
    let ghost ks = keys@;
    let mut paths: Vec<String> = Vec::new();
    proof {
        assert(strs_view(paths@).to_set() =~= names_through(m, ks, 0, 0));
    }
    let mut a: usize = 0;
    while a < keys.len()
        invariant
            0 <= a <= ks.len(),
            m == pr_changes@,
            ks == keys@,
            ks.to_set() == m.dom(),
            strs_view(paths@).no_duplicates(),
            strs_view(paths@).to_set() == names_through(m, ks, a as int, 0),
        decreases ks.len() - a,
    {
        let key = keys[a];
        proof {
            assert(ks.to_set().contains(key)) by {
                assert(ks[a as int] == key);
            }
        }
        let changes = pr_changes.get(&key).unwrap();
        let mut b: usize = 0;
        while b < changes.len()
            invariant
                0 <= b <= changes@.len(),
                0 <= a < ks.len(),
                key == ks[a as int],
                m.contains_key(key),
                changes@ == m[key]@,
                strs_view(paths@).no_duplicates(),
                strs_view(paths@).to_set() == names_through(m, ks, a as int, b as int),
            decreases changes@.len() - b,
        {
            let c = &changes[b];
            let ghost set0 = strs_view(paths@).to_set();
            add_path(&mut paths, &c.path);
            let ghost set1 = strs_view(paths@).to_set();
            match &c.original_path {
                Some(o) => {
                    add_path(&mut paths, o);
                },
                None => {},
            }
            proof {
                let nb = names_through(m, ks, a as int, b + 1);
                let ns = names_of(*c);
                assert(m[ks[a as int]]@[b as int] == *c);
                assert forall|n: Seq<char>| nb.contains(n) <==> strs_view(paths@).to_set().contains(n) by {
                    if nb.contains(n) {
                        let (a2, k) = choose|a2: int, k: int|
                            #![trigger m[ks[a2]]@[k]]
                            0 <= a2 < ks.len() && 0 <= k < m[ks[a2]]@.len() && (a2 < a || (a2 == a && k < b + 1))
                                && names_of(m[ks[a2]]@[k]).contains(n);
                        if a2 == a && k == b {
                            assert(ns.contains(n));
                        } else {
                            assert(names_through(m, ks, a as int, b as int).contains(n));
                        }
                    }
                    if strs_view(paths@).to_set().contains(n) {
                        if set0.contains(n) {
                            let (a2, k) = choose|a2: int, k: int|
                                #![trigger m[ks[a2]]@[k]]
                                0 <= a2 < ks.len() && 0 <= k < m[ks[a2]]@.len() && (a2 < a || (a2 == a && k < b))
                                    && names_of(m[ks[a2]]@[k]).contains(n);
                            assert(nb.contains(n));
                        } else {
                            assert(ns[0] == c.path@);
                            match c.original_path {
                                Some(o) => {
                                    assert(ns[1] == o@);
                                },
                                None => {},
                            }
                            assert(ns.contains(n));
                            assert(nb.contains(n));
                        }
                    }
                }
                assert(nb =~= strs_view(paths@).to_set());
            }
            b = b + 1;
        }
        a = a + 1;
        proof {
            let prev = names_through(m, ks, a - 1, b as int);
            let next = names_through(m, ks, a as int, 0);
            assert forall|n: Seq<char>| prev.contains(n) <==> next.contains(n) by {
                if prev.contains(n) {
                    let (a2, k) = choose|a2: int, k: int|
                        #![trigger m[ks[a2]]@[k]]
                        0 <= a2 < ks.len() && 0 <= k < m[ks[a2]]@.len() && (a2 < a - 1 || (a2 == a - 1 && k < b))
                            && names_of(m[ks[a2]]@[k]).contains(n);
                    assert(next.contains(n));
                }
                if next.contains(n) {
                    let (a2, k) = choose|a2: int, k: int|
                        #![trigger m[ks[a2]]@[k]]
                        0 <= a2 < ks.len() && 0 <= k < m[ks[a2]]@.len() && (a2 < a || (a2 == a && k < 0))
                            && names_of(m[ks[a2]]@[k]).contains(n);
                    assert(prev.contains(n));
                }
            }
            assert(prev =~= next);
        }
    }
    proof {
        let last = names_through(m, ks, ks.len() as int, 0);
        assert forall|n: Seq<char>| last.contains(n) <==> names_in(m).contains(n) by {
            if last.contains(n) {
                let (a2, k) = choose|a2: int, k: int|
                    #![trigger m[ks[a2]]@[k]]
                    0 <= a2 < ks.len() && 0 <= k < m[ks[a2]]@.len() && (a2 < ks.len() || (a2 == ks.len() && k < 0))
                        && names_of(m[ks[a2]]@[k]).contains(n);
                assert(ks.to_set().contains(ks[a2]));
                assert(names_in(m).contains(n));
            }
            if names_in(m).contains(n) {
                let (id, k) = choose|id: i32, k: int|
                    #![trigger m[id]@[k]]
                    m.contains_key(id) && 0 <= k < m[id]@.len() && names_of(m[id]@[k]).contains(n);
                assert(ks.to_set().contains(id));
                let a2 = choose|a2: int| 0 <= a2 < ks.len() && ks[a2] == id;
                assert(m[ks[a2]]@[k] == m[id]@[k]);
                assert(last.contains(n));
            }
        }
        assert(last =~= names_in(m));
    }
    paths
}

/// A bitmap of every line that the ranges cover.
fn ranges_bitmap(rs: &Vec<LineRange>) -> (r: RoaringBitmap)
    ensures
        bitmap_values(r) == lines_of_ranges(rs@),
{
    let mut b = bitmap_new();
    proof {
        assert(bitmap_values(b) =~= lines_of_ranges(rs@.take(0)));
    }
    let mut t: usize = 0;
    while t < rs.len()
        invariant
            0 <= t <= rs@.len(),
            bitmap_values(b) == lines_of_ranges(rs@.take(t as int)),
        decreases rs@.len() - t,
    {
        let range = rs[t];
        let ghost base = bitmap_values(b);
        let mut line: u64 = range.start as u64;
        proof {
            assert(bitmap_values(b) =~= base.union(Set::new(|l: u32| range.start <= l && l < line)));
        }
        while line <= range.end as u64
            invariant
                range.start <= line,
                line <= range.end as u64 + 1 || line == range.start,
                bitmap_values(b) == base.union(Set::new(|l: u32| range.start <= l && l < line)),
            decreases range.end as u64 + 1 - line,
        {
            let ghost before = bitmap_values(b);
            bitmap_insert(&mut b, line as u32);
            line = line + 1;
            proof {
                assert(bitmap_values(b) =~= base.union(Set::new(|l: u32| range.start <= l && l < line)));
            }
        }
        proof {
            let next = rs@.take(t + 1);
            assert forall|l: u32| lines_of_ranges(next).contains(l) <==> bitmap_values(b).contains(l) by {
                if lines_of_ranges(next).contains(l) {
                    let u = choose|u: int| 0 <= u < next.len() && #[trigger] next[u].start <= l && l <= next[u].end;
                    if u < t {
                        assert(rs@.take(t as int)[u] == next[u]);
                        assert(lines_of_ranges(rs@.take(t as int)).contains(l));
                    }
                }
                if bitmap_values(b).contains(l) {
                    if base.contains(l) {
                        let u = choose|u: int|
                            0 <= u < rs@.take(t as int).len() && #[trigger] rs@.take(t as int)[u].start <= l && l <= rs@.take(t as int)[u].end;
                        assert(next[u] == rs@.take(t as int)[u]);
                        assert(lines_of_ranges(next).contains(l));
                    } else {
                        assert(next[t as int] == range);
                        assert(lines_of_ranges(next).contains(l));
                    }
                }
            }
            assert(lines_of_ranges(next) =~= bitmap_values(b));
        }
        t = t + 1;
    }
    proof {
        assert(rs@.take(rs@.len() as int) =~= rs@);
    }
    b
}

/// The bitmap of the file ids that the changes touch.
fn file_bitmap_of(changes: &Vec<FileChange>, paths: &Vec<String>) -> (r: RoaringBitmap)
    requires
        paths_cover(strs_view(paths@), changes@),
    ensures
        bitmap_values(r) == file_ids_of(strs_view(paths@), changes@),
{
    let ghost ps = strs_view(paths@);
    let mut bitmap = bitmap_new();
    proof {
        assert(bitmap_values(bitmap) =~= file_ids_of(ps, changes@.take(0)));
    }
    let mut k: usize = 0;
    while k < changes.len()
        invariant
            0 <= k <= changes@.len(),
            ps == strs_view(paths@),
            paths_cover(ps, changes@),
            bitmap_values(bitmap) == file_ids_of(ps, changes@.take(k as int)),
        decreases changes@.len() - k,
    {
        let c = &changes[k];
        let ghost ns = names_of(*c);
        let ghost base = bitmap_values(bitmap);
        proof {
            assert(ns[0] == c.path@);
            assert(ns.contains(c.path@));
            assert(changes@[k as int] == *c);
        }
        let id = find_id(paths, c.path.as_str());
        bitmap_insert(&mut bitmap, id);
        let ghost mut added: Set<u32> = Set::empty().insert(id);
        match &c.original_path {
            Some(o) => {
                proof {
                    assert(ns[1] == o@);
                    assert(ns.contains(o@));
                }
                let oid = find_id(paths, o.as_str());
                bitmap_insert(&mut bitmap, oid);
                proof {
                    added = added.insert(oid);
                }
            },
            None => {},
        }
        proof {
            assert(bitmap_values(bitmap) =~= base.union(added));
            assert forall|f: u32| added.contains(f) <==> (f < ps.len() && ns.contains(ps[f as int])) by {
                if f < ps.len() && ns.contains(ps[f as int]) {
                    let i = choose|i: int| 0 <= i < ns.len() && ns[i] == ps[f as int];
                    if i == 0 {
                        assert(ps[f as int] == ps[id as int]);
                    } else {
                        match c.original_path {
                            Some(o) => {
                                let oid = path_id(ps, o@);
                                assert(ps[f as int] == ps[oid]);
                            },
                            None => {},
                        }
                    }
                }
                if added.contains(f) {
                    assert(ns.contains(ps[f as int])) by {
                        if f == id {
                            assert(ns[0] == ps[f as int]);
                        } else {
                            match c.original_path {
                                Some(o) => {
                                    assert(ns[1] == ps[f as int]);
                                },
                                None => {},
                            }
                        }
                    }
                }
            }
            let next = changes@.take(k + 1);
            assert forall|f: u32| file_ids_of(ps, next).contains(f) <==> base.union(added).contains(f) by {
                if file_ids_of(ps, next).contains(f) {
                    let u = choose|u: int| 0 <= u < next.len() && #[trigger] names_of(next[u]).contains(ps[f as int]);
                    if u < k {
                        assert(changes@.take(k as int)[u] == next[u]);
                        assert(file_ids_of(ps, changes@.take(k as int)).contains(f));
                    } else {
                        assert(next[u] == *c);
                    }
                }
                if base.contains(f) {
                    let u = choose|u: int|
                        0 <= u < changes@.take(k as int).len() && #[trigger] names_of(changes@.take(k as int)[u]).contains(ps[f as int]);
                    assert(next[u] == changes@.take(k as int)[u]);
                }
                if added.contains(f) {
                    assert(next[k as int] == *c);
                }
            }
            assert(file_ids_of(ps, next) =~= base.union(added));
        }
        k = k + 1;
    }
    proof {
        assert(changes@.take(changes@.len() as int) =~= changes@);
    }
    bitmap
}

/// The line bitmaps of each file of the changes.
fn line_bitmaps_of(changes: &Vec<FileChange>, paths: &Vec<String>) -> (r: HashMap<u32, RoaringBitmap>)
    requires
        paths_cover(strs_view(paths@), changes@),
    ensures
        line_sets(r@) == line_map_of(strs_view(paths@), changes@),
{
    let ghost ps = strs_view(paths@);
    let mut out: HashMap<u32, RoaringBitmap> = HashMap::new();
    proof {
        assert(line_sets(out@) =~= line_map_of(ps, changes@.take(0)));
    }
    let mut k: usize = 0;
    while k < changes.len()
        invariant
            0 <= k <= changes@.len(),
            ps == strs_view(paths@),
            paths_cover(ps, changes@),
            line_sets(out@) == line_map_of(ps, changes@.take(k as int)),
        decreases changes@.len() - k,
    {
        let c = &changes[k];
        proof {
            assert(names_of(*c)[0] == c.path@);
            assert(names_of(*c).contains(c.path@));
            assert(changes@[k as int] == *c);
        }
        let id = find_id(paths, c.path.as_str());
        let bitmap = ranges_bitmap(&c.line_ranges);
        let ghost before = out@;
        let empty = bitmap_is_empty(&bitmap);
        if !empty {
            out.insert(id, bitmap);
            proof {
                assert(line_sets(out@) =~= line_sets(before).insert(id, lines_of_ranges(c.line_ranges@)));
            }
        }
        proof {
            let next = changes@.take(k + 1);
            assert(next.drop_last() =~= changes@.take(k as int));
            assert(next.last() == *c);
        }
        k = k + 1;
    }
    proof {
        assert(changes@.take(changes@.len() as int) =~= changes@);
    }
    out
}

/// Whether the paths cover the names of every PR's changes.
pub open spec fn paths_cover_all(paths: Seq<Seq<char>>, m: Map<i32, Vec<FileChange>>) -> bool {
    forall|id: i32| #[trigger] m.contains_key(id) ==> paths_cover(paths, m[id]@)
}

/// `par_iter` (rayon) over the PRs' changes, each mapped to its file bitmap
/// by `file_bitmap_of`, collected into a map: one entry per PR, holding
/// what `file_bitmap_of` returns for that PR's changes.
#[verifier::external_body]
fn par_file_bitmaps(pr_changes: &HashMap<i32, Vec<FileChange>>, paths: &Vec<String>) -> (r: HashMap<i32, RoaringBitmap>)
    requires
        paths_cover_all(strs_view(paths@), pr_changes@),
    ensures
        r@.dom() == pr_changes@.dom(),
        forall|id: i32|
            #[trigger] r@.contains_key(id) ==> bitmap_values(r@[id]) == file_ids_of(strs_view(paths@), pr_changes@[id]@),
{
    pr_changes.par_iter().map(|(id, changes)| (*id, file_bitmap_of(changes, paths))).collect()
}

/// `par_iter` (rayon) over the PRs' changes, each mapped to its line bitmaps
/// by `line_bitmaps_of`, collected into a map: one entry per PR, holding
/// what `line_bitmaps_of` returns for that PR's changes.
#[verifier::external_body]
fn par_line_bitmaps(pr_changes: &HashMap<i32, Vec<FileChange>>, paths: &Vec<String>) -> (r: HashMap<
    i32,
    HashMap<u32, RoaringBitmap>,
>)
    requires
        paths_cover_all(strs_view(paths@), pr_changes@),
    ensures
        r@.dom() == pr_changes@.dom(),
        forall|id: i32|
            #[trigger] r@.contains_key(id) ==> line_sets(r@[id]@) == line_map_of(strs_view(paths@), pr_changes@[id]@),
{
    pr_changes.par_iter().map(|(id, changes)| (*id, line_bitmaps_of(changes, paths))).collect()
}

/// What holds of every index: each path once, ids that fit in `u32`, the
/// same PRs in the file and line maps, and file ids that name a path.
pub open spec fn model_wf(x: IndexModel) -> bool {
    &&& x.paths.no_duplicates()
    &&& x.paths.len() <= u32::MAX
    &&& x.files.dom() == x.lines.dom()
    &&& forall|id: i32, f: u32| x.files.contains_key(id) && #[trigger] x.files[id].contains(f) ==> f < x.paths.len()
}

/// The file ids two PRs have in common, ascending.
pub open spec fn shared_ids(x: IndexModel, a: i32, b: i32) -> Seq<u32> {
    ascending(x.files[a].intersect(x.files[b]))
}

/// The lines of file `f` that PRs `a` and `b` both edit.
pub open spec fn common_lines(x: IndexModel, a: i32, b: i32, f: u32) -> Set<u32> {
    x.lines[a][f].intersect(x.lines[b][f])
}

/// Whether PRs `a` and `b` both edit some line of file `f`.
pub open spec fn lines_meet(x: IndexModel, a: i32, b: i32, f: u32) -> bool {
    &&& x.lines[a].contains_key(f)
    &&& x.lines[b].contains_key(f)
    &&& common_lines(x, a, b, f) != Set::<u32>::empty()
}

/// For each of the file ids where both PRs edit a common line, the file's
/// path and those lines as ranges.
pub open spec fn overlaps_through(x: IndexModel, a: i32, b: i32, ids: Seq<u32>) -> Seq<(Seq<char>, Seq<LineRange>)>
    decreases ids.len(),
{
    if ids.len() == 0 {
        Seq::empty()
    } else {
        let init = overlaps_through(x, a, b, ids.drop_last());
        let f = ids.last();
        if lines_meet(x, a, b, f) {
            init.push((x.paths[f as int], runs(ascending(common_lines(x, a, b, f)))))
        } else {
            init
        }
    }
}

/// The category of PR `a` against the earlier PR `b` through the index:
/// independent unless both PRs are indexed and share a file; then the
/// shared files in id order, and dependent when some shared file has a
/// common edited line.
pub open spec fn indexed_category(x: IndexModel, a: i32, b: i32) -> CategoryView {
    if !x.files.contains_key(a) || !x.files.contains_key(b) {
        CategoryView::Independent
    } else {
        let ids = shared_ids(x, a, b);
        if ids.len() == 0 {
            CategoryView::Independent
        } else {
            let shared = ids.map_values(|f: u32| x.paths[f as int]);
            let ov = overlaps_through(x, a, b, ids);
            if ov.len() == 0 {
                CategoryView::PartiallyDependent(shared)
            } else {
                CategoryView::Dependent(shared, ov)
            }
        }
    }
}

impl PRBitmapIndex {
    #[verifier::type_invariant]
    closed spec fn inv(self) -> bool {
        model_wf(self.model())
    }

    /// Builds the index: an id for each file name (in the order the map is
    /// walked), then each PR's file bitmap, then its line bitmaps (those
    /// two in parallel over the PRs).
    pub fn build(pr_changes: &HashMap<i32, Vec<FileChange>>) -> (r: Self)
        requires
            names_in(pr_changes@).len() <= u32::MAX,
        ensures
            built_from(r.model(), pr_changes@),
            model_wf(r.model()),
    {
        let ghost m = pr_changes@;
        let keys = keys_of(pr_changes);
        let file_paths = collect_paths(pr_changes, &keys);
        let ghost ps = strs_view(file_paths@);
        proof {
            ps.unique_seq_to_set();
            assert forall|id: i32| #[trigger] m.contains_key(id) implies paths_cover(ps, m[id]@) by {
                assert forall|k: int, n: Seq<char>| 0 <= k < m[id]@.len() && #[trigger] names_of(m[id]@[k]).contains(n) implies ps.contains(n) by {
                    assert(names_in(m).contains(n));
                    assert(ps.to_set().contains(n));
                }
            }
        }
        let pr_file_bitmaps = par_file_bitmaps(pr_changes, &file_paths);
        let pr_line_bitmaps = par_line_bitmaps(pr_changes, &file_paths);
        let r = PRBitmapIndex { file_paths, pr_file_bitmaps, pr_line_bitmaps };
        proof {
            let x = r.model();
            assert(x.files.dom() =~= m.dom());
            assert(x.lines.dom() =~= m.dom());
        }
        r
    }

    /// The file bitmap of a PR, if the PR is indexed.
    pub fn get_file_bitmap(&self, pr_id: i32) -> (r: Option<&RoaringBitmap>)
        ensures
            match r {
                Some(b) => self.model().files.contains_key(pr_id) && bitmap_values(*b) == self.model().files[pr_id],
                None => !self.model().files.contains_key(pr_id),
            },
    {
        self.pr_file_bitmaps.get(&pr_id)
    }

    /// The line bitmap of a PR's file, if the PR edits lines there.
    pub fn get_line_bitmap(&self, pr_id: i32, file_id: u32) -> (r: Option<&RoaringBitmap>)
        ensures
            match r {
                Some(b) => self.model().lines.contains_key(pr_id) && self.model().lines[pr_id].contains_key(file_id)
                    && bitmap_values(*b) == self.model().lines[pr_id][file_id],
                None => !(self.model().lines.contains_key(pr_id) && self.model().lines[pr_id].contains_key(file_id)),
            },
    {
        match self.pr_line_bitmaps.get(&pr_id) {
            Some(inner) => inner.get(&file_id),
            None => None,
        }
    }

    /// The path of a file id, if the id is in use.
    pub fn get_file_path(&self, file_id: u32) -> (r: Option<&String>)
        ensures
            match r {
                Some(p) => file_id < self.model().paths.len() && p@ == self.model().paths[file_id as int],
                None => file_id >= self.model().paths.len(),
            },
    {
        if (file_id as usize) < self.file_paths.len() {
            Some(&self.file_paths[file_id as usize])
        } else {
            None
        }
    }

    /// The id of a path, if the path is indexed.
    pub fn get_file_id(&self, path: &str) -> (r: Option<u32>)
        ensures
            match r {
                Some(f) => f < self.model().paths.len() && self.model().paths[f as int] == path@,
                None => !self.model().paths.contains(path@),
            },
    {
        proof {
            use_type_invariant(self);
        }
        match position_in(&self.file_paths, path) {
            Some(i) => Some(i as u32),
            None => None,
        }
    }

    /// The dependency category of PR `current` against the earlier PR
    /// `previous`: bitmap intersection of their files, then of their lines
    /// in each shared file.
    pub fn compare(&self, current: i32, previous: i32) -> (r: DependencyCategory)
        ensures
            r@ == indexed_category(self.model(), current, previous),
    {
        proof {
            use_type_invariant(self);
        }
        let ghost x = self.model();
        let b1 = match self.get_file_bitmap(current) {
            Some(b) => b,
            None => {
                return DependencyCategory::Independent;
            },
        };
        let b2 = match self.get_file_bitmap(previous) {
            Some(b) => b,
            None => {
                return DependencyCategory::Independent;
            },
        };
        let overlap = bitmap_and(b1, b2);
        let ids = bitmap_to_vec(&overlap);
        proof {
            lemma_ascending(ids@);
            assert(ids@ == shared_ids(x, current, previous));
        }
        if bitmap_is_empty(&overlap) {
            proof {
                if ids@.len() > 0 {
                    assert(ids@.to_set().contains(ids@[0]));
                }
            }
            return DependencyCategory::Independent;
        }
        proof {
            if ids@.len() == 0 {
                assert(ids@.to_set() =~= Set::<u32>::empty());
            }
        }
        let mut shared_files: Vec<String> = Vec::new();
        let mut overlapping_files: Vec<OverlappingFile> = Vec::new();
        let mut k: usize = 0;
        while k < ids.len()
            invariant
                0 <= k <= ids@.len(),
                x == self.model(),
                model_wf(x),
                x.files.contains_key(current),
                x.files.contains_key(previous),
                ids@.to_set() == x.files[current].intersect(x.files[previous]),
                strs_view(shared_files@) == ids@.take(k as int).map_values(|f: u32| x.paths[f as int]),
                overlaps_view(overlapping_files@) == overlaps_through(x, current, previous, ids@.take(k as int)),
            decreases ids@.len() - k,
        {
            let f = ids[k];
            proof {
                assert(ids@.to_set().contains(f)) by {
                    assert(ids@[k as int] == f);
                }
                assert(x.files[current].contains(f));
            }
            let path = &self.file_paths[f as usize];
            let ghost sh0 = shared_files@;
            shared_files.push(path.clone());
            proof {
                assert(strs_view(shared_files@) =~= strs_view(sh0).push(path@));
                assert(ids@.take(k + 1).map_values(|f: u32| x.paths[f as int]) =~= ids@.take(k as int).map_values(
                    |f: u32| x.paths[f as int],
                ).push(x.paths[f as int]));
            }
            let ghost ov0 = overlapping_files@;
            let l1 = self.get_line_bitmap(current, f);
            let l2 = self.get_line_bitmap(previous, f);
            let mut met = false;
            match (l1, l2) {
                (Some(a), Some(b)) => {
                    let common = bitmap_and(a, b);
                    if !bitmap_is_empty(&common) {
                        let ranges = bitmap_to_ranges(&common);
                        overlapping_files.push(OverlappingFile { path: path.clone(), overlapping_ranges: ranges });
                        met = true;
                    }
                },
                _ => {},
            }
            proof {
                let t = ids@.take(k + 1);
                assert(t.drop_last() =~= ids@.take(k as int));
                assert(t.last() == f);
                if met {
                    assert(lines_meet(x, current, previous, f));
                    assert(overlaps_view(overlapping_files@) =~= overlaps_view(ov0).push(
                        (x.paths[f as int], runs(ascending(common_lines(x, current, previous, f)))),
                    ));
                } else {
                    assert(!lines_meet(x, current, previous, f));
                    assert(overlapping_files@ == ov0);
                }
            }
            k = k + 1;
        }
        proof {
            assert(ids@.take(ids@.len() as int) =~= ids@);
        }
        if overlapping_files.len() == 0 {
            DependencyCategory::PartiallyDependent { shared_files }
        } else {
            DependencyCategory::Dependent { shared_files, overlapping_files }
        }
    }
}

} // verus!
