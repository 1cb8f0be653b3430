//! Grouping of pull requests that share work items.
//!
//! The index maps each work item to the pull requests (by position) that
//! reference it and each pull request to its work items, so that selecting a
//! pull request can warn about related ones left unselected.

use vstd::prelude::*;
use std::collections::HashMap;
use crate::models::{PullRequestWithWorkItems, WorkItem};
use crate::text::{concat2, decimal_int, i32_to_decimal};

verus! {

broadcast use vstd::std_specs::hash::group_hash_axioms;

/// The work item ids of a pull request, in order.
pub open spec fn wi_ids(pr: PullRequestWithWorkItems) -> Seq<i32> {
    pr.work_items@.map_values(|w: WorkItem| w.id)
}

/// How many times `x` occurs in `s`.
pub open spec fn occurrences<T>(s: Seq<T>, x: T) -> nat
    decreases s.len(),
{
    if s.len() == 0 {
        0
    } else {
        occurrences(s.drop_last(), x) + if s.last() == x { 1nat } else { 0nat }
    }
}

/// The positions of the pull requests that reference work item `w`, in
/// ascending order, once per reference.
pub open spec fn referencing_prs(prs: Seq<PullRequestWithWorkItems>, w: i32) -> Seq<usize>
    decreases prs.len(),
{
    if prs.len() == 0 {
        Seq::empty()
    } else {
        let idx = (prs.len() - 1) as usize;
        referencing_prs(prs.drop_last(), w) + Seq::new(
            occurrences(wi_ids(prs.last()), w),
            |_k: int| idx,
        )
    }
}

/// Index mapping work item ids to pull request positions and back.
#[derive(Debug, Clone)]
pub struct WorkItemPrIndex {
    /// Work item id to the positions of the pull requests referencing it.
    pub work_item_to_prs: HashMap<i32, Vec<usize>>,
    /// Pull request position to the ids of its work items.
    pub pr_to_work_items: HashMap<usize, Vec<i32>>,
}

/// What the index holds after `build(prs)`.
pub open spec fn index_of(idx: WorkItemPrIndex, prs: Seq<PullRequestWithWorkItems>) -> bool {
    &&& forall|w: i32|
        #![trigger idx.work_item_to_prs@.contains_key(w)]
        idx.work_item_to_prs@.contains_key(w) <==> referencing_prs(prs, w).len() > 0
    &&& forall|w: i32|
        #![trigger idx.work_item_to_prs@[w]]
        idx.work_item_to_prs@.contains_key(w) ==> idx.work_item_to_prs@[w]@ == referencing_prs(prs, w)
    &&& forall|i: usize|
        #![trigger idx.pr_to_work_items@.contains_key(i)]
        idx.pr_to_work_items@.contains_key(i) <==> (i < prs.len() && wi_ids(prs[i as int]).len() > 0)
    &&& forall|i: usize|
        #![trigger idx.pr_to_work_items@[i]]
        idx.pr_to_work_items@.contains_key(i) ==> idx.pr_to_work_items@[i]@ == wi_ids(prs[i as int])
}

/// The work items recorded for a PR position (empty when none).
pub open spec fn items_of(idx: WorkItemPrIndex, p: usize) -> Seq<i32> {
    if idx.pr_to_work_items@.contains_key(p) {
        idx.pr_to_work_items@[p]@
    } else {
        Seq::empty()
    }
}

/// The PR positions recorded for a work item (empty when none).
pub open spec fn prs_of(idx: WorkItemPrIndex, w: i32) -> Seq<usize> {
    if idx.work_item_to_prs@.contains_key(w) {
        idx.work_item_to_prs@[w]@
    } else {
        Seq::empty()
    }
}

/// The PR positions, other than `p`, that share a work item with `p`
/// according to the index.
pub open spec fn related_set(idx: WorkItemPrIndex, p: usize) -> Set<usize> {
    Set::new(|q: usize| q != p && exists|w: i32| #[trigger] items_of(idx, p).contains(w) && prs_of(idx, w).contains(q))
}

/// Whether a sequence is strictly increasing.
pub open spec fn strictly_increasing(s: Seq<usize>) -> bool {
    forall|a: int, b: int| 0 <= a < b < s.len() ==> s[a] < s[b]
}

proof fn lemma_occurrences_push<T>(s: Seq<T>, x: T, w: T)
    ensures
        occurrences(s.push(x), w) == occurrences(s, w) + if x == w { 1nat } else { 0nat },
{
    assert(s.push(x).drop_last() =~= s);
}

proof fn lemma_occurrences_pos<T>(s: Seq<T>, w: T)
    ensures
        occurrences(s, w) > 0 <==> s.contains(w),
    decreases s.len(),
{
    if s.len() > 0 {
        lemma_occurrences_pos(s.drop_last(), w);
        if s.drop_last().contains(w) {
            let k = choose|k: int| 0 <= k < s.drop_last().len() && s.drop_last()[k] == w;
            assert(s[k] == w);
        }
        if s.contains(w) && s.last() != w {
            let k = choose|k: int| 0 <= k < s.len() && s[k] == w;
            assert(k < s.len() - 1);
            assert(s.drop_last()[k] == w);
        }
    }
}

/// A work item is referenced by PR position `q` exactly when `q` is in its
/// referencing list.
proof fn lemma_referencing_contains(prs: Seq<PullRequestWithWorkItems>, w: i32, q: usize)
    requires
        prs.len() <= usize::MAX,
    ensures
        referencing_prs(prs, w).contains(q) <==> (q < prs.len() && wi_ids(prs[q as int]).contains(w)),
    decreases prs.len(),
{
    if prs.len() > 0 {
        let init = prs.drop_last();
        let idx = (prs.len() - 1) as usize;
        lemma_referencing_contains(init, w, q);
        lemma_occurrences_pos(wi_ids(prs.last()), w);
        let a = referencing_prs(init, w);
        let b = Seq::new(occurrences(wi_ids(prs.last()), w), |_k: int| idx);
        let r = referencing_prs(prs, w);
        assert(r == a + b);
        if r.contains(q) {
            let k = choose|k: int| 0 <= k < r.len() && r[k] == q;
            if k < a.len() {
                assert(a[k] == q);
                assert(a.contains(q));
            } else {
                assert(b[k - a.len()] == q);
            }
        }
        if q < prs.len() && wi_ids(prs[q as int]).contains(w) {
            if q < idx {
                assert(init[q as int] == prs[q as int]);
                let k = choose|k: int| 0 <= k < a.len() && a[k] == q;
                assert(r[k] == q);
            } else {
                assert(q == idx);
                assert(b.len() > 0);
                assert(r[a.len() as int] == q);
            }
        }
    }
}

/// Whether two pull requests reference a common work item.
pub open spec fn share_work_item(a: PullRequestWithWorkItems, b: PullRequestWithWorkItems) -> bool {
    exists|w: i32| #[trigger] wi_ids(a).contains(w) && wi_ids(b).contains(w)
}

/// For an index built from `prs`, the PRs related to position `p` are
/// exactly the other positions whose PR shares a work item with PR `p`.
pub proof fn law_related_means_shared(idx: WorkItemPrIndex, prs: Seq<PullRequestWithWorkItems>, p: usize, q: usize)
    requires
        index_of(idx, prs),
        prs.len() <= usize::MAX,
    ensures
        related_set(idx, p).contains(q) <==> (q != p && p < prs.len() && q < prs.len() && share_work_item(
            prs[p as int],
            prs[q as int],
        )),
{
    if related_set(idx, p).contains(q) {
        let w = choose|w: i32| #[trigger] items_of(idx, p).contains(w) && prs_of(idx, w).contains(q);
        lemma_referencing_contains(prs, w, q);
        assert(idx.pr_to_work_items@.contains_key(p));
        assert(idx.work_item_to_prs@.contains_key(w));
        assert(wi_ids(prs[p as int]).contains(w) && wi_ids(prs[q as int]).contains(w));
    }
    if q != p && p < prs.len() && q < prs.len() && share_work_item(prs[p as int], prs[q as int]) {
        let w = choose|w: i32| #[trigger] wi_ids(prs[p as int]).contains(w) && wi_ids(prs[q as int]).contains(w);
        lemma_referencing_contains(prs, w, q);
        assert(referencing_prs(prs, w).len() > 0);
        assert(idx.work_item_to_prs@.contains_key(w));
        assert(wi_ids(prs[p as int]).len() > 0);
        assert(idx.pr_to_work_items@.contains_key(p));
        assert(items_of(idx, p).contains(w) && prs_of(idx, w).contains(q));
    }
}

/// For an index built from `prs`, relatedness is symmetric: `q` is related
/// to `p` exactly when `p` is related to `q`.
pub proof fn law_related_symmetric(idx: WorkItemPrIndex, prs: Seq<PullRequestWithWorkItems>, p: usize, q: usize)
    requires
        index_of(idx, prs),
        prs.len() <= usize::MAX,
    ensures
        related_set(idx, p).contains(q) <==> related_set(idx, q).contains(p),
{
    law_related_means_shared(idx, prs, p, q);
    law_related_means_shared(idx, prs, q, p);
    if share_work_item(prs[p as int], prs[q as int]) {
        let w = choose|w: i32| #[trigger] wi_ids(prs[p as int]).contains(w) && wi_ids(prs[q as int]).contains(w);
        assert(wi_ids(prs[q as int]).contains(w) && wi_ids(prs[p as int]).contains(w));
    }
    if share_work_item(prs[q as int], prs[p as int]) {
        let w = choose|w: i32| #[trigger] wi_ids(prs[q as int]).contains(w) && wi_ids(prs[p as int]).contains(w);
        assert(wi_ids(prs[p as int]).contains(w) && wi_ids(prs[q as int]).contains(w));
    }
}

impl WorkItemPrIndex {
    /// Builds the index from a list of PRs with work items.
    pub fn build(prs: &[PullRequestWithWorkItems]) -> (r: Self)
        ensures
            index_of(r, prs@),
    {
        let mut work_item_to_prs: HashMap<i32, Vec<usize>> = HashMap::new();
        let mut pr_to_work_items: HashMap<usize, Vec<i32>> = HashMap::new();
        let n = prs.len();
        let mut i: usize = 0;
        while i < prs.len()
            invariant
                0 <= i <= prs@.len(),
                n == prs@.len(),
                forall|w: i32|
                    #![trigger work_item_to_prs@.contains_key(w)]
                    work_item_to_prs@.contains_key(w) <==> referencing_prs(prs@.subrange(0, i as int), w).len() > 0,
                forall|w: i32|
                    #![trigger work_item_to_prs@[w]]
                    work_item_to_prs@.contains_key(w) ==> work_item_to_prs@[w]@ == referencing_prs(prs@.subrange(0, i as int), w),
                forall|p: usize|
                    #![trigger pr_to_work_items@.contains_key(p)]
                    pr_to_work_items@.contains_key(p) <==> (p < i && wi_ids(prs@[p as int]).len() > 0),
                forall|p: usize|
                    #![trigger pr_to_work_items@[p]]
                    pr_to_work_items@.contains_key(p) ==> pr_to_work_items@[p]@ == wi_ids(prs@[p as int]),
            decreases prs@.len() - i,
        {
            let pr = &prs[i];
            let ghost before = prs@.subrange(0, i as int);
            let ghost after = prs@.subrange(0, i as int + 1);
            proof {
                assert(after.drop_last() =~= before);
                assert(after.last() == prs@[i as int]);
            }
            let mut ids: Vec<i32> = Vec::new();
            let mut j: usize = 0;
            while j < pr.work_items.len()
                invariant
                    0 <= j <= pr.work_items@.len(),
                    i < prs@.len(),
                    pr == prs@[i as int],
                    ids@ == wi_ids(*pr).subrange(0, j as int),
                    before == prs@.subrange(0, i as int),
                    forall|w: i32|
                        #![trigger work_item_to_prs@.contains_key(w)]
                        work_item_to_prs@.contains_key(w) <==> (referencing_prs(before, w).len() + occurrences(ids@, w)) > 0,
                    forall|w: i32|
                        #![trigger work_item_to_prs@[w]]
                        work_item_to_prs@.contains_key(w) ==> work_item_to_prs@[w]@ == referencing_prs(before, w) + Seq::new(occurrences(ids@, w), |_k: int| i),
                decreases pr.work_items@.len() - j,
            {
                let w = pr.work_items[j].id;
                let ghost old_map = work_item_to_prs@;
                let ghost old_ids = ids@;
                let mut list = match work_item_to_prs.remove(&w) {
                    Some(v) => v,
                    None => Vec::new(),
                };
                proof {
                    if !old_map.contains_key(w) {
                        assert(referencing_prs(before, w).len() + occurrences(old_ids, w) == 0);
                        assert(list@ =~= referencing_prs(before, w) + Seq::new(occurrences(old_ids, w), |_k: int| i));
                    }
                }
                list.push(i);
                work_item_to_prs.insert(w, list);
                ids.push(w);
                j = j + 1;
                proof {
                    assert(ids@ == wi_ids(*pr).subrange(0, j as int));
                    assert forall|x: i32| #![trigger work_item_to_prs@.contains_key(x)]
                        work_item_to_prs@.contains_key(x) <==> (referencing_prs(before, x).len() + occurrences(ids@, x)) > 0 by {
                        lemma_occurrences_push(old_ids, w, x);
                    }
                    assert forall|x: i32| #![trigger work_item_to_prs@[x]]
                        work_item_to_prs@.contains_key(x) implies work_item_to_prs@[x]@ == referencing_prs(before, x) + Seq::new(occurrences(ids@, x), |_k: int| i) by {
                        lemma_occurrences_push(old_ids, w, x);
                        if x == w {
                            assert(work_item_to_prs@[x]@ =~= referencing_prs(before, x) + Seq::new(occurrences(ids@, x), |_k: int| i));
                        }
                    }
                }
            }
            proof {
                assert(ids@ =~= wi_ids(*pr));
                assert forall|w: i32| #![trigger work_item_to_prs@[w]]
                    work_item_to_prs@.contains_key(w) implies work_item_to_prs@[w]@ == referencing_prs(after, w) by {
                    assert(referencing_prs(after, w) == referencing_prs(before, w) + Seq::new(occurrences(wi_ids(*pr), w), |_k: int| i));
                }
                assert forall|w: i32| #![trigger work_item_to_prs@.contains_key(w)]
                    work_item_to_prs@.contains_key(w) <==> referencing_prs(after, w).len() > 0 by {
                    assert(referencing_prs(after, w) == referencing_prs(before, w) + Seq::new(occurrences(wi_ids(*pr), w), |_k: int| i));
                }
            }
            if ids.len() > 0 {
                pr_to_work_items.insert(i, ids);
            }
            i = i + 1;
        }
        proof {
            assert(prs@.subrange(0, prs@.len() as int) =~= prs@);
        }
        WorkItemPrIndex { work_item_to_prs, pr_to_work_items }
    }

    /// The positions of the PRs that reference a work item (empty if none).
    pub fn get_prs_for_work_item(&self, work_item_id: i32) -> (r: &[usize])
        ensures
            r@ == prs_of(*self, work_item_id),
    {
        match self.work_item_to_prs.get(&work_item_id) {
            Some(v) => v.as_slice(),
            None => &[],
        }
    }

    /// The work item ids of a PR position (empty if none).
    pub fn get_work_items_for_pr(&self, pr_index: usize) -> (r: &[i32])
        ensures
            r@ == items_of(*self, pr_index),
    {
        match self.pr_to_work_items.get(&pr_index) {
            Some(v) => v.as_slice(),
            None => &[],
        }
    }

    /// Whether a work item is referenced more than once.
    pub fn is_shared_work_item(&self, work_item_id: i32) -> (r: bool)
        ensures
            r == (prs_of(*self, work_item_id).len() > 1),
    {
        match self.work_item_to_prs.get(&work_item_id) {
            Some(v) => v.len() > 1,
            None => false,
        }
    }

    /// All PR positions other than `pr_index` that share a work item with it,
    /// sorted ascending without duplicates.
    pub fn get_related_pr_indices(&self, pr_index: usize) -> (r: Vec<usize>)
        ensures
            strictly_increasing(r@),
            r@.to_set() == related_set(*self, pr_index),
    {
        let mut related: Vec<usize> = Vec::new();
        let items = self.get_work_items_for_pr(pr_index);
        let mut a: usize = 0;
        while a < items.len()
            invariant
                0 <= a <= items@.len(),
                items@ == items_of(*self, pr_index),
                strictly_increasing(related@),
                forall|q: usize| #[trigger] related@.contains(q) <==> (q != pr_index && covered(*self, items@.subrange(0, a as int), q)),
            decreases items@.len() - a,
        {
            let w = items[a];
            let list = self.get_prs_for_work_item(w);
            let ghost rel_before = related@;
            let mut b: usize = 0;
            while b < list.len()
                invariant
                    0 <= b <= list@.len(),
                    list@ == prs_of(*self, w),
                    strictly_increasing(related@),
                    forall|q: usize| #[trigger] related@.contains(q) <==> (rel_before.contains(q) || (q != pr_index
                        && list@.subrange(0, b as int).contains(q))),
                decreases list@.len() - b,
            {
                let q = list[b];
                let ghost mid = related@;
                if q != pr_index {
                    insert_sorted_unique(&mut related, q);
                }
                proof {
                    assert forall|x: usize| #[trigger] related@.contains(x) <==> (rel_before.contains(x) || (x != pr_index
                        && list@.subrange(0, b as int + 1).contains(x))) by {
                        lemma_prefix_contains(list@, b as int, x);
                        assert(mid.contains(x) <==> (rel_before.contains(x) || (x != pr_index && list@.subrange(0, b as int).contains(x))));
                    }
                }
                b = b + 1;
            }
            proof {
                assert(list@.subrange(0, list@.len() as int) =~= list@);
                assert forall|q: usize| #[trigger] related@.contains(q) <==> (q != pr_index && covered(*self, items@.subrange(0, a as int + 1), q)) by {
                    lemma_covered_push(*self, items@.subrange(0, a as int), w, q);
                    assert(items@.subrange(0, a as int + 1) =~= items@.subrange(0, a as int).push(w));
                    assert(rel_before.contains(q) <==> (q != pr_index && covered(*self, items@.subrange(0, a as int), q)));
                }
            }
            a = a + 1;
        }
        proof {
            assert(items@.subrange(0, items@.len() as int) =~= items@);
            assert forall|q: usize| related@.to_set().contains(q) <==> related_set(*self, pr_index).contains(q) by {
                assert(related@.contains(q) <==> (q != pr_index && covered(*self, items@, q)));
                if related_set(*self, pr_index).contains(q) {
                    let w = choose|w: i32| #[trigger] items_of(*self, pr_index).contains(w) && prs_of(*self, w).contains(q);
                    let k = choose|k: int| 0 <= k < items@.len() && items@[k] == w;
                    assert(prs_of(*self, items@[k]).contains(q));
                }
                if covered(*self, items@, q) {
                    let k = choose|k: int| 0 <= k < items@.len() && #[trigger] prs_of(*self, items@[k]).contains(q);
                    assert(items_of(*self, pr_index).contains(items@[k]));
                }
            }
            assert(related@.to_set() =~= related_set(*self, pr_index));
        }
        related
    }

    /// The work item ids of PR `b` that PR `a` also references, in `b`'s
    /// order.
    pub fn get_shared_work_items(&self, pr_index_a: usize, pr_index_b: usize) -> (r: Vec<i32>)
        ensures
            r@ == shared_items(items_of(*self, pr_index_a), items_of(*self, pr_index_b)),
    {
        if !self.pr_to_work_items.contains_key(&pr_index_a) || !self.pr_to_work_items.contains_key(&pr_index_b) {
            proof {
                if !self.pr_to_work_items@.contains_key(pr_index_a) {
                    lemma_shared_empty_left(items_of(*self, pr_index_b));
                } else {
                    assert(items_of(*self, pr_index_b) =~= Seq::<i32>::empty());
                }
            }
            return Vec::new();
        }
        let a = self.get_work_items_for_pr(pr_index_a);
        let b = self.get_work_items_for_pr(pr_index_b);
        let mut out: Vec<i32> = Vec::new();
        let mut k: usize = 0;
        while k < b.len()
            invariant
                0 <= k <= b@.len(),
                a@ == items_of(*self, pr_index_a),
                b@ == items_of(*self, pr_index_b),
                out@ == shared_items(a@, b@.subrange(0, k as int)),
            decreases b@.len() - k,
        {
            proof {
                assert(b@.subrange(0, k as int + 1).drop_last() =~= b@.subrange(0, k as int));
            }
            if slice_contains_i32(a, b[k]) {
                out.push(b[k]);
            }
            k = k + 1;
        }
        proof {
            assert(b@.subrange(0, b@.len() as int) =~= b@);
        }
        out
    }
}

/// The elements of `b`, in order, that also occur in `a`.
pub open spec fn shared_items(a: Seq<i32>, b: Seq<i32>) -> Seq<i32>
    decreases b.len(),
{
    if b.len() == 0 {
        Seq::empty()
    } else {
        let init = shared_items(a, b.drop_last());
        if a.contains(b.last()) {
            init.push(b.last())
        } else {
            init
        }
    }
}

proof fn lemma_shared_empty_left(b: Seq<i32>)
    ensures
        shared_items(Seq::empty(), b) == Seq::<i32>::empty(),
    decreases b.len(),
{
    if b.len() > 0 {
        lemma_shared_empty_left(b.drop_last());
    }
}

fn slice_contains_i32(s: &[i32], x: i32) -> (r: bool)
    ensures
        r == s@.contains(x),
{
    let mut i: usize = 0;
    while i < s.len()
        invariant
            0 <= i <= s@.len(),
            forall|k: int| 0 <= k < i ==> s@[k] != x,
        decreases s@.len() - i,
    {
        if s[i] == x {
            assert(s@[i as int] == x);
            return true;
        }
        i = i + 1;
    }
    false
}

/// Whether some work item of `ws` is referenced by PR position `q`.
pub open spec fn covered(idx: WorkItemPrIndex, ws: Seq<i32>, q: usize) -> bool {
    exists|k: int| 0 <= k < ws.len() && #[trigger] prs_of(idx, ws[k]).contains(q)
}

proof fn lemma_covered_push(idx: WorkItemPrIndex, ws: Seq<i32>, w: i32, q: usize)
    ensures
        covered(idx, ws.push(w), q) <==> (covered(idx, ws, q) || prs_of(idx, w).contains(q)),
{
    let ws2 = ws.push(w);
    if covered(idx, ws, q) {
        let k = choose|k: int| 0 <= k < ws.len() && #[trigger] prs_of(idx, ws[k]).contains(q);
        assert(ws2[k] == ws[k]);
        assert(prs_of(idx, ws2[k]).contains(q));
    }
    if prs_of(idx, w).contains(q) {
        assert(ws2[ws.len() as int] == w);
        assert(prs_of(idx, ws2[ws.len() as int]).contains(q));
    }
    if covered(idx, ws2, q) {
        let k = choose|k: int| 0 <= k < ws2.len() && #[trigger] prs_of(idx, ws2[k]).contains(q);
        if k < ws.len() {
            assert(ws[k] == ws2[k]);
            assert(prs_of(idx, ws[k]).contains(q));
        }
    }
}

proof fn lemma_prefix_contains<T>(s: Seq<T>, b: int, x: T)
    requires
        0 <= b < s.len(),
    ensures
        s.subrange(0, b + 1).contains(x) <==> (s.subrange(0, b).contains(x) || s[b] == x),
{
    let p1 = s.subrange(0, b + 1);
    let p0 = s.subrange(0, b);
    if p1.contains(x) {
        let k = choose|k: int| 0 <= k < p1.len() && p1[k] == x;
        if k < b {
            assert(p0[k] == x);
        }
    }
    if p0.contains(x) {
        let k = choose|k: int| 0 <= k < p0.len() && p0[k] == x;
        assert(p1[k] == x);
    }
    if s[b] == x {
        assert(p1[b] == x);
    }
}

proof fn lemma_filter_increasing(s: Seq<usize>, p: spec_fn(usize) -> bool)
    requires
        strictly_increasing(s),
    ensures
        strictly_increasing(s.filter(p)),
    decreases s.len(),
{
    reveal(Seq::filter);
    if s.len() > 0 {
        let init = s.drop_last();
        lemma_filter_increasing(init, p);
        let f = init.filter(p);
        if p(s.last()) {
            let g = f.push(s.last());
            assert forall|a: int, b: int| 0 <= a < b < g.len() implies g[a] < g[b] by {
                if b == g.len() - 1 {
                    assert(f.contains(f[a]));
                    init.lemma_filter_contains_rev(p, f[a]);
                    let k = choose|k: int| 0 <= k < init.len() && init[k] == f[a];
                    assert(s[k] < s[s.len() - 1]);
                }
            }
        }
    }
}

proof fn lemma_filter_membership<T>(s: Seq<T>, p: spec_fn(T) -> bool, x: T)
    ensures
        s.filter(p).contains(x) <==> (s.contains(x) && p(x)),
{
    broadcast use vstd::seq_lib::group_filter_ensures;
    if s.filter(p).contains(x) {
        s.lemma_filter_contains_rev(p, x);
        let k = choose|k: int| 0 <= k < s.filter(p).len() && s.filter(p)[k] == x;
        s.lemma_filter_pred(p, k);
    }
    if s.contains(x) && p(x) {
        let k = choose|k: int| 0 <= k < s.len() && s[k] == x;
        s.lemma_filter_contains(p, k);
    }
}

/// Inserts `x` into a strictly increasing vector, keeping it strictly
/// increasing; the set of elements gains `x`.
pub fn insert_sorted_unique(v: &mut Vec<usize>, x: usize)
    requires
        strictly_increasing(old(v)@),
    ensures
        strictly_increasing(final(v)@),
        forall|y: usize| final(v)@.contains(y) <==> (old(v)@.contains(y) || y == x),
{
    let mut pos: usize = 0;
    while pos < v.len() && v[pos] < x
        invariant
            0 <= pos <= v@.len(),
            v@ == old(v)@,
            strictly_increasing(v@),
            forall|k: int| 0 <= k < pos ==> v@[k] < x,
        decreases v@.len() - pos,
    {
        pos = pos + 1;
    }
    if pos < v.len() && v[pos] == x {
        proof {
            assert(v@[pos as int] == x);
        }
    } else {
    let ghost before = v@;
    v.insert(pos, x);
    proof {
        assert(pos < before.len() ==> before[pos as int] > x);
        assert forall|a: int, b: int| 0 <= a < b < v@.len() implies v@[a] < v@[b] by {
            if b < pos {
                assert(v@[a] == before[a] && v@[b] == before[b]);
            } else if b == pos {
                assert(v@[a] == before[a]);
            } else if a < pos {
                assert(v@[a] == before[a] && v@[b] == before[b - 1]);
                assert(before[a] < x);
                assert(before[pos as int] <= before[b - 1]);
            } else if a == pos {
                assert(v@[b] == before[b - 1]);
                assert(before[pos as int] <= before[b - 1]);
            } else {
                assert(v@[a] == before[a - 1] && v@[b] == before[b - 1]);
            }
        }
        assert forall|y: usize| v@.contains(y) <==> (before.contains(y) || y == x) by {
            if v@.contains(y) {
                let k = choose|k: int| 0 <= k < v@.len() && v@[k] == y;
                if k < pos {
                    assert(before[k] == y);
                } else if k > pos {
                    assert(before[k - 1] == y);
                }
            }
            if before.contains(y) {
                let k = choose|k: int| 0 <= k < before.len() && before[k] == y;
                if k < pos {
                    assert(v@[k] == y);
                } else {
                    assert(v@[k + 1] == y);
                }
            }
            if y == x {
                assert(v@[pos as int] == x);
            }
        }
        assert(before == old(v)@);
    }
    }
    assert(strictly_increasing(v@));
    assert(forall|y: usize| v@.contains(y) <==> (old(v)@.contains(y) || y == x));
}

/// A warning that selecting a PR leaves related PRs unselected.
#[derive(Debug, Clone)]
pub struct SelectionWarning {
    /// The PR index being selected.
    pub selected_pr_index: usize,
    /// Related PR indices that are not currently selected.
    pub unselected_related_prs: Vec<usize>,
    /// Work item id to the unselected PR indices that share it.
    pub shared_work_items: HashMap<i32, Vec<usize>>,
}

/// Whether position `q` holds an unselected PR.
pub open spec fn is_unselected(prs: Seq<PullRequestWithWorkItems>, q: usize) -> bool {
    q < prs.len() && !prs[q as int].selected
}

/// The related PRs of `p` that are unselected, ascending.
pub open spec fn unselected_related(
    prs: Seq<PullRequestWithWorkItems>,
    related: Seq<usize>,
) -> Seq<usize> {
    related.filter(|q: usize| is_unselected(prs, q))
}

/// Checks whether selecting PR `pr_index` leaves related PRs unselected.
///
/// Returns `None` when no related PR is unselected; otherwise the warning
/// lists the unselected related PRs in ascending order and, for each work
/// item of the PR shared with one of them, those PRs in index order.
pub fn check_selection_warning(
    prs: &[PullRequestWithWorkItems],
    index: &WorkItemPrIndex,
    pr_index: usize,
) -> (r: Option<SelectionWarning>)
    ensures
        ({
            let rel = related_set(*index, pr_index);
            let unsel = rel.filter(|q: usize| is_unselected(prs@, q));
            match r {
                None => unsel =~= Set::empty(),
                Some(w) => {
                    &&& w.selected_pr_index == pr_index
                    &&& strictly_increasing(w.unselected_related_prs@)
                    &&& w.unselected_related_prs@.to_set() == unsel
                    &&& unsel != Set::<usize>::empty()
                    &&& forall|wi: i32| #![trigger w.shared_work_items@.contains_key(wi)]
                        w.shared_work_items@.contains_key(wi) ==> {
                            &&& items_of(*index, pr_index).contains(wi)
                            &&& w.shared_work_items@[wi]@ == prs_of(*index, wi).filter(|q: usize| q != pr_index && unsel.contains(q))
                            &&& w.shared_work_items@[wi]@.len() > 0
                        }
                    &&& forall|wi: i32| #![trigger items_of(*index, pr_index).contains(wi)]
                        items_of(*index, pr_index).contains(wi)
                        && prs_of(*index, wi).filter(|q: usize| q != pr_index && unsel.contains(q)).len() > 0
                        ==> w.shared_work_items@.contains_key(wi)
                },
            }
        }),
{
    let related = index.get_related_pr_indices(pr_index);
    let ghost rel = related_set(*index, pr_index);
    let ghost unsel = rel.filter(|q: usize| is_unselected(prs@, q));
    let ghost pred = |q: usize| is_unselected(prs@, q);
    let mut unselected: Vec<usize> = Vec::new();
    let mut i: usize = 0;
    while i < related.len()
        invariant
            0 <= i <= related@.len(),
            pred == (|q: usize| is_unselected(prs@, q)),
            unselected@ == related@.subrange(0, i as int).filter(pred),
        decreases related@.len() - i,
    {
        let q = related[i];
        proof {
            reveal(Seq::filter);
            assert(related@.subrange(0, i as int + 1).drop_last() =~= related@.subrange(0, i as int));
        }
        let unsel_q = q < prs.len() && !prs[q].selected;
        if unsel_q {
            unselected.push(q);
        }
        i = i + 1;
    }
    proof {
        assert(related@.subrange(0, related@.len() as int) =~= related@);
        lemma_filter_increasing(related@, pred);
        assert forall|q: usize| unselected@.to_set().contains(q) <==> unsel.contains(q) by {
            lemma_filter_membership(related@, pred, q);
            assert(related@.contains(q) <==> rel.contains(q));
        }
        assert(unselected@.to_set() =~= unsel);
    }
    if unselected.len() == 0 {
        proof {
            assert forall|q: usize| !unsel.contains(q) by {
                if unsel.contains(q) {
                    assert(unselected@.to_set().contains(q));
                }
            }
            assert(unsel =~= Set::empty());
        }
        return None;
    }
    proof {
        assert(unselected@.to_set().contains(unselected@[0]));
        assert(unsel.contains(unselected@[0]));
    }
    let mut shared: HashMap<i32, Vec<usize>> = HashMap::new();
    let items = index.get_work_items_for_pr(pr_index);
    let mut a: usize = 0;
    while a < items.len()
        invariant
            0 <= a <= items@.len(),
            items@ == items_of(*index, pr_index),
            unselected@.to_set() == unsel,
            forall|wi: i32| #![trigger shared@.contains_key(wi)]
                shared@.contains_key(wi) ==> {
                    &&& items_of(*index, pr_index).contains(wi)
                    &&& shared@[wi]@ == prs_of(*index, wi).filter(|q: usize| q != pr_index && unsel.contains(q))
                    &&& shared@[wi]@.len() > 0
                },
            forall|k: int| 0 <= k < a && prs_of(*index, #[trigger] items@[k]).filter(|q: usize| q != pr_index && unsel.contains(q)).len() > 0
                ==> shared@.contains_key(items@[k]),
        decreases items@.len() - a,
    {
        let w = items[a];
        let list = index.get_prs_for_work_item(w);
        let mut picked: Vec<usize> = Vec::new();
        let mut b: usize = 0;
        while b < list.len()
            invariant
                0 <= b <= list@.len(),
                list@ == prs_of(*index, w),
                unselected@.to_set() == unsel,
                picked@ == list@.subrange(0, b as int).filter(|q: usize| q != pr_index && unsel.contains(q)),
            decreases list@.len() - b,
        {
            let q = list[b];
            proof {
                let f = |q: usize| q != pr_index && unsel.contains(q);
                reveal(Seq::filter);
                assert(list@.subrange(0, b as int + 1) =~= list@.subrange(0, b as int).push(q));
                assert(list@.subrange(0, b as int).push(q).drop_last() =~= list@.subrange(0, b as int));
            }
            if q != pr_index && vec_contains_usize(&unselected, q) {
                proof {
                    assert(unselected@.to_set().contains(q));
                }
                picked.push(q);
            } else {
                proof {
                    if q != pr_index && unsel.contains(q) {
                        assert(unselected@.to_set().contains(q));
                    }
                }
            }
            b = b + 1;
        }
        proof {
            assert(list@.subrange(0, list@.len() as int) =~= list@);
        }
        if picked.len() > 0 {
            proof {
                assert(items_of(*index, pr_index).contains(w)) by {
                    assert(items@[a as int] == w);
                }
            }
            shared.insert(w, picked);
        }
        a = a + 1;
    }
    proof {
        assert forall|wi: i32| #![trigger items_of(*index, pr_index).contains(wi)]
            items_of(*index, pr_index).contains(wi)
            && prs_of(*index, wi).filter(|q: usize| q != pr_index && unsel.contains(q)).len() > 0
            implies shared@.contains_key(wi) by {
            let k = choose|k: int| 0 <= k < items@.len() && items@[k] == wi;
            assert(prs_of(*index, items@[k]).filter(|q: usize| q != pr_index && unsel.contains(q)).len() > 0);
        }
    }
    Some(SelectionWarning {
        selected_pr_index: pr_index,
        unselected_related_prs: unselected,
        shared_work_items: shared,
    })
}

fn vec_contains_usize(v: &Vec<usize>, x: usize) -> (r: bool)
    ensures
        r == v@.contains(x),
{
    let mut i: usize = 0;
    while i < v.len()
        invariant
            0 <= i <= v@.len(),
            forall|k: int| 0 <= k < i ==> v@[k] != x,
        decreases v@.len() - i,
    {
        if v[i] == x {
            assert(v@[i as int] == x);
            return true;
        }
        i = i + 1;
    }
    false
}

/// The title of the first work item with the given id, in PR order and then
/// work item order: `Some(title)` when found (the title itself may be absent).
pub open spec fn first_title(prs: Seq<PullRequestWithWorkItems>, id: i32) -> Option<Option<String>>
    decreases prs.len(),
{
    if prs.len() == 0 {
        None
    } else {
        match first_title_in(prs[0].work_items@, id) {
            Some(t) => Some(t),
            None => first_title(prs.drop_first(), id),
        }
    }
}

/// The title of the first work item of `wis` with the given id.
pub open spec fn first_title_in(wis: Seq<WorkItem>, id: i32) -> Option<Option<String>>
    decreases wis.len(),
{
    if wis.len() == 0 {
        None
    } else if wis[0].id == id {
        Some(wis[0].fields.title)
    } else {
        first_title_in(wis.drop_first(), id)
    }
}

/// The placeholder title of a work item with no known title.
pub open spec fn placeholder_title(id: i32) -> Seq<char> {
    "Work Item #"@ + decimal_int(id as int)
}

/// Gets a work item's title from the PRs, or a placeholder naming its id.
pub fn get_work_item_title(prs: &[PullRequestWithWorkItems], work_item_id: i32) -> (r: String)
    ensures
        r@ == match first_title(prs@, work_item_id) {
            Some(Some(t)) => t@,
            _ => placeholder_title(work_item_id),
        },
{
    proof {
        assert(prs@.subrange(0, prs@.len() as int) =~= prs@);
    }
    let mut i: usize = 0;
    while i < prs.len()
        invariant
            0 <= i <= prs@.len(),
            first_title(prs@, work_item_id) == first_title(prs@.subrange(i as int, prs@.len() as int), work_item_id),
        decreases prs@.len() - i,
    {
        let ghost rest = prs@.subrange(i as int, prs@.len() as int);
        let wis = &prs[i].work_items;
        proof {
            assert(wis@.subrange(0, wis@.len() as int) =~= wis@);
        }
        let mut j: usize = 0;
        while j < wis.len()
            invariant
                0 <= j <= wis@.len(),
                i < prs@.len(),
                wis == prs@[i as int].work_items,
                rest == prs@.subrange(i as int, prs@.len() as int),
                first_title(prs@, work_item_id) == first_title(rest, work_item_id),
                first_title_in(wis@, work_item_id) == first_title_in(wis@.subrange(j as int, wis@.len() as int), work_item_id),
            decreases wis@.len() - j,
        {
            proof {
                let s = wis@.subrange(j as int, wis@.len() as int);
                assert(s.drop_first() =~= wis@.subrange(j as int + 1, wis@.len() as int));
            }
            if wis[j].id == work_item_id {
                proof {
                    assert(rest[0] == prs@[i as int]);
                }
                return match &wis[j].fields.title {
                    Some(t) => t.clone(),
                    None => placeholder(work_item_id),
                };
            }
            j = j + 1;
        }
        proof {
            assert(wis@.subrange(wis@.len() as int, wis@.len() as int) =~= Seq::<WorkItem>::empty());
            assert(rest[0] == prs@[i as int]);
            assert(rest.drop_first() =~= prs@.subrange(i as int + 1, prs@.len() as int));
        }
        i = i + 1;
    }
    proof {
        assert(prs@.subrange(prs@.len() as int, prs@.len() as int) =~= Seq::<PullRequestWithWorkItems>::empty());
    }
    placeholder(work_item_id)
}

fn placeholder(id: i32) -> (r: String)
    ensures
        r@ == placeholder_title(id),
{
    let n = i32_to_decimal(id);
    concat2("Work Item #", n.as_str())
}

} // verus!
