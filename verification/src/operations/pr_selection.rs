//! Selection of pull requests by the states of their work items.
//!
//! A pull request qualifies when it has at least one work item and every one
//! of its work items is in one of the given states, compared without regard
//! to case.

use vstd::prelude::*;
use crate::models::{PullRequestWithWorkItems, WorkItem};
use crate::text::{lowercase_of, str_eq, to_lowercase, trim, trim_of};

verus! {

/// Whether a work item state matches one of the lower-cased states.
pub open spec fn state_in(state: Option<String>, lowered: Seq<Seq<char>>) -> bool {
    match state {
        Some(s) => lowered.contains(lowercase_of(s@)),
        None => false,
    }
}

/// The lower-cased views of the given states.
pub open spec fn lowered_states(states: Seq<String>) -> Seq<Seq<char>> {
    states.map_values(|s: String| lowercase_of(s@))
}

/// Whether a pull request qualifies for the given states.
pub open spec fn pr_matches_states(pr: PullRequestWithWorkItems, states: Seq<String>) -> bool {
    &&& pr.work_items@.len() > 0
    &&& forall|i: int|
        0 <= i < pr.work_items@.len() ==> #[trigger] state_in(
            pr.work_items@[i].fields.state,
            lowered_states(states),
        )
}

/// The pull requests among `prs` that qualify, in their order.
pub open spec fn matching_prs(
    prs: Seq<PullRequestWithWorkItems>,
    states: Seq<String>,
) -> Seq<PullRequestWithWorkItems>
    decreases prs.len(),
{
    if prs.len() == 0 {
        Seq::empty()
    } else {
        let init = matching_prs(prs.drop_last(), states);
        if pr_matches_states(prs.last(), states) {
            init.push(prs.last())
        } else {
            init
        }
    }
}

/// The number of qualifying pull requests among `prs`.
pub open spec fn count_matching(prs: Seq<PullRequestWithWorkItems>, states: Seq<String>) -> nat {
    matching_prs(prs, states).len()
}

fn lower_all(states: &[String]) -> (r: Vec<String>)
    ensures
        r@.len() == states@.len(),
        forall|i: int| 0 <= i < r@.len() ==> #[trigger] r@[i]@ == lowercase_of(states@[i]@),
{
    let mut out: Vec<String> = Vec::new();
    let mut i: usize = 0;
    while i < states.len()
        invariant
            0 <= i <= states@.len(),
            out@.len() == i,
            forall|k: int| 0 <= k < i ==> #[trigger] out@[k]@ == lowercase_of(states@[k]@),
        decreases states@.len() - i,
    {
        out.push(to_lowercase(states[i].as_str()));
        i = i + 1;
    }
    out
}

fn contains_str(haystack: &Vec<String>, needle: &str) -> (r: bool)
    ensures
        r == exists|i: int| 0 <= i < haystack@.len() && #[trigger] haystack@[i]@ == needle@,
{
    let mut i: usize = 0;
    while i < haystack.len()
        invariant
            0 <= i <= haystack@.len(),
            forall|k: int| 0 <= k < i ==> #[trigger] haystack@[k]@ != needle@,
        decreases haystack@.len() - i,
    {
        if str_eq(haystack[i].as_str(), needle) {
            return true;
        }
        i = i + 1;
    }
    false
}

fn work_item_matches(wi: &WorkItem, lowered: &Vec<String>, Ghost(states): Ghost<Seq<String>>) -> (r: bool)
    requires
        lowered@.len() == states.len(),
        forall|i: int| 0 <= i < lowered@.len() ==> #[trigger] lowered@[i]@ == lowercase_of(states[i]@),
    ensures
        r == state_in(wi.fields.state, lowered_states(states)),
{
    match &wi.fields.state {
        Some(s) => {
            let l = to_lowercase(s.as_str());
            let found = contains_str(lowered, l.as_str());
            proof {
                let ls = lowered_states(states);
                if found {
                    let i = choose|i: int| 0 <= i < lowered@.len() && #[trigger] lowered@[i]@ == l@;
                    assert(ls[i] == lowercase_of(states[i]@));
                    assert(ls.contains(l@));
                } else {
                    if ls.contains(l@) {
                        let i = choose|i: int| 0 <= i < ls.len() && ls[i] == l@;
                        assert(lowered@[i]@ == l@);
                    }
                }
            }
            found
        },
        None => false,
    }
}

fn pr_matches(pr: &PullRequestWithWorkItems, lowered: &Vec<String>, Ghost(states): Ghost<Seq<String>>) -> (r: bool)
    requires
        lowered@.len() == states.len(),
        forall|i: int| 0 <= i < lowered@.len() ==> #[trigger] lowered@[i]@ == lowercase_of(states[i]@),
    ensures
        r == pr_matches_states(*pr, states),
{
    if pr.work_items.len() == 0 {
        return false;
    }
    let mut i: usize = 0;
    while i < pr.work_items.len()
        invariant
            0 <= i <= pr.work_items@.len(),
            lowered@.len() == states.len(),
            forall|k: int| 0 <= k < lowered@.len() ==> #[trigger] lowered@[k]@ == lowercase_of(states[k]@),
            forall|k: int| 0 <= k < i ==> #[trigger] state_in(
                pr.work_items@[k].fields.state,
                lowered_states(states),
            ),
        decreases pr.work_items@.len() - i,
    {
        if !work_item_matches(&pr.work_items[i], lowered, Ghost(states)) {
            return false;
        }
        i = i + 1;
    }
    true
}

/// Filters PRs to those with at least one work item whose work items are all
/// in one of `states` (case-insensitive).
pub fn filter_prs_by_work_item_states<'a>(
    prs: &'a [PullRequestWithWorkItems],
    states: &[String],
) -> (r: Vec<&'a PullRequestWithWorkItems>)
    ensures
        r@.len() == matching_prs(prs@, states@).len(),
        forall|i: int| 0 <= i < r@.len() ==> *(#[trigger] r@[i]) == matching_prs(prs@, states@)[i],
{
    let lowered = lower_all(states);
    let mut out: Vec<&'a PullRequestWithWorkItems> = Vec::new();
    let mut i: usize = 0;
    while i < prs.len()
        invariant
            0 <= i <= prs@.len(),
            lowered@.len() == states@.len(),
            forall|k: int| 0 <= k < lowered@.len() ==> #[trigger] lowered@[k]@ == lowercase_of(states@[k]@),
            out@.len() == matching_prs(prs@.subrange(0, i as int), states@).len(),
            forall|k: int| 0 <= k < out@.len() ==> *(#[trigger] out@[k]) == matching_prs(prs@.subrange(0, i as int), states@)[k],
        decreases prs@.len() - i,
    {
        proof {
            assert(prs@.subrange(0, i as int + 1).drop_last() =~= prs@.subrange(0, i as int));
        }
        if pr_matches(&prs[i], &lowered, Ghost(states@)) {
            out.push(&prs[i]);
        }
        i = i + 1;
    }
    proof {
        assert(prs@.subrange(0, prs@.len() as int) =~= prs@);
    }
    out
}

/// Selects, in place, exactly the PRs that qualify for `states` and returns
/// how many were selected. Every other field is left as it was.
pub fn select_prs_by_work_item_states(
    prs: &mut Vec<PullRequestWithWorkItems>,
    states: &[String],
) -> (count: usize)
    ensures
        final(prs)@.len() == old(prs)@.len(),
        forall|i: int|
            0 <= i < final(prs)@.len() ==> {
                &&& (#[trigger] final(prs)@[i]).selected == pr_matches_states(old(prs)@[i], states@)
                &&& final(prs)@[i].pr == old(prs)@[i].pr
                &&& final(prs)@[i].work_items == old(prs)@[i].work_items
            },
        count == count_matching(old(prs)@, states@),
{
    let lowered = lower_all(states);
    let ghost orig = prs@;
    let mut count: usize = 0;
    let mut i: usize = 0;
    while i < prs.len()
        invariant
            0 <= i <= prs@.len(),
            prs@.len() == orig.len(),
            lowered@.len() == states@.len(),
            forall|k: int| 0 <= k < lowered@.len() ==> #[trigger] lowered@[k]@ == lowercase_of(states@[k]@),
            forall|k: int|
                0 <= k < prs@.len() ==> {
                    &&& (#[trigger] prs@[k]).pr == orig[k].pr
                    &&& prs@[k].work_items == orig[k].work_items
                    &&& (k >= i ==> prs@[k].selected == orig[k].selected)
                    &&& (k < i ==> prs@[k].selected == pr_matches_states(orig[k], states@))
                },
            count == count_matching(orig.subrange(0, i as int), states@),
            count <= i,
        decreases prs@.len() - i,
    {
        proof {
            assert(orig.subrange(0, i as int + 1).drop_last() =~= orig.subrange(0, i as int));
        }
        let should_select = pr_matches(&prs[i], &lowered, Ghost(states@));
        prs[i].selected = should_select;
        if should_select {
            count = count + 1;
        }
        i = i + 1;
    }
    proof {
        assert(orig.subrange(0, orig.len() as int) =~= orig);
    }
    count
}

/// The segments of `s` between occurrences of `sep`, in order; a string
/// without separators is one segment.
pub open spec fn split_on(s: Seq<char>, sep: char) -> Seq<Seq<char>>
    decreases s.len(),
{
    if s.len() == 0 {
        seq![Seq::empty()]
    } else {
        let init = split_on(s.drop_last(), sep);
        if s.last() == sep {
            init.push(Seq::empty())
        } else {
            init.update(init.len() - 1, init.last().push(s.last()))
        }
    }
}

/// The trimmed segments, keeping only those that are not empty.
pub open spec fn trimmed_nonempty(segments: Seq<Seq<char>>) -> Seq<Seq<char>>
    decreases segments.len(),
{
    if segments.len() == 0 {
        Seq::empty()
    } else {
        let init = trimmed_nonempty(segments.drop_last());
        let t = trim_of(segments.last());
        if t.len() > 0 {
            init.push(t)
        } else {
            init
        }
    }
}

/// The states listed in a comma-separated string.
pub open spec fn parsed_states(s: Seq<char>) -> Seq<Seq<char>> {
    trimmed_nonempty(split_on(s, ','))
}

proof fn lemma_split_len(s: Seq<char>, sep: char)
    ensures
        split_on(s, sep).len() >= 1,
    decreases s.len(),
{
    if s.len() > 0 {
        lemma_split_len(s.drop_last(), sep);
    }
}

/// Parses a comma-separated list of work item states: each entry trimmed,
/// empty entries dropped.
pub fn parse_work_item_states(states_str: &str) -> (r: Vec<String>)
    ensures
        string_seq_view(r@) == parsed_states(states_str@),
        forall|i: int| 0 <= i < r@.len() ==> (#[trigger] r@[i])@.len() > 0,
{
    let n = states_str.unicode_len();
    let ghost s = states_str@;
    let mut out: Vec<String> = Vec::new();
    let mut start: usize = 0;
    let mut i: usize = 0;
    while i < n
        invariant
            0 <= start <= i <= n,
            n == s.len(),
            s == states_str@,
            ({
                let sp = split_on(s.subrange(0, i as int), ',');
                &&& sp.len() >= 1
                &&& sp.last() == s.subrange(start as int, i as int)
                &&& string_seq_view(out@) == trimmed_nonempty(sp.drop_last())
            }),
            forall|k: int| 0 <= k < out@.len() ==> (#[trigger] out@[k])@.len() > 0,
        decreases n - i,
    {
        let c = states_str.get_char(i);
        proof {
            let pre = s.subrange(0, i as int);
            let post = s.subrange(0, i as int + 1);
            assert(post.drop_last() =~= pre);
            assert(post.last() == c);
            lemma_split_len(pre, ',');
        }
        if c == ',' {
            let seg = states_str.substring_char(start, i);
            let t = trim(seg);
            proof {
                let sp = split_on(s.subrange(0, i as int), ',');
                let sp2 = split_on(s.subrange(0, i as int + 1), ',');
                assert(sp2 == sp.push(Seq::empty()));
                assert(sp2.drop_last() =~= sp);
                assert(sp.drop_last().push(sp.last()) =~= sp);
                assert(trimmed_nonempty(sp) == (if trim_of(sp.last()).len() > 0 {
                    trimmed_nonempty(sp.drop_last()).push(trim_of(sp.last()))
                } else {
                    trimmed_nonempty(sp.drop_last())
                }));
            }
            if t.unicode_len() > 0 {
                proof {
                    assert(string_seq_view(out@.push(t)) =~= string_seq_view(out@).push(t@));
                }
                out.push(t);
            }
            start = i + 1;
            proof {
                assert(s.subrange(start as int, i as int + 1) =~= Seq::<char>::empty());
            }
        } else {
            proof {
                let sp = split_on(s.subrange(0, i as int), ',');
                let sp2 = split_on(s.subrange(0, i as int + 1), ',');
                assert(sp2 == sp.update(sp.len() - 1, sp.last().push(c)));
                assert(sp2.drop_last() =~= sp.drop_last());
                assert(s.subrange(start as int, i as int + 1) =~= s.subrange(start as int, i as int).push(c));
            }
        }
        i = i + 1;
    }
    let seg = states_str.substring_char(start, n);
    let t = trim(seg);
    proof {
        assert(s.subrange(0, n as int) =~= s);
        let sp = split_on(s, ',');
        lemma_split_len(s, ',');
        assert(sp.drop_last().push(sp.last()) =~= sp);
        assert(sp =~= sp.drop_last().push(sp.last()));
    }
    if t.unicode_len() > 0 {
        proof {
            assert(string_seq_view(out@.push(t)) =~= string_seq_view(out@).push(t@));
        }
        out.push(t);
    }
    out
}

/// The views of a sequence of strings.
pub open spec fn string_seq_view(v: Seq<String>) -> Seq<Seq<char>> {
    v.map_values(|s: String| s@)
}

} // verus!
