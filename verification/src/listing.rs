//! Listing queries over the document store: filtering, sorting and
//! pagination of issues, comments and milestones.
//!
//! Sorting is by selection of the least remaining record, so the result is
//! a sorted permutation of its input; filters are stated as spec predicates
//! over single records.

use vstd::prelude::*;
use vstd::string::*;
use vstd::multiset::Multiset;
use crate::models::{
    Comment, Issue, IssueFilters, Milestone, comment_eq, issue_eq, milestone_eq, user_eq,
};
use crate::store::{Store, has_label, lemma_has_label_eq};
use crate::strutil::{spec_parse_u64, str_eq, parse_u64};

verus! {

/// The issue sort key choices.
#[derive(Clone, Copy, PartialEq, Eq, Structural, Debug)]
pub enum SortField {
    Created,
    Updated,
    Comments,
}

/// The numeric sort key of an issue under `f`.
pub open spec fn issue_sort_key(i: Issue, f: SortField) -> int {
    match f {
        SortField::Created => i.created_at.millis as int,
        SortField::Updated => i.updated_at.millis as int,
        SortField::Comments => i.comments as int,
    }
}

/// The ordering of two issues under field `f` and direction `asc`.
pub open spec fn issue_le(f: SortField, asc: bool, a: Issue, b: Issue) -> bool {
    if asc {
        issue_sort_key(a, f) <= issue_sort_key(b, f)
    } else {
        issue_sort_key(b, f) <= issue_sort_key(a, f)
    }
}

/// The sort field a listing asks for; anything unrecognized, or nothing,
/// means creation time.
pub open spec fn spec_sort_field(sort: Option<String>) -> SortField {
    match sort {
        Option::Some(s) => if s@ == "updated"@ {
            SortField::Updated
        } else if s@ == "comments"@ {
            SortField::Comments
        } else {
            SortField::Created
        },
        Option::None => SortField::Created,
    }
}

/// Whether a listing sorts ascending; the default is descending.
pub open spec fn spec_sort_asc(direction: Option<String>) -> bool {
    match direction {
        Option::Some(d) => d@ == "asc"@,
        Option::None => false,
    }
}

/// The page a listing asks for, at least 1.
pub open spec fn spec_page(page: Option<u32>) -> u32 {
    match page {
        Option::Some(p) => if p < 1 {
            1u32
        } else {
            p
        },
        Option::None => 1u32,
    }
}

/// The page size a listing asks for, capped at 100; the default is 30.
pub open spec fn spec_per_page(per_page: Option<u32>) -> u32 {
    match per_page {
        Option::Some(p) => if p > 100 {
            100u32
        } else {
            p
        },
        Option::None => 30u32,
    }
}

/// The state filter: by default only open issues; `all` passes everything.
pub open spec fn state_matches(i: Issue, state: Option<String>) -> bool {
    match state {
        Option::Some(s) => s@ == "all"@ || i.state@ == s@,
        Option::None => i.state@ == "open"@,
    }
}

/// The label filter: every named label must be on the issue.
pub open spec fn labels_filter_matches(i: Issue, labels: Option<Vec<String>>) -> bool {
    match labels {
        Option::Some(names) => forall|k: int|
            0 <= k < names.deep_view().len() ==> has_label(i.labels@, names.deep_view()[k]),
        Option::None => true,
    }
}

/// The assignee filter: `none` keeps unassigned issues, `*` keeps assigned
/// ones, any other value matches a login exactly.
pub open spec fn assignee_matches(i: Issue, assignee: Option<String>) -> bool {
    match assignee {
        Option::Some(a) => if a@ == "none"@ {
            i.assignees@.len() == 0
        } else if a@ == "*"@ {
            i.assignees@.len() > 0
        } else {
            exists|k: int| 0 <= k < i.assignees@.len() && (#[trigger] i.assignees@[k]).login@ == a@
        },
        Option::None => true,
    }
}

/// The milestone filter: `none` keeps issues without a milestone, `*` those
/// with one, a number matches exactly, and anything unparsable filters
/// nothing.
pub open spec fn milestone_filter_matches(i: Issue, milestone: Option<String>) -> bool {
    match milestone {
        Option::Some(m) => if m@ == "none"@ {
            i.milestone is None
        } else if m@ == "*"@ {
            i.milestone is Some
        } else {
            match spec_parse_u64(m@) {
                Option::Some(num) => i.milestone matches Option::Some(ms) && ms.number == num,
                Option::None => true,
            }
        },
        Option::None => true,
    }
}

/// The whole issue filter: state, labels, assignee and milestone together.
pub open spec fn issue_matches(i: Issue, f: IssueFilters) -> bool {
    &&& state_matches(i, f.state)
    &&& labels_filter_matches(i, f.labels)
    &&& assignee_matches(i, f.assignee)
    &&& milestone_filter_matches(i, f.milestone)
}

/// Compares two issues under field `f` and direction `asc`.
fn issue_le_exec(a: &Issue, b: &Issue, f: SortField, asc: bool) -> (r: bool)
    ensures
        r == issue_le(f, asc, *a, *b),
{
    match f {
        SortField::Created => if asc {
            a.created_at.millis <= b.created_at.millis
        } else {
            b.created_at.millis <= a.created_at.millis
        },
        SortField::Updated => if asc {
            a.updated_at.millis <= b.updated_at.millis
        } else {
            b.updated_at.millis <= a.updated_at.millis
        },
        SortField::Comments => if asc {
            a.comments <= b.comments
        } else {
            b.comments <= a.comments
        },
    }
}

/// Sorts issues by `f` in direction `asc`: the result is a sorted
/// permutation of the input.
pub fn sort_issues(v: Vec<Issue>, f: SortField, asc: bool) -> (r: Vec<Issue>)
    ensures
        r@.to_multiset() == v@.to_multiset(),
        r@.len() == v@.len(),
        forall|i: int, j: int|
            0 <= i < j < r@.len() ==> issue_le(f, asc, #[trigger] r@[i], #[trigger] r@[j]),
{
    broadcast use vstd::seq_lib::group_to_multiset_ensures;

    let mut src = v;
    let mut out: Vec<Issue> = Vec::new();
    proof {
        assert(out@.to_multiset().add(src@.to_multiset()) =~= v@.to_multiset());
    }
    while src.len() > 0
        invariant
            out@.to_multiset().add(src@.to_multiset()) == v@.to_multiset(),
            out@.len() + src@.len() == v@.len(),
            forall|i: int, j: int|
                0 <= i < j < out@.len()
                    ==> issue_le(f, asc, #[trigger] out@[i], #[trigger] out@[j]),
            forall|i: int, j: int|
                0 <= i < out@.len() && 0 <= j < src@.len() ==> issue_le(
                    f,
                    asc,
                    #[trigger] out@[i],
                    #[trigger] src@[j],
                ),
        decreases src@.len(),
    {
        let mut m: usize = 0;
        let mut k: usize = 1;
        while k < src.len()
            invariant
                0 <= m < src@.len(),
                m < k <= src@.len(),
                forall|t: int| 0 <= t < k ==> issue_le(f, asc, src@[m as int], #[trigger] src@[t]),
            decreases src@.len() - k,
        {
            if !issue_le_exec(&src[m], &src[k], f, asc) {
                m = k;
            }
            k += 1;
        }
        let ghost old_out = out@;
        let ghost old_src = src@;
        let x = src.remove(m);
        out.push(x);
        proof {
            broadcast use vstd::multiset::group_multiset_axioms;

            vstd::seq_lib::to_multiset_build(old_out, x);
            vstd::seq_lib::to_multiset_remove(old_src, m as int);
            old_src.to_multiset_ensures();
            assert(out@ =~= old_out.push(x));
            assert(out@.to_multiset() =~= old_out.to_multiset().insert(x));
            assert(src@.to_multiset() =~= old_src.to_multiset().remove(x));
            assert(old_src.contains(x));
            assert(old_src.to_multiset().count(x) > 0);
            assert(out@.to_multiset().add(src@.to_multiset()) =~= old_out.to_multiset().add(
                old_src.to_multiset(),
            ));
            assert forall|i: int, j: int|
                0 <= i < out@.len() && 0 <= j < src@.len() implies issue_le(
                f,
                asc,
                #[trigger] out@[i],
                #[trigger] src@[j],
            ) by {
                let oj = if j < m as int {
                    j
                } else {
                    j + 1
                };
                assert(src@[j] == old_src[oj]);
                if i < out@.len() - 1 {
                    assert(issue_le(f, asc, old_out[i], old_src[oj]));
                } else {
                    assert(issue_le(f, asc, old_src[m as int], old_src[oj]));
                }
            }
        }
    }
    proof {
        assert(src@.to_multiset() =~= Multiset::<Issue>::empty());
        assert(out@.to_multiset() =~= v@.to_multiset());
    }
    out
}

/// Keeps, in order, the issues that pass the filter.
pub fn filter_issues(v: Vec<Issue>, filters: &IssueFilters) -> (r: Vec<Issue>)
    ensures
        r@ == v@.filter(|i: Issue| issue_matches(i, *filters)),
{
    let ghost pred = |i: Issue| issue_matches(i, *filters);
    let ghost orig = v@;
    let mut src = v;
    let mut out: Vec<Issue> = Vec::new();
    let mut i: usize = 0;
    proof {
        broadcast use vstd::std_specs::vec::axiom_spec_len;

        reveal(Seq::filter);
        assert(src@ =~= orig.skip(0));
        assert(orig.take(0) =~= Seq::<Issue>::empty());
        assert(src.len() == src@.len());
        assert(src@.len() <= usize::MAX);
    }
    while src.len() > 0
        invariant
            pred == (|i: Issue| issue_matches(i, *filters)),
            src@ == orig.skip(i as int),
            0 <= i <= orig.len(),
            orig.len() <= usize::MAX,
            i + src@.len() == orig.len(),
            out@ == orig.take(i as int).filter(pred),
        decreases src@.len(),
    {
        let ghost old_src = src@;
        let x = src.remove(0);
        proof {
            assert(x == orig[i as int]);
            assert(src@ =~= orig.skip(i + 1));
            reveal(Seq::filter);
            assert(orig.take(i + 1).drop_last() =~= orig.take(i as int));
            assert(orig.take(i + 1).last() == orig[i as int]);
        }
        if issue_matches_exec(&x, filters) {
            out.push(x);
        }
        i += 1;
    }
    proof {
        assert(orig.take(i as int) =~= orig);
    }
    out
}

/// Does the issue pass the filter?
pub fn issue_matches_exec(i: &Issue, f: &IssueFilters) -> (r: bool)
    ensures
        r == issue_matches(*i, *f),
{
    let state_ok: bool = match &f.state {
        Option::Some(s) => str_eq(s.as_str(), "all") || str_eq(i.state.as_str(), s.as_str()),
        Option::None => str_eq(i.state.as_str(), "open"),
    };
    if !state_ok {
        return false;
    }
    let labels_ok: bool = match &f.labels {
        Option::Some(names) => {
            let mut ok = true;
            let mut k: usize = 0;
            while k < names.len() && ok
                invariant
                    0 <= k <= names@.len(),
                    ok == (forall|t: int|
                        0 <= t < k ==> has_label(i.labels@, names.deep_view()[t])),
                decreases names@.len() - k,
            {
                if !issue_has_label(i, names[k].as_str()) {
                    proof {
                        assert(!has_label(i.labels@, names.deep_view()[k as int]));
                    }
                    ok = false;
                } else {
                    proof {
                        assert(has_label(i.labels@, names.deep_view()[k as int]));
                    }
                }
                k += 1;
            }
            ok
        },
        Option::None => true,
    };
    if !labels_ok {
        return false;
    }
    let assignee_ok: bool = match &f.assignee {
        Option::Some(a) => {
            if str_eq(a.as_str(), "none") {
                i.assignees.len() == 0
            } else if str_eq(a.as_str(), "*") {
                i.assignees.len() > 0
            } else {
                let mut found = false;
                let mut k: usize = 0;
                while k < i.assignees.len() && !found
                    invariant
                        0 <= k <= i.assignees@.len(),
                        found ==> exists|t: int|
                            0 <= t < i.assignees@.len() && (#[trigger] i.assignees@[t]).login@
                                == a@,
                        !found ==> forall|t: int|
                            0 <= t < k ==> (#[trigger] i.assignees@[t]).login@ != a@,
                    decreases i.assignees@.len() - k,
                {
                    if str_eq(i.assignees[k].login.as_str(), a.as_str()) {
                        found = true;
                    }
                    k += 1;
                }
                found
            }
        },
        Option::None => true,
    };
    if !assignee_ok {
        return false;
    }
    let milestone_ok: bool = match &f.milestone {
        Option::Some(m) => {
            if str_eq(m.as_str(), "none") {
                match &i.milestone {
                    Option::Some(_) => false,
                    Option::None => true,
                }
            } else if str_eq(m.as_str(), "*") {
                match &i.milestone {
                    Option::Some(_) => true,
                    Option::None => false,
                }
            } else {
                match parse_u64(m.as_str()) {
                    Option::Some(num) => match &i.milestone {
                        Option::Some(ms) => ms.number == num,
                        Option::None => false,
                    },
                    Option::None => true,
                }
            }
        },
        Option::None => true,
    };
    milestone_ok
}

/// Is a label named `name` on the issue?
fn issue_has_label(i: &Issue, name: &str) -> (r: bool)
    ensures
        r == has_label(i.labels@, name@),
{
    let mut k: usize = 0;
    while k < i.labels.len()
        invariant
            0 <= k <= i.labels@.len(),
            forall|t: int| 0 <= t < k ==> (#[trigger] i.labels@[t]).name@ != name@,
        decreases i.labels@.len() - k,
    {
        if str_eq(i.labels[k].name.as_str(), name) {
            return true;
        }
        k += 1;
    }
    false
}

/// The first index of the page starting at `page` with `per_page` records,
/// clamped to the collection's length.
pub open spec fn page_start(page: u32, per_page: u32, len: int) -> int {
    let s = (page - 1) * per_page;
    if s > len {
        len
    } else {
        s
    }
}

/// One past the last index of that page, clamped likewise.
pub open spec fn page_end(page: u32, per_page: u32, len: int) -> int {
    let e = page_start(page, per_page, len) + per_page;
    if e > len {
        len
    } else {
        e
    }
}

/// The page is the `[page_start, page_end)` window of some arrangement of
/// exactly the filtered records, sorted under `le`: nothing enters from
/// outside the filtered set and nothing of it is lost before pagination.
pub open spec fn page_of_sorted<A>(
    filtered: Seq<A>,
    le: spec_fn(A, A) -> bool,
    page: u32,
    per_page: u32,
    items: Seq<A>,
) -> bool {
    exists|arranged: Seq<A>|
        {
            &&& #[trigger] arranged.to_multiset() == filtered.to_multiset()
            &&& (forall|i: int, j: int|
                0 <= i < j < arranged.len() ==> le(
                    #[trigger] arranged[i],
                    #[trigger] arranged[j],
                ))
            &&& items == arranged.subrange(
                page_start(page, per_page, arranged.len() as int),
                page_end(page, per_page, arranged.len() as int),
            )
        }
}

/// Cuts the page out of `v`: the records from `page_start` to `page_end`,
/// for a page number already floored at 1 and a page size already capped.
pub fn paginate<T>(v: Vec<T>, page: u32, per_page: u32) -> (r: Vec<T>)
    requires
        page >= 1,
        per_page <= 100,
    ensures
        r@ == v@.subrange(
            page_start(page, per_page, v@.len() as int),
            page_end(page, per_page, v@.len() as int),
        ),
{
    let ghost orig = v@;
    proof {
        assert((page as int - 1) * (per_page as int) <= 0xffff_ffff * 100) by (nonlinear_arith)
            requires
                1 <= page <= u32::MAX,
                per_page <= 100,
        ;
    }
    let start64: u64 = (page as u64 - 1) * (per_page as u64);
    let len = v.len();
    let start: usize = if start64 > len as u64 {
        len
    } else {
        start64 as usize
    };
    let mut v = v;
    let mut items = v.split_off(start);
    if items.len() > per_page as usize {
        items.truncate(per_page as usize);
    }
    proof {
        assert(items@ =~= orig.subrange(
            page_start(page, per_page, orig.len() as int),
            page_end(page, per_page, orig.len() as int),
        ));
    }
    items
}

/// Filters, sorts and paginates an issue collection: the total is the
/// number of matching issues, the page is a window of a sorted arrangement
/// of exactly the matching ones.
#[verifier::rlimit(60)]
pub fn list_issues_in(issues: Vec<Issue>, filters: &IssueFilters) -> (r: (Vec<Issue>, usize))
    ensures
        ({
            let pred = |i: Issue| issue_matches(i, *filters);
            let filtered = issues@.filter(pred);
            let field = spec_sort_field(filters.sort);
            let asc = spec_sort_asc(filters.direction);
            let page = spec_page(filters.page);
            let per = spec_per_page(filters.per_page);
            &&& r.1 == filtered.len()
            &&& r.0@.len() == page_end(page, per, filtered.len() as int) - page_start(
                page,
                per,
                filtered.len() as int,
            )
            &&& (forall|k: int|
                0 <= k < r.0@.len() ==> issue_matches(#[trigger] r.0@[k], *filters))
            &&& (forall|i: int, j: int|
                0 <= i < j < r.0@.len() ==> issue_le(field, asc, #[trigger] r.0@[i], #[trigger] r.0@[j]))
            &&& r.0@.to_multiset().subset_of(filtered.to_multiset())
            &&& (page == 1 && filtered.len() <= per ==> r.0@.to_multiset()
                == filtered.to_multiset())
            &&& page_of_sorted(
                filtered,
                |a: Issue, b: Issue| issue_le(field, asc, a, b),
                page,
                per,
                r.0@,
            )
        }),
{
    broadcast use vstd::seq_lib::group_to_multiset_ensures;
    broadcast use vstd::multiset::group_multiset_axioms;

    let ghost pred = |i: Issue| issue_matches(i, *filters);
    let ghost filtered_spec = issues@.filter(pred);
    let filtered = filter_issues(issues, filters);
    let total = filtered.len();
    let field: SortField = match &filters.sort {
        Option::Some(s) => if str_eq(s.as_str(), "updated") {
            SortField::Updated
        } else if str_eq(s.as_str(), "comments") {
            SortField::Comments
        } else {
            SortField::Created
        },
        Option::None => SortField::Created,
    };
    let asc: bool = match &filters.direction {
        Option::Some(d) => str_eq(d.as_str(), "asc"),
        Option::None => false,
    };
    let page: u32 = match filters.page {
        Option::Some(p) => if p < 1 {
            1
        } else {
            p
        },
        Option::None => 1,
    };
    let per_page: u32 = match filters.per_page {
        Option::Some(p) => if p > 100 {
            100
        } else {
            p
        },
        Option::None => 30,
    };
    proof {
        assert(field == spec_sort_field(filters.sort));
        assert(asc == spec_sort_asc(filters.direction));
        assert(page == spec_page(filters.page));
        assert(per_page == spec_per_page(filters.per_page));
    }
    let sorted = sort_issues(filtered, field, asc);
    let ghost sorted_view = sorted@;
    let items = paginate(sorted, page, per_page);
    proof {
        let start = page_start(page, per_page, filtered_spec.len() as int);
        let end = page_end(page, per_page, filtered_spec.len() as int);
        broadcast use vstd::seq_lib::group_filter_ensures;

        assert(items@ =~= sorted_view.subrange(start, end));
        assert forall|k: int| 0 <= k < items@.len() implies issue_matches(
            #[trigger] items@[k],
            *filters,
        ) by {
            assert(items@[k] == sorted_view[start + k]);
            assert(sorted_view.contains(sorted_view[start + k]));
            assert(sorted_view.to_multiset().count(sorted_view[start + k]) > 0);
            assert(filtered_spec.to_multiset().count(sorted_view[start + k]) > 0);
            assert(filtered_spec.contains(sorted_view[start + k]));
            let j = choose|j: int|
                0 <= j < filtered_spec.len() && filtered_spec[j] == sorted_view[start + k];
            assert(pred(filtered_spec[j]));
        }
        assert(sorted_view =~= sorted_view.subrange(0, start).add(
            sorted_view.subrange(start, end).add(
                sorted_view.subrange(end, sorted_view.len() as int),
            ),
        ));
        vstd::seq_lib::lemma_multiset_commutative(
            sorted_view.subrange(0, start),
            sorted_view.subrange(start, end).add(
                sorted_view.subrange(end, sorted_view.len() as int),
            ),
        );
        vstd::seq_lib::lemma_multiset_commutative(
            sorted_view.subrange(start, end),
            sorted_view.subrange(end, sorted_view.len() as int),
        );
        assert(items@.to_multiset().subset_of(sorted_view.to_multiset()));
        if page == 1 && filtered_spec.len() <= per_page {
            assert((page as int - 1) * (per_page as int) == 0) by (nonlinear_arith)
                requires
                    page == 1,
            ;
            assert(start == 0);
            assert(end == sorted_view.len());
            assert(items@ =~= sorted_view);
        }
        assert(page_of_sorted(
            filtered_spec,
            |a: Issue, b: Issue| issue_le(field, asc, a, b),
            page,
            per_page,
            items@,
        )) by {
            let le = |a: Issue, b: Issue| issue_le(field, asc, a, b);
            assert(sorted_view.to_multiset() == filtered_spec.to_multiset());
            assert(forall|i: int, j: int|
                0 <= i < j < sorted_view.len() ==> le(
                    #[trigger] sorted_view[i],
                    #[trigger] sorted_view[j],
                ));
            assert(items@ == sorted_view.subrange(
                page_start(page, per_page, sorted_view.len() as int),
                page_end(page, per_page, sorted_view.len() as int),
            ));
        }
    }
    (items, total)
}

/// The milestone sort key choices.
#[derive(Clone, Copy, PartialEq, Eq, Structural, Debug)]
pub enum MsSortField {
    DueOn,
    Completeness,
}

/// The milestone sort field a listing asks for; the default, and anything
/// unrecognized, is the due date.
pub open spec fn spec_ms_sort_field(sort: Option<String>) -> MsSortField {
    match sort {
        Option::Some(s) => if s@ == "completeness"@ {
            MsSortField::Completeness
        } else {
            MsSortField::DueOn
        },
        Option::None => MsSortField::DueOn,
    }
}

/// Whether a milestone listing sorts ascending; only `desc` reverses it.
pub open spec fn spec_ms_sort_asc(direction: Option<String>) -> bool {
    match direction {
        Option::Some(d) => !(d@ == "desc"@),
        Option::None => true,
    }
}

/// The percentage of a milestone's issues that are closed, 0 when it has
/// none.
pub open spec fn ms_pct(m: Milestone) -> int {
    let total = m.open_issues + m.closed_issues;
    if total > 0 {
        (m.closed_issues * 100) as int / total as int
    } else {
        0
    }
}

/// Due-date order: an absent due date sorts first.
pub open spec fn due_le(a: Milestone, b: Milestone) -> bool {
    match (a.due_on, b.due_on) {
        (Option::None, _) => true,
        (Option::Some(_), Option::None) => false,
        (Option::Some(x), Option::Some(y)) => x.millis <= y.millis,
    }
}

/// The ordering of two milestones under field `f` and direction `asc`.
pub open spec fn ms_le(f: MsSortField, asc: bool, a: Milestone, b: Milestone) -> bool {
    match f {
        MsSortField::DueOn => if asc {
            due_le(a, b)
        } else {
            due_le(b, a)
        },
        MsSortField::Completeness => if asc {
            ms_pct(a) <= ms_pct(b)
        } else {
            ms_pct(b) <= ms_pct(a)
        },
    }
}

/// The milestone state filter: by default only open ones; `all` passes
/// everything.
pub open spec fn ms_state_matches(m: Milestone, state: Option<String>) -> bool {
    match state {
        Option::Some(s) => s@ == "all"@ || m.state@ == s@,
        Option::None => m.state@ == "open"@,
    }
}

/// Compares two milestones under field `f` and direction `asc`.
fn ms_le_exec(a: &Milestone, b: &Milestone, f: MsSortField, asc: bool) -> (r: bool)
    ensures
        r == ms_le(f, asc, *a, *b),
{
    match f {
        MsSortField::DueOn => {
            let fwd = due_le_exec(a, b);
            let bwd = due_le_exec(b, a);
            if asc {
                fwd
            } else {
                bwd
            }
        },
        MsSortField::Completeness => {
            let pa = ms_pct_exec(a);
            let pb = ms_pct_exec(b);
            if asc {
                pa <= pb
            } else {
                pb <= pa
            }
        },
    }
}

/// Due-date comparison.
fn due_le_exec(a: &Milestone, b: &Milestone) -> (r: bool)
    ensures
        r == due_le(*a, *b),
{
    match (&a.due_on, &b.due_on) {
        (Option::None, _) => true,
        (Option::Some(_), Option::None) => false,
        (Option::Some(x), Option::Some(y)) => x.millis <= y.millis,
    }
}

/// The closed percentage of a milestone.
fn ms_pct_exec(m: &Milestone) -> (r: u64)
    ensures
        r as int == ms_pct(*m),
{
    let total: u128 = m.open_issues as u128 + m.closed_issues as u128;
    if total > 0 {
        let pct: u128 = (m.closed_issues as u128) * 100 / total;
        proof {
            assert((m.closed_issues as int * 100) / (total as int) <= 100) by (nonlinear_arith)
                requires
                    total as int > 0,
                    m.closed_issues as int <= total as int,
            ;
            assert(pct as int == (m.closed_issues as int * 100) / (total as int));
        }
        pct as u64
    } else {
        0
    }
}

/// Sorts milestones by `f` in direction `asc`: the result is a sorted
/// permutation of the input.
pub fn sort_milestones(v: Vec<Milestone>, f: MsSortField, asc: bool) -> (r: Vec<Milestone>)
    ensures
        r@.to_multiset() == v@.to_multiset(),
        r@.len() == v@.len(),
        forall|i: int, j: int|
            0 <= i < j < r@.len() ==> ms_le(f, asc, #[trigger] r@[i], #[trigger] r@[j]),
{
    broadcast use vstd::seq_lib::group_to_multiset_ensures;
    broadcast use vstd::multiset::group_multiset_axioms;

    let mut src = v;
    let mut out: Vec<Milestone> = Vec::new();
    proof {
        assert(out@.to_multiset().add(src@.to_multiset()) =~= v@.to_multiset());
    }
    while src.len() > 0
        invariant
            out@.to_multiset().add(src@.to_multiset()) == v@.to_multiset(),
            out@.len() + src@.len() == v@.len(),
            forall|i: int, j: int|
                0 <= i < j < out@.len() ==> ms_le(f, asc, #[trigger] out@[i], #[trigger] out@[j]),
            forall|i: int, j: int|
                0 <= i < out@.len() && 0 <= j < src@.len() ==> ms_le(
                    f,
                    asc,
                    #[trigger] out@[i],
                    #[trigger] src@[j],
                ),
        decreases src@.len(),
    {
        let mut m: usize = 0;
        let mut k: usize = 1;
        while k < src.len()
            invariant
                0 <= m < src@.len(),
                m < k <= src@.len(),
                forall|t: int| 0 <= t < k ==> ms_le(f, asc, src@[m as int], #[trigger] src@[t]),
            decreases src@.len() - k,
        {
            if !ms_le_exec(&src[m], &src[k], f, asc) {
                m = k;
            }
            k += 1;
        }
        let ghost old_out = out@;
        let ghost old_src = src@;
        let x = src.remove(m);
        out.push(x);
        proof {
            vstd::seq_lib::to_multiset_build(old_out, x);
            vstd::seq_lib::to_multiset_remove(old_src, m as int);
            old_src.to_multiset_ensures();
            assert(out@ =~= old_out.push(x));
            assert(old_src.contains(x));
            assert(old_src.to_multiset().count(x) > 0);
            assert(out@.to_multiset().add(src@.to_multiset()) =~= old_out.to_multiset().add(
                old_src.to_multiset(),
            ));
            assert forall|i: int, j: int|
                0 <= i < out@.len() && 0 <= j < src@.len() implies ms_le(
                f,
                asc,
                #[trigger] out@[i],
                #[trigger] src@[j],
            ) by {
                let oj = if j < m as int {
                    j
                } else {
                    j + 1
                };
                assert(src@[j] == old_src[oj]);
                if i < out@.len() - 1 {
                    assert(ms_le(f, asc, old_out[i], old_src[oj]));
                } else {
                    assert(ms_le(f, asc, old_src[m as int], old_src[oj]));
                }
            }
        }
    }
    proof {
        assert(src@.to_multiset() =~= Multiset::<Milestone>::empty());
        assert(out@.to_multiset() =~= v@.to_multiset());
    }
    out
}

/// Keeps, in order, the milestones that pass the state filter.
pub fn filter_milestones(v: Vec<Milestone>, state: &Option<String>) -> (r: Vec<Milestone>)
    ensures
        r@ == v@.filter(|m: Milestone| ms_state_matches(m, *state)),
{
    let ghost pred = |m: Milestone| ms_state_matches(m, *state);
    let ghost orig = v@;
    let mut src = v;
    let mut out: Vec<Milestone> = Vec::new();
    let mut i: usize = 0;
    proof {
        broadcast use vstd::std_specs::vec::axiom_spec_len;

        reveal(Seq::filter);
        assert(src@ =~= orig.skip(0));
        assert(orig.take(0) =~= Seq::<Milestone>::empty());
        assert(src.len() == src@.len());
    }
    while src.len() > 0
        invariant
            pred == (|m: Milestone| ms_state_matches(m, *state)),
            src@ == orig.skip(i as int),
            0 <= i <= orig.len(),
            orig.len() <= usize::MAX,
            i + src@.len() == orig.len(),
            out@ == orig.take(i as int).filter(pred),
        decreases src@.len(),
    {
        let x = src.remove(0);
        proof {
            assert(x == orig[i as int]);
            assert(src@ =~= orig.skip(i + 1));
            reveal(Seq::filter);
            assert(orig.take(i + 1).drop_last() =~= orig.take(i as int));
            assert(orig.take(i + 1).last() == orig[i as int]);
        }
        let keep: bool = match state {
            Option::Some(s) => str_eq(s.as_str(), "all") || str_eq(x.state.as_str(), s.as_str()),
            Option::None => str_eq(x.state.as_str(), "open"),
        };
        if keep {
            out.push(x);
        }
        i += 1;
    }
    proof {
        assert(orig.take(i as int) =~= orig);
    }
    out
}

/// Filters, sorts and paginates a milestone collection.
pub fn list_milestones_in(
    milestones: Vec<Milestone>,
    state: &Option<String>,
    sort: &Option<String>,
    direction: &Option<String>,
    page: Option<u32>,
    per_page: Option<u32>,
) -> (r: Vec<Milestone>)
    ensures
        ({
            let pred = |m: Milestone| ms_state_matches(m, *state);
            let filtered = milestones@.filter(pred);
            let field = spec_ms_sort_field(*sort);
            let asc = spec_ms_sort_asc(*direction);
            let pg = spec_page(page);
            let per = spec_per_page(per_page);
            &&& r@.len() == page_end(pg, per, filtered.len() as int) - page_start(
                pg,
                per,
                filtered.len() as int,
            )
            &&& (forall|k: int|
                0 <= k < r@.len() ==> ms_state_matches(#[trigger] r@[k], *state))
            &&& (forall|i: int, j: int|
                0 <= i < j < r@.len() ==> ms_le(field, asc, #[trigger] r@[i], #[trigger] r@[j]))
            &&& r@.to_multiset().subset_of(filtered.to_multiset())
            &&& (pg == 1 && filtered.len() <= per ==> r@.to_multiset() == filtered.to_multiset())
            &&& page_of_sorted(
                filtered,
                |a: Milestone, b: Milestone| ms_le(field, asc, a, b),
                pg,
                per,
                r@,
            )
        }),
{
    broadcast use vstd::seq_lib::group_to_multiset_ensures;
    broadcast use vstd::multiset::group_multiset_axioms;

    let ghost pred = |m: Milestone| ms_state_matches(m, *state);
    let ghost filtered_spec = milestones@.filter(pred);
    let filtered = filter_milestones(milestones, state);
    let field: MsSortField = match sort {
        Option::Some(s) => if str_eq(s.as_str(), "completeness") {
            MsSortField::Completeness
        } else {
            MsSortField::DueOn
        },
        Option::None => MsSortField::DueOn,
    };
    let asc: bool = match direction {
        Option::Some(d) => !str_eq(d.as_str(), "desc"),
        Option::None => true,
    };
    let pg: u32 = match page {
        Option::Some(p) => if p < 1 {
            1
        } else {
            p
        },
        Option::None => 1,
    };
    let per: u32 = match per_page {
        Option::Some(p) => if p > 100 {
            100
        } else {
            p
        },
        Option::None => 30,
    };
    let sorted = sort_milestones(filtered, field, asc);
    let ghost sorted_view = sorted@;
    let items = paginate(sorted, pg, per);
    proof {
        let start = page_start(pg, per, filtered_spec.len() as int);
        let end = page_end(pg, per, filtered_spec.len() as int);
        broadcast use vstd::seq_lib::group_filter_ensures;

        assert(items@ =~= sorted_view.subrange(start, end));
        assert forall|k: int| 0 <= k < items@.len() implies ms_state_matches(
            #[trigger] items@[k],
            *state,
        ) by {
            assert(items@[k] == sorted_view[start + k]);
            assert(sorted_view.contains(sorted_view[start + k]));
            assert(sorted_view.to_multiset().count(sorted_view[start + k]) > 0);
            assert(filtered_spec.to_multiset().count(sorted_view[start + k]) > 0);
            assert(filtered_spec.contains(sorted_view[start + k]));
            let j = choose|j: int|
                0 <= j < filtered_spec.len() && filtered_spec[j] == sorted_view[start + k];
            assert(pred(filtered_spec[j]));
        }
        assert(sorted_view =~= sorted_view.subrange(0, start).add(
            sorted_view.subrange(start, end).add(
                sorted_view.subrange(end, sorted_view.len() as int),
            ),
        ));
        vstd::seq_lib::lemma_multiset_commutative(
            sorted_view.subrange(0, start),
            sorted_view.subrange(start, end).add(
                sorted_view.subrange(end, sorted_view.len() as int),
            ),
        );
        vstd::seq_lib::lemma_multiset_commutative(
            sorted_view.subrange(start, end),
            sorted_view.subrange(end, sorted_view.len() as int),
        );
        assert(items@.to_multiset().subset_of(sorted_view.to_multiset()));
        if pg == 1 && filtered_spec.len() <= per {
            assert((pg as int - 1) * (per as int) == 0) by (nonlinear_arith)
                requires
                    pg == 1,
            ;
            assert(start == 0);
            assert(end == sorted_view.len());
            assert(items@ =~= sorted_view);
        }
        assert(page_of_sorted(
            filtered_spec,
            |a: Milestone, b: Milestone| ms_le(field, asc, a, b),
            pg,
            per,
            items@,
        )) by {
            let le = |a: Milestone, b: Milestone| ms_le(field, asc, a, b);
            assert(sorted_view.to_multiset() == filtered_spec.to_multiset());
            assert(forall|i: int, j: int|
                0 <= i < j < sorted_view.len() ==> le(
                    #[trigger] sorted_view[i],
                    #[trigger] sorted_view[j],
                ));
            assert(items@ == sorted_view.subrange(
                page_start(pg, per, sorted_view.len() as int),
                page_end(pg, per, sorted_view.len() as int),
            ));
        }
    }
    items
}

/// Creation-time order of comments.
pub open spec fn comment_le(a: Comment, b: Comment) -> bool {
    a.created_at.millis <= b.created_at.millis
}

/// Sorts comments by creation time, oldest first: the result is a sorted
/// permutation of the input.
pub fn sort_comments(v: Vec<Comment>) -> (r: Vec<Comment>)
    ensures
        r@.to_multiset() == v@.to_multiset(),
        r@.len() == v@.len(),
        forall|i: int, j: int|
            0 <= i < j < r@.len() ==> comment_le(#[trigger] r@[i], #[trigger] r@[j]),
{
    broadcast use vstd::seq_lib::group_to_multiset_ensures;
    broadcast use vstd::multiset::group_multiset_axioms;

    let mut src = v;
    let mut out: Vec<Comment> = Vec::new();
    proof {
        assert(out@.to_multiset().add(src@.to_multiset()) =~= v@.to_multiset());
    }
    while src.len() > 0
        invariant
            out@.to_multiset().add(src@.to_multiset()) == v@.to_multiset(),
            out@.len() + src@.len() == v@.len(),
            forall|i: int, j: int|
                0 <= i < j < out@.len() ==> comment_le(#[trigger] out@[i], #[trigger] out@[j]),
            forall|i: int, j: int|
                0 <= i < out@.len() && 0 <= j < src@.len() ==> comment_le(
                    #[trigger] out@[i],
                    #[trigger] src@[j],
                ),
        decreases src@.len(),
    {
        let mut m: usize = 0;
        let mut k: usize = 1;
        while k < src.len()
            invariant
                0 <= m < src@.len(),
                m < k <= src@.len(),
                forall|t: int| 0 <= t < k ==> comment_le(src@[m as int], #[trigger] src@[t]),
            decreases src@.len() - k,
        {
            if src[k].created_at.millis < src[m].created_at.millis {
                m = k;
            }
            k += 1;
        }
        let ghost old_out = out@;
        let ghost old_src = src@;
        let x = src.remove(m);
        out.push(x);
        proof {
            vstd::seq_lib::to_multiset_build(old_out, x);
            vstd::seq_lib::to_multiset_remove(old_src, m as int);
            old_src.to_multiset_ensures();
            assert(out@ =~= old_out.push(x));
            assert(old_src.contains(x));
            assert(old_src.to_multiset().count(x) > 0);
            assert(out@.to_multiset().add(src@.to_multiset()) =~= old_out.to_multiset().add(
                old_src.to_multiset(),
            ));
            assert forall|i: int, j: int|
                0 <= i < out@.len() && 0 <= j < src@.len() implies comment_le(
                #[trigger] out@[i],
                #[trigger] src@[j],
            ) by {
                let oj = if j < m as int {
                    j
                } else {
                    j + 1
                };
                assert(src@[j] == old_src[oj]);
                if i < out@.len() - 1 {
                    assert(comment_le(old_out[i], old_src[oj]));
                } else {
                    assert(comment_le(old_src[m as int], old_src[oj]));
                }
            }
        }
    }
    proof {
        assert(src@.to_multiset() =~= Multiset::<Comment>::empty());
        assert(out@.to_multiset() =~= v@.to_multiset());
    }
    out
}

/// A filter-respecting record equality: equal issues pass the same filters.
pub(crate) proof fn lemma_issue_matches_eq(a: Issue, b: Issue, f: IssueFilters)
    requires
        issue_eq(a, b),
    ensures
        issue_matches(a, f) == issue_matches(b, f),
{
    match f.labels {
        Option::Some(names) => {
            assert forall|k: int| 0 <= k < names.deep_view().len() implies (has_label(
                a.labels@,
                #[trigger] names.deep_view()[k],
            ) <==> has_label(b.labels@, names.deep_view()[k])) by {
                lemma_has_label_eq(a.labels@, b.labels@, names.deep_view()[k]);
            }
            assert(labels_filter_matches(a, f.labels) == labels_filter_matches(b, f.labels));
        },
        Option::None => {},
    }
    match f.assignee {
        Option::Some(login) => {
            if !(login@ == "none"@) && !(login@ == "*"@) {
                if exists|k: int|
                    0 <= k < a.assignees@.len() && (#[trigger] a.assignees@[k]).login@ == login@ {
                    let k = choose|k: int|
                        0 <= k < a.assignees@.len() && (#[trigger] a.assignees@[k]).login@
                            == login@;
                    assert(user_eq(a.assignees@[k], b.assignees@[k]));
                    assert(b.assignees@[k].login@ == login@);
                }
                if exists|k: int|
                    0 <= k < b.assignees@.len() && (#[trigger] b.assignees@[k]).login@ == login@ {
                    let k = choose|k: int|
                        0 <= k < b.assignees@.len() && (#[trigger] b.assignees@[k]).login@
                            == login@;
                    assert(user_eq(a.assignees@[k], b.assignees@[k]));
                    assert(a.assignees@[k].login@ == login@);
                }
            }
        },
        Option::None => {},
    }
}

/// Pointwise-equal issue collections agree on how many records a filter
/// keeps.
proof fn lemma_filter_len_issue_eq(a: Seq<Issue>, b: Seq<Issue>, f: IssueFilters)
    requires
        a.len() == b.len(),
        forall|i: int| 0 <= i < a.len() ==> issue_eq(#[trigger] a[i], b[i]),
    ensures
        a.filter(|i: Issue| issue_matches(i, f)).len() == b.filter(
            |i: Issue| issue_matches(i, f),
        ).len(),
    decreases a.len(),
{
    reveal(Seq::filter);
    if a.len() > 0 {
        assert forall|i: int| 0 <= i < a.drop_last().len() implies issue_eq(
            #[trigger] a.drop_last()[i],
            b.drop_last()[i],
        ) by {
            assert(issue_eq(a[i], b[i]));
        }
        lemma_filter_len_issue_eq(a.drop_last(), b.drop_last(), f);
        lemma_issue_matches_eq(a.last(), b.last(), f);
    }
}

/// A filtered sequence only holds members of its source.
proof fn lemma_filter_subset<A>(s: Seq<A>, pred: spec_fn(A) -> bool)
    ensures
        forall|x: A| #[trigger] s.filter(pred).contains(x) ==> s.contains(x),
    decreases s.len(),
{
    reveal(Seq::filter);
    if s.len() > 0 {
        lemma_filter_subset(s.drop_last(), pred);
        assert forall|x: A| #[trigger] s.filter(pred).contains(x) implies s.contains(x) by {
            if s.drop_last().filter(pred).contains(x) {
                assert(s.drop_last().contains(x));
                let i = choose|i: int| 0 <= i < s.drop_last().len() && s.drop_last()[i] == x;
                assert(s[i] == x);
            } else {
                assert(x == s.last());
            }
        }
    }
}

/// Clones of all the issues, record for record.
fn clone_issues(v: &Vec<Issue>) -> (r: Vec<Issue>)
    ensures
        r@.len() == v@.len(),
        forall|i: int| 0 <= i < r@.len() ==> issue_eq(#[trigger] r@[i], v@[i]),
{
    let r = v.clone();
    proof {
        assert forall|i: int| 0 <= i < r@.len() implies issue_eq(#[trigger] r@[i], v@[i]) by {}
    }
    r
}

/// `x` equals, field for field, some record of `stored`.
pub open spec fn issue_among(stored: Seq<Issue>, x: Issue) -> bool {
    exists|j: int| 0 <= j < stored.len() && issue_eq(x, #[trigger] stored[j])
}

/// Every record of `items` equals, field for field, some record of
/// `stored`.
pub open spec fn issues_drawn_from(items: Seq<Issue>, stored: Seq<Issue>) -> bool {
    forall|k: int| 0 <= k < items.len() ==> issue_among(stored, #[trigger] items[k])
}

/// Every record of `stored` that passes the filter equals, field for field,
/// some record of `items`.
pub open spec fn issues_cover(stored: Seq<Issue>, f: IssueFilters, items: Seq<Issue>) -> bool {
    forall|j: int|
        0 <= j < stored.len() && issue_matches(#[trigger] stored[j], f) ==> issue_among(
            items,
            stored[j],
        )
}

/// `x` equals, field for field, some comment of `own`.
pub open spec fn comment_among(own: Seq<Comment>, x: Comment) -> bool {
    exists|j: int| 0 <= j < own.len() && comment_eq(x, #[trigger] own[j])
}

/// Every comment of `items` equals, field for field, some comment of `own`.
pub open spec fn comments_drawn_from(items: Seq<Comment>, own: Seq<Comment>) -> bool {
    forall|k: int| 0 <= k < items.len() ==> comment_among(own, #[trigger] items[k])
}

/// Every comment of `own` equals, field for field, some comment of `items`.
pub open spec fn comments_cover(own: Seq<Comment>, items: Seq<Comment>) -> bool {
    forall|j: int| 0 <= j < own.len() ==> comment_among(items, #[trigger] own[j])
}

/// `x` equals, field for field, some record of `stored`.
pub open spec fn milestone_among(stored: Seq<Milestone>, x: Milestone) -> bool {
    exists|j: int| 0 <= j < stored.len() && milestone_eq(x, #[trigger] stored[j])
}

/// Every record of `items` equals, field for field, some record of
/// `stored`.
pub open spec fn milestones_drawn_from(items: Seq<Milestone>, stored: Seq<Milestone>) -> bool {
    forall|k: int| 0 <= k < items.len() ==> milestone_among(stored, #[trigger] items[k])
}

/// Every record of `stored` that passes the state filter equals, field for
/// field, some record of `items`.
pub open spec fn milestones_cover(
    stored: Seq<Milestone>,
    state: Option<String>,
    items: Seq<Milestone>,
) -> bool {
    forall|j: int|
        0 <= j < stored.len() && ms_state_matches(#[trigger] stored[j], state) ==> milestone_among(
            items,
            stored[j],
        )
}

/// Some record-for-record copy of the stored issues yields this page: the
/// page is the window of a sorted arrangement of exactly its matching
/// records.
pub open spec fn issues_window_of_store(
    stored: Seq<Issue>,
    f: IssueFilters,
    items: Seq<Issue>,
) -> bool {
    exists|base: Seq<Issue>|
        {
            &&& #[trigger] base.len() == stored.len()
            &&& (forall|i: int| 0 <= i < base.len() ==> issue_eq(#[trigger] base[i], stored[i]))
            &&& page_of_sorted(
                base.filter(|i: Issue| issue_matches(i, f)),
                |a: Issue, b: Issue| issue_le(
                    spec_sort_field(f.sort),
                    spec_sort_asc(f.direction),
                    a,
                    b,
                ),
                spec_page(f.page),
                spec_per_page(f.per_page),
                items,
            )
        }
}

/// Some comment-for-comment copy of the issue's comments yields this page:
/// the page is the window of a creation-time ordering of exactly those
/// comments.
pub open spec fn comments_window(
    own: Seq<Comment>,
    page: u32,
    per_page: u32,
    items: Seq<Comment>,
) -> bool {
    exists|base: Seq<Comment>|
        {
            &&& #[trigger] base.len() == own.len()
            &&& (forall|j: int| 0 <= j < base.len() ==> comment_eq(#[trigger] base[j], own[j]))
            &&& page_of_sorted(base, |a: Comment, b: Comment| comment_le(a, b), page, per_page, items)
        }
}

/// Some record-for-record copy of the stored milestones yields this page:
/// the page is the window of a sorted arrangement of exactly its matching
/// records.
pub open spec fn milestones_window_of_store(
    stored: Seq<Milestone>,
    state: Option<String>,
    sort: Option<String>,
    direction: Option<String>,
    page: Option<u32>,
    per_page: Option<u32>,
    items: Seq<Milestone>,
) -> bool {
    exists|base: Seq<Milestone>|
        {
            &&& #[trigger] base.len() == stored.len()
            &&& (forall|i: int|
                0 <= i < base.len() ==> milestone_eq(#[trigger] base[i], stored[i]))
            &&& page_of_sorted(
                base.filter(|m: Milestone| ms_state_matches(m, state)),
                |a: Milestone, b: Milestone| ms_le(
                    spec_ms_sort_field(sort),
                    spec_ms_sort_asc(direction),
                    a,
                    b,
                ),
                spec_page(page),
                spec_per_page(per_page),
                items,
            )
        }
}

/// Pointwise-equal milestone collections agree on how many records the
/// state filter keeps.
proof fn lemma_filter_len_ms_eq(a: Seq<Milestone>, b: Seq<Milestone>, state: Option<String>)
    requires
        a.len() == b.len(),
        forall|i: int| 0 <= i < a.len() ==> milestone_eq(#[trigger] a[i], b[i]),
    ensures
        a.filter(|m: Milestone| ms_state_matches(m, state)).len() == b.filter(
            |m: Milestone| ms_state_matches(m, state),
        ).len(),
    decreases a.len(),
{
    reveal(Seq::filter);
    if a.len() > 0 {
        assert forall|i: int| 0 <= i < a.drop_last().len() implies milestone_eq(
            #[trigger] a.drop_last()[i],
            b.drop_last()[i],
        ) by {
            assert(milestone_eq(a[i], b[i]));
        }
        lemma_filter_len_ms_eq(a.drop_last(), b.drop_last(), state);
        assert(ms_state_matches(a.last(), state) == ms_state_matches(b.last(), state));
    }
}

impl Store {
    /// Lists issues with filtering, sorting and pagination: the total is
    /// the number of stored issues that match, every returned record
    /// matches and equals a stored matching issue field for field, the page
    /// is sorted as asked, and an uncut first page holds every matching
    /// issue.
    #[verifier::rlimit(100)]
    pub fn list_issues(&self, filters: &IssueFilters) -> (r: (Vec<Issue>, usize))
        requires
            self.wf(),
        ensures
            ({
                let pred = |i: Issue| issue_matches(i, *filters);
                let field = spec_sort_field(filters.sort);
                let asc = spec_sort_asc(filters.direction);
                let page = spec_page(filters.page);
                let per = spec_per_page(filters.per_page);
                &&& r.1 == self.issues@.filter(pred).len()
                &&& r.0@.len() == page_end(page, per, r.1 as int) - page_start(
                    page,
                    per,
                    r.1 as int,
                )
                &&& (forall|k: int|
                    0 <= k < r.0@.len() ==> issue_matches(#[trigger] r.0@[k], *filters))
                &&& (forall|i: int, j: int|
                    0 <= i < j < r.0@.len() ==> issue_le(
                        field,
                        asc,
                        #[trigger] r.0@[i],
                        #[trigger] r.0@[j],
                    ))
                &&& issues_drawn_from(r.0@, self.issues@)
                &&& (page == 1 && r.1 <= per ==> issues_cover(self.issues@, *filters, r.0@))
                &&& issues_window_of_store(self.issues@, *filters, r.0@)
            }),
    {
        broadcast use vstd::seq_lib::group_to_multiset_ensures;
        broadcast use vstd::seq_lib::group_filter_ensures;
        broadcast use vstd::multiset::group_multiset_axioms;

        let ghost pred = |i: Issue| issue_matches(i, *filters);
        let base = clone_issues(&self.issues);
        let ghost base_view = base@;
        proof {
            lemma_filter_len_issue_eq(base_view, self.issues@, *filters);
            lemma_filter_subset(base_view, pred);
        }
        let r = list_issues_in(base, filters);
        let ghost items_view = r.0@;
        let ghost stored_view = self.issues@;
        proof {
            let filtered = base_view.filter(pred);
            let page = spec_page(filters.page);
            let per = spec_per_page(filters.per_page);
            assert(issues_drawn_from(items_view, stored_view)) by {
                assert forall|k: int| 0 <= k < items_view.len() implies issue_among(
                    stored_view,
                    #[trigger] items_view[k],
                ) by {
                    assert(items_view.contains(items_view[k]));
                    assert(items_view.to_multiset().count(items_view[k]) > 0);
                    assert(filtered.to_multiset().count(items_view[k]) > 0);
                    assert(filtered.contains(items_view[k]));
                    assert(base_view.contains(items_view[k]));
                    let j = choose|j: int|
                        0 <= j < base_view.len() && base_view[j] == items_view[k];
                    assert(issue_eq(items_view[k], stored_view[j]));
                }
            }
            if page == 1 && r.1 <= per {
                assert(issues_cover(stored_view, *filters, items_view)) by {
                    assert forall|j: int|
                        0 <= j < stored_view.len() && issue_matches(
                            #[trigger] stored_view[j],
                            *filters,
                        ) implies issue_among(items_view, stored_view[j]) by {
                        lemma_issue_matches_eq(base_view[j], stored_view[j], *filters);
                        assert(pred(base_view[j]));
                        assert(filtered.contains(base_view[j]));
                        assert(filtered.to_multiset().count(base_view[j]) > 0);
                        assert(items_view.to_multiset().count(base_view[j]) > 0);
                        assert(items_view.contains(base_view[j]));
                        let k = choose|k: int|
                            0 <= k < items_view.len() && items_view[k] == base_view[j];
                        assert(issue_eq(items_view[k], stored_view[j]));
                    }
                }
            }
            assert(issues_window_of_store(stored_view, *filters, items_view)) by {
                assert(base_view.len() == stored_view.len());
                assert(page_of_sorted(
                    base_view.filter(|i: Issue| issue_matches(i, *filters)),
                    |a: Issue, b: Issue| issue_le(
                        spec_sort_field(filters.sort),
                        spec_sort_asc(filters.direction),
                        a,
                        b,
                    ),
                    spec_page(filters.page),
                    spec_per_page(filters.per_page),
                    items_view,
                ));
            }
        }
        r
    }

    /// Lists the comments of one issue, oldest first, paginated: the total
    /// is the number of stored comments under the issue, every returned
    /// record equals a stored one field for field, and an uncut first page
    /// holds all of them.
    #[verifier::rlimit(100)]
    pub fn list_comments_for_issue(&self, issue_number: u64, page: u32, per_page: u32) -> (r: (
        Vec<Comment>,
        usize,
    ))
        requires
            self.wf(),
        ensures
            ({
                let own = self.comments@.filter(
                    |rec: crate::store::CommentRecord| rec.issue_number == issue_number,
                ).map_values(|rec: crate::store::CommentRecord| rec.comment);
                let pg = if page < 1 {
                    1u32
                } else {
                    page
                };
                let pp = if per_page > 100 {
                    100u32
                } else {
                    per_page
                };
                &&& r.1 == own.len()
                &&& r.0@.len() == page_end(pg, pp, own.len() as int) - page_start(
                    pg,
                    pp,
                    own.len() as int,
                )
                &&& (forall|i: int, j: int|
                    0 <= i < j < r.0@.len() ==> comment_le(#[trigger] r.0@[i], #[trigger] r.0@[j]))
                &&& comments_drawn_from(r.0@, own)
                &&& (pg == 1 && own.len() <= pp ==> comments_cover(own, r.0@))
                &&& comments_window(own, pg, pp, r.0@)
            }),
    {
        broadcast use vstd::seq_lib::group_to_multiset_ensures;
        broadcast use vstd::multiset::group_multiset_axioms;

        let ghost recpred = |rec: crate::store::CommentRecord| rec.issue_number == issue_number;
        let ghost tocomment = |rec: crate::store::CommentRecord| rec.comment;
        let ghost own = self.comments@.filter(recpred).map_values(tocomment);

        // collect clones of this issue's comments
        let mut base: Vec<Comment> = Vec::new();
        let mut i: usize = 0;
        proof {
            reveal(Seq::filter);
            assert(self.comments@.take(0) =~= Seq::<crate::store::CommentRecord>::empty());
        }
        while i < self.comments.len()
            invariant
                0 <= i <= self.comments@.len(),
                recpred == (|rec: crate::store::CommentRecord| rec.issue_number == issue_number),
                tocomment == (|rec: crate::store::CommentRecord| rec.comment),
                base@.len() == self.comments@.take(i as int).filter(recpred).len(),
                forall|j: int|
                    0 <= j < base@.len() ==> comment_eq(
                        #[trigger] base@[j],
                        self.comments@.take(i as int).filter(recpred).map_values(tocomment)[j],
                    ),
            decreases self.comments@.len() - i,
        {
            proof {
                reveal(Seq::filter);
                assert(self.comments@.take(i + 1).drop_last() =~= self.comments@.take(i as int));
                assert(self.comments@.take(i + 1).last() == self.comments@[i as int]);
            }
            if self.comments[i].issue_number == issue_number {
                let c = self.comments[i].comment.clone();
                base.push(c);
                proof {
                    let prevf = self.comments@.take(i as int).filter(recpred);
                    let newf = self.comments@.take(i + 1).filter(recpred);
                    assert(newf =~= prevf.push(self.comments@[i as int]));
                    assert(newf.map_values(tocomment) =~= prevf.map_values(tocomment).push(
                        self.comments@[i as int].comment,
                    ));
                }
            }
            i += 1;
        }
        proof {
            assert(self.comments@.take(self.comments@.len() as int) =~= self.comments@);
            assert(base@.len() == own.len());
            assert(forall|j: int| 0 <= j < base@.len() ==> comment_eq(#[trigger] base@[j], own[j]));
        }
        let total = base.len();
        let ghost base_view = base@;
        let sorted = sort_comments(base);
        let ghost sorted_view = sorted@;
        let pg: u32 = if page < 1 {
            1
        } else {
            page
        };
        let pp: u32 = if per_page > 100 {
            100
        } else {
            per_page
        };
        let items = paginate(sorted, pg, pp);
        proof {
            let start = page_start(pg, pp, own.len() as int);
            let end = page_end(pg, pp, own.len() as int);
            assert(items@ =~= sorted_view.subrange(start, end));
            assert(comments_drawn_from(items@, own)) by {
                assert forall|k: int| 0 <= k < items@.len() implies comment_among(
                    own,
                    #[trigger] items@[k],
                ) by {
                    assert(items@[k] == sorted_view[start + k]);
                    assert(sorted_view.contains(sorted_view[start + k]));
                    assert(sorted_view.to_multiset().count(items@[k]) > 0);
                    assert(base_view.to_multiset().count(items@[k]) > 0);
                    assert(base_view.contains(items@[k]));
                    let j = choose|j: int| 0 <= j < base_view.len() && base_view[j] == items@[k];
                    assert(comment_eq(base_view[j], own[j]));
                    assert(comment_eq(items@[k], own[j]));
                }
            }
            if pg == 1 && own.len() <= pp {
                assert((pg as int - 1) * (pp as int) == 0) by (nonlinear_arith)
                    requires
                        pg == 1,
                ;
                assert(start == 0);
                assert(end == sorted_view.len());
                assert(items@ =~= sorted_view);
                assert(comments_cover(own, items@)) by {
                    assert forall|j: int| 0 <= j < own.len() implies comment_among(
                        items@,
                        #[trigger] own[j],
                    ) by {
                        assert(base_view.contains(base_view[j]));
                        assert(base_view.to_multiset().count(base_view[j]) > 0);
                        assert(sorted_view.to_multiset().count(base_view[j]) > 0);
                        assert(items@.contains(base_view[j]));
                        let k = choose|k: int| 0 <= k < items@.len() && items@[k] == base_view[j];
                        assert(comment_eq(base_view[j], own[j]));
                        assert(comment_eq(own[j], items@[k]));
                    }
                }
            }
            assert(comments_window(own, pg, pp, items@)) by {
                assert(base_view.len() == own.len());
                assert(page_of_sorted(
                    base_view,
                    |a: Comment, b: Comment| comment_le(a, b),
                    pg,
                    pp,
                    items@,
                )) by {
                    let le = |a: Comment, b: Comment| comment_le(a, b);
                    assert(sorted_view.to_multiset() == base_view.to_multiset());
                    assert(forall|i: int, j: int|
                        0 <= i < j < sorted_view.len() ==> le(
                            #[trigger] sorted_view[i],
                            #[trigger] sorted_view[j],
                        ));
                    assert(items@ == sorted_view.subrange(
                        page_start(pg, pp, sorted_view.len() as int),
                        page_end(pg, pp, sorted_view.len() as int),
                    ));
                }
            }
        }
        (items, total)
    }

    /// Lists milestones with a state filter, sorting and pagination: the
    /// page is as long as the window over the stored matching records
    /// allows, every returned record matches the filter and equals a stored
    /// record field for field, the page is sorted as asked, the page is a
    /// window of a sorted arrangement of exactly the matching records, and
    /// an uncut first page holds every matching milestone.
    #[verifier::rlimit(100)]
    pub fn list_milestones(
        &self,
        state: &Option<String>,
        sort: &Option<String>,
        direction: &Option<String>,
        page: Option<u32>,
        per_page: Option<u32>,
    ) -> (r: Vec<Milestone>)
        requires
            self.wf(),
        ensures
            ({
                let pred = |m: Milestone| ms_state_matches(m, *state);
                let field = spec_ms_sort_field(*sort);
                let asc = spec_ms_sort_asc(*direction);
                let pg = spec_page(page);
                let per = spec_per_page(per_page);
                let flen = self.milestones@.filter(pred).len() as int;
                &&& r@.len() == page_end(pg, per, flen) - page_start(pg, per, flen)
                &&& (forall|k: int|
                    0 <= k < r@.len() ==> ms_state_matches(#[trigger] r@[k], *state))
                &&& (forall|i: int, j: int|
                    0 <= i < j < r@.len() ==> ms_le(field, asc, #[trigger] r@[i], #[trigger] r@[j]))
                &&& milestones_drawn_from(r@, self.milestones@)
                &&& (pg == 1 && flen <= per ==> milestones_cover(self.milestones@, *state, r@))
                &&& milestones_window_of_store(
                    self.milestones@,
                    *state,
                    *sort,
                    *direction,
                    page,
                    per_page,
                    r@,
                )
            }),
    {
        broadcast use vstd::seq_lib::group_to_multiset_ensures;
        broadcast use vstd::seq_lib::group_filter_ensures;
        broadcast use vstd::multiset::group_multiset_axioms;

        let ghost pred = |m: Milestone| ms_state_matches(m, *state);
        let base = self.milestones.clone();
        let ghost base_view = base@;
        let ghost stored_view = self.milestones@;
        proof {
            assert forall|i: int| 0 <= i < base_view.len() implies milestone_eq(
                #[trigger] base_view[i],
                stored_view[i],
            ) by {}
            lemma_filter_subset(base_view, pred);
            lemma_filter_len_ms_eq(base_view, stored_view, *state);
        }
        let r = list_milestones_in(base, state, sort, direction, page, per_page);
        let ghost items_view = r@;
        proof {
            let filtered = base_view.filter(pred);
            let pg = spec_page(page);
            let per = spec_per_page(per_page);
            assert(milestones_drawn_from(items_view, stored_view)) by {
                assert forall|k: int| 0 <= k < items_view.len() implies milestone_among(
                    stored_view,
                    #[trigger] items_view[k],
                ) by {
                    assert(items_view.contains(items_view[k]));
                    assert(items_view.to_multiset().count(items_view[k]) > 0);
                    assert(filtered.to_multiset().count(items_view[k]) > 0);
                    assert(filtered.contains(items_view[k]));
                    assert(base_view.contains(items_view[k]));
                    let j = choose|j: int|
                        0 <= j < base_view.len() && base_view[j] == items_view[k];
                    assert(milestone_eq(items_view[k], stored_view[j]));
                }
            }
            if pg == 1 && stored_view.filter(pred).len() <= per {
                assert(milestones_cover(stored_view, *state, items_view)) by {
                    assert forall|j: int|
                        0 <= j < stored_view.len() && ms_state_matches(
                            #[trigger] stored_view[j],
                            *state,
                        ) implies milestone_among(items_view, stored_view[j]) by {
                        assert(milestone_eq(base_view[j], stored_view[j]));
                        assert(ms_state_matches(base_view[j], *state));
                        assert(pred(base_view[j]));
                        assert(filtered.contains(base_view[j]));
                        assert(filtered.to_multiset().count(base_view[j]) > 0);
                        assert(items_view.to_multiset().count(base_view[j]) > 0);
                        assert(items_view.contains(base_view[j]));
                        let k = choose|k: int|
                            0 <= k < items_view.len() && items_view[k] == base_view[j];
                        assert(milestone_eq(items_view[k], stored_view[j]));
                    }
                }
            }
            assert(milestones_window_of_store(
                stored_view,
                *state,
                *sort,
                *direction,
                page,
                per_page,
                items_view,
            )) by {
                assert(base_view.len() == stored_view.len());
                assert(page_of_sorted(
                    base_view.filter(|m: Milestone| ms_state_matches(m, *state)),
                    |a: Milestone, b: Milestone| ms_le(
                        spec_ms_sort_field(*sort),
                        spec_ms_sort_asc(*direction),
                        a,
                        b,
                    ),
                    spec_page(page),
                    spec_per_page(per_page),
                    items_view,
                ));
            }
        }
        r
    }
}

} // verus!
