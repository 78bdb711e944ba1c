//! The document store: issues, comments, labels, milestones and their
//! sequence counters, as one in-memory collection with the mutation rules
//! of the storage layout. Reading the collection from disk and writing it
//! back is the caller's business; every rule about identities, counters and
//! record contents lives here.

use vstd::prelude::*;
use vstd::string::*;
use vstd::pervasive::VecAdditionalExecFns;
use crate::models::{
    Comment, Issue, Label, Meta, Milestone, SimpleUser, Timestamp, comment_eq, issue_eq, label_eq,
    labels_eq, milestone_eq, opt_milestone_eq, opt_string_eq, opt_user_eq, user_eq, users_eq,
};
use crate::error::AppError;
use crate::strutil::{str_eq, u64_dec, u64_to_string};

verus! {

/// A stored comment together with the issue that owns it. Ownership is a
/// property of where the comment file lives, not of the comment record, so
/// the store tracks it alongside.
pub struct CommentRecord {
    pub issue_number: u64,
    pub comment: Comment,
}

/// The whole document store of one backing repository.
pub struct Store {
    pub meta: Meta,
    pub issues: Vec<Issue>,
    pub comments: Vec<CommentRecord>,
    pub labels: Vec<Label>,
    pub milestones: Vec<Milestone>,
}

/// There is an issue numbered `n`.
pub open spec fn has_issue(s: Seq<Issue>, n: u64) -> bool {
    exists|i: int| 0 <= i < s.len() && s[i].number == n
}

/// The index of the issue numbered `n` (unique under `Store::wf`).
pub open spec fn issue_index(s: Seq<Issue>, n: u64) -> int {
    choose|i: int| 0 <= i < s.len() && s[i].number == n
}

/// The issue numbered `n`.
pub open spec fn issue_at(s: Seq<Issue>, n: u64) -> Issue {
    s[issue_index(s, n)]
}

/// There is a comment with id `id`.
pub open spec fn has_comment(s: Seq<CommentRecord>, id: u64) -> bool {
    exists|i: int| 0 <= i < s.len() && s[i].comment.id == id
}

/// The index of the comment with id `id` (unique under `Store::wf`).
pub open spec fn comment_index(s: Seq<CommentRecord>, id: u64) -> int {
    choose|i: int| 0 <= i < s.len() && s[i].comment.id == id
}

/// There is a milestone numbered `n`.
pub open spec fn has_milestone(s: Seq<Milestone>, n: u64) -> bool {
    exists|i: int| 0 <= i < s.len() && s[i].number == n
}

/// The index of the milestone numbered `n` (unique under `Store::wf`).
pub open spec fn milestone_index(s: Seq<Milestone>, n: u64) -> int {
    choose|i: int| 0 <= i < s.len() && s[i].number == n
}

/// The milestone numbered `n`.
pub open spec fn milestone_at(s: Seq<Milestone>, n: u64) -> Milestone {
    s[milestone_index(s, n)]
}

/// There is a label named `name`.
pub open spec fn has_label(s: Seq<Label>, name: Seq<char>) -> bool {
    exists|i: int| 0 <= i < s.len() && s[i].name@ == name
}

/// The index of the first label named `name`.
pub open spec fn first_label_index(s: Seq<Label>, name: Seq<char>) -> int
    decreases s.len(),
{
    if s.len() == 0 {
        0
    } else if s[0].name@ == name {
        0
    } else {
        1 + first_label_index(s.drop_first(), name)
    }
}

/// The largest label id, 0 when there are none.
pub open spec fn max_label_id(s: Seq<Label>) -> u64
    decreases s.len(),
{
    if s.len() == 0 {
        0u64
    } else {
        let m = max_label_id(s.drop_last());
        if s.last().id > m {
            s.last().id
        } else {
            m
        }
    }
}

/// The message of a missing-issue error.
pub open spec fn issue_not_found_msg(n: u64) -> Seq<char> {
    "Issue #"@.add(u64_dec(n as nat)).add(" not found"@)
}

/// The message of a missing-comment error.
pub open spec fn comment_not_found_msg(id: u64) -> Seq<char> {
    "Comment #"@.add(u64_dec(id as nat)).add(" not found"@)
}

/// The message of a missing-milestone error.
pub open spec fn milestone_not_found_msg(n: u64) -> Seq<char> {
    "Milestone #"@.add(u64_dec(n as nat)).add(" not found"@)
}

impl Store {
    /// Well-formedness: counters start at 1 and every identity ever handed
    /// out is below its counter and unique in its namespace.
    pub open spec fn wf(self) -> bool {
        &&& self.meta.next_issue_id >= 1
        &&& self.meta.next_comment_id >= 1
        &&& self.meta.next_milestone_id >= 1
        &&& forall|i: int|
            0 <= i < self.issues@.len() ==> 1 <= (#[trigger] self.issues@[i]).number
                < self.meta.next_issue_id
        &&& forall|i: int, j: int|
            0 <= i < j < self.issues@.len() ==> (#[trigger] self.issues@[i]).number != (
            #[trigger] self.issues@[j]).number
        &&& forall|i: int|
            0 <= i < self.comments@.len() ==> 1 <= (#[trigger] self.comments@[i]).comment.id
                < self.meta.next_comment_id
        &&& forall|i: int, j: int|
            0 <= i < j < self.comments@.len() ==> (#[trigger] self.comments@[i]).comment.id != (
            #[trigger] self.comments@[j]).comment.id
        &&& forall|i: int|
            0 <= i < self.milestones@.len() ==> 1 <= (#[trigger] self.milestones@[i]).number
                < self.meta.next_milestone_id
        &&& forall|i: int, j: int|
            0 <= i < j < self.milestones@.len() ==> (#[trigger] self.milestones@[i]).number != (
            #[trigger] self.milestones@[j]).number
    }

    /// An empty store with all counters at 1.
    pub fn new() -> (r: Store)
        ensures
            r.wf(),
            r.meta.next_issue_id == 1,
            r.meta.next_comment_id == 1,
            r.meta.next_milestone_id == 1,
            r.issues@.len() == 0,
            r.comments@.len() == 0,
            r.labels@.len() == 0,
            r.milestones@.len() == 0,
    {
        Store {
            meta: Meta::default(),
            issues: Vec::new(),
            comments: Vec::new(),
            labels: Vec::new(),
            milestones: Vec::new(),
        }
    }

    /// Decides well-formedness at run time: a caller that obtained a
    /// collection from outside the library can refuse one whose identities
    /// are out of range or duplicated before using it.
    pub fn check_wf(&self) -> (r: bool)
        ensures
            r == self.wf(),
    {
        if self.meta.next_issue_id < 1 || self.meta.next_comment_id < 1
            || self.meta.next_milestone_id < 1 {
            return false;
        }
        let mut i: usize = 0;
        while i < self.issues.len()
            invariant
                0 <= i <= self.issues@.len(),
                self.meta.next_issue_id >= 1,
                self.meta.next_comment_id >= 1,
                self.meta.next_milestone_id >= 1,
                forall|a: int|
                    0 <= a < i ==> 1 <= (#[trigger] self.issues@[a]).number
                        < self.meta.next_issue_id,
                forall|a: int, b: int|
                    0 <= a < b < i ==> (#[trigger] self.issues@[a]).number != (
                    #[trigger] self.issues@[b]).number,
            decreases self.issues@.len() - i,
        {
            let n = self.issues[i].number;
            if n < 1 || n >= self.meta.next_issue_id {
                return false;
            }
            let mut j: usize = 0;
            while j < i
                invariant
                    0 <= j <= i < self.issues@.len(),
                    forall|b: int| 0 <= b < j ==> (#[trigger] self.issues@[b]).number != n,
                    n == self.issues@[i as int].number,
                decreases i - j,
            {
                if self.issues[j].number == n {
                    return false;
                }
                j += 1;
            }
            i += 1;
        }
        let mut i: usize = 0;
        while i < self.comments.len()
            invariant
                0 <= i <= self.comments@.len(),
                self.meta.next_issue_id >= 1,
                self.meta.next_comment_id >= 1,
                self.meta.next_milestone_id >= 1,
                forall|a: int|
                    0 <= a < self.issues@.len() ==> 1 <= (#[trigger] self.issues@[a]).number
                        < self.meta.next_issue_id,
                forall|a: int, b: int|
                    0 <= a < b < self.issues@.len() ==> (#[trigger] self.issues@[a]).number != (
                    #[trigger] self.issues@[b]).number,
                forall|a: int|
                    0 <= a < i ==> 1 <= (#[trigger] self.comments@[a]).comment.id
                        < self.meta.next_comment_id,
                forall|a: int, b: int|
                    0 <= a < b < i ==> (#[trigger] self.comments@[a]).comment.id != (
                    #[trigger] self.comments@[b]).comment.id,
            decreases self.comments@.len() - i,
        {
            let id = self.comments[i].comment.id;
            if id < 1 || id >= self.meta.next_comment_id {
                return false;
            }
            let mut j: usize = 0;
            while j < i
                invariant
                    0 <= j <= i < self.comments@.len(),
                    forall|b: int| 0 <= b < j ==> (#[trigger] self.comments@[b]).comment.id != id,
                    id == self.comments@[i as int].comment.id,
                decreases i - j,
            {
                if self.comments[j].comment.id == id {
                    return false;
                }
                j += 1;
            }
            i += 1;
        }
        let mut i: usize = 0;
        while i < self.milestones.len()
            invariant
                0 <= i <= self.milestones@.len(),
                self.meta.next_issue_id >= 1,
                self.meta.next_comment_id >= 1,
                self.meta.next_milestone_id >= 1,
                forall|a: int|
                    0 <= a < self.issues@.len() ==> 1 <= (#[trigger] self.issues@[a]).number
                        < self.meta.next_issue_id,
                forall|a: int, b: int|
                    0 <= a < b < self.issues@.len() ==> (#[trigger] self.issues@[a]).number != (
                    #[trigger] self.issues@[b]).number,
                forall|a: int|
                    0 <= a < self.comments@.len() ==> 1 <= (#[trigger] self.comments@[a]).comment.id
                        < self.meta.next_comment_id,
                forall|a: int, b: int|
                    0 <= a < b < self.comments@.len() ==> (#[trigger] self.comments@[
                    a]).comment.id != (#[trigger] self.comments@[b]).comment.id,
                forall|a: int|
                    0 <= a < i ==> 1 <= (#[trigger] self.milestones@[a]).number
                        < self.meta.next_milestone_id,
                forall|a: int, b: int|
                    0 <= a < b < i ==> (#[trigger] self.milestones@[a]).number != (
                    #[trigger] self.milestones@[b]).number,
            decreases self.milestones@.len() - i,
        {
            let n = self.milestones[i].number;
            if n < 1 || n >= self.meta.next_milestone_id {
                return false;
            }
            let mut j: usize = 0;
            while j < i
                invariant
                    0 <= j <= i < self.milestones@.len(),
                    forall|b: int| 0 <= b < j ==> (#[trigger] self.milestones@[b]).number != n,
                    n == self.milestones@[i as int].number,
                decreases i - j,
            {
                if self.milestones[j].number == n {
                    return false;
                }
                j += 1;
            }
            i += 1;
        }
        true
    }

    /// The sequence counters.
    pub fn read_meta(&self) -> (r: Meta)
        ensures
            r == self.meta,
    {
        self.meta
    }

    /// Where the issue numbered `n` sits, if anywhere.
    fn find_issue_index(&self, n: u64) -> (r: Option<usize>)
        ensures
            match r {
                Option::Some(i) => i < self.issues@.len() && self.issues@[i as int].number == n,
                Option::None => !has_issue(self.issues@, n),
            },
    {
        let mut i: usize = 0;
        while i < self.issues.len()
            invariant
                0 <= i <= self.issues@.len(),
                forall|j: int| 0 <= j < i ==> (#[trigger] self.issues@[j]).number != n,
            decreases self.issues@.len() - i,
        {
            if self.issues[i].number == n {
                return Option::Some(i);
            }
            i += 1;
        }
        Option::None
    }

    /// Reads the issue numbered `number`; missing issues are an error.
    pub fn read_issue(&self, number: u64) -> (r: Result<Issue, AppError>)
        requires
            self.wf(),
        ensures
            r is Ok <==> has_issue(self.issues@, number),
            match r {
                Result::Ok(issue) => issue_eq(issue, issue_at(self.issues@, number)),
                Result::Err(e) => e matches AppError::NotFound(m) && m@ == issue_not_found_msg(
                    number,
                ),
            },
    {
        match self.find_issue_index(number) {
            Option::Some(i) => {
                proof {
                    assert(self.issues@[issue_index(self.issues@, number)].number == number);
                    assert(issue_index(self.issues@, number) == i as int);
                }
                Result::Ok(self.issues[i].clone())
            },
            Option::None => {
                let mut m = "Issue #".to_owned();
                m.append(u64_to_string(number).as_str());
                m.append(" not found");
                Result::Err(AppError::NotFound(m))
            },
        }
    }

    /// Writes `issue` under its number: replaces the record of that number
    /// or adds a new one. Numbers are only ever allocated by the counter,
    /// so a fresh number must sit below it.
    pub fn write_issue(&mut self, issue: Issue)
        requires
            old(self).wf(),
            1 <= issue.number < old(self).meta.next_issue_id,
        ensures
            final(self).wf(),
            final(self).meta == old(self).meta,
            final(self).comments@ == old(self).comments@,
            final(self).labels@ == old(self).labels@,
            final(self).milestones@ == old(self).milestones@,
            final(self).issues@ == if has_issue(old(self).issues@, issue.number) {
                old(self).issues@.update(issue_index(old(self).issues@, issue.number), issue)
            } else {
                old(self).issues@.push(issue)
            },
    {
        let n = issue.number;
        match self.find_issue_index(n) {
            Option::Some(i) => {
                proof {
                    assert(self.issues@[issue_index(self.issues@, n)].number == n);
                    assert(issue_index(self.issues@, n) == i as int);
                }
                self.issues.set(i, issue);
            },
            Option::None => {
                self.issues.push(issue);
            },
        }
    }
}

/// Does any name in `names` read `name`?
fn name_list_contains(names: &Vec<String>, name: &str) -> (r: bool)
    ensures
        r == names.deep_view().contains(name@),
{
    let mut i: usize = 0;
    while i < names.len()
        invariant
            0 <= i <= names@.len(),
            forall|j: int| 0 <= j < i ==> names.deep_view()[j] != name@,
        decreases names@.len() - i,
    {
        if str_eq(names[i].as_str(), name) {
            proof {
                assert(names.deep_view()[i as int] == name@);
            }
            return true;
        }
        i += 1;
    }
    false
}

/// Clones of the labels in `all` whose name appears in `names`, in store
/// order.
fn filter_labels_by_names(all: &Vec<Label>, names: &Vec<String>) -> (r: Vec<Label>)
    ensures
        labels_eq(r@, all@.filter(|l: Label| names.deep_view().contains(l.name@))),
{
    let ghost pred = |l: Label| names.deep_view().contains(l.name@);
    let mut out: Vec<Label> = Vec::new();
    let mut i: usize = 0;
    proof {
        reveal(Seq::filter);
        assert(all@.take(0) =~= Seq::<Label>::empty());
    }
    while i < all.len()
        invariant
            0 <= i <= all@.len(),
            pred == (|l: Label| names.deep_view().contains(l.name@)),
            labels_eq(out@, all@.take(i as int).filter(pred)),
        decreases all@.len() - i,
    {
        proof {
            reveal(Seq::filter);
            assert(all@.take(i + 1).drop_last() =~= all@.take(i as int));
            assert(all@.take(i + 1).last() == all@[i as int]);
        }
        if name_list_contains(names, all[i].name.as_str()) {
            let c = all[i].clone();
            out.push(c);
            proof {
                assert(pred(all@[i as int]));
                assert(all@.take(i + 1).filter(pred) =~= all@.take(i as int).filter(pred).push(
                    all@[i as int],
                ));
            }
        } else {
            proof {
                assert(!pred(all@[i as int]));
                assert(all@.take(i + 1).filter(pred) =~= all@.take(i as int).filter(pred));
            }
        }
        i += 1;
    }
    proof {
        assert(all@.take(all@.len() as int) =~= all@);
    }
    out
}

/// A clone of the first milestone numbered `number`, if any.
fn find_milestone(ms: &Vec<Milestone>, number: u64) -> (r: Option<Milestone>)
    ensures
        r is Some <==> has_milestone(ms@, number),
        match r {
            Option::Some(m) => exists|i: int|
                0 <= i < ms@.len() && (#[trigger] ms@[i]).number == number && milestone_eq(
                    m,
                    ms@[i],
                ),
            Option::None => true,
        },
{
    let mut i: usize = 0;
    while i < ms.len()
        invariant
            0 <= i <= ms@.len(),
            forall|j: int| 0 <= j < i ==> (#[trigger] ms@[j]).number != number,
        decreases ms@.len() - i,
    {
        if ms[i].number == number {
            return Option::Some(ms[i].clone());
        }
        i += 1;
    }
    Option::None
}

/// Bare user records for a list of login names.
fn users_from_logins(logins: &Vec<String>) -> (r: Vec<SimpleUser>)
    ensures
        r@.len() == logins@.len(),
        forall|i: int|
            0 <= i < r@.len() ==> {
                &&& (#[trigger] r@[i]).login@ == logins@[i]@
                &&& r@[i].id == 0
                &&& r@[i].avatar_url@.len() == 0
                &&& r@[i].user_type@ == "User"@
            },
{
    let mut out: Vec<SimpleUser> = Vec::new();
    let mut i: usize = 0;
    while i < logins.len()
        invariant
            0 <= i <= logins@.len(),
            out@.len() == i,
            forall|j: int|
                0 <= j < i ==> {
                    &&& (#[trigger] out@[j]).login@ == logins@[j]@
                    &&& out@[j].id == 0
                    &&& out@[j].avatar_url@.len() == 0
                    &&& out@[j].user_type@ == "User"@
                },
        decreases logins@.len() - i,
    {
        out.push(
            SimpleUser {
                login: logins[i].clone(),
                id: 0,
                avatar_url: String::new(),
                user_type: "User".to_owned(),
            },
        );
        i += 1;
    }
    out
}

impl Store {
    /// Creates a new issue: allocates the next issue number, embeds the
    /// named labels and the given milestone by value, and appends the
    /// record. The new record starts open, unlocked and with no comments.
    pub fn create_issue(
        &mut self,
        title: String,
        body: Option<String>,
        assignees: Option<Vec<String>>,
        labels: Option<Vec<String>>,
        milestone: Option<u64>,
        user: SimpleUser,
        now: Timestamp,
    ) -> (r: Issue)
        requires
            old(self).wf(),
            old(self).meta.next_issue_id < u64::MAX,
        ensures
            final(self).wf(),
            r.number == old(self).meta.next_issue_id,
            r.id == old(self).meta.next_issue_id,
            final(self).meta.next_issue_id == old(self).meta.next_issue_id + 1,
            final(self).meta.next_comment_id == old(self).meta.next_comment_id,
            final(self).meta.next_milestone_id == old(self).meta.next_milestone_id,
            final(self).comments@ == old(self).comments@,
            final(self).labels@ == old(self).labels@,
            final(self).milestones@ == old(self).milestones@,
            final(self).issues@.len() == old(self).issues@.len() + 1,
            final(self).issues@.drop_last() == old(self).issues@,
            issue_eq(final(self).issues@.last(), r),
            r.title == title,
            r.body == body,
            r.state@ == "open"@,
            r.state_reason is None,
            !r.locked,
            r.lock_reason is None,
            labels is None ==> r.labels@.len() == 0,
            labels matches Option::Some(names) ==> labels_eq(
                r.labels@,
                old(self).labels@.filter(|l: Label| names.deep_view().contains(l.name@)),
            ),
            assignees is None ==> r.assignees@.len() == 0,
            assignees matches Option::Some(logins) ==> {
                &&& r.assignees@.len() == logins@.len()
                &&& forall|i: int|
                    0 <= i < r.assignees@.len() ==> {
                        &&& (#[trigger] r.assignees@[i]).login@ == logins@[i]@
                        &&& r.assignees@[i].id == 0
                        &&& r.assignees@[i].avatar_url@.len() == 0
                        &&& r.assignees@[i].user_type@ == "User"@
                    }
            },
            milestone is None ==> r.milestone is None,
            milestone matches Option::Some(num) ==> if has_milestone(old(self).milestones@, num) {
                r.milestone matches Option::Some(m) && milestone_eq(
                    m,
                    milestone_at(old(self).milestones@, num),
                )
            } else {
                r.milestone is None
            },
            r.comments == 0,
            r.created_at == now,
            r.updated_at == now,
            r.closed_at is None,
            r.closed_by is None,
            r.author_association@ == "OWNER"@,
            r.user == user,
    {
        let number = self.meta.next_issue_id;
        self.meta.next_issue_id = number + 1;

        let issue_labels: Vec<Label> = match &labels {
            Option::Some(names) => filter_labels_by_names(&self.labels, names),
            Option::None => Vec::new(),
        };
        let assignee_users: Vec<SimpleUser> = match &assignees {
            Option::Some(logins) => users_from_logins(logins),
            Option::None => Vec::new(),
        };
        let issue_milestone: Option<Milestone> = match milestone {
            Option::Some(num) => {
                let m = find_milestone(&self.milestones, num);
                proof {
                    if has_milestone(self.milestones@, num) {
                        let i = choose|i: int|
                            0 <= i < self.milestones@.len() && (#[trigger] self.milestones@[
                                i
                            ]).number == num && milestone_eq(m->Some_0, self.milestones@[i]);
                        assert(self.milestones@[milestone_index(self.milestones@, num)].number
                            == num);
                        assert(i == milestone_index(self.milestones@, num));
                    }
                }
                m
            },
            Option::None => Option::None,
        };

        let issue = Issue {
            id: number,
            number,
            title,
            body,
            state: "open".to_owned(),
            state_reason: Option::None,
            locked: false,
            lock_reason: Option::None,
            labels: issue_labels,
            assignees: assignee_users,
            milestone: issue_milestone,
            comments: 0,
            created_at: now,
            updated_at: now,
            closed_at: Option::None,
            closed_by: Option::None,
            author_association: "OWNER".to_owned(),
            user,
        };
        let stored = issue.clone();
        self.issues.push(stored);
        proof {
            assert(final(self).issues@.drop_last() =~= old(self).issues@);
            assert forall|i: int, j: int|
                0 <= i < j < self.issues@.len() implies (#[trigger] self.issues@[i]).number != (
            #[trigger] self.issues@[j]).number by {
                if j < self.issues@.len() - 1 {
                    assert(old(self).issues@[i].number != old(self).issues@[j].number);
                } else {
                    assert(old(self).issues@[i].number < old(self).meta.next_issue_id);
                }
            }
        }
        issue
    }
}

/// A partial update of an issue: absent fields stay as they are.
pub struct IssueUpdate {
    pub title: Option<String>,
    pub body: Option<String>,
    pub state: Option<String>,
    pub state_reason: Option<String>,
    pub assignees: Option<Vec<String>>,
    pub labels: Option<Vec<String>>,
    pub milestone: Option<u64>,
}

/// What `update_issue` does to a record: `ni` is `prev` with the patch
/// applied. Entering the closed state stamps `closed_at`/`closed_by`;
/// entering the open state clears them; any other state change leaves them.
pub open spec fn issue_update_ok(
    prev: Issue,
    ni: Issue,
    patch: IssueUpdate,
    all_labels: Seq<Label>,
    all_ms: Seq<Milestone>,
    user: SimpleUser,
    now: Timestamp,
) -> bool {
    &&& ni.id == prev.id
    &&& ni.number == prev.number
    &&& match patch.title {
        Option::Some(t) => ni.title@ == t@,
        Option::None => ni.title@ == prev.title@,
    }
    &&& match patch.body {
        Option::Some(b) => ni.body matches Option::Some(x) && x@ == b@,
        Option::None => opt_string_eq(ni.body, prev.body),
    }
    &&& match patch.state {
        Option::Some(s) => {
            &&& ni.state@ == s@
            &&& if s@ == "closed"@ && prev.state@ != "closed"@ {
                &&& ni.closed_at == Option::Some(now)
                &&& ni.closed_by matches Option::Some(u) && user_eq(u, user)
            } else if s@ == "open"@ {
                &&& ni.closed_at is None
                &&& ni.closed_by is None
            } else {
                &&& ni.closed_at == prev.closed_at
                &&& opt_user_eq(ni.closed_by, prev.closed_by)
            }
        },
        Option::None => {
            &&& ni.state@ == prev.state@
            &&& ni.closed_at == prev.closed_at
            &&& opt_user_eq(ni.closed_by, prev.closed_by)
        },
    }
    &&& match patch.state_reason {
        Option::Some(sr) => ni.state_reason matches Option::Some(x) && x@ == sr@,
        Option::None => opt_string_eq(ni.state_reason, prev.state_reason),
    }
    &&& ni.locked == prev.locked
    &&& opt_string_eq(ni.lock_reason, prev.lock_reason)
    &&& match patch.assignees {
        Option::Some(logins) => {
            &&& ni.assignees@.len() == logins@.len()
            &&& forall|i: int|
                0 <= i < ni.assignees@.len() ==> {
                    &&& (#[trigger] ni.assignees@[i]).login@ == logins@[i]@
                    &&& ni.assignees@[i].id == 0
                    &&& ni.assignees@[i].avatar_url@.len() == 0
                    &&& ni.assignees@[i].user_type@ == "User"@
                }
        },
        Option::None => users_eq(ni.assignees@, prev.assignees@),
    }
    &&& match patch.labels {
        Option::Some(names) => labels_eq(
            ni.labels@,
            all_labels.filter(|l: Label| names.deep_view().contains(l.name@)),
        ),
        Option::None => labels_eq(ni.labels@, prev.labels@),
    }
    &&& match patch.milestone {
        Option::Some(num) => if has_milestone(all_ms, num) {
            ni.milestone matches Option::Some(m) && milestone_eq(m, milestone_at(all_ms, num))
        } else {
            ni.milestone is None
        },
        Option::None => opt_milestone_eq(ni.milestone, prev.milestone),
    }
    &&& ni.comments == prev.comments
    &&& ni.created_at == prev.created_at
    &&& ni.updated_at == now
    &&& ni.author_association@ == prev.author_association@
    &&& user_eq(ni.user, prev.user)
}

/// Equality of all issue fields except the lock state and `updated_at`.
pub open spec fn issue_eq_except_lock(a: Issue, b: Issue) -> bool {
    &&& a.id == b.id
    &&& a.number == b.number
    &&& a.title@ == b.title@
    &&& opt_string_eq(a.body, b.body)
    &&& a.state@ == b.state@
    &&& opt_string_eq(a.state_reason, b.state_reason)
    &&& labels_eq(a.labels@, b.labels@)
    &&& users_eq(a.assignees@, b.assignees@)
    &&& opt_milestone_eq(a.milestone, b.milestone)
    &&& a.comments == b.comments
    &&& a.created_at == b.created_at
    &&& a.closed_at == b.closed_at
    &&& opt_user_eq(a.closed_by, b.closed_by)
    &&& a.author_association@ == b.author_association@
    &&& user_eq(a.user, b.user)
}

/// Equality of all issue fields except the comment counter and
/// `updated_at`.
pub open spec fn issue_eq_except_comments(a: Issue, b: Issue) -> bool {
    &&& a.id == b.id
    &&& a.number == b.number
    &&& a.title@ == b.title@
    &&& opt_string_eq(a.body, b.body)
    &&& a.state@ == b.state@
    &&& opt_string_eq(a.state_reason, b.state_reason)
    &&& a.locked == b.locked
    &&& opt_string_eq(a.lock_reason, b.lock_reason)
    &&& labels_eq(a.labels@, b.labels@)
    &&& users_eq(a.assignees@, b.assignees@)
    &&& opt_milestone_eq(a.milestone, b.milestone)
    &&& a.created_at == b.created_at
    &&& a.closed_at == b.closed_at
    &&& opt_user_eq(a.closed_by, b.closed_by)
    &&& a.author_association@ == b.author_association@
    &&& user_eq(a.user, b.user)
}

impl Store {
    /// Applies a partial update to the issue numbered `number`. Missing
    /// issues are an error and leave the store unchanged.
    pub fn update_issue(
        &mut self,
        number: u64,
        patch: IssueUpdate,
        user: SimpleUser,
        now: Timestamp,
    ) -> (r: Result<Issue, AppError>)
        requires
            old(self).wf(),
        ensures
            final(self).wf(),
            final(self).meta == old(self).meta,
            final(self).comments@ == old(self).comments@,
            final(self).labels@ == old(self).labels@,
            final(self).milestones@ == old(self).milestones@,
            r is Ok <==> has_issue(old(self).issues@, number),
            match r {
                Result::Ok(ret) => {
                    let idx = issue_index(old(self).issues@, number);
                    &&& final(self).issues@.len() == old(self).issues@.len()
                    &&& forall|i: int|
                        0 <= i < final(self).issues@.len() && i != idx ==> final(self).issues@[i]
                            == old(self).issues@[i]
                    &&& issue_update_ok(
                        issue_at(old(self).issues@, number),
                        final(self).issues@[idx],
                        patch,
                        old(self).labels@,
                        old(self).milestones@,
                        user,
                        now,
                    )
                    &&& issue_eq(ret, final(self).issues@[idx])
                },
                Result::Err(e) => {
                    &&& final(self).issues@ == old(self).issues@
                    &&& e matches AppError::NotFound(m) && m@ == issue_not_found_msg(number)
                },
            },
    {
        let idx = match self.find_issue_index(number) {
            Option::Some(i) => i,
            Option::None => {
                let mut m = "Issue #".to_owned();
                m.append(u64_to_string(number).as_str());
                m.append(" not found");
                return Result::Err(AppError::NotFound(m));
            },
        };
        proof {
            assert(self.issues@[issue_index(self.issues@, number)].number == number);
            assert(issue_index(self.issues@, number) == idx as int);
        }
        let mut issue = self.issues[idx].clone();
        if let Option::Some(t) = patch.title {
            issue.title = t;
        }
        if let Option::Some(b) = patch.body {
            issue.body = Option::Some(b);
        }
        if let Option::Some(s) = patch.state {
            if str_eq(s.as_str(), "closed") && !str_eq(issue.state.as_str(), "closed") {
                issue.closed_at = Option::Some(now);
                issue.closed_by = Option::Some(user.clone());
            } else if str_eq(s.as_str(), "open") {
                issue.closed_at = Option::None;
                issue.closed_by = Option::None;
            }
            issue.state = s;
        }
        if let Option::Some(sr) = patch.state_reason {
            issue.state_reason = Option::Some(sr);
        }
        if let Option::Some(logins) = &patch.assignees {
            issue.assignees = users_from_logins(logins);
        }
        if let Option::Some(names) = &patch.labels {
            issue.labels = filter_labels_by_names(&self.labels, names);
        }
        if let Option::Some(num) = patch.milestone {
            let m = find_milestone(&self.milestones, num);
            proof {
                if has_milestone(self.milestones@, num) {
                    let i = choose|i: int|
                        0 <= i < self.milestones@.len() && (#[trigger] self.milestones@[i]).number
                            == num && milestone_eq(m->Some_0, self.milestones@[i]);
                    assert(self.milestones@[milestone_index(self.milestones@, num)].number == num);
                    assert(i == milestone_index(self.milestones@, num));
                }
            }
            issue.milestone = m;
        }
        issue.updated_at = now;
        let ret = issue.clone();
        self.issues.set(idx, issue);
        proof {
            assert forall|i: int, j: int|
                0 <= i < j < self.issues@.len() implies (#[trigger] self.issues@[i]).number != (
            #[trigger] self.issues@[j]).number by {
                assert(old(self).issues@[i].number != old(self).issues@[j].number);
            }
        }
        Result::Ok(ret)
    }

    /// Locks the issue numbered `number` with an optional reason.
    pub fn lock_issue(
        &mut self,
        number: u64,
        lock_reason: Option<String>,
        now: Timestamp,
    ) -> (r: Result<(), AppError>)
        requires
            old(self).wf(),
        ensures
            final(self).wf(),
            final(self).meta == old(self).meta,
            final(self).comments@ == old(self).comments@,
            final(self).labels@ == old(self).labels@,
            final(self).milestones@ == old(self).milestones@,
            r is Ok <==> has_issue(old(self).issues@, number),
            match r {
                Result::Ok(_) => {
                    let idx = issue_index(old(self).issues@, number);
                    let ni = final(self).issues@[idx];
                    &&& final(self).issues@.len() == old(self).issues@.len()
                    &&& forall|i: int|
                        0 <= i < final(self).issues@.len() && i != idx ==> final(self).issues@[i]
                            == old(self).issues@[i]
                    &&& issue_eq_except_lock(ni, issue_at(old(self).issues@, number))
                    &&& ni.locked
                    &&& opt_string_eq(ni.lock_reason, lock_reason)
                    &&& ni.updated_at == now
                },
                Result::Err(e) => {
                    &&& final(self).issues@ == old(self).issues@
                    &&& e matches AppError::NotFound(m) && m@ == issue_not_found_msg(number)
                },
            },
    {
        let idx = match self.find_issue_index(number) {
            Option::Some(i) => i,
            Option::None => {
                let mut m = "Issue #".to_owned();
                m.append(u64_to_string(number).as_str());
                m.append(" not found");
                return Result::Err(AppError::NotFound(m));
            },
        };
        proof {
            assert(self.issues@[issue_index(self.issues@, number)].number == number);
            assert(issue_index(self.issues@, number) == idx as int);
        }
        let mut issue = self.issues[idx].clone();
        issue.locked = true;
        issue.lock_reason = lock_reason;
        issue.updated_at = now;
        self.issues.set(idx, issue);
        proof {
            assert forall|i: int, j: int|
                0 <= i < j < self.issues@.len() implies (#[trigger] self.issues@[i]).number != (
            #[trigger] self.issues@[j]).number by {
                assert(old(self).issues@[i].number != old(self).issues@[j].number);
            }
        }
        Result::Ok(())
    }

    /// Unlocks the issue numbered `number` and clears the lock reason.
    pub fn unlock_issue(&mut self, number: u64, now: Timestamp) -> (r: Result<(), AppError>)
        requires
            old(self).wf(),
        ensures
            final(self).wf(),
            final(self).meta == old(self).meta,
            final(self).comments@ == old(self).comments@,
            final(self).labels@ == old(self).labels@,
            final(self).milestones@ == old(self).milestones@,
            r is Ok <==> has_issue(old(self).issues@, number),
            match r {
                Result::Ok(_) => {
                    let idx = issue_index(old(self).issues@, number);
                    let ni = final(self).issues@[idx];
                    &&& final(self).issues@.len() == old(self).issues@.len()
                    &&& forall|i: int|
                        0 <= i < final(self).issues@.len() && i != idx ==> final(self).issues@[i]
                            == old(self).issues@[i]
                    &&& issue_eq_except_lock(ni, issue_at(old(self).issues@, number))
                    &&& !ni.locked
                    &&& ni.lock_reason is None
                    &&& ni.updated_at == now
                },
                Result::Err(e) => {
                    &&& final(self).issues@ == old(self).issues@
                    &&& e matches AppError::NotFound(m) && m@ == issue_not_found_msg(number)
                },
            },
    {
        let idx = match self.find_issue_index(number) {
            Option::Some(i) => i,
            Option::None => {
                let mut m = "Issue #".to_owned();
                m.append(u64_to_string(number).as_str());
                m.append(" not found");
                return Result::Err(AppError::NotFound(m));
            },
        };
        proof {
            assert(self.issues@[issue_index(self.issues@, number)].number == number);
            assert(issue_index(self.issues@, number) == idx as int);
        }
        let mut issue = self.issues[idx].clone();
        issue.locked = false;
        issue.lock_reason = Option::None;
        issue.updated_at = now;
        self.issues.set(idx, issue);
        proof {
            assert forall|i: int, j: int|
                0 <= i < j < self.issues@.len() implies (#[trigger] self.issues@[i]).number != (
            #[trigger] self.issues@[j]).number by {
                assert(old(self).issues@[i].number != old(self).issues@[j].number);
            }
        }
        Result::Ok(())
    }
}

impl Store {
    /// Where the comment with id `id` sits, if anywhere.
    fn find_comment_index(&self, id: u64) -> (r: Option<usize>)
        ensures
            match r {
                Option::Some(i) => i < self.comments@.len() && self.comments@[i as int].comment.id
                    == id,
                Option::None => !has_comment(self.comments@, id),
            },
    {
        let mut i: usize = 0;
        while i < self.comments.len()
            invariant
                0 <= i <= self.comments@.len(),
                forall|j: int| 0 <= j < i ==> (#[trigger] self.comments@[j]).comment.id != id,
            decreases self.comments@.len() - i,
        {
            if self.comments[i].comment.id == id {
                return Option::Some(i);
            }
            i += 1;
        }
        Option::None
    }

    /// Adds a comment under `issue_number`: allocates the next comment id,
    /// appends the record, and, when the parent issue exists, bumps its
    /// comment counter and freshens its `updated_at`. A comment on an
    /// absent issue is stored without any counter update, as the storage
    /// layout allows.
    pub(crate) fn add_comment(
        &mut self,
        issue_number: u64,
        body: String,
        user: SimpleUser,
        author_association: String,
        now: Timestamp,
    ) -> (r: Comment)
        requires
            old(self).wf(),
            old(self).meta.next_comment_id < u64::MAX,
            has_issue(old(self).issues@, issue_number) ==> issue_at(
                old(self).issues@,
                issue_number,
            ).comments < u64::MAX,
        ensures
            final(self).wf(),
            r.id == old(self).meta.next_comment_id,
            final(self).meta.next_comment_id == old(self).meta.next_comment_id + 1,
            final(self).meta.next_issue_id == old(self).meta.next_issue_id,
            final(self).meta.next_milestone_id == old(self).meta.next_milestone_id,
            final(self).labels@ == old(self).labels@,
            final(self).milestones@ == old(self).milestones@,
            final(self).comments@.len() == old(self).comments@.len() + 1,
            final(self).comments@.drop_last() == old(self).comments@,
            final(self).comments@.last().issue_number == issue_number,
            comment_eq(final(self).comments@.last().comment, r),
            r.body == body,
            r.user == user,
            r.created_at == now,
            r.updated_at == now,
            r.author_association == author_association,
            if has_issue(old(self).issues@, issue_number) {
                let idx = issue_index(old(self).issues@, issue_number);
                let prev = issue_at(old(self).issues@, issue_number);
                &&& final(self).issues@.len() == old(self).issues@.len()
                &&& (forall|i: int|
                    0 <= i < final(self).issues@.len() && i != idx ==> final(self).issues@[i]
                        == old(self).issues@[i])
                &&& issue_eq_except_comments(final(self).issues@[idx], prev)
                &&& final(self).issues@[idx].comments == prev.comments + 1
                &&& final(self).issues@[idx].updated_at == now
            } else {
                final(self).issues@ == old(self).issues@
            },
    {
        let comment_id = self.meta.next_comment_id;
        self.meta.next_comment_id = comment_id + 1;
        let comment = Comment {
            id: comment_id,
            body,
            user,
            created_at: now,
            updated_at: now,
            author_association,
        };
        let stored = comment.clone();
        self.comments.push(CommentRecord { issue_number, comment: stored });
        proof {
            assert(self.comments@.drop_last() =~= old(self).comments@);
            assert forall|i: int, j: int|
                0 <= i < j < self.comments@.len() implies (#[trigger] self.comments@[
            i]).comment.id != (#[trigger] self.comments@[j]).comment.id by {
                if j < self.comments@.len() - 1 {
                    assert(old(self).comments@[i].comment.id != old(self).comments@[j].comment.id);
                } else {
                    assert(old(self).comments@[i].comment.id < old(self).meta.next_comment_id);
                }
            }
        }
        match self.find_issue_index(issue_number) {
            Option::Some(idx) => {
                proof {
                    assert(self.issues@[issue_index(self.issues@, issue_number)].number
                        == issue_number);
                    assert(issue_index(self.issues@, issue_number) == idx as int);
                }
                let mut issue = self.issues[idx].clone();
                issue.comments = issue.comments + 1;
                issue.updated_at = now;
                self.issues.set(idx, issue);
                proof {
                    assert forall|i: int, j: int|
                        0 <= i < j < self.issues@.len() implies (#[trigger] self.issues@[
                    i]).number != (#[trigger] self.issues@[j]).number by {
                        assert(old(self).issues@[i].number != old(self).issues@[j].number);
                    }
                }
            },
            Option::None => {},
        }
        comment
    }

    /// Creates a user comment on `issue_number`, owner-authored.
    pub fn create_comment(
        &mut self,
        issue_number: u64,
        body: String,
        user: SimpleUser,
        now: Timestamp,
    ) -> (r: Comment)
        requires
            old(self).wf(),
            old(self).meta.next_comment_id < u64::MAX,
            has_issue(old(self).issues@, issue_number) ==> issue_at(
                old(self).issues@,
                issue_number,
            ).comments < u64::MAX,
        ensures
            final(self).wf(),
            r.id == old(self).meta.next_comment_id,
            final(self).meta.next_comment_id == old(self).meta.next_comment_id + 1,
            final(self).meta.next_issue_id == old(self).meta.next_issue_id,
            final(self).meta.next_milestone_id == old(self).meta.next_milestone_id,
            final(self).labels@ == old(self).labels@,
            final(self).milestones@ == old(self).milestones@,
            final(self).comments@.len() == old(self).comments@.len() + 1,
            final(self).comments@.drop_last() == old(self).comments@,
            final(self).comments@.last().issue_number == issue_number,
            comment_eq(final(self).comments@.last().comment, r),
            r.body == body,
            r.user == user,
            r.created_at == now,
            r.updated_at == now,
            r.author_association@ == "OWNER"@,
            if has_issue(old(self).issues@, issue_number) {
                let idx = issue_index(old(self).issues@, issue_number);
                let prev = issue_at(old(self).issues@, issue_number);
                &&& final(self).issues@.len() == old(self).issues@.len()
                &&& (forall|i: int|
                    0 <= i < final(self).issues@.len() && i != idx ==> final(self).issues@[i]
                        == old(self).issues@[i])
                &&& issue_eq_except_comments(final(self).issues@[idx], prev)
                &&& final(self).issues@[idx].comments == prev.comments + 1
                &&& final(self).issues@[idx].updated_at == now
            } else {
                final(self).issues@ == old(self).issues@
            },
    {
        self.add_comment(issue_number, body, user, "OWNER".to_owned(), now)
    }

    /// Finds a comment by id alone, reporting the issue that owns it.
    pub fn find_comment(&self, comment_id: u64) -> (r: Result<(u64, Comment), AppError>)
        requires
            self.wf(),
        ensures
            r is Ok <==> has_comment(self.comments@, comment_id),
            match r {
                Result::Ok(found) => {
                    let rec = self.comments@[comment_index(self.comments@, comment_id)];
                    &&& found.0 == rec.issue_number
                    &&& comment_eq(found.1, rec.comment)
                },
                Result::Err(e) => e matches AppError::NotFound(m) && m@ == comment_not_found_msg(
                    comment_id,
                ),
            },
    {
        match self.find_comment_index(comment_id) {
            Option::Some(i) => {
                proof {
                    assert(self.comments@[comment_index(self.comments@, comment_id)].comment.id
                        == comment_id);
                    assert(comment_index(self.comments@, comment_id) == i as int);
                }
                let rec = &self.comments[i];
                Result::Ok((rec.issue_number, rec.comment.clone()))
            },
            Option::None => {
                let mut m = "Comment #".to_owned();
                m.append(u64_to_string(comment_id).as_str());
                m.append(" not found");
                Result::Err(AppError::NotFound(m))
            },
        }
    }

    /// Reads the comment `comment_id` under issue `issue_number`; a comment
    /// that exists under another issue is not found here.
    pub fn read_comment(&self, issue_number: u64, comment_id: u64) -> (r: Result<
        Comment,
        AppError,
    >)
        requires
            self.wf(),
        ensures
            r is Ok <==> (has_comment(self.comments@, comment_id) && self.comments@[comment_index(
                self.comments@,
                comment_id,
            )].issue_number == issue_number),
            match r {
                Result::Ok(c) => comment_eq(
                    c,
                    self.comments@[comment_index(self.comments@, comment_id)].comment,
                ),
                Result::Err(e) => e matches AppError::NotFound(m) && m@ == comment_not_found_msg(
                    comment_id,
                ),
            },
    {
        match self.find_comment_index(comment_id) {
            Option::Some(i) => {
                proof {
                    assert(self.comments@[comment_index(self.comments@, comment_id)].comment.id
                        == comment_id);
                    assert(comment_index(self.comments@, comment_id) == i as int);
                }
                if self.comments[i].issue_number == issue_number {
                    return Result::Ok(self.comments[i].comment.clone());
                }
                let mut m = "Comment #".to_owned();
                m.append(u64_to_string(comment_id).as_str());
                m.append(" not found");
                Result::Err(AppError::NotFound(m))
            },
            Option::None => {
                let mut m = "Comment #".to_owned();
                m.append(u64_to_string(comment_id).as_str());
                m.append(" not found");
                Result::Err(AppError::NotFound(m))
            },
        }
    }

    /// Replaces the body of comment `comment_id` and freshens its
    /// `updated_at`. The owning issue's record is untouched.
    pub fn update_comment(&mut self, comment_id: u64, body: String, now: Timestamp) -> (r: Result<
        Comment,
        AppError,
    >)
        requires
            old(self).wf(),
        ensures
            final(self).wf(),
            final(self).meta == old(self).meta,
            final(self).issues@ == old(self).issues@,
            final(self).labels@ == old(self).labels@,
            final(self).milestones@ == old(self).milestones@,
            r is Ok <==> has_comment(old(self).comments@, comment_id),
            match r {
                Result::Ok(c) => {
                    let cidx = comment_index(old(self).comments@, comment_id);
                    let prev = old(self).comments@[cidx];
                    let nr = final(self).comments@[cidx];
                    &&& final(self).comments@.len() == old(self).comments@.len()
                    &&& (forall|i: int|
                        0 <= i < final(self).comments@.len() && i != cidx
                            ==> final(self).comments@[i] == old(self).comments@[i])
                    &&& nr.issue_number == prev.issue_number
                    &&& nr.comment.id == comment_id
                    &&& nr.comment.body == body
                    &&& user_eq(nr.comment.user, prev.comment.user)
                    &&& nr.comment.created_at == prev.comment.created_at
                    &&& nr.comment.updated_at == now
                    &&& nr.comment.author_association@ == prev.comment.author_association@
                    &&& comment_eq(c, nr.comment)
                },
                Result::Err(e) => {
                    &&& final(self).comments@ == old(self).comments@
                    &&& e matches AppError::NotFound(m) && m@ == comment_not_found_msg(comment_id)
                },
            },
    {
        let idx = match self.find_comment_index(comment_id) {
            Option::Some(i) => i,
            Option::None => {
                let mut m = "Comment #".to_owned();
                m.append(u64_to_string(comment_id).as_str());
                m.append(" not found");
                return Result::Err(AppError::NotFound(m));
            },
        };
        proof {
            assert(self.comments@[comment_index(self.comments@, comment_id)].comment.id
                == comment_id);
            assert(comment_index(self.comments@, comment_id) == idx as int);
        }
        let issue_number = self.comments[idx].issue_number;
        let mut comment = self.comments[idx].comment.clone();
        comment.body = body;
        comment.updated_at = now;
        let ret = comment.clone();
        self.comments.set(idx, CommentRecord { issue_number, comment });
        proof {
            assert forall|i: int, j: int|
                0 <= i < j < self.comments@.len() implies (#[trigger] self.comments@[
            i]).comment.id != (#[trigger] self.comments@[j]).comment.id by {
                assert(old(self).comments@[i].comment.id != old(self).comments@[j].comment.id);
            }
        }
        Result::Ok(ret)
    }

    /// Deletes comment `comment_id`, returning the issue that owned it.
    /// When that issue exists, its comment counter drops by exactly one,
    /// floored at zero, and its `updated_at` is freshened.
    pub fn delete_comment(&mut self, comment_id: u64, now: Timestamp) -> (r: Result<u64, AppError>)
        requires
            old(self).wf(),
        ensures
            final(self).wf(),
            final(self).meta == old(self).meta,
            final(self).labels@ == old(self).labels@,
            final(self).milestones@ == old(self).milestones@,
            r is Ok <==> has_comment(old(self).comments@, comment_id),
            match r {
                Result::Ok(parent) => {
                    let cidx = comment_index(old(self).comments@, comment_id);
                    &&& parent == old(self).comments@[cidx].issue_number
                    &&& final(self).comments@ == old(self).comments@.remove(cidx)
                    &&& if has_issue(old(self).issues@, parent) {
                        let idx = issue_index(old(self).issues@, parent);
                        let prev = issue_at(old(self).issues@, parent);
                        &&& final(self).issues@.len() == old(self).issues@.len()
                        &&& (forall|i: int|
                            0 <= i < final(self).issues@.len() && i != idx
                                ==> final(self).issues@[i] == old(self).issues@[i])
                        &&& issue_eq_except_comments(final(self).issues@[idx], prev)
                        &&& final(self).issues@[idx].comments == if prev.comments > 0 {
                            (prev.comments - 1) as u64
                        } else {
                            0u64
                        }
                        &&& final(self).issues@[idx].updated_at == now
                    } else {
                        final(self).issues@ == old(self).issues@
                    }
                },
                Result::Err(e) => {
                    &&& final(self).comments@ == old(self).comments@
                    &&& final(self).issues@ == old(self).issues@
                    &&& e matches AppError::NotFound(m) && m@ == comment_not_found_msg(comment_id)
                },
            },
    {
        let idx = match self.find_comment_index(comment_id) {
            Option::Some(i) => i,
            Option::None => {
                let mut m = "Comment #".to_owned();
                m.append(u64_to_string(comment_id).as_str());
                m.append(" not found");
                return Result::Err(AppError::NotFound(m));
            },
        };
        proof {
            assert(self.comments@[comment_index(self.comments@, comment_id)].comment.id
                == comment_id);
            assert(comment_index(self.comments@, comment_id) == idx as int);
        }
        let rec = self.comments.remove(idx);
        let parent = rec.issue_number;
        proof {
            assert forall|i: int, j: int|
                0 <= i < j < self.comments@.len() implies (#[trigger] self.comments@[
            i]).comment.id != (#[trigger] self.comments@[j]).comment.id by {
                let oi = if i < idx as int {
                    i
                } else {
                    i + 1
                };
                let oj = if j < idx as int {
                    j
                } else {
                    j + 1
                };
                assert(old(self).comments@[oi].comment.id != old(self).comments@[oj].comment.id);
            }
        }
        match self.find_issue_index(parent) {
            Option::Some(iidx) => {
                proof {
                    assert(self.issues@[issue_index(self.issues@, parent)].number == parent);
                    assert(issue_index(self.issues@, parent) == iidx as int);
                }
                let mut issue = self.issues[iidx].clone();
                issue.comments = if issue.comments > 0 {
                    issue.comments - 1
                } else {
                    0
                };
                issue.updated_at = now;
                self.issues.set(iidx, issue);
                proof {
                    assert forall|i: int, j: int|
                        0 <= i < j < self.issues@.len() implies (#[trigger] self.issues@[
                    i]).number != (#[trigger] self.issues@[j]).number by {
                        assert(old(self).issues@[i].number != old(self).issues@[j].number);
                    }
                }
            },
            Option::None => {},
        }
        Result::Ok(parent)
    }
}

proof fn lemma_first_label_index_is(s: Seq<Label>, name: Seq<char>, i: int)
    requires
        0 <= i <= s.len(),
        forall|j: int| 0 <= j < i ==> (#[trigger] s[j]).name@ != name,
        i < s.len() ==> s[i].name@ == name,
    ensures
        first_label_index(s, name) == i,
    decreases s.len(),
{
    if s.len() > 0 && s[0].name@ != name {
        assert(i >= 1);
        assert forall|j: int| 0 <= j < i - 1 implies (#[trigger] s.drop_first()[j]).name@
            != name by {
            assert(s[j + 1].name@ != name);
        }
        lemma_first_label_index_is(s.drop_first(), name, i - 1);
    }
}

/// The message of a missing-label error.
pub open spec fn label_not_found_msg(name: Seq<char>) -> Seq<char> {
    "Label '"@.add(name).add("' not found"@)
}

/// The message of a duplicate-label error.
pub open spec fn label_exists_msg(name: Seq<char>) -> Seq<char> {
    "Label '"@.add(name).add("' already exists"@)
}

/// One more than the largest label id in use; label ids are never reused.
pub fn next_label_id(labels: &Vec<Label>) -> (r: u64)
    requires
        max_label_id(labels@) < u64::MAX,
    ensures
        r == max_label_id(labels@) + 1,
{
    let mut m: u64 = 0;
    let mut i: usize = 0;
    while i < labels.len()
        invariant
            0 <= i <= labels@.len(),
            m == max_label_id(labels@.take(i as int)),
            max_label_id(labels@) < u64::MAX,
        decreases labels@.len() - i,
    {
        proof {
            assert(labels@.take(i + 1).drop_last() =~= labels@.take(i as int));
            assert(labels@.take(i + 1).last() == labels@[i as int]);
        }
        if labels[i].id > m {
            m = labels[i].id;
        }
        i += 1;
    }
    proof {
        assert(labels@.take(labels@.len() as int) =~= labels@);
    }
    m + 1
}

/// Clones of the labels in `ls` not named `name`, in order.
fn labels_without(ls: &Vec<Label>, name: &str) -> (r: Vec<Label>)
    ensures
        labels_eq(r@, ls@.filter(|l: Label| l.name@ != name@)),
{
    let ghost pred = |l: Label| l.name@ != name@;
    let mut out: Vec<Label> = Vec::new();
    let mut i: usize = 0;
    proof {
        reveal(Seq::filter);
        assert(ls@.take(0) =~= Seq::<Label>::empty());
    }
    while i < ls.len()
        invariant
            0 <= i <= ls@.len(),
            pred == (|l: Label| l.name@ != name@),
            labels_eq(out@, ls@.take(i as int).filter(pred)),
        decreases ls@.len() - i,
    {
        proof {
            reveal(Seq::filter);
            assert(ls@.take(i + 1).drop_last() =~= ls@.take(i as int));
            assert(ls@.take(i + 1).last() == ls@[i as int]);
        }
        if !str_eq(ls[i].name.as_str(), name) {
            let c = ls[i].clone();
            out.push(c);
            proof {
                assert(pred(ls@[i as int]));
                assert(ls@.take(i + 1).filter(pred) =~= ls@.take(i as int).filter(pred).push(
                    ls@[i as int],
                ));
            }
        } else {
            proof {
                assert(!pred(ls@[i as int]));
                assert(ls@.take(i + 1).filter(pred) =~= ls@.take(i as int).filter(pred));
            }
        }
        i += 1;
    }
    proof {
        assert(ls@.take(ls@.len() as int) =~= ls@);
    }
    out
}

impl Store {
    /// Where the first label named `name` sits, if anywhere.
    fn find_label_index(&self, name: &str) -> (r: Option<usize>)
        ensures
            match r {
                Option::Some(i) => {
                    &&& i < self.labels@.len()
                    &&& self.labels@[i as int].name@ == name@
                    &&& i as int == first_label_index(self.labels@, name@)
                },
                Option::None => !has_label(self.labels@, name@),
            },
    {
        let mut i: usize = 0;
        while i < self.labels.len()
            invariant
                0 <= i <= self.labels@.len(),
                forall|j: int| 0 <= j < i ==> (#[trigger] self.labels@[j]).name@ != name@,
            decreases self.labels@.len() - i,
        {
            if str_eq(self.labels[i].name.as_str(), name) {
                proof {
                    lemma_first_label_index_is(self.labels@, name@, i as int);
                }
                return Option::Some(i);
            }
            i += 1;
        }
        Option::None
    }

    /// The label collection, as stored.
    pub fn read_labels(&self) -> (r: Vec<Label>)
        ensures
            labels_eq(r@, self.labels@),
    {
        let r = self.labels.clone();
        proof {
            assert(labels_eq(r@, self.labels@));
        }
        r
    }

    /// Creates a label with a fresh id (largest in use plus one) and the
    /// given name; a name already in use is refused.
    pub fn create_label(
        &mut self,
        name: String,
        color: String,
        description: Option<String>,
    ) -> (r: Result<Label, AppError>)
        requires
            old(self).wf(),
            max_label_id(old(self).labels@) < u64::MAX,
        ensures
            final(self).wf(),
            final(self).meta == old(self).meta,
            final(self).issues@ == old(self).issues@,
            final(self).comments@ == old(self).comments@,
            final(self).milestones@ == old(self).milestones@,
            r is Err <==> has_label(old(self).labels@, name@),
            match r {
                Result::Ok(l) => {
                    &&& final(self).labels@.len() == old(self).labels@.len() + 1
                    &&& final(self).labels@.drop_last() == old(self).labels@
                    &&& label_eq(final(self).labels@.last(), l)
                    &&& l.id == max_label_id(old(self).labels@) + 1
                    &&& l.name == name
                    &&& l.color == color
                    &&& l.description == description
                    &&& !l.is_default
                },
                Result::Err(e) => {
                    &&& final(self).labels@ == old(self).labels@
                    &&& e matches AppError::General(m) && m@ == label_exists_msg(name@)
                },
            },
    {
        if let Option::Some(_) = self.find_label_index(name.as_str()) {
            let mut m = "Label '".to_owned();
            m.append(name.as_str());
            m.append("' already exists");
            return Result::Err(AppError::General(m));
        }
        let label = Label {
            id: next_label_id(&self.labels),
            name,
            color,
            description,
            is_default: false,
        };
        let stored = label.clone();
        self.labels.push(stored);
        proof {
            assert(self.labels@.drop_last() =~= old(self).labels@);
        }
        Result::Ok(label)
    }

    /// Reads the first label named `name`.
    pub fn get_label(&self, name: &str) -> (r: Result<Label, AppError>)
        requires
            self.wf(),
        ensures
            r is Ok <==> has_label(self.labels@, name@),
            match r {
                Result::Ok(l) => label_eq(l, self.labels@[first_label_index(self.labels@, name@)]),
                Result::Err(e) => e matches AppError::NotFound(m) && m@ == label_not_found_msg(
                    name@,
                ),
            },
    {
        match self.find_label_index(name) {
            Option::Some(i) => Result::Ok(self.labels[i].clone()),
            Option::None => {
                let mut m = "Label '".to_owned();
                m.append(name);
                m.append("' not found");
                Result::Err(AppError::NotFound(m))
            },
        }
    }

    /// Applies a partial update to the first label named `name`. The id and
    /// default flag never change. Renaming does not re-check uniqueness;
    /// only creation enforces it.
    pub fn update_label(
        &mut self,
        name: &str,
        new_name: Option<String>,
        color: Option<String>,
        description: Option<String>,
    ) -> (r: Result<Label, AppError>)
        requires
            old(self).wf(),
        ensures
            final(self).wf(),
            final(self).meta == old(self).meta,
            final(self).issues@ == old(self).issues@,
            final(self).comments@ == old(self).comments@,
            final(self).milestones@ == old(self).milestones@,
            r is Ok <==> has_label(old(self).labels@, name@),
            match r {
                Result::Ok(l) => {
                    let fidx = first_label_index(old(self).labels@, name@);
                    let prev = old(self).labels@[fidx];
                    let nl = final(self).labels@[fidx];
                    &&& final(self).labels@.len() == old(self).labels@.len()
                    &&& (forall|i: int|
                        0 <= i < final(self).labels@.len() && i != fidx ==> final(self).labels@[i]
                            == old(self).labels@[i])
                    &&& nl.id == prev.id
                    &&& nl.is_default == prev.is_default
                    &&& match new_name {
                        Option::Some(nn) => nl.name@ == nn@,
                        Option::None => nl.name@ == prev.name@,
                    }
                    &&& match color {
                        Option::Some(c) => nl.color@ == c@,
                        Option::None => nl.color@ == prev.color@,
                    }
                    &&& match description {
                        Option::Some(d) => nl.description matches Option::Some(x) && x@ == d@,
                        Option::None => opt_string_eq(nl.description, prev.description),
                    }
                    &&& label_eq(l, nl)
                },
                Result::Err(e) => {
                    &&& final(self).labels@ == old(self).labels@
                    &&& e matches AppError::NotFound(m) && m@ == label_not_found_msg(name@)
                },
            },
    {
        let idx = match self.find_label_index(name) {
            Option::Some(i) => i,
            Option::None => {
                let mut m = "Label '".to_owned();
                m.append(name);
                m.append("' not found");
                return Result::Err(AppError::NotFound(m));
            },
        };
        let mut label = self.labels[idx].clone();
        if let Option::Some(nn) = new_name {
            label.name = nn;
        }
        if let Option::Some(c) = color {
            label.color = c;
        }
        if let Option::Some(d) = description {
            label.description = Option::Some(d);
        }
        let ret = label.clone();
        self.labels.set(idx, label);
        Result::Ok(ret)
    }

    /// Deletes every label named `name`; an unknown name is an error.
    pub fn delete_label(&mut self, name: &str) -> (r: Result<(), AppError>)
        requires
            old(self).wf(),
        ensures
            final(self).wf(),
            final(self).meta == old(self).meta,
            final(self).issues@ == old(self).issues@,
            final(self).comments@ == old(self).comments@,
            final(self).milestones@ == old(self).milestones@,
            r is Ok <==> has_label(old(self).labels@, name@),
            match r {
                Result::Ok(_) => labels_eq(
                    final(self).labels@,
                    old(self).labels@.filter(|l: Label| l.name@ != name@),
                ),
                Result::Err(e) => {
                    &&& final(self).labels@ == old(self).labels@
                    &&& e matches AppError::NotFound(m) && m@ == label_not_found_msg(name@)
                },
            },
    {
        match self.find_label_index(name) {
            Option::Some(_) => {
                let kept = labels_without(&self.labels, name);
                self.labels = kept;
                Result::Ok(())
            },
            Option::None => {
                let mut m = "Label '".to_owned();
                m.append(name);
                m.append("' not found");
                Result::Err(AppError::NotFound(m))
            },
        }
    }
}

/// Equality of all issue fields except the label list and `updated_at`.
pub open spec fn issue_eq_except_labels(a: Issue, b: Issue) -> bool {
    &&& a.id == b.id
    &&& a.number == b.number
    &&& a.title@ == b.title@
    &&& opt_string_eq(a.body, b.body)
    &&& a.state@ == b.state@
    &&& opt_string_eq(a.state_reason, b.state_reason)
    &&& a.locked == b.locked
    &&& opt_string_eq(a.lock_reason, b.lock_reason)
    &&& users_eq(a.assignees@, b.assignees@)
    &&& opt_milestone_eq(a.milestone, b.milestone)
    &&& a.comments == b.comments
    &&& a.created_at == b.created_at
    &&& a.closed_at == b.closed_at
    &&& opt_user_eq(a.closed_by, b.closed_by)
    &&& a.author_association@ == b.author_association@
    &&& user_eq(a.user, b.user)
}

/// The label list after adding the named labels in order: a name already on
/// the list is skipped, a name in the collection adds its first label, an
/// unknown name adds nothing.
pub open spec fn add_labels_fold(acc: Seq<Label>, all: Seq<Label>, names: Seq<Seq<char>>) -> Seq<
    Label,
>
    decreases names.len(),
{
    if names.len() == 0 {
        acc
    } else {
        let prev = add_labels_fold(acc, all, names.drop_last());
        let nm = names.last();
        if has_label(prev, nm) {
            prev
        } else if has_label(all, nm) {
            prev.push(all[first_label_index(all, nm)])
        } else {
            prev
        }
    }
}

pub(crate) proof fn lemma_has_label_eq(a: Seq<Label>, b: Seq<Label>, nm: Seq<char>)
    requires
        labels_eq(a, b),
    ensures
        has_label(a, nm) <==> has_label(b, nm),
{
    if has_label(a, nm) {
        let i = choose|i: int| 0 <= i < a.len() && a[i].name@ == nm;
        assert(label_eq(a[i], b[i]));
        assert(b[i].name@ == nm);
    }
    if has_label(b, nm) {
        let i = choose|i: int| 0 <= i < b.len() && b[i].name@ == nm;
        assert(label_eq(a[i], b[i]));
        assert(a[i].name@ == nm);
    }
}

/// Does the list hold a label named `name`?
fn vec_has_label(ls: &Vec<Label>, name: &str) -> (r: bool)
    ensures
        r == has_label(ls@, name@),
{
    let mut i: usize = 0;
    while i < ls.len()
        invariant
            0 <= i <= ls@.len(),
            forall|j: int| 0 <= j < i ==> (#[trigger] ls@[j]).name@ != name@,
        decreases ls@.len() - i,
    {
        if str_eq(ls[i].name.as_str(), name) {
            return true;
        }
        i += 1;
    }
    false
}

impl Store {
    /// The labels on the issue numbered `number`.
    pub fn list_issue_labels(&self, number: u64) -> (r: Result<Vec<Label>, AppError>)
        requires
            self.wf(),
        ensures
            r is Ok <==> has_issue(self.issues@, number),
            match r {
                Result::Ok(ls) => labels_eq(ls@, issue_at(self.issues@, number).labels@),
                Result::Err(e) => e matches AppError::NotFound(m) && m@ == issue_not_found_msg(
                    number,
                ),
            },
    {
        match self.find_issue_index(number) {
            Option::Some(i) => {
                proof {
                    assert(self.issues@[issue_index(self.issues@, number)].number == number);
                    assert(issue_index(self.issues@, number) == i as int);
                }
                let ls = self.issues[i].labels.clone();
                proof {
                    assert(labels_eq(ls@, issue_at(self.issues@, number).labels@));
                }
                Result::Ok(ls)
            },
            Option::None => {
                let mut m = "Issue #".to_owned();
                m.append(u64_to_string(number).as_str());
                m.append(" not found");
                Result::Err(AppError::NotFound(m))
            },
        }
    }

    /// Adds the named labels to the issue, skipping names already present
    /// and names with no label in the collection. Returns the new list.
    pub fn add_issue_labels(&mut self, number: u64, names: Vec<String>, now: Timestamp) -> (r:
        Result<Vec<Label>, AppError>)
        requires
            old(self).wf(),
        ensures
            final(self).wf(),
            final(self).meta == old(self).meta,
            final(self).comments@ == old(self).comments@,
            final(self).labels@ == old(self).labels@,
            final(self).milestones@ == old(self).milestones@,
            r is Ok <==> has_issue(old(self).issues@, number),
            match r {
                Result::Ok(ret) => {
                    let idx = issue_index(old(self).issues@, number);
                    let prev = issue_at(old(self).issues@, number);
                    let ni = final(self).issues@[idx];
                    &&& final(self).issues@.len() == old(self).issues@.len()
                    &&& (forall|i: int|
                        0 <= i < final(self).issues@.len() && i != idx
                            ==> final(self).issues@[i] == old(self).issues@[i])
                    &&& issue_eq_except_labels(ni, prev)
                    &&& ni.updated_at == now
                    &&& labels_eq(
                        ni.labels@,
                        add_labels_fold(prev.labels@, old(self).labels@, names.deep_view()),
                    )
                    &&& labels_eq(ret@, ni.labels@)
                },
                Result::Err(e) => {
                    &&& final(self).issues@ == old(self).issues@
                    &&& e matches AppError::NotFound(m) && m@ == issue_not_found_msg(number)
                },
            },
    {
        let idx = match self.find_issue_index(number) {
            Option::Some(i) => i,
            Option::None => {
                let mut m = "Issue #".to_owned();
                m.append(u64_to_string(number).as_str());
                m.append(" not found");
                return Result::Err(AppError::NotFound(m));
            },
        };
        proof {
            assert(self.issues@[issue_index(self.issues@, number)].number == number);
            assert(issue_index(self.issues@, number) == idx as int);
        }
        let ghost prev = self.issues@[idx as int];
        let ghost all0 = self.labels@;
        let mut issue = self.issues[idx].clone();
        let mut cur = issue.labels;
        issue.labels = Vec::new();
        let mut i: usize = 0;
        proof {
            assert(names.deep_view().take(0) =~= Seq::<Seq<char>>::empty());
        }
        while i < names.len()
            invariant
                0 <= i <= names@.len(),
                labels_eq(cur@, add_labels_fold(prev.labels@, all0, names.deep_view().take(
                    i as int,
                ))),
                all0 == self.labels@,
            decreases names@.len() - i,
        {
            let ghost sacc = add_labels_fold(prev.labels@, all0, names.deep_view().take(i as int));
            proof {
                assert(names.deep_view().take(i + 1).drop_last() =~= names.deep_view().take(
                    i as int,
                ));
                assert(names.deep_view().take(i + 1).last() == names.deep_view()[i as int]);
                lemma_has_label_eq(cur@, sacc, names.deep_view()[i as int]);
            }
            if !vec_has_label(&cur, names[i].as_str()) {
                match self.find_label_index(names[i].as_str()) {
                    Option::Some(fi) => {
                        let c = self.labels[fi].clone();
                        cur.push(c);
                    },
                    Option::None => {},
                }
            }
            i += 1;
        }
        proof {
            assert(names.deep_view().take(names@.len() as int) =~= names.deep_view());
        }
        issue.labels = cur;
        issue.updated_at = now;
        let ret = issue.labels.clone();
        proof {
            assert(labels_eq(ret@, issue.labels@));
        }
        self.issues.set(idx, issue);
        proof {
            assert forall|i: int, j: int|
                0 <= i < j < self.issues@.len() implies (#[trigger] self.issues@[i]).number != (
            #[trigger] self.issues@[j]).number by {
                assert(old(self).issues@[i].number != old(self).issues@[j].number);
            }
        }
        Result::Ok(ret)
    }

    /// Replaces the issue's labels with the named subset of the collection.
    pub fn set_issue_labels(&mut self, number: u64, names: Vec<String>, now: Timestamp) -> (r:
        Result<Vec<Label>, AppError>)
        requires
            old(self).wf(),
        ensures
            final(self).wf(),
            final(self).meta == old(self).meta,
            final(self).comments@ == old(self).comments@,
            final(self).labels@ == old(self).labels@,
            final(self).milestones@ == old(self).milestones@,
            r is Ok <==> has_issue(old(self).issues@, number),
            match r {
                Result::Ok(ret) => {
                    let idx = issue_index(old(self).issues@, number);
                    let prev = issue_at(old(self).issues@, number);
                    let ni = final(self).issues@[idx];
                    &&& final(self).issues@.len() == old(self).issues@.len()
                    &&& (forall|i: int|
                        0 <= i < final(self).issues@.len() && i != idx
                            ==> final(self).issues@[i] == old(self).issues@[i])
                    &&& issue_eq_except_labels(ni, prev)
                    &&& ni.updated_at == now
                    &&& labels_eq(
                        ni.labels@,
                        old(self).labels@.filter(
                            |l: Label| names.deep_view().contains(l.name@),
                        ),
                    )
                    &&& labels_eq(ret@, ni.labels@)
                },
                Result::Err(e) => {
                    &&& final(self).issues@ == old(self).issues@
                    &&& e matches AppError::NotFound(m) && m@ == issue_not_found_msg(number)
                },
            },
    {
        let idx = match self.find_issue_index(number) {
            Option::Some(i) => i,
            Option::None => {
                let mut m = "Issue #".to_owned();
                m.append(u64_to_string(number).as_str());
                m.append(" not found");
                return Result::Err(AppError::NotFound(m));
            },
        };
        proof {
            assert(self.issues@[issue_index(self.issues@, number)].number == number);
            assert(issue_index(self.issues@, number) == idx as int);
        }
        let mut issue = self.issues[idx].clone();
        issue.labels = filter_labels_by_names(&self.labels, &names);
        issue.updated_at = now;
        let ret = issue.labels.clone();
        proof {
            assert(labels_eq(ret@, issue.labels@));
        }
        self.issues.set(idx, issue);
        proof {
            assert forall|i: int, j: int|
                0 <= i < j < self.issues@.len() implies (#[trigger] self.issues@[i]).number != (
            #[trigger] self.issues@[j]).number by {
                assert(old(self).issues@[i].number != old(self).issues@[j].number);
            }
        }
        Result::Ok(ret)
    }

    /// Clears every label from the issue.
    pub fn remove_all_issue_labels(&mut self, number: u64, now: Timestamp) -> (r: Result<
        (),
        AppError,
    >)
        requires
            old(self).wf(),
        ensures
            final(self).wf(),
            final(self).meta == old(self).meta,
            final(self).comments@ == old(self).comments@,
            final(self).labels@ == old(self).labels@,
            final(self).milestones@ == old(self).milestones@,
            r is Ok <==> has_issue(old(self).issues@, number),
            match r {
                Result::Ok(_) => {
                    let idx = issue_index(old(self).issues@, number);
                    let ni = final(self).issues@[idx];
                    &&& final(self).issues@.len() == old(self).issues@.len()
                    &&& (forall|i: int|
                        0 <= i < final(self).issues@.len() && i != idx
                            ==> final(self).issues@[i] == old(self).issues@[i])
                    &&& issue_eq_except_labels(ni, issue_at(old(self).issues@, number))
                    &&& ni.updated_at == now
                    &&& ni.labels@.len() == 0
                },
                Result::Err(e) => {
                    &&& final(self).issues@ == old(self).issues@
                    &&& e matches AppError::NotFound(m) && m@ == issue_not_found_msg(number)
                },
            },
    {
        let idx = match self.find_issue_index(number) {
            Option::Some(i) => i,
            Option::None => {
                let mut m = "Issue #".to_owned();
                m.append(u64_to_string(number).as_str());
                m.append(" not found");
                return Result::Err(AppError::NotFound(m));
            },
        };
        proof {
            assert(self.issues@[issue_index(self.issues@, number)].number == number);
            assert(issue_index(self.issues@, number) == idx as int);
        }
        let mut issue = self.issues[idx].clone();
        issue.labels = Vec::new();
        issue.updated_at = now;
        self.issues.set(idx, issue);
        proof {
            assert forall|i: int, j: int|
                0 <= i < j < self.issues@.len() implies (#[trigger] self.issues@[i]).number != (
            #[trigger] self.issues@[j]).number by {
                assert(old(self).issues@[i].number != old(self).issues@[j].number);
            }
        }
        Result::Ok(())
    }

    /// Removes the label named `name` from the issue; removing an absent
    /// name succeeds and changes nothing but `updated_at`. Returns the new
    /// list.
    pub fn remove_issue_label(&mut self, number: u64, name: &str, now: Timestamp) -> (r: Result<
        Vec<Label>,
        AppError,
    >)
        requires
            old(self).wf(),
        ensures
            final(self).wf(),
            final(self).meta == old(self).meta,
            final(self).comments@ == old(self).comments@,
            final(self).labels@ == old(self).labels@,
            final(self).milestones@ == old(self).milestones@,
            r is Ok <==> has_issue(old(self).issues@, number),
            match r {
                Result::Ok(ret) => {
                    let idx = issue_index(old(self).issues@, number);
                    let prev = issue_at(old(self).issues@, number);
                    let ni = final(self).issues@[idx];
                    &&& final(self).issues@.len() == old(self).issues@.len()
                    &&& (forall|i: int|
                        0 <= i < final(self).issues@.len() && i != idx
                            ==> final(self).issues@[i] == old(self).issues@[i])
                    &&& issue_eq_except_labels(ni, prev)
                    &&& ni.updated_at == now
                    &&& labels_eq(ni.labels@, prev.labels@.filter(|l: Label| l.name@ != name@))
                    &&& labels_eq(ret@, ni.labels@)
                },
                Result::Err(e) => {
                    &&& final(self).issues@ == old(self).issues@
                    &&& e matches AppError::NotFound(m) && m@ == issue_not_found_msg(number)
                },
            },
    {
        let idx = match self.find_issue_index(number) {
            Option::Some(i) => i,
            Option::None => {
                let mut m = "Issue #".to_owned();
                m.append(u64_to_string(number).as_str());
                m.append(" not found");
                return Result::Err(AppError::NotFound(m));
            },
        };
        proof {
            assert(self.issues@[issue_index(self.issues@, number)].number == number);
            assert(issue_index(self.issues@, number) == idx as int);
        }
        let kept = labels_without(&self.issues[idx].labels, name);
        let mut issue = self.issues[idx].clone();
        issue.labels = kept;
        issue.updated_at = now;
        let ret = issue.labels.clone();
        proof {
            assert(labels_eq(ret@, issue.labels@));
        }
        self.issues.set(idx, issue);
        proof {
            assert forall|i: int, j: int|
                0 <= i < j < self.issues@.len() implies (#[trigger] self.issues@[i]).number != (
            #[trigger] self.issues@[j]).number by {
                assert(old(self).issues@[i].number != old(self).issues@[j].number);
            }
        }
        Result::Ok(ret)
    }
}

impl Store {
    /// Where the milestone numbered `n` sits, if anywhere.
    fn find_milestone_index(&self, n: u64) -> (r: Option<usize>)
        ensures
            match r {
                Option::Some(i) => i < self.milestones@.len() && self.milestones@[i as int].number
                    == n,
                Option::None => !has_milestone(self.milestones@, n),
            },
    {
        let mut i: usize = 0;
        while i < self.milestones.len()
            invariant
                0 <= i <= self.milestones@.len(),
                forall|j: int| 0 <= j < i ==> (#[trigger] self.milestones@[j]).number != n,
            decreases self.milestones@.len() - i,
        {
            if self.milestones[i].number == n {
                return Option::Some(i);
            }
            i += 1;
        }
        Option::None
    }

    /// The milestone collection, as stored.
    pub fn read_milestones(&self) -> (r: Vec<Milestone>)
        ensures
            r@.len() == self.milestones@.len(),
            forall|i: int|
                0 <= i < r@.len() ==> milestone_eq(#[trigger] r@[i], self.milestones@[i]),
    {
        let r = self.milestones.clone();
        proof {
            assert forall|i: int| 0 <= i < r@.len() implies milestone_eq(
                #[trigger] r@[i],
                self.milestones@[i],
            ) by {}
        }
        r
    }

    /// Creates a milestone: allocates the next milestone number and appends
    /// the record, open by default, with zeroed progress counters.
    pub fn create_milestone(
        &mut self,
        title: String,
        description: Option<String>,
        due_on: Option<Timestamp>,
        state: Option<String>,
        now: Timestamp,
    ) -> (r: Milestone)
        requires
            old(self).wf(),
            old(self).meta.next_milestone_id < u64::MAX,
        ensures
            final(self).wf(),
            r.number == old(self).meta.next_milestone_id,
            r.id == old(self).meta.next_milestone_id,
            final(self).meta.next_milestone_id == old(self).meta.next_milestone_id + 1,
            final(self).meta.next_issue_id == old(self).meta.next_issue_id,
            final(self).meta.next_comment_id == old(self).meta.next_comment_id,
            final(self).issues@ == old(self).issues@,
            final(self).comments@ == old(self).comments@,
            final(self).labels@ == old(self).labels@,
            final(self).milestones@.len() == old(self).milestones@.len() + 1,
            final(self).milestones@.drop_last() == old(self).milestones@,
            milestone_eq(final(self).milestones@.last(), r),
            r.title == title,
            r.description == description,
            r.due_on == due_on,
            match state {
                Option::Some(s) => r.state@ == s@,
                Option::None => r.state@ == "open"@,
            },
            r.open_issues == 0,
            r.closed_issues == 0,
            r.created_at == now,
            r.updated_at == now,
            r.closed_at is None,
    {
        let number = self.meta.next_milestone_id;
        self.meta.next_milestone_id = number + 1;
        let ms_state: String = match state {
            Option::Some(s) => s,
            Option::None => "open".to_owned(),
        };
        let milestone = Milestone {
            id: number,
            number,
            title,
            description,
            state: ms_state,
            open_issues: 0,
            closed_issues: 0,
            created_at: now,
            updated_at: now,
            closed_at: Option::None,
            due_on,
        };
        let stored = milestone.clone();
        self.milestones.push(stored);
        proof {
            assert(self.milestones@.drop_last() =~= old(self).milestones@);
            assert forall|i: int, j: int|
                0 <= i < j < self.milestones@.len() implies (#[trigger] self.milestones@[
            i]).number != (#[trigger] self.milestones@[j]).number by {
                if j < self.milestones@.len() - 1 {
                    assert(old(self).milestones@[i].number != old(self).milestones@[j].number);
                } else {
                    assert(old(self).milestones@[i].number < old(self).meta.next_milestone_id);
                }
            }
        }
        milestone
    }

    /// Reads the milestone numbered `number`.
    pub fn get_milestone(&self, number: u64) -> (r: Result<Milestone, AppError>)
        requires
            self.wf(),
        ensures
            r is Ok <==> has_milestone(self.milestones@, number),
            match r {
                Result::Ok(m) => milestone_eq(m, milestone_at(self.milestones@, number)),
                Result::Err(e) => e matches AppError::NotFound(m) && m@
                    == milestone_not_found_msg(number),
            },
    {
        match self.find_milestone_index(number) {
            Option::Some(i) => {
                proof {
                    assert(self.milestones@[milestone_index(self.milestones@, number)].number
                        == number);
                    assert(milestone_index(self.milestones@, number) == i as int);
                }
                Result::Ok(self.milestones[i].clone())
            },
            Option::None => {
                let mut m = "Milestone #".to_owned();
                m.append(u64_to_string(number).as_str());
                m.append(" not found");
                Result::Err(AppError::NotFound(m))
            },
        }
    }

    /// Applies a partial update to the milestone numbered `number`.
    /// Entering the closed state stamps `closed_at`; entering the open
    /// state clears it; the progress counters and `created_at` never
    /// change here.
    pub fn update_milestone(
        &mut self,
        number: u64,
        title: Option<String>,
        description: Option<String>,
        due_on: Option<Option<Timestamp>>,
        state: Option<String>,
        now: Timestamp,
    ) -> (r: Result<Milestone, AppError>)
        requires
            old(self).wf(),
        ensures
            final(self).wf(),
            final(self).meta == old(self).meta,
            final(self).issues@ == old(self).issues@,
            final(self).comments@ == old(self).comments@,
            final(self).labels@ == old(self).labels@,
            r is Ok <==> has_milestone(old(self).milestones@, number),
            match r {
                Result::Ok(ret) => {
                    let midx = milestone_index(old(self).milestones@, number);
                    let prev = milestone_at(old(self).milestones@, number);
                    let nm = final(self).milestones@[midx];
                    &&& final(self).milestones@.len() == old(self).milestones@.len()
                    &&& (forall|i: int|
                        0 <= i < final(self).milestones@.len() && i != midx
                            ==> final(self).milestones@[i] == old(self).milestones@[i])
                    &&& nm.id == prev.id
                    &&& nm.number == prev.number
                    &&& match title {
                        Option::Some(t) => nm.title@ == t@,
                        Option::None => nm.title@ == prev.title@,
                    }
                    &&& match description {
                        Option::Some(d) => nm.description matches Option::Some(x) && x@ == d@,
                        Option::None => opt_string_eq(nm.description, prev.description),
                    }
                    &&& match due_on {
                        Option::Some(d) => nm.due_on == d,
                        Option::None => nm.due_on == prev.due_on,
                    }
                    &&& match state {
                        Option::Some(s) => {
                            &&& nm.state@ == s@
                            &&& if s@ == "closed"@ && prev.state@ != "closed"@ {
                                nm.closed_at == Option::Some(now)
                            } else if s@ == "open"@ {
                                nm.closed_at is None
                            } else {
                                nm.closed_at == prev.closed_at
                            }
                        },
                        Option::None => nm.state@ == prev.state@ && nm.closed_at == prev.closed_at,
                    }
                    &&& nm.open_issues == prev.open_issues
                    &&& nm.closed_issues == prev.closed_issues
                    &&& nm.created_at == prev.created_at
                    &&& nm.updated_at == now
                    &&& milestone_eq(ret, nm)
                },
                Result::Err(e) => {
                    &&& final(self).milestones@ == old(self).milestones@
                    &&& e matches AppError::NotFound(m) && m@ == milestone_not_found_msg(number)
                },
            },
    {
        let idx = match self.find_milestone_index(number) {
            Option::Some(i) => i,
            Option::None => {
                let mut m = "Milestone #".to_owned();
                m.append(u64_to_string(number).as_str());
                m.append(" not found");
                return Result::Err(AppError::NotFound(m));
            },
        };
        proof {
            assert(self.milestones@[milestone_index(self.milestones@, number)].number == number);
            assert(milestone_index(self.milestones@, number) == idx as int);
        }
        let mut ms = self.milestones[idx].clone();
        if let Option::Some(t) = title {
            ms.title = t;
        }
        if let Option::Some(d) = description {
            ms.description = Option::Some(d);
        }
        if let Option::Some(d) = due_on {
            ms.due_on = d;
        }
        if let Option::Some(s) = state {
            if str_eq(s.as_str(), "closed") && !str_eq(ms.state.as_str(), "closed") {
                ms.closed_at = Option::Some(now);
            } else if str_eq(s.as_str(), "open") {
                ms.closed_at = Option::None;
            }
            ms.state = s;
        }
        ms.updated_at = now;
        let ret = ms.clone();
        self.milestones.set(idx, ms);
        proof {
            assert forall|i: int, j: int|
                0 <= i < j < self.milestones@.len() implies (#[trigger] self.milestones@[
            i]).number != (#[trigger] self.milestones@[j]).number by {
                assert(old(self).milestones@[i].number != old(self).milestones@[j].number);
            }
        }
        Result::Ok(ret)
    }

    /// Deletes the milestone numbered `number`; an unknown number is an
    /// error.
    pub fn delete_milestone(&mut self, number: u64) -> (r: Result<(), AppError>)
        requires
            old(self).wf(),
        ensures
            final(self).wf(),
            final(self).meta == old(self).meta,
            final(self).issues@ == old(self).issues@,
            final(self).comments@ == old(self).comments@,
            final(self).labels@ == old(self).labels@,
            r is Ok <==> has_milestone(old(self).milestones@, number),
            match r {
                Result::Ok(_) => final(self).milestones@ == old(self).milestones@.remove(
                    milestone_index(old(self).milestones@, number),
                ),
                Result::Err(e) => {
                    &&& final(self).milestones@ == old(self).milestones@
                    &&& e matches AppError::NotFound(m) && m@ == milestone_not_found_msg(number)
                },
            },
    {
        match self.find_milestone_index(number) {
            Option::Some(i) => {
                proof {
                    assert(self.milestones@[milestone_index(self.milestones@, number)].number
                        == number);
                    assert(milestone_index(self.milestones@, number) == i as int);
                }
                let _ = self.milestones.remove(i);
                proof {
                    assert forall|a: int, b: int|
                        0 <= a < b < self.milestones@.len() implies (#[trigger] self.milestones@[
                    a]).number != (#[trigger] self.milestones@[b]).number by {
                        let oa = if a < i as int {
                            a
                        } else {
                            a + 1
                        };
                        let ob = if b < i as int {
                            b
                        } else {
                            b + 1
                        };
                        assert(old(self).milestones@[oa].number != old(
                            self,
                        ).milestones@[ob].number);
                    }
                }
                Result::Ok(())
            },
            Option::None => {
                let mut m = "Milestone #".to_owned();
                m.append(u64_to_string(number).as_str());
                m.append(" not found");
                Result::Err(AppError::NotFound(m))
            },
        }
    }
}

} // verus!
