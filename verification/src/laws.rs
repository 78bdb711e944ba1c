//! The standing guarantees of the store and the session registry, stated
//! and proved once against the contracts of their operations.

use vstd::prelude::*;
use crate::amplifier::{AmplifierManager, has_session, running_at, session_index};
use crate::models::{Issue, Label};
use crate::store::{
    CommentRecord, Store, comment_index, first_label_index, has_comment, has_issue, has_label,
    has_milestone, issue_at, issue_index, milestone_at, milestone_index,
};

verus! {

/// Law: issue numbers are handed out by the counter and never reused. In a
/// well-formed store every stored issue's number sits in `[1, counter)`,
/// numbers are pairwise distinct, and the number the next creation will
/// return — the counter itself — is fresh, strictly greater than every
/// stored number. A fresh store's counter is 1 and `create_issue` returns
/// the counter and bumps it by one, so any sequence of creations on an
/// empty store numbers its issues 1, 2, 3, ... strictly increasing.
pub proof fn lemma_issue_numbers_fresh(s: Store)
    requires
        s.wf(),
    ensures
        forall|k: int|
            0 <= k < s.issues@.len() ==> 1 <= (#[trigger] s.issues@[k]).number
                < s.meta.next_issue_id,
        forall|i: int, j: int|
            0 <= i < s.issues@.len() && 0 <= j < s.issues@.len() && i != j ==> (
            #[trigger] s.issues@[i]).number != (#[trigger] s.issues@[j]).number,
{
    assert forall|i: int, j: int|
        0 <= i < s.issues@.len() && 0 <= j < s.issues@.len() && i != j implies (
    #[trigger] s.issues@[i]).number != (#[trigger] s.issues@[j]).number by {
        if i < j {
            assert(s.issues@[i].number != s.issues@[j].number);
        } else {
            assert(s.issues@[j].number != s.issues@[i].number);
        }
    }
}

/// Law: comment ids are handed out by one counter shared across all
/// issues. In a well-formed store every stored comment's id sits in
/// `[1, counter)` and ids are pairwise distinct over the whole repository,
/// whichever issue owns them; the id the next creation will return — the
/// counter itself — is fresh. With `create_comment` returning the counter
/// and bumping it by one, any sequence of comment creations yields ids
/// strictly increasing across the repository.
pub proof fn lemma_comment_ids_fresh(s: Store)
    requires
        s.wf(),
    ensures
        forall|k: int|
            0 <= k < s.comments@.len() ==> 1 <= (#[trigger] s.comments@[k]).comment.id
                < s.meta.next_comment_id,
        forall|i: int, j: int|
            0 <= i < s.comments@.len() && 0 <= j < s.comments@.len() && i != j ==> (
            #[trigger] s.comments@[i]).comment.id != (#[trigger] s.comments@[j]).comment.id,
{
    assert forall|i: int, j: int|
        0 <= i < s.comments@.len() && 0 <= j < s.comments@.len() && i != j implies (
    #[trigger] s.comments@[i]).comment.id != (#[trigger] s.comments@[j]).comment.id by {
        if i < j {
            assert(s.comments@[i].comment.id != s.comments@[j].comment.id);
        } else {
            assert(s.comments@[j].comment.id != s.comments@[i].comment.id);
        }
    }
}

/// Law: a key is busy exactly while its session is in the running state.
/// `AmplifierManager::duplicate_check` refuses exactly when
/// `running_at` holds, and once the session under a key has reached a
/// terminal state — as `finish_session` ensures — the key is free again:
/// a fresh start under it passes the duplicate check.
pub proof fn lemma_restart_after_terminal(
    m: AmplifierManager,
    owner: Seq<char>,
    repo: Seq<char>,
    issue_number: u64,
)
    requires
        m.wf(),
        has_session(m.sessions@, owner, repo, issue_number) ==> !(m.sessions@[session_index(
            m.sessions@,
            owner,
            repo,
            issue_number,
        )].status is Running),
    ensures
        !running_at(m.sessions@, owner, repo, issue_number),
{
}

/// Law: an issue written is the issue read back. `Store::write_issue`
/// leaves the collection exactly as its contract says; under the store's
/// uniqueness of numbers the record then found under the written number is
/// the written record, so `Store::read_issue` — whose result equals the
/// record under the number, field for field — returns what was written.
pub proof fn lemma_issue_round_trip(pre: Store, post: Store, issue: Issue)
    requires
        pre.wf(),
        1 <= issue.number < pre.meta.next_issue_id,
        post.issues@ == if has_issue(pre.issues@, issue.number) {
            pre.issues@.update(issue_index(pre.issues@, issue.number), issue)
        } else {
            pre.issues@.push(issue)
        },
    ensures
        has_issue(post.issues@, issue.number),
        issue_at(post.issues@, issue.number) == issue,
{
    let n = issue.number;
    if has_issue(pre.issues@, n) {
        let idx = issue_index(pre.issues@, n);
        assert(pre.issues@[idx].number == n);
        assert(post.issues@[idx] == issue);
        let j = issue_index(post.issues@, n);
        assert(post.issues@[j].number == n);
        if j != idx {
            assert(pre.issues@[j].number == n);
        }
    } else {
        let idx = post.issues@.len() - 1;
        assert(post.issues@[idx] == issue);
        let j = issue_index(post.issues@, n);
        assert(post.issues@[j].number == n);
        if j != idx {
            assert(pre.issues@[j].number == n);
            assert(has_issue(pre.issues@, n));
        }
    }
}

/// Law: a comment appended under a fresh id is the comment found back by
/// that id. `create_comment` appends a record whose id no stored comment
/// carries; under the store's uniqueness of ids `find_comment` — whose
/// result is the record with the id, field for field — returns it, along
/// with the issue it was filed under.
pub proof fn lemma_comment_round_trip(pre: Store, post: Store, rec: CommentRecord)
    requires
        pre.wf(),
        !has_comment(pre.comments@, rec.comment.id),
        post.comments@ == pre.comments@.push(rec),
    ensures
        has_comment(post.comments@, rec.comment.id),
        post.comments@[comment_index(post.comments@, rec.comment.id)] == rec,
{
    let id = rec.comment.id;
    let idx = post.comments@.len() - 1;
    assert(post.comments@[idx] == rec);
    let j = comment_index(post.comments@, id);
    assert(post.comments@[j].comment.id == id);
    if j != idx {
        assert(pre.comments@[j].comment.id == id);
        assert(has_comment(pre.comments@, id));
    }
}

/// Law: a label created under a fresh name is the label read back by that
/// name. Creation refuses names in use, so the appended label is the first
/// and only one under its name, which is what `get_label` returns, field
/// for field.
pub proof fn lemma_label_round_trip(pre: Store, post: Store, label: Label)
    requires
        !has_label(pre.labels@, label.name@),
        post.labels@ == pre.labels@.push(label),
    ensures
        has_label(post.labels@, label.name@),
        post.labels@[first_label_index(post.labels@, label.name@)] == label,
{
    let idx = post.labels@.len() - 1;
    assert(post.labels@[idx] == label);
    lemma_first_label_at(post.labels@, label.name@, idx);
}

proof fn lemma_first_label_at(s: Seq<Label>, name: Seq<char>, i: int)
    requires
        0 <= i < s.len(),
        s[i].name@ == name,
        forall|j: int| 0 <= j < i ==> (#[trigger] s[j]).name@ != name,
    ensures
        first_label_index(s, name) == i,
    decreases s.len(),
{
    if s.len() > 0 && s[0].name@ != name {
        assert(i >= 1);
        assert forall|j: int| 0 <= j < i - 1 implies (#[trigger] s.drop_first()[j]).name@
            != name by {
            assert(s[j + 1].name@ != name);
        }
        lemma_first_label_at(s.drop_first(), name, i - 1);
    }
}

/// Law: a milestone appended under a fresh number is the milestone read
/// back by that number, field for field, under the store's uniqueness of
/// milestone numbers.
pub proof fn lemma_milestone_round_trip(pre: Store, post: Store, ms: crate::models::Milestone)
    requires
        pre.wf(),
        !has_milestone(pre.milestones@, ms.number),
        post.milestones@ == pre.milestones@.push(ms),
    ensures
        has_milestone(post.milestones@, ms.number),
        milestone_at(post.milestones@, ms.number) == ms,
{
    let idx = post.milestones@.len() - 1;
    assert(post.milestones@[idx] == ms);
    let j = milestone_index(post.milestones@, ms.number);
    assert(post.milestones@[j].number == ms.number);
    if j != idx {
        assert(pre.milestones@[j].number == ms.number);
        assert(has_milestone(pre.milestones@, ms.number));
    }
}

} // verus!
