//! Core data model: users, labels, milestones, issues, comments, counters,
//! and the project/store binding records.
//!
//! Record types here hold only plain values (integers, booleans, strings,
//! vectors, options), so every field is visible to specifications. Each
//! non-`Copy` record has a field-wise spec equality (`user_eq`, `label_eq`,
//! ...) and a `Clone` impl proved to preserve it.

use vstd::prelude::*;

verus! {

/// A point in time, in milliseconds since the Unix epoch.
///
/// Timestamps flow through this library as opaque instants that are stored,
/// copied and compared; producing the current instant or a formatted
/// rendering is the caller's business.
#[derive(Clone, Copy, PartialEq, Eq, Structural, Debug)]
pub struct Timestamp {
    pub millis: i64,
}

impl Timestamp {
    /// True when `self` is no later than `other`.
    pub fn le(&self, other: &Timestamp) -> (r: bool)
        ensures
            r == (self.millis <= other.millis),
    {
        self.millis <= other.millis
    }
}

/// The sequence counters for issue numbers, comment ids and milestone
/// numbers. The only mutable singleton of the store: every create
/// operation reads and bumps the matching counter.
#[derive(Clone, Copy, PartialEq, Eq, Structural, Debug)]
pub struct Meta {
    pub next_issue_id: u64,
    pub next_comment_id: u64,
    pub next_milestone_id: u64,
}

impl Default for Meta {
    /// A fresh store starts all three counters at 1.
    fn default() -> (r: Self)
        ensures
            r.next_issue_id == 1,
            r.next_comment_id == 1,
            r.next_milestone_id == 1,
    {
        Meta { next_issue_id: 1, next_comment_id: 1, next_milestone_id: 1 }
    }
}

/// A user reference as embedded in issues and comments.
pub struct SimpleUser {
    pub login: String,
    pub id: u64,
    pub avatar_url: String,
    pub user_type: String,
}

/// Field-wise equality of two users.
pub open spec fn user_eq(a: SimpleUser, b: SimpleUser) -> bool {
    &&& a.login@ == b.login@
    &&& a.id == b.id
    &&& a.avatar_url@ == b.avatar_url@
    &&& a.user_type@ == b.user_type@
}

/// Field-wise equality of two optional strings.
pub open spec fn opt_string_eq(a: Option<String>, b: Option<String>) -> bool {
    match (a, b) {
        (Option::Some(x), Option::Some(y)) => x@ == y@,
        (Option::None, Option::None) => true,
        _ => false,
    }
}

/// Field-wise equality of two optional users.
pub open spec fn opt_user_eq(a: Option<SimpleUser>, b: Option<SimpleUser>) -> bool {
    match (a, b) {
        (Option::Some(x), Option::Some(y)) => user_eq(x, y),
        (Option::None, Option::None) => true,
        _ => false,
    }
}

impl Clone for SimpleUser {
    fn clone(&self) -> (r: Self)
        ensures
            user_eq(r, *self),
    {
        SimpleUser {
            login: self.login.clone(),
            id: self.id,
            avatar_url: self.avatar_url.clone(),
            user_type: self.user_type.clone(),
        }
    }
}

/// A label: identity, unique name, colour and description.
pub struct Label {
    pub id: u64,
    pub name: String,
    pub color: String,
    pub description: Option<String>,
    pub is_default: bool,
}

/// Field-wise equality of two labels.
pub open spec fn label_eq(a: Label, b: Label) -> bool {
    &&& a.id == b.id
    &&& a.name@ == b.name@
    &&& a.color@ == b.color@
    &&& opt_string_eq(a.description, b.description)
    &&& a.is_default == b.is_default
}

/// Pointwise equality of two label sequences.
pub open spec fn labels_eq(a: Seq<Label>, b: Seq<Label>) -> bool {
    &&& a.len() == b.len()
    &&& forall|i: int| 0 <= i < a.len() ==> label_eq(#[trigger] a[i], b[i])
}

/// Pointwise equality of two user sequences.
pub open spec fn users_eq(a: Seq<SimpleUser>, b: Seq<SimpleUser>) -> bool {
    &&& a.len() == b.len()
    &&& forall|i: int| 0 <= i < a.len() ==> user_eq(#[trigger] a[i], b[i])
}

impl Clone for Label {
    fn clone(&self) -> (r: Self)
        ensures
            label_eq(r, *self),
    {
        Label {
            id: self.id,
            name: self.name.clone(),
            color: self.color.clone(),
            description: self.description.clone(),
            is_default: self.is_default,
        }
    }
}

/// A milestone: identity, state, progress counters and due date.
pub struct Milestone {
    pub id: u64,
    pub number: u64,
    pub title: String,
    pub description: Option<String>,
    pub state: String,
    pub open_issues: u64,
    pub closed_issues: u64,
    pub created_at: Timestamp,
    pub updated_at: Timestamp,
    pub closed_at: Option<Timestamp>,
    pub due_on: Option<Timestamp>,
}

/// Field-wise equality of two milestones.
pub open spec fn milestone_eq(a: Milestone, b: Milestone) -> bool {
    &&& a.id == b.id
    &&& a.number == b.number
    &&& a.title@ == b.title@
    &&& opt_string_eq(a.description, b.description)
    &&& a.state@ == b.state@
    &&& a.open_issues == b.open_issues
    &&& a.closed_issues == b.closed_issues
    &&& a.created_at == b.created_at
    &&& a.updated_at == b.updated_at
    &&& a.closed_at == b.closed_at
    &&& a.due_on == b.due_on
}

/// Field-wise equality of two optional milestones.
pub open spec fn opt_milestone_eq(a: Option<Milestone>, b: Option<Milestone>) -> bool {
    match (a, b) {
        (Option::Some(x), Option::Some(y)) => milestone_eq(x, y),
        (Option::None, Option::None) => true,
        _ => false,
    }
}

impl Clone for Milestone {
    fn clone(&self) -> (r: Self)
        ensures
            milestone_eq(r, *self),
    {
        Milestone {
            id: self.id,
            number: self.number,
            title: self.title.clone(),
            description: self.description.clone(),
            state: self.state.clone(),
            open_issues: self.open_issues,
            closed_issues: self.closed_issues,
            created_at: self.created_at,
            updated_at: self.updated_at,
            closed_at: self.closed_at,
            due_on: self.due_on,
        }
    }
}

/// An issue record, with labels and milestone embedded by value.
pub struct Issue {
    pub id: u64,
    pub number: u64,
    pub title: String,
    pub body: Option<String>,
    pub state: String,
    pub state_reason: Option<String>,
    pub locked: bool,
    pub lock_reason: Option<String>,
    pub labels: Vec<Label>,
    pub assignees: Vec<SimpleUser>,
    pub milestone: Option<Milestone>,
    pub comments: u64,
    pub created_at: Timestamp,
    pub updated_at: Timestamp,
    pub closed_at: Option<Timestamp>,
    pub closed_by: Option<SimpleUser>,
    pub author_association: String,
    pub user: SimpleUser,
}

/// Field-wise equality of two issues.
pub open spec fn issue_eq(a: Issue, b: Issue) -> bool {
    &&& a.id == b.id
    &&& a.number == b.number
    &&& a.title@ == b.title@
    &&& opt_string_eq(a.body, b.body)
    &&& a.state@ == b.state@
    &&& opt_string_eq(a.state_reason, b.state_reason)
    &&& a.locked == b.locked
    &&& opt_string_eq(a.lock_reason, b.lock_reason)
    &&& labels_eq(a.labels@, b.labels@)
    &&& users_eq(a.assignees@, b.assignees@)
    &&& opt_milestone_eq(a.milestone, b.milestone)
    &&& a.comments == b.comments
    &&& a.created_at == b.created_at
    &&& a.updated_at == b.updated_at
    &&& a.closed_at == b.closed_at
    &&& opt_user_eq(a.closed_by, b.closed_by)
    &&& a.author_association@ == b.author_association@
    &&& user_eq(a.user, b.user)
}

impl Clone for Issue {
    fn clone(&self) -> (r: Self)
        ensures
            issue_eq(r, *self),
    {
        let labels = self.labels.clone();
        let assignees = self.assignees.clone();
        proof {
            assert(labels_eq(labels@, self.labels@));
            assert(users_eq(assignees@, self.assignees@));
        }
        Issue {
            id: self.id,
            number: self.number,
            title: self.title.clone(),
            body: self.body.clone(),
            state: self.state.clone(),
            state_reason: self.state_reason.clone(),
            locked: self.locked,
            lock_reason: self.lock_reason.clone(),
            labels,
            assignees,
            milestone: self.milestone.clone(),
            comments: self.comments,
            created_at: self.created_at,
            updated_at: self.updated_at,
            closed_at: self.closed_at,
            closed_by: self.closed_by.clone(),
            author_association: self.author_association.clone(),
            user: self.user.clone(),
        }
    }
}

/// A comment record. The owning issue is not stored on the comment; the
/// store tracks ownership beside it.
pub struct Comment {
    pub id: u64,
    pub body: String,
    pub user: SimpleUser,
    pub created_at: Timestamp,
    pub updated_at: Timestamp,
    pub author_association: String,
}

/// Field-wise equality of two comments.
pub open spec fn comment_eq(a: Comment, b: Comment) -> bool {
    &&& a.id == b.id
    &&& a.body@ == b.body@
    &&& user_eq(a.user, b.user)
    &&& a.created_at == b.created_at
    &&& a.updated_at == b.updated_at
    &&& a.author_association@ == b.author_association@
}

impl Clone for Comment {
    fn clone(&self) -> (r: Self)
        ensures
            comment_eq(r, *self),
    {
        Comment {
            id: self.id,
            body: self.body.clone(),
            user: self.user.clone(),
            created_at: self.created_at,
            updated_at: self.updated_at,
            author_association: self.author_association.clone(),
        }
    }
}

/// A hosted repository as reported by the remote service.
pub struct RepoInfo {
    pub id: u64,
    pub name: String,
    pub full_name: String,
    pub description: Option<String>,
    pub private: bool,
    pub html_url: String,
    pub clone_url: String,
    pub owner: SimpleUser,
}

impl Clone for RepoInfo {
    fn clone(&self) -> (r: Self)
        ensures
            r.id == self.id,
            r.name@ == self.name@,
            r.full_name@ == self.full_name@,
            opt_string_eq(r.description, self.description),
            r.private == self.private,
            r.html_url@ == self.html_url@,
            r.clone_url@ == self.clone_url@,
            user_eq(r.owner, self.owner),
    {
        RepoInfo {
            id: self.id,
            name: self.name.clone(),
            full_name: self.full_name.clone(),
            description: self.description.clone(),
            private: self.private,
            html_url: self.html_url.clone(),
            clone_url: self.clone_url.clone(),
            owner: self.owner.clone(),
        }
    }
}

/// One page of a paginated listing, with the pre-pagination total.
pub struct ListResponse<T> {
    pub items: Vec<T>,
    pub total_count: usize,
    pub page: u32,
    pub per_page: u32,
}

/// The filter, sort and pagination parameters of an issue listing.
pub struct IssueFilters {
    pub state: Option<String>,
    pub labels: Option<Vec<String>>,
    pub assignee: Option<String>,
    pub milestone: Option<String>,
    pub sort: Option<String>,
    pub direction: Option<String>,
    pub page: Option<u32>,
    pub per_page: Option<u32>,
}

impl Default for IssueFilters {
    /// No filters: open issues, default sort, first page.
    fn default() -> (r: Self)
        ensures
            r.state is None,
            r.labels is None,
            r.assignee is None,
            r.milestone is None,
            r.sort is None,
            r.direction is None,
            r.page is None,
            r.per_page is None,
    {
        IssueFilters {
            state: Option::None,
            labels: Option::None,
            assignee: Option::None,
            milestone: Option::None,
            sort: Option::None,
            direction: Option::None,
            page: Option::None,
            per_page: Option::None,
        }
    }
}

/// The binding record written into a project working copy: which backing
/// store repository holds this project's documents.
pub struct AttractorConfig {
    pub owner: String,
    pub repo: String,
    pub store_id: String,
}

impl Clone for AttractorConfig {
    fn clone(&self) -> (r: Self)
        ensures
            r.owner@ == self.owner@,
            r.repo@ == self.repo@,
            r.store_id@ == self.store_id@,
    {
        AttractorConfig {
            owner: self.owner.clone(),
            repo: self.repo.clone(),
            store_id: self.store_id.clone(),
        }
    }
}

/// The manifest at the root of a backing store repository: the identity
/// token that pairs it with exactly one project.
pub struct StoreManifest {
    pub store_id: String,
}

impl Clone for StoreManifest {
    fn clone(&self) -> (r: Self)
        ensures
            r.store_id@ == self.store_id@,
    {
        StoreManifest { store_id: self.store_id.clone() }
    }
}

/// A recently-opened project tracked by the application.
pub struct RecentProject {
    pub local_path: String,
    pub owner: String,
    pub repo: String,
    pub last_opened: Timestamp,
}

impl Clone for RecentProject {
    fn clone(&self) -> (r: Self)
        ensures
            r.local_path@ == self.local_path@,
            r.owner@ == self.owner@,
            r.repo@ == self.repo@,
            r.last_opened == self.last_opened,
    {
        RecentProject {
            local_path: self.local_path.clone(),
            owner: self.owner.clone(),
            repo: self.repo.clone(),
            last_opened: self.last_opened,
        }
    }
}

} // verus!
