use attractor::models::{Issue, SimpleUser, Timestamp};
use attractor::store::Store;
use attractor::error::AppError;

fn user(login: &str) -> SimpleUser {
    SimpleUser {
        login: login.to_string(),
        id: 7,
        avatar_url: "https://example.test/avatar".to_string(),
        user_type: "User".to_string(),
    }
}

fn ts(millis: i64) -> Timestamp {
    Timestamp { millis }
}

fn create_plain_issue(store: &mut Store, title: &str, at: i64) -> Issue {
    store.create_issue(title.to_string(), None, None, None, None, user("alice"), ts(at))
}

#[test]
fn issue_numbers_start_at_one_and_increase() {
    let mut store = Store::new();
    let a = create_plain_issue(&mut store, "first", 1);
    let b = create_plain_issue(&mut store, "second", 2);
    let c = create_plain_issue(&mut store, "third", 3);
    assert_eq!(a.number, 1);
    assert_eq!(b.number, 2);
    assert_eq!(c.number, 3);
    assert!(a.number < b.number && b.number < c.number);
    assert_eq!(store.read_meta().next_issue_id, 4);
}

#[test]
fn new_issue_starts_open_unlocked_uncommented() {
    let mut store = Store::new();
    let i = store.create_issue(
        "Bug".to_string(),
        Some("body text".to_string()),
        None,
        None,
        None,
        user("alice"),
        ts(10),
    );
    assert_eq!(i.state, "open");
    assert!(!i.locked);
    assert_eq!(i.comments, 0);
    assert_eq!(i.author_association, "OWNER");
    assert!(i.closed_at.is_none());
    assert!(i.closed_by.is_none());
    assert_eq!(i.body.as_deref(), Some("body text"));
}

#[test]
fn issue_round_trip_reads_back_equal_fields() {
    let mut store = Store::new();
    let written = store.create_issue(
        "Round trip".to_string(),
        Some("all fields".to_string()),
        Some(vec!["bob".to_string()]),
        None,
        None,
        user("alice"),
        ts(42),
    );
    let read = store.read_issue(written.number).unwrap();
    assert_eq!(read.number, written.number);
    assert_eq!(read.id, written.id);
    assert_eq!(read.title, written.title);
    assert_eq!(read.body, written.body);
    assert_eq!(read.state, written.state);
    assert_eq!(read.comments, written.comments);
    assert_eq!(read.created_at.millis, written.created_at.millis);
    assert_eq!(read.updated_at.millis, written.updated_at.millis);
    assert_eq!(read.assignees.len(), 1);
    assert_eq!(read.assignees[0].login, "bob");
    assert_eq!(read.user.login, written.user.login);
}

#[test]
fn read_missing_issue_is_not_found() {
    let store = Store::new();
    match store.read_issue(5) {
        Err(AppError::NotFound(m)) => assert_eq!(m, "Issue #5 not found"),
        _ => panic!("expected a not-found error"),
    }
}

#[test]
fn comment_ids_increase_across_issues() {
    let mut store = Store::new();
    let a = create_plain_issue(&mut store, "a", 1);
    let b = create_plain_issue(&mut store, "b", 2);
    let c1 = store.create_comment(a.number, "on a".to_string(), user("alice"), ts(3));
    let c2 = store.create_comment(b.number, "on b".to_string(), user("alice"), ts(4));
    let c3 = store.create_comment(a.number, "on a again".to_string(), user("alice"), ts(5));
    assert_eq!(c1.id, 1);
    assert_eq!(c2.id, 2);
    assert_eq!(c3.id, 3);
    assert_eq!(store.read_meta().next_comment_id, 4);
}

#[test]
fn comment_bumps_parent_counter_and_updated_at() {
    let mut store = Store::new();
    let i = create_plain_issue(&mut store, "Bug", 1);
    assert_eq!(store.read_issue(i.number).unwrap().comments, 0);
    store.create_comment(i.number, "looks real".to_string(), user("alice"), ts(9));
    let after = store.read_issue(i.number).unwrap();
    assert_eq!(after.comments, 1);
    assert_eq!(after.updated_at.millis, 9);
}

#[test]
fn delete_comment_decrements_counter_by_one() {
    let mut store = Store::new();
    let i = create_plain_issue(&mut store, "Bug", 1);
    let c1 = store.create_comment(i.number, "one".to_string(), user("alice"), ts(2));
    store.create_comment(i.number, "two".to_string(), user("alice"), ts(3));
    assert_eq!(store.read_issue(i.number).unwrap().comments, 2);
    let parent = store.delete_comment(c1.id, ts(4)).unwrap();
    assert_eq!(parent, i.number);
    assert_eq!(store.read_issue(i.number).unwrap().comments, 1);
}

#[test]
fn delete_comment_floors_counter_at_zero() {
    let mut store = Store::new();
    let i = create_plain_issue(&mut store, "Bug", 1);
    let c = store.create_comment(i.number, "one".to_string(), user("alice"), ts(2));
    // reset the denormalized counter to zero, as a crash between the two
    // writes could leave it
    let mut drifted = store.read_issue(i.number).unwrap();
    drifted.comments = 0;
    store.write_issue(drifted);
    store.delete_comment(c.id, ts(3)).unwrap();
    assert_eq!(store.read_issue(i.number).unwrap().comments, 0);
}

#[test]
fn delete_missing_comment_is_not_found() {
    let mut store = Store::new();
    match store.delete_comment(9, ts(1)) {
        Err(AppError::NotFound(m)) => assert_eq!(m, "Comment #9 not found"),
        _ => panic!("expected a not-found error"),
    }
}

#[test]
fn comment_round_trip_via_find_and_read() {
    let mut store = Store::new();
    let i = create_plain_issue(&mut store, "Bug", 1);
    let written = store.create_comment(i.number, "body".to_string(), user("alice"), ts(5));
    let (parent, found) = store.find_comment(written.id).unwrap();
    assert_eq!(parent, i.number);
    assert_eq!(found.id, written.id);
    assert_eq!(found.body, written.body);
    assert_eq!(found.author_association, "OWNER");
    let direct = store.read_comment(i.number, written.id).unwrap();
    assert_eq!(direct.body, "body");
    assert!(store.read_comment(i.number + 1, written.id).is_err());
}

#[test]
fn update_comment_changes_body_and_updated_at_only() {
    let mut store = Store::new();
    let i = create_plain_issue(&mut store, "Bug", 1);
    let c = store.create_comment(i.number, "old".to_string(), user("alice"), ts(5));
    let updated = store.update_comment(c.id, "new".to_string(), ts(8)).unwrap();
    assert_eq!(updated.body, "new");
    assert_eq!(updated.created_at.millis, 5);
    assert_eq!(updated.updated_at.millis, 8);
    assert_eq!(store.read_issue(i.number).unwrap().comments, 1);
}

#[test]
fn closing_an_issue_stamps_closed_fields_and_reopening_clears_them() {
    let mut store = Store::new();
    let i = create_plain_issue(&mut store, "Bug", 1);
    let patch = attractor::store::IssueUpdate {
        title: None,
        body: None,
        state: Some("closed".to_string()),
        state_reason: None,
        assignees: None,
        labels: None,
        milestone: None,
    };
    let closed = store.update_issue(i.number, patch, user("carol"), ts(7)).unwrap();
    assert_eq!(closed.state, "closed");
    assert_eq!(closed.closed_at.map(|t| t.millis), Some(7));
    assert_eq!(closed.closed_by.as_ref().map(|u| u.login.clone()), Some("carol".to_string()));
    let patch2 = attractor::store::IssueUpdate {
        title: None,
        body: None,
        state: Some("open".to_string()),
        state_reason: None,
        assignees: None,
        labels: None,
        milestone: None,
    };
    let reopened = store.update_issue(i.number, patch2, user("carol"), ts(9)).unwrap();
    assert_eq!(reopened.state, "open");
    assert!(reopened.closed_at.is_none());
    assert!(reopened.closed_by.is_none());
}

#[test]
fn lock_and_unlock_issue() {
    let mut store = Store::new();
    let i = create_plain_issue(&mut store, "Bug", 1);
    store.lock_issue(i.number, Some("spam".to_string()), ts(3)).unwrap();
    let locked = store.read_issue(i.number).unwrap();
    assert!(locked.locked);
    assert_eq!(locked.lock_reason.as_deref(), Some("spam"));
    store.unlock_issue(i.number, ts(4)).unwrap();
    let unlocked = store.read_issue(i.number).unwrap();
    assert!(!unlocked.locked);
    assert!(unlocked.lock_reason.is_none());
}

#[test]
fn label_round_trip_and_fresh_ids() {
    let mut store = Store::new();
    let a = store.create_label("bug".to_string(), "ff0000".to_string(), None).unwrap();
    let b = store
        .create_label("feature".to_string(), "00ff00".to_string(), Some("nice".to_string()))
        .unwrap();
    assert_eq!(a.id, 1);
    assert_eq!(b.id, 2);
    let read = store.get_label("feature").unwrap();
    assert_eq!(read.id, b.id);
    assert_eq!(read.name, b.name);
    assert_eq!(read.color, b.color);
    assert_eq!(read.description, b.description);
    assert!(!read.is_default);
}

#[test]
fn duplicate_label_name_is_refused() {
    let mut store = Store::new();
    store.create_label("bug".to_string(), "ff0000".to_string(), None).unwrap();
    match store.create_label("bug".to_string(), "aa0000".to_string(), None) {
        Err(AppError::General(m)) => assert_eq!(m, "Label 'bug' already exists"),
        _ => panic!("expected a duplicate-label error"),
    }
}

#[test]
fn label_ids_are_not_reused_after_deletion() {
    let mut store = Store::new();
    store.create_label("bug".to_string(), "ff0000".to_string(), None).unwrap();
    let b = store.create_label("chore".to_string(), "cccccc".to_string(), None).unwrap();
    assert_eq!(b.id, 2);
    store.delete_label("bug").unwrap();
    let c = store.create_label("docs".to_string(), "0000ff".to_string(), None).unwrap();
    assert_eq!(c.id, 3);
}

#[test]
fn delete_missing_label_is_not_found() {
    let mut store = Store::new();
    match store.delete_label("ghost") {
        Err(AppError::NotFound(m)) => assert_eq!(m, "Label 'ghost' not found"),
        _ => panic!("expected a not-found error"),
    }
}

#[test]
fn update_label_changes_named_fields_only() {
    let mut store = Store::new();
    store.create_label("bug".to_string(), "ff0000".to_string(), None).unwrap();
    let updated = store
        .update_label("bug", Some("defect".to_string()), None, Some("broken".to_string()))
        .unwrap();
    assert_eq!(updated.name, "defect");
    assert_eq!(updated.color, "ff0000");
    assert_eq!(updated.description.as_deref(), Some("broken"));
    assert_eq!(updated.id, 1);
}

#[test]
fn issue_label_attach_and_detach() {
    let mut store = Store::new();
    store.create_label("bug".to_string(), "ff0000".to_string(), None).unwrap();
    store.create_label("ui".to_string(), "00ff00".to_string(), None).unwrap();
    let i = create_plain_issue(&mut store, "Bug", 1);
    let after_add = store
        .add_issue_labels(i.number, vec!["bug".to_string(), "ghost".to_string()], ts(2))
        .unwrap();
    assert_eq!(after_add.len(), 1);
    assert_eq!(after_add[0].name, "bug");
    // adding the same name again changes nothing
    let again = store.add_issue_labels(i.number, vec!["bug".to_string()], ts(3)).unwrap();
    assert_eq!(again.len(), 1);
    let set = store
        .set_issue_labels(i.number, vec!["ui".to_string()], ts(4))
        .unwrap();
    assert_eq!(set.len(), 1);
    assert_eq!(set[0].name, "ui");
    let removed = store.remove_issue_label(i.number, "ui", ts(5)).unwrap();
    assert!(removed.is_empty());
    store.add_issue_labels(i.number, vec!["bug".to_string()], ts(6)).unwrap();
    store.remove_all_issue_labels(i.number, ts(7)).unwrap();
    assert!(store.list_issue_labels(i.number).unwrap().is_empty());
}

#[test]
fn milestone_round_trip_and_numbering() {
    let mut store = Store::new();
    let m1 = store.create_milestone(
        "v1".to_string(),
        Some("first".to_string()),
        Some(ts(100)),
        None,
        ts(1),
    );
    let m2 = store.create_milestone("v2".to_string(), None, None, None, ts(2));
    assert_eq!(m1.number, 1);
    assert_eq!(m2.number, 2);
    assert_eq!(m1.state, "open");
    let read = store.get_milestone(1).unwrap();
    assert_eq!(read.title, "v1");
    assert_eq!(read.description.as_deref(), Some("first"));
    assert_eq!(read.due_on.map(|t| t.millis), Some(100));
    assert_eq!(read.open_issues, 0);
    assert_eq!(read.closed_issues, 0);
}

#[test]
fn milestone_close_stamps_and_reopen_clears() {
    let mut store = Store::new();
    store.create_milestone("v1".to_string(), None, None, None, ts(1));
    let closed = store
        .update_milestone(1, None, None, None, Some("closed".to_string()), ts(5))
        .unwrap();
    assert_eq!(closed.state, "closed");
    assert_eq!(closed.closed_at.map(|t| t.millis), Some(5));
    let reopened = store
        .update_milestone(1, None, None, None, Some("open".to_string()), ts(6))
        .unwrap();
    assert_eq!(reopened.state, "open");
    assert!(reopened.closed_at.is_none());
}

#[test]
fn delete_milestone_and_missing_errors() {
    let mut store = Store::new();
    store.create_milestone("v1".to_string(), None, None, None, ts(1));
    store.delete_milestone(1).unwrap();
    match store.get_milestone(1) {
        Err(AppError::NotFound(m)) => assert_eq!(m, "Milestone #1 not found"),
        _ => panic!("expected a not-found error"),
    }
    assert!(store.delete_milestone(1).is_err());
}

#[test]
fn issue_embeds_labels_and_milestone_by_value() {
    let mut store = Store::new();
    store.create_label("bug".to_string(), "ff0000".to_string(), None).unwrap();
    store.create_label("ui".to_string(), "00ff00".to_string(), None).unwrap();
    let ms = store.create_milestone("v1".to_string(), None, None, None, ts(1));
    let i = store.create_issue(
        "Embedded".to_string(),
        None,
        None,
        Some(vec!["ui".to_string()]),
        Some(ms.number),
        user("alice"),
        ts(2),
    );
    assert_eq!(i.labels.len(), 1);
    assert_eq!(i.labels[0].name, "ui");
    assert_eq!(i.milestone.as_ref().map(|m| m.number), Some(1));
    let missing_ms = store.create_issue(
        "No milestone".to_string(),
        None,
        None,
        None,
        Some(99),
        user("alice"),
        ts(3),
    );
    assert!(missing_ms.milestone.is_none());
}

#[test]
fn end_to_end_issue_and_comment_scenario() {
    let mut store = Store::new();
    let issue = store.create_issue(
        "Bug".to_string(),
        None,
        None,
        None,
        None,
        user("alice"),
        ts(1),
    );
    assert_eq!(issue.number, 1);
    assert_eq!(issue.comments, 0);
    let comment = store.create_comment(1, "looks real".to_string(), user("bob"), ts(2));
    assert_eq!(comment.body, "looks real");
    let after = store.read_issue(1).unwrap();
    assert_eq!(after.comments, 1);
}

#[test]
fn update_issue_patches_named_fields() {
    let mut store = Store::new();
    store.create_label("bug".to_string(), "ff0000".to_string(), None).unwrap();
    store.create_milestone("v1".to_string(), None, None, None, ts(0));
    create_plain_issue(&mut store, "old title", 1);
    let patch = attractor::store::IssueUpdate {
        title: Some("new title".to_string()),
        body: Some("new body".to_string()),
        state: None,
        state_reason: Some("completed".to_string()),
        assignees: Some(vec!["dana".to_string()]),
        labels: Some(vec!["bug".to_string()]),
        milestone: Some(1),
    };
    let updated = store.update_issue(1, patch, user("alice"), ts(5)).unwrap();
    assert_eq!(updated.title, "new title");
    assert_eq!(updated.body.as_deref(), Some("new body"));
    assert_eq!(updated.state, "open");
    assert_eq!(updated.state_reason.as_deref(), Some("completed"));
    assert_eq!(updated.assignees.len(), 1);
    assert_eq!(updated.assignees[0].login, "dana");
    assert_eq!(updated.labels.len(), 1);
    assert_eq!(updated.labels[0].name, "bug");
    assert_eq!(updated.milestone.as_ref().map(|m| m.number), Some(1));
    assert_eq!(updated.updated_at.millis, 5);
    assert_eq!(updated.created_at.millis, 1);
}

#[test]
fn update_missing_issue_is_not_found() {
    let mut store = Store::new();
    let patch = attractor::store::IssueUpdate {
        title: None,
        body: None,
        state: None,
        state_reason: None,
        assignees: None,
        labels: None,
        milestone: None,
    };
    match store.update_issue(3, patch, user("a"), ts(1)) {
        Err(AppError::NotFound(m)) => assert_eq!(m, "Issue #3 not found"),
        _ => panic!("expected a not-found error"),
    }
}

#[test]
fn milestone_update_replaces_due_date() {
    let mut store = Store::new();
    store.create_milestone("v1".to_string(), None, Some(ts(100)), None, ts(1));
    let cleared = store
        .update_milestone(1, None, None, Some(None), None, ts(2))
        .unwrap();
    assert!(cleared.due_on.is_none());
    let set = store
        .update_milestone(1, None, None, Some(Some(ts(300))), None, ts(3))
        .unwrap();
    assert_eq!(set.due_on.map(|t| t.millis), Some(300));
    let untouched = store.update_milestone(1, None, None, None, None, ts(4)).unwrap();
    assert_eq!(untouched.due_on.map(|t| t.millis), Some(300));
}
