use attractor::models::{IssueFilters, SimpleUser, Timestamp};
use attractor::store::Store;

fn user(login: &str) -> SimpleUser {
    SimpleUser {
        login: login.to_string(),
        id: 1,
        avatar_url: String::new(),
        user_type: "User".to_string(),
    }
}

fn ts(millis: i64) -> Timestamp {
    Timestamp { millis }
}

fn no_filters() -> IssueFilters {
    IssueFilters {
        state: None,
        labels: None,
        assignee: None,
        milestone: None,
        sort: None,
        direction: None,
        page: None,
        per_page: None,
    }
}

/// A store with three open and one closed issue, varied assignees, labels
/// and milestones.
fn sample_store() -> Store {
    let mut store = Store::new();
    store.create_label("bug".to_string(), "ff0000".to_string(), None).unwrap();
    store.create_label("ui".to_string(), "00ff00".to_string(), None).unwrap();
    store.create_milestone("v1".to_string(), None, None, None, ts(0));
    // #1: open, created 10, labels [bug], assignee bob, milestone 1
    store.create_issue(
        "one".to_string(),
        None,
        Some(vec!["bob".to_string()]),
        Some(vec!["bug".to_string()]),
        Some(1),
        user("alice"),
        ts(10),
    );
    // #2: open, created 30, labels [bug, ui], no assignee
    store.create_issue(
        "two".to_string(),
        None,
        None,
        Some(vec!["bug".to_string(), "ui".to_string()]),
        None,
        user("alice"),
        ts(30),
    );
    // #3: open, created 20, no labels, assignee carol
    store.create_issue(
        "three".to_string(),
        None,
        Some(vec!["carol".to_string()]),
        None,
        None,
        user("alice"),
        ts(20),
    );
    // #4: closed, created 40
    store.create_issue("four".to_string(), None, None, None, None, user("alice"), ts(40));
    let patch = attractor::store::IssueUpdate {
        title: None,
        body: None,
        state: Some("closed".to_string()),
        state_reason: None,
        assignees: None,
        labels: None,
        milestone: None,
    };
    store.update_issue(4, patch, user("alice"), ts(41)).unwrap();
    store
}

#[test]
fn default_listing_returns_open_issues_newest_first() {
    let store = sample_store();
    let (items, total) = store.list_issues(&no_filters());
    assert_eq!(total, 3);
    let numbers: Vec<u64> = items.iter().map(|i| i.number).collect();
    assert_eq!(numbers, vec![2, 3, 1]);
    for i in &items {
        assert_eq!(i.state, "open");
    }
}

#[test]
fn state_all_and_state_closed_filters() {
    let store = sample_store();
    let mut f = no_filters();
    f.state = Some("all".to_string());
    let (_, total_all) = store.list_issues(&f);
    assert_eq!(total_all, 4);
    f.state = Some("closed".to_string());
    let (items, total_closed) = store.list_issues(&f);
    assert_eq!(total_closed, 1);
    assert_eq!(items[0].number, 4);
}

#[test]
fn label_filter_requires_every_named_label() {
    let store = sample_store();
    let mut f = no_filters();
    f.labels = Some(vec!["bug".to_string()]);
    let (items, _) = store.list_issues(&f);
    let mut numbers: Vec<u64> = items.iter().map(|i| i.number).collect();
    numbers.sort();
    assert_eq!(numbers, vec![1, 2]);
    f.labels = Some(vec!["bug".to_string(), "ui".to_string()]);
    let (both, _) = store.list_issues(&f);
    assert_eq!(both.len(), 1);
    assert_eq!(both[0].number, 2);
}

#[test]
fn assignee_none_returns_exactly_the_unassigned() {
    let store = sample_store();
    let mut f = no_filters();
    f.assignee = Some("none".to_string());
    let (items, total) = store.list_issues(&f);
    assert_eq!(total, 1);
    assert_eq!(items[0].number, 2);
    assert!(items[0].assignees.is_empty());
}

#[test]
fn assignee_star_returns_exactly_the_assigned() {
    let store = sample_store();
    let mut f = no_filters();
    f.assignee = Some("*".to_string());
    let (items, total) = store.list_issues(&f);
    assert_eq!(total, 2);
    let mut numbers: Vec<u64> = items.iter().map(|i| i.number).collect();
    numbers.sort();
    assert_eq!(numbers, vec![1, 3]);
    for i in &items {
        assert!(!i.assignees.is_empty());
    }
}

#[test]
fn assignee_login_matches_exactly() {
    let store = sample_store();
    let mut f = no_filters();
    f.assignee = Some("carol".to_string());
    let (items, total) = store.list_issues(&f);
    assert_eq!(total, 1);
    assert_eq!(items[0].number, 3);
}

#[test]
fn milestone_filter_none_star_and_number() {
    let store = sample_store();
    let mut f = no_filters();
    f.milestone = Some("none".to_string());
    let (unassigned, _) = store.list_issues(&f);
    let mut numbers: Vec<u64> = unassigned.iter().map(|i| i.number).collect();
    numbers.sort();
    assert_eq!(numbers, vec![2, 3]);
    f.milestone = Some("*".to_string());
    let (with_ms, _) = store.list_issues(&f);
    assert_eq!(with_ms.len(), 1);
    assert_eq!(with_ms[0].number, 1);
    f.milestone = Some("1".to_string());
    let (exact, _) = store.list_issues(&f);
    assert_eq!(exact.len(), 1);
    assert_eq!(exact[0].number, 1);
    // an unparsable milestone filters nothing
    f.milestone = Some("not-a-number".to_string());
    let (all, _) = store.list_issues(&f);
    assert_eq!(all.len(), 3);
}

#[test]
fn sort_by_updated_ascending() {
    let store = sample_store();
    let mut f = no_filters();
    f.sort = Some("updated".to_string());
    f.direction = Some("asc".to_string());
    let (items, _) = store.list_issues(&f);
    let stamps: Vec<i64> = items.iter().map(|i| i.updated_at.millis).collect();
    let mut sorted = stamps.clone();
    sorted.sort();
    assert_eq!(stamps, sorted);
}

#[test]
fn sort_by_comments_descending() {
    let mut store = sample_store();
    store.create_comment(1, "a".to_string(), user("x"), ts(50));
    store.create_comment(1, "b".to_string(), user("x"), ts(51));
    store.create_comment(3, "c".to_string(), user("x"), ts(52));
    let mut f = no_filters();
    f.sort = Some("comments".to_string());
    let (items, _) = store.list_issues(&f);
    let counts: Vec<u64> = items.iter().map(|i| i.comments).collect();
    assert_eq!(counts, vec![2, 1, 0]);
}

#[test]
fn pagination_slices_after_sorting() {
    let store = sample_store();
    let mut f = no_filters();
    f.per_page = Some(2);
    let (page1, total) = store.list_issues(&f);
    assert_eq!(total, 3);
    assert_eq!(page1.len(), 2);
    assert_eq!(page1[0].number, 2);
    f.page = Some(2);
    let (page2, total2) = store.list_issues(&f);
    assert_eq!(total2, 3);
    assert_eq!(page2.len(), 1);
    assert_eq!(page2[0].number, 1);
    f.page = Some(3);
    let (page3, _) = store.list_issues(&f);
    assert!(page3.is_empty());
}

#[test]
fn per_page_is_capped_at_one_hundred() {
    let mut store = Store::new();
    for k in 0..105 {
        store.create_issue(format!("i{}", k), None, None, None, None, user("a"), ts(k));
    }
    let mut f = no_filters();
    f.per_page = Some(500);
    let (items, total) = store.list_issues(&f);
    assert_eq!(total, 105);
    assert_eq!(items.len(), 100);
}

#[test]
fn empty_store_lists_nothing() {
    let store = Store::new();
    let (items, total) = store.list_issues(&no_filters());
    assert!(items.is_empty());
    assert_eq!(total, 0);
}

#[test]
fn comments_list_oldest_first_with_pagination() {
    let mut store = Store::new();
    store.create_issue("Bug".to_string(), None, None, None, None, user("a"), ts(1));
    store.create_comment(1, "late".to_string(), user("a"), ts(30));
    store.create_comment(1, "early".to_string(), user("a"), ts(10));
    store.create_comment(1, "middle".to_string(), user("a"), ts(20));
    let (items, total) = store.list_comments_for_issue(1, 1, 30);
    assert_eq!(total, 3);
    let bodies: Vec<String> = items.iter().map(|c| c.body.clone()).collect();
    assert_eq!(bodies, vec!["early", "middle", "late"]);
    let (page2, total2) = store.list_comments_for_issue(1, 2, 2);
    assert_eq!(total2, 3);
    assert_eq!(page2.len(), 1);
    assert_eq!(page2[0].body, "late");
    let (other, other_total) = store.list_comments_for_issue(2, 1, 30);
    assert!(other.is_empty());
    assert_eq!(other_total, 0);
}

#[test]
fn milestones_list_filters_by_state_and_sorts_by_due_date() {
    let mut store = Store::new();
    store.create_milestone("later".to_string(), None, Some(ts(200)), None, ts(1));
    store.create_milestone("sooner".to_string(), None, Some(ts(100)), None, ts(2));
    store.create_milestone("closed one".to_string(), None, None, Some("closed".to_string()), ts(3));
    let items = store.list_milestones(&None, &None, &None, None, None);
    let titles: Vec<String> = items.iter().map(|m| m.title.clone()).collect();
    assert_eq!(titles, vec!["sooner", "later"]);
    let all = store.list_milestones(&Some("all".to_string()), &None, &None, None, None);
    assert_eq!(all.len(), 3);
    // an absent due date sorts first
    assert!(all[0].due_on.is_none());
}

#[test]
fn milestones_sort_by_completeness() {
    let mut seed = Store::new();
    let mut a = seed.create_milestone("half".to_string(), None, None, None, ts(1));
    let mut b = seed.create_milestone("done".to_string(), None, None, None, ts(2));
    a.open_issues = 1;
    a.closed_issues = 1;
    b.open_issues = 0;
    b.closed_issues = 4;
    let store = Store {
        meta: attractor::models::Meta {
            next_issue_id: 1,
            next_comment_id: 1,
            next_milestone_id: 3,
        },
        issues: Vec::new(),
        comments: Vec::new(),
        labels: Vec::new(),
        milestones: vec![a, b],
    };
    let desc = store.list_milestones(
        &None,
        &Some("completeness".to_string()),
        &Some("desc".to_string()),
        None,
        None,
    );
    let titles: Vec<String> = desc.iter().map(|m| m.title.clone()).collect();
    assert_eq!(titles, vec!["done", "half"]);
}

#[test]
fn milestones_paginate_after_sorting() {
    let mut store = Store::new();
    for k in 0..5i64 {
        store.create_milestone(format!("m{}", k), None, Some(ts(k * 10)), None, ts(k));
    }
    let page1 = store.list_milestones(&None, &None, &None, Some(1), Some(2));
    assert_eq!(page1.len(), 2);
    assert_eq!(page1[0].title, "m0");
    assert_eq!(page1[1].title, "m1");
    let page2 = store.list_milestones(&None, &None, &None, Some(2), Some(2));
    assert_eq!(page2.len(), 2);
    assert_eq!(page2[0].title, "m2");
    assert_eq!(page2[1].title, "m3");
    let page3 = store.list_milestones(&None, &None, &None, Some(3), Some(2));
    assert_eq!(page3.len(), 1);
    assert_eq!(page3[0].title, "m4");
    let beyond = store.list_milestones(&None, &None, &None, Some(4), Some(2));
    assert!(beyond.is_empty());
}

#[test]
fn milestones_listing_is_complete_and_capped() {
    let mut store = Store::new();
    for k in 0..105i64 {
        store.create_milestone(format!("m{}", k), None, Some(ts(k)), None, ts(k));
    }
    let capped = store.list_milestones(&None, &None, &None, None, Some(500));
    assert_eq!(capped.len(), 100);
    let empty = Store::new().list_milestones(&None, &None, &None, None, None);
    assert!(empty.is_empty());
}
