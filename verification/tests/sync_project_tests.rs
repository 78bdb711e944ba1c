use attractor::error::AppError;
use attractor::models::{AttractorConfig, RecentProject, RepoInfo, SimpleUser, StoreManifest, Timestamp};
use attractor::project::{
    NameResolution, author_email, backing_name_candidate, backing_repo_base_name,
    filter_repos_by_prefix, parse_label_list, remove_recent_project_entry, repo_path,
    require_token, require_user, resolve_backing_step, store_prefix, upsert_recent_project,
    validate_store_id,
};
use attractor::sync::{
    CommitPlan, MergeAnalysisKind, SyncPlan, branch_or_main, commit_plan, ff_reflog_message,
    git_credential_username, local_ref_name, oid_eq, push_refspec, remote_ref_name, staged_paths,
    sync_plan, update_paths,
};

fn ts(millis: i64) -> Timestamp {
    Timestamp { millis }
}

#[test]
fn sync_on_up_to_date_repository_is_a_no_op() {
    let plan = sync_plan(Some("main".to_string()), true, MergeAnalysisKind::UpToDate);
    assert!(matches!(plan, SyncPlan::NoOp));
}

#[test]
fn sync_on_empty_repository_or_missing_remote_ref_is_a_no_op() {
    assert!(matches!(sync_plan(None, false, MergeAnalysisKind::Diverged), SyncPlan::NoOp));
    assert!(matches!(
        sync_plan(Some("main".to_string()), false, MergeAnalysisKind::Diverged),
        SyncPlan::NoOp
    ));
}

#[test]
fn sync_fast_forwards_the_local_branch_ref() {
    match sync_plan(Some("work".to_string()), true, MergeAnalysisKind::FastForward) {
        SyncPlan::FastForward { refname } => assert_eq!(refname, "refs/heads/work"),
        _ => panic!("expected a fast-forward plan"),
    }
}

#[test]
fn sync_fails_loudly_on_divergence() {
    match sync_plan(Some("main".to_string()), true, MergeAnalysisKind::Diverged) {
        SyncPlan::Fail { message } => {
            assert_eq!(message, "Merge required - please resolve conflicts manually")
        },
        _ => panic!("expected a failure plan"),
    }
}

#[test]
fn unchanged_tree_skips_the_commit() {
    let tree = vec![1u8, 2, 3];
    assert!(matches!(commit_plan(Some(&tree), &tree.clone()), CommitPlan::Skip));
    // and deciding again over the same trees still skips: no second commit
    assert!(matches!(commit_plan(Some(&tree), &tree.clone()), CommitPlan::Skip));
}

#[test]
fn changed_tree_commits_on_its_parent_and_first_commit_has_none() {
    let parent = vec![1u8, 2, 3];
    let newer = vec![9u8, 9, 9];
    match commit_plan(Some(&parent), &newer) {
        CommitPlan::Commit { with_parent } => assert!(with_parent),
        _ => panic!("expected a commit"),
    }
    match commit_plan(None, &newer) {
        CommitPlan::Commit { with_parent } => assert!(!with_parent),
        _ => panic!("expected a first commit"),
    }
}

#[test]
fn git_plumbing_strings() {
    assert!(oid_eq(&vec![1, 2], &vec![1, 2]));
    assert!(!oid_eq(&vec![1, 2], &vec![1, 3]));
    assert!(!oid_eq(&vec![1], &vec![1, 2]));
    assert_eq!(branch_or_main(None), "main");
    assert_eq!(branch_or_main(Some("dev".to_string())), "dev");
    assert_eq!(remote_ref_name("dev"), "refs/remotes/origin/dev");
    assert_eq!(local_ref_name("dev"), "refs/heads/dev");
    assert_eq!(push_refspec("dev"), "refs/heads/dev:refs/heads/dev");
    assert_eq!(ff_reflog_message(), "Fast-forward pull");
    assert_eq!(git_credential_username(), "x-access-token");
    assert_eq!(staged_paths(), vec![".attractor", "attractor-store.json"]);
    assert_eq!(update_paths(), vec![".attractor"]);
}

#[test]
fn store_binding_is_validated_only_when_both_sides_exist() {
    let cfg = AttractorConfig {
        owner: "alice".to_string(),
        repo: "attractor-store-x".to_string(),
        store_id: "id-1".to_string(),
    };
    let good = StoreManifest { store_id: "id-1".to_string() };
    let bad = StoreManifest { store_id: "id-2".to_string() };
    assert!(validate_store_id(&Some(cfg.clone()), &Some(good)).is_ok());
    match validate_store_id(&Some(cfg.clone()), &Some(bad)) {
        Err(AppError::StoreIdMismatch { expected, actual }) => {
            assert_eq!(expected, "id-1");
            assert_eq!(actual, "id-2");
        },
        _ => panic!("expected a binding mismatch"),
    }
    assert!(validate_store_id(&None, &Some(StoreManifest { store_id: "x".to_string() })).is_ok());
    assert!(validate_store_id(&Some(cfg), &None).is_ok());
    assert!(validate_store_id(&None, &None).is_ok());
}

#[test]
fn mismatch_error_renders_its_message() {
    let e = AppError::StoreIdMismatch { expected: "a".to_string(), actual: "b".to_string() };
    assert_eq!(
        e.message(),
        "Store ID mismatch: project expects 'a' but store has 'b'. This backing store belongs to a different project."
    );
    assert_eq!(AppError::NotFound("Issue #1 not found".to_string()).message(), "Not found: Issue #1 not found");
    assert_eq!(AppError::Git("oops".to_string()).message(), "Git error: oops");
    assert_eq!(AppError::RepoCreationForbidden("r".to_string()).message(), "REPO_CREATE_FORBIDDEN:r");
    assert_eq!(AppError::General("plain".to_string()).message(), "plain");
}

#[test]
fn authentication_guards() {
    assert_eq!(require_token(&Some("tok".to_string())).unwrap(), "tok");
    assert_eq!(
        require_token(&None).unwrap_err(),
        "Not authenticated - call set_token first"
    );
    let u = SimpleUser {
        login: "alice".to_string(),
        id: 3,
        avatar_url: String::new(),
        user_type: "User".to_string(),
    };
    assert_eq!(require_user(&Some(u)).unwrap().login, "alice");
    assert!(require_user(&None).is_err());
}

#[test]
fn backing_repo_names() {
    assert_eq!(store_prefix(), "attractor-store-");
    assert_eq!(backing_repo_base_name("myproj"), "attractor-store-myproj");
    assert_eq!(backing_repo_base_name("attractor-store-myproj"), "attractor-store-myproj");
    assert_eq!(backing_name_candidate("attractor-store-myproj", 0), "attractor-store-myproj");
    assert_eq!(backing_name_candidate("attractor-store-myproj", 3), "attractor-store-myproj-3");
}

#[test]
fn name_resolution_steps() {
    match resolve_backing_step("base", 0, false) {
        NameResolution::UseName(n) => assert_eq!(n, "base"),
        _ => panic!("expected the base name"),
    }
    assert!(matches!(resolve_backing_step("base", 0, true), NameResolution::TryNext));
    match resolve_backing_step("base", 5, false) {
        NameResolution::UseName(n) => assert_eq!(n, "base-5"),
        _ => panic!("expected a suffixed name"),
    }
    match resolve_backing_step("base", 99, true) {
        NameResolution::GiveUp(AppError::General(m)) => {
            assert_eq!(m, "Could not find an available repo name based on 'base'")
        },
        _ => panic!("expected resolution to give up"),
    }
}

#[test]
fn paths_and_emails() {
    assert_eq!(author_email("alice"), "alice@users.noreply.github.com");
    assert_eq!(repo_path("/home/u/.attractor/repos", "alice", "store"), "/home/u/.attractor/repos/alice/store");
    assert_eq!(attractor::paths::attractor_dir("/work/repo"), "/work/repo/.attractor");
    assert_eq!(attractor::paths::issue_rel_path(12), ".attractor/issues/12.json");
    assert_eq!(attractor::paths::comment_rel_path(12, 34), ".attractor/comments/12/34.json");
    assert_eq!(attractor::paths::comments_dir_rel_path(12), ".attractor/comments/12");
    assert_eq!(attractor::paths::labels_rel_path(), ".attractor/labels.json");
    assert_eq!(attractor::paths::milestones_rel_path(), ".attractor/milestones.json");
    assert_eq!(attractor::paths::meta_rel_path(), ".attractor/meta.json");
    assert_eq!(attractor::paths::store_manifest_rel_path(), "attractor-store.json");
    assert_eq!(attractor::paths::attractor_config_rel_path(), ".amplifier/attractor.json");
    assert_eq!(attractor::paths::settings_rel_path(), ".amplifier/settings.local.yaml");
}

fn project(path: &str, opened: i64) -> RecentProject {
    RecentProject {
        local_path: path.to_string(),
        owner: "alice".to_string(),
        repo: "store".to_string(),
        last_opened: ts(opened),
    }
}

#[test]
fn recent_projects_deduplicate_and_cap_at_twenty() {
    let mut list: Vec<RecentProject> = Vec::new();
    upsert_recent_project(&mut list, project("/a", 1));
    upsert_recent_project(&mut list, project("/b", 2));
    upsert_recent_project(&mut list, project("/a", 3));
    assert_eq!(list.len(), 2);
    assert_eq!(list[0].local_path, "/a");
    assert_eq!(list[0].last_opened.millis, 3);
    assert_eq!(list[1].local_path, "/b");
    for k in 0..25 {
        upsert_recent_project(&mut list, project(&format!("/p{}", k), k));
    }
    assert_eq!(list.len(), 20);
    assert_eq!(list[0].local_path, "/p24");
    remove_recent_project_entry(&mut list, "/p24");
    assert_eq!(list.len(), 19);
    assert_eq!(list[0].local_path, "/p23");
}

#[test]
fn repo_listing_is_filtered_by_prefix() {
    let owner = SimpleUser {
        login: "alice".to_string(),
        id: 1,
        avatar_url: String::new(),
        user_type: "User".to_string(),
    };
    let mk = |name: &str| RepoInfo {
        id: 1,
        name: name.to_string(),
        full_name: format!("alice/{}", name),
        description: None,
        private: true,
        html_url: String::new(),
        clone_url: String::new(),
        owner: owner.clone(),
    };
    let repos = vec![mk("attractor-store-a"), mk("other"), mk("attractor-store-b")];
    let kept = filter_repos_by_prefix(repos, "attractor-store-");
    let names: Vec<String> = kept.iter().map(|r| r.name.clone()).collect();
    assert_eq!(names, vec!["attractor-store-a", "attractor-store-b"]);
}

#[test]
fn label_lists_are_split_on_commas_and_trimmed() {
    assert_eq!(parse_label_list("bug, ui ,  backend"), vec!["bug", "ui", "backend"]);
    assert_eq!(parse_label_list("one"), vec!["one"]);
    assert_eq!(parse_label_list(""), vec![""]);
    assert_eq!(parse_label_list("a,,b"), vec!["a", "", "b"]);
}

#[test]
fn remaining_error_variants_render_their_prefixes() {
    assert_eq!(AppError::Io("disk".to_string()).message(), "IO error: disk");
    assert_eq!(AppError::Http("down".to_string()).message(), "HTTP error: down");
    assert_eq!(AppError::Json("bad".to_string()).message(), "JSON error: bad");
    assert_eq!(AppError::Auth("denied".to_string()).message(), "Authentication error: denied");
    assert_eq!(AppError::Storage("diverged".to_string()).message(), "Storage error: diverged");
}
