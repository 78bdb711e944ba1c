use attractor::amplifier::{
    AmplifierManager, AmplifierResult, AmplifierSession, SessionStatus, amplifier_args,
    amplifier_bot_user, amplifier_program, build_prompt, classify_outcome, session_commit_message,
    session_key, write_session_comment,
};
use attractor::extract::AmplifierJsonOutput;
use attractor::models::{SimpleUser, Timestamp};
use attractor::store::Store;

fn ts(millis: i64) -> Timestamp {
    Timestamp { millis }
}

fn user(login: &str) -> SimpleUser {
    SimpleUser {
        login: login.to_string(),
        id: 1,
        avatar_url: String::new(),
        user_type: "User".to_string(),
    }
}

fn session(owner: &str, repo: &str, n: u64, status: SessionStatus, pid: Option<u32>) -> AmplifierSession {
    AmplifierSession {
        issue_number: n,
        owner: owner.to_string(),
        repo: repo.to_string(),
        project_path: "/tmp/project".to_string(),
        status,
        started_at: ts(1),
        finished_at: None,
        result: None,
        child_id: pid,
    }
}

#[test]
fn session_key_format() {
    assert_eq!(session_key("alice", "proj", 12), "alice/proj#12");
}

#[test]
fn duplicate_session_is_refused_until_terminal() {
    let mut m = AmplifierManager::new();
    assert!(m.duplicate_check("alice", "proj", 1).is_ok());
    m.insert_session(session("alice", "proj", 1, SessionStatus::Running, Some(42)));
    match m.duplicate_check("alice", "proj", 1) {
        Err(msg) => assert_eq!(msg, "Amplifier session already running for issue #1"),
        Ok(_) => panic!("expected the duplicate-session error"),
    }
    // another key is unaffected
    assert!(m.duplicate_check("alice", "proj", 2).is_ok());
    assert!(m.duplicate_check("alice", "other", 1).is_ok());
    // reaching a terminal state frees the key
    m.finish_session(
        "alice",
        "proj",
        1,
        SessionStatus::Completed,
        ts(9),
        AmplifierResult {
            response: "done".to_string(),
            session_id: "s".to_string(),
            model: "m".to_string(),
            error: None,
        },
    );
    assert!(m.duplicate_check("alice", "proj", 1).is_ok());
    // and a fresh run may overwrite the finished entry
    m.insert_session(session("alice", "proj", 1, SessionStatus::Running, Some(43)));
    assert!(m.duplicate_check("alice", "proj", 1).is_err());
}

#[test]
fn status_reports_the_tracked_session() {
    let mut m = AmplifierManager::new();
    assert!(m.status("alice", "proj", 1).is_none());
    m.insert_session(session("alice", "proj", 1, SessionStatus::Running, Some(42)));
    let s = m.status("alice", "proj", 1).unwrap();
    assert_eq!(s.issue_number, 1);
    assert_eq!(s.child_id, Some(42));
    let info = s.info("2026-01-01T00:00:00Z".to_string(), None);
    assert_eq!(info.status, "running");
    assert_eq!(info.started_at, "2026-01-01T00:00:00Z");
    assert!(info.error.is_none());
}

#[test]
fn finish_session_records_outcome_and_clears_process() {
    let mut m = AmplifierManager::new();
    m.insert_session(session("alice", "proj", 1, SessionStatus::Running, Some(42)));
    m.finish_session(
        "alice",
        "proj",
        1,
        SessionStatus::Failed,
        ts(50),
        AmplifierResult {
            response: String::new(),
            session_id: String::new(),
            model: String::new(),
            error: Some("boom".to_string()),
        },
    );
    let s = m.status("alice", "proj", 1).unwrap();
    assert!(matches!(s.status, SessionStatus::Failed));
    assert_eq!(s.finished_at.map(|t| t.millis), Some(50));
    assert!(s.child_id.is_none());
    let info = s.info("start".to_string(), Some("end".to_string()));
    assert_eq!(info.status, "failed");
    assert_eq!(info.error.as_deref(), Some("boom"));
}

#[test]
fn cancel_target_distinguishes_the_three_cases() {
    let mut m = AmplifierManager::new();
    assert_eq!(
        m.cancel_target("alice", "proj", 7).unwrap_err(),
        "No session found for issue #7"
    );
    m.insert_session(session("alice", "proj", 7, SessionStatus::Running, Some(99)));
    assert_eq!(m.cancel_target("alice", "proj", 7).unwrap(), 99);
    m.finish_session(
        "alice",
        "proj",
        7,
        SessionStatus::Completed,
        ts(5),
        AmplifierResult {
            response: String::new(),
            session_id: String::new(),
            model: String::new(),
            error: None,
        },
    );
    assert_eq!(
        m.cancel_target("alice", "proj", 7).unwrap_err(),
        "Session has no active process"
    );
}

#[test]
fn bot_user_and_program_invocation() {
    let bot = amplifier_bot_user();
    assert_eq!(bot.login, "attractor-bot");
    assert_eq!(bot.user_type, "Bot");
    assert_eq!(bot.id, 0);
    assert_eq!(amplifier_program(), "amplifier");
    let args = amplifier_args("do things".to_string());
    assert_eq!(args, vec!["run", "--output-format", "json", "do things"]);
}

#[test]
fn prompt_includes_body_only_when_non_empty() {
    let mut store = Store::new();
    let with_body = store.create_issue(
        "Crash".to_string(),
        Some("It crashes.".to_string()),
        None,
        None,
        None,
        user("a"),
        ts(1),
    );
    assert_eq!(build_prompt(&with_body), "Issue #1: Crash\n\nIt crashes.");
    let empty_body = store.create_issue(
        "Quiet".to_string(),
        Some(String::new()),
        None,
        None,
        None,
        user("a"),
        ts(2),
    );
    assert_eq!(build_prompt(&empty_body), "Issue #2: Quiet");
    let no_body = store.create_issue("Bare".to_string(), None, None, None, None, user("a"), ts(3));
    assert_eq!(build_prompt(&no_body), "Issue #3: Bare");
}

fn payload(status: &str, response: &str, error: Option<&str>) -> AmplifierJsonOutput {
    AmplifierJsonOutput {
        status: status.to_string(),
        response: response.to_string(),
        session_id: "sess-1".to_string(),
        model: "model-x".to_string(),
        error: error.map(|e| e.to_string()),
        error_type: None,
    }
}

#[test]
fn success_payload_completes_with_response_as_comment() {
    let o = classify_outcome(Some(payload("success", "all good", None)), "", Some(0));
    assert!(matches!(o.status, SessionStatus::Completed));
    assert_eq!(o.comment_body, "all good");
    assert_eq!(o.result.response, "all good");
    assert_eq!(o.result.session_id, "sess-1");
    assert_eq!(o.result.model, "model-x");
    assert!(o.result.error.is_none());
}

#[test]
fn failure_payload_fails_with_its_error() {
    let o = classify_outcome(Some(payload("error", "", Some("ran out"))), "", Some(1));
    assert!(matches!(o.status, SessionStatus::Failed));
    assert_eq!(o.comment_body, "Amplifier session failed: ran out");
    assert_eq!(o.result.error.as_deref(), Some("ran out"));
    assert_eq!(o.result.response, "");
    let unk = classify_outcome(Some(payload("error", "", None)), "", Some(1));
    assert_eq!(unk.comment_body, "Amplifier session failed: Unknown error");
}

#[test]
fn unparsable_output_uses_last_ten_stderr_lines() {
    let stderr = (1..=12).map(|k| format!("line {}", k)).collect::<Vec<_>>().join("\n");
    let o = classify_outcome(None, &stderr, Some(1));
    assert!(matches!(o.status, SessionStatus::Failed));
    let expected_tail = (3..=12).map(|k| format!("line {}", k)).collect::<Vec<_>>().join("\n");
    assert_eq!(o.comment_body, format!("Amplifier session failed: {}", expected_tail));
    assert_eq!(o.result.error.as_deref(), Some(expected_tail.as_str()));
}

#[test]
fn unparsable_output_without_stderr_names_the_exit_code() {
    let o = classify_outcome(None, "", Some(3));
    assert_eq!(o.comment_body, "Amplifier session failed: Process exited with code 3");
    let killed = classify_outcome(None, "", None);
    assert_eq!(killed.comment_body, "Amplifier session failed: Process exited with code -1");
}

#[test]
fn session_comment_is_bot_authored_and_bumps_the_issue() {
    let mut store = Store::new();
    store.create_issue("Bug".to_string(), None, None, None, None, user("a"), ts(1));
    let id = write_session_comment(&mut store, 1, "result text".to_string(), ts(9));
    assert_eq!(id, 1);
    let (parent, c) = store.find_comment(id).unwrap();
    assert_eq!(parent, 1);
    assert_eq!(c.body, "result text");
    assert_eq!(c.user.login, "attractor-bot");
    assert_eq!(c.author_association, "BOT");
    assert_eq!(store.read_issue(1).unwrap().comments, 1);
    assert_eq!(session_commit_message(1), "attractor: session result for issue #1");
}
