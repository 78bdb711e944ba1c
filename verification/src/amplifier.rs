//! The session supervisor's verified core: the registry of analysis-tool
//! sessions keyed by owner, repository and issue number, the prompt and
//! argument construction, the classification of a finished process's
//! output, and the write-back of the outcome as a bot comment.
//!
//! Spawning the tool, awaiting it and delivering signals is the caller's
//! business; the registry is designed to sit behind one read/write lock,
//! every operation being a short, self-contained update.

use vstd::prelude::*;
use vstd::string::*;
use crate::extract::AmplifierJsonOutput;
use crate::models::{Issue, SimpleUser, Timestamp, opt_string_eq};
use crate::store::{Store, has_issue, issue_at, issue_index, issue_eq_except_comments};
use crate::strutil::{
    i64_dec, i64_to_string, join_nl, last_n, lines_of, spec_join_nl, spec_lines, str_eq, u64_dec,
    u64_to_string,
};

verus! {

/// Where a session stands: running, or finished one way or the other.
#[derive(Clone, Copy, PartialEq, Eq, Structural, Debug)]
pub enum SessionStatus {
    Running,
    Completed,
    Failed,
}

/// What a finished session produced.
pub struct AmplifierResult {
    pub response: String,
    pub session_id: String,
    pub model: String,
    pub error: Option<String>,
}

impl Clone for AmplifierResult {
    fn clone(&self) -> (r: Self)
        ensures
            r.response@ == self.response@,
            r.session_id@ == self.session_id@,
            r.model@ == self.model@,
            opt_string_eq(r.error, self.error),
    {
        AmplifierResult {
            response: self.response.clone(),
            session_id: self.session_id.clone(),
            model: self.model.clone(),
            error: self.error.clone(),
        }
    }
}

/// One tracked session: its key (owner, repository, issue number), where it
/// runs, its lifecycle state, and the process id kept only so a separate
/// cancellation entry point can act.
pub struct AmplifierSession {
    pub issue_number: u64,
    pub owner: String,
    pub repo: String,
    pub project_path: String,
    pub status: SessionStatus,
    pub started_at: Timestamp,
    pub finished_at: Option<Timestamp>,
    pub result: Option<AmplifierResult>,
    pub child_id: Option<u32>,
}

/// Does the session carry this key?
pub open spec fn session_key_matches(
    s: AmplifierSession,
    owner: Seq<char>,
    repo: Seq<char>,
    issue_number: u64,
) -> bool {
    s.owner@ == owner && s.repo@ == repo && s.issue_number == issue_number
}

/// There is a session under this key.
pub open spec fn has_session(
    ss: Seq<AmplifierSession>,
    owner: Seq<char>,
    repo: Seq<char>,
    issue_number: u64,
) -> bool {
    exists|i: int|
        0 <= i < ss.len() && session_key_matches(#[trigger] ss[i], owner, repo, issue_number)
}

/// The index of the session under this key (unique under
/// `AmplifierManager::wf`).
pub open spec fn session_index(
    ss: Seq<AmplifierSession>,
    owner: Seq<char>,
    repo: Seq<char>,
    issue_number: u64,
) -> int {
    choose|i: int|
        0 <= i < ss.len() && session_key_matches(#[trigger] ss[i], owner, repo, issue_number)
}

/// A session under this key is currently running.
pub open spec fn running_at(
    ss: Seq<AmplifierSession>,
    owner: Seq<char>,
    repo: Seq<char>,
    issue_number: u64,
) -> bool {
    &&& has_session(ss, owner, repo, issue_number)
    &&& ss[session_index(ss, owner, repo, issue_number)].status is Running
}

/// The registry of all sessions. One registry serves every project; the
/// caller guards it with a single read/write lock and keeps each call
/// inside one lock scope.
pub struct AmplifierManager {
    pub sessions: Vec<AmplifierSession>,
}

/// The duplicate-session error for an issue.
pub open spec fn duplicate_session_msg(issue_number: u64) -> Seq<char> {
    "Amplifier session already running for issue #"@.add(u64_dec(issue_number as nat))
}

/// The cancellation error when the session exists but tracks no process.
pub open spec fn no_process_msg() -> Seq<char> {
    "Session has no active process"@
}

/// The cancellation error when no session exists under the key.
pub open spec fn no_session_msg(issue_number: u64) -> Seq<char> {
    "No session found for issue #"@.add(u64_dec(issue_number as nat))
}

impl AmplifierManager {
    /// Well-formedness: at most one session per key.
    pub open spec fn wf(self) -> bool {
        forall|i: int, j: int|
            0 <= i < j < self.sessions@.len() ==> !session_key_matches(
                #[trigger] self.sessions@[i],
                (#[trigger] self.sessions@[j]).owner@,
                self.sessions@[j].repo@,
                self.sessions@[j].issue_number,
            )
    }

    /// An empty registry.
    pub fn new() -> (r: Self)
        ensures
            r.wf(),
            r.sessions@.len() == 0,
    {
        AmplifierManager { sessions: Vec::new() }
    }

    /// Where the session under this key sits, if anywhere.
    fn find_session_index(&self, owner: &str, repo: &str, issue_number: u64) -> (r: Option<usize>)
        ensures
            match r {
                Option::Some(i) => i < self.sessions@.len() && session_key_matches(
                    self.sessions@[i as int],
                    owner@,
                    repo@,
                    issue_number,
                ),
                Option::None => !has_session(self.sessions@, owner@, repo@, issue_number),
            },
    {
        let mut i: usize = 0;
        while i < self.sessions.len()
            invariant
                0 <= i <= self.sessions@.len(),
                forall|j: int|
                    0 <= j < i ==> !session_key_matches(
                        #[trigger] self.sessions@[j],
                        owner@,
                        repo@,
                        issue_number,
                    ),
            decreases self.sessions@.len() - i,
        {
            let s = &self.sessions[i];
            if s.issue_number == issue_number && str_eq(s.owner.as_str(), owner) && str_eq(
                s.repo.as_str(),
                repo,
            ) {
                return Option::Some(i);
            }
            i += 1;
        }
        Option::None
    }

    /// The session under this key, if any.
    pub fn status(&self, owner: &str, repo: &str, issue_number: u64) -> (r: Option<
        &AmplifierSession,
    >)
        requires
            self.wf(),
        ensures
            r is Some <==> has_session(self.sessions@, owner@, repo@, issue_number),
            match r {
                Option::Some(s) => *s == self.sessions@[session_index(
                    self.sessions@,
                    owner@,
                    repo@,
                    issue_number,
                )],
                Option::None => true,
            },
    {
        match self.find_session_index(owner, repo, issue_number) {
            Option::Some(i) => {
                proof {
                    let idx = session_index(self.sessions@, owner@, repo@, issue_number);
                    assert(session_key_matches(self.sessions@[idx], owner@, repo@, issue_number));
                    assert(idx == i as int);
                }
                Option::Some(&self.sessions[i])
            },
            Option::None => Option::None,
        }
    }

    /// Refuses to start a session under a key that already has one running:
    /// idempotent duplicate prevention, not a queue.
    pub fn duplicate_check(&self, owner: &str, repo: &str, issue_number: u64) -> (r: Result<
        (),
        String,
    >)
        requires
            self.wf(),
        ensures
            r is Err <==> running_at(self.sessions@, owner@, repo@, issue_number),
            match r {
                Result::Ok(_) => true,
                Result::Err(m) => m@ == duplicate_session_msg(issue_number),
            },
    {
        match self.find_session_index(owner, repo, issue_number) {
            Option::Some(i) => {
                proof {
                    let idx = session_index(self.sessions@, owner@, repo@, issue_number);
                    assert(session_key_matches(self.sessions@[idx], owner@, repo@, issue_number));
                    assert(idx == i as int);
                }
                let running = match self.sessions[i].status {
                    SessionStatus::Running => true,
                    _ => false,
                };
                if running {
                    let mut m = "Amplifier session already running for issue #".to_owned();
                    m.append(u64_to_string(issue_number).as_str());
                    Result::Err(m)
                } else {
                    Result::Ok(())
                }
            },
            Option::None => Result::Ok(()),
        }
    }

    /// Registers a session under its key, replacing any previous entry for
    /// that key: a finished session may be overwritten by a fresh run.
    pub fn insert_session(&mut self, session: AmplifierSession)
        requires
            old(self).wf(),
        ensures
            final(self).wf(),
            final(self).sessions@ == if has_session(
                old(self).sessions@,
                session.owner@,
                session.repo@,
                session.issue_number,
            ) {
                old(self).sessions@.update(
                    session_index(
                        old(self).sessions@,
                        session.owner@,
                        session.repo@,
                        session.issue_number,
                    ),
                    session,
                )
            } else {
                old(self).sessions@.push(session)
            },
    {
        let ghost owner_v = session.owner@;
        let ghost repo_v = session.repo@;
        let ghost n = session.issue_number;
        let idx = self.find_session_index(
            session.owner.as_str(),
            session.repo.as_str(),
            session.issue_number,
        );
        match idx {
            Option::Some(i) => {
                proof {
                    let sidx = session_index(self.sessions@, owner_v, repo_v, n);
                    assert(session_key_matches(self.sessions@[sidx], owner_v, repo_v, n));
                    assert(sidx == i as int);
                }
                self.sessions.set(i, session);
                proof {
                    assert forall|a: int, b: int|
                        0 <= a < b < self.sessions@.len() implies !session_key_matches(
                        #[trigger] self.sessions@[a],
                        (#[trigger] self.sessions@[b]).owner@,
                        self.sessions@[b].repo@,
                        self.sessions@[b].issue_number,
                    ) by {
                        let olds = old(self).sessions@;
                        assert(!session_key_matches(
                            olds[a],
                            olds[b].owner@,
                            olds[b].repo@,
                            olds[b].issue_number,
                        ));
                        if a == i as int {
                            assert(session_key_matches(olds[a], owner_v, repo_v, n));
                        }
                        if b == i as int {
                            assert(session_key_matches(olds[b], owner_v, repo_v, n));
                        }
                    }
                }
            },
            Option::None => {
                self.sessions.push(session);
                proof {
                    assert forall|a: int, b: int|
                        0 <= a < b < self.sessions@.len() implies !session_key_matches(
                        #[trigger] self.sessions@[a],
                        (#[trigger] self.sessions@[b]).owner@,
                        self.sessions@[b].repo@,
                        self.sessions@[b].issue_number,
                    ) by {
                        let olds = old(self).sessions@;
                        if b < self.sessions@.len() - 1 {
                            assert(!session_key_matches(
                                olds[a],
                                olds[b].owner@,
                                olds[b].repo@,
                                olds[b].issue_number,
                            ));
                        } else {
                            if session_key_matches(olds[a], owner_v, repo_v, n) {
                                assert(has_session(olds, owner_v, repo_v, n));
                            }
                        }
                    }
                }
            },
        }
    }

    /// Moves the session under this key to a terminal state, recording when
    /// it finished and what it produced, and clearing the tracked process.
    /// A key with no session is left alone.
    pub fn finish_session(
        &mut self,
        owner: &str,
        repo: &str,
        issue_number: u64,
        status: SessionStatus,
        finished_at: Timestamp,
        result: AmplifierResult,
    )
        requires
            old(self).wf(),
        ensures
            final(self).wf(),
            !has_session(old(self).sessions@, owner@, repo@, issue_number) ==> final(self).sessions@
                == old(self).sessions@,
            has_session(old(self).sessions@, owner@, repo@, issue_number) ==> ({
                let idx = session_index(old(self).sessions@, owner@, repo@, issue_number);
                let prev = old(self).sessions@[idx];
                let ni = final(self).sessions@[idx];
                &&& final(self).sessions@.len() == old(self).sessions@.len()
                &&& (forall|i: int|
                    0 <= i < final(self).sessions@.len() && i != idx
                        ==> final(self).sessions@[i] == old(self).sessions@[i])
                &&& ni.issue_number == prev.issue_number
                &&& ni.owner@ == prev.owner@
                &&& ni.repo@ == prev.repo@
                &&& ni.project_path@ == prev.project_path@
                &&& ni.status == status
                &&& ni.finished_at == Option::Some(finished_at)
                &&& (ni.result matches Option::Some(res) && {
                    &&& res.response@ == result.response@
                    &&& res.session_id@ == result.session_id@
                    &&& res.model@ == result.model@
                    &&& opt_string_eq(res.error, result.error)
                })
                &&& ni.child_id is None
                &&& ni.started_at == prev.started_at
            }),
    {
        let idx = match self.find_session_index(owner, repo, issue_number) {
            Option::Some(i) => i,
            Option::None => {
                return ;
            },
        };
        proof {
            let sidx = session_index(self.sessions@, owner@, repo@, issue_number);
            assert(session_key_matches(self.sessions@[sidx], owner@, repo@, issue_number));
            assert(sidx == idx as int);
        }
        let prev = &self.sessions[idx];
        let updated = AmplifierSession {
            issue_number: prev.issue_number,
            owner: prev.owner.clone(),
            repo: prev.repo.clone(),
            project_path: prev.project_path.clone(),
            status,
            started_at: prev.started_at,
            finished_at: Option::Some(finished_at),
            result: Option::Some(result),
            child_id: Option::None,
        };
        self.sessions.set(idx, updated);
        proof {
            assert forall|a: int, b: int|
                0 <= a < b < self.sessions@.len() implies !session_key_matches(
                #[trigger] self.sessions@[a],
                (#[trigger] self.sessions@[b]).owner@,
                self.sessions@[b].repo@,
                self.sessions@[b].issue_number,
            ) by {
                let olds = old(self).sessions@;
                assert(!session_key_matches(
                    olds[a],
                    olds[b].owner@,
                    olds[b].repo@,
                    olds[b].issue_number,
                ));
            }
        }
    }

    /// What cancellation should do for this key: the process id to signal
    /// when a process is tracked, else which of the two failures holds —
    /// the session has already finished, or the key is unknown.
    pub fn cancel_target(&self, owner: &str, repo: &str, issue_number: u64) -> (r: Result<
        u32,
        String,
    >)
        requires
            self.wf(),
        ensures
            ({
                let ss = self.sessions@;
                if has_session(ss, owner@, repo@, issue_number) {
                    match ss[session_index(ss, owner@, repo@, issue_number)].child_id {
                        Option::Some(pid) => r == Result::<u32, String>::Ok(pid),
                        Option::None => r matches Result::Err(m) && m@ == no_process_msg(),
                    }
                } else {
                    r matches Result::Err(m) && m@ == no_session_msg(issue_number)
                }
            }),
    {
        match self.find_session_index(owner, repo, issue_number) {
            Option::Some(i) => {
                proof {
                    let idx = session_index(self.sessions@, owner@, repo@, issue_number);
                    assert(session_key_matches(self.sessions@[idx], owner@, repo@, issue_number));
                    assert(idx == i as int);
                }
                match self.sessions[i].child_id {
                    Option::Some(pid) => Result::Ok(pid),
                    Option::None => Result::Err("Session has no active process".to_owned()),
                }
            },
            Option::None => {
                let mut m = "No session found for issue #".to_owned();
                m.append(u64_to_string(issue_number).as_str());
                Result::Err(m)
            },
        }
    }
}

/// The display key of a session: `owner/repo#number`.
pub fn session_key(owner: &str, repo: &str, issue_number: u64) -> (r: String)
    ensures
        r@ == owner@.add("/"@).add(repo@).add("#"@).add(u64_dec(issue_number as nat)),
{
    let mut s = owner.to_owned();
    s.append("/");
    s.append(repo);
    s.append("#");
    s.append(u64_to_string(issue_number).as_str());
    s
}

/// The bot identity under which session outcomes are recorded.
pub fn amplifier_bot_user() -> (r: SimpleUser)
    ensures
        r.login@ == "attractor-bot"@,
        r.id == 0,
        r.avatar_url@.len() == 0,
        r.user_type@ == "Bot"@,
{
    SimpleUser {
        login: "attractor-bot".to_owned(),
        id: 0,
        avatar_url: String::new(),
        user_type: "Bot".to_owned(),
    }
}

/// The prompt handed to the tool for an issue: number and title, then the
/// body when there is a non-empty one.
pub open spec fn spec_prompt(issue: Issue) -> Seq<char> {
    let head = "Issue #"@.add(u64_dec(issue.number as nat)).add(": "@).add(issue.title@);
    match issue.body {
        Option::Some(b) => if b@.len() > 0 {
            head.add("\n\n"@).add(b@)
        } else {
            head
        },
        Option::None => head,
    }
}

/// Builds the prompt for an issue.
pub fn build_prompt(issue: &Issue) -> (r: String)
    ensures
        r@ == spec_prompt(*issue),
{
    let mut s = "Issue #".to_owned();
    s.append(u64_to_string(issue.number).as_str());
    s.append(": ");
    s.append(issue.title.as_str());
    if let Option::Some(b) = &issue.body {
        if b.as_str().unicode_len() > 0 {
            s.append("\n\n");
            s.append(b.as_str());
        }
    }
    s
}

/// The program the supervisor launches.
pub fn amplifier_program() -> (r: String)
    ensures
        r@ == "amplifier"@,
{
    "amplifier".to_owned()
}

/// The serializable snapshot of a session handed to status callers: the
/// lifecycle state as a word, the instants as already-rendered text, and
/// the error if the session failed.
pub struct AmplifierSessionInfo {
    pub issue_number: u64,
    pub status: String,
    pub started_at: String,
    pub finished_at: Option<String>,
    pub error: Option<String>,
}

/// The status word of a lifecycle state.
pub open spec fn spec_status_str(st: SessionStatus) -> Seq<char> {
    match st {
        SessionStatus::Running => "running"@,
        SessionStatus::Completed => "completed"@,
        SessionStatus::Failed => "failed"@,
    }
}

impl AmplifierSession {
    /// The session's error text, if it failed with one.
    pub open spec fn spec_error(self) -> Option<Seq<char>> {
        match self.result {
            Option::Some(res) => match res.error {
                Option::Some(e) => Option::Some(e@),
                Option::None => Option::None,
            },
            Option::None => Option::None,
        }
    }

    /// The status snapshot of this session. Rendering the two instants is
    /// the caller's business; everything else is read off the session.
    pub fn info(&self, started_at: String, finished_at: Option<String>) -> (r:
        AmplifierSessionInfo)
        ensures
            r.issue_number == self.issue_number,
            r.status@ == spec_status_str(self.status),
            r.started_at == started_at,
            r.finished_at == finished_at,
            match (r.error, self.spec_error()) {
                (Option::Some(a), Option::Some(b)) => a@ == b,
                (Option::None, Option::None) => true,
                _ => false,
            },
    {
        let status: String = match self.status {
            SessionStatus::Running => "running".to_owned(),
            SessionStatus::Completed => "completed".to_owned(),
            SessionStatus::Failed => "failed".to_owned(),
        };
        let error: Option<String> = match &self.result {
            Option::Some(res) => res.error.clone(),
            Option::None => Option::None,
        };
        AmplifierSessionInfo {
            issue_number: self.issue_number,
            status,
            started_at,
            finished_at,
            error,
        }
    }
}

/// How a finished process is judged and recorded.
pub struct SessionOutcome {
    pub comment_body: String,
    pub status: SessionStatus,
    pub result: AmplifierResult,
}

/// The prefix of every failure comment.
pub open spec fn fail_prefix() -> Seq<char> {
    "Amplifier session failed: "@
}

/// The error text used when the output held no payload: the last ten lines
/// of standard error when there are any, else a message naming the exit
/// code (-1 when the process was killed by a signal).
pub open spec fn spec_fallback_error(stderr: Seq<char>, exit_code: Option<i32>) -> Seq<char> {
    if stderr.len() > 0 {
        spec_join_nl(last_n(spec_lines(stderr), 10))
    } else {
        "Process exited with code "@.add(
            i64_dec(
                match exit_code {
                    Option::Some(c) => c as int,
                    Option::None => -1,
                },
            ),
        )
    }
}

/// Judges a finished process: a parsed success payload completes the
/// session with the response as the comment; a parsed failure payload, or
/// no payload at all, fails it with the error text as part of the comment.
pub fn classify_outcome(
    parsed: Option<AmplifierJsonOutput>,
    stderr: &str,
    exit_code: Option<i32>,
) -> (o: SessionOutcome)
    ensures
        match parsed {
            Option::Some(out) => if out.status@ == "success"@ {
                &&& o.status is Completed
                &&& o.comment_body@ == out.response@
                &&& o.result.response@ == out.response@
                &&& o.result.session_id@ == out.session_id@
                &&& o.result.model@ == out.model@
                &&& o.result.error is None
            } else {
                let err = match out.error {
                    Option::Some(e) => e@,
                    Option::None => "Unknown error"@,
                };
                &&& o.status is Failed
                &&& o.comment_body@ == fail_prefix().add(err)
                &&& o.result.response@.len() == 0
                &&& o.result.session_id@ == out.session_id@
                &&& o.result.model@ == out.model@
                &&& o.result.error matches Option::Some(e) && e@ == err
            },
            Option::None => {
                let err = spec_fallback_error(stderr@, exit_code);
                &&& o.status is Failed
                &&& o.comment_body@ == fail_prefix().add(err)
                &&& o.result.response@.len() == 0
                &&& o.result.session_id@.len() == 0
                &&& o.result.model@.len() == 0
                &&& o.result.error matches Option::Some(e) && e@ == err
            },
        },
{
    match parsed {
        Option::Some(out) => {
            if str_eq(out.status.as_str(), "success") {
                let body = out.response.clone();
                SessionOutcome {
                    comment_body: body,
                    status: SessionStatus::Completed,
                    result: AmplifierResult {
                        response: out.response,
                        session_id: out.session_id,
                        model: out.model,
                        error: Option::None,
                    },
                }
            } else {
                let err: String = match out.error {
                    Option::Some(e) => e,
                    Option::None => "Unknown error".to_owned(),
                };
                let mut body = "Amplifier session failed: ".to_owned();
                body.append(err.as_str());
                SessionOutcome {
                    comment_body: body,
                    status: SessionStatus::Failed,
                    result: AmplifierResult {
                        response: String::new(),
                        session_id: out.session_id,
                        model: out.model,
                        error: Option::Some(err),
                    },
                }
            }
        },
        Option::None => {
            let err: String = if stderr.unicode_len() > 0 {
                let all_lines = lines_of(stderr);
                let mut tail: Vec<String> = Vec::new();
                let start: usize = if all_lines.len() > 10 {
                    all_lines.len() - 10
                } else {
                    0
                };
                let mut k = start;
                while k < all_lines.len()
                    invariant
                        start <= k <= all_lines@.len(),
                        tail.deep_view() =~= all_lines.deep_view().subrange(
                            start as int,
                            k as int,
                        ),
                    decreases all_lines@.len() - k,
                {
                    let ghost prev = tail.deep_view();
                    tail.push(all_lines[k].clone());
                    proof {
                        assert(tail.deep_view() =~= prev.push(all_lines.deep_view()[k as int]));
                        assert(tail.deep_view() =~= all_lines.deep_view().subrange(
                            start as int,
                            k + 1,
                        ));
                    }
                    k += 1;
                }
                proof {
                    assert(tail.deep_view() =~= last_n(spec_lines(stderr@), 10));
                }
                join_nl(&tail)
            } else {
                let mut m = "Process exited with code ".to_owned();
                let code: i64 = match exit_code {
                    Option::Some(c) => c as i64,
                    Option::None => -1,
                };
                m.append(i64_to_string(code).as_str());
                m
            };
            let mut body = "Amplifier session failed: ".to_owned();
            body.append(err.as_str());
            SessionOutcome {
                comment_body: body,
                status: SessionStatus::Failed,
                result: AmplifierResult {
                    response: String::new(),
                    session_id: String::new(),
                    model: String::new(),
                    error: Option::Some(err),
                },
            }
        },
    }
}

/// The commit message recording a session outcome for an issue.
pub fn session_commit_message(issue_number: u64) -> (r: String)
    ensures
        r@ == "attractor: session result for issue #"@.add(u64_dec(issue_number as nat)),
{
    let mut s = "attractor: session result for issue #".to_owned();
    s.append(u64_to_string(issue_number).as_str());
    s
}

/// Persists a session outcome as a bot-authored comment on the issue,
/// bumping the issue's comment counter and `updated_at`, and returns the
/// new comment's id. Syncing beforehand and committing afterwards is the
/// caller's business.
pub fn write_session_comment(store: &mut Store, issue_number: u64, body: String, now: Timestamp)
    -> (r: u64)
    requires
        old(store).wf(),
        old(store).meta.next_comment_id < u64::MAX,
        has_issue(old(store).issues@, issue_number) ==> issue_at(
            old(store).issues@,
            issue_number,
        ).comments < u64::MAX,
    ensures
        final(store).wf(),
        r == old(store).meta.next_comment_id,
        final(store).meta.next_comment_id == old(store).meta.next_comment_id + 1,
        final(store).meta.next_issue_id == old(store).meta.next_issue_id,
        final(store).meta.next_milestone_id == old(store).meta.next_milestone_id,
        final(store).labels@ == old(store).labels@,
        final(store).milestones@ == old(store).milestones@,
        final(store).comments@.len() == old(store).comments@.len() + 1,
        final(store).comments@.drop_last() == old(store).comments@,
        ({
            let rec = final(store).comments@.last();
            &&& rec.issue_number == issue_number
            &&& rec.comment.id == r
            &&& rec.comment.body@ == body@
            &&& rec.comment.user.login@ == "attractor-bot"@
            &&& rec.comment.user.user_type@ == "Bot"@
            &&& rec.comment.created_at == now
            &&& rec.comment.updated_at == now
            &&& rec.comment.author_association@ == "BOT"@
        }),
        if has_issue(old(store).issues@, issue_number) {
            let idx = issue_index(old(store).issues@, issue_number);
            let prev = issue_at(old(store).issues@, issue_number);
            &&& final(store).issues@.len() == old(store).issues@.len()
            &&& (forall|i: int|
                0 <= i < final(store).issues@.len() && i != idx
                    ==> final(store).issues@[i] == old(store).issues@[i])
            &&& issue_eq_except_comments(final(store).issues@[idx], prev)
            &&& final(store).issues@[idx].comments == prev.comments + 1
            &&& final(store).issues@[idx].updated_at == now
        } else {
            final(store).issues@ == old(store).issues@
        },
{
    let user = amplifier_bot_user();
    let c = store.add_comment(issue_number, body, user, "BOT".to_owned(), now);
    c.id
}

/// The arguments the tool is launched with: run in place, emit JSON, and
/// the prompt.
pub fn amplifier_args(prompt: String) -> (r: Vec<String>)
    ensures
        r@.len() == 4,
        r@[0]@ == "run"@,
        r@[1]@ == "--output-format"@,
        r@[2]@ == "json"@,
        r@[3] == prompt,
{
    let mut v: Vec<String> = Vec::new();
    v.push("run".to_owned());
    v.push("--output-format".to_owned());
    v.push("json".to_owned());
    v.push(prompt);
    v
}

} // verus!
