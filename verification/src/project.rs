//! Project-side rules: authentication guards, the binding between a project
//! and its backing store, naming of backing repositories, the
//! recent-projects list, and parsing of listing parameters.

use vstd::prelude::*;
use vstd::string::*;
use crate::error::AppError;
use crate::models::{AttractorConfig, RecentProject, RepoInfo, SimpleUser, StoreManifest, user_eq};
use crate::strutil::{has_prefix, spec_split, spec_trim, split_on, str_eq, trim, u64_dec, u64_to_string};

verus! {

/// The error of an operation that needs a token first.
pub open spec fn not_authenticated_msg() -> Seq<char> {
    "Not authenticated - call set_token first"@
}

/// Hands out the token, or the error every authenticated operation gives
/// without one.
pub fn require_token(token: &Option<String>) -> (r: Result<String, String>)
    ensures
        match token {
            Option::Some(t) => r matches Result::Ok(x) && x@ == t@,
            Option::None => r matches Result::Err(m) && m@ == not_authenticated_msg(),
        },
{
    match token {
        Option::Some(t) => Result::Ok(t.clone()),
        Option::None => Result::Err("Not authenticated - call set_token first".to_owned()),
    }
}

/// Hands out the signed-in user, or the same error.
pub fn require_user(user: &Option<SimpleUser>) -> (r: Result<SimpleUser, String>)
    ensures
        match user {
            Option::Some(u) => r matches Result::Ok(x) && user_eq(x, *u),
            Option::None => r matches Result::Err(m) && m@ == not_authenticated_msg(),
        },
{
    match user {
        Option::Some(u) => Result::Ok(u.clone()),
        Option::None => Result::Err("Not authenticated - call set_token first".to_owned()),
    }
}

/// The commit author email derived from a login.
pub fn author_email(login: &str) -> (r: String)
    ensures
        r@ == login@.add("@users.noreply.github.com"@),
{
    login.to_owned().concat("@users.noreply.github.com")
}

/// The local working copy of a repository under the application's
/// repository directory, joined with `/`.
pub fn repo_path(repos_dir: &str, owner: &str, repo: &str) -> (r: String)
    ensures
        r@ == repos_dir@.add("/"@).add(owner@).add("/"@).add(repo@),
{
    let mut s = repos_dir.to_owned();
    s.append("/");
    s.append(owner);
    s.append("/");
    s.append(repo);
    s
}

/// Checks the binding between a project and a backing store: when both
/// sides carry a store identity they must agree; a missing side skips the
/// check, the first-time-setup carve-out.
pub fn validate_store_id(
    config: &Option<AttractorConfig>,
    manifest: &Option<StoreManifest>,
) -> (r: Result<(), AppError>)
    ensures
        match (config, manifest) {
            (Option::Some(c), Option::Some(m)) => if c.store_id@ == m.store_id@ {
                r is Ok
            } else {
                r matches Result::Err(e) && e matches AppError::StoreIdMismatch {
                    expected,
                    actual,
                } && expected@ == c.store_id@ && actual@ == m.store_id@
            },
            _ => r is Ok,
        },
{
    match (config, manifest) {
        (Option::Some(c), Option::Some(m)) => {
            if str_eq(c.store_id.as_str(), m.store_id.as_str()) {
                Result::Ok(())
            } else {
                Result::Err(
                    AppError::StoreIdMismatch {
                        expected: c.store_id.clone(),
                        actual: m.store_id.clone(),
                    },
                )
            }
        },
        _ => Result::Ok(()),
    }
}

/// The prefix of every backing-store repository name.
pub fn store_prefix() -> (r: &'static str)
    ensures
        r@ == "attractor-store-"@,
{
    "attractor-store-"
}

/// The backing repository's base name for a project: the project's name
/// under the store prefix, names already carrying it kept as they are.
pub fn backing_repo_base_name(name: &str) -> (r: String)
    ensures
        r@ == if "attractor-store-"@.is_prefix_of(name@) {
            name@
        } else {
            "attractor-store-"@.add(name@)
        },
{
    if has_prefix(name, "attractor-store-") {
        name.to_owned()
    } else {
        "attractor-store-".to_owned().concat(name)
    }
}

/// The candidate name tried at `attempt`: the base itself first, then the
/// base with a numeric suffix.
pub open spec fn spec_candidate(base: Seq<char>, attempt: u32) -> Seq<char> {
    if attempt == 0 {
        base
    } else {
        base.add("-"@).add(u64_dec(attempt as nat))
    }
}

/// Builds the candidate name tried at `attempt`.
pub fn backing_name_candidate(base: &str, attempt: u32) -> (r: String)
    ensures
        r@ == spec_candidate(base@, attempt),
{
    if attempt == 0 {
        base.to_owned()
    } else {
        let mut s = base.to_owned();
        s.append("-");
        s.append(u64_to_string(attempt as u64).as_str());
        s
    }
}

/// The error when no candidate name was free.
pub open spec fn resolve_failed_msg(base: Seq<char>) -> Seq<char> {
    "Could not find an available repo name based on '"@.add(base).add("'"@)
}

/// What a name-resolution loop does next.
pub enum NameResolution {
    /// The candidate at this attempt is free: use it.
    UseName(String),
    /// Taken; try the next numeric suffix.
    TryNext,
    /// Taken, and this was the last attempt: give up.
    GiveUp(AppError),
}

/// Decides one step of resolving a free backing-repository name, given
/// whether the candidate at `attempt` already exists remotely. The base
/// name is attempt 0; suffixes 1 through 99 follow; after that resolution
/// fails.
pub fn resolve_backing_step(base: &str, attempt: u32, exists: bool) -> (r: NameResolution)
    requires
        attempt <= 99,
    ensures
        !exists ==> (r matches NameResolution::UseName(n) && n@ == spec_candidate(base@, attempt)),
        exists && attempt < 99 ==> r is TryNext,
        exists && attempt == 99 ==> (r matches NameResolution::GiveUp(e) && (e
            matches AppError::General(m) && m@ == resolve_failed_msg(base@))),
{
    if !exists {
        NameResolution::UseName(backing_name_candidate(base, attempt))
    } else if attempt < 99 {
        NameResolution::TryNext
    } else {
        let mut m = "Could not find an available repo name based on '".to_owned();
        m.append(base);
        m.append("'");
        NameResolution::GiveUp(AppError::General(m))
    }
}

/// Keeps, in order, the repositories whose name starts with `prefix`.
pub fn filter_repos_by_prefix(repos: Vec<RepoInfo>, prefix: &str) -> (r: Vec<RepoInfo>)
    ensures
        r@ == repos@.filter(|x: RepoInfo| prefix@.is_prefix_of(x.name@)),
{
    let ghost pred = |x: RepoInfo| prefix@.is_prefix_of(x.name@);
    let ghost orig = repos@;
    let mut src = repos;
    let mut out: Vec<RepoInfo> = Vec::new();
    let mut i: usize = 0;
    proof {
        broadcast use vstd::std_specs::vec::axiom_spec_len;

        reveal(Seq::filter);
        assert(src@ =~= orig.skip(0));
        assert(orig.take(0) =~= Seq::<RepoInfo>::empty());
        assert(src.len() == src@.len());
    }
    while src.len() > 0
        invariant
            pred == (|x: RepoInfo| prefix@.is_prefix_of(x.name@)),
            src@ == orig.skip(i as int),
            0 <= i <= orig.len(),
            orig.len() <= usize::MAX,
            i + src@.len() == orig.len(),
            out@ == orig.take(i as int).filter(pred),
        decreases src@.len(),
    {
        let x = src.remove(0);
        proof {
            assert(x == orig[i as int]);
            assert(src@ =~= orig.skip(i + 1));
            reveal(Seq::filter);
            assert(orig.take(i + 1).drop_last() =~= orig.take(i as int));
            assert(orig.take(i + 1).last() == orig[i as int]);
        }
        if has_prefix(x.name.as_str(), prefix) {
            out.push(x);
        }
        i += 1;
    }
    proof {
        assert(orig.take(i as int) =~= orig);
    }
    out
}

/// Records a project as most recently used: any entry with the same local
/// path goes away, the project moves to the front, and the list keeps at
/// most its newest twenty entries.
pub fn upsert_recent_project(projects: &mut Vec<RecentProject>, project: RecentProject)
    ensures
        final(projects)@ == ({
            let kept = old(projects)@.filter(
                |p: RecentProject| p.local_path@ != project.local_path@,
            );
            let all = seq![project].add(kept);
            if all.len() > 20 {
                all.take(20)
            } else {
                all
            }
        }),
{
    let ghost proj_snap = project;
    let ghost pred = |p: RecentProject| p.local_path@ != proj_snap.local_path@;
    let ghost orig = projects@;
    let mut out: Vec<RecentProject> = Vec::new();
    proof {
        broadcast use vstd::std_specs::vec::axiom_spec_len;

        reveal(Seq::filter);
        assert(projects@.take(0) =~= Seq::<RecentProject>::empty());
        assert(projects.len() == projects@.len());
    }
    out.push(project);
    let mut i: usize = 0;
    proof {
        assert(projects@ =~= orig.skip(0));
        assert(out@.skip(1) =~= Seq::<RecentProject>::empty());
    }
    while projects.len() > 0
        invariant
            pred == (|p: RecentProject| p.local_path@ != proj_snap.local_path@),
            out@.len() >= 1,
            out@[0] == proj_snap,
            projects@ == orig.skip(i as int),
            0 <= i <= orig.len(),
            orig.len() <= usize::MAX,
            i + projects@.len() == orig.len(),
            out@.skip(1) == orig.take(i as int).filter(pred),
        decreases projects@.len(),
    {
        let ghost prev_out = out@;
        let x = projects.remove(0);
        proof {
            assert(x == orig[i as int]);
            assert(projects@ =~= orig.skip(i + 1));
            reveal(Seq::filter);
            assert(orig.take(i + 1).drop_last() =~= orig.take(i as int));
            assert(orig.take(i + 1).last() == orig[i as int]);
        }
        if !str_eq(x.local_path.as_str(), out[0].local_path.as_str()) {
            out.push(x);
            proof {
                assert(out@.skip(1) =~= prev_out.skip(1).push(x));
            }
        }
        i += 1;
    }
    proof {
        assert(orig.take(orig.len() as int) =~= orig);
        assert(out@ =~= seq![proj_snap].add(orig.filter(pred)));
    }
    if out.len() > 20 {
        out.truncate(20);
    }
    *projects = out;
    proof {
        let all = seq![proj_snap].add(orig.filter(pred));
        if all.len() > 20 {
            assert(projects@ =~= all.take(20));
        } else {
            assert(projects@ =~= all);
        }
    }
}

/// Forgets the project at `local_path` in the recent-projects list.
pub fn remove_recent_project_entry(projects: &mut Vec<RecentProject>, local_path: &str)
    ensures
        final(projects)@ == old(projects)@.filter(
            |p: RecentProject| p.local_path@ != local_path@,
        ),
{
    let ghost pred = |p: RecentProject| p.local_path@ != local_path@;
    let ghost orig = projects@;
    let mut out: Vec<RecentProject> = Vec::new();
    let mut i: usize = 0;
    proof {
        broadcast use vstd::std_specs::vec::axiom_spec_len;

        reveal(Seq::filter);
        assert(projects@ =~= orig.skip(0));
        assert(orig.take(0) =~= Seq::<RecentProject>::empty());
        assert(projects.len() == projects@.len());
    }
    while projects.len() > 0
        invariant
            pred == (|p: RecentProject| p.local_path@ != local_path@),
            projects@ == orig.skip(i as int),
            0 <= i <= orig.len(),
            orig.len() <= usize::MAX,
            i + projects@.len() == orig.len(),
            out@ == orig.take(i as int).filter(pred),
        decreases projects@.len(),
    {
        let x = projects.remove(0);
        proof {
            assert(x == orig[i as int]);
            assert(projects@ =~= orig.skip(i + 1));
            reveal(Seq::filter);
            assert(orig.take(i + 1).drop_last() =~= orig.take(i as int));
            assert(orig.take(i + 1).last() == orig[i as int]);
        }
        if !str_eq(x.local_path.as_str(), local_path) {
            out.push(x);
        }
        i += 1;
    }
    proof {
        assert(orig.take(i as int) =~= orig);
    }
    *projects = out;
}

/// Splits a comma-separated label list, trimming whitespace around each
/// name.
pub fn parse_label_list(s: &str) -> (r: Vec<String>)
    ensures
        r.deep_view() == spec_split(s@, ',').map_values(|p: Seq<char>| spec_trim(p)),
{
    let pieces = split_on(s, ',');
    let mut out: Vec<String> = Vec::new();
    let ghost pv = pieces.deep_view();
    let mut i: usize = 0;
    while i < pieces.len()
        invariant
            pv == pieces.deep_view(),
            0 <= i <= pieces@.len(),
            pieces@.len() == pv.len(),
            out.deep_view() =~= pv.take(i as int).map_values(|p: Seq<char>| spec_trim(p)),
        decreases pieces@.len() - i,
    {
        let ghost prev = out.deep_view();
        let t = trim(pieces[i].as_str());
        out.push(t);
        proof {
            assert(out.deep_view() =~= prev.push(spec_trim(pv[i as int])));
            assert(out.deep_view() =~= pv.take(i + 1).map_values(|p: Seq<char>| spec_trim(p)));
        }
        i += 1;
    }
    proof {
        assert(pv.take(pieces@.len() as int) =~= pv);
    }
    out
}

} // verus!
