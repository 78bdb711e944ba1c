//! Planning the git operations of the store: what a fetch's merge analysis
//! means for the local branch, and whether a freshly staged tree is worth a
//! commit. The caller performs the fetches, checkouts, commits and pushes
//! these plans call for and reports their findings back as plain values.

use vstd::prelude::*;
use vstd::string::*;

verus! {

/// What the merge analysis of the remote-tracking commit reported.
#[derive(Clone, Copy, PartialEq, Eq, Structural, Debug)]
pub enum MergeAnalysisKind {
    UpToDate,
    FastForward,
    Diverged,
}

/// What a sync should do.
pub enum SyncPlan {
    /// Nothing: already up to date, an empty repository, or no
    /// remote-tracking branch yet.
    NoOp,
    /// Advance the named local branch ref to the remote commit and
    /// force-checkout.
    FastForward { refname: String },
    /// True divergence: fail without touching anything.
    Fail { message: String },
}

/// The error reported on a divergent history.
pub open spec fn merge_required_msg() -> Seq<char> {
    "Merge required - please resolve conflicts manually"@
}

/// The branch a repository head names, or `main` for an unnamed one.
pub fn branch_or_main(shorthand: Option<String>) -> (r: String)
    ensures
        match shorthand {
            Option::Some(b) => r@ == b@,
            Option::None => r@ == "main"@,
        },
{
    match shorthand {
        Option::Some(b) => b,
        Option::None => "main".to_owned(),
    }
}

/// The remote-tracking ref of a branch.
pub fn remote_ref_name(branch: &str) -> (r: String)
    ensures
        r@ == "refs/remotes/origin/"@.add(branch@),
{
    "refs/remotes/origin/".to_owned().concat(branch)
}

/// The local ref of a branch.
pub fn local_ref_name(branch: &str) -> (r: String)
    ensures
        r@ == "refs/heads/"@.add(branch@),
{
    "refs/heads/".to_owned().concat(branch)
}

/// The refspec that pushes a branch to its same-named remote branch.
pub fn push_refspec(branch: &str) -> (r: String)
    ensures
        r@ == "refs/heads/"@.add(branch@).add(":refs/heads/"@).add(branch@),
{
    let mut s = "refs/heads/".to_owned();
    s.append(branch);
    s.append(":refs/heads/");
    s.append(branch);
    s
}

/// The reflog message of a fast-forward.
pub fn ff_reflog_message() -> (r: String)
    ensures
        r@ == "Fast-forward pull"@,
{
    "Fast-forward pull".to_owned()
}

/// The username paired with a bearer token for git's basic auth.
pub fn git_credential_username() -> (r: String)
    ensures
        r@ == "x-access-token"@,
{
    "x-access-token".to_owned()
}

/// Decides a sync from what the repository shows after the fetch: an empty
/// repository (no head) or a branch with no remote-tracking ref syncs as a
/// no-op; an up-to-date analysis is a no-op; a fast-forward advances the
/// branch's local ref; anything else is a hard failure and no local
/// mutation.
pub fn sync_plan(
    head_branch: Option<String>,
    remote_ref_exists: bool,
    analysis: MergeAnalysisKind,
) -> (r: SyncPlan)
    ensures
        head_branch is None ==> r is NoOp,
        !remote_ref_exists ==> r is NoOp,
        head_branch matches Option::Some(b) ==> (remote_ref_exists ==> match analysis {
            MergeAnalysisKind::UpToDate => r is NoOp,
            MergeAnalysisKind::FastForward => r matches SyncPlan::FastForward { refname }
                && refname@ == "refs/heads/"@.add(b@),
            MergeAnalysisKind::Diverged => r matches SyncPlan::Fail { message } && message@
                == merge_required_msg(),
        }),
{
    match head_branch {
        Option::None => SyncPlan::NoOp,
        Option::Some(branch) => {
            if !remote_ref_exists {
                SyncPlan::NoOp
            } else {
                match analysis {
                    MergeAnalysisKind::UpToDate => SyncPlan::NoOp,
                    MergeAnalysisKind::FastForward => SyncPlan::FastForward {
                        refname: local_ref_name(branch.as_str()),
                    },
                    MergeAnalysisKind::Diverged => SyncPlan::Fail {
                        message: "Merge required - please resolve conflicts manually".to_owned(),
                    },
                }
            }
        },
    }
}

/// Byte-wise equality of two object ids.
pub fn oid_eq(a: &Vec<u8>, b: &Vec<u8>) -> (r: bool)
    ensures
        r == (a@ == b@),
{
    if a.len() != b.len() {
        proof {
            assert(a@.len() != b@.len());
        }
        return false;
    }
    let mut i: usize = 0;
    while i < a.len()
        invariant
            a@.len() == b@.len(),
            0 <= i <= a@.len(),
            forall|j: int| 0 <= j < i ==> a@[j] == b@[j],
        decreases a@.len() - i,
    {
        if a[i] != b[i] {
            return false;
        }
        i += 1;
    }
    proof {
        assert(a@ =~= b@);
    }
    true
}

/// What a commit attempt should do.
pub enum CommitPlan {
    /// The staged tree equals the parent's tree: no commit at all.
    Skip,
    /// Commit, with the current head as parent or as the first commit.
    Commit { with_parent: bool },
}

/// Decides a commit from the staged tree and the parent commit's tree, both
/// as object ids: an unchanged tree is skipped entirely, a changed one is
/// committed on its parent, and a repository with no commits yet gets its
/// first.
pub fn commit_plan(parent_tree: Option<&Vec<u8>>, new_tree: &Vec<u8>) -> (r: CommitPlan)
    ensures
        match parent_tree {
            Option::Some(p) => if p@ == new_tree@ {
                r is Skip
            } else {
                r matches CommitPlan::Commit { with_parent } && with_parent
            },
            Option::None => r matches CommitPlan::Commit { with_parent } && !with_parent,
        },
{
    match parent_tree {
        Option::Some(p) => {
            if oid_eq(p, new_tree) {
                CommitPlan::Skip
            } else {
                CommitPlan::Commit { with_parent: true }
            }
        },
        Option::None => CommitPlan::Commit { with_parent: false },
    }
}

/// The paths staged for a store commit: the data directory and the store
/// manifest at the root.
pub fn staged_paths() -> (r: Vec<String>)
    ensures
        r@.len() == 2,
        r@[0]@ == ".attractor"@,
        r@[1]@ == "attractor-store.json"@,
{
    let mut v: Vec<String> = Vec::new();
    v.push(".attractor".to_owned());
    v.push("attractor-store.json".to_owned());
    v
}

/// The paths whose deleted files are removed from the index.
pub fn update_paths() -> (r: Vec<String>)
    ensures
        r@.len() == 1,
        r@[0]@ == ".attractor"@,
{
    let mut v: Vec<String> = Vec::new();
    v.push(".attractor".to_owned());
    v
}

} // verus!
