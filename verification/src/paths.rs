//! Deterministic file locations of the document store, derived from entity
//! kind and identity, relative to the root of a backing store working copy.

use vstd::prelude::*;
use vstd::string::*;
use crate::strutil::{u64_dec, u64_to_string};

verus! {

/// The store's data directory inside a working copy, as an absolute path
/// under `repo_path`, joined with `/`.
pub fn attractor_dir(repo_path: &str) -> (r: String)
    ensures
        r@ == repo_path@.add("/.attractor"@),
{
    repo_path.to_owned().concat("/.attractor")
}

/// The file of issue `number`, relative to the working-copy root.
pub fn issue_rel_path(number: u64) -> (r: String)
    ensures
        r@ == ".attractor/issues/"@.add(u64_dec(number as nat)).add(".json"@),
{
    let mut s = ".attractor/issues/".to_owned();
    s.append(u64_to_string(number).as_str());
    s.append(".json");
    s
}

/// The comment directory of issue `number`, relative to the root.
pub fn comments_dir_rel_path(issue_number: u64) -> (r: String)
    ensures
        r@ == ".attractor/comments/"@.add(u64_dec(issue_number as nat)),
{
    let mut s = ".attractor/comments/".to_owned();
    s.append(u64_to_string(issue_number).as_str());
    s
}

/// The file of comment `comment_id` under issue `issue_number`, relative to
/// the root.
pub fn comment_rel_path(issue_number: u64, comment_id: u64) -> (r: String)
    ensures
        r@ == ".attractor/comments/"@.add(u64_dec(issue_number as nat)).add("/"@).add(
            u64_dec(comment_id as nat),
        ).add(".json"@),
{
    let mut s = comments_dir_rel_path(issue_number);
    s.append("/");
    s.append(u64_to_string(comment_id).as_str());
    s.append(".json");
    s
}

/// The label collection file, relative to the root.
pub fn labels_rel_path() -> (r: String)
    ensures
        r@ == ".attractor/labels.json"@,
{
    ".attractor/labels.json".to_owned()
}

/// The milestone collection file, relative to the root.
pub fn milestones_rel_path() -> (r: String)
    ensures
        r@ == ".attractor/milestones.json"@,
{
    ".attractor/milestones.json".to_owned()
}

/// The counter singleton file, relative to the root.
pub fn meta_rel_path() -> (r: String)
    ensures
        r@ == ".attractor/meta.json"@,
{
    ".attractor/meta.json".to_owned()
}

/// The store manifest at the working-copy root.
pub fn store_manifest_rel_path() -> (r: String)
    ensures
        r@ == "attractor-store.json"@,
{
    "attractor-store.json".to_owned()
}

/// The binding record inside a project working copy.
pub fn attractor_config_rel_path() -> (r: String)
    ensures
        r@ == ".amplifier/attractor.json"@,
{
    ".amplifier/attractor.json".to_owned()
}

/// The analysis tool's settings file inside a project working copy.
pub fn settings_rel_path() -> (r: String)
    ensures
        r@ == ".amplifier/settings.local.yaml"@,
{
    ".amplifier/settings.local.yaml".to_owned()
}

} // verus!
