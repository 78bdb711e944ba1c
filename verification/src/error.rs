//! The library's error taxonomy and its rendered messages.

use vstd::prelude::*;
use vstd::string::*;

verus! {

/// Everything that can go wrong across the store, the git layer, the
/// remote service and the session supervisor. Failures arising in outside
/// code are carried as their rendered text.
#[derive(Debug)]
pub enum AppError {
    /// A filesystem failure, rendered.
    Io(String),
    /// A git failure (clone, fetch, merge, commit, push), rendered.
    Git(String),
    /// A network or API transport failure, rendered.
    Http(String),
    /// A malformed stored document, rendered.
    Json(String),
    /// A missing issue, comment, label or milestone.
    NotFound(String),
    /// The credential was rejected upstream.
    Auth(String),
    /// A storage-protocol failure, such as a divergent history.
    Storage(String),
    /// Anything else.
    General(String),
    /// The remote service refused to create a repository; the caller can
    /// offer a manual-setup path.
    RepoCreationForbidden(String),
    /// The project's expected store identity disagrees with the backing
    /// store's manifest.
    StoreIdMismatch { expected: String, actual: String },
}

/// The rendered message of an error.
pub open spec fn spec_message(e: AppError) -> Seq<char> {
    match e {
        AppError::Io(m) => "IO error: "@.add(m@),
        AppError::Git(m) => "Git error: "@.add(m@),
        AppError::Http(m) => "HTTP error: "@.add(m@),
        AppError::Json(m) => "JSON error: "@.add(m@),
        AppError::NotFound(m) => "Not found: "@.add(m@),
        AppError::Auth(m) => "Authentication error: "@.add(m@),
        AppError::Storage(m) => "Storage error: "@.add(m@),
        AppError::General(m) => m@,
        AppError::RepoCreationForbidden(m) => "REPO_CREATE_FORBIDDEN:"@.add(m@),
        AppError::StoreIdMismatch { expected, actual } => "Store ID mismatch: project expects '"@
            .add(expected@).add("' but store has '"@).add(actual@).add(
            "'. This backing store belongs to a different project."@,
        ),
    }
}

impl AppError {
    /// Renders the error as its user-facing message.
    pub fn message(&self) -> (r: String)
        ensures
            r@ == spec_message(*self),
    {
        match self {
            AppError::Io(m) => "IO error: ".to_owned().concat(m.as_str()),
            AppError::Git(m) => "Git error: ".to_owned().concat(m.as_str()),
            AppError::Http(m) => "HTTP error: ".to_owned().concat(m.as_str()),
            AppError::Json(m) => "JSON error: ".to_owned().concat(m.as_str()),
            AppError::NotFound(m) => "Not found: ".to_owned().concat(m.as_str()),
            AppError::Auth(m) => "Authentication error: ".to_owned().concat(m.as_str()),
            AppError::Storage(m) => "Storage error: ".to_owned().concat(m.as_str()),
            AppError::General(m) => m.clone(),
            AppError::RepoCreationForbidden(m) => "REPO_CREATE_FORBIDDEN:".to_owned().concat(
                m.as_str(),
            ),
            AppError::StoreIdMismatch { expected, actual } => {
                let mut s = "Store ID mismatch: project expects '".to_owned();
                s.append(expected.as_str());
                s.append("' but store has '");
                s.append(actual.as_str());
                s.append("'. This backing store belongs to a different project.");
                s
            },
        }
    }
}

} // verus!
