//! Git-backed issue store core: an in-memory document store for issues,
//! comments, labels and milestones, list/filter/sort/paginate queries,
//! sync and commit planning for the backing git repository, a session
//! registry for runs of the external analysis tool, and an extractor that
//! recovers a JSON payload from noisy tool output.

pub mod amplifier;
pub mod error;
pub mod extract;
pub mod laws;
pub mod listing;
pub mod models;
pub mod paths;
pub mod project;
pub mod store;
pub mod strutil;
pub mod sync;
