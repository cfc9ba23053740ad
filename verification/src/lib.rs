//! Verified core of a personal git query tool.
//!
//! The library is the repository query engine: it walks a commit graph
//! applying merge/author/message filters, indexes symbolic references by the
//! commit they point at, converts raw repository timestamps into absolute and
//! human-relative dates, classifies and deterministically orders working-tree
//! changes, and counts commits inside a time window.
//!
//! The repository-access layer itself (discovering a repository, reading
//! objects, computing worktree diffs) is a collaborator outside this crate:
//! callers hand the engine plain records (commit identifier, parents, author,
//! committer time, message title; reference name and resolved target; per-path
//! status tags) and receive ordered, immutable value types back.

use vstd::prelude::*;

pub mod commit;
pub mod config;
pub mod contrib;
pub mod count;
pub mod date;
pub mod dates;
pub mod env;
pub mod hash;
pub mod identity;
pub mod opts;
pub mod quote;
pub mod refindex;
pub mod relative;
pub mod status;
pub mod text;

verus! {

/// The fatal error taxonomy of the query engine.
///
/// Recoverable conditions (an individual corrupt commit or an unresolvable
/// reference) are absorbed where they occur and never surface here; these
/// variants abort the whole query.
#[derive(Clone, Copy, Debug, PartialEq, Eq, Structural)]
pub enum GlError {
    /// An invalid UTC offset or an out-of-range epoch value was found while
    /// converting a repository timestamp; this indicates repository
    /// corruption, not a formatting edge case.
    MalformedTimestamp,
    /// A working-tree change arrived in a shape that has no defined display
    /// form (a rewrite notification, or a needs-update entry at display
    /// time); swallowing it would print garbage, so it is surfaced loudly.
    UnhandledStatusShape,
}

impl GlError {
    /// One clear diagnostic per fatal kind, identifying the failing
    /// operation rather than a stack of internal causes.
    pub fn message(&self) -> (r: &'static str)
        ensures
            *self is MalformedTimestamp ==> r@ == "malformed commit timestamp"@,
            *self is UnhandledStatusShape ==> r@ == "unhandled status entry shape"@,
    {
        match self {
            GlError::MalformedTimestamp => "malformed commit timestamp",
            GlError::UnhandledStatusShape => "unhandled status entry shape",
        }
    }
}

} // verus!
