//! Fixed presentation constants of the tool.

use vstd::prelude::*;

verus! {

/// Number of leading characters kept when a commit hash is shortened.
pub const SHORT_HASH_LENGTH: usize = 7;

/// How many log entries are shown when no count is requested.
pub const DEFAULT_TOP_N_LOG: usize = 10;

} // verus!
