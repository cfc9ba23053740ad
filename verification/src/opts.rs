//! Options accepted by the history walker and the display layer.

use vstd::prelude::*;

verus! {

/// Query options for a log walk.
///
/// `authors` and `needles` are the filter substrings: a commit passes when at
/// least one author needle occurs in its author's email or display name, and
/// every message needle occurs in its title.
#[derive(Clone)]
pub struct GitLogOptions {
    /// Show relative commit dates rather than absolute ones.
    pub relative: bool,
    /// Colourize output (the rendering layer honours this; the engine only
    /// carries it).
    pub colour: bool,
    /// Yield the least recent commits first.
    pub reverse: bool,
    /// Ignore any requested entry limit and yield the whole history.
    pub all: bool,
    /// Author filter needles; a commit passes when any one matches.
    pub authors: Vec<String>,
    /// Message filter needles; a commit passes only when all match.
    pub needles: Vec<String>,
}

impl Default for GitLogOptions {
    /// Relative dates, colour on, newest first, bounded, unfiltered.
    fn default() -> (r: Self)
        ensures
            r.relative,
            r.colour,
            !r.reverse,
            !r.all,
            r.authors@ == Seq::<String>::empty(),
            r.needles@ == Seq::<String>::empty(),
    {
        Self {
            relative: true,
            colour: true,
            reverse: false,
            all: false,
            authors: Vec::new(),
            needles: Vec::new(),
        }
    }
}

} // verus!
