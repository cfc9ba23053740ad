//! Shortened display form of commit hashes.

use vstd::prelude::*;
use vstd::string::StrSliceExecFns;

use crate::config::SHORT_HASH_LENGTH;

verus! {

/// Hash-like strings that have a shortened display form.
pub trait HashFormat {
    /// The shortened form, as a sequence of characters.
    spec fn spec_short(&self) -> Seq<char>;

    /// The shortened form: the whole string when it is already short enough.
    fn short(&self) -> (r: String)
        ensures
            r@ == self.spec_short(),
    ;
}

impl HashFormat for String {
    open spec fn spec_short(&self) -> Seq<char> {
        if self@.len() <= SHORT_HASH_LENGTH {
            self@
        } else {
            self@.subrange(0, SHORT_HASH_LENGTH as int)
        }
    }

    fn short(&self) -> (r: String) {
        let len = self.as_str().unicode_len();
        if len <= SHORT_HASH_LENGTH {
            self.clone()
        } else {
            self.as_str().substring_char(0, SHORT_HASH_LENGTH).to_owned()
        }
    }
}

} // verus!
