//! Typographic quoting of metadata strings.

use vstd::prelude::*;
use vstd::string::StringExecFns;

verus! {

/// Strings that can be wrapped in typographic double quotes.
pub trait Quote {
    /// The quoted form, as a sequence of characters.
    spec fn spec_quote(&self) -> Seq<char>;

    /// The string wrapped in typographic double quotes.
    fn quote(&self) -> (r: String)
        ensures
            r@ == self.spec_quote(),
    ;
}

impl Quote for String {
    open spec fn spec_quote(&self) -> Seq<char> {
        "\u{201C}"@ + self@ + "\u{201D}"@
    }

    fn quote(&self) -> (r: String) {
        let mut s = "\u{201C}".to_owned();
        s.append(self.as_str());
        s.append("\u{201D}");
        proof {
            assert(s@ =~= self.spec_quote());
        }
        s
    }
}

} // verus!
