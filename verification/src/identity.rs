//! Commit authorship identities.

use vstd::prelude::*;

verus! {

/// An author: an email address plus the display names observed for it.  Two
/// identities are the same person exactly when the emails match, byte for
/// byte; the names are display data.
#[derive(Clone)]
pub struct GitIdentity {
    pub email: String,
    pub names: Vec<String>,
}

/// `v` holds a string whose characters are `s`.
pub open spec fn seq_has_string(v: Seq<Seq<char>>, s: Seq<char>) -> bool {
    exists|i: int| 0 <= i < v.len() && v[i] == s
}

/// Whether `v` holds a string equal to `s`.
fn contains_string(v: &Vec<String>, s: &String) -> (r: bool)
    ensures
        r == seq_has_string(v.deep_view(), s@),
{
    let n = v.len();
    let mut i: usize = 0;
    while i < n
        invariant
            n == v@.len(),
            0 <= i <= n,
            forall|l: int| 0 <= l < i ==> v.deep_view()[l] != s@,
        decreases n - i,
    {
        if v[i] == *s {
            assert(v.deep_view()[i as int] == s@);
            return true;
        }
        i += 1;
    }
    false
}

impl GitIdentity {
    /// The identity belongs to the configured user: the configuration lists
    /// its email, or one of its display names, as an exact entry.
    pub open spec fn spec_is_me(self, me_identity: Seq<Seq<char>>) -> bool {
        ||| seq_has_string(me_identity, self.email@)
        ||| exists|i: int|
            0 <= i < self.names@.len() && seq_has_string(me_identity, self.names@[i]@)
    }

    /// Whether this identity is the user named by `me_identity`, an explicit
    /// configuration value (a fixed list of "this is me" emails and names).
    pub fn is_me(&self, me_identity: &Vec<String>) -> (r: bool)
        ensures
            r == self.spec_is_me(me_identity.deep_view()),
    {
        if contains_string(me_identity, &self.email) {
            return true;
        }
        let n = self.names.len();
        let mut i: usize = 0;
        while i < n
            invariant
                n == self.names@.len(),
                0 <= i <= n,
                forall|l: int|
                    0 <= l < i ==> !seq_has_string(me_identity.deep_view(), self.names@[l]@),
            decreases n - i,
    {
            if contains_string(me_identity, &self.names[i]) {
                return true;
            }
            i += 1;
        }
        false
    }
}

} // verus!
