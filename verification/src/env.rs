//! Colour configuration from the environment.
//!
//! The caller reads the `NO_COLOR` / `NO_COLOUR` environment variables and
//! hands their values in; the decision itself is verified here.

use vstd::prelude::*;

verus! {

/// An environment value counts as set when it exists and is non-empty.
pub open spec fn spec_is_set(v: Option<Seq<char>>) -> bool {
    v is Some && v->0.len() > 0
}

fn is_set(val: &Option<String>) -> (r: bool)
    ensures
        r == spec_is_set(val.deep_view()),
{
    match val {
        Some(v) => !v.as_str().is_empty(),
        None => false,
    }
}

/// Whether either spelling of the no-colour variable disables colour.
fn no_colour(no_color: &Option<String>, no_colour_var: &Option<String>) -> (r: bool)
    ensures
        r == (spec_is_set(no_color.deep_view()) || spec_is_set(no_colour_var.deep_view())),
{
    is_set(no_color) || is_set(no_colour_var)
}

/// Whether output should be colourized, given the values of the `NO_COLOR`
/// and `NO_COLOUR` environment variables: colour is on unless one of them is
/// set and non-empty.
pub fn colour(no_color: &Option<String>, no_colour_var: &Option<String>) -> (r: bool)
    ensures
        r == !(spec_is_set(no_color.deep_view()) || spec_is_set(no_colour_var.deep_view())),
{
    !no_colour(no_color, no_colour_var)
}

} // verus!
