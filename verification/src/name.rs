//! Names are compared by their lowercase form.

use vstd::prelude::*;

verus! {

/// The lowercase form of a string, as `str::to_lowercase` computes it from the
/// Unicode character tables. Two names denote the same client exactly when
/// their lowercase forms are equal.
pub uninterp spec fn lowercase(name: Seq<char>) -> Seq<char>;

/// Calls `str::to_lowercase`. The contract only gives the result its name:
/// the returned string is the lowercase form of `name`.
#[verifier::external_body]
pub(crate) fn to_lowercase(name: &str) -> (key: String)
    ensures
        key@ == lowercase(name@),
{
    name.to_lowercase()
}

} // verus!
