//! The calls into outside crates that the pipeline's logic makes, each
//! behind a small trusted wrapper with its contract.

use heck::ToSnakeCase;
use itertools::Itertools;
use vstd::prelude::*;

verus! {

/// The canonical lowercase, underscore-separated form of an identifier, as
/// the case normalizer computes it; a function of the characters alone.
pub uninterp spec fn snake_of(s: Seq<char>) -> Seq<char>;

/// Relies on heck::ToSnakeCase::to_snake_case: the canonical lowercase,
/// underscore-separated form of the input, a function of its characters
/// alone.
#[verifier::external_body]
pub(crate) fn snake_case(s: &str) -> (r: String)
    ensures
        r@ == snake_of(s@),
{
    s.to_snake_case()
}

/// Exactly what joining yields: the parts in order, with the separator
/// between consecutive parts and nothing else.
pub open spec fn spec_join(parts: Seq<Seq<char>>, sep: Seq<char>) -> Seq<char>
    decreases parts.len(),
{
    if parts.len() == 0 {
        Seq::empty()
    } else if parts.len() == 1 {
        parts[0]
    } else {
        spec_join(parts.drop_last(), sep) + sep + parts.last()
    }
}

/// Relies on itertools::Itertools::join: concatenates the parts in order,
/// separated by `sep`.
#[verifier::external_body]
pub(crate) fn join_with(parts: &Vec<String>, sep: &str) -> (r: String)
    ensures
        r@ == spec_join(parts.deep_view(), sep@),
{
    parts.iter().join(sep)
}

} // verus!
