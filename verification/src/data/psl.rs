//! The public-suffix side of the TLD provider: fetched suffix and extension
//! lists, compiled to regex disjunctions.
use vstd::prelude::*;

use crate::utils::regex_string_of;
use crate::utils::to_regex_string;

verus! {

/// All public suffixes, joined as one regex disjunction in which each branch
/// matches the dotted suffix.
pub fn suffixes_regex_string(suffixes: &Vec<String>) -> (r: String)
    ensures
        r@ == regex_string_of(suffixes.deep_view()),
{
    to_regex_string(suffixes)
}

/// All extensions of the registry, joined the same way.
pub fn extensions_regex_string(extensions: &Vec<String>) -> (r: String)
    ensures
        r@ == regex_string_of(extensions.deep_view()),
{
    to_regex_string(extensions)
}

} // verus!
