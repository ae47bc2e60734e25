//! The IANA registry side of the TLD provider: the fetched list of top-level
//! extensions, compiled to a regex disjunction.
use vstd::prelude::*;

use crate::utils::regex_string_of;
use crate::utils::to_regex_string;

verus! {

/// All top-level extensions of the registry, joined as one regex disjunction
/// in which each branch matches the dotted extension.
pub fn extensions_regex_string(extensions: &Vec<String>) -> (r: String)
    ensures
        r@ == regex_string_of(extensions.deep_view()),
{
    to_regex_string(extensions)
}

} // verus!
