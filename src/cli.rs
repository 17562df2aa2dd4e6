//! Command-line usage text.
use vstd::prelude::*;

verus! {

/// The usage line printed when the arguments cannot be used.
pub fn help() -> (r: String)
    ensures
        r@ == "usage: forest-green [<configuration_file>]\n"@,
{
    String::from_str("usage: forest-green [<configuration_file>]\n")
}

} // verus!
