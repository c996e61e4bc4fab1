//! English phrases.

use vstd::prelude::*;

verus! {

/// The English greeting.
pub fn hello() -> (phrase: String)
    ensures
        phrase@ == "hello"@,
{
    "hello".to_string()
}

/// The English farewell.
pub fn goodbye() -> (phrase: String)
    ensures
        phrase@ == "goodbye"@,
{
    "goodbye".to_string()
}

} // verus!
