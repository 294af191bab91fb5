//! The routes that need nothing but an answer.

use vstd::prelude::*;
use vstd::string::*;

verus! {

/// Says that the server runs.
pub fn healthcheck() -> (r: String)
    ensures
        r@ == "OK"@,
{
    "OK".to_owned()
}

} // verus!
