//! Small string helpers over the character view of strings.

use vstd::prelude::*;

verus! {

/// Whether two strings hold the same characters.
pub fn str_equal(a: &str, b: &str) -> (res: bool)
    ensures
        res == (a@ == b@),
{
    a.to_owned() == b.to_owned()
}

} // verus!
