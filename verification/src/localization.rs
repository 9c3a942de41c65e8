//! Looking up translated messages.

use vstd::prelude::*;

verus! {

/// The content of a message lookup, or the empty string when there is none: what the
/// game shows for a requested message.
pub fn content_or_empty(content: Option<String>) -> (s: String)
    ensures
        s@ == match content {
            Some(c) => c@,
            None => Seq::<char>::empty(),
        },
{
    match content {
        Some(c) => c,
        None => String::new(),
    }
}

} // verus!
