//! What the library needs of `String` beyond what the standard
//! specifications give.

use vstd::prelude::*;

verus! {

/// `String::push` appends one character to the end of the string and leaves
/// the rest as it was (trusted: the standard library's documentation).
pub assume_specification[ String::push ](text: &mut String, ch: char)
    ensures
        final(text)@ == old(text)@.push(ch),
;

} // verus!
