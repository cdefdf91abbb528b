//! What is taken on trust of the standard library's strings.

use vstd::prelude::*;

verus! {

/// `String::push` of the standard library, which appends a character to a string.
/// Trusted: afterwards the string holds the characters it held, in their order, and
/// the given character after them.
pub assume_specification[ String::push ](text: &mut String, ch: char)
    ensures
        final(text)@ == old(text)@.push(ch),
;

} // verus!
