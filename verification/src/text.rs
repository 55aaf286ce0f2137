//! What the library takes on trust about building a `String`.

use vstd::prelude::*;

verus! {

/// `String::push`, which appends one character to the end of a string and
/// leaves the characters before it as they were. This is assumed of the
/// standard library, not proved.
pub assume_specification[ String::push ](s: &mut String, c: char)
    ensures
        final(s)@ == old(s)@.push(c),
;

} // verus!
