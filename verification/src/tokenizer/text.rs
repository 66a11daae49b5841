//! What the scanner needs from the standard library's text types and the
//! verifier's own library does not describe.

use vstd::prelude::*;

verus! {

/// Whether a character is alphanumeric in the sense of Unicode: alphabetic,
/// or a number of any script.
pub uninterp spec fn alphanumeric(c: char) -> bool;

/// `char::is_alphanumeric` tells whether the character is alphanumeric. The
/// answer depends on the character alone.
pub assume_specification[ char::is_alphanumeric ](c: char) -> (b: bool)
    ensures
        b == alphanumeric(c),
;

/// `String::push` appends the character to the end of the string.
pub assume_specification[ std::string::String::push ](text: &mut std::string::String, c: char)
    ensures
        final(text)@ == old(text)@.push(c),
;

/// `==` on string slices holds exactly when they spell the same characters.
pub assume_specification[ <str as PartialEq>::eq ](a: &str, b: &str) -> (same: bool)
    ensures
        same == (a@ == b@),
;

} // verus!
