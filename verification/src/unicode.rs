//! What the standard library knows of Unicode.

use vstd::prelude::*;

verus! {

/// What `char::is_alphanumeric` says of a character: whether Unicode counts it as a letter or a
/// number.
pub uninterp spec fn alphanumeric(c: char) -> bool;

/// `char::is_alphanumeric` goes by the character alone.
pub assume_specification[ char::is_alphanumeric ](c: char) -> (r: bool)
    ensures
        r == alphanumeric(c),
;

/// What `str::to_lowercase` makes of a text: the text in lower case by Unicode's rules.
pub uninterp spec fn lowercase(s: Seq<char>) -> Seq<char>;

/// `str::to_lowercase` goes by the text alone.
///
/// Nothing is said of a text that is in lower case already: the documentation does not promise
/// that such a text stays as it is.
pub assume_specification[ str::to_lowercase ](s: &str) -> (r: String)
    ensures
        r@ == lowercase(s@),
;

} // verus!
