//! Fresh ids.

use vstd::prelude::*;

verus! {

/// A digit of a number in base sixteen, in lower case.
pub open spec fn hex_digit(c: char) -> bool {
    '0' <= c <= '9' || 'a' <= c <= 'f'
}

/// Whether a text is a random UUID: 32 digits in base sixteen in five groups with hyphens
/// between them, with the version 4 and the variant of RFC 4122.
pub open spec fn is_random_uuid(s: Seq<char>) -> bool {
    &&& s.len() == 36
    &&& forall|i: int|
        0 <= i < 36 ==> if i == 8 || i == 13 || i == 18 || i == 23 {
            #[trigger] s[i] == '-'
        } else {
            hex_digit(s[i])
        }
    &&& s[14] == '4'
    &&& s[19] == '8' || s[19] == '9' || s[19] == 'a' || s[19] == 'b'
}

/// A random UUID, by `uuid::Uuid::new_v4` and its `Display`.
///
/// Chance decides which it is. Of any that comes, the layout, the version and the variant are
/// fixed; that no id comes twice is likely, but not promised.
#[verifier::external_body]
pub(crate) fn fresh_id() -> (r: String)
    ensures
        is_random_uuid(r@),
{
    uuid::Uuid::new_v4().to_string()
}

} // verus!
