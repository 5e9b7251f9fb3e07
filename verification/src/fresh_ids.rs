//! Identifiers that were never used before.

use vstd::prelude::*;

verus! {

/// A lower-case hexadecimal digit.
pub open spec fn hex_char(c: char) -> bool {
    '0' <= c <= '9' || 'a' <= c <= 'f'
}

/// 32 hexadecimal digits in groups of 8, 4, 4, 4 and 12, with hyphens between the groups.
pub open spec fn uuid_shape(s: Seq<char>) -> bool {
    s.len() == 36 && forall|i: int|
        0 <= i < 36 ==> if i == 8 || i == 13 || i == 18 || i == 23 {
            #[trigger] s[i] == '-'
        } else {
            hex_char(s[i])
        }
}

/// 32 hexadecimal digits.
pub open spec fn simple_uuid_shape(s: Seq<char>) -> bool {
    s.len() == 32 && forall|i: int| 0 <= i < 32 ==> hex_char(#[trigger] s[i])
}

/// `uuid::Uuid::new_v4` and `to_string`. The digits are random; only their form is stated.
#[verifier::external_body]
pub(crate) fn new_uuid() -> (r: String)
    ensures
        uuid_shape(r@),
{
    uuid::Uuid::new_v4().to_string()
}

/// `uuid::Uuid::new_v4`, `simple` and `to_string`. The digits are random; only their form is
/// stated.
#[verifier::external_body]
pub(crate) fn new_simple_uuid() -> (r: String)
    ensures
        simple_uuid_shape(r@),
{
    uuid::Uuid::new_v4().simple().to_string()
}

} // verus!
