//! Identifiers for new rows.

use vstd::prelude::*;

verus! {

/// The longest identifier that is handed out.
pub const TOKEN_MAX_LEN: usize = 24;

pub open spec fn is_lower(c: char) -> bool {
    'a' <= c <= 'z'
}

pub open spec fn is_lower_or_digit(c: char) -> bool {
    is_lower(c) || '0' <= c <= '9'
}

/// The shape of an identifier: a lower-case letter, then at least one and at
/// most twenty-three lower-case letters or digits.
pub open spec fn is_token(s: Seq<char>) -> bool {
    &&& 2 <= s.len() <= TOKEN_MAX_LEN
    &&& is_lower(s[0])
    &&& forall|i: int| 1 <= i < s.len() ==> is_lower_or_digit(#[trigger] s[i])
}

/// Calls `cuid::cuid2`, which draws a new collision-resistant identifier
/// from the clock, a counter and random numbers. Of the result only its
/// shape is claimed: the first character is a letter chosen from `a` to `z`,
/// the rest is a base-36 rendering of a hash, cut to twenty-three characters.
/// That two calls give two different identifiers is likely and not claimed.
#[verifier::external_body]
pub(crate) fn fresh_token() -> (id: String)
    ensures
        is_token(id@),
{
    cuid::cuid2()
}

} // verus!
