//! Item ids: ULIDs, 26 characters of Crockford base 32, sortable by time.
use vstd::prelude::*;

verus! {

/// A character of the Crockford base-32 alphabet that ULIDs are written in.
pub open spec fn is_crockford_char(c: char) -> bool {
    ||| ('0' <= c && c <= '9')
    ||| ('A' <= c && c <= 'Z' && c != 'I' && c != 'L' && c != 'O' && c != 'U')
}

/// The shape of a ULID's text.
pub open spec fn is_ulid_text(s: Seq<char>) -> bool {
    &&& s.len() == 26
    &&& forall|i: int| 0 <= i < s.len() ==> is_crockford_char(#[trigger] s[i])
}

/// A fresh ULID from `Ulid::new().to_string()`: 26 characters of the
/// Crockford alphabet. Its value depends on the clock and on chance and is
/// not stated.
#[verifier::external_body]
pub fn new_id() -> (r: String)
    ensures
        is_ulid_text(r@),
{
    ulid::Ulid::new().to_string()
}

} // verus!
