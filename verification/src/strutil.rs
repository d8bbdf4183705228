//! Small string helpers: ASCII case conversion and character appending.

use vstd::prelude::*;

verus! {

/// An ASCII lowercase letter mapped to its uppercase counterpart; any other
/// character unchanged.
pub open spec fn upper_char(c: char) -> char {
    if 'a' <= c && c <= 'z' {
        ((c as u32) - 32) as char
    } else {
        c
    }
}

/// A string with every character case-converted by `upper_char`.
pub open spec fn upper_seq(s: Seq<char>) -> Seq<char> {
    Seq::new(s.len(), |i: int| upper_char(s[i]))
}

/// Relies on `str::to_ascii_uppercase`: ASCII lowercase letters map to
/// their uppercase counterparts and every other character is unchanged.
#[verifier::external_body]
pub(crate) fn upcase_ascii(s: &str) -> (r: String)
    ensures
        r@ == upper_seq(s@),
{
    s.to_ascii_uppercase()
}

/// Relies on `String::push`: appends one character.
#[verifier::external_body]
pub(crate) fn push_char(s: &mut String, c: char)
    ensures
        final(s)@ == old(s)@.push(c),
{
    s.push(c);
}

} // verus!
