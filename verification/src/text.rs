//! Small string-building helpers.

use vstd::prelude::*;

verus! {

/// Relies on String::push_str: appends the slice's characters to the
/// string.
#[verifier::external_body]
pub fn push_str(s: &mut String, other: &str)
    ensures
        final(s)@ == old(s)@ + other@,
{
    s.push_str(other)
}

/// The concatenation of two string slices as a fresh `String`.
pub fn concat(prefix: &str, rest: &str) -> (r: String)
    ensures
        r@ == prefix@ + rest@,
{
    let mut s = prefix.to_owned();
    push_str(&mut s, rest);
    s
}

} // verus!
