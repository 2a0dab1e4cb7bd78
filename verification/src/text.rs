//! Strings as sequences of characters.

use vstd::prelude::*;

verus! {

/// The characters of `s`, in a vector.
pub fn chars_of(s: &str) -> (v: Vec<char>)
    ensures
        v@ == s@,
{
    let mut v: Vec<char> = Vec::new();
    for c in it: s.chars()
        invariant
            it.seq() == s@,
            v@ == it.seq().take(it.index()),
    {
        v.push(c);
    }
    v
}

/// `String::from_iter` on a slice of characters: the string made of these
/// characters, in their order.
#[verifier::external_body]
pub(crate) fn string_of(chars: &[char]) -> (s: String)
    ensures
        s@ == chars@,
{
    String::from_iter(chars)
}

} // verus!
