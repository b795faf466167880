use vstd::prelude::*;

verus! {

/// Relies on `str::chars`: it yields the characters of the text in order.
#[verifier::external_body]
pub(crate) fn chars_of(s: &str) -> (r: Vec<char>)
    ensures
        r@ == s@,
{
    s.chars().collect()
}

/// Relies on `String: FromIterator<&char>`: it concatenates the characters in order.
#[verifier::external_body]
pub(crate) fn string_from(v: &Vec<char>) -> (r: String)
    ensures
        r@ == v@,
{
    v.iter().collect()
}

} // verus!
