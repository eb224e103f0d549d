use vstd::prelude::*;

verus! {

/// Relies on `String: FromIterator<&char>` of std: collecting the characters
/// of a vector yields the string of exactly those characters, in order.
#[verifier::external_body]
pub(crate) fn chars_to_string(v: &Vec<char>) -> (r: String)
    ensures
        r@ == v@,
{
    v.iter().collect()
}

} // verus!
