use vstd::prelude::*;

verus! {

/// Calls `String::push`, which appends one character to the string. The
/// contract claims that the string's characters afterwards are the old ones
/// followed by `c`, as std documents it.
#[verifier::external_body]
pub(crate) fn push_char(s: &mut String, c: char)
    ensures
        final(s)@ == old(s)@.push(c),
{
    s.push(c);
}

} // verus!
