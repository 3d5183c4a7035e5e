//! Two string-building helpers over parts of std that vstd leaves
//! unspecified.

use vstd::prelude::*;

verus! {

/// Relies on `String::push` of std, which vstd leaves unspecified: it appends
/// exactly the one character to the string.
#[verifier::external_body]
pub(crate) fn push_char(out: &mut String, c: char)
    ensures
        final(out)@ == old(out)@.push(c),
{
    out.push(c);
}

/// Relies on `char::from_u32` of std, which vstd leaves unspecified: it
/// returns `Some` exactly for Unicode scalar values (below the surrogate
/// range, or above it up to the last code point), carrying that code point.
#[verifier::external_body]
pub(crate) fn char_from_u32(n: u32) -> (r: Option<char>)
    ensures
        r is Some <==> (n < 0xD800 || (0xE000 <= n && n <= 0x10FFFF)),
        r matches Some(c) ==> c as u32 == n && c == n as char,
{
    char::from_u32(n)
}

} // verus!
