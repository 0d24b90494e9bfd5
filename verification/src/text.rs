//! Character and text helpers for the scanner.
//!
//! Positions in the source are measured in characters, not bytes, so the
//! scanner works over the decoded character sequence.  [`chars_of`]
//! produces it once, up front, to avoid re-decoding the text at every
//! lookup.

use vstd::prelude::*;
use vstd::std_specs::iter::IteratorSpec;
use vstd::string::StrSliceExecFns;

verus! {

broadcast use vstd::string::group_string_axioms;

/// Whether a character counts as numeric for lexeme dispatch.  Which
/// characters do is a fixed property of the character alone; among ASCII
/// characters they are exactly the decimal digits.
pub uninterp spec fn char_is_numeric(c: char) -> bool;

/// Relies on `char::is_numeric`: true exactly for characters with a
/// Unicode numeric property, a function of the character alone; among
/// ASCII characters those are exactly the decimal digits `'0'..='9'`.
#[verifier::external_body]
pub(crate) fn is_numeric_char(c: char) -> (r: bool)
    ensures
        r == char_is_numeric(c),
        (c as u32) < 128 ==> r == (48 <= c as u32 <= 57),
{
    c.is_numeric()
}

/// The characters of `s`, in order, as a vector.
pub fn chars_of(s: &str) -> (r: Vec<char>)
    ensures
        r@ == s@,
{
    let mut it = s.chars();
    let mut out: Vec<char> = Vec::new();
    loop
        invariant
            it.obeys_prophetic_iter_laws(),
            it.decrease() is Some,
            out@ + it.remaining() == s@,
        ensures
            out@ == s@,
        decreases it.decrease()->0,
    {
        match it.next() {
            Some(c) => {
                out.push(c);
            },
            None => {
                proof {
                    assert(out@ =~= s@);
                }
                break ;
            },
        }
    }
    out
}

/// Character-by-character string equality, so that keyword matching has
/// an exact contract over the views.
pub fn str_eq(a: &str, b: &str) -> (r: bool)
    ensures
        r == (a@ == b@),
{
    let n = a.unicode_len();
    if n != b.unicode_len() {
        return false;
    }
    let mut k: usize = 0;
    while k < n
        invariant
            n == a@.len(),
            n == b@.len(),
            k <= n,
            forall|m: int| 0 <= m < k ==> a@[m] == b@[m],
        decreases n - k,
    {
        if a.get_char(k) != b.get_char(k) {
            return false;
        }
        k += 1;
    }
    proof {
        assert(a@ =~= b@);
    }
    true
}

} // verus!
